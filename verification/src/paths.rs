//! Canonical URL paths.
//!
//! Every resource has one spelling: segments of printable ASCII separated by single
//! slashes, where an escape stands only for an octet that cannot be written plainly.
use crate::text::{
    chars_of, first_index, lemma_first_index, lemma_split_parts, same, split, split_parts, texts,
};
use vstd::prelude::*;
use vstd::string::*;

verus! {

/// The value of a hexadecimal digit.
pub open spec fn hex_digit(c: char) -> Option<int> {
    if '0' <= c <= '9' {
        Some(c as int - 48)
    } else if 'a' <= c <= 'f' {
        Some(c as int - 87)
    } else if 'A' <= c <= 'F' {
        Some(c as int - 55)
    } else {
        None
    }
}

/// The upper-case digit that writes `d`.
pub open spec fn upper_hex_char(d: int) -> char {
    if d < 10 {
        (48 + d) as char
    } else {
        (55 + d) as char
    }
}

/// A hexadecimal digit that is not a lower-case letter.
pub open spec fn is_upper_hex(c: char) -> bool {
    '0' <= c <= '9' || 'A' <= c <= 'F'
}

/// The octets that never need an escape.
pub open spec fn is_unreserved(v: int) -> bool {
    48 <= v <= 57 || 65 <= v <= 90 || 97 <= v <= 122 || v == 45 || v == 46 || v == 95 || v == 126
}

/// The octets that delimit parts of a URL: `/`, `\`, `?` and `#`.
pub open spec fn is_delimiter(v: int) -> bool {
    v == 47 || v == 92 || v == 63 || v == 35
}

/// A character that may stand in a segment: printable ASCII and no delimiter.
pub open spec fn is_segment_char(c: char) -> bool {
    '!' <= c <= '~' && !is_delimiter(c as int)
}

/// Two hexadecimal digits follow position `i`.
pub open spec fn has_escape(s: Seq<char>, i: int) -> bool {
    i + 2 < s.len() && hex_digit(s[i + 1]) is Some && hex_digit(s[i + 2]) is Some
}

/// The octet that the escape at position `i` stands for.
pub open spec fn escape_value(s: Seq<char>, i: int) -> int {
    hex_digit(s[i + 1])->0 * 16 + hex_digit(s[i + 2])->0
}

/// The escape at position `i` is the one spelling of its octet.
pub open spec fn canonical_escape(s: Seq<char>, i: int) -> bool {
    &&& has_escape(s, i)
    &&& is_upper_hex(s[i + 1])
    &&& is_upper_hex(s[i + 2])
    &&& !is_unreserved(escape_value(s, i))
    &&& !is_delimiter(escape_value(s, i))
}

/// A segment in its one spelling.
pub open spec fn canonical_segment_text(s: Seq<char>) -> bool {
    &&& s.len() > 0
    &&& s != "."@
    &&& s != ".."@
    &&& forall|i: int|
        0 <= i < s.len() ==> is_segment_char(#[trigger] s[i]) && (s[i] == '%' ==> canonical_escape(
            s,
            i,
        ))
}

/// A relative path in its one spelling: canonical segments, and possibly a slash at the end.
pub open spec fn canonical_path_text(s: Seq<char>) -> bool {
    let parts = split(s, '/');
    forall|i: int|
        0 <= i < parts.len() ==> canonical_segment_text(#[trigger] parts[i]) || (i > 0 && i
            == parts.len() - 1 && parts[i].len() == 0)
}

/// The path with every escape in its one spelling: a plain character where the octet
/// needs no escape, upper-case digits elsewhere. `None` where an escape is malformed.
pub open spec fn respelled(s: Seq<char>) -> Option<Seq<char>>
    decreases s.len(),
{
    if s.len() == 0 {
        Some(Seq::empty())
    } else if s[0] != '%' {
        match respelled(s.drop_first()) {
            Some(t) => Some(seq![s[0]] + t),
            None => None,
        }
    } else if !has_escape(s, 0) {
        None
    } else {
        match respelled(s.skip(3)) {
            Some(t) => Some(respelled_escape(s) + t),
            None => None,
        }
    }
}

/// The one spelling of the octet escaped at the start of `s`.
pub open spec fn respelled_escape(s: Seq<char>) -> Seq<char> {
    let v = escape_value(s, 0);
    if is_unreserved(v) {
        seq![v as char]
    } else {
        seq!['%', upper_hex_char(hex_digit(s[1])->0), upper_hex_char(hex_digit(s[2])->0)]
    }
}

/// The canonical relative path for an absolute one.
pub open spec fn canonical_rewrite(s: Seq<char>) -> Option<Seq<char>> {
    if s.len() > 0 && s[0] == '/' {
        match respelled(s.drop_first()) {
            Some(t) => if canonical_path_text(t) {
                Some(t)
            } else {
                None
            },
            None => None,
        }
    } else {
        None
    }
}

/// The value of a hexadecimal digit.
pub fn hex_value(c: char) -> (r: Option<u8>)
    ensures
        match hex_digit(c) {
            Some(d) => r == Some(d as u8) && 0 <= d < 16,
            None => r is None,
        },
{
    if '0' <= c && c <= '9' {
        Some(c as u8 - 48)
    } else if 'a' <= c && c <= 'f' {
        Some(c as u8 - 87)
    } else if 'A' <= c && c <= 'F' {
        Some(c as u8 - 55)
    } else {
        None
    }
}

/// The upper-case digit that writes `d`.
fn upper_digit(d: u8) -> (r: char)
    requires
        d < 16,
    ensures
        r == upper_hex_char(d as int),
{
    if d < 10 {
        (48 + d) as char
    } else {
        (55 + d) as char
    }
}

fn unreserved(v: u8) -> (r: bool)
    ensures
        r == is_unreserved(v as int),
{
    (48 <= v && v <= 57) || (65 <= v && v <= 90) || (97 <= v && v <= 122) || v == 45 || v == 46 || v
        == 95 || v == 126
}

fn delimiter(v: u8) -> (r: bool)
    ensures
        r == is_delimiter(v as int),
{
    v == 47 || v == 92 || v == 63 || v == 35
}

fn upper_hex(c: char) -> (r: bool)
    ensures
        r == is_upper_hex(c),
{
    ('0' <= c && c <= '9') || ('A' <= c && c <= 'F')
}

/// The octet escaped at position `i`, where two hexadecimal digits follow it.
fn escaped_octet(chars: &Vec<char>, i: usize) -> (r: Option<u8>)
    requires
        i < chars.len(),
    ensures
        has_escape(chars@, i as int) ==> r == Some(escape_value(chars@, i as int) as u8) && 0
            <= escape_value(chars@, i as int) < 256,
        !has_escape(chars@, i as int) ==> r is None,
{
    if chars.len() - i < 3 {
        return None;
    }
    match (hex_value(chars[i + 1]), hex_value(chars[i + 2])) {
        (Some(high), Some(low)) => Some(high * 16 + low),
        _ => None,
    }
}

/// Tells whether a segment is in its one spelling.
pub fn canonical_segment(segment: &str) -> (r: bool)
    ensures
        r == canonical_segment_text(segment@),
{
    let chars = chars_of(segment);
    if chars.len() == 0 || same(segment, ".") || same(segment, "..") {
        return false;
    }
    let ghost s = segment@;
    let mut i: usize = 0;
    while i < chars.len()
        invariant
            s == segment@,
            chars@ == s,
            i <= chars.len(),
            forall|j: int|
                0 <= j < i ==> is_segment_char(#[trigger] s[j]) && (s[j] == '%' ==> canonical_escape(
                    s,
                    j,
                )),
        decreases chars.len() - i,
    {
        let c = chars[i];
        if c < '!' || '~' < c || delimiter(c as u8) {
            proof {
                assert(!is_segment_char(s[i as int]));
            }
            return false;
        }
        if c == '%' {
            match escaped_octet(&chars, i) {
                Some(v) => {
                    if !upper_hex(chars[i + 1]) || !upper_hex(chars[i + 2]) || unreserved(v)
                        || delimiter(v) {
                        proof {
                            assert(s[i as int] == '%' && !canonical_escape(s, i as int));
                        }
                        return false;
                    }
                },
                None => {
                    proof {
                        assert(s[i as int] == '%' && !canonical_escape(s, i as int));
                    }
                    return false;
                },
            }
        }
        i = i + 1;
    }
    true
}

/// Tells whether a relative path is in its one spelling.
pub fn canonical_path(path: &str) -> (r: bool)
    ensures
        r == canonical_path_text(path@),
{
    let parts = split_parts(path, '/');
    let ghost texts_of = texts(parts@);
    let mut i: usize = 0;
    while i < parts.len()
        invariant
            texts_of == texts(parts@),
            texts_of == split(path@, '/'),
            i <= parts.len(),
            forall|j: int|
                0 <= j < i ==> canonical_segment_text(#[trigger] texts_of[j]) || (j > 0 && j
                    == texts_of.len() - 1 && texts_of[j].len() == 0),
        decreases parts.len() - i,
    {
        let part = parts[i].as_str();
        proof {
            assert(texts_of[i as int] == part@);
        }
        if !canonical_segment(part) && !(i > 0 && i == parts.len() - 1 && chars_of(part).len()
            == 0) {
            return false;
        }
        i = i + 1;
    }
    true
}

/// The canonical relative path for the absolute path of a URL.
///
/// Escapes of characters that need none are resolved and the others are written in upper
/// case. There is none where the path has no canonical form.
pub fn canonical_rewrite_path(path: &str) -> (r: Option<String>)
    ensures
        match canonical_rewrite(path@) {
            Some(t) => r matches Some(p) && p@ == t,
            None => r is None,
        },
{
    let chars = chars_of(path);
    if chars.len() == 0 || chars[0] != '/' {
        return None;
    }
    let ghost s = path@.drop_first();
    let mut output = String::new();
    let mut i: usize = 1;
    proof {
        assert(path@.skip(1) =~= s);
        if respelled(s) is Some {
            assert(Seq::<char>::empty() + respelled(s)->0 =~= respelled(s)->0);
        }
    }
    while i < chars.len()
        invariant
            chars@ == path@,
            1 <= i <= chars.len(),
            respelled(s) == (match respelled(path@.skip(i as int)) {
                Some(t) => Some(output@ + t),
                None => None,
            }),
            s == path@.drop_first(),
            path@.len() > 0 && path@[0] == '/',
        decreases chars.len() - i,
    {
        let ghost rest = path@.skip(i as int);
        let ghost before = output@;
        if chars[i] != '%' {
            output.push(chars[i]);
            proof {
                assert(rest.drop_first() =~= path@.skip(i + 1));
                if respelled(rest.drop_first()) is Some {
                    let t = respelled(rest.drop_first())->0;
                    assert(before + (seq![rest[0]] + t) =~= output@ + t);
                }
            }
            i = i + 1;
        } else {
            proof {
                assert(has_escape(rest, 0) == has_escape(path@, i as int));
            }
            let v: u8 = match escaped_octet(&chars, i) {
                Some(v) => v,
                None => return None,
            };
            if unreserved(v) {
                output.push(v as char);
            } else {
                output.push('%');
                match (hex_value(chars[i + 1]), hex_value(chars[i + 2])) {
                    (Some(high), Some(low)) => {
                        output.push(upper_digit(high));
                        output.push(upper_digit(low));
                    },
                    _ => {},
                }
            }
            proof {
                assert(rest.skip(3) =~= path@.skip(i + 3));
                assert(output@ =~= before + respelled_escape(rest));
                if respelled(rest.skip(3)) is Some {
                    let t = respelled(rest.skip(3))->0;
                    assert(before + (respelled_escape(rest) + t) =~= output@ + t);
                }
            }
            i = i + 3;
        }
    }
    proof {
        assert(path@.skip(i as int) =~= Seq::<char>::empty());
        assert(output@ + Seq::<char>::empty() =~= output@);
    }
    if canonical_path(output.as_str()) {
        Some(output)
    } else {
        None
    }
}

// ---------------------------------------------------------------------------
// Laws
// ---------------------------------------------------------------------------

/// A canonical path holds nothing but slashes and segment characters; every `%` in it
/// starts an escape in its one spelling; it does not begin with a slash, and no two slashes
/// stand side by side.
pub proof fn canonical_path_characters(s: Seq<char>)
    requires
        canonical_path_text(s),
    ensures
        s.len() > 0,
        s[0] != '/',
        forall|i: int|
            0 <= i < s.len() ==> (#[trigger] s[i] == '/' || is_segment_char(s[i])) && (s[i] == '%'
                ==> canonical_escape(s, i)),
        forall|i: int|
            0 <= i < s.len() - 1 && #[trigger] s[i] == '/' ==> s[i + 1] != '/',
    decreases s.len(),
{
    let parts = split(s, '/');
    lemma_first_index(s, '/');
    let f = first_index(s, '/');
    if f == s.len() {
        assert(parts[0] == s);
        assert forall|i: int| 0 <= i < s.len() implies is_segment_char(#[trigger] s[i]) && s[i]
            != '/' by {}
    } else {
        let head = s.take(f);
        let tail = s.skip(f + 1);
        assert(parts == seq![head] + split(tail, '/'));
        assert(parts[0] == head);
        assert(canonical_segment_text(head));
        if tail.len() > 0 {
            let rest = split(tail, '/');
            assert forall|i: int| 0 <= i < rest.len() implies canonical_segment_text(
                #[trigger] rest[i],
            ) || (i > 0 && i == rest.len() - 1 && rest[i].len() == 0) by {
                assert(parts[i + 1] == rest[i]);
                if i == 0 && rest[0].len() == 0 {
                    assert(rest.len() == 1);
                    lemma_first_index(tail, '/');
                    lemma_split_parts(tail.skip(first_index(tail, '/') + 1), '/');
                    assert(rest[0] == tail);
                }
            }
            canonical_path_characters(tail);
            assert(tail[0] == s[f + 1]);
        }
        assert forall|i: int| 0 <= i < s.len() implies (#[trigger] s[i] == '/' || is_segment_char(
            s[i],
        )) && (s[i] == '%' ==> canonical_escape(s, i)) by {
            if i < f {
                assert(head[i] == s[i]);
                if s[i] == '%' {
                    assert(canonical_escape(head, i));
                    assert(head[i + 1] == s[i + 1] && head[i + 2] == s[i + 2]);
                }
            } else if i > f {
                let k = i - f - 1;
                assert(tail[k] == s[i]);
                if s[i] == '%' {
                    assert(canonical_escape(tail, k));
                    assert(tail[k + 1] == s[i + 1] && tail[k + 2] == s[i + 2]);
                }
            }
        }
        assert forall|i: int| 0 <= i < s.len() - 1 && #[trigger] s[i] == '/' implies s[i + 1]
            != '/' by {
            if i > f {
                assert(tail[i - f - 1] == s[i]);
                assert(tail[i - f] == s[i + 1]);
            }
        }
    }
}

/// A path whose escapes are all in their one spelling is respelled as itself.
proof fn lemma_respelled_fixed(s: Seq<char>)
    requires
        forall|i: int| 0 <= i < s.len() && #[trigger] s[i] == '%' ==> canonical_escape(s, i),
    ensures
        respelled(s) == Some(s),
    decreases s.len(),
{
    if s.len() == 0 {
        assert(s =~= Seq::<char>::empty());
    } else if s[0] != '%' {
        let t = s.drop_first();
        assert forall|i: int| 0 <= i < t.len() && #[trigger] t[i] == '%' implies canonical_escape(
            t,
            i,
        ) by {
            assert(s[i + 1] == '%');
            assert(s[i + 2] == t[i + 1] && s[i + 3] == t[i + 2]);
        }
        lemma_respelled_fixed(t);
        assert(seq![s[0]] + t =~= s);
    } else {
        assert(canonical_escape(s, 0));
        let t = s.skip(3);
        assert forall|i: int| 0 <= i < t.len() && #[trigger] t[i] == '%' implies canonical_escape(
            t,
            i,
        ) by {
            assert(s[i + 3] == '%');
            assert(s[i + 4] == t[i + 1] && s[i + 5] == t[i + 2]);
        }
        lemma_respelled_fixed(t);
        assert(respelled_escape(s) + t =~= s);
    }
}

/// A canonical path is its own canonical form.
pub proof fn canonical_path_is_fixed(s: Seq<char>)
    requires
        canonical_path_text(s),
    ensures
        canonical_rewrite(seq!['/'] + s) == Some(s),
{
    canonical_path_characters(s);
    lemma_respelled_fixed(s);
    assert((seq!['/'] + s).drop_first() =~= s);
}

/// What a path is rewritten to is canonical, and rewriting it again changes nothing.
pub proof fn canonical_rewrite_is_idempotent(s: Seq<char>)
    requires
        canonical_rewrite(s) is Some,
    ensures
        canonical_path_text(canonical_rewrite(s)->0),
        canonical_rewrite(seq!['/'] + canonical_rewrite(s)->0) == canonical_rewrite(s),
{
    canonical_path_is_fixed(canonical_rewrite(s)->0);
}

/// The value of a hexadecimal digit in either case, or -1.
pub open spec fn hex_worth(c: char) -> int {
    if 48 <= c as int <= 57 {
        c as int - 48
    } else if 65 <= c as int <= 70 {
        c as int - 55
    } else if 97 <= c as int <= 102 {
        c as int - 87
    } else {
        -1
    }
}

/// A letter, a digit, or one of `-`, `.`, `_` and `~`.
pub open spec fn is_plain_octet(v: int) -> bool {
    65 <= v <= 90 || 97 <= v <= 122 || 48 <= v <= 57 || v == 45 || v == 46 || v == 95 || v == 126
}

/// The grammar of a segment. It has at least one character and is no dot segment; it holds
/// nothing but visible ASCII, and none of `/`, `\`, `?` and `#`; and every `%` in it is followed
/// by two hexadecimal digits, without lower-case letters, of an octet that is neither a letter,
/// a digit, one of `-`, `.`, `_`, `~`, nor one of `/`, `\`, `?`, `#`.
pub proof fn segments_have_one_spelling(s: Seq<char>)
    ensures
        canonical_segment_text(s) <==> {
            &&& s.len() > 0
            &&& s != seq!['.']
            &&& s != seq!['.', '.']
            &&& forall|i: int|
                0 <= i < s.len() ==> {
                    let n = #[trigger] s[i] as int;
                    &&& 33 <= n <= 126 && n != 47 && n != 92 && n != 63 && n != 35
                    &&& n == 37 ==> {
                        let v = hex_worth(s[i + 1]) * 16 + hex_worth(s[i + 2]);
                        &&& i + 2 < s.len() && hex_worth(s[i + 1]) >= 0 && hex_worth(s[i + 2]) >= 0
                        &&& !(97 <= s[i + 1] as int <= 102) && !(97 <= s[i + 2] as int <= 102)
                        &&& !is_plain_octet(v) && v != 47 && v != 92 && v != 63 && v != 35
                    }
                }
        },
{
    reveal_strlit(".");
    reveal_strlit("..");
    assert("."@ =~= seq!['.']);
    assert(".."@ =~= seq!['.', '.']);
    if canonical_segment_text(s) {
        assert forall|i: int| 0 <= i < s.len() implies {
            let n = #[trigger] s[i] as int;
            &&& 33 <= n <= 126 && n != 47 && n != 92 && n != 63 && n != 35
            &&& n == 37 ==> {
                let v = hex_worth(s[i + 1]) * 16 + hex_worth(s[i + 2]);
                &&& i + 2 < s.len() && hex_worth(s[i + 1]) >= 0 && hex_worth(s[i + 2]) >= 0
                &&& !(97 <= s[i + 1] as int <= 102) && !(97 <= s[i + 2] as int <= 102)
                &&& !is_plain_octet(v) && v != 47 && v != 92 && v != 63 && v != 35
            }
        } by {
            assert(is_segment_char(s[i]));
            if s[i] == '%' {
                assert(canonical_escape(s, i));
            }
        }
    }
}

/// The grammar of a path. A path without a slash is canonical where it is a segment; one with a
/// slash where what stands before the first slash is a segment and what stands behind it is
/// empty or a canonical path again.
pub proof fn paths_are_segments_between_slashes(head: Seq<char>, tail: Seq<char>)
    requires
        !head.contains('/'),
    ensures
        canonical_path_text(head) <==> canonical_segment_text(head),
        canonical_path_text(head + seq!['/'] + tail) <==> canonical_segment_text(head) && (
        tail.len() == 0 || canonical_path_text(tail)),
{
    let s = head + seq!['/'] + tail;
    crate::text::texts_are_split_at_every_separator(head, '/', tail);
    let parts = split(s, '/');
    let rest = split(tail, '/');
    lemma_split_parts(tail, '/');
    assert(parts == seq![head] + rest);
    assert(parts[0] == head);
    assert forall|i: int| 0 <= i < rest.len() implies #[trigger] parts[i + 1] == rest[i] by {}
    if canonical_path_text(head) {
        assert(split(head, '/')[0] == head);
    }
    if tail.len() == 0 {
        assert(!tail.contains('/'));
        crate::text::texts_are_split_at_every_separator(tail, '/', tail);
        assert(rest =~= seq![tail]);
        assert(parts.len() == 2);
        if canonical_segment_text(head) {
            assert forall|i: int| 0 <= i < parts.len() implies canonical_segment_text(
                #[trigger] parts[i],
            ) || (i > 0 && i == parts.len() - 1 && parts[i].len() == 0) by {
                if i == 1 {
                    assert(parts[1] == rest[0]);
                }
            }
        }
        if canonical_path_text(s) {
            assert(canonical_segment_text(parts[0]) || (0 > 0int && parts[0].len() == 0));
        }
    } else {
        if canonical_segment_text(head) && canonical_path_text(tail) {
            assert forall|i: int| 0 <= i < parts.len() implies canonical_segment_text(
                #[trigger] parts[i],
            ) || (i > 0 && i == parts.len() - 1 && parts[i].len() == 0) by {
                if i > 0 {
                    assert(parts[i] == rest[i - 1]);
                }
            }
        }
        if canonical_path_text(s) {
            assert(canonical_segment_text(parts[0]) || (0 > 0int && parts[0].len() == 0));
            assert forall|i: int| 0 <= i < rest.len() implies canonical_segment_text(
                #[trigger] rest[i],
            ) || (i > 0 && i == rest.len() - 1 && rest[i].len() == 0) by {
                assert(parts[i + 1] == rest[i]);
                if i == 0 && rest[0].len() == 0 {
                    assert(rest.len() == 1);
                    lemma_first_index(tail, '/');
                    let f = first_index(tail, '/');
                    if f < tail.len() {
                        lemma_split_parts(tail.skip(f + 1), '/');
                    }
                    assert(rest[0] == tail);
                }
            }
        }
    }
}

/// How a path is respelled, piece by piece. A character that is no `%` stays; an escape of a
/// letter, a digit, `-`, `.`, `_` or `~` becomes that character; any other escape keeps its
/// octet, in capitals; and a `%` without two hexadecimal digits behind it has no spelling.
pub proof fn paths_are_respelled_piece_by_piece(c: char, a: char, b: char, rest: Seq<char>)
    ensures
        respelled(Seq::empty()) == Some(Seq::<char>::empty()),
        c != '%' ==> respelled(seq![c] + rest) == (match respelled(rest) {
            Some(t) => Some(seq![c] + t),
            None => None,
        }),
        rest.len() < 2 ==> respelled(seq!['%'] + rest) is None,
        hex_worth(a) < 0 || hex_worth(b) < 0 ==> respelled(seq!['%', a, b] + rest) is None,
        hex_worth(a) >= 0 && hex_worth(b) >= 0 ==> {
            let v = hex_worth(a) * 16 + hex_worth(b);
            let capital = |x: char|
                if 97 <= x as int <= 102 {
                    (x as int - 32) as char
                } else {
                    x
                };
            respelled(seq!['%', a, b] + rest) == (match respelled(rest) {
                Some(t) => if is_plain_octet(v) {
                    Some(seq![v as char] + t)
                } else {
                    Some(seq!['%', capital(a), capital(b)] + t)
                },
                None => None,
            })
        },
{
    let s = seq![c] + rest;
    assert(s.drop_first() =~= rest);
    let p = seq!['%', a, b] + rest;
    assert(p.skip(3) =~= rest);
    assert(p[0] == '%' && p[1] == a && p[2] == b);
    let q = seq!['%'] + rest;
    assert(q[0] == '%');
}

/// The canonical form of an absolute path is its respelling behind the first slash, where that
/// is canonical; nothing else has one.
pub proof fn canonical_forms_are_canonical_respellings(path: Seq<char>, rest: Seq<char>)
    ensures
        path.len() == 0 || path[0] != '/' ==> canonical_rewrite(path) is None,
        canonical_rewrite(seq!['/'] + rest) == (match respelled(rest) {
            Some(t) => if canonical_path_text(t) {
                Some(t)
            } else {
                None
            },
            None => None,
        }),
{
    assert((seq!['/'] + rest).drop_first() =~= rest);
}

} // verus!
