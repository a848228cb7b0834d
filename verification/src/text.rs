//! Text helpers. A string is modelled by its sequence of characters.
use vstd::prelude::*;
use vstd::string::*;
use vstd::utf8::*;

verus! {

// ---------------------------------------------------------------------------
// Characters
// ---------------------------------------------------------------------------

/// An ASCII decimal digit.
pub open spec fn is_digit(c: char) -> bool {
    '0' <= c <= '9'
}

/// The character that writes the digit `d`.
pub open spec fn digit_char(d: int) -> char {
    (48 + d) as char
}

/// The value of a decimal digit character.
pub open spec fn digit_value(c: char) -> int {
    (c as int) - 48
}

/// ASCII lower case of one character; every other character is itself.
pub open spec fn lower(c: char) -> char {
    if 'A' <= c <= 'Z' {
        ((c as int) + 32) as char
    } else {
        c
    }
}

/// The characters with the Unicode property `White_Space`.
pub open spec fn is_white_space(c: char) -> bool {
    ||| '\u{9}' <= c <= '\u{d}'
    ||| c == ' '
    ||| c == '\u{85}'
    ||| c == '\u{a0}'
    ||| c == '\u{1680}'
    ||| '\u{2000}' <= c <= '\u{200a}'
    ||| c == '\u{2028}'
    ||| c == '\u{2029}'
    ||| c == '\u{202f}'
    ||| c == '\u{205f}'
    ||| c == '\u{3000}'
}

/// Tells whether `c` is an ASCII decimal digit.
pub fn digit(c: char) -> (r: bool)
    ensures
        r == is_digit(c),
{
    '0' <= c && c <= '9'
}

/// ASCII lower case of `c`.
pub fn lower_char(c: char) -> (r: char)
    ensures
        r == lower(c),
{
    if 'A' <= c && c <= 'Z' {
        ((c as u8) + 32) as char
    } else {
        c
    }
}

/// Tells whether `c` has the Unicode property `White_Space`.
pub fn white_space(c: char) -> (r: bool)
    ensures
        r == is_white_space(c),
{
    ('\u{9}' <= c && c <= '\u{d}') || c == ' ' || c == '\u{85}' || c == '\u{a0}' || c == '\u{1680}'
        || ('\u{2000}' <= c && c <= '\u{200a}') || c == '\u{2028}' || c == '\u{2029}' || c
        == '\u{202f}' || c == '\u{205f}' || c == '\u{3000}'
}

// ---------------------------------------------------------------------------
// Strings as sequences of characters
// ---------------------------------------------------------------------------

/// `String::push` appends one character at the end.
pub assume_specification[ String::push ](s: &mut String, c: char)
    ensures
        final(s)@ == old(s)@.push(c),
;

/// The view of an optional string.
pub open spec fn opt_text(o: Option<String>) -> Option<Seq<char>> {
    match o {
        Some(s) => Some(s@),
        None => None,
    }
}

/// The view of an optional string slice.
pub open spec fn opt_str(o: Option<&str>) -> Option<Seq<char>> {
    match o {
        Some(s) => Some(s@),
        None => None,
    }
}

/// Two texts are equal when ASCII letters are compared without case.
pub open spec fn same_ignoring_case(a: Seq<char>, b: Seq<char>) -> bool {
    a.len() == b.len() && forall|i: int| 0 <= i < a.len() ==> lower(#[trigger] a[i]) == lower(b[i])
}

/// The text without leading white space.
pub open spec fn trim_left(s: Seq<char>) -> Seq<char>
    decreases s.len(),
{
    if s.len() > 0 && is_white_space(s[0]) {
        trim_left(s.drop_first())
    } else {
        s
    }
}

/// The text without trailing white space.
pub open spec fn trim_right(s: Seq<char>) -> Seq<char>
    decreases s.len(),
{
    if s.len() > 0 && is_white_space(s.last()) {
        trim_right(s.drop_last())
    } else {
        s
    }
}

/// The text without leading and trailing white space.
pub open spec fn trimmed(s: Seq<char>) -> Seq<char> {
    trim_right(trim_left(s))
}

/// Position of the first occurrence of `c`, or the length when there is none.
pub open spec fn first_index(s: Seq<char>, c: char) -> int
    decreases s.len(),
{
    if s.len() == 0 {
        0
    } else if s[0] == c {
        0
    } else {
        1 + first_index(s.drop_first(), c)
    }
}

/// `needle` occurs in `s` at position `i`.
pub open spec fn occurs_at(s: Seq<char>, needle: Seq<char>, i: int) -> bool {
    0 <= i && i + needle.len() <= s.len() && s.subrange(i, i + needle.len()) == needle
}

/// The parts of `s` between the occurrences of `c`; one part where there is none.
pub open spec fn split(s: Seq<char>, c: char) -> Seq<Seq<char>>
    decreases s.len(),
{
    let i = first_index(s, c);
    if 0 <= i < s.len() {
        seq![s.take(i)] + split(s.skip(i + 1), c)
    } else {
        seq![s]
    }
}

/// The position of the first occurrence of `needle` in `s`.
pub open spec fn find(s: Seq<char>, needle: Seq<char>) -> Option<int>
    decreases s.len(),
{
    if needle.is_prefix_of(s) {
        Some(0)
    } else if s.len() == 0 {
        None
    } else {
        match find(s.drop_first(), needle) {
            Some(i) => Some(i + 1),
            None => None,
        }
    }
}

/// The views of a list of strings.
pub open spec fn texts(v: Seq<String>) -> Seq<Seq<char>> {
    v.map_values(|s: String| s@)
}

/// `first_index` points at the first occurrence, or past the end.
pub proof fn lemma_first_index(s: Seq<char>, c: char)
    ensures
        0 <= first_index(s, c) <= s.len(),
        first_index(s, c) < s.len() ==> s[first_index(s, c)] == c,
        forall|j: int| 0 <= j < first_index(s, c) ==> #[trigger] s[j] != c,
        s.contains(c) <==> first_index(s, c) < s.len(),
    decreases s.len(),
{
    if s.len() > 0 && s[0] != c {
        let t = s.drop_first();
        lemma_first_index(t, c);
        assert forall|j: int| 0 <= j < first_index(s, c) implies #[trigger] s[j] != c by {
            if j > 0 {
                assert(t[j - 1] == s[j]);
            }
        }
        if t.contains(c) {
            let k = choose|k: int| 0 <= k < t.len() && t[k] == c;
            assert(s[k + 1] == c);
        }
        if s.contains(c) {
            let k = choose|k: int| 0 <= k < s.len() && s[k] == c;
            assert(t[k - 1] == c);
        }
    } else if s.len() > 0 {
        assert(s[0] == c);
    }
}

/// The first occurrence is determined by what stands before it.
pub proof fn lemma_first_index_is(s: Seq<char>, c: char, i: int)
    requires
        0 <= i <= s.len(),
        i < s.len() ==> s[i] == c,
        forall|j: int| 0 <= j < i ==> #[trigger] s[j] != c,
    ensures
        first_index(s, c) == i,
{
    lemma_first_index(s, c);
    let f = first_index(s, c);
    if f < i {
        assert(s[f] != c);
    } else if f > i {
        assert(s[i] != c);
    }
}

/// Every part lies between separators, so none holds one.
pub proof fn lemma_split_parts(s: Seq<char>, c: char)
    ensures
        split(s, c).len() >= 1,
        forall|i: int| 0 <= i < split(s, c).len() ==> !(#[trigger] split(s, c)[i]).contains(c),
    decreases s.len(),
{
    lemma_first_index(s, c);
    let i = first_index(s, c);
    if i < s.len() {
        lemma_split_parts(s.skip(i + 1), c);
        let rest = split(s.skip(i + 1), c);
        assert forall|k: int| 0 <= k < split(s, c).len() implies !(#[trigger] split(
            s,
            c,
        )[k]).contains(c) by {
            if k > 0 {
                assert(split(s, c)[k] == rest[k - 1]);
            } else {
                assert(split(s, c)[0] == s.take(i));
                if s.take(i).contains(c) {
                    let j = choose|j: int| 0 <= j < i && s.take(i)[j] == c;
                    assert(s[j] == c);
                }
            }
        }
    }
}

/// The characters of `s`, in order.
pub fn chars_of(s: &str) -> (out: Vec<char>)
    ensures
        out@ == s@,
{
    let mut out: Vec<char> = Vec::new();
    for c in it: s.chars()
        invariant
            it.seq() == s@,
            out@ == s@.take(it.index() as int),
    {
        proof {
            assert(s@.take(it.index() as int + 1) == s@.take(it.index() as int).push(c));
        }
        out.push(c);
    }
    proof {
        assert(s@.take(s@.len() as int) == s@);
    }
    out
}

/// The string holding exactly the characters `chars[from..to]`.
pub fn string_of(chars: &Vec<char>, from: usize, to: usize) -> (out: String)
    requires
        from <= to <= chars.len(),
    ensures
        out@ == chars@.subrange(from as int, to as int),
{
    let mut out = String::new();
    let mut i: usize = from;
    while i < to
        invariant
            from <= i <= to <= chars.len(),
            out@ == chars@.subrange(from as int, i as int),
        decreases to - i,
    {
        out.push(chars[i]);
        proof {
            assert(chars@.subrange(from as int, i as int + 1) == chars@.subrange(
                from as int,
                i as int,
            ).push(chars@[i as int]));
        }
        i = i + 1;
    }
    out
}

/// Tells whether `chars[at..at + needle.len()]` is `needle`.
pub fn found_at(chars: &Vec<char>, at: usize, needle: &Vec<char>) -> (r: bool)
    ensures
        r == occurs_at(chars@, needle@, at as int),
{
    if at > chars.len() || needle.len() > chars.len() - at {
        return false;
    }
    let mut i: usize = 0;
    while i < needle.len()
        invariant
            at + needle.len() <= chars.len(),
            i <= needle.len(),
            forall|j: int| 0 <= j < i ==> #[trigger] needle@[j] == chars@[at + j],
        decreases needle.len() - i,
    {
        if chars[at + i] != needle[i] {
            proof {
                if occurs_at(chars@, needle@, at as int) {
                    assert(chars@.subrange(at as int, at + needle@.len())[i as int] == needle@[i as int]);
                }
            }
            return false;
        }
        i = i + 1;
    }
    proof {
        assert(chars@.subrange(at as int, at + needle@.len()) =~= needle@);
    }
    true
}

/// Text equality.
pub fn same(a: &str, b: &str) -> (r: bool)
    ensures
        r == (a@ == b@),
{
    let x = a.as_bytes();
    let y = b.as_bytes();
    proof {
        encode_utf8_decode_utf8(a@);
        encode_utf8_decode_utf8(b@);
    }
    if x.len() != y.len() {
        return false;
    }
    let mut i: usize = 0;
    while i < x.len()
        invariant
            x@ == encode_utf8(a@),
            y@ == encode_utf8(b@),
            x.len() == y.len(),
            i <= x.len(),
            forall|j: int| 0 <= j < i ==> #[trigger] x@[j] == y@[j],
        decreases x.len() - i,
    {
        if x[i] != y[i] {
            return false;
        }
        i = i + 1;
    }
    proof {
        assert(x@ =~= y@);
    }
    true
}

/// Equality of optional texts.
pub fn same_opt(a: &Option<String>, b: &Option<String>) -> (r: bool)
    ensures
        r == (opt_text(*a) == opt_text(*b)),
{
    match (a, b) {
        (Some(x), Some(y)) => same(x.as_str(), y.as_str()),
        (None, None) => true,
        _ => false,
    }
}

/// Equality without regard to the case of ASCII letters.
pub fn eq_ignore_ascii_case(a: &str, b: &str) -> (r: bool)
    ensures
        r == same_ignoring_case(a@, b@),
{
    let x = chars_of(a);
    let y = chars_of(b);
    if x.len() != y.len() {
        return false;
    }
    let mut i: usize = 0;
    while i < x.len()
        invariant
            x@ == a@,
            y@ == b@,
            x.len() == y.len(),
            i <= x.len(),
            forall|j: int| 0 <= j < i ==> lower(#[trigger] x@[j]) == lower(y@[j]),
        decreases x.len() - i,
    {
        if lower_char(x[i]) != lower_char(y[i]) {
            return false;
        }
        i = i + 1;
    }
    true
}

/// Tells whether `s` begins with `prefix`.
pub fn starts_with(s: &str, prefix: &str) -> (r: bool)
    ensures
        r == prefix@.is_prefix_of(s@),
{
    let chars = chars_of(s);
    let needle = chars_of(prefix);
    found_at(&chars, 0, &needle)
}

/// What follows `prefix` in `s`, when `s` begins with it.
pub fn strip_prefix<'a>(s: &'a str, prefix: &str) -> (r: Option<&'a str>)
    ensures
        r matches Some(t) ==> s@ == prefix@ + t@,
        r is None ==> !prefix@.is_prefix_of(s@),
{
    let chars = chars_of(s);
    let needle = chars_of(prefix);
    if found_at(&chars, 0, &needle) {
        let tail = s.substring_char(needle.len(), chars.len());
        proof {
            assert(s@ =~= prefix@ + tail@);
        }
        Some(tail)
    } else {
        None
    }
}

/// What precedes `suffix` in `s`, when `s` ends with it.
pub fn strip_suffix<'a>(s: &'a str, suffix: &str) -> (r: Option<&'a str>)
    ensures
        r matches Some(t) ==> s@ == t@ + suffix@,
        r is None ==> !suffix@.is_suffix_of(s@),
{
    let chars = chars_of(s);
    let needle = chars_of(suffix);
    if needle.len() <= chars.len() && found_at(&chars, chars.len() - needle.len(), &needle) {
        let head = s.substring_char(0, chars.len() - needle.len());
        proof {
            assert(s@ =~= head@ + suffix@);
        }
        Some(head)
    } else {
        None
    }
}

/// Tells whether `c` is one of the characters of `s`.
pub fn contains_char(s: &str, c: char) -> (r: bool)
    ensures
        r == s@.contains(c),
{
    let chars = chars_of(s);
    let mut i: usize = 0;
    while i < chars.len()
        invariant
            chars@ == s@,
            i <= chars.len(),
            forall|j: int| 0 <= j < i ==> #[trigger] s@[j] != c,
        decreases chars.len() - i,
    {
        if chars[i] == c {
            proof {
                assert(s@[i as int] == c);
            }
            return true;
        }
        i = i + 1;
    }
    false
}

/// The position, in characters, of the first occurrence of `needle` in `s`.
pub fn find_text(s: &str, needle: &str) -> (r: Option<usize>)
    ensures
        match find(s@, needle@) {
            Some(i) => r == Some(i as usize) && 0 <= i && i + needle@.len() <= s@.len(),
            None => r is None,
        },
{
    let chars = chars_of(s);
    let wanted = chars_of(needle);
    let mut i: usize = 0;
    proof {
        assert(s@.skip(0) =~= s@);
    }
    loop
        invariant
            chars@ == s@,
            wanted@ == needle@,
            i <= chars.len(),
            find(s@, needle@) == (match find(s@.skip(i as int), needle@) {
                Some(k) => Some(k + i),
                None => None,
            }),
        decreases chars.len() - i,
    {
        let ghost rest = s@.skip(i as int);
        if found_at(&chars, i, &wanted) {
            proof {
                assert(s@.subrange(i as int, i + needle@.len()) =~= rest.subrange(
                    0,
                    needle@.len() as int,
                ));
                assert(needle@.is_prefix_of(rest));
            }
            return Some(i);
        }
        proof {
            if needle@.is_prefix_of(rest) {
                assert(s@.subrange(i as int, i + needle@.len()) =~= rest.subrange(
                    0,
                    needle@.len() as int,
                ));
            }
        }
        if i == chars.len() {
            return None;
        }
        proof {
            assert(rest.drop_first() =~= s@.skip(i + 1));
        }
        i = i + 1;
    }
}

/// Splits `s` around the first occurrence of `c`.
pub fn split_once<'a>(s: &'a str, c: char) -> (r: Option<(&'a str, &'a str)>)
    ensures
        r matches Some((head, tail)) ==> s@ == head@.push(c) + tail@ && !head@.contains(c),
        r is None ==> !s@.contains(c),
{
    let chars = chars_of(s);
    let mut i: usize = 0;
    while i < chars.len()
        invariant
            chars@ == s@,
            i <= chars.len(),
            forall|j: int| 0 <= j < i ==> #[trigger] s@[j] != c,
        decreases chars.len() - i,
    {
        if chars[i] == c {
            let head = s.substring_char(0, i);
            let tail = s.substring_char(i + 1, chars.len());
            proof {
                assert(s@ =~= head@.push(c) + tail@);
            }
            return Some((head, tail));
        }
        i = i + 1;
    }
    None
}

/// The position of the first `c` at or after `from`, or the length.
pub fn find_from(chars: &Vec<char>, from: usize, c: char) -> (r: usize)
    requires
        from <= chars.len(),
    ensures
        from <= r <= chars.len(),
        r - from == first_index(chars@.skip(from as int), c),
{
    let mut i: usize = from;
    while i < chars.len() && chars[i] != c
        invariant
            from <= i <= chars.len(),
            forall|j: int| from <= j < i ==> #[trigger] chars@[j] != c,
        decreases chars.len() - i,
    {
        i = i + 1;
    }
    proof {
        lemma_first_index_is(chars@.skip(from as int), c, i - from);
    }
    i
}

/// The parts of `s` between the occurrences of `c`.
pub fn split_parts(s: &str, c: char) -> (out: Vec<String>)
    ensures
        texts(out@) == split(s@, c),
{
    let chars = chars_of(s);
    let mut out: Vec<String> = Vec::new();
    let mut from: usize = 0;
    let mut done = false;
    proof {
        assert(s@.skip(0) =~= s@);
        assert(texts(out@) + split(s@, c) =~= split(s@, c));
    }
    while !done
        invariant
            chars@ == s@,
            from <= chars.len(),
            !done ==> split(s@, c) == texts(out@) + split(s@.skip(from as int), c),
            done ==> split(s@, c) == texts(out@),
        decreases chars.len() - from, if done { 0int } else { 1int },
    {
        let to = find_from(&chars, from, c);
        let part = string_of(&chars, from, to);
        let ghost before = out@;
        let ghost rest = s@.skip(from as int);
        out.push(part);
        proof {
            lemma_first_index(rest, c);
            assert(part@ =~= rest.take(to - from));
            assert(texts(out@) =~= texts(before).push(part@));
        }
        if to < chars.len() {
            proof {
                assert(rest.skip(to - from + 1) =~= s@.skip(to + 1));
                assert(texts(before) + split(rest, c) =~= texts(out@) + split(s@.skip(to + 1), c));
            }
            from = to + 1;
        } else {
            proof {
                assert(rest.take(to - from) =~= rest);
                assert(texts(before) + split(rest, c) =~= texts(out@));
            }
            done = true;
        }
    }
    out
}

/// Removes leading and trailing white space.
pub fn trim<'a>(s: &'a str) -> (r: &'a str)
    ensures
        r@ == trimmed(s@),
{
    let chars = chars_of(s);
    let mut from: usize = 0;
    proof {
        assert(s@.subrange(0, s@.len() as int) =~= s@);
    }
    while from < chars.len() && white_space(chars[from])
        invariant
            chars@ == s@,
            from <= chars.len(),
            trim_left(s@) == trim_left(s@.subrange(from as int, s@.len() as int)),
        decreases chars.len() - from,
    {
        proof {
            let rest = s@.subrange(from as int, s@.len() as int);
            assert(rest.drop_first() =~= s@.subrange(from as int + 1, s@.len() as int));
        }
        from = from + 1;
    }
    let ghost rest = s@.subrange(from as int, s@.len() as int);
    proof {
        assert(trim_left(s@) == rest);
    }
    let mut to: usize = chars.len();
    while to > from && white_space(chars[to - 1])
        invariant
            chars@ == s@,
            from <= to <= chars.len(),
            trim_right(rest) == trim_right(s@.subrange(from as int, to as int)),
        decreases to,
    {
        proof {
            let part = s@.subrange(from as int, to as int);
            assert(part.drop_last() =~= s@.subrange(from as int, to - 1));
        }
        to = to - 1;
    }
    s.substring_char(from, to)
}

/// A fresh copy of an optional string.
pub fn clone_opt(o: &Option<String>) -> (r: Option<String>)
    ensures
        opt_text(r) == opt_text(*o),
{
    match o {
        Some(s) => Some(s.clone()),
        None => None,
    }
}

// ---------------------------------------------------------------------------
// Decimal numbers
// ---------------------------------------------------------------------------

/// The decimal writing of `n`, without leading zeros.
pub open spec fn decimal(n: nat) -> Seq<char>
    decreases n,
{
    if n < 10 {
        seq![digit_char(n as int)]
    } else {
        decimal(n / 10).push(digit_char((n % 10) as int))
    }
}

/// Writes `n` in decimal.
pub fn to_decimal(n: u128) -> (out: String)
    ensures
        out@ == decimal(n as nat),
    decreases n,
{
    if n < 10 {
        let mut out = String::new();
        out.push((48u8 + (n as u8)) as char);
        proof {
            assert(out@ =~= seq![digit_char(n as int)]);
        }
        out
    } else {
        let mut out = to_decimal(n / 10);
        out.push((48u8 + ((n % 10) as u8)) as char);
        out
    }
}

/// Why a text is no number of the wanted range.
pub enum NumberFault {
    Empty,
    InvalidDigit,
    TooLarge,
}

/// Reads digits from the left; the first character that is no digit, or that
/// takes the value past `max`, decides the fault.
pub open spec fn digits_value(s: Seq<char>, max: int) -> Result<int, NumberFault>
    decreases s.len(),
{
    if s.len() == 0 {
        Ok(0)
    } else {
        match digits_value(s.drop_last(), max) {
            Err(e) => Err(e),
            Ok(v) => if !is_digit(s.last()) {
                Err(NumberFault::InvalidDigit)
            } else if v * 10 + digit_value(s.last()) > max {
                Err(NumberFault::TooLarge)
            } else {
                Ok(v * 10 + digit_value(s.last()))
            },
        }
    }
}

/// The unsigned number that `s` writes: an optional `+` and at least one digit.
pub open spec fn unsigned_value(s: Seq<char>, max: int) -> Result<int, NumberFault> {
    if s.len() == 0 {
        Err(NumberFault::Empty)
    } else if s.len() > 1 && s[0] == '+' {
        digits_value(s.drop_first(), max)
    } else {
        digits_value(s, max)
    }
}

/// What a fault says to the reader.
pub open spec fn fault_text(fault: NumberFault) -> Seq<char> {
    match fault {
        NumberFault::Empty => "cannot parse integer from empty string"@,
        NumberFault::InvalidDigit => "invalid digit found in string"@,
        NumberFault::TooLarge => "number too large to fit in target type"@,
    }
}

/// Reads an unsigned number of at most `max`.
pub fn parse_unsigned(s: &str, max: u64) -> (r: Result<u64, String>)
    ensures
        match unsigned_value(s@, max as int) {
            Ok(v) => r matches Ok(n) && n == v,
            Err(fault) => r matches Err(e) && e@ == fault_text(fault),
        },
{
    let chars = chars_of(s);
    if chars.len() == 0 {
        return Err("cannot parse integer from empty string".to_owned());
    }
    let start: usize = if chars.len() > 1 && chars[0] == '+' {
        1
    } else {
        0
    };
    let ghost text = s@.subrange(start as int, s@.len() as int);
    proof {
        if start == 1 {
            assert(text =~= s@.drop_first());
        } else {
            assert(text =~= s@);
        }
    }
    let mut value: u64 = 0;
    let mut i: usize = start;
    while i < chars.len()
        invariant
            chars@ == s@,
            start <= i <= chars.len(),
            text == s@.subrange(start as int, s@.len() as int),
            value <= max,
            unsigned_value(s@, max as int) == digits_value(text, max as int),
            digits_value(s@.subrange(start as int, i as int), max as int) == Ok::<int, NumberFault>(
                value as int,
            ),
        decreases chars.len() - i,
    {
        let ghost next = s@.subrange(start as int, i + 1);
        proof {
            assert(next.drop_last() =~= s@.subrange(start as int, i as int));
            lemma_digits_fault_stays(text, next.len() as int, max as int);
            assert(text.take(next.len() as int) =~= next);
        }
        let c = chars[i];
        if !digit(c) {
            return Err("invalid digit found in string".to_owned());
        }
        let wide: u128 = (value as u128) * 10 + ((c as u32 - 48) as u128);
        if wide > max as u128 {
            return Err("number too large to fit in target type".to_owned());
        }
        value = wide as u64;
        i = i + 1;
    }
    proof {
        assert(s@.subrange(start as int, i as int) =~= text);
    }
    Ok(value)
}

/// A fault in the first `n` characters is the fault of the whole text.
proof fn lemma_digits_fault_stays(s: Seq<char>, n: int, max: int)
    requires
        0 <= n <= s.len(),
    ensures
        digits_value(s.take(n), max) is Err ==> digits_value(s, max) == digits_value(
            s.take(n),
            max,
        ),
    decreases s.len() - n,
{
    if n == s.len() {
        assert(s.take(n) =~= s);
    } else {
        lemma_digits_fault_stays(s, n + 1, max);
        assert(s.take(n + 1).drop_last() =~= s.take(n));
    }
}

// ---------------------------------------------------------------------------
// UTF-8
// ---------------------------------------------------------------------------

/// Encoding distributes over concatenation.
pub proof fn lemma_encode_concat(a: Seq<char>, b: Seq<char>)
    ensures
        encode_utf8(a + b) == encode_utf8(a) + encode_utf8(b),
    decreases a.len(),
{
    if a.len() == 0 {
        assert(a + b =~= b);
        assert(encode_utf8(a) + encode_utf8(b) =~= encode_utf8(b));
    } else {
        lemma_encode_concat(a.drop_first(), b);
        assert((a + b).drop_first() =~= a.drop_first() + b);
        assert(encode_utf8(a + b) =~= encode_utf8(a) + encode_utf8(b));
    }
}

/// Texts with the same encoding are the same text.
pub proof fn lemma_encode_injective(a: Seq<char>, b: Seq<char>)
    requires
        encode_utf8(a) == encode_utf8(b),
    ensures
        a == b,
{
    encode_utf8_decode_utf8(a);
    encode_utf8_decode_utf8(b);
}

/// What `std::str::from_utf8` says of bytes that are no text.
pub uninterp spec fn utf8_error(bytes: Seq<u8>) -> Seq<char>;

/// `std::str::from_utf8`: the text that the bytes encode, exactly where they are valid
/// UTF-8; elsewhere its error as text, under the name `utf8_error`.
#[verifier::external_body]
pub(crate) fn utf8_text<'a>(bytes: &'a [u8]) -> (r: Result<&'a str, String>)
    ensures
        match r {
            Ok(t) => valid_utf8(bytes@) && t.spec_bytes() == bytes@,
            Err(e) => !valid_utf8(bytes@) && e@ == utf8_error(bytes@),
        },
{
    std::str::from_utf8(bytes).map_err(|error| error.to_string())
}

/// A character boundary stands before and behind every ASCII byte.
pub proof fn lemma_ascii_boundaries(bytes: Seq<u8>, i: int)
    requires
        valid_utf8(bytes),
        0 <= i < bytes.len(),
        bytes[i] < 128,
    ensures
        is_char_boundary(bytes, i),
        is_char_boundary(bytes, i + 1),
    decreases bytes.len(),
{
    reveal_with_fuel(is_char_boundary, 3);
    utf8_byte_ranges_bitwise(bytes[i]);
    is_char_boundary_iff_not_is_continuation_byte(bytes, i);
    let n = length_of_first_scalar(bytes);
    if i >= n {
        lemma_ascii_boundaries(pop_first_scalar(bytes), i - n);
    } else {
        assert(i == 0);
        assert(n == 1);
    }
}

/// Appends the bytes of `s`.
pub fn push_bytes(out: &mut Vec<u8>, s: &str)
    ensures
        final(out)@ == old(out)@ + encode_utf8(s@),
{
    out.extend_from_slice(s.as_bytes());
    proof {
        assert(out@ =~= old(out)@ + encode_utf8(s@));
    }
}

// ---------------------------------------------------------------------------
// Laws
// ---------------------------------------------------------------------------

/// Nothing but the case of ASCII letters is ignored: two texts are taken for the same exactly
/// where every character is the same, or a letter of which one is the capital of the other.
pub proof fn only_the_case_of_letters_is_ignored(a: Seq<char>, b: Seq<char>)
    ensures
        same_ignoring_case(a, b) <==> a.len() == b.len() && forall|i: int|
            0 <= i < a.len() ==> #[trigger] a[i] == b[i] || ('A' <= a[i] <= 'Z' && b[i] as int
                == a[i] as int + 32) || ('A' <= b[i] <= 'Z' && a[i] as int == b[i] as int + 32),
        same_ignoring_case(a, a),
{
    if same_ignoring_case(a, b) {
        assert forall|i: int| 0 <= i < a.len() implies #[trigger] a[i] == b[i] || ('A' <= a[i]
            <= 'Z' && b[i] as int == a[i] as int + 32) || ('A' <= b[i] <= 'Z' && a[i] as int
            == b[i] as int + 32) by {
            assert(lower(a[i]) == lower(b[i]));
        }
    }
}

/// A text is split at every separator and nowhere else: a text without one is one part, and
/// what stands before the first one is the first part.
pub proof fn texts_are_split_at_every_separator(a: Seq<char>, c: char, b: Seq<char>)
    requires
        !a.contains(c),
    ensures
        split(a, c) == seq![a],
        split(a + seq![c] + b, c) == seq![a] + split(b, c),
{
    let s = a + seq![c] + b;
    assert forall|j: int| 0 <= j < a.len() implies #[trigger] s[j] != c by {
        assert(a[j] == s[j]);
        assert(a.contains(a[j]));
    }
    assert forall|j: int| 0 <= j < a.len() implies #[trigger] a[j] != c by {
        assert(a.contains(a[j]));
    }
    lemma_first_index_is(s, c, a.len() as int);
    lemma_first_index_is(a, c, a.len() as int);
    assert(s.take(a.len() as int) =~= a);
    assert(s.skip(a.len() as int + 1) =~= b);
}

/// What is found is the first occurrence, and nothing is found only where there is none.
pub proof fn the_first_occurrence_is_found(s: Seq<char>, needle: Seq<char>, j: int)
    requires
        0 <= j <= s.len() - needle.len(),
        s.subrange(j, j + needle.len()) == needle,
    ensures
        find(s, needle) matches Some(i) && 0 <= i <= j && s.subrange(i, i + needle.len()) == needle,
    decreases s.len(),
{
    if needle.is_prefix_of(s) {
        assert(s.subrange(0, needle.len() as int) =~= needle);
    } else {
        if j == 0 {
            assert(s.subrange(0, needle.len() as int) =~= needle);
        }
        let t = s.drop_first();
        assert(t.subrange(j - 1, j - 1 + needle.len()) =~= needle);
        the_first_occurrence_is_found(t, needle, j - 1);
        let i = find(t, needle)->0;
        assert(s.subrange(i + 1, i + 1 + needle.len()) =~= t.subrange(i, i + needle.len()));
    }
}

/// Where something is found, it stands there.
pub proof fn nothing_is_found_that_is_not_there(s: Seq<char>, needle: Seq<char>)
    ensures
        find(s, needle) matches Some(i) ==> 0 <= i <= s.len() - needle.len() && s.subrange(
            i,
            i + needle.len(),
        ) == needle,
    decreases s.len(),
{
    if needle.is_prefix_of(s) {
        assert(s.subrange(0, needle.len() as int) =~= needle);
    } else if s.len() > 0 {
        let t = s.drop_first();
        nothing_is_found_that_is_not_there(t, needle);
        if let Some(i) = find(t, needle) {
            assert(s.subrange(i + 1, i + 1 + needle.len()) =~= t.subrange(i, i + needle.len()));
        }
    }
}

/// White space is what Unicode says it is.
pub proof fn white_space_is_that_of_unicode(c: char)
    ensures
        is_white_space(c) <==> {
            let n = c as int;
            9 <= n <= 13 || n == 32 || n == 133 || n == 160 || n == 5760 || 8192 <= n <= 8202 || n
                == 8232 || n == 8233 || n == 8239 || n == 8287 || n == 12288
        },
{
}

/// Trimming takes the white space on both sides, all of it, and nothing else.
pub proof fn trimming_takes_white_space_and_nothing_else(
    before: Seq<char>,
    text: Seq<char>,
    behind: Seq<char>,
)
    requires
        forall|i: int| 0 <= i < before.len() ==> is_white_space(#[trigger] before[i]),
        forall|i: int| 0 <= i < behind.len() ==> is_white_space(#[trigger] behind[i]),
        text.len() > 0 ==> !is_white_space(text[0]) && !is_white_space(text.last()),
    ensures
        trimmed(before + text + behind) == text,
    decreases before.len() + behind.len(),
{
    let s = before + text + behind;
    if before.len() > 0 {
        let rest = before.drop_first();
        assert(s.drop_first() =~= rest + text + behind);
        assert(s[0] == before[0]);
        trimming_takes_white_space_and_nothing_else(rest, text, behind);
    } else if text.len() > 0 {
        assert(s[0] == text[0]);
        assert(trim_left(s) == s);
        lemma_trim_right(text, behind);
        assert(s =~= text + behind);
    } else if behind.len() > 0 {
        let rest = behind.drop_first();
        assert(s.drop_first() =~= before + text + rest);
        assert(s[0] == behind[0]);
        trimming_takes_white_space_and_nothing_else(before, text, rest);
    } else {
        assert(s =~= text);
    }
}

proof fn lemma_trim_right(text: Seq<char>, behind: Seq<char>)
    requires
        forall|i: int| 0 <= i < behind.len() ==> is_white_space(#[trigger] behind[i]),
        text.len() > 0,
        !is_white_space(text.last()),
    ensures
        trim_right(text + behind) == text,
    decreases behind.len(),
{
    let s = text + behind;
    if behind.len() > 0 {
        assert(s.last() == behind[behind.len() - 1]);
        assert(s.drop_last() =~= text + behind.drop_last());
        lemma_trim_right(text, behind.drop_last());
    } else {
        assert(s =~= text);
        assert(s.last() == text.last());
    }
}

/// The value that digits write in the decimal system.
pub open spec fn written_number(s: Seq<char>) -> int
    decreases s.len(),
{
    if s.len() == 0 {
        0
    } else {
        written_number(s.drop_last()) * 10 + (s.last() as int - 48)
    }
}

/// A number is written by its digits, without a zero in front, and reads back.
pub proof fn numbers_are_written_in_decimal(n: nat)
    ensures
        written_number(decimal(n)) == n,
        decimal(n).len() > 0,
        decimal(n).len() > 1 ==> decimal(n)[0] != '0',
        forall|i: int| 0 <= i < decimal(n).len() ==> '0' <= #[trigger] decimal(n)[i] <= '9',
    decreases n,
{
    let s = decimal(n);
    if n >= 10 {
        numbers_are_written_in_decimal(n / 10);
        let head = decimal(n / 10);
        assert(s.drop_last() =~= head);
        assert(s.last() as int == 48 + n % 10);
        assert(s[0] == head[0]);
        if head.len() == 1 {
            assert(written_number(head) == written_number(head.drop_last()) * 10 + (head.last()
                as int - 48));
            assert(head.drop_last() =~= Seq::<char>::empty());
        }
        assert forall|i: int| 0 <= i < s.len() implies '0' <= #[trigger] s[i] <= '9' by {
            if i < head.len() {
                assert(s[i] == head[i]);
            }
        }
    } else {
        assert(s.drop_last() =~= Seq::<char>::empty());
        assert(written_number(s.drop_last()) == 0);
        assert(s.last() as int == 48 + n);
    }
}

/// Digits are read as the number that they write, where that is within the limit, and are too
/// large where it is not.
pub proof fn digits_are_read_as_the_number_they_write(s: Seq<char>, max: int)
    requires
        max >= 0,
        s.len() > 0,
        forall|i: int| 0 <= i < s.len() ==> '0' <= #[trigger] s[i] <= '9',
    ensures
        written_number(s) >= 0,
        unsigned_value(s, max) == (if written_number(s) <= max {
            Ok::<int, NumberFault>(written_number(s))
        } else {
            Err(NumberFault::TooLarge)
        }),
        unsigned_value(seq!['+'] + s, max) == unsigned_value(s, max),
{
    lemma_digits(s, max);
    assert(s[0] != '+');
    assert((seq!['+'] + s).drop_first() =~= s);
}

proof fn lemma_digits(s: Seq<char>, max: int)
    requires
        max >= 0,
        forall|i: int| 0 <= i < s.len() ==> '0' <= #[trigger] s[i] <= '9',
    ensures
        written_number(s) >= 0,
        digits_value(s, max) == (if written_number(s) <= max {
            Ok::<int, NumberFault>(written_number(s))
        } else {
            Err(NumberFault::TooLarge)
        }),
    decreases s.len(),
{
    if s.len() > 0 {
        let init = s.drop_last();
        assert forall|i: int| 0 <= i < init.len() implies '0' <= #[trigger] init[i] <= '9' by {
            assert(init[i] == s[i]);
        }
        assert('0' <= s[s.len() - 1] <= '9');
        lemma_digits(init, max);
    }
}

/// A text that is not made of digits, but for a sign in front, is no number, and neither is an
/// empty one.
pub proof fn other_texts_are_no_numbers(s: Seq<char>, max: int)
    requires
        unsigned_value(s, max) is Ok,
    ensures
        s.len() > 0,
        forall|i: int| 0 < i < s.len() ==> '0' <= #[trigger] s[i] <= '9',
        '0' <= s[0] <= '9' || (s[0] == '+' && s.len() > 1),
{
    if s.len() > 1 && s[0] == '+' {
        let t = s.drop_first();
        lemma_are_digits(t, max);
        assert forall|i: int| 0 < i < s.len() implies '0' <= #[trigger] s[i] <= '9' by {
            assert(t[i - 1] == s[i]);
        }
    } else {
        lemma_are_digits(s, max);
    }
}

proof fn lemma_are_digits(s: Seq<char>, max: int)
    requires
        digits_value(s, max) is Ok,
    ensures
        forall|i: int| 0 <= i < s.len() ==> '0' <= #[trigger] s[i] <= '9',
    decreases s.len(),
{
    if s.len() > 0 {
        let init = s.drop_last();
        lemma_are_digits(init, max);
        assert forall|i: int| 0 <= i < s.len() implies '0' <= #[trigger] s[i] <= '9' by {
            if i < init.len() {
                assert(init[i] == s[i]);
            }
        }
    }
}

/// What is shown of optional texts and of lists of texts is what they hold.
pub proof fn optional_texts_show_what_they_hold(text: String, list: Seq<String>, slice: &str, i: int)
    ensures
        opt_text(Some(text)) == Some(text@),
        opt_text(None) is None,
        opt_str(Some(slice)) == Some(slice@),
        opt_str(None) is None,
        texts(list).len() == list.len(),
        0 <= i < list.len() ==> texts(list)[i] == list[i]@,
{
}

/// What is wrong with a text that is no number: nothing in it, or a character that is no digit
/// behind digits that are within the limit.
pub proof fn faults_of_numbers_are_told_apart(digits: Seq<char>, c: char, rest: Seq<char>, max: int)
    requires
        max >= 0,
        forall|i: int| 0 <= i < digits.len() ==> '0' <= #[trigger] digits[i] <= '9',
        written_number(digits) <= max,
        !('0' <= c <= '9'),
    ensures
        unsigned_value(Seq::empty(), max) == Err::<int, NumberFault>(NumberFault::Empty),
        unsigned_value(seq!['+'], max) == Err::<int, NumberFault>(NumberFault::InvalidDigit),
        digits.len() > 0 || c != '+' || rest.len() == 0 ==> unsigned_value(
            digits + seq![c] + rest,
            max,
        ) == Err::<int, NumberFault>(NumberFault::InvalidDigit),
{
    let s = digits + seq![c] + rest;
    let n = digits.len() as int;
    let head = s.take(n + 1);
    lemma_digits(digits, max);
    assert(head.drop_last() =~= digits);
    assert(head.last() == c);
    lemma_digits_fault_stays(s, n + 1, max);
    if n > 0 {
        assert(s[0] == digits[0]);
    }
    let plus = seq!['+'];
    assert(plus.drop_last() =~= Seq::<char>::empty());
    assert(digits_value(plus.drop_last(), max) == Ok::<int, NumberFault>(0));
}

} // verus!
