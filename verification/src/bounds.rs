//! Why the memory that is reserved for a rewritten page or packument is enough.
use crate::json::{
    json_document, json_escaped, json_members, json_quoted, json_string_value, members_text,
};
use crate::packument::{
    dist_member, lemma_object_members, packument_text, rewritten_packument, NpmObject,
};
use crate::paths::{
    canonical_path_characters, canonical_path_text, canonical_rewrite, has_escape, respelled,
    respelled_escape,
};
use crate::proxy::{
    grown, MetadataRewrite, MIN_REWRITABLE_URL_LEN, MIN_SIMPLE_LINK_LEN, REWRITE_PREFIX_LEN,
};
use crate::rewrite::{
    fragment_text, link_end, next_byte, pypi_link, pypi_target, rewritten_link, rewritten_page,
    MAX_METADATA_BODY_LEN,
};
use crate::routes::RegistryOrigins;
use crate::text::{lemma_ascii_boundaries, lemma_encode_concat};
use crate::weburl::url_parse;
use vstd::prelude::*;
use vstd::string::*;
use vstd::utf8::*;

verus! {

/// The number of bytes of a text.
pub open spec fn byte_len(s: Seq<char>) -> int {
    encode_utf8(s).len() as int
}

/// What replaces the link is not much longer: it grows by the origin and a prefix at most,
/// and only where it has the length of the shortest link that is ever replaced.
pub open spec fn grows_little(
    href: Seq<char>,
    upstreams: &RegistryOrigins,
    origin: Seq<char>,
) -> bool {
    pypi_target(href, upstreams, origin) matches Some(t) ==> byte_len(href) >= MIN_SIMPLE_LINK_LEN
        && byte_len(t) <= byte_len(href) + byte_len(origin) + REWRITE_PREFIX_LEN
}

/// The parser of URLs makes the link no longer: what it gives for the path and the fragment
/// takes no more bytes than the link itself.
pub open spec fn parses_without_growth(href: Seq<char>) -> bool {
    url_parse(href) matches Ok(u) ==> byte_len(href) >= MIN_SIMPLE_LINK_LEN && byte_len(u.path)
        + byte_len(fragment_text(u)) <= byte_len(href)
}

/// Every text takes at least one byte for each character.
proof fn lemma_byte_len(s: Seq<char>)
    ensures
        byte_len(s) >= s.len(),
    decreases s.len(),
{
    if s.len() > 0 {
        lemma_byte_len(s.drop_first());
    }
}

proof fn lemma_respelled_len(s: Seq<char>)
    ensures
        respelled(s) matches Some(t) ==> t.len() <= s.len(),
    decreases s.len(),
{
    if s.len() > 0 {
        if s[0] != '%' {
            lemma_respelled_len(s.drop_first());
        } else if has_escape(s, 0) {
            lemma_respelled_len(s.skip(3));
            assert(respelled_escape(s).len() <= 3);
        }
    }
}

/// The canonical form of a path takes fewer bytes than the path.
proof fn lemma_canonical_len(path: Seq<char>)
    ensures
        canonical_rewrite(path) matches Some(p) ==> byte_len(p) < byte_len(path),
{
    if let Some(p) = canonical_rewrite(path) {
        lemma_respelled_len(path.drop_first());
        assert(canonical_path_text(p));
        canonical_path_characters(p);
        assert(is_ascii_chars(p)) by {
            assert forall|i: int| 0 <= i < p.len() implies '\0' <= #[trigger] p[i] <= '\u{7f}' by {
                assert(p[i] == '/' || crate::paths::is_segment_char(p[i]));
            }
        }
        is_ascii_chars_encode_utf8(p);
        lemma_byte_len(path);
    }
}

/// Every link grows little, unless the parser of URLs makes it longer.
pub proof fn links_grow_little(href: Seq<char>, upstreams: &RegistryOrigins, origin: Seq<char>)
    requires
        parses_without_growth(href),
    ensures
        grows_little(href, upstreams, origin),
{
    let path = match url_parse(href) {
        Ok(u) => u.path,
        Err(_) => href,
    };
    lemma_canonical_len(path);
    reveal_strlit("/pypi/");
    reveal_strlit("/pypi/files/");
    reveal_strlit("/simple/");
    let files = "/pypi/files/"@;
    let simple = "/pypi/"@;
    assert(is_ascii_chars(files));
    assert(is_ascii_chars(simple));
    is_ascii_chars_encode_utf8(files);
    is_ascii_chars_encode_utf8(simple);
    if let Some(p) = canonical_rewrite(path) {
        lemma_encode_concat(origin, files);
        lemma_encode_concat(origin + files, p);
        lemma_encode_concat(origin, simple);
        lemma_encode_concat(origin + simple, p);
        if let Ok(u) = url_parse(href) {
            lemma_encode_concat(origin + files + p, fragment_text(u));
        } else {
            if "/simple/"@.is_prefix_of(href) {
                lemma_byte_len(href);
                assert(href.len() >= 8);
            }
        }
    }
}

/// The text of the link that begins at `start`.
pub open spec fn href_at(b: Seq<u8>, start: int) -> Seq<char> {
    decode_utf8(b.subrange(start + 6, link_end(b, start)->0 - 1))
}

proof fn lemma_next_at_least(b: Seq<u8>, from: int, q: u8)
    requires
        0 <= from <= b.len(),
    ensures
        from <= next_byte(b, from, q) <= b.len(),
        next_byte(b, from, q) < b.len() ==> b[next_byte(b, from, q)] == q,
    decreases b.len() - from,
{
    if from < b.len() && b[from] != q {
        lemma_next_at_least(b, from + 1, q);
    }
}

/// The bytes of a link are text.
proof fn lemma_href_bytes(b: Seq<u8>, start: int)
    requires
        valid_utf8(b),
        0 <= start < b.len(),
        link_end(b, start) is Some,
    ensures
        start + 8 <= link_end(b, start)->0 <= b.len(),
        encode_utf8(href_at(b, start)) == b.subrange(start + 6, link_end(b, start)->0 - 1),
{
    let q = b[start + 5];
    let end = link_end(b, start)->0;
    lemma_next_at_least(b, start + 6, q);
    lemma_ascii_boundaries(b, start + 5);
    valid_utf8_split(b, start + 6);
    let tail = b.subrange(start + 6, b.len() as int);
    let n = end - 1 - (start + 6);
    assert(tail[n] == b[end - 1]);
    lemma_ascii_boundaries(tail, n);
    valid_utf8_split(tail, n);
    assert(tail.subrange(0, n) =~= b.subrange(start + 6, end - 1));
    decode_utf8_encode_utf8(b.subrange(start + 6, end - 1));
}

/// From any point on, a page of which every link grows little grows by an eighth of its
/// length for every byte that a link may grow by.
proof fn lemma_page_growth(
    b: Seq<u8>,
    upstreams: &RegistryOrigins,
    origin: Seq<char>,
    from: int,
    growth: int,
)
    requires
        valid_utf8(b),
        0 <= from <= b.len(),
        growth == byte_len(origin) + REWRITE_PREFIX_LEN,
        forall|i: int|
            0 <= i < b.len() && #[trigger] link_end(b, i) is Some ==> grows_little(
                href_at(b, i),
                upstreams,
                origin,
            ),
    ensures
        8 * (rewritten_page(b, upstreams, origin, from).len() - (b.len() - from)) <= (b.len()
            - from) * growth,
    decreases b.len() - from,
{
    let page = rewritten_page(b, upstreams, origin, from);
    if from == b.len() {
        assert((b.len() - from) * growth == 0) by (nonlinear_arith)
            requires
                b.len() - from == 0,
        ;
    } else {
        match link_end(b, from) {
            Some(end) => {
                lemma_href_bytes(b, from);
                lemma_page_growth(b, upstreams, origin, end, growth);
                let href = href_at(b, from);
                let rest = rewritten_page(b, upstreams, origin, end);
                let link = rewritten_link(b, upstreams, origin, from, end);
                let len = end - from;
                assert(page == link + rest);
                assert(link.len() == 7 + byte_len(pypi_link(href, upstreams, origin)));
                assert(byte_len(href) == len - 7);
                let more = link.len() - len;
                assert(8 * more <= len * growth) by {
                    if pypi_target(href, upstreams, origin) is Some {
                        assert(more <= growth);
                        assert(len >= 8);
                        assert(8 * more <= len * growth) by (nonlinear_arith)
                            requires
                                more <= growth,
                                len >= 8,
                                growth >= 0,
                        ;
                    } else {
                        assert(more == 0);
                        assert(len * growth >= 0) by (nonlinear_arith)
                            requires
                                len >= 0,
                                growth >= 0,
                        ;
                    }
                }
                let left = b.len() - end;
                assert((len + left) * growth == len * growth + left * growth) by (nonlinear_arith);
            },
            None => {
                lemma_page_growth(b, upstreams, origin, from + 1, growth);
                let left = b.len() - from - 1;
                assert((1 + left) * growth == growth + left * growth) by (nonlinear_arith);
            },
        }
    }
}

/// The memory that is reserved for the output of a rewrite holds it: the rewritten page is no
/// longer than its bound, unless the parser of URLs makes one of its links longer or the
/// page passes the limit on metadata.
pub proof fn reserved_memory_holds_the_page(
    b: Seq<u8>,
    upstreams: &RegistryOrigins,
    origin: String,
)
    requires
        valid_utf8(b),
        forall|i: int|
            0 <= i < b.len() && #[trigger] link_end(b, i) is Some ==> parses_without_growth(
                href_at(b, i),
            ),
        rewritten_page(b, upstreams, origin@, 0).len() <= MAX_METADATA_BODY_LEN,
    ensures
        rewritten_page(b, upstreams, origin@, 0).len() <= MetadataRewrite::Pypi(origin).bound(
            b.len() as int,
        ),
{
    let growth = byte_len(origin@) + REWRITE_PREFIX_LEN;
    assert forall|i: int| 0 <= i < b.len() && #[trigger] link_end(b, i) is Some implies grows_little(
        href_at(b, i),
        upstreams,
        origin@,
    ) by {
        links_grow_little(href_at(b, i), upstreams, origin@);
    }
    lemma_page_growth(b, upstreams, origin@, 0, growth);
    let n = b.len() as int;
    let links = (n + 7) / 8;
    let more = rewritten_page(b, upstreams, origin@, 0).len() - n;
    assert(n <= 8 * links);
    assert(more <= links * growth) by (nonlinear_arith)
        requires
            8 * more <= n * growth,
            n <= 8 * links,
            growth >= 0,
    ;
    assert(grown(n, 8, byte_len(origin@)) == n + links * growth);
}

// ---------------------------------------------------------------------------
// Packuments
// ---------------------------------------------------------------------------

/// The number of bytes of a text inside a JSON string.
pub open spec fn escaped_len(s: Seq<char>) -> int {
    byte_len(json_escaped(s))
}

/// The parsers make the tarball link `value` no longer: the path that they give, written as a
/// JSON string, takes no more bytes than the link itself.
pub open spec fn link_reads_without_growth(value: Seq<char>) -> bool {
    json_string_value(value) matches Some(link) && url_parse(link) matches Ok(u) ==> byte_len(value)
        >= MIN_REWRITABLE_URL_LEN && byte_len(json_quoted(u.path)) <= byte_len(value)
}

/// The object `text` reads without growth: its members, written one behind the other, take no
/// more bytes than it does, and the same holds of the objects in it that lead to tarball links
/// and of the links themselves.
pub open spec fn reads_without_growth(object: NpmObject, text: Seq<char>) -> bool
    decreases object.depth(),
{
    json_members(text) matches Some(members) ==> {
        &&& byte_len(as_it_stands(members)) <= byte_len(text)
        &&& forall|i: int|
            0 <= i < members.len() ==> {
                let (name, value) = #[trigger] members[i];
                match object {
                    NpmObject::Dist => name == "tarball"@ ==> link_reads_without_growth(value),
                    NpmObject::Manifest => name == "dist"@ ==> reads_without_growth(
                        NpmObject::Dist,
                        value,
                    ),
                    NpmObject::Versions => reads_without_growth(NpmObject::Manifest, value),
                    NpmObject::Packument => (name == "versions"@ ==> reads_without_growth(
                        NpmObject::Versions,
                        value,
                    )) && (name == "dist"@ ==> reads_without_growth(NpmObject::Dist, value)),
                }
            }
    }
}

/// A value as it stands.
pub open spec fn same_value() -> spec_fn(Seq<char>, Seq<char>) -> Seq<char> {
    |name: Seq<char>, value: Seq<char>| value
}

/// The object with the given members.
pub open spec fn as_it_stands(members: Seq<(Seq<char>, Seq<char>)>) -> Seq<char> {
    seq!['{'] + members_text(members, same_value()) + seq!['}']
}

proof fn lemma_escaped_concat(a: Seq<char>, b: Seq<char>)
    ensures
        json_escaped(a + b) == json_escaped(a) + json_escaped(b),
    decreases b.len(),
{
    if b.len() == 0 {
        assert(a + b =~= a);
        assert(json_escaped(a) + json_escaped(b) =~= json_escaped(a));
    } else {
        assert((a + b).drop_last() =~= a + b.drop_last());
        lemma_escaped_concat(a, b.drop_last());
        assert(json_escaped(a + b) =~= json_escaped(a) + json_escaped(b));
    }
}

proof fn lemma_escaped_len_concat(a: Seq<char>, b: Seq<char>)
    ensures
        escaped_len(a + b) == escaped_len(a) + escaped_len(b),
{
    lemma_escaped_concat(a, b);
    lemma_encode_concat(json_escaped(a), json_escaped(b));
}

/// Escaping takes no character away.
proof fn lemma_escaped_at_least(s: Seq<char>)
    ensures
        json_escaped(s).len() >= s.len(),
        escaped_len(s) >= s.len(),
    decreases s.len(),
{
    if s.len() > 0 {
        lemma_escaped_at_least(s.drop_last());
    }
    lemma_byte_len(json_escaped(s));
}

/// A character that needs no escape and takes one byte.
spec fn is_plain(c: char) -> bool {
    32 <= c as int <= 126 && c != '"' && c != '\\'
}

proof fn lemma_plain(s: Seq<char>)
    requires
        forall|i: int| 0 <= i < s.len() ==> is_plain(#[trigger] s[i]),
    ensures
        json_escaped(s) == s,
        escaped_len(s) == s.len(),
        byte_len(s) == s.len(),
    decreases s.len(),
{
    if s.len() > 0 {
        let init = s.drop_last();
        assert forall|i: int| 0 <= i < init.len() implies is_plain(#[trigger] init[i]) by {
            assert(init[i] == s[i]);
        }
        lemma_plain(init);
        assert(is_plain(s[s.len() - 1]));
        assert(json_escaped(s) =~= s);
    }
    assert(is_ascii_chars(s)) by {
        assert forall|i: int| 0 <= i < s.len() implies '\0' <= #[trigger] s[i] <= '\u{7f}' by {
            assert(is_plain(s[i]));
        }
    }
    is_ascii_chars_encode_utf8(s);
}

/// The one spelling of a path takes no more bytes in a JSON string than any other.
proof fn lemma_respelled_escaped(s: Seq<char>)
    ensures
        respelled(s) matches Some(t) ==> escaped_len(t) <= escaped_len(s),
    decreases s.len(),
{
    if s.len() > 0 && respelled(s) is Some {
        let t = respelled(s)->0;
        if s[0] != '%' {
            let rest = s.drop_first();
            lemma_respelled_escaped(rest);
            let head = seq![s[0]];
            assert(s =~= head + rest);
            lemma_escaped_len_concat(head, rest);
            lemma_escaped_len_concat(head, respelled(rest)->0);
        } else {
            let rest = s.skip(3);
            lemma_respelled_escaped(rest);
            let head = s.take(3);
            let spelled = respelled_escape(s);
            assert(s =~= head + rest);
            lemma_escaped_len_concat(head, rest);
            lemma_escaped_len_concat(spelled, respelled(rest)->0);
            lemma_escaped_at_least(head);
            assert forall|i: int| 0 <= i < spelled.len() implies is_plain(
                #[trigger] spelled[i],
            ) by {}
            lemma_plain(spelled);
            assert(spelled.len() <= 3);
        }
    }
}

/// What replaces a tarball link is longer by the origin and a prefix at most.
proof fn lemma_tarball_growth(
    name: Seq<char>,
    value: Seq<char>,
    upstreams: &RegistryOrigins,
    origin: Seq<char>,
)
    requires
        json_escaped(origin) == origin,
        name == "tarball"@ ==> link_reads_without_growth(value),
    ensures
        20 * (byte_len(dist_member(name, value, upstreams, origin)) - byte_len(value)) <= byte_len(
            value,
        ) * (byte_len(origin) + REWRITE_PREFIX_LEN),
{
    let growth = byte_len(origin) + REWRITE_PREFIX_LEN;
    let len = byte_len(value);
    let new = dist_member(name, value, upstreams, origin);
    let more = byte_len(new) - len;
    if new != value {
        let link = json_string_value(value)->0;
        let u = url_parse(link)->Ok_0;
        let p = canonical_rewrite(u.path)->0;
        let prefix = "/npm/tarballs/"@;
        let target = origin + prefix + p;
        assert(new == json_quoted(target));
        reveal_strlit("/npm/tarballs/");
        assert forall|i: int| 0 <= i < prefix.len() implies is_plain(#[trigger] prefix[i]) by {}
        lemma_plain(prefix);
        lemma_escaped_len_concat(origin + prefix, p);
        lemma_escaped_len_concat(origin, prefix);
        let rest = u.path.drop_first();
        let slash = seq!['/'];
        assert(u.path =~= slash + rest);
        lemma_escaped_len_concat(slash, rest);
        lemma_escaped_at_least(slash);
        lemma_respelled_escaped(rest);
        lemma_quoted_len(target);
        lemma_quoted_len(u.path);
        assert(more <= growth);
        assert(20 * more <= len * growth) by (nonlinear_arith)
            requires
                more <= growth,
                len >= 20,
                growth >= 0,
        ;
    } else {
        assert(len * growth >= 0) by (nonlinear_arith)
            requires
                len >= 0,
                growth >= 0,
        ;
    }
}

proof fn lemma_quoted_len(s: Seq<char>)
    ensures
        byte_len(json_quoted(s)) == escaped_len(s) + 2,
{
    let quote = seq!['"'];
    assert(is_ascii_chars(quote));
    is_ascii_chars_encode_utf8(quote);
    lemma_encode_concat(quote, json_escaped(s));
    lemma_encode_concat(quote + json_escaped(s), quote);
}

/// Members of which every value grows by little grow by little together.
proof fn lemma_members_growth(
    members: Seq<(Seq<char>, Seq<char>)>,
    value_of: spec_fn(Seq<char>, Seq<char>) -> Seq<char>,
    growth: int,
)
    requires
        growth >= 0,
        forall|i: int|
            0 <= i < members.len() ==> 20 * (byte_len(
                value_of((#[trigger] members[i]).0, members[i].1),
            ) - byte_len(members[i].1)) <= byte_len(members[i].1) * growth,
    ensures
        20 * (byte_len(members_text(members, value_of)) - byte_len(
            members_text(members, same_value()),
        )) <= byte_len(members_text(members, same_value())) * growth,
    decreases members.len(),
{
    if members.len() == 0 {
        assert(0 * growth == 0) by (nonlinear_arith);
    } else {
        let init = members.drop_last();
        assert forall|i: int| 0 <= i < init.len() implies 20 * (byte_len(
            value_of((#[trigger] init[i]).0, init[i].1),
        ) - byte_len(init[i].1)) <= byte_len(init[i].1) * growth by {
            assert(init[i] == members[i]);
        }
        lemma_members_growth(init, value_of, growth);
        let (name, value) = members.last();
        assert(members[members.len() - 1] == members.last());
        let comma: Seq<char> = if members.len() > 1 {
            seq![',']
        } else {
            Seq::empty()
        };
        let new = value_of(name, value);
        let before = members_text(init, value_of);
        let before_same = members_text(init, same_value());
        lemma_member_len(before, comma, name, new);
        lemma_member_len(before_same, comma, name, value);
        let fixed = byte_len(comma) + byte_len(json_quoted(name)) + byte_len(seq![':']);
        let a = byte_len(before_same);
        let b = byte_len(value);
        assert(fixed >= 0);
        assert((a + fixed + b) * growth >= a * growth + b * growth) by (nonlinear_arith)
            requires
                fixed >= 0,
                growth >= 0,
        ;
    }
}

proof fn lemma_member_len(
    before: Seq<char>,
    comma: Seq<char>,
    name: Seq<char>,
    value: Seq<char>,
)
    ensures
        byte_len(before + comma + json_quoted(name) + seq![':'] + value) == byte_len(before)
            + byte_len(comma) + byte_len(json_quoted(name)) + byte_len(seq![':']) + byte_len(value),
{
    lemma_encode_concat(before, comma);
    lemma_encode_concat(before + comma, json_quoted(name));
    lemma_encode_concat(before + comma + json_quoted(name), seq![':']);
    lemma_encode_concat(before + comma + json_quoted(name) + seq![':'], value);
}

/// An object that reads without growth grows by a twentieth of its length for every byte that a
/// link may grow by.
proof fn lemma_object_growth(
    object: NpmObject,
    text: Seq<char>,
    upstreams: &RegistryOrigins,
    origin: Seq<char>,
)
    requires
        json_escaped(origin) == origin,
        reads_without_growth(object, text),
    ensures
        20 * (byte_len(object.text(text, upstreams, origin)) - byte_len(text)) <= byte_len(text) * (
        byte_len(origin) + REWRITE_PREFIX_LEN),
    decreases object.depth(),
{
    let growth = byte_len(origin) + REWRITE_PREFIX_LEN;
    lemma_object_members(object, text, upstreams, origin);
    let value_of = |name: Seq<char>, value: Seq<char>|
        object.member(name, value, upstreams, origin);
    let len = byte_len(text);
    assert(len * growth >= 0) by (nonlinear_arith)
        requires
            len >= 0,
            growth >= 0,
    ;
    if let Some(members) = json_members(text) {
        assert forall|i: int| 0 <= i < members.len() implies 20 * (byte_len(
            value_of((#[trigger] members[i]).0, members[i].1),
        ) - byte_len(members[i].1)) <= byte_len(members[i].1) * growth by {
            lemma_member_growth(object, members[i].0, members[i].1, upstreams, origin);
        }
        lemma_members_growth(members, value_of, growth);
        let open = seq!['{'];
        let close = seq!['}'];
        let inner = members_text(members, value_of);
        let same = members_text(members, same_value());
        lemma_encode_concat(open, inner);
        lemma_encode_concat(open + inner, close);
        lemma_encode_concat(open, same);
        lemma_encode_concat(open + same, close);
        let more = byte_len(inner) - byte_len(same);
        let compact = byte_len(same);
        assert(20 * more <= len * growth) by (nonlinear_arith)
            requires
                20 * more <= compact * growth,
                compact <= len,
                growth >= 0,
        ;
    }
}

proof fn lemma_member_growth(
    object: NpmObject,
    name: Seq<char>,
    value: Seq<char>,
    upstreams: &RegistryOrigins,
    origin: Seq<char>,
)
    requires
        json_escaped(origin) == origin,
        match object {
            NpmObject::Dist => name == "tarball"@ ==> link_reads_without_growth(value),
            NpmObject::Manifest => name == "dist"@ ==> reads_without_growth(NpmObject::Dist, value),
            NpmObject::Versions => reads_without_growth(NpmObject::Manifest, value),
            NpmObject::Packument => (name == "versions"@ ==> reads_without_growth(
                NpmObject::Versions,
                value,
            )) && (name == "dist"@ ==> reads_without_growth(NpmObject::Dist, value)),
        },
    ensures
        20 * (byte_len(object.member(name, value, upstreams, origin)) - byte_len(value))
            <= byte_len(value) * (byte_len(origin) + REWRITE_PREFIX_LEN),
    decreases object.depth(), 0int,
{
    let growth = byte_len(origin) + REWRITE_PREFIX_LEN;
    let len = byte_len(value);
    assert(len * growth >= 0) by (nonlinear_arith)
        requires
            len >= 0,
            growth >= 0,
    ;
    match object {
        NpmObject::Dist => lemma_tarball_growth(name, value, upstreams, origin),
        NpmObject::Manifest => if name == "dist"@ {
            lemma_object_growth(NpmObject::Dist, value, upstreams, origin);
        },
        NpmObject::Versions => lemma_object_growth(
            NpmObject::Manifest,
            value,
            upstreams,
            origin,
        ),
        NpmObject::Packument => if name == "versions"@ {
            lemma_object_growth(NpmObject::Versions, value, upstreams, origin);
        } else if name == "dist"@ {
            lemma_object_growth(NpmObject::Dist, value, upstreams, origin);
        },
    }
}

/// The memory that is reserved for the output of a rewrite holds it: the rewritten packument is
/// no longer than its bound, so that rewriting succeeds, unless the parsers make one of its
/// links or objects longer, the origin needs escapes in JSON, or the packument passes the limit
/// on metadata.
pub proof fn reserved_memory_holds_the_packument(
    body: Seq<u8>,
    text: Seq<char>,
    upstreams: &RegistryOrigins,
    origin: String,
)
    requires
        json_document(body) == Ok::<Seq<char>, Seq<char>>(text),
        byte_len(text) <= body.len(),
        reads_without_growth(NpmObject::Packument, text),
        json_escaped(origin@) == origin@,
        byte_len(packument_text(text, upstreams, origin@)) <= MAX_METADATA_BODY_LEN,
    ensures
        ({
            let bound = MetadataRewrite::Npm(origin).bound(body.len() as int);
            &&& byte_len(packument_text(text, upstreams, origin@)) <= bound
            &&& rewritten_packument(body, upstreams, origin@, bound as usize) == Ok::<
                Seq<u8>,
                Seq<char>,
            >(encode_utf8(packument_text(text, upstreams, origin@)))
        }),
{
    let growth = byte_len(origin@) + REWRITE_PREFIX_LEN;
    lemma_object_growth(NpmObject::Packument, text, upstreams, origin@);
    let n = body.len() as int;
    let len = byte_len(text);
    let links = (n + 19) / 20;
    let more = byte_len(packument_text(text, upstreams, origin@)) - len;
    assert(n <= 20 * links);
    assert(more <= links * growth) by (nonlinear_arith)
        requires
            20 * more <= len * growth,
            len <= n,
            n <= 20 * links,
            growth >= 0,
    ;
    assert(grown(n, 20, byte_len(origin@)) == n + links * growth);
}

} // verus!
