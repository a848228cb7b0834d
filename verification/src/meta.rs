//! What is kept of the header of an upstream response.
use crate::cache::{pairs_view, MetaView, StoredResponseMeta};
use crate::http::{headers_view, is_hop_header, is_hop_name, Header};
use crate::text::{decimal, eq_ignore_ascii_case, opt_text, same_ignoring_case, to_decimal};
use vstd::prelude::*;
use vstd::string::*;

verus! {

// ---------------------------------------------------------------------------
// Field values
// ---------------------------------------------------------------------------

/// A byte that may stand in a field value that is text: visible ASCII, space or tab.
pub open spec fn is_text_byte(b: u8) -> bool {
    32 <= b < 127 || b == 9
}

/// A field value that is text.
pub open spec fn is_text_value(value: Seq<u8>) -> bool {
    forall|i: int| 0 <= i < value.len() ==> is_text_byte(#[trigger] value[i])
}

/// The text of a field value.
pub open spec fn value_text(value: Seq<u8>) -> Seq<char> {
    Seq::new(value.len(), |i: int| value[i] as char)
}

/// The text of a field value, where it is text.
pub open spec fn text_of(value: Seq<u8>) -> Option<Seq<char>> {
    if is_text_value(value) {
        Some(value_text(value))
    } else {
        None
    }
}

/// The text of a field value, where it is text.
pub fn header_text(value: &Vec<u8>) -> (r: Option<String>)
    ensures
        opt_text(r) == text_of(value@),
{
    let mut out = String::new();
    let mut i: usize = 0;
    while i < value.len()
        invariant
            i <= value.len(),
            forall|j: int| 0 <= j < i ==> is_text_byte(#[trigger] value@[j]),
            out@ =~= value_text(value@).take(i as int),
        decreases value.len() - i,
    {
        let b: u8 = value[i];
        if !((32 <= b && b < 127) || b == 9) {
            proof {
                assert(!is_text_byte(value@[i as int]));
            }
            return None;
        }
        out.push(b as char);
        proof {
            let t = value_text(value@);
            assert(t.take(i + 1) =~= t.take(i as int).push(t[i as int]));
        }
        i = i + 1;
    }
    proof {
        assert(value_text(value@).take(i as int) =~= value_text(value@));
    }
    Some(out)
}

// ---------------------------------------------------------------------------
// Kept fields
// ---------------------------------------------------------------------------

/// The field is kept: it speaks of more than one connection, is text, and is not a length
/// that another one replaces.
pub open spec fn is_kept(header: (Seq<char>, Seq<u8>), new_length: bool) -> bool {
    &&& !is_hop_name(header.0)
    &&& !(new_length && same_ignoring_case(header.0, "content-length"@))
    &&& is_text_value(header.1)
}

/// The fields that are kept, in their order.
pub open spec fn kept_headers(headers: Seq<(Seq<char>, Seq<u8>)>, new_length: bool) -> Seq<
    (Seq<char>, Seq<char>),
>
    decreases headers.len(),
{
    if headers.len() == 0 {
        Seq::empty()
    } else {
        let before = kept_headers(headers.drop_last(), new_length);
        let last = headers.last();
        if is_kept(last, new_length) {
            before.push((last.0, value_text(last.1)))
        } else {
            before
        }
    }
}

/// The value of the first field with the name, where it is text.
pub open spec fn first_value(headers: Seq<(Seq<char>, Seq<u8>)>, name: Seq<char>) -> Option<
    Seq<char>,
>
    decreases headers.len(),
{
    if headers.len() == 0 {
        None
    } else if same_ignoring_case(headers[0].0, name) {
        text_of(headers[0].1)
    } else {
        first_value(headers.drop_first(), name)
    }
}

/// What is kept of an upstream response, with a new length where one is given.
pub open spec fn upstream_meta(
    status: u16,
    headers: Seq<(Seq<char>, Seq<u8>)>,
    content_length: Option<u64>,
) -> MetaView {
    let kept = kept_headers(headers, content_length is Some);
    MetaView {
        headers: match content_length {
            Some(n) => kept.push(("content-length"@, decimal(n as nat))),
            None => kept,
        },
        last_modified: first_value(headers, "last-modified"@),
        etag: first_value(headers, "etag"@),
        status,
    }
}

/// The fields with other names, in their order.
pub open spec fn without_header(headers: Seq<(Seq<char>, Seq<char>)>, name: Seq<char>) -> Seq<
    (Seq<char>, Seq<char>),
>
    decreases headers.len(),
{
    if headers.len() == 0 {
        Seq::empty()
    } else {
        let before = without_header(headers.drop_last(), name);
        if same_ignoring_case(headers.last().0, name) {
            before
        } else {
            before.push(headers.last())
        }
    }
}

/// One of the fields has the name.
pub open spec fn has_header(headers: Seq<(Seq<char>, Seq<char>)>, name: Seq<char>) -> bool {
    exists|i: int| 0 <= i < headers.len() && same_ignoring_case((#[trigger] headers[i]).0, name)
}

/// What is served with a buffered body of `content_length` bytes: upstream's validators only
/// where the body is upstream's, and always a content type.
pub open spec fn buffered_meta(
    status: u16,
    headers: Seq<(Seq<char>, Seq<u8>)>,
    content_length: u64,
    expose_upstream_validators: bool,
) -> MetaView {
    let meta = upstream_meta(status, headers, Some(content_length));
    let shown = if expose_upstream_validators {
        meta.headers
    } else {
        without_header(without_header(meta.headers, "etag"@), "last-modified"@)
    };
    MetaView {
        headers: if has_header(shown, "content-type"@) {
            shown
        } else {
            shown.push(("content-type"@, "application/octet-stream"@))
        },
        ..meta
    }
}

fn first_text(headers: &Vec<Header>, name: &str) -> (r: Option<String>)
    ensures
        opt_text(r) == first_value(headers_view(headers@), name@),
{
    let ghost all = headers_view(headers@);
    let mut i: usize = 0;
    proof {
        assert(all.skip(0) =~= all);
    }
    while i < headers.len()
        invariant
            i <= headers.len(),
            all == headers_view(headers@),
            first_value(all, name@) == first_value(all.skip(i as int), name@),
        decreases headers.len() - i,
    {
        proof {
            assert(all.skip(i as int)[0] == headers@[i as int]@);
            assert(all.skip(i as int).drop_first() =~= all.skip(i + 1));
        }
        if eq_ignore_ascii_case(headers[i].name.as_str(), name) {
            return header_text(&headers[i].value);
        }
        i = i + 1;
    }
    None
}

/// What is kept of an upstream response, with a new length where one is given.
pub fn meta_from_upstream(status: u16, headers: &Vec<Header>, content_length: Option<u64>) -> (r:
    StoredResponseMeta)
    ensures
        r@ == upstream_meta(status, headers_view(headers@), content_length),
{
    let mut stored: Vec<(String, String)> = Vec::new();
    let ghost all = headers_view(headers@);
    let ghost new_length = content_length is Some;
    let mut i: usize = 0;
    proof {
        assert(all.take(0) =~= Seq::<(Seq<char>, Seq<u8>)>::empty());
        assert(pairs_view(stored@) =~= Seq::<(Seq<char>, Seq<char>)>::empty());
    }
    while i < headers.len()
        invariant
            i <= headers.len(),
            all == headers_view(headers@),
            new_length == content_length is Some,
            pairs_view(stored@) == kept_headers(all.take(i as int), new_length),
        decreases headers.len() - i,
    {
        let ghost before = stored@;
        proof {
            assert(all.take(i + 1).drop_last() =~= all.take(i as int));
            assert(all[i as int] == headers@[i as int]@);
        }
        let name = headers[i].name.as_str();
        if !is_hop_header(name) && !(content_length.is_some() && eq_ignore_ascii_case(
            name,
            "content-length",
        )) {
            if let Some(value) = header_text(&headers[i].value) {
                stored.push((name.to_owned(), value));
                proof {
                    assert(pairs_view(stored@) =~= pairs_view(before).push(
                        (all[i as int].0, value_text(all[i as int].1)),
                    ));
                }
            }
        }
        i = i + 1;
    }
    proof {
        assert(all.take(i as int) =~= all);
    }
    if let Some(n) = content_length {
        let ghost before = stored@;
        stored.push(("content-length".to_owned(), to_decimal(n as u128)));
        proof {
            assert(pairs_view(stored@) =~= pairs_view(before).push(
                ("content-length"@, decimal(n as nat)),
            ));
        }
    }
    StoredResponseMeta {
        headers: stored,
        last_modified: first_text(headers, "last-modified"),
        etag: first_text(headers, "etag"),
        status,
    }
}

/// Removes the fields with the name.
pub fn strip_header(headers: &mut Vec<(String, String)>, name: &str)
    ensures
        pairs_view(final(headers)@) == without_header(pairs_view(old(headers)@), name@),
{
    let ghost all = pairs_view(headers@);
    let ghost start = headers@;
    let mut kept: Vec<(String, String)> = Vec::new();
    let mut i: usize = 0;
    proof {
        assert(all.take(0) =~= Seq::<(Seq<char>, Seq<char>)>::empty());
        assert(pairs_view(kept@) =~= Seq::<(Seq<char>, Seq<char>)>::empty());
    }
    while i < headers.len()
        invariant
            i <= headers.len(),
            headers@ == start,
            all == pairs_view(start),
            pairs_view(kept@) == without_header(all.take(i as int), name@),
        decreases headers.len() - i,
    {
        let ghost before = kept@;
        proof {
            assert(all.take(i + 1).drop_last() =~= all.take(i as int));
        }
        if !eq_ignore_ascii_case(headers[i].0.as_str(), name) {
            kept.push((headers[i].0.clone(), headers[i].1.clone()));
            proof {
                assert(pairs_view(kept@) =~= pairs_view(before).push(all[i as int]));
            }
        }
        i = i + 1;
    }
    proof {
        assert(all.take(i as int) =~= all);
    }
    *headers = kept;
}

fn any_header(headers: &Vec<(String, String)>, name: &str) -> (r: bool)
    ensures
        r == has_header(pairs_view(headers@), name@),
{
    let ghost all = pairs_view(headers@);
    let mut i: usize = 0;
    while i < headers.len()
        invariant
            i <= headers.len(),
            all == pairs_view(headers@),
            forall|j: int| 0 <= j < i ==> !same_ignoring_case((#[trigger] all[j]).0, name@),
        decreases headers.len() - i,
    {
        proof {
            assert(all[i as int].0 == headers@[i as int].0@);
        }
        if eq_ignore_ascii_case(headers[i].0.as_str(), name) {
            return true;
        }
        i = i + 1;
    }
    false
}

/// What is served with a buffered body of `content_length` bytes.
pub fn meta_for_bytes(
    status: u16,
    headers: &Vec<Header>,
    content_length: u64,
    expose_upstream_validators: bool,
) -> (r: StoredResponseMeta)
    ensures
        r@ == buffered_meta(
            status,
            headers_view(headers@),
            content_length,
            expose_upstream_validators,
        ),
{
    let mut meta = meta_from_upstream(status, headers, Some(content_length));
    if !expose_upstream_validators {
        strip_header(&mut meta.headers, "etag");
        strip_header(&mut meta.headers, "last-modified");
    }
    if !any_header(&meta.headers, "content-type") {
        let ghost before = meta.headers@;
        meta.headers.push(("content-type".to_owned(), "application/octet-stream".to_owned()));
        proof {
            assert(pairs_view(meta.headers@) =~= pairs_view(before).push(
                ("content-type"@, "application/octet-stream"@),
            ));
        }
    }
    meta
}

/// The fields that ask upstream whether a stored response still holds.
pub open spec fn conditions(meta: MetaView) -> Seq<(Seq<char>, Seq<char>)> {
    (match meta.etag {
        Some(etag) => seq![("if-none-match"@, etag)],
        None => Seq::empty(),
    }) + (match meta.last_modified {
        Some(time) => seq![("if-modified-since"@, time)],
        None => Seq::empty(),
    })
}

/// The fields that ask upstream whether a stored response still holds.
pub fn conditional_headers(meta: &StoredResponseMeta) -> (r: Vec<(String, String)>)
    ensures
        pairs_view(r@) == conditions(meta@),
{
    let mut out: Vec<(String, String)> = Vec::new();
    if let Some(etag) = &meta.etag {
        out.push(("if-none-match".to_owned(), etag.clone()));
    }
    if let Some(time) = &meta.last_modified {
        out.push(("if-modified-since".to_owned(), time.clone()));
    }
    proof {
        assert(pairs_view(out@) =~= conditions(meta@));
    }
    out
}

// ---------------------------------------------------------------------------
// Laws
// ---------------------------------------------------------------------------

proof fn lemma_kept(headers: Seq<(Seq<char>, Seq<u8>)>, new_length: bool)
    ensures
        forall|i: int|
            0 <= i < kept_headers(headers, new_length).len() ==> !is_hop_name(
                (#[trigger] kept_headers(headers, new_length)[i]).0,
            ) && !(new_length && same_ignoring_case(
                kept_headers(headers, new_length)[i].0,
                "content-length"@,
            )),
    decreases headers.len(),
{
    if headers.len() > 0 {
        lemma_kept(headers.drop_last(), new_length);
        let before = kept_headers(headers.drop_last(), new_length);
        let after = kept_headers(headers, new_length);
        assert forall|i: int| 0 <= i < after.len() implies !is_hop_name((#[trigger] after[i]).0)
            && !(new_length && same_ignoring_case(after[i].0, "content-length"@)) by {
            if i < before.len() {
                assert(after[i] == before[i]);
            }
        }
    }
}

/// No field that speaks of one connection only is kept, and where a new length is given, no
/// other field of that name, in whatever case, stands beside it.
pub proof fn connection_fields_are_not_kept(
    status: u16,
    headers: Seq<(Seq<char>, Seq<u8>)>,
    content_length: Option<u64>,
)
    ensures
        ({
            let meta = upstream_meta(status, headers, content_length);
            &&& forall|i: int|
                0 <= i < meta.headers.len() ==> !is_hop_name((#[trigger] meta.headers[i]).0)
            &&& content_length matches Some(n) ==> {
                &&& meta.headers.len() > 0
                &&& meta.headers.last() == ("content-length"@, decimal(n as nat))
                &&& forall|i: int|
                    0 <= i < meta.headers.len() - 1 ==> !same_ignoring_case(
                        (#[trigger] meta.headers[i]).0,
                        "content-length"@,
                    )
            }
        }),
{
    lemma_kept(headers, content_length is Some);
    lemma_length_is_no_hop();
}

proof fn lemma_length_is_no_hop()
    ensures
        !is_hop_name("content-length"@),
{
    reveal_strlit("content-length");
    reveal_strlit("connection");
    reveal_strlit("keep-alive");
    reveal_strlit("proxy-authenticate");
    reveal_strlit("proxy-authorization");
    reveal_strlit("te");
    reveal_strlit("trailer");
    reveal_strlit("transfer-encoding");
    reveal_strlit("upgrade");
}

proof fn lemma_without(headers: Seq<(Seq<char>, Seq<char>)>, name: Seq<char>, other: Seq<char>)
    ensures
        !has_header(without_header(headers, name), name),
        !has_header(headers, other) ==> !has_header(without_header(headers, name), other),
    decreases headers.len(),
{
    if headers.len() > 0 {
        let init = headers.drop_last();
        lemma_without(init, name, other);
        let before = without_header(init, name);
        let after = without_header(headers, name);
        assert forall|i: int| 0 <= i < after.len() implies !same_ignoring_case(
            (#[trigger] after[i]).0,
            name,
        ) by {
            if i < before.len() {
                assert(after[i] == before[i]);
            }
        }
        if !has_header(headers, other) {
            assert forall|i: int| 0 <= i < init.len() implies !same_ignoring_case(
                (#[trigger] init[i]).0,
                other,
            ) by {
                assert(init[i] == headers[i]);
            }
            assert(!has_header(init, other));
            assert forall|i: int| 0 <= i < after.len() implies !same_ignoring_case(
                (#[trigger] after[i]).0,
                other,
            ) by {
                if i < before.len() {
                    assert(after[i] == before[i]);
                } else {
                    assert(after[i] == headers[headers.len() - 1]);
                }
            }
        }
    }
}

/// A rewritten body is served without upstream's validators, which are still kept to ask
/// upstream with; every buffered body has a content type.
pub proof fn rewritten_bodies_hide_validators(
    status: u16,
    headers: Seq<(Seq<char>, Seq<u8>)>,
    content_length: u64,
    expose_upstream_validators: bool,
)
    ensures
        ({
            let meta = buffered_meta(status, headers, content_length, expose_upstream_validators);
            &&& has_header(meta.headers, "content-type"@)
            &&& !expose_upstream_validators ==> !has_header(meta.headers, "etag"@) && !has_header(
                meta.headers,
                "last-modified"@,
            )
            &&& meta.etag == first_value(headers, "etag"@)
            &&& meta.last_modified == first_value(headers, "last-modified"@)
            &&& meta.status == status
        }),
{
    let full = upstream_meta(status, headers, Some(content_length)).headers;
    let first = without_header(full, "etag"@);
    let shown = without_header(first, "last-modified"@);
    lemma_without(full, "etag"@, "etag"@);
    lemma_without(first, "last-modified"@, "etag"@);
    let meta = buffered_meta(status, headers, content_length, expose_upstream_validators);
    reveal_strlit("etag");
    reveal_strlit("last-modified");
    reveal_strlit("content-type");
    let visible = if expose_upstream_validators {
        full
    } else {
        shown
    };
    if !has_header(visible, "content-type"@) {
        assert(meta.headers[visible.len() as int].0 == "content-type"@);
        assert(same_ignoring_case("content-type"@, "content-type"@));
        if !expose_upstream_validators {
            assert forall|i: int| 0 <= i < meta.headers.len() implies !same_ignoring_case(
                (#[trigger] meta.headers[i]).0,
                "etag"@,
            ) && !same_ignoring_case(meta.headers[i].0, "last-modified"@) by {
                if i < shown.len() {
                    assert(meta.headers[i] == shown[i]);
                }
            }
        }
    }
}

/// A field value is text where every byte is visible ASCII, a space or a tab, and its text has
/// those bytes for characters.
pub proof fn text_values_are_their_bytes(value: Seq<u8>)
    ensures
        text_of(value) is Some <==> forall|i: int|
            0 <= i < value.len() ==> 32 <= #[trigger] value[i] <= 126 || value[i] == 9,
        text_of(value) matches Some(t) ==> t.len() == value.len() && forall|i: int|
            0 <= i < t.len() ==> #[trigger] t[i] as int == value[i] as int,
{
    if text_of(value) is Some {
        assert forall|i: int| 0 <= i < value.len() implies 32 <= #[trigger] value[i] <= 126
            || value[i] == 9 by {
            assert(is_text_byte(value[i]));
        }
    }
    if forall|i: int| 0 <= i < value.len() ==> 32 <= #[trigger] value[i] <= 126 || value[i] == 9 {
        assert forall|i: int| 0 <= i < value.len() implies is_text_byte(#[trigger] value[i]) by {}
    }
}

/// The field is one that upstream sent to whoever reads the response: its name is none of the
/// eight of one connection, and its value is text.
pub open spec fn is_end_to_end(field: (Seq<char>, Seq<u8>)) -> bool {
    &&& !same_ignoring_case(field.0, "connection"@)
    &&& !same_ignoring_case(field.0, "keep-alive"@)
    &&& !same_ignoring_case(field.0, "proxy-authenticate"@)
    &&& !same_ignoring_case(field.0, "proxy-authorization"@)
    &&& !same_ignoring_case(field.0, "te"@)
    &&& !same_ignoring_case(field.0, "trailer"@)
    &&& !same_ignoring_case(field.0, "transfer-encoding"@)
    &&& !same_ignoring_case(field.0, "upgrade"@)
    &&& forall|k: int|
        0 <= k < field.1.len() ==> 32 <= #[trigger] field.1[k] <= 126 || field.1[k] == 9
}

/// The text with the bytes of the value for characters.
pub open spec fn is_text_with(text: Seq<char>, value: Seq<u8>) -> bool {
    text.len() == value.len() && forall|k: int|
        0 <= k < text.len() ==> #[trigger] text[k] as int == value[k] as int
}

proof fn lemma_same_text(text: Seq<char>, value: Seq<u8>)
    requires
        is_text_with(text, value),
    ensures
        text == value_text(value),
{
    assert(text =~= value_text(value));
}

/// Every field that upstream sent to whoever reads the response is kept, with its name and its
/// value, in the order of upstream; only an old length makes room where a new one is given.
pub proof fn end_to_end_fields_are_kept_in_order(
    status: u16,
    headers: Seq<(Seq<char>, Seq<u8>)>,
    content_length: Option<u64>,
    i: int,
    j: int,
    first: Seq<char>,
    second: Seq<char>,
)
    requires
        0 <= i < j < headers.len(),
        is_end_to_end(headers[i]),
        is_end_to_end(headers[j]),
        content_length is Some ==> !same_ignoring_case(headers[i].0, "content-length"@)
            && !same_ignoring_case(headers[j].0, "content-length"@),
        is_text_with(first, headers[i].1),
        is_text_with(second, headers[j].1),
    ensures
        ({
            let kept = upstream_meta(status, headers, content_length).headers;
            exists|a: int, b: int|
                0 <= a < b < kept.len() && #[trigger] kept[a] == (headers[i].0, first)
                    && #[trigger] kept[b] == (headers[j].0, second)
        }),
{
    let new_length = content_length is Some;
    lemma_same_text(first, headers[i].1);
    lemma_same_text(second, headers[j].1);
    lemma_is_kept(headers[i], new_length);
    lemma_is_kept(headers[j], new_length);
    let kept = kept_headers(headers, new_length);
    let all = upstream_meta(status, headers, content_length).headers;
    let (a, b) = lemma_kept_in_order(headers, new_length, i, j);
    assert(all[a] == kept[a]);
    assert(all[b] == kept[b]);
}

proof fn lemma_is_kept(field: (Seq<char>, Seq<u8>), new_length: bool)
    requires
        is_end_to_end(field),
        new_length ==> !same_ignoring_case(field.0, "content-length"@),
    ensures
        is_kept(field, new_length),
{
    assert forall|k: int| 0 <= k < field.1.len() implies is_text_byte(#[trigger] field.1[k]) by {}
}

proof fn lemma_kept_at(headers: Seq<(Seq<char>, Seq<u8>)>, new_length: bool, i: int) -> (a: int)
    requires
        0 <= i < headers.len(),
        is_kept(headers[i], new_length),
    ensures
        0 <= a < kept_headers(headers, new_length).len(),
        kept_headers(headers, new_length)[a] == (headers[i].0, value_text(headers[i].1)),
    decreases headers.len(),
{
    let init = headers.drop_last();
    let before = kept_headers(init, new_length);
    if i == headers.len() - 1 {
        before.len() as int
    } else {
        assert(init[i] == headers[i]);
        lemma_kept_at(init, new_length, i)
    }
}

proof fn lemma_kept_in_order(
    headers: Seq<(Seq<char>, Seq<u8>)>,
    new_length: bool,
    i: int,
    j: int,
) -> (r: (int, int))
    requires
        0 <= i < j < headers.len(),
        is_kept(headers[i], new_length),
        is_kept(headers[j], new_length),
    ensures
        0 <= r.0 < r.1 < kept_headers(headers, new_length).len(),
        kept_headers(headers, new_length)[r.0] == (headers[i].0, value_text(headers[i].1)),
        kept_headers(headers, new_length)[r.1] == (headers[j].0, value_text(headers[j].1)),
    decreases headers.len(),
{
    let init = headers.drop_last();
    let before = kept_headers(init, new_length);
    assert(init[i] == headers[i]);
    if j == headers.len() - 1 {
        let a = lemma_kept_at(init, new_length, i);
        (a, before.len() as int)
    } else {
        assert(init[j] == headers[j]);
        lemma_kept_in_order(init, new_length, i, j)
    }
}

/// Every field that upstream sent to whoever reads the response is kept, with its name and its
/// value; only an old length makes room where a new one is given.
pub proof fn end_to_end_fields_are_kept(
    status: u16,
    headers: Seq<(Seq<char>, Seq<u8>)>,
    content_length: Option<u64>,
    i: int,
    text: Seq<char>,
)
    requires
        0 <= i < headers.len(),
        is_end_to_end(headers[i]),
        content_length is Some ==> !same_ignoring_case(headers[i].0, "content-length"@),
        is_text_with(text, headers[i].1),
    ensures
        upstream_meta(status, headers, content_length).headers.contains((headers[i].0, text)),
{
    let new_length = content_length is Some;
    lemma_same_text(text, headers[i].1);
    lemma_is_kept(headers[i], new_length);
    let a = lemma_kept_at(headers, new_length, i);
    let all = upstream_meta(status, headers, content_length).headers;
    assert(all[a] == kept_headers(headers, new_length)[a]);
}

/// Nothing is made up: what is kept came from upstream, each field once, but for the new length.
pub proof fn nothing_is_kept_that_upstream_did_not_send(
    status: u16,
    headers: Seq<(Seq<char>, Seq<u8>)>,
    content_length: Option<u64>,
    a: int,
)
    requires
        0 <= a < upstream_meta(status, headers, content_length).headers.len(),
    ensures
        ({
            let meta = upstream_meta(status, headers, content_length);
            let field = meta.headers[a];
            ||| exists|i: int|
                0 <= i < headers.len() && (#[trigger] headers[i]).0 == field.0 && is_text_with(
                    field.1,
                    headers[i].1,
                ) && is_end_to_end(headers[i])
            ||| content_length matches Some(n) && a == meta.headers.len() - 1 && field == (
                "content-length"@,
                decimal(n as nat),
            )
        }),
        upstream_meta(status, headers, content_length).headers.len() <= headers.len() + 1,
        content_length is None ==> upstream_meta(status, headers, content_length).headers.len()
            <= headers.len(),
        upstream_meta(status, headers, content_length).status == status,
{
    let new_length = content_length is Some;
    let kept = kept_headers(headers, new_length);
    lemma_kept_len(headers, new_length);
    if a < kept.len() {
        lemma_kept_from(headers, new_length, a);
    }
}

proof fn lemma_kept_len(headers: Seq<(Seq<char>, Seq<u8>)>, new_length: bool)
    ensures
        kept_headers(headers, new_length).len() <= headers.len(),
    decreases headers.len(),
{
    if headers.len() > 0 {
        lemma_kept_len(headers.drop_last(), new_length);
    }
}

proof fn lemma_kept_from(headers: Seq<(Seq<char>, Seq<u8>)>, new_length: bool, a: int)
    requires
        0 <= a < kept_headers(headers, new_length).len(),
    ensures
        exists|i: int|
            0 <= i < headers.len() && (#[trigger] headers[i]).0 == kept_headers(
                headers,
                new_length,
            )[a].0 && is_text_with(kept_headers(headers, new_length)[a].1, headers[i].1)
                && is_end_to_end(headers[i]),
    decreases headers.len(),
{
    let init = headers.drop_last();
    let before = kept_headers(init, new_length);
    let kept = kept_headers(headers, new_length);
    if a < before.len() {
        assert(kept[a] == before[a]);
        lemma_kept_from(init, new_length, a);
        let i = choose|i: int|
            0 <= i < init.len() && (#[trigger] init[i]).0 == before[a].0 && is_text_with(
                before[a].1,
                init[i].1,
            ) && is_end_to_end(init[i]);
        assert(headers[i] == init[i]);
    } else {
        let last = headers[headers.len() - 1];
        assert(is_kept(last, new_length));
        assert forall|k: int| 0 <= k < last.1.len() implies 32 <= #[trigger] last.1[k] <= 126
            || last.1[k] == 9 by {
            assert(is_text_byte(last.1[k]));
        }
        assert(is_end_to_end(last));
        assert(is_text_with(kept[a].1, last.1));
    }
}

/// A validator is what upstream sent first under its name, where that is text: the entity tag
/// under `etag` and the time under `last-modified`.
pub proof fn validators_are_the_first_of_their_name(
    status: u16,
    headers: Seq<(Seq<char>, Seq<u8>)>,
    content_length: Option<u64>,
    i: int,
    text: Seq<char>,
)
    requires
        0 <= i < headers.len(),
        is_text_with(text, headers[i].1),
        forall|k: int|
            0 <= k < headers[i].1.len() ==> 32 <= #[trigger] headers[i].1[k] <= 126
                || headers[i].1[k] == 9,
    ensures
        same_ignoring_case(headers[i].0, "etag"@) && (forall|k: int|
            0 <= k < i ==> !same_ignoring_case((#[trigger] headers[k]).0, "etag"@))
            ==> upstream_meta(status, headers, content_length).etag == Some(text),
        same_ignoring_case(headers[i].0, "last-modified"@) && (forall|k: int|
            0 <= k < i ==> !same_ignoring_case((#[trigger] headers[k]).0, "last-modified"@))
            ==> upstream_meta(status, headers, content_length).last_modified == Some(text),
{
    lemma_same_text(text, headers[i].1);
    assert forall|k: int| 0 <= k < headers[i].1.len() implies is_text_byte(
        #[trigger] headers[i].1[k],
    ) by {}
    if same_ignoring_case(headers[i].0, "etag"@) && (forall|k: int|
        0 <= k < i ==> !same_ignoring_case((#[trigger] headers[k]).0, "etag"@)) {
        lemma_first_value(headers, "etag"@, i);
    }
    if same_ignoring_case(headers[i].0, "last-modified"@) && (forall|k: int|
        0 <= k < i ==> !same_ignoring_case((#[trigger] headers[k]).0, "last-modified"@)) {
        lemma_first_value(headers, "last-modified"@, i);
    }
}

proof fn lemma_first_value(headers: Seq<(Seq<char>, Seq<u8>)>, name: Seq<char>, i: int)
    requires
        0 <= i < headers.len(),
        same_ignoring_case(headers[i].0, name),
        forall|k: int| 0 <= k < i ==> !same_ignoring_case((#[trigger] headers[k]).0, name),
    ensures
        first_value(headers, name) == text_of(headers[i].1),
    decreases headers.len(),
{
    if i > 0 {
        assert(!same_ignoring_case(headers[0].0, name));
        let rest = headers.drop_first();
        assert(rest[i - 1] == headers[i]);
        assert forall|k: int| 0 <= k < i - 1 implies !same_ignoring_case(
            (#[trigger] rest[k]).0,
            name,
        ) by {
            assert(rest[k] == headers[k + 1]);
        }
        lemma_first_value(rest, name, i - 1);
    }
}

/// Without a field of its name there is no validator.
pub proof fn validators_are_not_made_up(
    status: u16,
    headers: Seq<(Seq<char>, Seq<u8>)>,
    content_length: Option<u64>,
)
    ensures
        (forall|k: int|
            0 <= k < headers.len() ==> !same_ignoring_case((#[trigger] headers[k]).0, "etag"@))
            ==> upstream_meta(status, headers, content_length).etag is None,
        (forall|k: int|
            0 <= k < headers.len() ==> !same_ignoring_case(
                (#[trigger] headers[k]).0,
                "last-modified"@,
            )) ==> upstream_meta(status, headers, content_length).last_modified is None,
{
    if forall|k: int|
        0 <= k < headers.len() ==> !same_ignoring_case((#[trigger] headers[k]).0, "etag"@) {
        lemma_no_value(headers, "etag"@);
    }
    if forall|k: int|
        0 <= k < headers.len() ==> !same_ignoring_case(
            (#[trigger] headers[k]).0,
            "last-modified"@,
        ) {
        lemma_no_value(headers, "last-modified"@);
    }
}

proof fn lemma_no_value(headers: Seq<(Seq<char>, Seq<u8>)>, name: Seq<char>)
    requires
        forall|k: int|
            0 <= k < headers.len() ==> !same_ignoring_case((#[trigger] headers[k]).0, name),
    ensures
        first_value(headers, name) is None,
    decreases headers.len(),
{
    if headers.len() > 0 {
        assert(!same_ignoring_case(headers[0].0, name));
        let rest = headers.drop_first();
        assert forall|k: int| 0 <= k < rest.len() implies !same_ignoring_case(
            (#[trigger] rest[k]).0,
            name,
        ) by {
            assert(rest[k] == headers[k + 1]);
        }
        lemma_no_value(rest, name);
    }
}

proof fn lemma_without_keeps(
    headers: Seq<(Seq<char>, Seq<char>)>,
    name: Seq<char>,
    field: (Seq<char>, Seq<char>),
)
    ensures
        without_header(headers, name).contains(field) <==> headers.contains(field)
            && !same_ignoring_case(field.0, name),
    decreases headers.len(),
{
    let after = without_header(headers, name);
    if headers.len() > 0 {
        let init = headers.drop_last();
        let before = without_header(init, name);
        lemma_without_keeps(init, name, field);
        if headers.contains(field) && !same_ignoring_case(field.0, name) {
            let i = choose|i: int| 0 <= i < headers.len() && headers[i] == field;
            if i < init.len() {
                assert(init[i] == field);
                assert(before.contains(field));
                let j = choose|j: int| 0 <= j < before.len() && before[j] == field;
                assert(after[j] == field);
            } else {
                assert(after[before.len() as int] == field);
            }
        }
        if after.contains(field) {
            let j = choose|j: int| 0 <= j < after.len() && after[j] == field;
            if j < before.len() {
                assert(before[j] == field);
                assert(init.contains(field));
                let i = choose|i: int| 0 <= i < init.len() && init[i] == field;
                assert(headers[i] == field);
            } else {
                assert(headers[headers.len() - 1] == field);
            }
        }
    }
}

/// What is served with a buffered body keeps every field that upstream sent to whoever reads the
/// response, but for the old length, and for upstream's validators where the body is not
/// upstream's; it carries the length of the body.
pub proof fn buffered_bodies_keep_end_to_end_fields(
    status: u16,
    headers: Seq<(Seq<char>, Seq<u8>)>,
    content_length: u64,
    expose_upstream_validators: bool,
    i: int,
    text: Seq<char>,
)
    requires
        0 <= i < headers.len(),
        is_end_to_end(headers[i]),
        !same_ignoring_case(headers[i].0, "content-length"@),
        !expose_upstream_validators ==> !same_ignoring_case(headers[i].0, "etag"@)
            && !same_ignoring_case(headers[i].0, "last-modified"@),
        is_text_with(text, headers[i].1),
    ensures
        ({
            let meta = buffered_meta(status, headers, content_length, expose_upstream_validators);
            &&& meta.headers.contains((headers[i].0, text))
            &&& meta.headers.contains(("content-length"@, decimal(content_length as nat)))
            &&& meta.status == status
        }),
{
    let meta = upstream_meta(status, headers, Some(content_length));
    let field = (headers[i].0, text);
    let length = ("content-length"@, decimal(content_length as nat));
    end_to_end_fields_are_kept(status, headers, Some(content_length), i, text);
    assert(meta.headers[meta.headers.len() - 1] == length);
    lemma_buffered_contains(status, headers, content_length, expose_upstream_validators, field);
    reveal_strlit("content-length");
    reveal_strlit("etag");
    reveal_strlit("last-modified");
    assert("content-length"@.len() == 14 && "last-modified"@.len() == 13);
    lemma_buffered_contains(status, headers, content_length, expose_upstream_validators, length);
}

proof fn lemma_buffered_contains(
    status: u16,
    headers: Seq<(Seq<char>, Seq<u8>)>,
    content_length: u64,
    expose: bool,
    field: (Seq<char>, Seq<char>),
)
    requires
        upstream_meta(status, headers, Some(content_length)).headers.contains(field),
        expose || (!same_ignoring_case(field.0, "etag"@) && !same_ignoring_case(
            field.0,
            "last-modified"@,
        )),
    ensures
        buffered_meta(status, headers, content_length, expose).headers.contains(field),
{
    let full = upstream_meta(status, headers, Some(content_length)).headers;
    let first = without_header(full, "etag"@);
    let shown = if expose {
        full
    } else {
        without_header(first, "last-modified"@)
    };
    lemma_without_keeps(full, "etag"@, field);
    lemma_without_keeps(first, "last-modified"@, field);
    assert(shown.contains(field));
    let j = choose|j: int| 0 <= j < shown.len() && shown[j] == field;
    assert(buffered_meta(status, headers, content_length, expose).headers[j] == field);
}

/// A content type is made up only where upstream sent none that is text: then, and only then,
/// `application/octet-stream` stands at the end.
pub proof fn content_types_are_made_up_only_where_there_is_none(
    status: u16,
    headers: Seq<(Seq<char>, Seq<u8>)>,
    content_length: u64,
    expose_upstream_validators: bool,
)
    ensures
        ({
            let full = upstream_meta(status, headers, Some(content_length)).headers;
            let meta = buffered_meta(status, headers, content_length, expose_upstream_validators);
            let sent = exists|i: int|
                0 <= i < headers.len() && same_ignoring_case(
                    (#[trigger] headers[i]).0,
                    "content-type"@,
                ) && is_end_to_end(headers[i]);
            &&& sent && expose_upstream_validators ==> meta.headers == full
            &&& !sent && expose_upstream_validators ==> meta.headers == full.push(
                ("content-type"@, "application/octet-stream"@),
            )
            &&& !sent ==> meta.headers.len() > 0 && meta.headers.last() == (
                "content-type"@,
                "application/octet-stream"@,
            )
            &&& forall|a: int|
                0 <= a < meta.headers.len() && (sent || a < meta.headers.len() - 1)
                    ==> full.contains(#[trigger] meta.headers[a])
        }),
{
    let full = upstream_meta(status, headers, Some(content_length)).headers;
    let kept = kept_headers(headers, true);
    let meta = buffered_meta(status, headers, content_length, expose_upstream_validators);
    let sent = exists|i: int|
        0 <= i < headers.len() && same_ignoring_case((#[trigger] headers[i]).0, "content-type"@)
            && is_end_to_end(headers[i]);
    let first = without_header(full, "etag"@);
    let shown = if expose_upstream_validators {
        full
    } else {
        without_header(first, "last-modified"@)
    };
    reveal_strlit("content-type");
    reveal_strlit("content-length");
    reveal_strlit("etag");
    reveal_strlit("last-modified");
    assert("content-type"@.len() == 12 && "content-length"@.len() == 14 && "etag"@.len() == 4
        && "last-modified"@.len() == 13);
    assert(has_header(shown, "content-type"@) == sent) by {
        if sent {
            let i = choose|i: int|
                0 <= i < headers.len() && same_ignoring_case(
                    (#[trigger] headers[i]).0,
                    "content-type"@,
                ) && is_end_to_end(headers[i]);
            let text = value_text(headers[i].1);
            let field = (headers[i].0, text);
            assert(headers[i].0.len() == 12);
            end_to_end_fields_are_kept(status, headers, Some(content_length), i, text);
            lemma_without_keeps(full, "etag"@, field);
            lemma_without_keeps(first, "last-modified"@, field);
            assert(shown.contains(field));
            let j = choose|j: int| 0 <= j < shown.len() && shown[j] == field;
            assert(same_ignoring_case(shown[j].0, "content-type"@));
        }
        if has_header(shown, "content-type"@) {
            let j = choose|j: int|
                0 <= j < shown.len() && same_ignoring_case(
                    (#[trigger] shown[j]).0,
                    "content-type"@,
                );
            let field = shown[j];
            assert(shown.contains(field));
            lemma_without_keeps(full, "etag"@, field);
            lemma_without_keeps(first, "last-modified"@, field);
            assert(full.contains(field));
            let a = choose|a: int| 0 <= a < full.len() && full[a] == field;
            nothing_is_kept_that_upstream_did_not_send(status, headers, Some(content_length), a);
        }
    }
    assert forall|a: int| 0 <= a < meta.headers.len() && (sent || a < meta.headers.len()
        - 1) implies full.contains(#[trigger] meta.headers[a]) by {
        assert(meta.headers[a] == shown[a]);
        assert(shown.contains(shown[a]));
        lemma_without_keeps(full, "etag"@, shown[a]);
        lemma_without_keeps(first, "last-modified"@, shown[a]);
    }
}

/// Upstream is asked with each validator that there is, on its own, and with nothing else: the
/// entity tag first, then the time.
pub proof fn each_validator_is_asked_with(meta: MetaView)
    ensures
        meta.etag matches Some(tag) ==> conditions(meta).contains(("if-none-match"@, tag)),
        meta.last_modified matches Some(time) ==> conditions(meta).contains(
            ("if-modified-since"@, time),
        ),
        forall|i: int|
            0 <= i < conditions(meta).len() ==> (meta.etag is Some && #[trigger] conditions(meta)[i]
                == ("if-none-match"@, meta.etag->0)) || (meta.last_modified is Some && conditions(
                meta,
            )[i] == ("if-modified-since"@, meta.last_modified->0)),
        conditions(meta).len() == (if meta.etag is Some {
            1int
        } else {
            0
        }) + (if meta.last_modified is Some {
            1int
        } else {
            0
        }),
        meta.etag is Some ==> conditions(meta)[0] == ("if-none-match"@, meta.etag->0),
{
    let all = conditions(meta);
    if let Some(tag) = meta.etag {
        assert(all[0] == ("if-none-match"@, tag));
    }
    if let Some(time) = meta.last_modified {
        assert(all[all.len() - 1] == ("if-modified-since"@, time));
    }
}

/// Fields of a name are taken out one by one, and all others stay in their order.
pub proof fn fields_of_a_name_are_taken_out(
    headers: Seq<(Seq<char>, Seq<char>)>,
    field: (Seq<char>, Seq<char>),
    name: Seq<char>,
)
    ensures
        without_header(Seq::empty(), name) == Seq::<(Seq<char>, Seq<char>)>::empty(),
        without_header(headers.push(field), name) == (if same_ignoring_case(field.0, name) {
            without_header(headers, name)
        } else {
            without_header(headers, name).push(field)
        }),
{
    assert(headers.push(field).drop_last() =~= headers);
}

} // verus!
