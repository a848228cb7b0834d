//! The parts of HTTP messages that the rules of the proxy speak of.
use crate::text::{
    eq_ignore_ascii_case, opt_str, opt_text, push_bytes, same_ignoring_case, strip_prefix,
};
use vstd::prelude::*;
use vstd::string::*;
use vstd::utf8::*;

verus! {

/// The methods that the proxy tells apart.
#[derive(Clone, Copy, Debug, PartialEq, Eq, Structural)]
pub enum Method {
    Get,
    Head,
    Post,
    Connect,
    Other,
}

/// What a request asks for, as it was sent.
#[derive(Debug)]
pub struct RequestTarget {
    pub scheme: Option<String>,
    pub authority: Option<String>,
    pub path: String,
    pub query: Option<String>,
}

impl RequestTarget {
    /// A target in origin form.
    pub fn origin_form(path: &str, query: Option<&str>) -> (r: RequestTarget)
        ensures
            r.scheme is None,
            r.authority is None,
            r.path@ == path@,
            opt_text(r.query) == opt_str(query),
    {
        RequestTarget {
            scheme: None,
            authority: None,
            path: path.to_owned(),
            query: match query {
                Some(q) => Some(q.to_owned()),
                None => None,
            },
        }
    }
}

/// What follows `prefix` in the path of a target without a query, where something does.
pub open spec fn path_tail(target: &RequestTarget, prefix: Seq<char>) -> Option<Seq<char>> {
    if target.query is None && prefix.is_prefix_of(target.path@) && target.path@.len()
        > prefix.len() {
        Some(target.path@.skip(prefix.len() as int))
    } else {
        None
    }
}

/// What follows `prefix` in the path of a target without a query, as it was sent.
pub fn raw_path_tail<'a>(target: &'a RequestTarget, prefix: &str) -> (r: Option<&'a str>)
    ensures
        opt_str(r) == path_tail(target, prefix@),
{
    if target.query.is_some() {
        return None;
    }
    match strip_prefix(target.path.as_str(), prefix) {
        Some(tail) => {
            proof {
                assert(prefix@ =~= target.path@.subrange(0, prefix@.len() as int));
                assert(tail@ =~= target.path@.skip(prefix@.len() as int));
            }
            if tail.is_empty() {
                None
            } else {
                Some(tail)
            }
        },
        None => None,
    }
}

/// A header field. Its value need not be text.
#[derive(Debug)]
pub struct Header {
    pub name: String,
    pub value: Vec<u8>,
}

impl View for Header {
    type V = (Seq<char>, Seq<u8>);

    open spec fn view(&self) -> (Seq<char>, Seq<u8>) {
        (self.name@, self.value@)
    }
}

impl Header {
    pub fn new(name: &str, value: &str) -> (r: Header)
        ensures
            r@ == (name@, encode_utf8(value@)),
    {
        let mut bytes: Vec<u8> = Vec::new();
        push_bytes(&mut bytes, value);
        proof {
            assert(bytes@ =~= encode_utf8(value@));
        }
        Header { name: name.to_owned(), value: bytes }
    }
}

impl Clone for Header {
    fn clone(&self) -> (r: Self)
        ensures
            r@ == self@,
    {
        Header { name: self.name.clone(), value: self.value.clone() }
    }
}

/// The views of a list of header fields.
pub open spec fn headers_view(v: Seq<Header>) -> Seq<(Seq<char>, Seq<u8>)> {
    v.map_values(|h: Header| h@)
}

/// The fields whose names are wanted, in their order.
pub open spec fn wanted_headers(
    headers: Seq<(Seq<char>, Seq<u8>)>,
    wanted: spec_fn(Seq<char>) -> bool,
) -> Seq<(Seq<char>, Seq<u8>)>
    decreases headers.len(),
{
    if headers.len() == 0 {
        Seq::empty()
    } else {
        let before = wanted_headers(headers.drop_last(), wanted);
        if wanted(headers.last().0) {
            before.push(headers.last())
        } else {
            before
        }
    }
}

/// The fields that speak of one connection only.
pub open spec fn is_hop_name(name: Seq<char>) -> bool {
    ||| same_ignoring_case(name, "connection"@)
    ||| same_ignoring_case(name, "keep-alive"@)
    ||| same_ignoring_case(name, "proxy-authenticate"@)
    ||| same_ignoring_case(name, "proxy-authorization"@)
    ||| same_ignoring_case(name, "te"@)
    ||| same_ignoring_case(name, "trailer"@)
    ||| same_ignoring_case(name, "transfer-encoding"@)
    ||| same_ignoring_case(name, "upgrade"@)
}

/// Tells whether a field speaks of one connection only.
pub fn is_hop_header(name: &str) -> (r: bool)
    ensures
        r == is_hop_name(name@),
{
    eq_ignore_ascii_case(name, "connection") || eq_ignore_ascii_case(name, "keep-alive")
        || eq_ignore_ascii_case(name, "proxy-authenticate") || eq_ignore_ascii_case(
        name,
        "proxy-authorization",
    ) || eq_ignore_ascii_case(name, "te") || eq_ignore_ascii_case(name, "trailer")
        || eq_ignore_ascii_case(name, "transfer-encoding") || eq_ignore_ascii_case(name, "upgrade")
}

/// The fields that are passed on: all but those of one connection.
pub fn end_to_end_headers(headers: &Vec<Header>) -> (r: Vec<Header>)
    ensures
        headers_view(r@) == wanted_headers(
            headers_view(headers@),
            |name: Seq<char>| !is_hop_name(name),
        ),
{
    let mut out: Vec<Header> = Vec::new();
    let ghost all = headers_view(headers@);
    let ghost wanted = |name: Seq<char>| !is_hop_name(name);
    let mut i: usize = 0;
    proof {
        assert(all.take(0) =~= Seq::<(Seq<char>, Seq<u8>)>::empty());
        assert(headers_view(out@) =~= Seq::<(Seq<char>, Seq<u8>)>::empty());
    }
    while i < headers.len()
        invariant
            i <= headers.len(),
            all == headers_view(headers@),
            wanted == (|name: Seq<char>| !is_hop_name(name)),
            headers_view(out@) == wanted_headers(all.take(i as int), wanted),
        decreases headers.len() - i,
    {
        proof {
            assert(all.take(i + 1).drop_last() =~= all.take(i as int));
        }
        let ghost before = out@;
        if !is_hop_header(headers[i].name.as_str()) {
            out.push(headers[i].clone());
            proof {
                assert(headers_view(out@) =~= headers_view(before).push(all[i as int]));
            }
        }
        i = i + 1;
    }
    proof {
        assert(all.take(i as int) =~= all);
    }
    out
}

/// What passes is what is wanted: nothing else passes, and nothing that is wanted is lost.
pub proof fn exactly_the_wanted_headers_pass(
    headers: Seq<(Seq<char>, Seq<u8>)>,
    wanted: spec_fn(Seq<char>) -> bool,
)
    ensures
        forall|i: int|
            0 <= i < wanted_headers(headers, wanted).len() ==> wanted(
                (#[trigger] wanted_headers(headers, wanted)[i]).0,
            ),
        forall|i: int|
            0 <= i < headers.len() && wanted((#[trigger] headers[i]).0) ==> wanted_headers(
                headers,
                wanted,
            ).contains(headers[i]),
    decreases headers.len(),
{
    if headers.len() > 0 {
        let init = headers.drop_last();
        exactly_the_wanted_headers_pass(init, wanted);
        let before = wanted_headers(init, wanted);
        let after = wanted_headers(headers, wanted);
        assert forall|i: int| 0 <= i < after.len() implies wanted((#[trigger] after[i]).0) by {
            if i < before.len() {
                assert(after[i] == before[i]);
            }
        }
        assert forall|i: int| 0 <= i < headers.len() && wanted(
            (#[trigger] headers[i]).0,
        ) implies after.contains(headers[i]) by {
            if i < init.len() {
                assert(init[i] == headers[i]);
                let k = choose|k: int| 0 <= k < before.len() && before[k] == headers[i];
                assert(after[k] == headers[i]);
            } else {
                assert(after[after.len() - 1] == headers[i]);
            }
        }
    }
}

/// What follows a prefix is what the path is made of behind it: it is there exactly where the
/// target has no query and its path is the prefix with something behind it.
pub proof fn tails_follow_their_prefix(
    target: &RequestTarget,
    prefix: Seq<char>,
    tail: Seq<char>,
)
    ensures
        path_tail(target, prefix) == Some(tail) <==> target.query is None && tail.len() > 0
            && target.path@ == prefix + tail,
{
    let path = target.path@;
    if path == prefix + tail {
        assert(path.skip(prefix.len() as int) =~= tail);
        assert(prefix =~= path.subrange(0, prefix.len() as int));
    }
    if path_tail(target, prefix) == Some(tail) {
        assert(prefix =~= path.subrange(0, prefix.len() as int));
        assert(path =~= prefix + tail);
    }
}

/// Eight fields speak of one connection only, whatever the case of their names, and no other
/// does.
pub proof fn connection_fields_are_eight(name: Seq<char>)
    ensures
        is_hop_name(name) <==> same_ignoring_case(name, "connection"@) || same_ignoring_case(
            name,
            "keep-alive"@,
        ) || same_ignoring_case(name, "proxy-authenticate"@) || same_ignoring_case(
            name,
            "proxy-authorization"@,
        ) || same_ignoring_case(name, "te"@) || same_ignoring_case(name, "trailer"@)
            || same_ignoring_case(name, "transfer-encoding"@) || same_ignoring_case(
            name,
            "upgrade"@,
        ),
{
}

/// What passes keeps its order: with one more field the same pass as before, and then that one
/// where it is wanted.
pub proof fn wanted_headers_keep_their_order(
    headers: Seq<(Seq<char>, Seq<u8>)>,
    field: (Seq<char>, Seq<u8>),
    wanted: spec_fn(Seq<char>) -> bool,
)
    ensures
        wanted_headers(Seq::empty(), wanted) == Seq::<(Seq<char>, Seq<u8>)>::empty(),
        wanted_headers(headers.push(field), wanted) == (if wanted(field.0) {
            wanted_headers(headers, wanted).push(field)
        } else {
            wanted_headers(headers, wanted)
        }),
{
    assert(headers.push(field).drop_last() =~= headers);
}

/// What is shown of a list of fields is the name and the value of each, in their order.
pub proof fn fields_show_name_and_value(headers: Seq<Header>, i: int)
    ensures
        headers_view(headers).len() == headers.len(),
        0 <= i < headers.len() ==> headers_view(headers)[i] == (
            headers[i].name@,
            headers[i].value@,
        ),
{
}

} // verus!
