//! npm packuments: tarball links become links to the proxy, all else stays as it was written.
use crate::json::{
    document_text, json_document, json_members, json_quoted, json_string, json_string_value,
    members_text, members_view, object_members, string_value,
};
use crate::paths::canonical_rewrite;
use crate::rewrite::{
    body_result, host_is, limited, proxied, under_proxy, LimitedOutput, MAX_METADATA_BODY_LEN,
    OUTPUT_LIMIT,
};
use crate::routes::RegistryOrigins;
use crate::text::{lemma_encode_concat, opt_str, opt_text, same};
use crate::weburl::{matches_origin, url_parse, Url, UrlView};
use vstd::prelude::*;
use vstd::string::*;
use vstd::utf8::*;

verus! {

// ---------------------------------------------------------------------------
// What a packument is rewritten to
// ---------------------------------------------------------------------------

/// `u` points to a file of the registry and to nothing on it.
pub open spec fn is_tarball_link(u: UrlView, upstreams: &RegistryOrigins) -> bool {
    &&& u.same_origin(upstreams.npm@) || u.host == Some("registry.npmjs.org"@)
    &&& u.without_credentials()
    &&& u.query is None
    &&& u.fragment is None
}

/// What a tarball link is replaced by, if by anything.
pub open spec fn tarball_target(
    link: Seq<char>,
    upstreams: &RegistryOrigins,
    origin: Seq<char>,
) -> Option<Seq<char>> {
    match url_parse(link) {
        Ok(u) => parsed_tarball_target(u, upstreams, origin),
        Err(_) => None,
    }
}

/// What a tarball link is replaced by, if by anything, given the URL that it is.
pub open spec fn parsed_tarball_target(
    u: UrlView,
    upstreams: &RegistryOrigins,
    origin: Seq<char>,
) -> Option<Seq<char>> {
    if is_tarball_link(u, upstreams) {
        under_proxy(origin + "/npm/tarballs/"@, u.path)
    } else {
        None
    }
}

/// The JSON value `text`: an object with its members as `value_of` gives them, anything else
/// as it is.
pub open spec fn object_text(
    text: Seq<char>,
    value_of: spec_fn(Seq<char>, Seq<char>) -> Seq<char>,
) -> Seq<char> {
    match json_members(text) {
        Some(members) => seq!['{'] + members_text(members, value_of) + seq!['}'],
        None => text,
    }
}

/// A `dist` object: its `tarball` points to the proxy where it pointed to the registry.
pub open spec fn dist_text(
    text: Seq<char>,
    upstreams: &RegistryOrigins,
    origin: Seq<char>,
) -> Seq<char> {
    object_text(text, |name: Seq<char>, value: Seq<char>| dist_member(name, value, upstreams, origin))
}

/// A member of a `dist` object.
pub open spec fn dist_member(
    name: Seq<char>,
    value: Seq<char>,
    upstreams: &RegistryOrigins,
    origin: Seq<char>,
) -> Seq<char> {
    let target = match json_string_value(value) {
        Some(link) => tarball_target(link, upstreams, origin),
        None => None,
    };
    replaced_value(name, value, target)
}

/// The value of a member of a `dist` object, given what its link is replaced by, if by
/// anything.
pub open spec fn replaced_value(
    name: Seq<char>,
    value: Seq<char>,
    target: Option<Seq<char>>,
) -> Seq<char> {
    match target {
        Some(t) => if name == "tarball"@ {
            json_quoted(t)
        } else {
            value
        },
        None => value,
    }
}

/// A package of one version.
pub open spec fn manifest_text(
    text: Seq<char>,
    upstreams: &RegistryOrigins,
    origin: Seq<char>,
) -> Seq<char> {
    object_text(
        text,
        |name: Seq<char>, value: Seq<char>| manifest_member(name, value, upstreams, origin),
    )
}

/// A member of a package.
pub open spec fn manifest_member(
    name: Seq<char>,
    value: Seq<char>,
    upstreams: &RegistryOrigins,
    origin: Seq<char>,
) -> Seq<char> {
    if name == "dist"@ {
        dist_text(value, upstreams, origin)
    } else {
        value
    }
}

/// The versions of a packument.
pub open spec fn versions_text(
    text: Seq<char>,
    upstreams: &RegistryOrigins,
    origin: Seq<char>,
) -> Seq<char> {
    object_text(
        text,
        |name: Seq<char>, value: Seq<char>| manifest_text(value, upstreams, origin),
    )
}

/// A packument: a package with its versions.
pub open spec fn packument_text(
    text: Seq<char>,
    upstreams: &RegistryOrigins,
    origin: Seq<char>,
) -> Seq<char> {
    object_text(
        text,
        |name: Seq<char>, value: Seq<char>| packument_member(name, value, upstreams, origin),
    )
}

/// A member of a packument.
pub open spec fn packument_member(
    name: Seq<char>,
    value: Seq<char>,
    upstreams: &RegistryOrigins,
    origin: Seq<char>,
) -> Seq<char> {
    if name == "versions"@ {
        versions_text(value, upstreams, origin)
    } else {
        manifest_member(name, value, upstreams, origin)
    }
}

/// A packument as the proxy serves it.
pub open spec fn rewritten_packument(
    body: Seq<u8>,
    upstreams: &RegistryOrigins,
    origin: Seq<char>,
    max_len: usize,
) -> Result<Seq<u8>, Seq<char>> {
    match json_document(body) {
        Ok(text) => limited(encode_utf8(packument_text(text, upstreams, origin)), max_len),
        Err(e) => Err(e),
    }
}

/// The objects of a packument that hold, or lead to, tarball links.
#[derive(Clone, Copy, Debug, PartialEq, Eq, Structural)]
pub enum NpmObject {
    Dist,
    Manifest,
    Versions,
    Packument,
}

impl NpmObject {
    /// How many levels of objects lie below.
    pub open spec fn depth(self) -> nat {
        match self {
            NpmObject::Dist => 0,
            NpmObject::Manifest => 1,
            NpmObject::Versions => 2,
            NpmObject::Packument => 3,
        }
    }

    /// A member of the object.
    pub open spec fn member(
        self,
        name: Seq<char>,
        value: Seq<char>,
        upstreams: &RegistryOrigins,
        origin: Seq<char>,
    ) -> Seq<char> {
        match self {
            NpmObject::Dist => dist_member(name, value, upstreams, origin),
            NpmObject::Manifest => manifest_member(name, value, upstreams, origin),
            NpmObject::Versions => manifest_text(value, upstreams, origin),
            NpmObject::Packument => packument_member(name, value, upstreams, origin),
        }
    }

    /// The object.
    pub open spec fn text(
        self,
        text: Seq<char>,
        upstreams: &RegistryOrigins,
        origin: Seq<char>,
    ) -> Seq<char> {
        match self {
            NpmObject::Dist => dist_text(text, upstreams, origin),
            NpmObject::Manifest => manifest_text(text, upstreams, origin),
            NpmObject::Versions => versions_text(text, upstreams, origin),
            NpmObject::Packument => packument_text(text, upstreams, origin),
        }
    }
}

/// The object that has the given members.
pub open spec fn object_with(
    object: NpmObject,
    members: Seq<(Seq<char>, Seq<char>)>,
    upstreams: &RegistryOrigins,
    origin: Seq<char>,
) -> Seq<char> {
    seq!['{'] + members_text(
        members,
        |name: Seq<char>, value: Seq<char>| object.member(name, value, upstreams, origin),
    ) + seq!['}']
}

/// The text of an object is made of its members.
pub proof fn lemma_object_members(
    object: NpmObject,
    text: Seq<char>,
    upstreams: &RegistryOrigins,
    origin: Seq<char>,
)
    ensures
        object.text(text, upstreams, origin) == object_text(
            text,
            |name: Seq<char>, value: Seq<char>| object.member(name, value, upstreams, origin),
        ),
{
    let value_of = |name: Seq<char>, value: Seq<char>|
        object.member(name, value, upstreams, origin);
    match object {
        NpmObject::Dist => {
            assert(value_of =~= (|name: Seq<char>, value: Seq<char>|
                dist_member(name, value, upstreams, origin)));
        },
        NpmObject::Manifest => {
            assert(value_of =~= (|name: Seq<char>, value: Seq<char>|
                manifest_member(name, value, upstreams, origin)));
        },
        NpmObject::Versions => {
            assert(value_of =~= (|name: Seq<char>, value: Seq<char>|
                manifest_text(value, upstreams, origin)));
        },
        NpmObject::Packument => {
            assert(value_of =~= (|name: Seq<char>, value: Seq<char>|
                packument_member(name, value, upstreams, origin)));
        },
    }
}

// ---------------------------------------------------------------------------
// Writing under a limit
// ---------------------------------------------------------------------------

/// `text` was written behind `before`, or refused because the limit would be passed.
pub open spec fn wrote(
    before: Seq<u8>,
    after: Seq<u8>,
    limit: nat,
    r: Result<(), String>,
    text: Seq<char>,
) -> bool {
    if before.len() + encode_utf8(text).len() <= limit {
        r is Ok && after == before + encode_utf8(text)
    } else {
        r matches Err(e) && e@ == OUTPUT_LIMIT@
    }
}

/// Writing one text behind another is writing both.
proof fn lemma_wrote_both(
    start: Seq<u8>,
    middle: Seq<u8>,
    after: Seq<u8>,
    limit: nat,
    r: Result<(), String>,
    first: Seq<char>,
    second: Seq<char>,
)
    requires
        middle == start + encode_utf8(first),
        wrote(middle, after, limit, r, second),
    ensures
        wrote(start, after, limit, r, first + second),
{
    lemma_encode_concat(first, second);
    if r is Ok {
        assert(after =~= start + encode_utf8(first + second));
    }
}

/// Where a prefix of a text passes the limit, so does the text.
proof fn lemma_too_long(
    start: Seq<u8>,
    after: Seq<u8>,
    limit: nat,
    r: Result<(), String>,
    prefix: Seq<char>,
    text: Seq<char>,
)
    requires
        wrote(start, after, limit, r, prefix),
        r is Err,
        prefix.is_prefix_of(text),
    ensures
        wrote(start, after, limit, r, text),
{
    let rest = text.skip(prefix.len() as int);
    assert(text =~= prefix + rest);
    lemma_encode_concat(prefix, rest);
}

/// The first members are written as a prefix of all of them.
proof fn lemma_members_prefix(
    members: Seq<(Seq<char>, Seq<char>)>,
    n: int,
    value_of: spec_fn(Seq<char>, Seq<char>) -> Seq<char>,
)
    requires
        0 <= n <= members.len(),
    ensures
        members_text(members.take(n), value_of).is_prefix_of(members_text(members, value_of)),
    decreases members.len() - n,
{
    if n == members.len() {
        assert(members.take(n) =~= members);
    } else {
        lemma_members_prefix(members, n + 1, value_of);
        let more = members.take(n + 1);
        assert(more.drop_last() =~= members.take(n));
        let short = members_text(members.take(n), value_of);
        let long = members_text(more, value_of);
        assert(short =~= long.subrange(0, short.len() as int));
        let full = members_text(members, value_of);
        assert(short =~= full.subrange(0, short.len() as int)) by {
            assert(long == full.subrange(0, long.len() as int));
        }
    }
}

fn put(output: &mut LimitedOutput, text: &str) -> (r: Result<(), String>)
    requires
        old(output).wf(),
    ensures
        final(output).wf(),
        final(output).limit() == old(output).limit(),
        wrote(old(output)@, final(output)@, old(output).limit(), r, text@),
{
    match output.extend(text.as_bytes()) {
        Ok(()) => Ok(()),
        Err(error) => Err(error.message),
    }
}

/// Writes what stands before the value of a member: a comma where it is not the first, the
/// name and a colon.
fn put_name(output: &mut LimitedOutput, first: bool, name: &str) -> (r: Result<(), String>)
    requires
        old(output).wf(),
    ensures
        final(output).wf(),
        final(output).limit() == old(output).limit(),
        wrote(
            old(output)@,
            final(output)@,
            old(output).limit(),
            r,
            (if first {
                Seq::empty()
            } else {
                seq![',']
            }) + json_quoted(name@) + seq![':'],
        ),
{
    let mut text = if first {
        String::new()
    } else {
        ",".to_owned()
    };
    proof {
        reveal_strlit(",");
        reveal_strlit(":");
        assert(text@ =~= (if first {
            Seq::<char>::empty()
        } else {
            seq![',']
        }));
        assert(":"@ =~= seq![':']);
    }
    text.append(json_string(name).as_str());
    text.append(":");
    put(output, text.as_str())
}

// ---------------------------------------------------------------------------
// Rewriting
// ---------------------------------------------------------------------------

/// Where the proxy serves a tarball of the registry, given the URL that it is.
pub fn rewrite_parsed_tarball(url: &Url, upstreams: &RegistryOrigins, origin: &str) -> (r: Option<
    String,
>)
    ensures
        opt_text(r) == parsed_tarball_target(url@, upstreams, origin@),
{
    if (!matches_origin(url, &upstreams.npm) && !host_is(url, "registry.npmjs.org"))
        || !url.without_credentials() || url.query().is_some() || url.fragment().is_some() {
        return None;
    }
    proxied(origin, "/npm/tarballs/", url.path())
}

/// Where the proxy serves a tarball of the registry.
pub fn rewrite_npm_tarball(input: &str, upstreams: &RegistryOrigins, origin: &str) -> (r: Option<
    String,
>)
    ensures
        opt_text(r) == tarball_target(input@, upstreams, origin@),
{
    match Url::parse(input) {
        Ok(url) => rewrite_parsed_tarball(&url, upstreams, origin),
        Err(_) => None,
    }
}

/// The value of a member of a `dist` object, given what its link is replaced by, if by
/// anything.
pub fn dist_value(name: &str, value: &str, target: Option<&str>) -> (r: String)
    ensures
        r@ == replaced_value(name@, value@, opt_str(target)),
{
    match target {
        Some(t) => if same(name, "tarball") {
            json_string(t)
        } else {
            value.to_owned()
        },
        None => value.to_owned(),
    }
}

/// Writes a member of a `dist` object.
fn write_npm_dist(
    output: &mut LimitedOutput,
    name: &str,
    value: &str,
    upstreams: &RegistryOrigins,
    origin: &str,
) -> (r: Result<(), String>)
    requires
        old(output).wf(),
    ensures
        final(output).wf(),
        final(output).limit() == old(output).limit(),
        wrote(
            old(output)@,
            final(output)@,
            old(output).limit(),
            r,
            dist_member(name@, value@, upstreams, origin@),
        ),
{
    if !same(name, "tarball") {
        return put(output, value);
    }
    let target = match string_value(value) {
        Some(link) => rewrite_npm_tarball(link.as_str(), upstreams, origin),
        None => None,
    };
    match target {
        Some(t) => put(output, dist_value(name, value, Some(t.as_str())).as_str()),
        None => put(output, value),
    }
}

/// Writes the value of a member of `object`.
fn write_npm_member(
    output: &mut LimitedOutput,
    object: NpmObject,
    name: &str,
    value: &str,
    upstreams: &RegistryOrigins,
    origin: &str,
) -> (r: Result<(), String>)
    requires
        old(output).wf(),
    ensures
        final(output).wf(),
        final(output).limit() == old(output).limit(),
        wrote(
            old(output)@,
            final(output)@,
            old(output).limit(),
            r,
            object.member(name@, value@, upstreams, origin@),
        ),
    decreases object.depth(), 0int,
{
    match object {
        NpmObject::Dist => write_npm_dist(output, name, value, upstreams, origin),
        NpmObject::Versions => write_npm_object(
            output,
            NpmObject::Manifest,
            value,
            upstreams,
            origin,
        ),
        NpmObject::Manifest => if same(name, "dist") {
            write_npm_object(output, NpmObject::Dist, value, upstreams, origin)
        } else {
            put(output, value)
        },
        NpmObject::Packument => if same(name, "versions") {
            write_npm_object(output, NpmObject::Versions, value, upstreams, origin)
        } else if same(name, "dist") {
            write_npm_object(output, NpmObject::Dist, value, upstreams, origin)
        } else {
            put(output, value)
        },
    }
}

/// Writes the value `text` as an object of a packument.
fn write_npm_object(
    output: &mut LimitedOutput,
    object: NpmObject,
    text: &str,
    upstreams: &RegistryOrigins,
    origin: &str,
) -> (r: Result<(), String>)
    requires
        old(output).wf(),
    ensures
        final(output).wf(),
        final(output).limit() == old(output).limit(),
        wrote(
            old(output)@,
            final(output)@,
            old(output).limit(),
            r,
            object.text(text@, upstreams, origin@),
        ),
    decreases object.depth(), 2int,
{
    proof {
        lemma_object_members(object, text@, upstreams, origin@);
    }
    match object_members(text) {
        Some(members) => write_npm_members(output, object, &members, upstreams, origin),
        None => put(output, text),
    }
}

/// Writes the object of a packument that has the given members.
pub fn write_npm_members(
    output: &mut LimitedOutput,
    object: NpmObject,
    members: &Vec<(String, &str)>,
    upstreams: &RegistryOrigins,
    origin: &str,
) -> (r: Result<(), String>)
    requires
        old(output).wf(),
    ensures
        final(output).wf(),
        final(output).limit() == old(output).limit(),
        wrote(
            old(output)@,
            final(output)@,
            old(output).limit(),
            r,
            object_with(object, members_view(members@), upstreams, origin@),
        ),
    decreases object.depth(), 1int,
{
    let ghost start = output@;
    let ghost limit = output.limit();
    let ghost value_of = |name: Seq<char>, value: Seq<char>|
        object.member(name, value, upstreams, origin@);
    let ghost all = members_view(members@);
    let ghost full = object_with(object, all, upstreams, origin@);
    proof {
        assert(full == seq!['{'] + members_text(all, value_of) + seq!['}']);
        reveal_strlit("{");
        reveal_strlit("}");
        assert("{"@ =~= seq!['{']);
        assert("}"@ =~= seq!['}']);
    }
    let opened = put(output, "{");
    if opened.is_err() {
        proof {
            lemma_too_long(start, output@, limit, opened, "{"@, full);
        }
        return opened;
    }
    let ghost mut written = seq!['{'];
    let mut i: usize = 0;
    proof {
        assert(all.take(0) =~= Seq::<(Seq<char>, Seq<char>)>::empty());
        assert(written =~= seq!['{'] + members_text(all.take(0), value_of));
    }
    while i < members.len()
        invariant
            output.wf(),
            output.limit() == limit,
            limit == old(output).limit(),
            start == old(output)@,
            i <= members.len(),
            all == members_view(members@),
            value_of == (|name: Seq<char>, value: Seq<char>|
                object.member(name, value, upstreams, origin@)),
            full == object_with(object, all, upstreams, origin@),
            full == seq!['{'] + members_text(all, value_of) + seq!['}'],
            written == seq!['{'] + members_text(all.take(i as int), value_of),
            output@ == start + encode_utf8(written),
        decreases members.len() - i,
    {
        let name = members[i].0.as_str();
        let value = members[i].1;
        let ghost middle = output@;
        let ghost opening = (if i == 0 {
            Seq::<char>::empty()
        } else {
            seq![',']
        }) + json_quoted(name@) + seq![':'];
        let ghost named_text = written + opening;
        let ghost valued_text = named_text + value_of(name@, value@);
        proof {
            let next = all.take(i + 1);
            assert(next.drop_last() =~= all.take(i as int));
            assert(next.last() == (name@, value@));
            lemma_members_prefix(all, i + 1, value_of);
            let long = members_text(next, value_of);
            assert(seq!['{'] + long =~= valued_text);
            let all_text = members_text(all, value_of);
            assert(long == all_text.subrange(0, long.len() as int));
            assert(valued_text =~= full.subrange(0, valued_text.len() as int));
            assert(named_text =~= full.subrange(0, named_text.len() as int));
        }
        let named = put_name(output, i == 0, name);
        proof {
            lemma_wrote_both(start, middle, output@, limit, named, written, opening);
        }
        if named.is_err() {
            proof {
                lemma_too_long(start, output@, limit, named, named_text, full);
            }
            return named;
        }
        let ghost middle = output@;
        let valued = write_npm_member(output, object, name, value, upstreams, origin);
        proof {
            lemma_wrote_both(
                start,
                middle,
                output@,
                limit,
                valued,
                named_text,
                value_of(name@, value@),
            );
        }
        if valued.is_err() {
            proof {
                lemma_too_long(start, output@, limit, valued, valued_text, full);
            }
            return valued;
        }
        proof {
            written = valued_text;
        }
        i = i + 1;
    }
    let ghost middle = output@;
    let closed = put(output, "}");
    proof {
        assert(all.take(i as int) =~= all);
        lemma_wrote_both(start, middle, output@, limit, closed, written, seq!['}']);
    }
    closed
}

/// Rewrites the tarball links of a packument.
///
/// The document is returned with every tarball link of the root and of its versions as the
/// proxy serves it, unless it is no JSON or the result passes the limit.
pub fn rewrite_npm_json(
    body: &[u8],
    upstreams: &RegistryOrigins,
    origin: &str,
    max_len: usize,
) -> (r: Result<Vec<u8>, String>)
    ensures
        body_result(r) == rewritten_packument(body@, upstreams, origin@, max_len),
{
    match document_text(body) {
        Ok(text) => rewrite_npm_text(text, upstreams, origin, max_len),
        Err(error) => Err(error),
    }
}

/// Rewrites the tarball links of a packument, given the text of its one value.
pub fn rewrite_npm_text(
    text: &str,
    upstreams: &RegistryOrigins,
    origin: &str,
    max_len: usize,
) -> (r: Result<Vec<u8>, String>)
    ensures
        body_result(r) == limited(encode_utf8(packument_text(text@, upstreams, origin@)), max_len),
{
    let limit: usize = if max_len < MAX_METADATA_BODY_LEN {
        max_len
    } else {
        MAX_METADATA_BODY_LEN
    };
    let mut output = LimitedOutput::new(text.as_bytes().len(), limit);
    match write_npm_object(&mut output, NpmObject::Packument, text, upstreams, origin) {
        Ok(()) => {
            let out = output.finish();
            proof {
                assert(out@ =~= encode_utf8(packument_text(text@, upstreams, origin@)));
            }
            Ok(out)
        },
        Err(error) => Err(error),
    }
}

// ---------------------------------------------------------------------------
// Laws
// ---------------------------------------------------------------------------

/// A document that is no object is served as it is, and so is every member but `dist` and
/// `versions`, every member of a version but `dist`, and every member of a `dist` but
/// `tarball`.
pub proof fn other_members_are_unchanged(
    name: Seq<char>,
    value: Seq<char>,
    upstreams: &RegistryOrigins,
    origin: Seq<char>,
)
    ensures
        json_members(value) is None ==> packument_text(value, upstreams, origin) == value
            && versions_text(value, upstreams, origin) == value && manifest_text(
            value,
            upstreams,
            origin,
        ) == value && dist_text(value, upstreams, origin) == value,
        name != "dist"@ && name != "versions"@ ==> packument_member(name, value, upstreams, origin)
            == value,
        name != "dist"@ ==> manifest_member(name, value, upstreams, origin) == value,
        name != "tarball"@ ==> dist_member(name, value, upstreams, origin) == value,
{
}

/// A tarball link that does not point to the registry, or that carries credentials, a query or
/// a fragment, is served as it is.
pub proof fn other_tarballs_are_unchanged(
    name: Seq<char>,
    value: Seq<char>,
    upstreams: &RegistryOrigins,
    origin: Seq<char>,
)
    requires
        json_string_value(value) matches Some(link) ==> (url_parse(link) matches Ok(u)
            ==> !is_tarball_link(u, upstreams)),
    ensures
        dist_member(name, value, upstreams, origin) == value,
{
}

/// A tarball of the registry is fetched through the proxy, whatever its package is called: where
/// a link has the origin of the registry or the host `registry.npmjs.org`, neither credentials, a
/// query nor a fragment, and a path with a canonical form, it becomes the public origin,
/// `/npm/tarballs/` and that form.
pub proof fn tarball_links_lead_through_the_proxy(
    link: Seq<char>,
    u: UrlView,
    path: Seq<char>,
    upstreams: &RegistryOrigins,
    origin: Seq<char>,
)
    requires
        url_parse(link) == Ok::<UrlView, Seq<char>>(u),
        u.same_origin(upstreams.npm@) || u.host == Some("registry.npmjs.org"@),
        u.username.len() == 0 && u.password is None,
        u.query is None && u.fragment is None,
        canonical_rewrite(u.path) == Some(path),
    ensures
        tarball_target(link, upstreams, origin) == Some(origin + "/npm/tarballs/"@ + path),
        parsed_tarball_target(u, upstreams, origin) == Some(origin + "/npm/tarballs/"@ + path),
{
}

/// Every other tarball link stays as it is: one that is no URL, one to another host, one with
/// credentials, a query or a fragment, and one whose path has no canonical form.
pub proof fn foreign_tarball_links_stay_as_they_are(
    link: Seq<char>,
    upstreams: &RegistryOrigins,
    origin: Seq<char>,
)
    requires
        url_parse(link) matches Ok(u) ==> {
            ||| !u.same_origin(upstreams.npm@) && u.host != Some("registry.npmjs.org"@)
            ||| u.username.len() > 0 || u.password is Some
            ||| u.query is Some || u.fragment is Some
            ||| canonical_rewrite(u.path) is None
        },
    ensures
        tarball_target(link, upstreams, origin) is None,
{
}

/// The link of a `dist` object is written anew as a JSON string where it leads through the proxy,
/// and stays as it was written otherwise; no other member of a `dist` object changes.
pub proof fn links_are_written_anew_in_dist(
    name: Seq<char>,
    value: Seq<char>,
    upstreams: &RegistryOrigins,
    origin: Seq<char>,
    target: Seq<char>,
)
    ensures
        (json_string_value(value) matches Some(link) && tarball_target(link, upstreams, origin)
            == Some(target)) ==> dist_member("tarball"@, value, upstreams, origin) == json_quoted(
            target,
        ),
        (json_string_value(value) matches Some(link) ==> tarball_target(link, upstreams, origin)
            is None) ==> dist_member("tarball"@, value, upstreams, origin) == value,
        name != "tarball"@ ==> dist_member(name, value, upstreams, origin) == value,
{
}

/// Where tarball links stand: in the `dist` of a package, and in the `dist` of every one of its
/// `versions`, whatever they are called. Each of these objects is written with all of its
/// members, in their order.
pub proof fn links_stand_in_every_dist(
    text: Seq<char>,
    members: Seq<(Seq<char>, Seq<char>)>,
    upstreams: &RegistryOrigins,
    origin: Seq<char>,
)
    requires
        json_members(text) == Some(members),
    ensures
        packument_text(text, upstreams, origin) == seq!['{'] + members_text(
            members,
            |name: Seq<char>, value: Seq<char>|
                if name == "versions"@ {
                    versions_text(value, upstreams, origin)
                } else if name == "dist"@ {
                    dist_text(value, upstreams, origin)
                } else {
                    value
                },
        ) + seq!['}'],
        versions_text(text, upstreams, origin) == seq!['{'] + members_text(
            members,
            |name: Seq<char>, value: Seq<char>| manifest_text(value, upstreams, origin),
        ) + seq!['}'],
        manifest_text(text, upstreams, origin) == seq!['{'] + members_text(
            members,
            |name: Seq<char>, value: Seq<char>|
                if name == "dist"@ {
                    dist_text(value, upstreams, origin)
                } else {
                    value
                },
        ) + seq!['}'],
        dist_text(text, upstreams, origin) == seq!['{'] + members_text(
            members,
            |name: Seq<char>, value: Seq<char>| dist_member(name, value, upstreams, origin),
        ) + seq!['}'],
{
    let packument = |name: Seq<char>, value: Seq<char>|
        packument_member(name, value, upstreams, origin);
    assert(packument =~= (|name: Seq<char>, value: Seq<char>|
        if name == "versions"@ {
            versions_text(value, upstreams, origin)
        } else if name == "dist"@ {
            dist_text(value, upstreams, origin)
        } else {
            value
        }));
    let manifest = |name: Seq<char>, value: Seq<char>|
        manifest_member(name, value, upstreams, origin);
    assert(manifest =~= (|name: Seq<char>, value: Seq<char>|
        if name == "dist"@ {
            dist_text(value, upstreams, origin)
        } else {
            value
        }));
}

/// A packument is served rewritten where that is no longer than the limit that is given, nor than
/// 128 MiB; otherwise it is refused, and so is a body that is no JSON.
pub proof fn packuments_are_served_within_the_limit(
    body: Seq<u8>,
    upstreams: &RegistryOrigins,
    origin: Seq<char>,
    max_len: usize,
)
    ensures
        json_document(body) matches Ok(text) ==> {
            let whole = encode_utf8(packument_text(text, upstreams, origin));
            let r = rewritten_packument(body, upstreams, origin, max_len);
            &&& whole.len() <= max_len && whole.len() <= 128 * 1024 * 1024 ==> r == Ok::<
                Seq<u8>,
                Seq<char>,
            >(whole)
            &&& whole.len() > max_len || whole.len() > 128 * 1024 * 1024 ==> r == Err::<
                Seq<u8>,
                Seq<char>,
            >("rewritten metadata body exceeds output limit"@)
        },
        json_document(body) matches Err(e) ==> rewritten_packument(
            body,
            upstreams,
            origin,
            max_len,
        ) == Err::<Seq<u8>, Seq<char>>(e),
{
}

} // verus!
