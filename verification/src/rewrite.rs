//! Metadata rewriting: links to the registries become links to the proxy.
use crate::error::{ErrorKind, ProxyError};
use crate::paths::{canonical_rewrite, canonical_rewrite_path};
use crate::routes::RegistryOrigins;
use crate::text::{
    lemma_ascii_boundaries, opt_text, same, starts_with, utf8_error, utf8_text,
};
use crate::weburl::{matches_origin, url_parse, Url, UrlView};
use vstd::prelude::*;
use vstd::string::*;
use vstd::utf8::*;

verus! {

/// No metadata body is larger than this.
pub const MAX_METADATA_BODY_LEN: usize = 134_217_728;

/// What is said of output past its limit.
pub const OUTPUT_LIMIT: &'static str = "rewritten metadata body exceeds output limit";

// ---------------------------------------------------------------------------
// Output with a limit
// ---------------------------------------------------------------------------

/// Bytes that never grow past a limit.
pub struct LimitedOutput {
    bytes: Vec<u8>,
    max_len: usize,
}

impl View for LimitedOutput {
    type V = Seq<u8>;

    closed spec fn view(&self) -> Seq<u8> {
        self.bytes@
    }
}

impl LimitedOutput {
    /// The limit.
    pub closed spec fn limit(&self) -> nat {
        self.max_len as nat
    }

    /// The limit is kept.
    pub open spec fn wf(&self) -> bool {
        self@.len() <= self.limit()
    }

    /// No bytes yet, with room for `capacity` of them where the limit admits it.
    pub fn new(capacity: usize, max_len: usize) -> (r: Self)
        ensures
            r.wf(),
            r@ == Seq::<u8>::empty(),
            r.limit() == max_len,
    {
        let room: usize = if capacity < max_len {
            capacity
        } else {
            max_len
        };
        LimitedOutput { bytes: Vec::with_capacity(room), max_len }
    }

    /// Appends `bytes`, or refuses them where the limit would be passed.
    pub fn extend(&mut self, bytes: &[u8]) -> (r: Result<(), ProxyError>)
        requires
            old(self).wf(),
        ensures
            final(self).wf(),
            final(self).limit() == old(self).limit(),
            if old(self)@.len() + bytes@.len() <= old(self).limit() {
                r is Ok && final(self)@ == old(self)@ + bytes@
            } else {
                r matches Err(e) && e.is(ErrorKind::InvalidData, OUTPUT_LIMIT@) && final(self)@
                    == old(self)@
            },
    {
        if bytes.len() > self.max_len - self.bytes.len() {
            return Err(ProxyError::new(ErrorKind::InvalidData, OUTPUT_LIMIT));
        }
        self.bytes.extend_from_slice(bytes);
        proof {
            assert(self.bytes@ =~= old(self).bytes@ + bytes@);
        }
        Ok(())
    }

    /// The bytes.
    pub fn finish(self) -> (r: Vec<u8>)
        ensures
            r@ == self@,
    {
        self.bytes
    }
}

// ---------------------------------------------------------------------------
// Links of the simple index
// ---------------------------------------------------------------------------

/// The fragment of a URL as it is written behind it.
pub open spec fn fragment_text(u: UrlView) -> Seq<char> {
    match u.fragment {
        Some(f) => "#"@ + f,
        None => Seq::empty(),
    }
}

/// `u` points to a distribution file.
pub open spec fn is_file_link(u: UrlView, upstreams: &RegistryOrigins) -> bool {
    u.same_origin(upstreams.pypi_files@) || u.host == Some("files.pythonhosted.org"@)
}

/// `u` points to a page of the simple index, and nowhere on it.
pub open spec fn is_simple_link(u: UrlView, upstreams: &RegistryOrigins) -> bool {
    &&& u.same_origin(upstreams.pypi_simple@) || u.host == Some("pypi.org"@)
    &&& "/simple/"@.is_prefix_of(u.path)
    &&& u.without_credentials()
    &&& u.query is None
    &&& u.fragment is None
}

/// `prefix` and the canonical form of `path`, where it has one.
pub open spec fn under_proxy(prefix: Seq<char>, path: Seq<char>) -> Option<Seq<char>> {
    match canonical_rewrite(path) {
        Some(p) => Some(prefix + p),
        None => None,
    }
}

/// What an absolute link of a simple page is replaced by, if by anything.
pub open spec fn absolute_target(
    u: UrlView,
    upstreams: &RegistryOrigins,
    origin: Seq<char>,
) -> Option<Seq<char>> {
    if is_file_link(u, upstreams) {
        if u.without_credentials() && u.query is None {
            match under_proxy(origin + "/pypi/files/"@, u.path) {
                Some(t) => Some(t + fragment_text(u)),
                None => None,
            }
        } else {
            None
        }
    } else if is_simple_link(u, upstreams) {
        under_proxy(origin + "/pypi/"@, u.path)
    } else {
        None
    }
}

/// What a link of a simple page that is no URL is replaced by, if by anything.
pub open spec fn relative_target(href: Seq<char>, origin: Seq<char>) -> Option<Seq<char>> {
    if "/simple/"@.is_prefix_of(href) {
        under_proxy(origin + "/pypi/"@, href)
    } else {
        None
    }
}

/// What a link of a simple page is replaced by, if by anything.
pub open spec fn pypi_target(
    href: Seq<char>,
    upstreams: &RegistryOrigins,
    origin: Seq<char>,
) -> Option<Seq<char>> {
    match url_parse(href) {
        Ok(u) => absolute_target(u, upstreams, origin),
        Err(_) => relative_target(href, origin),
    }
}

/// A link of a simple page as the proxy serves it.
pub open spec fn pypi_link(
    href: Seq<char>,
    upstreams: &RegistryOrigins,
    origin: Seq<char>,
) -> Seq<char> {
    match pypi_target(href, upstreams, origin) {
        Some(t) => t,
        None => href,
    }
}

/// `origin`, `middle` and the canonical form of `path`, where it has one.
pub(crate) fn proxied(origin: &str, middle: &str, path: &str) -> (r: Option<String>)
    ensures
        opt_text(r) == under_proxy(origin@ + middle@, path@),
{
    match canonical_rewrite_path(path) {
        Some(p) => {
            let mut out = origin.to_owned();
            out.append(middle);
            out.append(p.as_str());
            Some(out)
        },
        None => None,
    }
}

/// Tells whether the host of `url` is `name`.
pub(crate) fn host_is(url: &Url, name: &str) -> (r: bool)
    ensures
        r == (url@.host == Some(name@)),
{
    match url.host_str() {
        Some(host) => same(host, name),
        None => false,
    }
}

/// What an absolute link of a simple page is replaced by, if by anything.
pub fn rewrite_absolute_link(url: &Url, upstreams: &RegistryOrigins, origin: &str) -> (r: Option<
    String,
>)
    ensures
        opt_text(r) == absolute_target(url@, upstreams, origin@),
{
    if matches_origin(url, &upstreams.pypi_files) || host_is(url, "files.pythonhosted.org") {
        if !url.without_credentials() || url.query().is_some() {
            return None;
        }
        match proxied(origin, "/pypi/files/", url.path()) {
            Some(mut target) => {
                let ghost before = target@;
                if let Some(fragment) = url.fragment() {
                    target.append("#");
                    target.append(fragment);
                }
                proof {
                    assert(target@ =~= before + fragment_text(url@));
                }
                Some(target)
            },
            None => None,
        }
    } else if (matches_origin(url, &upstreams.pypi_simple) || host_is(url, "pypi.org"))
        && starts_with(url.path(), "/simple/") && url.without_credentials() && url.query().is_none()
        && url.fragment().is_none() {
        proxied(origin, "/pypi/", url.path())
    } else {
        None
    }
}

/// What a link of a simple page that is no URL is replaced by, if by anything.
pub fn rewrite_relative_link(href: &str, origin: &str) -> (r: Option<String>)
    ensures
        opt_text(r) == relative_target(href@, origin@),
{
    if starts_with(href, "/simple/") {
        proxied(origin, "/pypi/", href)
    } else {
        None
    }
}

/// A link of a simple page as the proxy serves it.
pub fn rewrite_pypi_href(href: &str, upstreams: &RegistryOrigins, origin: &str) -> (r: String)
    ensures
        r@ == pypi_link(href@, upstreams, origin@),
{
    let target = match Url::parse(href) {
        Ok(url) => rewrite_absolute_link(&url, upstreams, origin),
        Err(_) => rewrite_relative_link(href, origin),
    };
    match target {
        Some(target) => target,
        None => href.to_owned(),
    }
}

// ---------------------------------------------------------------------------
// Pages of the simple index
// ---------------------------------------------------------------------------

/// The pattern of a link.
pub const LINK_PATTERN: &'static str = "href=\"([^\"]+)\"|href='([^']+)'";

/// The first position at or after `from` that holds the byte `q`, or the length.
pub open spec fn next_byte(b: Seq<u8>, from: int, q: u8) -> int
    decreases b.len() - from,
{
    if from >= b.len() {
        b.len() as int
    } else if b[from] == q {
        from
    } else {
        next_byte(b, from + 1, q)
    }
}

/// Where the link that begins at `i` ends, if one does: `href=`, a quote, at least one byte
/// that is not that quote, and that quote again.
pub open spec fn link_end(b: Seq<u8>, i: int) -> Option<int> {
    if i + 6 <= b.len() && b.subrange(i, i + 5) == seq![104u8, 114u8, 101u8, 102u8, 61u8] && (b[i
        + 5] == 34 || b[i + 5] == 39) {
        let j = next_byte(b, i + 6, b[i + 5]);
        if i + 6 < j < b.len() {
            Some(j + 1)
        } else {
            None
        }
    } else {
        None
    }
}

/// The links of a page from `from` on, from left to right, each from its first byte to behind
/// its last.
pub open spec fn link_spans(b: Seq<u8>, from: int) -> Seq<(int, int)>
    decreases b.len() - from,
{
    if from < 0 || from >= b.len() {
        Seq::empty()
    } else {
        match link_end(b, from) {
            Some(end) => if end > from {
                seq![(from, end)] + link_spans(b, end)
            } else {
                Seq::empty()
            },
            None => link_spans(b, from + 1),
        }
    }
}

/// The page from `from` on, every link as the proxy serves it.
pub open spec fn rewritten_page(
    b: Seq<u8>,
    upstreams: &RegistryOrigins,
    origin: Seq<char>,
    from: int,
) -> Seq<u8>
    decreases b.len() - from,
{
    if from < 0 || from >= b.len() {
        Seq::empty()
    } else {
        match link_end(b, from) {
            Some(end) => if end > from {
                rewritten_link(b, upstreams, origin, from, end) + rewritten_page(
                    b,
                    upstreams,
                    origin,
                    end,
                )
            } else {
                Seq::empty()
            },
            None => seq![b[from]] + rewritten_page(b, upstreams, origin, from + 1),
        }
    }
}

/// The link at `b[start..end]` as the proxy serves it: only what stands between the quotes
/// changes.
pub open spec fn rewritten_link(
    b: Seq<u8>,
    upstreams: &RegistryOrigins,
    origin: Seq<char>,
    start: int,
    end: int,
) -> Seq<u8> {
    b.subrange(start, start + 6) + encode_utf8(
        pypi_link(decode_utf8(b.subrange(start + 6, end - 1)), upstreams, origin),
    ) + b.subrange(end - 1, end)
}

/// Pairs of positions as integers.
pub open spec fn spans_view(v: Seq<(usize, usize)>) -> Seq<(int, int)> {
    v.map_values(|p: (usize, usize)| (p.0 as int, p.1 as int))
}

/// `regex::Regex::new` on the pattern of a link and `find_iter` of the result: the matches
/// are the links of the text, from left to right, none overlapping another.
#[verifier::external_body]
fn find_links(pattern: &str, text: &str) -> (r: Vec<(usize, usize)>)
    requires
        pattern@ == LINK_PATTERN@,
    ensures
        spans_view(r@) == link_spans(text.spec_bytes(), 0),
{
    let regex = regex::Regex::new(pattern).expect("the pattern of a link is well-formed");
    regex.find_iter(text).map(|link| (link.start(), link.end())).collect()
}

proof fn lemma_next_byte(b: Seq<u8>, from: int, q: u8)
    requires
        0 <= from,
    ensures
        from <= next_byte(b, from, q) || next_byte(b, from, q) == b.len(),
        next_byte(b, from, q) <= b.len(),
        next_byte(b, from, q) < b.len() ==> b[next_byte(b, from, q)] == q,
    decreases b.len() - from,
{
    if from < b.len() && b[from] != q {
        lemma_next_byte(b, from + 1, q);
    }
}

/// Up to the next link the page stays as it is; without one it stays to its end.
proof fn lemma_page_step(b: Seq<u8>, upstreams: &RegistryOrigins, origin: Seq<char>, from: int)
    requires
        0 <= from <= b.len(),
    ensures
        link_spans(b, from).len() == 0 ==> rewritten_page(b, upstreams, origin, from)
            == b.subrange(from, b.len() as int),
        link_spans(b, from).len() > 0 ==> {
            let (start, end) = link_spans(b, from)[0];
            &&& from <= start < end <= b.len()
            &&& link_end(b, start) == Some(end)
            &&& link_spans(b, from) == seq![(start, end)] + link_spans(b, end)
            &&& rewritten_page(b, upstreams, origin, from) == b.subrange(from, start)
                + rewritten_link(b, upstreams, origin, start, end) + rewritten_page(
                b,
                upstreams,
                origin,
                end,
            )
        },
    decreases b.len() - from,
{
    if from < b.len() {
        match link_end(b, from) {
            Some(end) => {
                lemma_next_byte(b, from + 6, b[from + 5]);
                assert(from < end <= b.len());
                assert(b.subrange(from, from) =~= Seq::<u8>::empty());
                assert(rewritten_page(b, upstreams, origin, from) =~= b.subrange(from, from)
                    + rewritten_link(b, upstreams, origin, from, end) + rewritten_page(
                    b,
                    upstreams,
                    origin,
                    end,
                ));
            },
            None => {
                lemma_page_step(b, upstreams, origin, from + 1);
                let rest = link_spans(b, from + 1);
                if rest.len() == 0 {
                    assert(rewritten_page(b, upstreams, origin, from) =~= b.subrange(
                        from,
                        b.len() as int,
                    ));
                } else {
                    let (start, end) = rest[0];
                    assert(seq![b[from]] + b.subrange(from + 1, start) =~= b.subrange(from, start));
                    assert(rewritten_page(b, upstreams, origin, from) =~= b.subrange(from, start)
                        + rewritten_link(b, upstreams, origin, start, end) + rewritten_page(
                        b,
                        upstreams,
                        origin,
                        end,
                    ));
                }
            },
        }
    } else {
        assert(rewritten_page(b, upstreams, origin, from) =~= b.subrange(from, b.len() as int));
    }
}

/// The limit on rewritten output.
pub open spec fn output_limit(max_len: usize) -> usize {
    if max_len < MAX_METADATA_BODY_LEN {
        max_len
    } else {
        MAX_METADATA_BODY_LEN
    }
}

/// What a rewrite returns whose whole output is `full`.
pub open spec fn limited(full: Seq<u8>, max_len: usize) -> Result<Seq<u8>, Seq<char>> {
    if full.len() <= output_limit(max_len) {
        Ok(full)
    } else {
        Err(OUTPUT_LIMIT@)
    }
}

/// The view of a rewritten body.
pub open spec fn body_result(r: Result<Vec<u8>, String>) -> Result<Seq<u8>, Seq<char>> {
    match r {
        Ok(bytes) => Ok(bytes@),
        Err(e) => Err(e@),
    }
}

/// A page of the simple index as the proxy serves it.
pub open spec fn rewritten_html(
    body: Seq<u8>,
    upstreams: &RegistryOrigins,
    origin: Seq<char>,
    max_len: usize,
) -> Result<Seq<u8>, Seq<char>> {
    if valid_utf8(body) {
        limited(rewritten_page(body, upstreams, origin, 0), max_len)
    } else {
        Err(utf8_error(body))
    }
}

/// Rewrites the links of a page of the simple index.
///
/// The page is returned with every link as the proxy serves it, unless it is no text or the
/// result passes the limit.
pub fn rewrite_pypi_html(
    body: &[u8],
    upstreams: &RegistryOrigins,
    origin: &str,
    max_len: usize,
) -> (r: Result<Vec<u8>, String>)
    ensures
        body_result(r) == rewritten_html(body@, upstreams, origin@, max_len),
{
    let input = match utf8_text(body) {
        Ok(text) => text,
        Err(error) => return Err(error),
    };
    let limit: usize = if max_len < MAX_METADATA_BODY_LEN {
        max_len
    } else {
        MAX_METADATA_BODY_LEN
    };
    let mut output = LimitedOutput::new(body.len(), limit);
    let links = find_links(LINK_PATTERN, input);
    let bytes = input.as_bytes();
    let ghost b = body@;
    let ghost page = rewritten_page(b, upstreams, origin@, 0);
    let mut previous_end: usize = 0;
    let mut i: usize = 0;
    proof {
        assert(spans_view(links@).skip(0) =~= spans_view(links@));
        assert(output@ + page =~= page);
    }
    while i < links.len()
        invariant
            valid_utf8(body@),
            b == body@,
            bytes@ == b,
            input.spec_bytes() == b,
            page == rewritten_page(b, upstreams, origin@, 0),
            limit == output_limit(max_len),
            output.wf(),
            output.limit() == limit,
            i <= links.len(),
            previous_end <= b.len(),
            spans_view(links@).skip(i as int) == link_spans(b, previous_end as int),
            page == output@ + rewritten_page(b, upstreams, origin@, previous_end as int),
        decreases links.len() - i,
    {
        let ghost spans = link_spans(b, previous_end as int);
        let ghost done = output@;
        proof {
            lemma_page_step(b, upstreams, origin@, previous_end as int);
            assert(spans[0] == spans_view(links@)[i as int]);
            assert(spans_view(links@).skip(i as int + 1) =~= spans.skip(1));
            let (s, e) = spans[0];
            assert(spans.skip(1) =~= link_spans(b, e));
            lemma_next_byte(b, s + 6, b[s + 5]);
            lemma_ascii_boundaries(b, s + 5);
            lemma_ascii_boundaries(b, e - 1);
        }
        let (start, end) = links[i];
        let ghost gap = b.subrange(previous_end as int, start as int);
        let ghost link = rewritten_link(b, upstreams, origin@, start as int, end as int);
        let ghost rest = rewritten_page(b, upstreams, origin@, end as int);
        proof {
            assert(page =~= done + gap + link + rest);
        }
        let href = between(input, start + 6, end - 1);
        let target = rewrite_pypi_href(href, upstreams, origin);
        let ghost opening = b.subrange(start as int, start + 6);
        let ghost closing = b.subrange(end - 1, end as int);
        proof {
            assert(page =~= done + gap + opening + encode_utf8(target@) + closing + rest);
        }
        match output.extend(vstd::slice::slice_subrange(bytes, previous_end, start)) {
            Ok(()) => {},
            Err(error) => return Err(error.message),
        }
        match output.extend(vstd::slice::slice_subrange(bytes, start, start + 6)) {
            Ok(()) => {},
            Err(error) => return Err(error.message),
        }
        match output.extend(target.as_str().as_bytes()) {
            Ok(()) => {},
            Err(error) => return Err(error.message),
        }
        match output.extend(vstd::slice::slice_subrange(bytes, end - 1, end)) {
            Ok(()) => {},
            Err(error) => return Err(error.message),
        }
        previous_end = end;
        i = i + 1;
    }
    proof {
        lemma_page_step(b, upstreams, origin@, previous_end as int);
        assert(spans_view(links@).skip(i as int) =~= Seq::<(int, int)>::empty());
    }
    match output.extend(vstd::slice::slice_subrange(bytes, previous_end, bytes.len())) {
        Ok(()) => {},
        Err(error) => return Err(error.message),
    }
    Ok(output.finish())
}

/// The text between two character boundaries.
fn between<'a>(text: &'a str, from: usize, to: usize) -> (r: &'a str)
    requires
        from <= to <= text.spec_bytes().len(),
        is_char_boundary(text.spec_bytes(), from as int),
        is_char_boundary(text.spec_bytes(), to as int),
        to < text.spec_bytes().len(),
        text.spec_bytes()[to as int] < 128,
    ensures
        r@ == decode_utf8(text.spec_bytes().subrange(from as int, to as int)),
{
    let (_, tail) = text.split_at(from);
    let ghost b = text.spec_bytes();
    let ghost t = tail.spec_bytes();
    proof {
        encode_utf8_valid_utf8(tail@);
        assert(t[to - from] == b[to as int]);
        lemma_ascii_boundaries(t, to - from);
    }
    let (head, _) = tail.split_at(to - from);
    proof {
        encode_utf8_decode_utf8(head@);
        assert(head.spec_bytes() =~= b.subrange(from as int, to as int));
    }
    head
}

// ---------------------------------------------------------------------------
// Laws
// ---------------------------------------------------------------------------

/// A page without links is served as it is.
pub proof fn pages_without_links_are_unchanged(
    b: Seq<u8>,
    upstreams: &RegistryOrigins,
    origin: Seq<char>,
)
    requires
        link_spans(b, 0).len() == 0,
    ensures
        rewritten_page(b, upstreams, origin, 0) == b,
{
    lemma_page_step(b, upstreams, origin, 0);
    assert(b.subrange(0, b.len() as int) =~= b);
}

/// A link that points neither to a file of the registry nor to the simple index is served as
/// it is, and so is every link with credentials or a query.
pub proof fn other_links_are_unchanged(
    href: Seq<char>,
    upstreams: &RegistryOrigins,
    origin: Seq<char>,
)
    requires
        url_parse(href) matches Ok(u) && ((!is_file_link(u, upstreams) && !is_simple_link(
            u,
            upstreams,
        )) || !u.without_credentials() || u.query is Some),
    ensures
        pypi_link(href, upstreams, origin) == href,
{
}

/// A link to a file of the registry leads through the proxy, whatever the file is called: where
/// it has the origin of the files or the host `files.pythonhosted.org`, neither credentials nor a
/// query, and a path with a canonical form, it becomes the public origin, `/pypi/files/` and that
/// form, with its fragment behind it.
pub proof fn file_links_lead_through_the_proxy(
    href: Seq<char>,
    u: UrlView,
    path: Seq<char>,
    upstreams: &RegistryOrigins,
    origin: Seq<char>,
)
    requires
        url_parse(href) == Ok::<UrlView, Seq<char>>(u),
        u.same_origin(upstreams.pypi_files@) || u.host == Some("files.pythonhosted.org"@),
        u.username.len() == 0 && u.password is None,
        u.query is None,
        canonical_rewrite(u.path) == Some(path),
    ensures
        u.fragment is None ==> pypi_link(href, upstreams, origin) == origin + "/pypi/files/"@
            + path,
        u.fragment matches Some(f) ==> pypi_link(href, upstreams, origin) == origin
            + "/pypi/files/"@ + path + "#"@ + f,
{
    let front = origin + "/pypi/files/"@ + path;
    assert(front + Seq::<char>::empty() =~= front);
    if let Some(f) = u.fragment {
        assert(front + ("#"@ + f) =~= front + "#"@ + f);
    }
}

/// A link to a page of the simple index leads through the proxy: where it has the origin of the
/// index or the host `pypi.org`, a path below `/simple/` with a canonical form, and neither
/// credentials, a query nor a fragment, it becomes the public origin, `/pypi/` and that form.
pub proof fn page_links_lead_through_the_proxy(
    href: Seq<char>,
    u: UrlView,
    path: Seq<char>,
    upstreams: &RegistryOrigins,
    origin: Seq<char>,
)
    requires
        url_parse(href) == Ok::<UrlView, Seq<char>>(u),
        !u.same_origin(upstreams.pypi_files@) && u.host != Some("files.pythonhosted.org"@),
        u.same_origin(upstreams.pypi_simple@) || u.host == Some("pypi.org"@),
        "/simple/"@.is_prefix_of(u.path),
        u.username.len() == 0 && u.password is None,
        u.query is None && u.fragment is None,
        canonical_rewrite(u.path) == Some(path),
    ensures
        pypi_link(href, upstreams, origin) == origin + "/pypi/"@ + path,
{
}

/// A link that is no URL leads through the proxy where it is a path below `/simple/` with a
/// canonical form, and stays as it is everywhere else.
pub proof fn relative_page_links_lead_through_the_proxy(
    href: Seq<char>,
    upstreams: &RegistryOrigins,
    origin: Seq<char>,
)
    requires
        url_parse(href) is Err,
    ensures
        "/simple/"@.is_prefix_of(href) ==> (canonical_rewrite(href) matches Some(path)
            ==> pypi_link(href, upstreams, origin) == origin + "/pypi/"@ + path),
        "/simple/"@.is_prefix_of(href) && canonical_rewrite(href) is None ==> pypi_link(
            href,
            upstreams,
            origin,
        ) == href,
        !"/simple/"@.is_prefix_of(href) ==> pypi_link(href, upstreams, origin) == href,
{
}

/// Every other link stays as it is: one to another host, one with credentials or a query, one to
/// the index that does not lead to a page or leads to a place on it, and one whose path has no
/// canonical form.
pub proof fn foreign_links_stay_as_they_are(
    href: Seq<char>,
    u: UrlView,
    upstreams: &RegistryOrigins,
    origin: Seq<char>,
)
    requires
        url_parse(href) == Ok::<UrlView, Seq<char>>(u),
        ({
            let file = u.same_origin(upstreams.pypi_files@) || u.host == Some(
                "files.pythonhosted.org"@,
            );
            let index = u.same_origin(upstreams.pypi_simple@) || u.host == Some("pypi.org"@);
            ||| !file && !index
            ||| u.username.len() > 0 || u.password is Some || u.query is Some
            ||| !file && (!"/simple/"@.is_prefix_of(u.path) || u.fragment is Some)
            ||| canonical_rewrite(u.path) is None
        }),
    ensures
        pypi_link(href, upstreams, origin) == href,
{
}

/// How a page is rewritten, from left to right. Where `href=`, a quote, some bytes without that
/// quote and that quote again stand, only the bytes between the quotes change, to what the link
/// in them becomes; where nothing of the kind begins, a byte stays as it is.
pub proof fn pages_change_only_between_the_quotes_of_links(
    b: Seq<u8>,
    upstreams: &RegistryOrigins,
    origin: Seq<char>,
    from: int,
    end: int,
)
    requires
        0 <= from <= b.len(),
    ensures
        from == b.len() ==> rewritten_page(b, upstreams, origin, from) == Seq::<u8>::empty(),
        ({
            &&& from + 7 < end <= b.len()
            &&& b[from] == 104 && b[from + 1] == 114 && b[from + 2] == 101 && b[from + 3] == 102
                && b[from + 4] == 61
            &&& b[from + 5] == 34 || b[from + 5] == 39
            &&& b[end - 1] == b[from + 5]
            &&& forall|k: int| from + 6 <= k < end - 1 ==> #[trigger] b[k] != b[from + 5]
        }) ==> rewritten_page(b, upstreams, origin, from) == b.subrange(from, from + 6)
            + encode_utf8(
            pypi_link(decode_utf8(b.subrange(from + 6, end - 1)), upstreams, origin),
        ) + b.subrange(end - 1, end) + rewritten_page(b, upstreams, origin, end),
{
    if from + 7 < end <= b.len() && b[from] == 104 && b[from + 1] == 114 && b[from + 2] == 101
        && b[from + 3] == 102 && b[from + 4] == 61 && (b[from + 5] == 34 || b[from + 5] == 39)
        && b[end - 1] == b[from + 5] && (forall|k: int|
        from + 6 <= k < end - 1 ==> #[trigger] b[k] != b[from + 5]) {
        assert(b.subrange(from, from + 5) =~= seq![104u8, 114u8, 101u8, 102u8, 61u8]);
        lemma_next_is(b, from + 6, b[from + 5], end - 1);
        assert(link_end(b, from) == Some(end));
    }
}

proof fn lemma_next_is(b: Seq<u8>, from: int, q: u8, at: int)
    requires
        0 <= from <= at < b.len(),
        b[at] == q,
        forall|k: int| from <= k < at ==> #[trigger] b[k] != q,
    ensures
        next_byte(b, from, q) == at,
    decreases at - from,
{
    if from < at {
        assert(b[from] != q);
        lemma_next_is(b, from + 1, q, at);
    }
}

/// Where no link begins, a page keeps its byte: where `href=` and a quote do not stand, where
/// that quote does not come again, or where it comes at once.
pub proof fn pages_keep_what_is_no_link(
    b: Seq<u8>,
    upstreams: &RegistryOrigins,
    origin: Seq<char>,
    from: int,
)
    requires
        0 <= from < b.len(),
        ({
            ||| from + 6 > b.len()
            ||| b[from] != 104 || b[from + 1] != 114 || b[from + 2] != 101 || b[from + 3] != 102
                || b[from + 4] != 61
            ||| b[from + 5] != 34 && b[from + 5] != 39
            ||| from + 6 < b.len() && b[from + 6] == b[from + 5]
            ||| forall|k: int| from + 6 <= k < b.len() ==> #[trigger] b[k] != b[from + 5]
        }),
    ensures
        rewritten_page(b, upstreams, origin, from) == seq![b[from]] + rewritten_page(
            b,
            upstreams,
            origin,
            from + 1,
        ),
{
    if from + 6 <= b.len() && b.subrange(from, from + 5) == seq![104u8, 114u8, 101u8, 102u8, 61u8]
        && (b[from + 5] == 34 || b[from + 5] == 39) {
        let word = b.subrange(from, from + 5);
        assert(word[0] == b[from] && word[1] == b[from + 1] && word[2] == b[from + 2] && word[3]
            == b[from + 3] && word[4] == b[from + 4]);
        lemma_next_byte(b, from + 6, b[from + 5]);
    }
}

/// A page that is text is served rewritten where that is no longer than the limit that is given,
/// nor than 128 MiB; otherwise it is refused.
pub proof fn pages_are_served_within_the_limit(
    body: Seq<u8>,
    upstreams: &RegistryOrigins,
    origin: Seq<char>,
    max_len: usize,
)
    ensures
        ({
            let page = rewritten_page(body, upstreams, origin, 0);
            let r = rewritten_html(body, upstreams, origin, max_len);
            &&& valid_utf8(body) && page.len() <= max_len && page.len() <= 128 * 1024 * 1024 ==> r
                == Ok::<Seq<u8>, Seq<char>>(page)
            &&& valid_utf8(body) && (page.len() > max_len || page.len() > 128 * 1024 * 1024) ==> r
                == Err::<Seq<u8>, Seq<char>>("rewritten metadata body exceeds output limit"@)
            &&& !valid_utf8(body) ==> r is Err
        }),
{
}

/// A link is `href=` with its value between quotes of one kind.
pub proof fn links_are_quoted_either_way(bytes: Vec<u8>, message: String)
    ensures
        LINK_PATTERN@ == "href=\"([^\"]+)\"|href='([^']+)'"@,
        body_result(Ok(bytes)) == Ok::<Seq<u8>, Seq<char>>(bytes@),
        body_result(Err(message)) == Err::<Seq<u8>, Seq<char>>(message@),
{
}

} // verus!
