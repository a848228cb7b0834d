//! Responses, limits on bodies, and what is made of an upstream metadata response.
use crate::cache::{
    clone_pairs, pairs_view, units, CacheStore, CacheView, InflightOutcome, MetaView,
    MetadataMemoryReservation, StoredResponseMeta, MEMORY_EXHAUSTED,
};
use crate::error::{ErrorKind, ProxyError};
use crate::failure_log::{body_failure, opt_json, request_failure, Failure};
use crate::http::{headers_view, Header, RequestTarget};
use crate::json::json_quoted;
use crate::meta::{
    buffered_meta, conditions, each_validator_is_asked_with, meta_for_bytes, upstream_meta,
};
use crate::packument::{rewrite_npm_json, rewritten_packument};
use crate::rewrite::{rewrite_pypi_html, rewritten_html, MAX_METADATA_BODY_LEN};
use crate::routes::RegistryOrigins;
use crate::stats::{prometheus_text, AppStats};
use crate::text::{decimal, opt_text, to_decimal};
use vstd::prelude::*;
use vstd::string::*;
use vstd::utf8::*;

verus! {

/// No error body of an artifact request is larger than this.
pub const MAX_ERROR_BODY_LEN: usize = 1_048_576;

/// No npm link that is rewritten is shorter than this.
pub const MIN_REWRITABLE_URL_LEN: usize = 20;

/// No simple link that is rewritten is shorter than this.
pub const MIN_SIMPLE_LINK_LEN: usize = 8;

/// What a rewrite puts between the origin and the path is no longer than this.
pub const REWRITE_PREFIX_LEN: usize = 16;

/// No more than this is allocated before a body is read.
pub const MAX_INITIAL_CAPACITY: usize = 65_536;

/// What is said of metadata past its limit.
pub const METADATA_LIMIT: &'static str = "metadata body exceeds 128 MiB limit";

/// What is said of an error body past its limit.
pub const ERROR_BODY_LIMIT: &'static str = "upstream error body exceeds 1 MiB limit";

// ---------------------------------------------------------------------------
// Representations
// ---------------------------------------------------------------------------

/// How metadata is served: as it is, or with links to the given origin.
#[derive(Debug)]
pub enum MetadataRewrite {
    Raw,
    Npm(String),
    Pypi(String),
}

/// The smaller of the two.
pub open spec fn at_most(n: int, max: int) -> int {
    if n < max {
        n
    } else {
        max
    }
}

impl MetadataRewrite {
    /// What tells the representation apart from others of the same resource.
    pub open spec fn identity(self) -> Seq<char> {
        match self {
            MetadataRewrite::Raw => "raw:v1"@,
            MetadataRewrite::Npm(origin) => "npm:v2:"@ + origin@,
            MetadataRewrite::Pypi(origin) => "pypi:v2:"@ + origin@,
        }
    }

    /// A bound on the bytes that rewriting `input_len` bytes yields: every link that fits in
    /// may grow by the origin and a prefix.
    pub open spec fn bound(self, input_len: int) -> int {
        match self {
            MetadataRewrite::Raw => input_len,
            MetadataRewrite::Npm(origin) => at_most(
                grown(input_len, MIN_REWRITABLE_URL_LEN as int, encode_utf8(origin@).len() as int),
                MAX_METADATA_BODY_LEN as int,
            ),
            MetadataRewrite::Pypi(origin) => at_most(
                grown(input_len, MIN_SIMPLE_LINK_LEN as int, encode_utf8(origin@).len() as int),
                MAX_METADATA_BODY_LEN as int,
            ),
        }
    }

    /// The memory that rewriting takes: the input, the output, and for npm what reading the
    /// document takes.
    pub open spec fn memory(self, input_len: int, output_bound: int) -> int {
        match self {
            MetadataRewrite::Raw => input_len,
            MetadataRewrite::Pypi(_) => at_most(input_len + output_bound, usize::MAX as int),
            MetadataRewrite::Npm(_) => at_most(input_len * 12 + output_bound, usize::MAX as int),
        }
    }

    /// What tells the representation apart from others of the same resource.
    pub fn cache_identity(&self) -> (r: String)
        ensures
            r@ == self.identity(),
    {
        match self {
            MetadataRewrite::Raw => "raw:v1".to_owned(),
            MetadataRewrite::Npm(origin) => {
                let mut out = "npm:v2:".to_owned();
                out.append(origin.as_str());
                out
            },
            MetadataRewrite::Pypi(origin) => {
                let mut out = "pypi:v2:".to_owned();
                out.append(origin.as_str());
                out
            },
        }
    }

    /// A bound on the bytes that rewriting `input_len` bytes yields.
    pub fn output_bound(&self, input_len: usize) -> (r: usize)
        ensures
            r == self.bound(input_len as int),
    {
        match self {
            MetadataRewrite::Raw => input_len,
            MetadataRewrite::Npm(origin) => rewrite_bound(
                input_len,
                MIN_REWRITABLE_URL_LEN,
                origin.as_str().as_bytes().len(),
            ),
            MetadataRewrite::Pypi(origin) => rewrite_bound(
                input_len,
                MIN_SIMPLE_LINK_LEN,
                origin.as_str().as_bytes().len(),
            ),
        }
    }

    /// The memory that rewriting takes.
    pub fn working_set(&self, input_len: usize, output_bound: usize) -> (r: usize)
        ensures
            r == self.memory(input_len as int, output_bound as int),
    {
        match self {
            MetadataRewrite::Raw => input_len,
            MetadataRewrite::Pypi(_) => clamp(input_len as u128 + output_bound as u128),
            MetadataRewrite::Npm(_) => clamp(input_len as u128 * 12 + output_bound as u128),
        }
    }
}

/// `input_len` bytes after every link of at least `min_len` bytes that fits in has grown by an
/// origin of `origin_len` bytes and a prefix.
pub open spec fn grown(input_len: int, min_len: int, origin_len: int) -> int {
    input_len + ((input_len + min_len - 1) / min_len) * (origin_len + REWRITE_PREFIX_LEN)
}

fn clamp(n: u128) -> (r: usize)
    ensures
        r == at_most(n as int, usize::MAX as int),
{
    if n < usize::MAX as u128 {
        n as usize
    } else {
        usize::MAX
    }
}

fn rewrite_bound(input_len: usize, min_len: usize, origin_len: usize) -> (r: usize)
    requires
        0 < min_len <= 20,
    ensures
        r == at_most(
            grown(input_len as int, min_len as int, origin_len as int),
            MAX_METADATA_BODY_LEN as int,
        ),
{
    let links: u128 = (input_len as u128 + min_len as u128 - 1) / (min_len as u128);
    let growth: u128 = origin_len as u128 + REWRITE_PREFIX_LEN as u128;
    proof {
        assert(links <= input_len) by (nonlinear_arith)
            requires
                links == (input_len + min_len - 1) / (min_len as int),
                0 < min_len,
                0 <= input_len,
        ;
        assert(links * growth >= 0) by (nonlinear_arith)
            requires
                links >= 0,
                growth >= 0,
        ;
    }
    if links > 0 && growth > MAX_METADATA_BODY_LEN as u128 {
        proof {
            assert(links * growth >= growth) by (nonlinear_arith)
                requires
                    links >= 1,
                    growth >= 0,
            ;
        }
        return MAX_METADATA_BODY_LEN;
    }
    if links == 0 {
        proof {
            assert(links * growth == 0) by (nonlinear_arith)
                requires
                    links == 0,
            ;
        }
        return if input_len < MAX_METADATA_BODY_LEN {
            input_len
        } else {
            MAX_METADATA_BODY_LEN
        };
    }
    proof {
        assert(links * growth <= 0xffff_ffff_ffff_ffff * 134_217_728) by (nonlinear_arith)
            requires
                0 <= links <= 0xffff_ffff_ffff_ffff,
                0 <= growth <= 134_217_728,
        ;
    }
    let total: u128 = input_len as u128 + links * growth;
    if total < MAX_METADATA_BODY_LEN as u128 {
        total as usize
    } else {
        MAX_METADATA_BODY_LEN
    }
}

// ---------------------------------------------------------------------------
// Bodies with a limit
// ---------------------------------------------------------------------------

/// What is allocated for a body whose length is announced as `content_length`, unless the
/// length is past the limit.
pub open spec fn initial_capacity(content_length: Option<u64>, max_len: int) -> Option<int> {
    match content_length {
        Some(n) => if n > max_len {
            None
        } else {
            Some(at_most(n as int, MAX_INITIAL_CAPACITY as int))
        },
        None => Some(0),
    }
}

/// What is allocated for a body before it is read.
pub fn limited_initial_capacity(
    content_length: Option<u64>,
    max_len: usize,
    limit_error: &str,
) -> (r: Result<usize, ProxyError>)
    ensures
        match initial_capacity(content_length, max_len as int) {
            Some(n) => r matches Ok(c) && c == n,
            None => r matches Err(e) && e.is(ErrorKind::InvalidData, limit_error@),
        },
{
    match content_length {
        Some(length) => {
            if length > max_len as u64 {
                return Err(ProxyError::new(ErrorKind::InvalidData, limit_error));
            }
            if length < MAX_INITIAL_CAPACITY as u64 {
                Ok(length as usize)
            } else {
                Ok(MAX_INITIAL_CAPACITY)
            }
        },
        None => Ok(0),
    }
}

/// What is allocated for metadata before it is read.
pub fn metadata_initial_capacity(content_length: Option<u64>) -> (r: Result<usize, ProxyError>)
    ensures
        match initial_capacity(content_length, MAX_METADATA_BODY_LEN as int) {
            Some(n) => r matches Ok(c) && c == n,
            None => r matches Err(e) && e.is(ErrorKind::InvalidData, METADATA_LIMIT@),
        },
{
    limited_initial_capacity(content_length, MAX_METADATA_BODY_LEN, METADATA_LIMIT)
}

/// A body that is read chunk by chunk and never grows past its limit.
#[derive(Debug)]
pub struct LimitedBody {
    bytes: Vec<u8>,
    max_len: usize,
    limit_error: String,
}

impl View for LimitedBody {
    type V = Seq<u8>;

    closed spec fn view(&self) -> Seq<u8> {
        self.bytes@
    }
}

impl LimitedBody {
    /// The limit.
    pub closed spec fn limit(&self) -> nat {
        self.max_len as nat
    }

    /// What is said past the limit.
    pub closed spec fn complaint(&self) -> Seq<char> {
        self.limit_error@
    }

    /// The limit is kept.
    pub open spec fn wf(&self) -> bool {
        self@.len() <= self.limit()
    }

    /// Begins to read a body, unless its announced length is past the limit.
    pub fn start(content_length: Option<u64>, max_len: usize, limit_error: &str) -> (r: Result<
        LimitedBody,
        ProxyError,
    >)
        ensures
            match initial_capacity(content_length, max_len as int) {
                Some(_) => r matches Ok(b) && b.wf() && b@ == Seq::<u8>::empty() && b.limit()
                    == max_len && b.complaint() == limit_error@,
                None => r matches Err(e) && e.is(ErrorKind::InvalidData, limit_error@),
            },
    {
        match limited_initial_capacity(content_length, max_len, limit_error) {
            Ok(capacity) => Ok(
                LimitedBody {
                    bytes: Vec::with_capacity(capacity),
                    max_len,
                    limit_error: limit_error.to_owned(),
                },
            ),
            Err(error) => Err(error),
        }
    }

    /// Tells whether a chunk still fits.
    fn fits(&self, chunk: &[u8]) -> (r: bool)
        requires
            self.wf(),
        ensures
            r == (self@.len() + chunk@.len() <= self.limit()),
    {
        chunk.len() <= self.max_len - self.bytes.len()
    }

    /// Appends a chunk, or refuses it where the limit would be passed.
    pub fn push(&mut self, chunk: &[u8]) -> (r: Result<(), ProxyError>)
        requires
            old(self).wf(),
        ensures
            final(self).wf(),
            final(self).limit() == old(self).limit(),
            final(self).complaint() == old(self).complaint(),
            if old(self)@.len() + chunk@.len() <= old(self).limit() {
                r is Ok && final(self)@ == old(self)@ + chunk@
            } else {
                r matches Err(e) && e.is(ErrorKind::InvalidData, old(self).complaint())
                    && final(self)@ == old(self)@
            },
    {
        if !self.fits(chunk) {
            return Err(ProxyError::new(ErrorKind::InvalidData, self.limit_error.as_str()));
        }
        self.bytes.extend_from_slice(chunk);
        proof {
            assert(self.bytes@ =~= old(self).bytes@ + chunk@);
        }
        Ok(())
    }

    /// The body.
    pub fn finish(self) -> (r: Vec<u8>)
        ensures
            r@ == self@,
    {
        self.bytes
    }
}

/// A metadata body that is read chunk by chunk, with memory reserved for what was announced
/// and for what has come.
#[derive(Debug)]
pub struct MetadataBody {
    body: LimitedBody,
    reservation: MetadataMemoryReservation,
}

/// The state after more memory was reserved, where it could be.
pub open spec fn reserved(before: CacheView, held: int, bytes: int) -> CacheView {
    let more = units(bytes) - held;
    if 0 < more <= before.free_memory && more <= u32::MAX {
        CacheView { free_memory: (before.free_memory - more) as nat, ..before }
    } else {
        before
    }
}

/// So much can be reserved on top of what is held.
pub open spec fn can_reserve(before: CacheView, held: int, bytes: int) -> bool {
    let more = units(bytes) - held;
    more <= before.free_memory && more <= u32::MAX
}

/// What is held once `bytes` bytes are reserved for.
pub open spec fn held_for(held: int, bytes: int) -> int {
    if units(bytes) > held {
        units(bytes)
    } else {
        held
    }
}

impl MetadataBody {
    /// What has come.
    pub closed spec fn bytes(&self) -> Seq<u8> {
        self.body@
    }

    /// The units of memory that are held.
    pub closed spec fn held(&self) -> nat {
        self.reservation.held()
    }

    /// The body is within the limit of metadata.
    pub closed spec fn wf(&self) -> bool {
        self.body.wf() && self.body.limit() == MAX_METADATA_BODY_LEN && self.body.complaint()
            == METADATA_LIMIT@
    }

    /// Begins to read a metadata body: its announced length has to be within the limit, and
    /// memory for it has to be free.
    pub fn start(store: &mut CacheStore, content_length: Option<u64>) -> (r: Result<
        MetadataBody,
        ProxyError,
    >)
        requires
            old(store).wf(),
        ensures
            final(store).wf(),
            ({
                let announced = match content_length {
                    Some(n) => n as int,
                    None => 0,
                };
                if announced > MAX_METADATA_BODY_LEN {
                    r matches Err(e) && e.is(ErrorKind::InvalidData, METADATA_LIMIT@) && final(
                        store)@ == old(store)@
                } else if can_reserve(old(store)@, 0, announced) {
                    r matches Ok(b) && b.wf() && b.bytes() == Seq::<u8>::empty() && b.held()
                        == units(announced) && final(store)@ == reserved(old(store)@, 0, announced)
                } else {
                    r matches Err(e) && e.is(ErrorKind::WouldBlock, MEMORY_EXHAUSTED@) && final(
                        store)@ == old(store)@
                }
            }),
    {
        let body = match LimitedBody::start(content_length, MAX_METADATA_BODY_LEN, METADATA_LIMIT) {
            Ok(body) => body,
            Err(error) => return Err(error),
        };
        let expected: usize = match content_length {
            Some(n) => n as usize,
            None => 0,
        };
        let mut reservation = CacheStore::metadata_memory_reservation();
        match reservation.reserve(store, expected) {
            Ok(()) => Ok(MetadataBody { body, reservation }),
            Err(error) => Err(error),
        }
    }

    /// Appends a chunk: it has to fit, and memory for it has to be free.
    pub fn push(&mut self, store: &mut CacheStore, chunk: &[u8]) -> (r: Result<(), ProxyError>)
        requires
            old(self).wf(),
            old(store).wf(),
        ensures
            final(self).wf(),
            final(store).wf(),
            ({
                let length = (old(self).bytes().len() + chunk@.len()) as int;
                let held = old(self).held() as int;
                if length > MAX_METADATA_BODY_LEN {
                    r matches Err(e) && e.is(ErrorKind::InvalidData, METADATA_LIMIT@) && final(
                        self).bytes() == old(self).bytes() && final(self).held() == held && final(
                        store)@ == old(store)@
                } else if can_reserve(old(store)@, held, length) {
                    r is Ok && final(self).bytes() == old(self).bytes() + chunk@ && final(
                        self).held() == held_for(held, length) && final(store)@ == reserved(
                        old(store)@,
                        held,
                        length,
                    )
                } else {
                    r matches Err(e) && e.is(ErrorKind::WouldBlock, MEMORY_EXHAUSTED@) && final(
                        self).bytes() == old(self).bytes() && final(self).held() == held && final(
                        store)@ == old(store)@
                }
            }),
    {
        if !self.body.fits(chunk) {
            return Err(ProxyError::new(ErrorKind::InvalidData, METADATA_LIMIT));
        }
        let length: usize = self.body.bytes.len() + chunk.len();
        match self.reservation.reserve(store, length) {
            Ok(()) => self.body.push(chunk),
            Err(error) => Err(error),
        }
    }

    /// The body and the memory that is reserved for it.
    pub fn finish(self) -> (r: (Vec<u8>, MetadataMemoryReservation))
        ensures
            r.0@ == self.bytes(),
            r.1.held() == self.held(),
    {
        (self.body.finish(), self.reservation)
    }
}

// ---------------------------------------------------------------------------
// Responses
// ---------------------------------------------------------------------------

/// A response with a body of some kind.
#[derive(Debug)]
pub struct Response<B> {
    pub status: u16,
    pub headers: Vec<(String, String)>,
    pub body: B,
}

/// The header of a short answer.
pub open spec fn simple_headers(content_type: Seq<char>, body: Seq<char>) -> Seq<
    (Seq<char>, Seq<char>),
> {
    seq![
        ("content-type"@, content_type),
        ("content-length"@, decimal(encode_utf8(body).len())),
    ]
}

/// A short answer.
pub open spec fn is_simple(
    r: Response<String>,
    status: u16,
    content_type: Seq<char>,
    body: Seq<char>,
) -> bool {
    r.status == status && r.body@ == body && pairs_view(r.headers@) == simple_headers(
        content_type,
        body,
    )
}

/// A short answer.
pub fn simple_response(status: u16, content_type: &str, body: &str) -> (r: Response<String>)
    ensures
        is_simple(r, status, content_type@, body@),
{
    let length: usize = body.as_bytes().len();
    let mut headers: Vec<(String, String)> = Vec::new();
    headers.push(("content-type".to_owned(), content_type.to_owned()));
    headers.push(("content-length".to_owned(), to_decimal(length as u128)));
    proof {
        assert(pairs_view(headers@) =~= simple_headers(content_type@, body@));
    }
    Response { status, headers, body: body.to_owned() }
}

/// The content type of plain answers.
pub const PLAIN_TEXT: &'static str = "text/plain; charset=utf-8";

/// The content type of the page of counters.
pub const PROMETHEUS_TEXT: &'static str = "text/plain; version=0.0.4; charset=utf-8";

/// The answer to a request for nothing that there is.
pub fn not_found() -> (r: Response<String>)
    ensures
        is_simple(r, 404, PLAIN_TEXT@, "not found"@),
{
    simple_response(404, PLAIN_TEXT, "not found")
}

/// The status that an error is answered with: refused admission is a temporary condition of
/// the proxy, everything else a failure behind it.
pub open spec fn status_of(kind: ErrorKind) -> u16 {
    if kind == ErrorKind::WouldBlock {
        503
    } else {
        502
    }
}

/// The status that an error is answered with.
pub fn error_status(kind: ErrorKind) -> (r: u16)
    ensures
        r == status_of(kind),
{
    match kind {
        ErrorKind::WouldBlock => 503,
        _ => 502,
    }
}

/// The answer to a request that failed, and the failure to log.
pub fn request_failed_response(method: &str, target: &RequestTarget, error: &ProxyError) -> (r: (
    Response<String>,
    Failure,
))
    ensures
        is_simple(r.0, status_of(error.kind), PLAIN_TEXT@, error.message@),
        r.1.wf(),
        r.1.event() == "request_failed"@,
        r.1.data() == Map::<Seq<char>, Seq<char>>::empty().insert(
            "method"@,
            json_quoted(method@),
        ).insert("path"@, json_quoted(target.path@)).insert(
            "query"@,
            opt_json(opt_text(target.query)),
        ).insert("error"@, json_quoted(error.message@)),
{
    (
        simple_response(error_status(error.kind), PLAIN_TEXT, error.message.as_str()),
        request_failure(method, target, error.message.as_str()),
    )
}

/// The answer to a request whose body could not be read, and the failure to log.
pub fn unread_body_response(event: &str, method: &str, target: &RequestTarget, error: &str) -> (r: (
    Response<String>,
    Failure,
))
    ensures
        is_simple(r.0, 400, PLAIN_TEXT@, error@),
        r.1.wf(),
        r.1.event() == event@,
        r.1.data() == Map::<Seq<char>, Seq<char>>::empty().insert(
            "method"@,
            json_quoted(method@),
        ).insert("path"@, json_quoted(target.path@)).insert("error"@, json_quoted(error@)),
{
    (
        simple_response(400, PLAIN_TEXT, error),
        body_failure(event, method, target.path.as_str(), error),
    )
}

/// The page of counters.
pub fn stats_response(stats: &AppStats) -> (r: Response<String>)
    requires
        stats.wf(),
    ensures
        is_simple(r, 200, PROMETHEUS_TEXT@, prometheus_text(&stats.counters())),
        stats.counters()@ == stats@,
{
    let page = stats.render_prometheus();
    simple_response(200, PROMETHEUS_TEXT, page.as_str())
}

/// The status of a stored response; one that is no status at all is taken for success.
pub open spec fn served_status(status: u16) -> u16 {
    if 100 <= status <= 999 {
        status
    } else {
        200
    }
}

/// A stored response with the body.
pub fn response_from_meta<B>(meta: &StoredResponseMeta, body: B) -> (r: Response<B>)
    ensures
        r.status == served_status(meta.status),
        pairs_view(r.headers@) == meta@.headers,
        r.body == body,
{
    let status: u16 = if 100 <= meta.status && meta.status <= 999 {
        meta.status
    } else {
        200
    };
    Response { status, headers: clone_pairs(&meta.headers), body }
}

/// The same response without its body.
pub fn response_without_body<B>(response: Response<B>) -> (r: Response<()>)
    ensures
        r.status == response.status,
        r.headers == response.headers,
{
    Response { status: response.status, headers: response.headers, body: () }
}

/// What one who waited for a fetch is answered with.
#[derive(Debug)]
pub enum Served<'a, B> {
    FromCache,
    Stored(&'a StoredResponseMeta, &'a B),
    Failed(Response<String>),
}

/// What one who waited for an artifact is answered with.
pub fn serve_inflight<'a, P, B>(outcome: &'a InflightOutcome<P, B>) -> (r: Served<'a, B>)
    ensures
        match *outcome {
            InflightOutcome::Cached(_) => r is FromCache,
            InflightOutcome::Response(meta, body) => r matches Served::Stored(m, b) && *m == meta
                && *b == body,
            InflightOutcome::Failed(kind, error) => r matches Served::Failed(f) && is_simple(
                f,
                status_of(kind),
                PLAIN_TEXT@,
                error@,
            ),
        },
{
    match outcome {
        InflightOutcome::Cached(_) => Served::FromCache,
        InflightOutcome::Response(meta, body) => Served::Stored(meta, body),
        InflightOutcome::Failed(kind, error) => Served::Failed(
            simple_response(error_status(*kind), PLAIN_TEXT, error.as_str()),
        ),
    }
}

/// What one who waited for metadata is answered with. Metadata never comes as an artifact.
pub fn serve_metadata_inflight<'a, P, B>(outcome: &'a InflightOutcome<P, B>) -> (r: Result<
    Served<'a, B>,
    ProxyError,
>)
    ensures
        match *outcome {
            InflightOutcome::Cached(_) => r matches Err(e) && e.is(
                ErrorKind::InvalidData,
                "metadata inflight produced artifact"@,
            ),
            InflightOutcome::Response(meta, body) => r matches Ok(Served::Stored(m, b)) && *m
                == meta && *b == body,
            InflightOutcome::Failed(kind, error) => r matches Ok(Served::Failed(f)) && is_simple(
                f,
                status_of(kind),
                PLAIN_TEXT@,
                error@,
            ),
        },
{
    match outcome {
        InflightOutcome::Cached(_) => Err(
            ProxyError::new(ErrorKind::InvalidData, "metadata inflight produced artifact"),
        ),
        _ => Ok(serve_inflight(outcome)),
    }
}

/// The error of an entry that is gone although its fetch succeeded.
pub fn missing_artifact() -> (r: ProxyError)
    ensures
        r.is(ErrorKind::NotFound, "artifact missing after inflight completion"@),
{
    ProxyError::new(ErrorKind::NotFound, "artifact missing after inflight completion")
}

// ---------------------------------------------------------------------------
// Metadata
// ---------------------------------------------------------------------------

/// What comes of a response to a metadata request.
#[derive(Clone, Copy, Debug, PartialEq, Eq, Structural)]
pub enum MetadataNext {
    /// The stored response still holds.
    Reuse,
    /// The response replaces what is stored.
    Finish,
}

/// Tells whether a stored response is small enough to be served from memory.
pub fn usable_entry(body_len: u64) -> (r: bool)
    ensures
        r == (body_len <= MAX_METADATA_BODY_LEN),
{
    body_len <= MAX_METADATA_BODY_LEN as u64
}

/// Decides what comes of a response to a metadata request.
pub fn metadata_next(status: u16, has_entry: bool) -> (r: MetadataNext)
    ensures
        r == (if status == 304 && has_entry {
            MetadataNext::Reuse
        } else {
            MetadataNext::Finish
        }),
{
    if status == 304 && has_entry {
        MetadataNext::Reuse
    } else {
        MetadataNext::Finish
    }
}

/// Metadata as it is served, and whether it is stored.
#[derive(Debug)]
pub struct FinishedMetadata {
    pub meta: StoredResponseMeta,
    pub body: Vec<u8>,
    pub publish: bool,
}

/// The body as it is served, or the error.
pub open spec fn served_body(
    rewrite: &MetadataRewrite,
    body: Seq<u8>,
    upstreams: &RegistryOrigins,
) -> Result<Seq<u8>, (ErrorKind, Seq<char>)> {
    let rewritten = match *rewrite {
        MetadataRewrite::Raw => Ok(body),
        MetadataRewrite::Npm(origin) => rewritten_packument(
            body,
            upstreams,
            origin@,
            MAX_METADATA_BODY_LEN,
        ),
        MetadataRewrite::Pypi(origin) => rewritten_html(
            body,
            upstreams,
            origin@,
            MAX_METADATA_BODY_LEN,
        ),
    };
    match rewritten {
        Ok(bytes) => if bytes.len() > MAX_METADATA_BODY_LEN {
            Err((ErrorKind::InvalidData, "rewritten metadata body exceeds 128 MiB limit"@))
        } else {
            Ok(bytes)
        },
        Err(e) => Err((ErrorKind::Other, e)),
    }
}

/// The header that metadata is served with.
pub open spec fn served_meta(
    rewrite: &MetadataRewrite,
    status: u16,
    headers: Seq<(Seq<char>, Seq<u8>)>,
    length: int,
) -> MetaView {
    buffered_meta(status, headers, length as u64, rewrite is Raw)
}

/// The response is stored: it is a success, and upstream can be asked later whether it holds.
pub open spec fn is_publishable(meta: MetaView) -> bool {
    meta.status == 200 && (meta.etag is Some || meta.last_modified is Some)
}

/// What is served, and perhaps stored, for an upstream metadata response.
pub fn finish_metadata(
    rewrite: &MetadataRewrite,
    status: u16,
    headers: &Vec<Header>,
    body: Vec<u8>,
    upstreams: &RegistryOrigins,
) -> (r: Result<FinishedMetadata, ProxyError>)
    ensures
        match served_body(rewrite, body@, upstreams) {
            Ok(bytes) => r matches Ok(f) && f.body@ == bytes && f.meta@ == served_meta(
                rewrite,
                status,
                headers_view(headers@),
                bytes.len() as int,
            ) && f.publish == is_publishable(f.meta@),
            Err((kind, message)) => r matches Err(e) && e.is(kind, message),
        },
{
    let rewritten = match rewrite {
        MetadataRewrite::Raw => Ok(body),
        MetadataRewrite::Npm(origin) => rewrite_npm_json(
            body.as_slice(),
            upstreams,
            origin.as_str(),
            MAX_METADATA_BODY_LEN,
        ),
        MetadataRewrite::Pypi(origin) => rewrite_pypi_html(
            body.as_slice(),
            upstreams,
            origin.as_str(),
            MAX_METADATA_BODY_LEN,
        ),
    };
    let bytes = match rewritten {
        Ok(bytes) => bytes,
        Err(message) => return Err(ProxyError { kind: ErrorKind::Other, message }),
    };
    if bytes.len() > MAX_METADATA_BODY_LEN {
        return Err(
            ProxyError::new(
                ErrorKind::InvalidData,
                "rewritten metadata body exceeds 128 MiB limit",
            ),
        );
    }
    let exposed = match rewrite {
        MetadataRewrite::Raw => true,
        _ => false,
    };
    let meta = meta_for_bytes(status, headers, bytes.len() as u64, exposed);
    let publish = meta.status == 200 && (meta.etag.is_some() || meta.last_modified.is_some());
    Ok(FinishedMetadata { meta, body: bytes, publish })
}

// ---------------------------------------------------------------------------
// Laws
// ---------------------------------------------------------------------------

/// Whatever upstream sends, no metadata larger than the limit is served or stored.
pub proof fn served_metadata_is_limited(
    rewrite: &MetadataRewrite,
    body: Seq<u8>,
    upstreams: &RegistryOrigins,
)
    ensures
        served_body(rewrite, body, upstreams) matches Ok(bytes) ==> bytes.len()
            <= MAX_METADATA_BODY_LEN,
{
}

/// Bodies that are not rewritten are served as they came, with upstream's validators.
pub proof fn raw_metadata_is_unchanged(body: Seq<u8>, upstreams: &RegistryOrigins)
    requires
        body.len() <= MAX_METADATA_BODY_LEN,
    ensures
        served_body(&MetadataRewrite::Raw, body, upstreams) == Ok::<
            Seq<u8>,
            (ErrorKind, Seq<char>),
        >(body),
{
}

/// Representations of different kinds, or of one kind for different origins, have different
/// identities.
pub proof fn representations_are_distinct(a: MetadataRewrite, b: MetadataRewrite)
    requires
        a.identity() == b.identity(),
    ensures
        match (a, b) {
            (MetadataRewrite::Raw, MetadataRewrite::Raw) => true,
            (MetadataRewrite::Npm(x), MetadataRewrite::Npm(y)) => x@ == y@,
            (MetadataRewrite::Pypi(x), MetadataRewrite::Pypi(y)) => x@ == y@,
            _ => false,
        },
{
    reveal_strlit("raw:v1");
    reveal_strlit("npm:v2:");
    reveal_strlit("pypi:v2:");
    assert(a.identity()[0] == (if a is Raw { 'r' } else if a is Npm { 'n' } else { 'p' }));
    assert(b.identity()[0] == (if b is Raw { 'r' } else if b is Npm { 'n' } else { 'p' }));
    match (a, b) {
        (MetadataRewrite::Npm(x), MetadataRewrite::Npm(y)) => {
            assert(x@ =~= a.identity().skip(7));
            assert(y@ =~= b.identity().skip(7));
        },
        (MetadataRewrite::Pypi(x), MetadataRewrite::Pypi(y)) => {
            assert(x@ =~= a.identity().skip(8));
            assert(y@ =~= b.identity().skip(8));
        },
        _ => {},
    }
}

/// What all holders hold together.
pub open spec fn total_held(holders: Seq<nat>) -> nat
    decreases holders.len(),
{
    if holders.len() == 0 {
        0
    } else {
        total_held(holders.drop_last()) + holders.last()
    }
}

proof fn lemma_total_held(holders: Seq<nat>, i: int, held: nat)
    requires
        0 <= i < holders.len(),
    ensures
        total_held(holders.update(i, held)) == total_held(holders) - holders[i] + held,
        holders[i] <= total_held(holders),
    decreases holders.len(),
{
    let init = holders.drop_last();
    let after = holders.update(i, held);
    if i == holders.len() - 1 {
        assert(after.drop_last() =~= init);
    } else {
        lemma_total_held(init, i, held);
        assert(after.drop_last() =~= init.update(i, held));
    }
}

/// Memory is neither made nor lost, and all holders together never hold more than there is:
/// where what is free and what is held add up to the budget, they still do after one of the
/// holders reserved more, was refused, or gave everything back.
pub proof fn memory_is_conserved(before: CacheView, holders: Seq<nat>, i: int, bytes: int)
    requires
        0 <= i < holders.len(),
        before.free_memory + total_held(holders) == before.memory_capacity,
    ensures
        can_reserve(before, holders[i] as int, bytes) ==> {
            let after = holders.update(i, held_for(holders[i] as int, bytes) as nat);
            &&& reserved(before, holders[i] as int, bytes).free_memory + total_held(after)
                == before.memory_capacity
            &&& total_held(after) <= before.memory_capacity
            &&& after[i] >= units(bytes)
        },
        !can_reserve(before, holders[i] as int, bytes) ==> reserved(
            before,
            holders[i] as int,
            bytes,
        ) == before,
        before.free_memory + holders[i] + total_held(holders.update(i, 0))
            == before.memory_capacity,
{
    let held = held_for(holders[i] as int, bytes) as nat;
    lemma_total_held(holders, i, held);
    lemma_total_held(holders, i, 0);
}

/// Refused admission is answered with 503, for the client to come again, and every other error
/// with 502.
pub proof fn refused_admission_is_temporary(kind: ErrorKind)
    ensures
        status_of(ErrorKind::WouldBlock) == 503,
        kind != ErrorKind::WouldBlock ==> status_of(kind) == 502,
{
}

/// A stored response is served with its own status, and one that has none with 200.
pub proof fn stored_statuses_are_served(status: u16)
    ensures
        100 <= status <= 999 ==> served_status(status) == status,
        status < 100 || status > 999 ==> served_status(status) == 200,
{
}

/// A short answer says what it is and how long: its type, and the number of its bytes.
pub proof fn short_answers_say_what_they_are(content_type: Seq<char>, body: Seq<char>)
    ensures
        simple_headers(content_type, body) == seq![
            ("content-type"@, content_type),
            ("content-length"@, decimal(encode_utf8(body).len())),
        ],
        PLAIN_TEXT@ == "text/plain; charset=utf-8"@,
        PROMETHEUS_TEXT@ == "text/plain; version=0.0.4; charset=utf-8"@,
{
}

/// What is stored is a success that upstream can be asked about later, and every such response is
/// stored: it has a validator, and so there is a condition to ask with.
pub proof fn stored_metadata_can_be_asked_about(meta: MetaView)
    ensures
        is_publishable(meta) <==> meta.status == 200 && (meta.etag is Some || meta.last_modified
            is Some),
        is_publishable(meta) ==> conditions(meta).len() > 0,
        is_publishable(meta) && meta.etag is Some ==> conditions(meta).contains(
            ("if-none-match"@, meta.etag->0),
        ),
        is_publishable(meta) && meta.last_modified is Some ==> conditions(meta).contains(
            ("if-modified-since"@, meta.last_modified->0),
        ),
{
    each_validator_is_asked_with(meta);
}

/// What upstream can be asked about, in terms of what upstream sent: a response with status 200
/// is stored where it has an entity tag or a time, and with any other status it never is.
pub proof fn responses_with_a_validator_are_stored(
    rewrite: &MetadataRewrite,
    status: u16,
    headers: Seq<(Seq<char>, Seq<u8>)>,
    length: int,
)
    ensures
        is_publishable(served_meta(rewrite, status, headers, length)) <==> status == 200 && (
        upstream_meta(status, headers, None).etag is Some || upstream_meta(
            status,
            headers,
            None,
        ).last_modified is Some),
{
}

/// Only a body that is upstream's own is served with upstream's validators, and the header speaks
/// of the body that is served.
pub proof fn rewritten_metadata_is_served_without_validators(
    rewrite: &MetadataRewrite,
    status: u16,
    headers: Seq<(Seq<char>, Seq<u8>)>,
    length: u64,
)
    ensures
        rewrite is Raw ==> served_meta(rewrite, status, headers, length as int) == buffered_meta(
            status,
            headers,
            length,
            true,
        ),
        !(rewrite is Raw) ==> served_meta(rewrite, status, headers, length as int) == buffered_meta(
            status,
            headers,
            length,
            false,
        ),
{
}

/// What is served is what the representation asks for: the body itself, the packument or the page
/// with links to the origin.
pub proof fn bodies_are_served_in_their_representation(
    rewrite: &MetadataRewrite,
    body: Seq<u8>,
    upstreams: &RegistryOrigins,
    origin: String,
)
    ensures
        *rewrite is Raw ==> (body.len() <= 128 * 1024 * 1024 <==> served_body(
            rewrite,
            body,
            upstreams,
        ) == Ok::<Seq<u8>, (ErrorKind, Seq<char>)>(body)),
        *rewrite == MetadataRewrite::Npm(origin) ==> (match rewritten_packument(
            body,
            upstreams,
            origin@,
            MAX_METADATA_BODY_LEN,
        ) {
            Ok(bytes) => bytes.len() <= 128 * 1024 * 1024 ==> served_body(rewrite, body, upstreams)
                == Ok::<Seq<u8>, (ErrorKind, Seq<char>)>(bytes),
            Err(e) => served_body(rewrite, body, upstreams) == Err::<
                Seq<u8>,
                (ErrorKind, Seq<char>),
            >((ErrorKind::Other, e)),
        }),
        *rewrite == MetadataRewrite::Pypi(origin) ==> (match rewritten_html(
            body,
            upstreams,
            origin@,
            MAX_METADATA_BODY_LEN,
        ) {
            Ok(bytes) => bytes.len() <= 128 * 1024 * 1024 ==> served_body(rewrite, body, upstreams)
                == Ok::<Seq<u8>, (ErrorKind, Seq<char>)>(bytes),
            Err(e) => served_body(rewrite, body, upstreams) == Err::<
                Seq<u8>,
                (ErrorKind, Seq<char>),
            >((ErrorKind::Other, e)),
        }),
{
}

/// The representations are told apart by their kind, its version, and the origin of the links.
pub proof fn identities_name_kind_and_origin(origin: String)
    ensures
        MetadataRewrite::Raw.identity() == "raw:v1"@,
        MetadataRewrite::Npm(origin).identity() == "npm:v2:"@ + origin@,
        MetadataRewrite::Pypi(origin).identity() == "pypi:v2:"@ + origin@,
{
}

/// The limits: 128 MiB of metadata, 1 MiB of an error, and 64 KiB set aside before a body is
/// read.
pub proof fn bodies_are_limited()
    ensures
        MAX_METADATA_BODY_LEN == 128 * 1024 * 1024,
        MAX_ERROR_BODY_LEN == 1024 * 1024,
        MAX_INITIAL_CAPACITY == 64 * 1024,
        METADATA_LIMIT@ == "metadata body exceeds 128 MiB limit"@,
        ERROR_BODY_LIMIT@ == "upstream error body exceeds 1 MiB limit"@,
{
}

/// A body is refused before it is read exactly where its announced length is past the limit; what
/// is set aside for any other is no more than it announces, nor than 64 KiB.
pub proof fn long_bodies_are_refused_unread(length: u64, max_len: int)
    ensures
        initial_capacity(Some(length), max_len) is None <==> length > max_len,
        initial_capacity(Some(length), max_len) matches Some(n) ==> n == (if length < 65536 {
            length as int
        } else {
            65536
        }),
        initial_capacity(None, max_len) == Some(0int),
{
}

/// Memory is reserved in whole units of one MiB: what is missing is taken from what is free, where
/// that is enough, and nothing is where it is not; what is held never shrinks.
pub proof fn memory_is_taken_from_what_is_free(before: CacheView, held: int, bytes: int)
    requires
        0 <= held,
        before.free_memory <= u32::MAX,
    ensures
        can_reserve(before, held, bytes) <==> units(bytes) - held <= before.free_memory,
        can_reserve(before, held, bytes) ==> reserved(before, held, bytes).free_memory
            == before.free_memory - (held_for(held, bytes) - held),
        !can_reserve(before, held, bytes) ==> reserved(before, held, bytes) == before,
        reserved(before, held, bytes) == (CacheView {
            free_memory: reserved(before, held, bytes).free_memory,
            ..before
        }),
        held_for(held, bytes) >= held && held_for(held, bytes) >= units(bytes) && (held_for(
            held,
            bytes,
        ) == held || held_for(held, bytes) == units(bytes)),
{
}

/// Room for output: the input, and for every link that fits in, of 20 bytes in a packument and of
/// 8 on a page, the origin and 16 bytes more; never more than 128 MiB. A packument takes twelve
/// times its length to be read.
pub proof fn rewriting_has_room_for_its_output(origin: String, input_len: int, output: int)
    requires
        0 <= input_len,
        0 <= output,
    ensures
        ({
            let more = encode_utf8(origin@).len() as int + 16;
            let npm = input_len + ((input_len + 19) / 20) * more;
            let pypi = input_len + ((input_len + 7) / 8) * more;
            &&& MetadataRewrite::Npm(origin).bound(input_len) == (if npm < 134_217_728 {
                npm
            } else {
                134_217_728
            })
            &&& MetadataRewrite::Pypi(origin).bound(input_len) == (if pypi < 134_217_728 {
                pypi
            } else {
                134_217_728
            })
        }),
        MetadataRewrite::Raw.bound(input_len) == input_len,
        MetadataRewrite::Raw.memory(input_len, output) == input_len,
        input_len + output <= usize::MAX ==> MetadataRewrite::Pypi(origin).memory(input_len, output)
            == input_len + output,
        input_len * 12 + output <= usize::MAX ==> MetadataRewrite::Npm(origin).memory(
            input_len,
            output,
        ) == input_len * 12 + output,
{
}

/// A short answer has the status, the type and the body that it is given, and says how long it is.
pub proof fn short_answers_are_what_they_are_given(
    r: Response<String>,
    status: u16,
    content_type: Seq<char>,
    body: Seq<char>,
)
    ensures
        is_simple(r, status, content_type, body) <==> r.status == status && r.body@ == body
            && pairs_view(r.headers@) == seq![
            ("content-type"@, content_type),
            ("content-length"@, decimal(encode_utf8(body).len())),
        ],
{
}

/// A body that is not rewritten is refused where it is longer than 128 MiB.
pub proof fn long_metadata_is_refused(body: Seq<u8>, upstreams: &RegistryOrigins)
    requires
        body.len() > 128 * 1024 * 1024,
    ensures
        served_body(&MetadataRewrite::Raw, body, upstreams) == Err::<
            Seq<u8>,
            (ErrorKind, Seq<char>),
        >((ErrorKind::InvalidData, "rewritten metadata body exceeds 128 MiB limit"@)),
{
}

} // verus!
