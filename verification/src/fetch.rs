//! The steps of an artifact fetch, and what comes of its end.
use crate::cache::{
    admission, body_path, leads_are_numbered, temp_path, Admission, CacheStore, CacheView, Inflight,
    InflightOutcome, LedFetch, LookupView, MetaView, StoredResponseMeta,
};
use crate::disk::{
    entry_files_are_distinct, entry_in, lemma_renamed, lemma_with_file,
    opened_entries_read_as_before, stored_entry, Disk,
};
use crate::error::ErrorKind;
use crate::failure_log::{artifact_failure, Failure};
use crate::http::{headers_view, Header};
use crate::json::json_quoted;
use crate::keys::is_key;
use crate::meta::{
    buffered_meta, end_to_end_fields_are_kept, is_end_to_end, is_text_with, meta_for_bytes,
    meta_from_upstream, upstream_meta,
};
use crate::text::{decimal, same_ignoring_case};
use vstd::prelude::*;
use vstd::string::*;

verus! {

/// What an artifact fetch is waiting for.
#[derive(Clone, Copy, Debug, PartialEq, Eq, Structural)]
pub enum Stage {
    FetchUpstream,
    ReadErrorResponse,
    CreateTempFile,
    ReadUpstreamStream,
    WriteTempFile,
    FlushTempFile,
    CommitCacheEntry,
    Over,
}

impl Stage {
    /// The name of the stage in logs.
    pub open spec fn text(self) -> Seq<char> {
        match self {
            Stage::FetchUpstream => "fetch_upstream"@,
            Stage::ReadErrorResponse => "read_error_response"@,
            Stage::CreateTempFile => "create_temp_file"@,
            Stage::ReadUpstreamStream => "read_upstream_stream"@,
            Stage::WriteTempFile => "write_temp_file"@,
            Stage::FlushTempFile => "flush_temp_file"@,
            Stage::CommitCacheEntry => "commit_cache_entry"@,
            Stage::Over => "over"@,
        }
    }

    /// The name of the stage in logs.
    pub fn name(self) -> (r: &'static str)
        ensures
            r@ == self.text(),
    {
        match self {
            Stage::FetchUpstream => "fetch_upstream",
            Stage::ReadErrorResponse => "read_error_response",
            Stage::CreateTempFile => "create_temp_file",
            Stage::ReadUpstreamStream => "read_upstream_stream",
            Stage::WriteTempFile => "write_temp_file",
            Stage::FlushTempFile => "flush_temp_file",
            Stage::CommitCacheEntry => "commit_cache_entry",
            Stage::Over => "over",
        }
    }
}

/// What happened to an artifact fetch.
#[derive(Debug)]
pub enum FetchEvent {
    /// Upstream answered.
    Response(u16, Vec<Header>),
    /// The body of an error was read; it has so many bytes.
    ErrorBody(u64),
    /// The temporary file is there.
    Created,
    /// A chunk came; it has so many bytes.
    Chunk(u64),
    /// No more chunks come.
    End,
    /// The chunk is in the file.
    Written,
    /// The file is written out.
    Flushed,
    /// The entry is published.
    Committed,
    /// The step failed.
    Failed(String),
}

/// What an artifact fetch does next.
#[derive(Debug)]
pub enum FetchAction {
    /// Read the body of the error.
    ReadErrorBody,
    /// Create the temporary file.
    CreateTemp,
    /// Wait for the next chunk.
    ReadChunk,
    /// Write the chunk to the file.
    WriteChunk,
    /// Write the file out.
    Flush,
    /// Publish the file with this header.
    Commit(StoredResponseMeta),
    /// Hand out the published entry.
    HandOut,
    /// Hand out the error of upstream with this header.
    Respond(StoredResponseMeta),
    /// Remove the temporary file and fail with the stage and the error.
    Abort(Stage, String),
}

/// The model of an action.
pub enum ActionView {
    ReadErrorBody,
    CreateTemp,
    ReadChunk,
    WriteChunk,
    Flush,
    Commit(MetaView),
    HandOut,
    Respond(MetaView),
    Abort(Stage, Seq<char>),
}

impl View for FetchAction {
    type V = ActionView;

    open spec fn view(&self) -> ActionView {
        match self {
            FetchAction::ReadErrorBody => ActionView::ReadErrorBody,
            FetchAction::CreateTemp => ActionView::CreateTemp,
            FetchAction::ReadChunk => ActionView::ReadChunk,
            FetchAction::WriteChunk => ActionView::WriteChunk,
            FetchAction::Flush => ActionView::Flush,
            FetchAction::Commit(meta) => ActionView::Commit(meta@),
            FetchAction::HandOut => ActionView::HandOut,
            FetchAction::Respond(meta) => ActionView::Respond(meta@),
            FetchAction::Abort(stage, error) => ActionView::Abort(*stage, error@),
        }
    }
}

/// The model of an event.
pub enum EventView {
    Response(u16, Seq<(Seq<char>, Seq<u8>)>),
    ErrorBody(u64),
    Created,
    Chunk(u64),
    End,
    Written,
    Flushed,
    Committed,
    Failed(Seq<char>),
}

impl View for FetchEvent {
    type V = EventView;

    open spec fn view(&self) -> EventView {
        match self {
            FetchEvent::Response(status, headers) => EventView::Response(
                *status,
                headers_view(headers@),
            ),
            FetchEvent::ErrorBody(n) => EventView::ErrorBody(*n),
            FetchEvent::Created => EventView::Created,
            FetchEvent::Chunk(n) => EventView::Chunk(*n),
            FetchEvent::End => EventView::End,
            FetchEvent::Written => EventView::Written,
            FetchEvent::Flushed => EventView::Flushed,
            FetchEvent::Committed => EventView::Committed,
            FetchEvent::Failed(error) => EventView::Failed(error@),
        }
    }
}

/// An artifact fetch under way.
#[derive(Debug)]
pub struct ArtifactFetch {
    stage: Stage,
    status: u16,
    headers: Vec<Header>,
    length: u64,
    pending: u64,
}

/// The model of an artifact fetch: what it waits for, what upstream answered, the bytes that
/// are in the file and those of the chunk that is being written.
#[verifier::ext_equal]
pub struct FetchView {
    pub stage: Stage,
    pub status: u16,
    pub headers: Seq<(Seq<char>, Seq<u8>)>,
    pub length: int,
    pub pending: int,
}

impl FetchView {
    /// The fetch waits for such an event, and the count of bytes can hold it.
    pub open spec fn awaits(self, event: EventView) -> bool {
        match event {
            EventView::Response(_, _) => self.stage is FetchUpstream,
            EventView::ErrorBody(_) => self.stage is ReadErrorResponse,
            EventView::Created => self.stage is CreateTempFile,
            EventView::Chunk(n) => self.stage is ReadUpstreamStream && self.length + n <= u64::MAX,
            EventView::End => self.stage is ReadUpstreamStream,
            EventView::Written => self.stage is WriteTempFile,
            EventView::Flushed => self.stage is FlushTempFile,
            EventView::Committed => self.stage is CommitCacheEntry,
            EventView::Failed(_) => !(self.stage is Over),
        }
    }

    /// The state and the action that an event leads to.
    pub open spec fn after(self, event: EventView) -> (FetchView, ActionView) {
        match event {
            EventView::Response(status, headers) => if status == 200 {
                (
                    FetchView { stage: Stage::CreateTempFile, status, headers, ..self },
                    ActionView::CreateTemp,
                )
            } else {
                (
                    FetchView { stage: Stage::ReadErrorResponse, status, headers, ..self },
                    ActionView::ReadErrorBody,
                )
            },
            EventView::ErrorBody(n) => (
                FetchView { stage: Stage::Over, ..self },
                ActionView::Respond(buffered_meta(self.status, self.headers, n, true)),
            ),
            EventView::Created => (
                FetchView { stage: Stage::ReadUpstreamStream, ..self },
                ActionView::ReadChunk,
            ),
            EventView::Chunk(n) => (
                FetchView { stage: Stage::WriteTempFile, pending: n as int, ..self },
                ActionView::WriteChunk,
            ),
            EventView::End => (
                FetchView { stage: Stage::FlushTempFile, ..self },
                ActionView::Flush,
            ),
            EventView::Written => (
                FetchView {
                    stage: Stage::ReadUpstreamStream,
                    length: self.length + self.pending,
                    pending: 0,
                    ..self
                },
                ActionView::ReadChunk,
            ),
            EventView::Flushed => (
                FetchView { stage: Stage::CommitCacheEntry, ..self },
                ActionView::Commit(
                    upstream_meta(self.status, self.headers, Some(self.length as u64)),
                ),
            ),
            EventView::Committed => (
                FetchView { stage: Stage::Over, ..self },
                ActionView::HandOut,
            ),
            EventView::Failed(error) => (
                FetchView { stage: Stage::Over, ..self },
                ActionView::Abort(self.stage, error),
            ),
        }
    }

    /// The count of bytes fits.
    pub open spec fn fits(self) -> bool {
        0 <= self.length && 0 <= self.pending && self.length + self.pending <= u64::MAX
    }
}

/// A fetch that has just begun.
pub open spec fn begun() -> FetchView {
    FetchView {
        stage: Stage::FetchUpstream,
        status: 0,
        headers: Seq::empty(),
        length: 0,
        pending: 0,
    }
}

impl View for ArtifactFetch {
    type V = FetchView;

    closed spec fn view(&self) -> FetchView {
        FetchView {
            stage: self.stage,
            status: self.status,
            headers: headers_view(self.headers@),
            length: self.length as int,
            pending: self.pending as int,
        }
    }
}

impl ArtifactFetch {
    /// Begins a fetch: upstream is asked.
    pub fn new() -> (r: ArtifactFetch)
        ensures
            r@ == begun(),
    {
        let r = ArtifactFetch {
            stage: Stage::FetchUpstream,
            status: 0,
            headers: Vec::new(),
            length: 0,
            pending: 0,
        };
        proof {
            assert(r@.headers =~= Seq::<(Seq<char>, Seq<u8>)>::empty());
        }
        r
    }

    /// Tells whether the fetch waits for such an event.
    pub fn awaits(&self, event: &FetchEvent) -> (r: bool)
        ensures
            r == self@.awaits(event@),
    {
        match event {
            FetchEvent::Response(_, _) => matches!(self.stage, Stage::FetchUpstream),
            FetchEvent::ErrorBody(_) => matches!(self.stage, Stage::ReadErrorResponse),
            FetchEvent::Created => matches!(self.stage, Stage::CreateTempFile),
            FetchEvent::Chunk(n) => matches!(self.stage, Stage::ReadUpstreamStream) && *n
                <= u64::MAX - self.length,
            FetchEvent::End => matches!(self.stage, Stage::ReadUpstreamStream),
            FetchEvent::Written => matches!(self.stage, Stage::WriteTempFile),
            FetchEvent::Flushed => matches!(self.stage, Stage::FlushTempFile),
            FetchEvent::Committed => matches!(self.stage, Stage::CommitCacheEntry),
            FetchEvent::Failed(_) => !matches!(self.stage, Stage::Over),
        }
    }

    /// Takes note of an event and says what is done next.
    pub fn step(&mut self, event: FetchEvent) -> (r: FetchAction)
        requires
            old(self)@.awaits(event@),
            old(self)@.fits(),
        ensures
            final(self)@ == old(self)@.after(event@).0,
            r@ == old(self)@.after(event@).1,
            final(self)@.fits(),
    {
        match event {
            FetchEvent::Response(status, headers) => {
                self.status = status;
                self.headers = headers;
                if status == 200 {
                    self.stage = Stage::CreateTempFile;
                    FetchAction::CreateTemp
                } else {
                    self.stage = Stage::ReadErrorResponse;
                    FetchAction::ReadErrorBody
                }
            },
            FetchEvent::ErrorBody(n) => {
                self.stage = Stage::Over;
                FetchAction::Respond(meta_for_bytes(self.status, &self.headers, n, true))
            },
            FetchEvent::Created => {
                self.stage = Stage::ReadUpstreamStream;
                FetchAction::ReadChunk
            },
            FetchEvent::Chunk(n) => {
                self.stage = Stage::WriteTempFile;
                self.pending = n;
                FetchAction::WriteChunk
            },
            FetchEvent::End => {
                self.stage = Stage::FlushTempFile;
                FetchAction::Flush
            },
            FetchEvent::Written => {
                self.stage = Stage::ReadUpstreamStream;
                self.length = self.length + self.pending;
                self.pending = 0;
                FetchAction::ReadChunk
            },
            FetchEvent::Flushed => {
                self.stage = Stage::CommitCacheEntry;
                FetchAction::Commit(
                    meta_from_upstream(self.status, &self.headers, Some(self.length)),
                )
            },
            FetchEvent::Committed => {
                self.stage = Stage::Over;
                FetchAction::HandOut
            },
            FetchEvent::Failed(error) => {
                let stage = self.stage;
                self.stage = Stage::Over;
                FetchAction::Abort(stage, error)
            },
        }
    }
}

/// What the log says of a fetch that failed.
pub open spec fn failure_data(
    stage: Stage,
    upstream: Seq<char>,
    key: Seq<char>,
    error: Seq<char>,
) -> Map<Seq<char>, Seq<char>> {
    Map::<Seq<char>, Seq<char>>::empty().insert("stage"@, json_quoted(stage.text())).insert(
        "upstream"@,
        json_quoted(upstream),
    ).insert("cache_key"@, json_quoted(key)).insert("error"@, json_quoted(error))
}

/// The outcome for those who wait when a fetch fails, and the failure to log.
pub fn failed<P, B>(stage: Stage, upstream: &str, key: &str, error: String) -> (r: (
    InflightOutcome<P, B>,
    Failure,
))
    ensures
        r.0 == InflightOutcome::<P, B>::Failed(ErrorKind::Other, error),
        r.1.wf(),
        r.1.event() == "artifact_fetch_failed"@,
        r.1.data() == failure_data(stage, upstream@, key@, error@),
{
    let failure = artifact_failure(stage.name(), upstream, key, error.as_str());
    (InflightOutcome::Failed(ErrorKind::Other, error), failure)
}

/// The outcome for those who wait when a fetch is given up before its end.
pub fn cancelled<P, B>(artifact: bool) -> (r: InflightOutcome<P, B>)
    ensures
        r matches InflightOutcome::Failed(kind, error) && kind == ErrorKind::Interrupted && error@
            == (if artifact {
            "artifact fetch cancelled"@
        } else {
            "metadata fetch cancelled"@
        }),
{
    if artifact {
        InflightOutcome::Failed(ErrorKind::Interrupted, "artifact fetch cancelled".to_owned())
    } else {
        InflightOutcome::Failed(ErrorKind::Interrupted, "metadata fetch cancelled".to_owned())
    }
}

// ---------------------------------------------------------------------------
// The end of a fetch
// ---------------------------------------------------------------------------

/// Ends a fetch that was led: those who wait for it get the outcome, and its key is no longer
/// being fetched. A fetch of the key that was led under another number goes on.
pub fn conclude<P, B>(
    fetch: &mut LedFetch<P, B>,
    store: &mut CacheStore,
    key: &str,
    outcome: InflightOutcome<P, B>,
)
    requires
        old(store).wf(),
    ensures
        final(store).wf(),
        final(store)@ == old(store)@.concluded(key@, old(fetch).number()),
        final(fetch).number() == old(fetch).number(),
        final(fetch).result() == Inflight::completed(old(fetch).result(), outcome),
{
    fetch.complete(outcome);
    store.finish_lead(key, fetch.lead());
}

/// How an artifact fetch that was led ended. `P` keeps an entry pinned, `B` is a body.
#[derive(Debug)]
pub enum ArtifactEnd<P, B> {
    /// The entry is published.
    Published(P),
    /// Upstream answered with an error.
    Answered(StoredResponseMeta, B),
    /// The fetch failed at the stage.
    Failed(Stage, String),
    /// The fetch was given up before its end.
    GivenUp,
}

impl<P, B> ArtifactEnd<P, B> {
    /// What those who wait are told.
    pub open spec fn gives(self, outcome: InflightOutcome<P, B>) -> bool {
        match self {
            ArtifactEnd::Published(entry) => outcome == InflightOutcome::<P, B>::Cached(entry),
            ArtifactEnd::Answered(meta, body) => outcome == InflightOutcome::<P, B>::Response(
                meta,
                body,
            ),
            ArtifactEnd::Failed(_, error) => outcome == InflightOutcome::<P, B>::Failed(
                ErrorKind::Other,
                error,
            ),
            ArtifactEnd::GivenUp => outcome matches InflightOutcome::Failed(kind, error) && kind
                == ErrorKind::Interrupted && error@ == "artifact fetch cancelled"@,
        }
    }

    /// Nothing was published, and the temporary file may be there.
    pub open spec fn leaves_temp(self) -> bool {
        self is Failed || self is GivenUp
    }

    /// Tells whether the temporary file has to be removed.
    pub fn removes_temp(&self) -> (r: bool)
        ensures
            r == self.leaves_temp(),
    {
        matches!(self, ArtifactEnd::Failed(_, _) | ArtifactEnd::GivenUp)
    }
}

/// Ends an artifact fetch that was led, however it ended: those who wait for it are told, its
/// key is no longer being fetched, and a failure is there to be logged.
pub fn end_artifact_fetch<P, B>(
    end: ArtifactEnd<P, B>,
    upstream: &str,
    key: &str,
    fetch: &mut LedFetch<P, B>,
    store: &mut CacheStore,
) -> (r: Option<Failure>)
    requires
        old(store).wf(),
    ensures
        final(store).wf(),
        final(store)@ == old(store)@.concluded(key@, old(fetch).number()),
        final(fetch).number() == old(fetch).number(),
        match old(fetch).result() {
            Some(first) => final(fetch).result() == Some(first),
            None => final(fetch).result() matches Some(outcome) && end.gives(outcome),
        },
        match end {
            ArtifactEnd::Failed(stage, error) => r matches Some(failure) && failure.wf()
                && failure.event() == "artifact_fetch_failed"@ && failure.data() == failure_data(
                stage,
                upstream@,
                key@,
                error@,
            ),
            _ => r is None,
        },
{
    let (outcome, failure) = match end {
        ArtifactEnd::Published(entry) => (InflightOutcome::Cached(entry), None),
        ArtifactEnd::Answered(meta, body) => (InflightOutcome::Response(meta, body), None),
        ArtifactEnd::Failed(stage, error) => {
            let (outcome, failure) = failed(stage, upstream, key, error);
            (outcome, Some(failure))
        },
        ArtifactEnd::GivenUp => (cancelled(true), None),
    };
    conclude(fetch, store, key, outcome);
    failure
}

// ---------------------------------------------------------------------------
// Laws
// ---------------------------------------------------------------------------

/// The bytes of a list of chunks together.
pub open spec fn sum(chunks: Seq<u64>) -> int
    decreases chunks.len(),
{
    if chunks.len() == 0 {
        0
    } else {
        sum(chunks.drop_last()) + chunks.last()
    }
}

/// The state after every chunk came and was written.
pub open spec fn streamed(state: FetchView, chunks: Seq<u64>) -> FetchView
    decreases chunks.len(),
{
    if chunks.len() == 0 {
        state
    } else {
        streamed(state, chunks.drop_last()).after(EventView::Chunk(chunks.last())).0.after(
            EventView::Written,
        ).0
    }
}

proof fn lemma_streamed(state: FetchView, chunks: Seq<u64>)
    requires
        state.stage is ReadUpstreamStream,
        state.pending == 0,
    ensures
        streamed(state, chunks) == (FetchView { length: state.length + sum(chunks), ..state }),
    decreases chunks.len(),
{
    if chunks.len() > 0 {
        lemma_streamed(state, chunks.drop_last());
    }
}

/// A fetch that goes through publishes what upstream sent, and announces exactly as many
/// bytes as came: the header that is committed carries the sum of the chunks.
pub proof fn committed_length_is_what_came(
    headers: Seq<(Seq<char>, Seq<u8>)>,
    chunks: Seq<u64>,
)
    requires
        sum(chunks) <= u64::MAX,
    ensures
        ({
            let created = begun().after(EventView::Response(200, headers)).0.after(
                EventView::Created,
            ).0;
            let flushed = streamed(created, chunks).after(EventView::End).0.after(
                EventView::Flushed,
            );
            flushed.1 == ActionView::Commit(
                upstream_meta(200, headers, Some(sum(chunks) as u64)),
            )
        }),
{
    let created = begun().after(EventView::Response(200, headers)).0.after(EventView::Created).0;
    lemma_streamed(created, chunks);
}

/// Nothing but a success is ever published: the file is committed only after upstream
/// answered with 200, and an error of upstream is handed out with its own status.
pub proof fn only_successes_are_published(state: FetchView, event: EventView)
    requires
        state.awaits(event),
        state.stage is CreateTempFile || state.stage is ReadUpstreamStream
            || state.stage is WriteTempFile || state.stage is FlushTempFile
            || state.stage is CommitCacheEntry ==> state.status == 200,
        state.stage is ReadErrorResponse ==> state.status != 200,
    ensures
        ({
            let (next, action) = state.after(event);
            &&& next.stage is CreateTempFile || next.stage is ReadUpstreamStream
                || next.stage is WriteTempFile || next.stage is FlushTempFile
                || next.stage is CommitCacheEntry ==> next.status == 200
            &&& next.stage is ReadErrorResponse ==> next.status != 200
            &&& action matches ActionView::Commit(meta) ==> meta.status == 200
            &&& action matches ActionView::Respond(meta) ==> meta.status == state.status
                && meta.status != 200
        }),
{
}

/// A fetch ends once: after its last step it waits for nothing.
pub proof fn a_fetch_ends_once(state: FetchView, event: EventView, later: EventView)
    requires
        state.awaits(event),
        state.after(event).1 is Respond || state.after(event).1 is HandOut || state.after(
            event,
        ).1 is Abort,
    ensures
        !state.after(event).0.awaits(later),
{
}

/// Every fetch that was led ends for those who wait: whatever it comes to, there is an outcome,
/// and it is the one that the end gives. The key is then no longer being fetched, and once its
/// permit is given back the cache is as it was before the lead, but for the number that was
/// given out, so that the key can be led again.
pub proof fn led_fetches_end<P, B>(
    state: CacheView,
    key: Seq<char>,
    end: ArtifactEnd<P, B>,
    outcome: InflightOutcome<P, B>,
)
    requires
        state.admits(key),
        end.gives(outcome),
    ensures
        Inflight::completed(None, outcome) == Some(outcome),
        end matches ArtifactEnd::Failed(_, error) ==> outcome == InflightOutcome::<P, B>::Failed(
            ErrorKind::Other,
            error,
        ),
        end is GivenUp ==> (outcome matches InflightOutcome::Failed(kind, error) && kind
            == ErrorKind::Interrupted && error@ == "artifact fetch cancelled"@),
        state.started(key).is_led_by(key, state.next_lead as u64),
        ({
            let ended = state.started(key).concluded(key, state.next_lead as u64);
            &&& !ended.inflight.contains_key(key)
            &&& ended.released() == (CacheView { next_lead: state.next_lead + 1, ..state })
            &&& ended.released().admits(key)
        }),
{
    assert(state.inflight.insert(key, state.next_lead as u64).remove(key) =~= state.inflight);
}

/// What happens to the fetches that requests share.
pub enum SharingStep<P, B> {
    /// A fetch is asked for, admitted, finished or given back.
    Admit(Admission),
    /// The lead of the key with the number is concluded with the outcome.
    Conclude(Seq<char>, u64, InflightOutcome<P, B>),
}

/// The fetches that requests share: the state of the cache, and the outcome of every lead that
/// was given out, by its number.
pub struct SharingView<P, B> {
    pub state: CacheView,
    pub outcomes: Map<u64, Option<InflightOutcome<P, B>>>,
}

impl<P, B> SharingView<P, B> {
    /// What such a step leads to. A lead that is given out has no outcome yet.
    pub open spec fn after(self, step: SharingStep<P, B>) -> SharingView<P, B> {
        match step {
            SharingStep::Admit(a) => SharingView {
                state: admission(self.state, a),
                outcomes: match a {
                    Admission::Request(key) => if self.state.admits(key) {
                        self.outcomes.insert(self.state.next_lead as u64, None)
                    } else {
                        self.outcomes
                    },
                    _ => self.outcomes,
                },
            },
            SharingStep::Conclude(key, lead, outcome) => SharingView {
                state: self.state.concluded(key, lead),
                outcomes: self.outcomes.insert(
                    lead,
                    Inflight::completed(self.outcomes[lead], outcome),
                ),
            },
        }
    }

    /// What the steps lead to.
    pub open spec fn after_all(self, steps: Seq<SharingStep<P, B>>) -> SharingView<P, B>
        decreases steps.len(),
    {
        if steps.len() == 0 {
            self
        } else {
            self.after_all(steps.drop_last()).after(steps.last())
        }
    }
}

/// The step leaves the lead of the key with the number alone.
pub open spec fn leaves_going<P, B>(step: SharingStep<P, B>, key: Seq<char>, lead: u64) -> bool {
    match step {
        SharingStep::Admit(a) => a != Admission::Finish(key),
        SharingStep::Conclude(_, n, _) => n != lead,
    }
}

proof fn lemma_next_lead<P, B>(start: SharingView<P, B>, steps: Seq<SharingStep<P, B>>)
    ensures
        start.state.next_lead <= start.after_all(steps).state.next_lead <= start.state.next_lead
            + steps.len(),
    decreases steps.len(),
{
    if steps.len() > 0 {
        lemma_next_lead(start, steps.drop_last());
    }
}

proof fn lemma_goes_on<P, B>(
    start: SharingView<P, B>,
    steps: Seq<SharingStep<P, B>>,
    key: Seq<char>,
    lead: u64,
)
    requires
        start.state.is_led_by(key, lead),
        start.outcomes.contains_pair(lead, None),
        leads_are_numbered(start.state.inflight, start.state.next_lead),
        start.state.next_lead + steps.len() <= u64::MAX,
        forall|i: int| 0 <= i < steps.len() ==> leaves_going(#[trigger] steps[i], key, lead),
    ensures
        start.after_all(steps).state.is_led_by(key, lead),
        start.after_all(steps).outcomes.contains_pair(lead, None),
        leads_are_numbered(
            start.after_all(steps).state.inflight,
            start.after_all(steps).state.next_lead,
        ),
    decreases steps.len(),
{
    if steps.len() > 0 {
        let init = steps.drop_last();
        assert forall|i: int| 0 <= i < init.len() implies leaves_going(
            #[trigger] init[i],
            key,
            lead,
        ) by {
            assert(init[i] == steps[i]);
        }
        lemma_goes_on(start, init, key, lead);
        lemma_next_lead(start, init);
        assert(leaves_going(steps[steps.len() - 1], key, lead));
    }
}

proof fn lemma_stays_over<P, B>(
    start: SharingView<P, B>,
    steps: Seq<SharingStep<P, B>>,
    lead: u64,
    outcome: InflightOutcome<P, B>,
)
    requires
        start.outcomes.contains_pair(lead, Some(outcome)),
        forall|k: Seq<char>| !#[trigger] start.state.is_led_by(k, lead),
        lead < start.state.next_lead,
        start.state.next_lead + steps.len() <= u64::MAX,
    ensures
        start.after_all(steps).outcomes.contains_pair(lead, Some(outcome)),
        forall|k: Seq<char>| !#[trigger] start.after_all(steps).state.is_led_by(k, lead),
    decreases steps.len(),
{
    if steps.len() > 0 {
        let init = steps.drop_last();
        lemma_stays_over(start, init, lead, outcome);
        lemma_next_lead(start, init);
        let before = start.after_all(init).state;
        let after = start.after_all(steps).state;
        assert forall|k: Seq<char>| !#[trigger] after.is_led_by(k, lead) by {
            assert(!before.is_led_by(k, lead));
        }
    }
}

/// Those who join a key get what its own leader got. As long as the lead that was given out for
/// the key is not over, every request for the key joins the fetch with the number of that lead,
/// whatever happens meanwhile; once its leader has concluded it, the outcome under that number
/// is the leader's and stays so, whatever happens afterwards; and no later fetch, of this key or
/// of another, is taken for it.
pub proof fn those_who_join_get_the_outcome_of_the_leader<P, B>(
    start: SharingView<P, B>,
    meanwhile: Seq<SharingStep<P, B>>,
    afterwards: Seq<SharingStep<P, B>>,
    key: Seq<char>,
    stored: bool,
    outcome: InflightOutcome<P, B>,
)
    requires
        start.state.admits(key),
        leads_are_numbered(start.state.inflight, start.state.next_lead),
        0 <= start.state.next_lead,
        start.state.next_lead + 1 + meanwhile.len() + afterwards.len() <= u64::MAX,
        forall|i: int|
            0 <= i < meanwhile.len() ==> leaves_going(
                #[trigger] meanwhile[i],
                key,
                start.state.next_lead as u64,
            ),
    ensures
        ({
            let lead = start.state.next_lead as u64;
            let led = start.after(SharingStep::Admit(Admission::Request(key)));
            let waiting = led.after_all(meanwhile);
            let ended = waiting.after(SharingStep::Conclude(key, lead, outcome));
            let later = ended.after_all(afterwards);
            &&& led.state.is_led_by(key, lead)
            &&& waiting.state.lookup(key, stored) == LookupView::Join(lead)
            &&& waiting.state.started(key) == waiting.state
            &&& waiting.outcomes[lead] is None
            &&& !ended.state.inflight.contains_key(key)
            &&& ended.outcomes[lead] == Some(outcome)
            &&& later.outcomes[lead] == Some(outcome)
            &&& forall|k: Seq<char>| #[trigger]
                later.state.lookup(k, stored) != LookupView::Join(lead)
        }),
{
    let lead = start.state.next_lead as u64;
    let led = start.after(SharingStep::Admit(Admission::Request(key)));
    let waiting = led.after_all(meanwhile);
    let ended = waiting.after(SharingStep::Conclude(key, lead, outcome));
    let later = ended.after_all(afterwards);
    lemma_goes_on(led, meanwhile, key, lead);
    lemma_next_lead(led, meanwhile);
    assert forall|k: Seq<char>| !#[trigger] ended.state.is_led_by(k, lead) by {
        if k != key && waiting.state.inflight.contains_key(k) {
            assert(waiting.state.inflight[k] != waiting.state.inflight[key]);
        }
    }
    lemma_stays_over(ended, afterwards, lead, outcome);
    assert forall|k: Seq<char>| #[trigger] later.state.lookup(k, stored) != LookupView::Join(
        lead,
    ) by {
        assert(!later.state.is_led_by(k, lead));
    }
}

/// A fetch can fail wherever it stands, and it ends there: a step that fails leads to the abort
/// with the error.
pub proof fn every_failure_ends_the_fetch(state: FetchView, error: Seq<char>)
    requires
        !(state.stage is Over),
    ensures
        state.awaits(EventView::Failed(error)),
        state.after(EventView::Failed(error)).1 == ActionView::Abort(state.stage, error),
        state.after(EventView::Failed(error)).0.stage is Over,
{
}

/// What an action that had such an outcome leaves of the files: steps before the entry is
/// published touch no file but the temporary one, in which `contents` is left; a commit that
/// succeeds makes it the file of the entry.
pub open spec fn acted(
    disk: Disk,
    key: Seq<char>,
    action: ActionView,
    event: EventView,
    contents: Option<Seq<u8>>,
) -> Disk {
    match action {
        ActionView::CreateTemp | ActionView::WriteChunk | ActionView::Flush => disk.with_file(
            temp_path(key),
            contents,
        ),
        ActionView::Commit(_) => if event is Committed {
            disk.with_file(temp_path(key), contents).renamed(temp_path(key), body_path(key))
        } else {
            disk.with_file(temp_path(key), contents)
        },
        _ => disk,
    }
}

/// The state, the action and the files after a list of events, each with what it leaves in the
/// file that it touches.
pub open spec fn fetched(
    disk: Disk,
    key: Seq<char>,
    events: Seq<(EventView, Option<Seq<u8>>)>,
) -> (FetchView, Option<ActionView>, Disk)
    decreases events.len(),
{
    if events.len() == 0 {
        (begun(), None, disk)
    } else {
        let (state, action, before) = fetched(disk, key, events.drop_last());
        let (event, contents) = events.last();
        let (next, todo) = state.after(event);
        (
            next,
            Some(todo),
            match action {
                Some(a) => acted(before, key, a, event, contents),
                None => before,
            },
        )
    }
}

/// Every event came when the fetch waited for it.
pub open spec fn events_in_turn(
    disk: Disk,
    key: Seq<char>,
    events: Seq<(EventView, Option<Seq<u8>>)>,
) -> bool
    decreases events.len(),
{
    events.len() > 0 ==> {
        &&& events_in_turn(disk, key, events.drop_last())
        &&& fetched(disk, key, events.drop_last()).0.awaits(events.last().0)
    }
}

/// The entry was published.
pub open spec fn was_published(events: Seq<(EventView, Option<Seq<u8>>)>) -> bool {
    exists|i: int| 0 <= i < events.len() && (#[trigger] events[i]).0 is Committed
}

/// A fetch touches no file but its temporary one, which is none of those that were there; and
/// before it publishes, no path but that of the temporary file.
proof fn lemma_only_temp_is_touched(
    disk: Disk,
    key: Seq<char>,
    events: Seq<(EventView, Option<Seq<u8>>)>,
)
    requires
        disk.wf(),
        is_key(key),
        !disk.holds(temp_path(key)),
    ensures
        ({
            let after = fetched(disk, key, events).2;
            &&& after.wf()
            &&& after.keeps(disk)
            &&& disk.next <= after.next
            &&& after.holds(temp_path(key)) ==> after.names[temp_path(key)] >= disk.next
            &&& !was_published(events) ==> after.files().remove(temp_path(key)) == disk.files()
        }),
    decreases events.len(),
{
    let temp = temp_path(key);
    assert(disk.files().remove(temp) =~= disk.files());
    if events.len() > 0 {
        let init = events.drop_last();
        let (event, contents) = events.last();
        lemma_only_temp_is_touched(disk, key, init);
        let (state, action, before) = fetched(disk, key, init);
        let after = fetched(disk, key, events).2;
        if !was_published(events) {
            assert(!(events[events.len() - 1].0 is Committed));
            if was_published(init) {
                let i = choose|i: int| 0 <= i < init.len() && (#[trigger] init[i]).0 is Committed;
                assert(events[i].0 is Committed);
            }
        }
        entry_files_are_distinct(key, key, 0);
        lemma_with_file(before, temp, contents);
        let touched = before.with_file(temp, contents);
        lemma_renamed(touched, temp, body_path(key));
        assert(touched.files().remove(temp) =~= before.files().remove(temp));
        assert(after.keeps(disk)) by {
            assert forall|file: nat| #[trigger] disk.contents.contains_key(file) implies
                after.contents.contains_key(file) && after.contents[file]
                == disk.contents[file] by {
                assert(before.contents.contains_key(file));
            }
        }
    }
}

/// A fetch that fails or is given up before it published anything leaves nothing behind once
/// its temporary file is removed: every path, and so the entry that is read, is as it was when
/// the fetch began.
pub proof fn unpublished_fetches_leave_the_cache_as_it_was(
    disk: Disk,
    key: Seq<char>,
    events: Seq<(EventView, Option<Seq<u8>>)>,
)
    requires
        disk.wf(),
        is_key(key),
        !disk.holds(temp_path(key)),
        events_in_turn(disk, key, events),
        !was_published(events),
    ensures
        ({
            let after = fetched(disk, key, events).2.with_file(temp_path(key), None);
            &&& after.files() == disk.files()
            &&& !after.holds(temp_path(key))
            &&& stored_entry(after.files(), key) == stored_entry(disk.files(), key)
        }),
{
    lemma_only_temp_is_touched(disk, key, events);
    lemma_with_file(fetched(disk, key, events).2, temp_path(key), None);
}

/// An entry that was opened before a fetch still reads as it did, however the fetch goes, and
/// also when it publishes the entry of the same key anew.
pub proof fn opened_entries_outlive_fetches(
    disk: Disk,
    key: Seq<char>,
    events: Seq<(EventView, Option<Seq<u8>>)>,
    opened: Seq<char>,
)
    requires
        disk.wf(),
        is_key(key),
        !disk.holds(temp_path(key)),
        events_in_turn(disk, key, events),
        disk.holds(body_path(opened)),
    ensures
        ({
            let after = fetched(disk, key, events).2;
            &&& after.keeps(disk)
            &&& entry_in(after.contents[disk.names[body_path(opened)]]) == stored_entry(
                disk.files(),
                opened,
            )
        }),
{
    lemma_only_temp_is_touched(disk, key, events);
    opened_entries_read_as_before(disk, fetched(disk, key, events).2, opened);
}

/// A fetch that failed published nothing: the only way to the end that publishes is a commit
/// that succeeded, and nothing comes after it.
pub proof fn failed_fetches_publish_nothing(
    disk: Disk,
    key: Seq<char>,
    events: Seq<(EventView, Option<Seq<u8>>)>,
)
    requires
        events_in_turn(disk, key, events),
    ensures
        fetched(disk, key, events).1 matches Some(action) && (action is Abort
            || action is Respond) ==> !was_published(events),
        fetched(disk, key, events).1 matches Some(action) && action is HandOut ==> was_published(
            events,
        ),
    decreases events.len(),
{
    if events.len() > 0 {
        let init = events.drop_last();
        let last = events.last();
        if last.0 is Committed {
            assert(events[events.len() - 1].0 is Committed);
        }
        if was_published(events) && !(last.0 is Committed) {
            let i = choose|i: int| 0 <= i < events.len() && (#[trigger] events[i]).0 is Committed;
            assert(init[i].0 is Committed);
            lemma_published_is_over(disk, key, init);
        }
    }
}

proof fn lemma_published_is_over(
    disk: Disk,
    key: Seq<char>,
    events: Seq<(EventView, Option<Seq<u8>>)>,
)
    requires
        events_in_turn(disk, key, events),
        was_published(events),
    ensures
        fetched(disk, key, events).0.stage is Over,
    decreases events.len(),
{
    let init = events.drop_last();
    let i = choose|i: int| 0 <= i < events.len() && (#[trigger] events[i]).0 is Committed;
    if i < events.len() - 1 {
        assert(init[i].0 is Committed);
        lemma_published_is_over(disk, key, init);
    }
}

/// The steps of an artifact fetch. A response with status 200 is written to the temporary file,
/// chunk by chunk, and committed with the header that upstream sent and the length that came; any
/// other response is handed out with its own status and its body; and a step that fails ends the
/// fetch.
pub proof fn artifacts_are_fetched_step_by_step(
    state: FetchView,
    status: u16,
    headers: Seq<(Seq<char>, Seq<u8>)>,
    n: u64,
    error: Seq<char>,
)
    ensures
        state.after(EventView::Response(200, headers)) == (
            FetchView { stage: Stage::CreateTempFile, status: 200, headers, ..state },
            ActionView::CreateTemp,
        ),
        status != 200 ==> state.after(EventView::Response(status, headers)) == (
            FetchView { stage: Stage::ReadErrorResponse, status, headers, ..state },
            ActionView::ReadErrorBody,
        ),
        state.after(EventView::ErrorBody(n)) == (
            FetchView { stage: Stage::Over, ..state },
            ActionView::Respond(buffered_meta(state.status, state.headers, n, true)),
        ),
        state.after(EventView::Created) == (
            FetchView { stage: Stage::ReadUpstreamStream, ..state },
            ActionView::ReadChunk,
        ),
        state.after(EventView::Chunk(n)) == (
            FetchView { stage: Stage::WriteTempFile, pending: n as int, ..state },
            ActionView::WriteChunk,
        ),
        state.after(EventView::Written) == (
            FetchView {
                stage: Stage::ReadUpstreamStream,
                length: state.length + state.pending,
                pending: 0,
                ..state
            },
            ActionView::ReadChunk,
        ),
        state.after(EventView::End) == (
            FetchView { stage: Stage::FlushTempFile, ..state },
            ActionView::Flush,
        ),
        state.after(EventView::Flushed) == (
            FetchView { stage: Stage::CommitCacheEntry, ..state },
            ActionView::Commit(
                upstream_meta(state.status, state.headers, Some(state.length as u64)),
            ),
        ),
        state.after(EventView::Committed) == (
            FetchView { stage: Stage::Over, ..state },
            ActionView::HandOut,
        ),
        state.after(EventView::Failed(error)) == (
            FetchView { stage: Stage::Over, ..state },
            ActionView::Abort(state.stage, error),
        ),
        begun().stage is FetchUpstream && begun().length == 0 && begun().pending == 0,
{
}

/// A fetch waits for the outcome of the step that it is at, or its failure, and for nothing once
/// it is over; a chunk is taken where its length can still be counted.
pub proof fn fetches_wait_for_the_outcome_of_their_step(state: FetchView, event: EventView)
    ensures
        state.awaits(event) <==> match event {
            EventView::Response(_, _) => state.stage is FetchUpstream,
            EventView::ErrorBody(_) => state.stage is ReadErrorResponse,
            EventView::Created => state.stage is CreateTempFile,
            EventView::Chunk(n) => state.stage is ReadUpstreamStream && state.length + n
                <= u64::MAX,
            EventView::End => state.stage is ReadUpstreamStream,
            EventView::Written => state.stage is WriteTempFile,
            EventView::Flushed => state.stage is FlushTempFile,
            EventView::Committed => state.stage is CommitCacheEntry,
            EventView::Failed(_) => !(state.stage is Over),
        },
{
}

/// A committed artifact keeps every field that upstream sent to whoever reads it, and carries the
/// number of bytes that came.
pub proof fn artifacts_keep_the_header_of_upstream(
    state: FetchView,
    i: int,
    text: Seq<char>,
)
    requires
        state.fits(),
        0 <= i < state.headers.len(),
        is_end_to_end(state.headers[i]),
        !same_ignoring_case(state.headers[i].0, "content-length"@),
        is_text_with(text, state.headers[i].1),
    ensures
        state.after(EventView::Flushed).1 matches ActionView::Commit(meta)
            && meta.headers.contains((state.headers[i].0, text)) && meta.headers.last() == (
            "content-length"@,
            decimal(state.length as nat),
        ) && meta.status == state.status,
{
    end_to_end_fields_are_kept(
        state.status,
        state.headers,
        Some(state.length as u64),
        i,
        text,
    );
}

/// What those who wait are told: of an entry that it is there, of an error of upstream the error,
/// of a failure what failed, and of a fetch that was given up that it was.
pub proof fn ends_are_told_as_they_are<P, B>(
    end: ArtifactEnd<P, B>,
    outcome: InflightOutcome<P, B>,
)
    ensures
        end.gives(outcome) <==> match end {
            ArtifactEnd::Published(entry) => outcome == InflightOutcome::<P, B>::Cached(entry),
            ArtifactEnd::Answered(meta, body) => outcome == InflightOutcome::<P, B>::Response(
                meta,
                body,
            ),
            ArtifactEnd::Failed(_, error) => outcome == InflightOutcome::<P, B>::Failed(
                ErrorKind::Other,
                error,
            ),
            ArtifactEnd::GivenUp => outcome matches InflightOutcome::Failed(kind, error) && kind
                == ErrorKind::Interrupted && error@ == "artifact fetch cancelled"@,
        },
        end.leaves_temp() <==> end is Failed || end is GivenUp,
{
}

/// A failure is logged with its stage, its upstream, its key and its error.
pub proof fn failures_say_where_and_why(
    stage: Stage,
    upstream: Seq<char>,
    key: Seq<char>,
    error: Seq<char>,
)
    ensures
        ({
            let data = failure_data(stage, upstream, key, error);
            &&& data.contains_key("stage"@) && data["stage"@] == json_quoted(stage.text())
            &&& data.contains_key("upstream"@) && data["upstream"@] == json_quoted(upstream)
            &&& data.contains_key("cache_key"@) && data["cache_key"@] == json_quoted(key)
            &&& data.contains_key("error"@) && data["error"@] == json_quoted(error)
        }),
        Stage::FetchUpstream.text() == "fetch_upstream"@,
        Stage::ReadErrorResponse.text() == "read_error_response"@,
        Stage::CreateTempFile.text() == "create_temp_file"@,
        Stage::ReadUpstreamStream.text() == "read_upstream_stream"@,
        Stage::WriteTempFile.text() == "write_temp_file"@,
        Stage::FlushTempFile.text() == "flush_temp_file"@,
        Stage::CommitCacheEntry.text() == "commit_cache_entry"@,
{
    reveal_strlit("stage");
    reveal_strlit("upstream");
    reveal_strlit("cache_key");
    reveal_strlit("error");
    assert("stage"@.len() == 5 && "upstream"@.len() == 8 && "cache_key"@.len() == 9 && "error"@.len()
        == 5);
    assert("stage"@[0] == 's' && "error"@[0] == 'e');
}

/// What is shown of an event and of an action is what they hold.
pub proof fn events_and_actions_show_what_they_hold(
    status: u16,
    headers: Vec<Header>,
    n: u64,
    error: String,
    meta: StoredResponseMeta,
    stage: Stage,
)
    ensures
        FetchEvent::Response(status, headers)@ == EventView::Response(
            status,
            headers_view(headers@),
        ),
        FetchEvent::ErrorBody(n)@ == EventView::ErrorBody(n),
        FetchEvent::Chunk(n)@ == EventView::Chunk(n),
        FetchEvent::Failed(error)@ == EventView::Failed(error@),
        FetchEvent::Created@ is Created && FetchEvent::End@ is End && FetchEvent::Written@ is Written
            && FetchEvent::Flushed@ is Flushed && FetchEvent::Committed@ is Committed,
        FetchAction::Commit(meta)@ == ActionView::Commit(meta@),
        FetchAction::Respond(meta)@ == ActionView::Respond(meta@),
        FetchAction::Abort(stage, error)@ == ActionView::Abort(stage, error@),
        FetchAction::ReadErrorBody@ is ReadErrorBody && FetchAction::CreateTemp@ is CreateTemp
            && FetchAction::ReadChunk@ is ReadChunk && FetchAction::WriteChunk@ is WriteChunk
            && FetchAction::Flush@ is Flush && FetchAction::HandOut@ is HandOut,
{
}

/// A fetch begins with nothing of upstream.
pub proof fn fetches_begin_with_nothing()
    ensures
        begun() == (FetchView {
            stage: Stage::FetchUpstream,
            status: 0,
            headers: Seq::empty(),
            length: 0,
            pending: 0,
        }),
{
}

} // verus!
