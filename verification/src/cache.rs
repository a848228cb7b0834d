//! What the cache decides while work is under way: who fetches, who waits, what is pinned and
//! how much may be buffered.
use crate::config::Config;
use crate::error::{ErrorKind, ProxyError};
use crate::keys::{hash_key, is_key, is_key_of, is_number, is_temp_name, key_text,
    numbered_temp_name};
use crate::ordered::TextMap;
use crate::text::{clone_opt, decimal, is_digit, opt_text, to_decimal};
use vstd::prelude::*;
use vstd::string::*;
use vstd::utf8::*;

verus! {

/// The unit in which buffered metadata is counted.
pub const MIB: usize = 1_048_576;

/// How many units of metadata may be buffered at a time.
pub const METADATA_MEMORY_BUDGET_MIB: usize = 1024;

/// What is said when no more fetches are admitted.
pub const FETCHES_EXHAUSTED: &'static str = "upstream capacity exhausted";

/// What is said when no more metadata can be buffered.
pub const MEMORY_EXHAUSTED: &'static str = "metadata memory capacity exhausted";

// ---------------------------------------------------------------------------
// Stored responses
// ---------------------------------------------------------------------------

/// Everything of a stored response but its body.
#[derive(Debug)]
pub struct StoredResponseMeta {
    pub headers: Vec<(String, String)>,
    pub last_modified: Option<String>,
    pub etag: Option<String>,
    pub status: u16,
}

/// The model of a stored response without its body.
#[verifier::ext_equal]
pub struct MetaView {
    pub headers: Seq<(Seq<char>, Seq<char>)>,
    pub last_modified: Option<Seq<char>>,
    pub etag: Option<Seq<char>>,
    pub status: u16,
}

/// The views of a list of named texts.
pub open spec fn pairs_view(v: Seq<(String, String)>) -> Seq<(Seq<char>, Seq<char>)> {
    v.map_values(|p: (String, String)| (p.0@, p.1@))
}

impl View for StoredResponseMeta {
    type V = MetaView;

    open spec fn view(&self) -> MetaView {
        MetaView {
            headers: pairs_view(self.headers@),
            last_modified: opt_text(self.last_modified),
            etag: opt_text(self.etag),
            status: self.status,
        }
    }
}

/// A copy of a list of named texts.
pub fn clone_pairs(pairs: &Vec<(String, String)>) -> (r: Vec<(String, String)>)
    ensures
        pairs_view(r@) == pairs_view(pairs@),
{
    let mut out: Vec<(String, String)> = Vec::new();
    let mut i: usize = 0;
    while i < pairs.len()
        invariant
            i <= pairs.len(),
            pairs_view(out@) =~= pairs_view(pairs@).take(i as int),
        decreases pairs.len() - i,
    {
        let ghost before = out@;
        let ghost all = pairs_view(pairs@);
        out.push((pairs[i].0.clone(), pairs[i].1.clone()));
        proof {
            assert(pairs_view(out@) =~= pairs_view(before).push(all[i as int]));
            assert(all.take(i + 1) =~= all.take(i as int).push(all[i as int]));
        }
        i = i + 1;
    }
    proof {
        assert(pairs_view(pairs@).take(i as int) =~= pairs_view(pairs@));
    }
    out
}

impl Clone for StoredResponseMeta {
    fn clone(&self) -> (r: Self)
        ensures
            r@ == self@,
    {
        StoredResponseMeta {
            headers: clone_pairs(&self.headers),
            last_modified: clone_opt(&self.last_modified),
            etag: clone_opt(&self.etag),
            status: self.status,
        }
    }
}

/// The files of an entry, relative to the cache directory.
#[derive(Debug)]
pub struct CachePaths {
    pub body: String,
    pub temp: String,
}

/// The shard of a key: what its first two bytes write.
pub open spec fn shard_of(key: Seq<char>) -> Seq<char> {
    decode_utf8(encode_utf8(key).subrange(0, 2))
}

/// The file of a complete entry.
pub open spec fn body_path(key: Seq<char>) -> Seq<char> {
    shard_of(key) + "/"@ + key
}

/// The file of an entry that is being written.
pub open spec fn temp_path(key: Seq<char>) -> Seq<char> {
    shard_of(key) + "/"@ + key + ".part"@
}

/// One of the files of an entry that is being written, told apart by a number.
pub open spec fn numbered_temp_path(key: Seq<char>, number: u64) -> Seq<char> {
    temp_path(key) + "."@ + decimal(number as nat) + ".part"@
}

// ---------------------------------------------------------------------------
// Permits
// ---------------------------------------------------------------------------

/// A number of permits of which some are given out.
#[derive(Debug)]
pub struct Permits {
    capacity: usize,
    free: usize,
}

impl Permits {
    /// How many permits there are.
    pub closed spec fn capacity(&self) -> nat {
        self.capacity as nat
    }

    /// How many are not given out.
    pub closed spec fn free(&self) -> nat {
        self.free as nat
    }

    /// No more are free than there are.
    pub open spec fn wf(&self) -> bool {
        self.free() <= self.capacity()
    }

    /// How many are given out.
    pub open spec fn held(&self) -> int {
        self.capacity() - self.free()
    }

    pub fn new(capacity: usize) -> (r: Permits)
        ensures
            r.wf(),
            r.capacity() == capacity,
            r.free() == capacity,
    {
        Permits { capacity, free: capacity }
    }

    /// Takes `n` permits where so many are free.
    pub fn try_acquire(&mut self, n: usize) -> (r: bool)
        requires
            old(self).wf(),
        ensures
            final(self).wf(),
            final(self).capacity() == old(self).capacity(),
            r == (n <= old(self).free()),
            final(self).free() == (if r {
                (old(self).free() - n) as nat
            } else {
                old(self).free()
            }),
    {
        if n <= self.free {
            self.free = self.free - n;
            true
        } else {
            false
        }
    }

    /// Gives `n` permits back.
    pub fn release(&mut self, n: usize)
        requires
            old(self).wf(),
            n <= old(self).held(),
        ensures
            final(self).wf(),
            final(self).capacity() == old(self).capacity(),
            final(self).free() == old(self).free() + n,
    {
        self.free = self.free + n;
    }
}

// ---------------------------------------------------------------------------
// Work under way
// ---------------------------------------------------------------------------

/// How a fetch ended: with an entry in the cache, with a response for those who wait, or with
/// an error. `P` keeps the entry pinned, `B` is a body.
#[derive(Debug)]
pub enum InflightOutcome<P, B> {
    Cached(P),
    Response(StoredResponseMeta, B),
    Failed(ErrorKind, String),
}

/// A fetch that others may wait for.
#[derive(Debug)]
pub struct Inflight<P, B> {
    outcome: Option<InflightOutcome<P, B>>,
}

impl<P, B> Inflight<P, B> {
    /// The outcome, once there is one.
    pub closed spec fn result(&self) -> Option<InflightOutcome<P, B>> {
        self.outcome
    }

    /// The outcome after an attempt to complete the fetch: the first one stays.
    pub open spec fn completed(
        before: Option<InflightOutcome<P, B>>,
        outcome: InflightOutcome<P, B>,
    ) -> Option<InflightOutcome<P, B>> {
        match before {
            Some(first) => Some(first),
            None => Some(outcome),
        }
    }

    pub fn new() -> (r: Self)
        ensures
            r.result() is None,
    {
        Inflight { outcome: None }
    }

    /// The outcome, once there is one.
    pub fn outcome(&self) -> (r: Option<&InflightOutcome<P, B>>)
        ensures
            match r {
                Some(o) => self.result() == Some(*o),
                None => self.result() is None,
            },
    {
        match &self.outcome {
            Some(o) => Some(o),
            None => None,
        }
    }

    /// Completes the fetch with an entry in the cache.
    pub fn finish_cached(&mut self, entry: P)
        ensures
            final(self).result() == Self::completed(
                old(self).result(),
                InflightOutcome::Cached(entry),
            ),
    {
        self.complete(InflightOutcome::Cached(entry));
    }

    /// Completes the fetch with a response.
    pub fn finish_response(&mut self, meta: StoredResponseMeta, body: B)
        ensures
            final(self).result() == Self::completed(
                old(self).result(),
                InflightOutcome::Response(meta, body),
            ),
    {
        self.complete(InflightOutcome::Response(meta, body));
    }

    /// Completes the fetch with an error.
    pub fn fail(&mut self, kind: ErrorKind, error: String)
        ensures
            final(self).result() == Self::completed(
                old(self).result(),
                InflightOutcome::Failed(kind, error),
            ),
    {
        self.complete(InflightOutcome::Failed(kind, error));
    }

    /// Completes the fetch, unless it is complete already.
    pub fn complete(&mut self, outcome: InflightOutcome<P, B>)
        ensures
            final(self).result() == Self::completed(old(self).result(), outcome),
    {
        if self.outcome.is_none() {
            self.outcome = Some(outcome);
        }
    }
}

/// A fetch that is led: the number of its lead, and the outcome that those who joined it wait
/// for.
#[derive(Debug)]
pub struct LedFetch<P, B> {
    lead: u64,
    inflight: Inflight<P, B>,
}

impl<P, B> LedFetch<P, B> {
    /// The number of the lead.
    pub closed spec fn number(&self) -> u64 {
        self.lead
    }

    /// The outcome, once there is one.
    pub closed spec fn result(&self) -> Option<InflightOutcome<P, B>> {
        self.inflight.result()
    }

    /// A fetch that has just begun, with the number that its leader was given.
    pub fn new(lead: u64) -> (r: Self)
        ensures
            r.number() == lead,
            r.result() is None,
    {
        LedFetch { lead, inflight: Inflight::new() }
    }

    /// The number of the lead.
    pub fn lead(&self) -> (r: u64)
        ensures
            r == self.number(),
    {
        self.lead
    }

    /// The outcome, once there is one.
    pub fn outcome(&self) -> (r: Option<&InflightOutcome<P, B>>)
        ensures
            match r {
                Some(o) => self.result() == Some(*o),
                None => self.result() is None,
            },
    {
        self.inflight.outcome()
    }

    /// Completes the fetch, unless it is complete already.
    pub fn complete(&mut self, outcome: InflightOutcome<P, B>)
        ensures
            final(self).number() == old(self).number(),
            final(self).result() == Inflight::completed(old(self).result(), outcome),
    {
        self.inflight.complete(outcome);
    }
}

/// The one who fetches an artifact.
#[derive(Debug)]
pub struct ArtifactLeader {
    pub key: String,
    pub paths: CachePaths,
    /// The number of the lead.
    pub lead: u64,
}

impl ArtifactLeader {
    /// The artifact that is fetched, with its files, is that of `key`, and its fetch is the one
    /// with the number `lead`.
    pub open spec fn leads(&self, key: Seq<char>, lead: int) -> bool {
        &&& self.key@ == key
        &&& self.lead == lead
        &&& self.paths.body@ == body_path(key)
        &&& self.paths.temp@ == temp_path(key)
    }
}

/// What a request for an artifact does first.
#[derive(Debug, Clone, Copy, PartialEq, Eq, Structural)]
pub enum LookupStep {
    /// Wait for the fetch under way, which has this number.
    Join(u64),
    /// Look the entry up, and go on with what there is.
    Load,
}

/// What a request for an artifact leads to. `E` is an entry of the cache.
#[derive(Debug)]
pub enum ArtifactLookup<E> {
    /// The entry is handed out.
    Hit(E),
    /// The fetch with this number is waited for.
    Join(u64),
    /// A fetch begins.
    Leader(ArtifactLeader),
}

/// What a request for the header of an artifact leads to. `E` is an entry of the cache.
#[derive(Debug)]
pub enum HeadLookup<E> {
    /// The entry answers.
    Hit(E),
    /// Upstream is asked, and counts as a fetch under way until that is over.
    Forward,
}

/// The one who fetches metadata.
#[derive(Debug)]
pub struct MetadataLeader {
    pub key: String,
    /// The number of the lead.
    pub lead: u64,
}

/// What a request for metadata leads to.
#[derive(Debug)]
pub enum MetadataLookup {
    /// The fetch with this number is waited for.
    Join(u64),
    /// A fetch begins.
    Leader(MetadataLeader),
}

/// An entry that was just published and stays pinned until it is handed on.
#[derive(Debug)]
pub struct PublishedEntry {
    key: String,
    pin: u64,
}

impl PublishedEntry {
    /// The key of the entry.
    pub closed spec fn key(&self) -> Seq<char> {
        self.key@
    }

    /// The number of the pin.
    pub closed spec fn pin(&self) -> u64 {
        self.pin
    }
}

/// Buffered metadata, counted in units of one MiB.
#[derive(Debug)]
pub struct MetadataMemoryReservation {
    held: usize,
}

/// The units that `bytes` bytes take: at least one.
pub open spec fn units(bytes: int) -> int {
    if bytes <= 0 {
        1
    } else {
        (bytes + MIB - 1) / MIB as int
    }
}

/// What the cache knows of work under way.
#[derive(Debug)]
pub struct CacheStore {
    max_cache_size: u64,
    inflight: TextMap<u64>,
    next_lead: u64,
    pins: TextMap<u64>,
    next_pin: u64,
    temp_counter: u64,
    fetches: Permits,
    memory: Permits,
}

/// A state of the cache, without what it is made of. `inflight` gives every key that is being
/// fetched the number of its lead; no two leads ever have the same number.
#[verifier::ext_equal]
pub struct CacheView {
    pub bound: int,
    pub inflight: Map<Seq<char>, u64>,
    pub next_lead: int,
    pub pins: Map<Seq<char>, u64>,
    pub next_pin: int,
    pub temp_counter: u64,
    pub fetch_capacity: nat,
    pub free_fetches: nat,
    pub memory_capacity: nat,
    pub free_memory: nat,
}

/// Every lead was numbered before the next one, and no two have the same number.
pub open spec fn leads_are_numbered(inflight: Map<Seq<char>, u64>, next_lead: int) -> bool {
    &&& forall|key: Seq<char>|
        inflight.contains_key(key) ==> #[trigger] inflight[key] < next_lead
    &&& forall|key: Seq<char>, other: Seq<char>|
        inflight.contains_key(key) && inflight.contains_key(other) && key != other
            ==> #[trigger] inflight[key] != #[trigger] inflight[other]
}

/// What a request for an artifact leads to, without what it is handed.
pub enum LookupView {
    Join(u64),
    Hit,
    Refused,
    Lead,
}

impl CacheView {
    /// What a request for `key` leads to when no entry is stored: a join where it is being
    /// fetched, otherwise a lead with a number of its own where a fetch is admitted.
    pub open spec fn started(self, key: Seq<char>) -> CacheView {
        if self.inflight.contains_key(key) || self.free_fetches == 0 {
            self
        } else {
            CacheView {
                inflight: self.inflight.insert(key, self.next_lead as u64),
                next_lead: self.next_lead + 1,
                free_fetches: (self.free_fetches - 1) as nat,
                ..self
            }
        }
    }

    /// What a request for an artifact leads to, given whether an entry is stored: the fetch
    /// under way comes first, then the entry, then a fetch of its own.
    pub open spec fn lookup(self, key: Seq<char>, stored: bool) -> LookupView {
        if self.inflight.contains_key(key) {
            LookupView::Join(self.inflight[key])
        } else if stored {
            LookupView::Hit
        } else if self.free_fetches == 0 {
            LookupView::Refused
        } else {
            LookupView::Lead
        }
    }

    /// The state after a request for an artifact.
    pub open spec fn looked_up(self, key: Seq<char>, stored: bool) -> CacheView {
        if self.lookup(key, stored) is Lead {
            self.started(key)
        } else {
            self
        }
    }

    /// The state after a fetch was admitted, where the capacity was not exhausted.
    pub open spec fn permitted(self) -> CacheView {
        if self.free_fetches > 0 {
            CacheView { free_fetches: (self.free_fetches - 1) as nat, ..self }
        } else {
            self
        }
    }

    /// The state after an admitted fetch was over.
    pub open spec fn released(self) -> CacheView {
        CacheView { free_fetches: self.free_fetches + 1, ..self }
    }

    /// The state after no fetch of `key` was under way any more.
    pub open spec fn finished(self, key: Seq<char>) -> CacheView {
        CacheView { inflight: self.inflight.remove(key), ..self }
    }

    /// `key` is being fetched by the lead with the number.
    pub open spec fn is_led_by(self, key: Seq<char>, lead: u64) -> bool {
        self.inflight.contains_key(key) && self.inflight[key] == lead
    }

    /// The state after the lead of `key` with the number came to its end.
    pub open spec fn concluded(self, key: Seq<char>, lead: u64) -> CacheView {
        if self.is_led_by(key, lead) {
            self.finished(key)
        } else {
            self
        }
    }

    /// The state after `key` was pinned.
    pub open spec fn pinned(self, key: Seq<char>) -> CacheView {
        CacheView {
            pins: self.pins.insert(key, self.next_pin as u64),
            next_pin: self.next_pin + 1,
            ..self
        }
    }

    /// The pin is the one that the key has.
    pub open spec fn is_pinned_by(self, key: Seq<char>, pin: u64) -> bool {
        self.pins.contains_key(key) && self.pins[key] == pin
    }

    /// The state after a pin was dropped.
    pub open spec fn unpinned(self, key: Seq<char>, pin: u64) -> CacheView {
        if self.is_pinned_by(key, pin) {
            CacheView { pins: self.pins.remove(key), ..self }
        } else {
            self
        }
    }

    /// `key` may be led.
    pub open spec fn admits(self, key: Seq<char>) -> bool {
        !self.inflight.contains_key(key) && self.free_fetches > 0
    }
}

impl View for CacheStore {
    type V = CacheView;

    closed spec fn view(&self) -> CacheView {
        CacheView {
            bound: self.max_cache_size as int,
            inflight: self.inflight@,
            next_lead: self.next_lead as int,
            pins: self.pins@,
            next_pin: self.next_pin as int,
            temp_counter: self.temp_counter,
            fetch_capacity: self.fetches.capacity(),
            free_fetches: self.fetches.free(),
            memory_capacity: self.memory.capacity(),
            free_memory: self.memory.free(),
        }
    }
}

impl CacheStore {
    /// No more permits are free than there are, no pin is numbered ahead, and neither is a
    /// lead.
    pub closed spec fn wf(&self) -> bool {
        &&& self.inflight.wf()
        &&& self.pins.wf()
        &&& self.fetches.wf()
        &&& self.memory.wf()
        &&& forall|key: Seq<char>|
            self.pins@.contains_key(key) ==> #[trigger] self.pins@[key] < self.next_pin
        &&& leads_are_numbered(self.inflight@, self.next_lead as int)
    }

    /// What a well-formed state looks like from outside.
    pub proof fn lemma_wf(&self)
        requires
            self.wf(),
        ensures
            self@.free_fetches <= self@.fetch_capacity,
            self@.free_memory <= self@.memory_capacity,
            leads_are_numbered(self@.inflight, self@.next_lead),
            0 <= self@.next_lead <= u64::MAX,
            forall|key: Seq<char>|
                self@.pins.contains_key(key) ==> #[trigger] self@.pins[key] < self@.next_pin,
    {
    }

    /// A cache with nothing under way, for a valid configuration.
    pub fn new(config: &Config) -> (r: Result<CacheStore, ProxyError>)
        ensures
            match config.fault() {
                None => r matches Ok(store) && store.wf() && store@ == (CacheView {
                    bound: config.max_cache_size as int,
                    inflight: Map::empty(),
                    next_lead: 0,
                    pins: Map::empty(),
                    next_pin: 0,
                    temp_counter: 0,
                    fetch_capacity: config.max_upstream_fetches as nat,
                    free_fetches: config.max_upstream_fetches as nat,
                    memory_capacity: METADATA_MEMORY_BUDGET_MIB as nat,
                    free_memory: METADATA_MEMORY_BUDGET_MIB as nat,
                }),
                Some(message) => r matches Err(e) && e.is(ErrorKind::InvalidInput, message),
            },
    {
        match config.validate() {
            Ok(()) => {},
            Err(message) => return Err(
                ProxyError { kind: ErrorKind::InvalidInput, message },
            ),
        }
        let store = CacheStore {
            max_cache_size: config.max_cache_size,
            inflight: TextMap::new(),
            next_lead: 0,
            pins: TextMap::new(),
            next_pin: 0,
            temp_counter: 0,
            fetches: Permits::new(config.max_upstream_fetches),
            memory: Permits::new(METADATA_MEMORY_BUDGET_MIB),
        };
        Ok(store)
    }

    /// The key of an artifact.
    pub fn artifact_key(upstream: &str) -> (r: String)
        ensures
            r@ == key_text("artifact"@, upstream@, None),
            is_key(r@),
    {
        hash_key("artifact", upstream, None)
    }

    /// The key of metadata in a representation.
    pub fn metadata_key(upstream: &str, representation: &str) -> (r: String)
        ensures
            r@ == key_text("metadata"@, upstream@, Some(representation@)),
            is_key(r@),
    {
        hash_key("metadata", upstream, Some(representation))
    }

    /// The files of an entry.
    pub fn paths_for(key: &str) -> (r: CachePaths)
        requires
            is_key(key@),
        ensures
            r.body@ == body_path(key@),
            r.temp@ == temp_path(key@),
    {
        proof {
            file_names_are_recognised(key@, 0);
        }
        let (shard, _) = key.split_at(2);
        proof {
            encode_utf8_decode_utf8(shard@);
        }
        let mut body = shard.to_owned();
        body.append("/");
        body.append(key);
        let mut temp = body.clone();
        temp.append(".part");
        CachePaths { body, temp }
    }

    /// A file for the entry of `key` that no one else writes to: its temporary file with a
    /// number.
    pub fn unique_temp_path(&mut self, key: &str) -> (r: String)
        requires
            old(self).wf(),
            is_key(key@),
        ensures
            final(self).wf(),
            final(self)@ == (CacheView {
                temp_counter: old(self)@.temp_counter.wrapping_add(1),
                ..old(self)@
            }),
            r@ == numbered_temp_path(key@, old(self)@.temp_counter),
    {
        let suffix: u64 = self.temp_counter;
        self.temp_counter = suffix.wrapping_add(1);
        let mut out = CacheStore::paths_for(key).temp;
        out.append(".");
        out.append(to_decimal(suffix as u128).as_str());
        out.append(".part");
        out
    }

    /// What a request for an artifact does first: it joins the fetch under way, or has the
    /// entry looked up where there is none.
    pub fn begin_lookup(&self, key: &str) -> (r: LookupStep)
        requires
            self.wf(),
        ensures
            r == (if self@.inflight.contains_key(key@) {
                LookupStep::Join(self@.inflight[key@])
            } else {
                LookupStep::Load
            }),
    {
        match self.inflight.get(key) {
            Some(lead) => LookupStep::Join(*lead),
            None => LookupStep::Load,
        }
    }

    /// Tells whether there is a number left for one more lead.
    pub fn can_lead(&self) -> (r: bool)
        ensures
            r == (self@.next_lead < u64::MAX),
    {
        self.next_lead < u64::MAX
    }

    /// What a request for an artifact that had its entry looked up leads to: the entry, where
    /// there is one; otherwise the fetch that may have begun meanwhile, or a fetch of its own
    /// where one is admitted.
    pub fn end_lookup<E>(&mut self, key: &str, stored: Option<E>) -> (r: Result<
        ArtifactLookup<E>,
        ProxyError,
    >)
        requires
            old(self).wf(),
            old(self)@.next_lead < u64::MAX,
            is_key(key@),
        ensures
            final(self).wf(),
            match stored {
                Some(entry) => r == Ok::<ArtifactLookup<E>, ProxyError>(ArtifactLookup::Hit(entry))
                    && final(self)@ == old(self)@,
                None => {
                    &&& final(self)@ == old(self)@.started(key@)
                    &&& if old(self)@.inflight.contains_key(key@) {
                        r == Ok::<ArtifactLookup<E>, ProxyError>(
                            ArtifactLookup::Join(old(self)@.inflight[key@]),
                        )
                    } else if old(self)@.free_fetches == 0 {
                        r matches Err(e) && e.is(ErrorKind::WouldBlock, FETCHES_EXHAUSTED@)
                    } else {
                        r matches Ok(ArtifactLookup::Leader(leader)) && leader.leads(
                            key@,
                            old(self)@.next_lead,
                        )
                    }
                },
            },
    {
        if let Some(entry) = stored {
            return Ok(ArtifactLookup::Hit(entry));
        }
        if let Some(lead) = self.inflight.get(key) {
            return Ok(ArtifactLookup::Join(*lead));
        }
        match self.start(key) {
            Ok(lead) => Ok(
                ArtifactLookup::Leader(
                    ArtifactLeader { key: key.to_owned(), paths: CacheStore::paths_for(key), lead },
                ),
            ),
            Err(error) => Err(error),
        }
    }

    /// What a request for an artifact leads to, given the entry that the cache holds: the
    /// fetch under way before anything else, then the entry, then a fetch of its own where
    /// one is admitted.
    pub fn lookup_or_start_artifact<E>(&mut self, key: &str, stored: Option<E>) -> (r: Result<
        ArtifactLookup<E>,
        ProxyError,
    >)
        requires
            old(self).wf(),
            old(self)@.next_lead < u64::MAX,
            is_key(key@),
        ensures
            final(self).wf(),
            final(self)@ == old(self)@.looked_up(key@, stored is Some),
            match old(self)@.lookup(key@, stored is Some) {
                LookupView::Join(lead) => r == Ok::<ArtifactLookup<E>, ProxyError>(
                    ArtifactLookup::Join(lead),
                ),
                LookupView::Hit => r == Ok::<ArtifactLookup<E>, ProxyError>(
                    ArtifactLookup::Hit(stored->0),
                ),
                LookupView::Refused => r matches Err(e) && e.is(
                    ErrorKind::WouldBlock,
                    FETCHES_EXHAUSTED@,
                ),
                LookupView::Lead => r matches Ok(ArtifactLookup::Leader(leader)) && leader.leads(
                    key@,
                    old(self)@.next_lead,
                ),
            },
    {
        match self.begin_lookup(key) {
            LookupStep::Join(lead) => Ok(ArtifactLookup::Join(lead)),
            LookupStep::Load => self.end_lookup(key, stored),
        }
    }

    /// What a request for the header of an artifact leads to: the entry that the cache holds,
    /// or a request of its own where one is admitted. It joins no fetch.
    pub fn lookup_artifact_head<E>(&mut self, stored: Option<E>) -> (r: Result<
        HeadLookup<E>,
        ProxyError,
    >)
        requires
            old(self).wf(),
        ensures
            final(self).wf(),
            match stored {
                Some(entry) => r == Ok::<HeadLookup<E>, ProxyError>(HeadLookup::Hit(entry))
                    && final(self)@ == old(self)@,
                None => {
                    &&& final(self)@ == old(self)@.permitted()
                    &&& if old(self)@.free_fetches == 0 {
                        r matches Err(e) && e.is(ErrorKind::WouldBlock, FETCHES_EXHAUSTED@)
                    } else {
                        r matches Ok(HeadLookup::Forward)
                    }
                },
            },
    {
        match stored {
            Some(entry) => Ok(HeadLookup::Hit(entry)),
            None => match self.try_acquire_upstream_permit() {
                Ok(()) => Ok(HeadLookup::Forward),
                Err(error) => Err(error),
            },
        }
    }

    /// What a request for metadata leads to: the fetch under way, or a fetch of its own where
    /// one is admitted.
    pub fn lookup_or_start_metadata(&mut self, key: &str) -> (r: Result<MetadataLookup, ProxyError>)
        requires
            old(self).wf(),
            old(self)@.next_lead < u64::MAX,
        ensures
            final(self).wf(),
            final(self)@ == old(self)@.started(key@),
            if old(self)@.inflight.contains_key(key@) {
                r == Ok::<MetadataLookup, ProxyError>(
                    MetadataLookup::Join(old(self)@.inflight[key@]),
                )
            } else if old(self)@.free_fetches == 0 {
                r matches Err(e) && e.is(ErrorKind::WouldBlock, FETCHES_EXHAUSTED@)
            } else {
                r matches Ok(MetadataLookup::Leader(leader)) && leader.key@ == key@ && leader.lead
                    == old(self)@.next_lead
            },
    {
        if let Some(lead) = self.inflight.get(key) {
            return Ok(MetadataLookup::Join(*lead));
        }
        match self.start(key) {
            Ok(lead) => Ok(MetadataLookup::Leader(MetadataLeader { key: key.to_owned(), lead })),
            Err(error) => Err(error),
        }
    }

    /// Begins a fetch where one is admitted, and gives its number.
    fn start(&mut self, key: &str) -> (r: Result<u64, ProxyError>)
        requires
            old(self).wf(),
            old(self)@.next_lead < u64::MAX,
            !old(self)@.inflight.contains_key(key@),
        ensures
            final(self).wf(),
            final(self)@ == old(self)@.started(key@),
            r is Ok == (old(self)@.free_fetches > 0),
            r matches Ok(lead) ==> lead == old(self)@.next_lead,
            r matches Err(e) ==> e.is(ErrorKind::WouldBlock, FETCHES_EXHAUSTED@),
    {
        match self.try_acquire_upstream_permit() {
            Ok(()) => {
                let lead: u64 = self.next_lead;
                self.next_lead = lead + 1;
                self.inflight.insert(key.to_owned(), lead);
                Ok(lead)
            },
            Err(error) => Err(error),
        }
    }

    /// Admits one more fetch, where the capacity is not exhausted.
    pub fn try_acquire_upstream_permit(&mut self) -> (r: Result<(), ProxyError>)
        requires
            old(self).wf(),
        ensures
            final(self).wf(),
            final(self)@ == old(self)@.permitted(),
            if old(self)@.free_fetches > 0 {
                r is Ok
            } else {
                r matches Err(e) && e.is(ErrorKind::WouldBlock, FETCHES_EXHAUSTED@)
            },
    {
        if self.fetches.try_acquire(1) {
            Ok(())
        } else {
            Err(ProxyError::new(ErrorKind::WouldBlock, FETCHES_EXHAUSTED))
        }
    }

    /// Notes that an admitted fetch is over.
    pub fn release_upstream_permit(&mut self)
        requires
            old(self).wf(),
            old(self)@.free_fetches < old(self)@.fetch_capacity,
        ensures
            final(self).wf(),
            final(self)@ == old(self)@.released(),
    {
        self.fetches.release(1);
    }

    /// Notes that no fetch of `key` is under way any more.
    pub fn finish_inflight(&mut self, key: &str)
        requires
            old(self).wf(),
        ensures
            final(self).wf(),
            final(self)@ == old(self)@.finished(key@),
    {
        self.inflight.remove(key);
    }

    /// Notes that the lead of `key` with the number is over. A lead that is over already, or is
    /// not the one of the key, changes nothing.
    pub fn finish_lead(&mut self, key: &str, lead: u64)
        requires
            old(self).wf(),
        ensures
            final(self).wf(),
            final(self)@ == old(self)@.concluded(key@, lead),
    {
        let is_its_own = match self.inflight.get(key) {
            Some(n) => *n == lead,
            None => false,
        };
        if is_its_own {
            self.finish_inflight(key);
        }
    }

    /// Tells whether there is a number left for one more pin.
    pub fn can_pin(&self) -> (r: bool)
        ensures
            r == (self@.next_pin < u64::MAX),
    {
        self.next_pin < u64::MAX
    }

    /// Pins an entry that is about to be published. A pin that the key had before is taken
    /// over.
    pub fn pin(&mut self, key: &str) -> (r: PublishedEntry)
        requires
            old(self).wf(),
            old(self)@.next_pin < u64::MAX,
        ensures
            final(self).wf(),
            r.key() == key@,
            r.pin() == old(self)@.next_pin,
            final(self)@ == old(self)@.pinned(key@),
    {
        let pin: u64 = self.next_pin;
        self.next_pin = pin + 1;
        self.pins.insert(key.to_owned(), pin);
        PublishedEntry { key: key.to_owned(), pin }
    }

    /// Drops the pin of a published entry, and tells whether entries may now have to leave:
    /// not where another publication of the key has taken the pin over.
    pub fn unpin(&mut self, entry: &PublishedEntry) -> (r: bool)
        requires
            old(self).wf(),
        ensures
            final(self).wf(),
            r == old(self)@.is_pinned_by(entry.key(), entry.pin()),
            final(self)@ == old(self)@.unpinned(entry.key(), entry.pin()),
    {
        let owns = match self.pins.get(entry.key.as_str()) {
            Some(pin) => *pin == entry.pin,
            None => false,
        };
        if owns {
            self.pins.remove(entry.key.as_str());
        }
        owns
    }

    /// Tells whether an entry is pinned.
    pub fn is_pinned(&self, key: &str) -> (r: bool)
        requires
            self.wf(),
        ensures
            r == self@.pins.contains_key(key@),
    {
        self.pins.contains_key(key)
    }

    /// The pins, for a pass of eviction.
    pub fn pins(&self) -> (r: &TextMap<u64>)
        requires
            self.wf(),
        ensures
            r.wf(),
            r@ == self@.pins,
    {
        &self.pins
    }

    /// The bound of the cache in bytes.
    pub fn max_cache_size(&self) -> (r: u64)
        ensures
            r == self@.bound,
    {
        self.max_cache_size
    }

    /// A reservation of nothing yet.
    pub fn metadata_memory_reservation() -> (r: MetadataMemoryReservation)
        ensures
            r.held() == 0,
    {
        MetadataMemoryReservation { held: 0 }
    }
}

impl MetadataMemoryReservation {
    /// The units that are held.
    pub closed spec fn held(&self) -> nat {
        self.held as nat
    }

    /// Holds enough for `bytes` bytes, where so much is free.
    ///
    /// What is held already counts and is never given up; what is refused changes nothing.
    pub fn reserve(&mut self, store: &mut CacheStore, bytes: usize) -> (r: Result<(), ProxyError>)
        requires
            old(store).wf(),
        ensures
            final(store).wf(),
            ({
                let more = units(bytes as int) - old(self).held();
                if more <= 0 {
                    r is Ok && final(self).held() == old(self).held() && final(store)@ == old(store)@
                } else if more <= old(store)@.free_memory && more <= u32::MAX {
                    r is Ok && final(self).held() == units(bytes as int) && final(store)@ == (
                    CacheView {
                        free_memory: (old(store)@.free_memory - more) as nat,
                        ..old(store)@
                    })
                } else {
                    r matches Err(e) && e.is(ErrorKind::WouldBlock, MEMORY_EXHAUSTED@) && final(self).held() == old(self).held() && final(store)@ == old(store)@
                }
            }),
    {
        let whole: usize = bytes / MIB;
        let required: usize = if bytes == 0 {
            1
        } else if bytes % MIB == 0 {
            whole
        } else {
            whole + 1
        };
        proof {
            assert(required == units(bytes as int));
        }
        if required <= self.held {
            return Ok(());
        }
        let additional: usize = required - self.held;
        if additional as u64 > 0xffff_ffff || !store.memory.try_acquire(additional) {
            return Err(ProxyError::new(ErrorKind::WouldBlock, MEMORY_EXHAUSTED));
        }
        self.held = required;
        Ok(())
    }

    /// Gives everything back that is held.
    pub fn release(self, store: &mut CacheStore)
        requires
            old(store).wf(),
            self.held() <= old(store)@.memory_capacity - old(store)@.free_memory,
        ensures
            final(store).wf(),
            final(store)@ == (CacheView {
                free_memory: old(store)@.free_memory + self.held(),
                ..old(store)@
            }),
    {
        store.memory.release(self.held);
    }
}

// ---------------------------------------------------------------------------
// Laws
// ---------------------------------------------------------------------------

/// The first outcome of a fetch is its outcome, whatever is attempted afterwards.
pub proof fn first_outcome_wins<P, B>(
    first: InflightOutcome<P, B>,
    second: InflightOutcome<P, B>,
)
    ensures
        Inflight::completed(Inflight::completed(None, first), second) == Some(first),
{
}

/// A key has one leader at a time: once a lead is given, every further request for the key
/// joins and changes nothing until the fetch is finished, whether or not an entry is stored
/// by then.
pub proof fn one_leader_per_key(state: CacheView, key: Seq<char>, stored: bool)
    requires
        state.admits(key),
    ensures
        !state.started(key).admits(key),
        state.started(key).inflight.contains_key(key),
        state.started(key).started(key) == state.started(key),
        state.looked_up(key, false) == state.started(key),
        state.started(key).lookup(key, stored) == LookupView::Join(state.next_lead as u64),
        state.started(key).looked_up(key, stored) == state.started(key),
{
}

/// A lead is given only for what is neither stored nor being fetched, and only a lead leaves a
/// trace.
pub proof fn stored_entries_are_not_fetched(state: CacheView, key: Seq<char>)
    ensures
        state.looked_up(key, true) == state,
        state.lookup(key, true) is Hit <==> !state.inflight.contains_key(key),
        state.lookup(key, false) is Lead <==> state.admits(key),
        state.looked_up(key, false) == state.started(key),
{
}

/// A refused request leaves no trace, and a request for another key neither starts nor ends
/// the fetch of this one.
pub proof fn requests_do_not_interfere(state: CacheView, key: Seq<char>, other: Seq<char>)
    ensures
        !state.admits(key) ==> state.started(key) == state,
        key != other ==> (state.started(other).inflight.contains_key(key)
            <==> state.inflight.contains_key(key)),
        key != other && state.inflight.contains_key(key) ==> state.started(other).inflight[key]
            == state.inflight[key],
        state.started(key).pins == state.pins,
        state.started(key).free_memory == state.free_memory,
{
}

/// What is being led never exceeds the capacity: every lead takes one of the permits that are
/// free, and there is none to take when none is.
pub proof fn leads_are_bounded(state: CacheView, key: Seq<char>)
    requires
        state.free_fetches <= state.fetch_capacity,
    ensures
        state.started(key).free_fetches <= state.fetch_capacity,
        state.started(key).inflight != state.inflight ==> state.started(key).free_fetches + 1
            == state.free_fetches,
{
}

/// What happens to the admission of fetches.
pub enum Admission {
    /// A request for the key that finds nothing stored.
    Request(Seq<char>),
    /// A request that is not shared with others.
    Permit,
    /// The end of the fetch of the key.
    Finish(Seq<char>),
    /// The end of an admitted fetch.
    Release,
}

/// The state after such a thing happened.
pub open spec fn admission(before: CacheView, step: Admission) -> CacheView {
    match step {
        Admission::Request(key) => before.started(key),
        Admission::Permit => before.permitted(),
        Admission::Finish(key) => before.finished(key),
        Admission::Release => before.released(),
    }
}

/// The state after the given things happened.
pub open spec fn admissions(start: CacheView, steps: Seq<Admission>) -> CacheView
    decreases steps.len(),
{
    if steps.len() == 0 {
        start
    } else {
        admission(admissions(start, steps.drop_last()), steps.last())
    }
}

/// How many fetches are admitted and not over.
pub open spec fn admitted(start: CacheView, steps: Seq<Admission>) -> int
    decreases steps.len(),
{
    if steps.len() == 0 {
        0
    } else {
        let before = admissions(start, steps.drop_last());
        admitted(start, steps.drop_last()) + match steps.last() {
            Admission::Request(key) => if before.admits(key) {
                1int
            } else {
                0
            },
            Admission::Permit => if before.free_fetches > 0 {
                1int
            } else {
                0
            },
            Admission::Finish(_) => 0,
            Admission::Release => -1,
        }
    }
}

/// Nothing is over that was not admitted.
pub open spec fn releases_are_due(start: CacheView, steps: Seq<Admission>) -> bool {
    forall|i: int|
        0 <= i < steps.len() && steps[i] is Release ==> admitted(start, #[trigger] steps.take(i))
            > 0
}

/// Whatever happens in whatever order, no more fetches are under way together than the
/// capacity: leads for artifacts and metadata and unshared requests all count.
pub proof fn admitted_work_is_bounded(start: CacheView, steps: Seq<Admission>)
    requires
        start.free_fetches == start.fetch_capacity,
        releases_are_due(start, steps),
    ensures
        0 <= admitted(start, steps) <= start.fetch_capacity,
        admissions(start, steps).free_fetches + admitted(start, steps) == start.fetch_capacity,
        admissions(start, steps).fetch_capacity == start.fetch_capacity,
    decreases steps.len(),
{
    if steps.len() > 0 {
        let init = steps.drop_last();
        let n = init.len() as int;
        assert(steps.take(n) =~= init);
        assert forall|i: int| 0 <= i < init.len() && init[i] is Release implies admitted(
            start,
            #[trigger] init.take(i),
        ) > 0 by {
            assert(init.take(i) =~= steps.take(i));
            assert(steps[i] is Release);
        }
        admitted_work_is_bounded(start, init);
        if steps[n] is Release {
            assert(admitted(start, steps.take(n)) > 0);
        }
    }
}

/// A key that is being fetched has no second leader, whatever happens meanwhile: until its own
/// fetch is finished, every request for it joins that very fetch, whether or not an entry is
/// stored by then.
pub proof fn led_keys_are_joined_until_finished(
    start: CacheView,
    steps: Seq<Admission>,
    key: Seq<char>,
    stored: bool,
)
    requires
        start.inflight.contains_key(key),
        forall|i: int| 0 <= i < steps.len() ==> #[trigger] steps[i] != Admission::Finish(key),
    ensures
        admissions(start, steps).is_led_by(key, start.inflight[key]),
        admissions(start, steps).lookup(key, stored) == LookupView::Join(start.inflight[key]),
        admissions(start, steps).looked_up(key, stored) == admissions(start, steps),
        admissions(start, steps).started(key) == admissions(start, steps),
    decreases steps.len(),
{
    if steps.len() > 0 {
        let init = steps.drop_last();
        assert forall|i: int| 0 <= i < init.len() implies #[trigger] init[i] != Admission::Finish(
            key,
        ) by {
            assert(init[i] == steps[i]);
        }
        led_keys_are_joined_until_finished(start, init, key, stored);
        assert(steps[steps.len() - 1] != Admission::Finish(key));
    }
}

/// A pin outlives every older one of its key: dropping an older pin neither removes it nor
/// asks for eviction, and dropping it leaves the key without a pin.
pub proof fn newer_pins_outlive_older(state: CacheView, key: Seq<char>, older: u64)
    requires
        older < state.next_pin < u64::MAX,
    ensures
        !state.pinned(key).is_pinned_by(key, older),
        state.pinned(key).unpinned(key, older) == state.pinned(key),
        !state.pinned(key).unpinned(key, state.next_pin as u64).pins.contains_key(key),
{
}

/// The files of a key carry names that the cache takes for its own: the shard is the first
/// two characters, a complete entry is named by its key, and both temporary names are
/// recognised as such.
pub proof fn file_names_are_recognised(key: Seq<char>, counter: nat)
    requires
        is_key(key),
    ensures
        is_char_boundary(encode_utf8(key), 2),
        shard_of(key) == key.take(2),
        is_key_of(key, shard_of(key)),
        is_temp_name(key + ".part"@, key),
        is_temp_name(key + ".part"@ + "."@ + decimal(counter) + ".part"@, key),
{
    assert(is_ascii_chars(key)) by {
        assert forall|i: int| 0 <= i < key.len() implies '\0' <= #[trigger] key[i]
            <= '\u{7f}' by {
            assert(crate::keys::is_hex_char(key[i]));
        }
    }
    is_ascii_chars_encode_utf8(key);
    let b = encode_utf8(key);
    encode_utf8_valid_utf8(key);
    assert(b[1] < 128);
    crate::text::lemma_ascii_boundaries(b, 1);
    let head = key.take(2);
    assert(is_ascii_chars(head));
    is_ascii_chars_encode_utf8(head);
    assert(encode_utf8(head) =~= b.subrange(0, 2));
    encode_utf8_decode_utf8(head);
    assert(shard_of(key) =~= head);
    assert(head =~= key.subrange(0, 2));
    lemma_decimal_is_number(counter);
    assert(numbered_temp_name(key, decimal(counter)) == key + ".part"@ + "."@ + decimal(counter)
        + ".part"@);
}

proof fn lemma_decimal_is_number(n: nat)
    ensures
        is_number(decimal(n)),
    decreases n,
{
    if n >= 10 {
        lemma_decimal_is_number(n / 10);
        let head = decimal(n / 10);
        let all = decimal(n);
        assert forall|i: int| 0 <= i < all.len() implies is_digit(#[trigger] all[i]) by {
            if i < head.len() {
                assert(all[i] == head[i]);
            }
        }
    }
}

/// What a lead, a permit, their ends, and pins change, and that they change nothing else. A lead
/// enters the key under a number that no lead had and takes a permit; a permit alone enters
/// nothing; an end gives back what was taken.
pub proof fn leads_and_permits_change_one_thing(state: CacheView, key: Seq<char>, pin: u64)
    ensures
        !state.inflight.contains_key(key) && state.free_fetches > 0 ==> state.started(key) == (
        CacheView {
            inflight: state.inflight.insert(key, state.next_lead as u64),
            next_lead: state.next_lead + 1,
            free_fetches: (state.free_fetches - 1) as nat,
            ..state
        }),
        state.inflight.contains_key(key) || state.free_fetches == 0 ==> state.started(key) == state,
        state.free_fetches > 0 ==> state.permitted() == (CacheView {
            free_fetches: (state.free_fetches - 1) as nat,
            ..state
        }),
        state.free_fetches == 0 ==> state.permitted() == state,
        state.released() == (CacheView { free_fetches: state.free_fetches + 1, ..state }),
        state.finished(key) == (CacheView { inflight: state.inflight.remove(key), ..state }),
        state.pinned(key) == (CacheView {
            pins: state.pins.insert(key, state.next_pin as u64),
            next_pin: state.next_pin + 1,
            ..state
        }),
        state.pins.contains_key(key) && state.pins[key] == pin ==> state.unpinned(key, pin) == (
        CacheView { pins: state.pins.remove(key), ..state }),
        !state.pins.contains_key(key) || state.pins[key] != pin ==> state.unpinned(key, pin)
            == state,
        state.is_pinned_by(key, pin) <==> state.pins.contains_key(key) && state.pins[key] == pin,
        state.admits(key) <==> !state.inflight.contains_key(key) && state.free_fetches > 0,
{
}

/// What a request for an artifact leads to: the fetch of its key where there is one, then the
/// entry that is stored, then a fetch of its own where one is admitted.
pub proof fn requests_join_before_they_read_before_they_fetch(
    state: CacheView,
    key: Seq<char>,
    stored: bool,
)
    ensures
        state.inflight.contains_key(key) ==> state.lookup(key, stored) == LookupView::Join(
            state.inflight[key],
        ),
        !state.inflight.contains_key(key) ==> state.lookup(key, true) is Hit,
        !state.inflight.contains_key(key) && state.free_fetches > 0 ==> state.lookup(key, false)
            is Lead,
        !state.inflight.contains_key(key) && state.free_fetches == 0 ==> state.lookup(key, false)
            is Refused,
        state.lookup(key, stored) is Lead ==> state.looked_up(key, stored) == state.started(key),
        !(state.lookup(key, stored) is Lead) ==> state.looked_up(key, stored) == state,
{
}

/// The files of an entry: in the directory that is named by the first two characters of its key,
/// under the key, and with `.part` behind it while it is being written, and there a number.
pub proof fn entries_lie_in_the_shard_of_their_key(key: Seq<char>, number: u64)
    requires
        is_key(key),
    ensures
        body_path(key) == key.take(2) + "/"@ + key,
        temp_path(key) == key.take(2) + "/"@ + key + ".part"@,
        numbered_temp_path(key, number) == key.take(2) + "/"@ + key + ".part."@ + decimal(
            number as nat,
        ) + ".part"@,
{
    file_names_are_recognised(key, number as nat);
    reveal_strlit(".part.");
    reveal_strlit(".part");
    reveal_strlit(".");
    assert(".part."@ =~= ".part"@ + "."@);
    assert(numbered_temp_path(key, number) =~= key.take(2) + "/"@ + key + ".part."@ + decimal(
        number as nat,
    ) + ".part"@);
}

/// Memory is counted in whole units of one MiB, no more of them than it takes, and at least one;
/// there are 1024.
pub proof fn memory_is_counted_in_whole_units(bytes: int)
    ensures
        units(bytes) >= 1,
        bytes > 0 ==> (units(bytes) - 1) * 1048576 < bytes <= units(bytes) * 1048576,
        bytes <= 0 ==> units(bytes) == 1,
        METADATA_MEMORY_BUDGET_MIB == 1024,
        FETCHES_EXHAUSTED@ == "upstream capacity exhausted"@,
        MEMORY_EXHAUSTED@ == "metadata memory capacity exhausted"@,
{
}

/// What is shown of a stored response is what it holds.
pub proof fn responses_show_what_they_hold(meta: StoredResponseMeta, i: int)
    ensures
        meta@.headers.len() == meta.headers@.len(),
        0 <= i < meta.headers@.len() ==> meta@.headers[i] == (
            meta.headers@[i].0@,
            meta.headers@[i].1@,
        ),
        meta@.status == meta.status,
        meta.etag matches Some(tag) ==> meta@.etag == Some(tag@),
        meta.etag is None ==> meta@.etag is None,
        meta.last_modified matches Some(time) ==> meta@.last_modified == Some(time@),
        meta.last_modified is None ==> meta@.last_modified is None,
{
}

/// An outcome stays: the first one completes a fetch, and no later one replaces it.
pub proof fn outcomes_stay<P, B>(first: InflightOutcome<P, B>, later: InflightOutcome<P, B>)
    ensures
        Inflight::completed(None, first) == Some(first),
        Inflight::completed(Some(first), later) == Some(first),
{
}

/// A leader fetches the artifact of its key, to the files of that key, under the number that it was
/// given; and a lead that is over ends nobody else's.
pub proof fn leaders_fetch_for_their_key(
    leader: ArtifactLeader,
    state: CacheView,
    key: Seq<char>,
    lead: u64,
)
    ensures
        leader.leads(key, lead as int) <==> leader.key@ == key && leader.lead == lead
            && leader.paths.body@ == body_path(key) && leader.paths.temp@ == temp_path(key),
        state.is_led_by(key, lead) <==> state.inflight.contains_key(key) && state.inflight[key]
            == lead,
        state.inflight.contains_key(key) && state.inflight[key] == lead ==> state.concluded(
            key,
            lead,
        ) == (CacheView { inflight: state.inflight.remove(key), ..state }),
        !state.inflight.contains_key(key) || state.inflight[key] != lead ==> state.concluded(
            key,
            lead,
        ) == state,
{
}

} // verus!
