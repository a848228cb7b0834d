//! The steps of a metadata fetch: look at what is stored, ask upstream whether it still holds,
//! and serve either that or what upstream sends.
use crate::cache::{
    pairs_view, units, CacheStore, MetaView, MetadataMemoryReservation,
    StoredResponseMeta, MEMORY_EXHAUSTED,
};
use crate::error::{ErrorKind, ProxyError};
use crate::http::{headers_view, Header};
use crate::meta::{conditional_headers, conditions, each_validator_is_asked_with};
use crate::proxy::{
    can_reserve, finish_metadata, held_for, is_publishable, metadata_next, reserved, served_body,
    served_meta, usable_entry, FinishedMetadata, MetadataBody, MetadataNext, MetadataRewrite,
    METADATA_LIMIT,
};
use crate::rewrite::MAX_METADATA_BODY_LEN;
use crate::routes::RegistryOrigins;
use vstd::prelude::*;
use vstd::string::*;

verus! {

/// What a metadata fetch is waiting for.
#[derive(Clone, Copy, Debug, PartialEq, Eq, Structural)]
pub enum MetadataStage {
    Load,
    Answer,
    EntryBody,
    Body,
    Rewrite,
    Over,
}

/// A stored response and the length of its body.
#[derive(Debug)]
pub struct StoredMetadata {
    pub meta: StoredResponseMeta,
    pub body_len: u64,
}

/// What is read after upstream answered.
#[derive(Clone, Copy, Debug, PartialEq, Eq, Structural)]
pub enum MetadataStep {
    /// The stored body.
    ReadEntry,
    /// The body that upstream sends.
    ReadBody,
}

/// A metadata fetch under way.
#[derive(Debug)]
pub struct MetadataFetch {
    stage: MetadataStage,
    rewrite: MetadataRewrite,
    entry: Option<StoredMetadata>,
    status: u16,
    headers: Vec<Header>,
    body: Option<MetadataBody>,
    bytes: Vec<u8>,
    reservation: MetadataMemoryReservation,
}

/// The model of a metadata fetch: what it waits for, what of the store can be reused, what
/// upstream answered, what has come of the body, and the units of memory that it holds.
#[verifier::ext_equal]
pub struct MetadataFetchView {
    pub stage: MetadataStage,
    pub rewrite: MetadataRewrite,
    pub entry: Option<(MetaView, u64)>,
    pub status: u16,
    pub headers: Seq<(Seq<char>, Seq<u8>)>,
    pub bytes: Seq<u8>,
    pub held: nat,
}

/// The view of a stored response.
pub open spec fn entry_view(entry: Option<StoredMetadata>) -> Option<(MetaView, u64)> {
    match entry {
        Some(e) => Some((e.meta@, e.body_len)),
        None => None,
    }
}

/// The stored response, where it is small enough to be served from memory.
pub open spec fn usable(entry: Option<(MetaView, u64)>) -> Option<(MetaView, u64)> {
    match entry {
        Some((meta, body_len)) => if body_len <= MAX_METADATA_BODY_LEN {
            entry
        } else {
            None
        },
        None => None,
    }
}

/// The fields that upstream is asked with.
pub open spec fn asked_with(entry: Option<(MetaView, u64)>) -> Seq<(Seq<char>, Seq<char>)> {
    match entry {
        Some((meta, _)) => conditions(meta),
        None => Seq::empty(),
    }
}

/// The bytes that memory is reserved for once upstream has answered: those of the stored body
/// where it still holds, otherwise those that upstream announces.
pub open spec fn expected_bytes(
    entry: Option<(MetaView, u64)>,
    status: u16,
    content_length: Option<u64>,
) -> int {
    match entry {
        Some((_, body_len)) => if status == 304 {
            body_len as int
        } else {
            announced(content_length)
        },
        None => announced(content_length),
    }
}

/// The length that upstream announces, or none.
pub open spec fn announced(content_length: Option<u64>) -> int {
    match content_length {
        Some(n) => n as int,
        None => 0,
    }
}

impl View for MetadataFetch {
    type V = MetadataFetchView;

    closed spec fn view(&self) -> MetadataFetchView {
        MetadataFetchView {
            stage: self.stage,
            rewrite: self.rewrite,
            entry: entry_view(self.entry),
            status: self.status,
            headers: headers_view(self.headers@),
            bytes: match self.body {
                Some(b) => b.bytes(),
                None => self.bytes@,
            },
            held: match self.body {
                Some(b) => b.held(),
                None => self.reservation.held(),
            },
        }
    }
}

impl MetadataFetch {
    /// A body is being read exactly while the fetch waits for one, nothing is held beside it
    /// meanwhile, and what can be reused is small enough.
    pub closed spec fn wf(&self) -> bool {
        &&& self.body is Some <==> self.stage is Body
        &&& self.body matches Some(b) ==> b.wf()
        &&& self.body is Some ==> self.bytes@.len() == 0 && self.reservation.held() == 0
        &&& entry_view(self.entry) == usable(entry_view(self.entry))
    }

    /// Begins a fetch: what is stored is looked for.
    pub fn new(rewrite: MetadataRewrite) -> (r: MetadataFetch)
        ensures
            r.wf(),
            r@ == (MetadataFetchView {
                stage: MetadataStage::Load,
                rewrite,
                entry: None,
                status: 0,
                headers: Seq::empty(),
                bytes: Seq::empty(),
                held: 0,
            }),
    {
        let r = MetadataFetch {
            stage: MetadataStage::Load,
            rewrite,
            entry: None,
            status: 0,
            headers: Vec::new(),
            body: None,
            bytes: Vec::new(),
            reservation: CacheStore::metadata_memory_reservation(),
        };
        proof {
            assert(r@.headers =~= Seq::<(Seq<char>, Seq<u8>)>::empty());
        }
        r
    }

    /// What the fetch waits for.
    pub fn stage(&self) -> (r: MetadataStage)
        ensures
            r == self@.stage,
    {
        self.stage
    }

    /// Takes note of what is stored, and says with which fields upstream is asked.
    pub fn loaded(&mut self, entry: Option<StoredMetadata>) -> (r: Vec<(String, String)>)
        requires
            old(self).wf(),
            old(self)@.stage is Load,
        ensures
            final(self).wf(),
            final(self)@ == (MetadataFetchView {
                stage: MetadataStage::Answer,
                entry: usable(entry_view(entry)),
                ..old(self)@
            }),
            pairs_view(r@) == asked_with(usable(entry_view(entry))),
    {
        self.stage = MetadataStage::Answer;
        self.entry = match entry {
            Some(e) => if usable_entry(e.body_len) {
                Some(e)
            } else {
                None
            },
            None => None,
        };
        match &self.entry {
            Some(e) => conditional_headers(&e.meta),
            None => {
                let none: Vec<(String, String)> = Vec::new();
                proof {
                    assert(pairs_view(none@) =~= Seq::<(Seq<char>, Seq<char>)>::empty());
                }
                none
            },
        }
    }

    /// Takes note of what upstream answered. The stored body is read where it still holds,
    /// otherwise the body that upstream sends; memory for either has to be free.
    pub fn answered(
        &mut self,
        store: &mut CacheStore,
        status: u16,
        headers: Vec<Header>,
        content_length: Option<u64>,
    ) -> (r: Result<MetadataStep, ProxyError>)
        requires
            old(self).wf(),
            old(self)@.stage is Answer,
            old(self)@.held == 0,
            old(self)@.bytes.len() == 0,
            old(store).wf(),
        ensures
            final(self).wf(),
            final(store).wf(),
            ({
                let reuse = status == 304 && old(self)@.entry is Some;
                let expected = expected_bytes(old(self)@.entry, status, content_length);
                let noted = MetadataFetchView {
                    status,
                    headers: headers_view(headers@),
                    ..old(self)@
                };
                if !reuse && expected > MAX_METADATA_BODY_LEN {
                    &&& r matches Err(e) && e.is(ErrorKind::InvalidData, METADATA_LIMIT@)
                    &&& final(self)@ == (MetadataFetchView { stage: MetadataStage::Over, ..noted })
                    &&& final(store)@ == old(store)@
                } else if can_reserve(old(store)@, 0, expected) {
                    &&& r == Ok::<MetadataStep, ProxyError>(
                        if reuse {
                            MetadataStep::ReadEntry
                        } else {
                            MetadataStep::ReadBody
                        },
                    )
                    &&& final(self)@ == (MetadataFetchView {
                        stage: if reuse {
                            MetadataStage::EntryBody
                        } else {
                            MetadataStage::Body
                        },
                        held: units(expected) as nat,
                        ..noted
                    })
                    &&& final(store)@ == reserved(old(store)@, 0, expected)
                } else {
                    &&& r matches Err(e) && e.is(ErrorKind::WouldBlock, MEMORY_EXHAUSTED@)
                    &&& final(self)@ == (MetadataFetchView { stage: MetadataStage::Over, ..noted })
                    &&& final(store)@ == old(store)@
                }
            }),
    {
        self.status = status;
        self.headers = headers;
        let body_len: u64 = match &self.entry {
            Some(e) => e.body_len,
            None => 0,
        };
        match metadata_next(status, self.entry.is_some()) {
            MetadataNext::Reuse => match self.reservation.reserve(store, body_len as usize) {
                Ok(()) => {
                    self.stage = MetadataStage::EntryBody;
                    proof {
                        assert(self@.bytes =~= old(self)@.bytes);
                    }
                    Ok(MetadataStep::ReadEntry)
                },
                Err(error) => {
                    self.stage = MetadataStage::Over;
                    Err(error)
                },
            },
            MetadataNext::Finish => match MetadataBody::start(store, content_length) {
                Ok(body) => {
                    self.stage = MetadataStage::Body;
                    self.body = Some(body);
                    proof {
                        assert(self@.bytes =~= old(self)@.bytes);
                    }
                    Ok(MetadataStep::ReadBody)
                },
                Err(error) => {
                    self.stage = MetadataStage::Over;
                    Err(error)
                },
            },
        }
    }

    /// Takes a chunk of the body: it has to fit, and memory for it has to be free.
    pub fn chunk(&mut self, store: &mut CacheStore, chunk: &[u8]) -> (r: Result<(), ProxyError>)
        requires
            old(self).wf(),
            old(self)@.stage is Body,
            old(store).wf(),
        ensures
            final(self).wf(),
            final(store).wf(),
            ({
                let length = (old(self)@.bytes.len() + chunk@.len()) as int;
                let held = old(self)@.held as int;
                if length > MAX_METADATA_BODY_LEN {
                    &&& r matches Err(e) && e.is(ErrorKind::InvalidData, METADATA_LIMIT@)
                    &&& final(self)@ == old(self)@
                    &&& final(store)@ == old(store)@
                } else if can_reserve(old(store)@, held, length) {
                    &&& r is Ok
                    &&& final(self)@ == (MetadataFetchView {
                        bytes: old(self)@.bytes + chunk@,
                        held: held_for(held, length) as nat,
                        ..old(self)@
                    })
                    &&& final(store)@ == reserved(old(store)@, held, length)
                } else {
                    &&& r matches Err(e) && e.is(ErrorKind::WouldBlock, MEMORY_EXHAUSTED@)
                    &&& final(self)@ == old(self)@
                    &&& final(store)@ == old(store)@
                }
            }),
    {
        match self.body.take() {
            Some(mut body) => {
                let r = body.push(store, chunk);
                self.body = Some(body);
                r
            },
            None => Ok(()),
        }
    }

    /// Takes note that the whole body has come. Memory for rewriting it has to be free.
    pub fn ended(&mut self, store: &mut CacheStore) -> (r: Result<(), ProxyError>)
        requires
            old(self).wf(),
            old(self)@.stage is Body,
            old(store).wf(),
        ensures
            final(self).wf(),
            final(store).wf(),
            ({
                let length = old(self)@.bytes.len() as int;
                let rewrite = old(self)@.rewrite;
                let memory = rewrite.memory(length, rewrite.bound(length));
                let held = old(self)@.held as int;
                if can_reserve(old(store)@, held, memory) {
                    &&& r is Ok
                    &&& final(self)@ == (MetadataFetchView {
                        stage: MetadataStage::Rewrite,
                        held: held_for(held, memory) as nat,
                        ..old(self)@
                    })
                    &&& final(store)@ == reserved(old(store)@, held, memory)
                } else {
                    &&& r matches Err(e) && e.is(ErrorKind::WouldBlock, MEMORY_EXHAUSTED@)
                    &&& final(self)@ == (MetadataFetchView {
                        stage: MetadataStage::Over,
                        ..old(self)@
                    })
                    &&& final(store)@ == old(store)@
                }
            }),
    {
        if let Some(body) = self.body.take() {
            let (bytes, reservation) = body.finish();
            self.bytes = bytes;
            self.reservation = reservation;
        }
        let length: usize = self.bytes.len();
        let memory: usize = self.rewrite.working_set(length, self.rewrite.output_bound(length));
        match self.reservation.reserve(store, memory) {
            Ok(()) => {
                self.stage = MetadataStage::Rewrite;
                Ok(())
            },
            Err(error) => {
                self.stage = MetadataStage::Over;
                Err(error)
            },
        }
    }

    /// Makes what is served, and perhaps stored, of the body.
    pub fn finished(&mut self, upstreams: &RegistryOrigins) -> (r: Result<
        FinishedMetadata,
        ProxyError,
    >)
        requires
            old(self).wf(),
            old(self)@.stage is Rewrite,
        ensures
            final(self).wf(),
            final(self)@ == (MetadataFetchView {
                stage: MetadataStage::Over,
                bytes: Seq::empty(),
                ..old(self)@
            }),
            match served_body(&old(self)@.rewrite, old(self)@.bytes, upstreams) {
                Ok(bytes) => r matches Ok(f) && f.body@ == bytes && f.meta@ == served_meta(
                    &old(self)@.rewrite,
                    old(self)@.status,
                    old(self)@.headers,
                    bytes.len() as int,
                ) && f.publish == is_publishable(f.meta@),
                Err((kind, message)) => r matches Err(e) && e.is(kind, message),
            },
    {
        self.stage = MetadataStage::Over;
        let mut body: Vec<u8> = Vec::new();
        std::mem::swap(&mut body, &mut self.bytes);
        proof {
            assert(self@.bytes =~= Seq::<u8>::empty());
        }
        finish_metadata(&self.rewrite, self.status, &self.headers, body, upstreams)
    }

    /// Makes what is served of the stored body, which still holds. It is stored already.
    pub fn reused(&mut self, body: Vec<u8>) -> (r: FinishedMetadata)
        requires
            old(self).wf(),
            old(self)@.stage is EntryBody,
            old(self)@.entry is Some,
        ensures
            final(self).wf(),
            final(self)@ == (MetadataFetchView { stage: MetadataStage::Over, ..old(self)@ }),
            r.body == body,
            r.meta@ == (old(self)@.entry->0).0,
            !r.publish,
    {
        self.stage = MetadataStage::Over;
        let meta = match &self.entry {
            Some(e) => e.meta.clone(),
            None => StoredResponseMeta {
                headers: Vec::new(),
                last_modified: None,
                etag: None,
                status: 0,
            },
        };
        FinishedMetadata { meta, body, publish: false }
    }

    /// The memory that the fetch holds, to be given back when what it was reserved for is no
    /// longer needed.
    pub fn into_reservation(self) -> (r: MetadataMemoryReservation)
        ensures
            r.held() == self@.held,
    {
        match self.body {
            Some(body) => body.finish().1,
            None => self.reservation,
        }
    }
}

// ---------------------------------------------------------------------------
// Laws
// ---------------------------------------------------------------------------

/// A stored response of up to 128 MiB is asked about, with each validator that it has; upstream is
/// asked without a condition where there is none, or a larger one.
pub proof fn stored_responses_are_asked_about(meta: MetaView, body_len: u64)
    ensures
        usable(None) is None,
        body_len <= 128 * 1024 * 1024 ==> usable(Some((meta, body_len))) == Some((meta, body_len)),
        body_len > 128 * 1024 * 1024 ==> usable(Some((meta, body_len))) is None,
        asked_with(None).len() == 0,
        asked_with(Some((meta, body_len))) == conditions(meta),
        meta.etag matches Some(tag) ==> asked_with(Some((meta, body_len))).contains(
            ("if-none-match"@, tag),
        ),
        meta.last_modified matches Some(time) ==> asked_with(Some((meta, body_len))).contains(
            ("if-modified-since"@, time),
        ),
{
    each_validator_is_asked_with(meta);
}

/// Memory is reserved for the stored body where upstream says that it still holds, and otherwise
/// for the length that upstream announces.
pub proof fn memory_is_reserved_for_what_is_read(
    meta: MetaView,
    body_len: u64,
    status: u16,
    length: u64,
)
    ensures
        expected_bytes(Some((meta, body_len)), 304, Some(length)) == body_len,
        status != 304 ==> expected_bytes(Some((meta, body_len)), status, Some(length)) == length,
        expected_bytes(None, status, Some(length)) == length,
        expected_bytes(None, status, None) == 0,
        status != 304 ==> expected_bytes(Some((meta, body_len)), status, None) == 0,
{
}

/// What is shown of a stored response is its header and the length of its body.
pub proof fn stored_responses_show_header_and_length(entry: StoredMetadata)
    ensures
        entry_view(Some(entry)) == Some((entry.meta@, entry.body_len)),
        entry_view(None) is None,
{
}

} // verus!
