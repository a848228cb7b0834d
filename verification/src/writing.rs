//! The steps of writing an entry: into a temporary file first, and from there to its place in
//! one step.
use crate::cache::{
    body_path, numbered_temp_path, temp_path, CacheStore, CacheView, PublishedEntry,
};
use crate::disk::{
    entry_files_are_distinct, entry_in, lemma_others_stay, lemma_renamed, lemma_stored_entry,
    lemma_with_file, lemma_without_entries, opened_entries_read_as_before, stored_entry, Disk,
};
use crate::error::{ErrorKind, ProxyError};
use crate::footer::{big_endian, meta_footer, packed, MAX_META_LEN};
use crate::keys::is_key;
use vstd::prelude::*;
use vstd::string::*;

verus! {

/// What is done next to write an entry.
#[derive(Clone, Copy, Debug, PartialEq, Eq, Structural)]
pub enum WriteAction {
    /// Write the body and what follows it to the temporary file.
    Write,
    /// Rename the temporary file to that of the entry.
    Publish,
    /// Evict entries until the bound is reached.
    Evict,
    /// The entry is written.
    Finish,
    /// Remove the temporary file and fail.
    Discard,
    /// Fail; the entry is written all the same.
    Fail,
}

/// The writing of an entry.
#[derive(Debug)]
pub struct EntryWrite {
    action: WriteAction,
    temp: String,
    target: String,
    trailer: Vec<u8>,
}

/// The model of the writing of an entry: what is done now, the temporary file, the file of the
/// entry, and what follows the body.
#[verifier::ext_equal]
pub struct WriteView {
    pub action: WriteAction,
    pub temp: Seq<char>,
    pub target: Seq<char>,
    pub trailer: Seq<u8>,
}

impl WriteView {
    /// The writing of an entry with the metadata `meta` that has just begun.
    pub open spec fn begun(key: Seq<char>, number: u64, meta: Seq<u8>) -> WriteView {
        WriteView {
            action: WriteAction::Write,
            temp: numbered_temp_path(key, number),
            target: body_path(key),
            trailer: meta + big_endian(meta.len() as int),
        }
    }

    /// Something is still being done.
    pub open spec fn is_going_on(self) -> bool {
        self.action is Write || self.action is Publish || self.action is Evict
    }

    /// The temporary file may be there.
    pub open spec fn owns_temp(self) -> bool {
        self.action is Write || self.action is Publish || self.action is Discard
    }

    /// What comes after the action, by whether it succeeded.
    pub open spec fn after(self, succeeded: bool) -> WriteView {
        let action = match self.action {
            WriteAction::Write => if succeeded {
                WriteAction::Publish
            } else {
                WriteAction::Discard
            },
            WriteAction::Publish => if succeeded {
                WriteAction::Evict
            } else {
                WriteAction::Discard
            },
            WriteAction::Evict => if succeeded {
                WriteAction::Finish
            } else {
                WriteAction::Fail
            },
            _ => self.action,
        };
        WriteView { action, ..self }
    }
}

impl View for EntryWrite {
    type V = WriteView;

    closed spec fn view(&self) -> WriteView {
        WriteView {
            action: self.action,
            temp: self.temp@,
            target: self.target@,
            trailer: self.trailer@,
        }
    }
}

impl EntryWrite {
    /// Begins to write an entry with the metadata `meta`. Metadata that is too large to be
    /// read again is refused before any file is touched.
    pub fn new(store: &mut CacheStore, key: &str, meta: Vec<u8>) -> (r: Result<
        EntryWrite,
        ProxyError,
    >)
        requires
            old(store).wf(),
            is_key(key@),
        ensures
            final(store).wf(),
            final(store)@ == (CacheView {
                temp_counter: old(store)@.temp_counter.wrapping_add(1),
                ..old(store)@
            }),
            if meta@.len() <= MAX_META_LEN {
                r matches Ok(write) && write@ == WriteView::begun(
                    key@,
                    old(store)@.temp_counter,
                    meta@,
                )
            } else {
                r matches Err(e) && e.is(ErrorKind::InvalidData, "metadata too large"@)
            },
    {
        let temp = store.unique_temp_path(key);
        let target = CacheStore::paths_for(key).body;
        let footer = match meta_footer(meta.as_slice()) {
            Ok(footer) => footer,
            Err(error) => return Err(error),
        };
        let ghost bytes = meta@;
        let mut trailer = meta;
        trailer.extend_from_slice(footer.as_slice());
        proof {
            assert(trailer@ =~= bytes + big_endian(bytes.len() as int));
        }
        Ok(EntryWrite { action: WriteAction::Write, temp, target, trailer })
    }

    /// What is done now.
    pub fn action(&self) -> (r: WriteAction)
        ensures
            r == self@.action,
    {
        self.action
    }

    /// The temporary file.
    pub fn temp(&self) -> (r: &str)
        ensures
            r@ == self@.temp,
    {
        self.temp.as_str()
    }

    /// The file of the entry.
    pub fn target(&self) -> (r: &str)
        ensures
            r@ == self@.target,
    {
        self.target.as_str()
    }

    /// What follows the body in the file.
    pub fn trailer(&self) -> (r: &[u8])
        ensures
            r@ == self@.trailer,
    {
        self.trailer.as_slice()
    }

    /// Tells whether the temporary file has to be removed when the writing goes no further.
    pub fn owns_temp(&self) -> (r: bool)
        ensures
            r == self@.owns_temp(),
    {
        matches!(self.action, WriteAction::Write | WriteAction::Publish | WriteAction::Discard)
    }

    /// Takes note of whether the action succeeded and says what is done next.
    pub fn step(&mut self, succeeded: bool) -> (r: WriteAction)
        ensures
            final(self)@ == old(self)@.after(succeeded),
            r == final(self)@.action,
    {
        self.action = match self.action {
            WriteAction::Write => if succeeded {
                WriteAction::Publish
            } else {
                WriteAction::Discard
            },
            WriteAction::Publish => if succeeded {
                WriteAction::Evict
            } else {
                WriteAction::Discard
            },
            WriteAction::Evict => if succeeded {
                WriteAction::Finish
            } else {
                WriteAction::Fail
            },
            WriteAction::Finish => WriteAction::Finish,
            WriteAction::Discard => WriteAction::Discard,
            WriteAction::Fail => WriteAction::Fail,
        };
        self.action
    }
}

// ---------------------------------------------------------------------------
// Artifacts
// ---------------------------------------------------------------------------

/// An artifact whose body is in its temporary file and to which the rest has to be appended.
#[derive(Debug)]
pub struct ArtifactCommit {
    key: String,
    temp: String,
    target: String,
    trailer: Vec<u8>,
}

/// An artifact that is complete in its temporary file and pinned, and has to be renamed.
#[derive(Debug)]
pub struct CompleteArtifact {
    entry: PublishedEntry,
    temp: String,
    target: String,
}

impl ArtifactCommit {
    /// The key.
    pub closed spec fn key(&self) -> Seq<char> {
        self.key@
    }

    /// The temporary file.
    pub closed spec fn temp_file(&self) -> Seq<char> {
        self.temp@
    }

    /// The file of the entry.
    pub closed spec fn target_file(&self) -> Seq<char> {
        self.target@
    }

    /// What is appended to the body.
    pub closed spec fn appendix(&self) -> Seq<u8> {
        self.trailer@
    }

    /// Begins to commit an artifact with the metadata `meta`. Metadata that is too large to be
    /// read again is refused.
    pub fn new(key: &str, meta: Vec<u8>) -> (r: Result<ArtifactCommit, ProxyError>)
        requires
            is_key(key@),
        ensures
            if meta@.len() <= MAX_META_LEN {
                r matches Ok(commit) && commit.key() == key@ && commit.temp_file() == temp_path(
                    key@,
                ) && commit.target_file() == body_path(key@) && commit.appendix() == meta@
                    + big_endian(meta@.len() as int)
            } else {
                r matches Err(e) && e.is(ErrorKind::InvalidData, "metadata too large"@)
            },
    {
        let footer = match meta_footer(meta.as_slice()) {
            Ok(footer) => footer,
            Err(error) => return Err(error),
        };
        let paths = CacheStore::paths_for(key);
        let ghost bytes = meta@;
        let mut trailer = meta;
        trailer.extend_from_slice(footer.as_slice());
        proof {
            assert(trailer@ =~= bytes + big_endian(bytes.len() as int));
        }
        Ok(ArtifactCommit { key: key.to_owned(), temp: paths.temp, target: paths.body, trailer })
    }

    /// The temporary file.
    pub fn temp(&self) -> (r: &str)
        ensures
            r@ == self.temp_file(),
    {
        self.temp.as_str()
    }

    /// What is appended to the body.
    pub fn trailer(&self) -> (r: &[u8])
        ensures
            r@ == self.appendix(),
    {
        self.trailer.as_slice()
    }

    /// Pins the artifact once the rest is appended: it is pinned before it can be seen.
    pub fn appended(self, store: &mut CacheStore) -> (r: CompleteArtifact)
        requires
            old(store).wf(),
            old(store)@.next_pin < u64::MAX,
        ensures
            final(store).wf(),
            final(store)@ == old(store)@.pinned(self.key()),
            r.pinned_key() == self.key(),
            r.pin() == old(store)@.next_pin,
            r.temp_file() == self.temp_file(),
            r.target_file() == self.target_file(),
    {
        let entry = store.pin(self.key.as_str());
        CompleteArtifact { entry, temp: self.temp, target: self.target }
    }
}

impl CompleteArtifact {
    /// The key that is pinned.
    pub closed spec fn pinned_key(&self) -> Seq<char> {
        self.entry.key()
    }

    /// The number of the pin.
    pub closed spec fn pin(&self) -> u64 {
        self.entry.pin()
    }

    /// The temporary file.
    pub closed spec fn temp_file(&self) -> Seq<char> {
        self.temp@
    }

    /// The file of the entry.
    pub closed spec fn target_file(&self) -> Seq<char> {
        self.target@
    }

    /// The pin, and the names between which the file is renamed.
    pub fn publish(self) -> (r: (PublishedEntry, String, String))
        ensures
            r.0.key() == self.pinned_key(),
            r.0.pin() == self.pin(),
            r.1@ == self.temp_file(),
            r.2@ == self.target_file(),
    {
        (self.entry, self.temp, self.target)
    }
}

// ---------------------------------------------------------------------------
// Laws
// ---------------------------------------------------------------------------

/// How an action went. A write that fails leaves the temporary file with anything in it, or
/// not there; a rename that fails changes nothing; an eviction removes the entries of some
/// keys, whether or not it comes to its end.
pub enum Attempt {
    Written,
    NotWritten(Option<Seq<u8>>),
    Published,
    NotPublished,
    Evicted(Set<Seq<char>>),
    NotEvicted(Set<Seq<char>>),
}

impl Attempt {
    /// The attempt is one at the action.
    pub open spec fn is_at(self, action: WriteAction) -> bool {
        match self {
            Attempt::Written | Attempt::NotWritten(_) => action is Write,
            Attempt::Published | Attempt::NotPublished => action is Publish,
            Attempt::Evicted(_) | Attempt::NotEvicted(_) => action is Evict,
        }
    }

    /// The action succeeded.
    pub open spec fn succeeded(self) -> bool {
        self is Written || self is Published || self is Evicted
    }

    /// The keys whose entries left.
    pub open spec fn left(self) -> Set<Seq<char>> {
        match self {
            Attempt::Evicted(keys) => keys,
            Attempt::NotEvicted(keys) => keys,
            _ => Set::empty(),
        }
    }

    /// The files after the attempt.
    pub open spec fn leaves(self, disk: Disk, write: WriteView, body: Seq<u8>) -> Disk {
        match self {
            Attempt::Written => disk.with_file(write.temp, Some(body + write.trailer)),
            Attempt::NotWritten(contents) => disk.with_file(write.temp, contents),
            Attempt::Published => disk.renamed(write.temp, write.target),
            Attempt::NotPublished => disk,
            Attempt::Evicted(keys) => disk.without_entries(keys),
            Attempt::NotEvicted(keys) => disk.without_entries(keys),
        }
    }
}

/// The files and the state when a write has come to its end or was given up: the attempts are
/// made as long as something is to be done, and a temporary file that is still owned then is
/// removed.
pub open spec fn written(disk: Disk, write: WriteView, body: Seq<u8>, attempts: Seq<Attempt>) -> (
    Disk,
    WriteView,
)
    decreases attempts.len(),
{
    if write.is_going_on() && attempts.len() > 0 {
        written(
            attempts[0].leaves(disk, write, body),
            write.after(attempts[0].succeeded()),
            body,
            attempts.drop_first(),
        )
    } else if write.owns_temp() {
        (disk.with_file(write.temp, None), write)
    } else {
        (disk, write)
    }
}

/// Every attempt is one at what is to be done then, and what leaves are entries.
pub open spec fn in_turn(write: WriteView, attempts: Seq<Attempt>) -> bool
    decreases attempts.len(),
{
    write.is_going_on() && attempts.len() > 0 ==> {
        &&& attempts[0].is_at(write.action)
        &&& forall|k: Seq<char>| attempts[0].left().contains(k) ==> #[trigger] is_key(k)
        &&& in_turn(write.after(attempts[0].succeeded()), attempts.drop_first())
    }
}

/// The keys whose entries left in the course of the attempts.
pub open spec fn all_left(attempts: Seq<Attempt>) -> Set<Seq<char>>
    decreases attempts.len(),
{
    if attempts.len() == 0 {
        Set::empty()
    } else {
        attempts[0].left().union(all_left(attempts.drop_first()))
    }
}

/// The files when an entry with the metadata `meta` was to be stored, and what came of it:
/// nothing where the metadata is refused.
pub open spec fn stored(
    disk: Disk,
    key: Seq<char>,
    number: u64,
    body: Seq<u8>,
    meta: Seq<u8>,
    attempts: Seq<Attempt>,
) -> (Disk, Option<WriteAction>) {
    if meta.len() <= MAX_META_LEN {
        let (after, write) = written(disk, WriteView::begun(key, number, meta), body, attempts);
        (after, Some(write.action))
    } else {
        (disk, None)
    }
}

/// An entry is stored wholly or not at all, wherever the writing fails or is given up. Where it
/// is finished, the entry that is read is the one that was written, and its file is the packed
/// one. Where the metadata is refused, or the file does not come to its place, every path holds
/// what it held. No temporary file of the writing is left either way.
pub proof fn entries_are_stored_wholly_or_not_at_all(
    disk: Disk,
    key: Seq<char>,
    number: u64,
    body: Seq<u8>,
    meta: Seq<u8>,
    attempts: Seq<Attempt>,
)
    requires
        disk.wf(),
        is_key(key),
        !disk.holds(numbered_temp_path(key, number)),
        in_turn(WriteView::begun(key, number, meta), attempts),
        !all_left(attempts).contains(key),
    ensures
        ({
            let (after, end) = stored(disk, key, number, body, meta, attempts);
            &&& !after.holds(numbered_temp_path(key, number))
            &&& meta.len() > MAX_META_LEN ==> end is None && after == disk
            &&& end == Some(WriteAction::Finish) || end == Some(WriteAction::Fail) || end == Some(
                WriteAction::Evict,
            ) ==> after.holds(body_path(key)) && after.files()[body_path(key)] == packed(body, meta)
                && stored_entry(after.files(), key) == Some((body, meta))
            &&& end == Some(WriteAction::Write) || end == Some(WriteAction::Publish) || end == Some(
                WriteAction::Discard,
            ) ==> after.files() == disk.files()
        }),
{
    if meta.len() <= MAX_META_LEN {
        reveal_with_fuel(written, 5);
        reveal_with_fuel(in_turn, 5);
        reveal_with_fuel(all_left, 5);
        let temp = numbered_temp_path(key, number);
        let path = body_path(key);
        let files = disk.files();
        let w0 = WriteView::begun(key, number, meta);
        entry_files_are_distinct(key, key, number);
        assert(body + w0.trailer =~= packed(body, meta));
        assert(files.remove(temp) =~= files);
        lemma_with_file(disk, temp, None);
        if attempts.len() > 0 {
            let a0 = attempts[0];
            let d1 = a0.leaves(disk, w0, body);
            let w1 = w0.after(a0.succeeded());
            let rest = attempts.drop_first();
            match a0 {
                Attempt::NotWritten(contents) => lemma_with_file(disk, temp, contents),
                _ => lemma_with_file(disk, temp, Some(body + w0.trailer)),
            }
            lemma_with_file(d1, temp, None);
            assert(d1.files().remove(temp) =~= files);
            if a0.succeeded() && rest.len() > 0 {
                assert(d1.files().contains_key(temp));
                let a1 = rest[0];
                let d2 = a1.leaves(d1, w1, body);
                let w2 = w1.after(a1.succeeded());
                let last = rest.drop_first();
                if a1.succeeded() {
                    lemma_renamed(d1, temp, path);
                    assert(d2.files()[path] == packed(body, meta));
                    assert(d2.files().contains_key(path));
                    lemma_stored_entry(d2.files(), key, body, meta);
                    if last.len() > 0 {
                        let a2 = last[0];
                        let d3 = a2.leaves(d2, w2, body);
                        assert(!a2.left().contains(key));
                        lemma_others_stay(d2, a2.left(), key);
                        lemma_without_entries(d2, a2.left());
                        assert(d3.files().contains_key(path));
                        assert(d3.files()[path] == packed(body, meta));
                        lemma_stored_entry(d3.files(), key, body, meta);
                    }
                }
            }
        }
    }
}

/// Storing an entry leaves every other entry to be read as before, but for those that an
/// eviction removed.
pub proof fn other_entries_are_left_alone(
    disk: Disk,
    key: Seq<char>,
    number: u64,
    body: Seq<u8>,
    meta: Seq<u8>,
    attempts: Seq<Attempt>,
    other: Seq<char>,
)
    requires
        disk.wf(),
        is_key(key),
        is_key(other),
        key != other,
        in_turn(WriteView::begun(key, number, meta), attempts),
        !all_left(attempts).contains(other),
    ensures
        stored_entry(stored(disk, key, number, body, meta, attempts).0.files(), other)
            == stored_entry(disk.files(), other),
{
    if meta.len() <= MAX_META_LEN {
        lemma_others_after(
            disk,
            WriteView::begun(key, number, meta),
            body,
            attempts,
            key,
            number,
            other,
        );
    }
}

proof fn lemma_others_after(
    disk: Disk,
    write: WriteView,
    body: Seq<u8>,
    attempts: Seq<Attempt>,
    key: Seq<char>,
    number: u64,
    other: Seq<char>,
)
    requires
        disk.wf(),
        is_key(key),
        is_key(other),
        key != other,
        write.temp == numbered_temp_path(key, number),
        write.target == body_path(key),
        in_turn(write, attempts),
        !all_left(attempts).contains(other),
    ensures
        stored_entry(written(disk, write, body, attempts).0.files(), other) == stored_entry(
            disk.files(),
            other,
        ),
    decreases attempts.len(),
{
    entry_files_are_distinct(other, key, number);
    entry_files_are_distinct(key, key, number);
    lemma_with_file(disk, write.temp, None);
    if write.is_going_on() && attempts.len() > 0 {
        let next = attempts[0].leaves(disk, write, body);
        match attempts[0] {
            Attempt::Written => lemma_with_file(disk, write.temp, Some(body + write.trailer)),
            Attempt::NotWritten(contents) => lemma_with_file(disk, write.temp, contents),
            Attempt::Published => lemma_renamed(disk, write.temp, write.target),
            Attempt::NotPublished => {},
            Attempt::Evicted(keys) => {
                lemma_others_stay(disk, keys, other);
                lemma_without_entries(disk, keys);
            },
            Attempt::NotEvicted(keys) => {
                lemma_others_stay(disk, keys, other);
                lemma_without_entries(disk, keys);
            },
        }
        assert(stored_entry(next.files(), other) == stored_entry(disk.files(), other));
        lemma_others_after(
            next,
            write.after(attempts[0].succeeded()),
            body,
            attempts.drop_first(),
            key,
            number,
            other,
        );
    }
}

/// An entry that was opened before the writing of an entry, of its own key or of another, still
/// reads as it did, wherever the writing fails or is given up: neither the replacement nor the
/// evictions change a file that was there.
pub proof fn opened_entries_outlive_writes_and_evictions(
    disk: Disk,
    key: Seq<char>,
    number: u64,
    body: Seq<u8>,
    meta: Seq<u8>,
    attempts: Seq<Attempt>,
    opened: Seq<char>,
)
    requires
        disk.wf(),
        is_key(key),
        !disk.holds(numbered_temp_path(key, number)),
        in_turn(WriteView::begun(key, number, meta), attempts),
        disk.holds(body_path(opened)),
    ensures
        ({
            let after = stored(disk, key, number, body, meta, attempts).0;
            &&& after.keeps(disk)
            &&& entry_in(after.contents[disk.names[body_path(opened)]]) == stored_entry(
                disk.files(),
                opened,
            )
        }),
{
    let after = stored(disk, key, number, body, meta, attempts).0;
    if meta.len() <= MAX_META_LEN {
        entry_files_are_distinct(key, key, number);
        lemma_files_are_kept(disk, disk, WriteView::begun(key, number, meta), body, attempts);
    }
    opened_entries_read_as_before(disk, after, opened);
}

/// As long as the temporary file is none of those that were there, writing changes none of
/// them.
proof fn lemma_files_are_kept(
    before: Disk,
    disk: Disk,
    write: WriteView,
    body: Seq<u8>,
    attempts: Seq<Attempt>,
)
    requires
        before.wf(),
        disk.wf(),
        disk.keeps(before),
        before.next <= disk.next,
        disk.holds(write.temp) ==> disk.names[write.temp] >= before.next,
        write.temp != write.target,
        in_turn(write, attempts),
    ensures
        written(disk, write, body, attempts).0.keeps(before),
    decreases attempts.len(),
{
    lemma_with_file(disk, write.temp, None);
    if write.is_going_on() && attempts.len() > 0 {
        let next = attempts[0].leaves(disk, write, body);
        match attempts[0] {
            Attempt::Written => lemma_with_file(disk, write.temp, Some(body + write.trailer)),
            Attempt::NotWritten(contents) => lemma_with_file(disk, write.temp, contents),
            Attempt::Published => lemma_renamed(disk, write.temp, write.target),
            Attempt::NotPublished => {},
            Attempt::Evicted(keys) => lemma_without_entries(disk, keys),
            Attempt::NotEvicted(keys) => lemma_without_entries(disk, keys),
        }
        assert(next.keeps(before)) by {
            assert forall|file: nat| #[trigger] before.contents.contains_key(file) implies
                next.contents.contains_key(file) && next.contents[file]
                == before.contents[file] by {
                assert(disk.contents.contains_key(file));
            }
        }
        lemma_files_are_kept(
            before,
            next,
            write.after(attempts[0].succeeded()),
            body,
            attempts.drop_first(),
        );
    }
}

/// Storing an entry where no step fails: metadata that is too large is refused and changes
/// nothing; otherwise the writing is finished, the entry that is read is the one that was
/// written, its file is the packed one, no temporary file is left, and an entry that was opened
/// before still reads as it did. `left` are the keys whose entries make room.
pub proof fn entries_are_stored_where_nothing_fails(
    disk: Disk,
    key: Seq<char>,
    number: u64,
    body: Seq<u8>,
    meta: Seq<u8>,
    left: Set<Seq<char>>,
    opened: Seq<char>,
)
    requires
        disk.wf(),
        is_key(key),
        !disk.holds(numbered_temp_path(key, number)),
        !left.contains(key),
        forall|k: Seq<char>| left.contains(k) ==> #[trigger] is_key(k),
    ensures
        ({
            let attempts = seq![Attempt::Written, Attempt::Published, Attempt::Evicted(left)];
            let (after, end) = stored(disk, key, number, body, meta, attempts);
            &&& meta.len() > MAX_META_LEN ==> end is None && after == disk
            &&& meta.len() <= MAX_META_LEN ==> {
                &&& end == Some(WriteAction::Finish)
                &&& stored_entry(after.files(), key) == Some((body, meta))
                &&& after.files()[body_path(key)] == packed(body, meta)
            }
            &&& !after.holds(numbered_temp_path(key, number))
            &&& disk.holds(body_path(opened)) ==> entry_in(
                after.contents[disk.names[body_path(opened)]],
            ) == stored_entry(disk.files(), opened)
        }),
{
    let attempts = seq![Attempt::Written, Attempt::Published, Attempt::Evicted(left)];
    reveal_with_fuel(written, 5);
    reveal_with_fuel(in_turn, 5);
    reveal_with_fuel(all_left, 5);
    assert(attempts.drop_first() =~= seq![Attempt::Published, Attempt::Evicted(left)]);
    assert(attempts.drop_first().drop_first() =~= seq![Attempt::Evicted(left)]);
    assert(attempts.drop_first().drop_first().drop_first() =~= Seq::<Attempt>::empty());
    entries_are_stored_wholly_or_not_at_all(disk, key, number, body, meta, attempts);
    if disk.holds(body_path(opened)) {
        opened_entries_outlive_writes_and_evictions(
            disk,
            key,
            number,
            body,
            meta,
            attempts,
            opened,
        );
    }
}

/// The files after an artifact was committed whose body is in its temporary file.
pub open spec fn committed(disk: Disk, key: Seq<char>, meta: Seq<u8>) -> Disk {
    let whole = disk.files()[temp_path(key)] + (meta + big_endian(meta.len() as int));
    disk.with_file(temp_path(key), Some(whole)).renamed(temp_path(key), body_path(key))
}

/// A committed artifact reads back as what was in its temporary file, with its metadata. The
/// temporary file is gone, every other entry reads as before, an entry of any key that was
/// opened before still reads as it did, and the key is pinned, so that no pass over the entries
/// removes it.
pub proof fn committed_artifacts_read_back(
    disk: Disk,
    state: CacheView,
    key: Seq<char>,
    meta: Seq<u8>,
    other: Seq<char>,
)
    requires
        disk.wf(),
        is_key(key),
        is_key(other),
        meta.len() <= MAX_META_LEN,
        disk.holds(temp_path(key)),
    ensures
        ({
            let after = committed(disk, key, meta);
            let body = disk.files()[temp_path(key)];
            &&& after.files()[body_path(key)] == packed(body, meta)
            &&& stored_entry(after.files(), key) == Some((body, meta))
            &&& !after.holds(temp_path(key))
            &&& other != key ==> stored_entry(after.files(), other) == stored_entry(
                disk.files(),
                other,
            )
            &&& disk.holds(body_path(other)) ==> entry_in(
                after.contents[disk.names[body_path(other)]],
            ) == stored_entry(disk.files(), other)
            &&& state.pinned(key).pins.contains_key(key)
        }),
{
    let after = committed(disk, key, meta);
    let body = disk.files()[temp_path(key)];
    let whole = body + (meta + big_endian(meta.len() as int));
    entry_files_are_distinct(key, key, 0);
    entry_files_are_distinct(other, key, 0);
    assert(whole =~= packed(body, meta));
    lemma_with_file(disk, temp_path(key), Some(whole));
    let appended = disk.with_file(temp_path(key), Some(whole));
    lemma_renamed(appended, temp_path(key), body_path(key));
    assert(appended.files()[temp_path(key)] == packed(body, meta));
    assert(after.files().contains_key(body_path(key)));
    lemma_stored_entry(after.files(), key, body, meta);
    if disk.holds(body_path(other)) {
        let file = disk.names[body_path(other)];
        assert(file != disk.names[temp_path(key)]);
        assert(appended.contents[file] == disk.contents[file]);
    }
}

/// An entry is written step by step: to a temporary file with a number of its own, then from there
/// to its place, then room is made. What fails before it is in place is removed.
pub proof fn entries_are_written_step_by_step(
    key: Seq<char>,
    number: u64,
    meta: Seq<u8>,
    body: Seq<u8>,
)
    ensures
        ({
            let write = WriteView::begun(key, number, meta);
            let written = write.after(true);
            let published = written.after(true);
            &&& write.action is Write && write.temp == numbered_temp_path(key, number)
                && write.target == body_path(key) && body + write.trailer == packed(body, meta)
            &&& written.action is Publish && published.action is Evict
            &&& published.after(true).action is Finish && published.after(false).action is Fail
            &&& write.after(false).action is Discard && written.after(false).action is Discard
            &&& write.owns_temp() && written.owns_temp() && !published.owns_temp()
            &&& write.after(false).owns_temp() && written.after(false).owns_temp()
            &&& published.temp == write.temp && published.target == write.target
                && published.trailer == write.trailer
        }),
{
    let write = WriteView::begun(key, number, meta);
    assert(body + write.trailer =~= packed(body, meta));
}

} // verus!
