//! A model of the files of the cache: what each path holds, and what reading an entry gives.
use crate::cache::{body_path, numbered_temp_path, shard_of, temp_path};
use crate::footer::{geometry, packed, packed_entries_read_back, MAX_META_LEN};
use crate::keys::is_key;
use crate::text::decimal;
use vstd::prelude::*;
use vstd::string::*;

verus! {

/// The files of the cache. A path names a file, and a file has contents, whether or not a path
/// still names it: one who has opened it goes on to read it. Files are numbered in the order in
/// which they were created.
#[verifier::ext_equal]
pub struct Disk {
    pub names: Map<Seq<char>, nat>,
    pub contents: Map<nat, Seq<u8>>,
    pub next: nat,
}

impl Disk {
    /// Every name names a file, no two names name the same one, and files are numbered before
    /// the next one.
    pub open spec fn wf(self) -> bool {
        &&& forall|path: Seq<char>|
            self.names.contains_key(path) ==> self.contents.contains_key(
                #[trigger] self.names[path],
            )
        &&& forall|path: Seq<char>, other: Seq<char>|
            self.names.contains_key(path) && self.names.contains_key(other) && path != other
                ==> #[trigger] self.names[path] != #[trigger] self.names[other]
        &&& forall|file: nat| #[trigger] self.contents.contains_key(file) ==> file < self.next
    }

    /// There is a file at the path.
    pub open spec fn holds(self, path: Seq<char>) -> bool {
        self.names.contains_key(path)
    }

    /// What the paths hold.
    pub open spec fn files(self) -> Map<Seq<char>, Seq<u8>> {
        Map::new(
            |path: Seq<char>| self.names.contains_key(path),
            |path: Seq<char>| self.contents[self.names[path]],
        )
    }

    /// After the file at the path came to hold `contents`. A file is created where there is
    /// none.
    pub open spec fn with_contents(self, path: Seq<char>, contents: Seq<u8>) -> Disk {
        if self.holds(path) {
            Disk { contents: self.contents.insert(self.names[path], contents), ..self }
        } else {
            Disk {
                names: self.names.insert(path, self.next),
                contents: self.contents.insert(self.next, contents),
                next: self.next + 1,
            }
        }
    }

    /// After the path was removed. The file is what it was to those who have opened it.
    pub open spec fn without(self, path: Seq<char>) -> Disk {
        Disk { names: self.names.remove(path), ..self }
    }

    /// After the file at the path came to hold `contents`, or was removed.
    pub open spec fn with_file(self, path: Seq<char>, contents: Option<Seq<u8>>) -> Disk {
        match contents {
            Some(c) => self.with_contents(path, c),
            None => self.without(path),
        }
    }

    /// After `from` was renamed to `to`. A file that was at `to` is what it was to those who
    /// have opened it.
    pub open spec fn renamed(self, from: Seq<char>, to: Seq<char>) -> Disk {
        if self.holds(from) {
            Disk { names: self.names.remove(from).insert(to, self.names[from]), ..self }
        } else {
            self
        }
    }

    /// After the entries of `keys` left. Their files are what they were to those who have opened
    /// them.
    pub open spec fn without_entries(self, keys: Set<Seq<char>>) -> Disk {
        Disk {
            names: Map::new(
                |path: Seq<char>| self.names.contains_key(path) && !is_entry_of(path, keys),
                |path: Seq<char>| self.names[path],
            ),
            ..self
        }
    }

    /// Every file that there is has the contents that it had in `before`, where it was there.
    pub open spec fn keeps(self, before: Disk) -> bool {
        forall|file: nat|
            #[trigger] before.contents.contains_key(file) ==> self.contents.contains_key(file)
                && self.contents[file] == before.contents[file]
    }
}

/// The path is that of an entry that left.
pub open spec fn is_entry_of(path: Seq<char>, keys: Set<Seq<char>>) -> bool {
    exists|key: Seq<char>| keys.contains(key) && path == #[trigger] body_path(key)
}

/// The entry that a file holds: its body and its metadata, where it is a complete cache file.
pub open spec fn entry_in(file: Seq<u8>) -> Option<(Seq<u8>, Seq<u8>)> {
    if file.len() >= 4 {
        match geometry(
            file.len() as int,
            file.subrange(file.len() - 4, file.len() as int),
        ) {
            Ok((body_len, meta_len)) => Some(
                (file.subrange(0, body_len), file.subrange(body_len, body_len + meta_len)),
            ),
            Err(_) => None,
        }
    } else {
        None
    }
}

/// The entry of `key` in the files of the cache.
pub open spec fn stored_entry(files: Map<Seq<char>, Seq<u8>>, key: Seq<char>) -> Option<
    (Seq<u8>, Seq<u8>),
> {
    let path = body_path(key);
    if files.contains_key(path) {
        entry_in(files[path])
    } else {
        None
    }
}

/// What writing to a path, or removing it, changes: what that path holds, and no other file.
pub proof fn lemma_with_file(disk: Disk, path: Seq<char>, contents: Option<Seq<u8>>)
    requires
        disk.wf(),
    ensures
        ({
            let after = disk.with_file(path, contents);
            &&& after.wf()
            &&& after.files() == (match contents {
                Some(c) => disk.files().insert(path, c),
                None => disk.files().remove(path),
            })
            &&& forall|file: nat|
                #[trigger] disk.contents.contains_key(file) && (disk.holds(path) ==> file
                    != disk.names[path]) ==> after.contents.contains_key(file)
                    && after.contents[file] == disk.contents[file]
            &&& after.holds(path) ==> (if disk.holds(path) {
                after.names[path] == disk.names[path]
            } else {
                after.names[path] == disk.next
            })
            &&& disk.next <= after.next
        }),
{
    let after = disk.with_file(path, contents);
    assert(after.files() =~= match contents {
        Some(c) => disk.files().insert(path, c),
        None => disk.files().remove(path),
    });
}

/// What renaming changes: what the two paths hold, and no file.
pub proof fn lemma_renamed(disk: Disk, from: Seq<char>, to: Seq<char>)
    requires
        disk.wf(),
        from != to,
    ensures
        ({
            let after = disk.renamed(from, to);
            &&& after.wf()
            &&& after.contents == disk.contents
            &&& after.next == disk.next
            &&& !after.holds(from)
            &&& disk.holds(from) ==> after.names[to] == disk.names[from] && after.files()
                == disk.files().remove(from).insert(to, disk.files()[from])
            &&& !disk.holds(from) ==> after == disk
        }),
{
    let after = disk.renamed(from, to);
    if disk.holds(from) {
        assert(after.files() =~= disk.files().remove(from).insert(to, disk.files()[from]));
    }
}

/// What the leaving of entries changes: what their paths hold, and no file.
pub proof fn lemma_without_entries(disk: Disk, keys: Set<Seq<char>>)
    requires
        disk.wf(),
    ensures
        disk.without_entries(keys).wf(),
        disk.without_entries(keys).contents == disk.contents,
        forall|path: Seq<char>| #[trigger]
            disk.without_entries(keys).files().contains_key(path) <==> disk.files().contains_key(
                path,
            ) && !is_entry_of(path, keys),
        forall|path: Seq<char>|
            disk.files().contains_key(path) && !is_entry_of(path, keys) ==> #[trigger]
                disk.without_entries(keys).files()[path] == disk.files()[path],
{
}

/// What is packed at the path of an entry is what is read.
pub proof fn lemma_stored_entry(
    files: Map<Seq<char>, Seq<u8>>,
    key: Seq<char>,
    body: Seq<u8>,
    meta: Seq<u8>,
)
    requires
        meta.len() <= MAX_META_LEN,
        files.contains_key(body_path(key)),
        files[body_path(key)] == packed(body, meta),
    ensures
        stored_entry(files, key) == Some((body, meta)),
{
    packed_entries_read_back(body, meta);
}

/// Every entry has a file of its own, and no file that an entry is written to is the file of
/// an entry.
pub proof fn entry_files_are_distinct(key: Seq<char>, other: Seq<char>, number: u64)
    requires
        is_key(key),
        is_key(other),
    ensures
        body_path(key) == body_path(other) ==> key == other,
        body_path(key) != temp_path(other),
        body_path(key) != numbered_temp_path(other, number),
        temp_path(key) != numbered_temp_path(other, number),
{
    crate::cache::file_names_are_recognised(key, number as nat);
    crate::cache::file_names_are_recognised(other, number as nat);
    reveal_strlit("/");
    reveal_strlit(".");
    reveal_strlit(".part");
    let a = body_path(key);
    let b = body_path(other);
    assert(a.len() == 67 && b.len() == 67);
    assert(temp_path(key).len() == 72 && temp_path(other).len() == 72);
    assert(numbered_temp_path(other, number).len() > 72);
    assert(key =~= a.skip(3));
    assert(other =~= b.skip(3));
}

/// Two numbers are never written alike.
proof fn lemma_decimal_injective(a: nat, b: nat)
    requires
        decimal(a) == decimal(b),
    ensures
        a == b,
    decreases a,
{
    let x = decimal(a);
    let y = decimal(b);
    assert(x.last() == y.last());
    assert(x.last() as int == 48 + a % 10);
    assert(y.last() as int == 48 + b % 10);
    if a >= 10 && b >= 10 {
        assert(decimal(a / 10) =~= x.drop_last());
        assert(decimal(b / 10) =~= y.drop_last());
        lemma_decimal_injective(a / 10, b / 10);
    } else if a >= 10 {
        assert(decimal(a / 10).len() > 0);
    } else if b >= 10 {
        assert(decimal(b / 10).len() > 0);
    }
}

/// Two writers of an entry never share a file: the numbers of their files differ.
pub proof fn numbered_files_are_distinct(key: Seq<char>, a: u64, b: u64)
    requires
        a != b,
    ensures
        numbered_temp_path(key, a) != numbered_temp_path(key, b),
{
    reveal_strlit(".");
    reveal_strlit(".part");
    let p = numbered_temp_path(key, a);
    let q = numbered_temp_path(key, b);
    let n = temp_path(key).len() as int + 1;
    if p == q {
        assert(decimal(a as nat) =~= p.subrange(n, p.len() - 5));
        assert(decimal(b as nat) =~= q.subrange(n, q.len() - 5));
        lemma_decimal_injective(a as nat, b as nat);
    }
}

/// An entry that does not leave reads as before.
pub proof fn lemma_others_stay(disk: Disk, keys: Set<Seq<char>>, key: Seq<char>)
    requires
        disk.wf(),
        is_key(key),
        forall|k: Seq<char>| keys.contains(k) ==> #[trigger] is_key(k),
        !keys.contains(key),
    ensures
        !is_entry_of(body_path(key), keys),
        stored_entry(disk.without_entries(keys).files(), key) == stored_entry(disk.files(), key),
{
    lemma_without_entries(disk, keys);
    if is_entry_of(body_path(key), keys) {
        let k = choose|k: Seq<char>| keys.contains(k) && body_path(key) == #[trigger] body_path(k);
        assert(is_key(k));
        entry_files_are_distinct(key, k, 0);
    }
}

/// An entry that was opened reads as it did, whatever became of its path since: where no file
/// that there was has changed, its file holds what it held.
pub proof fn opened_entries_read_as_before(before: Disk, after: Disk, key: Seq<char>)
    requires
        before.wf(),
        before.holds(body_path(key)),
        after.keeps(before),
    ensures
        entry_in(after.contents[before.names[body_path(key)]]) == stored_entry(
            before.files(),
            key,
        ),
{
    let file = before.names[body_path(key)];
    assert(after.contents[file] == before.contents[file]);
}

/// An entry that was opened still reads as it did when entries have left, its own among them.
pub proof fn opened_entries_outlive_evictions(
    disk: Disk,
    keys: Set<Seq<char>>,
    opened: Seq<char>,
)
    requires
        disk.wf(),
        disk.holds(body_path(opened)),
    ensures
        entry_in(disk.without_entries(keys).contents[disk.names[body_path(opened)]])
            == stored_entry(disk.files(), opened),
{
    opened_entries_read_as_before(disk, disk.without_entries(keys), opened);
}

} // verus!
