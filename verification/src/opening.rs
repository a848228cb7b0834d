//! The opening of a cache: its directory is claimed and locked, what earlier processes left
//! behind is removed, and what is past the bound is evicted.
use crate::error::{ErrorKind, ProxyError};
use crate::eviction::{
    by_age, evicted, eviction_is_oldest_first_and_no_more_than_needed, goes_before, lists, sizes,
    total_size, CompletedEntry,
};
use crate::keys::{completed_entries_are_never_stale, is_hex, is_key_of, is_stale_name};
use vstd::prelude::*;
use vstd::string::*;

verus! {

/// What is said of a directory that another process uses.
pub const DIRECTORY_IN_USE: &'static str = "cache directory is already in use";

/// What is done next to open a cache.
#[derive(Clone, Copy, Debug, PartialEq, Eq, Structural)]
pub enum OpenStage {
    /// Claim the directory.
    Claim,
    /// Take the lock of the directory.
    Lock,
    /// Remove what earlier processes left behind.
    Clean,
    /// Evict entries until the bound is reached.
    Evict,
    /// Serve: the cache is open.
    Serve,
    /// Leave the directory alone.
    Refuse,
}

impl OpenStage {
    /// The files of the directory may be removed.
    pub open spec fn removes_files(self) -> bool {
        self is Clean || self is Evict
    }

    /// What comes after the stage; `free` tells of the lock that nobody else held it.
    pub open spec fn after(self, free: bool) -> OpenStage {
        match self {
            OpenStage::Claim => OpenStage::Lock,
            OpenStage::Lock => if free {
                OpenStage::Clean
            } else {
                OpenStage::Refuse
            },
            OpenStage::Clean => OpenStage::Evict,
            OpenStage::Evict => OpenStage::Serve,
            OpenStage::Serve => OpenStage::Serve,
            OpenStage::Refuse => OpenStage::Refuse,
        }
    }

    /// Goes on once a stage is done; `free` tells of the lock that nobody else held it. A
    /// directory that another process uses is refused.
    pub fn next(self, free: bool) -> (r: Result<OpenStage, ProxyError>)
        ensures
            match self.after(free) {
                OpenStage::Refuse => r matches Err(e) && e.is(
                    ErrorKind::AlreadyExists,
                    DIRECTORY_IN_USE@,
                ),
                stage => r == Ok::<OpenStage, ProxyError>(stage),
            },
    {
        match self {
            OpenStage::Claim => Ok(OpenStage::Lock),
            OpenStage::Lock => if free {
                Ok(OpenStage::Clean)
            } else {
                Err(ProxyError::new(ErrorKind::AlreadyExists, DIRECTORY_IN_USE))
            },
            OpenStage::Clean => Ok(OpenStage::Evict),
            OpenStage::Evict => Ok(OpenStage::Serve),
            OpenStage::Serve => Ok(OpenStage::Serve),
            OpenStage::Refuse => Err(ProxyError::new(ErrorKind::AlreadyExists, DIRECTORY_IN_USE)),
        }
    }
}

// ---------------------------------------------------------------------------
// The files of a directory
// ---------------------------------------------------------------------------

/// What is listed in a directory of the cache directory: the name of that directory, the name
/// in it, whether it is a file, when it was written, and its size. Names that are no text are
/// `None`.
pub struct ListedFile {
    pub shard: Option<Seq<char>>,
    pub name: Option<Seq<char>>,
    pub is_file: bool,
    pub modified: i128,
    pub size: u64,
}

impl ListedFile {
    /// The file is removed when the cache is opened: it lies in a shard and carries a name that
    /// is stale there.
    pub open spec fn is_stale(self) -> bool {
        &&& self.is_file
        &&& self.shard matches Some(s) && is_hex(s, 2)
        &&& self.name matches Some(n) && is_stale_name(n, self.shard->0)
    }

    /// The file is a complete entry: it lies in a shard and is named by a key of it.
    pub open spec fn is_completed(self) -> bool {
        &&& self.is_file
        &&& self.shard matches Some(s) && is_hex(s, 2)
        &&& self.name matches Some(n) && is_key_of(n, self.shard->0)
    }
}

/// What is left once the stale files are removed.
pub open spec fn cleaned(files: Seq<ListedFile>) -> Seq<ListedFile> {
    files.filter(|f: ListedFile| !f.is_stale())
}

/// The complete entries among the files.
pub open spec fn completed(files: Seq<ListedFile>) -> Seq<ListedFile> {
    files.filter(|f: ListedFile| f.is_completed())
}

/// The entries are the complete entries among the files, as they are listed.
pub open spec fn are_listed(entries: Seq<CompletedEntry>, files: Seq<ListedFile>) -> bool {
    &&& entries.len() == completed(files).len()
    &&& forall|i: int|
        0 <= i < entries.len() ==> {
            &&& completed(files)[i].name == Some((#[trigger] entries[i]).key@)
            &&& completed(files)[i].modified == entries[i].modified
            &&& completed(files)[i].size == entries[i].size
        }
}

/// The keys of the listed entries.
pub open spec fn keys_of(entries: Seq<CompletedEntry>, list: Seq<int>) -> Set<Seq<char>> {
    Set::new(
        |key: Seq<char>|
            exists|i: int| 0 <= i < list.len() && entries[#[trigger] list[i]].key@ == key,
    )
}

/// What is left once the complete entries of the keys are removed.
pub open spec fn without_keys(files: Seq<ListedFile>, keys: Set<Seq<char>>) -> Seq<ListedFile> {
    files.filter(|f: ListedFile| !(f.is_completed() && keys.contains(f.name->0)))
}

/// The size of the complete entries among the files together.
pub open spec fn stored_size(files: Seq<ListedFile>) -> int
    decreases files.len(),
{
    if files.len() == 0 {
        0
    } else {
        stored_size(files.drop_last()) + if files.last().is_completed() {
            files.last().size as int
        } else {
            0
        }
    }
}

// ---------------------------------------------------------------------------
// Laws
// ---------------------------------------------------------------------------

/// No file is removed before the directory is claimed and its lock is held, and a directory
/// whose lock is held by another process is refused without a file removed.
pub proof fn files_are_removed_under_the_lock(stage: OpenStage, free: bool)
    ensures
        OpenStage::Claim.after(free) is Lock,
        OpenStage::Lock.after(true) is Clean,
        OpenStage::Lock.after(false) is Refuse,
        !OpenStage::Claim.removes_files() && !OpenStage::Lock.removes_files(),
        stage.after(free).removes_files() && !stage.removes_files() ==> stage is Lock && free,
        OpenStage::Refuse.after(free) is Refuse && !OpenStage::Refuse.removes_files(),
{
}

/// The sizes of the first `n` entries together, without those that are listed.
spec fn left_size(entries: Seq<CompletedEntry>, gone: Seq<int>, n: int) -> int
    decreases n,
{
    if n <= 0 {
        0
    } else {
        left_size(entries, gone, n - 1) + if gone.contains(n - 1) {
            0
        } else {
            entries[n - 1].size as int
        }
    }
}

/// One more entry that is gone is so much less that is left.
proof fn lemma_left_size(entries: Seq<CompletedEntry>, gone: Seq<int>, n: int)
    requires
        0 <= n <= entries.len(),
        gone.len() > 0,
        !gone.drop_first().contains(gone[0]),
    ensures
        left_size(entries, gone, n) == left_size(entries, gone.drop_first(), n) - (if 0 <= gone[0]
            < n {
            entries[gone[0]].size as int
        } else {
            0
        }),
    decreases n,
{
    if n > 0 {
        lemma_left_size(entries, gone, n - 1);
        let rest = gone.drop_first();
        if gone.contains(n - 1) {
            let i = choose|i: int| 0 <= i < gone.len() && gone[i] == n - 1;
            if i > 0 {
                assert(rest[i - 1] == n - 1);
            }
        }
        if rest.contains(n - 1) {
            let i = choose|i: int| 0 <= i < rest.len() && rest[i] == n - 1;
            assert(gone[i + 1] == n - 1);
        }
        if gone[0] == n - 1 {
            assert(gone.contains(n - 1));
        }
    }
}

/// What is left and what is gone is everything.
proof fn lemma_left_and_gone(entries: Seq<CompletedEntry>, gone: Seq<int>)
    requires
        gone.no_duplicates(),
        forall|i: int| 0 <= i < gone.len() ==> 0 <= #[trigger] gone[i] < entries.len(),
    ensures
        left_size(entries, gone, entries.len() as int) + sizes(entries, gone) == total_size(
            entries,
            entries.len() as int,
        ),
    decreases gone.len(),
{
    if gone.len() == 0 {
        lemma_nothing_gone(entries, gone, entries.len() as int);
    } else {
        let rest = gone.drop_first();
        assert(!rest.contains(gone[0])) by {
            if rest.contains(gone[0]) {
                let i = choose|i: int| 0 <= i < rest.len() && rest[i] == gone[0];
                assert(gone[i + 1] == gone[0]);
            }
        }
        assert forall|i: int| 0 <= i < rest.len() implies 0 <= #[trigger] rest[i]
            < entries.len() by {
            assert(gone[i + 1] == rest[i]);
        }
        lemma_left_and_gone(entries, rest);
        lemma_left_size(entries, gone, entries.len() as int);
    }
}

proof fn lemma_nothing_gone(entries: Seq<CompletedEntry>, gone: Seq<int>, n: int)
    requires
        gone.len() == 0,
        0 <= n <= entries.len(),
    ensures
        left_size(entries, gone, n) == total_size(entries, n),
    decreases n,
{
    if n > 0 {
        lemma_nothing_gone(entries, gone, n - 1);
    }
}

/// Nothing is left of what is gone.
proof fn lemma_all_gone(entries: Seq<CompletedEntry>, gone: Seq<int>, n: int)
    requires
        0 <= n <= entries.len(),
        forall|i: int| 0 <= i < n ==> #[trigger] gone.contains(i),
    ensures
        left_size(entries, gone, n) == 0,
    decreases n,
{
    if n > 0 {
        lemma_all_gone(entries, gone, n - 1);
        assert(gone.contains(n - 1));
    }
}

/// A pass removes no entry twice.
proof fn lemma_evicted_once(
    entries: Seq<CompletedEntry>,
    order: Seq<usize>,
    bound: int,
    total: int,
    from: int,
)
    requires
        by_age(entries, order),
        0 <= from <= order.len(),
    ensures
        ({
            let gone = evicted(entries, order, Map::empty(), bound, total, from);
            &&& gone.no_duplicates()
            &&& forall|i: int|
                0 <= i < gone.len() ==> exists|k: int|
                    from <= k < order.len() && #[trigger] order[k] as int == #[trigger] gone[i]
        }),
    decreases order.len() - from,
{
    let pins = Map::<Seq<char>, u64>::empty();
    let gone = evicted(entries, order, pins, bound, total, from);
    let k = crate::eviction::next_unpinned(entries, order, pins, from);
    if gone.len() > 0 {
        let x = order[k] as int;
        let rest = evicted(entries, order, pins, bound, total - entries[x].size, k + 1);
        lemma_evicted_once(entries, order, bound, total - entries[x].size, k + 1);
        assert(gone == seq![x] + rest);
        assert forall|i: int| 0 <= i < gone.len() implies exists|l: int|
            from <= l < order.len() && #[trigger] order[l] as int == #[trigger] gone[i] by {
            if i == 0 {
                assert(order[k] as int == gone[0]);
            } else {
                assert(gone[i] == rest[i - 1]);
                let l = choose|l: int|
                    k + 1 <= l < order.len() && #[trigger] order[l] as int == rest[i - 1];
                assert(order[l] as int == gone[i]);
            }
        }
        assert forall|i: int, j: int| 0 <= i < gone.len() && 0 <= j < gone.len() && i
            != j implies gone[i] != gone[j] by {
            if i == 0 {
                let l = choose|l: int|
                    k + 1 <= l < order.len() && #[trigger] order[l] as int == rest[j - 1];
                assert(goes_before(entries, order[k] as int, order[l] as int));
                assert(gone[j] == rest[j - 1]);
            } else if j == 0 {
                let l = choose|l: int|
                    k + 1 <= l < order.len() && #[trigger] order[l] as int == rest[i - 1];
                assert(goes_before(entries, order[k] as int, order[l] as int));
                assert(gone[i] == rest[i - 1]);
            } else {
                assert(gone[i] == rest[i - 1]);
                assert(gone[j] == rest[j - 1]);
            }
        }
    }
}

/// What is left of the files is no larger than what is left of the entries.
proof fn lemma_stored_size(
    files: Seq<ListedFile>,
    entries: Seq<CompletedEntry>,
    gone: Seq<int>,
)
    requires
        completed(files).len() <= entries.len(),
        forall|i: int|
            0 <= i < completed(files).len() ==> completed(files)[i].name == Some(
                (#[trigger] entries[i]).key@,
            ) && completed(files)[i].size == entries[i].size,
    ensures
        stored_size(without_keys(files, keys_of(entries, gone))) <= left_size(
            entries,
            gone,
            completed(files).len() as int,
        ),
    decreases files.len(),
{
    reveal(Seq::filter);
    if files.len() > 0 {
        let init = files.drop_last();
        let last = files.last();
        let keys = keys_of(entries, gone);
        let before = completed(init);
        assert(completed(files) == if last.is_completed() {
            before.push(last)
        } else {
            before
        });
        assert forall|i: int| 0 <= i < before.len() implies before[i].name == Some(
            (#[trigger] entries[i]).key@,
        ) && before[i].size == entries[i].size by {
            assert(completed(files)[i] == before[i]);
        }
        lemma_stored_size(init, entries, gone);
        let kept = without_keys(init, keys);
        if last.is_completed() {
            let n = before.len() as int;
            assert(completed(files)[n] == last);
            assert(last.name == Some(entries[n].key@));
            if gone.contains(n) {
                let i = choose|i: int| 0 <= i < gone.len() && gone[i] == n;
                assert(entries[gone[i]].key@ == last.name->0);
                assert(keys.contains(last.name->0));
                assert(without_keys(files, keys) == kept);
            } else if keys.contains(last.name->0) {
                assert(without_keys(files, keys) == kept);
            } else {
                assert(without_keys(files, keys) == kept.push(last));
                assert(kept.push(last).drop_last() =~= kept);
            }
        } else {
            assert(without_keys(files, keys) == kept.push(last));
            assert(kept.push(last).drop_last() =~= kept);
        }
    }
}

/// A filter keeps what meets the condition, and nothing else.
proof fn lemma_filtered(files: Seq<ListedFile>, keeps: spec_fn(ListedFile) -> bool)
    ensures
        forall|f: ListedFile| #[trigger]
            files.filter(keeps).contains(f) <==> files.contains(f) && keeps(f),
    decreases files.len(),
{
    reveal(Seq::filter);
    let all = files.filter(keeps);
    if files.len() > 0 {
        let init = files.drop_last();
        let last = files.last();
        let before = init.filter(keeps);
        lemma_filtered(init, keeps);
        assert forall|f: ListedFile| #[trigger] all.contains(f) <==> files.contains(f) && keeps(
            f,
        ) by {
            if all.contains(f) {
                let i = choose|i: int| 0 <= i < all.len() && all[i] == f;
                if i < before.len() {
                    assert(before[i] == f);
                    assert(before.contains(f));
                    let j = choose|j: int| 0 <= j < init.len() && init[j] == f;
                    assert(files[j] == f);
                } else {
                    assert(files[files.len() - 1] == f);
                }
            }
            if files.contains(f) && keeps(f) {
                let i = choose|i: int| 0 <= i < files.len() && files[i] == f;
                if i < init.len() {
                    assert(init[i] == f);
                    assert(before.contains(f));
                    let j = choose|j: int| 0 <= j < before.len() && before[j] == f;
                    assert(all[j] == f);
                } else {
                    assert(all[before.len() as int] == f);
                }
            }
        }
    }
}

/// Opening a cache whose files can all be removed leaves it clean and within its bound. No
/// stale file is left in a shard; the complete entries that are left are no larger together
/// than the bound; and every file that is neither stale nor a complete entry is left where it
/// is. An entry leaves only if the entries did not fit.
pub proof fn opening_leaves_a_clean_cache_within_its_bound(
    files: Seq<ListedFile>,
    entries: Seq<CompletedEntry>,
    order: Seq<usize>,
    bound: int,
)
    requires
        0 <= bound,
        entries.len() <= usize::MAX,
        are_listed(entries, cleaned(files)),
        by_age(entries, order),
        lists(order, 0, entries.len() as int),
    ensures
        ({
            let total = total_size(entries, entries.len() as int);
            let gone = evicted(entries, order, Map::empty(), bound, total, 0);
            let left = without_keys(cleaned(files), keys_of(entries, gone));
            &&& stored_size(left) <= bound
            &&& forall|f: ListedFile| #[trigger]
                left.contains(f) ==> files.contains(f) && !f.is_stale()
            &&& forall|f: ListedFile| #[trigger]
                files.contains(f) && !f.is_stale() && !f.is_completed() ==> left.contains(f)
            &&& total <= bound ==> forall|f: ListedFile| #[trigger]
                files.contains(f) && f.is_completed() ==> left.contains(f)
        }),
{
    let n = entries.len() as int;
    let total = total_size(entries, n);
    let pins = Map::<Seq<char>, u64>::empty();
    let gone = evicted(entries, order, pins, bound, total, 0);
    let keys = keys_of(entries, gone);
    let kept = cleaned(files);
    let left = without_keys(kept, keys);
    eviction_is_oldest_first_and_no_more_than_needed(entries, order, pins, bound, total, 0);
    lemma_evicted_once(entries, order, bound, total, 0);
    lemma_left_and_gone(entries, gone);
    if total - sizes(entries, gone) > bound {
        assert forall|i: int| 0 <= i < n implies #[trigger] gone.contains(i) by {
            assert(order.contains(i as usize));
            let k = choose|k: int| 0 <= k < order.len() && order[k] == i as usize;
            assert(gone.contains(order[k] as int));
        }
        lemma_all_gone(entries, gone, n);
    }
    lemma_stored_size(kept, entries, gone);
    let fresh = |f: ListedFile| !f.is_stale();
    let stays = |f: ListedFile| !(f.is_completed() && keys.contains(f.name->0));
    lemma_filtered(files, fresh);
    lemma_filtered(kept, stays);
    assert forall|f: ListedFile| #[trigger] files.contains(f) && f.is_completed() implies
        !f.is_stale() by {
        completed_entries_are_never_stale(f.name->0, f.shard->0);
    }
    if total <= bound {
        assert(gone.len() == 0);
    }
    assert forall|f: ListedFile| #[trigger]
        files.contains(f) && !f.is_stale() && !f.is_completed() implies left.contains(f) by {
        assert(kept.contains(f));
    }
    assert forall|f: ListedFile| total <= bound && #[trigger]
        files.contains(f) && f.is_completed() implies left.contains(f) by {
        assert(kept.contains(f));
    }
    assert forall|f: ListedFile| #[trigger] left.contains(f) implies files.contains(f)
        && !f.is_stale() by {
        assert(kept.contains(f));
    }
}

/// What is stale and what is an entry: files in a directory that is named by two hexadecimal
/// digits, the one by the name of a leftover, the other by the name of a key of that directory.
pub proof fn files_are_judged_by_shard_and_name(file: ListedFile, shard: Seq<char>, name: Seq<char>)
    requires
        file.shard == Some(shard),
        file.name == Some(name),
    ensures
        file.is_stale() <==> file.is_file && is_hex(shard, 2) && is_stale_name(name, shard),
        file.is_completed() <==> file.is_file && is_hex(shard, 2) && is_key_of(name, shard),
{
}

/// A cache is opened step by step: its directory is claimed, then locked, then cleaned, then
/// brought within its bound, and only then served from.
pub proof fn caches_are_opened_step_by_step(free: bool)
    ensures
        OpenStage::Claim.after(free) is Lock,
        OpenStage::Lock.after(free) == (if free {
            OpenStage::Clean
        } else {
            OpenStage::Refuse
        }),
        OpenStage::Clean.after(free) is Evict,
        OpenStage::Evict.after(free) is Serve,
        OpenStage::Serve.after(free) is Serve,
        DIRECTORY_IN_USE@ == "cache directory is already in use"@,
{
}

} // verus!
