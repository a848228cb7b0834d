//! Which entries leave a cache that has grown past its bound: the oldest, as long as it takes,
//! and none that is pinned.
use crate::ordered::TextMap;
use vstd::prelude::*;
use vstd::string::*;

verus! {

/// A complete entry of the cache: its key, when it was written, and its size in bytes.
/// Times are in any unit that grows with time.
#[derive(Debug)]
pub struct CompletedEntry {
    pub key: String,
    pub modified: i128,
    pub size: u64,
}

/// How the attempt to remove a file ended.
#[derive(Clone, Copy, Debug, PartialEq, Eq, Structural)]
pub enum Removal {
    Removed,
    Missing,
    Failed,
}

// ---------------------------------------------------------------------------
// Order of age
// ---------------------------------------------------------------------------

/// Entry `a` goes before entry `b`: it is older, or as old and listed before it.
pub open spec fn goes_before(entries: Seq<CompletedEntry>, a: int, b: int) -> bool {
    entries[a].modified < entries[b].modified || (entries[a].modified == entries[b].modified && a
        < b)
}

/// Positions in strictly ascending order of age.
pub open spec fn by_age(entries: Seq<CompletedEntry>, order: Seq<usize>) -> bool {
    forall|i: int, j: int|
        0 <= i < j < order.len() ==> goes_before(
            entries,
            #[trigger] order[i] as int,
            #[trigger] order[j] as int,
        )
}

/// `order` lists exactly the positions from `from` up to `to`.
pub open spec fn lists(order: Seq<usize>, from: int, to: int) -> bool {
    &&& order.len() == to - from
    &&& forall|k: int| 0 <= k < order.len() ==> from <= #[trigger] order[k] < to
    &&& forall|x: usize| from <= x < to ==> #[trigger] order.contains(x)
}

fn precedes(entries: &Vec<CompletedEntry>, a: usize, b: usize) -> (r: bool)
    requires
        a < entries.len(),
        b < entries.len(),
    ensures
        r == goes_before(entries@, a as int, b as int),
{
    entries[a].modified < entries[b].modified || (entries[a].modified == entries[b].modified && a
        < b)
}

/// Merges two lists of positions, all of the first before `middle` and all of the second from
/// there on.
fn merge(
    entries: &Vec<CompletedEntry>,
    a: &Vec<usize>,
    b: &Vec<usize>,
    Ghost(from): Ghost<int>,
    Ghost(middle): Ghost<int>,
    Ghost(to): Ghost<int>,
) -> (out: Vec<usize>)
    requires
        0 <= from <= middle <= to <= entries@.len(),
        by_age(entries@, a@),
        by_age(entries@, b@),
        lists(a@, from, middle),
        lists(b@, middle, to),
    ensures
        by_age(entries@, out@),
        lists(out@, from, to),
{
    let mut out: Vec<usize> = Vec::new();
    let mut i: usize = 0;
    let mut j: usize = 0;
    let ghost es = entries@;
    while i < a.len() || j < b.len()
        invariant
            es == entries@,
            0 <= from <= middle <= to <= es.len(),
            by_age(es, a@),
            by_age(es, b@),
            lists(a@, from, middle),
            lists(b@, middle, to),
            i <= a.len(),
            j <= b.len(),
            out.len() == i + j,
            by_age(es, out@),
            forall|k: int| 0 <= k < out.len() ==> from <= #[trigger] out@[k] < to,
            forall|k: int, l: int|
                0 <= k < out.len() && i <= l < a.len() ==> goes_before(
                    es,
                    #[trigger] out@[k] as int,
                    #[trigger] a@[l] as int,
                ),
            forall|k: int, l: int|
                0 <= k < out.len() && j <= l < b.len() ==> goes_before(
                    es,
                    #[trigger] out@[k] as int,
                    #[trigger] b@[l] as int,
                ),
            forall|k: int| 0 <= k < i ==> out@.contains(#[trigger] a@[k]),
            forall|k: int| 0 <= k < j ==> out@.contains(#[trigger] b@[k]),
        decreases a.len() + b.len() - i - j,
    {
        let ghost before = out@;
        let take_first = if i == a.len() {
            false
        } else if j == b.len() {
            true
        } else {
            precedes(entries, a[i], b[j])
        };
        let next: usize = if take_first {
            a[i]
        } else {
            b[j]
        };
        out.push(next);
        proof {
            assert(out@[before.len() as int] == next);
            assert forall|x: usize| before.contains(x) implies #[trigger] out@.contains(x) by {
                let k = choose|k: int| 0 <= k < before.len() && before[k] == x;
                assert(out@[k] == x);
            }
            assert(out@.contains(next));
        }
        if take_first {
            i = i + 1;
        } else {
            j = j + 1;
        }
    }
    proof {
        assert forall|x: usize| from <= x < to implies #[trigger] out@.contains(x) by {
            if x < middle {
                assert(a@.contains(x));
                let k = choose|k: int| 0 <= k < a@.len() && a@[k] == x;
                assert(out@.contains(a@[k]));
            } else {
                assert(b@.contains(x));
                let k = choose|k: int| 0 <= k < b@.len() && b@[k] == x;
                assert(out@.contains(b@[k]));
            }
        }
    }
    out
}

/// The positions from `from` up to `to`, the oldest entry first.
fn sort_by_age(entries: &Vec<CompletedEntry>, from: usize, to: usize) -> (out: Vec<usize>)
    requires
        from <= to <= entries@.len(),
    ensures
        by_age(entries@, out@),
        lists(out@, from as int, to as int),
    decreases to - from,
{
    if to - from <= 1 {
        let mut out: Vec<usize> = Vec::new();
        if from < to {
            out.push(from);
            proof {
                assert(out@[0] == from);
                assert(out@.contains(from));
            }
        }
        return out;
    }
    let middle: usize = from + (to - from) / 2;
    let first = sort_by_age(entries, from, middle);
    let second = sort_by_age(entries, middle, to);
    merge(
        entries,
        &first,
        &second,
        Ghost(from as int),
        Ghost(middle as int),
        Ghost(to as int),
    )
}

// ---------------------------------------------------------------------------
// The scan
// ---------------------------------------------------------------------------

/// The sizes of the first `n` entries together.
pub open spec fn total_size(entries: Seq<CompletedEntry>, n: int) -> int
    decreases n,
{
    if n <= 0 {
        0
    } else {
        total_size(entries, n - 1) + entries[n - 1].size
    }
}

/// The first place in the order, from `from` on, whose entry is not pinned.
pub open spec fn next_unpinned(
    entries: Seq<CompletedEntry>,
    order: Seq<usize>,
    pins: Map<Seq<char>, u64>,
    from: int,
) -> int
    decreases order.len() - from,
{
    if from >= order.len() {
        order.len() as int
    } else if pins.contains_key(entries[order[from] as int].key@) {
        next_unpinned(entries, order, pins, from + 1)
    } else {
        from
    }
}

/// A pass over the entries of a cache, the oldest first, that ends when the bound is reached.
#[derive(Debug)]
pub struct EvictionScan {
    entries: Vec<CompletedEntry>,
    order: Vec<usize>,
    next: usize,
    total: u128,
    max_cache_size: u64,
}

impl EvictionScan {
    /// The entries.
    pub closed spec fn entries(&self) -> Seq<CompletedEntry> {
        self.entries@
    }

    /// The positions of the entries, the oldest first.
    pub closed spec fn order(&self) -> Seq<usize> {
        self.order@
    }

    /// The place in the order that is looked at next.
    pub closed spec fn place(&self) -> int {
        self.next as int
    }

    /// The size of the cache as far as it is known.
    pub closed spec fn total(&self) -> int {
        self.total as int
    }

    /// The bound.
    pub closed spec fn bound(&self) -> int {
        self.max_cache_size as int
    }

    /// The order lists every entry once, by age.
    pub open spec fn wf(&self) -> bool {
        &&& by_age(self.entries(), self.order())
        &&& lists(self.order(), 0, self.entries().len() as int)
        &&& 0 <= self.place() <= self.order().len()
        &&& 0 <= self.total()
    }

    /// Begins a pass.
    pub fn new(entries: Vec<CompletedEntry>, max_cache_size: u64) -> (r: EvictionScan)
        ensures
            r.wf(),
            r.entries() == entries@,
            r.place() == 0,
            r.total() == total_size(entries@, entries@.len() as int),
            r.bound() == max_cache_size,
    {
        let mut total: u128 = 0;
        let mut i: usize = 0;
        while i < entries.len()
            invariant
                i <= entries.len(),
                total == total_size(entries@, i as int),
                total <= i * 0xffff_ffff_ffff_ffff,
            decreases entries.len() - i,
        {
            proof {
                assert((i + 1) * 0xffff_ffff_ffff_ffff <= u128::MAX) by (nonlinear_arith)
                    requires
                        i < 0xffff_ffff_ffff_ffff,
                ;
            }
            total = total + entries[i].size as u128;
            i = i + 1;
        }
        let order = sort_by_age(&entries, 0, entries.len());
        EvictionScan { entries, order, next: 0, total, max_cache_size }
    }

    /// The next entry to remove: the oldest that the pass has not come to and that is not
    /// pinned, as long as the cache is past its bound.
    pub fn next_victim(&mut self, pins: &TextMap<u64>) -> (r: Option<usize>)
        requires
            old(self).wf(),
            pins.wf(),
        ensures
            final(self).wf(),
            final(self).entries() == old(self).entries(),
            final(self).order() == old(self).order(),
            final(self).total() == old(self).total(),
            final(self).bound() == old(self).bound(),
            if old(self).total() <= old(self).bound() {
                r is None && final(self).place() == old(self).place()
            } else {
                let k = next_unpinned(
                    old(self).entries(),
                    old(self).order(),
                    pins@,
                    old(self).place(),
                );
                if k < old(self).order().len() {
                    r == Some(old(self).order()[k]) && final(self).place() == k + 1
                } else {
                    r is None && final(self).place() == old(self).order().len()
                }
            },
    {
        if self.total <= self.max_cache_size as u128 {
            return None;
        }
        let ghost start = *self;
        while self.next < self.order.len()
            invariant
                self.wf(),
                pins.wf(),
                start == *old(self),
                self.entries == start.entries,
                self.order == start.order,
                self.total == start.total,
                self.max_cache_size == start.max_cache_size,
                self.total > self.max_cache_size,
                next_unpinned(start.entries@, start.order@, pins@, start.next as int)
                    == next_unpinned(start.entries@, start.order@, pins@, self.next as int),
            decreases self.order.len() - self.next,
        {
            let index: usize = self.order[self.next];
            let pinned = pins.contains_key(self.entries[index].key.as_str());
            self.next = self.next + 1;
            if !pinned {
                return Some(index);
            }
        }
        None
    }

    /// The entry at position `index`.
    pub fn entry(&self, index: usize) -> (r: &CompletedEntry)
        requires
            index < self.entries().len(),
        ensures
            *r == self.entries()[index as int],
    {
        &self.entries[index]
    }

    /// Notes how the removal of an entry ended: one that is gone no longer counts.
    pub fn record(&mut self, index: usize, outcome: Removal)
        requires
            old(self).wf(),
            index < old(self).entries().len(),
        ensures
            final(self).wf(),
            final(self).entries() == old(self).entries(),
            final(self).order() == old(self).order(),
            final(self).place() == old(self).place(),
            final(self).bound() == old(self).bound(),
            final(self).total() == (if outcome == Removal::Failed {
                old(self).total()
            } else if old(self).total() < old(self).entries()[index as int].size {
                0
            } else {
                old(self).total() - old(self).entries()[index as int].size
            }),
    {
        match outcome {
            Removal::Failed => {},
            _ => {
                let size: u128 = self.entries[index].size as u128;
                self.total = if self.total < size {
                    0
                } else {
                    self.total - size
                };
            },
        }
    }
}

// ---------------------------------------------------------------------------
// Laws
// ---------------------------------------------------------------------------

/// The entries that a pass removes from `from` on when every removal succeeds and the pins
/// do not change.
pub open spec fn evicted(
    entries: Seq<CompletedEntry>,
    order: Seq<usize>,
    pins: Map<Seq<char>, u64>,
    bound: int,
    total: int,
    from: int,
) -> Seq<int>
    decreases order.len() - from,
{
    let k = next_unpinned(entries, order, pins, from);
    if total <= bound || k >= order.len() || k < from {
        Seq::empty()
    } else {
        seq![order[k] as int] + evicted(
            entries,
            order,
            pins,
            bound,
            total - entries[order[k] as int].size,
            k + 1,
        )
    }
}

/// The sizes of the listed entries together.
pub open spec fn sizes(entries: Seq<CompletedEntry>, list: Seq<int>) -> int
    decreases list.len(),
{
    if list.len() == 0 {
        0
    } else {
        entries[list[0]].size + sizes(entries, list.drop_first())
    }
}

proof fn lemma_next_unpinned(
    entries: Seq<CompletedEntry>,
    order: Seq<usize>,
    pins: Map<Seq<char>, u64>,
    from: int,
)
    requires
        0 <= from <= order.len(),
    ensures
        from <= next_unpinned(entries, order, pins, from) <= order.len(),
        forall|k: int|
            from <= k < next_unpinned(entries, order, pins, from) ==> pins.contains_key(
                entries[#[trigger] order[k] as int].key@,
            ),
        next_unpinned(entries, order, pins, from) < order.len() ==> !pins.contains_key(
            entries[order[next_unpinned(entries, order, pins, from)] as int].key@,
        ),
    decreases order.len() - from,
{
    if from < order.len() && pins.contains_key(entries[order[from] as int].key@) {
        lemma_next_unpinned(entries, order, pins, from + 1);
    }
}

/// The next entry of a pass is the first of those that it removes, and what it removes after
/// that is what a pass removes from the next place on with that much less; without a next
/// entry it removes nothing.
pub proof fn passes_remove_one_by_one(
    entries: Seq<CompletedEntry>,
    order: Seq<usize>,
    pins: Map<Seq<char>, u64>,
    bound: int,
    total: int,
    from: int,
)
    requires
        0 <= from <= order.len(),
    ensures
        ({
            let k = next_unpinned(entries, order, pins, from);
            let gone = evicted(entries, order, pins, bound, total, from);
            if total > bound && k < order.len() {
                let x = order[k] as int;
                gone == seq![x] + evicted(
                    entries,
                    order,
                    pins,
                    bound,
                    total - entries[x].size,
                    k + 1,
                )
            } else {
                gone.len() == 0
            }
        }),
{
    lemma_next_unpinned(entries, order, pins, from);
}

/// A cache within its bound keeps everything: a pass over it removes nothing.
pub proof fn a_cache_within_its_bound_keeps_everything(
    entries: Seq<CompletedEntry>,
    order: Seq<usize>,
    pins: Map<Seq<char>, u64>,
    bound: int,
    total: int,
    from: int,
)
    requires
        total <= bound,
    ensures
        evicted(entries, order, pins, bound, total, from).len() == 0,
{
}

/// A pass removes no pinned entry. It reaches the bound, or leaves nothing but pinned entries
/// behind it. It removes no entry before one that goes before it and is not pinned. And it
/// removes nothing once the bound is reached: without the last removal the cache would still
/// be past it.
pub proof fn eviction_is_oldest_first_and_no_more_than_needed(
    entries: Seq<CompletedEntry>,
    order: Seq<usize>,
    pins: Map<Seq<char>, u64>,
    bound: int,
    total: int,
    from: int,
)
    requires
        by_age(entries, order),
        lists(order, 0, entries.len() as int),
        0 <= from <= order.len(),
    ensures
        ({
            let gone = evicted(entries, order, pins, bound, total, from);
            &&& forall|i: int|
                0 <= i < gone.len() ==> 0 <= #[trigger] gone[i] < entries.len()
                    && !pins.contains_key(entries[gone[i]].key@)
            &&& total - sizes(entries, gone) <= bound || forall|k: int|
                from <= k < order.len() && !pins.contains_key(
                    entries[#[trigger] order[k] as int].key@,
                ) ==> gone.contains(order[k] as int)
            &&& forall|i: int, k: int|
                0 <= i < gone.len() && from <= k < order.len() && !pins.contains_key(
                    entries[#[trigger] order[k] as int].key@,
                ) && goes_before(entries, order[k] as int, #[trigger] gone[i]) ==> gone.contains(
                    order[k] as int,
                )
            &&& gone.len() > 0 ==> total - sizes(entries, gone.drop_last()) > bound
        }),
    decreases order.len() - from,
{
    let gone = evicted(entries, order, pins, bound, total, from);
    let k = next_unpinned(entries, order, pins, from);
    lemma_next_unpinned(entries, order, pins, from);
    if total <= bound || k >= order.len() {
        assert(sizes(entries, gone) == 0);
    } else {
        let x = order[k] as int;
        let rest_total = total - entries[x].size;
        let rest = evicted(entries, order, pins, bound, rest_total, k + 1);
        eviction_is_oldest_first_and_no_more_than_needed(
            entries,
            order,
            pins,
            bound,
            rest_total,
            k + 1,
        );
        assert(gone == seq![x] + rest);
        assert(gone[0] == x);
        assert(gone.contains(x));
        assert(gone.drop_first() =~= rest);
        assert forall|y: int| rest.contains(y) implies #[trigger] gone.contains(y) by {
            let i = choose|i: int| 0 <= i < rest.len() && rest[i] == y;
            assert(gone[i + 1] == y);
        }
        assert forall|i: int| 0 <= i < gone.len() implies 0 <= #[trigger] gone[i] < entries.len()
            && !pins.contains_key(entries[gone[i]].key@) by {
            if i > 0 {
                assert(gone[i] == rest[i - 1]);
            }
        }
        if total - sizes(entries, gone) > bound {
            assert forall|l: int|
                from <= l < order.len() && !pins.contains_key(
                    entries[#[trigger] order[l] as int].key@,
                ) implies gone.contains(order[l] as int) by {
                if l > k {
                    assert(rest.contains(order[l] as int));
                }
            }
        }
        assert forall|i: int, l: int|
            0 <= i < gone.len() && from <= l < order.len() && !pins.contains_key(
                entries[#[trigger] order[l] as int].key@,
            ) && goes_before(entries, order[l] as int, #[trigger] gone[i]) implies gone.contains(
            order[l] as int,
        ) by {
            if l > k {
                if i > 0 {
                    assert(gone[i] == rest[i - 1]);
                    assert(rest.contains(order[l] as int));
                } else {
                    assert(goes_before(entries, order[k] as int, order[l] as int));
                }
            }
        }
        if rest.len() > 0 {
            assert(gone.drop_last() =~= seq![x] + rest.drop_last());
            assert(gone.drop_last().drop_first() =~= rest.drop_last());
            assert(gone.drop_last()[0] == x);
        } else {
            assert(gone.drop_last() =~= Seq::<int>::empty());
        }
    }
}

/// The order of age: an entry goes before another where it was written earlier, or at the same
/// time and is listed before it; any two entries have an order, and only one.
pub proof fn older_entries_go_first(entries: Seq<CompletedEntry>, a: int, b: int)
    ensures
        entries[a].modified < entries[b].modified ==> goes_before(entries, a, b) && !goes_before(
            entries,
            b,
            a,
        ),
        entries[a].modified == entries[b].modified && a < b ==> goes_before(entries, a, b)
            && !goes_before(entries, b, a),
        !goes_before(entries, a, a),
{
}

/// The size of a cache is that of its entries together.
pub proof fn the_size_of_a_cache_is_that_of_its_entries(
    entries: Seq<CompletedEntry>,
    n: int,
)
    requires
        0 <= n < entries.len(),
    ensures
        total_size(entries, 0) == 0,
        total_size(entries, n + 1) == total_size(entries, n) + entries[n].size,
{
}

/// The next entry of a pass is the first in the order that is not pinned: all before it are, from
/// where the pass stands, and there is none only where all of them are.
pub proof fn pinned_entries_are_passed_over(
    entries: Seq<CompletedEntry>,
    order: Seq<usize>,
    pins: Map<Seq<char>, u64>,
    from: int,
    k: int,
)
    requires
        0 <= from <= k <= order.len(),
        forall|j: int|
            from <= j < k ==> pins.contains_key(entries[#[trigger] order[j] as int].key@),
        k < order.len() ==> !pins.contains_key(entries[order[k] as int].key@),
    ensures
        next_unpinned(entries, order, pins, from) == k,
    decreases k - from,
{
    if from < k {
        assert(pins.contains_key(entries[order[from] as int].key@));
        pinned_entries_are_passed_over(entries, order, pins, from + 1, k);
    }
}

/// What leaves together has the sizes of its entries together.
pub proof fn sizes_add_up(entries: Seq<CompletedEntry>, x: int, list: Seq<int>)
    ensures
        sizes(entries, Seq::empty()) == 0,
        sizes(entries, seq![x] + list) == entries[x].size + sizes(entries, list),
{
    assert((seq![x] + list).drop_first() =~= list);
}

/// A pass looks at every entry once: the order has as many places as there are entries, each
/// names one, every entry has a place, and no two places name the same.
pub proof fn every_entry_has_one_place(
    entries: Seq<CompletedEntry>,
    order: Seq<usize>,
    x: usize,
    i: int,
    j: int,
)
    requires
        by_age(entries, order),
        lists(order, 0, entries.len() as int),
        x < entries.len(),
        0 <= i < j < order.len(),
    ensures
        order.len() == entries.len(),
        exists|k: int| 0 <= k < order.len() && #[trigger] order[k] == x,
        order[i] < entries.len() && order[j] < entries.len(),
        order[i] != order[j],
        entries[order[i] as int].modified <= entries[order[j] as int].modified,
{
    assert(order.contains(x));
    let k = choose|k: int| 0 <= k < order.len() && order[k] == x;
    assert(order[k] == x);
    assert(goes_before(entries, order[i] as int, order[j] as int));
}

/// A pass stands at a place in an order of all of its entries by age.
pub proof fn passes_go_by_age(scan: EvictionScan)
    requires
        scan.wf(),
    ensures
        by_age(scan.entries(), scan.order()),
        lists(scan.order(), 0, scan.entries().len() as int),
        0 <= scan.place() <= scan.order().len(),
        scan.total() >= 0,
{
}

} // verus!
