//! A map with text keys, kept in the order of its keys.
use crate::text::chars_of;
use vstd::prelude::*;
use vstd::string::*;

verus! {

/// Lexicographic order of texts, character by character.
pub open spec fn text_less(a: Seq<char>, b: Seq<char>) -> bool
    decreases a.len(),
{
    if b.len() == 0 {
        false
    } else if a.len() == 0 {
        true
    } else if a[0] != b[0] {
        a[0] < b[0]
    } else {
        text_less(a.drop_first(), b.drop_first())
    }
}

/// Entries in strictly ascending order of their keys.
pub open spec fn ascending<V>(entries: Seq<(String, V)>) -> bool {
    forall|i: int, j: int|
        0 <= i < j < entries.len() ==> text_less(
            (#[trigger] entries[i]).0@,
            (#[trigger] entries[j]).0@,
        )
}

/// One of the entries has the key.
pub open spec fn has_key<V>(entries: Seq<(String, V)>, key: Seq<char>) -> bool {
    exists|i: int| 0 <= i < entries.len() && (#[trigger] entries[i]).0@ == key
}

/// The position of the key.
pub open spec fn position<V>(entries: Seq<(String, V)>, key: Seq<char>) -> int {
    choose|i: int| 0 <= i < entries.len() && (#[trigger] entries[i]).0@ == key
}

/// The map that entries list.
pub open spec fn map_of<V>(entries: Seq<(String, V)>) -> Map<Seq<char>, V> {
    Map::new(
        |key: Seq<char>| has_key(entries, key),
        |key: Seq<char>| entries[position(entries, key)].1,
    )
}

/// The keys and values of entries, in their order.
pub open spec fn listing_of<V>(entries: Seq<(String, V)>) -> Seq<(Seq<char>, V)> {
    entries.map_values(|e: (String, V)| (e.0@, e.1))
}

/// A map with text keys.
#[derive(Debug)]
pub struct TextMap<V> {
    entries: Vec<(String, V)>,
}

impl<V> View for TextMap<V> {
    type V = Map<Seq<char>, V>;

    closed spec fn view(&self) -> Map<Seq<char>, V> {
        map_of(self.entries@)
    }
}

pub proof fn lemma_less_irreflexive(a: Seq<char>)
    ensures
        !text_less(a, a),
    decreases a.len(),
{
    if a.len() > 0 {
        lemma_less_irreflexive(a.drop_first());
    }
}

pub proof fn lemma_less_transitive(a: Seq<char>, b: Seq<char>, c: Seq<char>)
    requires
        text_less(a, b),
        text_less(b, c),
    ensures
        text_less(a, c),
    decreases a.len(),
{
    if a.len() > 0 && a[0] == b[0] && b[0] == c[0] {
        lemma_less_transitive(a.drop_first(), b.drop_first(), c.drop_first());
    }
}

pub proof fn lemma_less_total(a: Seq<char>, b: Seq<char>)
    ensures
        text_less(a, b) || text_less(b, a) || a == b,
    decreases a.len(),
{
    if a.len() > 0 && b.len() > 0 {
        if a[0] == b[0] {
            lemma_less_total(a.drop_first(), b.drop_first());
            if a.drop_first() == b.drop_first() {
                assert(a =~= seq![a[0]] + a.drop_first());
                assert(b =~= seq![b[0]] + b.drop_first());
            }
        }
    } else if a.len() == 0 && b.len() == 0 {
        assert(a =~= b);
    }
}

/// A key stands at one position at most.
proof fn lemma_position<V>(entries: Seq<(String, V)>, i: int)
    requires
        ascending(entries),
        0 <= i < entries.len(),
    ensures
        has_key(entries, entries[i].0@),
        position(entries, entries[i].0@) == i,
{
    let key = entries[i].0@;
    let p = position(entries, key);
    lemma_less_irreflexive(key);
    assert(entries[i].0@ == key);
    assert(0 <= p < entries.len() && entries[p].0@ == key);
}

/// Tells whether `a` comes before `b`.
pub fn less(a: &str, b: &str) -> (r: bool)
    ensures
        r == text_less(a@, b@),
{
    let x = chars_of(a);
    let y = chars_of(b);
    let mut i: usize = 0;
    proof {
        assert(a@.skip(0) =~= a@);
        assert(b@.skip(0) =~= b@);
    }
    while i < x.len() && i < y.len()
        invariant
            x@ == a@,
            y@ == b@,
            i <= x.len(),
            i <= y.len(),
            text_less(a@, b@) == text_less(a@.skip(i as int), b@.skip(i as int)),
        decreases x.len() - i,
    {
        if x[i] != y[i] {
            return x[i] < y[i];
        }
        proof {
            assert(a@.skip(i as int).drop_first() =~= a@.skip(i + 1));
            assert(b@.skip(i as int).drop_first() =~= b@.skip(i + 1));
        }
        i = i + 1;
    }
    i < y.len()
}

impl<V> TextMap<V> {
    /// The entries are in order.
    pub closed spec fn wf(&self) -> bool {
        ascending(self.entries@)
    }

    /// The keys and values, in ascending order of the keys.
    pub closed spec fn listing(&self) -> Seq<(Seq<char>, V)> {
        listing_of(self.entries@)
    }

    /// The listing is in order and holds what the map holds.
    pub proof fn lemma_listing(&self)
        requires
            self.wf(),
        ensures
            forall|i: int, j: int|
                0 <= i < j < self.listing().len() ==> text_less(
                    (#[trigger] self.listing()[i]).0,
                    (#[trigger] self.listing()[j]).0,
                ),
            forall|i: int|
                0 <= i < self.listing().len() ==> self@.contains_key(
                    (#[trigger] self.listing()[i]).0,
                ) && self@[self.listing()[i].0] == self.listing()[i].1,
            forall|key: Seq<char>| #[trigger]
                self@.contains_key(key) ==> exists|i: int|
                    0 <= i < self.listing().len() && (#[trigger] self.listing()[i]).0 == key,
    {
        let es = self.entries@;
        assert forall|i: int| 0 <= i < self.listing().len() implies self@.contains_key(
            (#[trigger] self.listing()[i]).0,
        ) && self@[self.listing()[i].0] == self.listing()[i].1 by {
            lemma_position(es, i);
        }
        assert forall|key: Seq<char>| #[trigger] self@.contains_key(key) implies exists|i: int|
            0 <= i < self.listing().len() && (#[trigger] self.listing()[i]).0 == key by {
            let p = position(es, key);
            assert(self.listing()[p].0 == key);
        }
    }

    /// A map without entries.
    pub fn new() -> (r: Self)
        ensures
            r.wf(),
            r@ == Map::<Seq<char>, V>::empty(),
    {
        let r = TextMap { entries: Vec::new() };
        proof {
            assert(r@ =~= Map::<Seq<char>, V>::empty());
        }
        r
    }

    /// The position of `key`, or where it would stand.
    fn search(&self, key: &str) -> (r: (usize, bool))
        requires
            self.wf(),
        ensures
            r.0 <= self.entries@.len(),
            forall|i: int|
                0 <= i < r.0 ==> text_less((#[trigger] self.entries@[i]).0@, key@),
            r.1 ==> r.0 < self.entries@.len() && self.entries@[r.0 as int].0@ == key@,
            !r.1 ==> !has_key(self.entries@, key@) && forall|i: int|
                r.0 <= i < self.entries@.len() ==> text_less(
                    key@,
                    (#[trigger] self.entries@[i]).0@,
                ),
    {
        let mut i: usize = 0;
        while i < self.entries.len() && less(self.entries[i].0.as_str(), key)
            invariant
                self.wf(),
                i <= self.entries.len(),
                forall|j: int| 0 <= j < i ==> text_less((#[trigger] self.entries@[j]).0@, key@),
            decreases self.entries.len() - i,
        {
            i = i + 1;
        }
        if i < self.entries.len() && !less(key, self.entries[i].0.as_str()) {
            proof {
                lemma_less_total(self.entries@[i as int].0@, key@);
            }
            (i, true)
        } else {
            proof {
                assert forall|j: int| i <= j < self.entries@.len() implies text_less(
                    key@,
                    (#[trigger] self.entries@[j]).0@,
                ) by {
                    if j > i {
                        lemma_less_transitive(
                            key@,
                            self.entries@[i as int].0@,
                            self.entries@[j].0@,
                        );
                    }
                }
                lemma_less_irreflexive(key@);
            }
            (i, false)
        }
    }

    /// Tells whether there is an entry for `key`.
    pub fn contains_key(&self, key: &str) -> (r: bool)
        requires
            self.wf(),
        ensures
            r == self@.contains_key(key@),
    {
        self.search(key).1
    }

    /// The value of `key`.
    pub fn get(&self, key: &str) -> (r: Option<&V>)
        requires
            self.wf(),
        ensures
            match r {
                Some(v) => self@.contains_key(key@) && self@[key@] == *v,
                None => !self@.contains_key(key@),
            },
    {
        let (at, found) = self.search(key);
        if found {
            proof {
                lemma_position(self.entries@, at as int);
            }
            Some(&self.entries[at].1)
        } else {
            None
        }
    }

    /// Gives `key` the value `value`.
    pub fn insert(&mut self, key: String, value: V)
        requires
            old(self).wf(),
        ensures
            final(self).wf(),
            final(self)@ == old(self)@.insert(key@, value),
    {
        let ghost before = self.entries@;
        let ghost name = key@;
        let (at, found) = self.search(key.as_str());
        if found {
            self.entries[at] = (key, value);
        } else {
            self.entries.insert(at, (key, value));
        }
        proof {
            let after = self.entries@;
            assert forall|i: int, j: int| 0 <= i < j < after.len() implies text_less(
                (#[trigger] after[i]).0@,
                (#[trigger] after[j]).0@,
            ) by {
                if !found {
                    if i < at && j > at {
                        lemma_less_transitive(before[i].0@, name, before[j - 1].0@);
                    }
                }
            }
            assert(ascending(after));
            assert(after[at as int].0@ == name);
            lemma_position(after, at as int);
            assert forall|k: Seq<char>| #[trigger] has_key(after, k) == (has_key(before, k) || k
                == name) by {
                if has_key(before, k) && k != name {
                    let p = position(before, k);
                    if found || p < at {
                        assert(after[p].0@ == k);
                    } else {
                        assert(after[p + 1].0@ == k);
                    }
                }
                if has_key(after, k) && k != name {
                    let p = position(after, k);
                    if found || p < at {
                        assert(before[p].0@ == k);
                    } else {
                        assert(before[p - 1].0@ == k);
                    }
                }
            }
            assert forall|k: Seq<char>| has_key(before, k) && k != name implies after[position(
                after,
                k,
            )].1 == #[trigger] before[position(before, k)].1 by {
                let p = position(before, k);
                if found || p < at {
                    lemma_position(after, p);
                } else {
                    lemma_position(after, p + 1);
                }
            }
            assert(self@ =~= old(self)@.insert(name, value));
        }
    }

    /// Removes `key`.
    pub fn remove(&mut self, key: &str)
        requires
            old(self).wf(),
        ensures
            final(self).wf(),
            final(self)@ == old(self)@.remove(key@),
    {
        let ghost before = self.entries@;
        let (at, found) = self.search(key);
        if found {
            let _ = self.entries.remove(at);
        }
        proof {
            let after = self.entries@;
            if found {
                assert forall|k: Seq<char>| #[trigger] has_key(after, k) == (has_key(before, k) && k
                    != key@) by {
                    if has_key(before, k) && k != key@ {
                        let p = position(before, k);
                        if p < at {
                            assert(after[p].0@ == k);
                        } else {
                            assert(after[p - 1].0@ == k);
                        }
                    }
                    if has_key(after, k) {
                        let p = position(after, k);
                        lemma_less_irreflexive(key@);
                        if p < at {
                            assert(before[p].0@ == k);
                        } else {
                            assert(before[p + 1].0@ == k);
                        }
                    }
                }
                assert forall|k: Seq<char>| has_key(before, k) && k != key@ implies after[position(
                    after,
                    k,
                )].1 == #[trigger] before[position(before, k)].1 by {
                    let p = position(before, k);
                    if p < at {
                        lemma_position(after, p);
                    } else {
                        lemma_position(after, p - 1);
                    }
                }
            }
            assert(self@ =~= old(self)@.remove(key@));
        }
    }

    /// The entries, in ascending order of their keys.
    pub fn entries(&self) -> (r: &Vec<(String, V)>)
        requires
            self.wf(),
        ensures
            ascending(r@),
            map_of(r@) == self@,
            listing_of(r@) == self.listing(),
    {
        &self.entries
    }
}

impl<V: Copy> TextMap<V> {
    /// A copy of the map.
    pub fn copy(&self) -> (r: Self)
        requires
            self.wf(),
        ensures
            r.wf(),
            r@ == self@,
            r.listing() == self.listing(),
    {
        let mut entries: Vec<(String, V)> = Vec::new();
        let mut i: usize = 0;
        let ghost all = self.entries@;
        while i < self.entries.len()
            invariant
                i <= self.entries.len(),
                all == self.entries@,
                entries.len() == i,
                forall|j: int|
                    0 <= j < i ==> (#[trigger] entries@[j]).0@ == all[j].0@ && entries@[j].1
                        == all[j].1,
            decreases self.entries.len() - i,
        {
            entries.push((self.entries[i].0.clone(), self.entries[i].1));
            i = i + 1;
        }
        let r = TextMap { entries };
        proof {
            assert(ascending(r.entries@)) by {
                assert forall|i: int, j: int| 0 <= i < j < entries@.len() implies text_less(
                    (#[trigger] entries@[i]).0@,
                    (#[trigger] entries@[j]).0@,
                ) by {
                    assert(text_less(all[i].0@, all[j].0@));
                }
            }
            assert(r.listing() =~= self.listing());
            assert forall|key: Seq<char>| #[trigger] has_key(r.entries@, key) == has_key(
                all,
                key,
            ) by {
                if has_key(all, key) {
                    let p = position(all, key);
                    assert(r.entries@[p].0@ == key);
                }
                if has_key(r.entries@, key) {
                    let p = position(r.entries@, key);
                    assert(all[p].0@ == key);
                }
            }
            assert forall|key: Seq<char>| has_key(all, key) implies r.entries@[position(
                r.entries@,
                key,
            )].1 == #[trigger] all[position(all, key)].1 by {
                let p = position(all, key);
                lemma_position(r.entries@, p);
            }
            assert(r@ =~= self@);
        }
        r
    }
}

/// Texts are ordered by their first difference, and a text comes before every longer one that it
/// begins.
pub proof fn texts_are_ordered_by_their_first_difference(
    front: Seq<char>,
    c: char,
    a: Seq<char>,
    d: char,
    b: Seq<char>,
)
    requires
        c != d,
    ensures
        text_less(front + seq![c] + a, front + seq![d] + b) <==> c < d,
        text_less(front, front + seq![c] + a),
        !text_less(front + seq![c] + a, front),
    decreases front.len(),
{
    let x = front + seq![c] + a;
    let y = front + seq![d] + b;
    if front.len() > 0 {
        let rest = front.drop_first();
        texts_are_ordered_by_their_first_difference(rest, c, a, d, b);
        assert(x.drop_first() =~= rest + seq![c] + a);
        assert(y.drop_first() =~= rest + seq![d] + b);
        assert(x[0] == front[0] && y[0] == front[0]);
    } else {
        assert(x[0] == c && y[0] == d);
    }
}

/// A listing shows key and value of each entry, in their order; a map holds under each key that is
/// listed the value that stands beside it.
pub proof fn maps_hold_what_is_listed<V>(entries: Seq<(String, V)>, i: int)
    requires
        ascending(entries),
        0 <= i < entries.len(),
    ensures
        listing_of(entries).len() == entries.len(),
        listing_of(entries)[i] == (entries[i].0@, entries[i].1),
        map_of(entries).contains_key(entries[i].0@),
        map_of(entries)[entries[i].0@] == entries[i].1,
{
    lemma_position(entries, i);
}

/// A map holds nothing that is not listed.
pub proof fn maps_hold_nothing_else<V>(entries: Seq<(String, V)>, key: Seq<char>)
    ensures
        map_of(entries).contains_key(key) <==> exists|i: int|
            0 <= i < entries.len() && (#[trigger] entries[i]).0@ == key,
{
}

} // verus!
