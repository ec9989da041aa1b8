//! The shared store: a map from key to reading, written as whole
//! replacements, the last write of a key winning.
use vstd::prelude::*;

verus! {

/// The map obtained by applying the writes of `w`, in order, on top of `m`:
/// each write replaces the value of its key, so a later write of a key wins
/// over `m` and over every earlier write.
pub open spec fn overlay(m: Map<Seq<char>, u64>, w: Seq<(Seq<char>, u64)>) -> Map<Seq<char>, u64>
    decreases w.len(),
{
    if w.len() == 0 {
        m
    } else {
        overlay(m, w.drop_last()).insert(w.last().0, w.last().1)
    }
}

/// The writes of a sequence of owned pairs, with each key seen as its characters.
pub open spec fn writes_of(v: Seq<(String, u64)>) -> Seq<(Seq<char>, u64)> {
    v.map_values(|e: (String, u64)| (e.0@, e.1))
}

/// A write after which no later write in `w` touches its key decides that key.
pub proof fn lemma_overlay_last_write(m: Map<Seq<char>, u64>, w: Seq<(Seq<char>, u64)>, i: int)
    requires
        0 <= i < w.len(),
        forall|j: int| i < j < w.len() ==> w[j].0 != w[i].0,
    ensures
        overlay(m, w).contains_key(w[i].0),
        overlay(m, w)[w[i].0] == w[i].1,
    decreases w.len(),
{
    if i < w.len() - 1 {
        lemma_overlay_last_write(m, w.drop_last(), i);
    }
}

/// A key that no write of `w` touches keeps what `m` gave it.
pub proof fn lemma_overlay_untouched(m: Map<Seq<char>, u64>, w: Seq<(Seq<char>, u64)>, k: Seq<char>)
    requires
        forall|j: int| 0 <= j < w.len() ==> w[j].0 != k,
    ensures
        overlay(m, w).contains_key(k) == m.contains_key(k),
        m.contains_key(k) ==> overlay(m, w)[k] == m[k],
    decreases w.len(),
{
    if w.len() > 0 {
        lemma_overlay_untouched(m, w.drop_last(), k);
    }
}

/// Writes are whole: after the writes of `w` on top of `m`, the value of a
/// key is either the one it had in `m` or one that a write of `w` put there
/// in full, never a value that neither state held.
pub proof fn lemma_overlay_values_are_written(m: Map<Seq<char>, u64>, w: Seq<(Seq<char>, u64)>, k: Seq<char>)
    requires
        overlay(m, w).contains_key(k),
    ensures
        (m.contains_key(k) && overlay(m, w)[k] == m[k])
            || exists|i: int| 0 <= i < w.len() && #[trigger] w[i] == (k, overlay(m, w)[k]),
    decreases w.len(),
{
    if w.len() > 0 {
        let last = w.len() - 1;
        if w[last].0 != k {
            lemma_overlay_values_are_written(m, w.drop_last(), k);
            if !(m.contains_key(k) && overlay(m, w)[k] == m[k]) {
                let i = choose|i: int| 0 <= i < w.drop_last().len()
                    && #[trigger] w.drop_last()[i] == (k, overlay(m, w.drop_last())[k]);
                assert(w[i] == w.drop_last()[i]);
            }
        } else {
            assert(w[last] == (k, overlay(m, w)[k]));
        }
    }
}

/// Rewriting in place the only write of a key is the same as writing the key
/// once more at the end.
proof fn lemma_overlay_rewrite(m: Map<Seq<char>, u64>, w: Seq<(Seq<char>, u64)>, i: int, v: u64)
    requires
        0 <= i < w.len(),
        forall|j: int| 0 <= j < w.len() && j != i ==> w[j].0 != w[i].0,
    ensures
        overlay(m, w.update(i, (w[i].0, v))) == overlay(m, w).insert(w[i].0, v),
    decreases w.len(),
{
    let u = w.update(i, (w[i].0, v));
    if i == w.len() - 1 {
        assert(u.drop_last() == w.drop_last());
        assert(overlay(m, u) =~= overlay(m, w).insert(w[i].0, v));
    } else {
        assert(u.drop_last() == w.drop_last().update(i, (w[i].0, v)));
        lemma_overlay_rewrite(m, w.drop_last(), i, v);
        assert(overlay(m, u) =~= overlay(m, w).insert(w[i].0, v));
    }
}

/// The store: one entry per key that has been written, in the order in which
/// the keys were first seen.
///
/// The entries are a `Vec` rather than a hash map so that what the store
/// holds can be stated and proved: with `String` keys a hash map's contents
/// cannot be reasoned about here. The cost is a linear scan: a read or a
/// single write takes time proportional to the number of keys, and merging a
/// snapshot of `m` entries takes `m` times that, all while the caller's lock
/// is held.
pub struct Store {
    entries: Vec<(String, u64)>,
}

impl View for Store {
    type V = Map<Seq<char>, u64>;

    closed spec fn view(&self) -> Map<Seq<char>, u64> {
        overlay(Map::empty(), writes_of(self.entries@))
    }
}

impl Store {
    /// No key has two entries.
    pub closed spec fn wf(&self) -> bool {
        forall|i: int, j: int|
            0 <= i < self.entries@.len() && 0 <= j < self.entries@.len() && i != j
                ==> self.entries@[i].0@ != self.entries@[j].0@
    }

    /// An empty store.
    pub fn new() -> (s: Store)
        ensures
            s.wf(),
            s@ == Map::<Seq<char>, u64>::empty(),
    {
        let s = Store { entries: Vec::new() };
        assert(writes_of(s.entries@).len() == 0);
        s
    }

    /// Index of the entry of `key`, if there is one.
    fn find(&self, key: &String) -> (r: Option<usize>)
        requires
            self.wf(),
        ensures
            match r {
                Some(i) => i < self.entries@.len() && self.entries@[i as int].0@ == key@,
                None => forall|j: int| 0 <= j < self.entries@.len() ==> self.entries@[j].0@ != key@,
            },
    {
        let mut i: usize = 0;
        while i < self.entries.len()
            invariant
                i <= self.entries@.len(),
                forall|j: int| 0 <= j < i ==> self.entries@[j].0@ != key@,
            decreases self.entries@.len() - i,
        {
            if self.entries[i].0 == *key {
                return Some(i);
            }
            i = i + 1;
        }
        None
    }

    /// The current value of `key`, or `None` if it has never been written.
    pub fn read(&self, key: &str) -> (r: Option<u64>)
        requires
            self.wf(),
        ensures
            r == (if self@.contains_key(key@) { Some(self@[key@]) } else { None::<u64> }),
    {
        let k = key.to_owned();
        let w = Ghost(writes_of(self.entries@));
        match self.find(&k) {
            Some(i) => {
                proof {
                    assert(w@[i as int].0 == key@);
                    lemma_overlay_last_write(Map::empty(), w@, i as int);
                }
                Some(self.entries[i].1)
            },
            None => {
                proof {
                    assert forall|j: int| 0 <= j < w@.len() implies w@[j].0 != key@ by {
                        assert(w@[j].0 == self.entries@[j].0@);
                    }
                    lemma_overlay_untouched(Map::empty(), w@, key@);
                }
                None
            },
        }
    }

    /// Inserts `key` with `value`, or replaces its value.
    pub fn upsert_one(&mut self, key: String, value: u64)
        requires
            old(self).wf(),
        ensures
            final(self).wf(),
            final(self)@ == old(self)@.insert(key@, value),
    {
        let ghost w = writes_of(self.entries@);
        match self.find(&key) {
            Some(i) => {
                self.entries.set(i, (key, value));
                proof {
                    lemma_overlay_rewrite(Map::empty(), w, i as int, value);
                    assert(writes_of(self.entries@) =~= w.update(i as int, (w[i as int].0, value)));
                }
            },
            None => {
                self.entries.push((key, value));
                proof {
                    assert(writes_of(self.entries@).drop_last() =~= w);
                }
            },
        }
    }

    /// Applies every write of `snapshot`, in order, as one step.
    pub fn upsert_many(&mut self, snapshot: &Vec<(String, u64)>)
        requires
            old(self).wf(),
        ensures
            final(self).wf(),
            final(self)@ == overlay(old(self)@, writes_of(snapshot@)),
    {
        let ghost start = self@;
        let mut i: usize = 0;
        assert(writes_of(snapshot@.subrange(0, 0)).len() == 0);
        while i < snapshot.len()
            invariant
                i <= snapshot@.len(),
                self.wf(),
                self@ == overlay(start, writes_of(snapshot@.subrange(0, i as int))),
            decreases snapshot@.len() - i,
        {
            let k = snapshot[i].0.clone();
            self.upsert_one(k, snapshot[i].1);
            proof {
                assert(writes_of(snapshot@.subrange(0, i + 1)).drop_last()
                    =~= writes_of(snapshot@.subrange(0, i as int)));
            }
            i = i + 1;
        }
        assert(snapshot@.subrange(0, snapshot@.len() as int) =~= snapshot@);
    }
}

} // verus!
