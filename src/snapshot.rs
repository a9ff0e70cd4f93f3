//! Height-indexed values.
//!
//! A [`Snapshot`] is an append-only log of `(height, value)` writes. A write
//! made at height `h` is what a read "as of height `q`" sees for every
//! `q > h`: reads as of a height see the state at the start of that block,
//! so anything written during a block takes effect from the next one. Two
//! writes within one block collapse into one entry.

use vstd::prelude::*;

verus! {

/// The value of the last write in `log` made strictly below height `q`.
pub open spec fn value_at<V>(log: Seq<(u64, V)>, q: int) -> Option<V>
    decreases log.len(),
{
    if log.len() == 0 {
        None
    } else if (log.last().0 as int) < q {
        Some(log.last().1)
    } else {
        value_at(log.drop_last(), q)
    }
}

/// In a log whose heights increase, the value as of `q` is that of the last
/// write below `q`, found at the boundary `p` between the writes below `q`
/// and the others.
proof fn lemma_value_at_split<V>(log: Seq<(u64, V)>, q: int, p: int)
    requires
        forall|i: int, j: int| 0 <= i < j < log.len() ==> log[i].0 < log[j].0,
        0 <= p <= log.len(),
        forall|k: int| 0 <= k < p ==> (#[trigger] log[k]).0 < q,
        forall|k: int| p <= k < log.len() ==> (#[trigger] log[k]).0 >= q,
    ensures
        value_at(log, q) == if p == 0 {
            None
        } else {
            Some(log[p - 1].1)
        },
    decreases log.len(),
{
    if log.len() > 0 && p < log.len() {
        let shorter = log.drop_last();
        assert forall|k: int| 0 <= k < p implies (#[trigger] shorter[k]).0 < q by {
            assert(shorter[k] == log[k]);
        }
        assert forall|k: int| p <= k < shorter.len() implies (#[trigger] shorter[k]).0 >= q by {
            assert(shorter[k] == log[k]);
        }
        lemma_value_at_split(shorter, q, p);
        if p > 0 {
            assert(shorter[p - 1] == log[p - 1]);
        }
    }
}

/// A value with its history, one entry per block in which it was written.
pub struct Snapshot<V> {
    log: Vec<(u64, V)>,
}

impl<V: Copy> Snapshot<V> {
    /// The value as of the start of block `q`.
    pub closed spec fn at(&self, q: int) -> Option<V> {
        value_at(self.log@, q)
    }

    /// The value after every write made so far.
    pub closed spec fn latest(&self) -> Option<V> {
        if self.log@.len() == 0 {
            None
        } else {
            Some(self.log@.last().1)
        }
    }

    /// No write has been made above height `h`, so `h` may be written.
    pub closed spec fn writable_at(&self, h: int) -> bool {
        self.log@.len() == 0 || (self.log@.last().0 as int) <= h
    }

    /// The log's heights strictly increase.
    pub closed spec fn wf(&self) -> bool {
        forall|i: int, j: int| 0 <= i < j < self.log@.len() ==> self.log@[i].0 < self.log@[j].0
    }

    /// Reads as of a block above every write see the latest value.
    pub proof fn lemma_at_after_writes(&self, h: int, q: int)
        requires
            self.writable_at(h),
            h < q,
        ensures
            self.at(q) == self.latest(),
    {
    }

    /// Writability only grows with the height.
    pub proof fn lemma_writable_mono(&self, h: int, h2: int)
        requires
            self.writable_at(h),
            h <= h2,
        ensures
            self.writable_at(h2),
    {
    }

    pub fn new() -> (r: Snapshot<V>)
        ensures
            r.wf(),
            forall|q: int| #[trigger] r.at(q) == None::<V>,
            r.latest() == None::<V>,
            forall|h: int| #[trigger] r.writable_at(h),
    {
        Snapshot { log: Vec::new() }
    }

    /// Records `value` as written at height `h`.
    pub fn save(&mut self, h: u64, value: V)
        requires
            old(self).wf(),
            old(self).writable_at(h as int),
        ensures
            final(self).wf(),
            forall|q: int| #[trigger]
                final(self).at(q) == if (h as int) < q {
                    Some(value)
                } else {
                    old(self).at(q)
                },
            final(self).latest() == Some(value),
            forall|h2: int| (h as int) <= h2 ==> #[trigger] final(self).writable_at(h2),
    {
        let n = self.log.len();
        if n > 0 && self.log[n - 1].0 == h {
            let ghost before = self.log@;
            self.log.pop();
            proof {
                assert(self.log@ =~= before.drop_last());
                assert forall|q: int| (q <= h as int) implies #[trigger] value_at(before, q)
                    == value_at(before.drop_last(), q) by {}
            }
        }
        let ghost mid = self.log@;
        self.log.push((h, value));
        proof {
            assert(self.log@.drop_last() =~= mid);
        }
    }

    /// The latest value.
    pub fn may_load(&self) -> (r: Option<V>)
        ensures
            r == self.latest(),
    {
        let n = self.log.len();
        if n == 0 {
            None
        } else {
            Some(self.log[n - 1].1)
        }
    }

    /// The value as of the start of block `q`, found by binary search.
    pub fn may_load_at_height(&self, q: u64) -> (r: Option<V>)
        requires
            self.wf(),
        ensures
            r == self.at(q as int),
    {
        let mut lo: usize = 0;
        let mut hi: usize = self.log.len();
        while lo < hi
            invariant
                self.wf(),
                lo <= hi <= self.log@.len(),
                forall|k: int| 0 <= k < lo ==> (#[trigger] self.log@[k]).0 < q,
                forall|k: int| hi <= k < self.log@.len() ==> (#[trigger] self.log@[k]).0 >= q,
            decreases hi - lo,
        {
            let mid = lo + (hi - lo) / 2;
            if self.log[mid].0 < q {
                lo = mid + 1;
            } else {
                hi = mid;
            }
        }
        proof {
            lemma_value_at_split(self.log@, q as int, lo as int);
        }
        if lo == 0 {
            None
        } else {
            Some(self.log[lo - 1].1)
        }
    }
}


/// Position of the first entry of `s`, from `i` on, keyed by `a`.
pub open spec fn key_pos<V>(s: Seq<(String, Snapshot<V>)>, a: Seq<char>, i: int) -> Option<int>
    decreases s.len() - i,
{
    if i < 0 || i >= s.len() {
        None
    } else if s[i].0@ == a {
        Some(i)
    } else {
        key_pos(s, a, i + 1)
    }
}

proof fn lemma_key_pos_bounds<V>(s: Seq<(String, Snapshot<V>)>, a: Seq<char>, i: int)
    requires
        0 <= i,
    ensures
        match key_pos(s, a, i) {
            Some(j) => i <= j < s.len() && s[j].0@ == a,
            None => forall|k: int| i <= k < s.len() ==> (#[trigger] s[k]).0@ != a,
        },
    decreases s.len() - i,
{
    if 0 <= i < s.len() && s[i].0@ != a {
        lemma_key_pos_bounds(s, a, i + 1);
    }
}

proof fn lemma_key_pos_push<V>(s: Seq<(String, Snapshot<V>)>, x: (String, Snapshot<V>), a: Seq<char>, i: int)
    requires
        0 <= i <= s.len(),
    ensures
        key_pos(s.push(x), a, i) == match key_pos(s, a, i) {
            Some(j) => Some(j),
            None => if x.0@ == a {
                Some(s.len() as int)
            } else {
                None
            },
        },
    decreases s.len() - i,
{
    let p = s.push(x);
    if i < s.len() {
        assert(p[i] == s[i]);
        if s[i].0@ != a {
            lemma_key_pos_push(s, x, a, i + 1);
        }
    } else {
        assert(p[i] == x);
        assert(key_pos(p, a, i + 1) == None::<int>);
    }
}

proof fn lemma_key_pos_update<V>(s: Seq<(String, Snapshot<V>)>, k: int, x: (String, Snapshot<V>), a: Seq<char>, i: int)
    requires
        0 <= k < s.len(),
        s[k].0@ == x.0@,
    ensures
        key_pos(s.update(k, x), a, i) == key_pos(s, a, i),
    decreases s.len() - i,
{
    if 0 <= i < s.len() && s.update(k, x)[i].0@ != a {
        lemma_key_pos_update(s, k, x, a, i + 1);
    }
}

/// Height-indexed values keyed by address.
pub struct SnapshotMap<V> {
    entries: Vec<(String, Snapshot<V>)>,
}

impl<V: Copy> SnapshotMap<V> {
    /// The value for `a` as of the start of block `q`.
    pub closed spec fn at(&self, a: Seq<char>, q: int) -> Option<V> {
        match key_pos(self.entries@, a, 0) {
            Some(i) => self.entries@[i].1.at(q),
            None => None,
        }
    }

    /// The value for `a` after every write so far.
    pub closed spec fn latest(&self, a: Seq<char>) -> Option<V> {
        match key_pos(self.entries@, a, 0) {
            Some(i) => self.entries@[i].1.latest(),
            None => None,
        }
    }

    /// No write has been made above height `h`.
    pub closed spec fn writable_at(&self, h: int) -> bool {
        forall|i: int| 0 <= i < self.entries@.len() ==> (#[trigger] self.entries@[i]).1.writable_at(h)
    }

    /// Every history's heights strictly increase.
    pub closed spec fn wf(&self) -> bool {
        forall|i: int| 0 <= i < self.entries@.len() ==> (#[trigger] self.entries@[i]).1.wf()
    }

    /// The addresses written so far, in the order of their first write.
    pub closed spec fn keys(&self) -> Seq<Seq<char>> {
        Seq::new(self.entries@.len(), |i: int| self.entries@[i].0@)
    }

    /// Reads as of a block above every write see the latest values.
    pub proof fn lemma_at_after_writes(&self, h: int, q: int, a: Seq<char>)
        requires
            self.writable_at(h),
            h < q,
        ensures
            self.at(a, q) == self.latest(a),
    {
        if let Some(i) = key_pos(self.entries@, a, 0) {
            lemma_key_pos_bounds(self.entries@, a, 0);
            self.entries@[i].1.lemma_at_after_writes(h, q);
        }
    }

    /// Writability only grows with the height.
    pub proof fn lemma_writable_mono(&self, h: int, h2: int)
        requires
            self.writable_at(h),
            h <= h2,
        ensures
            self.writable_at(h2),
    {
        assert forall|i: int| 0 <= i < self.entries@.len() implies (
        #[trigger] self.entries@[i]).1.writable_at(h2) by {
            self.entries@[i].1.lemma_writable_mono(h, h2);
        }
    }

    /// An address that was never written has no value.
    pub proof fn lemma_unwritten(&self, a: Seq<char>, q: int)
        requires
            !self.keys().contains(a),
        ensures
            self.at(a, q) == None::<V>,
            self.latest(a) == None::<V>,
    {
        lemma_key_pos_bounds(self.entries@, a, 0);
        if let Some(j) = key_pos(self.entries@, a, 0) {
            assert(self.keys()[j] == a);
        }
    }

    pub fn new() -> (r: SnapshotMap<V>)
        ensures
            r.wf(),
            forall|a: Seq<char>, q: int| #[trigger] r.at(a, q) == None::<V>,
            forall|a: Seq<char>| #[trigger] r.latest(a) == None::<V>,
            forall|h: int| #[trigger] r.writable_at(h),
            r.keys() == Seq::<Seq<char>>::empty(),
    {
        let r = SnapshotMap { entries: Vec::new() };
        assert(r.keys() =~= Seq::<Seq<char>>::empty());
        r
    }

    /// The latest value for `a`.
    pub fn may_load(&self, a: &String) -> (r: Option<V>)
        ensures
            r == self.latest(a@),
    {
        match self.find(a) {
            Some(i) => self.entries[i].1.may_load(),
            None => None,
        }
    }

    /// The value for `a` as of the start of block `q`.
    pub fn may_load_at_height(&self, a: &String, q: u64) -> (r: Option<V>)
        requires
            self.wf(),
        ensures
            r == self.at(a@, q as int),
    {
        match self.find(a) {
            Some(i) => self.entries[i].1.may_load_at_height(q),
            None => None,
        }
    }

    /// The number of addresses written so far.
    pub fn key_count(&self) -> (r: usize)
        ensures
            r == self.keys().len(),
    {
        self.entries.len()
    }

    /// The `i`-th address written.
    pub fn key(&self, i: usize) -> (r: &String)
        requires
            i < self.keys().len(),
        ensures
            r@ == self.keys()[i as int],
    {
        &self.entries[i].0
    }

    fn find(&self, a: &String) -> (r: Option<usize>)
        ensures
            match r {
                Some(i) => key_pos(self.entries@, a@, 0) == Some(i as int) && i < self.entries@.len(),
                None => key_pos(self.entries@, a@, 0) == None::<int>,
            },
    {
        let mut i: usize = 0;
        while i < self.entries.len()
            invariant
                i <= self.entries@.len(),
                key_pos(self.entries@, a@, 0) == key_pos(self.entries@, a@, i as int),
            decreases self.entries@.len() - i,
        {
            if self.entries[i].0 == *a {
                return Some(i);
            }
            i = i + 1;
        }
        None
    }

    /// Records `value` for `a` as written at height `h`.
    pub fn save(&mut self, a: &String, h: u64, value: V)
        requires
            old(self).wf(),
            old(self).writable_at(h as int),
        ensures
            final(self).wf(),
            forall|b: Seq<char>, q: int| #[trigger]
                final(self).at(b, q) == if b == a@ && (h as int) < q {
                    Some(value)
                } else {
                    old(self).at(b, q)
                },
            forall|b: Seq<char>| #[trigger]
                final(self).latest(b) == if b == a@ {
                    Some(value)
                } else {
                    old(self).latest(b)
                },
            forall|h2: int| (h as int) <= h2 ==> #[trigger] final(self).writable_at(h2),
            forall|b: Seq<char>| #[trigger]
                final(self).keys().contains(b) == (old(self).keys().contains(b) || b == a@),
    {
        let ghost before = self.entries@;
        match self.find(a) {
            Some(i) => {
                let mut e = self.entries.remove(i);
                assert(e.1.wf());
                e.1.save(h, value);
                self.entries.insert(i, e);
                proof {
                    assert forall|j: int| 0 <= j < self.entries@.len() implies (
                    #[trigger] self.entries@[j]).1.wf() by {
                        if j != i as int {
                            assert(self.entries@[j] == before[j]);
                        }
                    }
                    assert(self.entries@ =~= before.update(i as int, e));
                    assert forall|b: Seq<char>| #[trigger] key_pos(self.entries@, b, 0) == key_pos(before, b, 0) by {
                        lemma_key_pos_update(before, i as int, e, b, 0);
                    }
                    assert(self.keys() =~= Seq::new(before.len(), |j: int| before[j].0@));
                    lemma_key_pos_bounds(before, a@, 0);
                    assert(old(self).keys()[i as int] == a@);
                    assert forall|b: Seq<char>, q: int| #[trigger] self.at(b, q) == if b == a@ && (h as int) < q {
                        Some(value)
                    } else {
                        old(self).at(b, q)
                    } by {
                        lemma_key_pos_bounds(before, b, 0);
                    }
                    assert forall|b: Seq<char>| #[trigger] self.latest(b) == if b == a@ {
                        Some(value)
                    } else {
                        old(self).latest(b)
                    } by {
                        lemma_key_pos_bounds(before, b, 0);
                    }
                    assert forall|h2: int| (h as int) <= h2 implies #[trigger] self.writable_at(h2) by {
                        assert forall|j: int| 0 <= j < self.entries@.len() implies (
                        #[trigger] self.entries@[j]).1.writable_at(h2) by {
                            if j != i as int {
                                before[j].1.lemma_writable_mono(h as int, h2);
                            }
                        }
                    }
                }
            },
            None => {
                let mut s = Snapshot::new();
                s.save(h, value);
                let e = (a.clone(), s);
                self.entries.push(e);
                proof {
                    assert forall|j: int| 0 <= j < self.entries@.len() implies (
                    #[trigger] self.entries@[j]).1.wf() by {
                        if j < before.len() {
                            assert(self.entries@[j] == before[j]);
                        }
                    }
                    lemma_key_pos_bounds(before, a@, 0);
                    assert forall|b: Seq<char>| #[trigger] key_pos(self.entries@, b, 0) == match key_pos(before, b, 0) {
                        Some(j) => Some(j),
                        None => if b == a@ {
                            Some(before.len() as int)
                        } else {
                            None
                        },
                    } by {
                        lemma_key_pos_push(before, e, b, 0);
                    }
                    assert forall|b: Seq<char>| #[trigger]
                        self.keys().contains(b) == (Seq::new(before.len(), |j: int| before[j].0@).contains(b) || b == a@) by {
                        let ks = Seq::new(before.len(), |j: int| before[j].0@);
                        if ks.contains(b) {
                            let j = choose|j: int| 0 <= j < ks.len() && ks[j] == b;
                            assert(self.keys()[j] == b);
                        }
                        if b == a@ {
                            assert(self.keys()[before.len() as int] == b);
                        }
                        if self.keys().contains(b) {
                            let j = choose|j: int| 0 <= j < self.keys().len() && self.keys()[j] == b;
                            if j < before.len() {
                                assert(ks[j] == b);
                            }
                        }
                    }
                    assert forall|b: Seq<char>, q: int| #[trigger] self.at(b, q) == if b == a@ && (h as int) < q {
                        Some(value)
                    } else {
                        old(self).at(b, q)
                    } by {
                        lemma_key_pos_bounds(before, b, 0);
                    }
                    assert forall|b: Seq<char>| #[trigger] self.latest(b) == if b == a@ {
                        Some(value)
                    } else {
                        old(self).latest(b)
                    } by {
                        lemma_key_pos_bounds(before, b, 0);
                    }
                    assert forall|h2: int| (h as int) <= h2 implies #[trigger] self.writable_at(h2) by {
                        assert forall|j: int| 0 <= j < self.entries@.len() implies (
                        #[trigger] self.entries@[j]).1.writable_at(h2) by {
                            if j < before.len() {
                                before[j].1.lemma_writable_mono(h as int, h2);
                            }
                        }
                    }
                }
            },
        }
    }
}

} // verus!
