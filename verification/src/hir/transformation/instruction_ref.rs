//! References to instructions of a control-flow graph, and maps keyed by them.
use vstd::prelude::*;

verus! {

/// The position of an instruction: its block, its index in the block and its address.
#[derive(Debug, Clone, Copy, PartialEq, Eq, PartialOrd, Ord, Hash, Structural)]
pub struct InstructionRef {
    pub block: usize,
    pub index: usize,
    pub address: u64,
}

/// The order of instruction references: by block, then index, then address.
pub open spec fn ref_lt(a: InstructionRef, b: InstructionRef) -> bool {
    a.block < b.block || (a.block == b.block && (a.index < b.index || (a.index == b.index && a.address
        < b.address)))
}

impl InstructionRef {
    pub fn new(block: usize, index: usize, address: u64) -> (r: Self)
        ensures
            r == (InstructionRef { block, index, address }),
    {
        InstructionRef { block, index, address }
    }

    pub fn block(&self) -> (r: usize)
        ensures
            r == self.block,
    {
        self.block
    }

    pub fn index(&self) -> (r: usize)
        ensures
            r == self.index,
    {
        self.index
    }

    pub fn address(&self) -> (r: u64)
        ensures
            r == self.address,
    {
        self.address
    }

    /// Whether `self` comes before `other`.
    pub fn precedes(&self, other: &InstructionRef) -> (r: bool)
        ensures
            r == ref_lt(*self, *other),
    {
        self.block < other.block || (self.block == other.block && (self.index < other.index || (self.index
            == other.index && self.address < other.address)))
    }
}

/// A finite map keyed by instruction references, whose entries are kept in ascending key
/// order.
#[derive(Debug, PartialEq, Eq)]
pub struct InstructionRefMap<V> {
    pub entries: Vec<(InstructionRef, V)>,
}

/// Whether `p` is where `key` belongs in the ascending entries `s`: after all smaller keys.
pub open spec fn belongs_at<V>(s: Seq<(InstructionRef, V)>, key: InstructionRef, p: int) -> bool {
    0 <= p <= s.len() && (forall|j: int| 0 <= j < p ==> ref_lt((#[trigger] s[j]).0, key)) && (p < s.len() ==> !ref_lt(
        s[p].0,
        key,
    ))
}

/// The position at which `key` belongs in the ascending entries `s`.
pub open spec fn insert_position<V>(s: Seq<(InstructionRef, V)>, key: InstructionRef) -> int {
    choose|p: int| belongs_at(s, key, p)
}

/// The ascending entries `s` with `key` bound to `value`.
pub open spec fn sorted_insert<V>(s: Seq<(InstructionRef, V)>, key: InstructionRef, value: V) -> Seq<(InstructionRef, V)> {
    let p = insert_position(s, key);
    if p < s.len() && s[p].0 == key {
        s.update(p, (key, value))
    } else {
        s.insert(p, (key, value))
    }
}

impl<V> InstructionRefMap<V> {
    /// The map of the entries.
    pub open spec fn view(&self) -> Map<InstructionRef, V> {
        Map::new(
            |k: InstructionRef| exists|i: int| 0 <= i < self.entries@.len() && (#[trigger] self.entries@[i]).0 == k,
            |k: InstructionRef|
                self.entries@[choose|i: int| 0 <= i < self.entries@.len() && (#[trigger] self.entries@[i]).0 == k].1,
        )
    }

    /// The keys ascend strictly.
    pub open spec fn wf(&self) -> bool {
        forall|i: int, j: int|
            0 <= i < j < self.entries@.len() ==> ref_lt((#[trigger] self.entries@[i]).0, (#[trigger] self.entries@[j]).0)
    }

    /// The keys in ascending order.
    pub open spec fn keys(&self) -> Seq<InstructionRef> {
        self.entries@.map_values(|e: (InstructionRef, V)| e.0)
    }

    /// The entry at a position is what the map holds for its key.
    pub proof fn lemma_entry(&self, i: int)
        requires
            self.wf(),
            0 <= i < self.entries@.len(),
        ensures
            self@.contains_key(self.entries@[i].0),
            self@[self.entries@[i].0] == self.entries@[i].1,
    {
        let k = self.entries@[i].0;
        assert(self@.dom().contains(k));
        let j = choose|j: int| 0 <= j < self.entries@.len() && (#[trigger] self.entries@[j]).0 == k;
        if i < j {
            assert(ref_lt(self.entries@[i].0, self.entries@[j].0));
        } else if j < i {
            assert(ref_lt(self.entries@[j].0, self.entries@[i].0));
        }
    }

    /// An empty map.
    pub fn new() -> (r: Self)
        ensures
            r.wf(),
            r@ == Map::<InstructionRef, V>::empty(),
            r.entries@ == Seq::<(InstructionRef, V)>::empty(),
    {
        let r = InstructionRefMap { entries: Vec::new() };
        assert(r@ =~= Map::<InstructionRef, V>::empty());
        r
    }

    /// The number of entries.
    pub fn len(&self) -> (r: usize)
        ensures
            r == self.entries@.len(),
    {
        self.entries.len()
    }

    /// The value for `key`, if any.
    pub fn get(&self, key: &InstructionRef) -> (r: Option<&V>)
        requires
            self.wf(),
        ensures
            r is Some <==> self@.contains_key(*key),
            r matches Some(v) ==> *v == self@[*key],
    {
        let mut i: usize = 0;
        while i < self.entries.len()
            invariant
                0 <= i <= self.entries@.len(),
                self.wf(),
                forall|j: int| 0 <= j < i ==> (#[trigger] self.entries@[j]).0 != *key,
            decreases self.entries@.len() - i,
        {
            if self.entries[i].0 == *key {
                proof {
                    self.lemma_entry(i as int);
                }
                return Some(&self.entries[i].1);
            }
            i += 1;
        }
        None
    }

    /// Binds `key` to `value`, replacing an earlier binding.
    pub fn insert(&mut self, key: InstructionRef, value: V)
        requires
            old(self).wf(),
        ensures
            final(self).wf(),
            final(self)@ == old(self)@.insert(key, value),
            final(self).entries@ == sorted_insert(old(self).entries@, key, value),
    {
        let mut p: usize = 0;
        let mut done = false;
        while p < self.entries.len() && !done
            invariant
                0 <= p <= self.entries@.len(),
                forall|j: int| 0 <= j < p ==> ref_lt((#[trigger] self.entries@[j]).0, key),
                done ==> p < self.entries@.len() && !ref_lt(self.entries@[p as int].0, key),
            decreases self.entries@.len() - p, if done { 0int } else { 1int },
        {
            if self.entries[p].0.precedes(&key) {
                p += 1;
            } else {
                done = true;
            }
        }
        let ghost old_entries = self.entries@;
        proof {
            let q = insert_position(old_entries, key);
            let pp = p as int;
            assert(belongs_at(old_entries, key, pp));
            assert(belongs_at(old_entries, key, q));
            if q < p {
                assert(ref_lt(old_entries[q].0, key));
            } else if q > p {
                assert(ref_lt(old_entries[p as int].0, key));
            }
            assert(q == p);
        }
        if p < self.entries.len() && self.entries[p].0 == key {
            let _ = self.entries.remove(p);
            self.entries.insert(p, (key, value));
            proof {
                assert(self.entries@ =~= old_entries.update(p as int, (key, value)));
            }
        } else {
            self.entries.insert(p, (key, value));
            proof {
                assert(self.entries@ =~= old_entries.insert(p as int, (key, value)));
                assert forall|j: int| p <= j < old_entries.len() implies ref_lt(key, (#[trigger] old_entries[j]).0) by {
                    if j > p {
                        assert(ref_lt(old_entries[p as int].0, old_entries[j].0));
                    }
                }
            }
        }
        proof {
            assert forall|k: InstructionRef| #[trigger] self@.contains_key(k) == old(self)@.insert(key, value).contains_key(k) by {
                if old(self)@.contains_key(k) {
                    let i = choose|i: int| 0 <= i < old_entries.len() && (#[trigger] old_entries[i]).0 == k;
                    let ni = if i < p || (p < old_entries.len() && old_entries[p as int].0 == key) { i } else { i + 1 };
                    assert(self.entries@[ni].0 == k);
                }
                if self@.contains_key(k) {
                    let i = choose|i: int| 0 <= i < self.entries@.len() && (#[trigger] self.entries@[i]).0 == k;
                    if k != key {
                        let oi = if i < p || (p < old_entries.len() && old_entries[p as int].0 == key) { i } else { i - 1 };
                        assert(old_entries[oi].0 == k);
                    }
                }
                if k == key {
                    assert(self.entries@[p as int].0 == k);
                }
            }
            assert forall|k: InstructionRef| #[trigger] self@.contains_key(k) implies self@[k] == old(self)@.insert(key, value)[k] by {
                let i = choose|i: int| 0 <= i < self.entries@.len() && (#[trigger] self.entries@[i]).0 == k;
                self.lemma_entry(i);
                if k != key {
                    let oi = if i < p || (p < old_entries.len() && old_entries[p as int].0 == key) { i } else { i - 1 };
                    assert(old_entries[oi].0 == k);
                    old(self).lemma_entry(oi);
                }
            }
            assert(self@ =~= old(self)@.insert(key, value));
        }
    }
}

} // verus!
