use crate::lir::{Expression, ExpressionView, Variable, VariableView};
use vstd::prelude::*;

verus! {

/// A finite map from variables to variables (copied variable to its source).
#[derive(Debug)]
pub struct CopiedVariables {
    pub entries: Vec<(Variable, Variable)>,
}

/// A finite map from variables to the constant expressions they are bound to.
#[derive(Debug)]
pub struct ConstantVariables {
    pub entries: Vec<(Variable, Expression)>,
}

/// Whether the keys of the entries are pairwise distinct.
pub open spec fn distinct_keys<A>(keys: Seq<(Variable, A)>) -> bool {
    forall|i: int, j: int| 0 <= i < j < keys.len() ==> keys[i].0@ != keys[j].0@
}

/// The key of a `(key, source)` entry, as `VariableView`.
pub open spec fn copy_key_views(e: Seq<(Variable, Variable)>) -> Seq<VariableView> {
    Seq::new(e.len(), |i: int| e[i].0@)
}

impl CopiedVariables {
    /// The map of the entries.
    pub open spec fn view(&self) -> Map<VariableView, VariableView> {
        Map::new(
            |k: VariableView| exists|i: int| 0 <= i < self.entries@.len() && (#[trigger] self.entries@[i]).0@ == k,
            |k: VariableView| self.entries@[choose|i: int| 0 <= i < self.entries@.len() && (#[trigger] self.entries@[i]).0@ == k].1@,
        )
    }

    /// The keys are distinct.
    pub open spec fn wf(&self) -> bool {
        distinct_keys(self.entries@)
    }

    /// The value of the entry at a given position is what the map holds for its key.
    pub proof fn lemma_entry(&self, i: int)
        requires
            self.wf(),
            0 <= i < self.entries@.len(),
        ensures
            self@.contains_key(self.entries@[i].0@),
            self@[self.entries@[i].0@] == self.entries@[i].1@,
    {
        let k = self.entries@[i].0@;
        assert(self@.dom().contains(k));
        let j = choose|j: int| 0 <= j < self.entries@.len() && (#[trigger] self.entries@[j]).0@ == k;
        assert(i == j);
    }

    /// Creates an empty map.
    pub fn new() -> (r: Self)
        ensures
            r.wf(),
            r@ == Map::<VariableView, VariableView>::empty(),
    {
        let r = CopiedVariables { entries: Vec::new() };
        assert(r@ =~= Map::<VariableView, VariableView>::empty());
        r
    }

    /// The position of the entry for `key`.
    fn position(&self, key: &Variable) -> (r: Option<usize>)
        requires
            self.wf(),
        ensures
            r is None <==> !self@.contains_key(key@),
            r matches Some(i) ==> i < self.entries@.len() && self.entries@[i as int].0@ == key@,
    {
        let mut i: usize = 0;
        while i < self.entries.len()
            invariant
                0 <= i <= self.entries@.len(),
                forall|j: int| 0 <= j < i ==> (#[trigger] self.entries@[j]).0@ != key@,
            decreases self.entries@.len() - i,
        {
            if self.entries[i].0.equals(key) {
                return Some(i);
            }
            i += 1;
        }
        None
    }

    /// The number of entries.
    pub fn len(&self) -> (r: usize)
        requires
            self.wf(),
        ensures
            r == self@.len(),
    {
        proof {
            self.lemma_len();
        }
        self.entries.len()
    }

    /// The number of entries equals the size of the map.
    pub proof fn lemma_len(&self)
        requires
            self.wf(),
        ensures
            self@.dom().finite(),
            self@.len() == self.entries@.len(),
    {
        let keys = copy_key_views(self.entries@);
        assert(keys.no_duplicates()) by {
            assert forall|i: int, j: int| 0 <= i < keys.len() && 0 <= j < keys.len() && i != j implies keys[i] != keys[j] by {
                if i < j {
                } else {
                }
            }
        }
        assert(self@.dom() =~= keys.to_set()) by {
            assert forall|k: VariableView| self@.dom().contains(k) implies keys.to_set().contains(k) by {
                let i = choose|i: int| 0 <= i < self.entries@.len() && (#[trigger] self.entries@[i]).0@ == k;
                assert(keys[i] == k);
            }
            assert forall|k: VariableView| keys.to_set().contains(k) implies self@.dom().contains(k) by {
                let i = choose|i: int| 0 <= i < keys.len() && keys[i] == k;
                assert(self.entries@[i].0@ == k);
            }
        }
        keys.unique_seq_to_set();
    }

    /// Whether the map is empty.
    pub fn is_empty(&self) -> (r: bool)
        requires
            self.wf(),
        ensures
            r == (self@.len() == 0),
    {
        self.len() == 0
    }

    /// The source of `key`, if any.
    pub fn get(&self, key: &Variable) -> (r: Option<&Variable>)
        requires
            self.wf(),
        ensures
            r is None <==> !self@.contains_key(key@),
            r matches Some(v) ==> v@ == self@[key@],
    {
        match self.position(key) {
            Some(i) => {
                proof {
                    self.lemma_entry(i as int);
                }
                Some(&self.entries[i].1)
            },
            None => None,
        }
    }

    /// Maps `key` to `value`, replacing the former value of `key`.
    pub fn insert(&mut self, key: Variable, value: Variable)
        requires
            old(self).wf(),
        ensures
            final(self).wf(),
            final(self)@ == old(self)@.insert(key@, value@),
    {
        let ghost (k, v) = (key@, value@);
        match self.position(&key) {
            Some(i) => {
                self.entries.set(i, (key, value));
                proof {
                    assert forall|x: VariableView| #![auto] self@.dom().contains(x) <==> old(self)@.insert(k, v).dom().contains(x) by {
                        if old(self)@.dom().contains(x) {
                            let j = choose|j: int| 0 <= j < old(self).entries@.len() && (#[trigger] old(self).entries@[j]).0@ == x;
                            assert(self.entries@[j].0@ == x);
                        }
                        if self@.dom().contains(x) {
                            let j = choose|j: int| 0 <= j < self.entries@.len() && (#[trigger] self.entries@[j]).0@ == x;
                            if j != i {
                                assert(old(self).entries@[j].0@ == x);
                            }
                        }
                    }
                    assert forall|x: VariableView| #[trigger] self@.dom().contains(x) implies self@[x] == old(self)@.insert(k, v)[x] by {
                        let j = choose|j: int| 0 <= j < self.entries@.len() && (#[trigger] self.entries@[j]).0@ == x;
                        self.lemma_entry(j);
                        if j != i {
                            old(self).lemma_entry(j);
                        }
                    }
                    assert(self@ =~= old(self)@.insert(k, v));
                }
            },
            None => {
                self.entries.push((key, value));
                proof {
                    let n = old(self).entries@.len() as int;
                    assert forall|x: VariableView| #![auto] self@.dom().contains(x) <==> old(self)@.insert(k, v).dom().contains(x) by {
                        if old(self)@.dom().contains(x) {
                            let j = choose|j: int| 0 <= j < old(self).entries@.len() && (#[trigger] old(self).entries@[j]).0@ == x;
                            assert(self.entries@[j].0@ == x);
                        }
                        if x == k {
                            assert(self.entries@[n].0@ == x);
                        }
                        if self@.dom().contains(x) {
                            let j = choose|j: int| 0 <= j < self.entries@.len() && (#[trigger] self.entries@[j]).0@ == x;
                            if j != n {
                                assert(old(self).entries@[j].0@ == x);
                            }
                        }
                    }
                    assert forall|x: VariableView| #[trigger] self@.dom().contains(x) implies self@[x] == old(self)@.insert(k, v)[x] by {
                        let j = choose|j: int| 0 <= j < self.entries@.len() && (#[trigger] self.entries@[j]).0@ == x;
                        self.lemma_entry(j);
                        if j != n {
                            old(self).lemma_entry(j);
                        }
                    }
                    assert(self@ =~= old(self)@.insert(k, v));
                }
            },
        }
    }
}

impl ConstantVariables {
    /// The map of the entries.
    pub open spec fn view(&self) -> Map<VariableView, ExpressionView> {
        Map::new(
            |k: VariableView| exists|i: int| 0 <= i < self.entries@.len() && (#[trigger] self.entries@[i]).0@ == k,
            |k: VariableView| self.entries@[choose|i: int| 0 <= i < self.entries@.len() && (#[trigger] self.entries@[i]).0@ == k].1@,
        )
    }

    /// The keys are distinct.
    pub open spec fn wf(&self) -> bool {
        distinct_keys(self.entries@)
    }

    /// The value of the entry at a given position is what the map holds for its key.
    pub proof fn lemma_entry(&self, i: int)
        requires
            self.wf(),
            0 <= i < self.entries@.len(),
        ensures
            self@.contains_key(self.entries@[i].0@),
            self@[self.entries@[i].0@] == self.entries@[i].1@,
    {
        let k = self.entries@[i].0@;
        assert(self@.dom().contains(k));
        let j = choose|j: int| 0 <= j < self.entries@.len() && (#[trigger] self.entries@[j]).0@ == k;
        assert(i == j);
    }

    /// Creates an empty map.
    pub fn new() -> (r: Self)
        ensures
            r.wf(),
            r@ == Map::<VariableView, ExpressionView>::empty(),
    {
        let r = ConstantVariables { entries: Vec::new() };
        assert(r@ =~= Map::<VariableView, ExpressionView>::empty());
        r
    }

    /// The position of the entry for `key`.
    fn position(&self, key: &Variable) -> (r: Option<usize>)
        requires
            self.wf(),
        ensures
            r is None <==> !self@.contains_key(key@),
            r matches Some(i) ==> i < self.entries@.len() && self.entries@[i as int].0@ == key@,
    {
        let mut i: usize = 0;
        while i < self.entries.len()
            invariant
                0 <= i <= self.entries@.len(),
                forall|j: int| 0 <= j < i ==> (#[trigger] self.entries@[j]).0@ != key@,
            decreases self.entries@.len() - i,
        {
            if self.entries[i].0.equals(key) {
                return Some(i);
            }
            i += 1;
        }
        None
    }

    /// The number of entries.
    pub fn len(&self) -> (r: usize)
        requires
            self.wf(),
        ensures
            r == self@.len(),
    {
        proof {
            self.lemma_len();
        }
        self.entries.len()
    }

    /// The number of entries equals the size of the map.
    pub proof fn lemma_len(&self)
        requires
            self.wf(),
        ensures
            self@.dom().finite(),
            self@.len() == self.entries@.len(),
    {
        let keys = constant_key_views(self.entries@);
        assert(keys.no_duplicates()) by {
            assert forall|i: int, j: int| 0 <= i < keys.len() && 0 <= j < keys.len() && i != j implies keys[i] != keys[j] by {
                if i < j {
                } else {
                }
            }
        }
        assert(self@.dom() =~= keys.to_set()) by {
            assert forall|k: VariableView| self@.dom().contains(k) implies keys.to_set().contains(k) by {
                let i = choose|i: int| 0 <= i < self.entries@.len() && (#[trigger] self.entries@[i]).0@ == k;
                assert(keys[i] == k);
            }
            assert forall|k: VariableView| keys.to_set().contains(k) implies self@.dom().contains(k) by {
                let i = choose|i: int| 0 <= i < keys.len() && keys[i] == k;
                assert(self.entries@[i].0@ == k);
            }
        }
        keys.unique_seq_to_set();
    }

    /// Whether the map is empty.
    pub fn is_empty(&self) -> (r: bool)
        requires
            self.wf(),
        ensures
            r == (self@.len() == 0),
    {
        self.len() == 0
    }

    /// The source of `key`, if any.
    pub fn get(&self, key: &Variable) -> (r: Option<&Expression>)
        requires
            self.wf(),
        ensures
            r is None <==> !self@.contains_key(key@),
            r matches Some(v) ==> v@ == self@[key@],
    {
        match self.position(key) {
            Some(i) => {
                proof {
                    self.lemma_entry(i as int);
                }
                Some(&self.entries[i].1)
            },
            None => None,
        }
    }

    /// Maps `key` to `value`, replacing the former value of `key`.
    pub fn insert(&mut self, key: Variable, value: Expression)
        requires
            old(self).wf(),
        ensures
            final(self).wf(),
            final(self)@ == old(self)@.insert(key@, value@),
    {
        let ghost (k, v) = (key@, value@);
        match self.position(&key) {
            Some(i) => {
                self.entries.set(i, (key, value));
                proof {
                    assert forall|x: VariableView| #![auto] self@.dom().contains(x) <==> old(self)@.insert(k, v).dom().contains(x) by {
                        if old(self)@.dom().contains(x) {
                            let j = choose|j: int| 0 <= j < old(self).entries@.len() && (#[trigger] old(self).entries@[j]).0@ == x;
                            assert(self.entries@[j].0@ == x);
                        }
                        if self@.dom().contains(x) {
                            let j = choose|j: int| 0 <= j < self.entries@.len() && (#[trigger] self.entries@[j]).0@ == x;
                            if j != i {
                                assert(old(self).entries@[j].0@ == x);
                            }
                        }
                    }
                    assert forall|x: VariableView| #[trigger] self@.dom().contains(x) implies self@[x] == old(self)@.insert(k, v)[x] by {
                        let j = choose|j: int| 0 <= j < self.entries@.len() && (#[trigger] self.entries@[j]).0@ == x;
                        self.lemma_entry(j);
                        if j != i {
                            old(self).lemma_entry(j);
                        }
                    }
                    assert(self@ =~= old(self)@.insert(k, v));
                }
            },
            None => {
                self.entries.push((key, value));
                proof {
                    let n = old(self).entries@.len() as int;
                    assert forall|x: VariableView| #![auto] self@.dom().contains(x) <==> old(self)@.insert(k, v).dom().contains(x) by {
                        if old(self)@.dom().contains(x) {
                            let j = choose|j: int| 0 <= j < old(self).entries@.len() && (#[trigger] old(self).entries@[j]).0@ == x;
                            assert(self.entries@[j].0@ == x);
                        }
                        if x == k {
                            assert(self.entries@[n].0@ == x);
                        }
                        if self@.dom().contains(x) {
                            let j = choose|j: int| 0 <= j < self.entries@.len() && (#[trigger] self.entries@[j]).0@ == x;
                            if j != n {
                                assert(old(self).entries@[j].0@ == x);
                            }
                        }
                    }
                    assert forall|x: VariableView| #[trigger] self@.dom().contains(x) implies self@[x] == old(self)@.insert(k, v)[x] by {
                        let j = choose|j: int| 0 <= j < self.entries@.len() && (#[trigger] self.entries@[j]).0@ == x;
                        self.lemma_entry(j);
                        if j != n {
                            old(self).lemma_entry(j);
                        }
                    }
                    assert(self@ =~= old(self)@.insert(k, v));
                }
            },
        }
    }
}

/// The keys of `(key, constant)` entries, as `VariableView`.
pub open spec fn constant_key_views(e: Seq<(Variable, Expression)>) -> Seq<VariableView> {
    Seq::new(e.len(), |i: int| e[i].0@)
}

} // verus!
