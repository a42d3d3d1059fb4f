use crate::error::Error;
use crate::hir::{operation_read, operation_written, Operation, OperationView};
use crate::lir::{Expression, ExpressionView, Variable, VariableView};
use vstd::prelude::*;

verus! {

/// A microarchitectural effect of an instruction.
#[derive(Debug, PartialEq, Eq)]
pub enum Effect {
    /// The effect takes place only if the condition holds.
    Conditional { condition: Expression, effect: Box<Effect> },
    /// `bit_width` bits at `address` are fetched into the cache.
    CacheFetch { address: Expression, bit_width: usize },
    /// The branch at `location` targets `target`.
    BranchTarget { location: Expression, target: Expression },
    /// The branch at `location` is taken iff `condition` holds.
    BranchCondition { location: Expression, condition: Expression },
}

/// The mathematical value of an `Effect`.
pub enum EffectView {
    Conditional { condition: ExpressionView, effect: Box<EffectView> },
    CacheFetch { address: ExpressionView, bit_width: usize },
    BranchTarget { location: ExpressionView, target: ExpressionView },
    BranchCondition { location: ExpressionView, condition: ExpressionView },
}

impl Effect {
    /// The mathematical value of the effect.
    pub open spec fn view(&self) -> EffectView
        decreases self,
    {
        match self {
            Effect::Conditional { condition, effect } => EffectView::Conditional {
                condition: condition@,
                effect: Box::new((**effect).view()),
            },
            Effect::CacheFetch { address, bit_width } => EffectView::CacheFetch { address: address@, bit_width: *bit_width },
            Effect::BranchTarget { location, target } => EffectView::BranchTarget { location: location@, target: target@ },
            Effect::BranchCondition { location, condition } => EffectView::BranchCondition {
                location: location@,
                condition: condition@,
            },
        }
    }
}

impl Clone for Effect {
    fn clone(&self) -> (r: Self)
        ensures
            r@ == self@,
        decreases self,
    {
        match self {
            Effect::Conditional { condition, effect } => Effect::Conditional {
                condition: condition.clone(),
                effect: Box::new((**effect).clone()),
            },
            Effect::CacheFetch { address, bit_width } => Effect::CacheFetch { address: address.clone(), bit_width: *bit_width },
            Effect::BranchTarget { location, target } => Effect::BranchTarget { location: location.clone(), target: target.clone() },
            Effect::BranchCondition { location, condition } => Effect::BranchCondition {
                location: location.clone(),
                condition: condition.clone(),
            },
        }
    }
}

impl Effect {
    /// Fetching `bit_width` bits at `address` into the cache.
    pub fn cache_fetch(address: Expression, bit_width: usize) -> (r: Effect)
        ensures
            r@ == (EffectView::CacheFetch { address: address@, bit_width }),
    {
        Effect::CacheFetch { address, bit_width }
    }

    /// Tracking `target` for the branch at `location`.
    pub fn branch_target(location: Expression, target: Expression) -> (r: Effect)
        ensures
            r@ == (EffectView::BranchTarget { location: location@, target: target@ }),
    {
        Effect::BranchTarget { location, target }
    }

    /// Recording the condition of the branch at `location`.
    pub fn branch_condition(location: Expression, condition: Expression) -> (r: Effect)
        ensures
            r@ == (EffectView::BranchCondition { location: location@, condition: condition@ }),
    {
        Effect::BranchCondition { location, condition }
    }

    /// This effect, taking place only if `condition` holds.
    pub fn only_if(self, condition: Expression) -> (r: Effect)
        ensures
            r@ == (EffectView::Conditional { condition: condition@, effect: Box::new(self@) }),
    {
        Effect::Conditional { condition, effect: Box::new(self) }
    }
}

/// An instruction: an operation with its effects, its address and whether it is a pseudo
/// instruction (one that the encoding adds and that takes no time).
#[derive(Debug, PartialEq, Eq)]
pub struct Instruction {
    pub operation: Operation,
    pub effects: Vec<Effect>,
    pub address: Option<u64>,
    pub pseudo: bool,
}

/// The mathematical value of an `Instruction`.
pub struct InstructionView {
    pub operation: OperationView,
    pub effects: Seq<EffectView>,
    pub address: Option<u64>,
    pub pseudo: bool,
}

impl Instruction {
    /// The mathematical value of the instruction.
    pub open spec fn view(&self) -> InstructionView {
        InstructionView {
            operation: self.operation@,
            effects: Seq::new(self.effects@.len(), |i: int| self.effects@[i]@),
            address: self.address,
            pseudo: self.pseudo,
        }
    }
}

/// The view of a plain instruction: no effects, no address, not pseudo.
pub open spec fn plain(op: OperationView) -> InstructionView {
    InstructionView { operation: op, effects: Seq::empty(), address: None, pseudo: false }
}

impl Clone for Instruction {
    fn clone(&self) -> (r: Self)
        ensures
            r@ == self@,
    {
        let mut effects: Vec<Effect> = Vec::new();
        let mut i: usize = 0;
        while i < self.effects.len()
            invariant
                0 <= i <= self.effects@.len(),
                effects@.len() == i,
                forall|j: int| 0 <= j < i ==> (#[trigger] effects@[j])@ == self.effects@[j]@,
            decreases self.effects@.len() - i,
        {
            effects.push(self.effects[i].clone());
            i += 1;
        }
        let r = Instruction {
            operation: self.operation.clone(),
            effects,
            address: self.address,
            pseudo: self.pseudo,
        };
        assert(r@.effects =~= self@.effects);
        r
    }
}

impl Instruction {
    /// A plain instruction of the operation.
    pub fn new(operation: Operation) -> (r: Self)
        ensures
            r@ == plain(operation@),
    {
        let r = Instruction { operation, effects: Vec::new(), address: None, pseudo: false };
        assert(r@.effects =~= Seq::<EffectView>::empty());
        r
    }

    /// An assignment instruction; fails unless `expr` has the sort of `variable`.
    pub fn assign(variable: Variable, expr: Expression) -> (r: Result<Self, Error>)
        ensures
            r is Ok <==> expr.sort == variable.sort,
            r is Ok ==> r.unwrap()@ == plain(OperationView::Assign { variable: variable@, expr: expr@ }),
            r is Err ==> r == Err::<Instruction, Error>(
                Error::ExpectedSort { expected: variable.sort, actual: expr.sort },
            ),
    {
        Ok(Instruction::new(Operation::assign(variable, expr)?))
    }

    /// A store instruction; fails unless `address` and `expr` are bit vectors.
    pub fn store(address: Expression, expr: Expression) -> (r: Result<Self, Error>)
        ensures
            r is Ok <==> (address.sort is BitVector && expr.sort is BitVector),
            r is Ok ==> r.unwrap()@ == plain(OperationView::Store { address: address@, expr: expr@ }),
            !(address.sort is BitVector) ==> r == Err::<Instruction, Error>(Error::ExpectedBitVector(address.sort)),
            address.sort is BitVector && !(expr.sort is BitVector) ==> r == Err::<Instruction, Error>(
                Error::ExpectedBitVector(expr.sort),
            ),
    {
        Ok(Instruction::new(Operation::store(address, expr)?))
    }

    /// A load instruction; fails unless `variable` and `address` are bit vectors.
    pub fn load(variable: Variable, address: Expression) -> (r: Result<Self, Error>)
        ensures
            r is Ok <==> (variable.sort is BitVector && address.sort is BitVector),
            r is Ok ==> r.unwrap()@ == plain(OperationView::Load { variable: variable@, address: address@ }),
            !(variable.sort is BitVector) ==> r == Err::<Instruction, Error>(Error::ExpectedBitVector(variable.sort)),
            variable.sort is BitVector && !(address.sort is BitVector) ==> r == Err::<Instruction, Error>(
                Error::ExpectedBitVector(address.sort),
            ),
    {
        Ok(Instruction::new(Operation::load(variable, address)?))
    }

    /// A branch instruction; fails unless `target` is a bit vector.
    pub fn branch(target: Expression) -> (r: Result<Self, Error>)
        ensures
            r is Ok <==> target.sort is BitVector,
            r is Ok ==> r.unwrap()@ == plain(OperationView::Branch { target: target@ }),
            r is Err ==> r == Err::<Instruction, Error>(Error::ExpectedBitVector(target.sort)),
    {
        Ok(Instruction::new(Operation::branch(target)?))
    }

    /// A call instruction; fails unless `target` is a bit vector.
    pub fn call(target: Expression) -> (r: Result<Self, Error>)
        ensures
            r is Ok <==> target.sort is BitVector,
            r is Ok ==> r.unwrap()@ == plain(OperationView::Call { target: target@ }),
            r is Err ==> r == Err::<Instruction, Error>(Error::ExpectedBitVector(target.sort)),
    {
        Ok(Instruction::new(Operation::call(target)?))
    }

    /// A conditional-branch instruction; fails unless `condition` is boolean and `target` a bit vector.
    pub fn conditional_branch(condition: Expression, target: Expression) -> (r: Result<Self, Error>)
        ensures
            r is Ok <==> (condition.sort is Bool && target.sort is BitVector),
            r is Ok ==> r.unwrap()@ == plain(
                OperationView::ConditionalBranch { condition: condition@, target: target@ },
            ),
            !(condition.sort is Bool) ==> r == Err::<Instruction, Error>(Error::ExpectedBool(condition.sort)),
            condition.sort is Bool && !(target.sort is BitVector) ==> r == Err::<Instruction, Error>(
                Error::ExpectedBitVector(target.sort),
            ),
    {
        Ok(Instruction::new(Operation::conditional_branch(condition, target)?))
    }

    /// An assertion instruction; fails unless `condition` is boolean.
    pub fn assertion(condition: Expression) -> (r: Result<Self, Error>)
        ensures
            r is Ok <==> condition.sort is Bool,
            r is Ok ==> r.unwrap()@ == plain(OperationView::Assert { condition: condition@ }),
            r is Err ==> r == Err::<Instruction, Error>(Error::ExpectedBool(condition.sort)),
    {
        Ok(Instruction::new(Operation::assertion(condition)?))
    }

    /// An assumption instruction; fails unless `condition` is boolean.
    pub fn assumption(condition: Expression) -> (r: Result<Self, Error>)
        ensures
            r is Ok <==> condition.sort is Bool,
            r is Ok ==> r.unwrap()@ == plain(OperationView::Assume { condition: condition@ }),
            r is Err ==> r == Err::<Instruction, Error>(Error::ExpectedBool(condition.sort)),
    {
        Ok(Instruction::new(Operation::assumption(condition)?))
    }

    /// An observation of `expr`.
    pub fn observable(expr: Expression) -> (r: Self)
        ensures
            r@ == plain(OperationView::Observable { expr: expr@ }),
    {
        Instruction::new(Operation::Observable { expr })
    }

    /// Requires `expr` to be indistinguishable.
    pub fn indistinguishable(expr: Expression) -> (r: Self)
        ensures
            r@ == plain(OperationView::Indistinguishable { expr: expr@ }),
    {
        Instruction::new(Operation::Indistinguishable { expr })
    }

    /// A barrier instruction.
    pub fn barrier() -> (r: Self)
        ensures
            r@ == plain(OperationView::Barrier),
    {
        Instruction::new(Operation::Barrier)
    }

    /// A skip instruction.
    pub fn skip() -> (r: Self)
        ensures
            r@ == plain(OperationView::Skip),
    {
        Instruction::new(Operation::Skip)
    }

    /// This instruction, placed at `address`.
    pub fn with_address(self, address: Option<u64>) -> (r: Self)
        ensures
            r@ == (InstructionView { address: address, ..self@ }),
    {
        let mut r = self;
        r.address = address;
        r
    }

    /// This instruction, as a pseudo instruction.
    pub fn into_pseudo(self) -> (r: Self)
        ensures
            r@ == (InstructionView { pseudo: true, ..self@ }),
    {
        let mut r = self;
        r.pseudo = true;
        r
    }

    pub fn operation(&self) -> (r: &Operation)
        ensures
            *r == self.operation,
    {
        &self.operation
    }

    pub fn address(&self) -> (r: Option<u64>)
        ensures
            r == self.address,
    {
        self.address
    }

    pub fn set_address(&mut self, address: Option<u64>)
        ensures
            final(self)@ == (InstructionView { address: address, ..old(self)@ }),
    {
        self.address = address;
    }

    /// Whether the instruction has effects.
    pub fn has_effects(&self) -> (r: bool)
        ensures
            r == (self.effects@.len() > 0),
    {
        self.effects.len() > 0
    }

    /// Adds clones of the effects.
    pub fn add_effects(&mut self, effects: &Vec<Effect>)
        ensures
            final(self)@ == (InstructionView {
                effects: old(self)@.effects + Seq::new(effects@.len(), |i: int| effects@[i]@),
                ..old(self)@
            }),
    {
        let mut i: usize = 0;
        let ghost start = self@.effects;
        while i < effects.len()
            invariant
                0 <= i <= effects@.len(),
                self@ == (InstructionView {
                    effects: start + Seq::new(i as nat, |j: int| effects@[j]@),
                    ..old(self)@
                }),
            decreases effects@.len() - i,
        {
            let ghost before = self@.effects;
            let ghost before_vec = self.effects@;
            let c = effects[i].clone();
            assert(c@ == effects@[i as int]@);
            self.effects.push(c);
            assert(self.effects@[before_vec.len() as int] == c);
            assert forall|j: int| 0 <= j < before_vec.len() implies self@.effects[j] == before[j] by {
                assert(self.effects@[j] == before_vec[j]);
            }
            assert(before.len() == start.len() + i);
            assert(self@.effects[before.len() as int] == effects@[i as int]@);
            let ghost target = start + Seq::new((i + 1) as nat, |j: int| effects@[j]@);
            assert forall|j: int| 0 <= j < target.len() implies self@.effects[j] == target[j] by {
                assert(before.len() == before_vec.len());
                if j < start.len() {
                    assert(self@.effects[j] == before[j]);
                    assert(before[j] == start[j]);
                } else if j < before.len() {
                    assert(self@.effects[j] == before[j]);
                    assert(before[j] == Seq::new(i as nat, |k: int| effects@[k]@)[j - start.len()]);
                } else {
                    assert(j == before.len());
                }
            }
            assert(self@.effects =~= target);
            i += 1;
        }
    }

    /// Whether the instruction is an observation.
    pub fn is_observable(&self) -> (r: bool)
        ensures
            r == (self.operation is Observable),
    {
        self.operation.is_observable()
    }

    /// The variables the operation of the instruction reads.
    pub fn variables_read(&self) -> (r: Vec<&Variable>)
        ensures
            r@.len() == operation_read(self@.operation).len(),
            forall|i: int| 0 <= i < r@.len() ==> (#[trigger] r@[i])@ == operation_read(self@.operation)[i],
    {
        self.operation.variables_read()
    }

    /// The variables the operation of the instruction writes.
    pub fn variables_written(&self) -> (r: Vec<&Variable>)
        ensures
            r@.len() == operation_written(self@.operation).len(),
            forall|i: int| 0 <= i < r@.len() ==> (#[trigger] r@[i])@ == operation_written(self@.operation)[i],
    {
        self.operation.variables_written()
    }
}

} // verus!
