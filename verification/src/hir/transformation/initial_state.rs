//! The initial state of memory and stack, set up at the end of the entry block: values are
//! havocked (chosen freely), and what the attacker knows is required to be indistinguishable
//! (low equivalent).
use crate::error::Error;
use crate::hir::transformation::{first_failure, strictly_increasing, location_view, memory_view, not_index, pseudo};
use crate::hir::{block_views, BlockView, ControlFlowGraph, GraphView, Instruction, InstructionView, Operation, OperationView};
use crate::hir::transformation::observations::find_block;
use crate::ir::Transform;
use crate::lir::{
    bit_vector_view, variable_view, BitVector, Expression, ExpressionView, Memory, OperatorView, Sort, Variable,
    VariableView, WORD_SIZE,
};
use vstd::prelude::*;
use vstd::string::StringExecFns;

verus! {

/// The lowest address above which the stack pointer starts.
pub const STACK_BASE: u64 = 0xffff_0000_0000;

/// Whether the attacker knows a value (low) or not (high).
#[derive(Clone, Copy, Debug, PartialEq, Eq, Structural)]
pub enum SecurityLevel {
    Low,
    High,
}

/// The pseudo instruction that gives `v` a value chosen freely.
pub open spec fn havoc_view(v: VariableView) -> InstructionView {
    pseudo(
        OperationView::Assign {
            variable: v,
            expr: ExpressionView { operator: OperatorView::Nondet, operands: Seq::empty(), sort: v.sort },
        },
    )
}

/// The pseudo instruction that requires `e` to be indistinguishable for the attacker.
pub open spec fn low_equivalent_view(e: ExpressionView) -> InstructionView {
    pseudo(OperationView::Indistinguishable { expr: e })
}

/// Whether the entry block of `g` is set and exists.
pub open spec fn has_entry_block(g: GraphView) -> bool {
    g.entry matches Some(e) && exists|p: int| 0 <= p < g.blocks.len() && (#[trigger] g.blocks[p]).index == e
}

/// The error when the entry block of `g` is not set or does not exist.
pub open spec fn entry_error(g: GraphView) -> Error {
    match g.entry {
        Some(e) => Error::BlockNotFound(e),
        None => Error::NoEntry,
    }
}

/// The graph with `insts` appended to the (first) entry block.
pub open spec fn with_entry_appended(g: GraphView, insts: Seq<InstructionView>) -> GraphView {
    let p = first_failure(g.blocks, not_index(g.entry->Some_0));
    GraphView {
        blocks: g.blocks.update(p, BlockView { instructions: g.blocks[p].instructions + insts, ..g.blocks[p] }),
        ..g
    }
}

/// Appends `insts` to the entry block; fails if it is not set or does not exist.
pub(crate) fn append_to_entry(cfg: &mut ControlFlowGraph, insts: Vec<Instruction>) -> (r: Result<(), Error>)
    ensures
        r is Ok <==> has_entry_block(old(cfg)@),
        r is Ok ==> final(cfg)@ == with_entry_appended(old(cfg)@, Seq::new(insts@.len(), |i: int| insts@[i]@)),
        r is Err ==> final(cfg)@ == old(cfg)@ && r == Err::<(), Error>(entry_error(old(cfg)@)),
{
    let ghost iv = Seq::new(insts@.len(), |i: int| insts@[i]@);
    let e = cfg.entry()?;
    match find_block(&cfg.blocks, e) {
        None => Err(Error::BlockNotFound(e)),
        Some(p) => {
            let ghost g0 = cfg@;
            let mut insts = insts;
            let mut block = cfg.blocks.remove(p);
            assert(block@ == g0.blocks[p as int]);
            block.instructions.append(&mut insts);
            proof {
                assert(block@.instructions =~= g0.blocks[p as int].instructions + iv);
            }
            cfg.blocks.insert(p, block);
            proof {
                assert(cfg@.blocks =~= with_entry_appended(g0, iv).blocks);
            }
            Ok(())
        },
    }
}

/// The views of a sequence of instructions.
pub open spec fn views_of(v: Seq<Instruction>) -> Seq<InstructionView> {
    Seq::new(v.len(), |i: int| v[i]@)
}

/// The havoc instruction for `var`.
fn havoc(var: Variable) -> (r: Instruction)
    ensures
        r@ == havoc_view(var@),
{
    let sort = var.sort.clone();
    Instruction::new(Operation::Assign { variable: var, expr: Expression::nondet(sort) }).into_pseudo()
}

/// The low-equivalence instruction for `expr`.
fn low_equivalent(expr: Expression) -> (r: Instruction)
    ensures
        r@ == low_equivalent_view(expr@),
{
    Instruction::indistinguishable(expr).into_pseudo()
}

/// Sets up the initial state of memory. Its address lists are strictly increasing: each
/// address occurs once, in ascending order.
#[derive(Debug)]
pub struct InitMemory {
    default_memory_security_level: SecurityLevel,
    low_security_memory_addresses: Vec<u64>,
    high_security_memory_addresses: Vec<u64>,
}

impl InitMemory {
    /// The address lists are strictly increasing.
    #[verifier::type_invariant]
    spec fn addresses_increasing(self) -> bool {
        strictly_increasing(self.low_security_memory_addresses@) && strictly_increasing(
            self.high_security_memory_addresses@,
        )
    }

    /// The security level of memory not listed.
    pub closed spec fn level(self) -> SecurityLevel {
        self.default_memory_security_level
    }

    /// The addresses of bytes the attacker knows when memory is high by default.
    pub closed spec fn low_addresses(self) -> Seq<u64> {
        self.low_security_memory_addresses@
    }

    /// The addresses of bytes the attacker does not know when memory is low by default.
    pub closed spec fn high_addresses(self) -> Seq<u64> {
        self.high_security_memory_addresses@
    }

    /// Memory set up with the default level `level` and the strictly increasing address
    /// lists `low` and `high`.
    pub fn new(level: SecurityLevel, low: Vec<u64>, high: Vec<u64>) -> (r: Self)
        requires
            strictly_increasing(low@),
            strictly_increasing(high@),
        ensures
            r.level() == level,
            r.low_addresses() == low@,
            r.high_addresses() == high@,
    {
        InitMemory {
            default_memory_security_level: level,
            low_security_memory_addresses: low,
            high_security_memory_addresses: high,
        }
    }

    /// The security level of memory not listed.
    pub fn default_memory_security_level(&self) -> (r: SecurityLevel)
        ensures
            r == self.level(),
    {
        self.default_memory_security_level
    }

    /// The addresses of bytes the attacker knows when memory is high by default.
    pub fn low_security_memory_addresses(&self) -> (r: &[u64])
        ensures
            r@ == self.low_addresses(),
            strictly_increasing(r@),
    {
        proof {
            use_type_invariant(self);
        }
        self.low_security_memory_addresses.as_slice()
    }

    /// The addresses of bytes the attacker does not know when memory is low by default.
    pub fn high_security_memory_addresses(&self) -> (r: &[u64])
        ensures
            r@ == self.high_addresses(),
            strictly_increasing(r@),
    {
        proof {
            use_type_invariant(self);
        }
        self.high_security_memory_addresses.as_slice()
    }
}

impl Default for InitMemory {
    fn default() -> (r: Self)
        ensures
            r.level() == SecurityLevel::High,
            r.low_addresses() == Seq::<u64>::empty(),
            r.high_addresses() == Seq::<u64>::empty(),
    {
        InitMemory {
            default_memory_security_level: SecurityLevel::High,
            low_security_memory_addresses: Vec::new(),
            high_security_memory_addresses: Vec::new(),
        }
    }
}

/// The view of the variable that holds a secret byte.
pub open spec fn secret_view() -> VariableView {
    VariableView { name: "_secret"@, sort: Sort::BitVector(8), rollback_persistent: false, version: None }
}

/// The byte of memory at `addr`.
pub open spec fn memory_byte_view(addr: u64) -> ExpressionView {
    ExpressionView {
        operator: OperatorView::Memory(Memory::Load(8)),
        operands: seq![variable_view(memory_view()), location_view(addr)],
        sort: Sort::BitVector(8),
    }
}

/// A secret byte chosen freely and stored at each address of `addrs`, in order.
pub open spec fn secret_stores(addrs: Seq<u64>) -> Seq<InstructionView>
    decreases addrs.len(),
{
    if addrs.len() == 0 {
        Seq::empty()
    } else {
        secret_stores(addrs.drop_last()) + seq![
            havoc_view(secret_view()),
            pseudo(OperationView::Store { address: location_view(addrs.last()), expr: variable_view(secret_view()) }),
        ]
    }
}

/// The instructions that set up memory: its contents are chosen freely; when memory is low by
/// default it is indistinguishable but for a secret byte stored at each high address; when it
/// is high by default, the byte at each low address is indistinguishable.
pub open spec fn init_memory_instructions(m: InitMemory) -> Seq<InstructionView> {
    seq![havoc_view(memory_view())] + match m.level() {
        SecurityLevel::Low => seq![low_equivalent_view(variable_view(memory_view()))] + secret_stores(
            m.high_addresses(),
        ),
        SecurityLevel::High => Seq::new(
            m.low_addresses().len(),
            |i: int| low_equivalent_view(memory_byte_view(m.low_addresses()[i])),
        ),
    }
}

impl InitMemory {
    /// The instructions that set up memory.
    fn instructions(&self) -> (r: Vec<Instruction>)
        ensures
            views_of(r@) == init_memory_instructions(*self),
    {
        let mut out: Vec<Instruction> = Vec::new();
        out.push(havoc(Memory::variable()));
        match self.default_memory_security_level {
            SecurityLevel::Low => {
                out.push(low_equivalent(Expression::variable(Memory::variable())));
                let ghost addrs = self.high_security_memory_addresses@;
                let mut i: usize = 0;
                while i < self.high_security_memory_addresses.len()
                    invariant
                        0 <= i <= addrs.len(),
                        addrs == self.high_security_memory_addresses@,
                        self.default_memory_security_level == SecurityLevel::Low,
                        views_of(out@) == seq![havoc_view(memory_view()), low_equivalent_view(variable_view(memory_view()))]
                            + secret_stores(addrs.take(i as int)),
                    decreases addrs.len() - i,
                {
                    proof {
                        reveal_strlit("_secret");
                        assert(addrs.take(i + 1).drop_last() =~= addrs.take(i as int));
                    }
                    let secret = BitVector::variable("_secret", 8);
                    let addr = BitVector::word_constant(self.high_security_memory_addresses[i]);
                    let ghost before = out@;
                    out.push(havoc(secret.clone()));
                    out.push(
                        Instruction::new(Operation::Store { address: addr, expr: Expression::variable(secret) }).into_pseudo(),
                    );
                    proof {
                        assert(views_of(out@) =~= views_of(before) + seq![
                            havoc_view(secret_view()),
                            pseudo(OperationView::Store { address: location_view(addrs[i as int]), expr: variable_view(secret_view()) }),
                        ]);
                    }
                    i += 1;
                }
                proof {
                    assert(addrs.take(addrs.len() as int) =~= addrs);
                    assert(views_of(out@) =~= init_memory_instructions(*self));
                }
            },
            SecurityLevel::High => {
                let ghost addrs = self.low_security_memory_addresses@;
                let mut i: usize = 0;
                while i < self.low_security_memory_addresses.len()
                    invariant
                        0 <= i <= addrs.len(),
                        addrs == self.low_security_memory_addresses@,
                        out@.len() == i + 1,
                        out@[0]@ == havoc_view(memory_view()),
                        forall|k: int| 0 <= k < i ==> (#[trigger] out@[k + 1])@ == low_equivalent_view(memory_byte_view(addrs[k])),
                    decreases addrs.len() - i,
                {
                    let addr = BitVector::word_constant(self.low_security_memory_addresses[i]);
                    let byte = Expression::binary(
                        crate::lir::Operator::Memory(Memory::Load(8)),
                        Expression::variable(Memory::variable()),
                        addr,
                        Sort::bit_vector(8),
                    );
                    out.push(low_equivalent(byte));
                    i += 1;
                }
                proof {
                    let expected = init_memory_instructions(*self);
                    assert forall|k: int| 0 <= k < out@.len() implies views_of(out@)[k] == expected[k] by {
                        if k > 0 {
                            assert(out@[(k - 1) + 1]@ == low_equivalent_view(memory_byte_view(addrs[k - 1])));
                        }
                    }
                    assert(views_of(out@) =~= expected);
                }
            },
        }
        out
    }
}

impl Transform<ControlFlowGraph> for InitMemory {
    fn name(&self) -> (r: &'static str)
        ensures
            r@ == "InitMemory"@,
    {
        "InitMemory"
    }

    fn description(&self) -> (r: &'static str)
        ensures
            r@ == "Set up initial memory state"@,
    {
        "Set up initial memory state"
    }

    /// Appends the instructions that set up memory to the entry block; fails, leaving the
    /// graph unchanged, when the entry block is not set or does not exist.
    fn transform(&self, cfg: &mut ControlFlowGraph) -> (r: Result<(), Error>)
        ensures
            r is Ok <==> has_entry_block(old(cfg)@),
            r is Ok ==> final(cfg)@ == with_entry_appended(old(cfg)@, init_memory_instructions(*self)),
            r is Err ==> final(cfg)@ == old(cfg)@ && r == Err::<(), Error>(entry_error(old(cfg)@)),
    {
        let insts = self.instructions();
        append_to_entry(cfg, insts)
    }
}

/// Sets up the initial state of the stack.
#[derive(Debug)]
pub struct InitStack {
    /// The name of the base-pointer register.
    pub base_pointer: String,
    /// The name of the stack-pointer register.
    pub stack_pointer: String,
}

impl Default for InitStack {
    /// The registers of x86-64: `rbp` and `rsp`.
    fn default() -> (r: Self)
        ensures
            r.base_pointer@ == "rbp"@,
            r.stack_pointer@ == "rsp"@,
    {
        InitStack { base_pointer: String::from_str("rbp"), stack_pointer: String::from_str("rsp") }
    }
}

/// The view of the machine-word register named `name`.
pub open spec fn register_view(name: Seq<char>) -> VariableView {
    VariableView { name: name, sort: Sort::BitVector(WORD_SIZE), rollback_persistent: false, version: None }
}

/// The instructions that set up the stack: base and stack pointer are chosen freely and
/// indistinguishable, `STACK_BASE < stack pointer <= base pointer` (unsigned),
/// and the return address on top of the stack is indistinguishable.
pub open spec fn init_stack_instructions(m: InitStack) -> Seq<InstructionView> {
    let bp = register_view(m.base_pointer@);
    let sp = register_view(m.stack_pointer@);
    seq![
        havoc_view(bp),
        low_equivalent_view(variable_view(bp)),
        havoc_view(sp),
        low_equivalent_view(variable_view(sp)),
        pseudo(
            OperationView::Assume {
                condition: bit_vector_view(BitVector::ULe, seq![variable_view(sp), variable_view(bp)], Sort::Bool),
            },
        ),
        pseudo(
            OperationView::Assume {
                condition: bit_vector_view(BitVector::UGt, seq![variable_view(sp), location_view(STACK_BASE)], Sort::Bool),
            },
        ),
        low_equivalent_view(
            ExpressionView {
                operator: OperatorView::Memory(Memory::Load(WORD_SIZE)),
                operands: seq![variable_view(memory_view()), variable_view(sp)],
                sort: Sort::BitVector(WORD_SIZE),
            },
        ),
    ]
}

impl InitStack {
    /// The instructions that set up the stack.
    fn instructions(&self) -> (r: Vec<Instruction>)
        ensures
            views_of(r@) == init_stack_instructions(*self),
    {
        let base_pointer = Variable::from_string(self.base_pointer.clone(), Sort::word());
        let stack_pointer = Variable::from_string(self.stack_pointer.clone(), Sort::word());
        let not_above_base = Expression::binary(
            crate::lir::Operator::BitVector(BitVector::ULe),
            Expression::variable(stack_pointer.clone()),
            Expression::variable(base_pointer.clone()),
            Sort::boolean(),
        );
        let above_stack_base = Expression::binary(
            crate::lir::Operator::BitVector(BitVector::UGt),
            Expression::variable(stack_pointer.clone()),
            BitVector::word_constant(STACK_BASE),
            Sort::boolean(),
        );
        let return_address = Expression::binary(
            crate::lir::Operator::Memory(Memory::Load(WORD_SIZE)),
            Expression::variable(Memory::variable()),
            Expression::variable(stack_pointer.clone()),
            Sort::word(),
        );
        let i0 = havoc(base_pointer.clone());
        let i1 = low_equivalent(Expression::variable(base_pointer));
        let i2 = havoc(stack_pointer.clone());
        let i3 = low_equivalent(Expression::variable(stack_pointer));
        let i4 = Instruction::new(Operation::Assume { condition: not_above_base }).into_pseudo();
        let i5 = Instruction::new(Operation::Assume { condition: above_stack_base }).into_pseudo();
        let i6 = low_equivalent(return_address);
        let ghost expected = init_stack_instructions(*self);
        assert(i0@ == expected[0] && i1@ == expected[1] && i2@ == expected[2] && i3@ == expected[3]);
        assert(i4@ == expected[4] && i5@ == expected[5] && i6@ == expected[6]);
        let out = vec![i0, i1, i2, i3, i4, i5, i6];
        assert(views_of(out@) =~= expected);
        out
    }
}

impl Transform<ControlFlowGraph> for InitStack {
    fn name(&self) -> (r: &'static str)
        ensures
            r@ == "InitStack"@,
    {
        "InitStack"
    }

    fn description(&self) -> (r: &'static str)
        ensures
            r@ == "Set up initial state of the stack"@,
    {
        "Set up initial state of the stack"
    }

    /// Appends the instructions that set up the stack to the entry block; fails, leaving the
    /// graph unchanged, when the entry block is not set or does not exist.
    fn transform(&self, cfg: &mut ControlFlowGraph) -> (r: Result<(), Error>)
        ensures
            r is Ok <==> has_entry_block(old(cfg)@),
            r is Ok ==> final(cfg)@ == with_entry_appended(old(cfg)@, init_stack_instructions(*self)),
            r is Err ==> final(cfg)@ == old(cfg)@ && r == Err::<(), Error>(entry_error(old(cfg)@)),
    {
        let insts = self.instructions();
        append_to_entry(cfg, insts)
    }
}

} // verus!
