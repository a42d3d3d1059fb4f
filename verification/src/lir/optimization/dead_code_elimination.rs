//! Dead Code Elimination (DCE)
//!
//! Mark-and-Sweep like dead code elimination which works like:
//!   1. Phase (Mark): All useful nodes (including their dependencies) are marked
//!   2. Phase (Sweep): All unmarked nodes are removed
//!
//! This algorithm requires that the program is in SSA form.

use crate::error::Error;
use crate::lir::optimization::{Optimization, OptimizationResult};
use crate::lir::{node_used, Node, NodeView, Program, Variable, VariableView};
use bit_vec::BitVec;
use vstd::prelude::*;

verus! {

/// The outside type `bit_vec::BitVec`, a packed vector of bits.
#[verifier::external_type_specification]
#[verifier::external_body]
#[verifier::reject_recursive_types(B)]
pub struct ExBitVec<B>(bit_vec::BitVec<B>);

/// The bits that a `BitVec` holds, in order.
pub uninterp spec fn bit_vec_bits(v: BitVec) -> Seq<bool>;

/// Calls `BitVec::from_elem`: a vector of `nbits` bits, each equal to `bit`.
#[verifier::external_body]
fn bits_from_elem(nbits: usize, bit: bool) -> (r: BitVec)
    ensures
        bit_vec_bits(r) == Seq::new(nbits as nat, |i: int| bit),
{
    BitVec::from_elem(nbits, bit)
}

/// Calls `BitVec::len`: the number of bits.
#[verifier::external_body]
fn bits_len(v: &BitVec) -> (r: usize)
    ensures
        r == bit_vec_bits(*v).len(),
{
    v.len()
}

/// Calls `BitVec::get`: the bit at `i`, `None` when `i` is out of bounds.
#[verifier::external_body]
fn bits_get(v: &BitVec, i: usize) -> (r: Option<bool>)
    ensures
        i < bit_vec_bits(*v).len() ==> r == Some(bit_vec_bits(*v)[i as int]),
        i >= bit_vec_bits(*v).len() ==> r is None,
{
    v.get(i)
}

/// Calls `BitVec::set`: sets the bit at `i` (which must be in bounds) to `x`.
#[verifier::external_body]
fn bits_set(v: &mut BitVec, i: usize, x: bool)
    requires
        i < bit_vec_bits(*old(v)).len(),
    ensures
        bit_vec_bits(*final(v)) == bit_vec_bits(*old(v)).update(i as int, x),
{
    v.set(i, x)
}

/// Calls `BitVec::all`: whether every bit is set.
#[verifier::external_body]
fn bits_all(v: &BitVec) -> (r: bool)
    ensures
        r == (forall|i: int| 0 <= i < bit_vec_bits(*v).len() ==> bit_vec_bits(*v)[i]),
{
    v.all()
}

pub struct DeadCodeElimination {}

impl DeadCodeElimination {
    pub fn new() -> (r: Self) {
        DeadCodeElimination {}
    }
}

/// The views of the nodes.
pub open spec fn node_views(s: Seq<Node>) -> Seq<NodeView> {
    Seq::new(s.len(), |i: int| s[i]@)
}

/// A critical node is never removed: every node but an assignment.
pub open spec fn critical(n: NodeView) -> bool {
    !(n is Let)
}

/// Node `j` is the last node that assigns `v`.
pub open spec fn last_definition(nodes: Seq<NodeView>, j: int, v: VariableView) -> bool {
    &&& 0 <= j < nodes.len()
    &&& nodes[j] is Let
    &&& nodes[j]->Let_var == v
    &&& forall|k: int| j < k < nodes.len() ==> !(#[trigger] nodes[k] is Let && nodes[k]->Let_var == v)
}

/// Node `j` is the last definition of a variable used by node `i`.
pub open spec fn depends_on(nodes: Seq<NodeView>, i: int, j: int) -> bool {
    exists|k: int| 0 <= k < node_used(nodes[i]).len() && last_definition(nodes, j, #[trigger] node_used(nodes[i])[k])
}

/// `marks` is the least set of nodes that holds every critical node and, with each node,
/// the definitions the node depends on.
pub open spec fn live_marks(nodes: Seq<NodeView>, marks: Seq<bool>) -> bool {
    &&& marks.len() == nodes.len()
    &&& forall|i: int| 0 <= i < nodes.len() && critical(nodes[i]) ==> #[trigger] marks[i]
    &&& forall|i: int, j: int| 0 <= i < nodes.len() && marks[i] && #[trigger] depends_on(nodes, i, j) ==> #[trigger] marks[j]
    &&& exists|rank: Seq<nat>| #[trigger] rank.len() == nodes.len() && forall|j: int|
        0 <= j < nodes.len() && #[trigger] marks[j] && !critical(nodes[j]) ==> exists|i: int|
            0 <= i < nodes.len() && marks[i] && rank[i] < rank[j] && #[trigger] depends_on(nodes, i, j)
}

/// The nodes whose mark is set, in order.
pub open spec fn kept(nodes: Seq<NodeView>, marks: Seq<bool>) -> Seq<NodeView>
    decreases nodes.len(),
{
    if nodes.len() == 0 || marks.len() != nodes.len() {
        Seq::empty()
    } else {
        let rest = kept(nodes.drop_last(), marks.drop_last());
        if marks.last() {
            rest.push(nodes.last())
        } else {
            rest
        }
    }
}

/// The index of the last node that assigns `var`.
fn find_last_definition(nodes: &Vec<Node>, var: &Variable) -> (r: Option<usize>)
    ensures
        r matches Some(j) ==> last_definition(node_views(nodes@), j as int, var@),
        r is None ==> forall|k: int| 0 <= k < nodes@.len() ==> !(#[trigger] node_views(nodes@)[k] is Let && node_views(nodes@)[k]->Let_var == var@),
{
    let ghost v = node_views(nodes@);
    let mut j: usize = nodes.len();
    while j > 0
        invariant
            0 <= j <= nodes@.len(),
            v == node_views(nodes@),
            forall|k: int| j <= k < nodes@.len() ==> !(#[trigger] v[k] is Let && v[k]->Let_var == var@),
        decreases j,
    {
        j -= 1;
        if let Node::Let { var: defined, .. } = &nodes[j] {
            if defined.equals(var) {
                return Some(j);
            }
        }
    }
    None
}

/// Mark useful nodes which should not be removed.
///
/// The `BitVec` contains a single bit for each node.
/// If the bit for a node is not set, the node can safely be removed.
pub fn mark(nodes: &Vec<Node>) -> (r: BitVec)
    ensures
        live_marks(node_views(nodes@), bit_vec_bits(r)),
{
    let ghost v = node_views(nodes@);
    let n = nodes.len();
    let mut marks = bits_from_elem(n, false);
    let mut work_queue: Vec<usize> = Vec::new();
    let ghost mut rank: Seq<nat> = Seq::new(n as nat, |i: int| 0nat);

    // Mark critical nodes first
    let mut i: usize = 0;
    while i < n
        invariant
            0 <= i <= n,
            n == nodes@.len(),
            v == node_views(nodes@),
            bit_vec_bits(marks).len() == n,
            forall|k: int| 0 <= k < n ==> (#[trigger] bit_vec_bits(marks)[k] <==> (k < i && critical(v[k]))),
            forall|q: int| 0 <= q < work_queue@.len() ==> #[trigger] work_queue@[q] < n && bit_vec_bits(marks)[work_queue@[q] as int],
            forall|k: int| 0 <= k < i && critical(v[k]) ==> work_queue@.contains(k as usize),
        decreases n - i,
    {
        if !nodes[i].is_let() {
            bits_set(&mut marks, i, true);
            let ghost old_queue = work_queue@;
            work_queue.push(i);
            proof {
                assert forall|k: int| 0 <= k < i + 1 && critical(v[k]) implies work_queue@.contains(k as usize) by {
                    if k == i {
                        assert(work_queue@[old_queue.len() as int] == k as usize);
                    } else {
                        let q = choose|q: int| 0 <= q < old_queue.len() && old_queue[q] == k as usize;
                        assert(work_queue@[q] == k as usize);
                    }
                }
            }
        }
        i += 1;
    }

    let ghost mut marked: Set<int> = Set::new(|k: int| 0 <= k < n && bit_vec_bits(marks)[k]);
    proof {
        assert(marked.subset_of(Set::new(|k: int| 0 <= k < n)));
        vstd::set_lib::lemma_int_range(0, n as int);
        assert(Set::new(|k: int| 0 <= k < n) =~= vstd::set_lib::set_int_range(0, n as int));
        vstd::set_lib::lemma_len_subset(marked, vstd::set_lib::set_int_range(0, n as int));
    }

    // Iteratively mark the dependencies
    while work_queue.len() > 0
        invariant
            n == nodes@.len(),
            v == node_views(nodes@),
            bit_vec_bits(marks).len() == n,
            rank.len() == n,
            marked == Set::new(|k: int| 0 <= k < n && bit_vec_bits(marks)[k]),
            marked.finite(),
            marked.len() <= n,
            forall|q: int| 0 <= q < work_queue@.len() ==> #[trigger] work_queue@[q] < n && bit_vec_bits(marks)[work_queue@[q] as int],
            forall|k: int| 0 <= k < n && critical(v[k]) ==> #[trigger] bit_vec_bits(marks)[k],
            forall|k: int, j: int|
                0 <= k < n && bit_vec_bits(marks)[k] && !work_queue@.contains(k as usize)
                    && #[trigger] depends_on(v, k, j) ==> #[trigger] bit_vec_bits(marks)[j],
            forall|j: int|
                0 <= j < n && #[trigger] bit_vec_bits(marks)[j] && !critical(v[j]) ==> exists|k: int|
                    0 <= k < n && bit_vec_bits(marks)[k] && rank[k] < rank[j] && #[trigger] depends_on(v, k, j),
        decreases n - marked.len(), work_queue@.len(),
    {
        let ghost full_queue = work_queue@;
        let index = work_queue.pop().unwrap();
        proof {
            assert forall|k: int| 0 <= k < n && #[trigger] full_queue.contains(k as usize) && k != index implies work_queue@.contains(k as usize) by {
                let q = choose|q: int| 0 <= q < full_queue.len() && full_queue[q] == k as usize;
                assert(full_queue[full_queue.len() - 1] == index);
                assert(work_queue@ =~= full_queue.drop_last());
                assert(q < work_queue@.len());
                assert(work_queue@[q] == k as usize);
            }
        }
        let used = nodes[index].variables_used();
        let ghost marked_before = marked;
        let ghost queue_after_pop = work_queue@;
        let mut u: usize = 0;
        while u < used.len()
            invariant
                0 <= u <= used@.len(),
                index < n,
                n == nodes@.len(),
                v == node_views(nodes@),
                used@.len() == node_used(v[index as int]).len(),
                forall|m: int| 0 <= m < used@.len() ==> (#[trigger] used@[m])@ == node_used(v[index as int])[m],
                bit_vec_bits(marks).len() == n,
                rank.len() == n,
                bit_vec_bits(marks)[index as int],
                marked == Set::new(|k: int| 0 <= k < n && bit_vec_bits(marks)[k]),
                marked.finite(),
                marked.len() <= n,
                marked_before.subset_of(marked),
                marked.len() >= marked_before.len(),
                work_queue@.len() > queue_after_pop.len() ==> marked.len() > marked_before.len(),
                work_queue@.len() >= queue_after_pop.len(),
                forall|q: int| 0 <= q < queue_after_pop.len() ==> work_queue@[q] == queue_after_pop[q],
                forall|q: int| 0 <= q < work_queue@.len() ==> #[trigger] work_queue@[q] < n && bit_vec_bits(marks)[work_queue@[q] as int],
                forall|k: int| 0 <= k < n && critical(v[k]) ==> #[trigger] bit_vec_bits(marks)[k],
                forall|k: int, j: int|
                    0 <= k < n && bit_vec_bits(marks)[k] && !work_queue@.contains(k as usize) && k != index
                        && #[trigger] depends_on(v, k, j) ==> #[trigger] bit_vec_bits(marks)[j],
                forall|m: int, j: int| 0 <= m < u && #[trigger] last_definition(v, j, node_used(v[index as int])[m]) ==> bit_vec_bits(marks)[j],
                forall|j: int|
                    0 <= j < n && #[trigger] bit_vec_bits(marks)[j] && !critical(v[j]) ==> exists|k: int|
                        0 <= k < n && bit_vec_bits(marks)[k] && rank[k] < rank[j] && #[trigger] depends_on(v, k, j),
            decreases used@.len() - u,
        {
            let var = used[u];
            if let Some(def_index) = find_last_definition(nodes, var) {
                if !bits_get(&marks, def_index).unwrap() {
                    let ghost old_marks = bit_vec_bits(marks);
                    let ghost old_queue = work_queue@;
                    bits_set(&mut marks, def_index, true);
                    work_queue.push(def_index);
                    proof {
                        rank = rank.update(def_index as int, rank[index as int] + 1);
                        assert(depends_on(v, index as int, def_index as int)) by {
                            assert(last_definition(v, def_index as int, node_used(v[index as int])[u as int]));
                        }
                        let old_marked = marked;
                        marked = Set::new(|k: int| 0 <= k < n && bit_vec_bits(marks)[k]);
                        assert(marked =~= old_marked.insert(def_index as int));
                        assert(marked.subset_of(Set::new(|k: int| 0 <= k < n)));
                        vstd::set_lib::lemma_int_range(0, n as int);
                        assert(Set::new(|k: int| 0 <= k < n) =~= vstd::set_lib::set_int_range(0, n as int));
                        vstd::set_lib::lemma_len_subset(marked, vstd::set_lib::set_int_range(0, n as int));
                        assert forall|j: int|
                            0 <= j < n && #[trigger] bit_vec_bits(marks)[j] && !critical(v[j]) implies exists|k: int|
                                0 <= k < n && bit_vec_bits(marks)[k] && rank[k] < rank[j] && #[trigger] depends_on(v, k, j) by {
                            if j == def_index {
                                assert(bit_vec_bits(marks)[index as int] && rank[index as int] < rank[j] && depends_on(v, index as int, j));
                            } else {
                                let k = choose|k: int| 0 <= k < n && old_marks[k] && rank[k] < rank[j] && #[trigger] depends_on(v, k, j);
                                assert(bit_vec_bits(marks)[k] && rank[k] < rank[j] && depends_on(v, k, j));
                            }
                        }
                        assert forall|k: int, j: int|
                            0 <= k < n && bit_vec_bits(marks)[k] && !work_queue@.contains(k as usize) && k != index
                                && #[trigger] depends_on(v, k, j) implies #[trigger] bit_vec_bits(marks)[j] by {
                            if k != def_index {
                                if old_queue.contains(k as usize) {
                                    let q = choose|q: int| 0 <= q < old_queue.len() && old_queue[q] == k as usize;
                                    assert(work_queue@[q] == k as usize);
                                }
                            } else {
                                assert(work_queue@[work_queue@.len() - 1] == k as usize);
                            }
                        }
                    }
                }
            } else {
                proof {
                    assert forall|j: int| last_definition(v, j, node_used(v[index as int])[u as int]) implies false by {
                        assert(v[j] is Let && v[j]->Let_var == var@);
                    }
                }
            }
            u += 1;
        }
        proof {
            assert forall|k: int, j: int|
                0 <= k < n && bit_vec_bits(marks)[k] && !work_queue@.contains(k as usize)
                    && #[trigger] depends_on(v, k, j) implies #[trigger] bit_vec_bits(marks)[j] by {
                if k == index {
                    let m = choose|m: int| 0 <= m < node_used(v[k]).len() && last_definition(v, j, #[trigger] node_used(v[k])[m]);
                    assert(last_definition(v, j, node_used(v[index as int])[m]));
                }
            }
            if work_queue@.len() == queue_after_pop.len() {
                assert(marked.len() >= marked_before.len());
            }
        }
    }
    proof {
        assert forall|k: int, j: int| 0 <= k < n && bit_vec_bits(marks)[k] && #[trigger] depends_on(v, k, j)
            implies #[trigger] bit_vec_bits(marks)[j] by {
            assert(!work_queue@.contains(k as usize));
        }
        assert(rank.len() == v.len());
    }
    marks
}

/// Remove all unmarked nodes.
pub fn sweep(nodes: &mut Vec<Node>, marks: &BitVec)
    requires
        bit_vec_bits(*marks).len() == old(nodes)@.len(),
    ensures
        node_views(final(nodes)@) == kept(node_views(old(nodes)@), bit_vec_bits(*marks)),
{
    let ghost v = node_views(nodes@);
    let ghost b = bit_vec_bits(*marks);
    let mut result: Vec<Node> = Vec::new();
    let mut i: usize = 0;
    while i < nodes.len()
        invariant
            0 <= i <= nodes@.len(),
            v == node_views(nodes@),
            b == bit_vec_bits(*marks),
            b.len() == nodes@.len(),
            node_views(result@) == kept(v.take(i as int), b.take(i as int)),
        decreases nodes@.len() - i,
    {
        proof {
            assert(v.take(i + 1).drop_last() =~= v.take(i as int));
            assert(b.take(i + 1).drop_last() =~= b.take(i as int));
        }
        let ghost before = result@;
        if bits_get(marks, i).unwrap() {
            result.push(nodes[i].clone());
            assert(node_views(result@) =~= node_views(before).push(v[i as int]));
        }
        i += 1;
    }
    assert(v.take(v.len() as int) =~= v);
    assert(b.take(b.len() as int) =~= b);
    *nodes = result;
}

impl Optimization for DeadCodeElimination {
    /// Remove all dead nodes from the given program.
    ///
    /// `Assert` and `Assume` nodes are considered as critical,
    /// meaning that they (including their dependencies) will remain.
    fn optimize(&self, program: &mut Program) -> (r: Result<OptimizationResult, Error>)
        ensures
            exists|marks: Seq<bool>| #[trigger] live_marks(old(program)@, marks) && {
                &&& (forall|i: int| 0 <= i < marks.len() ==> marks[i]) ==> r == Ok::<OptimizationResult, Error>(
                    OptimizationResult::Unchanged,
                ) && final(program)@ == old(program)@
                &&& !(forall|i: int| 0 <= i < marks.len() ==> marks[i]) ==> r == Ok::<
                    OptimizationResult,
                    Error,
                >(OptimizationResult::Changed) && final(program)@ == kept(old(program)@, marks)
            },
    {
        assert(node_views(program.nodes@) =~= program@);
        let marks = mark(&program.nodes);
        if bits_all(&marks) {
            assert(live_marks(old(program)@, bit_vec_bits(marks)));
            return Ok(OptimizationResult::Unchanged);
        }
        sweep(&mut program.nodes, &marks);
        assert(node_views(program.nodes@) =~= program@);
        assert(live_marks(old(program)@, bit_vec_bits(marks)));
        Ok(OptimizationResult::Changed)
    }
}

} // verus!
