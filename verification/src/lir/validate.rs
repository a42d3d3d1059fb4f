use crate::error::Error;
use crate::lir::{node_used, Node, NodeView, Program, Variable, VariableView};
use vstd::prelude::*;

verus! {

/// Whether one of the first `i` nodes defines `v`.
pub open spec fn defined_before(nodes: Seq<NodeView>, i: int, v: VariableView) -> bool {
    exists|j: int| 0 <= j < i && #[trigger] nodes[j] is Let && nodes[j]->Let_var == v
}

/// Whether node `i` assigns a variable that an earlier node has assigned already.
pub open spec fn redefines(nodes: Seq<NodeView>, i: int) -> bool {
    nodes[i] is Let && defined_before(nodes, i, nodes[i]->Let_var)
}

/// Whether the `k`-th variable used by node `i` is defined by no node of the program.
pub open spec fn uses_undefined(nodes: Seq<NodeView>, i: int, k: int) -> bool {
    0 <= k < node_used(nodes[i]).len() && !defined_before(nodes, nodes.len() as int, node_used(nodes[i])[k])
}

/// No variable is assigned twice and no undefined variable is used.
pub open spec fn valid_program(nodes: Seq<NodeView>) -> bool {
    &&& forall|i: int| 0 <= i < nodes.len() ==> !#[trigger] redefines(nodes, i)
    &&& forall|i: int, k: int| 0 <= i < nodes.len() ==> !#[trigger] uses_undefined(nodes, i, k)
}

/// The outcome of validating `nodes`: success exactly for valid programs; otherwise the first
/// re-assignment, or, if there is none, the first use of an undefined variable.
pub open spec fn validation_outcome(nodes: Seq<NodeView>, r: Result<(), Error>) -> bool {
    &&& r is Ok <==> valid_program(nodes)
    &&& r is Err ==> (r->Err_0 is Reassignment || r->Err_0 is UndefinedVariable)
    &&& r matches Err(Error::Reassignment { index, variable }) ==> {
        &&& index < nodes.len()
        &&& redefines(nodes, index as int)
        &&& variable@ == nodes[index as int]->Let_var
        &&& forall|j: int| 0 <= j < index ==> !#[trigger] redefines(nodes, j)
    }
    &&& r matches Err(Error::UndefinedVariable { index, variable }) ==> {
        &&& index < nodes.len()
        &&& forall|i: int| 0 <= i < nodes.len() ==> !#[trigger] redefines(nodes, i)
        &&& forall|j: int, k: int| 0 <= j < index ==> !#[trigger] uses_undefined(nodes, j, k)
        &&& exists|k: int|
            #[trigger] uses_undefined(nodes, index as int, k) && variable@ == node_used(
                nodes[index as int],
            )[k] && forall|k2: int| 0 <= k2 < k ==> !#[trigger] uses_undefined(nodes, index as int, k2)
    }
}

/// Whether one of `defs` is `v`.
fn contains_variable(defs: &Vec<&Variable>, v: &Variable) -> (r: bool)
    ensures
        r == exists|k: int| 0 <= k < defs@.len() && (#[trigger] defs@[k])@ == v@,
{
    let mut k: usize = 0;
    while k < defs.len()
        invariant
            0 <= k <= defs@.len(),
            forall|j: int| 0 <= j < k ==> (#[trigger] defs@[j])@ != v@,
        decreases defs@.len() - k,
    {
        if defs[k].equals(v) {
            return true;
        }
        k += 1;
    }
    false
}

/// Validate the given LIR program.
///
/// Checks:
///   - No re-assignment to variables
///   - No use of undefined variables
pub fn validate_program(program: &Program) -> (r: Result<(), Error>)
    ensures
        validation_outcome(program@, r),
{
    let ghost nodes = program@;
    let mut defs: Vec<&Variable> = Vec::new();

    // Def
    let mut i: usize = 0;
    while i < program.nodes.len()
        invariant
            0 <= i <= program.nodes@.len(),
            nodes == program@,
            forall|k: int| 0 <= k < defs@.len() ==> defined_before(nodes, i as int, (#[trigger] defs@[k])@),
            forall|j: int|
                0 <= j < i && (#[trigger] nodes[j]) is Let ==> exists|k: int|
                    0 <= k < defs@.len() && (#[trigger] defs@[k])@ == nodes[j]->Let_var,
            forall|j: int| 0 <= j < i ==> !#[trigger] redefines(nodes, j),
        decreases program.nodes@.len() - i,
    {
        if let Node::Let { var, .. } = &program.nodes[i] {
            if contains_variable(&defs, var) {
                proof {
                    let k = choose|k: int| 0 <= k < defs@.len() && (#[trigger] defs@[k])@ == var@;
                    assert(defined_before(nodes, i as int, defs@[k]@));
                    assert(redefines(nodes, i as int));
                }
                return Err(Error::Reassignment { index: i, variable: var.clone() });
            }
            let ghost old_defs = defs@;
            defs.push(var);
            proof {
                assert forall|j: int|
                    0 <= j < i + 1 && (#[trigger] nodes[j]) is Let implies exists|k: int|
                    0 <= k < defs@.len() && (#[trigger] defs@[k])@ == nodes[j]->Let_var by {
                    if j == i {
                        assert(defs@[old_defs.len() as int]@ == nodes[j]->Let_var);
                    } else {
                        let k = choose|k: int| 0 <= k < old_defs.len() && (#[trigger] old_defs[k])@ == nodes[j]->Let_var;
                        assert(defs@[k] == old_defs[k]);
                    }
                }
                assert forall|k: int| 0 <= k < defs@.len() implies defined_before(nodes, i + 1, (#[trigger] defs@[k])@) by {
                    if k == old_defs.len() {
                        assert(nodes[i as int] is Let);
                    } else {
                        assert(defs@[k] == old_defs[k]);
                        let j = choose|j: int| 0 <= j < i && #[trigger] nodes[j] is Let && nodes[j]->Let_var == old_defs[k]@;
                        assert(nodes[j] is Let);
                    }
                }
                assert(!redefines(nodes, i as int)) by {
                    if defined_before(nodes, i as int, var@) {
                        let j = choose|j: int| 0 <= j < i && #[trigger] nodes[j] is Let && nodes[j]->Let_var == var@;
                        let k = choose|k: int| 0 <= k < old_defs.len() && (#[trigger] old_defs[k])@ == nodes[j]->Let_var;
                        assert(old_defs[k]@ == var@);
                    }
                }
            }
        } else {
            proof {
                assert forall|k: int| 0 <= k < defs@.len() implies defined_before(nodes, i + 1, (#[trigger] defs@[k])@) by {
                    let j = choose|j: int| 0 <= j < i && #[trigger] nodes[j] is Let && nodes[j]->Let_var == defs@[k]@;
                    assert(nodes[j] is Let);
                }
            }
        }
        i += 1;
    }

    // Use
    let mut i: usize = 0;
    while i < program.nodes.len()
        invariant
            0 <= i <= program.nodes@.len(),
            nodes == program@,
            forall|k: int| 0 <= k < defs@.len() ==> defined_before(nodes, nodes.len() as int, (#[trigger] defs@[k])@),
            forall|j: int|
                0 <= j < nodes.len() && (#[trigger] nodes[j]) is Let ==> exists|k: int|
                    0 <= k < defs@.len() && (#[trigger] defs@[k])@ == nodes[j]->Let_var,
            forall|j: int| 0 <= j < nodes.len() ==> !#[trigger] redefines(nodes, j),
            forall|j: int, k: int| 0 <= j < i ==> !#[trigger] uses_undefined(nodes, j, k),
        decreases program.nodes@.len() - i,
    {
        let used = program.nodes[i].variables_used();
        let mut k: usize = 0;
        while k < used.len()
            invariant
                0 <= k <= used@.len(),
                0 <= i < nodes.len(),
                nodes == program@,
                used@.len() == node_used(nodes[i as int]).len(),
                forall|m: int| 0 <= m < used@.len() ==> (#[trigger] used@[m])@ == node_used(nodes[i as int])[m],
                forall|k: int| 0 <= k < defs@.len() ==> defined_before(nodes, nodes.len() as int, (#[trigger] defs@[k])@),
                forall|j: int|
                    0 <= j < nodes.len() && (#[trigger] nodes[j]) is Let ==> exists|k: int|
                        0 <= k < defs@.len() && (#[trigger] defs@[k])@ == nodes[j]->Let_var,
                forall|k2: int| 0 <= k2 < k ==> !#[trigger] uses_undefined(nodes, i as int, k2),
                forall|j: int| 0 <= j < nodes.len() ==> !#[trigger] redefines(nodes, j),
                forall|j: int, k: int| 0 <= j < i ==> !#[trigger] uses_undefined(nodes, j, k),
            decreases used@.len() - k,
        {
            let var = used[k];
            if !contains_variable(&defs, var) {
                proof {
                    assert(uses_undefined(nodes, i as int, k as int)) by {
                        if defined_before(nodes, nodes.len() as int, var@) {
                            let j = choose|j: int| 0 <= j < nodes.len() && #[trigger] nodes[j] is Let && nodes[j]->Let_var == var@;
                            assert(nodes[j] is Let);
                        }
                    }
                }
                return Err(Error::UndefinedVariable { index: i, variable: var.clone() });
            }
            proof {
                let m = choose|m: int| 0 <= m < defs@.len() && (#[trigger] defs@[m])@ == var@;
                assert(defined_before(nodes, nodes.len() as int, defs@[m]@));
            }
            k += 1;
        }
        proof {
            assert forall|j: int, k2: int| 0 <= j < i + 1 implies !#[trigger] uses_undefined(nodes, j, k2) by {
                if j == i && 0 <= k2 < node_used(nodes[j]).len() {
                    assert(!uses_undefined(nodes, i as int, k2));
                }
            }
        }
        i += 1;
    }

    Ok(())
}

} // verus!
