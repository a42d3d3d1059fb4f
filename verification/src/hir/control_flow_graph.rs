use crate::error::Error;
use crate::hir::{
    instruction_views, phi_node_views, Block, BlockView, Edge, EdgeLabels, EdgeView, Instruction, InstructionView, PhiNode,
    PhiNodeView,
};
use crate::lir::{Expression, Sort};
use vstd::prelude::*;

verus! {

/// A control-flow graph: blocks connected by (conditional) edges, with an optional entry
/// and exit block. New blocks get the index `next_index`.
#[derive(Debug)]
pub struct ControlFlowGraph {
    pub blocks: Vec<Block>,
    pub edges: Vec<Edge>,
    pub entry: Option<usize>,
    pub exit: Option<usize>,
    pub next_index: usize,
}

/// The mathematical value of a `ControlFlowGraph`.
pub struct GraphView {
    pub blocks: Seq<BlockView>,
    pub edges: Seq<EdgeView>,
    pub entry: Option<usize>,
    pub exit: Option<usize>,
    pub next_index: usize,
}

impl GraphView {
    /// Whether a block with index `b` exists.
    pub open spec fn has_block(self, b: usize) -> bool {
        exists|i: int| 0 <= i < self.blocks.len() && (#[trigger] self.blocks[i]).index == b
    }

    /// The position of the block with index `b`.
    pub open spec fn block_pos(self, b: usize) -> int {
        choose|i: int| 0 <= i < self.blocks.len() && (#[trigger] self.blocks[i]).index == b
    }

    /// The block with index `b`.
    pub open spec fn block(self, b: usize) -> BlockView {
        self.blocks[self.block_pos(b)]
    }

    /// Whether an edge from `h` to `t` exists.
    pub open spec fn has_edge(self, h: usize, t: usize) -> bool {
        exists|i: int| 0 <= i < self.edges.len() && (#[trigger] self.edges[i]).head == h && self.edges[i].tail == t
    }

    /// The position of the edge from `h` to `t`.
    pub open spec fn edge_pos(self, h: usize, t: usize) -> int {
        choose|i: int| 0 <= i < self.edges.len() && (#[trigger] self.edges[i]).head == h && self.edges[i].tail == t
    }

    /// Block indices are distinct and below `next_index`, edges connect existing blocks, are
    /// distinct and have boolean conditions, entry and exit exist.
    pub open spec fn wf(self) -> bool {
        &&& forall|i: int, j: int|
            0 <= i < self.blocks.len() && 0 <= j < self.blocks.len() && i != j ==> (#[trigger] self.blocks[i]).index
                != (#[trigger] self.blocks[j]).index
        &&& forall|i: int| 0 <= i < self.blocks.len() ==> (#[trigger] self.blocks[i]).index < self.next_index
        &&& forall|i: int, j: int|
            0 <= i < self.edges.len() && 0 <= j < self.edges.len() && i != j ==> !((#[trigger] self.edges[i]).head
                == (#[trigger] self.edges[j]).head && self.edges[i].tail == self.edges[j].tail)
        &&& forall|i: int|
            0 <= i < self.edges.len() ==> self.has_block((#[trigger] self.edges[i]).head) && self.has_block(
                self.edges[i].tail,
            )
        &&& forall|i: int|
            0 <= i < self.edges.len() ==> ((#[trigger] self.edges[i]).condition matches Some(c) ==> c.sort is Bool)
        &&& self.entry matches Some(e) ==> self.has_block(e)
        &&& self.exit matches Some(e) ==> self.has_block(e)
    }

    /// The graph with a new empty block.
    pub open spec fn with_new_block(self) -> GraphView {
        GraphView {
            blocks: self.blocks.push(BlockView { index: self.next_index, phi_nodes: Seq::empty(), instructions: Seq::empty(), transient: false }),
            next_index: (self.next_index + 1) as usize,
            ..self
        }
    }

    /// The graph with the edge `e` added.
    pub open spec fn with_edge(self, e: EdgeView) -> GraphView {
        GraphView { edges: self.edges.push(e), ..self }
    }

    /// The graph without the edge from `h` to `t`.
    pub open spec fn without_edge(self, h: usize, t: usize) -> GraphView {
        GraphView { edges: self.edges.remove(self.edge_pos(h, t)), ..self }
    }

    /// The graph with block `b` replaced by `blk`.
    pub open spec fn with_block(self, b: usize, blk: BlockView) -> GraphView {
        GraphView { blocks: self.blocks.update(self.block_pos(b), blk), ..self }
    }

    /// The graph with block `b` split before its instruction `at`: the instructions from `at`
    /// on move to a new block, which takes over the outgoing edges of `b` and, if `b` is the
    /// exit, becomes the exit.
    pub open spec fn split(self, b: usize, at: int) -> GraphView {
        let t = self.next_index;
        let blk = self.block(b);
        GraphView {
            blocks: self.blocks.update(
                self.block_pos(b),
                BlockView { instructions: blk.instructions.take(at), ..blk },
            ).push(BlockView { index: t, phi_nodes: Seq::empty(), instructions: blk.instructions.skip(at), transient: blk.transient }),
            edges: Seq::new(
                self.edges.len(),
                |i: int|
                    if self.edges[i].head == b {
                        EdgeView { head: t, ..self.edges[i] }
                    } else {
                        self.edges[i]
                    },
            ),
            entry: self.entry,
            exit: if self.exit == Some(b) {
                Some(t)
            } else {
                self.exit
            },
            next_index: (t + 1) as usize,
        }
    }

    /// What splitting block `b` before its instruction `at` gives (see `split_block_at`).
    pub open spec fn split_result(self, b: usize, at: usize) -> Result<GraphView, Error> {
        if !self.has_block(b) {
            Err(Error::BlockNotFound(b))
        } else if at > self.block(b).instructions.len() {
            Err(Error::InstructionIndexOutOfBounds { block: b, index: at })
        } else if self.next_index == usize::MAX {
            Err(Error::IndexOverflow)
        } else {
            Ok(self.split(b, at as int))
        }
    }

    /// What adding the blocks and edges of `h` gives (see `insert`).
    pub open spec fn embed_result(self, h: GraphView) -> Result<GraphView, Error> {
        if self.next_index + h.blocks.len() <= usize::MAX {
            Ok(self.embed(h))
        } else {
            Err(Error::IndexOverflow)
        }
    }

    /// What adding an unconditional edge from `h` to `t` gives (see `unconditional_edge`).
    pub open spec fn unconditional_result(self, h: usize, t: usize, labels: EdgeLabels) -> Result<GraphView, Error> {
        if !self.has_block(h) {
            Err(Error::BlockNotFound(h))
        } else if !self.has_block(t) {
            Err(Error::BlockNotFound(t))
        } else if self.has_edge(h, t) {
            Err(Error::EdgeExists { head: h, tail: t })
        } else {
            Ok(self.with_edge(unconditional(h, t, labels)))
        }
    }

    /// Edge distinctness: no two edges share head and tail.
    pub open spec fn distinct_edges(self) -> bool {
        forall|i: int, j: int|
            0 <= i < self.edges.len() && 0 <= j < self.edges.len() && i != j ==> !((#[trigger] self.edges[i]).head
                == (#[trigger] self.edges[j]).head && self.edges[i].tail == self.edges[j].tail)
    }

    /// A graph with the blocks of a well-formed graph `self` is well formed when its edges are
    /// distinct and its edges, entry and exit refer to blocks of `self`.
    pub proof fn lemma_wf_same_blocks(self, other: GraphView)
        requires
            self.wf(),
            other.blocks == self.blocks,
            other.next_index == self.next_index,
            other.distinct_edges(),
            forall|i: int|
                0 <= i < other.edges.len() ==> ((#[trigger] other.edges[i]).condition matches Some(c) ==> c.sort is Bool),
            forall|i: int|
                0 <= i < other.edges.len() ==> self.has_block((#[trigger] other.edges[i]).head) && self.has_block(
                    other.edges[i].tail,
                ),
            other.entry matches Some(e) ==> self.has_block(e),
            other.exit matches Some(e) ==> self.has_block(e),
        ensures
            other.wf(),
            forall|x: usize| #[trigger] other.has_block(x) == self.has_block(x),
    {
        assert forall|x: usize| #[trigger] other.has_block(x) == self.has_block(x) by {
            if self.has_block(x) {
                let i = choose|i: int| 0 <= i < self.blocks.len() && (#[trigger] self.blocks[i]).index == x;
                assert(other.blocks[i].index == x);
            }
        }
    }

    /// The block with index `b` has index `b`.
    pub proof fn lemma_block(self, b: usize)
        requires
            self.has_block(b),
        ensures
            0 <= self.block_pos(b) < self.blocks.len(),
            self.block(b).index == b,
    {
    }

    /// Replacing a block by one with the same index keeps the graph well formed and its
    /// blocks' indices.
    pub proof fn lemma_with_block(self, b: usize, blk: BlockView)
        requires
            self.wf(),
            self.has_block(b),
            blk.index == b,
        ensures
            self.with_block(b, blk).wf(),
            forall|x: usize| #[trigger] self.with_block(b, blk).has_block(x) == self.has_block(x),
            self.with_block(b, blk).block_pos(b) == self.block_pos(b),
            self.with_block(b, blk).block(b) == blk,
            self.with_block(b, blk).edges == self.edges,
            self.with_block(b, blk).blocks.len() == self.blocks.len(),
    {
        let w = self.with_block(b, blk);
        let p = self.block_pos(b);
        assert(self.blocks[p].index == b);
        assert forall|x: usize| #[trigger] w.has_block(x) == self.has_block(x) by {
            if self.has_block(x) {
                let i = choose|i: int| 0 <= i < self.blocks.len() && (#[trigger] self.blocks[i]).index == x;
                assert(w.blocks[i].index == x);
            }
            if w.has_block(x) {
                let i = choose|i: int| 0 <= i < w.blocks.len() && (#[trigger] w.blocks[i]).index == x;
                assert(self.blocks[i].index == x);
            }
        }
        w.lemma_block_pos(p);
    }

    /// An edge of `h` moved into a graph whose blocks from `start` are those of `h`.
    pub open spec fn embedded_edge(start: usize, h: GraphView) -> spec_fn(EdgeView) -> EdgeView {
        |e: EdgeView|
            EdgeView { head: (start + h.block_pos(e.head)) as usize, tail: (start + h.block_pos(e.tail)) as usize, ..e }
    }

    /// The graph with the blocks and edges of `h` added: the block at position `p` of `h` gets
    /// index `next_index + p`.
    pub open spec fn embed(self, h: GraphView) -> GraphView {
        let s = self.next_index;
        GraphView {
            blocks: self.blocks + Seq::new(h.blocks.len(), |p: int| BlockView { index: (s + p) as usize, ..h.blocks[p] }),
            edges: self.edges + h.edges.map_values(GraphView::embedded_edge(s, h)),
            next_index: (s + h.blocks.len()) as usize,
            ..self
        }
    }

    /// Adding the blocks and edges of a well-formed graph to a well-formed graph gives a
    /// well-formed graph, with the old blocks and the added ones.
    pub proof fn lemma_embed_wf(self, h: GraphView)
        requires
            self.wf(),
            h.wf(),
            self.next_index + h.blocks.len() <= usize::MAX,
        ensures
            self.embed(h).wf(),
            forall|x: usize| #[trigger] self.embed(h).has_block(x) == (self.has_block(x) || (self.next_index <= x
                < self.next_index + h.blocks.len())),
            forall|i: int|
                0 <= i < self.edges.len() ==> (#[trigger] self.edges[i]).head < self.next_index && self.edges[i].tail
                    < self.next_index,
            forall|i: int|
                self.edges.len() <= i < self.embed(h).edges.len() ==> (#[trigger] self.embed(h).edges[i]).head
                    >= self.next_index && self.embed(h).edges[i].tail >= self.next_index,
    {
        let d = self.embed(h);
        let s = self.next_index;
        let n = self.blocks.len();
        assert forall|i: int| 0 <= i < n implies (#[trigger] self.blocks[i]).index < s by {}
        assert forall|x: usize| #[trigger] d.has_block(x) == (self.has_block(x) || (s <= x < s + h.blocks.len())) by {
            if self.has_block(x) {
                let i = choose|i: int| 0 <= i < n && (#[trigger] self.blocks[i]).index == x;
                assert(d.blocks[i].index == x);
            }
            if s <= x < s + h.blocks.len() {
                assert(d.blocks[n + (x - s)].index == x);
            }
            if d.has_block(x) {
                let i = choose|i: int| 0 <= i < d.blocks.len() && (#[trigger] d.blocks[i]).index == x;
                if i < n {
                    assert(self.blocks[i].index == x);
                }
            }
        }
        let c = h.edges.map_values(GraphView::embedded_edge(s, h));
        assert forall|i: int| 0 <= i < self.edges.len() implies (#[trigger] self.edges[i]).head < s && self.edges[i].tail < s by {
            let x = self.edges[i].head;
            let y = self.edges[i].tail;
            assert(self.has_block(x) && self.has_block(y));
            let j1 = choose|j: int| 0 <= j < n && (#[trigger] self.blocks[j]).index == x;
            let j2 = choose|j: int| 0 <= j < n && (#[trigger] self.blocks[j]).index == y;
        }
        assert forall|i: int| self.edges.len() <= i < d.edges.len() implies (#[trigger] d.edges[i]).head >= s && d.edges[i].tail >= s by {
            assert(d.edges[i] == c[i - self.edges.len()]);
        }
        assert forall|k: int| 0 <= k < c.len() implies (#[trigger] c[k]).head >= s && d.has_block(c[k].head) && d.has_block(
            c[k].tail,
        ) && c[k].head == s + h.block_pos(h.edges[k].head) && c[k].tail == s + h.block_pos(h.edges[k].tail) by {
            h.lemma_block(h.edges[k].head);
            h.lemma_block(h.edges[k].tail);
        }
        assert forall|a: int, b: int|
            0 <= a < d.edges.len() && 0 <= b < d.edges.len() && a != b implies !((#[trigger] d.edges[a]).head
            == (#[trigger] d.edges[b]).head && d.edges[a].tail == d.edges[b].tail) by {
            let m = self.edges.len() as int;
            if a < m && b < m {
            } else if a < m && b >= m {
                assert(self.has_block(self.edges[a].head));
                assert(d.edges[b] == c[b - m]);
            } else if a >= m && b < m {
                assert(self.has_block(self.edges[b].head));
                assert(d.edges[a] == c[a - m]);
            } else {
                assert(d.edges[a] == c[a - m]);
                assert(d.edges[b] == c[b - m]);
                let ea = h.edges[a - m];
                let eb = h.edges[b - m];
                if c[a - m].head == c[b - m].head && c[a - m].tail == c[b - m].tail {
                    h.lemma_block(ea.head);
                    h.lemma_block(eb.head);
                    h.lemma_block(ea.tail);
                    h.lemma_block(eb.tail);
                    assert(h.block_pos(ea.head) == h.block_pos(eb.head));
                    assert(ea.head == eb.head);
                    assert(ea.tail == eb.tail);
                }
            }
        }
        assert forall|i: int|
            0 <= i < d.edges.len() implies d.has_block((#[trigger] d.edges[i]).head) && d.has_block(d.edges[i].tail) by {
            let m = self.edges.len() as int;
            if i >= m {
                assert(d.edges[i] == c[i - m]);
            }
        }
        assert forall|i: int|
            0 <= i < d.edges.len() implies ((#[trigger] d.edges[i]).condition matches Some(cc) ==> cc.sort is Bool) by {
            let m = self.edges.len() as int;
            if i >= m {
                assert(d.edges[i] == c[i - m]);
            }
        }
        assert forall|i: int, j: int|
            0 <= i < d.blocks.len() && 0 <= j < d.blocks.len() && i != j implies (#[trigger] d.blocks[i]).index
            != (#[trigger] d.blocks[j]).index by {
            if i < n && j >= n {
                assert(self.blocks[i].index < s);
            } else if i >= n && j < n {
                assert(self.blocks[j].index < s);
            }
        }
    }

    /// Copying blocks of a well-formed graph gives a well-formed graph, with the old blocks
    /// and the copies.
    pub proof fn lemma_duplicate_wf(self, nodes: Seq<usize>)
        requires
            self.wf(),
            distinct_indices(nodes),
            forall|k: int| 0 <= k < nodes.len() ==> self.has_block(#[trigger] nodes[k]),
            self.next_index + nodes.len() <= usize::MAX,
        ensures
            self.duplicate(nodes).wf(),
            forall|x: usize| #[trigger] self.duplicate(nodes).has_block(x) == (self.has_block(x) || (self.next_index <= x
                < self.next_index + nodes.len())),
    {
        let d = self.duplicate(nodes);
        let s = self.next_index;
        let n = self.blocks.len();
        assert forall|i: int| 0 <= i < n implies (#[trigger] self.blocks[i]).index < s by {}
        assert forall|x: usize| #[trigger] d.has_block(x) == (self.has_block(x) || (s <= x < s + nodes.len())) by {
            if self.has_block(x) {
                let i = choose|i: int| 0 <= i < n && (#[trigger] self.blocks[i]).index == x;
                assert(d.blocks[i].index == x);
            }
            if s <= x < s + nodes.len() {
                assert(d.blocks[n + (x - s)].index == x);
            }
            if d.has_block(x) {
                let i = choose|i: int| 0 <= i < d.blocks.len() && (#[trigger] d.blocks[i]).index == x;
                if i < n {
                    assert(self.blocks[i].index == x);
                }
            }
        }
        assert forall|x: usize| nodes.contains(x) implies copy_index(nodes, s, x) == s + nodes.index_of(x) && 0 <= nodes.index_of(x)
            < nodes.len() && nodes[nodes.index_of(x)] == x by {}
        assert forall|x: usize| #[trigger] self.has_block(x) implies x < s by {
            let i = choose|i: int| 0 <= i < n && (#[trigger] self.blocks[i]).index == x;
        }
        let f = self.edges.filter(GraphView::leaves_one_of(nodes));
        lemma_filtered_edges(self.edges, GraphView::leaves_one_of(nodes));
        let c = f.map_values(GraphView::copied_edge(nodes, s));
        assert forall|k: int| 0 <= k < c.len() implies (#[trigger] c[k]).head >= s && d.has_block(c[k].head) && d.has_block(c[k].tail)
            && (c[k].condition matches Some(cc) ==> cc.sort is Bool) by {
            let e = f[k];
            assert(self.edges.contains(e));
            let i = choose|i: int| 0 <= i < self.edges.len() && self.edges[i] == e;
            assert(self.edges[i] == e);
            assert(nodes.contains(e.head));
        }
        assert forall|a: int, b: int|
            0 <= a < d.edges.len() && 0 <= b < d.edges.len() && a != b implies !((#[trigger] d.edges[a]).head
            == (#[trigger] d.edges[b]).head && d.edges[a].tail == d.edges[b].tail) by {
            let m = self.edges.len() as int;
            if a < m && b < m {
            } else if a < m && b >= m {
                assert(self.has_block(self.edges[a].head));
                assert(d.edges[b] == c[b - m]);
            } else if a >= m && b < m {
                assert(self.has_block(self.edges[b].head));
                assert(d.edges[a] == c[a - m]);
            } else {
                let ea = f[a - m];
                let eb = f[b - m];
                assert(d.edges[a] == c[a - m]);
                assert(d.edges[b] == c[b - m]);
                if ea.head != eb.head || ea.tail != eb.tail {
                    assert(nodes.contains(ea.head) && nodes.contains(eb.head));
                    assert(self.edges.contains(ea) && self.edges.contains(eb));
                    let ia = choose|i: int| 0 <= i < self.edges.len() && self.edges[i] == ea;
                    let ib = choose|i: int| 0 <= i < self.edges.len() && self.edges[i] == eb;
                    assert(self.has_block(ea.tail) && self.has_block(eb.tail));
                    assert(self.edges[ia] == ea && self.edges[ib] == eb);
                }
            }
        }
        assert forall|i: int|
            0 <= i < d.edges.len() implies d.has_block((#[trigger] d.edges[i]).head) && d.has_block(d.edges[i].tail) by {
            let m = self.edges.len() as int;
            if i >= m {
                assert(d.edges[i] == c[i - m]);
            }
        }
        assert forall|i: int|
            0 <= i < d.edges.len() implies ((#[trigger] d.edges[i]).condition matches Some(cc) ==> cc.sort is Bool) by {
            let m = self.edges.len() as int;
            if i >= m {
                assert(d.edges[i] == c[i - m]);
            }
        }
        assert forall|i: int, j: int|
            0 <= i < d.blocks.len() && 0 <= j < d.blocks.len() && i != j implies (#[trigger] d.blocks[i]).index
            != (#[trigger] d.blocks[j]).index by {
            if i < n && j >= n {
                assert(self.blocks[i].index < s);
            } else if i >= n && j < n {
                assert(self.blocks[j].index < s);
            }
        }
    }

    /// In a well-formed graph, the block at position `i` is at `block_pos` of its index.
    pub proof fn lemma_block_pos(self, i: int)
        requires
            self.wf(),
            0 <= i < self.blocks.len(),
        ensures
            self.has_block(self.blocks[i].index),
            self.block_pos(self.blocks[i].index) == i,
    {
        let b = self.blocks[i].index;
        assert(self.has_block(b));
        let c = self.block_pos(b);
        assert(self.blocks[c].index == b);
    }

    /// In a well-formed graph, the edge at position `i` is at `edge_pos` of its endpoints.
    pub proof fn lemma_edge_pos(self, i: int)
        requires
            self.wf(),
            0 <= i < self.edges.len(),
        ensures
            self.has_edge(self.edges[i].head, self.edges[i].tail),
            self.edge_pos(self.edges[i].head, self.edges[i].tail) == i,
    {
        let h = self.edges[i].head;
        let t = self.edges[i].tail;
        assert(self.has_edge(h, t));
        let c = self.edge_pos(h, t);
        assert(self.edges[c].head == h && self.edges[c].tail == t);
    }

    /// Splitting a block of a well-formed graph gives a well-formed graph whose blocks are the
    /// old ones and the new one.
    pub proof fn lemma_split_wf(self, b: usize, at: int)
        requires
            self.wf(),
            self.has_block(b),
            0 <= at <= self.block(b).instructions.len(),
            self.next_index < usize::MAX,
        ensures
            self.split(b, at).wf(),
            forall|x: usize| #[trigger] self.split(b, at).has_block(x) == (self.has_block(x) || x == self.next_index),
    {
        let s = self.split(b, at);
        let t = self.next_index;
        let p = self.block_pos(b);
        assert(self.blocks[p].index == b);
        assert forall|x: usize| #[trigger] s.has_block(x) == (self.has_block(x) || x == t) by {
            if self.has_block(x) {
                let i = choose|i: int| 0 <= i < self.blocks.len() && (#[trigger] self.blocks[i]).index == x;
                assert(s.blocks[i].index == x);
            }
            if x == t {
                assert(s.blocks[self.blocks.len() as int].index == x);
            }
            if s.has_block(x) {
                let i = choose|i: int| 0 <= i < s.blocks.len() && (#[trigger] s.blocks[i]).index == x;
                if i < self.blocks.len() {
                    assert(self.blocks[i].index == x);
                }
            }
        }
        assert forall|i: int| 0 <= i < self.edges.len() implies (#[trigger] self.edges[i]).head != t by {
            if self.edges[i].head == t {
                let j = choose|j: int| 0 <= j < self.blocks.len() && (#[trigger] self.blocks[j]).index == t;
            }
        }
        assert forall|i: int, j: int|
            0 <= i < s.edges.len() && 0 <= j < s.edges.len() && i != j implies !((#[trigger] s.edges[i]).head
            == (#[trigger] s.edges[j]).head && s.edges[i].tail == s.edges[j].tail) by {
            assert(self.edges[i].head != t);
            assert(self.edges[j].head != t);
        }
        assert forall|i: int| 0 <= i < s.edges.len() implies s.has_block((#[trigger] s.edges[i]).head) && s.has_block(
            s.edges[i].tail,
        ) by {
            assert(self.has_block(self.edges[i].head));
            assert(self.has_block(self.edges[i].tail));
        }
    }

    /// Whether the edge leaves one of `nodes`.
    pub open spec fn leaves_one_of(nodes: Seq<usize>) -> spec_fn(EdgeView) -> bool {
        |e: EdgeView| nodes.contains(e.head)
    }

    /// The copy of an edge when `nodes` are copied to new indices from `start`.
    pub open spec fn copied_edge(nodes: Seq<usize>, start: usize) -> spec_fn(EdgeView) -> EdgeView {
        |e: EdgeView| EdgeView { head: copy_index(nodes, start, e.head), tail: copy_index(nodes, start, e.tail), ..e }
    }

    /// The graph with copies of the blocks `nodes` (the copy of `nodes[k]` gets index
    /// `next_index + k`) and of the edges that leave them (to the copies of their tails where
    /// those are among `nodes`).
    pub open spec fn duplicate(self, nodes: Seq<usize>) -> GraphView {
        let s = self.next_index;
        GraphView {
            blocks: self.blocks + Seq::new(
                nodes.len(),
                |k: int| BlockView { index: (s + k) as usize, ..self.block(nodes[k]) },
            ),
            edges: self.edges + self.edges.filter(GraphView::leaves_one_of(nodes)).map_values(
                GraphView::copied_edge(nodes, s),
            ),
            next_index: (s + nodes.len()) as usize,
            ..self
        }
    }

    /// Copies the blocks `nodes`, or the error: the first node that is no block, or the
    /// indices running out.
    pub open spec fn duplicate_result(self, nodes: Seq<usize>) -> Result<GraphView, Error> {
        if exists|k: int| 0 <= k < nodes.len() && !self.has_block(#[trigger] nodes[k]) {
            let k = choose|k: int|
                0 <= k < nodes.len() && !self.has_block(#[trigger] nodes[k]) && forall|j: int|
                    0 <= j < k ==> self.has_block(#[trigger] nodes[j]);
            Err(Error::BlockNotFound(nodes[k]))
        } else if self.next_index + nodes.len() > usize::MAX {
            Err(Error::IndexOverflow)
        } else {
            Ok(self.duplicate(nodes))
        }
    }

    /// The graph with the edge from `h` to `t` moved to go from `nh` to `nt`.
    pub open spec fn rewired(self, h: usize, t: usize, nh: usize, nt: usize) -> GraphView {
        GraphView {
            edges: self.edges.update(self.edge_pos(h, t), EdgeView { head: nh, tail: nt, ..self.edges[self.edge_pos(h, t)] }),
            ..self
        }
    }

    /// The edges leaving block `b`, in order.
    pub open spec fn out_edges(self, b: usize) -> Seq<EdgeView> {
        self.edges.filter(leaves(b))
    }

    /// The edges entering block `b`, in order.
    pub open spec fn in_edges(self, b: usize) -> Seq<EdgeView> {
        self.edges.filter(enters(b))
    }
}

/// Removing an edge undoes adding it: a graph without an edge from `e.head` to `e.tail`,
/// with `e` added and then the edge from `e.head` to `e.tail` removed, is the graph again.
pub proof fn law_remove_edge_undoes_add(g: GraphView, e: EdgeView)
    requires
        !g.has_edge(e.head, e.tail),
    ensures
        g.with_edge(e).has_edge(e.head, e.tail),
        g.with_edge(e).edges[g.with_edge(e).edge_pos(e.head, e.tail)] == e,
        g.with_edge(e).without_edge(e.head, e.tail) == g,
{
    let h = g.with_edge(e);
    let last = g.edges.len() as int;
    assert(h.edges[last] == e);
    let p = h.edge_pos(e.head, e.tail);
    if p != last {
        assert(g.edges[p] == h.edges[p]);
    }
    assert(h.edges.remove(last) =~= g.edges);
}

/// Splitting a block keeps its instructions: those before the split point stay in the
/// block, the others move to the new block, in order.
pub proof fn law_split_keeps_instructions(g: GraphView, b: usize, at: int)
    requires
        g.wf(),
        g.has_block(b),
        0 <= at <= g.block(b).instructions.len(),
        g.next_index < usize::MAX,
    ensures
        g.split(b, at).has_block(b),
        g.split(b, at).has_block(g.next_index),
        g.split(b, at).block(b).instructions + g.split(b, at).block(g.next_index).instructions == g.block(b).instructions,
        g.split(b, at).block(g.next_index).transient == g.block(b).transient,
        g.split(b, at).edges.len() == g.edges.len(),
{
    let s = g.split(b, at);
    let t = g.next_index;
    let p = g.block_pos(b);
    g.lemma_split_wf(b, at);
    assert(g.blocks[p].index == b);
    assert(s.blocks[p].index == b);
    let q = s.block_pos(b);
    assert(s.blocks[q].index == b);
    assert(q == p);
    let n = g.blocks.len() as int;
    assert(s.blocks[n].index == t);
    let r = s.block_pos(t);
    assert(s.blocks[r].index == t);
    assert(r == n);
    assert(g.block(b).instructions.take(at) + g.block(b).instructions.skip(at) =~= g.block(b).instructions);
}

/// Splitting a block moves its out-edges to the new block: each edge that left `b` leaves
/// the new block, to the same block and with the same condition and labels, and no edge
/// leaves `b` any more.
pub proof fn law_split_moves_out_edges(g: GraphView, b: usize, at: int)
    requires
        g.wf(),
        g.has_block(b),
        g.next_index < usize::MAX,
    ensures
        forall|i: int|
            0 <= i < g.edges.len() && (#[trigger] g.edges[i]).head == b ==> g.split(b, at).edges.contains(
                EdgeView { head: g.next_index, ..g.edges[i] },
            ),
        forall|i: int| 0 <= i < g.split(b, at).edges.len() ==> (#[trigger] g.split(b, at).edges[i]).head != b,
{
    let s = g.split(b, at);
    let p = g.block_pos(b);
    assert(g.blocks[p].index == b);
    assert(b < g.next_index);
    assert forall|i: int| 0 <= i < g.edges.len() && (#[trigger] g.edges[i]).head == b implies s.edges.contains(
        EdgeView { head: g.next_index, ..g.edges[i] },
    ) by {
        assert(s.edges[i] == EdgeView { head: g.next_index, ..g.edges[i] });
    }
    assert forall|i: int| 0 <= i < s.edges.len() implies (#[trigger] s.edges[i]).head != b by {
        if g.edges[i].head != b {
            assert(s.edges[i] == g.edges[i]);
        }
    }
}

/// The index of the copy of block `x` when `nodes` are copied to new indices from `start`;
/// other blocks keep their index.
pub open spec fn copy_index(nodes: Seq<usize>, start: usize, x: usize) -> usize {
    if nodes.contains(x) {
        (start + nodes.index_of(x)) as usize
    } else {
        x
    }
}

/// Whether no index occurs twice.
pub open spec fn distinct_indices(nodes: Seq<usize>) -> bool {
    forall|i: int, j: int| 0 <= i < j < nodes.len() ==> nodes[i] != nodes[j]
}

/// Whether an edge leaves block `b`.
pub open spec fn leaves(b: usize) -> spec_fn(EdgeView) -> bool {
    |e: EdgeView| e.head == b
}

/// Whether an edge enters block `b`.
pub open spec fn enters(b: usize) -> spec_fn(EdgeView) -> bool {
    |e: EdgeView| e.tail == b
}

/// The tail of an edge.
pub open spec fn tail_of(e: EdgeView) -> usize {
    e.tail
}

/// The head of an edge.
pub open spec fn head_of(e: EdgeView) -> usize {
    e.head
}

/// Whether `a` and `b` are the same graph: the same blocks and the same edges (in any
/// order), the same entry and the same exit.
pub open spec fn same_graph(a: GraphView, b: GraphView) -> bool {
    &&& a.blocks.len() == b.blocks.len()
    &&& a.edges.len() == b.edges.len()
    &&& a.entry == b.entry
    &&& a.exit == b.exit
    &&& forall|i: int| 0 <= i < a.blocks.len() ==> #[trigger] b.blocks.contains(a.blocks[i])
    &&& forall|i: int| 0 <= i < a.edges.len() ==> #[trigger] b.edges.contains(a.edges[i])
}

/// The views of a sequence of blocks.
pub open spec fn block_views(s: Seq<Block>) -> Seq<BlockView> {
    Seq::new(s.len(), |i: int| s[i]@)
}

/// The views of a sequence of edges.
pub open spec fn edge_views(s: Seq<Edge>) -> Seq<EdgeView> {
    Seq::new(s.len(), |i: int| s[i]@)
}

/// The view of an unconditional edge.
pub open spec fn unconditional(h: usize, t: usize, labels: EdgeLabels) -> EdgeView {
    EdgeView { head: h, tail: t, condition: None, labels: labels }
}

/// The edges of `edges` that leave `b` are among `edges`, leave `b`, and have distinct tails
/// when no two edges of `edges` share head and tail.
pub proof fn lemma_leaving_edges(edges: Seq<EdgeView>, b: usize)
    requires
        forall|i: int, j: int|
            0 <= i < edges.len() && 0 <= j < edges.len() && i != j ==> !((#[trigger] edges[i]).head
                == (#[trigger] edges[j]).head && edges[i].tail == edges[j].tail),
    ensures
        forall|k: int|
            0 <= k < edges.filter(leaves(b)).len() ==> (#[trigger] edges.filter(leaves(b))[k]).head == b
                && edges.contains(edges.filter(leaves(b))[k]),
        forall|k: int, m: int|
            0 <= k < edges.filter(leaves(b)).len() && 0 <= m < edges.filter(leaves(b)).len() && k != m
                ==> (#[trigger] edges.filter(leaves(b))[k]).tail != (#[trigger] edges.filter(leaves(b))[m]).tail,
    decreases edges.len(),
{
    reveal(Seq::filter);
    if edges.len() > 0 {
        let rest = edges.drop_last();
        lemma_leaving_edges(rest, b);
        let f = edges.filter(leaves(b));
        let fr = rest.filter(leaves(b));
        assert forall|k: int| 0 <= k < fr.len() implies (#[trigger] fr[k]).tail != edges.last().tail || edges.last().head != b by {
            assert(rest.contains(fr[k]));
            let m = choose|m: int| 0 <= m < rest.len() && rest[m] == fr[k];
            assert(edges[m] == fr[k]);
            assert(edges[edges.len() - 1] == edges.last());
        }
        assert forall|k: int| 0 <= k < f.len() implies (#[trigger] f[k]).head == b && edges.contains(f[k]) by {
            if k < fr.len() {
                assert(f[k] == fr[k]);
                assert(rest.contains(fr[k]));
                let m = choose|m: int| 0 <= m < rest.len() && rest[m] == fr[k];
                assert(edges[m] == fr[k]);
            } else {
                assert(f[k] == edges.last());
                assert(edges[edges.len() - 1] == edges.last());
            }
        }
    }
}

/// The edges of `edges` that satisfy `pred` are among `edges`, satisfy it, and share no head
/// and tail when no two edges of `edges` do.
pub proof fn lemma_filtered_edges(edges: Seq<EdgeView>, pred: spec_fn(EdgeView) -> bool)
    requires
        forall|i: int, j: int|
            0 <= i < edges.len() && 0 <= j < edges.len() && i != j ==> !((#[trigger] edges[i]).head
                == (#[trigger] edges[j]).head && edges[i].tail == edges[j].tail),
    ensures
        forall|k: int|
            0 <= k < edges.filter(pred).len() ==> pred(#[trigger] edges.filter(pred)[k]) && edges.contains(
                edges.filter(pred)[k],
            ),
        forall|k: int, m: int|
            0 <= k < edges.filter(pred).len() && 0 <= m < edges.filter(pred).len() && k != m ==> !((#[trigger] edges.filter(
                pred,
            )[k]).head == (#[trigger] edges.filter(pred)[m]).head && edges.filter(pred)[k].tail == edges.filter(
                pred,
            )[m].tail),
    decreases edges.len(),
{
    reveal(Seq::filter);
    if edges.len() > 0 {
        let rest = edges.drop_last();
        lemma_filtered_edges(rest, pred);
        let f = edges.filter(pred);
        let fr = rest.filter(pred);
        assert forall|k: int| 0 <= k < f.len() implies pred(#[trigger] f[k]) && edges.contains(f[k]) by {
            if k < fr.len() {
                assert(f[k] == fr[k]);
                assert(rest.contains(fr[k]));
                let m = choose|m: int| 0 <= m < rest.len() && rest[m] == fr[k];
                assert(edges[m] == fr[k]);
            } else {
                assert(f[k] == edges.last());
                assert(edges[edges.len() - 1] == edges.last());
            }
        }
        assert forall|k: int| 0 <= k < fr.len() implies !((#[trigger] fr[k]).head == edges.last().head && fr[k].tail
            == edges.last().tail) by {
            assert(rest.contains(fr[k]));
            let m = choose|m: int| 0 <= m < rest.len() && rest[m] == fr[k];
            assert(edges[m] == fr[k]);
            assert(edges[edges.len() - 1] == edges.last());
        }
    }
}

impl ControlFlowGraph {
    /// The mathematical value of the graph.
    pub open spec fn view(&self) -> GraphView {
        GraphView {
            blocks: block_views(self.blocks@),
            edges: edge_views(self.edges@),
            entry: self.entry,
            exit: self.exit,
            next_index: self.next_index,
        }
    }

    /// The graph is well formed.
    pub open spec fn wf(&self) -> bool {
        self@.wf()
    }

    /// An empty graph.
    pub fn new() -> (r: Self)
        ensures
            r.wf(),
            r@.blocks.len() == 0 && r@.edges.len() == 0 && r@.entry is None && r@.exit is None
                && r@.next_index == 0,
    {
        let r = ControlFlowGraph { blocks: Vec::new(), edges: Vec::new(), entry: None, exit: None, next_index: 0 };
        r
    }

    /// The position of the block with index `b`.
    pub fn block_position(&self, b: usize) -> (r: Option<usize>)
        requires
            self.wf(),
        ensures
            r is None <==> !self@.has_block(b),
            r matches Some(p) ==> p == self@.block_pos(b) && p < self@.blocks.len() && self@.blocks[p as int].index == b,
    {
        let mut i: usize = 0;
        while i < self.blocks.len()
            invariant
                0 <= i <= self.blocks@.len(),
                self.wf(),
                forall|j: int| 0 <= j < i ==> (#[trigger] self.blocks@[j]).index != b,
            decreases self.blocks@.len() - i,
        {
            if self.blocks[i].index == b {
                assert(self@.blocks[i as int].index == b);
                proof {
                    self@.lemma_block_pos(i as int);
                }
                return Some(i);
            }
            i += 1;
        }
        proof {
            if self@.has_block(b) {
                let j = choose|j: int| 0 <= j < self@.blocks.len() && (#[trigger] self@.blocks[j]).index == b;
                assert(self.blocks@[j].index == b);
            }
        }
        None
    }

    /// Whether a block with index `b` exists.
    pub fn has_block(&self, b: usize) -> (r: bool)
        requires
            self.wf(),
        ensures
            r == self@.has_block(b),
    {
        self.block_position(b).is_some()
    }

    /// The block with index `b`.
    pub fn block(&self, b: usize) -> (r: Result<&Block, Error>)
        requires
            self.wf(),
        ensures
            r is Ok <==> self@.has_block(b),
            r is Ok ==> r.unwrap()@ == self@.block(b),
            r is Err ==> r == Err::<&Block, Error>(Error::BlockNotFound(b)),
    {
        match self.block_position(b) {
            Some(p) => Ok(&self.blocks[p]),
            None => Err(Error::BlockNotFound(b)),
        }
    }

    pub fn blocks(&self) -> (r: &[Block])
        ensures
            r@ == self.blocks@,
    {
        self.blocks.as_slice()
    }

    pub fn edges(&self) -> (r: &[Edge])
        ensures
            r@ == self.edges@,
    {
        self.edges.as_slice()
    }

    /// Adds an empty block; returns its index.
    pub fn new_block(&mut self) -> (r: Result<usize, Error>)
        requires
            old(self).wf(),
        ensures
            final(self).wf(),
            r is Ok <==> old(self).next_index < usize::MAX,
            r is Ok ==> r == Ok::<usize, Error>(old(self).next_index) && final(self)@ == old(self)@.with_new_block(),
            r is Err ==> final(self)@ == old(self)@ && r == Err::<usize, Error>(Error::IndexOverflow),
    {
        if self.next_index == usize::MAX {
            return Err(Error::IndexOverflow);
        }
        let index = self.next_index;
        self.blocks.push(Block::new(index));
        self.next_index = index + 1;
        proof {
            assert(self@.blocks =~= old(self)@.with_new_block().blocks);
            assert forall|b: usize| old(self)@.has_block(b) implies self@.has_block(b) by {
                let i = choose|i: int| 0 <= i < old(self)@.blocks.len() && (#[trigger] old(self)@.blocks[i]).index == b;
                assert(self@.blocks[i].index == b);
            }
        }
        Ok(index)
    }

    /// Adds a block; fails if a block with its index exists or its index is `usize::MAX`.
    pub fn add_block(&mut self, block: Block) -> (r: Result<(), Error>)
        requires
            old(self).wf(),
        ensures
            final(self).wf(),
            r is Ok <==> (!old(self)@.has_block(block.index) && block.index < usize::MAX),
            r is Ok ==> final(self)@ == (GraphView {
                blocks: old(self)@.blocks.push(block@),
                next_index: if block.index < old(self).next_index {
                    old(self).next_index
                } else {
                    (block.index + 1) as usize
                },
                ..old(self)@
            }),
            r is Err ==> final(self)@ == old(self)@,
            old(self)@.has_block(block.index) ==> r == Err::<(), Error>(Error::BlockExists(block.index)),
            !old(self)@.has_block(block.index) && block.index == usize::MAX ==> r == Err::<(), Error>(
                Error::IndexOverflow,
            ),
    {
        if self.has_block(block.index) {
            return Err(Error::BlockExists(block.index));
        }
        if block.index == usize::MAX {
            return Err(Error::IndexOverflow);
        }
        if block.index >= self.next_index {
            self.next_index = block.index + 1;
        }
        let ghost bv = block@;
        self.blocks.push(block);
        proof {
            assert(self@.blocks =~= old(self)@.blocks.push(bv));
            assert forall|b: usize| old(self)@.has_block(b) implies self@.has_block(b) by {
                let i = choose|i: int| 0 <= i < old(self)@.blocks.len() && (#[trigger] old(self)@.blocks[i]).index == b;
                assert(self@.blocks[i].index == b);
            }
        }
        Ok(())
    }

    /// Appends an instruction to the block with index `b`.
    pub fn add_instruction(&mut self, b: usize, instruction: Instruction) -> (r: Result<(), Error>)
        requires
            old(self).wf(),
        ensures
            final(self).wf(),
            r is Ok <==> old(self)@.has_block(b),
            r is Ok ==> final(self)@ == old(self)@.with_block(
                b,
                BlockView {
                    instructions: old(self)@.block(b).instructions.push(instruction@),
                    ..old(self)@.block(b)
                },
            ),
            r is Err ==> final(self)@ == old(self)@ && r == Err::<(), Error>(Error::BlockNotFound(b)),
    {
        match self.block_position(b) {
            None => Err(Error::BlockNotFound(b)),
            Some(p) => {
                let mut block = self.blocks.remove(p);
                block.add_instruction(instruction);
                self.blocks.insert(p, block);
                proof {
                    self.lemma_same_indices(*old(self), p as int);
                }
                Ok(())
            },
        }
    }

    /// Marks the block with index `b` as transient.
    pub fn set_block_transient(&mut self, b: usize) -> (r: Result<(), Error>)
        requires
            old(self).wf(),
        ensures
            final(self).wf(),
            r is Ok <==> old(self)@.has_block(b),
            r is Ok ==> final(self)@ == old(self)@.with_block(b, BlockView { transient: true, ..old(self)@.block(b) }),
            r is Err ==> final(self)@ == old(self)@ && r == Err::<(), Error>(Error::BlockNotFound(b)),
    {
        match self.block_position(b) {
            None => Err(Error::BlockNotFound(b)),
            Some(p) => {
                let mut block = self.blocks.remove(p);
                block.set_transient();
                self.blocks.insert(p, block);
                proof {
                    self.lemma_same_indices(*old(self), p as int);
                }
                Ok(())
            },
        }
    }

    /// Replaces the instructions of the block with index `b`.
    pub fn set_instructions(&mut self, b: usize, instructions: Vec<Instruction>) -> (r: Result<(), Error>)
        requires
            old(self).wf(),
        ensures
            final(self).wf(),
            r is Ok <==> old(self)@.has_block(b),
            r is Ok ==> final(self)@ == old(self)@.with_block(
                b,
                BlockView { instructions: instruction_views(instructions@), ..old(self)@.block(b) },
            ),
            r is Err ==> final(self)@ == old(self)@ && r == Err::<(), Error>(Error::BlockNotFound(b)),
    {
        match self.block_position(b) {
            None => Err(Error::BlockNotFound(b)),
            Some(p) => {
                let mut block = self.blocks.remove(p);
                block.instructions = instructions;
                self.blocks.insert(p, block);
                proof {
                    self.lemma_same_indices(*old(self), p as int);
                }
                Ok(())
            },
        }
    }

    /// After replacing the block at position `p` by one with the same index, the graph is
    /// still well formed and its view is the old one with that block replaced.
    proof fn lemma_same_indices(&self, old_graph: ControlFlowGraph, p: int)
        requires
            old_graph.wf(),
            0 <= p < old_graph.blocks@.len(),
            self.blocks@.len() == old_graph.blocks@.len(),
            self.blocks@[p].index == old_graph.blocks@[p].index,
            forall|i: int| 0 <= i < self.blocks@.len() && i != p ==> self.blocks@[i] == old_graph.blocks@[i],
            self.edges == old_graph.edges,
            self.entry == old_graph.entry,
            self.exit == old_graph.exit,
            self.next_index == old_graph.next_index,
        ensures
            self.wf(),
            self@ == old_graph@.with_block(old_graph.blocks@[p].index, self@.blocks[p]),
            forall|b: usize| #[trigger] self@.has_block(b) == old_graph@.has_block(b),
    {
        let b = old_graph.blocks@[p].index;
        assert(old_graph@.blocks[p].index == b);
        assert(old_graph@.block_pos(b) == p);
        assert forall|x: usize| #[trigger] self@.has_block(x) == old_graph@.has_block(x) by {
            if self@.has_block(x) {
                let i = choose|i: int| 0 <= i < self@.blocks.len() && (#[trigger] self@.blocks[i]).index == x;
                assert(old_graph@.blocks[i].index == x);
            }
            if old_graph@.has_block(x) {
                let i = choose|i: int| 0 <= i < old_graph@.blocks.len() && (#[trigger] old_graph@.blocks[i]).index == x;
                assert(self@.blocks[i].index == x);
            }
        }
        assert(self@.blocks =~= old_graph@.blocks.update(p, self@.blocks[p]));
    }

    /// The entry block index.
    pub fn entry(&self) -> (r: Result<usize, Error>)
        ensures
            self.entry matches Some(e) ==> r == Ok::<usize, Error>(e),
            self.entry is None ==> r == Err::<usize, Error>(Error::NoEntry),
    {
        match self.entry {
            Some(e) => Ok(e),
            None => Err(Error::NoEntry),
        }
    }

    /// The exit block index.
    pub fn exit(&self) -> (r: Result<usize, Error>)
        ensures
            self.exit matches Some(e) ==> r == Ok::<usize, Error>(e),
            self.exit is None ==> r == Err::<usize, Error>(Error::NoExit),
    {
        match self.exit {
            Some(e) => Ok(e),
            None => Err(Error::NoExit),
        }
    }

    /// Sets the entry block; fails if no block has index `b`.
    pub fn set_entry(&mut self, b: usize) -> (r: Result<(), Error>)
        requires
            old(self).wf(),
        ensures
            final(self).wf(),
            r is Ok <==> old(self)@.has_block(b),
            r is Ok ==> final(self)@ == (GraphView { entry: Some(b), ..old(self)@ }),
            r is Err ==> final(self)@ == old(self)@ && r == Err::<(), Error>(Error::BlockNotFound(b)),
    {
        if !self.has_block(b) {
            return Err(Error::BlockNotFound(b));
        }
        self.entry = Some(b);
        proof {
            old(self)@.lemma_wf_same_blocks(self@);
        }
        Ok(())
    }

    /// Sets the exit block; fails if no block has index `b`.
    pub fn set_exit(&mut self, b: usize) -> (r: Result<(), Error>)
        requires
            old(self).wf(),
        ensures
            final(self).wf(),
            r is Ok <==> old(self)@.has_block(b),
            r is Ok ==> final(self)@ == (GraphView { exit: Some(b), ..old(self)@ }),
            r is Err ==> final(self)@ == old(self)@ && r == Err::<(), Error>(Error::BlockNotFound(b)),
    {
        if !self.has_block(b) {
            return Err(Error::BlockNotFound(b));
        }
        self.exit = Some(b);
        proof {
            old(self)@.lemma_wf_same_blocks(self@);
        }
        Ok(())
    }

    /// The position of the edge from `h` to `t`.
    pub fn edge_position(&self, h: usize, t: usize) -> (r: Option<usize>)
        requires
            self.wf(),
        ensures
            r is None <==> !self@.has_edge(h, t),
            r matches Some(p) ==> p == self@.edge_pos(h, t) && p < self@.edges.len() && self@.edges[p as int].head == h
                && self@.edges[p as int].tail == t,
    {
        let mut i: usize = 0;
        while i < self.edges.len()
            invariant
                0 <= i <= self.edges@.len(),
                self.wf(),
                forall|j: int| 0 <= j < i ==> !((#[trigger] self.edges@[j]).head == h && self.edges@[j].tail == t),
            decreases self.edges@.len() - i,
        {
            if self.edges[i].head == h && self.edges[i].tail == t {
                assert(self@.edges[i as int].head == h && self@.edges[i as int].tail == t);
                proof {
                    self@.lemma_edge_pos(i as int);
                }
                return Some(i);
            }
            i += 1;
        }
        proof {
            if self@.has_edge(h, t) {
                let j = choose|j: int| 0 <= j < self@.edges.len() && (#[trigger] self@.edges[j]).head == h && self@.edges[j].tail == t;
                assert(self.edges@[j].head == h);
            }
        }
        None
    }

    /// The edge from `h` to `t`.
    pub fn edge(&self, h: usize, t: usize) -> (r: Result<&Edge, Error>)
        requires
            self.wf(),
        ensures
            r is Ok <==> self@.has_edge(h, t),
            r is Ok ==> r.unwrap()@ == self@.edges[self@.edge_pos(h, t)],
            r is Err ==> r == Err::<&Edge, Error>(Error::EdgeNotFound { head: h, tail: t }),
    {
        match self.edge_position(h, t) {
            Some(p) => Ok(&self.edges[p]),
            None => Err(Error::EdgeNotFound { head: h, tail: t }),
        }
    }

    /// Adds an edge from `h` to `t` with the given condition and labels.
    fn add_edge(&mut self, h: usize, t: usize, condition: Option<Expression>, labels: EdgeLabels) -> (r: Result<(), Error>)
        requires
            old(self).wf(),
            condition matches Some(c) ==> c.sort is Bool,
        ensures
            forall|x: usize| #[trigger] final(self)@.has_block(x) == old(self)@.has_block(x),
            final(self).wf(),
            r is Ok <==> (old(self)@.has_block(h) && old(self)@.has_block(t) && !old(self)@.has_edge(h, t)),
            r is Ok ==> final(self)@ == old(self)@.with_edge((Edge { head: h, tail: t, condition, labels })@),
            r is Err ==> final(self)@ == old(self)@,
            !old(self)@.has_block(h) ==> r == Err::<(), Error>(Error::BlockNotFound(h)),
            old(self)@.has_block(h) && !old(self)@.has_block(t) ==> r == Err::<(), Error>(Error::BlockNotFound(t)),
            old(self)@.has_block(h) && old(self)@.has_block(t) && old(self)@.has_edge(h, t) ==> r == Err::<(), Error>(
                Error::EdgeExists { head: h, tail: t },
            ),
    {
        if !self.has_block(h) {
            return Err(Error::BlockNotFound(h));
        }
        if !self.has_block(t) {
            return Err(Error::BlockNotFound(t));
        }
        if self.edge_position(h, t).is_some() {
            return Err(Error::EdgeExists { head: h, tail: t });
        }
        let edge = Edge { head: h, tail: t, condition, labels };
        let ghost ev = edge@;
        self.edges.push(edge);
        proof {
            assert(self@.edges =~= old(self)@.edges.push(ev));
            assert forall|i: int, j: int|
                0 <= i < self@.edges.len() && 0 <= j < self@.edges.len() && i != j implies !((#[trigger] self@.edges[i]).head
                == (#[trigger] self@.edges[j]).head && self@.edges[i].tail == self@.edges[j].tail) by {
                let n = old(self)@.edges.len() as int;
                if i == n && self@.edges[j].head == h && self@.edges[j].tail == t {
                    assert(old(self)@.edges[j].head == h && old(self)@.edges[j].tail == t);
                }
                if j == n && self@.edges[i].head == h && self@.edges[i].tail == t {
                    assert(old(self)@.edges[i].head == h && old(self)@.edges[i].tail == t);
                }
            }
            old(self)@.lemma_wf_same_blocks(self@);
        }
        Ok(())
    }

    /// Adds an edge from `h` to `t` that is taken when `condition` holds; fails unless both
    /// blocks exist, no such edge exists and the condition is boolean.
    pub fn conditional_edge(&mut self, h: usize, t: usize, condition: Expression, labels: EdgeLabels) -> (r: Result<(), Error>)
        requires
            old(self).wf(),
        ensures
            forall|x: usize| #[trigger] final(self)@.has_block(x) == old(self)@.has_block(x),
            final(self).wf(),
            r is Ok <==> (old(self)@.has_block(h) && old(self)@.has_block(t) && !old(self)@.has_edge(h, t)
                && condition.sort is Bool),
            r is Ok ==> final(self)@ == old(self)@.with_edge(
                EdgeView { head: h, tail: t, condition: Some(condition@), labels },
            ),
            r is Err ==> final(self)@ == old(self)@,
            !old(self)@.has_block(h) ==> r == Err::<(), Error>(Error::BlockNotFound(h)),
            old(self)@.has_block(h) && !old(self)@.has_block(t) ==> r == Err::<(), Error>(Error::BlockNotFound(t)),
            old(self)@.has_block(h) && old(self)@.has_block(t) && old(self)@.has_edge(h, t) ==> r == Err::<(), Error>(
                Error::EdgeExists { head: h, tail: t },
            ),
            old(self)@.has_block(h) && old(self)@.has_block(t) && !old(self)@.has_edge(h, t) && !(condition.sort is Bool)
                ==> r == Err::<(), Error>(Error::ExpectedBool(condition.sort)),
    {
        if !self.has_block(h) {
            return Err(Error::BlockNotFound(h));
        }
        if !self.has_block(t) {
            return Err(Error::BlockNotFound(t));
        }
        if self.edge_position(h, t).is_some() {
            return Err(Error::EdgeExists { head: h, tail: t });
        }
        condition.sort().expect_bool()?;
        self.add_edge(h, t, Some(condition), labels)
    }

    /// Adds an edge from `h` to `t` that is always taken; fails unless both blocks exist and
    /// no such edge exists.
    pub fn unconditional_edge(&mut self, h: usize, t: usize, labels: EdgeLabels) -> (r: Result<(), Error>)
        requires
            old(self).wf(),
        ensures
            forall|x: usize| #[trigger] final(self)@.has_block(x) == old(self)@.has_block(x),
            final(self).wf(),
            r is Ok <==> (old(self)@.has_block(h) && old(self)@.has_block(t) && !old(self)@.has_edge(h, t)),
            r is Ok ==> final(self)@ == old(self)@.with_edge(unconditional(h, t, labels)),
            r is Err ==> final(self)@ == old(self)@,
            !old(self)@.has_block(h) ==> r == Err::<(), Error>(Error::BlockNotFound(h)),
            old(self)@.has_block(h) && !old(self)@.has_block(t) ==> r == Err::<(), Error>(Error::BlockNotFound(t)),
            old(self)@.has_block(h) && old(self)@.has_block(t) && old(self)@.has_edge(h, t) ==> r == Err::<(), Error>(
                Error::EdgeExists { head: h, tail: t },
            ),
    {
        self.add_edge(h, t, None, labels)
    }

    /// Removes the edge from `h` to `t` and returns it.
    pub fn remove_edge(&mut self, h: usize, t: usize) -> (r: Result<Edge, Error>)
        requires
            old(self).wf(),
        ensures
            forall|x: usize| #[trigger] final(self)@.has_block(x) == old(self)@.has_block(x),
            final(self).wf(),
            r is Ok <==> old(self)@.has_edge(h, t),
            r is Ok ==> r.unwrap()@ == old(self)@.edges[old(self)@.edge_pos(h, t)] && final(self)@ == old(
                self,
            )@.without_edge(h, t),
            r is Err ==> final(self)@ == old(self)@ && r == Err::<Edge, Error>(Error::EdgeNotFound { head: h, tail: t }),
    {
        match self.edge_position(h, t) {
            None => Err(Error::EdgeNotFound { head: h, tail: t }),
            Some(p) => {
                let e = self.edges.remove(p);
                proof {
                    assert(self@.edges =~= old(self)@.edges.remove(p as int));
                    assert forall|i: int, j: int|
                        0 <= i < self@.edges.len() && 0 <= j < self@.edges.len() && i != j implies !((#[trigger] self@.edges[i]).head
                        == (#[trigger] self@.edges[j]).head && self@.edges[i].tail == self@.edges[j].tail) by {
                        let oi = if i < p { i } else { i + 1 };
                        let oj = if j < p { j } else { j + 1 };
                        assert(self@.edges[i] == old(self)@.edges[oi]);
                        assert(self@.edges[j] == old(self)@.edges[oj]);
                    }
                    assert forall|i: int| 0 <= i < self@.edges.len() implies old(self)@.has_block((#[trigger] self@.edges[i]).head)
                        && old(self)@.has_block(self@.edges[i].tail) by {
                        let oi = if i < p { i } else { i + 1 };
                        assert(self@.edges[i] == old(self)@.edges[oi]);
                    }
                    old(self)@.lemma_wf_same_blocks(self@);
                }
                Ok(e)
            },
        }
    }

    /// Splits the block with index `b` before its instruction `at`: the instructions from `at`
    /// on move to a new block, which takes over the edges leaving `b` (and the exit, if `b` is
    /// the exit). Returns the index of the new block.
    pub fn split_block_at(&mut self, b: usize, at: usize) -> (r: Result<usize, Error>)
        requires
            old(self).wf(),
        ensures
            final(self).wf(),
            r is Ok <==> (old(self)@.has_block(b) && at <= old(self)@.block(b).instructions.len()
                && old(self).next_index < usize::MAX),
            r is Ok ==> r == Ok::<usize, Error>(old(self).next_index) && final(self)@ == old(self)@.split(b, at as int),
            r is Err ==> final(self)@ == old(self)@,
            !old(self)@.has_block(b) ==> r == Err::<usize, Error>(Error::BlockNotFound(b)),
            old(self)@.has_block(b) && at > old(self)@.block(b).instructions.len() ==> r == Err::<usize, Error>(
                Error::InstructionIndexOutOfBounds { block: b, index: at },
            ),
            old(self)@.has_block(b) && at <= old(self)@.block(b).instructions.len() && old(self).next_index
                == usize::MAX ==> r == Err::<usize, Error>(Error::IndexOverflow),
    {
        let p = match self.block_position(b) {
            None => {
                return Err(Error::BlockNotFound(b));
            },
            Some(p) => p,
        };
        if at > self.blocks[p].instructions.len() {
            return Err(Error::InstructionIndexOutOfBounds { block: b, index: at });
        }
        if self.next_index == usize::MAX {
            return Err(Error::IndexOverflow);
        }
        let ghost g = old(self)@;
        let t = self.next_index;
        let mut head = self.blocks.remove(p);
        let ghost head_insts = head.instructions@;
        let tail_instructions = head.instructions.split_off(at);
        let transient = head.transient;
        self.blocks.insert(p, head);
        self.blocks.push(Block { index: t, phi_nodes: Vec::new(), instructions: tail_instructions, transient });
        self.next_index = t + 1;
        let mut edges: Vec<Edge> = Vec::new();
        let mut i: usize = 0;
        while i < self.edges.len()
            invariant
                0 <= i <= self.edges@.len(),
                edge_views(self.edges@) == g.edges,
                edges@.len() == i,
                forall|j: int|
                    0 <= j < i ==> (#[trigger] edges@[j])@ == (if g.edges[j].head == b {
                        EdgeView { head: t, ..g.edges[j] }
                    } else {
                        g.edges[j]
                    }),
            decreases self.edges@.len() - i,
        {
            let mut e = self.edges[i].clone();
            if e.head == b {
                e.head = t;
            }
            edges.push(e);
            i += 1;
        }
        self.edges = edges;
        if self.exit == Some(b) {
            self.exit = Some(t);
        }
        proof {
            let s = g.split(b, at as int);
            assert(g.block_pos(b) == p);
            assert(instruction_views(head_insts.take(at as int)) =~= g.block(b).instructions.take(at as int));
            assert(instruction_views(head_insts.skip(at as int)) =~= g.block(b).instructions.skip(at as int));
            assert(phi_node_views(Seq::<PhiNode>::empty()) =~= Seq::<PhiNodeView>::empty());
            assert(self@.blocks.last().phi_nodes =~= Seq::<PhiNodeView>::empty());
            assert(self@.blocks =~= s.blocks);
            assert(self@.edges =~= s.edges);
            g.lemma_split_wf(b, at as int);
        }
        Ok(t)
    }

    /// Splits the block with index `b` after its last instruction; the new, empty block takes
    /// over the edges leaving `b`. Returns the index of the new block.
    pub fn split_block_at_end(&mut self, b: usize) -> (r: Result<usize, Error>)
        requires
            old(self).wf(),
        ensures
            final(self).wf(),
            r is Ok <==> (old(self)@.has_block(b) && old(self).next_index < usize::MAX),
            r is Ok ==> r == Ok::<usize, Error>(old(self).next_index) && final(self)@ == old(self)@.split(
                b,
                old(self)@.block(b).instructions.len() as int,
            ),
            r is Err ==> final(self)@ == old(self)@,
            !old(self)@.has_block(b) ==> r == Err::<usize, Error>(Error::BlockNotFound(b)),
            old(self)@.has_block(b) && old(self).next_index == usize::MAX ==> r == Err::<usize, Error>(
                Error::IndexOverflow,
            ),
    {
        let p = match self.block_position(b) {
            None => {
                return Err(Error::BlockNotFound(b));
            },
            Some(p) => p,
        };
        let at = self.blocks[p].instructions.len();
        self.split_block_at(b, at)
    }

    /// The edges leaving block `b` (copies), in the order in which they were added.
    pub fn edges_out(&self, b: usize) -> (r: Result<Vec<Edge>, Error>)
        requires
            self.wf(),
        ensures
            r is Ok <==> self@.has_block(b),
            r is Ok ==> edge_views(r.unwrap()@) == self@.out_edges(b),
            r is Err ==> r == Err::<Vec<Edge>, Error>(Error::BlockNotFound(b)),
    {
        if !self.has_block(b) {
            return Err(Error::BlockNotFound(b));
        }
        let mut out: Vec<Edge> = Vec::new();
        let mut i: usize = 0;
        while i < self.edges.len()
            invariant
                0 <= i <= self.edges@.len(),
                edge_views(out@) == self@.edges.take(i as int).filter(leaves(b)),
            decreases self.edges@.len() - i,
        {
            proof {
                reveal(Seq::filter);
                assert(self@.edges.take(i + 1).drop_last() =~= self@.edges.take(i as int));
            }
            if self.edges[i].head == b {
                let ghost before = out@;
                out.push(self.edges[i].clone());
                assert(edge_views(out@) =~= edge_views(before).push(self@.edges[i as int]));
            }
            i += 1;
        }
        assert(self@.edges.take(self@.edges.len() as int) =~= self@.edges);
        Ok(out)
    }

    /// The edges entering block `b` (copies), in the order in which they were added.
    pub fn edges_in(&self, b: usize) -> (r: Result<Vec<Edge>, Error>)
        requires
            self.wf(),
        ensures
            r is Ok <==> self@.has_block(b),
            r is Ok ==> edge_views(r.unwrap()@) == self@.in_edges(b),
            r is Err ==> r == Err::<Vec<Edge>, Error>(Error::BlockNotFound(b)),
    {
        if !self.has_block(b) {
            return Err(Error::BlockNotFound(b));
        }
        let mut out: Vec<Edge> = Vec::new();
        let mut i: usize = 0;
        while i < self.edges.len()
            invariant
                0 <= i <= self.edges@.len(),
                edge_views(out@) == self@.edges.take(i as int).filter(enters(b)),
            decreases self.edges@.len() - i,
        {
            proof {
                reveal(Seq::filter);
                assert(self@.edges.take(i + 1).drop_last() =~= self@.edges.take(i as int));
            }
            if self.edges[i].tail == b {
                let ghost before = out@;
                out.push(self.edges[i].clone());
                assert(edge_views(out@) =~= edge_views(before).push(self@.edges[i as int]));
            }
            i += 1;
        }
        assert(self@.edges.take(self@.edges.len() as int) =~= self@.edges);
        Ok(out)
    }

    /// The indices of the successors of block `b`, in the order of the edges.
    pub fn successor_indices(&self, b: usize) -> (r: Result<Vec<usize>, Error>)
        requires
            self.wf(),
        ensures
            r is Ok <==> self@.has_block(b),
            r is Ok ==> r.unwrap()@ == self@.out_edges(b).map_values(|e: EdgeView| tail_of(e)),
            r is Err ==> r == Err::<Vec<usize>, Error>(Error::BlockNotFound(b)),
    {
        let edges = self.edges_out(b)?;
        let mut out: Vec<usize> = Vec::new();
        let mut i: usize = 0;
        while i < edges.len()
            invariant
                0 <= i <= edges@.len(),
                out@ =~= edge_views(edges@).take(i as int).map_values(|e: EdgeView| tail_of(e)),
            decreases edges@.len() - i,
        {
            out.push(edges[i].tail);
            i += 1;
        }
        assert(edge_views(edges@).take(edges@.len() as int) =~= edge_views(edges@));
        Ok(out)
    }

    /// The indices of the predecessors of block `b`, in the order of the edges.
    pub fn predecessor_indices(&self, b: usize) -> (r: Result<Vec<usize>, Error>)
        requires
            self.wf(),
        ensures
            r is Ok <==> self@.has_block(b),
            r is Ok ==> r.unwrap()@ == self@.in_edges(b).map_values(|e: EdgeView| head_of(e)),
            r is Err ==> r == Err::<Vec<usize>, Error>(Error::BlockNotFound(b)),
    {
        let edges = self.edges_in(b)?;
        let mut out: Vec<usize> = Vec::new();
        let mut i: usize = 0;
        while i < edges.len()
            invariant
                0 <= i <= edges@.len(),
                out@ =~= edge_views(edges@).take(i as int).map_values(|e: EdgeView| head_of(e)),
            decreases edges@.len() - i,
        {
            out.push(edges[i].head);
            i += 1;
        }
        assert(edge_views(edges@).take(edges@.len() as int) =~= edge_views(edges@));
        Ok(out)
    }

    /// Whether `self` and `other` are the same graph (see `same_graph`).
    pub fn equals(&self, other: &ControlFlowGraph) -> (r: bool)
        ensures
            r == same_graph(self@, other@),
    {
        if self.blocks.len() != other.blocks.len() || self.edges.len() != other.edges.len() {
            return false;
        }
        if self.entry != other.entry || self.exit != other.exit {
            return false;
        }
        let mut i: usize = 0;
        while i < self.blocks.len()
            invariant
                0 <= i <= self.blocks@.len(),
                forall|j: int| 0 <= j < i ==> #[trigger] other@.blocks.contains(self@.blocks[j]),
            decreases self.blocks@.len() - i,
        {
            let mut found = false;
            let mut k: usize = 0;
            while k < other.blocks.len() && !found
                invariant
                    0 <= k <= other.blocks@.len(),
                    0 <= i < self.blocks@.len(),
                    found ==> other@.blocks.contains(self@.blocks[i as int]),
                    !found ==> forall|m: int| 0 <= m < k ==> other@.blocks[m] != self@.blocks[i as int],
                decreases other.blocks@.len() - k,
            {
                if other.blocks[k].equals(&self.blocks[i]) {
                    assert(other@.blocks[k as int] == self@.blocks[i as int]);
                    found = true;
                }
                k += 1;
            }
            if !found {
                assert(!other@.blocks.contains(self@.blocks[i as int]));
                return false;
            }
            i += 1;
        }
        let mut i: usize = 0;
        while i < self.edges.len()
            invariant
                0 <= i <= self.edges@.len(),
                forall|j: int| 0 <= j < self.blocks@.len() ==> #[trigger] other@.blocks.contains(self@.blocks[j]),
                forall|j: int| 0 <= j < i ==> #[trigger] other@.edges.contains(self@.edges[j]),
            decreases self.edges@.len() - i,
        {
            let mut found = false;
            let mut k: usize = 0;
            while k < other.edges.len() && !found
                invariant
                    0 <= k <= other.edges@.len(),
                    0 <= i < self.edges@.len(),
                    found ==> other@.edges.contains(self@.edges[i as int]),
                    !found ==> forall|m: int| 0 <= m < k ==> other@.edges[m] != self@.edges[i as int],
                decreases other.edges@.len() - k,
            {
                if other.edges[k].equals(&self.edges[i]) {
                    assert(other@.edges[k as int] == self@.edges[i as int]);
                    found = true;
                }
                k += 1;
            }
            if !found {
                assert(!other@.edges.contains(self@.edges[i as int]));
                return false;
            }
            i += 1;
        }
        true
    }

    /// The position of `x` in `nodes`, if any.
    fn position_in(nodes: &[usize], x: usize) -> (r: Option<usize>)
        requires
            distinct_indices(nodes@),
        ensures
            r is None <==> !nodes@.contains(x),
            r matches Some(k) ==> k < nodes@.len() && nodes@[k as int] == x && nodes@.index_of(x) == k,
    {
        let mut k: usize = 0;
        while k < nodes.len()
            invariant
                0 <= k <= nodes@.len(),
                distinct_indices(nodes@),
                forall|j: int| 0 <= j < k ==> nodes@[j] != x,
            decreases nodes@.len() - k,
        {
            if nodes[k] == x {
                proof {
                    assert(nodes@.contains(x));
                    let i = nodes@.index_of(x);
                    assert(nodes@[i] == x);
                    if i != k {
                        if i < k {
                        } else {
                            assert(nodes@[k as int] != nodes@[i]);
                        }
                    }
                }
                return Some(k);
            }
            k += 1;
        }
        None
    }

    /// Adds copies of the blocks `nodes` and of the edges that leave them (to the copies of
    /// their tails where those are among `nodes`); the copy of `nodes[k]` gets index
    /// `next_index + k`. Returns the indices of the copies. Fails if a node is no block (with
    /// the first such) or the indices run out.
    pub fn duplicate_blocks(&mut self, nodes: &[usize]) -> (r: Result<Vec<usize>, Error>)
        requires
            old(self).wf(),
            distinct_indices(nodes@),
        ensures
            final(self).wf(),
            r is Ok <==> (forall|k: int| 0 <= k < nodes@.len() ==> old(self)@.has_block(#[trigger] nodes@[k]))
                && old(self).next_index + nodes@.len() <= usize::MAX,
            r is Ok ==> r.unwrap()@ == Seq::new(nodes@.len(), |k: int| (old(self).next_index + k) as usize)
                && final(self)@ == old(self)@.duplicate(nodes@),
            r is Err ==> final(self)@ == old(self)@,
            forall|k: int|
                0 <= k < nodes@.len() && !old(self)@.has_block(#[trigger] nodes@[k]) && (forall|j: int|
                    0 <= j < k ==> old(self)@.has_block(#[trigger] nodes@[j])) ==> r == Err::<Vec<usize>, Error>(
                    Error::BlockNotFound(nodes@[k]),
                ),
            (forall|k: int| 0 <= k < nodes@.len() ==> old(self)@.has_block(#[trigger] nodes@[k])) && old(self).next_index
                + nodes@.len() > usize::MAX ==> r == Err::<Vec<usize>, Error>(Error::IndexOverflow),
            (match old(self)@.duplicate_result(nodes@) {
                Ok(g2) => r is Ok && final(self)@ == g2 && final(self).next_index == old(self).next_index + nodes@.len(),
                Err(e) => r == Err::<Vec<usize>, Error>(e),
            }),
    {
        let ghost g = self@;
        let mut positions: Vec<usize> = Vec::new();
        let mut k: usize = 0;
        while k < nodes.len()
            invariant
                0 <= k <= nodes@.len(),
                self.wf(),
                self@ == g,
                positions@.len() == k,
                forall|j: int| 0 <= j < k ==> g.has_block(#[trigger] nodes@[j]),
                forall|j: int| 0 <= j < k ==> #[trigger] positions@[j] == g.block_pos(nodes@[j]) && positions@[j] < g.blocks.len(),
            decreases nodes@.len() - k,
        {
            match self.block_position(nodes[k]) {
                Some(p) => {
                    positions.push(p);
                },
                None => {
                    proof {
                        let k0 = choose|k0: int|
                            0 <= k0 < nodes@.len() && !g.has_block(#[trigger] nodes@[k0]) && forall|j: int|
                                0 <= j < k0 ==> g.has_block(#[trigger] nodes@[j]);
                        if k0 < k {
                        } else if k0 > k {
                            assert(g.has_block(nodes@[k as int]) == false);
                        }
                    }
                    return Err(Error::BlockNotFound(nodes[k]));
                },
            }
            k += 1;
        }
        if self.next_index > usize::MAX - nodes.len() {
            return Err(Error::IndexOverflow);
        }
        let s = self.next_index;
        let n = nodes.len();
        let mut new_indices: Vec<usize> = Vec::new();
        let mut k: usize = 0;
        while k < n
            invariant
                0 <= k <= n,
                n == nodes@.len(),
                s == g.next_index,
                s + n <= usize::MAX,
                self.edges == old(self).edges,
                self.entry == g.entry && self.exit == g.exit && self.next_index == s,
                self@.edges == g.edges,
                forall|j: int| 0 <= j < n ==> g.has_block(#[trigger] nodes@[j]),
                forall|j: int| 0 <= j < n ==> #[trigger] positions@[j] == g.block_pos(nodes@[j]) && positions@[j] < g.blocks.len(),
                positions@.len() == n,
                g.wf(),
                self@.blocks == g.blocks + Seq::new(k as nat, |j: int| BlockView { index: (s + j) as usize, ..g.block(nodes@[j]) }),
                self.blocks@.len() == g.blocks.len() + k,
                new_indices@ == Seq::new(k as nat, |j: int| (s + j) as usize),
            decreases n - k,
        {
            let p = positions[k];
            let cl = self.blocks[p].clone();
            let copy = Block { index: s + k, phi_nodes: cl.phi_nodes, instructions: cl.instructions, transient: cl.transient };
            let ghost before = self@.blocks;
            proof {
                assert(self.blocks@[p as int]@ == before[p as int]);
                assert(before[p as int] == g.blocks[p as int]);
                assert(copy@ == BlockView { index: (s + k) as usize, ..g.block(nodes@[k as int]) });
            }
            let ghost cv = copy@;
            let ghost before_vec = self.blocks@;
            self.blocks.push(copy);
            new_indices.push(s + k);
            proof {
                assert forall|j: int| 0 <= j < before.len() implies self@.blocks[j] == before[j] by {
                    assert(self.blocks@[j] == before_vec[j]);
                }
                assert(self@.blocks[before.len() as int] == cv);
                assert(self@.blocks =~= before.push(cv));
                assert(self@.blocks =~= g.blocks + Seq::new((k + 1) as nat, |j: int| BlockView { index: (s + j) as usize, ..g.block(nodes@[j]) }));
                assert(new_indices@ =~= Seq::new((k + 1) as nat, |j: int| (s + j) as usize));
            }
            k += 1;
        }
        let ghost g2blocks = self@.blocks;
        proof {
            assert(self.edges@.len() == g.edges.len());
            assert forall|j: int| 0 <= j < g.edges.len() implies (#[trigger] self.edges@[j])@ == g.edges[j] by {
                assert(self@.edges[j] == g.edges[j]);
            }
        }
        let m = self.edges.len();
        let mut i: usize = 0;
        while i < m
            invariant
                0 <= i <= m,
                m == g.edges.len(),
                n == nodes@.len(),
                s == g.next_index,
                s + n <= usize::MAX,
                distinct_indices(nodes@),
                self@.blocks == g2blocks,
                self.entry == g.entry && self.exit == g.exit && self.next_index == s,
                self@.edges == g.edges + g.edges.take(i as int).filter(GraphView::leaves_one_of(nodes@)).map_values(
                    GraphView::copied_edge(nodes@, s),
                ),
                self.edges@.len() >= m,
                forall|j: int| 0 <= j < m ==> (#[trigger] self.edges@[j])@ == g.edges[j],
            decreases m - i,
        {
            proof {
                reveal(Seq::filter);
                assert(g.edges.take(i + 1).drop_last() =~= g.edges.take(i as int));
                assert(self.edges@[i as int]@ == g.edges[i as int]);
            }
            let e = &self.edges[i];
            match Self::position_in(nodes, e.head) {
                Some(hk) => {
                    let tail = match Self::position_in(nodes, e.tail) {
                        Some(tk) => s + tk,
                        None => e.tail,
                    };
                    let copy = Edge {
                        head: s + hk,
                        tail,
                        condition: match &e.condition {
                            Some(c) => Some(c.clone()),
                            None => None,
                        },
                        labels: e.labels,
                    };
                    let ghost before = self@.edges;
                    let ghost before_vec = self.edges@;
                    let ghost cv = copy@;
                    self.edges.push(copy);
                    proof {
                        assert(cv == GraphView::copied_edge(nodes@, s)(g.edges[i as int]));
                        assert forall|j: int| 0 <= j < m implies (#[trigger] self.edges@[j])@ == g.edges[j] by {
                            assert(self.edges@[j] == before_vec[j]);
                        }
                        assert(self@.edges =~= before.push(cv));
                        assert(g.edges.take(i + 1).filter(GraphView::leaves_one_of(nodes@)) =~= g.edges.take(i as int).filter(
                            GraphView::leaves_one_of(nodes@),
                        ).push(g.edges[i as int]));
                        assert(self@.edges =~= g.edges + g.edges.take(i + 1).filter(GraphView::leaves_one_of(nodes@)).map_values(
                            GraphView::copied_edge(nodes@, s),
                        ));
                    }
                },
                None => {},
            }
            i += 1;
        }
        self.next_index = s + n;
        proof {
            assert(g.edges.take(m as int) =~= g.edges);
            assert(self@.blocks =~= g.duplicate(nodes@).blocks);
            assert(self@.edges =~= g.duplicate(nodes@).edges);
            g.lemma_duplicate_wf(nodes@);
        }
        Ok(new_indices)
    }


    /// Moves the edge from `h` to `t` to go from `nh` to `nt`, keeping its condition and
    /// labels. Fails if there is no such edge, if `nh` or `nt` is no block, or if another edge
    /// from `nh` to `nt` exists.
    pub fn rewire_edge(&mut self, h: usize, t: usize, nh: usize, nt: usize) -> (r: Result<(), Error>)
        requires
            old(self).wf(),
        ensures
            final(self).wf(),
            forall|x: usize| #[trigger] final(self)@.has_block(x) == old(self)@.has_block(x),
            r is Ok <==> old(self)@.has_edge(h, t) && old(self)@.has_block(nh) && old(self)@.has_block(nt) && ((nh == h
                && nt == t) || !old(self)@.has_edge(nh, nt)),
            r is Ok ==> final(self)@ == old(self)@.rewired(h, t, nh, nt),
            r is Err ==> final(self)@ == old(self)@,
            !old(self)@.has_edge(h, t) ==> r == Err::<(), Error>(Error::EdgeNotFound { head: h, tail: t }),
            old(self)@.has_edge(h, t) && !old(self)@.has_block(nh) ==> r == Err::<(), Error>(Error::BlockNotFound(nh)),
            old(self)@.has_edge(h, t) && old(self)@.has_block(nh) && !old(self)@.has_block(nt) ==> r == Err::<(), Error>(
                Error::BlockNotFound(nt),
            ),
            old(self)@.has_edge(h, t) && old(self)@.has_block(nh) && old(self)@.has_block(nt) && !(nh == h && nt == t)
                && old(self)@.has_edge(nh, nt) ==> r == Err::<(), Error>(Error::EdgeExists { head: nh, tail: nt }),
    {
        let p = match self.edge_position(h, t) {
            Some(p) => p,
            None => {
                return Err(Error::EdgeNotFound { head: h, tail: t });
            },
        };
        if !self.has_block(nh) {
            return Err(Error::BlockNotFound(nh));
        }
        if !self.has_block(nt) {
            return Err(Error::BlockNotFound(nt));
        }
        if !(nh == h && nt == t) && self.edge_position(nh, nt).is_some() {
            return Err(Error::EdgeExists { head: nh, tail: nt });
        }
        let ghost g = self@;
        let mut e = self.edges.remove(p);
        e.head = nh;
        e.tail = nt;
        let ghost ev = e@;
        self.edges.insert(p, e);
        proof {
            assert(self@.edges =~= g.edges.update(p as int, ev));
            assert(self@ == g.rewired(h, t, nh, nt));
            assert(self@.distinct_edges()) by {
                assert forall|a: int, b: int|
                    0 <= a < self@.edges.len() && 0 <= b < self@.edges.len() && a != b implies !((#[trigger] self@.edges[a]).head
                    == (#[trigger] self@.edges[b]).head && self@.edges[a].tail == self@.edges[b].tail) by {
                    if a == p && self@.edges[b].head == nh && self@.edges[b].tail == nt {
                        assert(g.edges[b].head == nh && g.edges[b].tail == nt);
                        if nh == h && nt == t {
                        }
                    }
                    if b == p && self@.edges[a].head == nh && self@.edges[a].tail == nt {
                        assert(g.edges[a].head == nh && g.edges[a].tail == nt);
                    }
                }
            }
            g.lemma_wf_same_blocks(self@);
        }
        Ok(())
    }

    /// Adds the blocks and edges of `other`: the block at position `p` of `other` gets index
    /// `next_index + p`. Returns, for each block of `other`, its index there and here. Fails if
    /// the indices run out.
    pub fn insert(&mut self, other: &ControlFlowGraph) -> (r: Result<Vec<(usize, usize)>, Error>)
        requires
            old(self).wf(),
            other.wf(),
        ensures
            final(self).wf(),
            r is Ok <==> old(self).next_index + other@.blocks.len() <= usize::MAX,
            r is Ok ==> final(self)@ == old(self)@.embed(other@) && r.unwrap()@ == Seq::new(
                other@.blocks.len(),
                |p: int| (other@.blocks[p].index, (old(self).next_index + p) as usize),
            ),
            r is Err ==> final(self)@ == old(self)@ && r == Err::<Vec<(usize, usize)>, Error>(Error::IndexOverflow),
    {
        let ghost g = self@;
        let ghost h = other@;
        let n = other.blocks.len();
        if self.next_index > usize::MAX - n {
            return Err(Error::IndexOverflow);
        }
        let s = self.next_index;
        let mut map: Vec<(usize, usize)> = Vec::new();
        let mut p: usize = 0;
        while p < n
            invariant
                0 <= p <= n,
                n == h.blocks.len(),
                h == other@,
                s == g.next_index,
                s + n <= usize::MAX,
                self@.edges == g.edges,
                self.entry == g.entry && self.exit == g.exit && self.next_index == s,
                self@.blocks == g.blocks + Seq::new(p as nat, |q: int| BlockView { index: (s + q) as usize, ..h.blocks[q] }),
                map@ == Seq::new(p as nat, |q: int| (h.blocks[q].index, (s + q) as usize)),
            decreases n - p,
        {
            let cl = other.blocks[p].clone();
            proof {
                assert(other.blocks@[p as int]@ == h.blocks[p as int]);
                assert(cl@ == h.blocks[p as int]);
            }
            let index = cl.index;
            let copy = Block { index: s + p, phi_nodes: cl.phi_nodes, instructions: cl.instructions, transient: cl.transient };
            let ghost cv = copy@;
            let ghost before = self@.blocks;
            let ghost before_vec = self.blocks@;
            self.blocks.push(copy);
            map.push((index, s + p));
            proof {
                assert forall|j: int| 0 <= j < before.len() implies self@.blocks[j] == before[j] by {
                    assert(self.blocks@[j] == before_vec[j]);
                }
                assert(self@.blocks[before.len() as int] == cv);
                assert(self@.blocks =~= before.push(cv));
                assert(cl@ == h.blocks[p as int]);
                assert(cv == BlockView { index: (s + p) as usize, ..h.blocks[p as int] });
                assert(self@.blocks =~= g.blocks + Seq::new((p + 1) as nat, |q: int| BlockView { index: (s + q) as usize, ..h.blocks[q] }));
                assert(map@ =~= Seq::new((p + 1) as nat, |q: int| (h.blocks[q].index, (s + q) as usize)));
            }
            p += 1;
        }
        let m = other.edges.len();
        let mut i: usize = 0;
        while i < m
            invariant
                0 <= i <= m,
                m == h.edges.len(),
                h == other@,
                other.wf(),
                s == g.next_index,
                s + n <= usize::MAX,
                n == h.blocks.len(),
                self@.blocks == g.blocks + Seq::new(n as nat, |q: int| BlockView { index: (s + q) as usize, ..h.blocks[q] }),
                self.entry == g.entry && self.exit == g.exit && self.next_index == s,
                self@.edges == g.edges + h.edges.take(i as int).map_values(GraphView::embedded_edge(s, h)),
            decreases m - i,
        {
            let e = &other.edges[i];
            proof {
                assert(e@ == h.edges[i as int]);
                assert(h.has_block(e.head) && h.has_block(e.tail));
            }
            let hp = match other.block_position(e.head) {
                Some(q) => q,
                None => {
                    proof {
                        assert(false);
                    }
                    return Err(Error::IndexOverflow);
                },
            };
            let tp = match other.block_position(e.tail) {
                Some(q) => q,
                None => {
                    proof {
                        assert(false);
                    }
                    return Err(Error::IndexOverflow);
                },
            };
            let copy = Edge {
                head: s + hp,
                tail: s + tp,
                condition: match &e.condition {
                    Some(c) => Some(c.clone()),
                    None => None,
                },
                labels: e.labels,
            };
            let ghost cv = copy@;
            let ghost before = self@.edges;
            let ghost before_vec = self.edges@;
            self.edges.push(copy);
            proof {
                assert(cv == GraphView::embedded_edge(s, h)(h.edges[i as int]));
                assert forall|j: int| 0 <= j < before.len() implies self@.edges[j] == before[j] by {
                    assert(self.edges@[j] == before_vec[j]);
                }
                assert(self@.edges[before.len() as int] == cv);
                assert(self@.edges =~= before.push(cv));
                assert(h.edges.take(i + 1).map_values(GraphView::embedded_edge(s, h)) =~= h.edges.take(i as int).map_values(
                    GraphView::embedded_edge(s, h),
                ).push(cv));
                assert(self@.edges =~= g.edges + h.edges.take(i + 1).map_values(GraphView::embedded_edge(s, h)));
            }
            i += 1;
        }
        self.next_index = s + n;
        proof {
            assert(h.edges.take(m as int) =~= h.edges);
            assert(self@ =~= g.embed(h)) by {
                assert(self@.blocks =~= g.embed(h).blocks);
                assert(self@.edges =~= g.embed(h).edges);
            }
            g.lemma_embed_wf(h);
        }
        Ok(map)
    }
}

impl Clone for ControlFlowGraph {
    fn clone(&self) -> (r: Self)
        ensures
            r@ == self@,
    {
        let mut blocks: Vec<Block> = Vec::new();
        let mut i: usize = 0;
        while i < self.blocks.len()
            invariant
                0 <= i <= self.blocks@.len(),
                blocks@.len() == i,
                forall|j: int| 0 <= j < i ==> (#[trigger] blocks@[j])@ == self.blocks@[j]@,
            decreases self.blocks@.len() - i,
        {
            blocks.push(self.blocks[i].clone());
            i += 1;
        }
        let mut edges: Vec<Edge> = Vec::new();
        let mut i: usize = 0;
        while i < self.edges.len()
            invariant
                0 <= i <= self.edges@.len(),
                edges@.len() == i,
                forall|j: int| 0 <= j < i ==> (#[trigger] edges@[j])@ == self.edges@[j]@,
            decreases self.edges@.len() - i,
        {
            edges.push(self.edges[i].clone());
            i += 1;
        }
        let r = ControlFlowGraph { blocks, edges, entry: self.entry, exit: self.exit, next_index: self.next_index };
        assert(r@.blocks =~= self@.blocks);
        assert(r@.edges =~= self@.edges);
        r
    }
}

impl PartialEq for ControlFlowGraph {
    fn eq(&self, other: &Self) -> (r: bool) {
        self.equals(other)
    }
}

impl vstd::std_specs::cmp::PartialEqSpecImpl for ControlFlowGraph {
    open spec fn obeys_eq_spec() -> bool {
        true
    }

    open spec fn eq_spec(&self, other: &Self) -> bool {
        same_graph(self@, other@)
    }
}

} // verus!
