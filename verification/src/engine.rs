use vstd::prelude::*;
use crate::arrays::DenseArray;
use crate::arrays::arr_elems;
use crate::arrays::arr_shape;
use crate::ops::Op;
use crate::ops::es_of;
use crate::ops::op_forward;
use crate::ops::op_forward_spec;
use crate::ops::op_backward;
use crate::ops::op_backward_spec;
use crate::tensor::Tensor;
use crate::tensor::all_fit;
use crate::tensor::checked_add;
use crate::tensor::ones_seq;
use crate::tensor::seq_add;
use crate::tensor::to_ints;

verus! {

/// A graph vertex: the tensor value, the accumulated gradient (absent means
/// "never accumulated"), the depth counter, and the edge that produced the
/// vertex (absent for leaves).
pub struct VariableInternal {
    pub data: Tensor,
    pub grad: Option<Tensor>,
    pub generation: usize,
    pub creator: Option<usize>,
}

impl VariableInternal {
    /// A fresh leaf record: no gradient, no creator, generation 0.
    pub fn new(data: Tensor) -> (n: VariableInternal)
        ensures
            n.data == data,
            n.grad is None,
            n.generation == 0,
            n.creator is None,
    {
        VariableInternal { data, grad: None, generation: 0, creator: None }
    }
}

/// A call record: the operation applied, the vertices it consumed, the vertex
/// it produced, and the generation assigned at creation time.
pub struct Edge {
    pub inputs: Vec<usize>,
    pub outputs: Vec<usize>,
    pub generation: usize,
    pub op: Op,
}

/// The computation graph: an arena of vertices and call records. Handles are
/// indices into the arena, so a vertex stays alive as long as the graph does,
/// and the append-only index order — an edge's inputs always precede its
/// output — keeps the structure a directed acyclic graph by construction.
pub struct Graph {
    pub nodes: Vec<VariableInternal>,
    pub edges: Vec<Edge>,
}

/// Largest entry of a sequence of generations; 0 for the empty sequence.
pub open spec fn max_generation(gens: Seq<nat>) -> nat
    decreases gens.len(),
{
    if gens.len() == 0 {
        0
    } else {
        let rest = max_generation(gens.drop_last());
        if gens.last() >= rest {
            gens.last()
        } else {
            rest
        }
    }
}

proof fn lemma_max_generation_push(s: Seq<nat>, x: nat)
    ensures
        max_generation(s.push(x)) == if x >= max_generation(s) {
            x
        } else {
            max_generation(s)
        },
{
    assert(s.push(x).drop_last() =~= s);
    assert(s.push(x).last() == x);
}

/// The node indices a sequence of handles points at.
pub open spec fn ids_of(vs: Seq<Variable>) -> Seq<usize> {
    vs.map_values(|v: Variable| v.id)
}

/// The generations of the given nodes.
pub open spec fn gens_of(g: Graph, ids: Seq<usize>) -> Seq<nat> {
    ids.map_values(|i: usize| g.nodes@[i as int].generation as nat)
}

/// The element sequences of the given nodes' data.
pub open spec fn datas_es(g: Graph, ids: Seq<usize>) -> Seq<Seq<int>> {
    ids.map_values(|i: usize| g.nodes@[i as int].data.es())
}

/// Well-formedness of node `i`: tensors obey the shape invariant, a present
/// gradient has the data's shape, a leaf has generation 0, a derived node
/// points back at the edge that produced it, and the generation never exceeds
/// the node's position in the creation order.
pub open spec fn node_wf(g: Graph, i: int) -> bool {
    let n = g.nodes@[i];
    &&& n.data.wf()
    &&& n.generation <= i
    &&& match n.grad {
        Some(t) => t.wf() && t.sh() == n.data.sh() && t.es().len() == n.data.es().len(),
        None => true,
    }
    &&& match n.creator {
        Some(c) => c < g.edges@.len() && g.edges@[c as int].outputs@[0] == i,
        None => n.generation == 0,
    }
}

/// Well-formedness of edge `k`: arities match, the inputs precede the output
/// in creation order, the edge's generation is the largest input generation,
/// the output's generation is one more, the output points back at this edge,
/// and all tensors wired by the edge share one shape.
pub open spec fn edge_wf(g: Graph, k: int) -> bool {
    let e = g.edges@[k];
    let out = e.outputs@[0] as int;
    &&& e.inputs@.len() == e.op.arity()
    &&& e.outputs@.len() == 1
    &&& out < g.nodes@.len()
    &&& forall|j: int| 0 <= j < e.inputs@.len() ==> (#[trigger] e.inputs@[j]) < e.outputs@[0]
    &&& e.generation == max_generation(gens_of(g, e.inputs@))
    &&& g.nodes@[out].generation == e.generation + 1
    &&& g.nodes@[out].creator == Some(k as usize)
    &&& forall|j: int|
        0 <= j < e.inputs@.len() ==> (#[trigger] g.nodes@[e.inputs@[j] as int]).data.sh()
            == g.nodes@[out].data.sh()
    &&& forall|j: int|
        0 <= j < e.inputs@.len() ==> (#[trigger] g.nodes@[e.inputs@[j] as int]).data.es().len()
            == g.nodes@[out].data.es().len()
}

impl Graph {
    /// Graph invariant: every node and every edge is well formed.
    pub open spec fn wf(&self) -> bool {
        &&& forall|i: int| 0 <= i < self.nodes@.len() ==> node_wf(*self, i)
        &&& forall|k: int| 0 <= k < self.edges@.len() ==> edge_wf(*self, k)
    }

    /// An empty graph.
    pub fn new() -> (g: Graph)
        ensures
            g.wf(),
            g.nodes@.len() == 0,
            g.edges@.len() == 0,
    {
        Graph { nodes: Vec::new(), edges: Vec::new() }
    }
}

/// Two node records that agree on everything except possibly the gradient.
pub open spec fn same_but_grad(a: VariableInternal, b: VariableInternal) -> bool {
    &&& a.data == b.data
    &&& a.generation == b.generation
    &&& a.creator == b.creator
}

/// Rewriting gradients (with the right shapes) preserves well-formedness.
proof fn lemma_wf_grads_changed(g1: Graph, g2: Graph)
    requires
        g1.wf(),
        g2.nodes@.len() == g1.nodes@.len(),
        g2.edges@ == g1.edges@,
        forall|i: int|
            0 <= i < g1.nodes@.len() ==> same_but_grad(g1.nodes@[i], #[trigger] g2.nodes@[i]),
        forall|i: int|
            0 <= i < g2.nodes@.len() ==> match (#[trigger] g2.nodes@[i]).grad {
                Some(t) => t.wf() && t.sh() == g2.nodes@[i].data.sh() && t.es().len()
                    == g2.nodes@[i].data.es().len(),
                None => true,
            },
    ensures
        g2.wf(),
{
    assert forall|i: int| 0 <= i < g2.nodes@.len() implies node_wf(g2, i) by {
        assert(node_wf(g1, i));
        assert(same_but_grad(g1.nodes@[i], g2.nodes@[i]));
    }
    assert forall|k: int| 0 <= k < g2.edges@.len() implies edge_wf(g2, k) by {
        assert(edge_wf(g1, k));
        let e = g2.edges@[k];
        assert(e == g1.edges@[k]);
        assert forall|j: int| 0 <= j < e.inputs@.len() implies (
        #[trigger] g2.nodes@[e.inputs@[j] as int]).data == g1.nodes@[e.inputs@[j] as int].data by {
            assert(e.inputs@[j] < e.outputs@[0]);
            assert(same_but_grad(g1.nodes@[e.inputs@[j] as int], g2.nodes@[e.inputs@[j] as int]));
        }
        assert(gens_of(g2, e.inputs@) =~= gens_of(g1, e.inputs@));
        assert(same_but_grad(g1.nodes@[e.outputs@[0] as int], g2.nodes@[e.outputs@[0] as int]));
    }
}

/// Vertex `j` is a proper ancestor of vertex `i`: an input of the edge that
/// produced `i`, or an ancestor of such an input. The index guard on the
/// recursion keeps the definition total; in a well-formed graph inputs
/// precede their output, so the guard never excludes anything.
pub open spec fn is_ancestor(go: Graph, i: int, j: int) -> bool
    decreases i,
{
    &&& 0 <= i < go.nodes@.len()
    &&& match go.nodes@[i].creator {
        Some(c) => (c as int) < go.edges@.len() && exists|m: int|
            0 <= m < go.edges@[c as int].inputs@.len() && ((#[trigger] go.edges@[c
                as int].inputs@[m]) as int == j || (0 <= go.edges@[c as int].inputs@[m] < i
                && is_ancestor(go, go.edges@[c as int].inputs@[m] as int, j))),
        None => false,
    }
}

/// Every input of the edge that produced `i` is an ancestor of `i`.
proof fn lemma_ancestor_step(go: Graph, i: int, c: usize, m: int)
    requires
        go.wf(),
        0 <= i < go.nodes@.len(),
        go.nodes@[i].creator == Some(c),
        0 <= m < go.edges@[c as int].inputs@.len(),
    ensures
        is_ancestor(go, i, go.edges@[c as int].inputs@[m] as int),
{
    assert(node_wf(go, i));
    let j = go.edges@[c as int].inputs@[m] as int;
    assert(0 <= m < go.edges@[c as int].inputs@.len() && (go.edges@[c as int].inputs@[m] as int
        == j || (0 <= go.edges@[c as int].inputs@[m] < i && is_ancestor(
        go,
        go.edges@[c as int].inputs@[m] as int,
        j,
    ))));
}

/// Ancestry is transitive in a well-formed graph.
proof fn lemma_ancestor_trans(go: Graph, i: int, j: int, k: int)
    requires
        go.wf(),
        is_ancestor(go, i, j),
        is_ancestor(go, j, k),
    ensures
        is_ancestor(go, i, k),
    decreases i,
{
    match go.nodes@[i].creator {
        Some(c) => {
            assert(node_wf(go, i));
            assert(edge_wf(go, c as int));
            let m = choose|m: int|
                0 <= m < go.edges@[c as int].inputs@.len() && ((#[trigger] go.edges@[c
                    as int].inputs@[m]) as int == j || (0 <= go.edges@[c as int].inputs@[m] < i
                    && is_ancestor(go, go.edges@[c as int].inputs@[m] as int, j)));
            let inp = go.edges@[c as int].inputs@[m] as int;
            assert(go.edges@[c as int].inputs@[m] < go.edges@[c as int].outputs@[0]);
            assert(go.edges@[c as int].outputs@[0] == i);
            assert(0 <= inp < i);
            if inp == j {
                assert(0 <= m < go.edges@[c as int].inputs@.len() && (go.edges@[c
                    as int].inputs@[m] as int == k || (0 <= go.edges@[c as int].inputs@[m] < i
                    && is_ancestor(go, inp, k))));
            } else {
                assert(is_ancestor(go, inp, j));
                lemma_ancestor_trans(go, inp, j, k);
                assert(0 <= m < go.edges@[c as int].inputs@.len() && (go.edges@[c
                    as int].inputs@[m] as int == k || (0 <= go.edges@[c as int].inputs@[m] < i
                    && is_ancestor(go, inp, k))));
            }
        },
        None => {
            assert(false);
        },
    }
}

/// Replacing node data by tensors of the same shape preserves
/// well-formedness.
proof fn lemma_wf_data_changed(g1: Graph, g2: Graph)
    requires
        g1.wf(),
        g2.nodes@.len() == g1.nodes@.len(),
        g2.edges@ == g1.edges@,
        forall|i: int|
            0 <= i < g1.nodes@.len() ==> {
                let a = g1.nodes@[i];
                let b = #[trigger] g2.nodes@[i];
                b.generation == a.generation && b.creator == a.creator && b.grad == a.grad
                    && b.data.wf() && b.data.sh() == a.data.sh() && b.data.es().len()
                    == a.data.es().len()
            },
    ensures
        g2.wf(),
{
    assert forall|i: int| 0 <= i < g2.nodes@.len() implies node_wf(g2, i) by {
        assert(node_wf(g1, i));
    }
    assert forall|k: int| 0 <= k < g2.edges@.len() implies edge_wf(g2, k) by {
        assert(edge_wf(g1, k));
        let e = g2.edges@[k];
        assert(e == g1.edges@[k]);
        assert forall|j: int| 0 <= j < e.inputs@.len() implies 0 <= (#[trigger] e.inputs@[j])
            < g1.nodes@.len() by {
            assert(e.inputs@[j] < e.outputs@[0]);
        }
        assert(gens_of(g2, e.inputs@) =~= gens_of(g1, e.inputs@));
    }
}

/// A caller's handle to a graph vertex.
#[derive(Clone, Copy)]
pub struct Variable {
    pub id: usize,
}

impl Variable {
    /// The handle points into the graph.
    pub open spec fn valid(self, g: Graph) -> bool {
        self.id < g.nodes@.len()
    }

    /// Create a leaf vertex from a dense array and return its handle.
    pub fn new(g: &mut Graph, data: DenseArray) -> (v: Variable)
        requires
            old(g).wf(),
        ensures
            final(g).wf(),
            v.id == old(g).nodes@.len(),
            final(g).nodes@.len() == old(g).nodes@.len() + 1,
            final(g).edges@ == old(g).edges@,
            forall|i: int| 0 <= i < old(g).nodes@.len() ==> final(g).nodes@[i] == old(g).nodes@[i],
            final(g).nodes@[v.id as int].data.es() == to_ints(arr_elems(data)),
            final(g).nodes@[v.id as int].data.sh() == arr_shape(data),
            final(g).nodes@[v.id as int].grad is None,
            final(g).nodes@[v.id as int].generation == 0,
            final(g).nodes@[v.id as int].creator is None,
    {
        let shape = data.shape_vec();
        let elems = data.elems_vec();
        let t = Tensor { shape, elems };
        Variable::from_tensor(g, t)
    }

    /// Create a leaf vertex from a tensor and return its handle.
    pub fn from_tensor(g: &mut Graph, data: Tensor) -> (v: Variable)
        requires
            old(g).wf(),
            data.wf(),
        ensures
            final(g).wf(),
            v.id == old(g).nodes@.len(),
            final(g).nodes@.len() == old(g).nodes@.len() + 1,
            final(g).edges@ == old(g).edges@,
            forall|i: int| 0 <= i < old(g).nodes@.len() ==> final(g).nodes@[i] == old(g).nodes@[i],
            final(g).nodes@[v.id as int].data == data,
            final(g).nodes@[v.id as int].grad is None,
            final(g).nodes@[v.id as int].generation == 0,
            final(g).nodes@[v.id as int].creator is None,
    {
        let v = Variable { id: g.nodes.len() };
        g.nodes.push(VariableInternal::new(data));
        proof {
            assert forall|i: int| 0 <= i < g.nodes@.len() implies node_wf(*g, i) by {
                if i < old(g).nodes@.len() {
                    assert(node_wf(*old(g), i));
                    assert(g.nodes@[i] == old(g).nodes@[i]);
                }
            }
            assert forall|k: int| 0 <= k < g.edges@.len() implies edge_wf(*g, k) by {
                assert(edge_wf(*old(g), k));
                let e = g.edges@[k];
                assert forall|j: int| 0 <= j < e.inputs@.len() implies (
                #[trigger] g.nodes@[e.inputs@[j] as int]) == old(g).nodes@[e.inputs@[j] as int] by {
                    assert(e.inputs@[j] < e.outputs@[0]);
                }
                assert(gens_of(*g, e.inputs@) =~= gens_of(*old(g), e.inputs@));
            }
        }
        v
    }

    /// The vertex's data, as a dense array.
    pub fn data(&self, g: &Graph) -> (r: DenseArray)
        requires
            g.wf(),
            self.valid(*g),
        ensures
            arr_elems(r) == g.nodes@[self.id as int].data.elems@,
            arr_shape(r) == g.nodes@[self.id as int].data.shape@,
    {
        proof {
            assert(node_wf(*g, self.id as int));
        }
        let t = g.nodes[self.id].data.dup();
        DenseArray::from_parts(&t.shape, t.elems)
    }

    /// Replace the vertex's data in place. The new tensor must keep the
    /// shape, which every gradient and every wired edge shares.
    pub fn set_data(&self, g: &mut Graph, data: Tensor)
        requires
            old(g).wf(),
            self.valid(*old(g)),
            data.wf(),
            data.sh() == old(g).nodes@[self.id as int].data.sh(),
        ensures
            final(g).wf(),
            final(g).nodes@.len() == old(g).nodes@.len(),
            final(g).edges@ == old(g).edges@,
            final(g).nodes@[self.id as int].data == data,
            final(g).nodes@[self.id as int].grad == old(g).nodes@[self.id as int].grad,
            final(g).nodes@[self.id as int].generation == old(g).nodes@[self.id
                as int].generation,
            final(g).nodes@[self.id as int].creator == old(g).nodes@[self.id as int].creator,
            forall|i: int|
                0 <= i < old(g).nodes@.len() && i != self.id ==> final(g).nodes@[i] == old(
                    g,
                ).nodes@[i],
    {
        proof {
            assert(node_wf(*old(g), self.id as int));
        }
        g.nodes[self.id].data = data;
        proof {
            assert forall|i: int|
                0 <= i < old(g).nodes@.len() implies {
                let a = old(g).nodes@[i];
                let b = #[trigger] g.nodes@[i];
                b.generation == a.generation && b.creator == a.creator && b.grad == a.grad
                    && b.data.wf() && b.data.sh() == a.data.sh() && b.data.es().len()
                    == a.data.es().len()
            } by {
                assert(node_wf(*old(g), i));
            }
            lemma_wf_data_changed(*old(g), *g);
        }
    }

    /// The vertex's gradient, as a dense array, if one has been accumulated.
    pub fn grad(&self, g: &Graph) -> (r: Option<DenseArray>)
        requires
            g.wf(),
            self.valid(*g),
        ensures
            match r {
                Some(a) => g.nodes@[self.id as int].grad matches Some(t) && arr_elems(a)
                    == t.elems@ && arr_shape(a) == t.shape@,
                None => g.nodes@[self.id as int].grad is None,
            },
    {
        proof {
            assert(node_wf(*g, self.id as int));
        }
        match &g.nodes[self.id].grad {
            Some(t) => {
                let d = t.dup();
                Some(DenseArray::from_parts(&d.shape, d.elems))
            },
            None => None,
        }
    }

    /// The vertex's generation: its depth at the moment it was created.
    pub fn generation(&self, g: &Graph) -> (r: usize)
        requires
            self.valid(*g),
        ensures
            r == g.nodes@[self.id as int].generation,
    {
        g.nodes[self.id].generation
    }

    /// The number of elements of the vertex's data.
    pub fn len(&self, g: &Graph) -> (r: usize)
        requires
            self.valid(*g),
        ensures
            r == g.nodes@[self.id as int].data.es().len(),
    {
        g.nodes[self.id].data.elems.len()
    }

    /// Backward pass from this vertex. The vertex's gradient is first seeded
    /// to ones shaped like its data if absent (and that seed is retained).
    /// Edges are then processed from a worklist in non-increasing generation
    /// order, at most once each: the edge's output hands down its gradient
    /// (ones when none was accumulated), the operation's local derivative
    /// rule runs, and each contribution is accumulated — added, never
    /// overwritten — onto the edge's inputs, whose own producing edges join
    /// the worklist. Returns false, stopping early, exactly when a gradient
    /// entry overflows `i64`.
    #[verifier::loop_isolation(false)]
    pub fn backward(&self, g: &mut Graph) -> (ok: bool)
        requires
            old(g).wf(),
            self.valid(*old(g)),
        ensures
            final(g).wf(),
            final(g).edges@ == old(g).edges@,
            final(g).nodes@.len() == old(g).nodes@.len(),
            forall|i: int|
                0 <= i < old(g).nodes@.len() ==> same_but_grad(
                    old(g).nodes@[i],
                    #[trigger] final(g).nodes@[i],
                ),
            grad_es(final(g).nodes@[self.id as int]) == Some(
                gy_es_of(old(g).nodes@[self.id as int]),
            ),
            forall|i: int|
                self.id < i < old(g).nodes@.len() ==> grad_es(#[trigger] final(g).nodes@[i])
                    == grad_es(old(g).nodes@[i]),
            forall|i: int|
                0 <= i < old(g).nodes@.len() && old(g).nodes@[i].grad is Some ==> (
                #[trigger] final(g).nodes@[i]).grad is Some,
            forall|i: int|
                0 <= i < old(g).nodes@.len() && i != self.id && !is_ancestor(
                    *old(g),
                    self.id as int,
                    i,
                ) ==> grad_es(#[trigger] final(g).nodes@[i]) == grad_es(old(g).nodes@[i]),
            old(g).nodes@[self.id as int].creator is None ==> ok && (forall|i: int|
                0 <= i < old(g).nodes@.len() && i != self.id ==> grad_es(
                    #[trigger] final(g).nodes@[i],
                ) == grad_es(old(g).nodes@[i])),
            match old(g).nodes@[self.id as int].creator {
                Some(c) => leaf_inputs(*old(g), old(g).edges@[c as int]) ==> {
                    &&& ok == one_edge_fits(*old(g), old(g).edges@[c as int])
                    &&& ok ==> (forall|i: int|
                        0 <= i < old(g).nodes@.len() && i != self.id ==> grad_es(
                            #[trigger] final(g).nodes@[i],
                        ) == one_edge_grad(*old(g), old(g).edges@[c as int], i))
                },
                None => true,
            },
    {
        let start = self.id;
        let ghost go = *old(g);
        if g.nodes[start].grad.is_none() {
            proof {
                assert(node_wf(go, start as int));
            }
            let ones = g.nodes[start].data.ones_like();
            g.nodes[start].grad = Some(ones);
            proof {
                lemma_wf_set_grad(go, *g, start as int);
            }
        }
        proof {
            assert(grad_es(g.nodes@[start as int]) == Some(gy_es_of(go.nodes@[start as int])));
        }
        let cr0 = g.nodes[start].creator;
        let c: usize = match cr0 {
            Some(c) => c,
            None => {
                return true;
            },
        };
        proof {
            assert(node_wf(go, start as int));
        }
        let ghost scase = leaf_inputs(go, go.edges@[c as int]);
        let n_edges = g.edges.len();
        let mut seen: Vec<bool> = Vec::new();
        let mut si: usize = 0;
        while si < n_edges
            invariant
                si <= n_edges,
                seen@.len() == si,
                forall|m: int| 0 <= m < si ==> !(#[trigger] seen@[m]),
            decreases n_edges - si,
        {
            seen.push(false);
            si = si + 1;
        }
        proof {
            lemma_count_true_all_false(seen@);
            lemma_count_true_update(seen@, c as int);
        }
        seen[c] = true;
        let mut seen_count: usize = 1;
        let mut worklist: Vec<usize> = Vec::new();
        worklist.push(c);
        proof {
            assert(worklist@ =~= seq![c]);
            lemma_count_true_le(seen@);
            assert forall|e: int, j: int|
                0 <= e < seen@.len() && seen@[e] && 0 <= j
                    < go.edges@[e].inputs@.len() implies (#[trigger] go.edges@[e].inputs@[j])
                < start by {
                assert(e == c as int);
                assert(edge_wf(go, c as int));
                assert(go.edges@[c as int].inputs@[j] < go.edges@[c as int].outputs@[0]);
            }
            assert forall|e: int, j: int|
                0 <= e < seen@.len() && seen@[e] && 0 <= j
                    < go.edges@[e].inputs@.len() implies is_ancestor(
                go,
                start as int,
                (#[trigger] go.edges@[e].inputs@[j]) as int,
            ) by {
                assert(e == c as int);
                assert(go.nodes@[start as int].creator == Some(c));
                lemma_ancestor_step(go, start as int, c, j);
            }
        }
        while worklist.len() > 0
            invariant
                g.wf(),
                g.edges@ == go.edges@,
                g.nodes@.len() == go.nodes@.len(),
                (start as int) < go.nodes@.len(),
                go.nodes@[start as int].creator == Some(c),
                (c as int) < go.edges@.len(),
                go.edges@[c as int].outputs@[0] == start,
                scase == leaf_inputs(go, go.edges@[c as int]),
                forall|i: int|
                    0 <= i < go.nodes@.len() ==> same_but_grad(
                        go.nodes@[i],
                        #[trigger] g.nodes@[i],
                    ),
                grad_es(g.nodes@[start as int]) == Some(gy_es_of(go.nodes@[start as int])),
                forall|i: int|
                    start < i < go.nodes@.len() ==> grad_es(#[trigger] g.nodes@[i]) == grad_es(
                        go.nodes@[i],
                    ),
                forall|i: int|
                    0 <= i < go.nodes@.len() && go.nodes@[i].grad is Some ==> (
                    #[trigger] g.nodes@[i]).grad is Some,
                forall|i: int|
                    0 <= i < go.nodes@.len() && i != start && !is_ancestor(go, start as int, i)
                        ==> grad_es(#[trigger] g.nodes@[i]) == grad_es(go.nodes@[i]),
                seen@.len() == go.edges@.len(),
                seen_count as nat == count_true(seen@),
                seen_count <= go.edges@.len(),
                forall|m: int|
                    0 <= m < worklist@.len() ==> (#[trigger] worklist@[m]) < go.edges@.len()
                        && seen@[worklist@[m] as int],
                forall|e: int, j: int|
                    0 <= e < seen@.len() && seen@[e] && 0 <= j < go.edges@[e].inputs@.len() ==> (
                    #[trigger] go.edges@[e].inputs@[j]) < start,
                forall|e: int, j: int|
                    0 <= e < seen@.len() && seen@[e] && 0 <= j < go.edges@[e].inputs@.len()
                        ==> is_ancestor(
                        go,
                        start as int,
                        (#[trigger] go.edges@[e].inputs@[j]) as int,
                    ),
                scase ==> (worklist@ == seq![c] && (forall|i: int|
                    0 <= i < go.nodes@.len() && i != start ==> grad_es(#[trigger] g.nodes@[i])
                        == grad_es(go.nodes@[i]))) || (worklist@.len() == 0 && one_edge_fits(
                    go,
                    go.edges@[c as int],
                ) && (forall|i: int|
                    0 <= i < go.nodes@.len() && i != start ==> grad_es(#[trigger] g.nodes@[i])
                        == one_edge_grad(go, go.edges@[c as int], i))),
            decreases worklist@.len() + go.edges@.len() - seen_count,
        {
            let mut bi: usize = 0;
            let mut k: usize = 1;
            while k < worklist.len()
                invariant
                    worklist@.len() > 0,
                    bi < worklist@.len(),
                    k <= worklist@.len(),
                    g.edges@ == go.edges@,
                    forall|m: int|
                        0 <= m < worklist@.len() ==> (#[trigger] worklist@[m])
                            < go.edges@.len(),
                decreases worklist@.len() - k,
            {
                if g.edges[worklist[k]].generation > g.edges[worklist[bi]].generation {
                    bi = k;
                }
                k = k + 1;
            }
            let eid: usize = worklist.remove(bi);
            proof {
                assert(seen@[eid as int]);
                assert(edge_wf(*g, eid as int));
                if scase {
                    assert(eid == c);
                    assert(worklist@ =~= Seq::<usize>::empty());
                }
            }
            let eop: Op = g.edges[eid].op;
            let out: usize = g.edges[eid].outputs[0];
            let e_arity: usize = g.edges[eid].inputs.len();
            let mut e_inputs: Vec<usize> = Vec::new();
            let mut j: usize = 0;
            while j < e_arity
                invariant
                    g.edges@ == go.edges@,
                    (eid as int) < go.edges@.len(),
                    e_arity == go.edges@[eid as int].inputs@.len(),
                    j <= e_arity,
                    e_inputs@.len() == j,
                    forall|m: int|
                        0 <= m < j ==> (#[trigger] e_inputs@[m]) == go.edges@[eid
                            as int].inputs@[m],
                decreases e_arity - j,
            {
                let val: usize = g.edges[eid].inputs[j];
                e_inputs.push(val);
                j = j + 1;
            }
            proof {
                assert(e_inputs@ =~= go.edges@[eid as int].inputs@);
                assert(node_wf(*g, out as int));
            }
            let gy: Tensor = match &g.nodes[out].grad {
                Some(t) => t.dup(),
                None => g.nodes[out].data.ones_like(),
            };
            proof {
                assert(gy.es() == gy_es_of(g.nodes@[out as int]));
                assert(gy.shape@ == g.nodes@[out as int].data.shape@);
                assert(gy.es().len() == g.nodes@[out as int].data.es().len());
            }
            let mut xs: Vec<Tensor> = Vec::new();
            j = 0;
            while j < e_arity
                invariant
                    g.wf(),
                    g.edges@ == go.edges@,
                    g.nodes@.len() == go.nodes@.len(),
                    (eid as int) < go.edges@.len(),
                    edge_wf(*g, eid as int),
                    e_arity == go.edges@[eid as int].inputs@.len(),
                    e_inputs@ == go.edges@[eid as int].inputs@,
                    j <= e_arity,
                    xs@.len() == j,
                    forall|m: int|
                        0 <= m < j ==> (#[trigger] xs@[m]).es() == g.nodes@[e_inputs@[m]
                            as int].data.es() && xs@[m].shape@ == g.nodes@[e_inputs@[m]
                            as int].data.shape@ && xs@[m].elems@.len() == g.nodes@[e_inputs@[m]
                            as int].data.elems@.len(),
                decreases e_arity - j,
            {
                proof {
                    assert(go.edges@[eid as int].inputs@[j as int] < go.edges@[eid
                        as int].outputs@[0]);
                }
                let i: usize = e_inputs[j];
                let t = g.nodes[i].data.dup();
                xs.push(t);
                j = j + 1;
            }
            proof {
                assert(edge_wf(*g, eid as int));
                assert forall|m: int| 0 <= m < xs@.len() implies (#[trigger] xs@[m]).shape@
                    == gy.shape@ && xs@[m].es().len() == gy.es().len() by {
                    assert(go.edges@[eid as int].inputs@[m] < go.edges@[eid as int].outputs@[0]);
                    assert(node_wf(*g, e_inputs@[m] as int));
                    assert(g.nodes@[e_inputs@[m] as int].data.sh() == g.nodes@[out
                        as int].data.sh());
                    assert(g.nodes@[e_inputs@[m] as int].data.es().len() == g.nodes@[out
                        as int].data.es().len());
                }
                if scase {
                    assert(out == start);
                    assert(gy.es() == gy_es_of(go.nodes@[start as int]));
                    assert forall|m: int| 0 <= m < xs@.len() implies (#[trigger] es_of(xs@)[m])
                        == datas_es(go, go.edges@[c as int].inputs@)[m] by {
                        assert(same_but_grad(go.nodes@[e_inputs@[m] as int], g.nodes@[e_inputs@[m]
                            as int]));
                    }
                    assert(es_of(xs@) =~= datas_es(go, go.edges@[c as int].inputs@));
                }
            }
            let gxs: Vec<Tensor> = match op_backward(eop, &xs, &gy) {
                Some(v) => v,
                None => {
                    proof {
                        if scase {
                            assert(!crate::ops::backward_fits(
                                go.edges@[c as int].op,
                                datas_es(go, go.edges@[c as int].inputs@),
                                gy_es_of(go.nodes@[start as int]),
                            ));
                            assert(!one_edge_fits(go, go.edges@[c as int]));
                        }
                    }
                    return false;
                },
            };
            let ghost ge = go.edges@[eid as int];
            let ghost spec_gxs = op_backward_spec(ge.op, es_of(xs@), gy.es());
            let ghost measure0: int = worklist@.len() + go.edges@.len() - seen_count;
            j = 0;
            while j < e_arity
                invariant
                    g.wf(),
                    g.edges@ == go.edges@,
                    g.nodes@.len() == go.nodes@.len(),
                    (start as int) < go.nodes@.len(),
                    go.nodes@[start as int].creator == Some(c),
                    (c as int) < go.edges@.len(),
                    go.edges@[c as int].outputs@[0] == start,
                    scase == leaf_inputs(go, go.edges@[c as int]),
                    (eid as int) < go.edges@.len(),
                    ge == go.edges@[eid as int],
                    seen@[eid as int],
                    e_arity == ge.inputs@.len(),
                    e_inputs@ == ge.inputs@,
                    ge.op == eop,
                    (out as int) == ge.outputs@[0],
                    (out as int) < go.nodes@.len(),
                    forall|i: int|
                        0 <= i < go.nodes@.len() ==> same_but_grad(
                            go.nodes@[i],
                            #[trigger] g.nodes@[i],
                        ),
                    grad_es(g.nodes@[start as int]) == Some(gy_es_of(go.nodes@[start as int])),
                    forall|i: int|
                        start < i < go.nodes@.len() ==> grad_es(#[trigger] g.nodes@[i])
                            == grad_es(go.nodes@[i]),
                    forall|i: int|
                        0 <= i < go.nodes@.len() && go.nodes@[i].grad is Some ==> (
                        #[trigger] g.nodes@[i]).grad is Some,
                    forall|i: int|
                        0 <= i < go.nodes@.len() && i != start && !is_ancestor(
                            go,
                            start as int,
                            i,
                        ) ==> grad_es(#[trigger] g.nodes@[i]) == grad_es(go.nodes@[i]),
                    seen@.len() == go.edges@.len(),
                    seen_count as nat == count_true(seen@),
                    seen_count <= go.edges@.len(),
                    forall|m: int|
                        0 <= m < worklist@.len() ==> (#[trigger] worklist@[m])
                            < go.edges@.len() && seen@[worklist@[m] as int],
                    forall|e: int, jj: int|
                        0 <= e < seen@.len() && seen@[e] && 0 <= jj
                            < go.edges@[e].inputs@.len() ==> (
                        #[trigger] go.edges@[e].inputs@[jj]) < start,
                    forall|e: int, jj: int|
                        0 <= e < seen@.len() && seen@[e] && 0 <= jj
                            < go.edges@[e].inputs@.len() ==> is_ancestor(
                            go,
                            start as int,
                            (#[trigger] go.edges@[e].inputs@[jj]) as int,
                        ),
                    j <= e_arity,
                    worklist@.len() + go.edges@.len() - seen_count == measure0,
                    gxs@.len() == e_arity,
                    forall|m: int|
                        0 <= m < e_arity ==> (#[trigger] gxs@[m]).es() == spec_gxs[m]
                            && gxs@[m].shape@ == xs@[m].shape@ && gxs@[m].es().len()
                            == gy.es().len(),
                    spec_gxs == op_backward_spec(ge.op, es_of(xs@), gy.es()),
                    xs@.len() == e_arity,
                    forall|m: int|
                        0 <= m < e_arity ==> (#[trigger] xs@[m]).es() == go.nodes@[e_inputs@[m]
                            as int].data.es() && xs@[m].shape@ == go.nodes@[e_inputs@[m]
                            as int].data.shape@,
                    gy.es().len() == go.nodes@[out as int].data.es().len(),
                    scase ==> worklist@.len() == 0 && eid == c && es_of(xs@) == datas_es(
                        go,
                        ge.inputs@,
                    ) && gy.es() == gy_es_of(go.nodes@[start as int]) && crate::ops::backward_fits(
                        ge.op,
                        datas_es(go, ge.inputs@),
                        gy_es_of(go.nodes@[start as int]),
                    ) && (forall|i: int|
                        0 <= i < go.nodes@.len() && i != start ==> grad_es(#[trigger] g.nodes@[i])
                            == accum_upto(go, ge, i, j as int)) && (forall|jj: int|
                        0 <= jj < j ==> all_fit(
                            add_contrib(
                                accum_upto(go, ge, ge.inputs@[jj] as int, jj),
                                #[trigger] op_backward_spec(
                                    ge.op,
                                    datas_es(go, ge.inputs@),
                                    gy_es_of(go.nodes@[start as int]),
                                )[jj],
                            ),
                        )),
                decreases e_arity - j,
            {
                proof {
                    assert(edge_wf(*g, eid as int));
                    assert(ge.inputs@[j as int] < ge.outputs@[0]);
                }
                let i: usize = e_inputs[j];
                proof {
                    assert(i < start);
                    assert(node_wf(*g, i as int));
                }
                let ghost g_pre = *g;
                let newg: Tensor = match &g.nodes[i].grad {
                    Some(cur) => match checked_add(cur, &gxs[j]) {
                        Some(t) => t,
                        None => {
                            proof {
                                if scase {
                                    assert(grad_es(g.nodes@[i as int]) == accum_upto(
                                        go,
                                        ge,
                                        i as int,
                                        j as int,
                                    ));
                                    assert(!all_fit(
                                        add_contrib(
                                            accum_upto(go, ge, ge.inputs@[j as int] as int, j as int),
                                            op_backward_spec(
                                                ge.op,
                                                datas_es(go, ge.inputs@),
                                                gy_es_of(go.nodes@[start as int]),
                                            )[j as int],
                                        ),
                                    ));
                                    assert(!one_edge_fits(go, go.edges@[c as int]));
                                }
                            }
                            return false;
                        },
                    },
                    None => gxs[j].dup(),
                };
                proof {
                    assert(newg.es() == add_contrib(grad_es(g.nodes@[i as int]), spec_gxs[j as int]));
                    assert(newg.es().len() == g.nodes@[i as int].data.es().len()) by {
                        assert(g.nodes@[i as int].data.es() == go.nodes@[e_inputs@[j as int]
                            as int].data.es());
                    }
                    assert(newg.shape@ == g.nodes@[i as int].data.shape@);
                    assert(newg.elems@.len() == newg.es().len());
                    assert(newg.wf()) by {
                        assert(g.nodes@[i as int].data.wf());
                    }
                }
                g.nodes[i].grad = Some(newg);
                proof {
                    lemma_wf_set_grad(g_pre, *g, i as int);
                    assert(go.edges@[eid as int].inputs@[j as int] == i);
                    assert(is_ancestor(go, start as int, i as int));
                    if scase {
                        assert forall|ii: int|
                            0 <= ii < go.nodes@.len() && ii != start implies grad_es(
                            #[trigger] g.nodes@[ii],
                        ) == accum_upto(go, ge, ii, j as int + 1) by {
                            if ii == i as int {
                                assert(accum_upto(go, ge, ii, j as int + 1) == Some(
                                    add_contrib(accum_upto(go, ge, ii, j as int), spec_gxs[j as int]),
                                ));
                            } else {
                                assert(grad_es(g.nodes@[ii]) == grad_es(g_pre.nodes@[ii]));
                                if ii == ge.inputs@[j as int] as int {
                                    assert(false);
                                } else {
                                    assert(accum_upto(go, ge, ii, j as int + 1) == accum_upto(
                                        go,
                                        ge,
                                        ii,
                                        j as int,
                                    ));
                                }
                            }
                        }
                    }
                }
                let crv = g.nodes[i].creator;
                if let Some(ic) = crv {
                    proof {
                        assert(node_wf(*g, i as int));
                    }
                    if !seen[ic] {
                        proof {
                            lemma_count_true_update(seen@, ic as int);
                        }
                        seen[ic] = true;
                        proof {
                            lemma_count_true_le(seen@);
                            assert(seen@.len() == g.edges@.len());
                            assert(g.edges@.len() <= usize::MAX);
                        }
                        seen_count = seen_count + 1;
                        worklist.push(ic);
                        proof {
                            assert forall|e: int, jj: int|
                                0 <= e < seen@.len() && seen@[e] && 0 <= jj
                                    < go.edges@[e].inputs@.len() implies (
                            #[trigger] go.edges@[e].inputs@[jj]) < start by {
                                if e == ic as int {
                                    assert(edge_wf(*g, ic as int));
                                    assert(go.edges@[ic as int].outputs@[0] == i);
                                    assert(go.edges@[ic as int].inputs@[jj] < i);
                                }
                            }
                            assert forall|e: int, jj: int|
                                0 <= e < seen@.len() && seen@[e] && 0 <= jj
                                    < go.edges@[e].inputs@.len() implies is_ancestor(
                                go,
                                start as int,
                                (#[trigger] go.edges@[e].inputs@[jj]) as int,
                            ) by {
                                if e == ic as int {
                                    assert(go.nodes@[i as int].creator == Some(ic));
                                    lemma_ancestor_step(go, i as int, ic, jj);
                                    lemma_ancestor_trans(
                                        go,
                                        start as int,
                                        i as int,
                                        go.edges@[ic as int].inputs@[jj] as int,
                                    );
                                }
                            }
                        }
                    }
                }
                j = j + 1;
            }
            proof {
                if scase {
                    assert forall|i: int|
                        0 <= i < go.nodes@.len() && i != start implies grad_es(
                        #[trigger] g.nodes@[i],
                    ) == one_edge_grad(go, go.edges@[c as int], i) by {
                        assert(grad_es(g.nodes@[i]) == accum_upto(go, ge, i, e_arity as int));
                    }
                    assert(one_edge_fits(go, go.edges@[c as int]));
                }
            }
        }
        proof {
            if scase {
                assert(worklist@.len() == 0);
            }
        }
        true
    }

    /// The vertex's data elements, in row-major order.
    pub fn data_elems(&self, g: &Graph) -> (r: Vec<i64>)
        requires
            g.wf(),
            self.valid(*g),
        ensures
            to_ints(r@) == g.nodes@[self.id as int].data.es(),
    {
        crate::tensor::copy_i64s(&g.nodes[self.id].data.elems)
    }

    /// The vertex's gradient elements, if a gradient has been accumulated.
    pub fn grad_elems(&self, g: &Graph) -> (r: Option<Vec<i64>>)
        requires
            g.wf(),
            self.valid(*g),
        ensures
            match r {
                Some(v) => grad_es(g.nodes@[self.id as int]) == Some(to_ints(v@)),
                None => g.nodes@[self.id as int].grad is None,
            },
    {
        match &g.nodes[self.id].grad {
            Some(t) => Some(crate::tensor::copy_i64s(&t.elems)),
            None => None,
        }
    }

    /// Forget the accumulated gradient, so that a later backward pass starts
    /// from a clean slate.
    pub fn cleargrad(&self, g: &mut Graph)
        requires
            old(g).wf(),
            self.valid(*old(g)),
        ensures
            final(g).wf(),
            final(g).nodes@.len() == old(g).nodes@.len(),
            final(g).edges@ == old(g).edges@,
            final(g).nodes@[self.id as int].grad is None,
            same_but_grad(old(g).nodes@[self.id as int], final(g).nodes@[self.id as int]),
            forall|i: int|
                0 <= i < final(g).nodes@.len() && i != self.id ==> final(g).nodes@[i] == old(g).nodes@[i],
    {
        g.nodes[self.id].grad = None;
        proof {
            assert forall|i: int|
                0 <= i < old(g).nodes@.len() implies same_but_grad(
                old(g).nodes@[i],
                #[trigger] g.nodes@[i],
            ) by {}
            assert forall|i: int| 0 <= i < g.nodes@.len() implies match (
            #[trigger] g.nodes@[i]).grad {
                Some(t) => t.wf() && t.sh() == g.nodes@[i].data.sh() && t.es().len()
                    == g.nodes@[i].data.es().len(),
                None => true,
            } by {
                assert(node_wf(*old(g), i));
            }
            lemma_wf_grads_changed(*old(g), *g);
        }
    }
}

/// The gradient elements of a node, if a gradient has been accumulated.
pub open spec fn grad_es(n: VariableInternal) -> Option<Seq<int>> {
    match n.grad {
        Some(t) => Some(t.es()),
        None => None,
    }
}

/// The upstream gradient an output vertex hands to its producing edge during
/// backward: the stored gradient, or ones shaped like the data when none has
/// been accumulated.
pub open spec fn gy_es_of(n: VariableInternal) -> Seq<int> {
    match n.grad {
        Some(t) => t.es(),
        None => ones_seq(n.data.es().len()),
    }
}

/// Accumulate a new contribution onto a gradient: elementwise addition when a
/// gradient is already present, the contribution itself when absent.
/// Accumulation, never overwrite: a vertex consumed twice sums both
/// contributions.
pub open spec fn add_contrib(cur: Option<Seq<int>>, gx: Seq<int>) -> Seq<int> {
    match cur {
        Some(s) => seq_add(s, gx),
        None => gx,
    }
}

/// Every input of the edge is a leaf (has no producing edge of its own).
pub open spec fn leaf_inputs(g: Graph, e: Edge) -> bool {
    forall|j: int|
        0 <= j < e.inputs@.len() ==> (#[trigger] g.nodes@[e.inputs@[j] as int]).creator is None
}

/// The gradient of node `i` after the first `j` accumulation steps of
/// replaying edge `e` on graph state `go`: step `j` adds local gradient `j`
/// onto input `j`.
pub open spec fn accum_upto(go: Graph, e: Edge, i: int, j: int) -> Option<Seq<int>>
    decreases j,
{
    let gy = gy_es_of(go.nodes@[e.outputs@[0] as int]);
    let gxs = op_backward_spec(e.op, datas_es(go, e.inputs@), gy);
    if j <= 0 {
        grad_es(go.nodes@[i])
    } else if i == e.inputs@[j - 1] as int {
        Some(add_contrib(accum_upto(go, e, i, j - 1), gxs[j - 1]))
    } else {
        accum_upto(go, e, i, j - 1)
    }
}

/// The gradient of node `i` after replaying edge `e` once in full.
pub open spec fn one_edge_grad(go: Graph, e: Edge, i: int) -> Option<Seq<int>> {
    accum_upto(go, e, i, e.inputs@.len() as int)
}

/// Whether replaying edge `e` once stays within `i64` range: the local
/// gradients fit, and so does every accumulation step.
pub open spec fn one_edge_fits(go: Graph, e: Edge) -> bool {
    let gy = gy_es_of(go.nodes@[e.outputs@[0] as int]);
    let gxs = op_backward_spec(e.op, datas_es(go, e.inputs@), gy);
    &&& crate::ops::backward_fits(e.op, datas_es(go, e.inputs@), gy)
    &&& forall|j: int|
        0 <= j < e.inputs@.len() ==> all_fit(
            add_contrib(accum_upto(go, e, e.inputs@[j] as int, j), #[trigger] gxs[j]),
        )
}

/// Number of `true` entries of a boolean sequence.
pub open spec fn count_true(s: Seq<bool>) -> nat
    decreases s.len(),
{
    if s.len() == 0 {
        0
    } else {
        count_true(s.drop_last()) + if s.last() {
            1nat
        } else {
            0nat
        }
    }
}

proof fn lemma_count_true_le(s: Seq<bool>)
    ensures
        count_true(s) <= s.len(),
    decreases s.len(),
{
    if s.len() > 0 {
        lemma_count_true_le(s.drop_last());
    }
}

proof fn lemma_count_true_all_false(s: Seq<bool>)
    requires
        forall|i: int| 0 <= i < s.len() ==> !(#[trigger] s[i]),
    ensures
        count_true(s) == 0,
    decreases s.len(),
{
    if s.len() > 0 {
        lemma_count_true_all_false(s.drop_last());
    }
}

proof fn lemma_count_true_update(s: Seq<bool>, i: int)
    requires
        0 <= i < s.len(),
        !s[i],
    ensures
        count_true(s.update(i, true)) == count_true(s) + 1,
    decreases s.len(),
{
    if i == s.len() - 1 {
        assert(s.update(i, true).drop_last() =~= s.drop_last());
    } else {
        assert(s.update(i, true).drop_last() =~= s.drop_last().update(i, true));
        lemma_count_true_update(s.drop_last(), i);
    }
}

/// Changing the gradient of one node (to one with the data's shape) preserves
/// well-formedness.
proof fn lemma_wf_set_grad(g1: Graph, g2: Graph, i: int)
    requires
        g1.wf(),
        g2.nodes@.len() == g1.nodes@.len(),
        g2.edges@ == g1.edges@,
        0 <= i < g1.nodes@.len(),
        forall|m: int|
            0 <= m < g1.nodes@.len() && m != i ==> g2.nodes@[m] == #[trigger] g1.nodes@[m],
        same_but_grad(g1.nodes@[i], g2.nodes@[i]),
        match g2.nodes@[i].grad {
            Some(t) => t.wf() && t.sh() == g2.nodes@[i].data.sh() && t.es().len()
                == g2.nodes@[i].data.es().len(),
            None => true,
        },
    ensures
        g2.wf(),
{
    assert forall|m: int|
        0 <= m < g1.nodes@.len() implies same_but_grad(g1.nodes@[m], #[trigger] g2.nodes@[m]) by {}
    assert forall|m: int| 0 <= m < g2.nodes@.len() implies match (#[trigger] g2.nodes@[m]).grad {
        Some(t) => t.wf() && t.sh() == g2.nodes@[m].data.sh() && t.es().len()
            == g2.nodes@[m].data.es().len(),
        None => true,
    } by {
        assert(node_wf(g1, m));
        if m != i {
            assert(g2.nodes@[m] == g1.nodes@[m]);
        }
    }
    lemma_wf_grads_changed(g1, g2);
}

impl Op {
    /// Apply the operation to the given vertices: read their data, compute
    /// the forward value, allocate the output vertex (generation one more
    /// than the largest input generation) and wire the call record that binds
    /// the operation to its inputs and its output. Returns `None`, with the
    /// graph untouched, exactly when the forward value overflows `i64`.
    ///
    /// The inputs must share one shape: broadcasting between different shapes
    /// is the array library's business and is not modeled here, where every
    /// operation is elementwise over equal shapes.
    pub fn call(self, g: &mut Graph, inputs: &Vec<Variable>) -> (r: Option<Variable>)
        requires
            old(g).wf(),
            inputs@.len() == self.arity(),
            forall|j: int|
                0 <= j < inputs@.len() ==> (#[trigger] inputs@[j]).id < old(g).nodes@.len(),
            forall|j: int|
                0 <= j < inputs@.len() ==> old(g).nodes@[(#[trigger] inputs@[j]).id as int].data.sh()
                    == old(g).nodes@[inputs@[0].id as int].data.sh(),
        ensures
            match r {
                None => final(g).nodes@ == old(g).nodes@ && final(g).edges@ == old(g).edges@
                    && !all_fit(op_forward_spec(self, datas_es(*old(g), ids_of(inputs@)))),
                Some(v) => {
                    &&& all_fit(op_forward_spec(self, datas_es(*old(g), ids_of(inputs@))))
                    &&& final(g).wf()
                    &&& v.id == old(g).nodes@.len()
                    &&& final(g).nodes@.len() == old(g).nodes@.len() + 1
                    &&& forall|i: int|
                        0 <= i < old(g).nodes@.len() ==> final(g).nodes@[i] == old(g).nodes@[i]
                    &&& final(g).edges@.len() == old(g).edges@.len() + 1
                    &&& forall|k: int|
                        0 <= k < old(g).edges@.len() ==> final(g).edges@[k] == old(g).edges@[k]
                    &&& final(g).nodes@[v.id as int].data.es() == op_forward_spec(
                        self,
                        datas_es(*old(g), ids_of(inputs@)),
                    )
                    &&& final(g).nodes@[v.id as int].data.sh() == old(g).nodes@[inputs@[0].id
                        as int].data.sh()
                    &&& final(g).nodes@[v.id as int].grad is None
                    &&& final(g).nodes@[v.id as int].generation == max_generation(
                        gens_of(*old(g), ids_of(inputs@)),
                    ) + 1
                    &&& final(g).nodes@[v.id as int].creator == Some(
                        old(g).edges@.len() as usize,
                    )
                    &&& final(g).edges@[old(g).edges@.len() as int].inputs@ == ids_of(inputs@)
                    &&& final(g).edges@[old(g).edges@.len() as int].outputs@ == seq![v.id]
                    &&& final(g).edges@[old(g).edges@.len() as int].generation == max_generation(
                        gens_of(*old(g), ids_of(inputs@)),
                    )
                    &&& final(g).edges@[old(g).edges@.len() as int].op == self
                },
            },
    {
        let arity: usize = inputs.len();
        let mut xs: Vec<Tensor> = Vec::new();
        let mut j: usize = 0;
        while j < arity
            invariant
                *g == *old(g),
                old(g).wf(),
                arity == inputs@.len(),
                forall|m: int|
                    0 <= m < inputs@.len() ==> (#[trigger] inputs@[m]).id < old(g).nodes@.len(),
                j <= arity,
                xs@.len() == j,
                forall|k: int|
                    0 <= k < j ==> (#[trigger] xs@[k]).es() == old(g).nodes@[inputs@[k].id
                        as int].data.es() && xs@[k].shape@ == old(g).nodes@[inputs@[k].id
                        as int].data.shape@ && xs@[k].elems@.len() == old(g).nodes@[inputs@[k].id
                        as int].data.elems@.len(),
            decreases arity - j,
        {
            let t = g.nodes[inputs[j].id].data.dup();
            xs.push(t);
            j = j + 1;
        }
        let mut maxgen: usize = 0;
        j = 0;
        while j < arity
            invariant
                *g == *old(g),
                old(g).wf(),
                arity == inputs@.len(),
                forall|m: int|
                    0 <= m < inputs@.len() ==> (#[trigger] inputs@[m]).id < old(g).nodes@.len(),
                j <= arity,
                arity > 0 ==> (maxgen as int) < old(g).nodes@.len(),
                maxgen as nat == max_generation(gens_of(*old(g), ids_of(inputs@)).take(j as int)),
            decreases arity - j,
        {
            let gi = g.nodes[inputs[j].id].generation;
            proof {
                assert(node_wf(*old(g), inputs@[j as int].id as int));
                let gens = gens_of(*old(g), ids_of(inputs@));
                assert(ids_of(inputs@)[j as int] == inputs@[j as int].id);
                assert(gens[j as int] == gi as nat);
                lemma_max_generation_push(gens.take(j as int), gi as nat);
                assert(gens.take(j as int + 1) =~= gens.take(j as int).push(gi as nat));
            }
            if gi > maxgen {
                maxgen = gi;
            }
            j = j + 1;
        }
        proof {
            let gens = gens_of(*old(g), ids_of(inputs@));
            assert(gens.take(arity as int) =~= gens);
            assert(es_of(xs@) =~= datas_es(*old(g), ids_of(inputs@)));
            assert forall|k: int| 0 <= k < xs@.len() implies (#[trigger] xs@[k]).shape@
                == xs@[0].shape@ && xs@[k].es().len() == xs@[0].es().len() by {
                assert(node_wf(*old(g), inputs@[k].id as int));
                assert(node_wf(*old(g), inputs@[0].id as int));
                assert(old(g).nodes@[inputs@[k].id as int].data.sh() == old(g).nodes@[inputs@[0].id
                    as int].data.sh());
            }
        }
        let y = match op_forward(self, &xs) {
            Some(t) => t,
            None => {
                return None;
            },
        };
        let nid = g.nodes.len();
        let eid = g.edges.len();
        let mut in_ids: Vec<usize> = Vec::new();
        j = 0;
        while j < arity
            invariant
                arity == inputs@.len(),
                j <= arity,
                in_ids@.len() == j,
                forall|k: int| 0 <= k < j ==> (#[trigger] in_ids@[k]) == inputs@[k].id,
            decreases arity - j,
        {
            in_ids.push(inputs[j].id);
            j = j + 1;
        }
        let mut out_ids: Vec<usize> = Vec::new();
        out_ids.push(nid);
        proof {
            assert(in_ids@ =~= ids_of(inputs@));
            assert((maxgen as int) < old(g).nodes@.len());
        }
        g.nodes.push(
            VariableInternal { data: y, grad: None, generation: maxgen + 1, creator: Some(eid) },
        );
        g.edges.push(Edge { inputs: in_ids, outputs: out_ids, generation: maxgen, op: self });
        proof {
            let gn = *g;
            let go = *old(g);
            assert(gn.nodes@[nid as int].data.wf()) by {
                assert(node_wf(go, inputs@[0].id as int));
                assert(y.es().len() == xs@[0].es().len());
                assert(y.elems@.len() == y.es().len());
                assert(xs@[0].es().len() == xs@[0].elems@.len());
            }
            assert forall|jj: int|
                0 <= jj < gn.edges@[eid as int].inputs@.len() implies (
            #[trigger] gn.nodes@[gn.edges@[eid as int].inputs@[jj] as int]).data.sh()
                == gn.nodes@[nid as int].data.sh() && gn.nodes@[gn.edges@[eid
                as int].inputs@[jj] as int].data.es().len() == gn.nodes@[nid
                as int].data.es().len() by {
                assert(gn.edges@[eid as int].inputs@[jj] == inputs@[jj].id);
                assert(node_wf(go, inputs@[jj].id as int));
                assert(node_wf(go, inputs@[0].id as int));
                assert(xs@[jj].es() == go.nodes@[inputs@[jj].id as int].data.es());
            }
            assert(gens_of(gn, in_ids@) =~= gens_of(go, ids_of(inputs@)));
            assert(node_wf(gn, nid as int));
            assert(edge_wf(gn, eid as int));
            assert forall|i: int| 0 <= i < gn.nodes@.len() implies node_wf(gn, i) by {
                if i < go.nodes@.len() {
                    assert(node_wf(go, i));
                    assert(gn.nodes@[i] == go.nodes@[i]);
                }
            }
            assert forall|k: int| 0 <= k < gn.edges@.len() implies edge_wf(gn, k) by {
                if k < go.edges@.len() {
                    assert(edge_wf(go, k));
                    let e = gn.edges@[k];
                    assert forall|jj: int| 0 <= jj < e.inputs@.len() implies (
                    #[trigger] gn.nodes@[e.inputs@[jj] as int]) == go.nodes@[e.inputs@[jj]
                        as int] by {
                        assert(e.inputs@[jj] < e.outputs@[0]);
                    }
                    assert(gens_of(gn, e.inputs@) =~= gens_of(go, e.inputs@));
                }
            }
        }
        Some(Variable { id: nid })
    }
}

proof fn lemma_single_specs(g: Graph, x: Variable)
    requires
        (x.id as int) < g.nodes@.len(),
    ensures
        ids_of(seq![x]) =~= seq![x.id],
        datas_es(g, seq![x.id]) =~= seq![g.nodes@[x.id as int].data.es()],
        gens_of(g, seq![x.id]) =~= seq![g.nodes@[x.id as int].generation as nat],
        max_generation(gens_of(g, seq![x.id])) == g.nodes@[x.id as int].generation as nat,
{
    let s = seq![g.nodes@[x.id as int].generation as nat];
    assert(s.drop_last() =~= Seq::<nat>::empty());
    assert(max_generation(Seq::<nat>::empty()) == 0);
    assert(max_generation(s) == s.last());
    assert(gens_of(g, seq![x.id]) =~= s);
}

proof fn lemma_pair_specs(g: Graph, x0: Variable, x1: Variable)
    requires
        (x0.id as int) < g.nodes@.len(),
        (x1.id as int) < g.nodes@.len(),
    ensures
        ids_of(seq![x0, x1]) =~= seq![x0.id, x1.id],
        datas_es(g, seq![x0.id, x1.id]) =~= seq![
            g.nodes@[x0.id as int].data.es(),
            g.nodes@[x1.id as int].data.es(),
        ],
        gens_of(g, seq![x0.id, x1.id]) =~= seq![
            g.nodes@[x0.id as int].generation as nat,
            g.nodes@[x1.id as int].generation as nat,
        ],
        max_generation(gens_of(g, seq![x0.id, x1.id])) == if g.nodes@[x1.id as int].generation
            >= g.nodes@[x0.id as int].generation {
            g.nodes@[x1.id as int].generation as nat
        } else {
            g.nodes@[x0.id as int].generation as nat
        },
{
    let a = g.nodes@[x0.id as int].generation as nat;
    let b = g.nodes@[x1.id as int].generation as nat;
    let s = seq![a, b];
    assert(s.drop_last() =~= seq![a]);
    assert(seq![a].drop_last() =~= Seq::<nat>::empty());
    assert(max_generation(Seq::<nat>::empty()) == 0);
    assert(max_generation(seq![a]) == a);
    assert(max_generation(s) == if b >= a {
        b
    } else {
        a
    });
    assert(gens_of(g, seq![x0.id, x1.id]) =~= s);
}

/// Shared contract shape of a two-input elementwise operation applied through
/// the graph: what `apply_pair` guarantees of the wired result.
pub open spec fn pair_applied(
    go: Graph,
    gn: Graph,
    op: Op,
    x0: Variable,
    x1: Variable,
    v: Variable,
) -> bool {
    &&& gn.wf()
    &&& v.id == go.nodes@.len()
    &&& gn.nodes@.len() == go.nodes@.len() + 1
    &&& (forall|i: int| 0 <= i < go.nodes@.len() ==> gn.nodes@[i] == go.nodes@[i])
    &&& gn.edges@.len() == go.edges@.len() + 1
    &&& (forall|k: int| 0 <= k < go.edges@.len() ==> gn.edges@[k] == go.edges@[k])
    &&& gn.nodes@[v.id as int].data.es() == op_forward_spec(
        op,
        seq![go.nodes@[x0.id as int].data.es(), go.nodes@[x1.id as int].data.es()],
    )
    &&& gn.nodes@[v.id as int].data.sh() == go.nodes@[x0.id as int].data.sh()
    &&& gn.nodes@[v.id as int].grad is None
    &&& gn.nodes@[v.id as int].generation == (if go.nodes@[x1.id as int].generation
        >= go.nodes@[x0.id as int].generation {
        go.nodes@[x1.id as int].generation + 1
    } else {
        go.nodes@[x0.id as int].generation + 1
    })
    &&& gn.nodes@[v.id as int].creator == Some(go.edges@.len() as usize)
    &&& gn.edges@[go.edges@.len() as int].inputs@ == seq![x0.id, x1.id]
    &&& gn.edges@[go.edges@.len() as int].outputs@ == seq![v.id]
    &&& gn.edges@[go.edges@.len() as int].op == op
}

/// Shared contract shape of a one-input elementwise operation applied through
/// the graph: what `apply_single` guarantees of the wired result.
pub open spec fn single_applied(go: Graph, gn: Graph, op: Op, x: Variable, v: Variable) -> bool {
    &&& gn.wf()
    &&& v.id == go.nodes@.len()
    &&& gn.nodes@.len() == go.nodes@.len() + 1
    &&& (forall|i: int| 0 <= i < go.nodes@.len() ==> gn.nodes@[i] == go.nodes@[i])
    &&& gn.edges@.len() == go.edges@.len() + 1
    &&& (forall|k: int| 0 <= k < go.edges@.len() ==> gn.edges@[k] == go.edges@[k])
    &&& gn.nodes@[v.id as int].data.es() == op_forward_spec(
        op,
        seq![go.nodes@[x.id as int].data.es()],
    )
    &&& gn.nodes@[v.id as int].data.sh() == go.nodes@[x.id as int].data.sh()
    &&& gn.nodes@[v.id as int].grad is None
    &&& gn.nodes@[v.id as int].generation == go.nodes@[x.id as int].generation + 1
    &&& gn.nodes@[v.id as int].creator == Some(go.edges@.len() as usize)
    &&& gn.edges@[go.edges@.len() as int].inputs@ == seq![x.id]
    &&& gn.edges@[go.edges@.len() as int].outputs@ == seq![v.id]
    &&& gn.edges@[go.edges@.len() as int].op == op
}

/// Apply a two-input operation to `x0`, `x1`.
pub fn apply_pair(g: &mut Graph, op: Op, x0: Variable, x1: Variable) -> (r: Option<Variable>)
    requires
        old(g).wf(),
        op.arity() == 2,
        x0.valid(*old(g)),
        x1.valid(*old(g)),
        old(g).nodes@[x0.id as int].data.sh() == old(g).nodes@[x1.id as int].data.sh(),
    ensures
        match r {
            None => final(g).nodes@ == old(g).nodes@ && final(g).edges@ == old(g).edges@
                && !all_fit(
                op_forward_spec(
                    op,
                    seq![
                        old(g).nodes@[x0.id as int].data.es(),
                        old(g).nodes@[x1.id as int].data.es(),
                    ],
                ),
            ),
            Some(v) => pair_applied(*old(g), *final(g), op, x0, x1, v) && all_fit(
                op_forward_spec(
                    op,
                    seq![
                        old(g).nodes@[x0.id as int].data.es(),
                        old(g).nodes@[x1.id as int].data.es(),
                    ],
                ),
            ),
        },
{
    let mut inputs: Vec<Variable> = Vec::new();
    inputs.push(x0);
    inputs.push(x1);
    proof {
        assert(inputs@ =~= seq![x0, x1]);
        lemma_pair_specs(*g, x0, x1);
        assert(ids_of(inputs@) == seq![x0.id, x1.id]);
    }
    let r = op.call(g, &inputs);
    r
}

/// Apply a one-input operation to `x`.
pub fn apply_single(g: &mut Graph, op: Op, x: Variable) -> (r: Option<Variable>)
    requires
        old(g).wf(),
        op.arity() == 1,
        x.valid(*old(g)),
    ensures
        match r {
            None => final(g).nodes@ == old(g).nodes@ && final(g).edges@ == old(g).edges@
                && !all_fit(op_forward_spec(op, seq![old(g).nodes@[x.id as int].data.es()])),
            Some(v) => single_applied(*old(g), *final(g), op, x, v) && all_fit(
                op_forward_spec(op, seq![old(g).nodes@[x.id as int].data.es()]),
            ),
        },
{
    let mut inputs: Vec<Variable> = Vec::new();
    inputs.push(x);
    proof {
        assert(inputs@ =~= seq![x]);
        lemma_single_specs(*g, x);
        assert(ids_of(inputs@) == seq![x.id]);
    }
    let r = op.call(g, &inputs);
    r
}

/// Elementwise sum of two vertices, wired into the graph.
pub fn add(g: &mut Graph, x0: Variable, x1: Variable) -> (r: Option<Variable>)
    requires
        old(g).wf(),
        x0.valid(*old(g)),
        x1.valid(*old(g)),
        old(g).nodes@[x0.id as int].data.sh() == old(g).nodes@[x1.id as int].data.sh(),
    ensures
        match r {
            None => final(g).nodes@ == old(g).nodes@ && final(g).edges@ == old(g).edges@
                && !all_fit(
                seq_add(old(g).nodes@[x0.id as int].data.es(), old(g).nodes@[x1.id as int].data.es()),
            ),
            Some(v) => pair_applied(*old(g), *final(g), Op::Add, x0, x1, v) && final(g).nodes@[v.id
                as int].data.es() == seq_add(
                old(g).nodes@[x0.id as int].data.es(),
                old(g).nodes@[x1.id as int].data.es(),
            ),
        },
{
    apply_pair(g, Op::Add, x0, x1)
}

/// Elementwise difference of two vertices, wired into the graph.
pub fn sub(g: &mut Graph, x0: Variable, x1: Variable) -> (r: Option<Variable>)
    requires
        old(g).wf(),
        x0.valid(*old(g)),
        x1.valid(*old(g)),
        old(g).nodes@[x0.id as int].data.sh() == old(g).nodes@[x1.id as int].data.sh(),
    ensures
        match r {
            None => final(g).nodes@ == old(g).nodes@ && final(g).edges@ == old(g).edges@
                && !all_fit(
                crate::tensor::seq_sub(
                    old(g).nodes@[x0.id as int].data.es(),
                    old(g).nodes@[x1.id as int].data.es(),
                ),
            ),
            Some(v) => pair_applied(*old(g), *final(g), Op::Sub, x0, x1, v) && final(g).nodes@[v.id
                as int].data.es() == crate::tensor::seq_sub(
                old(g).nodes@[x0.id as int].data.es(),
                old(g).nodes@[x1.id as int].data.es(),
            ),
        },
{
    apply_pair(g, Op::Sub, x0, x1)
}

/// Elementwise product of two vertices, wired into the graph.
pub fn mul(g: &mut Graph, x0: Variable, x1: Variable) -> (r: Option<Variable>)
    requires
        old(g).wf(),
        x0.valid(*old(g)),
        x1.valid(*old(g)),
        old(g).nodes@[x0.id as int].data.sh() == old(g).nodes@[x1.id as int].data.sh(),
    ensures
        match r {
            None => final(g).nodes@ == old(g).nodes@ && final(g).edges@ == old(g).edges@
                && !all_fit(
                crate::tensor::seq_mul(
                    old(g).nodes@[x0.id as int].data.es(),
                    old(g).nodes@[x1.id as int].data.es(),
                ),
            ),
            Some(v) => pair_applied(*old(g), *final(g), Op::Mul, x0, x1, v) && final(g).nodes@[v.id
                as int].data.es() == crate::tensor::seq_mul(
                old(g).nodes@[x0.id as int].data.es(),
                old(g).nodes@[x1.id as int].data.es(),
            ),
        },
{
    apply_pair(g, Op::Mul, x0, x1)
}

/// Elementwise negation of a vertex, wired into the graph.
pub fn neg(g: &mut Graph, x: Variable) -> (r: Option<Variable>)
    requires
        old(g).wf(),
        x.valid(*old(g)),
    ensures
        match r {
            None => final(g).nodes@ == old(g).nodes@ && final(g).edges@ == old(g).edges@
                && !all_fit(crate::tensor::seq_neg(old(g).nodes@[x.id as int].data.es())),
            Some(v) => single_applied(*old(g), *final(g), Op::Neg, x, v) && final(g).nodes@[v.id
                as int].data.es() == crate::tensor::seq_neg(old(g).nodes@[x.id as int].data.es()),
        },
{
    apply_single(g, Op::Neg, x)
}

} // verus!
