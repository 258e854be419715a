//! The used-by graph: the transpose of the depend-on graph.
//! Nodes are preserved, including isolated ones; every edge is reversed.

use vstd::prelude::*;
use crate::graph::{DependOnGraph, NodeKey, SymbolNode};
use crate::model::{anon_default_name, SymbolVariant};

verus! {

/// Reverse every edge pair.
pub open spec fn transpose(e: Seq<(int, int)>) -> Seq<(int, int)> {
    e.map_values(|p: (int, int)| (p.1, p.0))
}

/// Transposing twice gives the edge list back unchanged.
pub proof fn lemma_transpose_involutive(e: Seq<(int, int)>)
    ensures
        transpose(transpose(e)) == e,
{
    assert(transpose(transpose(e)) =~= e);
}

/// The used-by graph: same arena as the depend-on graph, edges reversed.
pub struct UsedByGraph {
    pub modules: Vec<String>,
    pub nodes: Vec<SymbolNode>,
    pub edges: Vec<(usize, usize)>,
}

impl UsedByGraph {
    pub open spec fn modules_view(&self) -> Seq<Seq<char>> {
        self.modules@.map_values(|m: String| m@)
    }

    pub open spec fn keys(&self) -> Seq<NodeKey> {
        self.nodes@.map_values(|n: SymbolNode| n.key())
    }

    pub open spec fn edges_view(&self) -> Seq<(int, int)> {
        self.edges@.map_values(|e: (usize, usize)| (e.0 as int, e.1 as int))
    }

    /// Derive the used-by graph: nodes (and modules) are kept exactly,
    /// every depend-on edge `a -> b` becomes `b -> a`.
    pub fn from(g: &DependOnGraph) -> (r: Self)
        requires
            g.wf(),
        ensures
            r.modules@ == g.modules@,
            r.nodes@ == g.nodes@,
            r.edges_view() == transpose(g.edges_view()),
            r.keys() == g.keys(),
            r.modules_view() == g.modules_view(),
            forall|i: int|
                0 <= i < r.edges@.len() ==> (#[trigger] r.edges@[i]).0 < r.nodes@.len()
                    && r.edges@[i].1 < r.nodes@.len(),
    {
        let modules = clone_strings(&g.modules);
        let nodes = clone_nodes(&g.nodes);
        let mut edges: Vec<(usize, usize)> = Vec::new();
        let mut i: usize = 0;
        while i < g.edges.len()
            invariant
                g.wf(),
                0 <= i <= g.edges@.len(),
                edges@.len() == i,
                forall|j: int|
                    0 <= j < i ==> (#[trigger] edges@[j]) == ((g.edges@[j].1, g.edges@[j].0)),
            decreases g.edges@.len() - i,
        {
            let e = g.edges[i];
            edges.push((e.1, e.0));
            i += 1;
        }
        let r = UsedByGraph { modules, nodes, edges };
        proof {
            assert(r.edges_view() =~= transpose(g.edges_view()));
            assert(r.keys() =~= g.keys());
            assert(r.modules_view() =~= g.modules_view());
        }
        r
    }
}

/// Element-wise copy of a string list.
fn clone_strings(src: &Vec<String>) -> (r: Vec<String>)
    ensures
        r@ == src@,
{
    let mut v: Vec<String> = Vec::new();
    let mut i: usize = 0;
    while i < src.len()
        invariant
            0 <= i <= src@.len(),
            v@ =~= src@.take(i as int),
        decreases src@.len() - i,
    {
        v.push(src[i].clone());
        proof {
            assert(v@ =~= src@.take(i + 1));
        }
        i += 1;
    }
    proof {
        assert(src@.take(src@.len() as int) =~= src@);
        assert(v@ =~= src@);
    }
    v
}

/// Element-wise copy of a node list.
fn clone_nodes(src: &Vec<SymbolNode>) -> (r: Vec<SymbolNode>)
    ensures
        r@ == src@,
{
    let mut v: Vec<SymbolNode> = Vec::new();
    let mut i: usize = 0;
    while i < src.len()
        invariant
            0 <= i <= src@.len(),
            v@ =~= src@.take(i as int),
        decreases src@.len() - i,
    {
        let n = &src[i];
        v.push(SymbolNode { module_id: n.module_id, variant: n.variant, name: n.name.clone() });
        proof {
            assert(v@[i as int] == src@[i as int]);
            assert(v@ =~= src@.take(i + 1));
        }
        i += 1;
    }
    proof {
        assert(src@.take(src@.len() as int) =~= src@);
        assert(v@ =~= src@);
    }
    v
}

/// Every edge endpoint of a well-formed depend-on graph is a node of that
/// graph.
pub proof fn lemma_edge_endpoints_exist(g: DependOnGraph, i: int)
    requires
        g.wf(),
        0 <= i < g.edges_view().len(),
    ensures
        0 <= g.edges_view()[i].0 < g.keys().len(),
        0 <= g.edges_view()[i].1 < g.keys().len(),
{
    assert(g.edges@[i].0 < g.nodes@.len());
}

/// No edge of a well-formed depend-on graph points at a `NamedExport`
/// carrying the reserved anonymous-default name: in particular a namespace
/// expansion never leaks an anonymous default.
pub proof fn lemma_namespace_anonymity_firewall(g: DependOnGraph, i: int)
    requires
        g.wf(),
        0 <= i < g.edges@.len(),
    ensures
        !(g.nodes@[g.edges@[i].1 as int].variant == SymbolVariant::NamedExport
            && g.nodes@[g.edges@[i].1 as int].name@ == anon_default_name()),
{
    assert(g.edges@[i].1 < g.nodes@.len());
}

} // verus!
