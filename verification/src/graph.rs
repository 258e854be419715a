//! The depend-on graph. Nodes are `(module, variant, name)`
//! triples held in an arena and identified by small integer ids; edges are
//! ordered id pairs, each stored at most once. One `SymbolDependency`
//! record at a time is folded into the graph by `add_symbol_dependency`,
//! whose four entry points run in the fixed order: local-variable table,
//! named-export table, default export, star re-exports.

use vstd::prelude::*;
use crate::bytes::{string_eq, view_bytes};
use crate::model::{
    anon_default_name, anon_default_symbol_name, FromOtherModule, FromType, ModuleExport,
    ModuleScopedVariable, SymbolDependency, SymbolVariant,
};
use crate::path_resolver::{resolve_spec, PathResolver};

verus! {

/// Spec identity of a node: owning module id, variant, and name.
pub type NodeKey = (int, SymbolVariant, Seq<char>);

/// Spec state of the graph: module paths, node keys, edge pairs.
pub type GraphState = (Seq<Seq<char>>, Seq<NodeKey>, Seq<(int, int)>);

/// A stored node.
pub struct SymbolNode {
    pub module_id: usize,
    pub variant: SymbolVariant,
    pub name: String,
}

impl SymbolNode {
    pub open spec fn key(&self) -> NodeKey {
        (self.module_id as int, self.variant, self.name@)
    }
}

/// First index of `x` in `s`, or `-1`.
pub open spec fn seq_index_of<T>(s: Seq<T>, x: T) -> int
    decreases s.len(),
{
    if s.len() == 0 {
        -1
    } else if s[0] == x {
        0
    } else {
        let r = seq_index_of(s.drop_first(), x);
        if r < 0 {
            -1
        } else {
            r + 1
        }
    }
}

pub proof fn lemma_seq_index_of<T>(s: Seq<T>, x: T)
    ensures
        seq_index_of(s, x) == -1 <==> !s.contains(x),
        seq_index_of(s, x) != -1 ==> 0 <= seq_index_of(s, x) < s.len() && s[seq_index_of(s, x)]
            == x,
        seq_index_of(s, x) != -1 ==> forall|j: int| 0 <= j < seq_index_of(s, x) ==> s[j] != x,
    decreases s.len(),
{
    if s.len() > 0 && s[0] != x {
        lemma_seq_index_of(s.drop_first(), x);
        assert(forall|j: int| 0 < j < s.len() ==> s[j] == s.drop_first()[j - 1]);
        if seq_index_of(s.drop_first(), x) == -1 {
            assert forall|j: int| 0 <= j < s.len() implies s[j] != x by {
                if j > 0 {
                    assert(s.drop_first().contains(s[j]) || s.drop_first()[j - 1] != x);
                }
            }
            assert(!s.contains(x));
        } else {
            assert(s.contains(x)) by {
                assert(s[seq_index_of(s.drop_first(), x) + 1] == x);
            }
        }
    } else if s.len() > 0 {
        assert(s.contains(x)) by {
            assert(s[0] == x);
        }
    }
}

/// `seq_index_of` is the index of the first occurrence.
pub proof fn lemma_seq_index_of_first<T>(s: Seq<T>, x: T, i: int)
    requires
        0 <= i < s.len(),
        s[i] == x,
        forall|j: int| 0 <= j < i ==> s[j] != x,
    ensures
        seq_index_of(s, x) == i,
    decreases s.len(),
{
    if i == 0 {
    } else {
        assert(s[0] != x);
        assert(forall|j: int| 0 <= j < i - 1 ==> s.drop_first()[j] == s[j + 1]);
        assert(s.drop_first()[i - 1] == x);
        lemma_seq_index_of_first(s.drop_first(), x, i - 1);
    }
}

/// Look a module path up, creating it if absent. Returns the new state and
/// the module id.
pub open spec fn s_module(st: GraphState, p: Seq<char>) -> (GraphState, int) {
    let i = seq_index_of(st.0, p);
    if i >= 0 {
        (st, i)
    } else {
        ((st.0.push(p), st.1, st.2), st.0.len() as int)
    }
}

/// Look a node key up, creating it if absent. Returns the new state and
/// the node id.
pub open spec fn s_node(st: GraphState, k: NodeKey) -> (GraphState, int) {
    let i = seq_index_of(st.1, k);
    if i >= 0 {
        (st, i)
    } else {
        ((st.0, st.1.push(k), st.2), st.1.len() as int)
    }
}

/// Record an edge, once per ordered pair.
pub open spec fn s_edge(st: GraphState, a: int, b: int) -> GraphState {
    if st.2.contains((a, b)) {
        st
    } else {
        (st.0, st.1, st.2.push((a, b)))
    }
}

/// The depend-on graph.
pub struct DependOnGraph {
    pub resolver: PathResolver,
    pub modules: Vec<String>,
    pub nodes: Vec<SymbolNode>,
    pub edges: Vec<(usize, usize)>,
}

impl DependOnGraph {
    pub open spec fn modules_view(&self) -> Seq<Seq<char>> {
        self.modules@.map_values(|m: String| m@)
    }

    pub open spec fn keys(&self) -> Seq<NodeKey> {
        self.nodes@.map_values(|n: SymbolNode| n.key())
    }

    pub open spec fn edges_view(&self) -> Seq<(int, int)> {
        self.edges@.map_values(|e: (usize, usize)| (e.0 as int, e.1 as int))
    }

    pub open spec fn state(&self) -> GraphState {
        (self.modules_view(), self.keys(), self.edges_view())
    }

    /// Well-formedness:
    /// - module paths and node keys are stored once;
    /// - every node's module id and every edge endpoint is in range;
    /// - a `DefaultExport` node has the empty name, all others a non-empty
    ///   one; and no `NamedExport` node carries the reserved
    ///   anonymous-default name.
    pub open spec fn wf(&self) -> bool {
        &&& forall|i: int, j: int|
            0 <= i < j < self.modules_view().len() ==> self.modules_view()[i]
                != self.modules_view()[j]
        &&& forall|i: int, j: int|
            0 <= i < j < self.keys().len() ==> self.keys()[i] != self.keys()[j]
        &&& forall|i: int|
            0 <= i < self.nodes@.len() ==> (#[trigger] self.nodes@[i]).module_id
                < self.modules@.len()
        &&& forall|i: int|
            0 <= i < self.edges@.len() ==> (#[trigger] self.edges@[i]).0 < self.nodes@.len()
                && self.edges@[i].1 < self.nodes@.len()
        &&& forall|i: int|
            0 <= i < self.nodes@.len() ==> (((#[trigger] self.nodes@[i]).variant
                == SymbolVariant::DefaultExport) <==> self.nodes@[i].name@.len() == 0)
        &&& forall|i: int|
            0 <= i < self.nodes@.len() ==> ((#[trigger] self.nodes@[i]).variant
                == SymbolVariant::NamedExport ==> self.nodes@[i].name@ != anon_default_name())
    }

    pub fn new(resolver: PathResolver) -> (r: Self)
        ensures
            r.wf(),
            r.resolver == resolver,
            r.state().0 =~= Seq::<Seq<char>>::empty(),
            r.state().1 =~= Seq::<NodeKey>::empty(),
            r.state().2 =~= Seq::<(int, int)>::empty(),
    {
        let g = DependOnGraph { resolver, modules: Vec::new(), nodes: Vec::new(), edges: Vec::new() };
        proof {
            assert(g.modules_view() =~= Seq::<Seq<char>>::empty());
            assert(g.keys() =~= Seq::<NodeKey>::empty());
            assert(g.edges_view() =~= Seq::<(int, int)>::empty());
        }
        g
    }

    /// Id of the module at `path`, creating the module on first sight.
    pub fn get_or_create_module(&mut self, path: &String) -> (id: usize)
        requires
            old(self).wf(),
        ensures
            final(self).wf(),
            final(self).resolver == old(self).resolver,
            final(self).state() == s_module(old(self).state(), path@).0,
            id as int == s_module(old(self).state(), path@).1,
            final(self).nodes == old(self).nodes,
            final(self).edges == old(self).edges,
            id < final(self).modules@.len(),
    {
        let ghost st0 = self.state();
        let mut i: usize = 0;
        while i < self.modules.len()
            invariant
                *self == *old(self),
                old(self).wf(),
                0 <= i <= self.modules.len(),
                forall|j: int| 0 <= j < i ==> self.modules_view()[j] != path@,
            decreases self.modules.len() - i,
        {
            if string_eq(&self.modules[i], path) {
                proof {
                    assert(self.modules_view()[i as int] == path@);
                    lemma_seq_index_of_first(self.modules_view(), path@, i as int);
                }
                return i;
            }
            i += 1;
        }
        proof {
            lemma_seq_index_of(self.modules_view(), path@);
            if seq_index_of(self.modules_view(), path@) >= 0 {
                let w = seq_index_of(self.modules_view(), path@);
                assert(self.modules_view()[w] == path@);
                assert(false);
            }
        }
        let id = self.modules.len();
        self.modules.push(path.clone());
        proof {
            assert(self.modules_view() =~= st0.0.push(path@));
            assert forall|a: int, b: int|
                0 <= a < b < self.modules_view().len() implies self.modules_view()[a]
                != self.modules_view()[b] by {
                if b < st0.0.len() {
                } else {
                    lemma_seq_index_of(st0.0, path@);
                    assert(!st0.0.contains(self.modules_view()[b]));
                }
            }
        }
        id
    }

    /// Id of the node `(module_id, variant, name)`, creating it on first
    /// sight. The naming discipline of the variant is required, so the
    /// node-shape invariants are preserved.
    pub fn get_or_create_symbol(&mut self, module_id: usize, variant: SymbolVariant, name: &String) -> (id:
        usize)
        requires
            old(self).wf(),
            module_id < old(self).modules@.len(),
            variant == SymbolVariant::DefaultExport <==> name@.len() == 0,
            variant == SymbolVariant::NamedExport ==> name@ != anon_default_name(),
        ensures
            final(self).wf(),
            final(self).resolver == old(self).resolver,
            final(self).state() == s_node(
                old(self).state(),
                (module_id as int, variant, name@),
            ).0,
            id as int == s_node(old(self).state(), (module_id as int, variant, name@)).1,
            final(self).modules == old(self).modules,
            final(self).edges == old(self).edges,
            id < final(self).nodes@.len(),
    {
        let ghost st0 = self.state();
        let ghost k: NodeKey = (module_id as int, variant, name@);
        let mut i: usize = 0;
        while i < self.nodes.len()
            invariant
                *self == *old(self),
                old(self).wf(),
                0 <= i <= self.nodes.len(),
                k == (module_id as int, variant, name@),
                forall|j: int| 0 <= j < i ==> self.keys()[j] != k,
            decreases self.nodes.len() - i,
        {
            let n = &self.nodes[i];
            if n.module_id == module_id && n.variant == variant && string_eq(&n.name, name) {
                proof {
                    assert(self.keys()[i as int] == k);
                    lemma_seq_index_of_first(self.keys(), k, i as int);
                }
                return i;
            }
            proof {
                assert(self.keys()[i as int] != k);
            }
            i += 1;
        }
        proof {
            lemma_seq_index_of(self.keys(), k);
            if seq_index_of(self.keys(), k) >= 0 {
                let w = seq_index_of(self.keys(), k);
                assert(self.keys()[w] == k);
                assert(false);
            }
        }
        let id = self.nodes.len();
        self.nodes.push(SymbolNode { module_id, variant, name: name.clone() });
        proof {
            assert(self.keys() =~= st0.1.push(k));
            assert(self.modules_view() =~= st0.0);
            assert(self.edges_view() =~= st0.2);
            assert forall|a: int, b: int|
                0 <= a < b < self.keys().len() implies self.keys()[a] != self.keys()[b] by {
                if b < st0.1.len() {
                } else {
                    lemma_seq_index_of(st0.1, k);
                    assert(!st0.1.contains(self.keys()[b]));
                }
            }
        }
        id
    }

    /// Record the depend-on edge `a -> b`, at most once per ordered pair.
    pub fn create_edge(&mut self, a: usize, b: usize)
        requires
            old(self).wf(),
            a < old(self).nodes@.len(),
            b < old(self).nodes@.len(),
        ensures
            final(self).wf(),
            final(self).resolver == old(self).resolver,
            final(self).state() == s_edge(old(self).state(), a as int, b as int),
            final(self).modules == old(self).modules,
            final(self).nodes == old(self).nodes,
    {
        let ghost st0 = self.state();
        let mut i: usize = 0;
        while i < self.edges.len()
            invariant
                *self == *old(self),
                old(self).wf(),
                st0 == self.state(),
                0 <= i <= self.edges.len(),
                forall|j: int| 0 <= j < i ==> self.edges_view()[j] != (a as int, b as int),
            decreases self.edges.len() - i,
        {
            let e = self.edges[i];
            if e.0 == a && e.1 == b {
                proof {
                    assert(self.edges_view()[i as int] == (a as int, b as int));
                    assert(st0.2.contains((a as int, b as int)));
                }
                return ;
            }
            proof {
                assert(self.edges_view()[i as int] != (a as int, b as int));
            }
            i += 1;
        }
        proof {
            assert forall|j: int|
                0 <= j < self.edges_view().len() implies self.edges_view()[j] != (
            a as int,
            b as int,
            ) by {}
            assert(!st0.2.contains((a as int, b as int)));
        }
        self.edges.push((a, b));
        proof {
            assert(self.edges_view() =~= st0.2.push((a as int, b as int)));
            assert(self.modules_view() =~= st0.0);
            assert(self.keys() =~= st0.1);
        }
    }
}


impl DependOnGraph {
    /// One edge from `cur` to every current `NamedExport` node of module
    /// `tid`, the reserved anonymous-default name skipped.
    fn expand_namespace(&mut self, cur: usize, tid: usize)
        requires
            old(self).wf(),
            cur < old(self).nodes@.len(),
        ensures
            final(self).wf(),
            final(self).resolver == old(self).resolver,
            final(self).state() == apply_namespace_upto(
                old(self).state(),
                cur as int,
                tid as int,
                old(self).keys().len() as int,
            ),
            final(self).nodes == old(self).nodes,
            final(self).modules == old(self).modules,
    {
        let ghost st0 = self.state();
        let total = self.nodes.len();
        let anon = anon_default_symbol_name();
        let mut k: usize = 0;
        while k < total
            invariant
                self.wf(),
                self.resolver == old(self).resolver,
                st0 == old(self).state(),
                self.nodes == old(self).nodes,
                self.modules == old(self).modules,
                total == self.nodes@.len(),
                cur < self.nodes@.len(),
                anon@ == anon_default_name(),
                0 <= k <= total,
                self.state() == apply_namespace_upto(st0, cur as int, tid as int, k as int),
            decreases total - k,
        {
            let n = &self.nodes[k];
            let hit = n.module_id == tid && n.variant == SymbolVariant::NamedExport && !string_eq(
                &n.name,
                &anon,
            );
            proof {
                assert(self.keys()[k as int] == self.nodes@[k as int].key());
                assert(st0.1[k as int] == self.keys()[k as int]);
            }
            if hit {
                self.create_edge(cur, k);
            }
            proof {
                assert(self.state() == apply_namespace_upto(
                    st0,
                    cur as int,
                    tid as int,
                    k + 1,
                ));
            }
            k += 1;
        }
    }

    /// Mirror every `NamedExport` node of module `tid` (reserved name
    /// skipped) as a `NamedExport` of module `module_id`, edged to the
    /// source node.
    fn expand_star(&mut self, module_id: usize, tid: usize)
        requires
            old(self).wf(),
            module_id < old(self).modules@.len(),
        ensures
            final(self).wf(),
            final(self).resolver == old(self).resolver,
            final(self).state() == apply_star_upto(
                old(self).state(),
                old(self).keys(),
                module_id as int,
                tid as int,
                old(self).keys().len() as int,
            ),
            final(self).modules == old(self).modules,
            old(self).nodes@.len() <= final(self).nodes@.len(),
    {
        let ghost st0 = self.state();
        let ghost orig = st0.1;
        let total = self.nodes.len();
        let anon = anon_default_symbol_name();
        let mut k: usize = 0;
        while k < total
            invariant
                self.wf(),
                self.resolver == old(self).resolver,
                st0 == old(self).state(),
                orig == st0.1,
                self.modules == old(self).modules,
                total == orig.len(),
                total <= self.nodes@.len(),
                module_id < self.modules@.len(),
                forall|j: int| 0 <= j < total ==> self.keys()[j] == orig[j],
                anon@ == anon_default_name(),
                0 <= k <= total,
                self.state() == apply_star_upto(
                    st0,
                    orig,
                    module_id as int,
                    tid as int,
                    k as int,
                ),
            decreases total - k,
        {
            let n = &self.nodes[k];
            let hit = n.module_id == tid && n.variant == SymbolVariant::NamedExport && !string_eq(
                &n.name,
                &anon,
            );
            proof {
                assert(self.keys()[k as int] == self.nodes@[k as int].key());
                assert(orig[k as int] == self.keys()[k as int]);
            }
            if hit {
                let name = self.nodes[k].name.clone();
                let ghost pre = self.keys();
                let cur = self.get_or_create_symbol(module_id, SymbolVariant::NamedExport, &name);
                proof {
                    assert forall|j: int| 0 <= j < total implies self.keys()[j] == orig[j] by {
                        if seq_index_of(pre, (module_id as int, SymbolVariant::NamedExport, name@))
                            < 0 {
                            assert(self.keys() == pre.push(
                                (module_id as int, SymbolVariant::NamedExport, name@),
                            ));
                        }
                    }
                }
                self.create_edge(cur, k);
            }
            proof {
                assert(self.state() == apply_star_upto(
                    st0,
                    orig,
                    module_id as int,
                    tid as int,
                    k + 1,
                ));
            }
            k += 1;
        }
    }

    /// Resolve `f.from` and link `cur` to the target per the form; an
    /// unresolvable specifier is dropped silently.
    fn link_from_other(&mut self, current_path: &String, cur: usize, f: &FromOtherModule)
        requires
            old(self).wf(),
            cur < old(self).nodes@.len(),
            f.from_type.wf(),
        ensures
            final(self).wf(),
            final(self).resolver == old(self).resolver,
            final(self).state() == apply_from_other(
                old(self).state(),
                old(self).resolver.files_view(),
                current_path@,
                cur as int,
                *f,
            ),
            old(self).nodes@.len() <= final(self).nodes@.len(),
            old(self).modules@.len() <= final(self).modules@.len(),
    {
        let ghost st0 = self.state();
        let ghost files = self.resolver.files_view();
        match self.resolver.resolve_path(current_path.as_str(), f.from.as_str()) {
            Err(_) => {
                proof {
                    assert(resolve_chars(files, current_path@, f.from@) is None);
                }
            },
            Ok(t) => {
                proof {
                    vstd::utf8::encode_utf8_decode_utf8(t@);
                    assert(resolve_chars(files, current_path@, f.from@) == Some(t@));
                }
                let tid = self.get_or_create_module(&t);
                match &f.from_type {
                    FromType::Named(n) => {
                        let nn = self.get_or_create_symbol(tid, SymbolVariant::NamedExport, n);
                        self.create_edge(cur, nn);
                    },
                    FromType::Default => {
                        let empty = String::new();
                        let dn = self.get_or_create_symbol(tid, SymbolVariant::DefaultExport, &empty);
                        self.create_edge(cur, dn);
                    },
                    FromType::Namespace => {
                        self.expand_namespace(cur, tid);
                    },
                }
            },
        }
    }
}

/// Resolution at the character level: the canonical path a specifier
/// written in `cur` points at, if it resolves.
pub open spec fn resolve_chars(files: Seq<Seq<u8>>, cur: Seq<char>, sp: Seq<char>) -> Option<
    Seq<char>,
> {
    match resolve_spec(files, view_bytes(cur), view_bytes(sp)) {
        None => None,
        Some(b) => Some(vstd::utf8::decode_utf8(b)),
    }
}

/// Node and edge for a `Named(n)` dependency on module `tid`.
pub open spec fn apply_named(st: GraphState, cur: int, tid: int, n: Seq<char>) -> GraphState {
    let r = s_node(st, (tid, SymbolVariant::NamedExport, n));
    s_edge(r.0, cur, r.1)
}

/// Node and edge for a `Default` dependency on module `tid`.
pub open spec fn apply_default_edge(st: GraphState, cur: int, tid: int) -> GraphState {
    let r = s_node(st, (tid, SymbolVariant::DefaultExport, Seq::<char>::empty()));
    s_edge(r.0, cur, r.1)
}

/// Namespace expansion: one edge from `cur` to every current `NamedExport`
/// node of module `tid` below `bound`, skipping the reserved
/// anonymous-default name.
pub open spec fn apply_namespace_upto(st: GraphState, cur: int, tid: int, bound: int) -> GraphState
    decreases bound,
{
    if bound <= 0 {
        st
    } else {
        let s1 = apply_namespace_upto(st, cur, tid, bound - 1);
        let k = st.1[bound - 1];
        if k.0 == tid && k.1 == SymbolVariant::NamedExport && k.2 != anon_default_name() {
            s_edge(s1, cur, bound - 1)
        } else {
            s1
        }
    }
}

/// A dependency of node `cur` in module at `path` on another module,
/// described by `f`: resolve the specifier (dropping it silently on
/// failure), then link per the form.
pub open spec fn apply_from_other(
    st: GraphState,
    files: Seq<Seq<u8>>,
    path: Seq<char>,
    cur: int,
    f: FromOtherModule,
) -> GraphState {
    match resolve_chars(files, path, f.from@) {
        None => st,
        Some(t) => {
            let r = s_module(st, t);
            match f.from_type {
                FromType::Named(n) => apply_named(r.0, cur, r.1, n@),
                FromType::Default => apply_default_edge(r.0, cur, r.1),
                FromType::Namespace => apply_namespace_upto(r.0, cur, r.1, r.0.1.len() as int),
            }
        },
    }
}

/// Edges from a local symbol to the locals it depends on.
pub open spec fn apply_depend_on_upto(
    st: GraphState,
    mid: int,
    cur: int,
    ds: Seq<String>,
    bound: int,
) -> GraphState
    decreases bound,
{
    if bound <= 0 {
        st
    } else {
        let s1 = apply_depend_on_upto(st, mid, cur, ds, bound - 1);
        let r = s_node(s1, (mid, SymbolVariant::LocalVariable, ds[bound - 1]@));
        s_edge(r.0, cur, r.1)
    }
}

/// One entry of the local-variable table.
pub open spec fn apply_local_entry(
    st: GraphState,
    files: Seq<Seq<u8>>,
    path: Seq<char>,
    mid: int,
    name: Seq<char>,
    v: ModuleScopedVariable,
) -> GraphState {
    let r = s_node(st, (mid, SymbolVariant::LocalVariable, name));
    let s2 = match v.depend_on {
        Some(ds) => apply_depend_on_upto(r.0, mid, r.1, ds@, ds@.len() as int),
        None => r.0,
    };
    match v.import_from {
        Some(f) => apply_from_other(s2, files, path, r.1, f),
        None => s2,
    }
}

/// The whole local-variable table, first entry first.
pub open spec fn apply_locals_upto(
    st: GraphState,
    files: Seq<Seq<u8>>,
    path: Seq<char>,
    mid: int,
    entries: Seq<(String, ModuleScopedVariable)>,
    bound: int,
) -> GraphState
    decreases bound,
{
    if bound <= 0 {
        st
    } else {
        let s1 = apply_locals_upto(st, files, path, mid, entries, bound - 1);
        apply_local_entry(s1, files, path, mid, entries[bound - 1].0@, entries[bound - 1].1)
    }
}

/// One entry of the named-export table.
pub open spec fn apply_export_entry(
    st: GraphState,
    files: Seq<Seq<u8>>,
    path: Seq<char>,
    mid: int,
    name: Seq<char>,
    e: ModuleExport,
) -> GraphState {
    let r = s_node(st, (mid, SymbolVariant::NamedExport, name));
    match e {
        ModuleExport::Local(n) => {
            let t = s_node(r.0, (mid, SymbolVariant::LocalVariable, n@));
            s_edge(t.0, r.1, t.1)
        },
        ModuleExport::ReExportFrom(f) => apply_from_other(r.0, files, path, r.1, f),
    }
}

/// The whole named-export table, first entry first.
pub open spec fn apply_exports_upto(
    st: GraphState,
    files: Seq<Seq<u8>>,
    path: Seq<char>,
    mid: int,
    entries: Seq<(String, ModuleExport)>,
    bound: int,
) -> GraphState
    decreases bound,
{
    if bound <= 0 {
        st
    } else {
        let s1 = apply_exports_upto(st, files, path, mid, entries, bound - 1);
        apply_export_entry(s1, files, path, mid, entries[bound - 1].0@, entries[bound - 1].1)
    }
}

/// The default export, if any.
pub open spec fn apply_default_export(
    st: GraphState,
    files: Seq<Seq<u8>>,
    path: Seq<char>,
    mid: int,
    d: Option<ModuleExport>,
) -> GraphState {
    match d {
        None => st,
        Some(e) => {
            let r = s_node(st, (mid, SymbolVariant::DefaultExport, Seq::<char>::empty()));
            match e {
                ModuleExport::Local(n) => {
                    let t = s_node(r.0, (mid, SymbolVariant::LocalVariable, n@));
                    s_edge(t.0, r.1, t.1)
                },
                ModuleExport::ReExportFrom(f) => apply_from_other(r.0, files, path, r.1, f),
            }
        },
    }
}

/// Star re-export from module `tid`: for each of its `NamedExport` nodes
/// below `bound` (reserved anonymous-default name skipped), mirror a
/// `NamedExport` node on module `mid` and edge it to the source node.
pub open spec fn apply_star_upto(
    st: GraphState,
    orig: Seq<NodeKey>,
    mid: int,
    tid: int,
    bound: int,
) -> GraphState
    decreases bound,
{
    if bound <= 0 {
        st
    } else {
        let s1 = apply_star_upto(st, orig, mid, tid, bound - 1);
        let k = orig[bound - 1];
        if k.0 == tid && k.1 == SymbolVariant::NamedExport && k.2 != anon_default_name() {
            let r = s_node(s1, (mid, SymbolVariant::NamedExport, k.2));
            s_edge(r.0, r.1, bound - 1)
        } else {
            s1
        }
    }
}

/// One star re-export specifier.
pub open spec fn apply_star_from(
    st: GraphState,
    files: Seq<Seq<u8>>,
    path: Seq<char>,
    mid: int,
    sp: Seq<char>,
) -> GraphState {
    match resolve_chars(files, path, sp) {
        None => st,
        Some(t) => {
            let r = s_module(st, t);
            apply_star_upto(r.0, r.0.1, mid, r.1, r.0.1.len() as int)
        },
    }
}

/// The whole star re-export list, in written order.
pub open spec fn apply_stars_upto(
    st: GraphState,
    files: Seq<Seq<u8>>,
    path: Seq<char>,
    mid: int,
    list: Seq<String>,
    bound: int,
) -> GraphState
    decreases bound,
{
    if bound <= 0 {
        st
    } else {
        let s1 = apply_stars_upto(st, files, path, mid, list, bound - 1);
        apply_star_from(s1, files, path, mid, list[bound - 1]@)
    }
}

/// What one `SymbolDependency` record adds to the graph: the module, then
/// the four entry points in fixed order.
pub open spec fn apply_record(st: GraphState, files: Seq<Seq<u8>>, rec: SymbolDependency) -> GraphState {
    let r = s_module(st, rec.canonical_path@);
    let s1 = apply_locals_upto(
        r.0,
        files,
        rec.canonical_path@,
        r.1,
        rec.local_variable_table@,
        rec.local_variable_table@.len() as int,
    );
    let s2 = apply_exports_upto(
        s1,
        files,
        rec.canonical_path@,
        r.1,
        rec.named_export_table@,
        rec.named_export_table@.len() as int,
    );
    let s3 = apply_default_export(s2, files, rec.canonical_path@, r.1, rec.default_export);
    match rec.re_export_star_from {
        Some(l) => apply_stars_upto(s3, files, rec.canonical_path@, r.1, l@, l@.len() as int),
        None => s3,
    }
}


impl DependOnGraph {
    /// Entry point 1: the local-variable table. Each local becomes a node;
    /// edges go to the locals it depends on and to its import source.
    pub fn handle_local_variable_table(&mut self, module_id: usize, rec: &SymbolDependency)
        requires
            old(self).wf(),
            rec.wf(),
            module_id < old(self).modules@.len(),
        ensures
            final(self).wf(),
            final(self).resolver == old(self).resolver,
            final(self).state() == apply_locals_upto(
                old(self).state(),
                old(self).resolver.files_view(),
                rec.canonical_path@,
                module_id as int,
                rec.local_variable_table@,
                rec.local_variable_table@.len() as int,
            ),
            old(self).modules@.len() <= final(self).modules@.len(),
            old(self).nodes@.len() <= final(self).nodes@.len(),
    {
        let ghost st0 = self.state();
        let ghost files = self.resolver.files_view();
        let ghost path = rec.canonical_path@;
        let ghost mid = module_id as int;
        let ghost entries = rec.local_variable_table@;
        let mut i: usize = 0;
        while i < rec.local_variable_table.len()
            invariant
                self.wf(),
                self.resolver == old(self).resolver,
                st0 == old(self).state(),
                files == self.resolver.files_view(),
                path == rec.canonical_path@,
                mid == module_id as int,
                entries == rec.local_variable_table@,
                rec.wf(),
                module_id < self.modules@.len(),
                old(self).modules@.len() <= self.modules@.len(),
                old(self).nodes@.len() <= self.nodes@.len(),
                0 <= i <= entries.len(),
                self.state() == apply_locals_upto(st0, files, path, mid, entries, i as int),
            decreases entries.len() - i,
        {
            let name = &rec.local_variable_table[i].0;
            let var = &rec.local_variable_table[i].1;
            proof {
                assert(rec.local_names()[i as int] == name@);
            }
            let ghost s_in = self.state();
            let cur = self.get_or_create_symbol(module_id, SymbolVariant::LocalVariable, name);
            match &var.depend_on {
                Some(ds) => {
                    let ghost s_dep0 = self.state();
                    let ghost dsv = ds@;
                    let mut j: usize = 0;
                    while j < ds.len()
                        invariant
                            self.wf(),
                            self.resolver == old(self).resolver,
                            s_dep0 == s_node(s_in, (mid, SymbolVariant::LocalVariable, name@)).0,
                            dsv == ds@,
                            rec.wf(),
                            entries == rec.local_variable_table@,
                            0 <= i < entries.len(),
                            entries[i as int].1.depend_on == Some(*ds),
                            mid == module_id as int,
                            module_id < self.modules@.len(),
                            old(self).modules@.len() <= self.modules@.len(),
                            old(self).nodes@.len() <= self.nodes@.len(),
                            cur < self.nodes@.len(),
                            cur as int == s_node(
                                s_in,
                                (mid, SymbolVariant::LocalVariable, name@),
                            ).1,
                            0 <= j <= dsv.len(),
                            self.state() == apply_depend_on_upto(
                                s_dep0,
                                mid,
                                cur as int,
                                dsv,
                                j as int,
                            ),
                        decreases dsv.len() - j,
                    {
                        let d = &ds[j];
                        proof {
                            let locals = rec.local_names();
                            assert(entries[i as int].1.wf(locals));
                            let dd = entries[i as int].1.depend_on->Some_0;
                            assert(dd == *ds);
                            assert(locals.contains(dd@[j as int]@));
                            assert(d@ == dd@[j as int]@);
                            assert(locals.contains(d@));
                            let w = choose|w: int| 0 <= w < locals.len() && locals[w] == d@;
                            assert(locals[w].len() > 0);
                        }
                        let t = self.get_or_create_symbol(
                            module_id,
                            SymbolVariant::LocalVariable,
                            d,
                        );
                        self.create_edge(cur, t);
                        j += 1;
                    }
                },
                None => {},
            }
            match &var.import_from {
                Some(f) => {
                    proof {
                        assert(entries[i as int].1.wf(rec.local_names()));
                    }
                    self.link_from_other(&rec.canonical_path, cur, f);
                },
                None => {},
            }
            proof {
                assert(self.state() == apply_local_entry(
                    s_in,
                    files,
                    path,
                    mid,
                    entries[i as int].0@,
                    entries[i as int].1,
                ));
                assert(self.state() == apply_locals_upto(st0, files, path, mid, entries, i + 1));
            }
            i += 1;
        }
    }

    /// Entry point 2: the named-export table. Each export becomes a node;
    /// an export of a local edges to that local, a re-export to its source.
    pub fn handle_named_export_table(&mut self, module_id: usize, rec: &SymbolDependency)
        requires
            old(self).wf(),
            rec.wf(),
            module_id < old(self).modules@.len(),
        ensures
            final(self).wf(),
            final(self).resolver == old(self).resolver,
            final(self).state() == apply_exports_upto(
                old(self).state(),
                old(self).resolver.files_view(),
                rec.canonical_path@,
                module_id as int,
                rec.named_export_table@,
                rec.named_export_table@.len() as int,
            ),
            old(self).modules@.len() <= final(self).modules@.len(),
            old(self).nodes@.len() <= final(self).nodes@.len(),
    {
        let ghost st0 = self.state();
        let ghost files = self.resolver.files_view();
        let ghost path = rec.canonical_path@;
        let ghost mid = module_id as int;
        let ghost entries = rec.named_export_table@;
        let mut i: usize = 0;
        while i < rec.named_export_table.len()
            invariant
                self.wf(),
                self.resolver == old(self).resolver,
                st0 == old(self).state(),
                files == self.resolver.files_view(),
                path == rec.canonical_path@,
                mid == module_id as int,
                entries == rec.named_export_table@,
                rec.wf(),
                module_id < self.modules@.len(),
                old(self).modules@.len() <= self.modules@.len(),
                old(self).nodes@.len() <= self.nodes@.len(),
                0 <= i <= entries.len(),
                self.state() == apply_exports_upto(st0, files, path, mid, entries, i as int),
            decreases entries.len() - i,
        {
            let name = &rec.named_export_table[i].0;
            let exp = &rec.named_export_table[i].1;
            proof {
                assert(rec.export_names()[i as int] == name@);
                assert(entries[i as int].1.wf());
            }
            let ghost s_in = self.state();
            let cur = self.get_or_create_symbol(module_id, SymbolVariant::NamedExport, name);
            match exp {
                ModuleExport::Local(n) => {
                    let t = self.get_or_create_symbol(module_id, SymbolVariant::LocalVariable, n);
                    self.create_edge(cur, t);
                },
                ModuleExport::ReExportFrom(f) => {
                    self.link_from_other(&rec.canonical_path, cur, f);
                },
            }
            proof {
                assert(self.state() == apply_export_entry(
                    s_in,
                    files,
                    path,
                    mid,
                    entries[i as int].0@,
                    entries[i as int].1,
                ));
                assert(self.state() == apply_exports_upto(st0, files, path, mid, entries, i + 1));
            }
            i += 1;
        }
    }

    /// Entry point 3: the default export, if any. The `DefaultExport` node
    /// carries the empty name; a namespace re-export as default is
    /// statically impossible in a well-formed record.
    pub fn handle_default_export(&mut self, module_id: usize, rec: &SymbolDependency)
        requires
            old(self).wf(),
            rec.wf(),
            module_id < old(self).modules@.len(),
        ensures
            final(self).wf(),
            final(self).resolver == old(self).resolver,
            final(self).state() == apply_default_export(
                old(self).state(),
                old(self).resolver.files_view(),
                rec.canonical_path@,
                module_id as int,
                rec.default_export,
            ),
            old(self).modules@.len() <= final(self).modules@.len(),
            old(self).nodes@.len() <= final(self).nodes@.len(),
    {
        match &rec.default_export {
            None => {},
            Some(e) => {
                let empty = String::new();
                let cur = self.get_or_create_symbol(module_id, SymbolVariant::DefaultExport, &empty);
                match e {
                    ModuleExport::Local(n) => {
                        let t = self.get_or_create_symbol(
                            module_id,
                            SymbolVariant::LocalVariable,
                            n,
                        );
                        self.create_edge(cur, t);
                    },
                    ModuleExport::ReExportFrom(f) => {
                        self.link_from_other(&rec.canonical_path, cur, f);
                    },
                }
            },
        }
    }

    /// Entry point 4: star re-exports, in written order. Each resolved
    /// target's named exports are mirrored onto this module; unresolvable
    /// specifiers are dropped silently.
    pub fn handle_re_export_star_from(&mut self, module_id: usize, rec: &SymbolDependency)
        requires
            old(self).wf(),
            rec.wf(),
            module_id < old(self).modules@.len(),
        ensures
            final(self).wf(),
            final(self).resolver == old(self).resolver,
            final(self).state() == match rec.re_export_star_from {
                Some(l) => apply_stars_upto(
                    old(self).state(),
                    old(self).resolver.files_view(),
                    rec.canonical_path@,
                    module_id as int,
                    l@,
                    l@.len() as int,
                ),
                None => old(self).state(),
            },
            old(self).modules@.len() <= final(self).modules@.len(),
            old(self).nodes@.len() <= final(self).nodes@.len(),
    {
        let ghost st0 = self.state();
        let ghost files = self.resolver.files_view();
        let ghost path = rec.canonical_path@;
        let ghost mid = module_id as int;
        match &rec.re_export_star_from {
            None => {},
            Some(list) => {
                let ghost lv = list@;
                let mut i: usize = 0;
                while i < list.len()
                    invariant
                        self.wf(),
                        self.resolver == old(self).resolver,
                        st0 == old(self).state(),
                        files == self.resolver.files_view(),
                        path == rec.canonical_path@,
                        mid == module_id as int,
                        lv == list@,
                        module_id < self.modules@.len(),
                        old(self).modules@.len() <= self.modules@.len(),
                old(self).nodes@.len() <= self.nodes@.len(),
                        0 <= i <= lv.len(),
                        self.state() == apply_stars_upto(st0, files, path, mid, lv, i as int),
                    decreases lv.len() - i,
                {
                    let sp = &list[i];
                    let ghost s_in = self.state();
                    match self.resolver.resolve_path(rec.canonical_path.as_str(), sp.as_str()) {
                        Err(_) => {
                            proof {
                                assert(resolve_chars(files, path, sp@) is None);
                            }
                        },
                        Ok(t) => {
                            proof {
                                vstd::utf8::encode_utf8_decode_utf8(t@);
                                assert(resolve_chars(files, path, sp@) == Some(t@));
                            }
                            let tid = self.get_or_create_module(&t);
                            self.expand_star(module_id, tid);
                        },
                    }
                    proof {
                        assert(self.state() == apply_star_from(s_in, files, path, mid, lv[i as int]@));
                        assert(self.state() == apply_stars_upto(st0, files, path, mid, lv, i + 1));
                    }
                    i += 1;
                }
            },
        }
    }

    /// Fold one module record into the graph: create the module, then run
    /// the four entry points in fixed order.
    pub fn add_symbol_dependency(&mut self, rec: &SymbolDependency)
        requires
            old(self).wf(),
            rec.wf(),
        ensures
            final(self).wf(),
            final(self).resolver == old(self).resolver,
            final(self).state() == apply_record(
                old(self).state(),
                old(self).resolver.files_view(),
                *rec,
            ),
    {
        let mid = self.get_or_create_module(&rec.canonical_path);
        self.handle_local_variable_table(mid, rec);
        self.handle_named_export_table(mid, rec);
        self.handle_default_export(mid, rec);
        self.handle_re_export_star_from(mid, rec);
    }
}


impl DependOnGraph {
    /// Id of the node `(module_id, variant, name)`, without creating it.
    pub fn find_symbol(&self, module_id: usize, variant: SymbolVariant, name: &String) -> (r:
        Option<usize>)
        ensures
            match r {
                Some(id) => seq_index_of(self.keys(), (module_id as int, variant, name@))
                    == id as int && id < self.nodes@.len(),
                None => seq_index_of(self.keys(), (module_id as int, variant, name@)) == -1,
            },
    {
        let ghost k: NodeKey = (module_id as int, variant, name@);
        let mut i: usize = 0;
        while i < self.nodes.len()
            invariant
                k == (module_id as int, variant, name@),
                0 <= i <= self.nodes@.len(),
                forall|j: int| 0 <= j < i ==> self.keys()[j] != k,
            decreases self.nodes@.len() - i,
        {
            let n = &self.nodes[i];
            if n.module_id == module_id && n.variant == variant && string_eq(&n.name, name) {
                proof {
                    assert(self.keys()[i as int] == k);
                    lemma_seq_index_of_first(self.keys(), k, i as int);
                }
                return Some(i);
            }
            proof {
                assert(self.keys()[i as int] != k);
            }
            i += 1;
        }
        proof {
            lemma_seq_index_of(self.keys(), k);
            if seq_index_of(self.keys(), k) >= 0 {
                let w = seq_index_of(self.keys(), k);
                assert(self.keys()[w] == k);
                assert(false);
            }
        }
        None
    }
}


/// An unresolvable specifier is dropped silently: it adds no node and no
/// edge, whether it stood in an import, a re-export, or a star re-export.
pub proof fn lemma_unresolved_specifier_adds_nothing(
    st: GraphState,
    files: Seq<Seq<u8>>,
    path: Seq<char>,
    cur: int,
    f: FromOtherModule,
    sp: Seq<char>,
)
    requires
        resolve_chars(files, path, f.from@) is None,
        resolve_chars(files, path, sp) is None,
    ensures
        apply_from_other(st, files, path, cur, f) == st,
        apply_star_from(st, files, path, cur, sp) == st,
{
}

} // verus!
