//! The relational materializer: project the per-module records and the
//! overlays into the relational schema. Modules, symbols and symbol
//! dependencies are the graph arena itself (id = row id); translations,
//! translation usages, routes and route usages accumulate here as rows for
//! the persistence back-end to write.

use vstd::prelude::*;
use crate::ast::{ModuleAst, ModuleItem};
use crate::bytes::string_eq;
use crate::graph::{apply_record, seq_index_of, s_module, DependOnGraph, GraphState, NodeKey};
use crate::i18n::usage_upto;
use crate::model::{SymbolDependency, SymbolVariant};
use crate::path_resolver::PathResolver;
use crate::route::{routes_ok, routes_upto, Route};

verus! {

/// A fatal overlay inconsistency: an i18n or route entry references a name
/// the module does not declare.
#[derive(PartialEq, Eq, Structural, Clone, Copy, Debug)]
pub enum OverlayError {
    UnknownSymbolForOverlay,
}

/// Keys of a translation table.
pub open spec fn tkeys(tv: Seq<(Seq<char>, Seq<char>)>) -> Seq<Seq<char>> {
    tv.map_values(|p: (Seq<char>, Seq<char>)| p.0)
}

/// Fold translations in: the first value stored under a key wins.
pub open spec fn tr_upto(
    tv: Seq<(Seq<char>, Seq<char>)>,
    entries: Seq<(String, String)>,
    bound: int,
) -> Seq<(Seq<char>, Seq<char>)>
    decreases bound,
{
    if bound <= 0 {
        tv
    } else {
        let acc = tr_upto(tv, entries, bound - 1);
        let e = entries[bound - 1];
        if tkeys(acc).contains(e.0@) {
            acc
        } else {
            acc.push((e.0@, e.1@))
        }
    }
}

/// Usage rows for one symbol's keys: known keys link, unknown keys are
/// dropped silently.
pub open spec fn usage_pairs_upto(
    tks: Seq<Seq<char>>,
    sid: int,
    ks: Seq<Seq<char>>,
    bound: int,
) -> Seq<(int, int)>
    decreases bound,
{
    if bound <= 0 {
        Seq::empty()
    } else {
        let acc = usage_pairs_upto(tks, sid, ks, bound - 1);
        let t = seq_index_of(tks, ks[bound - 1]);
        if t >= 0 {
            acc.push((t, sid))
        } else {
            acc
        }
    }
}

/// Fold a module's i18n usage into translation-usage rows: the additions
/// made, and whether every referenced symbol exists (the fold stops at the
/// first that does not).
pub open spec fn i18n_upto(
    keys: Seq<NodeKey>,
    mid: int,
    tks: Seq<Seq<char>>,
    usage: Seq<(Seq<char>, Seq<Seq<char>>)>,
    bound: int,
) -> (Seq<(int, int)>, bool)
    decreases bound,
{
    if bound <= 0 {
        (Seq::empty(), true)
    } else {
        let acc = i18n_upto(keys, mid, tks, usage, bound - 1);
        if !acc.1 {
            acc
        } else {
            let u = usage[bound - 1];
            let sid = seq_index_of(keys, (mid, SymbolVariant::LocalVariable, u.0));
            if sid < 0 {
                (acc.0, false)
            } else {
                (acc.0 + usage_pairs_upto(tks, sid, u.1, u.1.len() as int), true)
            }
        }
    }
}

/// Usage rows for one route's targets: a missing target stops the fold.
pub open spec fn targets_upto(
    keys: Seq<NodeKey>,
    mid: int,
    rid: int,
    ts: Seq<Seq<char>>,
    bound: int,
) -> (Seq<(int, int)>, bool)
    decreases bound,
{
    if bound <= 0 {
        (Seq::empty(), true)
    } else {
        let acc = targets_upto(keys, mid, rid, ts, bound - 1);
        if !acc.1 {
            acc
        } else {
            let sid = seq_index_of(keys, (mid, SymbolVariant::LocalVariable, ts[bound - 1]));
            if sid < 0 {
                (acc.0, false)
            } else {
                (acc.0.push((rid, sid)), true)
            }
        }
    }
}

/// Fold a module's routes into route rows and route-usage rows.
pub open spec fn routes_fold_upto(
    keys: Seq<NodeKey>,
    mid: int,
    st: (Seq<Seq<char>>, Seq<(int, int)>),
    rl: Seq<(Seq<char>, Seq<Seq<char>>)>,
    bound: int,
) -> ((Seq<Seq<char>>, Seq<(int, int)>), bool)
    decreases bound,
{
    if bound <= 0 {
        (st, true)
    } else {
        let acc = routes_fold_upto(keys, mid, st, rl, bound - 1);
        if !acc.1 {
            acc
        } else {
            let r = rl[bound - 1];
            let rid = acc.0.0.len() as int;
            let tr = targets_upto(keys, mid, rid, r.1, r.1.len() as int);
            (((acc.0.0.push(r.0), acc.0.1 + tr.0)), tr.1)
        }
    }
}

/// The in-memory rows of one analyzed project.
pub struct Project {
    pub project_name: String,
    pub project_root: String,
    pub graph: DependOnGraph,
    pub translations: Vec<(String, String)>,
    pub translation_usages: Vec<(usize, usize)>,
    pub routes: Vec<String>,
    pub route_usages: Vec<(usize, usize)>,
}

impl Project {
    pub open spec fn translations_view(&self) -> Seq<(Seq<char>, Seq<char>)> {
        self.translations@.map_values(|p: (String, String)| (p.0@, p.1@))
    }

    pub open spec fn t_usages_view(&self) -> Seq<(int, int)> {
        self.translation_usages@.map_values(|p: (usize, usize)| (p.0 as int, p.1 as int))
    }

    pub open spec fn routes_rows_view(&self) -> Seq<Seq<char>> {
        self.routes@.map_values(|p: String| p@)
    }

    pub open spec fn r_usages_view(&self) -> Seq<(int, int)> {
        self.route_usages@.map_values(|p: (usize, usize)| (p.0 as int, p.1 as int))
    }

    /// All row ids in range.
    pub open spec fn wf(&self) -> bool {
        &&& self.graph.wf()
        &&& forall|i: int, j: int|
            0 <= i < j < self.translations@.len() ==> (#[trigger] self.translations@[i]).0@ != (
            #[trigger] self.translations@[j]).0@
        &&& forall|i: int|
            0 <= i < self.translation_usages@.len() ==> (#[trigger] self.translation_usages@[i]).0
                < self.translations@.len() && self.translation_usages@[i].1
                < self.graph.nodes@.len()
        &&& forall|i: int|
            0 <= i < self.route_usages@.len() ==> (#[trigger] self.route_usages@[i]).0
                < self.routes@.len() && self.route_usages@[i].1 < self.graph.nodes@.len()
    }

    /// A fresh project over the discovered files.
    pub fn new(project_name: &str, project_root: &str, files: Vec<String>) -> (r: Self)
        ensures
            r.wf(),
            r.project_name@ == project_name@,
            r.project_root@ == project_root@,
            r.graph.resolver.files == files,
            r.graph.state().0 =~= Seq::<Seq<char>>::empty(),
            r.graph.state().1 =~= Seq::<NodeKey>::empty(),
            r.graph.state().2 =~= Seq::<(int, int)>::empty(),
            r.translations@.len() == 0,
            r.translation_usages@.len() == 0,
            r.routes@.len() == 0,
            r.route_usages@.len() == 0,
    {
        let resolver = PathResolver::new(files);
        let graph = DependOnGraph::new(resolver);
        Project {
            project_name: project_name.to_owned(),
            project_root: project_root.to_owned(),
            graph,
            translations: Vec::new(),
            translation_usages: Vec::new(),
            routes: Vec::new(),
            route_usages: Vec::new(),
        }
    }

    /// Fold one module record into the rows; returns the module's row id.
    pub fn add_module(&mut self, symbol_dependency: &SymbolDependency) -> (mid: usize)
        requires
            old(self).wf(),
            symbol_dependency.wf(),
        ensures
            final(self).wf(),
            final(self).graph.resolver == old(self).graph.resolver,
            final(self).graph.state() == apply_record(
                old(self).graph.state(),
                old(self).graph.resolver.files_view(),
                *symbol_dependency,
            ),
            mid as int == s_module(old(self).graph.state(), symbol_dependency.canonical_path@).1,
            final(self).translations == old(self).translations,
            final(self).translation_usages == old(self).translation_usages,
            final(self).routes == old(self).routes,
            final(self).route_usages == old(self).route_usages,
            final(self).project_name == old(self).project_name,
            final(self).project_root == old(self).project_root,
    {
        let mid = self.graph.get_or_create_module(&symbol_dependency.canonical_path);
        self.graph.handle_local_variable_table(mid, symbol_dependency);
        self.graph.handle_named_export_table(mid, symbol_dependency);
        self.graph.handle_default_export(mid, symbol_dependency);
        self.graph.handle_re_export_star_from(mid, symbol_dependency);
        proof {
            assert forall|i: int|
                0 <= i < self.translation_usages@.len() implies (
            #[trigger] self.translation_usages@[i]).0 < self.translations@.len()
                && self.translation_usages@[i].1 < self.graph.nodes@.len() by {
                assert(old(self).translation_usages@[i].1 < old(self).graph.nodes@.len());
            }
            assert forall|i: int|
                0 <= i < self.route_usages@.len() implies (#[trigger] self.route_usages@[i]).0
                < self.routes@.len() && self.route_usages@[i].1 < self.graph.nodes@.len() by {
                assert(old(self).route_usages@[i].1 < old(self).graph.nodes@.len());
            }
            assert(self.wf());
        }
        mid
    }

    /// Load the translation table; the first value seen for a key wins.
    pub fn add_translation(&mut self, translation_json: &Vec<(String, String)>)
        requires
            old(self).wf(),
        ensures
            final(self).wf(),
            final(self).translations_view() == tr_upto(
                old(self).translations_view(),
                translation_json@,
                translation_json@.len() as int,
            ),
            final(self).graph == old(self).graph,
            final(self).translation_usages == old(self).translation_usages,
            final(self).routes == old(self).routes,
            final(self).route_usages == old(self).route_usages,
            final(self).project_name == old(self).project_name,
            final(self).project_root == old(self).project_root,
    {
        let ghost t0 = self.translations_view();
        let ghost entries = translation_json@;
        let mut i: usize = 0;
        while i < translation_json.len()
            invariant
                self.wf(),
                *self == (Project { translations: self.translations, ..*old(self) }),
                entries == translation_json@,
                0 <= i <= entries.len(),
                t0 == old(self).translations_view(),
                self.translations_view() == tr_upto(t0, entries, i as int),
            decreases entries.len() - i,
        {
            let k = &translation_json[i].0;
            let v = &translation_json[i].1;
            if !self.has_translation_key(k) {
                let ghost oldm = self.translations_view();
                let ghost oldv = self.translations@;
                self.translations.push((k.clone(), v.clone()));
                proof {
                    let m = self.translations_view();
                    assert forall|j: int| 0 <= j < m.len() implies m[j] == oldm.push((k@, v@))[j] by {
                        if j < oldm.len() {
                            assert(self.translations@[j] == oldv[j]);
                        }
                    }
                    assert(m =~= oldm.push((k@, v@)));
                    assert forall|a: int, b: int|
                        0 <= a < b < self.translations@.len() implies (
                    #[trigger] self.translations@[a]).0@ != (
                    #[trigger] self.translations@[b]).0@ by {
                        if b < oldv.len() {
                            assert(self.translations@[a] == oldv[a]);
                            assert(self.translations@[b] == oldv[b]);
                        } else {
                            assert(self.translations@[b].0@ == k@);
                            assert(self.translations@[a] == oldv[a]);
                            if oldv[a].0@ == k@ {
                                assert(tkeys(oldm)[a] == oldv[a].0@);
                                assert(tkeys(oldm).contains(k@));
                                assert(false);
                            }
                        }
                    }
                }
            } else {
                proof {
                    assert(self.translations_view() =~= tr_upto(t0, entries, i + 1));
                }
            }
            proof {
                assert(self.translations_view() =~= tr_upto(t0, entries, i + 1));
            }
            i += 1;
        }
    }

    /// Is `k` already a translation key?
    fn has_translation_key(&self, k: &String) -> (r: bool)
        ensures
            r == tkeys(self.translations_view()).contains(k@),
    {
        let ghost kv = tkeys(self.translations_view());
        let mut i: usize = 0;
        while i < self.translations.len()
            invariant
                kv == tkeys(self.translations_view()),
                kv.len() == self.translations@.len(),
                0 <= i <= kv.len(),
                forall|j: int| 0 <= j < i ==> kv[j] != k@,
            decreases kv.len() - i,
        {
            if string_eq(&self.translations[i].0, k) {
                proof {
                    assert(kv[i as int] == k@);
                }
                return true;
            }
            proof {
                assert(kv[i as int] == self.translations@[i as int].0@);
            }
            i += 1;
        }
        proof {
            if kv.contains(k@) {
                let w = choose|w: int| 0 <= w < kv.len() && kv[w] == k@;
                assert(false);
            }
        }
        false
    }

    /// First translation row id under key `k`.
    fn find_translation(&self, k: &String) -> (r: Option<usize>)
        ensures
            match r {
                Some(t) => seq_index_of(tkeys(self.translations_view()), k@) == t as int && t
                    < self.translations@.len(),
                None => seq_index_of(tkeys(self.translations_view()), k@) == -1,
            },
    {
        let ghost kv = tkeys(self.translations_view());
        let mut i: usize = 0;
        while i < self.translations.len()
            invariant
                kv == tkeys(self.translations_view()),
                kv.len() == self.translations@.len(),
                0 <= i <= kv.len(),
                forall|j: int| 0 <= j < i ==> kv[j] != k@,
            decreases kv.len() - i,
        {
            if string_eq(&self.translations[i].0, k) {
                proof {
                    assert(kv[i as int] == k@);
                    crate::graph::lemma_seq_index_of_first(kv, k@, i as int);
                }
                return Some(i);
            }
            proof {
                assert(kv[i as int] == self.translations@[i as int].0@);
            }
            i += 1;
        }
        proof {
            crate::graph::lemma_seq_index_of(kv, k@);
            if seq_index_of(kv, k@) >= 0 {
                assert(kv[seq_index_of(kv, k@)] == k@);
                assert(false);
            }
        }
        None
    }

    /// Link a module's i18n usage to its symbols: unknown translation keys
    /// are dropped, an unknown symbol is fatal and stops the fold.
    pub fn add_i18n_usage(
        &mut self,
        module_id: usize,
        i18n_usage: &Vec<(String, Vec<String>)>,
    ) -> (r: Result<(), OverlayError>)
        requires
            old(self).wf(),
        ensures
            final(self).wf(),
            ({
                let fold = i18n_upto(
                    old(self).graph.keys(),
                    module_id as int,
                    tkeys(old(self).translations_view()),
                    crate::i18n::usage_view(i18n_usage@),
                    i18n_usage@.len() as int,
                );
                &&& final(self).t_usages_view() == old(self).t_usages_view() + fold.0
                &&& (r is Ok <==> fold.1)
            }),
            final(self).graph == old(self).graph,
            final(self).translations == old(self).translations,
            final(self).routes == old(self).routes,
            final(self).route_usages == old(self).route_usages,
            final(self).project_name == old(self).project_name,
            final(self).project_root == old(self).project_root,
    {
        let ghost keys = self.graph.keys();
        let ghost tks = tkeys(self.translations_view());
        let ghost uv = crate::i18n::usage_view(i18n_usage@);
        let ghost u0 = self.t_usages_view();
        let ghost mid = module_id as int;
        let mut i: usize = 0;
        while i < i18n_usage.len()
            invariant
                self.wf(),
                *self == (Project { translation_usages: self.translation_usages, ..*old(self) }),
                keys == self.graph.keys(),
                tks == tkeys(self.translations_view()),
                uv == crate::i18n::usage_view(i18n_usage@),
                uv.len() == i18n_usage@.len(),
                u0 == old(self).t_usages_view(),
                mid == module_id as int,
                0 <= i <= uv.len(),
                i18n_upto(keys, mid, tks, uv, i as int).1,
                self.t_usages_view() == u0 + i18n_upto(keys, mid, tks, uv, i as int).0,
            decreases uv.len() - i,
        {
            let sym = &i18n_usage[i].0;
            let ks = &i18n_usage[i].1;
            proof {
                assert(uv[i as int] == (sym@, ks@.map_values(|x: String| x@)));
            }
            match self.graph.find_symbol(module_id, SymbolVariant::LocalVariable, sym) {
                None => {
                    proof {
                        assert(!i18n_upto(keys, mid, tks, uv, i + 1).1);
                        lemma_i18n_err(keys, mid, tks, uv, i + 1, uv.len() as int);
                        assert(self.t_usages_view() == u0 + i18n_upto(
                            keys,
                            mid,
                            tks,
                            uv,
                            uv.len() as int,
                        ).0);
                    }
                    return Err(OverlayError::UnknownSymbolForOverlay);
                },
                Some(sid) => {
                    let ghost ksv = ks@.map_values(|x: String| x@);
                    let ghost p0 = self.t_usages_view();
                    proof {
                        assert(uv[i as int].1 == ksv);
                    }
                    let mut k: usize = 0;
                    while k < ks.len()
                        invariant
                            self.wf(),
                            *self == (Project {
                                translation_usages: self.translation_usages,
                                ..*old(self)
                            }),
                            keys == self.graph.keys(),
                            tks == tkeys(self.translations_view()),
                            uv == crate::i18n::usage_view(i18n_usage@),
                            uv.len() == i18n_usage@.len(),
                            mid == module_id as int,
                            u0 == old(self).t_usages_view(),
                            0 <= i < uv.len(),
                            i18n_upto(keys, mid, tks, uv, i as int).1,
                            sid as int == seq_index_of(
                                keys,
                                (mid, SymbolVariant::LocalVariable, uv[i as int].0),
                            ),
                            ksv == uv[i as int].1,
                            p0 == u0 + i18n_upto(keys, mid, tks, uv, i as int).0,
                            ksv == ks@.map_values(|x: String| x@),
                            ksv.len() == ks@.len(),
                            sid < self.graph.nodes@.len(),
                            0 <= k <= ksv.len(),
                            self.t_usages_view() == p0 + usage_pairs_upto(
                                tks,
                                sid as int,
                                ksv,
                                k as int,
                            ),
                        decreases ksv.len() - k,
                    {
                        proof {
                            assert(ksv[k as int] == ks@[k as int]@);
                        }
                        match self.find_translation(&ks[k]) {
                            Some(t) => {
                                let ghost oldm = self.t_usages_view();
                                let ghost oldv = self.translation_usages@;
                                self.translation_usages.push((t, sid));
                                proof {
                                    let m = self.t_usages_view();
                                    assert forall|j: int| 0 <= j < m.len() implies m[j] == oldm.push(
                                        (t as int, sid as int),
                                    )[j] by {
                                        if j < oldm.len() {
                                            assert(self.translation_usages@[j] == oldv[j]);
                                        }
                                    }
                                    assert(m =~= oldm.push((t as int, sid as int)));
                                    assert(m =~= p0 + usage_pairs_upto(
                                        tks,
                                        sid as int,
                                        ksv,
                                        k + 1,
                                    ));
                                }
                            },
                            None => {
                                proof {
                                    assert(self.t_usages_view() =~= p0 + usage_pairs_upto(
                                        tks,
                                        sid as int,
                                        ksv,
                                        k + 1,
                                    ));
                                }
                            },
                        }
                        k += 1;
                    }
                    proof {
                        assert(self.t_usages_view() =~= u0 + i18n_upto(keys, mid, tks, uv, i + 1).0);
                    }
                },
            }
            i += 1;
        }
        Ok(())
    }

    /// Register a module's routes and link each target symbol; an unknown
    /// target is fatal and stops the fold.
    pub fn add_route_usage(&mut self, module_id: usize, route_usage: &Vec<Route>) -> (r: Result<
        (),
        OverlayError,
    >)
        requires
            old(self).wf(),
        ensures
            final(self).wf(),
            ({
                let fold = routes_fold_upto(
                    old(self).graph.keys(),
                    module_id as int,
                    (old(self).routes_rows_view(), old(self).r_usages_view()),
                    crate::route::routes_view(route_usage@),
                    route_usage@.len() as int,
                );
                &&& final(self).routes_rows_view() == fold.0.0
                &&& final(self).r_usages_view() == fold.0.1
                &&& (r is Ok <==> fold.1)
            }),
            final(self).graph == old(self).graph,
            final(self).translations == old(self).translations,
            final(self).translation_usages == old(self).translation_usages,
            final(self).project_name == old(self).project_name,
            final(self).project_root == old(self).project_root,
    {
        let ghost keys = self.graph.keys();
        let ghost rv = crate::route::routes_view(route_usage@);
        let ghost st0 = (self.routes_rows_view(), self.r_usages_view());
        let ghost mid = module_id as int;
        let mut i: usize = 0;
        while i < route_usage.len()
            invariant
                self.wf(),
                *self == (Project {
                    routes: self.routes,
                    route_usages: self.route_usages,
                    ..*old(self)
                }),
                keys == self.graph.keys(),
                rv == crate::route::routes_view(route_usage@),
                rv.len() == route_usage@.len(),
                st0 == (old(self).routes_rows_view(), old(self).r_usages_view()),
                mid == module_id as int,
                0 <= i <= rv.len(),
                routes_fold_upto(keys, mid, st0, rv, i as int).1,
                self.routes_rows_view() == routes_fold_upto(keys, mid, st0, rv, i as int).0.0,
                self.r_usages_view() == routes_fold_upto(keys, mid, st0, rv, i as int).0.1,
            decreases rv.len() - i,
        {
            let path = &route_usage[i].path;
            let ds = &route_usage[i].depend_on;
            proof {
                assert(rv[i as int] == route_usage@[i as int].view_pair());
            }
            let rid = self.routes.len();
            let ghost rr0 = self.routes_rows_view();
            self.routes.push(path.clone());
            proof {
                assert(self.routes_rows_view() =~= rr0.push(path@));
                assert forall|j: int|
                    0 <= j < self.route_usages@.len() implies (#[trigger] self.route_usages@[j]).0
                    < self.routes@.len() && self.route_usages@[j].1 < self.graph.nodes@.len() by {}
                assert(self.wf());
                assert(rv[i as int].0 == path@);
            }
            let ghost tsv = ds@.map_values(|x: String| x@);
            let ghost p0 = self.r_usages_view();
            let mut k: usize = 0;
            while k < ds.len()
                invariant
                    self.wf(),
                    *self == (Project {
                        routes: self.routes,
                        route_usages: self.route_usages,
                        ..*old(self)
                    }),
                    keys == self.graph.keys(),
                    rv == crate::route::routes_view(route_usage@),
                    rv.len() == route_usage@.len(),
                    st0 == (old(self).routes_rows_view(), old(self).r_usages_view()),
                    0 <= i < rv.len(),
                    rv[i as int] == route_usage@[i as int].view_pair(),
                    routes_fold_upto(keys, mid, st0, rv, i as int).1,
                    rid as int == routes_fold_upto(keys, mid, st0, rv, i as int).0.0.len(),
                    self.routes_rows_view() == routes_fold_upto(
                        keys,
                        mid,
                        st0,
                        rv,
                        i as int,
                    ).0.0.push(rv[i as int].0),
                    p0 == routes_fold_upto(keys, mid, st0, rv, i as int).0.1,
                    tsv == rv[i as int].1,
                    tsv == ds@.map_values(|x: String| x@),
                    tsv.len() == ds@.len(),
                    rid < self.routes@.len(),
                    mid == module_id as int,
                    0 <= k <= tsv.len(),
                    targets_upto(keys, mid, rid as int, tsv, k as int).1,
                    self.r_usages_view() == p0 + targets_upto(
                        keys,
                        mid,
                        rid as int,
                        tsv,
                        k as int,
                    ).0,
                decreases tsv.len() - k,
            {
                proof {
                    assert(tsv[k as int] == ds@[k as int]@);
                }
                match self.graph.find_symbol(module_id, SymbolVariant::LocalVariable, &ds[k]) {
                    None => {
                        proof {
                            assert(!targets_upto(keys, mid, rid as int, tsv, k + 1).1);
                            lemma_targets_err(keys, mid, rid as int, tsv, k + 1, tsv.len() as int);
                            assert(!routes_fold_upto(keys, mid, st0, rv, i + 1).1);
                            lemma_routes_err(keys, mid, st0, rv, i + 1, rv.len() as int);
                            assert(self.r_usages_view() == routes_fold_upto(
                                keys,
                                mid,
                                st0,
                                rv,
                                rv.len() as int,
                            ).0.1);
                            assert(self.routes_rows_view() == routes_fold_upto(
                                keys,
                                mid,
                                st0,
                                rv,
                                rv.len() as int,
                            ).0.0);
                        }
                        return Err(OverlayError::UnknownSymbolForOverlay);
                    },
                    Some(sid) => {
                        let ghost oldm = self.r_usages_view();
                        let ghost oldv = self.route_usages@;
                        self.route_usages.push((rid, sid));
                        proof {
                            let m = self.r_usages_view();
                            assert forall|j: int| 0 <= j < m.len() implies m[j] == oldm.push(
                                (rid as int, sid as int),
                            )[j] by {
                                if j < oldm.len() {
                                    assert(self.route_usages@[j] == oldv[j]);
                                }
                            }
                            assert(m =~= oldm.push((rid as int, sid as int)));
                            assert(m =~= p0 + targets_upto(keys, mid, rid as int, tsv, k + 1).0);
                        }
                    },
                }
                k += 1;
            }
            proof {
                assert(self.r_usages_view() =~= routes_fold_upto(keys, mid, st0, rv, i + 1).0.1);
                assert(self.routes_rows_view() =~= routes_fold_upto(keys, mid, st0, rv, i + 1).0.0);
            }
            i += 1;
        }
        Ok(())
    }
}

/// A failed i18n fold stays failed.
pub proof fn lemma_i18n_err(
    keys: Seq<NodeKey>,
    mid: int,
    tks: Seq<Seq<char>>,
    usage: Seq<(Seq<char>, Seq<Seq<char>>)>,
    j: int,
    bound: int,
)
    requires
        !i18n_upto(keys, mid, tks, usage, j).1,
        j <= bound,
    ensures
        !i18n_upto(keys, mid, tks, usage, bound).1,
        i18n_upto(keys, mid, tks, usage, bound).0 == i18n_upto(keys, mid, tks, usage, j).0,
    decreases bound,
{
    if bound > j {
        lemma_i18n_err(keys, mid, tks, usage, j, bound - 1);
    }
}

/// A failed target fold stays failed.
pub proof fn lemma_targets_err(
    keys: Seq<NodeKey>,
    mid: int,
    rid: int,
    ts: Seq<Seq<char>>,
    j: int,
    bound: int,
)
    requires
        !targets_upto(keys, mid, rid, ts, j).1,
        j <= bound,
    ensures
        !targets_upto(keys, mid, rid, ts, bound).1,
        targets_upto(keys, mid, rid, ts, bound).0 == targets_upto(keys, mid, rid, ts, j).0,
    decreases bound,
{
    if bound > j {
        lemma_targets_err(keys, mid, rid, ts, j, bound - 1);
    }
}

/// A failed route fold stays failed.
pub proof fn lemma_routes_err(
    keys: Seq<NodeKey>,
    mid: int,
    st: (Seq<Seq<char>>, Seq<(int, int)>),
    rl: Seq<(Seq<char>, Seq<Seq<char>>)>,
    j: int,
    bound: int,
)
    requires
        !routes_fold_upto(keys, mid, st, rl, j).1,
        j <= bound,
    ensures
        !routes_fold_upto(keys, mid, st, rl, bound).1,
        routes_fold_upto(keys, mid, st, rl, bound).0 == routes_fold_upto(keys, mid, st, rl, j).0,
    decreases bound,
{
    if bound > j {
        lemma_routes_err(keys, mid, st, rl, j, bound - 1);
    }
}


/// The translation table a run starts from: the input entries folded into
/// an empty table.
pub open spec fn base_translations(translations: Seq<(String, String)>) -> Seq<
    (Seq<char>, Seq<char>),
> {
    tr_upto(Seq::empty(), translations, translations.len() as int)
}

/// What one released module adds in database mode, over the state
/// `(graph, translation usages, route rows, route usages)`: the record is
/// folded into the graph, then the i18n usage and the routes are linked
/// against the grown graph. The flag is whether every overlay reference
/// resolved.
pub open spec fn db_step(
    st: (GraphState, Seq<(int, int)>, Seq<Seq<char>>, Seq<(int, int)>),
    files: Seq<Seq<u8>>,
    tks: Seq<Seq<char>>,
    rec: SymbolDependency,
    items: Seq<ModuleItem>,
) -> ((GraphState, Seq<(int, int)>, Seq<Seq<char>>, Seq<(int, int)>), bool) {
    let g1 = apply_record(st.0, files, rec);
    let mid = s_module(st.0, rec.canonical_path@).1;
    let us = usage_upto(items, seq!["t"@, "translate"@], items.len() as int);
    let iu = i18n_upto(g1.1, mid, tks, us, us.len() as int);
    let rs = routes_upto(items, "Route"@, "path"@, "component"@, items.len() as int);
    let rok = routes_ok(rs, rec.local_names());
    let rf = routes_fold_upto(g1.1, mid, (st.2, st.3), rs, rs.len() as int);
    (((g1, st.1 + iu.0, rf.0.0, rf.0.1)), iu.1 && rok && rf.1)
}

/// The database-mode fold over the released records, first release first;
/// a failing step stops the fold.
pub open spec fn db_fold(
    recs: Seq<SymbolDependency>,
    modules: Seq<(String, ModuleAst)>,
    ord: Seq<int>,
    files: Seq<Seq<u8>>,
    tks: Seq<Seq<char>>,
    bound: int,
) -> ((GraphState, Seq<(int, int)>, Seq<Seq<char>>, Seq<(int, int)>), bool)
    decreases bound,
{
    if bound <= 0 {
        (((Seq::empty(), Seq::empty(), Seq::empty()), Seq::empty(), Seq::empty(), Seq::empty()), true)
    } else {
        let acc = db_fold(recs, modules, ord, files, tks, bound - 1);
        if !acc.1 {
            acc
        } else {
            db_step(acc.0, files, tks, recs[bound - 1], modules[ord[bound - 1]].1.items@)
        }
    }
}

} // verus!
