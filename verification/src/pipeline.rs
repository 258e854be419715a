//! The drivers: run the scheduler over the discovered modules, extract
//! each released module, attach the overlays, and materialize either the
//! portable document or the relational rows. Discovery, AST production,
//! file reading and every write are the embedding program's work; the
//! drivers take the modules as values.
//!
//! The release order is deterministic (`sched_next`), so each driver's
//! whole outcome is pinned: the accumulated graph and overlay tables equal
//! the fold of the per-module component semantics over `release_seq`, and
//! success holds exactly when every released module goes through.

use vstd::prelude::*;
use crate::ast::{ImportClause, ModuleAst, ModuleItem};
use crate::bytes::{string_eq, view_bytes};
use crate::extractor::{collect_symbol_dependency, extract_spec, local_keys, ExtractorError};
use crate::graph::{apply_record, s_module, DependOnGraph, GraphState};
use crate::i18n::{usage_upto, usage_view, I18nToSymbol};
use crate::model::{SymbolDependency, SymbolDependencyV};
use crate::path_resolver::PathResolver;
use crate::portable::Portable;
use crate::project::{
    base_translations, db_fold, db_step, tkeys, OverlayError, Project,
};
use crate::route::{
    collect_route_dependency, routes_ok, routes_upto, routes_view, Route, RouteError,
    SymbolToRoutes,
};
use crate::scheduler::{
    count_unparsed, preds_upto, sched_next, ParserCandidateScheduler,
};
use crate::used_by::{transpose, UsedByGraph};

verus! {

/// Why a whole run failed.
#[derive(PartialEq, Eq, Structural, Clone, Copy, Debug)]
pub enum PipelineError {
    Extractor(ExtractorError),
    Route(RouteError),
    Overlay(OverlayError),
}

/// The specifiers one item holds under a namespace-import or
/// star-re-export form: the scheduler's hard predecessors.
pub open spec fn ns_srcs_upto(src: Seq<char>, clauses: Seq<ImportClause>, bound: int) -> Seq<
    Seq<char>,
>
    decreases bound,
{
    if bound <= 0 {
        Seq::empty()
    } else {
        let acc = ns_srcs_upto(src, clauses, bound - 1);
        if clauses[bound - 1] is Namespace {
            acc.push(src)
        } else {
            acc
        }
    }
}

pub open spec fn item_hard_srcs(item: ModuleItem) -> Seq<Seq<char>> {
    match item {
        ModuleItem::Import { src, clauses } => ns_srcs_upto(src@, clauses@, clauses@.len() as int),
        ModuleItem::ExportStar { src } => seq![src@],
        ModuleItem::ExportStarAs { src, .. } => seq![src@],
        _ => Seq::empty(),
    }
}

pub open spec fn hard_srcs_upto(items: Seq<ModuleItem>, bound: int) -> Seq<Seq<char>>
    decreases bound,
{
    if bound <= 0 {
        Seq::empty()
    } else {
        hard_srcs_upto(items, bound - 1) + item_hard_srcs(items[bound - 1])
    }
}

/// Pre-scan of a module: the specifiers whose targets must be released
/// first.
pub fn hard_import_specifiers(ast: &ModuleAst) -> (r: Vec<String>)
    ensures
        r@.map_values(|s: String| s@) == hard_srcs_upto(ast.items@, ast.items@.len() as int),
{
    let ghost items = ast.items@;
    let mut out: Vec<String> = Vec::new();
    let mut i: usize = 0;
    proof {
        assert(out@.map_values(|s: String| s@) =~= hard_srcs_upto(items, 0));
    }
    while i < ast.items.len()
        invariant
            items == ast.items@,
            0 <= i <= items.len(),
            out@.map_values(|s: String| s@) == hard_srcs_upto(items, i as int),
        decreases items.len() - i,
    {
        let ghost pre = out@.map_values(|s: String| s@);
        match &ast.items[i] {
            ModuleItem::Import { src, clauses } => {
                let ghost srcv = src@;
                let ghost cls = clauses@;
                let mut k: usize = 0;
                while k < clauses.len()
                    invariant
                        items == ast.items@,
                        0 <= i < items.len(),
                        items[i as int] matches ModuleItem::Import { src: s2, clauses: c2 } && s2@
                            == srcv && c2 == *clauses,
                        src@ == srcv,
                        cls == clauses@,
                        0 <= k <= cls.len(),
                        out@.map_values(|s: String| s@) == pre + ns_srcs_upto(
                            srcv,
                            cls,
                            k as int,
                        ),
                    decreases cls.len() - k,
                {
                    match &clauses[k] {
                        ImportClause::Namespace { .. } => {
                            push_spec(&mut out, src.clone());
                            proof {
                                assert(pre + ns_srcs_upto(srcv, cls, k as int) + seq![srcv] =~= pre
                                    + ns_srcs_upto(srcv, cls, k + 1));
                            }
                        },
                        _ => {
                            proof {
                                assert(out@.map_values(|s: String| s@) =~= pre + ns_srcs_upto(
                                    srcv,
                                    cls,
                                    k + 1,
                                ));
                            }
                        },
                    }
                    k += 1;
                }
                proof {
                    assert(out@.map_values(|s: String| s@) =~= hard_srcs_upto(items, i + 1));
                }
            },
            ModuleItem::ExportStar { src } => {
                push_spec(&mut out, src.clone());
                proof {
                    assert(pre + seq![src@] =~= pre + item_hard_srcs(items[i as int]));
                    assert(out@.map_values(|s: String| s@) =~= hard_srcs_upto(items, i + 1));
                }
            },
            ModuleItem::ExportStarAs { src, .. } => {
                push_spec(&mut out, src.clone());
                proof {
                    assert(pre + seq![src@] =~= pre + item_hard_srcs(items[i as int]));
                    assert(out@.map_values(|s: String| s@) =~= hard_srcs_upto(items, i + 1));
                }
            },
            _ => {
                proof {
                    assert(item_hard_srcs(items[i as int]) =~= Seq::<Seq<char>>::empty());
                    assert(out@.map_values(|s: String| s@) =~= hard_srcs_upto(items, i + 1));
                }
            },
        }
        i += 1;
    }
    out
}

/// Push with the view-map fact.
fn push_spec(v: &mut Vec<String>, n: String)
    ensures
        final(v)@.map_values(|s: String| s@) == old(v)@.map_values(|s: String| s@).push(n@),
{
    let ghost oldv = v@;
    let ghost oldm = v@.map_values(|s: String| s@);
    let ghost nv = n@;
    v.push(n);
    proof {
        let m = v@.map_values(|s: String| s@);
        assert forall|j: int| 0 <= j < m.len() implies m[j] == oldm.push(nv)[j] by {
            if j < oldm.len() {
                assert(v@[j] == oldv[j]);
            }
        }
        assert(m =~= oldm.push(nv));
    }
}

/// Index of the module whose canonical path is `p`.
fn find_module(modules: &Vec<(String, ModuleAst)>, p: &String) -> (r: Option<usize>)
    ensures
        match r {
            Some(i) => i < modules@.len() && modules@[i as int].0@ == p@,
            None => forall|j: int| 0 <= j < modules@.len() ==> (#[trigger] modules@[j]).0@ != p@,
        },
{
    let mut i: usize = 0;
    while i < modules.len()
        invariant
            0 <= i <= modules@.len(),
            forall|j: int| 0 <= j < i ==> (#[trigger] modules@[j]).0@ != p@,
        decreases modules@.len() - i,
    {
        if string_eq(&modules[i].0, p) {
            return Some(i);
        }
        i += 1;
    }
    None
}

/// Discovery hand-off: distinct canonical paths, well-formed ASTs.
pub open spec fn modules_wf(modules: Seq<(String, ModuleAst)>) -> bool {
    &&& forall|i: int, j: int|
        0 <= i < j < modules.len() ==> (#[trigger] modules[i]).0@ != (#[trigger] modules[j]).0@
    &&& forall|i: int| 0 <= i < modules.len() ==> (#[trigger] modules[i]).1.wf()
}

/// The canonical paths of the discovered modules.
pub open spec fn module_paths(modules: Seq<(String, ModuleAst)>) -> Seq<Seq<char>> {
    modules.map_values(|m: (String, ModuleAst)| m.0@)
}

/// The discovered file table, as the resolver sees it.
pub open spec fn module_files(modules: Seq<(String, ModuleAst)>) -> Seq<Seq<u8>> {
    modules.map_values(|m: (String, ModuleAst)| view_bytes(m.0@))
}

/// One module's pre-scanned hard-predecessor specifiers.
pub open spec fn hard_srcs_of(m: (String, ModuleAst)) -> Seq<Seq<char>> {
    hard_srcs_upto(m.1.items@, m.1.items@.len() as int)
}

/// The hard-predecessor lists of all modules.
pub open spec fn hard_preds(modules: Seq<(String, ModuleAst)>) -> Seq<Seq<int>> {
    Seq::new(
        modules.len(),
        |i: int|
            preds_upto(
                module_paths(modules),
                module_files(modules),
                modules[i].0@,
                i,
                hard_srcs_of(modules[i]),
                hard_srcs_of(modules[i]).len() as int,
            ),
    )
}

/// The deterministic release order from a given parsed state: release
/// `sched_next`'s choice, mark it, repeat until nothing is left.
pub open spec fn release_seq(
    paths: Seq<Seq<char>>,
    preds: Seq<Seq<int>>,
    parsed: Seq<bool>,
) -> Seq<int>
    decreases count_unparsed(parsed),
    via release_seq_decreases
{
    match sched_next(paths, preds, parsed) {
        None => Seq::empty(),
        Some(i) => seq![i] + release_seq(paths, preds, parsed.update(i, true)),
    }
}

#[via_fn]
proof fn release_seq_decreases(paths: Seq<Seq<char>>, preds: Seq<Seq<int>>, parsed: Seq<bool>) {
    crate::scheduler::lemma_count_nonneg(parsed);
    match sched_next(paths, preds, parsed) {
        Some(i) => {
            crate::scheduler::lemma_sched_next_unparsed(paths, preds, parsed);
            crate::scheduler::lemma_count_strict(parsed, parsed.update(i, true), i);
            crate::scheduler::lemma_count_nonneg(parsed.update(i, true));
        },
        None => {},
    }
}

/// The order in which a fresh run releases the discovered modules.
pub open spec fn ord_of(modules: Seq<(String, ModuleAst)>) -> Seq<int> {
    release_seq(
        module_paths(modules),
        hard_preds(modules),
        Seq::new(modules.len(), |i: int| false),
    )
}

/// A module goes through the portable run: it extracts, and every route
/// target is one of its locals.
pub open spec fn module_ok(m: (String, ModuleAst)) -> bool {
    &&& extract_spec(m.0@, m.1.items@) is Ok
    &&& routes_ok(
        routes_upto(m.1.items@, "Route"@, "path"@, "component"@, m.1.items@.len() as int),
        local_keys(extract_spec(m.0@, m.1.items@)->Ok_0),
    )
}

pub open spec fn empty_graph() -> GraphState {
    (Seq::empty(), Seq::empty(), Seq::empty())
}

/// The depend-on graph accumulated from the records, first record first.
pub open spec fn graph_fold(recs: Seq<SymbolDependency>, files: Seq<Seq<u8>>, bound: int) -> GraphState
    decreases bound,
{
    if bound <= 0 {
        empty_graph()
    } else {
        apply_record(graph_fold(recs, files, bound - 1), files, recs[bound - 1])
    }
}

/// `recs` are exactly the records the released modules extract to, in
/// release order.
pub open spec fn recs_match(
    recs: Seq<SymbolDependency>,
    modules: Seq<(String, ModuleAst)>,
    ord: Seq<int>,
) -> bool
    decreases recs.len(),
{
    if recs.len() != ord.len() {
        false
    } else if recs.len() == 0 {
        true
    } else {
        &&& recs_match(recs.drop_last(), modules, ord.drop_last())
        &&& 0 <= ord.last() < modules.len()
        &&& extract_spec(modules[ord.last()].0@, modules[ord.last()].1.items@) == Ok::<
            SymbolDependencyV,
            ExtractorError,
        >(recs.last()@)
    }
}

pub open spec fn i18n_table_view(t: Seq<(String, Vec<(String, Vec<String>)>)>) -> Seq<
    (Seq<char>, Seq<(Seq<char>, Seq<Seq<char>>)>),
> {
    t.map_values(|p: (String, Vec<(String, Vec<String>)>)| (p.0@, usage_view(p.1@)))
}

pub open spec fn routes_table_view(t: Seq<(String, Vec<Route>)>) -> Seq<
    (Seq<char>, Seq<(Seq<char>, Seq<Seq<char>>)>),
> {
    t.map_values(|p: (String, Vec<Route>)| (p.0@, routes_view(p.1@)))
}

/// The i18n overlay table the run collects, per released module.
pub open spec fn expected_i18n(modules: Seq<(String, ModuleAst)>, ord: Seq<int>) -> Seq<
    (Seq<char>, Seq<(Seq<char>, Seq<Seq<char>>)>),
> {
    Seq::new(
        ord.len(),
        |k: int|
            (
                modules[ord[k]].0@,
                usage_upto(
                    modules[ord[k]].1.items@,
                    seq!["t"@, "translate"@],
                    modules[ord[k]].1.items@.len() as int,
                ),
            ),
    )
}

/// The route overlay table the run collects, per released module.
pub open spec fn expected_routes(modules: Seq<(String, ModuleAst)>, ord: Seq<int>) -> Seq<
    (Seq<char>, Seq<(Seq<char>, Seq<Seq<char>>)>),
> {
    Seq::new(
        ord.len(),
        |k: int|
            (
                modules[ord[k]].0@,
                routes_upto(
                    modules[ord[k]].1.items@,
                    "Route"@,
                    "path"@,
                    "component"@,
                    modules[ord[k]].1.items@.len() as int,
                ),
            ),
    )
}

/// The fold only reads the records below `bound`.
pub proof fn lemma_graph_fold_frame(
    a: Seq<SymbolDependency>,
    b: Seq<SymbolDependency>,
    files: Seq<Seq<u8>>,
    bound: int,
)
    requires
        forall|j: int| 0 <= j < bound ==> a[j] == b[j],
    ensures
        graph_fold(a, files, bound) == graph_fold(b, files, bound),
    decreases bound,
{
    if bound > 0 {
        lemma_graph_fold_frame(a, b, files, bound - 1);
    }
}

/// The database fold only reads the records below `bound`.
pub proof fn lemma_db_fold_frame(
    a: Seq<SymbolDependency>,
    b: Seq<SymbolDependency>,
    modules: Seq<(String, ModuleAst)>,
    ord: Seq<int>,
    files: Seq<Seq<u8>>,
    tks: Seq<Seq<char>>,
    bound: int,
)
    requires
        forall|j: int| 0 <= j < bound ==> a[j] == b[j],
    ensures
        db_fold(a, modules, ord, files, tks, bound) == db_fold(b, modules, ord, files, tks, bound),
    decreases bound,
{
    if bound > 0 {
        lemma_db_fold_frame(a, b, modules, ord, files, tks, bound - 1);
    }
}


/// Appending the released module's record extends the record match.
pub proof fn lemma_recs_match_push(
    recs: Seq<SymbolDependency>,
    rec: SymbolDependency,
    modules: Seq<(String, ModuleAst)>,
    ord: Seq<int>,
    k: int,
)
    requires
        0 <= k < ord.len(),
        recs.len() == k,
        recs_match(recs, modules, ord.take(k)),
        0 <= ord[k] < modules.len(),
        extract_spec(modules[ord[k]].0@, modules[ord[k]].1.items@) == Ok::<
            SymbolDependencyV,
            ExtractorError,
        >(rec@),
    ensures
        recs_match(recs.push(rec), modules, ord.take(k + 1)),
{
    let r2 = recs.push(rec);
    let o2 = ord.take(k + 1);
    assert(o2.len() == k + 1);
    assert(r2.len() == k + 1);
    assert(r2.drop_last() =~= recs);
    assert(o2.drop_last() =~= ord.take(k));
    assert(o2.last() == ord[k]);
    assert(r2.last() == rec);
    assert(recs_match(r2, modules, o2));
}

/// Analyze the project and assemble the portable document.
///
/// On success every discovered module went through; the document's
/// overlay tables equal the collected per-module tables in release order,
/// and its used-by graph is exactly the transpose of the depend-on graph
/// accumulated from the released records.
#[verifier::rlimit(80)]
pub fn parse_project_to_portable(
    project_root: &str,
    modules: &Vec<(String, ModuleAst)>,
    translations: Vec<(String, String)>,
) -> (r: Result<Portable, PipelineError>)
    requires
        modules_wf(modules@),
    ensures
        match r {
            Ok(p) => {
                let ord = ord_of(modules@);
                &&& p.project_root@ == project_root@
                &&& p.translations == translations
                &&& forall|k: int| 0 <= k < modules@.len() ==> module_ok(#[trigger] modules@[k])
                &&& i18n_table_view(p.i18n_to_symbol@) == expected_i18n(modules@, ord)
                &&& routes_table_view(p.symbol_to_routes@) == expected_routes(modules@, ord)
                &&& exists|recs: Seq<SymbolDependency>|
                    #[trigger] recs_match(recs, modules@, ord) && {
                        let d = graph_fold(recs, module_files(modules@), ord.len() as int);
                        &&& p.used_by_graph.modules_view() == d.0
                        &&& p.used_by_graph.keys() == d.1
                        &&& p.used_by_graph.edges_view() == transpose(d.2)
                    }
                &&& forall|i: int|
                    0 <= i < p.used_by_graph.edges@.len() ==> (
                    #[trigger] p.used_by_graph.edges@[i]).0 < p.used_by_graph.nodes@.len()
                        && p.used_by_graph.edges@[i].1 < p.used_by_graph.nodes@.len()
            },
            Err(pe) => match pe {
                PipelineError::Extractor(e) => exists|k: int|
                    0 <= k < modules@.len() && extract_spec(
                        (#[trigger] modules@[k]).0@,
                        modules@[k].1.items@,
                    ) == Err::<SymbolDependencyV, ExtractorError>(e),
                PipelineError::Route(e) => exists|k: int|
                    0 <= k < modules@.len() && ((#[trigger] extract_spec(
                        modules@[k].0@,
                        modules@[k].1.items@,
                    )) matches Ok(v) && !routes_ok(
                        routes_upto(
                            modules@[k].1.items@,
                            "Route"@,
                            "path"@,
                            "component"@,
                            modules@[k].1.items@.len() as int,
                        ),
                        local_keys(v),
                    )),
                PipelineError::Overlay(e) => false,
            },
        },
{
    let ghost paths = module_paths(modules@);
    let ghost preds = hard_preds(modules@);
    let ghost gfiles = module_files(modules@);
    let ghost ord = ord_of(modules@);
    let mut files: Vec<String> = Vec::new();
    let mut candidates: Vec<(String, Vec<String>)> = Vec::new();
    let mut i: usize = 0;
    while i < modules.len()
        invariant
            modules_wf(modules@),
            0 <= i <= modules@.len(),
            candidates@.len() == i,
            files@.len() == i,
            forall|j: int| 0 <= j < i ==> files@[j]@ == (#[trigger] modules@[j]).0@,
            forall|j: int|
                0 <= j < i ==> (#[trigger] candidates@[j]).0@ == modules@[j].0@,
            forall|j: int|
                0 <= j < i ==> (#[trigger] candidates@[j]).1@.map_values(|x: String| x@)
                    == hard_srcs_of(modules@[j]),
        decreases modules@.len() - i,
    {
        files.push(modules[i].0.clone());
        let hard = hard_import_specifiers(&modules[i].1);
        candidates.push((modules[i].0.clone(), hard));
        i += 1;
    }
    let resolver = PathResolver::new(files);
    let mut scheduler = ParserCandidateScheduler::new(&candidates, &resolver);
    proof {
        assert(resolver.files_view() =~= gfiles);
        assert(scheduler.paths_view() =~= paths);
        assert forall|a: int| 0 <= a < modules@.len() implies scheduler.preds_view()[a] == preds[a] by {
            assert(candidates@[a].0@ == modules@[a].0@);
            assert(candidates@[a].1@.map_values(|x: String| x@) == hard_srcs_of(modules@[a]));
            assert(candidates@[a].1@.len() == hard_srcs_of(modules@[a]).len());
        }
        assert(scheduler.preds_view() =~= preds);
        assert(scheduler.parsed@ =~= Seq::new(modules@.len(), |i: int| false));
        assert(release_seq(paths, preds, scheduler.parsed@) == ord);
        assert(ord.skip(0) =~= ord);
    }
    let mut graph = DependOnGraph::new(resolver);
    let mut i18n_to_symbol = I18nToSymbol::new();
    let mut symbol_to_route = SymbolToRoutes::new();
    let ghost mut k: int = 0;
    let ghost mut recs: Seq<SymbolDependency> = Seq::empty();
    proof {
        assert(graph.state() == empty_graph()) by {
            assert(graph.state().0 =~= empty_graph().0);
            assert(graph.state().1 =~= empty_graph().1);
            assert(graph.state().2 =~= empty_graph().2);
        }
        assert(i18n_table_view(i18n_to_symbol.table@) =~= expected_i18n(modules@, ord.take(0)));
        assert(routes_table_view(symbol_to_route.table@) =~= expected_routes(
            modules@,
            ord.take(0),
        ));
        assert(recs_match(recs, modules@, ord.take(0)));
        assert(graph_fold(recs, gfiles, 0) == empty_graph());
    }
    loop
        invariant
            modules_wf(modules@),
            paths == module_paths(modules@),
            preds == hard_preds(modules@),
            gfiles == module_files(modules@),
            ord == ord_of(modules@),
            scheduler.wf(),
            scheduler.paths_view() == paths,
            scheduler.preds_view() == preds,
            scheduler.parsed@.len() == modules@.len(),
            forall|j: int|
                0 <= j < modules@.len() ==> ((#[trigger] scheduler.parsed@[j]) ==> module_ok(
                    modules@[j],
                )),
            0 <= k <= ord.len(),
            recs.len() == k,
            recs_match(recs, modules@, ord.take(k)),
            release_seq(paths, preds, scheduler.parsed@) == ord.skip(k),
            graph.wf(),
            graph.resolver.files_view() == gfiles,
            graph.state() == graph_fold(recs, gfiles, k),
            i18n_table_view(i18n_to_symbol.table@) == expected_i18n(modules@, ord.take(k)),
            routes_table_view(symbol_to_route.table@) == expected_routes(modules@, ord.take(k)),
            i18n_to_symbol.config.names_view() == seq!["t"@, "translate"@],
            symbol_to_route.config.element_name@ == "Route"@,
            symbol_to_route.config.path_attr@ == "path"@,
            symbol_to_route.config.target_attr@ == "component"@,
        ensures
            k == ord.len(),
            recs_match(recs, modules@, ord),
            graph.wf(),
            graph.state() == graph_fold(recs, gfiles, ord.len() as int),
            i18n_table_view(i18n_to_symbol.table@) == expected_i18n(modules@, ord),
            routes_table_view(symbol_to_route.table@) == expected_routes(modules@, ord),
            forall|j: int| 0 <= j < modules@.len() ==> module_ok(#[trigger] modules@[j]),
        decreases count_unparsed(scheduler.parsed@),
    {
        let next = scheduler.get_one_candidate();
        match next {
            None => {
                proof {
                    assert(release_seq(paths, preds, scheduler.parsed@) =~= Seq::<int>::empty());
                    assert(ord.skip(k).len() == 0);
                    assert(k == ord.len());
                    assert(ord.take(k) =~= ord);
                    assert forall|j: int| 0 <= j < modules@.len() implies module_ok(
                        #[trigger] modules@[j],
                    ) by {
                        assert(scheduler.parsed@[j]);
                    }
                }
                break ;
            },
            Some(c) => {
                let ghost n = sched_next(paths, preds, scheduler.parsed@)->Some_0;
                proof {
                    crate::scheduler::lemma_sched_next_unparsed(paths, preds, scheduler.parsed@);
                    assert(ord.skip(k).len() > 0);
                    assert(k < ord.len());
                    assert(ord.skip(k)[0] == ord[k]);
                    assert(ord[k] == n);
                    assert(c@ == paths[n]);
                    assert(paths[n] == modules@[n].0@);
                    assert(release_seq(paths, preds, scheduler.parsed@.update(n, true))
                        =~= ord.skip(k).drop_first());
                    assert(ord.skip(k).drop_first() =~= ord.skip(k + 1));
                }
                let idx = match find_module(modules, &c) {
                    Some(idx) => idx,
                    None => {
                        proof {
                            assert(modules@[n].0@ == c@);
                            assert(false);
                        }
                        break ;
                    },
                };
                proof {
                    if (idx as int) < n {
                        assert(modules@[idx as int].0@ != modules@[n].0@);
                        assert(false);
                    } else if n < idx as int {
                        assert(modules@[n].0@ != modules@[idx as int].0@);
                        assert(false);
                    }
                    assert(idx as int == n);
                    assert(modules@[n].1.wf());
                }
                let module_src = &modules[idx].0;
                let module_ast = &modules[idx].1;
                let symbol_dependency = match collect_symbol_dependency(
                    module_ast,
                    module_src.as_str(),
                ) {
                    Ok(rec) => rec,
                    Err(e) => {
                        proof {
                            assert(extract_spec(modules@[n].0@, modules@[n].1.items@) == Err::<
                                SymbolDependencyV,
                                ExtractorError,
                            >(e));
                        }
                        return Err(PipelineError::Extractor(e));
                    },
                };
                let ghost t0 = i18n_to_symbol.table@;
                i18n_to_symbol.collect_i18n_usage(module_src.as_str(), module_ast);
                proof {
                    assert(i18n_table_view(t0) == expected_i18n(modules@, ord.take(k)));
                    assert(i18n_table_view(t0).len() == t0.len());
                    assert(expected_i18n(modules@, ord.take(k)).len() == k);
                    assert(t0.len() == k);
                    let tv = i18n_table_view(i18n_to_symbol.table@);
                    let ex = expected_i18n(modules@, ord.take(k + 1));
                    assert(tv.len() == k + 1);
                    assert forall|j: int| 0 <= j < k + 1 implies tv[j] == ex[j] by {
                        if j < k {
                            assert(i18n_to_symbol.table@[j] == t0[j]);
                            assert(i18n_table_view(t0)[j] == expected_i18n(
                                modules@,
                                ord.take(k),
                            )[j]);
                            assert(ord.take(k + 1)[j] == ord.take(k)[j]);
                        } else {
                            assert(i18n_to_symbol.table@[j] == i18n_to_symbol.table@.last());
                            assert(i18n_to_symbol.table@.last().0@ == modules@[n].0@);
                            assert(usage_view(i18n_to_symbol.table@.last().1@) == usage_upto(
                                modules@[n].1.items@,
                                seq!["t"@, "translate"@],
                                modules@[n].1.items@.len() as int,
                            ));
                            assert(ord.take(k + 1)[j] == ord[k]);
                        }
                    }
                    assert(tv =~= ex);
                }
                let ghost r0 = symbol_to_route.table@;
                match symbol_to_route.collect_route_dependency(module_ast, &symbol_dependency) {
                    Ok(_) => {
                        proof {
                            assert(symbol_dependency.local_names() =~= local_keys(
                                symbol_dependency@,
                            ));
                            assert(module_ok(modules@[n]));
                            assert(routes_table_view(r0) == expected_routes(
                                modules@,
                                ord.take(k),
                            ));
                            assert(routes_table_view(r0).len() == r0.len());
                            assert(expected_routes(modules@, ord.take(k)).len() == k);
                            assert(r0.len() == k);
                            let tv = routes_table_view(symbol_to_route.table@);
                            let ex = expected_routes(modules@, ord.take(k + 1));
                            assert(tv.len() == k + 1);
                            assert forall|j: int| 0 <= j < k + 1 implies tv[j] == ex[j] by {
                                if j < k {
                                    assert(symbol_to_route.table@[j] == r0[j]);
                                    assert(routes_table_view(r0)[j] == expected_routes(
                                        modules@,
                                        ord.take(k),
                                    )[j]);
                                    assert(ord.take(k + 1)[j] == ord.take(k)[j]);
                                } else {
                                    assert(symbol_to_route.table@[j] == symbol_to_route.table@.last());
                                    assert(symbol_to_route.table@.last().0@ == modules@[n].0@);
                                    assert(routes_view(symbol_to_route.table@.last().1@)
                                        == routes_upto(
                                        modules@[n].1.items@,
                                        "Route"@,
                                        "path"@,
                                        "component"@,
                                        modules@[n].1.items@.len() as int,
                                    ));
                                    assert(ord.take(k + 1)[j] == ord[k]);
                                }
                            }
                            assert(tv =~= ex);
                        }
                    },
                    Err(e) => {
                        proof {
                            assert(symbol_dependency.local_names() =~= local_keys(
                                symbol_dependency@,
                            ));
                            assert(extract_spec(modules@[n].0@, modules@[n].1.items@) matches Ok(v)
                                && !routes_ok(
                                routes_upto(
                                    modules@[n].1.items@,
                                    "Route"@,
                                    "path"@,
                                    "component"@,
                                    modules@[n].1.items@.len() as int,
                                ),
                                local_keys(v),
                            ));
                        }
                        return Err(PipelineError::Route(e));
                    },
                }
                graph.add_symbol_dependency(&symbol_dependency);
                proof {
                    let recs2 = recs.push(symbol_dependency);
                    lemma_graph_fold_frame(recs, recs2, gfiles, k);
                    assert(graph.state() == graph_fold(recs2, gfiles, k + 1));
                    lemma_recs_match_push(recs, symbol_dependency, modules@, ord, k);
                    assert(recs_match(recs2, modules@, ord.take(k + 1)));
                    recs = recs2;
                    k = k + 1;
                }
                let ghost before = scheduler.parsed@;
                scheduler.mark_candidate_as_parsed(&c);
                proof {
                    assert forall|j: int| 0 <= j < before.len() implies scheduler.parsed@[j] == (
                    before.update(n, true)[j]) by {
                        if j != n {
                            if paths[j] == c@ {
                                if j < n {
                                    assert(modules@[j].0@ != modules@[n].0@);
                                } else {
                                    assert(modules@[n].0@ != modules@[j].0@);
                                }
                                assert(false);
                            }
                        }
                    }
                    assert(scheduler.parsed@ =~= before.update(n, true));
                    assert(release_seq(paths, preds, scheduler.parsed@) == ord.skip(k));
                    assert forall|j: int|
                        0 <= j < modules@.len() && #[trigger] scheduler.parsed@[j] implies module_ok(
                        modules@[j],
                    ) by {
                        if j != n {
                            assert(before[j]);
                        }
                    }
                    crate::scheduler::lemma_count_strict(before, scheduler.parsed@, n);
                    crate::scheduler::lemma_count_nonneg(scheduler.parsed@);
                    crate::scheduler::lemma_count_nonneg(before);
                }
            },
        }
    }
    let used_by_graph = UsedByGraph::from(&graph);
    proof {
        let d = graph_fold(recs, gfiles, ord.len() as int);
        assert(graph.state() == d);
        assert(used_by_graph.modules_view() == d.0);
        assert(used_by_graph.keys() == d.1);
        assert(used_by_graph.edges_view() == transpose(d.2));
        assert(recs_match(recs, modules@, ord));
    }
    Ok(
        Portable::new(
            project_root.to_owned(),
            translations,
            i18n_to_symbol.table,
            symbol_to_route.table,
            used_by_graph,
        ),
    )
}

/// Analyze the project into relational rows.
///
/// On success the graph rows, translation rows and both usage tables are
/// exactly the database fold of the released records in release order;
/// failure surfaces the module that failed.
#[verifier::rlimit(80)]
pub fn parse_project_to_database(
    project_name: &str,
    project_root: &str,
    modules: &Vec<(String, ModuleAst)>,
    translations: &Vec<(String, String)>,
) -> (r: Result<Project, PipelineError>)
    requires
        modules_wf(modules@),
    ensures
        match r {
            Ok(p) => {
                let ord = ord_of(modules@);
                let tks = tkeys(base_translations(translations@));
                &&& p.wf()
                &&& p.project_root@ == project_root@
                &&& p.project_name@ == project_name@
                &&& p.translations_view() == base_translations(translations@)
                &&& forall|k: int|
                    0 <= k < modules@.len() ==> extract_spec(
                        (#[trigger] modules@[k]).0@,
                        modules@[k].1.items@,
                    ) is Ok
                &&& exists|recs: Seq<SymbolDependency>|
                    #[trigger] recs_match(recs, modules@, ord) && {
                        let f = db_fold(
                            recs,
                            modules@,
                            ord,
                            module_files(modules@),
                            tks,
                            ord.len() as int,
                        );
                        &&& f.1
                        &&& p.graph.state() == f.0.0
                        &&& p.t_usages_view() == f.0.1
                        &&& p.routes_rows_view() == f.0.2
                        &&& p.r_usages_view() == f.0.3
                    }
            },
            Err(pe) => match pe {
                PipelineError::Extractor(e) => exists|k: int|
                    0 <= k < modules@.len() && extract_spec(
                        (#[trigger] modules@[k]).0@,
                        modules@[k].1.items@,
                    ) == Err::<SymbolDependencyV, ExtractorError>(e),
                PipelineError::Route(e) => exists|k: int|
                    0 <= k < modules@.len() && ((#[trigger] extract_spec(
                        modules@[k].0@,
                        modules@[k].1.items@,
                    )) matches Ok(v) && !routes_ok(
                        routes_upto(
                            modules@[k].1.items@,
                            "Route"@,
                            "path"@,
                            "component"@,
                            modules@[k].1.items@.len() as int,
                        ),
                        local_keys(v),
                    )),
                PipelineError::Overlay(e) => exists|recs: Seq<SymbolDependency>, k: int|
                    {
                        &&& 0 <= k < ord_of(modules@).len()
                        &&& #[trigger] recs_match(recs, modules@, ord_of(modules@).take(k + 1))
                        &&& !db_fold(
                            recs,
                            modules@,
                            ord_of(modules@),
                            module_files(modules@),
                            tkeys(base_translations(translations@)),
                            k + 1,
                        ).1
                    },
            },
        },
{
    let ghost paths = module_paths(modules@);
    let ghost preds = hard_preds(modules@);
    let ghost gfiles = module_files(modules@);
    let ghost ord = ord_of(modules@);
    let ghost tks = tkeys(base_translations(translations@));
    let mut files: Vec<String> = Vec::new();
    let mut candidates: Vec<(String, Vec<String>)> = Vec::new();
    let mut i: usize = 0;
    while i < modules.len()
        invariant
            modules_wf(modules@),
            0 <= i <= modules@.len(),
            candidates@.len() == i,
            files@.len() == i,
            forall|j: int| 0 <= j < i ==> files@[j]@ == (#[trigger] modules@[j]).0@,
            forall|j: int|
                0 <= j < i ==> (#[trigger] candidates@[j]).0@ == modules@[j].0@,
            forall|j: int|
                0 <= j < i ==> (#[trigger] candidates@[j]).1@.map_values(|x: String| x@)
                    == hard_srcs_of(modules@[j]),
        decreases modules@.len() - i,
    {
        files.push(modules[i].0.clone());
        let hard = hard_import_specifiers(&modules[i].1);
        candidates.push((modules[i].0.clone(), hard));
        i += 1;
    }
    let resolver = PathResolver::new(files);
    let mut scheduler = ParserCandidateScheduler::new(&candidates, &resolver);
    proof {
        assert(resolver.files_view() =~= gfiles);
        assert(scheduler.paths_view() =~= paths);
        assert forall|a: int| 0 <= a < modules@.len() implies scheduler.preds_view()[a] == preds[a] by {
            assert(candidates@[a].0@ == modules@[a].0@);
            assert(candidates@[a].1@.map_values(|x: String| x@) == hard_srcs_of(modules@[a]));
            assert(candidates@[a].1@.len() == hard_srcs_of(modules@[a]).len());
        }
        assert(scheduler.preds_view() =~= preds);
        assert(scheduler.parsed@ =~= Seq::new(modules@.len(), |i: int| false));
        assert(release_seq(paths, preds, scheduler.parsed@) == ord);
        assert(ord.skip(0) =~= ord);
    }
    let mut project = Project::new(project_name, project_root, clone_paths(modules));
    proof {
        assert(project.graph.resolver.files_view() =~= gfiles);
        assert(project.translations_view() =~= Seq::<(Seq<char>, Seq<char>)>::empty());
    }
    project.add_translation(translations);
    proof {
        assert(project.translations_view() == base_translations(translations@));
    }
    let i18n_config = crate::i18n::I18nConfig::standard();
    let route_config = crate::route::RouteConfig::standard();
    let ghost mut k: int = 0;
    let ghost mut recs: Seq<SymbolDependency> = Seq::empty();
    proof {
        assert(project.graph.state() == empty_graph()) by {
            assert(project.graph.state().0 =~= empty_graph().0);
            assert(project.graph.state().1 =~= empty_graph().1);
            assert(project.graph.state().2 =~= empty_graph().2);
        }
        assert(project.t_usages_view() =~= Seq::<(int, int)>::empty());
        assert(project.routes_rows_view() =~= Seq::<Seq<char>>::empty());
        assert(project.r_usages_view() =~= Seq::<(int, int)>::empty());
        assert(recs_match(recs, modules@, ord.take(0)));
    }
    loop
        invariant
            modules_wf(modules@),
            paths == module_paths(modules@),
            preds == hard_preds(modules@),
            gfiles == module_files(modules@),
            ord == ord_of(modules@),
            tks == tkeys(base_translations(translations@)),
            scheduler.wf(),
            scheduler.paths_view() == paths,
            scheduler.preds_view() == preds,
            scheduler.parsed@.len() == modules@.len(),
            forall|j: int|
                0 <= j < modules@.len() ==> ((#[trigger] scheduler.parsed@[j]) ==> extract_spec(
                    modules@[j].0@,
                    modules@[j].1.items@,
                ) is Ok),
            0 <= k <= ord.len(),
            recs.len() == k,
            recs_match(recs, modules@, ord.take(k)),
            release_seq(paths, preds, scheduler.parsed@) == ord.skip(k),
            project.wf(),
            project.project_root@ == project_root@,
            project.project_name@ == project_name@,
            project.graph.resolver.files_view() == gfiles,
            project.translations_view() == base_translations(translations@),
            db_fold(recs, modules@, ord, gfiles, tks, k).1,
            project.graph.state() == db_fold(recs, modules@, ord, gfiles, tks, k).0.0,
            project.t_usages_view() == db_fold(recs, modules@, ord, gfiles, tks, k).0.1,
            project.routes_rows_view() == db_fold(recs, modules@, ord, gfiles, tks, k).0.2,
            project.r_usages_view() == db_fold(recs, modules@, ord, gfiles, tks, k).0.3,
            i18n_config.names_view() == seq!["t"@, "translate"@],
            route_config.element_name@ == "Route"@,
            route_config.path_attr@ == "path"@,
            route_config.target_attr@ == "component"@,
        ensures
            k == ord.len(),
            recs_match(recs, modules@, ord),
            project.wf(),
            project.project_root@ == project_root@,
            project.project_name@ == project_name@,
            project.translations_view() == base_translations(translations@),
            db_fold(recs, modules@, ord, gfiles, tks, ord.len() as int).1,
            project.graph.state() == db_fold(recs, modules@, ord, gfiles, tks, ord.len() as int).0.0,
            project.t_usages_view() == db_fold(recs, modules@, ord, gfiles, tks, ord.len() as int).0.1,
            project.routes_rows_view() == db_fold(recs, modules@, ord, gfiles, tks, ord.len() as int).0.2,
            project.r_usages_view() == db_fold(recs, modules@, ord, gfiles, tks, ord.len() as int).0.3,
            forall|j: int|
                0 <= j < modules@.len() ==> extract_spec(
                    (#[trigger] modules@[j]).0@,
                    modules@[j].1.items@,
                ) is Ok,
        decreases count_unparsed(scheduler.parsed@),
    {
        let next = scheduler.get_one_candidate();
        match next {
            None => {
                proof {
                    assert(release_seq(paths, preds, scheduler.parsed@) =~= Seq::<int>::empty());
                    assert(ord.skip(k).len() == 0);
                    assert(k == ord.len());
                    assert(ord.take(k) =~= ord);
                    assert forall|j: int| 0 <= j < modules@.len() implies extract_spec(
                        (#[trigger] modules@[j]).0@,
                        modules@[j].1.items@,
                    ) is Ok by {
                        assert(scheduler.parsed@[j]);
                    }
                }
                break ;
            },
            Some(c) => {
                let ghost n = sched_next(paths, preds, scheduler.parsed@)->Some_0;
                proof {
                    crate::scheduler::lemma_sched_next_unparsed(paths, preds, scheduler.parsed@);
                    assert(ord.skip(k).len() > 0);
                    assert(k < ord.len());
                    assert(ord.skip(k)[0] == ord[k]);
                    assert(ord[k] == n);
                    assert(c@ == paths[n]);
                    assert(paths[n] == modules@[n].0@);
                    assert(release_seq(paths, preds, scheduler.parsed@.update(n, true))
                        =~= ord.skip(k).drop_first());
                    assert(ord.skip(k).drop_first() =~= ord.skip(k + 1));
                }
                let idx = match find_module(modules, &c) {
                    Some(idx) => idx,
                    None => {
                        proof {
                            assert(modules@[n].0@ == c@);
                            assert(false);
                        }
                        break ;
                    },
                };
                proof {
                    if (idx as int) < n {
                        assert(modules@[idx as int].0@ != modules@[n].0@);
                        assert(false);
                    } else if n < idx as int {
                        assert(modules@[n].0@ != modules@[idx as int].0@);
                        assert(false);
                    }
                    assert(idx as int == n);
                    assert(modules@[n].1.wf());
                }
                let module_src = &modules[idx].0;
                let module_ast = &modules[idx].1;
                let symbol_dependency = match collect_symbol_dependency(
                    module_ast,
                    module_src.as_str(),
                ) {
                    Ok(rec) => rec,
                    Err(e) => {
                        proof {
                            assert(extract_spec(modules@[n].0@, modules@[n].1.items@) == Err::<
                                SymbolDependencyV,
                                ExtractorError,
                            >(e));
                        }
                        return Err(PipelineError::Extractor(e));
                    },
                };
                let ghost st0 = db_fold(recs, modules@, ord, gfiles, tks, k).0;
                let ghost recs2 = recs.push(symbol_dependency);
                proof {
                    lemma_db_fold_frame(recs, recs2, modules@, ord, gfiles, tks, k);
                    lemma_recs_match_push(recs, symbol_dependency, modules@, ord, k);
                    assert(recs_match(recs2, modules@, ord.take(k + 1)));
                }
                let module_id = project.add_module(&symbol_dependency);
                proof {
                    assert(project.graph.state() == apply_record(st0.0, gfiles, symbol_dependency));
                    assert(module_id as int == s_module(st0.0, symbol_dependency.canonical_path@).1);
                }
                let i18n_usage = crate::i18n::collect_translation(module_ast, &i18n_config);
                match project.add_i18n_usage(module_id, &i18n_usage) {
                    Ok(_) => {},
                    Err(e) => {
                        proof {
                            assert(!db_step(
                                st0,
                                gfiles,
                                tks,
                                symbol_dependency,
                                modules@[n].1.items@,
                            ).1);
                            assert(!db_fold(recs2, modules@, ord, gfiles, tks, k + 1).1);
                        }
                        return Err(PipelineError::Overlay(e));
                    },
                }
                let route_usage = match collect_route_dependency(
                    module_ast,
                    &symbol_dependency,
                    &route_config,
                ) {
                    Ok(rs) => rs,
                    Err(e) => {
                        proof {
                            assert(symbol_dependency.local_names() =~= local_keys(
                                symbol_dependency@,
                            ));
                            assert(extract_spec(modules@[n].0@, modules@[n].1.items@) matches Ok(v)
                                && !routes_ok(
                                routes_upto(
                                    modules@[n].1.items@,
                                    "Route"@,
                                    "path"@,
                                    "component"@,
                                    modules@[n].1.items@.len() as int,
                                ),
                                local_keys(v),
                            ));
                        }
                        return Err(PipelineError::Route(e));
                    },
                };
                match project.add_route_usage(module_id, &route_usage) {
                    Ok(_) => {},
                    Err(e) => {
                        proof {
                            assert(!db_step(
                                st0,
                                gfiles,
                                tks,
                                symbol_dependency,
                                modules@[n].1.items@,
                            ).1);
                            assert(!db_fold(recs2, modules@, ord, gfiles, tks, k + 1).1);
                        }
                        return Err(PipelineError::Overlay(e));
                    },
                }
                proof {
                    let step = db_step(st0, gfiles, tks, symbol_dependency, modules@[n].1.items@);
                    assert(step.1);
                    assert(project.graph.state() == step.0.0);
                    assert(project.t_usages_view() == step.0.1);
                    assert(project.routes_rows_view() == step.0.2);
                    assert(project.r_usages_view() == step.0.3);
                    assert(db_fold(recs2, modules@, ord, gfiles, tks, k + 1) == (step.0, true));
                    recs = recs2;
                    k = k + 1;
                }
                let ghost before = scheduler.parsed@;
                scheduler.mark_candidate_as_parsed(&c);
                proof {
                    assert forall|j: int| 0 <= j < before.len() implies scheduler.parsed@[j] == (
                    before.update(n, true)[j]) by {
                        if j != n {
                            if paths[j] == c@ {
                                if j < n {
                                    assert(modules@[j].0@ != modules@[n].0@);
                                } else {
                                    assert(modules@[n].0@ != modules@[j].0@);
                                }
                                assert(false);
                            }
                        }
                    }
                    assert(scheduler.parsed@ =~= before.update(n, true));
                    assert(release_seq(paths, preds, scheduler.parsed@) == ord.skip(k));
                    assert forall|j: int|
                        0 <= j < modules@.len() && #[trigger] scheduler.parsed@[j] implies extract_spec(
                        modules@[j].0@,
                        modules@[j].1.items@,
                    ) is Ok by {
                        if j != n {
                            assert(before[j]);
                        }
                    }
                    crate::scheduler::lemma_count_strict(before, scheduler.parsed@, n);
                    crate::scheduler::lemma_count_nonneg(scheduler.parsed@);
                    crate::scheduler::lemma_count_nonneg(before);
                }
            },
        }
    }
    proof {
        assert(recs_match(recs, modules@, ord));
    }
    Ok(project)
}

/// Paths of the discovered modules.
fn clone_paths(modules: &Vec<(String, ModuleAst)>) -> (r: Vec<String>)
    ensures
        r@.len() == modules@.len(),
        forall|j: int| 0 <= j < modules@.len() ==> r@[j]@ == (#[trigger] modules@[j]).0@,
{
    let mut v: Vec<String> = Vec::new();
    let mut i: usize = 0;
    while i < modules.len()
        invariant
            0 <= i <= modules@.len(),
            v@.len() == i,
            forall|j: int| 0 <= j < i ==> v@[j]@ == (#[trigger] modules@[j]).0@,
        decreases modules@.len() - i,
    {
        v.push(modules[i].0.clone());
        i += 1;
    }
    v
}

} // verus!
