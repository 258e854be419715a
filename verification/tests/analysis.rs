use dep_tracker::ast::{
    Attr, AttrValue, CallExpr, ExportName, ExportSpecifier, Expr, ImportClause, ModuleAst,
    ModuleItem, RouteElement,
};
use dep_tracker::extractor::{collect_symbol_dependency, ExtractorError};
use dep_tracker::model::{ModuleExport, SymbolVariant};
use dep_tracker::pipeline::{parse_project_to_database, parse_project_to_portable};
use dep_tracker::project::Project;

fn empty_expr() -> Expr {
    Expr { refs: vec![], calls: vec![], routes: vec![] }
}

fn expr_with_refs(refs: &[&str]) -> Expr {
    Expr { refs: refs.iter().map(|s| s.to_string()).collect(), calls: vec![], routes: vec![] }
}

fn decl(names: &[&str], init: Option<Expr>, exported: bool) -> ModuleItem {
    ModuleItem::Decl { names: names.iter().map(|s| s.to_string()).collect(), init, exported }
}

fn module(items: Vec<ModuleItem>) -> ModuleAst {
    ModuleAst { items }
}

fn analyze(modules: Vec<(&str, ModuleAst)>) -> Project {
    let owned: Vec<(String, ModuleAst)> =
        modules.into_iter().map(|(p, a)| (p.to_string(), a)).collect();
    parse_project_to_database("default_project", "", &owned, &vec![]).expect("analysis failed")
}

fn node_id(p: &Project, module: &str, variant: SymbolVariant, name: &str) -> usize {
    let mid = p
        .graph
        .modules
        .iter()
        .position(|m| m == module)
        .unwrap_or_else(|| panic!("module {} missing", module));
    p.graph
        .nodes
        .iter()
        .position(|n| n.module_id == mid && n.variant == variant && n.name == name)
        .unwrap_or_else(|| panic!("node {}:{:?}:{} missing", module, variant, name))
}

fn has_edge(p: &Project, a: usize, b: usize) -> bool {
    p.graph.edges.iter().any(|e| *e == (a, b))
}

#[test]
fn simple_re_export() {
    // a.js: export const x = 1
    // b.js: export { x } from './a'
    let a = module(vec![decl(&["x"], Some(empty_expr()), true)]);
    let b = module(vec![ModuleItem::ExportNamed {
        specifiers: vec![ExportSpecifier {
            orig: ExportName::Named("x".to_string()),
            exported: ExportName::Named("x".to_string()),
        }],
        src: Some("./a".to_string()),
    }]);
    let p = analyze(vec![("a.js", a), ("b.js", b)]);
    let a_local_x = node_id(&p, "a.js", SymbolVariant::LocalVariable, "x");
    let a_export_x = node_id(&p, "a.js", SymbolVariant::NamedExport, "x");
    let b_export_x = node_id(&p, "b.js", SymbolVariant::NamedExport, "x");
    assert!(has_edge(&p, b_export_x, a_export_x));
    assert!(has_edge(&p, a_export_x, a_local_x));
    assert_eq!(p.graph.edges.len(), 2);
}

#[test]
fn namespace_import_skips_anonymous_default() {
    // a.js: export const x = 1; export default 42
    // b.js: import * as A from './a'; export const y = A.x
    let a = module(vec![
        decl(&["x"], Some(empty_expr()), true),
        ModuleItem::ExportDefaultExpr { init: empty_expr() },
    ]);
    let b = module(vec![
        ModuleItem::Import {
            src: "./a".to_string(),
            clauses: vec![ImportClause::Namespace { local: "A".to_string() }],
        },
        decl(&["y"], Some(expr_with_refs(&["A"])), true),
    ]);
    let p = analyze(vec![("b.js", b), ("a.js", a)]);
    let a_export_x = node_id(&p, "a.js", SymbolVariant::NamedExport, "x");
    let b_local_a = node_id(&p, "b.js", SymbolVariant::LocalVariable, "A");
    let b_local_y = node_id(&p, "b.js", SymbolVariant::LocalVariable, "y");
    let b_export_y = node_id(&p, "b.js", SymbolVariant::NamedExport, "y");
    assert!(has_edge(&p, b_local_a, a_export_x));
    assert!(has_edge(&p, b_local_y, b_local_a));
    assert!(has_edge(&p, b_export_y, b_local_y));
    // the namespace expansion reaches exactly one target: a's named export x
    let expansions: Vec<_> =
        p.graph.edges.iter().filter(|e| e.0 == b_local_a).collect();
    assert_eq!(expansions.len(), 1);
}

#[test]
fn anonymous_default_symbol() {
    // a.js: export default function(){ return t('hello') }
    let a = module(vec![ModuleItem::ExportDefaultExpr {
        init: Expr {
            refs: vec![],
            calls: vec![CallExpr {
                callee: "t".to_string(),
                string_arg: Some("hello".to_string()),
            }],
            routes: vec![],
        },
    }]);
    let rec = collect_symbol_dependency(&a, "a.js").expect("extraction failed");
    let reserved = dep_tracker::model::anon_default_symbol_name();
    assert!(rec.local_variable_table.iter().any(|(n, _)| *n == reserved));
    match &rec.default_export {
        Some(ModuleExport::Local(n)) => assert_eq!(*n, reserved),
        other => panic!("unexpected default export: {:?}", other.is_some()),
    }
    let config = dep_tracker::i18n::I18nConfig::standard();
    let usage = dep_tracker::i18n::collect_translation(&a, &config);
    assert_eq!(usage.len(), 1);
    assert_eq!(usage[0].0, reserved);
    assert_eq!(usage[0].1, vec!["hello".to_string()]);
}

#[test]
fn unresolvable_import_is_dropped() {
    // b.js: import X from './missing'; export const y = X
    let b = module(vec![
        ModuleItem::Import {
            src: "./missing".to_string(),
            clauses: vec![ImportClause::Default { local: "X".to_string() }],
        },
        decl(&["y"], Some(expr_with_refs(&["X"])), true),
    ]);
    let p = analyze(vec![("b.js", b)]);
    let b_local_x = node_id(&p, "b.js", SymbolVariant::LocalVariable, "X");
    let b_local_y = node_id(&p, "b.js", SymbolVariant::LocalVariable, "y");
    let b_export_y = node_id(&p, "b.js", SymbolVariant::NamedExport, "y");
    assert!(has_edge(&p, b_local_y, b_local_x));
    assert!(has_edge(&p, b_export_y, b_local_y));
    // X has no outgoing edge: the unresolvable specifier left no trace
    assert!(p.graph.edges.iter().all(|e| e.0 != b_local_x));
    assert_eq!(p.graph.edges.len(), 2);
}

#[test]
fn star_re_export_mirrors_named_exports() {
    // a.js: export const x = 1; export const y = 2
    // b.js: export * from './a'
    let a = module(vec![
        decl(&["x"], Some(empty_expr()), true),
        decl(&["y"], Some(empty_expr()), true),
    ]);
    let b = module(vec![ModuleItem::ExportStar { src: "./a".to_string() }]);
    let p = analyze(vec![("b.js", b), ("a.js", a)]);
    let a_export_x = node_id(&p, "a.js", SymbolVariant::NamedExport, "x");
    let a_export_y = node_id(&p, "a.js", SymbolVariant::NamedExport, "y");
    let b_export_x = node_id(&p, "b.js", SymbolVariant::NamedExport, "x");
    let b_export_y = node_id(&p, "b.js", SymbolVariant::NamedExport, "y");
    assert!(has_edge(&p, b_export_x, a_export_x));
    assert!(has_edge(&p, b_export_y, a_export_y));
}

#[test]
fn route_and_translation_overlays() {
    // a.js: function Home(){ return t('home.title') }
    //       <Route path="/home" component={Home}/>
    let a = module(vec![
        decl(
            &["Home"],
            Some(Expr {
                refs: vec![],
                calls: vec![CallExpr {
                    callee: "t".to_string(),
                    string_arg: Some("home.title".to_string()),
                }],
                routes: vec![],
            }),
            false,
        ),
        ModuleItem::Stmt {
            expr: Expr {
                refs: vec![],
                calls: vec![],
                routes: vec![RouteElement {
                    element: "Route".to_string(),
                    attrs: vec![
                        Attr {
                            name: "path".to_string(),
                            value: AttrValue::Str("/home".to_string()),
                        },
                        Attr {
                            name: "component".to_string(),
                            value: AttrValue::Idents(vec!["Home".to_string()]),
                        },
                    ],
                }],
            },
        },
    ]);
    let modules = vec![("a.js".to_string(), a)];
    let translations = vec![("home.title".to_string(), "Home".to_string())];
    let p = parse_project_to_database("default_project", "", &modules, &translations)
        .expect("analysis failed");
    let home = node_id(&p, "a.js", SymbolVariant::LocalVariable, "Home");
    assert_eq!(p.routes, vec!["/home".to_string()]);
    assert_eq!(p.route_usages, vec![(0, home)]);
    assert_eq!(p.translations, translations);
    assert_eq!(p.translation_usages, vec![(0, home)]);
}

#[test]
fn duplicate_local_binding_is_fatal() {
    let a = module(vec![
        decl(&["x"], Some(empty_expr()), false),
        decl(&["x"], Some(empty_expr()), false),
    ]);
    match collect_symbol_dependency(&a, "a.js") {
        Err(e) => assert_eq!(e, ExtractorError::DuplicateLocalBinding),
        Ok(_) => panic!("expected a duplicate-binding error"),
    }
}

#[test]
fn duplicate_named_export_is_fatal() {
    let a = module(vec![
        decl(&["x"], Some(empty_expr()), true),
        ModuleItem::ExportNamed {
            specifiers: vec![ExportSpecifier {
                orig: ExportName::Named("y".to_string()),
                exported: ExportName::Named("x".to_string()),
            }],
            src: Some("./c".to_string()),
        },
        decl(&["y"], Some(empty_expr()), false),
    ]);
    match collect_symbol_dependency(&a, "a.js") {
        Err(e) => assert_eq!(e, ExtractorError::DuplicateNamedExport),
        Ok(_) => panic!("expected a duplicate-export error"),
    }
}

#[test]
fn namespace_default_re_export_is_rejected() {
    // export * as default from './a' is statically impossible
    let a = module(vec![ModuleItem::ExportStarAs {
        name: ExportName::Default,
        src: "./a".to_string(),
    }]);
    match collect_symbol_dependency(&a, "b.js") {
        Err(e) => assert_eq!(e, ExtractorError::MalformedDefaultExport),
        Ok(_) => panic!("expected a malformed-default error"),
    }
}

#[test]
fn local_default_specifier_without_source_is_rejected() {
    // export { default } without a source is ill-formed
    let a = module(vec![ModuleItem::ExportNamed {
        specifiers: vec![ExportSpecifier {
            orig: ExportName::Default,
            exported: ExportName::Default,
        }],
        src: None,
    }]);
    match collect_symbol_dependency(&a, "b.js") {
        Err(e) => assert_eq!(e, ExtractorError::MalformedDefaultExport),
        Ok(_) => panic!("expected a malformed-default error"),
    }
}

#[test]
fn default_re_export_via_specifier() {
    // b.js: export { default as c } from './a'
    let b = module(vec![ModuleItem::ExportNamed {
        specifiers: vec![ExportSpecifier {
            orig: ExportName::Default,
            exported: ExportName::Named("c".to_string()),
        }],
        src: Some("./a".to_string()),
    }]);
    let a2 = module(vec![
        decl(&["z"], Some(empty_expr()), false),
        ModuleItem::ExportDefaultIdent { name: "z".to_string() },
    ]);
    let p = analyze(vec![("a.js", a2), ("b.js", b)]);
    let a_default = node_id(&p, "a.js", SymbolVariant::DefaultExport, "");
    let a_local_z = node_id(&p, "a.js", SymbolVariant::LocalVariable, "z");
    let b_export_c = node_id(&p, "b.js", SymbolVariant::NamedExport, "c");
    assert!(has_edge(&p, a_default, a_local_z));
    assert!(has_edge(&p, b_export_c, a_default));
}

#[test]
fn used_by_is_the_transpose() {
    let a = module(vec![decl(&["x"], Some(empty_expr()), true)]);
    let owned = vec![("a.js".to_string(), a)];
    let portable = parse_project_to_portable("", &owned, vec![]).expect("analysis failed");
    let g = &portable.used_by_graph;
    // depend-on had exactly NamedExport(x) -> LocalVariable(x); used-by reverses it
    assert_eq!(g.edges.len(), 1);
    let (src, dst) = g.edges[0];
    assert_eq!(g.nodes[src].variant, SymbolVariant::LocalVariable);
    assert_eq!(g.nodes[dst].variant, SymbolVariant::NamedExport);
    // transposing twice gives the depend-on pair back
    let twice: Vec<(usize, usize)> = g.edges.iter().map(|e| (e.1, e.0)).collect();
    assert_eq!(twice, vec![(dst, src)]);
}

#[test]
fn edge_endpoints_always_exist() {
    let a = module(vec![
        decl(&["x"], Some(empty_expr()), true),
        decl(&["y"], Some(expr_with_refs(&["x"])), true),
    ]);
    let p = analyze(vec![("a.js", a)]);
    for e in &p.graph.edges {
        assert!(e.0 < p.graph.nodes.len());
        assert!(e.1 < p.graph.nodes.len());
    }
}

#[test]
fn i18n_keys_deduplicated() {
    let a = module(vec![decl(
        &["f"],
        Some(Expr {
            refs: vec![],
            calls: vec![
                CallExpr { callee: "t".to_string(), string_arg: Some("k".to_string()) },
                CallExpr { callee: "t".to_string(), string_arg: Some("k".to_string()) },
                CallExpr { callee: "other".to_string(), string_arg: Some("n".to_string()) },
                CallExpr { callee: "translate".to_string(), string_arg: None },
            ],
            routes: vec![],
        }),
        false,
    )]);
    let config = dep_tracker::i18n::I18nConfig::standard();
    let usage = dep_tracker::i18n::collect_translation(&a, &config);
    assert_eq!(usage.len(), 1);
    assert_eq!(usage[0].1, vec!["k".to_string()]);
}

#[test]
fn top_level_i18n_calls_are_dropped() {
    let a = module(vec![ModuleItem::Stmt {
        expr: Expr {
            refs: vec![],
            calls: vec![CallExpr { callee: "t".to_string(), string_arg: Some("k".to_string()) }],
            routes: vec![],
        },
    }]);
    let config = dep_tracker::i18n::I18nConfig::standard();
    let usage = dep_tracker::i18n::collect_translation(&a, &config);
    assert!(usage.is_empty());
}

#[test]
fn unknown_translation_key_is_dropped() {
    let a = module(vec![decl(
        &["f"],
        Some(Expr {
            refs: vec![],
            calls: vec![CallExpr {
                callee: "t".to_string(),
                string_arg: Some("nope".to_string()),
            }],
            routes: vec![],
        }),
        false,
    )]);
    let modules = vec![("a.js".to_string(), a)];
    let p = parse_project_to_database("default_project", "", &modules, &vec![])
        .expect("analysis failed");
    assert!(p.translation_usages.is_empty());
}

#[test]
fn unknown_route_target_is_fatal() {
    let a = module(vec![ModuleItem::Stmt {
        expr: Expr {
            refs: vec![],
            calls: vec![],
            routes: vec![RouteElement {
                element: "Route".to_string(),
                attrs: vec![
                    Attr { name: "path".to_string(), value: AttrValue::Str("/x".to_string()) },
                    Attr {
                        name: "component".to_string(),
                        value: AttrValue::Idents(vec!["Ghostly".to_string()]),
                    },
                ],
            }],
        },
    }]);
    let modules = vec![("a.js".to_string(), a)];
    let r = parse_project_to_database("default_project", "", &modules, &vec![]);
    assert!(r.is_err());
}
