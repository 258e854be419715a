//! The route collector. A route declaration is an element of
//! the configured name carrying a string-literal path attribute; the
//! identifiers of its target attribute name the local symbols the route
//! depends on. A target that is not a local symbol of the module is fatal
//! for that module.

use vstd::prelude::*;
use crate::ast::{Attr, AttrValue, Expr, ModuleAst, ModuleItem, RouteElement};
use crate::bytes::string_eq;
use crate::model::SymbolDependency;

verus! {

/// Why route collection failed.
#[derive(PartialEq, Eq, Structural, Clone, Copy, Debug)]
pub enum RouteError {
    /// A route target names a symbol the module does not declare.
    UnknownSymbolForOverlay,
}

/// The structural pattern a route declaration matches.
pub struct RouteConfig {
    pub element_name: String,
    pub path_attr: String,
    pub target_attr: String,
}

impl RouteConfig {
    /// The default pattern: `<Route path="…" component={X}/>`.
    pub fn standard() -> (r: Self)
        ensures
            r.element_name@ == "Route"@,
            r.path_attr@ == "path"@,
            r.target_attr@ == "component"@,
    {
        RouteConfig {
            element_name: "Route".to_owned(),
            path_attr: "path".to_owned(),
            target_attr: "component".to_owned(),
        }
    }
}

/// A route registration: its path and the local symbols it depends on.
pub struct Route {
    pub path: String,
    pub depend_on: Vec<String>,
}

impl Route {
    pub open spec fn view_pair(&self) -> (Seq<char>, Seq<Seq<char>>) {
        (self.path@, self.depend_on@.map_values(|s: String| s@))
    }
}

pub open spec fn routes_view(v: Seq<Route>) -> Seq<(Seq<char>, Seq<Seq<char>>)> {
    v.map_values(|r: Route| r.view_pair())
}

/// First attribute of the given name holding a string literal.
pub open spec fn first_str_attr(attrs: Seq<Attr>, name: Seq<char>) -> Option<Seq<char>>
    decreases attrs.len(),
{
    if attrs.len() == 0 {
        None
    } else if attrs[0].name@ == name && attrs[0].value is Str {
        Some(attrs[0].value->Str_0@)
    } else {
        first_str_attr(attrs.drop_first(), name)
    }
}

/// First attribute of the given name holding identifiers.
pub open spec fn first_idents_attr(attrs: Seq<Attr>, name: Seq<char>) -> Option<Seq<Seq<char>>>
    decreases attrs.len(),
{
    if attrs.len() == 0 {
        None
    } else if attrs[0].name@ == name && attrs[0].value is Idents {
        Some((attrs[0].value->Idents_0)@.map_values(|s: String| s@))
    } else {
        first_idents_attr(attrs.drop_first(), name)
    }
}

/// The route one element declares, if it matches the pattern.
pub open spec fn route_of(
    el: RouteElement,
    element_name: Seq<char>,
    path_attr: Seq<char>,
    target_attr: Seq<char>,
) -> Option<(Seq<char>, Seq<Seq<char>>)> {
    if el.element@ == element_name {
        match first_str_attr(el.attrs@, path_attr) {
            Some(p) => Some(
                (
                    p,
                    match first_idents_attr(el.attrs@, target_attr) {
                        Some(ts) => ts,
                        None => Seq::empty(),
                    },
                ),
            ),
            None => None,
        }
    } else {
        None
    }
}

/// The routes declared by the elements of one expression.
pub open spec fn routes_in_expr_upto(
    els: Seq<RouteElement>,
    element_name: Seq<char>,
    path_attr: Seq<char>,
    target_attr: Seq<char>,
    bound: int,
) -> Seq<(Seq<char>, Seq<Seq<char>>)>
    decreases bound,
{
    if bound <= 0 {
        Seq::empty()
    } else {
        let acc = routes_in_expr_upto(els, element_name, path_attr, target_attr, bound - 1);
        match route_of(els[bound - 1], element_name, path_attr, target_attr) {
            Some(r) => acc.push(r),
            None => acc,
        }
    }
}

/// The expression one item carries, if any.
pub open spec fn expr_of_item(item: ModuleItem) -> Option<Expr> {
    match item {
        ModuleItem::Decl { init, .. } => init,
        ModuleItem::ExportDefaultExpr { init } => Some(init),
        ModuleItem::Stmt { expr } => Some(expr),
        _ => None,
    }
}

/// All routes declared in the module, in item order.
pub open spec fn routes_upto(
    items: Seq<ModuleItem>,
    element_name: Seq<char>,
    path_attr: Seq<char>,
    target_attr: Seq<char>,
    bound: int,
) -> Seq<(Seq<char>, Seq<Seq<char>>)>
    decreases bound,
{
    if bound <= 0 {
        Seq::empty()
    } else {
        routes_upto(items, element_name, path_attr, target_attr, bound - 1) + (match expr_of_item(
            items[bound - 1],
        ) {
            Some(e) => routes_in_expr_upto(
                e.routes@,
                element_name,
                path_attr,
                target_attr,
                e.routes@.len() as int,
            ),
            None => Seq::empty(),
        })
    }
}

/// Every route target is a local symbol of the record.
pub open spec fn routes_ok(rs: Seq<(Seq<char>, Seq<Seq<char>>)>, locals: Seq<Seq<char>>) -> bool {
    forall|i: int, j: int|
        0 <= i < rs.len() && 0 <= j < (#[trigger] rs[i]).1.len() ==> locals.contains(
            #[trigger] rs[i].1[j],
        )
}

/// Collect the module's route registrations, checking every target against
/// the module's local symbols.
pub fn collect_route_dependency(
    ast: &ModuleAst,
    symbol_dependency: &SymbolDependency,
    config: &RouteConfig,
) -> (r: Result<Vec<Route>, RouteError>)
    ensures
        ({
            let rs = routes_upto(
                ast.items@,
                config.element_name@,
                config.path_attr@,
                config.target_attr@,
                ast.items@.len() as int,
            );
            match r {
                Ok(v) => routes_view(v@) == rs && routes_ok(rs, symbol_dependency.local_names()),
                Err(e) => !routes_ok(rs, symbol_dependency.local_names()),
            }
        }),
{
    let routes = gather_routes(ast, config);
    let mut i: usize = 0;
    let ghost rs = routes_view(routes@);
    while i < routes.len()
        invariant
            rs == routes_upto(
                ast.items@,
                config.element_name@,
                config.path_attr@,
                config.target_attr@,
                ast.items@.len() as int,
            ),
            rs == routes_view(routes@),
            rs.len() == routes@.len(),
            0 <= i <= routes@.len(),
            forall|a: int, b: int|
                0 <= a < i && 0 <= b < (#[trigger] rs[a]).1.len()
                    ==> symbol_dependency.local_names().contains(#[trigger] rs[a].1[b]),
        decreases routes@.len() - i,
    {
        let ds = &routes[i].depend_on;
        let mut j: usize = 0;
        while j < ds.len()
            invariant
                rs == routes_upto(
                ast.items@,
                config.element_name@,
                config.path_attr@,
                config.target_attr@,
                ast.items@.len() as int,
            ),
            rs == routes_view(routes@),
                rs.len() == routes@.len(),
                0 <= i < routes@.len(),
                ds == &routes@[i as int].depend_on,
                (#[trigger] rs[i as int]).1 == ds@.map_values(|s: String| s@),
                0 <= j <= ds@.len(),
                forall|b: int|
                    0 <= b < j ==> symbol_dependency.local_names().contains(
                        #[trigger] rs[i as int].1[b],
                    ),
            decreases ds@.len() - j,
        {
            if !is_local_symbol(symbol_dependency, &ds[j]) {
                proof {
                    assert(rs[i as int].1[j as int] == ds@[j as int]@);
                    assert(!routes_ok(rs, symbol_dependency.local_names()));
                }
                return Err(RouteError::UnknownSymbolForOverlay);
            }
            proof {
                assert(rs[i as int].1[j as int] == ds@[j as int]@);
            }
            j += 1;
        }
        i += 1;
    }
    Ok(routes)
}

/// Is `name` a key of the record's local-variable table?
fn is_local_symbol(rec: &SymbolDependency, name: &String) -> (r: bool)
    ensures
        r == rec.local_names().contains(name@),
{
    let ghost kv = rec.local_names();
    let mut i: usize = 0;
    while i < rec.local_variable_table.len()
        invariant
            kv == rec.local_names(),
            kv.len() == rec.local_variable_table@.len(),
            0 <= i <= kv.len(),
            forall|j: int| 0 <= j < i ==> kv[j] != name@,
        decreases kv.len() - i,
    {
        if string_eq(&rec.local_variable_table[i].0, name) {
            proof {
                assert(kv[i as int] == name@);
            }
            return true;
        }
        proof {
            assert(kv[i as int] == rec.local_variable_table@[i as int].0@);
        }
        i += 1;
    }
    proof {
        if kv.contains(name@) {
            let w = choose|w: int| 0 <= w < kv.len() && kv[w] == name@;
            assert(false);
        }
    }
    false
}

/// Collect the module's route declarations, unchecked.
fn gather_routes(ast: &ModuleAst, config: &RouteConfig) -> (r: Vec<Route>)
    ensures
        routes_view(r@) == routes_upto(
            ast.items@,
            config.element_name@,
            config.path_attr@,
            config.target_attr@,
            ast.items@.len() as int,
        ),
{
    let ghost items = ast.items@;
    let ghost en = config.element_name@;
    let ghost pa = config.path_attr@;
    let ghost ta = config.target_attr@;
    let mut out: Vec<Route> = Vec::new();
    let mut i: usize = 0;
    proof {
        assert(routes_view(out@) =~= routes_upto(items, en, pa, ta, 0));
    }
    while i < ast.items.len()
        invariant
            items == ast.items@,
            en == config.element_name@,
            pa == config.path_attr@,
            ta == config.target_attr@,
            0 <= i <= items.len(),
            routes_view(out@) == routes_upto(items, en, pa, ta, i as int),
        decreases items.len() - i,
    {
        let ghost pre = routes_view(out@);
        let expr: Option<&Expr> = match &ast.items[i] {
            ModuleItem::Decl { init, .. } => match init {
                Some(e) => Some(e),
                None => None,
            },
            ModuleItem::ExportDefaultExpr { init } => Some(init),
            ModuleItem::Stmt { expr } => Some(expr),
            _ => None,
        };
        match expr {
            Some(e) => {
                proof {
                    assert(expr_of_item(items[i as int]) == Some(*e));
                }
                let ghost els = e.routes@;
                let mut k: usize = 0;
                while k < e.routes.len()
                    invariant
                        items == ast.items@,
                        en == config.element_name@,
                        pa == config.path_attr@,
                        ta == config.target_attr@,
                        els == e.routes@,
                        0 <= k <= els.len(),
                        routes_view(out@) == pre + routes_in_expr_upto(els, en, pa, ta, k as int),
                    decreases els.len() - k,
                {
                    let el = &e.routes[k];
                    if string_eq(&el.element, &config.element_name) {
                        match find_str_attr(&el.attrs, &config.path_attr) {
                            Some(p) => {
                                let targets = match find_idents_attr(&el.attrs, &config.target_attr) {
                                    Some(ts) => ts,
                                    None => Vec::new(),
                                };
                                let ghost rt = route_of(els[k as int], en, pa, ta)->Some_0;
                                let newr = Route { path: p, depend_on: targets };
                                proof {
                                    assert(newr.view_pair() == rt);
                                }
                                let ghost oldm = routes_view(out@);
                                let ghost oldv = out@;
                                out.push(newr);
                                proof {
                                    let m = routes_view(out@);
                                    assert forall|j: int| 0 <= j < m.len() implies m[j] == oldm.push(
                                        rt,
                                    )[j] by {
                                        if j < oldm.len() {
                                            assert(out@[j] == oldv[j]);
                                        }
                                    }
                                    assert(m =~= oldm.push(rt));
                                    assert(m =~= pre + routes_in_expr_upto(els, en, pa, ta, k + 1));
                                }
                            },
                            None => {
                                proof {
                                    assert(route_of(els[k as int], en, pa, ta) is None);
                                    assert(routes_view(out@) =~= pre + routes_in_expr_upto(
                                        els,
                                        en,
                                        pa,
                                        ta,
                                        k + 1,
                                    ));
                                }
                            },
                        }
                    } else {
                        proof {
                            assert(route_of(els[k as int], en, pa, ta) is None);
                            assert(routes_view(out@) =~= pre + routes_in_expr_upto(
                                els,
                                en,
                                pa,
                                ta,
                                k + 1,
                            ));
                        }
                    }
                    k += 1;
                }
                proof {
                    assert(routes_view(out@) =~= routes_upto(items, en, pa, ta, i + 1));
                }
            },
            None => {
                proof {
                    assert(expr_of_item(items[i as int]) is None);
                    assert(routes_view(out@) =~= routes_upto(items, en, pa, ta, i + 1));
                }
            },
        }
        i += 1;
    }
    out
}

/// First string-literal attribute of the given name, cloned.
fn find_str_attr(attrs: &Vec<Attr>, name: &String) -> (r: Option<String>)
    ensures
        match r {
            Some(p) => first_str_attr(attrs@, name@) == Some(p@),
            None => first_str_attr(attrs@, name@) is None,
        },
{
    let mut i: usize = 0;
    proof {
        assert(attrs@.skip(0) =~= attrs@);
    }
    while i < attrs.len()
        invariant
            0 <= i <= attrs@.len(),
            first_str_attr(attrs@, name@) == first_str_attr(attrs@.skip(i as int), name@),
        decreases attrs@.len() - i,
    {
        let a = &attrs[i];
        proof {
            assert(attrs@.skip(i as int)[0] == attrs@[i as int]);
            assert(attrs@.skip(i as int).drop_first() =~= attrs@.skip(i + 1));
        }
        if string_eq(&a.name, name) {
            match &a.value {
                AttrValue::Str(p) => {
                    return Some(p.clone());
                },
                AttrValue::Idents(_) => {},
            }
        }
        i += 1;
    }
    proof {
        assert(attrs@.skip(i as int).len() == 0);
    }
    None
}

/// First identifier-list attribute of the given name, cloned.
fn find_idents_attr(attrs: &Vec<Attr>, name: &String) -> (r: Option<Vec<String>>)
    ensures
        match r {
            Some(ts) => first_idents_attr(attrs@, name@) == Some(
                ts@.map_values(|s: String| s@),
            ),
            None => first_idents_attr(attrs@, name@) is None,
        },
{
    let mut i: usize = 0;
    proof {
        assert(attrs@.skip(0) =~= attrs@);
    }
    while i < attrs.len()
        invariant
            0 <= i <= attrs@.len(),
            first_idents_attr(attrs@, name@) == first_idents_attr(attrs@.skip(i as int), name@),
        decreases attrs@.len() - i,
    {
        let a = &attrs[i];
        proof {
            assert(attrs@.skip(i as int)[0] == attrs@[i as int]);
            assert(attrs@.skip(i as int).drop_first() =~= attrs@.skip(i + 1));
        }
        if string_eq(&a.name, name) {
            match &a.value {
                AttrValue::Idents(ts) => {
                    let copy = clone_targets(ts);
                    return Some(copy);
                },
                AttrValue::Str(_) => {},
            }
        }
        i += 1;
    }
    proof {
        assert(attrs@.skip(i as int).len() == 0);
    }
    None
}

/// Element-wise copy of a target list.
fn clone_targets(src: &Vec<String>) -> (r: Vec<String>)
    ensures
        r@ == src@,
{
    let mut v: Vec<String> = Vec::new();
    let mut i: usize = 0;
    while i < src.len()
        invariant
            0 <= i <= src@.len(),
            v@ =~= src@.take(i as int),
        decreases src@.len() - i,
    {
        v.push(src[i].clone());
        proof {
            assert(v@ =~= src@.take(i + 1));
        }
        i += 1;
    }
    proof {
        assert(src@.take(src@.len() as int) =~= src@);
        assert(v@ =~= src@);
    }
    v
}

/// The route overlay: per module, its route registrations.
pub struct SymbolToRoutes {
    pub config: RouteConfig,
    pub table: Vec<(String, Vec<Route>)>,
}

impl SymbolToRoutes {
    pub fn new() -> (r: Self)
        ensures
            r.table@.len() == 0,
            r.config.element_name@ == "Route"@,
            r.config.path_attr@ == "path"@,
            r.config.target_attr@ == "component"@,
    {
        SymbolToRoutes { config: RouteConfig::standard(), table: Vec::new() }
    }

    /// Record the module's routes under its path; a target that is not a
    /// local symbol of the module is fatal.
    pub fn collect_route_dependency(
        &mut self,
        ast: &ModuleAst,
        symbol_dependency: &SymbolDependency,
    ) -> (r: Result<(), RouteError>)
        ensures
            ({
                let rs = routes_upto(
                    ast.items@,
                    old(self).config.element_name@,
                    old(self).config.path_attr@,
                    old(self).config.target_attr@,
                    ast.items@.len() as int,
                );
                match r {
                    Ok(u) => {
                        &&& final(self).config == old(self).config
                        &&& final(self).table@.len() == old(self).table@.len() + 1
                        &&& forall|j: int|
                            0 <= j < old(self).table@.len() ==> final(self).table@[j] == old(
                                self,
                            ).table@[j]
                        &&& final(self).table@.last().0@ == symbol_dependency.canonical_path@
                        &&& routes_view(final(self).table@.last().1@) == rs
                        &&& routes_ok(rs, symbol_dependency.local_names())
                    },
                    Err(e) => !routes_ok(rs, symbol_dependency.local_names()) && *final(self)
                        == *old(self),
                }
            }),
    {
        match collect_route_dependency(ast, symbol_dependency, &self.config) {
            Ok(routes) => {
                self.table.push((symbol_dependency.canonical_path.clone(), routes));
                Ok(())
            },
            Err(e) => Err(e),
        }
    }
}

} // verus!
