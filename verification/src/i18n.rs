//! The i18n collector. Each call of a configured translator
//! identifier whose first argument is a string literal marks that key as
//! used by the local symbol whose top-level declaration encloses the call.
//! Keys are deduplicated per symbol; calls at module top level, outside any
//! named declaration, are dropped.

use vstd::prelude::*;
use crate::ast::{CallExpr, Expr, ModuleAst, ModuleItem};
use crate::bytes::string_eq;
use crate::model::{anon_default_name, anon_default_symbol_name};

verus! {

/// The translator identifiers recognized as i18n usage.
pub struct I18nConfig {
    pub translator_names: Vec<String>,
}

impl I18nConfig {
    pub open spec fn names_view(&self) -> Seq<Seq<char>> {
        self.translator_names@.map_values(|s: String| s@)
    }

    /// The default configuration: `t` and `translate`.
    pub fn standard() -> (r: Self)
        ensures
            r.names_view() == seq!["t"@, "translate"@],
    {
        let mut v: Vec<String> = Vec::new();
        v.push("t".to_owned());
        v.push("translate".to_owned());
        proof {
            assert(v@.map_values(|s: String| s@) =~= seq!["t"@, "translate"@]);
        }
        I18nConfig { translator_names: v }
    }
}

/// The translation keys used by the calls, in first-use order, duplicates
/// dropped.
pub open spec fn keys_upto(calls: Seq<CallExpr>, tnames: Seq<Seq<char>>, bound: int) -> Seq<
    Seq<char>,
>
    decreases bound,
{
    if bound <= 0 {
        Seq::empty()
    } else {
        let acc = keys_upto(calls, tnames, bound - 1);
        let c = calls[bound - 1];
        if tnames.contains(c.callee@) && c.string_arg is Some && !acc.contains(
            c.string_arg->Some_0@,
        ) {
            acc.push(c.string_arg->Some_0@)
        } else {
            acc
        }
    }
}

/// The per-symbol key usage one item contributes: every name a declaration
/// binds gets the keys of the calls in its initializer; an anonymous
/// default export gets them under the reserved name; top-level statements
/// contribute nothing.
pub open spec fn item_usage(item: ModuleItem, tnames: Seq<Seq<char>>) -> Seq<
    (Seq<char>, Seq<Seq<char>>),
> {
    match item {
        ModuleItem::Decl { names, init, .. } => match init {
            Some(e) => {
                let ks = keys_upto(e.calls@, tnames, e.calls@.len() as int);
                if ks.len() > 0 {
                    names@.map_values(|n: String| (n@, ks))
                } else {
                    Seq::empty()
                }
            },
            None => Seq::empty(),
        },
        ModuleItem::ExportDefaultExpr { init } => {
            let ks = keys_upto(init.calls@, tnames, init.calls@.len() as int);
            if ks.len() > 0 {
                seq![(anon_default_name(), ks)]
            } else {
                Seq::empty()
            }
        },
        _ => Seq::empty(),
    }
}

/// The module's whole i18n usage, in item order.
pub open spec fn usage_upto(items: Seq<ModuleItem>, tnames: Seq<Seq<char>>, bound: int) -> Seq<
    (Seq<char>, Seq<Seq<char>>),
>
    decreases bound,
{
    if bound <= 0 {
        Seq::empty()
    } else {
        usage_upto(items, tnames, bound - 1) + item_usage(items[bound - 1], tnames)
    }
}

/// View of an exec usage table.
pub open spec fn usage_view(u: Seq<(String, Vec<String>)>) -> Seq<(Seq<char>, Seq<Seq<char>>)> {
    u.map_values(|p: (String, Vec<String>)| (p.0@, p.1@.map_values(|k: String| k@)))
}

/// The keys used by one expression's calls.
fn collect_keys(e: &Expr, config: &I18nConfig) -> (r: Vec<String>)
    ensures
        r@.map_values(|k: String| k@) == keys_upto(
            e.calls@,
            config.names_view(),
            e.calls@.len() as int,
        ),
{
    let ghost tn = config.names_view();
    let mut acc: Vec<String> = Vec::new();
    let mut i: usize = 0;
    proof {
        assert(acc@.map_values(|k: String| k@) =~= keys_upto(e.calls@, tn, 0));
    }
    while i < e.calls.len()
        invariant
            tn == config.names_view(),
            0 <= i <= e.calls@.len(),
            acc@.map_values(|k: String| k@) == keys_upto(e.calls@, tn, i as int),
        decreases e.calls@.len() - i,
    {
        let c = &e.calls[i];
        if name_listed(&config.translator_names, &c.callee) {
            match &c.string_arg {
                Some(key) => {
                    if !name_listed(&acc, key) {
                        let ghost oldm = acc@.map_values(|k: String| k@);
                        let ghost oldv = acc@;
                        acc.push(key.clone());
                        proof {
                            let m = acc@.map_values(|k: String| k@);
                            assert forall|j: int| 0 <= j < m.len() implies m[j] == oldm.push(
                                key@,
                            )[j] by {
                                if j < oldm.len() {
                                    assert(acc@[j] == oldv[j]);
                                }
                            }
                            assert(m =~= oldm.push(key@));
                        }
                    }
                },
                None => {},
            }
        }
        proof {
            assert(acc@.map_values(|k: String| k@) =~= keys_upto(e.calls@, tn, i + 1));
        }
        i += 1;
    }
    acc
}

/// Membership of a string in a list, by value.
fn name_listed(v: &Vec<String>, x: &String) -> (r: bool)
    ensures
        r == v@.map_values(|s: String| s@).contains(x@),
{
    let ghost vv = v@.map_values(|s: String| s@);
    let mut i: usize = 0;
    while i < v.len()
        invariant
            vv == v@.map_values(|s: String| s@),
            0 <= i <= v@.len(),
            forall|j: int| 0 <= j < i ==> vv[j] != x@,
        decreases v@.len() - i,
    {
        if string_eq(&v[i], x) {
            proof {
                assert(vv[i as int] == x@);
            }
            return true;
        }
        i += 1;
    }
    proof {
        if vv.contains(x@) {
            let w = choose|w: int| 0 <= w < vv.len() && vv[w] == x@;
            assert(false);
        }
    }
    false
}

/// The i18n usage of one module: translation keys per enclosing local
/// symbol.
pub fn collect_translation(ast: &ModuleAst, config: &I18nConfig) -> (r: Vec<(String, Vec<String>)>)
    ensures
        usage_view(r@) == usage_upto(ast.items@, config.names_view(), ast.items@.len() as int),
{
    let ghost items = ast.items@;
    let ghost tn = config.names_view();
    let mut out: Vec<(String, Vec<String>)> = Vec::new();
    let mut i: usize = 0;
    proof {
        assert(usage_view(out@) =~= usage_upto(items, tn, 0));
    }
    while i < ast.items.len()
        invariant
            items == ast.items@,
            tn == config.names_view(),
            0 <= i <= items.len(),
            usage_view(out@) == usage_upto(items, tn, i as int),
        decreases items.len() - i,
    {
        let ghost pre = usage_view(out@);
        match &ast.items[i] {
            ModuleItem::Decl { names, init, .. } => {
                match init {
                    Some(e) => {
                        let keys = collect_keys(e, config);
                        let ghost ks = keys@.map_values(|k: String| k@);
                        if keys.len() > 0 {
                            let ghost inames = names@;
                            let mut k: usize = 0;
                            while k < names.len()
                                invariant
                                    items == ast.items@,
                                    0 <= i < items.len(),
                                    items[i as int] matches ModuleItem::Decl { names: n2, init: i2, .. }
                                        && n2 == *names && (i2 matches Some(e3) && e3 == *e),
                                    inames == names@,
                                    ks == keys@.map_values(|kk: String| kk@),
                                    ks == keys_upto(e.calls@, tn, e.calls@.len() as int),
                                    ks.len() > 0,
                                    tn == config.names_view(),
                                    0 <= k <= inames.len(),
                                    usage_view(out@) == pre + inames.map_values(
                                        |n: String| (n@, ks),
                                    ).take(k as int),
                                decreases inames.len() - k,
                            {
                                let ghost oldm = usage_view(out@);
                                let ghost oldv = out@;
                                out.push((names[k].clone(), clone_keys(&keys)));
                                proof {
                                    let m = usage_view(out@);
                                    assert forall|j: int| 0 <= j < m.len() implies m[j] == oldm.push(
                                        (inames[k as int]@, ks),
                                    )[j] by {
                                        if j < oldm.len() {
                                            assert(out@[j] == oldv[j]);
                                        }
                                    }
                                    assert(m =~= oldm.push((inames[k as int]@, ks)));
                                    assert(inames.map_values(|n: String| (n@, ks)).take(k as int).push(
                                        (inames[k as int]@, ks),
                                    ) =~= inames.map_values(|n: String| (n@, ks)).take(k + 1));
                                    assert(m =~= pre + inames.map_values(|n: String| (n@, ks)).take(
                                        k + 1,
                                    ));
                                }
                                k += 1;
                            }
                            proof {
                                let full = inames.map_values(|n: String| (n@, ks));
                                assert(full.take(full.len() as int) =~= full);
                                assert(usage_view(out@) =~= pre + item_usage(items[i as int], tn));
                            }
                        } else {
                            proof {
                                assert(item_usage(items[i as int], tn) =~= Seq::<
                                    (Seq<char>, Seq<Seq<char>>),
                                >::empty());
                                assert(usage_view(out@) =~= pre + item_usage(items[i as int], tn));
                            }
                        }
                    },
                    None => {
                        proof {
                            assert(usage_view(out@) =~= pre + item_usage(items[i as int], tn));
                        }
                    },
                }
            },
            ModuleItem::ExportDefaultExpr { init } => {
                let keys = collect_keys(init, config);
                let ghost ks = keys@.map_values(|k: String| k@);
                if keys.len() > 0 {
                    let ghost oldm = usage_view(out@);
                    let ghost oldv = out@;
                    out.push((anon_default_symbol_name(), keys));
                    proof {
                        let m = usage_view(out@);
                        assert forall|j: int| 0 <= j < m.len() implies m[j] == oldm.push(
                            (anon_default_name(), ks),
                        )[j] by {
                            if j < oldm.len() {
                                assert(out@[j] == oldv[j]);
                            }
                        }
                        assert(m =~= oldm.push((anon_default_name(), ks)));
                        assert(m =~= pre + item_usage(items[i as int], tn));
                    }
                } else {
                    proof {
                        assert(usage_view(out@) =~= pre + item_usage(items[i as int], tn));
                    }
                }
            },
            _ => {
                proof {
                    assert(item_usage(items[i as int], tn) =~= Seq::<
                        (Seq<char>, Seq<Seq<char>>),
                    >::empty());
                    assert(usage_view(out@) =~= pre + item_usage(items[i as int], tn));
                }
            },
        }
        proof {
            assert(usage_view(out@) =~= usage_upto(items, tn, i + 1));
        }
        i += 1;
    }
    out
}

/// Element-wise copy of a key list.
fn clone_keys(src: &Vec<String>) -> (r: Vec<String>)
    ensures
        r@ == src@,
{
    let mut v: Vec<String> = Vec::new();
    let mut i: usize = 0;
    while i < src.len()
        invariant
            0 <= i <= src@.len(),
            v@ =~= src@.take(i as int),
        decreases src@.len() - i,
    {
        v.push(src[i].clone());
        proof {
            assert(v@ =~= src@.take(i + 1));
        }
        i += 1;
    }
    proof {
        assert(src@.take(src@.len() as int) =~= src@);
        assert(v@ =~= src@);
    }
    v
}

/// The i18n overlay: per module, the keys each local symbol uses.
pub struct I18nToSymbol {
    pub config: I18nConfig,
    pub table: Vec<(String, Vec<(String, Vec<String>)>)>,
}

impl I18nToSymbol {
    pub fn new() -> (r: Self)
        ensures
            r.table@.len() == 0,
            r.config.names_view() == seq!["t"@, "translate"@],
    {
        I18nToSymbol { config: I18nConfig::standard(), table: Vec::new() }
    }

    /// Record the module's i18n usage under its path.
    pub fn collect_i18n_usage(&mut self, module_src: &str, ast: &ModuleAst)
        ensures
            final(self).config == old(self).config,
            final(self).table@.len() == old(self).table@.len() + 1,
            forall|j: int|
                0 <= j < old(self).table@.len() ==> final(self).table@[j] == old(self).table@[j],
            final(self).table@.last().0@ == module_src@,
            usage_view(final(self).table@.last().1@) == usage_upto(
                ast.items@,
                old(self).config.names_view(),
                ast.items@.len() as int,
            ),
    {
        let usage = collect_translation(ast, &self.config);
        self.table.push((module_src.to_owned(), usage));
    }
}

} // verus!
