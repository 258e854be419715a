//! The portable materializer: the self-describing document assembled from
//! the final analysis state. Serialization of the document is I/O and
//! happens outside.

use vstd::prelude::*;
use crate::route::Route;
use crate::used_by::UsedByGraph;

verus! {

/// The portable artifact: project root, translation table, both overlays,
/// and the used-by graph.
pub struct Portable {
    pub project_root: String,
    pub translations: Vec<(String, String)>,
    pub i18n_to_symbol: Vec<(String, Vec<(String, Vec<String>)>)>,
    pub symbol_to_routes: Vec<(String, Vec<Route>)>,
    pub used_by_graph: UsedByGraph,
}

impl Portable {
    /// Assemble the document; nothing is recomputed or dropped.
    pub fn new(
        project_root: String,
        translations: Vec<(String, String)>,
        i18n_to_symbol: Vec<(String, Vec<(String, Vec<String>)>)>,
        symbol_to_routes: Vec<(String, Vec<Route>)>,
        used_by_graph: UsedByGraph,
    ) -> (r: Self)
        ensures
            r.project_root == project_root,
            r.translations == translations,
            r.i18n_to_symbol == i18n_to_symbol,
            r.symbol_to_routes == symbol_to_routes,
            r.used_by_graph == used_by_graph,
    {
        Portable { project_root, translations, i18n_to_symbol, symbol_to_routes, used_by_graph }
    }
}

} // verus!
