use crate::loader::{build_server_actions_loader, loader_imports, loader_source, Loader};
use crate::scan::{get_actions, scan_result, ModuleActionMap, ModuleGraph, ScanError};
use vstd::prelude::*;

verus! {

/// What one page contributes to a build: the actions found from its entry
/// module, and the loader to bundle for them (none when there is no action).
pub struct PageActions {
    pub actions: ModuleActionMap,
    pub loader: Option<Loader>,
}

/// Scans the page's module graph from `entry` and synthesizes its loader.
/// With server actions disabled, nothing is scanned and no loader is made.
/// A page without actions gets no loader either, so nothing is bundled or
/// recorded for it.
pub fn create_server_actions_manifest(
    g: &ModuleGraph,
    entry: usize,
    enable_server_actions: bool,
) -> (r: Result<PageActions, ScanError>)
    requires
        g.wf(),
        entry < g@.len(),
    ensures
        !enable_server_actions ==> (r is Ok && r->Ok_0.actions@.len() == 0
            && r->Ok_0.loader is None),
        enable_server_actions && scan_result(g@, entry) is Err ==> r == Err::<
            PageActions,
            ScanError,
        >(ScanError::ParseFailed(scan_result(g@, entry)->Err_0)),
        enable_server_actions && scan_result(g@, entry) is Ok ==> (r is Ok && r->Ok_0.actions@
            == scan_result(g@, entry)->Ok_0),
        enable_server_actions && scan_result(g@, entry) is Ok && scan_result(g@, entry)->Ok_0.len()
            == 0 ==> (r is Ok && r->Ok_0.loader is None),
        enable_server_actions && scan_result(g@, entry) is Ok && scan_result(g@, entry)->Ok_0.len()
            > 0 ==> (r is Ok && r->Ok_0.loader is Some && r->Ok_0.loader->Some_0.source@
            == loader_source(scan_result(g@, entry)->Ok_0)
            && r->Ok_0.loader->Some_0.imports_view() == loader_imports(
            scan_result(g@, entry)->Ok_0,
        )),
{
    if !enable_server_actions {
        return Ok(PageActions { actions: ModuleActionMap::empty(), loader: None });
    }
    let actions = match get_actions(g, entry) {
        Ok(a) => a,
        Err(e) => {
            return Err(e);
        },
    };
    if actions.len() == 0 {
        return Ok(PageActions { actions, loader: None });
    }
    let loader = build_server_actions_loader(&actions);
    Ok(PageActions { actions, loader: Some(loader) })
}

} // verus!
