use crate::action_map::{ActionMap, ActionSeq, OptionActionMap};
use vstd::prelude::*;

verus! {

/// What the Marker Extractor reported for one module.
pub enum Extraction {
    NoActions,
    Actions(ActionMap),
    Failed,
}

pub enum ExtractionView {
    NoActions,
    Actions(ActionSeq),
    Failed,
}

impl View for Extraction {
    type V = ExtractionView;

    open spec fn view(&self) -> ExtractionView {
        match self {
            Extraction::NoActions => ExtractionView::NoActions,
            Extraction::Actions(a) => ExtractionView::Actions(a@),
            Extraction::Failed => ExtractionView::Failed,
        }
    }
}

/// One module of the graph: a name for diagnostics, the modules it
/// references (as indices into the graph) and its extraction result.
pub struct ModuleNode {
    pub name: String,
    pub references: Vec<usize>,
    pub extraction: Extraction,
}

/// An arena of modules; a module is identified by its index.
pub struct ModuleGraph {
    pub modules: Vec<ModuleNode>,
}

pub type GraphView = Seq<(Seq<usize>, ExtractionView)>;

impl View for ModuleGraph {
    type V = GraphView;

    open spec fn view(&self) -> GraphView {
        self.modules@.map_values(|n: ModuleNode| (n.references@, n.extraction@))
    }
}

/// Every reference points at a module of the graph.
pub open spec fn graph_wf(g: GraphView) -> bool {
    forall|m: int, j: int|
        0 <= m < g.len() && 0 <= j < g[m].0.len() ==> (#[trigger] g[m].0[j]) < g.len()
}

impl ModuleGraph {
    pub open spec fn wf(&self) -> bool {
        graph_wf(self@)
    }
}

/// Appends to `order`, in turn, each of `targets` not already in it.
pub open spec fn enqueue_all(order: Seq<usize>, targets: Seq<usize>) -> Seq<usize>
    decreases targets.len(),
{
    if targets.len() == 0 {
        order
    } else {
        let o = enqueue_all(order, targets.drop_last());
        if o.contains(targets.last()) {
            o
        } else {
            o.push(targets.last())
        }
    }
}

/// The breadth-first queue (every module enqueued so far, in order) after the
/// first `k` modules of it have been processed.
pub open spec fn bfs_state(g: GraphView, entry: usize, k: nat) -> Seq<usize>
    decreases k,
{
    if k == 0 {
        seq![entry]
    } else {
        let o = bfs_state(g, entry, (k - 1) as nat);
        if k - 1 < o.len() {
            enqueue_all(o, g[o[k - 1] as int].0)
        } else {
            o
        }
    }
}

/// The order in which a breadth-first walk from `entry` visits modules.
pub open spec fn visit_order(g: GraphView, entry: usize) -> Seq<usize> {
    bfs_state(g, entry, g.len())
}

/// The actions found along `order`, or the first module whose extraction
/// failed. Modules that report no action are left out.
pub open spec fn collect(g: GraphView, order: Seq<usize>) -> Result<Seq<(usize, ActionSeq)>, usize>
    decreases order.len(),
{
    if order.len() == 0 {
        Ok(seq![])
    } else {
        match collect(g, order.drop_last()) {
            Err(m) => Err(m),
            Ok(s) => {
                let m = order.last();
                match g[m as int].1 {
                    ExtractionView::Failed => Err(m),
                    ExtractionView::NoActions => Ok(s),
                    ExtractionView::Actions(a) => if a.len() > 0 {
                        Ok(s.push((m, a)))
                    } else {
                        Ok(s)
                    },
                }
            },
        }
    }
}

/// The outcome of scanning the graph from `entry`.
pub open spec fn scan_result(g: GraphView, entry: usize) -> Result<Seq<(usize, ActionSeq)>, usize> {
    collect(g, visit_order(g, entry))
}

pub open spec fn count_true(s: Seq<bool>) -> nat
    decreases s.len(),
{
    if s.len() == 0 {
        0
    } else {
        count_true(s.drop_last()) + if s.last() {
            1nat
        } else {
            0nat
        }
    }
}

proof fn lemma_count_le(s: Seq<bool>)
    ensures
        count_true(s) <= s.len(),
    decreases s.len(),
{
    if s.len() > 0 {
        lemma_count_le(s.drop_last());
    }
}

proof fn lemma_count_set(s: Seq<bool>, i: int)
    requires
        0 <= i < s.len(),
        !s[i],
    ensures
        count_true(s.update(i, true)) == count_true(s) + 1,
    decreases s.len(),
{
    let t = s.update(i, true);
    if i == s.len() - 1 {
        assert(t.drop_last() =~= s.drop_last());
    } else {
        assert(t.drop_last() =~= s.drop_last().update(i, true));
        lemma_count_set(s.drop_last(), i);
    }
}

proof fn lemma_enqueue_prefix(o: Seq<usize>, t: Seq<usize>)
    ensures
        o.len() <= enqueue_all(o, t).len(),
        forall|i: int| 0 <= i < o.len() ==> enqueue_all(o, t)[i] == o[i],
    decreases t.len(),
{
    if t.len() > 0 {
        lemma_enqueue_prefix(o, t.drop_last());
    }
}

proof fn lemma_enqueue_no_dup(o: Seq<usize>, t: Seq<usize>)
    requires
        o.no_duplicates(),
    ensures
        enqueue_all(o, t).no_duplicates(),
    decreases t.len(),
{
    if t.len() > 0 {
        lemma_enqueue_no_dup(o, t.drop_last());
    }
}

proof fn lemma_enqueue_bounded(o: Seq<usize>, t: Seq<usize>, n: int)
    requires
        forall|i: int| 0 <= i < o.len() ==> o[i] < n,
        forall|i: int| 0 <= i < t.len() ==> t[i] < n,
    ensures
        forall|i: int| 0 <= i < enqueue_all(o, t).len() ==> enqueue_all(o, t)[i] < n,
    decreases t.len(),
{
    if t.len() > 0 {
        assert(forall|i: int| 0 <= i < t.len() - 1 ==> t.drop_last()[i] == t[i]);
        lemma_enqueue_bounded(o, t.drop_last(), n);
        let o2 = enqueue_all(o, t.drop_last());
        let o3 = o2.push(t.last());
        assert(t.last() < n);
        assert forall|i: int| 0 <= i < o3.len() implies o3[i] < n by {
            if i < o2.len() {
                assert(o3[i] == o2[i]);
            }
        }
    }
}

proof fn lemma_bfs_prefix(g: GraphView, entry: usize, k: nat, j: nat)
    requires
        k <= j,
    ensures
        bfs_state(g, entry, k).len() <= bfs_state(g, entry, j).len(),
        forall|i: int|
            0 <= i < bfs_state(g, entry, k).len() ==> bfs_state(g, entry, j)[i] == bfs_state(
                g,
                entry,
                k,
            )[i],
    decreases j,
{
    if k < j {
        lemma_bfs_prefix(g, entry, k, (j - 1) as nat);
        let o = bfs_state(g, entry, (j - 1) as nat);
        if j - 1 < o.len() {
            lemma_enqueue_prefix(o, g[o[j - 1] as int].0);
        }
    }
}

proof fn lemma_bfs_stable(g: GraphView, entry: usize, k: nat, j: nat)
    requires
        k <= j,
        bfs_state(g, entry, k).len() <= k,
    ensures
        bfs_state(g, entry, j) == bfs_state(g, entry, k),
    decreases j,
{
    if k < j {
        lemma_bfs_stable(g, entry, k, (j - 1) as nat);
    }
}

proof fn lemma_collect_prefix_err(g: GraphView, s: Seq<usize>, k: int)
    requires
        0 <= k <= s.len(),
        collect(g, s.take(k)) is Err,
    ensures
        collect(g, s) == collect(g, s.take(k)),
    decreases s.len(),
{
    if k == s.len() {
        assert(s.take(k) =~= s);
    } else {
        assert(s.drop_last().take(k) =~= s.take(k));
        lemma_collect_prefix_err(g, s.drop_last(), k);
    }
}

/// Every module is visited at most once, every visited module is one of the
/// graph's, and the walk starts at `entry`: a cycle is walked through once.
pub proof fn lemma_visits_each_module_once(g: GraphView, entry: usize)
    requires
        graph_wf(g),
        entry < g.len(),
    ensures
        visit_order(g, entry).no_duplicates(),
        visit_order(g, entry)[0] == entry,
        forall|i: int|
            0 <= i < visit_order(g, entry).len() ==> visit_order(g, entry)[i] < g.len(),
{
    lemma_bfs_facts(g, entry, g.len());
    lemma_bfs_prefix(g, entry, 0, g.len());
}

proof fn lemma_collect_from_order(g: GraphView, order: Seq<usize>)
    requires
        order.no_duplicates(),
        collect(g, order) is Ok,
    ensures
        forall|i: int|
            0 <= i < collect(g, order)->Ok_0.len() ==> order.contains(
                #[trigger] collect(g, order)->Ok_0[i].0,
            ),
        forall|i: int, j: int|
            0 <= i < j < collect(g, order)->Ok_0.len() ==> collect(g, order)->Ok_0[i].0
                != collect(g, order)->Ok_0[j].0,
    decreases order.len(),
{
    if order.len() > 0 {
        let d = order.drop_last();
        assert(d.no_duplicates());
        lemma_collect_from_order(g, d);
        let s = collect(g, d)->Ok_0;
        let r = collect(g, order)->Ok_0;
        assert forall|i: int| 0 <= i < s.len() implies order.contains(s[i].0) by {
            let k = choose|k: int| 0 <= k < d.len() && d[k] == s[i].0;
            assert(order[k] == s[i].0);
        }
        assert forall|i: int| 0 <= i < s.len() implies s[i].0 != order.last() by {
            let k = choose|k: int| 0 <= k < d.len() && d[k] == s[i].0;
            assert(order[k] == s[i].0);
        }
        if r.len() > s.len() {
            assert(order[order.len() - 1] == order.last());
        }
    }
}

/// The scan lists each module at most once, and only modules that the walk
/// visits.
pub proof fn lemma_scan_lists_each_module_once(g: GraphView, entry: usize)
    requires
        graph_wf(g),
        entry < g.len(),
        scan_result(g, entry) is Ok,
    ensures
        forall|i: int|
            0 <= i < scan_result(g, entry)->Ok_0.len() ==> visit_order(g, entry).contains(
                #[trigger] scan_result(g, entry)->Ok_0[i].0,
            ),
        forall|i: int, j: int|
            0 <= i < j < scan_result(g, entry)->Ok_0.len() ==> scan_result(g, entry)->Ok_0[i].0
                != scan_result(g, entry)->Ok_0[j].0,
{
    lemma_visits_each_module_once(g, entry);
    lemma_collect_from_order(g, visit_order(g, entry));
}

proof fn lemma_bfs_facts(g: GraphView, entry: usize, k: nat)
    requires
        graph_wf(g),
        entry < g.len(),
    ensures
        bfs_state(g, entry, k).no_duplicates(),
        forall|i: int| 0 <= i < bfs_state(g, entry, k).len() ==> bfs_state(g, entry, k)[i] < g.len(),
    decreases k,
{
    if k > 0 {
        lemma_bfs_facts(g, entry, (k - 1) as nat);
        let o = bfs_state(g, entry, (k - 1) as nat);
        if k - 1 < o.len() {
            let m = o[k - 1] as int;
            assert forall|i: int| 0 <= i < g[m].0.len() implies g[m].0[i] < g.len() by {
                assert(g[m].0[i] == g[m].0[i]);
            }
            lemma_enqueue_no_dup(o, g[m].0);
            lemma_enqueue_bounded(o, g[m].0, g.len() as int);
        }
    }
}

/// A scan stopped because the Marker Extractor could not parse a module.
#[derive(PartialEq, Eq, Structural, Debug, Clone, Copy)]
pub enum ScanError {
    ParseFailed(usize),
}

/// Every module that exports an action, with its actions, in the order the
/// scan found them.
pub struct ModuleActionMap {
    pub entries: Vec<(usize, ActionMap)>,
}

impl View for ModuleActionMap {
    type V = Seq<(usize, ActionSeq)>;

    open spec fn view(&self) -> Seq<(usize, ActionSeq)> {
        self.entries@.map_values(|p: (usize, ActionMap)| (p.0, p.1@))
    }
}

impl ModuleActionMap {
    pub fn empty() -> (r: ModuleActionMap)
        ensures
            r@ == Seq::<(usize, ActionSeq)>::empty(),
    {
        ModuleActionMap { entries: Vec::new() }
    }

    pub fn len(&self) -> (r: usize)
        ensures
            r == self@.len(),
    {
        self.entries.len()
    }
}

/// Looks up what the Marker Extractor reported for module `m`.
pub fn parse_actions(g: &ModuleGraph, m: usize) -> (r: Result<OptionActionMap, ScanError>)
    requires
        m < g@.len(),
    ensures
        g@[m as int].1 is Failed ==> r == Err::<OptionActionMap, ScanError>(ScanError::ParseFailed(m)),
        g@[m as int].1 is NoActions ==> (r is Ok && r->Ok_0.actions is None),
        g@[m as int].1 is Actions ==> (r is Ok && r->Ok_0.actions is Some
            && r->Ok_0.actions->Some_0@ == g@[m as int].1->Actions_0),
{
    match &g.modules[m].extraction {
        Extraction::NoActions => Ok(OptionActionMap::none()),
        Extraction::Actions(a) => Ok(OptionActionMap { actions: Some(a.duplicate()) }),
        Extraction::Failed => Err(ScanError::ParseFailed(m)),
    }
}

/// Walks the module graph breadth-first from `entry`, each module once, and
/// collects the modules that export actions in the order they are visited.
/// Fails on the first visited module whose extraction failed.
pub fn get_actions(g: &ModuleGraph, entry: usize) -> (r: Result<ModuleActionMap, ScanError>)
    requires
        g.wf(),
        entry < g@.len(),
    ensures
        scan_result(g@, entry) is Ok ==> (r is Ok && r->Ok_0@ == scan_result(g@, entry)->Ok_0),
        scan_result(g@, entry) is Err ==> r == Err::<ModuleActionMap, ScanError>(
            ScanError::ParseFailed(scan_result(g@, entry)->Err_0),
        ),
{
    let n = g.modules.len();
    let mut seen: Vec<bool> = Vec::new();
    while seen.len() < n
        invariant
            seen@.len() <= n,
            count_true(seen@) == 0,
            forall|i: int| 0 <= i < seen@.len() ==> !seen@[i],
        decreases n - seen@.len(),
    {
        proof {
            assert(seen@.push(false).drop_last() =~= seen@);
        }
        seen.push(false);
    }
    proof {
        lemma_count_set(seen@, entry as int);
    }
    seen.set(entry, true);
    let mut order: Vec<usize> = Vec::new();
    order.push(entry);
    let mut result: Vec<(usize, ActionMap)> = Vec::new();
    let mut head: usize = 0;
    proof {
        assert(order@ =~= bfs_state(g@, entry, 0));
        assert(order@.take(0) =~= Seq::<usize>::empty());
        assert forall|x: int| 0 <= x < n implies (seen@[x] <==> order@.contains(x as usize)) by {
            if x == entry {
                assert(order@[0] == entry);
            }
            if order@.contains(x as usize) {
                assert(order@[0] == x as usize);
            }
        }
        assert(result@.map_values(|p: (usize, ActionMap)| (p.0, p.1@)) =~= Seq::<(usize, ActionSeq)>::empty());
    }
    while head < order.len()
        invariant
            g.wf(),
            n == g@.len(),
            entry < n,
            seen@.len() == n,
            head <= order@.len(),
            order@ == bfs_state(g@, entry, head as nat),
            forall|i: int| 0 <= i < order@.len() ==> order@[i] < n,
            forall|m: int| 0 <= m < n ==> (seen@[m] <==> order@.contains(m as usize)),
            count_true(seen@) == order@.len(),
            collect(g@, order@.take(head as int)) == Ok::<Seq<(usize, ActionSeq)>, usize>(
                result@.map_values(|p: (usize, ActionMap)| (p.0, p.1@)),
            ),
        decreases n - head,
    {
        proof {
            lemma_count_le(seen@);
        }
        let m = order[head];
        let ghost before = order@;
        let ghost prev = result@.map_values(|p: (usize, ActionMap)| (p.0, p.1@));
        proof {
            assert(before.take(head + 1).drop_last() =~= before.take(head as int));
        }
        match parse_actions(g, m) {
            Err(e) => {
                proof {
                    lemma_bfs_prefix(g@, entry, head as nat, n as nat);
                    let v = visit_order(g@, entry);
                    assert(v.take(head + 1) =~= before.take(head + 1));
                    lemma_collect_prefix_err(g@, v, head + 1);
                }
                return Err(e);
            },
            Ok(found) => {
                match found.actions {
                    Some(a) => {
                        if a.len() > 0 {
                            result.push((m, a));
                            proof {
                                assert(result@.map_values(|p: (usize, ActionMap)| (p.0, p.1@))
                                    =~= prev.push((m, g@[m as int].1->Actions_0)));
                            }
                        }
                    },
                    None => {},
                }
            },
        }
        let refs = &g.modules[m].references;
        let ghost targets = g@[m as int].0;
        assert(refs@ == targets);
        let mut j: usize = 0;
        proof {
            assert(targets.take(0) =~= Seq::<usize>::empty());
        }
        while j < refs.len()
            invariant
                g.wf(),
                n == g@.len(),
                m < n,
                refs@ == targets,
                targets == g@[m as int].0,
                j <= refs@.len(),
                seen@.len() == n,
                order@ == enqueue_all(before, targets.take(j as int)),
                forall|i: int| 0 <= i < order@.len() ==> order@[i] < n,
                forall|x: int| 0 <= x < n ==> (seen@[x] <==> order@.contains(x as usize)),
                count_true(seen@) == order@.len(),
            decreases refs@.len() - j,
        {
            let t = refs[j];
            assert(t < n) by {
                assert(g@[m as int].0[j as int] == t);
            }
            proof {
                assert(targets.take(j + 1).drop_last() =~= targets.take(j as int));
                assert(targets.take(j + 1).last() == t);
            }
            if !seen[t] {
                proof {
                    lemma_count_set(seen@, t as int);
                }
                let ghost old_seen = seen@;
                let ghost old_order = order@;
                seen.set(t, true);
                order.push(t);
                proof {
                    assert forall|x: int| 0 <= x < n implies (seen@[x] <==> order@.contains(
                        x as usize,
                    )) by {
                        if x == t {
                            assert(order@[old_order.len() as int] == t);
                        } else {
                            assert(seen@[x] == old_seen[x]);
                            if old_order.contains(x as usize) {
                                let k = choose|k: int|
                                    0 <= k < old_order.len() && old_order[k] == x as usize;
                                assert(order@[k] == x as usize);
                            }
                            if order@.contains(x as usize) {
                                let k = choose|k: int|
                                    0 <= k < order@.len() && order@[k] == x as usize;
                                assert(k < old_order.len());
                                assert(old_order[k] == x as usize);
                            }
                        }
                    }
                }
            }
            j += 1;
        }
        proof {
            assert(targets.take(targets.len() as int) =~= targets);
            lemma_enqueue_prefix(before, targets);
            assert(order@.take(head + 1) =~= before.take(head + 1));
        }
        head += 1;
    }
    proof {
        lemma_count_le(seen@);
        lemma_bfs_stable(g@, entry, head as nat, n as nat);
        assert(order@.take(head as int) =~= order@);
    }
    Ok(ModuleActionMap { entries: result })
}

} // verus!
