use crate::action_map::ActionSeq;
use crate::loader::{decimal, digit, loader_imports, loader_source, slot_label};
use crate::manifest::{action_ids, routed, Section};
use crate::scan::{scan_result, GraphView};
use vstd::prelude::*;

verus! {

/// Scanning is a function of the graph and of what the extractor reported:
/// equal inputs give the same modules, in the same order, and the same
/// loader text.
pub proof fn lemma_scan_deterministic(g1: GraphView, g2: GraphView, entry: usize)
    requires
        g1 == g2,
    ensures
        scan_result(g1, entry) == scan_result(g2, entry),
        scan_result(g1, entry) is Ok ==> loader_source(scan_result(g1, entry)->Ok_0)
            == loader_source(scan_result(g2, entry)->Ok_0),
{
}

proof fn lemma_decimal_nonempty(n: nat)
    ensures
        decimal(n).len() >= 1,
        n >= 10 ==> decimal(n).len() >= 2,
    decreases n,
{
    if n >= 10 {
        lemma_decimal_nonempty(n / 10);
    }
}

proof fn lemma_decimal_injective(a: nat, b: nat)
    requires
        decimal(a) == decimal(b),
    ensures
        a == b,
    decreases a + b,
{
    lemma_decimal_nonempty(a);
    lemma_decimal_nonempty(b);
    if a >= 10 && b >= 10 {
        assert(decimal(a).last() == digit(a % 10));
        assert(decimal(b).last() == digit(b % 10));
        assert(decimal(a).drop_last() =~= decimal(a / 10));
        assert(decimal(b).drop_last() =~= decimal(b / 10));
        lemma_decimal_injective(a / 10, b / 10);
    } else if a < 10 && b < 10 {
        assert(decimal(a)[0] == digit(a));
        assert(decimal(b)[0] == digit(b));
    }
}

/// Distinct slots get distinct labels.
pub proof fn lemma_slot_labels_distinct(i: nat, j: nat)
    requires
        i != j,
    ensures
        slot_label(i) != slot_label(j),
{
    let p = "ACTIONS_MODULE"@;
    if slot_label(i) == slot_label(j) {
        assert(slot_label(i).subrange(p.len() as int, slot_label(i).len() as int) =~= decimal(i));
        assert(slot_label(j).subrange(p.len() as int, slot_label(j).len() as int) =~= decimal(j));
        lemma_decimal_injective(i, j);
    }
}

/// The loader imports each action-bearing module exactly once: one slot per
/// module, in scan order, under labels that differ from each other, however
/// many actions the module has.
pub proof fn lemma_one_import_slot_per_module(ms: Seq<(usize, ActionSeq)>)
    ensures
        loader_imports(ms).len() == ms.len(),
        forall|i: int|
            0 <= i < ms.len() ==> #[trigger] loader_imports(ms)[i] == (slot_label(i as nat), ms[i].0),
        forall|i: int, j: int|
            0 <= i < j < ms.len() ==> loader_imports(ms)[i].0 != loader_imports(ms)[j].0,
{
    assert forall|i: int, j: int| 0 <= i < j < ms.len() implies loader_imports(ms)[i].0
        != loader_imports(ms)[j].0 by {
        lemma_slot_labels_distinct(i as nat, j as nat);
    }
}

/// Recording a page that found no action leaves the manifest as it was.
pub proof fn lemma_no_actions_no_change(sec: Section, route: Seq<char>, chunk: Seq<char>)
    ensures
        routed(sec, action_ids(Seq::empty()), route, chunk) == sec,
{
    assert(routed(sec, action_ids(Seq::empty()), route, chunk) =~= sec);
}

/// Two pages that reach the same action under different routes leave one
/// entry for that action, holding both routes.
pub proof fn lemma_manifest_additivity(
    sec: Section,
    ids_x: Seq<Seq<char>>,
    route_x: Seq<char>,
    chunk_x: Seq<char>,
    ids_y: Seq<Seq<char>>,
    route_y: Seq<char>,
    chunk_y: Seq<char>,
    id: Seq<char>,
)
    requires
        ids_x.contains(id),
        ids_y.contains(id),
        route_x != route_y,
    ensures
        routed(routed(sec, ids_x, route_x, chunk_x), ids_y, route_y, chunk_y).contains_key(id),
        routed(routed(sec, ids_x, route_x, chunk_x), ids_y, route_y, chunk_y)[id].contains_key(
            route_x,
        ),
        routed(routed(sec, ids_x, route_x, chunk_x), ids_y, route_y, chunk_y)[id][route_x]
            == chunk_x,
        routed(routed(sec, ids_x, route_x, chunk_x), ids_y, route_y, chunk_y)[id].contains_key(
            route_y,
        ),
        routed(routed(sec, ids_x, route_x, chunk_x), ids_y, route_y, chunk_y)[id][route_y]
            == chunk_y,
{
}

} // verus!
