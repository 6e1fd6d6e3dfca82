use crate::action_map::ActionSeq;
use crate::scan::ModuleActionMap;
use vstd::prelude::*;

verus! {

/// The server runtime that a page is built for.
#[derive(PartialEq, Eq, Structural, Debug, Clone, Copy)]
pub enum NextRuntime {
    Edge,
    NodeJs,
}

/// The map given by an association list whose later pairs win.
pub open spec fn pairs_to_map<V>(s: Seq<(Seq<char>, V)>) -> Map<Seq<char>, V>
    decreases s.len(),
{
    if s.len() == 0 {
        Map::empty()
    } else {
        pairs_to_map(s.drop_last()).insert(s.last().0, s.last().1)
    }
}

pub open spec fn keys_unique<V>(s: Seq<(Seq<char>, V)>) -> bool {
    forall|i: int, j: int| 0 <= i < j < s.len() ==> s[i].0 != s[j].0
}

proof fn lemma_pairs_update<V>(s: Seq<(Seq<char>, V)>, i: int, v: V)
    requires
        keys_unique(s),
        0 <= i < s.len(),
    ensures
        pairs_to_map(s.update(i, (s[i].0, v))) == pairs_to_map(s).insert(s[i].0, v),
        keys_unique(s.update(i, (s[i].0, v))),
    decreases s.len(),
{
    let t = s.update(i, (s[i].0, v));
    if i == s.len() - 1 {
        assert(t.drop_last() =~= s.drop_last());
        assert(pairs_to_map(t) =~= pairs_to_map(s).insert(s[i].0, v));
    } else {
        assert(t.drop_last() =~= s.drop_last().update(i, (s[i].0, v)));
        lemma_pairs_update(s.drop_last(), i, v);
        assert(s.last().0 != s[i].0);
        assert(pairs_to_map(t) =~= pairs_to_map(s).insert(s[i].0, v));
    }
    assert forall|a: int, b: int| 0 <= a < b < t.len() implies t[a].0 != t[b].0 by {
        assert(s[a].0 != s[b].0);
    }
}

proof fn lemma_pairs_push<V>(s: Seq<(Seq<char>, V)>, k: Seq<char>, v: V)
    requires
        keys_unique(s),
        forall|i: int| 0 <= i < s.len() ==> s[i].0 != k,
    ensures
        pairs_to_map(s.push((k, v))) == pairs_to_map(s).insert(k, v),
        keys_unique(s.push((k, v))),
        !pairs_to_map(s).contains_key(k),
{
    assert(s.push((k, v)).drop_last() =~= s);
    lemma_pairs_absent(s, k);
}

proof fn lemma_pairs_absent<V>(s: Seq<(Seq<char>, V)>, k: Seq<char>)
    requires
        forall|i: int| 0 <= i < s.len() ==> s[i].0 != k,
    ensures
        !pairs_to_map(s).contains_key(k),
    decreases s.len(),
{
    if s.len() > 0 {
        lemma_pairs_absent(s.drop_last(), k);
    }
}

/// Per route, the id of the loader chunk that serves an action.
pub struct ActionManifestEntry {
    pub workers: Vec<(String, String)>,
}

pub open spec fn workers_seq(e: ActionManifestEntry) -> Seq<(Seq<char>, Seq<char>)> {
    e.workers@.map_values(|p: (String, String)| (p.0@, p.1@))
}

pub open spec fn workers_map(e: ActionManifestEntry) -> Map<Seq<char>, Seq<char>> {
    pairs_to_map(workers_seq(e))
}

pub type Workers = Map<Seq<char>, Seq<char>>;

pub type Section = Map<Seq<char>, Workers>;

pub open spec fn section_seq(sec: Seq<(String, ActionManifestEntry)>) -> Seq<(Seq<char>, Workers)> {
    sec.map_values(|p: (String, ActionManifestEntry)| (p.0@, workers_map(p.1)))
}

pub open spec fn section_map(sec: Seq<(String, ActionManifestEntry)>) -> Section {
    pairs_to_map(section_seq(sec))
}

pub open spec fn section_wf(sec: Seq<(String, ActionManifestEntry)>) -> bool {
    &&& keys_unique(section_seq(sec))
    &&& forall|i: int| 0 <= i < sec.len() ==> keys_unique(workers_seq(#[trigger] sec[i].1))
}

/// The manifest: for each runtime, each action id's entry.
pub struct ServerReferenceManifest {
    pub edge: Vec<(String, ActionManifestEntry)>,
    pub node: Vec<(String, ActionManifestEntry)>,
}

impl ServerReferenceManifest {
    pub open spec fn wf(&self) -> bool {
        section_wf(self.edge@) && section_wf(self.node@)
    }

    /// The section of `runtime`, as a map from action id to workers.
    pub open spec fn section(&self, runtime: NextRuntime) -> Section {
        match runtime {
            NextRuntime::Edge => section_map(self.edge@),
            NextRuntime::NodeJs => section_map(self.node@),
        }
    }

    pub fn new() -> (r: ServerReferenceManifest)
        ensures
            r.wf(),
            r.section(NextRuntime::Edge) == Map::<Seq<char>, Workers>::empty(),
            r.section(NextRuntime::NodeJs) == Map::<Seq<char>, Workers>::empty(),
    {
        ServerReferenceManifest { edge: Vec::new(), node: Vec::new() }
    }
}

/// Every action id of `ms`, module by module, in order.
pub open spec fn action_ids(ms: Seq<(usize, ActionSeq)>) -> Seq<Seq<char>>
    decreases ms.len(),
{
    if ms.len() == 0 {
        Seq::empty()
    } else {
        action_ids(ms.drop_last()) + ms.last().1.map_values(|p: (Seq<char>, Seq<char>)| p.0)
    }
}

/// `sec` after the route `route` of every action in `ids` is pointed at
/// `chunk`: other routes and other actions stay as they were.
pub open spec fn routed(sec: Section, ids: Seq<Seq<char>>, route: Seq<char>, chunk: Seq<char>) -> Section {
    Map::new(
        |k: Seq<char>| sec.contains_key(k) || ids.contains(k),
        |k: Seq<char>|
            if ids.contains(k) {
                if sec.contains_key(k) {
                    sec[k].insert(route, chunk)
                } else {
                    Map::<Seq<char>, Seq<char>>::empty().insert(route, chunk)
                }
            } else {
                sec[k]
            },
    )
}

/// Points `route` at `chunk` in `workers`.
fn upsert_worker(workers: &mut Vec<(String, String)>, route: &String, chunk: &String)
    requires
        keys_unique(old(workers)@.map_values(|p: (String, String)| (p.0@, p.1@))),
    ensures
        keys_unique(final(workers)@.map_values(|p: (String, String)| (p.0@, p.1@))),
        pairs_to_map(final(workers)@.map_values(|p: (String, String)| (p.0@, p.1@))) == pairs_to_map(
            old(workers)@.map_values(|p: (String, String)| (p.0@, p.1@)),
        ).insert(route@, chunk@),
{
    let ghost s = workers@.map_values(|p: (String, String)| (p.0@, p.1@));
    let mut i: usize = 0;
    while i < workers.len()
        invariant
            s == workers@.map_values(|p: (String, String)| (p.0@, p.1@)),
            i <= workers@.len(),
            keys_unique(s),
            s == old(workers)@.map_values(|p: (String, String)| (p.0@, p.1@)),
            forall|j: int| 0 <= j < i ==> s[j].0 != route@,
        decreases workers@.len() - i,
    {
        if workers[i].0 == *route {
            assert(s[i as int].0 == route@);
            workers[i] = (route.clone(), chunk.clone());
            proof {
                lemma_pairs_update(s, i as int, chunk@);
                assert(workers@.map_values(|p: (String, String)| (p.0@, p.1@)) =~= s.update(
                    i as int,
                    (s[i as int].0, chunk@),
                ));
            }
            return;
        }
        i += 1;
    }
    workers.push((route.clone(), chunk.clone()));
    proof {
        lemma_pairs_push(s, route@, chunk@);
        assert(workers@.map_values(|p: (String, String)| (p.0@, p.1@)) =~= s.push((route@, chunk@)));
    }
}

/// `sec` after action `id`'s route `route` is pointed at `chunk`.
pub open spec fn add_route(sec: Section, id: Seq<char>, route: Seq<char>, chunk: Seq<char>) -> Section {
    let workers = if sec.contains_key(id) {
        sec[id]
    } else {
        Map::<Seq<char>, Seq<char>>::empty()
    };
    sec.insert(id, workers.insert(route, chunk))
}

proof fn lemma_routed_push(sec: Section, ids: Seq<Seq<char>>, id: Seq<char>, route: Seq<char>, chunk: Seq<char>)
    ensures
        routed(sec, ids.push(id), route, chunk) == add_route(routed(sec, ids, route, chunk), id, route, chunk),
{
    let a = routed(sec, ids.push(id), route, chunk);
    let b = add_route(routed(sec, ids, route, chunk), id, route, chunk);
    assert forall|k: Seq<char>| ids.push(id).contains(k) <==> (ids.contains(k) || k == id) by {
        if ids.push(id).contains(k) {
            let j = choose|j: int| 0 <= j < ids.push(id).len() && ids.push(id)[j] == k;
            if j < ids.len() {
                assert(ids[j] == k);
            }
        }
        if ids.contains(k) {
            let j = choose|j: int| 0 <= j < ids.len() && ids[j] == k;
            assert(ids.push(id)[j] == k);
        }
        if k == id {
            assert(ids.push(id)[ids.len() as int] == k);
        }
    }
    let r = routed(sec, ids, route, chunk);
    assert forall|k: Seq<char>| a.contains_key(k) implies #[trigger] a[k] == b[k] by {
        if k == id {
            if ids.contains(id) {
                if sec.contains_key(id) {
                    assert(sec[id].insert(route, chunk).insert(route, chunk) =~= sec[id].insert(
                        route,
                        chunk,
                    ));
                } else {
                    assert(Map::<Seq<char>, Seq<char>>::empty().insert(route, chunk).insert(
                        route,
                        chunk,
                    ) =~= Map::<Seq<char>, Seq<char>>::empty().insert(route, chunk));
                }
            }
        } else {
            assert(b[k] == r[k]);
        }
    }
    assert(a =~= b);
}

proof fn lemma_routed_empty(sec: Section, route: Seq<char>, chunk: Seq<char>)
    ensures
        routed(sec, Seq::empty(), route, chunk) == sec,
{
    assert(routed(sec, Seq::empty(), route, chunk) =~= sec);
}

/// Points route `route` of action `id` at `chunk` in one section.
fn add_route_to_section(
    sec: &mut Vec<(String, ActionManifestEntry)>,
    id: &String,
    route: &String,
    chunk: &String,
)
    requires
        section_wf(old(sec)@),
    ensures
        section_wf(final(sec)@),
        section_map(final(sec)@) == add_route(section_map(old(sec)@), id@, route@, chunk@),
{
    let ghost s = section_seq(sec@);
    let mut i: usize = 0;
    while i < sec.len()
        invariant
            s == section_seq(sec@),
            sec@ == old(sec)@,
            section_wf(sec@),
            i <= sec@.len(),
            forall|j: int| 0 <= j < i ==> s[j].0 != id@,
        decreases sec@.len() - i,
    {
        if sec[i].0 == *id {
            assert(s[i as int].0 == id@);
            let ghost old_entry = sec@[i as int].1;
            upsert_worker(&mut sec[i].1.workers, route, chunk);
            proof {
                let w = workers_map(old_entry).insert(route@, chunk@);
                assert(pairs_to_map(s).contains_key(id@) && pairs_to_map(s)[id@] == workers_map(old_entry)) by {
                    lemma_pairs_update(s, i as int, workers_map(old_entry));
                    assert(s.update(i as int, (s[i as int].0, workers_map(old_entry))) =~= s);
                }
                lemma_pairs_update(s, i as int, w);
                assert(section_seq(sec@) =~= s.update(i as int, (s[i as int].0, w)));
                assert forall|j: int| 0 <= j < sec@.len() implies keys_unique(
                    workers_seq(#[trigger] sec@[j].1),
                ) by {
                    if j != i {
                        assert(sec@[j] == old(sec)@[j]);
                    }
                }
            }
            return;
        }
        i += 1;
    }
    let mut entry = ActionManifestEntry { workers: Vec::new() };
    proof {
        assert(workers_seq(entry) =~= Seq::<(Seq<char>, Seq<char>)>::empty());
    }
    upsert_worker(&mut entry.workers, route, chunk);
    sec.push((id.clone(), entry));
    proof {
        let w = workers_map(sec@.last().1);
        assert(pairs_to_map(Seq::<(Seq<char>, Seq<char>)>::empty()).insert(route@, chunk@) =~= w);
        lemma_pairs_push(s, id@, w);
        assert(section_seq(sec@) =~= s.push((id@, w)));
        assert forall|j: int| 0 <= j < sec@.len() implies keys_unique(workers_seq(#[trigger] sec@[j].1)) by {
            if j < old(sec)@.len() {
                assert(sec@[j] == old(sec)@[j]);
            }
        }
        assert(section_map(sec@) =~= add_route(section_map(old(sec)@), id@, route@, chunk@));
    }
}

pub open spec fn ids_of(a: ActionSeq) -> Seq<Seq<char>> {
    a.map_values(|p: (Seq<char>, Seq<char>)| p.0)
}

/// Points route `route` of every action of `actions` at `chunk` in one section.
fn add_actions_to_section(
    sec: &mut Vec<(String, ActionManifestEntry)>,
    actions: &ModuleActionMap,
    route: &String,
    chunk: &String,
)
    requires
        section_wf(old(sec)@),
    ensures
        section_wf(final(sec)@),
        section_map(final(sec)@) == routed(
            section_map(old(sec)@),
            action_ids(actions@),
            route@,
            chunk@,
        ),
{
    let ghost ms = actions@;
    let ghost start = section_map(sec@);
    let mut i: usize = 0;
    proof {
        assert(ms.take(0) =~= Seq::<(usize, ActionSeq)>::empty());
        lemma_routed_empty(start, route@, chunk@);
    }
    while i < actions.entries.len()
        invariant
            ms == actions@,
            start == section_map(old(sec)@),
            i <= ms.len(),
            section_wf(sec@),
            section_map(sec@) == routed(start, action_ids(ms.take(i as int)), route@, chunk@),
        decreases ms.len() - i,
    {
        let acts = &actions.entries[i].1;
        let ghost a = ms[i as int].1;
        let ghost done = action_ids(ms.take(i as int));
        assert(acts@ == a);
        let mut k: usize = 0;
        proof {
            assert(done + ids_of(a.take(0)) =~= done);
        }
        while k < acts.len()
            invariant
                acts@ == a,
                k <= a.len(),
                start == section_map(old(sec)@),
                section_wf(sec@),
                section_map(sec@) == routed(start, done + ids_of(a.take(k as int)), route@, chunk@),
            decreases a.len() - k,
        {
            let (id, _name) = acts.get(k);
            add_route_to_section(sec, &id, route, chunk);
            proof {
                lemma_routed_push(start, done + ids_of(a.take(k as int)), id@, route@, chunk@);
                assert(done + ids_of(a.take(k + 1)) =~= (done + ids_of(a.take(k as int))).push(id@));
            }
            k += 1;
        }
        proof {
            assert(a.take(a.len() as int) =~= a);
            assert(ms.take(i + 1).drop_last() =~= ms.take(i as int));
            assert(action_ids(ms.take(i + 1)) == done + ids_of(a));
        }
        i += 1;
    }
    proof {
        assert(ms.take(ms.len() as int) =~= ms);
    }
}

/// The other runtime.
pub open spec fn other_runtime(r: NextRuntime) -> NextRuntime {
    match r {
        NextRuntime::Edge => NextRuntime::NodeJs,
        NextRuntime::NodeJs => NextRuntime::Edge,
    }
}

/// Records, in the section of `runtime`, that route `route` serves every
/// action of `actions` from the loader chunk `loader_id`. Entries of other
/// routes, other actions and the other runtime are kept.
pub fn build_manifest(
    manifest: &mut ServerReferenceManifest,
    route: &String,
    runtime: NextRuntime,
    actions: &ModuleActionMap,
    loader_id: &String,
)
    requires
        old(manifest).wf(),
    ensures
        final(manifest).wf(),
        final(manifest).section(runtime) == routed(
            old(manifest).section(runtime),
            action_ids(actions@),
            route@,
            loader_id@,
        ),
        final(manifest).section(other_runtime(runtime)) == old(manifest).section(
            other_runtime(runtime),
        ),
{
    match runtime {
        NextRuntime::Edge => add_actions_to_section(&mut manifest.edge, actions, route, loader_id),
        NextRuntime::NodeJs => add_actions_to_section(
            &mut manifest.node,
            actions,
            route,
            loader_id,
        ),
    }
}

} // verus!
