use indexmap::IndexMap;
use vstd::prelude::*;

verus! {

#[verifier::external_type_specification]
#[verifier::external_body]
#[verifier::reject_recursive_types(K)]
#[verifier::reject_recursive_types(V)]
#[verifier::reject_recursive_types(S)]
pub struct ExIndexMap<K, V, S>(IndexMap<K, V, S>);

/// The entries of a string-to-string `IndexMap`, as (key, value) pairs in the
/// map's iteration order.
pub uninterp spec fn index_map_entries(m: IndexMap<String, String>) -> Seq<(Seq<char>, Seq<char>)>;

/// Ordered action entries: hashed action id paired with its export name.
pub type ActionSeq = Seq<(Seq<char>, Seq<char>)>;

/// Position of the first entry whose key is `k`, or `-1` when there is none.
pub open spec fn key_index(s: ActionSeq, k: Seq<char>) -> int
    decreases s.len(),
{
    if s.len() == 0 {
        -1
    } else if key_index(s.drop_last(), k) >= 0 {
        key_index(s.drop_last(), k)
    } else if s.last().0 == k {
        s.len() - 1
    } else {
        -1
    }
}

/// What inserting `(k, v)` does to an insertion-ordered map: an existing key
/// keeps its place and takes the new value, a new key goes last.
pub open spec fn insert_entry(s: ActionSeq, k: Seq<char>, v: Seq<char>) -> ActionSeq {
    let i = key_index(s, k);
    if i >= 0 {
        s.update(i, (k, v))
    } else {
        s.push((k, v))
    }
}

/// Relies on `IndexMap::new`: the new map is empty.
#[verifier::external_body]
fn index_map_new() -> (r: IndexMap<String, String>)
    ensures
        index_map_entries(r) == Seq::<(Seq<char>, Seq<char>)>::empty(),
{
    IndexMap::new()
}

/// Relies on `IndexMap::insert`: an equal key keeps its place in the order and
/// its value is replaced; otherwise the pair is added last.
#[verifier::external_body]
fn index_map_insert(m: &mut IndexMap<String, String>, k: String, v: String)
    ensures
        index_map_entries(*final(m)) == insert_entry(index_map_entries(*old(m)), k@, v@),
{
    m.insert(k, v);
}

/// Relies on `IndexMap::len`: the number of entries.
#[verifier::external_body]
fn index_map_len(m: &IndexMap<String, String>) -> (r: usize)
    ensures
        r == index_map_entries(*m).len(),
{
    m.len()
}

/// Relies on `IndexMap::get_index`: the entry at position `i` in the order,
/// if `i` is below the length.
#[verifier::external_body]
fn index_map_get_index(m: &IndexMap<String, String>, i: usize) -> (r: Option<(String, String)>)
    ensures
        i < index_map_entries(*m).len() ==> (r is Some && (r.unwrap().0@, r.unwrap().1@)
            == index_map_entries(*m)[i as int]),
        i >= index_map_entries(*m).len() ==> r is None,
{
    m.get_index(i).map(|(k, v)| (k.clone(), v.clone()))
}

/// Relies on `IndexMap`'s `Clone`: the copy holds the same entries in the same
/// order.
#[verifier::external_body]
fn index_map_clone(m: &IndexMap<String, String>) -> (r: IndexMap<String, String>)
    ensures
        index_map_entries(r) == index_map_entries(*m),
{
    m.clone()
}

/// Maps each hashed action id to the name of the exported action function,
/// in the order the ids were found.
pub struct ActionMap {
    pub entries: IndexMap<String, String>,
}

impl View for ActionMap {
    type V = ActionSeq;

    open spec fn view(&self) -> ActionSeq {
        index_map_entries(self.entries)
    }
}

impl ActionMap {
    pub fn new() -> (r: ActionMap)
        ensures
            r@ == Seq::<(Seq<char>, Seq<char>)>::empty(),
    {
        ActionMap { entries: index_map_new() }
    }

    /// Records `name` as the export behind action `id`.
    pub fn insert(&mut self, id: String, name: String)
        ensures
            final(self)@ == insert_entry(old(self)@, id@, name@),
    {
        index_map_insert(&mut self.entries, id, name);
    }

    pub fn len(&self) -> (r: usize)
        ensures
            r == self@.len(),
    {
        index_map_len(&self.entries)
    }

    /// The (id, name) pair at position `i`.
    pub fn get(&self, i: usize) -> (r: (String, String))
        requires
            i < self@.len(),
        ensures
            (r.0@, r.1@) == self@[i as int],
    {
        match index_map_get_index(&self.entries, i) {
            Some(p) => p,
            None => (String::new(), String::new()),
        }
    }

    pub fn duplicate(&self) -> (r: ActionMap)
        ensures
            r@ == self@,
    {
        ActionMap { entries: index_map_clone(&self.entries) }
    }
}

/// The Marker Extractor's answer for one module: its actions, or none.
pub struct OptionActionMap {
    pub actions: Option<ActionMap>,
}

impl OptionActionMap {
    pub fn none() -> (r: OptionActionMap)
        ensures
            r.actions is None,
    {
        OptionActionMap { actions: None }
    }
}

} // verus!
