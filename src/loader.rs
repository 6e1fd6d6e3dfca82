use crate::action_map::ActionSeq;
use crate::scan::ModuleActionMap;
use vstd::prelude::*;
use vstd::string::StringExecFns;

verus! {

pub open spec fn digit(d: nat) -> char {
    if d == 0 {
        '0'
    } else if d == 1 {
        '1'
    } else if d == 2 {
        '2'
    } else if d == 3 {
        '3'
    } else if d == 4 {
        '4'
    } else if d == 5 {
        '5'
    } else if d == 6 {
        '6'
    } else if d == 7 {
        '7'
    } else if d == 8 {
        '8'
    } else {
        '9'
    }
}

/// The decimal digits of `n`, most significant first.
pub open spec fn decimal(n: nat) -> Seq<char>
    decreases n,
{
    if n < 10 {
        seq![digit(n)]
    } else {
        decimal(n / 10).push(digit(n % 10))
    }
}

fn digit_str(d: usize) -> (r: &'static str)
    requires
        d < 10,
    ensures
        r@ == seq![digit(d as nat)],
{
    proof {
        reveal_strlit("0");
        reveal_strlit("1");
        reveal_strlit("2");
        reveal_strlit("3");
        reveal_strlit("4");
        reveal_strlit("5");
        reveal_strlit("6");
        reveal_strlit("7");
        reveal_strlit("8");
        reveal_strlit("9");
    }
    if d == 0 {
        "0"
    } else if d == 1 {
        "1"
    } else if d == 2 {
        "2"
    } else if d == 3 {
        "3"
    } else if d == 4 {
        "4"
    } else if d == 5 {
        "5"
    } else if d == 6 {
        "6"
    } else if d == 7 {
        "7"
    } else if d == 8 {
        "8"
    } else {
        "9"
    }
}

/// Appends the decimal digits of `n` to `s`.
fn push_decimal(s: &mut String, n: usize)
    ensures
        final(s)@ == old(s)@ + decimal(n as nat),
    decreases n,
{
    if n >= 10 {
        push_decimal(s, n / 10);
    }
    s.append(digit_str(n % 10));
    proof {
        if n >= 10 {
            assert(decimal(n as nat) == decimal((n / 10) as nat).push(digit((n % 10) as nat)));
        }
    }
}

/// The placeholder under which the `i`-th action module is imported.
pub open spec fn slot_label(i: nat) -> Seq<char> {
    "ACTIONS_MODULE"@ + decimal(i)
}

/// One dispatch-table entry: action `id` lazily imports slot `i` and calls
/// the export `name` with the forwarded arguments.
pub open spec fn entry_text(id: Seq<char>, name: Seq<char>, i: nat) -> Seq<char> {
    "  '"@ + id + "': (...args) => import('"@ + slot_label(i) + "')\n  .then(mod => (0, mod['"@
        + name + "'])(...args)),\n\n"@
}

/// The dispatch entries of every action of the module in slot `i`.
pub open spec fn actions_text(acts: ActionSeq, i: nat) -> Seq<char>
    decreases acts.len(),
{
    if acts.len() == 0 {
        Seq::empty()
    } else {
        actions_text(acts.drop_last(), i) + entry_text(acts.last().0, acts.last().1, i)
    }
}

/// The dispatch entries of every module, module `i` in slot `i`.
pub open spec fn modules_text(ms: Seq<(usize, ActionSeq)>) -> Seq<char>
    decreases ms.len(),
{
    if ms.len() == 0 {
        Seq::empty()
    } else {
        modules_text(ms.drop_last()) + actions_text(ms.last().1, (ms.len() - 1) as nat)
    }
}

pub open spec fn loader_header() -> Seq<char> {
    "__turbopack_export_value__({\n"@
}

pub open spec fn loader_footer() -> Seq<char> {
    "});"@
}

/// The source text of the loader module for `ms`.
pub open spec fn loader_source(ms: Seq<(usize, ActionSeq)>) -> Seq<char> {
    loader_header() + modules_text(ms) + loader_footer()
}

/// The import table of the loader: slot `i` stands for the `i`-th module.
pub open spec fn loader_imports(ms: Seq<(usize, ActionSeq)>) -> Seq<(Seq<char>, usize)> {
    Seq::new(ms.len(), |i: int| (slot_label(i as nat), ms[i].0))
}

/// A synthesized loader module: its source text, and the modules that its
/// slot labels stand for.
pub struct Loader {
    pub source: String,
    pub imports: Vec<(String, usize)>,
}

impl Loader {
    pub open spec fn imports_view(&self) -> Seq<(Seq<char>, usize)> {
        self.imports@.map_values(|p: (String, usize)| (p.0@, p.1))
    }
}

fn slot(i: usize) -> (r: String)
    ensures
        r@ == slot_label(i as nat),
{
    let mut s = String::new();
    proof {
        reveal_strlit("ACTIONS_MODULE");
    }
    s.append("ACTIONS_MODULE");
    push_decimal(&mut s, i);
    s
}

fn push_entry(s: &mut String, id: &String, name: &String, i: usize)
    ensures
        final(s)@ == old(s)@ + entry_text(id@, name@, i as nat),
{
    proof {
        reveal_strlit("  '");
        reveal_strlit("': (...args) => import('");
        reveal_strlit("')\n  .then(mod => (0, mod['");
        reveal_strlit("'])(...args)),\n\n");
    }
    let label = slot(i);
    s.append("  '");
    s.append(id.as_str());
    s.append("': (...args) => import('");
    s.append(label.as_str());
    s.append("')\n  .then(mod => (0, mod['");
    s.append(name.as_str());
    s.append("'])(...args)),\n\n");
    proof {
        assert(final(s)@ =~= old(s)@ + entry_text(id@, name@, i as nat));
    }
}

/// Builds the loader module: one dispatch entry per action, keyed by its
/// hashed id, and one import slot per module, shared by all its actions.
pub fn build_server_actions_loader(actions: &ModuleActionMap) -> (r: Loader)
    ensures
        r.source@ == loader_source(actions@),
        r.imports_view() == loader_imports(actions@),
{
    let ghost ms = actions@;
    let mut source = String::new();
    proof {
        reveal_strlit("__turbopack_export_value__({\n");
        reveal_strlit("});");
    }
    source.append("__turbopack_export_value__({\n");
    let mut imports: Vec<(String, usize)> = Vec::new();
    let mut i: usize = 0;
    proof {
        assert(ms.take(0) =~= Seq::<(usize, ActionSeq)>::empty());
        assert(source@ =~= loader_header() + modules_text(ms.take(0)));
    }
    while i < actions.entries.len()
        invariant
            ms == actions@,
            i <= ms.len(),
            imports@.len() == i,
            source@ == loader_header() + modules_text(ms.take(i as int)),
            imports@.map_values(|p: (String, usize)| (p.0@, p.1)) == loader_imports(
                ms.take(i as int),
            ),
        decreases ms.len() - i,
    {
        let module = actions.entries[i].0;
        let acts = &actions.entries[i].1;
        let ghost a = ms[i as int].1;
        assert(acts@ == a);
        let ghost start = source@;
        let mut k: usize = 0;
        proof {
            assert(a.take(0) =~= Seq::<(Seq<char>, Seq<char>)>::empty());
            assert(source@ =~= start + actions_text(a.take(0), i as nat));
        }
        while k < acts.len()
            invariant
                acts@ == a,
                k <= a.len(),
                source@ == start + actions_text(a.take(k as int), i as nat),
            decreases a.len() - k,
        {
            let (id, name) = acts.get(k);
            push_entry(&mut source, &id, &name, i);
            proof {
                assert(a.take(k + 1).drop_last() =~= a.take(k as int));
                assert(source@ =~= start + actions_text(a.take(k + 1), i as nat));
            }
            k += 1;
        }
        let ghost prev_imports = imports@.map_values(|p: (String, usize)| (p.0@, p.1));
        let label = slot(i);
        assert(module == ms[i as int].0);
        let ghost label_v = label@;
        let ghost old_imports = imports@;
        imports.push((label, module));
        proof {
            assert(prev_imports =~= loader_imports(ms.take(i as int)));
            assert(a.take(a.len() as int) =~= a);
            assert(ms.take(i + 1).drop_last() =~= ms.take(i as int));
            assert(source@ =~= loader_header() + modules_text(ms.take(i + 1)));
            let now = imports@.map_values(|p: (String, usize)| (p.0@, p.1));
            let want = loader_imports(ms.take(i + 1));
            assert forall|j: int| 0 <= j < i + 1 implies now[j] == want[j] by {
                if j < i {
                    assert(imports@[j] == old_imports[j]);
                    assert(now[j] == prev_imports[j]);
                } else {
                    assert(imports@[j].0@ == label_v);
                    assert(imports@[j].1 == module);
                }
            }
            assert(now =~= want);
        }
        i += 1;
    }
    source.append("});");
    proof {
        assert(ms.take(ms.len() as int) =~= ms);
        assert(source@ =~= loader_source(ms));
    }
    Loader { source, imports }
}

} // verus!
