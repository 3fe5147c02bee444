//! Processes: finding them by name, and finding the descendants of those that are under control.

use vstd::prelude::*;
use std::collections::HashSet;
use crate::text;

verus! {

broadcast use vstd::std_specs::hash::group_hash_axioms;

/// A process of the system.
#[derive(Debug)]
pub struct ProcessEntry {
    pub pid: u32,
    pub parent: u32,
    pub name: String,
}

pub struct EntryModel {
    pub pid: u32,
    pub parent: u32,
    pub name: Seq<char>,
}

impl View for ProcessEntry {
    type V = EntryModel;

    open spec fn view(&self) -> EntryModel {
        EntryModel { pid: self.pid, parent: self.parent, name: self.name@ }
    }
}

impl Clone for ProcessEntry {
    fn clone(&self) -> (r: ProcessEntry)
        ensures
            r@ == self@,
    {
        ProcessEntry { pid: self.pid, parent: self.parent, name: text::copy_text(&self.name) }
    }
}

pub open spec fn entries(v: Seq<ProcessEntry>) -> Seq<EntryModel> {
    Seq::new(v.len(), |i: int| v[i]@)
}

// By name.

/// The ids of the processes with the name, in the order of the list.
pub open spec fn named(all: Seq<EntryModel>, name: Seq<char>) -> Seq<u32>
    decreases all.len(),
{
    if all.len() == 0 {
        Seq::empty()
    } else if text::same_ignoring_case(all.last().name, name) {
        named(all.drop_last(), name).push(all.last().pid)
    } else {
        named(all.drop_last(), name)
    }
}

/// The ids of the processes with the name, in whatever case it is written.
pub fn find_existing_pids_by_name(all: &[ProcessEntry], name: &str) -> (r: Vec<u32>)
    ensures
        r@ == named(entries(all@), name@),
{
    let mut r: Vec<u32> = Vec::new();
    let mut i: usize = 0;
    assert(entries(all@).subrange(0, 0) =~= Seq::empty());
    while i < all.len()
        invariant
            i <= all@.len(),
            r@ == named(entries(all@).subrange(0, i as int), name@),
        decreases all@.len() - i,
    {
        let ghost part = entries(all@).subrange(0, i + 1);
        assert(part.drop_last() =~= entries(all@).subrange(0, i as int));
        assert(part.last() == all@[i as int]@);
        if text::eq_ignore_ascii_case(&all[i].name, name) {
            r.push(all[i].pid);
        }
        i = i + 1;
    }
    assert(entries(all@).subrange(0, all@.len() as int) =~= entries(all@));
    r
}

/// The ids but for one's own.
pub open spec fn others(pids: Seq<u32>, own: u32) -> Seq<u32>
    decreases pids.len(),
{
    if pids.len() == 0 {
        Seq::empty()
    } else if pids.last() != own {
        others(pids.drop_last(), own).push(pids.last())
    } else {
        others(pids.drop_last(), own)
    }
}

/// The ids but for one's own: what is left of earlier runs.
pub fn other_instances(pids: &[u32], own: u32) -> (r: Vec<u32>)
    ensures
        r@ == others(pids@, own),
{
    let mut r: Vec<u32> = Vec::new();
    let mut i: usize = 0;
    assert(pids@.subrange(0, 0) =~= Seq::empty());
    while i < pids.len()
        invariant
            i <= pids@.len(),
            r@ == others(pids@.subrange(0, i as int), own),
        decreases pids@.len() - i,
    {
        assert(pids@.subrange(0, i + 1).drop_last() =~= pids@.subrange(0, i as int));
        if pids[i] != own {
            r.push(pids[i]);
        }
        i = i + 1;
    }
    assert(pids@.subrange(0, pids@.len() as int) =~= pids@);
    r
}

// Descendants.

/// One pass over the processes from `from` on: a process whose parent is known becomes known, and is
/// listed, unless it was known before.
pub open spec fn sweep(all: Seq<EntryModel>, from: int, known: Set<u32>, found: Seq<EntryModel>) -> (
    Set<u32>,
    Seq<EntryModel>,
)
    decreases all.len() - from,
{
    if from < 0 || from >= all.len() {
        (known, found)
    } else {
        let e = all[from];
        if known.contains(e.parent) && !known.contains(e.pid) {
            sweep(all, from + 1, known.insert(e.pid), found.push(e))
        } else {
            sweep(all, from + 1, known, found)
        }
    }
}

/// The number of processes that are not known.
pub open spec fn unknown(all: Seq<EntryModel>, known: Set<u32>) -> nat
    decreases all.len(),
{
    if all.len() == 0 {
        0
    } else {
        unknown(all.drop_last(), known) + (if known.contains(all.last().pid) {
            0nat
        } else {
            1nat
        })
    }
}

/// The more processes are known, the fewer are not.
pub proof fn lemma_unknown_shrinks(all: Seq<EntryModel>, known: Set<u32>, more: Set<u32>)
    requires
        known.subset_of(more),
    ensures
        unknown(all, more) <= unknown(all, known),
        (exists|i: int| 0 <= i < all.len() && more.contains((#[trigger] all[i]).pid) && !known.contains(all[i].pid))
            ==> unknown(all, more) < unknown(all, known),
    decreases all.len(),
{
    if all.len() > 0 {
        let t = all.drop_last();
        lemma_unknown_shrinks(t, known, more);
        if exists|i: int| 0 <= i < all.len() && more.contains((#[trigger] all[i]).pid) && !known.contains(all[i].pid) {
            let i = choose|i: int|
                0 <= i < all.len() && more.contains((#[trigger] all[i]).pid) && !known.contains(all[i].pid);
            if i < t.len() {
                assert(t[i] == all[i]);
            }
        }
    }
}

/// What a pass does: it only adds, and what it adds is not known before.
pub proof fn lemma_sweep(all: Seq<EntryModel>, from: int, known: Set<u32>, found: Seq<EntryModel>)
    requires
        0 <= from,
    ensures
        ({
            let (k, f) = sweep(all, from, known, found);
            &&& known.subset_of(k)
            &&& found.is_prefix_of(f)
            &&& f.len() == found.len() ==> k == known && f == found
            &&& f.len() > found.len() ==> exists|i: int|
                0 <= i < all.len() && k.contains((#[trigger] all[i]).pid) && !known.contains(all[i].pid)
        }),
    decreases all.len() - from,
{
    if from < all.len() {
        let e = all[from];
        if known.contains(e.parent) && !known.contains(e.pid) {
            lemma_sweep(all, from + 1, known.insert(e.pid), found.push(e));
            assert(all[from].pid == e.pid);
            let (k, f) = sweep(all, from, known, found);
            assert(found.push(e).is_prefix_of(f));
            assert(f.len() > found.len());
            assert(k.contains(e.pid));
            assert forall|j: int| 0 <= j < found.len() implies found[j] == f[j] by {
                assert(found.push(e)[j] == f[j]);
            }
            assert(found =~= f.subrange(0, found.len() as int));
        } else {
            lemma_sweep(all, from + 1, known, found);
        }
    } else {
        assert(found =~= found.subrange(0, found.len() as int));
    }
}

/// Passes over the processes until one finds nothing new.
pub open spec fn sweeps(all: Seq<EntryModel>, known: Set<u32>, found: Seq<EntryModel>) -> (Set<u32>, Seq<EntryModel>)
    decreases unknown(all, known),
{
    let (k, f) = sweep(all, 0, known, found);
    if f.len() > found.len() {
        proof {
            lemma_sweep(all, 0, known, found);
            lemma_unknown_shrinks(all, known, k);
        }
        sweeps(all, k, f)
    } else {
        (known, found)
    }
}

/// The descendants of the processes with the given ids, in the order in which they are found.
pub open spec fn descendants(all: Seq<EntryModel>, roots: Seq<u32>) -> Seq<EntryModel> {
    sweeps(all, roots.to_set(), Seq::empty()).1
}

/// The descendants of the processes with the given ids: a process whose parent is one of them or is
/// listed is listed, once.
pub fn scan_child_processes(roots: &[u32], all: &[ProcessEntry]) -> (r: Vec<ProcessEntry>)
    ensures
        entries(r@) == descendants(entries(all@), roots@),
{
    let mut r: Vec<ProcessEntry> = Vec::new();
    let mut known: HashSet<u32> = HashSet::new();
    let ghost processes = entries(all@);
    let mut i: usize = 0;
    assert(roots@.subrange(0, 0).to_set() =~= Set::empty());
    while i < roots.len()
        invariant
            i <= roots@.len(),
            known@ == roots@.subrange(0, i as int).to_set(),
        decreases roots@.len() - i,
    {
        known.insert(roots[i]);
        proof {
            let a = roots@.subrange(0, i as int);
            let b = roots@.subrange(0, i + 1);
            assert(b =~= a.push(roots@[i as int]));
            assert forall|x: u32| b.to_set().contains(x) == (a.to_set().contains(x) || x == roots@[i as int]) by {
                if a.contains(x) {
                    let j = choose|j: int| 0 <= j < a.len() && a[j] == x;
                    assert(b[j] == x);
                }
                if x == roots@[i as int] {
                    assert(b[i as int] == x);
                }
            }
            assert(b.to_set() =~= a.to_set().insert(roots@[i as int]));
        }
        i = i + 1;
    }
    assert(roots@.subrange(0, roots@.len() as int) =~= roots@);
    assert(entries(r@) =~= Seq::empty());
    let mut added: bool = true;
    while added
        invariant
            processes == entries(all@),
            added ==> sweeps(processes, known@, entries(r@)).1 == descendants(processes, roots@),
            !added ==> entries(r@) == descendants(processes, roots@),
        decreases unknown(processes, known@), if added {
            1nat
        } else {
            0nat
        },
    {
        added = false;
        let ghost before = known@;
        let ghost listed = entries(r@);
        let mut j: usize = 0;
        while j < all.len()
            invariant
                processes == entries(all@),
                j <= all@.len(),
                sweep(processes, j as int, known@, entries(r@)) == sweep(processes, 0, before, listed),
                added == (entries(r@).len() > listed.len()),
                entries(r@).len() >= listed.len(),
            decreases all@.len() - j,
        {
            let e = &all[j];
            assert(processes[j as int] == e@);
            if known.contains(&e.parent) && !known.contains(&e.pid) {
                known.insert(e.pid);
                let ghost prior = r@;
                r.push(e.clone());
                assert(entries(r@) =~= entries(prior).push(e@));
                added = true;
            }
            j = j + 1;
        }
        proof {
            assert(sweep(processes, 0, before, listed) == (known@, entries(r@)));
            lemma_sweep(processes, 0, before, listed);
            lemma_unknown_shrinks(processes, before, known@);
        }
    }
    r
}

// Laws.

/// What is known after any number of passes: the known ones and those that were listed.
pub open spec fn in_order(all: Seq<EntryModel>, roots: Set<u32>, known: Set<u32>, found: Seq<EntryModel>) -> bool {
    &&& forall|x: u32| #[trigger]
        known.contains(x) <==> roots.contains(x) || exists|i: int| 0 <= i < found.len() && (#[trigger] found[i]).pid == x
    &&& forall|i: int|
        0 <= i < found.len() ==> all.contains(#[trigger] found[i]) && !roots.contains(found[i].pid) && (roots.contains(
            found[i].parent,
        ) || exists|j: int| 0 <= j < i && (#[trigger] found[j]).pid == found[i].parent)
    &&& forall|i: int, j: int|
        #![trigger found[i], found[j]]
        0 <= i < j < found.len() ==> found[i].pid != found[j].pid
}

proof fn lemma_sweep_in_order(all: Seq<EntryModel>, from: int, roots: Set<u32>, known: Set<u32>, found: Seq<EntryModel>)
    requires
        0 <= from,
        in_order(all, roots, known, found),
    ensures
        in_order(all, roots, sweep(all, from, known, found).0, sweep(all, from, known, found).1),
    decreases all.len() - from,
{
    if from < all.len() {
        let e = all[from];
        if known.contains(e.parent) && !known.contains(e.pid) {
            let k = known.insert(e.pid);
            let f = found.push(e);
            assert(in_order(all, roots, k, f)) by {
                assert(f[found.len() as int] == e);
                assert forall|x: u32| #[trigger] k.contains(x) <==> roots.contains(x) || exists|i: int|
                    0 <= i < f.len() && (#[trigger] f[i]).pid == x by {
                    if known.contains(x) && !roots.contains(x) {
                        let i = choose|i: int| 0 <= i < found.len() && (#[trigger] found[i]).pid == x;
                        assert(f[i].pid == x);
                    }
                    if exists|i: int| 0 <= i < f.len() && (#[trigger] f[i]).pid == x {
                        let i = choose|i: int| 0 <= i < f.len() && (#[trigger] f[i]).pid == x;
                        if i < found.len() {
                            assert(found[i].pid == x);
                        }
                    }
                }
                assert forall|i: int| 0 <= i < f.len() implies all.contains(#[trigger] f[i]) && !roots.contains(f[i].pid)
                    && (roots.contains(f[i].parent) || exists|j: int|
                    0 <= j < i && (#[trigger] f[j]).pid == f[i].parent) by {
                    if i < found.len() {
                        assert(f[i] == found[i]);
                        if !roots.contains(found[i].parent) {
                            let j = choose|j: int| 0 <= j < i && (#[trigger] found[j]).pid == found[i].parent;
                            assert(f[j].pid == f[i].parent);
                        }
                    } else {
                        assert(all[from] == f[i]);
                        if !roots.contains(e.parent) {
                            let j = choose|j: int| 0 <= j < found.len() && (#[trigger] found[j]).pid == e.parent;
                            assert(f[j].pid == f[i].parent);
                        }
                    }
                }
                assert forall|i: int, j: int|
                    #![trigger f[i], f[j]]
                    0 <= i < j < f.len() implies f[i].pid != f[j].pid by {
                    assert(f[i] == found[i]);
                    if j < found.len() {
                        assert(f[j] == found[j]);
                    } else {
                        if found[i].pid == e.pid {
                            assert(known.contains(e.pid));
                        }
                    }
                }
            }
            lemma_sweep_in_order(all, from + 1, roots, k, f);
        } else {
            lemma_sweep_in_order(all, from + 1, roots, known, found);
        }
    }
}

/// A pass that finds nothing leaves nothing to be found.
proof fn lemma_idle_sweep(all: Seq<EntryModel>, from: int, known: Set<u32>, found: Seq<EntryModel>, i: int)
    requires
        0 <= from <= i < all.len(),
        sweep(all, from, known, found).1.len() == found.len(),
        known.contains(all[i].parent),
    ensures
        known.contains(all[i].pid),
    decreases all.len() - from,
{
    let e = all[from];
    if known.contains(e.parent) && !known.contains(e.pid) {
        lemma_sweep(all, from + 1, known.insert(e.pid), found.push(e));
    } else if from < i {
        lemma_idle_sweep(all, from + 1, known, found, i);
    }
}

proof fn lemma_sweeps(all: Seq<EntryModel>, roots: Set<u32>, known: Set<u32>, found: Seq<EntryModel>)
    requires
        in_order(all, roots, known, found),
    ensures
        ({
            let (k, f) = sweeps(all, known, found);
            &&& in_order(all, roots, k, f)
            &&& forall|i: int| 0 <= i < all.len() && k.contains((#[trigger] all[i]).parent) ==> k.contains(all[i].pid)
        }),
    decreases unknown(all, known),
{
    let (k, f) = sweep(all, 0, known, found);
    lemma_sweep(all, 0, known, found);
    if f.len() > found.len() {
        lemma_unknown_shrinks(all, known, k);
        lemma_sweep_in_order(all, 0, roots, known, found);
        lemma_sweeps(all, roots, k, f);
    } else {
        assert forall|i: int| 0 <= i < all.len() && known.contains((#[trigger] all[i]).parent) implies known.contains(
            all[i].pid,
        ) by {
            lemma_idle_sweep(all, 0, known, found, i);
        }
    }
}

/// The process is one of the roots or is listed.
pub open spec fn reached(all: Seq<EntryModel>, roots: Seq<u32>, pid: u32) -> bool {
    roots.contains(pid) || exists|i: int|
        0 <= i < descendants(all, roots).len() && (#[trigger] descendants(all, roots)[i]).pid == pid
}

/// Exactly the descendants are listed: every one listed is a process whose parent is a root or was
/// listed before it; every process whose parent is a root or is listed is a root or is listed; and
/// none is listed twice, and no root.
pub proof fn exactly_the_descendants_are_listed(all: Seq<EntryModel>, roots: Seq<u32>)
    ensures
        forall|i: int|
            0 <= i < descendants(all, roots).len() ==> all.contains(#[trigger] descendants(all, roots)[i])
                && !roots.contains(descendants(all, roots)[i].pid) && (roots.contains(
                descendants(all, roots)[i].parent,
            ) || exists|j: int|
                0 <= j < i && (#[trigger] descendants(all, roots)[j]).pid == descendants(all, roots)[i].parent),
        forall|i: int|
            0 <= i < all.len() && reached(all, roots, (#[trigger] all[i]).parent) ==> reached(all, roots, all[i].pid),
        forall|i: int, j: int|
            #![trigger descendants(all, roots)[i], descendants(all, roots)[j]]
            0 <= i < j < descendants(all, roots).len() ==> descendants(all, roots)[i].pid != descendants(
                all,
                roots,
            )[j].pid,
{
    let set = roots.to_set();
    assert(in_order(all, set, set, Seq::empty()));
    lemma_sweeps(all, set, set, Seq::empty());
    let (k, f) = sweeps(all, set, Seq::empty());
    assert(forall|x: u32| set.contains(x) == roots.contains(x));
    assert forall|i: int| 0 <= i < all.len() && reached(all, roots, (#[trigger] all[i]).parent) implies reached(
        all,
        roots,
        all[i].pid,
    ) by {
        let pid = all[i].pid;
        assert(k.contains(all[i].parent));
        assert(k.contains(pid));
        if !set.contains(pid) {
            let j = choose|j: int| 0 <= j < f.len() && (#[trigger] f[j]).pid == pid;
            assert(descendants(all, roots)[j].pid == pid);
        }
    }
}

/// A process is found by its name in any case, and no other is; two lists one after the other give what each
/// gives.
pub proof fn processes_are_found_by_name(all: Seq<EntryModel>, more: Seq<EntryModel>, e: EntryModel, name: Seq<char>)
    ensures
        named(seq![e], name) == (if text::letters_agree(e.name, name) {
            seq![e.pid]
        } else {
            Seq::empty()
        }),
        named(all + more, name) == named(all, name) + named(more, name),
    decreases more.len(),
{
    text::case_is_set_aside(e.name, name);
    reveal_with_fuel(named, 2);
    assert(seq![e].drop_last() =~= Seq::empty());
    assert(named(seq![e], name) =~= (if text::letters_agree(e.name, name) {
        seq![e.pid]
    } else {
        Seq::empty()
    }));
    if more.len() == 0 {
        assert(all + more =~= all);
        assert(named(all, name) + Seq::<u32>::empty() =~= named(all, name));
    } else {
        processes_are_found_by_name(all, more.drop_last(), e, name);
        assert((all + more).drop_last() =~= all + more.drop_last());
        assert((all + more).last() == more.last());
        assert(named(all + more, name) =~= named(all, name) + named(more, name));
    }
}

/// Of the ids one's own is left out wherever it stands, and no other.
pub proof fn ones_own_id_is_left_out(pids: Seq<u32>, more: Seq<u32>, pid: u32, own: u32)
    ensures
        others(seq![pid], own) == (if pid == own {
            Seq::empty()
        } else {
            seq![pid]
        }),
        others(pids + more, own) == others(pids, own) + others(more, own),
    decreases more.len(),
{
    reveal_with_fuel(others, 2);
    assert(seq![pid].drop_last() =~= Seq::empty());
    assert(others(seq![pid], own) =~= (if pid == own {
        Seq::empty()
    } else {
        seq![pid]
    }));
    if more.len() == 0 {
        assert(pids + more =~= pids);
        assert(others(pids, own) + Seq::<u32>::empty() =~= others(pids, own));
    } else {
        ones_own_id_is_left_out(pids, more.drop_last(), pid, own);
        assert((pids + more).drop_last() =~= pids + more.drop_last());
        assert(others(pids + more, own) =~= others(pids, own) + others(more, own));
    }
}

/// No descendant is missed: a process whose parent is a root or is listed is listed, unless it is a
/// root itself.
pub proof fn no_descendant_is_missed(all: Seq<EntryModel>, roots: Seq<u32>, i: int)
    requires
        0 <= i < all.len(),
        !roots.contains(all[i].pid),
        roots.contains(all[i].parent) || exists|j: int|
            0 <= j < descendants(all, roots).len() && (#[trigger] descendants(all, roots)[j]).pid == all[i].parent,
    ensures
        exists|j: int| 0 <= j < descendants(all, roots).len() && (#[trigger] descendants(all, roots)[j]).pid == all[i].pid,
{
    exactly_the_descendants_are_listed(all, roots);
    assert(reached(all, roots, all[i].parent));
    assert(reached(all, roots, all[i].pid));
}

} // verus!
