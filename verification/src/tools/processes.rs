//! The process tree of a background command.
use vstd::prelude::*;

verus! {

/// Processes, each with its parent if it has one.
pub type ProcessTable = Vec<(u32, Option<u32>)>;

/// Whether `pid` is a process whose parent is `parent`.
pub open spec fn is_child(table: Seq<(u32, Option<u32>)>, parent: u32, pid: u32) -> bool {
    exists|i: int| 0 <= i < table.len() && #[trigger] table[i] == (pid, Some(parent))
}

/// A line of descent: everyone in it but the first is a child of the one before.
pub open spec fn is_line(table: Seq<(u32, Option<u32>)>, line: Seq<u32>) -> bool {
    forall|i: int| 0 < i < line.len() ==> is_child(table, line[i - 1], #[trigger] line[i])
}

/// Whether a line of descent leads from `root` to `pid`.
pub open spec fn leads(table: Seq<(u32, Option<u32>)>, line: Seq<u32>, root: u32, pid: u32) -> bool {
    line.len() > 0 && is_line(table, line) && line[0] == root && line.last() == pid
}

/// Whether `pid` is a child of `root`, a child of one of these, and so on.
pub open spec fn descends(table: Seq<(u32, Option<u32>)>, root: u32, pid: u32) -> bool {
    exists|line: Seq<u32>| line.len() > 1 && #[trigger] leads(table, line, root, pid)
}

fn seen(list: &Vec<u32>, pid: u32) -> (r: bool)
    ensures
        r == list@.contains(pid),
{
    let mut i: usize = 0;
    while i < list.len()
        invariant
            i <= list@.len(),
            forall|k: int| 0 <= k < i ==> list@[k] != pid,
        decreases list@.len() - i,
    {
        if list[i] == pid {
            return true;
        }
        i = i + 1;
    }
    false
}

/// The pids in a process table.
spec fn pids(table: Seq<(u32, Option<u32>)>) -> Set<u32> {
    Set::new(|pid: u32| exists|i: int| 0 <= i < table.len() && (#[trigger] table[i]).0 == pid)
}

proof fn lemma_pids(table: Seq<(u32, Option<u32>)>)
    ensures
        pids(table).finite(),
        pids(table).len() <= table.len(),
    decreases table.len(),
{
    if table.len() == 0 {
        assert(pids(table) =~= Set::<u32>::empty());
    } else {
        let rest = table.drop_last();
        lemma_pids(rest);
        assert(pids(table) =~= pids(rest).insert(table.last().0)) by {
            assert forall|pid: u32| #[trigger] pids(table).contains(pid) == pids(rest).insert(
                table.last().0,
            ).contains(pid) by {
                if pids(table).contains(pid) {
                    let i = choose|i: int| 0 <= i < table.len() && (#[trigger] table[i]).0 == pid;
                    if i < rest.len() {
                        assert(rest[i].0 == pid);
                    }
                }
                if pids(rest).contains(pid) {
                    let i = choose|i: int| 0 <= i < rest.len() && (#[trigger] rest[i]).0 == pid;
                    assert(table[i].0 == pid);
                }
                assert(table[table.len() - 1].0 == table.last().0);
            }
        }
    }
}

/// Whether every process found comes with a line of descent from the root.
spec fn traced(
    table: Seq<(u32, Option<u32>)>,
    root: u32,
    found: Seq<u32>,
    ancestry: Seq<Seq<u32>>,
) -> bool {
    &&& ancestry.len() == found.len()
    &&& forall|k: int|
        0 <= k < found.len() ==> pids(table).contains(#[trigger] found[k]) && ancestry[k].len() > 1
            && leads(table, ancestry[k], root, found[k])
}

/// Lists of different pids from a table are no longer than the table.
proof fn lemma_list_bound(table: Seq<(u32, Option<u32>)>, list: Seq<u32>)
    requires
        list.no_duplicates(),
        forall|k: int| 0 <= k < list.len() ==> pids(table).contains(#[trigger] list[k]),
    ensures
        list.len() <= table.len(),
{
    lemma_pids(table);
    list.unique_seq_to_set();
    assert(list.to_set().subset_of(pids(table)));
    vstd::set_lib::lemma_len_subset(list.to_set(), pids(table));
}

/// Every process that descends from `root`, each once, and each behind the process it was reached
/// from: killed in reverse, children go before their parents.
pub fn descendants(table: &ProcessTable, root: u32) -> (r: Vec<u32>)
    ensures
        r@.no_duplicates(),
        forall|pid: u32| r@.contains(pid) <==> #[trigger] descends(table@, root, pid),
        forall|k: int|
            0 <= k < r@.len() ==> is_child(table@, root, #[trigger] r@[k]) || exists|j: int|
                0 <= j < k && is_child(table@, #[trigger] r@[j], r@[k]),
{
    let ghost rows = table@;
    let mut found: Vec<u32> = Vec::new();
    // How many of those found have been searched for children; the root comes first.
    let mut searched: usize = 0;
    let mut parent: u32 = root;
    let ghost mut parent_line: Seq<u32> = seq![root];
    let ghost mut ancestry: Seq<Seq<u32>> = seq![];
    loop
        invariant
            rows == table@,
            searched <= found@.len(),
            searched == 0 ==> parent == root,
            searched > 0 ==> parent == found@[searched - 1],
            leads(rows, parent_line, root, parent),
            found@.no_duplicates(),
            traced(rows, root, found@, ancestry),
            // Every process found so far stands behind one it is a child of.
            forall|k: int|
                0 <= k < found@.len() ==> is_child(rows, root, #[trigger] found@[k]) || exists|
                    j: int,
                |
                    0 <= j < k && is_child(rows, #[trigger] found@[j], found@[k]),
            // The children of everything searched before the present parent have been found.
            searched > 0 ==> forall|pid: u32| is_child(rows, root, pid) ==> #[trigger] found@.contains(
                pid,
            ),
            forall|k: int, pid: u32|
                0 <= k < searched - 1 && #[trigger] is_child(rows, found@[k], pid)
                    ==> found@.contains(pid),
        ensures
            forall|pid: u32| is_child(rows, root, pid) ==> #[trigger] found@.contains(pid),
            forall|k: int, pid: u32|
                0 <= k < found@.len() && #[trigger] is_child(rows, found@[k], pid)
                    ==> found@.contains(pid),
            searched == found@.len(),
        decreases rows.len() + 1 - searched,
    {
        let ghost found_before = found@;
        proof {
            lemma_list_bound(rows, found@);
        }
        let mut i: usize = 0;
        while i < table.len()
            invariant
                rows == table@,
                i <= table@.len(),
                searched <= found_before.len() <= found@.len(),
                forall|k: int| 0 <= k < found_before.len() ==> found@[k] == found_before[k],
                searched == 0 ==> parent == root,
                searched > 0 ==> parent == found_before[searched - 1],
                leads(rows, parent_line, root, parent),
                found@.no_duplicates(),
                traced(rows, root, found@, ancestry),
                forall|k: int|
                    0 <= k < found@.len() ==> is_child(rows, root, #[trigger] found@[k]) || exists|
                        j: int,
                    |
                        0 <= j < k && is_child(rows, #[trigger] found@[j], found@[k]),
                forall|k: int|
                    0 <= k < i && (#[trigger] rows[k]).1 == Some(parent) ==> found@.contains(
                        rows[k].0,
                    ),
                forall|pid: u32| found_before.contains(pid) ==> #[trigger] found@.contains(pid),
            decreases table@.len() - i,
        {
            let (pid, its_parent) = table[i];
            let ghost earlier = found@;
            if its_parent == Some(parent) && !seen(&found, pid) {
                proof {
                    assert(rows[i as int] == (pid, Some(parent)));
                    assert(is_child(rows, parent, pid));
                    let line = parent_line.push(pid);
                    assert(leads(rows, line, root, pid)) by {
                        assert forall|n: int| 0 < n < line.len() implies is_child(
                            rows,
                            line[n - 1],
                            #[trigger] line[n],
                        ) by {
                            if n < parent_line.len() {
                                assert(is_child(rows, parent_line[n - 1], parent_line[n]));
                            }
                        }
                    }
                    assert(pids(rows).contains(pid)) by {
                        assert(rows[i as int].0 == pid);
                    }
                    ancestry = ancestry.push(line);
                }
                found.push(pid);
                proof {
                    assert forall|k: int| 0 <= k < found@.len() implies is_child(
                        rows,
                        root,
                        #[trigger] found@[k],
                    ) || exists|j: int| 0 <= j < k && is_child(rows, #[trigger] found@[j], found@[k]) by {
                        if k < earlier.len() {
                            assert(found@[k] == earlier[k]);
                            if !is_child(rows, root, earlier[k]) {
                                let j = choose|j: int|
                                    0 <= j < k && is_child(rows, #[trigger] earlier[j], earlier[k]);
                                assert(found@[j] == earlier[j]);
                            }
                        } else if searched > 0 {
                            assert(found@[searched - 1] == parent);
                            assert(is_child(rows, found@[searched - 1], found@[k]));
                        }
                    }
                    assert(found@[earlier.len() as int] == pid);
                    assert forall|p: u32| earlier.contains(p) implies #[trigger] found@.contains(p) by {
                        let k = choose|k: int| 0 <= k < earlier.len() && earlier[k] == p;
                        assert(found@[k] == p);
                    }
                }
            }
            i = i + 1;
        }
        proof {
            assert forall|pid: u32| is_child(rows, parent, pid) implies #[trigger] found@.contains(
                pid,
            ) by {
                let k = choose|k: int|
                    0 <= k < rows.len() && #[trigger] rows[k] == (pid, Some(parent));
                assert(found@.contains(rows[k].0));
            }
            assert forall|k: int, pid: u32|
                0 <= k < searched && #[trigger] is_child(rows, found@[k], pid) implies found@.contains(
                pid,
            ) by {
                if k < searched - 1 {
                    assert(is_child(rows, found_before[k], pid));
                    assert(found_before.contains(pid));
                }
            }
            if searched > 0 {
                assert forall|pid: u32| is_child(rows, root, pid) implies #[trigger] found@.contains(
                    pid,
                ) by {
                    assert(found_before.contains(pid));
                }
            }
        }
        if searched == found.len() {
            break ;
        }
        proof {
            lemma_list_bound(rows, found@);
        }
        parent = found[searched];
        proof {
            parent_line = ancestry[searched as int];
        }
        searched = searched + 1;
    }
    proof {
        assert forall|pid: u32| found@.contains(pid) <==> #[trigger] descends(rows, root, pid) by {
            if found@.contains(pid) {
                let k = choose|k: int| 0 <= k < found@.len() && found@[k] == pid;
                assert(leads(rows, ancestry[k], root, found@[k]));
            }
            if descends(rows, root, pid) {
                let line = choose|line: Seq<u32>|
                    line.len() > 1 && #[trigger] leads(rows, line, root, pid);
                lemma_reached(rows, line, line.len() - 1, found@);
            }
        }
    }
    found
}

/// A list that holds the root's children and the children of all it holds, holds all descendants.
proof fn lemma_reached(rows: Seq<(u32, Option<u32>)>, line: Seq<u32>, n: int, found: Seq<u32>)
    requires
        0 < n < line.len(),
        is_line(rows, line),
        forall|p: u32| is_child(rows, line[0], p) ==> #[trigger] found.contains(p),
        forall|k: int, p: u32|
            0 <= k < found.len() && #[trigger] is_child(rows, found[k], p) ==> found.contains(p),
    ensures
        found.contains(line[n]),
    decreases n,
{
    assert(is_child(rows, line[n - 1], line[n]));
    if n > 1 {
        lemma_reached(rows, line, n - 1, found);
        let k = choose|k: int| 0 <= k < found.len() && found[k] == line[n - 1];
        assert(is_child(rows, found[k], line[n]));
    }
}

/// Whether a tree's root or any other of its processes is among those alive.
pub open spec fn is_left(alive: Seq<u32>, root: u32, tree: Seq<u32>) -> bool {
    alive.contains(root) || exists|k: int|
        0 <= k < tree.len() && alive.contains(#[trigger] tree[k])
}

/// Whether any of a killed tree's processes is still there.
pub fn any_alive(alive: &Vec<u32>, root: u32, tree: &Vec<u32>) -> (r: bool)
    ensures
        r == is_left(alive@, root, tree@),
{
    if seen(alive, root) {
        return true;
    }
    let mut i: usize = 0;
    while i < tree.len()
        invariant
            i <= tree@.len(),
            forall|k: int| 0 <= k < i ==> !alive@.contains(#[trigger] tree@[k]),
        decreases tree@.len() - i,
    {
        if seen(alive, tree[i]) {
            return true;
        }
        i = i + 1;
    }
    false
}

/// The children of the root are its descendants, and so are the children of every descendant; and
/// there are no others.
pub proof fn law_the_whole_tree_descends(
    table: Seq<(u32, Option<u32>)>,
    root: u32,
    parent: u32,
    pid: u32,
)
    ensures
        table.contains((pid, Some(root))) ==> descends(table, root, pid),
        descends(table, root, parent) && table.contains((pid, Some(parent))) ==> descends(
            table,
            root,
            pid,
        ),
        descends(table, root, pid) ==> exists|up: u32| #[trigger]
            table.contains((pid, Some(up))) && (up == root || descends(table, root, up)),
{
    if table.contains((pid, Some(root))) {
        let i = choose|i: int| 0 <= i < table.len() && table[i] == (pid, Some(root));
        assert(is_child(table, root, pid));
        assert(leads(table, seq![root, pid], root, pid));
    }
    if descends(table, root, parent) && table.contains((pid, Some(parent))) {
        let i = choose|i: int| 0 <= i < table.len() && table[i] == (pid, Some(parent));
        assert(is_child(table, parent, pid));
        let line = choose|line: Seq<u32>| line.len() > 1 && #[trigger] leads(table, line, root, parent);
        let longer = line.push(pid);
        assert forall|k: int| 0 < k < longer.len() implies is_child(
            table,
            longer[k - 1],
            #[trigger] longer[k],
        ) by {
            if k < line.len() {
                assert(is_child(table, line[k - 1], line[k]));
            }
        }
        assert(leads(table, longer, root, pid));
    }
    if descends(table, root, pid) {
        let line = choose|line: Seq<u32>| line.len() > 1 && #[trigger] leads(table, line, root, pid);
        let n = line.len() - 1;
        let up = line[n - 1];
        assert(is_child(table, up, line[n]));
        let i = choose|i: int| 0 <= i < table.len() && #[trigger] table[i] == (pid, Some(up));
        assert(table.contains((pid, Some(up))));
        if n > 1 {
            let shorter = line.drop_last();
            assert forall|k: int| 0 < k < shorter.len() implies is_child(
                table,
                shorter[k - 1],
                #[trigger] shorter[k],
            ) by {
                assert(is_child(table, line[k - 1], line[k]));
            }
            assert(leads(table, shorter, root, up));
        }
    }
}

/// A tree is left as long as its root or one of its processes is alive: each process adds just
/// itself.
pub proof fn law_a_tree_is_gone_when_all_are(alive: Seq<u32>, root: u32, tree: Seq<u32>, pid: u32)
    ensures
        is_left(alive, root, Seq::<u32>::empty()) <==> alive.contains(root),
        is_left(alive, root, tree.push(pid)) <==> is_left(alive, root, tree) || alive.contains(pid),
        !is_left(Seq::<u32>::empty(), root, tree),
{
    let more = tree.push(pid);
    if exists|k: int| 0 <= k < more.len() && alive.contains(#[trigger] more[k]) {
        let k = choose|k: int| 0 <= k < more.len() && alive.contains(#[trigger] more[k]);
        if k < tree.len() {
            assert(alive.contains(tree[k]));
        }
    }
    if exists|k: int| 0 <= k < tree.len() && alive.contains(#[trigger] tree[k]) {
        let k = choose|k: int| 0 <= k < tree.len() && alive.contains(#[trigger] tree[k]);
        assert(alive.contains(more[k]));
    }
    if alive.contains(pid) {
        assert(alive.contains(more[tree.len() as int]));
    }
}

} // verus!
