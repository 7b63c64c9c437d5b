//! Files and directories of a workspace: which paths are allowed, and what is reported of them.
use vstd::prelude::*;
use vstd::string::*;

use crate::text::{
    before, ends_in, in_turn, is_before, join, joined, lemma_before_total, lemma_ends_in, lemma_join_in_turn, same, texts,
};

verus! {

/// The largest file that is read, in bytes.
pub const MAX_FILE_SIZE: u64 = 65536;

/// How many entries of a directory are listed.
pub const MAX_DIRECTORY_ENTRIES: usize = 200;

/// Whether the path with the components `path` lies in the directory with the components `root`, or
/// is it.
pub open spec fn lies_in(path: Seq<Seq<char>>, root: Seq<Seq<char>>) -> bool {
    root.len() <= path.len() && path.take(root.len() as int) == root
}

/// Whether the first path lies in the second, component by component.
pub fn is_within(path: &Vec<String>, root: &Vec<String>) -> (r: bool)
    ensures
        r == lies_in(texts(path@), texts(root@)),
{
    let ghost inner = texts(path@);
    let ghost outer = texts(root@);
    assert(inner.len() == path@.len() && outer.len() == root@.len());
    if root.len() > path.len() {
        return false;
    }
    let mut i: usize = 0;
    while i < root.len()
        invariant
            i <= root@.len() <= path@.len(),
            inner == texts(path@),
            outer == texts(root@),
            forall|k: int| 0 <= k < i ==> inner[k] == outer[k],
        decreases root@.len() - i,
    {
        if !same(path[i].as_str(), root[i].as_str()) {
            assert(inner.take(outer.len() as int)[i as int] != outer[i as int]);
            return false;
        }
        i = i + 1;
    }
    assert(inner.take(outer.len() as int) =~= outer);
    true
}

/// Refuses a path that is not relative to the workspace.
pub fn check_relative(absolute: bool) -> (r: Result<(), String>)
    ensures
        match r {
            Ok(_) => !absolute,
            Err(message) => absolute && message@ == "path must be relative to the workspace"@,
        },
{
    if absolute {
        Err("path must be relative to the workspace".to_owned())
    } else {
        Ok(())
    }
}

/// Refuses a resolved path outside of the resolved workspace, as a symbolic link or `..` makes it.
/// Both are given by their components.
pub fn check_inside(path: &Vec<String>, root: &Vec<String>) -> (r: Result<(), String>)
    ensures
        match r {
            Ok(_) => lies_in(texts(path@), texts(root@)),
            Err(message) => !lies_in(texts(path@), texts(root@)) && message@
                == "path escapes the configured workspace"@,
        },
{
    if is_within(path, root) {
        Ok(())
    } else {
        Err("path escapes the configured workspace".to_owned())
    }
}

/// Why a path is not read as a file, if it is not.
pub open spec fn file_refusal(path: Seq<char>, is_file: bool, size: u64) -> Option<Seq<char>> {
    if !is_file {
        Some("path is not a file: "@ + path)
    } else if size > MAX_FILE_SIZE {
        Some("file exceeds the 64 KiB limit: "@ + path)
    } else {
        None
    }
}

/// Refuses what is not a file, and files that are too large.
pub fn check_file(path: &str, is_file: bool, size: u64) -> (r: Result<(), String>)
    ensures
        match r {
            Ok(_) => file_refusal(path@, is_file, size) is None,
            Err(message) => file_refusal(path@, is_file, size) == Some(message@),
        },
{
    if !is_file {
        let mut message = "path is not a file: ".to_owned();
        message.push_str(path);
        return Err(message);
    }
    if size > MAX_FILE_SIZE {
        let mut message = "file exceeds the 64 KiB limit: ".to_owned();
        message.push_str(path);
        return Err(message);
    }
    Ok(())
}

/// An entry as it is listed: directories with a slash.
pub open spec fn entry_name(entry: (String, bool)) -> Seq<char> {
    if entry.1 {
        entry.0@.push('/')
    } else {
        entry.0@
    }
}

pub open spec fn entry_names(entries: Seq<(String, bool)>) -> Seq<Seq<char>> {
    Seq::new(entries.len(), |i: int| entry_name(entries[i]))
}

/// `x` put into an ordered sequence, behind everything that does not come after it.
pub open spec fn filed(sorted: Seq<Seq<char>>, x: Seq<char>) -> Seq<Seq<char>>
    decreases sorted.len(),
{
    if sorted.len() == 0 || !before(x, sorted.last()) {
        sorted.push(x)
    } else {
        filed(sorted.drop_last(), x).push(sorted.last())
    }
}

/// The texts in the order of their characters.
pub open spec fn in_order(names: Seq<Seq<char>>) -> Seq<Seq<char>>
    decreases names.len(),
{
    if names.len() == 0 {
        names
    } else {
        filed(in_order(names.drop_last()), names.last())
    }
}

/// The names in order, the ones beyond the limit replaced by a note.
pub open spec fn listing(names: Seq<Seq<char>>) -> Seq<Seq<char>> {
    let all = in_order(names);
    if all.len() > MAX_DIRECTORY_ENTRIES {
        all.take(MAX_DIRECTORY_ENTRIES as int).push("... entry limit reached"@)
    } else {
        all
    }
}

fn file_in(sorted: &mut Vec<String>, x: String)
    ensures
        texts(final(sorted)@) == filed(texts(old(sorted)@), x@),
{
    let ghost whole = texts(sorted@);
    let ghost text = x@;
    let mut at: usize = sorted.len();
    assert(whole.take(at as int) =~= whole);
    assert(filed(whole, text) =~= filed(whole.take(at as int), text) + whole.skip(at as int));
    while at > 0 && is_before(x.as_str(), sorted[at - 1].as_str())
        invariant
            at <= sorted@.len(),
            *sorted == *old(sorted),
            whole == texts(sorted@),
            text == x@,
            filed(whole, text) == filed(whole.take(at as int), text) + whole.skip(at as int),
        decreases at,
    {
        let ghost head = whole.take(at as int);
        assert(head.last() == sorted@[at - 1]@);
        assert(head.drop_last() =~= whole.take(at - 1));
        assert(filed(whole.take(at - 1), text).push(head.last()) + whole.skip(at as int) =~= filed(
            whole.take(at - 1),
            text,
        ) + whole.skip(at - 1));
        at = at - 1;
    }
    let ghost head = whole.take(at as int);
    proof {
        if at > 0 {
            assert(head.last() == sorted@[at - 1]@);
        }
        assert(filed(head, text) == head.push(text));
    }
    sorted.insert(at, x);
    assert(texts(sorted@) =~= head.push(text) + whole.skip(at as int));
}

/// What is told of a directory's entries.
pub open spec fn listing_text(entries: Seq<(String, bool)>) -> Seq<char> {
    join(listing(entry_names(entries)), "\n"@)
}

/// What is reported of a directory, `entries` being its entries' names and whether they are
/// directories.
pub fn list_entries(entries: &Vec<(String, bool)>) -> (r: String)
    ensures
        r@ == listing_text(entries@),
{
    let ghost names = entry_names(entries@);
    let mut sorted: Vec<String> = Vec::new();
    let mut i: usize = 0;
    assert(texts(sorted@) =~= in_order(names.take(0)));
    while i < entries.len()
        invariant
            i <= entries@.len(),
            names == entry_names(entries@),
            texts(sorted@) == in_order(names.take(i as int)),
        decreases entries@.len() - i,
    {
        let mut name = entries[i].0.clone();
        if entries[i].1 {
            name.push('/');
        }
        assert(name@ == names[i as int]);
        assert(names.take(i + 1).drop_last() =~= names.take(i as int));
        file_in(&mut sorted, name);
        i = i + 1;
    }
    assert(names.take(i as int) =~= names);
    let ghost all = in_order(names);
    assert(texts(sorted@).len() == sorted@.len());
    if sorted.len() > MAX_DIRECTORY_ENTRIES {
        sorted.truncate(MAX_DIRECTORY_ENTRIES);
        assert(texts(sorted@) =~= all.take(MAX_DIRECTORY_ENTRIES as int));
        let ghost kept = sorted@;
        sorted.push("... entry limit reached".to_owned());
        assert(texts(sorted@) =~= texts(kept).push("... entry limit reached"@));
    }
    joined(&sorted, "\n")
}

proof fn lemma_filed(sorted: Seq<Seq<char>>, x: Seq<char>)
    requires
        ordered(sorted),
    ensures
        ordered(filed(sorted, x)),
        filed(sorted, x).len() == sorted.len() + 1,
        filed(sorted, x).to_multiset() == sorted.to_multiset().insert(x),
        forall|i: int|
            0 <= i < sorted.len() + 1 ==> #[trigger] filed(sorted, x)[i] == x || sorted.contains(
                filed(sorted, x)[i],
            ),
    decreases sorted.len(),
{
    broadcast use vstd::seq_lib::group_to_multiset_ensures;

    if sorted.len() == 0 || !before(x, sorted.last()) {
        let r = sorted.push(x);
        assert forall|i: int, j: int| 0 <= i < j < r.len() implies !before(
            #[trigger] r[j],
            #[trigger] r[i],
        ) by {
            if j == sorted.len() && i < sorted.len() - 1 {
                assert(!before(sorted[sorted.len() - 1], sorted[i]));
                lemma_before_total(x, sorted.last());
                lemma_before_total(x, sorted[i]);
                lemma_before_total(sorted.last(), sorted[i]);
                if before(x, sorted[i]) {
                    if sorted[i] != sorted.last() {
                        crate::text::lemma_before_trans(x, sorted[i], sorted.last());
                    }
                }
            }
        }
        assert forall|i: int| 0 <= i < sorted.len() + 1 implies #[trigger] r[i] == x
            || sorted.contains(r[i]) by {
            if i < sorted.len() {
                assert(sorted[i] == r[i]);
            }
        }
    } else {
        let front = sorted.drop_last();
        assert(ordered(front)) by {
            assert forall|i: int, j: int| 0 <= i < j < front.len() implies !before(
                #[trigger] front[j],
                #[trigger] front[i],
            ) by {
                assert(!before(sorted[j], sorted[i]));
            }
        }
        lemma_filed(front, x);
        let inner = filed(front, x);
        let r = inner.push(sorted.last());
        assert(front.push(sorted.last()) =~= sorted);
        assert(r.to_multiset() =~= sorted.to_multiset().insert(x));
        assert forall|i: int| 0 <= i < inner.len() implies !before(
            sorted.last(),
            #[trigger] inner[i],
        ) && (inner[i] == x || sorted.contains(inner[i])) by {
            if inner[i] == x {
                lemma_before_total(x, sorted.last());
            } else {
                let k = choose|k: int| 0 <= k < front.len() && front[k] == inner[i];
                assert(sorted[k] == inner[i]);
                assert(!before(sorted[sorted.len() - 1], sorted[k]));
            }
        }
        assert forall|i: int, j: int| 0 <= i < j < r.len() implies !before(
            #[trigger] r[j],
            #[trigger] r[i],
        ) by {
            if j < inner.len() {
                assert(!before(inner[j], inner[i]));
            } else {
                assert(!before(sorted.last(), inner[i]));
            }
        }
        assert forall|i: int| 0 <= i < sorted.len() + 1 implies #[trigger] r[i] == x
            || sorted.contains(r[i]) by {
            if i < inner.len() {
                assert(inner[i] == x || sorted.contains(inner[i]));
            } else {
                assert(sorted[sorted.len() - 1] == r[i]);
            }
        }
    }
}

/// Whether nothing stands behind a text that comes after it.
pub open spec fn ordered(names: Seq<Seq<char>>) -> bool {
    forall|i: int, j: int|
        0 <= i < j < names.len() ==> !before(#[trigger] names[j], #[trigger] names[i])
}

/// A directory's entries are put in order: each as often as it is there, none made up or left out.
pub proof fn law_listings_are_in_order(names: Seq<Seq<char>>)
    ensures
        ordered(in_order(names)),
        in_order(names).to_multiset() == names.to_multiset(),
        in_order(names).len() == names.len(),
        forall|i: int| 0 <= i < names.len() ==> names.contains(#[trigger] in_order(names)[i]),
    decreases names.len(),
{
    broadcast use vstd::seq_lib::group_to_multiset_ensures;

    if names.len() > 0 {
        let front = names.drop_last();
        assert(front.push(names.last()) =~= names);
        law_listings_are_in_order(front);
        lemma_filed(in_order(front), names.last());
        let all = in_order(names);
        assert forall|i: int| 0 <= i < names.len() implies names.contains(#[trigger] all[i]) by {
            if all[i] == names.last() {
                assert(names[names.len() - 1] == all[i]);
            } else {
                let k = choose|k: int| 0 <= k < in_order(front).len() && in_order(front)[k] == all[i];
                assert(front.contains(in_order(front)[k]));
                let n = choose|n: int| 0 <= n < front.len() && front[n] == all[i];
                assert(names[n] == all[i]);
            }
        }
    }
}

/// A path lies in a directory exactly where it is the directory's own path and something behind it.
pub proof fn law_paths_below_lie_in_their_directory(
    path: Seq<Seq<char>>,
    root: Seq<Seq<char>>,
    more: Seq<Seq<char>>,
)
    ensures
        lies_in(root + more, root),
        lies_in(path, root) ==> path == root + path.skip(root.len() as int),
        lies_in(path, root) && lies_in(root, path) ==> path == root,
        lies_in(path, root) && lies_in(root, more) ==> lies_in(path, more),
{
    assert((root + more).take(root.len() as int) =~= root);
    if lies_in(path, root) {
        assert(path =~= path.take(root.len() as int) + path.skip(root.len() as int));
        if lies_in(root, path) {
            assert(path.take(root.len() as int) =~= path);
        }
        if lies_in(root, more) {
            assert(path.take(more.len() as int) =~= root.take(more.len() as int));
        }
    }
}

/// A directory is marked by a slash behind its name, and a file is named as it is.
pub proof fn law_directories_are_marked(name: String)
    ensures
        entry_name((name, false)) == name@,
        entry_name((name, true)).drop_last() == name@,
        entry_name((name, true)).last() == '/',
{
    assert(entry_name((name, true)).drop_last() =~= name@);
}

/// A listing holds every entry, one on a line; of a directory with too many it holds the first in
/// order and says that there are more.
pub proof fn law_listings_hold_every_entry(entries: Seq<(String, bool)>)
    ensures
        in_turn(listing_text(entries), listing(entry_names(entries))),
        entries.len() <= MAX_DIRECTORY_ENTRIES ==> listing(entry_names(entries)).to_multiset()
            == entry_names(entries).to_multiset() && ordered(listing(entry_names(entries))),
        entries.len() > MAX_DIRECTORY_ENTRIES ==> {
            let shown = listing(entry_names(entries));
            &&& shown.len() == MAX_DIRECTORY_ENTRIES + 1
            &&& shown.last() == "... entry limit reached"@
            &&& ordered(shown.drop_last())
            &&& forall|i: int|
                0 <= i < MAX_DIRECTORY_ENTRIES ==> entry_names(entries).contains(
                    #[trigger] shown[i],
                )
        },
        entry_names(entries).len() == entries.len(),
        forall|i: int|
            0 <= i < entries.len() ==> #[trigger] entry_names(entries)[i] == entry_name(entries[i]),
{
    let names = entry_names(entries);
    law_listings_are_in_order(names);
    lemma_join_in_turn(listing(names), "\n"@);
    if entries.len() > MAX_DIRECTORY_ENTRIES {
        let shown = listing(names);
        let all = in_order(names);
        assert(shown.drop_last() =~= all.take(MAX_DIRECTORY_ENTRIES as int));
        assert forall|i: int| 0 <= i < MAX_DIRECTORY_ENTRIES implies names.contains(
            #[trigger] shown[i],
        ) by {
            assert(shown[i] == all[i]);
        }
    }
}

/// Files are read up to 64 KiB, and what is refused is named.
pub proof fn law_files_are_read_up_to_their_limit(path: Seq<char>, is_file: bool, size: u64)
    ensures
        file_refusal(path, is_file, size) is None <==> is_file && size <= 64 * 1024,
        file_refusal(path, is_file, size) matches Some(reason) ==> ends_in(reason, path),
{
    lemma_ends_in("path is not a file: "@, path);
    lemma_ends_in("file exceeds the 64 KiB limit: "@, path);
}

} // verus!
