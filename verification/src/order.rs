//! Picking and ordering rows: which rows of a table meet a condition, and in what order a listing
//! shows them.
use vstd::prelude::*;

verus! {

/// `x` put into an ascending sequence, behind everything that does not come after it.
pub open spec fn inserted<T>(sorted: Seq<T>, x: T, key: spec_fn(T) -> int) -> Seq<T>
    decreases sorted.len(),
{
    if sorted.len() == 0 || key(sorted.last()) <= key(x) {
        sorted.push(x)
    } else {
        inserted(sorted.drop_last(), x, key).push(sorted.last())
    }
}

/// The items in ascending order of their keys; items with the same key keep their order.
pub open spec fn sorted_by<T>(items: Seq<T>, key: spec_fn(T) -> int) -> Seq<T>
    decreases items.len(),
{
    if items.len() == 0 {
        items
    } else {
        inserted(sorted_by(items.drop_last(), key), items.last(), key)
    }
}

pub open spec fn ascending<T>(items: Seq<T>, key: spec_fn(T) -> int) -> bool {
    forall|i: int, j: int|
        0 <= i < j < items.len() ==> key(#[trigger] items[i]) <= key(#[trigger] items[j])
}

proof fn lemma_inserted<T>(sorted: Seq<T>, x: T, key: spec_fn(T) -> int)
    requires
        ascending(sorted, key),
    ensures
        ascending(inserted(sorted, x, key), key),
        inserted(sorted, x, key).to_multiset() == sorted.to_multiset().insert(x),
        inserted(sorted, x, key).len() == sorted.len() + 1,
        forall|i: int|
            0 <= i < sorted.len() + 1 ==> (#[trigger] inserted(sorted, x, key)[i]) == x || exists|
                k: int,
            |
                0 <= k < sorted.len() && sorted[k] == inserted(sorted, x, key)[i],
    decreases sorted.len(),
{
    broadcast use vstd::seq_lib::group_to_multiset_ensures;

    if sorted.len() == 0 || key(sorted.last()) <= key(x) {
        let r = sorted.push(x);
        assert forall|i: int, j: int| 0 <= i < j < r.len() implies key(#[trigger] r[i]) <= key(
            #[trigger] r[j],
        ) by {
            if j == sorted.len() && i < sorted.len() - 1 {
                assert(key(sorted[i]) <= key(sorted[sorted.len() - 1]));
            }
        }
        assert forall|i: int| 0 <= i < sorted.len() + 1 implies (#[trigger] r[i]) == x || exists|
            k: int,
        |
            0 <= k < sorted.len() && sorted[k] == r[i] by {
            if i < sorted.len() {
                assert(sorted[i] == r[i]);
            }
        }
    } else {
        let rest = sorted.drop_last();
        assert(ascending(rest, key)) by {
            assert forall|i: int, j: int| 0 <= i < j < rest.len() implies key(#[trigger] rest[i])
                <= key(#[trigger] rest[j]) by {
                assert(key(sorted[i]) <= key(sorted[j]));
            }
        }
        lemma_inserted(rest, x, key);
        let inner = inserted(rest, x, key);
        let last = sorted.last();
        let r = inner.push(last);
        assert(sorted =~= rest.push(last));
        assert(r.to_multiset() =~= sorted.to_multiset().insert(x));
        assert forall|i: int| 0 <= i < inner.len() implies key(#[trigger] inner[i]) <= key(last) by {
            if inner[i] != x {
                let k = choose|k: int| 0 <= k < rest.len() && rest[k] == inner[i];
                assert(key(sorted[k]) <= key(sorted[sorted.len() - 1]));
            }
        }
        assert forall|i: int, j: int| 0 <= i < j < r.len() implies key(#[trigger] r[i]) <= key(
            #[trigger] r[j],
        ) by {
            if j < inner.len() {
                assert(key(inner[i]) <= key(inner[j]));
            } else {
                assert(key(inner[i]) <= key(last));
            }
        }
        assert forall|i: int| 0 <= i < sorted.len() + 1 implies (#[trigger] r[i]) == x || exists|
            k: int,
        |
            0 <= k < sorted.len() && sorted[k] == r[i] by {
            if i < inner.len() {
                assert(r[i] == inner[i]);
                if inner[i] != x {
                    let k = choose|k: int| 0 <= k < rest.len() && rest[k] == inner[i];
                    assert(sorted[k] == r[i]);
                }
            } else {
                assert(sorted[sorted.len() - 1] == r[i]);
            }
        }
    }
}

/// A listing in order holds what the rows hold, and its keys ascend.
pub proof fn law_sorted_by<T>(items: Seq<T>, key: spec_fn(T) -> int)
    ensures
        ascending(sorted_by(items, key), key),
        sorted_by(items, key).to_multiset() == items.to_multiset(),
        sorted_by(items, key).len() == items.len(),
    decreases items.len(),
{
    broadcast use vstd::seq_lib::group_to_multiset_ensures;

    if items.len() > 0 {
        law_sorted_by(items.drop_last(), key);
        lemma_inserted(sorted_by(items.drop_last(), key), items.last(), key);
        assert(items =~= items.drop_last().push(items.last()));
    }
}

/// The positions of the rows that meet a condition, in ascending order.
pub open spec fn positions<T>(rows: Seq<T>, meets: spec_fn(T) -> bool) -> Seq<int>
    decreases rows.len(),
{
    if rows.len() == 0 {
        seq![]
    } else {
        let rest = positions(rows.drop_last(), meets);
        if meets(rows.last()) {
            rest.push(rows.len() - 1)
        } else {
            rest
        }
    }
}

/// What the listed positions are.
pub proof fn lemma_positions<T>(rows: Seq<T>, meets: spec_fn(T) -> bool)
    ensures
        forall|k: int|
            0 <= k < positions(rows, meets).len() ==> 0 <= #[trigger] positions(rows, meets)[k]
                < rows.len() && meets(rows[positions(rows, meets)[k]]),
        forall|k: int, l: int|
            0 <= k < l < positions(rows, meets).len() ==> #[trigger] positions(rows, meets)[k]
                < #[trigger] positions(rows, meets)[l],
        forall|i: int|
            0 <= i < rows.len() && meets(#[trigger] rows[i]) ==> positions(rows, meets).contains(i),
    decreases rows.len(),
{
    if rows.len() > 0 {
        let rest = positions(rows.drop_last(), meets);
        let all = positions(rows, meets);
        lemma_positions(rows.drop_last(), meets);
        assert forall|k: int| 0 <= k < all.len() implies 0 <= #[trigger] all[k] < rows.len()
            && meets(rows[all[k]]) by {
            if k < rest.len() {
                assert(all[k] == rest[k]);
                assert(rows.drop_last()[rest[k]] == rows[rest[k]]);
            }
        }
        assert forall|k: int, l: int| 0 <= k < l < all.len() implies #[trigger] all[k]
            < #[trigger] all[l] by {
            if l < rest.len() {
                assert(rest[k] < rest[l]);
            } else {
                assert(all[k] == rest[k]);
            }
        }
        assert forall|i: int| 0 <= i < rows.len() && meets(#[trigger] rows[i]) implies all.contains(
            i,
        ) by {
            if i < rows.len() - 1 {
                assert(rows.drop_last()[i] == rows[i]);
                assert(rest.contains(i));
                let k = choose|k: int| 0 <= k < rest.len() && rest[k] == i;
                assert(all[k] == i);
            } else {
                assert(all[all.len() - 1] == i);
            }
        }
    }
}

/// The rows at the given positions.
pub open spec fn rows_at<T>(rows: Seq<T>, at: Seq<int>) -> Seq<T> {
    Seq::new(at.len(), |i: int| rows[at[i]])
}

/// The one row that meets a condition, if exactly one does.
pub open spec fn sole<T>(rows: Seq<T>, meets: spec_fn(T) -> bool) -> Option<int> {
    let at = positions(rows, meets);
    if at.len() == 1 {
        Some(at[0])
    } else {
        None
    }
}

/// A sole match is the only row that meets the condition.
pub proof fn law_sole_is_unambiguous<T>(rows: Seq<T>, meets: spec_fn(T) -> bool)
    ensures
        match sole(rows, meets) {
            Some(i) => 0 <= i < rows.len() && meets(rows[i]) && forall|k: int|
                0 <= k < rows.len() && meets(#[trigger] rows[k]) ==> k == i,
            None => !exists|i: int|
                0 <= i < rows.len() && meets(#[trigger] rows[i]) && forall|k: int|
                    0 <= k < rows.len() && meets(#[trigger] rows[k]) ==> k == i,
        },
{
    lemma_positions(rows, meets);
    let at = positions(rows, meets);
    match sole(rows, meets) {
        Some(i) => {
            assert forall|k: int| 0 <= k < rows.len() && meets(#[trigger] rows[k]) implies k == i by {
                assert(at.contains(k));
            }
        },
        None => {
            assert forall|i: int| 0 <= i < rows.len() && meets(#[trigger] rows[i]) implies exists|
                k: int,
            |
                0 <= k < rows.len() && meets(#[trigger] rows[k]) && k != i by {
                assert(at.contains(i));
                assert(at.len() >= 2);
                assert(at[0] < at[1]);
                let k = if at[0] == i {
                    at[1]
                } else {
                    at[0]
                };
                assert(meets(rows[k]));
            }
        },
    }
}

/// Picking rows by position is filtering them.
pub proof fn lemma_rows_at_positions<T>(rows: Seq<T>, meets: spec_fn(T) -> bool)
    ensures
        rows_at(rows, positions(rows, meets)) == rows.filter(meets),
    decreases rows.len(),
{
    reveal(Seq::filter);
    if rows.len() > 0 {
        let front = rows.drop_last();
        lemma_rows_at_positions(front, meets);
        lemma_positions(front, meets);
        let rest = positions(front, meets);
        assert(rows_at(rows, rest) =~= rows_at(front, rest));
        assert(rows_at(rows, positions(rows, meets)) =~= rows.filter(meets));
    } else {
        assert(rows_at(rows, positions(rows, meets)) =~= rows.filter(meets));
    }
}

/// The order in which rows with the given keys are listed: positions, ascending by key.
pub open spec fn order_of(keys: Seq<int>) -> Seq<int> {
    sorted_by(Seq::new(keys.len(), |i: int| i), |i: int| keys[i])
}

pub open spec fn as_ints(positions: Seq<usize>) -> Seq<int> {
    Seq::new(positions.len(), |i: int| positions[i] as int)
}

pub open spec fn keys_as_ints(keys: Seq<i64>) -> Seq<int> {
    Seq::new(keys.len(), |i: int| keys[i] as int)
}

/// The positions of `keys` in ascending order of the keys.
pub fn order(keys: &Vec<i64>) -> (r: Vec<usize>)
    ensures
        as_ints(r@) == order_of(keys_as_ints(keys@)),
        r@.len() == keys@.len(),
        forall|i: int| 0 <= i < r@.len() ==> #[trigger] r@[i] < keys@.len(),
{
    let ghost all = keys_as_ints(keys@);
    let ghost key = |i: int| all[i];
    let ghost ids = Seq::new(all.len(), |i: int| i);
    let mut sorted: Vec<usize> = Vec::new();
    let mut n: usize = 0;
    assert(as_ints(sorted@) =~= sorted_by(ids.take(0), key));
    while n < keys.len()
        invariant
            n <= keys.len(),
            all == keys_as_ints(keys@),
            key == (|i: int| all[i]),
            ids == Seq::new(all.len(), |i: int| i),
            as_ints(sorted@) == sorted_by(ids.take(n as int), key),
            sorted@.len() == n,
            forall|i: int| 0 <= i < sorted@.len() ==> #[trigger] sorted@[i] < n,
        decreases keys@.len() - n,
    {
        let mut at: usize = sorted.len();
        let ghost whole = as_ints(sorted@);
        let ghost x = n as int;
        assert(whole.take(at as int) =~= whole);
        assert(inserted(whole, x, key) =~= inserted(whole.take(at as int), x, key) + whole.skip(
            at as int,
        ));
        while at > 0 && keys[sorted[at - 1]] > keys[n]
            invariant
                at <= sorted@.len(),
                n < keys@.len(),
                sorted@.len() == n,
                all == keys_as_ints(keys@),
                key == (|i: int| all[i]),
                whole == as_ints(sorted@),
                x == n,
                forall|i: int| 0 <= i < sorted@.len() ==> #[trigger] sorted@[i] < n,
                inserted(whole, x, key) == inserted(whole.take(at as int), x, key) + whole.skip(
                    at as int,
                ),
            decreases at,
        {
            let ghost head = whole.take(at as int);
            assert(head.last() == sorted@[at - 1]);
            assert(key(head.last()) > key(x));
            assert(head.drop_last() =~= whole.take(at - 1));
            assert(inserted(head, x, key) == inserted(whole.take(at - 1), x, key).push(
                head.last(),
            ));
            assert(inserted(whole.take(at - 1), x, key).push(head.last()) + whole.skip(at as int)
                =~= inserted(whole.take(at - 1), x, key) + whole.skip(at - 1));
            at = at - 1;
        }
        let ghost head = whole.take(at as int);
        proof {
            if at > 0 {
                assert(head.last() == sorted@[at - 1]);
                assert(key(head.last()) <= key(x));
            }
            assert(inserted(head, x, key) == head.push(x));
        }
        sorted.insert(at, n);
        assert(as_ints(sorted@) =~= head.push(x) + whole.skip(at as int));
        assert(ids.take(n + 1).drop_last() =~= ids.take(n as int));
        assert(ids.take(n + 1).last() == x);
        n = n + 1;
    }
    assert(ids.take(n as int) =~= ids);
    sorted
}

/// Ordering positions by their rows' keys is ordering the rows.
pub proof fn lemma_order_of_rows<T>(rows: Seq<T>, key: spec_fn(T) -> int, keys: Seq<int>)
    requires
        keys.len() == rows.len(),
        forall|i: int| 0 <= i < rows.len() ==> #[trigger] keys[i] == key(rows[i]),
    ensures
        rows_at(rows, order_of(keys)) == sorted_by(rows, key),
        order_of(keys).len() == rows.len(),
        forall|i: int| 0 <= i < order_of(keys).len() ==> 0 <= #[trigger] order_of(keys)[i] < rows.len(),
{
    let ids = Seq::new(keys.len(), |i: int| i);
    let keyed = |i: int| keys[i];
    lemma_order_prefix(rows, key, keys, rows.len() as int);
    assert(ids.take(rows.len() as int) =~= ids);
    assert(rows.take(rows.len() as int) =~= rows);
}

proof fn lemma_order_prefix<T>(rows: Seq<T>, key: spec_fn(T) -> int, keys: Seq<int>, n: int)
    requires
        keys.len() == rows.len(),
        0 <= n <= rows.len(),
        forall|i: int| 0 <= i < rows.len() ==> #[trigger] keys[i] == key(rows[i]),
    ensures
        ({
            let ids = Seq::new(keys.len(), |i: int| i);
            let at = sorted_by(ids.take(n), |i: int| keys[i]);
            &&& rows_at(rows, at) == sorted_by(rows.take(n), key)
            &&& at.len() == n
            &&& forall|i: int| 0 <= i < at.len() ==> 0 <= #[trigger] at[i] < n
        }),
    decreases n,
{
    let ids = Seq::new(keys.len(), |i: int| i);
    let keyed = |i: int| keys[i];
    if n > 0 {
        lemma_order_prefix(rows, key, keys, n - 1);
        let at = sorted_by(ids.take(n - 1), keyed);
        assert(ids.take(n).drop_last() =~= ids.take(n - 1));
        assert(ids.take(n).last() == n - 1);
        assert(rows.take(n).drop_last() =~= rows.take(n - 1));
        assert(rows.take(n).last() == rows[n - 1]);
        lemma_inserted_rows(rows, key, keys, at, n - 1);
    } else {
        assert(ids.take(0) =~= seq![]);
        assert(rows.take(0) =~= seq![]);
        assert(rows_at(rows, sorted_by(ids.take(n), keyed)) =~= sorted_by(rows.take(n), key));
    }
}

proof fn lemma_inserted_rows<T>(
    rows: Seq<T>,
    key: spec_fn(T) -> int,
    keys: Seq<int>,
    at: Seq<int>,
    x: int,
)
    requires
        keys.len() == rows.len(),
        0 <= x < rows.len(),
        forall|i: int| 0 <= i < rows.len() ==> #[trigger] keys[i] == key(rows[i]),
        forall|i: int| 0 <= i < at.len() ==> 0 <= #[trigger] at[i] < x,
    ensures
        ({
            let keyed = |i: int| keys[i];
            let r = inserted(at, x, keyed);
            &&& rows_at(rows, r) == inserted(rows_at(rows, at), rows[x], key)
            &&& r.len() == at.len() + 1
            &&& forall|i: int| 0 <= i < r.len() ==> 0 <= #[trigger] r[i] < x + 1
        }),
    decreases at.len(),
{
    let keyed = |i: int| keys[i];
    let picked = rows_at(rows, at);
    assert(keys[x] == key(rows[x]));
    if at.len() > 0 {
        assert(keys[at[at.len() - 1]] == key(rows[at[at.len() - 1]]));
        assert(keyed(at.last()) == key(picked.last()));
    }
    if at.len() == 0 || keyed(at.last()) <= keyed(x) {
        assert(rows_at(rows, at.push(x)) =~= picked.push(rows[x]));
    } else {
        let front = at.drop_last();
        assert forall|i: int| 0 <= i < front.len() implies 0 <= #[trigger] front[i] < x by {
            assert(at[i] < x);
        }
        lemma_inserted_rows(rows, key, keys, front, x);
        assert(rows_at(rows, front) =~= picked.drop_last());
        assert(rows_at(rows, inserted(front, x, keyed).push(at.last())) =~= rows_at(
            rows,
            inserted(front, x, keyed),
        ).push(picked.last()));
        assert(at[at.len() - 1] < x);
    }
}

/// A listing of the rows that meet a condition holds each of them, none else, and none more often
/// than the rows do; its keys ascend.
pub proof fn law_listings_hold_what_they_should<T>(
    rows: Seq<T>,
    meets: spec_fn(T) -> bool,
    key: spec_fn(T) -> int,
)
    ensures
        ({
            let listed = sorted_by(rows.filter(meets), key);
            &&& listed.len() <= rows.len()
            &&& forall|i: int|
                0 <= i < listed.len() ==> meets(#[trigger] listed[i]) && rows.contains(listed[i])
            &&& forall|k: int|
                0 <= k < rows.len() && meets(#[trigger] rows[k]) ==> listed.contains(rows[k])
            &&& forall|i: int, j: int|
                0 <= i < j < listed.len() ==> key(#[trigger] listed[i]) <= key(
                    #[trigger] listed[j],
                )
            &&& forall|x: T| #[trigger]
                listed.to_multiset().count(x) <= rows.to_multiset().count(x)
        }),
{
    broadcast use vstd::seq_lib::group_to_multiset_ensures;
    broadcast use vstd::seq_lib::group_filter_ensures;

    let met = rows.filter(meets);
    let listed = sorted_by(met, key);
    law_sorted_by(met, key);
    lemma_filter_count(rows, meets);
    assert forall|i: int| 0 <= i < listed.len() implies meets(#[trigger] listed[i])
        && rows.contains(listed[i]) by {
        let x = listed[i];
        assert(listed.contains(x));
        assert(listed.to_multiset().count(x) > 0);
        assert(met.contains(x));
        let k = choose|k: int| 0 <= k < met.len() && met[k] == x;
        assert(meets(met[k]));
        assert(rows.to_multiset().count(x) > 0);
    }
    assert forall|k: int| 0 <= k < rows.len() && meets(#[trigger] rows[k]) implies listed.contains(
        rows[k],
    ) by {
        assert(met.contains(rows[k]));
        assert(met.to_multiset().count(rows[k]) > 0);
    }
}

proof fn lemma_filter_count<T>(rows: Seq<T>, meets: spec_fn(T) -> bool)
    ensures
        forall|x: T| #[trigger]
            rows.filter(meets).to_multiset().count(x) <= rows.to_multiset().count(x),
    decreases rows.len(),
{
    broadcast use vstd::seq_lib::group_to_multiset_ensures;

    reveal(Seq::filter);
    if rows.len() > 0 {
        let rest = rows.drop_last();
        lemma_filter_count(rest, meets);
        assert(rows =~= rest.push(rows.last()));
        assert forall|x: T| #[trigger]
            rows.filter(meets).to_multiset().count(x) <= rows.to_multiset().count(x) by {
            broadcast use vstd::multiset::group_multiset_axioms;

            assert(rest.filter(meets).to_multiset().count(x) <= rest.to_multiset().count(x));
            assert(rows.to_multiset() == rest.to_multiset().insert(rows.last()));
            if meets(rows.last()) {
                assert(rows.filter(meets) == rest.filter(meets).push(rows.last()));
                assert(rows.filter(meets).to_multiset() == rest.filter(meets).to_multiset().insert(
                    rows.last(),
                ));
            } else {
                assert(rows.filter(meets) == rest.filter(meets));
            }
        }
    }
}

} // verus!
