//! An ordered table of named values: what is configured under each name, listed in the order of
//! the names.
use vstd::prelude::*;
use vstd::string::*;

use crate::text::{before, is_before, lemma_before_total, lemma_before_trans, same};

verus! {

/// Values by name. The names ascend, so nothing occurs twice.
#[derive(Debug)]
pub struct Table<V> {
    pub(crate) entries: Vec<(String, V)>,
}

impl<V> View for Table<V> {
    type V = Map<Seq<char>, V>;

    closed spec fn view(&self) -> Map<Seq<char>, V> {
        Map::new(
            |name: Seq<char>| exists|i: int| self.holds(i, name),
            |name: Seq<char>| self.entries@[choose|i: int| self.holds(i, name)].1,
        )
    }
}

impl<V> Table<V> {
    pub closed spec fn holds(&self, i: int, name: Seq<char>) -> bool {
        0 <= i < self.entries@.len() && self.entries@[i].0@ == name
    }

    /// The names in order.
    pub closed spec fn names(&self) -> Seq<Seq<char>> {
        Seq::new(self.entries@.len(), |i: int| self.entries@[i].0@)
    }

    /// The names ascend.
    pub closed spec fn wf(&self) -> bool {
        forall|i: int, j: int|
            0 <= i < j < self.entries@.len() ==> before(
                (#[trigger] self.entries@[i]).0@,
                (#[trigger] self.entries@[j]).0@,
            )
    }

    /// Whether `later` is this table with at most the value at `i` changed.
    spec fn differs_at(&self, later: Self, i: int) -> bool {
        &&& later.entries@.len() == self.entries@.len()
        &&& later.entries@[i].0 == self.entries@[i].0
        &&& forall|k: int|
            0 <= k < self.entries@.len() && k != i ==> #[trigger] later.entries@[k]
                == self.entries@[k]
    }

    proof fn lemma_at(&self, i: int)
        requires
            self.wf(),
            0 <= i < self.entries@.len(),
        ensures
            self@.contains_key(self.entries@[i].0@),
            self@[self.entries@[i].0@] == self.entries@[i].1,
            forall|k: int| self.holds(k, self.entries@[i].0@) ==> k == i,
    {
        let name = self.entries@[i].0@;
        assert(self.holds(i, name));
        assert forall|k: int| self.holds(k, name) implies k == i by {
            lemma_before_total(name, name);
        }
    }

    proof fn lemma_absent(&self, name: Seq<char>)
        requires
            forall|i: int| 0 <= i < self.entries@.len() ==> (#[trigger] self.entries@[i]).0@ != name,
        ensures
            !self@.contains_key(name),
    {
        assert forall|i: int| !self.holds(i, name) by {}
    }

    /// What the listed names are: each is configured, and they ascend.
    pub proof fn lemma_names(&self)
        requires
            self.wf(),
        ensures
            forall|i: int| 0 <= i < self.names().len() ==> self@.contains_key(#[trigger] self.names()[i]),
            forall|name: Seq<char>| #[trigger]
                self@.contains_key(name) ==> self.names().contains(name),
            forall|i: int, j: int|
                0 <= i < j < self.names().len() ==> before(
                    #[trigger] self.names()[i],
                    #[trigger] self.names()[j],
                ),
    {
        assert forall|i: int| 0 <= i < self.names().len() implies self@.contains_key(
            #[trigger] self.names()[i],
        ) by {
            self.lemma_at(i);
        }
        assert forall|name: Seq<char>| #[trigger] self@.contains_key(name) implies self.names().contains(
            name,
        ) by {
            let i = choose|i: int| self.holds(i, name);
            assert(self.names()[i] == name);
        }
        assert forall|i: int, j: int| 0 <= i < j < self.names().len() implies before(
            #[trigger] self.names()[i],
            #[trigger] self.names()[j],
        ) by {
            assert(before(self.entries@[i].0@, self.entries@[j].0@));
        }
    }

    pub fn new() -> (r: Self)
        ensures
            r.wf(),
            r@ == Map::<Seq<char>, V>::empty(),
            r.names() == Seq::<Seq<char>>::empty(),
    {
        let r = Table { entries: Vec::new() };
        assert(r@ =~= Map::<Seq<char>, V>::empty());
        assert(r.names() =~= Seq::<Seq<char>>::empty());
        r
    }

    pub fn len(&self) -> (n: usize)
        ensures
            n == self.names().len(),
    {
        self.entries.len()
    }

    /// The `i`th name.
    pub fn name_at(&self, i: usize) -> (name: &String)
        requires
            i < self.names().len(),
        ensures
            name@ == self.names()[i as int],
    {
        &self.entries[i].0
    }

    /// The value under the `i`th name.
    pub fn value_at(&self, i: usize) -> (value: &V)
        requires
            self.wf(),
            i < self.names().len(),
        ensures
            self@.contains_key(self.names()[i as int]),
            self@[self.names()[i as int]] == *value,
    {
        proof {
            self.lemma_at(i as int);
        }
        &self.entries[i].1
    }

    /// The position of `name` in the listing.
    pub fn position(&self, name: &str) -> (r: Option<usize>)
        requires
            self.wf(),
        ensures
            match r {
                Some(i) => i < self.names().len() && self.names()[i as int] == name@
                    && self@.contains_key(name@),
                None => !self@.contains_key(name@),
            },
    {
        let mut i: usize = 0;
        while i < self.entries.len()
            invariant
                i <= self.entries@.len(),
                self.wf(),
                forall|k: int| 0 <= k < i ==> (#[trigger] self.entries@[k]).0@ != name@,
            decreases self.entries@.len() - i,
        {
            if same(self.entries[i].0.as_str(), name) {
                proof {
                    self.lemma_at(i as int);
                }
                return Some(i);
            }
            i = i + 1;
        }
        proof {
            self.lemma_absent(name@);
        }
        None
    }

    pub fn contains(&self, name: &str) -> (r: bool)
        requires
            self.wf(),
        ensures
            r == self@.contains_key(name@),
    {
        self.position(name).is_some()
    }

    pub fn get(&self, name: &str) -> (r: Option<&V>)
        requires
            self.wf(),
        ensures
            match r {
                Some(value) => self@.contains_key(name@) && self@[name@] == *value,
                None => !self@.contains_key(name@),
            },
    {
        match self.position(name) {
            Some(i) => Some(self.value_at(i)),
            None => None,
        }
    }

    /// Puts `value` under `name`, in place of what stood there.
    pub fn insert(&mut self, name: String, value: V)
        requires
            old(self).wf(),
        ensures
            final(self).wf(),
            final(self)@ == old(self)@.insert(name@, value),
    {
        let mut i: usize = 0;
        while i < self.entries.len() && is_before(self.entries[i].0.as_str(), name.as_str())
            invariant
                i <= self.entries@.len(),
                *self == *old(self),
                self.wf(),
                forall|k: int| 0 <= k < i ==> before((#[trigger] self.entries@[k]).0@, name@),
            decreases self.entries@.len() - i,
        {
            i = i + 1;
        }
        let ghost old_entries = old(self).entries@;
        proof {
            assert forall|k: int| i < k < old_entries.len() implies before(
                name@,
                (#[trigger] old_entries[k]).0@,
            ) by {
                assert(before(old_entries[i as int].0@, old_entries[k].0@));
                lemma_before_total(old_entries[i as int].0@, name@);
                if old_entries[i as int].0@ != name@ {
                    lemma_before_trans(name@, old_entries[i as int].0@, old_entries[k].0@);
                }
            }
        }
        if i < self.entries.len() && same(self.entries[i].0.as_str(), name.as_str()) {
            let ghost fresh = (name, value);
            self.entries.remove(i);
            self.entries.insert(i, (name, value));
            assert(self.entries@ =~= old_entries.update(i as int, fresh));
        } else {
            proof {
                if i < old_entries.len() {
                    lemma_before_total(old_entries[i as int].0@, name@);
                }
            }
            self.entries.insert(i, (name, value));
        }
        let ghost entries = self.entries@;
        assert(self.wf()) by {
            assert forall|a: int, b: int| 0 <= a < b < entries.len() implies before(
                (#[trigger] entries[a]).0@,
                (#[trigger] entries[b]).0@,
            ) by {
                if entries.len() == old_entries.len() {
                    if a != i && b != i {
                        assert(entries[a] == old_entries[a] && entries[b] == old_entries[b]);
                    }
                } else {
                    let x = if a < i {
                        a
                    } else {
                        a - 1
                    };
                    let y = if b < i {
                        b
                    } else {
                        b - 1
                    };
                    if a != i && b != i {
                        assert(entries[a] == old_entries[x] && entries[b] == old_entries[y]);
                    } else if a == i {
                        assert(entries[b] == old_entries[y]);
                        if y == i {
                            lemma_before_total(old_entries[i as int].0@, name@);
                        }
                    } else {
                        assert(entries[a] == old_entries[a]);
                    }
                }
            }
        }
        assert(self@ =~= old(self)@.insert(name@, value)) by {
            assert forall|k: Seq<char>| #[trigger]
                self@.contains_key(k) == old(self)@.insert(name@, value).contains_key(k) by {
                if self@.contains_key(k) {
                    let a = choose|a: int| self.holds(a, k);
                    if k != name@ {
                        let x = if entries.len() == old_entries.len() || a < i {
                            a
                        } else {
                            a - 1
                        };
                        assert(old(self).holds(x, k));
                    }
                }
                if old(self)@.contains_key(k) {
                    let x = choose|x: int| old(self).holds(x, k);
                    let a = if entries.len() == old_entries.len() || x < i {
                        x
                    } else {
                        x + 1
                    };
                    assert(self.holds(a, k));
                }
                assert(self.holds(i as int, name@));
            }
            assert forall|k: Seq<char>| #[trigger] self@.contains_key(k) implies self@[k] == old(
                self,
            )@.insert(name@, value)[k] by {
                let a = choose|a: int| self.holds(a, k);
                self.lemma_at(a);
                if k == name@ {
                    self.lemma_at(i as int);
                } else {
                    let x = if entries.len() == old_entries.len() || a < i {
                        a
                    } else {
                        a - 1
                    };
                    assert(old(self).holds(x, k));
                    old(self).lemma_at(x);
                }
            }
        }
    }

    /// Takes away what stands under `name`. Returns whether there was anything.
    pub fn remove(&mut self, name: &str) -> (r: bool)
        requires
            old(self).wf(),
        ensures
            final(self).wf(),
            r == old(self)@.contains_key(name@),
            final(self)@ == old(self)@.remove(name@),
    {
        let ghost earlier = *self;
        match self.position(name) {
            None => {
                assert(self@.remove(name@) =~= self@);
                false
            },
            Some(i) => {
                self.entries.remove(i);
                proof {
                    let entries = self.entries@;
                    let old_entries = earlier.entries@;
                    assert(entries =~= old_entries.remove(i as int));
                    assert forall|a: int, b: int| 0 <= a < b < entries.len() implies before(
                        (#[trigger] entries[a]).0@,
                        (#[trigger] entries[b]).0@,
                    ) by {
                        let x = if a < i {
                            a
                        } else {
                            a + 1
                        };
                        let y = if b < i {
                            b
                        } else {
                            b + 1
                        };
                        assert(before(old_entries[x].0@, old_entries[y].0@));
                    }
                    earlier.lemma_at(i as int);
                    let goal = earlier@.remove(name@);
                    assert forall|k: Seq<char>| #[trigger]
                        self@.contains_key(k) == goal.contains_key(k) by {
                        if self@.contains_key(k) {
                            let a = choose|a: int| self.holds(a, k);
                            let x = if a < i {
                                a
                            } else {
                                a + 1
                            };
                            assert(earlier.holds(x, k));
                        }
                        if goal.contains_key(k) {
                            let x = choose|x: int| earlier.holds(x, k);
                            let a = if x < i {
                                x
                            } else {
                                x - 1
                            };
                            assert(x != i);
                            assert(self.holds(a, k));
                        }
                    }
                    assert forall|k: Seq<char>| #[trigger] self@.contains_key(k) implies self@[k]
                        == goal[k] by {
                        let a = choose|a: int| self.holds(a, k);
                        self.lemma_at(a);
                        let x = if a < i {
                            a
                        } else {
                            a + 1
                        };
                        assert(earlier.holds(x, k));
                        earlier.lemma_at(x);
                    }
                    assert(self@ =~= goal);
                }
                true
            },
        }
    }

    /// The value under `name`, to be changed.
    pub fn get_mut(&mut self, name: &str) -> (r: Option<&mut V>)
        requires
            old(self).wf(),
        ensures
            match r {
                Some(value) => {
                    &&& old(self)@.contains_key(name@)
                    &&& *value == old(self)@[name@]
                    &&& final(self).wf()
                    &&& final(self)@ == old(self)@.insert(name@, *final(value))
                    &&& final(self).names() == old(self).names()
                },
                None => !old(self)@.contains_key(name@) && *final(self) == *old(self),
            },
    {
        match self.position(name) {
            Some(i) => {
                let ghost earlier = *self;
                proof {
                    self.lemma_at(i as int);
                }
                let value = &mut self.entries[i].1;
                proof {
                    lemma_replaced(earlier, *after_borrow(self), i as int);
                }
                Some(value)
            },
            None => None,
        }
    }
}

proof fn lemma_replaced<V>(earlier: Table<V>, later: Table<V>, i: int)
    requires
        earlier.wf(),
        0 <= i < earlier.entries@.len(),
        earlier.differs_at(later, i),
    ensures
        later.wf(),
        later@ == earlier@.insert(earlier.entries@[i].0@, later.entries@[i].1),
        later.names() == earlier.names(),
{
    let name = earlier.entries@[i].0@;
    let value = later.entries@[i].1;
    earlier.lemma_at(i);
    assert(forall|k: int|
        0 <= k < later.entries@.len() ==> (#[trigger] later.entries@[k]).0
            == earlier.entries@[k].0);
    assert(later.names() =~= earlier.names());
    later.lemma_at(i);
    assert forall|k: Seq<char>| #[trigger]
        later@.contains_key(k) == earlier@.insert(name, value).contains_key(k) by {
        if later@.contains_key(k) {
            let a = choose|a: int| later.holds(a, k);
            assert(earlier.holds(a, k));
        }
        if earlier@.contains_key(k) {
            let a = choose|a: int| earlier.holds(a, k);
            assert(later.holds(a, k));
        }
    }
    assert forall|k: Seq<char>| #[trigger] later@.contains_key(k) implies later@[k]
        == earlier@.insert(name, value)[k] by {
        let a = choose|a: int| later.holds(a, k);
        later.lemma_at(a);
        assert(earlier.holds(a, k));
        earlier.lemma_at(a);
    }
    assert(later@ =~= earlier@.insert(name, value));
}

} // verus!
