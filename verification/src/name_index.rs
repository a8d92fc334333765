//! A map from names to ids.

use vstd::prelude::*;
use crate::text::str_equal;

verus! {

/// A name with the id that it stands for.
#[derive(Clone, Debug, PartialEq, Eq)]
pub struct NameEntry {
    pub name: String,
    pub id: i64,
}

/// A map from names to ids. A name is found by its exact characters.
#[derive(Clone, Debug, PartialEq, Eq)]
pub struct NameIndex {
    pub entries: Vec<NameEntry>,
}

/// The id of the first entry with the given name.
pub open spec fn lookup(entries: Seq<NameEntry>, name: Seq<char>) -> Option<i64>
    decreases entries.len(),
{
    if entries.len() == 0 {
        None
    } else if entries[0].name@ == name {
        Some(entries[0].id)
    } else {
        lookup(entries.drop_first(), name)
    }
}

/// `lookup` gives the id of the first entry with the name, and `None` only
/// where no entry has it.
pub proof fn lemma_lookup(entries: Seq<NameEntry>, name: Seq<char>)
    ensures
        match lookup(entries, name) {
            Some(id) => exists|p: int|
                0 <= p < entries.len() && (#[trigger] entries[p]).name@ == name && entries[p].id
                    == id && forall|j: int| 0 <= j < p ==> (#[trigger] entries[j]).name@ != name,
            None => forall|j: int| 0 <= j < entries.len() ==> (#[trigger] entries[j]).name@ != name,
        },
    decreases entries.len(),
{
    if entries.len() > 0 {
        if entries[0].name@ == name {
            assert(entries[0].name@ == name && entries[0].id == lookup(entries, name)->0);
        } else {
            let rest = entries.drop_first();
            lemma_lookup(rest, name);
            match lookup(rest, name) {
                Some(id) => {
                    let p = choose|p: int|
                        0 <= p < rest.len() && (#[trigger] rest[p]).name@ == name && rest[p].id
                            == id && forall|j: int|
                            0 <= j < p ==> (#[trigger] rest[j]).name@ != name;
                    assert(entries[p + 1] == rest[p]);
                    assert forall|j: int| 0 <= j < p + 1 implies (#[trigger] entries[j]).name@
                        != name by {
                        if j > 0 {
                            assert(entries[j] == rest[j - 1]);
                        }
                    }
                },
                None => {
                    assert forall|j: int| 0 <= j < entries.len() implies (
                    #[trigger] entries[j]).name@ != name by {
                        if j > 0 {
                            assert(entries[j] == rest[j - 1]);
                        }
                    }
                },
            }
        }
    }
}

/// The id that `lookup` gives is that of the entry at `p`, where `p` is the
/// first entry with the name.
pub proof fn lemma_lookup_at(entries: Seq<NameEntry>, name: Seq<char>, p: int)
    requires
        0 <= p < entries.len(),
        entries[p].name@ == name,
        forall|j: int| 0 <= j < p ==> (#[trigger] entries[j]).name@ != name,
    ensures
        lookup(entries, name) == Some(entries[p].id),
    decreases entries.len(),
{
    if p > 0 {
        let rest = entries.drop_first();
        assert(entries[0].name@ != name);
        assert(rest[p - 1] == entries[p]);
        assert forall|j: int| 0 <= j < p - 1 implies (#[trigger] rest[j]).name@ != name by {
            assert(rest[j] == entries[j + 1]);
        }
        lemma_lookup_at(rest, name, p - 1);
    }
}

/// Where no entry has the name, `lookup` gives `None`.
pub proof fn lemma_lookup_none(entries: Seq<NameEntry>, name: Seq<char>)
    requires
        forall|j: int| 0 <= j < entries.len() ==> (#[trigger] entries[j]).name@ != name,
    ensures
        lookup(entries, name) is None,
    decreases entries.len(),
{
    if entries.len() > 0 {
        let rest = entries.drop_first();
        assert(entries[0].name@ != name);
        assert forall|j: int| 0 <= j < rest.len() implies (#[trigger] rest[j]).name@ != name by {
            assert(rest[j] == entries[j + 1]);
        }
        lemma_lookup_none(rest, name);
    }
}

impl View for NameIndex {
    type V = Map<Seq<char>, i64>;

    /// The map that the index stands for.
    open spec fn view(&self) -> Map<Seq<char>, i64> {
        Map::new(
            |name: Seq<char>| lookup(self.entries@, name) is Some,
            |name: Seq<char>| lookup(self.entries@, name)->0,
        )
    }
}

impl NameIndex {
    /// An index without names.
    pub fn new() -> (r: NameIndex)
        ensures
            r@ == Map::<Seq<char>, i64>::empty(),
    {
        let r = NameIndex { entries: Vec::new() };
        assert(r@ =~= Map::<Seq<char>, i64>::empty());
        r
    }

    /// The position of the first entry with the name.
    fn position(&self, name: &str) -> (r: Option<usize>)
        ensures
            match r {
                Some(p) => p < self.entries@.len() && self.entries@[p as int].name@ == name@
                    && forall|j: int| 0 <= j < p ==> (#[trigger] self.entries@[j]).name@ != name@,
                None => forall|j: int|
                    0 <= j < self.entries@.len() ==> (#[trigger] self.entries@[j]).name@ != name@,
            },
    {
        let mut i: usize = 0;
        while i < self.entries.len()
            invariant
                i <= self.entries@.len(),
                forall|j: int| 0 <= j < i ==> (#[trigger] self.entries@[j]).name@ != name@,
            decreases self.entries@.len() - i,
        {
            if str_equal(self.entries[i].name.as_str(), name) {
                return Some(i);
            }
            i += 1;
        }
        None
    }

    /// The id that the name stands for.
    pub fn get(&self, name: &str) -> (r: Option<i64>)
        ensures
            r == (if self@.dom().contains(name@) {
                Some(self@[name@])
            } else {
                None
            }),
    {
        match self.position(name) {
            Some(p) => {
                proof {
                    lemma_lookup_at(self.entries@, name@, p as int);
                }
                Some(self.entries[p].id)
            },
            None => {
                proof {
                    lemma_lookup_none(self.entries@, name@);
                }
                None
            },
        }
    }

    /// Lets the name stand for the id, whatever it stood for before.
    pub fn insert(&mut self, name: String, id: i64)
        ensures
            final(self)@ == old(self)@.insert(name@, id),
    {
        let ghost before: Seq<NameEntry> = self.entries@;
        match self.position(name.as_str()) {
            Some(p) => {
                let replaced: NameEntry = self.entries.remove(p);
                self.entries.insert(p, NameEntry { name: replaced.name, id });
                proof {
                    let after = self.entries@;
                    assert(after.len() == before.len());
                    assert forall|k: Seq<char>| #[trigger]
                        lookup(after, k) == (if k == name@ {
                            Some(id)
                        } else {
                            lookup(before, k)
                        }) by {
                        lemma_same_names(before, after, p as int, k);
                    }
                    assert(self@ =~= old(self)@.insert(name@, id));
                }
            },
            None => {
                self.entries.push(NameEntry { name, id });
                proof {
                    let after = self.entries@;
                    assert(after.drop_last() =~= before);
                    assert forall|k: Seq<char>| #[trigger]
                        lookup(after, k) == (if k == name@ {
                            Some(id)
                        } else {
                            lookup(before, k)
                        }) by {
                        lemma_pushed(before, after, k);
                    }
                    assert(self@ =~= old(self)@.insert(name@, id));
                }
            },
        }
    }

    /// Lets the name stand for the id, unless it stands for one already.
    pub fn insert_if_absent(&mut self, name: String, id: i64)
        ensures
            final(self)@ == (if old(self)@.dom().contains(name@) {
                old(self)@
            } else {
                old(self)@.insert(name@, id)
            }),
    {
        if self.get(name.as_str()).is_none() {
            self.insert(name, id);
        }
    }
}

/// Replacing the id of the entry at `p` changes what its name stands for,
/// where `p` is the first entry with that name, and nothing else.
proof fn lemma_same_names(before: Seq<NameEntry>, after: Seq<NameEntry>, p: int, k: Seq<char>)
    requires
        0 <= p < before.len(),
        after.len() == before.len(),
        forall|j: int| 0 <= j < before.len() ==> (#[trigger] after[j]).name@ == before[j].name@,
        forall|j: int| 0 <= j < before.len() && j != p ==> (#[trigger] after[j]).id == before[j].id,
        forall|j: int| 0 <= j < p ==> (#[trigger] before[j]).name@ != before[p].name@,
    ensures
        lookup(after, k) == (if k == before[p].name@ {
            Some(after[p].id)
        } else {
            lookup(before, k)
        }),
{
    lemma_lookup(before, k);
    if k == before[p].name@ {
        assert forall|j: int| 0 <= j < p implies (#[trigger] after[j]).name@ != k by {
            assert(before[j].name@ != k);
        }
        lemma_lookup_at(after, k, p);
    } else {
        match lookup(before, k) {
            Some(id) => {
                let q = choose|q: int|
                    0 <= q < before.len() && (#[trigger] before[q]).name@ == k && before[q].id == id
                        && forall|j: int| 0 <= j < q ==> (#[trigger] before[j]).name@ != k;
                assert forall|j: int| 0 <= j < q implies (#[trigger] after[j]).name@ != k by {
                    assert(before[j].name@ != k);
                }
                assert(after[q].name@ == before[q].name@);
                lemma_lookup_at(after, k, q);
            },
            None => {
                assert forall|j: int| 0 <= j < after.len() implies (#[trigger] after[j]).name@
                    != k by {
                    assert(before[j].name@ != k);
                }
                lemma_lookup_none(after, k);
            },
        }
    }
}

/// Adding an entry whose name no entry has lets that name stand for its id
/// and changes nothing else.
proof fn lemma_pushed(before: Seq<NameEntry>, after: Seq<NameEntry>, k: Seq<char>)
    requires
        after.len() == before.len() + 1,
        after.drop_last() == before,
        forall|j: int| 0 <= j < before.len() ==> (#[trigger] before[j]).name@ != after.last().name@,
    ensures
        lookup(after, k) == (if k == after.last().name@ {
            Some(after.last().id)
        } else {
            lookup(before, k)
        }),
{
    lemma_lookup(before, k);
    assert forall|j: int| 0 <= j < before.len() implies #[trigger] after[j] == before[j] by {}
    if k == after.last().name@ {
        assert forall|j: int| 0 <= j < before.len() implies (#[trigger] after[j]).name@ != k by {
            assert(before[j].name@ != k);
        }
        lemma_lookup_at(after, k, before.len() as int);
    } else {
        match lookup(before, k) {
            Some(id) => {
                let q = choose|q: int|
                    0 <= q < before.len() && (#[trigger] before[q]).name@ == k && before[q].id == id
                        && forall|j: int| 0 <= j < q ==> (#[trigger] before[j]).name@ != k;
                assert forall|j: int| 0 <= j < q implies (#[trigger] after[j]).name@ != k by {
                    assert(before[j].name@ != k);
                }
                assert(after[q] == before[q]);
                lemma_lookup_at(after, k, q);
            },
            None => {
                assert forall|j: int| 0 <= j < after.len() implies (#[trigger] after[j]).name@
                    != k by {
                    if j < before.len() {
                        assert(before[j].name@ != k);
                    }
                }
                lemma_lookup_none(after, k);
            },
        }
    }
}

} // verus!
