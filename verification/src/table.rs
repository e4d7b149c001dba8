//! Tables of values by name, with each name at most once.
use vstd::prelude::*;

use crate::text::{compare_paths, owned, PathOrder};

verus! {

/// The value of a name in a table: that of the last entry with the name.
pub open spec fn find(s: Seq<(Seq<char>, u64)>, name: Seq<char>) -> Option<u64>
    decreases s.len(),
{
    if s.len() == 0 {
        None
    } else if s.last().0 == name {
        Some(s.last().1)
    } else {
        find(s.drop_last(), name)
    }
}

/// No name occurs twice in the table.
pub open spec fn names_unique(s: Seq<(Seq<char>, u64)>) -> bool {
    forall|i: int, j: int| 0 <= i < j < s.len() ==> s[i].0 != s[j].0
}

/// The entries, as the specifications see them.
pub open spec fn entries(v: Seq<(String, u64)>) -> Seq<(Seq<char>, u64)> {
    Seq::new(v.len(), |i: int| (v[i].0@, v[i].1))
}

/// With unique names, an entry's value is the value of its name, and a name
/// without an entry has none.
pub proof fn lemma_find(s: Seq<(Seq<char>, u64)>, name: Seq<char>)
    requires
        names_unique(s),
    ensures
        find(s, name) is None <==> forall|i: int| 0 <= i < s.len() ==> s[i].0 != name,
        forall|i: int| 0 <= i < s.len() && s[i].0 == name ==> find(s, name) == Some(s[i].1),
    decreases s.len(),
{
    if s.len() > 0 {
        let t = s.drop_last();
        assert(names_unique(t));
        lemma_find(t, name);
        if s.last().0 != name {
            assert forall|i: int| 0 <= i < s.len() && s[i].0 == name implies find(s, name) == Some(s[i].1) by {
                assert(i < s.len() - 1);
                assert(t[i] == s[i]);
            }
            assert((forall|i: int| 0 <= i < t.len() ==> t[i].0 != name) ==> (forall|i: int|
                0 <= i < s.len() ==> s[i].0 != name)) by {
                if forall|i: int| 0 <= i < t.len() ==> t[i].0 != name {
                    assert forall|i: int| 0 <= i < s.len() implies s[i].0 != name by {
                        if i < s.len() - 1 {
                            assert(t[i] == s[i]);
                        }
                    }
                }
            }
            assert((forall|i: int| 0 <= i < s.len() ==> s[i].0 != name) ==> (forall|i: int|
                0 <= i < t.len() ==> t[i].0 != name)) by {
                if forall|i: int| 0 <= i < s.len() ==> s[i].0 != name {
                    assert forall|i: int| 0 <= i < t.len() implies t[i].0 != name by {
                        assert(t[i] == s[i]);
                    }
                }
            }
        } else {
            assert forall|i: int| 0 <= i < s.len() && s[i].0 == name implies find(s, name) == Some(s[i].1) by {
                if i < s.len() - 1 {
                    assert(s[i].0 == s[s.len() - 1].0);
                }
            }
        }
    }
}

/// A table of values by name.
#[derive(Debug)]
pub struct Table {
    entries: Vec<(String, u64)>,
}

impl Table {
    /// The entries, in the order they were added.
    pub closed spec fn view(&self) -> Seq<(Seq<char>, u64)> {
        entries(self.entries@)
    }

    /// No name occurs twice.
    pub open spec fn wf(&self) -> bool {
        names_unique(self.view())
    }

    /// An empty table.
    pub fn new() -> (r: Self)
        ensures
            r.wf(),
            r.view().len() == 0,
    {
        let r = Table { entries: Vec::new() };
        assert(r.view() =~= Seq::<(Seq<char>, u64)>::empty());
        r
    }

    /// The number of entries.
    pub fn len(&self) -> (r: usize)
        ensures
            r == self.view().len(),
    {
        self.entries.len()
    }

    /// The entry at a position.
    pub fn entry(&self, i: usize) -> (r: (&str, u64))
        requires
            i < self.view().len(),
        ensures
            (r.0@, r.1) == self.view()[i as int],
    {
        (self.entries[i].0.as_str(), self.entries[i].1)
    }

    /// The value of a name.
    pub fn get(&self, name: &str) -> (r: Option<u64>)
        requires
            self.wf(),
        ensures
            r == find(self.view(), name@),
    {
        match self.position(name) {
            None => None,
            Some(i) => {
                proof {
                    lemma_find(self.view(), name@);
                }
                Some(self.entries[i].1)
            },
        }
    }

    /// The position of the entry with this name.
    pub fn position(&self, name: &str) -> (r: Option<usize>)
        requires
            self.wf(),
        ensures
            r is None ==> find(self.view(), name@) is None,
            r matches Some(i) ==> i < self.view().len() && self.view()[i as int].0 == name@,
    {
        let mut i: usize = 0;
        while i < self.entries.len()
            invariant
                i <= self.entries@.len(),
                forall|k: int| 0 <= k < i ==> self.view()[k].0 != name@,
            decreases self.entries@.len() - i,
        {
            if compare_paths(self.entries[i].0.as_str(), name) == PathOrder::Equal {
                return Some(i);
            }
            i = i + 1;
        }
        proof {
            lemma_find(self.view(), name@);
        }
        None
    }

    /// Set the value of a name, in place of any value it had; true if the
    /// name had none.
    pub fn insert(&mut self, name: &str, value: u64) -> (unique: bool)
        requires
            old(self).wf(),
        ensures
            final(self).wf(),
            unique == (find(old(self).view(), name@) is None),
            find(final(self).view(), name@) == Some(value),
            forall|n: Seq<char>| n != name@ ==> find(final(self).view(), n) == find(old(self).view(), n),
    {
        let ghost before = self.view();
        let entry = (owned(name), value);
        match self.position(name) {
            Some(i) => {
                self.entries.set(i, entry);
                proof {
                    assert(self.view() =~= before.update(i as int, (name@, value)));
                    assert forall|a: int, b: int| 0 <= a < b < self.view().len() implies self.view()[a].0
                        != self.view()[b].0 by {
                        if a != i && b != i {
                            assert(self.view()[a] == before[a]);
                            assert(self.view()[b] == before[b]);
                        } else if a == i {
                            assert(self.view()[b] == before[b]);
                        } else {
                            assert(self.view()[a] == before[a]);
                        }
                    }
                    lemma_find(before, name@);
                    lemma_find(self.view(), name@);
                    assert(self.view()[i as int] == (name@, value));
                    assert forall|n: Seq<char>| n != name@ implies find(self.view(), n) == find(before, n) by {
                        lemma_find(before, n);
                        lemma_find(self.view(), n);
                        if find(before, n) is Some {
                            let k = choose|k: int| 0 <= k < before.len() && before[k].0 == n;
                            assert(self.view()[k] == before[k]);
                        }
                        if find(self.view(), n) is Some {
                            let k = choose|k: int| 0 <= k < self.view().len() && self.view()[k].0 == n;
                            assert(self.view()[k] == before[k]);
                        }
                    }
                }
                false
            },
            None => {
                self.entries.push(entry);
                proof {
                    assert(self.view() =~= before.push((name@, value)));
                    assert(self.view().drop_last() =~= before);
                    lemma_find(before, name@);
                }
                true
            },
        }
    }

    /// Remove the entry with this name, if any.
    pub fn remove(&mut self, name: &str)
        requires
            old(self).wf(),
        ensures
            final(self).wf(),
            find(final(self).view(), name@) is None,
            forall|n: Seq<char>| n != name@ ==> find(final(self).view(), n) == find(old(self).view(), n),
    {
        let ghost before = self.view();
        match self.position(name) {
            None => {},
            Some(i) => {
                self.entries.remove(i);
                proof {
                    assert(self.view() =~= before.remove(i as int));
                    assert forall|a: int, b: int| 0 <= a < b < self.view().len() implies self.view()[a].0
                        != self.view()[b].0 by {
                        let a2 = if a < i { a } else { a + 1 };
                        let b2 = if b < i { b } else { b + 1 };
                        assert(self.view()[a] == before[a2]);
                        assert(self.view()[b] == before[b2]);
                    }
                    lemma_find(before, name@);
                    lemma_find(self.view(), name@);
                    assert forall|k: int| 0 <= k < self.view().len() implies self.view()[k].0 != name@ by {
                        let k2 = if k < i { k } else { k + 1 };
                        assert(self.view()[k] == before[k2]);
                    }
                    assert forall|n: Seq<char>| n != name@ implies find(self.view(), n) == find(before, n) by {
                        lemma_find(before, n);
                        lemma_find(self.view(), n);
                        if find(before, n) is Some {
                            let k = choose|k: int| 0 <= k < before.len() && before[k].0 == n;
                            assert(k != i);
                            let k2 = if k < i { k } else { k - 1 };
                            assert(self.view()[k2] == before[k]);
                        }
                        if find(self.view(), n) is Some {
                            let k = choose|k: int| 0 <= k < self.view().len() && self.view()[k].0 == n;
                            let k2 = if k < i { k } else { k + 1 };
                            assert(self.view()[k] == before[k2]);
                        }
                    }
                }
            },
        }
    }

}

} // verus!
