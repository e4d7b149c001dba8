//! A room: the broadcasts under one path prefix, where each participant
//! publishes its own broadcast and watches everyone else's.
use vstd::prelude::*;

use crate::text::{compare_paths, owned, PathOrder};

verus! {

/// The names published by this participant.
pub open spec fn names(v: Seq<String>) -> Set<Seq<char>> {
    Set::new(|n: Seq<char>| exists|i: int| 0 <= i < v.len() && (#[trigger] v[i])@ == n)
}

/// A participant's view of a room.
#[derive(Debug)]
pub struct Room {
    path: String,
    publishing: Vec<String>,
}

impl Room {
    /// The prefix of the room's broadcasts.
    pub closed spec fn prefix(&self) -> Seq<char> {
        self.path@
    }

    /// The prefix of the room's broadcasts.
    pub fn path(&self) -> (r: &str)
        ensures
            r@ == self.prefix(),
    {
        self.path.as_str()
    }

    /// The names this participant publishes.
    pub closed spec fn publishing(&self) -> Set<Seq<char>> {
        names(self.publishing@)
    }

    /// Join the room at this path, publishing nothing yet.
    pub fn new(path: String) -> (r: Self)
        ensures
            r.prefix() == path@,
            r.publishing() == Set::<Seq<char>>::empty(),
    {
        let r = Room { path, publishing: Vec::new() };
        assert(r.publishing() =~= Set::<Seq<char>>::empty());
        r
    }

    /// Whether this participant publishes a name.
    pub fn is_publishing(&self, name: &str) -> (r: bool)
        ensures
            r == self.publishing().contains(name@),
    {
        let mut i: usize = 0;
        while i < self.publishing.len()
            invariant
                i <= self.publishing@.len(),
                forall|k: int| 0 <= k < i ==> self.publishing@[k]@ != name@,
            decreases self.publishing@.len() - i,
        {
            if compare_paths(self.publishing[i].as_str(), name) == PathOrder::Equal {
                assert(names(self.publishing@).contains(name@));
                return true;
            }
            i = i + 1;
        }
        false
    }

    /// Publish a broadcast under a name; the path it is published at, the
    /// room's path followed by the name, is returned.
    pub fn publish(&mut self, name: &str) -> (path: String)
        ensures
            path@ == old(self).prefix() + name@,
            final(self).prefix() == old(self).prefix(),
            final(self).publishing() == old(self).publishing().insert(name@),
    {
        if !self.is_publishing(name) {
            self.publishing.push(owned(name));
        }
        proof {
            assert(self.publishing() =~= old(self).publishing().insert(name@)) by {
                assert forall|n: Seq<char>| self.publishing().contains(n) <==> old(self).publishing().insert(name@).contains(n) by {
                    if old(self).publishing().contains(n) {
                        let i = choose|i: int| 0 <= i < old(self).publishing@.len() && (#[trigger] old(self).publishing@[i])@ == n;
                        assert(self.publishing@[i] == old(self).publishing@[i]);
                    }
                    if n == name@ && !old(self).publishing().contains(n) {
                        assert(self.publishing@[self.publishing@.len() - 1]@ == n);
                    }
                    if self.publishing().contains(n) {
                        let i = choose|i: int| 0 <= i < self.publishing@.len() && (#[trigger] self.publishing@[i])@ == n;
                        if i < old(self).publishing@.len() {
                            assert(self.publishing@[i] == old(self).publishing@[i]);
                        }
                    }
                }
            }
        }
        let mut path = owned(self.path.as_str());
        path.append(name);
        path
    }

    /// Our broadcast of this name closed: it is no longer ours.
    pub fn closed(&mut self, name: &str)
        ensures
            final(self).prefix() == old(self).prefix(),
            final(self).publishing() == old(self).publishing().remove(name@),
    {
        let mut kept: Vec<String> = Vec::new();
        let mut i: usize = 0;
        while i < self.publishing.len()
            invariant
                i <= self.publishing@.len(),
                self.publishing == old(self).publishing,
                forall|k: int| 0 <= k < kept@.len() ==> (#[trigger] kept@[k])@ != name@,
                names(kept@) == names(self.publishing@.take(i as int)).remove(name@),
            decreases self.publishing@.len() - i,
        {
            let ghost before = kept@;
            if compare_paths(self.publishing[i].as_str(), name) != PathOrder::Equal {
                kept.push(owned(self.publishing[i].as_str()));
            }
            proof {
                let t = self.publishing@.take(i + 1);
                assert(t =~= self.publishing@.take(i as int).push(self.publishing@[i as int]));
                assert forall|n: Seq<char>| names(kept@).contains(n) <==> names(t).remove(name@).contains(n) by {
                    if names(kept@).contains(n) {
                        let k = choose|k: int| 0 <= k < kept@.len() && (#[trigger] kept@[k])@ == n;
                        if k < before.len() {
                            assert(names(before).contains(n));
                            let j = choose|j: int| 0 <= j < i && (#[trigger] self.publishing@.take(i as int)[j])@ == n;
                            assert(t[j] == self.publishing@.take(i as int)[j]);
                        } else {
                            assert(t[i as int]@ == n);
                        }
                    }
                    if names(t).remove(name@).contains(n) {
                        let j = choose|j: int| 0 <= j < t.len() && (#[trigger] t[j])@ == n;
                        if j < i {
                            assert(self.publishing@.take(i as int)[j] == t[j]);
                            assert(names(self.publishing@.take(i as int)).contains(n));
                            assert(names(before).contains(n));
                            let k = choose|k: int| 0 <= k < before.len() && (#[trigger] before[k])@ == n;
                            assert(kept@.len() >= before.len());
                            assert(kept@[k] == before[k]);
                        } else {
                            assert(kept@[kept@.len() - 1]@ == n);
                        }
                    }
                }
                assert(names(kept@) =~= names(t).remove(name@));
            }
            i = i + 1;
        }
        assert(self.publishing@.take(i as int) =~= self.publishing@);
        self.publishing = kept;
    }
}

} // verus!
