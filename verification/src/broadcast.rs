//! A broadcast: tracks found by name. The publisher inserts the tracks it
//! produces; a subscriber asks for a track by name and gets the published
//! one, or else a request that the publisher takes up later. Two subscribers
//! asking for the same name share one track.
//!
//! A track is named here by the number of its handle: the library that runs
//! the tracks keeps one handle per number.
use vstd::prelude::*;

use crate::table::{entries, find, lemma_find, names_unique, Table};
use crate::text::{compare_paths, owned, path_lt, PathOrder};
use crate::track::Track;

verus! {

/// The names of the table ascend in byte order.
pub open spec fn names_ascending(s: Seq<(Seq<char>, u64)>) -> bool {
    forall|i: int, j: int| 0 <= i < j < s.len() ==> path_lt(s[i].0, s[j].0)
}

/// What a subscription to a track gives.
#[derive(Debug, PartialEq, Eq, Structural, Clone, Copy)]
pub enum Subscription {
    /// The broadcast is over: the track will never have a group.
    Closed,
    /// The track with this handle.
    Track(u64),
}

/// The publisher's side of a broadcast.
#[derive(Debug)]
pub struct BroadcastProducer {
    published: Table,
    requested: Vec<(String, u64)>,
    closed: bool,
    next: u64,
}

/// The subscribers' side of a broadcast.
#[derive(Debug, Clone, Copy)]
pub struct BroadcastConsumer {}

impl BroadcastProducer {
    /// The published tracks, by name.
    pub closed spec fn published(&self) -> Seq<(Seq<char>, u64)> {
        self.published.view()
    }

    /// The tracks that subscribers asked for and nobody published yet.
    pub closed spec fn requests(&self) -> Seq<(Seq<char>, u64)> {
        entries(self.requested@)
    }

    /// Whether the broadcast is over.
    pub closed spec fn is_closed(&self) -> bool {
        self.closed
    }

    /// The handle that the next new track gets.
    pub closed spec fn next_handle(&self) -> u64 {
        self.next
    }

    /// Each name occurs once among the published tracks, the requests
    /// ascend by name, and a broadcast that is over holds no request.
    pub open spec fn wf(&self) -> bool {
        &&& names_unique(self.published())
        &&& names_ascending(self.requests())
        &&& self.is_closed() ==> self.requests().len() == 0
    }

    /// A broadcast with no track.
    pub fn new() -> (r: Self)
        ensures
            r.wf(),
            r.published().len() == 0,
            r.requests().len() == 0,
            !r.is_closed(),
            r.next_handle() == 0,
    {
        let r = BroadcastProducer { published: Table::new(), requested: Vec::new(), closed: false, next: 0 };
        assert(r.requests() =~= Seq::<(Seq<char>, u64)>::empty());
        r
    }

    /// Publish a track under its name, in place of any track of that name;
    /// true if no track had that name.
    pub fn insert(&mut self, name: &str, track: u64) -> (unique: bool)
        requires
            old(self).wf(),
        ensures
            final(self).wf(),
            unique == (find(old(self).published(), name@) is None),
            find(final(self).published(), name@) == Some(track),
            forall|n: Seq<char>| n != name@ ==> find(final(self).published(), n) == find(old(self).published(), n),
            final(self).requests() == old(self).requests(),
            final(self).is_closed() == old(self).is_closed(),
            final(self).next_handle() == old(self).next_handle(),
    {
        self.published.insert(name, track)
    }

    /// Create a new track with this name and publish it; its handle is
    /// returned.
    pub fn create(&mut self, track: &Track) -> (r: u64)
        requires
            old(self).wf(),
            old(self).next_handle() < u64::MAX,
        ensures
            final(self).wf(),
            r == old(self).next_handle(),
            final(self).next_handle() == old(self).next_handle() + 1,
            find(final(self).published(), track.name@) == Some(r),
            forall|n: Seq<char>| n != track.name@ ==> find(final(self).published(), n) == find(old(self).published(), n),
            final(self).requests() == old(self).requests(),
            final(self).is_closed() == old(self).is_closed(),
    {
        let id = self.next;
        self.next = self.next + 1;
        self.insert(track.name.as_str(), id);
        id
    }

    /// Take up the request that comes first by name: it is published, and
    /// its name and handle returned. None when nobody asked for a track.
    pub fn requested(&mut self) -> (r: Option<(String, u64)>)
        requires
            old(self).wf(),
        ensures
            final(self).wf(),
            old(self).requests().len() == 0 ==> r is None && final(self).published() == old(self).published()
                && final(self).requests() == old(self).requests(),
            old(self).requests().len() > 0 ==> (r matches Some((name, track)) && (name@, track)
                == old(self).requests()[0] && final(self).requests() == old(self).requests().drop_first() && find(
                final(self).published(),
                name@,
            ) == Some(track) && forall|n: Seq<char>|
                n != name@ ==> find(final(self).published(), n) == find(old(self).published(), n)),
            final(self).is_closed() == old(self).is_closed(),
            final(self).next_handle() == old(self).next_handle(),
    {
        if self.requested.len() == 0 {
            return None;
        }
        let ghost before = self.requests();
        let (name, track) = self.requested.remove(0);
        proof {
            assert(self.requests() =~= before.drop_first());
            assert forall|i: int, j: int| 0 <= i < j < self.requests().len() implies path_lt(
                self.requests()[i].0,
                self.requests()[j].0,
            ) by {
                assert(self.requests()[i] == before[i + 1]);
                assert(self.requests()[j] == before[j + 1]);
            }
        }
        self.insert(name.as_str(), track);
        Some((name, track))
    }

    /// The broadcast is over: no track will be published any more, and the
    /// requests are dropped.
    pub fn finish(&mut self)
        requires
            old(self).wf(),
        ensures
            final(self).wf(),
            final(self).is_closed(),
            final(self).requests().len() == 0,
            final(self).published() == old(self).published(),
            final(self).next_handle() == old(self).next_handle(),
    {
        self.closed = true;
        self.requested = Vec::new();
        assert(self.requests() =~= Seq::<(Seq<char>, u64)>::empty());
    }

    /// A published track closed: it leaves the table if it is still the
    /// track of its name; a track that replaced it under that name stays.
    pub fn track_closed(&mut self, name: &str, track: u64)
        requires
            old(self).wf(),
        ensures
            final(self).wf(),
            find(old(self).published(), name@) == Some(track) ==> find(final(self).published(), name@) is None
                && forall|n: Seq<char>| n != name@ ==> find(final(self).published(), n) == find(old(self).published(), n),
            find(old(self).published(), name@) != Some(track) ==> final(self).published() == old(self).published(),
            final(self).requests() == old(self).requests(),
            final(self).is_closed() == old(self).is_closed(),
            final(self).next_handle() == old(self).next_handle(),
    {
        if self.published.get(name) == Some(track) {
            self.published.remove(name);
        }
    }

    /// A new handle on the subscribers' side.
    pub fn consume(&self) -> (r: BroadcastConsumer) {
        BroadcastConsumer {  }
    }
}

/// Subscribing to the track named `name` took the broadcast from `before` to
/// `after` and gave `r`: no track once the broadcast is over; else the
/// published track of that name; else the track already requested under it;
/// else a new request, with the next handle.
pub open spec fn subscribes(
    before: BroadcastProducer,
    after: BroadcastProducer,
    name: Seq<char>,
    r: Subscription,
) -> bool {
    &&& after.published() == before.published()
    &&& after.is_closed() == before.is_closed()
    &&& before.is_closed() ==> r == Subscription::Closed && after.requests() == before.requests()
        && after.next_handle() == before.next_handle()
    &&& !before.is_closed() ==> match find(before.published(), name) {
        Some(t) => r == Subscription::Track(t) && after.requests() == before.requests() && after.next_handle()
            == before.next_handle(),
        None => match find(before.requests(), name) {
            Some(t) => r == Subscription::Track(t) && after.requests() == before.requests() && after.next_handle()
                == before.next_handle(),
            None => r == Subscription::Track(before.next_handle()) && after.next_handle() == before.next_handle() + 1
                && find(after.requests(), name) == Some(before.next_handle()) && (forall|n: Seq<char>|
                n != name ==> find(after.requests(), n) == find(before.requests(), n)) && after.requests().len()
                == before.requests().len() + 1,
        },
    }
}

/// Two subscriptions to the same name, one after the other, get the same
/// track, and the second one leaves the broadcast as the first left it.
pub proof fn lemma_subscribers_share(
    b0: BroadcastProducer,
    b1: BroadcastProducer,
    b2: BroadcastProducer,
    name: Seq<char>,
    r1: Subscription,
    r2: Subscription,
)
    requires
        subscribes(b0, b1, name, r1),
        subscribes(b1, b2, name, r2),
    ensures
        r2 == r1,
        b2.requests() == b1.requests(),
        b2.next_handle() == b1.next_handle(),
{
}

/// The request that `requested` takes up is handed out once: its name is no
/// longer among the requests that remain.
pub proof fn lemma_request_taken_once(b: BroadcastProducer)
    requires
        b.wf(),
        b.requests().len() > 0,
    ensures
        find(b.requests().drop_first(), b.requests()[0].0) is None,
{
    let rest = b.requests().drop_first();
    assert forall|a: int, c: int| 0 <= a < c < rest.len() implies rest[a].0 != rest[c].0 by {
        assert(rest[a] == b.requests()[a + 1]);
        assert(rest[c] == b.requests()[c + 1]);
        crate::text::lemma_path_irreflexive(rest[a].0);
    }
    lemma_find(rest, b.requests()[0].0);
    assert forall|i: int| 0 <= i < rest.len() implies rest[i].0 != b.requests()[0].0 by {
        assert(rest[i] == b.requests()[i + 1]);
        crate::text::lemma_path_irreflexive(rest[i].0);
    }
}

impl BroadcastConsumer {
    /// Whether the broadcast is over.
    pub fn is_closed(&self, broadcast: &BroadcastProducer) -> (r: bool)
        ensures
            r == broadcast.is_closed(),
    {
        broadcast.closed
    }

    /// Subscribe to a track by name: the published track of that name, else
    /// the track already requested under it, else a new request. A
    /// broadcast that is over gives no track.
    pub fn subscribe(&self, broadcast: &mut BroadcastProducer, track: &Track) -> (r: Subscription)
        requires
            old(broadcast).wf(),
            old(broadcast).next_handle() < u64::MAX,
        ensures
            final(broadcast).wf(),
            subscribes(*old(broadcast), *final(broadcast), track.name@, r),
    {
        if broadcast.closed {
            return Subscription::Closed;
        }
        let name = track.name.as_str();
        match broadcast.published.get(name) {
            Some(t) => return Subscription::Track(t),
            None => {},
        }
        // Find where a request of that name is, or would go.
        let ghost reqs = broadcast.requests();
        let mut i: usize = 0;
        while i < broadcast.requested.len() && compare_paths(broadcast.requested[i].0.as_str(), name)
            == PathOrder::Less
            invariant
                reqs == broadcast.requests(),
                i <= reqs.len(),
                forall|k: int| 0 <= k < i ==> path_lt(#[trigger] reqs[k].0, name@),
            decreases reqs.len() - i,
        {
            i = i + 1;
        }
        proof {
            assert(names_unique(reqs)) by {
                assert forall|a: int, b: int| 0 <= a < b < reqs.len() implies reqs[a].0 != reqs[b].0 by {
                    crate::text::lemma_path_irreflexive(reqs[a].0);
                }
            }
            lemma_find(reqs, name@);
        }
        if i < broadcast.requested.len() && compare_paths(broadcast.requested[i].0.as_str(), name) == PathOrder::Equal {
            assert(reqs[i as int].0 == name@);
            assert(find(reqs, name@) == Some(reqs[i as int].1));
            return Subscription::Track(broadcast.requested[i].1);
        }
        // The name is not requested: every request before `i` is smaller,
        // every one from `i` on is greater.
        proof {
            assert forall|k: int| i <= k < reqs.len() implies path_lt(name@, #[trigger] reqs[k].0) by {
                crate::text::lemma_path_lt_trans_le(name@, reqs[i as int].0, reqs[k].0);
            }
            assert forall|k: int| 0 <= k < reqs.len() implies reqs[k].0 != name@ by {
                crate::text::lemma_path_irreflexive(name@);
            }
        }
        let id = broadcast.next;
        broadcast.next = broadcast.next + 1;
        broadcast.requested.insert(i, (owned(name), id));
        proof {
            let now = broadcast.requests();
            assert(now =~= reqs.insert(i as int, (name@, id)));
            assert forall|a: int, b: int| 0 <= a < b < now.len() implies path_lt(now[a].0, now[b].0) by {
                if b < i {
                } else if a < i && b == i {
                } else if a < i {
                    assert(now[b] == reqs[b - 1]);
                } else if a == i {
                    assert(now[b] == reqs[b - 1]);
                } else {
                    assert(now[a] == reqs[a - 1]);
                    assert(now[b] == reqs[b - 1]);
                }
            }
            assert(names_unique(now)) by {
                assert forall|a: int, b: int| 0 <= a < b < now.len() implies now[a].0 != now[b].0 by {
                    crate::text::lemma_path_irreflexive(now[a].0);
                }
            }
            lemma_find(reqs, name@);
            lemma_find(now, name@);
            assert(now[i as int] == (name@, id));
            assert(find(now, name@) == Some(id));
            assert forall|n: Seq<char>| n != name@ implies find(now, n) == find(reqs, n) by {
                lemma_find(reqs, n);
                lemma_find(now, n);
                if find(reqs, n) is Some {
                    let k = choose|k: int| 0 <= k < reqs.len() && reqs[k].0 == n;
                    let k2 = if k < i { k } else { k + 1 };
                    assert(now[k2] == reqs[k]);
                }
                if find(now, n) is Some {
                    let k = choose|k: int| 0 <= k < now.len() && now[k].0 == n;
                    assert(k != i);
                    let k2 = if k < i { k } else { k - 1 };
                    assert(now[k] == reqs[k2]);
                }
            }
        }
        Subscription::Track(id)
    }
}

} // verus!
