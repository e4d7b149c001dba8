//! An origin: the broadcasts published on a node, by path. A consumer
//! watches a prefix: it first gets the broadcasts already published under
//! it, then each one published afterwards, with the prefix cut off.
//!
//! A broadcast is named here by the number of its handle.
use vstd::prelude::*;

use crate::table::{entries, find, Table};
use crate::text::{owned, strip_prefix};

verus! {

/// What a consumer watching `prefix` gets when `broadcast` is published at
/// `path`: the path without the prefix, if the path starts with it.
pub open spec fn route(prefix: Seq<char>, path: Seq<char>, broadcast: u64) -> Seq<(Seq<char>, u64)> {
    if prefix.is_prefix_of(path) {
        seq![(path.skip(prefix.len() as int), broadcast)]
    } else {
        seq![]
    }
}

/// What a new consumer watching `prefix` gets first: the published
/// broadcasts under it, in the order of the table.
pub open spec fn snapshot(active: Seq<(Seq<char>, u64)>, prefix: Seq<char>) -> Seq<(Seq<char>, u64)>
    decreases active.len(),
{
    if active.len() == 0 {
        seq![]
    } else {
        snapshot(active.drop_last(), prefix) + route(prefix, active.last().0, active.last().1)
    }
}

/// The queue of one consumer.
#[derive(Debug)]
struct ConsumerState {
    prefix: String,
    updates: Vec<(String, u64)>,
}

impl ConsumerState {
    /// Queue the broadcast published at `path`, if it falls under our prefix.
    fn insert(&mut self, path: &str, broadcast: u64) -> (queued: bool)
        ensures
            final(self).prefix@ == old(self).prefix@,
            entries(final(self).updates@) == entries(old(self).updates@) + route(old(self).prefix@, path@, broadcast),
            queued == old(self).prefix@.is_prefix_of(path@),
    {
        let ghost before = entries(self.updates@);
        match strip_prefix(path, self.prefix.as_str()) {
            Some(suffix) => {
                self.updates.push((owned(suffix), broadcast));
                proof {
                    let pre = self.prefix@;
                    assert(suffix@ =~= path@.skip(pre.len() as int));
                    assert(entries(self.updates@) =~= before + route(pre, path@, broadcast));
                }
                true
            },
            None => {
                assert(entries(self.updates@) =~= before + route(self.prefix@, path@, broadcast));
                false
            },
        }
    }
}

/// Announces broadcasts to consumers.
#[derive(Debug)]
pub struct OriginProducer {
    active: Table,
    consumers: Vec<ConsumerState>,
}

/// A consumer of an origin, registered with its producer.
#[derive(Debug)]
pub struct OriginConsumer {
    index: usize,
}

impl OriginConsumer {
    /// The position of this consumer in its producer.
    pub closed spec fn id(&self) -> int {
        self.index as int
    }
}

impl OriginProducer {
    /// The published broadcasts, by path.
    pub closed spec fn active(&self) -> Seq<(Seq<char>, u64)> {
        self.active.view()
    }

    /// How many consumers have subscribed.
    pub closed spec fn consumer_count(&self) -> int {
        self.consumers@.len() as int
    }

    /// The prefix that consumer `c` watches.
    pub closed spec fn prefix_of(&self, c: int) -> Seq<char> {
        self.consumers@[c].prefix@
    }

    /// The broadcasts queued for consumer `c`, oldest first.
    pub closed spec fn pending(&self, c: int) -> Seq<(Seq<char>, u64)> {
        entries(self.consumers@[c].updates@)
    }

    /// Each path is published once.
    pub open spec fn wf(&self) -> bool {
        crate::table::names_unique(self.active())
    }

    /// The consumers and their prefixes are the same.
    pub open spec fn same_consumers(&self, other: &Self) -> bool {
        &&& self.consumer_count() == other.consumer_count()
        &&& forall|c: int| 0 <= c < self.consumer_count() ==> #[trigger] self.prefix_of(c) == other.prefix_of(c)
    }

    /// An origin with no broadcast and no consumer.
    pub fn new() -> (r: Self)
        ensures
            r.wf(),
            r.active().len() == 0,
            r.consumer_count() == 0,
    {
        OriginProducer { active: Table::new(), consumers: Vec::new() }
    }

    /// Publish a broadcast at a path, in place of any broadcast there, and
    /// queue it for every consumer whose prefix the path starts with; true if
    /// nothing was published at that path.
    pub fn publish(&mut self, path: &str, broadcast: u64) -> (unique: bool)
        requires
            old(self).wf(),
        ensures
            final(self).wf(),
            unique == (find(old(self).active(), path@) is None),
            find(final(self).active(), path@) == Some(broadcast),
            forall|n: Seq<char>| n != path@ ==> find(final(self).active(), n) == find(old(self).active(), n),
            final(self).same_consumers(old(self)),
            forall|c: int|
                0 <= c < old(self).consumer_count() ==> #[trigger] final(self).pending(c) == old(self).pending(c)
                    + route(old(self).prefix_of(c), path@, broadcast),
    {
        let mut i: usize = 0;
        while i < self.consumers.len()
            invariant
                i <= self.consumers@.len(),
                self.active == old(self).active,
                self.same_consumers(old(self)),
                forall|c: int|
                    0 <= c < i ==> #[trigger] self.pending(c) == old(self).pending(c) + route(
                        old(self).prefix_of(c),
                        path@,
                        broadcast,
                    ),
                forall|c: int| i <= c < self.consumer_count() ==> #[trigger] self.pending(c) == old(self).pending(c),
            decreases self.consumers@.len() - i,
        {
            let ghost before = *self;
            self.consumers[i].insert(path, broadcast);
            proof {
                assert forall|c: int| 0 <= c < self.consumers@.len() && c != i implies #[trigger] self.consumers@[c]
                    == before.consumers@[c] by {}
                assert forall|c: int| 0 <= c < self.consumer_count() implies #[trigger] self.prefix_of(c)
                    == old(self).prefix_of(c) by {
                    assert(before.prefix_of(c) == old(self).prefix_of(c));
                }
                assert forall|c: int| 0 <= c < i + 1 implies #[trigger] self.pending(c) == old(self).pending(c)
                    + route(old(self).prefix_of(c), path@, broadcast) by {
                    if c < i {
                        assert(before.pending(c) == old(self).pending(c) + route(old(self).prefix_of(c), path@, broadcast));
                    } else {
                        assert(before.pending(c) == old(self).pending(c));
                        assert(before.prefix_of(c) == old(self).prefix_of(c));
                    }
                }
                assert forall|c: int| i + 1 <= c < self.consumer_count() implies #[trigger] self.pending(c)
                    == old(self).pending(c) by {
                    assert(before.pending(c) == old(self).pending(c));
                }
            }
            i = i + 1;
        }
        let ghost mid = *self;
        let unique = self.active.insert(path, broadcast);
        proof {
            assert(self.consumers == mid.consumers);
            assert forall|c: int| 0 <= c < self.consumer_count() implies #[trigger] self.pending(c) == mid.pending(c)
                && self.prefix_of(c) == mid.prefix_of(c) by {}
            assert forall|c: int| 0 <= c < self.consumer_count() implies #[trigger] self.prefix_of(c)
                == old(self).prefix_of(c) by {
                assert(mid.prefix_of(c) == old(self).prefix_of(c));
            }
        }
        unique
    }

    /// The broadcast published at a path.
    pub fn consume(&self, path: &str) -> (r: Option<u64>)
        requires
            self.wf(),
        ensures
            r == find(self.active(), path@),
    {
        self.active.get(path)
    }

    /// Watch the broadcasts under a prefix: those already published come
    /// first, in the order of the table.
    pub fn consume_prefix(&mut self, prefix: &str) -> (r: OriginConsumer)
        requires
            old(self).wf(),
        ensures
            final(self).wf(),
            final(self).active() == old(self).active(),
            r.id() == old(self).consumer_count(),
            final(self).consumer_count() == old(self).consumer_count() + 1,
            final(self).prefix_of(r.id()) == prefix@,
            final(self).pending(r.id()) == snapshot(old(self).active(), prefix@),
            forall|c: int|
                0 <= c < old(self).consumer_count() ==> #[trigger] final(self).prefix_of(c) == old(self).prefix_of(c)
                    && final(self).pending(c) == old(self).pending(c),
    {
        let mut state = ConsumerState { prefix: owned(prefix), updates: Vec::new() };
        let mut i: usize = 0;
        assert(entries(state.updates@) =~= snapshot(self.active().take(0), prefix@));
        while i < self.active.len()
            invariant
                self.active == old(self).active,
                self.consumers == old(self).consumers,
                i <= self.active().len(),
                state.prefix@ == prefix@,
                entries(state.updates@) == snapshot(self.active().take(i as int), prefix@),
            decreases self.active().len() - i,
        {
            let (path, broadcast) = self.active.entry(i);
            state.insert(path, broadcast);
            proof {
                assert(self.active().take(i + 1).drop_last() =~= self.active().take(i as int));
            }
            i = i + 1;
        }
        assert(self.active().take(i as int) =~= self.active());
        let index = self.consumers.len();
        self.consumers.push(state);
        proof {
            assert forall|c: int| 0 <= c < old(self).consumer_count() implies #[trigger] self.prefix_of(c)
                == old(self).prefix_of(c) && self.pending(c) == old(self).pending(c) by {
                assert(self.consumers@[c] == old(self).consumers@[c]);
            }
        }
        OriginConsumer { index }
    }

    /// Watch every broadcast.
    pub fn consume_all(&mut self) -> (r: OriginConsumer)
        requires
            old(self).wf(),
        ensures
            final(self).wf(),
            final(self).active() == old(self).active(),
            r.id() == old(self).consumer_count(),
            final(self).consumer_count() == old(self).consumer_count() + 1,
            final(self).prefix_of(r.id()) == Seq::<char>::empty(),
            final(self).pending(r.id()) == snapshot(old(self).active(), Seq::<char>::empty()),
            forall|c: int|
                0 <= c < old(self).consumer_count() ==> #[trigger] final(self).prefix_of(c) == old(self).prefix_of(c)
                    && final(self).pending(c) == old(self).pending(c),
    {
        proof {
            reveal_strlit("");
        }
        self.consume_prefix("")
    }
}

impl OriginConsumer {
    /// The next broadcast for this consumer, with its path under the prefix;
    /// none while nothing new was published.
    pub fn next(&self, producer: &mut OriginProducer) -> (r: Option<(String, u64)>)
        requires
            0 <= self.id() < old(producer).consumer_count(),
        ensures
            final(producer).active() == old(producer).active(),
            final(producer).same_consumers(old(producer)),
            forall|c: int|
                0 <= c < old(producer).consumer_count() && c != self.id() ==> #[trigger] final(producer).pending(c)
                    == old(producer).pending(c),
            old(producer).pending(self.id()).len() == 0 ==> r is None && final(producer).pending(self.id())
                == old(producer).pending(self.id()),
            old(producer).pending(self.id()).len() > 0 ==> (r matches Some((p, b)) && (p@, b) == old(
                producer,
            ).pending(self.id())[0] && final(producer).pending(self.id()) == old(producer).pending(
                self.id(),
            ).drop_first()),
    {
        let i = self.index;
        if producer.consumers[i].updates.len() == 0 {
            return None;
        }
        let ghost before = *producer;
        let update = producer.consumers[i].updates.remove(0);
        proof {
            assert forall|c: int| 0 <= c < producer.consumers@.len() && c != i implies #[trigger] producer.consumers@[c]
                == before.consumers@[c] by {}
            assert(producer.pending(i as int) =~= before.pending(i as int).drop_first());
            assert forall|c: int| 0 <= c < producer.consumer_count() implies #[trigger] producer.prefix_of(c)
                == old(producer).prefix_of(c) by {
                if c != i {
                    assert(producer.consumers@[c] == before.consumers@[c]);
                }
            }
        }
        Some(update)
    }
}

/// A consumer that watches a prefix learns of every broadcast published
/// under it: what it already has, followed by what it is still to get, is
/// the publication of each path under the prefix.
pub proof fn lemma_snapshot_routes(active: Seq<(Seq<char>, u64)>, prefix: Seq<char>, i: int)
    requires
        0 <= i < active.len(),
        prefix.is_prefix_of(active[i].0),
    ensures
        snapshot(active, prefix).contains((active[i].0.skip(prefix.len() as int), active[i].1)),
    decreases active.len(),
{
    let t = active.drop_last();
    if i < active.len() - 1 {
        assert(t[i] == active[i]);
        lemma_snapshot_routes(t, prefix, i);
        let s = snapshot(t, prefix);
        let k = choose|k: int| 0 <= k < s.len() && s[k] == (active[i].0.skip(prefix.len() as int), active[i].1);
        assert((s + route(prefix, active.last().0, active.last().1))[k] == s[k]);
    } else {
        let s = snapshot(t, prefix);
        assert((s + route(prefix, active.last().0, active.last().1))[s.len() as int] == (active[i].0.skip(
            prefix.len() as int,
        ), active[i].1));
    }
}

} // verus!
