//! A track is a sequence of groups. Its producer only accepts a group that is
//! newer than the latest one; its consumers receive the latest group each
//! time it changes, so they may skip groups but never go back.
use vstd::prelude::*;

use crate::error::Error;
use crate::text::owned;

verus! {

/// The name and priority of a track.
#[derive(Debug, PartialEq, Eq)]
pub struct Track {
    pub name: String,
    pub priority: u8,
}

impl Clone for Track {
    fn clone(&self) -> (r: Self)
        ensures
            r == *self,
    {
        Track { name: self.name.clone(), priority: self.priority }
    }
}

impl Track {
    /// A track with the given name and the default priority 0.
    pub fn new(name: &str) -> (r: Self)
        ensures
            r.name@ == name@,
            r.priority == 0,
    {
        Track { name: owned(name), priority: 0 }
    }

    /// Start producing this track.
    pub fn produce(self) -> (r: TrackProducer)
        ensures
            r.info() == self,
            r.latest() is None,
            r.closed() is None,
    {
        TrackProducer::new(self)
    }
}

/// A group of a track, identified by its sequence number.
#[derive(Clone, Copy, Debug, PartialEq, Eq, Structural, PartialOrd, Ord, Hash)]
pub struct Group {
    pub sequence: u64,
}

/// The producer of a track: keeps the latest group and whether the track ended.
pub struct TrackProducer {
    pub info: Track,
    latest: Option<Group>,
    closed: Option<Result<(), Error>>,
}

impl TrackProducer {
    /// The track being produced.
    pub closed spec fn info(&self) -> Track {
        self.info
    }

    /// The latest group.
    pub closed spec fn latest(&self) -> Option<Group> {
        self.latest
    }

    /// How the track ended, if it has.
    pub closed spec fn closed(&self) -> Option<Result<(), Error>> {
        self.closed
    }

    pub fn new(info: Track) -> (r: Self)
        ensures
            r.info() == info,
            r.latest() is None,
            r.closed() is None,
    {
        TrackProducer { info, latest: None, closed: None }
    }

    /// Insert a group into the track, returning true if it is now the latest.
    ///
    /// A group that is not newer than the latest group is refused.
    pub fn insert_group(&mut self, group: Group) -> (newer: bool)
        requires
            old(self).closed() is None,
        ensures
            newer == (old(self).latest() matches Some(l) ==> group.sequence > l.sequence),
            final(self).latest() == (if newer { Some(group) } else { old(self).latest() }),
            final(self).closed() == old(self).closed(),
            final(self).info() == old(self).info(),
    {
        if let Some(latest) = self.latest {
            if group.sequence <= latest.sequence {
                return false;
            }
        }
        self.latest = Some(group);
        true
    }

    /// Create a new group with the given sequence number, or `None` if it is
    /// not newer than the latest group.
    pub fn create_group(&mut self, info: Group) -> (r: Option<Group>)
        requires
            old(self).closed() is None,
        ensures
            r is Some == (old(self).latest() matches Some(l) ==> info.sequence > l.sequence),
            r matches Some(g) ==> g == info,
            final(self).latest() == (if r is Some { Some(info) } else { old(self).latest() }),
            final(self).closed() == old(self).closed(),
            final(self).info() == old(self).info(),
    {
        if self.insert_group(info) {
            Some(info)
        } else {
            None
        }
    }

    /// Create a new group with the next sequence number: one more than the
    /// latest, or 0 for the first group. This always succeeds.
    pub fn append_group(&mut self) -> (g: Group)
        requires
            old(self).closed() is None,
            old(self).latest() matches Some(l) ==> l.sequence < u64::MAX,
        ensures
            g.sequence == (match old(self).latest() {
                Some(l) => l.sequence + 1,
                None => 0,
            }),
            final(self).latest() == Some(g),
            final(self).closed() == old(self).closed(),
            final(self).info() == old(self).info(),
    {
        let sequence = match self.latest {
            Some(latest) => latest.sequence + 1,
            None => 0,
        };
        let group = Group { sequence };
        match self.create_group(group) {
            Some(g) => g,
            None => {
                assert(false);
                group
            },
        }
    }

    /// End the track cleanly.
    pub fn finish(&mut self)
        ensures
            final(self).closed() == Some(Ok::<(), Error>(())),
            final(self).latest() == old(self).latest(),
            final(self).info() == old(self).info(),
    {
        self.closed = Some(Ok(()));
    }

    /// End the track with an error.
    pub fn abort(&mut self, err: Error)
        ensures
            final(self).closed() == Some(Err::<(), Error>(err)),
            final(self).latest() == old(self).latest(),
            final(self).info() == old(self).info(),
    {
        self.closed = Some(Err(err));
    }

    /// Every producer of the track was dropped. A track that was not ended
    /// before ends with `Error::Cancel`; one that was keeps its ending.
    pub fn dropped(&mut self)
        ensures
            final(self).closed() == match old(self).closed() {
                None => Some(Err::<(), Error>(Error::Cancel)),
                Some(c) => Some(c),
            },
            final(self).latest() == old(self).latest(),
            final(self).info() == old(self).info(),
    {
        if self.closed.is_none() {
            self.closed = Some(Err(Error::Cancel));
        }
    }

    /// Create a new consumer for the track, starting before the first group.
    pub fn consume(&self) -> (r: TrackConsumer)
        ensures
            r.info() == self.info(),
            r.prev() is None,
    {
        TrackConsumer { info: self.info.clone(), prev: None }
    }
}

/// The outcome of asking a track for its next group.
#[derive(Debug)]
pub enum NextGroup<'a> {
    /// A group newer than any seen before.
    Group(Group),
    /// The track was finished.
    Finished,
    /// The track was aborted with this error.
    Aborted(&'a Error),
    /// Nothing new yet: the caller would have to wait.
    Pending,
}

/// Asking `track` for its next group took the consumer from `before` to
/// `after` and gave `r`: the track's ending once it ended; else its latest
/// group when that is newer than the last one received, which it then is;
/// else nothing yet.
pub open spec fn takes<'a>(before: TrackConsumer, after: TrackConsumer, track: TrackProducer, r: NextGroup<'a>) -> bool {
    &&& after.info() == before.info()
    &&& match track.closed() {
        Some(Ok(())) => r is Finished && after.prev() == before.prev(),
        Some(Err(e)) => (r matches NextGroup::Aborted(a) && *a == e) && after.prev() == before.prev(),
        None => match track.latest() {
            Some(g) => if (before.prev() matches Some(p) ==> g.sequence > p) {
                r == NextGroup::Group(g) && after.prev() == Some(g.sequence)
            } else {
                r == NextGroup::Pending && after.prev() == before.prev()
            },
            None => r == NextGroup::Pending && after.prev() == before.prev(),
        },
    }
}

/// A consumer of a track: remembers the sequence number it last received.
pub struct TrackConsumer {
    pub info: Track,
    prev: Option<u64>,
}

impl TrackConsumer {
    /// The track being consumed.
    pub closed spec fn info(&self) -> Track {
        self.info
    }

    /// The sequence number of the last group received.
    pub closed spec fn prev(&self) -> Option<u64> {
        self.prev
    }

    /// Return the next group: the latest one, if it is newer than the last
    /// one received. There can be gaps if the reader is slow. Once the track
    /// has ended, that is reported instead.
    pub fn next_group<'a>(&mut self, track: &'a TrackProducer) -> (r: NextGroup<'a>)
        ensures
            takes(*old(self), *final(self), *track, r),
    {
        match &track.closed {
            Some(Ok(())) => return NextGroup::Finished,
            Some(Err(e)) => return NextGroup::Aborted(e),
            None => {},
        }
        match track.latest {
            Some(g) => {
                let newer = match self.prev {
                    Some(p) => g.sequence > p,
                    None => true,
                };
                if newer {
                    self.prev = Some(g.sequence);
                    NextGroup::Group(g)
                } else {
                    NextGroup::Pending
                }
            },
            None => NextGroup::Pending,
        }
    }
}

/// Over a run of a track consumer, the groups it receives have strictly
/// increasing sequence numbers, whatever the tracks it asks.
pub proof fn lemma_groups_increase<'a>(
    consumers: Seq<TrackConsumer>,
    tracks: Seq<TrackProducer>,
    results: Seq<NextGroup<'a>>,
)
    requires
        consumers.len() == results.len() + 1,
        tracks.len() == results.len(),
        forall|i: int| 0 <= i < results.len() ==> takes(consumers[i], consumers[i + 1], tracks[i], #[trigger] results[i]),
    ensures
        forall|i: int, j: int|
            0 <= i < j < results.len() && (#[trigger] results[i]) is Group && (#[trigger] results[j]) is Group
                ==> results[i]->Group_0.sequence < results[j]->Group_0.sequence,
{
    assert forall|i: int, j: int|
        0 <= i < j < results.len() && (#[trigger] results[i]) is Group && (#[trigger] results[j]) is Group implies results[i]->Group_0.sequence
            < results[j]->Group_0.sequence by {
        lemma_prev_grows(consumers, tracks, results, i, j);
    }
}

/// After a group is received, the consumer's last sequence number is never
/// below it.
proof fn lemma_prev_grows<'a>(
    consumers: Seq<TrackConsumer>,
    tracks: Seq<TrackProducer>,
    results: Seq<NextGroup<'a>>,
    i: int,
    k: int,
)
    requires
        consumers.len() == results.len() + 1,
        tracks.len() == results.len(),
        forall|m: int| 0 <= m < results.len() ==> takes(consumers[m], consumers[m + 1], tracks[m], #[trigger] results[m]),
        0 <= i < k <= results.len(),
        results[i] is Group,
    ensures
        consumers[k].prev() matches Some(p) && results[i]->Group_0.sequence <= p,
        k < results.len() && results[k] is Group ==> results[i]->Group_0.sequence < results[k]->Group_0.sequence,
    decreases k - i,
{
    assert(takes(consumers[k - 1], consumers[k], tracks[k - 1], results[k - 1]));
    if k - 1 > i {
        lemma_prev_grows(consumers, tracks, results, i, k - 1);
    }
    if k < results.len() {
        assert(takes(consumers[k], consumers[k + 1], tracks[k], results[k]));
    }
}

} // verus!
