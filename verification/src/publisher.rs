//! Serving the groups of a subscribed track: the priority of each group
//! stream, and which groups are served at once.
use vstd::prelude::*;

use crate::error::Error;
use crate::message::{Group, Subscribe};
use crate::track::NextGroup;

verus! {

/// A new group stream: the priority to open it with, the header that is its
/// first message, and the older group that it displaces, if any.
#[derive(Debug, Clone, Copy)]
pub struct GroupStream {
    pub priority: i32,
    pub header: Group,
    pub cancelled: Option<u64>,
}

/// What serving a track does after asking it for its next group.
#[derive(Debug)]
pub enum Action<'a> {
    /// Open a stream for the new group.
    Serve(GroupStream),
    /// Nothing to do until a group arrives or a stream ends.
    Wait,
    /// The track ended and every group was served: the subscription is done.
    Done,
    /// The track failed: the subscription ends with this error.
    Fail(&'a Error),
}

/// The groups of one subscription that are being served.
///
/// At most two groups are served at once: the newest one and the one before
/// it. A slow consumer thus cannot make the publisher hold every group.
#[derive(Debug)]
pub struct Publisher {
    old_group: Option<u64>,
    new_group: Option<u64>,
    ended: bool,
}

impl Publisher {
    /// The older group being served, by sequence number.
    pub closed spec fn old_group(&self) -> Option<u64> {
        self.old_group
    }

    /// The newer group being served, by sequence number.
    pub closed spec fn new_group(&self) -> Option<u64> {
        self.new_group
    }

    /// Whether the track has no more groups to give.
    pub closed spec fn ended(&self) -> bool {
        self.ended
    }

    /// An older group is only served beside a newer one.
    pub open spec fn wf(&self) -> bool {
        self.old_group() is Some ==> self.new_group() is Some
    }

    /// No group is being served.
    pub fn new() -> (r: Self)
        ensures
            r.wf(),
            r.old_group() is None,
            r.new_group() is None,
            !r.ended(),
    {
        Publisher { old_group: None, new_group: None, ended: false }
    }

    /// The track ended and no group is being served any more.
    pub fn is_done(&self) -> (r: bool)
        ensures
            r == (self.ended() && self.old_group() is None && self.new_group() is None),
    {
        self.ended && self.old_group.is_none() && self.new_group.is_none()
    }

    /// Nothing is being served: with no more groups to come, the
    /// subscription is done.
    pub fn is_idle(&self) -> (r: bool)
        ensures
            r == (self.old_group() is None && self.new_group() is None),
    {
        self.old_group.is_none() && self.new_group.is_none()
    }

    /// A new group arrived: it is served as the newest, on a stream with the
    /// subscription's priority and a header naming the subscription and the
    /// group; the previous newest becomes the older one, and the group that
    /// was older still is cancelled and returned.
    pub fn serve(&mut self, subscribe: &Subscribe, sequence: u64) -> (r: GroupStream)
        requires
            old(self).wf(),
        ensures
            final(self).wf(),
            served(*old(self), *final(self), subscribe@, sequence, r),
    {
        let cancelled = if self.new_group.is_none() {
            self.new_group = Some(sequence);
            None
        } else {
            let cancelled = self.old_group;
            self.old_group = self.new_group;
            self.new_group = Some(sequence);
            cancelled
        };
        GroupStream {
            priority: Self::stream_priority(subscribe.priority, sequence),
            header: Group { subscribe: subscribe.id, sequence },
            cancelled,
        }
    }

    /// Act on what the track gave when asked for its next group: serve a
    /// new group; fail with the track's error; once the track is finished,
    /// be done when no group is being served, else wait for them.
    pub fn on_next_group<'a>(&mut self, subscribe: &Subscribe, next: NextGroup<'a>) -> (r: Action<'a>)
        requires
            old(self).wf(),
        ensures
            final(self).wf(),
            match next {
                NextGroup::Group(g) => (r matches Action::Serve(st) && served(
                    *old(self),
                    *final(self),
                    subscribe@,
                    g.sequence,
                    st,
                )),
                NextGroup::Pending => r is Wait && same_slots(*old(self), *final(self)) && final(self).ended()
                    == old(self).ended(),
                NextGroup::Finished => same_slots(*old(self), *final(self)) && final(self).ended() && (if old(
                    self,
                ).new_group() is None {
                    r is Done
                } else {
                    r is Wait
                }),
                NextGroup::Aborted(e) => (r matches Action::Fail(f) && *f == *e) && same_slots(*old(self), *final(self))
                    && final(self).ended() == old(self).ended(),
            },
    {
        match next {
            NextGroup::Group(g) => Action::Serve(self.serve(subscribe, g.sequence)),
            NextGroup::Pending => Action::Wait,
            NextGroup::Finished => {
                self.ended = true;
                if self.new_group.is_none() {
                    Action::Done
                } else {
                    Action::Wait
                }
            },
            NextGroup::Aborted(e) => Action::Fail(e),
        }
    }

    /// The older group was served to its end; once the track has ended as
    /// well, `is_done` tells whether the subscription is done.
    pub fn old_done(&mut self)
        requires
            old(self).wf(),
        ensures
            final(self).wf(),
            final(self).old_group() is None,
            final(self).new_group() == old(self).new_group(),
            final(self).ended() == old(self).ended(),
    {
        self.old_group = None;
    }

    /// The newer group was served to its end: the older one is so far
    /// behind that it is cancelled too, and returned.
    pub fn new_done(&mut self) -> (cancelled: Option<u64>)
        requires
            old(self).wf(),
        ensures
            final(self).wf(),
            final(self).old_group() is None,
            final(self).new_group() is None,
            final(self).ended() == old(self).ended(),
            cancelled == old(self).old_group(),
    {
        let cancelled = self.old_group;
        self.old_group = None;
        self.new_group = None;
        cancelled
    }

    /// The priority of a group stream, from the track's priority and the
    /// group's sequence number; the lower the value, the sooner it is sent.
    ///
    /// The track priority fills the top 8 bits and the sequence number,
    /// counted down from 2^24 - 1, the low 24 bits, so newer groups go
    /// first. Sequence numbers are taken modulo 2^24: group 2^24 wraps around
    /// and is ranked as group 0.
    pub fn stream_priority(track_priority: i8, group_sequence: u64) -> (r: i32)
        ensures
            r == priority_value(track_priority, group_sequence),
    {
        // The low 24 bits of the sequence number, counted down.
        let low = (group_sequence as u32) & 0xFF_FFFF;
        assert(low == group_sequence % 0x100_0000) by (bit_vector)
            requires
                low == (group_sequence as u32) & 0xFF_FFFF,
        ;
        let sequence = 0xFF_FFFF - low;
        let high = (track_priority as i32) << 24u32;
        let r = high | sequence as i32;
        assert(r == track_priority as int * 0x100_0000 + sequence) by (bit_vector)
            requires
                high == (track_priority as i32) << 24u32,
                r == high | sequence as i32,
                sequence <= 0xFF_FFFF,
        ;
        r
    }
}

/// Both serving slots are the same.
pub open spec fn same_slots(a: Publisher, b: Publisher) -> bool {
    a.old_group() == b.old_group() && a.new_group() == b.new_group()
}

/// Serving group `sequence` of subscription `subscribe` took `before` to
/// `after` and opened stream `s`: the group is the newest, the previous
/// newest the older one, the one older still is cancelled; the stream has
/// the subscription's priority and names the subscription and the group.
pub open spec fn served(
    before: Publisher,
    after: Publisher,
    subscribe: (u64, Seq<char>, Seq<char>, i8),
    sequence: u64,
    s: GroupStream,
) -> bool {
    &&& after.new_group() == Some(sequence)
    &&& after.ended() == before.ended()
    &&& s.priority == priority_value(subscribe.3, sequence)
    &&& s.header.subscribe == subscribe.0
    &&& s.header.sequence == sequence
    &&& before.new_group() is None ==> after.old_group() is None && s.cancelled is None
    &&& before.new_group() is Some ==> after.old_group() == before.new_group() && s.cancelled == before.old_group()
}

/// The priority value of a group stream: the track priority above, the
/// sequence number counted down modulo 2^24 below.
pub open spec fn priority_value(track_priority: i8, group_sequence: u64) -> int {
    track_priority as int * 0x100_0000 + (0xFF_FFFF - group_sequence % 0x100_0000)
}

/// Within one track, a newer group in the same window of 2^24 sequence
/// numbers gets a lower priority value, so it is sent first.
pub proof fn lemma_newer_group_first(track_priority: i8, older: u64, newer: u64)
    requires
        older < newer,
        older / 0x100_0000 == newer / 0x100_0000,
    ensures
        priority_value(track_priority, newer) < priority_value(track_priority, older),
{
    assert(older % 0x100_0000 < newer % 0x100_0000) by (nonlinear_arith)
        requires
            older < newer,
            older / 0x100_0000 == newer / 0x100_0000,
    ;
}

/// A track of higher priority (a lower value) is always sent before one of
/// lower priority, whatever the groups.
pub proof fn lemma_track_priority_first(high: i8, low: i8, a: u64, b: u64)
    requires
        high < low,
    ensures
        priority_value(high, a) < priority_value(low, b),
{
    assert(high as int * 0x100_0000 + 0x100_0000 <= low as int * 0x100_0000) by (nonlinear_arith)
        requires
            high < low,
    ;
}

} // verus!
