//! Reading the frames of a media track in order, skipping groups that fall
//! too far behind.
//!
//! The reader plays one group at a time. Newer groups that arrive meanwhile
//! wait in a queue, ordered by sequence number. Once a waiting group has
//! buffered frames past the newest timestamp played plus the allowed
//! latency, the reader gives up on the groups before it and jumps ahead.
use vstd::prelude::*;

use bytes::Bytes;

use crate::coding::{
    buf_content, decode_varint, encode_varint, lemma_varint_roundtrip, parse_varint, varint_bytes, varint_max,
    DecodeError, Fail,
};
use crate::track::{Group, TrackProducer as GroupsProducer};

verus! {

/// A media frame: when to present it, in microseconds, whether decoding may
/// start from it, and its encoded payload.
#[derive(Debug, PartialEq, Eq)]
pub struct Frame {
    pub timestamp: u64,
    pub keyframe: bool,
    pub payload: Vec<u8>,
}

/// Where a written frame went.
#[derive(Debug, PartialEq, Eq)]
pub struct Written {
    /// The group that was finished to start a new one at a keyframe.
    pub finished: Option<Group>,
    /// The group the frame was written to.
    pub group: Group,
    /// The frame as written: its timestamp as a variable-length integer,
    /// then its payload.
    pub bytes: Vec<u8>,
}

/// Writes media frames to a track: each keyframe starts a new group, and
/// the other frames follow it in the same group.
pub struct TrackProducer {
    inner: GroupsProducer,
    group: Option<Group>,
}

impl TrackProducer {
    /// The track the groups are appended to.
    pub closed spec fn producer(&self) -> GroupsProducer {
        self.inner
    }

    /// The group frames are written to.
    pub closed spec fn group(&self) -> Option<Group> {
        self.group
    }

    /// The open group is the track's latest one.
    pub closed spec fn wf(&self) -> bool {
        self.group() matches Some(g) ==> self.producer().latest() == Some(g)
    }

    /// Write frames to this track, starting with no open group.
    pub fn new(inner: GroupsProducer) -> (r: Self)
        ensures
            r.producer() == inner,
            r.group() is None,
            r.wf(),
    {
        TrackProducer { inner, group: None }
    }

    /// Write a frame: at a keyframe, or when no group is open, the open group
    /// is finished and a new one appended to the track.
    pub fn write(&mut self, frame: Frame) -> (r: Written)
        requires
            old(self).wf(),
            old(self).producer().closed() is None,
            old(self).producer().latest() matches Some(l) ==> l.sequence < u64::MAX,
            frame.timestamp <= varint_max(),
        ensures
            final(self).wf(),
            writes(*old(self), *final(self), frame, r),
    {
        let mut bytes: Vec<u8> = Vec::new();
        encode_varint(frame.timestamp, &mut bytes);
        let mut finished: Option<Group> = None;
        if frame.keyframe {
            finished = self.group;
            self.group = None;
        }
        let group = match self.group {
            Some(g) => g,
            None => self.inner.append_group(),
        };
        let mut payload = frame.payload;
        bytes.append(&mut payload);
        self.group = Some(group);
        Written { finished, group, bytes }
    }
}

/// Writing `frame` took the writer from `before` to `after` and gave `w`: at
/// a keyframe, or with no group open, the open group is finished and the
/// track's next group appended; otherwise the frame joins the open group.
/// Either way the frame is its timestamp as a variable-length integer, then
/// its payload, and the group it went to is the open group and the track's
/// latest.
pub open spec fn writes(before: TrackProducer, after: TrackProducer, frame: Frame, w: Written) -> bool {
    &&& after.group() == Some(w.group)
    &&& after.producer().latest() == Some(w.group)
    &&& w.bytes@ == varint_bytes(frame.timestamp) + frame.payload@
    &&& after.producer().info() == before.producer().info()
    &&& after.producer().closed() is None
    &&& if frame.keyframe || before.group() is None {
        &&& w.finished == (if frame.keyframe { before.group() } else { None })
        &&& w.group.sequence == (match before.producer().latest() {
            Some(l) => l.sequence + 1,
            None => 0,
        })
    } else {
        &&& w.finished is None
        &&& Some(w.group) == before.group()
    }
}

/// The group of frame `i` in a run of frames written from a fresh writer,
/// counted from 0: the first frame opens one, and so does each keyframe.
pub open spec fn group_number(keyframes: Seq<bool>, i: int) -> int
    decreases i,
{
    if i <= 0 {
        0
    } else if keyframes[i] {
        group_number(keyframes, i - 1) + 1
    } else {
        group_number(keyframes, i - 1)
    }
}

/// Which frames of a run are keyframes.
pub open spec fn keyframes(frames: Seq<Frame>) -> Seq<bool> {
    Seq::new(frames.len(), |i: int| frames[i].keyframe)
}

/// What a run of writes from a fresh writer gives, up to frame `k`.
proof fn lemma_write_run_upto(states: Seq<TrackProducer>, frames: Seq<Frame>, outs: Seq<Written>, k: int)
    requires
        states.len() == frames.len() + 1,
        outs.len() == frames.len(),
        states[0].group() is None,
        states[0].producer().latest() is None,
        forall|i: int| 0 <= i < frames.len() ==> #[trigger] writes(states[i], states[i + 1], frames[i], outs[i]),
        0 <= k <= frames.len(),
    ensures
        forall|i: int|
            0 <= i < k ==> (#[trigger] outs[i]).group.sequence == group_number(keyframes(frames), i)
                && outs[i].finished == (if frames[i].keyframe && i > 0 { Some(outs[i - 1].group) } else { None }),
        k > 0 ==> states[k].group() == Some(outs[k - 1].group) && states[k].producer().latest() == Some(
            outs[k - 1].group,
        ),
    decreases k,
{
    if k > 0 {
        lemma_write_run_upto(states, frames, outs, k - 1);
        let i = k - 1;
        let kf = keyframes(frames);
        assert(writes(states[i], states[i + 1], frames[i], outs[i]));
        assert(kf[i] == frames[i].keyframe);
        let p = outs[i].group.sequence == group_number(kf, i) && outs[i].finished == (if frames[i].keyframe && i
            > 0 {
            Some(outs[i - 1].group)
        } else {
            None
        });
        if i == 0 {
            assert(p);
        } else {
            assert(states[i].group() == Some(outs[i - 1].group));
            assert(states[i].producer().latest() == Some(outs[i - 1].group));
            assert(outs[i - 1].group.sequence == group_number(kf, i - 1));
            assert(p);
        }
        assert forall|j: int| 0 <= j < k implies (#[trigger] outs[j]).group.sequence == group_number(kf, j)
            && outs[j].finished == (if frames[j].keyframe && j > 0 { Some(outs[j - 1].group) } else { None }) by {
            if j < i {
            }
        }
    }
}

/// A run of writes from a fresh writer over a fresh track: the first frame
/// opens group 0, each keyframe finishes the open group and opens the next
/// one, every other frame joins the open group, and each frame is written as
/// its timestamp then its payload.
pub proof fn lemma_write_run(states: Seq<TrackProducer>, frames: Seq<Frame>, outs: Seq<Written>)
    requires
        states.len() == frames.len() + 1,
        outs.len() == frames.len(),
        states[0].group() is None,
        states[0].producer().latest() is None,
        forall|i: int| 0 <= i < frames.len() ==> #[trigger] writes(states[i], states[i + 1], frames[i], outs[i]),
    ensures
        forall|i: int|
            0 <= i < frames.len() ==> (#[trigger] outs[i]).group.sequence == group_number(keyframes(frames), i)
                && outs[i].finished == (if frames[i].keyframe && i > 0 { Some(outs[i - 1].group) } else { None })
                && outs[i].bytes@ == varint_bytes(frames[i].timestamp) + frames[i].payload@,
{
    lemma_write_run_upto(states, frames, outs, frames.len() as int);
    assert forall|i: int| 0 <= i < frames.len() implies (#[trigger] outs[i]).bytes@ == varint_bytes(
        frames[i].timestamp,
    ) + frames[i].payload@ by {
        assert(writes(states[i], states[i + 1], frames[i], outs[i]));
    }
}

/// Read a written frame: its timestamp, then its payload, which is the rest
/// of the bytes.
pub fn decode_frame(bytes: Bytes) -> (r: Result<(u64, Bytes), DecodeError>)
    ensures
        match parse_varint(buf_content(bytes)) {
            Ok((t, n)) => (r matches Ok((rt, payload)) && rt == t && buf_content(payload) == buf_content(bytes).skip(
                n,
            )),
            Err(_) => (r matches Err(DecodeError::Short)),
        },
{
    let mut bytes = bytes;
    match decode_varint(&mut bytes) {
        Ok(t) => Ok((t, bytes)),
        Err(e) => Err(e),
    }
}

/// Reading a written frame gives back its timestamp and its payload.
pub proof fn lemma_frame_roundtrip(timestamp: u64, payload: Seq<u8>)
    requires
        timestamp <= varint_max(),
    ensures
        parse_varint(varint_bytes(timestamp) + payload) == Ok::<(u64, int), Fail>(
            (timestamp, varint_bytes(timestamp).len() as int),
        ),
        (varint_bytes(timestamp) + payload).skip(varint_bytes(timestamp).len() as int) == payload,
{
    lemma_varint_roundtrip(timestamp, payload);
    assert((varint_bytes(timestamp) + payload).skip(varint_bytes(timestamp).len() as int) =~= payload);
}

/// The groups are in ascending order of sequence number.
pub open spec fn ascending(s: Seq<u64>) -> bool {
    forall|i: int, j: int| 0 <= i <= j < s.len() ==> s[i] <= s[j]
}

/// An event a media track reader acts on.
#[derive(Debug, Clone, Copy, PartialEq, Eq)]
pub enum ReadEvent {
    /// The group being played gave a frame with this timestamp.
    Frame(u64),
    /// The group being played ended.
    Ended,
    /// A group with this sequence number arrived.
    Group(u64),
    /// The waiting group at this position buffered past the cutoff.
    Buffered(usize),
}

/// Acting on `e` took the reader from `before` to `after`.
pub open spec fn reads(before: TrackConsumer, after: TrackConsumer, e: ReadEvent) -> bool {
    &&& after.latency() == before.latency()
    &&& match e {
        ReadEvent::Frame(ts) => after.max_timestamp() == ts && after.playing() == before.playing() && after.pending()
            == before.pending(),
        ReadEvent::Ended => after.max_timestamp() == before.max_timestamp() && (before.pending().len() == 0
            ==> after.playing() is None && after.pending().len() == 0) && (before.pending().len() > 0
            ==> after.playing() == Some(before.pending()[0]) && after.pending() == before.pending().drop_first()),
        ReadEvent::Group(seq) => after.max_timestamp() == before.max_timestamp() && match before.playing() {
            None => after.playing() == Some(seq) && after.pending() == before.pending(),
            Some(c) => if seq < c {
                after.playing() == before.playing() && after.pending() == before.pending()
            } else {
                after.playing() == before.playing() && exists|i: int|
                    0 <= i <= before.pending().len() && after.pending() == before.pending().insert(i, seq)
            },
        },
        ReadEvent::Buffered(i) => after.max_timestamp() == before.max_timestamp() && i < before.pending().len()
            && after.playing() == Some(before.pending()[i as int]) && after.pending() == before.pending().skip(
            i + 1,
        ),
    }
}

/// A group is in play: being played or waiting.
pub open spec fn live(r: TrackConsumer, v: u64) -> bool {
    r.playing() == Some(v) || r.pending().contains(v)
}

/// An earlier group event names an older group than a later one, as the
/// groups of a track arrive.
pub open spec fn arrives_before(x: ReadEvent, y: ReadEvent) -> bool {
    match (x, y) {
        (ReadEvent::Group(a), ReadEvent::Group(b)) => a < b,
        _ => true,
    }
}

/// A run of a reader: each state is well formed and comes from the one
/// before by an event, and the groups arrive in increasing order.
pub open spec fn read_run(states: Seq<TrackConsumer>, events: Seq<ReadEvent>) -> bool {
    &&& states.len() == events.len() + 1
    &&& forall|i: int| 0 <= i < states.len() ==> (#[trigger] states[i]).wf()
    &&& forall|i: int| 0 <= i < events.len() ==> reads(states[i], states[i + 1], #[trigger] events[i])
    &&& forall|i: int, j: int| 0 <= i < j < events.len() ==> arrives_before(#[trigger] events[i], #[trigger] events[j])
}

proof fn lemma_read_run_upto(states: Seq<TrackConsumer>, events: Seq<ReadEvent>, k: int)
    requires
        read_run(states, events),
        states[0].playing() is None,
        0 <= k <= events.len(),
    ensures
        forall|i: int, v: u64|
            0 <= i <= k && #[trigger] live(states[i], v) ==> exists|g: int|
                0 <= g < i && #[trigger] events[g] == ReadEvent::Group(v),
        forall|i: int, v: u64|
            #![trigger states[i], live(states[k], v)]
            0 <= i <= k && states[i].playing() is Some && live(states[k], v) ==> states[i].playing()->0 <= v,
    decreases k,
{
    if k == 0 {
        assert(states[0].wf());
        assert forall|i: int, v: u64| 0 <= i <= k && #[trigger] live(states[i], v) implies exists|g: int|
            0 <= g < i && #[trigger] events[g] == ReadEvent::Group(v) by {
            assert(states[0].pending().len() == 0);
            assert(!states[0].pending().contains(v));
        }
    } else {
        lemma_read_run_upto(states, events, k - 1);
        let b = states[k - 1];
        let a = states[k];
        let e = events[k - 1];
        assert(b.wf());
        assert(a.wf());
        assert(reads(states[k - 1], states[(k - 1) + 1], events[k - 1]));
        assert(reads(b, a, e));
        // Everything in play after the event was in play before it, or is
        // the group that just arrived.
        assert forall|v: u64| #[trigger] live(a, v) implies live(b, v) || e == ReadEvent::Group(v) by {
            if a.pending().contains(v) && a.playing() != Some(v) {
                let j = choose|j: int| 0 <= j < a.pending().len() && a.pending()[j] == v;
                match e {
                    ReadEvent::Frame(_) => {},
                    ReadEvent::Ended => {
                        assert(a.pending()[j] == b.pending()[j + 1]);
                    },
                    ReadEvent::Buffered(i) => {
                        assert(a.pending()[j] == b.pending()[i + 1 + j]);
                    },
                    ReadEvent::Group(seq) => {
                        if let Some(c) = b.playing() {
                            if seq >= c {
                                let ii = choose|ii: int|
                                    0 <= ii <= b.pending().len() && a.pending() == b.pending().insert(ii, seq);
                                if j < ii {
                                    assert(a.pending()[j] == b.pending()[j]);
                                } else if j > ii {
                                    assert(a.pending()[j] == b.pending()[j - 1]);
                                }
                            }
                        }
                    },
                }
            } else if a.playing() == Some(v) {
                match e {
                    ReadEvent::Ended => {
                        assert(b.pending()[0] == v);
                    },
                    ReadEvent::Buffered(i) => {
                        assert(b.pending()[i as int] == v);
                    },
                    _ => {},
                }
            }
        }
        assert forall|i: int, v: u64| 0 <= i <= k && #[trigger] live(states[i], v) implies exists|g: int|
            0 <= g < i && #[trigger] events[g] == ReadEvent::Group(v) by {
            if i == k {
                if live(b, v) {
                    let g = choose|g: int| 0 <= g < k - 1 && #[trigger] events[g] == ReadEvent::Group(v);
                    assert(events[g] == ReadEvent::Group(v));
                } else {
                    assert(events[k - 1] == ReadEvent::Group(v));
                }
            }
        }
        // The playing group is no newer than any group in play.
        assert forall|v: u64| #[trigger] live(a, v) && a.playing() is Some implies a.playing()->0 <= v by {
            if a.pending().contains(v) {
                let j = choose|j: int| 0 <= j < a.pending().len() && a.pending()[j] == v;
                assert(a.playing()->0 <= a.pending()[j]);
            }
        }
        assert forall|i: int, v: u64|
            #![trigger states[i], live(states[k], v)]
            0 <= i <= k && states[i].playing() is Some && live(states[k], v) implies states[i].playing()->0 <= v by {
            let p = states[i].playing()->0;
            if i == k {
            } else if live(b, v) {
                assert(live(states[k - 1], v));
            } else {
                assert(e == ReadEvent::Group(v));
                assert(live(states[i], p));
                let g = choose|g: int| 0 <= g < i && #[trigger] events[g] == ReadEvent::Group(p);
                assert(arrives_before(events[g], events[k - 1]));
            }
        }
    }
}

/// Over a run of a fresh reader, the group being played never gets older:
/// frames come from groups in non-decreasing order of sequence number. The
/// groups arrive as a track consumer hands them out, which is in increasing
/// order (`track::lemma_groups_increase`).
pub proof fn lemma_play_order(states: Seq<TrackConsumer>, events: Seq<ReadEvent>)
    requires
        read_run(states, events),
        states[0].playing() is None,
    ensures
        forall|i: int, j: int|
            0 <= i <= j < states.len() && (#[trigger] states[i]).playing() is Some && (#[trigger] states[j]).playing()
                is Some ==> states[i].playing()->0 <= states[j].playing()->0,
{
    assert forall|i: int, j: int|
        0 <= i <= j < states.len() && (#[trigger] states[i]).playing() is Some && (#[trigger] states[j]).playing()
            is Some implies states[i].playing()->0 <= states[j].playing()->0 by {
        lemma_read_run_upto(states, events, j);
        assert(live(states[j], states[j].playing()->0));
    }
}

/// Where a newly arrived group went.
#[derive(Debug, PartialEq, Eq, Clone, Copy)]
pub enum Placement {
    /// It is older than the group being played: dropped.
    Skipped,
    /// Nothing was being played: it is played now.
    Current,
    /// It waits at this position of the queue.
    Pending(usize),
}

/// The state of a media track reader: the group it plays, the groups that
/// wait, by sequence number, and the timing that decides when to skip.
#[derive(Debug)]
pub struct TrackConsumer {
    current: Option<u64>,
    pending: Vec<u64>,
    max_timestamp: u64,
    latency: u64,
}

impl TrackConsumer {
    /// The group being played.
    pub closed spec fn playing(&self) -> Option<u64> {
        self.current
    }

    /// The groups waiting, in order.
    pub closed spec fn pending(&self) -> Seq<u64> {
        self.pending@
    }

    /// The newest timestamp played so far, in microseconds; zero at first.
    pub closed spec fn max_timestamp(&self) -> u64 {
        self.max_timestamp
    }

    /// How far ahead, in microseconds, a waiting group may buffer before the
    /// reader skips to it.
    pub closed spec fn latency(&self) -> u64 {
        self.latency
    }

    /// The group being played comes first and the waiting groups follow in
    /// ascending order; nothing waits while nothing is played.
    pub open spec fn wf(&self) -> bool {
        &&& ascending(self.pending())
        &&& self.playing() is None ==> self.pending().len() == 0
        &&& self.playing() matches Some(c) ==> forall|i: int|
            0 <= i < self.pending().len() ==> c <= #[trigger] self.pending()[i]
    }

    /// A reader that plays nothing yet and allows no latency.
    pub fn new() -> (r: Self)
        ensures
            r.wf(),
            r.playing() is None,
            r.pending().len() == 0,
            r.max_timestamp() == 0,
            r.latency() == 0,
    {
        TrackConsumer { current: None, pending: Vec::new(), max_timestamp: 0, latency: 0 }
    }

    /// Set how far ahead a waiting group may buffer before the reader skips
    /// to it.
    pub fn set_latency(&mut self, max: u64)
        ensures
            final(self).latency() == max,
            final(self).playing() == old(self).playing(),
            final(self).pending() == old(self).pending(),
            final(self).max_timestamp() == old(self).max_timestamp(),
    {
        self.latency = max;
    }

    /// The group being played.
    pub fn current(&self) -> (r: Option<u64>)
        ensures
            r == self.playing(),
    {
        self.current
    }

    /// The number of groups waiting.
    pub fn pending_len(&self) -> (r: usize)
        ensures
            r == self.pending().len(),
    {
        self.pending.len()
    }

    /// Whether reading is over: the track gives no more groups, and no group
    /// is played or waits.
    pub fn done(&self, track_ended: bool) -> (r: bool)
        ensures
            r == (track_ended && self.playing() is None && self.pending().len() == 0),
    {
        track_ended && self.current.is_none() && self.pending.len() == 0
    }

    /// The timestamp that a waiting group must reach before the reader
    /// skips to it: the newest timestamp played plus the latency, at most
    /// `u64::MAX`.
    pub fn cutoff(&self) -> (r: u64)
        ensures
            r == if self.max_timestamp() + self.latency() <= u64::MAX {
                (self.max_timestamp() + self.latency()) as u64
            } else {
                u64::MAX
            },
    {
        self.max_timestamp.saturating_add(self.latency)
    }

    /// The group being played gave a frame with this timestamp.
    pub fn frame(&mut self, timestamp: u64)
        requires
            old(self).wf(),
            old(self).playing() is Some,
        ensures
            final(self).wf(),
            reads(*old(self), *final(self), ReadEvent::Frame(timestamp)),
            final(self).max_timestamp() == timestamp,
            final(self).playing() == old(self).playing(),
            final(self).pending() == old(self).pending(),
            final(self).latency() == old(self).latency(),
    {
        self.max_timestamp = timestamp;
    }

    /// The group being played ended: the first waiting group is played next.
    pub fn group_ended(&mut self)
        requires
            old(self).wf(),
        ensures
            final(self).wf(),
            reads(*old(self), *final(self), ReadEvent::Ended),
            old(self).pending().len() == 0 ==> final(self).playing() is None && final(self).pending().len() == 0,
            old(self).playing() matches Some(c) ==> (final(self).playing() matches Some(n) ==> c <= n),
            old(self).pending().len() > 0 ==> final(self).playing() == Some(old(self).pending()[0])
                && final(self).pending() == old(self).pending().drop_first(),
            final(self).max_timestamp() == old(self).max_timestamp(),
            final(self).latency() == old(self).latency(),
    {
        if self.pending.len() == 0 {
            self.current = None;
        } else {
            let next = self.pending.remove(0);
            self.current = Some(next);
            proof {
                assert forall|i: int| 0 <= i < self.pending@.len() implies next <= #[trigger] self.pending@[i] by {
                    assert(self.pending@[i] == old(self).pending@[i + 1]);
                }
            }
        }
    }

    /// A new group arrived. One older than the group being played is
    /// dropped; with nothing being played it is played at once; otherwise it
    /// waits, after the groups that are older than it.
    pub fn group(&mut self, sequence: u64) -> (r: Placement)
        requires
            old(self).wf(),
        ensures
            final(self).wf(),
            reads(*old(self), *final(self), ReadEvent::Group(sequence)),
            final(self).max_timestamp() == old(self).max_timestamp(),
            final(self).latency() == old(self).latency(),
            match old(self).playing() {
                None => r == Placement::Current && final(self).playing() == Some(sequence) && final(self).pending()
                    == old(self).pending(),
                Some(c) => if sequence < c {
                    r == Placement::Skipped && final(self).playing() == old(self).playing() && final(self).pending()
                        == old(self).pending()
                } else {
                    r matches Placement::Pending(i) && i <= old(self).pending().len() && final(self).playing()
                        == old(self).playing() && final(self).pending() == old(self).pending().insert(i as int, sequence)
                        && (forall|j: int| 0 <= j < i ==> #[trigger] old(self).pending()[j] < sequence) && (forall|j: int|
                        i <= j < old(self).pending().len() ==> sequence <= #[trigger] old(self).pending()[j])
                },
            },
    {
        match self.current {
            None => {
                self.current = Some(sequence);
                Placement::Current
            },
            Some(c) => if sequence < c {
                Placement::Skipped
            } else {
                let mut i: usize = 0;
                while i < self.pending.len() && self.pending[i] < sequence
                    invariant
                        i <= self.pending@.len(),
                        forall|j: int| 0 <= j < i ==> #[trigger] self.pending@[j] < sequence,
                    decreases self.pending@.len() - i,
                {
                    i = i + 1;
                }
                let ghost before = self.pending@;
                self.pending.insert(i, sequence);
                proof {
                    assert forall|a: int, b: int| 0 <= a <= b < self.pending@.len() implies self.pending@[a]
                        <= self.pending@[b] by {
                        if b < i {
                        } else if a < i && b == i {
                        } else if a < i {
                            assert(self.pending@[b] == before[b - 1]);
                        } else if a == i && b > i {
                            assert(self.pending@[b] == before[b - 1]);
                            assert(before[i as int] <= before[b - 1]);
                        } else if a > i {
                            assert(self.pending@[a] == before[a - 1]);
                            assert(self.pending@[b] == before[b - 1]);
                        }
                    }
                    assert forall|j: int| 0 <= j < self.pending@.len() implies c <= #[trigger] self.pending@[j] by {
                        if j < i {
                        } else if j > i {
                            assert(self.pending@[j] == before[j - 1]);
                        }
                    }
                }
                Placement::Pending(i)
            },
        }
    }

    /// The waiting group at `index` buffered past the cutoff: the groups
    /// before it are dropped and it is played next, in place of the group
    /// being played.
    pub fn buffered(&mut self, index: usize)
        requires
            old(self).wf(),
            index < old(self).pending().len(),
        ensures
            final(self).wf(),
            reads(*old(self), *final(self), ReadEvent::Buffered(index)),
            final(self).playing() == Some(old(self).pending()[index as int]),
            old(self).playing() matches Some(c) ==> (final(self).playing() matches Some(n) && c <= n),
            final(self).pending() == old(self).pending().skip(index + 1),
            final(self).max_timestamp() == old(self).max_timestamp(),
            final(self).latency() == old(self).latency(),
    {
        let ghost before = self.pending@;
        assert(index < self.pending.len());
        let mut rest: Vec<u64> = Vec::new();
        let mut i: usize = index + 1;
        while i < self.pending.len()
            invariant
                before == self.pending@,
                index + 1 <= i <= before.len(),
                rest@ == before.subrange(index + 1, i as int),
            decreases before.len() - i,
        {
            rest.push(self.pending[i]);
            i = i + 1;
        }
        let next = self.pending[index];
        self.current = Some(next);
        self.pending = rest;
        proof {
            assert(self.pending@ =~= before.skip(index + 1));
            assert forall|j: int| 0 <= j < self.pending@.len() implies next <= #[trigger] self.pending@[j] by {
                assert(self.pending@[j] == before[index + 1 + j]);
            }
        }
    }
}


/// The video codecs an encoder may use, best first: AV1 Main 3.0; HEVC
/// Main10 4.0; then AVC High, Main and Baseline, each at levels 3, 4, 5 and
/// 5.2.
pub open spec fn video_codec_name(i: int) -> Seq<char> {
    if i == 0 {
        "av01.0.04M.08"@
    } else if i == 1 {
        "hev1.2.4.L120.B0"@
    } else if i == 2 {
        "avc1.64001e"@
    } else if i == 3 {
        "avc1.640028"@
    } else if i == 4 {
        "avc1.640032"@
    } else if i == 5 {
        "avc1.640034"@
    } else if i == 6 {
        "avc1.4d001e"@
    } else if i == 7 {
        "avc1.4d0028"@
    } else if i == 8 {
        "avc1.4d0032"@
    } else if i == 9 {
        "avc1.4d0034"@
    } else if i == 10 {
        "avc1.42001e"@
    } else if i == 11 {
        "avc1.420028"@
    } else if i == 12 {
        "avc1.420032"@
    } else {
        "avc1.420034"@
    }
}

/// The `i`-th video codec, best first.
pub fn video_codec(i: usize) -> (r: &'static str)
    requires
        i < 14,
    ensures
        r@ == video_codec_name(i as int),
{
    match i {
        0 => "av01.0.04M.08",
        1 => "hev1.2.4.L120.B0",
        2 => "avc1.64001e",
        3 => "avc1.640028",
        4 => "avc1.640032",
        5 => "avc1.640034",
        6 => "avc1.4d001e",
        7 => "avc1.4d0028",
        8 => "avc1.4d0032",
        9 => "avc1.4d0034",
        10 => "avc1.42001e",
        11 => "avc1.420028",
        12 => "avc1.420032",
        _ => "avc1.420034",
    }
}

/// The bitrate a video encoder is set up with, in bits per second.
pub const ENCODER_BITRATE: u64 = 2_000_000;

/// The longest group of pictures a video encoder makes, in microseconds.
pub const ENCODER_MAX_GOP: u64 = 4_000_000;

/// The settings a video encoder is set up with.
#[derive(Debug, PartialEq, Eq)]
pub struct EncoderConfig {
    pub codec: String,
    pub width: u32,
    pub height: u32,
    pub hardware_acceleration: Option<bool>,
    /// In bits per second.
    pub bitrate: Option<u64>,
    pub latency_optimized: Option<bool>,
    /// In microseconds.
    pub max_gop_duration: Option<u64>,
}

/// The encoder settings to try for a candidate: the frame size, the codec
/// and whether to use hardware acceleration, at 2 Mbit/s, optimized for
/// latency, with groups of pictures of at most 4 s.
pub fn encoder_config(width: u32, height: u32, accelerated: bool, codec: &str) -> (r: EncoderConfig)
    ensures
        r.codec@ == codec@,
        r.width == width,
        r.height == height,
        r.hardware_acceleration == Some(accelerated),
        r.bitrate == Some(2_000_000u64),
        r.latency_optimized == Some(true),
        r.max_gop_duration == Some(4_000_000u64),
{
    EncoderConfig {
        codec: crate::text::owned(codec),
        width,
        height,
        hardware_acceleration: Some(accelerated),
        bitrate: Some(ENCODER_BITRATE),
        latency_optimized: Some(true),
        max_gop_duration: Some(ENCODER_MAX_GOP),
    }
}

/// The search for a video encoder configuration that the platform supports:
/// every codec with hardware acceleration, best first, then every codec
/// without it.
#[derive(Debug)]
pub struct EncoderSearch {
    next: usize,
}

impl EncoderSearch {
    /// How many candidates were rejected so far.
    pub closed spec fn position(&self) -> int {
        self.next as int
    }

    /// A search that has not tried any candidate yet.
    pub fn new() -> (r: Self)
        ensures
            r.position() == 0,
    {
        EncoderSearch { next: 0 }
    }

    /// The candidate to try next: whether it uses hardware acceleration, and
    /// its codec; none once every candidate was rejected, when no
    /// configuration is supported.
    pub fn candidate(&self) -> (r: Option<(bool, &'static str)>)
        ensures
            self.position() < 28 ==> (r matches Some((accelerated, codec)) && accelerated == (self.position() < 14)
                && codec@ == video_codec_name(self.position() % 14)),
            self.position() >= 28 ==> r is None,
    {
        if self.next >= 28 {
            None
        } else if self.next < 14 {
            Some((true, video_codec(self.next)))
        } else {
            Some((false, video_codec(self.next - 14)))
        }
    }

    /// The encoder settings of the candidate to try next, for frames of this
    /// size; none once every candidate was rejected.
    pub fn config(&self, width: u32, height: u32) -> (r: Option<EncoderConfig>)
        ensures
            self.position() < 28 ==> (r matches Some(c) && c.hardware_acceleration == Some(self.position() < 14)
                && c.codec@ == video_codec_name(self.position() % 14) && c.width == width && c.height == height
                && c.bitrate == Some(2_000_000u64) && c.latency_optimized == Some(true) && c.max_gop_duration == Some(
                4_000_000u64,
            )),
            self.position() >= 28 ==> r is None,
    {
        match self.candidate() {
            None => None,
            Some((accelerated, codec)) => Some(encoder_config(width, height, accelerated, codec)),
        }
    }

    /// The platform does not support the candidate: move on to the next.
    pub fn rejected(&mut self)
        requires
            old(self).position() < 28,
        ensures
            final(self).position() == old(self).position() + 1,
    {
        self.next = self.next + 1;
    }
}


/// The value of the byte written in hexadecimal at positions `i` and
/// `i + 1` of a codec string.
pub open spec fn hex_byte_at(c: Seq<char>, i: int) -> int {
    crate::native::hex_value(c[i])->0 * 16 + crate::native::hex_value(c[i + 1])->0
}

/// An AVC codec string, `avc1.PPCCLL`: the profile, the constraint flags
/// and the level, each a byte in hexadecimal.
pub open spec fn is_avc(c: Seq<char>) -> bool {
    &&& c.len() == 11
    &&& c.subrange(0, 5) == "avc1."@
    &&& forall|k: int| 5 <= k < 11 ==> (#[trigger] crate::native::hex_value(c[k])) is Some
}

/// The level of AVC codec `k` of a profile, in tenths: 3, 4, 5, then 5.2.
pub open spec fn avc_level_of(k: int) -> int {
    if k == 0 {
        30
    } else if k == 1 {
        40
    } else if k == 2 {
        50
    } else {
        52
    }
}

/// The video codecs in order of preference: AV1 Main at level 3.0, then
/// HEVC Main10 at level 4.0, then AVC in the High profile (0x64), the Main
/// profile (0x4d) and the Baseline profile (0x42), in that order, each at
/// levels 3, 4, 5 and 5.2, lowest first, without constraint flags.
pub proof fn lemma_video_codec_preference(i: int)
    requires
        0 <= i < 14,
    ensures
        i == 0 ==> video_codec_name(i) == "av01.0.04M.08"@,
        i == 1 ==> video_codec_name(i) == "hev1.2.4.L120.B0"@,
        i >= 2 ==> {
            &&& is_avc(video_codec_name(i))
            &&& hex_byte_at(video_codec_name(i), 5) == (if i < 6 {
                0x64int
            } else if i < 10 {
                0x4d
            } else {
                0x42
            })
            &&& hex_byte_at(video_codec_name(i), 7) == 0
            &&& hex_byte_at(video_codec_name(i), 9) == avc_level_of((i - 2) % 4)
        },
{
    reveal_strlit("avc1.");
    if i >= 2 {
        if i == 2 {
            reveal_strlit("avc1.64001e");
            assert(video_codec_name(i).subrange(0, 5) =~= "avc1."@);
        } else if i == 3 {
            reveal_strlit("avc1.640028");
            assert(video_codec_name(i).subrange(0, 5) =~= "avc1."@);
        } else if i == 4 {
            reveal_strlit("avc1.640032");
            assert(video_codec_name(i).subrange(0, 5) =~= "avc1."@);
        } else if i == 5 {
            reveal_strlit("avc1.640034");
            assert(video_codec_name(i).subrange(0, 5) =~= "avc1."@);
        } else if i == 6 {
            reveal_strlit("avc1.4d001e");
            assert(video_codec_name(i).subrange(0, 5) =~= "avc1."@);
        } else if i == 7 {
            reveal_strlit("avc1.4d0028");
            assert(video_codec_name(i).subrange(0, 5) =~= "avc1."@);
        } else if i == 8 {
            reveal_strlit("avc1.4d0032");
            assert(video_codec_name(i).subrange(0, 5) =~= "avc1."@);
        } else if i == 9 {
            reveal_strlit("avc1.4d0034");
            assert(video_codec_name(i).subrange(0, 5) =~= "avc1."@);
        } else if i == 10 {
            reveal_strlit("avc1.42001e");
            assert(video_codec_name(i).subrange(0, 5) =~= "avc1."@);
        } else if i == 11 {
            reveal_strlit("avc1.420028");
            assert(video_codec_name(i).subrange(0, 5) =~= "avc1."@);
        } else if i == 12 {
            reveal_strlit("avc1.420032");
            assert(video_codec_name(i).subrange(0, 5) =~= "avc1."@);
        } else if i == 13 {
            reveal_strlit("avc1.420034");
            assert(video_codec_name(i).subrange(0, 5) =~= "avc1."@);
        }
    }
}

/// Of two AVC codecs, the one tried first has the better profile (High,
/// then Main, then Baseline), or the same profile at a lower level.
pub proof fn lemma_avc_order(i: int, j: int)
    requires
        2 <= i < j < 14,
    ensures
        hex_byte_at(video_codec_name(i), 5) > hex_byte_at(video_codec_name(j), 5) || (hex_byte_at(
            video_codec_name(i),
            5,
        ) == hex_byte_at(video_codec_name(j), 5) && hex_byte_at(video_codec_name(i), 9) < hex_byte_at(
            video_codec_name(j),
            9,
        )),
{
    lemma_video_codec_preference(i);
    lemma_video_codec_preference(j);
}

} // verus!
