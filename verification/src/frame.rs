//! A frame is written in chunks by one producer and read by consumers, either
//! chunk by chunk or whole once the producer has finished.
use vstd::prelude::*;

use bytes::Bytes;

use crate::coding::{buf_clone, buf_content, buf_from_vec, buf_remaining, buf_to_vec};
use crate::error::Error;

verus! {

/// The size of a frame.
#[derive(Clone, Copy, Debug)]
pub struct Frame {
    pub size: u64,
}

impl Frame {
    /// Start producing a frame of this size.
    pub fn produce(self) -> (r: FrameProducer)
        ensures
            r.wf(),
            r.info() == self,
            r.chunks() == Seq::<Seq<u8>>::empty(),
            r.closed() is None,
    {
        FrameProducer::new(self)
    }
}

impl From<usize> for Frame {
    fn from(size: usize) -> (r: Self)
        ensures
            r.size == size,
    {
        Frame { size: size as u64 }
    }
}

impl From<u64> for Frame {
    fn from(size: u64) -> (r: Self)
        ensures
            r.size == size,
    {
        Frame { size }
    }
}

impl From<u32> for Frame {
    fn from(size: u32) -> (r: Self)
        ensures
            r.size == size,
    {
        Frame { size: size as u64 }
    }
}

impl From<u16> for Frame {
    fn from(size: u16) -> (r: Self)
        ensures
            r.size == size,
    {
        Frame { size: size as u64 }
    }
}

impl vstd::std_specs::convert::FromSpecImpl<usize> for Frame {
    open spec fn obeys_from_spec() -> bool {
        true
    }

    open spec fn from_spec(size: usize) -> Self {
        Frame { size: size as u64 }
    }
}

impl vstd::std_specs::convert::FromSpecImpl<u64> for Frame {
    open spec fn obeys_from_spec() -> bool {
        true
    }

    open spec fn from_spec(size: u64) -> Self {
        Frame { size }
    }
}

impl vstd::std_specs::convert::FromSpecImpl<u32> for Frame {
    open spec fn obeys_from_spec() -> bool {
        true
    }

    open spec fn from_spec(size: u32) -> Self {
        Frame { size: size as u64 }
    }
}

impl vstd::std_specs::convert::FromSpecImpl<u16> for Frame {
    open spec fn obeys_from_spec() -> bool {
        true
    }

    open spec fn from_spec(size: u16) -> Self {
        Frame { size: size as u64 }
    }
}

/// All the chunks, one after the other.
pub open spec fn concat(chunks: Seq<Seq<u8>>) -> Seq<u8>
    decreases chunks.len(),
{
    if chunks.len() == 0 {
        seq![]
    } else {
        concat(chunks.drop_last()) + chunks.last()
    }
}

/// The contents of a run of buffers.
pub open spec fn contents(v: Seq<Bytes>) -> Seq<Seq<u8>> {
    Seq::new(v.len(), |i: int| buf_content(v[i]))
}

/// Writes a frame's worth of data in chunks.
pub struct FrameProducer {
    info: Frame,
    chunks: Vec<Bytes>,
    closed: Option<Result<(), Error>>,
    written: u64,
}

impl FrameProducer {
    /// The frame being written.
    pub closed spec fn info(&self) -> Frame {
        self.info
    }

    /// The chunks written so far.
    pub closed spec fn chunks(&self) -> Seq<Seq<u8>> {
        contents(self.chunks@)
    }

    /// How the frame ended, if it has.
    pub closed spec fn closed(&self) -> Option<Result<(), Error>> {
        self.closed
    }

    /// The bytes written never exceed the frame's size, and a finished
    /// frame holds exactly that many.
    pub closed spec fn wf(&self) -> bool {
        &&& self.written == concat(self.chunks()).len()
        &&& self.written <= self.info.size
        &&& self.closed matches Some(Ok(())) ==> self.written == self.info.size
    }

    pub fn new(info: Frame) -> (r: Self)
        ensures
            r.wf(),
            r.info() == info,
            r.chunks() == Seq::<Seq<u8>>::empty(),
            r.closed() is None,
    {
        let r = FrameProducer { info, chunks: Vec::new(), closed: None, written: 0 };
        assert(r.chunks() =~= Seq::<Seq<u8>>::empty());
        r
    }

    /// Append a chunk. Writing past the frame's size, or after the frame
    /// has ended, is not allowed.
    pub fn write(&mut self, chunk: Vec<u8>)
        requires
            old(self).wf(),
            old(self).closed() is None,
            concat(old(self).chunks()).len() + chunk@.len() <= old(self).info().size,
        ensures
            final(self).wf(),
            final(self).info() == old(self).info(),
            final(self).chunks() == old(self).chunks().push(chunk@),
            final(self).closed() is None,
    {
        let chunk = buf_from_vec(chunk);
        let ghost c = buf_content(chunk);
        let len = buf_remaining(&chunk);
        self.written = self.written + len as u64;
        self.chunks.push(chunk);
        proof {
            assert(self.chunks() =~= old(self).chunks().push(c));
            assert(self.chunks().drop_last() =~= old(self).chunks());
        }
    }

    /// End the frame; all of its bytes must have been written.
    pub fn finish(&mut self)
        requires
            old(self).wf(),
            concat(old(self).chunks()).len() == old(self).info().size,
        ensures
            final(self).wf(),
            final(self).info() == old(self).info(),
            final(self).chunks() == old(self).chunks(),
            final(self).closed() == Some(Ok::<(), Error>(())),
    {
        self.closed = Some(Ok(()));
    }

    /// End the frame with an error.
    pub fn abort(&mut self, err: Error)
        requires
            old(self).wf(),
        ensures
            final(self).wf(),
            final(self).info() == old(self).info(),
            final(self).chunks() == old(self).chunks(),
            final(self).closed() == Some(Err::<(), Error>(err)),
    {
        self.closed = Some(Err(err));
    }

    /// Create a new consumer for the frame, starting at its first chunk.
    /// The producer was dropped. A frame that was not ended before ends
    /// with `Error::Cancel`; one that was keeps its ending.
    pub fn dropped(&mut self)
        requires
            old(self).wf(),
        ensures
            final(self).wf(),
            final(self).info() == old(self).info(),
            final(self).chunks() == old(self).chunks(),
            final(self).closed() == match old(self).closed() {
                None => Some(Err::<(), Error>(Error::Cancel)),
                Some(c) => Some(c),
            },
    {
        if self.closed.is_none() {
            self.closed = Some(Err(Error::Cancel));
        }
    }

    pub fn consume(&self) -> (r: FrameConsumer)
        ensures
            r.info() == self.info(),
            r.index() == 0,
    {
        FrameConsumer { info: self.info, index: 0 }
    }
}

/// The outcome of reading from a frame.
#[derive(Debug)]
pub enum FrameRead<'a, T> {
    /// Data.
    Data(T),
    /// The frame was finished and there is nothing more to read.
    Finished,
    /// The frame was aborted with this error.
    Aborted(&'a Error),
    /// Nothing to read yet: the caller would have to wait.
    Pending,
}

/// Reads a frame's worth of data in chunks.
pub struct FrameConsumer {
    pub info: Frame,
    index: usize,
}

impl FrameConsumer {
    /// The frame being read.
    pub closed spec fn info(&self) -> Frame {
        self.info
    }

    /// How many chunks have been read.
    pub closed spec fn index(&self) -> int {
        self.index as int
    }

    /// Return the next chunk.
    pub fn read<'a>(&mut self, frame: &'a FrameProducer) -> (r: FrameRead<'a, Bytes>)
        requires
            old(self).index() <= frame.chunks().len(),
        ensures
            final(self).info() == old(self).info(),
            old(self).index() < frame.chunks().len() ==> (r matches FrameRead::Data(c) && buf_content(c)
                == frame.chunks()[old(self).index()] && final(self).index() == old(self).index() + 1),
            old(self).index() == frame.chunks().len() ==> (final(self).index() == old(self).index() && match frame.closed() {
                Some(Ok(())) => r is Finished,
                Some(Err(e)) => (r matches FrameRead::Aborted(a) && *a == e),
                None => r is Pending,
            }),
    {
        if self.index < frame.chunks.len() {
            let chunk = buf_clone(&frame.chunks[self.index]);
            self.index = self.index + 1;
            return FrameRead::Data(chunk);
        }
        match &frame.closed {
            Some(Ok(())) => FrameRead::Finished,
            Some(Err(e)) => FrameRead::Aborted(e),
            None => FrameRead::Pending,
        }
    }

    /// Return all of the remaining chunks concatenated together, once the
    /// frame has ended.
    pub fn read_all<'a>(&mut self, frame: &'a FrameProducer) -> (r: FrameRead<'a, Bytes>)
        requires
            old(self).index() <= frame.chunks().len(),
        ensures
            final(self).info() == old(self).info(),
            match frame.closed() {
                Some(Ok(())) => (r matches FrameRead::Data(all) && buf_content(all) == concat(
                    frame.chunks().skip(old(self).index()),
                ) && final(self).index() == frame.chunks().len()),
                Some(Err(e)) => (r matches FrameRead::Aborted(a) && *a == e && final(self).index() == old(self).index()),
                None => r is Pending && final(self).index() == old(self).index(),
            },
    {
        match &frame.closed {
            Some(Err(e)) => return FrameRead::Aborted(e),
            None => return FrameRead::Pending,
            Some(Ok(())) => {},
        }
        let ghost cs = frame.chunks();
        let start = self.index;
        let mut all: Vec<u8> = Vec::new();
        let mut i = start;
        assert(cs.subrange(start as int, start as int) =~= Seq::<Seq<u8>>::empty());
        while i < frame.chunks.len()
            invariant
                cs == frame.chunks(),
                start <= i <= cs.len(),
                all@ == concat(cs.subrange(start as int, i as int)),
            decreases cs.len() - i,
        {
            let chunk = buf_to_vec(&frame.chunks[i]);
            let ghost before = all@;
            let mut chunk = chunk;
            all.append(&mut chunk);
            proof {
                assert(cs.subrange(start as int, i + 1).drop_last() =~= cs.subrange(start as int, i as int));
            }
            i = i + 1;
        }
        assert(cs.subrange(start as int, i as int) =~= cs.skip(start as int));
        self.index = i;
        FrameRead::Data(buf_from_vec(all))
    }
}

/// A finished frame holds exactly as many bytes as its declared size.
pub proof fn lemma_finished_frame_size(frame: &FrameProducer)
    requires
        frame.wf(),
        frame.closed() == Some(Ok::<(), Error>(())),
    ensures
        concat(frame.chunks()).len() == frame.info().size,
{
}

} // verus!
