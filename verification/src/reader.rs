//! The frame reader: which bytes of the stream make up the next frame.
//!
//! A stream is a flat run of frames of `RAW_BYTES_PER_FRAME` bytes each; bytes
//! behind the last whole frame are never reached. The reader names the bytes
//! to fetch, takes them when they have been fetched, and keeps them until
//! the next frame comes. After the last frame it starts over with the first,
//! so that the frames come round for ever.
//!
//! The reader does not touch the stream itself. Its caller seeks and reads as
//! a [`FrameRequest`] says and hands the bytes to [`VideoReader::next_frame`].

use vstd::prelude::*;
use vstd::arithmetic::div_mod::{
    lemma_fundamental_div_mod, lemma_fundamental_div_mod_converse, lemma_mod_pos_bound,
    lemma_small_mod,
};
use crate::format::RAW_BYTES_PER_FRAME;

verus! {

/// Why the reader refused a stream or a frame.
#[derive(Clone, Copy, Debug, PartialEq, Eq, Structural)]
pub enum ReaderError {
    /// The stream is shorter than one frame, so there is nothing to play.
    EmptyStream,
    /// The bytes handed over are not exactly one frame.
    ShortRead,
}

/// The bytes of the stream that make up the next frame.
#[derive(Clone, Copy, Debug, PartialEq, Eq, Structural)]
pub struct FrameRequest {
    /// Whether the stream is first taken back to its start, because the last
    /// frame has been delivered.
    pub rewind: bool,
    /// Offset of the frame's first byte from the start of the stream.
    pub offset: u64,
    /// Number of bytes to read from there.
    pub len: usize,
}

/// What a reader is, as mathematics.
pub struct ReaderState {
    /// Frames delivered since the start of the stream was last taken up.
    pub frames_read: nat,
    /// Whole frames in the stream.
    pub frame_count: nat,
    /// The frame delivered last.
    pub buffer: Seq<u8>,
}

/// Frame number `index` of `stream`.
pub open spec fn frame_of(stream: Seq<u8>, index: int) -> Seq<u8> {
    stream.subrange(index * RAW_BYTES_PER_FRAME, index * RAW_BYTES_PER_FRAME + RAW_BYTES_PER_FRAME)
}

impl ReaderState {
    /// What holds of every reader: it has read no more frames than there
    /// are, every frame's offset fits the stream's 64-bit positions, and it
    /// holds one frame's worth of bytes.
    pub open spec fn inv(self) -> bool {
        &&& self.frames_read <= self.frame_count
        &&& self.frame_count * RAW_BYTES_PER_FRAME <= u64::MAX
        &&& self.buffer.len() == RAW_BYTES_PER_FRAME
    }

    /// A reader that can deliver: one with at least one frame to give.
    pub open spec fn wf(self) -> bool {
        &&& self.inv()
        &&& 1 <= self.frame_count
    }

    /// The reader over a stream of `stream_len` bytes before its first frame.
    pub open spec fn start(stream_len: int) -> ReaderState {
        ReaderState {
            frames_read: 0,
            frame_count: (stream_len / RAW_BYTES_PER_FRAME as int) as nat,
            buffer: Seq::new(RAW_BYTES_PER_FRAME as nat, |i: int| 0u8),
        }
    }

    /// Whether the last frame has been delivered, so that the next one is the
    /// first again.
    pub open spec fn exhausted(self) -> bool {
        self.frames_read >= self.frame_count
    }

    /// Number of the frame that comes next.
    pub open spec fn next_index(self) -> nat {
        if self.exhausted() {
            0
        } else {
            self.frames_read
        }
    }

    /// The reader taken back to the start of the stream.
    pub open spec fn rewound(self) -> ReaderState {
        ReaderState { frames_read: 0, ..self }
    }

    /// The reader after it has taken `data` as its next frame.
    pub open spec fn accept(self, data: Seq<u8>) -> ReaderState {
        ReaderState { frames_read: self.next_index() + 1, frame_count: self.frame_count, buffer: data }
    }

    /// The reader after one delivery from `stream`: it has taken the frame
    /// that comes next.
    pub open spec fn deliver(self, stream: Seq<u8>) -> ReaderState {
        self.accept(frame_of(stream, self.next_index() as int))
    }

    /// The reader after `n` deliveries from `stream`.
    pub open spec fn after(self, stream: Seq<u8>, n: nat) -> ReaderState
        decreases n,
    {
        if n == 0 {
            self
        } else {
            self.after(stream, (n - 1) as nat).deliver(stream)
        }
    }
}

/// Serves the frames of a stream one after another, round and round.
pub struct VideoReader {
    frames_read: u64,
    frame_count: u64,
    buffer: Vec<u8>,
}

impl View for VideoReader {
    type V = ReaderState;

    closed spec fn view(&self) -> ReaderState {
        ReaderState {
            frames_read: self.frames_read as nat,
            frame_count: self.frame_count as nat,
            buffer: self.buffer@,
        }
    }
}

impl VideoReader {
    /// Whether the reader can deliver: `new` made it, the methods kept it,
    /// and its stream holds at least one frame.
    pub open spec fn wf(&self) -> bool {
        self@.wf()
    }

    /// A reader for a stream of `file_size` bytes, before its first frame.
    ///
    /// The stream holds `file_size / RAW_BYTES_PER_FRAME` frames, rounded
    /// down: as many whole frames as fit. A stream shorter than one frame
    /// gives a reader with no frames, which cannot deliver; `validate` tells.
    pub fn new(file_size: u64) -> (made: VideoReader)
        ensures
            made@ == ReaderState::start(file_size as int),
            made@.inv(),
            made@.frame_count * RAW_BYTES_PER_FRAME <= file_size < (made@.frame_count + 1)
                * RAW_BYTES_PER_FRAME,
            file_size >= RAW_BYTES_PER_FRAME <==> made.wf(),
    {
        let frame_count: u64 = file_size / (RAW_BYTES_PER_FRAME as u64);
        let buffer: Vec<u8> = vec![0u8; RAW_BYTES_PER_FRAME];
        proof {
            lemma_fundamental_div_mod(file_size as int, RAW_BYTES_PER_FRAME as int);
            lemma_mod_pos_bound(file_size as int, RAW_BYTES_PER_FRAME as int);
            assert(frame_count * RAW_BYTES_PER_FRAME == RAW_BYTES_PER_FRAME * frame_count)
                by (nonlinear_arith);
            assert((frame_count + 1) * RAW_BYTES_PER_FRAME == frame_count * RAW_BYTES_PER_FRAME
                + RAW_BYTES_PER_FRAME) by (nonlinear_arith);
            assert(buffer@ =~= Seq::new(RAW_BYTES_PER_FRAME as nat, |i: int| 0u8));
        }
        VideoReader { frames_read: 0, frame_count, buffer }
    }

    /// Tells whether the stream holds a frame to play: a reader without one
    /// is refused, so that nobody waits for a frame that never comes.
    pub fn validate(&self) -> (checked: Result<(), ReaderError>)
        ensures
            checked is Ok <==> self@.frame_count >= 1,
            checked is Err ==> checked->Err_0 == ReaderError::EmptyStream,
    {
        if self.frame_count == 0 {
            Err(ReaderError::EmptyStream)
        } else {
            Ok(())
        }
    }

    /// Whole frames in the stream.
    pub fn frame_count(&self) -> (count: u64)
        ensures
            count == self@.frame_count,
    {
        self.frame_count
    }

    /// Frames delivered since the start of the stream was last taken up.
    pub fn frames_read(&self) -> (read: u64)
        ensures
            read == self@.frames_read,
    {
        self.frames_read
    }

    /// The frame delivered last; all zero before the first delivery.
    pub fn frame(&self) -> (bytes: &[u8])
        ensures
            bytes@ == self@.buffer,
    {
        self.buffer.as_slice()
    }

    /// Takes the reader back to the start of the stream: the next frame is
    /// the first one. The frame delivered last stays.
    pub fn rewind(&mut self)
        ensures
            final(self)@ == old(self)@.rewound(),
            old(self)@.inv() ==> final(self)@.inv(),
            old(self).wf() ==> final(self).wf(),
    {
        self.frames_read = 0;
    }

    /// Names the bytes of the stream that make up the next frame.
    pub fn next_request(&self) -> (request: FrameRequest)
        requires
            self.wf(),
        ensures
            request.rewind == self@.exhausted(),
            request.offset == self@.next_index() * RAW_BYTES_PER_FRAME,
            request.len == RAW_BYTES_PER_FRAME,
    {
        let rewind: bool = self.frames_read >= self.frame_count;
        let index: u64 = if rewind {
            0
        } else {
            self.frames_read
        };
        proof {
            assert(index * RAW_BYTES_PER_FRAME <= self.frame_count * RAW_BYTES_PER_FRAME)
                by (nonlinear_arith)
                requires
                    index <= self.frame_count,
            ;
        }
        FrameRequest {
            rewind,
            offset: index * (RAW_BYTES_PER_FRAME as u64),
            len: RAW_BYTES_PER_FRAME,
        }
    }

    /// Takes `data`, the bytes read as the last request said, as the next
    /// frame and hands out the frame now held.
    ///
    /// Anything but exactly one frame is refused and leaves the reader as it
    /// was. Otherwise a reader that has delivered its last frame starts over,
    /// `data` replaces the frame held, and the count of frames read goes up.
    pub fn next_frame(&mut self, data: &[u8]) -> (delivered: Result<&[u8], ReaderError>)
        requires
            old(self).wf(),
        ensures
            match delivered {
                Ok(frame) => {
                    &&& frame@ == data@
                    &&& data@.len() == RAW_BYTES_PER_FRAME
                    &&& final(self).wf()
                    &&& final(self)@ == old(self)@.accept(data@)
                },
                Err(e) => {
                    &&& data@.len() != RAW_BYTES_PER_FRAME
                    &&& e == ReaderError::ShortRead
                    &&& *final(self) == *old(self)
                },
            },
    {
        if data.len() != RAW_BYTES_PER_FRAME {
            return Err(ReaderError::ShortRead);
        }
        if self.frames_read >= self.frame_count {
            self.rewind();
        }
        let mut i: usize = 0;
        while i < RAW_BYTES_PER_FRAME
            invariant
                i <= RAW_BYTES_PER_FRAME,
                data@.len() == RAW_BYTES_PER_FRAME,
                self.buffer@.len() == RAW_BYTES_PER_FRAME,
                self.frame_count == old(self).frame_count,
                self.frames_read == old(self)@.next_index(),
                forall|k: int| 0 <= k < i ==> self.buffer@[k] == data@[k],
            decreases RAW_BYTES_PER_FRAME - i,
        {
            self.buffer[i] = data[i];
            i = i + 1;
        }
        self.frames_read = self.frames_read + 1;
        proof {
            assert(self.buffer@ =~= data@);
        }
        Ok(self.buffer.as_slice())
    }
}

/// The bytes that a reader asks for lie inside the whole frames of its
/// stream: bytes behind the last whole frame are never reached.
pub proof fn lemma_request_within_stream(state: ReaderState, stream_len: int)
    requires
        state.wf(),
        0 <= stream_len,
        state.frame_count == stream_len / RAW_BYTES_PER_FRAME as int,
    ensures
        state.next_index() < state.frame_count,
        state.next_index() * RAW_BYTES_PER_FRAME + RAW_BYTES_PER_FRAME <= state.frame_count
            * RAW_BYTES_PER_FRAME,
        state.frame_count * RAW_BYTES_PER_FRAME <= stream_len,
{
    lemma_fundamental_div_mod(stream_len, RAW_BYTES_PER_FRAME as int);
    lemma_mod_pos_bound(stream_len, RAW_BYTES_PER_FRAME as int);
    assert(state.frame_count * RAW_BYTES_PER_FRAME == RAW_BYTES_PER_FRAME * state.frame_count)
        by (nonlinear_arith);
    assert((state.next_index() + 1) * RAW_BYTES_PER_FRAME <= state.frame_count
        * RAW_BYTES_PER_FRAME) by (nonlinear_arith)
        requires
            state.next_index() + 1 <= state.frame_count,
    ;
    assert((state.next_index() + 1) * RAW_BYTES_PER_FRAME == state.next_index()
        * RAW_BYTES_PER_FRAME + RAW_BYTES_PER_FRAME) by (nonlinear_arith);
}

/// Taking the reader back twice is taking it back once, and the frame that
/// comes next is then the first frame of the stream.
pub proof fn lemma_rewind_idempotent(state: ReaderState, stream: Seq<u8>)
    ensures
        state.rewound().rewound() == state.rewound(),
        state.inv() ==> state.rewound().inv(),
        state.wf() ==> state.rewound().wf(),
        state.rewound().next_index() == 0,
        state.rewound().deliver(stream).buffer == frame_of(stream, 0),
{
}

/// From the start of the stream, delivery number `n + 1` brings frame
/// `n % frame_count`, and the stream is taken back to its start exactly
/// before the deliveries that follow a whole round.
pub proof fn lemma_delivery(state: ReaderState, stream: Seq<u8>, n: nat)
    requires
        state.wf(),
        state.frames_read == 0,
    ensures
        state.after(stream, n).frame_count == state.frame_count,
        state.after(stream, n).next_index() == n % state.frame_count,
        state.after(stream, n).exhausted() <==> n > 0 && n % state.frame_count == 0,
        state.after(stream, n + 1).buffer == frame_of(stream, (n % state.frame_count) as int),
        state.after(stream, n + 1).frames_read == n % state.frame_count + 1,
    decreases n,
{
    let count = state.frame_count as int;
    lemma_mod_pos_bound(n as int, count);
    if n == 0 {
        lemma_small_mod(0, state.frame_count);
        assert(state.after(stream, 0) == state);
        assert(state.after(stream, 1) == state.after(stream, 0).deliver(stream));
    } else {
        let m = (n - 1) as nat;
        lemma_delivery(state, stream, m);
        lemma_mod_pos_bound(m as int, count);
        lemma_fundamental_div_mod(m as int, count);
        let q = m as int / count;
        let r = m as int % count;
        assert(count * q == q * count) by (nonlinear_arith);
        if r + 1 < count {
            lemma_fundamental_div_mod_converse(n as int, count, q, r + 1);
        } else {
            assert((q + 1) * count == q * count + count) by (nonlinear_arith);
            lemma_fundamental_div_mod_converse(n as int, count, q + 1, 0);
        }
        assert(state.after(stream, n + 1) == state.after(stream, n).deliver(stream));
    }
}

/// The frames come round exactly: after a whole round of `frame_count`
/// deliveries, delivery number `frame_count + k` brings the very bytes that
/// delivery number `k` brought.
pub proof fn lemma_cyclic_delivery(state: ReaderState, stream: Seq<u8>, k: nat)
    requires
        state.wf(),
        state.frames_read == 0,
        k >= 1,
    ensures
        state.after(stream, state.frame_count + k).buffer == state.after(stream, k).buffer,
{
    let count = state.frame_count as int;
    let n = (k - 1) as nat;
    lemma_delivery(state, stream, n);
    lemma_delivery(state, stream, state.frame_count + n);
    lemma_fundamental_div_mod(n as int, count);
    lemma_mod_pos_bound(n as int, count);
    let q = n as int / count;
    assert(count * q == q * count) by (nonlinear_arith);
    assert((q + 1) * count == q * count + count) by (nonlinear_arith);
    lemma_fundamental_div_mod_converse(count + n, count, q + 1, n as int % count);
}

} // verus!
