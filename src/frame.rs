use vstd::prelude::*;
use vstd::arithmetic::div_mod::{
    lemma_fundamental_div_mod, lemma_mod_multiples_vanish, lemma_mod_self_0, lemma_small_mod,
};
use crate::overlay::{Geometry, PointerEvent, PointerState, drained, stamped};

verus! {

/// Why a frame stream could not be set up or go on.
#[derive(Clone, Copy, Debug, PartialEq, Eq, Structural)]
pub enum StreamError {
    /// `width * height * bytes_per_pixel` does not fit in a `usize`.
    FrameTooLarge,
    /// The pixel source gave no byte although the frame was not complete.
    SourceExhausted,
}

/// Where a read left the stream.
#[derive(Clone, Copy, Debug, PartialEq, Eq, Structural)]
pub enum ReadStep {
    /// The current frame still has bytes to deliver.
    InFrame,
    /// The frame is complete: the source must be repositioned at the frame's
    /// start offset, and pending pen events taken in, before the next read.
    FrameDone,
}

/// Abstract state of a frame stream.
pub ghost struct StreamView {
    pub start: nat,
    pub size: nat,
    pub cursor: nat,
    pub geometry: Geometry,
    pub overlay: Option<PointerState>,
}

/// The bookkeeping of an endless stream of frames read from one pixel source:
/// which byte of the current frame comes next, and the pen state stamped on
/// outgoing bytes. The reads and seeks themselves are the caller's: this type
/// says how much to read and when to go back to the frame's start.
pub struct ReStreamer {
    start: u64,
    cursor: usize,
    size: usize,
    geometry: Geometry,
    overlay: Option<PointerState>,
}

/// Position in the frame after `n` more bytes were delivered from `cursor`:
/// a completed frame starts over.
pub open spec fn advance(size: nat, cursor: nat, n: nat) -> nat {
    if cursor + n == size {
        0
    } else {
        cursor + n
    }
}

/// `bytes` as sent on: with the glyph stamped when the overlay is on.
pub open spec fn outgoing(overlay: Option<PointerState>, g: Geometry, base: int, bytes: Seq<u8>) -> Seq<u8> {
    match overlay {
        Some(s) => stamped(s, g, base, bytes),
        None => bytes,
    }
}

impl View for ReStreamer {
    type V = StreamView;

    closed spec fn view(&self) -> StreamView {
        StreamView {
            start: self.start as nat,
            size: self.size as nat,
            cursor: self.cursor as nat,
            geometry: self.geometry,
            overlay: self.overlay,
        }
    }
}

impl ReStreamer {
    /// The frame size is that of the geometry, and the cursor is inside the
    /// frame (a frame of no bytes keeps it at zero).
    pub open spec fn wf(&self) -> bool {
        &&& self@.geometry.wf()
        &&& self@.size == self@.geometry.frame_size()
        &&& (self@.cursor < self@.size || self@.cursor == 0)
    }

    /// Bytes of the current frame not yet delivered.
    pub open spec fn remaining(&self) -> nat {
        (self@.size - self@.cursor) as nat
    }

    /// A stream of frames of `width * height * bytes_per_pixel` bytes from
    /// `offset` on, at the start of a frame, with the overlay off.
    pub fn init(offset: usize, width: usize, height: usize, bytes_per_pixel: usize) -> (r: Result<
        ReStreamer,
        StreamError,
    >)
        ensures
            r is Err <==> (width * height > usize::MAX || width * height * bytes_per_pixel
                > usize::MAX),
            r is Err ==> r == Err::<ReStreamer, StreamError>(StreamError::FrameTooLarge),
            r matches Ok(s) ==> {
                &&& s.wf()
                &&& s@.start == offset
                &&& s@.cursor == 0
                &&& s@.geometry == (Geometry { width, height, bytes_per_pixel })
                &&& s@.overlay.is_none()
            },
    {
        let pixels = width.checked_mul(height);
        match pixels {
            None => Err(StreamError::FrameTooLarge),
            Some(pixels) => match pixels.checked_mul(bytes_per_pixel) {
                None => Err(StreamError::FrameTooLarge),
                Some(size) => {
                    let geometry = Geometry { width, height, bytes_per_pixel };
                    Ok(
                        ReStreamer {
                            start: offset as u64,
                            cursor: 0,
                            size,
                            geometry,
                            overlay: None,
                        },
                    )
                },
            },
        }
    }

    /// Turns the pen overlay on, with no position known yet.
    pub fn enable_overlay(&mut self)
        ensures
            final(self)@ == (StreamView { overlay: Some(PointerState { position: None, drawing: false }), ..old(self)@ }),
    {
        self.overlay = Some(PointerState::new());
    }

    /// Offset of the first byte of each frame in the source.
    pub fn start_offset(&self) -> (r: u64)
        ensures
            r == self@.start,
    {
        self.start
    }

    /// Bytes in one frame.
    pub fn frame_size(&self) -> (r: usize)
        ensures
            r == self@.size,
    {
        self.size
    }

    /// Bytes of the current frame already delivered.
    pub fn cursor(&self) -> (r: usize)
        ensures
            r == self@.cursor,
    {
        self.cursor
    }

    /// The pen state stamped on outgoing bytes, when the overlay is on.
    pub fn pointer(&self) -> (r: Option<PointerState>)
        ensures
            r == self@.overlay,
    {
        self.overlay
    }

    /// Starts the frame over: the cursor goes back to zero, and the source
    /// must be positioned at the returned start offset.
    pub fn next_frame(&mut self) -> (r: u64)
        requires
            old(self).wf(),
        ensures
            final(self).wf(),
            final(self)@ == (StreamView { cursor: 0, ..old(self)@ }),
            r == old(self)@.start,
    {
        self.cursor = 0;
        self.start
    }

    /// How many bytes to read from the source for a caller's buffer of
    /// `requested` bytes: never past the end of the current frame.
    pub fn window_len(&self, requested: usize) -> (r: usize)
        requires
            self.wf(),
        ensures
            r == if requested <= self.remaining() {
                requested as nat
            } else {
                self.remaining()
            },
    {
        let rest = self.size - self.cursor;
        if requested <= rest {
            requested
        } else {
            rest
        }
    }

    /// Takes in the pen events that arrived since the last frame began; they
    /// count only with the overlay on.
    pub fn refresh_pointer(&mut self, events: &[PointerEvent])
        ensures
            final(self)@ == (StreamView {
                overlay: match old(self)@.overlay {
                    Some(s) => Some(drained(s, events@)),
                    None => None,
                },
                ..old(self)@
            }),
    {
        match &mut self.overlay {
            Some(s) => s.apply_all(events),
            None => {},
        }
    }

    /// Accounts for `bytes_read` bytes that the source placed at the start of
    /// `buf`, after it was asked for `window` bytes (see `window_len`). The
    /// glyph is stamped on them when the overlay is on. A source that gives
    /// nothing for a non-empty window has run dry inside a frame: that fails
    /// and changes nothing. Otherwise the cursor moves on by `bytes_read`,
    /// and back to zero when the frame is complete.
    pub fn complete_read(&mut self, buf: &mut [u8], window: usize, bytes_read: usize) -> (r: Result<
        ReadStep,
        StreamError,
    >)
        requires
            old(self).wf(),
            window <= old(self).remaining(),
            bytes_read <= window,
            bytes_read <= old(buf)@.len(),
        ensures
            final(self).wf(),
            r is Err <==> (window > 0 && bytes_read == 0),
            r is Err ==> {
                &&& r == Err::<ReadStep, StreamError>(StreamError::SourceExhausted)
                &&& final(self)@ == old(self)@
                &&& final(buf)@ == old(buf)@
            },
            r is Ok ==> {
                &&& final(self)@ == (StreamView {
                    cursor: advance(old(self)@.size, old(self)@.cursor, bytes_read as nat),
                    ..old(self)@
                })
                &&& final(buf)@ == outgoing(
                    old(self)@.overlay,
                    old(self)@.geometry,
                    old(self)@.cursor as int,
                    old(buf)@.take(bytes_read as int),
                ) + old(buf)@.skip(bytes_read as int)
                &&& r == Ok::<ReadStep, StreamError>(
                    if old(self)@.cursor + bytes_read == old(self)@.size {
                        ReadStep::FrameDone
                    } else {
                        ReadStep::InFrame
                    },
                )
            },
    {
        if window > 0 && bytes_read == 0 {
            return Err(StreamError::SourceExhausted);
        }
        match &self.overlay {
            Some(s) => crate::overlay::stamp(s, &self.geometry, self.cursor, buf, bytes_read),
            None => {
                proof {
                    assert(buf@ =~= buf@.take(bytes_read as int) + buf@.skip(bytes_read as int));
                }
            },
        }
        self.cursor = self.cursor + bytes_read;
        if self.cursor == self.size {
            self.cursor = 0;
            Ok(ReadStep::FrameDone)
        } else {
            Ok(ReadStep::InFrame)
        }
    }
}

/// Bytes delivered by a run of reads.
pub open spec fn total(reads: Seq<nat>) -> nat
    decreases reads.len(),
{
    if reads.len() == 0 {
        0
    } else {
        total(reads.drop_last()) + reads.last()
    }
}

/// Position in the frame after a run of reads from the start of a frame.
pub open spec fn cursor_after(size: nat, reads: Seq<nat>) -> nat
    decreases reads.len(),
{
    if reads.len() == 0 {
        0
    } else {
        advance(size, cursor_after(size, reads.drop_last()), reads.last())
    }
}

/// Each read of the run stays within its frame, as `window_len` ensures.
pub open spec fn reads_fit(size: nat, reads: Seq<nat>) -> bool
    decreases reads.len(),
{
    reads.len() == 0 || (reads_fit(size, reads.drop_last()) && cursor_after(
        size,
        reads.drop_last(),
    ) + reads.last() <= size)
}

proof fn lemma_mod_step(t: nat, n: nat, size: nat)
    requires
        size > 0,
        t % size + n <= size,
    ensures
        (t + n) % size == advance(size, t % size, n),
{
    let m = size as int;
    let c: int = (t as int) % m;
    let q: int = (t as int) / m;
    lemma_fundamental_div_mod(t as int, m);
    lemma_mod_multiples_vanish(q, c + n, m);
    assert(t + n == m * q + (c + n));
    if c + n == size {
        lemma_mod_self_0(size as int);
    } else {
        lemma_small_mod((c + n) as nat, size);
    }
}

/// Frames resynchronise whatever the read sizes: after any run of reads
/// that each stay within their frame, the position in the frame is the
/// number of bytes delivered modulo the frame size. After a whole number of
/// frames the stream is back at the frame's start.
pub proof fn lemma_resync(size: nat, reads: Seq<nat>)
    requires
        size > 0,
        reads_fit(size, reads),
    ensures
        cursor_after(size, reads) == total(reads) % size,
        total(reads) % size == 0 ==> cursor_after(size, reads) == 0,
    decreases reads.len(),
{
    if reads.len() > 0 {
        lemma_resync(size, reads.drop_last());
        lemma_mod_step(total(reads.drop_last()), reads.last(), size);
    }
}

proof fn lemma_prefix_fits(size: nat, reads: Seq<nat>, k: int)
    requires
        reads_fit(size, reads),
        0 <= k < reads.len(),
    ensures
        reads_fit(size, reads.take(k)),
        cursor_after(size, reads.take(k)) + reads[k] <= size,
    decreases reads.len(),
{
    if k == reads.len() - 1 {
        assert(reads.take(k) =~= reads.drop_last());
    } else {
        lemma_prefix_fits(size, reads.drop_last(), k);
        assert(reads.drop_last().take(k) =~= reads.take(k));
    }
}

/// Frames replay identically: the `i`-th byte of the `k`-th read sits at
/// frame position `(d + i) % size`, where `d` is the number of bytes the
/// earlier reads delivered. Byte `j` of the stream thus always comes from
/// offset `start + j % size` of the source, whatever the read sizes.
pub proof fn lemma_replay(size: nat, reads: Seq<nat>, k: int, i: nat)
    requires
        size > 0,
        reads_fit(size, reads),
        0 <= k < reads.len(),
        i < reads[k],
    ensures
        cursor_after(size, reads.take(k)) + i == (total(reads.take(k)) + i) % size,
{
    lemma_prefix_fits(size, reads, k);
    lemma_resync(size, reads.take(k));
    lemma_mod_step(total(reads.take(k)), i, size);
}

proof fn lemma_total_grows(reads: Seq<nat>, i: int, j: int)
    requires
        0 <= i <= j <= reads.len(),
    ensures
        total(reads.take(i)) <= total(reads.take(j)),
        i < j && (forall|k: int| 0 <= k < reads.len() ==> reads[k] > 0) ==> total(reads.take(i))
            < total(reads.take(j)),
    decreases j - i,
{
    if i < j {
        lemma_total_grows(reads, i, j - 1);
        assert(reads.take(j).drop_last() =~= reads.take(j - 1));
    }
}

/// One frame read in any number of non-empty reads: before the last of them
/// the position in the frame is the number of bytes delivered so far, short
/// of the frame size (no resynchronisation yet), and after the last it is
/// back at the frame's start.
pub proof fn lemma_one_frame(size: nat, reads: Seq<nat>)
    requires
        size > 0,
        reads_fit(size, reads),
        total(reads) == size,
        forall|k: int| 0 <= k < reads.len() ==> reads[k] > 0,
    ensures
        cursor_after(size, reads) == 0,
        forall|i: int|
            0 <= i < reads.len() ==> total(#[trigger] reads.take(i)) < size && cursor_after(
                size,
                reads.take(i),
            ) == total(reads.take(i)),
{
    lemma_resync(size, reads);
    lemma_mod_self_0(size as int);
    assert forall|i: int| 0 <= i < reads.len() implies total(#[trigger] reads.take(i)) < size
        && cursor_after(size, reads.take(i)) == total(reads.take(i)) by {
        lemma_total_grows(reads, i, reads.len() as int);
        assert(reads.take(reads.len() as int) =~= reads);
        lemma_prefix_fits(size, reads, i);
        lemma_resync(size, reads.take(i));
        lemma_small_mod(total(reads.take(i)), size);
    }
}

} // verus!
