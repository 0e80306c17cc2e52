//! The int32 ring around the playhead.
//!
//! The window thread writes it; the audio callback reads it and nothing else.
//! Samples are held in the output's own layout, interleaved stereo, so the
//! callback has nothing to convert and no branch on source depth.
//!
//! Reads inside the window are free in either direction, which is why this is
//! no queue: data behind the read pointer stays until it is dropped.
//!
//! # Reading while the other side writes
//!
//! The span is published as a start, an end and a generation. A reader takes
//! the generation, the end and the start, in that order, copies, and then
//! takes the generation and the start again: [`readable_now`] decides from the first
//! three what may be copied, and [`confirm`] from the last two whether what
//! was copied can be trusted. [`law_a_confirmed_read_is_what_was_published`]
//! is the argument that it can.

use vstd::prelude::*;

use crate::file::RING_CHANNELS;

verus! {

/// Bytes one frame occupies in the ring. The ring is int32 whatever the source
/// depth was, so window size is a function of sample rate alone.
pub const RING_FRAME_BYTES: usize = 8;

/// The half-window cap, in seconds, each side of the playhead.
pub const HALF_WINDOW_SECS_CAP: u32 = 60;

/// The byte cap that is used where none is chosen.
pub const WINDOW_BYTES_PLACEHOLDER: usize = 67108864;

/// Frames the ring should hold for a track at `rate`: sixty seconds each side,
/// no more than `window_bytes`, and at least two frames.
///
/// Sizing in bytes rather than seconds is what holds RAM flat across the
/// rates, and it degrades the window length instead of failing.
pub open spec fn frames_for(rate: int, window_bytes: int) -> int {
    let by_bytes = window_bytes / 8;
    let by_time = 120 * rate;
    let least = if by_bytes < by_time {
        by_bytes
    } else {
        by_time
    };
    if least < 2 {
        2
    } else {
        least
    }
}

pub fn capacity_frames(rate: u32, window_bytes: usize) -> (r: usize)
    ensures
        r == frames_for(rate as int, window_bytes as int),
{
    let by_bytes: usize = window_bytes / RING_FRAME_BYTES;
    let by_time: u64 = 120 * (rate as u64);
    let least: usize = if (by_bytes as u64) < by_time {
        by_bytes
    } else {
        by_time as usize
    };
    if least < 2 {
        2
    } else {
        least
    }
}

/// The shared allocation and the span published over it.
#[derive(Debug)]
pub struct Ring {
    /// Two samples a frame. Allocated once and never resized.
    pub slots: Vec<i32>,
    pub capacity: u64,
    /// Track frame index of the oldest resident frame.
    pub start: u64,
    /// One past the newest resident frame.
    pub end: u64,
    /// Moved on by two whenever the window is relocated, which is the only
    /// time `start` moves backwards. Odd while a relocation is in progress.
    pub generation: u64,
    /// Where the reader is, as a whole frame: a hint to the writer.
    pub playhead: u64,
}

impl Ring {
    pub open spec fn wf(&self) -> bool {
        &&& self.capacity >= 2
        &&& self.slots@.len() == 2 * self.capacity
        &&& self.start <= self.end
        &&& self.end - self.start <= self.capacity
        &&& self.generation % 2 == 0
    }

    /// Channel `ch` of the slot that frame `frame` falls in.
    pub open spec fn sample(&self, frame: int, ch: int) -> i32 {
        self.slots@[2 * (frame % self.capacity as int) + ch]
    }

    pub open spec fn holds(&self, frame: int) -> bool {
        self.start <= frame < self.end
    }

    fn slot_of(&self, frame: u64) -> (r: usize)
        requires
            self.wf(),
        ensures
            r == 2 * (frame as int % self.capacity as int),
            r + 2 <= self.slots@.len(),
    {
        let at: u64 = frame % self.capacity;
        let samples: usize = self.slots.len();
        assert(2 * at + 2 <= samples);
        2 * (at as usize)
    }
}

/// What both ends see of a ring: the samples, and the span they stand for.
pub ghost struct Memory {
    pub slots: Seq<i32>,
    pub capacity: u64,
    pub start: u64,
    pub end: u64,
    pub generation: u64,
}

impl Memory {
    pub open spec fn sample(self, frame: int, ch: int) -> i32 {
        self.slots[2 * (frame % self.capacity as int) + ch]
    }

    pub open spec fn holds(self, frame: int) -> bool {
        self.start <= frame < self.end
    }
}

impl View for Ring {
    type V = Memory;

    open spec fn view(&self) -> Memory {
        Memory {
            slots: self.slots@,
            capacity: self.capacity,
            start: self.start,
            end: self.end,
            generation: self.generation,
        }
    }
}

/// With the first `n` samples of `src` put into the slots past the end.
pub open spec fn stored(m: Memory, src: Seq<i32>, n: nat) -> Memory
    decreases n,
{
    if n == 0 {
        m
    } else {
        let before = stored(m, src, (n - 1) as nat);
        let i = n - 1;
        Memory {
            slots: before.slots.update(
                2 * ((m.end + i / 2) % m.capacity as int) + i % 2,
                src[i],
            ),
            ..before
        }
    }
}

/// The window thread's end.
#[derive(Debug)]
pub struct RingWriter {
    pub capacity: u64,
}

/// The audio callback's end.
#[derive(Debug)]
pub struct RingReader {
    pub capacity: u64,
}

/// Allocates the ring and returns it with its two ends.
pub fn new(capacity_frames: usize) -> (r: (Ring, RingWriter, RingReader))
    requires
        capacity_frames >= 2,
        2 * capacity_frames <= usize::MAX,
    ensures
        r.0.wf(),
        r.0.capacity == capacity_frames,
        r.0.start == 0,
        r.0.end == 0,
        r.0.generation == 0,
        r.0.playhead == 0,
        forall|i: int| 0 <= i < r.0.slots@.len() ==> r.0.slots@[i] == 0,
        r.1.capacity == capacity_frames,
        r.2.capacity == capacity_frames,
{
    let samples: usize = capacity_frames * RING_CHANNELS;
    let mut slots: Vec<i32> = Vec::with_capacity(samples);
    while slots.len() < samples
        invariant
            slots@.len() <= samples,
            forall|i: int| 0 <= i < slots@.len() ==> slots@[i] == 0,
        decreases samples - slots@.len(),
    {
        slots.push(0);
    }
    let capacity: u64 = capacity_frames as u64;
    (
        Ring { slots, capacity, start: 0, end: 0, generation: 0, playhead: 0 },
        RingWriter { capacity },
        RingReader { capacity },
    )
}

/// Writes silence over everything. Zero is the absence of a sample, not a
/// scaled one.
pub fn silence(out: &mut [i32])
    ensures
        silent(final(out)@),
        final(out)@.len() == old(out)@.len(),
{
    let mut i: usize = 0;
    while i < out.len()
        invariant
            i <= out@.len(),
            out@.len() == old(out)@.len(),
            forall|k: int| 0 <= k < i ==> out@[k] == 0,
        decreases out@.len() - i,
    {
        out[i] = 0;
        i = i + 1;
    }
}

pub open spec fn silent(out: Seq<i32>) -> bool {
    forall|k: int| 0 <= k < out.len() ==> out[k] == 0
}

/// Stepping to the next frame steps to the next slot, or back to the first.
proof fn lemma_next_slot(frame: int, capacity: int)
    requires
        capacity > 0,
        frame >= 0,
    ensures
        (frame + 1) % capacity == (if frame % capacity + 1 == capacity {
            0
        } else {
            frame % capacity + 1
        }),
{
    vstd::arithmetic::div_mod::lemma_fundamental_div_mod(frame, capacity);
    let q = frame / capacity;
    let m = frame % capacity;
    if m + 1 == capacity {
        assert(frame + 1 == (q + 1) * capacity + 0) by (nonlinear_arith)
            requires
                frame == capacity * q + m,
                m + 1 == capacity,
        ;
        vstd::arithmetic::div_mod::lemma_fundamental_div_mod_converse(frame + 1, capacity, q + 1, 0);
    } else {
        assert(frame + 1 == q * capacity + (m + 1)) by (nonlinear_arith)
            requires
                frame == capacity * q + m,
        ;
        vstd::arithmetic::div_mod::lemma_fundamental_div_mod_converse(frame + 1, capacity, q, m + 1);
    }
}

/// Two frames less than a ring apart never share a slot.
proof fn lemma_slots_apart(a: int, b: int, capacity: int)
    requires
        0 <= a < b,
        b - a < capacity,
    ensures
        a % capacity != b % capacity,
{
    if a % capacity == b % capacity {
        vstd::arithmetic::div_mod::lemma_fundamental_div_mod(a, capacity);
        vstd::arithmetic::div_mod::lemma_fundamental_div_mod(b, capacity);
        let d = b / capacity - a / capacity;
        assert(b - a == capacity * d) by (nonlinear_arith)
            requires
                a == capacity * (a / capacity) + a % capacity,
                b == capacity * (b / capacity) + b % capacity,
                a % capacity == b % capacity,
                d == b / capacity - a / capacity,
        ;
        assert(false) by (nonlinear_arith)
            requires
                b - a == capacity * d,
                0 < b - a < capacity,
        ;
    }
}

impl RingWriter {
    pub open spec fn of(&self, ring: &Ring) -> bool {
        ring.wf() && self.capacity == ring.capacity
    }

    pub fn capacity(&self) -> (r: u64)
        ensures
            r == self.capacity,
    {
        self.capacity
    }

    /// The span currently readable, as track frame indices.
    pub fn resident(&self, ring: &Ring) -> (r: core::ops::Range<u64>)
        ensures
            r.start == ring.start,
            r.end == ring.end,
    {
        ring.start..ring.end
    }

    /// The reader's last published position. A hint: it may be a block old.
    pub fn playhead(&self, ring: &Ring) -> (r: u64)
        ensures
            r == ring.playhead,
    {
        ring.playhead
    }

    /// Throws the window away and restarts it empty at `frame`.
    ///
    /// The only operation that moves `start` backwards, so also the only one
    /// that moves the generation on: once on the way in and once on the way
    /// out, so that it is odd while the two halves of the span disagree.
    pub fn relocate(&mut self, ring: &mut Ring, frame: u64)
        requires
            old(self).of(old(ring)),
        ensures
            *final(self) == *old(self),
            final(self).of(final(ring)),
            final(ring).start == frame,
            final(ring).end == frame,
            final(ring).generation == (old(ring).generation + 2) % 0x1_0000_0000_0000_0000,
            final(ring).slots == old(ring).slots,
            final(ring).playhead == old(ring).playhead,
    {
        ring.generation = ring.generation.wrapping_add(1);
        ring.start = frame;
        ring.end = frame;
        ring.generation = ring.generation.wrapping_add(1);
    }

    /// Discards everything before `frame`, making room ahead. Clamped to the
    /// resident span.
    pub fn drop_before(&mut self, ring: &mut Ring, frame: u64)
        requires
            old(self).of(old(ring)),
        ensures
            *final(self) == *old(self),
            final(self).of(final(ring)),
            final(ring).start == (if frame < old(ring).start {
                old(ring).start
            } else if frame > old(ring).end {
                old(ring).end
            } else {
                frame
            }),
            final(ring).end == old(ring).end,
            final(ring).generation == old(ring).generation,
            final(ring).slots == old(ring).slots,
            final(ring).playhead == old(ring).playhead,
    {
        if frame > ring.end {
            ring.start = ring.end;
        } else if frame > ring.start {
            ring.start = frame;
        }
    }

    /// How many frames can be appended without overrunning the oldest resident
    /// frame.
    pub fn writable(&self, ring: &Ring) -> (r: u64)
        requires
            self.of(ring),
        ensures
            r == ring.capacity - (ring.end - ring.start),
    {
        ring.capacity - (ring.end - ring.start)
    }

    /// Appends interleaved stereo frames at the end of the resident span.
    ///
    /// Writing frame `end` reuses the slot last held by frame `end -
    /// capacity`, which is already below `start`: an append never clobbers
    /// anything the reader may still take.
    pub fn append(&mut self, ring: &mut Ring, src: &[i32])
        requires
            old(self).of(old(ring)),
            src@.len() % 2 == 0,
            src@.len() / 2 <= old(ring).capacity - (old(ring).end - old(ring).start),
            old(ring).end + src@.len() / 2 <= u64::MAX,
        ensures
            *final(self) == *old(self),
            final(self).of(final(ring)),
            final(ring).start == old(ring).start,
            final(ring).end == old(ring).end + src@.len() / 2,
            final(ring).generation == old(ring).generation,
            final(ring).playhead == old(ring).playhead,
            final(ring)@ == (Memory {
                end: final(ring).end,
                ..stored(old(ring)@, src@, src@.len())
            }),
            forall|f: int, ch: int|
                old(ring).holds(f) && 0 <= ch < 2 ==> #[trigger] final(ring).sample(f, ch) == old(ring).sample(f, ch),
            forall|f: int, ch: int|
                old(ring).end <= f < final(ring).end && 0 <= ch < 2 ==> #[trigger] final(ring).sample(f, ch) == src@[2 * (f - old(ring).end) + ch],
    {
        let frames: u64 = (src.len() / RING_CHANNELS) as u64;
        if frames == 0 {
            return;
        }
        let ghost before = *ring;
        let cap: u64 = ring.capacity;
        let end: u64 = ring.end;
        let mut slot: usize = ring.slot_of(end);
        let limit: usize = ring.slots.len();
        let mut n: u64 = 0;
        while n < frames
            invariant
                n <= frames,
                frames == src@.len() / 2,
                before.wf(),
                before.end == end,
                frames <= before.capacity - (before.end - before.start),
                end + frames <= u64::MAX,
                ring.capacity == before.capacity,
                ring.start == before.start,
                ring.end == before.end,
                ring.generation == before.generation,
                ring.playhead == before.playhead,
                ring.slots@.len() == before.slots@.len(),
                limit == ring.slots@.len(),
                slot == 2 * ((end + n) % before.capacity as int),
                slot + 2 <= limit,
                src@.len() == 2 * frames,
                ring@ == stored(before@, src@, (2 * n) as nat),
                forall|f: int, ch: int|
                    before.holds(f) && 0 <= ch < 2 ==> #[trigger] ring.sample(f, ch)
                        == before.sample(f, ch),
                forall|f: int, ch: int|
                    end <= f < end + n && 0 <= ch < 2 ==> #[trigger] ring.sample(f, ch) == src@[2
                        * (f - end) + ch],
            decreases frames - n,
        {
            let ghost held = *ring;
            let at: usize = 2 * (n as usize);
            ring.slots.set(slot, src[at]);
            ring.slots.set(slot + 1, src[at + 1]);
            proof {
                let c = before.capacity as int;
                let now = end + n;
                lemma_next_slot(now, c);
                reveal_with_fuel(stored, 3);
                assert((2 * n + 1) / 2 == n && (2 * n + 1) % 2 == 1);
                assert(ring@.slots == stored(before@, src@, (2 * (n + 1)) as nat).slots);
                assert forall|f: int, ch: int|
                    before.start <= f < now && 0 <= ch < 2 implies #[trigger] ring.sample(f, ch)
                    == held.sample(f, ch) by {
                    lemma_slots_apart(f, now, c);
                    assert(0 <= f % c < c);
                }
                assert forall|f: int, ch: int|
                    end <= f < now + 1 && 0 <= ch < 2 implies #[trigger] ring.sample(f, ch)
                    == src@[2 * (f - end) + ch] by {
                    if f == now {
                        assert(ring.sample(f, ch) == src@[at + ch]);
                    }
                }
            }
            slot = slot + 2;
            if slot == limit {
                slot = 0;
            }
            n = n + 1;
        }
        let ghost filled = *ring;
        ring.end = end + frames;
        assert forall|f: int, ch: int| #[trigger] ring.sample(f, ch) == filled.sample(f, ch) by {}
    }
}

/// Why a read could not be served in full.
#[derive(Debug, Clone, Copy, PartialEq, Eq, Structural)]
pub enum Miss {
    /// The window thread has not reached these frames yet, or the track ended.
    /// The callback's answer is silence, not a stall.
    NotResident,
    /// The frames were resident when the read began and were recycled while it
    /// ran: the window thread is being outrun.
    Overrun,
    /// The window was relocated mid-read.
    Relocated,
}

/// What a reader may copy, from the span as it took it: how many frames.
pub open spec fn readable(generation: u64, end: u64, start: u64, from: u64, frames: u64) -> Result<
    u64,
    Miss,
> {
    if frames == 0 {
        Ok(0)
    } else if generation % 2 == 1 {
        Err(Miss::Relocated)
    } else if from < start || from >= end {
        Err(Miss::NotResident)
    } else if frames < end - from {
        Ok(frames)
    } else {
        Ok((end - from) as u64)
    }
}

/// Whether what was copied from `from` on stands, from what was taken before
/// the copy and after it.
pub open spec fn confirmed(
    generation: u64,
    start_after: u64,
    generation_after: u64,
    from: u64,
) -> Result<(), Miss> {
    if generation_after != generation {
        Err(Miss::Relocated)
    } else if start_after > from {
        Err(Miss::Overrun)
    } else {
        Ok(())
    }
}

/// What a reader may copy, from the span it sampled: how many frames, from the
/// generation, the end and the start, in the order they are to be taken.
pub fn readable_now(generation: u64, end: u64, start: u64, from: u64, frames: u64) -> (r: Result<
    u64,
    Miss,
>)
    ensures
        r == readable(generation, end, start, from, frames),
{
    if frames == 0 {
        return Ok(0);
    }
    // Odd means a relocation is in flight, so the start and the end are not
    // two halves of the same span.
    if generation % 2 == 1 {
        return Err(Miss::Relocated);
    }
    if from < start || from >= end {
        return Err(Miss::NotResident);
    }
    if frames < end - from {
        Ok(frames)
    } else {
        Ok(end - from)
    }
}

/// Whether what was copied from `from` on can be trusted, from the start and
/// then the generation, taken again after the copy in that order: a relocation
/// that moves the start back between the two shows in the generation.
pub fn confirm(generation: u64, start_after: u64, generation_after: u64, from: u64) -> (r: Result<
    (),
    Miss,
>)
    ensures
        r == confirmed(generation, start_after, generation_after, from),
{
    if generation_after != generation {
        return Err(Miss::Relocated);
    }
    if start_after > from {
        return Err(Miss::Overrun);
    }
    Ok(())
}

impl RingReader {
    pub open spec fn of(&self, ring: &Ring) -> bool {
        ring.wf() && self.capacity == ring.capacity
    }

    pub fn capacity(&self) -> (r: u64)
        ensures
            r == self.capacity,
    {
        self.capacity
    }

    pub fn resident(&self, ring: &Ring) -> (r: core::ops::Range<u64>)
        ensures
            r.start == ring.start,
            r.end == (if ring.end < ring.start {
                ring.start
            } else {
                ring.end
            }),
    {
        let end: u64 = ring.end;
        let start: u64 = ring.start;
        if end < start {
            start..start
        } else {
            start..end
        }
    }

    /// Tells the window thread where the callback is. Called once per block.
    pub fn publish_playhead(&self, ring: &mut Ring, frame: u64)
        ensures
            *final(ring) == (Ring { playhead: frame, ..*old(ring) }),
    {
        ring.playhead = frame;
    }

    /// Copies `dst.len() / 2` frames starting at track frame `from`.
    ///
    /// All or nothing: half a period of real audio followed by half a period
    /// of stale samples is worse than a clean dropout. On a miss `dst` is
    /// silence, never stale samples. Reading backwards is the same call with a
    /// lower `from`.
    pub fn read_block(&self, ring: &Ring, from: u64, dst: &mut [i32]) -> (r: Result<(), Miss>)
        requires
            self.of(ring),
        ensures
            final(dst)@.len() == old(dst)@.len(),
            r == (if old(dst)@.len() / 2 == 0 || (ring.holds(from as int) && from + old(dst)@.len() / 2 <= ring.end) {
                Ok::<(), Miss>(())
            } else {
                Err(Miss::NotResident)
            }),
            r is Ok ==> served(ring, from as int, old(dst)@, final(dst)@, old(dst)@.len() as int / 2),
            r is Err ==> silent(final(dst)@),
    {
        let frames: u64 = (dst.len() / RING_CHANNELS) as u64;
        match self.copy(ring, from, dst, frames) {
            Ok(got) => {
                if got == frames {
                    Ok(())
                } else {
                    silence(dst);
                    Err(Miss::NotResident)
                }
            },
            Err(e) => Err(e),
        }
    }

    /// The last period of a track: copies what is resident and leaves the rest
    /// silent, returning how many frames were real.
    ///
    /// Short reads are allowed here only because the caller has established
    /// that this is the end of the track.
    pub fn read_tail(&self, ring: &Ring, from: u64, dst: &mut [i32]) -> (r: Result<usize, Miss>)
        requires
            self.of(ring),
        ensures
            final(dst)@.len() == old(dst)@.len(),
            match r {
                Ok(got) => {
                    &&& got == tail_frames(ring, from as int, old(dst)@.len() as int / 2)
                    &&& got > 0 ==> ring.holds(from as int)
                    &&& old(dst)@.len() / 2 == 0 || ring.holds(from as int)
                    &&& forall|i: int|
                        0 <= i < 2 * got ==> #[trigger] final(dst)@[i] == ring.sample(
                            from + i / 2,
                            i % 2,
                        )
                    &&& forall|i: int| 2 * got <= i < final(dst)@.len() ==> final(dst)@[i] == 0
                },
                Err(e) => e == Miss::NotResident && old(dst)@.len() / 2 > 0 && !ring.holds(
                    from as int,
                ) && silent(final(dst)@),
            },
    {
        let frames: u64 = (dst.len() / RING_CHANNELS) as u64;
        match self.copy(ring, from, dst, frames) {
            Ok(got) => {
                let kept: usize = 2 * (got as usize);
                let ghost copied = dst@;
                let mut i: usize = kept;
                while i < dst.len()
                    invariant
                        kept <= i <= dst@.len(),
                        dst@.len() == copied.len(),
                        forall|k: int| 0 <= k < kept ==> dst@[k] == copied[k],
                        forall|k: int| kept <= k < i ==> dst@[k] == 0,
                    decreases dst@.len() - i,
                {
                    dst[i] = 0;
                    i = i + 1;
                }
                assert forall|k: int| 0 <= k < 2 * got implies #[trigger] dst@[k] == ring.sample(
                    from + k / 2,
                    k % 2,
                ) by {
                    assert(copied[k] == ring.sample(from + k / 2, k % 2));
                }
                Ok(got as usize)
            },
            Err(e) => Err(e),
        }
    }

    /// The number of frames copied, which is as many as are resident from
    /// `from` on and no more than asked, or a miss where `from` itself is not
    /// resident.
    fn copy(&self, ring: &Ring, from: u64, dst: &mut [i32], frames: u64) -> (r: Result<u64, Miss>)
        requires
            self.of(ring),
            2 * frames <= old(dst)@.len(),
        ensures
            final(dst)@.len() == old(dst)@.len(),
            match r {
                Ok(got) => {
                    &&& frames == 0 || ring.holds(from as int)
                    &&& got == tail_frames(ring, from as int, frames as int)
                    &&& served(ring, from as int, old(dst)@, final(dst)@, got as int)
                },
                Err(e) => e == Miss::NotResident && frames > 0 && !ring.holds(from as int)
                    && silent(final(dst)@),
            },
    {
        let generation: u64 = ring.generation;
        let end: u64 = ring.end;
        let start: u64 = ring.start;
        let serve: u64 = match readable_now(generation, end, start, from, frames) {
            Ok(serve) => serve,
            Err(e) => {
                silence(dst);
                return Err(e);
            },
        };
        if serve == 0 {
            return Ok(0);
        }
        let ghost c = ring.capacity as int;
        let mut slot: usize = ring.slot_of(from);
        let limit: usize = ring.slots.len();
        let mut n: u64 = 0;
        while n < serve
            invariant
                n <= serve,
                serve <= frames,
                2 * frames <= dst@.len(),
                ring.wf(),
                c == ring.capacity,
                from + serve <= ring.end,
                limit == ring.slots@.len(),
                slot == 2 * ((from + n) % c),
                slot + 2 <= limit,
                dst@.len() == old(dst)@.len(),
                served(ring, from as int, old(dst)@, dst@, n as int),
            decreases serve - n,
        {
            let at: usize = 2 * (n as usize);
            let ghost held = dst@;
            dst[at] = ring.slots[slot];
            dst[at + 1] = ring.slots[slot + 1];
            proof {
                lemma_next_slot(from + n, c);
                assert forall|i: int| 0 <= i < 2 * (n + 1) implies #[trigger] dst@[i]
                    == ring.sample(from + i / 2, i % 2) by {
                    if i >= 2 * n {
                        assert(i / 2 == n);
                    } else {
                        assert(dst@[i] == held[i]);
                    }
                }
            }
            slot = slot + 2;
            if slot == limit {
                slot = 0;
            }
            n = n + 1;
        }
        match confirm(generation, ring.start, ring.generation, from) {
            Ok(()) => Ok(serve),
            Err(e) => {
                silence(dst);
                Err(e)
            },
        }
    }

    /// One frame, for a fractional read.
    pub fn read_frame(&self, ring: &Ring, frame: u64) -> (r: Result<[i32; 2], Miss>)
        requires
            self.of(ring),
        ensures
            match r {
                Ok(f) => ring.holds(frame as int) && f@[0] == ring.sample(frame as int, 0) && f@[1]
                    == ring.sample(frame as int, 1),
                Err(e) => e == Miss::NotResident && !ring.holds(frame as int),
            },
    {
        let mut f: Vec<i32> = Vec::new();
        f.push(0);
        f.push(0);
        match self.read_block(ring, frame, f.as_mut_slice()) {
            Ok(()) => {
                assert(f@[0] == ring.sample(frame + 0int / 2, 0int % 2));
                assert(f@[1] == ring.sample(frame + 1int / 2, 1int % 2));
                Ok([f[0], f[1]])
            },
            Err(e) => Err(e),
        }
    }
}

/// The first `frames` frames of `now` are the ring's from `from` on, and what
/// follows them is what was there.
pub open spec fn served(ring: &Ring, from: int, was: Seq<i32>, now: Seq<i32>, frames: int) -> bool {
    &&& forall|i: int| 0 <= i < 2 * frames ==> #[trigger] now[i] == ring.sample(from + i / 2, i % 2)
    &&& forall|i: int| 2 * frames <= i < now.len() ==> now[i] == was[i]
}

/// How many of `frames` frames from `from` on are resident.
pub open spec fn tail_frames(ring: &Ring, from: int, frames: int) -> int {
    if frames < ring.end - from {
        frames
    } else if frames == 0 {
        0
    } else {
        ring.end - from
    }
}

// Reading while the other side writes.

/// The smallest steps the writing side takes, each one store:
/// a sample goes into a slot past the end, where no resident frame lives; the
/// start moves up; the end moves up over what was stored; the generation turns
/// odd, and while it is odd both ends of the span move freely; the generation
/// turns even again over a span that fits the ring.
pub open spec fn writer_step(a: Memory, b: Memory) -> bool {
    &&& b.capacity == a.capacity
    &&& b.slots.len() == a.slots.len()
    &&& {
        ||| a.generation % 2 == 0 && b.generation == a.generation && b.start == a.start && b.end
            == a.end && exists|f: int, ch: int, v: i32|
            a.end <= f < a.start + a.capacity && 0 <= ch < 2 && #[trigger] stores(a, b, f, ch, v)
        ||| a.generation % 2 == 0 && b.generation == a.generation && b.slots == a.slots && b.end
            == a.end && a.start <= b.start <= a.end
        ||| a.generation % 2 == 0 && b.generation == a.generation && b.slots == a.slots && b.start
            == a.start && a.end <= b.end <= a.start + a.capacity
        ||| a.generation % 2 == 0 && b.generation == a.generation + 1 && b.slots == a.slots
            && b.start == a.start && b.end == a.end
        ||| a.generation % 2 == 1 && b.generation == a.generation && b.slots == a.slots
        ||| a.generation % 2 == 1 && b.generation == a.generation + 1 && b.slots == a.slots
            && b.start == a.start && b.end == a.end && b.start <= b.end <= b.start + b.capacity
    }
}

pub open spec fn stores(a: Memory, b: Memory, f: int, ch: int, v: i32) -> bool {
    b.slots == a.slots.update(2 * (f % a.capacity as int) + ch, v)
}

/// What the ring went through, one step of the writer after another.
pub open spec fn history(states: Seq<Memory>) -> bool {
    &&& forall|k: int|
        0 <= k < states.len() ==> (#[trigger] states[k]).capacity >= 2 && states[k].slots.len()
            == 2 * states[k].capacity
    &&& forall|k: int|
        0 < k < states.len() ==> writer_step(states[k - 1], #[trigger] states[k])
}

proof fn lemma_generations_grow(states: Seq<Memory>, i: int, j: int)
    requires
        history(states),
        0 <= i <= j < states.len(),
    ensures
        states[i].generation <= states[j].generation,
        states[i].capacity == states[j].capacity,
    decreases j - i,
{
    if i < j {
        lemma_generations_grow(states, i, j - 1);
        assert(writer_step(states[j - 1], states[j]));
    }
}

/// Within one generation neither end of the span moves back.
proof fn lemma_span_moves_up(states: Seq<Memory>, i: int, j: int)
    requires
        history(states),
        0 <= i <= j < states.len(),
        states[i].generation % 2 == 0,
        states[i].generation == states[j].generation,
    ensures
        states[i].start <= states[j].start,
        states[i].end <= states[j].end,
    decreases j - i,
{
    if i < j {
        lemma_generations_grow(states, i, j - 1);
        lemma_generations_grow(states, j - 1, j);
        lemma_span_moves_up(states, i, j - 1);
        assert(writer_step(states[j - 1], states[j]));
    }
}

/// Within one generation, a frame published at `i` and not yet dropped at `z`
/// keeps its slot as it was at every moment in between.
proof fn lemma_slot_kept(states: Seq<Memory>, i: int, j: int, z: int, f: int, ch: int)
    requires
        history(states),
        0 <= i <= j <= z < states.len(),
        states[i].generation % 2 == 0,
        states[i].generation == states[z].generation,
        0 <= f < states[i].end,
        states[z].start <= f,
        0 <= ch < 2,
    ensures
        states[j].sample(f, ch) == states[i].sample(f, ch),
    decreases j - i,
{
    if i < j {
        lemma_slot_kept(states, i, j - 1, z, f, ch);
        lemma_generations_grow(states, i, j - 1);
        lemma_generations_grow(states, j - 1, j);
        lemma_generations_grow(states, j, z);
        lemma_span_moves_up(states, i, j - 1);
        lemma_span_moves_up(states, j - 1, z);
        let a = states[j - 1];
        let b = states[j];
        assert(writer_step(a, b));
        if a.slots != b.slots {
            let (g, d, v) = choose|g: int, d: int, v: i32|
                a.end <= g < a.start + a.capacity && 0 <= d < 2 && #[trigger] stores(a, b, g, d, v);
            lemma_slots_apart(f, g, a.capacity as int);
            assert(0 <= f % a.capacity as int);
            assert(0 <= g % a.capacity as int);
        }
    }
}

/// A read that was let through and confirmed is real audio: every frame it
/// served was published when the end was taken, and the samples copied, at
/// whatever moment, are the ones that frame had then. Never stale, never torn.
///
/// The moments at which the reader takes the generation, the end, the start,
/// each sample, the start again and the generation again are `t0` to `t5`;
/// the writer may do anything in between.
pub proof fn law_a_confirmed_read_is_what_was_published(
    states: Seq<Memory>,
    t0: int,
    t1: int,
    t2: int,
    t3: int,
    t4: int,
    t5: int,
    from: u64,
    frames: u64,
    f: int,
    ch: int,
)
    requires
        history(states),
        0 <= t0 <= t1 <= t2 <= t3 <= t4 <= t5 < states.len(),
        readable(
            states[t0].generation,
            states[t1].end,
            states[t2].start,
            from,
            frames,
        ) matches Ok(served) && from <= f < from + served,
        0 <= ch < 2,
        confirmed(states[t0].generation, states[t4].start, states[t5].generation, from) is Ok,
    ensures
        states[t1].holds(f),
        states[t3].sample(f, ch) == states[t1].sample(f, ch),
{
    lemma_generations_grow(states, t0, t1);
    lemma_generations_grow(states, t1, t4);
    lemma_generations_grow(states, t4, t5);
    lemma_span_moves_up(states, t1, t4);
    lemma_slot_kept(states, t1, t3, t4, f, ch);
}

pub proof fn lemma_stored(m: Memory, src: Seq<i32>, n: nat)
    requires
        m.capacity >= 2,
        m.slots.len() == 2 * m.capacity,
        n <= src.len(),
    ensures
        stored(m, src, n).slots.len() == m.slots.len(),
        stored(m, src, n) == (Memory { slots: stored(m, src, n).slots, ..m }),
    decreases n,
{
    if n > 0 {
        lemma_stored(m, src, (n - 1) as nat);
    }
}

/// What a slot holds once samples were put past the end: the frame's own where
/// it is one of them, and what it held before for a frame still in the ring.
pub proof fn lemma_stored_sample(m: Memory, src: Seq<i32>, n: nat, f: int, ch: int)
    requires
        m.capacity >= 2,
        m.slots.len() == 2 * m.capacity,
        m.start <= m.end,
        m.end + (n + 1) / 2 <= m.start + m.capacity,
        n <= src.len(),
        m.start <= f < m.end + (n + 1) / 2,
        0 <= ch < 2,
    ensures
        stored(m, src, n).sample(f, ch) == (if m.end <= f && 2 * (f - m.end) + ch < n {
            src[2 * (f - m.end) + ch]
        } else {
            m.sample(f, ch)
        }),
    decreases n,
{
    lemma_stored(m, src, n);
    if n > 0 {
        let i = n - 1;
        let c = m.capacity as int;
        let g = m.end + i / 2;
        lemma_stored(m, src, (n - 1) as nat);
        if f < m.end + n / 2 {
            lemma_stored_sample(m, src, (n - 1) as nat, f, ch);
        } else {
            // The first channel of a frame nothing has been stored for yet.
            lemma_stored_below(m, src, (n - 1) as nat, f, ch);
        }
        assert(0 <= f % c < c && 0 <= g % c < c);
        if f != g {
            if f < g {
                lemma_slots_apart(f, g, c);
            } else {
                lemma_slots_apart(g, f, c);
            }
        }
    }
}

/// A frame past every one that was stored keeps what its slot held.
proof fn lemma_stored_below(m: Memory, src: Seq<i32>, n: nat, f: int, ch: int)
    requires
        m.capacity >= 2,
        m.slots.len() == 2 * m.capacity,
        n <= src.len(),
        m.end + n / 2 <= f < m.end + m.capacity,
        n % 2 == 0,
        0 <= ch < 2,
    ensures
        stored(m, src, n).sample(f, ch) == m.sample(f, ch),
    decreases n,
{
    lemma_stored(m, src, n);
    if n > 0 {
        let c = m.capacity as int;
        let g = m.end + (n - 1) / 2;
        reveal_with_fuel(stored, 3);
        lemma_stored(m, src, (n - 1) as nat);
        lemma_stored(m, src, (n - 2) as nat);
        lemma_stored_below(m, src, (n - 2) as nat, f, ch);
        assert(0 <= f % c < c && 0 <= g % c < c);
        assert((n - 2) / 2 == (n - 1) / 2);
        lemma_slots_apart(g, f, c);
    }
}

/// Appending is made of the writer's steps: one store for each sample, and
/// then the end moves over them.
pub proof fn law_an_append_is_made_of_the_writers_steps(ring: Ring, src: Seq<i32>)
    requires
        ring.wf(),
        src.len() % 2 == 0,
        src.len() / 2 <= ring.capacity - (ring.end - ring.start),
        ring.end + src.len() / 2 <= u64::MAX,
    ensures
        history(
            Seq::new(
                src.len() + 1,
                |k: int| stored(ring@, src, k as nat),
            ).push(
                Memory {
                    end: (ring.end + src.len() / 2) as u64,
                    ..stored(ring@, src, src.len())
                },
            ),
        ),
{
    let m = ring@;
    let states = Seq::new(src.len() + 1, |k: int| stored(m, src, k as nat)).push(
        Memory { end: (m.end + src.len() / 2) as u64, ..stored(m, src, src.len()) },
    );
    assert forall|k: int| 0 <= k < states.len() implies (#[trigger] states[k]).capacity >= 2
        && states[k].slots.len() == 2 * states[k].capacity by {
        lemma_stored(m, src, if k <= src.len() { k as nat } else { src.len() });
    }
    assert forall|k: int| 0 < k < states.len() implies writer_step(
        states[k - 1],
        #[trigger] states[k],
    ) by {
        if k <= src.len() {
            lemma_stored(m, src, (k - 1) as nat);
            lemma_stored(m, src, k as nat);
            let i = k - 1;
            assert(stores(states[k - 1], states[k], m.end + i / 2, i % 2, src[i]));
        } else {
            lemma_stored(m, src, src.len());
        }
    }
}

/// Dropping and relocating are made of the writer's steps: a drop is one, and
/// a relocation turns the generation odd, moves the span, and turns it even.
/// A generation is taken not to come round while a reader looks on.
pub proof fn law_the_span_moves_by_the_writers_steps(ring: Ring, frame: u64)
    requires
        ring.wf(),
        ring.generation + 2 <= u64::MAX,
    ensures
        ring.start <= frame <= ring.end ==> writer_step(ring@, Memory { start: frame, ..ring@ }),
        history(
            seq![
                ring@,
                Memory { generation: (ring.generation + 1) as u64, ..ring@ },
                Memory { generation: (ring.generation + 1) as u64, start: frame, ..ring@ },
                Memory {
                    generation: (ring.generation + 1) as u64,
                    start: frame,
                    end: frame,
                    ..ring@
                },
                Memory {
                    generation: (ring.generation + 2) as u64,
                    start: frame,
                    end: frame,
                    ..ring@
                },
            ],
        ),
{
}

/// A ring is as long as two minutes and the bytes there are allow, eight to a
/// frame, and no longer; it is never shorter than two frames.
pub proof fn law_how_long_a_ring_is(rate: int, window_bytes: int)
    requires
        rate >= 0,
        window_bytes >= 0,
    ensures
        ({
            let n = frames_for(rate, window_bytes);
            &&& n >= 2
            &&& n > 2 ==> 8 * n <= window_bytes && n <= 120 * rate
            &&& 8 * (n + 1) > window_bytes || n + 1 > 120 * rate
        }),
{
}

/// A read is served where the ring is not being moved and its first frame is
/// there, with as many frames as were asked for or as there are.
pub proof fn law_what_a_read_is_served(
    generation: u64,
    end: u64,
    start: u64,
    from: u64,
    frames: u64,
)
    requires
        frames > 0,
    ensures
        readable(generation, end, start, from, frames) is Ok <==> generation % 2 == 0 && start
            <= from < end,
        readable(generation, end, start, from, frames) matches Ok(n) ==> n <= frames && from + n
            <= end && (n == frames || from + n == end),
        generation % 2 == 1 ==> readable(generation, end, start, from, frames) == Err::<u64, Miss>(
            Miss::Relocated,
        ),
        readable(generation, end, start, from, 0) == Ok::<u64, Miss>(0),
{
}

/// What is stored is what is read: appended samples stand at the frames behind
/// the end, each in its channel, and no frame that was held is touched.
pub proof fn law_what_is_stored_is_what_is_read(
    m: Memory,
    src: Seq<i32>,
    n: nat,
    frame: int,
    ch: int,
)
    requires
        m.capacity >= 2,
        m.slots.len() == 2 * m.capacity,
        n <= src.len(),
        n <= 2 * (m.capacity - (m.end - m.start)),
        m.start <= m.end,
        0 <= ch < 2,
    ensures
        m.start <= frame < m.end ==> stored(m, src, n).sample(frame, ch) == m.sample(frame, ch),
        m.end <= frame && 2 * (frame - m.end) + ch < n ==> stored(m, src, n).sample(frame, ch)
            == src[2 * (frame - m.end) + ch],
        stored(m, src, n).slots.len() == m.slots.len(),
        stored(m, src, n).capacity == m.capacity,
    decreases n,
{
    if n > 0 {
        let k = (n - 1) as nat;
        law_what_is_stored_is_what_is_read(m, src, k, frame, ch);
        let put = m.end + k / 2;
        let c = m.capacity as int;
        assert(0 <= put % c < c);
        assert(0 <= frame % c < c);
        if m.start <= frame < m.end || (m.end <= frame && 2 * (frame - m.end) + ch < k) {
            if frame != put {
                assert(frame % c != put % c) by {
                    if frame % c == put % c {
                        vstd::arithmetic::div_mod::lemma_fundamental_div_mod(frame, c);
                        vstd::arithmetic::div_mod::lemma_fundamental_div_mod(put, c);
                        let (a, b) = (frame / c, put / c);
                        assert(put - frame == c * b - c * a);
                        assert(c * b - c * a == c * (b - a)) by (nonlinear_arith);
                        let d = b - a;
                        assert(0 < put - frame < c);
                        assert(!(0 < c * d < c)) by (nonlinear_arith)
                            requires
                                c > 0,
                        ;
                    }
                }
            }
        }
    }
}

} // verus!
