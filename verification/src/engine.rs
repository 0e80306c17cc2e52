//! The audio callback.
//!
//! It reads the ring and nothing else. Audio is emitted only at exactly unity
//! rate from an exactly whole position; anything else produces silence and
//! says so, because an approximation would sound roughly right and quietly
//! stop being bit-perfect.

use vstd::prelude::*;

use crate::file::{law_the_shifts_are_lossless, Depth, RING_CHANNELS};
use crate::ring::{
    lemma_stored, lemma_stored_sample, silence, silent, stored, tail_frames, Memory, Miss, Ring,
    RingReader,
};
use crate::transport::{
    paused, played, seeking, whole, whole_frame, State, Transport, RATE_PAUSED, RATE_UNITY, UNIT,
};

verus! {

/// What one period did.
#[derive(Debug, Clone, Copy, PartialEq, Eq, Structural)]
pub enum Outcome {
    /// Real audio, bit-identical to the source.
    Played { frames: usize },
    /// The last period of the track: `frames` real, the rest silent.
    PlayedTail { frames: usize },
    /// Silence, and the position does not move.
    Paused,
    /// FF or REW held. The position moves and no audio is produced.
    Seeking,
    /// The window thread has not reached here. Silence.
    Missed(Miss),
    /// The position is at or past the last frame.
    EndOfTrack,
    /// A rate or position that cannot be served without a resampler. Silence,
    /// deliberately, rather than an approximation that would sound fine.
    NeedsResampler { rate: i64, fractional: bool },
}

/// The callback's own state.
#[derive(Debug)]
pub struct Engine {
    /// Thousandths of a frame.
    pub position: i128,
    /// The track's length in frames, so the last period can be served short
    /// instead of failing as an underrun.
    pub track_frames: u64,
}

/// A position moved, and kept inside the track.
pub open spec fn moved(position: int, by: int, track_frames: int) -> int {
    if position + by < 0 {
        0
    } else if position + by > 1000 * track_frames {
        1000 * track_frames
    } else {
        position + by
    }
}

/// What a period does from here: what it reports, and where it leaves the
/// position. `frames` is the period, and `ring` is what can be read.
pub open spec fn period(
    position: int,
    track_frames: int,
    ring: &Ring,
    frames: int,
    rate: i64,
    quiet: bool,
) -> (Outcome, int) {
    let from = whole(position) as int;
    if quiet && rate != RATE_PAUSED {
        (Outcome::Seeking, moved(position, rate * frames, track_frames))
    } else if position >= 1000 * track_frames {
        (Outcome::EndOfTrack, position)
    } else if rate == RATE_PAUSED {
        (Outcome::Paused, position)
    } else if rate != RATE_UNITY || position % 1000 != 0 {
        (Outcome::NeedsResampler { rate, fractional: position % 1000 != 0 }, position)
    } else if track_frames - from < frames {
        if ring.holds(from) {
            let got = tail_frames(ring, from, frames);
            (
                Outcome::PlayedTail { frames: got as usize },
                moved(position, 1000 * got, track_frames),
            )
        } else {
            (Outcome::Missed(Miss::NotResident), position)
        }
    } else if frames == 0 || (ring.holds(from) && from + frames <= ring.end) {
        (Outcome::Played { frames: frames as usize }, moved(position, 1000 * frames, track_frames))
    } else {
        (Outcome::Missed(Miss::NotResident), position)
    }
}

/// How many frames of the period are the track's.
pub open spec fn audible(outcome: Outcome) -> int {
    match outcome {
        Outcome::Played { frames } => frames as int,
        Outcome::PlayedTail { frames } => frames as int,
        _ => 0,
    }
}

/// The frames of a period that were played are the ring's, from the position
/// on, sample for sample, and every other sample is silence.
pub open spec fn period_out(outcome: Outcome, ring: &Ring, position: int, out: Seq<i32>) -> bool {
    &&& forall|i: int|
        0 <= i < 2 * audible(outcome) && i < out.len() ==> #[trigger] out[i] == ring.sample(
            whole(position) + i / 2,
            i % 2,
        )
    &&& forall|i: int| 2 * audible(outcome) <= i < out.len() ==> out[i] == 0
}

/// Where a period starts from: where a queued seek lands, inside the track, or
/// where the position was.
pub open spec fn started(position: int, seek: Option<u64>, track_frames: u64) -> int {
    match seek {
        Some(target) => if target < track_frames {
            1000 * target
        } else {
            1000 * track_frames
        },
        None => position,
    }
}

impl Engine {
    /// The position is one that a period's step cannot carry out of range.
    pub open spec fn wf(&self) -> bool {
        -0x4000_0000_0000_0000_0000_0000_0000_0000 <= self.position
            <= 0x4000_0000_0000_0000_0000_0000_0000_0000
    }

    pub fn new(track_frames: u64) -> (r: Engine)
        ensures
            r.wf(),
            r.position == 0,
            r.track_frames == track_frames,
    {
        Engine::at(track_frames, 0)
    }

    /// Starting from `position` rather than from zero, so that a load has one
    /// answer to where it starts: the transport's.
    pub fn at(track_frames: u64, position: i128) -> (r: Engine)
        ensures
            r.position == position,
            r.track_frames == track_frames,
    {
        Engine { position, track_frames }
    }

    pub fn position(&self) -> (r: i128)
        ensures
            r == self.position,
    {
        self.position
    }

    /// Fills one output period, interleaved stereo in the ring's own layout.
    pub fn fill(
        &mut self,
        t: &mut Transport,
        reader: &RingReader,
        ring: &mut Ring,
        out: &mut [i32],
    ) -> (r: Outcome)
        requires
            old(self).wf(),
            old(t).wf(),
            reader.of(old(ring)),
            old(out)@.len() % 2 == 0,
        ensures
            ({
                let from = started(old(self).position as int, old(t).seek, old(self).track_frames);
                let (outcome, to) = period(
                    from,
                    old(self).track_frames as int,
                    old(ring),
                    old(out)@.len() as int / 2,
                    old(t).rate,
                    old(t).silent,
                );
                &&& r == outcome
                &&& final(self).position == to
                &&& final(out)@.len() == old(out)@.len()
                &&& period_out(outcome, old(ring), from, final(out)@)
                &&& *final(t) == (Transport { position: to as i128, seek: None, ..*old(t) })
                &&& *final(ring) == (Ring { playhead: whole(to), ..*old(ring) })
            }),
            final(self).wf(),
            final(self).track_frames == old(self).track_frames,
    {
        let frames: u64 = (out.len() / RING_CHANNELS) as u64;
        // A queued seek is absolute and consumed exactly once: applied,
        // published, and only then retired. Clearing it first leaves an
        // interval in which no seek is pending and the position still reads as
        // it was before the seek.
        if let Some(target) = t.peek_seek() {
            let landed: u64 = if target < self.track_frames {
                target
            } else {
                self.track_frames
            };
            self.position = UNIT * (landed as i128);
            t.publish_position(self.position);
            t.consumed_seek(target);
        }
        // One reading of the pair the branches depend on.
        let (rate, quiet) = t.motion();
        let outcome: Outcome = self.step(reader, ring, out, frames, rate, quiet);
        // Publish after the decision, so the display and the window thread see
        // where the audio actually is.
        t.publish_position(self.position);
        reader.publish_playhead(ring, whole_frame(self.position));
        outcome
    }

    fn step(
        &mut self,
        reader: &RingReader,
        ring: &Ring,
        out: &mut [i32],
        frames: u64,
        rate: i64,
        quiet: bool,
    ) -> (r: Outcome)
        requires
            old(self).wf(),
            reader.of(ring),
            old(out)@.len() == 2 * frames,
        ensures
            (r, final(self).position as int) == period(
                old(self).position as int,
                old(self).track_frames as int,
                ring,
                frames as int,
                rate,
                quiet,
            ),
            final(out)@.len() == old(out)@.len(),
            period_out(r, ring, old(self).position as int, final(out)@),
            final(self).wf(),
            final(self).track_frames == old(self).track_frames,
    {
        let samples: usize = out.len();
        assert(2 * frames == samples);
        let last: i128 = UNIT * (self.track_frames as i128);
        // A silent seek is a position operation and has to work at the
        // boundaries, so it comes before the end of the track: a deck that has
        // played to the end can be rewound out of it.
        if quiet && rate != RATE_PAUSED {
            silence(out);
            proof {
                lemma_step_fits(rate, frames);
            }
            self.advance((rate as i128) * (frames as i128));
            return Outcome::Seeking;
        }
        if self.position >= last {
            silence(out);
            return Outcome::EndOfTrack;
        }
        if rate == RATE_PAUSED {
            silence(out);
            return Outcome::Paused;
        }
        let fractional: bool = self.position % UNIT != 0;
        if rate != RATE_UNITY || fractional {
            silence(out);
            return Outcome::NeedsResampler { rate, fractional };
        }
        let from: u64 = whole_frame(self.position);
        let remaining: u64 = self.track_frames - from;
        if remaining < frames {
            // The genuine last period, where a short read is expected.
            return match reader.read_tail(ring, from, out) {
                Ok(got) => {
                    self.advance(UNIT * (got as i128));
                    Outcome::PlayedTail { frames: got }
                },
                Err(e) => Outcome::Missed(e),
            };
        }
        match reader.read_block(ring, from, out) {
            Ok(()) => {
                self.advance(UNIT * (frames as i128));
                Outcome::Played { frames: frames as usize }
            },
            // The position is where the audio is, not where a clock is: it
            // does not advance on a miss, so playback resumes where it
            // stopped, and a window not yet filled at frame zero is no skipped
            // intro.
            Err(e) => {
                silence(out);
                Outcome::Missed(e)
            },
        }
    }

    /// Moves the position, kept inside the track.
    fn advance(&mut self, by: i128)
        requires
            old(self).wf(),
            -0x4000_0000_0000_0000_0000_0000_0000_0000 < by
                < 0x4000_0000_0000_0000_0000_0000_0000_0000,
        ensures
            final(self).position == moved(
                old(self).position as int,
                by as int,
                old(self).track_frames as int,
            ),
            final(self).wf(),
            final(self).track_frames == old(self).track_frames,
    {
        let last: i128 = UNIT * (self.track_frames as i128);
        let to: i128 = self.position + by;
        self.position = if to < 0 {
            0
        } else if to > last {
            last
        } else {
            to
        };
    }
}

proof fn lemma_step_fits(rate: i64, frames: u64)
    requires
        frames <= 0x7fff_ffff_ffff_ffff,
    ensures
        -0x4000_0000_0000_0000_0000_0000_0000_0000 < rate * frames
            < 0x4000_0000_0000_0000_0000_0000_0000_0000,
{
    assert(-0x4000_0000_0000_0000_0000_0000_0000_0000 < rate * frames
        < 0x4000_0000_0000_0000_0000_0000_0000_0000) by (nonlinear_arith)
        requires
            frames <= 0x7fff_ffff_ffff_ffff,
            -0x8000_0000_0000_0000 <= rate <= 0x7fff_ffff_ffff_ffff,
    ;
}

/// A position inside the track.
pub open spec fn inside(position: int, track_frames: int) -> bool {
    0 <= position <= 1000 * track_frames
}

/// Whatever a period does, it leaves the position inside the track: REW cannot
/// drive it negative, and neither FF nor a seek past the end can drive it out.
pub proof fn law_the_position_stays_in_the_track(
    position: int,
    seek: Option<u64>,
    track_frames: u64,
    ring: &Ring,
    frames: int,
    rate: i64,
    quiet: bool,
)
    requires
        inside(position, track_frames as int),
        frames >= 0,
    ensures
        inside(started(position, seek, track_frames), track_frames as int),
        inside(
            period(
                started(position, seek, track_frames),
                track_frames as int,
                ring,
                frames,
                rate,
                quiet,
            ).1,
            track_frames as int,
        ),
{
}

/// Only audio and a held seek move the position: a pause, a miss, a refusal
/// and the end of the track leave it where it is, so nothing is ever skipped.
pub proof fn law_only_audio_and_seeking_move_the_position(
    position: int,
    track_frames: int,
    ring: &Ring,
    frames: int,
    rate: i64,
    quiet: bool,
)
    ensures
        ({
            let (outcome, to) = period(position, track_frames, ring, frames, rate, quiet);
            audible(outcome) == 0 && !(outcome is Seeking) && !(outcome is PlayedTail)
                && !(outcome is Played) ==> to == position
        }),
{
}

/// At unity the position is exact: it advances by precisely the frames that
/// were played, and from a whole frame it lands on a whole frame.
pub proof fn law_playing_is_exact(
    position: int,
    track_frames: int,
    ring: &Ring,
    frames: int,
    rate: i64,
    quiet: bool,
)
    requires
        inside(position, track_frames),
        0 <= frames <= usize::MAX,
        ring.wf(),
        ring.end <= track_frames,
    ensures
        ({
            let (outcome, to) = period(position, track_frames, ring, frames, rate, quiet);
            (outcome is Played || outcome is PlayedTail) ==> position % 1000 == 0 && to == position
                + 1000 * audible(outcome) && to % 1000 == 0
        }),
{
    lemma_tail_fits(ring, whole(position) as int, frames);
}

proof fn lemma_tail_fits(ring: &Ring, from: int, frames: int)
    requires
        ring.wf(),
        0 <= frames <= usize::MAX,
    ensures
        ring.holds(from) ==> 0 <= tail_frames(ring, from, frames) <= frames,
{
}

/// FF followed by REW over as many frames retraces exactly, wherever neither
/// met an end of the track.
pub proof fn law_rewinding_retraces(position: int, by: int, track_frames: int)
    requires
        inside(position, track_frames),
        inside(position + by, track_frames),
    ensures
        moved(moved(position, by, track_frames), -by, track_frames) == position,
{
}

/// A held seek works at the end of a track as anywhere else: REW can rewind
/// out of it.
pub proof fn law_a_seek_leaves_the_end_of_the_track(
    track_frames: int,
    ring: &Ring,
    frames: int,
    rate: i64,
)
    requires
        rate != RATE_PAUSED,
    ensures
        period(1000 * track_frames, track_frames, ring, frames, rate, true) == (
            Outcome::Seeking,
            moved(1000 * track_frames, rate * frames, track_frames),
        ),
{
}

/// What the source holds, as the ring carries it: channel `ch` of frame `f`,
/// left-aligned by the read and right-aligned for the ring.
pub open spec fn carried(source: spec_fn(int, int) -> i32, depth: Depth, f: int, ch: int) -> i32 {
    (source(f, ch) << depth.shift()) >> 8
}

/// Every frame the ring holds is the source's.
pub open spec fn carries(ring: &Ring, source: spec_fn(int, int) -> i32, depth: Depth) -> bool {
    forall|f: int, ch: int|
        ring.holds(f) && 0 <= ch < 2 ==> #[trigger] ring.sample(f, ch) == carried(
            source,
            depth,
            f,
            ch,
        )
}

/// Appending what a read of the source gave, where the ring's frames end,
/// leaves a ring that carries the source.
pub proof fn law_what_is_appended_is_carried(
    before: &Ring,
    after: &Ring,
    samples: Seq<i32>,
    source: spec_fn(int, int) -> i32,
    depth: Depth,
)
    requires
        carries(before, source, depth),
        after@ == (Memory {
            end: (before.end + samples.len() / 2) as u64,
            ..stored(before@, samples, samples.len())
        }),
        before.wf(),
        samples.len() % 2 == 0,
        samples.len() / 2 <= before.capacity - (before.end - before.start),
        before.end + samples.len() / 2 <= u64::MAX,
        forall|i: int|
            0 <= i < samples.len() ==> #[trigger] samples[i] == carried(
                source,
                depth,
                before.end + i / 2,
                i % 2,
            ),
    ensures
        carries(after, source, depth),
{
    lemma_stored(before@, samples, samples.len());
    assert forall|f: int, ch: int| after.holds(f) && 0 <= ch < 2 implies #[trigger] after.sample(
        f,
        ch,
    ) == carried(source, depth, f, ch) by {
        lemma_stored_sample(before@, samples, samples.len(), f, ch);
        let held = stored(before@, samples, samples.len());
        assert(after@.slots == held.slots && after@.capacity == held.capacity);
        assert(after.sample(f, ch) == held.sample(f, ch));
        assert(before@.sample(f, ch) == before.sample(f, ch));
        if f < before.end {
            assert(before.holds(f));
        } else {
            let i = 2 * (f - before.end) + ch;
            assert(i / 2 == f - before.end && i % 2 == ch);
            assert(samples[i] == carried(source, depth, f, ch));
        }
    }
}

/// Bit-perfect: what a period hands the device is the track, sample for
/// sample, a 24-bit sample as itself and a 16-bit one scaled to 24 bits.
pub proof fn law_what_is_heard_is_the_source(
    position: int,
    track_frames: int,
    ring: &Ring,
    frames: int,
    rate: i64,
    quiet: bool,
    out: Seq<i32>,
    source: spec_fn(int, int) -> i32,
    depth: Depth,
    i: int,
)
    requires
        inside(position, track_frames),
        track_frames <= u64::MAX,
        0 <= frames <= usize::MAX,
        out.len() == 2 * frames,
        ring.wf(),
        carries(ring, source, depth),
        ({
            let outcome = period(position, track_frames, ring, frames, rate, quiet).0;
            period_out(outcome, ring, position, out) && 0 <= i < 2 * audible(outcome)
        }),
        depth == Depth::Int16 ==> -0x8000 <= source(position / 1000 + i / 2, i % 2) < 0x8000,
        depth == Depth::Int24 ==> -0x80_0000 <= source(position / 1000 + i / 2, i % 2) < 0x80_0000,
    ensures
        out[i] == source(position / 1000 + i / 2, i % 2) * (if depth == Depth::Int16 {
            256int
        } else {
            1
        }),
{
    let outcome = period(position, track_frames, ring, frames, rate, quiet).0;
    let from = whole(position) as int;
    lemma_tail_fits(ring, from, frames);
    assert(from == position / 1000);
    assert(ring.holds(from + i / 2));
    assert(out[i] == ring.sample(from + i / 2, i % 2));
    law_the_shifts_are_lossless(source(from + i / 2, i % 2));
}

/// One period of a run: what could be read, how many frames were asked for, how
/// the deck was set, and what came out.
pub struct Turn {
    pub ring: Ring,
    pub frames: int,
    pub rate: i64,
    pub quiet: bool,
    pub out: Seq<i32>,
}

/// Where a run that started at a position is after its first `n` periods.
pub open spec fn reached(position: int, track_frames: int, turns: Seq<Turn>, n: int) -> int
    decreases n,
{
    if n <= 0 {
        position
    } else {
        let t = turns[n - 1];
        period(
            reached(position, track_frames, turns, n - 1),
            track_frames,
            &t.ring,
            t.frames,
            t.rate,
            t.quiet,
        ).1
    }
}

/// What period `n` of a run reports.
pub open spec fn reported(position: int, track_frames: int, turns: Seq<Turn>, n: int) -> Outcome {
    let t = turns[n];
    period(
        reached(position, track_frames, turns, n),
        track_frames,
        &t.ring,
        t.frames,
        t.rate,
        t.quiet,
    ).0
}

/// What the first `n` periods of a run hand the device: of each, the frames it
/// played.
pub open spec fn written(position: int, track_frames: int, turns: Seq<Turn>, n: int) -> Seq<i32>
    decreases n,
{
    if n <= 0 {
        Seq::empty()
    } else {
        written(position, track_frames, turns, n - 1) + turns[n - 1].out.take(
            2 * audible(reported(position, track_frames, turns, n - 1)),
        )
    }
}

/// The periods are the engine's over one track: each was filled as it reports,
/// from a ring that carries the track and nothing past it, and none was a held
/// seek.
pub open spec fn plays_on(
    position: int,
    track_frames: int,
    turns: Seq<Turn>,
    source: spec_fn(int, int) -> i32,
    depth: Depth,
) -> bool {
    forall|n: int| #![trigger turns[n]]
        0 <= n < turns.len() ==> {
            let t = turns[n];
            &&& t.ring.wf()
            &&& t.ring.end <= track_frames
            &&& carries(&t.ring, source, depth)
            &&& 0 <= t.frames <= usize::MAX
            &&& t.out.len() == 2 * t.frames
            &&& !t.quiet
            &&& period_out(
                reported(position, track_frames, turns, n),
                &t.ring,
                reached(position, track_frames, turns, n),
                t.out,
            )
        }
}

/// A sample as the device gets it: a 24-bit one as itself and a 16-bit one
/// scaled to 24 bits.
pub open spec fn scaled(sample: i32, depth: Depth) -> int {
    match depth {
        Depth::Int16 => sample * 256,
        Depth::Int24 => sample as int,
    }
}

/// The source's samples have the depth it says.
pub open spec fn deep(source: spec_fn(int, int) -> i32, depth: Depth) -> bool {
    forall|f: int, ch: int| match depth {
        Depth::Int16 => -0x8000 <= #[trigger] source(f, ch) < 0x8000,
        Depth::Int24 => -0x80_0000 <= source(f, ch) < 0x80_0000,
    }
}

/// One period of a run from a whole frame: the position moves by what was
/// played, and what was played is the source from there.
proof fn lemma_one_turn(
    at: int,
    track_frames: int,
    t: Turn,
    source: spec_fn(int, int) -> i32,
    depth: Depth,
)
    requires
        inside(at, track_frames),
        track_frames <= u64::MAX,
        at % 1000 == 0,
        t.ring.wf(),
        t.ring.end <= track_frames,
        carries(&t.ring, source, depth),
        deep(source, depth),
        0 <= t.frames <= usize::MAX,
        t.out.len() == 2 * t.frames,
        !t.quiet,
        period_out(
            period(at, track_frames, &t.ring, t.frames, t.rate, t.quiet).0,
            &t.ring,
            at,
            t.out,
        ),
    ensures
        ({
            let (outcome, to) = period(at, track_frames, &t.ring, t.frames, t.rate, t.quiet);
            let got = audible(outcome);
            &&& 0 <= got <= t.frames
            &&& to == at + 1000 * got
            &&& inside(to, track_frames)
            &&& forall|k: int|
                0 <= k < 2 * got ==> #[trigger] t.out[k] == scaled(
                    source(at / 1000 + k / 2, k % 2),
                    depth,
                )
            &&& outcome is EndOfTrack ==> at == 1000 * track_frames
        }),
{
    let (outcome, to) = period(at, track_frames, &t.ring, t.frames, t.rate, t.quiet);
    let got = audible(outcome);
    lemma_tail_fits(&t.ring, whole(at) as int, t.frames);
    law_playing_is_exact(at, track_frames, &t.ring, t.frames, t.rate, t.quiet);
    assert forall|k: int| 0 <= k < 2 * got implies #[trigger] t.out[k] == scaled(
        source(at / 1000 + k / 2, k % 2),
        depth,
    ) by {
        law_what_is_heard_is_the_source(
            at,
            track_frames,
            &t.ring,
            t.frames,
            t.rate,
            t.quiet,
            t.out,
            source,
            depth,
            k,
        );
    }
}

/// What was written before and what a period played, one after the other.
proof fn lemma_written_on(
    position: int,
    at: int,
    got: int,
    before: Seq<i32>,
    out: Seq<i32>,
    source: spec_fn(int, int) -> i32,
    depth: Depth,
)
    requires
        0 <= position <= at,
        position % 1000 == 0,
        at % 1000 == 0,
        0 <= 2 * got <= out.len(),
        before.len() == 2 * ((at - position) / 1000),
        forall|i: int|
            0 <= i < before.len() ==> #[trigger] before[i] == scaled(
                source(position / 1000 + i / 2, i % 2),
                depth,
            ),
        forall|k: int|
            0 <= k < 2 * got ==> #[trigger] out[k] == scaled(
                source(at / 1000 + k / 2, k % 2),
                depth,
            ),
    ensures
        ({
            let all = before + out.take(2 * got);
            &&& all.len() == 2 * ((at + 1000 * got - position) / 1000)
            &&& forall|i: int|
                0 <= i < all.len() ==> #[trigger] all[i] == scaled(
                    source(position / 1000 + i / 2, i % 2),
                    depth,
                )
        }),
{
    let all = before + out.take(2 * got);
    assert forall|i: int| 0 <= i < all.len() implies #[trigger] all[i] == scaled(
        source(position / 1000 + i / 2, i % 2),
        depth,
    ) by {
        if i < before.len() {
            assert(all[i] == before[i]);
        } else {
            let k = i - before.len();
            assert(all[i] == out[k]);
            assert(at / 1000 + k / 2 == position / 1000 + i / 2);
            assert(k % 2 == i % 2);
        }
    }
}

/// A whole run is the track: from a whole frame on, whatever pauses, misses and
/// short reads fall between, what the periods hand the device one after another
/// is the track's frames in order, each once and sample for sample, up to where
/// the position is. A run from the first frame that has come to the end of the
/// track has handed over all of it.
pub proof fn law_a_run_is_the_track_in_order(
    position: int,
    track_frames: int,
    turns: Seq<Turn>,
    source: spec_fn(int, int) -> i32,
    depth: Depth,
    n: int,
)
    requires
        inside(position, track_frames),
        track_frames <= u64::MAX,
        position % 1000 == 0,
        plays_on(position, track_frames, turns, source, depth),
        deep(source, depth),
        0 <= n <= turns.len(),
    ensures
        ({
            let at = reached(position, track_frames, turns, n);
            let out = written(position, track_frames, turns, n);
            &&& position <= at <= 1000 * track_frames
            &&& at % 1000 == 0
            &&& out.len() == 2 * ((at - position) / 1000)
            &&& forall|i: int|
                0 <= i < out.len() ==> #[trigger] out[i] == scaled(
                    source(position / 1000 + i / 2, i % 2),
                    depth,
                )
            &&& n < turns.len() && reported(position, track_frames, turns, n) is EndOfTrack
                ==> at == 1000 * track_frames
        }),
    decreases n,
{
    if n > 0 {
        law_a_run_is_the_track_in_order(position, track_frames, turns, source, depth, n - 1);
        let t = turns[n - 1];
        let at = reached(position, track_frames, turns, n - 1);
        let before = written(position, track_frames, turns, n - 1);
        lemma_one_turn(at, track_frames, t, source, depth);
        let got = audible(reported(position, track_frames, turns, n - 1));
        lemma_written_on(position, at, got, before, t.out, source, depth);
    }
    if n < turns.len() {
        let at = reached(position, track_frames, turns, n);
        lemma_one_turn(at, track_frames, turns[n], source, depth);
    }
}

/// A seek lands on the frame it was asked for: with the deck paused, a period
/// with a jump queued leaves the position at exactly that frame of the track,
/// or at its end where the track is shorter, whatever the position was; and a
/// deck that plays is heard from there.
pub proof fn law_a_seek_lands_on_its_frame(
    position: int,
    f: u64,
    track_frames: u64,
    ring: &Ring,
    frames: int,
    quiet: bool,
    out: Seq<i32>,
)
    requires
        ring.wf(),
        0 <= frames <= usize::MAX,
    ensures
        f <= track_frames ==> period(
            started(position, Some(f), track_frames),
            track_frames as int,
            ring,
            frames,
            RATE_PAUSED,
            quiet,
        ).1 == 1000 * f,
        f > track_frames ==> period(
            started(position, Some(f), track_frames),
            track_frames as int,
            ring,
            frames,
            RATE_PAUSED,
            quiet,
        ).1 == 1000 * track_frames,
        started(position, None, track_frames) == position,
        ({
            let outcome = period(
                started(position, Some(f), track_frames),
                track_frames as int,
                ring,
                frames,
                RATE_UNITY,
                false,
            ).0;
            f < track_frames && audible(outcome) > 0 && out.len() == 2 * frames && period_out(
                outcome,
                ring,
                started(position, Some(f), track_frames),
                out,
            ) ==> out[0] == ring.sample(f as int, 0) && out[1] == ring.sample(
                f as int,
                1,
            )
        }),
{
    if f < track_frames {
        assert(whole(1000 * f) == f);
        lemma_tail_fits(ring, f as int, frames);
    }
}

/// PLAY plays: at unity from a whole frame, with the period resident, all of it
/// is played and the position is past it; where the track ends sooner, what is
/// left of it is played and the position is at the end; where nothing is
/// resident the position waits; and at the end nothing more is played.
pub proof fn law_play_plays_on_to_the_end(
    t: Transport,
    f: u64,
    track_frames: u64,
    ring: &Ring,
    frames: int,
)
    requires
        t.state != State::Stopped,
        ring.wf(),
        ring.end <= track_frames,
        f <= track_frames,
        0 < frames <= usize::MAX,
    ensures
        ({
            let p = played(t);
            let (outcome, to) = period(
                1000 * f,
                track_frames as int,
                ring,
                frames,
                p.rate,
                p.silent,
            );
            let waits = paused(t);
            &&& ring.start <= f && f + frames <= ring.end ==> outcome == Outcome::Played {
                frames: frames as usize,
            } && to == 1000 * (f + frames)
            &&& ring.start <= f < track_frames < f + frames && ring.end == track_frames ==> outcome
                == Outcome::PlayedTail { frames: (track_frames - f) as usize } && to == 1000
                * track_frames
            &&& f < track_frames && !(ring.start <= f < ring.end) ==> outcome is Missed && to == 1000
                * f
            &&& f == track_frames ==> outcome is EndOfTrack && to == 1000 * f
            &&& period(1000 * f, track_frames as int, ring, frames, waits.rate, waits.silent).1
                == 1000 * f
            &&& f < track_frames ==> period(
                1000 * f,
                track_frames as int,
                ring,
                frames,
                waits.rate,
                waits.silent,
            ).0 is Paused
            &&& audible(outcome) * 1000 == to - 1000 * f
        }),
{
    assert(whole(1000 * f) == f);
    lemma_tail_fits(ring, f as int, frames);
}

/// FF and REW held move the position by four frames for each that passes, on
/// and back, as far as the ends of the track, and make no sound.
pub proof fn law_a_held_seek_is_four_times_as_fast(
    t: Transport,
    position: int,
    track_frames: int,
    ring: &Ring,
    frames: int,
    out: Seq<i32>,
)
    requires
        t.state != State::Stopped,
        inside(position, track_frames),
        frames >= 0,
    ensures
        ({
            let on = seeking(t, true);
            let back = seeking(t, false);
            let ahead = period(position, track_frames, ring, frames, on.rate, on.silent);
            let behind = period(position, track_frames, ring, frames, back.rate, back.silent);
            &&& ahead.0 is Seeking && behind.0 is Seeking
            &&& position + 4000 * frames <= 1000 * track_frames ==> ahead.1 == position + 4000
                * frames
            &&& position + 4000 * frames > 1000 * track_frames ==> ahead.1 == 1000 * track_frames
            &&& position - 4000 * frames >= 0 ==> behind.1 == position - 4000 * frames
            &&& position - 4000 * frames < 0 ==> behind.1 == 0
            &&& period_out(ahead.0, ring, position, out) ==> forall|i: int|
                0 <= i < out.len() ==> out[i] == 0
        }),
{
    let (on, back) = (seeking(t, true).rate, seeking(t, false).rate);
    assert(on * frames == 4000 * frames) by (nonlinear_arith)
        requires
            on == 4000,
    ;
    assert(back * frames == -4000 * frames) by (nonlinear_arith)
        requires
            back == -4000,
    ;
}

} // verus!
