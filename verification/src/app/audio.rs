//! The audio thread: fill from the ring, hand the period to the device.
//!
//! One step at a time: what a period came to goes in, and what to do about it
//! comes out. Any miss is a period of silence and none is a fault, and a paused
//! deck is not one either.

use vstd::prelude::*;

use crate::engine::Outcome;
use crate::sink::SinkError;
use crate::text::{
    decimal, decimal_digits, law_a_number_is_written_as_what_it_is, number, push_decimal,
};

verus! {

/// Why the loop stopped.
#[derive(Debug, Clone, PartialEq, Eq)]
pub enum Stopped {
    /// The track played out, and nothing is to follow it.
    EndOfTrack,
    /// The medium went, and what was resident has played out.
    MediumLost,
    /// Asked to stop from outside.
    Asked,
    /// Something that cannot be served.
    Unexpected(String),
}

/// What to do where the track ends.
#[derive(Debug, Clone, Copy, PartialEq, Eq, Structural)]
pub enum AtEnd {
    /// End the run.
    Stop,
    /// Stay, silent: a track is loaded until it is unloaded, and the operator
    /// may go back into it.
    Idle,
}

/// What the run did.
#[derive(Debug, Clone, Copy, PartialEq, Eq, Structural)]
pub struct Report {
    pub frames: u64,
    /// Periods the ring could not serve.
    pub misses: u64,
    pub underruns: u64,
    pub peak: i32,
    /// In nanoseconds.
    pub elapsed: u128,
}

impl Default for Report {
    fn default() -> (r: Report)
        ensures
            r == (Report { frames: 0, misses: 0, underruns: 0, peak: 0, elapsed: 0 }),
    {
        Report { frames: 0, misses: 0, underruns: 0, peak: 0, elapsed: 0 }
    }
}

/// What to do about a period.
#[derive(Debug)]
pub enum Do {
    /// Write this many frames of it.
    Write(usize),
    /// Write all of it: it is silence, and the device runs dry without.
    Feed,
    /// Nothing is owed: let the others run.
    Yield,
    Stop(Stopped),
}

/// What to do after a write.
#[derive(Debug)]
pub enum Then {
    Continue,
    /// The stream is running for the first time: hold it to what was asked.
    Verify,
    Stop(Stopped),
}

/// When the stream counts as running, so that it can be held to what was asked.
#[derive(Debug, Clone, Copy, PartialEq, Eq, Structural)]
pub enum Running {
    /// Once a period was handed over, though the device ran dry: the deck.
    Handed,
    /// Once a period was taken: bring-up.
    Taken,
}

/// A run of the loop.
#[derive(Debug, Clone, Copy, PartialEq, Eq, Structural)]
pub struct Run {
    pub report: Report,
    /// The stream has been held to what was asked.
    pub verified: bool,
    /// The device runs dry if it is not fed.
    pub starves: bool,
    pub at_end: AtEnd,
    pub running: Running,
}

/// The loudest sample so far.
pub open spec fn peak_of(peak: int, samples: Seq<i32>) -> int
    decreases samples.len(),
{
    if samples.len() == 0 {
        peak
    } else {
        let before = peak_of(peak, samples.drop_last());
        let last = if samples.last() < 0 {
            -samples.last()
        } else {
            samples.last() as int
        };
        if last > before {
            last
        } else {
            before
        }
    }
}

/// Thousandths as a decimal, with as many places as it takes and at least one.
pub open spec fn places(thousandths: nat) -> Seq<char> {
    if thousandths % 10 != 0 {
        decimal(thousandths / 100) + decimal(thousandths / 10 % 10) + decimal(thousandths % 10)
    } else if thousandths % 100 != 0 {
        decimal(thousandths / 100) + decimal(thousandths / 10 % 10)
    } else {
        decimal(thousandths / 100)
    }
}

/// A rate in thousandths of unity, as a number.
pub open spec fn rate_text(rate: int) -> Seq<char> {
    let size = if rate < 0 {
        (-rate) as nat
    } else {
        rate as nat
    };
    (if rate < 0 {
        "-"@
    } else {
        ""@
    }) + decimal(size / 1000) + "."@ + places(size % 1000)
}

/// An outcome that cannot be served, in words.
pub open spec fn needs_resampler(rate: i64, fractional: bool) -> Seq<char> {
    "NeedsResampler { rate: "@ + rate_text(rate as int) + ", fractional: "@ + (if fractional {
        "true"@
    } else {
        "false"@
    }) + " }"@
}

fn push_rate(out: &mut String, rate: i64)
    ensures
        final(out)@ == old(out)@ + rate_text(rate as int),
{
    let ghost was = out@;
    let size: u128 = if rate < 0 {
        out.append("-");
        (-(rate as i128)) as u128
    } else {
        rate as u128
    };
    push_decimal(out, size / 1000);
    out.append(".");
    let rest: u128 = size % 1000;
    push_decimal(out, rest / 100);
    if rest % 100 != 0 {
        push_decimal(out, rest / 10 % 10);
    }
    if rest % 10 != 0 {
        push_decimal(out, rest % 10);
    }
    proof {
        reveal_strlit("");
    }
    assert(out@ =~= was + rate_text(rate as int));
}

/// Silence: fed where the device needs it.
pub open spec fn silent(starves: bool) -> Do {
    if starves {
        Do::Feed
    } else {
        Do::Yield
    }
}

/// Whether a period ends the run.
pub open spec fn ends(outcome: Outcome, medium_lost: bool, at_end: AtEnd) -> bool {
    match outcome {
        Outcome::EndOfTrack => at_end == AtEnd::Stop,
        Outcome::Missed(_) => medium_lost,
        Outcome::NeedsResampler { .. } => true,
        _ => false,
    }
}

impl Run {
    /// A run of the deck that has done nothing yet.
    pub fn new(starves: bool, at_end: AtEnd) -> (r: Run)
        ensures
            r == (Run {
                report: Report { frames: 0, misses: 0, underruns: 0, peak: 0, elapsed: 0 },
                verified: false,
                starves,
                at_end,
                running: Running::Handed,
            }),
    {
        Run {
            report: Report { frames: 0, misses: 0, underruns: 0, peak: 0, elapsed: 0 },
            verified: false,
            starves,
            at_end,
            running: Running::Handed,
        }
    }

    /// A run of one track at bring-up.
    pub fn bring_up(starves: bool) -> (r: Run)
        ensures
            r == (Run {
                report: Report { frames: 0, misses: 0, underruns: 0, peak: 0, elapsed: 0 },
                verified: false,
                starves,
                at_end: AtEnd::Stop,
                running: Running::Taken,
            }),
    {
        Run {
            report: Report { frames: 0, misses: 0, underruns: 0, peak: 0, elapsed: 0 },
            verified: false,
            starves,
            at_end: AtEnd::Stop,
            running: Running::Taken,
        }
    }

    fn silence(&self) -> (r: Do)
        ensures
            r == silent(self.starves),
    {
        if self.starves {
            Do::Feed
        } else {
            Do::Yield
        }
    }

    /// What to do about a period that was filled. `medium_lost` is read after
    /// it was filled: what is resident plays out first.
    pub fn filled(&mut self, outcome: Outcome, medium_lost: bool) -> (r: Do)
        requires
            old(self).report.misses < u64::MAX,
        ensures
            *final(self) == (Run {
                report: Report {
                    misses: if outcome is Missed {
                        (old(self).report.misses + 1) as u64
                    } else {
                        old(self).report.misses
                    },
                    ..old(self).report
                },
                ..*old(self)
            }),
            r is Stop <==> ends(outcome, medium_lost, old(self).at_end),
            match outcome {
                Outcome::Played { frames } => r == Do::Write(frames),
                Outcome::PlayedTail { frames } => r == Do::Write(frames),
                Outcome::Paused => r == silent(old(self).starves),
                Outcome::Seeking => r == silent(old(self).starves),
                Outcome::EndOfTrack => match old(self).at_end {
                    AtEnd::Stop => r == Do::Stop(Stopped::EndOfTrack),
                    AtEnd::Idle => r == silent(old(self).starves),
                },
                Outcome::Missed(_) => if medium_lost {
                    r == Do::Stop(Stopped::MediumLost)
                } else {
                    r == silent(old(self).starves)
                },
                Outcome::NeedsResampler { rate, fractional } => {
                    r matches Do::Stop(Stopped::Unexpected(why)) && why@ == needs_resampler(
                        rate,
                        fractional,
                    )
                },
            },
    {
        match outcome {
            Outcome::Played { frames } => Do::Write(frames),
            Outcome::PlayedTail { frames } => Do::Write(frames),
            Outcome::Paused => self.silence(),
            Outcome::Seeking => self.silence(),
            Outcome::EndOfTrack => match self.at_end {
                AtEnd::Stop => Do::Stop(Stopped::EndOfTrack),
                AtEnd::Idle => self.silence(),
            },
            Outcome::Missed(_) => {
                self.report.misses = self.report.misses + 1;
                if medium_lost {
                    Do::Stop(Stopped::MediumLost)
                } else {
                    self.silence()
                }
            },
            Outcome::NeedsResampler { rate, fractional } => {
                let mut out: String = String::new();
                out.append("NeedsResampler { rate: ");
                push_rate(&mut out, rate);
                out.append(", fractional: ");
                if fractional {
                    out.append("true");
                } else {
                    out.append("false");
                }
                out.append(" }");
                assert(out@ =~= needs_resampler(rate, fractional));
                Do::Stop(Stopped::Unexpected(out))
            },
        }
    }

    /// Takes the samples about to be written into the peak.
    pub fn heard(&mut self, samples: &[i32])
        requires
            old(self).report.peak >= 0,
            forall|i: int| 0 <= i < samples@.len() ==> #[trigger] samples@[i] > i32::MIN,
        ensures
            *final(self) == (Run {
                report: Report {
                    peak: peak_of(old(self).report.peak as int, samples@) as i32,
                    ..old(self).report
                },
                ..*old(self)
            }),
            final(self).report.peak == peak_of(old(self).report.peak as int, samples@),
            final(self).report.peak >= 0,
    {
        let mut peak: i32 = self.report.peak;
        let ghost start = peak as int;
        let mut i: usize = 0;
        assert(samples@.take(0) =~= Seq::empty());
        while i < samples.len()
            invariant
                i <= samples@.len(),
                peak >= 0,
                peak == peak_of(start, samples@.take(i as int)),
                forall|k: int| 0 <= k < samples@.len() ==> #[trigger] samples@[k] > i32::MIN,
            decreases samples@.len() - i,
        {
            assert(samples@.take(i + 1).drop_last() =~= samples@.take(i as int));
            let s: i32 = samples[i];
            let loud: i32 = if s < 0 {
                -s
            } else {
                s
            };
            if loud > peak {
                peak = loud;
            }
            i = i + 1;
        }
        assert(samples@.take(i as int) =~= samples@);
        self.report.peak = peak;
    }

    /// What to do after a write of this many frames. An underrun is counted
    /// and carried on from; anything else ends the run. The first time the
    /// stream is running, it is to be verified.
    pub fn wrote(&mut self, frames: usize, result: Result<(), SinkError>) -> (r: Then)
        requires
            old(self).report.frames + frames <= u64::MAX,
            old(self).report.underruns < u64::MAX,
        ensures
            match result {
                Ok(_) => final(self).report == (Report {
                    frames: (old(self).report.frames + frames) as u64,
                    ..old(self).report
                }),
                Err(SinkError::Underrun) => final(self).report == (Report {
                    underruns: (old(self).report.underruns + 1) as u64,
                    ..old(self).report
                }),
                Err(_) => final(self).report == old(self).report,
            },
            match result {
                Err(e) if !(e is Underrun) => r matches Then::Stop(Stopped::Unexpected(why)) && why@
                    == SinkError::text(e@) && final(self).verified == old(self).verified,
                Err(_) if old(self).running == Running::Taken => r is Continue
                    && final(self).verified == old(self).verified,
                _ => final(self).verified && (if old(self).verified {
                    r is Continue
                } else {
                    r is Verify
                }),
            },
            final(self).starves == old(self).starves,
            final(self).at_end == old(self).at_end,
            final(self).running == old(self).running,
    {
        match result {
            Ok(_) => {
                self.report.frames = self.report.frames + frames as u64;
            },
            Err(SinkError::Underrun) => {
                self.report.underruns = self.report.underruns + 1;
                if self.running == Running::Taken {
                    return Then::Continue;
                }
            },
            Err(e) => {
                return Then::Stop(Stopped::Unexpected(e.to_text()));
            },
        }
        if self.verified {
            Then::Continue
        } else {
            self.verified = true;
            Then::Verify
        }
    }

    /// What the verification came to: a device that runs something else ends
    /// the run.
    pub fn verified(result: Result<(), SinkError>) -> (r: Option<Stopped>)
        ensures
            match result {
                Ok(_) => r is None,
                Err(e) => r matches Some(Stopped::Unexpected(why)) && why@
                    == "ALSA substituted something: "@ + SinkError::text(e@),
            },
    {
        match result {
            Ok(_) => None,
            Err(e) => {
                let mut out: String = "ALSA substituted something: ".to_owned();
                let why: String = e.to_text();
                out.append(why.as_str());
                Some(Stopped::Unexpected(out))
            },
        }
    }

    /// What to do after silence was written: a device that ran dry anyway is
    /// carried on from.
    pub fn fed(result: Result<(), SinkError>) -> (r: Option<Stopped>)
        ensures
            match result {
                Ok(_) => r is None,
                Err(SinkError::Underrun) => r is None,
                Err(e) => r matches Some(Stopped::Unexpected(why)) && why@ == SinkError::text(e@),
            },
    {
        match result {
            Ok(_) => None,
            Err(SinkError::Underrun) => None,
            Err(e) => Some(Stopped::Unexpected(e.to_text())),
        }
    }
}

/// Only the end of a track that nothing follows, the medium going, or a rate
/// that cannot be served ends a run. A miss, a pause and a seek do not, and a
/// track that is kept does not end by itself.
pub proof fn law_what_ends_a_run(outcome: Outcome, medium_lost: bool, at_end: AtEnd)
    ensures
        ends(outcome, medium_lost, at_end) ==> (outcome is EndOfTrack && at_end == AtEnd::Stop) || (
        outcome is Missed && medium_lost) || outcome is NeedsResampler,
        outcome is Missed && !medium_lost ==> !ends(outcome, medium_lost, at_end),
        outcome is Paused || outcome is Seeking ==> !ends(outcome, medium_lost, at_end),
        outcome is EndOfTrack && at_end == AtEnd::Idle ==> !ends(outcome, medium_lost, at_end),
{
}

/// The peak is the loudest there was: no sample is louder, on either side of
/// zero, it never falls, and it is what it was or one of the samples.
pub proof fn law_the_peak_is_the_loudest(peak: int, samples: Seq<i32>)
    ensures
        peak_of(peak, samples) >= peak,
        forall|i: int|
            0 <= i < samples.len() ==> -peak_of(peak, samples) <= #[trigger] samples[i] <= peak_of(
                peak,
                samples,
            ),
        peak_of(peak, samples) == peak || exists|i: int|
            0 <= i < samples.len() && (#[trigger] samples[i] == peak_of(peak, samples)
                || samples[i] == -peak_of(peak, samples)),
    decreases samples.len(),
{
    if samples.len() > 0 {
        let front = samples.drop_last();
        law_the_peak_is_the_loudest(peak, front);
        let (before, now) = (peak_of(peak, front), peak_of(peak, samples));
        assert forall|i: int| 0 <= i < samples.len() implies -now <= #[trigger] samples[i]
            <= now by {
            if i < front.len() {
                assert(-before <= front[i] <= before);
            }
        }
        if now != peak {
            if now == before {
                let i = choose|i: int|
                    0 <= i < front.len() && (#[trigger] front[i] == before || front[i] == -before);
                assert(samples[i] == front[i]);
            } else {
                assert(samples[samples.len() - 1] == now || samples[samples.len() - 1] == -now);
            }
        }
    }
}

/// A rate reads as the number it is: a minus where it is negative, the whole
/// part, a point, and one to three places that are its thousandths.
pub proof fn law_a_rate_reads_as_what_it_is(rate: int)
    ensures
        ({
            let sign: int = if rate < 0 {
                1
            } else {
                0
            };
            let size = if rate < 0 {
                -rate
            } else {
                rate
            };
            let t = rate_text(rate);
            let whole = t.subrange(sign, sign + decimal((size / 1000) as nat).len());
            let places = t.skip(sign + decimal((size / 1000) as nat).len() + 1);
            &&& rate < 0 ==> t[0] == '-'
            &&& decimal_digits(whole) && number(whole) == size / 1000
            &&& t[sign + whole.len()] == '.'
            &&& decimal_digits(places) && 1 <= places.len() <= 3
            &&& places.len() == 1 ==> number(places) * 100 == size % 1000
            &&& places.len() == 2 ==> number(places) * 10 == size % 1000
            &&& places.len() == 3 ==> number(places) == size % 1000
        }),
{
    reveal_strlit("-");
    reveal_strlit("");
    reveal_strlit(".");
    let sign: int = if rate < 0 {
        1
    } else {
        0
    };
    let size: nat = if rate < 0 {
        (-rate) as nat
    } else {
        rate as nat
    };
    let t = rate_text(rate);
    let n = decimal(size / 1000).len() as int;
    law_a_number_is_written_as_what_it_is(size / 1000);
    assert(t.subrange(sign, sign + n) =~= decimal(size / 1000));
    assert(t.skip(sign + n + 1) =~= places(size % 1000));
    let m = size % 1000;
    let (a, b, c) = (m / 100, m / 10 % 10, m % 10);
    law_a_number_is_written_as_what_it_is(a);
    law_a_number_is_written_as_what_it_is(b);
    law_a_number_is_written_as_what_it_is(c);
    reveal_with_fuel(number, 4);
    let p = places(m);
    assert(decimal(a).drop_last() =~= Seq::empty());
    assert(decimal(b).drop_last() =~= Seq::empty());
    assert(decimal(c).drop_last() =~= Seq::empty());
    if c != 0 {
        assert(p.drop_last() =~= decimal(a) + decimal(b));
        assert((decimal(a) + decimal(b)).drop_last() =~= decimal(a));
    } else if b != 0 {
        assert(p.drop_last() =~= decimal(a));
    }
}

/// What ends a run and what does not: a track that is over where nothing is to
/// follow it, a miss where the medium is gone, and what cannot be played as it
/// is.
pub proof fn law_what_a_run_ends_on(outcome: Outcome, medium_lost: bool, at_end: AtEnd)
    ensures
        outcome is EndOfTrack && at_end == AtEnd::Stop ==> ends(outcome, medium_lost, at_end),
        outcome is Missed && medium_lost ==> ends(outcome, medium_lost, at_end),
        outcome is NeedsResampler ==> ends(outcome, medium_lost, at_end),
        outcome is Played || outcome is PlayedTail ==> !ends(outcome, medium_lost, at_end),
        silent(true) == Do::Feed,
        silent(false) == Do::Yield,
{
}

} // verus!
