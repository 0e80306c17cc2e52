//! The control surface: debounce, quadrature and the button ladder.
//!
//! What runs on the microcontroller, a tick at a time, from the levels of its
//! pins to the reports it sends. Switches go to ground behind a pull-up, so
//! pressed reads low.

use vstd::prelude::*;

use crate::input::Button;
use crate::text::{digits, push_digits};

verus! {

/// How many ticks a level has to hold before it is believed. A tick is a
/// millisecond.
pub const DEBOUNCE_TICKS: u8 = 40;

/// Quadrature steps per detent.
pub const STEPS_PER_DETENT: i8 = 4;

/// Two reports: the buttons as a bitmap on the Consumer page, and the encoder
/// as one signed relative axis.
pub const REPORT_DESCRIPTOR: [u8; 63] = [
    0x05, 0x0C, 0x09, 0x01, 0xA1, 0x01, 0x85, 0x01, 0x15, 0x00, 0x25, 0x01, 0x75, 0x01, 0x95, 0x08,
    0x09, 0x84, 0x09, 0xB3, 0x09, 0xB4, 0x09, 0xCD, 0x0A, 0x24, 0x02, 0x0A, 0x26, 0x02, 0x09, 0xB5,
    0x09, 0xB6, 0x81, 0x02, 0xC0, 0x05, 0x01, 0x09, 0x02, 0xA1, 0x01, 0x85, 0x02, 0x09, 0x01, 0xA1,
    0x00, 0x09, 0x30, 0x15, 0x81, 0x25, 0x7F, 0x75, 0x08, 0x95, 0x01, 0x81, 0x06, 0xC0, 0xC0,
];

/// Where the usages of the buttons start in it.
pub const USAGES_AT: usize = 16;

// The bits of the first report, in the order the descriptor declares them.
pub const BIT_ENTER: u8 = 0;

pub const BIT_FF: u8 = 1;

pub const BIT_REW: u8 = 2;

pub const BIT_PLAY: u8 = 3;

pub const BIT_BACK: u8 = 4;

pub const BIT_CUE: u8 = 5;

pub const BIT_TRACK_NEXT: u8 = 6;

pub const BIT_TRACK_PREV: u8 = 7;

/// A switch that bounces. One counter each, so that one button cannot delay
/// another.
#[derive(Debug, Clone, Copy, PartialEq, Eq, Structural)]
pub struct Debounced {
    /// The level that is believed: true for pressed.
    pub stable: bool,
    /// For how many ticks the pin has read otherwise.
    pub ticks: u8,
}

/// One tick of a switch.
pub open spec fn ticked(d: Debounced, low: bool) -> Debounced {
    if low == d.stable {
        Debounced { ticks: 0, ..d }
    } else if d.ticks + 1 >= DEBOUNCE_TICKS {
        Debounced { stable: !d.stable, ticks: 0 }
    } else {
        Debounced { ticks: (d.ticks + 1) as u8, ..d }
    }
}

impl Debounced {
    pub open spec fn wf(&self) -> bool {
        self.ticks < DEBOUNCE_TICKS
    }

    /// A switch believed to be as it is.
    pub fn new(low: bool) -> (r: Debounced)
        ensures
            r.wf(),
            r == (Debounced { stable: low, ticks: 0 }),
    {
        Debounced { stable: low, ticks: 0 }
    }

    /// Takes the level of one tick, and gives the level that is believed.
    pub fn poll(&mut self, low: bool) -> (r: bool)
        requires
            old(self).wf(),
        ensures
            final(self).wf(),
            *final(self) == ticked(*old(self), low),
            r == final(self).stable,
    {
        if low == self.stable {
            self.ticks = 0;
        } else {
            self.ticks = self.ticks + 1;
            if self.ticks >= DEBOUNCE_TICKS {
                self.stable = !self.stable;
                self.ticks = 0;
            }
        }
        self.stable
    }
}

/// Ticks in a row.
pub open spec fn ticked_all(d: Debounced, levels: Seq<bool>) -> Debounced
    decreases levels.len(),
{
    if levels.len() == 0 {
        d
    } else {
        ticked(ticked_all(d, levels.drop_last()), levels.last())
    }
}

/// A contact that bounces for less than the interval changes nothing, however
/// it bounces.
pub proof fn law_a_short_bounce_is_not_a_press(d: Debounced, levels: Seq<bool>)
    requires
        d.ticks == 0,
        levels.len() < DEBOUNCE_TICKS,
    ensures
        ticked_all(d, levels).stable == d.stable,
        ticked_all(d, levels).ticks <= levels.len(),
    decreases levels.len(),
{
    if levels.len() > 0 {
        law_a_short_bounce_is_not_a_press(d, levels.drop_last());
    }
}

/// A level held for the whole interval is believed, and not a tick sooner.
pub proof fn law_a_held_level_is_believed(d: Debounced, n: nat)
    requires
        d.ticks == 0,
        n <= DEBOUNCE_TICKS,
    ensures
        ticked_all(d, Seq::new(n, |i: int| !d.stable)).stable == (if n < DEBOUNCE_TICKS {
            d.stable
        } else {
            !d.stable
        }),
        n < DEBOUNCE_TICKS ==> ticked_all(d, Seq::new(n, |i: int| !d.stable)).ticks == n,
    decreases n,
{
    if n > 0 {
        law_a_held_level_is_believed(d, (n - 1) as nat);
        let s = Seq::new(n, |i: int| !d.stable);
        assert(s.drop_last() =~= Seq::new((n - 1) as nat, |i: int| !d.stable));
    }
}

/// The step from one pair of levels to the next, indexed by four times the
/// last pair and the new one. Impossible transitions are no step at all: a
/// guess would be a step the wrong way.
pub const QUADRATURE: [i8; 16] = [0, -1, 1, 0, 1, 0, 0, -1, -1, 0, 0, 1, 0, 1, -1, 0];

pub open spec fn step(last: u8, now: u8) -> i8 {
    QUADRATURE@[last * 4 + now]
}

/// Two levels as a number.
pub open spec fn pair(a: bool, b: bool) -> u8 {
    if a {
        if b {
            3
        } else {
            2
        }
    } else {
        if b {
            1
        } else {
            0
        }
    }
}

fn pair_of(a: bool, b: bool) -> (r: u8)
    ensures
        r == pair(a, b),
        r < 4,
{
    if a {
        if b {
            3
        } else {
            2
        }
    } else {
        if b {
            1
        } else {
            0
        }
    }
}

/// The encoder: the last pair of levels, and the steps towards a detent.
#[derive(Debug, Clone, Copy, PartialEq, Eq, Structural)]
pub struct Encoder {
    pub last: u8,
    pub steps: i8,
}

/// One tick of the encoder: what it becomes, and the detents it gives.
pub open spec fn turned(e: Encoder, now: u8) -> (Encoder, i8) {
    let steps = e.steps + step(e.last, now);
    let detents: int = if steps >= STEPS_PER_DETENT {
        1
    } else if steps <= -STEPS_PER_DETENT {
        -1
    } else {
        0
    };
    (Encoder { last: now, steps: (steps - STEPS_PER_DETENT * detents) as i8 }, detents as i8)
}

impl Encoder {
    pub open spec fn wf(&self) -> bool {
        self.last < 4 && -STEPS_PER_DETENT < self.steps < STEPS_PER_DETENT
    }

    pub fn new(a: bool, b: bool) -> (r: Encoder)
        ensures
            r.wf(),
            r == (Encoder { last: pair(a, b), steps: 0 }),
    {
        Encoder { last: pair_of(a, b), steps: 0 }
    }

    /// Takes the levels of one tick, and gives the detents.
    pub fn poll(&mut self, a: bool, b: bool) -> (r: i8)
        requires
            old(self).wf(),
        ensures
            final(self).wf(),
            (*final(self), r) == turned(*old(self), pair(a, b)),
    {
        let now: u8 = pair_of(a, b);
        let table: [i8; 16] = QUADRATURE;
        let delta: i8 = table[(self.last * 4 + now) as usize];
        assert(delta == step(self.last, now));
        assert(-1 <= delta <= 1);
        self.last = now;
        self.steps = self.steps + delta;
        let mut detents: i8 = 0;
        if self.steps >= STEPS_PER_DETENT {
            self.steps = self.steps - STEPS_PER_DETENT;
            detents = 1;
        }
        if self.steps <= -STEPS_PER_DETENT {
            self.steps = self.steps + STEPS_PER_DETENT;
            detents = -1;
        }
        detents
    }
}

/// A step and the step back undo each other, staying put is no step, and
/// neither is a jump of both levels at once.
pub proof fn law_a_step_back_undoes_a_step(p: u8, q: u8)
    requires
        p < 4,
        q < 4,
    ensures
        step(p, q) == -step(q, p),
        p == q || p + q == 3 ==> step(p, q) == 0,
        p != q && p + q != 3 ==> step(p, q) == 1 || step(p, q) == -1,
{
    assert(QUADRATURE@.len() == 16);
}

/// Each detent is four steps: the steps taken are what was given, and what is
/// on the way to the next.
pub proof fn law_no_step_is_lost(e: Encoder, now: u8)
    requires
        e.wf(),
        now < 4,
    ensures
        STEPS_PER_DETENT * turned(e, now).1 + turned(e, now).0.steps == e.steps + step(
            e.last,
            now,
        ),
        turned(e, now).0.wf(),
{
    law_a_step_back_undoes_a_step(e.last, now);
}

/// The boundaries between the levels of the shared buttons, highest first:
/// above the first is nobody pressing.
pub const LADDER_BOUNDS: [u16; 6] = [3506, 2755, 2043, 1310, 748, 311];

/// Which of the seven levels a reading is.
pub open spec fn bucket(count: u16) -> usize {
    if count > 3506 {
        0
    } else if count > 2755 {
        1
    } else if count > 2043 {
        2
    } else if count > 1310 {
        3
    } else if count > 748 {
        4
    } else if count > 311 {
        5
    } else {
        6
    }
}

fn bucket_of(count: u16) -> (r: usize)
    ensures
        r == bucket(count),
        r <= 6,
{
    let bounds: [u16; 6] = LADDER_BOUNDS;
    let mut n: usize = 0;
    while n < 6 && count <= bounds[n]
        invariant
            n <= 6,
            bounds@ == LADDER_BOUNDS@,
            forall|k: int| 0 <= k < n ==> count <= LADDER_BOUNDS@[k],
        ensures
            n <= 6,
            forall|k: int| 0 <= k < n ==> count <= LADDER_BOUNDS@[k],
            n < 6 ==> count > LADDER_BOUNDS@[n as int],
        decreases 6 - n,
    {
        n = n + 1;
    }
    assert(n > 0 ==> count <= LADDER_BOUNDS@[n - 1]);
    n
}

/// The bit each level sets. Two of the panel's buttons have no meaning yet:
/// they are told apart and send nothing.
pub open spec fn ladder_bits(bucket: usize) -> u8 {
    if bucket == 1 {
        1u8 << BIT_REW
    } else if bucket == 2 {
        1u8 << BIT_FF
    } else if bucket == 3 {
        1u8 << BIT_TRACK_PREV
    } else if bucket == 4 {
        1u8 << BIT_TRACK_NEXT
    } else {
        0
    }
}

/// Six buttons on one analog level. The level passes others on its way to its
/// own, so it has to stay in one bucket for the whole interval.
#[derive(Debug, Clone, Copy, PartialEq, Eq, Structural)]
pub struct Ladder {
    pub candidate: usize,
    pub held: u8,
    /// The bucket that has held long enough to be believed.
    pub settled: usize,
}

/// One reading of the level. One that failed is not a released button.
pub open spec fn read_level(l: Ladder, count: Option<u16>) -> Ladder {
    match count {
        None => l,
        Some(n) => {
            let b = bucket(n);
            let held: u8 = if b == l.candidate {
                if l.held < 255 {
                    (l.held + 1) as u8
                } else {
                    255
                }
            } else {
                1
            };
            Ladder {
                candidate: b,
                held,
                settled: if held >= DEBOUNCE_TICKS {
                    b
                } else {
                    l.settled
                },
            }
        },
    }
}

impl Ladder {
    pub fn new() -> (r: Ladder)
        ensures
            r == (Ladder { candidate: 0, held: 0, settled: 0 }),
    {
        Ladder { candidate: 0, held: 0, settled: 0 }
    }

    /// Takes one reading, and gives the bits of what has settled.
    pub fn poll(&mut self, count: Option<u16>) -> (r: u8)
        ensures
            *final(self) == read_level(*old(self), count),
            r == ladder_bits(final(self).settled),
    {
        if let Some(n) = count {
            let b: usize = bucket_of(n);
            if b == self.candidate {
                if self.held < 255 {
                    self.held = self.held + 1;
                }
            } else {
                self.candidate = b;
                self.held = 1;
            }
            if self.held >= DEBOUNCE_TICKS {
                self.settled = b;
            }
        }
        match self.settled {
            1 => 1u8 << BIT_REW,
            2 => 1u8 << BIT_FF,
            3 => 1u8 << BIT_TRACK_PREV,
            4 => 1u8 << BIT_TRACK_NEXT,
            _ => 0,
        }
    }
}

/// Readings in a row.
pub open spec fn read_all(l: Ladder, counts: Seq<u16>) -> Ladder
    decreases counts.len(),
{
    if counts.len() == 0 {
        l
    } else {
        read_level(read_all(l, counts.drop_last()), Some(counts.last()))
    }
}

/// A level that is only passed through fires no button: nothing settles before
/// the same bucket has been read for the whole interval.
pub proof fn law_a_level_passed_through_is_no_press(l: Ladder, counts: Seq<u16>)
    requires
        l.held == 0,
        counts.len() < DEBOUNCE_TICKS,
    ensures
        read_all(l, counts).settled == l.settled,
        read_all(l, counts).held <= counts.len(),
    decreases counts.len(),
{
    if counts.len() > 0 {
        law_a_level_passed_through_is_no_press(l, counts.drop_last());
    }
}

/// The levels of every pin at one tick.
#[derive(Debug, Clone, Copy, PartialEq, Eq)]
pub struct Levels {
    pub enter: bool,
    pub back: bool,
    pub play: bool,
    pub cue: bool,
    pub rew: bool,
    pub ff: bool,
    pub encoder_a: bool,
    pub encoder_b: bool,
    /// The ladder's reading, where there was one.
    pub ladder: Option<u16>,
}

/// Everything the control loop owns, by name.
#[derive(Debug, Clone, Copy, PartialEq, Eq, Structural)]
pub struct Surface {
    pub enter: Debounced,
    pub back: Debounced,
    pub play: Debounced,
    pub cue: Debounced,
    pub rew: Debounced,
    pub ff: Debounced,
    pub encoder: Encoder,
    pub ladder: Ladder,
    /// The buttons as they were last reported.
    pub reported: u8,
}

/// A bit, where it is set.
pub open spec fn bit(set: bool, value: u8) -> u8 {
    if set {
        value
    } else {
        0
    }
}

fn bit_of(set: bool, value: u8) -> (r: u8)
    ensures
        r == bit(set, value),
{
    if set {
        value
    } else {
        0
    }
}

/// The buttons that are believed to be down, one bit each. A switch and the
/// ladder may mean the same control, and either may be the one that is wired.
pub open spec fn buttons(s: Surface) -> u8 {
    bit(s.enter.stable, 1u8 << BIT_ENTER) | bit(s.ff.stable, 1u8 << BIT_FF) | bit(s.rew.stable, 1u8 << BIT_REW) | bit(s.play.stable, 1u8 << BIT_PLAY)
        | bit(s.back.stable, 1u8 << BIT_BACK) | bit(s.cue.stable, 1u8 << BIT_CUE) | ladder_bits(s.ladder.settled)
}

/// Every control, a tick later.
pub open spec fn sampled(s: Surface, l: Levels) -> Surface {
    Surface {
        enter: ticked(s.enter, l.enter),
        back: ticked(s.back, l.back),
        play: ticked(s.play, l.play),
        cue: ticked(s.cue, l.cue),
        rew: ticked(s.rew, l.rew),
        ff: ticked(s.ff, l.ff),
        encoder: turned(s.encoder, pair(l.encoder_a, l.encoder_b)).0,
        ladder: read_level(s.ladder, l.ladder),
        reported: s.reported,
    }
}

/// What to send after a tick.
#[derive(Debug, Clone, Copy, PartialEq, Eq)]
pub struct Reports {
    /// The buttons, where they changed.
    pub buttons: Option<[u8; 2]>,
    /// The detents, where there are any.
    pub detents: Option<[u8; 2]>,
}

/// A signed byte as it is sent.
pub open spec fn byte(n: i8) -> u8 {
    if n < 0 {
        (256 + n) as u8
    } else {
        n as u8
    }
}

impl Surface {
    pub open spec fn wf(&self) -> bool {
        self.enter.wf() && self.back.wf() && self.play.wf() && self.cue.wf() && self.rew.wf()
            && self.ff.wf() && self.encoder.wf()
    }

    pub fn new(l: Levels) -> (r: Surface)
        ensures
            r.wf(),
            r == (Surface {
                enter: Debounced { stable: l.enter, ticks: 0 },
                back: Debounced { stable: l.back, ticks: 0 },
                play: Debounced { stable: l.play, ticks: 0 },
                cue: Debounced { stable: l.cue, ticks: 0 },
                rew: Debounced { stable: l.rew, ticks: 0 },
                ff: Debounced { stable: l.ff, ticks: 0 },
                encoder: Encoder { last: pair(l.encoder_a, l.encoder_b), steps: 0 },
                ladder: Ladder { candidate: 0, held: 0, settled: 0 },
                reported: 0,
            }),
    {
        Surface {
            enter: Debounced::new(l.enter),
            back: Debounced::new(l.back),
            play: Debounced::new(l.play),
            cue: Debounced::new(l.cue),
            rew: Debounced::new(l.rew),
            ff: Debounced::new(l.ff),
            encoder: Encoder::new(l.encoder_a, l.encoder_b),
            ladder: Ladder::new(),
            reported: 0,
        }
    }

    /// One tick: the buttons are sent only when they changed, and the detents
    /// only when there are any.
    pub fn tick(&mut self, l: Levels) -> (r: Reports)
        requires
            old(self).wf(),
        ensures
            final(self).wf(),
            *final(self) == (Surface {
                reported: buttons(sampled(*old(self), l)),
                ..sampled(*old(self), l)
            }),
            match r.buttons {
                Some(report) => final(self).reported != old(self).reported && report@ == seq![
                    1u8,
                    final(self).reported,
                ],
                None => final(self).reported == old(self).reported,
            },
            ({
                let detents = turned(old(self).encoder, pair(l.encoder_a, l.encoder_b)).1;
                match r.detents {
                    Some(report) => detents != 0 && report@ == seq![2u8, byte(detents)],
                    None => detents == 0,
                }
            }),
    {
        let enter: u8 = bit_of(self.enter.poll(l.enter), 1u8 << BIT_ENTER);
        let ff: u8 = bit_of(self.ff.poll(l.ff), 1u8 << BIT_FF);
        let rew: u8 = bit_of(self.rew.poll(l.rew), 1u8 << BIT_REW);
        let play: u8 = bit_of(self.play.poll(l.play), 1u8 << BIT_PLAY);
        let back: u8 = bit_of(self.back.poll(l.back), 1u8 << BIT_BACK);
        let cue: u8 = bit_of(self.cue.poll(l.cue), 1u8 << BIT_CUE);
        let shared: u8 = self.ladder.poll(l.ladder);
        let now: u8 = enter | ff | rew | play | back | cue | shared;
        let changed: bool = now != self.reported;
        self.reported = now;
        let detents: i8 = self.encoder.poll(l.encoder_a, l.encoder_b);
        let sent: Option<[u8; 2]> = if detents > 0 {
            Some([2, detents as u8])
        } else if detents < 0 {
            Some([2, (256 + detents as i16) as u8])
        } else {
            None
        };
        Reports {
            buttons: if changed {
                Some([1, now])
            } else {
                None
            },
            detents: sent,
        }
    }
}

/// A press of each of the first six buttons and its release, in the order of
/// the bits, then four detents one way and four the other.
pub open spec fn selftest_says() -> Seq<Seq<u8>> {
    Seq::new(
        20,
        |i: int|
            if i < 12 {
                if i % 2 == 0 {
                    seq![1u8, 1u8 << ((i / 2) as u8)]
                } else {
                    seq![1u8, 0u8]
                }
            } else if i < 16 {
                seq![2u8, 1u8]
            } else {
                seq![2u8, 255u8]
            },
    )
}

/// The reports of a self test: what matters is the order, which shows that a
/// bit is the bit the descriptor claims.
pub fn selftest() -> (r: Vec<[u8; 2]>)
    ensures
        r@.map_values(|report: [u8; 2]| report@) == selftest_says(),
{
    let mut out: Vec<[u8; 2]> = Vec::new();
    let mut i: u8 = 0;
    while i < 20
        invariant
            i <= 20,
            out@.len() == i,
            forall|k: int| 0 <= k < i ==> (#[trigger] out@[k])@ == selftest_says()[k],
        decreases 20 - i,
    {
        let report: [u8; 2] = if i < 12 {
            if i % 2 == 0 {
                [1, 1u8 << (i / 2)]
            } else {
                [1, 0]
            }
        } else if i < 16 {
            [2, 1]
        } else {
            [2, 255]
        };
        assert(report@ =~= selftest_says()[i as int]);
        out.push(report);
        i = i + 1;
    }
    assert(out@.map_values(|report: [u8; 2]| report@) =~= selftest_says());
    out
}

/// The usages that some bytes of a descriptor name, one after another.
pub open spec fn usages(bytes: Seq<u8>) -> Seq<int>
    decreases bytes.len(),
{
    if bytes.len() >= 2 && bytes[0] == 0x09 {
        seq![bytes[1] as int] + usages(bytes.skip(2))
    } else if bytes.len() >= 3 && bytes[0] == 0x0A {
        seq![bytes[1] + 256 * bytes[2]] + usages(bytes.skip(3))
    } else {
        Seq::empty()
    }
}

/// The button each bit of the first report means.
pub open spec fn button_of(bit: int) -> Button {
    if bit == BIT_ENTER {
        Button::Enter
    } else if bit == BIT_FF {
        Button::Ff
    } else if bit == BIT_REW {
        Button::Rew
    } else if bit == BIT_PLAY {
        Button::PlayPause
    } else if bit == BIT_BACK {
        Button::Back
    } else if bit == BIT_CUE {
        Button::Cue
    } else if bit == BIT_TRACK_NEXT {
        Button::TrackNext
    } else {
        Button::TrackPrev
    }
}

/// The keycode the kernel makes of a Consumer usage, of those used here. Stop
/// is not among them: CUE needs AC Stop.
pub open spec fn keycode_of(usage: int) -> u16 {
    if usage == 0x084 {
        28
    } else if usage == 0x0b3 {
        208
    } else if usage == 0x0b4 {
        168
    } else if usage == 0x0cd {
        164
    } else if usage == 0x224 {
        158
    } else if usage == 0x226 {
        128
    } else if usage == 0x0b5 {
        163
    } else if usage == 0x0b6 {
        165
    } else {
        0
    }
}

/// The descriptor names eight usages, and the usage of each bit becomes the
/// keycode of the button that bit means.
#[verifier::rlimit(50)]
pub proof fn law_every_bit_is_the_button_it_means(bit: int)
    requires
        0 <= bit < 8,
    ensures
        usages(REPORT_DESCRIPTOR@.skip(USAGES_AT as int)).len() == 8,
        Button::of_code(
            keycode_of(usages(REPORT_DESCRIPTOR@.skip(USAGES_AT as int))[bit]),
        ) == Some(button_of(bit)),
{
    let d = REPORT_DESCRIPTOR@;
    assert(d.skip(34)[0] == 0x81);
    assert(usages(d.skip(34)) =~= Seq::empty());
    assert(d.skip(32).skip(2) =~= d.skip(34));
    assert(usages(d.skip(32)) =~= seq![0xb6int]);
    assert(d.skip(30).skip(2) =~= d.skip(32));
    assert(usages(d.skip(30)) =~= seq![0xb5int, 0xb6int]);
    assert(d.skip(27).skip(3) =~= d.skip(30));
    assert(usages(d.skip(27)) =~= seq![0x226int, 0xb5int, 0xb6int]);
    assert(d.skip(24).skip(3) =~= d.skip(27));
    assert(usages(d.skip(24)) =~= seq![0x224int, 0x226int, 0xb5int, 0xb6int]);
    assert(d.skip(22).skip(2) =~= d.skip(24));
    assert(usages(d.skip(22)) =~= seq![0xcdint, 0x224int, 0x226int, 0xb5int, 0xb6int]);
    assert(d.skip(20).skip(2) =~= d.skip(22));
    assert(usages(d.skip(20)) =~= seq![0xb4int, 0xcdint, 0x224int, 0x226int, 0xb5int, 0xb6int]);
    assert(d.skip(18).skip(2) =~= d.skip(20));
    assert(usages(d.skip(18)) =~= seq![
        0xb3int,
        0xb4int,
        0xcdint,
        0x224int,
        0x226int,
        0xb5int,
        0xb6int,
    ]);
    assert(d.skip(16).skip(2) =~= d.skip(18));
    assert(usages(d.skip(16)) =~= seq![
        0x84int,
        0xb3int,
        0xb4int,
        0xcdint,
        0x224int,
        0x226int,
        0xb5int,
        0xb6int,
    ]);
}

/// A labelled number.
pub open spec fn field(label: Seq<u8>, value: u16) -> Seq<u8> {
    label + digits(value as nat)
}

/// Appends a labelled number, and gives how many bytes that took.
pub fn write_field(out: &mut Vec<u8>, label: &[u8], value: u16) -> (r: usize)
    ensures
        final(out)@ == old(out)@ + field(label@, value),
        r == field(label@, value).len(),
{
    let before: usize = out.len();
    out.extend_from_slice(label);
    push_digits(out, value as u64);
    assert(out@ =~= old(out)@ + field(label@, value));
    out.len() - before
}

pub const F_LABEL: [u8; 2] = [102, 61];

pub const FMIN_LABEL: [u8; 6] = [32, 102, 109, 105, 110, 61];

pub const FMAX_LABEL: [u8; 6] = [32, 102, 109, 97, 120, 61];

pub const K_LABEL: [u8; 3] = [32, 107, 61];

pub const KMIN_LABEL: [u8; 6] = [32, 107, 109, 105, 110, 61];

/// The extremes of the fader, and the floor of the ladder, seen so far.
#[derive(Debug, Clone, Copy, PartialEq, Eq, Structural)]
pub struct FaderProbe {
    pub min: u16,
    pub max: u16,
    pub kmin: u16,
}

pub open spec fn least(a: u16, b: u16) -> u16 {
    if a < b {
        a
    } else {
        b
    }
}

pub open spec fn most(a: u16, b: u16) -> u16 {
    if a > b {
        a
    } else {
        b
    }
}

impl FaderProbe {
    pub fn new() -> (r: FaderProbe)
        ensures
            r == (FaderProbe { min: u16::MAX, max: 0, kmin: u16::MAX }),
    {
        FaderProbe { min: u16::MAX, max: 0, kmin: u16::MAX }
    }

    /// Takes one reading of each, and gives the line that says so.
    pub fn sample(&mut self, count: u16, k: u16) -> (r: Vec<u8>)
        ensures
            *final(self) == (FaderProbe {
                min: least(count, old(self).min),
                max: most(count, old(self).max),
                kmin: least(k, old(self).kmin),
            }),
            r@ == field(F_LABEL@, count) + field(FMIN_LABEL@, final(self).min) + field(
                FMAX_LABEL@,
                final(self).max,
            ) + field(K_LABEL@, k) + field(KMIN_LABEL@, final(self).kmin) + seq![13u8, 10u8],
    {
        if count < self.min {
            self.min = count;
        }
        if count > self.max {
            self.max = count;
        }
        if k < self.kmin {
            self.kmin = k;
        }
        let mut line: Vec<u8> = Vec::new();
        write_field(&mut line, &F_LABEL, count);
        write_field(&mut line, &FMIN_LABEL, self.min);
        write_field(&mut line, &FMAX_LABEL, self.max);
        write_field(&mut line, &K_LABEL, k);
        write_field(&mut line, &KMIN_LABEL, self.kmin);
        line.push(13);
        line.push(10);
        assert(line@ =~= field(F_LABEL@, count) + field(FMIN_LABEL@, self.min) + field(
            FMAX_LABEL@,
            self.max,
        ) + field(K_LABEL@, k) + field(KMIN_LABEL@, self.kmin) + seq![13u8, 10u8]);
        line
    }
}

/// A level on the ladder is in the bucket of as many bounds as it does not
/// reach past, so a lower level is never in an earlier bucket.
pub proof fn law_a_bucket_is_the_bounds_above(count: u16, lower: u16)
    ensures
        bucket(count) <= 6,
        bucket(count) > 0 <==> count <= 3506,
        bucket(count) > 1 <==> count <= 2755,
        bucket(count) > 2 <==> count <= 2043,
        bucket(count) > 3 <==> count <= 1310,
        bucket(count) > 4 <==> count <= 748,
        bucket(count) > 5 <==> count <= 311,
        lower <= count ==> bucket(lower) >= bucket(count),
{
}

/// A level that is held for forty readings is believed, whatever was settled
/// before, and a reading that failed changes nothing.
pub proof fn law_a_level_held_is_believed(l: Ladder, counts: Seq<u16>, b: usize)
    requires
        l.held == 0,
        0 < counts.len() <= 255,
        forall|i: int| 0 <= i < counts.len() ==> bucket(#[trigger] counts[i]) == b,
    ensures
        counts.len() >= 40 ==> read_all(l, counts).settled == b,
        counts.len() < 40 ==> read_all(l, counts).settled == l.settled,
        read_all(l, counts).candidate == b,
        read_all(l, counts).held == counts.len(),
        read_level(l, None) == l,
    decreases counts.len(),
{
    let front = counts.drop_last();
    assert(bucket(counts[counts.len() - 1]) == b);
    if front.len() > 0 {
        assert forall|i: int| 0 <= i < front.len() implies bucket(#[trigger] front[i]) == b by {
            assert(front[i] == counts[i]);
        }
        law_a_level_held_is_believed(l, front, b);
    } else {
        assert(read_all(l, front) == l);
    }
}

/// Each step of the ladder that means a button is that button, and the rest
/// mean none.
pub proof fn law_the_ladder_means_its_buttons()
    ensures
        ladder_bits(1) == 1u8 << 2u8,
        ladder_bits(2) == 1u8 << 1u8,
        ladder_bits(3) == 1u8 << 7u8,
        ladder_bits(4) == 1u8 << 6u8,
        ladder_bits(0) == 0 && ladder_bits(5) == 0 && ladder_bits(6) == 0,
        button_of(2) == Button::Rew && button_of(1) == Button::Ff,
        button_of(7) == Button::TrackPrev && button_of(6) == Button::TrackNext,
{
}

/// The report has a bit for each button, set while its switch is held or the
/// ladder stands on it, and no bit for anything else.
pub proof fn law_the_report_is_what_is_held(s: Surface)
    ensures
        ({
            let r = buttons(s);
            let l = s.ladder.settled;
            &&& r & 1u8 != 0 <==> s.enter.stable
            &&& r & 2u8 != 0 <==> s.ff.stable || l == 2
            &&& r & 4u8 != 0 <==> s.rew.stable || l == 1
            &&& r & 8u8 != 0 <==> s.play.stable
            &&& r & 16u8 != 0 <==> s.back.stable
            &&& r & 32u8 != 0 <==> s.cue.stable
            &&& r & 64u8 != 0 <==> l == 4
            &&& r & 128u8 != 0 <==> l == 3
        }),
{
    let (e, f, w, p, b, c) = (
        s.enter.stable,
        s.ff.stable,
        s.rew.stable,
        s.play.stable,
        s.back.stable,
        s.cue.stable,
    );
    let l = ladder_bits(s.ladder.settled);
    let r = buttons(s);
    let (l1, l2, l3, l4) = (
        s.ladder.settled == 1,
        s.ladder.settled == 2,
        s.ladder.settled == 3,
        s.ladder.settled == 4,
    );
    assert(r == (if e { 1u8 << 0u8 } else { 0u8 }) | (if f { 1u8 << 1u8 } else { 0u8 }) | (if w {
        1u8 << 2u8
    } else {
        0u8
    }) | (if p { 1u8 << 3u8 } else { 0u8 }) | (if b { 1u8 << 4u8 } else { 0u8 }) | (if c {
        1u8 << 5u8
    } else {
        0u8
    }) | l);
    assert((r & 1u8 != 0 <==> e) && (r & 2u8 != 0 <==> f || l2) && (r & 4u8 != 0 <==> w || l1) && (r
        & 8u8 != 0 <==> p) && (r & 16u8 != 0 <==> b) && (r & 32u8 != 0 <==> c) && (r & 64u8 != 0 <==>
        l4) && (r & 128u8 != 0 <==> l3)) by (bit_vector)
        requires
            r == (if e { 1u8 << 0u8 } else { 0u8 }) | (if f { 1u8 << 1u8 } else { 0u8 }) | (if w {
                1u8 << 2u8
            } else {
                0u8
            }) | (if p { 1u8 << 3u8 } else { 0u8 }) | (if b { 1u8 << 4u8 } else { 0u8 }) | (if c {
                1u8 << 5u8
            } else {
                0u8
            }) | l,
            l == (if l1 { 1u8 << 2u8 } else if l2 { 1u8 << 1u8 } else if l3 { 1u8 << 7u8 } else if l4 {
                1u8 << 6u8
            } else {
                0u8
            }),
            !(l1 && l2) && !(l1 && l3) && !(l1 && l4) && !(l2 && l3) && !(l2 && l4) && !(l3 && l4),
    ;
}

/// Every switch is sampled from its own line.
pub proof fn law_every_switch_has_its_line(s: Surface, l: Levels)
    ensures
        ({
            let n = sampled(s, l);
            &&& l.enter == s.enter.stable ==> n.enter.stable == s.enter.stable && n.enter.ticks == 0
            &&& l.back == s.back.stable ==> n.back.stable == s.back.stable && n.back.ticks == 0
            &&& l.play == s.play.stable ==> n.play.stable == s.play.stable && n.play.ticks == 0
            &&& l.cue == s.cue.stable ==> n.cue.stable == s.cue.stable && n.cue.ticks == 0
            &&& l.rew == s.rew.stable ==> n.rew.stable == s.rew.stable && n.rew.ticks == 0
            &&& l.ff == s.ff.stable ==> n.ff.stable == s.ff.stable && n.ff.ticks == 0
            &&& l.enter != s.enter.stable && s.enter.ticks < 39 ==> n.enter.ticks == s.enter.ticks
                + 1
            &&& l.back != s.back.stable && s.back.ticks < 39 ==> n.back.ticks == s.back.ticks + 1
            &&& l.play != s.play.stable && s.play.ticks < 39 ==> n.play.ticks == s.play.ticks + 1
            &&& l.cue != s.cue.stable && s.cue.ticks < 39 ==> n.cue.ticks == s.cue.ticks + 1
            &&& l.rew != s.rew.stable && s.rew.ticks < 39 ==> n.rew.ticks == s.rew.ticks + 1
            &&& l.ff != s.ff.stable && s.ff.ticks < 39 ==> n.ff.ticks == s.ff.ticks + 1
            &&& l.ladder is None ==> n.ladder == s.ladder
            &&& n.encoder.last == (if l.encoder_a {
                2int
            } else {
                0
            }) + (if l.encoder_b {
                1int
            } else {
                0
            })
        }),
{
}

/// Once round the four positions is one detent, up the one way and down the
/// other.
pub proof fn law_once_round_is_one_detent(e: Encoder)
    requires
        e.last == 0,
        e.steps == 0,
    ensures
        ({
            let a = turned(e, 2);
            let b = turned(a.0, 3);
            let c = turned(b.0, 1);
            let d = turned(c.0, 0);
            a.1 + b.1 + c.1 + d.1 == 1 && d.0 == e
        }),
        ({
            let a = turned(e, 1);
            let b = turned(a.0, 3);
            let c = turned(b.0, 2);
            let d = turned(c.0, 0);
            a.1 + b.1 + c.1 + d.1 == -1 && d.0 == e
        }),
{
    let q = QUADRATURE@;
    assert(q[2] == 1 && q[11] == 1 && q[13] == 1 && q[4] == 1);
    assert(q[1] == -1 && q[7] == -1 && q[14] == -1 && q[8] == -1);
}

/// A count below zero is sent as the byte it is in two's complement.
pub proof fn law_a_count_is_sent_as_its_byte(n: i8)
    ensures
        n >= 0 ==> byte(n) == n,
        n < 0 ==> byte(n) == 256 + n,
{
}

} // verus!
