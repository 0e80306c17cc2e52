//! The control loop: events in, actions out.
//!
//! The deck is serviced before the presses of a turn are applied, so that a
//! press is taken against what the deck is.

use vstd::prelude::*;

use crate::app::deck::DeckError;
use crate::app::track::Ended;
use crate::input::{
    closing, fed, fed_all, forgotten, held, law_presses_and_releases_alternate,
    lemma_one_event_alternates, lemma_pressed_on, pressed_after, times, Action, Button, Decoder,
    Held, RawEvent, EV_SYN, SYN_DROPPED,
};

verus! {

/// How long a turn waits for an event, in nanoseconds.
pub const POLL: u128 = 10_000_000;

/// What one turn produced.
#[derive(Debug)]
pub struct Turn {
    /// Actions handed to the deck.
    pub actions: usize,
    /// Devices that went away.
    pub lost: usize,
    /// Devices that came back.
    pub reopened: usize,
    /// The track ended, or its threads went.
    pub ended: Option<Ended>,
    /// Presses that could not be carried out.
    pub errors: Vec<DeckError>,
}

impl Default for Turn {
    fn default() -> (r: Turn)
        ensures
            r.actions == 0,
            r.lost == 0,
            r.reopened == 0,
            r.ended is None,
            r.errors@.len() == 0,
    {
        Turn { actions: 0, lost: 0, reopened: 0, ended: None, errors: Vec::new() }
    }
}

/// What a turn does to what is held, and the actions it gives. A device that
/// went away takes its presses with it, so everything held is closed first.
pub open spec fn turned(d: Held, lost: int, events: Seq<RawEvent>) -> (Held, Seq<Action>) {
    if lost > 0 {
        let rest = fed_all(forgotten(d), events);
        (rest.0, closing(d.down) + rest.1)
    } else {
        fed_all(d, events)
    }
}

/// The decoder, and the resets it owed.
#[derive(Debug)]
pub struct Controls {
    pub decoder: Decoder,
    pub resets: u64,
}

impl Controls {
    pub open spec fn wf(&self) -> bool {
        self.decoder.wf()
    }

    /// Takes the range of the axis at construction: without it one wrap of the
    /// encoder scrolls the length of the axis. A range that cannot be measured
    /// is no range.
    pub fn new(abs_range: Option<(i32, i32)>) -> (r: Controls)
        ensures
            r.wf(),
            r.resets == 0,
            r.decoder@ == (Held {
                down: Seq::new(8, |i: int| false),
                abs: None,
                abs_range: match abs_range {
                    Some((min, max)) => if min < max && max - min <= i32::MAX {
                        Some((min, max))
                    } else {
                        None
                    },
                    None => None,
                },
            }),
    {
        let mut decoder: Decoder = Decoder::new();
        if let Some((min, max)) = abs_range {
            if (max as i64) - (min as i64) <= i32::MAX as i64 {
                decoder.set_abs_range(min, max);
            }
        }
        Controls { decoder, resets: 0 }
    }

    /// How often a lost device made the decoder give up what it held.
    pub fn resets(&self) -> (r: u64)
        ensures
            r == self.resets,
    {
        self.resets
    }

    /// Whether the encoder sits on a bound of its axis.
    pub fn axis_is_clamped(&self) -> (r: bool)
        ensures
            r == (self.decoder.abs_range is Some && self.decoder.abs is Some && (
            self.decoder.abs->0 == (self.decoder.abs_range->0).0 || self.decoder.abs->0 == (
            self.decoder.abs_range->0).1)),
    {
        self.decoder.absolute_axis_is_clamped()
    }

    /// The actions of one turn, from what was read in it and how many devices
    /// went away.
    pub fn turn(&mut self, lost: usize, events: &[RawEvent]) -> (r: Vec<Action>)
        requires
            old(self).wf(),
            old(self).resets < u64::MAX,
        ensures
            final(self).wf(),
            final(self).decoder@ == turned(old(self).decoder@, lost as int, events@).0,
            r@ == turned(old(self).decoder@, lost as int, events@).1,
            final(self).resets == old(self).resets + (if lost > 0 {
                1int
            } else {
                0int
            }),
    {
        let mut actions: Vec<Action> = Vec::new();
        let ghost start = self.decoder@;
        if lost > 0 {
            self.resets = self.resets + 1;
            self.decoder.reset(&mut actions);
            assert(actions@ =~= closing(start.down));
        }
        let ghost base = self.decoder@;
        let ghost closed = actions@;
        let mut i: usize = 0;
        assert(events@.take(0) =~= Seq::empty());
        assert(actions@ =~= closed + Seq::empty());
        while i < events.len()
            invariant
                i <= events@.len(),
                self.wf(),
                self.decoder@ == fed_all(base, events@.take(i as int)).0,
                actions@ == closed + fed_all(base, events@.take(i as int)).1,
                self.resets == old(self).resets + (if lost > 0 {
                    1int
                } else {
                    0int
                }),
            decreases events@.len() - i,
        {
            assert(events@.take(i + 1).drop_last() =~= events@.take(i as int));
            let ghost before = fed_all(base, events@.take(i as int));
            self.decoder.feed(events[i], &mut actions);
            assert(actions@ =~= closed + (before.1 + fed(before.0, events@[i as int]).1));
            i = i + 1;
        }
        assert(events@.take(i as int) =~= events@);
        assert(lost == 0 ==> actions@ =~= fed_all(start, events@).1);
        actions
    }
}

/// What a whole run of the loop did.
#[derive(Debug, Clone, Copy, PartialEq, Eq, Structural)]
pub struct Report {
    pub turns: u64,
    pub actions: u64,
    pub lost: u64,
    pub errors: u64,
    pub ends: u64,
    /// Changes of medium.
    pub media: u64,
}

impl Default for Report {
    fn default() -> (r: Report)
        ensures
            r == (Report { turns: 0, actions: 0, lost: 0, errors: 0, ends: 0, media: 0 }),
    {
        Report { turns: 0, actions: 0, lost: 0, errors: 0, ends: 0, media: 0 }
    }
}

impl Report {
    /// Counts one turn, and whether the medium changed in it.
    pub fn count(&mut self, turn: &Turn, changed: bool)
        requires
            old(self).turns < u64::MAX,
            old(self).actions + turn.actions <= u64::MAX,
            old(self).lost + turn.lost <= u64::MAX,
            old(self).errors + turn.errors@.len() <= u64::MAX,
            old(self).ends < u64::MAX,
            old(self).media < u64::MAX,
        ensures
            *final(self) == (Report {
                turns: (old(self).turns + 1) as u64,
                actions: (old(self).actions + turn.actions) as u64,
                lost: (old(self).lost + turn.lost) as u64,
                errors: (old(self).errors + turn.errors@.len()) as u64,
                ends: (old(self).ends + if turn.ended is Some {
                    1int
                } else {
                    0int
                }) as u64,
                media: (old(self).media + if changed {
                    1int
                } else {
                    0int
                }) as u64,
            }),
    {
        self.turns = self.turns + 1;
        self.actions = self.actions + turn.actions as u64;
        self.lost = self.lost + turn.lost as u64;
        self.errors = self.errors + turn.errors.len() as u64;
        if turn.ended.is_some() {
            self.ends = self.ends + 1;
        }
        if changed {
            self.media = self.media + 1;
        }
    }
}

/// A device that vanishes ends the gesture it was holding: of every button
/// that is held, the turn says the release first, once, and nothing is held
/// when the events of the turn are read.
pub proof fn law_a_vanished_device_ends_the_gesture_it_was_holding(
    d: Held,
    lost: int,
    events: Seq<RawEvent>,
    b: Button,
)
    requires
        d.down.len() == 8,
        lost > 0,
        b.momentary(),
    ensures
        turned(d, lost, events).1.take(closing(d.down).len() as int) == closing(d.down),
        times(closing(d.down), Action::Release(b)) == held(d, b),
        held(forgotten(d), b) == 0,
        turned(d, lost, events).0 == fed_all(forgotten(d), events).0,
{
    reveal_with_fuel(times, 5);
    let said = closing(d.down);
    assert(turned(d, lost, events).1.take(said.len() as int) =~= said);
    assert(said.len() <= 3);
    if said.len() == 3 {
        assert(said.drop_last().drop_last().drop_last() =~= Seq::empty());
        assert(said.drop_last().last() == said[1]);
        assert(said.drop_last().drop_last().last() == said[0]);
    } else if said.len() == 2 {
        assert(said.drop_last().drop_last() =~= Seq::empty());
        assert(said.drop_last().last() == said[0]);
    } else if said.len() == 1 {
        assert(said.drop_last() =~= Seq::empty());
    }
}

/// Over any run of events, a momentary button's presses less its releases are
/// what is newly held: nothing it opens stays open once it is up.
pub proof fn law_gestures_stay_closed(d: Held, events: Seq<RawEvent>, b: Button)
    requires
        d.down.len() == 8,
        b.momentary(),
    ensures
        fed_all(d, events).0.down.len() == 8,
        times(fed_all(d, events).1, Action::Press(b)) - times(
            fed_all(d, events).1,
            Action::Release(b),
        ) == held(fed_all(d, events).0, b) - held(d, b),
    decreases events.len(),
{
    if events.len() > 0 {
        law_gestures_stay_closed(d, events.drop_last(), b);
        let before = fed_all(d, events.drop_last());
        crate::input::law_every_gesture_is_closed_once(before.0, events.last(), b);
        lemma_times_add(before.1, fed(before.0, events.last()).1, Action::Press(b));
        lemma_times_add(before.1, fed(before.0, events.last()).1, Action::Release(b));
    }
}

/// Presses and releases of a momentary button come in turn over a turn of the
/// controls too, devices that went away included.
pub proof fn law_a_turn_keeps_presses_and_releases_in_turn(
    d: Held,
    lost: int,
    events: Seq<RawEvent>,
    b: Button,
)
    requires
        d.down.len() == 8,
        b.momentary(),
    ensures
        turned(d, lost, events).0.down.len() == 8,
        pressed_after(turned(d, lost, events).1, b, d.down[b.at()]) == Some(
            turned(d, lost, events).0.down[b.at()],
        ),
{
    if lost > 0 {
        let dropped = RawEvent { kind: EV_SYN, code: SYN_DROPPED, value: 0 };
        lemma_one_event_alternates(d, dropped, b);
        law_presses_and_releases_alternate(forgotten(d), events, b);
        lemma_pressed_on(closing(d.down), fed_all(forgotten(d), events).1, b, d.down[b.at()]);
    } else {
        law_presses_and_releases_alternate(d, events, b);
    }
}

proof fn lemma_times_add(x: Seq<Action>, y: Seq<Action>, a: Action)
    ensures
        times(x + y, a) == times(x, a) + times(y, a),
    decreases y.len(),
{
    if y.len() == 0 {
        assert(x + y =~= x);
    } else {
        assert((x + y).drop_last() =~= x + y.drop_last());
        lemma_times_add(x, y.drop_last(), a);
    }
}

} // verus!
