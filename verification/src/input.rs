//! The buttons and the encoder.
//!
//! Raw events in, actions out. A `Simple` button says something on the press
//! and nothing on the release; a `Momentary` one says both, and every press it
//! says is closed by exactly one release, whatever happens to the events in
//! between.

use vstd::prelude::*;
use vstd::utf8::{decode_utf8, valid_utf8};

use crate::cue::{before, comes_before, lemma_before_irreflexive, lemma_before_total, lemma_before_transitive};
use crate::text::{chars_of, copied, same_bytes, text_in};

verus! {

#[derive(Debug, Clone, Copy, PartialEq, Eq, Hash, Structural)]
pub enum Button {
    Back,
    PlayPause,
    Cue,
    Enter,
    Rew,
    Ff,
    TrackNext,
    TrackPrev,
}

/// What a button says.
#[derive(Debug, Clone, Copy, PartialEq, Eq, Structural)]
pub enum Discipline {
    /// On the press, and nothing on the release.
    Simple,
    /// On the press and on the release.
    Momentary,
}

/// Every button, in the order they are kept track of.
pub const ALL: [Button; 8] = [
    Button::Back,
    Button::PlayPause,
    Button::Cue,
    Button::Enter,
    Button::Rew,
    Button::Ff,
    Button::TrackNext,
    Button::TrackPrev,
];

impl Button {
    /// The kernel's code for the key a button sends.
    pub open spec fn code(self) -> u16 {
        match self {
            Button::Back => 158,
            Button::PlayPause => 164,
            Button::Cue => 128,
            Button::Enter => 28,
            Button::Rew => 168,
            Button::Ff => 208,
            Button::TrackNext => 163,
            Button::TrackPrev => 165,
        }
    }

    pub open spec fn of_code(code: u16) -> Option<Button> {
        if code == 158 {
            Some(Button::Back)
        } else if code == 164 {
            Some(Button::PlayPause)
        } else if code == 128 {
            Some(Button::Cue)
        } else if code == 28 {
            Some(Button::Enter)
        } else if code == 168 {
            Some(Button::Rew)
        } else if code == 208 {
            Some(Button::Ff)
        } else if code == 163 {
            Some(Button::TrackNext)
        } else if code == 165 {
            Some(Button::TrackPrev)
        } else {
            None
        }
    }

    pub fn from_keycode(code: u16) -> (r: Option<Button>)
        ensures
            r == Button::of_code(code),
    {
        match code {
            158 => Some(Button::Back),
            164 => Some(Button::PlayPause),
            128 => Some(Button::Cue),
            28 => Some(Button::Enter),
            168 => Some(Button::Rew),
            208 => Some(Button::Ff),
            163 => Some(Button::TrackNext),
            165 => Some(Button::TrackPrev),
            _ => None,
        }
    }

    pub fn keycode(self) -> (r: u16)
        ensures
            r == self.code(),
    {
        match self {
            Button::Back => 158,
            Button::PlayPause => 164,
            Button::Cue => 128,
            Button::Enter => 28,
            Button::Rew => 168,
            Button::Ff => 208,
            Button::TrackNext => 163,
            Button::TrackPrev => 165,
        }
    }

    pub open spec fn momentary(self) -> bool {
        self == Button::Cue || self == Button::Rew || self == Button::Ff
    }

    pub fn discipline(self) -> (r: Discipline)
        ensures
            r == (if self.momentary() {
                Discipline::Momentary
            } else {
                Discipline::Simple
            }),
    {
        match self {
            Button::Back => Discipline::Simple,
            Button::PlayPause => Discipline::Simple,
            Button::Enter => Discipline::Simple,
            Button::TrackNext => Discipline::Simple,
            Button::TrackPrev => Discipline::Simple,
            Button::Cue => Discipline::Momentary,
            Button::Rew => Discipline::Momentary,
            Button::Ff => Discipline::Momentary,
        }
    }

    pub open spec fn at(self) -> int {
        match self {
            Button::Back => 0,
            Button::PlayPause => 1,
            Button::Cue => 2,
            Button::Enter => 3,
            Button::Rew => 4,
            Button::Ff => 5,
            Button::TrackNext => 6,
            Button::TrackPrev => 7,
        }
    }

    fn index(self) -> (r: usize)
        ensures
            r == self.at(),
            r < 8,
    {
        match self {
            Button::Back => 0,
            Button::PlayPause => 1,
            Button::Cue => 2,
            Button::Enter => 3,
            Button::Rew => 4,
            Button::Ff => 5,
            Button::TrackNext => 6,
            Button::TrackPrev => 7,
        }
    }
}

/// What the operator did.
#[derive(Debug, Clone, Copy, PartialEq, Eq, Structural)]
pub enum Action {
    Press(Button),
    Release(Button),
    /// Detents of the encoder.
    Browse(i32),
}

/// One event as the kernel reports it.
#[derive(Debug, Clone, Copy, PartialEq, Eq, Structural)]
pub struct RawEvent {
    pub kind: u16,
    pub code: u16,
    pub value: i32,
}

pub const EV_SYN: u16 = 0x00;

pub const EV_KEY: u16 = 0x01;

pub const EV_REL: u16 = 0x02;

pub const EV_ABS: u16 = 0x03;

pub const REL_X: u16 = 0x00;

pub const ABS_X: u16 = 0x00;

/// The kernel's queue overflowed and events were lost.
pub const SYN_DROPPED: u16 = 0x03;

/// What the control surface calls itself.
pub const PRODUCT: &'static str = "deck-pi control surface";

/// What a device can send.
#[derive(Debug, Clone, Copy, PartialEq, Eq, Structural)]
pub struct Carries {
    pub buttons: bool,
    pub detents: bool,
}

impl Default for Carries {
    fn default() -> (r: Carries)
        ensures
            !r.buttons,
            !r.detents,
    {
        Carries { buttons: false, detents: false }
    }
}

impl Carries {
    pub fn anything(self) -> (r: bool)
        ensures
            r == (self.buttons || self.detents),
    {
        self.buttons || self.detents
    }
}

/// Whether a capability bitmap has a code: a bitmap that is too short for it
/// does not.
pub open spec fn coded(bitmap: Seq<u8>, code: u16) -> bool {
    code as int / 8 < bitmap.len() && (bitmap[code as int / 8] >> ((code % 8) as u32)) & 1u8 == 1u8
}

pub fn has_code(bitmap: &[u8], code: u16) -> (r: bool)
    ensures
        r == coded(bitmap@, code),
{
    let at: usize = (code / 8) as usize;
    if at < bitmap.len() {
        (bitmap[at] >> ((code % 8) as u32)) & 1 == 1
    } else {
        false
    }
}

/// Turns events into actions.
#[derive(Debug)]
pub struct Decoder {
    /// Which buttons are down.
    pub down: [bool; 8],
    /// Where an absolute axis was.
    pub abs: Option<i32>,
    pub abs_range: Option<(i32, i32)>,
}

/// A decoder as a mathematical value.
pub struct Held {
    pub down: Seq<bool>,
    pub abs: Option<i32>,
    pub abs_range: Option<(i32, i32)>,
}

impl View for Decoder {
    type V = Held;

    open spec fn view(&self) -> Held {
        Held { down: self.down@, abs: self.abs, abs_range: self.abs_range }
    }
}

/// A difference the shorter way round an axis that wraps.
pub open spec fn shorter(delta: int, range: Option<(i32, i32)>) -> int {
    match range {
        None => delta,
        Some((min, max)) => {
            let span = if max - min < i32::MAX {
                max - min + 1
            } else {
                i32::MAX as int
            };
            if delta > span / 2 {
                delta - span
            } else if delta < -(span / 2) {
                delta + span
            } else {
                delta
            }
        },
    }
}

/// A difference as far as a machine word can say it.
pub open spec fn difference(a: i32, b: i32) -> int {
    if a - b > i32::MAX {
        i32::MAX as int
    } else if a - b < i32::MIN {
        i32::MIN as int
    } else {
        a - b
    }
}

/// The releases that close what is held: nothing else needs closing.
pub open spec fn closing(down: Seq<bool>) -> Seq<Action> {
    (if down[2] {
        seq![Action::Release(Button::Cue)]
    } else {
        Seq::empty()
    }) + (if down[4] {
        seq![Action::Release(Button::Rew)]
    } else {
        Seq::empty()
    }) + (if down[5] {
        seq![Action::Release(Button::Ff)]
    } else {
        Seq::empty()
    })
}

/// Nothing held, and no position known. The range of the axis is the
/// device's and stays.
pub open spec fn forgotten(d: Held) -> Held {
    Held { down: Seq::new(8, |i: int| false), abs: None, ..d }
}

/// What one event does: what is held after it, and what it says.
pub open spec fn fed(d: Held, ev: RawEvent) -> (Held, Seq<Action>) {
    if ev.kind == EV_KEY {
        match Button::of_code(ev.code) {
            None => (d, Seq::empty()),
            Some(b) => if ev.value == 1 && !d.down[b.at()] {
                (Held { down: d.down.update(b.at(), true), ..d }, seq![Action::Press(b)])
            } else if ev.value == 0 && d.down[b.at()] {
                (
                    Held { down: d.down.update(b.at(), false), ..d },
                    if b.momentary() {
                        seq![Action::Release(b)]
                    } else {
                        Seq::empty()
                    },
                )
            } else {
                (d, Seq::empty())
            },
        }
    } else if ev.kind == EV_REL && ev.code == REL_X {
        (
            d,
            if ev.value != 0 {
                seq![Action::Browse(ev.value)]
            } else {
                Seq::empty()
            },
        )
    } else if ev.kind == EV_ABS && ev.code == ABS_X {
        let step = match d.abs {
            Some(prev) => if ev.value != prev {
                shorter(difference(ev.value, prev), d.abs_range)
            } else {
                0
            },
            None => 0,
        };
        (
            Held { abs: Some(ev.value), ..d },
            if step != 0 {
                seq![Action::Browse(step as i32)]
            } else {
                Seq::empty()
            },
        )
    } else if ev.kind == EV_SYN && ev.code == SYN_DROPPED {
        (forgotten(d), closing(d.down))
    } else {
        (d, Seq::empty())
    }
}

impl Default for Decoder {
    fn default() -> (r: Decoder)
        ensures
            r.wf(),
            r@ == (Held { down: Seq::new(8, |i: int| false), abs: None, abs_range: None }),
    {
        Decoder::new()
    }
}

impl Decoder {
    /// A range, where there is one, is not empty and can be measured.
    pub open spec fn wf(&self) -> bool {
        self.abs_range matches Some((min, max)) ==> min < max && max - min <= i32::MAX
    }

    pub fn new() -> (r: Decoder)
        ensures
            r.wf(),
            r@ == (Held { down: Seq::new(8, |i: int| false), abs: None, abs_range: None }),
    {
        let r: Decoder = Decoder {
            down: [false, false, false, false, false, false, false, false],
            abs: None,
            abs_range: None,
        };
        assert(r.down@ =~= Seq::new(8, |i: int| false));
        r
    }

    /// The range of an absolute axis. An empty one is ignored.
    pub fn set_abs_range(&mut self, min: i32, max: i32)
        ensures
            old(self).wf() && max - min <= i32::MAX ==> final(self).wf(),
            final(self)@ == (Held {
                abs_range: if max > min {
                    Some((min, max))
                } else {
                    old(self).abs_range
                },
                ..old(self)@
            }),
    {
        if max > min {
            self.abs_range = Some((min, max));
        }
    }

    /// Whether an absolute axis sits on one of its bounds, where one direction
    /// of the encoder may be silent.
    pub fn absolute_axis_is_clamped(&self) -> (r: bool)
        ensures
            r == (self.abs_range is Some && self.abs is Some && (self.abs->0 == (self.abs_range->0).0
                || self.abs->0 == (self.abs_range->0).1)),
    {
        match (self.abs_range, self.abs) {
            (Some((min, max)), Some(at)) => at == min || at == max,
            _ => false,
        }
    }

    fn fold_abs(&self, delta: i32) -> (r: i32)
        requires
            self.wf(),
        ensures
            r == shorter(delta as int, self.abs_range),
    {
        match self.abs_range {
            None => delta,
            Some((min, max)) => {
                let length: i32 = max - min;
                let span: i32 = if length < i32::MAX {
                    length + 1
                } else {
                    i32::MAX
                };
                if delta > span / 2 {
                    delta - span
                } else if delta < -(span / 2) {
                    delta + span
                } else {
                    delta
                }
            },
        }
    }

    /// Takes one event, and appends what it means.
    pub fn feed(&mut self, ev: RawEvent, out: &mut Vec<Action>)
        requires
            old(self).wf(),
        ensures
            final(self).wf(),
            final(self)@ == fed(old(self)@, ev).0,
            final(out)@ == old(out)@ + fed(old(self)@, ev).1,
    {
        let ghost was = self@;
        let ghost before = out@;
        if ev.kind == EV_KEY {
            self.key(ev, out);
        } else if ev.kind == EV_REL && ev.code == REL_X {
            if ev.value != 0 {
                out.push(Action::Browse(ev.value));
            }
        } else if ev.kind == EV_ABS && ev.code == ABS_X {
            let prev: Option<i32> = self.abs;
            self.abs = Some(ev.value);
            if let Some(prev) = prev {
                if ev.value != prev {
                    let delta: i64 = (ev.value as i64) - (prev as i64);
                    let near: i32 = if delta > i32::MAX as i64 {
                        i32::MAX
                    } else if delta < i32::MIN as i64 {
                        i32::MIN
                    } else {
                        delta as i32
                    };
                    let step: i32 = self.fold_abs(near);
                    if step != 0 {
                        out.push(Action::Browse(step));
                    }
                }
            }
        } else if ev.kind == EV_SYN && ev.code == SYN_DROPPED {
            self.reset(out);
        }
        assert(out@ =~= before + fed(was, ev).1);
    }

    fn key(&mut self, ev: RawEvent, out: &mut Vec<Action>)
        requires
            old(self).wf(),
            ev.kind == EV_KEY,
        ensures
            final(self).wf(),
            final(self)@ == fed(old(self)@, ev).0,
            final(out)@ == old(out)@ + fed(old(self)@, ev).1,
    {
        let ghost before = out@;
        if let Some(button) = Button::from_keycode(ev.code) {
            if ev.value == 1 {
                self.press(button, out);
            } else if ev.value == 0 {
                self.release(button, out);
            }
        }
        assert(out@ =~= before + fed(old(self)@, ev).1);
    }

    fn press(&mut self, button: Button, out: &mut Vec<Action>)
        requires
            old(self).wf(),
        ensures
            final(self).wf(),
            old(self).down@[button.at()] ==> final(self)@ == old(self)@ && final(out)@ == old(out)@,
            !old(self).down@[button.at()] ==> final(self)@ == (Held {
                down: old(self).down@.update(button.at(), true),
                ..old(self)@
            }) && final(out)@ == old(out)@.push(Action::Press(button)),
    {
        let i: usize = button.index();
        if self.down[i] {
            return;
        }
        self.down[i] = true;
        out.push(Action::Press(button));
    }

    fn release(&mut self, button: Button, out: &mut Vec<Action>)
        requires
            old(self).wf(),
        ensures
            final(self).wf(),
            !old(self).down@[button.at()] ==> final(self)@ == old(self)@ && final(out)@ == old(out)@,
            old(self).down@[button.at()] ==> final(self)@ == (Held {
                down: old(self).down@.update(button.at(), false),
                ..old(self)@
            }) && final(out)@ == (if button.momentary() {
                old(out)@.push(Action::Release(button))
            } else {
                old(out)@
            }),
    {
        let i: usize = button.index();
        if !self.down[i] {
            return;
        }
        self.down[i] = false;
        if button.discipline() == Discipline::Momentary {
            out.push(Action::Release(button));
        }
    }

    /// Forgets what is held, closing what has to be closed first.
    pub fn reset(&mut self, out: &mut Vec<Action>)
        requires
            old(self).wf(),
        ensures
            final(self).wf(),
            final(self)@ == forgotten(old(self)@),
            final(out)@ == old(out)@ + closing(old(self).down@),
    {
        let ghost before = out@;
        let ghost down = self.down@;
        let mut n: usize = 0;
        let buttons: [Button; 8] = ALL;
        while n < 8
            invariant
                n <= 8,
                buttons@ == ALL@,
                self.wf(),
                self.down@ == down,
                self@ == old(self)@,
                out@ == before + closed_upto(down, n as int),
            decreases 8 - n,
        {
            let button: Button = buttons[n];
            assert(button.at() == n);
            if self.down[button.index()] && button.discipline() == Discipline::Momentary {
                out.push(Action::Release(button));
            }
            assert(out@ =~= before + closed_upto(down, n + 1));
            n = n + 1;
        }
        assert(closed_upto(down, 8) =~= closing(down));
        self.down = [false, false, false, false, false, false, false, false];
        self.abs = None;
        assert(self.down@ =~= Seq::new(8, |i: int| false));
    }
}

spec fn closed_upto(down: Seq<bool>, n: int) -> Seq<Action> {
    (if n > 2 && down[2] {
        seq![Action::Release(Button::Cue)]
    } else {
        Seq::empty()
    }) + (if n > 4 && down[4] {
        seq![Action::Release(Button::Rew)]
    } else {
        Seq::empty()
    }) + (if n > 5 && down[5] {
        seq![Action::Release(Button::Ff)]
    } else {
        Seq::empty()
    })
}

/// How often something was said.
pub open spec fn times(actions: Seq<Action>, a: Action) -> int
    decreases actions.len(),
{
    if actions.len() == 0 {
        0
    } else {
        times(actions.drop_last(), a) + if actions.last() == a {
            1int
        } else {
            0int
        }
    }
}

pub open spec fn held(d: Held, b: Button) -> int {
    if d.down[b.at()] {
        1
    } else {
        0
    }
}

/// Every gesture a momentary button opens is closed exactly once: whatever
/// event comes, presses said less releases said is what is newly held. A
/// dropped queue closes everything, and a simple button is never closed.
pub proof fn law_every_gesture_is_closed_once(d: Held, ev: RawEvent, b: Button)
    requires
        d.down.len() == 8,
    ensures
        fed(d, ev).0.down.len() == 8,
        b.momentary() ==> times(fed(d, ev).1, Action::Press(b)) - times(
            fed(d, ev).1,
            Action::Release(b),
        ) == held(fed(d, ev).0, b) - held(d, b),
        !b.momentary() ==> times(fed(d, ev).1, Action::Release(b)) == 0,
        ev.kind == EV_SYN && ev.code == SYN_DROPPED ==> held(fed(d, ev).0, b) == 0,
{
    reveal_with_fuel(times, 5);
    let said = fed(d, ev).1;
    assert(said.len() <= 3);
    if said.len() == 3 {
        assert(said.drop_last().drop_last().drop_last() =~= Seq::empty());
        assert(said.drop_last().last() == said[1]);
        assert(said.drop_last().drop_last().last() == said[0]);
    } else if said.len() == 2 {
        assert(said.drop_last().drop_last() =~= Seq::empty());
        assert(said.drop_last().last() == said[0]);
    } else if said.len() == 1 {
        assert(said.drop_last() =~= Seq::empty());
    }
    assert(forall|x: Button, y: Button| x.at() == y.at() ==> x == y);
}

/// What a decoder says of events one after another, and what it holds then.
pub open spec fn fed_all(d: Held, events: Seq<RawEvent>) -> (Held, Seq<Action>)
    decreases events.len(),
{
    if events.len() == 0 {
        (d, Seq::empty())
    } else {
        let before = fed_all(d, events.drop_last());
        let (after, said) = fed(before.0, events.last());
        (after, before.1 + said)
    }
}

/// Whether a button is pressed after all this was said of it, where it was or
/// was not before: none where a press came while it was, or a release while it
/// was not.
pub open spec fn pressed_after(actions: Seq<Action>, b: Button, down: bool) -> Option<bool>
    decreases actions.len(),
{
    if actions.len() == 0 {
        Some(down)
    } else {
        match pressed_after(actions.drop_last(), b, down) {
            None => None,
            Some(was) => if actions.last() == Action::Press(b) {
                if was {
                    None
                } else {
                    Some(true)
                }
            } else if actions.last() == Action::Release(b) {
                if was {
                    Some(false)
                } else {
                    None
                }
            } else {
                Some(was)
            },
        }
    }
}

pub(crate) proof fn lemma_pressed_on(x: Seq<Action>, y: Seq<Action>, b: Button, down: bool)
    requires
        pressed_after(x, b, down) is Some,
    ensures
        pressed_after(x + y, b, down) == pressed_after(y, b, pressed_after(x, b, down)->0),
    decreases y.len(),
{
    if y.len() == 0 {
        assert(x + y =~= x);
    } else {
        lemma_pressed_on(x, y.drop_last(), b, down);
        assert((x + y).drop_last() =~= x + y.drop_last());
        assert((x + y).last() == y.last());
    }
}

pub(crate) proof fn lemma_one_event_alternates(d: Held, ev: RawEvent, b: Button)
    requires
        d.down.len() == 8,
        b.momentary(),
    ensures
        fed(d, ev).0.down.len() == 8,
        pressed_after(fed(d, ev).1, b, d.down[b.at()]) == Some(fed(d, ev).0.down[b.at()]),
{
    reveal_with_fuel(pressed_after, 5);
    let said = fed(d, ev).1;
    assert(said.len() <= 3);
    if said.len() == 3 {
        assert(said.drop_last().drop_last().drop_last() =~= Seq::empty());
        assert(said.drop_last().last() == said[1]);
        assert(said.drop_last().drop_last().last() == said[0]);
    } else if said.len() == 2 {
        assert(said.drop_last().drop_last() =~= Seq::empty());
        assert(said.drop_last().last() == said[0]);
    } else if said.len() == 1 {
        assert(said.drop_last() =~= Seq::empty());
    }
    assert(forall|x: Button, y: Button| x.at() == y.at() ==> x == y);
}

/// A press and a release of a momentary button come in turn, a press first,
/// whatever events came: none is repeated, none is missing, and the button is
/// held at the end exactly where the last of them was a press. A simple button
/// is never released, and what was said is never taken back.
pub proof fn law_presses_and_releases_alternate(d: Held, events: Seq<RawEvent>, b: Button)
    requires
        d.down.len() == 8,
    ensures
        fed_all(d, events).0.down.len() == 8,
        b.momentary() ==> pressed_after(fed_all(d, events).1, b, d.down[b.at()]) == Some(
            fed_all(d, events).0.down[b.at()],
        ),
        !b.momentary() ==> !fed_all(d, events).1.contains(Action::Release(b)),
        forall|n: int|
            0 <= n <= events.len() ==> {
                let early = #[trigger] fed_all(d, events.take(n)).1;
                early.len() <= fed_all(d, events).1.len() && early == fed_all(d, events).1.take(
                    early.len() as int,
                )
            },
    decreases events.len(),
{
    let said = fed_all(d, events).1;
    if events.len() > 0 {
        let before = fed_all(d, events.drop_last());
        let last = fed(before.0, events.last()).1;
        law_presses_and_releases_alternate(d, events.drop_last(), b);
        law_every_gesture_is_closed_once(before.0, events.last(), b);
        if b.momentary() {
            lemma_one_event_alternates(before.0, events.last(), b);
            lemma_pressed_on(before.1, last, b, d.down[b.at()]);
        } else if said.contains(Action::Release(b)) {
            let i = said.index_of(Action::Release(b));
            assert(said[i] == Action::Release(b));
            if i < before.1.len() {
                assert(before.1[i] == Action::Release(b));
            } else {
                assert(last[i - before.1.len()] == Action::Release(b));
                lemma_said_once(last, Action::Release(b), i - before.1.len());
            }
        }
        assert forall|n: int| 0 <= n <= events.len() implies {
            let early = #[trigger] fed_all(d, events.take(n)).1;
            early.len() <= said.len() && early == said.take(early.len() as int)
        } by {
            let early = fed_all(d, events.take(n)).1;
            if n == events.len() {
                assert(events.take(n) =~= events);
                assert(said.take(said.len() as int) =~= said);
            } else {
                assert(events.take(n) =~= events.drop_last().take(n));
                assert(said.take(early.len() as int) =~= before.1.take(early.len() as int));
            }
        }
    } else {
        assert forall|n: int| 0 <= n <= events.len() implies {
            let early = #[trigger] fed_all(d, events.take(n)).1;
            early.len() <= said.len() && early == said.take(early.len() as int)
        } by {
            assert(events.take(n) =~= events);
            assert(said.take(said.len() as int) =~= said);
        }
    }
}

proof fn lemma_said_once(actions: Seq<Action>, a: Action, i: int)
    requires
        0 <= i < actions.len(),
        actions[i] == a,
    ensures
        times(actions, a) > 0,
    decreases actions.len(),
{
    lemma_times_counts(actions.drop_last(), a);
    if i < actions.len() - 1 {
        assert(actions.drop_last()[i] == a);
        lemma_said_once(actions.drop_last(), a, i);
    }
}

proof fn lemma_times_counts(actions: Seq<Action>, a: Action)
    ensures
        times(actions, a) >= 0,
    decreases actions.len(),
{
    if actions.len() > 0 {
        lemma_times_counts(actions.drop_last(), a);
    }
}

/// What a key event says: a key that goes down is a press where its button was
/// up, one that comes up is a release where its button was down and is
/// momentary, and a repeat or a key of no button says nothing.
pub proof fn law_what_a_key_says(d: Held, ev: RawEvent)
    requires
        d.down.len() == 8,
        ev.kind == EV_KEY,
    ensures
        fed(d, ev).1 == (match Button::of_code(ev.code) {
            None => Seq::<Action>::empty(),
            Some(b) => if ev.value == 1 && !d.down[b.at()] {
                seq![Action::Press(b)]
            } else if ev.value == 0 && d.down[b.at()] && b.momentary() {
                seq![Action::Release(b)]
            } else {
                Seq::empty()
            },
        }),
{
}

/// Keycodes and buttons are one for one.
pub proof fn law_keycodes_are_one_for_one(b: Button, code: u16)
    ensures
        Button::of_code(b.code()) == Some(b),
        Button::of_code(code) matches Some(c) ==> c.code() == code,
{
}

/// On an axis that wraps, one detent past either end is one detent and not a
/// jump the whole way round.
pub proof fn law_a_wrap_is_one_detent(min: i32, max: i32)
    requires
        min < max,
        max - min <= 0x3fff_ffff,
        max - min >= 2,
    ensures
        shorter(difference(min, max), Some((min, max))) == 1,
        shorter(difference(max, min), Some((min, max))) == -1,
{
}

/// The two kernel words of a timestamp that each event starts with.
pub const TIME_LEN: usize = 2 * (usize::BITS as usize / 8);

/// One event as the kernel writes it: the timestamp, the kind, the code and
/// the value.
pub const EVENT_LEN: usize = TIME_LEN + 2 + 2 + 4;

/// The order in which a machine writes the bytes of a number.
#[derive(Debug, Clone, Copy, PartialEq, Eq, Structural)]
pub enum ByteOrder {
    /// The least significant first.
    Little,
    /// The most significant first.
    Big,
}

/// Two bytes.
pub open spec fn word(bytes: Seq<u8>, at: int, order: ByteOrder) -> u16 {
    match order {
        ByteOrder::Little => (bytes[at] + 256 * bytes[at + 1]) as u16,
        ByteOrder::Big => (256 * bytes[at] + bytes[at + 1]) as u16,
    }
}

/// Four bytes, in two's complement.
pub open spec fn signed(bytes: Seq<u8>, at: int, order: ByteOrder) -> i32 {
    let n = match order {
        ByteOrder::Little => bytes[at] + 256 * bytes[at + 1] + 65_536 * bytes[at + 2] + 16_777_216
            * bytes[at + 3],
        ByteOrder::Big => 16_777_216 * bytes[at] + 65_536 * bytes[at + 1] + 256 * bytes[at + 2]
            + bytes[at + 3],
    };
    if n > i32::MAX {
        (n - 4_294_967_296) as i32
    } else {
        n as i32
    }
}

/// The event that some bytes start with. The timestamp is not part of it.
pub open spec fn event_at(bytes: Seq<u8>, order: ByteOrder) -> RawEvent {
    RawEvent {
        kind: word(bytes, TIME_LEN as int, order),
        code: word(bytes, TIME_LEN + 2, order),
        value: signed(bytes, TIME_LEN + 4, order),
    }
}

fn word_at(bytes: &[u8], at: usize, order: ByteOrder) -> (r: u16)
    requires
        at + 2 <= bytes@.len(),
    ensures
        r == word(bytes@, at as int, order),
{
    let (a, b): (u16, u16) = (bytes[at] as u16, bytes[at + 1] as u16);
    match order {
        ByteOrder::Little => a + 256 * b,
        ByteOrder::Big => 256 * a + b,
    }
}

fn signed_at(bytes: &[u8], at: usize, order: ByteOrder) -> (r: i32)
    requires
        at + 4 <= bytes@.len(),
    ensures
        r == signed(bytes@, at as int, order),
{
    let (a, b): (i64, i64) = (bytes[at] as i64, bytes[at + 1] as i64);
    let (c, d): (i64, i64) = (bytes[at + 2] as i64, bytes[at + 3] as i64);
    let n: i64 = match order {
        ByteOrder::Little => a + 256 * b + 65_536 * c + 16_777_216 * d,
        ByteOrder::Big => 16_777_216 * a + 65_536 * b + 256 * c + d,
    };
    if n > i32::MAX as i64 {
        (n - 4_294_967_296) as i32
    } else {
        n as i32
    }
}

/// One event out of its bytes, on a machine that writes them in this order.
pub fn parse_event_in(bytes: &[u8], order: ByteOrder) -> (r: Option<RawEvent>)
    ensures
        r == (if bytes@.len() < EVENT_LEN {
            None
        } else {
            Some(event_at(bytes@, order))
        }),
{
    if bytes.len() < EVENT_LEN {
        return None;
    }
    let kind: u16 = word_at(bytes, TIME_LEN, order);
    let code: u16 = word_at(bytes, TIME_LEN + 2, order);
    let value: i32 = signed_at(bytes, TIME_LEN + 4, order);
    Some(RawEvent { kind, code, value })
}

/// `u16::from_ne_bytes`: the number that two bytes are on this machine, with
/// either the first or the second the less significant. Which of the two is the
/// machine's own, and nothing is said of it.
#[verifier::external_body]
fn native_word(bytes: [u8; 2]) -> (r: u16)
    ensures
        r == word(bytes@, 0, ByteOrder::Little) || r == word(bytes@, 0, ByteOrder::Big),
{
    u16::from_ne_bytes(bytes)
}

/// The order in which this machine writes the bytes of a number: the one in
/// which it reads a one out of two bytes that are a one in that order alone.
fn native_order() -> (r: ByteOrder) {
    if native_word([1, 0]) == 1 {
        ByteOrder::Little
    } else {
        ByteOrder::Big
    }
}

/// One event out of its bytes, in the order this machine writes them.
pub fn parse_event(bytes: &[u8]) -> (r: Option<RawEvent>)
    ensures
        r is Some <==> bytes@.len() >= EVENT_LEN,
        r matches Some(ev) ==> ev == event_at(bytes@, ByteOrder::Little) || ev == event_at(
            bytes@,
            ByteOrder::Big,
        ),
{
    parse_event_in(bytes, native_order())
}

/// A read-direction `ioctl` request: the direction, the size of the answer,
/// the family and the number, each in its own bits.
pub fn ioc_read(ty: u8, nr: u8, size: u16) -> (r: u64)
    requires
        size < 16_384,
    ensures
        r == 2 * 1_073_741_824 + size * 65_536 + ty * 256 + nr,
{
    2 * 1_073_741_824 + (size as u64) * 65_536 + (ty as u64) * 256 + nr as u64
}

/// Bytes up to the first zero.
pub open spec fn up_to_zero(bytes: Seq<u8>) -> Seq<u8>
    decreases bytes.len(),
{
    if bytes.len() == 0 || bytes[0] == 0 {
        Seq::empty()
    } else {
        seq![bytes[0]] + up_to_zero(bytes.skip(1))
    }
}

/// How much of the buffer an answer filled.
pub open spec fn answered(rc: i32, buf: Seq<u8>) -> Seq<u8> {
    if rc < buf.len() {
        buf.take(rc as int)
    } else {
        buf
    }
}

/// A device's name, from what the kernel answered: none where the request
/// failed, or where the answer is not text.
pub fn name_of(rc: i32, buf: &[u8]) -> (r: Option<String>)
    ensures
        r is Some <==> rc > 0 && valid_utf8(up_to_zero(answered(rc, buf@))),
        r matches Some(name) ==> name@ == decode_utf8(up_to_zero(answered(rc, buf@))),
{
    if rc <= 0 {
        return None;
    }
    let ghost all = answered(rc, buf@);
    let end: usize = if (rc as usize) < buf.len() {
        rc as usize
    } else {
        buf.len()
    };
    let mut name: Vec<u8> = Vec::new();
    let mut i: usize = 0;
    assert(all.skip(0) =~= all);
    while i < end && buf[i] != 0
        invariant
            i <= end <= buf@.len(),
            all == buf@.take(end as int),
            name@ + up_to_zero(all.skip(i as int)) == up_to_zero(all),
        decreases end - i,
    {
        let ghost said = name@;
        name.push(buf[i]);
        i = i + 1;
        assert(all.skip(i - 1).skip(1) =~= all.skip(i as int));
        assert(said + (seq![buf@[i - 1]] + up_to_zero(all.skip(i as int))) =~= name@ + up_to_zero(
            all.skip(i as int),
        ));
    }
    assert(up_to_zero(all.skip(i as int)) =~= Seq::empty());
    assert(name@ =~= up_to_zero(all));
    text_in(name.as_slice())
}

/// Whether a bitmap has the code of any button.
pub open spec fn coded_button(bitmap: Seq<u8>) -> bool {
    exists|b: Button| coded(bitmap, b.code())
}

/// What a node can send, from the kernel's two answers. A request that failed
/// is a node that cannot send that.
pub fn carried(key_rc: i32, keys: &[u8], rel_rc: i32, rels: &[u8]) -> (r: Carries)
    ensures
        r.buttons == (key_rc >= 0 && coded_button(keys@)),
        r.detents == (rel_rc >= 0 && coded(rels@, REL_X)),
{
    let all: [Button; 8] = ALL;
    let mut any: bool = false;
    let mut n: usize = 0;
    while n < 8
        invariant
            n <= 8,
            all@ == ALL@,
            any ==> coded_button(keys@),
            !any ==> forall|b: Button| b.at() < n ==> !coded(keys@, #[trigger] b.code()),
        decreases 8 - n,
    {
        let button: Button = all[n];
        assert(button.at() == n);
        if has_code(keys, button.keycode()) {
            any = true;
        }
        n = n + 1;
    }
    assert(forall|b: Button| #[trigger] b.at() < 8);
    assert(!any ==> forall|b: Button| !coded(keys@, #[trigger] b.code()));
    Carries { buttons: key_rc >= 0 && any, detents: rel_rc >= 0 && has_code(rels, REL_X) }
}

/// The range of an absolute axis, from the kernel's answer: none where there
/// is no such axis or the range is empty.
pub fn axis_range(rc: i32, minimum: i32, maximum: i32) -> (r: Option<(i32, i32)>)
    ensures
        r == (if rc < 0 || maximum <= minimum {
            None
        } else {
            Some((minimum, maximum))
        }),
{
    if rc < 0 || maximum <= minimum {
        None
    } else {
        Some((minimum, maximum))
    }
}

/// The whole events in some bytes, in order.
pub open spec fn events_in(bytes: Seq<u8>, order: ByteOrder) -> Seq<RawEvent>
    decreases bytes.len(),
{
    if bytes.len() < EVENT_LEN {
        Seq::empty()
    } else {
        seq![event_at(bytes, order)] + events_in(bytes.skip(EVENT_LEN as int), order)
    }
}

/// What is left when the whole events are gone.
pub open spec fn unfinished(bytes: Seq<u8>) -> Seq<u8>
    decreases bytes.len(),
{
    if bytes.len() < EVENT_LEN {
        bytes
    } else {
        unfinished(bytes.skip(EVENT_LEN as int))
    }
}

/// One open node, and what has been read of an event that is not whole yet.
#[derive(Debug)]
pub struct Device {
    pub path: Vec<u8>,
    pub held: Vec<u8>,
}

/// A device as a mathematical value.
pub struct DeviceView {
    pub path: Seq<u8>,
    pub held: Seq<u8>,
}

impl View for Device {
    type V = DeviceView;

    open spec fn view(&self) -> DeviceView {
        DeviceView { path: self.path@, held: self.held@ }
    }
}

/// What a device has to say when a read brought these bytes.
pub open spec fn heard(d: DeviceView, bytes: Seq<u8>, order: ByteOrder) -> Seq<RawEvent> {
    if bytes.len() == 0 {
        Seq::empty()
    } else {
        events_in(d.held + bytes, order)
    }
}

pub open spec fn after_hearing(d: DeviceView, bytes: Seq<u8>) -> DeviceView {
    if bytes.len() == 0 {
        d
    } else {
        DeviceView { held: unfinished(d.held + bytes), ..d }
    }
}

impl Device {
    pub open spec fn wf(&self) -> bool {
        self.held@.len() < EVENT_LEN
    }

    /// A node that has just been opened.
    pub fn open(path: Vec<u8>) -> (r: Device)
        ensures
            r.wf(),
            r@ == (DeviceView { path: path@, held: Seq::empty() }),
    {
        Device { path, held: Vec::new() }
    }

    pub fn path(&self) -> (r: &Vec<u8>)
        ensures
            r@ == self@.path,
    {
        &self.path
    }

    /// How much one read may bring.
    pub fn room(&self) -> (r: usize)
        requires
            self.wf(),
        ensures
            r == EVENT_LEN * 64 - self@.held.len(),
            r > 0,
    {
        EVENT_LEN * 64 - self.held.len()
    }

    /// Takes what one read brought, and appends the whole events. False when it
    /// brought nothing: the end of the file, which is a device that is gone.
    pub fn read_pending(&mut self, bytes: &[u8], order: ByteOrder, out: &mut Vec<RawEvent>) -> (r: bool)
        requires
            old(self).wf(),
        ensures
            final(self).wf(),
            r == (bytes@.len() > 0),
            final(self)@ == after_hearing(old(self)@, bytes@),
            final(out)@ == old(out)@ + heard(old(self)@, bytes@, order),
    {
        let ghost was = out@;
        if bytes.len() == 0 {
            assert(out@ =~= was + Seq::empty());
            return false;
        }
        let mut all: Vec<u8> = copied(self.held.as_slice());
        all.extend_from_slice(bytes);
        let ghost whole = self.held@ + bytes@;
        assert(all@ =~= whole);
        let mut at: usize = 0;
        assert(whole.skip(0) =~= whole);
        assert(out@ + events_in(whole, order) =~= was + events_in(whole, order));
        while all.len() - at >= EVENT_LEN
            invariant
                at <= all@.len(),
                all@ == whole,
                out@ + events_in(whole.skip(at as int), order) == was + events_in(whole, order),
                unfinished(whole.skip(at as int)) == unfinished(whole),
            decreases all@.len() - at,
        {
            let rest: &[u8] = vstd::slice::slice_subrange(all.as_slice(), at, all.len());
            assert(rest@ =~= whole.skip(at as int));
            let ghost said = out@;
            if let Some(ev) = parse_event_in(rest, order) {
                out.push(ev);
            }
            assert(whole.skip(at as int).skip(EVENT_LEN as int) =~= whole.skip(at + EVENT_LEN));
            at = at + EVENT_LEN;
            assert(said + (seq![event_at(rest@, order)] + events_in(whole.skip(at as int), order)) =~= out@
                + events_in(whole.skip(at as int), order));
        }
        let rest: &[u8] = vstd::slice::slice_subrange(all.as_slice(), at, all.len());
        assert(rest@ =~= whole.skip(at as int));
        assert(out@ =~= was + events_in(whole, order));
        self.held = copied(rest);
        true
    }
}

/// A node of the input directory, and what asking it brought.
#[derive(Debug)]
pub struct Node {
    pub file_name: Vec<u8>,
    pub name: Option<String>,
    pub carries: Carries,
}

/// A node as a mathematical value.
pub struct NodeView {
    pub file_name: Seq<u8>,
    pub name: Option<Seq<char>>,
    pub carries: Carries,
}

impl View for Node {
    type V = NodeView;

    open spec fn view(&self) -> NodeView {
        NodeView {
            file_name: self.file_name@,
            name: match self.name {
                Some(name) => Some(name@),
                None => None,
            },
            carries: self.carries,
        }
    }
}

pub open spec fn nodes_of(nodes: Seq<Node>) -> Seq<NodeView> {
    nodes.map_values(|n: Node| n@)
}

/// What the name of an event node starts with.
pub const EVENT_PREFIX: [u8; 5] = [101, 118, 101, 110, 116];

/// Whether a file name is that of an event node.
pub open spec fn event_name(name: Seq<u8>) -> bool {
    valid_utf8(name) && name.len() >= 5 && name.take(5) == EVENT_PREFIX@
}

/// Whether one text holds another.
pub open spec fn holds(text: Seq<char>, part: Seq<char>) -> bool {
    exists|i: int|
        0 <= i && i + part.len() <= text.len() && #[trigger] text.subrange(i, i + part.len()) == part
}

/// Whether a node is part of the control surface: by what it calls itself, and
/// not only by what it can send.
pub open spec fn ours(node: NodeView) -> bool {
    event_name(node.file_name) && node.name is Some && holds(node.name->0, PRODUCT@) && (
    node.carries.buttons || node.carries.detents)
}

fn is_event_name(name: &[u8]) -> (r: bool)
    ensures
        r == event_name(name@),
{
    if name.len() < 5 || text_in(name).is_none() {
        return false;
    }
    let prefix: [u8; 5] = EVENT_PREFIX;
    let mut i: usize = 0;
    while i < 5
        invariant
            i <= 5 <= name@.len(),
            prefix@ == EVENT_PREFIX@,
            forall|k: int| 0 <= k < i ==> name@[k] == EVENT_PREFIX@[k],
        decreases 5 - i,
    {
        if name[i] != prefix[i] {
            assert(name@.take(5)[i as int] != EVENT_PREFIX@[i as int]);
            return false;
        }
        i = i + 1;
    }
    assert(name@.take(5) =~= EVENT_PREFIX@);
    true
}

fn text_holds(text: &str, part: &str) -> (r: bool)
    ensures
        r == holds(text@, part@),
{
    let t: Vec<char> = chars_of(text);
    let p: Vec<char> = chars_of(part);
    let length: usize = t.len();
    if length < p.len() {
        return false;
    }
    let mut i: usize = 0;
    while i <= length - p.len()
        invariant
            i <= t@.len() - p@.len() + 1,
            length == t@.len() >= p@.len(),
            t@ == text@,
            p@ == part@,
            forall|k: int| 0 <= k < i ==> #[trigger] text@.subrange(k, k + part@.len()) != part@,
        decreases t@.len() - p@.len() + 1 - i,
    {
        let mut j: usize = 0;
        while j < p.len() && t[i + j] == p[j]
            invariant
                j <= p@.len(),
                i + p@.len() <= t@.len() == length,
                forall|k: int| 0 <= k < j ==> t@[i + k] == p@[k],
            decreases p@.len() - j,
        {
            j = j + 1;
        }
        if j == p.len() {
            assert(text@.subrange(i as int, i + part@.len()) =~= part@);
            return true;
        }
        assert(text@.subrange(i as int, i + part@.len())[j as int] != part@[j as int]);
        i = i + 1;
    }
    false
}

fn is_ours(node: &Node) -> (r: bool)
    ensures
        r == ours(node@),
{
    if !is_event_name(node.file_name.as_slice()) || !node.carries.anything() {
        return false;
    }
    match &node.name {
        Some(name) => text_holds(name.as_str(), PRODUCT),
        None => false,
    }
}

/// The file names of the nodes that are part of the control surface, as they
/// came.
pub open spec fn chosen(nodes: Seq<NodeView>) -> Seq<Seq<u8>>
    decreases nodes.len(),
{
    if nodes.len() == 0 {
        Seq::empty()
    } else if ours(nodes.last()) {
        chosen(nodes.drop_last()).push(nodes.last().file_name)
    } else {
        chosen(nodes.drop_last())
    }
}

pub open spec fn names_of(names: Seq<Vec<u8>>) -> Seq<Seq<u8>> {
    names.map_values(|n: Vec<u8>| n@)
}

/// In the order of their bytes.
pub open spec fn ascending(names: Seq<Seq<u8>>) -> bool {
    forall|i: int, j: int|
        0 <= i < j < names.len() ==> !before(#[trigger] names[j], #[trigger] names[i])
}

/// The nodes that carry the control surface, in an order that does not depend
/// on how the directory was read.
pub fn discover(nodes: &[Node]) -> (r: Vec<Vec<u8>>)
    ensures
        ascending(names_of(r@)),
        names_of(r@).to_multiset() == chosen(nodes_of(nodes@)).to_multiset(),
{
    broadcast use vstd::seq_lib::group_to_multiset_ensures;

    let mut found: Vec<Vec<u8>> = Vec::new();
    let mut i: usize = 0;
    assert(nodes_of(nodes@).take(0) =~= Seq::empty());
    assert(names_of(found@) =~= Seq::empty());
    while i < nodes.len()
        invariant
            i <= nodes@.len(),
            ascending(names_of(found@)),
            names_of(found@).to_multiset() == chosen(
                nodes_of(nodes@).take(i as int),
            ).to_multiset(),
        decreases nodes@.len() - i,
    {
        let ghost upto = nodes_of(nodes@).take(i + 1);
        assert(upto.drop_last() =~= nodes_of(nodes@).take(i as int));
        assert(upto.last() == nodes@[i as int]@);
        if is_ours(&nodes[i]) {
            let name: Vec<u8> = copied(nodes[i].file_name.as_slice());
            let ghost key = name@;
            let ghost was = names_of(found@);
            let mut at: usize = found.len();
            while at > 0 && comes_before(name.as_slice(), found[at - 1].as_slice())
                invariant
                    at <= found@.len(),
                    key == name@,
                    was == names_of(found@),
                    forall|k: int| at <= k < found@.len() ==> before(key, #[trigger] was[k]),
                decreases at,
            {
                at = at - 1;
            }
            found.insert(at, name);
            assert(names_of(found@) =~= was.insert(at as int, key));
            proof {
                vstd::seq_lib::to_multiset_insert(was, at as int, key);
                assert(chosen(upto) == chosen(upto.drop_last()).push(key));
                vstd::seq_lib::to_multiset_build(chosen(upto.drop_last()), key);
                assert(was.insert(at as int, key).to_multiset() == chosen(upto).to_multiset());
                let now = was.insert(at as int, key);
                assert forall|p: int, q: int| 0 <= p < q < now.len() implies !before(
                    #[trigger] now[q],
                    #[trigger] now[p],
                ) by {
                    lemma_before_irreflexive(key);
                    if p == at {
                        if before(now[q], key) {
                            assert(before(key, was[q - 1]));
                            lemma_before_transitive(key, was[q - 1], key);
                        }
                    } else if q == at {
                        if before(key, was[p]) {
                            assert(!before(key, was[at - 1]));
                            lemma_before_total(was[at - 1], key);
                            if p < at - 1 {
                                assert(!before(was[at - 1], was[p]));
                                lemma_before_total(was[at - 1], was[p]);
                                if before(was[p], was[at - 1]) {
                                    lemma_before_transitive(key, was[p], was[at - 1]);
                                }
                            }
                        }
                    } else {
                        let a = if p < at {
                            p
                        } else {
                            p - 1
                        };
                        let b = if q < at {
                            q
                        } else {
                            q - 1
                        };
                        assert(now[p] == was[a] && now[q] == was[b] && a < b);
                    }
                }
            }
        }
        i = i + 1;
    }
    assert(nodes_of(nodes@).take(i as int) =~= nodes_of(nodes@));
    found
}

/// What `poll` reported of one device, and what reading it brought where it
/// was read: nothing where the read failed.
#[derive(Debug)]
pub struct Polled {
    pub revents: i16,
    pub read: Option<Vec<u8>>,
}

/// A poll's report as a mathematical value.
pub struct PolledView {
    pub revents: i16,
    pub read: Option<Seq<u8>>,
}

impl View for Polled {
    type V = PolledView;

    open spec fn view(&self) -> PolledView {
        PolledView {
            revents: self.revents,
            read: match self.read {
                Some(bytes) => Some(bytes@),
                None => None,
            },
        }
    }
}

pub open spec fn polled_of(polled: Seq<Polled>) -> Seq<PolledView> {
    polled.map_values(|p: Polled| p@)
}

pub const POLLIN: i16 = 0x01;

pub const POLLERR: i16 = 0x08;

pub const POLLHUP: i16 = 0x10;

pub const POLLNVAL: i16 = 0x20;

/// Reported whether it was asked for or not: the descriptor is no use.
pub open spec fn broken(revents: i16) -> bool {
    revents & (POLLERR | POLLHUP | POLLNVAL) != 0
}

pub open spec fn readable(revents: i16) -> bool {
    !broken(revents) && revents & POLLIN != 0
}

/// Whether a device should be read, from what `poll` reported of it.
pub fn wants_reading(revents: i16) -> (r: bool)
    ensures
        r == readable(revents),
{
    revents & (POLLERR | POLLHUP | POLLNVAL) == 0 && revents & POLLIN != 0
}

/// What is known of the device at an index: one that was not polled reported
/// nothing.
pub open spec fn report_on(polled: Seq<PolledView>, i: int) -> PolledView {
    if i < polled.len() {
        polled[i]
    } else {
        PolledView { revents: 0, read: None }
    }
}

/// Whether a device is gone: broken, at its end, or unreadable.
pub open spec fn gone(p: PolledView) -> bool {
    broken(p.revents) || (readable(p.revents) && (p.read is None || p.read->0.len() == 0))
}

/// What the first so many devices said between them.
pub open spec fn said_by(
    devices: Seq<DeviceView>,
    polled: Seq<PolledView>,
    order: ByteOrder,
    n: int,
) -> Seq<RawEvent>
    decreases n,
{
    if n <= 0 {
        Seq::empty()
    } else {
        let p = report_on(polled, n - 1);
        said_by(devices, polled, order, n - 1) + if !gone(p) && readable(p.revents) {
            heard(devices[n - 1], p.read->0, order)
        } else {
            Seq::empty()
        }
    }
}

/// Those of the first so many devices that are still there.
pub open spec fn left_of(devices: Seq<DeviceView>, polled: Seq<PolledView>, n: int) -> Seq<
    DeviceView,
>
    decreases n,
{
    if n <= 0 {
        Seq::empty()
    } else {
        let p = report_on(polled, n - 1);
        let rest = left_of(devices, polled, n - 1);
        if gone(p) {
            rest
        } else if readable(p.revents) {
            rest.push(after_hearing(devices[n - 1], p.read->0))
        } else {
            rest.push(devices[n - 1])
        }
    }
}

/// How many of the first so many devices are gone.
pub open spec fn lost_of(polled: Seq<PolledView>, n: int) -> int
    decreases n,
{
    if n <= 0 {
        0
    } else {
        lost_of(polled, n - 1) + if gone(report_on(polled, n - 1)) {
            1int
        } else {
            0int
        }
    }
}

/// Every open node of the control surface.
#[derive(Debug)]
pub struct Devices {
    pub devices: Vec<Device>,
}

pub open spec fn devices_of(devices: Seq<Device>) -> Seq<DeviceView> {
    devices.map_values(|d: Device| d@)
}

impl View for Devices {
    type V = Seq<DeviceView>;

    open spec fn view(&self) -> Seq<DeviceView> {
        devices_of(self.devices@)
    }
}

/// The nodes that are open once these were found: each is added once.
pub open spec fn grown(devices: Seq<DeviceView>, found: Seq<Vec<u8>>) -> Seq<DeviceView>
    decreases found.len(),
{
    if found.len() == 0 {
        devices
    } else if Devices::opened(devices, found[0]@) {
        grown(devices, found.skip(1))
    } else {
        grown(
            devices.push(DeviceView { path: found[0]@, held: Seq::empty() }),
            found.skip(1),
        )
    }
}

/// What two nodes can send between them.
pub open spec fn together(a: Carries, b: Carries) -> Carries {
    Carries { buttons: a.buttons || b.buttons, detents: a.detents || b.detents }
}

pub open spec fn all_carry(each: Seq<Carries>) -> Carries
    decreases each.len(),
{
    if each.len() == 0 {
        Carries { buttons: false, detents: false }
    } else {
        together(all_carry(each.drop_last()), each.last())
    }
}

/// The first range there is.
pub open spec fn first_range(each: Seq<Option<(i32, i32)>>) -> Option<(i32, i32)>
    decreases each.len(),
{
    if each.len() == 0 {
        None
    } else if each[0] is Some {
        each[0]
    } else {
        first_range(each.skip(1))
    }
}

/// What waiting on the nodes came to.
#[derive(Debug, Clone, Copy, PartialEq, Eq, Structural)]
pub enum Waited {
    Ready,
    Nothing,
    Failed,
}

impl Devices {
    pub open spec fn wf(&self) -> bool {
        forall|i: int| 0 <= i < self.devices@.len() ==> (#[trigger] self.devices@[i]).wf()
    }

    /// These nodes, each just opened.
    pub fn open(paths: &[Vec<u8>]) -> (r: Devices)
        ensures
            r.wf(),
            r@ == Seq::new(
                paths@.len(),
                |i: int| DeviceView { path: paths@[i]@, held: Seq::empty() },
            ),
    {
        let mut devices: Vec<Device> = Vec::new();
        let mut i: usize = 0;
        while i < paths.len()
            invariant
                i <= paths@.len(),
                devices@.len() == i,
                forall|k: int| 0 <= k < i ==> (#[trigger] devices@[k]).wf(),
                forall|k: int|
                    0 <= k < i ==> (#[trigger] devices@[k])@ == (DeviceView {
                        path: paths@[k]@,
                        held: Seq::empty(),
                    }),
            decreases paths@.len() - i,
        {
            devices.push(Device::open(copied(paths[i].as_slice())));
            i = i + 1;
        }
        let r: Devices = Devices { devices };
        assert(r@ =~= Seq::new(
            paths@.len(),
            |k: int| DeviceView { path: paths@[k]@, held: Seq::empty() },
        ));
        r
    }

    pub fn len(&self) -> (r: usize)
        ensures
            r == self@.len(),
    {
        self.devices.len()
    }

    pub fn is_empty(&self) -> (r: bool)
        ensures
            r == (self@.len() == 0),
    {
        self.devices.len() == 0
    }

    /// Whether a node is open already.
    pub open spec fn opened(devices: Seq<DeviceView>, path: Seq<u8>) -> bool {
        exists|i: int| 0 <= i < devices.len() && (#[trigger] devices[i]).path == path
    }

    pub fn has(&self, path: &[u8]) -> (r: bool)
        ensures
            r == Devices::opened(self@, path@),
    {
        let mut i: usize = 0;
        while i < self.devices.len()
            invariant
                i <= self.devices@.len(),
                forall|k: int| 0 <= k < i ==> (#[trigger] self@[k]).path != path@,
            decreases self.devices@.len() - i,
        {
            assert(self@[i as int] == self.devices@[i as int]@);
            if same_bytes(self.devices[i].path.as_slice(), path) {
                return true;
            }
            i = i + 1;
        }
        false
    }

    /// Adds a node that was found and opened, unless it is open already.
    /// True when it was added.
    pub fn add_found(&mut self, path: Vec<u8>) -> (r: bool)
        requires
            old(self).wf(),
        ensures
            final(self).wf(),
            r == !Devices::opened(old(self)@, path@),
            final(self)@ == (if r {
                old(self)@.push(DeviceView { path: path@, held: Seq::empty() })
            } else {
                old(self)@
            }),
    {
        if self.has(path.as_slice()) {
            return false;
        }
        let ghost was = self@;
        let ghost p = path@;
        self.devices.push(Device::open(path));
        assert(self@ =~= was.push(DeviceView { path: p, held: Seq::empty() }));
        true
    }

    /// Adds the nodes that were found and opened, and gives how many were new:
    /// a surface that is plugged back in is heard again.
    pub fn rediscover(&mut self, found: &[Vec<u8>]) -> (r: usize)
        requires
            old(self).wf(),
        ensures
            final(self).wf(),
            final(self)@ == grown(old(self)@, found@),
            r == final(self)@.len() - old(self)@.len(),
    {
        let mut added: usize = 0;
        let mut i: usize = 0;
        let ghost was = self@;
        assert(found@.skip(0) =~= found@);
        while i < found.len()
            invariant
                i <= found@.len(),
                added <= i,
                self.wf(),
                self@.len() == was.len() + added,
                grown(self@, found@.skip(i as int)) == grown(was, found@),
            decreases found@.len() - i,
        {
            assert(found@.skip(i as int).skip(1) =~= found@.skip(i + 1));
            if self.add_found(copied(found[i].as_slice())) {
                added = added + 1;
            }
            i = i + 1;
        }
        added
    }

    /// What the open nodes can send between them.
    pub fn carries(each: &[Carries]) -> (r: Carries)
        ensures
            r == all_carry(each@),
    {
        let mut all: Carries = Carries { buttons: false, detents: false };
        let mut i: usize = 0;
        assert(each@.take(0) =~= Seq::empty());
        while i < each.len()
            invariant
                i <= each@.len(),
                all == all_carry(each@.take(i as int)),
            decreases each@.len() - i,
        {
            assert(each@.take(i + 1).drop_last() =~= each@.take(i as int));
            all =
            Carries {
                buttons: all.buttons || each[i].buttons,
                detents: all.detents || each[i].detents,
            };
            i = i + 1;
        }
        assert(each@.take(i as int) =~= each@);
        all
    }

    /// The range of the first device that reports an absolute axis.
    pub fn abs_range(each: &[Option<(i32, i32)>]) -> (r: Option<(i32, i32)>)
        ensures
            r == first_range(each@),
    {
        let mut i: usize = 0;
        assert(each@.skip(0) =~= each@);
        while i < each.len()
            invariant
                i <= each@.len(),
                first_range(each@.skip(i as int)) == first_range(each@),
            decreases each@.len() - i,
        {
            if each[i].is_some() {
                return each[i];
            }
            assert(each@.skip(i as int).skip(1) =~= each@.skip(i + 1));
            i = i + 1;
        }
        None
    }

    /// What a wait came to, from what `poll` returned. A signal is not a
    /// failure.
    pub fn waited(rc: i32, interrupted: bool) -> (r: Waited)
        ensures
            r == (if rc == 0 || (rc == -1 && interrupted) {
                Waited::Nothing
            } else if rc == -1 {
                Waited::Failed
            } else {
                Waited::Ready
            }),
    {
        match rc {
            -1 => if interrupted {
                Waited::Nothing
            } else {
                Waited::Failed
            },
            0 => Waited::Nothing,
            _ => Waited::Ready,
        }
    }

    /// Takes what was read from each device, and drops the devices that have
    /// gone away. Returns how many were dropped: when that is not zero the
    /// decoder has to be reset, because nothing will release what those
    /// devices held.
    pub fn read_pending(
        &mut self,
        polled: &[Polled],
        order: ByteOrder,
        out: &mut Vec<RawEvent>,
    ) -> (lost: usize)
        requires
            old(self).wf(),
        ensures
            final(self).wf(),
            final(self)@ == left_of(old(self)@, polled_of(polled@), old(self)@.len() as int),
            final(out)@ == old(out)@ + said_by(
                old(self)@,
                polled_of(polled@),
                order,
                old(self)@.len() as int,
            ),
            lost == lost_of(polled_of(polled@), old(self)@.len() as int),
    {
        let ghost was = self@;
        let ghost before_out = out@;
        let ghost ps = polled_of(polled@);
        let mut lost: usize = 0;
        let mut keep: Vec<Device> = Vec::new();
        let mut i: usize = 0;
        assert(devices_of(keep@) =~= Seq::empty());
        assert(out@ =~= before_out + Seq::empty());
        while i < self.devices.len()
            invariant
                i <= self.devices@.len(),
                self@ == was,
                self.wf(),
                ps == polled_of(polled@),
                lost <= i,
                lost == lost_of(ps, i as int),
                devices_of(keep@) == left_of(was, ps, i as int),
                forall|k: int| 0 <= k < keep@.len() ==> (#[trigger] keep@[k]).wf(),
                out@ == before_out + said_by(was, ps, order, i as int),
            decreases self.devices@.len() - i,
        {
            let revents: i16 = if i < polled.len() {
                polled[i].revents
            } else {
                0
            };
            let ghost p = report_on(ps, i as int);
            assert(p.revents == revents);
            assert(was[i as int] == self.devices@[i as int]@);
            let mut dev: Device = Device {
                path: copied(self.devices[i].path.as_slice()),
                held: copied(self.devices[i].held.as_slice()),
            };
            assert(dev@ == was[i as int]);
            let ghost kept = devices_of(keep@);
            let ghost said = out@;
            let mut there: bool = revents & (POLLERR | POLLHUP | POLLNVAL) == 0;
            if there && revents & POLLIN != 0 {
                if i < polled.len() {
                    match &polled[i].read {
                        Some(bytes) => {
                            there = dev.read_pending(bytes.as_slice(), order, out);
                        },
                        None => {
                            there = false;
                        },
                    }
                } else {
                    there = false;
                }
            }
            assert(there == !gone(p));
            assert(out@ =~= said + if !gone(p) && readable(p.revents) {
                heard(was[i as int], p.read->0, order)
            } else {
                Seq::empty()
            });
            assert(said + (if !gone(p) && readable(p.revents) {
                heard(was[i as int], p.read->0, order)
            } else {
                Seq::empty()
            }) =~= before_out + said_by(was, ps, order, i + 1));
            if there {
                let ghost d = dev@;
                keep.push(dev);
                assert(devices_of(keep@) =~= kept.push(d));
            } else {
                lost = lost + 1;
            }
            i = i + 1;
        }
        self.devices = keep;
        lost
    }
}

/// Reading a device in two reads or in one comes to the same events and the
/// same remainder, wherever the break falls.
pub proof fn law_a_short_read_loses_nothing(
    d: DeviceView,
    a: Seq<u8>,
    b: Seq<u8>,
    order: ByteOrder,
)
    requires
        d.held.len() < EVENT_LEN,
        a.len() > 0,
        b.len() > 0,
    ensures
        heard(d, a, order) + heard(after_hearing(d, a), b, order) == heard(d, a + b, order),
        after_hearing(after_hearing(d, a), b) == after_hearing(d, a + b),
{
    lemma_events_split(d.held + a, b, order);
    assert(d.held + a + b =~= d.held + (a + b));
}

proof fn lemma_events_split(x: Seq<u8>, y: Seq<u8>, order: ByteOrder)
    ensures
        events_in(x, order) + events_in(unfinished(x) + y, order) == events_in(x + y, order),
        unfinished(unfinished(x) + y) == unfinished(x + y),
    decreases x.len(),
{
    if x.len() < EVENT_LEN {
        assert(events_in(x, order) + events_in(unfinished(x) + y, order) =~= events_in(x + y, order));
    } else {
        let r = x.skip(EVENT_LEN as int);
        lemma_events_split(r, y, order);
        assert((x + y).skip(EVENT_LEN as int) =~= r + y);
        assert(event_at(x + y, order) == event_at(x, order));
        assert(events_in(x, order) + events_in(unfinished(x) + y, order) =~= seq![event_at(x, order)] + (events_in(r, order)
            + events_in(unfinished(r) + y, order)));
    }
}

/// The keys of the panel, by their numbers: each presses its own button, and
/// the three that are held, CUE, REW and FF, are let go of too; no other key
/// says anything.
pub proof fn law_each_key_is_its_button(d: Held, code: u16)
    requires
        d.down =~= Seq::new(8, |i: int| false),
    ensures
        ({
            let down = fed(d, RawEvent { kind: 1, code, value: 1 });
            let said = down.1;
            let after = fed(down.0, RawEvent { kind: 1, code, value: 0 }).1;
            &&& code == 158 ==> said =~= seq![Action::Press(Button::Back)] && after.len() == 0
            &&& code == 164 ==> said =~= seq![Action::Press(Button::PlayPause)] && after.len() == 0
            &&& code == 128 ==> said =~= seq![Action::Press(Button::Cue)] && after =~= seq![
                Action::Release(Button::Cue),
            ]
            &&& code == 28 ==> said =~= seq![Action::Press(Button::Enter)] && after.len() == 0
            &&& code == 168 ==> said =~= seq![Action::Press(Button::Rew)] && after =~= seq![
                Action::Release(Button::Rew),
            ]
            &&& code == 208 ==> said =~= seq![Action::Press(Button::Ff)] && after =~= seq![
                Action::Release(Button::Ff),
            ]
            &&& code == 163 ==> said =~= seq![Action::Press(Button::TrackNext)] && after.len() == 0
            &&& code == 165 ==> said =~= seq![Action::Press(Button::TrackPrev)] && after.len() == 0
            &&& code != 158 && code != 164 && code != 128 && code != 28 && code != 168 && code != 208
                && code != 163 && code != 165 ==> said.len() == 0 && down.0 == d
        }),
{
}

/// The dial moves the selection by what it turned: a relative event by its
/// value, an absolute one by how far it is from the one before, and the first
/// of those by nothing.
pub proof fn law_the_dial_moves_by_what_it_turned(d: Held, value: i32, next: i32)
    ensures
        value != 0 ==> fed(d, RawEvent { kind: 2, code: 0, value }).1 =~= seq![Action::Browse(value)],
        value == 0 ==> fed(d, RawEvent { kind: 2, code: 0, value }).1.len() == 0,
        fed(d, RawEvent { kind: 2, code: 0, value }).0 == d,
        d.abs is None ==> fed(d, RawEvent { kind: 3, code: 0, value }).1.len() == 0,
        fed(d, RawEvent { kind: 3, code: 0, value }).0 == (Held { abs: Some(value), ..d }),
        d.abs_range is None && value != next && i32::MIN <= next - value <= i32::MAX ==> fed(
            fed(d, RawEvent { kind: 3, code: 0, value }).0,
            RawEvent { kind: 3, code: 0, value: next },
        ).1 =~= seq![Action::Browse((next - value) as i32)],
        fed(
            fed(d, RawEvent { kind: 3, code: 0, value }).0,
            RawEvent { kind: 3, code: 0, value },
        ).1.len() == 0,
{
}

/// Between two places of a dial that goes round, the step is the shorter way:
/// it leads from the one to the other, perhaps past the ends, and is at most
/// half the way round.
pub proof fn law_a_dial_goes_the_shorter_way(min: i32, max: i32, a: i32, b: i32)
    requires
        min <= a <= max,
        min <= b <= max,
        min < max,
        max - min < i32::MAX,
    ensures
        ({
            let round = max - min + 1;
            let by = shorter(difference(a, b), Some((min, max)));
            &&& by == a - b || by == a - b + round || by == a - b - round
            &&& -round <= 2 * by <= round
        }),
{
}

/// An event is read where it stands behind the time: two bytes of kind, two of
/// code and four of value, the lowest first on one kind of machine and last on
/// the other, and a value past the middle is negative.
pub proof fn law_an_event_is_its_bytes(bytes: Seq<u8>)
    requires
        bytes.len() >= EVENT_LEN,
    ensures
        ({
            let t = TIME_LEN as int;
            let low = event_at(bytes, ByteOrder::Little);
            let high = event_at(bytes, ByteOrder::Big);
            &&& low.kind == bytes[t] + 256 * bytes[t + 1]
            &&& low.code == bytes[t + 2] + 256 * bytes[t + 3]
            &&& high.kind == 256 * bytes[t] + bytes[t + 1]
            &&& high.code == 256 * bytes[t + 2] + bytes[t + 3]
            &&& low.value + (if low.value < 0 {
                0x1_0000_0000int
            } else {
                0
            }) == bytes[t + 4] + 0x100 * bytes[t + 5] + 0x1_0000 * bytes[t + 6] + 0x100_0000
                * bytes[t + 7]
            &&& high.value + (if high.value < 0 {
                0x1_0000_0000int
            } else {
                0
            }) == 0x100_0000 * bytes[t + 4] + 0x1_0000 * bytes[t + 5] + 0x100 * bytes[t + 6]
                + bytes[t + 7]
        }),
{
}

/// What is read holds an event for each whole length of one, in order, and
/// what is left is the rest, which is shorter.
pub proof fn law_events_are_read_in_order(bytes: Seq<u8>, order: ByteOrder, k: int)
    ensures
        events_in(bytes, order).len() * EVENT_LEN + unfinished(bytes).len() == bytes.len(),
        unfinished(bytes).len() < EVENT_LEN,
        unfinished(bytes) == bytes.skip(bytes.len() - unfinished(bytes).len()),
        0 <= k < events_in(bytes, order).len() ==> events_in(bytes, order)[k] == event_at(
            bytes.skip(k * EVENT_LEN),
            order,
        ),
    decreases bytes.len(),
{
    if bytes.len() >= EVENT_LEN {
        let rest = bytes.skip(EVENT_LEN as int);
        law_events_are_read_in_order(rest, order, k - 1);
        assert(events_in(bytes, order).len() == 1 + events_in(rest, order).len());
        let (n, l) = (events_in(rest, order).len() as int, EVENT_LEN as int);
        assert((1 + n) * l == l + n * l) by (nonlinear_arith);
        let left = unfinished(bytes).len() as int;
        assert(n * l >= 0) by (nonlinear_arith)
            requires
                n >= 0,
                l >= 0,
        ;
        assert(rest.skip(rest.len() - left) =~= bytes.skip(bytes.len() - left));
        if 0 < k < events_in(bytes, order).len() {
            assert((k - 1) * l + l == k * l) by (nonlinear_arith);
            assert((k - 1) * l >= 0) by (nonlinear_arith)
                requires
                    k >= 1,
                    l >= 0,
            ;
            assert(k * l <= n * l) by (nonlinear_arith)
                requires
                    k <= n,
                    l >= 0,
            ;
            assert(rest.skip((k - 1) * l) =~= bytes.skip(k * l));
        } else if k == 0 {
            assert(bytes.skip(0) =~= bytes);
        }
    } else {
        assert(bytes.skip(0) =~= bytes);
    }
}

/// A name ends at its first zero.
pub proof fn law_a_name_ends_at_its_first_zero(bytes: Seq<u8>)
    ensures
        ({
            let name = up_to_zero(bytes);
            &&& name.len() <= bytes.len()
            &&& name == bytes.take(name.len() as int)
            &&& !name.contains(0u8)
            &&& name.len() < bytes.len() ==> bytes[name.len() as int] == 0
        }),
    decreases bytes.len(),
{
    if bytes.len() > 0 && bytes[0] != 0 {
        let rest = bytes.skip(1);
        law_a_name_ends_at_its_first_zero(rest);
        let (name, tail) = (up_to_zero(bytes), up_to_zero(rest));
        assert(name =~= bytes.take(name.len() as int));
        assert forall|i: int| 0 <= i < name.len() implies name[i] != 0 by {
            if i > 0 {
                assert(name[i] == tail[i - 1]);
                assert(tail.contains(tail[i - 1]));
            }
        }
        if name.len() < bytes.len() {
            assert(bytes[name.len() as int] == rest[tail.len() as int]);
        }
    }
}

/// A bitmap has a code in the bit that is the code's eighth part into it, the
/// lowest bit of a byte first.
pub proof fn law_a_code_is_its_bit(bitmap: Seq<u8>, at: u16)
    requires
        8 * at + 7 <= u16::MAX,
        at < bitmap.len(),
    ensures
        bitmap[at as int] == (if coded(bitmap, (8 * at) as u16) { 1int } else { 0 }) + (if coded(
            bitmap,
            (8 * at + 1) as u16,
        ) { 2int } else { 0 }) + (if coded(bitmap, (8 * at + 2) as u16) { 4int } else { 0 }) + (
        if coded(bitmap, (8 * at + 3) as u16) { 8int } else { 0 }) + (if coded(
            bitmap,
            (8 * at + 4) as u16,
        ) { 16int } else { 0 }) + (if coded(bitmap, (8 * at + 5) as u16) { 32int } else { 0 }) + (
        if coded(bitmap, (8 * at + 6) as u16) { 64int } else { 0 }) + (if coded(
            bitmap,
            (8 * at + 7) as u16,
        ) { 128int } else { 0 }),
{
    let byte = bitmap[at as int];
    assert(byte == 128 * ((byte >> 7u32) & 1u8) + 64 * ((byte >> 6u32) & 1u8) + 32 * ((byte >> 5u32)
        & 1u8) + 16 * ((byte >> 4u32) & 1u8) + 8 * ((byte >> 3u32) & 1u8) + 4 * ((byte >> 2u32)
        & 1u8) + 2 * ((byte >> 1u32) & 1u8) + ((byte >> 0u32) & 1u8)) by (bit_vector);
    assert(forall|k: u32| k < 8 ==> #[trigger] ((byte >> k) & 1u8) <= 1) by (bit_vector);
}

/// The nodes of the panel are those that are events by name, carry its name and
/// have a button or the dial, and all of them are taken, in the order they were
/// found.
pub proof fn law_every_node_of_the_panel_is_taken(nodes: Seq<NodeView>)
    ensures
        chosen(nodes) == nodes.filter(
            |n: NodeView|
                event_name(n.file_name) && (n.name matches Some(name) && holds(name, PRODUCT@)) && (
                n.carries.buttons || n.carries.detents),
        ).map_values(|n: NodeView| n.file_name),
    decreases nodes.len(),
{
    reveal(Seq::filter);
    let pred = |n: NodeView|
        event_name(n.file_name) && (n.name matches Some(name) && holds(name, PRODUCT@)) && (
        n.carries.buttons || n.carries.detents);
    let name = |n: NodeView| n.file_name;
    if nodes.len() == 0 {
        assert(chosen(nodes) =~= nodes.filter(pred).map_values(name));
    } else {
        law_every_node_of_the_panel_is_taken(nodes.drop_last());
        let kept = nodes.drop_last().filter(pred);
        assert(kept.push(nodes.last()).map_values(name) =~= kept.map_values(name).push(
            nodes.last().file_name,
        ));
    }
}

/// A node is an event by name where the name starts with `event`.
pub proof fn law_what_is_an_event_by_name(name: Seq<u8>)
    requires
        valid_utf8(name),
    ensures
        event_name(name) <==> name.len() >= 5 && name[0] == 'e' as u8 && name[1] == 'v' as u8
            && name[2] == 'e' as u8 && name[3] == 'n' as u8 && name[4] == 't' as u8,
{
    if name.len() >= 5 {
        let p = EVENT_PREFIX@;
        assert(p[0] == 101 && p[1] == 118 && p[2] == 101 && p[3] == 110 && p[4] == 116);
        if name.take(5) == p {
            assert(name[0] == name.take(5)[0] && name[1] == name.take(5)[1] && name[2] == name.take(
                5,
            )[2] && name[3] == name.take(5)[3] && name[4] == name.take(5)[4]);
        }
        if name[0] == 101 && name[1] == 118 && name[2] == 101 && name[3] == 110 && name[4] == 116 {
            assert(name.take(5) =~= p);
        }
    }
}

/// Every device is kept or lost: a device is lost where its node failed or has
/// ended, and those that are kept stay in their order, under their own paths.
pub proof fn law_a_device_is_kept_or_lost(
    devices: Seq<DeviceView>,
    polled: Seq<PolledView>,
    n: int,
    p: PolledView,
)
    requires
        0 <= n <= devices.len(),
    ensures
        left_of(devices, polled, n).len() + lost_of(polled, n) == n,
        0 < n && gone(report_on(polled, n - 1)) ==> left_of(devices, polled, n) == left_of(
            devices,
            polled,
            n - 1,
        ),
        0 < n && !gone(report_on(polled, n - 1)) ==> left_of(devices, polled, n).drop_last()
            == left_of(devices, polled, n - 1) && left_of(devices, polled, n).last().path
            == devices[n - 1].path,
        p.read matches Some(bytes) && bytes.len() > 0 && !broken(p.revents) ==> !gone(p),
        broken(p.revents) ==> gone(p),
        readable(p.revents) && p.read is None ==> gone(p),
        p.revents == 0 ==> !gone(p),
    decreases n,
{
    assert(0i16 & (0x08i16 | 0x10i16 | 0x20i16) == 0 && 0i16 & 0x01i16 == 0) by (bit_vector);
    if n > 0 {
        law_a_device_is_kept_or_lost(devices, polled, n - 1, p);
        if !gone(report_on(polled, n - 1)) {
            assert(left_of(devices, polled, n).drop_last() =~= left_of(devices, polled, n - 1));
        }
    }
}

/// A device found again is opened once: what was open stays, in its place, and
/// every device that was found is open in the end.
pub proof fn law_what_is_found_is_opened_once(
    devices: Seq<DeviceView>,
    found: Seq<Vec<u8>>,
    k: int,
)
    ensures
        grown(devices, found).len() >= devices.len(),
        grown(devices, found).take(devices.len() as int) == devices,
        0 <= k < found.len() ==> Devices::opened(grown(devices, found), found[k]@),
        (forall|i: int, j: int|
            0 <= i < j < devices.len() ==> (#[trigger] devices[i]).path != (
            #[trigger] devices[j]).path) ==> (forall|i: int, j: int|
            0 <= i < j < grown(devices, found).len() ==> (#[trigger] grown(devices, found)[i]).path
                != (#[trigger] grown(devices, found)[j]).path),
    decreases found.len(),
{
    if found.len() == 0 {
        assert(devices.take(devices.len() as int) =~= devices);
    } else {
        let next = if Devices::opened(devices, found[0]@) {
            devices
        } else {
            devices.push(DeviceView { path: found[0]@, held: Seq::empty() })
        };
        let rest = found.skip(1);
        law_what_is_found_is_opened_once(next, rest, k - 1);
        let all = grown(next, rest);
        assert(grown(devices, found) == all);
        assert(next.take(devices.len() as int) =~= devices);
        assert(all.take(devices.len() as int) =~= all.take(next.len() as int).take(
            devices.len() as int,
        ));
        assert(Devices::opened(next, found[0]@)) by {
            if !Devices::opened(devices, found[0]@) {
                assert(next[devices.len() as int].path == found[0]@);
            }
        }
        let at = choose|i: int| 0 <= i < next.len() && (#[trigger] next[i]).path == found[0]@;
        assert(all.take(next.len() as int)[at] == all[at]);
        assert(all[at].path == found[0]@);
        if k > 0 && k < found.len() {
            assert(rest[k - 1] == found[k]);
        }
        if forall|i: int, j: int|
            0 <= i < j < devices.len() ==> (#[trigger] devices[i]).path != (
            #[trigger] devices[j]).path {
            assert forall|i: int, j: int| 0 <= i < j < next.len() implies (#[trigger] next[i]).path
                != (#[trigger] next[j]).path by {
                if j == devices.len() {
                    assert(devices[i].path != found[0]@);
                }
            }
        }
    }
}

/// The panel has buttons where any of its nodes has, and the dial likewise,
/// and the range of the dial is the first that any of them gives.
pub proof fn law_the_panel_has_what_its_nodes_have(
    each: Seq<Carries>,
    ranges: Seq<Option<(i32, i32)>>,
    i: int,
)
    ensures
        all_carry(each).buttons <==> (exists|k: int| 0 <= k < each.len() && (#[trigger] each[k]).buttons),
        all_carry(each).detents <==> (exists|k: int| 0 <= k < each.len() && (#[trigger] each[k]).detents),
        0 <= i < ranges.len() && ranges[i] is Some && (forall|j: int|
            0 <= j < i ==> (#[trigger] ranges[j]) is None) ==> first_range(ranges) == ranges[i],
    decreases each.len() + ranges.len(),
{
    if each.len() > 0 {
        let front = each.drop_last();
        law_the_panel_has_what_its_nodes_have(front, Seq::empty(), 0);
        if exists|k: int| 0 <= k < front.len() && (#[trigger] front[k]).buttons {
            let k = choose|k: int| 0 <= k < front.len() && (#[trigger] front[k]).buttons;
            assert(each[k].buttons);
        }
        if exists|k: int| 0 <= k < front.len() && (#[trigger] front[k]).detents {
            let k = choose|k: int| 0 <= k < front.len() && (#[trigger] front[k]).detents;
            assert(each[k].detents);
        }
        assert(each[each.len() - 1] == each.last());
        if exists|k: int| 0 <= k < each.len() && (#[trigger] each[k]).buttons {
            let k = choose|k: int| 0 <= k < each.len() && (#[trigger] each[k]).buttons;
            if k < front.len() {
                assert(front[k].buttons);
            }
        }
        if exists|k: int| 0 <= k < each.len() && (#[trigger] each[k]).detents {
            let k = choose|k: int| 0 <= k < each.len() && (#[trigger] each[k]).detents;
            if k < front.len() {
                assert(front[k].detents);
            }
        }
    }
    if ranges.len() > 0 && ranges[0] is None && 0 < i < ranges.len() && ranges[i] is Some && (
    forall|j: int| 0 <= j < i ==> (#[trigger] ranges[j]) is None) {
        let rest = ranges.skip(1);
        assert forall|j: int| 0 <= j < i - 1 implies (#[trigger] rest[j]) is None by {
            assert(rest[j] == ranges[j + 1]);
        }
        assert(rest[i - 1] == ranges[i]);
        law_the_panel_has_what_its_nodes_have(each, rest, i - 1);
    }
}

/// A node has failed where any of the bits for an error, a hang-up and a bad
/// descriptor is set, and can be read where none is and the lowest is.
pub proof fn law_what_a_poll_reports(revents: i16)
    ensures
        broken(revents) <==> revents & 0x08 != 0 || revents & 0x10 != 0 || revents & 0x20 != 0,
        readable(revents) <==> !broken(revents) && revents & 0x01 != 0,
{
    assert((revents & (0x08i16 | 0x10i16 | 0x20i16) != 0) <==> (revents & 0x08 != 0 || revents & 0x10
        != 0 || revents & 0x20 != 0)) by (bit_vector);
}

/// What is heard is what every device said that could be read, one device
/// after another, and nothing of one that is gone or had nothing to say.
pub proof fn law_every_device_is_heard_in_turn(
    devices: Seq<DeviceView>,
    polled: Seq<PolledView>,
    order: ByteOrder,
    n: int,
)
    requires
        0 < n <= devices.len(),
    ensures
        ({
            let before = said_by(devices, polled, order, n - 1);
            let now = said_by(devices, polled, order, n);
            let p = report_on(polled, n - 1);
            &&& !gone(p) && p.revents & 1 != 0 ==> now == before + events_in(
                devices[n - 1].held + p.read->0,
                order,
            )
            &&& gone(p) || p.revents & 1 == 0 ==> now == before
        }),
{
    let p = report_on(polled, n - 1);
    let before = said_by(devices, polled, order, n - 1);
    assert(before + Seq::<RawEvent>::empty() =~= before);
}

/// A node has a button of the panel where its bitmap has the code of one.
pub proof fn law_a_node_has_a_button_by_its_code(bitmap: Seq<u8>, b: Button)
    ensures
        coded(bitmap, b.code()) ==> coded_button(bitmap),
        coded_button(bitmap) ==> coded(bitmap, 158) || coded(bitmap, 164) || coded(bitmap, 128)
            || coded(bitmap, 28) || coded(bitmap, 168) || coded(bitmap, 208) || coded(bitmap, 163)
            || coded(bitmap, 165),
{
    if coded_button(bitmap) {
        let c = choose|c: Button| coded(bitmap, c.code());
        assert(coded(bitmap, c.code()));
    }
}

} // verus!
