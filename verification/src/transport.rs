//! The transport: the rate variable, the position, and what the buttons mean.
//!
//! It publishes intent and never touches the ring. The position is owned by
//! the audio callback, which is the only thing that advances it; the transport
//! reads it back for the display.
//!
//! Rates and positions are exact: a rate is in thousandths of unity and a
//! position in thousandths of a frame.
//!
//! # CUE is one button with three behaviours
//!
//! | State | CUE |
//! |---|---|
//! | Paused, away from the cue point | sets the point there |
//! | Playing | returns to the point and pauses |
//! | Paused at the point | plays while held |
//!
//! One cue point per track, and setting a new one cancels the old; setting it
//! makes no sound; returning pauses and does not resume, so PLAY restarts from
//! the point; and the preview is momentary, with no latching. There is no
//! separate STOP: returning to the cue point and standing by is stopping.

use vstd::prelude::*;

verus! {

/// Thousandths in one frame, and in a rate of one.
pub const UNIT: i128 = 1000;

/// Unity. At this rate the samples reach the DAC untouched.
pub const RATE_UNITY: i64 = 1000;

/// Pause.
pub const RATE_PAUSED: i64 = 0;

/// How fast FF and REW move the position while held.
pub const RATE_SEEK: i64 = 4000;

/// The latest frame a seek can be asked for.
pub const LAST_SEEK: u64 = 0x7fff_ffff_ffff_ffff;

/// What the display should say. The callback never reads this.
#[derive(Debug, Clone, Copy, PartialEq, Eq, Structural)]
pub enum State {
    /// Nothing loaded, and only that. Left by loading a track and entered by
    /// unloading one; a track that reaches its end is `Paused`.
    Stopped,
    Playing,
    Paused,
    SeekingForward,
    SeekingBack,
}

/// What a CUE press or release did, and therefore what the caller now owes.
#[derive(Debug, Clone, Copy, PartialEq, Eq, Structural)]
pub enum Cued {
    /// Nothing to do. Nothing was loaded, or a release that was not a preview.
    Nothing,
    /// The point is now this frame, and the caller owns persisting it.
    SetAt(u64),
    /// A seek to this frame is queued and the deck is paused. The caller owns
    /// telling the window it is a jump and not motion.
    Returned(u64),
    /// Playing from the point while the button is held.
    Previewing,
}

/// The slot between the control thread and the callback.
#[derive(Debug, Clone, Copy, PartialEq, Eq, Structural)]
pub struct Transport {
    /// Thousandths of unity.
    pub rate: i64,
    /// The version of the rate and the silent flag together. Odd while they
    /// are being changed.
    pub motion: u32,
    pub silent: bool,
    /// A queued jump, absolute, in frames.
    pub seek: Option<u64>,
    /// Thousandths of a frame, published by the callback.
    pub position: i128,
    pub state: State,
    /// The cue point, in frames.
    pub cue: u64,
    /// A preview is being held.
    pub previewing: bool,
}

/// The whole frame a position is in, or the nearest there is.
pub open spec fn whole(position: int) -> u64 {
    if position < 0 {
        0
    } else if position / 1000 > u64::MAX {
        u64::MAX
    } else {
        (position / 1000) as u64
    }
}

pub fn whole_frame(position: i128) -> (r: u64)
    ensures
        r == whole(position as int),
{
    if position < 0 {
        0
    } else if position / UNIT > 0xffff_ffff_ffff_ffff {
        u64::MAX
    } else {
        (position / UNIT) as u64
    }
}

// What each control does.

/// The rate and the silent flag changed as one.
pub open spec fn with_motion(t: Transport, rate: i64, silent: bool) -> Transport {
    Transport { rate, silent, motion: ((t.motion + 2) % 0x1_0000_0000) as u32, ..t }
}

pub open spec fn played(t: Transport) -> Transport {
    if t.state == State::Stopped {
        t
    } else {
        Transport { state: State::Playing, ..with_motion(t, RATE_UNITY, false) }
    }
}

pub open spec fn paused(t: Transport) -> Transport {
    if t.state == State::Stopped {
        t
    } else {
        Transport { state: State::Paused, ..with_motion(t, RATE_PAUSED, false) }
    }
}

pub open spec fn seeking(t: Transport, forward: bool) -> Transport {
    if t.state == State::Stopped {
        t
    } else if forward {
        Transport { state: State::SeekingForward, ..with_motion(t, RATE_SEEK, true) }
    } else {
        Transport { state: State::SeekingBack, ..with_motion(t, (-RATE_SEEK) as i64, true) }
    }
}

pub open spec fn seek_ended(t: Transport, was_playing: bool) -> Transport {
    if t.state != State::SeekingForward && t.state != State::SeekingBack {
        t
    } else if was_playing {
        played(t)
    } else {
        paused(t)
    }
}

pub open spec fn seek_requested(t: Transport, frame: u64) -> Transport {
    Transport {
        seek: Some(
            if frame < LAST_SEEK {
                frame
            } else {
                LAST_SEEK
            },
        ),
        ..t
    }
}

pub open spec fn seek_consumed(t: Transport, target: u64) -> Transport {
    if t.seek == Some(target) {
        Transport { seek: None, ..t }
    } else {
        t
    }
}

/// Back at the cue point, paused. There is none with nothing loaded.
pub open spec fn cued_back(t: Transport) -> Transport {
    if t.state == State::Stopped {
        t
    } else {
        seek_requested(paused(Transport { previewing: false, ..t }), t.cue)
    }
}

/// Whether the deck stands exactly on its cue point.
pub open spec fn at_cue(t: Transport) -> bool {
    t.position == 1000 * t.cue
}

pub open spec fn cue_pressed(t: Transport) -> (Transport, Cued) {
    if t.state == State::Stopped {
        (t, Cued::Nothing)
    } else if t.rate == RATE_PAUSED && at_cue(t) {
        (played(Transport { previewing: true, ..t }), Cued::Previewing)
    } else if t.rate == RATE_PAUSED {
        let at = whole(t.position as int);
        (Transport { cue: at, ..t }, Cued::SetAt(at))
    } else {
        (cued_back(t), Cued::Returned(t.cue))
    }
}

pub open spec fn cue_released(t: Transport) -> (Transport, Cued) {
    if t.state != State::Stopped && t.previewing {
        (cued_back(t), Cued::Returned(t.cue))
    } else {
        (t, Cued::Nothing)
    }
}

pub open spec fn ended(t: Transport) -> Transport {
    if t.state == State::Stopped || t.seek is Some {
        t
    } else {
        Transport {
            state: State::Paused,
            previewing: false,
            ..with_motion(t, RATE_PAUSED, false)
        }
    }
}

/// Paused at frame zero with a cue point, or with nothing loaded: every field
/// is reset, or it would carry the previous track's value.
pub open spec fn reset(t: Transport, state: State, cue: u64) -> Transport {
    Transport {
        state,
        cue,
        seek: None,
        position: 0,
        previewing: false,
        ..with_motion(t, RATE_PAUSED, false)
    }
}

/// One reading of the rate and the silent flag, with the version taken before
/// it and after it.
#[derive(Debug, Clone, Copy, PartialEq, Eq, Structural)]
pub struct Reading {
    pub before: u32,
    pub silent: bool,
    pub rate: i64,
    pub after: u32,
}

/// A reading nobody was changing the pair under.
pub open spec fn steady(r: Reading) -> bool {
    r.before % 2 == 0 && r.after == r.before
}

/// The rate and the silent flag as one consistent reading, out of two
/// attempts. If both raced a change, a paused, silent deck: one period of
/// silence, recovered on the next call.
pub fn motion_read(first: Reading, second: Reading) -> (r: (i64, bool))
    ensures
        r == (if steady(first) {
            (first.rate, first.silent)
        } else if steady(second) {
            (second.rate, second.silent)
        } else {
            (RATE_PAUSED, true)
        }),
{
    if first.before % 2 == 0 && first.after == first.before {
        return (first.rate, first.silent);
    }
    if second.before % 2 == 0 && second.after == second.before {
        return (second.rate, second.silent);
    }
    (RATE_PAUSED, true)
}

impl Default for Transport {
    fn default() -> (r: Transport)
        ensures
            r == (Transport {
                rate: RATE_PAUSED,
                motion: 0,
                silent: false,
                seek: None,
                position: 0,
                state: State::Stopped,
                cue: 0,
                previewing: false,
            }),
    {
        Transport {
            rate: RATE_PAUSED,
            motion: 0,
            silent: false,
            seek: None,
            position: 0,
            state: State::Stopped,
            cue: 0,
            previewing: false,
        }
    }
}

impl Transport {
    /// No change to the rate and the silent flag is half done.
    pub open spec fn wf(&self) -> bool {
        self.motion % 2 == 0
    }

    pub fn new() -> (r: Transport)
        ensures
            r.wf(),
            r == (Transport {
                rate: RATE_PAUSED,
                motion: 0,
                silent: false,
                seek: None,
                position: 0,
                state: State::Stopped,
                cue: 0,
                previewing: false,
            }),
    {
        Self::default()
    }

    /// PLAY. Refused by an empty deck.
    pub fn play(&mut self)
        ensures
            *final(self) == played(*old(self)),
    {
        if self.nothing_loaded() {
            return;
        }
        self.publish_motion(RATE_UNITY, false);
        self.state = State::Playing;
    }

    fn nothing_loaded(&self) -> (r: bool)
        ensures
            r == (self.state == State::Stopped),
    {
        self.state == State::Stopped
    }

    pub fn pause(&mut self)
        ensures
            *final(self) == paused(*old(self)),
    {
        if self.nothing_loaded() {
            return;
        }
        self.publish_motion(RATE_PAUSED, false);
        self.state = State::Paused;
    }

    /// FF or REW pressed: a silent seek, the position moving at four times.
    pub fn begin_seek(&mut self, forward: bool)
        ensures
            *final(self) == seeking(*old(self), forward),
    {
        if self.nothing_loaded() {
            return;
        }
        if forward {
            self.publish_motion(RATE_SEEK, true);
            self.state = State::SeekingForward;
        } else {
            self.publish_motion(-RATE_SEEK, true);
            self.state = State::SeekingBack;
        }
    }

    /// FF or REW released. Does nothing unless the deck is still seeking: the
    /// release of a seek that something else has ended must not act.
    pub fn end_seek(&mut self, was_playing: bool)
        ensures
            *final(self) == seek_ended(*old(self), was_playing),
    {
        if self.state != State::SeekingForward && self.state != State::SeekingBack {
            return;
        }
        if was_playing {
            self.play();
        } else {
            self.pause();
        }
    }

    /// CUE pressed.
    #[must_use]
    pub fn cue_down(&mut self) -> (r: Cued)
        ensures
            (*final(self), r) == cue_pressed(*old(self)),
    {
        if self.nothing_loaded() {
            return Cued::Nothing;
        }
        let paused: bool = self.rate == RATE_PAUSED;
        let at_cue: bool = self.position == UNIT * (self.cue as i128);
        if paused && at_cue {
            self.previewing = true;
            self.play();
            Cued::Previewing
        } else if paused {
            let at: u64 = whole_frame(self.position);
            self.cue = at;
            Cued::SetAt(at)
        } else {
            Cued::Returned(self.back_cue())
        }
    }

    /// CUE released. Only meaningful after a preview, which is momentary.
    #[must_use]
    pub fn cue_up(&mut self) -> (r: Cued)
        ensures
            (*final(self), r) == cue_released(*old(self)),
    {
        if !self.nothing_loaded() && self.previewing {
            self.previewing = false;
            Cued::Returned(self.back_cue())
        } else {
            Cued::Nothing
        }
    }

    /// Returns to the cue point and pauses. With nothing loaded there is no
    /// playhead to move.
    pub fn back_cue(&mut self) -> (r: u64)
        ensures
            *final(self) == cued_back(*old(self)),
            r == old(self).cue,
    {
        let to: u64 = self.cue;
        if self.nothing_loaded() {
            return to;
        }
        self.previewing = false;
        self.pause();
        self.request_seek(to);
        to
    }

    /// The track's cue point, in frames.
    pub fn cue_point(&self) -> (r: u64)
        ensures
            r == self.cue,
    {
        self.cue
    }

    /// Sets the cue point directly. For the cue store restoring a saved point.
    pub fn set_cue_point(&mut self, frame: u64)
        ensures
            *final(self) == (Transport { cue: frame, ..*old(self) }),
    {
        self.cue = frame;
    }

    /// Asks the callback to jump. Absolute, in frames; an absurd target still
    /// arrives as a request, and the engine clamps it to the track.
    pub fn request_seek(&mut self, frame: u64)
        ensures
            *final(self) == seek_requested(*old(self), frame),
    {
        self.seek = Some(
            if frame < LAST_SEEK {
                frame
            } else {
                LAST_SEEK
            },
        );
    }

    pub fn rate(&self) -> (r: i64)
        ensures
            r == self.rate,
    {
        self.rate
    }

    /// Publishes the rate and the silent flag as one indivisible change.
    fn publish_motion(&mut self, rate: i64, silent: bool)
        ensures
            *final(self) == with_motion(*old(self), rate, silent),
    {
        let v: u32 = self.motion;
        self.motion = v.wrapping_add(1);
        self.silent = silent;
        self.rate = rate;
        self.motion = v.wrapping_add(2);
    }

    fn reading(&self) -> (r: Reading)
        ensures
            r == (Reading {
                before: self.motion,
                silent: self.silent,
                rate: self.rate,
                after: self.motion,
            }),
    {
        Reading { before: self.motion, silent: self.silent, rate: self.rate, after: self.motion }
    }

    /// The rate and the silent flag, as one consistent reading.
    pub fn motion(&self) -> (r: (i64, bool))
        ensures
            self.wf() ==> r == (self.rate, self.silent),
            !self.wf() ==> r == (RATE_PAUSED, true),
    {
        motion_read(self.reading(), self.reading())
    }

    pub fn is_silent(&self) -> (r: bool)
        ensures
            r == self.silent,
    {
        self.silent
    }

    pub fn state(&self) -> (r: State)
        ensures
            r == self.state,
    {
        self.state
    }

    pub fn position(&self) -> (r: i128)
        ensures
            r == self.position,
    {
        self.position
    }

    /// The position, where no seek is in flight. A caller about to act on the
    /// position takes it from here: while a seek is pending the published
    /// position is the answer from before it.
    pub fn settled_position(&self) -> (r: Option<i128>)
        ensures
            r == (if self.seek is Some {
                None
            } else {
                Some(self.position)
            }),
    {
        if self.peek_seek().is_some() {
            return None;
        }
        Some(self.position)
    }

    /// The queued jump, left where it is: it is applied and published before
    /// it is retired.
    pub fn peek_seek(&self) -> (r: Option<u64>)
        ensures
            r == self.seek,
    {
        self.seek
    }

    /// Retires the request it is given, and no other: one queued since
    /// survives to the next period.
    pub fn consumed_seek(&mut self, target: u64)
        ensures
            *final(self) == seek_consumed(*old(self), target),
    {
        if let Some(pending) = self.seek {
            if pending == target {
                self.seek = None;
            }
        }
    }

    pub fn publish_position(&mut self, position: i128)
        ensures
            *final(self) == (Transport { position, ..*old(self) }),
    {
        self.position = position;
    }

    /// The track has run out: paused where it is, and nothing starts on its
    /// own. Ignored while a seek is queued, because the position this
    /// conclusion rests on is about to be replaced, and with nothing loaded,
    /// which only a load ends.
    pub fn reached_end(&mut self)
        ensures
            *final(self) == ended(*old(self)),
    {
        if self.nothing_loaded() || self.peek_seek().is_some() {
            return;
        }
        self.publish_motion(RATE_PAUSED, false);
        self.previewing = false;
        self.state = State::Paused;
    }

    /// A track has been loaded: paused at frame zero, not at its stored cue,
    /// with the cue point restored.
    pub fn track_loaded(&mut self, cue_point: u64)
        ensures
            *final(self) == reset(*old(self), State::Paused, cue_point),
    {
        self.seek = None;
        self.position = 0;
        self.cue = cue_point;
        self.previewing = false;
        self.publish_motion(RATE_PAUSED, false);
        self.state = State::Paused;
    }

    /// Nothing is loaded any more. The cue point goes with the track.
    pub fn track_unloaded(&mut self)
        ensures
            *final(self) == reset(*old(self), State::Stopped, 0),
    {
        self.seek = None;
        self.position = 0;
        self.cue = 0;
        self.previewing = false;
        self.publish_motion(RATE_PAUSED, false);
        self.state = State::Stopped;
    }
}

// What holds of the deck as a whole.

/// What the display says is what the deck does: the state settles the rate and
/// whether it is silent, and a held preview is a deck that was loaded.
pub open spec fn coherent(t: Transport) -> bool {
    &&& t.wf()
    &&& match t.state {
        State::Stopped => t.rate == RATE_PAUSED && !t.silent && !t.previewing && t.seek is None,
        State::Paused => t.rate == RATE_PAUSED && !t.silent,
        State::Playing => t.rate == RATE_UNITY && !t.silent,
        State::SeekingForward => t.rate == RATE_SEEK && t.silent,
        State::SeekingBack => t.rate == -RATE_SEEK && t.silent,
    }
}

/// Every control keeps what the display says true, and only a held FF or REW
/// is ever silent.
pub proof fn law_every_control_keeps_the_deck_coherent(
    t: Transport,
    forward: bool,
    was_playing: bool,
    cue: u64,
)
    requires
        coherent(t),
    ensures
        coherent(played(t)),
        coherent(paused(t)),
        coherent(seeking(t, forward)),
        coherent(seek_ended(t, was_playing)),
        coherent(cue_pressed(t).0),
        coherent(cue_released(t).0),
        coherent(cued_back(t)),
        coherent(ended(t)),
        coherent(reset(t, State::Paused, cue)),
        coherent(reset(t, State::Stopped, 0)),
        t.silent <==> t.state == State::SeekingForward || t.state == State::SeekingBack,
{
}

/// An empty deck refuses every control rather than pretending.
pub proof fn law_an_empty_deck_refuses_every_control(
    t: Transport,
    forward: bool,
    was_playing: bool,
)
    requires
        t.state == State::Stopped,
    ensures
        played(t) == t,
        paused(t) == t,
        seeking(t, forward) == t,
        seek_ended(t, was_playing) == t,
        cue_pressed(t) == (t, Cued::Nothing),
        cue_released(t) == (t, Cued::Nothing),
        cued_back(t) == t,
        ended(t) == t,
{
}

/// Every state a control, the end of the track or the audio side can leave the
/// deck in.
pub open spec fn controlled(
    t: Transport,
    forward: bool,
    was_playing: bool,
    frame: u64,
    position: i128,
) -> Seq<Transport> {
    seq![
        played(t),
        paused(t),
        seeking(t, forward),
        seek_ended(t, was_playing),
        cue_pressed(t).0,
        cue_released(t).0,
        cued_back(t),
        ended(t),
        seek_requested(t, frame),
        seek_consumed(t, frame),
        Transport { cue: frame, ..t },
        Transport { position, ..t },
    ]
}

/// Loading is the only way out of an empty deck, and unloading the only way
/// in: nothing else that is done to a deck makes it empty or ends its being
/// so.
pub proof fn law_stopped_is_nothing_loaded(
    t: Transport,
    forward: bool,
    was_playing: bool,
    frame: u64,
    position: i128,
    cue: u64,
)
    ensures
        forall|i: int|
            0 <= i < controlled(t, forward, was_playing, frame, position).len() ==> (
            #[trigger] controlled(t, forward, was_playing, frame, position)[i].state
                == State::Stopped <==> t.state == State::Stopped),
        reset(t, State::Paused, cue).state == State::Paused,
        reset(t, State::Stopped, 0).state == State::Stopped,
{
}

/// Returning to the cue point pauses and does not resume, leaves the point
/// where it is and queues a jump to it; PLAY then restarts from there, adding
/// no jump of its own.
pub proof fn law_back_cue_pauses_at_the_point(t: Transport)
    requires
        t.state != State::Stopped,
        t.cue <= LAST_SEEK,
    ensures
        cued_back(t).state == State::Paused,
        cued_back(t).rate == RATE_PAUSED,
        !cued_back(t).silent,
        cued_back(t).cue == t.cue,
        cued_back(t).seek == Some(t.cue),
        played(cued_back(t)).rate == RATE_UNITY,
        played(cued_back(t)).seek == Some(t.cue),
{
}

/// CUE on a paused deck away from its point sets the point there and makes no
/// sound: nothing moves, and the point set before is gone.
pub proof fn law_setting_a_cue_makes_no_sound(t: Transport)
    requires
        t.state != State::Stopped,
        t.rate == RATE_PAUSED,
        !at_cue(t),
    ensures
        cue_pressed(t).1 == Cued::SetAt(whole(t.position as int)),
        cue_pressed(t).0 == (Transport { cue: whole(t.position as int), ..t }),
        !t.previewing ==> cue_released(cue_pressed(t).0) == (cue_pressed(t).0, Cued::Nothing),
{
}

/// A preview is momentary: CUE held on the point plays from it, wherever the
/// callback gets to its release returns to the point and pauses, and a second
/// release does nothing.
pub proof fn law_a_preview_is_momentary(t: Transport, reached: i128)
    requires
        t.state != State::Stopped,
        t.rate == RATE_PAUSED,
        at_cue(t),
        t.cue <= LAST_SEEK,
    ensures
        ({
            let held = cue_pressed(t).0;
            let moved = Transport { position: reached, ..held };
            let (let_go, said) = cue_released(moved);
            &&& cue_pressed(t).1 == Cued::Previewing
            &&& held.rate == RATE_UNITY
            &&& held.cue == t.cue
            &&& held.seek == t.seek
            &&& said == Cued::Returned(t.cue)
            &&& let_go.rate == RATE_PAUSED
            &&& let_go.state == State::Paused
            &&& let_go.seek == Some(t.cue)
            &&& cue_released(let_go) == (let_go, Cued::Nothing)
        }),
{
}

/// A jump is serviced once, and one asked for while another is being serviced
/// is kept rather than dropped.
pub proof fn law_a_seek_is_consumed_once_and_a_newer_one_kept(t: Transport, first: u64, second: u64)
    requires
        first <= LAST_SEEK,
        second <= LAST_SEEK,
    ensures
        seek_requested(t, first).seek == Some(first),
        seek_consumed(seek_requested(t, first), first).seek is None,
        second != first ==> seek_consumed(
            seek_requested(seek_requested(t, first), second),
            first,
        ).seek == Some(second),
{
}

/// A load waits at frame zero with its own cue point, whatever the deck was
/// doing: nothing the previous track latched survives it.
pub proof fn law_a_load_clears_what_was_latched(t: Transport, cue: u64)
    ensures
        ({
            let n = reset(t, State::Paused, cue);
            &&& n.seek is None
            &&& n.position == 0
            &&& n.cue == cue
            &&& !n.previewing
            &&& !n.silent
            &&& n.rate == RATE_PAUSED
            &&& cue_released(n) == (n, Cued::Nothing)
        }),
        reset(reset(t, State::Paused, cue), State::Stopped, 0).cue == 0,
{
}

/// What the pair went through while it was published: the version turns odd,
/// both halves change freely while it is, and it turns even again.
pub open spec fn motion_step(a: Reading, b: Reading) -> bool {
    ||| b == a
    ||| a.before % 2 == 0 && b.before == a.before + 1 && b.rate == a.rate && b.silent == a.silent
    ||| a.before % 2 == 1 && b.before == a.before
    ||| a.before % 2 == 1 && b.before == a.before + 1 && b.rate == a.rate && b.silent == a.silent
}

pub open spec fn motion_history(states: Seq<Reading>) -> bool {
    forall|k: int| 0 < k < states.len() ==> motion_step(states[k - 1], #[trigger] states[k])
}

proof fn lemma_versions_grow(states: Seq<Reading>, i: int, j: int)
    requires
        motion_history(states),
        0 <= i <= j < states.len(),
    ensures
        states[i].before <= states[j].before,
    decreases j - i,
{
    if i < j {
        lemma_versions_grow(states, i, j - 1);
        assert(motion_step(states[j - 1], states[j]));
    }
}

/// A steady reading is a pair that existed: taken at whatever moments between
/// two looks at the same even version, the flag and the rate are those of the
/// version, never one from before a change and one from after it.
pub proof fn law_a_steady_reading_is_never_mixed(
    states: Seq<Reading>,
    t0: int,
    t1: int,
    t2: int,
    t3: int,
)
    requires
        motion_history(states),
        0 <= t0 <= t1 <= t2 <= t3 < states.len(),
        states[t0].before % 2 == 0,
        states[t3].before == states[t0].before,
    ensures
        states[t1].silent == states[t0].silent,
        states[t2].rate == states[t0].rate,
    decreases t3 - t0,
{
    if t0 < t3 {
        lemma_versions_grow(states, t0, t0 + 1);
        lemma_versions_grow(states, t0 + 1, t3);
        assert(motion_step(states[t0], states[t0 + 1]));
        if t0 < t1 {
            law_a_steady_reading_is_never_mixed(states, t0 + 1, t1, t2, t3);
        } else if t0 < t2 {
            law_a_steady_reading_is_never_mixed(states, t0 + 1, t0 + 1, t2, t3);
        }
    }
}

/// What each control asks of the callback: PLAY unity, a pause nothing, FF and
/// REW four times as fast on and back and silent; and none of them moves the
/// position or the cue point, nor drops a jump that is queued.
pub proof fn law_what_the_controls_ask_for(t: Transport, forward: bool, was_playing: bool)
    requires
        t.state != State::Stopped,
    ensures
        played(t).rate == 1000 && !played(t).silent && played(t).state == State::Playing,
        paused(t).rate == 0 && !paused(t).silent && paused(t).state == State::Paused,
        seeking(t, true).rate == 4000 && seeking(t, true).silent && seeking(t, true).state
            == State::SeekingForward,
        seeking(t, false).rate == -4000 && seeking(t, false).silent && seeking(t, false).state
            == State::SeekingBack,
        seek_ended(seeking(t, forward), true).state == State::Playing && seek_ended(
            seeking(t, forward),
            true,
        ).rate == 1000,
        seek_ended(seeking(t, forward), false).state == State::Paused && seek_ended(
            seeking(t, forward),
            false,
        ).rate == 0,
        t.state == State::Playing || t.state == State::Paused ==> seek_ended(t, was_playing) == t,
        forall|n: Transport|
            #![auto]
            (n == played(t) || n == paused(t) || n == seeking(t, forward) || n == seek_ended(
                seeking(t, forward),
                was_playing,
            )) ==> n.position == t.position && n.cue == t.cue && n.seek == t.seek && n.previewing
                == t.previewing,
{
}

/// A cue point is where it was set: CUE on a paused deck that stands on a frame
/// away from its point makes that frame the point, CUE once more without moving
/// plays from it, and CUE while playing from anywhere else queues a jump back
/// to that very frame.
pub proof fn law_cue_returns_to_where_it_was_set(t: Transport, f: u64, elsewhere: i128)
    requires
        t.state == State::Paused,
        t.rate == RATE_PAUSED,
        t.position == 1000 * f,
        t.cue != f,
        f <= 0x7fff_ffff_ffff_ffff,
    ensures
        ({
            let (set, said) = cue_pressed(t);
            let away = Transport { position: elsewhere, ..played(set) };
            let (home, returned) = cue_pressed(away);
            &&& said == Cued::SetAt(f)
            &&& set.cue == f
            &&& cue_pressed(set).1 == Cued::Previewing
            &&& cue_pressed(set).0.rate == 1000
            &&& returned == Cued::Returned(f)
            &&& home.seek == Some(f)
            &&& home.rate == 0
            &&& home.state == State::Paused
            &&& home.cue == f
        }),
{
}

/// The whole frame of a position is the frame it is in.
pub proof fn law_a_position_is_in_its_frame(f: u64, part: int)
    requires
        0 <= part < 1000,
    ensures
        whole(1000 * f + part) == f,
{
}

/// The end of the track pauses the deck where it is, and not while a jump is
/// queued, which leads away from it.
pub proof fn law_the_end_of_the_track_pauses(t: Transport)
    requires
        t.state != State::Stopped,
    ensures
        t.seek is Some ==> ended(t) == t,
        t.seek is None ==> {
            let n = ended(t);
            n.state == State::Paused && n.rate == 0 && !n.silent && !n.previewing && n.position
                == t.position && n.cue == t.cue && n.seek is None
        },
{
}

} // verus!
