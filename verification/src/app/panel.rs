//! The display half of the loop: when to redraw, what to show, and how bright.
//!
//! Whether to redraw is decided from values that are cheap to read, and a
//! screen is built only when one of them changed.

use vstd::prelude::*;

use crate::app::deck::Deck;
use crate::browser::{scrolled, Browser, Shown};
use crate::display::{
    compose, fitted, line_of, polled, status_line, status_text, Cadence, Geometry, Lighting, Redraw,
    Screen, ScreenView,
};
use crate::file::{Depth, TrackInfo};
use crate::path::{
    ended, joined, law_a_name_in_a_folder_is_found_there, parent_and_name, plain_name, split,
};
use crate::text::{copied, same_bytes, text_lossy, text_of};
use crate::transport::{State, Transport};

verus! {

/// What the folder line says when there is no medium.
pub const NO_MEDIUM: &'static str = "No USB";

/// The cheap read taken every turn to decide whether anything moved.
#[derive(Debug, Clone, PartialEq, Eq)]
pub struct Fingerprint {
    pub folder: Option<Vec<u8>>,
    pub selected: usize,
    pub state: State,
    pub loaded: Option<Vec<u8>>,
    pub geometry: Geometry,
}

/// The same as a mathematical value.
pub struct Print {
    pub folder: Option<Seq<u8>>,
    pub selected: usize,
    pub state: State,
    pub loaded: Option<Seq<u8>>,
    pub geometry: Geometry,
}

pub open spec fn bytes_option(v: Option<Vec<u8>>) -> Option<Seq<u8>> {
    match v {
        Some(bytes) => Some(bytes@),
        None => None,
    }
}

impl View for Fingerprint {
    type V = Print;

    open spec fn view(&self) -> Print {
        Print {
            folder: bytes_option(self.folder),
            selected: self.selected,
            state: self.state,
            loaded: bytes_option(self.loaded),
            geometry: self.geometry,
        }
    }
}

fn same_option(a: &Option<Vec<u8>>, b: &Option<Vec<u8>>) -> (r: bool)
    ensures
        r == (bytes_option(*a) == bytes_option(*b)),
{
    match (a, b) {
        (Some(x), Some(y)) => same_bytes(x.as_slice(), y.as_slice()),
        (None, None) => true,
        _ => false,
    }
}

impl Fingerprint {
    pub fn same(&self, other: &Fingerprint) -> (r: bool)
        ensures
            r == (self@ == other@),
    {
        same_option(&self.folder, &other.folder) && self.selected == other.selected && self.state
            == other.state && same_option(&self.loaded, &other.loaded) && self.geometry
            == other.geometry
    }
}

/// What a deck looks like from here.
pub open spec fn print_of(deck: Deck, t: Transport, g: Geometry) -> Print {
    Print {
        folder: match deck.browser {
            Some(b) => Some(b.cwd()),
            None => None,
        },
        selected: match deck.browser {
            Some(b) => b.selected,
            None => 0,
        },
        state: t.state,
        loaded: deck.loaded.at(),
        geometry: g,
    }
}

pub fn fingerprint(deck: &Deck, t: &Transport, geometry: Geometry) -> (r: Fingerprint)
    ensures
        r@ == print_of(*deck, *t, geometry),
{
    let loaded: Option<Vec<u8>> = match deck.loaded.path() {
        Some(p) => Some(copied(p)),
        None => None,
    };
    match &deck.browser {
        Some(b) => Fingerprint {
            folder: Some(b.path()),
            selected: b.selected_index(),
            state: t.state(),
            loaded,
            geometry,
        },
        None => Fingerprint { folder: None, selected: 0, state: t.state(), loaded, geometry },
    }
}

/// A position in nanoseconds, from thousandths of a frame.
pub open spec fn nanos(position: int, rate: u32) -> int {
    if rate == 0 {
        0
    } else {
        position * 1_000_000 / rate as int
    }
}

/// Where the playing track is, in nanoseconds.
pub open spec fn at_nanos(deck: Deck, t: Transport) -> int {
    match deck.loaded.track {
        Some(track) => nanos(t.position as int, track.rate),
        None => 0,
    }
}

fn position_nanos(deck: &Deck, t: &Transport) -> (r: u128)
    requires
        0 <= t.position <= 1000 * u64::MAX,
    ensures
        r == at_nanos(*deck, *t),
{
    match deck.loaded.track() {
        Some(track) => {
            if track.rate == 0 {
                return 0;
            }
            let scaled: u128 = (t.position() as u128) * 1_000_000;
            scaled / (track.rate as u128)
        },
        None => 0,
    }
}

pub open spec fn bits_of(depth: Depth) -> u16 {
    match depth {
        Depth::Int16 => 16,
        Depth::Int24 => 24,
    }
}

fn depth_bits(track: &TrackInfo) -> (r: u16)
    ensures
        r == bits_of(track.depth),
{
    match track.depth {
        Depth::Int16 => 16,
        Depth::Int24 => 24,
    }
}

/// The status line of a deck: the rate and the depth are those of the loaded
/// track.
pub open spec fn status_of(deck: Deck, t: Transport, g: Geometry) -> Seq<char> {
    status_text(
        t.state,
        match deck.loaded.track {
            Some(track) => Some(track.rate),
            None => None,
        },
        match deck.loaded.track {
            Some(track) => Some(bits_of(track.depth)),
            None => None,
        },
        if t.state != State::Stopped {
            Some(at_nanos(deck, t) as u128)
        } else {
            None
        },
        g.cols as int,
    )
}

/// The name of a folder: its own, and not the path to it, unless it has none.
pub open spec fn folder_name(path: Seq<u8>) -> Seq<char> {
    match split(path) {
        Some((_, name)) => text_of(name),
        None => text_of(path),
    }
}

/// What a deck shows: a screen, or the file whose header has to be read first.
#[derive(Debug)]
pub enum Seen {
    Screen(Screen),
    Unread(Vec<u8>),
}

/// The screen of a browser that has everything it needs: the rows from its
/// first visible one on.
pub open spec fn shows(b: Browser, status: Seq<char>, g: Geometry, s: ScreenView) -> bool {
    let height = g.listing();
    let count = if height == 0 || b.entries@.len() == 0 {
        0
    } else {
        b.shown_end(height) - b.first
    };
    &&& s.folder == fitted(folder_name(b.cwd()), g.cols as int)
    &&& s.status == status
    &&& s.lines.len() == count
    &&& forall|i: int| 0 <= i < count ==> #[trigger] s.lines[i] == line_of(b.row(b.first + i), g)
}

/// Builds the screen the deck shows right now. The viewport of the browser is
/// scrolled as far as it has to be, and nothing else changes.
pub fn screen_of(deck: &mut Deck, t: &Transport, g: Geometry) -> (r: Seen)
    requires
        old(deck).wf(),
        0 <= t.position <= 1000 * u64::MAX,
    ensures
        final(deck).wf(),
        *final(deck) == (Deck { browser: final(deck).browser, ..*old(deck) }),
        match old(deck).browser {
            None => final(deck).browser is None && (r matches Seen::Screen(s) && s@.folder
                == NO_MEDIUM@ && s@.lines.len() == 0 && s@.status == status_of(*old(deck), *t, g)),
            Some(b) => final(deck).browser matches Some(after) && {
                &&& after == (Browser { first: after.first, ..b })
                &&& g.listing() == 0 || b.entries@.len() == 0 ==> after == b && r is Screen
                &&& g.listing() > 0 && b.entries@.len() > 0 ==> after.first == scrolled(
                    b.first as int,
                    b.selected as int,
                    b.entries@.len() as int,
                    g.listing(),
                )
                &&& match r {
                    Seen::Screen(s) => {
                        &&& shows(after, status_of(*old(deck), *t, g), g, s@)
                        &&& g.listing() > 0 ==> forall|i: int|
                            after.first <= i < after.shown_end(g.listing()) ==> !(
                            #[trigger] after.unread(i))
                    },
                    Seen::Unread(path) => exists|i: int|
                        {
                            &&& after.first <= i < after.shown_end(g.listing())
                            &&& #[trigger] after.unread(i)
                            &&& path@ == after.entry_path(i)
                            &&& forall|k: int| after.first <= k < i ==> !(#[trigger] after.unread(k))
                        },
                }
            },
        },
{
    let state: State = t.state();
    let at: Option<u128> = if state != State::Stopped {
        Some(position_nanos(&*deck, t))
    } else {
        None
    };
    let (rate, bits) = match deck.loaded.track() {
        Some(track) => (Some(track.rate), Some(depth_bits(track))),
        None => (None, None),
    };
    let status: String = status_line(state, rate, bits, at, g);
    let mut browser: Browser = match deck.browser.take() {
        Some(b) => b,
        None => {
            return Seen::Screen(
                Screen { folder: NO_MEDIUM.to_owned(), lines: Vec::new(), status },
            );
        },
    };
    let path: Vec<u8> = browser.path();
    let folder: String = match parent_and_name(path.as_slice()) {
        Some((_, name)) => text_lossy(name.as_slice()),
        None => text_lossy(path.as_slice()),
    };
    assert(folder@ == folder_name(path@));
    let shown: Shown = browser.view(g.listing_rows());
    let ghost after = browser;
    deck.browser = Some(browser);
    match shown {
        Shown::Unread(path) => Seen::Unread(path),
        Shown::Rows(rows) => {
            let screen: Screen = compose(folder.as_str(), rows.as_slice(), status, g);
            assert(after.cwd() == path@);
            assert forall|i: int| 0 <= i < screen@.lines.len() implies #[trigger] screen@.lines[i]
                == line_of(after.row(after.first + i), g) by {
                assert(rows@[i]@ == after.row(after.first + i));
            }
            Seen::Screen(screen)
        },
    }
}

/// Whether the position is moving: a seek counts, silent or not.
pub open spec fn moves(state: State) -> bool {
    state == State::Playing || state == State::SeekingForward || state == State::SeekingBack
}

/// How bright the panel is to be. Idle means nothing playing: with a long
/// track, nobody touching anything is normal, and the position is being read.
pub open spec fn wanted(idle: int, moving: bool, dim_after: u128, blank_after: u128) -> Lighting {
    if moving || idle < dim_after {
        Lighting::Full
    } else if idle < blank_after {
        Lighting::Dim
    } else {
        Lighting::Blank
    }
}

/// The display half of the app loop. Times are in nanoseconds.
#[derive(Debug)]
pub struct Panel<D> {
    pub show: D,
    pub cadence: Cadence,
    /// What is on the glass.
    pub last: Option<Fingerprint>,
    /// When the deck was last doing something.
    pub active_at: Option<u128>,
    pub lighting: Lighting,
    pub dim_after: u128,
    pub blank_after: u128,
}

impl<D> Panel<D> {
    pub fn new(show: D, dim_after: u128, blank_after: u128) -> (r: Panel<D>)
        ensures
            r == (Panel {
                show,
                cadence: Cadence { last_full: None, last_position: None, pending: false },
                last: None,
                active_at: None,
                lighting: Lighting::Full,
                dim_after,
                blank_after,
            }),
    {
        Panel {
            show,
            cadence: Cadence::new(),
            last: None,
            active_at: None,
            lighting: Lighting::Full,
            dim_after,
            blank_after,
        }
    }

    pub fn show(&self) -> (r: &D)
        ensures
            *r == self.show,
    {
        &self.show
    }

    pub fn show_mut(&mut self) -> (r: &mut D)
        ensures
            *r == old(self).show,
            *final(self) == (Panel { show: *final(r), ..*old(self) }),
    {
        &mut self.show
    }

    /// Throws away everything remembered of what is on the glass, for a
    /// display that has been replaced: the new one is blank, and how it is lit
    /// has to be said.
    pub fn forget(&mut self)
        ensures
            *final(self) == (Panel {
                cadence: Cadence { last_full: None, last_position: None, pending: false },
                last: None,
                lighting: Lighting::Blank,
                ..*old(self)
            }),
    {
        self.cadence = Cadence::new();
        self.last = None;
        self.lighting = Lighting::Blank;
    }

    pub fn lighting(&self) -> (r: Lighting)
        ensures
            r == self.lighting,
    {
        self.lighting
    }

    /// Whether what is seen is not what is on the glass.
    pub open spec fn stale(&self, print: Print) -> bool {
        match self.last {
            Some(last) => last@ != print,
            None => true,
        }
    }

    fn changed(&self, print: &Fingerprint) -> (r: bool)
        ensures
            r == self.stale(print@),
    {
        match &self.last {
            Some(last) => !last.same(print),
            None => true,
        }
    }

    fn moving(state: State) -> (r: bool)
        ensures
            r == moves(state),
    {
        state == State::Playing || state == State::SeekingForward || state == State::SeekingBack
    }

    /// When the deck was last doing something, as of a turn.
    pub open spec fn active(&self, now: u128, print: Print) -> u128 {
        if self.stale(print) || moves(print.state) || self.active_at is None {
            now
        } else {
            self.active_at->0
        }
    }

    /// How the panel has to be lit, where that is not how it is. To be done
    /// before anything is drawn, and [`Panel::lit`] says that it was.
    pub fn light(&mut self, now: u128, print: &Fingerprint) -> (r: Option<Lighting>)
        ensures
            *final(self) == (Panel {
                active_at: Some(old(self).active(now, print@)),
                ..*old(self)
            }),
            ({
                let since = old(self).active(now, print@);
                let idle = if now >= since {
                    now - since
                } else {
                    0
                };
                let want = wanted(
                    idle,
                    moves(print@.state),
                    old(self).dim_after,
                    old(self).blank_after,
                );
                r == if want != old(self).lighting {
                    Some(want)
                } else {
                    None
                }
            }),
    {
        let moving: bool = Self::moving(print.state);
        let since: u128 = match self.active_at {
            Some(at) => if self.changed(print) || moving {
                now
            } else {
                at
            },
            None => now,
        };
        self.active_at = Some(since);
        let idle: u128 = if now >= since {
            now - since
        } else {
            0
        };
        let want: Lighting = if moving || idle < self.dim_after {
            Lighting::Full
        } else if idle < self.blank_after {
            Lighting::Dim
        } else {
            Lighting::Blank
        };
        if want != self.lighting {
            Some(want)
        } else {
            None
        }
    }

    /// The panel has been lit.
    pub fn lit(&mut self, lighting: Lighting)
        ensures
            *final(self) == (Panel { lighting, ..*old(self) }),
    {
        self.lighting = lighting;
    }

    /// What to draw now. [`Panel::drew`] says that a whole screen was.
    pub fn turn(&mut self, now: u128, print: &Fingerprint) -> (r: Redraw)
        ensures
            ({
                let p = polled(
                    old(self).cadence,
                    now,
                    old(self).stale(print@),
                    moves(print@.state),
                );
                r == p.1 && *final(self) == (Panel { cadence: p.0, ..*old(self) })
            }),
    {
        let changed: bool = self.changed(print);
        self.cadence.poll(now, changed, Self::moving(print.state))
    }

    /// The whole screen has been drawn.
    pub fn drew(&mut self, print: Fingerprint)
        ensures
            *final(self) == (Panel { last: Some(print), ..*old(self) }),
    {
        self.last = Some(print);
    }
}

/// A deck whose position is moving is never dimmed, however long nobody
/// touches it.
pub proof fn law_a_playing_deck_is_lit(idle: int, state: State, dim_after: u128, blank_after: u128)
    requires
        moves(state),
    ensures
        wanted(idle, moves(state), dim_after, blank_after) == Lighting::Full,
{
}

/// A panel that was replaced is drawn whole on its first turn, whatever the
/// deck is doing.
pub proof fn law_a_replaced_panel_is_drawn_whole(now: u128, moving: bool)
    ensures
        polled(
            Cadence { last_full: None, last_position: None, pending: false },
            now,
            true,
            moving,
        ).1 == Redraw::Full,
{
}

/// The position shown is the time the frames before it take: as many
/// nanoseconds as have wholly passed of the frames played, the last of them
/// perhaps in part, at `rate` a second, and a second for each `rate` of them.
pub proof fn law_the_position_is_the_time_played(position: int, rate: u32, seconds: int)
    requires
        rate > 0,
        position >= 0,
        seconds >= 0,
    ensures
        nanos(position, rate) * rate <= 1_000_000 * position < (nanos(position, rate) + 1) * rate,
        nanos(1000 * (seconds * rate), rate) == 1_000_000_000 * seconds,
{
    let r = rate as int;
    let n = nanos(position, rate);
    assert(n * r <= 1_000_000 * position < (n + 1) * r) by (nonlinear_arith)
        requires
            r > 0,
            n == position * 1_000_000 / r,
    ;
    let whole = 1000 * (seconds * r) * 1_000_000;
    assert(whole == (1_000_000_000 * seconds) * r) by (nonlinear_arith)
        requires
            whole == 1000 * (seconds * r) * 1_000_000,
    ;
    vstd::arithmetic::div_mod::lemma_div_by_multiple(1_000_000_000 * seconds, r);
}

/// The panel shows the deck it belongs to: the state, the rate and the depth of
/// the track that is loaded, and where it is, wherever there is a track.
pub proof fn law_the_status_is_of_the_deck(deck: Deck, t: Transport, g: Geometry, track: TrackInfo)
    requires
        deck.loaded.track matches Some(loaded) && *loaded == track,
        t.state != State::Stopped,
    ensures
        status_of(deck, t, g) == status_text(
            t.state,
            Some(track.rate),
            Some(
                if track.depth == Depth::Int16 {
                    16
                } else {
                    24
                },
            ),
            Some(nanos(t.position as int, track.rate) as u128),
            g.cols as int,
        ),
{
}

/// A folder is called by its own name, wherever it is.
pub proof fn law_a_folder_is_called_by_its_name(dir: Seq<u8>, name: Seq<u8>)
    requires
        plain_name(name),
        dir == seq![47u8] || (dir.len() > 0 && ended(dir) == dir),
    ensures
        folder_name(joined(dir, name)) == text_of(name),
{
    law_a_name_in_a_folder_is_found_there(dir, name);
}

/// A panel dims when it has been left for so long and goes dark when it has
/// been left for longer, and not while the position moves, which it does while
/// the deck plays and while it seeks.
pub proof fn law_when_the_panel_goes_dark(
    idle: int,
    dim_after: u128,
    blank_after: u128,
    state: State,
)
    ensures
        wanted(idle, true, dim_after, blank_after) == Lighting::Full,
        idle < dim_after ==> wanted(idle, false, dim_after, blank_after) == Lighting::Full,
        dim_after <= idle < blank_after ==> wanted(idle, false, dim_after, blank_after)
            == Lighting::Dim,
        idle >= dim_after && idle >= blank_after ==> wanted(idle, false, dim_after, blank_after)
            == Lighting::Blank,
        moves(state) <==> state != State::Stopped && state != State::Paused,
{
}

/// Two prints are the same only where all that is shown is: the folder, the
/// selection, the state, the track and the panel.
pub proof fn law_a_print_tells_decks_apart(
    a: Deck,
    b: Deck,
    t: Transport,
    u: Transport,
    g: Geometry,
    h: Geometry,
)
    requires
        print_of(a, t, g) == print_of(b, u, h),
    ensures
        t.state == u.state,
        g == h,
        a.loaded.at() == b.loaded.at(),
        a.browser is Some <==> b.browser is Some,
        a.browser matches Some(x) ==> x.cwd() == (b.browser->0).cwd() && x.selected == (
        b.browser->0).selected,
{
}

/// A panel that was left keeps the time since which it was, and anything that
/// shows or moves starts it anew.
pub proof fn law_what_wakes_the_panel<D>(panel: Panel<D>, now: u128, print: Print)
    ensures
        moves(print.state) ==> panel.active(now, print) == now,
        (panel.last matches Some(last) ==> last@ != print) ==> panel.active(now, print) == now,
        !moves(print.state) && (panel.last matches Some(last) && last@ == print) ==> (
        panel.active_at matches Some(since) ==> panel.active(now, print) == since),
{
}

/// The panel shows the entries from the first that is shown on, one to a line,
/// as many as there are or as fit, and marks the selection, which is in sight.
pub proof fn law_the_panel_shows_the_selection(
    b: Browser,
    status: Seq<char>,
    g: Geometry,
    s: ScreenView,
    i: int,
)
    requires
        b.wf(),
        shows(b, status, g, s),
        b.entries@.len() > 0,
        g.rows > 2,
        b.first <= b.selected < b.first + (g.rows - 2),
        0 <= i < s.lines.len(),
    ensures
        s.status == status,
        s.lines.len() <= g.rows - 2,
        b.first + s.lines.len() == b.entries@.len() || s.lines.len() == g.rows - 2,
        s.lines[i].text == fitted(text_of(b.entries@[b.first + i].name@), g.budget()),
        s.lines[i].selected <==> b.first + i == b.selected,
        0 <= b.selected - b.first < s.lines.len(),
        s.folder == fitted(folder_name(b.cwd()), g.cols as int),
{
}

} // verus!
