//! What is on the screen, before anything knows what a screen is.
//!
//! Text in cells: which name goes in which row, how much of it fits, what the
//! status line says and when any of it is redrawn. No font, no driver and no
//! panel. A budget is in columns, and a full-width character takes two.
//!
//! Times are in nanoseconds on a clock that does not go back.

use unicode_width::UnicodeWidthChar;
use vstd::prelude::*;

use crate::browser::{Row, RowView, Verdict, VerdictView};
use crate::text::{
    chars_of, decimal, decimal_digits, law_a_number_is_written_as_what_it_is, number, push_decimal,
    push_two_digits, string_of, two_digits,
};
use crate::transport::State;

pub mod packed;
pub mod raster;
pub mod paint;
pub mod text;
pub mod wire;

verus! {

/// Stands where the rest of a name would have been. ASCII, because it has to
/// exist in every face and take one column in all of them.
pub const TRUNCATED: char = '~';

/// The panel, as cells.
#[derive(Debug, Clone, Copy, PartialEq, Eq, Structural)]
pub struct Geometry {
    pub cols: usize,
    pub rows: usize,
    /// Whether a row's kind can be said with a pen instead of a character.
    pub colour: bool,
}

impl Geometry {
    /// The rows of the listing, once the path and the status have theirs.
    pub open spec fn listing(self) -> int {
        if self.rows < 2 {
            0
        } else {
            self.rows - 2
        }
    }

    pub fn listing_rows(self) -> (r: usize)
        ensures
            r == self.listing(),
    {
        if self.rows < 2 {
            0
        } else {
            self.rows - 2
        }
    }

    /// The columns a mark takes: one, where there is no colour to say it with.
    pub open spec fn marking(self) -> int {
        if self.colour {
            0
        } else {
            1
        }
    }

    pub fn mark_cols(self) -> (r: usize)
        ensures
            r == self.marking(),
    {
        if self.colour {
            0
        } else {
            1
        }
    }

    /// The columns left for a name.
    pub open spec fn budget(self) -> int {
        if self.cols < self.marking() {
            0
        } else {
            self.cols - self.marking()
        }
    }

    pub fn name_budget(self) -> (r: usize)
        ensures
            r == self.budget(),
    {
        if self.cols < self.mark_cols() {
            0
        } else {
            self.cols - self.mark_cols()
        }
    }
}

/// The columns `UnicodeWidthChar::width` gives a character past ASCII.
pub uninterp spec fn wide_columns(c: char) -> usize;

/// The columns a character takes: one for printable ASCII, none for a control
/// character.
pub open spec fn columns(c: char) -> usize {
    if 0x20 <= c as int && (c as int) < 0x7f {
        1
    } else if (c as int) < 0xa0 {
        0
    } else {
        wide_columns(c)
    }
}

/// `UnicodeWidthChar::width`, with no columns where it gives none: one for
/// printable ASCII, none for the control characters, and past those what
/// depends on the character alone.
#[verifier::external_body]
pub fn cols_of(c: char) -> (r: usize)
    ensures
        r == (if 0x20 <= c as int && (c as int) < 0x7f {
            1usize
        } else if (c as int) < 0xa0 {
            0usize
        } else {
            wide_columns(c)
        }),
{
    c.width().unwrap_or(0)
}

/// The columns a text takes.
pub open spec fn total_columns(text: Seq<char>) -> nat
    decreases text.len(),
{
    if text.len() == 0 {
        0
    } else {
        total_columns(text.drop_last()) + columns(text.last()) as nat
    }
}

/// The columns a text takes, as far as a machine word can say it.
pub fn width(text: &str) -> (r: usize)
    ensures
        r == (if total_columns(text@) < usize::MAX {
            total_columns(text@) as usize
        } else {
            usize::MAX
        }),
{
    let chars: Vec<char> = chars_of(text);
    let mut total: usize = 0;
    let mut i: usize = 0;
    while i < chars.len()
        invariant
            i <= chars@.len(),
            total == (if total_columns(chars@.take(i as int)) < usize::MAX {
                total_columns(chars@.take(i as int)) as usize
            } else {
                usize::MAX
            }),
        decreases chars@.len() - i,
    {
        proof {
            assert(chars@.take(i + 1).drop_last() =~= chars@.take(i as int));
        }
        total = total.saturating_add(cols_of(chars[i]));
        i = i + 1;
    }
    assert(chars@.take(chars@.len() as int) =~= chars@);
    total
}

/// How many characters of a text, from its start, fit in so many columns.
pub open spec fn fitting(text: Seq<char>, room: int, upto: int) -> int
    decreases text.len() - upto,
{
    if 0 <= upto < text.len() && total_columns(text.take(upto + 1)) <= room {
        fitting(text, room, upto + 1)
    } else {
        upto
    }
}

/// A name inside a budget: itself where it fits, else as much of it as leaves
/// a column for the marker, and the marker.
pub open spec fn fitted(name: Seq<char>, budget: int) -> Seq<char> {
    if budget <= 0 {
        Seq::empty()
    } else if total_columns(name) <= budget {
        name
    } else {
        name.take(fitting(name, budget - 1, 0)).push(TRUNCATED)
    }
}

proof fn lemma_columns_grow(text: Seq<char>, i: int)
    requires
        0 <= i <= text.len(),
    ensures
        total_columns(text.take(i)) <= total_columns(text),
    decreases text.len() - i,
{
    if i < text.len() {
        lemma_columns_grow(text, i + 1);
        assert(text.take(i + 1).drop_last() =~= text.take(i));
    } else {
        assert(text.take(i) =~= text);
    }
}

/// How many characters of `chars` fit in `room` columns, from the start.
fn count_fitting(chars: &[char], room: usize) -> (r: usize)
    ensures
        r <= chars@.len(),
        r == fitting(chars@, room as int, 0),
        r == chars@.len() <==> total_columns(chars@) <= room,
{
    let mut used: usize = 0;
    let mut i: usize = 0;
    assert(chars@.take(0) =~= Seq::empty());
    while i < chars.len()
        invariant
            i <= chars@.len(),
            used == total_columns(chars@.take(i as int)),
            used <= room,
            fitting(chars@, room as int, 0) == fitting(chars@, room as int, i as int),
        decreases chars@.len() - i,
    {
        let w: usize = cols_of(chars[i]);
        proof {
            assert(chars@.take(i + 1).drop_last() =~= chars@.take(i as int));
        }
        if w > room - used {
            proof {
                lemma_columns_grow(chars@, i + 1);
            }
            return i;
        }
        used = used + w;
        i = i + 1;
    }
    assert(chars@.take(chars@.len() as int) =~= chars@);
    i
}

proof fn lemma_columns_together(a: Seq<char>, b: Seq<char>)
    ensures
        total_columns(a + b) == total_columns(a) + total_columns(b),
    decreases b.len(),
{
    if b.len() == 0 {
        assert(a + b =~= a);
    } else {
        assert((a + b).drop_last() =~= a + b.drop_last());
        lemma_columns_together(a, b.drop_last());
    }
}

/// Whether a text fits in so many columns.
fn fits(text: &str, room: usize) -> (r: bool)
    ensures
        r == (total_columns(text@) <= room),
{
    let chars: Vec<char> = chars_of(text);
    count_fitting(chars.as_slice(), room) == chars.len()
}

/// Fits a name into a budget of columns. Truncation replaces a character
/// rather than adding one.
pub fn fit(name: &str, budget: usize) -> (r: String)
    ensures
        r@ == fitted(name@, budget as int),
{
    if budget == 0 {
        return String::new();
    }
    let chars: Vec<char> = chars_of(name);
    if count_fitting(chars.as_slice(), budget) == chars.len() {
        return name.to_owned();
    }
    let kept: usize = count_fitting(chars.as_slice(), budget - 1);
    let front = vstd::slice::slice_subrange(chars.as_slice(), 0, kept);
    let mut out: String = string_of(front);
    out.push(TRUNCATED);
    assert(out@ =~= name@.take(kept as int).push(TRUNCATED));
    out
}

proof fn lemma_fitting(text: Seq<char>, room: int, upto: int)
    requires
        0 <= upto <= text.len(),
        total_columns(text.take(upto)) <= room,
    ensures
        upto <= fitting(text, room, upto) <= text.len(),
        total_columns(text.take(fitting(text, room, upto))) <= room,
    decreases text.len() - upto,
{
    if upto < text.len() && total_columns(text.take(upto + 1)) <= room {
        lemma_fitting(text, room, upto + 1);
    }
}

/// Whatever the name, what is drawn is no wider than its budget; a name that
/// fits is left alone, so fitting what was fitted changes nothing; and a name
/// that does not fit ends in the marker.
pub proof fn law_what_is_fitted_fits(name: Seq<char>, budget: int)
    requires
        budget >= 0,
    ensures
        total_columns(fitted(name, budget)) <= budget,
        budget > 0 && total_columns(name) <= budget ==> fitted(name, budget) == name,
        fitted(fitted(name, budget), budget) == fitted(name, budget),
        budget > 0 && total_columns(name) > budget ==> fitted(name, budget).last() == TRUNCATED,
{
    if budget > 0 && total_columns(name) > budget {
        assert(name.take(0) =~= Seq::empty());
        lemma_fitting(name, budget - 1, 0);
        let cut = name.take(fitting(name, budget - 1, 0));
        assert(cut.push(TRUNCATED).drop_last() =~= cut);
        assert(columns(TRUNCATED) == 1);
    } else if budget == 0 {
        assert(fitted(name, budget) =~= Seq::empty());
    }
}

/// What a row is.
#[derive(Debug, Clone, Copy, PartialEq, Eq, Structural)]
pub enum Kind {
    Folder,
    Playable,
    Refused,
    Unreadable,
}

/// One line of the listing.
#[derive(Debug, Clone, PartialEq, Eq)]
pub struct Line {
    pub text: String,
    pub kind: Kind,
    pub selected: bool,
}

/// Everything on the panel, as text.
#[derive(Debug, Clone, PartialEq, Eq)]
pub struct Screen {
    pub folder: String,
    pub lines: Vec<Line>,
    pub status: String,
}

/// A line as a mathematical value.
pub struct LineView {
    pub text: Seq<char>,
    pub kind: Kind,
    pub selected: bool,
}

impl View for Line {
    type V = LineView;

    open spec fn view(&self) -> LineView {
        LineView { text: self.text@, kind: self.kind, selected: self.selected }
    }
}

/// A screen as a mathematical value.
pub struct ScreenView {
    pub folder: Seq<char>,
    pub lines: Seq<LineView>,
    pub status: Seq<char>,
}

impl View for Screen {
    type V = ScreenView;

    open spec fn view(&self) -> ScreenView {
        ScreenView {
            folder: self.folder@,
            lines: self.lines@.map_values(|l: Line| l@),
            status: self.status@,
        }
    }
}

pub open spec fn row_kind(row: RowView) -> Kind {
    match row.verdict {
        None => Kind::Folder,
        Some(VerdictView::Plays(_)) => Kind::Playable,
        Some(VerdictView::Refused(_)) => Kind::Refused,
        Some(VerdictView::Unreadable(_)) => Kind::Unreadable,
    }
}

fn kind_of(row: &Row) -> (r: Kind)
    ensures
        r == row_kind(row@),
{
    match row {
        Row::Folder { .. } => Kind::Folder,
        Row::File { verdict, .. } => match verdict {
            Verdict::Plays(_) => Kind::Playable,
            Verdict::Refused(_) => Kind::Refused,
            Verdict::Unreadable(_) => Kind::Unreadable,
        },
    }
}

/// Minutes, seconds and tenths.
pub open spec fn clock(at: nat) -> Seq<char> {
    let tenths = at / 100_000_000;
    decimal(tenths / 600) + ":"@ + two_digits(tenths / 10 % 60) + "."@ + decimal(tenths % 10)
}

/// A position as minutes, seconds and tenths, from nanoseconds.
pub fn timecode(at: u128) -> (r: String)
    ensures
        r@ == clock(at as nat),
{
    let tenths: u128 = at / 100_000_000;
    let mut out: String = String::new();
    push_decimal(&mut out, tenths / 600);
    out.append(":");
    push_two_digits(&mut out, (tenths / 10 % 60) as u8);
    out.append(".");
    push_decimal(&mut out, tenths % 10);
    assert(out@ =~= clock(at as nat));
    out
}

/// The word for what the deck is doing. An empty deck is not a stopped one.
pub open spec fn state_word(state: State) -> &'static str {
    match state {
        State::Stopped => "NO TRACK",
        State::Playing => "PLAY",
        State::Paused => "PAUSE",
        State::SeekingForward => "FF",
        State::SeekingBack => "REW",
    }
}

/// The rate and the depth in use.
pub open spec fn rate_field(hz: u32, bits: u16) -> Seq<char> {
    " "@ + decimal(hz as nat / 1000) + "k/"@ + decimal(bits as nat)
}

/// The status line: the word, the position, and the rate and depth where they
/// fit beside those. A field that does not fit is dropped whole.
pub open spec fn status_text(
    state: State,
    rate_hz: Option<u32>,
    bits: Option<u16>,
    at: Option<u128>,
    cols: int,
) -> Seq<char> {
    let word = state_word(state)@;
    if state == State::Stopped {
        fitted(word, cols)
    } else {
        let timed = match at {
            Some(t) => word + " "@ + clock(t as nat),
            None => word,
        };
        match (rate_hz, bits) {
            (Some(hz), Some(b)) => if total_columns(timed) + total_columns(rate_field(hz, b))
                <= cols {
                fitted(timed + rate_field(hz, b), cols)
            } else {
                fitted(timed, cols)
            },
            _ => fitted(timed, cols),
        }
    }
}

pub fn status_line(
    state: State,
    rate_hz: Option<u32>,
    bits: Option<u16>,
    at: Option<u128>,
    g: Geometry,
) -> (r: String)
    ensures
        r@ == status_text(state, rate_hz, bits, at, g.cols as int),
{
    let word: &str = match state {
        State::Stopped => "NO TRACK",
        State::Playing => "PLAY",
        State::Paused => "PAUSE",
        State::SeekingForward => "FF",
        State::SeekingBack => "REW",
    };
    let mut line: String = word.to_owned();
    if state == State::Stopped {
        return fit(line.as_str(), g.cols);
    }
    if let Some(at) = at {
        line.append(" ");
        line.append(timecode(at).as_str());
    }
    if let Some(hz) = rate_hz {
        if let Some(bits) = bits {
            let mut tail: String = String::new();
            tail.append(" ");
            push_decimal(&mut tail, (hz / 1000) as u128);
            tail.append("k/");
            push_decimal(&mut tail, bits as u128);
            assert(tail@ =~= rate_field(hz, bits));
            let ghost timed = line@;
            let mut whole: String = line.clone();
            whole.append(tail.as_str());
            proof {
                lemma_columns_together(timed, tail@);
            }
            if fits(whole.as_str(), g.cols) {
                line = whole;
            }
        }
    }
    fit(line.as_str(), g.cols)
}

/// The line a row becomes.
pub open spec fn line_of(row: RowView, g: Geometry) -> LineView {
    LineView {
        text: fitted(row.name, g.budget()),
        kind: row_kind(row),
        selected: row.selected,
    }
}

/// How many of the rows have room.
pub open spec fn lines_shown(rows: int, g: Geometry) -> int {
    if rows < g.listing() {
        rows
    } else {
        g.listing()
    }
}

/// Puts the path, the rows and the status together, each inside its budget.
pub fn compose(folder: &str, rows: &[Row], status: String, g: Geometry) -> (r: Screen)
    ensures
        r@.folder == fitted(folder@, g.cols as int),
        r@.status == status@,
        r@.lines.len() == lines_shown(rows@.len() as int, g),
        forall|i: int| 0 <= i < r@.lines.len() ==> #[trigger] r@.lines[i] == line_of(rows@[i]@, g),
{
    let mut lines: Vec<Line> = Vec::new();
    let room: usize = g.listing_rows();
    let mut i: usize = 0;
    while i < rows.len() && i < room
        invariant
            i <= rows@.len(),
            i <= room,
            room == g.listing(),
            lines@.len() == i,
            forall|k: int| 0 <= k < i ==> (#[trigger] lines@[k])@ == line_of(rows@[k]@, g),
        decreases rows@.len() - i,
    {
        let row: &Row = &rows[i];
        lines.push(
            Line {
                text: fit(row.name(), g.name_budget()),
                kind: kind_of(row),
                selected: row.selected(),
            },
        );
        i = i + 1;
    }
    Screen { folder: fit(folder, g.cols), lines, status }
}

/// How bright the panel should be.
#[derive(Debug, Clone, Copy, PartialEq, Eq, Structural)]
pub enum Lighting {
    Full,
    Dim,
    Blank,
}

/// What to redraw.
#[derive(Debug, Clone, Copy, PartialEq, Eq, Structural)]
pub enum Redraw {
    Nothing,
    /// The status line alone.
    Position,
    Full,
}

/// Changes closer together than this are drawn once.
pub const COALESCE: u128 = 40_000_000;

/// How often a moving position is redrawn.
pub const POSITION_EVERY: u128 = 1_000_000_000;

/// When to redraw: at most once a window, and never losing the last change of
/// a spin.
#[derive(Debug, Clone, Copy, PartialEq, Eq, Structural)]
pub struct Cadence {
    pub last_full: Option<u128>,
    pub last_position: Option<u128>,
    pub pending: bool,
}

/// Whether as long as `every` has passed since `last`, or nothing has happened
/// yet.
pub open spec fn due(now: u128, last: Option<u128>, every: u128) -> bool {
    match last {
        None => true,
        Some(t) => now - t >= every,
    }
}

pub open spec fn polled(c: Cadence, now: u128, changed: bool, moving: bool) -> (Cadence, Redraw) {
    let pending = c.pending || changed;
    if pending {
        if due(now, c.last_full, COALESCE) {
            (
                Cadence { last_full: Some(now), last_position: Some(now), pending: false },
                Redraw::Full,
            )
        } else {
            (Cadence { pending: true, ..c }, Redraw::Nothing)
        }
    } else if moving && due(now, c.last_position, POSITION_EVERY) {
        (Cadence { last_position: Some(now), pending: false, ..c }, Redraw::Position)
    } else {
        (Cadence { pending: false, ..c }, Redraw::Nothing)
    }
}

fn is_due(now: u128, last: Option<u128>, every: u128) -> (r: bool)
    requires
        every > 0,
    ensures
        r == due(now, last, every),
{
    match last {
        None => true,
        Some(t) => now >= t && now - t >= every,
    }
}

impl Default for Cadence {
    fn default() -> (r: Cadence)
        ensures
            r == (Cadence { last_full: None, last_position: None, pending: false }),
    {
        Cadence { last_full: None, last_position: None, pending: false }
    }
}

impl Cadence {
    pub fn new() -> (r: Cadence)
        ensures
            r == (Cadence { last_full: None, last_position: None, pending: false }),
    {
        Cadence { last_full: None, last_position: None, pending: false }
    }

    /// What to redraw now, given whether anything changed since the last call
    /// and whether the position is moving.
    pub fn poll(&mut self, now: u128, changed: bool, moving: bool) -> (r: Redraw)
        ensures
            (*final(self), r) == polled(*old(self), now, changed, moving),
    {
        self.pending = self.pending || changed;
        if self.pending {
            if !is_due(now, self.last_full, COALESCE) {
                return Redraw::Nothing;
            }
            self.pending = false;
            self.last_full = Some(now);
            self.last_position = Some(now);
            return Redraw::Full;
        }
        if moving && is_due(now, self.last_position, POSITION_EVERY) {
            self.last_position = Some(now);
            return Redraw::Position;
        }
        Redraw::Nothing
    }
}

/// No change is lost: a poll that saw one either draws it or keeps it, and a
/// kept one is drawn by the first poll once the window has passed, whether or
/// not anything new has arrived.
pub proof fn law_no_change_is_lost(
    c: Cadence,
    now: u128,
    moving: bool,
    later: u128,
    changed: bool,
    still_moving: bool,
)
    requires
        now + COALESCE <= later,
        c.last_full matches Some(t) ==> t <= now,
    ensures
        ({
            let (kept, drawn) = polled(c, now, true, moving);
            &&& drawn == Redraw::Full || kept.pending
            &&& kept.pending ==> polled(kept, later, changed, still_moving).1 == Redraw::Full
        }),
{
}

/// However fast changes come, two whole redraws are never closer than the
/// window.
pub proof fn law_whole_redraws_are_a_window_apart(
    c: Cadence,
    now: u128,
    changed: bool,
    moving: bool,
)
    ensures
        polled(c, now, changed, moving).1 == Redraw::Full ==> (c.last_full matches Some(t) ==> now
            - t >= COALESCE),
{
}

/// An idle deck that is not moving draws nothing, however long it is left.
pub proof fn law_an_idle_deck_draws_nothing(c: Cadence, now: u128)
    requires
        !c.pending,
    ensures
        polled(c, now, false, false) == (c, Redraw::Nothing),
{
}

proof fn lemma_fitting_reaches(text: Seq<char>, room: int, upto: int, k: int)
    requires
        0 <= upto <= k <= text.len(),
        total_columns(text.take(k)) <= room,
    ensures
        k <= fitting(text, room, upto) <= text.len(),
    decreases text.len() - upto,
{
    if upto < k {
        assert(text.take(k).take(upto + 1) =~= text.take(upto + 1));
        lemma_columns_grow(text.take(k), upto + 1);
        lemma_fitting_reaches(text, room, upto + 1, k);
    } else {
        lemma_fitting(text, room, upto);
    }
}

/// What fits in front of the marker is drawn.
proof fn lemma_the_front_is_drawn(text: Seq<char>, budget: int, k: int)
    requires
        0 <= k <= text.len(),
        total_columns(text.take(k)) < budget,
    ensures
        fitted(text, budget).len() >= k,
        fitted(text, budget).take(k) == text.take(k),
{
    if total_columns(text) > budget {
        assert(text.take(0) =~= Seq::empty());
        lemma_fitting_reaches(text, budget - 1, 0, k);
    }
}

proof fn lemma_plain_columns(text: Seq<char>)
    requires
        forall|i: int| 0 <= i < text.len() ==> 0x20 <= #[trigger] text[i] as int <= 0x7e,
    ensures
        total_columns(text) == text.len(),
    decreases text.len(),
{
    if text.len() > 0 {
        assert(0x20 <= text[text.len() - 1] as int <= 0x7e);
        assert forall|i: int| 0 <= i < text.drop_last().len() implies 0x20
            <= #[trigger] text.drop_last()[i] as int <= 0x7e by {
            assert(text.drop_last()[i] == text[i]);
        }
        lemma_plain_columns(text.drop_last());
    }
}

proof fn lemma_state_words()
    ensures
        state_word(State::Stopped)@ =~= seq!['N', 'O', ' ', 'T', 'R', 'A', 'C', 'K'],
        state_word(State::Playing)@ =~= seq!['P', 'L', 'A', 'Y'],
        state_word(State::Paused)@ =~= seq!['P', 'A', 'U', 'S', 'E'],
        state_word(State::SeekingForward)@ =~= seq!['F', 'F'],
        state_word(State::SeekingBack)@ =~= seq!['R', 'E', 'W'],
{
    reveal_strlit("NO TRACK");
    reveal_strlit("PLAY");
    reveal_strlit("PAUSE");
    reveal_strlit("FF");
    reveal_strlit("REW");
}

/// The text a status line is cut from starts with the word of the state.
proof fn lemma_the_word_leads(
    state: State,
    rate_hz: Option<u32>,
    bits: Option<u16>,
    at: Option<u128>,
    cols: int,
    k: int,
)
    requires
        0 <= k <= state_word(state)@.len(),
        k < cols,
    ensures
        status_text(state, rate_hz, bits, at, cols).len() >= k,
        status_text(state, rate_hz, bits, at, cols).take(k) == state_word(state)@.take(k),
{
    let word = state_word(state)@;
    lemma_state_words();
    assert forall|i: int| 0 <= i < word.take(k).len() implies 0x20 <= #[trigger] word.take(
        k,
    )[i] as int <= 0x7e by {
        assert(word.take(k)[i] == word[i]);
    }
    lemma_plain_columns(word.take(k));
    let timed = match at {
        Some(t) => word + " "@ + clock(t as nat),
        None => word,
    };
    assert(timed.take(k) =~= word.take(k));
    lemma_the_front_is_drawn(timed, cols, k);
    lemma_the_front_is_drawn(word, cols, k);
    if let (Some(hz), Some(b)) = (rate_hz, bits) {
        let whole = timed + rate_field(hz, b);
        assert(whole.take(k) =~= word.take(k));
        lemma_the_front_is_drawn(whole, cols, k);
    }
}

/// The status line tells the states of the deck apart: each has a word of its
/// own, `NO TRACK`, `PLAY`, `PAUSE`, `FF` or `REW`; a line with room for the
/// word and the marker starts with it, whatever else it says; and the lines of
/// two different states are never the same, on a panel of three columns or
/// more.
pub proof fn law_the_states_read_apart(
    a: State,
    b: State,
    rate_hz: Option<u32>,
    bits: Option<u16>,
    at: Option<u128>,
    other_hz: Option<u32>,
    other_bits: Option<u16>,
    other_at: Option<u128>,
    cols: int,
)
    ensures
        a != b ==> state_word(a)@ != state_word(b)@,
        a != b && cols >= 3 ==> status_text(a, rate_hz, bits, at, cols) != status_text(
            b,
            other_hz,
            other_bits,
            other_at,
            cols,
        ),
        cols > 4 ==> status_text(State::Playing, rate_hz, bits, at, cols).take(4) =~= seq![
            'P',
            'L',
            'A',
            'Y',
        ],
        cols > 5 ==> status_text(State::Paused, rate_hz, bits, at, cols).take(5) =~= seq![
            'P',
            'A',
            'U',
            'S',
            'E',
        ],
        cols >= 5 ==> status_text(State::Paused, rate_hz, bits, None, cols).take(5) =~= seq![
            'P',
            'A',
            'U',
            'S',
            'E',
        ],
        cols > 2 ==> status_text(State::SeekingForward, rate_hz, bits, at, cols).take(2) =~= seq![
            'F',
            'F',
        ],
        cols > 3 ==> status_text(State::SeekingBack, rate_hz, bits, at, cols).take(3) =~= seq![
            'R',
            'E',
            'W',
        ],
        cols >= 8 ==> status_text(State::Stopped, rate_hz, bits, at, cols) =~= seq![
            'N',
            'O',
            ' ',
            'T',
            'R',
            'A',
            'C',
            'K',
        ],
{
    lemma_state_words();
    let (u, v) = (state_word(a)@, state_word(b)@);
    if a != b {
        assert(u[0] != v[0] || u[1] != v[1]);
    }
    if a != b && cols >= 3 {
        lemma_the_word_leads(a, rate_hz, bits, at, cols, 2);
        lemma_the_word_leads(b, other_hz, other_bits, other_at, cols, 2);
        let (x, y) = (
            status_text(a, rate_hz, bits, at, cols),
            status_text(b, other_hz, other_bits, other_at, cols),
        );
        assert(x.take(2)[0] == u.take(2)[0] && x.take(2)[1] == u.take(2)[1]);
        assert(y.take(2)[0] == v.take(2)[0] && y.take(2)[1] == v.take(2)[1]);
    }
    if cols > 4 {
        lemma_the_word_leads(State::Playing, rate_hz, bits, at, cols, 4);
    }
    if cols > 5 {
        lemma_the_word_leads(State::Paused, rate_hz, bits, at, cols, 5);
        lemma_the_word_leads(State::Paused, rate_hz, bits, None, cols, 5);
    }
    if cols > 2 {
        lemma_the_word_leads(State::SeekingForward, rate_hz, bits, at, cols, 2);
    }
    if cols > 3 {
        lemma_the_word_leads(State::SeekingBack, rate_hz, bits, at, cols, 3);
    }
    lemma_plain_columns(state_word(State::Stopped)@);
    lemma_plain_columns(state_word(State::Paused)@);
    if let (Some(hz), Some(n)) = (rate_hz, bits) {
        reveal_strlit(" ");
        lemma_columns_together(" "@ + decimal(hz as nat / 1000) + "k/"@, decimal(n as nat));
        lemma_columns_together(" "@ + decimal(hz as nat / 1000), "k/"@);
        lemma_columns_together(" "@, decimal(hz as nat / 1000));
        lemma_plain_columns(" "@);
    }
}

/// A line with room for all of it says all of it: the word of the state, the
/// position, and the rate and the depth.
pub proof fn law_a_wide_line_says_everything(
    state: State,
    rate_hz: u32,
    bits: u16,
    at: u128,
    cols: int,
)
    requires
        state != State::Stopped,
        total_columns(state_word(state)@) + 1 + total_columns(clock(at as nat)) + total_columns(
            rate_field(rate_hz, bits),
        ) <= cols,
    ensures
        status_text(state, Some(rate_hz), Some(bits), Some(at), cols) == state_word(state)@ + seq![
            ' ',
        ] + clock(at as nat) + rate_field(rate_hz, bits),
        status_text(state, None, Some(bits), Some(at), cols) == state_word(state)@ + seq![' ']
            + clock(at as nat),
        status_text(state, Some(rate_hz), None, Some(at), cols) == state_word(state)@ + seq![' ']
            + clock(at as nat),
{
    reveal_strlit(" ");
    assert(" "@ =~= seq![' ']);
    lemma_state_words();
    let word = state_word(state)@;
    lemma_plain_columns(word);
    lemma_plain_columns(" "@);
    lemma_columns_together(word, " "@);
    lemma_columns_together(word + " "@, clock(at as nat));
    lemma_columns_together(word + " "@ + clock(at as nat), rate_field(rate_hz, bits));
}

/// The position reads as the time it is: minutes, a colon, two digits of
/// seconds below sixty, a point and a tenth, which together are the tenths of
/// a second that have passed.
pub proof fn law_the_clock_reads_as_the_time(at: nat)
    ensures
        ({
            let c = clock(at);
            let n = c.len() as int;
            &&& n >= 6
            &&& c[n - 5] == ':'
            &&& c[n - 2] == '.'
            &&& decimal_digits(c.take(n - 5))
            &&& decimal_digits(c.subrange(n - 4, n - 2))
            &&& 48 <= c[n - 1] as int <= 57
            &&& number(c.subrange(n - 4, n - 2)) < 60
            &&& 600 * number(c.take(n - 5)) + 10 * number(c.subrange(n - 4, n - 2)) + (c[n
                - 1] as int - 48) == at / 100_000_000
        }),
{
    reveal_strlit(":");
    reveal_strlit(".");
    let tenths = at / 100_000_000;
    let (m, s, t) = (tenths / 600, tenths / 10 % 60, tenths % 10);
    law_a_number_is_written_as_what_it_is(m);
    law_a_number_is_written_as_what_it_is(s);
    law_a_number_is_written_as_what_it_is(t);
    let c = clock(at);
    let n = c.len() as int;
    assert(decimal(t).len() == 1);
    assert(c.take(n - 5) =~= decimal(m));
    assert(c.subrange(n - 4, n - 2) =~= two_digits(s));
    assert(c[n - 1] == decimal(t)[0]);
    reveal_with_fuel(number, 2);
    assert(decimal(t).drop_last() =~= Seq::empty());
}

/// The rate reads in kilohertz and the depth in bits, as in ` 44k/16`.
pub proof fn law_the_rate_reads_as_it_is(hz: u32, bits: u16)
    ensures
        ({
            let f = rate_field(hz, bits);
            let k = decimal(hz as nat / 1000).len() as int;
            &&& f[0] == ' '
            &&& f[k + 1] == 'k'
            &&& f[k + 2] == '/'
            &&& decimal_digits(f.subrange(1, k + 1))
            &&& number(f.subrange(1, k + 1)) == hz / 1000
            &&& decimal_digits(f.skip(k + 3))
            &&& number(f.skip(k + 3)) == bits
        }),
{
    reveal_strlit(" ");
    reveal_strlit("k/");
    law_a_number_is_written_as_what_it_is(hz as nat / 1000);
    law_a_number_is_written_as_what_it_is(bits as nat);
    let f = rate_field(hz, bits);
    let k = decimal(hz as nat / 1000).len() as int;
    assert(f.subrange(1, k + 1) =~= decimal(hz as nat / 1000));
    assert(f.skip(k + 3) =~= decimal(bits as nat));
}

/// A name that does not fit is cut as late as leaves a column for the marker:
/// what is drawn is the front of the name and a `~`, and one more character
/// would not have fitted beside it.
pub proof fn law_as_much_of_a_name_as_fits(name: Seq<char>, budget: int)
    requires
        budget > 0,
        total_columns(name) > budget,
    ensures
        ({
            let drawn = fitted(name, budget);
            let kept = drawn.len() - 1;
            &&& 0 <= kept < name.len()
            &&& drawn == name.take(kept).push('~')
            &&& total_columns(name.take(kept)) < budget
            &&& total_columns(name.take(kept + 1)) >= budget
        }),
{
    assert(name.take(0) =~= Seq::empty());
    lemma_fitting(name, budget - 1, 0);
    lemma_fitting_stops(name, budget - 1, 0);
    assert(name.take(name.len() as int) =~= name);
}

proof fn lemma_fitting_stops(text: Seq<char>, room: int, upto: int)
    requires
        0 <= upto <= text.len(),
    ensures
        fitting(text, room, upto) < text.len() ==> total_columns(
            text.take(fitting(text, room, upto) + 1),
        ) > room,
    decreases text.len() - upto,
{
    if upto < text.len() && total_columns(text.take(upto + 1)) <= room {
        lemma_fitting_stops(text, room, upto + 1);
    }
}

/// A row is drawn as what it is: marked as selected where it is, as a folder
/// where there is no verdict on it, and else by the verdict; its name has all
/// the columns of a panel with colours, and all but one for the mark where
/// there are none; and as many rows are drawn as there are, or as fit between
/// the path and the status.
pub proof fn law_a_row_is_drawn_as_what_it_is(row: RowView, rows: int, g: Geometry)
    requires
        rows >= 0,
    ensures
        line_of(row, g).selected == row.selected,
        line_of(row, g).kind == Kind::Folder <==> row.verdict is None,
        line_of(row, g).kind == Kind::Playable <==> (row.verdict matches Some(v) && v is Plays),
        line_of(row, g).kind == Kind::Refused <==> (row.verdict matches Some(v) && v is Refused),
        line_of(row, g).kind == Kind::Unreadable <==> (row.verdict matches Some(v)
            && v is Unreadable),
        g.colour && g.cols > 0 && total_columns(row.name) <= g.cols ==> line_of(row, g).text
            == row.name,
        !g.colour && g.cols > 1 && total_columns(row.name) < g.cols ==> line_of(row, g).text
            == row.name,
        !g.colour && total_columns(row.name) >= g.cols > 0 ==> total_columns(line_of(row, g).text)
            < g.cols,
        rows + 2 <= g.rows ==> lines_shown(rows, g) == rows,
        2 <= g.rows < rows + 2 ==> lines_shown(rows, g) == g.rows - 2,
        g.rows < 2 ==> lines_shown(rows, g) == 0,
{
    law_what_is_fitted_fits(row.name, g.budget());
}

/// A position that moves is drawn again when a second has passed and not
/// before, and a change is drawn at once where forty milliseconds have passed
/// since the last whole redraw, which draws the position too.
pub proof fn law_when_the_panel_is_redrawn(c: Cadence, now: u128, moving: bool)
    ensures
        !c.pending ==> (polled(c, now, false, true).1 == Redraw::Position <==> (
        c.last_position matches Some(t) ==> now - t >= 1_000_000_000)),
        !c.pending ==> polled(c, now, false, moving).1 != Redraw::Full,
        polled(c, now, true, moving).1 == Redraw::Full <==> (c.last_full matches Some(t) ==> now - t
            >= 40_000_000),
        polled(c, now, true, moving).1 == Redraw::Full ==> polled(c, now, true, moving).0 == (
        Cadence { last_full: Some(now), last_position: Some(now), pending: false }),
        polled(c, now, false, true).1 == Redraw::Position ==> polled(c, now, false, true).0 == (
        Cadence { last_position: Some(now), ..c }),
{
}

/// The rate and the depth are dropped whole where they do not fit beside the
/// rest, which is then said in full.
pub proof fn law_a_field_that_does_not_fit_is_dropped_whole(
    state: State,
    rate_hz: u32,
    bits: u16,
    at: u128,
    cols: int,
)
    requires
        state != State::Stopped,
        ({
            let timed = total_columns(state_word(state)@) + 1 + total_columns(clock(at as nat));
            timed <= cols < timed + total_columns(rate_field(rate_hz, bits))
        }),
    ensures
        status_text(state, Some(rate_hz), Some(bits), Some(at), cols) == state_word(state)@ + seq![
            ' ',
        ] + clock(at as nat),
{
    reveal_strlit(" ");
    assert(" "@ =~= seq![' ']);
    let word = state_word(state)@;
    lemma_plain_columns(" "@);
    lemma_columns_together(word, " "@);
    lemma_columns_together(word + " "@, clock(at as nat));
}

} // verus!
