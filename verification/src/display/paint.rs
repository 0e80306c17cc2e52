//! The other half: cells into pixels.
//!
//! Works out what to put where, in pixels, for a face and a panel: which
//! characters the face can draw and what stands in for those it cannot, how
//! much of a line the panel has room for, and where every row goes. The result
//! is a list of [`Op`]s for whatever can fill a rectangle and render text.
//!
//! A glyph the face lacks would take the whole line with it, so every
//! character is looked up before it is drawn. What is folded, substituted,
//! clipped or lost is counted and returned: a panel showing a name the file
//! does not have has to be able to say so.

use embedded_graphics::prelude::Point;
use u8g2_fonts::types::VerticalPosition;
use u8g2_fonts::{fonts, FontRenderer};
use unicode_normalization::char::is_combining_mark;
use unicode_normalization::UnicodeNormalization;
use vstd::prelude::*;

use crate::display::{Geometry, Kind, Line, LineView, Screen, ScreenView, TRUNCATED};
use crate::text::{chars_of, string_of};

verus! {

/// Drawn in place of a character the face has no glyph for. ASCII, because a
/// box would itself be missing from these faces.
pub const SUBSTITUTE: char = '?';

/// What a face will put on the panel for a character.
#[derive(Debug, Clone, PartialEq, Eq)]
pub enum Drawn {
    /// The character itself. The only case where the panel shows the name.
    Itself,
    /// A stand-in that reads as the character: `é` as `e`, `…` as `...`.
    Folded(String),
    /// [`SUBSTITUTE`]. Nothing sensible to fall back to.
    Substituted,
}

/// The same, as a mathematical value.
pub enum DrawnView {
    Itself,
    Folded(Seq<char>),
    Substituted,
}

impl View for Drawn {
    type V = DrawnView;

    open spec fn view(&self) -> DrawnView {
        match *self {
            Drawn::Itself => DrawnView::Itself,
            Drawn::Folded(f) => DrawnView::Folded(f@),
            Drawn::Substituted => DrawnView::Substituted,
        }
    }
}

/// The stand-in for a character that decomposition cannot reduce to something
/// a face has: a ligature whose expansion is a spelling convention, a sign
/// whose ASCII equivalent is a choice, and the invisible characters, which
/// fold to nothing.
pub open spec fn stand_in(c: char) -> Option<&'static str> {
    if c == 'ß' {
        Some("ss")
    } else if c == 'æ' {
        Some("ae")
    } else if c == 'Æ' {
        Some("AE")
    } else if c == 'œ' {
        Some("oe")
    } else if c == 'Œ' {
        Some("OE")
    } else if c == 'ø' {
        Some("o")
    } else if c == 'Ø' {
        Some("O")
    } else if c == 'đ' || c == 'ð' {
        Some("d")
    } else if c == 'Đ' {
        Some("D")
    } else if c == 'þ' {
        Some("th")
    } else if c == 'Þ' {
        Some("Th")
    } else if c == 'ł' {
        Some("l")
    } else if c == 'Ł' {
        Some("L")
    } else if c == 'µ' {
        Some("u")
    } else if c == '¥' {
        Some("Y")
    } else if c == '®' {
        Some("(R)")
    } else if c == '©' {
        Some("(C)")
    } else if c == '×' {
        Some("x")
    } else if c == '÷' {
        Some("/")
    } else if c == '±' {
        Some("+/-")
    } else if c == '°' {
        Some("deg")
    } else if 0x2010 <= c as int && c as int <= 0x2015 {
        Some("-")
    } else if c == '\u{2018}' || c == '\u{2019}' || c == '\u{201b}' || c == '\u{2032}' {
        Some("'")
    } else if c == '\u{201c}' || c == '\u{201d}' || c == '\u{201f}' || c == '\u{2033}' {
        Some("\"")
    } else if c == '\u{200b}' || c == '\u{200c}' || c == '\u{200d}' || c == '\u{00ad}' || c
        == '\u{feff}' {
        Some("")
    } else {
        None
    }
}

fn folded(c: char) -> (r: Option<&'static str>)
    ensures
        r == stand_in(c),
{
    match c {
        'ß' => Some("ss"),
        'æ' => Some("ae"),
        'Æ' => Some("AE"),
        'œ' => Some("oe"),
        'Œ' => Some("OE"),
        'ø' => Some("o"),
        'Ø' => Some("O"),
        'đ' | 'ð' => Some("d"),
        'Đ' => Some("D"),
        'þ' => Some("th"),
        'Þ' => Some("Th"),
        'ł' => Some("l"),
        'Ł' => Some("L"),
        'µ' => Some("u"),
        '¥' => Some("Y"),
        '®' => Some("(R)"),
        '©' => Some("(C)"),
        '×' => Some("x"),
        '÷' => Some("/"),
        '±' => Some("+/-"),
        '°' => Some("deg"),
        '\u{2010}' | '\u{2011}' | '\u{2012}' | '\u{2013}' | '\u{2014}' | '\u{2015}' => Some("-"),
        '\u{2018}' | '\u{2019}' | '\u{201b}' | '\u{2032}' => Some("'"),
        '\u{201c}' | '\u{201d}' | '\u{201f}' | '\u{2033}' => Some("\""),
        '\u{200b}' | '\u{200c}' | '\u{200d}' | '\u{00ad}' | '\u{feff}' => Some(""),
        _ => None,
    }
}

/// One pixel of leading between rows, without which they touch.
pub const LEADING: u32 = 1;

/// The left margin, so a glyph does not start against the glass edge.
pub const MARGIN_PX: u32 = 1;

/// The horizontal advance `FontRenderer::get_rendered_dimensions` gives a
/// character in the 12 px face, if the face has it or it is a newline.
pub uninterp spec fn advance_in_b12(c: char) -> Option<i32>;

/// The same in the 16 px face.
pub uninterp spec fn advance_in_b16(c: char) -> Option<i32>;

/// What `UnicodeNormalization::nfkd` yields for a character.
pub uninterp spec fn compatible(c: char) -> Seq<char>;

/// What `is_combining_mark` says of a character.
pub uninterp spec fn combining(c: char) -> bool;

/// `FontRenderer::get_rendered_dimensions` over the 12 px face: the horizontal
/// advance of a character, which depends on the character alone, and none
/// where the face has no glyph for it. A newline is no glyph to it and always
/// there, with nothing along the line.
#[verifier::external_body]
fn b12_advance(c: char) -> (r: Option<i32>)
    ensures
        r == advance_in_b12(c),
{
    FontRenderer::new::<fonts::u8g2_font_b12_t_japanese3>()
        .get_rendered_dimensions(c, Point::zero(), VerticalPosition::Top)
        .ok()
        .map(|d| d.advance.x)
}

/// `FontRenderer::get_rendered_dimensions` over the 16 px face: the horizontal
/// advance of a character, which depends on the character alone, and none
/// where the face has no glyph for it. A newline is no glyph to it and always
/// there, with nothing along the line.
#[verifier::external_body]
fn b16_advance(c: char) -> (r: Option<i32>)
    ensures
        r == advance_in_b16(c),
{
    FontRenderer::new::<fonts::u8g2_font_b16_t_japanese3>()
        .get_rendered_dimensions(c, Point::zero(), VerticalPosition::Top)
        .ok()
        .map(|d| d.advance.x)
}

/// `UnicodeNormalization::nfkd`: the compatibility decomposition of a
/// character, which depends on the character alone.
#[verifier::external_body]
fn nfkd_of(c: char) -> (r: Vec<char>)
    ensures
        r@ == compatible(c),
{
    c.nfkd().collect()
}

/// `is_combining_mark`: whether a character is a mark that combines with
/// another, which depends on the character alone.
#[verifier::external_body]
fn is_mark(c: char) -> (r: bool)
    ensures
        r == combining(c),
{
    is_combining_mark(c)
}

/// Which face, which is also the cell size.
#[derive(Debug, Clone, Copy, PartialEq, Eq, Structural)]
pub enum Face {
    /// 12 px cells, 6 px columns.
    Px12,
    /// 16 px cells, 8 px columns.
    Px16,
}

impl Face {
    pub open spec fn cell(self) -> u32 {
        match self {
            Face::Px12 => 12,
            Face::Px16 => 16,
        }
    }

    /// A full-width cell, square at both sizes.
    pub fn glyph_px(self) -> (r: u32)
        ensures
            r == self.cell(),
    {
        match self {
            Face::Px12 => 12,
            Face::Px16 => 16,
        }
    }

    /// A column: one half-width glyph.
    pub fn col_px(self) -> (r: u32)
        ensures
            r == self.cell() / 2,
    {
        self.glyph_px() / 2
    }

    pub open spec fn row(self) -> int {
        self.cell() + LEADING
    }

    /// A row is the cell plus its leading.
    pub fn row_h(self) -> (r: u32)
        ensures
            r == self.row(),
    {
        self.glyph_px() + LEADING
    }

    /// The face to use on a panel of this size: the larger one where it still
    /// leaves three entries to browse with, and the smaller where it does not.
    pub fn for_panel(px_w: u32, px_h: u32) -> (r: Face)
        ensures
            r == (if listing_fits(Face::Px16, px_h) >= 3 {
                Face::Px16
            } else {
                Face::Px12
            }),
    {
        let big: Painter = Painter::new(Face::Px16, Layout { px_w, px_h, colour: false });
        if big.listing_capacity() >= 3 {
            Face::Px16
        } else {
            Face::Px12
        }
    }

    pub open spec fn pad(self) -> i32 {
        match self {
            Face::Px12 => 2,
            Face::Px16 => 3,
        }
    }

    /// How far below the top of the font a cell actually begins: the
    /// ideographs stand above the ascent.
    pub fn top_pad(self) -> (r: i32)
        ensures
            r == self.pad(),
    {
        match self {
            Face::Px12 => 2,
            Face::Px16 => 3,
        }
    }

    pub open spec fn advance_of(self, c: char) -> Option<i32> {
        match self {
            Face::Px12 => advance_in_b12(c),
            Face::Px16 => advance_in_b16(c),
        }
    }

    /// The pixels a character takes on a line, if the face has it.
    pub open spec fn px(self, c: char) -> Option<u32> {
        match self.advance_of(c) {
            Some(x) => Some(
                if x < 0 {
                    0
                } else {
                    x as u32
                },
            ),
            None => None,
        }
    }

    /// How far a character moves the pen along, if the face has it.
    pub(crate) fn pen(self, c: char) -> (r: Option<i32>)
        ensures
            r == self.advance_of(c),
    {
        match self {
            Face::Px12 => b12_advance(c),
            Face::Px16 => b16_advance(c),
        }
    }

    fn advance(self, c: char) -> (r: Option<u32>)
        ensures
            r == self.px(c),
    {
        match self.pen(c) {
            Some(x) => Some(
                if x < 0 {
                    0
                } else {
                    x as u32
                },
            ),
            None => None,
        }
    }

    pub open spec fn has_glyph(self, c: char) -> bool {
        self.px(c) is Some
    }

    fn has(self, c: char) -> (r: bool)
        ensures
            r == self.has_glyph(c),
    {
        self.advance(c).is_some()
    }

    /// What this face will put on the panel for `c`: compatibility
    /// decomposition first, less the marks the face lacks, and then the short
    /// list of what that does not reach.
    pub fn drawn_as(self, c: char) -> (r: Drawn)
        ensures
            r@ == drawn(self, c),
    {
        if self.has(c) {
            return Drawn::Itself;
        }
        let parts: Vec<char> = nfkd_of(c);
        let mut kept: Vec<char> = Vec::new();
        let mut i: usize = 0;
        while i < parts.len()
            invariant
                i <= parts@.len(),
                kept@ == drawable_parts(self, parts@.take(i as int)),
            decreases parts@.len() - i,
        {
            let d: char = parts[i];
            assert(parts@.take(i + 1).drop_last() =~= parts@.take(i as int));
            if !is_mark(d) && self.has(d) {
                kept.push(d);
            }
            i = i + 1;
        }
        assert(parts@.take(parts@.len() as int) =~= parts@);
        if kept.len() > 0 {
            return Drawn::Folded(string_of(kept.as_slice()));
        }
        match folded(c) {
            Some(f) => {
                let chars: Vec<char> = chars_of(f);
                let mut k: usize = 0;
                while k < chars.len()
                    invariant
                        k <= chars@.len(),
                        chars@ == f@,
                        stand_in(c) == Some(f),
                        !self.has_glyph(c),
                        drawable_parts(self, compatible(c)).len() == 0,
                        forall|n: int| 0 <= n < k ==> self.has_glyph(#[trigger] chars@[n]),
                    decreases chars@.len() - k,
                {
                    if !self.has(chars[k]) {
                        assert(!self.has_glyph(f@[k as int]));
                        return Drawn::Substituted;
                    }
                    k = k + 1;
                }
                Drawn::Folded(f.to_owned())
            },
            None => Drawn::Substituted,
        }
    }

    /// The characters of `text` this face can neither draw nor fold, in order
    /// and with repeats.
    pub fn missing(self, text: &str) -> (r: Vec<char>)
        ensures
            r@ == undrawable(self, text@),
    {
        let chars: Vec<char> = chars_of(text);
        let mut out: Vec<char> = Vec::new();
        let mut i: usize = 0;
        while i < chars.len()
            invariant
                i <= chars@.len(),
                out@ == undrawable(self, chars@.take(i as int)),
            decreases chars@.len() - i,
        {
            assert(chars@.take(i + 1).drop_last() =~= chars@.take(i as int));
            match self.drawn_as(chars[i]) {
                Drawn::Substituted => {
                    out.push(chars[i]);
                },
                _ => {},
            }
            i = i + 1;
        }
        assert(chars@.take(chars@.len() as int) =~= chars@);
        out
    }
}

/// The parts of a decomposition a face draws, less the combining marks.
pub open spec fn drawable_parts(face: Face, parts: Seq<char>) -> Seq<char>
    decreases parts.len(),
{
    if parts.len() == 0 {
        Seq::empty()
    } else if !combining(parts.last()) && face.has_glyph(parts.last()) {
        drawable_parts(face, parts.drop_last()).push(parts.last())
    } else {
        drawable_parts(face, parts.drop_last())
    }
}

/// What a face puts on the panel for a character.
pub open spec fn drawn(face: Face, c: char) -> DrawnView {
    if face.has_glyph(c) {
        DrawnView::Itself
    } else if drawable_parts(face, compatible(c)).len() > 0 {
        DrawnView::Folded(drawable_parts(face, compatible(c)))
    } else {
        match stand_in(c) {
            Some(f) => if forall|n: int| 0 <= n < f@.len() ==> face.has_glyph(#[trigger] f@[n]) {
                DrawnView::Folded(f@)
            } else {
                DrawnView::Substituted
            },
            None => DrawnView::Substituted,
        }
    }
}

pub open spec fn undrawable(face: Face, text: Seq<char>) -> Seq<char>
    decreases text.len(),
{
    if text.len() == 0 {
        Seq::empty()
    } else if drawn(face, text.last()) is Substituted {
        undrawable(face, text.drop_last()).push(text.last())
    } else {
        undrawable(face, text.drop_last())
    }
}

/// The panel, in pixels.
#[derive(Debug, Clone, Copy, PartialEq, Eq, Structural)]
pub struct Layout {
    pub px_w: u32,
    pub px_h: u32,
    /// Whether a row's kind can be said with a pen instead of a character.
    pub colour: bool,
}

/// What something is drawn in: a role, which a palette gives a colour.
#[derive(Debug, Clone, Copy, PartialEq, Eq, Structural)]
pub enum Ink {
    Bg,
    Fg,
    /// The path line.
    Dim,
    Folder,
    /// Refused and unreadable both.
    Refused,
}

/// The pens, in whatever a panel calls a colour.
#[derive(Debug, Clone, Copy, PartialEq, Eq)]
pub struct Palette<C> {
    pub bg: C,
    pub fg: C,
    pub dim: C,
    pub folder: C,
    pub refused: C,
}

impl<C: Copy> Palette<C> {
    pub open spec fn colour_of(self, ink: Ink) -> C {
        match ink {
            Ink::Bg => self.bg,
            Ink::Fg => self.fg,
            Ink::Dim => self.dim,
            Ink::Folder => self.folder,
            Ink::Refused => self.refused,
        }
    }

    /// The colour of an ink.
    pub fn colour(&self, ink: Ink) -> (r: C)
        ensures
            r == self.colour_of(ink),
    {
        match ink {
            Ink::Bg => self.bg,
            Ink::Fg => self.fg,
            Ink::Dim => self.dim,
            Ink::Folder => self.folder,
            Ink::Refused => self.refused,
        }
    }
}

impl Palette<bool> {
    /// Every pen on, except the background.
    pub fn mono() -> (r: Palette<bool>)
        ensures
            r == (Palette { bg: false, fg: true, dim: true, folder: true, refused: true }),
    {
        Palette { bg: false, fg: true, dim: true, folder: true, refused: true }
    }
}

/// What a draw had to do to the text to make it fit or make it drawable.
#[derive(Debug, Clone, Copy, PartialEq, Eq, Structural)]
pub struct Report {
    /// Characters folded to a stand-in that reads as them.
    pub folded: usize,
    /// Characters replaced by [`SUBSTITUTE`].
    pub substituted: usize,
    /// Lines cut because they measured wider than the panel.
    pub clipped: usize,
    /// Characters dropped outright.
    pub lost: usize,
}

pub open spec fn no_report() -> Report {
    Report { folded: 0, substituted: 0, clipped: 0, lost: 0 }
}

/// A sum, as far as a machine word can say it.
pub open spec fn capped(a: int, b: int) -> usize {
    if a + b > usize::MAX {
        usize::MAX
    } else {
        (a + b) as usize
    }
}

pub open spec fn merged(a: Report, b: Report) -> Report {
    Report {
        folded: capped(a.folded as int, b.folded as int),
        substituted: capped(a.substituted as int, b.substituted as int),
        clipped: capped(a.clipped as int, b.clipped as int),
        lost: capped(a.lost as int, b.lost as int),
    }
}

impl Default for Report {
    fn default() -> (r: Report)
        ensures
            r == no_report(),
    {
        Report { folded: 0, substituted: 0, clipped: 0, lost: 0 }
    }
}

impl Report {
    pub fn is_clean(self) -> (r: bool)
        ensures
            r == (self == no_report()),
    {
        self.folded == 0 && self.substituted == 0 && self.clipped == 0 && self.lost == 0
    }

    fn merge(&mut self, other: Report)
        ensures
            *final(self) == merged(*old(self), other),
    {
        self.folded = self.folded.saturating_add(other.folded);
        self.substituted = self.substituted.saturating_add(other.substituted);
        self.clipped = self.clipped.saturating_add(other.clipped);
        self.lost = self.lost.saturating_add(other.lost);
    }
}

pub open spec fn mark_of(kind: Kind, colour: bool) -> (&'static str, &'static str) {
    if colour {
        ("", "")
    } else {
        match kind {
            Kind::Folder => ("", "/"),
            Kind::Playable => ("", ""),
            Kind::Refused => ("!", ""),
            Kind::Unreadable => ("*", ""),
        }
    }
}

/// The prefix and suffix a mono panel spends a column on. On colour the pen
/// says it instead.
pub fn marks(kind: Kind, colour: bool) -> (r: (&'static str, &'static str))
    ensures
        r == mark_of(kind, colour),
{
    if colour {
        return ("", "");
    }
    match kind {
        Kind::Folder => ("", "/"),
        Kind::Playable => ("", ""),
        Kind::Refused => ("!", ""),
        Kind::Unreadable => ("*", ""),
    }
}

/// The listing rows a face has room for on a panel of this height, between the
/// path line and the separator. The last row is counted without its leading.
pub open spec fn listing_fits(face: Face, px_h: u32) -> int {
    let status = if px_h < face.cell() {
        0
    } else {
        px_h - face.cell()
    };
    let bottom = if status < 1 {
        0
    } else {
        status - 1
    };
    let between = if bottom < face.row() {
        0
    } else {
        bottom - face.row()
    };
    (between + LEADING) / face.row()
}

/// Draws a [`Screen`] onto whatever the panel turns out to be.
#[derive(Debug, Clone, Copy, PartialEq, Eq, Structural)]
pub struct Painter {
    pub face: Face,
    pub layout: Layout,
}

impl Painter {
    pub fn new(face: Face, layout: Layout) -> (r: Painter)
        ensures
            r == (Painter { face, layout }),
    {
        Painter { face, layout }
    }

    /// The grid of cells, derived from this face on this panel. The margin
    /// comes off the width before the columns are counted, or a line that used
    /// its whole budget would be clipped.
    pub fn geometry(&self) -> (r: Geometry)
        ensures
            r.cols == self.space() / (self.face.cell() / 2) as int,
            r.rows == 2 + listing_fits(self.face, self.layout.px_h),
            r.colour == self.layout.colour,
    {
        Geometry {
            cols: (self.room() / self.face.col_px()) as usize,
            rows: 2 + self.listing_capacity(),
            colour: self.layout.colour,
        }
    }

    /// The pixels a line may use: the panel less the margin.
    pub open spec fn space(&self) -> int {
        if self.layout.px_w < MARGIN_PX {
            0
        } else {
            self.layout.px_w - MARGIN_PX
        }
    }

    fn room(&self) -> (r: u32)
        ensures
            r == self.space(),
    {
        if self.layout.px_w < MARGIN_PX {
            0
        } else {
            self.layout.px_w - MARGIN_PX
        }
    }

    pub fn face(&self) -> (r: Face)
        ensures
            r == self.face,
    {
        self.face
    }

    pub fn layout(&self) -> (r: Layout)
        ensures
            r == self.layout,
    {
        self.layout
    }

    /// The top of a listing row.
    pub open spec fn row_top(&self, i: int) -> int {
        self.face.row() * (i + 1)
    }

    /// The top of the `i`-th listing row, in pixels.
    pub fn row_y(&self, i: usize) -> (r: i32)
        requires
            self.row_top(i as int) <= i32::MAX,
        ensures
            r == self.row_top(i as int),
    {
        proof {
            assert(i + 1 <= self.face.row() * (i + 1)) by (nonlinear_arith)
                requires
                    self.face.row() >= 1,
                    i >= 0,
            ;
        }
        (self.face.row_h() * (i as u32 + 1)) as i32
    }

    /// Where the status line is, from the top.
    pub open spec fn status_top(&self) -> int {
        if self.layout.px_h < self.face.cell() {
            0
        } else {
            self.layout.px_h - self.face.cell()
        }
    }

    /// Where the status line sits: flush with the bottom edge, so that a panel
    /// whose height is not a multiple of the row leaves its slack in the
    /// middle.
    pub fn status_y(&self) -> (r: i32)
        requires
            self.status_top() <= i32::MAX,
        ensures
            r == self.status_top(),
    {
        if self.layout.px_h < self.face.glyph_px() {
            0
        } else {
            (self.layout.px_h - self.face.glyph_px()) as i32
        }
    }

    /// Rows between the path line and the separator.
    pub fn listing_capacity(&self) -> (r: usize)
        ensures
            r == listing_fits(self.face, self.layout.px_h),
            r <= u32::MAX,
    {
        let row_h: u32 = self.face.row_h();
        let glyph: u32 = self.face.glyph_px();
        let px_h: u32 = self.layout.px_h;
        let status: u32 = if px_h < glyph {
            0
        } else {
            px_h - glyph
        };
        let bottom: u32 = if status < 1 {
            0
        } else {
            status - 1
        };
        let between: u32 = if bottom < row_h {
            0
        } else {
            bottom - row_h
        };
        ((between + LEADING) / row_h) as usize
    }
}

/// Whatever the panel, the last row of the listing ends above the separator:
/// no row is ever drawn over the status line.
pub proof fn law_the_listing_ends_above_the_status_line(p: Painter, i: int)
    requires
        0 <= i < listing_fits(p.face, p.layout.px_h),
    ensures
        p.row_top(i) + p.face.cell() <= p.status_top() - 1,
        p.row_top(i) >= p.face.row(),
{
    let bottom = if p.status_top() < 1 {
        0
    } else {
        p.status_top() - 1
    };
    let between = if bottom < p.face.row() {
        0
    } else {
        bottom - p.face.row()
    };
    let n = listing_fits(p.face, p.layout.px_h);
    match p.face {
        Face::Px12 => {
            assert(n == (between + 1) / 13);
            assert(13 * (i + 1) <= 13 * n <= between + 1);
            assert(p.row_top(i) == 13 * (i + 1));
        },
        Face::Px16 => {
            assert(n == (between + 1) / 17);
            assert(17 * (i + 1) <= 17 * n <= between + 1);
            assert(p.row_top(i) == 17 * (i + 1));
        },
    }
}

// One line.

/// A character to render, and the pixels it takes.
pub open spec fn measured(face: Face, cs: Seq<char>) -> Seq<(char, u32)>
    decreases cs.len(),
{
    if cs.len() == 0 {
        Seq::empty()
    } else {
        match face.px(cs.last()) {
            Some(px) => measured(face, cs.drop_last()).push((cs.last(), px)),
            None => measured(face, cs.drop_last()),
        }
    }
}

/// The characters a face renders for one character.
pub open spec fn rendered(face: Face, c: char) -> Seq<char> {
    match drawn(face, c) {
        DrawnView::Itself => seq![c],
        DrawnView::Folded(f) => f,
        DrawnView::Substituted => seq![SUBSTITUTE],
    }
}

/// What a text is rendered as, before it is cut to the panel.
pub open spec fn planned(face: Face, text: Seq<char>) -> Seq<(char, u32)>
    decreases text.len(),
{
    if text.len() == 0 {
        Seq::empty()
    } else {
        planned(face, text.drop_last()) + measured(face, rendered(face, text.last()))
    }
}

/// What had to be done to a text to make it drawable.
pub open spec fn remarks(face: Face, text: Seq<char>) -> Report
    decreases text.len(),
{
    if text.len() == 0 {
        no_report()
    } else {
        let r = remarks(face, text.drop_last());
        match drawn(face, text.last()) {
            DrawnView::Itself => r,
            DrawnView::Folded(_) => Report { folded: (r.folded + 1) as usize, ..r },
            DrawnView::Substituted => if face.has_glyph(SUBSTITUTE) {
                Report { substituted: (r.substituted + 1) as usize, ..r }
            } else {
                Report { lost: (r.lost + 1) as usize, ..r }
            },
        }
    }
}

pub open spec fn pixels(glyphs: Seq<(char, u32)>) -> nat
    decreases glyphs.len(),
{
    if glyphs.len() == 0 {
        0
    } else {
        pixels(glyphs.drop_last()) + glyphs.last().1 as nat
    }
}

pub open spec fn letters(glyphs: Seq<(char, u32)>) -> Seq<char> {
    glyphs.map_values(|g: (char, u32)| g.0)
}

/// How many glyphs, from the first, fit in so many pixels.
pub open spec fn glyphs_fitting(glyphs: Seq<(char, u32)>, room: int, upto: int) -> int
    decreases glyphs.len() - upto,
{
    if 0 <= upto < glyphs.len() && pixels(glyphs.take(upto + 1)) <= room {
        glyphs_fitting(glyphs, room, upto + 1)
    } else {
        upto
    }
}

/// The pixels the truncation marker takes.
pub open spec fn marker(face: Face) -> u32 {
    match face.px(TRUNCATED) {
        Some(px) => px,
        None => 0,
    }
}

/// The glyphs that are left of a line too wide for the panel, with the marker
/// behind them where it has room.
pub open spec fn cut(face: Face, glyphs: Seq<(char, u32)>, room: int) -> Seq<(char, u32)> {
    let m = marker(face);
    let keep = if room < m {
        0
    } else {
        room - m
    };
    let kept = glyphs.take(glyphs_fitting(glyphs, keep, 0));
    if m > 0 && m <= room {
        kept.push((TRUNCATED, m))
    } else {
        kept
    }
}

/// What is rendered of a text on a line with so much room.
pub open spec fn prepared(face: Face, text: Seq<char>, room: int) -> Seq<(char, u32)> {
    let all = planned(face, text);
    if pixels(all) <= room {
        all
    } else {
        cut(face, all, room)
    }
}

/// What had to be done to it.
pub open spec fn prepared_report(face: Face, text: Seq<char>, room: int) -> Report {
    let r = remarks(face, text);
    if pixels(planned(face, text)) <= room {
        r
    } else {
        Report { clipped: 1, ..r }
    }
}

proof fn lemma_pixels_push(glyphs: Seq<(char, u32)>, g: (char, u32))
    ensures
        pixels(glyphs.push(g)) == pixels(glyphs) + g.1,
{
    assert(glyphs.push(g).drop_last() =~= glyphs);
}

proof fn lemma_pixels_grow(glyphs: Seq<(char, u32)>, i: int)
    requires
        0 <= i <= glyphs.len(),
    ensures
        pixels(glyphs.take(i)) <= pixels(glyphs),
    decreases glyphs.len() - i,
{
    if i < glyphs.len() {
        lemma_pixels_grow(glyphs, i + 1);
        assert(glyphs.take(i + 1).drop_last() =~= glyphs.take(i));
    } else {
        assert(glyphs.take(i) =~= glyphs);
    }
}

/// Appends what the face has of `cs`.
fn push_measured(face: Face, cs: &[char], out: &mut Vec<(char, u32)>)
    ensures
        final(out)@ == old(out)@ + measured(face, cs@),
{
    let mut i: usize = 0;
    assert(out@ =~= old(out)@ + measured(face, cs@.take(0)));
    while i < cs.len()
        invariant
            i <= cs@.len(),
            out@ == old(out)@ + measured(face, cs@.take(i as int)),
        decreases cs@.len() - i,
    {
        let ghost before = measured(face, cs@.take(i as int));
        assert(cs@.take(i + 1).drop_last() =~= cs@.take(i as int));
        if let Some(px) = face.advance(cs[i]) {
            out.push((cs[i], px));
            assert(out@ =~= old(out)@ + before.push((cs@[i as int], px)));
        }
        i = i + 1;
    }
    assert(cs@.take(cs@.len() as int) =~= cs@);
}

/// How many glyphs, from the first, fit in so many pixels.
fn count_glyphs(glyphs: &Vec<(char, u32)>, room: u32) -> (r: usize)
    ensures
        r <= glyphs@.len(),
        r == glyphs_fitting(glyphs@, room as int, 0),
        r == glyphs@.len() <==> pixels(glyphs@) <= room,
{
    let mut used: u32 = 0;
    let mut i: usize = 0;
    assert(glyphs@.take(0) =~= Seq::empty());
    while i < glyphs.len()
        invariant
            i <= glyphs@.len(),
            used == pixels(glyphs@.take(i as int)),
            used <= room,
            glyphs_fitting(glyphs@, room as int, 0) == glyphs_fitting(
                glyphs@,
                room as int,
                i as int,
            ),
        decreases glyphs@.len() - i,
    {
        let px: u32 = glyphs[i].1;
        assert(glyphs@.take(i + 1).drop_last() =~= glyphs@.take(i as int));
        if px > room - used {
            proof {
                lemma_pixels_grow(glyphs@, i + 1);
            }
            return i;
        }
        used = used + px;
        i = i + 1;
    }
    assert(glyphs@.take(glyphs@.len() as int) =~= glyphs@);
    i
}

impl Painter {
    /// Substitutes what the face cannot draw, then clips to the panel, with a
    /// marker in place of what was cut.
    pub fn prepare(&self, text: &str) -> (r: (String, Report))
        ensures
            r.0@ == letters(prepared(self.face, text@, self.space())),
            r.1 == prepared_report(self.face, text@, self.space()),
    {
        let face: Face = self.face;
        let room: u32 = self.room();
        let chars: Vec<char> = chars_of(text);
        let mut report: Report = Report { folded: 0, substituted: 0, clipped: 0, lost: 0 };
        let mut glyphs: Vec<(char, u32)> = Vec::new();
        let mut i: usize = 0;
        let total: usize = chars.len();
        while i < total
            invariant
                i <= total,
                total == chars@.len(),
                face == self.face,
                glyphs@ == planned(face, chars@.take(i as int)),
                report == remarks(face, chars@.take(i as int)),
                report.folded + report.substituted + report.lost <= i,
                report.clipped == 0,
            decreases total - i,
        {
            let c: char = chars[i];
            proof {
                assert(chars@.take(i + 1).drop_last() =~= chars@.take(i as int));
                assert(chars@.take(i + 1).last() == c);
            }
            match face.drawn_as(c) {
                Drawn::Itself => {
                    let one: Vec<char> = vec![c];
                    assert(one@ =~= seq![c]);
                    push_measured(face, one.as_slice(), &mut glyphs);
                },
                Drawn::Folded(f) => {
                    report.folded = report.folded + 1;
                    let parts: Vec<char> = chars_of(f.as_str());
                    push_measured(face, parts.as_slice(), &mut glyphs);
                },
                Drawn::Substituted => {
                    let one: Vec<char> = vec![SUBSTITUTE];
                    assert(one@ =~= seq![SUBSTITUTE]);
                    if face.has(SUBSTITUTE) {
                        report.substituted = report.substituted + 1;
                    } else {
                        report.lost = report.lost + 1;
                    }
                    push_measured(face, one.as_slice(), &mut glyphs);
                },
            }
            i = i + 1;
        }
        assert(chars@.take(chars@.len() as int) =~= chars@);
        let fits: usize = count_glyphs(&glyphs, room);
        if fits == glyphs.len() {
            let line: Vec<char> = first_letters(&glyphs, glyphs.len());
            assert(glyphs@.take(glyphs@.len() as int) =~= glyphs@);
            return (string_of(line.as_slice()), report);
        }
        report.clipped = report.clipped + 1;
        let marker_px: u32 = match face.advance(TRUNCATED) {
            Some(px) => px,
            None => 0,
        };
        let keep: u32 = if room < marker_px {
            0
        } else {
            room - marker_px
        };
        let kept: usize = count_glyphs(&glyphs, keep);
        let mut line: Vec<char> = first_letters(&glyphs, kept);
        let ghost left = glyphs@.take(kept as int);
        if marker_px > 0 && marker_px <= room {
            line.push(TRUNCATED);
            assert(line@ =~= letters(left.push((TRUNCATED, marker_px))));
        }
        (string_of(line.as_slice()), report)
    }
}

fn first_letters(glyphs: &Vec<(char, u32)>, n: usize) -> (r: Vec<char>)
    requires
        n <= glyphs@.len(),
    ensures
        r@ == letters(glyphs@.take(n as int)),
{
    let mut out: Vec<char> = Vec::new();
    let mut i: usize = 0;
    while i < n
        invariant
            i <= n,
            n <= glyphs@.len(),
            out@ == letters(glyphs@.take(i as int)),
        decreases n - i,
    {
        out.push(glyphs[i].0);
        assert(out@ =~= letters(glyphs@.take(i + 1)));
        i = i + 1;
    }
    out
}

proof fn lemma_glyphs_fitting(glyphs: Seq<(char, u32)>, room: int, upto: int)
    requires
        0 <= upto <= glyphs.len(),
        pixels(glyphs.take(upto)) <= room,
    ensures
        upto <= glyphs_fitting(glyphs, room, upto) <= glyphs.len(),
        pixels(glyphs.take(glyphs_fitting(glyphs, room, upto))) <= room,
    decreases glyphs.len() - upto,
{
    if upto < glyphs.len() && pixels(glyphs.take(upto + 1)) <= room {
        lemma_glyphs_fitting(glyphs, room, upto + 1);
    }
}

/// Nothing is drawn past the edge of the panel: whatever the text, what is
/// rendered of it is no wider than the room there is.
pub proof fn law_nothing_is_drawn_past_the_edge(face: Face, text: Seq<char>, room: int)
    requires
        room >= 0,
    ensures
        pixels(prepared(face, text, room)) <= room,
{
    let all = planned(face, text);
    if pixels(all) > room {
        let m = marker(face);
        let keep = if room < m {
            0
        } else {
            room - m
        };
        assert(all.take(0) =~= Seq::empty());
        lemma_glyphs_fitting(all, keep, 0);
        lemma_pixels_push(all.take(glyphs_fitting(all, keep, 0)), (TRUNCATED, m));
    }
}

/// Nothing that is rendered is a character the face lacks: no line is ever
/// lost to one.
pub proof fn law_every_rendered_character_has_a_glyph(face: Face, text: Seq<char>, room: int, i: int)
    requires
        0 <= i < prepared(face, text, room).len(),
    ensures
        face.px(prepared(face, text, room)[i].0) == Some(prepared(face, text, room)[i].1),
{
    let all = planned(face, text);
    if pixels(all) <= room {
        lemma_planned_has(face, text, i);
    } else {
        let m = marker(face);
        let keep = if room < m {
            0
        } else {
            room - m
        };
        assert(all.take(0) =~= Seq::empty());
        lemma_glyphs_fitting(all, keep, 0);
        let kept = all.take(glyphs_fitting(all, keep, 0));
        if i < kept.len() {
            assert(prepared(face, text, room)[i] == all[i]);
            lemma_planned_has(face, text, i);
        }
    }
}

proof fn lemma_measured_has(face: Face, cs: Seq<char>, i: int)
    requires
        0 <= i < measured(face, cs).len(),
    ensures
        face.px(measured(face, cs)[i].0) == Some(measured(face, cs)[i].1),
    decreases cs.len(),
{
    let before = measured(face, cs.drop_last());
    if i < before.len() {
        lemma_measured_has(face, cs.drop_last(), i);
    }
}

proof fn lemma_planned_has(face: Face, text: Seq<char>, i: int)
    requires
        0 <= i < planned(face, text).len(),
    ensures
        face.px(planned(face, text)[i].0) == Some(planned(face, text)[i].1),
    decreases text.len(),
{
    let before = planned(face, text.drop_last());
    let more = measured(face, rendered(face, text.last()));
    if i < before.len() {
        lemma_planned_has(face, text.drop_last(), i);
    } else {
        lemma_measured_has(face, rendered(face, text.last()), i - before.len());
    }
}

// The whole screen.

/// One thing to draw.
#[derive(Debug, Clone, PartialEq, Eq)]
pub enum Op {
    /// The whole panel in one ink.
    Clear { ink: Ink },
    /// A rectangle.
    Fill { x: i32, y: i32, w: u32, h: u32, ink: Ink },
    /// A line of text, drawn from the top of the font at this point.
    Text { x: i32, y: i32, text: String, ink: Ink },
}

/// The same, as a mathematical value.
pub enum OpView {
    Clear { ink: Ink },
    Fill { x: int, y: int, w: u32, h: u32, ink: Ink },
    Text { x: int, y: int, text: Seq<char>, ink: Ink },
}

impl View for Op {
    type V = OpView;

    open spec fn view(&self) -> OpView {
        match *self {
            Op::Clear { ink } => OpView::Clear { ink },
            Op::Fill { x, y, w, h, ink } => OpView::Fill { x: x as int, y: y as int, w, h, ink },
            Op::Text { x, y, text, ink } => OpView::Text {
                x: x as int,
                y: y as int,
                text: text@,
                ink,
            },
        }
    }
}

pub open spec fn ops_of(ops: Seq<Op>) -> Seq<OpView> {
    ops.map_values(|o: Op| o@)
}

/// A line of text whose cell starts at `y`.
pub open spec fn text_op(p: Painter, text: Seq<char>, y: int, ink: Ink) -> OpView {
    OpView::Text {
        x: MARGIN_PX as int,
        y: y + p.face.pad(),
        text: letters(prepared(p.face, text, p.space())),
        ink,
    }
}

pub open spec fn kind_ink(kind: Kind) -> Ink {
    match kind {
        Kind::Folder => Ink::Folder,
        Kind::Playable => Ink::Fg,
        Kind::Refused => Ink::Refused,
        Kind::Unreadable => Ink::Refused,
    }
}

/// A line of the listing with its marks.
pub open spec fn marked(line: LineView, colour: bool) -> Seq<char> {
    mark_of(line.kind, colour).0@ + line.text + mark_of(line.kind, colour).1@
}

/// A listing row: the selection is a bar in the row's own ink with the name
/// knocked out of it.
pub open spec fn row_ops(p: Painter, line: LineView, y: int) -> Seq<OpView> {
    let ink = kind_ink(line.kind);
    let text = marked(line, p.layout.colour);
    if line.selected {
        seq![
            OpView::Fill { x: 0, y, w: p.layout.px_w, h: p.face.row() as u32, ink },
            text_op(p, text, y, Ink::Bg),
        ]
    } else {
        seq![text_op(p, text, y, ink)]
    }
}

/// The rows that have room, one under another.
pub open spec fn listing_ops(p: Painter, lines: Seq<LineView>, n: int) -> Seq<OpView>
    decreases n,
{
    if n <= 0 {
        Seq::empty()
    } else {
        listing_ops(p, lines, n - 1) + row_ops(p, lines[n - 1], p.row_top(n - 1))
    }
}

/// The status line, on a row it clears first.
pub open spec fn status_ops(p: Painter, status: Seq<char>) -> Seq<OpView> {
    seq![
        OpView::Fill {
            x: 0,
            y: p.status_top(),
            w: p.layout.px_w,
            h: p.face.cell(),
            ink: Ink::Bg,
        },
        text_op(p, status, p.status_top(), Ink::Fg),
    ]
}

/// How many lines of a screen are drawn.
pub open spec fn rows_drawn(p: Painter, s: ScreenView) -> int {
    if s.lines.len() < listing_fits(p.face, p.layout.px_h) {
        s.lines.len() as int
    } else {
        listing_fits(p.face, p.layout.px_h)
    }
}

/// A whole screen: the path line, the listing, the separator and the status.
pub open spec fn screen_ops(p: Painter, s: ScreenView) -> Seq<OpView> {
    seq![OpView::Clear { ink: Ink::Bg }, text_op(p, s.folder, 0, Ink::Dim)] + listing_ops(
        p,
        s.lines,
        rows_drawn(p, s),
    ) + seq![
        OpView::Fill { x: 0, y: p.status_top() - 1, w: p.layout.px_w, h: 1, ink: Ink::Dim },
    ] + status_ops(p, s.status)
}

/// What drawing the first `n` lines of the listing, and the path above them,
/// had to do to the text.
pub open spec fn listing_report(p: Painter, s: ScreenView, n: int) -> Report
    decreases n,
{
    if n <= 0 {
        merged(no_report(), prepared_report(p.face, s.folder, p.space()))
    } else {
        merged(
            listing_report(p, s, n - 1),
            prepared_report(p.face, marked(s.lines[n - 1], p.layout.colour), p.space()),
        )
    }
}

pub open spec fn screen_report(p: Painter, s: ScreenView) -> Report {
    merged(
        listing_report(p, s, rows_drawn(p, s)),
        prepared_report(p.face, s.status, p.space()),
    )
}

impl Painter {
    /// Positions on this panel fit the coordinates it is drawn in.
    pub open spec fn drawable(&self) -> bool {
        self.layout.px_h + 4 <= i32::MAX
    }

    fn line(&self, text: &str, y: i32, ink: Ink) -> (r: (Op, Report))
        requires
            0 <= y,
            y + 3 <= i32::MAX,
        ensures
            r.0@ == text_op(*self, text@, y as int, ink),
            r.1 == prepared_report(self.face, text@, self.space()),
    {
        let (drawable, report) = self.prepare(text);
        (Op::Text { x: MARGIN_PX as i32, y: y + self.face.top_pad(), text: drawable, ink }, report)
    }

    fn listing_line(&self, line: &Line, y: i32, ops: &mut Vec<Op>) -> (r: Report)
        requires
            0 <= y,
            y + 3 <= i32::MAX,
        ensures
            ops_of(final(ops)@) == ops_of(old(ops)@) + row_ops(*self, line@, y as int),
            r == prepared_report(
                self.face,
                marked(line@, self.layout.colour),
                self.space(),
            ),
    {
        let (prefix, suffix) = marks(line.kind, self.layout.colour);
        let mut ink: Ink = match line.kind {
            Kind::Folder => Ink::Folder,
            Kind::Playable => Ink::Fg,
            Kind::Refused => Ink::Refused,
            Kind::Unreadable => Ink::Refused,
        };
        let ghost before = ops_of(ops@);
        if line.selected {
            ops.push(
                Op::Fill { x: 0, y, w: self.layout.px_w, h: self.face.row_h(), ink },
            );
            ink = Ink::Bg;
        }
        let mut text: String = String::new();
        text.append(prefix);
        text.append(line.text.as_str());
        text.append(suffix);
        assert(text@ =~= marked(line@, self.layout.colour));
        let (op, report) = self.line(text.as_str(), y, ink);
        ops.push(op);
        assert(ops_of(ops@) =~= before + row_ops(*self, line@, y as int));
        report
    }

    /// The status line alone, for the slow tick of a moving position.
    pub fn draw_status(&self, status: &str) -> (r: (Vec<Op>, Report))
        requires
            self.drawable(),
        ensures
            ops_of(r.0@) == status_ops(*self, status@),
            r.1 == prepared_report(self.face, status@, self.space()),
    {
        let y: i32 = self.status_y();
        let mut ops: Vec<Op> = Vec::new();
        ops.push(
            Op::Fill { x: 0, y, w: self.layout.px_w, h: self.face.glyph_px(), ink: Ink::Bg },
        );
        let (op, report) = self.line(status, y, Ink::Fg);
        ops.push(op);
        assert(ops_of(ops@) =~= status_ops(*self, status@));
        (ops, report)
    }

    /// The whole screen.
    pub fn draw(&self, screen: &Screen) -> (r: (Vec<Op>, Report))
        requires
            self.drawable(),
        ensures
            ops_of(r.0@) == screen_ops(*self, screen@),
            r.1 == screen_report(*self, screen@),
    {
        let ghost s = screen@;
        let mut ops: Vec<Op> = Vec::new();
        ops.push(Op::Clear { ink: Ink::Bg });
        let mut report: Report = Report { folded: 0, substituted: 0, clipped: 0, lost: 0 };
        let (folder, said) = self.line(screen.folder.as_str(), 0, Ink::Dim);
        ops.push(folder);
        report.merge(said);
        let ghost head = ops_of(ops@);
        assert(head =~= seq![OpView::Clear { ink: Ink::Bg }, text_op(*self, s.folder, 0, Ink::Dim)]);
        assert(head + listing_ops(*self, s.lines, 0) =~= head);
        let capacity: usize = self.listing_capacity();
        let mut i: usize = 0;
        while i < screen.lines.len() && i < capacity
            invariant
                self.drawable(),
                s == screen@,
                i <= screen.lines@.len(),
                i <= capacity,
                capacity == listing_fits(self.face, self.layout.px_h),
                ops_of(ops@) == head + listing_ops(*self, s.lines, i as int),
                report == listing_report(*self, s, i as int),
            decreases screen.lines@.len() - i,
        {
            let ghost above = ops_of(ops@);
            proof {
                law_the_listing_ends_above_the_status_line(*self, i as int);
                assert(s.lines[i as int] == screen.lines@[i as int]@);
            }
            let y: i32 = self.row_y(i);
            let said: Report = self.listing_line(&screen.lines[i], y, &mut ops);
            report.merge(said);
            assert(above + row_ops(*self, s.lines[i as int], self.row_top(i as int)) =~= head
                + listing_ops(*self, s.lines, i + 1));
            i = i + 1;
        }
        assert(i == rows_drawn(*self, s));
        let ghost listed = ops_of(ops@);
        ops.push(
            Op::Fill { x: 0, y: self.status_y() - 1, w: self.layout.px_w, h: 1, ink: Ink::Dim },
        );
        let (mut status, said) = self.draw_status(screen.status.as_str());
        let ghost tail = ops_of(status@);
        ops.append(&mut status);
        report.merge(said);
        assert(ops_of(ops@) =~= listed + seq![
            OpView::Fill {
                x: 0,
                y: self.status_top() - 1,
                w: self.layout.px_w,
                h: 1,
                ink: Ink::Dim,
            },
        ] + tail);
        (ops, report)
    }
}

/// What is drawn of a name is the front of it: all of its glyphs where they
/// fit, and else as many as leave room for the marker, and the marker behind
/// them.
pub proof fn law_what_is_drawn_is_the_front(face: Face, text: Seq<char>, room: int)
    requires
        room >= 0,
    ensures
        ({
            let all = planned(face, text);
            let shown = prepared(face, text, room);
            &&& pixels(all) <= room ==> shown == all
            &&& pixels(all) > room && 0 < marker(face) <= room ==> {
                let kept = shown.len() - 1;
                &&& 0 <= kept < all.len()
                &&& shown == all.take(kept).push(('~', marker(face)))
                &&& pixels(all.take(kept + 1)) > room - marker(face)
            }
        }),
{
    let all = planned(face, text);
    if pixels(all) > room && 0 < marker(face) <= room {
        let keep = room - marker(face);
        lemma_glyphs_stop(all, keep, 0);
        assert(all.take(all.len() as int) =~= all);
    }
}

proof fn lemma_glyphs_stop(glyphs: Seq<(char, u32)>, room: int, upto: int)
    requires
        0 <= upto <= glyphs.len(),
    ensures
        upto <= glyphs_fitting(glyphs, room, upto) <= glyphs.len(),
        glyphs_fitting(glyphs, room, upto) < glyphs.len() ==> pixels(
            glyphs.take(glyphs_fitting(glyphs, room, upto) + 1),
        ) > room,
        glyphs_fitting(glyphs, room, upto) == glyphs.len() && upto < glyphs.len() ==> pixels(
            glyphs.take(glyphs.len() as int),
        ) <= room,
    decreases glyphs.len() - upto,
{
    if upto < glyphs.len() && pixels(glyphs.take(upto + 1)) <= room {
        lemma_glyphs_stop(glyphs, room, upto + 1);
    }
}

/// A character that has a glyph is drawn as itself; one that has none is drawn
/// as the parts of it that have, or as what stands in for it, or as a `?`.
pub proof fn law_what_stands_for_a_character(face: Face, c: char, text: Seq<char>)
    ensures
        face.has_glyph(c) ==> rendered(face, c) == seq![c],
        !face.has_glyph(c) && drawable_parts(face, compatible(c)).len() > 0 ==> rendered(face, c)
            == drawable_parts(face, compatible(c)),
        !face.has_glyph(c) && drawable_parts(face, compatible(c)).len() == 0 && stand_in(c) is None
            ==> rendered(face, c) == seq!['?'],
        planned(face, text.push(c)) == planned(face, text) + measured(face, rendered(face, c)),
        drawable_parts(face, text) == text.filter(|d: char| !combining(d) && face.has_glyph(d)),
        undrawable(face, text) == text.filter(|d: char| drawn(face, d) is Substituted),
        face.has_glyph(c) ==> measured(face, seq![c]) =~= seq![(c, face.px(c)->0)],
    decreases text.len(),
{
    reveal(Seq::filter);
    assert(text.push(c).drop_last() =~= text);
    assert(seq![c].drop_last() =~= Seq::<char>::empty());
    assert(measured(face, Seq::empty()) =~= Seq::empty());
    if text.len() > 0 {
        law_what_stands_for_a_character(face, c, text.drop_last());
    } else {
        assert(drawable_parts(face, text) =~= text.filter(
            |d: char| !combining(d) && face.has_glyph(d),
        ));
        assert(undrawable(face, text) =~= text.filter(|d: char| drawn(face, d) is Substituted));
    }
}

/// Without colours the rows are told apart by marks: a folder ends in a slash,
/// what is refused starts with a `!` and what cannot be read with a `*`, and
/// what plays has its name alone; with colours every row has.
pub proof fn law_the_marks_tell_rows_apart(line: LineView)
    ensures
        line.kind == Kind::Folder ==> marked(line, false) == line.text.push('/'),
        line.kind == Kind::Playable ==> marked(line, false) == line.text,
        line.kind == Kind::Refused ==> marked(line, false) == seq!['!'] + line.text,
        line.kind == Kind::Unreadable ==> marked(line, false) == seq!['*'] + line.text,
        marked(line, true) == line.text,
        kind_ink(Kind::Folder) == Ink::Folder && kind_ink(Kind::Playable) == Ink::Fg,
        kind_ink(Kind::Refused) == Ink::Refused && kind_ink(Kind::Unreadable) == Ink::Refused,
{
    reveal_strlit("");
    reveal_strlit("/");
    reveal_strlit("!");
    reveal_strlit("*");
    let t = line.text;
    assert(""@ + t + ""@ =~= t);
    assert(""@ + t + "/"@ =~= t.push('/'));
    assert("!"@ + t + ""@ =~= seq!['!'] + t);
    assert("*"@ + t + ""@ =~= seq!['*'] + t);
}

/// As many rows are drawn as fit between the path and the rule above the
/// status: one more would reach past it.
pub proof fn law_as_many_rows_as_fit(p: Painter)
    requires
        p.layout.px_h >= p.face.cell() + 1 + p.face.row(),
    ensures
        ({
            let n = listing_fits(p.face, p.layout.px_h);
            p.row_top(n) + p.face.cell() > p.layout.px_h - p.face.cell() - 1
        }),
        p.status_top() + p.face.cell() == p.layout.px_h,
        p.row_top(0) == p.face.row(),
        p.face.row() == p.face.cell() + 1,
{
    let r = p.face.row();
    let n = listing_fits(p.face, p.layout.px_h);
    let between = p.layout.px_h - p.face.cell() - 1 - r;
    assert((n + 1) * r > between + 1) by (nonlinear_arith)
        requires
            r > 0,
            n == (between + 1) / r,
    ;
    assert(p.row_top(n) == r * (n + 1));
    assert(r * (n + 1) == (n + 1) * r) by (nonlinear_arith);
}

/// A row is drawn in its place: its text, in the ink of what it is, or, where
/// it is selected, a bar of that ink as wide as the panel and as high as the
/// row, and the text in the ground's.
pub proof fn law_a_row_is_drawn_in_its_place(p: Painter, lines: Seq<LineView>, n: int)
    requires
        0 < n <= lines.len(),
    ensures
        ({
            let line = lines[n - 1];
            let top = p.face.row() * n;
            let before = listing_ops(p, lines, n - 1);
            let now = listing_ops(p, lines, n);
            let letters_of = letters(
                prepared(p.face, marked(line, p.layout.colour), p.space()),
            );
            &&& !line.selected ==> now == before.push(
                OpView::Text {
                    x: 1,
                    y: top + p.face.pad(),
                    text: letters_of,
                    ink: kind_ink(line.kind),
                },
            )
            &&& line.selected ==> now == before.push(
                OpView::Fill {
                    x: 0,
                    y: top,
                    w: p.layout.px_w,
                    h: (p.face.cell() + 1) as u32,
                    ink: kind_ink(line.kind),
                },
            ).push(OpView::Text { x: 1, y: top + p.face.pad(), text: letters_of, ink: Ink::Bg })
        }),
{
    let before = listing_ops(p, lines, n - 1);
    let line = lines[n - 1];
    let ops = row_ops(p, line, p.row_top(n - 1));
    assert(p.row_top(n - 1) == p.face.row() * n);
    if line.selected {
        assert(before + ops =~= before.push(ops[0]).push(ops[1]));
    } else {
        assert(before + ops =~= before.push(ops[0]));
    }
}

/// A screen is the ground, the path at the top, the rows, a rule across the
/// panel and the status below it, in that order.
pub proof fn law_a_screen_is_drawn_top_to_bottom(p: Painter, s: ScreenView)
    ensures
        ({
            let ops = screen_ops(p, s);
            let n = ops.len() as int;
            &&& n >= 5
            &&& ops[0] == (OpView::Clear { ink: Ink::Bg })
            &&& ops[1] == (OpView::Text {
                x: 1,
                y: p.face.pad() as int,
                text: letters(prepared(p.face, s.folder, p.space())),
                ink: Ink::Dim,
            })
            &&& ops.subrange(2, n - 3) == listing_ops(p, s.lines, rows_drawn(p, s))
            &&& ops[n - 3] == (OpView::Fill {
                x: 0,
                y: p.status_top() - 1,
                w: p.layout.px_w,
                h: 1,
                ink: Ink::Dim,
            })
            &&& ops[n - 2] == (OpView::Fill {
                x: 0,
                y: p.status_top(),
                w: p.layout.px_w,
                h: p.face.cell(),
                ink: Ink::Bg,
            })
            &&& ops[n - 1] == (OpView::Text {
                x: 1,
                y: p.status_top() + p.face.pad(),
                text: letters(prepared(p.face, s.status, p.space())),
                ink: Ink::Fg,
            })
            &&& rows_drawn(p, s) <= s.lines.len()
        }),
{
    let ops = screen_ops(p, s);
    let n = ops.len() as int;
    assert(ops.subrange(2, n - 3) =~= listing_ops(p, s.lines, rows_drawn(p, s)));
}

/// Nothing is drawn otherwise than it is written without being counted: each
/// character that is folded, substituted or lost is one more, a character that
/// has a glyph is none, and a line that is cut is one.
pub proof fn law_what_is_changed_is_counted(face: Face, text: Seq<char>, c: char, room: int)
    requires
        text.len() < usize::MAX,
    ensures
        ({
            let (was, now) = (remarks(face, text), remarks(face, text.push(c)));
            &&& drawn(face, c) is Itself ==> now == was
            &&& drawn(face, c) is Folded ==> now.folded == was.folded + 1 && now.substituted
                == was.substituted && now.lost == was.lost
            &&& drawn(face, c) is Substituted && face.has_glyph('?') ==> now.substituted
                == was.substituted + 1 && now.folded == was.folded && now.lost == was.lost
            &&& drawn(face, c) is Substituted && !face.has_glyph('?') ==> now.lost == was.lost + 1
                && now.folded == was.folded && now.substituted == was.substituted
        }),
        prepared_report(face, text, room).clipped == (if pixels(planned(face, text)) > room {
            1int
        } else {
            0
        }),
        prepared_report(face, text, room).folded == remarks(face, text).folded,
{
    assert(text.push(c).drop_last() =~= text);
    lemma_remarks_are_few(face, text);
}

proof fn lemma_remarks_are_few(face: Face, text: Seq<char>)
    requires
        text.len() <= usize::MAX,
    ensures
        remarks(face, text).folded <= text.len(),
        remarks(face, text).substituted <= text.len(),
        remarks(face, text).lost <= text.len(),
        remarks(face, text).clipped == 0,
    decreases text.len(),
{
    if text.len() > 0 {
        lemma_remarks_are_few(face, text.drop_last());
    }
}

/// Two reports together are the sums of what they count.
pub proof fn law_reports_are_added(a: Report, b: Report)
    ensures
        a.folded + b.folded <= usize::MAX ==> merged(a, b).folded == a.folded + b.folded,
        a.substituted + b.substituted <= usize::MAX ==> merged(a, b).substituted == a.substituted
            + b.substituted,
        a.clipped + b.clipped <= usize::MAX ==> merged(a, b).clipped == a.clipped + b.clipped,
        a.lost + b.lost <= usize::MAX ==> merged(a, b).lost == a.lost + b.lost,
        merged(a, b) == merged(b, a),
        merged(no_report(), a) == a,
{
}

/// Each ink is the colour the palette has for it.
pub proof fn law_each_ink_has_its_colour<C: Copy>(p: Palette<C>)
    ensures
        p.colour_of(Ink::Bg) == p.bg,
        p.colour_of(Ink::Fg) == p.fg,
        p.colour_of(Ink::Dim) == p.dim,
        p.colour_of(Ink::Folder) == p.folder,
        p.colour_of(Ink::Refused) == p.refused,
{
}

} // verus!
