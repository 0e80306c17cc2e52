//! Drawing on a bitmap: rectangles, and text a line at a time.

use embedded_graphics::framebuffer::Framebuffer;
use embedded_graphics::pixelcolor::raw::{LittleEndian, RawU1};
use embedded_graphics::pixelcolor::BinaryColor;
use embedded_graphics::prelude::Point;
use u8g2_fonts::types::{FontColor, VerticalPosition};
use u8g2_fonts::{fonts, FontRenderer};
use vstd::prelude::*;

use crate::display::packed::{bit, bit_of, Bitmap};
use crate::display::paint::{ops_of, Face, Ink, Op, OpView, Palette};
use crate::text::chars_of;

verus! {

/// The pixels a line of text is rendered onto at a time: a tile of the panel.
pub const TILE_W: u32 = 512;

pub const TILE_H: u32 = 256;

/// The bytes of a tile, sixty-four to a row.
pub const TILE_LEN: usize = 16_384;

/// How far out text can be placed, and how far its pen can travel from there,
/// so that the renderer's 32-bit positions hold wherever it goes.
pub const FAR: i32 = 0x1fff_0000;

pub const REACH: u64 = 0x4000_0000;

/// The most a newline moves the pen down by: a line's height is one more than
/// that of the font's box, which is a signed byte.
pub const LINE_MOST: u64 = 128;

/// The most a character moves the pen by.
pub open spec fn swing(face: Face, c: char) -> nat {
    if c == '\n' {
        LINE_MOST as nat
    } else {
        match face.advance_of(c) {
            Some(x) => if x < 0 {
                (-x) as nat
            } else {
                x as nat
            },
            None => 0,
        }
    }
}

/// How far the pen travels over a text, there and back, at the most.
pub open spec fn travel(face: Face, text: Seq<char>) -> nat
    decreases text.len(),
{
    if text.len() == 0 {
        0
    } else {
        travel(face, text.drop_last()) + swing(face, text.last())
    }
}

/// What `FontRenderer::render` draws of a text in the 12 px face, at a place
/// seen from the corner of a tile.
pub uninterp spec fn text_in_b12(text: Seq<char>, x: i32, y: i32) -> Seq<u8>;

/// The same in the 16 px face.
pub uninterp spec fn text_in_b16(text: Seq<char>, x: i32, y: i32) -> Seq<u8>;

/// `FontRenderer::render` over the 12 px face, onto a `Framebuffer` of 512 by
/// 256 pixels with the position at (`x`, `y`): its rows, the most significant
/// bit leftmost, which depend on the text and the position alone.
#[verifier::external_body]
fn b12_text(text: &str, x: i32, y: i32) -> (r: Vec<u8>)
    requires
        travel(Face::Px12, text@) <= REACH,
        -2 * FAR <= x <= FAR,
        -2 * FAR <= y <= FAR,
    ensures
        r@ == text_in_b12(text@, x, y),
        r@.len() == TILE_LEN,
{
    let mut tile = Framebuffer::<BinaryColor, RawU1, LittleEndian, 512, 256, 16384>::new();
    let font = FontRenderer::new::<fonts::u8g2_font_b12_t_japanese3>();
    let pen = FontColor::Transparent(BinaryColor::On);
    let _ = font.render(text, Point::new(x, y), VerticalPosition::Top, pen, &mut tile);
    tile.data().to_vec()
}

/// `FontRenderer::render` over the 16 px face, in the same way.
#[verifier::external_body]
fn b16_text(text: &str, x: i32, y: i32) -> (r: Vec<u8>)
    requires
        travel(Face::Px16, text@) <= REACH,
        -2 * FAR <= x <= FAR,
        -2 * FAR <= y <= FAR,
    ensures
        r@ == text_in_b16(text@, x, y),
        r@.len() == TILE_LEN,
{
    let mut tile = Framebuffer::<BinaryColor, RawU1, LittleEndian, 512, 256, 16384>::new();
    let font = FontRenderer::new::<fonts::u8g2_font_b16_t_japanese3>();
    let pen = FontColor::Transparent(BinaryColor::On);
    let _ = font.render(text, Point::new(x, y), VerticalPosition::Top, pen, &mut tile);
    tile.data().to_vec()
}

/// A tile with a text on it.
pub open spec fn tile(face: Face, text: Seq<char>, x: i32, y: i32) -> Seq<u8> {
    match face {
        Face::Px12 => text_in_b12(text, x, y),
        Face::Px16 => text_in_b16(text, x, y),
    }
}

fn tile_of(face: Face, text: &str, x: i32, y: i32) -> (r: Vec<u8>)
    requires
        travel(face, text@) <= REACH,
        -2 * FAR <= x <= FAR,
        -2 * FAR <= y <= FAR,
    ensures
        r@ == tile(face, text@, x, y),
        r@.len() == TILE_LEN,
{
    match face {
        Face::Px12 => b12_text(text, x, y),
        Face::Px16 => b16_text(text, x, y),
    }
}

/// Whether a tile has ink in a column and a row.
pub open spec fn dot(rows: Seq<u8>, x: int, y: int) -> bool {
    0 <= x < TILE_W && 0 <= y < TILE_H && bit(rows[64 * y + x / 8], (x % 8) as u32)
}

/// Whether a text placed at (`left`, `top`) has ink on a pixel of the panel,
/// which is told by the tile the pixel is on.
pub open spec fn text_inked(
    face: Face,
    text: Seq<char>,
    left: int,
    top: int,
    x: int,
    y: int,
) -> bool {
    let dx = x % TILE_W as int;
    let dy = y % TILE_H as int;
    dot(tile(face, text, (left - (x - dx)) as i32, (top - (y - dy)) as i32), dx, dy)
}

/// Whether an ink is light or dark where there is one bit a pixel.
pub open spec fn light(ink: Ink) -> bool {
    ink != Ink::Bg
}

/// A pixel after one thing was drawn.
pub open spec fn drawn_over(face: Face, op: OpView, x: int, y: int, before: bool) -> bool {
    match op {
        OpView::Clear { ink } => light(ink),
        OpView::Fill { x: left, y: top, w, h, ink } => if left <= x < left + w && top <= y < top
            + h {
            light(ink)
        } else {
            before
        },
        OpView::Text { x: left, y: top, text, ink } => if text_inked(
            face,
            text,
            left,
            top,
            x,
            y,
        ) {
            light(ink)
        } else {
            before
        },
    }
}

/// A pixel after all of them were, one over the other.
pub open spec fn painted(face: Face, ops: Seq<OpView>, x: int, y: int, before: bool) -> bool
    decreases ops.len(),
{
    if ops.len() == 0 {
        before
    } else {
        drawn_over(face, ops.last(), x, y, painted(face, ops.drop_last(), x, y, before))
    }
}

fn is_light(ink: Ink) -> (r: bool)
    ensures
        r == light(ink),
{
    Palette::mono().colour(ink)
}

/// The part of a run of pixels that is on a panel of this size: from, and up
/// to.
fn on_panel(at: i32, len: u32, size: u32) -> (r: (u32, u32))
    ensures
        r.1 <= size,
        forall|p: int|
            0 <= p < size ==> (r.0 <= p < r.1 <==> #[trigger] within(p, at as int, len as int)),
{
    let end: i64 = at as i64 + len as i64;
    let from: u32 = if at < 0 {
        0
    } else {
        at as u32
    };
    let to: u32 = if end < 0 {
        0
    } else if end > size as i64 {
        size
    } else {
        end as u32
    };
    (from, to)
}

pub open spec fn within(p: int, at: int, len: int) -> bool {
    at <= p < at + len
}

fn fill(bitmap: &mut Bitmap, left: i32, top: i32, w: u32, h: u32, on: bool)
    requires
        old(bitmap).wf(),
    ensures
        final(bitmap).wf(),
        final(bitmap).w == old(bitmap).w,
        final(bitmap).h == old(bitmap).h,
        forall|x: int, y: int|
            0 <= x < final(bitmap).w && 0 <= y < final(bitmap).h ==> #[trigger] final(bitmap).lit(x, y) == (if left <= x < left + w && top <= y < top + h {
                on
            } else {
                old(bitmap).lit(x, y)
            }),
{
    let (x0, x1) = on_panel(left, w, bitmap.w);
    let (y0, y1) = on_panel(top, h, bitmap.h);
    let ghost was = *bitmap;
    let mut y: u32 = y0;
    while y < y1
        invariant
            bitmap.wf(),
            bitmap.w == was.w,
            bitmap.h == was.h,
            x1 <= was.w,
            y1 <= was.h,
            y0 <= y,
            if y0 <= y1 {
                y <= y1
            } else {
                y == y0
            },
            forall|a: int, b: int|
                0 <= a < was.w && 0 <= b < was.h ==> #[trigger] bitmap.lit(a, b) == (if x0 <= a < x1
                    && y0 <= b < y {
                    on
                } else {
                    was.lit(a, b)
                }),
        decreases y1 - y,
    {
        let mut x: u32 = x0;
        while x < x1
            invariant
                bitmap.wf(),
                bitmap.w == was.w,
                bitmap.h == was.h,
                x1 <= was.w,
                y < y1 <= was.h,
                y0 <= y,
                x0 <= x,
                x <= x1 || x == x0,
                forall|a: int, b: int|
                    0 <= a < was.w && 0 <= b < was.h ==> #[trigger] bitmap.lit(a, b) == (if x0 <= a
                        < x1 && (y0 <= b < y || (b == y && a < x)) {
                        on
                    } else {
                        was.lit(a, b)
                    }),
            decreases x1 - x,
        {
            bitmap.set(x, y, on);
            x = x + 1;
        }
        y = y + 1;
    }
    assert forall|a: int, b: int|
        0 <= a < was.w && 0 <= b < was.h implies #[trigger] bitmap.lit(a, b) == (if left <= a < left
        + w && top <= b < top + h {
        on
    } else {
        was.lit(a, b)
    }) by {
        assert(within(a, left as int, w as int) == (x0 <= a < x1));
        assert(within(b, top as int, h as int) == (y0 <= b < y1));
    }
}

/// Whether a pixel is on the tile with this corner, and has ink there.
pub open spec fn on_tile(rows: Seq<u8>, left: int, top: int, x: int, y: int) -> bool {
    dot(rows, x - left, y - top)
}

/// Copies the ink of a tile to where its corner is on the panel.
fn stamp(bitmap: &mut Bitmap, rows: &[u8], left: u32, top: u32, on: bool)
    requires
        old(bitmap).wf(),
        rows@.len() == TILE_LEN,
        left < old(bitmap).w <= FAR,
        top < old(bitmap).h <= FAR,
    ensures
        final(bitmap).wf(),
        final(bitmap).w == old(bitmap).w,
        final(bitmap).h == old(bitmap).h,
        forall|x: int, y: int|
            0 <= x < final(bitmap).w && 0 <= y < final(bitmap).h ==> #[trigger] final(bitmap).lit(x, y) == (if on_tile(rows@, left as int, top as int, x, y) {
                on
            } else {
                old(bitmap).lit(x, y)
            }),
{
    let ghost was = *bitmap;
    let mut y: u32 = top;
    while y < bitmap.h && y - top < TILE_H
        invariant
            bitmap.wf(),
            bitmap.w == was.w,
            bitmap.h == was.h,
            rows@.len() == TILE_LEN,
            left < was.w <= FAR,
            was.h <= FAR,
            top <= y <= top + TILE_H,
            y <= was.h,
            forall|a: int, b: int|
                0 <= a < was.w && 0 <= b < was.h ==> #[trigger] bitmap.lit(a, b) == (if b < y
                    && on_tile(rows@, left as int, top as int, a, b) {
                    on
                } else {
                    was.lit(a, b)
                }),
        decreases was.h - y,
    {
        let mut x: u32 = left;
        while x < bitmap.w && x - left < TILE_W
            invariant
                bitmap.wf(),
                bitmap.w == was.w,
                bitmap.h == was.h,
                rows@.len() == TILE_LEN,
                was.w <= FAR,
                was.h <= FAR,
                top <= y < top + TILE_H,
                y < was.h,
                left <= x <= left + TILE_W,
                x <= was.w,
                forall|a: int, b: int|
                    0 <= a < was.w && 0 <= b < was.h ==> #[trigger] bitmap.lit(a, b) == (if (b < y
                        || (b == y && a < x)) && on_tile(rows@, left as int, top as int, a, b) {
                        on
                    } else {
                        was.lit(a, b)
                    }),
            decreases was.w - x,
        {
            let (column, row): (u32, u32) = (x - left, y - top);
            if bit_of(rows[(64 * row + column / 8) as usize], column % 8) {
                bitmap.set(x, y, on);
            }
            x = x + 1;
        }
        y = y + 1;
    }
}

fn write(bitmap: &mut Bitmap, face: Face, left: i32, top: i32, text: &str, on: bool)
    requires
        old(bitmap).wf(),
        old(bitmap).w <= FAR,
        old(bitmap).h <= FAR,
        -FAR <= left <= FAR,
        -FAR <= top <= FAR,
        travel(face, text@) <= REACH,
    ensures
        final(bitmap).wf(),
        final(bitmap).w == old(bitmap).w,
        final(bitmap).h == old(bitmap).h,
        forall|x: int, y: int|
            0 <= x < final(bitmap).w && 0 <= y < final(bitmap).h ==> #[trigger] final(bitmap).lit(x, y) == (if text_inked(face, text@, left as int, top as int, x, y) {
                on
            } else {
                old(bitmap).lit(x, y)
            }),
{
    let ghost was = *bitmap;
    let mut y: u32 = 0;
    while y < bitmap.h
        invariant
            bitmap.wf(),
            bitmap.w == was.w,
            bitmap.h == was.h,
            was.w <= FAR,
            was.h <= FAR,
            -FAR <= left <= FAR,
            -FAR <= top <= FAR,
            travel(face, text@) <= REACH,
            y % TILE_H == 0,
            y <= was.h + TILE_H,
            forall|a: int, b: int|
                0 <= a < was.w && 0 <= b < was.h ==> #[trigger] bitmap.lit(a, b) == (if b < y
                    && text_inked(face, text@, left as int, top as int, a, b) {
                    on
                } else {
                    was.lit(a, b)
                }),
        decreases was.h + TILE_H - y,
    {
        let mut x: u32 = 0;
        while x < bitmap.w
            invariant
                bitmap.wf(),
                bitmap.w == was.w,
                bitmap.h == was.h,
                was.w <= FAR,
                was.h <= FAR,
                -FAR <= left <= FAR,
                -FAR <= top <= FAR,
                travel(face, text@) <= REACH,
                y % TILE_H == 0,
                y < was.h,
                x % TILE_W == 0,
                x <= was.w + TILE_W,
                forall|a: int, b: int|
                    0 <= a < was.w && 0 <= b < was.h ==> #[trigger] bitmap.lit(a, b) == (if (b < y
                        || (b < y + TILE_H && a < x)) && text_inked(
                        face,
                        text@,
                        left as int,
                        top as int,
                        a,
                        b,
                    ) {
                        on
                    } else {
                        was.lit(a, b)
                    }),
            decreases was.w + TILE_W - x,
        {
            let rows: Vec<u8> = tile_of(face, text, left - x as i32, top - y as i32);
            assert forall|a: int, b: int|
                x <= a < x + TILE_W && y <= b < y + TILE_H implies text_inked(
                face,
                text@,
                left as int,
                top as int,
                a,
                b,
            ) == #[trigger] on_tile(rows@, x as int, y as int, a, b) by {
                assert(a - a % TILE_W as int == x);
                assert(b - b % TILE_H as int == y);
            }
            stamp(bitmap, rows.as_slice(), x, y, on);
            x = x + TILE_W;
        }
        y = y + TILE_H;
    }
}

/// Whether a list of things is placed within reach of the renderer's positions.
pub open spec fn placed(ops: Seq<OpView>) -> bool {
    forall|i: int|
        0 <= i < ops.len() ==> (#[trigger] ops[i] matches OpView::Text { x, y, .. } ==> -FAR <= x
            <= FAR && -FAR <= y <= FAR)
}

/// Whether every text of a list stays within reach of them.
pub open spec fn stays(face: Face, ops: Seq<OpView>) -> bool {
    forall|i: int|
        0 <= i < ops.len() ==> (#[trigger] ops[i] matches OpView::Text { text, .. } ==> travel(
            face,
            text,
        ) <= REACH)
}

proof fn lemma_travel_grows(face: Face, text: Seq<char>, i: int)
    requires
        0 <= i <= text.len(),
    ensures
        travel(face, text.take(i)) <= travel(face, text),
    decreases text.len() - i,
{
    if i < text.len() {
        lemma_travel_grows(face, text, i + 1);
        assert(text.take(i + 1).drop_last() =~= text.take(i));
    } else {
        assert(text.take(i) =~= text);
    }
}

fn text_stays(face: Face, text: &str) -> (r: bool)
    ensures
        r == (travel(face, text@) <= REACH),
{
    let cs: Vec<char> = chars_of(text);
    let mut far: u64 = 0;
    let mut i: usize = 0;
    assert(cs@.take(0) =~= Seq::empty());
    while i < cs.len()
        invariant
            i <= cs@.len(),
            cs@ == text@,
            far == travel(face, cs@.take(i as int)),
            far <= REACH,
        decreases cs@.len() - i,
    {
        assert(cs@.take(i + 1).drop_last() =~= cs@.take(i as int));
        let by: u64 = if cs[i] == '\n' {
            LINE_MOST
        } else {
            match face.pen(cs[i]) {
                Some(x) => if x < 0 {
                    (-(x as i64)) as u64
                } else {
                    x as u64
                },
                None => 0,
            }
        };
        far = far + by;
        i = i + 1;
        if far > REACH {
            proof {
                lemma_travel_grows(face, text@, i as int);
            }
            return false;
        }
    }
    assert(cs@.take(i as int) =~= cs@);
    true
}

/// Whether every text of a list stays within reach of the renderer's positions.
pub fn all_stay(face: Face, ops: &[Op]) -> (r: bool)
    ensures
        r == stays(face, ops_of(ops@)),
{
    let ghost all = ops_of(ops@);
    let mut i: usize = 0;
    while i < ops.len()
        invariant
            i <= ops@.len(),
            all == ops_of(ops@),
            forall|k: int|
                0 <= k < i ==> (#[trigger] all[k] matches OpView::Text { text, .. } ==> travel(
                    face,
                    text,
                ) <= REACH),
        decreases ops@.len() - i,
    {
        assert(all[i as int] == ops@[i as int]@);
        if let Op::Text { text, .. } = &ops[i] {
            if !text_stays(face, text.as_str()) {
                return false;
            }
        }
        i = i + 1;
    }
    true
}

/// Draws a list of things on a bitmap, one over the other.
pub fn paint(bitmap: &mut Bitmap, face: Face, ops: &[Op])
    requires
        old(bitmap).wf(),
        old(bitmap).w <= FAR,
        old(bitmap).h <= FAR,
        placed(ops_of(ops@)),
        stays(face, ops_of(ops@)),
    ensures
        final(bitmap).wf(),
        final(bitmap).w == old(bitmap).w,
        final(bitmap).h == old(bitmap).h,
        forall|x: int, y: int|
            0 <= x < final(bitmap).w && 0 <= y < final(bitmap).h ==> #[trigger] final(bitmap).lit(x, y) == painted(face, ops_of(ops@), x, y, old(bitmap).lit(x, y)),
{
    let ghost was = *bitmap;
    let ghost all = ops_of(ops@);
    let mut i: usize = 0;
    assert(all.take(0) =~= Seq::empty());
    while i < ops.len()
        invariant
            bitmap.wf(),
            bitmap.w == was.w,
            bitmap.h == was.h,
            i <= ops@.len(),
            all == ops_of(ops@),
            was.w <= FAR,
            was.h <= FAR,
            placed(all),
            stays(face, all),
            forall|a: int, b: int|
                0 <= a < was.w && 0 <= b < was.h ==> #[trigger] bitmap.lit(a, b) == painted(
                    face,
                    all.take(i as int),
                    a,
                    b,
                    was.lit(a, b),
                ),
        decreases ops@.len() - i,
    {
        assert(all.take(i + 1).drop_last() =~= all.take(i as int));
        assert(all.take(i + 1).last() == ops@[i as int]@);
        match &ops[i] {
            Op::Clear { ink } => {
                let (w, h) = (bitmap.w, bitmap.h);
                fill(bitmap, 0, 0, w, h, is_light(*ink));
            },
            Op::Fill { x, y, w, h, ink } => {
                fill(bitmap, *x, *y, *w, *h, is_light(*ink));
            },
            Op::Text { x, y, text, ink } => {
                write(bitmap, face, *x, *y, text.as_str(), is_light(*ink));
            },
        }
        i = i + 1;
    }
    assert(all.take(i as int) =~= all);
}

/// What is drawn last is what shows: a cleared panel is of one ink all over, a
/// filled rectangle is of its ink inside and leaves what was there outside,
/// and text changes only the dots it has ink on.
pub proof fn law_what_is_drawn_last_shows(
    face: Face,
    ops: Seq<OpView>,
    op: OpView,
    x: int,
    y: int,
    before: bool,
)
    ensures
        ({
            let under = painted(face, ops, x, y, before);
            let now = painted(face, ops.push(op), x, y, before);
            &&& op matches OpView::Clear { ink } ==> (now <==> ink != Ink::Bg)
            &&& op matches OpView::Fill { x: left, y: top, w, h, ink } ==> (left <= x && x < left + w
                && top <= y && y < top + h ==> (now <==> ink != Ink::Bg)) && (x < left || x >= left
                + w || y < top || y >= top + h ==> now == under)
            &&& op matches OpView::Text { x: left, y: top, text, ink } ==> (if text_inked(
                face,
                text,
                left,
                top,
                x,
                y,
            ) {
                now <==> ink != Ink::Bg
            } else {
                now == under
            })
        }),
        painted(face, Seq::empty(), x, y, before) == before,
{
    assert(ops.push(op).drop_last() =~= ops);
}

/// A text is drawn where it is put: moved by a tile with it, a dot is the same
/// dot, and on the first tile a dot is a bit of the row it is in, the leftmost
/// of each byte highest.
pub proof fn law_a_text_is_drawn_where_it_is_put(
    face: Face,
    text: Seq<char>,
    left: int,
    top: int,
    x: int,
    y: int,
)
    requires
        0 <= x < 512,
        0 <= y < 256,
        -FAR <= left <= FAR,
        -FAR <= top <= FAR,
    ensures
        text_inked(face, text, left, top, x + 512, y) == text_inked(face, text, left - 512, top, x, y),
        text_inked(face, text, left, top, x, y + 256) == text_inked(face, text, left, top - 256, x, y),
        text_inked(face, text, left, top, x, y) == bit(
            tile(face, text, left as i32, top as i32)[64 * y + x / 8],
            (x % 8) as u32,
        ),
        tile(Face::Px12, text, left as i32, top as i32) == text_in_b12(text, left as i32, top as i32),
        tile(Face::Px16, text, left as i32, top as i32) == text_in_b16(text, left as i32, top as i32),
{
    assert((x + 512) % 512 == x);
    assert((y + 256) % 256 == y);
}

} // verus!
