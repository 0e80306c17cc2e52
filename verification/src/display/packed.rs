//! A panel on the far end of a link: one bit a pixel, and the regions that are
//! not in the default pen.

use vstd::prelude::*;

use crate::display::paint::{
    law_the_listing_ends_above_the_status_line, listing_fits, listing_ops, screen_ops, Face, Layout,
    OpView, Painter,
};
use crate::display::raster::{all_stay, paint, painted, placed, stays, FAR};
use crate::display::wire::{
    answer_of, law_every_answer_consumes, said, Declared, Meaning, Message, Pen, Reader, Span,
};
use crate::display::{Geometry, Kind, Lighting, LineView, Screen, ScreenView};
use crate::text::copied;

verus! {

/// One bit a pixel, rows padded to whole bytes, most significant bit leftmost.
#[derive(Debug)]
pub struct Bitmap {
    pub w: u32,
    pub h: u32,
    /// Bytes a row.
    pub stride: usize,
    pub bits: Vec<u8>,
}

/// Bit `k` of a byte, counted from the left.
pub open spec fn bit(byte: u8, k: u32) -> bool {
    (byte >> ((7 - k) as u32)) & 1u8 == 1u8
}

pub(crate) fn bit_of(byte: u8, k: u32) -> (r: bool)
    requires
        k < 8,
    ensures
        r == bit(byte, k),
{
    (byte >> (7 - k)) & 1 == 1
}

fn with_bit(byte: u8, k: u32, on: bool) -> (r: u8)
    requires
        k < 8,
    ensures
        forall|j: u32| j < 8 ==> #[trigger] bit(r, j) == (if j == k {
            on
        } else {
            bit(byte, j)
        }),
{
    let shift: u32 = 7 - k;
    let mask: u8 = 1u8 << shift;
    let r: u8 = if on {
        byte | mask
    } else {
        byte & !mask
    };
    proof {
        assert forall|j: u32| j < 8 implies #[trigger] bit(r, j) == (if j == k {
            on
        } else {
            bit(byte, j)
        }) by {
            let at = (7 - j) as u32;
            assert(shift < 8 && at < 8 && mask == 1u8 << shift ==> (((byte | mask) >> at) & 1u8
                == 1u8) == (at == shift || (byte >> at) & 1u8 == 1u8)) by (bit_vector);
            assert(shift < 8 && at < 8 && mask == 1u8 << shift ==> (((byte & !mask) >> at) & 1u8
                == 1u8) == (at != shift && (byte >> at) & 1u8 == 1u8)) by (bit_vector);
        }
    }
    r
}

proof fn lemma_cell(x: int, y: int, w: int, h: int, stride: int)
    requires
        0 <= x < w,
        0 <= y < h,
        stride == (w + 7) / 8,
    ensures
        0 <= x / 8 < stride,
        0 <= y * stride + x / 8 < stride * h,
        y * stride <= stride * h,
{
    assert(0 <= y * stride && y * stride + stride <= stride * h) by (nonlinear_arith)
        requires
            0 <= y < h,
            stride >= 0,
    ;
}

proof fn lemma_cells_apart(a: int, y: int, b: int, z: int, stride: int)
    requires
        0 <= a < stride,
        0 <= b < stride,
        y * stride + a == z * stride + b,
    ensures
        a == b,
        y == z,
{
    assert(y == z) by (nonlinear_arith)
        requires
            0 <= a < stride,
            0 <= b < stride,
            y * stride + a == z * stride + b,
    ;
}

impl Bitmap {
    /// What pads a row is dark.
    pub open spec fn wf(&self) -> bool {
        &&& self.stride == (self.w + 7) / 8
        &&& self.bits@.len() == self.stride * self.h
        &&& forall|x: int, y: int|
            self.w <= x < 8 * self.stride && 0 <= y < self.h ==> !(#[trigger] self.ink(x, y))
    }

    /// The bit of a row at a column, which may be one that pads it.
    pub open spec fn ink(&self, x: int, y: int) -> bool {
        bit(self.bits@[y * self.stride + x / 8], (x % 8) as u32)
    }

    /// Whether a pixel is lit. Off the bitmap none is.
    pub open spec fn lit(&self, x: int, y: int) -> bool {
        0 <= x < self.w && 0 <= y < self.h && self.ink(x, y)
    }

    pub fn new(w: u32, h: u32) -> (r: Bitmap)
        requires
            ((w + 7) / 8) * h <= usize::MAX,
        ensures
            r.wf(),
            r.w == w,
            r.h == h,
            forall|x: int, y: int| !(#[trigger] r.lit(x, y)),
    {
        let stride: usize = ((w as u64 + 7) / 8) as usize;
        let total: usize = stride * (h as usize);
        let mut bits: Vec<u8> = Vec::new();
        while bits.len() < total
            invariant
                bits@.len() <= total,
                forall|i: int| 0 <= i < bits@.len() ==> bits@[i] == 0,
            decreases total - bits@.len(),
        {
            bits.push(0);
        }
        let r: Bitmap = Bitmap { w, h, stride, bits };
        proof {
            assert forall|x: int, y: int| 0 <= x < 8 * stride && 0 <= y < h implies !(
            #[trigger] r.ink(x, y)) by {
                lemma_cell(x, y, 8 * stride, h as int, stride as int);
                lemma_no_bit((x % 8) as u32);
            }
        }
        r
    }

    pub fn bytes(&self) -> (r: &[u8])
        ensures
            r@ == self.bits@,
    {
        self.bits.as_slice()
    }

    pub fn clear_all(&mut self)
        requires
            old(self).wf(),
        ensures
            final(self).wf(),
            final(self).w == old(self).w,
            final(self).h == old(self).h,
            forall|x: int, y: int| !(#[trigger] final(self).lit(x, y)),
    {
        let mut i: usize = 0;
        while i < self.bits.len()
            invariant
                self.stride == (self.w + 7) / 8,
                self.bits@.len() == self.stride * self.h,
                self.w == old(self).w,
                self.h == old(self).h,
                i <= self.bits@.len(),
                forall|k: int| 0 <= k < i ==> self.bits@[k] == 0,
            decreases self.bits@.len() - i,
        {
            self.bits.set(i, 0);
            i = i + 1;
        }
        proof {
            assert forall|x: int, y: int| 0 <= x < 8 * self.stride && 0 <= y < self.h implies !(
            #[trigger] self.ink(x, y)) by {
                lemma_cell(x, y, 8 * self.stride, self.h as int, self.stride as int);
                lemma_no_bit((x % 8) as u32);
            }
        }
    }

    pub fn get(&self, x: u32, y: u32) -> (r: bool)
        requires
            self.wf(),
        ensures
            r == self.lit(x as int, y as int),
    {
        if x >= self.w || y >= self.h {
            return false;
        }
        proof {
            lemma_cell(x as int, y as int, self.w as int, self.h as int, self.stride as int);
        }
        let total: usize = self.bits.len();
        let byte: u8 = self.bits[(y as usize) * self.stride + (x / 8) as usize];
        bit_of(byte, x % 8)
    }

    /// Lights a pixel or puts it out. Off the bitmap there is none.
    pub fn set(&mut self, x: u32, y: u32, on: bool)
        requires
            old(self).wf(),
        ensures
            final(self).wf(),
            final(self).w == old(self).w,
            final(self).h == old(self).h,
            forall|a: int, b: int| #[trigger]
                final(self).lit(a, b) == (if a == x && b == y && x < old(self).w && y < old(self).h {
                    on
                } else {
                    old(self).lit(a, b)
                }),
    {
        if x >= self.w || y >= self.h {
            return;
        }
        proof {
            lemma_cell(x as int, y as int, self.w as int, self.h as int, self.stride as int);
        }
        let total: usize = self.bits.len();
        let i: usize = (y as usize) * self.stride + (x / 8) as usize;
        let byte: u8 = with_bit(self.bits[i], x % 8, on);
        self.bits.set(i, byte);
        proof {
            assert forall|a: int, b: int|
                0 <= a < 8 * self.stride && 0 <= b < self.h implies #[trigger] self.ink(a, b) == (if a
                == x && b == y {
                on
            } else {
                old(self).ink(a, b)
            }) by {
                lemma_cell(a, b, 8 * self.stride, self.h as int, self.stride as int);
                if b * self.stride + a / 8 == i {
                    lemma_cells_apart(a / 8, b, x as int / 8, y as int, self.stride as int);
                }
            }
        }
    }
}

proof fn lemma_no_bit(k: u32)
    ensures
        !bit(0u8, k),
{
    let at = (7 - k) as u32;
    assert((0u8 >> at) & 1u8 != 1u8) by (bit_vector);
}

pub open spec fn kind_pen(kind: Kind) -> Pen {
    match kind {
        Kind::Folder => Pen::Folder,
        Kind::Playable => Pen::Fg,
        Kind::Refused => Pen::Refused,
        Kind::Unreadable => Pen::Refused,
    }
}

/// The pen a row of this kind is drawn in.
fn pen_of(kind: Kind) -> (r: Pen)
    ensures
        r == kind_pen(kind),
{
    match kind {
        Kind::Folder => Pen::Folder,
        Kind::Playable => Pen::Fg,
        Kind::Refused => Pen::Refused,
        Kind::Unreadable => Pen::Refused,
    }
}

/// The spans of the first `n` rows of the listing, behind the path line's.
pub open spec fn row_spans(p: Painter, lines: Seq<LineView>, n: int) -> Seq<Span>
    decreases n,
{
    if n <= 0 {
        seq![
            Span {
                x0: 0,
                y0: 0,
                x1: p.layout.px_w as u16,
                y1: p.face.cell() as u16,
                pen: Pen::Dim,
            },
        ]
    } else if kind_pen(lines[n - 1].kind) == Pen::Fg {
        row_spans(p, lines, n - 1)
    } else {
        row_spans(p, lines, n - 1).push(
            Span {
                x0: 0,
                y0: p.row_top(n - 1) as u16,
                x1: p.layout.px_w as u16,
                y1: (p.row_top(n - 1) + p.face.row()) as u16,
                pen: kind_pen(lines[n - 1].kind),
            },
        )
    }
}

/// A panel whose pixels the wire can count.
pub open spec fn on_the_wire(p: Painter) -> bool {
    p.layout.px_w <= u16::MAX && p.layout.px_h <= u16::MAX
}

/// Which regions of the frame are not in the default pen, from the painter
/// that drew it, so the rectangles cannot drift from the rows.
pub fn spans_of(painter: &Painter, screen: &Screen) -> (r: Vec<Span>)
    requires
        on_the_wire(*painter),
    ensures
        r@ == row_spans(
            *painter,
            screen@.lines,
            crate::display::paint::rows_drawn(*painter, screen@),
        ),
{
    let ghost s = screen@;
    let layout: Layout = painter.layout();
    let row_h: u32 = painter.face().row_h();
    let mut spans: Vec<Span> = Vec::new();
    // The path line, which a colour panel sinks into the background.
    spans.push(
        Span {
            x0: 0,
            y0: 0,
            x1: layout.px_w as u16,
            y1: painter.face().glyph_px() as u16,
            pen: Pen::Dim,
        },
    );
    let capacity: usize = painter.listing_capacity();
    let mut i: usize = 0;
    assert(spans@ =~= row_spans(*painter, s.lines, 0));
    while i < screen.lines.len() && i < capacity
        invariant
            on_the_wire(*painter),
            s == screen@,
            layout == painter.layout,
            row_h == painter.face.row(),
            i <= screen.lines@.len(),
            i <= capacity,
            capacity == listing_fits(painter.face, painter.layout.px_h),
            spans@ == row_spans(*painter, s.lines, i as int),
        decreases screen.lines@.len() - i,
    {
        proof {
            law_the_listing_ends_above_the_status_line(*painter, i as int);
            assert(s.lines[i as int] == screen.lines@[i as int]@);
        }
        let pen: Pen = pen_of(screen.lines[i].kind);
        if pen != Pen::Fg {
            let y0: u16 = painter.row_y(i) as u16;
            spans.push(
                Span { x0: 0, y0, x1: layout.px_w as u16, y1: y0 + row_h as u16, pen },
            );
        }
        i = i + 1;
    }
    spans
}

proof fn lemma_rows_are_placed(p: Painter, lines: Seq<LineView>, n: int)
    requires
        on_the_wire(p),
        0 <= n <= listing_fits(p.face, p.layout.px_h),
    ensures
        placed(listing_ops(p, lines, n)),
    decreases n,
{
    if n > 0 {
        lemma_rows_are_placed(p, lines, n - 1);
        law_the_listing_ends_above_the_status_line(p, n - 1);
        let above = listing_ops(p, lines, n - 1);
        let all = listing_ops(p, lines, n);
        assert forall|i: int| 0 <= i < above.len() implies #[trigger] all[i] == above[i] by {}
    }
}

/// Every text of a screen is within reach of the renderer.
proof fn lemma_a_screen_is_placed(p: Painter, s: ScreenView)
    requires
        on_the_wire(p),
    ensures
        placed(screen_ops(p, s)),
{
    lemma_rows_are_placed(p, s.lines, crate::display::paint::rows_drawn(p, s));
    let rows = listing_ops(p, s.lines, crate::display::paint::rows_drawn(p, s));
    let all = screen_ops(p, s);
    assert forall|i: int| 0 <= i < all.len() implies (#[trigger] all[i] matches OpView::Text {
        x,
        y,
        ..
    } ==> -FAR <= x <= FAR && -FAR <= y <= FAR) by {
        if 2 <= i < 2 + rows.len() {
            assert(all[i] == rows[i - 2]);
        }
    }
}

/// What the buffer of a reader holds, taken to its end: the messages that are
/// no acknowledgement, how many are, what is left, and how many bytes were
/// thrown away on the way.
pub struct Taken {
    pub messages: Seq<Meaning>,
    pub acks: nat,
    pub rest: Seq<u8>,
    pub resyncs: nat,
}

pub open spec fn taken(buf: Seq<u8>) -> Taken
    decreases buf.len(),
{
    proof {
        law_every_answer_consumes(buf);
    }
    let a = answer_of(buf);
    match a.said {
        None => Taken {
            messages: Seq::empty(),
            acks: 0,
            rest: a.rest,
            resyncs: a.resyncs,
        },
        Some(Ok(m)) => {
            let t = taken(a.rest);
            if m is Ack {
                Taken { acks: t.acks + 1, resyncs: a.resyncs + t.resyncs, ..t }
            } else {
                Taken {
                    messages: seq![m] + t.messages,
                    resyncs: a.resyncs + t.resyncs,
                    ..t
                }
            }
        },
        // A corrupt message is the link's business.
        Some(Err(_)) => {
            let t = taken(a.rest);
            Taken { resyncs: a.resyncs + t.resyncs, ..t }
        },
    }
}

/// Renders a screen onto a panel that is on the far end of a link.
pub struct Packed {
    pub painter: Painter,
    pub bitmap: Bitmap,
    pub declared: Declared,
    pub seq: u16,
    /// Frames written and not yet acknowledged.
    pub outstanding: usize,
    /// The last round trip, in nanoseconds, from write to acknowledgement.
    pub last_rtt: Option<u128>,
    pub sent_at: Option<u128>,
    pub reader: Reader,
}

pub open spec fn messages_of(ms: Seq<Message>) -> Seq<Meaning> {
    ms.map_values(|m: Message| m@)
}

impl Packed {
    pub open spec fn wf(&self) -> bool {
        &&& self.bitmap.wf()
        &&& on_the_wire(self.painter)
        &&& self.bitmap.w == self.painter.layout.px_w
        &&& self.bitmap.h == self.painter.layout.px_h
    }

    /// A display for what the Pico declared. The face is chosen from the
    /// panel's pixels: the Pico declares a size and never a font.
    pub fn new(declared: Declared) -> (r: Packed)
        requires
            ((declared.px_w + 7) / 8) * declared.px_h <= usize::MAX,
        ensures
            r.wf(),
            r.declared == declared,
            r.painter.layout == (Layout {
                px_w: declared.px_w as u32,
                px_h: declared.px_h as u32,
                colour: declared.colour,
            }),
            r.painter.face == (if listing_fits(Face::Px16, declared.px_h as u32) >= 3 {
                Face::Px16
            } else {
                Face::Px12
            }),
            r.bitmap.w == declared.px_w,
            r.bitmap.h == declared.px_h,
            r.seq == 0,
            r.outstanding == 0,
            r.last_rtt is None,
            r.sent_at is None,
            r.reader@.len() == 0,
            r.reader.resyncs == 0,
    {
        let layout: Layout = Layout {
            px_w: declared.px_w as u32,
            px_h: declared.px_h as u32,
            colour: declared.colour,
        };
        let face: Face = Face::for_panel(layout.px_w, layout.px_h);
        Packed {
            painter: Painter::new(face, layout),
            bitmap: Bitmap::new(layout.px_w, layout.px_h),
            declared,
            seq: 0,
            outstanding: 0,
            last_rtt: None,
            sent_at: None,
            reader: Reader::new(),
        }
    }

    pub fn declared(&self) -> (r: Declared)
        ensures
            r == self.declared,
    {
        self.declared
    }

    pub fn painter(&self) -> (r: &Painter)
        ensures
            *r == self.painter,
    {
        &self.painter
    }

    pub fn last_rtt(&self) -> (r: Option<u128>)
        ensures
            r == self.last_rtt,
    {
        self.last_rtt
    }

    pub fn outstanding(&self) -> (r: usize)
        ensures
            r == self.outstanding,
    {
        self.outstanding
    }

    /// The grid of cells to compose a screen for.
    pub fn geometry(&self) -> (r: Geometry)
        ensures
            r.cols == self.painter.space() / (self.painter.face.cell() / 2) as int,
            r.rows == 2 + listing_fits(self.painter.face, self.painter.layout.px_h),
            r.colour == self.painter.layout.colour,
    {
        self.painter.geometry()
    }

    /// Takes whatever the Pico has said, `now`. An acknowledgement closes a
    /// frame out, and the first since a frame was written times the link;
    /// everything else is returned for the caller to act on.
    pub fn take(&mut self, bytes: &[u8], now: u128) -> (r: Vec<Message>)
        requires
            old(self).wf(),
            old(self).reader.resyncs + old(self).reader@.len() + bytes@.len() <= u64::MAX,
        ensures
            final(self).wf(),
            ({
                let t = taken(old(self).reader@ + bytes@);
                &&& messages_of(r@) == t.messages
                &&& final(self).reader@ == t.rest
                &&& final(self).reader.resyncs == old(self).reader.resyncs + t.resyncs
                &&& final(self).outstanding == (if t.acks < old(self).outstanding {
                    old(self).outstanding - t.acks
                } else {
                    0
                })
                &&& t.acks > 0 && old(self).sent_at is Some ==> final(self).sent_at is None && final(self).last_rtt == Some(since(now, old(self).sent_at->0))
                &&& t.acks == 0 || old(self).sent_at is None ==> final(self).sent_at == old(self).sent_at && final(self).last_rtt == old(self).last_rtt
            }),
            final(self).painter == old(self).painter,
            final(self).bitmap == old(self).bitmap,
            final(self).declared == old(self).declared,
            final(self).seq == old(self).seq,
    {
        self.reader.feed(bytes);
        let ghost all = taken(self.reader@);
        let ghost mut acks: nat = 0;
        let mut out: Vec<Message> = Vec::new();
        assert(messages_of(out@) + all.messages =~= all.messages);
        loop
            invariant
                self.wf(),
                self.painter == old(self).painter,
                self.bitmap == old(self).bitmap,
                self.declared == old(self).declared,
                self.seq == old(self).seq,
                self.reader.resyncs + self.reader@.len() <= u64::MAX,
                self.reader.resyncs + taken(self.reader@).resyncs == old(self).reader.resyncs
                    + all.resyncs,
                all.messages == messages_of(out@) + taken(self.reader@).messages,
                all.acks == acks + taken(self.reader@).acks,
                all.rest == taken(self.reader@).rest,
                all == taken(old(self).reader@ + bytes@),
                self.outstanding == (if acks < old(self).outstanding {
                    old(self).outstanding - acks
                } else {
                    0
                }),
                acks > 0 && old(self).sent_at is Some ==> self.sent_at is None && self.last_rtt
                    == Some(since(now, old(self).sent_at->0)),
                acks == 0 || old(self).sent_at is None ==> self.sent_at == old(self).sent_at
                    && self.last_rtt == old(self).last_rtt,
            decreases self.reader@.len(),
        {
            let ghost buf = self.reader@;
            proof {
                law_every_answer_consumes(buf);
            }
            match self.reader.next_message() {
                None => {
                    assert(messages_of(out@) + taken(buf).messages =~= messages_of(out@));
                    return out;
                },
                Some(Ok(m)) => {
                    let ghost before = messages_of(out@);
                    match m {
                        Message::Ack { .. } => {
                            self.outstanding = if self.outstanding > 0 {
                                self.outstanding - 1
                            } else {
                                0
                            };
                            if let Some(at) = self.sent_at {
                                self.sent_at = None;
                                self.last_rtt = Some(
                                    if now >= at {
                                        now - at
                                    } else {
                                        0
                                    },
                                );
                            }
                            proof {
                                acks = acks + 1;
                            }
                        },
                        other => {
                            out.push(other);
                            assert(messages_of(out@) =~= before + seq![other@]);
                            assert(all.messages =~= messages_of(out@) + taken(
                                self.reader@,
                            ).messages);
                        },
                    }
                },
                Some(Err(_)) => {},
            }
        }
    }

    /// What sending a screen comes to: the bitmap is the screen, every pixel of
    /// it, and the bytes are the next frame with that bitmap in it.
    pub open spec fn sends(&self, s: ScreenView, after: Packed, bytes: Seq<u8>) -> bool {
        &&& after == (Packed {
            seq: ((self.seq + 1) % 0x10000) as u16,
            bitmap: after.bitmap,
            ..*self
        })
        &&& after.bitmap.w == self.bitmap.w
        &&& after.bitmap.h == self.bitmap.h
        &&& forall|x: int, y: int|
            0 <= x < after.bitmap.w && 0 <= y < after.bitmap.h ==> #[trigger] after.bitmap.lit(x, y)
                == painted(self.painter.face, screen_ops(self.painter, s), x, y, false)
        &&& bytes == (Meaning::Frame {
            seq: after.seq,
            spans: row_spans(
                self.painter,
                s.lines,
                crate::display::paint::rows_drawn(self.painter, s),
            ),
            bits: after.bitmap.bits@,
        }).framed()
    }

    /// Draws a screen on a clean bitmap and gives the bytes of the next frame.
    /// The ink is one bit; which colour it comes out is the pen's business.
    /// None, and nothing is drawn, where a line goes on for longer than the
    /// renderer can count pixels.
    pub fn send(&mut self, screen: &Screen) -> (r: Option<Vec<u8>>)
        requires
            old(self).wf(),
        ensures
            final(self).wf(),
            r is Some <==> stays(
                old(self).painter.face,
                screen_ops(old(self).painter, screen@),
            ),
            r is None ==> *final(self) == *old(self),
            r matches Some(bytes) ==> old(self).sends(screen@, *final(self), bytes@),
    {
        let (ops, _report) = self.painter.draw(screen);
        if !all_stay(self.painter.face, ops.as_slice()) {
            return None;
        }
        self.bitmap.clear_all();
        proof {
            lemma_a_screen_is_placed(self.painter, screen@);
        }
        paint(&mut self.bitmap, self.painter.face, ops.as_slice());
        self.seq = self.seq.wrapping_add(1);
        let frame: Message = Message::Frame {
            seq: self.seq,
            spans: spans_of(&self.painter, screen),
            bits: copied(self.bitmap.bytes()),
        };
        Some(frame.to_bytes())
    }

    /// A frame has been written.
    pub fn sent(&mut self, now: u128)
        requires
            old(self).wf(),
            old(self).outstanding < usize::MAX,
        ensures
            final(self).wf(),
            *final(self) == (Packed {
                outstanding: (old(self).outstanding + 1) as usize,
                sent_at: Some(now),
                ..*old(self)
            }),
    {
        self.outstanding = self.outstanding + 1;
        self.sent_at = Some(now);
    }

    /// What to send for a lighting: where the Pi's intent becomes the panel's
    /// setting. A panel with no levels still blanks, and a brightness set on a
    /// panel that is off changes a register nobody can see, so it is unblanked
    /// first.
    pub fn lighting(&self, want: Lighting) -> (r: Vec<Message>)
        ensures
            messages_of(r@) == lighting_messages(self.declared.brightness_levels, want),
    {
        let levels: u8 = self.declared.brightness_levels;
        let mut out: Vec<Message> = Vec::new();
        match want {
            Lighting::Blank => {
                out.push(Message::Blank(true));
            },
            Lighting::Full => {
                out.push(Message::Blank(false));
                if levels > 0 {
                    out.push(Message::Brightness(levels - 1));
                }
            },
            Lighting::Dim => {
                out.push(Message::Blank(false));
                if levels > 0 {
                    out.push(Message::Brightness(levels / 4));
                }
            },
        }
        assert(messages_of(out@) =~= lighting_messages(levels, want));
        out
    }
}

/// How long ago `at` was.
pub open spec fn since(now: u128, at: u128) -> u128 {
    if now >= at {
        (now - at) as u128
    } else {
        0
    }
}

pub open spec fn lighting_messages(levels: u8, want: Lighting) -> Seq<Meaning> {
    match want {
        Lighting::Blank => seq![Meaning::Blank(true)],
        Lighting::Full => if levels > 0 {
            seq![Meaning::Blank(false), Meaning::Brightness((levels - 1) as u8)]
        } else {
            seq![Meaning::Blank(false)]
        },
        Lighting::Dim => if levels > 0 {
            seq![Meaning::Blank(false), Meaning::Brightness((levels / 4) as u8)]
        } else {
            seq![Meaning::Blank(false)]
        },
    }
}

/// A byte is eight dots, the leftmost in its highest bit.
pub proof fn law_the_leftmost_dot_is_the_highest_bit(byte: u8)
    ensures
        byte == (if bit(byte, 0) { 128int } else { 0 }) + (if bit(byte, 1) { 64int } else { 0 }) + (
        if bit(byte, 2) { 32int } else { 0 }) + (if bit(byte, 3) { 16int } else { 0 }) + (if bit(
            byte,
            4,
        ) { 8int } else { 0 }) + (if bit(byte, 5) { 4int } else { 0 }) + (if bit(byte, 6) {
            2int
        } else {
            0
        }) + (if bit(byte, 7) { 1int } else { 0 }),
{
    assert(byte == 128 * ((byte >> 7u32) & 1u8) + 64 * ((byte >> 6u32) & 1u8) + 32 * ((byte >> 5u32)
        & 1u8) + 16 * ((byte >> 4u32) & 1u8) + 8 * ((byte >> 3u32) & 1u8) + 4 * ((byte >> 2u32)
        & 1u8) + 2 * ((byte >> 1u32) & 1u8) + ((byte >> 0u32) & 1u8)) by (bit_vector);
    assert(forall|k: u32| k < 8 ==> #[trigger] ((byte >> k) & 1u8) <= 1) by (bit_vector);
}

/// What is sent for a lighting: a dark panel is blanked, any other is not; a
/// panel with levels is at its highest when it is lit, and at a quarter of its
/// levels when it is dimmed.
pub proof fn law_how_a_panel_is_lit(levels: u8)
    ensures
        lighting_messages(levels, Lighting::Blank) =~= seq![Meaning::Blank(true)],
        lighting_messages(0, Lighting::Full) =~= seq![Meaning::Blank(false)],
        lighting_messages(0, Lighting::Dim) =~= seq![Meaning::Blank(false)],
        levels > 0 ==> lighting_messages(levels, Lighting::Full) =~= seq![
            Meaning::Blank(false),
            Meaning::Brightness((levels - 1) as u8),
        ],
        levels > 0 ==> (lighting_messages(levels, Lighting::Dim) matches m && m.len() == 2 && m[0]
            == Meaning::Blank(false) && (m[1] matches Meaning::Brightness(b) && 4 * b <= levels < 4
            * b + 4)),
        levels > 1 ==> (lighting_messages(levels, Lighting::Dim)[1] matches Meaning::Brightness(
            b,
        ) && b < levels - 1),
{
}

/// A row that does not simply play has a span of its own across the panel,
/// from its top to the top of the next, in the pen of what it is; a row that
/// plays has none, and the path has the first.
pub proof fn law_every_row_has_its_pen(p: Painter, lines: Seq<LineView>, n: int, i: int)
    requires
        0 <= i < n <= lines.len(),
        on_the_wire(p),
    ensures
        row_spans(p, lines, n).len() >= 1,
        row_spans(p, lines, n)[0] == (Span {
            x0: 0,
            y0: 0,
            x1: p.layout.px_w as u16,
            y1: p.face.cell() as u16,
            pen: Pen::Dim,
        }),
        lines[i].kind == Kind::Folder ==> row_spans(p, lines, n).contains(
            Span {
                x0: 0,
                y0: p.row_top(i) as u16,
                x1: p.layout.px_w as u16,
                y1: (p.row_top(i) + p.face.row()) as u16,
                pen: Pen::Folder,
            },
        ),
        lines[i].kind == Kind::Refused || lines[i].kind == Kind::Unreadable ==> row_spans(
            p,
            lines,
            n,
        ).contains(
            Span {
                x0: 0,
                y0: p.row_top(i) as u16,
                x1: p.layout.px_w as u16,
                y1: (p.row_top(i) + p.face.row()) as u16,
                pen: Pen::Refused,
            },
        ),
        (forall|k: int| 0 <= k < n ==> (#[trigger] lines[k]).kind == Kind::Playable) ==> row_spans(
            p,
            lines,
            n,
        ).len() == 1,
    decreases n,
{
    let now = row_spans(p, lines, n);
    let was = row_spans(p, lines, n - 1);
    if n > 1 {
        if i < n - 1 {
            law_every_row_has_its_pen(p, lines, n - 1, i);
        } else {
            law_every_row_has_its_pen(p, lines, n - 1, 0);
        }
    }
    assert forall|s: Span| #[trigger] was.contains(s) implies now.contains(s) by {
        let k = choose|k: int| 0 <= k < was.len() && was[k] == s;
        assert(now[k] == s);
    }
    if i == n - 1 && lines[i].kind != Kind::Playable {
        assert(now.last() == now[now.len() - 1]);
        assert(now.contains(now[now.len() - 1]));
    }
    assert(lines[n - 1].kind == Kind::Playable ==> now == was);
}

/// What came in is told apart: an answer is counted, any other message is
/// kept, in the order they came, and what is not whole yet waits.
pub proof fn law_answers_are_counted_and_messages_kept(m: Meaning, rest: Seq<u8>)
    requires
        m.sendable(),
    ensures
        m is Ack ==> taken(m.framed() + rest).acks == taken(rest).acks + 1 && taken(
            m.framed() + rest,
        ).messages == taken(rest).messages,
        !(m is Ack) ==> taken(m.framed() + rest).acks == taken(rest).acks && taken(
            m.framed() + rest,
        ).messages == seq![m] + taken(rest).messages,
        taken(m.framed() + rest).rest == taken(rest).rest,
        taken(Seq::empty()).messages.len() == 0 && taken(Seq::empty()).acks == 0,
{
    crate::display::wire::law_every_message_survives_the_wire(m, rest);
    assert(answer_of(Seq::empty()).said is None);
}

/// What is sent is the screen: a frame with the next number, whose dots are the
/// screen's as it is painted and whose spans are those of its rows.
pub proof fn law_what_is_sent_is_the_screen(
    p: Packed,
    s: ScreenView,
    after: Packed,
    bytes: Seq<u8>,
    x: int,
    y: int,
)
    requires
        p.wf(),
        p.sends(s, after, bytes),
        0 <= x < p.painter.layout.px_w,
        0 <= y < p.painter.layout.px_h,
    ensures
        p.seq < 0xffff ==> after.seq == p.seq + 1,
        p.seq == 0xffff ==> after.seq == 0,
        after.bitmap.lit(x, y) <==> painted(
            p.painter.face,
            screen_ops(p.painter, s),
            x,
            y,
            false,
        ),
        exists|spans: Seq<Span>|
            bytes == #[trigger] (Meaning::Frame {
                seq: after.seq,
                spans,
                bits: after.bitmap.bits@,
            }).framed(),
{
}

/// A bitmap is its rows, each of whole bytes, one below the other: the dots of
/// a row are the bits of its bytes from the highest on, and no dot is lit
/// outside.
pub proof fn law_a_bitmap_is_its_rows(b: Bitmap, x: int, y: int)
    requires
        b.wf(),
    ensures
        b.bits@.len() == ((b.w + 7) / 8) * b.h,
        x < 0 || x >= b.w || y < 0 || y >= b.h ==> !b.lit(x, y),
        0 <= x < b.w && 0 <= y < b.h ==> (b.lit(x, y) <==> bit(
            b.bits@[y * ((b.w + 7) / 8) + x / 8],
            (x % 8) as u32,
        )),
{
}

} // verus!
