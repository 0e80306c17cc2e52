//! What crosses the USB link to the Pico, as bytes.
//!
//! No tty and no device: this module turns messages into bytes and bytes back
//! into messages. Each message carries [`MAGIC`], a version, its length and a
//! CRC, and a reader that loses the thread scans forward for the next magic
//! rather than trying to resume. A half-written frame is dropped, never
//! continued.
//!
//! The Pi ships one bit per pixel and never more; colour survives as an
//! attribute, a short list of [`Span`]s beside the bitmap.

use vstd::prelude::*;
use vstd::utf8::encode_utf8;

use crate::text::{text_lossy, text_of};

verus! {

/// Two bytes that start every message.
pub const MAGIC: [u8; 2] = [68, 80];

/// Bumped when the layout of any message changes. A Pico speaking another
/// version is refused rather than parsed hopefully.
pub const VERSION: u8 = 1;

/// Header: magic, version, kind, length. The CRC follows the payload.
pub const HEADER: usize = 6;

/// A ceiling on a declared payload, so a corrupt length cannot make the reader
/// wait for bytes that are not coming. It has to be under what the two length
/// bytes can say, or it could never be crossed.
pub const MAX_PAYLOAD: usize = 16384;

/// Which message this is.
#[derive(Debug, Clone, Copy, PartialEq, Eq, Structural)]
pub enum Kind {
    Hello,
    Declare,
    Frame,
    Ack,
    Fault,
    Brightness,
    Blank,
}

impl Kind {
    /// The byte a kind is written as.
    pub open spec fn code(self) -> u8 {
        match self {
            Kind::Hello => 1,
            Kind::Declare => 2,
            Kind::Frame => 3,
            Kind::Ack => 4,
            Kind::Fault => 5,
            Kind::Brightness => 6,
            Kind::Blank => 7,
        }
    }

    fn to_u8(self) -> (r: u8)
        ensures
            r == self.code(),
    {
        match self {
            Kind::Hello => 1,
            Kind::Declare => 2,
            Kind::Frame => 3,
            Kind::Ack => 4,
            Kind::Fault => 5,
            Kind::Brightness => 6,
            Kind::Blank => 7,
        }
    }

    fn from_u8(v: u8) -> (r: Option<Kind>)
        ensures
            r == kind_of_code(v),
    {
        match v {
            1 => Some(Kind::Hello),
            2 => Some(Kind::Declare),
            3 => Some(Kind::Frame),
            4 => Some(Kind::Ack),
            5 => Some(Kind::Fault),
            6 => Some(Kind::Brightness),
            7 => Some(Kind::Blank),
            _ => None,
        }
    }
}

/// The kind a byte names, if it names one.
pub open spec fn kind_of_code(v: u8) -> Option<Kind> {
    if v == 1 {
        Some(Kind::Hello)
    } else if v == 2 {
        Some(Kind::Declare)
    } else if v == 3 {
        Some(Kind::Frame)
    } else if v == 4 {
        Some(Kind::Ack)
    } else if v == 5 {
        Some(Kind::Fault)
    } else if v == 6 {
        Some(Kind::Brightness)
    } else if v == 7 {
        Some(Kind::Blank)
    } else {
        None
    }
}

/// Which pen a region is drawn in.
///
/// Not a colour: the Pi says what the region means and the Pico decides what
/// that looks like. On a mono panel every one of these is "on".
#[derive(Debug, Clone, Copy, PartialEq, Eq, Structural)]
pub enum Pen {
    /// Ordinary text.
    Fg,
    /// The path line, which a colour panel can sink into the background.
    Dim,
    Folder,
    /// Refused and unreadable both. The mono marks carry which.
    Refused,
}

impl Pen {
    /// The byte a pen is written as.
    pub open spec fn code(self) -> u8 {
        match self {
            Pen::Fg => 0,
            Pen::Dim => 1,
            Pen::Folder => 2,
            Pen::Refused => 3,
        }
    }

    fn to_u8(self) -> (r: u8)
        ensures
            r == self.code(),
    {
        match self {
            Pen::Fg => 0,
            Pen::Dim => 1,
            Pen::Folder => 2,
            Pen::Refused => 3,
        }
    }

    fn from_u8(v: u8) -> (r: Option<Pen>)
        ensures
            r == pen_of_code(v),
    {
        match v {
            0 => Some(Pen::Fg),
            1 => Some(Pen::Dim),
            2 => Some(Pen::Folder),
            3 => Some(Pen::Refused),
            _ => None,
        }
    }
}

/// The pen a byte names, if it names one.
pub open spec fn pen_of_code(v: u8) -> Option<Pen> {
    if v == 0 {
        Some(Pen::Fg)
    } else if v == 1 {
        Some(Pen::Dim)
    } else if v == 2 {
        Some(Pen::Folder)
    } else if v == 3 {
        Some(Pen::Refused)
    } else {
        None
    }
}

/// A rectangle of the frame drawn in one pen.
#[derive(Debug, Clone, Copy, PartialEq, Eq, Structural)]
pub struct Span {
    pub x0: u16,
    pub y0: u16,
    /// Exclusive.
    pub x1: u16,
    /// Exclusive.
    pub y1: u16,
    pub pen: Pen,
}

/// What the Pico says it has.
#[derive(Debug, Clone, Copy, PartialEq, Eq, Structural)]
pub struct Declared {
    /// Zero means no panel. A real state, not an error: the Pico carries the
    /// controls whether or not anything is plugged into its display pins.
    pub px_w: u16,
    pub px_h: u16,
    /// Whether the pens mean anything. A mono panel ignores them.
    pub colour: bool,
    /// Whether the Pico can take a rectangle instead of a whole frame.
    pub partial: bool,
    /// Steps of brightness, 0 for a panel with no such control.
    pub brightness_levels: u8,
    /// The largest payload the Pico will buffer.
    pub max_payload: u16,
}

impl Declared {
    pub fn has_panel(&self) -> (r: bool)
        ensures
            r == (self.px_w > 0 && self.px_h > 0),
    {
        self.px_w > 0 && self.px_h > 0
    }
}

/// One message.
#[derive(Debug, Clone, PartialEq, Eq)]
pub enum Message {
    /// Pi to Pico: are you there, and what have you got.
    Hello,
    /// Pico to Pi, after its panel is up.
    Declare(Declared),
    /// Pi to Pico: a whole frame, 1 bpp, rows padded to whole bytes,
    /// most-significant bit leftmost.
    Frame { seq: u16, spans: Vec<Span>, bits: Vec<u8> },
    /// Pico to Pi: got frame `seq` at `micros` on its own clock.
    Ack { seq: u16, micros: u32 },
    /// Pico to Pi: the panel has gone or will not init.
    Fault { code: u8, reason: String },
    /// Pi to Pico: brightness step, 0 for darkest.
    Brightness(u8),
    /// Pi to Pico: blank the panel.
    Blank(bool),
}

/// A message as a mathematical value: what two equal messages share.
pub enum Meaning {
    Hello,
    Declare(Declared),
    Frame { seq: u16, spans: Seq<Span>, bits: Seq<u8> },
    Ack { seq: u16, micros: u32 },
    Fault { code: u8, reason: Seq<char> },
    Brightness(u8),
    Blank(bool),
}

impl View for Message {
    type V = Meaning;

    open spec fn view(&self) -> Meaning {
        match *self {
            Message::Hello => Meaning::Hello,
            Message::Declare(d) => Meaning::Declare(d),
            Message::Frame { seq, spans, bits } => Meaning::Frame {
                seq,
                spans: spans@,
                bits: bits@,
            },
            Message::Ack { seq, micros } => Meaning::Ack { seq, micros },
            Message::Fault { code, reason } => Meaning::Fault { code, reason: reason@ },
            Message::Brightness(n) => Meaning::Brightness(n),
            Message::Blank(on) => Meaning::Blank(on),
        }
    }
}

impl Meaning {
    pub open spec fn kind(self) -> Kind {
        match self {
            Meaning::Hello => Kind::Hello,
            Meaning::Declare(_) => Kind::Declare,
            Meaning::Frame { .. } => Kind::Frame,
            Meaning::Ack { .. } => Kind::Ack,
            Meaning::Fault { .. } => Kind::Fault,
            Meaning::Brightness(_) => Kind::Brightness,
            Meaning::Blank(_) => Kind::Blank,
        }
    }

    /// The bytes between the header and the CRC.
    pub open spec fn payload(self) -> Seq<u8> {
        match self {
            Meaning::Hello => Seq::empty(),
            Meaning::Declare(d) => le16(d.px_w as int) + le16(d.px_h as int) + seq![
                flags_of(d.colour, d.partial),
                d.brightness_levels,
            ] + le16(d.max_payload as int),
            Meaning::Frame { seq, spans, bits } => le16(seq as int) + le16(
                spans.len() as int % 0x10000,
            ) + spans_bytes(spans) + bits,
            Meaning::Ack { seq, micros } => le16(seq as int) + le16(micros as int % 0x10000)
                + le16(micros as int / 0x10000),
            Meaning::Fault { code, reason } => seq![code] + encode_utf8(reason),
            Meaning::Brightness(n) => seq![n],
            Meaning::Blank(on) => seq![if on { 1u8 } else { 0u8 }],
        }
    }

    /// Everything that goes on the wire for this message.
    pub open spec fn framed(self) -> Seq<u8> {
        frame_bytes(self.kind(), self.payload())
    }

    /// Whether the length field can carry it, and the reader will take it.
    pub open spec fn sendable(self) -> bool {
        self.payload().len() <= MAX_PAYLOAD
    }
}

/// What the CRC covers: everything but the magic, which is what a resync
/// searches for.
pub open spec fn checked_bytes(kind: Kind, payload: Seq<u8>) -> Seq<u8> {
    seq![VERSION, kind.code()] + le16(payload.len() as int % 0x10000) + payload
}

/// A payload with its header and its CRC.
pub open spec fn frame_bytes(kind: Kind, payload: Seq<u8>) -> Seq<u8> {
    MAGIC@ + checked_bytes(kind, payload) + le16(crc_of(checked_bytes(kind, payload)) as int)
}

/// Sixteen bits, least significant byte first.
pub open spec fn le16(x: int) -> Seq<u8> {
    seq![(x % 256) as u8, (x / 256 % 256) as u8]
}

/// The sixteen bits that start at `i`.
pub open spec fn at16(p: Seq<u8>, i: int) -> u16 {
    (p[i] + 256 * p[i + 1]) as u16
}

pub open spec fn flags_of(colour: bool, partial: bool) -> u8 {
    if colour {
        if partial {
            3
        } else {
            1
        }
    } else if partial {
        2
    } else {
        0
    }
}

pub open spec fn span_bytes(s: Span) -> Seq<u8> {
    le16(s.x0 as int) + le16(s.y0 as int) + le16(s.x1 as int) + le16(s.y1 as int) + seq![
        s.pen.code(),
    ]
}

/// Nine bytes a span, one after another.
pub open spec fn spans_bytes(spans: Seq<Span>) -> Seq<u8> {
    Seq::new(9 * spans.len(), |i: int| span_bytes(spans[i / 9])[i % 9])
}

pub open spec fn span_at(p: Seq<u8>, at: int) -> Span {
    Span {
        x0: at16(p, at),
        y0: at16(p, at + 2),
        x1: at16(p, at + 4),
        y1: at16(p, at + 6),
        pen: pen_of_code(p[at + 8])->0,
    }
}

/// The CRC register after one bit has been shifted out.
pub open spec fn crc_bit(crc: u16) -> u16 {
    if crc & 0x8000 != 0 {
        (crc << 1) ^ 0x1021
    } else {
        crc << 1
    }
}

pub open spec fn crc_bits(crc: u16, n: nat) -> u16
    decreases n,
{
    if n == 0 {
        crc
    } else {
        crc_bit(crc_bits(crc, (n - 1) as nat))
    }
}

/// CRC-16/CCITT-FALSE: each byte enters at the top of the register and is
/// shifted out through the polynomial.
pub open spec fn crc_of(bytes: Seq<u8>) -> u16
    decreases bytes.len(),
{
    if bytes.len() == 0 {
        0xFFFF
    } else {
        crc_bits(crc_of(bytes.drop_last()) ^ ((bytes.last() as u16) << 8), 8)
    }
}

/// CRC-16/CCITT-FALSE. The constant is the one every embedded toolchain has.
pub fn crc16(bytes: &[u8]) -> (r: u16)
    ensures
        r == crc_of(bytes@),
{
    let mut crc: u16 = 0xFFFF;
    let mut i: usize = 0;
    while i < bytes.len()
        invariant
            i <= bytes@.len(),
            crc == crc_of(bytes@.take(i as int)),
        decreases bytes@.len() - i,
    {
        proof {
            assert(bytes@.take(i + 1).drop_last() =~= bytes@.take(i as int));
            assert(bytes@.take(i + 1).last() == bytes@[i as int]);
        }
        let entered: u16 = crc ^ ((bytes[i] as u16) << 8);
        crc = entered;
        let mut bit: u8 = 0;
        while bit < 8
            invariant
                bit <= 8,
                crc == crc_bits(entered, bit as nat),
            decreases 8 - bit,
        {
            crc = if crc & 0x8000 != 0 {
                (crc << 1) ^ 0x1021
            } else {
                crc << 1
            };
            bit = bit + 1;
        }
        i = i + 1;
    }
    assert(bytes@.take(bytes@.len() as int) =~= bytes@);
    crc
}

fn push_u16(out: &mut Vec<u8>, x: u16)
    ensures
        final(out)@ == old(out)@ + le16(x as int),
{
    out.push((x % 256) as u8);
    out.push((x / 256) as u8);
    assert(out@ =~= old(out)@ + le16(x as int));
}

/// The sixteen bits at `i`, or `None` where the payload is too short for them.
fn u16_at(p: &[u8], i: usize) -> (r: Option<u16>)
    requires
        i < usize::MAX,
    ensures
        r == (if i + 1 < p@.len() {
            Some(at16(p@, i as int))
        } else {
            None
        }),
{
    if i + 1 < p.len() {
        Some(p[i] as u16 + 256 * (p[i + 1] as u16))
    } else {
        None
    }
}

fn byte_at(p: &[u8], i: usize) -> (r: Option<u8>)
    ensures
        r == (if i < p@.len() {
            Some(p@[i as int])
        } else {
            None
        }),
{
    if i < p.len() {
        Some(p[i])
    } else {
        None
    }
}

fn bytes_from(p: &[u8], from: usize) -> (r: Vec<u8>)
    requires
        from <= p@.len(),
    ensures
        r@ == p@.skip(from as int),
{
    let mut out: Vec<u8> = Vec::new();
    let mut i: usize = from;
    while i < p.len()
        invariant
            from <= i <= p@.len(),
            out@ == p@.subrange(from as int, i as int),
        decreases p@.len() - i,
    {
        out.push(p[i]);
        assert(out@ =~= p@.subrange(from as int, i + 1));
        i = i + 1;
    }
    assert(p@.subrange(from as int, p@.len() as int) =~= p@.skip(from as int));
    out
}

/// The pen of the span at index `i` of a frame's payload, if it is a known one.
pub open spec fn pen_at(p: Seq<u8>, i: int) -> Option<Pen> {
    pen_of_code(p[12 + 9 * i])
}

/// Whether a payload has room for the spans it declares, every pen known.
pub open spec fn frame_readable(p: Seq<u8>) -> bool {
    &&& p.len() >= 4
    &&& p.len() >= 4 + 9 * at16(p, 2)
    &&& forall|i: int| 0 <= i < at16(p, 2) ==> (#[trigger] pen_at(p, i)) is Some
}

/// The message a payload of this kind carries, if it carries one. Bytes past
/// what a fixed-size message needs are ignored.
#[verifier::opaque]
pub open spec fn message_of(kind: Kind, p: Seq<u8>) -> Option<Meaning> {
    match kind {
        Kind::Hello => Some(Meaning::Hello),
        Kind::Declare => if p.len() >= 8 {
            Some(
                Meaning::Declare(
                    Declared {
                        px_w: at16(p, 0),
                        px_h: at16(p, 2),
                        colour: p[4] % 2 == 1,
                        partial: p[4] / 2 % 2 == 1,
                        brightness_levels: p[5],
                        max_payload: at16(p, 6),
                    },
                ),
            )
        } else {
            None
        },
        Kind::Frame => if frame_readable(p) {
            Some(
                Meaning::Frame {
                    seq: at16(p, 0),
                    spans: Seq::new(at16(p, 2) as nat, |i: int| span_at(p, 4 + 9 * i)),
                    bits: p.skip(4 + 9 * at16(p, 2)),
                },
            )
        } else {
            None
        },
        Kind::Ack => if p.len() >= 6 {
            Some(
                Meaning::Ack {
                    seq: at16(p, 0),
                    micros: (at16(p, 2) + 0x10000 * at16(p, 4)) as u32,
                },
            )
        } else {
            None
        },
        Kind::Fault => if p.len() >= 1 {
            Some(Meaning::Fault { code: p[0], reason: text_of(p.skip(1)) })
        } else {
            None
        },
        Kind::Brightness => if p.len() >= 1 {
            Some(Meaning::Brightness(p[0]))
        } else {
            None
        },
        Kind::Blank => if p.len() >= 1 {
            Some(Meaning::Blank(p[0] != 0))
        } else {
            None
        },
    }
}

/// An optional message as an optional meaning.
pub open spec fn meaning_of(m: Option<Message>) -> Option<Meaning> {
    match m {
        Some(m) => Some(m@),
        None => None,
    }
}

impl Message {
    fn kind(&self) -> (r: Kind)
        ensures
            r == self@.kind(),
    {
        match self {
            Message::Hello => Kind::Hello,
            Message::Declare(_) => Kind::Declare,
            Message::Frame { .. } => Kind::Frame,
            Message::Ack { .. } => Kind::Ack,
            Message::Fault { .. } => Kind::Fault,
            Message::Brightness(_) => Kind::Brightness,
            Message::Blank(_) => Kind::Blank,
        }
    }

    fn payload(&self, out: &mut Vec<u8>)
        ensures
            final(out)@ == old(out)@ + self@.payload(),
    {
        match self {
            Message::Hello => {
                assert(out@ =~= old(out)@ + self@.payload());
            },
            Message::Declare(d) => {
                push_u16(out, d.px_w);
                push_u16(out, d.px_h);
                let flags: u8 = if d.colour {
                    if d.partial {
                        3
                    } else {
                        1
                    }
                } else if d.partial {
                    2
                } else {
                    0
                };
                out.push(flags);
                out.push(d.brightness_levels);
                push_u16(out, d.max_payload);
                assert(out@ =~= old(out)@ + self@.payload());
            },
            Message::Frame { seq, spans, bits } => {
                push_u16(out, *seq);
                push_u16(out, (spans.len() % 0x10000) as u16);
                let ghost before = out@;
                let mut i: usize = 0;
                assert(before + spans_bytes(spans@.take(0)) =~= before);
                while i < spans.len()
                    invariant
                        i <= spans@.len(),
                        out@ == before + spans_bytes(spans@.take(i as int)),
                    decreases spans@.len() - i,
                {
                    let s: Span = spans[i];
                    push_u16(out, s.x0);
                    push_u16(out, s.y0);
                    push_u16(out, s.x1);
                    push_u16(out, s.y1);
                    out.push(s.pen.to_u8());
                    proof {
                        lemma_spans_bytes_push(spans@.take(i as int), s);
                        assert(spans@.take(i + 1) =~= spans@.take(i as int).push(s));
                        assert(out@ =~= before + spans_bytes(spans@.take(i as int)) + span_bytes(
                            s,
                        ));
                        assert(out@ =~= before + spans_bytes(spans@.take(i + 1)));
                    }
                    i = i + 1;
                }
                assert(spans@.take(spans@.len() as int) =~= spans@);
                let ghost with_spans = out@;
                out.extend_from_slice(bits.as_slice());
                assert(out@ =~= with_spans + bits@);
                assert(out@ =~= old(out)@ + self@.payload());
            },
            Message::Ack { seq, micros } => {
                push_u16(out, *seq);
                push_u16(out, (*micros % 0x10000) as u16);
                push_u16(out, (*micros / 0x10000) as u16);
                assert(out@ =~= old(out)@ + self@.payload());
            },
            Message::Fault { code, reason } => {
                out.push(*code);
                let ghost coded = out@;
                out.extend_from_slice(reason.as_str().as_bytes());
                assert(out@ =~= coded + encode_utf8(reason@));
                assert(out@ =~= old(out)@ + self@.payload());
            },
            Message::Brightness(n) => {
                out.push(*n);
                assert(out@ =~= old(out)@ + self@.payload());
            },
            Message::Blank(on) => {
                out.push(if *on {
                    1
                } else {
                    0
                });
                assert(out@ =~= old(out)@ + self@.payload());
            },
        }
    }

    /// Appends the framed message.
    pub fn encode(&self, out: &mut Vec<u8>)
        ensures
            final(out)@ == old(out)@ + self@.framed(),
    {
        let mut payload: Vec<u8> = Vec::new();
        self.payload(&mut payload);
        assert(payload@ =~= self@.payload());
        let mut checked: Vec<u8> = Vec::new();
        checked.push(VERSION);
        checked.push(self.kind().to_u8());
        push_u16(&mut checked, (payload.len() % 0x10000) as u16);
        checked.append(&mut payload);
        assert(checked@ =~= checked_bytes(self@.kind(), self@.payload()));
        // Over everything but the magic: the magic is what a resync searches
        // for, so covering it would only check that the search worked.
        let crc: u16 = crc16(checked.as_slice());
        out.push(MAGIC[0]);
        out.push(MAGIC[1]);
        out.append(&mut checked);
        push_u16(out, crc);
        assert(out@ =~= old(out)@ + self@.framed());
    }

    pub fn to_bytes(&self) -> (r: Vec<u8>)
        ensures
            r@ == self@.framed(),
    {
        let mut v: Vec<u8> = Vec::new();
        self.encode(&mut v);
        assert(v@ =~= self@.framed());
        v
    }

    fn decode(kind: Kind, p: &[u8]) -> (r: Option<Message>)
        ensures
            meaning_of(r) == message_of(kind, p@),
    {
        reveal(message_of);
        match kind {
            Kind::Hello => Some(Message::Hello),
            Kind::Declare => {
                if p.len() < 8 {
                    return None;
                }
                Some(
                    Message::Declare(
                        Declared {
                            px_w: u16_at(p, 0)?,
                            px_h: u16_at(p, 2)?,
                            colour: p[4] % 2 == 1,
                            partial: p[4] / 2 % 2 == 1,
                            brightness_levels: p[5],
                            max_payload: u16_at(p, 6)?,
                        },
                    ),
                )
            },
            Kind::Frame => {
                let seq: u16 = u16_at(p, 0)?;
                let n: u16 = u16_at(p, 2)?;
                let mut spans: Vec<Span> = Vec::new();
                let mut at: usize = 4;
                let mut i: u16 = 0;
                while i < n
                    invariant
                        kind == Kind::Frame,
                        i <= n,
                        p@.len() >= 4,
                        n == at16(p@, 2),
                        at == 4 + 9 * i,
                        at <= p@.len(),
                        spans@ == Seq::new(i as nat, |j: int| span_at(p@, 4 + 9 * j)),
                        forall|j: int| 0 <= j < i ==> (#[trigger] pen_at(p@, j)) is Some,
                    decreases n - i,
                {
                    reveal(message_of);
                    if p.len() - at < 9 {
                        assert(!frame_readable(p@));
                        return None;
                    }
                    match Pen::from_u8(p[at + 8]) {
                        None => {
                            assert(pen_at(p@, i as int) is None);
                            assert(!frame_readable(p@));
                            return None;
                        },
                        Some(pen) => {
                            spans.push(
                                Span {
                                    x0: u16_at(p, at)?,
                                    y0: u16_at(p, at + 2)?,
                                    x1: u16_at(p, at + 4)?,
                                    y1: u16_at(p, at + 6)?,
                                    pen,
                                },
                            );
                            assert(pen_at(p@, i as int) is Some);
                            assert(spans@ =~= Seq::new(
                                (i + 1) as nat,
                                |j: int| span_at(p@, 4 + 9 * j),
                            ));
                        },
                    }
                    at = at + 9;
                    i = i + 1;
                }
                assert(frame_readable(p@));
                let bits: Vec<u8> = bytes_from(p, at);
                Some(Message::Frame { seq, spans, bits })
            },
            Kind::Ack => {
                let seq: u16 = u16_at(p, 0)?;
                let low: u16 = u16_at(p, 2)?;
                let high: u16 = u16_at(p, 4)?;
                Some(Message::Ack { seq, micros: low as u32 + 0x10000 * (high as u32) })
            },
            Kind::Fault => {
                let code: u8 = byte_at(p, 0)?;
                let rest: Vec<u8> = bytes_from(p, 1);
                Some(Message::Fault { code, reason: text_lossy(rest.as_slice()) })
            },
            Kind::Brightness => Some(Message::Brightness(byte_at(p, 0)?)),
            Kind::Blank => Some(Message::Blank(byte_at(p, 0)? != 0)),
        }
    }
}

proof fn lemma_spans_bytes_push(spans: Seq<Span>, s: Span)
    ensures
        spans_bytes(spans.push(s)) == spans_bytes(spans) + span_bytes(s),
{
    let all = spans_bytes(spans.push(s));
    let sum = spans_bytes(spans) + span_bytes(s);
    assert forall|i: int| 0 <= i < all.len() implies all[i] == sum[i] by {
        if i < 9 * spans.len() {
            assert(spans.push(s)[i / 9] == spans[i / 9]);
        } else {
            assert(i / 9 == spans.len());
            assert(i % 9 == i - 9 * spans.len());
        }
    }
    assert(all =~= sum);
}

/// Why a read did not produce a message.
#[derive(Debug, Clone, Copy, PartialEq, Eq, Structural)]
pub enum Broken {
    /// A version this build does not speak.
    Version(u8),
    /// A length past [`MAX_PAYLOAD`], which is corruption rather than a big
    /// message.
    Length(usize),
    /// The header parsed and the CRC did not match. The reader has already
    /// resynchronised past it.
    Crc,
    /// A kind or a payload this build cannot make sense of.
    Malformed,
}

/// Where the magic first stands at or after `from`.
pub open spec fn first_magic(buf: Seq<u8>, from: int) -> Option<int>
    decreases buf.len() - from,
{
    if from + 1 >= buf.len() {
        None
    } else if buf[from] == MAGIC[0] && buf[from + 1] == MAGIC[1] {
        Some(from)
    } else {
        first_magic(buf, from + 1)
    }
}

/// One answer of the reader: what it says, the bytes it keeps, and how many it
/// threw away hunting for a magic.
pub struct Answer {
    pub said: Option<Result<Meaning, Broken>>,
    pub rest: Seq<u8>,
    pub resyncs: nat,
}

/// The answer to bytes that start with the magic.
pub open spec fn answer_at_magic(b: Seq<u8>) -> Answer {
    let len = at16(b, 4) as int;
    if b.len() < HEADER {
        Answer { said: None, rest: b, resyncs: 0 }
    } else if b[2] != VERSION {
        Answer { said: Some(Err(Broken::Version(b[2]))), rest: b.skip(1), resyncs: 1 }
    } else if len > MAX_PAYLOAD {
        Answer { said: Some(Err(Broken::Length(len as usize))), rest: b.skip(1), resyncs: 1 }
    } else if b.len() < HEADER + len + 2 {
        Answer { said: None, rest: b, resyncs: 0 }
    } else if crc_of(b.subrange(2, HEADER + len)) != at16(b, HEADER + len) {
        Answer { said: Some(Err(Broken::Crc)), rest: b.skip(1), resyncs: 1 }
    } else {
        let message = match kind_of_code(b[3]) {
            Some(kind) => message_of(kind, b.subrange(HEADER as int, HEADER + len)),
            None => None,
        };
        Answer {
            said: Some(
                match message {
                    Some(m) => Ok(m),
                    None => Err(Broken::Malformed),
                },
            ),
            rest: b.skip(HEADER + len + 2),
            resyncs: 0,
        }
    }
}

/// The answer to whatever the buffer holds.
pub open spec fn answer_of(buf: Seq<u8>) -> Answer {
    match first_magic(buf, 0) {
        None => Answer { said: None, rest: buf, resyncs: 0 },
        Some(at) => {
            let a = answer_at_magic(buf.skip(at));
            Answer { resyncs: a.resyncs + at as nat, ..a }
        },
    }
}

/// What `next_message` returned, as meanings.
pub open spec fn said(r: Option<Result<Message, Broken>>) -> Option<Result<Meaning, Broken>> {
    match r {
        None => None,
        Some(Ok(m)) => Some(Ok(m@)),
        Some(Err(e)) => Some(Err(e)),
    }
}

/// Pulls messages out of a byte stream, resynchronising when it has to.
///
/// Holds its own buffer because a serial read returns whatever arrived, which
/// is routinely a fraction of a frame or several frames at once.
pub struct Reader {
    /// The bytes fed and not yet consumed.
    pub buf: Vec<u8>,
    /// Bytes thrown away hunting for a magic. Non-zero means the link produced
    /// garbage, which is worth surfacing rather than smoothing.
    pub resyncs: u64,
}

impl View for Reader {
    type V = Seq<u8>;

    open spec fn view(&self) -> Seq<u8> {
        self.buf@
    }
}

impl Default for Reader {
    fn default() -> (r: Reader)
        ensures
            r@ == Seq::<u8>::empty(),
            r.resyncs == 0,
    {
        Reader { buf: Vec::new(), resyncs: 0 }
    }
}

impl Reader {
    pub fn new() -> (r: Reader)
        ensures
            r@ == Seq::<u8>::empty(),
            r.resyncs == 0,
    {
        Reader { buf: Vec::new(), resyncs: 0 }
    }

    pub fn feed(&mut self, bytes: &[u8])
        ensures
            final(self)@ == old(self)@ + bytes@,
            final(self).resyncs == old(self).resyncs,
    {
        self.buf.extend_from_slice(bytes);
        assert(self.buf@ =~= old(self).buf@ + bytes@);
    }

    /// Feeds the first `n` bytes of `chunk`, which is what a read of a port
    /// filled in, and says how many that was. Zero is nothing to read.
    pub fn fill_from(&mut self, chunk: &[u8], n: usize) -> (r: usize)
        requires
            n <= chunk@.len(),
        ensures
            r == n,
            final(self)@ == old(self)@ + chunk@.take(n as int),
            final(self).resyncs == old(self).resyncs,
    {
        let read = vstd::slice::slice_subrange(chunk, 0, n);
        assert(read@ =~= chunk@.take(n as int));
        self.feed(read);
        n
    }

    /// The next complete message, or `None` when more bytes are needed.
    ///
    /// Returns at most one thing. A caller that wants everything available
    /// calls this until it answers `None`, and every rejection is one of those
    /// answers rather than something swallowed on the way to a good frame.
    pub fn next_message(&mut self) -> (r: Option<Result<Message, Broken>>)
        requires
            old(self).resyncs + old(self)@.len() <= u64::MAX,
        ensures
            said(r) == answer_of(old(self)@).said,
            final(self)@ == answer_of(old(self)@).rest,
            final(self).resyncs == old(self).resyncs + answer_of(old(self)@).resyncs,
    {
        let at: usize = self.find_magic()?;
        let ghost b = self.buf@.skip(at as int);
        if at > 0 {
            self.drop_front(at);
            self.resyncs = self.resyncs + at as u64;
        }
        assert(self.buf@ =~= b);
        if self.buf.len() < HEADER {
            return None;
        }
        let version: u8 = self.buf[2];
        if version != VERSION {
            self.drop_one();
            return Some(Err(Broken::Version(version)));
        }
        let len: usize = self.buf[4] as usize + 256 * (self.buf[5] as usize);
        if len > MAX_PAYLOAD {
            self.drop_one();
            return Some(Err(Broken::Length(len)));
        }
        let total: usize = HEADER + len + 2;
        if self.buf.len() < total {
            return None;
        }
        let crc_at: usize = HEADER + len;
        let want: u16 = self.buf[crc_at] as u16 + 256 * (self.buf[crc_at + 1] as u16);
        if crc16(vstd::slice::slice_subrange(self.buf.as_slice(), 2, crc_at)) != want {
            self.drop_one();
            return Some(Err(Broken::Crc));
        }
        let message: Option<Message> = match Kind::from_u8(self.buf[3]) {
            Some(kind) => Message::decode(
                kind,
                vstd::slice::slice_subrange(self.buf.as_slice(), HEADER, crc_at),
            ),
            None => None,
        };
        self.drop_front(total);
        match message {
            Some(m) => Some(Ok(m)),
            None => Some(Err(Broken::Malformed)),
        }
    }

    fn drop_front(&mut self, n: usize)
        requires
            n <= old(self)@.len(),
        ensures
            final(self)@ == old(self)@.skip(n as int),
            final(self).resyncs == old(self).resyncs,
    {
        let rest = self.buf.split_off(n);
        self.buf = rest;
        assert(self.buf@ =~= old(self).buf@.skip(n as int));
    }

    /// Past the magic that just failed, so the scan cannot settle on it again.
    fn drop_one(&mut self)
        requires
            old(self)@.len() >= 1,
            old(self).resyncs < u64::MAX,
        ensures
            final(self)@ == old(self)@.skip(1),
            final(self).resyncs == old(self).resyncs + 1,
    {
        self.drop_front(1);
        self.resyncs = self.resyncs + 1;
    }

    fn find_magic(&self) -> (r: Option<usize>)
        ensures
            r is None <==> first_magic(self@, 0) is None,
            r matches Some(at) ==> first_magic(self@, 0) == Some(at as int) && at + 1
                < self@.len(),
    {
        let mut i: usize = 0;
        while i < self.buf.len() && self.buf.len() - i >= 2
            invariant
                i <= self.buf@.len(),
                first_magic(self.buf@, 0) == first_magic(self.buf@, i as int),
            decreases self.buf@.len() - i,
        {
            if self.buf[i] == MAGIC[0] && self.buf[i + 1] == MAGIC[1] {
                return Some(i);
            }
            i = i + 1;
        }
        None
    }
}

/// What the handshake does next.
#[derive(Debug, Clone, Copy, PartialEq, Eq, Structural)]
pub enum Handshake {
    /// The Pico has declared what it has.
    Declared(Declared),
    /// The deadline has passed without a declaration.
    TimedOut,
    /// Nothing yet: read the port again.
    Read,
}

/// The first declaration among the messages the buffer holds, what is left
/// once everything up to it, or everything, has been consumed, and how many
/// bytes were thrown away on the way.
pub open spec fn declared_in(buf: Seq<u8>) -> (Option<Declared>, Seq<u8>, nat)
    decreases buf.len(),
{
    proof {
        law_every_answer_consumes(buf);
    }
    let a = answer_of(buf);
    match a.said {
        None => (None, a.rest, a.resyncs),
        Some(Ok(Meaning::Declare(d))) => (Some(d), a.rest, a.resyncs),
        Some(_) => {
            let later = declared_in(a.rest);
            (later.0, later.1, a.resyncs + later.2)
        },
    }
}

/// One turn of waiting for the [`Message::Declare`] that answers a
/// [`Message::Hello`].
///
/// Anything else the Pico says on the way, a fault or a late acknowledgement
/// from a previous run, is skipped rather than treated as the answer.
pub fn handshake(reader: &mut Reader, timed_out: bool) -> (r: Handshake)
    requires
        old(reader).resyncs + old(reader)@.len() <= u64::MAX,
    ensures
        r == (match declared_in(old(reader)@).0 {
            Some(d) => Handshake::Declared(d),
            None => if timed_out {
                Handshake::TimedOut
            } else {
                Handshake::Read
            },
        }),
        final(reader)@ == declared_in(old(reader)@).1,
        final(reader).resyncs == old(reader).resyncs + declared_in(old(reader)@).2,
{
    loop
        invariant
            declared_in(reader@).0 == declared_in(old(reader)@).0,
            declared_in(reader@).1 == declared_in(old(reader)@).1,
            reader.resyncs + declared_in(reader@).2 == old(reader).resyncs + declared_in(
                old(reader)@,
            ).2,
            reader.resyncs + reader@.len() <= u64::MAX,
        decreases reader@.len(),
    {
        proof {
            law_every_answer_consumes(reader@);
        }
        match reader.next_message() {
            Some(Ok(Message::Declare(d))) => {
                return Handshake::Declared(d);
            },
            // Everything else is noise at this point in the conversation.
            Some(_) => {},
            None => {
                return if timed_out {
                    Handshake::TimedOut
                } else {
                    Handshake::Read
                };
            },
        }
    }
}

/// Where `first_magic` settles is past where it started, inside the bytes.
proof fn lemma_first_magic(buf: Seq<u8>, from: int)
    requires
        0 <= from,
    ensures
        first_magic(buf, from) matches Some(at) ==> from <= at && at + 1 < buf.len() && buf[at]
            == MAGIC[0] && buf[at + 1] == MAGIC[1],
    decreases buf.len() - from,
{
    if from + 1 < buf.len() && !(buf[from] == MAGIC[0] && buf[from + 1] == MAGIC[1]) {
        lemma_first_magic(buf, from + 1);
    }
}

/// Every answer but "more bytes are needed" consumes at least one byte, so a
/// caller that asks until there is none left always comes to an end; and an
/// answer never counts a byte as thrown away that it did not consume.
pub proof fn law_every_answer_consumes(buf: Seq<u8>)
    ensures
        answer_of(buf).said is Some ==> answer_of(buf).rest.len() < buf.len(),
        answer_of(buf).rest.len() <= buf.len(),
        answer_of(buf).resyncs + answer_of(buf).rest.len() <= buf.len(),
{
    lemma_first_magic(buf, 0);
}

proof fn lemma_at16_of_le16(p: Seq<u8>, at: int, x: int)
    requires
        0 <= x < 0x10000,
        0 <= at,
        at + 1 < p.len(),
        p[at] == le16(x)[0],
        p[at + 1] == le16(x)[1],
    ensures
        at16(p, at) == x,
{
}

/// Where a payload holds the nine bytes of a span, reading gives it back.
proof fn lemma_span_read_back(p: Seq<u8>, at: int, s: Span)
    requires
        0 <= at,
        at + 9 <= p.len(),
        p.subrange(at, at + 9) == span_bytes(s),
    ensures
        span_at(p, at) == s,
        pen_of_code(p[at + 8]) == Some(s.pen),
{
    let b = span_bytes(s);
    assert forall|k: int| 0 <= k < 9 implies p[at + k] == #[trigger] b[k] by {
        assert(p.subrange(at, at + 9)[k] == p[at + k]);
    }
    assert(b[0] == le16(s.x0 as int)[0] && b[1] == le16(s.x0 as int)[1]);
    assert(b[2] == le16(s.y0 as int)[0] && b[3] == le16(s.y0 as int)[1]);
    assert(b[4] == le16(s.x1 as int)[0] && b[5] == le16(s.x1 as int)[1]);
    assert(b[6] == le16(s.y1 as int)[0] && b[7] == le16(s.y1 as int)[1]);
    assert(b[8] == s.pen.code());
    lemma_at16_of_le16(p, at, s.x0 as int);
    lemma_at16_of_le16(p, at + 2, s.y0 as int);
    lemma_at16_of_le16(p, at + 4, s.x1 as int);
    lemma_at16_of_le16(p, at + 6, s.y1 as int);
}

proof fn lemma_payload_span(seq: u16, spans: Seq<Span>, bits: Seq<u8>, i: int)
    requires
        0 <= i < spans.len() < 0x10000,
    ensures
        span_at(Meaning::Frame { seq, spans, bits }.payload(), 4 + 9 * i) == spans[i],
        pen_at(Meaning::Frame { seq, spans, bits }.payload(), i) is Some,
{
    let p = Meaning::Frame { seq, spans, bits }.payload();
    let head = le16(seq as int) + le16(spans.len() as int % 0x10000);
    let part = p.subrange(4 + 9 * i, 4 + 9 * i + 9);
    let want = span_bytes(spans[i]);
    assert(p =~= head + spans_bytes(spans) + bits);
    assert forall|k: int| 0 <= k < 9 implies part[k] == want[k] by {
        assert((9 * i + k) / 9 == i && (9 * i + k) % 9 == k);
        assert(part[k] == spans_bytes(spans)[9 * i + k]);
    }
    assert(part =~= want);
    lemma_span_read_back(p, 4 + 9 * i, spans[i]);
}

/// What surrounds the spans of a frame.
proof fn lemma_payload_parts(seq: u16, spans: Seq<Span>, bits: Seq<u8>)
    requires
        spans.len() < 0x10000,
    ensures
        ({
            let p = Meaning::Frame { seq, spans, bits }.payload();
            &&& p.len() == 4 + 9 * spans.len() + bits.len()
            &&& at16(p, 0) == seq
            &&& at16(p, 2) == spans.len()
            &&& p.skip(4 + 9 * spans.len() as int) == bits
        }),
{
    let p = Meaning::Frame { seq, spans, bits }.payload();
    let n = spans.len() as int;
    lemma_at16_of_le16(p, 0, seq as int);
    lemma_at16_of_le16(p, 2, n);
    assert(p.skip(4 + 9 * n) =~= bits);
}

#[verifier::spinoff_prover]
proof fn lemma_frame_round_trip(seq: u16, spans: Seq<Span>, bits: Seq<u8>)
    requires
        spans.len() < 0x10000,
    ensures
        message_of(Kind::Frame, Meaning::Frame { seq, spans, bits }.payload()) == Some(
            Meaning::Frame { seq, spans, bits },
        ),
{
    reveal(message_of);
    let p = Meaning::Frame { seq, spans, bits }.payload();
    let n = spans.len() as int;
    lemma_payload_parts(seq, spans, bits);
    let read = Seq::new(at16(p, 2) as nat, |i: int| span_at(p, 4 + 9 * i));
    assert(read =~= spans) by {
        assert forall|i: int| 0 <= i < n implies read[i] == spans[i] by {
            lemma_payload_span(seq, spans, bits, i);
        }
    }
    assert forall|i: int| 0 <= i < n implies (#[trigger] pen_at(p, i)) is Some by {
        lemma_payload_span(seq, spans, bits, i);
    }
    assert(frame_readable(p));
}

/// A payload carries back exactly the message it was made from.
pub proof fn law_payload_round_trip(m: Meaning)
    requires
        m.sendable(),
    ensures
        message_of(m.kind(), m.payload()) == Some(m),
{
    reveal(message_of);
    let p = m.payload();
    match m {
        Meaning::Hello => {},
        Meaning::Declare(d) => {
            lemma_at16_of_le16(p, 0, d.px_w as int);
            lemma_at16_of_le16(p, 2, d.px_h as int);
            lemma_at16_of_le16(p, 6, d.max_payload as int);
            assert(p[4] == flags_of(d.colour, d.partial));
            assert(p[5] == d.brightness_levels);
        },
        Meaning::Frame { seq, spans, bits } => {
            lemma_frame_round_trip(seq, spans, bits);
        },
        Meaning::Ack { seq, micros } => {
            lemma_at16_of_le16(p, 0, seq as int);
            lemma_at16_of_le16(p, 2, micros as int % 0x10000);
            lemma_at16_of_le16(p, 4, micros as int / 0x10000);
        },
        Meaning::Fault { code, reason } => {
            assert(p.skip(1) =~= encode_utf8(reason));
            vstd::utf8::encode_utf8_valid_utf8(reason);
            vstd::utf8::encode_utf8_decode_utf8(reason);
        },
        Meaning::Brightness(_) => {},
        Meaning::Blank(_) => {},
    }
}

/// A frame at the front of some bytes, as the reader takes it apart.
proof fn lemma_frame_fields(kind: Kind, p: Seq<u8>, rest: Seq<u8>)
    requires
        p.len() <= MAX_PAYLOAD,
    ensures
        ({
            let b = frame_bytes(kind, p) + rest;
            let len = p.len() as int;
            &&& b.len() >= HEADER + len + 2
            &&& b[0] == MAGIC@[0] && b[1] == MAGIC@[1] && b[2] == VERSION && b[3] == kind.code()
            &&& at16(b, 4) == len
            &&& crc_of(b.subrange(2, HEADER + len)) == at16(b, HEADER + len)
            &&& b.subrange(HEADER as int, HEADER + len) == p
            &&& b.skip(HEADER + len + 2) == rest
        }),
{
    let b = frame_bytes(kind, p) + rest;
    let len = p.len() as int;
    let checked = checked_bytes(kind, p);
    lemma_at16_of_le16(b, 4, len);
    assert(b.subrange(2, HEADER + len) =~= checked);
    lemma_at16_of_le16(b, HEADER + len, crc_of(checked) as int);
    assert(b.subrange(HEADER as int, HEADER + len) =~= p);
    assert(b.skip(HEADER + len + 2) =~= rest);
}

/// What the reader answers to bytes that start with a good frame.
#[verifier::spinoff_prover]
proof fn lemma_good_frame(b: Seq<u8>, kind: Kind, p: Seq<u8>, m: Meaning, rest: Seq<u8>)
    requires
        p.len() <= MAX_PAYLOAD,
        message_of(kind, p) == Some(m),
        b.len() >= HEADER + p.len() + 2,
        b[0] == MAGIC@[0] && b[1] == MAGIC@[1] && b[2] == VERSION && b[3] == kind.code(),
        at16(b, 4) == p.len(),
        crc_of(b.subrange(2, HEADER + p.len())) == at16(b, HEADER + p.len()),
        b.subrange(HEADER as int, HEADER + p.len()) == p,
        b.skip(HEADER + p.len() + 2) == rest,
    ensures
        answer_of(b) == (Answer { said: Some(Ok(m)), rest, resyncs: 0 }),
{
    assert(first_magic(b, 0) == Some(0int));
    assert(b.skip(0) =~= b);
    assert(kind_of_code(kind.code()) == Some(kind));
}

proof fn lemma_frame_answer(kind: Kind, p: Seq<u8>, m: Meaning, rest: Seq<u8>)
    requires
        p.len() <= MAX_PAYLOAD,
        message_of(kind, p) == Some(m),
    ensures
        answer_of(frame_bytes(kind, p) + rest) == (Answer { said: Some(Ok(m)), rest, resyncs: 0 }),
{
    lemma_frame_fields(kind, p, rest);
    lemma_good_frame(frame_bytes(kind, p) + rest, kind, p, m, rest);
}

/// Every message the reader will take survives the wire: whatever follows it,
/// the reader says that message, keeps what follows and throws nothing away.
pub proof fn law_every_message_survives_the_wire(m: Meaning, rest: Seq<u8>)
    requires
        m.sendable(),
    ensures
        answer_of(m.framed() + rest) == (Answer { said: Some(Ok(m)), rest, resyncs: 0 }),
{
    law_payload_round_trip(m);
    lemma_frame_answer(m.kind(), m.payload(), m, rest);
}

proof fn lemma_partial_frame(kind: Kind, p: Seq<u8>, fed: int)
    requires
        p.len() <= MAX_PAYLOAD,
        0 <= fed < frame_bytes(kind, p).len(),
    ensures
        answer_of(frame_bytes(kind, p).take(fed)) == (Answer {
            said: None,
            rest: frame_bytes(kind, p).take(fed),
            resyncs: 0,
        }),
{
    let b = frame_bytes(kind, p).take(fed);
    if fed >= 2 {
        assert(first_magic(b, 0) == Some(0int));
        assert(b.skip(0) =~= b);
        if fed >= HEADER {
            lemma_at16_of_le16(b, 4, p.len() as int);
        }
    }
}

/// A message split across reads is not lost: until its last byte is there the
/// reader asks for more and keeps every byte it has.
pub proof fn law_a_partial_message_is_kept(m: Meaning, fed: int)
    requires
        m.sendable(),
        0 <= fed < m.framed().len(),
    ensures
        answer_of(m.framed().take(fed)) == (Answer {
            said: None,
            rest: m.framed().take(fed),
            resyncs: 0,
        }),
{
    lemma_partial_frame(m.kind(), m.payload(), fed);
}

/// What is done with a reader: bytes are fed to it, or the next message is
/// asked for.
pub enum Use {
    Feed(Seq<u8>),
    Ask,
}

/// A reader that started out empty, as its uses left it: the bytes it was fed,
/// the bytes it keeps, everything it said and how many bytes it threw away.
pub struct Session {
    pub fed: Seq<u8>,
    pub buf: Seq<u8>,
    pub said: Seq<Result<Meaning, Broken>>,
    pub resyncs: nat,
}

pub open spec fn session(uses: Seq<Use>) -> Session
    decreases uses.len(),
{
    if uses.len() == 0 {
        Session { fed: Seq::empty(), buf: Seq::empty(), said: Seq::empty(), resyncs: 0 }
    } else {
        let s = session(uses.drop_last());
        match uses.last() {
            Use::Feed(chunk) => Session { fed: s.fed + chunk, buf: s.buf + chunk, ..s },
            Use::Ask => {
                let a = answer_of(s.buf);
                Session {
                    buf: a.rest,
                    said: match a.said {
                        Some(r) => s.said.push(r),
                        None => s.said,
                    },
                    resyncs: s.resyncs + a.resyncs,
                    ..s
                }
            },
        }
    }
}

/// Messages one after another, as they go over the wire.
pub open spec fn stream(ms: Seq<Meaning>) -> Seq<u8>
    decreases ms.len(),
{
    if ms.len() == 0 {
        Seq::empty()
    } else {
        stream(ms.drop_last()) + ms.last().framed()
    }
}

/// Some bytes are the first of a stream.
pub open spec fn starts(fed: Seq<u8>, whole: Seq<u8>) -> bool {
    fed.len() <= whole.len() && fed == whole.take(fed.len() as int)
}

proof fn lemma_stream_goes_on(ms: Seq<Meaning>, k: int)
    requires
        0 <= k < ms.len(),
    ensures
        stream(ms.take(k + 1)) == stream(ms.take(k)) + ms[k].framed(),
        stream(ms.take(k + 1)).len() <= stream(ms).len(),
        stream(ms.take(k + 1)) == stream(ms).take(stream(ms.take(k + 1)).len() as int),
    decreases ms.len() - k,
{
    assert(ms.take(k + 1).drop_last() =~= ms.take(k));
    if k + 1 < ms.len() {
        lemma_stream_goes_on(ms, k + 1);
        let here = stream(ms.take(k + 1));
        let next = stream(ms.take(k + 2));
        assert(next.take(here.len() as int) =~= here);
        assert(stream(ms).take(here.len() as int) =~= next.take(here.len() as int));
    } else {
        assert(ms.take(k + 1) =~= ms);
        assert(stream(ms).take(stream(ms).len() as int) =~= stream(ms));
    }
}

/// Where the next message of a stream is in what was fed of it.
proof fn lemma_next_bytes(ms: Seq<Meaning>, fed: Seq<u8>, k: int)
    requires
        starts(fed, stream(ms)),
        0 <= k < ms.len(),
        stream(ms.take(k)).len() <= fed.len(),
    ensures
        ({
            let before = stream(ms.take(k)).len() as int;
            let upto = stream(ms.take(k + 1)).len() as int;
            let m = ms[k].framed();
            &&& upto == before + m.len()
            &&& upto <= fed.len() ==> fed.skip(before) == m + fed.skip(upto)
            &&& upto > fed.len() ==> fed.skip(before) == m.take(fed.len() - before)
        }),
{
    lemma_stream_goes_on(ms, k);
    let before = stream(ms.take(k)).len() as int;
    let upto = stream(ms.take(k + 1)).len() as int;
    let m = ms[k].framed();
    let here = stream(ms.take(k + 1));
    assert forall|i: int| 0 <= i < m.len() implies stream(ms)[before + i] == #[trigger] m[i] by {
        assert(here[before + i] == m[i]);
        assert(stream(ms).take(upto)[before + i] == stream(ms)[before + i]);
    }
    if upto <= fed.len() {
        assert(fed.skip(before) =~= m + fed.skip(upto));
    } else {
        assert(fed.skip(before) =~= m.take(fed.len() - before));
    }
}

/// What a reader answers when it has said `k` of the messages and holds what
/// else was fed of their stream.
#[verifier::spinoff_prover]
#[verifier::rlimit(40)]
proof fn lemma_next_of_a_stream(ms: Seq<Meaning>, fed: Seq<u8>, k: int)
    requires
        forall|i: int| 0 <= i < ms.len() ==> (#[trigger] ms[i]).sendable(),
        starts(fed, stream(ms)),
        0 <= k <= ms.len(),
        stream(ms.take(k)).len() <= fed.len(),
    ensures
        ({
            let buf = fed.skip(stream(ms.take(k)).len() as int);
            let whole = k < ms.len() && stream(ms.take(k + 1)).len() <= fed.len();
            answer_of(buf) == (Answer {
                said: if whole {
                    Some(Ok(ms[k]))
                } else {
                    None
                },
                rest: if whole {
                    fed.skip(stream(ms.take(k + 1)).len() as int)
                } else {
                    buf
                },
                resyncs: 0,
            })
        }),
{
    let before = stream(ms.take(k)).len() as int;
    if k == ms.len() {
        assert(ms.take(k) =~= ms);
        assert(fed.skip(before) =~= Seq::empty());
    } else {
        lemma_next_bytes(ms, fed, k);
        let upto = stream(ms.take(k + 1)).len() as int;
        if upto <= fed.len() {
            law_every_message_survives_the_wire(ms[k], fed.skip(upto));
        } else {
            law_a_partial_message_is_kept(ms[k], fed.len() - before);
        }
    }
}

/// A stream of messages comes out as it went in: feed it in any pieces, asking
/// for the next message between them at will, and what the reader says is the
/// messages, in order, none lost, repeated or changed, with no byte thrown
/// away. Each is said when it is asked for once its last byte was fed and not
/// before, and until it is there the answer is that more is needed; once
/// everything was fed and the reader has nothing more to say, it has said
/// everything.
pub proof fn law_a_stream_comes_out_as_it_went_in(ms: Seq<Meaning>, uses: Seq<Use>)
    requires
        forall|i: int| 0 <= i < ms.len() ==> (#[trigger] ms[i]).sendable(),
        starts(session(uses).fed, stream(ms)),
    ensures
        ({
            let s = session(uses);
            let k = s.said.len() as int;
            let whole = k < ms.len() && stream(ms.take(k + 1)).len() <= s.fed.len();
            &&& k <= ms.len()
            &&& forall|i: int| 0 <= i < k ==> #[trigger] s.said[i] == Ok::<Meaning, Broken>(ms[i])
            &&& stream(ms.take(k)).len() <= s.fed.len()
            &&& s.buf == s.fed.skip(stream(ms.take(k)).len() as int)
            &&& s.resyncs == 0
            &&& answer_of(s.buf).said == (if whole {
                Some(Ok::<Meaning, Broken>(ms[k]))
            } else {
                None
            })
            &&& s.fed == stream(ms) && answer_of(s.buf).said is None ==> k == ms.len()
        }),
    decreases uses.len(),
{
    let s = session(uses);
    if uses.len() == 0 {
        assert(ms.take(0) =~= Seq::empty());
        assert(s.fed.skip(0) =~= s.buf);
    } else {
        let before = session(uses.drop_last());
        match uses.last() {
            Use::Feed(chunk) => {
                assert(before.fed =~= s.fed.take(before.fed.len() as int));
                assert(before.fed =~= stream(ms).take(before.fed.len() as int));
                law_a_stream_comes_out_as_it_went_in(ms, uses.drop_last());
                let at = stream(ms.take(before.said.len() as int)).len() as int;
                assert(s.buf =~= s.fed.skip(at));
            },
            Use::Ask => {
                law_a_stream_comes_out_as_it_went_in(ms, uses.drop_last());
                lemma_next_of_a_stream(ms, before.fed, before.said.len() as int);
            },
        }
    }
    let k = s.said.len() as int;
    lemma_next_of_a_stream(ms, s.fed, k);
    if k < ms.len() {
        lemma_stream_goes_on(ms, k);
    }
}

proof fn lemma_crc_bits_injective(x: u16, y: u16, n: nat)
    ensures
        crc_bits(x, n) == crc_bits(y, n) ==> x == y,
    decreases n,
{
    if n > 0 {
        let a = crc_bits(x, (n - 1) as nat);
        let b = crc_bits(y, (n - 1) as nat);
        assert((if a & 0x8000 != 0 {
            (a << 1) ^ 0x1021
        } else {
            a << 1
        }) == (if b & 0x8000 != 0 {
            (b << 1) ^ 0x1021
        } else {
            b << 1
        }) ==> a == b) by (bit_vector);
        lemma_crc_bits_injective(x, y, (n - 1) as nat);
    }
}

/// Two strings of bytes that differ in one byte have different CRCs.
pub proof fn law_one_changed_byte_changes_the_crc(bytes: Seq<u8>, i: int, b: u8)
    requires
        0 <= i < bytes.len(),
        b != bytes[i],
    ensures
        crc_of(bytes.update(i, b)) != crc_of(bytes),
    decreases bytes.len(),
{
    let changed = bytes.update(i, b);
    let x = crc_of(bytes.drop_last());
    let y = crc_of(changed.drop_last());
    let last = bytes.last();
    let new_last = changed.last();
    if i == bytes.len() - 1 {
        assert(changed.drop_last() =~= bytes.drop_last());
        assert(x ^ ((last as u16) << 8) == x ^ ((new_last as u16) << 8) ==> last == new_last)
            by (bit_vector);
    } else {
        assert(changed.drop_last() =~= bytes.drop_last().update(i, b));
        law_one_changed_byte_changes_the_crc(bytes.drop_last(), i, b);
        assert(x ^ ((last as u16) << 8) == y ^ ((last as u16) << 8) ==> x == y) by (bit_vector);
    }
    lemma_crc_bits_injective(
        x ^ ((last as u16) << 8),
        y ^ ((new_last as u16) << 8),
        8,
    );
}

proof fn lemma_changed_frame_fails_its_crc(kind: Kind, p: Seq<u8>, rest: Seq<u8>, i: int, b: u8)
    requires
        p.len() <= MAX_PAYLOAD,
        i == 3 || HEADER <= i < HEADER + p.len() + 2,
        b != frame_bytes(kind, p)[i],
    ensures
        ({
            let bad = frame_bytes(kind, p).update(i, b) + rest;
            &&& at16(bad, 4) == p.len()
            &&& crc_of(bad.subrange(2, HEADER + p.len())) != at16(bad, HEADER + p.len())
        }),
{
    let bad = frame_bytes(kind, p).update(i, b) + rest;
    let len = p.len() as int;
    let checked = checked_bytes(kind, p);
    lemma_at16_of_le16(bad, 4, len);
    if i < HEADER + len {
        lemma_at16_of_le16(bad, HEADER + len, crc_of(checked) as int);
        assert(bad.subrange(2, HEADER + len) =~= checked.update(i - 2, b));
        law_one_changed_byte_changes_the_crc(checked, i - 2, b);
    } else {
        let good = frame_bytes(kind, p);
        lemma_at16_of_le16(good, HEADER + len, crc_of(checked) as int);
        assert(bad.subrange(2, HEADER + len) =~= checked);
        assert(bad[HEADER + len] != good[HEADER + len] || bad[HEADER + len + 1] != good[HEADER + len
            + 1]);
    }
}

#[verifier::spinoff_prover]
proof fn lemma_changed_frame(kind: Kind, p: Seq<u8>, rest: Seq<u8>, i: int, b: u8)
    requires
        p.len() <= MAX_PAYLOAD,
        i == 3 || HEADER <= i < HEADER + p.len() + 2,
        b != frame_bytes(kind, p)[i],
    ensures
        answer_of(frame_bytes(kind, p).update(i, b) + rest) == (Answer {
            said: Some(Err(Broken::Crc)),
            rest: (frame_bytes(kind, p).update(i, b) + rest).skip(1),
            resyncs: 1,
        }),
{
    let bad = frame_bytes(kind, p).update(i, b) + rest;
    assert(first_magic(bad, 0) == Some(0int));
    assert(bad.skip(0) =~= bad);
    lemma_changed_frame_fails_its_crc(kind, p, rest, i, b);
    assert(bad[2] == VERSION);
}

/// A changed byte is caught and the reader carries on: corrupt the kind, any
/// byte of the payload or of the CRC, and what it says is that the CRC did not
/// match, with everything but one byte kept to look for the next message in.
pub proof fn law_a_changed_byte_is_caught(m: Meaning, rest: Seq<u8>, i: int, b: u8)
    requires
        m.sendable(),
        i == 3 || HEADER <= i < HEADER + m.payload().len() + 2,
        b != m.framed()[i],
    ensures
        answer_of(m.framed().update(i, b) + rest) == (Answer {
            said: Some(Err(Broken::Crc)),
            rest: (m.framed().update(i, b) + rest).skip(1),
            resyncs: 1,
        }),
{
    lemma_changed_frame(m.kind(), m.payload(), rest, i, b);
}

/// How a message lies on the wire: `DP`, the version, the kind, the length of
/// what it carries with its low byte first, that, and the check of everything
/// between the two.
pub proof fn law_how_a_message_lies_on_the_wire(m: Meaning)
    requires
        m.sendable(),
    ensures
        ({
            let f = m.framed();
            let n = m.payload().len() as int;
            &&& f.len() == 8 + n
            &&& f[0] == 'D' as u8 && f[1] == 'P' as u8
            &&& f[2] == 1
            &&& m is Hello <==> f[3] == 1
            &&& m is Declare <==> f[3] == 2
            &&& m is Frame <==> f[3] == 3
            &&& m is Ack <==> f[3] == 4
            &&& m is Fault <==> f[3] == 5
            &&& m is Brightness <==> f[3] == 6
            &&& m is Blank <==> f[3] == 7
            &&& f[4] + 256 * f[5] == n
            &&& f.subrange(6, 6 + n) == m.payload()
            &&& f[6 + n] + 256 * f[7 + n] == crc_of(f.subrange(2, 6 + n))
        }),
{
    let f = m.framed();
    let n = m.payload().len() as int;
    let c = checked_bytes(m.kind(), m.payload());
    assert(MAGIC@[0] == 68 && MAGIC@[1] == 80);
    assert(f.subrange(6, 6 + n) =~= m.payload());
    assert(f.subrange(2, 6 + n) =~= c);
}

/// What each message carries, byte for byte: numbers with the low byte first,
/// a panel as its width, its height, its flags, its levels and the longest
/// payload it takes, an answer as the number of the frame and the time it took.
pub proof fn law_what_a_message_carries(m: Meaning)
    ensures
        ({
            let p = m.payload();
            &&& m is Hello ==> p.len() == 0
            &&& m matches Meaning::Declare(d) ==> {
                &&& p.len() == 8
                &&& p[0] + 256 * p[1] == d.px_w
                &&& p[2] + 256 * p[3] == d.px_h
                &&& p[4] == (if d.colour { 1int } else { 0 }) + (if d.partial { 2int } else { 0 })
                &&& p[5] == d.brightness_levels
                &&& p[6] + 256 * p[7] == d.max_payload
            }
            &&& m matches Meaning::Ack { seq, micros } ==> {
                &&& p.len() == 6
                &&& p[0] + 256 * p[1] == seq
                &&& p[2] + 0x100 * p[3] + 0x1_0000 * p[4] + 0x100_0000 * p[5] == micros
            }
            &&& m matches Meaning::Fault { code, reason } ==> p[0] == code && p.skip(1)
                == encode_utf8(reason)
            &&& m matches Meaning::Brightness(n) ==> p =~= seq![n]
            &&& m matches Meaning::Blank(on) ==> p =~= seq![if on { 1u8 } else { 0u8 }]
        }),
{
    if let Meaning::Fault { code, reason } = m {
        assert(m.payload().skip(1) =~= encode_utf8(reason));
    }
}

/// What a frame carries, byte for byte: its number, how many spans it has, each
/// of them as its corners and its pen, and its dots.
pub proof fn law_what_a_frame_carries(seq: u16, spans: Seq<Span>, bits: Seq<u8>, i: int)
    requires
        0 <= i < spans.len() < 0x1_0000,
    ensures
        ({
            let p = Meaning::Frame { seq, spans, bits }.payload();
            let at = 4 + 9 * i;
            &&& p.len() == 4 + 9 * spans.len() + bits.len()
            &&& p[0] + 256 * p[1] == seq
            &&& p[2] + 256 * p[3] == spans.len()
            &&& p.skip(4 + 9 * spans.len() as int) == bits
            &&& p[at] + 256 * p[at + 1] == spans[i].x0
            &&& p[at + 2] + 256 * p[at + 3] == spans[i].y0
            &&& p[at + 4] + 256 * p[at + 5] == spans[i].x1
            &&& p[at + 6] + 256 * p[at + 7] == spans[i].y1
            &&& p[at + 8] == (match spans[i].pen {
                Pen::Fg => 0int,
                Pen::Dim => 1,
                Pen::Folder => 2,
                Pen::Refused => 3,
            })
        }),
{
    lemma_a_frame_starts_with_its_number(seq, spans, bits);
    lemma_span_bytes(spans[i]);
    lemma_a_span_is_in_its_place(seq, spans, bits, i, 0);
    lemma_a_span_is_in_its_place(seq, spans, bits, i, 1);
    lemma_a_span_is_in_its_place(seq, spans, bits, i, 2);
    lemma_a_span_is_in_its_place(seq, spans, bits, i, 3);
    lemma_a_span_is_in_its_place(seq, spans, bits, i, 4);
    lemma_a_span_is_in_its_place(seq, spans, bits, i, 5);
    lemma_a_span_is_in_its_place(seq, spans, bits, i, 6);
    lemma_a_span_is_in_its_place(seq, spans, bits, i, 7);
    lemma_a_span_is_in_its_place(seq, spans, bits, i, 8);
}

proof fn lemma_a_frame_starts_with_its_number(seq: u16, spans: Seq<Span>, bits: Seq<u8>)
    requires
        spans.len() < 0x1_0000,
    ensures
        ({
            let p = Meaning::Frame { seq, spans, bits }.payload();
            &&& p.len() == 4 + 9 * spans.len() + bits.len()
            &&& p[0] + 256 * p[1] == seq
            &&& p[2] + 256 * p[3] == spans.len()
            &&& p.skip(4 + 9 * spans.len() as int) == bits
        }),
{
    let p = Meaning::Frame { seq, spans, bits }.payload();
    assert(p.skip(4 + 9 * spans.len() as int) =~= bits);
}

proof fn lemma_a_span_is_in_its_place(seq: u16, spans: Seq<Span>, bits: Seq<u8>, i: int, k: int)
    requires
        0 <= i < spans.len() < 0x1_0000,
        0 <= k < 9,
    ensures
        (Meaning::Frame { seq, spans, bits }).payload()[4 + 9 * i + k] == span_bytes(spans[i])[k],
{
    let j = 9 * i + k;
    assert(j / 9 == i && j % 9 == k);
    let head = le16(seq as int) + le16(spans.len() as int % 0x10000);
    let all = spans_bytes(spans);
    assert(head.len() == 4);
    assert((head + all + bits)[4 + j] == all[j]);
}

proof fn lemma_span_bytes(s: Span)
    ensures
        ({
            let b = span_bytes(s);
            &&& b.len() == 9
            &&& b[0] + 256 * b[1] == s.x0
            &&& b[2] + 256 * b[3] == s.y0
            &&& b[4] + 256 * b[5] == s.x1
            &&& b[6] + 256 * b[7] == s.y1
            &&& b[8] == s.pen.code()
        }),
{
}

/// The check is a remainder by 0x1021, from all ones on: a step doubles it and
/// takes the divisor off where the top bit falls out, and a byte goes in at the
/// top, eight steps to each.
pub proof fn law_the_check_is_a_remainder(crc: u16, bytes: Seq<u8>, b: u8)
    ensures
        crc_of(Seq::empty()) == 0xffff,
        crc < 0x8000 ==> crc_bit(crc) == 2 * crc,
        crc >= 0x8000 ==> crc_bit(crc) == ((2 * crc - 0x1_0000) as u16) ^ 0x1021u16,
        crc_of(bytes.push(b)) == crc_bit(
            crc_bit(
                crc_bit(
                    crc_bit(
                        crc_bit(
                            crc_bit(crc_bit(crc_bit(crc_of(bytes) ^ ((256 * b) as u16)))),
                        ),
                    ),
                ),
            ),
        ),
{
    assert(crc < 0x8000 ==> crc & 0x8000u16 == 0 && (crc << 1u16) == 2 * crc) by (bit_vector);
    assert(crc >= 0x8000 ==> crc & 0x8000u16 != 0 && (crc << 1u16) == 2 * crc - 0x1_0000)
        by (bit_vector);
    assert(bytes.push(b).drop_last() =~= bytes);
    assert(((b as u16) << 8u16) == 256 * b) by (bit_vector);
    reveal_with_fuel(crc_bits, 9);
}

/// Junk in front of a message is skipped, byte for byte counted, and the
/// message is read behind it.
pub proof fn law_junk_before_a_message_is_skipped(junk: Seq<u8>, m: Meaning, rest: Seq<u8>)
    requires
        m.sendable(),
        forall|i: int| 0 <= i < junk.len() ==> #[trigger] junk[i] != 'D' as u8,
    ensures
        answer_of(junk + m.framed() + rest) == (Answer {
            said: Some(Ok(m)),
            rest,
            resyncs: junk.len(),
        }),
{
    let buf = junk + m.framed() + rest;
    law_how_a_message_lies_on_the_wire(m);
    assert(MAGIC@[0] == 68 && MAGIC@[1] == 80);
    assert forall|i: int| 0 <= i < junk.len() implies #[trigger] buf[i] != 68 by {
        assert(junk[i] != 68);
    }
    assert(buf[junk.len() as int] == m.framed()[0]);
    assert(buf[junk.len() as int + 1] == m.framed()[1]);
    lemma_magic_found(buf, 0, junk.len() as int);
    assert(buf.skip(junk.len() as int) =~= m.framed() + rest);
    law_every_message_survives_the_wire(m, rest);
    let whole = m.framed() + rest;
    assert(whole[0] == 68 && whole[1] == 80);
    lemma_magic_found(whole, 0, 0);
    assert(whole.skip(0) =~= whole);
}

proof fn lemma_magic_found(buf: Seq<u8>, from: int, at: int)
    requires
        0 <= from <= at,
        at + 1 < buf.len(),
        buf[at] == 68 && buf[at + 1] == 80,
        forall|i: int| from <= i < at ==> #[trigger] buf[i] != 68,
    ensures
        first_magic(buf, from) == Some(at),
    decreases at - from,
{
    assert(MAGIC@[0] == 68 && MAGIC@[1] == 80);
    if from < at {
        assert(buf[from] != 68);
        lemma_magic_found(buf, from + 1, at);
    }
}

/// A panel that is asked what it is is known by the first declaration it sends,
/// whatever else it sent before.
pub proof fn law_a_panel_is_what_it_declares(m: Meaning, d: Declared, rest: Seq<u8>)
    requires
        m.sendable(),
        !(m is Declare),
    ensures
        declared_in(Meaning::Declare(d).framed() + rest) == (Some(d), rest, 0nat),
        declared_in(m.framed() + rest) == declared_in(rest),
{
    lemma_a_declaration_is_sendable(d);
    law_every_message_survives_the_wire(Meaning::Declare(d), rest);
    lemma_declared_by(Meaning::Declare(d).framed() + rest, Meaning::Declare(d), rest);
    law_every_message_survives_the_wire(m, rest);
    lemma_declared_by(m.framed() + rest, m, rest);
}

proof fn lemma_a_declaration_is_sendable(d: Declared)
    ensures
        Meaning::Declare(d).sendable(),
{
}

/// What a first message says of the panel.
proof fn lemma_declared_by(buf: Seq<u8>, m: Meaning, rest: Seq<u8>)
    requires
        answer_of(buf) == (Answer { said: Some(Ok(m)), rest, resyncs: 0 }),
    ensures
        m matches Meaning::Declare(d) ==> declared_in(buf) == (Some(d), rest, 0nat),
        !(m is Declare) ==> declared_in(buf) == declared_in(rest),
{
}

} // verus!
