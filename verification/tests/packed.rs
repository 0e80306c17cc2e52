use embedded_graphics::pixelcolor::BinaryColor;
use embedded_graphics::prelude::{
    DrawTarget, Drawable, OriginDimensions, Pixel, Point, Primitive, Size,
};
use embedded_graphics::primitives::{PrimitiveStyle, Rectangle};
use u8g2_fonts::types::{FontColor, VerticalPosition};
use u8g2_fonts::{fonts, FontRenderer};

use deck_pi::browser::Row;
use deck_pi::display::packed::{Bitmap, Packed};
use deck_pi::display::paint::{Drawn, Face, Ink, Layout, Op, Painter, Palette};
use deck_pi::display::raster::{all_stay, paint};
use deck_pi::display::wire::{Declared, Message, Pen, Reader, VERSION};
use deck_pi::display::{compose, Kind, Lighting, Line, Screen};

const SENT_AT: u128 = 1_000;

struct Panel<'a>(&'a mut Bitmap);

impl OriginDimensions for Panel<'_> {
    fn size(&self) -> Size {
        Size::new(self.0.w, self.0.h)
    }
}

impl DrawTarget for Panel<'_> {
    type Color = BinaryColor;
    type Error = core::convert::Infallible;

    fn draw_iter<I>(&mut self, pixels: I) -> Result<(), Self::Error>
    where
        I: IntoIterator<Item = Pixel<Self::Color>>,
    {
        for Pixel(p, c) in pixels {
            if p.x >= 0 && p.y >= 0 {
                self.0.set(p.x as u32, p.y as u32, c == BinaryColor::On);
            }
        }
        Ok(())
    }
}

fn renderer(face: Face) -> FontRenderer {
    match face {
        Face::Px12 => FontRenderer::new::<fonts::u8g2_font_b12_t_japanese3>(),
        Face::Px16 => FontRenderer::new::<fonts::u8g2_font_b16_t_japanese3>(),
    }
}

/// The same list, by the font's own renderer.
fn rendered(face: Face, ops: &[Op], target: &mut Panel) {
    let pal = Palette::mono();
    for op in ops {
        match op {
            Op::Clear { ink } => target.clear(on(pal.colour(*ink))).unwrap(),
            Op::Fill { x, y, w, h, ink } => {
                Rectangle::new(Point::new(*x, *y), Size::new(*w, *h))
                    .into_styled(PrimitiveStyle::with_fill(on(pal.colour(*ink))))
                    .draw(target)
                    .unwrap();
            }
            Op::Text { x, y, text, ink } => {
                renderer(face)
                    .render(
                        text.as_str(),
                        Point::new(*x, *y),
                        VerticalPosition::Top,
                        FontColor::Transparent(on(pal.colour(*ink))),
                        target,
                    )
                    .expect("every character has a glyph");
            }
        }
    }
}

fn on(lit: bool) -> BinaryColor {
    if lit {
        BinaryColor::On
    } else {
        BinaryColor::Off
    }
}

fn show(p: &mut Packed, screen: &Screen, out: &mut Vec<u8>) {
    out.extend(p.send(screen).expect("every line is within reach"));
    p.sent(SENT_AT);
}

fn declared(px_w: u16, px_h: u16, colour: bool) -> Declared {
    Declared {
        px_w,
        px_h,
        colour,
        partial: false,
        brightness_levels: 0,
        max_payload: 16 * 1024,
    }
}

fn screen(painter: &Painter) -> Screen {
    let g = painter.geometry();
    let rows: Vec<Row> = vec![
        Row::Folder { name: "2024_録音".into(), selected: false },
        Row::Folder { name: "ライブ音源".into(), selected: true },
    ];
    compose("録音", &rows[..g.listing_rows().min(rows.len())], "PLAY 1:35.0".into(), g)
}

fn sent(px_w: u16, px_h: u16) -> (Message, Painter) {
    let mut buf = Vec::new();
    let mut p = Packed::new(declared(px_w, px_h, true));
    let painter = Painter::new(p.painter().face(), p.painter().layout());
    let s = screen(&painter);
    show(&mut p, &s, &mut buf);
    let mut r = Reader::new();
    r.feed(&buf);
    (r.next_message().expect("a frame").expect("not broken"), painter)
}

#[test]
fn a_frame_is_one_bit_per_pixel_and_the_size_says_so() {
    let (m, _) = sent(128, 64);
    match m {
        Message::Frame { bits, .. } => assert_eq!(bits.len(), 128 * 64 / 8),
        other => panic!("{other:?}"),
    }
    let (m, _) = sent(320, 240);
    match m {
        Message::Frame { bits, .. } => assert_eq!(bits.len(), 320 * 240 / 8, "9600 bytes"),
        other => panic!("{other:?}"),
    }
}

#[test]
fn the_ink_is_really_in_the_bytes_and_in_the_right_place() {
    let (m, painter) = sent(128, 64);
    let Message::Frame { bits, .. } = m else { panic!() };
    let mut bm = Bitmap::new(128, 64);
    bm.bits.copy_from_slice(&bits);

    let glyph = painter.face().glyph_px();
    let lit_in = |y0: u32, y1: u32| -> usize {
        (y0..y1).flat_map(|y| (0..128u32).map(move |x| (x, y)))
            .filter(|&(x, y)| bm.get(x, y))
            .count()
    };
    assert!(lit_in(0, glyph) > 0, "the path line drew nothing");
    assert!(lit_in(0, 64) < 128 * 64 / 2, "the frame is mostly ink — it is not a screen");
}

#[test]
fn only_what_is_not_the_default_pen_is_sent() {
    let (m, _) = sent(128, 64);
    let Message::Frame { spans, .. } = m else { panic!() };
    assert!(spans.iter().any(|s| s.pen == Pen::Dim && s.y0 == 0), "{spans:?}");
    assert!(
        spans.iter().all(|s| s.pen != Pen::Fg),
        "the default pen was sent explicitly: {spans:?}"
    );
    let folders = spans.iter().filter(|s| s.pen == Pen::Folder).count();
    assert!(folders >= 1, "{spans:?}");
}

#[test]
fn a_span_lands_on_the_row_the_painter_drew() {
    let (m, painter) = sent(320, 240);
    let Message::Frame { spans, .. } = m else { panic!() };
    let row_h = painter.face().row_h() as u16;
    for s in spans.iter().filter(|s| s.pen != Pen::Dim) {
        let i = (s.y0 / row_h).saturating_sub(1) as usize;
        assert_eq!(s.y0, painter.row_y(i) as u16, "{s:?}");
        assert_eq!(s.y1 - s.y0, row_h, "{s:?}");
        assert_eq!(s.x1, painter.layout().px_w as u16);
    }
}

#[test]
fn the_face_follows_the_panel_the_pico_declared() {
    assert_eq!(Face::for_panel(128, 64), Face::Px12);
    assert_eq!(Face::for_panel(256, 64), Face::Px12);
    assert_eq!(Face::for_panel(320, 240), Face::Px16);

    let p = Packed::new(declared(320, 240, true));
    assert_eq!(p.painter().face(), Face::Px16);
    assert_eq!(p.geometry().rows, 14);
    assert!(p.geometry().colour, "a colour panel still says so");
}

#[test]
fn each_frame_carries_the_next_sequence_number() {
    let mut buf = Vec::new();
    let mut p = Packed::new(declared(128, 64, false));
    let s = screen(p.painter());
    for _ in 0..3 {
        show(&mut p, &s, &mut buf);
    }
    assert_eq!(p.outstanding(), 3, "nothing has acknowledged them");
    let mut r = Reader::new();
    r.feed(&buf);
    let seqs: Vec<u16> = std::iter::from_fn(|| r.next_message())
        .filter_map(|m| match m.ok() {
            Some(Message::Frame { seq, .. }) => Some(seq),
            _ => None,
        })
        .collect();
    assert_eq!(seqs, vec![1, 2, 3]);
}

#[test]
fn an_ack_closes_the_frame_out_and_times_the_link() {
    let mut buf = Vec::new();
    let mut p = Packed::new(declared(128, 64, false));
    let s = screen(p.painter());
    show(&mut p, &s, &mut buf);
    assert_eq!(p.outstanding(), 1);
    assert!(p.last_rtt().is_none());

    let ack = Message::Ack { seq: 1, micros: 42 }.to_bytes();
    let rest = p.take(&ack, SENT_AT + 250);
    assert!(rest.is_empty(), "an ack is not passed on: {rest:?}");
    assert_eq!(p.outstanding(), 0);
    assert_eq!(p.last_rtt(), Some(250), "the link was not timed");
}

#[test]
fn a_fault_is_handed_back_rather_than_swallowed() {
    let mut p = Packed::new(declared(128, 64, false));
    let fault = Message::Fault { code: 3, reason: "panel gone".into() }.to_bytes();
    let got = p.take(&fault, 0);
    assert_eq!(got.len(), 1, "{got:?}");
    assert!(matches!(&got[0], Message::Fault { code: 3, .. }), "{got:?}");
}

#[test]
fn the_bytes_on_the_wire_are_the_version_this_build_speaks() {
    let mut buf = Vec::new();
    let mut p = Packed::new(declared(128, 64, false));
    let s = screen(p.painter());
    show(&mut p, &s, &mut buf);
    assert_eq!(&buf[..2], b"DP");
    assert_eq!(buf[2], VERSION);
}

#[test]
fn a_selected_row_is_a_bar_of_ink_with_the_name_knocked_out() {
    let mut buf = Vec::new();
    let mut p = Packed::new(declared(128, 64, false));
    let painter = Painter::new(p.painter().face(), p.painter().layout());
    let s = Screen {
        folder: "録音".into(),
        lines: vec![Line {
            text: "夜明けの前.wav".into(),
            kind: Kind::Playable,
            selected: true,
        }],
        status: "PAUSE".into(),
    };
    show(&mut p, &s, &mut buf);
    let mut r = Reader::new();
    r.feed(&buf);
    let Message::Frame { bits, .. } = r.next_message().unwrap().unwrap() else { panic!() };
    let mut bm = Bitmap::new(128, 64);
    bm.bits.copy_from_slice(&bits);

    let y0 = painter.row_y(0) as u32;
    let row_h = painter.face().row_h();
    let lit = (y0..y0 + row_h)
        .flat_map(|y| (0..128u32).map(move |x| (x, y)))
        .filter(|&(x, y)| bm.get(x, y))
        .count();
    let cells = (row_h * 128) as usize;
    assert!(lit > cells / 2, "the bar is not a bar: {lit} of {cells}");
    assert!(lit < cells, "the name was not knocked out of it");
}

#[test]
fn a_panel_is_lit_in_the_levels_it_has() {
    let mut with = declared(128, 64, false);
    with.brightness_levels = 16;
    let p = Packed::new(with);
    assert_eq!(p.lighting(Lighting::Full), vec![Message::Blank(false), Message::Brightness(15)]);
    assert_eq!(p.lighting(Lighting::Blank), vec![Message::Blank(true)]);
    let none = Packed::new(declared(128, 64, false));
    assert_eq!(none.lighting(Lighting::Full), vec![Message::Blank(false)]);
}

#[test]
fn a_pixel_is_a_bit_and_the_high_one_is_on_the_left() {
    let mut b = Bitmap::new(10, 2);
    b.set(0, 0, true);
    b.set(9, 1, true);
    b.set(10, 0, true);
    assert_eq!(b.bytes(), &[0x80, 0x00, 0x00, 0x40]);
    assert!(b.get(9, 1) && !b.get(8, 1) && !b.get(10, 0));
    b.set(0, 0, false);
    assert_eq!(b.bytes(), &[0x00, 0x00, 0x00, 0x40]);
    b.clear_all();
    assert_eq!(b.bytes(), &[0; 4]);
}

fn same_either_way(face: Face, w: u32, h: u32, ops: &[Op]) -> bool {
    let (mut ours, mut theirs) = (Bitmap::new(w, h), Bitmap::new(w, h));
    paint(&mut ours, face, ops);
    rendered(face, ops, &mut Panel(&mut theirs));
    ours.bytes() == theirs.bytes()
}

#[test]
fn a_screen_is_painted_as_the_fonts_own_renderer_draws_it() {
    for face in [Face::Px12, Face::Px16] {
        for (px_w, px_h) in [(128, 64), (256, 64), (240, 240), (131, 77)] {
            let painter = Painter::new(face, Layout { px_w, px_h, colour: false });
            let g = painter.geometry();
            let rows: Vec<Row> = vec![
                Row::Folder { name: "2024_録音".into(), selected: false },
                Row::Folder { name: "ÉÀß・ライブ音源 — a long, long name".into(), selected: true },
            ];
            let s = compose("録音", &rows[..g.listing_rows().min(rows.len())], "PLAY 1:35.0".into(), g);
            let (ops, report) = painter.draw(&s);
            assert_eq!(report.lost, 0);
            assert!(same_either_way(face, px_w, px_h, &ops), "{face:?} {px_w}x{px_h}");
        }
    }
}

#[test]
fn the_glyphs_of_a_face_are_painted_whole() {
    for face in [Face::Px12, Face::Px16] {
        let mut painted = 0;
        let kanji = (0x4e00..0xa000u32).step_by(61);
        for code in (0x20..0x7f).chain(0x3000..0x3100).chain(0xff00..0xff60).chain(kanji) {
            let Some(c) = char::from_u32(code) else { continue };
            if face.drawn_as(c) != Drawn::Itself {
                continue;
            }
            painted += 1;
            let text = Op::Text { x: 20, y: 20, text: format!("{c}{c}"), ink: Ink::Fg };
            assert!(same_either_way(face, 80, 64, &[text]), "{face:?} {c:?}");
        }
        assert!(painted > 250, "{face:?} has {painted}");
    }
}

#[test]
fn what_falls_off_the_panel_is_not_drawn() {
    let text = |x, y| Op::Text { x, y, text: "Wg".into(), ink: Ink::Dim };
    for (x, y) in [(-5, -3), (30, 12), (-40, 4), (4, 40), (i32::MIN, i32::MAX)] {
        let mut b = Bitmap::new(33, 17);
        paint(&mut b, Face::Px16, &[Op::Clear { ink: Ink::Fg }]);
        if x > i32::MIN {
            assert!(same_either_way(Face::Px16, 33, 17, &[text(x, y)]), "{x}, {y}");
            paint(&mut b, Face::Px16, &[text(x, y)]);
        }
        let bar = Op::Fill { x, y, w: 9, h: u32::MAX, ink: Ink::Bg };
        paint(&mut b, Face::Px16, &[bar]);
        for px in 0..33u32 {
            for py in 0..17u32 {
                let (fx, fy) = (px as i64 - x as i64, py as i64 - y as i64);
                let out = (0..9).contains(&fx) && (0..u32::MAX as i64).contains(&fy);
                assert_eq!(b.get(px, py), !out, "{px}, {py} from {x}, {y}");
            }
        }
    }
}

#[test]
fn a_name_with_a_newline_goes_on_a_line_below() {
    for face in [Face::Px12, Face::Px16] {
        let painter = Painter::new(face, Layout { px_w: 128, px_h: 64, colour: false });
        let s = Screen {
            folder: "one\ntwo".into(),
            lines: vec![Line {
                text: "a\n\nb.wav".into(),
                kind: Kind::Playable,
                selected: true,
            }],
            status: "PAUSE".into(),
        };
        let (ops, _) = painter.draw(&s);
        assert!(same_either_way(face, 128, 64, &ops), "{face:?}");
        let text = |t: &str| Op::Text { x: 1, y: 3, text: t.into(), ink: Ink::Fg };
        assert!(same_either_way(face, 128, 64, &[text("a\nb")]), "{face:?}");
        let (mut below, mut beside) = (Bitmap::new(128, 64), Bitmap::new(128, 64));
        paint(&mut below, face, &[text("a\nb")]);
        paint(&mut beside, face, &[text("ab")]);
        assert_ne!(below.bytes(), beside.bytes(), "{face:?}");
    }
}

#[test]
fn a_panel_larger_than_a_tile_is_painted_as_one() {
    for (w, h) in [(700, 40), (40, 300), (1030, 520)] {
        let long = "2024 録音 ライブ音源 ".repeat(12);
        let ops = [
            Op::Text { x: -3, y: 2, text: long.clone(), ink: Ink::Fg },
            Op::Text { x: 17, y: 250, text: "across\nan edge".into(), ink: Ink::Fg },
            Op::Text { x: 505, y: 249, text: long, ink: Ink::Fg },
        ];
        assert!(same_either_way(Face::Px16, w, h, &ops), "{w}x{h}");
    }
}

#[test]
fn what_the_link_threw_away_is_counted_for_the_panel() {
    let mut p = Packed::new(declared(128, 64, false));
    let mut bytes = vec![1, 2, 3];
    let fault = Message::Fault { code: 7, reason: "cable".into() };
    bytes.extend(fault.to_bytes());
    bytes.extend([4, 5]);
    bytes.extend(Message::Ack { seq: 1, micros: 1 }.to_bytes());
    assert_eq!(p.take(&bytes, 0), vec![fault]);
    assert_eq!(p.reader.resyncs, 5);
}

#[test]
fn a_line_longer_than_can_be_counted_in_pixels_is_told_apart() {
    let down = |n| Op::Text { x: 1, y: 1, text: "\n".repeat(n), ink: Ink::Fg };
    assert!(all_stay(Face::Px12, &[Op::Clear { ink: Ink::Bg }, down(8_388_608)]));
    assert!(!all_stay(Face::Px12, &[Op::Clear { ink: Ink::Bg }, down(8_388_609)]));
    let along = Op::Text { x: 1, y: 1, text: "W\u{10ffff}録".repeat(1000), ink: Ink::Fg };
    assert!(all_stay(Face::Px16, &[along]));
}
