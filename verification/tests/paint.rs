use embedded_graphics::pixelcolor::BinaryColor;
use embedded_graphics::prelude::{
    DrawTarget, Drawable, OriginDimensions, Pixel, Point, Primitive, Size,
};
use embedded_graphics::primitives::{PrimitiveStyle, Rectangle};
use u8g2_fonts::types::{FontColor, VerticalPosition};
use u8g2_fonts::{fonts, FontRenderer};

use deck_pi::browser::{Row, Verdict};
use deck_pi::display::paint::{
    marks, Drawn, Face, Ink, Layout, Op, Painter, Palette, Report, MARGIN_PX, SUBSTITUTE,
};
use deck_pi::display::{
    compose, fit, status_line, width, Geometry, Kind, Line, Screen, TRUNCATED,
};
use deck_pi::file::{Container, Depth, Reject, TrackInfo};
use deck_pi::transport::State;

fn renderer(face: Face) -> FontRenderer {
    match face {
        Face::Px12 => FontRenderer::new::<fonts::u8g2_font_b12_t_japanese3>(),
        Face::Px16 => FontRenderer::new::<fonts::u8g2_font_b16_t_japanese3>(),
    }
}

fn paint(face: Face, ops: &[Op], target: &mut Panel) {
    let pal = Palette::mono();
    for op in ops {
        match op {
            Op::Clear { ink } => target.clear(on(pal.colour(*ink))).unwrap(),
            Op::Fill { x, y, w, h, ink } => {
                Rectangle::new(Point::new(*x, *y), Size::new(*w, *h))
                    .into_styled(PrimitiveStyle::with_fill(on(pal.colour(*ink))))
                    .draw(target)
                    .unwrap();
            }
            Op::Text { x, y, text, ink } => {
                renderer(face)
                    .render(
                        text.as_str(),
                        Point::new(*x, *y),
                        VerticalPosition::Top,
                        FontColor::Transparent(on(pal.colour(*ink))),
                        target,
                    )
                    .expect("every character has a glyph");
            }
        }
    }
}

fn on(lit: bool) -> BinaryColor {
    if lit {
        BinaryColor::On
    } else {
        BinaryColor::Off
    }
}

struct Panel {
    w: u32,
    h: u32,
    px: Vec<BinaryColor>,
    oob: usize,
}

impl Panel {
    fn new(w: u32, h: u32) -> Panel {
        Panel { w, h, px: vec![BinaryColor::Off; (w * h) as usize], oob: 0 }
    }

    fn at(&self, x: u32, y: u32) -> BinaryColor {
        self.px[(y * self.w + x) as usize]
    }

    fn lit(&self) -> usize {
        self.px.iter().filter(|c| **c == BinaryColor::On).count()
    }

    fn lit_between(&self, y0: u32, y1: u32) -> usize {
        (y0..y1.min(self.h))
            .flat_map(|y| (0..self.w).map(move |x| (x, y)))
            .filter(|&(x, y)| self.at(x, y) == BinaryColor::On)
            .count()
    }
}

impl OriginDimensions for Panel {
    fn size(&self) -> Size {
        Size::new(self.w, self.h)
    }
}

impl DrawTarget for Panel {
    type Color = BinaryColor;
    type Error = core::convert::Infallible;

    fn draw_iter<I>(&mut self, pixels: I) -> Result<(), Self::Error>
    where
        I: IntoIterator<Item = Pixel<Self::Color>>,
    {
        for Pixel(p, c) in pixels {
            if p.x < 0 || p.y < 0 || p.x >= self.w as i32 || p.y >= self.h as i32 {
                self.oob += 1;
                continue;
            }
            self.px[(p.y as u32 * self.w + p.x as u32) as usize] = c;
        }
        Ok(())
    }
}

/// One line of text, drawn by itself at the top of the panel.
fn line(p: &Painter, text: &str, t: &mut Panel) -> Report {
    let (drawable, report) = p.prepare(text);
    let op = Op::Text { x: MARGIN_PX as i32, y: p.face().top_pad(), text: drawable, ink: Ink::Fg };
    paint(p.face(), &[op], t);
    report
}

/// One row of a listing: what a screen of that row alone draws at its place.
fn listing_line(p: &Painter, row: &Line, t: &mut Panel) -> Report {
    let screen = Screen {
        folder: String::new(),
        lines: vec![Line { text: row.text.clone(), kind: row.kind, selected: row.selected }],
        status: String::new(),
    };
    let (ops, report) = p.draw(&screen);
    let row_ops: Vec<Op> = ops
        .into_iter()
        .filter(|op| match op {
            Op::Clear { .. } => false,
            Op::Fill { y, .. } | Op::Text { y, .. } => {
                *y >= p.row_y(0) && *y < p.row_y(1) && *y < p.status_y() - 1
            }
        })
        .collect();
    paint(p.face(), &row_ops, t);
    report
}

fn small() -> Painter {
    Painter::new(Face::Px12, Layout { px_w: 128, px_h: 64, colour: false })
}

fn big() -> Painter {
    Painter::new(Face::Px16, Layout { px_w: 320, px_h: 240, colour: true })
}

fn folder(name: &str, selected: bool) -> Row {
    Row::Folder { name: name.into(), selected }
}

fn track(name: &str, selected: bool) -> Row {
    Row::File {
        name: name.into(),
        verdict: Verdict::Plays(TrackInfo {
            path: name.as_bytes().to_vec(),
            frames: 44_100,
            rate: 44_100,
            channels: 2,
            depth: Depth::Int16,
            container: Container::Aiff,
            seekable: true,
        }),
        selected,
    }
}

#[test]
fn column_is_half_a_cell_in_the_font_itself() {
    for face in [Face::Px12, Face::Px16] {
        let f = renderer(face);
        let adv = |s: &str| {
            f.get_rendered_dimensions(s, Point::zero(), VerticalPosition::Top)
                .expect("in the face")
                .advance
                .x as u32
        };
        for c in ["a", "W", "j", "!", "0", " ", "~", "?", "/", "."] {
            assert_eq!(adv(c), face.col_px(), "{c:?} in {face:?} is not one column");
        }
        for c in ["弘", "吉", "村", "追", "憶", "ー", "・", "ァ"] {
            assert_eq!(adv(c), face.glyph_px(), "{c:?} in {face:?} is not one cell");
        }
        assert_eq!(face.col_px() * 2, face.glyph_px());

        let name = "雨音_192k24";
        assert_eq!(adv(name), width(name) as u32 * face.col_px());
    }
}

#[test]
fn the_substitute_and_the_marker_exist() {
    for face in [Face::Px12, Face::Px16] {
        for c in [SUBSTITUTE, TRUNCATED] {
            assert!(
                renderer(face)
                    .get_rendered_dimensions(c, Point::zero(), VerticalPosition::Top)
                    .is_ok(),
                "{c:?} missing from {face:?}"
            );
        }
    }
}

#[test]
fn the_face_draws_the_library_that_is_on_the_stick() {
    let p = small();
    for name in [
        "吉村弘",
        "追憶のウォーデンクリフ",
        "2024_録音",
        "ライブ音源",
        "夜明けの前.wav",
        "雨音と遠雷_192k24.aiff",
        "圧縮済み.flac",
        "序章.aiff",
        "残響_88k2.wav",
        "屋外採集/2023",
        "ノイズフロア確認.aiff",
        "test_44k1_16.wav",
    ] {
        let mut t = Panel::new(128, 64);
        let r = line(&p, name, &mut t);
        assert_eq!((r.substituted, r.lost), (0, 0), "{name}: {r:?}");
        assert!(t.lit() > 0, "{name} drew no pixels at all");
        assert_eq!(t.oob, 0, "{name} drew {} pixels off the panel", t.oob);
    }
}

#[test]
fn the_ink_of_every_glyph_lands_inside_its_cell() {
    for face in [Face::Px12, Face::Px16] {
        let f = renderer(face);
        let cell = face.glyph_px() as i32;
        let mut seen = 0;
        for cp in 0x20u32..=0xFFFF {
            let Some(c) = char::from_u32(cp) else { continue };
            let Ok(d) = f.get_rendered_dimensions(c, Point::new(0, face.top_pad()), VerticalPosition::Top)
            else {
                continue;
            };
            seen += 1;
            assert!(
                d.advance.x == face.col_px() as i32 || d.advance.x == cell,
                "{c:?} in {face:?} advances {} — neither a column nor a cell",
                d.advance.x
            );
            let Some(bb) = d.bounding_box else { continue };
            assert!(bb.top_left.y >= 0, "{c:?} in {face:?} draws above its cell");
            assert!(
                bb.top_left.y + bb.size.height as i32 <= cell,
                "{c:?} in {face:?} draws below its cell"
            );
            assert!(
                bb.top_left.x + bb.size.width as i32 <= d.advance.x,
                "{c:?} in {face:?} draws past its advance"
            );
        }
        assert!(seen > 3_800, "{face:?} answered for only {seen} codepoints");
    }
}

#[test]
fn a_glyph_the_face_lacks_does_not_take_the_line_with_it() {
    let p = small();
    let mut t = Panel::new(128, 64);
    let r = line(&p, "夜明け…の前", &mut t);
    assert_eq!((r.folded, r.substituted, r.lost), (1, 0, 0), "{r:?}");
    assert!(t.lit() > 0, "the rest of the line still has to be drawn");
    let (text, _) = p.prepare("夜明け…の前");
    assert_eq!(text, "夜明け...の前");

    let mut t = Panel::new(128, 64);
    let r = line(&p, "濱瀬元彦", &mut t);
    assert_eq!((r.folded, r.substituted, r.lost), (0, 1, 0), "{r:?}");
    assert_eq!(p.prepare("濱瀬元彦").0, "?瀬元彦");
    assert!(t.lit() > 0);
}

#[test]
fn a_line_the_model_says_fits_is_never_clipped() {
    for p in [small(), big(), Painter::new(Face::Px12, Layout { px_w: 256, px_h: 64, colour: false })] {
        let g = p.geometry();
        let odd = if g.cols % 2 == 1 { "a" } else { "" };
        for name in [
            "a".repeat(g.cols),
            format!("{}{odd}", "字".repeat(g.cols / 2)),
            format!("{}{}", "音".repeat(g.cols / 4), "x".repeat(g.cols - 2 * (g.cols / 4))),
        ] {
            assert_eq!(width(&name), g.cols, "the fixture is not a full line");
            assert_eq!(fit(&name, g.cols), name, "the model would not pass this");
            let (drawn, r) = p.prepare(&name);
            assert_eq!(r, Report { folded: 0, substituted: 0, clipped: 0, lost: 0 }, "{:?} clipped a full line: {name}", p.face());
            assert_eq!(drawn, name);

            let mut t = Panel::new(p.layout().px_w, p.layout().px_h);
            line(&p, &name, &mut t);
            assert_eq!(t.oob, 0, "{:?} drew a full line off the panel", p.face());
        }
    }
}

#[test]
fn what_the_face_lacks_is_folded_to_something_that_reads_as_it() {
    for face in [Face::Px12, Face::Px16] {
        for (c, want) in [
            ('é', "e"),
            ('ã', "a"),
            ('ü', "u"),
            ('ñ', "n"),
            ('ç', "c"),
            ('É', "E"),
            ('ē', "e"),
            ('Ī', "I"),
            ('…', "..."),
            ('Ⅱ', "II"),
            ('ß', "ss"),
            ('æ', "ae"),
            ('µ', "u"),
            ('¥', "Y"),
            ('®', "(R)"),
            ('‐', "-"),
            ('–', "-"),
            ('″', "\""),
            ('\u{200b}', ""),
            ('\u{00ad}', ""),
        ] {
            assert_eq!(
                face.drawn_as(c),
                Drawn::Folded(want.to_owned()),
                "{c:?} in {face:?}"
            );
        }
        for c in ['a', '弘', 'ー', '・', 'Ａ', '１'] {
            assert_eq!(face.drawn_as(c), Drawn::Itself, "{c:?} in {face:?}");
        }
        for c in ['濱', '繋', '鈿'] {
            assert_eq!(face.drawn_as(c), Drawn::Substituted, "{c:?} in {face:?}");
        }
    }
}

#[test]
fn nothing_is_drawn_past_the_edge_of_the_panel() {
    let p = small();
    let mut t = Panel::new(128, 64);
    let long = "第三楽章-長い名前で切り詰めが起きる例と更に続く名前.wav";
    let r = line(&p, long, &mut t);
    assert_eq!(r.clipped, 1, "{r:?}");
    assert_eq!(t.oob, 0, "{} pixels drawn off the panel", t.oob);

    let (text, _) = p.prepare(long);
    assert!(text.ends_with(TRUNCATED), "{text:?}");
    let px: u32 = text
        .chars()
        .map(|c| {
            renderer(p.face())
                .get_rendered_dimensions(c, Point::zero(), VerticalPosition::Top)
                .unwrap()
                .advance
                .x as u32
        })
        .sum();
    assert!(px + MARGIN_PX as u32 <= 128, "{px} px plus the margin");
}

#[test]
fn the_grid_comes_from_the_face_and_leaves_the_status_line_alone() {
    assert_eq!(small().geometry(), Geometry { cols: 21, rows: 5, colour: false });
    assert_eq!(big().geometry(), Geometry { cols: 39, rows: 14, colour: true });

    for p in [small(), big()] {
        let last = p.face().row_h() * p.listing_capacity() as u32;
        assert!(
            last + p.face().glyph_px() <= p.status_y() as u32,
            "{:?}: the bottom entry reaches {} and the status starts at {}",
            p.face(),
            last + p.face().glyph_px(),
            p.status_y()
        );
    }
}

#[test]
fn a_whole_screen_draws_inside_the_panel_and_says_nothing_went_wrong() {
    let p = small();
    let g = p.geometry();
    let rows = [
        folder("2024_録音", false),
        track("追憶のウォーデンクリフ.aiff", true),
        track("test_44k1_16.wav", false),
    ];
    let status = status_line(
        State::Playing,
        Some(44_100),
        Some(16),
        Some(95_000_000_000),
        g,
    );
    let screen = compose("録音", &rows[..g.listing_rows()], status, g);

    let mut t = Panel::new(128, 64);
    let r = {
        let (ops, report) = p.draw(&screen);
        paint(p.face(), &ops, &mut t);
        report
    };
    assert!(r.is_clean(), "{r:?}");
    assert_eq!(t.oob, 0);
    assert!(t.lit_between(0, 12) > 0, "the path line is blank");
    assert!(t.lit_between(13, 38) > 0, "the listing is blank");
    assert!(t.lit_between(p.status_y() as u32, 64) > 0, "the status line is blank");
}

#[test]
fn the_selection_is_a_bar_with_the_name_knocked_out_of_it() {
    let p = small();
    let row = |selected| Line {
        text: "夜明けの前.wav".into(),
        kind: Kind::Playable,
        selected,
    };

    let mut plain = Panel::new(128, 64);
    listing_line(&p, &row(false), &mut plain);
    let mut barred = Panel::new(128, 64);
    listing_line(&p, &row(true), &mut barred);

    assert!(barred.lit() > plain.lit() * 2, "{} vs {}", barred.lit(), plain.lit());
    assert_eq!(barred.lit_between(13, 26), (128 * 13) - plain.lit_between(13, 26));
}

#[test]
fn a_mono_panel_spends_a_column_saying_what_colour_would_say_with_a_pen() {
    assert_eq!(marks(Kind::Folder, false), ("", "/"));
    assert_eq!(marks(Kind::Refused, false), ("!", ""));
    assert_eq!(marks(Kind::Unreadable, false), ("*", ""));
    assert_eq!(marks(Kind::Playable, false), ("", ""));
    for kind in [Kind::Folder, Kind::Refused, Kind::Unreadable, Kind::Playable] {
        assert_eq!(marks(kind, true), ("", ""), "colour says it with the pen");
    }

    let p = small();
    let g = p.geometry();
    let rows = [Row::File {
        name: "圧縮済みでとても長い名前のファイル.flac".into(),
        verdict: Verdict::Refused(Reject::Depth { found: 0 }),
        selected: false,
    }];
    let screen = compose("録音", &rows, "PAUSE".into(), g);
    let mut t = Panel::new(128, 64);
    let r = listing_line(&p, &screen.lines[0], &mut t);
    assert_eq!(t.oob, 0);
    assert_eq!(r.clipped, 0, "the model's budget already fits, marks included");
}

#[test]
fn the_position_redraw_touches_only_the_status_row() {
    let p = small();
    let mut t = Panel::new(128, 64);
    paint(p.face(), &p.draw_status("PLAY 1:35.0 44k/16").0, &mut t);
    assert_eq!(t.lit_between(0, p.status_y() as u32), 0, "drew above the status row");
    assert!(t.lit_between(p.status_y() as u32, 64) > 0);

    let mut t = Panel::new(128, 64);
    paint(p.face(), &p.draw_status("PLAY 10:09.9 192k/24").0, &mut t);
    let long = t.lit();
    paint(p.face(), &p.draw_status("PLAY 1:10.0").0, &mut t);
    assert!(t.lit() < long, "the longer line was still on the panel");
}
