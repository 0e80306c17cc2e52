use deck_pi::app::panel::NO_MEDIUM;
use deck_pi::browser::Row;
use deck_pi::display::text::{console, Text};
use deck_pi::display::{compose, width, Geometry, Kind, Line, Screen};

fn screen() -> Screen {
    Screen {
        folder: "録音".into(),
        lines: vec![
            Line { text: "2024_録音".into(), kind: Kind::Folder, selected: false },
            Line { text: "夜明けの前.wav".into(), kind: Kind::Playable, selected: true },
            Line { text: "圧縮済み.flac".into(), kind: Kind::Refused, selected: false },
        ],
        status: "PLAY 1:35.0 44k/16".into(),
    }
}

fn render(g: Geometry, ansi: bool) -> String {
    let mut t = Text::new(g).with_ansi(ansi);
    t.show(&screen())
}

#[test]
fn the_block_is_always_the_panels_height() {
    for rows in [4, 6, 12] {
        let g = Geometry { rows, ..console() };
        let out = render(g, false);
        assert_eq!(out.lines().count(), rows, "at {rows} rows: {out:?}");
    }
}

#[test]
fn it_shows_the_marks_the_mono_panel_shows() {
    let out = render(console(), false);
    assert!(out.contains("2024_録音/"), "{out}");
    assert!(out.contains("!圧縮済み.flac"), "{out}");
    assert!(out.starts_with("録音\n"), "{out}");
    assert!(out.trim_end().ends_with("PLAY 1:35.0 44k/16"), "{out}");
}

#[test]
fn the_selection_costs_a_column_only_where_it_has_to() {
    let plain = render(console(), false);
    assert!(plain.contains(">夜明けの前.wav"), "{plain}");

    let ansi = render(console(), true);
    assert!(ansi.contains("\x1b[7m夜明けの前.wav"), "{ansi:?}");
    assert!(!ansi.contains(">夜明けの前.wav"), "{ansi:?}");
}

#[test]
fn a_note_drops_the_block_so_the_next_draw_starts_clean() {
    let mut out = String::new();
    let mut t = Text::new(console()).with_ansi(true);
    out.push_str(&t.show(&screen()));
    out.push_str(&t.note("medium: browsable"));
    out.push_str(&t.show(&screen()));

    assert_eq!(out.matches("\x1b[12A").count(), 1, "{out:?}");
    assert!(out.contains("medium: browsable\n"), "{out:?}");
}

#[test]
fn an_empty_deck_still_draws_a_block() {
    let g = console();
    let empty = Screen {
        folder: NO_MEDIUM.to_owned(),
        lines: Vec::new(),
        status: "NO TRACK".into(),
    };
    let mut t = Text::new(g);
    let out = t.show(&empty);
    assert_eq!(out.lines().count(), g.rows);
    assert!(out.starts_with("No USB\n"), "{out}");
    assert!(out.trim_end().ends_with("NO TRACK"), "{out}");
}

#[test]
fn the_model_is_what_truncates_and_this_does_not_widen_it() {
    let g = Geometry { cols: 12, rows: 4, colour: false };
    let rows = [Row::Folder {
        name: "とても長いフォルダ名".into(),
        selected: false,
    }];
    let screen = compose("録音", &rows, "PAUSE".into(), g);
    let mut t = Text::new(g);
    let out = t.show(&screen);
    let listing = out.lines().nth(1).expect("a listing row");
    assert!(listing.ends_with('/'), "{listing:?}");
    assert_eq!(
        width(listing),
        g.cols,
        "{listing:?} is not one panel wide"
    );
}
