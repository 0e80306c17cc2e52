use deck_pi::browser::Row;
use deck_pi::display::{
    compose, fit, status_line, timecode, width, Cadence, Geometry, Redraw, COALESCE,
    POSITION_EVERY, TRUNCATED,
};
use deck_pi::transport::State;

const SECOND: u128 = 1_000_000_000;
const MILLI: u128 = 1_000_000;

fn geom() -> Geometry {
    Geometry { cols: 16, rows: 6, colour: false }
}

#[test]
fn a_name_that_fits_is_left_alone() {
    assert_eq!(fit("short", 16), "short");
    assert_eq!(fit("exactly-16-chars", 16), "exactly-16-chars");
}

#[test]
fn truncation_replaces_a_character_rather_than_adding_one() {
    let cut = fit("exactly-17-charss", 16);
    assert_eq!(cut.chars().count(), 16);
    assert!(cut.ends_with(TRUNCATED));
}

#[test]
fn a_budget_is_columns_and_not_characters_or_bytes() {
    let name = "雨音_192k24";
    assert_eq!(name.chars().count(), 9);
    assert_eq!(width(name), 11, "two kanji at two columns each, seven ASCII");
    assert!(name.len() > 11, "pointless unless multibyte");

    assert_eq!(fit(name, 11), name);

    let cut = fit(name, 10);
    assert!(width(&cut) <= 10, "{cut:?} is {} columns", width(&cut));
    assert!(cut.ends_with(TRUNCATED));
    assert!(!cut.contains('\u{fffd}'));

    let narrow = fit("追憶", 3);
    assert!(width(&narrow) <= 3, "{narrow:?}");
}

#[test]
fn an_ascii_name_is_not_truncated_at_half_the_panel() {
    let name = "test_44k1_16.wav";
    assert_eq!(width(name), 16);
    assert_eq!(fit(name, 16), name, "sixteen columns fit sixteen columns");
}

#[test]
fn a_zero_budget_is_empty_rather_than_a_panic() {
    assert_eq!(fit("anything", 0), "");
    let narrow = Geometry { cols: 1, rows: 1, colour: false };
    assert_eq!(narrow.name_budget(), 0, "one column, and the mark takes it");
    assert_eq!(narrow.listing_rows(), 0);
    assert_eq!(fit("anything", narrow.name_budget()), "");
}

#[test]
fn the_status_line_keeps_the_transport_when_the_rate_will_not_fit() {
    let wide = Geometry { cols: 24, ..geom() };
    let s = status_line(State::Playing, Some(44_100), Some(16), Some(95 * SECOND), wide);
    assert!(s.contains("PLAY"), "{s}");
    assert!(s.contains("1:35.0"), "{s}");
    assert!(s.contains("44k/16"), "{s}");

    let narrow = Geometry { cols: 12, ..geom() };
    let s = status_line(State::Playing, Some(44_100), Some(16), Some(95 * SECOND), narrow);
    assert_eq!(s, "PLAY 1:35.0");
    assert!(!s.contains('~'), "a dropped field should not look like a cut one: {s}");
}

#[test]
fn an_empty_deck_does_not_say_stop() {
    let wide = Geometry { cols: 24, ..geom() };
    let s = status_line(State::Stopped, Some(44_100), Some(16), Some(95 * SECOND), wide);
    assert!(!s.contains("STOP"), "{s}");
    assert!(!s.contains("1:35"), "an empty deck has no position: {s}");
    assert!(!s.contains("44k"), "nor a rate in use: {s}");

    let f = status_line(State::SeekingForward, None, None, Some(0), wide);
    assert!(f.starts_with("FF"), "{f}");
    let b = status_line(State::SeekingBack, None, None, Some(0), wide);
    assert!(b.starts_with("REW"), "{b}");
}

#[test]
fn a_position_is_minutes_seconds_and_tenths() {
    assert_eq!(timecode(0), "0:00.0");
    assert_eq!(timecode(1_500 * MILLI), "0:01.5");
    assert_eq!(timecode(95_400 * MILLI), "1:35.4");
    assert_eq!(timecode(3_600 * SECOND), "60:00.0");
}

#[test]
fn the_listing_leaves_room_for_the_path_and_the_status() {
    let rows: Vec<Row> = (0..10)
        .map(|i| Row::Folder { name: format!("folder-{i}"), selected: i == 0 })
        .collect();
    let screen = compose("録音", &rows[..geom().listing_rows()], "PAUSE".into(), geom());
    assert_eq!(screen.lines.len(), geom().listing_rows());
    assert_eq!(screen.lines.len(), 4, "six rows, less the path and the status");
}

#[test]
fn a_spin_is_coalesced_and_the_last_detent_is_not_lost() {
    let mut c = Cadence::new();
    assert_eq!(c.poll(0, true, false), Redraw::Full);

    for i in 1..=10u64 {
        let t = i as u128 * MILLI;
        assert_eq!(c.poll(t, true, false), Redraw::Nothing, "at {i} ms");
    }
    assert_eq!(c.poll(COALESCE, false, false), Redraw::Full);
    assert_eq!(c.poll(COALESCE + COALESCE, false, false), Redraw::Nothing);
}

#[test]
fn the_position_ticks_while_playing_and_not_while_stopped() {
    let mut c = Cadence::new();
    assert_eq!(c.poll(0, true, true), Redraw::Full);

    let t = POSITION_EVERY - 1 * MILLI;
    assert_eq!(c.poll(t, false, true), Redraw::Nothing);
    assert_eq!(c.poll(POSITION_EVERY, false, true), Redraw::Position);

    let mut c = Cadence::new();
    assert_eq!(c.poll(0, true, false), Redraw::Full);
    assert_eq!(c.poll(POSITION_EVERY * 10, false, false), Redraw::Nothing);
}

#[test]
fn a_full_draw_restarts_the_position_tick() {
    let mut c = Cadence::new();
    assert_eq!(c.poll(0, true, true), Redraw::Full);
    let late = POSITION_EVERY - 100 * MILLI;
    assert_eq!(c.poll(late, true, true), Redraw::Full);
    assert_eq!(c.poll(POSITION_EVERY, false, true), Redraw::Nothing);
    assert_eq!(c.poll(late + POSITION_EVERY, false, true), Redraw::Position);
}
