use deck_pi::app::audio::{AtEnd, Do, Report as AudioReport, Run, Stopped, Then};
use deck_pi::app::controls::{Controls, Report, Turn, POLL};
use deck_pi::app::deck::{Ask, Deck, DeckError};
use deck_pi::app::medium::{Mount, POLL_EVERY};
use deck_pi::app::panel::{fingerprint, screen_of, Panel, Seen, NO_MEDIUM};
use deck_pi::app::track::{self, Config, LoadError};
use deck_pi::browser::{Browser, EntryKind, Fetched, Item, ItemKind, Needs, Verdict};
use deck_pi::cue::{CueError, CueFile, CueStore};
use deck_pi::display::{Geometry, Kind, Lighting, Redraw};
use deck_pi::engine::Outcome;
use deck_pi::file::{Container, Depth, OpenError, Reject, TrackInfo};
use deck_pi::input::{Action, Button, RawEvent, EV_KEY, EV_REL, REL_X};
use deck_pi::loaded::{Loaded, Step};
use deck_pi::media::{MediaWatch, Medium};
use deck_pi::ring::Miss;
use deck_pi::sink::SinkError;
use deck_pi::sndfile::SndFileError;
use deck_pi::transport::{State, Transport, RATE_PAUSED, RATE_SEEK, RATE_UNITY, UNIT};

const ROOT: &[u8] = b"/media/stick";

fn item(name: &str, kind: ItemKind) -> Item {
    Item { name: name.as_bytes().to_vec(), kind }
}

fn listing() -> Vec<Item> {
    vec![
        item("2.wav", ItemKind::Is(EntryKind::File)),
        item("10.wav", ItemKind::Is(EntryKind::File)),
        item("set", ItemKind::Is(EntryKind::Folder)),
        item("1.wav", ItemKind::Is(EntryKind::File)),
    ]
}

fn info(path: &str) -> TrackInfo {
    TrackInfo {
        path: path.as_bytes().to_vec(),
        frames: 1_000,
        rate: 44_100,
        channels: 2,
        depth: Depth::Int16,
        container: Container::Wav,
        seekable: true,
    }
}

fn store() -> CueStore {
    CueStore::load(b"/state", "vol", ROOT, CueFile::Missing).expect("first use")
}

fn deck() -> Deck {
    let browser = Browser::open(ROOT, Ok(listing())).expect("opens");
    Deck::new(Some(browser), Some(store()), Config::default())
}

fn loaded_deck() -> (Deck, Transport) {
    let mut d = deck();
    let mut t = Transport::new();
    let engine = d.load(&mut t, Ok(info("/media/stick/2.wav")), Ok(44_100)).expect("loads");
    assert_eq!((engine.position(), engine.track_frames), (0, 1_000));
    (d, t)
}

#[test]
fn play_and_pause_are_one_button_and_an_empty_deck_refuses_it() {
    let mut d = deck();
    let mut t = Transport::new();
    assert!(matches!(d.apply(&mut t, Action::Press(Button::PlayPause)), Ok(Ask::Nothing)));
    assert_eq!(t.state(), State::Stopped);
    let (mut d, mut t) = loaded_deck();
    d.apply(&mut t, Action::Press(Button::PlayPause)).expect("play");
    assert_eq!((t.state(), t.rate()), (State::Playing, RATE_UNITY));
    d.apply(&mut t, Action::Press(Button::PlayPause)).expect("pause");
    assert_eq!((t.state(), t.rate()), (State::Paused, RATE_PAUSED));
}

#[test]
fn a_seek_returns_to_what_was_running() {
    let (mut d, mut t) = loaded_deck();
    for (button, rate) in [(Button::Ff, RATE_SEEK), (Button::Rew, -RATE_SEEK)] {
        d.apply(&mut t, Action::Press(button)).expect("seek");
        assert_eq!(t.rate(), rate);
        d.apply(&mut t, Action::Release(button)).expect("release");
        assert_eq!(t.state(), State::Paused, "it was paused");
    }
    d.apply(&mut t, Action::Press(Button::PlayPause)).expect("play");
    d.apply(&mut t, Action::Press(Button::Ff)).expect("seek");
    d.apply(&mut t, Action::Release(Button::Ff)).expect("release");
    assert_eq!(t.state(), State::Playing, "it was playing");
}

#[test]
fn a_cue_is_kept_for_the_loaded_track_and_not_for_the_selection() {
    let (mut d, mut t) = loaded_deck();
    d.apply(&mut t, Action::Browse(2)).expect("browse elsewhere");
    t.publish_position(500 * UNIT);
    match d.apply(&mut t, Action::Press(Button::Cue)).expect("set") {
        Ask::Save(save) => {
            assert_eq!(save.file, b"/state/vol.cues".to_vec());
            let text = String::from_utf8(save.bytes).expect("text");
            assert!(text.ends_with("\n500\t2.wav\n"), "{text:?}");
        }
        other => panic!("{other:?}"),
    }
    assert!(matches!(d.apply(&mut t, Action::Release(Button::Cue)), Ok(Ask::Nothing)));
    // Nothing loaded: nothing is kept.
    let mut empty = deck();
    let mut none = Transport::new();
    assert!(matches!(empty.apply(&mut none, Action::Press(Button::Cue)), Ok(Ask::Nothing)));
    // A track that is not on the medium has no key.
    let mut d = Deck::new(None, None, Config::default());
    let mut t = Transport::new();
    d.load(&mut t, Ok(info("/elsewhere/a.wav")), Ok(44_100)).expect("no store, no key");
    d.cues = Some(store());
    t.publish_position(5 * UNIT);
    assert!(matches!(
        d.apply(&mut t, Action::Press(Button::Cue)),
        Err(DeckError::Cue(CueError::OutsideMedium { .. }))
    ));
}

#[test]
fn a_back_cue_tells_the_window_it_is_a_jump() {
    let (mut d, mut t) = loaded_deck();
    d.apply(&mut t, Action::Press(Button::PlayPause)).expect("play");
    t.publish_position(300 * UNIT);
    assert!(matches!(d.apply(&mut t, Action::Press(Button::Cue)), Ok(Ask::Relocate(0))));
    assert_eq!(t.peek_seek(), Some(0));
}

#[test]
fn a_search_moves_from_the_playing_track_and_stops_at_the_ends() {
    let (mut d, mut t) = loaded_deck();
    let step = |d: &mut Deck, t: &mut Transport, b| match d.apply(t, Action::Press(b)) {
        Ok(Ask::Search { step, folder }) => {
            assert_eq!(folder, Some(ROOT.to_vec()));
            d.search(step, Ok(listing())).expect("read")
        }
        other => panic!("{other:?}"),
    };
    assert_eq!(step(&mut d, &mut t, Button::TrackNext), Some(b"/media/stick/10.wav".to_vec()));
    assert_eq!(step(&mut d, &mut t, Button::TrackPrev), Some(b"/media/stick/1.wav".to_vec()));
    d.load(&mut t, Ok(info("/media/stick/10.wav")), Ok(44_100)).expect("loads");
    assert_eq!(step(&mut d, &mut t, Button::TrackNext), None, "the last file");
    assert!(matches!(
        d.search(Step::Next, Err("gone".to_string())),
        Err(DeckError::Browse(_))
    ));
    let nothing = Loaded::nothing();
    assert_eq!(nothing.neighbour(Step::Next, Ok(listing())), Ok(None));
}

#[test]
fn enter_descends_or_loads_and_back_returns_to_the_folder_left() {
    let mut d = deck();
    let mut t = Transport::new();
    // The folder comes first.
    match d.apply(&mut t, Action::Press(Button::Enter)) {
        Ok(Ask::Enter(Needs::Folder(path))) => assert_eq!(path, b"/media/stick/set".to_vec()),
        other => panic!("{other:?}"),
    }
    let inside = vec![item("a.wav", ItemKind::Is(EntryKind::File)), item("b.wav", ItemKind::Is(EntryKind::File))];
    assert_eq!(d.entered(Fetched::Folder(Ok(inside))).expect("descends"), None);
    assert_eq!(d.browser().expect("there").path(), b"/media/stick/set".to_vec());
    d.apply(&mut t, Action::Browse(1)).expect("down");
    match d.apply(&mut t, Action::Press(Button::Enter)) {
        Ok(Ask::Enter(Needs::Header(path))) => {
            assert_eq!(path, b"/media/stick/set/b.wav".to_vec());
            let got = Fetched::Header(Verdict::Plays(info("/media/stick/set/b.wav")));
            assert_eq!(d.entered(got).expect("plays"), Some(b"/media/stick/set/b.wav".to_vec()));
        }
        other => panic!("{other:?}"),
    }
    // A verdict that is known needs nothing more, and one that refuses loads nothing.
    assert!(matches!(
        d.apply(&mut t, Action::Press(Button::Enter)),
        Ok(Ask::Enter(Needs::Nothing))
    ));
    d.apply(&mut t, Action::Browse(-5)).expect("up");
    let refused = Fetched::Header(Verdict::Refused(Reject::Container));
    assert_eq!(d.entered(refused).expect("says why on its row"), None);
    match d.apply(&mut t, Action::Press(Button::Back)) {
        Ok(Ask::Back(Some(path))) => assert_eq!(path, ROOT.to_vec()),
        other => panic!("{other:?}"),
    }
    assert!(d.went_back(Err("gone".to_string())).is_err());
    d.went_back(Ok(listing())).expect("back");
    let b = d.browser().expect("there");
    assert_eq!((b.path(), b.selected_index()), (ROOT.to_vec(), 0));
    assert!(matches!(d.apply(&mut t, Action::Press(Button::Back)), Ok(Ask::Back(None))));
}

#[test]
fn the_selection_stops_at_either_end() {
    let mut d = deck();
    let mut t = Transport::new();
    for (detents, at) in [(2, 2), (i32::MAX, 3), (-1, 2), (i32::MIN, 0)] {
        d.apply(&mut t, Action::Browse(detents.clamp(-1_000, 1_000))).expect("browse");
        assert_eq!(d.browser().expect("there").selected_index(), at);
    }
    // No medium: nothing to browse, enter or go back from.
    let mut none = Deck::new(None, None, Config::default());
    for action in [
        Action::Browse(3),
        Action::Press(Button::Enter),
        Action::Press(Button::Back),
    ] {
        assert!(matches!(none.apply(&mut t, action), Ok(Ask::Nothing)));
    }
    assert_eq!(none.entered(Fetched::Nothing).expect("nothing"), None);
    none.went_back(Ok(Vec::new())).expect("nothing");
}

#[test]
fn a_load_that_fails_leaves_nothing_loaded() {
    for (opened, sink, want) in [
        (
            Err(OpenError::Unreadable(SndFileError { message: "bad".into() })),
            Ok(44_100),
            "unreadable: bad",
        ),
        (Ok(info("/media/stick/a.wav")), Err(SinkError::Underrun), "underrun — the period was late"),
        (
            Ok(info("/media/stick/a.wav")),
            Ok(48_000),
            "the sink opened at 48000 Hz for a 44100 Hz track — the output rate follows the \
             source, per track",
        ),
        (Ok(info("/other/a.wav")), Ok(44_100), "/other/a.wav is not on the medium"),
    ] {
        let (mut d, mut t) = loaded_deck();
        let e = d.load(&mut t, opened, sink).expect_err("refused");
        assert_eq!(e.to_text(), want);
        assert!(d.loaded().path().is_none());
        assert!(!d.playing());
        assert_eq!(t.state(), State::Stopped);
    }
}

#[test]
fn a_load_restores_the_stored_cue_and_waits_at_the_head() {
    let mut s = store();
    s.set(b"/media/stick/2.wav", 777).expect("set");
    let mut loaded = Loaded::nothing();
    let mut t = Transport::new();
    track::load(Ok(info("/media/stick/2.wav")), Ok(44_100), Some(&s), &mut loaded, &mut t)
        .expect("loads");
    assert_eq!((t.cue_point(), t.position(), t.state()), (777, 0, State::Paused));
    assert_eq!(loaded.cue(&s).expect("keyed"), 777);
    assert!(Config::default().rt.is_none());
    assert!(matches!(
        track::load(Ok(info("/x.wav")), Ok(44_100), Some(&s), &mut loaded, &mut t),
        Err(LoadError::Cue(_))
    ));
}

#[test]
fn servicing_pauses_at_the_end_and_lets_go_of_a_track_whose_threads_are_gone() {
    let (mut d, mut t) = loaded_deck();
    t.play();
    t.publish_position(999 * UNIT);
    assert!(!d.service(&mut t, false));
    assert_eq!(t.state(), State::Playing);
    t.publish_position(1_000 * UNIT);
    t.request_seek(3);
    d.service(&mut t, false);
    assert_eq!(t.state(), State::Playing, "a seek is in flight");
    t.consumed_seek(3);
    d.service(&mut t, false);
    assert_eq!(t.state(), State::Paused);
    assert!(d.service(&mut t, true), "the threads are gone");
    assert_eq!(t.state(), State::Stopped);
    assert!(d.loaded().track().is_none());
    assert!(!d.service(&mut t, true), "once");
}

fn key(b: Button, value: i32) -> RawEvent {
    RawEvent { kind: EV_KEY, code: b.keycode(), value }
}

#[test]
fn a_vanished_device_ends_the_gesture_it_was_holding() {
    let mut c = Controls::new(None);
    assert_eq!(c.turn(0, &[key(Button::Ff, 1)]), vec![Action::Press(Button::Ff)]);
    assert_eq!(
        c.turn(1, &[key(Button::PlayPause, 1)]),
        vec![Action::Release(Button::Ff), Action::Press(Button::PlayPause)]
    );
    assert_eq!(c.resets(), 1);
    assert_eq!(c.turn(0, &[key(Button::Ff, 0)]), vec![], "it was closed already");
    let detent = RawEvent { kind: EV_REL, code: REL_X, value: -2 };
    assert_eq!(c.turn(0, &[detent]), vec![Action::Browse(-2)]);
    assert!(!c.axis_is_clamped());
    assert_eq!(Controls::new(Some((0, 23))).decoder.abs_range, Some((0, 23)));
    assert_eq!(Controls::new(Some((i32::MIN, i32::MAX))).decoder.abs_range, None);
    assert_eq!(POLL, 10_000_000);
}

#[test]
fn a_run_of_the_loop_is_counted() {
    let mut r = Report::default();
    let why = DeckError::Cue(CueError::OutsideMedium { path: Vec::new() });
    r.count(&Turn { actions: 3, lost: 1, reopened: 1, ended: None, errors: vec![why] }, true);
    r.count(&Turn::default(), false);
    assert_eq!(r, Report { turns: 2, actions: 3, lost: 1, errors: 1, ends: 0, media: 1 });
}

fn browsable(uuid: Option<&str>) -> Medium {
    Medium::Browsable { uuid: uuid.map(str::to_string) }
}

#[test]
fn a_change_of_medium_ejects_even_where_another_takes_its_place() {
    let (mut d, mut t) = loaded_deck();
    let mut m = Mount::new(MediaWatch::new(ROOT.to_vec()), Some(b"/state".to_vec()));
    let held = CueFile::Read(b"5\ta.wav\n".to_vec());
    let seen = browsable(Some("A"));
    assert!(m.changes(&seen));
    let change = m.turn(&mut d, &mut t, seen, None, Ok(listing()), held).expect("a change");
    assert!(change.is_clean());
    assert!(!d.playing() && t.state() == State::Stopped, "the track went first");
    let cues = d.cues.as_ref().expect("kept");
    assert_eq!(cues.get(b"a.wav").expect("keyed"), 5);
    assert_eq!(d.browser().expect("there").len(), 4);

    // The same sight again is no change.
    let again = m.turn(&mut d, &mut t, browsable(Some("A")), None, Ok(Vec::new()), CueFile::Missing);
    assert!(again.is_none());
    assert_eq!(d.browser().expect("there").len(), 4);

    // Another stick between two looks.
    let b = m.turn(&mut d, &mut t, browsable(Some("B")), None, Ok(Vec::new()), CueFile::Missing);
    assert!(b.expect("a change").is_clean());
    assert_eq!(d.browser().expect("there").len(), 0);
    assert!(d.cues.as_ref().expect("kept").is_empty());

    // No name, no cues; nothing to browse, nothing at all.
    let none = m.turn(&mut d, &mut t, browsable(None), None, Ok(listing()), CueFile::Missing);
    assert!(none.expect("a change").is_clean());
    assert!(d.cues.is_none() && d.browser.is_some());
    m.turn(&mut d, &mut t, Medium::Absent, None, Ok(listing()), CueFile::Missing).expect("gone");
    assert!(d.cues.is_none() && d.browser.is_none());
}

#[test]
fn cues_are_kept_in_the_state_directory_and_never_on_the_medium() {
    let (mut d, mut t) = loaded_deck();
    let mut m = Mount::new(MediaWatch::new(ROOT.to_vec()), Some(b"/state".to_vec()));
    for file in [CueFile::Missing, CueFile::Read(b"5\ta.wav\n".to_vec())] {
        m.turn(&mut d, &mut t, Medium::Absent, None, Ok(Vec::new()), CueFile::Missing);
        m.turn(&mut d, &mut t, browsable(Some("A")), None, Ok(listing()), file).expect("a change");
        assert_eq!(d.cues.as_ref().expect("kept").path(), b"/state/A.cues");
        let b = d.browser().expect("there");
        assert_eq!((b.first, b.headers.len()), (0, 0));
    }
    let failed = CueFile::Failed("denied".into());
    let c = m.turn(&mut d, &mut t, browsable(Some("C")), None, Ok(listing()), failed);
    match c.expect("a change").cueless {
        Some(CueError::Io { path, error }) => {
            assert_eq!((path.as_slice(), error.as_str()), (&b"/state/C.cues"[..], "denied"));
        }
        other => panic!("{other:?}"),
    }
}

#[test]
fn a_medium_that_will_not_open_says_so() {
    let (mut d, mut t) = (deck(), Transport::new());
    let mut m = Mount::new(MediaWatch::new(ROOT.to_vec()), Some(b"/state".to_vec()));
    let c = m
        .turn(&mut d, &mut t, browsable(Some("A")), None, Err("gone".into()), CueFile::Missing)
        .expect("a change");
    assert!(c.unbrowsable.is_some() && c.cueless.is_none() && d.browser.is_none());
    let c = m
        .turn(&mut d, &mut t, browsable(Some("a/b")), None, Ok(listing()), CueFile::Missing)
        .expect("a change");
    assert!(matches!(c.cueless, Some(CueError::BadVolume { .. })) && d.browser.is_some());
    let failed = CueFile::Failed("denied".into());
    let c = m
        .turn(&mut d, &mut t, browsable(Some("C")), None, Ok(listing()), failed)
        .expect("a change");
    assert!(matches!(c.cueless, Some(CueError::Io { .. })) && d.cues.is_none());
}

#[test]
fn the_medium_is_looked_at_at_a_human_rate_and_at_once_on_the_first_turn() {
    let mut m = Mount::at_default_path(None);
    assert_eq!(m.watch().mount_point(), ROOT);
    assert!(m.due(0));
    assert!(!m.due(POLL_EVERY - 1));
    assert!(m.due(POLL_EVERY));
    let mut quick = Mount::at_default_path(None).with_interval(10);
    assert!(quick.due(5) && !quick.due(14) && quick.due(15));
}

const GRID: Geometry = Geometry { cols: 24, rows: 5, colour: false };

#[test]
fn the_screen_is_the_deck_as_it_is() {
    let (mut d, mut t) = loaded_deck();
    match screen_of(&mut d, &t, GRID) {
        Seen::Unread(path) => assert_eq!(path, b"/media/stick/1.wav".to_vec()),
        other => panic!("{other:?}"),
    }
    let b = d.browser.as_mut().expect("there");
    b.learn(b"/media/stick/1.wav".to_vec(), Verdict::Unreadable("no".into()));
    b.learn(b"/media/stick/2.wav".to_vec(), Verdict::Plays(info("/media/stick/2.wav")));
    t.play();
    t.publish_position(44_100 * UNIT * 3 / 2);
    match screen_of(&mut d, &t, GRID) {
        Seen::Screen(s) => {
            assert_eq!(s.folder, "stick", "its own name, and not the path");
            let rows: Vec<(&str, Kind, bool)> =
                s.lines.iter().map(|l| (l.text.as_str(), l.kind, l.selected)).collect();
            assert_eq!(
                rows,
                vec![
                    ("set", Kind::Folder, true),
                    ("1.wav", Kind::Unreadable, false),
                    ("2.wav", Kind::Playable, false),
                ]
            );
            assert_eq!(s.status, "PLAY 0:01.5 44k/16");
        }
        other => panic!("{other:?}"),
    }
    let mut none = Deck::new(None, None, Config::default());
    match screen_of(&mut none, &Transport::new(), GRID) {
        Seen::Screen(s) => {
            assert_eq!((s.folder.as_str(), s.status.as_str()), (NO_MEDIUM, "NO TRACK"));
            assert!(s.lines.is_empty());
        }
        other => panic!("{other:?}"),
    }
}

#[test]
fn a_panel_redraws_what_changed_and_dims_only_when_nothing_plays() {
    let second: u128 = 1_000_000_000;
    let (mut d, mut t) = loaded_deck();
    let mut p = Panel::new((), 60 * second, 120 * second);
    let print = fingerprint(&d, &t, GRID);
    assert_eq!(p.light(0, &print), None);
    assert_eq!(p.turn(0, &print), Redraw::Full);
    p.drew(print.clone());
    assert_eq!(p.turn(second, &print), Redraw::Nothing);
    // Idle: dim, then blank.
    assert_eq!(p.light(59 * second, &print), None);
    assert_eq!(p.light(60 * second, &print), Some(Lighting::Dim));
    p.lit(Lighting::Dim);
    assert_eq!(p.light(120 * second, &print), Some(Lighting::Blank));
    p.lit(Lighting::Blank);
    assert_eq!(p.lighting(), Lighting::Blank);
    // A press wakes it before anything is drawn.
    d.apply(&mut t, Action::Browse(1)).expect("browse");
    let moved = fingerprint(&d, &t, GRID);
    assert!(!moved.same(&print));
    assert_eq!(p.light(121 * second, &moved), Some(Lighting::Full));
    p.lit(Lighting::Full);
    assert_eq!(p.turn(121 * second, &moved), Redraw::Full);
    p.drew(moved);
    // Playing: never dimmed, and the position ticks.
    t.play();
    let playing = fingerprint(&d, &t, GRID);
    p.turn(122 * second, &playing);
    p.drew(playing.clone());
    assert_eq!(p.light(10_000 * second, &playing), None);
    assert_eq!(p.turn(10_000 * second, &playing), Redraw::Position);
    // A panel that was replaced is blank, and is drawn whole.
    p.forget();
    assert_eq!(p.light(10_001 * second, &playing), Some(Lighting::Full));
    assert_eq!(p.turn(10_001 * second, &playing), Redraw::Full);
    *p.show_mut() = ();
    assert_eq!(p.show(), &());
}

#[test]
fn a_miss_and_a_pause_are_silence_and_neither_ends_a_run() {
    let mut run = Run::new(true, AtEnd::Idle);
    assert!(matches!(run.filled(Outcome::Played { frames: 64 }, false), Do::Write(64)));
    assert!(matches!(run.filled(Outcome::PlayedTail { frames: 7 }, true), Do::Write(7)));
    for outcome in [
        Outcome::Paused,
        Outcome::Seeking,
        Outcome::Missed(Miss::Relocated),
        Outcome::EndOfTrack,
    ] {
        assert!(matches!(run.filled(outcome, false), Do::Feed), "{outcome:?}");
        let mut quiet = Run::new(false, AtEnd::Idle);
        assert!(matches!(quiet.filled(outcome, false), Do::Yield), "{outcome:?}");
    }
    assert_eq!(run.report.misses, 1);
    assert!(matches!(
        run.filled(Outcome::Missed(Miss::NotResident), true),
        Do::Stop(Stopped::MediumLost)
    ));
    let mut once = Run::new(true, AtEnd::Stop);
    assert!(matches!(
        once.filled(Outcome::EndOfTrack, false),
        Do::Stop(Stopped::EndOfTrack)
    ));
    match once.filled(Outcome::NeedsResampler { rate: 1050, fractional: true }, false) {
        Do::Stop(Stopped::Unexpected(why)) => {
            assert_eq!(why, "NeedsResampler { rate: 1.05, fractional: true }")
        }
        other => panic!("{other:?}"),
    }
}

/// The same outcome with its rate as a number.
#[derive(Debug)]
#[allow(dead_code)]
enum Unservable {
    NeedsResampler { rate: f64, fractional: bool },
}

#[test]
fn an_unservable_rate_is_said_as_the_number_it_is() {
    let said = |rate, fractional| {
        let mut run = Run::new(true, AtEnd::Stop);
        match run.filled(Outcome::NeedsResampler { rate, fractional }, false) {
            Do::Stop(Stopped::Unexpected(why)) => why,
            other => panic!("{other:?}"),
        }
    };
    for rate in [
        0, 1, -1, 5, 10, 50, 100, 120, 123, 500, 999, 1000, 1001, 1010, 1050, -1000, 16_000, -16_500,
        123_456_789_012, i32::MIN as i64,
    ] {
        let number = Unservable::NeedsResampler { rate: rate as f64 / 1000.0, fractional: false };
        assert_eq!(said(rate, false), format!("{number:?}"));
    }
    assert_eq!(said(-500, true), "NeedsResampler { rate: -0.5, fractional: true }");
}

#[test]
fn at_bring_up_the_stream_is_verified_once_a_period_was_taken() {
    let mut run = Run::bring_up(true);
    assert!(matches!(run.wrote(64, Err(SinkError::Underrun)), Then::Continue));
    assert!(!run.verified, "it has not run yet");
    assert!(matches!(run.wrote(64, Ok(())), Then::Verify));
    assert!(matches!(run.wrote(64, Err(SinkError::Underrun)), Then::Continue));
    assert!(matches!(run.wrote(64, Ok(())), Then::Continue));
    assert_eq!((run.report.frames, run.report.underruns), (128, 2));
    assert!(matches!(run.filled(Outcome::EndOfTrack, false), Do::Stop(Stopped::EndOfTrack)));
}

#[test]
fn the_stream_is_verified_once_it_runs_and_an_underrun_is_counted() {
    let mut run = Run::new(true, AtEnd::Stop);
    assert!(matches!(run.wrote(64, Err(SinkError::Underrun)), Then::Verify));
    assert!(matches!(run.wrote(64, Ok(())), Then::Continue));
    match run.wrote(64, Err(SinkError::Device("gone".into()))) {
        Then::Stop(Stopped::Unexpected(why)) => assert_eq!(why, "device: gone"),
        other => panic!("{other:?}"),
    }
    run.heard(&[3, -9, 4]);
    run.heard(&[8]);
    assert_eq!(
        run.report,
        AudioReport { frames: 64, misses: 0, underruns: 1, peak: 9, elapsed: 0 }
    );
    assert_eq!(Run::verified(Ok(())), None);
    assert_eq!(
        Run::verified(Err(SinkError::Underrun)),
        Some(Stopped::Unexpected(
            "ALSA substituted something: underrun — the period was late".to_string()
        ))
    );
    assert_eq!(Run::fed(Err(SinkError::Underrun)), None);
    assert!(Run::fed(Err(SinkError::Device("x".into()))).is_some());
}
