use deck_pi::app::controls::Turn;
use deck_pi::app::deck::DeckError;
use deck_pi::app::medium::Change;
use deck_pi::browser::{BrowseError, Row, Verdict};
use deck_pi::cli::deck::{window_fits, DEVICE};
use deck_pi::cli::report::{
    asking_text, change_lines, exit_code, limits_text, media_code, mount_text, row_text,
    rt_verdict, turn_lines, NEEDED_BYTES,
};
use deck_pi::cli::{deck, parse, Args, Mode};
use deck_pi::cue::CueError;
use deck_pi::display::Geometry;
use deck_pi::file::{Container, Depth, Reject, TrackInfo};
use deck_pi::media::{Medium, StatFailed};
use deck_pi::ring::WINDOW_BYTES_PLACEHOLDER;
use deck_pi::rt::{Limits, Policy, RtError, RtInForce, RtRequest};

fn parse_of(args: &[&str]) -> Result<Args, String> {
    let argv: Vec<Vec<u8>> = args.iter().map(|a| a.as_bytes().to_vec()).collect();
    parse(&argv)
}

#[test]
fn a_mistyped_flag_is_an_error_and_not_a_filename() {
    let e = parse_of(&["--drian", "short.wav"]).expect_err("must be refused");
    assert!(e.contains("--drian"), "the message must name it: {e}");
    assert_eq!(e, "unknown argument \"--drian\"");
}

#[test]
fn a_value_flag_written_with_a_space_says_so_rather_than_eating_the_value() {
    let e = parse_of(&["--device", "hw:0,0", "f"]).expect_err("must be refused");
    assert!(e.contains('='), "the message must say how to write it: {e}");
}

#[test]
fn the_two_playback_modes_are_not_silently_ranked() {
    let e = parse_of(&["--drain", "--device=hw:0,0", "f"]).expect_err("must be refused");
    assert!(e.contains("pick one"), "{e}");
}

#[test]
fn a_check_mode_refuses_to_ignore_the_rest_of_the_line() {
    assert!(parse_of(&["track.wav", "--rt-check"]).is_err());
    assert!(parse_of(&["--rt-check", "--drain"]).is_err());
    assert!(parse_of(&["--rt-check", "--media-check"]).is_err());
    assert_eq!(
        parse_of(&["--rt-check"]).expect("alone"),
        Args { mode: Mode::RtCheck(None), paths: vec![] }
    );
}

#[test]
fn a_core_number_that_is_not_a_number_is_refused_rather_than_dropped() {
    let e = parse_of(&["--rt-check=abc"]).expect_err("must be refused");
    assert!(e.contains("core number"), "{e}");
    assert_eq!(
        parse_of(&["--rt-check=2"]).expect("a number is fine"),
        Args { mode: Mode::RtCheck(Some(2)), paths: vec![] }
    );
}

#[test]
fn the_ordinary_forms_still_work_and_a_dash_file_is_reachable() {
    assert_eq!(
        parse_of(&["a.wav", "b.wav"]).expect("report"),
        Args {
            mode: Mode::Report,
            paths: vec![b"a.wav".to_vec(), b"b.wav".to_vec()]
        }
    );
    assert_eq!(
        parse_of(&["--drain", "a.wav"]).expect("drain").mode,
        Mode::Drain
    );
    assert_eq!(
        parse_of(&["--device=hw:1,0", "a.wav"]).expect("device").mode,
        Mode::Device("hw:1,0".into())
    );
    assert_eq!(
        parse_of(&["--", "--odd-name.wav"]).expect("after --").paths,
        vec![b"--odd-name.wav".to_vec()]
    );
}

#[test]
fn no_file_is_an_error_rather_than_a_silent_success() {
    assert!(parse_of(&["--drain"]).is_err());
    assert!(parse_of(&["--device=hw:0,0"]).is_err());
    assert!(parse_of(&[]).is_err());
}

#[test]
fn every_refusal_of_a_line_says_why() {
    for (args, want) in [
        (&["--device"][..], "--device takes its value with '=', as --device=..."),
        (&["--rt-check-"][..], "--rt-check- takes its value with '=', as --rt-check-=..."),
        (&["--rt-check=x"][..], "--rt-check= wants a core number, got \"x\""),
        (&["--rt-check", "--media-check"][..], "--rt-check and --media-check are separate runs"),
        (&["--rt-check", "f"][..], "--rt-check takes nothing else; it is a check, not a mode"),
        (&["--media-check", "f"][..], "--media-check takes nothing else; it is a check, not a mode"),
        (&["--drain"][..], "no file given"),
    ] {
        assert_eq!(parse_of(args).expect_err("refused"), want);
    }
    assert_eq!(
        parse_of(&["--media-check"]).expect("alone").mode,
        Mode::MediaCheck("/media/stick".into())
    );
    assert_eq!(
        parse_of(&["--media-check=/mnt"]).expect("alone").mode,
        Mode::MediaCheck("/mnt".into())
    );
    // A path is kept as its bytes, whatever they are.
    assert_eq!(parse(&[vec![0xff, 0x41]]).expect("a path").paths, vec![vec![0xff, 0x41]]);
}

fn deck_of(args: &[&str]) -> Result<Option<deck::Args>, String> {
    let argv: Vec<String> = args.iter().map(|a| a.to_string()).collect();
    deck::parse(&argv)
}

#[test]
fn the_deck_takes_its_own_arguments() {
    let plain = deck_of(&[]).expect("fine").expect("not help");
    assert_eq!(plain.device, DEVICE);
    assert_eq!(plain.mount, "/media/stick");
    assert_eq!(plain.window_bytes, WINDOW_BYTES_PLACEHOLDER);
    assert!(plain.rt);
    assert_eq!(plain.grid, Geometry { cols: 40, rows: 12, colour: false });
    let a = deck_of(&["--device=hw:1", "--mount=/m", "--window-mib=8", "--no-rt", "--grid=21x5"])
        .expect("fine")
        .expect("not help");
    assert_eq!((a.device.as_str(), a.mount.as_str()), ("hw:1", "/m"));
    assert_eq!(a.window_bytes, 8 * 1024 * 1024);
    assert!(!a.rt);
    assert_eq!(a.grid, Geometry { cols: 21, rows: 5, colour: false });
    assert_eq!(deck_of(&["--no-rt", "--help", "--nonsense"]), Ok(None));
    assert_eq!(deck_of(&["-h"]), Ok(None));
    for (args, want) in [
        (&["--window-mib=x"][..], "--window-mib= wants a number, got \"x\""),
        (&["--grid=5"][..], "--grid= wants COLSxROWS, got \"5\""),
        (&["--grid=ax5"][..], "bad columns in \"ax5\""),
        (&["--grid=5x"][..], "bad rows in \"5x\""),
        (&["--what"][..], "unknown argument \"--what\""),
    ] {
        assert_eq!(deck_of(args).expect_err("refused"), want);
    }
    assert!(window_fits("--window-mib=64"));
    assert!(!window_fits("--window-mib=18446744073709551615"));
    assert!(window_fits("--window-mib=x") && window_fits("anything"));
}

#[test]
fn the_realtime_check_says_what_it_asked_and_what_it_got() {
    let lim = |memlock_bytes| Ok(Limits { memlock_bytes, rtprio: 80 });
    assert_eq!(limits_text(&lim(None)), "limits: memlock unlimited  rtprio 80");
    assert_eq!(
        limits_text(&lim(Some(67_108_865))),
        "limits: memlock 67108865 bytes (64 MiB)  rtprio 80"
    );
    assert_eq!(
        limits_text(&Err(RtError::Refused { call: "getrlimit", errno: 1 })),
        "limits: unreadable — getrlimit refused: errno 1"
    );
    assert_eq!(NEEDED_BYTES, 2 * WINDOW_BYTES_PLACEHOLDER as u64);
    let req = RtRequest::default();
    assert_eq!(
        asking_text(&req, NEEDED_BYTES),
        "asking:  SCHED_FIFO 75  memlock >= 128 MiB  prefault 256 KiB  cpu None"
    );
    assert_eq!(
        asking_text(&RtRequest { cpu: Some(3), ..req }, 0),
        "asking:  SCHED_FIFO 75  memlock >= 0 MiB  prefault 256 KiB  cpu Some(3)"
    );
    let got = RtInForce { policy: Policy::Fifo, priority: 75, locked_kib: 9, cpus: vec![1, 2] };
    assert_eq!(
        rt_verdict(&Ok(got)),
        (
            "in force: SCHED_FIFO priority 75  VmLck 9 kB  cpus [1, 2]\nrt-check: OK".to_string(),
            0
        )
    );
    assert_eq!(
        rt_verdict(&Err(RtError::NotSupported)),
        (
            "rt-check: FAILED\nrealtime setup needs Linux; this is not the deck".to_string(),
            1
        )
    );
}

#[test]
fn the_media_check_says_what_an_existence_test_would_get_wrong() {
    assert_eq!(mount_text(&Ok(true), "", true), "  mount test: something is mounted here");
    assert_eq!(
        mount_text(&Ok(false), "", true),
        "  mount test: nothing mounted — but the directory exists, which an existence test would \
         call a stick"
    );
    assert_eq!(mount_text(&Ok(false), "", false), "  mount test: nothing mounted");
    assert_eq!(mount_text(&Err(StatFailed {}), "denied", false), "  mount test: denied");
    assert_eq!(media_code(&Medium::Absent), 1);
    assert_eq!(media_code(&Medium::Unreadable { reason: String::new() }), 1);
    assert_eq!(media_code(&Medium::Browsable { uuid: None }), 0);
    assert_eq!((exit_code(0), exit_code(1), exit_code(7)), (0, 1, 1));
}

#[test]
fn a_row_of_a_listing_carries_its_verdict() {
    assert_eq!(row_text(&Row::Folder { name: "A".into(), selected: true }), "    [dir]  A");
    let file = |verdict| Row::File { name: "t.wav".into(), verdict, selected: false };
    let info = TrackInfo {
        path: b"t.wav".to_vec(),
        frames: 1,
        rate: 96_000,
        channels: 2,
        depth: Depth::Int24,
        container: Container::Rf64,
        seekable: true,
    };
    assert_eq!(row_text(&file(Verdict::Plays(info))), "    PLAYS  t.wav  RF64 96000 Hz 24 bit");
    assert_eq!(
        row_text(&file(Verdict::Refused(Reject::Rate { found: 32_000 }))),
        "    refuse t.wav  32000 Hz — outside 44.1-192 kHz"
    );
    assert_eq!(row_text(&file(Verdict::Unreadable("no".into()))), "    ??     t.wav  no");
}

#[test]
fn a_turn_says_what_went_away_and_what_was_refused() {
    assert!(turn_lines(&Turn::default()).is_empty());
    let refused = |why: &str| {
        DeckError::Browse(BrowseError::Unreadable { path: b"/m".to_vec(), reason: why.into() })
    };
    let turn = Turn { actions: 1, lost: 2, reopened: 1, ended: None, errors: vec![refused("a"), refused("b")] };
    assert_eq!(
        turn_lines(&turn),
        vec![
            "control surface: 2 node(s) went away",
            "control surface: 1 node(s) came back",
            "refused: /m: a",
            "refused: /m: b",
        ]
    );
    let change = Change {
        medium: Medium::Absent,
        ended: None,
        unbrowsable: Some(BrowseError::OutsideRoot { path: b"/x".to_vec() }),
        cueless: Some(CueError::OutsideMedium { path: b"/y".to_vec() }),
    };
    assert_eq!(
        change_lines(&change),
        vec![
            "medium: no medium",
            "  cannot browse it: /x resolves outside the medium",
            "  cues will not load: /y is not on the medium — the deck plays, cues do not persist",
        ]
    );
    assert!(!change.is_clean());
}
