use deck_pi::display::{fit, width, Cadence, Redraw};
use deck_pi::engine::{Engine, Outcome};
use deck_pi::file::Track;
use deck_pi::ring::{self, confirm, readable_now, Miss};
use deck_pi::scan::{is_white, lines, number, starts_with, trim, word};
use deck_pi::sndfile::ffi::{SF_FORMAT_PCM_16, SF_FORMAT_PCM_24, SF_FORMAT_WAV, SF_INFO};
use deck_pi::text::{chars_of, decimal_text, parse_number, push_digits, push_two_digits, signed_text, string_of};
use deck_pi::transport::{
    motion_read, whole_frame, Reading, State, Transport, RATE_SEEK, RATE_UNITY, UNIT,
};

#[test]
fn a_reader_takes_only_what_was_published_and_confirms_it() {
    assert_eq!(readable_now(0, 100, 40, 40, 8), Ok(8));
    assert_eq!(readable_now(0, 100, 40, 96, 8), Ok(4));
    assert_eq!(readable_now(0, 100, 40, 39, 8), Err(Miss::NotResident));
    assert_eq!(readable_now(0, 100, 40, 100, 8), Err(Miss::NotResident));
    assert_eq!(readable_now(1, 100, 40, 50, 8), Err(Miss::Relocated));
    assert_eq!(readable_now(1, 100, 40, 50, 0), Ok(0));
    assert_eq!(confirm(2, 40, 2, 40), Ok(()));
    assert_eq!(confirm(2, 41, 2, 40), Err(Miss::Overrun));
    assert_eq!(confirm(2, 0, 4, 40), Err(Miss::Relocated));
    assert_eq!(confirm(2, 41, 3, 40), Err(Miss::Relocated));
}

#[test]
fn what_the_writer_does_shows_in_the_span() {
    let (mut r, mut w, reader) = ring::new(4);
    w.relocate(&mut r, 10);
    assert_eq!((r.start, r.end, r.generation), (10, 10, 2));
    w.append(&mut r, &[1, 2, 3, 4, 5, 6]);
    assert_eq!(r.slots, vec![5, 6, 0, 0, 1, 2, 3, 4]);
    w.drop_before(&mut r, 12);
    assert_eq!(w.writable(&r), 3);
    w.append(&mut r, &[7, 8]);
    assert_eq!(reader.read_frame(&r, 13), Ok([7, 8]));
    assert_eq!(reader.read_frame(&r, 11), Err(Miss::NotResident));
    w.append(&mut r, &[]);
    assert_eq!(reader.resident(&r), 12..14);
}

#[test]
fn playing_hands_on_the_source_exactly_and_stops_inside_the_track() {
    let (mut r, mut w, reader) = ring::new(16);
    w.append(&mut r, &(0..20).collect::<Vec<i32>>());
    let mut t = Transport::new();
    t.track_loaded(0);
    t.play();
    let mut e = Engine::new(10);
    let mut heard = Vec::new();
    loop {
        let mut out = [99; 6];
        match e.fill(&mut t, &reader, &mut r, &mut out) {
            Outcome::Played { frames } | Outcome::PlayedTail { frames } => {
                heard.extend_from_slice(&out[..frames * 2]);
            }
            Outcome::EndOfTrack => break,
            other => panic!("{other:?}"),
        }
        assert!(e.position() <= 10 * UNIT);
    }
    assert_eq!(heard, (0..20).collect::<Vec<i32>>());
    assert_eq!(e.position(), 10 * UNIT);
}

#[test]
fn a_seek_moves_by_its_rate_and_rewinding_retraces_it() {
    let (mut r, _w, reader) = ring::new(16);
    let mut t = Transport::new();
    t.track_loaded(0);
    t.begin_seek(true);
    let mut e = Engine::new(1_000);
    let mut out = [7; 20];
    for n in 1..=3i128 {
        assert_eq!(e.fill(&mut t, &reader, &mut r, &mut out), Outcome::Seeking);
        assert_eq!(e.position(), n * 10 * RATE_SEEK as i128);
        assert_eq!(out, [0; 20]);
    }
    t.begin_seek(false);
    for _ in 0..3 {
        e.fill(&mut t, &reader, &mut r, &mut out);
    }
    assert_eq!(e.position(), 0);
}

#[test]
fn every_control_keeps_an_empty_deck_empty() {
    let mut t = Transport::new();
    t.play();
    t.pause();
    t.begin_seek(true);
    t.end_seek(true);
    t.cue_down();
    t.cue_up();
    assert_eq!((t.state(), t.rate(), t.is_silent()), (State::Stopped, 0, false));
    assert_eq!(t.peek_seek(), None);
}

#[test]
fn an_empty_deck_stays_empty_whatever_reaches_it() {
    let mut t = Transport::new();
    assert_eq!(t.back_cue(), 0);
    assert_eq!((t.state(), t.peek_seek()), (State::Stopped, None));
    t.reached_end();
    assert_eq!((t.state(), t.peek_seek()), (State::Stopped, None), "only a load leaves it");
    t.track_loaded(7);
    t.back_cue();
    assert_eq!(t.peek_seek(), Some(7), "with a track there is somewhere to go back to");
    t.track_unloaded();
    t.back_cue();
    t.reached_end();
    assert_eq!((t.state(), t.peek_seek()), (State::Stopped, None));
}

#[test]
fn a_newer_seek_outlives_the_taking_of_an_older_one() {
    let mut t = Transport::new();
    t.track_loaded(0);
    t.request_seek(5);
    t.request_seek(9);
    t.consumed_seek(5);
    assert_eq!(t.peek_seek(), Some(9));
    assert_eq!(t.settled_position(), None);
    t.consumed_seek(9);
    assert_eq!(t.peek_seek(), None);
    t.request_seek(3);
    t.track_loaded(0);
    assert_eq!(t.peek_seek(), None, "a load clears what was latched");
    assert_eq!(whole_frame(2_999), 2);
}

#[test]
fn a_reading_that_moved_is_answered_by_the_later_one() {
    let steady = |stamp, silent, rate| Reading { before: stamp, silent, rate, after: stamp };
    let torn = Reading { before: 3, silent: false, rate: RATE_SEEK, after: 4 };
    assert_eq!(motion_read(steady(2, false, RATE_UNITY), torn), (RATE_UNITY, false));
    assert_eq!(motion_read(torn, steady(4, true, RATE_SEEK)), (RATE_SEEK, true));
    assert!(motion_read(torn, torn).1, "never a seek that is heard");
}

#[test]
fn what_is_fitted_fits_and_a_change_is_never_lost() {
    for budget in 0..12 {
        for name in ["", "a", "01 - Long name.wav", "日本語のなまえ.wav", "e\u{301}e\u{301}e\u{301}"] {
            assert!(width(&fit(name, budget)) <= budget, "{name} in {budget}");
        }
    }
    let mut c = Cadence::new();
    assert_eq!(c.poll(0, true, false), Redraw::Full);
    let mut whole = Vec::new();
    for now in 1..400u128 {
        if c.poll(now * 1_000_000, now == 1, false) == Redraw::Full {
            whole.push(now);
        }
    }
    assert_eq!(whole.len(), 1, "drawn once, and no more");
}

#[test]
fn numbers_are_written_and_read_back() {
    for n in [0u64, 7, 10, 99, 1_000_000, u64::MAX] {
        let mut out = Vec::new();
        push_digits(&mut out, n);
        assert_eq!(out, n.to_string().into_bytes());
        assert_eq!(parse_number(&out, u64::MAX), Some(n));
        assert_eq!(decimal_text(n as u128), n.to_string());
    }
    assert_eq!(parse_number(b"256", 255), None);
    assert_eq!(parse_number(b"+5", 255), Some(5));
    for bad in [&b""[..], b"+", b"-1", b"1x", b" 1", b"99999999999999999999999"] {
        assert_eq!(parse_number(bad, u64::MAX), None);
    }
    assert_eq!(signed_text(-40), "-40");
    assert_eq!(signed_text(i64::MIN), i64::MIN.to_string());
    let mut s = String::from("1:");
    push_two_digits(&mut s, 5);
    push_two_digits(&mut s, 59);
    assert_eq!(s, "1:0559");
}

#[test]
fn text_is_taken_apart_as_it_is_written() {
    let of = |s: &str| chars_of(s);
    assert_eq!(string_of(&of("aé日")), "aé日");
    let split: Vec<String> = lines(&of("a\nb\r\n\nc")).iter().map(|l| string_of(l)).collect();
    assert_eq!(split, "a\nb\r\n\nc".lines().collect::<Vec<_>>());
    assert_eq!(string_of(&trim(&of(" \t x y\u{3000}\n"))), "x y");
    assert_eq!(word(&of("  one two")).map(|w| string_of(&w)), Some("one".to_string()));
    assert_eq!(word(&of("   ")), None);
    assert_eq!(number(&of("64"), 100), Some(64));
    assert_eq!(number(&of("6é"), 100), None);
    assert!(starts_with(&of("--device=x"), &of("--device=")));
    assert!(!starts_with(&of("--de"), &of("--device=")));
    for c in ['a', ' ', '\u{85}', '\u{a0}', '\u{200b}', '\u{2009}', '0', '\u{feff}', '\u{180e}'] {
        assert_eq!(is_white(c), c.is_whitespace(), "{c:?}");
    }
}

#[test]
fn a_source_reaches_the_device_sample_for_sample() {
    let header = |format, channels| SF_INFO {
        frames: 6,
        samplerate: 44_100,
        channels,
        format: SF_FORMAT_WAV | format,
        sections: 1,
        seekable: 1,
    };
    // Two bits of room either side of the extremes, as the file stores them.
    let wide = [0, -1, 0x7f_ffff, -0x80_0000, 5, -6, 7, 8, 9, 10, 11, 12];
    let narrow = [0, -1, 0x7fff, -0x8000, 5, -6];
    for (format, channels, source, shift) in [
        (SF_FORMAT_PCM_24, 2, &wide[..], 8),
        (SF_FORMAT_PCM_16, 1, &narrow[..], 16),
    ] {
        let track = Track::open(b"t.wav", Ok(header(format, channels))).expect("plays");
        let mut read = [0i32; 12];
        for (to, v) in read.iter_mut().zip(source) {
            *to = v << shift;
        }
        assert_eq!(track.read_into_ring(&mut read, Ok(6)), Ok(6));
        let (mut r, mut w, reader) = ring::new(8);
        w.append(&mut r, &read);
        let mut t = Transport::new();
        t.track_loaded(0);
        t.play();
        let mut out = [0; 12];
        let outcome = Engine::new(6).fill(&mut t, &reader, &mut r, &mut out);
        assert_eq!(outcome, Outcome::Played { frames: 6 });
        for (i, heard) in out.iter().enumerate() {
            let stored = if channels == 1 { source[i / 2] * 256 } else { source[i] };
            assert_eq!(*heard, stored, "sample {i}");
        }
    }
}
