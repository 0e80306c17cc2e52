use deck_pi::input::{
    axis_range, carried, discover, has_code, ioc_read, name_of, parse_event, parse_event_in,
    wants_reading, Action, Button, ByteOrder, Carries, Decoder, Device, Devices, Discipline, Node,
    Polled, RawEvent, Waited, ABS_X, ALL, EVENT_LEN, EV_ABS, EV_KEY, EV_REL, EV_SYN, POLLERR,
    POLLHUP, POLLIN, POLLNVAL, PRODUCT, REL_X, SYN_DROPPED, TIME_LEN,
};

#[test]
fn a_capability_bitmap_is_read_by_code_and_is_short_rather_than_wrong() {
    let map = [0b0000_0001u8, 0b0000_0010u8];
    assert!(has_code(&map, 0));
    assert!(!has_code(&map, 1));
    assert!(has_code(&map, 9));
    assert!(!has_code(&map, 8));
    assert!(!has_code(&map, 16));
    assert!(!has_code(&map, u16::MAX));
    assert!(!has_code(&[], 0));
}

#[test]
fn every_button_keycode_fits_the_map_carries_asks_for() {
    for b in ALL {
        assert!(
            (b.keycode() as usize) < 96 * 8,
            "{:?} at {} is outside the bitmap",
            b,
            b.keycode()
        );
    }
}

fn key(code: u16, value: i32) -> RawEvent {
    RawEvent {
        kind: EV_KEY,
        code,
        value,
    }
}

#[test]
fn play_fires_on_the_press_however_long_it_is_held() {
    let mut d = Decoder::default();
    let mut out = Vec::new();

    d.feed(key(Button::PlayPause.keycode(), 1), &mut out);
    assert_eq!(out, vec![Action::Press(Button::PlayPause)]);

    out.clear();
    d.feed(key(Button::PlayPause.keycode(), 0), &mut out);
    assert!(out.is_empty(), "a Simple button says nothing on release");
}

#[test]
fn search_seeks_from_the_press_and_track_search_is_its_own_button() {
    let mut d = Decoder::default();
    let mut out = Vec::new();

    d.feed(key(Button::Ff.keycode(), 1), &mut out);
    assert_eq!(out, vec![Action::Press(Button::Ff)], "no threshold to wait out");
    out.clear();

    d.feed(key(Button::Ff.keycode(), 0), &mut out);
    assert_eq!(out, vec![Action::Release(Button::Ff)], "the release ends the seek");

    out.clear();
    d.feed(key(Button::TrackNext.keycode(), 1), &mut out);
    assert_eq!(out, vec![Action::Press(Button::TrackNext)]);
    out.clear();
    d.feed(key(Button::TrackNext.keycode(), 0), &mut out);
    assert!(out.is_empty(), "a Simple button says nothing on release");
}

#[test]
fn cue_is_a_press_and_a_release_because_the_transport_decides() {
    let mut d = Decoder::default();
    let mut out = Vec::new();

    d.feed(key(Button::Cue.keycode(), 1), &mut out);
    assert_eq!(out, vec![Action::Press(Button::Cue)]);
    out.clear();

    d.feed(key(Button::Cue.keycode(), 0), &mut out);
    assert_eq!(out, vec![Action::Release(Button::Cue)]);
}

#[test]
fn every_button_has_a_discipline_and_the_split_is_the_documented_one() {
    let expected = [
        (Button::Back, Discipline::Simple),
        (Button::PlayPause, Discipline::Simple),
        (Button::Enter, Discipline::Simple),
        (Button::TrackNext, Discipline::Simple),
        (Button::TrackPrev, Discipline::Simple),
        (Button::Cue, Discipline::Momentary),
        (Button::Rew, Discipline::Momentary),
        (Button::Ff, Discipline::Momentary),
    ];
    for (b, want) in expected {
        assert_eq!(b.discipline(), want, "{:?}", b);
    }
    for b in ALL {
        assert_eq!(Button::from_keycode(b.keycode()), Some(b), "{:?}", b);
    }
    let mut codes: Vec<u16> = ALL.iter().map(|b| b.keycode()).collect();
    codes.sort_unstable();
    codes.dedup();
    assert_eq!(codes.len(), ALL.len(), "two buttons share a keycode");
}

#[test]
fn a_relative_encoder_scrolls_and_an_absolute_one_does_not_jump_on_the_first_event() {
    let mut d = Decoder::default();
    let mut out = Vec::new();

    for v in [1, -1, 3] {
        d.feed(
            RawEvent {
                kind: EV_REL,
                code: REL_X,
                value: v,
            },
            &mut out,
        );
    }
    assert_eq!(
        out,
        vec![Action::Browse(1), Action::Browse(-1), Action::Browse(3)]
    );

    let mut d = Decoder::default();
    let mut out = Vec::new();
    let abs = |v| RawEvent {
        kind: EV_ABS,
        code: ABS_X,
        value: v,
    };
    d.feed(abs(5000), &mut out);
    assert!(out.is_empty(), "the first absolute reading must not scroll");
    d.feed(abs(5002), &mut out);
    d.feed(abs(5001), &mut out);
    assert_eq!(out, vec![Action::Browse(2), Action::Browse(-1)]);
}

#[test]
fn an_absolute_encoder_that_wraps_reads_as_one_detent_not_a_jump() {
    let mut d = Decoder::default();
    d.set_abs_range(0, 23);
    let mut out = Vec::new();

    let abs = |v: i32| RawEvent { kind: EV_ABS, code: ABS_X, value: v };
    d.feed(abs(22), &mut out);
    d.feed(abs(23), &mut out);
    d.feed(abs(0), &mut out);
    d.feed(abs(1), &mut out);
    assert_eq!(
        out,
        vec![Action::Browse(1), Action::Browse(1), Action::Browse(1)],
        "three detents clockwise must read as three"
    );

    out.clear();
    d.feed(abs(0), &mut out);
    d.feed(abs(23), &mut out);
    assert_eq!(
        out,
        vec![Action::Browse(-1), Action::Browse(-1)],
        "1 -> 0 -> 23 is two detents back, and the wrap is not a jump"
    );
}

#[test]
fn without_a_known_range_an_absolute_axis_is_still_read_as_a_difference() {
    let mut d = Decoder::default();
    let mut out = Vec::new();
    let abs = |v: i32| RawEvent { kind: EV_ABS, code: ABS_X, value: v };
    d.feed(abs(10), &mut out);
    d.feed(abs(13), &mut out);
    assert_eq!(out, vec![Action::Browse(3)]);
}

#[test]
fn sitting_on_a_bound_is_reportable_because_one_direction_is_then_silent() {
    let mut d = Decoder::default();
    let mut out = Vec::new();
    let abs = |v: i32| RawEvent { kind: EV_ABS, code: ABS_X, value: v };

    d.set_abs_range(0, 23);
    assert!(!d.absolute_axis_is_clamped(), "nothing seen yet");
    d.feed(abs(0), &mut out);
    assert!(d.absolute_axis_is_clamped(), "at the bottom of the axis");
    d.feed(abs(5), &mut out);
    assert!(!d.absolute_axis_is_clamped());
    d.feed(abs(23), &mut out);
    assert!(d.absolute_axis_is_clamped(), "at the top of the axis");
}

#[test]
fn autorepeat_is_ignored() {
    let mut d = Decoder::default();
    let mut out = Vec::new();
    d.feed(key(Button::PlayPause.keycode(), 1), &mut out);
    out.clear();
    for _ in 0..3 {
        d.feed(key(Button::PlayPause.keycode(), 2), &mut out);
    }
    assert!(out.is_empty());
}

#[test]
fn an_unknown_keycode_and_a_stray_release_are_both_ignored() {
    let mut d = Decoder::default();
    let mut out = Vec::new();
    d.feed(key(30, 1), &mut out);
    d.feed(key(Button::Ff.keycode(), 0), &mut out);
    assert!(out.is_empty());
}

#[test]
fn two_seek_buttons_are_tracked_independently() {
    let mut d = Decoder::default();
    let mut out = Vec::new();
    d.feed(key(Button::Ff.keycode(), 1), &mut out);
    d.feed(key(Button::Rew.keycode(), 1), &mut out);
    assert_eq!(out, vec![Action::Press(Button::Ff), Action::Press(Button::Rew)]);

    out.clear();
    d.feed(key(Button::Ff.keycode(), 0), &mut out);
    assert_eq!(out, vec![Action::Release(Button::Ff)]);
    out.clear();
    d.feed(key(Button::Rew.keycode(), 0), &mut out);
    assert_eq!(out, vec![Action::Release(Button::Rew)], "the other slot survived");
}

#[test]
fn reset_forgets_everything_in_flight() {
    let mut d = Decoder::default();
    let mut out = Vec::new();
    d.feed(key(Button::Ff.keycode(), 1), &mut out);
    d.reset(&mut out);
    out.clear();
}

#[test]
fn reset_closes_the_gestures_it_is_about_to_forget() {
    let mut d = Decoder::default();
    let mut out = Vec::new();
    d.feed(key(Button::Ff.keycode(), 1), &mut out);
    d.feed(key(Button::Cue.keycode(), 1), &mut out);
    out.clear();

    d.reset(&mut out);
    assert!(
        out.contains(&Action::Release(Button::Ff)),
        "a seek that started must be ended, got {out:?}"
    );
    assert!(
        out.contains(&Action::Release(Button::Cue)),
        "a preview that started must be released, got {out:?}"
    );
}

#[test]
fn a_seek_is_closed_however_recently_it_started() {
    let mut d = Decoder::default();
    let mut out = Vec::new();
    d.feed(key(Button::Ff.keycode(), 1), &mut out);
    out.clear();
    d.reset(&mut out);
    assert_eq!(
        out,
        vec![Action::Release(Button::Ff)],
        "a seek one millisecond old is still a seek"
    );
}

#[test]
fn a_simple_button_in_flight_needs_no_closing() {
    let mut d = Decoder::default();
    let mut out = Vec::new();
    d.feed(key(Button::TrackNext.keycode(), 1), &mut out);
    out.clear();
    d.reset(&mut out);
    assert!(out.is_empty(), "no track change may be invented, got {out:?}");
}

#[test]
fn a_dropped_event_queue_ends_whatever_was_in_flight() {
    let mut d = Decoder::default();
    let mut out = Vec::new();
    d.feed(key(Button::Rew.keycode(), 1), &mut out);
    out.clear();

    d.feed(
        RawEvent { kind: EV_SYN, code: SYN_DROPPED, value: 0 },
        &mut out,
    );
    assert_eq!(
        out,
        vec![Action::Release(Button::Rew)],
        "a dropped queue must end the seek it can no longer see the end of"
    );
}

#[test]
fn an_ordinary_frame_boundary_is_still_ignored() {
    let mut d = Decoder::default();
    let mut out = Vec::new();
    d.feed(key(Button::Ff.keycode(), 1), &mut out);
    out.clear();
    d.feed(RawEvent { kind: EV_SYN, code: 0, value: 0 }, &mut out);
    assert!(out.is_empty(), "SYN_REPORT means nothing here, got {out:?}");
}

#[test]
fn a_device_that_hangs_up_is_dropped_rather_than_spun_on() {
    let mut devices = Devices::open(&[b"/dev/input/event7".to_vec()]);
    assert_eq!(devices.len(), 1);
    let mut out = Vec::new();
    assert!(!wants_reading(POLLHUP | POLLIN));
    let hung_up = [Polled { revents: POLLHUP, read: None }];
    let lost = devices.read_pending(&hung_up, native(), &mut out);
    assert_eq!(lost, 1, "the hang-up must be reported to the caller");
    assert!(devices.is_empty(), "and the device must be dropped");
    assert!(out.is_empty());
}

#[test]
fn every_sign_of_a_lost_device_drops_it_and_no_other() {
    for revents in [POLLERR, POLLHUP, POLLNVAL, POLLERR | POLLIN] {
        let mut devices = Devices::open(&[b"a".to_vec(), b"b".to_vec()]);
        let mut out = Vec::new();
        let polled = [
            Polled { revents, read: None },
            Polled { revents: POLLIN, read: Some(event(EV_KEY, 164, 1)) },
        ];
        assert_eq!(devices.read_pending(&polled, native(), &mut out), 1);
        assert_eq!(devices.len(), 1);
        assert_eq!(devices.devices[0].path(), b"b");
        assert_eq!(out, vec![RawEvent { kind: EV_KEY, code: 164, value: 1 }]);
    }
    // The end of the file, and a read that failed.
    for read in [Some(Vec::new()), None] {
        let mut devices = Devices::open(&[b"a".to_vec()]);
        let mut out = Vec::new();
        let polled = [Polled { revents: POLLIN, read }];
        assert_eq!(devices.read_pending(&polled, native(), &mut out), 1);
        assert!(devices.is_empty());
    }
    // One that was not polled, or has nothing, stays.
    let mut devices = Devices::open(&[b"a".to_vec()]);
    assert_eq!(devices.read_pending(&[], native(), &mut Vec::new()), 0);
    assert_eq!(devices.len(), 1);
}

#[test]
fn no_devices_waits_rather_than_returning_at_once() {
    let devices = Devices::open(&[]);
    assert!(devices.is_empty());
    assert_eq!(Devices::waited(0, false), Waited::Nothing);
    assert_eq!(Devices::waited(-1, true), Waited::Nothing, "a signal is not a failure");
    assert_eq!(Devices::waited(-1, false), Waited::Failed);
    assert_eq!(Devices::waited(2, false), Waited::Ready);
}

/// The order this machine writes the bytes of a number in.
fn native() -> ByteOrder {
    if 1u16.to_ne_bytes() == [1, 0] {
        ByteOrder::Little
    } else {
        ByteOrder::Big
    }
}

fn event(kind: u16, code: u16, value: i32) -> Vec<u8> {
    let mut bytes = vec![0u8; EVENT_LEN];
    bytes[TIME_LEN..TIME_LEN + 2].copy_from_slice(&kind.to_ne_bytes());
    bytes[TIME_LEN + 2..TIME_LEN + 4].copy_from_slice(&code.to_ne_bytes());
    bytes[TIME_LEN + 4..TIME_LEN + 8].copy_from_slice(&value.to_ne_bytes());
    bytes
}

#[test]
fn the_event_struct_is_the_size_the_kernel_header_says() {
    assert_eq!(EVENT_LEN, 24, "the event layout moved on a 64-bit build");
    let mut bytes = vec![0u8; EVENT_LEN];
    let t = std::mem::size_of::<libc::timeval>();
    bytes[t..t + 2].copy_from_slice(&EV_KEY.to_ne_bytes());
    bytes[t + 2..t + 4].copy_from_slice(&164u16.to_ne_bytes());
    bytes[t + 4..t + 8].copy_from_slice(&1i32.to_ne_bytes());
    assert_eq!(parse_event(&bytes), Some(RawEvent { kind: EV_KEY, code: 164, value: 1 }));
    assert_eq!(parse_event(&bytes[..EVENT_LEN - 1]), None, "a short read");
}

#[test]
fn a_negative_value_survives_the_bytes() {
    assert_eq!(
        parse_event(&event(EV_REL, REL_X, -3)),
        Some(RawEvent { kind: EV_REL, code: REL_X, value: -3 })
    );
    assert_eq!(
        parse_event(&event(EV_ABS, ABS_X, i32::MIN)),
        Some(RawEvent { kind: EV_ABS, code: ABS_X, value: i32::MIN })
    );
}

#[test]
fn bytes_are_read_in_the_order_the_machine_writes_them() {
    let mut bytes = vec![0u8; EVENT_LEN];
    bytes[TIME_LEN..].copy_from_slice(&[0, 1, 0, 164, 0x80, 0, 0, 2]);
    assert_eq!(
        parse_event_in(&bytes, ByteOrder::Big),
        Some(RawEvent { kind: EV_KEY, code: 164, value: i32::MIN + 2 })
    );
    assert_eq!(
        parse_event_in(&bytes, ByteOrder::Little),
        Some(RawEvent { kind: 0x100, code: 0xa400, value: 0x0200_0080 })
    );
    assert_eq!(parse_event(&bytes), parse_event_in(&bytes, native()));
    assert_eq!(parse_event_in(&bytes[1..], ByteOrder::Big), None, "a short read");
    let mut d = Device::open(b"x".to_vec());
    let mut out = Vec::new();
    assert!(d.read_pending(&bytes, ByteOrder::Big, &mut out));
    assert_eq!(out, [RawEvent { kind: EV_KEY, code: 164, value: i32::MIN + 2 }]);
}

#[test]
fn a_short_read_in_the_middle_of_an_event_loses_nothing() {
    let mut whole = event(EV_KEY, 164, 1);
    whole.extend(event(EV_KEY, 164, 0));
    for cut in 1..whole.len() {
        let mut d = Device::open(b"/dev/input/event0".to_vec());
        let mut out = Vec::new();
        assert!(d.read_pending(&whole[..cut], native(), &mut out));
        assert!(d.read_pending(&whole[cut..], native(), &mut out));
        assert_eq!(out.len(), 2, "cut at {cut}");
        assert_eq!(out[1], RawEvent { kind: EV_KEY, code: 164, value: 0 });
        assert_eq!(d.room(), EVENT_LEN * 64);
    }
    let mut d = Device::open(b"x".to_vec());
    let mut out = Vec::new();
    assert!(!d.read_pending(&[], native(), &mut out), "the end of the file");
    assert!(d.read_pending(&whole[..5], native(), &mut out));
    assert_eq!(d.room(), EVENT_LEN * 64 - 5);
}

#[test]
fn the_requests_are_the_ones_the_kernel_header_encodes() {
    // EVIOCGNAME(256), EVIOCGBIT(EV_KEY, 96) and EVIOCGABS(ABS_X).
    assert_eq!(ioc_read(b'E', 0x06, 256), 0x8100_4506);
    assert_eq!(ioc_read(b'E', 0x21, 96), 0x8060_4521);
    assert_eq!(ioc_read(b'E', 0x40, 24), 0x8018_4540);
}

#[test]
fn a_name_ends_at_the_first_zero_and_is_text() {
    let mut buf = [0u8; 256];
    buf[..7].copy_from_slice(b"deck-pi");
    assert_eq!(name_of(8, &buf), Some("deck-pi".to_string()));
    assert_eq!(name_of(4, &buf), Some("deck".to_string()));
    assert_eq!(name_of(300, &buf), Some("deck-pi".to_string()));
    assert_eq!(name_of(0, &buf), None);
    assert_eq!(name_of(-1, &buf), None);
    assert_eq!(name_of(2, &[0xff, 0xfe]), None, "not text");
    assert_eq!(name_of(2, "é".as_bytes()), Some("é".to_string()));
}

#[test]
fn what_a_node_carries_is_asked_of_the_node() {
    let mut keys = [0u8; 96];
    keys[164 / 8] |= 1 << (164 % 8);
    let rels = [1u8, 0];
    assert_eq!(carried(0, &keys, 0, &rels), Carries { buttons: true, detents: true });
    assert_eq!(carried(-1, &keys, 0, &rels), Carries { buttons: false, detents: true });
    assert_eq!(carried(0, &keys, -1, &rels), Carries { buttons: true, detents: false });
    assert_eq!(carried(0, &[0u8; 96], 0, &[0, 0]), Carries::default());
    assert!(!Carries::default().anything());
    assert_eq!(
        Devices::carries(&[
            Carries { buttons: true, detents: false },
            Carries { buttons: false, detents: true },
        ]),
        Carries { buttons: true, detents: true }
    );
    assert_eq!(Devices::carries(&[]), Carries::default());
}

#[test]
fn an_axis_range_that_is_empty_is_none() {
    assert_eq!(axis_range(0, 0, 23), Some((0, 23)));
    assert_eq!(axis_range(-1, 0, 23), None);
    assert_eq!(axis_range(0, 5, 5), None);
    assert_eq!(Devices::abs_range(&[None, Some((0, 23)), Some((1, 2))]), Some((0, 23)));
    assert_eq!(Devices::abs_range(&[None]), None);
}

fn node(file_name: &str, name: Option<&str>, carries: Carries) -> Node {
    Node {
        file_name: file_name.as_bytes().to_vec(),
        name: name.map(str::to_string),
        carries,
    }
}

#[test]
fn the_surface_is_found_by_name_first_and_in_a_stable_order() {
    let both = Carries { buttons: true, detents: true };
    let none = Carries::default();
    let found = discover(&[
        node("event9", Some("deck-pi deck-pi control surface Mouse"), both),
        node("event0", Some("vc4-hdmi"), both),
        node("mouse0", Some(PRODUCT), both),
        node("event12", Some(PRODUCT), both),
        node("event3", Some(PRODUCT), none),
        node("event4", None, both),
    ]);
    assert_eq!(found, vec![b"event12".to_vec(), b"event9".to_vec()]);
}

#[test]
fn a_node_that_comes_back_is_added_once() {
    let mut devices = Devices::open(&[b"a".to_vec()]);
    assert!(!devices.add_found(b"a".to_vec()));
    assert!(devices.add_found(b"b".to_vec()));
    assert!(devices.has(b"b"));
    assert_eq!(devices.len(), 2);
}

#[test]
fn a_very_wide_difference_saturates() {
    let mut d = Decoder::new();
    let mut out = Vec::new();
    let abs = |v: i32| RawEvent { kind: EV_ABS, code: ABS_X, value: v };
    d.feed(abs(i32::MIN), &mut out);
    d.feed(abs(i32::MAX), &mut out);
    assert_eq!(out, vec![Action::Browse(i32::MAX)]);
    // An empty range is ignored.
    d.set_abs_range(5, 5);
    assert!(!d.absolute_axis_is_clamped());
}

#[test]
fn presses_and_releases_come_in_turn_whatever_the_events() {
    let mut d = Decoder::new();
    let mut out = Vec::new();
    let mut seed = 1u32;
    for _ in 0..5000 {
        seed = seed.wrapping_mul(1_664_525).wrapping_add(1_013_904_223);
        let pick = (seed >> 16) as usize;
        let ev = match pick % 40 {
            0 => RawEvent { kind: EV_SYN, code: SYN_DROPPED, value: 0 },
            1 => key(9, (pick / 40 % 3) as i32),
            _ => key(ALL[pick % 8].keycode(), (pick / 40 % 3) as i32),
        };
        let before = out.len();
        d.feed(ev, &mut out);
        assert!(out.len() >= before);
    }
    for b in ALL {
        let said: Vec<Action> = out
            .iter()
            .copied()
            .filter(|a| *a == Action::Press(b) || *a == Action::Release(b))
            .collect();
        assert!(said.len() > 50, "{b:?}");
        if [Button::Cue, Button::Rew, Button::Ff].contains(&b) {
            for (i, a) in said.iter().enumerate() {
                let want = if i % 2 == 0 { Action::Press(b) } else { Action::Release(b) };
                assert_eq!(*a, want, "{b:?} at {i}");
            }
        } else {
            assert!(said.iter().all(|a| *a == Action::Press(b)), "{b:?}");
        }
    }
}
