use deck_pi::input::{Button, Decoder, RawEvent, EV_KEY};
use deck_pi::surface::{
    selftest, write_field, Debounced, Encoder, FaderProbe, Ladder, Levels, Surface, DEBOUNCE_TICKS,
    LADDER_BOUNDS, QUADRATURE, REPORT_DESCRIPTOR, USAGES_AT,
};

#[test]
fn a_bounce_shorter_than_the_interval_is_not_a_press() {
    let mut d = Debounced::new(false);
    for i in 0..DEBOUNCE_TICKS - 1 {
        assert!(!d.poll(true), "tick {i}");
    }
    assert!(!d.poll(false), "back up");
    for i in 0..DEBOUNCE_TICKS - 1 {
        assert!(!d.poll(true), "tick {i} again");
    }
    assert!(d.poll(true), "held for the whole interval");
    assert!(d.poll(false), "and it is held until it is up as long");
}

#[test]
fn a_full_cycle_is_one_detent_either_way() {
    let mut e = Encoder::new(true, true);
    let forward = [(false, true), (false, false), (true, false), (true, true)];
    let steps: Vec<i8> = forward.iter().map(|&(a, b)| e.poll(a, b)).collect();
    let mut back = Encoder::new(true, true);
    let other: Vec<i8> = forward.iter().rev().skip(1).chain([&(true, true)]).map(|&(a, b)| back.poll(a, b)).collect();
    assert_eq!(steps.iter().map(|s| *s as i32).sum::<i32>().abs(), 1);
    assert_eq!(
        steps.iter().map(|s| *s as i32).sum::<i32>(),
        -other.iter().map(|s| *s as i32).sum::<i32>()
    );
    // A jump of both levels at once is no step.
    let mut e = Encoder::new(false, false);
    for _ in 0..8 {
        assert_eq!(e.poll(true, true), 0);
        assert_eq!(e.poll(false, false), 0);
    }
    assert_eq!(e.steps, 0);
}

#[test]
fn every_step_is_undone_by_the_step_back() {
    for p in 0..4usize {
        for q in 0..4usize {
            assert_eq!(QUADRATURE[p * 4 + q], -QUADRATURE[q * 4 + p], "{p} to {q}");
        }
    }
}

#[test]
fn a_level_passed_through_fires_no_button() {
    let mut l = Ladder::new();
    for _ in 0..DEBOUNCE_TICKS {
        assert_eq!(l.poll(Some(4095)), 0);
    }
    // A press of one button that passes another's level on its way.
    assert_eq!(l.poll(Some(3029)), 0);
    for _ in 0..DEBOUNCE_TICKS - 1 {
        assert_eq!(l.poll(Some(1000)), 0);
    }
    assert_eq!(l.poll(Some(1000)), 1 << 6, "settled");
    assert_eq!(l.poll(None), 1 << 6, "a reading that failed is not a release");
}

#[test]
fn every_level_of_the_ladder_is_the_button_it_should_be() {
    for (count, bits) in [
        (4095, 0),
        (3507, 0),
        (3506, 1 << 2),
        (2755, 1 << 1),
        (2043, 1 << 7),
        (1310, 1 << 6),
        (748, 0),
        (311, 0),
        (0, 0),
    ] {
        let mut l = Ladder::new();
        let mut last = 0;
        for _ in 0..DEBOUNCE_TICKS {
            last = l.poll(Some(count));
        }
        assert_eq!(last, bits, "at {count}");
    }
    assert_eq!(LADDER_BOUNDS[0], 3506);
}

fn idle() -> Levels {
    Levels {
        enter: false,
        back: false,
        play: false,
        cue: false,
        rew: false,
        ff: false,
        encoder_a: true,
        encoder_b: true,
        ladder: Some(4095),
    }
}

#[test]
fn a_report_is_sent_on_a_change_and_not_again() {
    let mut s = Surface::new(idle());
    assert_eq!(s.tick(idle()).buttons, None);
    let pressed = Levels { play: true, cue: true, ..idle() };
    let mut sent = Vec::new();
    for _ in 0..DEBOUNCE_TICKS as usize * 2 {
        sent.extend(s.tick(pressed).buttons);
    }
    assert_eq!(sent, vec![[1, (1 << 3) | (1 << 5)]]);
    // A turn of the encoder, four steps, is one report.
    let mut turned = Vec::new();
    for (a, b) in [(false, true), (false, false), (true, false), (true, true)] {
        turned.extend(s.tick(Levels { encoder_a: a, encoder_b: b, ..pressed }).detents);
    }
    assert_eq!(turned.len(), 1);
    assert!(turned[0] == [2, 1] || turned[0] == [2, 255]);
}

#[test]
fn every_bit_reaches_the_deck_as_the_button_it_means() {
    // The usages of the descriptor, and the keycodes the kernel makes of them.
    let mut at = USAGES_AT;
    let mut usages = Vec::new();
    loop {
        match REPORT_DESCRIPTOR[at] {
            0x09 => {
                usages.push(REPORT_DESCRIPTOR[at + 1] as u16);
                at += 2;
            }
            0x0A => {
                usages.push(u16::from_le_bytes([
                    REPORT_DESCRIPTOR[at + 1],
                    REPORT_DESCRIPTOR[at + 2],
                ]));
                at += 3;
            }
            _ => break,
        }
    }
    assert_eq!(usages, vec![0x84, 0xb3, 0xb4, 0xcd, 0x224, 0x226, 0xb5, 0xb6]);
    let codes = [28u16, 208, 168, 164, 158, 128, 163, 165];
    let want = [
        Button::Enter,
        Button::Ff,
        Button::Rew,
        Button::PlayPause,
        Button::Back,
        Button::Cue,
        Button::TrackNext,
        Button::TrackPrev,
    ];
    for (code, button) in codes.into_iter().zip(want) {
        assert_eq!(Button::from_keycode(code), Some(button));
        let mut out = Vec::new();
        Decoder::new().feed(RawEvent { kind: EV_KEY, code, value: 1 }, &mut out);
        assert_eq!(out.len(), 1);
    }
    let sent = selftest();
    assert_eq!(sent.len(), 20);
    assert_eq!((sent[6], sent[7]), ([1, 8], [1, 0]), "the fourth bit is PLAY");
    assert_eq!((sent[12], sent[19]), ([2, 1], [2, 255]));
}

#[test]
fn the_probe_prints_the_span_it_has_seen() {
    let mut p = FaderProbe::new();
    assert_eq!(p.sample(100, 4000), b"f=100 fmin=100 fmax=100 k=4000 kmin=4000\r\n".to_vec());
    assert_eq!(p.sample(7, 4095), b"f=7 fmin=7 fmax=100 k=4095 kmin=4000\r\n".to_vec());
    let mut out = b">".to_vec();
    assert_eq!(write_field(&mut out, b"n=", 65_535), 7);
    assert_eq!(out, b">n=65535".to_vec());
}
