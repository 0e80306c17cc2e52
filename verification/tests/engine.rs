use deck_pi::engine::{Engine, Outcome};
use deck_pi::file::RING_CHANNELS;
use deck_pi::ring;
use deck_pi::ring::Miss;
use deck_pi::transport::{Transport, RATE_SEEK, RATE_UNITY, UNIT};

fn filled(frames: u64) -> (ring::Ring, ring::RingReader, u64) {
    let (mut ring, mut w, r) = ring::new(frames.max(2) as usize);
    let block: Vec<i32> = (0..frames)
        .flat_map(|f| [f as i32 * 2, f as i32 * 2 + 1])
        .collect();
    w.append(&mut ring, &block);
    (ring, r, frames)
}

#[test]
fn at_unity_the_period_is_the_source_and_the_position_is_exact() {
    let (mut ring, r, frames) = filled(4096);
    let mut t = Transport::new();
    t.track_loaded(0);
    let mut e = Engine::new(frames);
    t.play();

    let mut out = vec![0i32; 256 * RING_CHANNELS];
    for block in 0..16u64 {
        assert_eq!(e.fill(&mut t, &r, &mut ring, &mut out), Outcome::Played { frames: 256 });
        let base = block * 256;
        for (i, &got) in out.iter().enumerate() {
            let f = base + (i / RING_CHANNELS) as u64;
            let want = f as i32 * 2 + (i % RING_CHANNELS) as i32;
            assert_eq!(got, want, "block {} sample {}", block, i);
        }
        assert_eq!(e.position(), (base + 256) as i128 * UNIT);
    }
}

#[test]
fn pause_is_silence_and_a_frozen_position() {
    let (mut ring, r, frames) = filled(1024);
    let mut t = Transport::new();
    t.track_loaded(0);
    let mut e = Engine::new(frames);
    t.play();
    let mut out = vec![0i32; 64 * RING_CHANNELS];
    e.fill(&mut t, &r, &mut ring, &mut out);
    let held = e.position();

    t.pause();
    for _ in 0..8 {
        assert_eq!(e.fill(&mut t, &r, &mut ring, &mut out), Outcome::Paused);
        assert!(out.iter().all(|&s| s == 0));
        assert_eq!(e.position(), held, "pause must not move the position");
    }
}

#[test]
fn a_held_seek_moves_the_position_at_four_times_and_stays_silent() {
    let (mut ring, r, frames) = filled(8192);
    let mut t = Transport::new();
    t.track_loaded(0);
    let mut e = Engine::new(frames);
    t.play();
    let mut out = vec![0i32; 128 * RING_CHANNELS];
    e.fill(&mut t, &r, &mut ring, &mut out);
    let from = e.position();

    t.begin_seek(true);
    assert_eq!(e.fill(&mut t, &r, &mut ring, &mut out), Outcome::Seeking);
    assert!(out.iter().all(|&s| s == 0), "v1's seek produces no audio");
    assert_eq!(e.position(), from + 128 * RATE_SEEK as i128);

    t.begin_seek(false);
    assert_eq!(e.fill(&mut t, &r, &mut ring, &mut out), Outcome::Seeking);
    assert_eq!(e.position(), from, "REW retraces exactly");

    t.end_seek(true);
    assert!(matches!(
        e.fill(&mut t, &r, &mut ring, &mut out),
        Outcome::Played { .. }
    ));
}

#[test]
fn rew_can_rewind_out_of_the_end_of_a_track() {
    let frames = 1_000u64;
    let (mut ring, r, _) = filled(frames);
    let mut t = Transport::new();
    t.track_loaded(0);
    let mut e = Engine::new(frames);
    let mut out = vec![0i32; 128 * RING_CHANNELS];

    t.request_seek(frames);
    t.play();
    assert_eq!(e.fill(&mut t, &r, &mut ring, &mut out), Outcome::EndOfTrack);
    assert_eq!(e.position(), frames as i128 * UNIT);

    t.begin_seek(false);
    assert_eq!(e.fill(&mut t, &r, &mut ring, &mut out), Outcome::Seeking);
    assert_eq!(e.position(), frames as i128 * UNIT - 128 * RATE_SEEK as i128);

    t.end_seek(true);
    assert!(matches!(
        e.fill(&mut t, &r, &mut ring, &mut out),
        Outcome::Played { .. }
    ));
}

#[test]
fn rew_cannot_drive_the_position_negative() {
    let (mut ring, r, frames) = filled(2048);
    let mut t = Transport::new();
    t.track_loaded(0);
    let mut e = Engine::new(frames);
    t.begin_seek(false);
    let mut out = vec![0i32; 256 * RING_CHANNELS];
    for _ in 0..20 {
        e.fill(&mut t, &r, &mut ring, &mut out);
    }
    assert_eq!(e.position(), 0);
}

#[test]
fn a_non_unity_rate_is_refused_rather_than_approximated() {
    let (mut ring, r, frames) = filled(2048);
    let mut t = Transport::new();
    t.track_loaded(0);
    let mut e = Engine::new(frames);
    t.play();
    let mut out = vec![9i32; 64 * RING_CHANNELS];

    for rate in [1050, 950, 2000, -1000, 500] {
        t.rate = rate;
        match e.fill(&mut t, &r, &mut ring, &mut out) {
            Outcome::NeedsResampler { rate: got, fractional } => {
                assert_eq!(got, rate);
                assert!(!fractional, "the position was integral; the rate is the problem");
            }
            other => panic!("rate {} gave {:?}, expected a refusal", rate, other),
        }
        assert!(out.iter().all(|&s| s == 0), "rate {} produced audio", rate);
        assert_eq!(e.position(), 0, "a refused period must not advance");
    }
}

#[test]
fn a_fractional_position_is_refused_rather_than_approximated() {
    let (mut ring, r, frames) = filled(2048);
    let mut t = Transport::new();
    t.track_loaded(0);
    let mut e = Engine::new(frames);
    t.play();
    let mut out = vec![9i32; 64 * RING_CHANNELS];

    t.begin_seek(true);
    e.position = 100_500;
    t.end_seek(true);
    match e.fill(&mut t, &r, &mut ring, &mut out) {
        Outcome::NeedsResampler { rate, fractional } => {
            assert_eq!(rate, RATE_UNITY);
            assert!(fractional);
        }
        other => panic!("expected a refusal, got {:?}", other),
    }
    assert!(out.iter().all(|&s| s == 0));
}

#[test]
fn the_last_period_is_served_short_instead_of_reading_as_an_underrun() {
    let frames = 1000u64;
    let (mut ring, r, _) = filled(frames);
    let mut t = Transport::new();
    t.track_loaded(0);
    let mut e = Engine::new(frames);
    t.play();
    let mut out = vec![0i32; 256 * RING_CHANNELS];

    for _ in 0..3 {
        assert_eq!(e.fill(&mut t, &r, &mut ring, &mut out), Outcome::Played { frames: 256 });
    }
    assert_eq!(e.position(), 768 * UNIT);
    assert_eq!(
        e.fill(&mut t, &r, &mut ring, &mut out),
        Outcome::PlayedTail { frames: 232 }
    );
    for (i, &got) in out[..232 * RING_CHANNELS].iter().enumerate() {
        let f = 768 + (i / RING_CHANNELS) as u64;
        assert_eq!(got, f as i32 * 2 + (i % RING_CHANNELS) as i32);
    }
    assert!(out[232 * RING_CHANNELS..].iter().all(|&s| s == 0));
    assert_eq!(e.position(), frames as i128 * UNIT);
    assert_eq!(e.fill(&mut t, &r, &mut ring, &mut out), Outcome::EndOfTrack);
}

#[test]
fn a_miss_is_silence_and_does_not_move_the_position() {
    let (mut ring, mut w, r) = ring::new(1024);
    let mut t = Transport::new();
    t.track_loaded(0);
    let mut e = Engine::new(4096);
    t.play();
    let mut out = vec![7i32; 128 * RING_CHANNELS];

    assert_eq!(
        e.fill(&mut t, &r, &mut ring, &mut out),
        Outcome::Missed(Miss::NotResident)
    );
    assert!(out.iter().all(|&s| s == 0));
    assert_eq!(e.position(), 0, "a startup miss must not skip the intro");

    let block: Vec<i32> = (0..512u64).flat_map(|f| [f as i32, f as i32]).collect();
    w.append(&mut ring, &block);
    assert_eq!(e.fill(&mut t, &r, &mut ring, &mut out), Outcome::Played { frames: 128 });
    assert_eq!(out[0], 0, "playback resumed at frame 0, not later");
}

#[test]
fn a_seek_request_lands_and_is_clamped_to_the_track() {
    let (mut ring, r, frames) = filled(2048);
    let mut t = Transport::new();
    t.track_loaded(0);
    let mut e = Engine::new(frames);
    t.play();
    let mut out = vec![0i32; 64 * RING_CHANNELS];

    t.request_seek(1000);
    assert_eq!(e.fill(&mut t, &r, &mut ring, &mut out), Outcome::Played { frames: 64 });
    assert_eq!(out[0], 2000, "landed on frame 1000");
    assert_eq!(e.position(), 1064 * UNIT);

    t.request_seek(u64::MAX);
    assert_eq!(e.fill(&mut t, &r, &mut ring, &mut out), Outcome::EndOfTrack);
    assert_eq!(e.position(), frames as i128 * UNIT);
}

#[test]
fn float32_would_have_lost_the_fractional_position_and_float64_does_not() {
    let n = (1u64 << 23) as f64;
    assert!(
        (n as f32) + 0.5 == (n as f32),
        "float32 must be unable to represent the half-sample here"
    );
    assert!(n + 0.5 != n, "float64 must still resolve it");

    let three_hours_at_192k = 192_000.0 * 3600.0 * 3.0;
    assert!(
        three_hours_at_192k + 0.5 != three_hours_at_192k,
        "float64 must resolve a half sample three hours into a 192 kHz track"
    );
}

#[test]
fn a_whole_run_is_the_track_in_order() {
    const FRAMES: u64 = 1000;
    let track: Vec<i32> = (0..2 * FRAMES as i32).map(|s| s * 3 - 1500).collect();
    let (mut ring, mut w, r) = ring::new(128);
    let mut t = Transport::new();
    t.track_loaded(0);
    t.play();
    let mut e = Engine::new(FRAMES);
    let (mut heard, mut misses) = (Vec::<i32>::new(), 0);
    let mut out = vec![0i32; 48 * RING_CHANNELS];
    for turn in 0.. {
        // The window falls behind now and then, and the deck is paused once.
        if turn % 3 != 1 {
            w.drop_before(&mut ring, e.position() as u64 / UNIT as u64);
            let from = ring.end;
            let to = (from + w.writable(&ring).min(61)).min(FRAMES);
            w.append(&mut ring, &track[2 * from as usize..2 * to as usize]);
        }
        match turn {
            5 => t.pause(),
            9 => t.play(),
            _ => {}
        }
        match e.fill(&mut t, &r, &mut ring, &mut out) {
            Outcome::Played { frames } | Outcome::PlayedTail { frames } => {
                heard.extend(&out[..frames * RING_CHANNELS])
            }
            Outcome::Missed(_) => misses += 1,
            Outcome::EndOfTrack => break,
            Outcome::Paused => assert!((5..9).contains(&turn)),
            other => panic!("{other:?}"),
        }
        assert_eq!(heard.len() as i128, 2 * e.position() / UNIT, "turn {turn}");
    }
    assert!(misses > 0, "the window never fell behind");
    assert_eq!(heard, track);
}
