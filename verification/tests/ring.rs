use deck_pi::file::{RING_CHANNELS, SUPPORTED_RATES};
use deck_pi::ring::{
    capacity_frames, new, Miss, RING_FRAME_BYTES, WINDOW_BYTES_PLACEHOLDER,
};

#[test]
fn window_sizes_reproduce_the_architecture_table() {
    let n = WINDOW_BYTES_PLACEHOLDER;
    let expected: [(u32, u32, f64); 6] = [
        (44_100, 353, 60.0),
        (48_000, 384, 60.0),
        (88_200, 706, 47.0),
        (96_000, 768, 43.0),
        (176_400, 1_411, 23.0),
        (192_000, 1_536, 21.0),
    ];
    for (rate, fill_kb_s, half_secs) in expected {
        let fill = rate as usize * RING_FRAME_BYTES;
        assert_eq!(
            (fill as f64 / 1000.0).round() as u32,
            fill_kb_s,
            "{} Hz fill rate",
            rate
        );
        let got = capacity_frames(rate, n) as f64 / rate as f64 / 2.0;
        assert!(
            got >= half_secs && got < half_secs + 1.0,
            "{} Hz: table says ±{} s, formula gives ±{:.2} s",
            rate,
            half_secs,
            got
        );
    }
}

#[test]
fn ram_is_flat_across_all_six_rates_and_the_time_cap_only_shortens_it() {
    let n = WINDOW_BYTES_PLACEHOLDER;
    let mut byte_capped = Vec::new();
    for rate in SUPPORTED_RATES {
        let frames = capacity_frames(rate, n);
        let bytes = frames * RING_FRAME_BYTES;
        assert!(bytes <= n, "{} Hz exceeds the byte cap", rate);
        if frames == n / RING_FRAME_BYTES {
            byte_capped.push(rate);
        }
    }
    assert_eq!(byte_capped, vec![88_200, 176_400, 96_000, 192_000]);
}

#[test]
fn a_fresh_ring_is_empty_and_reads_as_a_miss() {
    let (ring, w, r) = new(64);
    assert_eq!(r.resident(&ring), 0..0);
    assert_eq!(w.writable(&ring), 64);
    let mut buf = [1i32; 8];
    assert_eq!(r.read_block(&ring, 0, &mut buf), Err(Miss::NotResident));
    assert_eq!(buf, [0i32; 8], "a miss must leave silence, not stale data");
}

fn frames(from: u64, count: u64) -> Vec<i32> {
    (from..from + count)
        .flat_map(|f| [f as i32 * 2, f as i32 * 2 + 1])
        .collect()
}

#[test]
fn reads_are_free_in_either_direction_inside_the_span() {
    let (mut ring, mut w, r) = new(16);
    w.append(&mut ring, &frames(0, 16));
    for start in [0u64, 4, 8, 12, 6, 2, 0, 9] {
        let mut buf = vec![0i32; 4 * RING_CHANNELS];
        r.read_block(&ring, start, &mut buf).expect("resident");
        assert_eq!(buf, frames(start, 4), "reading from frame {}", start);
    }
}

#[test]
fn wrapping_past_the_end_of_the_allocation_is_seamless() {
    let (mut ring, mut w, r) = new(8);
    w.append(&mut ring, &frames(0, 8));
    w.drop_before(&mut ring, 4);
    w.append(&mut ring, &frames(8, 4));
    assert_eq!(r.resident(&ring), 4..12);
    let mut buf = vec![0i32; 8 * RING_CHANNELS];
    r.read_block(&ring, 4, &mut buf).expect("spans the wrap");
    assert_eq!(buf, frames(4, 8));
}

#[test]
fn append_beyond_capacity_is_refused_rather_than_clobbering() {
    let (mut ring, mut w, _r) = new(8);
    w.append(&mut ring, &frames(0, 8));
    assert_eq!(w.writable(&ring), 0);
    let too_much = frames(8, 1);
    assert!(too_much.len() / RING_CHANNELS > w.writable(&ring) as usize, "no room for one more");
    assert_eq!(_r.resident(&ring), 0..8);
}

#[test]
fn a_partly_resident_read_is_a_miss_not_a_short_read() {
    let (mut ring, mut w, r) = new(16);
    w.append(&mut ring, &frames(0, 4));
    let mut buf = vec![7i32; 8 * RING_CHANNELS];
    assert_eq!(r.read_block(&ring, 0, &mut buf), Err(Miss::NotResident));
    assert!(buf.iter().all(|&s| s == 0));
}

#[test]
fn read_tail_serves_what_is_there_and_silences_the_rest() {
    let (mut ring, mut w, r) = new(16);
    w.append(&mut ring, &frames(0, 10));
    let mut buf = vec![9i32; 16 * RING_CHANNELS];
    assert_eq!(r.read_tail(&ring, 0, &mut buf), Ok(10));
    assert_eq!(&buf[..10 * RING_CHANNELS], &frames(0, 10)[..]);
    assert!(
        buf[10 * RING_CHANNELS..].iter().all(|&s| s == 0),
        "the unserved tail must be silence, not stale ring contents"
    );
    assert_eq!(r.read_tail(&ring, 10, &mut buf), Err(Miss::NotResident));
}

#[test]
fn relocate_invalidates_the_window_and_bumps_the_generation() {
    let (mut ring, mut w, r) = new(16);
    w.append(&mut ring, &frames(0, 16));
    w.relocate(&mut ring, 1_000_000);
    assert_eq!(r.resident(&ring), 1_000_000..1_000_000);
    let mut buf = vec![0i32; 2 * RING_CHANNELS];
    assert_eq!(r.read_block(&ring, 0, &mut buf), Err(Miss::NotResident));
    w.append(&mut ring, &frames(1_000_000, 4));
    r.read_block(&ring, 1_000_000, &mut buf).expect("after relocation");
    assert_eq!(buf, frames(1_000_000, 2));
}

#[test]
fn drop_before_is_clamped_to_the_resident_span() {
    let (mut ring, mut w, r) = new(16);
    w.append(&mut ring, &frames(0, 8));
    w.drop_before(&mut ring, 0);
    assert_eq!(r.resident(&ring), 0..8);
    w.drop_before(&mut ring, 100);
    assert_eq!(r.resident(&ring), 8..8);
    assert!(r.resident(&ring).start <= r.resident(&ring).end);
}

#[test]
fn the_playhead_is_a_hint_the_writer_can_read() {
    let (mut ring, w, r) = new(16);
    r.publish_playhead(&mut ring, 1234);
    assert_eq!(w.playhead(&ring), 1234);
}
