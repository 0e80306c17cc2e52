use deck_pi::window::{Step, Window, BLOCK};

#[test]
fn a_window_reads_from_the_front_of_the_track_a_block_at_a_time() {
    let mut w = Window::new(4 * BLOCK, 10 * BLOCK);
    for n in 0..4 {
        assert_eq!(w.step(0), Step::Fill { drop: None, read: BLOCK }, "block {n}");
        w.took(BLOCK);
    }
    assert_eq!(w.step(0), Step::Fill { drop: None, read: 0 }, "there is no room");
    assert_eq!((w.start, w.end), (0, 4 * BLOCK));
}

#[test]
fn half_the_window_is_kept_behind_the_playhead() {
    let mut w = Window { capacity: 1000, frames: 5000, start: 100, end: 1100 };
    assert_eq!(w.step(600), Step::Fill { drop: None, read: 0 });
    assert_eq!(w.step(601), Step::Fill { drop: Some(101), read: 1 });
    assert_eq!((w.start, w.end), (101, 1100));
    assert_eq!(w.step(1100), Step::Fill { drop: Some(600), read: 500 });
    w.took(300);
    assert_eq!((w.start, w.end), (600, 1400), "a read may bring less than was asked for");
}

#[test]
fn a_playhead_outside_the_window_starts_it_over_there() {
    let mut w = Window { capacity: 1000, frames: 5000, start: 2000, end: 3000 };
    assert_eq!(w.step(1999), Step::Restart(1999));
    assert_eq!(w.step(3001), Step::Restart(3001));
    assert_eq!((w.start, w.end), (2000, 3000), "until the file was moved");
    w.restarted(3001);
    assert_eq!(w.step(3001), Step::Fill { drop: None, read: 1000 });
    assert_eq!(w.step(u64::MAX), Step::Restart(5000), "the end of the track");
    w.restarted(5000);
    assert_eq!(w.step(5000), Step::Fill { drop: None, read: 0 });
}

#[test]
fn the_end_of_the_track_is_read_and_no_further() {
    let mut w = Window::new(1_000_000, 1500);
    assert_eq!(w.step(0), Step::Fill { drop: None, read: 1024 });
    w.took(1024);
    assert_eq!(w.step(0), Step::Fill { drop: None, read: 476 });
    w.took(476);
    assert_eq!(w.step(1500), Step::Fill { drop: None, read: 0 });
}
