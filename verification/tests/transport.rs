use deck_pi::transport::{
    Cued, State, Transport, RATE_PAUSED, RATE_SEEK, RATE_UNITY, UNIT,
};

fn take(t: &mut Transport) -> Option<u64> {
    let seek = t.peek_seek();
    if let Some(frame) = seek {
        t.consumed_seek(frame);
    }
    seek
}

#[test]
fn an_empty_deck_refuses_every_control_rather_than_pretending() {
    let mut t = Transport::new();
    assert_eq!(t.state(), State::Stopped);

    t.play();
    assert_eq!(t.rate(), RATE_PAUSED, "PLAY must not start an empty deck");
    assert_eq!(t.state(), State::Stopped);

    t.begin_seek(true);
    assert_eq!(t.state(), State::Stopped, "and there is nothing to seek");
    assert_eq!(t.cue_down(), Cued::Nothing, "nor anything to cue");
    assert_eq!(take(&mut t), None, "no seek may be queued");

    t.track_loaded(0);
    t.play();
    assert_eq!(t.state(), State::Playing);
}

#[test]
fn play_and_pause_are_the_rate_variable_and_nothing_else() {
    let mut t = Transport::new();
    t.track_loaded(0);
    assert_eq!(t.rate(), RATE_PAUSED);
    assert_eq!(t.state(), State::Paused, "loaded and waiting");

    t.play();
    assert_eq!(t.rate(), RATE_UNITY);
    assert!(!t.is_silent());
    assert_eq!(t.state(), State::Playing);

    t.pause();
    assert_eq!(t.rate(), RATE_PAUSED);
    assert_eq!(t.state(), State::Paused);
}

#[test]
fn a_held_seek_mutes_but_keeps_the_position_moving() {
    let mut t = Transport::new();
    t.track_loaded(0);
    t.play();
    t.begin_seek(true);
    assert!(t.is_silent(), "v1's seek is silent");
    assert_eq!(t.rate(), RATE_SEEK);
    assert_eq!(t.state(), State::SeekingForward);

    t.begin_seek(false);
    assert_eq!(t.rate(), -RATE_SEEK, "REW runs the rate variable negative");
    assert_eq!(t.state(), State::SeekingBack);
}

#[test]
fn releasing_a_seek_resumes_only_what_was_running() {
    let mut t = Transport::new();
    t.track_loaded(0);
    t.play();
    t.begin_seek(true);
    t.end_seek(true);
    assert_eq!(t.rate(), RATE_UNITY, "audio resumes on release");
    assert!(!t.is_silent());

    t.pause();
    t.begin_seek(true);
    t.end_seek(false);
    assert_eq!(t.rate(), RATE_PAUSED);
    assert_eq!(t.state(), State::Paused);
}

#[test]
fn a_seek_request_is_consumed_exactly_once() {
    let mut t = Transport::new();
    t.track_loaded(0);
    assert_eq!(take(&mut t), None);
    t.request_seek(12_345);
    assert_eq!(take(&mut t), Some(12_345));
    assert_eq!(take(&mut t), None, "a request must not be serviced twice");
    t.request_seek(0);
    assert_eq!(take(&mut t), Some(0));

    t.request_seek(u64::MAX);
    assert_eq!(take(&mut t), Some(i64::MAX as u64));
}

#[test]
fn the_rate_and_position_survive_the_trip_through_atomics_exactly() {
    let mut t = Transport::new();
    t.track_loaded(0);
    for v in [0, 1_000, -4_000, 333, 8_388_609_500, i128::MAX] {
        t.publish_position(v);
        assert_eq!(t.position(), v, "position {} did not round trip", v);
    }
}

#[test]
fn the_cue_point_starts_at_frame_zero() {
    let mut t = Transport::new();
    t.track_loaded(0);
    assert_eq!(t.cue_point(), 0);
}

#[test]
fn cue_while_paused_sets_the_point_and_makes_no_sound() {
    let mut t = Transport::new();
    t.track_loaded(0);
    t.pause();
    t.publish_position(50_000 * UNIT);
    assert_eq!(t.cue_down(), Cued::SetAt(50_000), "Setting Cue");
    assert_eq!(t.cue_point(), 50_000);
    assert_eq!(t.rate(), RATE_PAUSED, "\"No sound is output at this time\"");
    assert_eq!(take(&mut t), None, "setting a point must not move the deck");
    assert_eq!(t.cue_up(), Cued::Nothing, "a release that was not a preview");
    assert_eq!(t.rate(), RATE_PAUSED, "release after setting must do nothing");

    t.publish_position(120_000 * UNIT);
    let _ = t.cue_down();
    assert_eq!(t.cue_point(), 120_000);
}

#[test]
fn cue_while_playing_returns_to_the_point_and_pauses_without_resuming() {
    let mut t = Transport::new();
    t.track_loaded(0);
    t.set_cue_point(1_000);
    t.play();
    t.publish_position(80_000 * UNIT);

    assert_eq!(t.cue_down(), Cued::Returned(1_000), "Back Cue");
    assert_eq!(t.rate(), RATE_PAUSED, "Back Cue pauses; it does not resume");
    assert_eq!(t.state(), State::Paused);
    assert_eq!(take(&mut t), Some(1_000), "returns to the cue point");
    assert_eq!(t.cue_point(), 1_000, "Back Cue must not move the point");

    t.play();
    assert_eq!(t.rate(), RATE_UNITY);
    assert_eq!(take(&mut t), None, "PLAY queues no seek of its own");
}

#[test]
fn cue_held_at_the_point_previews_and_release_returns() {
    let mut t = Transport::new();
    t.track_loaded(0);
    t.set_cue_point(4_410);
    t.pause();
    t.publish_position(4_410 * UNIT);

    assert_eq!(t.cue_down(), Cued::Previewing, "Cue Point Sampler");
    assert_eq!(t.rate(), RATE_UNITY, "plays while held");
    assert_eq!(t.state(), State::Playing);
    assert_eq!(take(&mut t), None, "already at the point; nothing to seek");
    assert_eq!(t.cue_point(), 4_410, "previewing must not re-set the point");

    t.publish_position(9_000 * UNIT);
    assert_eq!(t.cue_up(), Cued::Returned(4_410), "release returns");
    assert_eq!(t.rate(), RATE_PAUSED, "release stops");
    assert_eq!(take(&mut t), Some(4_410), "and returns to the point");
}

#[test]
fn a_second_release_after_a_preview_does_nothing() {
    let mut t = Transport::new();
    t.track_loaded(0);
    t.pause();
    t.publish_position(0 * UNIT);
    let _ = t.cue_down();
    let _ = t.cue_up();
    assert_eq!(take(&mut t), Some(0));

    t.play();
    assert_eq!(t.cue_up(), Cued::Nothing, "the second release does nothing");
    assert_eq!(t.rate(), RATE_UNITY, "a spurious release must not stop playback");
    assert_eq!(take(&mut t), None);
}

#[test]
fn cue_during_a_held_seek_is_treated_as_back_cue() {
    let mut t = Transport::new();
    t.track_loaded(0);
    t.set_cue_point(2_000);
    t.play();
    t.begin_seek(true);
    t.publish_position(60_000 * UNIT);
    assert_eq!(t.cue_down(), Cued::Returned(2_000), "a held seek is not paused");
    assert_eq!(t.rate(), RATE_PAUSED);
    assert!(!t.is_silent(), "back cue leaves the deck ready to play, not muted");
    assert_eq!(take(&mut t), Some(2_000));
}

#[test]
fn reaching_the_end_clears_a_latched_preview() {
    let mut t = Transport::new();
    t.track_loaded(0);
    t.pause();
    t.publish_position(0 * UNIT);
    let _ = t.cue_down();
    t.reached_end();
    let _ = t.cue_up();
    assert_eq!(take(&mut t), None, "the latch must have been cleared");
}

#[test]
fn reaching_the_end_stops_the_rate_and_advances_nothing() {
    let mut t = Transport::new();
    t.track_loaded(0);
    t.play();
    t.reached_end();
    assert_eq!(t.rate(), RATE_PAUSED);
    assert_eq!(t.state(), State::Paused);
    assert_eq!(take(&mut t), None, "reaching the end must not queue a seek");
}

#[test]
fn a_queued_seek_makes_reaching_the_end_stale_and_it_is_ignored() {
    let mut t = Transport::new();
    t.track_loaded(0);
    t.track_loaded(0);
    let _ = t.back_cue();
    t.play();

    t.reached_end();
    assert_eq!(t.rate(), RATE_UNITY, "the operator's PLAY must survive");
    assert_eq!(t.state(), State::Playing);

    assert_eq!(take(&mut t), Some(0));
    t.reached_end();
    assert_eq!(t.rate(), RATE_PAUSED);
    assert_eq!(t.state(), State::Paused);
}

#[test]
fn a_seek_queued_while_one_is_being_serviced_is_kept_rather_than_dropped() {
    let mut t = Transport::new();
    t.track_loaded(0);
    t.request_seek(100);
    let target = t.peek_seek().expect("queued");

    t.request_seek(200);
    t.consumed_seek(target);

    assert_eq!(t.peek_seek(), Some(200), "the newer request must survive");
}

#[test]
fn a_position_read_while_a_seek_is_in_flight_has_no_settled_answer() {
    let mut t = Transport::new();
    t.track_loaded(0);
    t.publish_position(2_000 * UNIT);
    assert_eq!(t.settled_position(), Some(2_000 * UNIT));

    t.request_seek(0);
    assert_eq!(
        t.settled_position(),
        None,
        "2,000 is the answer from before the seek"
    );

    let target = t.peek_seek().expect("queued");
    t.publish_position(target as i128 * UNIT);
    t.consumed_seek(target);
    assert_eq!(t.settled_position(), Some(0 * UNIT));
}

#[test]
fn no_pending_seek_means_the_published_position_is_the_new_one() {
    let mut t = Transport::new();
    t.track_loaded(0);
    t.publish_position(2_000 * UNIT);
    t.request_seek(50);

    let target = t.peek_seek().expect("queued");
    t.publish_position(target as i128 * UNIT);
    assert!(
        t.peek_seek().is_some(),
        "still pending, so a reader must conclude nothing yet"
    );
    t.consumed_seek(target);

    assert_eq!(t.peek_seek(), None);
    assert_eq!(t.position(), 50 * UNIT);
}

#[test]
fn a_load_restores_the_cue_point_and_still_waits_at_frame_zero() {
    let mut t = Transport::new();
    t.track_loaded(0);
    t.track_loaded(120_000);
    assert_eq!(t.cue_point(), 120_000, "the stored point must be restored");
    assert_eq!(t.position(), 0 * UNIT, "waits at zero, not at the cue");
    assert_eq!(t.state(), State::Paused);
    assert_eq!(t.rate(), RATE_PAUSED);
}

#[test]
fn a_load_clears_what_the_previous_track_latched() {
    let mut t = Transport::new();
    t.track_loaded(0);
    t.track_loaded(0);
    t.play();
    t.request_seek(900);
    t.pause();
    let _ = t.cue_down();

    t.track_loaded(50);
    assert_eq!(take(&mut t), None, "a seek must not survive a load");
    let _ = t.cue_up();
    assert_eq!(
        take(&mut t),
        None,
        "the preview latch must not survive a load"
    );
}

#[test]
fn an_unload_is_the_transition_into_stopped_that_this_type_lacked() {
    let mut t = Transport::new();
    t.track_loaded(0);
    t.track_loaded(4_410);
    t.play();
    assert_eq!(t.state(), State::Playing);

    t.track_unloaded();
    assert_eq!(t.state(), State::Stopped, "nothing loaded is Stopped");
    assert_eq!(t.rate(), RATE_PAUSED);
    assert_eq!(t.position(), 0 * UNIT);
    assert_eq!(
        t.cue_point(),
        0,
        "the cue belongs to the file; leaving it would give the next \
         track this one's point"
    );
}
