use deck_pi::sink::alsa::{
    assert_no_mixer_controls, is_hardware_device, open_flags, parse_proc_hw_params,
    proc_hw_params_path, read_proc_hw_params, AlsaSink, Control, Failure, Granted, Progress,
    Written, NO_AUTO_CHANNELS, NO_AUTO_FORMAT, NO_AUTO_RESAMPLE, NO_SOFTVOL,
};
use deck_pi::sink::{AudioSink, CaptureSink, SampleFormat, SinkError, SinkParams};

#[test]
fn only_raw_hardware_device_names_are_accepted() {
    assert!(is_hardware_device("hw:0,0"));
    assert!(is_hardware_device("hw:CARD=sndrpihifiberry,DEV=0"));
    assert!(is_hardware_device("hw"));
    for bad in ["default", "plughw:0,0", "dmix:0", "pulse", "null", "sysdefault"] {
        assert!(!is_hardware_device(bad), "{} must be refused", bad);
    }
}

#[test]
fn open_refuses_a_converting_device_before_touching_alsa() {
    match AlsaSink::request("plughw:0,0", 44_100, 128, 2) {
        Err(SinkError::NotHardwareDevice(d)) => assert_eq!(d, "plughw:0,0"),
        other => panic!("expected a refusal, got {:?}", other),
    }
    assert!(AlsaSink::request("hw:0\0,0", 44_100, 128, 2).is_err());
}

#[test]
fn the_open_flags_are_the_four_the_design_names() {
    let f = open_flags();
    assert_ne!(f & NO_AUTO_RESAMPLE, 0);
    assert_ne!(f & NO_AUTO_CHANNELS, 0);
    assert_ne!(f & NO_AUTO_FORMAT, 0);
    assert_ne!(f & NO_SOFTVOL, 0);
    // And not nonblocking.
    assert_eq!(f & 1, 0);
}

#[test]
fn proc_hw_params_parses_what_the_kernel_writes() {
    let text = "access: RW_INTERLEAVED\n\
                format: S24_LE\n\
                subformat: STD\n\
                channels: 2\n\
                rate: 44100 (44100/1)\n\
                period_size: 128\n\
                buffer_size: 256\n";
    let p = parse_proc_hw_params(text).expect("parses");
    assert_eq!(p.access, "RW_INTERLEAVED");
    assert_eq!(p.format, "S24_LE");
    assert_eq!(p.channels, 2);
    assert_eq!(p.rate, 44_100);
    assert_eq!(p.period_size, 128);
    assert_eq!(p.buffer_size, 256);
}

#[test]
fn a_closed_stream_is_not_mistaken_for_parameters() {
    assert!(parse_proc_hw_params("closed\n").is_none());
    assert!(parse_proc_hw_params("").is_none());
    assert!(parse_proc_hw_params("format: S24_LE\nrate: 44100\n").is_none());
}

fn params(rate: u32, period_frames: usize, periods: u32) -> SinkParams {
    SinkParams { rate, channels: 2, format: SampleFormat::S24Le, period_frames, periods }
}

fn granted(rate: u32, format: &str, channels: u32) -> Granted {
    Granted {
        rate,
        format: format.to_string(),
        channels,
        period_frames: 256,
        periods: 3,
        card: 1,
        device: 0,
    }
}

#[test]
fn what_the_card_granted_is_held_to_what_was_asked() {
    let q = AlsaSink::request("hw:1,0", 48_000, 128, 2).expect("hardware");
    assert_eq!((q.name.as_str(), q.channels, q.rate), ("hw:1,0", 2, 48_000));
    assert_eq!((q.period_frames, q.periods), (128, 2));
    let s = AlsaSink::open(&q, granted(48_000, "S24LE", 2)).expect("as asked");
    assert_eq!(s.params, params(48_000, 256, 3), "the period may be another");
    assert_eq!(s.card(), 1);
    for (g, want) in [
        (granted(44_100, "S24LE", 2), "device substituted rate: asked 48000, got 44100"),
        (granted(48_000, "S16LE", 2), "device substituted format: asked S24_LE, got S16LE"),
        (granted(48_000, "S24LE", 6), "device substituted channels: asked 2, got 6"),
    ] {
        assert_eq!(AlsaSink::open(&q, g).expect_err("substituted").to_text(), want);
    }
}

#[test]
fn what_is_running_is_held_to_what_was_granted() {
    let q = AlsaSink::request("hw:1,0", 48_000, 128, 2).expect("hardware");
    let s = AlsaSink::open(&q, granted(48_000, "S24LE", 2)).expect("as asked");
    let text = |format: &str, channels: u32, rate: u32| {
        format!(
            "access: RW\nformat: {format}\nchannels: {channels}\nrate: {rate} (x)\n\
             period_size: 1\nbuffer_size: 2\n"
        )
    };
    let read = |t: String| s.hw_params_in_force(read_proc_hw_params(1, 0, Ok(t)));
    assert_eq!(read(text("S24_LE", 2, 48_000)).expect("in force").rate, 48_000);
    for (t, want) in [
        (text("S24_LE", 2, 44_100), "device substituted rate (in force): asked 48000, got 44100"),
        (text("S16_LE", 2, 48_000), "device substituted format (in force): asked S24_LE, got S16_LE"),
        (text("S24_LE", 1, 48_000), "device substituted channels (in force): asked 2, got 1"),
    ] {
        assert_eq!(read(t).expect_err("differs").to_text(), want);
    }
    assert_eq!(proc_hw_params_path(1, 0), "/proc/asound/card1/pcm0p/sub0/hw_params");
    assert_eq!(
        read("closed\n".to_string()).expect_err("closed").to_text(),
        "device: /proc/asound/card1/pcm0p/sub0/hw_params did not parse: \"closed\\n\""
    );
    assert_eq!(
        read_proc_hw_params(1, 0, Err("gone".to_string())).expect_err("gone").to_text(),
        "device: /proc/asound/card1/pcm0p/sub0/hw_params: gone"
    );
}

#[test]
fn a_later_line_replaces_an_earlier_one_and_a_number_must_be_one() {
    let head = "access: A\nformat: F\nchannels: 2\nperiod_size: 1\nbuffer_size: 2\n";
    let with = |more: &str| parse_proc_hw_params(&format!("{head}{more}"));
    assert_eq!(with("rate: 1\nrate: +2\n").expect("parses").rate, 2);
    assert!(with("rate: 1\nrate: fast\n").is_none());
    assert!(with("rate: 4294967296\n").is_none(), "past the machine word");
    assert_eq!(with("  rate\t:\u{3000}7 8\r\n").expect("parses").rate, 7);
    assert!(with("rate:\n").is_none());
}

#[test]
fn a_period_is_written_until_it_is_all_out() {
    let q = AlsaSink::request("hw", 48_000, 128, 2).expect("hardware");
    let s = AlsaSink::open(&q, granted(48_000, "S24LE", 2)).expect("as asked");
    assert!(matches!(s.begin(8), Progress::Write(0)));
    assert!(matches!(s.begin(0), Progress::Done(Ok(()))));
    assert!(matches!(
        s.begin(3),
        Progress::Done(Err(SinkError::WrongPeriodLength { given: 3, expected: 512 }))
    ));
    assert!(matches!(AlsaSink::after(0, 8, Written::Frames(3)), Progress::Write(6)));
    assert!(matches!(AlsaSink::after(6, 8, Written::Frames(1)), Progress::Done(Ok(()))));
    let dry = Written::RanDry { prepared: Ok(()) };
    assert!(matches!(AlsaSink::after(0, 8, dry), Progress::Done(Err(SinkError::Underrun))));
    let f = Failure { func: "snd_pcm_writei", errno: -77 };
    for w in [Written::Failed(f), Written::RanDry { prepared: Err(f) }] {
        match AlsaSink::after(0, 8, w) {
            Progress::Done(Err(e)) => assert_eq!(
                e.to_text(),
                "snd_pcm_writei failed on the audio thread: errno -77"
            ),
            other => panic!("{other:?}"),
        }
    }
}

fn control(name: &str, scales: bool) -> Control {
    Control {
        name: name.to_string(),
        playback_volume: scales,
        playback_switch: false,
        capture_volume: false,
    }
}

#[test]
fn an_input_selector_is_not_a_volume_control() {
    assert!(assert_no_mixer_controls(1, &[control("Tx Source", false)]).is_ok());
    assert!(assert_no_mixer_controls(1, &[]).is_ok());
    let e = assert_no_mixer_controls(
        1,
        &[control("Master", true), control("Tx Source", false), control("PCM", true)],
    )
    .expect_err("scales");
    assert_eq!(
        e.to_text(),
        "device: card 1 exposes volume or mute controls [\"Master\", \"PCM\"] — the driver \
         scales the stream even on hw:"
    );
}

#[test]
fn it_keeps_every_period_in_order() {
    let mut s = CaptureSink::new(44_100, 4, 16);
    s.write_period(&[1, 2, 3, 4, 5, 6, 7, 8]).unwrap();
    s.write_period(&[9, 10]).unwrap();
    assert_eq!(s.captured(), &[1, 2, 3, 4, 5, 6, 7, 8, 9, 10]);
    assert_eq!(s.frames_written(), 5);
    assert_eq!(s.periods_written(), 2);
}

#[test]
fn a_half_frame_write_is_refused() {
    let mut s = CaptureSink::new(44_100, 4, 16);
    assert!(matches!(
        s.write_period(&[1, 2, 3]),
        Err(SinkError::WrongPeriodLength { .. })
    ));
}

#[test]
fn overflow_is_an_error_rather_than_a_reallocation() {
    let mut s = CaptureSink::new(44_100, 2, 2);
    s.write_period(&[1, 2, 3, 4]).unwrap();
    assert!(s.write_period(&[5, 6]).is_err());
    assert_eq!(s.frames_written(), 2, "the failed write must not be kept");
}

#[test]
fn reset_keeps_the_allocation() {
    let mut s = CaptureSink::new(44_100, 2, 4);
    let before = s.captured.as_ptr();
    s.write_period(&[1, 2, 3, 4]).unwrap();
    s.reset();
    assert_eq!(s.frames_written(), 0);
    assert_eq!(s.captured.as_ptr(), before, "reset must not reallocate");
    s.write_period(&[9, 9, 9, 9]).unwrap();
    assert_eq!(s.captured(), &[9, 9, 9, 9]);
}

#[test]
fn a_capture_drains_and_runs_what_it_was_asked_for() {
    let mut s = CaptureSink::new(48_000, 4, 16);
    assert!(!s.was_drained());
    s.drain().unwrap();
    assert!(s.was_drained());
    s.verify_in_force().unwrap();
    assert_eq!(s.params(), params(48_000, 4, 2));
    assert_eq!(s.period_frames(), 4);
    assert_eq!(s.params().format.name(), "S24_LE");
}

#[test]
fn the_documented_latency_target_constrains_the_period_size_at_44_1_khz() {
    let secs = |p: &SinkParams| (p.period_frames * p.periods as usize) as f64 / p.rate as f64;
    let inside = |p: &SinkParams| (5.0..=10.0).contains(&(secs(p) * 1000.0));
    assert!(inside(&params(44_100, 128, 2)), "128 x 2 at 44.1 kHz");
    assert!(inside(&params(44_100, 128, 3)), "128 x 3 at 44.1 kHz");
    assert!(!inside(&params(44_100, 256, 2)));
    assert!(!inside(&params(44_100, 256, 3)), "256 x 3 at 44.1 kHz");
    assert_eq!(secs(&params(48_000, 128, 2)), 256.0 / 48_000.0);
    for period in [128usize, 256] {
        for count in [2u32, 3] {
            let ms = secs(&params(192_000, period, count)) * 1000.0;
            assert!(ms < 10.0, "{} x {} at 192 kHz is {:.2} ms", period, count, ms);
        }
    }
}

#[test]
fn a_non_hw_device_names_the_reason_in_full() {
    let m = SinkError::NotHardwareDevice("plughw:0,0".into()).to_text();
    assert!(m.contains("plughw"), "{}", m);
    assert!(m.contains("resamples"), "{}", m);
}

#[test]
fn every_sink_error_says_what_it_is() {
    assert_eq!(
        SinkError::NotHardwareDevice("a\"b".into()).to_text(),
        "\"a\\\"b\" is not a hw: device — default mixes and plughw resamples, silently"
    );
    assert_eq!(
        SinkError::RateRefused { asked: 96_000 }.to_text(),
        "the device will not take 96000 Hz exactly"
    );
    assert_eq!(SinkError::Underrun.to_text(), "underrun — the period was late");
    assert_eq!(
        SinkError::WrongPeriodLength { given: 3, expected: 256 }.to_text(),
        "period is 3 samples, device wants 256"
    );
    assert_eq!(SinkError::Device("busy".into()).to_text(), "device: busy");
}
