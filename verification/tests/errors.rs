use deck_pi::display::wire::{crc16, Broken, Message, Pen, Reader, Span, MAGIC, VERSION};
use deck_pi::rt::{
    apply, in_force, Did, Next, Policy, ReadBack, Refusal, RtError, RtInForce, RtRequest,
};
use deck_pi::sink::alsa::{AlsaSink, Failure, Granted, Progress, Written};
use deck_pi::sink::SinkError;

fn framed(kind: u8, payload: &[u8]) -> Vec<u8> {
    let mut checked = vec![VERSION, kind];
    checked.extend((payload.len() as u16).to_le_bytes());
    checked.extend(payload);
    let mut out = MAGIC.to_vec();
    out.extend(&checked);
    out.extend(crc16(&checked).to_le_bytes());
    out
}

#[test]
fn a_message_that_makes_no_sense_is_said_to_be_malformed_and_passed_over() {
    let frame = Message::Frame {
        seq: 1,
        spans: vec![Span { x0: 0, y0: 0, x1: 8, y1: 8, pen: Pen::Refused }],
        bits: vec![0xaa],
    };
    let mut payload = frame.to_bytes();
    let kind = payload[3];
    payload = payload[6..payload.len() - 2].to_vec();
    let mut unknown_pen = payload.clone();
    unknown_pen[12] = 0x7f;
    for (kind, payload) in [
        (0xee, Vec::new()),
        (kind, vec![1]),
        (kind, payload[..10].to_vec()),
        (kind, unknown_pen),
        (Message::Brightness(1).to_bytes()[3], Vec::new()),
        (Message::Ack { seq: 1, micros: 2 }.to_bytes()[3], vec![0; 5]),
    ] {
        let mut r = Reader::new();
        r.feed(&framed(kind, &payload));
        r.feed(&Message::Hello.to_bytes());
        assert_eq!(r.next_message(), Some(Err(Broken::Malformed)), "{kind:#x} {payload:?}");
        assert_eq!(r.next_message(), Some(Ok(Message::Hello)));
        assert_eq!(r.next_message(), None);
    }
    let mut r = Reader::new();
    r.feed(&framed(kind, &payload));
    assert_eq!(r.next_message(), Some(Ok(frame)));
}

#[test]
fn a_crc_that_was_changed_is_caught_at_every_byte() {
    let good = Message::Fault { code: 3, reason: "no panel".into() }.to_bytes();
    for i in (3..4).chain(6..good.len()) {
        let mut bad = good.clone();
        bad[i] ^= 0x40;
        let mut r = Reader::new();
        r.feed(&bad);
        assert_eq!(r.next_message(), Some(Err(Broken::Crc)), "byte {i}");
    }
}

fn back() -> ReadBack {
    ReadBack {
        policy: Ok(1),
        priority: Ok(75),
        status: Ok("Name:\tdeck\nVmLck:\t  640 kB\n".into()),
        affinity: Ok(vec![false, true]),
    }
}

#[test]
fn what_the_kernel_would_not_say_is_an_error_of_its_own() {
    assert_eq!(
        in_force(back()),
        Ok(RtInForce { policy: Policy::Fifo, priority: 75, locked_kib: 640, cpus: vec![1] })
    );
    let no = Refusal::Errno(1);
    let call = |call| Err(RtError::Refused { call, errno: 1 });
    assert_eq!(in_force(ReadBack { policy: Err(no), ..back() }), call("sched_getscheduler"));
    assert_eq!(in_force(ReadBack { priority: Err(no), ..back() }), call("sched_getparam"));
    assert_eq!(in_force(ReadBack { affinity: Err(no), ..back() }), call("sched_getaffinity"));
    let proc = |m: &str| Err(RtError::Proc(m.into()));
    assert_eq!(
        in_force(ReadBack { status: Err("denied".into()), ..back() }),
        proc("/proc/self/status: denied")
    );
    assert_eq!(
        in_force(ReadBack { status: Ok("Name: deck\n".into()), ..back() }),
        proc("/proc/self/status carries no VmLck line")
    );
}

#[test]
fn a_setup_that_did_not_take_names_the_field() {
    let req = RtRequest { cpu: Some(1), ..RtRequest::default() };
    let good = || in_force(back()).expect("read back");
    let read = |got: RtInForce| match apply(&req, Did::Read(Ok(got))) {
        Next::Finished(outcome) => outcome,
        other => panic!("{other:?}"),
    };
    assert_eq!(read(good()), Ok(good()));
    for (got, said) in [
        (
            RtInForce { policy: Policy::Other, ..good() },
            "scheduling policy asked for SCHED_FIFO and the kernel reports SCHED_OTHER",
        ),
        (
            RtInForce { priority: 3, ..good() },
            "SCHED_FIFO priority asked for 75 and the kernel reports 3",
        ),
        (
            RtInForce { locked_kib: 0, ..good() },
            "locked memory (VmLck) asked for more than 0 kB and the kernel reports 0 kB",
        ),
        (
            RtInForce { cpus: vec![0, 1], ..good() },
            "CPU affinity asked for [1] and the kernel reports [0, 1]",
        ),
    ] {
        let e = read(got).expect_err("must not pass");
        assert!(matches!(e, RtError::NotInForce { .. }));
        assert_eq!(e.to_text(), said);
    }
    match apply(&req, Did::Touched(4_096)) {
        Next::Finished(Err(e)) => assert_eq!(
            e.to_text(),
            "stack prefault reach asked for 262144 bytes and the kernel reports 4096 bytes"
        ),
        other => panic!("{other:?}"),
    }
    assert!(matches!(apply(&req, Did::Touched(200_000)), Next::Pin(1)));
    assert!(matches!(apply(&req, Did::Pinned(Ok(()))), Next::Promote(75)));
    assert!(matches!(apply(&req, Did::Promoted(Ok(()))), Next::ReadBack));
    assert!(matches!(apply(&req, Did::Locked(Ok(()))), Next::Touch(262_144)));
    let no = || RtError::Refused { call: "mlockall", errno: 12 };
    for did in [Did::Locked(Err(no())), Did::Pinned(Err(no())), Did::Promoted(Err(no())), Did::Read(Err(no()))] {
        assert!(matches!(apply(&req, did), Next::Finished(Err(e)) if e == no()));
    }
}

#[test]
fn a_card_that_substitutes_or_fails_says_what() {
    let request = AlsaSink::request("hw:1", 96_000, 128, 2).expect("hardware");
    let granted = || Granted {
        rate: 96_000,
        format: "S24LE".into(),
        channels: 2,
        period_frames: 120,
        periods: 3,
        card: 1,
        device: 0,
    };
    let sink = AlsaSink::open(&request, granted()).expect("granted");
    assert_eq!((sink.params.period_frames, sink.params.periods), (120, 3));
    for (got, said) in [
        (Granted { rate: 48_000, ..granted() }, ("rate", "96000", "48000")),
        (Granted { format: "S16LE".into(), ..granted() }, ("format", "S24_LE", "S16LE")),
        (Granted { channels: 1, ..granted() }, ("channels", "2", "1")),
    ] {
        match AlsaSink::open(&request, got) {
            Err(SinkError::Substituted { field, asked, got }) => {
                assert_eq!((field, asked.as_str(), got.as_str()), said)
            }
            other => panic!("{other:?}"),
        }
    }
    let broke = Failure { func: "snd_pcm_writei", errno: 19 };
    let failed = SinkError::DeviceRt { func: "snd_pcm_writei", errno: 19 };
    let done = |wrote| match AlsaSink::after(0, 8, wrote) {
        Progress::Done(outcome) => outcome,
        other => panic!("{other:?}"),
    };
    assert_eq!(done(Written::Failed(broke)), Err(failed.clone()));
    assert_eq!(done(Written::RanDry { prepared: Err(broke) }), Err(failed.clone()));
    assert_eq!(done(Written::RanDry { prepared: Ok(()) }), Err(SinkError::Underrun));
    assert_eq!(done(Written::Frames(4)), Ok(()));
    assert!(matches!(AlsaSink::after(2, 8, Written::Frames(2)), Progress::Write(6)));
    assert_eq!(failed.to_text(), "snd_pcm_writei failed on the audio thread: errno 19");
}
