use deck_pi::display::wire::{
    handshake, Broken, Declared, Handshake, Message, Pen, Reader, Span, MAX_PAYLOAD, VERSION,
};

fn frame() -> Message {
    Message::Frame {
        seq: 0x1234,
        spans: vec![
            Span { x0: 0, y0: 0, x1: 128, y1: 12, pen: Pen::Dim },
            Span { x0: 0, y0: 13, x1: 128, y1: 26, pen: Pen::Folder },
        ],
        bits: vec![0xAA; 1024],
    }
}

fn all() -> Vec<Message> {
    vec![
        Message::Hello,
        Message::Declare(Declared {
            px_w: 256,
            px_h: 64,
            colour: false,
            partial: true,
            brightness_levels: 16,
            max_payload: 4096,
        }),
        frame(),
        Message::Ack { seq: 7, micros: 123_456 },
        Message::Fault { code: 2, reason: "panel did not init".into() },
        Message::Brightness(3),
        Message::Blank(true),
    ]
}

#[test]
fn every_message_survives_the_wire() {
    let mut reader = Reader::new();
    for m in all() {
        reader.feed(&m.to_bytes());
        let got = reader.next_message().expect("a message").expect("not broken");
        assert_eq!(got, m);
    }
    assert_eq!(reader.resyncs, 0);
}

#[test]
fn a_message_split_across_reads_is_not_lost() {
    let bytes = frame().to_bytes();
    let mut reader = Reader::new();
    for chunk in bytes.chunks(7) {
        if let Some(early) = reader.next_message() {
            panic!("a partial frame decoded: {early:?}");
        }
        reader.feed(chunk);
    }
    assert_eq!(reader.next_message().expect("whole now").expect("not broken"), frame());
}

#[test]
fn several_messages_in_one_read_all_come_out() {
    let mut bytes = Vec::new();
    for m in all() {
        m.encode(&mut bytes);
    }
    let mut reader = Reader::new();
    reader.feed(&bytes);
    let got: Vec<Message> = std::iter::from_fn(|| reader.next_message())
        .map(|r| r.expect("not broken"))
        .collect();
    assert_eq!(got, all());
}

#[test]
fn garbage_before_a_frame_is_skipped_and_counted() {
    let mut bytes = vec![0x00, 0xFF, b'D', 0x01, 0x02, 0x03];
    frame().encode(&mut bytes);
    let mut reader = Reader::new();
    reader.feed(&bytes);
    assert_eq!(reader.next_message().expect("a message").expect("not broken"), frame());
    assert!(reader.resyncs > 0, "the skip was not counted");
}

#[test]
fn every_byte_thrown_away_is_counted() {
    let ack = Message::Ack { seq: 9, micros: 1 };
    let mut reader = Reader::new();
    reader.feed(&[0x00, 0xFF, b'D', 0x01, 0x02, 0x03]);
    reader.feed(&ack.to_bytes());
    assert_eq!(reader.next_message().expect("a message").expect("not broken"), ack);
    assert_eq!(reader.resyncs, 6, "the bytes before the magic");
    let mut bad = ack.to_bytes();
    let n = bad.len();
    bad[n - 1] ^= 0x01;
    reader.feed(&bad);
    assert_eq!(reader.next_message().expect("something"), Err(Broken::Crc));
    assert_eq!(reader.resyncs, 7, "one byte, to hunt on from");
    assert!(reader.next_message().is_none(), "nothing is lost while there may be more");
    assert_eq!(reader.resyncs, 7);
    reader.feed(&ack.to_bytes());
    assert_eq!(reader.next_message().expect("a message").expect("not broken"), ack);
    assert_eq!(reader.resyncs, 6 + n as u64, "and what is left of the bad message");
}

#[test]
fn a_flipped_bit_is_caught_and_the_reader_carries_on() {
    let mut bytes = frame().to_bytes();
    let n = bytes.len();
    bytes[n / 2] ^= 0x01;
    let good = Message::Ack { seq: 9, micros: 1 };
    good.encode(&mut bytes);

    let mut reader = Reader::new();
    reader.feed(&bytes);
    let first = reader.next_message().expect("something");
    assert!(matches!(first, Err(Broken::Crc)), "{first:?}");
    let recovered = std::iter::from_fn(|| reader.next_message())
        .filter_map(|r| r.ok())
        .find(|m| *m == good);
    assert!(recovered.is_some(), "never got past the corrupt frame");
}

#[test]
fn a_version_this_build_does_not_speak_is_refused_rather_than_parsed() {
    let mut bytes = Message::Hello.to_bytes();
    bytes[2] = VERSION + 1;
    let mut reader = Reader::new();
    reader.feed(&bytes);
    assert!(matches!(reader.next_message(), Some(Err(Broken::Version(v))) if v == VERSION + 1));
}

#[test]
fn a_corrupt_length_does_not_make_the_reader_wait_for_bytes_that_are_not_coming() {
    let mut bytes = Message::Hello.to_bytes();
    let bad = (MAX_PAYLOAD as u16).wrapping_add(1).to_le_bytes();
    bytes[4] = bad[0];
    bytes[5] = bad[1];
    let mut reader = Reader::new();
    reader.feed(&bytes);
    assert!(matches!(reader.next_message(), Some(Err(Broken::Length(_)))));
}

#[test]
fn no_panel_is_a_declaration_and_not_a_silence() {
    let none = Declared {
        px_w: 0,
        px_h: 0,
        colour: false,
        partial: false,
        brightness_levels: 0,
        max_payload: 0,
    };
    assert!(!none.has_panel());
    let mut reader = Reader::new();
    reader.feed(&Message::Declare(none).to_bytes());
    match reader.next_message().expect("a message").expect("not broken") {
        Message::Declare(d) => assert!(!d.has_panel()),
        other => panic!("{other:?}"),
    }
}

#[test]
fn the_handshake_asks_first_and_skips_what_it_did_not_ask_for() {
    let declared = Declared {
        px_w: 128,
        px_h: 64,
        colour: false,
        partial: false,
        brightness_levels: 0,
        max_payload: 2048,
    };
    let mut from_pico = Vec::new();
    Message::Fault { code: 1, reason: "stale".into() }.encode(&mut from_pico);
    Message::Declare(declared).encode(&mut from_pico);

    let mut reader = Reader::new();
    assert!(matches!(handshake(&mut reader, false), Handshake::Read), "nothing has come yet");
    let n = from_pico.len();
    assert_eq!(reader.fill_from(&from_pico, n), n);
    match handshake(&mut reader, false) {
        Handshake::Declared(got) => assert_eq!(got, declared),
        other => panic!("{other:?}"),
    }
}

#[test]
fn a_pico_that_never_answers_times_out_rather_than_hanging_the_deck() {
    let mut reader = Reader::new();
    assert!(matches!(handshake(&mut reader, true), Handshake::TimedOut));
}

#[test]
fn a_stream_in_any_pieces_comes_out_as_it_went_in() {
    let ms: Vec<Message> = all().into_iter().chain(all()).collect();
    let bytes: Vec<u8> = ms.iter().flat_map(|m| m.to_bytes()).collect();
    let ends: Vec<usize> = ms
        .iter()
        .scan(0, |at, m| {
            *at += m.to_bytes().len();
            Some(*at)
        })
        .collect();
    for size in [1, 2, 3, 7, 64, 1000, bytes.len()] {
        let mut reader = Reader::new();
        let (mut got, mut fed) = (Vec::new(), 0);
        for piece in bytes.chunks(size) {
            reader.feed(piece);
            fed += piece.len();
            while let Some(answer) = reader.next_message() {
                got.push(answer.expect("not broken"));
            }
            let whole = ends.iter().filter(|end| **end <= fed).count();
            assert_eq!(got.len(), whole, "in pieces of {size}, after {fed} bytes");
        }
        assert_eq!(got, ms, "in pieces of {size}");
        assert_eq!(reader.resyncs, 0);
    }
}
