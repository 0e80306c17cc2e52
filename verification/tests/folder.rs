use deck_pi::browser::{
    read_folder, read_header, Activation, BrowseError, Browser, EntryKind, Fetched, Item, ItemKind,
    Needs, Row, Shown, Verdict,
};
use deck_pi::cue::{CueFile, CueStore};
use deck_pi::file::{Container, Depth, OpenError, Reject, Track, TrackInfo};
use deck_pi::loaded::{Loaded, Step};
use deck_pi::path::{is_absolute, join, parent_and_name, strip_prefix};
use deck_pi::sndfile::ffi::{SF_FORMAT_AIFF, SF_FORMAT_PCM_16, SF_FORMAT_PCM_24, SF_FORMAT_WAV, SF_INFO};
use deck_pi::sndfile::{frame_sought, frames_read, SndFileError};

const ROOT: &[u8] = b"/media/stick";

fn file(name: &[u8]) -> Item {
    Item { name: name.to_vec(), kind: ItemKind::Is(EntryKind::File) }
}

fn folder(name: &[u8]) -> Item {
    Item { name: name.to_vec(), kind: ItemKind::Is(EntryKind::Folder) }
}

fn names(items: Vec<Item>) -> Vec<String> {
    read_folder(&items).into_iter().map(|e| e.label).collect()
}

fn info(path: &[u8]) -> TrackInfo {
    TrackInfo {
        path: path.to_vec(),
        frames: 9,
        rate: 44_100,
        channels: 1,
        depth: Depth::Int24,
        container: Container::Aiff,
        seekable: true,
    }
}

#[test]
fn folders_come_first_and_hidden_or_unclassified_things_not_at_all() {
    let items = vec![
        file(b"b.wav"),
        folder(b"Zed"),
        file(b".DS_Store"),
        folder(b".Trashes"),
        Item { name: b"link".to_vec(), kind: ItemKind::Other(Some(EntryKind::Folder)) },
        Item { name: b"dead".to_vec(), kind: ItemKind::Other(None) },
        Item { name: b"what".to_vec(), kind: ItemKind::Unknown },
        file(b"A10.wav"),
        file(b"a9.wav"),
    ];
    assert_eq!(names(items), vec!["link", "Zed", "a9.wav", "A10.wav", "b.wav"]);
}

#[test]
fn a_name_that_is_not_text_is_listed_as_what_it_reads_as() {
    assert_eq!(names(vec![file(b"\xff.wav")]), vec!["\u{fffd}.wav"]);
    // Names beyond one script's case order by their lower case.
    assert_eq!(
        names(vec![file("ÉA".as_bytes()), file("éb".as_bytes()), file("Éc".as_bytes())]),
        vec!["ÉA", "éb", "Éc"]
    );
}

#[test]
fn an_order_of_equals_is_the_order_they_were_read_in() {
    // The two read alike, and neither comes before the other.
    let r = read_folder(&vec![file(b"\xff"), file(b"\xfe")]);
    assert_eq!((r[0].name.clone(), r[1].name.clone()), (vec![0xff], vec![0xfe]));
}

fn ten() -> Browser {
    let items = (0..10).map(|i| file(format!("{i}.wav").as_bytes())).collect();
    let mut b = Browser::open(ROOT, Ok(items)).expect("opens");
    for i in 0..10 {
        let path = format!("/media/stick/{i}.wav").into_bytes();
        b.learn(path.clone(), Verdict::Plays(info(&path)));
    }
    b
}

fn shown(b: &mut Browser, height: usize) -> Vec<String> {
    match b.view(height) {
        Shown::Rows(rows) => rows
            .iter()
            .map(|r| format!("{}{}", if r.selected() { ">" } else { "" }, r.name()))
            .collect(),
        Shown::Unread(path) => panic!("{path:?}"),
    }
}

#[test]
fn the_view_moves_only_as_far_as_it_must() {
    let mut b = ten();
    assert_eq!(shown(&mut b, 3), vec![">0.wav", "1.wav", "2.wav"]);
    b.select_next();
    b.select_next();
    assert_eq!(shown(&mut b, 3), vec!["0.wav", "1.wav", ">2.wav"]);
    b.select_next();
    assert_eq!(shown(&mut b, 3), vec!["1.wav", "2.wav", ">3.wav"]);
    assert_eq!(b.first_visible(), 1);
    b.select_prev();
    assert_eq!(shown(&mut b, 3), vec!["1.wav", ">2.wav", "3.wav"]);
    for _ in 0..20 {
        b.select_next();
    }
    assert_eq!(shown(&mut b, 3), vec!["7.wav", "8.wav", ">9.wav"]);
    // A taller view leaves no row blank that an entry could fill.
    assert_eq!(shown(&mut b, 5)[0], "5.wav");
    assert_eq!(shown(&mut b, 0), Vec::<String>::new());
}

#[test]
fn only_the_rows_on_the_screen_have_their_headers_read_and_each_once() {
    let items = (0..10).map(|i| file(format!("{i}.wav").as_bytes())).collect();
    let mut b = Browser::open(ROOT, Ok(items)).expect("opens");
    for i in 0..3 {
        match b.view(3) {
            Shown::Unread(path) => {
                assert_eq!(path, format!("/media/stick/{i}.wav").into_bytes());
                b.learn(path.clone(), Verdict::Unreadable("x".into()));
                b.learn(path, Verdict::Unreadable("y".into()));
            }
            other => panic!("{other:?}"),
        }
    }
    assert_eq!(b.headers_read(), 3);
    match b.view(3) {
        Shown::Rows(rows) => assert!(rows.iter().all(|r| matches!(
            r,
            Row::File { verdict: Verdict::Unreadable(why), .. } if why == "x"
        ))),
        other => panic!("{other:?}"),
    }
}

#[test]
fn a_reload_keeps_the_selection_on_its_name() {
    let mut b = ten();
    for _ in 0..4 {
        b.select_next();
    }
    b.reload(Ok(vec![file(b"0.wav"), file(b"4.wav"), file(b"9.wav")])).expect("reads");
    assert_eq!((b.selected_index(), b.len(), b.headers_read()), (1, 3, 10));
    b.reload(Ok(vec![file(b"0.wav"), file(b"9.wav")])).expect("reads");
    assert_eq!(b.selected_index(), 0, "the name is gone");
    let e = b.reload(Err("gone".into())).expect_err("must say so");
    assert_eq!(e, BrowseError::Unreadable { path: ROOT.to_vec(), reason: "gone".into() });
    assert_eq!(e.to_text(), "/media/stick: gone");
    assert!(Browser::open(b"/m", Err("no".into())).is_err());
}

#[test]
fn enter_and_back_walk_the_tree_and_stop_at_the_root() {
    let mut b = Browser::open(ROOT, Ok(vec![folder(b"a"), folder(b"b")])).expect("opens");
    assert!(b.at_root());
    b.select_next();
    assert!(matches!(b.enter_needs(), Needs::Folder(p) if p == b"/media/stick/b"));
    assert!(matches!(b.enter(Fetched::Folder(Err("no".into()))), Err(BrowseError::Unreadable { .. })));
    assert!(b.at_root());
    assert!(matches!(b.enter(Fetched::Folder(Ok(Vec::new()))), Ok(Activation::Descended)));
    assert_eq!((b.path(), b.root().to_vec()), (b"/media/stick/b".to_vec(), ROOT.to_vec()));
    assert!(b.is_empty() && b.selected_path().is_none());
    assert!(matches!(b.enter_needs(), Needs::Nothing));
    assert!(matches!(b.enter(Fetched::Nothing), Ok(Activation::Nothing)));
    assert_eq!(b.back_needs(), Some(ROOT.to_vec()));
    assert!(b.back(Ok(vec![folder(b"a"), folder(b"b")])).expect("up"));
    assert_eq!(b.selected_path(), Some(b"/media/stick/b".to_vec()), "on the folder it left");
    assert_eq!(b.back_needs(), None);
    assert!(!b.back(Ok(Vec::new())).expect("nowhere to go"));
    assert_eq!(b.len(), 2);
}

#[test]
fn enter_answers_with_the_headers_verdict() {
    let one = || Browser::open(ROOT, Ok(vec![file(b"t.aif")])).expect("opens");
    let mut b = one();
    assert!(matches!(b.enter_needs(), Needs::Header(p) if p == b"/media/stick/t.aif"));
    let plays = || Verdict::Plays(info(b"/media/stick/t.aif"));
    assert!(matches!(b.enter(Fetched::Header(plays())), Ok(Activation::Play(i)) if i.frames == 9));
    assert!(matches!(b.enter(Fetched::Nothing), Ok(Activation::Play(_))), "and it is remembered");
    assert!(matches!(
        one().enter(Fetched::Header(Verdict::Refused(Reject::Container))),
        Ok(Activation::Refused(Reject::Container))
    ));
    assert!(matches!(
        one().enter(Fetched::Header(Verdict::Unreadable("bad".into()))),
        Ok(Activation::Unreadable(why)) if why == "bad"
    ));
    assert!(matches!(read_header(Ok(info(b"x"))), Verdict::Plays(_)));
    assert!(matches!(
        read_header(Err(OpenError::Rejected(Reject::Channels { found: 6 }))),
        Verdict::Refused(Reject::Channels { found: 6 })
    ));
    assert!(matches!(
        read_header(Err(OpenError::Unreadable(SndFileError { message: "m".into() }))),
        Verdict::Unreadable(m) if m == "m"
    ));
}

#[test]
fn a_step_forward_and_a_step_back_meet() {
    let listing = || {
        Ok(vec![file(b"c.wav"), folder(b"sub"), file(b"a.wav"), file(b"b.txt"), file(b"b.wav")])
    };
    let mut l = Loaded::nothing();
    l.load(Box::new(info(b"/m/f/b.wav")));
    assert_eq!(l.folder(), Some(b"/m/f".to_vec()));
    let next = l.neighbour(Step::Next, listing()).expect("read").expect("there is one");
    assert_eq!(next, b"/m/f/c.wav".to_vec());
    l.load(Box::new(info(&next)));
    assert_eq!(l.neighbour(Step::Next, listing()), Ok(None));
    assert_eq!(l.neighbour(Step::Previous, listing()), Ok(Some(b"/m/f/b.wav".to_vec())));
    // A track that is no longer in its folder has no neighbours.
    l.load(Box::new(info(b"/m/f/gone.wav")));
    assert_eq!(l.neighbour(Step::Next, listing()), Ok(None));
    assert!(l.neighbour(Step::Next, Err("x".into())).is_err());
    l.unload();
    assert_eq!((l.path(), l.folder()), (None, None));
}

#[test]
fn the_loaded_track_owns_its_cue() {
    let mut store = CueStore::load(b"/s", "v", b"/m", CueFile::Missing).expect("opens");
    let mut l = Loaded::nothing();
    assert_eq!(l.cue(&store).expect("nothing is at the head"), 0);
    l.set_cue(&mut store, 5).expect("nothing to keep it for");
    assert!(store.is_empty());
    l.load(Box::new(info(b"/m/a.wav")));
    l.set_cue(&mut store, 5).expect("kept");
    assert_eq!((l.cue(&store).expect("keyed"), store.len()), (5, 1));
    assert_eq!(store.get(b"/m/b.wav").expect("another"), 0);
    l.load(Box::new(info(b"/elsewhere/a.wav")));
    assert!(l.cue(&store).is_err() && l.set_cue(&mut store, 1).is_err());
}

#[test]
fn paths_are_put_together_and_taken_apart_as_components() {
    assert_eq!(join(b"/a", b"b"), b"/a/b".to_vec());
    assert_eq!(join(b"/a/", b"b"), b"/a/b".to_vec());
    assert_eq!(join(b"", b"b"), b"b".to_vec());
    assert_eq!(join(b"/a", b"/b"), b"/b".to_vec());
    assert!(is_absolute(b"/") && !is_absolute(b"a/") && !is_absolute(b""));
    assert_eq!(strip_prefix(b"/m/a/b.wav", b"/m"), Some(b"a/b.wav".to_vec()));
    assert_eq!(strip_prefix(b"/m//./a", b"/m/"), Some(b"a".to_vec()));
    assert_eq!(strip_prefix(b"/mm/a", b"/m"), None);
    assert_eq!(strip_prefix(b"/m/a", b"m"), None);
    assert_eq!(parent_and_name(b"/a/b"), Some((b"/a".to_vec(), b"b".to_vec())));
    assert_eq!(parent_and_name(b"/a"), Some((b"/".to_vec(), b"a".to_vec())));
    assert_eq!(parent_and_name(b"/"), None);
    assert_eq!(parent_and_name(b"/a/.."), None);
}

fn header(format: i32, channels: i32, frames: i64) -> SF_INFO {
    SF_INFO { frames, samplerate: 48_000, channels, format, sections: 1, seekable: 0 }
}

#[test]
fn a_track_is_its_header_and_its_samples_come_out_right_aligned() {
    let t = Track::open(b"t.wav", Ok(header(SF_FORMAT_WAV | SF_FORMAT_PCM_24, 2, 3))).expect("plays");
    assert_eq!((t.info().frames, t.info().rate, t.info().seekable), (3, 48_000, false));
    let mut dst = [1 << 8, -(2 << 8), 0x7fff_ff00, i32::MIN, 77, 78];
    assert_eq!(t.read_into_ring(&mut dst, Ok(2)), Ok(2));
    assert_eq!(dst, [1, -2, 0x7f_ffff, -0x80_0000, 77, 78]);

    let mono = Track::open(b"m", Ok(header(SF_FORMAT_AIFF | SF_FORMAT_PCM_16, 1, -1))).expect("plays");
    assert_eq!(mono.info().frames, 0);
    let mut dst = [3 << 16, -(1 << 16), 9, 9];
    assert_eq!(mono.read_into_ring(&mut dst, Ok(2)), Ok(2));
    assert_eq!(dst, [3 << 8, 3 << 8, -(1 << 8), -(1 << 8)]);
    let gone = SndFileError { message: "gone".into() };
    assert_eq!(mono.read_into_ring(&mut dst, Err(gone.clone())), Err(gone));
}

#[test]
fn an_error_on_the_handle_is_not_the_end_of_the_track() {
    let said = || SndFileError { message: "System error.".into() };
    assert_eq!(frames_read(0, 0, said()), Ok(0));
    assert_eq!(frames_read(7, 2, said()), Err(said()));
    assert_eq!(frame_sought(5, said()), Ok(5));
    assert_eq!(frame_sought(-1, said()), Err(said()));
    assert_eq!(said().to_text(), "System error.");
}

#[test]
fn every_refusal_of_a_file_says_why() {
    for (why, want) in [
        (Reject::Container, "container not WAV / AIFF / RF64 / Wave64"),
        (Reject::Depth { found: 1 }, "8 bit — needs 16 or 24 bit PCM"),
        (Reject::Depth { found: 5 }, "8 bit — needs 16 or 24 bit PCM"),
        (Reject::Depth { found: 4 }, "32 bit integer — needs 16 or 24 bit PCM"),
        (Reject::Depth { found: 6 }, "32 bit float — needs 16 or 24 bit PCM"),
        (Reject::Depth { found: 7 }, "64 bit float — needs 16 or 24 bit PCM"),
        (Reject::Depth { found: 0x60 }, "compressed or unsupported sample format — needs 16 or 24 bit PCM"),
        (Reject::Rate { found: 8_000 }, "8000 Hz — outside 44.1-192 kHz"),
        (Reject::Channels { found: 6 }, "6 channels — needs mono or stereo"),
    ] {
        assert_eq!(why.to_text(), want);
        assert_eq!(OpenError::Rejected(why).to_text(), want);
    }
    let e = OpenError::Unreadable(SndFileError { message: "no".into() });
    assert_eq!(e.to_text(), "unreadable: no");
    assert_eq!(
        BrowseError::OutsideRoot { path: b"/x".to_vec() }.to_text(),
        "/x resolves outside the medium"
    );
    assert!(matches!(
        Track::open(b"x", Err(SndFileError { message: "no".into() })),
        Err(OpenError::Unreadable(_))
    ));
    assert!(matches!(
        Track::open(b"x", Ok(header(0x18_0000, 2, 1))),
        Err(OpenError::Rejected(Reject::Container))
    ));
    for depth in [Depth::Int16, Depth::Int24] {
        assert!(!depth.name().is_empty());
    }
    assert_eq!(Container::Wave64.name(), "Wave64");
}
