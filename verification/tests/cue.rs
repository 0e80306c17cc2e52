use deck_pi::cue::{
    cue_file_name, default_state_dir, escape, unescape, CueError, CueFile, CueStore,
};

const MOUNT: &[u8] = b"/media/stick";
const STATE: &[u8] = b"/state";

fn empty(volume: &str) -> CueStore {
    CueStore::load(STATE, volume, MOUNT, CueFile::Missing).expect("load")
}

/// The store a save of this one is read back as.
fn reloaded(s: &CueStore, volume: &str, mount: &[u8]) -> CueStore {
    CueStore::load(STATE, volume, mount, CueFile::Read(s.save().bytes)).expect("reload")
}

fn on_medium(name: &[u8]) -> Vec<u8> {
    [MOUNT, b"/", name].concat()
}

fn entries(s: &CueStore) -> Vec<Vec<u8>> {
    s.save()
        .bytes
        .split(|b| *b == b'\n')
        .filter(|l| !l.starts_with(b"#") && !l.is_empty())
        .map(|l| l.to_vec())
        .collect()
}

#[test]
fn a_cue_survives_a_reload() {
    let track = b"/media/stick/album/piece.wav";
    let mut s = empty("1A2B-3C4D");
    assert_eq!(s.get(track).expect("get"), 0, "unset reads as frame zero");
    s.set(track, 44_100).expect("set");
    let again = reloaded(&s, "1A2B-3C4D", MOUNT);
    assert_eq!(again.get(track).expect("get"), 44_100);
}

#[test]
fn a_newline_in_a_filename_survives_the_round_trip() {
    let nasty = on_medium(b"two\nlines\tand\\a tab.wav");
    let mut s = empty("vol");
    s.set(&nasty, 12_345).expect("set");
    assert_eq!(entries(&s).len(), 1, "the entry must not have split");
    assert_eq!(reloaded(&s, "vol", MOUNT).get(&nasty).expect("get"), 12_345);
}

#[test]
fn a_japanese_filename_stays_legible_in_the_file() {
    let track = on_medium("雨音と遠雷.wav".as_bytes());
    let mut s = empty("vol");
    s.set(&track, 88_200).expect("set");
    let raw = String::from_utf8(s.save().bytes).expect("text");
    assert!(raw.contains("雨音と遠雷.wav"), "not legible:\n{raw}");
    assert_eq!(reloaded(&s, "vol", MOUNT).get(&track).expect("get"), 88_200);
}

#[test]
fn two_names_that_are_not_valid_utf8_do_not_collide() {
    let a = on_medium(&[&[0xff][..], b".wav"].concat());
    let b = on_medium(&[&[0xfe][..], b".wav"].concat());
    assert_ne!(a, b);
    let mut s = empty("vol");
    s.set(&a, 111).expect("set a");
    s.set(&b, 222).expect("set b");
    assert_eq!(s.len(), 2, "the two names must be separate keys");
    let again = reloaded(&s, "vol", MOUNT);
    assert_eq!(again.get(&a).expect("get"), 111);
    assert_eq!(again.get(&b).expect("get"), 222);
}

#[test]
fn setting_a_new_cue_cancels_the_old_one() {
    let track = on_medium(b"t.wav");
    let mut s = empty("vol");
    s.set(&track, 1000).expect("set");
    s.set(&track, 2000).expect("set again");
    assert_eq!(s.len(), 1);
    assert_eq!(s.get(&track).expect("get"), 2000);
}

#[test]
fn zero_is_the_unset_value_and_is_not_stored() {
    let track = on_medium(b"t.wav");
    let mut s = empty("vol");
    s.set(&track, 5000).expect("set");
    s.set(&track, 0).expect("back to zero");
    assert_eq!(s.len(), 0);
    assert_eq!(s.get(&track).expect("get"), 0);
}

#[test]
fn the_key_is_relative_so_a_different_mount_point_still_finds_it() {
    let mut s = empty("vol");
    s.set(b"/media/stick/a/b.wav", 777).expect("set");
    let moved = reloaded(&s, "vol", b"/mnt/other");
    assert_eq!(moved.get(b"/mnt/other/a/b.wav").expect("get"), 777);
}

#[test]
fn a_path_outside_the_medium_has_no_key() {
    let s = empty("vol");
    match s.get(b"/etc/passwd") {
        Err(CueError::OutsideMedium { .. }) => {}
        other => panic!("expected OutsideMedium, got {:?}", other),
    }
}

#[test]
fn a_volume_name_that_would_escape_the_directory_is_refused_not_sanitised() {
    for bad in ["", "..", ".", "a/b", "with\nnewline"] {
        match CueStore::load(STATE, bad, MOUNT, CueFile::Missing) {
            Err(CueError::BadVolume { .. }) => {}
            other => panic!("{:?} should be refused, got {:?}", bad, other.is_ok()),
        }
    }
    for good in ["1A2B-3C4D", "655062ae-6e83-4521-b69b-44b96146a5d7"] {
        CueStore::load(STATE, good, MOUNT, CueFile::Missing).expect(good);
    }
}

#[test]
fn a_missing_file_is_a_first_use_and_a_mangled_line_is_skipped() {
    assert!(empty("vol").is_empty());
    let held = b"# header\n123\tgood.wav\nno tab here\nxyz\tbad.wav\n\n".to_vec();
    let s = CueStore::load(STATE, "vol", MOUNT, CueFile::Read(held)).expect("load");
    assert_eq!(s.len(), 1);
    assert_eq!(s.get(b"good.wav").expect("get"), 123);
}

#[test]
fn the_file_is_sorted_so_saves_are_stable() {
    let mut s = empty("vol");
    for name in [b"c.wav", b"a.wav", b"b.wav"] {
        s.set(&on_medium(name), 1).expect("set");
    }
    let first = s.save().bytes;
    assert_eq!(first, s.save().bytes);
    assert_eq!(
        entries(&s),
        vec![b"1\ta.wav".to_vec(), b"1\tb.wav".to_vec(), b"1\tc.wav".to_vec()]
    );
}

#[test]
fn the_write_leaves_no_temporary_behind() {
    let mut s = empty("vol");
    s.set(&on_medium(b"t.wav"), 1).expect("set");
    let save = s.save();
    assert_eq!(save.file, b"/state/vol.cues".to_vec());
    assert_eq!(save.tmp, b"/state/vol.tmp".to_vec(), "beside the file, and renamed over it");
    assert_eq!(s.path(), b"/state/vol.cues");
}

#[test]
fn escaping_round_trips_every_byte() {
    for b in 0u8..=255 {
        if b == 0 {
            continue;
        }
        let original = vec![b];
        assert_eq!(
            unescape(&escape(&original)),
            original,
            "byte {:#04x} did not round trip",
            b
        );
    }
}

#[test]
fn the_state_directory_follows_xdg() {
    assert_eq!(
        default_state_dir(Some(b"/tmp/xdg-state".to_vec()), Some(b"/home/deck".to_vec())),
        Some(b"/tmp/xdg-state/deck-pi".to_vec())
    );
    assert_eq!(
        default_state_dir(Some(Vec::new()), Some(b"/home/deck".to_vec())),
        Some(b"/home/deck/.local/state/deck-pi".to_vec())
    );
    assert_eq!(
        default_state_dir(None, Some(b"/home/deck".to_vec())),
        Some(b"/home/deck/.local/state/deck-pi".to_vec())
    );
    assert_eq!(default_state_dir(None, None), None);
}

#[test]
fn an_escape_that_is_not_one_is_kept() {
    assert_eq!(escape(b"\\a\n\r\t\x01\x7f"), b"\\\\a\\n\\r\\t\\x01\\x7f".to_vec());
    assert_eq!(unescape(b"\\q\\x4"), b"\\q\\x4".to_vec());
    assert_eq!(unescape(b"\\xzz"), b"\\xzz".to_vec());
    assert_eq!(unescape(b"\\x4A\\x+5"), b"J\\x+5".to_vec());
    assert_eq!(unescape(b"\\x+f"), b"\\x+f".to_vec());
    assert_eq!(unescape(b"\\x4+"), b"\\x4+".to_vec());
    assert_eq!(unescape(b"end\\"), b"end\\".to_vec());
}

#[test]
fn every_cue_error_says_what_it_is() {
    let e = cue_file_name("a/b").expect_err("refused");
    assert_eq!(
        e.to_text(),
        "volume \"a/b\" cannot name a cue file: contains a path separator or NUL"
    );
    assert_eq!(cue_file_name("1A2B").expect("named"), b"1A2B.cues".to_vec());
    let e = empty("vol").get(b"/etc/passwd").expect_err("outside");
    assert_eq!(e.to_text(), "/etc/passwd is not on the medium");
    let e = CueStore::load(STATE, "vol", MOUNT, CueFile::Failed("denied".to_string()))
        .expect_err("unreadable");
    assert_eq!(e.to_text(), "/state/vol.cues: denied");
    // A name that is not text is shown as near as it can be.
    let e = empty("vol").get(b"/\xff").expect_err("outside");
    assert_eq!(e.to_text(), "/\u{fffd} is not on the medium");
}
