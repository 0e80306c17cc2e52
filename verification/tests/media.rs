use deck_pi::media::{
    examine, is_mount_point, volume_uuid, FarmEntry, MediaWatch, Medium, Stat, StatFailed, Volume,
};

const MISSING: &[u8] = b"/nonexistent-deck-pi-mount-point";

fn listed() -> Volume {
    Volume::Listed { uuid: None }
}

#[test]
fn a_missing_path_is_absent_rather_than_an_error() {
    assert!(!is_mount_point(Stat::NotFound, None).expect("not an error"));
    assert_eq!(examine(is_mount_point(Stat::NotFound, None), listed()), Medium::Absent);
}

#[test]
fn a_directory_that_is_not_a_mount_point_reads_as_absent() {
    let inner = Stat::Found { is_dir: true, dev: 76 };
    let above = Some(Stat::Found { is_dir: true, dev: 76 });
    assert!(!is_mount_point(inner, above).expect("not an error"));
    assert_eq!(
        examine(is_mount_point(inner, above), listed()),
        Medium::Absent,
        "an ordinary directory must not read as a medium"
    );
}

#[test]
fn a_file_at_the_mount_point_is_not_a_medium() {
    let file = Stat::Found { is_dir: false, dev: 79 };
    let above = Some(Stat::Found { is_dir: true, dev: 76 });
    assert!(!is_mount_point(file, above).expect("not an error"));
    assert_eq!(examine(is_mount_point(file, above), listed()), Medium::Absent);
}

#[test]
fn a_mount_is_a_device_of_its_own() {
    let here = Stat::Found { is_dir: true, dev: 79 };
    let above = Stat::Found { is_dir: true, dev: 76 };
    assert_eq!(is_mount_point(here, Some(above)), Ok(true));
    assert_eq!(is_mount_point(here, None), Ok(false), "the root is its own parent");
    assert_eq!(is_mount_point(here, Some(Stat::NotFound)), Err(StatFailed {}));
    assert_eq!(is_mount_point(Stat::Failed, Some(above)), Err(StatFailed {}));
    assert_eq!(
        examine(Ok(true), Volume::Listed { uuid: Some("1A2B".to_string()) }),
        Medium::Browsable { uuid: Some("1A2B".to_string()) }
    );
    assert_eq!(
        examine(Ok(true), Volume::Refused { reason: "no".to_string() }),
        Medium::Unreadable { reason: "no".to_string() }
    );
    assert_eq!(examine(Err(StatFailed {}), listed()), Medium::Absent);
}

#[test]
fn the_watch_reports_only_changes() {
    let mut w = MediaWatch::new(MISSING.to_vec());
    assert_eq!(w.state(), &Medium::Absent);
    let look = || examine(is_mount_point(Stat::NotFound, None), listed());
    assert!(w.poll(look()).is_none());
    assert!(w.poll(look()).is_none());

    let there = Medium::Browsable { uuid: None };
    assert_eq!(w.poll(there.clone()), Some(&there));
    assert!(w.poll(there).is_none(), "the same sight twice is reported once");
    assert_eq!(w.mount_point(), MISSING);
}

#[test]
fn no_uuid_is_a_browsable_state_not_a_failure() {
    let with = Medium::Browsable {
        uuid: Some("1234-ABCD".to_string()),
    };
    let without = Medium::Browsable { uuid: None };
    assert!(with.is_browsable() && without.is_browsable());
    assert_eq!(with.uuid(), Some("1234-ABCD"));
    assert_eq!(without.uuid(), None);
    assert!(
        without.to_text().contains("cues cannot be saved"),
        "the degradation must be sayable: {}",
        without.to_text()
    );
}

#[test]
fn the_uuid_is_opaque_and_both_filesystems_shapes_survive_it() {
    for raw in ["1A2B-3C4D", "b03e987f-7127-39da-a816-1167109da731"] {
        let m = Medium::Browsable {
            uuid: Some(raw.to_string()),
        };
        assert_eq!(m.uuid(), Some(raw));
    }
}

#[test]
fn an_unreadable_medium_keeps_its_reason() {
    let m = Medium::Unreadable {
        reason: "Permission denied (os error 13)".to_string(),
    };
    assert!(!m.is_browsable());
    assert!(
        m.to_text().contains("Permission denied"),
        "the reason is the whole difference from Absent: {}",
        m.to_text()
    );
}

#[test]
fn every_medium_says_what_it_is() {
    assert_eq!(Medium::Absent.to_text(), "no medium");
    let m = Medium::Browsable { uuid: Some("AB".to_string()) };
    assert_eq!(m.to_text(), "browsable, volume AB");
    assert!(m.same(&m.duplicate()));
    assert!(!m.same(&Medium::Absent));
    assert_eq!(MediaWatch::at_default_path().mount_point(), b"/media/stick");
}

#[test]
fn the_uuid_is_found_by_device_number() {
    let farm = [
        FarmEntry { name: b"gone".to_vec(), rdev: None },
        FarmEntry { name: b"1A2B-3C4D".to_vec(), rdev: Some(2049) },
        FarmEntry { name: b"second".to_vec(), rdev: Some(2050) },
    ];
    assert_eq!(volume_uuid(Some(2049), &farm), Some("1A2B-3C4D".to_string()));
    assert_eq!(volume_uuid(Some(7), &farm), None);
    assert_eq!(volume_uuid(None, &farm), None);
    let odd = [FarmEntry { name: vec![0xff], rdev: Some(1) }];
    assert_eq!(volume_uuid(Some(1), &odd), Some("\u{fffd}".to_string()));
}
