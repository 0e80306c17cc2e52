use std::cmp::Ordering;

use deck_pi::browser::natural_cmp;

#[test]
fn digits_sort_as_numbers_not_as_text() {
    let mut names = vec!["10.wav", "2.wav", "1.wav", "20.wav", "3.wav"];
    names.sort_by(|a, b| natural_cmp(a, b));
    assert_eq!(names, vec!["1.wav", "2.wav", "3.wav", "10.wav", "20.wav"]);
}

#[test]
fn leading_zeros_do_not_change_the_value() {
    assert_eq!(natural_cmp("track007", "track7"), Ordering::Less);
    assert_eq!(natural_cmp("07", "8"), Ordering::Less);
    assert_eq!(natural_cmp("007", "07"), Ordering::Less);
}

#[test]
fn a_forty_digit_run_does_not_overflow() {
    let big = "9".repeat(40);
    let bigger = "9".repeat(41);
    assert_eq!(natural_cmp(&big, &bigger), Ordering::Less);
    assert_eq!(natural_cmp(&bigger, &big), Ordering::Greater);
}

#[test]
fn the_order_is_total_so_a_reload_cannot_reshuffle_rows() {
    assert_eq!(natural_cmp("Aa", "aA"), Ordering::Less);
    assert_eq!(natural_cmp("aA", "Aa"), Ordering::Greater);
    assert_eq!(natural_cmp("same", "same"), Ordering::Equal);
}

#[test]
fn japanese_names_order_deterministically() {
    let mut names = vec!["雨音と遠雷.wav", "あめ.wav", "第三楽章.wav", "01_intro.wav"];
    names.sort_by(|a, b| natural_cmp(a, b));
    assert_eq!(names[0], "01_intro.wav", "digits sort before kana");
    let mut again = vec!["第三楽章.wav", "01_intro.wav", "雨音と遠雷.wav", "あめ.wav"];
    again.sort_by(|a, b| natural_cmp(a, b));
    assert_eq!(names, again);
}

#[test]
fn case_is_ignored_for_ordering() {
    let mut names = vec!["beta.wav", "Alpha.wav", "gamma.wav", "Delta.wav"];
    names.sort_by(|a, b| natural_cmp(a, b));
    assert_eq!(
        names,
        vec!["Alpha.wav", "beta.wav", "Delta.wav", "gamma.wav"]
    );
}
