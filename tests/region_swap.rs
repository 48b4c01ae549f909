use league_settings::region::{find_first, replace_first_bytes, swap_region};

#[test]
fn swap_region_na_to_la1() {
    let out = swap_region(b"region: \"NA\"\nother: x");
    assert_eq!(out, b"region: \"LA1\"\nother: x".to_vec());
}

#[test]
fn swap_region_la1_to_na() {
    let out = swap_region(b"locale: en\nregion: \"LA1\"\n");
    assert_eq!(out, b"locale: en\nregion: \"NA\"\n".to_vec());
}

#[test]
fn swap_region_twice_restores() {
    let original = b"a: 1\nregion: \"NA\"\nb: 2".to_vec();
    let once = swap_region(&original);
    let text = String::from_utf8(once.clone()).unwrap();
    assert!(text.contains("region: \"LA1\""));
    assert!(!text.contains("region: \"NA\""));
    let twice = swap_region(&once);
    assert_eq!(twice, original);
}

#[test]
fn swap_region_without_marker_unchanged() {
    let input = b"region: \"EUW\"\nname: test".to_vec();
    assert_eq!(swap_region(&input), input);
}

#[test]
fn swap_region_empty_input() {
    assert_eq!(swap_region(b""), Vec::<u8>::new());
}

#[test]
fn swap_region_replaces_first_occurrence_only() {
    let out = swap_region(b"region: \"NA\" region: \"NA\"");
    assert_eq!(out, b"region: \"LA1\" region: \"NA\"".to_vec());
}

#[test]
fn swap_region_prefers_na_when_both_present() {
    let out = swap_region(b"region: \"LA1\"\nregion: \"NA\"");
    assert_eq!(out, b"region: \"LA1\"\nregion: \"LA1\"".to_vec());
}

#[test]
fn find_first_positions() {
    assert_eq!(find_first(b"abcabc", b"ca"), Some(2));
    assert_eq!(find_first(b"abc", b"abcd"), None);
    assert_eq!(find_first(b"abc", b"x"), None);
    assert_eq!(find_first(b"abc", b""), Some(0));
}

#[test]
fn replace_first_bytes_splices() {
    assert_eq!(replace_first_bytes(b"a-b-c", b"-", b"+="), b"a+=b-c".to_vec());
    assert_eq!(replace_first_bytes(b"abc", b"z", b"y"), b"abc".to_vec());
}
