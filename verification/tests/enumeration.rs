use strobe::frames::{enumerate_frames, frame_key, TraceError};

fn names(list: &[&str]) -> Vec<String> {
    list.iter().map(|s| s.to_string()).collect()
}

#[test]
fn sorts_by_numeric_key_not_listing_order() {
    let refs = enumerate_frames(names(&["10.png", "2.png", "1.png"])).unwrap();
    let keys: Vec<u64> = refs.iter().map(|f| f.key).collect();
    assert_eq!(keys, vec![1, 2, 10]);
    let sorted: Vec<&str> = refs.iter().map(|f| f.name.as_str()).collect();
    assert_eq!(sorted, vec!["1.png", "2.png", "10.png"]);
}

#[test]
fn sorts_regardless_of_permutation() {
    for perm in [
        ["1.png", "2.png", "10.png"],
        ["2.png", "10.png", "1.png"],
        ["10.png", "1.png", "2.png"],
    ] {
        let refs = enumerate_frames(names(&perm)).unwrap();
        let keys: Vec<u64> = refs.iter().map(|f| f.key).collect();
        assert_eq!(keys, vec![1, 2, 10]);
    }
}

#[test]
fn non_numeric_name_fails_enumeration() {
    let err = enumerate_frames(names(&["1.png", "x.png", "2.png"])).unwrap_err();
    match err {
        TraceError::BadFrameName(n) => assert_eq!(n, "x.png"),
        other => panic!("expected a bad-name error, got {other:?}"),
    }
}

#[test]
fn one_file_fails_with_sequencing_error() {
    let err = enumerate_frames(names(&["1.png"])).unwrap_err();
    assert!(matches!(err, TraceError::TooFewFrames));
}

#[test]
fn zero_files_fail_with_sequencing_error() {
    let err = enumerate_frames(Vec::new()).unwrap_err();
    assert!(matches!(err, TraceError::TooFewFrames));
}

#[test]
fn frame_key_parses_stem_as_unsigned_integer() {
    assert_eq!(frame_key("7.png"), Some(7));
    assert_eq!(frame_key("007.png"), Some(7));
    assert_eq!(frame_key("42"), Some(42), "a name without an extension is its own base");
    assert_eq!(frame_key("3.tar.png"), None, "the base 3.tar is not numeric");
    assert_eq!(frame_key("18446744073709551615.png"), Some(u64::MAX));
}

#[test]
fn zero_is_a_valid_order_key() {
    assert_eq!(frame_key("0.png"), Some(0));
    let refs = enumerate_frames(names(&["1.png", "0.png"])).unwrap();
    let keys: Vec<u64> = refs.iter().map(|f| f.key).collect();
    assert_eq!(keys, vec![0, 1]);
}

#[test]
fn frame_key_rejects_malformed_names() {
    assert_eq!(frame_key(""), None);
    assert_eq!(frame_key(".png"), None, "a leading dot is part of the base name");
    assert_eq!(frame_key("x.png"), None);
    assert_eq!(frame_key("-1.png"), None);
    assert_eq!(frame_key("1 .png"), None);
    assert_eq!(frame_key("18446744073709551616.png"), None, "one past the largest key overflows");
    assert_eq!(frame_key("99999999999999999999999.png"), None);
}
