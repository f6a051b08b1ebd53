use to_wchar::from_wide;
use to_wchar::to_wide;
use to_wchar::FromWchar;
use to_wchar::ToWchar;

#[test]
fn test_to_wchar() {
    assert_eq!(
        "HELLO".to_wchar(),
        vec![0x0048, 0x0045, 0x004C, 0x004C, 0x004F, 0x0000]
    );
}

#[test]
fn test_from_wchar() {
    let a: Vec<u16> = vec![0x0048, 0x0045, 0x004C, 0x004C, 0x004F, 0x0000];
    assert_eq!(String::from_wchar(&a).unwrap(), "HELLO")
}

#[test]
fn round_trip_ascii() {
    assert_eq!(from_wide(&to_wide("HELLO")), Ok(String::from("HELLO")));
}

#[test]
fn terminator_appended() {
    let wide = to_wide("ab");
    assert_eq!(wide, vec![0x0061, 0x0062, 0x0000]);
    assert_eq!(wide.len(), 3);
    assert_eq!(*wide.last().unwrap(), 0);
}

#[test]
fn empty_text_encodes_to_lone_terminator() {
    assert_eq!(to_wide(""), vec![0x0000]);
}

#[test]
fn lone_terminator_decodes_to_empty_text() {
    assert_eq!(from_wide(&[0x0000]), Ok(String::new()));
}

#[test]
fn surrogate_pair_encoded() {
    assert_eq!(to_wide("\u{1F600}"), vec![0xD83D, 0xDE00, 0x0000]);
}

#[test]
fn surrogate_pair_decoded() {
    assert_eq!(
        from_wide(&[0xD83D, 0xDE00, 0x0000]),
        Ok(String::from("\u{1F600}"))
    );
}

#[test]
fn lone_high_surrogate_rejected() {
    let r = from_wide(&[0xD800]);
    assert!(r.is_err());
    assert_eq!(r.unwrap_err().units(), &vec![0xD800]);
}

#[test]
fn lone_low_surrogate_rejected() {
    assert!(from_wide(&[0xDC00]).is_err());
}

#[test]
fn high_surrogate_without_low_rejected() {
    let r = from_wide(&[0xD800, 0x0041]);
    assert!(r.is_err());
    assert_eq!(r.unwrap_err().units(), &vec![0xD800, 0x0041]);
}

#[test]
fn multiple_trailing_nulls_stripped() {
    assert_eq!(from_wide(&[0x0048, 0x0000, 0x0000]), Ok(String::from("H")));
}

#[test]
fn embedded_null_kept() {
    assert_eq!(
        from_wide(&[0x0048, 0x0000, 0x0049]),
        Ok(String::from("H\u{0}I"))
    );
}

#[test]
fn decoding_twice_gives_same_text() {
    let buf: Vec<u16> = vec![0x0048, 0x0049, 0x0000];
    let first = from_wide(&buf);
    let second = from_wide(&buf);
    assert_eq!(first, second);
    assert_eq!(first, Ok(String::from("HI")));
}

#[test]
fn buffer_without_terminator_accepted() {
    assert_eq!(from_wide(&[0x0048, 0x0049]), Ok(String::from("HI")));
}

#[test]
fn text_with_trailing_null_loses_it_on_round_trip() {
    let wide = to_wide("A\u{0}");
    assert_eq!(wide, vec![0x0041, 0x0000, 0x0000]);
    assert_eq!(from_wide(&wide), Ok(String::from("A")));
}

#[test]
fn round_trip_bmp_non_ascii() {
    assert_eq!(to_wide("\u{65E5}"), vec![0x65E5, 0x0000]);
    assert_eq!(from_wide(&to_wide("caf\u{E9}")), Ok(String::from("caf\u{E9}")));
}

#[test]
fn trait_forms_agree_with_free_functions() {
    let s = "mixed \u{1F600} text";
    assert_eq!(s.to_wchar(), to_wide(s));
    let wide = to_wide(s);
    assert_eq!(String::from_wchar(&wide), from_wide(&wide));
}
