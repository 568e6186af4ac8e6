use kumokiri::text::{copy_to_fixed_wide, to_wide};

#[test]
fn to_wide_appends_nul() {
    assert_eq!(to_wide("Ab"), vec![0x41, 0x62, 0]);
    assert_eq!(to_wide(""), vec![0]);
    assert_eq!(to_wide("截图"), vec![0x622A, 0x56FE, 0]);
    assert_eq!(to_wide("😀"), vec![0xD83D, 0xDE00, 0]);
}

#[test]
fn fixed_wide_copy_truncates_and_terminates() {
    let mut buf = [7u16; 4];
    copy_to_fixed_wide(&mut buf, "Kumokiri");
    assert_eq!(buf, [0x4B, 0x75, 0x6D, 0]);
    let mut buf = [7u16; 6];
    copy_to_fixed_wide(&mut buf, "ab");
    assert_eq!(buf, [0x61, 0x62, 0, 7, 7, 0]);
    let mut empty: [u16; 0] = [];
    copy_to_fixed_wide(&mut empty, "x");
}
