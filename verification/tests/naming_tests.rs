use huecycle::naming::frame_name;
use huecycle::naming::push_decimal;

#[test]
fn frame_names_follow_the_pattern() {
    let dir = b"out".to_vec();
    let base = b"cat".to_vec();
    let ext = b"png".to_vec();
    assert_eq!(frame_name(&dir, 7, &base, &ext), b"out/7_cat.png".to_vec());
    assert_eq!(frame_name(&dir, 0, &base, &ext), b"out/0_cat.png".to_vec());
    assert_eq!(frame_name(&dir, 359, &base, &ext), b"out/359_cat.png".to_vec());
}

#[test]
fn decimal_digits() {
    let mut v: Vec<u8> = Vec::new();
    push_decimal(&mut v, 0);
    assert_eq!(v, b"0".to_vec());
    let mut v: Vec<u8> = Vec::new();
    push_decimal(&mut v, 10);
    assert_eq!(v, b"10".to_vec());
    let mut v: Vec<u8> = Vec::new();
    push_decimal(&mut v, 4294967295);
    assert_eq!(v, b"4294967295".to_vec());
}
