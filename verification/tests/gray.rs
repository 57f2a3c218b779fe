use rocket_radio::gray::{from_gray, to_gray};

#[test]
fn gray_round_trip_on_every_byte() {
    for x in 0..=255u8 {
        assert_eq!(from_gray(to_gray(x)), x);
        assert_eq!(to_gray(from_gray(x)), x);
    }
}

#[test]
fn gray_codes_of_small_values() {
    assert_eq!(to_gray(0), 0);
    assert_eq!(to_gray(1), 1);
    assert_eq!(to_gray(2), 3);
    assert_eq!(to_gray(3), 2);
    assert_eq!(to_gray(4), 6);
    assert_eq!(to_gray(255), 128);
    assert_eq!(from_gray(128), 255);
}
