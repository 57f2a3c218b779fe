use rocket_radio::hackrf::{
    adjusted_gain, bandwidth_params, check_api_version, check_gain_reply, check_transfer,
    freq_params, gain_index, iq_pairs, lna_gain_index, peak_reading, sample_rate_params,
    txvga_gain_index, vga_gain_index, Direction, Error, Request, TranscieverMode, Version,
};

#[test]
fn version_from_descriptor_field() {
    assert_eq!(Version::from_bcd(0x0104), Version(1, 0, 4));
    assert_eq!(Version::from_bcd(0x0103), Version(1, 0, 3));
    assert_eq!(Version::from_bcd(0xffff), Version(255, 15, 15));
    assert_eq!(Version::from_bcd(0x1234), Version(0x12, 3, 4));
    assert_eq!(Version::from(0x0102u16), Version(1, 0, 2));
    let v: Version = 0x2021u16.into();
    assert_eq!(v.major(), 0x20);
    assert_eq!(v.minor(), 2);
    assert_eq!(v.sub_minor(), 1);
}

#[test]
fn versions_are_ordered_major_first() {
    assert_eq!(Version(1, 0, 4).as_u32(), 0x010004);
    assert_eq!(Version(255, 255, 255).as_u32(), 0xffffff);
    assert!(check_api_version(Version(1, 0, 4), Version(1, 0, 3)).is_ok());
    assert!(check_api_version(Version(1, 0, 3), Version(1, 0, 3)).is_ok());
    assert!(check_api_version(Version(2, 0, 0), Version(1, 9, 9)).is_ok());
    assert_eq!(
        check_api_version(Version(1, 0, 2), Version(1, 0, 3)),
        Err(Error::Version { device: Version(1, 0, 2), min: Version(1, 0, 3) })
    );
    assert_eq!(
        check_api_version(Version(0, 15, 15), Version(1, 0, 0)),
        Err(Error::Version { device: Version(0, 15, 15), min: Version(1, 0, 0) })
    );
}

#[test]
fn short_transfers_are_errors() {
    assert!(check_transfer(Direction::In, 8, 8).is_ok());
    assert!(check_transfer(Direction::Out, 0, 0).is_ok());
    assert_eq!(
        check_transfer(Direction::In, 7, 8),
        Err(Error::CtrlTransfer { dir: Direction::In, actual: 7, expected: 8 })
    );
    assert_eq!(
        check_transfer(Direction::Out, 9, 8),
        Err(Error::CtrlTransfer { dir: Direction::Out, actual: 9, expected: 8 })
    );
}

#[test]
fn gain_reply_of_zero_is_a_refusal() {
    assert_eq!(check_gain_reply(0), Err(Error::Argument));
    assert!(check_gain_reply(1).is_ok());
    assert!(check_gain_reply(255).is_ok());
}

#[test]
fn lna_gain_in_steps_of_eight() {
    assert_eq!(lna_gain_index(0), Ok(0));
    assert_eq!(lna_gain_index(7), Ok(0));
    assert_eq!(lna_gain_index(8), Ok(8));
    assert_eq!(lna_gain_index(16), Ok(16));
    assert_eq!(lna_gain_index(39), Ok(32));
    assert_eq!(lna_gain_index(40), Ok(40));
    assert_eq!(lna_gain_index(41), Err(Error::Argument));
    assert_eq!(lna_gain_index(u16::MAX), Err(Error::Argument));
}

#[test]
fn vga_gain_in_steps_of_two() {
    assert_eq!(vga_gain_index(0), Ok(0));
    assert_eq!(vga_gain_index(1), Ok(0));
    assert_eq!(vga_gain_index(17), Ok(16));
    assert_eq!(vga_gain_index(62), Ok(62));
    assert_eq!(vga_gain_index(63), Err(Error::Argument));
}

#[test]
fn txvga_gain_up_to_forty_seven() {
    assert_eq!(txvga_gain_index(0), Ok(0));
    assert_eq!(txvga_gain_index(33), Ok(33));
    assert_eq!(txvga_gain_index(47), Ok(47));
    assert_eq!(txvga_gain_index(48), Err(Error::Argument));
}

#[test]
fn frequency_is_sent_as_megahertz_and_hertz() {
    assert_eq!(freq_params(915_000_000), [0x93, 0x03, 0, 0, 0, 0, 0, 0]);
    assert_eq!(freq_params(915_000_001), [0x93, 0x03, 0, 0, 1, 0, 0, 0]);
    assert_eq!(freq_params(434_550_000), [0xb2, 0x01, 0, 0, 0x70, 0x64, 0x08, 0x00]);
    assert_eq!(freq_params(0), [0; 8]);
    assert_eq!(freq_params(999_999), [0, 0, 0, 0, 0x3f, 0x42, 0x0f, 0x00]);
}

#[test]
fn frequency_that_does_not_fit_is_clamped() {
    assert_eq!(freq_params(u64::MAX), [0xff; 8]);
    assert_eq!(
        freq_params(4_294_967_295_000_000 + 5),
        [0xff, 0xff, 0xff, 0xff, 5, 0, 0, 0]
    );
    assert_eq!(
        freq_params(4_294_967_296_000_000),
        [0xff, 0xff, 0xff, 0xff, 0x40, 0x42, 0x0f, 0x00]
    );
}

#[test]
fn sample_rate_is_sent_as_two_words() {
    assert_eq!(sample_rate_params(20_000_000, 2), [0x00, 0x2d, 0x31, 0x01, 2, 0, 0, 0]);
    assert_eq!(
        sample_rate_params(0x0102_0304, 0xa0b0_c0d0),
        [4, 3, 2, 1, 0xd0, 0xc0, 0xb0, 0xa0]
    );
}

#[test]
fn bandwidth_is_split_in_halves() {
    assert_eq!(bandwidth_params(7_500_000), (0x70e0, 0x0072));
    assert_eq!(bandwidth_params(0xffff_ffff), (0xffff, 0xffff));
    assert_eq!(bandwidth_params(65536), (0, 1));
    assert_eq!(bandwidth_params(65535), (65535, 0));
}

#[test]
fn gain_settings() {
    assert_eq!(gain_index(-1), (0, 0));
    assert_eq!(gain_index(i16::MIN), (0, 0));
    assert_eq!(gain_index(0), (0, 0));
    assert_eq!(gain_index(3), (24, 0));
    assert_eq!(gain_index(5), (40, 0));
    assert_eq!(gain_index(6), (40, 2));
    assert_eq!(gain_index(36), (40, 62));
    assert_eq!(gain_index(37), (40, 62));
    assert_eq!(gain_index(i16::MAX), (40, 62));
}

#[test]
fn gain_follows_the_strongest_reading() {
    assert_eq!(adjusted_gain(6, 39), Some(7));
    assert_eq!(adjusted_gain(6, 40), None);
    assert_eq!(adjusted_gain(6, 90), None);
    assert_eq!(adjusted_gain(6, 91), Some(5));
    assert_eq!(adjusted_gain(36, 0), Some(36));
    assert_eq!(adjusted_gain(35, -128), Some(36));
    assert_eq!(adjusted_gain(0, 127), Some(0));
    assert_eq!(adjusted_gain(1, 127), Some(0));
    assert_eq!(adjusted_gain(i16::MAX, 0), Some(36));
    assert_eq!(adjusted_gain(i16::MIN, 127), Some(0));
}

#[test]
fn strongest_reading_of_a_buffer() {
    assert_eq!(peak_reading(0, &[]), 0);
    assert_eq!(peak_reading(0, &[1, 2, 3, 4]), 4);
    assert_eq!(peak_reading(10, &[1, 2, 3, 4]), 10);
    assert_eq!(peak_reading(0, &[0x7f, 0x80]), 127);
    assert_eq!(peak_reading(-128, &[0x80, 0xff]), -1);
    assert_eq!(peak_reading(-128, &[0x80, 0x81, 0x82]), -127);
    assert_eq!(peak_reading(0, &[5, 6, 100]), 6);
}

#[test]
fn bytes_are_read_as_signed_pairs() {
    assert_eq!(iq_pairs(&[0, 1, 0x7f, 0x80, 0xff, 0xfe]), vec![(0, 1), (127, -128), (-1, -2)]);
    assert_eq!(iq_pairs(&[1, 2, 3]), vec![(1, 2)]);
    assert_eq!(iq_pairs(&[]), Vec::<(i8, i8)>::new());
}

#[test]
fn request_codes() {
    assert_eq!(Request::SetTransceiverMode.code(), 1);
    assert_eq!(Request::SampleRateSet.code(), 6);
    assert_eq!(Request::BasebandFilterBandwidthSet.code(), 7);
    assert_eq!(Request::SpiflashRead.code(), 12);
    assert_eq!(Request::BoardIdRead.code(), 14);
    assert_eq!(Request::VersionStringRead.code(), 15);
    assert_eq!(Request::SetFreq.code(), 16);
    assert_eq!(Request::AmpEnable.code(), 17);
    assert_eq!(Request::SetLnaGain.code(), 19);
    assert_eq!(Request::SetVgaGain.code(), 20);
    assert_eq!(Request::SetTxvgaGain.code(), 21);
    assert_eq!(Request::AntennaEnable.code(), 23);
    assert_eq!(Request::Reset.code(), 30);
    assert_eq!(Request::ClkoutEnable.code(), 32);
    assert_eq!(Request::UiEnable.code(), 37);
}

#[test]
fn transceiver_mode_codes() {
    assert_eq!(TranscieverMode::Off.code(), 0);
    assert_eq!(TranscieverMode::Receive.code(), 1);
    assert_eq!(TranscieverMode::Transmit.code(), 2);
    assert_eq!(TranscieverMode::Ss.code(), 3);
    assert_eq!(TranscieverMode::CpldUpdate.code(), 4);
    assert_eq!(TranscieverMode::RxSweep.code(), 5);
}
