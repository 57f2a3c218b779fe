use rocket_radio::ring_sync::{ConfigError, RingFrameSync, TOTAL_PACKET_BITS};
use rocket_radio::streaming_fec_decoder::{MESSAGE_LEN, SYNC_BITS, SYNC_PATTERN};

/// Positions for `per_bit` samples per bit: the first sample of each bit.
fn positions(per_bit: usize) -> Vec<usize> {
    (0..TOTAL_PACKET_BITS).map(|i| i * per_bit).collect()
}

fn search(per_bit: usize) -> RingFrameSync {
    match RingFrameSync::new(per_bit, positions(per_bit), TOTAL_PACKET_BITS * per_bit) {
        Ok(s) => s,
        Err(_) => panic!("the set-up is in order"),
    }
}

fn message_bits() -> Vec<bool> {
    (0..MESSAGE_LEN).map(|i| (i * 7 + i / 5) % 3 == 0).collect()
}

/// The signs of a frame: the sync pattern inverted, then the message.
fn frame_signs(per_bit: usize) -> Vec<i8> {
    let mut signs = Vec::new();
    for b in SYNC_PATTERN {
        for _ in 0..per_bit {
            signs.push(if b != 0 { -1 } else { 1 });
        }
    }
    for b in message_bits() {
        for _ in 0..per_bit {
            signs.push(if b { 1 } else { -1 });
        }
    }
    signs
}

fn fault_of(made: Result<RingFrameSync, ConfigError>) -> Option<ConfigError> {
    match made {
        Ok(_) => None,
        Err(e) => Some(e),
    }
}

#[test]
fn frame_has_sync_and_message_bits() {
    assert_eq!(TOTAL_PACKET_BITS, 610);
    assert_eq!(SYNC_BITS + MESSAGE_LEN, TOTAL_PACKET_BITS);
}

#[test]
fn set_up_faults_are_told_apart() {
    assert_eq!(fault_of(RingFrameSync::new(0, positions(1), 610)), Some(ConfigError::NoSamples));
    assert_eq!(
        fault_of(RingFrameSync::new(2_000_000, positions(1), 610)),
        Some(ConfigError::FrameTooLong)
    );
    assert_eq!(
        fault_of(RingFrameSync::new(2, vec![0; 609], 1220)),
        Some(ConfigError::WrongPositionCount)
    );
    assert_eq!(
        fault_of(RingFrameSync::new(2, positions(2), 1218)),
        Some(ConfigError::PositionOutOfFrame)
    );
    assert_eq!(
        fault_of(RingFrameSync::new(2, positions(2), 1221)),
        Some(ConfigError::RingTooSmall)
    );
    assert_eq!(fault_of(RingFrameSync::new(2, positions(2), 1220)), None);
    assert_eq!(fault_of(RingFrameSync::new(2, positions(2), 1219)), None);
}

#[test]
fn first_fault_in_order_is_reported() {
    assert_eq!(fault_of(RingFrameSync::new(0, vec![], 0)), Some(ConfigError::NoSamples));
    assert_eq!(
        fault_of(RingFrameSync::new(1, vec![5], 0)),
        Some(ConfigError::WrongPositionCount)
    );
}

#[test]
fn ring_grows_up_to_its_limit() {
    let mut s = search(1);
    assert_eq!(s.len(), 0);
    for i in 0..700 {
        let _ = s.push(1);
        assert_eq!(s.len(), if i < 610 { i + 1 } else { 610 });
    }
    s.clear();
    assert_eq!(s.len(), 0);
    let _ = s.push(-1);
    assert_eq!(s.len(), 1);
}

#[test]
fn frame_is_found_with_its_last_sample() {
    let mut s = search(2);
    let signs = frame_signs(2);
    let last = signs.len() - 1;
    for (i, sign) in signs.into_iter().enumerate() {
        let found = s.push(sign);
        if i < last {
            assert!(found.is_none());
        } else {
            let message = found.expect("the frame is complete");
            let expected: Vec<u8> =
                message_bits().iter().map(|b| if *b { 0xff } else { 0x00 }).collect();
            assert_eq!(message.to_vec(), expected);
        }
    }
}

#[test]
fn frame_is_found_behind_older_samples() {
    let mut s = search(3);
    for i in 0..777 {
        assert!(s.push(if i % 2 == 0 { 1 } else { 0 }).is_none());
    }
    let signs = frame_signs(3);
    let mut found = 0;
    for sign in signs {
        if s.push(sign).is_some() {
            found += 1;
        }
    }
    assert_eq!(found, 1);
}

#[test]
fn oldest_sample_leaves_a_full_ring() {
    let mut s = search(1);
    for sign in frame_signs(1) {
        let _ = s.push(sign);
    }
    assert!(s.check_ring().is_some());
    assert!(s.push(1).is_none());
    assert_eq!(s.len(), 610);
    assert!(s.check_ring().is_none());
}

#[test]
fn cleared_ring_does_not_find_the_frame_again() {
    let mut s = search(1);
    let mut found = 0;
    for sign in frame_signs(1) {
        if s.push(sign).is_some() {
            found += 1;
            s.clear();
        }
    }
    assert_eq!(found, 1);
    assert!(s.check_ring().is_none());
    for _ in 0..609 {
        assert!(s.push(1).is_none());
    }
}

#[test]
fn zero_average_is_neither_sync_one_nor_message_one() {
    let mut s = search(1);
    let mut signs = frame_signs(1);
    signs[SYNC_BITS + 3] = 0;
    let expected_bit = 0x00;
    let mut message = None;
    for sign in signs {
        message = s.push(sign);
    }
    assert_eq!(message.expect("the frame is complete")[3], expected_bit);

    let mut s = search(1);
    let mut signs = frame_signs(1);
    signs[0] = 0;
    let mut any = false;
    for sign in signs {
        any |= s.push(sign).is_some();
    }
    assert!(!any);
}

#[test]
fn wrong_sync_sign_hides_the_frame() {
    let mut s = search(2);
    let mut signs = frame_signs(2);
    signs[2 * 19] = -signs[2 * 19];
    for sign in signs {
        assert!(s.push(sign).is_none());
    }
}

#[test]
fn only_the_sample_positions_are_read() {
    let mut s = search(2);
    let mut signs = frame_signs(2);
    for i in 0..TOTAL_PACKET_BITS {
        signs[2 * i + 1] = 0;
    }
    let mut message = None;
    for sign in signs {
        message = s.push(sign);
    }
    assert!(message.is_some());
}

#[test]
fn same_signs_give_the_same_messages() {
    let mut a = search(2);
    let mut b = search(2);
    for sign in frame_signs(2) {
        let ma = a.push(sign).map(|m| m.to_vec());
        let mb = b.push(sign).map(|m| m.to_vec());
        assert_eq!(ma, mb);
    }
}
