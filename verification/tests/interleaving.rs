use rocket_radio::bits::is_bit_set;
use rocket_radio::interleaving::{
    deinterleave, deinterleave_block, interleave, interleave_block, interleave_pos,
};

#[test]
fn positions_follow_the_diagonal() {
    assert_eq!(interleave_pos::<5>(0, 0), (0, 0));
    assert_eq!(interleave_pos::<5>(1, 7), (0, 1));
    assert_eq!(interleave_pos::<5>(4, 3), (7, 4));
    assert_eq!(interleave_pos::<6>(5, 2), (7, 5));
    assert_eq!(interleave_pos::<7>(6, 1), (7, 6));
    assert_eq!(interleave_pos::<7>(6, 2), (0, 6));
    assert_eq!(interleave_pos::<8>(3, 5), (0, 3));
    assert_eq!(interleave_pos::<8>(7, 7), (6, 7));
}

#[test]
fn positions_with_eight_bits_swap_bits_four_and_five() {
    assert_eq!(interleave_pos::<8>(4, 0), (4, 5));
    assert_eq!(interleave_pos::<8>(4, 7), (3, 5));
    assert_eq!(interleave_pos::<8>(5, 0), (5, 4));
    assert_eq!(interleave_pos::<8>(5, 3), (0, 4));
    assert_eq!(interleave_pos::<7>(4, 0), (4, 4));
    assert_eq!(interleave_pos::<7>(5, 0), (5, 5));
}

#[test]
fn bit_test_reads_single_bits() {
    assert!(is_bit_set(0b0000_0001, 0));
    assert!(!is_bit_set(0b0000_0001, 1));
    assert!(is_bit_set(0b1000_0000, 7));
    assert!(!is_bit_set(0b0111_1111, 7));
    assert!(is_bit_set(0x20, 5));
}

#[test]
fn interleave_block_of_given_codewords() {
    assert_eq!(interleave_block::<5>([11, 16, 21, 26, 31, 4, 9, 14]), [85, 204, 45, 59, 225]);
    assert_eq!(
        interleave_block::<6>([11, 48, 21, 58, 31, 4, 41, 14]),
        [85, 204, 45, 59, 225, 82]
    );
    assert_eq!(
        interleave_block::<7>([11, 48, 85, 122, 31, 68, 105, 14]),
        [85, 204, 45, 59, 225, 82, 177]
    );
    assert_eq!(
        interleave_block::<8>([11, 48, 85, 122, 159, 196, 233, 14]),
        [85, 204, 45, 59, 164, 240, 177, 224]
    );
}

#[test]
fn deinterleave_block_of_given_bytes() {
    assert_eq!(
        deinterleave_block::<7>([0x12, 0x34, 0x56, 0x78, 0x9a, 0xbc, 0xde]),
        [124, 105, 96, 22, 101, 82, 14, 120]
    );
    assert_eq!(
        deinterleave_block::<8>([0x12, 0x34, 0x56, 0x78, 0x9a, 0xbc, 0xde, 0xf0]),
        [124, 89, 80, 166, 213, 226, 142, 120]
    );
    assert_eq!(deinterleave_block::<5>([85, 204, 45, 59, 225]), [11, 16, 21, 26, 31, 4, 9, 14]);
}

#[test]
fn deinterleave_block_inverts_interleave_block() {
    for seed in 0..64u32 {
        let mut plain = [0u8; 8];
        for (i, p) in plain.iter_mut().enumerate() {
            *p = ((seed * 37 + i as u32 * 101 + 11) % 128) as u8;
        }
        assert_eq!(deinterleave_block::<7>(interleave_block::<7>(plain)), plain);
        let mut wide = plain;
        wide[3] |= 0x80;
        assert_eq!(deinterleave_block::<8>(interleave_block::<8>(wide)), wide);
        let mut narrow = plain;
        for p in narrow.iter_mut() {
            *p &= 0x1f;
        }
        assert_eq!(deinterleave_block::<5>(interleave_block::<5>(narrow)), narrow);
        for p in narrow.iter_mut() {
            *p |= 0x20;
        }
        assert_eq!(deinterleave_block::<6>(interleave_block::<6>(narrow)), narrow);
    }
}

#[test]
fn interleave_block_inverts_deinterleave_block() {
    for seed in 0..64u32 {
        let mut woven = [0u8; 7];
        for (i, w) in woven.iter_mut().enumerate() {
            *w = ((seed * 53 + i as u32 * 29 + 7) % 256) as u8;
        }
        assert_eq!(interleave_block::<7>(deinterleave_block::<7>(woven)), woven);
    }
}

#[test]
fn bits_above_the_codeword_are_dropped_by_interleaving() {
    let with_high_bits = [0xffu8; 8];
    let woven = interleave_block::<5>(with_high_bits);
    assert_eq!(woven, [0xff; 5]);
    assert_eq!(deinterleave_block::<5>(woven), [0x1f; 8]);
}

#[test]
fn deinterleave_takes_full_blocks_only() {
    let bytes: Vec<u8> = vec![0x12, 0x34, 0x56, 0x78, 0x9a, 0xbc, 0xde, 1, 2, 3];
    assert_eq!(deinterleave::<7>(&bytes), vec![124, 105, 96, 22, 101, 82, 14, 120]);
    assert_eq!(deinterleave::<7>(&bytes[..6]), Vec::<u8>::new());
    assert_eq!(deinterleave::<7>(&[]), Vec::<u8>::new());
    let long: Vec<u8> = (0..66u32).map(|i| (i * 3) as u8).collect();
    assert_eq!(deinterleave::<7>(&long).len(), 72);
}

#[test]
fn deinterleave_works_block_by_block() {
    let mut bytes: Vec<u8> = vec![0x12, 0x34, 0x56, 0x78, 0x9a, 0xbc, 0xde];
    bytes.extend_from_slice(&[85, 204, 45, 59, 225, 82, 177]);
    assert_eq!(
        deinterleave::<7>(&bytes),
        vec![124, 105, 96, 22, 101, 82, 14, 120, 11, 48, 85, 122, 31, 68, 105, 14]
    );
}

#[test]
fn interleave_takes_blocks_of_eight_codewords() {
    let plain: Vec<u8> = vec![11, 48, 85, 122, 31, 68, 105, 14, 1, 2, 3];
    assert_eq!(interleave::<7>(&plain), vec![85, 204, 45, 59, 225, 82, 177]);
    assert_eq!(interleave::<7>(&plain[..7]), Vec::<u8>::new());
}

#[test]
fn deinterleave_inverts_interleave_on_streams() {
    let plain: Vec<u8> = (0..40u32).map(|i| ((i * 19 + 5) % 128) as u8).collect();
    let woven = interleave::<7>(&plain);
    assert_eq!(woven.len(), 35);
    assert_eq!(deinterleave::<7>(&woven), plain);
}
