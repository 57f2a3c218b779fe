use rocket_radio::discriminator::{polar_discriminate, BufferTooSmall};

/// A stand-in for the product with the conjugate that shows who met whom.
fn meet(earlier: i64, now: i64) -> i64 {
    earlier * 1000 + now
}

fn conj_mul(a: (f32, f32), b: (f32, f32)) -> (f32, f32) {
    (a.0 * b.0 + a.1 * b.1, a.1 * b.0 - a.0 * b.1)
}

#[test]
fn each_sample_meets_the_one_offset_places_before() {
    let mut x: Vec<i64> = vec![10, 11, 12, 13, 14, 15];
    let mut prev: Vec<i64> = vec![1, 2];
    assert_eq!(polar_discriminate(&mut x, &mut prev, meet), Ok(()));
    assert_eq!(x, vec![1010, 2011, 10012, 11013, 12014, 13015]);
    assert_eq!(prev, vec![14, 15]);
}

#[test]
fn carry_is_the_tail_of_the_block_before_it_was_changed() {
    let mut x: Vec<i64> = vec![7, 8, 9];
    let mut prev: Vec<i64> = vec![0, 0, 0];
    assert_eq!(polar_discriminate(&mut x, &mut prev, meet), Ok(()));
    assert_eq!(x, vec![7, 8, 9]);
    assert_eq!(prev, vec![7, 8, 9]);
    let mut y: Vec<i64> = vec![1, 2, 3, 4];
    assert_eq!(polar_discriminate(&mut y, &mut prev, meet), Ok(()));
    assert_eq!(y, vec![7001, 8002, 9003, 1004]);
    assert_eq!(prev, vec![2, 3, 4]);
}

#[test]
fn block_shorter_than_the_look_back_is_refused() {
    let mut x: Vec<i64> = vec![1, 2];
    let mut prev: Vec<i64> = vec![5, 6, 7];
    assert_eq!(polar_discriminate(&mut x, &mut prev, meet), Err(BufferTooSmall));
    assert_eq!(x, vec![1, 2]);
    assert_eq!(prev, vec![5, 6, 7]);
    let mut empty: Vec<i64> = Vec::new();
    assert_eq!(polar_discriminate(&mut empty, &mut prev, meet), Err(BufferTooSmall));
}

#[test]
fn without_look_back_each_sample_meets_itself() {
    let mut x: Vec<i64> = vec![3, 4];
    let mut prev: Vec<i64> = Vec::new();
    assert_eq!(polar_discriminate(&mut x, &mut prev, meet), Ok(()));
    assert_eq!(x, vec![3003, 4004]);
    assert!(prev.is_empty());
}

#[test]
fn split_blocks_give_what_one_block_gives() {
    let stream: Vec<i64> = (0..200).map(|i| (i * i) % 97).collect();
    let offset = 8;
    let mut whole = stream.clone();
    let mut carry: Vec<i64> = vec![0; offset];
    assert!(polar_discriminate(&mut whole, &mut carry, meet).is_ok());
    for cut in [8usize, 9, 50, 100, 191, 192] {
        let mut first = stream[..cut].to_vec();
        let mut second = stream[cut..].to_vec();
        let mut prev: Vec<i64> = vec![0; offset];
        assert!(polar_discriminate(&mut first, &mut prev, meet).is_ok());
        assert!(polar_discriminate(&mut second, &mut prev, meet).is_ok());
        first.extend(second);
        assert_eq!(first, whole);
        assert_eq!(prev, carry);
    }
}

#[test]
fn split_blocks_of_complex_samples_give_what_one_block_gives() {
    let stream: Vec<(f32, f32)> =
        (0..300).map(|i| ((i as f32 * 0.37).cos(), (i as f32 * 0.37).sin())).collect();
    let offset = 64;
    let mut whole = stream.clone();
    let mut carry = vec![(0.0f32, 0.0f32); offset];
    assert!(polar_discriminate(&mut whole, &mut carry, conj_mul).is_ok());
    let mut first = stream[..130].to_vec();
    let mut second = stream[130..].to_vec();
    let mut prev = vec![(0.0f32, 0.0f32); offset];
    assert!(polar_discriminate(&mut first, &mut prev, conj_mul).is_ok());
    assert!(polar_discriminate(&mut second, &mut prev, conj_mul).is_ok());
    first.extend(second);
    assert_eq!(first, whole);
    assert_eq!(prev, carry);
}

#[test]
fn sign_of_the_imaginary_part_follows_the_frequency() {
    let offset = 4;
    let rising: Vec<(f32, f32)> =
        (0..40).map(|i| ((i as f32 * 0.2).cos(), (i as f32 * 0.2).sin())).collect();
    let mut x = rising.clone();
    let mut prev = rising[..offset].to_vec();
    assert!(polar_discriminate(&mut x, &mut prev, conj_mul).is_ok());
    for s in &x[offset..] {
        assert!(s.1 < 0.0);
    }
    let falling: Vec<(f32, f32)> =
        (0..40).map(|i| ((i as f32 * 0.2).cos(), -(i as f32 * 0.2).sin())).collect();
    let mut y = falling.clone();
    let mut prev = falling[..offset].to_vec();
    assert!(polar_discriminate(&mut y, &mut prev, conj_mul).is_ok());
    for s in &y[offset..] {
        assert!(s.1 > 0.0);
    }
}
