use rocket_radio::blocks::{BlockBuffer, ChirpWindow, BUFFER_SIZE, OFFSET_SIZE};

#[test]
fn sizes_of_the_pipeline() {
    assert_eq!(BUFFER_SIZE, 32768);
    assert_eq!(OFFSET_SIZE, 64);
}

#[test]
fn blocks_come_out_when_full() {
    let mut b: BlockBuffer<u32> = BlockBuffer::new(4);
    assert_eq!(b.feed(&[1, 2, 3]), Vec::<Vec<u32>>::new());
    assert_eq!(b.len(), 3);
    assert_eq!(b.feed(&[4]), vec![vec![1, 2, 3, 4]]);
    assert_eq!(b.len(), 0);
    assert_eq!(b.feed(&[5, 6, 7, 8, 9, 10, 11, 12, 13]), vec![vec![5, 6, 7, 8], vec![9, 10, 11, 12]]);
    assert_eq!(b.len(), 1);
    assert_eq!(b.feed(&[]), Vec::<Vec<u32>>::new());
    assert_eq!(b.feed(&[14, 15, 16]), vec![vec![13, 14, 15, 16]]);
    assert_eq!(b.take_rest(), Vec::<u32>::new());
}

#[test]
fn rest_is_handed_back_once() {
    let mut b: BlockBuffer<u8> = BlockBuffer::new(10);
    let _ = b.feed(&[1, 2, 3]);
    assert_eq!(b.take_rest(), vec![1, 2, 3]);
    assert_eq!(b.len(), 0);
    assert_eq!(b.take_rest(), Vec::<u8>::new());
}

#[test]
fn blocks_of_one_sample() {
    let mut b: BlockBuffer<u8> = BlockBuffer::new(1);
    assert_eq!(b.feed(&[7, 8, 9]), vec![vec![7], vec![8], vec![9]]);
    assert_eq!(b.len(), 0);
}

#[test]
fn every_sample_comes_out_exactly_once_however_the_stream_is_cut() {
    let stream: Vec<u32> = (0..1000).collect();
    let mut whole: BlockBuffer<u32> = BlockBuffer::new(64);
    let expected = whole.feed(&stream);
    assert_eq!(expected.len(), 15);
    assert_eq!(expected.concat(), stream[..960].to_vec());
    let expected_rest = whole.take_rest();
    assert_eq!(expected_rest, stream[960..].to_vec());
    for step in [1usize, 7, 63, 64, 65, 200, 999] {
        let mut b: BlockBuffer<u32> = BlockBuffer::new(64);
        let mut out: Vec<Vec<u32>> = Vec::new();
        for part in stream.chunks(step) {
            out.extend(b.feed(part));
        }
        assert_eq!(out, expected);
        assert_eq!(b.take_rest(), expected_rest);
    }
}

#[test]
fn window_fills_up_to_one_chirp() {
    let mut w: ChirpWindow<u32> = ChirpWindow::new(5);
    assert!(!w.is_full());
    assert_eq!(w.fill(&[1, 2, 3]), 3);
    assert!(!w.is_full());
    assert_eq!(w.fill(&[4, 5, 6, 7]), 2);
    assert!(w.is_full());
    assert_eq!(w.samples(), &vec![1, 2, 3, 4, 5]);
    assert_eq!(w.fill(&[8, 9]), 0);
    assert_eq!(w.fill(&[]), 0);
    assert_eq!(w.samples(), &vec![1, 2, 3, 4, 5]);
}

#[test]
fn window_keeps_its_tail_when_it_moves_on() {
    let mut w: ChirpWindow<u32> = ChirpWindow::new(4);
    assert_eq!(w.fill(&[1, 2, 3, 4]), 4);
    w.advance(1);
    assert_eq!(w.samples(), &vec![2, 3, 4]);
    assert_eq!(w.fill(&[5, 6]), 1);
    assert_eq!(w.samples(), &vec![2, 3, 4, 5]);
    w.advance(4);
    assert!(w.samples().is_empty());
    assert_eq!(w.fill(&[6, 7, 8, 9]), 4);
    w.advance(0);
    assert_eq!(w.samples(), &vec![6, 7, 8, 9]);
    assert!(w.is_full());
}

#[test]
fn window_for_no_samples_is_always_full() {
    let mut w: ChirpWindow<u8> = ChirpWindow::new(0);
    assert!(w.is_full());
    assert_eq!(w.fill(&[1, 2]), 0);
}
