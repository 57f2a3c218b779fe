use rocket_radio::symbol::Symbol;
use rocket_radio::sync::{
    all_within, mod_distance, ChirpKind, LoraSyncStateMachine, SyncingMode, WindowShift,
    PAYLOAD_SYMBOLS,
};

fn sym(value: usize) -> Symbol {
    Symbol::new(value, 0, 0)
}

fn syms(values: &[usize]) -> Vec<Symbol> {
    values.iter().map(|v| sym(*v)).collect()
}

/// A machine that has just seen a run of seven equal up-chirps.
fn machine_at_look8() -> LoraSyncStateMachine {
    let mut m = LoraSyncStateMachine::new(8);
    for _ in 0..7 {
        let _ = m.next(sym(40));
    }
    assert_eq!(m.mode(), SyncingMode::Look8);
    m
}

/// A machine that has just seen the whole preamble.
fn machine_synced() -> LoraSyncStateMachine {
    let mut m = machine_at_look8();
    for v in [8usize, 16, 100, 101, 7] {
        let _ = m.next(sym(v));
    }
    assert_eq!(m.mode(), SyncingMode::Synced);
    m
}

#[test]
fn distance_on_the_ring() {
    assert_eq!(mod_distance(3, 5, 256), 2);
    assert_eq!(mod_distance(5, 3, 256), 2);
    assert_eq!(mod_distance(0, 255, 256), 1);
    assert_eq!(mod_distance(255, 0, 256), 1);
    assert_eq!(mod_distance(0, 128, 256), 128);
    assert_eq!(mod_distance(10, 10, 256), 0);
    assert_eq!(mod_distance(1, 200, 256), 57);
    assert_eq!(mod_distance(300, 2, 256), 42);
    assert_eq!(mod_distance(7, 0, 1), 0);
}

#[test]
fn symbols_within_a_range_of_a_common_value() {
    assert!(all_within(&[], 2, 256));
    assert!(all_within(&syms(&[10, 12, 14]), 2, 256));
    assert!(!all_within(&syms(&[10, 12, 15]), 2, 256));
    assert!(all_within(&syms(&[254, 0, 2]), 2, 256));
    assert!(all_within(&syms(&[255, 1]), 1, 256));
    assert!(!all_within(&syms(&[255, 2]), 1, 256));
    assert!(all_within(&syms(&[9, 9, 9, 9, 9, 9, 9]), 0, 256));
    assert!(!all_within(&syms(&[9]), 0, 0));
}

#[test]
fn machine_starts_looking_for_the_preamble() {
    let m = LoraSyncStateMachine::new(8);
    assert_eq!(m.mode(), SyncingMode::LookSync);
    assert_eq!(m.which_chirp(), ChirpKind::Up);
}

#[test]
fn preamble_is_found_with_the_seventh_agreeing_symbol() {
    let mut m = LoraSyncStateMachine::new(8);
    for i in 0..6 {
        let step = m.next(sym(40 + (i % 3)));
        assert!(matches!(step.shift, WindowShift::Stay));
        assert!(step.packet.is_none());
        assert_eq!(m.mode(), SyncingMode::LookSync);
    }
    let step = m.next(Symbol::new(41, 5, 6));
    assert_eq!(m.mode(), SyncingMode::Look8);
    match step.shift {
        WindowShift::ToSymbol(s) => {
            assert_eq!(s.value, 41);
            assert_eq!(s.snr_bits, 5);
            assert_eq!(s.adj_bits, 6);
        }
        _ => panic!("the window is to move to the symbol"),
    }
    assert!(step.packet.is_none());
}

#[test]
fn preamble_is_not_found_while_a_symbol_of_the_run_lies_apart() {
    let mut m = LoraSyncStateMachine::new(8);
    for v in [40usize, 40, 40, 90, 40, 40, 40, 40, 40] {
        let _ = m.next(sym(v));
        assert_eq!(m.mode(), SyncingMode::LookSync);
    }
    let _ = m.next(sym(40));
    assert_eq!(m.mode(), SyncingMode::LookSync);
    let _ = m.next(sym(40));
    assert_eq!(m.mode(), SyncingMode::Look8);
}

#[test]
fn preamble_run_may_wrap_round_the_ring() {
    let mut m = LoraSyncStateMachine::new(8);
    for v in [254usize, 255, 0, 1, 2, 0, 255] {
        let _ = m.next(sym(v));
    }
    assert_eq!(m.mode(), SyncingMode::Look8);
}

#[test]
fn look8_waits_on_zero_and_goes_on_with_eight() {
    let mut m = machine_at_look8();
    let _ = m.next(sym(0));
    assert_eq!(m.mode(), SyncingMode::Look8);
    let _ = m.next(sym(0));
    assert_eq!(m.mode(), SyncingMode::Look8);
    let _ = m.next(sym(8));
    assert_eq!(m.mode(), SyncingMode::Look16);
    assert_eq!(m.which_chirp(), ChirpKind::Up);
}

#[test]
fn look8_resets_on_anything_else() {
    let mut m = machine_at_look8();
    let step = m.next(sym(9));
    assert_eq!(m.mode(), SyncingMode::LookSync);
    assert!(step.packet.is_none());
    assert!(matches!(step.shift, WindowShift::Stay));
}

#[test]
fn look16_resets_on_anything_but_sixteen() {
    let mut m = machine_at_look8();
    let _ = m.next(sym(8));
    let step = m.next(sym(17));
    assert_eq!(m.mode(), SyncingMode::LookSync);
    assert!(step.packet.is_none());
}

#[test]
fn down_chirps_are_read_after_sixteen() {
    let mut m = machine_at_look8();
    let _ = m.next(sym(8));
    let _ = m.next(sym(16));
    assert_eq!(m.mode(), SyncingMode::LookDown0);
    assert_eq!(m.which_chirp(), ChirpKind::Down);
    let _ = m.next(sym(100));
    assert_eq!(m.mode(), SyncingMode::LookDown1);
    assert_eq!(m.which_chirp(), ChirpKind::Down);
    let step = m.next(sym(101));
    assert_eq!(m.mode(), SyncingMode::LookDownQuarter);
    assert_eq!(m.which_chirp(), ChirpKind::Down);
    assert!(matches!(step.shift, WindowShift::ThreeQuarters));
    let step = m.next(sym(3));
    assert_eq!(m.mode(), SyncingMode::Synced);
    assert_eq!(m.which_chirp(), ChirpKind::Up);
    assert!(matches!(step.shift, WindowShift::Stay));
}

#[test]
fn down_chirps_may_agree_across_the_end_of_the_ring() {
    let mut m = machine_at_look8();
    for v in [8usize, 16, 255] {
        let _ = m.next(sym(v));
    }
    let _ = m.next(sym(0));
    assert_eq!(m.mode(), SyncingMode::LookDownQuarter);
}

#[test]
fn corrupted_down_chirp_pair_resets_without_a_packet() {
    let mut m = machine_at_look8();
    let mut emitted = 0;
    for v in [8usize, 16, 100, 102] {
        let step = m.next(sym(v));
        if step.packet.is_some() {
            emitted += 1;
        }
    }
    assert_eq!(m.mode(), SyncingMode::LookSync);
    assert_eq!(emitted, 0);
    assert_eq!(m.which_chirp(), ChirpKind::Up);
}

#[test]
fn a_stale_down_chirp_is_not_compared() {
    let mut m = machine_at_look8();
    for v in [8usize, 16, 100, 150] {
        let _ = m.next(sym(v));
    }
    assert_eq!(m.mode(), SyncingMode::LookSync);
    for _ in 0..7 {
        let _ = m.next(sym(60));
    }
    for v in [8usize, 16, 30] {
        let _ = m.next(sym(v));
    }
    assert_eq!(m.mode(), SyncingMode::LookDown1);
    let _ = m.next(sym(150));
    assert_eq!(m.mode(), SyncingMode::LookSync);
}

#[test]
fn payload_is_handed_out_with_its_last_symbol() {
    let mut m = machine_synced();
    for i in 0..(PAYLOAD_SYMBOLS - 1) {
        let step = m.next(Symbol::new(i, i as u32, 1));
        assert!(step.packet.is_none());
        assert_eq!(m.mode(), SyncingMode::Synced);
    }
    let step = m.next(Symbol::new(999, 0, 0));
    assert_eq!(m.mode(), SyncingMode::LookSync);
    let packet = step.packet.expect("the payload is complete");
    assert_eq!(packet.symbols.len(), 74);
    let values = packet.values();
    for i in 0..73 {
        assert_eq!(values[i], i);
        assert_eq!(packet.symbols[i].snr_bits, i as u32);
    }
    assert_eq!(values[73], 999);
}

#[test]
fn second_payload_does_not_hold_symbols_of_the_first() {
    let mut m = machine_synced();
    for _ in 0..PAYLOAD_SYMBOLS {
        let _ = m.next(sym(5));
    }
    assert_eq!(m.mode(), SyncingMode::LookSync);
    let _ = m.next(sym(5));
    assert_eq!(m.mode(), SyncingMode::Look8);
    for v in [8usize, 16, 1, 1, 1] {
        let _ = m.next(sym(v));
    }
    assert_eq!(m.mode(), SyncingMode::Synced);
    let mut last = None;
    for i in 0..PAYLOAD_SYMBOLS {
        last = m.next(sym(200 + (i % 2))).packet;
    }
    let values = last.expect("the second payload is complete").values();
    assert_eq!(values.len(), 74);
    assert!(values.iter().all(|v| *v >= 200));
}

#[test]
fn whole_shifts_in_samples() {
    assert_eq!(WindowShift::Stay.samples(20480), Some(20480));
    assert_eq!(WindowShift::ThreeQuarters.samples(20480), Some(5120));
    assert_eq!(WindowShift::ThreeQuarters.samples(7), Some(1));
    assert_eq!(WindowShift::ToSymbol(sym(3)).samples(20480), None);
}

#[test]
fn machine_counts_the_values_of_its_spreading_factor() {
    let mut small = LoraSyncStateMachine::new(2);
    for v in [3usize, 0, 1, 3, 0, 1, 3] {
        let _ = small.next(sym(v));
    }
    assert_eq!(small.mode(), SyncingMode::Look8);
    let mut large = LoraSyncStateMachine::new(8);
    for v in [3usize, 0, 1, 3, 0, 1, 7] {
        let _ = large.next(sym(v));
    }
    assert_eq!(large.mode(), SyncingMode::LookSync);
}

#[test]
fn same_symbols_give_the_same_steps() {
    let stream: Vec<usize> = (0..400).map(|i| (i * 37 + i / 7) % 20).collect();
    let mut a = LoraSyncStateMachine::new(8);
    let mut b = LoraSyncStateMachine::new(8);
    for v in stream {
        let sa = a.next(sym(v));
        let sb = b.next(sym(v));
        assert_eq!(a.mode(), b.mode());
        assert_eq!(sa.packet.map(|p| p.values()), sb.packet.map(|p| p.values()));
    }
}
