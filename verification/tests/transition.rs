use rocket_radio::transition::{find_transitions, Transition};

fn t(idx: usize, new_state: bool) -> Transition {
    Transition { idx, new_state }
}

#[test]
fn changes_are_listed_in_order() {
    let bits = [false, false, true, true, false, true];
    assert_eq!(
        find_transitions(false, &bits, 0),
        vec![t(2, true), t(4, false), t(5, true)]
    );
}

#[test]
fn first_decision_is_compared_with_the_block_before() {
    assert_eq!(find_transitions(true, &[false, false], 100), vec![t(100, false)]);
    assert_eq!(find_transitions(false, &[false, false], 100), Vec::<Transition>::new());
    assert_eq!(find_transitions(false, &[true], 7), vec![t(7, true)]);
}

#[test]
fn sample_numbers_count_from_start() {
    assert_eq!(
        find_transitions(false, &[true, false, true], 32768),
        vec![t(32768, true), t(32769, false), t(32770, true)]
    );
}

#[test]
fn no_decisions_no_changes() {
    assert_eq!(find_transitions(true, &[], 5), Vec::<Transition>::new());
}

#[test]
fn changes_do_not_depend_on_the_cut() {
    let bits: Vec<bool> = (0..300).map(|i| (i / 7 + i / 11) % 2 == 0).collect();
    let whole = find_transitions(false, &bits, 1000);
    for cut in [1usize, 7, 150, 299] {
        let mut split = find_transitions(false, &bits[..cut], 1000);
        split.extend(find_transitions(bits[cut - 1], &bits[cut..], 1000 + cut));
        assert_eq!(split, whole);
    }
}
