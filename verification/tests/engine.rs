use turing_machine::{Machine, Turd};

fn program(lines: &[&str]) -> Vec<Turd> {
    Turd::parse_turds("test.turd", &lines.join("\n")).unwrap()
}

fn machine(tape: &[&str], state: &str) -> Machine {
    Machine::new(tape.iter().map(|s| s.to_string()).collect(), state.to_string()).unwrap()
}

fn tape_of(m: &Machine) -> Vec<&str> {
    m.tape().iter().map(|s| s.as_str()).collect()
}

#[test]
fn new_machine_starts_on_the_first_cell() {
    let m = machine(&["a", "b"], "q");
    assert_eq!(m.head(), 0);
    assert_eq!(m.state(), "q");
    assert_eq!(tape_of(&m), ["a", "b"]);
}

#[test]
fn no_machine_on_an_empty_tape() {
    assert!(Machine::new(Vec::new(), "A".to_string()).is_none());
}

#[test]
fn end_to_end_example() {
    let rules = program(&["A 0 1 R B", "B 1 0 R A"]);
    let mut m = machine(&["0", "0", "0"], "A");
    assert!(m.next(&rules));
    assert_eq!(m.state(), "B");
    assert_eq!(m.head(), 1);
    assert_eq!(tape_of(&m), ["1", "0", "0"]);
    assert!(!m.next(&rules));
    assert_eq!(tape_of(&m), ["1", "0", "0"]);
    assert_eq!(m.head(), 1);
    assert_eq!(m.state(), "B");
}

#[test]
fn unknown_initial_state_halts_at_once() {
    let rules = program(&["A 0 1 R B", "B 1 0 R A"]);
    assert!(!Turd::states_of_turds(&rules).contains(&"C".to_string()));
    let mut m = machine(&["0", "0", "0"], "C");
    assert!(!m.next(&rules));
    assert_eq!(tape_of(&m), ["0", "0", "0"]);
    assert_eq!(m.head(), 0);
    assert_eq!(m.state(), "C");
}

#[test]
fn unknown_symbol_halts_at_once() {
    let rules = program(&["A 0 1 R B"]);
    let mut m = machine(&["x", "0"], "A");
    assert!(!m.next(&rules));
    assert_eq!(tape_of(&m), ["x", "0"]);
    assert_eq!(m.head(), 0);
    assert_eq!(m.state(), "A");
}

#[test]
fn no_rules_halt_at_once() {
    let mut m = machine(&["0"], "A");
    assert!(!m.next(&[]));
    assert_eq!(tape_of(&m), ["0"]);
    assert_eq!(m.state(), "A");
}

#[test]
fn left_from_the_first_cell_wraps_to_the_last() {
    let rules = program(&["A 0 1 L B"]);
    let mut m = machine(&["0", "0", "0", "0"], "A");
    assert!(m.next(&rules));
    assert_eq!(m.head(), 3);
    assert_eq!(tape_of(&m), ["1", "0", "0", "0"]);
    assert_eq!(m.state(), "B");
}

#[test]
fn right_from_the_last_cell_wraps_to_the_first() {
    let rules = program(&["A 0 0 L B", "B 0 1 R C"]);
    let mut m = machine(&["0", "0", "0"], "A");
    assert!(m.next(&rules));
    assert_eq!(m.head(), 2);
    assert!(m.next(&rules));
    assert_eq!(m.head(), 0);
    assert_eq!(tape_of(&m), ["0", "0", "1"]);
    assert_eq!(m.state(), "C");
}

#[test]
fn inner_cells_move_by_one() {
    let rules = program(&["A 0 a R A", "A 1 b L B", "B a c L C"]);
    let mut m = machine(&["0", "0", "1", "0"], "A");
    assert!(m.next(&rules));
    assert_eq!(m.head(), 1);
    assert!(m.next(&rules));
    assert_eq!(m.head(), 2);
    assert!(m.next(&rules));
    assert_eq!(m.head(), 1);
    assert!(m.next(&rules));
    assert_eq!(m.head(), 0);
    assert_eq!(tape_of(&m), ["a", "c", "b", "0"]);
    assert_eq!(m.state(), "C");
}

#[test]
fn head_stays_on_a_tape_of_one_cell() {
    let rules = program(&["A 0 1 R B", "B 1 2 L C"]);
    let mut m = machine(&["0"], "A");
    assert!(m.next(&rules));
    assert_eq!(m.head(), 0);
    assert_eq!(tape_of(&m), ["1"]);
    assert!(m.next(&rules));
    assert_eq!(m.head(), 0);
    assert_eq!(tape_of(&m), ["2"]);
    assert_eq!(m.state(), "C");
    assert!(!m.next(&rules));
}

#[test]
fn a_full_turn_right_comes_back() {
    let rules = program(&["A 0 1 R A"]);
    let mut m = machine(&["0", "0", "0", "0", "0"], "A");
    for expected in [1, 2, 3, 4, 0] {
        assert!(m.next(&rules));
        assert_eq!(m.head(), expected);
    }
    assert_eq!(tape_of(&m), ["1", "1", "1", "1", "1"]);
    assert!(!m.next(&rules));
}

#[test]
fn first_matching_rule_wins() {
    let rules = program(&["B 0 x L B", "A 0 1 R B", "A 0 2 L C", "A 0 3 R D"]);
    for _ in 0..3 {
        let mut m = machine(&["0", "0", "0"], "A");
        assert!(m.next(&rules));
        assert_eq!(tape_of(&m), ["1", "0", "0"]);
        assert_eq!(m.head(), 1);
        assert_eq!(m.state(), "B");
    }
}

#[test]
fn first_matching_rule_wins_on_every_call() {
    let rules = program(&["A 0 0 R A", "A 0 1 L B"]);
    let mut m = machine(&["0", "0"], "A");
    for call in 0..10 {
        assert!(m.next(&rules));
        assert_eq!(m.head(), (call + 1) % 2);
        assert_eq!(m.state(), "A");
        assert_eq!(tape_of(&m), ["0", "0"]);
    }
}

#[test]
fn rule_must_match_state_and_symbol() {
    let rules = program(&["A 1 x R A", "B 0 y R B", "A 0 z L C"]);
    let mut m = machine(&["0", "1"], "A");
    assert!(m.next(&rules));
    assert_eq!(tape_of(&m), ["z", "1"]);
    assert_eq!(m.head(), 1);
    assert_eq!(m.state(), "C");
}

#[test]
fn halted_machine_stays_as_it_is() {
    let rules = program(&["A 0 1 R B"]);
    let mut m = machine(&["0", "1"], "A");
    assert!(m.next(&rules));
    for _ in 0..3 {
        assert!(!m.next(&rules));
        assert_eq!(tape_of(&m), ["1", "1"]);
        assert_eq!(m.head(), 1);
        assert_eq!(m.state(), "B");
    }
}

#[test]
fn symbols_are_compared_whole() {
    let rules = program(&["A 00 1 R B", "AA 0 2 R B"]);
    let mut m = machine(&["0", "00"], "A");
    assert!(!m.next(&rules));
    let mut m = machine(&["00", "0"], "A");
    assert!(m.next(&rules));
    assert_eq!(tape_of(&m), ["1", "0"]);
}

#[test]
fn render_shows_state_tape_and_head() {
    let m = machine(&["0", "0", "0"], "A");
    assert_eq!(m.render(), "STATE: A\n0 0 0 \n^     \n");
}

#[test]
fn render_after_a_step() {
    let rules = program(&["A 0 1 R B"]);
    let mut m = machine(&["0", "0", "0"], "A");
    assert!(m.next(&rules));
    assert_eq!(m.render(), "STATE: B\n1 0 0 \n  ^   \n");
}

#[test]
fn render_aligns_the_caret_under_wide_symbols() {
    let rules = program(&["q0 ab ab R q0", "q0 c c R q0"]);
    let mut m = machine(&["ab", "c", "def", "g"], "q0");
    assert_eq!(m.render(), "STATE: q0\nab c def g \n^          \n");
    assert!(m.next(&rules));
    assert_eq!(m.render(), "STATE: q0\nab c def g \n   ^       \n");
    assert!(m.next(&rules));
    assert_eq!(m.render(), "STATE: q0\nab c def g \n     ^     \n");
}

#[test]
fn render_counts_characters() {
    let rules = program(&["s \u{e9}\u{e9} x R s"]);
    let mut m = machine(&["\u{e9}\u{e9}", "b"], "s");
    assert_eq!(m.render(), "STATE: s\n\u{e9}\u{e9} b \n^    \n");
    assert!(m.next(&rules));
    assert_eq!(m.render(), "STATE: s\nx b \n  ^ \n");
}

#[test]
fn render_changes_nothing() {
    let m = machine(&["0", "1"], "A");
    let first = m.render();
    assert_eq!(m.render(), first);
    assert_eq!(tape_of(&m), ["0", "1"]);
    assert_eq!(m.head(), 0);
    assert_eq!(m.state(), "A");
}

#[test]
fn tape_from_text() {
    let tape = turing_machine::text::split_whitespace(" 0 1\n\n0\t1 \n");
    let rules = program(&["A 0 1 L A"]);
    let mut m = Machine::new(tape, "A".to_string()).unwrap();
    assert_eq!(tape_of(&m), ["0", "1", "0", "1"]);
    assert!(m.next(&rules));
    assert_eq!(m.head(), 3);
    assert!(Machine::new(turing_machine::text::split_whitespace(" \n"), "A".to_string()).is_none());
}
