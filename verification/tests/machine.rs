use subleq_kit::subleq::{address, subtract, SubLeq, SUBLEQ_RAM_LEN};

fn machine(words: &[(usize, i16)], pc: u16) -> Box<SubLeq> {
    let mut m = Box::new(SubLeq::new());
    for (at, w) in words {
        m.ram[*at] = *w;
    }
    m.pc = pc;
    m
}

#[test]
fn new_machine_is_blank() {
    let m = Box::new(SubLeq::new());
    assert_eq!(m.pc, 0);
    assert_eq!(m.ram.len(), SUBLEQ_RAM_LEN);
    assert!(m.ram.iter().all(|w| *w == 0));
}

#[test]
fn step_subtracts_and_falls_through_on_positive() {
    let mut m = machine(&[(10, 100), (11, 101), (12, 50), (100, 3), (101, 10)], 10);
    m.clock();
    assert_eq!(m.ram[101], 7);
    assert_eq!(m.ram[100], 3);
    assert_eq!(m.pc, 13);
}

#[test]
fn step_branches_on_zero() {
    let mut m = machine(&[(10, 100), (11, 101), (12, 50), (100, 10), (101, 10)], 10);
    m.clock();
    assert_eq!(m.ram[101], 0);
    assert_eq!(m.pc, 50);
}

#[test]
fn step_branches_on_negative() {
    let mut m = machine(&[(10, 100), (11, 101), (12, 50), (100, 11), (101, 10)], 10);
    m.clock();
    assert_eq!(m.ram[101], -1);
    assert_eq!(m.pc, 50);
}

#[test]
fn step_wraps_the_difference() {
    let mut m = machine(&[(10, 100), (11, 101), (12, 50), (100, 1), (101, i16::MIN)], 10);
    m.clock();
    assert_eq!(m.ram[101], i16::MAX);
    assert_eq!(m.pc, 13);
    let mut m = machine(&[(10, 100), (11, 101), (12, 50), (100, -1), (101, i16::MAX)], 10);
    m.clock();
    assert_eq!(m.ram[101], i16::MIN);
    assert_eq!(m.pc, 50);
}

#[test]
fn step_reads_negative_words_as_high_addresses() {
    let mut m = machine(&[(10, -1), (11, -2), (12, -3), (65535, 4), (65534, 1)], 10);
    m.clock();
    assert_eq!(m.ram[65534], -3);
    assert_eq!(m.pc, 65533);
}

#[test]
fn step_wraps_the_program_counter() {
    let mut m = machine(&[(65535, 100), (0, 101), (1, 7), (100, 1), (101, 5)], 65535);
    m.clock();
    assert_eq!(m.ram[101], 4);
    assert_eq!(m.pc, 2);
    let mut m = machine(&[(65534, 100), (65535, 101), (0, 7), (100, 1), (101, 5)], 65534);
    m.clock();
    assert_eq!(m.pc, 1);
}

#[test]
fn step_with_both_operands_on_one_cell_clears_it() {
    let mut m = machine(&[(10, 100), (11, 100), (12, 50), (100, -77)], 10);
    m.clock();
    assert_eq!(m.ram[100], 0);
    assert_eq!(m.pc, 50);
}

#[test]
fn step_may_change_its_own_jump_word_after_reading_it() {
    let mut m = machine(&[(10, 100), (11, 12), (12, 50), (100, 60)], 10);
    m.clock();
    assert_eq!(m.ram[12], -10);
    assert_eq!(m.pc, 50);
}

#[test]
fn addresses_and_differences() {
    assert_eq!(address(0), 0);
    assert_eq!(address(264), 264);
    assert_eq!(address(i16::MAX), 32767);
    assert_eq!(address(-1), 65535);
    assert_eq!(address(i16::MIN), 32768);
    assert_eq!(subtract(5, 7), -2);
    assert_eq!(subtract(i16::MIN, 1), i16::MAX);
    assert_eq!(subtract(0, i16::MIN), i16::MIN);
}
