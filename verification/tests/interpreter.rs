use bfjit::machine::Machine;

const FUEL: u64 = 1_000_000;

#[test]
fn prints_at_sign() {
    // 8 * 8 = 64 = '@'
    let mut m = Machine::new_with_source("++++++++[>++++++++<-]>.");
    let done = m.run(FUEL);
    assert!(done);
    assert_eq!(m.output(), &vec![64u8]);
}

#[test]
fn echoes_one_byte() {
    let mut m = Machine::new_with_source(",.");
    m.feed_input(&[65]);
    let done = m.run(FUEL);
    assert!(done);
    assert_eq!(m.output(), &vec![65u8]);
}

#[test]
fn doubling_loop() {
    let mut m = Machine::new_with_source("++[->++<]>.");
    let done = m.run(FUEL);
    assert!(done);
    assert_eq!(m.output(), &vec![4u8]);
}

#[test]
fn add_wraps_modulo_256() {
    let mut m = Machine::new_with_source(&"+".repeat(300));
    assert!(m.run(FUEL));
    assert_eq!(m.cell_at(0), 44);
}

#[test]
fn move_left_from_zero_lands_on_29999() {
    let mut m = Machine::new_with_source("<");
    assert!(m.run(FUEL));
    assert_eq!(m.cursor(), 29999);
}

#[test]
fn odd_delta_loop_zeroes_cell() {
    // +++++ then a loop adding 3 each pass: rewritten to Zero, the cell
    // ends at 0 just as the interpreted loop would for an odd delta.
    let mut m = Machine::new_with_source("+++++[+++]");
    assert!(m.run(FUEL));
    assert_eq!(m.cell_at(0), 0);
}

#[test]
fn read_empty_input_stores_zero() {
    let mut m = Machine::new_with_source("+++,");
    assert!(m.run(FUEL));
    assert_eq!(m.cell_at(0), 0);
}

#[test]
fn read_consumes_in_order() {
    let mut m = Machine::new_with_source(",.,.");
    m.feed_input(&[1, 2]);
    assert!(m.run(FUEL));
    assert_eq!(m.output(), &vec![1u8, 2u8]);
}

#[test]
fn fuel_runs_out_on_forever_loop() {
    let mut m = Machine::new_with_source("+[]");
    let done = m.run(1000);
    assert!(!done);
}

#[test]
fn cursor_wraps_round_trip() {
    let mut m = Machine::new_with_source("<>");
    assert!(m.run(FUEL));
    assert_eq!(m.cursor(), 0);
}

#[test]
fn nested_loops_multiply() {
    // 2 outer passes, each adding 2 then draining it into +2 per unit:
    // cell 2 ends at 2 * 4 = 8
    let mut m = Machine::new_with_source("++[>++[>++<-]<-]>>.");
    assert!(m.run(FUEL));
    assert_eq!(m.output(), &vec![8u8]);
}

#[test]
fn move_wraps_mid_tape() {
    // step right five times, then six net-left moves land on 29999
    let mut m = Machine::new_with_source(">>>>><<<<<<");
    assert!(m.run(FUEL));
    assert_eq!(m.cursor(), 29999);
}
