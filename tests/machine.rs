use universal_machine::{Action, Fault, Instruction, Machine, RunEnd, END_OF_INPUT};

fn standard(op: u32, a: u32, b: u32, c: u32) -> u32 {
    (op << 28) | (a << 6) | (b << 3) | c
}

fn ortho(reg: u32, value: u32) -> u32 {
    (13 << 28) | (reg << 25) | value
}

const HALT: u32 = 0x7000_0000;

fn run_program(program: Vec<u32>, input: &[u8]) -> (Machine, RunEnd, Vec<u8>) {
    let mut m = Machine::new(program);
    let (end, out) = m.run(&input.to_vec(), 1000);
    (m, end, out)
}

#[test]
fn end_to_end_prints_h_and_newline() {
    let program = vec![ortho(0, 72), standard(10, 0, 0, 0), ortho(0, 10), standard(10, 0, 0, 0), HALT];
    assert_eq!(program[0], 0xD000_0048);
    let (_, end, out) = run_program(program, &[]);
    assert_eq!(end, RunEnd::Halted);
    assert_eq!(out, vec![b'H', b'\n']);
}

#[test]
fn addition_wraps_to_zero() {
    // r1 = !(0 & 0) = 0xFFFFFFFF, r2 = 1, r3 = r1 + r2
    let program = vec![standard(6, 1, 0, 0), ortho(2, 1), standard(3, 3, 1, 2), HALT];
    let (m, end, _) = run_program(program, &[]);
    assert_eq!(end, RunEnd::Halted);
    assert_eq!(m.register(1), 0xFFFF_FFFF);
    assert_eq!(m.register(3), 0);
}

#[test]
fn multiplication_wraps_modulo_word() {
    // r1 = 0xFFFFFFFF, r2 = 1, r3 = r1 * r2, r4 = 2, r5 = r1 * r4,
    // r6 = 0x10000, r7 = r6 * r6
    let program = vec![
        standard(6, 1, 0, 0),
        ortho(2, 1),
        standard(4, 3, 1, 2),
        ortho(4, 2),
        standard(4, 5, 1, 4),
        ortho(6, 0x1_0000),
        standard(4, 7, 6, 6),
        HALT,
    ];
    let (m, end, _) = run_program(program, &[]);
    assert_eq!(end, RunEnd::Halted);
    assert_eq!(m.register(3), 0xFFFF_FFFF);
    assert_eq!(m.register(5), 0xFFFF_FFFE);
    assert_eq!(m.register(7), 0);
}

#[test]
fn division_is_unsigned_and_floors() {
    let program = vec![standard(6, 1, 0, 0), ortho(2, 10), standard(5, 3, 1, 2), ortho(4, 7), standard(5, 5, 4, 2), HALT];
    let (m, end, _) = run_program(program, &[]);
    assert_eq!(end, RunEnd::Halted);
    assert_eq!(m.register(3), 0xFFFF_FFFF / 10);
    assert_eq!(m.register(5), 0);
}

#[test]
fn division_by_zero_faults() {
    for dividend in [1u32, 5, 0x01FF_FFFF] {
        let program = vec![ortho(1, dividend), standard(5, 2, 1, 0), HALT];
        let (m, end, _) = run_program(program, &[]);
        assert_eq!(end, RunEnd::Faulted(Fault::DivideByZero));
        assert_eq!(m.register(2), 0);
    }
}

#[test]
fn not_and_inverts_the_conjunction() {
    let program = vec![ortho(1, 0b1100), ortho(2, 0b1010), standard(6, 3, 1, 2), HALT];
    let (m, _, _) = run_program(program, &[]);
    assert_eq!(m.register(3), !0b1000u32);
}

#[test]
fn handles_are_reused_as_a_stack() {
    let program = vec![
        ortho(1, 4),
        standard(8, 0, 2, 1),
        standard(8, 0, 3, 1),
        standard(8, 0, 4, 1),
        standard(9, 0, 0, 4),
        standard(9, 0, 0, 3),
        standard(9, 0, 0, 2),
        standard(8, 0, 5, 1),
        standard(8, 0, 6, 1),
        standard(8, 0, 7, 1),
        HALT,
    ];
    let (m, end, _) = run_program(program, &[]);
    assert_eq!(end, RunEnd::Halted);
    assert_eq!((m.register(2), m.register(3), m.register(4)), (1, 2, 3));
    assert_eq!((m.register(5), m.register(6), m.register(7)), (1, 2, 3));
    assert_eq!(m.segment_word(3, 3), Ok(0));
}

#[test]
fn abandoning_handle_zero_faults() {
    let (_, end, _) = run_program(vec![standard(9, 0, 0, 0), HALT], &[]);
    assert_eq!(end, RunEnd::Faulted(Fault::InvalidHandle));
}

#[test]
fn abandoning_a_freed_handle_faults() {
    let program = vec![ortho(1, 1), standard(8, 0, 2, 1), standard(9, 0, 0, 2), standard(9, 0, 0, 2), HALT];
    let (_, end, _) = run_program(program, &[]);
    assert_eq!(end, RunEnd::Faulted(Fault::InvalidHandle));
}

#[test]
fn array_access_faults() {
    // read of a never-allocated handle
    let (_, end, _) = run_program(vec![ortho(1, 3), standard(1, 2, 1, 0), HALT], &[]);
    assert_eq!(end, RunEnd::Faulted(Fault::InvalidHandle));
    // read past the end of a two-word segment
    let program = vec![ortho(1, 2), standard(8, 0, 2, 1), standard(1, 3, 2, 1), HALT];
    let (_, end, _) = run_program(program, &[]);
    assert_eq!(end, RunEnd::Faulted(Fault::IndexOutOfBounds));
    // write past the end
    let (_, end, _) = run_program(vec![ortho(1, 9), standard(2, 0, 1, 1), HALT], &[]);
    assert_eq!(end, RunEnd::Faulted(Fault::IndexOutOfBounds));
}

#[test]
fn amendment_and_index_round_trip() {
    let program = vec![
        ortho(1, 3),
        standard(8, 0, 2, 1),
        ortho(3, 2),
        ortho(4, 77),
        standard(2, 2, 3, 4),
        standard(1, 5, 2, 3),
        HALT,
    ];
    let (m, end, _) = run_program(program, &[]);
    assert_eq!(end, RunEnd::Halted);
    assert_eq!(m.register(5), 77);
    assert_eq!(m.segment_word(1, 2), Ok(77));
    assert_eq!(m.segment_word(1, 0), Ok(0));
}

#[test]
fn amending_the_running_program_changes_later_fetches() {
    // overwrite word 3 (a division by zero) with a halt
    let program = vec![ortho(1, 3), ortho(2, 0x70), standard(2, 0, 1, 4), standard(5, 0, 0, 0)];
    let mut m = Machine::new(program);
    assert_eq!(m.step(), Ok(Action::Continue));
    assert_eq!(m.step(), Ok(Action::Continue));
    // r4 = 0x70 << 24
    assert_eq!(m.execute(Instruction::Orthography { a: 5, value: 0x0100_0000 }), Ok(Action::Continue));
    assert_eq!(m.execute(Instruction::Multiplication { a: 4, b: 2, c: 5 }), Ok(Action::Continue));
    assert_eq!(m.register(4), HALT);
    assert_eq!(m.step(), Ok(Action::Continue));
    assert_eq!(m.step(), Ok(Action::Halt));
}

#[test]
fn load_program_copies_the_source_segment() {
    let program = vec![
        ortho(1, 1),
        standard(8, 0, 2, 1),
        ortho(4, 0x0100_0000),
        ortho(5, 0x70),
        standard(4, 3, 5, 4),
        standard(2, 2, 6, 3),
        standard(12, 0, 2, 7),
    ];
    let mut m = Machine::new(program);
    for _ in 0..7 {
        assert_eq!(m.step(), Ok(Action::Continue));
    }
    assert_eq!(m.finger(), 0);
    assert_eq!(m.segment_word(0, 0), Ok(HALT));
    assert_eq!(m.segment_word(0, 1), Err(Fault::IndexOutOfBounds));
    assert_eq!(m.step(), Ok(Action::Halt));
    assert_eq!(m.finger(), 1);
    // amend the source segment: segment 0 keeps its copy
    assert_eq!(m.execute(Instruction::ArrayAmendment { a: 2, b: 6, c: 0 }), Ok(Action::Continue));
    assert_eq!(m.segment_word(1, 0), Ok(0));
    assert_eq!(m.segment_word(0, 0), Ok(HALT));
}

#[test]
fn load_program_from_an_unallocated_handle_faults() {
    let (_, end, _) = run_program(vec![ortho(1, 5), standard(12, 0, 1, 0), HALT], &[]);
    assert_eq!(end, RunEnd::Faulted(Fault::InvalidHandle));
}

#[test]
fn conditional_move_depends_on_c() {
    let mut m = Machine::new(vec![HALT]);
    m.execute(Instruction::Orthography { a: 1, value: 1 }).unwrap();
    m.execute(Instruction::Orthography { a: 2, value: 2 }).unwrap();
    m.execute(Instruction::Orthography { a: 3, value: 0 }).unwrap();
    assert_eq!(m.execute(Instruction::ConditionalMove { a: 1, b: 2, c: 3 }), Ok(Action::Continue));
    assert_eq!(m.register(1), 1);
    m.execute(Instruction::Orthography { a: 3, value: 5 }).unwrap();
    assert_eq!(m.execute(Instruction::ConditionalMove { a: 1, b: 2, c: 3 }), Ok(Action::Continue));
    assert_eq!(m.register(1), 2);
}

#[test]
fn exhausted_input_gives_the_sentinel() {
    let (m, end, _) = run_program(vec![standard(11, 0, 0, 1), HALT], &[]);
    assert_eq!(end, RunEnd::Halted);
    assert_eq!(m.register(1), 0xFFFF_FFFF);
    assert_eq!(END_OF_INPUT, 0xFFFF_FFFF);

    let mut m = Machine::new(vec![standard(11, 0, 0, 6), HALT]);
    assert_eq!(m.step(), Ok(Action::Input(6)));
    m.supply_input(6, None);
    assert_eq!(m.register(6), END_OF_INPUT);
}

#[test]
fn input_bytes_are_stored_unchanged() {
    let program = vec![standard(11, 0, 0, 1), standard(11, 0, 0, 2), standard(11, 0, 0, 3), standard(11, 0, 0, 4), HALT];
    let (m, _, _) = run_program(program, &[b'a', b'\n', 0xFF]);
    assert_eq!(m.register(1), 97);
    assert_eq!(m.register(2), 10);
    assert_eq!(m.register(3), 0xFF);
    assert_eq!(m.register(4), END_OF_INPUT);
}

#[test]
fn input_echoes_to_output() {
    let program = vec![standard(11, 0, 0, 1), standard(10, 0, 0, 1), standard(11, 0, 0, 1), standard(10, 0, 0, 1), HALT];
    let (_, end, out) = run_program(program, b"ok");
    assert_eq!(end, RunEnd::Halted);
    assert_eq!(out, b"ok".to_vec());
}

#[test]
fn output_above_255_faults() {
    let (_, end, out) = run_program(vec![ortho(1, 256), standard(10, 0, 0, 1), HALT], &[]);
    assert_eq!(end, RunEnd::Faulted(Fault::InvalidOutputValue));
    assert!(out.is_empty());
    let (_, end, out) = run_program(vec![ortho(1, 255), standard(10, 0, 0, 1), HALT], &[]);
    assert_eq!(end, RunEnd::Halted);
    assert_eq!(out, vec![255]);
}

#[test]
fn running_off_the_program_is_malformed() {
    let (_, end, _) = run_program(vec![], &[]);
    assert_eq!(end, RunEnd::Faulted(Fault::MalformedProgram));
    let (m, end, _) = run_program(vec![ortho(1, 7)], &[]);
    assert_eq!(end, RunEnd::Faulted(Fault::MalformedProgram));
    assert_eq!(m.register(1), 7);
}

#[test]
fn unused_operations_do_nothing() {
    let (m, end, _) = run_program(vec![standard(14, 1, 2, 3), 0xFFFF_FFFF, HALT], &[]);
    assert_eq!(end, RunEnd::Halted);
    assert_eq!(m.register(1), 0);
    assert_eq!(m.finger(), 3);
}

#[test]
fn a_loop_stops_at_the_step_budget() {
    // load program 0 at finger 0: jump to itself forever
    let mut m = Machine::new(vec![standard(12, 0, 0, 0)]);
    let (end, out) = m.run(&vec![], 50);
    assert_eq!(end, RunEnd::OutOfSteps);
    assert!(out.is_empty());
    assert_eq!(m.finger(), 0);
}
