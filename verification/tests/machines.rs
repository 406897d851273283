use bf_rust::flat::{FlatMachine, TAPE_CELLS};
use bf_rust::interpreter::{compile, Interpreter};
use bf_rust::parse::{to_base_ops, to_ops};
use bf_rust::structure::{BaseOp, Diagnostic, Expression, Op, Program, Status};
use bf_rust::tape::wrapping_change;
use bf_rust::tree::{TreeMachine, INITIAL_CELLS};

const PLENTY: usize = 1_000_000;

fn ops(text: &str) -> Vec<BaseOp> {
    to_base_ops(&text.to_string())
}

fn tree(text: &str) -> Vec<Expression> {
    to_ops(&ops(text)).unwrap()
}

fn run_flat(text: &str, input: &[u8]) -> (Status, Vec<u8>) {
    let program = ops(text);
    let mut machine = FlatMachine::new(&program);
    let mut output = Vec::new();
    let (status, _) = machine.run(input, &mut output, PLENTY);
    (status, output)
}

fn run_tree(text: &str, input: &[u8]) -> (Status, Vec<u8>) {
    let program = tree(text);
    let mut machine = TreeMachine::new(&program);
    let mut output = Vec::new();
    let (status, _) = machine.run(input, &mut output, PLENTY);
    (status, output)
}

const HELLO: &str = "++++++++[>++++[>++>+++>+++>+<<<<-]>+>+>->>+[<]<-]>>.>---.+++++++..+++.>>.<-.<.+++.------.--------.>>+.>++.";

#[test]
fn cell_arithmetic_wraps() {
    assert_eq!(wrapping_change(255, 1), 0);
    assert_eq!(wrapping_change(0, -1), 255);
    assert_eq!(wrapping_change(250, 10), 4);
    assert_eq!(wrapping_change(3, -128), 131);
    assert_eq!(wrapping_change(100, 27), 127);
    assert_eq!(wrapping_change(7, 0), 7);
}

#[test]
fn flat_increment_wraps_from_255_to_0() {
    let program = ops("+");
    let mut machine = FlatMachine::with_tape(&program, vec![255]).unwrap();
    let mut output = Vec::new();
    assert_eq!(machine.step(&[], &mut output), Status::Running);
    assert_eq!(machine.tape(), &vec![0]);
    assert!(output.is_empty());
}

#[test]
fn flat_decrement_wraps_from_0_to_255() {
    let program = ops("-");
    let mut machine = FlatMachine::with_tape(&program, vec![0]).unwrap();
    let mut output = Vec::new();
    assert_eq!(machine.step(&[], &mut output), Status::Running);
    assert_eq!(machine.tape(), &vec![255]);
}

#[test]
fn tree_unit_changes_wrap() {
    let up = vec![Expression::Op(Op::ChangeData(1))];
    let mut machine = TreeMachine::with_tape(&up, vec![255]).unwrap();
    let mut output = Vec::new();
    assert_eq!(machine.step(&[], &mut output), Status::Running);
    assert_eq!(machine.tape(), &vec![0]);

    let down = vec![Expression::Op(Op::ChangeData(-1))];
    let mut machine = TreeMachine::with_tape(&down, vec![0]).unwrap();
    assert_eq!(machine.step(&[], &mut output), Status::Running);
    assert_eq!(machine.tape(), &vec![255]);
}

#[test]
fn tree_batched_changes_wrap() {
    let program = vec![
        Expression::Op(Op::ChangeData(100)),
        Expression::Op(Op::ChangeData(100)),
        Expression::Op(Op::ChangeData(100)),
        Expression::Op(Op::ChangeData(-128)),
    ];
    let mut machine = TreeMachine::with_tape(&program, vec![0]).unwrap();
    let mut output = Vec::new();
    let seen: Vec<u8> = (0..4)
        .map(|_| {
            assert_eq!(machine.step(&[], &mut output), Status::Running);
            machine.tape()[0]
        })
        .collect();
    assert_eq!(seen, vec![100, 200, 44, 172]);
}

#[test]
fn three_increments_and_a_write_output_one_byte_of_value_3() {
    assert_eq!(run_flat("+++.", &[]), (Status::Halted, vec![3]));
    assert_eq!(run_tree("+++.", &[]), (Status::Halted, vec![3]));
}

#[test]
fn flat_loop_runs_its_body_once_for_each_count_in_the_cell() {
    let program = ops("[-]");
    let mut machine = FlatMachine::with_tape(&program, vec![5, 9]).unwrap();
    let mut output = Vec::new();
    let mut bodies = 0;
    let mut steps = 0;
    loop {
        let at = machine.instruction_pointer();
        match machine.step(&[], &mut output) {
            Status::Running => {
                steps += 1;
                if at == 1 {
                    bodies += 1;
                }
            }
            status => {
                assert_eq!(status, Status::Halted);
                break;
            }
        }
    }
    assert_eq!(bodies, 5);
    assert_eq!(steps, 16);
    assert_eq!(machine.tape(), &vec![0, 9]);
    assert_eq!(machine.pointer(), 0);
    assert_eq!(machine.depth(), 0);
    assert!(machine.finished());
    assert!(output.is_empty());
}

#[test]
fn flat_loop_on_a_zero_cell_is_skipped_whole() {
    let program = ops("[->+<]");
    let mut machine = FlatMachine::with_tape(&program, vec![0, 7]).unwrap();
    let mut output = Vec::new();
    assert_eq!(machine.step(&[], &mut output), Status::Running);
    assert_eq!(machine.instruction_pointer(), 6);
    assert_eq!(machine.tape(), &vec![0, 7]);
    assert_eq!(machine.pointer(), 0);
    assert_eq!(machine.depth(), 0);
    assert_eq!(machine.step(&[], &mut output), Status::Halted);
}

#[test]
fn tree_loop_runs_its_body_once_for_each_count_in_the_cell() {
    let program = tree("[-]");
    let mut machine = TreeMachine::with_tape(&program, vec![5, 9]).unwrap();
    let mut output = Vec::new();
    let mut bodies = 0;
    loop {
        let inside = machine.depth() == 1;
        let before = machine.tape()[0];
        match machine.step(&[], &mut output) {
            Status::Running => {
                if inside && machine.tape()[0] != before {
                    bodies += 1;
                }
            }
            status => {
                assert_eq!(status, Status::Halted);
                break;
            }
        }
    }
    assert_eq!(bodies, 5);
    assert_eq!(machine.tape(), &vec![0, 9]);
    assert_eq!(machine.pointer(), 0);
    assert!(machine.finished());
}

#[test]
fn tree_loop_on_a_zero_cell_is_skipped_whole() {
    let program = tree("[->+<]");
    let mut machine = TreeMachine::with_tape(&program, vec![0, 7]).unwrap();
    let mut output = Vec::new();
    assert_eq!(machine.step(&[], &mut output), Status::Running);
    assert_eq!(machine.depth(), 0);
    assert!(machine.finished());
    assert_eq!(machine.tape(), &vec![0, 7]);
    assert_eq!(machine.pointer(), 0);
    assert_eq!(machine.step(&[], &mut output), Status::Halted);
}

#[test]
fn block_read_of_three_against_one_byte_fills_with_zeros() {
    let program = vec![Expression::Op(Op::Read(3))];
    let mut machine = TreeMachine::with_tape(&program, vec![9, 9, 9, 9, 9, 9]).unwrap();
    let mut output = Vec::new();
    assert_eq!(machine.input_demand(), 3);
    assert_eq!(machine.step(&[b'x'], &mut output), Status::Running);
    assert_eq!(machine.tape(), &vec![b'x', 0, 0, 9, 9, 9]);
    assert_eq!(machine.pointer(), 2);
    assert!(output.is_empty());
}

#[test]
fn block_read_away_from_the_base_lands_on_its_last_cell() {
    let program = vec![
        Expression::Op(Op::ChangePointer(2)),
        Expression::Op(Op::Read(3)),
    ];
    let mut machine = TreeMachine::with_tape(&program, vec![9, 9, 9, 9, 9, 9]).unwrap();
    let mut output = Vec::new();
    let (status, consumed) = machine.run(b"q", &mut output, PLENTY);
    assert_eq!((status, consumed), (Status::Halted, 1));
    assert_eq!(machine.tape(), &vec![9, 9, b'q', 0, 0, 9]);
    assert_eq!(machine.pointer(), 4);
}

#[test]
fn block_read_takes_no_more_than_it_asked_for() {
    let program = vec![Expression::Op(Op::Read(2)), Expression::Op(Op::Read(2))];
    let mut machine = TreeMachine::with_tape(&program, vec![7; 4]).unwrap();
    let mut output = Vec::new();
    let (status, consumed) = machine.run(b"abc", &mut output, PLENTY);
    assert_eq!((status, consumed), (Status::Halted, 3));
    assert_eq!(machine.tape(), &vec![b'a', b'c', 0, 7]);
    assert_eq!(machine.pointer(), 2);

    let mut machine = TreeMachine::with_tape(&program, vec![7; 4]).unwrap();
    assert_eq!(machine.step(b"abcdef", &mut output), Status::Running);
    assert_eq!(machine.tape(), &vec![b'a', b'b', 7, 7]);
}

#[test]
fn block_read_grows_the_tape() {
    let program = vec![Expression::Op(Op::Read(4))];
    let mut machine = TreeMachine::with_tape(&program, vec![1, 2]).unwrap();
    let mut output = Vec::new();
    assert_eq!(machine.step(&[5], &mut output), Status::Running);
    assert_eq!(machine.tape(), &vec![5, 0, 0, 0]);
    assert_eq!(machine.pointer(), 3);
}

#[test]
fn block_write_emits_the_block_and_lands_on_its_last_cell() {
    let program = vec![
        Expression::Op(Op::ChangePointer(1)),
        Expression::Op(Op::Write(3)),
    ];
    let mut machine = TreeMachine::with_tape(&program, vec![10, 20, 30, 40, 50]).unwrap();
    let mut output = vec![1];
    let (status, consumed) = machine.run(&[], &mut output, PLENTY);
    assert_eq!((status, consumed), (Status::Halted, 0));
    assert_eq!(output, vec![1, 20, 30, 40]);
    assert_eq!(machine.pointer(), 3);
    assert_eq!(machine.tape(), &vec![10, 20, 30, 40, 50]);
}

#[test]
fn block_write_beyond_the_tape_emits_blank_cells() {
    let program = vec![Expression::Op(Op::Write(4))];
    let mut machine = TreeMachine::with_tape(&program, vec![8, 9]).unwrap();
    let mut output = Vec::new();
    assert_eq!(machine.step(&[], &mut output), Status::Running);
    assert_eq!(output, vec![8, 9, 0, 0]);
    assert_eq!(machine.tape(), &vec![8, 9, 0, 0]);
    assert_eq!(machine.pointer(), 3);
}

#[test]
fn empty_block_steps_the_pointer_back() {
    for op in [Op::Read(0), Op::Write(0)] {
        let program = vec![Expression::Op(Op::ChangePointer(3)), Expression::Op(op)];
        let mut machine = TreeMachine::with_tape(&program, vec![1, 2, 3, 4]).unwrap();
        let mut output = Vec::new();
        assert_eq!(machine.step(&[], &mut output), Status::Running);
        assert_eq!(machine.input_demand(), 0);
        assert_eq!(machine.step(b"zz", &mut output), Status::Running);
        assert_eq!(machine.pointer(), 2);
        assert_eq!(machine.tape(), &vec![1, 2, 3, 4]);
        assert!(output.is_empty());
    }
}

#[test]
fn empty_block_at_the_base_is_out_of_range() {
    for op in [Op::Read(0), Op::Write(0)] {
        let program = vec![Expression::Op(op)];
        let mut machine = TreeMachine::new(&program);
        let mut output = Vec::new();
        assert_eq!(
            machine.step(&[], &mut output),
            Status::Faulted(Diagnostic::PointerOutOfRange)
        );
        assert_eq!(machine.pointer(), 0);
        assert!(!machine.finished());
    }
}

#[test]
fn block_too_large_for_any_tape_is_out_of_range() {
    for op in [Op::Read(usize::MAX), Op::Write(usize::MAX)] {
        let program = vec![Expression::Op(Op::ChangePointer(1)), Expression::Op(op)];
        let mut machine = TreeMachine::with_tape(&program, vec![4, 5]).unwrap();
        let mut output = Vec::new();
        assert_eq!(machine.step(&[], &mut output), Status::Running);
        assert_eq!(machine.input_demand(), 0);
        assert_eq!(
            machine.step(&[], &mut output),
            Status::Faulted(Diagnostic::PointerOutOfRange)
        );
        assert_eq!(machine.tape(), &vec![4, 5]);
        assert_eq!(machine.pointer(), 1);
        assert!(output.is_empty());
    }
}

#[test]
fn counted_loop_runs_its_trips_whatever_the_cell_holds() {
    let program = vec![
        Expression::Loop(vec![Expression::Op(Op::Write(1))], Some(3)),
        Expression::Op(Op::ChangeData(1)),
        Expression::Loop(vec![Expression::Op(Op::Write(1))], Some(2)),
        Expression::Loop(vec![Expression::Op(Op::Write(1))], Some(0)),
    ];
    let mut machine = TreeMachine::new(&program);
    let mut output = Vec::new();
    let (status, _) = machine.run(&[], &mut output, PLENTY);
    assert_eq!(status, Status::Halted);
    assert_eq!(output, vec![0, 0, 0, 1, 1]);
}

#[test]
fn counted_loops_nest() {
    let inner = Expression::Loop(vec![Expression::Op(Op::ChangeData(1))], Some(4));
    let program = vec![
        Expression::Loop(vec![inner, Expression::Op(Op::Write(1))], Some(3)),
    ];
    let mut machine = TreeMachine::new(&program);
    let mut output = Vec::new();
    let (status, _) = machine.run(&[], &mut output, PLENTY);
    assert_eq!(status, Status::Halted);
    assert_eq!(output, vec![4, 8, 12]);
}

#[test]
fn flat_pointer_cannot_leave_the_tape_on_the_left() {
    let program = ops("+<+");
    let mut machine = FlatMachine::new(&program);
    let mut output = Vec::new();
    let (status, _) = machine.run(&[], &mut output, PLENTY);
    assert_eq!(status, Status::Faulted(Diagnostic::PointerOutOfRange));
    assert_eq!(machine.instruction_pointer(), 1);
    assert_eq!(machine.pointer(), 0);
    assert_eq!(machine.tape()[0], 1);
    assert_eq!(
        machine.step(&[], &mut output),
        Status::Faulted(Diagnostic::PointerOutOfRange)
    );
}

#[test]
fn flat_pointer_cannot_leave_the_tape_on_the_right() {
    let program = ops(">>+");
    let mut machine = FlatMachine::with_tape(&program, vec![0, 0]).unwrap();
    let mut output = Vec::new();
    let (status, _) = machine.run(&[], &mut output, PLENTY);
    assert_eq!(status, Status::Faulted(Diagnostic::PointerOutOfRange));
    assert_eq!(machine.instruction_pointer(), 1);
    assert_eq!(machine.pointer(), 1);
    assert_eq!(machine.tape(), &vec![0, 0]);
}

#[test]
fn flat_tape_has_1024_cells() {
    assert_eq!(TAPE_CELLS, 1024);
    let text = ">".repeat(1023);
    let program = ops(&text);
    let mut machine = FlatMachine::new(&program);
    assert_eq!(machine.tape().len(), 1024);
    let mut output = Vec::new();
    assert_eq!(machine.run(&[], &mut output, PLENTY).0, Status::Halted);
    assert_eq!(machine.pointer(), 1023);

    let text = ">".repeat(1024);
    let program = ops(&text);
    let mut machine = FlatMachine::new(&program);
    assert_eq!(
        machine.run(&[], &mut output, PLENTY).0,
        Status::Faulted(Diagnostic::PointerOutOfRange)
    );
    assert_eq!(machine.pointer(), 1023);
}

#[test]
fn tree_pointer_cannot_go_below_the_base() {
    let program = tree("+<+");
    let mut machine = TreeMachine::new(&program);
    let mut output = Vec::new();
    let (status, _) = machine.run(&[], &mut output, PLENTY);
    assert_eq!(status, Status::Faulted(Diagnostic::PointerOutOfRange));
    assert_eq!(machine.pointer(), 0);
    assert_eq!(machine.tape()[0], 1);

    let program = vec![
        Expression::Op(Op::ChangePointer(5)),
        Expression::Op(Op::ChangePointer(-6)),
    ];
    let mut machine = TreeMachine::new(&program);
    let (status, _) = machine.run(&[], &mut output, PLENTY);
    assert_eq!(status, Status::Faulted(Diagnostic::PointerOutOfRange));
    assert_eq!(machine.pointer(), 5);
}

#[test]
fn tree_tape_grows_under_the_pointer() {
    assert_eq!(INITIAL_CELLS, 2048);
    let program = vec![
        Expression::Op(Op::ChangePointer(3000)),
        Expression::Op(Op::ChangeData(7)),
        Expression::Op(Op::Write(1)),
        Expression::Op(Op::ChangePointer(-3000)),
    ];
    let mut machine = TreeMachine::new(&program);
    assert_eq!(machine.tape().len(), 2048);
    let mut output = Vec::new();
    let (status, _) = machine.run(&[], &mut output, PLENTY);
    assert_eq!(status, Status::Halted);
    assert_eq!(output, vec![7]);
    assert_eq!(machine.tape().len(), 3001);
    assert_eq!(machine.tape()[3000], 7);
    assert!(machine.tape()[..3000].iter().all(|cell| *cell == 0));
    assert_eq!(machine.pointer(), 0);
}

#[test]
fn tree_tape_never_shrinks() {
    let program = vec![
        Expression::Op(Op::ChangePointer(9)),
        Expression::Op(Op::ChangePointer(-9)),
    ];
    let mut machine = TreeMachine::with_tape(&program, vec![1, 2, 3]).unwrap();
    let mut output = Vec::new();
    assert_eq!(machine.step(&[], &mut output), Status::Running);
    assert_eq!(machine.tape(), &vec![1, 2, 3, 0, 0, 0, 0, 0, 0, 0]);
    assert_eq!(machine.step(&[], &mut output), Status::Running);
    assert_eq!(machine.tape().len(), 10);
    assert_eq!(machine.pointer(), 0);
}

#[test]
fn a_close_with_no_loop_open_is_a_mismatch() {
    let program = ops("+]+");
    let mut machine = FlatMachine::new(&program);
    let mut output = Vec::new();
    let (status, _) = machine.run(&[], &mut output, PLENTY);
    assert_eq!(status, Status::Faulted(Diagnostic::MismatchedLoopStack));
    assert_eq!(machine.instruction_pointer(), 1);
    assert_eq!(machine.tape()[0], 1);
}

#[test]
fn skipping_a_loop_that_never_ends_is_reported_with_its_index() {
    let program = ops(">[+");
    let mut machine = FlatMachine::new(&program);
    let mut output = Vec::new();
    let (status, _) = machine.run(&[], &mut output, PLENTY);
    assert_eq!(status, Status::Faulted(Diagnostic::UnterminatedOpen(1)));
    assert_eq!(machine.instruction_pointer(), 1);
}

#[test]
fn entering_a_loop_that_never_ends_runs_to_the_end_of_the_program() {
    let program = ops("+[.");
    let mut machine = FlatMachine::new(&program);
    let mut output = Vec::new();
    let (status, _) = machine.run(&[], &mut output, PLENTY);
    assert_eq!(status, Status::Halted);
    assert_eq!(output, vec![1]);
    assert_eq!(machine.depth(), 1);
}

#[test]
fn flat_read_stores_the_byte_or_zero_at_the_end_of_the_stream() {
    let program = ops(",>,>,");
    let mut machine = FlatMachine::with_tape(&program, vec![9, 9, 9]).unwrap();
    let mut output = Vec::new();
    let (status, consumed) = machine.run(b"ab", &mut output, PLENTY);
    assert_eq!((status, consumed), (Status::Halted, 2));
    assert_eq!(machine.tape(), &vec![b'a', b'b', 0]);
}

#[test]
fn flat_machine_asks_for_one_byte_before_a_read_only() {
    let program = ops("+,");
    let mut machine = FlatMachine::new(&program);
    let mut output = Vec::new();
    assert_eq!(machine.input_demand(), 0);
    assert_eq!(machine.step(&[], &mut output), Status::Running);
    assert_eq!(machine.input_demand(), 1);
    assert_eq!(machine.step(&[42, 43], &mut output), Status::Running);
    assert_eq!(machine.tape()[0], 42);
    assert_eq!(machine.input_demand(), 0);
    assert_eq!(machine.step(&[], &mut output), Status::Halted);
}

#[test]
fn tree_read_stores_the_byte_or_zero_at_the_end_of_the_stream() {
    let program = tree(",>,>,");
    let mut machine = TreeMachine::with_tape(&program, vec![9, 9, 9]).unwrap();
    let mut output = Vec::new();
    let (status, consumed) = machine.run(b"ab", &mut output, PLENTY);
    assert_eq!((status, consumed), (Status::Halted, 2));
    assert_eq!(machine.tape(), &vec![b'a', b'b', 0]);
}

#[test]
fn a_halted_machine_stays_halted() {
    let program = ops("+");
    let mut machine = FlatMachine::new(&program);
    let mut output = Vec::new();
    assert_eq!(machine.run(&[], &mut output, 10), (Status::Halted, 0));
    assert_eq!(machine.run(&[], &mut output, 10), (Status::Halted, 0));
    assert_eq!(machine.tape()[0], 1);

    let program = tree("+");
    let mut machine = TreeMachine::new(&program);
    assert_eq!(machine.run(&[], &mut output, 10), (Status::Halted, 0));
    assert_eq!(machine.run(&[], &mut output, 10), (Status::Halted, 0));
    assert_eq!(machine.tape()[0], 1);
}

#[test]
fn a_run_stops_when_its_transitions_are_used_up() {
    let program = ops("+[]");
    let mut machine = FlatMachine::new(&program);
    let mut output = Vec::new();
    assert_eq!(machine.run(&[], &mut output, 1000), (Status::Running, 0));
    assert!(!machine.finished());
    assert_eq!(machine.run(&[], &mut output, 0), (Status::Running, 0));

    let program = tree("+[]");
    let mut machine = TreeMachine::new(&program);
    assert_eq!(machine.run(&[], &mut output, 1000), (Status::Running, 0));
    assert!(!machine.finished());
}

#[test]
fn a_run_can_be_taken_up_again() {
    let program = ops(HELLO);
    let mut whole = FlatMachine::new(&program);
    let mut expected = Vec::new();
    assert_eq!(whole.run(&[], &mut expected, PLENTY).0, Status::Halted);

    let mut machine = FlatMachine::new(&program);
    let mut output = Vec::new();
    let mut rounds = 0;
    while machine.run(&[], &mut output, 7).0 == Status::Running {
        rounds += 1;
    }
    assert!(rounds > 10);
    assert_eq!(output, expected);
    assert_eq!(machine.tape(), whole.tape());
}

#[test]
fn an_empty_tape_makes_no_machine() {
    let flat = ops("+");
    assert!(FlatMachine::with_tape(&flat, vec![]).is_none());
    assert!(FlatMachine::with_tape(&flat, vec![0]).is_some());
    let nodes = tree("+");
    assert!(TreeMachine::with_tape(&nodes, vec![]).is_none());
    assert!(TreeMachine::with_tape(&nodes, vec![0]).is_some());
}

#[test]
fn both_machines_print_hello_world() {
    let expected = b"Hello World!\n".to_vec();
    assert_eq!(run_flat(HELLO, &[]), (Status::Halted, expected.clone()));
    assert_eq!(run_tree(HELLO, &[]), (Status::Halted, expected));
}

#[test]
fn both_machines_echo_their_input() {
    let input = b"to be echoed\x01\xff";
    assert_eq!(run_flat(",[.,]", input), (Status::Halted, input.to_vec()));
    assert_eq!(run_tree(",[.,]", input), (Status::Halted, input.to_vec()));
}

#[test]
fn both_machines_step_in_lockstep() {
    let texts = [
        HELLO,
        ",[.,]",
        "+++[>,.<-]",
        "++[>++[>++<-]<-]>>.",
        "-[->+<]>.",
        "<",
        "+[>+<]",
        ",>,<[->>+<<]>[->+<]>.",
    ];
    let input = b"abc";
    for text in texts {
        let flat_program = ops(text);
        let tree_program = tree(text);
        let mut flat = FlatMachine::new(&flat_program);
        let mut nodes = TreeMachine::with_tape(&tree_program, vec![0; 16]).unwrap();
        let (mut flat_out, mut tree_out) = (Vec::new(), Vec::new());
        let mut consumed = 0;
        for _ in 0..20_000 {
            let want = flat.input_demand();
            assert_eq!(want, nodes.input_demand());
            let end = usize::min(consumed + want, input.len());
            let supplied = &input[usize::min(consumed, input.len())..end];
            consumed += supplied.len();
            let status = flat.step(supplied, &mut flat_out);
            assert_eq!(status, nodes.step(supplied, &mut tree_out));
            assert_eq!(flat_out, tree_out);
            assert_eq!(flat.pointer(), nodes.pointer());
            assert_eq!(flat.depth(), nodes.depth());
            if status != Status::Running {
                break;
            }
        }
    }
}

#[test]
fn machines_part_where_the_fixed_tape_ends() {
    let text = ">".repeat(1024) + "+.";
    assert_eq!(
        run_flat(&text, &[]),
        (Status::Faulted(Diagnostic::PointerOutOfRange), vec![])
    );
    assert_eq!(run_tree(&text, &[]), (Status::Halted, vec![1]));
}

#[test]
fn compiles_to_the_representation_asked_for() {
    let source = "say +[-] twice".to_string();
    assert_eq!(compile(&source, false), Ok(Program::Base(ops("+[-]"))));
    assert_eq!(compile(&source, true), Ok(Program::Native(tree("+[-]"))));
}

#[test]
fn compiling_to_a_tree_reports_bracket_errors() {
    let source = "+]".to_string();
    assert_eq!(compile(&source, true), Err(Diagnostic::UnexpectedClose(1)));
    assert_eq!(compile(&source, false), Ok(Program::Base(ops("+]"))));
    let source = "[[+]".to_string();
    assert_eq!(compile(&source, true), Err(Diagnostic::UnterminatedOpen(0)));
}

#[test]
fn a_program_runs_on_the_machine_for_its_representation() {
    for native in [false, true] {
        let program = compile(&",+.".to_string(), native).unwrap();
        let mut machine = Interpreter::load(&program);
        assert_eq!(matches!(machine, Interpreter::Native(_)), native);
        let mut output = Vec::new();
        assert_eq!(machine.input_demand(), 1);
        assert_eq!(machine.step(&[b'a'], &mut output), Status::Running);
        assert_eq!(machine.input_demand(), 0);
        assert_eq!(machine.run(&[], &mut output, PLENTY), (Status::Halted, 0));
        assert_eq!(output, vec![b'b']);
    }
}

#[test]
fn both_representations_of_a_program_write_the_same() {
    let source = HELLO.to_string();
    let mut outputs = Vec::new();
    for native in [false, true] {
        let program = compile(&source, native).unwrap();
        let mut machine = Interpreter::load(&program);
        let mut output = Vec::new();
        assert_eq!(machine.run(&[], &mut output, PLENTY).0, Status::Halted);
        outputs.push(output);
    }
    assert_eq!(outputs[0], outputs[1]);
    assert_eq!(outputs[0], b"Hello World!\n".to_vec());
}

#[test]
fn the_loop_stack_is_as_deep_as_the_nesting() {
    for text in [HELLO, "+[>+[>+[-]<-]<-]", "++[>++[>++<-]<-]>>."] {
        let program = ops(text);
        let mut machine = FlatMachine::new(&program);
        let mut output = Vec::new();
        loop {
            let at = machine.instruction_pointer();
            let opened = program[..at].iter().filter(|op| **op == BaseOp::StartLoop).count();
            let closed = program[..at].iter().filter(|op| **op == BaseOp::EndLoop).count();
            assert_eq!(machine.depth(), opened - closed);
            match machine.step(&[], &mut output) {
                Status::Running => {}
                status => {
                    assert_eq!(status, Status::Halted);
                    break;
                }
            }
        }
    }
}

#[test]
fn a_fault_leaves_everything_as_it_was() {
    let program = ops("+.<");
    let mut machine = FlatMachine::new(&program);
    let mut output = Vec::new();
    assert_eq!(
        machine.run(&[], &mut output, PLENTY).0,
        Status::Faulted(Diagnostic::PointerOutOfRange)
    );
    let tape = machine.tape().clone();
    let (at, pointer) = (machine.instruction_pointer(), machine.pointer());
    for _ in 0..3 {
        assert_eq!(
            machine.step(&[9], &mut output),
            Status::Faulted(Diagnostic::PointerOutOfRange)
        );
    }
    assert_eq!(output, vec![1]);
    assert_eq!(machine.tape(), &tape);
    assert_eq!((machine.instruction_pointer(), machine.pointer()), (at, pointer));
}

#[test]
fn the_next_instruction_can_be_looked_at() {
    let program = ops("+[");
    let mut machine = FlatMachine::new(&program);
    let mut output = Vec::new();
    assert_eq!(machine.next_op(), Some(BaseOp::IncrementData));
    machine.step(&[], &mut output);
    assert_eq!(machine.next_op(), Some(BaseOp::StartLoop));
    machine.step(&[], &mut output);
    assert_eq!(machine.next_op(), None);

    let nodes = tree("+[-]");
    let mut machine = TreeMachine::new(&nodes);
    assert_eq!(machine.next_node(), Some(&nodes[0]));
    machine.step(&[], &mut output);
    assert_eq!(machine.next_node(), Some(&nodes[1]));
    machine.step(&[], &mut output);
    assert_eq!(machine.next_node(), Some(&Expression::Op(Op::ChangeData(-1))));
    machine.step(&[], &mut output);
    assert_eq!(machine.next_node(), None);
    assert!(!machine.finished());
    machine.step(&[], &mut output);
    assert_eq!(machine.next_node(), Some(&nodes[1]));
    machine.step(&[], &mut output);
    assert_eq!(machine.next_node(), None);
    assert!(machine.finished());
}
