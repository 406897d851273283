use bf_rust::parse::{find_matching_end_loop, to_base_ops, to_ops, to_ops_helper};
use bf_rust::structure::{BaseOp, Diagnostic, Expression, Op};

fn ops(text: &str) -> Vec<BaseOp> {
    to_base_ops(&text.to_string())
}

#[test]
fn lexes_each_of_the_eight_commands() {
    assert_eq!(
        ops("+-><[],."),
        vec![
            BaseOp::IncrementData,
            BaseOp::DecrementData,
            BaseOp::IncrementPointer,
            BaseOp::DecrementPointer,
            BaseOp::StartLoop,
            BaseOp::EndLoop,
            BaseOp::Read,
            BaseOp::Write,
        ]
    );
}

#[test]
fn lexes_empty_text_to_nothing() {
    assert_eq!(ops(""), vec![]);
}

#[test]
fn commentary_does_not_change_the_opcodes() {
    assert_eq!(ops("a+b+c+"), ops("+++"));
    assert_eq!(
        ops("a+b+c+"),
        vec![BaseOp::IncrementData, BaseOp::IncrementData, BaseOp::IncrementData]
    );
}

#[test]
fn text_of_commentary_alone_has_no_opcodes() {
    assert_eq!(ops("hello, world".replace(',', ";").as_str()), vec![]);
    assert_eq!(ops(" \n\t0123456789abcXYZ!?"), vec![]);
}

#[test]
fn characters_beyond_ascii_are_commentary() {
    assert_eq!(
        ops("é+日本語-ß>"),
        vec![BaseOp::IncrementData, BaseOp::DecrementData, BaseOp::IncrementPointer]
    );
}

#[test]
fn taking_commentary_out_leaves_the_same_opcodes() {
    let with = "read , then [ loop . ] done";
    let without: String = with.chars().filter(|c| "+-<>[],.".contains(*c)).collect();
    assert_eq!(without, ",[.]");
    assert_eq!(ops(with), ops(&without));
}

#[test]
fn matcher_finds_the_end_of_a_simple_loop() {
    assert_eq!(find_matching_end_loop(&ops("[-]"), 0), Some(2));
}

#[test]
fn matcher_skips_nested_loops() {
    let program = ops("[[-]>[+]]<");
    assert_eq!(find_matching_end_loop(&program, 0), Some(8));
    assert_eq!(find_matching_end_loop(&program, 1), Some(3));
    assert_eq!(find_matching_end_loop(&program, 5), Some(7));
}

#[test]
fn matcher_pairs_every_open_of_a_balanced_program() {
    let program = ops("+[>[-]<[[+]>]-]");
    let pairs = [(1usize, 14usize), (3, 5), (7, 12), (8, 10)];
    for (open, close) in pairs {
        assert_eq!(program[open], BaseOp::StartLoop);
        assert_eq!(find_matching_end_loop(&program, open), Some(close));
        assert!(to_ops_helper(&program, open + 1, close).is_ok());
    }
}

#[test]
fn matcher_reports_a_missing_end() {
    assert_eq!(find_matching_end_loop(&ops("[+"), 0), None);
    assert_eq!(find_matching_end_loop(&ops("[[]"), 0), None);
    assert_eq!(find_matching_end_loop(&ops("[[]"), 1), Some(2));
}

#[test]
fn matcher_finds_nothing_from_the_last_index_on() {
    let program = ops("[]");
    assert_eq!(find_matching_end_loop(&program, 1), None);
    assert_eq!(find_matching_end_loop(&program, 2), None);
    assert_eq!(find_matching_end_loop(&program, usize::MAX), None);
    assert_eq!(find_matching_end_loop(&Vec::new(), 0), None);
}

#[test]
fn parses_each_command_to_a_unit_operation() {
    assert_eq!(
        to_ops(&ops("+-><,.")),
        Ok(vec![
            Expression::Op(Op::ChangeData(1)),
            Expression::Op(Op::ChangeData(-1)),
            Expression::Op(Op::ChangePointer(1)),
            Expression::Op(Op::ChangePointer(-1)),
            Expression::Op(Op::Read(1)),
            Expression::Op(Op::Write(1)),
        ])
    );
}

#[test]
fn parser_does_not_coalesce() {
    assert_eq!(
        to_ops(&ops("+++")),
        Ok(vec![
            Expression::Op(Op::ChangeData(1)),
            Expression::Op(Op::ChangeData(1)),
            Expression::Op(Op::ChangeData(1)),
        ])
    );
}

#[test]
fn parses_an_empty_program() {
    assert_eq!(to_ops(&Vec::new()), Ok(vec![]));
}

#[test]
fn parses_loops_to_the_shape_of_their_nesting() {
    assert_eq!(
        to_ops(&ops("+[-[>]]<[]")),
        Ok(vec![
            Expression::Op(Op::ChangeData(1)),
            Expression::Loop(
                vec![
                    Expression::Op(Op::ChangeData(-1)),
                    Expression::Loop(vec![Expression::Op(Op::ChangePointer(1))], None),
                ],
                None
            ),
            Expression::Op(Op::ChangePointer(-1)),
            Expression::Loop(vec![], None),
        ])
    );
}

#[test]
fn a_lone_open_is_unterminated_at_its_index() {
    assert_eq!(to_ops(&ops("[")), Err(Diagnostic::UnterminatedOpen(0)));
    assert_eq!(to_ops(&ops("++[--")), Err(Diagnostic::UnterminatedOpen(2)));
    assert_eq!(to_ops(&ops("+>.,<[")), Err(Diagnostic::UnterminatedOpen(5)));
}

#[test]
fn a_lone_close_is_unexpected_at_its_index() {
    assert_eq!(to_ops(&ops("]")), Err(Diagnostic::UnexpectedClose(0)));
    assert_eq!(to_ops(&ops("++]--")), Err(Diagnostic::UnexpectedClose(2)));
    assert_eq!(to_ops(&ops("+>.,<]")), Err(Diagnostic::UnexpectedClose(5)));
}

#[test]
fn positions_count_opcodes_not_characters() {
    assert_eq!(to_ops(&ops("say + then ] ")), Err(Diagnostic::UnexpectedClose(1)));
}

#[test]
fn the_first_error_from_the_left_is_reported() {
    assert_eq!(to_ops(&ops("[[]")), Err(Diagnostic::UnterminatedOpen(0)));
    assert_eq!(to_ops(&ops("[]]")), Err(Diagnostic::UnexpectedClose(2)));
    assert_eq!(to_ops(&ops("][")), Err(Diagnostic::UnexpectedClose(0)));
    assert_eq!(to_ops(&ops("[]][")), Err(Diagnostic::UnexpectedClose(2)));
    assert_eq!(to_ops(&ops("[][")), Err(Diagnostic::UnterminatedOpen(2)));
    assert_eq!(to_ops(&ops("[[][")), Err(Diagnostic::UnterminatedOpen(0)));
}

#[test]
fn a_range_is_parsed_as_a_program_of_its_own() {
    let program = ops("+[-]>");
    assert_eq!(
        to_ops_helper(&program, 2, 3),
        Ok(vec![Expression::Op(Op::ChangeData(-1))])
    );
    assert_eq!(to_ops_helper(&program, 1, 3), Err(Diagnostic::UnterminatedOpen(1)));
    assert_eq!(to_ops_helper(&program, 3, 5), Err(Diagnostic::UnexpectedClose(3)));
    assert_eq!(to_ops_helper(&program, 4, 4), Ok(vec![]));
    assert_eq!(to_ops_helper(&program, 0, 5), to_ops(&program));
}

#[test]
fn diagnostics_render_as_text() {
    assert_eq!(
        Diagnostic::UnexpectedClose(0).message(),
        "Unexpected ']' in position 0."
    );
    assert_eq!(
        Diagnostic::UnterminatedOpen(7).message(),
        "Unterminated '[' at position 7."
    );
    assert_eq!(
        Diagnostic::UnterminatedOpen(1234567890).message(),
        "Unterminated '[' at position 1234567890."
    );
    assert_eq!(
        Diagnostic::UnexpectedClose(usize::MAX).message(),
        format!("Unexpected ']' in position {}.", usize::MAX)
    );
    assert_eq!(
        Diagnostic::PointerOutOfRange.message(),
        "Data pointer out of range."
    );
    assert_eq!(
        Diagnostic::MismatchedLoopStack.message(),
        "Mismatched loop points."
    );
}

#[test]
fn positions_render_in_decimal() {
    for n in [0usize, 1, 9, 10, 11, 99, 100, 101, 4096, 65535, 1000000] {
        assert_eq!(
            Diagnostic::UnterminatedOpen(n).message(),
            format!("Unterminated '[' at position {}.", n)
        );
    }
}

#[test]
fn a_parse_error_reads_as_its_message() {
    let error = to_ops(&ops("+[>+<-]]")).unwrap_err();
    assert_eq!(error, Diagnostic::UnexpectedClose(7));
    assert_eq!(error.message(), "Unexpected ']' in position 7.");
}

fn balanced(program: &[BaseOp]) -> bool {
    let mut open = 0i64;
    for op in program {
        match op {
            BaseOp::StartLoop => open += 1,
            BaseOp::EndLoop => open -= 1,
            _ => {}
        }
        if open < 0 {
            return false;
        }
    }
    open == 0
}

fn flatten(tree: &[Expression], into: &mut Vec<BaseOp>) {
    for node in tree {
        match node {
            Expression::Op(Op::ChangeData(1)) => into.push(BaseOp::IncrementData),
            Expression::Op(Op::ChangeData(-1)) => into.push(BaseOp::DecrementData),
            Expression::Op(Op::ChangePointer(1)) => into.push(BaseOp::IncrementPointer),
            Expression::Op(Op::ChangePointer(-1)) => into.push(BaseOp::DecrementPointer),
            Expression::Op(Op::Read(1)) => into.push(BaseOp::Read),
            Expression::Op(Op::Write(1)) => into.push(BaseOp::Write),
            Expression::Op(other) => panic!("not a unit operation: {:?}", other),
            Expression::Loop(body, trips) => {
                assert_eq!(*trips, None);
                into.push(BaseOp::StartLoop);
                flatten(body, into);
                into.push(BaseOp::EndLoop);
            }
        }
    }
}

const SAMPLES: [&str; 14] = [
    "",
    "+",
    "[]",
    "[",
    "]",
    "][",
    "[[]",
    "[]]",
    "+[-[>]]<[]",
    ",[.,]",
    "[[[[]]]]",
    "[[[[]]]",
    "+[>[-]<[[+]>]-]",
    "[]+]+[",
];

#[test]
fn parsing_succeeds_exactly_on_balanced_brackets() {
    for text in SAMPLES {
        let program = ops(text);
        assert_eq!(to_ops(&program).is_ok(), balanced(&program), "{:?}", text);
    }
}

#[test]
fn a_parse_read_off_in_order_is_the_program() {
    for text in SAMPLES {
        let program = ops(text);
        if let Ok(tree) = to_ops(&program) {
            let mut flat = Vec::new();
            flatten(&tree, &mut flat);
            assert_eq!(flat, program, "{:?}", text);
        }
    }
}

#[test]
fn an_error_names_the_first_bracket_without_a_partner() {
    for text in SAMPLES {
        let program = ops(text);
        match to_ops(&program) {
            Ok(_) => {}
            Err(Diagnostic::UnexpectedClose(at)) => {
                assert_eq!(program[at], BaseOp::EndLoop);
                assert!(balanced(&program[..at]), "{:?}", text);
            }
            Err(Diagnostic::UnterminatedOpen(at)) => {
                assert_eq!(program[at], BaseOp::StartLoop);
                assert!(balanced(&program[..at]), "{:?}", text);
                assert_eq!(find_matching_end_loop(&program, at), None);
            }
            Err(other) => panic!("not a parse error: {:?}", other),
        }
    }
}
