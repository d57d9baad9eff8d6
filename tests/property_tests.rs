use brainfuck_macro::{brainfuck, BrainfuckError, BrainfuckInterpreter, MAX_STEPS, TAPE_SIZE};

fn small() -> BrainfuckInterpreter {
    BrainfuckInterpreter::with_limits(10, 100)
}

#[test]
fn jump_table_pairs_brackets() {
    let table = BrainfuckInterpreter::find_matching_brackets("[[]]x[]").unwrap();
    assert_eq!(
        table,
        vec![Some(3), Some(2), Some(1), Some(0), None, Some(6), Some(5)]
    );
}

#[test]
fn jump_table_is_involution() {
    let code = "+[>[-]<[>+<-]]a[.]";
    let table = BrainfuckInterpreter::find_matching_brackets(code).unwrap();
    for (i, c) in code.chars().enumerate() {
        if c == '[' || c == ']' {
            let j = table[i].unwrap();
            assert_eq!(table[j], Some(i));
        } else {
            assert_eq!(table[i], None);
        }
    }
}

#[test]
fn jump_table_counts_characters_not_bytes() {
    let table = BrainfuckInterpreter::find_matching_brackets("é[]").unwrap();
    assert_eq!(table, vec![None, Some(2), Some(1)]);
}

#[test]
fn innermost_open_bracket_is_reported() {
    let result = BrainfuckInterpreter::find_matching_brackets("[+[[]");
    assert_eq!(result, Err(BrainfuckError::UnmatchedOpenBracket(2)));
    assert_eq!(brainfuck("[[["), Err(BrainfuckError::UnmatchedOpenBracket(2)));
}

#[test]
fn first_excess_close_bracket_is_reported() {
    assert_eq!(
        BrainfuckInterpreter::find_matching_brackets("[]]]"),
        Err(BrainfuckError::UnmatchedCloseBracket(2))
    );
    assert_eq!(brainfuck("++]"), Err(BrainfuckError::UnmatchedCloseBracket(2)));
    // an excess `]` before an unclosed `[` is what is reported
    assert_eq!(brainfuck("]["), Err(BrainfuckError::UnmatchedCloseBracket(0)));
}

#[test]
fn decrement_from_zero_wraps_to_255() {
    assert_eq!(brainfuck("-."), Ok("\u{ff}".to_string()));
}

#[test]
fn increment_from_255_wraps_to_zero() {
    let code = format!("{}.+.", "+".repeat(255));
    assert_eq!(brainfuck(&code), Ok("\u{ff}\u{0}".to_string()));
}

#[test]
fn pointer_cannot_leave_the_tape() {
    let mut interpreter = BrainfuckInterpreter::with_limits(3, 100);
    assert_eq!(interpreter.execute(">>"), Ok(String::new()));
    assert_eq!(interpreter.execute(">>>"), Err(BrainfuckError::PointerOverflow));
    assert_eq!(interpreter.execute("<"), Err(BrainfuckError::PointerUnderflow));
    assert_eq!(interpreter.execute("+>+<<"), Err(BrainfuckError::PointerUnderflow));
}

#[test]
fn default_tape_has_tape_size_cells() {
    assert_eq!(TAPE_SIZE, 30_000);
    let last = ">".repeat(TAPE_SIZE - 1);
    assert_eq!(brainfuck(&last), Ok(String::new()));
    let past = ">".repeat(TAPE_SIZE);
    assert_eq!(brainfuck(&past), Err(BrainfuckError::PointerOverflow));
}

#[test]
fn comments_change_nothing() {
    let plain = small().execute("++.>+.");
    let commented = small().execute("a+ +x.\n>?+!.z");
    assert_eq!(plain, Ok("\u{2}\u{1}".to_string()));
    assert_eq!(commented, plain);
}

#[test]
fn input_is_rejected_wherever_reached() {
    assert_eq!(small().execute(","), Err(BrainfuckError::InputNotSupported));
    assert_eq!(small().execute("+++>++.,."), Err(BrainfuckError::InputNotSupported));
    assert_eq!(brainfuck(","), Err(BrainfuckError::InputNotSupported));
    // a `,` inside a loop that is skipped is never reached
    assert_eq!(small().execute("[,]"), Ok(String::new()));
}

#[test]
fn idle_loop_exhausts_the_budget() {
    assert_eq!(small().execute("+[]"), Err(BrainfuckError::MaxStepsExceeded));
    assert_eq!(small().execute("+[.]"), Err(BrainfuckError::MaxStepsExceeded));
    assert_eq!(small().execute("+[ comment ]"), Err(BrainfuckError::MaxStepsExceeded));
}

#[test]
fn step_budget_counts_every_character() {
    let mut interpreter = BrainfuckInterpreter::with_limits(10, 3);
    assert_eq!(interpreter.execute("++."), Ok("\u{2}".to_string()));
    assert_eq!(interpreter.execute("++.."), Err(BrainfuckError::MaxStepsExceeded));
    assert_eq!(interpreter.execute("+ +."), Err(BrainfuckError::MaxStepsExceeded));
    assert_eq!(MAX_STEPS, 1_000_000);
}

#[test]
fn each_run_starts_fresh() {
    let mut interpreter = small();
    assert_eq!(interpreter.execute("+++>.<."), Ok("\u{0}\u{3}".to_string()));
    assert_eq!(interpreter.execute("+++>.<."), Ok("\u{0}\u{3}".to_string()));
}

#[test]
fn end_to_end_hello_world() {
    let code = "++++++++++[>+++++++>++++++++++>+++>+<<<<-]>++.>+.+++++++..+++.>++.<<+++++++++++++++.>.+++.------.--------.>+.>.";
    assert_eq!(brainfuck(code), Ok("Hello World!\n".to_string()));
}

#[test]
fn end_to_end_empty_program() {
    assert_eq!(brainfuck(""), Ok(String::new()));
}

#[test]
fn end_to_end_skipped_loop() {
    assert_eq!(
        brainfuck("[++++++++++++++]+++++[>+++++++++++++<-]>."),
        Ok("A".to_string())
    );
}

#[test]
fn end_to_end_errors() {
    assert_eq!(brainfuck(","), Err(BrainfuckError::InputNotSupported));
    assert_eq!(brainfuck("<"), Err(BrainfuckError::PointerUnderflow));
}
