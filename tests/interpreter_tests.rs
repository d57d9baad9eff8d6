use brainfuck_macro::{BrainfuckError, BrainfuckInterpreter};

#[test]
fn test_simple_output() {
    // 5 * 13 = 65 = 'A'
    let code = "+++++[>+++++++++++++<-]>.";
    let mut interpreter = BrainfuckInterpreter::new();
    let result = interpreter.execute(code).unwrap();
    assert_eq!(result, "A");
}

#[test]
fn test_loop() {
    let code = "+++++[>++++<-]>.";
    let mut interpreter = BrainfuckInterpreter::new();
    let result = interpreter.execute(code).unwrap();
    assert_eq!(result, "\u{14}");
}

#[test]
fn test_unmatched_open_bracket() {
    let code = "[++";
    let mut interpreter = BrainfuckInterpreter::new();
    let result = interpreter.execute(code);
    assert!(matches!(result, Err(BrainfuckError::UnmatchedOpenBracket(_))));
}

#[test]
fn test_unmatched_close_bracket() {
    let code = "++]";
    let mut interpreter = BrainfuckInterpreter::new();
    let result = interpreter.execute(code);
    assert!(matches!(result, Err(BrainfuckError::UnmatchedCloseBracket(_))));
}

#[test]
fn test_input_not_supported() {
    let code = ",";
    let mut interpreter = BrainfuckInterpreter::new();
    let result = interpreter.execute(code);
    assert!(matches!(result, Err(BrainfuckError::InputNotSupported)));
}

#[test]
fn test_pointer_underflow() {
    let code = "<";
    let mut interpreter = BrainfuckInterpreter::new();
    let result = interpreter.execute(code);
    assert!(matches!(result, Err(BrainfuckError::PointerUnderflow)));
}

#[test]
fn lib_test_nested_loops() {
    // 2 outer * 2 inner * 2 innermost = 8 in cell 2
    let code = "++[>++[>++<-]<-]>>.";
    let mut interpreter = BrainfuckInterpreter::new();
    let result = interpreter.execute(code).unwrap();
    assert_eq!(result, "\u{08}");
}

#[test]
fn test_comments() {
    let code = "This is a comment +++ with text . interspersed";
    let mut interpreter = BrainfuckInterpreter::new();
    let result = interpreter.execute(code).unwrap();
    assert_eq!(result, "\u{03}");
}

#[test]
fn test_wrapping() {
    // 0 - 8 wraps to 248
    let code = "--------.";
    let mut interpreter = BrainfuckInterpreter::new();
    let result = interpreter.execute(code).unwrap();
    assert_eq!(result, "\u{f8}");
}
