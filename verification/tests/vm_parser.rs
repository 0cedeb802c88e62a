use hack_toolchain::vm::command::{
    parse_arithmetic, parse_segment, ArithmeticOp, Command, CommandType, Segment,
};
use hack_toolchain::vm::parser::{classify, parse_line, ParseError, Parser};

fn lines(text: &[&str]) -> Vec<String> {
    text.iter().map(|l| l.to_string()).collect()
}

#[test]
fn push_and_pop_carry_segment_and_index() {
    match parse_line("push constant 7") {
        Ok(Some(Command::Push { segment, index })) => {
            assert_eq!(segment, Segment::Constant);
            assert_eq!(index, 7);
        }
        other => panic!("unexpected {:?}", other),
    }
    match parse_line("pop local 2") {
        Ok(Some(Command::Pop { segment, index })) => {
            assert_eq!(segment, Segment::Local);
            assert_eq!(index, 2);
        }
        other => panic!("unexpected {:?}", other),
    }
}

#[test]
fn every_segment_name_is_read() {
    let names = [
        ("argument", Segment::Argument),
        ("local", Segment::Local),
        ("static", Segment::Static),
        ("constant", Segment::Constant),
        ("this", Segment::This),
        ("that", Segment::That),
        ("pointer", Segment::Pointer),
        ("temp", Segment::Temp),
    ];
    for (name, segment) in names {
        assert_eq!(parse_segment(name), Some(segment));
        assert_eq!(segment.text(), name);
    }
    assert_eq!(parse_segment("heap"), None);
    assert_eq!(parse_segment("Local"), None);
    assert_eq!(parse_segment(""), None);
}

#[test]
fn every_arithmetic_name_is_read() {
    let names = [
        ("add", ArithmeticOp::Add),
        ("sub", ArithmeticOp::Sub),
        ("neg", ArithmeticOp::Neg),
        ("eq", ArithmeticOp::Eq),
        ("gt", ArithmeticOp::Gt),
        ("lt", ArithmeticOp::Lt),
        ("and", ArithmeticOp::And),
        ("or", ArithmeticOp::Or),
        ("not", ArithmeticOp::Not),
    ];
    for (name, op) in names {
        assert_eq!(parse_arithmetic(name), Some(op));
        assert_eq!(op.text(), name);
        match parse_line(name) {
            Ok(Some(Command::Arithmetic { op: read })) => assert_eq!(read, op),
            other => panic!("unexpected {:?}", other),
        }
    }
    assert_eq!(parse_arithmetic("mul"), None);
}

#[test]
fn branching_commands_carry_their_label() {
    match parse_line("label LOOP") {
        Ok(Some(Command::Label { name })) => assert_eq!(name, "LOOP"),
        other => panic!("unexpected {:?}", other),
    }
    match parse_line("goto LOOP") {
        Ok(Some(Command::Goto { name })) => assert_eq!(name, "LOOP"),
        other => panic!("unexpected {:?}", other),
    }
    match parse_line("if-goto END") {
        Ok(Some(Command::IfGoto { name })) => assert_eq!(name, "END"),
        other => panic!("unexpected {:?}", other),
    }
}

#[test]
fn function_call_and_return_are_read() {
    match parse_line("function Main.fibonacci 3") {
        Ok(Some(Command::Function { name, n_locals })) => {
            assert_eq!(name, "Main.fibonacci");
            assert_eq!(n_locals, 3);
        }
        other => panic!("unexpected {:?}", other),
    }
    match parse_line("call Main.fibonacci 1") {
        Ok(Some(Command::Call { name, n_args })) => {
            assert_eq!(name, "Main.fibonacci");
            assert_eq!(n_args, 1);
        }
        other => panic!("unexpected {:?}", other),
    }
    assert!(matches!(parse_line("return"), Ok(Some(Command::Return))));
}

#[test]
fn empty_lines_and_comments_are_no_command() {
    assert!(matches!(parse_line(""), Ok(None)));
    assert!(matches!(parse_line("    "), Ok(None)));
    assert!(matches!(parse_line("// a comment"), Ok(None)));
    assert!(matches!(parse_line("   // an indented comment"), Ok(None)));
    assert!(matches!(parse_line("//push constant 1"), Ok(None)));
}

#[test]
fn trailing_comments_are_stripped() {
    match parse_line("push constant 7 // seven") {
        Ok(Some(Command::Push { segment, index })) => {
            assert_eq!(segment, Segment::Constant);
            assert_eq!(index, 7);
        }
        other => panic!("unexpected {:?}", other),
    }
    assert!(matches!(parse_line("return//done"), Ok(Some(Command::Return))));
}

#[test]
fn unknown_first_word_is_an_unknown_command() {
    assert!(matches!(parse_line("mul"), Err(ParseError::UnknownCommand)));
    assert!(matches!(parse_line("PUSH constant 1"), Err(ParseError::UnknownCommand)));
    assert!(matches!(parse_line("pushconstant 1"), Err(ParseError::UnknownCommand)));
    assert!(matches!(parse_line("7"), Err(ParseError::UnknownCommand)));
}

#[test]
fn wrong_number_of_arguments_is_an_arity_error() {
    assert!(matches!(parse_line("push constant"), Err(ParseError::Arity)));
    assert!(matches!(parse_line("push"), Err(ParseError::Arity)));
    assert!(matches!(parse_line("push constant 1 2"), Err(ParseError::Arity)));
    assert!(matches!(parse_line("pop local"), Err(ParseError::Arity)));
    assert!(matches!(parse_line("add 1"), Err(ParseError::Arity)));
    assert!(matches!(parse_line("label"), Err(ParseError::Arity)));
    assert!(matches!(parse_line("label A B"), Err(ParseError::Arity)));
    assert!(matches!(parse_line("goto"), Err(ParseError::Arity)));
    assert!(matches!(parse_line("if-goto"), Err(ParseError::Arity)));
    assert!(matches!(parse_line("function f"), Err(ParseError::Arity)));
    assert!(matches!(parse_line("call f"), Err(ParseError::Arity)));
    assert!(matches!(parse_line("call f 1 2"), Err(ParseError::Arity)));
    assert!(matches!(parse_line("return 1"), Err(ParseError::Arity)));
}

#[test]
fn a_missing_index_is_never_read_as_zero() {
    assert!(matches!(parse_line("push local"), Err(ParseError::Arity)));
    assert!(matches!(parse_line("function f"), Err(ParseError::Arity)));
}

#[test]
fn unknown_segment_is_reported() {
    assert!(matches!(parse_line("push heap 1"), Err(ParseError::UnknownSegment)));
    assert!(matches!(parse_line("pop R13 0"), Err(ParseError::UnknownSegment)));
}

#[test]
fn bad_numbers_are_reported() {
    assert!(matches!(parse_line("push local x"), Err(ParseError::InvalidIndex)));
    assert!(matches!(parse_line("push local -1"), Err(ParseError::InvalidIndex)));
    assert!(matches!(parse_line("call f two"), Err(ParseError::InvalidIndex)));
    assert!(matches!(parse_line("function f 1.5"), Err(ParseError::InvalidIndex)));
    assert!(matches!(
        parse_line("push constant 99999999999999999999999999"),
        Err(ParseError::InvalidIndex)
    ));
}

#[test]
fn classify_reads_words() {
    assert!(matches!(classify(&lines(&[])), Ok(None)));
    assert!(matches!(classify(&lines(&["return"])), Ok(Some(Command::Return))));
    assert!(matches!(classify(&lines(&["return", "x"])), Err(ParseError::Arity)));
}

#[test]
fn command_parts_follow_the_kind() {
    let push = Command::Push { segment: Segment::That, index: 5 };
    assert_eq!(push.command_type(), CommandType::C_PUSH);
    assert_eq!(push.arg1(), "that");
    assert_eq!(push.arg2(), Some(5));
    let add = Command::Arithmetic { op: ArithmeticOp::Add };
    assert_eq!(add.command_type(), CommandType::C_ARITHETIC);
    assert_eq!(add.arg1(), "add");
    assert_eq!(add.arg2(), None);
    let call = Command::Call { name: "f".to_string(), n_args: 2 };
    assert_eq!(call.command_type(), CommandType::C_CALL);
    assert_eq!(call.arg1(), "f");
    assert_eq!(call.arg2(), Some(2));
    let ret = Command::Return;
    assert_eq!(ret.command_type(), CommandType::C_RETURN);
    assert_eq!(ret.arg1(), "");
    assert_eq!(ret.arg2(), None);
    assert_eq!(CommandType::C_IF.text(), "C_IF");
    assert_eq!(CommandType::C_ARITHETIC.text(), "C_ARITHETIC");
    assert_eq!(CommandType::C_INIT.text(), "C_INIT");
}

#[test]
fn parser_walks_the_commands_of_a_unit() {
    let unit = lines(&["// header", "", "push constant 1", "   // between", "  add  ", ""]);
    let mut parser = Parser::new(&unit);
    assert_eq!(parser.command_type(), CommandType::C_INIT);
    assert!(parser.has_more_lines());
    assert_eq!(parser.advance(), Ok(true));
    assert_eq!(parser.line_number(), 3);
    assert_eq!(parser.command_type(), CommandType::C_PUSH);
    assert_eq!(parser.arg1(), "constant");
    assert_eq!(parser.arg2(), Some(1));
    assert_eq!(parser.next_line(), Ok("add".to_string()));
    assert_eq!(parser.line_number(), 5);
    assert_eq!(parser.command_type(), CommandType::C_ARITHETIC);
    assert_eq!(parser.arg1(), "add");
    assert_eq!(parser.arg2(), None);
    assert!(parser.has_more_lines());
    assert_eq!(parser.advance(), Ok(false));
    assert!(!parser.has_more_lines());
    assert_eq!(parser.command_type(), CommandType::C_INIT);
    assert!(parser.command().is_none());
    assert_eq!(parser.next_line(), Ok(String::new()));
}

#[test]
fn parser_stops_at_the_line_in_error() {
    let unit = lines(&["return", "", "jump somewhere", "return"]);
    let mut parser = Parser::new(&unit);
    assert_eq!(parser.advance(), Ok(true));
    assert_eq!(parser.advance(), Err(ParseError::UnknownCommand));
    assert_eq!(parser.line_number(), 2);
    assert_eq!(parser.command_type(), CommandType::C_INIT);
    assert_eq!(parser.advance(), Err(ParseError::UnknownCommand));
    assert_eq!(parser.line_number(), 2);
}

#[test]
fn parser_of_no_lines_has_nothing() {
    let unit = Vec::new();
    let mut parser = Parser::new(&unit);
    assert!(!parser.has_more_lines());
    assert_eq!(parser.advance(), Ok(false));
    assert_eq!(parser.arg1(), "");
    assert_eq!(parser.arg2(), None);
}
