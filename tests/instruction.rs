use recurrence::{get_operations, is_float_literal, Instruction, Operation, ParseError};

#[test]
fn can_parse_instruction() {
    assert!("+3".parse::<Instruction>().is_ok());
}

#[test]
fn parses_each_operator() {
    let cases = [
        ("+3", Operation::Add, "3"),
        ("-1.5", Operation::Subtract, "1.5"),
        ("*2", Operation::Multiply, "2"),
        ("/0.25", Operation::Divide, "0.25"),
    ];
    for (token, op, operand) in cases {
        let i = Instruction::parse(token).unwrap();
        assert_eq!(i.operation, op);
        assert_eq!(i.operand, operand);
    }
}

#[test]
fn round_trips_operator_and_operand() {
    let ops = [
        ('+', Operation::Add),
        ('-', Operation::Subtract),
        ('*', Operation::Multiply),
        ('/', Operation::Divide),
    ];
    let operands = ["0", "42", "-7", "+1.5", ".5", "3.", "6.02e23", "1E-3", "-2.5e+10"];
    for (sym, op) in ops {
        for operand in operands {
            let token = format!("{}{}", sym, operand);
            let i: Instruction = token.parse().unwrap();
            assert_eq!(i.operation, op);
            assert_eq!(i.operand, operand);
        }
    }
}

#[test]
fn rejects_unknown_operator() {
    for token in ["", "x3", "3", "^2", "%1", " +1", "é5", "ab"] {
        assert_eq!(Instruction::parse(token).unwrap_err(), ParseError::InvalidOperator);
    }
}

#[test]
fn rejects_non_numeric_operand() {
    for token in ["+", "-abc", "*1.2.3", "/1e", "+.", "-e5", "*1e+", "+inf", "-NaN", "/ 1", "+1 "] {
        assert_eq!(Instruction::parse(token).unwrap_err(), ParseError::InvalidOperand);
    }
}

#[test]
fn float_literal_grammar() {
    for s in ["0", "12", "-3", "+4", ".5", "5.", "1.25", "1e9", "2E-3", "1.e2", ".5e+1"] {
        assert!(is_float_literal(s), "{}", s);
    }
    for s in ["", "+", "-", ".", "e1", "1e", "1e-", "1.2.3", "--1", "1f", "inf", "NaN", "1_000"] {
        assert!(!is_float_literal(s), "{}", s);
    }
}

#[test]
fn sample_operations_double_then_increment() {
    let ops = get_operations();
    assert_eq!(ops.len(), 2);
    assert_eq!(ops[0].operation, Operation::Multiply);
    assert_eq!(ops[0].operand, "2");
    assert_eq!(ops[1].operation, Operation::Add);
    assert_eq!(ops[1].operand, "1");
}
