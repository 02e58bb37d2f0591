use bcinterpreter::execute_unary;
use bcinterpreter::unquote_var;
use bcinterpreter::Error;
use bcinterpreter::Interpreter;

#[test]
fn empty_program_returns_zero() {
    let mut ip = Interpreter::new("");
    assert_eq!(0, ip.run().unwrap());
}

#[test]
fn falling_off_the_end_returns_zero() {
    let mut ip = Interpreter::new("LOAD_VAL 1");
    assert_eq!(0, ip.run().unwrap());
}

#[test]
fn subtraction_is_top_minus_under() {
    // The value pushed most recently is the left operand.
    let bytecode = "LOAD_VAL 2
                    LOAD_VAL 10
                    SUBTRACT
                    RETURN_VALUE";
    let mut ip = Interpreter::new(bytecode);
    assert_eq!(8, ip.run().unwrap());
}

#[test]
fn division_truncates_toward_zero() {
    let bytecode = "LOAD_VAL 3
                    LOAD_VAL -7
                    DIVIDE
                    RETURN_VALUE";
    let mut ip = Interpreter::new(bytecode);
    assert_eq!(-2, ip.run().unwrap());
}

#[test]
fn division_by_zero_is_internal() {
    let bytecode = "LOAD_VAL 0
                    LOAD_VAL 1
                    DIVIDE
                    RETURN_VALUE";
    let mut ip = Interpreter::new(bytecode);
    let err = ip.run().unwrap_err();
    assert!(matches!(err, Error::Internal { .. }));
}

#[test]
fn addition_overflow_is_internal() {
    let bytecode = "LOAD_VAL 2147483647
                    LOAD_VAL 1
                    ADD
                    RETURN_VALUE";
    let mut ip = Interpreter::new(bytecode);
    let err = ip.run().unwrap_err();
    assert!(matches!(err, Error::Internal { .. }));
}

#[test]
fn plus_sign_and_extreme_literals() {
    let mut ip = Interpreter::new("LOAD_VAL +5\nRETURN_VALUE");
    assert_eq!(5, ip.run().unwrap());
    let mut ip = Interpreter::new("LOAD_VAL -2147483648\nRETURN_VALUE");
    assert_eq!(-2147483648, ip.run().unwrap());
}

#[test]
fn out_of_range_literal_is_syntax() {
    let mut ip = Interpreter::new("LOAD_VAL 2147483648\nRETURN_VALUE");
    assert!(matches!(ip.run().unwrap_err(), Error::Syntax { .. }));
    let mut ip = Interpreter::new("LOAD_VAL --1\nRETURN_VALUE");
    assert!(matches!(ip.run().unwrap_err(), Error::Syntax { .. }));
}

#[test]
fn wrong_argument_count_is_syntax() {
    let mut ip = Interpreter::new("LOAD_VAL\nRETURN_VALUE");
    match ip.run().unwrap_err() {
        Error::Syntax(m) => {
            assert_eq!(m, "LOAD_VAL: invalid number of arguments - 1 required, but 0 provided")
        },
        other => panic!("expected a syntax error, got {:?}", other),
    }
    let mut ip = Interpreter::new("LOAD_VAL 1 2\nRETURN_VALUE");
    match ip.run().unwrap_err() {
        Error::Syntax(m) => {
            assert_eq!(m, "LOAD_VAL: invalid number of arguments - 1 required, but 2 provided")
        },
        other => panic!("expected a syntax error, got {:?}", other),
    }
}

#[test]
fn unquoted_variable_name_is_syntax() {
    let bytecode = "LOAD_VAL 1
                    WRITE_VAR x";
    let mut ip = Interpreter::new(bytecode);
    assert!(matches!(ip.run().unwrap_err(), Error::Syntax { .. }));
}

#[test]
fn write_var_on_empty_stack_is_internal() {
    let mut ip = Interpreter::new("WRITE_VAR 'x'");
    assert!(matches!(ip.run().unwrap_err(), Error::Internal { .. }));
}

#[test]
fn overwriting_a_variable_keeps_the_last_value() {
    let bytecode = "LOAD_VAL 1
                    WRITE_VAR 'x'
                    LOAD_VAL 2
                    WRITE_VAR 'x'
                    READ_VAR 'x'
                    RETURN_VALUE";
    let mut ip = Interpreter::new(bytecode);
    assert_eq!(2, ip.run().unwrap());
}

#[test]
fn invalid_op_error_names_the_token() {
    let mut ip = Interpreter::new("sldfj39h7#&");
    match ip.run().unwrap_err() {
        Error::InvalidOp(tok) => assert_eq!(tok, "sldfj39h7#&"),
        other => panic!("expected an invalid-operation error, got {:?}", other),
    }
}

#[test]
fn jump_with_equal_values_but_no_end_is_syntax() {
    let bytecode = "LOAD_VAL 1
                    LOAD_VAL 1
                    JUMP_IF_EQ
                    RETURN_VALUE";
    let mut ip = Interpreter::new(bytecode);
    assert!(matches!(ip.run().unwrap_err(), Error::Syntax { .. }));
}

#[test]
fn end_without_jump_is_syntax() {
    let bytecode = "LOAD_VAL 1
                    END";
    let mut ip = Interpreter::new(bytecode);
    assert!(matches!(ip.run().unwrap_err(), Error::Syntax { .. }));
}

#[test]
fn rerunning_a_program_from_fresh_instances_agrees() {
    let bytecode = "LOAD_VAL 1
                    WRITE_VAR 'x'
                    LOAD_VAL 4
                    READ_VAR 'x'
                    JUMP_IF_EQ
                    LOAD_VAL 1
                    READ_VAR 'x'
                    ADD
                    WRITE_VAR 'x'
                    END
                    READ_VAR 'x'
                    RETURN_VALUE";
    let first = Interpreter::new(bytecode).run().unwrap();
    let second = Interpreter::new(bytecode).run().unwrap();
    assert_eq!(first, second);
    assert_eq!(4, first);
}

#[test]
fn jump_skips_to_after_the_nearest_end() {
    // When the comparison holds at once, everything up to END is skipped.
    let bytecode = "LOAD_VAL 7
                    LOAD_VAL 7
                    JUMP_IF_EQ
                    LOAD_VAL 1
                    WRITE_VAR 'x'
                    END
                    LOAD_VAL 42
                    RETURN_VALUE";
    let mut ip = Interpreter::new(bytecode);
    assert_eq!(42, ip.run().unwrap());
}

#[test]
fn jump_target_is_found_by_its_opcode() {
    // A line whose opcode is END is a jump target even with trailing tokens.
    let bytecode = "LOAD_VAL 3
                    LOAD_VAL 3
                    JUMP_IF_EQ
                    END x
                    LOAD_VAL 9
                    RETURN_VALUE";
    let mut ip = Interpreter::new(bytecode);
    assert_eq!(9, ip.run().unwrap());
}

#[test]
fn unquote_accepts_only_quoted_names() {
    assert_eq!(Some("x"), unquote_var("'x'"));
    assert_eq!(Some("a'b"), unquote_var("'a'b'"));
    assert_eq!(None, unquote_var("''"));
    assert_eq!(None, unquote_var("x"));
    assert_eq!(None, unquote_var("'x"));
}

#[test]
fn execute_unary_checks_the_argument_count() {
    let ins: Vec<String> = vec!["LOAD_VAL".to_string(), "1".to_string()];
    assert!(matches!(execute_unary(&ins), Ok("1")));
    let ins: Vec<String> = vec!["WRITE_VAR".to_string()];
    match execute_unary(&ins) {
        Err(Error::Syntax(m)) => {
            assert_eq!(m, "WRITE_VAR: invalid number of arguments - 1 required, but 0 provided")
        },
        other => panic!("expected a syntax error, got {:?}", other),
    }
    let ins: Vec<String> = vec!["READ_VAR".to_string(), "'x'".to_string(), "y".to_string()];
    match execute_unary(&ins) {
        Err(Error::Syntax(m)) => {
            assert_eq!(m, "READ_VAR: invalid number of arguments - 1 required, but 2 provided")
        },
        other => panic!("expected a syntax error, got {:?}", other),
    }
    let mut ins: Vec<String> = vec!["LOAD_VAL".to_string()];
    for _ in 0..11 {
        ins.push("1".to_string());
    }
    match execute_unary(&ins) {
        Err(Error::Syntax(m)) => {
            assert_eq!(m, "LOAD_VAL: invalid number of arguments - 1 required, but 11 provided")
        },
        other => panic!("expected a syntax error, got {:?}", other),
    }
}
