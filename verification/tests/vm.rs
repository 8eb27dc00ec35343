use rlox::report::runtime_error;
use rlox::{Arithmetic, Chunk, Constant, Fault, InterpretResult, LoxValue, NumberRequest, Object};
use rlox::{OpCodes, Signal, VM};

fn answer(request: &NumberRequest) -> u64 {
    match request {
        NumberRequest::Parse(digits) => {
            let text = std::str::from_utf8(digits).unwrap();
            text.parse::<f64>().unwrap().to_bits()
        }
        NumberRequest::Binary { op, left, right } => {
            let a = f64::from_bits(*left);
            let b = f64::from_bits(*right);
            let result = match op {
                Arithmetic::Add => a + b,
                Arithmetic::Subtract => a - b,
                Arithmetic::Multiply => a * b,
                Arithmetic::Divide => a / b,
            };
            result.to_bits()
        }
    }
}

fn show(value: &LoxValue) -> String {
    match value {
        LoxValue::Number(bits) => format!("{}", f64::from_bits(*bits)),
        other => String::from_utf8(other.text().unwrap()).unwrap(),
    }
}

fn drive(vm: &mut VM, chunk: &Chunk, first: Signal) -> Signal {
    let mut signal = first;
    loop {
        match signal {
            Signal::Number(request) => signal = vm.resume(chunk, answer(&request)),
            done => return done,
        }
    }
}

/// What a program prints, what it reports, and how it ends.
fn interpret(vm: &mut VM, source: &str) -> (InterpretResult, String, String) {
    match vm.interpret(source) {
        Err(diagnostic) => {
            let text = String::from_utf8(diagnostic.render()).unwrap();
            (InterpretResult::CompileError, String::new(), text)
        }
        Ok((chunk, first)) => match drive(vm, &chunk, first) {
            Signal::Return(value) => (InterpretResult::Success, show(&value), String::new()),
            Signal::RuntimeError { fault, line } => {
                let text = String::from_utf8(runtime_error(fault, line)).unwrap();
                (InterpretResult::RuntimeError, String::new(), text)
            }
            Signal::Number(_) => unreachable!(),
        },
    }
}

fn output(source: &str) -> String {
    let mut vm = VM::new();
    let (result, out, err) = interpret(&mut vm, source);
    assert_eq!(result, InterpretResult::Success, "{}", err);
    assert_eq!(vm.stack_top(), 0);
    out
}

#[test]
fn scenario_nested_arithmetic() {
    let mut vm = VM::new();
    let (result, out, _) = interpret(&mut vm, "-((1.2 + 3.4) / 2)");
    assert_eq!(out, "-2.3");
    assert_eq!(result.exit_code(), 0);
}

#[test]
fn scenario_comparison_and_logic() {
    let mut vm = VM::new();
    let (result, out, _) = interpret(&mut vm, "!(5 - 4 > 3 * 2 == !null)");
    assert_eq!(out, "true");
    assert_eq!(result.exit_code(), 0);
}

#[test]
fn scenario_string_concatenation() {
    let mut vm = VM::new();
    let (result, out, _) = interpret(&mut vm, "\"st\" + \"ring\"");
    assert_eq!(out, "string");
    assert_eq!(result.exit_code(), 0);
}

#[test]
fn scenario_type_error() {
    let mut vm = VM::new();
    let (result, out, err) = interpret(&mut vm, "1 + \"a\"");
    assert_eq!(out, "");
    assert_eq!(err, "Values have incompatible types.\n[line 1] in script.");
    assert_eq!(result, InterpretResult::RuntimeError);
    assert_eq!(result.exit_code(), 70);
    assert_eq!(vm.stack_top(), 0);
}

#[test]
fn scenario_unclosed_grouping() {
    let mut vm = VM::new();
    let (result, out, err) = interpret(&mut vm, "(1 + 2");
    assert_eq!(out, "");
    assert_eq!(err, "[Line 1] Error at end: Expected closing ')' after expression.");
    assert_eq!(result, InterpretResult::CompileError);
    assert_eq!(result.exit_code(), 65);
}

#[test]
fn scenario_comparison_equals_boolean() {
    let mut vm = VM::new();
    let (result, out, _) = interpret(&mut vm, "1 < 2 == true");
    assert_eq!(out, "true");
    assert_eq!(result.exit_code(), 0);
}

#[test]
fn subtraction_groups_to_the_left() {
    assert_eq!(output("1 - 2 - 3"), "-4");
    assert_eq!(output("8 / 4 / 2"), "1");
}

#[test]
fn factors_bind_tighter_than_terms() {
    assert_eq!(output("1 + 2 * 3"), "7");
    assert_eq!(output("(1 + 2) * 3"), "9");
    assert_eq!(output("2 * 3 + 1"), "7");
    assert_eq!(output("10 - 6 / 2"), "7");
}

#[test]
fn unary_binds_tighter_than_binary() {
    assert_eq!(output("-2 * 3"), "-6");
    assert_eq!(output("-(2 * 3)"), "-6");
    assert_eq!(output("!true == !(true)"), "true");
    assert_eq!(output("!true == false"), "true");
    assert_eq!(output("--2"), "2");
    assert_eq!(output("!!null"), "false");
}

#[test]
fn derived_comparisons_are_negations() {
    for (a, b) in [("1", "2"), ("2", "1"), ("2", "2"), ("0", "0.5")] {
        assert_eq!(output(&format!("{a} != {b}")), output(&format!("!({a} == {b})")));
        assert_eq!(output(&format!("{a} <= {b}")), output(&format!("!({a} > {b})")));
        assert_eq!(output(&format!("{a} >= {b}")), output(&format!("!({a} < {b})")));
    }
    assert_eq!(output("1 <= 1"), "true");
    assert_eq!(output("1 >= 2"), "false");
    assert_eq!(output("1 != 1"), "false");
    assert_eq!(output("\"a\" != \"b\""), "true");
}

#[test]
fn operands_keep_their_order() {
    assert_eq!(output("3 - 1"), "2");
    assert_eq!(output("1 / 4"), "0.25");
    assert_eq!(output("1 < 2"), "true");
    assert_eq!(output("1 > 2"), "false");
    assert_eq!(output("\"a\" + \"b\""), "ab");
}

#[test]
fn equality_across_types_is_false() {
    assert_eq!(output("1 == true"), "false");
    assert_eq!(output("null == false"), "false");
    assert_eq!(output("\"1\" == 1"), "false");
    assert_eq!(output("null == null"), "true");
    assert_eq!(output("\"a\" == \"a\""), "true");
    assert_eq!(output("\"a\" == \"b\""), "false");
    assert_eq!(output("0 == \"\""), "false");
}

#[test]
fn truthiness() {
    assert_eq!(output("!null"), "true");
    assert_eq!(output("!false"), "true");
    assert_eq!(output("!true"), "false");
    assert_eq!(output("!0"), "false");
    assert_eq!(output("!\"\""), "false");
}

#[test]
fn division_by_zero_is_no_error() {
    assert_eq!(output("1 / 0"), "inf");
    assert_eq!(output("-1 / 0"), "-inf");
    assert_eq!(output("0 / 0"), "NaN");
    assert_eq!(output("0 / 0 == 0 / 0"), "false");
    assert_eq!(output("0 / 0 != 0 / 0"), "true");
    assert_eq!(output("0 == -0"), "true");
}

#[test]
fn values_print() {
    assert_eq!(output("null"), "null");
    assert_eq!(output("true"), "true");
    assert_eq!(output("false"), "false");
    assert_eq!(output("1.50"), "1.5");
    assert_eq!(output("\"\""), "");
    assert_eq!(output("'single'"), "single");
}

#[test]
fn runtime_errors() {
    let mut vm = VM::new();
    let (result, _, err) = interpret(&mut vm, "-true");
    assert_eq!(result, InterpretResult::RuntimeError);
    assert_eq!(err, "Value must be a number.\n[line 1] in script.");

    let (result, _, err) = interpret(&mut vm, "1 <\n\"a\"");
    assert_eq!(result, InterpretResult::RuntimeError);
    assert_eq!(err, "Values must be numbers.\n[line 2] in script.");

    let (result, _, err) = interpret(&mut vm, "null > 1");
    assert_eq!(result, InterpretResult::RuntimeError);
    assert_eq!(err, "Values must be numbers.\n[line 1] in script.");

    for source in ["\"a\" - \"b\"", "\"a\" * 2", "true / false", "null + null"] {
        let (result, _, err) = interpret(&mut vm, source);
        assert_eq!(result, InterpretResult::RuntimeError);
        assert_eq!(err, "Values have incompatible types.\n[line 1] in script.");
        assert_eq!(vm.stack_top(), 0);
    }
}

#[test]
fn a_machine_is_reused() {
    let mut vm = VM::new();
    assert_eq!(interpret(&mut vm, "1 + 1").1, "2");
    assert_eq!(interpret(&mut vm, "1 +").0, InterpretResult::CompileError);
    assert_eq!(interpret(&mut vm, "-null").0, InterpretResult::RuntimeError);
    assert_eq!(interpret(&mut vm, "2 * 2").1, "4");
    assert_eq!(vm.stack_top(), 0);
}

#[test]
fn deep_nesting_overflows_the_stack() {
    let mut source = String::new();
    for _ in 0..300 {
        source.push_str("true == (");
    }
    source.push_str("true");
    for _ in 0..300 {
        source.push(')');
    }
    let mut vm = VM::new();
    let (result, _, err) = interpret(&mut vm, &source);
    assert_eq!(result, InterpretResult::RuntimeError);
    assert_eq!(err, "Stack overflow.\n[line 1] in script.");
    assert_eq!(vm.stack_top(), 0);
}

#[test]
fn nesting_up_to_the_stack_size_runs() {
    let mut source = String::new();
    for _ in 0..255 {
        source.push_str("true == (");
    }
    source.push_str("true");
    for _ in 0..255 {
        source.push(')');
    }
    assert_eq!(output(&source), "true");
}

#[test]
fn push_then_pop_gives_the_value_back() {
    let mut vm = VM::new();
    vm.push(LoxValue::Number(7));
    vm.push(LoxValue::Object(Object::String(b"text".to_vec())));
    assert_eq!(vm.stack_top(), 2);
    match vm.pop() {
        LoxValue::Object(Object::String(bytes)) => assert_eq!(bytes, b"text".to_vec()),
        _ => panic!("not the string"),
    }
    match vm.pop() {
        LoxValue::Number(bits) => assert_eq!(bits, 7),
        _ => panic!("not the number"),
    }
    assert_eq!(vm.stack_top(), 0);
    vm.push(LoxValue::Null);
    vm.reset_stack();
    assert_eq!(vm.stack_top(), 0);
}

fn chunk_of(bytes: &[u8], values: Vec<Constant>) -> Chunk {
    let mut chunk = Chunk::new();
    for byte in bytes {
        chunk.write_byte(*byte, 9);
    }
    for value in values {
        chunk.add_constant(value);
    }
    chunk
}

#[test]
fn hand_written_chunk_runs() {
    let chunk = chunk_of(
        &[OpCodes::OP_CONSTANT, 0, OpCodes::OP_CONSTANT, 1, OpCodes::OP_ADD, OpCodes::OP_RETURN],
        vec![Constant::String(b"ab".to_vec()), Constant::String(b"cd".to_vec())],
    );
    let mut vm = VM::new();
    match vm.run(&chunk) {
        Signal::Return(LoxValue::Object(Object::String(bytes))) => assert_eq!(bytes, b"abcd".to_vec()),
        _ => panic!("no string"),
    }
    assert_eq!(vm.stack_top(), 0);
}

#[test]
fn number_constant_asks_for_its_value() {
    let chunk = chunk_of(
        &[OpCodes::OP_CONSTANT, 0, OpCodes::OP_NEGATE, OpCodes::OP_RETURN],
        vec![Constant::Number(b"2.5".to_vec())],
    );
    let mut vm = VM::new();
    match vm.run(&chunk) {
        Signal::Number(NumberRequest::Parse(digits)) => assert_eq!(digits, b"2.5".to_vec()),
        _ => panic!("no request"),
    }
    match vm.resume(&chunk, 2.5f64.to_bits()) {
        Signal::Return(LoxValue::Number(bits)) => assert_eq!(f64::from_bits(bits), -2.5),
        _ => panic!("no number"),
    }
}

#[test]
fn arithmetic_asks_with_the_left_operand_first() {
    let chunk = chunk_of(
        &[OpCodes::OP_CONSTANT, 0, OpCodes::OP_CONSTANT, 1, OpCodes::OP_SUBSTRACT, OpCodes::OP_RETURN],
        vec![Constant::Number(b"5".to_vec()), Constant::Number(b"3".to_vec())],
    );
    let mut vm = VM::new();
    assert!(matches!(vm.run(&chunk), Signal::Number(NumberRequest::Parse(_))));
    assert!(matches!(vm.resume(&chunk, 5f64.to_bits()), Signal::Number(NumberRequest::Parse(_))));
    match vm.resume(&chunk, 3f64.to_bits()) {
        Signal::Number(NumberRequest::Binary { op, left, right }) => {
            assert_eq!(op, Arithmetic::Subtract);
            assert_eq!(f64::from_bits(left), 5.0);
            assert_eq!(f64::from_bits(right), 3.0);
        }
        _ => panic!("no request"),
    }
    assert_eq!(vm.stack_top(), 0);
}

#[test]
fn malformed_chunks_fail_without_a_panic() {
    let wrong: Vec<Vec<u8>> = vec![
        vec![],
        vec![OpCodes::OP_RETURN],
        vec![OpCodes::OP_TRUE],
        vec![OpCodes::OP_CONSTANT],
        vec![OpCodes::OP_CONSTANT, 3, OpCodes::OP_RETURN],
        vec![OpCodes::OP_NOT, OpCodes::OP_RETURN],
        vec![OpCodes::OP_TRUE, OpCodes::OP_EQUAL, OpCodes::OP_RETURN],
        vec![OpCodes::OP_NEGATE],
    ];
    for bytes in wrong {
        let chunk = chunk_of(&bytes, vec![]);
        let mut vm = VM::new();
        match vm.run(&chunk) {
            Signal::RuntimeError { fault, .. } => assert_eq!(fault, Fault::Malformed),
            _ => panic!("ran"),
        }
        assert_eq!(vm.stack_top(), 0);
    }
}

#[test]
fn unknown_bytes_do_nothing() {
    let chunk = chunk_of(&[200, OpCodes::OP_TRUE, 14, OpCodes::OP_RETURN], vec![]);
    let mut vm = VM::new();
    assert!(matches!(vm.run(&chunk), Signal::Return(LoxValue::Bool(true))));
}

#[test]
fn exit_codes() {
    assert_eq!(InterpretResult::Success.exit_code(), 0);
    assert_eq!(InterpretResult::CompileError.exit_code(), 65);
    assert_eq!(InterpretResult::RuntimeError.exit_code(), 70);
}

#[test]
fn signals_map_to_results() {
    assert_eq!(Signal::Return(LoxValue::Null).result(), Some(InterpretResult::Success));
    assert_eq!(
        Signal::RuntimeError { fault: Fault::NotANumber, line: 1 }.result(),
        Some(InterpretResult::RuntimeError)
    );
    assert_eq!(Signal::Number(NumberRequest::Parse(vec![0x31])).result(), None);
}

#[test]
fn fault_messages() {
    assert_eq!(Fault::NotANumber.message(), b"Value must be a number.");
    assert_eq!(Fault::Incompatible.message(), b"Values have incompatible types.");
    assert_eq!(Fault::NotNumbers.message(), b"Values must be numbers.");
    assert_eq!(Fault::StackOverflow.message(), b"Stack overflow.");
    assert_eq!(Fault::Malformed.message(), b"Malformed bytecode.");
}

#[test]
fn resume_on_a_full_stack_overflows() {
    let chunk = chunk_of(&[OpCodes::OP_RETURN], vec![]);
    let mut vm = VM::new();
    for _ in 0..256 {
        vm.push(LoxValue::Null);
    }
    assert_eq!(vm.stack_top(), 256);
    match vm.resume(&chunk, 1f64.to_bits()) {
        Signal::RuntimeError { fault, line } => {
            assert_eq!(fault, Fault::StackOverflow);
            assert_eq!(line, 0);
        }
        _ => panic!("ran"),
    }
    assert_eq!(vm.stack_top(), 0);
}

#[test]
fn steps_go_one_instruction_at_a_time() {
    let chunk = chunk_of(
        &[OpCodes::OP_TRUE, OpCodes::OP_NULL, OpCodes::OP_EQUAL, OpCodes::OP_NOT, OpCodes::OP_RETURN],
        vec![],
    );
    let mut vm = VM::new();
    assert_eq!(vm.ip(), 0);
    assert!(vm.step(&chunk).is_none());
    assert_eq!((vm.ip(), vm.stack_top()), (1, 1));
    assert!(vm.step(&chunk).is_none());
    assert_eq!((vm.ip(), vm.stack_top()), (2, 2));
    assert!(matches!(vm.peek(0), LoxValue::Null));
    assert!(matches!(vm.peek(1), LoxValue::Bool(true)));
    assert!(vm.step(&chunk).is_none());
    assert_eq!((vm.ip(), vm.stack_top()), (3, 1));
    assert!(matches!(vm.peek(0), LoxValue::Bool(false)));
    assert!(vm.step(&chunk).is_none());
    assert!(matches!(vm.peek(0), LoxValue::Bool(true)));
    assert!(matches!(vm.step(&chunk), Some(Signal::Return(LoxValue::Bool(true)))));
    assert_eq!((vm.ip(), vm.stack_top()), (5, 0));
}

#[test]
fn runtime_error_names_the_line_of_the_instruction() {
    let mut chunk = Chunk::new();
    chunk.write_byte(OpCodes::OP_TRUE, 4);
    chunk.write_byte(OpCodes::OP_NEGATE, 5);
    chunk.write_byte(OpCodes::OP_RETURN, 6);
    let mut vm = VM::new();
    match vm.run(&chunk) {
        Signal::RuntimeError { fault, line } => {
            assert_eq!(fault, Fault::NotANumber);
            assert_eq!(line, 5);
        }
        _ => panic!("ran"),
    }
}

#[test]
fn requests_of_a_compiled_chunk_are_number_literals() {
    let mut vm = VM::new();
    let (chunk, mut signal) = vm.interpret("1.25 + 30 * 0.5").ok().unwrap();
    let mut asked = Vec::new();
    loop {
        match signal {
            Signal::Number(request) => {
                if let NumberRequest::Parse(digits) = &request {
                    asked.push(String::from_utf8(digits.clone()).unwrap());
                }
                signal = vm.resume(&chunk, answer(&request));
            }
            Signal::Return(value) => {
                assert_eq!(show(&value), "16.25");
                break;
            }
            Signal::RuntimeError { .. } => panic!("failed"),
        }
    }
    assert_eq!(asked, vec!["1.25", "30", "0.5"]);
}
