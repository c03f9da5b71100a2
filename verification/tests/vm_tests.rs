use lox_vm::compiler::compile;
use lox_vm::value::Value;
use lox_vm::vm::{Error, VM};

fn number(x: f64) -> Value {
    Value::Number(x.to_bits())
}

fn run(src: &str) -> Result<Option<Value>, Error> {
    let mut vm = VM::new();
    vm.interpret(src)
}

#[test]
fn one_plus_two_is_three() {
    assert_eq!(run("1 + 2").unwrap(), Some(number(3.0)));
}

#[test]
fn same_precedence_operators_associate_to_the_left() {
    assert_eq!(run("1 - 2 - 3").unwrap(), Some(number(-4.0)));
}

#[test]
fn factors_bind_tighter_than_terms() {
    assert_eq!(run("1 + 2 * 3").unwrap(), Some(number(7.0)));
    assert_eq!(run("(1 + 2) * 3").unwrap(), Some(number(9.0)));
}

#[test]
fn multiply_divide_and_negate_compute() {
    assert_eq!(run("2 * 3").unwrap(), Some(number(6.0)));
    assert_eq!(run("6 / 3").unwrap(), Some(number(2.0)));
    assert_eq!(run("-2").unwrap(), Some(number(-2.0)));
}

#[test]
fn comparisons_compute() {
    assert_eq!(run("1 < 2").unwrap(), Some(Value::Bool(true)));
    assert_eq!(run("2 < 1").unwrap(), Some(Value::Bool(false)));
    assert_eq!(run("2 > 1").unwrap(), Some(Value::Bool(true)));
    assert_eq!(run("1 > 2").unwrap(), Some(Value::Bool(false)));
}

#[test]
fn not_equal_compiles_to_equal_then_not() {
    let chunk = compile("1 != 2").unwrap();
    // Two 1-byte constant loads, then the synthesized pair.
    assert_eq!(chunk.len(), 6);
    assert_eq!(chunk.byte_at(4), 0x16, "an Equal instruction");
    assert_eq!(chunk.byte_at(5), 0x15, "then a Not instruction");
    assert_eq!(run("1 != 2").unwrap(), Some(Value::Bool(true)));
}

#[test]
fn less_or_equal_compiles_to_greater_then_not() {
    let chunk = compile("1 <= 1").unwrap();
    assert_eq!(chunk.len(), 6);
    assert_eq!(chunk.byte_at(4), 0x17, "a Greater instruction");
    assert_eq!(chunk.byte_at(5), 0x15, "then a Not instruction");
    assert_eq!(run("1 <= 1").unwrap(), Some(Value::Bool(true)));
}

#[test]
fn greater_or_equal_compiles_to_less_then_not() {
    let chunk = compile("2 >= 3").unwrap();
    assert_eq!(chunk.byte_at(4), 0x18, "a Less instruction");
    assert_eq!(chunk.byte_at(5), 0x15, "then a Not instruction");
    assert_eq!(run("2 >= 3").unwrap(), Some(Value::Bool(false)));
}

#[test]
fn zero_is_truthy_and_nil_and_false_are_falsy() {
    assert!(!number(0.0).is_falsy());
    assert!(Value::Bool(false).is_falsy());
    assert!(Value::Nil.is_falsy());
    assert!(!Value::Bool(true).is_falsy());

    assert_eq!(run("!0").unwrap(), Some(Value::Bool(false)));
    assert_eq!(run("!false").unwrap(), Some(Value::Bool(true)));
    assert_eq!(run("!nil").unwrap(), Some(Value::Bool(true)));
    assert_eq!(run("!true").unwrap(), Some(Value::Bool(false)));
}

#[test]
fn literals_evaluate_to_themselves() {
    assert_eq!(run("true").unwrap(), Some(Value::Bool(true)));
    assert_eq!(run("false").unwrap(), Some(Value::Bool(false)));
    assert_eq!(run("nil").unwrap(), Some(Value::Nil));
    assert_eq!(run("2.5").unwrap(), Some(number(2.5)));
}

#[test]
fn arithmetic_on_a_boolean_is_a_runtime_error() {
    match run("true + 1") {
        Err(Error::Runtime(msg)) => {
            assert_eq!(msg, "Binary operator `+` not applicable to value `true`");
        }
        other => panic!("expected a runtime error, got {:?}", other),
    }
}

#[test]
fn arithmetic_on_nil_is_a_runtime_error() {
    match run("nil - 1") {
        Err(Error::Runtime(msg)) => {
            assert_eq!(msg, "Binary operator `-` not applicable to value `nil`");
        }
        other => panic!("expected a runtime error, got {:?}", other),
    }
}

#[test]
fn negating_a_boolean_is_a_runtime_error() {
    match run("-true") {
        Err(Error::Runtime(msg)) => {
            assert_eq!(msg, "Unary operator `-` not applicable to value: true");
        }
        other => panic!("expected a runtime error, got {:?}", other),
    }
}

#[test]
fn a_lone_closing_paren_is_a_compile_error() {
    match run(")") {
        Err(Error::Compile(e)) => {
            assert_eq!(e.message, "Expected expression.");
            assert_eq!(e.source, ")");
            assert!(e.span.is_some());
        }
        other => panic!("expected a compile error, got {:?}", other),
    }
}

#[test]
fn an_unclosed_group_is_a_compile_error() {
    match run("(1 + 2") {
        Err(Error::Compile(e)) => {
            assert_eq!(e.message, "Expected `)`");
        }
        other => panic!("expected a compile error, got {:?}", other),
    }
}

#[test]
fn a_trailing_operator_is_a_compile_error() {
    match run("1 +") {
        Err(Error::Compile(e)) => {
            assert_eq!(e.message, "Expected expression.");
        }
        other => panic!("expected a compile error, got {:?}", other),
    }
}

#[test]
fn float_sums_compare_equal_within_epsilon() {
    assert_eq!(run("0.1 + 0.2").unwrap(), Some(number(0.3)));
    assert_eq!(run("0.1 + 0.2 == 0.3").unwrap(), Some(Value::Bool(true)));
    assert_eq!(number(0.1 + 0.2), number(0.3));
    assert_ne!(number(0.1), number(0.2));
}

#[test]
fn equality_is_total_across_variants() {
    assert_eq!(run("1 == 1").unwrap(), Some(Value::Bool(true)));
    assert_eq!(run("1 == 2").unwrap(), Some(Value::Bool(false)));
    assert_eq!(run("true == true").unwrap(), Some(Value::Bool(true)));
    assert_eq!(run("nil == nil").unwrap(), Some(Value::Bool(true)));
    assert_eq!(run("1 == true").unwrap(), Some(Value::Bool(false)));
    assert_eq!(run("nil == false").unwrap(), Some(Value::Bool(false)));
}

#[test]
fn an_empty_source_yields_no_value() {
    assert_eq!(run("").unwrap(), None);
    assert_eq!(run("   \n  ").unwrap(), None);
}

#[test]
fn the_stack_persists_across_interpret_calls() {
    let mut vm = VM::new();
    assert_eq!(vm.interpret("1 + 2").unwrap(), Some(number(3.0)));
    assert_eq!(vm.stack_size(), 0);
    assert_eq!(vm.interpret("4 * 5").unwrap(), Some(number(20.0)));
    vm.clear_stack();
    assert_eq!(vm.stack_size(), 0);
}

#[test]
fn a_compile_error_does_not_touch_the_stack() {
    let mut vm = VM::new();
    let _ = vm.interpret(")");
    assert_eq!(vm.stack_size(), 0);
}

#[test]
fn line_numbers_carry_into_the_chunk_one_based() {
    let chunk = compile("1 +\n2").unwrap();
    // The constant load for `1` sits on source line 1, the one for `2` on
    // line 2, and the Add carries its operator's line.
    assert_eq!(chunk.line_at(0), Some(1));
    assert_eq!(chunk.line_at(2), Some(2));
    assert_eq!(chunk.line_at(4), Some(1));
}

#[test]
fn an_unknown_instruction_byte_stops_the_run_as_a_compile_error() {
    let mut chunk = lox_vm::chunk::Chunk::new();
    chunk.extend(&[0x42], 1);
    let mut vm = VM::new();
    match vm.run(&chunk) {
        Err(Error::Compile(e)) => assert_eq!(e.message, "UNKNOWN: 0x42"),
        other => panic!("expected a compile error, got {:?}", other),
    }
}

#[test]
fn a_truncated_constant_load_stops_the_run_as_a_compile_error() {
    let mut chunk = lox_vm::chunk::Chunk::new();
    chunk.extend(&[0x00], 1);
    let mut vm = VM::new();
    match vm.run(&chunk) {
        Err(Error::Compile(e)) => assert_eq!(e.message, "Error locating value in the pool"),
        other => panic!("expected a compile error, got {:?}", other),
    }
}

#[test]
fn an_operator_without_operands_stops_the_run_as_a_compile_error() {
    let mut chunk = lox_vm::chunk::Chunk::new();
    chunk.write_instr(lox_vm::chunk::OpCode::Add, 1);
    let mut vm = VM::new();
    match vm.run(&chunk) {
        Err(Error::Compile(e)) => assert_eq!(e.message, "Operand stack underflow"),
        other => panic!("expected a compile error, got {:?}", other),
    }
}

#[test]
fn an_expression_deeper_than_the_stack_overflows_at_runtime() {
    let mut src = String::new();
    for _ in 0..300 {
        src.push_str("1 - (");
    }
    src.push('1');
    for _ in 0..300 {
        src.push(')');
    }
    let mut vm = VM::new();
    match vm.interpret(&src) {
        Err(Error::Runtime(msg)) => assert_eq!(msg, "Stack overflow"),
        other => panic!("expected a runtime overflow, got {:?}", other),
    }
}
