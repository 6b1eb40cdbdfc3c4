use rlox::chunk::{
    init_chunk, Chunk, OP_ADD, OP_CONSTANT, OP_EQUAL, OP_GREATER, OP_LESS, OP_MULTIPLY,
    OP_NEGATE, OP_NIL, OP_NOT, OP_RETURN, OP_SUBTRACT, OP_TRUE,
};
use rlox::compiler::Compiler;
use rlox::value::Value;
use rlox::vm::{interpret, ArithOp, InterpretResult, Interpretation, RuntimeErrorKind, Step, VM};

fn number_bits(s: &str) -> u64 {
    s.parse::<f64>().unwrap().to_bits()
}

fn arithmetic(op: ArithOp, a: u64, b: u64) -> u64 {
    let x = f64::from_bits(a);
    let y = f64::from_bits(b);
    let r = match op {
        ArithOp::Add => x + y,
        ArithOp::Subtract => x - y,
        ArithOp::Multiply => x * y,
        ArithOp::Divide => x / y,
    };
    r.to_bits()
}

fn run(source: &str) -> Interpretation {
    interpret(source.to_string(), number_bits, arithmetic)
}

fn shown(v: Value) -> String {
    match v {
        Value::Nil => "nil".to_string(),
        Value::Bool(b) => b.to_string(),
        Value::Number(n) => format!("{}", f64::from_bits(n)),
    }
}

fn printed(source: &str) -> String {
    let r = run(source);
    assert_eq!(r.result, InterpretResult::Success, "{:?}", r.diagnostics);
    shown(r.value.unwrap())
}

fn compiled(source: &str) -> (bool, Chunk, Vec<String>) {
    let mut compiler = Compiler::new(source.to_string(), init_chunk(), number_bits);
    let ok = compiler.compile();
    let (chunk, diagnostics) = compiler.finish();
    (ok, chunk, diagnostics)
}

fn constants(chunk: &Chunk) -> Vec<f64> {
    chunk
        .constants
        .iter()
        .map(|v| match v {
            Value::Number(n) => f64::from_bits(*n),
            _ => panic!("not a number"),
        })
        .collect()
}

#[test]
fn subtraction_groups_to_the_left() {
    let (ok, chunk, _) = compiled("5-3-1");
    assert!(ok);
    assert_eq!(
        chunk.code,
        vec![OP_CONSTANT, 0, OP_CONSTANT, 1, OP_SUBTRACT, OP_CONSTANT, 2, OP_SUBTRACT, OP_RETURN]
    );
    assert_eq!(constants(&chunk), vec![5.0, 3.0, 1.0]);
    assert_eq!(printed("5-3-1"), "1");
}

#[test]
fn factor_binds_tighter_than_term() {
    let (ok, chunk, _) = compiled("1+2*3");
    assert!(ok);
    assert_eq!(
        chunk.code,
        vec![OP_CONSTANT, 0, OP_CONSTANT, 1, OP_CONSTANT, 2, OP_MULTIPLY, OP_ADD, OP_RETURN]
    );
    assert_eq!(constants(&chunk), vec![1.0, 2.0, 3.0]);
    assert_eq!(printed("1+2*3"), "7");
}

#[test]
fn unary_binds_tighter_than_factor() {
    let (ok, chunk, _) = compiled("-2*3");
    assert!(ok);
    assert_eq!(
        chunk.code,
        vec![OP_CONSTANT, 0, OP_NEGATE, OP_CONSTANT, 1, OP_MULTIPLY, OP_RETURN]
    );
    assert_eq!(printed("-2*3"), "-6");
}

#[test]
fn grouping_and_double_negation() {
    assert_eq!(printed("(-1 + 2) * 3 - -4"), "7");
}

#[test]
fn comparison_equality_and_not() {
    assert_eq!(printed("!(5 - 4 > 3 * 2 == !nil)"), "true");
}

#[test]
fn falsiness() {
    assert_eq!(printed("!nil"), "true");
    assert_eq!(printed("!false"), "true");
    assert_eq!(printed("!0"), "false");
}

#[test]
fn division_by_zero_is_infinity() {
    assert_eq!(printed("1 / 0"), "inf");
}

#[test]
fn string_has_no_prefix_rule() {
    let r = run("\"abc\" + 1");
    assert_eq!(r.result, InterpretResult::CompileError);
    assert_eq!(r.diagnostics, vec!["[line 1] Error at '\"abc\"': Expect expression.".to_string()]);
    assert!(r.value.is_none());
}

#[test]
fn missing_close_paren() {
    let r = run("(1 + 2");
    assert_eq!(r.result, InterpretResult::CompileError);
    assert_eq!(r.diagnostics, vec!["[line 1] Error at end: Expect ')' after expression.".to_string()]);
}

#[test]
fn code_and_lines_stay_in_step() {
    for source in ["1", "1 +\n2 *\n3", "(", "!(5 - 4 > 3 * 2 == !nil)", "@", ""] {
        let (_, chunk, _) = compiled(source);
        assert_eq!(chunk.code.len(), chunk.lines.len());
    }
    let (_, chunk, _) = compiled("1 +\n2 *\n\n3");
    assert_eq!(chunk.lines, vec![1, 1, 2, 2, 4, 4, 4, 4, 4]);
}

#[test]
fn compiled_chunks_end_in_return() {
    for source in ["1", "-(2)", "1 <= 2", "(", "1 2", "nil != true"] {
        let (_, chunk, _) = compiled(source);
        assert_eq!(*chunk.code.last().unwrap(), OP_RETURN);
    }
}

#[test]
fn one_value_on_the_stack_at_return() {
    for source in ["1", "1 + 2 * 3 - 4 / 5", "!(1 < 2) == (3 >= 4)", "--1", "nil"] {
        let (ok, chunk, _) = compiled(source);
        assert!(ok);
        let mut vm = VM::new(chunk);
        loop {
            let depth = vm.stack_len();
            match vm.step() {
                Step::Continue => {}
                Step::Arithmetic(op, a, b) => vm.push_number(arithmetic(op, a, b)),
                Step::Return(_) => {
                    assert_eq!(depth, 1);
                    break;
                }
                Step::Fail(e) => panic!("{:?}", e),
            }
        }
    }
}

#[test]
fn compiling_is_deterministic() {
    let source = "(1 + 2) * -3 >= 4 == !nil";
    let (ok1, c1, d1) = compiled(source);
    let (ok2, c2, d2) = compiled(source);
    assert_eq!(ok1, ok2);
    assert_eq!(c1.code, c2.code);
    assert_eq!(c1.lines, c2.lines);
    assert_eq!(c1.constants, c2.constants);
    assert_eq!(d1, d2);
}

#[test]
fn comparisons_compile_to_negated_forms() {
    let (_, chunk, _) = compiled("1 >= 2");
    assert_eq!(chunk.code, vec![OP_CONSTANT, 0, OP_CONSTANT, 1, OP_LESS, OP_NOT, OP_RETURN]);
    let (_, chunk, _) = compiled("1 <= 2");
    assert_eq!(chunk.code, vec![OP_CONSTANT, 0, OP_CONSTANT, 1, OP_GREATER, OP_NOT, OP_RETURN]);
    let (_, chunk, _) = compiled("1 != 2");
    assert_eq!(chunk.code, vec![OP_CONSTANT, 0, OP_CONSTANT, 1, OP_EQUAL, OP_NOT, OP_RETURN]);
    let (_, chunk, _) = compiled("nil == true");
    assert_eq!(chunk.code, vec![OP_NIL, OP_TRUE, OP_EQUAL, OP_RETURN]);
}

#[test]
fn comparison_results() {
    assert_eq!(printed("1 >= 1"), "true");
    assert_eq!(printed("1 <= 0"), "false");
    assert_eq!(printed("1 != 1"), "false");
    assert_eq!(printed("2 > 1"), "true");
    assert_eq!(printed("2 < 1"), "false");
    assert_eq!(printed("nil == nil"), "true");
    assert_eq!(printed("nil == false"), "false");
    assert_eq!(printed("0 == -0"), "true");
    assert_eq!(printed("0/0 == 0/0"), "false");
    assert_eq!(printed("0/0 < 1"), "false");
    assert_eq!(printed("-1 < -0.5"), "true");
    assert_eq!(printed("1.5 * 2"), "3");
}

#[test]
fn operands_must_be_numbers() {
    let r = run("1 + true");
    assert_eq!(r.result, InterpretResult::RuntimeError);
    assert_eq!(
        r.diagnostics,
        vec!["Operands must be numbers.".to_string(), "[line 1] in script".to_string()]
    );
    let r = run("nil <\n 2");
    assert_eq!(r.result, InterpretResult::RuntimeError);
    assert_eq!(r.diagnostics[1], "[line 2] in script");
}

#[test]
fn operand_must_be_a_number() {
    let r = run("-true");
    assert_eq!(r.result, InterpretResult::RuntimeError);
    assert_eq!(
        r.diagnostics,
        vec!["Operand must be a number.".to_string(), "[line 1] in script".to_string()]
    );
}

#[test]
fn too_many_constants() {
    let source = vec!["1"; 257].join("+");
    let r = run(&source);
    assert_eq!(r.result, InterpretResult::CompileError);
    assert_eq!(r.diagnostics, vec!["[line 1] Error at '1': Too many constants in one chunk.".to_string()]);
    let source = vec!["1"; 256].join("+");
    assert_eq!(printed(&source), "256");
}

#[test]
fn first_error_only() {
    let r = run("(1 +\n\n)");
    assert_eq!(r.diagnostics, vec!["[line 3] Error at ')': Expect expression.".to_string()]);
    let r = run("1 2");
    assert_eq!(r.diagnostics, vec!["[line 1] Error at '2': Expect end of expression.".to_string()]);
    let r = run("@ + 1");
    assert_eq!(r.diagnostics, vec!["[line 1] Error: Unexpected character".to_string()]);
    let r = run("\"abc");
    assert_eq!(r.diagnostics, vec!["[line 1] Error: Unterminated string".to_string()]);
    let r = run("");
    assert_eq!(r.diagnostics, vec!["[line 1] Error at end: Expect expression.".to_string()]);
}

#[test]
fn diagnostics_carry_multi_digit_lines() {
    let source = format!("{}1 +", "\n".repeat(11));
    let r = run(&source);
    assert_eq!(r.diagnostics, vec!["[line 12] Error at end: Expect expression.".to_string()]);
}

#[test]
fn comments_and_whitespace_are_skipped() {
    assert_eq!(printed("// leading comment\n 1 + // trailing\n\t2\r\n"), "3");
    assert_eq!(printed("4 // comment without a line feed"), "4");
    assert_eq!(printed("8 / 2"), "4");
}

#[test]
fn runtime_error_at_end_of_code() {
    let mut vm = VM::new(init_chunk());
    match vm.step() {
        Step::Fail(e) => assert_eq!(e.kind, RuntimeErrorKind::EndOfCode),
        other => panic!("{:?}", other),
    }
}

#[test]
fn return_on_empty_stack_underflows() {
    let mut chunk = init_chunk();
    rlox::chunk::write_chunk(&mut chunk, OP_RETURN, 7);
    let mut vm = VM::new(chunk);
    match vm.run(arithmetic) {
        Err(e) => {
            assert_eq!(e.kind, RuntimeErrorKind::StackUnderflow);
            assert_eq!(e.line, 7);
        }
        Ok(v) => panic!("{:?}", v),
    }
}

#[test]
fn machine_state_between_steps() {
    let (ok, chunk, _) = compiled("1 + 2");
    assert!(ok);
    let mut vm = VM::new(chunk);
    assert_eq!(vm.position(), 0);
    assert_eq!(vm.code_chunk().code.len(), 6);
    assert_eq!(vm.step(), Step::Continue);
    assert_eq!(vm.position(), 2);
    assert_eq!(vm.stack_values(), &vec![Value::Number(1.0f64.to_bits())]);
    assert_eq!(vm.step(), Step::Continue);
    match vm.step() {
        Step::Arithmetic(ArithOp::Add, a, b) => {
            assert_eq!((a, b), (1.0f64.to_bits(), 2.0f64.to_bits()));
            assert_eq!(vm.stack_len(), 0);
            vm.push_number(arithmetic(ArithOp::Add, a, b));
        }
        other => panic!("{:?}", other),
    }
    assert_eq!(vm.step(), Step::Return(Value::Number(3.0f64.to_bits())));
}
