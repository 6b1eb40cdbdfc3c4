use crate::chunk::{
    Chunk,
    OP_ADD,
    OP_CONSTANT,
    OP_DIVIDE,
    OP_EQUAL,
    OP_FALSE,
    OP_GREATER,
    OP_LESS,
    OP_MULTIPLY,
    OP_NEGATE,
    OP_NIL,
    OP_NOT,
    OP_RETURN,
    OP_SUBTRACT,
    OP_TRUE,
};
use crate::value::{
    is_falsy,
    is_falsy_spec,
    negated_bits,
    number_less,
    number_lt,
    number_negate,
    values_equal,
    values_equal_spec,
    Value,
};
use crate::chunk::{
    depth_before_return,
    init_chunk,
    is_binary_op,
    is_unary_op,
    stack_effect,
};
use crate::compiler::{compile_spec, emitted, fresh_from, reads_as, Compiler};
use crate::report::{line_tag, line_tag_text};
use vstd::prelude::*;
use vstd::string::*;

verus! {

/// How an interpretation ended.
#[derive(Clone, Copy, Debug, PartialEq, Eq, Structural)]
pub enum InterpretResult {
    Success,
    CompileError,
    RuntimeError,
}

/// An arithmetic operation on two doubles.
#[derive(Clone, Copy, Debug, PartialEq, Eq, Structural)]
pub enum ArithOp {
    Add,
    Subtract,
    Multiply,
    Divide,
}

/// What went wrong at run time.
#[derive(Clone, Copy, Debug, PartialEq, Eq, Structural)]
pub enum RuntimeErrorKind {
    /// An arithmetic or comparison operand was not a number.
    OperandsMustBeNumbers,
    /// The operand of a negation was not a number.
    OperandMustBeNumber,
    /// An instruction found too few values on the stack.
    StackUnderflow,
    /// The code ended without `OP_RETURN`.
    EndOfCode,
    /// An unknown opcode, or an `OP_CONSTANT` without a valid operand.
    BadInstruction,
}

/// The message that reports a runtime error.
pub open spec fn kind_message(kind: RuntimeErrorKind) -> Seq<char> {
    match kind {
        RuntimeErrorKind::OperandsMustBeNumbers => "Operands must be numbers."@,
        RuntimeErrorKind::OperandMustBeNumber => "Operand must be a number."@,
        RuntimeErrorKind::StackUnderflow => "Stack underflow."@,
        RuntimeErrorKind::EndOfCode => "Reached the end of the code without a return."@,
        RuntimeErrorKind::BadInstruction => "Bad instruction."@,
    }
}

/// The line that locates a runtime error: `[line L] in script`.
pub open spec fn error_location(e: RuntimeError) -> Seq<char> {
    line_tag(e.line as nat) + " in script"@
}

impl RuntimeErrorKind {
    /// The message that reports this error.
    pub fn message(&self) -> (r: &'static str)
        ensures
            r@ == kind_message(*self),
    {
        match self {
            RuntimeErrorKind::OperandsMustBeNumbers => "Operands must be numbers.",
            RuntimeErrorKind::OperandMustBeNumber => "Operand must be a number.",
            RuntimeErrorKind::StackUnderflow => "Stack underflow.",
            RuntimeErrorKind::EndOfCode => "Reached the end of the code without a return.",
            RuntimeErrorKind::BadInstruction => "Bad instruction.",
        }
    }
}

/// A runtime error and the source line of the instruction that raised it.
#[derive(Clone, Copy, Debug, PartialEq, Eq, Structural)]
pub struct RuntimeError {
    pub kind: RuntimeErrorKind,
    pub line: usize,
}

/// What one instruction asks of the driver of the machine.
#[derive(Clone, Copy, Debug, PartialEq, Eq, Structural)]
pub enum Step {
    /// Go on with the next instruction.
    Continue,
    /// Both number operands have been popped: push the number that the
    /// operation gives on them (`a op b`), then go on.
    Arithmetic(ArithOp, u64, u64),
    /// The program returned this value.
    Return(Value),
    /// The program failed; the stack has been emptied.
    Fail(RuntimeError),
}

/// The arithmetic operation of an opcode.
pub open spec fn arith_op_of(op: u8) -> Option<ArithOp> {
    if op == OP_ADD {
        Some(ArithOp::Add)
    } else if op == OP_SUBTRACT {
        Some(ArithOp::Subtract)
    } else if op == OP_MULTIPLY {
        Some(ArithOp::Multiply)
    } else if op == OP_DIVIDE {
        Some(ArithOp::Divide)
    } else {
        None
    }
}

/// The line of the instruction at `ip`, or of the last instruction past the
/// end (0 for empty code).
pub open spec fn line_at(lines: Seq<usize>, ip: int) -> usize {
    if 0 <= ip < lines.len() {
        lines[ip]
    } else if lines.len() > 0 {
        lines.last()
    } else {
        0
    }
}

/// A failure at `ip`.
pub open spec fn fail_at(lines: Seq<usize>, ip: int, kind: RuntimeErrorKind) -> (
    int,
    Seq<Value>,
    Step,
) {
    (ip, Seq::empty(), Step::Fail(RuntimeError { kind, line: line_at(lines, ip) }))
}

/// One step of the machine: from the instruction pointer and the stack, the
/// next instruction pointer, the next stack, and what the driver must do.
pub open spec fn step_spec(
    code: Seq<u8>,
    lines: Seq<usize>,
    constants: Seq<Value>,
    ip: int,
    stack: Seq<Value>,
) -> (int, Seq<Value>, Step) {
    let n = stack.len();
    if ip < 0 || ip >= code.len() {
        fail_at(lines, ip, RuntimeErrorKind::EndOfCode)
    } else {
        let op = code[ip];
        if op == OP_CONSTANT {
            if ip + 1 >= code.len() || code[ip + 1] >= constants.len() {
                fail_at(lines, ip, RuntimeErrorKind::BadInstruction)
            } else {
                (ip + 2, stack.push(constants[code[ip + 1] as int]), Step::Continue)
            }
        } else if op == OP_NIL {
            (ip + 1, stack.push(Value::Nil), Step::Continue)
        } else if op == OP_TRUE {
            (ip + 1, stack.push(Value::Bool(true)), Step::Continue)
        } else if op == OP_FALSE {
            (ip + 1, stack.push(Value::Bool(false)), Step::Continue)
        } else if op == OP_EQUAL || op == OP_GREATER || op == OP_LESS || arith_op_of(op) is Some {
            if n < 2 {
                fail_at(lines, ip, RuntimeErrorKind::StackUnderflow)
            } else {
                let a = stack[n - 2];
                let b = stack[n - 1];
                let rest = stack.subrange(0, n - 2);
                if op == OP_EQUAL {
                    (ip + 1, rest.push(Value::Bool(values_equal_spec(a, b))), Step::Continue)
                } else {
                    match (a, b) {
                        (Value::Number(x), Value::Number(y)) => {
                            if op == OP_GREATER {
                                (ip + 1, rest.push(Value::Bool(number_lt(y, x))), Step::Continue)
                            } else if op == OP_LESS {
                                (ip + 1, rest.push(Value::Bool(number_lt(x, y))), Step::Continue)
                            } else {
                                (ip + 1, rest, Step::Arithmetic(arith_op_of(op)->0, x, y))
                            }
                        },
                        _ => fail_at(lines, ip, RuntimeErrorKind::OperandsMustBeNumbers),
                    }
                }
            }
        } else if op == OP_NOT || op == OP_NEGATE || op == OP_RETURN {
            if n < 1 {
                fail_at(lines, ip, RuntimeErrorKind::StackUnderflow)
            } else {
                let v = stack[n - 1];
                let rest = stack.subrange(0, n - 1);
                if op == OP_NOT {
                    (ip + 1, rest.push(Value::Bool(is_falsy_spec(v))), Step::Continue)
                } else if op == OP_RETURN {
                    (ip + 1, rest, Step::Return(v))
                } else {
                    match v {
                        Value::Number(x) => (
                            ip + 1,
                            rest.push(Value::Number(negated_bits(x))),
                            Step::Continue,
                        ),
                        _ => fail_at(lines, ip, RuntimeErrorKind::OperandMustBeNumber),
                    }
                }
            }
        } else {
            fail_at(lines, ip, RuntimeErrorKind::BadInstruction)
        }
    }
}

/// Running from `ip` with `stack` ends in `outcome`, where `answers` are the
/// numbers that `arithmetic` gave, in order, for the arithmetic steps on the
/// way.
pub open spec fn runs_to<A: Fn(ArithOp, u64, u64) -> u64>(
    code: Seq<u8>,
    lines: Seq<usize>,
    constants: Seq<Value>,
    ip: int,
    stack: Seq<Value>,
    arithmetic: A,
    answers: Seq<u64>,
    outcome: Result<Value, RuntimeError>,
) -> bool
    decreases code.len() - ip,
{
    let (ip2, stack2, step) = step_spec(code, lines, constants, ip, stack);
    match step {
        Step::Continue => ip < ip2 <= code.len() && runs_to(
            code,
            lines,
            constants,
            ip2,
            stack2,
            arithmetic,
            answers,
            outcome,
        ),
        Step::Arithmetic(op, x, y) => {
            &&& ip < ip2 <= code.len()
            &&& answers.len() > 0
            &&& call_ensures(arithmetic, (op, x, y), answers[0])
            &&& runs_to(
                code,
                lines,
                constants,
                ip2,
                stack2.push(Value::Number(answers[0])),
                arithmetic,
                answers.drop_first(),
                outcome,
            )
        },
        Step::Return(v) => answers.len() == 0 && outcome == Ok::<Value, RuntimeError>(v),
        Step::Fail(e) => answers.len() == 0 && outcome == Err::<Value, RuntimeError>(e),
    }
}

/// The machine stands at an instruction of straight-line code that ends in
/// its one `OP_RETURN`, with `depth` values on the stack, and the code from
/// there to the `OP_RETURN` leaves exactly one value.
pub open spec fn on_track(code: Seq<u8>, pool: nat, ip: int, depth: int) -> bool {
    &&& code.len() > 0
    &&& code.last() == OP_RETURN
    &&& 0 <= ip <= code.len() - 1
    &&& stack_effect(code.subrange(ip, code.len() - 1), depth, pool) == Some(1int)
}

/// A chunk whose depth before its `OP_RETURN` is 1 starts on track.
pub proof fn lemma_start_on_track(code: Seq<u8>, pool: nat)
    requires
        depth_before_return(code, pool) == Some(1int),
    ensures
        on_track(code, pool, 0, 0),
{
    assert(code.subrange(0, code.len() - 1) =~= code.drop_last());
}

/// Running code that stays on track: every step either keeps the machine on
/// track (an arithmetic step once its result is pushed), or is the final
/// `OP_RETURN`, executed with exactly one value on the stack, or fails only
/// because an operand is not a number. So no step underflows the stack, runs
/// off the end of the code, or meets a bad instruction.
pub proof fn lemma_step_on_track(
    code: Seq<u8>,
    lines: Seq<usize>,
    constants: Seq<Value>,
    ip: int,
    stack: Seq<Value>,
)
    requires
        on_track(code, constants.len(), ip, stack.len() as int),
    ensures
        ({
            let (ip2, stack2, step) = step_spec(code, lines, constants, ip, stack);
            match step {
                Step::Continue => on_track(code, constants.len(), ip2, stack2.len() as int),
                Step::Arithmetic(_, _, _) => on_track(
                    code,
                    constants.len(),
                    ip2,
                    stack2.len() + 1int,
                ),
                Step::Return(_) => ip == code.len() - 1 && stack.len() == 1,
                Step::Fail(e) => e.kind == RuntimeErrorKind::OperandsMustBeNumbers || e.kind
                    == RuntimeErrorKind::OperandMustBeNumber,
            }
        }),
{
    let n = code.len() - 1;
    let rest = code.subrange(ip, n);
    let d = stack.len() as int;
    let pool = constants.len();
    if ip < n {
        let op = code[ip];
        assert(rest[0] == op);
        if op == OP_CONSTANT {
            assert(rest.skip(2) =~= code.subrange(ip + 2, n));
        } else {
            assert(rest.skip(1) =~= code.subrange(ip + 1, n));
            if is_binary_op(op) {
                assert(stack.subrange(0, d - 2).len() == d - 2);
            } else if is_unary_op(op) {
                assert(stack.subrange(0, d - 1).len() == d - 1);
            }
        }
    }
}

/// A run that starts on track ends in a value or in an operand that is not a
/// number: never in a stack underflow, at the end of the code, or at a bad
/// instruction.
pub proof fn lemma_run_on_track<A: Fn(ArithOp, u64, u64) -> u64>(
    code: Seq<u8>,
    lines: Seq<usize>,
    constants: Seq<Value>,
    ip: int,
    stack: Seq<Value>,
    arithmetic: A,
    answers: Seq<u64>,
    outcome: Result<Value, RuntimeError>,
)
    requires
        on_track(code, constants.len(), ip, stack.len() as int),
        runs_to(code, lines, constants, ip, stack, arithmetic, answers, outcome),
    ensures
        outcome is Ok || outcome->Err_0.kind == RuntimeErrorKind::OperandsMustBeNumbers
            || outcome->Err_0.kind == RuntimeErrorKind::OperandMustBeNumber,
    decreases code.len() - ip,
{
    lemma_step_on_track(code, lines, constants, ip, stack);
    let (ip2, stack2, step) = step_spec(code, lines, constants, ip, stack);
    match step {
        Step::Continue => {
            lemma_run_on_track(code, lines, constants, ip2, stack2, arithmetic, answers, outcome);
        },
        Step::Arithmetic(_, _, _) => {
            let pushed = stack2.push(Value::Number(answers[0]));
            lemma_run_on_track(
                code,
                lines,
                constants,
                ip2,
                pushed,
                arithmetic,
                answers.drop_first(),
                outcome,
            );
        },
        _ => {},
    }
}

/// The virtual machine: a chunk, the position of the next instruction, and
/// the operand stack.
pub struct VM {
    chunk: Chunk,
    ip: usize,
    stack: Vec<Value>,
}

impl VM {
    pub closed spec fn wf(&self) -> bool {
        self.chunk.wf()
    }

    pub closed spec fn chunk(&self) -> Chunk {
        self.chunk
    }

    pub closed spec fn ip(&self) -> int {
        self.ip as int
    }

    pub closed spec fn stack(&self) -> Seq<Value> {
        self.stack@
    }

    /// A machine at the start of `chunk`, with an empty stack.
    pub fn new(chunk: Chunk) -> (r: VM)
        requires
            chunk.wf(),
        ensures
            r.wf(),
            r.chunk() == chunk,
            r.ip() == 0,
            r.stack() == Seq::<Value>::empty(),
    {
        VM { chunk, ip: 0, stack: Vec::new() }
    }

    fn fail(&mut self, kind: RuntimeErrorKind) -> (r: Step)
        requires
            old(self).wf(),
        ensures
            final(self).wf(),
            final(self).chunk == old(self).chunk,
            (final(self).ip as int, final(self).stack@, r) == fail_at(
                old(self).chunk.lines@,
                old(self).ip as int,
                kind,
            ),
    {
        self.stack.clear();
        let line = if self.ip < self.chunk.lines.len() {
            self.chunk.lines[self.ip]
        } else if self.chunk.lines.len() > 0 {
            self.chunk.lines[self.chunk.lines.len() - 1]
        } else {
            0
        };
        Step::Fail(RuntimeError { kind, line })
    }

    /// Executes the instruction at the instruction pointer.
    pub fn step(&mut self) -> (r: Step)
        requires
            old(self).wf(),
        ensures
            final(self).wf(),
            final(self).chunk() == old(self).chunk(),
            (final(self).ip(), final(self).stack(), r) == step_spec(
                old(self).chunk().code@,
                old(self).chunk().lines@,
                old(self).chunk().constants@,
                old(self).ip(),
                old(self).stack(),
            ),
    {
        if self.ip >= self.chunk.code.len() {
            return self.fail(RuntimeErrorKind::EndOfCode);
        }
        let instruction = self.chunk.code[self.ip];
        let n = self.stack.len();
        if instruction == OP_CONSTANT {
            if self.ip + 1 >= self.chunk.code.len() {
                return self.fail(RuntimeErrorKind::BadInstruction);
            }
            let index = self.chunk.code[self.ip + 1] as usize;
            if index >= self.chunk.constants.len() {
                return self.fail(RuntimeErrorKind::BadInstruction);
            }
            let constant = self.chunk.constants[index];
            self.stack.push(constant);
            self.ip = self.ip + 2;
            return Step::Continue;
        }
        if instruction == OP_NIL || instruction == OP_TRUE || instruction == OP_FALSE {
            let v = if instruction == OP_NIL {
                Value::Nil
            } else {
                Value::Bool(instruction == OP_TRUE)
            };
            self.stack.push(v);
            self.ip = self.ip + 1;
            return Step::Continue;
        }
        if instruction == OP_EQUAL || instruction == OP_GREATER || instruction == OP_LESS
            || instruction == OP_ADD || instruction == OP_SUBTRACT || instruction == OP_MULTIPLY
            || instruction == OP_DIVIDE {
            if n < 2 {
                return self.fail(RuntimeErrorKind::StackUnderflow);
            }
            let a = self.stack[n - 2];
            let b = self.stack[n - 1];
            let both_numbers = matches!(a, Value::Number(_)) && matches!(b, Value::Number(_));
            if instruction != OP_EQUAL && !both_numbers {
                return self.fail(RuntimeErrorKind::OperandsMustBeNumbers);
            }
            self.stack.pop();
            self.stack.pop();
            assert(self.stack@ =~= old(self).stack@.subrange(0, n - 2));
            self.ip = self.ip + 1;
            if instruction == OP_EQUAL {
                self.stack.push(Value::Bool(values_equal(a, b)));
                return Step::Continue;
            }
            let (x, y) = match (a, b) {
                (Value::Number(x), Value::Number(y)) => (x, y),
                _ => (0, 0),
            };
            if instruction == OP_GREATER {
                self.stack.push(Value::Bool(number_less(y, x)));
                return Step::Continue;
            }
            if instruction == OP_LESS {
                self.stack.push(Value::Bool(number_less(x, y)));
                return Step::Continue;
            }
            let op = if instruction == OP_ADD {
                ArithOp::Add
            } else if instruction == OP_SUBTRACT {
                ArithOp::Subtract
            } else if instruction == OP_MULTIPLY {
                ArithOp::Multiply
            } else {
                ArithOp::Divide
            };
            return Step::Arithmetic(op, x, y);
        }
        if instruction == OP_NOT || instruction == OP_NEGATE || instruction == OP_RETURN {
            if n < 1 {
                return self.fail(RuntimeErrorKind::StackUnderflow);
            }
            let v = self.stack[n - 1];
            if instruction == OP_NEGATE && !matches!(v, Value::Number(_)) {
                return self.fail(RuntimeErrorKind::OperandMustBeNumber);
            }
            self.stack.pop();
            assert(self.stack@ =~= old(self).stack@.subrange(0, n - 1));
            self.ip = self.ip + 1;
            if instruction == OP_NOT {
                self.stack.push(Value::Bool(is_falsy(&v)));
                return Step::Continue;
            }
            if instruction == OP_RETURN {
                return Step::Return(v);
            }
            let x = match v {
                Value::Number(x) => x,
                _ => 0,
            };
            self.stack.push(Value::Number(number_negate(x)));
            return Step::Continue;
        }
        self.fail(RuntimeErrorKind::BadInstruction)
    }

    /// The chunk being run.
    pub fn code_chunk(&self) -> (r: &Chunk)
        ensures
            *r == self.chunk(),
    {
        &self.chunk
    }

    /// The position of the next instruction.
    pub fn position(&self) -> (r: usize)
        ensures
            r == self.ip(),
    {
        self.ip
    }

    /// The operand stack, bottom first.
    pub fn stack_values(&self) -> (r: &Vec<Value>)
        ensures
            r@ == self.stack(),
    {
        &self.stack
    }

    /// How many values are on the operand stack.
    pub fn stack_len(&self) -> (r: usize)
        ensures
            r == self.stack().len(),
    {
        self.stack.len()
    }

    /// Pushes the number that an `Arithmetic` step asked for.
    pub fn push_number(&mut self, number: u64)
        requires
            old(self).wf(),
        ensures
            final(self).wf(),
            final(self).chunk() == old(self).chunk(),
            final(self).ip() == old(self).ip(),
            final(self).stack() == old(self).stack().push(Value::Number(number)),
    {
        self.stack.push(Value::Number(number));
    }

    /// Runs the machine until `OP_RETURN` or a runtime error; `arithmetic`
    /// gives the result of each arithmetic step. On an error the stack is
    /// left empty.
    pub fn run<A: Fn(ArithOp, u64, u64) -> u64>(&mut self, arithmetic: A) -> (r: Result<
        Value,
        RuntimeError,
    >)
        requires
            old(self).wf(),
            forall|op: ArithOp, x: u64, y: u64| #[trigger] arithmetic.requires((op, x, y)),
        ensures
            final(self).wf(),
            final(self).chunk() == old(self).chunk(),
            exists|answers: Seq<u64>|
                runs_to(
                    old(self).chunk().code@,
                    old(self).chunk().lines@,
                    old(self).chunk().constants@,
                    old(self).ip(),
                    old(self).stack(),
                    arithmetic,
                    answers,
                    r,
                ),
            r is Err ==> final(self).stack().len() == 0,
    {
        let ghost code = self.chunk.code@;
        let ghost lines = self.chunk.lines@;
        let ghost constants = self.chunk.constants@;
        let ghost ip0 = self.ip as int;
        let ghost stack0 = self.stack@;
        let ghost mut done: Seq<u64> = Seq::empty();
        loop
            invariant
                self.wf(),
                self.chunk == old(self).chunk,
                code == self.chunk.code@,
                lines == self.chunk.lines@,
                constants == self.chunk.constants@,
                ip0 == old(self).ip as int,
                stack0 == old(self).stack@,
                forall|op: ArithOp, x: u64, y: u64| #[trigger] arithmetic.requires((op, x, y)),
                forall|answers: Seq<u64>, outcome: Result<Value, RuntimeError>|
                    #[trigger] runs_to(
                        code,
                        lines,
                        constants,
                        self.ip as int,
                        self.stack@,
                        arithmetic,
                        answers,
                        outcome,
                    ) ==> runs_to(
                        code,
                        lines,
                        constants,
                        ip0,
                        stack0,
                        arithmetic,
                        done + answers,
                        outcome,
                    ),
            decreases code.len() - self.ip,
        {
            let ghost ip1 = self.ip as int;
            let ghost stack1 = self.stack@;
            let ghost done1 = done;
            let step = self.step();
            match step {
                Step::Continue => {
                    assert forall|answers: Seq<u64>, outcome: Result<Value, RuntimeError>|
                        #[trigger] runs_to(
                            code,
                            lines,
                            constants,
                            self.ip as int,
                            self.stack@,
                            arithmetic,
                            answers,
                            outcome,
                        ) implies runs_to(
                        code,
                        lines,
                        constants,
                        ip0,
                        stack0,
                        arithmetic,
                        done + answers,
                        outcome,
                    ) by {
                        assert(runs_to(
                            code,
                            lines,
                            constants,
                            ip1,
                            stack1,
                            arithmetic,
                            answers,
                            outcome,
                        ));
                    }
                },
                Step::Arithmetic(op, x, y) => {
                    let number = arithmetic(op, x, y);
                    self.push_number(number);
                    proof {
                        done = done1.push(number);
                        assert forall|answers: Seq<u64>, outcome: Result<Value, RuntimeError>|
                            #[trigger] runs_to(
                                code,
                                lines,
                                constants,
                                self.ip as int,
                                self.stack@,
                                arithmetic,
                                answers,
                                outcome,
                            ) implies runs_to(
                            code,
                            lines,
                            constants,
                            ip0,
                            stack0,
                            arithmetic,
                            done + answers,
                            outcome,
                        ) by {
                            let all = seq![number] + answers;
                            assert(all[0] == number);
                            assert(all.drop_first() =~= answers);
                            assert(runs_to(
                                code,
                                lines,
                                constants,
                                ip1,
                                stack1,
                                arithmetic,
                                all,
                                outcome,
                            ));
                            assert(done1 + all =~= done + answers);
                        }
                    }
                },
                Step::Return(v) => {
                    proof {
                        let none = Seq::<u64>::empty();
                        assert(runs_to(
                            code,
                            lines,
                            constants,
                            ip1,
                            stack1,
                            arithmetic,
                            none,
                            Ok::<Value, RuntimeError>(v),
                        ));
                        assert(done1 + none =~= done1);
                        assert(runs_to(
                            code,
                            lines,
                            constants,
                            ip0,
                            stack0,
                            arithmetic,
                            done1,
                            Ok::<Value, RuntimeError>(v),
                        ));
                        assert(code == old(self).chunk().code@);
                        assert(lines == old(self).chunk().lines@);
                        assert(constants == old(self).chunk().constants@);
                        assert(ip0 == old(self).ip());
                        assert(stack0 == old(self).stack());
                    }
                    return Ok(v);
                },
                Step::Fail(e) => {
                    proof {
                        let none = Seq::<u64>::empty();
                        assert(runs_to(
                            code,
                            lines,
                            constants,
                            ip1,
                            stack1,
                            arithmetic,
                            none,
                            Err::<Value, RuntimeError>(e),
                        ));
                        assert(done1 + none =~= done1);
                        assert(runs_to(
                            code,
                            lines,
                            constants,
                            ip0,
                            stack0,
                            arithmetic,
                            done1,
                            Err::<Value, RuntimeError>(e),
                        ));
                        assert(code == old(self).chunk().code@);
                        assert(lines == old(self).chunk().lines@);
                        assert(constants == old(self).chunk().constants@);
                        assert(ip0 == old(self).ip());
                        assert(stack0 == old(self).stack());
                    }
                    return Err(e);
                },
            }
        }
    }
}

/// What interpreting a program gave: how it ended, the value that it
/// returned, and the diagnostics to report (the compile error; or the runtime
/// error's message and its location).
pub struct Interpretation {
    pub result: InterpretResult,
    pub value: Option<Value>,
    pub diagnostics: Vec<String>,
}

/// Compiles `source` and, where that reports no error, runs it.
/// `number_value` gives the bits of the double that a numeral denotes, and
/// `arithmetic` the result of an arithmetic operation on two doubles.
///
/// The outcome is a compile error exactly where compiling the text reports
/// one, with that report. Otherwise the chunk that runs is the compiled one
/// (its code, lines, and constants read from the numerals of the text), and
/// the result is what running it gives, where only an operand that is not a
/// number can fail.
pub fn interpret<N: Fn(&str) -> u64, A: Fn(ArithOp, u64, u64) -> u64>(
    source: String,
    number_value: N,
    arithmetic: A,
) -> (r: Interpretation)
    requires
        source@.len() < usize::MAX,
        forall|s: &str| #[trigger] number_value.requires((s,)),
        forall|op: ArithOp, x: u64, y: u64| #[trigger] arithmetic.requires((op, x, y)),
    ensures
        ({
            let c = compile_spec(source@, fresh_from(Seq::empty(), Seq::empty(), 0));
            &&& (r.result == InterpretResult::CompileError) == c.had_error
            &&& c.had_error ==> r.value is None && r.diagnostics@.map_values(|d: String| d@)
                == c.reports
            &&& !c.had_error ==> exists|
                chunk: Chunk,
                answers: Seq<u64>,
                outcome: Result<Value, RuntimeError>,
            |
                {
                    &&& chunk.wf()
                    &&& chunk.code@ == c.code
                    &&& chunk.lines@ == c.lines
                    &&& chunk.constants@.len() == c.pool
                    &&& c.pool == c.numerals.len()
                    &&& forall|i: int|
                        0 <= i < c.numerals.len() ==> #[trigger] reads_as(
                            number_value,
                            c.numerals[i],
                            chunk.constants@[i],
                        )
                    &&& depth_before_return(chunk.code@, chunk.constants@.len()) == Some(1int)
                    &&& #[trigger] runs_to(
                        chunk.code@,
                        chunk.lines@,
                        chunk.constants@,
                        0,
                        Seq::empty(),
                        arithmetic,
                        answers,
                        outcome,
                    )
                    &&& match outcome {
                        Ok(v) => {
                            &&& r.result == InterpretResult::Success
                            &&& r.value == Some(v)
                            &&& r.diagnostics@.len() == 0
                        },
                        Err(e) => {
                            &&& r.result == InterpretResult::RuntimeError
                            &&& (e.kind == RuntimeErrorKind::OperandsMustBeNumbers || e.kind
                                == RuntimeErrorKind::OperandMustBeNumber)
                            &&& r.value is None
                            &&& r.diagnostics@.len() == 2
                            &&& r.diagnostics@[0]@ == kind_message(e.kind)
                            &&& r.diagnostics@[1]@ == error_location(e)
                        },
                    }
                }
        }),
{
    let chunk = init_chunk();
    proof {
        assert(fresh_from(Seq::empty(), Seq::empty(), 0) == crate::compiler::fresh(chunk));
    }
    let mut compiler = Compiler::new(source, chunk, number_value);
    let ok = compiler.compile();
    let ghost state = compiler;
    let (chunk, diagnostics) = compiler.finish();
    proof {
        let m = state.model();
        assert(state.first_constant() == 0);
        assert forall|i: int| 0 <= i < m.numerals.len() implies #[trigger] reads_as(
            number_value,
            m.numerals[i],
            chunk.constants@[i],
        ) by {
            let k = state.first_constant() + i;
            assert(reads_as(state.number_fn(), m.numerals[i], chunk.constants@[k]));
        }
    }
    if !ok {
        return Interpretation { result: InterpretResult::CompileError, value: None, diagnostics };
    }
    proof {
        assert(emitted(Seq::<u8>::empty(), chunk.code@) =~= chunk.code@);
    }
    let ghost compiled = chunk;
    let mut vm = VM::new(chunk);
    let outcome = vm.run(arithmetic);
    proof {
        let answers = choose|answers: Seq<u64>|
            runs_to(
                compiled.code@,
                compiled.lines@,
                compiled.constants@,
                0,
                Seq::empty(),
                arithmetic,
                answers,
                outcome,
            );
        assert(runs_to(
            compiled.code@,
            compiled.lines@,
            compiled.constants@,
            0,
            Seq::empty(),
            arithmetic,
            answers,
            outcome,
        ));
        lemma_start_on_track(compiled.code@, compiled.constants@.len());
        lemma_run_on_track(
            compiled.code@,
            compiled.lines@,
            compiled.constants@,
            0,
            Seq::empty(),
            arithmetic,
            answers,
            outcome,
        );
    }
    match outcome {
        Ok(v) => Interpretation {
            result: InterpretResult::Success,
            value: Some(v),
            diagnostics: Vec::new(),
        },
        Err(e) => {
            let mut diagnostics: Vec<String> = Vec::new();
            diagnostics.push(String::from_str(e.kind.message()));
            let mut location = line_tag_text(e.line);
            location.append(" in script");
            diagnostics.push(location);
            Interpretation { result: InterpretResult::RuntimeError, value: None, diagnostics }
        },
    }
}

} // verus!
