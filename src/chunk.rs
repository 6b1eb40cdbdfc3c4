use crate::value::Value;
use vstd::prelude::*;

verus! {

pub const OP_CONSTANT: u8 = 0;

pub const OP_RETURN: u8 = 1;

pub const OP_NEGATE: u8 = 2;

pub const OP_ADD: u8 = 3;

pub const OP_SUBTRACT: u8 = 4;

pub const OP_MULTIPLY: u8 = 5;

pub const OP_DIVIDE: u8 = 6;

pub const OP_NIL: u8 = 7;

pub const OP_TRUE: u8 = 8;

pub const OP_FALSE: u8 = 9;

pub const OP_NOT: u8 = 10;

pub const OP_EQUAL: u8 = 11;

pub const OP_GREATER: u8 = 12;

pub const OP_LESS: u8 = 13;

/// The largest index that the one-byte operand of `OP_CONSTANT` can name.
pub const MAX_CONSTANT_INDEX: usize = 255;

/// A bytecode chunk: the code, the source line of each code byte, and the
/// constant pool that `OP_CONSTANT` indexes.
pub struct Chunk {
    pub code: Vec<u8>,
    pub lines: Vec<usize>,
    pub constants: Vec<Value>,
}

impl Chunk {
    /// Every code byte has its line.
    pub open spec fn wf(&self) -> bool {
        self.code@.len() == self.lines@.len()
    }
}

/// An empty chunk.
pub fn init_chunk() -> (r: Chunk)
    ensures
        r.wf(),
        r.code@ == Seq::<u8>::empty(),
        r.lines@ == Seq::<usize>::empty(),
        r.constants@ == Seq::<Value>::empty(),
{
    Chunk { code: Vec::new(), lines: Vec::new(), constants: Vec::new() }
}

/// Appends one code byte and the line it came from.
pub fn write_chunk(chunk: &mut Chunk, byte: u8, line: usize)
    requires
        old(chunk).wf(),
    ensures
        final(chunk).wf(),
        final(chunk).code@ == old(chunk).code@.push(byte),
        final(chunk).lines@ == old(chunk).lines@.push(line),
        final(chunk).constants@ == old(chunk).constants@,
{
    chunk.code.push(byte);
    chunk.lines.push(line);
}

/// Appends a constant to the pool and returns its index; equal constants are
/// not merged.
pub fn add_constant(chunk: &mut Chunk, value: Value) -> (r: usize)
    requires
        old(chunk).constants@.len() < usize::MAX,
    ensures
        r == old(chunk).constants@.len(),
        final(chunk).constants@ == old(chunk).constants@.push(value),
        final(chunk).code@ == old(chunk).code@,
        final(chunk).lines@ == old(chunk).lines@,
{
    chunk.constants.push(value);
    chunk.constants.len() - 1
}

/// Opcodes that pop two operands and push one result.
pub open spec fn is_binary_op(op: u8) -> bool {
    op == OP_ADD || op == OP_SUBTRACT || op == OP_MULTIPLY || op == OP_DIVIDE || op == OP_EQUAL
        || op == OP_GREATER || op == OP_LESS
}

/// Opcodes that pop one operand and push one result.
pub open spec fn is_unary_op(op: u8) -> bool {
    op == OP_NEGATE || op == OP_NOT
}

/// Opcodes that push a literal.
pub open spec fn is_literal_op(op: u8) -> bool {
    op == OP_NIL || op == OP_TRUE || op == OP_FALSE
}

/// Runs the code over an operand stack of `depth` values, counting only the
/// depth: `Some` of the depth at the end, or `None` where an instruction would
/// pop an empty stack, a constant operand is missing or names no entry of a
/// pool of `pool` constants, or an instruction is `OP_RETURN` or unknown.
pub open spec fn stack_effect(code: Seq<u8>, depth: int, pool: nat) -> Option<int>
    decreases code.len(),
{
    if code.len() == 0 {
        Some(depth)
    } else {
        let op = code[0];
        if op == OP_CONSTANT {
            if code.len() < 2 || code[1] >= pool {
                None
            } else {
                stack_effect(code.skip(2), depth + 1, pool)
            }
        } else if is_literal_op(op) {
            stack_effect(code.skip(1), depth + 1, pool)
        } else if is_unary_op(op) {
            if depth < 1 {
                None
            } else {
                stack_effect(code.skip(1), depth, pool)
            }
        } else if is_binary_op(op) {
            if depth < 2 {
                None
            } else {
                stack_effect(code.skip(1), depth - 1, pool)
            }
        } else {
            None
        }
    }
}

/// The code of one expression: run on an empty stack it leaves exactly one
/// value, and no instruction in it pops below where it started.
pub open spec fn is_expression_code(code: Seq<u8>, pool: nat) -> bool {
    stack_effect(code, 0, pool) == Some(1int)
}

/// The code that an infix operator appends after its left operand: run with
/// the left operand on the stack, it leaves one value.
pub open spec fn is_infix_code(code: Seq<u8>, pool: nat) -> bool {
    stack_effect(code, 1, pool) == Some(1int)
}

/// The depth of the operand stack just before the chunk's `OP_RETURN`, where the
/// chunk is straight-line code that ends in its one `OP_RETURN`.
pub open spec fn depth_before_return(code: Seq<u8>, pool: nat) -> Option<int> {
    if code.len() > 0 && code.last() == OP_RETURN {
        stack_effect(code.drop_last(), 0, pool)
    } else {
        None
    }
}

/// Running two pieces of code one after the other.
pub proof fn lemma_stack_effect_append(a: Seq<u8>, b: Seq<u8>, depth: int, pool: nat)
    requires
        stack_effect(a, depth, pool) is Some,
    ensures
        stack_effect(a + b, depth, pool) == stack_effect(b, stack_effect(a, depth, pool)->0, pool),
    decreases a.len(),
{
    if a.len() == 0 {
        assert(a + b =~= b);
    } else {
        let op = a[0];
        if op == OP_CONSTANT {
            assert((a + b).skip(2) =~= a.skip(2) + b);
            lemma_stack_effect_append(a.skip(2), b, depth + 1, pool);
        } else if is_literal_op(op) {
            assert((a + b).skip(1) =~= a.skip(1) + b);
            lemma_stack_effect_append(a.skip(1), b, depth + 1, pool);
        } else if is_unary_op(op) {
            assert((a + b).skip(1) =~= a.skip(1) + b);
            lemma_stack_effect_append(a.skip(1), b, depth, pool);
        } else {
            assert((a + b).skip(1) =~= a.skip(1) + b);
            lemma_stack_effect_append(a.skip(1), b, depth - 1, pool);
        }
    }
}

/// More values below, or a larger pool, change nothing but the final depth.
pub proof fn lemma_stack_effect_shift(a: Seq<u8>, depth: int, extra: int, pool: nat, pool2: nat)
    requires
        stack_effect(a, depth, pool) is Some,
        extra >= 0,
        pool <= pool2,
    ensures
        stack_effect(a, depth + extra, pool2) == Some(stack_effect(a, depth, pool)->0 + extra),
    decreases a.len(),
{
    if a.len() > 0 {
        let op = a[0];
        if op == OP_CONSTANT {
            lemma_stack_effect_shift(a.skip(2), depth + 1, extra, pool, pool2);
        } else if is_literal_op(op) {
            lemma_stack_effect_shift(a.skip(1), depth + 1, extra, pool, pool2);
        } else if is_unary_op(op) {
            lemma_stack_effect_shift(a.skip(1), depth, extra, pool, pool2);
        } else {
            lemma_stack_effect_shift(a.skip(1), depth - 1, extra, pool, pool2);
        }
    }
}

} // verus!
