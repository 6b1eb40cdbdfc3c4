use crate::chunk::{
    Chunk,
    OP_ADD,
    OP_CONSTANT,
    OP_DIVIDE,
    OP_EQUAL,
    OP_FALSE,
    OP_GREATER,
    OP_LESS,
    OP_MULTIPLY,
    OP_NEGATE,
    OP_NIL,
    OP_NOT,
    OP_RETURN,
    OP_SUBTRACT,
    OP_TRUE,
};
use crate::value::Value;
use vstd::prelude::*;

verus! {

/// The mnemonic of an opcode; empty for a byte that is no opcode.
pub open spec fn mnemonic(op: u8) -> Seq<char> {
    if op == OP_CONSTANT {
        "OP_CONSTANT"@
    } else if op == OP_RETURN {
        "OP_RETURN"@
    } else if op == OP_NEGATE {
        "OP_NEGATE"@
    } else if op == OP_ADD {
        "OP_ADD"@
    } else if op == OP_SUBTRACT {
        "OP_SUBTRACT"@
    } else if op == OP_MULTIPLY {
        "OP_MULTIPLY"@
    } else if op == OP_DIVIDE {
        "OP_DIVIDE"@
    } else if op == OP_NIL {
        "OP_NIL"@
    } else if op == OP_TRUE {
        "OP_TRUE"@
    } else if op == OP_FALSE {
        "OP_FALSE"@
    } else if op == OP_NOT {
        "OP_NOT"@
    } else if op == OP_EQUAL {
        "OP_EQUAL"@
    } else if op == OP_GREATER {
        "OP_GREATER"@
    } else if op == OP_LESS {
        "OP_LESS"@
    } else {
        ""@
    }
}

/// The mnemonic of an opcode.
pub fn instruction_name(op: u8) -> (r: &'static str)
    ensures
        r@ == mnemonic(op),
{
    if op == OP_CONSTANT {
        "OP_CONSTANT"
    } else if op == OP_RETURN {
        "OP_RETURN"
    } else if op == OP_NEGATE {
        "OP_NEGATE"
    } else if op == OP_ADD {
        "OP_ADD"
    } else if op == OP_SUBTRACT {
        "OP_SUBTRACT"
    } else if op == OP_MULTIPLY {
        "OP_MULTIPLY"
    } else if op == OP_DIVIDE {
        "OP_DIVIDE"
    } else if op == OP_NIL {
        "OP_NIL"
    } else if op == OP_TRUE {
        "OP_TRUE"
    } else if op == OP_FALSE {
        "OP_FALSE"
    } else if op == OP_NOT {
        "OP_NOT"
    } else if op == OP_EQUAL {
        "OP_EQUAL"
    } else if op == OP_GREATER {
        "OP_GREATER"
    } else if op == OP_LESS {
        "OP_LESS"
    } else {
        ""
    }
}

/// One decoded instruction, as a disassembly listing shows it.
pub struct Instruction {
    /// Where the instruction starts.
    pub offset: usize,
    /// Its source line, or `None` where that is the line of the byte before.
    pub line: Option<usize>,
    /// Its opcode.
    pub opcode: u8,
    /// The operand of `OP_CONSTANT`, and the constant that it names.
    pub constant: Option<(u8, Option<Value>)>,
    /// Where the next instruction starts.
    pub next: usize,
}

/// Whether the instruction at `offset` is an `OP_CONSTANT` with its operand.
pub open spec fn has_operand(code: Seq<u8>, offset: int) -> bool {
    code[offset] == OP_CONSTANT && offset + 1 < code.len()
}

/// Where the instruction after the one at `offset` starts.
pub open spec fn next_offset(code: Seq<u8>, offset: int) -> int {
    if has_operand(code, offset) {
        offset + 2
    } else {
        offset + 1
    }
}

/// Decodes the instruction at `offset`.
pub fn disassemble_instruction(chunk: &Chunk, offset: usize) -> (r: Instruction)
    requires
        chunk.wf(),
        offset < chunk.code@.len(),
    ensures
        r.offset == offset,
        r.opcode == chunk.code@[offset as int],
        r.line == (if offset > 0 && chunk.lines@[offset as int] == chunk.lines@[offset - 1] {
            None
        } else {
            Some(chunk.lines@[offset as int])
        }),
        r.next == next_offset(chunk.code@, offset as int),
        has_operand(chunk.code@, offset as int) ==> {
            let k = chunk.code@[offset + 1];
            r.constant == Some(
                (
                    k,
                    if (k as int) < chunk.constants@.len() {
                        Some(chunk.constants@[k as int])
                    } else {
                        None
                    },
                ),
            )
        },
        !has_operand(chunk.code@, offset as int) ==> r.constant is None,
{
    let line = if offset > 0 && chunk.lines[offset] == chunk.lines[offset - 1] {
        None
    } else {
        Some(chunk.lines[offset])
    };
    let n = chunk.code.len();
    let opcode = chunk.code[offset];
    if opcode == OP_CONSTANT && offset + 1 < n {
        let k = chunk.code[offset + 1];
        let value = if (k as usize) < chunk.constants.len() {
            Some(chunk.constants[k as usize])
        } else {
            None
        };
        Instruction { offset, line, opcode, constant: Some((k, value)), next: offset + 2 }
    } else {
        Instruction { offset, line, opcode, constant: None, next: offset + 1 }
    }
}

/// The opcodes of the instructions of `code` from `offset` on, in order.
pub open spec fn opcodes_from(code: Seq<u8>, offset: int) -> Seq<u8>
    decreases code.len() - offset,
{
    if offset < 0 || offset >= code.len() {
        Seq::empty()
    } else {
        seq![code[offset]] + opcodes_from(code, next_offset(code, offset))
    }
}

/// Decodes every instruction of the chunk, in order.
pub fn disassemble_chunk(chunk: &Chunk) -> (r: Vec<Instruction>)
    requires
        chunk.wf(),
    ensures
        r@.map_values(|i: Instruction| i.opcode) == opcodes_from(chunk.code@, 0),
{
    let mut listing: Vec<Instruction> = Vec::new();
    let mut offset: usize = 0;
    while offset < chunk.code.len()
        invariant
            chunk.wf(),
            offset <= chunk.code@.len(),
            listing@.map_values(|i: Instruction| i.opcode) + opcodes_from(chunk.code@, offset as int)
                == opcodes_from(chunk.code@, 0),
        decreases chunk.code@.len() - offset,
    {
        let instruction = disassemble_instruction(chunk, offset);
        let ghost before = listing@;
        offset = instruction.next;
        listing.push(instruction);
        proof {
            assert(listing@.map_values(|i: Instruction| i.opcode) =~= before.map_values(
                |i: Instruction| i.opcode,
            ).push(listing@.last().opcode));
            let o = listing@.last().offset as int;
            assert(opcodes_from(chunk.code@, o) == seq![chunk.code@[o]] + opcodes_from(
                chunk.code@,
                offset as int,
            ));
            assert(before.map_values(|i: Instruction| i.opcode).push(chunk.code@[o])
                + opcodes_from(chunk.code@, offset as int) =~= before.map_values(
                |i: Instruction| i.opcode,
            ) + (seq![chunk.code@[o]] + opcodes_from(chunk.code@, offset as int)));
        }
    }
    proof {
        assert(opcodes_from(chunk.code@, offset as int) == Seq::<u8>::empty());
        assert(listing@.map_values(|i: Instruction| i.opcode) + Seq::<u8>::empty()
            =~= listing@.map_values(|i: Instruction| i.opcode));
    }
    listing
}

} // verus!
