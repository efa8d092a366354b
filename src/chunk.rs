use vstd::prelude::*;
use crate::opcode::{OpCode, opcode_of};
use crate::value::{Value, ValueArray};

verus! {

/// One decoded instruction of a listing: its offset, its source line and
/// whether that line is the one of the byte before, its opcode (or `None`
/// for a byte outside the instruction set), the raw byte, and the pool index
/// operand of a load-constant.
#[derive(Debug, Clone, Copy, PartialEq, Eq, Structural)]
pub struct InstructionLine {
    pub offset: usize,
    pub line: usize,
    pub same_line: bool,
    pub opcode: Option<OpCode>,
    pub byte: u8,
    pub operand: Option<u8>,
}

/// Read instruction by instruction from its start, `code` holds only valid
/// opcodes, and each load-constant has its operand byte, which indexes one
/// of `n` pool entries.
pub open spec fn operands_ok(code: Seq<u8>, n: int) -> bool
    decreases code.len(),
{
    if code.len() == 0 {
        true
    } else if opcode_of(code[0]) == Some(OpCode::OP_CONSTANT) {
        code.len() >= 2 && (code[1] as int) < n && operands_ok(code.subrange(2, code.len() as int), n)
    } else {
        opcode_of(code[0]) is Some && operands_ok(code.subrange(1, code.len() as int), n)
    }
}

/// Well-formed code followed by well-formed code is well formed.
pub proof fn lemma_operands_append(a: Seq<u8>, b: Seq<u8>, n: int)
    requires
        operands_ok(a, n),
        operands_ok(b, n),
    ensures
        operands_ok(a + b, n),
    decreases a.len(),
{
    if a.len() > 0 {
        let w = if opcode_of(a[0]) == Some(OpCode::OP_CONSTANT) { 2int } else { 1int };
        lemma_operands_append(a.subrange(w, a.len() as int), b, n);
        assert((a + b).subrange(w, (a + b).len() as int) =~= a.subrange(w, a.len() as int) + b);
    } else {
        assert(a + b =~= b);
    }
}

/// Well-formed code stays well formed as the pool grows.
pub proof fn lemma_operands_grow(a: Seq<u8>, n: int, m: int)
    requires
        operands_ok(a, n),
        n <= m,
    ensures
        operands_ok(a, m),
    decreases a.len(),
{
    if a.len() > 0 {
        if opcode_of(a[0]) == Some(OpCode::OP_CONSTANT) {
            lemma_operands_grow(a.subrange(2, a.len() as int), n, m);
        } else {
            lemma_operands_grow(a.subrange(1, a.len() as int), n, m);
        }
    }
}

/// The instruction that starts at `off`.
pub open spec fn instruction_at(code: Seq<u8>, lines: Seq<usize>, off: int) -> InstructionLine {
    InstructionLine {
        offset: off as usize,
        line: lines[off],
        same_line: off > 0 && lines[off] == lines[off - 1],
        opcode: opcode_of(code[off]),
        byte: code[off],
        operand: if opcode_of(code[off]) == Some(OpCode::OP_CONSTANT) && off + 1 < code.len() {
            Some(code[off + 1])
        } else {
            None
        },
    }
}

/// The number of bytes the instruction at `off` takes (a load-constant cut
/// short by the end of the code takes what is left).
pub open spec fn instruction_len(code: Seq<u8>, off: int) -> int {
    if opcode_of(code[off]) == Some(OpCode::OP_CONSTANT) && off + 1 < code.len() {
        2
    } else {
        1
    }
}

/// The listing of the code from `off` to the end, instruction by instruction.
pub open spec fn listing(code: Seq<u8>, lines: Seq<usize>, off: int) -> Seq<InstructionLine>
    decreases code.len() - off,
{
    if off < 0 || off >= code.len() {
        Seq::empty()
    } else {
        seq![instruction_at(code, lines, off)] + listing(
            code,
            lines,
            off + instruction_len(code, off),
        )
    }
}

/// A compiled unit: instruction bytes, the constant pool they index, and the
/// source line of each byte.
#[derive(Debug, Clone)]
pub struct Chunk {
    pub code: Vec<u8>,
    pub values: ValueArray,
    pub lines: Vec<usize>,
}

impl Chunk {
    /// One line entry per code byte.
    pub open spec fn wf(&self) -> bool {
        self.lines@.len() == self.code@.len()
    }

    pub fn new() -> (r: Chunk)
        ensures
            r.wf(),
            r.code@.len() == 0,
            r.values.data@.len() == 0,
    {
        Chunk { code: Vec::new(), values: ValueArray::new(), lines: Vec::new() }
    }

    /// Appends a byte and the line it came from.
    pub fn write_chunk(&mut self, byte: u8, line: usize)
        ensures
            final(self).code@ == old(self).code@.push(byte),
            final(self).lines@ == old(self).lines@.push(line),
            final(self).values == old(self).values,
            old(self).wf() ==> final(self).wf(),
    {
        self.lines.push(line);
        self.code.push(byte);
    }

    pub fn free(&mut self)
        ensures
            final(self).wf(),
            final(self).code@.len() == 0,
            final(self).values.data@.len() == 0,
    {
        self.code.clear();
        self.values.free();
        self.lines.clear();
    }

    /// A copy of the chunk: the same bytes, lines and pool contents.
    pub fn duplicate(&self) -> (r: Chunk)
        ensures
            r.code@ == self.code@,
            r.lines@ == self.lines@,
            r.values.data@.len() == self.values.data@.len(),
            forall|i: int|
                0 <= i < self.values.data@.len() ==> #[trigger] r.values.data@[i].digits()
                    == self.values.data@[i].digits(),
    {
        Chunk { code: self.code.clone(), values: self.values.duplicate(), lines: self.lines.clone() }
    }

    /// Decodes the instruction at `offset`; returns it and the offset of the
    /// next one.
    pub fn disassemble_instruction(&self, offset: usize) -> (r: (InstructionLine, usize))
        requires
            self.wf(),
            offset < self.code@.len(),
        ensures
            r.0 == instruction_at(self.code@, self.lines@, offset as int),
            r.1 == offset + instruction_len(self.code@, offset as int),
    {
        let n = self.code.len();
        let byte = self.code[offset];
        let line = self.lines[offset];
        let same_line = offset > 0 && line == self.lines[offset - 1];
        let opcode = OpCode::from_byte(byte);
        let is_constant = match opcode {
            Some(OpCode::OP_CONSTANT) => true,
            _ => false,
        };
        let whole = is_constant && offset + 1 < n;
        let operand = if whole {
            Some(self.code[offset + 1])
        } else {
            None
        };
        let next = if whole {
            offset + 2
        } else {
            offset + 1
        };
        (InstructionLine { offset, line, same_line, opcode, byte, operand }, next)
    }

    /// The listing of the whole chunk, one entry per instruction.
    pub fn disassemble(&self) -> (r: Vec<InstructionLine>)
        requires
            self.wf(),
        ensures
            r@ == listing(self.code@, self.lines@, 0),
    {
        let mut out: Vec<InstructionLine> = Vec::new();
        let mut offset: usize = 0;
        while offset < self.code.len()
            invariant
                self.wf(),
                out@ + listing(self.code@, self.lines@, offset as int) == listing(
                    self.code@,
                    self.lines@,
                    0,
                ),
            decreases self.code@.len() - offset,
        {
            let ghost before = out@;
            let (instruction, next) = self.disassemble_instruction(offset);
            out.push(instruction);
            proof {
                let rest = listing(self.code@, self.lines@, next as int);
                assert(before + (seq![instruction] + rest) =~= out@ + rest);
            }
            offset = next;
        }
        assert(out@ + Seq::<InstructionLine>::empty() =~= out@);
        out
    }

    /// Appends a value to the pool and returns its index.
    pub fn add_constant(&mut self, value: Value) -> (r: usize)
        requires
            old(self).values.data@.len() < usize::MAX,
        ensures
            final(self).values.data@ == old(self).values.data@.push(value),
            r == old(self).values.data@.len(),
            final(self).code == old(self).code,
            final(self).lines == old(self).lines,
    {
        self.values.write_value(value);
        self.values.data.len() - 1
    }
}

} // verus!
