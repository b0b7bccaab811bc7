//! Bytecode chunks.
//!
//! A chunk is three parallel arrays: `code` (opcodes and their inline
//! operands), `constants` (the constant pool, at most 256 entries, indexed
//! by one-byte operands), and `lines` (for each code byte, the 1-based
//! source line that emitted it).
//!
//! The chunk tracks, in ghost state, the offsets at which instructions
//! start, and which forward-jump operands have not been patched yet.  Its
//! well-formedness invariant pins down the structural guarantees of the
//! compiled stream: `code` and `lines` stay parallel; every operand of a
//! constant-loading instruction indexes into `constants`; and every patched
//! jump or loop operand sends the instruction pointer to an instruction
//! boundary within bounds.

use vstd::prelude::*;

verus! {

/// One-byte instruction tags.
#[derive(Clone, Copy, Debug, PartialEq, Eq, Structural)]
pub enum OpCode {
    OpConstant,
    OpNil,
    OpTrue,
    OpFalse,
    OpPop,
    OpDefineGlobal,
    OpGetLocal,
    OpSetLocal,
    OpGetGlobal,
    OpSetGlobal,
    OpEqual,
    OpGreater,
    OpLess,
    OpAdd,
    OpSubtract,
    OpMultiply,
    OpDivide,
    OpNot,
    OpNegate,
    OpPrint,
    OpJumpIfFalse,
    OpJump,
    OpLoop,
    OpReturn,
}

/// The byte that encodes each opcode.
pub open spec fn spec_opcode_value(op: OpCode) -> u8 {
    match op {
        OpCode::OpConstant => 0,
        OpCode::OpNil => 1,
        OpCode::OpTrue => 2,
        OpCode::OpFalse => 3,
        OpCode::OpPop => 4,
        OpCode::OpDefineGlobal => 5,
        OpCode::OpGetLocal => 6,
        OpCode::OpSetLocal => 7,
        OpCode::OpGetGlobal => 8,
        OpCode::OpSetGlobal => 9,
        OpCode::OpEqual => 10,
        OpCode::OpGreater => 11,
        OpCode::OpLess => 12,
        OpCode::OpAdd => 13,
        OpCode::OpSubtract => 14,
        OpCode::OpMultiply => 15,
        OpCode::OpDivide => 16,
        OpCode::OpNot => 17,
        OpCode::OpNegate => 18,
        OpCode::OpPrint => 19,
        OpCode::OpJumpIfFalse => 20,
        OpCode::OpJump => 21,
        OpCode::OpLoop => 22,
        OpCode::OpReturn => 23,
    }
}

/// True iff the byte encodes some opcode.
pub open spec fn spec_valid_op(b: u8) -> bool {
    b < 24
}

/// The opcode a byte encodes; meaningful only when `spec_valid_op(b)`.
pub open spec fn spec_decode_op(b: u8) -> OpCode {
    if b == 0 {
        OpCode::OpConstant
    } else if b == 1 {
        OpCode::OpNil
    } else if b == 2 {
        OpCode::OpTrue
    } else if b == 3 {
        OpCode::OpFalse
    } else if b == 4 {
        OpCode::OpPop
    } else if b == 5 {
        OpCode::OpDefineGlobal
    } else if b == 6 {
        OpCode::OpGetLocal
    } else if b == 7 {
        OpCode::OpSetLocal
    } else if b == 8 {
        OpCode::OpGetGlobal
    } else if b == 9 {
        OpCode::OpSetGlobal
    } else if b == 10 {
        OpCode::OpEqual
    } else if b == 11 {
        OpCode::OpGreater
    } else if b == 12 {
        OpCode::OpLess
    } else if b == 13 {
        OpCode::OpAdd
    } else if b == 14 {
        OpCode::OpSubtract
    } else if b == 15 {
        OpCode::OpMultiply
    } else if b == 16 {
        OpCode::OpDivide
    } else if b == 17 {
        OpCode::OpNot
    } else if b == 18 {
        OpCode::OpNegate
    } else if b == 19 {
        OpCode::OpPrint
    } else if b == 20 {
        OpCode::OpJumpIfFalse
    } else if b == 21 {
        OpCode::OpJump
    } else if b == 22 {
        OpCode::OpLoop
    } else {
        OpCode::OpReturn
    }
}

/// Encode an opcode as its byte.
pub fn opcode_to_u8(op: OpCode) -> (r: u8)
    ensures
        r == spec_opcode_value(op),
        spec_valid_op(r),
        spec_decode_op(r) == op,
{
    match op {
        OpCode::OpConstant => 0,
        OpCode::OpNil => 1,
        OpCode::OpTrue => 2,
        OpCode::OpFalse => 3,
        OpCode::OpPop => 4,
        OpCode::OpDefineGlobal => 5,
        OpCode::OpGetLocal => 6,
        OpCode::OpSetLocal => 7,
        OpCode::OpGetGlobal => 8,
        OpCode::OpSetGlobal => 9,
        OpCode::OpEqual => 10,
        OpCode::OpGreater => 11,
        OpCode::OpLess => 12,
        OpCode::OpAdd => 13,
        OpCode::OpSubtract => 14,
        OpCode::OpMultiply => 15,
        OpCode::OpDivide => 16,
        OpCode::OpNot => 17,
        OpCode::OpNegate => 18,
        OpCode::OpPrint => 19,
        OpCode::OpJumpIfFalse => 20,
        OpCode::OpJump => 21,
        OpCode::OpLoop => 22,
        OpCode::OpReturn => 23,
    }
}

/// Decode a byte into its opcode, or `None` for a byte no opcode uses.
pub fn opcode_from_u8(b: u8) -> (r: Option<OpCode>)
    ensures
        r is Some <==> spec_valid_op(b),
        spec_valid_op(b) ==> r == Some(spec_decode_op(b)),
{
    if b < 24 {
        Some(spec_decode_op_exec(b))
    } else {
        None
    }
}

/// Executable twin of `spec_decode_op`.
fn spec_decode_op_exec(b: u8) -> (r: OpCode)
    ensures
        r == spec_decode_op(b),
{
    if b == 0 {
        OpCode::OpConstant
    } else if b == 1 {
        OpCode::OpNil
    } else if b == 2 {
        OpCode::OpTrue
    } else if b == 3 {
        OpCode::OpFalse
    } else if b == 4 {
        OpCode::OpPop
    } else if b == 5 {
        OpCode::OpDefineGlobal
    } else if b == 6 {
        OpCode::OpGetLocal
    } else if b == 7 {
        OpCode::OpSetLocal
    } else if b == 8 {
        OpCode::OpGetGlobal
    } else if b == 9 {
        OpCode::OpSetGlobal
    } else if b == 10 {
        OpCode::OpEqual
    } else if b == 11 {
        OpCode::OpGreater
    } else if b == 12 {
        OpCode::OpLess
    } else if b == 13 {
        OpCode::OpAdd
    } else if b == 14 {
        OpCode::OpSubtract
    } else if b == 15 {
        OpCode::OpMultiply
    } else if b == 16 {
        OpCode::OpDivide
    } else if b == 17 {
        OpCode::OpNot
    } else if b == 18 {
        OpCode::OpNegate
    } else if b == 19 {
        OpCode::OpPrint
    } else if b == 20 {
        OpCode::OpJumpIfFalse
    } else if b == 21 {
        OpCode::OpJump
    } else if b == 22 {
        OpCode::OpLoop
    } else {
        OpCode::OpReturn
    }
}

/// True iff the opcode carries one inline byte operand.
pub open spec fn spec_has_u8_operand(op: OpCode) -> bool {
    match op {
        OpCode::OpConstant
        | OpCode::OpDefineGlobal
        | OpCode::OpGetLocal
        | OpCode::OpSetLocal
        | OpCode::OpGetGlobal
        | OpCode::OpSetGlobal => true,
        _ => false,
    }
}

/// True iff the opcode's byte operand indexes into the constant pool.
pub open spec fn spec_takes_constant(op: OpCode) -> bool {
    match op {
        OpCode::OpConstant
        | OpCode::OpDefineGlobal
        | OpCode::OpGetGlobal
        | OpCode::OpSetGlobal => true,
        _ => false,
    }
}

/// True iff the opcode carries a forward 16-bit jump distance.
pub open spec fn spec_is_forward_jump(op: OpCode) -> bool {
    op == OpCode::OpJump || op == OpCode::OpJumpIfFalse
}

/// Bytes occupied by an instruction with this opcode, operands included.
pub open spec fn spec_instr_size(op: OpCode) -> int {
    if spec_has_u8_operand(op) {
        2
    } else if spec_is_forward_jump(op) || op == OpCode::OpLoop {
        3
    } else {
        1
    }
}

/// The big-endian 16-bit operand of the instruction starting at `s`.
pub open spec fn spec_jump_offset(code: Seq<u8>, s: int) -> int {
    (code[s + 1] as int) * 256 + (code[s + 2] as int)
}

/// True iff `t` is the start of some instruction, or the very end of the
/// stream.
pub open spec fn is_boundary(starts: Seq<int>, code_len: int, t: int) -> bool {
    starts.contains(t) || t == code_len
}

/// An entry of the constant pool: a number (as IEEE-754 bits) or a string.
#[derive(Clone, Debug)]
pub enum Constant {
    Number(u64),
    Text(Vec<u8>),
}

/// Structural well-formedness of the instruction starting at `starts[k]`.
pub open spec fn chunk_start_ok(
    code: Seq<u8>,
    starts: Seq<int>,
    unpatched: Set<int>,
    nconst: int,
    k: int,
) -> bool {
    let s = starts[k];
    &&& 0 <= s < code.len()
    &&& spec_valid_op(code[s])
    &&& {
        let op = spec_decode_op(code[s]);
        let end = s + spec_instr_size(op);
        &&& end <= code.len()
        &&& (if k + 1 < starts.len() {
            starts[k + 1] == end
        } else {
            end == code.len()
        })
        &&& (spec_takes_constant(op) ==> (code[s + 1] as int) < nconst)
        &&& (spec_is_forward_jump(op) && !unpatched.contains(s + 1) ==> {
            let t = s + 3 + spec_jump_offset(code, s);
            t <= code.len() && is_boundary(starts, code.len() as int, t)
        })
        &&& (op == OpCode::OpLoop ==> {
            let t = s + 3 - spec_jump_offset(code, s);
            0 <= t && is_boundary(starts, code.len() as int, t)
        })
    }
}

/// An unpatched site is the first operand byte of some emitted forward jump.
pub open spec fn unpatched_site_ok(code: Seq<u8>, starts: Seq<int>, i: int) -> bool {
    exists|k: int|
        0 <= k < starts.len() && starts[k] == i - 1 && spec_valid_op(code[i - 1])
            && spec_is_forward_jump(spec_decode_op(code[i - 1]))
}

/// Split a 16-bit jump distance into its big-endian operand bytes.
fn split_u16(offset: u32) -> (r: (u8, u8))
    requires
        offset <= 0xffff,
    ensures
        (r.0 as int) * 256 + (r.1 as int) == offset as int,
{
    proof {
        let o = offset;
        assert(o <= 0xffff ==> ((o >> 8) & 0xff) < 256 && (o & 0xff) < 256 && ((o >> 8) & 0xff)
            * 256 + (o & 0xff) == o) by (bit_vector);
    }
    let hi = ((offset >> 8) & 0xff) as u8;
    let lo = (offset & 0xff) as u8;
    (hi, lo)
}

/// A boundary of the old stream is still a boundary once the old end
/// becomes the start of a freshly appended instruction.
pub proof fn lemma_boundary_after_push(starts: Seq<int>, old_len: int, new_len: int, t: int)
    requires
        is_boundary(starts, old_len, t),
    ensures
        is_boundary(starts.push(old_len), new_len, t),
{
    if starts.contains(t) {
        let i = choose|i: int| 0 <= i < starts.len() && starts[i] == t;
        assert(starts.push(old_len)[i] == t);
        assert(starts.push(old_len).contains(t));
    } else {
        assert(starts.push(old_len)[starts.len() as int] == old_len);
        assert(starts.push(old_len).contains(t));
    }
}

/// Appending a whole instruction at the end of the stream preserves the
/// well-formedness of every instruction already there.  The new code
/// extends the old bytes, the old end becomes a fresh boundary, the pool
/// may only have grown, and the set of unpatched sites may only have grown.
proof fn lemma_starts_ok_after_append(
    code: Seq<u8>,
    starts: Seq<int>,
    unpatched: Set<int>,
    nconst: int,
    new_code: Seq<u8>,
    new_unpatched: Set<int>,
    new_nconst: int,
)
    requires
        forall|k: int| 0 <= k < starts.len() ==> chunk_start_ok(code, starts, unpatched, nconst, k),
        code.len() < new_code.len(),
        forall|i: int| 0 <= i < code.len() ==> new_code[i] == code[i],
        nconst <= new_nconst,
        forall|i: int| unpatched.contains(i) ==> new_unpatched.contains(i),
    ensures
        forall|k: int|
            0 <= k < starts.len() ==> chunk_start_ok(
                new_code,
                starts.push(code.len() as int),
                new_unpatched,
                new_nconst,
                k,
            ),
{
    let new_starts = starts.push(code.len() as int);
    assert forall|k: int| 0 <= k < starts.len() implies chunk_start_ok(
        new_code,
        new_starts,
        new_unpatched,
        new_nconst,
        k,
    ) by {
        assert(chunk_start_ok(code, starts, unpatched, nconst, k));
        let s = starts[k];
        let op = spec_decode_op(code[s]);
        assert(new_code[s] == code[s]);
        let end = s + spec_instr_size(op);
        if spec_has_u8_operand(op) {
            assert(new_code[s + 1] == code[s + 1]);
        }
        if spec_is_forward_jump(op) || op == OpCode::OpLoop {
            assert(new_code[s + 1] == code[s + 1]);
            assert(new_code[s + 2] == code[s + 2]);
            assert(spec_jump_offset(new_code, s) == spec_jump_offset(code, s));
        }
        if spec_is_forward_jump(op) && !new_unpatched.contains(s + 1) {
            assert(!unpatched.contains(s + 1));
            let t = s + 3 + spec_jump_offset(code, s);
            lemma_boundary_after_push(starts, code.len() as int, new_code.len() as int, t);
        }
        if op == OpCode::OpLoop {
            let t = s + 3 - spec_jump_offset(code, s);
            lemma_boundary_after_push(starts, code.len() as int, new_code.len() as int, t);
        }
        if k + 1 < starts.len() {
            assert(new_starts[k + 1] == starts[k + 1]);
        } else {
            assert(new_starts[k + 1] == code.len() as int);
        }
    }
}

/// Appending an instruction keeps every recorded unpatched site the operand
/// of the same forward jump it always was.
proof fn lemma_unpatched_ok_after_append(
    code: Seq<u8>,
    starts: Seq<int>,
    unpatched: Set<int>,
    new_code: Seq<u8>,
)
    requires
        forall|i: int| unpatched.contains(i) ==> unpatched_site_ok(code, starts, i),
        forall|k: int| 0 <= k < starts.len() ==> 0 <= #[trigger] starts[k] < code.len(),
        code.len() <= new_code.len(),
        forall|i: int| 0 <= i < code.len() ==> new_code[i] == code[i],
    ensures
        forall|i: int|
            unpatched.contains(i) ==> unpatched_site_ok(
                new_code,
                starts.push(code.len() as int),
                i,
            ),
{
    let new_starts = starts.push(code.len() as int);
    assert forall|i: int| unpatched.contains(i) implies unpatched_site_ok(
        new_code,
        new_starts,
        i,
    ) by {
        assert(unpatched_site_ok(code, starts, i));
        let k = choose|k: int|
            0 <= k < starts.len() && starts[k] == i - 1 && spec_valid_op(code[i - 1])
                && spec_is_forward_jump(spec_decode_op(code[i - 1]));
        assert(new_starts[k] == i - 1);
        assert(new_code[i - 1] == code[i - 1]);
    }
}

/// A self-contained unit of bytecode: instruction stream, constant pool and
/// line map, plus the ghost record of instruction boundaries and of jump
/// operands still awaiting their distance.
pub struct Chunk {
    pub code: Vec<u8>,
    pub constants: Vec<Constant>,
    pub lines: Vec<usize>,
    pub starts: Ghost<Seq<int>>,
    pub unpatched: Ghost<Set<int>>,
}

impl Chunk {
    /// Well-formedness: `code` and `lines` are parallel; the pool holds at
    /// most 256 constants; `starts` lists the instruction boundaries of
    /// `code` in order, exactly covering it; every constant operand indexes
    /// the pool; every patched jump and every loop lands on a boundary in
    /// bounds.
    pub open spec fn wf(self) -> bool {
        let code = self.code@;
        let starts = self.starts@;
        &&& self.lines@.len() == code.len()
        &&& self.constants@.len() <= 256
        &&& (starts.len() == 0 <==> code.len() == 0)
        &&& (starts.len() > 0 ==> starts[0] == 0)
        &&& (forall|k: int|
            0 <= k < starts.len() ==> chunk_start_ok(
                code,
                starts,
                self.unpatched@,
                self.constants@.len() as int,
                k,
            ))
        &&& (forall|i: int|
            self.unpatched@.contains(i) ==> unpatched_site_ok(code, starts, i))
    }

    /// Instruction starts are spaced by at least the size of each
    /// instruction, so distinct instructions never overlap.
    pub proof fn lemma_starts_ordered(self, j: int, k: int)
        requires
            self.wf(),
            0 <= j < k < self.starts@.len(),
        ensures
            self.starts@[j] + spec_instr_size(spec_decode_op(self.code@[self.starts@[j]]))
                <= self.starts@[k],
        decreases k - j,
    {
        assert(chunk_start_ok(
            self.code@,
            self.starts@,
            self.unpatched@,
            self.constants@.len() as int,
            j,
        ));
        if j + 1 < k {
            self.lemma_starts_ordered(j + 1, k);
            assert(chunk_start_ok(
                self.code@,
                self.starts@,
                self.unpatched@,
                self.constants@.len() as int,
                j + 1,
            ));
        }
    }

    /// A fresh, empty chunk.
    pub fn new() -> (c: Chunk)
        ensures
            c.wf(),
            c.code@.len() == 0,
            c.constants@.len() == 0,
            c.lines@.len() == 0,
            c.starts@.len() == 0,
            c.unpatched@ == Set::<int>::empty(),
    {
        Chunk {
            code: Vec::new(),
            constants: Vec::new(),
            lines: Vec::new(),
            starts: Ghost(Seq::empty()),
            unpatched: Ghost(Set::empty()),
        }
    }

    /// Number of code bytes emitted so far.
    pub fn code_len(&self) -> (r: usize)
        ensures
            r == self.code@.len(),
    {
        self.code.len()
    }

    /// Number of constants in the pool.
    pub fn constants_len(&self) -> (r: usize)
        ensures
            r == self.constants@.len(),
    {
        self.constants.len()
    }

    /// The code byte at `offset`.
    pub fn read_byte(&self, offset: usize) -> (r: u8)
        requires
            offset < self.code@.len(),
        ensures
            r == self.code@[offset as int],
    {
        self.code[offset]
    }

    /// The source line recorded for the code byte at `offset`.
    pub fn line_at(&self, offset: usize) -> (r: usize)
        requires
            offset < self.lines@.len(),
        ensures
            r == self.lines@[offset as int],
    {
        self.lines[offset]
    }

    /// The pool entry at `idx`.
    pub fn get_constant(&self, idx: usize) -> (r: &Constant)
        requires
            idx < self.constants@.len(),
        ensures
            *r == self.constants@[idx as int],
    {
        &self.constants[idx]
    }

    /// Append a constant to the pool and return its index, or `None` iff the
    /// pool already holds 256 constants (the chunk is then unchanged).
    pub fn add_constant(&mut self, val: Constant) -> (r: Option<u8>)
        requires
            old(self).wf(),
        ensures
            final(self).wf(),
            final(self).code@ == old(self).code@,
            final(self).lines@ == old(self).lines@,
            final(self).starts@ == old(self).starts@,
            final(self).unpatched@ == old(self).unpatched@,
            if old(self).constants@.len() < 256 {
                r == Some(old(self).constants@.len() as u8) && final(self).constants@
                    == old(self).constants@.push(val)
            } else {
                r is None && final(self).constants@ == old(self).constants@
            },
    {
        let ghost pre = *self;
        if self.constants.len() < 256 {
            let idx = self.constants.len() as u8;
            self.constants.push(val);
            proof {
                assert forall|k: int| 0 <= k < self.starts@.len() implies chunk_start_ok(
                    self.code@,
                    self.starts@,
                    self.unpatched@,
                    self.constants@.len() as int,
                    k,
                ) by {
                    assert(chunk_start_ok(
                        pre.code@,
                        pre.starts@,
                        pre.unpatched@,
                        pre.constants@.len() as int,
                        k,
                    ));
                }
            }
            Some(idx)
        } else {
            None
        }
    }

    /// Facts needed before any append: every instruction of the old chunk is
    /// well formed, its starts lie inside `code`, and its last instruction
    /// ends exactly at the old end of `code`.
    proof fn lemma_append_prelude(self)
        requires
            self.wf(),
        ensures
            forall|k: int|
                0 <= k < self.starts@.len() ==> chunk_start_ok(
                    self.code@,
                    self.starts@,
                    self.unpatched@,
                    self.constants@.len() as int,
                    k,
                ),
            forall|k: int|
                0 <= k < self.starts@.len() ==> 0 <= #[trigger] self.starts@[k]
                    < self.code@.len(),
    {
        assert forall|k: int| 0 <= k < self.starts@.len() implies 0 <= #[trigger] self.starts@[k]
            < self.code@.len() by {
            assert(chunk_start_ok(
                self.code@,
                self.starts@,
                self.unpatched@,
                self.constants@.len() as int,
                k,
            ));
        }
    }

    /// Emit an operand-less instruction.
    pub fn emit_op(&mut self, op: OpCode, line: usize)
        requires
            old(self).wf(),
            spec_instr_size(op) == 1,
        ensures
            final(self).wf(),
            final(self).code@ == old(self).code@.push(spec_opcode_value(op)),
            final(self).lines@ == old(self).lines@.push(line),
            final(self).constants@ == old(self).constants@,
            final(self).unpatched@ == old(self).unpatched@,
            final(self).starts@ == old(self).starts@.push(old(self).code@.len() as int),
    {
        let ghost pre = *self;
        let b = opcode_to_u8(op);
        self.code.push(b);
        self.lines.push(line);
        proof {
            pre.lemma_append_prelude();
        }
        self.starts = Ghost(self.starts@.push(pre.code@.len() as int));
        proof {
            let nconst = pre.constants@.len() as int;
            lemma_starts_ok_after_append(
                pre.code@,
                pre.starts@,
                pre.unpatched@,
                nconst,
                self.code@,
                self.unpatched@,
                nconst,
            );
            lemma_unpatched_ok_after_append(pre.code@, pre.starts@, pre.unpatched@, self.code@);
            let s = pre.code@.len() as int;
            let knew = pre.starts@.len() as int;
            assert(self.starts@[knew] == s);
            assert(self.code@[s] == b);
            assert(!spec_takes_constant(op));
            assert(chunk_start_ok(
                self.code@,
                self.starts@,
                self.unpatched@,
                nconst,
                knew,
            ));
        }
    }

    /// Emit an instruction with one inline byte operand.  When the operand
    /// indexes the constant pool, the caller must have a valid index.
    pub fn emit_op_u8(&mut self, op: OpCode, operand: u8, line: usize)
        requires
            old(self).wf(),
            spec_has_u8_operand(op),
            spec_takes_constant(op) ==> (operand as int) < old(self).constants@.len(),
        ensures
            final(self).wf(),
            final(self).code@ == old(self).code@.push(spec_opcode_value(op)).push(operand),
            final(self).lines@ == old(self).lines@.push(line).push(line),
            final(self).constants@ == old(self).constants@,
            final(self).unpatched@ == old(self).unpatched@,
            final(self).starts@ == old(self).starts@.push(old(self).code@.len() as int),
    {
        let ghost pre = *self;
        let b = opcode_to_u8(op);
        self.code.push(b);
        self.code.push(operand);
        self.lines.push(line);
        self.lines.push(line);
        proof {
            pre.lemma_append_prelude();
        }
        self.starts = Ghost(self.starts@.push(pre.code@.len() as int));
        proof {
            let nconst = pre.constants@.len() as int;
            lemma_starts_ok_after_append(
                pre.code@,
                pre.starts@,
                pre.unpatched@,
                nconst,
                self.code@,
                self.unpatched@,
                nconst,
            );
            lemma_unpatched_ok_after_append(pre.code@, pre.starts@, pre.unpatched@, self.code@);
            let s = pre.code@.len() as int;
            let knew = pre.starts@.len() as int;
            assert(self.starts@[knew] == s);
            assert(self.code@[s] == b);
            assert(self.code@[s + 1] == operand);
            assert(spec_instr_size(op) == 2);
            assert(chunk_start_ok(
                self.code@,
                self.starts@,
                self.unpatched@,
                nconst,
                knew,
            ));
        }
    }

    /// Emit a forward jump with a placeholder 16-bit distance, returning the
    /// offset of its first operand byte; that site is recorded as unpatched
    /// until `patch_jump` fills the distance in.
    pub fn emit_jump_op(&mut self, op: OpCode, line: usize) -> (site: usize)
        requires
            old(self).wf(),
            spec_is_forward_jump(op),
        ensures
            final(self).wf(),
            site == old(self).code@.len() + 1,
            final(self).code@ == old(self).code@.push(spec_opcode_value(op)).push(255).push(255),
            final(self).lines@ == old(self).lines@.push(line).push(line).push(line),
            final(self).constants@ == old(self).constants@,
            final(self).unpatched@ == old(self).unpatched@.insert(site as int),
            final(self).starts@ == old(self).starts@.push(old(self).code@.len() as int),
    {
        let ghost pre = *self;
        let b = opcode_to_u8(op);
        self.code.push(b);
        self.code.push(255);
        self.code.push(255);
        let site = self.code.len() - 2;
        self.lines.push(line);
        self.lines.push(line);
        self.lines.push(line);
        proof {
            pre.lemma_append_prelude();
        }
        self.starts = Ghost(self.starts@.push(pre.code@.len() as int));
        self.unpatched = Ghost(self.unpatched@.insert(site as int));
        proof {
            let nconst = pre.constants@.len() as int;
            lemma_starts_ok_after_append(
                pre.code@,
                pre.starts@,
                pre.unpatched@,
                nconst,
                self.code@,
                self.unpatched@,
                nconst,
            );
            lemma_unpatched_ok_after_append(pre.code@, pre.starts@, pre.unpatched@, self.code@);
            let s = pre.code@.len() as int;
            let knew = pre.starts@.len() as int;
            assert(self.starts@[knew] == s);
            assert(self.code@[s] == b);
            assert(spec_instr_size(op) == 3);
            assert(self.unpatched@.contains(s + 1));
            assert(chunk_start_ok(
                self.code@,
                self.starts@,
                self.unpatched@,
                nconst,
                knew,
            ));
            // the freshly inserted site is the operand of the jump just emitted
            assert forall|i: int| self.unpatched@.contains(i) implies unpatched_site_ok(
                self.code@,
                self.starts@,
                i,
            ) by {
                if i == s + 1 {
                    assert(self.starts@[knew] == i - 1);
                } else {
                    assert(pre.unpatched@.contains(i));
                    assert(unpatched_site_ok(self.code@, self.starts@, i));
                }
            }
        }
        site
    }

    /// Emit a `LOOP` instruction whose 16-bit distance sends the instruction
    /// pointer back to `loop_start`, which must be an instruction boundary.
    /// Returns false iff the distance does not fit in 16 bits; the operand
    /// is then a harmless placeholder and the caller reports a compile
    /// error.
    pub fn emit_loop_op(&mut self, loop_start: usize, line: usize) -> (fits: bool)
        requires
            old(self).wf(),
            is_boundary(old(self).starts@, old(self).code@.len() as int, loop_start as int),
        ensures
            final(self).wf(),
            final(self).code@.len() == old(self).code@.len() + 3,
            final(self).code@[old(self).code@.len() as int] == spec_opcode_value(OpCode::OpLoop),
            forall|i: int|
                0 <= i < old(self).code@.len() ==> final(self).code@[i] == #[trigger] old(
                    self,
                ).code@[i],
            final(self).lines@ == old(self).lines@.push(line).push(line).push(line),
            final(self).constants@ == old(self).constants@,
            final(self).unpatched@ == old(self).unpatched@,
            final(self).starts@ == old(self).starts@.push(old(self).code@.len() as int),
            fits == (old(self).code@.len() - loop_start + 3 <= 0xffff),
            fits ==> spec_jump_offset(final(self).code@, old(self).code@.len() as int)
                == old(self).code@.len() - loop_start + 3,
    {
        let ghost pre = *self;
        proof {
            pre.lemma_append_prelude();
            if pre.starts@.contains(loop_start as int) {
                let i = choose|i: int|
                    0 <= i < pre.starts@.len() && pre.starts@[i] == loop_start as int;
                assert(0 <= pre.starts@[i] < pre.code@.len());
            }
        }
        let len = self.code.len();
        let fits = len - loop_start <= 0xffff - 3;
        let offset: u32 = if fits {
            (len - loop_start + 3) as u32
        } else {
            3
        };
        let (hi, lo) = split_u16(offset);
        let b = opcode_to_u8(OpCode::OpLoop);
        self.code.push(b);
        self.code.push(hi);
        self.code.push(lo);
        self.lines.push(line);
        self.lines.push(line);
        self.lines.push(line);
        self.starts = Ghost(self.starts@.push(pre.code@.len() as int));
        proof {
            let nconst = pre.constants@.len() as int;
            lemma_starts_ok_after_append(
                pre.code@,
                pre.starts@,
                pre.unpatched@,
                nconst,
                self.code@,
                self.unpatched@,
                nconst,
            );
            lemma_unpatched_ok_after_append(pre.code@, pre.starts@, pre.unpatched@, self.code@);
            let s = pre.code@.len() as int;
            let knew = pre.starts@.len() as int;
            assert(self.starts@[knew] == s);
            assert(self.code@[s] == b);
            assert(self.code@[s + 1] == hi);
            assert(self.code@[s + 2] == lo);
            assert(spec_jump_offset(self.code@, s) == offset as int);
            let t = s + 3 - spec_jump_offset(self.code@, s);
            if fits {
                assert(t == loop_start as int);
                lemma_boundary_after_push(
                    pre.starts@,
                    pre.code@.len() as int,
                    self.code@.len() as int,
                    t,
                );
            } else {
                assert(t == s);
                assert(self.starts@[knew] == s);
                assert(self.starts@.contains(s));
            }
            assert(chunk_start_ok(
                self.code@,
                self.starts@,
                self.unpatched@,
                nconst,
                knew,
            ));
        }
        fits
    }

    /// Write the 16-bit distance of the forward jump whose operand starts at
    /// `site`, so that the jump lands exactly at the current end of `code`.
    /// Returns false iff the distance does not fit in 16 bits; the operand
    /// is then a harmless zero (the jump lands on the instruction after
    /// itself) and the caller reports a compile error.  Either way the site
    /// counts as patched.
    pub fn patch_jump(&mut self, site: usize) -> (fits: bool)
        requires
            old(self).wf(),
            old(self).unpatched@.contains(site as int),
        ensures
            final(self).wf(),
            final(self).unpatched@ == old(self).unpatched@.remove(site as int),
            final(self).starts@ == old(self).starts@,
            final(self).constants@ == old(self).constants@,
            final(self).lines@ == old(self).lines@,
            final(self).code@.len() == old(self).code@.len(),
            forall|i: int|
                0 <= i < old(self).code@.len() && i != site && i != site + 1
                    ==> final(self).code@[i] == old(self).code@[i],
            fits == (old(self).code@.len() - site - 2 <= 0xffff),
            fits ==> spec_jump_offset(final(self).code@, site - 1) == old(self).code@.len() - site
                - 2,
    {
        let ghost pre = *self;
        let ghost k0 = choose|k: int|
            0 <= k < pre.starts@.len() && pre.starts@[k] == site - 1 && spec_valid_op(
                pre.code@[site - 1],
            ) && spec_is_forward_jump(spec_decode_op(pre.code@[site - 1]));
        proof {
            assert(unpatched_site_ok(pre.code@, pre.starts@, site as int));
            assert(chunk_start_ok(
                pre.code@,
                pre.starts@,
                pre.unpatched@,
                pre.constants@.len() as int,
                k0,
            ));
            assert(spec_instr_size(spec_decode_op(pre.code@[site - 1])) == 3);
            assert(site + 2 <= pre.code@.len());
        }
        let len = self.code.len();
        let jump = len - site - 2;
        let fits = jump <= 0xffff;
        let offset: u32 = if fits {
            jump as u32
        } else {
            0
        };
        let (hi, lo) = split_u16(offset);
        self.code[site] = hi;
        let site1 = site + 1;
        self.code[site1] = lo;
        self.unpatched = Ghost(self.unpatched@.remove(site as int));
        proof {
            let nconst = pre.constants@.len() as int;
            let starts = pre.starts@;
            let s0 = site - 1;
            // no instruction other than the jump itself starts at the two
            // patched operand positions
            assert forall|k: int|
                0 <= k < starts.len() && k != k0 implies (starts[k] + spec_instr_size(
                spec_decode_op(pre.code@[starts[k]]),
            ) <= s0 || starts[k] >= site + 2) by {
                if k < k0 {
                    pre.lemma_starts_ordered(k, k0);
                } else {
                    pre.lemma_starts_ordered(k0, k);
                }
            }
            assert(spec_jump_offset(self.code@, s0) == offset as int);
            assert forall|k: int| 0 <= k < starts.len() implies chunk_start_ok(
                self.code@,
                starts,
                self.unpatched@,
                nconst,
                k,
            ) by {
                assert(chunk_start_ok(pre.code@, starts, pre.unpatched@, nconst, k));
                let s = starts[k];
                if k == k0 {
                    assert(self.code@[s] == pre.code@[s]);
                    let op = spec_decode_op(self.code@[s]);
                    let t = s + 3 + spec_jump_offset(self.code@, s);
                    if fits {
                        assert(t == pre.code@.len());
                    } else {
                        assert(t == site + 2);
                        if k0 + 1 < starts.len() {
                            assert(starts[k0 + 1] == site + 2);
                            assert(starts.contains(site + 2));
                        }
                    }
                } else {
                    let op = spec_decode_op(pre.code@[s]);
                    assert(self.code@[s] == pre.code@[s]);
                    if spec_instr_size(op) >= 2 {
                        assert(self.code@[s + 1] == pre.code@[s + 1]);
                    }
                    if spec_instr_size(op) == 3 {
                        assert(self.code@[s + 2] == pre.code@[s + 2]);
                        assert(spec_jump_offset(self.code@, s) == spec_jump_offset(pre.code@, s));
                    }
                    if spec_is_forward_jump(op) && !self.unpatched@.contains(s + 1) {
                        assert(s + 1 != site);
                        assert(!pre.unpatched@.contains(s + 1));
                    }
                }
            }
            assert forall|i: int| self.unpatched@.contains(i) implies unpatched_site_ok(
                self.code@,
                starts,
                i,
            ) by {
                assert(pre.unpatched@.contains(i));
                assert(unpatched_site_ok(pre.code@, starts, i));
                let k = choose|k: int|
                    0 <= k < starts.len() && starts[k] == i - 1 && spec_valid_op(pre.code@[i - 1])
                        && spec_is_forward_jump(spec_decode_op(pre.code@[i - 1]));
                assert(chunk_start_ok(pre.code@, starts, pre.unpatched@, nconst, k));
                if k == k0 {
                    assert(i == site as int);
                    assert(false);
                } else {
                    if k < k0 {
                        pre.lemma_starts_ordered(k, k0);
                        assert(spec_instr_size(spec_decode_op(pre.code@[i - 1])) == 3);
                    } else {
                        pre.lemma_starts_ordered(k0, k);
                    }
                    assert(i - 1 != site && i - 1 != site + 1);
                }
                assert(self.code@[i - 1] == pre.code@[i - 1]);
            }
        }
        fits
    }
}

/// One decoded instruction: the opcode and, where it carries one, its
/// operand -- a stack slot, a constant-pool index, or a 16-bit jump
/// distance.
#[derive(Clone, Copy, Debug, PartialEq, Eq, Structural)]
pub enum Instr {
    Simple(OpCode),
    WithSlot(OpCode, u8),
    WithConstant(OpCode, u8),
    WithDistance(OpCode, u16),
}

/// The decoded form of the instruction starting at `s`; meaningful only
/// when a valid instruction fits there.
pub open spec fn spec_instr_at(code: Seq<u8>, s: int) -> Instr {
    let op = spec_decode_op(code[s]);
    if spec_takes_constant(op) {
        Instr::WithConstant(op, code[s + 1])
    } else if spec_has_u8_operand(op) {
        Instr::WithSlot(op, code[s + 1])
    } else if spec_is_forward_jump(op) || op == OpCode::OpLoop {
        Instr::WithDistance(op, ((code[s + 1] as int) * 256 + (code[s + 2] as int)) as u16)
    } else {
        Instr::Simple(op)
    }
}

impl Chunk {
    /// Decode the instruction at `offset`, returning it together with the
    /// offset of the next instruction, or `None` if no valid instruction
    /// fits there.  This is the disassembler's core; rendering is the
    /// embedder's business.
    pub fn decode_instruction(&self, offset: usize) -> (r: Option<(Instr, usize)>)
        ensures
            ({
                let code = self.code@;
                if offset < code.len() && spec_valid_op(code[offset as int]) && offset
                    + spec_instr_size(spec_decode_op(code[offset as int])) <= code.len() {
                    match r {
                        Some(pair) => pair.0 == spec_instr_at(code, offset as int) && pair.1
                            == offset + spec_instr_size(spec_decode_op(code[offset as int])),
                        None => false,
                    }
                } else {
                    r is None
                }
            }),
    {
        let code_len = self.code.len();
        if offset >= code_len {
            return None;
        }
        let op = match opcode_from_u8(self.code[offset]) {
            Some(op) => op,
            None => {
                return None;
            },
        };
        match op {
            OpCode::OpConstant
            | OpCode::OpDefineGlobal
            | OpCode::OpGetGlobal
            | OpCode::OpSetGlobal => {
                if code_len - offset < 2 {
                    return None;
                }
                Some((Instr::WithConstant(op, self.code[offset + 1]), offset + 2))
            },
            OpCode::OpGetLocal | OpCode::OpSetLocal => {
                if code_len - offset < 2 {
                    return None;
                }
                Some((Instr::WithSlot(op, self.code[offset + 1]), offset + 2))
            },
            OpCode::OpJump | OpCode::OpJumpIfFalse | OpCode::OpLoop => {
                if code_len - offset < 3 {
                    return None;
                }
                let hi = self.code[offset + 1] as u16;
                let lo = self.code[offset + 2] as u16;
                Some((Instr::WithDistance(op, hi * 256 + lo), offset + 3))
            },
            _ => Some((Instr::Simple(op), offset + 1)),
        }
    }
}

/// Every unpatched site sits strictly inside the code emitted so far, so a
/// site at the current end of the code is certainly fresh.
pub proof fn lemma_unpatched_below_len(c: Chunk, i: int)
    requires
        c.wf(),
        c.unpatched@.contains(i),
    ensures
        i + 2 <= c.code@.len(),
{
    assert(unpatched_site_ok(c.code@, c.starts@, i));
    let k = choose|k: int|
        0 <= k < c.starts@.len() && c.starts@[k] == i - 1 && spec_valid_op(c.code@[i - 1])
            && spec_is_forward_jump(spec_decode_op(c.code@[i - 1]));
    assert(chunk_start_ok(c.code@, c.starts@, c.unpatched@, c.constants@.len() as int, k));
}

/// In a well-formed chunk every unpatched site lies strictly inside the
/// emitted code.
pub proof fn lemma_unpatched_all_below(c: Chunk)
    requires
        c.wf(),
    ensures
        forall|i: int| #[trigger] c.unpatched@.contains(i) ==> i + 2 <= c.code@.len(),
{
    assert forall|i: int| #[trigger] c.unpatched@.contains(i) implies i + 2 <= c.code@.len() by {
        lemma_unpatched_below_len(c, i);
    }
}

/// In a well-formed chunk the instruction stream and the source-line map
/// are parallel: every code byte has exactly one recorded line.
pub proof fn lemma_code_lines_parallel(c: Chunk)
    requires
        c.wf(),
    ensures
        c.code@.len() == c.lines@.len(),
{
}

/// In a well-formed chunk, the operand byte of every constant-loading
/// instruction (`CONSTANT`, `DEFINE_GLOBAL`, `GET_GLOBAL`, `SET_GLOBAL`) is
/// a valid index into the constant pool.
pub proof fn lemma_constant_operands_valid(c: Chunk, k: int)
    requires
        c.wf(),
        0 <= k < c.starts@.len(),
        spec_takes_constant(spec_decode_op(c.code@[c.starts@[k]])),
    ensures
        (c.code@[c.starts@[k] + 1] as int) < c.constants@.len(),
{
    assert(chunk_start_ok(c.code@, c.starts@, c.unpatched@, c.constants@.len() as int, k));
}

/// In a well-formed chunk with no unpatched jumps, the target of every
/// `JUMP` and `JUMP_IF_FALSE` -- the byte offset `start + 3 + distance` --
/// lies within `code` and at an instruction boundary.
pub proof fn lemma_forward_jump_targets_ok(c: Chunk, k: int)
    requires
        c.wf(),
        c.unpatched@ == Set::<int>::empty(),
        0 <= k < c.starts@.len(),
        spec_is_forward_jump(spec_decode_op(c.code@[c.starts@[k]])),
    ensures
        c.starts@[k] + 3 + spec_jump_offset(c.code@, c.starts@[k]) <= c.code@.len(),
        is_boundary(
            c.starts@,
            c.code@.len() as int,
            c.starts@[k] + 3 + spec_jump_offset(c.code@, c.starts@[k]),
        ),
{
    assert(chunk_start_ok(c.code@, c.starts@, c.unpatched@, c.constants@.len() as int, k));
    assert(!c.unpatched@.contains(c.starts@[k] + 1));
}

/// In a well-formed chunk, the target of every `LOOP` -- the byte offset
/// `start + 3 - distance` -- is non-negative and lies at an instruction
/// boundary.
pub proof fn lemma_loop_targets_ok(c: Chunk, k: int)
    requires
        c.wf(),
        0 <= k < c.starts@.len(),
        spec_decode_op(c.code@[c.starts@[k]]) == OpCode::OpLoop,
    ensures
        0 <= c.starts@[k] + 3 - spec_jump_offset(c.code@, c.starts@[k]),
        is_boundary(
            c.starts@,
            c.code@.len() as int,
            c.starts@[k] + 3 - spec_jump_offset(c.code@, c.starts@[k]),
        ),
{
    assert(chunk_start_ok(c.code@, c.starts@, c.unpatched@, c.constants@.len() as int, k));
}

} // verus!
