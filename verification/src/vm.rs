//! The virtual machine.
//!
//! A stack machine that executes one chunk: fetch, decode, dispatch.  It
//! owns the operand stack and the global environment.  Because numbers are
//! IEEE-754 doubles and the verified core performs no floating-point
//! arithmetic, the machine executes one instruction per `step` call and,
//! where a float must be computed, pauses and hands the embedder a request:
//! `NeedBinary` for `+ - * /` on two number bit patterns (answered with
//! `supply_number`), `NeedCompare` for `< >` and for epsilon equality
//! (answered with `supply_truth`).  Printing hands the embedder the value
//! to render.  A runtime error carries its structured message and source
//! line and clears the operand stack; `Bug` reports an internal
//! inconsistency (ill-formed bytecode or stack underflow) that no compiled
//! chunk produces.
//!
//! Every other instruction -- constants, globals, locals, jumps, loops,
//! truthiness, `!`, string concatenation, and IEEE-754 negation (a sign-bit
//! flip) -- is executed, and specified exactly, here.

use vstd::prelude::*;
use vstd::seq_lib::*;

use crate::chunk::Chunk;
use crate::chunk::Constant;
use crate::chunk::OpCode;
use crate::chunk::opcode_from_u8;
use crate::chunk::spec_decode_op;
use crate::chunk::spec_valid_op;
use crate::globals::Globals;
use crate::globals::spec_lookup;
use crate::scanner::copy_range;
use crate::value::SIGN_BIT;
use crate::value::Value;
use crate::value::ValueV;
use crate::value::spec_truthy;
use crate::value::spec_values_equal;

verus! {

/// How a whole run ends, as the embedder's driver reports it.
#[derive(Clone, Copy, Debug, PartialEq, Eq, Structural)]
pub enum InterpretResult {
    Success,
    CompileError,
    RuntimeError,
}

/// The arithmetic the embedder is asked to perform on two doubles.
#[derive(Clone, Copy, Debug, PartialEq, Eq, Structural)]
pub enum ArithOp {
    Add,
    Subtract,
    Multiply,
    Divide,
}

/// The comparison the embedder is asked to perform on two doubles:
/// ordering, or the language's epsilon equality `|a - b| < epsilon`.
#[derive(Clone, Copy, Debug, PartialEq, Eq, Structural)]
pub enum CompareOp {
    Greater,
    Less,
    NumEqual,
}

/// A runtime error's message.
#[derive(Clone, Debug)]
pub enum FaultKind {
    OperandMustBeNumber,
    OperandsMustBeNumbers,
    OperandsMustBeNumbersOrStrings,
    UndefinedVariable(Vec<u8>),
}

/// What one `step` call did, or asks of the embedder.
#[derive(Debug)]
pub enum StepEvent {
    Stepped,
    NeedBinary(ArithOp, u64, u64),
    NeedCompare(CompareOp, u64, u64),
    Output(Value),
    Finished,
    Fault(FaultKind, usize),
    Bug,
}

/// Whether the machine is waiting for an answer from the embedder.
#[derive(Clone, Copy, Debug, PartialEq, Eq, Structural)]
pub enum Pending {
    Idle,
    WantNumber,
    WantTruth,
}

/// The operand stack, as the sequence of its values' shapes.
pub open spec fn stack_views(s: Seq<Value>) -> Seq<ValueV> {
    s.map_values(|v: Value| v@)
}

/// The machine: the chunk it executes, the instruction pointer (a byte
/// offset), the operand stack, the global environment, and whether an
/// embedder answer is outstanding.
pub struct VM {
    pub chunk: Chunk,
    pub ip: usize,
    pub stack: Vec<Value>,
    pub globals: Globals,
    pub pending: Pending,
}

/// The source line recorded for the code byte at `ip` (0 if the line map
/// does not cover it).
pub open spec fn spec_line_of(pre: VM) -> usize {
    if pre.ip < pre.chunk.lines@.len() {
        pre.chunk.lines@[pre.ip as int]
    } else {
        0
    }
}

/// An internal-consistency violation: nothing observable changes.
pub open spec fn bug_case(pre: VM, post: VM, ev: StepEvent) -> bool {
    &&& ev is Bug
    &&& post.ip == pre.ip
    &&& stack_views(post.stack@) == stack_views(pre.stack@)
    &&& post.globals.entries@ == pre.globals.entries@
    &&& post.pending is Idle
}

/// An ordinary retired instruction: the new instruction pointer and stack,
/// with the globals untouched and the machine idle.
pub open spec fn stepped_case(
    pre: VM,
    post: VM,
    ev: StepEvent,
    new_ip: int,
    new_stack: Seq<ValueV>,
) -> bool {
    &&& ev is Stepped
    &&& post.ip == new_ip
    &&& stack_views(post.stack@) == new_stack
    &&& post.globals.entries@ == pre.globals.entries@
    &&& post.pending is Idle
}

/// A runtime error: the operand stack is cleared, the globals keep their
/// state as of the last successful write, and the machine is idle.
pub open spec fn fault_case(pre: VM, post: VM) -> bool {
    &&& stack_views(post.stack@) == Seq::<ValueV>::empty()
    &&& post.globals.entries@ == pre.globals.entries@
    &&& post.pending is Idle
}

/// A pause for the embedder: two number payloads left the stack and the
/// machine waits for the answer to push.
pub open spec fn asked_case(
    pre: VM,
    post: VM,
    new_ip: int,
    new_stack: Seq<ValueV>,
    want: Pending,
) -> bool {
    &&& post.ip == new_ip
    &&& stack_views(post.stack@) == new_stack
    &&& post.globals.entries@ == pre.globals.entries@
    &&& post.pending == want
}

/// The table after binding `key` to `v`, every other binding kept.
pub open spec fn global_insert(pre: VM, post: VM, key: Seq<u8>, v: ValueV) -> bool {
    forall|k: Seq<u8>|
        #[trigger] spec_lookup(post.globals.entries@, k) == if k == key {
            Some(v)
        } else {
            spec_lookup(pre.globals.entries@, k)
        }
}

/// The value a constant-pool entry pushes.
pub open spec fn constant_view(c: Constant) -> ValueV {
    match c {
        Constant::Number(b) => ValueV::VNum(b),
        Constant::Text(s) => ValueV::VStr(s@),
    }
}

/// The small-step semantics of the machine: what one `step` call does, as
/// a relation between the state before, the state after, and the event
/// returned.  The chunk never changes.
pub open spec fn step_spec(pre: VM, post: VM, ev: StepEvent) -> bool {
    let code = pre.chunk.code@;
    let st = stack_views(pre.stack@);
    let n = st.len() as int;
    let ip = pre.ip as int;
    let line = spec_line_of(pre);
    &&& post.chunk == pre.chunk
    &&& if ip >= code.len() || !spec_valid_op(code[ip]) {
        bug_case(pre, post, ev)
    } else {
        match spec_decode_op(code[ip]) {
            OpCode::OpConstant => {
                if ip + 1 >= code.len() {
                    bug_case(pre, post, ev)
                } else {
                    let idx = code[ip + 1] as int;
                    if idx >= pre.chunk.constants@.len() {
                        bug_case(pre, post, ev)
                    } else {
                        stepped_case(
                            pre,
                            post,
                            ev,
                            ip + 2,
                            st.push(constant_view(pre.chunk.constants@[idx])),
                        )
                    }
                }
            },
            OpCode::OpNil => stepped_case(pre, post, ev, ip + 1, st.push(ValueV::VNil)),
            OpCode::OpTrue => stepped_case(pre, post, ev, ip + 1, st.push(ValueV::VBool(true))),
            OpCode::OpFalse => stepped_case(pre, post, ev, ip + 1, st.push(ValueV::VBool(false))),
            OpCode::OpPop => {
                if n == 0 {
                    bug_case(pre, post, ev)
                } else {
                    stepped_case(pre, post, ev, ip + 1, st.drop_last())
                }
            },
            OpCode::OpDefineGlobal => {
                if ip + 1 >= code.len() {
                    bug_case(pre, post, ev)
                } else {
                    let idx = code[ip + 1] as int;
                    if idx >= pre.chunk.constants@.len() {
                        bug_case(pre, post, ev)
                    } else {
                        match pre.chunk.constants@[idx] {
                            Constant::Text(name) => {
                                if n == 0 {
                                    bug_case(pre, post, ev)
                                } else {
                                    &&& ev is Stepped
                                    &&& post.ip == ip + 2
                                    &&& stack_views(post.stack@) == st.drop_last()
                                    &&& post.pending is Idle
                                    &&& global_insert(pre, post, name@, st.last())
                                }
                            },
                            _ => bug_case(pre, post, ev),
                        }
                    }
                }
            },
            OpCode::OpGetLocal => {
                if ip + 1 >= code.len() {
                    bug_case(pre, post, ev)
                } else {
                    let slot = code[ip + 1] as int;
                    if slot >= n {
                        bug_case(pre, post, ev)
                    } else {
                        stepped_case(pre, post, ev, ip + 2, st.push(st[slot]))
                    }
                }
            },
            OpCode::OpSetLocal => {
                if ip + 1 >= code.len() {
                    bug_case(pre, post, ev)
                } else {
                    let slot = code[ip + 1] as int;
                    if slot >= n || n == 0 {
                        bug_case(pre, post, ev)
                    } else {
                        stepped_case(pre, post, ev, ip + 2, st.update(slot, st.last()))
                    }
                }
            },
            OpCode::OpGetGlobal => {
                if ip + 1 >= code.len() {
                    bug_case(pre, post, ev)
                } else {
                    let idx = code[ip + 1] as int;
                    if idx >= pre.chunk.constants@.len() {
                        bug_case(pre, post, ev)
                    } else {
                        match pre.chunk.constants@[idx] {
                            Constant::Text(name) => {
                                match spec_lookup(pre.globals.entries@, name@) {
                                    Some(v) => stepped_case(pre, post, ev, ip + 2, st.push(v)),
                                    None => {
                                        &&& fault_case(pre, post)
                                        &&& post.ip == ip + 2
                                        &&& (ev matches StepEvent::Fault(k, l) && l == line && (
                                        k matches FaultKind::UndefinedVariable(nm) && nm@ == name@))
                                    },
                                }
                            },
                            _ => bug_case(pre, post, ev),
                        }
                    }
                }
            },
            OpCode::OpSetGlobal => {
                if ip + 1 >= code.len() {
                    bug_case(pre, post, ev)
                } else {
                    let idx = code[ip + 1] as int;
                    if idx >= pre.chunk.constants@.len() {
                        bug_case(pre, post, ev)
                    } else {
                        match pre.chunk.constants@[idx] {
                            Constant::Text(name) => {
                                if n == 0 {
                                    bug_case(pre, post, ev)
                                } else {
                                    match spec_lookup(pre.globals.entries@, name@) {
                                        Some(_) => {
                                            &&& ev is Stepped
                                            &&& post.ip == ip + 2
                                            &&& stack_views(post.stack@) == st
                                            &&& post.pending is Idle
                                            &&& global_insert(pre, post, name@, st.last())
                                        },
                                        None => {
                                            &&& fault_case(pre, post)
                                            &&& post.ip == ip + 2
                                            &&& (ev matches StepEvent::Fault(k, l) && l == line
                                                && (k matches FaultKind::UndefinedVariable(nm)
                                                && nm@ == name@))
                                        },
                                    }
                                }
                            },
                            _ => bug_case(pre, post, ev),
                        }
                    }
                }
            },
            OpCode::OpEqual => {
                if n < 2 {
                    bug_case(pre, post, ev)
                } else {
                    let a = st[n - 2];
                    let b = st[n - 1];
                    if a is VNum && b is VNum {
                        &&& asked_case(pre, post, ip + 1, st.take(n - 2), Pending::WantTruth)
                        &&& (a matches ValueV::VNum(x) && b matches ValueV::VNum(y) && ev
                            == StepEvent::NeedCompare(CompareOp::NumEqual, x, y))
                    } else {
                        stepped_case(
                            pre,
                            post,
                            ev,
                            ip + 1,
                            st.take(n - 2).push(ValueV::VBool(spec_values_equal(a, b, false))),
                        )
                    }
                }
            },
            OpCode::OpGreater => {
                if n < 2 {
                    bug_case(pre, post, ev)
                } else {
                    let a = st[n - 2];
                    let b = st[n - 1];
                    if a is VNum && b is VNum {
                        &&& asked_case(pre, post, ip + 1, st.take(n - 2), Pending::WantTruth)
                        &&& (a matches ValueV::VNum(x) && b matches ValueV::VNum(y) && ev
                            == StepEvent::NeedCompare(CompareOp::Greater, x, y))
                    } else {
                        &&& fault_case(pre, post)
                        &&& post.ip == ip + 1
                        &&& ev == StepEvent::Fault(FaultKind::OperandsMustBeNumbers, line)
                    }
                }
            },
            OpCode::OpLess => {
                if n < 2 {
                    bug_case(pre, post, ev)
                } else {
                    let a = st[n - 2];
                    let b = st[n - 1];
                    if a is VNum && b is VNum {
                        &&& asked_case(pre, post, ip + 1, st.take(n - 2), Pending::WantTruth)
                        &&& (a matches ValueV::VNum(x) && b matches ValueV::VNum(y) && ev
                            == StepEvent::NeedCompare(CompareOp::Less, x, y))
                    } else {
                        &&& fault_case(pre, post)
                        &&& post.ip == ip + 1
                        &&& ev == StepEvent::Fault(FaultKind::OperandsMustBeNumbers, line)
                    }
                }
            },
            OpCode::OpAdd => {
                if n < 2 {
                    bug_case(pre, post, ev)
                } else {
                    let a = st[n - 2];
                    let b = st[n - 1];
                    if a is VNum && b is VNum {
                        &&& asked_case(pre, post, ip + 1, st.take(n - 2), Pending::WantNumber)
                        &&& (a matches ValueV::VNum(x) && b matches ValueV::VNum(y) && ev
                            == StepEvent::NeedBinary(ArithOp::Add, x, y))
                    } else if a is VStr && b is VStr {
                        &&& (a matches ValueV::VStr(x) && b matches ValueV::VStr(y)
                            && stepped_case(
                            pre,
                            post,
                            ev,
                            ip + 1,
                            st.take(n - 2).push(ValueV::VStr(x + y)),
                        ))
                    } else {
                        &&& fault_case(pre, post)
                        &&& post.ip == ip + 1
                        &&& ev == StepEvent::Fault(FaultKind::OperandsMustBeNumbersOrStrings, line)
                    }
                }
            },
            OpCode::OpSubtract => binary_num_case(pre, post, ev, ArithOp::Subtract),
            OpCode::OpMultiply => binary_num_case(pre, post, ev, ArithOp::Multiply),
            OpCode::OpDivide => binary_num_case(pre, post, ev, ArithOp::Divide),
            OpCode::OpNot => {
                if n == 0 {
                    bug_case(pre, post, ev)
                } else {
                    stepped_case(
                        pre,
                        post,
                        ev,
                        ip + 1,
                        st.update(n - 1, ValueV::VBool(!spec_truthy(st.last()))),
                    )
                }
            },
            OpCode::OpNegate => {
                if n == 0 {
                    bug_case(pre, post, ev)
                } else {
                    match st.last() {
                        ValueV::VNum(x) => stepped_case(
                            pre,
                            post,
                            ev,
                            ip + 1,
                            st.update(n - 1, ValueV::VNum(x ^ SIGN_BIT)),
                        ),
                        _ => {
                            &&& fault_case(pre, post)
                            &&& post.ip == ip + 1
                            &&& ev == StepEvent::Fault(FaultKind::OperandMustBeNumber, line)
                        },
                    }
                }
            },
            OpCode::OpPrint => {
                if n == 0 {
                    bug_case(pre, post, ev)
                } else {
                    &&& post.ip == ip + 1
                    &&& stack_views(post.stack@) == st.drop_last()
                    &&& post.globals.entries@ == pre.globals.entries@
                    &&& post.pending is Idle
                    &&& (ev matches StepEvent::Output(v) && v@ == st.last())
                }
            },
            OpCode::OpJumpIfFalse => {
                if ip + 2 >= code.len() {
                    bug_case(pre, post, ev)
                } else if n == 0 {
                    bug_case(pre, post, ev)
                } else {
                    let off = (code[ip + 1] as int) * 256 + (code[ip + 2] as int);
                    if spec_truthy(st.last()) {
                        stepped_case(pre, post, ev, ip + 3, st)
                    } else if off <= code.len() - ip - 3 {
                        stepped_case(pre, post, ev, ip + 3 + off, st)
                    } else {
                        bug_case(pre, post, ev)
                    }
                }
            },
            OpCode::OpJump => {
                if ip + 2 >= code.len() {
                    bug_case(pre, post, ev)
                } else {
                    let off = (code[ip + 1] as int) * 256 + (code[ip + 2] as int);
                    if off <= code.len() - ip - 3 {
                        stepped_case(pre, post, ev, ip + 3 + off, st)
                    } else {
                        bug_case(pre, post, ev)
                    }
                }
            },
            OpCode::OpLoop => {
                if ip + 2 >= code.len() {
                    bug_case(pre, post, ev)
                } else {
                    let off = (code[ip + 1] as int) * 256 + (code[ip + 2] as int);
                    if off <= ip + 3 {
                        stepped_case(pre, post, ev, ip + 3 - off, st)
                    } else {
                        bug_case(pre, post, ev)
                    }
                }
            },
            OpCode::OpReturn => {
                &&& ev is Finished
                &&& post.ip == ip + 1
                &&& stack_views(post.stack@) == st
                &&& post.globals.entries@ == pre.globals.entries@
                &&& post.pending is Idle
            },
        }
    }
}

impl VM {
    /// A fresh machine: empty chunk, empty stack, empty globals.
    pub fn new() -> (vm: VM)
        ensures
            vm.chunk.code@.len() == 0,
            vm.chunk.constants@.len() == 0,
            vm.chunk.lines@.len() == 0,
            vm.chunk.wf(),
            vm.ip == 0,
            vm.stack@.len() == 0,
            vm.globals.entries@.len() == 0,
            vm.pending is Idle,
    {
        VM {
            chunk: Chunk::new(),
            ip: 0,
            stack: Vec::new(),
            globals: Globals::new(),
            pending: Pending::Idle,
        }
    }

    /// Install a chunk for execution from its beginning.  The globals
    /// persist (successive runs in one session accumulate definitions);
    /// the stack is left as the previous run left it.
    pub fn load(&mut self, chunk: Chunk)
        ensures
            final(self).chunk == chunk,
            final(self).ip == 0,
            final(self).pending is Idle,
            final(self).stack == old(self).stack,
            final(self).globals == old(self).globals,
    {
        self.chunk = chunk;
        self.ip = 0;
        self.pending = Pending::Idle;
    }

    /// Depth of the operand stack.
    pub fn stack_len(&self) -> (r: usize)
        ensures
            r == self.stack@.len(),
    {
        self.stack.len()
    }

    /// The value bound to a global name, if any.
    pub fn global_value(&self, name: &Vec<u8>) -> (r: Option<Value>)
        ensures
            match r {
                Some(v) => spec_lookup(self.globals.entries@, name@) == Some(v@),
                None => spec_lookup(self.globals.entries@, name@) is None,
            },
    {
        self.globals.lookup(name)
    }

    /// Answer an outstanding `NeedBinary` request: the result is pushed
    /// and the machine is ready to step again.
    pub fn supply_number(&mut self, bits: u64)
        requires
            old(self).pending == Pending::WantNumber,
        ensures
            final(self).chunk == old(self).chunk,
            final(self).ip == old(self).ip,
            final(self).globals.entries@ == old(self).globals.entries@,
            final(self).pending is Idle,
            stack_views(final(self).stack@) == stack_views(old(self).stack@).push(
                ValueV::VNum(bits),
            ),
    {
        let ghost pre = *self;
        self.stack.push(Value::Number(bits));
        self.pending = Pending::Idle;
        proof {
            assert(stack_views(self.stack@) =~= stack_views(pre.stack@).push(ValueV::VNum(bits)));
        }
    }

    /// Answer an outstanding `NeedCompare` request: the boolean is pushed
    /// and the machine is ready to step again.
    pub fn supply_truth(&mut self, truth: bool)
        requires
            old(self).pending == Pending::WantTruth,
        ensures
            final(self).chunk == old(self).chunk,
            final(self).ip == old(self).ip,
            final(self).globals.entries@ == old(self).globals.entries@,
            final(self).pending is Idle,
            stack_views(final(self).stack@) == stack_views(old(self).stack@).push(
                ValueV::VBool(truth),
            ),
    {
        let ghost pre = *self;
        self.stack.push(Value::Bool(truth));
        self.pending = Pending::Idle;
        proof {
            assert(stack_views(self.stack@) =~= stack_views(pre.stack@).push(
                ValueV::VBool(truth),
            ));
        }
    }

    fn read_u16_at(&self, at: usize) -> (r: usize)
        requires
            at + 1 < self.chunk.code@.len(),
        ensures
            r == (self.chunk.code@[at as int] as int) * 256 + (self.chunk.code@[at + 1] as int),
            r <= 0xffff,
    {
        // the code length is a usize, so the offsets below cannot overflow
        let _ = self.chunk.code_len();
        let hi = self.chunk.read_byte(at) as usize;
        let lo = self.chunk.read_byte(at + 1) as usize;
        hi * 256 + lo
    }

    /// Clear the stack for a runtime error and report it.
    fn fault(&mut self, kind: FaultKind, line: usize) -> (ev: StepEvent)
        ensures
            final(self).chunk == old(self).chunk,
            final(self).ip == old(self).ip,
            final(self).globals.entries@ == old(self).globals.entries@,
            final(self).pending is Idle,
            stack_views(final(self).stack@) == Seq::<ValueV>::empty(),
            ev == StepEvent::Fault(kind, line),
    {
        self.stack.clear();
        self.pending = Pending::Idle;
        proof {
            assert(stack_views(self.stack@) =~= Seq::<ValueV>::empty());
        }
        StepEvent::Fault(kind, line)
    }

    /// Execute one instruction, per `step_spec`: retire it (`Stepped`),
    /// pause for the embedder (`NeedBinary` / `NeedCompare`), hand a value
    /// out to print (`Output`), finish (`Finished`), fail (`Fault`), or
    /// report ill-formed bytecode (`Bug`).
    #[verifier::rlimit(100)]
    pub fn step(&mut self) -> (ev: StepEvent)
        requires
            old(self).pending is Idle,
        ensures
            step_spec(*old(self), *final(self), ev),
    {
        let ghost pre = *self;
        let code_len = self.chunk.code_len();
        if self.ip >= code_len {
            return StepEvent::Bug;
        }
        let opb = self.chunk.read_byte(self.ip);
        let op = match opcode_from_u8(opb) {
            Some(op) => op,
            None => {
                return StepEvent::Bug;
            },
        };
        let line = if self.ip < self.chunk.lines.len() {
            self.chunk.line_at(self.ip)
        } else {
            0
        };
        match op {
            OpCode::OpConstant => {
                if self.ip + 1 >= code_len {
                    return StepEvent::Bug;
                }
                let idx = self.chunk.read_byte(self.ip + 1) as usize;
                if idx >= self.chunk.constants_len() {
                    return StepEvent::Bug;
                }
                let v = match self.chunk.get_constant(idx) {
                    Constant::Number(b) => Value::Number(*b),
                    Constant::Text(s) => {
                        let m = s.len();
                        let c = copy_range(s, 0, m);
                        proof {
                            assert(c@ =~= s@);
                        }
                        Value::ObjString(c)
                    },
                };
                self.stack.push(v);
                self.ip = self.ip + 2;
                proof {
                    assert(stack_views(self.stack@) =~= stack_views(pre.stack@).push(
                        constant_view(pre.chunk.constants@[idx as int]),
                    ));
                }
                StepEvent::Stepped
            },
            OpCode::OpNil => {
                self.stack.push(Value::Nil);
                self.ip = self.ip + 1;
                proof {
                    assert(stack_views(self.stack@) =~= stack_views(pre.stack@).push(
                        ValueV::VNil,
                    ));
                }
                StepEvent::Stepped
            },
            OpCode::OpTrue => {
                self.stack.push(Value::Bool(true));
                self.ip = self.ip + 1;
                proof {
                    assert(stack_views(self.stack@) =~= stack_views(pre.stack@).push(
                        ValueV::VBool(true),
                    ));
                }
                StepEvent::Stepped
            },
            OpCode::OpFalse => {
                self.stack.push(Value::Bool(false));
                self.ip = self.ip + 1;
                proof {
                    assert(stack_views(self.stack@) =~= stack_views(pre.stack@).push(
                        ValueV::VBool(false),
                    ));
                }
                StepEvent::Stepped
            },
            OpCode::OpPop => {
                if self.stack.len() == 0 {
                    return StepEvent::Bug;
                }
                let _ = self.stack.pop();
                self.ip = self.ip + 1;
                proof {
                    assert(stack_views(self.stack@) =~= stack_views(pre.stack@).drop_last());
                }
                StepEvent::Stepped
            },
            OpCode::OpDefineGlobal => {
                if self.ip + 1 >= code_len {
                    return StepEvent::Bug;
                }
                let idx = self.chunk.read_byte(self.ip + 1) as usize;
                if idx >= self.chunk.constants_len() {
                    return StepEvent::Bug;
                }
                let (is_text, name) = match self.chunk.get_constant(idx) {
                    Constant::Text(s) => {
                        let m = s.len();
                        let c = copy_range(s, 0, m);
                        proof {
                            assert(c@ =~= s@);
                        }
                        (true, c)
                    },
                    _ => (false, Vec::new()),
                };
                if !is_text {
                    return StepEvent::Bug;
                }
                if self.stack.len() == 0 {
                    return StepEvent::Bug;
                }
                let v = match self.stack.pop() {
                    Some(v) => v,
                    None => {
                        return StepEvent::Bug;
                    },
                };
                self.globals.define(name, v);
                self.ip = self.ip + 2;
                proof {
                    assert(stack_views(self.stack@) =~= stack_views(pre.stack@).drop_last());
                    assert(v@ == stack_views(pre.stack@).last());
                }
                StepEvent::Stepped
            },
            OpCode::OpGetLocal => {
                if self.ip + 1 >= code_len {
                    return StepEvent::Bug;
                }
                let slot = self.chunk.read_byte(self.ip + 1) as usize;
                if slot >= self.stack.len() {
                    return StepEvent::Bug;
                }
                let v = self.stack[slot].duplicate();
                self.stack.push(v);
                self.ip = self.ip + 2;
                proof {
                    assert(stack_views(self.stack@) =~= stack_views(pre.stack@).push(
                        stack_views(pre.stack@)[slot as int],
                    ));
                }
                StepEvent::Stepped
            },
            OpCode::OpSetLocal => {
                if self.ip + 1 >= code_len {
                    return StepEvent::Bug;
                }
                let slot = self.chunk.read_byte(self.ip + 1) as usize;
                let k = self.stack.len();
                if slot >= k || k == 0 {
                    return StepEvent::Bug;
                }
                let v = self.stack[k - 1].duplicate();
                self.stack[slot] = v;
                self.ip = self.ip + 2;
                proof {
                    assert(stack_views(self.stack@) =~= stack_views(pre.stack@).update(
                        slot as int,
                        stack_views(pre.stack@).last(),
                    ));
                }
                StepEvent::Stepped
            },
            OpCode::OpGetGlobal => {
                if self.ip + 1 >= code_len {
                    return StepEvent::Bug;
                }
                let idx = self.chunk.read_byte(self.ip + 1) as usize;
                if idx >= self.chunk.constants_len() {
                    return StepEvent::Bug;
                }
                let (is_text, name) = match self.chunk.get_constant(idx) {
                    Constant::Text(s) => {
                        let m = s.len();
                        let c = copy_range(s, 0, m);
                        proof {
                            assert(c@ =~= s@);
                        }
                        (true, c)
                    },
                    _ => (false, Vec::new()),
                };
                if !is_text {
                    return StepEvent::Bug;
                }
                match self.globals.lookup(&name) {
                    Some(v) => {
                        self.stack.push(v);
                        self.ip = self.ip + 2;
                        proof {
                            assert(stack_views(self.stack@) =~= stack_views(pre.stack@).push(
                                spec_lookup(pre.globals.entries@, name@)->Some_0,
                            ));
                        }
                        StepEvent::Stepped
                    },
                    None => {
                        self.ip = self.ip + 2;
                        self.fault(FaultKind::UndefinedVariable(name), line)
                    },
                }
            },
            OpCode::OpSetGlobal => {
                if self.ip + 1 >= code_len {
                    return StepEvent::Bug;
                }
                let idx = self.chunk.read_byte(self.ip + 1) as usize;
                if idx >= self.chunk.constants_len() {
                    return StepEvent::Bug;
                }
                let (is_text, name) = match self.chunk.get_constant(idx) {
                    Constant::Text(s) => {
                        let m = s.len();
                        let c = copy_range(s, 0, m);
                        proof {
                            assert(c@ =~= s@);
                        }
                        (true, c)
                    },
                    _ => (false, Vec::new()),
                };
                if !is_text {
                    return StepEvent::Bug;
                }
                let k = self.stack.len();
                if k == 0 {
                    return StepEvent::Bug;
                }
                let v = self.stack[k - 1].duplicate();
                let assigned = self.globals.assign(&name, v);
                if assigned {
                    self.ip = self.ip + 2;
                    proof {
                        assert(stack_views(self.stack@) == stack_views(pre.stack@));
                        assert(v@ == stack_views(pre.stack@).last());
                    }
                    StepEvent::Stepped
                } else {
                    self.ip = self.ip + 2;
                    self.fault(FaultKind::UndefinedVariable(name), line)
                }
            },
            OpCode::OpEqual => {
                if self.stack.len() < 2 {
                    return StepEvent::Bug;
                }
                let b = match self.stack.pop() {
                    Some(v) => v,
                    None => {
                        proof {
                            assert(false);
                        }
                        return StepEvent::Bug;
                    },
                };
                let a = match self.stack.pop() {
                    Some(v) => v,
                    None => {
                        proof {
                            assert(false);
                        }
                        return StepEvent::Bug;
                    },
                };
                proof {
                    assert(stack_views(self.stack@) =~= stack_views(pre.stack@).take(
                        stack_views(pre.stack@).len() - 2,
                    ));
                }
                match (&a, &b) {
                    (Value::Number(x), Value::Number(y)) => {
                        self.pending = Pending::WantTruth;
                        self.ip = self.ip + 1;
                        StepEvent::NeedCompare(CompareOp::NumEqual, *x, *y)
                    },
                    _ => {
                        let eq = crate::value::values_equal(&a, &b, false);
                        self.stack.push(Value::Bool(eq));
                        self.ip = self.ip + 1;
                        proof {
                            assert(stack_views(self.stack@) =~= stack_views(pre.stack@).take(
                                stack_views(pre.stack@).len() - 2,
                            ).push(ValueV::VBool(eq)));
                        }
                        StepEvent::Stepped
                    },
                }
            },
            OpCode::OpGreater => self.binary_op_bool(CompareOp::Greater, line),
            OpCode::OpLess => self.binary_op_bool(CompareOp::Less, line),
            OpCode::OpAdd => {
                if self.stack.len() < 2 {
                    return StepEvent::Bug;
                }
                let b = match self.stack.pop() {
                    Some(v) => v,
                    None => {
                        proof {
                            assert(false);
                        }
                        return StepEvent::Bug;
                    },
                };
                let a = match self.stack.pop() {
                    Some(v) => v,
                    None => {
                        proof {
                            assert(false);
                        }
                        return StepEvent::Bug;
                    },
                };
                proof {
                    assert(stack_views(self.stack@) =~= stack_views(pre.stack@).take(
                        stack_views(pre.stack@).len() - 2,
                    ));
                }
                match (a, b) {
                    (Value::Number(x), Value::Number(y)) => {
                        self.pending = Pending::WantNumber;
                        self.ip = self.ip + 1;
                        StepEvent::NeedBinary(ArithOp::Add, x, y)
                    },
                    (Value::ObjString(x), Value::ObjString(y)) => {
                        let mut cat = x;
                        let mut rest = y;
                        cat.append(&mut rest);
                        self.stack.push(Value::ObjString(cat));
                        self.ip = self.ip + 1;
                        proof {
                            assert(stack_views(self.stack@) =~= stack_views(pre.stack@).take(
                                stack_views(pre.stack@).len() - 2,
                            ).push(stack_views(self.stack@).last()));
                        }
                        StepEvent::Stepped
                    },
                    _ => self.fault_advance_one(FaultKind::OperandsMustBeNumbersOrStrings, line),
                }
            },
            OpCode::OpSubtract => self.binary_op(ArithOp::Subtract, line),
            OpCode::OpMultiply => self.binary_op(ArithOp::Multiply, line),
            OpCode::OpDivide => self.binary_op(ArithOp::Divide, line),
            OpCode::OpNot => {
                let k = self.stack.len();
                if k == 0 {
                    return StepEvent::Bug;
                }
                let t = self.stack[k - 1].truthy();
                self.stack[k - 1] = Value::Bool(!t);
                self.ip = self.ip + 1;
                proof {
                    assert(stack_views(self.stack@) =~= stack_views(pre.stack@).update(
                        stack_views(pre.stack@).len() - 1,
                        ValueV::VBool(!spec_truthy(stack_views(pre.stack@).last())),
                    ));
                }
                StepEvent::Stepped
            },
            OpCode::OpNegate => {
                let k = self.stack.len();
                if k == 0 {
                    return StepEvent::Bug;
                }
                let top_bits: Option<u64> = match &self.stack[k - 1] {
                    Value::Number(x) => Some(*x),
                    _ => None,
                };
                match top_bits {
                    Some(x) => {
                        self.stack[k - 1] = Value::Number(x ^ SIGN_BIT);
                        self.ip = self.ip + 1;
                        proof {
                            assert(stack_views(self.stack@) =~= stack_views(pre.stack@).update(
                                stack_views(pre.stack@).len() - 1,
                                ValueV::VNum(x ^ SIGN_BIT),
                            ));
                        }
                        StepEvent::Stepped
                    },
                    None => self.fault_advance_one(FaultKind::OperandMustBeNumber, line),
                }
            },
            OpCode::OpPrint => {
                if self.stack.len() == 0 {
                    return StepEvent::Bug;
                }
                let v = match self.stack.pop() {
                    Some(v) => v,
                    None => {
                        return StepEvent::Bug;
                    },
                };
                self.ip = self.ip + 1;
                proof {
                    assert(stack_views(self.stack@) =~= stack_views(pre.stack@).drop_last());
                    assert(v@ == stack_views(pre.stack@).last());
                }
                StepEvent::Output(v)
            },
            OpCode::OpJumpIfFalse => {
                if code_len - self.ip <= 2 {
                    return StepEvent::Bug;
                }
                let k = self.stack.len();
                if k == 0 {
                    return StepEvent::Bug;
                }
                let off = self.read_u16_at(self.ip + 1);
                let t = self.stack[k - 1].truthy();
                if t {
                    self.ip = self.ip + 3;
                    StepEvent::Stepped
                } else {
                    let rest = code_len - self.ip - 3;
                    if off <= rest {
                        self.ip = self.ip + 3 + off;
                        StepEvent::Stepped
                    } else {
                        StepEvent::Bug
                    }
                }
            },
            OpCode::OpJump => {
                if code_len - self.ip <= 2 {
                    return StepEvent::Bug;
                }
                let off = self.read_u16_at(self.ip + 1);
                let rest = code_len - self.ip - 3;
                if off <= rest {
                    self.ip = self.ip + 3 + off;
                    StepEvent::Stepped
                } else {
                    StepEvent::Bug
                }
            },
            OpCode::OpLoop => {
                if code_len - self.ip <= 2 {
                    return StepEvent::Bug;
                }
                let off = self.read_u16_at(self.ip + 1);
                if off <= self.ip + 3 {
                    self.ip = self.ip + 3 - off;
                    StepEvent::Stepped
                } else {
                    StepEvent::Bug
                }
            },
            OpCode::OpReturn => {
                self.ip = self.ip + 1;
                StepEvent::Finished
            },
        }
    }

    /// The shared dispatch of `GREATER` and `LESS`: pop two numbers and
    /// ask the embedder to compare them, or fail on a type mismatch.
    fn binary_op_bool(&mut self, op: CompareOp, line: usize) -> (ev: StepEvent)
        requires
            old(self).pending is Idle,
            old(self).ip < usize::MAX,
            line == spec_line_of(*old(self)),
            op != CompareOp::NumEqual,
        ensures
            final(self).chunk == old(self).chunk,
            ({
                let st = stack_views(old(self).stack@);
                let n = st.len() as int;
                if n < 2 {
                    bug_case(*old(self), *final(self), ev)
                } else {
                    let a = st[n - 2];
                    let b = st[n - 1];
                    if a is VNum && b is VNum {
                        &&& asked_case(
                            *old(self),
                            *final(self),
                            old(self).ip + 1,
                            st.take(n - 2),
                            Pending::WantTruth,
                        )
                        &&& (a matches ValueV::VNum(x) && b matches ValueV::VNum(y) && ev
                            == StepEvent::NeedCompare(op, x, y))
                    } else {
                        &&& fault_case(*old(self), *final(self))
                        &&& final(self).ip == old(self).ip + 1
                        &&& ev == StepEvent::Fault(FaultKind::OperandsMustBeNumbers, line)
                    }
                }
            }),
    {
        let ghost pre = *self;
        if self.stack.len() < 2 {
            return StepEvent::Bug;
        }
        let b = match self.stack.pop() {
            Some(v) => v,
            None => {
                proof {
                    assert(false);
                }
                return StepEvent::Bug;
            },
        };
        let a = match self.stack.pop() {
            Some(v) => v,
            None => {
                proof {
                    assert(false);
                }
                return StepEvent::Bug;
            },
        };
        proof {
            assert(stack_views(self.stack@) =~= stack_views(pre.stack@).take(
                stack_views(pre.stack@).len() - 2,
            ));
        }
        match (&a, &b) {
            (Value::Number(x), Value::Number(y)) => {
                self.pending = Pending::WantTruth;
                self.ip = self.ip + 1;
                StepEvent::NeedCompare(op, *x, *y)
            },
            _ => self.fault_advance_one(FaultKind::OperandsMustBeNumbers, line),
        }
    }

    /// The shared dispatch of `SUBTRACT`, `MULTIPLY` and `DIVIDE`.
    fn binary_op(&mut self, op: ArithOp, line: usize) -> (ev: StepEvent)
        requires
            old(self).pending is Idle,
            old(self).ip < usize::MAX,
            line == spec_line_of(*old(self)),
        ensures
            final(self).chunk == old(self).chunk,
            binary_num_case(*old(self), *final(self), ev, op),
    {
        let ghost pre = *self;
        if self.stack.len() < 2 {
            return StepEvent::Bug;
        }
        let b = match self.stack.pop() {
            Some(v) => v,
            None => {
                proof {
                    assert(false);
                }
                return StepEvent::Bug;
            },
        };
        let a = match self.stack.pop() {
            Some(v) => v,
            None => {
                proof {
                    assert(false);
                }
                return StepEvent::Bug;
            },
        };
        proof {
            assert(stack_views(self.stack@) =~= stack_views(pre.stack@).take(
                stack_views(pre.stack@).len() - 2,
            ));
        }
        match (&a, &b) {
            (Value::Number(x), Value::Number(y)) => {
                self.pending = Pending::WantNumber;
                self.ip = self.ip + 1;
                StepEvent::NeedBinary(op, *x, *y)
            },
            _ => self.fault_advance_one(FaultKind::OperandsMustBeNumbers, line),
        }
    }

    /// Fail after the instruction pointer has passed the opcode byte.
    fn fault_advance_one(&mut self, kind: FaultKind, line: usize) -> (ev: StepEvent)
        requires
            old(self).ip < usize::MAX,
        ensures
            final(self).chunk == old(self).chunk,
            final(self).ip == old(self).ip + 1,
            final(self).globals.entries@ == old(self).globals.entries@,
            final(self).pending is Idle,
            stack_views(final(self).stack@) == Seq::<ValueV>::empty(),
            ev == StepEvent::Fault(kind, line),
    {
        self.ip = self.ip + 1;
        self.fault(kind, line)
    }
}

/// On a well-formed chunk with every jump patched -- which is what the
/// compiler hands over for a well-formed program -- stepping a `JUMP` or a
/// `LOOP` from an instruction boundary retires it and lands the
/// instruction pointer on an instruction boundary again (or exactly at the
/// end of the code), never inside an instruction and never out of bounds.
pub proof fn lemma_jump_lands_on_boundary(pre: VM, post: VM, ev: StepEvent, k: int)
    requires
        step_spec(pre, post, ev),
        pre.chunk.wf(),
        pre.chunk.unpatched@ == Set::<int>::empty(),
        0 <= k < pre.chunk.starts@.len(),
        pre.chunk.starts@[k] == pre.ip,
        spec_decode_op(pre.chunk.code@[pre.ip as int]) == OpCode::OpJump || spec_decode_op(
            pre.chunk.code@[pre.ip as int],
        ) == OpCode::OpLoop,
    ensures
        ev is Stepped,
        crate::chunk::is_boundary(
            pre.chunk.starts@,
            pre.chunk.code@.len() as int,
            post.ip as int,
        ),
{
    let code = pre.chunk.code@;
    let ip = pre.ip as int;
    assert(crate::chunk::chunk_start_ok(
        code,
        pre.chunk.starts@,
        pre.chunk.unpatched@,
        pre.chunk.constants@.len() as int,
        k,
    ));
    let op = spec_decode_op(code[ip]);
    assert(crate::chunk::spec_instr_size(op) == 3);
    if op == OpCode::OpJump {
        crate::chunk::lemma_forward_jump_targets_ok(pre.chunk, k);
        assert(!pre.chunk.unpatched@.contains(ip + 1));
        let t = ip + 3 + crate::chunk::spec_jump_offset(code, ip);
        assert(t <= code.len());
        assert(post.ip == t);
    } else {
        crate::chunk::lemma_loop_targets_ok(pre.chunk, k);
        let t = ip + 3 - crate::chunk::spec_jump_offset(code, ip);
        assert(0 <= t);
        assert(post.ip == t);
    }
}

/// The same for `JUMP_IF_FALSE`, whichever way the condition went: from an
/// instruction boundary of a well-formed, fully patched chunk, with a value
/// on the stack to test, the step retires and the instruction pointer lands
/// on a boundary -- the following instruction or the jump's target.
pub proof fn lemma_jump_if_false_lands_on_boundary(pre: VM, post: VM, ev: StepEvent, k: int)
    requires
        step_spec(pre, post, ev),
        pre.chunk.wf(),
        pre.chunk.unpatched@ == Set::<int>::empty(),
        0 <= k < pre.chunk.starts@.len(),
        pre.chunk.starts@[k] == pre.ip,
        spec_decode_op(pre.chunk.code@[pre.ip as int]) == OpCode::OpJumpIfFalse,
        stack_views(pre.stack@).len() > 0,
    ensures
        ev is Stepped,
        crate::chunk::is_boundary(
            pre.chunk.starts@,
            pre.chunk.code@.len() as int,
            post.ip as int,
        ),
{
    let code = pre.chunk.code@;
    let ip = pre.ip as int;
    assert(crate::chunk::chunk_start_ok(
        code,
        pre.chunk.starts@,
        pre.chunk.unpatched@,
        pre.chunk.constants@.len() as int,
        k,
    ));
    crate::chunk::lemma_forward_jump_targets_ok(pre.chunk, k);
    assert(!pre.chunk.unpatched@.contains(ip + 1));
    if spec_truthy(stack_views(pre.stack@).last()) {
        assert(post.ip == ip + 3);
        if k + 1 < pre.chunk.starts@.len() {
            assert(pre.chunk.starts@[k + 1] == ip + 3);
            assert(pre.chunk.starts@.contains(ip + 3));
        }
    } else {
        let t = ip + 3 + crate::chunk::spec_jump_offset(code, ip);
        assert(t <= code.len());
        assert(post.ip == t);
    }
}

/// Short circuit, the falsey half: a step on `JUMP_IF_FALSE` with a falsey
/// value on top adds the 16-bit distance to the instruction pointer, so the
/// jumped-over code -- the right operand of `and`, compiled between the
/// jump and its target -- is never executed; the falsey value stays on the
/// stack as the result.
pub proof fn lemma_jump_if_false_falsey(pre: VM, post: VM, ev: StepEvent)
    requires
        step_spec(pre, post, ev),
        pre.ip + 2 < pre.chunk.code@.len(),
        spec_valid_op(pre.chunk.code@[pre.ip as int]),
        spec_decode_op(pre.chunk.code@[pre.ip as int]) == OpCode::OpJumpIfFalse,
        stack_views(pre.stack@).len() > 0,
        !spec_truthy(stack_views(pre.stack@).last()),
        (pre.chunk.code@[pre.ip + 1] as int) * 256 + (pre.chunk.code@[pre.ip + 2] as int)
            <= pre.chunk.code@.len() - pre.ip - 3,
    ensures
        ev is Stepped,
        post.ip == pre.ip + 3 + (pre.chunk.code@[pre.ip + 1] as int) * 256 + (pre.chunk.code@[pre.ip
            + 2] as int),
        stack_views(post.stack@) == stack_views(pre.stack@),
        post.globals.entries@ == pre.globals.entries@,
{
}

/// Short circuit, the truthy half: a step on `JUMP_IF_FALSE` with a truthy
/// value on top falls through to the next instruction, leaving the stack
/// untouched -- so for `or`, whose compiled form jumps over an
/// unconditional `JUMP` around the right operand, the truthy left value
/// survives as the result without the right operand running.
pub proof fn lemma_jump_if_false_truthy(pre: VM, post: VM, ev: StepEvent)
    requires
        step_spec(pre, post, ev),
        pre.ip + 2 < pre.chunk.code@.len(),
        spec_valid_op(pre.chunk.code@[pre.ip as int]),
        spec_decode_op(pre.chunk.code@[pre.ip as int]) == OpCode::OpJumpIfFalse,
        stack_views(pre.stack@).len() > 0,
        spec_truthy(stack_views(pre.stack@).last()),
    ensures
        ev is Stepped,
        post.ip == pre.ip + 3,
        stack_views(post.stack@) == stack_views(pre.stack@),
        post.globals.entries@ == pre.globals.entries@,
{
}

/// The common shape of `SUBTRACT`, `MULTIPLY` and `DIVIDE`: both operands
/// must be numbers, and the embedder computes the result.
pub open spec fn binary_num_case(pre: VM, post: VM, ev: StepEvent, op: ArithOp) -> bool {
    let st = stack_views(pre.stack@);
    let n = st.len() as int;
    let ip = pre.ip as int;
    let line = spec_line_of(pre);
    if n < 2 {
        bug_case(pre, post, ev)
    } else {
        let a = st[n - 2];
        let b = st[n - 1];
        if a is VNum && b is VNum {
            &&& asked_case(pre, post, ip + 1, st.take(n - 2), Pending::WantNumber)
            &&& (a matches ValueV::VNum(x) && b matches ValueV::VNum(y) && ev
                == StepEvent::NeedBinary(op, x, y))
        } else {
            &&& fault_case(pre, post)
            &&& post.ip == ip + 1
            &&& ev == StepEvent::Fault(FaultKind::OperandsMustBeNumbers, line)
        }
    }
}

} // verus!
