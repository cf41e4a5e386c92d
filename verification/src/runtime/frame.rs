//! Values held by the operand stack and local variables, and stack frames.
use vstd::prelude::*;

verus! {

/// A value on the operand stack or in a local variable. `F32` and `F64`
/// hold the IEEE 754 bits of a float and a double.
#[derive(Debug, Clone, Copy, PartialEq, Eq, Structural)]
pub enum Value {
    I32(i32),
    I64(i64),
    F32(u32),
    F64(u64),
    /// An index into the heap.
    Object(usize),
    Null,
    /// For the `ret` instruction.
    ReturnAddress(usize),
}

impl Value {
    /// The integer an `I32` value holds (0 for any other value).
    pub open spec fn i32_value(self) -> i32 {
        match self {
            Value::I32(v) => v,
            _ => 0,
        }
    }

    /// The integer an `I64` value holds (0 for any other value).
    pub open spec fn i64_value(self) -> i64 {
        match self {
            Value::I64(v) => v,
            _ => 0,
        }
    }

    /// The integer held by an `I32` value.
    pub fn as_i32(&self) -> (v: i32)
        requires
            self is I32,
        ensures
            *self == Value::I32(v),
    {
        match self {
            Value::I32(v) => *v,
            _ => 0,
        }
    }

    /// The integer held by an `I64` value.
    pub fn as_i64(&self) -> (v: i64)
        requires
            self is I64,
        ensures
            *self == Value::I64(v),
    {
        match self {
            Value::I64(v) => *v,
            _ => 0,
        }
    }

    /// The bits of the float held by an `F32` value.
    pub fn as_f32(&self) -> (v: u32)
        requires
            self is F32,
        ensures
            *self == Value::F32(v),
    {
        match self {
            Value::F32(v) => *v,
            _ => 0,
        }
    }

    /// The bits of the double held by an `F64` value.
    pub fn as_f64(&self) -> (v: u64)
        requires
            self is F64,
        ensures
            *self == Value::F64(v),
    {
        match self {
            Value::F64(v) => *v,
            _ => 0,
        }
    }

    /// The heap index held by an `Object` value (`Null` is not one).
    pub fn as_object(&self) -> (idx: usize)
        requires
            self is Object,
        ensures
            *self == Value::Object(idx),
    {
        match self {
            Value::Object(idx) => *idx,
            _ => 0,
        }
    }
}

/// A stack frame for the execution of one method.
pub struct Frame {
    /// Local variables.
    pub locals: Vec<Value>,
    /// The operand stack; its top is the last element.
    pub operand_stack: Vec<Value>,
    /// Index of the constant pool of the class this frame belongs to.
    pub constant_pool_idx: usize,
    /// The bytecode being executed.
    pub code: Vec<u8>,
    /// Program counter: an index into `code`.
    pub pc: usize,
    /// Name of the class whose method this frame runs.
    pub class_name: String,
}

/// The mathematical view of a frame.
pub struct FrameV {
    pub locals: Seq<Value>,
    pub stack: Seq<Value>,
    pub constant_pool_idx: usize,
    pub code: Seq<u8>,
    pub pc: usize,
    pub class_name: Seq<char>,
}

impl View for Frame {
    type V = FrameV;

    open spec fn view(&self) -> FrameV {
        FrameV {
            locals: self.locals@,
            stack: self.operand_stack@,
            constant_pool_idx: self.constant_pool_idx,
            code: self.code@,
            pc: self.pc,
            class_name: self.class_name@,
        }
    }
}

impl FrameV {
    /// The frame with `v` pushed onto its operand stack.
    pub open spec fn pushed(self, v: Value) -> FrameV {
        FrameV { stack: self.stack.push(v), ..self }
    }

    /// The frame with the top of its operand stack removed.
    pub open spec fn popped(self) -> FrameV {
        FrameV { stack: self.stack.drop_last(), ..self }
    }

    /// The frame with its top `n` operand stack values removed.
    pub open spec fn popped_n(self, n: nat) -> FrameV {
        FrameV { stack: self.stack.subrange(0, self.stack.len() - n), ..self }
    }

    /// The operand stack value `k` places below the top.
    pub open spec fn peek(self, k: int) -> Value {
        self.stack[self.stack.len() - 1 - k]
    }

    /// The frame with its program counter set to `pc`.
    pub open spec fn at(self, pc: int) -> FrameV {
        FrameV { pc: pc as usize, ..self }
    }

    /// The frame with local `i` set to `v`.
    pub open spec fn with_local(self, i: int, v: Value) -> FrameV {
        FrameV { locals: self.locals.update(i, v), ..self }
    }

    /// The code byte `k` places after the program counter.
    pub open spec fn byte(self, k: int) -> u8 {
        self.code[self.pc + k]
    }

    /// Whether `n` code bytes follow the program counter.
    pub open spec fn has_bytes(self, n: int) -> bool {
        self.pc + n <= self.code.len()
    }
}

/// The two bytes at `pc` as a big-endian unsigned number.
pub open spec fn code_u2(code: Seq<u8>, pc: int) -> u16 {
    (code[pc] as nat * 256 + code[pc + 1] as nat) as u16
}

/// The four bytes at `pc` as a big-endian two's-complement number.
pub open spec fn code_i32(code: Seq<u8>, pc: int) -> i32 {
    ((code[pc] as nat * 0x100_0000 + code[pc + 1] as nat * 0x1_0000 + code[pc + 2] as nat * 0x100
        + code[pc + 3] as nat) as u32) as i32
}

/// `max_locals` locals: the arguments first, zero integers after them.
pub open spec fn initial_locals(max_locals: nat, args: Seq<Value>) -> Seq<Value> {
    Seq::new(max_locals, |i: int| if i < args.len() { args[i] } else { Value::I32(0) })
}

impl Frame {
    /// A frame with `max_locals` locals holding `I32(0)`, an empty operand
    /// stack, and `code` to run from its start.
    pub fn new(max_locals: usize, code: Vec<u8>) -> (f: Self)
        ensures
            f@ == (FrameV {
                locals: initial_locals(max_locals as nat, Seq::empty()),
                stack: Seq::empty(),
                constant_pool_idx: 0,
                code: code@,
                pc: 0,
                class_name: Seq::empty(),
            }),
    {
        let mut locals: Vec<Value> = Vec::with_capacity(max_locals);
        let mut i: usize = 0;
        while i < max_locals
            invariant
                i <= max_locals,
                locals@ == Seq::new(i as nat, |k: int| Value::I32(0)),
            decreases max_locals - i,
        {
            locals.push(Value::I32(0));
            i = i + 1;
            proof {
                assert(locals@ =~= Seq::new(i as nat, |k: int| Value::I32(0)));
            }
        }
        proof {
            assert(locals@ =~= initial_locals(max_locals as nat, Seq::empty()));
        }
        Frame {
            locals,
            operand_stack: Vec::new(),
            constant_pool_idx: 0,
            code,
            pc: 0,
            class_name: String::new(),
        }
    }

    /// Like `new`, with the first locals set to `args` (those beyond
    /// `max_locals` are dropped).
    pub fn with_args(max_locals: usize, code: Vec<u8>, args: Vec<Value>) -> (f: Self)
        ensures
            f@ == (FrameV {
                locals: initial_locals(max_locals as nat, args@),
                stack: Seq::empty(),
                constant_pool_idx: 0,
                code: code@,
                pc: 0,
                class_name: Seq::empty(),
            }),
    {
        let mut frame = Self::new(max_locals, code);
        let mut i: usize = 0;
        while i < args.len()
            invariant
                i <= args@.len(),
                frame@.locals.len() == max_locals,
                frame@.stack == Seq::<Value>::empty(),
                frame@.constant_pool_idx == 0,
                frame@.code == code@,
                frame@.pc == 0,
                frame@.class_name == Seq::<char>::empty(),
                forall|k: int| 0 <= k < max_locals ==> #[trigger] frame@.locals[k] == if k < i {
                    args@[k]
                } else {
                    Value::I32(0)
                },
            decreases args@.len() - i,
        {
            if i < frame.locals.len() {
                frame.locals.set(i, args[i]);
            }
            i = i + 1;
        }
        proof {
            assert(frame@.locals =~= initial_locals(max_locals as nat, args@));
        }
        frame
    }

    /// Whether `n` code bytes follow the program counter.
    pub fn has_bytes(&self, n: usize) -> (b: bool)
        ensures
            b == self@.has_bytes(n as int),
    {
        self.pc <= self.code.len() && self.code.len() - self.pc >= n
    }

    /// The code byte `k` places after the program counter.
    pub fn code_byte(&self, k: usize) -> (b: u8)
        requires
            self.pc + k < self.code.len(),
        ensures
            b == self@.byte(k as int),
    {
        self.code[self.pc + k]
    }

    /// The two code bytes at the program counter as a big-endian number.
    pub fn code_u2(&self) -> (v: u16)
        requires
            self@.has_bytes(2),
        ensures
            v == code_u2(self@.code, self@.pc as int),
    {
        proof {
            assert(self.code@.len() == self.code.len());
        }
        let high = self.code[self.pc] as u16;
        let low = self.code[self.pc + 1] as u16;
        high * 256 + low
    }

    /// The operand stack value `k` places below the top.
    pub fn peek(&self, k: usize) -> (v: Value)
        requires
            k < self@.stack.len(),
        ensures
            v == self@.peek(k as int),
    {
        self.operand_stack[self.operand_stack.len() - 1 - k]
    }

    /// Pushes a value onto the operand stack.
    pub fn push(&mut self, value: Value)
        ensures
            final(self)@ == (FrameV { stack: old(self)@.stack.push(value), ..old(self)@ }),
    {
        self.operand_stack.push(value);
    }

    /// Pops the top of the operand stack.
    pub fn pop(&mut self) -> (v: Value)
        requires
            old(self)@.stack.len() > 0,
        ensures
            v == old(self)@.stack.last(),
            final(self)@ == (FrameV { stack: old(self)@.stack.drop_last(), ..old(self)@ }),
    {
        match self.operand_stack.pop() {
            Some(v) => v,
            None => Value::Null,
        }
    }

    /// Pops an `I32` from the operand stack.
    pub fn pop_i32(&mut self) -> (v: i32)
        requires
            old(self)@.stack.len() > 0,
            old(self)@.stack.last() is I32,
        ensures
            old(self)@.stack.last() == Value::I32(v),
            final(self)@ == (FrameV { stack: old(self)@.stack.drop_last(), ..old(self)@ }),
    {
        self.pop().as_i32()
    }

    /// Pops an `I64` from the operand stack.
    pub fn pop_i64(&mut self) -> (v: i64)
        requires
            old(self)@.stack.len() > 0,
            old(self)@.stack.last() is I64,
        ensures
            old(self)@.stack.last() == Value::I64(v),
            final(self)@ == (FrameV { stack: old(self)@.stack.drop_last(), ..old(self)@ }),
    {
        self.pop().as_i64()
    }

    /// Pops an `F32` from the operand stack; the result is the float's bits.
    pub fn pop_f32(&mut self) -> (v: u32)
        requires
            old(self)@.stack.len() > 0,
            old(self)@.stack.last() is F32,
        ensures
            old(self)@.stack.last() == Value::F32(v),
            final(self)@ == (FrameV { stack: old(self)@.stack.drop_last(), ..old(self)@ }),
    {
        self.pop().as_f32()
    }

    /// Pops an `F64` from the operand stack; the result is the double's bits.
    pub fn pop_f64(&mut self) -> (v: u64)
        requires
            old(self)@.stack.len() > 0,
            old(self)@.stack.last() is F64,
        ensures
            old(self)@.stack.last() == Value::F64(v),
            final(self)@ == (FrameV { stack: old(self)@.stack.drop_last(), ..old(self)@ }),
    {
        self.pop().as_f64()
    }

    /// Reads the byte at `pc` and moves past it.
    pub fn read_u1(&mut self) -> (v: u8)
        requires
            old(self)@.pc < old(self)@.code.len(),
        ensures
            v == old(self)@.code[old(self)@.pc as int],
            final(self)@ == (FrameV { pc: (old(self)@.pc + 1) as usize, ..old(self)@ }),
    {
        proof {
            assert(self.code@.len() == self.code.len());
        }
        let val = self.code[self.pc];
        self.pc = self.pc + 1;
        val
    }

    /// Reads the byte at `pc` as a signed number and moves past it.
    pub fn read_i8(&mut self) -> (v: i8)
        requires
            old(self)@.pc < old(self)@.code.len(),
        ensures
            v == old(self)@.code[old(self)@.pc as int] as i8,
            final(self)@ == (FrameV { pc: (old(self)@.pc + 1) as usize, ..old(self)@ }),
    {
        self.read_u1() as i8
    }

    /// Reads the two bytes at `pc` as a big-endian number and moves past them.
    pub fn read_u2(&mut self) -> (v: u16)
        requires
            old(self)@.pc + 2 <= old(self)@.code.len(),
        ensures
            v == code_u2(old(self)@.code, old(self)@.pc as int),
            final(self)@ == (FrameV { pc: (old(self)@.pc + 2) as usize, ..old(self)@ }),
    {
        proof {
            assert(self.code@.len() == self.code.len());
        }
        let high = self.code[self.pc] as u16;
        let low = self.code[self.pc + 1] as u16;
        self.pc = self.pc + 2;
        high * 256 + low
    }

    /// Reads the two bytes at `pc` as a big-endian signed number.
    pub fn read_i16(&mut self) -> (v: i16)
        requires
            old(self)@.pc + 2 <= old(self)@.code.len(),
        ensures
            v == code_u2(old(self)@.code, old(self)@.pc as int) as i16,
            final(self)@ == (FrameV { pc: (old(self)@.pc + 2) as usize, ..old(self)@ }),
    {
        self.read_u2() as i16
    }

    /// Reads the four bytes at `pc` as a big-endian signed number.
    pub fn read_i32(&mut self) -> (v: i32)
        requires
            old(self)@.pc + 4 <= old(self)@.code.len(),
        ensures
            v == code_i32(old(self)@.code, old(self)@.pc as int),
            final(self)@ == (FrameV { pc: (old(self)@.pc + 4) as usize, ..old(self)@ }),
    {
        proof {
            assert(self.code@.len() == self.code.len());
        }
        let b1 = self.code[self.pc] as u32;
        let b2 = self.code[self.pc + 1] as u32;
        let b3 = self.code[self.pc + 2] as u32;
        let b4 = self.code[self.pc + 3] as u32;
        self.pc = self.pc + 4;
        let u: u32 = b1 * 0x100_0000 + b2 * 0x1_0000 + b3 * 0x100 + b4;
        #[verifier::truncate]
        (u as i32)
    }
}

/// A value pushed onto the operand stack is the one popped next, and the
/// pop leaves the frame as it was before the push.
pub proof fn lemma_push_then_pop(f: FrameV, v: Value)
    ensures
        f.pushed(v).peek(0) == v,
        f.pushed(v).popped() == f,
{
    assert(f.pushed(v).popped().stack =~= f.stack);
}
} // verus!
