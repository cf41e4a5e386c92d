//! Instructions that push constants.
use vstd::prelude::*;
use crate::instructions::{continue_with, instruction_effect, Effect};
use crate::runtime::frame::{code_u2, Value};
use crate::runtime::thread::{lemma_with_top, ExecutionResult, ResultV, Thread, ThreadV};

verus! {

/// Pushes `v` onto the operand stack of the top frame.
pub open spec fn push_effect(t: ThreadV, v: Value) -> Effect {
    if t.stack.len() == 0 {
        Effect::Trap
    } else {
        continue_with(t, t.top().pushed(v))
    }
}

/// The int that `iconst_<n>` (opcodes 0x03 to 0x08) pushes.
pub open spec fn iconst_value(op: u8) -> Value {
    Value::I32((op - 3) as i32)
}

/// `bipush`: pushes the next code byte, sign-extended.
pub open spec fn bipush_effect(t: ThreadV) -> Effect {
    if t.stack.len() == 0 || !t.top().has_bytes(1) {
        Effect::Trap
    } else {
        let f = t.top();
        continue_with(t, f.at(f.pc + 1).pushed(Value::I32(f.byte(0) as i8 as i32)))
    }
}

/// `sipush`: pushes the next two code bytes, a big-endian signed number.
pub open spec fn sipush_effect(t: ThreadV) -> Effect {
    if t.stack.len() == 0 || !t.top().has_bytes(2) {
        Effect::Trap
    } else {
        let f = t.top();
        continue_with(t, f.at(f.pc + 2).pushed(Value::I32(code_u2(f.code, f.pc as int) as i16 as i32)))
    }
}

/// `nop`: does nothing.
pub fn nop(thread: &mut Thread) -> (r: ExecutionResult)
    ensures
        final(thread)@ == old(thread)@,
        r@ == ResultV::Continue,
{
    ExecutionResult::Continue
}

/// `iconst_m1`: pushes -1.
pub fn iconst_m1(thread: &mut Thread) -> (r: ExecutionResult)
    requires
        push_effect(old(thread)@, Value::I32(-1i32)) is Done,
    ensures
        push_effect(old(thread)@, Value::I32(-1i32)) == Effect::Done(final(thread)@, r@),
{
    iconst(thread, -1)
}

/// `iconst_<n>`: pushes `val`.
pub fn iconst(thread: &mut Thread, val: i32) -> (r: ExecutionResult)
    requires
        push_effect(old(thread)@, Value::I32(val)) is Done,
    ensures
        push_effect(old(thread)@, Value::I32(val)) == Effect::Done(final(thread)@, r@),
{
    thread.current_frame().push(Value::I32(val));
    ExecutionResult::Continue
}

/// `bipush`: pushes a byte as an integer.
pub fn bipush(thread: &mut Thread) -> (r: ExecutionResult)
    requires
        bipush_effect(old(thread)@) is Done,
    ensures
        bipush_effect(old(thread)@) == Effect::Done(final(thread)@, r@),
{
    let frame = thread.current_frame();
    let val = frame.read_i8() as i32;
    frame.push(Value::I32(val));
    ExecutionResult::Continue
}

/// `sipush`: pushes a short as an integer.
pub fn sipush(thread: &mut Thread) -> (r: ExecutionResult)
    requires
        sipush_effect(old(thread)@) is Done,
    ensures
        sipush_effect(old(thread)@) == Effect::Done(final(thread)@, r@),
{
    let frame = thread.current_frame();
    let val = frame.read_i16() as i32;
    frame.push(Value::I32(val));
    ExecutionResult::Continue
}

/// `iconst_m1` to `iconst_5` (opcodes 0x02 to 0x08) push the ints -1 to 5,
/// `bipush` its operand byte as a signed number and `sipush` its two
/// operand bytes as a signed big-endian number, moving past the operands.
pub proof fn lemma_constant_opcodes(op: u8, t: ThreadV)
    requires
        0x02 <= op <= 0x08 || op == 0x10 || op == 0x11,
        instruction_effect(op, t) is Done,
    ensures
        ({
            let f = t.top();
            let (k, width): (int, int) = if op == 0x10 {
                (f.code[f.pc as int] as i8 as int, 1)
            } else if op == 0x11 {
                ((f.code[f.pc as int] as nat * 256 + f.code[f.pc + 1] as nat) as u16 as i16 as int, 2)
            } else {
                (op - 3, 0)
            };
            instruction_effect(op, t) matches Effect::Done(t2, r) && {
                &&& r == ResultV::Continue
                &&& t2.stack.len() == t.stack.len()
                &&& t2.top().pc == (f.pc + width) as usize
                &&& t2.top().locals == f.locals
                &&& t2.top().stack == f.stack.push(Value::I32(k as i32))
                &&& -128 <= k < 128 || op == 0x11
            }
        }),
{
    let f = t.top();
    if let Effect::Done(t2, r) = instruction_effect(op, t) {
        let g = t2.top();
        lemma_with_top(t, g, g);
    }
}

} // verus!
