//! Instructions that load local variables onto the operand stack.
use vstd::prelude::*;
use crate::instructions::{continue_with, Effect};
use crate::runtime::thread::{ExecutionResult, Thread, ThreadV};

verus! {

/// Pushes local `index` of the top frame onto its operand stack.
pub open spec fn load_effect(t: ThreadV, index: int) -> Effect {
    if t.stack.len() == 0 || !(0 <= index < t.top().locals.len()) {
        Effect::Trap
    } else {
        continue_with(t, t.top().pushed(t.top().locals[index]))
    }
}

/// Reads a local index from the code, then pushes that local.
pub open spec fn load_indexed_effect(t: ThreadV) -> Effect {
    if t.stack.len() == 0 || !t.top().has_bytes(1) {
        Effect::Trap
    } else {
        let f = t.top();
        let index = f.byte(0) as int;
        if index >= f.locals.len() {
            Effect::Trap
        } else {
            continue_with(t, f.at(f.pc + 1).pushed(f.locals[index]))
        }
    }
}

/// Pushes local `index` (shared by the int and reference forms).
fn load_local(thread: &mut Thread, index: usize) -> (r: ExecutionResult)
    requires
        load_effect(old(thread)@, index as int) is Done,
    ensures
        load_effect(old(thread)@, index as int) == Effect::Done(final(thread)@, r@),
{
    let frame = thread.current_frame();
    let val = frame.locals[index];
    frame.push(val);
    ExecutionResult::Continue
}

/// Reads an index operand, then pushes that local.
fn load_operand(thread: &mut Thread) -> (r: ExecutionResult)
    requires
        load_indexed_effect(old(thread)@) is Done,
    ensures
        load_indexed_effect(old(thread)@) == Effect::Done(final(thread)@, r@),
{
    let frame = thread.current_frame();
    let index = frame.read_u1() as usize;
    let val = frame.locals[index];
    frame.push(val);
    ExecutionResult::Continue
}

/// `iload_<n>`: loads an int from local `index`.
pub fn iload_n(thread: &mut Thread, index: usize) -> (r: ExecutionResult)
    requires
        load_effect(old(thread)@, index as int) is Done,
    ensures
        load_effect(old(thread)@, index as int) == Effect::Done(final(thread)@, r@),
{
    load_local(thread, index)
}

/// `iload`: loads an int from the local named by the operand byte.
pub fn iload(thread: &mut Thread) -> (r: ExecutionResult)
    requires
        load_indexed_effect(old(thread)@) is Done,
    ensures
        load_indexed_effect(old(thread)@) == Effect::Done(final(thread)@, r@),
{
    load_operand(thread)
}

/// `aload_<n>`: loads a reference from local `index`.
pub fn aload_n(thread: &mut Thread, index: usize) -> (r: ExecutionResult)
    requires
        load_effect(old(thread)@, index as int) is Done,
    ensures
        load_effect(old(thread)@, index as int) == Effect::Done(final(thread)@, r@),
{
    load_local(thread, index)
}

/// `aload`: loads a reference from the local named by the operand byte.
pub fn aload(thread: &mut Thread) -> (r: ExecutionResult)
    requires
        load_indexed_effect(old(thread)@) is Done,
    ensures
        load_indexed_effect(old(thread)@) == Effect::Done(final(thread)@, r@),
{
    load_operand(thread)
}

} // verus!
