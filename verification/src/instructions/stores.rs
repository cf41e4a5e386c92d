//! Instructions that store the top of the operand stack into a local.
use vstd::prelude::*;
use crate::instructions::{continue_with, Effect};
use crate::instructions::loads::load_effect;
use crate::runtime::thread::{lemma_with_top, ExecutionResult, ResultV, Thread, ThreadV};

verus! {

/// Pops the top of the operand stack into local `index`.
pub open spec fn store_effect(t: ThreadV, index: int) -> Effect {
    if t.stack.len() == 0 || t.top().stack.len() == 0 || !(0 <= index < t.top().locals.len()) {
        Effect::Trap
    } else {
        let f = t.top();
        continue_with(t, f.popped().with_local(index, f.stack.last()))
    }
}

/// Reads a local index from the code, then pops into that local.
pub open spec fn store_indexed_effect(t: ThreadV) -> Effect {
    if t.stack.len() == 0 || !t.top().has_bytes(1) || t.top().stack.len() == 0 {
        Effect::Trap
    } else {
        let f = t.top();
        let index = f.byte(0) as int;
        if index >= f.locals.len() {
            Effect::Trap
        } else {
            continue_with(t, f.at(f.pc + 1).popped().with_local(index, f.stack.last()))
        }
    }
}

/// Pops into local `index` (shared by the int and reference forms).
fn store_local(thread: &mut Thread, index: usize) -> (r: ExecutionResult)
    requires
        store_effect(old(thread)@, index as int) is Done,
    ensures
        store_effect(old(thread)@, index as int) == Effect::Done(final(thread)@, r@),
{
    let frame = thread.current_frame();
    let val = frame.pop();
    frame.locals.set(index, val);
    ExecutionResult::Continue
}

/// Reads an index operand, then pops into that local.
fn store_operand(thread: &mut Thread) -> (r: ExecutionResult)
    requires
        store_indexed_effect(old(thread)@) is Done,
    ensures
        store_indexed_effect(old(thread)@) == Effect::Done(final(thread)@, r@),
{
    let frame = thread.current_frame();
    let index = frame.read_u1() as usize;
    let val = frame.pop();
    frame.locals.set(index, val);
    ExecutionResult::Continue
}

/// `istore_<n>`: stores an int into local `index`.
pub fn istore_n(thread: &mut Thread, index: usize) -> (r: ExecutionResult)
    requires
        store_effect(old(thread)@, index as int) is Done,
    ensures
        store_effect(old(thread)@, index as int) == Effect::Done(final(thread)@, r@),
{
    store_local(thread, index)
}

/// `istore`: stores an int into the local named by the operand byte.
pub fn istore(thread: &mut Thread) -> (r: ExecutionResult)
    requires
        store_indexed_effect(old(thread)@) is Done,
    ensures
        store_indexed_effect(old(thread)@) == Effect::Done(final(thread)@, r@),
{
    store_operand(thread)
}

/// `astore_<n>`: stores a reference into local `index`.
pub fn astore_n(thread: &mut Thread, index: usize) -> (r: ExecutionResult)
    requires
        store_effect(old(thread)@, index as int) is Done,
    ensures
        store_effect(old(thread)@, index as int) == Effect::Done(final(thread)@, r@),
{
    store_local(thread, index)
}

/// `astore`: stores a reference into the local named by the operand byte.
pub fn astore(thread: &mut Thread) -> (r: ExecutionResult)
    requires
        store_indexed_effect(old(thread)@) is Done,
    ensures
        store_indexed_effect(old(thread)@) == Effect::Done(final(thread)@, r@),
{
    store_operand(thread)
}

/// Storing the top of the operand stack into local `i` and loading local
/// `i` again leaves the operand stack as it was and the value in the local.
pub proof fn lemma_store_then_load(t: ThreadV, i: int)
    requires
        t.stack.len() > 0,
        t.top().stack.len() > 0,
        0 <= i < t.top().locals.len(),
    ensures
        store_effect(t, i) matches Effect::Done(t1, r) && r == ResultV::Continue && load_effect(t1, i)
            == Effect::Done(t.with_top(t.top().with_local(i, t.top().peek(0))), ResultV::Continue),
{
    let f = t.top();
    let g = f.popped().with_local(i, f.stack.last());
    lemma_with_top(t, g, g.pushed(g.locals[i]));
    assert(g.pushed(g.locals[i]).stack =~= f.stack);
}
} // verus!
