//! Instructions that rearrange the operand stack.
use vstd::prelude::*;
use crate::instructions::{continue_with, Effect};
use crate::runtime::thread::{lemma_with_top, ExecutionResult, ResultV, Thread, ThreadV};

verus! {

/// `pop`: drops the top of the operand stack.
pub open spec fn pop_effect(t: ThreadV) -> Effect {
    if t.stack.len() == 0 || t.top().stack.len() == 0 {
        Effect::Trap
    } else {
        continue_with(t, t.top().popped())
    }
}

/// `dup`: duplicates the top of the operand stack.
pub open spec fn dup_effect(t: ThreadV) -> Effect {
    if t.stack.len() == 0 || t.top().stack.len() == 0 {
        Effect::Trap
    } else {
        continue_with(t, t.top().pushed(t.top().peek(0)))
    }
}

/// `swap`: exchanges the two values on top of the operand stack.
pub open spec fn swap_effect(t: ThreadV) -> Effect {
    if t.stack.len() == 0 || t.top().stack.len() < 2 {
        Effect::Trap
    } else {
        let f = t.top();
        continue_with(t, f.popped_n(2).pushed(f.peek(0)).pushed(f.peek(1)))
    }
}

/// `pop`: pops the top operand stack value.
pub fn pop_op(thread: &mut Thread) -> (r: ExecutionResult)
    requires
        pop_effect(old(thread)@) is Done,
    ensures
        pop_effect(old(thread)@) == Effect::Done(final(thread)@, r@),
{
    thread.current_frame().pop();
    ExecutionResult::Continue
}

/// `dup`: duplicates the top operand stack value.
pub fn dup(thread: &mut Thread) -> (r: ExecutionResult)
    requires
        dup_effect(old(thread)@) is Done,
    ensures
        dup_effect(old(thread)@) == Effect::Done(final(thread)@, r@),
{
    let frame = thread.current_frame();
    let ghost f0 = frame@;
    let val = frame.pop();
    frame.push(val);
    frame.push(val);
    proof {
        assert(frame@.stack =~= f0.stack.push(f0.stack.last()));
    }
    ExecutionResult::Continue
}

/// `swap`: swaps the top two operand stack values.
pub fn swap(thread: &mut Thread) -> (r: ExecutionResult)
    requires
        swap_effect(old(thread)@) is Done,
    ensures
        swap_effect(old(thread)@) == Effect::Done(final(thread)@, r@),
{
    let frame = thread.current_frame();
    let ghost f0 = frame@;
    let v1 = frame.pop();
    let v2 = frame.pop();
    frame.push(v1);
    frame.push(v2);
    proof {
        assert(frame@.stack =~= f0.popped_n(2).pushed(f0.peek(0)).pushed(f0.peek(1)).stack);
    }
    ExecutionResult::Continue
}

/// `dup` followed by `pop` leaves the thread as it was.
pub proof fn lemma_dup_then_pop(t: ThreadV)
    requires
        t.stack.len() > 0,
        t.top().stack.len() > 0,
    ensures
        dup_effect(t) matches Effect::Done(t1, r) && r == ResultV::Continue && pop_effect(t1) == Effect::Done(
            t,
            ResultV::Continue,
        ),
{
    let t1 = t.with_top(t.top().pushed(t.top().peek(0)));
    lemma_with_top(t, t.top().pushed(t.top().peek(0)), t.top());
    assert(t1.top().popped().stack =~= t.top().stack);
    assert(t.with_top(t.top()).stack =~= t.stack);
}

/// `swap` twice leaves the thread as it was.
pub proof fn lemma_swap_twice(t: ThreadV)
    requires
        t.stack.len() > 0,
        t.top().stack.len() >= 2,
    ensures
        swap_effect(t) matches Effect::Done(t1, r) && r == ResultV::Continue && swap_effect(t1) == Effect::Done(
            t,
            ResultV::Continue,
        ),
{
    let f = t.top();
    let g = f.popped_n(2).pushed(f.peek(0)).pushed(f.peek(1));
    lemma_with_top(t, g, g.popped_n(2).pushed(g.peek(0)).pushed(g.peek(1)));
    assert(g.popped_n(2).pushed(g.peek(0)).pushed(g.peek(1)).stack =~= f.stack);
    assert(t.with_top(f).stack =~= t.stack);
}
} // verus!
