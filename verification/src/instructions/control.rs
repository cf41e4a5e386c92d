//! Branches: conditional on ints, on references, and unconditional.
use vstd::prelude::*;
use crate::instructions::{continue_with, instruction_effect, Effect};
use crate::runtime::frame::{code_u2, Frame, FrameV, Value};
use crate::runtime::thread::{lemma_with_top, ExecutionResult, ResultV, Thread, ThreadV};

verus! {

/// Where a branch goes. `pc` is the end of the three-byte branch
/// instruction and `offset` is relative to its start; the sum is computed
/// in 32 bits (`pc` truncated), and an overflow there traps (`None`).
pub open spec fn branch_target(pc: usize, offset: i16) -> Option<usize> {
    let s = pc as i32 + offset;
    if s < i32::MIN || s > i32::MAX || s - 3 < i32::MIN {
        None
    } else {
        Some((s - 3) as usize)
    }
}

/// The frame `f`, whose program counter is at a branch operand, after the
/// branch was taken (`jump`) or not, with `g` being `f` past the operand
/// with its popped values gone.
pub open spec fn branch_effect(t: ThreadV, f: FrameV, g: FrameV, jump: bool) -> Effect {
    if jump {
        match branch_target((f.pc + 2) as usize, code_u2(f.code, f.pc as int) as i16) {
            Some(p) => continue_with(t, g.at(p as int)),
            None => Effect::Trap,
        }
    } else {
        continue_with(t, g)
    }
}

/// The comparisons of the conditional branches on ints.
pub enum IntCmp {
    Eq,
    Ne,
    Lt,
    Ge,
    Gt,
    Le,
}

impl IntCmp {
    /// Whether `a` compares to `b` so.
    pub open spec fn holds(self, a: i32, b: i32) -> bool {
        match self {
            IntCmp::Eq => a == b,
            IntCmp::Ne => a != b,
            IntCmp::Lt => a < b,
            IntCmp::Ge => a >= b,
            IntCmp::Gt => a > b,
            IntCmp::Le => a <= b,
        }
    }

    /// Whether `a` compares to `b` so.
    pub fn test(&self, a: i32, b: i32) -> (r: bool)
        ensures
            r == self.holds(a, b),
    {
        match self {
            IntCmp::Eq => a == b,
            IntCmp::Ne => a != b,
            IntCmp::Lt => a < b,
            IntCmp::Ge => a >= b,
            IntCmp::Gt => a > b,
            IntCmp::Le => a <= b,
        }
    }
}

/// Pops an int `v` and branches where `v` compares to 0 by `cmp`.
pub open spec fn if_int_effect(t: ThreadV, cmp: IntCmp) -> Effect {
    if t.stack.len() == 0 || !t.top().has_bytes(2) || t.top().stack.len() == 0 || !(t.top().peek(
        0,
    ) is I32) {
        Effect::Trap
    } else {
        let f = t.top();
        branch_effect(t, f, f.at(f.pc + 2).popped(), cmp.holds(f.peek(0).i32_value(), 0))
    }
}

/// Pops ints `b` (the top) and `a` and branches where `a` compares to `b`
/// by `cmp`.
pub open spec fn if_icmp_effect(t: ThreadV, cmp: IntCmp) -> Effect {
    if t.stack.len() == 0 || !t.top().has_bytes(2) || t.top().stack.len() < 2 || !(t.top().peek(
        0,
    ) is I32) || !(t.top().peek(1) is I32) {
        Effect::Trap
    } else {
        let f = t.top();
        branch_effect(
            t,
            f,
            f.at(f.pc + 2).popped().popped(),
            cmp.holds(f.peek(1).i32_value(), f.peek(0).i32_value()),
        )
    }
}

/// Pops a value and branches where its being `Null` matches `when_null`.
pub open spec fn if_null_effect(t: ThreadV, when_null: bool) -> Effect {
    if t.stack.len() == 0 || !t.top().has_bytes(2) || t.top().stack.len() == 0 {
        Effect::Trap
    } else {
        let f = t.top();
        branch_effect(t, f, f.at(f.pc + 2).popped(), (f.peek(0) == Value::Null) == when_null)
    }
}

/// `goto`: always branches.
pub open spec fn goto_effect(t: ThreadV) -> Effect {
    if t.stack.len() == 0 || !t.top().has_bytes(2) {
        Effect::Trap
    } else {
        let f = t.top();
        branch_effect(t, f, f.at(f.pc + 2), true)
    }
}

pub open spec fn ifeq_effect(t: ThreadV) -> Effect {
    if_int_effect(t, IntCmp::Eq)
}

pub open spec fn ifne_effect(t: ThreadV) -> Effect {
    if_int_effect(t, IntCmp::Ne)
}

pub open spec fn if_icmpeq_effect(t: ThreadV) -> Effect {
    if_icmp_effect(t, IntCmp::Eq)
}

pub open spec fn if_icmpne_effect(t: ThreadV) -> Effect {
    if_icmp_effect(t, IntCmp::Ne)
}

pub open spec fn if_icmplt_effect(t: ThreadV) -> Effect {
    if_icmp_effect(t, IntCmp::Lt)
}

pub open spec fn if_icmpge_effect(t: ThreadV) -> Effect {
    if_icmp_effect(t, IntCmp::Ge)
}

pub open spec fn if_icmpgt_effect(t: ThreadV) -> Effect {
    if_icmp_effect(t, IntCmp::Gt)
}

pub open spec fn if_icmple_effect(t: ThreadV) -> Effect {
    if_icmp_effect(t, IntCmp::Le)
}

/// Moves the program counter of `frame`, which is at the end of a branch
/// instruction, by `offset` from the instruction's start.
fn jump(frame: &mut Frame, offset: i16)
    requires
        branch_target(old(frame).pc, offset) is Some,
    ensures
        final(frame)@ == old(frame)@.at(branch_target(old(frame).pc, offset).unwrap() as int),
{
    let base: i32 = #[verifier::truncate] (frame.pc as i32);
    let target: i32 = base + offset as i32 - 3;
    frame.pc = #[verifier::truncate] (target as usize);
}

/// Reads a branch offset, pops an int, and branches where it compares to 0
/// by `cmp`.
fn branch_on_int(thread: &mut Thread, cmp: IntCmp) -> (r: ExecutionResult)
    requires
        if_int_effect(old(thread)@, cmp) is Done,
    ensures
        if_int_effect(old(thread)@, cmp) == Effect::Done(final(thread)@, r@),
{
    let frame = thread.current_frame();
    let offset = frame.read_i16();
    let val = frame.pop_i32();
    if cmp.test(val, 0) {
        jump(frame, offset);
    }
    ExecutionResult::Continue
}

/// Reads a branch offset, pops ints `b` and `a`, and branches where `a`
/// compares to `b` by `cmp`.
fn branch_on_icmp(thread: &mut Thread, cmp: IntCmp) -> (r: ExecutionResult)
    requires
        if_icmp_effect(old(thread)@, cmp) is Done,
    ensures
        if_icmp_effect(old(thread)@, cmp) == Effect::Done(final(thread)@, r@),
{
    let frame = thread.current_frame();
    let offset = frame.read_i16();
    let b = frame.pop_i32();
    let a = frame.pop_i32();
    if cmp.test(a, b) {
        jump(frame, offset);
    }
    ExecutionResult::Continue
}

/// `ifeq`: branches if the int is 0.
pub fn ifeq(thread: &mut Thread) -> (r: ExecutionResult)
    requires
        ifeq_effect(old(thread)@) is Done,
    ensures
        ifeq_effect(old(thread)@) == Effect::Done(final(thread)@, r@),
{
    branch_on_int(thread, IntCmp::Eq)
}

/// `ifne`: branches if the int is not 0.
pub fn ifne(thread: &mut Thread) -> (r: ExecutionResult)
    requires
        ifne_effect(old(thread)@) is Done,
    ensures
        ifne_effect(old(thread)@) == Effect::Done(final(thread)@, r@),
{
    branch_on_int(thread, IntCmp::Ne)
}

/// `if_icmpeq`: branches if the ints are equal.
pub fn if_icmpeq(thread: &mut Thread) -> (r: ExecutionResult)
    requires
        if_icmpeq_effect(old(thread)@) is Done,
    ensures
        if_icmpeq_effect(old(thread)@) == Effect::Done(final(thread)@, r@),
{
    branch_on_icmp(thread, IntCmp::Eq)
}

/// `if_icmpne`: branches if the ints differ.
pub fn if_icmpne(thread: &mut Thread) -> (r: ExecutionResult)
    requires
        if_icmpne_effect(old(thread)@) is Done,
    ensures
        if_icmpne_effect(old(thread)@) == Effect::Done(final(thread)@, r@),
{
    branch_on_icmp(thread, IntCmp::Ne)
}

/// `if_icmplt`: branches if `a < b`.
pub fn if_icmplt(thread: &mut Thread) -> (r: ExecutionResult)
    requires
        if_icmplt_effect(old(thread)@) is Done,
    ensures
        if_icmplt_effect(old(thread)@) == Effect::Done(final(thread)@, r@),
{
    branch_on_icmp(thread, IntCmp::Lt)
}

/// `if_icmpge`: branches if `a >= b`.
pub fn if_icmpge(thread: &mut Thread) -> (r: ExecutionResult)
    requires
        if_icmpge_effect(old(thread)@) is Done,
    ensures
        if_icmpge_effect(old(thread)@) == Effect::Done(final(thread)@, r@),
{
    branch_on_icmp(thread, IntCmp::Ge)
}

/// `if_icmpgt`: branches if `a > b`.
pub fn if_icmpgt(thread: &mut Thread) -> (r: ExecutionResult)
    requires
        if_icmpgt_effect(old(thread)@) is Done,
    ensures
        if_icmpgt_effect(old(thread)@) == Effect::Done(final(thread)@, r@),
{
    branch_on_icmp(thread, IntCmp::Gt)
}

/// `if_icmple`: branches if `a <= b`.
pub fn if_icmple(thread: &mut Thread) -> (r: ExecutionResult)
    requires
        if_icmple_effect(old(thread)@) is Done,
    ensures
        if_icmple_effect(old(thread)@) == Effect::Done(final(thread)@, r@),
{
    branch_on_icmp(thread, IntCmp::Le)
}

/// `goto`: unconditional branch.
pub fn goto(thread: &mut Thread) -> (r: ExecutionResult)
    requires
        goto_effect(old(thread)@) is Done,
    ensures
        goto_effect(old(thread)@) == Effect::Done(final(thread)@, r@),
{
    let frame = thread.current_frame();
    let offset = frame.read_i16();
    jump(frame, offset);
    ExecutionResult::Continue
}

/// Reads a branch offset, pops a value, and branches where whether it is
/// `Null` equals `when_null`.
fn branch_on_null(thread: &mut Thread, when_null: bool) -> (r: ExecutionResult)
    requires
        if_null_effect(old(thread)@, when_null) is Done,
    ensures
        if_null_effect(old(thread)@, when_null) == Effect::Done(final(thread)@, r@),
{
    let frame = thread.current_frame();
    let offset = frame.read_i16();
    let val = frame.pop();
    if (val == Value::Null) == when_null {
        jump(frame, offset);
    }
    ExecutionResult::Continue
}

/// `ifnull`: branches if the reference is null.
pub fn ifnull(thread: &mut Thread) -> (r: ExecutionResult)
    requires
        if_null_effect(old(thread)@, true) is Done,
    ensures
        if_null_effect(old(thread)@, true) == Effect::Done(final(thread)@, r@),
{
    branch_on_null(thread, true)
}

/// `ifnonnull`: branches if the reference is not null.
pub fn ifnonnull(thread: &mut Thread) -> (r: ExecutionResult)
    requires
        if_null_effect(old(thread)@, false) is Done,
    ensures
        if_null_effect(old(thread)@, false) == Effect::Done(final(thread)@, r@),
{
    branch_on_null(thread, false)
}

/// A branch lands `offset` bytes from the start of the branch instruction:
/// the program counter, past the opcode and its two operand bytes, is three
/// bytes after that start.
pub proof fn lemma_branch_from_instruction_start(start: usize, offset: i16)
    requires
        start + 3 <= i32::MAX,
        start + 3 + offset <= i32::MAX,
        start + offset >= 0,
    ensures
        branch_target((start + 3) as usize, offset) == Some((start + offset) as usize),
{
    let pc = (start + 3) as usize;
    assert(pc as i32 == pc);
}
/// The comparisons mean what their names say, on the ints as integers.
pub proof fn lemma_int_comparisons(a: i32, b: i32)
    ensures
        IntCmp::Eq.holds(a, b) <==> a == b,
        IntCmp::Ne.holds(a, b) <==> a != b,
        IntCmp::Lt.holds(a, b) <==> a < b,
        IntCmp::Ge.holds(a, b) <==> a >= b,
        IntCmp::Gt.holds(a, b) <==> a > b,
        IntCmp::Le.holds(a, b) <==> a <= b,
{
}

/// `if_icmpeq`, `if_icmpne`, `if_icmplt`, `if_icmpge`, `if_icmpgt` and
/// `if_icmple` (opcodes 0x9F to 0xA4) pop ints `b` (the top) and `a` and go
/// on with the next instruction, except that they move the program counter
/// to the target of their offset exactly where `a == b`, `a != b`,
/// `a < b`, `a >= b`, `a > b` and `a <= b` respectively.
pub proof fn lemma_two_int_branches(op: u8, t: ThreadV)
    requires
        0x9F <= op <= 0xA4,
        instruction_effect(op, t) is Done,
    ensures
        ({
            let f = t.top();
            let a = f.peek(1).i32_value() as int;
            let b = f.peek(0).i32_value() as int;
            let taken = if op == 0x9F {
                a == b
            } else if op == 0xA0 {
                a != b
            } else if op == 0xA1 {
                a < b
            } else if op == 0xA2 {
                a >= b
            } else if op == 0xA3 {
                a > b
            } else {
                a <= b
            };
            instruction_effect(op, t) matches Effect::Done(t2, r) && {
                &&& r == ResultV::Continue
                &&& t2.stack.len() == t.stack.len()
                &&& t2.stack.subrange(0, t.stack.len() - 1) == t.stack.subrange(0, t.stack.len() - 1)
                &&& t2.top().stack == f.stack.subrange(0, f.stack.len() - 2)
                &&& t2.top().pc == if taken {
                    branch_target((f.pc + 2) as usize, code_u2(f.code, f.pc as int) as i16).unwrap()
                } else {
                    (f.pc + 2) as usize
                }
            }
        }),
{
    let f = t.top();
    let g = f.at(f.pc + 2).popped().popped();
    assert(g.stack =~= f.stack.subrange(0, f.stack.len() - 2));
    lemma_with_top(t, g, g);
    if let Some(p) = branch_target((f.pc + 2) as usize, code_u2(f.code, f.pc as int) as i16) {
        lemma_with_top(t, g.at(p as int), g);
    }
    assert(t.with_top(g).stack.subrange(0, t.stack.len() - 1) =~= t.stack.subrange(0, t.stack.len() - 1));
    if let Some(p) = branch_target((f.pc + 2) as usize, code_u2(f.code, f.pc as int) as i16) {
        assert(t.with_top(g.at(p as int)).stack.subrange(0, t.stack.len() - 1) =~= t.stack.subrange(0, t.stack.len() - 1));
    }
}

/// `ifeq` and `ifne` (opcodes 0x99 and 0x9A) pop an int `v` and branch to
/// the target of their offset exactly where `v == 0` and `v != 0`
/// respectively; else they go on with the next instruction.
pub proof fn lemma_if_zero_branches(op: u8, t: ThreadV)
    requires
        op == 0x99 || op == 0x9A,
        instruction_effect(op, t) is Done,
    ensures
        ({
            let f = t.top();
            let v = f.peek(0).i32_value() as int;
            let taken = if op == 0x99 {
                v == 0
            } else {
                v != 0
            };
            instruction_effect(op, t) matches Effect::Done(t2, r) && {
                &&& r == ResultV::Continue
                &&& t2.stack.len() == t.stack.len()
                &&& t2.top().stack == f.stack.subrange(0, f.stack.len() - 1)
                &&& t2.top().pc == if taken {
                    branch_target((f.pc + 2) as usize, code_u2(f.code, f.pc as int) as i16).unwrap()
                } else {
                    (f.pc + 2) as usize
                }
            }
        }),
{
    let f = t.top();
    let g = f.at(f.pc + 2).popped();
    assert(g.stack =~= f.stack.subrange(0, f.stack.len() - 1));
    lemma_with_top(t, g, g);
    if let Some(p) = branch_target((f.pc + 2) as usize, code_u2(f.code, f.pc as int) as i16) {
        lemma_with_top(t, g.at(p as int), g);
    }
}

} // verus!
