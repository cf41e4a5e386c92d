//! Integer and long arithmetic.
use vstd::prelude::*;
use vstd::arithmetic::div_mod::{
    lemma_div_decreases, lemma_div_nonincreasing, lemma_fundamental_div_mod, lemma_mod_bound,
};
use crate::instructions::{continue_with, instruction_effect, Effect};
use crate::runtime::frame::Value;
use crate::runtime::thread::{lemma_with_top, ExecutionResult, ResultV, Thread, ThreadV};

verus! {

/// The absolute value of `x`.
pub open spec fn abs(x: int) -> int {
    if x < 0 {
        -x
    } else {
        x
    }
}

/// Integer division rounded toward zero.
pub open spec fn trunc_div(a: int, b: int) -> int {
    let q = abs(a) / abs(b);
    if (a < 0) == (b < 0) {
        q
    } else {
        -q
    }
}

/// The remainder of `trunc_div`: it has the sign of `a`.
pub open spec fn trunc_rem(a: int, b: int) -> int {
    let r = abs(a) % abs(b);
    if a < 0 {
        -r
    } else {
        r
    }
}

/// Java's `idiv`: rounded toward zero; `MIN / -1`, whose quotient does not
/// fit, wraps to `MIN`.
pub open spec fn java_idiv(a: i32, b: i32) -> i32 {
    if a == i32::MIN && b == -1 {
        i32::MIN
    } else {
        trunc_div(a as int, b as int) as i32
    }
}

/// Java's `ldiv`, as `java_idiv` for longs.
pub open spec fn java_ldiv(a: i64, b: i64) -> i64 {
    if a == i64::MIN && b == -1 {
        i64::MIN
    } else {
        trunc_div(a as int, b as int) as i64
    }
}

/// Pops ints `b` (the top) and `a` (below it) and pushes `op(a, b)`; traps
/// where `defined(a, b)` does not hold.
pub open spec fn int_binop_effect(
    t: ThreadV,
    defined: spec_fn(i32, i32) -> bool,
    op: spec_fn(i32, i32) -> i32,
) -> Effect {
    if t.stack.len() == 0 || t.top().stack.len() < 2 || !(t.top().peek(0) is I32) || !(t.top().peek(
        1,
    ) is I32) {
        Effect::Trap
    } else {
        let f = t.top();
        let a = f.peek(1).i32_value();
        let b = f.peek(0).i32_value();
        if !defined(a, b) {
            Effect::Trap
        } else {
            continue_with(t, f.popped().popped().pushed(Value::I32(op(a, b))))
        }
    }
}

/// Pops longs `b` (the top) and `a` (below it) and pushes `op(a, b)`; traps
/// where `defined(a, b)` does not hold.
pub open spec fn long_binop_effect(
    t: ThreadV,
    defined: spec_fn(i64, i64) -> bool,
    op: spec_fn(i64, i64) -> i64,
) -> Effect {
    if t.stack.len() == 0 || t.top().stack.len() < 2 || !(t.top().peek(0) is I64) || !(t.top().peek(
        1,
    ) is I64) {
        Effect::Trap
    } else {
        let f = t.top();
        let a = f.peek(1).i64_value();
        let b = f.peek(0).i64_value();
        if !defined(a, b) {
            Effect::Trap
        } else {
            continue_with(t, f.popped().popped().pushed(Value::I64(op(a, b))))
        }
    }
}

pub open spec fn iadd_effect(t: ThreadV) -> Effect {
    int_binop_effect(t, |a: i32, b: i32| true, |a: i32, b: i32| a.wrapping_add(b))
}

pub open spec fn isub_effect(t: ThreadV) -> Effect {
    int_binop_effect(t, |a: i32, b: i32| true, |a: i32, b: i32| a.wrapping_sub(b))
}

pub open spec fn imul_effect(t: ThreadV) -> Effect {
    int_binop_effect(t, |a: i32, b: i32| true, |a: i32, b: i32| a.wrapping_mul(b))
}

/// `idiv` traps on a zero divisor.
pub open spec fn idiv_effect(t: ThreadV) -> Effect {
    int_binop_effect(t, |a: i32, b: i32| b != 0, |a: i32, b: i32| java_idiv(a, b))
}

/// `irem` traps on a zero divisor.
pub open spec fn irem_effect(t: ThreadV) -> Effect {
    int_binop_effect(t, |a: i32, b: i32| b != 0, |a: i32, b: i32| trunc_rem(a as int, b as int) as i32)
}

pub open spec fn ladd_effect(t: ThreadV) -> Effect {
    long_binop_effect(t, |a: i64, b: i64| true, |a: i64, b: i64| a.wrapping_add(b))
}

pub open spec fn lsub_effect(t: ThreadV) -> Effect {
    long_binop_effect(t, |a: i64, b: i64| true, |a: i64, b: i64| a.wrapping_sub(b))
}

pub open spec fn lmul_effect(t: ThreadV) -> Effect {
    long_binop_effect(t, |a: i64, b: i64| true, |a: i64, b: i64| a.wrapping_mul(b))
}

/// `ldiv` traps on a zero divisor.
pub open spec fn ldiv_effect(t: ThreadV) -> Effect {
    long_binop_effect(t, |a: i64, b: i64| b != 0, |a: i64, b: i64| java_ldiv(a, b))
}

/// `ineg`: negates the int on top; the negation of `MIN` overflows and traps.
pub open spec fn ineg_effect(t: ThreadV) -> Effect {
    if t.stack.len() == 0 || t.top().stack.len() == 0 || !(t.top().peek(0) is I32) || t.top().peek(
        0,
    ).i32_value() == i32::MIN {
        Effect::Trap
    } else {
        continue_with(t, t.top().popped().pushed(Value::I32((-t.top().peek(0).i32_value()) as i32)))
    }
}

/// `lneg`: negates the long on top; the negation of `MIN` overflows and traps.
pub open spec fn lneg_effect(t: ThreadV) -> Effect {
    if t.stack.len() == 0 || t.top().stack.len() == 0 || !(t.top().peek(0) is I64) || t.top().peek(
        0,
    ).i64_value() == i64::MIN {
        Effect::Trap
    } else {
        continue_with(t, t.top().popped().pushed(Value::I64((-t.top().peek(0).i64_value()) as i64)))
    }
}

/// `iinc`: adds the signed operand byte to the int in the local named by the
/// first operand byte, wrapping.
pub open spec fn iinc_effect(t: ThreadV) -> Effect {
    if t.stack.len() == 0 || !t.top().has_bytes(2) {
        Effect::Trap
    } else {
        let f = t.top();
        let index = f.byte(0) as int;
        if index >= f.locals.len() || !(f.locals[index] is I32) {
            Effect::Trap
        } else {
            let v = f.locals[index].i32_value().wrapping_add(f.byte(1) as i8 as i32);
            continue_with(t, f.at(f.pc + 2).with_local(index, Value::I32(v)))
        }
    }
}

/// The quotient `|a| / |b|` is at most `|a|`, and below it where `|b| > 1`
/// and `a` is not zero.
proof fn lemma_quotient_bounds(a: int, b: int)
    requires
        b != 0,
    ensures
        0 <= abs(a) / abs(b) <= abs(a),
        abs(b) > 1 && a != 0 ==> abs(a) / abs(b) < abs(a),
{
    lemma_div_nonincreasing(abs(a), abs(b));
    if abs(b) > 1 && a != 0 {
        lemma_div_decreases(abs(a), abs(b));
    }
}

/// `a / b` rounded toward zero, with `MIN / -1` wrapping to `MIN`.
fn wrapping_div_i32(a: i32, b: i32) -> (q: i32)
    requires
        b != 0,
    ensures
        q == java_idiv(a, b),
{
    if a == i32::MIN && b == -1 {
        return i32::MIN;
    }
    proof {
        lemma_quotient_bounds(a as int, b as int);
    }
    match a.checked_div(b) {
        Some(q) => q,
        None => 0,
    }
}

/// `a % b` with the sign of `a`; `MIN % -1` is 0.
fn wrapping_rem_i32(a: i32, b: i32) -> (r: i32)
    requires
        b != 0,
    ensures
        r == trunc_rem(a as int, b as int) as i32,
{
    match a.checked_rem(b) {
        Some(r) => r,
        None => 0,
    }
}

/// `a / b` rounded toward zero, with `MIN / -1` wrapping to `MIN`.
fn wrapping_div_i64(a: i64, b: i64) -> (q: i64)
    requires
        b != 0,
    ensures
        q == java_ldiv(a, b),
{
    if a == i64::MIN && b == -1 {
        return i64::MIN;
    }
    proof {
        lemma_quotient_bounds(a as int, b as int);
    }
    match a.checked_div(b) {
        Some(q) => q,
        None => 0,
    }
}

/// `iadd`: adds two ints, wrapping.
pub fn iadd(thread: &mut Thread) -> (r: ExecutionResult)
    requires
        iadd_effect(old(thread)@) is Done,
    ensures
        iadd_effect(old(thread)@) == Effect::Done(final(thread)@, r@),
{
    let frame = thread.current_frame();
    let b = frame.pop_i32();
    let a = frame.pop_i32();
    frame.push(Value::I32(a.wrapping_add(b)));
    ExecutionResult::Continue
}

/// `isub`: subtracts two ints, wrapping.
pub fn isub(thread: &mut Thread) -> (r: ExecutionResult)
    requires
        isub_effect(old(thread)@) is Done,
    ensures
        isub_effect(old(thread)@) == Effect::Done(final(thread)@, r@),
{
    let frame = thread.current_frame();
    let b = frame.pop_i32();
    let a = frame.pop_i32();
    frame.push(Value::I32(a.wrapping_sub(b)));
    ExecutionResult::Continue
}

/// `imul`: multiplies two ints, wrapping.
pub fn imul(thread: &mut Thread) -> (r: ExecutionResult)
    requires
        imul_effect(old(thread)@) is Done,
    ensures
        imul_effect(old(thread)@) == Effect::Done(final(thread)@, r@),
{
    let frame = thread.current_frame();
    let b = frame.pop_i32();
    let a = frame.pop_i32();
    frame.push(Value::I32(a.wrapping_mul(b)));
    ExecutionResult::Continue
}

/// `idiv`: divides two ints.
pub fn idiv(thread: &mut Thread) -> (r: ExecutionResult)
    requires
        idiv_effect(old(thread)@) is Done,
    ensures
        idiv_effect(old(thread)@) == Effect::Done(final(thread)@, r@),
{
    let frame = thread.current_frame();
    let b = frame.pop_i32();
    let a = frame.pop_i32();
    frame.push(Value::I32(wrapping_div_i32(a, b)));
    ExecutionResult::Continue
}

/// `irem`: the remainder of dividing two ints.
pub fn irem(thread: &mut Thread) -> (r: ExecutionResult)
    requires
        irem_effect(old(thread)@) is Done,
    ensures
        irem_effect(old(thread)@) == Effect::Done(final(thread)@, r@),
{
    let frame = thread.current_frame();
    let b = frame.pop_i32();
    let a = frame.pop_i32();
    frame.push(Value::I32(wrapping_rem_i32(a, b)));
    ExecutionResult::Continue
}

/// `ineg`: negates an int.
pub fn ineg(thread: &mut Thread) -> (r: ExecutionResult)
    requires
        ineg_effect(old(thread)@) is Done,
    ensures
        ineg_effect(old(thread)@) == Effect::Done(final(thread)@, r@),
{
    let frame = thread.current_frame();
    let a = frame.pop_i32();
    frame.push(Value::I32(-a));
    ExecutionResult::Continue
}

/// `iinc`: increments a local variable by a constant.
pub fn iinc(thread: &mut Thread) -> (r: ExecutionResult)
    requires
        iinc_effect(old(thread)@) is Done,
    ensures
        iinc_effect(old(thread)@) == Effect::Done(final(thread)@, r@),
{
    let frame = thread.current_frame();
    proof {
        assert(frame.code@.len() == frame.code.len());
    }
    let index = frame.read_u1() as usize;
    let const_val = frame.read_i8() as i32;
    let old_val = frame.locals[index].as_i32();
    frame.locals.set(index, Value::I32(old_val.wrapping_add(const_val)));

    ExecutionResult::Continue
}

/// `ladd`: adds two longs, wrapping.
pub fn ladd(thread: &mut Thread) -> (r: ExecutionResult)
    requires
        ladd_effect(old(thread)@) is Done,
    ensures
        ladd_effect(old(thread)@) == Effect::Done(final(thread)@, r@),
{
    let frame = thread.current_frame();
    let b = frame.pop_i64();
    let a = frame.pop_i64();
    frame.push(Value::I64(a.wrapping_add(b)));
    ExecutionResult::Continue
}

/// `lsub`: subtracts two longs, wrapping.
pub fn lsub(thread: &mut Thread) -> (r: ExecutionResult)
    requires
        lsub_effect(old(thread)@) is Done,
    ensures
        lsub_effect(old(thread)@) == Effect::Done(final(thread)@, r@),
{
    let frame = thread.current_frame();
    let b = frame.pop_i64();
    let a = frame.pop_i64();
    frame.push(Value::I64(a.wrapping_sub(b)));
    ExecutionResult::Continue
}

/// `lmul`: multiplies two longs, wrapping.
pub fn lmul(thread: &mut Thread) -> (r: ExecutionResult)
    requires
        lmul_effect(old(thread)@) is Done,
    ensures
        lmul_effect(old(thread)@) == Effect::Done(final(thread)@, r@),
{
    let frame = thread.current_frame();
    let b = frame.pop_i64();
    let a = frame.pop_i64();
    frame.push(Value::I64(a.wrapping_mul(b)));
    ExecutionResult::Continue
}

/// `ldiv`: divides two longs.
pub fn ldiv(thread: &mut Thread) -> (r: ExecutionResult)
    requires
        ldiv_effect(old(thread)@) is Done,
    ensures
        ldiv_effect(old(thread)@) == Effect::Done(final(thread)@, r@),
{
    let frame = thread.current_frame();
    let b = frame.pop_i64();
    let a = frame.pop_i64();
    frame.push(Value::I64(wrapping_div_i64(a, b)));
    ExecutionResult::Continue
}

/// `lneg`: negates a long.
pub fn lneg(thread: &mut Thread) -> (r: ExecutionResult)
    requires
        lneg_effect(old(thread)@) is Done,
    ensures
        lneg_effect(old(thread)@) == Effect::Done(final(thread)@, r@),
{
    let frame = thread.current_frame();
    let a = frame.pop_i64();
    frame.push(Value::I64(-a));
    ExecutionResult::Continue
}

/// Division and remainder fit together as Java requires: the quotient
/// times the divisor plus the remainder is the dividend, and the remainder
/// is smaller than the divisor and has the sign of the dividend.
pub proof fn lemma_div_rem_identity(a: int, b: int)
    requires
        b != 0,
    ensures
        trunc_div(a, b) * b + trunc_rem(a, b) == a,
        abs(trunc_rem(a, b)) < abs(b),
        a >= 0 ==> trunc_rem(a, b) >= 0,
        a < 0 ==> trunc_rem(a, b) <= 0,
{
    let q = abs(a) / abs(b);
    let r = abs(a) % abs(b);
    lemma_fundamental_div_mod(abs(a), abs(b));
    lemma_mod_bound(abs(a), abs(b));
    assert(abs(a) == abs(b) * q + r);
    if a >= 0 && b > 0 {
        assert(q * b == abs(b) * q) by (nonlinear_arith)
            requires
                b == abs(b),
        ;
    } else if a >= 0 {
        assert(-q * b == abs(b) * q) by (nonlinear_arith)
            requires
                b == -abs(b),
        ;
    } else if b > 0 {
        assert(-q * b == -(abs(b) * q)) by (nonlinear_arith)
            requires
                b == abs(b),
        ;
    } else {
        assert(q * b == -(abs(b) * q)) by (nonlinear_arith)
            requires
                b == -abs(b),
        ;
    }
}

/// `iadd`, `isub`, `imul`, `idiv` and `irem` (opcodes 0x60, 0x64, 0x68,
/// 0x6C and 0x70) replace the ints `a` and `b` (the top) with `a + b`,
/// `a - b` and `a * b` wrapped to 32 bits, the quotient of `a` by `b`
/// rounded toward zero (`MIN / -1` wrapping to `MIN`), and the remainder
/// that goes with that quotient; the thread goes on at the same frame.
pub proof fn lemma_int_arithmetic_opcodes(op: u8, t: ThreadV)
    requires
        op == 0x60 || op == 0x64 || op == 0x68 || op == 0x6C || op == 0x70,
        instruction_effect(op, t) is Done,
    ensures
        ({
            let f = t.top();
            let a = f.peek(1).i32_value();
            let b = f.peek(0).i32_value();
            let expected: i32 = if op == 0x60 {
                a.wrapping_add(b)
            } else if op == 0x64 {
                a.wrapping_sub(b)
            } else if op == 0x68 {
                a.wrapping_mul(b)
            } else if op == 0x6C {
                if a == i32::MIN && b == -1 {
                    i32::MIN
                } else {
                    trunc_div(a as int, b as int) as i32
                }
            } else {
                trunc_rem(a as int, b as int) as i32
            };
            instruction_effect(op, t) matches Effect::Done(t2, r) && {
                &&& r == ResultV::Continue
                &&& b != 0 || op < 0x6C
                &&& t2.stack.len() == t.stack.len()
                &&& t2.top().pc == f.pc
                &&& t2.top().locals == f.locals
                &&& t2.top().stack == f.stack.drop_last().drop_last().push(Value::I32(expected))
            }
        }),
{
    let f = t.top();
    if let Effect::Done(t2, r) = instruction_effect(op, t) {
        let g = t2.top();
        lemma_with_top(t, g, g);
    }
}

} // verus!
