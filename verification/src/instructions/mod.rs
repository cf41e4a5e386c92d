//! The bytecode instructions: one handler per instruction, and the dispatch
//! from an opcode to its handler.
use vstd::prelude::*;
use crate::runtime::frame::{FrameV, Value};
use crate::runtime::thread::{ExecutionResult, ResultV, Thread, ThreadV};
use self::constants::{bipush_effect, iconst_value, push_effect, sipush_effect};
use self::control::{
    goto_effect, if_icmpeq_effect, if_icmpge_effect, if_icmpgt_effect, if_icmple_effect,
    if_icmplt_effect, if_icmpne_effect, if_null_effect, ifeq_effect, ifne_effect,
};
use self::invoke::{invoke_effect, invokespecial_effect, value_return_effect};
use self::loads::{load_effect, load_indexed_effect};
use self::math::{
    iadd_effect, idiv_effect, iinc_effect, imul_effect, ineg_effect, irem_effect, isub_effect,
    ladd_effect, ldiv_effect, lmul_effect, lneg_effect, lsub_effect,
};
use self::objects::{getstatic_effect, ldc_effect, ldc_w_effect, new_effect, putstatic_effect};
use self::stack::{dup_effect, pop_effect, swap_effect};
use self::stores::{store_effect, store_indexed_effect};

pub mod arrays;
pub mod checks;
pub mod constants;
pub mod control;
pub mod invoke;
pub mod loads;
pub mod math;
pub mod objects;
pub mod stack;
pub mod stores;

verus! {

/// What an instruction does to a thread: it traps (the interpreter stops
/// with an error), or it leaves the thread in a new state and tells the
/// execution loop what to do next.
pub enum Effect {
    Trap,
    Done(ThreadV, ResultV),
}

/// The thread with its top frame replaced by `f`, going on with the next
/// instruction.
pub open spec fn continue_with(t: ThreadV, f: FrameV) -> Effect {
    Effect::Done(t.with_top(f), ResultV::Continue)
}

/// What the instruction with opcode `op` does, its opcode already read;
/// an opcode without a handler traps.
pub open spec fn instruction_effect(op: u8, t: ThreadV) -> Effect {
    if op == 0x00 {
        Effect::Done(t, ResultV::Continue)
    } else if op == 0x02 {
        push_effect(t, Value::I32(-1i32))
    } else if 0x03 <= op <= 0x08 {
        push_effect(t, iconst_value(op))
    } else if op == 0x10 {
        bipush_effect(t)
    } else if op == 0x11 {
        sipush_effect(t)
    } else if op == 0x12 {
        ldc_effect(t)
    } else if op == 0x13 {
        ldc_w_effect(t)
    } else if 0x1A <= op <= 0x1D {
        load_effect(t, op - 0x1A)
    } else if op == 0x15 || op == 0x19 {
        load_indexed_effect(t)
    } else if 0x2A <= op <= 0x2D {
        load_effect(t, op - 0x2A)
    } else if 0x3B <= op <= 0x3E {
        store_effect(t, op - 0x3B)
    } else if op == 0x36 || op == 0x3A {
        store_indexed_effect(t)
    } else if 0x4B <= op <= 0x4E {
        store_effect(t, op - 0x4B)
    } else if op == 0x60 {
        iadd_effect(t)
    } else if op == 0x64 {
        isub_effect(t)
    } else if op == 0x68 {
        imul_effect(t)
    } else if op == 0x6C {
        idiv_effect(t)
    } else if op == 0x70 {
        irem_effect(t)
    } else if op == 0x74 {
        ineg_effect(t)
    } else if op == 0x84 {
        iinc_effect(t)
    } else if op == 0x61 {
        ladd_effect(t)
    } else if op == 0x65 {
        lsub_effect(t)
    } else if op == 0x69 {
        lmul_effect(t)
    } else if op == 0x6D {
        ldiv_effect(t)
    } else if op == 0x75 {
        lneg_effect(t)
    } else if op == 0x57 {
        pop_effect(t)
    } else if op == 0x59 {
        dup_effect(t)
    } else if op == 0x5F {
        swap_effect(t)
    } else if op == 0x99 {
        ifeq_effect(t)
    } else if op == 0x9A {
        ifne_effect(t)
    } else if op == 0x9F {
        if_icmpeq_effect(t)
    } else if op == 0xA0 {
        if_icmpne_effect(t)
    } else if op == 0xA1 {
        if_icmplt_effect(t)
    } else if op == 0xA2 {
        if_icmpge_effect(t)
    } else if op == 0xA3 {
        if_icmpgt_effect(t)
    } else if op == 0xA4 {
        if_icmple_effect(t)
    } else if op == 0xA7 {
        goto_effect(t)
    } else if op == 0xC6 {
        if_null_effect(t, true)
    } else if op == 0xC7 {
        if_null_effect(t, false)
    } else if op == 0xBB {
        new_effect(t)
    } else if op == 0xB2 {
        getstatic_effect(t)
    } else if op == 0xB3 {
        putstatic_effect(t)
    } else if op == 0xB6 {
        invoke_effect(t, true)
    } else if op == 0xB7 {
        invokespecial_effect(t)
    } else if op == 0xB8 {
        invoke_effect(t, false)
    } else if op == 0xAC || op == 0xB0 {
        value_return_effect(t)
    } else if op == 0xB1 {
        Effect::Done(t, ResultV::Return(None))
    } else {
        Effect::Trap
    }
}

/// Executes the instruction with opcode `opcode`, whose opcode byte the
/// execution loop has already read.
pub fn execute_instruction(thread: &mut Thread, opcode: u8) -> (r: ExecutionResult)
    requires
        old(thread)@.heap.wf(),
        instruction_effect(opcode, old(thread)@) is Done,
    ensures
        instruction_effect(opcode, old(thread)@) == Effect::Done(final(thread)@, r@),
        final(thread)@.heap.wf(),
{
    match opcode {
        0x00 => constants::nop(thread),
        0x02 => constants::iconst_m1(thread),
        0x03 => constants::iconst(thread, 0),
        0x04 => constants::iconst(thread, 1),
        0x05 => constants::iconst(thread, 2),
        0x06 => constants::iconst(thread, 3),
        0x07 => constants::iconst(thread, 4),
        0x08 => constants::iconst(thread, 5),
        0x10 => constants::bipush(thread),
        0x11 => constants::sipush(thread),
        0x12 => objects::ldc(thread),
        0x13 => objects::ldc_w(thread),
        0x1A => loads::iload_n(thread, 0),
        0x1B => loads::iload_n(thread, 1),
        0x1C => loads::iload_n(thread, 2),
        0x1D => loads::iload_n(thread, 3),
        0x15 => loads::iload(thread),
        0x2A => loads::aload_n(thread, 0),
        0x2B => loads::aload_n(thread, 1),
        0x2C => loads::aload_n(thread, 2),
        0x2D => loads::aload_n(thread, 3),
        0x19 => loads::aload(thread),
        0x3B => stores::istore_n(thread, 0),
        0x3C => stores::istore_n(thread, 1),
        0x3D => stores::istore_n(thread, 2),
        0x3E => stores::istore_n(thread, 3),
        0x36 => stores::istore(thread),
        0x4B => stores::astore_n(thread, 0),
        0x4C => stores::astore_n(thread, 1),
        0x4D => stores::astore_n(thread, 2),
        0x4E => stores::astore_n(thread, 3),
        0x3A => stores::astore(thread),
        0x60 => math::iadd(thread),
        0x64 => math::isub(thread),
        0x68 => math::imul(thread),
        0x6C => math::idiv(thread),
        0x70 => math::irem(thread),
        0x74 => math::ineg(thread),
        0x84 => math::iinc(thread),
        0x61 => math::ladd(thread),
        0x65 => math::lsub(thread),
        0x69 => math::lmul(thread),
        0x6D => math::ldiv(thread),
        0x75 => math::lneg(thread),
        0x57 => stack::pop_op(thread),
        0x59 => stack::dup(thread),
        0x5F => stack::swap(thread),
        0x99 => control::ifeq(thread),
        0x9A => control::ifne(thread),
        0x9F => control::if_icmpeq(thread),
        0xA0 => control::if_icmpne(thread),
        0xA1 => control::if_icmplt(thread),
        0xA2 => control::if_icmpge(thread),
        0xA3 => control::if_icmpgt(thread),
        0xA4 => control::if_icmple(thread),
        0xA7 => control::goto(thread),
        0xC6 => control::ifnull(thread),
        0xC7 => control::ifnonnull(thread),
        0xBB => objects::new_op(thread),
        0xB2 => objects::getstatic(thread),
        0xB3 => objects::putstatic(thread),
        0xB6 => invoke::invokevirtual(thread),
        0xB7 => invoke::invokespecial(thread),
        0xB8 => invoke::invokestatic(thread),
        0xAC => invoke::ireturn(thread),
        0xB0 => invoke::areturn(thread),
        0xB1 => invoke::return_void(thread),
        _ => ExecutionResult::Continue,
    }
}

} // verus!
