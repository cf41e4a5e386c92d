//! Whether an instruction can execute, decided before it runs: the
//! conditions under which a handler would trap, tested on the thread.
use vstd::prelude::*;
use crate::classfile::ConstantPoolEntry;
use crate::instructions::control::{branch_target, if_icmp_effect, if_int_effect, if_null_effect, IntCmp};
use crate::instructions::invoke::{count_args, invoke_effect, invokespecial_effect};
use crate::instructions::objects::{constant_effect, new_effect, operand_field_ref};
use crate::instructions::instruction_effect;
use crate::runtime::frame::{Frame, Value};
use crate::runtime::thread::Thread;
use crate::text::str_eq;

verus! {

/// The top frame.
fn top_frame(thread: &Thread) -> (f: &Frame)
    requires
        thread@.stack.len() > 0,
    ensures
        f@ == thread@.top(),
{
    &thread.stack[thread.stack.len() - 1]
}

/// Whether the operand `k` places below the top is an int.
fn int_at(f: &Frame, k: usize) -> (b: bool)
    ensures
        b == (k < f@.stack.len() && f@.peek(k as int) is I32),
{
    k < f.operand_stack.len() && match f.peek(k) {
        Value::I32(_) => true,
        _ => false,
    }
}

/// Whether the operand `k` places below the top is a long.
fn long_at(f: &Frame, k: usize) -> (b: bool)
    ensures
        b == (k < f@.stack.len() && f@.peek(k as int) is I64),
{
    k < f.operand_stack.len() && match f.peek(k) {
        Value::I64(_) => true,
        _ => false,
    }
}

/// Whether the entry numbered `index` is a constant that `ldc` can push.
fn constant_ok(thread: &Thread, index: u16) -> (ok: bool)
    requires
        thread@.stack.len() > 0,
    ensures
        ok == (constant_effect(thread@, index) is Done),
{
    let n = thread.stack.len();
    match thread.class_loader.get_class(thread.stack[n - 1].class_name.as_str()) {
        Some(class_file) => match class_file.constant_pool.get(index) {
            Some(ConstantPoolEntry::Integer(_)) => true,
            Some(ConstantPoolEntry::Float(_)) => true,
            Some(ConstantPoolEntry::String { string_index }) => match class_file.constant_pool.get(
                *string_index,
            ) {
                Some(ConstantPoolEntry::Utf8(_)) => true,
                _ => false,
            },
            _ => false,
        },
        None => false,
    }
}

/// Whether the two operand bytes name a field reference that resolves.
fn field_ref_ok(thread: &Thread) -> (ok: bool)
    requires
        thread@.stack.len() > 0,
        thread@.top().has_bytes(2),
    ensures
        ok == (operand_field_ref(thread@) is Some),
{
    let f = top_frame(thread);
    let index = f.code_u2();
    match thread.class_loader.get_class(f.class_name.as_str()) {
        Some(class_file) => match class_file.constant_pool.get(index) {
            Some(ConstantPoolEntry::Fieldref { class_index, name_and_type_index }) => {
                let class_ok = thread.class_loader.resolve_class_name(class_file, *class_index).is_some();
                let name_ok = match class_file.constant_pool.get(*name_and_type_index) {
                    Some(ConstantPoolEntry::NameAndType { name_index, descriptor_index: _ }) => match class_file.constant_pool.get(
                        *name_index,
                    ) {
                        Some(ConstantPoolEntry::Utf8(_)) => true,
                        _ => false,
                    },
                    _ => false,
                };
                class_ok && name_ok
            },
            _ => false,
        },
        None => false,
    }
}

/// Whether the two operand bytes name a class that resolves.
fn class_ref_ok(thread: &Thread) -> (ok: bool)
    requires
        thread@.stack.len() > 0,
        thread@.top().has_bytes(2),
    ensures
        ok == (new_effect(thread@) is Done),
{
    let f = top_frame(thread);
    let index = f.code_u2();
    match thread.class_loader.get_class(f.class_name.as_str()) {
        Some(class_file) => thread.class_loader.resolve_class_name(class_file, index).is_some(),
        None => false,
    }
}

/// Whether an invoke instruction can run: its method reference resolves and
/// the operand stack holds the values it pops.
fn invoke_ok(thread: &Thread, receiver: bool) -> (ok: bool)
    requires
        thread@.stack.len() > 0,
    ensures
        ok == (invoke_effect(thread@, receiver) is Done),
{
    let f = top_frame(thread);
    if !f.has_bytes(2) {
        return false;
    }
    let index = f.code_u2();
    match thread.class_loader.get_class(f.class_name.as_str()) {
        Some(class_file) => match thread.class_loader.resolve_method_ref(class_file, index) {
            Some((_, _, descriptor)) => {
                let count = count_args(descriptor.as_str());
                let depth = f.operand_stack.len();
                if receiver {
                    count < depth
                } else {
                    count <= depth
                }
            },
            None => false,
        },
        None => false,
    }
}

/// Whether `invokespecial` can run.
fn invokespecial_ok(thread: &Thread) -> (ok: bool)
    requires
        thread@.stack.len() > 0,
    ensures
        ok == (invokespecial_effect(thread@) is Done),
{
    let f = top_frame(thread);
    if !f.has_bytes(2) {
        return false;
    }
    let index = f.code_u2();
    match thread.class_loader.get_class(f.class_name.as_str()) {
        Some(class_file) => match thread.class_loader.resolve_method_ref(class_file, index) {
            Some((c, m, _)) => {
                if str_eq(c.as_str(), "java/lang/Object") && str_eq(m.as_str(), "<init>") {
                    f.operand_stack.len() > 0
                } else {
                    invoke_ok(thread, true)
                }
            },
            None => false,
        },
        None => false,
    }
}

/// Whether a branch at the program counter of `f` lands without overflow,
/// where it is taken.
fn branch_ok(f: &Frame, taken: bool) -> (ok: bool)
    requires
        f@.has_bytes(2),
    ensures
        ok == (!taken || branch_target((f@.pc + 2) as usize, crate::runtime::frame::code_u2(f@.code, f@.pc as int) as i16) is Some),
{
    if !taken {
        return true;
    }
    let offset = f.code_u2() as i16;
    proof {
        assert(f.code@.len() == f.code.len());
    }
    let base: i32 = #[verifier::truncate] ((f.pc + 2) as i32);
    let s = base as i64 + offset as i64;
    i32::MIN as i64 <= s - 3 && s <= i32::MAX as i64
}

/// Whether a conditional branch on an int can run.
fn if_int_ok(thread: &Thread, cmp: IntCmp) -> (ok: bool)
    requires
        thread@.stack.len() > 0,
    ensures
        ok == (if_int_effect(thread@, cmp) is Done),
{
    let f = top_frame(thread);
    if !f.has_bytes(2) || !int_at(f, 0) {
        return false;
    }
    let v = f.peek(0).as_i32();
    branch_ok(f, cmp.test(v, 0))
}

/// Whether a conditional branch on two ints can run.
fn if_ints_ok(thread: &Thread, cmp: IntCmp) -> (ok: bool)
    requires
        thread@.stack.len() > 0,
    ensures
        ok == (if_icmp_effect(thread@, cmp) is Done),
{
    let f = top_frame(thread);
    if !f.has_bytes(2) || !int_at(f, 0) || !int_at(f, 1) {
        return false;
    }
    let b = f.peek(0).as_i32();
    let a = f.peek(1).as_i32();
    branch_ok(f, cmp.test(a, b))
}

/// Whether a conditional branch on a reference can run.
fn if_null_ok(thread: &Thread, when_null: bool) -> (ok: bool)
    requires
        thread@.stack.len() > 0,
    ensures
        ok == (if_null_effect(thread@, when_null) is Done),
{
    let f = top_frame(thread);
    if !f.has_bytes(2) || f.operand_stack.len() == 0 {
        return false;
    }
    branch_ok(f, (f.peek(0) == Value::Null) == when_null)
}

/// Whether the instruction with opcode `op` can execute on `thread`, whose
/// program counter is past the opcode byte.
pub fn can_execute(thread: &Thread, op: u8) -> (ok: bool)
    requires
        thread@.stack.len() > 0,
    ensures
        ok == (instruction_effect(op, thread@) is Done),
{
    let f = top_frame(thread);
    let depth = f.operand_stack.len();
    let nlocals = f.locals.len();
    if op == 0x00 || 0x02 <= op && op <= 0x08 || op == 0xB1 {
        true
    } else if op == 0x10 {
        f.has_bytes(1)
    } else if op == 0x11 {
        f.has_bytes(2)
    } else if op == 0x12 {
        f.has_bytes(1) && constant_ok(thread, f.code_byte(0) as u16)
    } else if op == 0x13 {
        f.has_bytes(2) && constant_ok(thread, f.code_u2())
    } else if 0x1A <= op && op <= 0x1D {
        ((op - 0x1A) as usize) < nlocals
    } else if 0x2A <= op && op <= 0x2D {
        ((op - 0x2A) as usize) < nlocals
    } else if op == 0x15 || op == 0x19 {
        f.has_bytes(1) && (f.code_byte(0) as usize) < nlocals
    } else if 0x3B <= op && op <= 0x3E {
        depth > 0 && ((op - 0x3B) as usize) < nlocals
    } else if 0x4B <= op && op <= 0x4E {
        depth > 0 && ((op - 0x4B) as usize) < nlocals
    } else if op == 0x36 || op == 0x3A {
        f.has_bytes(1) && depth > 0 && (f.code_byte(0) as usize) < nlocals
    } else if op == 0x60 || op == 0x64 || op == 0x68 {
        int_at(f, 0) && int_at(f, 1)
    } else if op == 0x6C || op == 0x70 {
        int_at(f, 0) && int_at(f, 1) && f.peek(0).as_i32() != 0
    } else if op == 0x74 {
        int_at(f, 0) && f.peek(0).as_i32() != i32::MIN
    } else if op == 0x84 {
        f.has_bytes(2) && (f.code_byte(0) as usize) < nlocals && match f.locals[f.code_byte(0) as usize] {
            Value::I32(_) => true,
            _ => false,
        }
    } else if op == 0x61 || op == 0x65 || op == 0x69 {
        long_at(f, 0) && long_at(f, 1)
    } else if op == 0x6D {
        long_at(f, 0) && long_at(f, 1) && f.peek(0).as_i64() != 0
    } else if op == 0x75 {
        long_at(f, 0) && f.peek(0).as_i64() != i64::MIN
    } else if op == 0x57 || op == 0x59 || op == 0xAC || op == 0xB0 {
        depth > 0
    } else if op == 0x5F {
        depth >= 2
    } else if op == 0x99 {
        if_int_ok(thread, IntCmp::Eq)
    } else if op == 0x9A {
        if_int_ok(thread, IntCmp::Ne)
    } else if op == 0x9F {
        if_ints_ok(thread, IntCmp::Eq)
    } else if op == 0xA0 {
        if_ints_ok(thread, IntCmp::Ne)
    } else if op == 0xA1 {
        if_ints_ok(thread, IntCmp::Lt)
    } else if op == 0xA2 {
        if_ints_ok(thread, IntCmp::Ge)
    } else if op == 0xA3 {
        if_ints_ok(thread, IntCmp::Gt)
    } else if op == 0xA4 {
        if_ints_ok(thread, IntCmp::Le)
    } else if op == 0xA7 {
        f.has_bytes(2) && branch_ok(f, true)
    } else if op == 0xC6 {
        if_null_ok(thread, true)
    } else if op == 0xC7 {
        if_null_ok(thread, false)
    } else if op == 0xBB {
        f.has_bytes(2) && class_ref_ok(thread)
    } else if op == 0xB2 {
        f.has_bytes(2) && field_ref_ok(thread)
    } else if op == 0xB3 {
        f.has_bytes(2) && depth > 0 && field_ref_ok(thread)
    } else if op == 0xB6 {
        invoke_ok(thread, true)
    } else if op == 0xB7 {
        invokespecial_ok(thread)
    } else if op == 0xB8 {
        invoke_ok(thread, false)
    } else {
        false
    }
}

} // verus!
