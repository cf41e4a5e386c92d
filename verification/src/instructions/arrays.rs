//! Arrays: creation, element access and length.
use vstd::prelude::*;
use crate::instructions::objects::continue_with_heap;
use crate::instructions::{continue_with, Effect};
use crate::runtime::frame::{FrameV, Value};
use crate::runtime::thread::{lemma_with_top, ExecutionResult, Thread, ThreadV};

verus! {

/// Element types of the `newarray` instruction.
pub const T_BOOLEAN: u8 = 4;
pub const T_CHAR: u8 = 5;
pub const T_FLOAT: u8 = 6;
pub const T_DOUBLE: u8 = 7;
pub const T_BYTE: u8 = 8;
pub const T_SHORT: u8 = 9;
pub const T_INT: u8 = 10;
pub const T_LONG: u8 = 11;

/// The class name of an array whose elements have the primitive type
/// `atype`, if that is one of the types above.
pub open spec fn primitive_array_class(atype: u8) -> Option<Seq<char>> {
    if atype == T_INT {
        Some("[I"@)
    } else if atype == T_LONG {
        Some("[J"@)
    } else if atype == T_FLOAT {
        Some("[F"@)
    } else if atype == T_DOUBLE {
        Some("[D"@)
    } else if atype == T_BYTE {
        Some("[B"@)
    } else if atype == T_SHORT {
        Some("[S"@)
    } else if atype == T_CHAR {
        Some("[C"@)
    } else if atype == T_BOOLEAN {
        Some("[Z"@)
    } else {
        None
    }
}

/// Pops an int count from frame `f` (past its operands, `g`) and pushes a new
/// array of that many elements of class `class_name`; a negative count traps.
pub open spec fn new_array_effect(t: ThreadV, f: FrameV, class_name: Seq<char>) -> Effect {
    if f.stack.len() == 0 || !(f.peek(0) is I32) || f.peek(0).i32_value() < 0 {
        Effect::Trap
    } else {
        continue_with_heap(
            t,
            f.popped().pushed(Value::Object(t.heap.next_slot())),
            t.heap.with_array(class_name, f.peek(0).i32_value() as usize),
        )
    }
}

/// `newarray`: an array of the primitive type named by the operand byte.
pub open spec fn newarray_effect(t: ThreadV) -> Effect {
    if t.stack.len() == 0 || !t.top().has_bytes(1) {
        Effect::Trap
    } else {
        let f = t.top();
        match primitive_array_class(f.byte(0)) {
            Some(c) => new_array_effect(t, f.at(f.pc + 1), c),
            None => Effect::Trap,
        }
    }
}

/// `anewarray`: an array of references (the class operand is not read).
pub open spec fn anewarray_effect(t: ThreadV) -> Effect {
    if t.stack.len() == 0 || !t.top().has_bytes(2) {
        Effect::Trap
    } else {
        let f = t.top();
        new_array_effect(t, f.at(f.pc + 2), "[Ljava/lang/Object;"@)
    }
}

/// Whether the top frame's operand stack holds an array reference `k`
/// places below its top.
pub open spec fn array_operands(t: ThreadV, k: int) -> bool {
    &&& t.stack.len() > 0
    &&& t.top().stack.len() > k
    &&& t.top().peek(k) is Object
}

/// The heap index of the array reference `k` places below the top.
pub open spec fn array_index_at(t: ThreadV, k: int) -> int {
    match t.top().peek(k) {
        Value::Object(i) => i as int,
        _ => 0,
    }
}

/// The element index (an int, taken as a `usize`) `k` places below the top.
pub open spec fn element_index_at(t: ThreadV, k: int) -> int {
    (t.top().peek(k).i32_value() as usize) as int
}

/// `iaload` (and the byte, char and short forms): pops an index and an array
/// reference and pushes the int element (0 where there is none); a null
/// reference or one of another kind traps.
pub open spec fn iaload_effect(t: ThreadV) -> Effect {
    if !array_operands(t, 1) || !(t.top().peek(0) is I32) {
        Effect::Trap
    } else {
        let f = t.top();
        continue_with(
            t,
            f.popped().popped().pushed(
                Value::I32(t.heap.array_int(array_index_at(t, 1), element_index_at(t, 0))),
            ),
        )
    }
}

/// `iastore` (and the byte, char and short forms): pops an int value, an
/// index and an array reference and sets the element (nothing happens where
/// there is none).
pub open spec fn iastore_effect(t: ThreadV) -> Effect {
    if !array_operands(t, 2) || !(t.top().peek(0) is I32) || !(t.top().peek(1) is I32) {
        Effect::Trap
    } else {
        let f = t.top();
        continue_with_heap(
            t,
            f.popped().popped().popped(),
            t.heap.with_array_int(array_index_at(t, 2), element_index_at(t, 1), f.peek(0).i32_value()),
        )
    }
}

/// `aaload`: pops an index and an array reference and pushes the reference
/// element (`Null` where there is none).
pub open spec fn aaload_effect(t: ThreadV) -> Effect {
    if !array_operands(t, 1) || !(t.top().peek(0) is I32) {
        Effect::Trap
    } else {
        let f = t.top();
        continue_with(
            t,
            f.popped().popped().pushed(t.heap.array_ref(array_index_at(t, 1), element_index_at(t, 0))),
        )
    }
}

/// `aastore`: pops a value, an index and an array reference and sets the
/// reference element (nothing happens where there is none).
pub open spec fn aastore_effect(t: ThreadV) -> Effect {
    if !array_operands(t, 2) || !(t.top().peek(1) is I32) {
        Effect::Trap
    } else {
        let f = t.top();
        continue_with_heap(
            t,
            f.popped().popped().popped(),
            t.heap.with_array_ref(array_index_at(t, 2), element_index_at(t, 1), f.peek(0)),
        )
    }
}

/// `arraylength`: pops an array reference and pushes its length (0 where
/// there is no array there), truncated to an int.
pub open spec fn arraylength_effect(t: ThreadV) -> Effect {
    if !array_operands(t, 0) {
        Effect::Trap
    } else {
        let f = t.top();
        continue_with(t, f.popped().pushed(Value::I32(t.heap.array_length(array_index_at(t, 0)) as i32)))
    }
}

/// The class name of a primitive array type code.
fn primitive_array_name(atype: u8) -> (name: Option<String>)
    ensures
        match primitive_array_class(atype) {
            Some(c) => name is Some && name.unwrap()@ == c,
            None => name is None,
        },
{
    if atype == T_INT {
        Some(String::from_str("[I"))
    } else if atype == T_LONG {
        Some(String::from_str("[J"))
    } else if atype == T_FLOAT {
        Some(String::from_str("[F"))
    } else if atype == T_DOUBLE {
        Some(String::from_str("[D"))
    } else if atype == T_BYTE {
        Some(String::from_str("[B"))
    } else if atype == T_SHORT {
        Some(String::from_str("[S"))
    } else if atype == T_CHAR {
        Some(String::from_str("[C"))
    } else if atype == T_BOOLEAN {
        Some(String::from_str("[Z"))
    } else {
        None
    }
}

/// Pops a count and pushes a new array of class `class_name`.
fn new_array(thread: &mut Thread, class_name: String) -> (r: ExecutionResult)
    requires
        old(thread)@.heap.wf(),
        old(thread)@.stack.len() > 0,
        new_array_effect(old(thread)@, old(thread)@.top(), class_name@) is Done,
    ensures
        new_array_effect(old(thread)@, old(thread)@.top(), class_name@) == crate::instructions::Effect::Done(
            final(thread)@,
            r@,
        ),
        final(thread)@.heap.wf(),
{
    let ghost t0 = thread@;
    let count = thread.current_frame().pop_i32() as usize;
    let idx = thread.heap.alloc_array(class_name, count);
    thread.current_frame().push(Value::Object(idx));
    proof {
        lemma_with_top(t0, t0.top().popped(), final(thread)@.top());
    }
    ExecutionResult::Continue
}

/// `newarray`: creates a new array of a primitive type.
pub fn newarray(thread: &mut Thread) -> (r: ExecutionResult)
    requires
        old(thread)@.heap.wf(),
        newarray_effect(old(thread)@) is Done,
    ensures
        newarray_effect(old(thread)@) == Effect::Done(final(thread)@, r@),
        final(thread)@.heap.wf(),
{
    let ghost t0 = thread@;
    let atype = thread.current_frame().read_u1();
    let ghost t1 = thread@;
    let class_name = match primitive_array_name(atype) {
        Some(c) => c,
        None => String::new(),
    };
    let r = new_array(thread, class_name);
    proof {
        lemma_with_top(t0, t1.top(), final(thread)@.top());
    }
    r
}

/// `anewarray`: creates a new array of references.
pub fn anewarray(thread: &mut Thread) -> (r: ExecutionResult)
    requires
        old(thread)@.heap.wf(),
        anewarray_effect(old(thread)@) is Done,
    ensures
        anewarray_effect(old(thread)@) == Effect::Done(final(thread)@, r@),
        final(thread)@.heap.wf(),
{
    let ghost t0 = thread@;
    let _class_index = thread.current_frame().read_u2();
    let ghost t1 = thread@;
    let r = new_array(thread, String::from_str("[Ljava/lang/Object;"));
    proof {
        lemma_with_top(t0, t1.top(), final(thread)@.top());
    }
    r
}

/// `iaload`: loads an int from an array.
pub fn iaload(thread: &mut Thread) -> (r: ExecutionResult)
    requires
        old(thread)@.heap.wf(),
        iaload_effect(old(thread)@) is Done,
    ensures
        iaload_effect(old(thread)@) == Effect::Done(final(thread)@, r@),
{
    let ghost t0 = thread@;
    let frame = thread.current_frame();
    let index: usize = #[verifier::truncate] (frame.pop_i32() as usize);
    let arrayref = frame.pop();
    let val = thread.heap.get_array_int(arrayref.as_object(), index);
    thread.current_frame().push(Value::I32(val));
    proof {
        lemma_with_top(t0, t0.top().popped().popped(), final(thread)@.top());
    }
    ExecutionResult::Continue
}

/// `iastore`: stores an int into an array.
pub fn iastore(thread: &mut Thread) -> (r: ExecutionResult)
    requires
        old(thread)@.heap.wf(),
        iastore_effect(old(thread)@) is Done,
    ensures
        iastore_effect(old(thread)@) == Effect::Done(final(thread)@, r@),
        final(thread)@.heap.wf(),
{
    let frame = thread.current_frame();
    let value = frame.pop_i32();
    let index: usize = #[verifier::truncate] (frame.pop_i32() as usize);
    let arrayref = frame.pop();
    thread.heap.set_array_int(arrayref.as_object(), index, value);
    ExecutionResult::Continue
}

/// `aaload`: loads a reference from an array.
pub fn aaload(thread: &mut Thread) -> (r: ExecutionResult)
    requires
        old(thread)@.heap.wf(),
        aaload_effect(old(thread)@) is Done,
    ensures
        aaload_effect(old(thread)@) == Effect::Done(final(thread)@, r@),
{
    let ghost t0 = thread@;
    let frame = thread.current_frame();
    let index: usize = #[verifier::truncate] (frame.pop_i32() as usize);
    let arrayref = frame.pop();
    let val = thread.heap.get_array_ref(arrayref.as_object(), index);
    thread.current_frame().push(val);
    proof {
        lemma_with_top(t0, t0.top().popped().popped(), final(thread)@.top());
    }
    ExecutionResult::Continue
}

/// `aastore`: stores a reference into an array.
pub fn aastore(thread: &mut Thread) -> (r: ExecutionResult)
    requires
        old(thread)@.heap.wf(),
        aastore_effect(old(thread)@) is Done,
    ensures
        aastore_effect(old(thread)@) == Effect::Done(final(thread)@, r@),
        final(thread)@.heap.wf(),
{
    let frame = thread.current_frame();
    let value = frame.pop();
    let index: usize = #[verifier::truncate] (frame.pop_i32() as usize);
    let arrayref = frame.pop();
    thread.heap.set_array_ref(arrayref.as_object(), index, value);
    ExecutionResult::Continue
}

/// `arraylength`: gets the length of an array.
pub fn arraylength(thread: &mut Thread) -> (r: ExecutionResult)
    requires
        old(thread)@.heap.wf(),
        arraylength_effect(old(thread)@) is Done,
    ensures
        arraylength_effect(old(thread)@) == Effect::Done(final(thread)@, r@),
{
    let ghost t0 = thread@;
    let arrayref = thread.current_frame().pop();
    let len = thread.heap.get_array_length(arrayref.as_object());
    let n: i32 = #[verifier::truncate] (len as i32);
    thread.current_frame().push(Value::I32(n));
    proof {
        lemma_with_top(t0, t0.top().popped(), final(thread)@.top());
    }
    ExecutionResult::Continue
}

/// `baload`: loads a byte or boolean from an array.
pub fn baload(thread: &mut Thread) -> (r: ExecutionResult)
    requires
        old(thread)@.heap.wf(),
        iaload_effect(old(thread)@) is Done,
    ensures
        iaload_effect(old(thread)@) == Effect::Done(final(thread)@, r@),
{
    iaload(thread)
}

/// `bastore`: stores a byte or boolean into an array.
pub fn bastore(thread: &mut Thread) -> (r: ExecutionResult)
    requires
        old(thread)@.heap.wf(),
        iastore_effect(old(thread)@) is Done,
    ensures
        iastore_effect(old(thread)@) == Effect::Done(final(thread)@, r@),
        final(thread)@.heap.wf(),
{
    iastore(thread)
}

/// `caload`: loads a char from an array.
pub fn caload(thread: &mut Thread) -> (r: ExecutionResult)
    requires
        old(thread)@.heap.wf(),
        iaload_effect(old(thread)@) is Done,
    ensures
        iaload_effect(old(thread)@) == Effect::Done(final(thread)@, r@),
{
    iaload(thread)
}

/// `castore`: stores a char into an array.
pub fn castore(thread: &mut Thread) -> (r: ExecutionResult)
    requires
        old(thread)@.heap.wf(),
        iastore_effect(old(thread)@) is Done,
    ensures
        iastore_effect(old(thread)@) == Effect::Done(final(thread)@, r@),
        final(thread)@.heap.wf(),
{
    iastore(thread)
}

/// `saload`: loads a short from an array.
pub fn saload(thread: &mut Thread) -> (r: ExecutionResult)
    requires
        old(thread)@.heap.wf(),
        iaload_effect(old(thread)@) is Done,
    ensures
        iaload_effect(old(thread)@) == Effect::Done(final(thread)@, r@),
{
    iaload(thread)
}

/// `sastore`: stores a short into an array.
pub fn sastore(thread: &mut Thread) -> (r: ExecutionResult)
    requires
        old(thread)@.heap.wf(),
        iastore_effect(old(thread)@) is Done,
    ensures
        iastore_effect(old(thread)@) == Effect::Done(final(thread)@, r@),
        final(thread)@.heap.wf(),
{
    iastore(thread)
}

} // verus!
