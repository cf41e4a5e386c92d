//! Constants from the constant pool, static and instance fields, and
//! object creation.
use vstd::prelude::*;
use crate::classfile::ConstantPoolEntry;
use crate::classfile::models::{class_name_at, cp_lookup, field_name_at, field_ref_at, utf8_at};
use crate::classfile::constant_pool::CpEntryV;
use crate::instructions::{continue_with, Effect};
use crate::runtime::frame::{code_u2, FrameV, Value};
use crate::runtime::heap::{blank_object, lookup, string_object, update, HeapV, JObjectV};
use crate::runtime::thread::{lemma_with_top, ExecutionResult, ResultV, Thread, ThreadV};
use crate::text::str_eq;

verus! {

/// The thread with `f` as its top frame and the heap `h`, going on.
pub open spec fn continue_with_heap(t: ThreadV, f: FrameV, h: HeapV) -> Effect {
    Effect::Done(t.with_top(f).with_heap(h), ResultV::Continue)
}

/// Pushes the constant-pool entry numbered `index` of the current class:
/// an int, the bits of a float, or a new String object; any other entry traps.
pub open spec fn constant_effect(t: ThreadV, index: u16) -> Effect {
    if t.stack.len() == 0 {
        Effect::Trap
    } else {
        let f = t.top();
        match t.current_class() {
            None => Effect::Trap,
            Some(cf) => match cp_lookup(cf.constant_pool@, index) {
                Some(CpEntryV::Integer(v)) => continue_with(t, f.pushed(Value::I32(v))),
                Some(CpEntryV::Float(bits)) => continue_with(t, f.pushed(Value::F32(bits))),
                Some(CpEntryV::String { string_index }) => match utf8_at(cf.constant_pool@, string_index) {
                    Some(s) => continue_with_heap(
                        t,
                        f.pushed(Value::Object(t.heap.next_slot())),
                        t.heap.place(string_object(s)),
                    ),
                    None => Effect::Trap,
                },
                _ => Effect::Trap,
            },
        }
    }
}

/// `ldc`: the constant numbered by the operand byte.
pub open spec fn ldc_effect(t: ThreadV) -> Effect {
    if t.stack.len() == 0 || !t.top().has_bytes(1) {
        Effect::Trap
    } else {
        let f = t.top();
        constant_effect(t.with_top(f.at(f.pc + 1)), f.byte(0) as u16)
    }
}

/// `ldc_w`: the constant numbered by the two operand bytes.
pub open spec fn ldc_w_effect(t: ThreadV) -> Effect {
    if t.stack.len() == 0 || !t.top().has_bytes(2) {
        Effect::Trap
    } else {
        let f = t.top();
        constant_effect(t.with_top(f.at(f.pc + 2)), code_u2(f.code, f.pc as int))
    }
}

/// The key under which the heap keeps static field `name` of `class`.
pub open spec fn static_key(class: Seq<char>, name: Seq<char>) -> Seq<char> {
    class + "."@ + name
}

/// The value of the static field under `key`: `I32(0)` before it is set.
pub open spec fn static_value(h: HeapV, key: Seq<char>) -> Value {
    match lookup(h.statics, key) {
        Some(v) => v,
        None => Value::I32(0),
    }
}

/// The field reference that the two operand bytes name in the current class.
pub open spec fn operand_field_ref(t: ThreadV) -> Option<(Seq<char>, Seq<char>)> {
    match t.current_class() {
        Some(cf) => field_ref_at(cf.constant_pool@, code_u2(t.top().code, t.top().pc as int)),
        None => None,
    }
}

/// The field name that the two operand bytes name in the current class.
pub open spec fn operand_field_name(t: ThreadV) -> Option<Seq<char>> {
    match t.current_class() {
        Some(cf) => field_name_at(cf.constant_pool@, code_u2(t.top().code, t.top().pc as int)),
        None => None,
    }
}

/// `getstatic`: pushes a static field. `System.out` is a new `PrintStream`
/// object, the receiver of the native printing methods.
pub open spec fn getstatic_effect(t: ThreadV) -> Effect {
    if t.stack.len() == 0 || !t.top().has_bytes(2) || operand_field_ref(t) is None {
        Effect::Trap
    } else {
        let f = t.top();
        let g = f.at(f.pc + 2);
        let (c, n) = operand_field_ref(t).unwrap();
        if c == "java/lang/System"@ && n == "out"@ {
            continue_with_heap(
                t,
                g.pushed(Value::Object(t.heap.next_slot())),
                t.heap.place(blank_object("java/io/PrintStream"@)),
            )
        } else {
            continue_with(t, g.pushed(static_value(t.heap, static_key(c, n))))
        }
    }
}

/// `putstatic`: pops a value into a static field.
pub open spec fn putstatic_effect(t: ThreadV) -> Effect {
    if t.stack.len() == 0 || !t.top().has_bytes(2) || t.top().stack.len() == 0 || operand_field_ref(
        t,
    ) is None {
        Effect::Trap
    } else {
        let f = t.top();
        let (c, n) = operand_field_ref(t).unwrap();
        continue_with_heap(
            t,
            f.at(f.pc + 2).popped(),
            HeapV { statics: update(t.heap.statics, static_key(c, n), f.peek(0)), ..t.heap },
        )
    }
}

/// `new`: pushes a new object of the class that the `Class` entry named by
/// the operand bytes refers to.
pub open spec fn new_effect(t: ThreadV) -> Effect {
    if t.stack.len() == 0 || !t.top().has_bytes(2) {
        Effect::Trap
    } else {
        let f = t.top();
        match t.current_class() {
            None => Effect::Trap,
            Some(cf) => match class_name_at(cf.constant_pool@, code_u2(f.code, f.pc as int)) {
                None => Effect::Trap,
                Some(c) => continue_with_heap(
                    t,
                    f.at(f.pc + 2).pushed(Value::Object(t.heap.next_slot())),
                    t.heap.place(blank_object(c)),
                ),
            },
        }
    }
}

/// The value of field `name` of an object: `I32(0)` before it is set.
pub open spec fn field_value(o: JObjectV, name: Seq<char>) -> Value {
    match lookup(o.fields, name) {
        Some(v) => v,
        None => Value::I32(0),
    }
}

/// `getfield`: pops an object reference and pushes one of its fields; a
/// null or dangling reference, or a value that is no reference, traps.
pub open spec fn getfield_effect(t: ThreadV) -> Effect {
    if t.stack.len() == 0 || !t.top().has_bytes(2) || t.top().stack.len() == 0 || operand_field_name(
        t,
    ) is None {
        Effect::Trap
    } else {
        let f = t.top();
        let name = operand_field_name(t).unwrap();
        match f.peek(0) {
            Value::Object(idx) => if t.heap.live(idx as int) {
                continue_with(
                    t,
                    f.at(f.pc + 2).popped().pushed(field_value(t.heap.objects[idx as int].unwrap(), name)),
                )
            } else {
                Effect::Trap
            },
            _ => Effect::Trap,
        }
    }
}

/// `putfield`: pops a value and an object reference and sets the field; a
/// null or dangling reference, or a value that is no reference, traps.
pub open spec fn putfield_effect(t: ThreadV) -> Effect {
    if t.stack.len() == 0 || !t.top().has_bytes(2) || t.top().stack.len() < 2 || operand_field_name(
        t,
    ) is None {
        Effect::Trap
    } else {
        let f = t.top();
        let name = operand_field_name(t).unwrap();
        match f.peek(1) {
            Value::Object(idx) => if t.heap.live(idx as int) {
                let o = t.heap.objects[idx as int].unwrap();
                continue_with_heap(
                    t,
                    f.at(f.pc + 2).popped().popped(),
                    HeapV {
                        objects: t.heap.objects.update(
                            idx as int,
                            Some(JObjectV { fields: update(o.fields, name, f.peek(0)), ..o }),
                        ),
                        ..t.heap
                    },
                )
            } else {
                Effect::Trap
            },
            _ => Effect::Trap,
        }
    }
}

/// Pushes the constant numbered `index` (see `constant_effect`).
fn push_constant(thread: &mut Thread, index: u16) -> (r: ExecutionResult)
    requires
        old(thread)@.heap.wf(),
        constant_effect(old(thread)@, index) is Done,
    ensures
        constant_effect(old(thread)@, index) == Effect::Done(final(thread)@, r@),
        final(thread)@.heap.wf(),
{
    let n = thread.stack.len();
    let val = match thread.class_loader.get_class(thread.stack[n - 1].class_name.as_str()) {
        Some(class_file) => match class_file.constant_pool.get(index) {
            Some(ConstantPoolEntry::Integer(v)) => Value::I32(*v),
            Some(ConstantPoolEntry::Float(bits)) => Value::F32(*bits),
            Some(ConstantPoolEntry::String { string_index }) => match class_file.constant_pool.get(
                *string_index,
            ) {
                Some(ConstantPoolEntry::Utf8(s)) => Value::Object(thread.heap.alloc_string(s.clone())),
                _ => Value::Null,
            },
            _ => Value::Null,
        },
        None => Value::Null,
    };
    thread.current_frame().push(val);
    ExecutionResult::Continue
}

/// `ldc`: pushes a constant-pool item (one-byte index).
pub fn ldc(thread: &mut Thread) -> (r: ExecutionResult)
    requires
        old(thread)@.heap.wf(),
        ldc_effect(old(thread)@) is Done,
    ensures
        ldc_effect(old(thread)@) == Effect::Done(final(thread)@, r@),
        final(thread)@.heap.wf(),
{
    let ghost t0 = thread@;
    let index = thread.current_frame().read_u1() as u16;
    let r = push_constant(thread, index);
    proof {
        lemma_with_top(t0, t0.top().at(t0.top().pc + 1), final(thread)@.top());
    }
    r
}

/// `ldc_w`: pushes a constant-pool item (two-byte index).
pub fn ldc_w(thread: &mut Thread) -> (r: ExecutionResult)
    requires
        old(thread)@.heap.wf(),
        ldc_w_effect(old(thread)@) is Done,
    ensures
        ldc_w_effect(old(thread)@) == Effect::Done(final(thread)@, r@),
        final(thread)@.heap.wf(),
{
    let index = thread.current_frame().read_u2();
    push_constant(thread, index)
}

/// Class name and field name of the field reference numbered `index` in the
/// current class.
fn resolve_field_ref(thread: &Thread, index: u16) -> (res: (String, String))
    requires
        thread@.stack.len() > 0,
        thread@.current_class() matches Some(cf) && field_ref_at(cf.constant_pool@, index) is Some,
    ensures
        (res.0@, res.1@) == field_ref_at(thread@.current_class().unwrap().constant_pool@, index).unwrap(),
{
    let n = thread.stack.len();
    match thread.class_loader.get_class(thread.stack[n - 1].class_name.as_str()) {
        Some(class_file) => match class_file.constant_pool.get(index) {
            Some(ConstantPoolEntry::Fieldref { class_index, name_and_type_index: _ }) => {
                let class_name = match thread.class_loader.resolve_class_name(class_file, *class_index) {
                    Some(c) => c,
                    None => String::new(),
                };
                (class_name, field_name(class_file.constant_pool.get(index), class_file))
            },
            _ => (String::new(), String::new()),
        },
        None => (String::new(), String::new()),
    }
}

/// The field name of a `Fieldref` entry of `class_file`.
fn field_name(entry: Option<&ConstantPoolEntry>, class_file: &crate::classfile::ClassFile) -> (name: String)
    requires
        entry matches Some(e) && e@ matches CpEntryV::Fieldref { class_index, name_and_type_index }
            && cp_lookup(class_file.constant_pool@, name_and_type_index) matches Some(
            CpEntryV::NameAndType { name_index, descriptor_index },
        ) && utf8_at(class_file.constant_pool@, name_index) is Some,
    ensures
        entry matches Some(e) && e@ matches CpEntryV::Fieldref { class_index, name_and_type_index }
            && cp_lookup(class_file.constant_pool@, name_and_type_index) matches Some(
            CpEntryV::NameAndType { name_index, descriptor_index },
        ) && utf8_at(class_file.constant_pool@, name_index) == Some(name@),
{
    match entry {
        Some(ConstantPoolEntry::Fieldref { class_index: _, name_and_type_index }) => match class_file.constant_pool.get(
            *name_and_type_index,
        ) {
            Some(ConstantPoolEntry::NameAndType { name_index, descriptor_index: _ }) => match class_file.constant_pool.get(
                *name_index,
            ) {
                Some(ConstantPoolEntry::Utf8(n)) => n.clone(),
                _ => String::new(),
            },
            _ => String::new(),
        },
        _ => String::new(),
    }
}

/// The field name of the field reference numbered `index` in the current class.
fn resolve_field_name(thread: &Thread, index: u16) -> (res: String)
    requires
        thread@.stack.len() > 0,
        thread@.current_class() matches Some(cf) && field_name_at(cf.constant_pool@, index) is Some,
    ensures
        res@ == field_name_at(thread@.current_class().unwrap().constant_pool@, index).unwrap(),
{
    let n = thread.stack.len();
    match thread.class_loader.get_class(thread.stack[n - 1].class_name.as_str()) {
        Some(class_file) => field_name(class_file.constant_pool.get(index), class_file),
        None => String::new(),
    }
}

/// `class.name`, the key of a static field.
fn static_field_key(class: &str, name: &str) -> (key: String)
    ensures
        key@ == static_key(class@, name@),
{
    let mut key = class.to_owned();
    key.append(".");
    key.append(name);
    key
}

/// `getstatic`: gets a static field of a class.
pub fn getstatic(thread: &mut Thread) -> (r: ExecutionResult)
    requires
        old(thread)@.heap.wf(),
        getstatic_effect(old(thread)@) is Done,
    ensures
        getstatic_effect(old(thread)@) == Effect::Done(final(thread)@, r@),
        final(thread)@.heap.wf(),
{
    let ghost t0 = thread@;
    let index = thread.current_frame().read_u2();
    let ghost t1 = thread@;
    let (field_class, field_name) = resolve_field_ref(thread, index);
    if str_eq(field_class.as_str(), "java/lang/System") && str_eq(field_name.as_str(), "out") {
        let idx = thread.heap.alloc_object(String::from_str("java/io/PrintStream"));
        thread.current_frame().push(Value::Object(idx));
    } else {
        let key = static_field_key(field_class.as_str(), field_name.as_str());
        let val = thread.heap.get_static_field(key.as_str());
        thread.current_frame().push(val);
    }
    proof {
        lemma_with_top(t0, t1.top(), final(thread)@.top());
    }
    ExecutionResult::Continue
}

/// `putstatic`: sets a static field of a class.
pub fn putstatic(thread: &mut Thread) -> (r: ExecutionResult)
    requires
        old(thread)@.heap.wf(),
        putstatic_effect(old(thread)@) is Done,
    ensures
        putstatic_effect(old(thread)@) == Effect::Done(final(thread)@, r@),
        final(thread)@.heap.wf(),
{
    let frame = thread.current_frame();
    let index = frame.read_u2();
    let val = frame.pop();
    let (field_class, field_name) = resolve_field_ref(thread, index);
    let key = static_field_key(field_class.as_str(), field_name.as_str());
    thread.heap.set_static_field(key, val);
    ExecutionResult::Continue
}

/// `new`: creates a new object.
pub fn new_op(thread: &mut Thread) -> (r: ExecutionResult)
    requires
        old(thread)@.heap.wf(),
        new_effect(old(thread)@) is Done,
    ensures
        new_effect(old(thread)@) == Effect::Done(final(thread)@, r@),
        final(thread)@.heap.wf(),
{
    let ghost t0 = thread@;
    let index = thread.current_frame().read_u2();
    let ghost t1 = thread@;
    let n = thread.stack.len();
    let target_class = match thread.class_loader.get_class(thread.stack[n - 1].class_name.as_str()) {
        Some(class_file) => match thread.class_loader.resolve_class_name(class_file, index) {
            Some(c) => c,
            None => String::new(),
        },
        None => String::new(),
    };
    let obj_idx = thread.heap.alloc_object(target_class);
    thread.current_frame().push(Value::Object(obj_idx));
    proof {
        lemma_with_top(t0, t1.top(), final(thread)@.top());
    }
    ExecutionResult::Continue
}

/// `getfield`: gets a field of an object.
pub fn getfield(thread: &mut Thread) -> (r: ExecutionResult)
    requires
        getfield_effect(old(thread)@) is Done,
    ensures
        getfield_effect(old(thread)@) == Effect::Done(final(thread)@, r@),
{
    let ghost t0 = thread@;
    let index = thread.current_frame().read_u2();
    let field_name = resolve_field_name(thread, index);
    let obj_ref = thread.current_frame().pop();
    let idx = obj_ref.as_object();
    let val = match thread.heap.get(idx) {
        Some(obj) => match obj.get_field(field_name.as_str()) {
            Some(v) => v,
            None => Value::I32(0),
        },
        None => Value::Null,
    };
    thread.current_frame().push(val);
    proof {
        lemma_with_top(t0, t0.top().at(t0.top().pc + 2), t0.top().at(t0.top().pc + 2).popped());
        lemma_with_top(t0, t0.top().at(t0.top().pc + 2).popped(), final(thread)@.top());
    }
    ExecutionResult::Continue
}

/// `putfield`: sets a field of an object.
pub fn putfield(thread: &mut Thread) -> (r: ExecutionResult)
    requires
        old(thread)@.heap.wf(),
        putfield_effect(old(thread)@) is Done,
    ensures
        putfield_effect(old(thread)@) == Effect::Done(final(thread)@, r@),
        final(thread)@.heap.wf(),
{
    let ghost t0 = thread@;
    let index = thread.current_frame().read_u2();
    let ghost t1 = thread@;
    let field_name = resolve_field_name(thread, index);
    let frame = thread.current_frame();
    let value = frame.pop();
    let obj_ref = frame.pop();
    let idx = obj_ref.as_object();
    let ghost h = thread@.heap;
    match thread.heap.get_mut(idx) {
        Some(obj) => obj.put_field(field_name, value),
        None => {},
    }
    proof {
        assert(thread@.heap.objects =~= h.objects.update(
            idx as int,
            Some(JObjectV { fields: update(h.objects[idx as int].unwrap().fields, field_name@, value), ..h.objects[idx as int].unwrap() }),
        ));
        assert forall|i: int| 0 <= i < thread@.heap.free_list.len() implies #[trigger] thread@.heap.free_list[i] < thread@.heap.objects.len() by {
            assert(thread@.heap.free_list[i] == h.free_list[i]);
        }
    }
    proof {
        lemma_with_top(t0, t1.top(), final(thread)@.top());
    }
    ExecutionResult::Continue
}

} // verus!
