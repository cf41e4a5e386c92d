//! Method invocation and return.
use vstd::prelude::*;
use crate::classfile::models::method_ref_at;
use crate::instructions::{continue_with, instruction_effect, Effect};
use crate::runtime::frame::{code_u2, Value};
use crate::runtime::thread::{lemma_with_top, ExecutionResult, ResultV, Thread, ThreadV};
use crate::text::str_eq;

verus! {

/// Whether `c` stands for a primitive type in a descriptor.
pub open spec fn is_primitive_code(c: char) -> bool {
    c == 'I' || c == 'Z' || c == 'B' || c == 'C' || c == 'S' || c == 'F' || c == 'J' || c == 'D'
}

/// The number of parameters that a descriptor names from position `i` up
/// to its `)` or its end; `in_class` says that `i` is inside a class name
/// (which ends with `;`). A primitive letter and a class name count one
/// each, whatever number of `[` comes before them; nothing else counts.
pub open spec fn count_from(s: Seq<char>, i: int, in_class: bool) -> nat
    decreases s.len() - i,
{
    if i < 0 || i >= s.len() {
        0
    } else if in_class {
        count_from(s, i + 1, s[i] != ';')
    } else if s[i] == ')' {
        0
    } else if is_primitive_code(s[i]) {
        1 + count_from(s, i + 1, false)
    } else if s[i] == 'L' {
        1 + count_from(s, i + 1, true)
    } else {
        count_from(s, i + 1, false)
    }
}

/// The number of parameters of a method descriptor such as `(ILjava/lang/String;)V`:
/// counted from after the opening `(` (from the start where there is none).
pub open spec fn arg_count(descriptor: Seq<char>) -> nat {
    let start = if descriptor.len() > 0 && descriptor[0] == '(' {
        1
    } else {
        0
    };
    count_from(descriptor, start, false)
}

/// The method reference that the two operand bytes of an invoke instruction
/// name, in the constant pool of the class of the top frame.
pub open spec fn invoked_method(t: ThreadV) -> Option<(Seq<char>, Seq<char>, Seq<char>)> {
    let f = t.top();
    match t.loader.class_named(f.class_name) {
        Some(cf) => method_ref_at(cf.constant_pool@, code_u2(f.code, f.pc as int)),
        None => None,
    }
}

/// An invoke instruction: the method reference is resolved, its arguments
/// (and, with `receiver`, the object below them) are popped, deepest first,
/// and the execution loop is asked to call the method.
pub open spec fn invoke_effect(t: ThreadV, receiver: bool) -> Effect {
    if t.stack.len() == 0 || !t.top().has_bytes(2) || invoked_method(t) is None {
        Effect::Trap
    } else {
        let f = t.top();
        let (c, m, d) = invoked_method(t).unwrap();
        let n = arg_count(d) + if receiver {
            1nat
        } else {
            0nat
        };
        if f.stack.len() < n {
            Effect::Trap
        } else {
            Effect::Done(
                t.with_top(f.at(f.pc + 2).popped_n(n)),
                ResultV::Invoke {
                    class_name: c,
                    method_name: m,
                    descriptor: d,
                    args: f.stack.subrange(f.stack.len() - n, f.stack.len() as int),
                },
            )
        }
    }
}

/// `invokespecial`: as `invokevirtual`, except that the constructor of
/// `java/lang/Object`, which does nothing, only has its object popped.
pub open spec fn invokespecial_effect(t: ThreadV) -> Effect {
    if t.stack.len() == 0 || !t.top().has_bytes(2) || invoked_method(t) is None {
        Effect::Trap
    } else {
        let f = t.top();
        let (c, m, d) = invoked_method(t).unwrap();
        if c == "java/lang/Object"@ && m == "<init>"@ {
            if f.stack.len() == 0 {
                Effect::Trap
            } else {
                continue_with(t, f.at(f.pc + 2).popped())
            }
        } else {
            invoke_effect(t, true)
        }
    }
}

/// `ireturn` and `areturn`: pop the result and return it.
pub open spec fn value_return_effect(t: ThreadV) -> Effect {
    if t.stack.len() == 0 || t.top().stack.len() == 0 {
        Effect::Trap
    } else {
        Effect::Done(t.with_top(t.top().popped()), ResultV::Return(Some(t.top().peek(0))))
    }
}

/// Counts the parameters of a method descriptor.
pub fn count_args(descriptor: &str) -> (n: usize)
    ensures
        n == arg_count(descriptor@),
{
    let len = descriptor.unicode_len();
    let mut i: usize = 0;
    if len > 0 && descriptor.get_char(0) == '(' {
        i = 1;
    }
    let mut count: usize = 0;
    let mut in_class = false;
    while i < len
        invariant
            len == descriptor@.len(),
            count <= i <= len,
            count + count_from(descriptor@, i as int, in_class) == arg_count(descriptor@),
        ensures
            count == arg_count(descriptor@),
        decreases len - i,
    {
        let c = descriptor.get_char(i);
        if in_class {
            in_class = c != ';';
        } else if c == ')' {
            break;
        } else if c == 'I' || c == 'Z' || c == 'B' || c == 'C' || c == 'S' || c == 'F' || c == 'J' || c
            == 'D' {
            count = count + 1;
        } else if c == 'L' {
            count = count + 1;
            in_class = true;
        }
        i = i + 1;
    }
    count
}

/// A field descriptor: a primitive letter, `L` followed by a class name and
/// `;`, or `[` followed by a field descriptor (an array of that type).
pub open spec fn is_field_descriptor(d: Seq<char>) -> bool
    decreases d.len(),
{
    if d.len() == 0 {
        false
    } else if d[0] == '[' {
        is_field_descriptor(d.drop_first())
    } else if d[0] == 'L' {
        d.len() >= 2 && d.last() == ';' && forall|k: int| 1 <= k < d.len() - 1 ==> d[k] != ';'
    } else {
        d.len() == 1 && is_primitive_code(d[0])
    }
}

/// Inside a class name, the count goes on after the closing `;`.
proof fn lemma_count_through_class_name(s: Seq<char>, j: int, end: int)
    requires
        0 <= j <= end < s.len(),
        s[end] == ';',
        forall|k: int| j <= k < end ==> s[k] != ';',
    ensures
        count_from(s, j, true) == count_from(s, end + 1, false),
    decreases end - j,
{
    if j < end {
        lemma_count_through_class_name(s, j + 1, end);
    }
}

/// A field descriptor at position `i` counts one.
proof fn lemma_count_field_descriptor(s: Seq<char>, i: int, d: Seq<char>)
    requires
        0 <= i,
        i + d.len() <= s.len(),
        s.subrange(i, i + d.len()) == d,
        is_field_descriptor(d),
    ensures
        count_from(s, i, false) == 1 + count_from(s, i + d.len(), false),
    decreases d.len(),
{
    assert(s[i] == s.subrange(i, i + d.len())[0]);
    if d[0] == '[' {
        assert(s.subrange(i + 1, i + d.len()) =~= d.drop_first());
        lemma_count_field_descriptor(s, i + 1, d.drop_first());
    } else if d[0] == 'L' {
        let end = i + d.len() - 1;
        assert forall|k: int| i + 1 <= k < end implies s[k] != ';' by {
            assert(s[k] == s.subrange(i, i + d.len())[k - i]);
        }
        assert(s[end] == s.subrange(i, i + d.len())[end - i]);
        lemma_count_through_class_name(s, i + 1, end);
    }
}

/// Field descriptors from position `i` up to a `)` count one each.
proof fn lemma_count_parameters(s: Seq<char>, i: int, ps: Seq<Seq<char>>)
    requires
        0 <= i,
        i + ps.flatten().len() < s.len(),
        s.subrange(i, i + ps.flatten().len()) == ps.flatten(),
        s[i + ps.flatten().len()] == ')',
        forall|k: int| 0 <= k < ps.len() ==> is_field_descriptor(#[trigger] ps[k]),
    ensures
        count_from(s, i, false) == ps.len(),
    decreases ps.len(),
{
    if ps.len() > 0 {
        let d = ps.first();
        let rest = ps.drop_first();
        let f = ps.flatten();
        let rf = rest.flatten();
        assert(f == d + rf);
        let whole = s.subrange(i, i + f.len());
        assert(s.subrange(i, i + d.len()) =~= whole.subrange(0, d.len() as int));
        assert(whole.subrange(0, d.len() as int) =~= d);
        assert(s.subrange(i + d.len(), i + d.len() + rf.len()) =~= whole.subrange(
            d.len() as int,
            f.len() as int,
        ));
        assert(whole.subrange(d.len() as int, f.len() as int) =~= rf);
        assert(is_field_descriptor(ps[0]));
        lemma_count_field_descriptor(s, i, d);
        assert forall|k: int| 0 <= k < rest.len() implies is_field_descriptor(#[trigger] rest[k]) by {
            assert(rest[k] == ps[k + 1]);
        }
        lemma_count_parameters(s, i + d.len(), rest);
    }
}

/// A method descriptor `(` P1 ... Pk `)` R whose parameters P1 ... Pk are
/// field descriptors has k parameters, whatever its return type R.
pub proof fn lemma_arg_count_of_field_descriptors(params: Seq<Seq<char>>, ret: Seq<char>)
    requires
        forall|k: int| 0 <= k < params.len() ==> is_field_descriptor(#[trigger] params[k]),
    ensures
        arg_count(seq!['('] + params.flatten() + seq![')'] + ret) == params.len(),
{
    let f = params.flatten();
    let s = seq!['('] + f + seq![')'] + ret;
    assert(s[0] == '(');
    assert(s.subrange(1, 1 + f.len() as int) =~= f);
    assert(s[1 + f.len() as int] == ')');
    lemma_count_parameters(s, 1, params);
}

/// Class name, method name and descriptor of the method reference numbered
/// `index` in the constant pool of the class of the top frame.
fn resolve_invoked(thread: &Thread, index: u16) -> (res: (String, String, String))
    requires
        thread@.stack.len() > 0,
        thread@.loader.class_named(thread@.top().class_name) matches Some(cf) && method_ref_at(
            cf.constant_pool@,
            index,
        ) is Some,
    ensures
        (res.0@, res.1@, res.2@) == method_ref_at(
            thread@.loader.class_named(thread@.top().class_name).unwrap().constant_pool@,
            index,
        ).unwrap(),
{
    let n = thread.stack.len();
    match thread.class_loader.get_class(thread.stack[n - 1].class_name.as_str()) {
        Some(class_file) => match thread.class_loader.resolve_method_ref(class_file, index) {
            Some(r) => r,
            None => (String::new(), String::new(), String::new()),
        },
        None => (String::new(), String::new(), String::new()),
    }
}

/// Pops the top `n` values of the top frame's operand stack, deepest first.
fn pop_args(thread: &mut Thread, n: usize) -> (args: Vec<Value>)
    requires
        old(thread)@.stack.len() > 0,
        old(thread)@.top().stack.len() >= n,
    ensures
        args@ == old(thread)@.top().stack.subrange(
            old(thread)@.top().stack.len() - n,
            old(thread)@.top().stack.len() as int,
        ),
        final(thread)@ == old(thread)@.with_top(old(thread)@.top().popped_n(n as nat)),
{
    let frame = thread.current_frame();
    let at = frame.operand_stack.len() - n;
    frame.operand_stack.split_off(at)
}

/// The number of values an invoke pops: the arguments that `descriptor`
/// names, and the object where there is a `receiver`.
fn popped_count(thread: &Thread, descriptor: &str, receiver: bool) -> (n: usize)
    requires
        thread@.stack.len() > 0,
        thread@.top().stack.len() >= arg_count(descriptor@) + if receiver {
            1nat
        } else {
            0nat
        },
    ensures
        n == arg_count(descriptor@) + if receiver {
            1nat
        } else {
            0nat
        },
{
    let count = count_args(descriptor);
    proof {
        // The operand stack holds the popped values, so their number fits.
        let f = thread.stack@[thread.stack@.len() - 1];
        assert(f.operand_stack@.len() == f.operand_stack.len());
    }
    if receiver {
        count + 1
    } else {
        count
    }
}

/// Reads the method reference operand, pops the arguments (and with
/// `receiver` the object), and asks for the call.
fn invoke(thread: &mut Thread, receiver: bool) -> (r: ExecutionResult)
    requires
        invoke_effect(old(thread)@, receiver) is Done,
    ensures
        invoke_effect(old(thread)@, receiver) == Effect::Done(final(thread)@, r@),
{
    let ghost t0 = thread@;
    let index = thread.current_frame().read_u2();
    let (target_class, method_name, descriptor) = resolve_invoked(thread, index);
    let total = popped_count(thread, descriptor.as_str(), receiver);
    let ghost t1 = thread@;
    let args = pop_args(thread, total);
    proof {
        lemma_with_top(t0, t1.top(), t1.top().popped_n(total as nat));
    }
    ExecutionResult::Invoke { class_name: target_class, method_name, descriptor, args }
}

/// `invokevirtual`: invokes an instance method.
pub fn invokevirtual(thread: &mut Thread) -> (r: ExecutionResult)
    requires
        invoke_effect(old(thread)@, true) is Done,
    ensures
        invoke_effect(old(thread)@, true) == Effect::Done(final(thread)@, r@),
{
    invoke(thread, true)
}

/// `invokespecial`: invokes a constructor, a private method or a method of
/// the superclass.
pub fn invokespecial(thread: &mut Thread) -> (r: ExecutionResult)
    requires
        invokespecial_effect(old(thread)@) is Done,
    ensures
        invokespecial_effect(old(thread)@) == Effect::Done(final(thread)@, r@),
{
    let ghost t0 = thread@;
    let index = thread.current_frame().read_u2();
    let ghost t1 = thread@;
    let (target_class, method_name, descriptor) = resolve_invoked(thread, index);
    if str_eq(target_class.as_str(), "java/lang/Object") && str_eq(method_name.as_str(), "<init>") {
        thread.current_frame().pop();
        proof {
            lemma_with_top(t0, t1.top(), t1.top().popped());
        }
        return ExecutionResult::Continue;
    }
    let total = popped_count(thread, descriptor.as_str(), true);
    let args = pop_args(thread, total);
    proof {
        lemma_with_top(t0, t1.top(), t1.top().popped_n(total as nat));
    }
    ExecutionResult::Invoke { class_name: target_class, method_name, descriptor, args }
}

/// `invokestatic`: invokes a static method.
pub fn invokestatic(thread: &mut Thread) -> (r: ExecutionResult)
    requires
        invoke_effect(old(thread)@, false) is Done,
    ensures
        invoke_effect(old(thread)@, false) == Effect::Done(final(thread)@, r@),
{
    invoke(thread, false)
}

/// `ireturn`: returns an int.
pub fn ireturn(thread: &mut Thread) -> (r: ExecutionResult)
    requires
        value_return_effect(old(thread)@) is Done,
    ensures
        value_return_effect(old(thread)@) == Effect::Done(final(thread)@, r@),
{
    let val = thread.current_frame().pop();
    ExecutionResult::Return(Some(val))
}

/// `areturn`: returns a reference.
pub fn areturn(thread: &mut Thread) -> (r: ExecutionResult)
    requires
        value_return_effect(old(thread)@) is Done,
    ensures
        value_return_effect(old(thread)@) == Effect::Done(final(thread)@, r@),
{
    let val = thread.current_frame().pop();
    ExecutionResult::Return(Some(val))
}

/// `return`: returns from a `void` method.
pub fn return_void(thread: &mut Thread) -> (r: ExecutionResult)
    ensures
        final(thread)@ == old(thread)@,
        r@ == ResultV::Return(None),
{
    ExecutionResult::Return(None)
}

/// `invokevirtual`, `invokespecial` and `invokestatic` (opcodes 0xB6,
/// 0xB7 and 0xB8) hand the called method the values on top of the operand
/// stack, in the order in which they were pushed, and pop exactly those:
/// `invokestatic` the arguments that the descriptor names, the other two
/// the object below them as well. The program counter moves past the
/// two operand bytes.
pub proof fn lemma_invoke_takes_pushed_values(op: u8, t: ThreadV)
    requires
        op == 0xB6 || op == 0xB7 || op == 0xB8,
    ensures
        instruction_effect(op, t) matches Effect::Done(t2, ResultV::Invoke { descriptor, args, .. }) ==> {
            let f = t.top();
            let n = args.len() as int;
            &&& n <= f.stack.len()
            &&& forall|i: int| 0 <= i < n ==> #[trigger] args[i] == f.stack[f.stack.len() - n + i]
            &&& t2.stack.len() == t.stack.len()
            &&& t2.top().stack == f.stack.subrange(0, f.stack.len() - n)
            &&& t2.top().pc == (f.pc + 2) as usize
            &&& n == arg_count(descriptor) + if op == 0xB8 {
                0nat
            } else {
                1nat
            }
        },
{
    let receiver = op != 0xB8;
    assert(instruction_effect(op, t) == if op == 0xB6 {
        invoke_effect(t, true)
    } else if op == 0xB7 {
        invokespecial_effect(t)
    } else {
        invoke_effect(t, false)
    });
    if instruction_effect(op, t) matches Effect::Done(_, ResultV::Invoke { .. }) {
        assert(instruction_effect(op, t) == invoke_effect(t, receiver));
        lemma_invoke_effect_takes_pushed_values(t, receiver);
    }
}

/// The arguments of an invoke are the top values of the operand stack,
/// in the order in which they were pushed.
proof fn lemma_invoke_effect_takes_pushed_values(t: ThreadV, receiver: bool)
    ensures
        invoke_effect(t, receiver) matches Effect::Done(t2, ResultV::Invoke { descriptor, args, .. }) ==> {
            let f = t.top();
            let n = args.len() as int;
            &&& n <= f.stack.len()
            &&& forall|i: int| 0 <= i < n ==> #[trigger] args[i] == f.stack[f.stack.len() - n + i]
            &&& t2.stack.len() == t.stack.len()
            &&& t2.top().stack == f.stack.subrange(0, f.stack.len() - n)
            &&& t2.top().pc == (f.pc + 2) as usize
            &&& n == arg_count(descriptor) + if receiver {
                1nat
            } else {
                0nat
            }
        },
{
    if invoke_effect(t, receiver) is Done {
        let f = t.top();
        let (c, m, d) = invoked_method(t).unwrap();
        let n = arg_count(d) + if receiver {
            1nat
        } else {
            0nat
        };
        let g = f.at(f.pc + 2).popped_n(n);
        lemma_with_top(t, g, g);
        assert(g.stack =~= f.stack.subrange(0, f.stack.len() - n));
    }
}

} // verus!
