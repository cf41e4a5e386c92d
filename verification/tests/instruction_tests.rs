use mini_jvm::instructions::arrays::{
    aaload, aastore, anewarray, arraylength, baload, bastore, caload, castore, iaload, iastore,
    newarray, saload, sastore, T_INT,
};
use mini_jvm::instructions::constants::{bipush, iconst, iconst_m1, nop, sipush};
use mini_jvm::instructions::control::{goto, if_icmpeq, if_icmplt, ifeq, ifnonnull, ifnull};
use mini_jvm::instructions::invoke::{areturn, count_args, ireturn, return_void};
use mini_jvm::instructions::loads::{aload, aload_n, iload, iload_n};
use mini_jvm::instructions::math::{
    iadd, idiv, iinc, imul, ineg, irem, isub, ladd, ldiv, lmul, lneg, lsub,
};
use mini_jvm::instructions::objects::{getfield, getstatic, ldc, new_op, putfield, putstatic};
use mini_jvm::instructions::stack::{dup, pop_op, swap};
use mini_jvm::instructions::stores::{astore, astore_n, istore, istore_n};
use mini_jvm::instructions::checks::can_execute;
use mini_jvm::instructions::execute_instruction;
use mini_jvm::runtime::class_loader::ClassLoader;
use mini_jvm::runtime::frame::{Frame, Value};
use mini_jvm::runtime::thread::{ExecutionResult, Thread};

fn make_thread(code: Vec<u8>) -> Thread {
    let mut thread = Thread::new(ClassLoader::new());
    let frame = Frame::new(4, code);
    thread.push_frame(frame);
    thread
}

fn make_thread_with_locals(locals: Vec<Value>) -> Thread {
    let mut thread = Thread::new(ClassLoader::new());
    let mut frame = Frame::new(locals.len(), vec![]);
    for (i, v) in locals.into_iter().enumerate() {
        frame.locals[i] = v;
    }
    thread.push_frame(frame);
    thread
}

fn make_class_thread(code: Vec<u8>) -> Thread {
    let mut thread = Thread::new(ClassLoader::new());
    let mut frame = Frame::new(4, code);
    frame.class_name = "Test".to_string();
    thread.push_frame(frame);
    thread
}

#[test]
fn test_iconst() {
    let mut t = make_thread(vec![0x03]); // iconst_0
    iconst(&mut t, 0);
    assert_eq!(t.current_frame().pop_i32(), 0);
}

#[test]
fn test_bipush() {
    let mut t = make_thread(vec![0x0A]); // just the operand byte (10)
    t.current_frame().pc = 0;
    bipush(&mut t);
    assert_eq!(t.current_frame().pop_i32(), 10);
}

#[test]
fn test_sipush() {
    let mut t = make_thread(vec![0x00, 0x64]); // operand bytes for 100
    t.current_frame().pc = 0;
    sipush(&mut t);
    assert_eq!(t.current_frame().pop_i32(), 100);
}

#[test]
fn test_bipush_negative() {
    let mut t = make_thread(vec![0xFF]); // operand byte (-1)
    t.current_frame().pc = 0;
    bipush(&mut t);
    assert_eq!(t.current_frame().pop_i32(), -1);
}

#[test]
fn test_constants_continue() {
    let mut t = make_thread(vec![0xFF, 0x38]);
    assert_eq!(nop(&mut t), ExecutionResult::Continue);
    assert_eq!(iconst_m1(&mut t), ExecutionResult::Continue);
    assert_eq!(sipush(&mut t), ExecutionResult::Continue);
    assert_eq!(t.current_frame().pop_i32(), -200);
    assert_eq!(t.current_frame().pop_i32(), -1);
}

#[test]
fn test_iload_n() {
    let mut t = make_thread_with_locals(vec![Value::I32(42), Value::I32(0)]);
    iload_n(&mut t, 0);
    assert_eq!(t.current_frame().pop_i32(), 42);
}

#[test]
fn test_iload() {
    let mut t = make_thread_with_locals(vec![Value::I32(0), Value::I32(99)]);
    // Set up code: iload 1
    t.current_frame().code = vec![0x01];
    t.current_frame().pc = 0;
    iload(&mut t);
    assert_eq!(t.current_frame().pop_i32(), 99);
}

#[test]
fn test_aload_forms() {
    let mut t = make_thread_with_locals(vec![Value::Null, Value::Object(5)]);
    t.current_frame().code = vec![0x01];
    aload(&mut t);
    aload_n(&mut t, 0);
    assert_eq!(t.current_frame().pop(), Value::Null);
    assert_eq!(t.current_frame().pop(), Value::Object(5));
}

#[test]
fn test_istore_n() {
    let mut t = make_thread(vec![]);
    t.current_frame().push(Value::I32(42));
    istore_n(&mut t, 1);
    assert_eq!(t.current_frame().locals[1], Value::I32(42));
}

#[test]
fn test_istore() {
    let mut t = make_thread(vec![0x02]); // index = 2
    t.current_frame().push(Value::I32(99));
    t.current_frame().pc = 0;
    istore(&mut t);
    assert_eq!(t.current_frame().locals[2], Value::I32(99));
}

#[test]
fn test_store_then_load_round_trip() {
    let mut t = make_thread(vec![0x03]);
    t.current_frame().push(Value::I32(8));
    t.current_frame().push(Value::Object(1));
    astore(&mut t);
    astore_n(&mut t, 0);
    iload_n(&mut t, 0);
    aload_n(&mut t, 3);
    assert_eq!(t.current_frame().operand_stack, vec![Value::I32(8), Value::Object(1)]);
    assert_eq!(t.current_frame().locals[0], Value::I32(8));
}

#[test]
fn test_iadd() {
    let mut t = make_thread(vec![]);
    t.current_frame().push(Value::I32(10));
    t.current_frame().push(Value::I32(20));
    iadd(&mut t);
    assert_eq!(t.current_frame().pop_i32(), 30);
}

#[test]
fn test_isub() {
    let mut t = make_thread(vec![]);
    t.current_frame().push(Value::I32(20));
    t.current_frame().push(Value::I32(7));
    isub(&mut t);
    assert_eq!(t.current_frame().pop_i32(), 13);
}

#[test]
fn test_imul() {
    let mut t = make_thread(vec![]);
    t.current_frame().push(Value::I32(6));
    t.current_frame().push(Value::I32(7));
    imul(&mut t);
    assert_eq!(t.current_frame().pop_i32(), 42);
}

#[test]
fn test_idiv() {
    let mut t = make_thread(vec![]);
    t.current_frame().push(Value::I32(100));
    t.current_frame().push(Value::I32(3));
    idiv(&mut t);
    assert_eq!(t.current_frame().pop_i32(), 33);
}

#[test]
fn test_irem() {
    let mut t = make_thread(vec![]);
    t.current_frame().push(Value::I32(100));
    t.current_frame().push(Value::I32(3));
    irem(&mut t);
    assert_eq!(t.current_frame().pop_i32(), 1);
}

#[test]
fn test_ineg() {
    let mut t = make_thread(vec![]);
    t.current_frame().push(Value::I32(42));
    ineg(&mut t);
    assert_eq!(t.current_frame().pop_i32(), -42);
}

#[test]
fn test_iinc() {
    let mut t = make_thread(vec![]);
    t.current_frame().locals[1] = Value::I32(10);
    // Manually set up: iinc index=1, const=5
    t.current_frame().code = vec![0x01, 0x05];
    t.current_frame().pc = 0;
    iinc(&mut t);
    assert_eq!(t.current_frame().locals[1].as_i32(), 15);
}

#[test]
fn test_ladd() {
    let mut t = make_thread(vec![]);
    t.current_frame().push(Value::I64(100));
    t.current_frame().push(Value::I64(200));
    ladd(&mut t);
    assert_eq!(t.current_frame().pop_i64(), 300);
}

fn int_binop(op: fn(&mut Thread) -> ExecutionResult, a: i32, b: i32) -> i32 {
    let mut t = make_thread(vec![]);
    t.current_frame().push(Value::I32(a));
    t.current_frame().push(Value::I32(b));
    assert_eq!(op(&mut t), ExecutionResult::Continue);
    t.current_frame().pop_i32()
}

fn long_binop(op: fn(&mut Thread) -> ExecutionResult, a: i64, b: i64) -> i64 {
    let mut t = make_thread(vec![]);
    t.current_frame().push(Value::I64(a));
    t.current_frame().push(Value::I64(b));
    assert_eq!(op(&mut t), ExecutionResult::Continue);
    t.current_frame().pop_i64()
}

#[test]
fn test_int_arithmetic_wraps_and_truncates() {
    assert_eq!(int_binop(iadd, i32::MAX, 1), i32::MIN);
    assert_eq!(int_binop(isub, i32::MIN, 1), i32::MAX);
    assert_eq!(int_binop(imul, 0x10000, 0x10000), 0);
    assert_eq!(int_binop(idiv, -7, 2), -3);
    assert_eq!(int_binop(idiv, 7, -2), -3);
    assert_eq!(int_binop(idiv, i32::MIN, -1), i32::MIN);
    assert_eq!(int_binop(irem, -7, 2), -1);
    assert_eq!(int_binop(irem, 7, -2), 1);
    assert_eq!(int_binop(irem, i32::MIN, -1), 0);
    // (a / b) * b + a % b == a
    for (a, b) in [(-7, 2), (7, -2), (13, 5), (-13, -5)] {
        assert_eq!(int_binop(idiv, a, b) * b + int_binop(irem, a, b), a);
    }
}

#[test]
fn test_long_arithmetic() {
    assert_eq!(long_binop(lsub, 5, 7), -2);
    assert_eq!(long_binop(lmul, i64::MAX, 2), -2);
    assert_eq!(long_binop(ldiv, -9, 4), -2);
    assert_eq!(long_binop(ldiv, i64::MIN, -1), i64::MIN);
    assert_eq!(long_binop(ladd, i64::MAX, 1), i64::MIN);
    let mut t = make_thread(vec![]);
    t.current_frame().push(Value::I64(9));
    lneg(&mut t);
    assert_eq!(t.current_frame().pop_i64(), -9);
}

#[test]
fn test_iinc_wraps() {
    let mut t = make_thread(vec![0x00, 0xFF]);
    t.current_frame().locals[0] = Value::I32(i32::MIN);
    iinc(&mut t);
    assert_eq!(t.current_frame().locals[0], Value::I32(i32::MAX));
}

#[test]
fn test_pop() {
    let mut t = make_thread(vec![]);
    t.current_frame().push(Value::I32(1));
    t.current_frame().push(Value::I32(2));
    pop_op(&mut t);
    assert_eq!(t.current_frame().operand_stack.len(), 1);
}

#[test]
fn test_dup() {
    let mut t = make_thread(vec![]);
    t.current_frame().push(Value::I32(42));
    dup(&mut t);
    assert_eq!(t.current_frame().pop_i32(), 42);
    assert_eq!(t.current_frame().pop_i32(), 42);
}

#[test]
fn test_swap() {
    let mut t = make_thread(vec![]);
    t.current_frame().push(Value::I32(1));
    t.current_frame().push(Value::I32(2));
    swap(&mut t);
    assert_eq!(t.current_frame().pop_i32(), 1);
    assert_eq!(t.current_frame().pop_i32(), 2);
}

#[test]
fn test_dup_pop_and_swap_swap_restore() {
    let mut t = make_thread(vec![]);
    t.current_frame().push(Value::I32(1));
    t.current_frame().push(Value::Null);
    dup(&mut t);
    pop_op(&mut t);
    swap(&mut t);
    swap(&mut t);
    assert_eq!(t.current_frame().operand_stack, vec![Value::I32(1), Value::Null]);
}

#[test]
fn test_ifeq_branch_taken() {
    // ifeq offset=5, value=0 -> should branch
    let code = vec![0x00, 0x05]; // offset bytes (after opcode, which dispatch already consumed)
    let mut t = make_thread(code);
    t.current_frame().push(Value::I32(0));
    t.current_frame().pc = 0;
    ifeq(&mut t);
    // pc should have been adjusted by offset
}

#[test]
fn test_ifeq_branch_not_taken() {
    let code = vec![0x00, 0x05];
    let mut t = make_thread(code);
    t.current_frame().push(Value::I32(1));
    t.current_frame().pc = 0;
    ifeq(&mut t);
    assert_eq!(t.current_frame().pc, 2); // past the offset bytes
}

#[test]
fn test_if_icmpeq_taken() {
    let code = vec![0x00, 0x0A]; // offset 10
    let mut t = make_thread(code);
    t.current_frame().push(Value::I32(5));
    t.current_frame().push(Value::I32(5));
    t.current_frame().pc = 0;
    if_icmpeq(&mut t);
}

#[test]
fn test_goto() {
    let code = vec![0x00, 0x05]; // offset 5
    let mut t = make_thread(code);
    t.current_frame().pc = 0;
    goto(&mut t);
    // pc was at 0, read 2 bytes -> pc=2, then offset=5: new_pc = 2 + 5 - 3 = 4
    assert_eq!(t.current_frame().pc, 4);
}

#[test]
fn test_branch_targets() {
    // A branch at position 10 with offset -4 lands at 6.
    let mut code = vec![0u8; 13];
    code[10] = 0xA7;
    code[11] = 0xFF;
    code[12] = 0xFC;
    let mut t = make_thread(code.clone());
    t.current_frame().pc = 11;
    goto(&mut t);
    assert_eq!(t.current_frame().pc, 6);

    code[10] = 0xA1; // if_icmplt
    let mut t = make_thread(code.clone());
    t.current_frame().push(Value::I32(1));
    t.current_frame().push(Value::I32(2));
    t.current_frame().pc = 11;
    if_icmplt(&mut t);
    assert_eq!(t.current_frame().pc, 6);
    assert!(t.current_frame().operand_stack.is_empty());

    let mut t = make_thread(code.clone());
    t.current_frame().push(Value::Null);
    t.current_frame().pc = 11;
    ifnull(&mut t);
    assert_eq!(t.current_frame().pc, 6);

    let mut t = make_thread(code);
    t.current_frame().push(Value::Null);
    t.current_frame().pc = 11;
    ifnonnull(&mut t);
    assert_eq!(t.current_frame().pc, 13);
}

#[test]
fn test_ireturn() {
    let mut t = make_class_thread(vec![]);
    t.current_frame().push(Value::I32(42));
    let result = ireturn(&mut t);
    assert_eq!(result, ExecutionResult::Return(Some(Value::I32(42))));
}

#[test]
fn test_return() {
    let mut t = make_class_thread(vec![]);
    let result = return_void(&mut t);
    assert_eq!(result, ExecutionResult::Return(None));
}

#[test]
fn test_areturn() {
    let mut t = make_class_thread(vec![]);
    t.current_frame().push(Value::Object(2));
    assert_eq!(areturn(&mut t), ExecutionResult::Return(Some(Value::Object(2))));
    assert!(t.current_frame().operand_stack.is_empty());
}

#[test]
fn test_count_args() {
    assert_eq!(count_args("()V"), 0);
    assert_eq!(count_args("(I)V"), 1);
    assert_eq!(count_args("(II)I"), 2);
    assert_eq!(count_args("(Ljava/lang/String;)V"), 1);
    assert_eq!(count_args("(Ljava/lang/String;I)V"), 2);
}

#[test]
fn test_count_args_arrays_and_wide_types() {
    assert_eq!(count_args("([Ljava/lang/String;)V"), 1);
    assert_eq!(count_args("([[IJD)V"), 3);
    assert_eq!(count_args("(ZBCSF)V"), 5);
    assert_eq!(count_args("II"), 2);
    assert_eq!(count_args(""), 0);
    assert_eq!(count_args("(LFoo;"), 1);
}

#[test]
fn test_count_args_ignores_return_type() {
    assert_eq!(count_args("(J[Ljava/lang/Object;Z)Ljava/lang/String;"), 3);
    assert_eq!(count_args("([[Ljava/lang/String;)[I"), 1);
}

#[test]
fn test_new_object() {
    let mut t = make_class_thread(vec![0x00, 0x01]);
    // We need to set up a class with a proper constant pool
    // For simplicity, just test the heap allocation directly
    let idx = t.heap.alloc_object("MyClass".to_string());
    let obj = t.heap.get(idx).unwrap();
    assert_eq!(obj.class_name, "MyClass");
}

#[test]
fn test_newarray_and_iastore_iaload() {
    let mut t = make_class_thread(vec![]);
    // Create int[3]
    t.current_frame().push(Value::I32(3));
    t.current_frame().code = vec![T_INT]; // atype
    t.current_frame().pc = 0;
    newarray(&mut t);

    // Should have array ref on stack
    let arrayref = t.current_frame().pop();
    assert!(matches!(arrayref, Value::Object(_)));

    // Store value 42 at index 1
    t.current_frame().push(arrayref.clone());
    t.current_frame().push(Value::I32(1));
    t.current_frame().push(Value::I32(42));
    iastore(&mut t);

    // Load value back
    t.current_frame().push(arrayref);
    t.current_frame().push(Value::I32(1));
    iaload(&mut t);

    assert_eq!(t.current_frame().pop_i32(), 42);
}

#[test]
fn test_arraylength() {
    let mut t = make_class_thread(vec![]);
    t.current_frame().push(Value::I32(10));
    t.current_frame().code = vec![T_INT];
    t.current_frame().pc = 0;
    newarray(&mut t);

    // Check length
    let arrayref = t.current_frame().pop();
    t.current_frame().push(arrayref);
    arraylength(&mut t);

    assert_eq!(t.current_frame().pop_i32(), 10);
}

#[test]
fn test_reference_and_small_arrays() {
    let mut t = make_class_thread(vec![0x00, 0x01]);
    t.current_frame().push(Value::I32(2));
    anewarray(&mut t);
    let arr = t.current_frame().pop();
    assert_eq!(t.heap.get(arr.as_object()).unwrap().class_name, "[Ljava/lang/Object;");
    t.current_frame().push(arr);
    t.current_frame().push(Value::I32(0));
    t.current_frame().push(Value::Object(7));
    aastore(&mut t);
    t.current_frame().push(arr);
    t.current_frame().push(Value::I32(0));
    aaload(&mut t);
    assert_eq!(t.current_frame().pop(), Value::Object(7));
    t.current_frame().push(arr);
    t.current_frame().push(Value::I32(-1));
    aaload(&mut t);
    assert_eq!(t.current_frame().pop(), Value::Null);
    for (store, load, v) in [
        (bastore as fn(&mut Thread) -> ExecutionResult, baload as fn(&mut Thread) -> ExecutionResult, 1),
        (castore, caload, 65),
        (sastore, saload, -3),
    ] {
        t.current_frame().push(arr);
        t.current_frame().push(Value::I32(1));
        t.current_frame().push(Value::I32(v));
        store(&mut t);
        t.current_frame().push(arr);
        t.current_frame().push(Value::I32(1));
        load(&mut t);
        assert_eq!(t.current_frame().pop_i32(), v);
    }
}

#[test]
fn test_fields_and_statics_by_hand() {
    // A constant pool is needed for the field instructions: build a class.
    let mut t = make_class_thread(vec![]);
    let idx = t.heap.alloc_object("P".to_string());
    t.heap.get_mut(idx).unwrap().put_field("x".to_string(), Value::I32(4));
    assert_eq!(t.heap.get(idx).unwrap().get_field("x"), Some(Value::I32(4)));
    t.heap.set_static_field("P.count".to_string(), Value::I32(2));
    assert_eq!(t.heap.get_static_field("P.count"), Value::I32(2));
}

/// A class `Test` whose constant pool has: #1 Class Test, #2 Utf8 "Test",
/// #3 Fieldref Test.x:I, #4 NameAndType x:I, #5 Utf8 "x", #6 Utf8 "I",
/// #7 Integer 1234, #8 String "hi", #9 Utf8 "hi".
fn field_class_bytes() -> Vec<u8> {
    vec![
        0xCA, 0xFE, 0xBA, 0xBE, 0x00, 0x00, 0x00, 0x34,
        0x00, 0x0A,
        0x07, 0x00, 0x02,
        0x01, 0x00, 0x04, b'T', b'e', b's', b't',
        0x09, 0x00, 0x01, 0x00, 0x04,
        0x0C, 0x00, 0x05, 0x00, 0x06,
        0x01, 0x00, 0x01, b'x',
        0x01, 0x00, 0x01, b'I',
        0x03, 0x00, 0x00, 0x04, 0xD2,
        0x08, 0x00, 0x09,
        0x01, 0x00, 0x02, b'h', b'i',
        0x00, 0x21, 0x00, 0x01, 0x00, 0x00,
        0x00, 0x00, 0x00, 0x00, 0x00, 0x00, 0x00, 0x00,
    ]
}

fn field_thread(code: Vec<u8>) -> Thread {
    let mut loader = ClassLoader::new();
    loader.load_class_from_bytes("Test", &field_class_bytes()).unwrap();
    let mut thread = Thread::new(loader);
    let mut frame = Frame::new(2, code);
    frame.class_name = "Test".to_string();
    thread.push_frame(frame);
    thread
}

#[test]
fn test_field_instructions() {
    let mut t = field_thread(vec![0x00, 0x01, 0x00, 0x03, 0x00, 0x03, 0x00, 0x03, 0x00, 0x03, 0x07, 0x08]);
    new_op(&mut t);
    let obj = t.current_frame().pop();
    assert_eq!(t.heap.get(obj.as_object()).unwrap().class_name, "Test");
    t.current_frame().push(obj);
    t.current_frame().push(Value::I32(11));
    putfield(&mut t);
    t.current_frame().push(obj);
    getfield(&mut t);
    assert_eq!(t.current_frame().pop(), Value::I32(11));
    t.current_frame().push(Value::I32(5));
    putstatic(&mut t);
    assert_eq!(t.heap.get_static_field("Test.x"), Value::I32(5));
    getstatic(&mut t);
    assert_eq!(t.current_frame().pop(), Value::I32(5));
    ldc(&mut t);
    assert_eq!(t.current_frame().pop(), Value::I32(1234));
    ldc(&mut t);
    let s = t.current_frame().pop();
    assert_eq!(t.heap.get_string(s.as_object()), Some("hi"));
}

#[test]
fn test_dispatch_and_checks() {
    let mut t = make_thread(vec![]);
    assert!(can_execute(&t, 0x04));
    assert_eq!(execute_instruction(&mut t, 0x04), ExecutionResult::Continue);
    assert_eq!(execute_instruction(&mut t, 0x59), ExecutionResult::Continue);
    assert!(can_execute(&t, 0x60));
    assert_eq!(execute_instruction(&mut t, 0x60), ExecutionResult::Continue);
    assert_eq!(t.current_frame().operand_stack, vec![Value::I32(2)]);
    // Unknown opcode, missing operand bytes, a stack underflow, a division by zero.
    assert!(!can_execute(&t, 0xFE));
    assert!(!can_execute(&t, 0x10));
    assert!(!can_execute(&t, 0x60));
    t.current_frame().push(Value::I32(0));
    assert!(!can_execute(&t, 0x6C));
    assert!(can_execute(&t, 0x60));
    // A static call needs the class of the frame to be loaded.
    t.current_frame().code = vec![0x00, 0x01];
    assert!(!can_execute(&t, 0xB8));
    assert_eq!(execute_instruction(&mut t, 0xAC), ExecutionResult::Return(Some(Value::I32(0))));
}
