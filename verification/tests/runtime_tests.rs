use mini_jvm::runtime::frame::{Frame, Value};
use mini_jvm::runtime::gc::gc;
use mini_jvm::runtime::heap::Heap;
use mini_jvm::runtime::thread::Thread;
use mini_jvm::runtime::ClassLoader;

fn hello_class_bytes() -> Vec<u8> {
    vec![
        0xCA, 0xFE, 0xBA, 0xBE, 0x00, 0x00, 0x00, 0x34,
        0x00, 0x0D,
        0x0A, 0x00, 0x03, 0x00, 0x0A,
        0x07, 0x00, 0x04,
        0x07, 0x00, 0x05,
        0x01, 0x00, 0x05, b'H', b'e', b'l', b'l', b'o',
        0x01, 0x00, 0x10,
        b'j', b'a', b'v', b'a', b'/', b'l', b'a', b'n', b'g', b'/', b'O', b'b', b'j', b'e', b'c', b't',
        0x01, 0x00, 0x06, b'<', b'i', b'n', b'i', b't', b'>',
        0x01, 0x00, 0x03, b'(', b')', b'V',
        0x01, 0x00, 0x04, b'C', b'o', b'd', b'e',
        0x01, 0x00, 0x0F,
        b'L', b'i', b'n', b'e', b'N', b'u', b'm', b'b', b'e', b'r', b'T', b'a', b'b', b'l', b'e',
        0x0C, 0x00, 0x06, 0x00, 0x07,
        0x01, 0x00, 0x0A,
        b'S', b'o', b'u', b'r', b'c', b'e', b'F', b'i', b'l', b'e',
        0x01, 0x00, 0x0A,
        b'H', b'e', b'l', b'l', b'o', b'.', b'j', b'a', b'v', b'a',
        0x00, 0x21, 0x00, 0x02, 0x00, 0x03,
        0x00, 0x00, 0x00, 0x00,
        0x00, 0x01,
        0x00, 0x01, 0x00, 0x06, 0x00, 0x07, 0x00, 0x01,
        0x00, 0x08,
        0x00, 0x00, 0x00, 0x1D,
        0x00, 0x01, 0x00, 0x01,
        0x00, 0x00, 0x00, 0x05,
        0x2A, 0xB7, 0x00, 0x01, 0xB1,
        0x00, 0x00,
        0x00, 0x01,
        0x00, 0x09,
        0x00, 0x00, 0x00, 0x06,
        0x00, 0x01, 0x00, 0x00, 0x00, 0x01,
        0x00, 0x01,
        0x00, 0x0B,
        0x00, 0x00, 0x00, 0x02,
        0x00, 0x0C,
    ]
}

#[test]
fn test_load_class_from_bytes() {
    let mut loader = ClassLoader::new();
    let bytes = hello_class_bytes();
    loader.load_class_from_bytes("Hello", &bytes).unwrap();
    assert!(loader.get_class("Hello").is_some());
}

#[test]
fn test_load_class_from_bytes_error() {
    let mut loader = ClassLoader::new();
    let err = loader.load_class_from_bytes("Bad", &[0xDE, 0xAD, 0xBE, 0xEF]).unwrap_err();
    assert_eq!(err, "Failed to parse class: Invalid magic number: 0xDEADBEEF, expected 0xCAFEBABE");
    assert!(loader.get_class("Bad").is_none());
}

#[test]
fn test_class_loader_resolution() {
    let mut loader = ClassLoader::new();
    loader.load_class_from_bytes("Hello", &hello_class_bytes()).unwrap();
    let class = loader.get_class("Hello").unwrap();
    assert_eq!(loader.resolve_class_name(class, 2), Some("Hello".to_string()));
    assert_eq!(loader.resolve_class_name(class, 4), None);
    assert_eq!(
        loader.resolve_method_ref(class, 1),
        Some(("java/lang/Object".to_string(), "<init>".to_string(), "()V".to_string()))
    );
    assert_eq!(loader.resolve_method_ref(class, 2), None);
    let method = loader.find_method(class, "<init>", "()V").unwrap();
    assert_eq!(method.name_index, 6);
    assert!(loader.find_method(class, "<init>", "(I)V").is_none());
    let (max_stack, max_locals, code) = ClassLoader::get_method_code(method, class).unwrap();
    assert_eq!((max_stack, max_locals), (1, 1));
    assert_eq!(code, vec![0x2A, 0xB7, 0x00, 0x01, 0xB1]);
}

#[test]
fn test_class_file_paths_and_messages() {
    let loader = ClassLoader::with_classpath(vec!["lib".to_string(), "out/classes".to_string()]);
    assert_eq!(
        loader.class_file_paths("demo/Main"),
        vec!["lib/demo/Main.class".to_string(), "out/classes/demo/Main.class".to_string()]
    );
    assert_eq!(ClassLoader::new().class_file_paths("A"), vec!["./A.class".to_string()]);
    assert_eq!(ClassLoader::class_not_found("A"), "Class not found: A");
    let mut loader = ClassLoader::new();
    let err = loader.load_class_from_file("A", "./A.class", &[0xCA, 0xFE]).unwrap_err();
    assert_eq!(err, "Failed to parse ./A.class: Unexpected end of file");
    assert!(loader.load_class_from_file("Hello", "./Hello.class", &hello_class_bytes()).is_ok());
    assert!(loader.get_class("Hello").is_some());
}

#[test]
fn test_frame_new() {
    let frame = Frame::new(4, vec![0x10, 0x05]);
    assert_eq!(frame.locals.len(), 4);
    assert!(frame.operand_stack.is_empty());
    assert_eq!(frame.code, vec![0x10, 0x05]);
}

#[test]
fn test_frame_with_args() {
    let args = vec![Value::I32(42), Value::I32(10)];
    let frame = Frame::with_args(4, vec![], args);
    assert_eq!(frame.locals[0], Value::I32(42));
    assert_eq!(frame.locals[1], Value::I32(10));
    assert_eq!(frame.locals[2], Value::I32(0)); // default
}

#[test]
fn test_frame_with_more_args_than_locals() {
    let frame = Frame::with_args(1, vec![], vec![Value::I32(1), Value::I32(2)]);
    assert_eq!(frame.locals, vec![Value::I32(1)]);
}

#[test]
fn test_operand_stack() {
    let mut frame = Frame::new(1, vec![]);
    frame.push(Value::I32(1));
    frame.push(Value::I32(2));
    assert_eq!(frame.pop_i32(), 2);
    assert_eq!(frame.pop_i32(), 1);
}

#[test]
fn test_read_u1() {
    let mut frame = Frame::new(1, vec![0xCA, 0xFE]);
    assert_eq!(frame.read_u1(), 0xCA);
    assert_eq!(frame.read_u1(), 0xFE);
}

#[test]
fn test_read_i16() {
    let mut frame = Frame::new(1, vec![0xFF, 0xFE]); // -2
    assert_eq!(frame.read_i16(), -2);
}

#[test]
fn test_frame_reads() {
    let mut frame = Frame::new(0, vec![0xFF, 0x12, 0x34, 0xFF, 0xFF, 0xFF, 0xFE]);
    assert_eq!(frame.read_i8(), -1);
    assert_eq!(frame.read_u2(), 0x1234);
    assert_eq!(frame.read_i32(), -2);
    assert_eq!(frame.pc, 7);
}

#[test]
fn test_value_accessors() {
    assert_eq!(Value::I64(-5).as_i64(), -5);
    assert_eq!(Value::F32(1.5f32.to_bits()).as_f32(), 1.5f32.to_bits());
    assert_eq!(Value::F64(2.25f64.to_bits()).as_f64(), 2.25f64.to_bits());
    assert_eq!(Value::Object(3).as_object(), 3);
    let mut frame = Frame::new(0, vec![]);
    frame.push(Value::I64(7));
    frame.push(Value::F32(0.5f32.to_bits()));
    frame.push(Value::F64(0.25f64.to_bits()));
    assert_eq!(f64::from_bits(frame.pop_f64()), 0.25);
    assert_eq!(f32::from_bits(frame.pop_f32()), 0.5);
    assert_eq!(frame.pop_i64(), 7);
}

fn make_frame(locals: Vec<Value>, stack: Vec<Value>) -> Frame {
    let mut frame = Frame::new(locals.len().max(1), vec![]);
    frame.locals = locals;
    frame.operand_stack = stack;
    frame
}

#[test]
fn test_gc_no_roots() {
    let mut heap = Heap::new();
    heap.alloc_object("A".to_string());
    heap.alloc_object("B".to_string());
    // No frames → nothing is reachable → both freed
    let (freed, remaining) = gc(&[], &mut heap);
    assert_eq!(freed, 2);
    assert_eq!(remaining, 0);
}

#[test]
fn test_gc_root_in_local() {
    let mut heap = Heap::new();
    let idx0 = heap.alloc_object("A".to_string());
    let _idx1 = heap.alloc_object("B".to_string()); // unreachable

    let frame = make_frame(vec![Value::Object(idx0)], vec![]);
    let (freed, remaining) = gc(&[frame], &mut heap);

    assert_eq!(freed, 1); // B freed
    assert_eq!(remaining, 1); // A alive
    assert!(heap.get(idx0).is_some());
}

#[test]
fn test_gc_root_in_stack() {
    let mut heap = Heap::new();
    let idx = heap.alloc_object("A".to_string());
    heap.alloc_object("B".to_string()); // unreachable

    let frame = make_frame(vec![Value::I32(0)], vec![Value::Object(idx)]);
    let (freed, remaining) = gc(&[frame], &mut heap);

    assert_eq!(freed, 1);
    assert_eq!(remaining, 1);
}

#[test]
fn test_gc_field_tracing() {
    let mut heap = Heap::new();
    let inner = heap.alloc_object("Inner".to_string());
    let outer = heap.alloc_object("Outer".to_string());
    heap.get_mut(outer).unwrap().put_field("ref".to_string(), Value::Object(inner));
    heap.alloc_object("Garbage".to_string()); // unreachable

    // Only outer is a root, but inner should be kept via field reference
    let frame = make_frame(vec![Value::Object(outer)], vec![]);
    let (freed, remaining) = gc(&[frame], &mut heap);

    assert_eq!(freed, 1); // Garbage
    assert_eq!(remaining, 2); // Outer + Inner
}

#[test]
fn test_gc_array_tracing() {
    let mut heap = Heap::new();
    let ref1 = heap.alloc_object("A".to_string());
    let ref2 = heap.alloc_object("B".to_string());
    let arr = heap.alloc_array("[Ljava/lang/Object;".to_string(), 2);
    heap.set_array_ref(arr, 0, Value::Object(ref1));
    heap.set_array_ref(arr, 1, Value::Object(ref2));
    heap.alloc_object("Garbage".to_string()); // unreachable

    let frame = make_frame(vec![Value::Object(arr)], vec![]);
    let (freed, remaining) = gc(&[frame], &mut heap);

    assert_eq!(freed, 1); // Garbage
    assert_eq!(remaining, 3); // arr + A + B
}

#[test]
fn test_gc_static_fields() {
    let mut heap = Heap::new();
    let idx = heap.alloc_object("Global".to_string());
    heap.set_static_field("App.instance".to_string(), Value::Object(idx));
    heap.alloc_object("Garbage".to_string());

    let (freed, remaining) = gc(&[], &mut heap);

    assert_eq!(freed, 1); // Garbage
    assert_eq!(remaining, 1); // Global kept by static field
}

#[test]
fn test_gc_circular_reference() {
    let mut heap = Heap::new();
    let a = heap.alloc_object("A".to_string());
    let b = heap.alloc_object("B".to_string());
    // A.ref → B, B.ref → A (circular)
    heap.get_mut(a).unwrap().put_field("ref".to_string(), Value::Object(b));
    heap.get_mut(b).unwrap().put_field("ref".to_string(), Value::Object(a));

    // Both unreachable → both freed
    let (freed, remaining) = gc(&[], &mut heap);
    assert_eq!(freed, 2);
    assert_eq!(remaining, 0);
}

#[test]
fn test_gc_circular_with_root() {
    let mut heap = Heap::new();
    let a = heap.alloc_object("A".to_string());
    let b = heap.alloc_object("B".to_string());
    let _c = heap.alloc_object("C".to_string()); // unreachable
    heap.get_mut(a).unwrap().put_field("ref".to_string(), Value::Object(b));
    heap.get_mut(b).unwrap().put_field("ref".to_string(), Value::Object(a));

    let frame = make_frame(vec![Value::Object(a)], vec![]);
    let (freed, remaining) = gc(&[frame], &mut heap);

    assert_eq!(freed, 1); // C
    assert_eq!(remaining, 2); // A + B (circular but reachable)
}

#[test]
fn test_gc_string_object() {
    let mut heap = Heap::new();
    let s = heap.alloc_string("hello".to_string());
    heap.alloc_object("Garbage".to_string());

    let frame = make_frame(vec![Value::Object(s)], vec![]);
    let (freed, remaining) = gc(&[frame], &mut heap);

    assert_eq!(freed, 1);
    assert_eq!(remaining, 1);
    assert_eq!(heap.get_string(s), Some("hello"));
}

#[test]
fn test_gc_keeps_null_slots() {
    let mut heap = Heap::new();
    // Free a slot, then GC — freed slot should stay free
    let idx = heap.alloc_object("A".to_string());
    heap.free(idx);
    heap.alloc_object("B".to_string());

    let (freed, remaining) = gc(&[], &mut heap);
    assert_eq!(freed, 1); // B is unreachable
    assert_eq!(remaining, 0);
}

#[test]
fn test_gc_multiple_frames() {
    let mut heap = Heap::new();
    let a = heap.alloc_object("A".to_string());
    let b = heap.alloc_object("B".to_string());
    let _c = heap.alloc_object("C".to_string()); // unreachable

    let frame1 = make_frame(vec![Value::Object(a)], vec![]);
    let frame2 = make_frame(vec![Value::Object(b)], vec![]);
    let (freed, remaining) = gc(&[frame1, frame2], &mut heap);

    assert_eq!(freed, 1); // C
    assert_eq!(remaining, 2); // A + B
}

#[test]
fn test_gc_frees_exactly_the_unreachable() {
    let mut heap = Heap::new();
    let a = heap.alloc_object("A".to_string());
    let b = heap.alloc_object("B".to_string());
    let c = heap.alloc_object("C".to_string());
    let d = heap.alloc_object("D".to_string());
    heap.get_mut(a).unwrap().put_field("next".to_string(), Value::Object(b));
    heap.get_mut(c).unwrap().put_field("next".to_string(), Value::Object(d));
    let frame = make_frame(vec![Value::Object(a)], vec![]);
    assert_eq!(gc(&[frame], &mut heap), (2, 2));
    assert!(heap.get(a).is_some() && heap.get(b).is_some());
    assert!(heap.get(c).is_none() && heap.get(d).is_none());
    assert_eq!(heap.live_count(), 2);
}

#[test]
fn test_heap_alloc_and_get() {
    let mut heap = Heap::new();
    let idx = heap.alloc_object("java/lang/Object".to_string());
    let obj = heap.get(idx).unwrap();
    assert_eq!(obj.class_name, "java/lang/Object");
}

#[test]
fn test_heap_fields() {
    let mut heap = Heap::new();
    let idx = heap.alloc_object("MyClass".to_string());
    heap.get_mut(idx).unwrap().put_field("x".to_string(), Value::I32(42));
    assert_eq!(heap.get(idx).unwrap().get_field("x").unwrap().as_i32(), 42);
}

#[test]
fn test_heap_free_and_reuse() {
    let mut heap = Heap::new();
    let idx1 = heap.alloc_object("A".to_string());
    let _idx2 = heap.alloc_object("B".to_string());
    heap.free(idx1);
    let idx3 = heap.alloc_object("C".to_string());
    assert_eq!(idx3, idx1); // reused slot
    assert_eq!(heap.get(idx3).unwrap().class_name, "C");
}

#[test]
fn test_heap_field_overwrite_and_missing_object() {
    let mut heap = Heap::new();
    let idx = heap.alloc_object("P".to_string());
    heap.get_mut(idx).unwrap().put_field("x".to_string(), Value::I32(1));
    heap.get_mut(idx).unwrap().put_field("y".to_string(), Value::I32(2));
    heap.get_mut(idx).unwrap().put_field("x".to_string(), Value::I32(3));
    let obj = heap.get(idx).unwrap();
    assert_eq!(obj.get_field("x"), Some(Value::I32(3)));
    assert_eq!(obj.get_field("y"), Some(Value::I32(2)));
    assert_eq!(obj.get_field("z"), None);
    assert!(heap.get_mut(99).is_none());
    heap.free(idx);
    assert!(heap.get(idx).is_none());
    assert!(heap.get_mut(idx).is_none());
}

#[test]
fn test_heap_arrays_and_statics() {
    let mut heap = Heap::new();
    let arr = heap.alloc_array("[I".to_string(), 3);
    assert_eq!(heap.get_array_length(arr), 3);
    heap.set_array_int(arr, 2, 7);
    assert_eq!(heap.get_array_int(arr, 2), 7);
    assert_eq!(heap.get_array_int(arr, 0), 0);
    heap.set_array_int(arr, 3, 9); // out of range: ignored
    assert_eq!(heap.get_array_int(arr, 3), 0);
    assert_eq!(heap.get_array_ref(arr, 1), Value::Null);
    assert_eq!(heap.get_array_length(arr + 1), 0);
    assert_eq!(heap.get(arr).unwrap().get_field("$length"), Some(Value::I32(3)));
    assert_eq!(heap.get_static_field("A.x"), Value::I32(0));
    heap.set_static_field("A.x".to_string(), Value::I64(5));
    assert_eq!(heap.get_static_field("A.x"), Value::I64(5));
    assert_eq!(heap.get_string(arr), None);
    assert_eq!(heap.live_count(), 1);
}

#[test]
fn test_thread_new() {
    let thread = Thread::new(ClassLoader::new());
    assert!(thread.stack.is_empty());
}

#[test]
fn test_thread_frames_and_roots() {
    let mut thread = Thread::new(ClassLoader::new());
    assert!(thread.pop_frame().is_none());
    thread.push_frame(Frame::new(1, vec![0x00]));
    thread.current_frame().push(Value::I32(3));
    let frame = thread.pop_frame().unwrap();
    assert_eq!(frame.operand_stack, vec![Value::I32(3)]);
    assert!(thread.stack.is_empty());
    thread.jit_root_push(4);
    thread.jit_root_push(9);
    assert_eq!(thread.jit_roots(), &[4, 9]);
    assert_eq!(thread.jit_root_pop(), Some(9));
    assert_eq!(thread.jit_root_pop(), Some(4));
    assert_eq!(thread.jit_root_pop(), None);
}

#[test]
fn test_gc_twice_frees_nothing() {
    let mut heap = Heap::new();
    let a = heap.alloc_object("A".to_string());
    let b = heap.alloc_object("B".to_string());
    heap.alloc_object("C".to_string());
    heap.get_mut(a).unwrap().put_field("next".to_string(), Value::Object(b));
    let frame = make_frame(vec![Value::Object(a)], vec![]);
    let first = gc(std::slice::from_ref(&frame), &mut heap);
    assert_eq!(first, (1, 2));
    let second = gc(std::slice::from_ref(&frame), &mut heap);
    assert_eq!(second, (0, 2));
    assert_eq!(heap.get(a).unwrap().get_field("next"), Some(Value::Object(b)));
}

#[test]
fn test_alloc_takes_free_slots_only() {
    let mut heap = Heap::new();
    let a = heap.alloc_object("A".to_string());
    let b = heap.alloc_object("B".to_string());
    let c = heap.alloc_array("[I".to_string(), 1);
    heap.free(a);
    heap.free(c);
    let d = heap.alloc_string("s".to_string());
    let e = heap.alloc_object("E".to_string());
    assert_eq!((d, e), (c, a));
    assert_eq!(heap.get(b).unwrap().class_name, "B");
    let f = heap.alloc_object("F".to_string());
    assert_eq!(f, 3);
    assert_eq!(heap.live_count(), 4);
}
