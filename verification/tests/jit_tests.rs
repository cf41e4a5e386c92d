use mini_jvm::jit::{lower_method, method_key, unsupported_message, BinOp, InvocationCounts, IrOp, Lowering};

#[test]
fn test_lower_add_of_locals() {
    // iload_0, iload_1, iadd, ireturn
    let ops = lower_method(2, &[0x1A, 0x1B, 0x60, 0xAC]);
    assert_eq!(
        ops,
        Lowering::Ops(vec![
            IrOp::Const { var: 0, value: 0 },
            IrOp::Const { var: 1, value: 0 },
            IrOp::Copy { dst: 2, src: 0 },
            IrOp::Copy { dst: 3, src: 1 },
            IrOp::Binary { op: BinOp::Add, dst: 2, a: 2, b: 3 },
            IrOp::Return { var: 2 },
        ])
    );
}

#[test]
fn test_lower_constants() {
    // bipush 42, ireturn
    assert_eq!(
        lower_method(1, &[0x10, 0x2A, 0xAC]),
        Lowering::Ops(vec![
            IrOp::Const { var: 0, value: 0 },
            IrOp::Const { var: 1, value: 42 },
            IrOp::Return { var: 1 },
        ])
    );
    // iconst_m1, sipush -2, imul, ineg, istore_0, return
    assert_eq!(
        lower_method(1, &[0x02, 0x11, 0xFF, 0xFE, 0x68, 0x74, 0x3B, 0xB1]),
        Lowering::Ops(vec![
            IrOp::Const { var: 0, value: 0 },
            IrOp::Const { var: 1, value: -1 },
            IrOp::Const { var: 2, value: -2 },
            IrOp::Binary { op: BinOp::Mul, dst: 1, a: 1, b: 2 },
            IrOp::Neg { dst: 1, src: 1 },
            IrOp::Copy { dst: 0, src: 1 },
            IrOp::ReturnZero,
        ])
    );
}

#[test]
fn test_lower_adds_closing_return() {
    // iconst_3, istore 1 (no return at the end)
    assert_eq!(
        lower_method(2, &[0x06, 0x36, 0x01]),
        Lowering::Ops(vec![
            IrOp::Const { var: 0, value: 0 },
            IrOp::Const { var: 1, value: 0 },
            IrOp::Const { var: 2, value: 3 },
            IrOp::Copy { dst: 1, src: 2 },
            IrOp::ReturnZero,
        ])
    );
    assert_eq!(lower_method(0, &[]), Lowering::Ops(vec![]));
}

#[test]
fn test_lower_unsupported_and_malformed() {
    assert_eq!(lower_method(0, &[0x03, 0x99, 0x00, 0x03]), Lowering::Unsupported { opcode: 0x99, pc: 1 });
    // istore_0 on an empty stack
    assert_eq!(lower_method(1, &[0x3B]), Lowering::Malformed { pc: 0 });
    // bipush without its operand
    assert_eq!(lower_method(0, &[0x03, 0x10]), Lowering::Malformed { pc: 1 });
    // more than twenty values on the stack
    assert_eq!(lower_method(0, &[0x03; 21]), Lowering::Malformed { pc: 20 });
    // iload of a variable past the stack slots
    assert_eq!(lower_method(0, &[0x15, 20]), Lowering::Malformed { pc: 0 });
}

#[test]
fn test_method_key_and_message() {
    let key = method_key("Test", "mul", "()I");
    assert_eq!(key, "Test.mul()I");
    assert_eq!(unsupported_message(0x99, 1, &key), "Unsupported opcode 0x99 at pc=1 in Test.mul()I");
    assert_eq!(unsupported_message(0x0A, 120, "K"), "Unsupported opcode 0x0A at pc=120 in K");
}

#[test]
fn test_invocation_counts() {
    let mut counts = InvocationCounts::new(3);
    assert!(!counts.record_invocation("A.f()I", false));
    assert!(!counts.record_invocation("A.f()I", false));
    assert!(!counts.record_invocation("B.g()I", false));
    assert!(counts.record_invocation("A.f()I", false));
    assert_eq!(counts.count_for("A.f()I"), 3);
    assert_eq!(counts.count_for("B.g()I"), 1);
    assert!(!counts.record_invocation("A.f()I", true));
    assert_eq!(counts.count_for("A.f()I"), 3);
    assert!(counts.record_invocation("A.f()I", false));
    assert_eq!(counts.count_for("C.h()V"), 0);
}

#[test]
fn test_lower_arithmetic() {
    // bipush 6, bipush 7, imul, ireturn
    assert_eq!(
        lower_method(1, &[0x10, 0x06, 0x10, 0x07, 0x68, 0xAC]),
        Lowering::Ops(vec![
            IrOp::Const { var: 0, value: 0 },
            IrOp::Const { var: 1, value: 6 },
            IrOp::Const { var: 2, value: 7 },
            IrOp::Binary { op: BinOp::Mul, dst: 1, a: 1, b: 2 },
            IrOp::Return { var: 1 },
        ])
    );
}
