//! The lowering step of the baseline compiler: straight-line bytecode
//! that works on ints becomes a list of operations on numbered 64-bit
//! variables, which a code generator turns into machine code. Locals take
//! the first variables and the operand stack the `STACK_SLOTS` after them.
//! This module also keeps the invocation counts that decide when a method
//! is compiled.
use vstd::prelude::*;
use crate::instructions::math::{trunc_div, trunc_rem};
use crate::runtime::frame::code_u2;
use crate::text::{dec_digits, dec_usize, hex2, hex_digits};

verus! {

/// The number of variables that hold the operand stack.
pub const STACK_SLOTS: usize = 20;

/// An arithmetic operation on two variables.
#[derive(Debug, Clone, Copy, PartialEq, Eq, Structural)]
pub enum BinOp {
    Add,
    Sub,
    Mul,
    /// Signed division.
    Div,
    /// Signed remainder.
    Rem,
}

/// An operation of a compiled method.
#[derive(Debug, Clone, Copy, PartialEq, Eq, Structural)]
pub enum IrOp {
    /// `var := value`.
    Const { var: usize, value: i64 },
    /// `dst := src`.
    Copy { dst: usize, src: usize },
    /// `dst := a op b`.
    Binary { op: BinOp, dst: usize, a: usize, b: usize },
    /// `dst := 0 - src`.
    Neg { dst: usize, src: usize },
    /// Returns the variable.
    Return { var: usize },
    /// Returns 0.
    ReturnZero,
}

/// The outcome of lowering a method's bytecode.
#[derive(Debug, PartialEq)]
pub enum Lowering {
    /// The operations, in order.
    Ops(Vec<IrOp>),
    /// The opcode at `pc` cannot be lowered: the method stays interpreted.
    Unsupported { opcode: u8, pc: usize },
    /// The bytecode at `pc` cannot be lowered: an operand is missing, the
    /// operand stack underflows or overflows its slots, or a local is out of
    /// range.
    Malformed { pc: usize },
}

/// The mathematical view of a `Lowering`.
pub enum LoweringV {
    Ops(Seq<IrOp>),
    Unsupported(u8, nat),
    Malformed(nat),
}

impl View for Lowering {
    type V = LoweringV;

    open spec fn view(&self) -> LoweringV {
        match self {
            Lowering::Ops(ops) => LoweringV::Ops(ops@),
            Lowering::Unsupported { opcode, pc } => LoweringV::Unsupported(*opcode, *pc as nat),
            Lowering::Malformed { pc } => LoweringV::Malformed(*pc as nat),
        }
    }
}

/// `op` before the operations of `rest`, where `rest` was lowered.
pub open spec fn prepend(op: IrOp, rest: LoweringV) -> LoweringV {
    match rest {
        LoweringV::Ops(s) => LoweringV::Ops(seq![op] + s),
        other => other,
    }
}

/// The arithmetic operation of an opcode, if it has one.
pub open spec fn binop_of(op: u8) -> Option<BinOp> {
    if op == 0x60 {
        Some(BinOp::Add)
    } else if op == 0x64 {
        Some(BinOp::Sub)
    } else if op == 0x68 {
        Some(BinOp::Mul)
    } else if op == 0x6C {
        Some(BinOp::Div)
    } else if op == 0x70 {
        Some(BinOp::Rem)
    } else {
        None
    }
}

/// The constant that the push instruction `op` at `pc` pushes, and the
/// number of operand bytes it has; `None` for other opcodes.
pub open spec fn pushed_constant(code: Seq<u8>, pc: int, op: u8) -> Option<(i64, nat)> {
    if op == 0x02 {
        Some((-1i64, 0nat))
    } else if 0x03 <= op <= 0x08 {
        Some(((op - 3) as i64, 0nat))
    } else if op == 0x10 {
        Some((code[pc + 1int] as i8 as i64, 1nat))
    } else if op == 0x11 {
        Some((code_u2(code, pc + 1) as i16 as i64, 2nat))
    } else {
        None
    }
}

/// The lowering of the bytecode from `pc` on, with `depth` values on
/// the operand stack, for a method with `max_locals` locals. It stops after
/// the first return.
pub open spec fn lower_body(code: Seq<u8>, max_locals: nat, pc: nat, depth: nat) -> LoweringV
    decreases code.len() - pc,
{
    if pc >= code.len() {
        LoweringV::Ops(Seq::empty())
    } else {
        let op = code[pc as int];
        let top = (max_locals + depth) as usize;
        let slots = max_locals + STACK_SLOTS;
        if let Some((value, width)) = pushed_constant(code, pc as int, op) {
            if pc + width >= code.len() || depth >= STACK_SLOTS {
                LoweringV::Malformed(pc)
            } else {
                prepend(IrOp::Const { var: top, value }, lower_body(code, max_locals, pc + 1 + width, depth + 1))
            }
        } else if 0x1A <= op <= 0x1D || op == 0x15 {
            let index = if op == 0x15 {
                if pc + 1 < code.len() {
                    code[pc + 1int] as nat
                } else {
                    0
                }
            } else {
                (op - 0x1A) as nat
            };
            let width: nat = if op == 0x15 {
                1
            } else {
                0
            };
            if pc + width >= code.len() || index >= slots || depth >= STACK_SLOTS {
                LoweringV::Malformed(pc)
            } else {
                prepend(
                    IrOp::Copy { dst: top, src: index as usize },
                    lower_body(code, max_locals, pc + 1 + width, depth + 1),
                )
            }
        } else if 0x3B <= op <= 0x3E || op == 0x36 {
            let index = if op == 0x36 {
                if pc + 1 < code.len() {
                    code[pc + 1int] as nat
                } else {
                    0
                }
            } else {
                (op - 0x3B) as nat
            };
            let width: nat = if op == 0x36 {
                1
            } else {
                0
            };
            if depth == 0 || pc + width >= code.len() || index >= slots {
                LoweringV::Malformed(pc)
            } else {
                prepend(
                    IrOp::Copy { dst: index as usize, src: (top - 1) as usize },
                    lower_body(code, max_locals, pc + 1 + width, (depth - 1) as nat),
                )
            }
        } else if let Some(bin) = binop_of(op) {
            if depth < 2 {
                LoweringV::Malformed(pc)
            } else {
                prepend(
                    IrOp::Binary { op: bin, dst: (top - 2) as usize, a: (top - 2) as usize, b: (top - 1) as usize },
                    lower_body(code, max_locals, pc + 1, (depth - 1) as nat),
                )
            }
        } else if op == 0x74 {
            if depth == 0 {
                LoweringV::Malformed(pc)
            } else {
                prepend(
                    IrOp::Neg { dst: (top - 1) as usize, src: (top - 1) as usize },
                    lower_body(code, max_locals, pc + 1, depth),
                )
            }
        } else if op == 0xAC {
            if depth == 0 {
                LoweringV::Malformed(pc)
            } else {
                LoweringV::Ops(seq![IrOp::Return { var: (top - 1) as usize }])
            }
        } else if op == 0xB1 {
            LoweringV::Ops(seq![IrOp::ReturnZero])
        } else {
            LoweringV::Unsupported(op, pc)
        }
    }
}

/// The locals start as 0.
pub open spec fn zeroed_locals(max_locals: nat) -> Seq<IrOp> {
    Seq::new(max_locals, |i: int| IrOp::Const { var: i as usize, value: 0 })
}

/// A final return of 0 where the last code byte is not a return opcode
/// (that byte may be an operand: only its value is tested).
pub open spec fn closing_return(code: Seq<u8>) -> Seq<IrOp> {
    if code.len() > 0 && code.last() != 0xAC && code.last() != 0xB1 {
        seq![IrOp::ReturnZero]
    } else {
        Seq::empty()
    }
}

/// The lowering of a method: its locals set to 0, the lowered bytecode,
/// and a closing return.
pub open spec fn lower_method_spec(max_locals: nat, code: Seq<u8>) -> LoweringV {
    match lower_body(code, max_locals, 0, 0) {
        LoweringV::Ops(body) => LoweringV::Ops(zeroed_locals(max_locals) + body + closing_return(code)),
        other => other,
    }
}

/// The ops `done` followed by the lowering `rest` and the closing return.
pub open spec fn after(done: Seq<IrOp>, rest: LoweringV, code: Seq<u8>) -> LoweringV {
    match rest {
        LoweringV::Ops(s) => LoweringV::Ops(done + s + closing_return(code)),
        other => other,
    }
}

/// Lowers a method's bytecode (see `lower_method_spec`).
pub fn lower_method(max_locals: usize, code: &[u8]) -> (r: Lowering)
    requires
        max_locals + STACK_SLOTS <= usize::MAX,
    ensures
        r@ == lower_method_spec(max_locals as nat, code@),
{
    let mut ops: Vec<IrOp> = Vec::new();
    let mut i: usize = 0;
    while i < max_locals
        invariant
            i <= max_locals,
            ops@ == zeroed_locals(i as nat),
        decreases max_locals - i,
    {
        ops.push(IrOp::Const { var: i, value: 0 });
        i = i + 1;
        proof {
            assert(ops@ =~= zeroed_locals(i as nat));
        }
    }
    let slots = max_locals + STACK_SLOTS;
    let len = code.len();
    let mut pc: usize = 0;
    let mut depth: usize = 0;
    while pc < len
        invariant
            len == code@.len(),
            slots == max_locals + STACK_SLOTS,
            depth <= STACK_SLOTS,
            lower_method_spec(max_locals as nat, code@) == after(ops@, lower_body(code@, max_locals as nat, pc as nat, depth as nat), code@),
        decreases len - pc,
    {
        let op = code[pc];
        let top = max_locals + depth;
        let ghost before = ops@;
        if op == 0x02 || 0x03 <= op && op <= 0x08 || op == 0x10 || op == 0x11 {
            let width: usize = if op == 0x10 {
                1
            } else if op == 0x11 {
                2
            } else {
                0
            };
            if width >= len - pc || depth >= STACK_SLOTS {
                return Lowering::Malformed { pc };
            }
            let value: i64 = if op == 0x02 {
                -1
            } else if op == 0x10 {
                #[verifier::truncate] (code[pc + 1] as i8) as i64
            } else if op == 0x11 {
                #[verifier::truncate] ((code[pc + 1] as u16 * 256 + code[pc + 2] as u16) as i16) as i64
            } else {
                (op - 3) as i64
            };
            ops.push(IrOp::Const { var: top, value });
            pc = pc + 1 + width;
            depth = depth + 1;
        } else if 0x1A <= op && op <= 0x1D || op == 0x15 {
            let width: usize = if op == 0x15 {
                1
            } else {
                0
            };
            if width >= len - pc {
                return Lowering::Malformed { pc };
            }
            let index: usize = if op == 0x15 {
                code[pc + 1] as usize
            } else {
                (op - 0x1A) as usize
            };
            if index >= slots || depth >= STACK_SLOTS {
                return Lowering::Malformed { pc };
            }
            ops.push(IrOp::Copy { dst: top, src: index });
            pc = pc + 1 + width;
            depth = depth + 1;
        } else if 0x3B <= op && op <= 0x3E || op == 0x36 {
            let width: usize = if op == 0x36 {
                1
            } else {
                0
            };
            if depth == 0 || width >= len - pc {
                return Lowering::Malformed { pc };
            }
            let index: usize = if op == 0x36 {
                code[pc + 1] as usize
            } else {
                (op - 0x3B) as usize
            };
            if index >= slots {
                return Lowering::Malformed { pc };
            }
            ops.push(IrOp::Copy { dst: index, src: top - 1 });
            pc = pc + 1 + width;
            depth = depth - 1;
        } else if op == 0x60 || op == 0x64 || op == 0x68 || op == 0x6C || op == 0x70 {
            if depth < 2 {
                return Lowering::Malformed { pc };
            }
            let bin = if op == 0x60 {
                BinOp::Add
            } else if op == 0x64 {
                BinOp::Sub
            } else if op == 0x68 {
                BinOp::Mul
            } else if op == 0x6C {
                BinOp::Div
            } else {
                BinOp::Rem
            };
            ops.push(IrOp::Binary { op: bin, dst: top - 2, a: top - 2, b: top - 1 });
            pc = pc + 1;
            depth = depth - 1;
        } else if op == 0x74 {
            if depth == 0 {
                return Lowering::Malformed { pc };
            }
            ops.push(IrOp::Neg { dst: top - 1, src: top - 1 });
            pc = pc + 1;
        } else if op == 0xAC || op == 0xB1 {
            if op == 0xAC && depth == 0 {
                return Lowering::Malformed { pc };
            }
            if op == 0xAC {
                ops.push(IrOp::Return { var: top - 1 });
            } else {
                ops.push(IrOp::ReturnZero);
            }
            let ghost body = ops@;
            if len > 0 && code[len - 1] != 0xAC && code[len - 1] != 0xB1 {
                ops.push(IrOp::ReturnZero);
            }
            proof {
                assert(ops@ =~= body + closing_return(code@));
                assert(before + seq![body.last()] =~= body);
            }
            return Lowering::Ops(ops);
        } else {
            return Lowering::Unsupported { opcode: op, pc };
        }
        proof {
            assert(before + (seq![ops@.last()] + match lower_body(code@, max_locals as nat, pc as nat, depth as nat) {
                LoweringV::Ops(s) => s,
                _ => Seq::empty(),
            }) =~= ops@ + match lower_body(code@, max_locals as nat, pc as nat, depth as nat) {
                LoweringV::Ops(s) => s,
                _ => Seq::empty(),
            });
        }
    }
    let ghost body = ops@;
    if len > 0 && code[len - 1] != 0xAC && code[len - 1] != 0xB1 {
        ops.push(IrOp::ReturnZero);
    }
    proof {
        assert(ops@ =~= body + Seq::<IrOp>::empty() + closing_return(code@));
    }
    Lowering::Ops(ops)
}

/// Whether every variable that `op` names is below `n`.
pub open spec fn op_vars_below(op: IrOp, n: nat) -> bool {
    match op {
        IrOp::Const { var, .. } => var < n,
        IrOp::Copy { dst, src } => dst < n && src < n,
        IrOp::Binary { dst, a, b, .. } => dst < n && a < n && b < n,
        IrOp::Neg { dst, src } => dst < n && src < n,
        IrOp::Return { var } => var < n,
        IrOp::ReturnZero => true,
    }
}

/// Whether a lowering, where it succeeded, names only variables below `n`.
pub open spec fn lowering_vars_below(l: LoweringV, n: nat) -> bool {
    l matches LoweringV::Ops(ops) ==> forall|i: int| 0 <= i < ops.len() ==> op_vars_below(#[trigger] ops[i], n)
}

proof fn lemma_body_vars_below(code: Seq<u8>, max_locals: nat, pc: nat, depth: nat)
    requires
        depth <= STACK_SLOTS,
    ensures
        lowering_vars_below(lower_body(code, max_locals, pc, depth), (max_locals + STACK_SLOTS) as nat),
    decreases code.len() - pc,
{
    let n = (max_locals + STACK_SLOTS) as nat;
    if pc < code.len() {
        let op = code[pc as int];
        let rest_pc: nat = if op == 0x10 || op == 0x15 || op == 0x36 {
            pc + 2
        } else if op == 0x11 {
            pc + 3
        } else {
            pc + 1
        };
        if pushed_constant(code, pc as int, op) is Some || 0x1A <= op <= 0x1D || op == 0x15 {
            if depth < STACK_SLOTS && rest_pc <= code.len() {
                lemma_body_vars_below(code, max_locals, rest_pc, depth + 1);
            }
        } else if 0x3B <= op <= 0x3E || op == 0x36 {
            if depth > 0 && rest_pc <= code.len() {
                lemma_body_vars_below(code, max_locals, rest_pc, (depth - 1) as nat);
            }
        } else if binop_of(op) is Some {
            if depth >= 2 {
                lemma_body_vars_below(code, max_locals, pc + 1, (depth - 1) as nat);
            }
        } else if op == 0x74 {
            lemma_body_vars_below(code, max_locals, pc + 1, depth);
        }
        let l = lower_body(code, max_locals, pc, depth);
        if let LoweringV::Ops(ops) = l {
            assert forall|i: int| 0 <= i < ops.len() implies op_vars_below(#[trigger] ops[i], n) by {
                if i > 0 {
                    if let LoweringV::Ops(rest) = lower_body(code, max_locals, rest_pc, if pushed_constant(code, pc as int, op) is Some || 0x1A <= op <= 0x1D || op == 0x15 {
                        depth + 1
                    } else if 0x3B <= op <= 0x3E || op == 0x36 || binop_of(op) is Some {
                        (depth - 1) as nat
                    } else {
                        depth
                    }) {
                        assert(ops[i] == rest[i - 1]);
                    }
                }
            }
        }
    }
}

/// A lowered method names only the variables that are declared for it:
/// its locals and the `STACK_SLOTS` stack variables after them.
pub proof fn lemma_lowering_uses_declared_variables(max_locals: nat, code: Seq<u8>)
    ensures
        lowering_vars_below(lower_method_spec(max_locals, code), (max_locals + STACK_SLOTS) as nat),
{
    lemma_body_vars_below(code, max_locals, 0, 0);
    let n = (max_locals + STACK_SLOTS) as nat;
    if let LoweringV::Ops(body) = lower_body(code, max_locals, 0, 0) {
        let ops = zeroed_locals(max_locals) + body + closing_return(code);
        assert forall|i: int| 0 <= i < ops.len() implies op_vars_below(#[trigger] ops[i], n) by {
            if i < max_locals {
                assert(ops[i] == zeroed_locals(max_locals)[i]);
            } else if i < max_locals + body.len() {
                assert(ops[i] == body[i - max_locals]);
            } else {
                assert(ops[i] == closing_return(code)[i - max_locals - body.len()]);
            }
        }
    }
}

/// An arithmetic operation on 64-bit integers as compiled code computes it:
/// wrapping, division rounded toward zero, the remainder with the sign of
/// the dividend; `None` where the division traps (a zero divisor, or a
/// quotient `MIN / -1` that does not fit).
pub open spec fn binop_value(op: BinOp, a: i64, b: i64) -> Option<i64> {
    match op {
        BinOp::Add => Some(a.wrapping_add(b)),
        BinOp::Sub => Some(a.wrapping_sub(b)),
        BinOp::Mul => Some(a.wrapping_mul(b)),
        BinOp::Div => if b == 0 || (a == i64::MIN && b == -1) {
            None
        } else {
            Some(trunc_div(a as int, b as int) as i64)
        },
        BinOp::Rem => if b == 0 {
            None
        } else {
            Some(trunc_rem(a as int, b as int) as i64)
        },
    }
}

/// What a list of operations computes from the variables `vars`: the value
/// of the first return, or `None` where a division traps or no return is
/// reached.
pub open spec fn eval_ops(ops: Seq<IrOp>, vars: Seq<i64>) -> Option<i64>
    decreases ops.len(),
{
    if ops.len() == 0 {
        None
    } else {
        let rest = ops.drop_first();
        match ops[0] {
            IrOp::Const { var, value } => eval_ops(rest, vars.update(var as int, value)),
            IrOp::Copy { dst, src } => eval_ops(rest, vars.update(dst as int, vars[src as int])),
            IrOp::Binary { op, dst, a, b } => match binop_value(op, vars[a as int], vars[b as int]) {
                Some(r) => eval_ops(rest, vars.update(dst as int, r)),
                None => None,
            },
            IrOp::Neg { dst, src } => eval_ops(rest, vars.update(dst as int, 0i64.wrapping_sub(vars[src as int]))),
            IrOp::Return { var } => Some(vars[var as int]),
            IrOp::ReturnZero => Some(0),
        }
    }
}

/// The meaning of the bytecode that the lowering accepts, run from `pc`
/// with the given locals and operand stack and with ints taken as 64-bit
/// integers, as compiled code holds them: the value that `ireturn` returns
/// (0 for `return`), or `None` where the code traps (an operand or a value
/// is missing, a local is out of range, a division traps, an opcode is not
/// one of these) or runs out without returning.
pub open spec fn bytecode_result(code: Seq<u8>, pc: nat, locals: Seq<i64>, stack: Seq<i64>) -> Option<i64>
    decreases code.len() - pc,
{
    if pc >= code.len() {
        None
    } else {
        let op = code[pc as int];
        if let Some((value, width)) = pushed_constant(code, pc as int, op) {
            if pc + width >= code.len() {
                None
            } else {
                bytecode_result(code, pc + 1 + width, locals, stack.push(value))
            }
        } else if 0x1A <= op <= 0x1D || op == 0x15 {
            let width: nat = if op == 0x15 {
                1
            } else {
                0
            };
            let index = if op == 0x15 {
                if pc + 1 < code.len() {
                    code[pc + 1int] as int
                } else {
                    0
                }
            } else {
                op - 0x1A
            };
            if pc + width >= code.len() || index >= locals.len() {
                None
            } else {
                bytecode_result(code, pc + 1 + width, locals, stack.push(locals[index]))
            }
        } else if 0x3B <= op <= 0x3E || op == 0x36 {
            let width: nat = if op == 0x36 {
                1
            } else {
                0
            };
            let index = if op == 0x36 {
                if pc + 1 < code.len() {
                    code[pc + 1int] as int
                } else {
                    0
                }
            } else {
                op - 0x3B
            };
            if stack.len() == 0 || pc + width >= code.len() || index >= locals.len() {
                None
            } else {
                bytecode_result(code, pc + 1 + width, locals.update(index, stack.last()), stack.drop_last())
            }
        } else if let Some(bin) = binop_of(op) {
            if stack.len() < 2 {
                None
            } else {
                match binop_value(bin, stack[stack.len() - 2], stack.last()) {
                    Some(r) => bytecode_result(code, pc + 1, locals, stack.drop_last().drop_last().push(r)),
                    None => None,
                }
            }
        } else if op == 0x74 {
            if stack.len() == 0 {
                None
            } else {
                bytecode_result(code, pc + 1, locals, stack.drop_last().push(0i64.wrapping_sub(stack.last())))
            }
        } else if op == 0xAC {
            if stack.len() == 0 {
                None
            } else {
                Some(stack.last())
            }
        } else if op == 0xB1 {
            Some(0)
        } else {
            None
        }
    }
}

/// The variables hold the locals, then the operand stack.
pub open spec fn vars_hold(vars: Seq<i64>, max_locals: nat, locals: Seq<i64>, stack: Seq<i64>) -> bool {
    &&& vars.len() == max_locals + STACK_SLOTS
    &&& locals.len() == max_locals
    &&& stack.len() <= STACK_SLOTS
    &&& forall|i: int| 0 <= i < max_locals ==> #[trigger] vars[i] == locals[i]
    &&& forall|j: int| 0 <= j < stack.len() ==> #[trigger] vars[max_locals + j] == stack[j]
}

proof fn lemma_eval_cons(op: IrOp, s: Seq<IrOp>, tail: Seq<IrOp>)
    ensures
        (seq![op] + s + tail)[0] == op,
        (seq![op] + s + tail).drop_first() == s + tail,
        (seq![op] + s + tail).len() > 0,
{
    assert((seq![op] + s + tail).drop_first() =~= s + tail);
}

/// The lowered bytecode from `pc` on computes, from variables that hold
/// the locals and the operand stack, what the bytecode returns.
proof fn lemma_body_sound(
    code: Seq<u8>,
    max_locals: nat,
    pc: nat,
    vars: Seq<i64>,
    locals: Seq<i64>,
    stack: Seq<i64>,
    tail: Seq<IrOp>,
)
    requires
        max_locals + STACK_SLOTS <= usize::MAX,
        vars_hold(vars, max_locals, locals, stack),
        bytecode_result(code, pc, locals, stack) is Some,
    ensures
        lower_body(code, max_locals, pc, stack.len()) matches LoweringV::Ops(body) ==> eval_ops(body + tail, vars)
            == bytecode_result(code, pc, locals, stack),
    decreases code.len() - pc,
{
    let depth = stack.len();
    let op = code[pc as int];
    let top: int = (max_locals + depth) as int;
    if let LoweringV::Ops(body) = lower_body(code, max_locals, pc, depth) {
        if let Some((value, width)) = pushed_constant(code, pc as int, op) {
            let v2 = vars.update(top, value);
            let st2 = stack.push(value);
            assert(vars_hold(v2, max_locals, locals, st2));
            lemma_body_sound(code, max_locals, pc + 1 + width, v2, locals, st2, tail);
            if let LoweringV::Ops(rest) = lower_body(code, max_locals, pc + 1 + width, depth + 1) {
                lemma_eval_cons(IrOp::Const { var: top as usize, value }, rest, tail);
            }
        } else if 0x1A <= op <= 0x1D || op == 0x15 {
            let width: nat = if op == 0x15 {
                1
            } else {
                0
            };
            let index = if op == 0x15 {
                code[pc + 1int] as int
            } else {
                op - 0x1A
            };
            let v2 = vars.update(top, vars[index]);
            let st2 = stack.push(locals[index]);
            assert(vars_hold(v2, max_locals, locals, st2));
            lemma_body_sound(code, max_locals, pc + 1 + width, v2, locals, st2, tail);
            if let LoweringV::Ops(rest) = lower_body(code, max_locals, pc + 1 + width, depth + 1) {
                lemma_eval_cons(IrOp::Copy { dst: top as usize, src: index as usize }, rest, tail);
            }
        } else if 0x3B <= op <= 0x3E || op == 0x36 {
            let width: nat = if op == 0x36 {
                1
            } else {
                0
            };
            let index = if op == 0x36 {
                code[pc + 1int] as int
            } else {
                op - 0x3B
            };
            let v2 = vars.update(index, vars[top - 1]);
            let l2 = locals.update(index, stack.last());
            let st2 = stack.drop_last();
            assert(vars_hold(v2, max_locals, l2, st2));
            lemma_body_sound(code, max_locals, pc + 1 + width, v2, l2, st2, tail);
            if let LoweringV::Ops(rest) = lower_body(code, max_locals, pc + 1 + width, (depth - 1) as nat) {
                lemma_eval_cons(IrOp::Copy { dst: index as usize, src: (top - 1) as usize }, rest, tail);
            }
        } else if let Some(bin) = binop_of(op) {
            let r = binop_value(bin, stack[depth - 2], stack.last()).unwrap();
            let v2 = vars.update(top - 2, r);
            let st2 = stack.drop_last().drop_last().push(r);
            assert(vars_hold(v2, max_locals, locals, st2));
            lemma_body_sound(code, max_locals, pc + 1, v2, locals, st2, tail);
            if let LoweringV::Ops(rest) = lower_body(code, max_locals, pc + 1, (depth - 1) as nat) {
                lemma_eval_cons(
                    IrOp::Binary { op: bin, dst: (top - 2) as usize, a: (top - 2) as usize, b: (top - 1) as usize },
                    rest,
                    tail,
                );
            }
        } else if op == 0x74 {
            let r = 0i64.wrapping_sub(stack.last());
            let v2 = vars.update(top - 1, r);
            let st2 = stack.drop_last().push(r);
            assert(vars_hold(v2, max_locals, locals, st2));
            lemma_body_sound(code, max_locals, pc + 1, v2, locals, st2, tail);
            if let LoweringV::Ops(rest) = lower_body(code, max_locals, pc + 1, depth) {
                lemma_eval_cons(IrOp::Neg { dst: (top - 1) as usize, src: (top - 1) as usize }, rest, tail);
            }
        } else if op == 0xAC {
            lemma_eval_cons(IrOp::Return { var: (top - 1) as usize }, Seq::empty(), tail);
        } else {
            lemma_eval_cons(IrOp::ReturnZero, Seq::empty(), tail);
        }
    }
}

/// Setting the locals `k..max_locals` to 0, one operation each.
proof fn lemma_zeroing(max_locals: nat, k: nat, rest: Seq<IrOp>, vars: Seq<i64>)
    requires
        k <= max_locals,
        max_locals + STACK_SLOTS <= usize::MAX,
        vars.len() == max_locals + STACK_SLOTS,
    ensures
        eval_ops(zeroed_locals(max_locals).subrange(k as int, max_locals as int) + rest, vars) == eval_ops(
            rest,
            Seq::new(vars.len(), |i: int| if k <= i < max_locals { 0i64 } else { vars[i] }),
        ),
    decreases max_locals - k,
{
    let z = zeroed_locals(max_locals).subrange(k as int, max_locals as int);
    if k == max_locals {
        assert(z + rest =~= rest);
        assert(vars =~= Seq::new(vars.len(), |i: int| if k <= i < max_locals { 0i64 } else { vars[i] }));
    } else {
        let v2 = vars.update(k as int, 0i64);
        lemma_zeroing(max_locals, k + 1, rest, v2);
        assert((z + rest)[0] == IrOp::Const { var: k as usize, value: 0 });
        assert((z + rest).drop_first() =~= zeroed_locals(max_locals).subrange(k + 1int, max_locals as int) + rest);
        assert(Seq::new(v2.len(), |i: int| if k + 1 <= i < max_locals { 0i64 } else { v2[i] }) =~= Seq::new(
            vars.len(),
            |i: int| if k <= i < max_locals { 0i64 } else { vars[i] },
        ));
    }
}

/// The lowering keeps the bytecode's result: where the bytecode returns a
/// value (its locals starting at 0), the lowered operations return the same
/// value, whatever the variables held before.
pub proof fn lemma_lowering_keeps_result(max_locals: nat, code: Seq<u8>, vars: Seq<i64>)
    requires
        max_locals + STACK_SLOTS <= usize::MAX,
        vars.len() == max_locals + STACK_SLOTS,
        bytecode_result(code, 0, Seq::new(max_locals, |i: int| 0i64), Seq::empty()) is Some,
    ensures
        lower_method_spec(max_locals, code) matches LoweringV::Ops(ops) ==> eval_ops(ops, vars) == bytecode_result(
            code,
            0,
            Seq::new(max_locals, |i: int| 0i64),
            Seq::empty(),
        ),
{
    let locals = Seq::new(max_locals, |i: int| 0i64);
    if let LoweringV::Ops(body) = lower_body(code, max_locals, 0, 0) {
        let z = zeroed_locals(max_locals);
        let rest = body + closing_return(code);
        lemma_zeroing(max_locals, 0, rest, vars);
        assert(z.subrange(0, max_locals as int) =~= z);
        assert(z + body + closing_return(code) =~= z + rest);
        let v2 = Seq::new(vars.len(), |i: int| if 0 <= i < max_locals { 0i64 } else { vars[i] });
        assert(vars_hold(v2, max_locals, locals, Seq::empty()));
        lemma_body_sound(code, max_locals, 0, v2, locals, Seq::empty(), closing_return(code));
    }
}

/// The key of a method: `Class.name` followed by its descriptor.
pub open spec fn method_key_spec(class_name: Seq<char>, method_name: Seq<char>, descriptor: Seq<char>) -> Seq<char> {
    class_name + "."@ + method_name + descriptor
}

/// The key of a method (see `method_key_spec`).
pub fn method_key(class_name: &str, method_name: &str, descriptor: &str) -> (key: String)
    ensures
        key@ == method_key_spec(class_name@, method_name@, descriptor@),
{
    let mut key = class_name.to_owned();
    key.append(".");
    key.append(method_name);
    key.append(descriptor);
    key
}

/// The reason given where a method has an opcode that cannot be lowered.
pub open spec fn unsupported_message_spec(opcode: u8, pc: nat, key: Seq<char>) -> Seq<char> {
    "Unsupported opcode 0x"@ + hex_digits(opcode as nat, 2) + " at pc="@ + dec_digits(pc) + " in "@ + key
}

/// The reason given where a method has an opcode that cannot be lowered.
pub fn unsupported_message(opcode: u8, pc: usize, key: &str) -> (msg: String)
    ensures
        msg@ == unsupported_message_spec(opcode, pc as nat, key@),
{
    let mut msg = String::from_str("Unsupported opcode 0x");
    msg.append(hex2(opcode).as_str());
    msg.append(" at pc=");
    msg.append(dec_usize(pc).as_str());
    msg.append(" in ");
    msg.append(key);
    msg
}

/// The count recorded under `key` (0 where there is none).
pub open spec fn count_of(counts: Seq<(Seq<char>, u32)>, key: Seq<char>) -> u32
    decreases counts.len(),
{
    if counts.len() == 0 {
        0
    } else if counts[0].0 == key {
        counts[0].1
    } else {
        count_of(counts.drop_first(), key)
    }
}

/// Counts taken by the text of their keys.
pub open spec fn counts_view(s: Seq<(String, u32)>) -> Seq<(Seq<char>, u32)> {
    Seq::new(s.len(), |i: int| (s[i].0@, s[i].1))
}

/// Invocation counts of methods by key, and the count at which a method
/// is compiled.
pub struct InvocationCounts {
    counts: Vec<(String, u32)>,
    compile_threshold: u32,
}

impl InvocationCounts {
    /// The number of recorded invocations of the method `key`.
    pub closed spec fn count(self, key: Seq<char>) -> u32 {
        count_of(counts_view(self.counts@), key)
    }

    /// The count at which a method is compiled.
    pub closed spec fn threshold(self) -> u32 {
        self.compile_threshold
    }

    /// No invocation recorded; methods are compiled at their
    /// `compile_threshold`-th invocation.
    pub fn new(compile_threshold: u32) -> (c: Self)
        ensures
            c.threshold() == compile_threshold,
            forall|k: Seq<char>| c.count(k) == 0,
    {
        InvocationCounts { counts: Vec::new(), compile_threshold }
    }

    /// The number of recorded invocations of the method `key`.
    pub fn count_for(&self, key: &str) -> (n: u32)
        ensures
            n == self.count(key@),
    {
        let mut i: usize = 0;
        proof {
            assert(counts_view(self.counts@).subrange(0, self.counts@.len() as int) =~= counts_view(self.counts@));
        }
        while i < self.counts.len()
            invariant
                i <= self.counts@.len(),
                count_of(counts_view(self.counts@), key@) == count_of(
                    counts_view(self.counts@).subrange(i as int, self.counts@.len() as int),
                    key@,
                ),
            decreases self.counts@.len() - i,
        {
            let ghost rest = counts_view(self.counts@).subrange(i as int, self.counts@.len() as int);
            proof {
                assert(rest.drop_first() =~= counts_view(self.counts@).subrange(i + 1, self.counts@.len() as int));
            }
            if crate::text::str_eq(self.counts[i].0.as_str(), key) {
                return self.counts[i].1;
            }
            i = i + 1;
        }
        0
    }

    /// Records an invocation of the method `key`, unless it is `compiled`
    /// already; returns whether the method should now be compiled, which is
    /// once its count reaches the threshold.
    pub fn record_invocation(&mut self, key: &str, compiled: bool) -> (compile: bool)
        requires
            compiled || old(self).count(key@) < u32::MAX,
        ensures
            final(self).threshold() == old(self).threshold(),
            compiled ==> !compile && forall|k: Seq<char>| final(self).count(k) == old(self).count(k),
            !compiled ==> final(self).count(key@) == old(self).count(key@) + 1
                && compile == (final(self).count(key@) >= final(self).threshold())
                && forall|k: Seq<char>| k != key@ ==> final(self).count(k) == old(self).count(k),
    {
        if compiled {
            return false;
        }
        let n = self.count_for(key) + 1;
        self.set_count(key, n);
        n >= self.compile_threshold
    }

    /// Sets the count of `key`: its entry is updated, or one is appended.
    fn set_count(&mut self, key: &str, n: u32)
        ensures
            final(self).threshold() == old(self).threshold(),
            final(self).count(key@) == n,
            forall|k: Seq<char>| k != key@ ==> final(self).count(k) == old(self).count(k),
    {
        let ghost old_view = counts_view(self.counts@);
        let mut i: usize = 0;
        while i < self.counts.len()
            invariant
                i <= self.counts@.len(),
                self.counts@.len() == old_view.len(),
                counts_view(self.counts@) == old_view,
                old_view == counts_view(old(self).counts@),
                self.compile_threshold == old(self).compile_threshold,
                forall|j: int| 0 <= j < i ==> old_view[j].0 != key@,
            decreases self.counts@.len() - i,
        {
            if crate::text::str_eq(self.counts[i].0.as_str(), key) {
                self.counts.set(i, (key.to_owned(), n));
                proof {
                    lemma_count_set(old_view, key@, n, i as int);
                    assert(counts_view(self.counts@) =~= old_view.update(i as int, (key@, n)));
                }
                return;
            }
            i = i + 1;
        }
        self.counts.push((key.to_owned(), n));
        proof {
            assert(counts_view(self.counts@) =~= old_view.push((key@, n)));
            lemma_count_push(old_view, key@, n);
        }
    }
}

/// Setting the first entry for `key` sets its count and keeps the others.
proof fn lemma_count_set(s: Seq<(Seq<char>, u32)>, key: Seq<char>, n: u32, i: int)
    requires
        0 <= i < s.len(),
        s[i].0 == key,
        forall|j: int| 0 <= j < i ==> s[j].0 != key,
    ensures
        count_of(s.update(i, (key, n)), key) == n,
        forall|k: Seq<char>| k != key ==> count_of(s.update(i, (key, n)), k) == count_of(s, k),
    decreases i,
{
    let t = s.update(i, (key, n));
    if i > 0 {
        assert(t.drop_first() =~= s.drop_first().update(i - 1, (key, n)));
        lemma_count_set(s.drop_first(), key, n, i - 1);
    } else {
        assert(t.drop_first() =~= s.drop_first());
    }
    assert forall|k: Seq<char>| k != key implies count_of(t, k) == count_of(s, k) by {
        assert(t[0] == if i > 0 {
            s[0]
        } else {
            (key, n)
        });
        if t[0].0 != k {
            assert(count_of(t, k) == count_of(t.drop_first(), k));
            assert(count_of(s, k) == count_of(s.drop_first(), k));
            if i > 0 {
                assert(count_of(s.drop_first().update(i - 1, (key, n)), k) == count_of(s.drop_first(), k));
            }
        }
    }
}

/// Appending an entry for a key that has none sets its count and keeps the
/// others.
proof fn lemma_count_push(s: Seq<(Seq<char>, u32)>, key: Seq<char>, n: u32)
    requires
        forall|j: int| 0 <= j < s.len() ==> s[j].0 != key,
    ensures
        count_of(s.push((key, n)), key) == n,
        forall|k: Seq<char>| k != key ==> count_of(s.push((key, n)), k) == count_of(s, k),
    decreases s.len(),
{
    let t = s.push((key, n));
    if s.len() > 0 {
        assert(t.drop_first() =~= s.drop_first().push((key, n)));
        lemma_count_push(s.drop_first(), key, n);
        assert forall|k: Seq<char>| k != key implies count_of(t, k) == count_of(s, k) by {
            assert(t[0] == s[0]);
            if t[0].0 != k {
                assert(count_of(t, k) == count_of(t.drop_first(), k));
                assert(count_of(s.drop_first().push((key, n)), k) == count_of(s.drop_first(), k));
            }
        }
    } else {
        assert(t.drop_first() =~= s);
        assert forall|k: Seq<char>| k != key implies count_of(t, k) == count_of(s, k) by {
            assert(count_of(t.drop_first(), k) == 0);
        }
    }
}

/// What the arithmetic instructions mean in the bytecode that is lowered,
/// stated by opcode: each pops `b` (the top) and `a` and pushes `a + b`
/// (`iadd`), `a - b` (`isub`), `a * b` (`imul`), wrapping in 64 bits, the
/// quotient of `a` by `b` rounded toward zero (`idiv`) or its remainder
/// (`irem`); a zero divisor, or the quotient of `i64::MIN` by -1, traps.
pub proof fn lemma_arithmetic_opcodes(code: Seq<u8>, pc: nat, locals: Seq<i64>, stack: Seq<i64>)
    requires
        pc < code.len(),
        stack.len() >= 2,
    ensures
        ({
            let op = code[pc as int];
            let a = stack[stack.len() - 2];
            let b = stack.last();
            let rest = stack.drop_last().drop_last();
            let result = bytecode_result(code, pc, locals, stack);
            &&& op == 0x60 ==> result == bytecode_result(code, pc + 1, locals, rest.push(a.wrapping_add(b)))
            &&& op == 0x64 ==> result == bytecode_result(code, pc + 1, locals, rest.push(a.wrapping_sub(b)))
            &&& op == 0x68 ==> result == bytecode_result(code, pc + 1, locals, rest.push(a.wrapping_mul(b)))
            &&& op == 0x6C ==> result == if b == 0 || (a == i64::MIN && b == -1) {
                None
            } else {
                bytecode_result(code, pc + 1, locals, rest.push(trunc_div(a as int, b as int) as i64))
            }
            &&& op == 0x70 ==> result == if b == 0 {
                None
            } else {
                bytecode_result(code, pc + 1, locals, rest.push(trunc_rem(a as int, b as int) as i64))
            }
            &&& op == 0x74 ==> result == bytecode_result(code, pc + 1, locals, stack.drop_last().push(0i64.wrapping_sub(b)))
            &&& op == 0xAC ==> result == Some(b)
        }),
{
}

/// What the instructions that push a constant, load a local or store one
/// mean in the bytecode that is lowered: `iconst_m1` to `iconst_5` push -1
/// to 5, `bipush` its signed operand byte, `sipush` its signed big-endian
/// operand; `iload_0` to `iload_3` push that local and `istore_0` to
/// `istore_3` pop into it (a local out of range traps); `return` gives 0.
pub proof fn lemma_constant_and_local_opcodes(code: Seq<u8>, pc: nat, locals: Seq<i64>, stack: Seq<i64>)
    requires
        pc < code.len(),
    ensures
        ({
            let op = code[pc as int];
            let result = bytecode_result(code, pc, locals, stack);
            let next = (pc + 1) as nat;
            &&& op == 0x02 ==> result == bytecode_result(code, next, locals, stack.push(-1i64))
            &&& op == 0x03 ==> result == bytecode_result(code, next, locals, stack.push(0i64))
            &&& op == 0x04 ==> result == bytecode_result(code, next, locals, stack.push(1i64))
            &&& op == 0x05 ==> result == bytecode_result(code, next, locals, stack.push(2i64))
            &&& op == 0x06 ==> result == bytecode_result(code, next, locals, stack.push(3i64))
            &&& op == 0x07 ==> result == bytecode_result(code, next, locals, stack.push(4i64))
            &&& op == 0x08 ==> result == bytecode_result(code, next, locals, stack.push(5i64))
            &&& op == 0x10 && pc + 1 < code.len() ==> result == bytecode_result(
                code,
                pc + 2,
                locals,
                stack.push(code[pc + 1int] as i8 as i64),
            )
            &&& op == 0x11 && pc + 2 < code.len() ==> result == bytecode_result(
                code,
                pc + 3,
                locals,
                stack.push((code[pc + 1int] as nat * 256 + code[pc + 2int] as nat) as u16 as i16 as i64),
            )
            &&& 0x1A <= op <= 0x1D ==> result == if op - 0x1A < locals.len() {
                bytecode_result(code, next, locals, stack.push(locals[op - 0x1A]))
            } else {
                None
            }
            &&& 0x3B <= op <= 0x3E && stack.len() > 0 ==> result == if op - 0x3B < locals.len() {
                bytecode_result(code, next, locals.update(op - 0x3B, stack.last()), stack.drop_last())
            } else {
                None
            }
            &&& op == 0xB1 ==> result == Some(0i64)
        }),
{
}

} // verus!
