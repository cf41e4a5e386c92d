//! Threads of execution: a call stack of frames, a heap, a class loader, and
//! the console output that native methods produce.
use vstd::prelude::*;
use crate::classfile::models::{first_code, first_method};
use crate::classfile::ClassFile;
use crate::instructions::checks::can_execute;
use crate::instructions::invoke::lemma_invoke_takes_pushed_values;
use crate::instructions::{execute_instruction, instruction_effect, Effect};
use crate::runtime::class_loader::ClassLoader;
use crate::runtime::frame::{initial_locals, Frame, FrameV, Value};
use crate::runtime::heap::{Heap, HeapV};
use crate::text::str_eq;

verus! {

/// What executing one instruction asks of the thread's execution loop.
#[derive(Debug, Clone, PartialEq)]
pub enum ExecutionResult {
    /// Go on with the next instruction.
    Continue,
    /// The method returned, with a value or without.
    Return(Option<Value>),
    /// Call a method: a new frame is needed.
    Invoke { class_name: String, method_name: String, descriptor: String, args: Vec<Value> },
}

/// The mathematical view of an `ExecutionResult`.
pub enum ResultV {
    Continue,
    Return(Option<Value>),
    Invoke { class_name: Seq<char>, method_name: Seq<char>, descriptor: Seq<char>, args: Seq<Value> },
}

impl View for ExecutionResult {
    type V = ResultV;

    open spec fn view(&self) -> ResultV {
        match self {
            ExecutionResult::Continue => ResultV::Continue,
            ExecutionResult::Return(v) => ResultV::Return(*v),
            ExecutionResult::Invoke { class_name, method_name, descriptor, args } => ResultV::Invoke {
                class_name: class_name@,
                method_name: method_name@,
                descriptor: descriptor@,
                args: args@,
            },
        }
    }
}

/// Console output produced by the native `PrintStream` methods; `bool`
/// fields say whether a line break follows.
#[derive(Debug, Clone, PartialEq)]
pub enum Output {
    /// An `int`, printed in decimal.
    Int(i32, bool),
    /// A `long`, printed in decimal.
    Long(i64, bool),
    /// The text of a String object.
    Text(String, bool),
    /// A value that is not an object, printed in its debug form.
    Debug(Value, bool),
    /// `println` of an object that is not a String.
    NotAString,
    /// `println()`: a line break alone.
    Newline,
    /// A warning on the error stream: a native method with no stub.
    Unhandled { class_name: String, method_name: String, descriptor: String },
}

/// The mathematical view of an `Output`.
pub enum OutputV {
    Int(i32, bool),
    Long(i64, bool),
    Text(Seq<char>, bool),
    Debug(Value, bool),
    NotAString,
    Newline,
    Unhandled { class_name: Seq<char>, method_name: Seq<char>, descriptor: Seq<char> },
}

impl View for Output {
    type V = OutputV;

    open spec fn view(&self) -> OutputV {
        match self {
            Output::Int(v, nl) => OutputV::Int(*v, *nl),
            Output::Long(v, nl) => OutputV::Long(*v, *nl),
            Output::Text(s, nl) => OutputV::Text(s@, *nl),
            Output::Debug(v, nl) => OutputV::Debug(*v, *nl),
            Output::NotAString => OutputV::NotAString,
            Output::Newline => OutputV::Newline,
            Output::Unhandled { class_name, method_name, descriptor } => OutputV::Unhandled {
                class_name: class_name@,
                method_name: method_name@,
                descriptor: descriptor@,
            },
        }
    }
}

/// A thread of execution with its own call stack.
pub struct Thread {
    pub stack: Vec<Frame>,
    pub heap: Heap,
    pub class_loader: ClassLoader,
    /// Object references held while compiled code runs (roots for a collector).
    pub jit_roots: Vec<usize>,
    /// Console output of native methods, in order.
    pub console: Vec<Output>,
}

/// The mathematical view of a thread.
pub struct ThreadV {
    pub stack: Seq<FrameV>,
    pub heap: HeapV,
    pub loader: ClassLoader,
    pub jit_roots: Seq<usize>,
    pub console: Seq<OutputV>,
}

impl View for Thread {
    type V = ThreadV;

    open spec fn view(&self) -> ThreadV {
        ThreadV {
            stack: self.stack@.map_values(|f: Frame| f@),
            heap: self.heap@,
            loader: self.class_loader,
            jit_roots: self.jit_roots@,
            console: self.console@.map_values(|o: Output| o@),
        }
    }
}

impl ThreadV {
    /// The frame on top of the call stack.
    pub open spec fn top(self) -> FrameV {
        self.stack.last()
    }

    /// The thread with its top frame replaced by `f`.
    pub open spec fn with_top(self, f: FrameV) -> ThreadV {
        ThreadV { stack: self.stack.update(self.stack.len() - 1, f), ..self }
    }

    /// The thread with heap `h`.
    pub open spec fn with_heap(self, h: HeapV) -> ThreadV {
        ThreadV { heap: h, ..self }
    }

    /// The class of the method that the top frame runs, if it is loaded.
    pub open spec fn current_class(self) -> Option<ClassFile> {
        self.loader.class_named(self.top().class_name)
    }
}

/// Replacing the top frame twice is replacing it with the second frame, and
/// the replaced frame is the new top.
pub proof fn lemma_with_top(t: ThreadV, f: FrameV, g: FrameV)
    requires
        t.stack.len() > 0,
    ensures
        t.with_top(f).top() == f,
        t.with_top(f).stack.len() == t.stack.len(),
        t.with_top(f).with_top(g) == t.with_top(g),
{
    assert(t.with_top(f).with_top(g).stack =~= t.with_top(g).stack);
}

/// The text of the String object at `index`, if there is one.
pub open spec fn string_at(h: HeapV, index: usize) -> Option<Seq<char>> {
    if h.live(index as int) {
        h.objects[index as int].unwrap().string_value
    } else {
        None
    }
}

/// What a native `PrintStream` method prints, given its arguments (the
/// stream, then the value printed): `None` where that value is not of the
/// type the descriptor names, which traps. A call with fewer arguments
/// prints nothing; a method without a stub prints a warning.
pub open spec fn native_output(
    heap: HeapV,
    class_name: Seq<char>,
    method_name: Seq<char>,
    descriptor: Seq<char>,
    args: Seq<Value>,
) -> Option<Seq<OutputV>> {
    let line = method_name == "println"@;
    if line && descriptor == "()V"@ {
        Some(seq![OutputV::Newline])
    } else if (line || method_name == "print"@) && descriptor == "(I)V"@ {
        if args.len() < 2 {
            Some(Seq::empty())
        } else if args[1] is I32 {
            Some(seq![OutputV::Int(args[1].i32_value(), line)])
        } else {
            None
        }
    } else if line && descriptor == "(J)V"@ {
        if args.len() < 2 {
            Some(Seq::empty())
        } else if args[1] is I64 {
            Some(seq![OutputV::Long(args[1].i64_value(), line)])
        } else {
            None
        }
    } else if (line || method_name == "print"@) && descriptor == "(Ljava/lang/String;)V"@ {
        if args.len() < 2 {
            Some(Seq::empty())
        } else {
            match args[1] {
                Value::Object(idx) => match string_at(heap, idx) {
                    Some(text) => Some(seq![OutputV::Text(text, line)]),
                    None => if line {
                        Some(seq![OutputV::NotAString])
                    } else {
                        Some(Seq::empty())
                    },
                },
                v => Some(seq![OutputV::Debug(v, line)]),
            }
        }
    } else {
        Some(seq![OutputV::Unhandled { class_name, method_name, descriptor }])
    }
}

/// One pass of the execution loop: a trap (in the state where it happened),
/// the next state, or a halt with the value returned.
pub enum Step {
    Trap(ThreadV),
    Next(ThreadV),
    Halt(Option<Value>, ThreadV),
}

/// A new frame running `code` of class `class_name` with the arguments
/// in its first locals.
pub open spec fn call_frame(max_locals: u16, code: Seq<u8>, args: Seq<Value>, class_name: Seq<char>) -> FrameV {
    FrameV {
        locals: initial_locals(max_locals as nat, args),
        stack: Seq::empty(),
        constant_pool_idx: 0,
        code,
        pc: 0,
        class_name,
    }
}

/// What the execution loop does with the result of an instruction: a
/// return pops the frame and hands its value to the caller (or ends the
/// run where no caller is left); a call of a native method prints; another
/// call pushes a frame for the method's code, and traps where the class,
/// the method or its code is missing.
pub open spec fn after_instruction(t: ThreadV, r: ResultV) -> Step {
    match r {
        ResultV::Continue => Step::Next(t),
        ResultV::Return(val) => {
            let popped = ThreadV { stack: t.stack.drop_last(), ..t };
            let u = if popped.stack.len() > 0 && val is Some {
                popped.with_top(popped.top().pushed(val.unwrap()))
            } else {
                popped
            };
            if u.stack.len() == 0 {
                Step::Halt(val, u)
            } else {
                Step::Next(u)
            }
        },
        ResultV::Invoke { class_name, method_name, descriptor, args } => {
            if class_name == "java/io/PrintStream"@ && (method_name == "println"@ || method_name == "print"@) {
                match native_output(t.heap, class_name, method_name, descriptor, args) {
                    Some(out) => Step::Next(ThreadV { console: t.console + out, ..t }),
                    None => Step::Trap(t),
                }
            } else {
                match t.loader.class_named(class_name) {
                    None => Step::Trap(t),
                    Some(cf) => match first_method(cf.constant_pool@, cf.methods@, method_name, descriptor) {
                        None => Step::Trap(t),
                        Some(m) => match first_code(m.attributes@) {
                            None => Step::Trap(t),
                            Some(code) => Step::Next(
                                ThreadV {
                                    stack: t.stack.push(call_frame(code.max_locals, code.code@, args, class_name)),
                                    ..t
                                },
                            ),
                        },
                    },
                }
            }
        },
    }
}

/// One pass of the execution loop: where the top frame's code is done the
/// run halts without a value; else the opcode is read and executed.
pub open spec fn next_step(t: ThreadV) -> Step {
    if t.stack.len() == 0 {
        Step::Trap(t)
    } else if t.top().pc >= t.top().code.len() {
        Step::Halt(None, t)
    } else {
        let f = t.top();
        let t1 = t.with_top(f.at(f.pc + 1));
        match instruction_effect(f.code[f.pc as int], t1) {
            Effect::Trap => Step::Trap(t1),
            Effect::Done(t2, r) => after_instruction(t2, r),
        }
    }
}

/// At most `fuel` passes of the execution loop, stopping at a trap or a
/// halt; `Next` where the fuel ran out first.
pub open spec fn run_steps(t: ThreadV, fuel: nat) -> Step
    decreases fuel,
{
    if fuel == 0 {
        Step::Next(t)
    } else {
        match next_step(t) {
            Step::Next(u) => run_steps(u, (fuel - 1) as nat),
            s => s,
        }
    }
}

/// The state a step ends in.
pub open spec fn step_state(s: Step) -> ThreadV {
    match s {
        Step::Trap(u) => u,
        Step::Next(u) => u,
        Step::Halt(_, u) => u,
    }
}

/// Whether `u` has the class loader and the roots of compiled code of `t`,
/// and its console continues that of `t`.
pub open spec fn keeps_context(t: ThreadV, u: ThreadV) -> bool {
    &&& u.loader == t.loader
    &&& u.jit_roots == t.jit_roots
    &&& t.console.is_prefix_of(u.console)
}

/// An instruction changes neither the class loader, nor the roots of
/// compiled code, nor the console.
proof fn lemma_instruction_keeps_context(op: u8, t: ThreadV)
    ensures
        instruction_effect(op, t) matches Effect::Done(u, _) ==> u.loader == t.loader && u.jit_roots
            == t.jit_roots && u.console == t.console,
{
}

/// A pass of the execution loop keeps the class loader and the roots of
/// compiled code, and only appends to the console.
pub proof fn lemma_step_keeps_context(t: ThreadV)
    ensures
        keeps_context(t, step_state(next_step(t))),
{
    assert(t.console.is_prefix_of(t.console));
    if t.stack.len() > 0 && t.top().pc < t.top().code.len() {
        let f = t.top();
        let t1 = t.with_top(f.at(f.pc + 1));
        lemma_instruction_keeps_context(f.code[f.pc as int], t1);
        if let Effect::Done(t2, r) = instruction_effect(f.code[f.pc as int], t1) {
            if let ResultV::Invoke { class_name, method_name, descriptor, args } = r {
                if let Some(out) = native_output(t2.heap, class_name, method_name, descriptor, args) {
                    assert(t2.console.is_prefix_of(t2.console + out));
                }
            }
        }
    }
}

/// A run of the execution loop keeps the class loader and the roots of
/// compiled code, and only appends to the console.
pub proof fn lemma_run_keeps_context(t: ThreadV, fuel: nat)
    ensures
        keeps_context(t, step_state(run_steps(t, fuel))),
    decreases fuel,
{
    assert(t.console.is_prefix_of(t.console));
    if fuel > 0 {
        lemma_step_keeps_context(t);
        if let Step::Next(u) = next_step(t) {
            lemma_run_keeps_context(u, (fuel - 1) as nat);
            let w = step_state(run_steps(u, (fuel - 1) as nat));
            assert(t.console.is_prefix_of(w.console)) by {
                assert forall|i: int| 0 <= i < t.console.len() implies t.console[i] == w.console[i] by {
                    assert(t.console[i] == u.console[i]);
                }
            }
        }
    }
}

/// How a bounded run of the execution loop ended.
#[derive(Debug, Clone, PartialEq)]
pub enum RunResult {
    /// The run returned from its first frame, or that frame's code ran out.
    Halted(Option<Value>),
    /// The number of instructions allowed ran out first.
    OutOfFuel,
    /// An instruction or a call could not be executed.
    Trapped,
}

/// How one pass of the execution loop ended.
enum StepOutcome {
    Next,
    Halt(Option<Value>),
    Trap,
}

/// Whether a method is one of the native methods handled by a stub.
pub fn is_native_stub(class_name: &str, method_name: &str, descriptor: &str) -> (b: bool)
    ensures
        b == (class_name@ == "java/io/PrintStream"@ && (method_name@ == "println"@ || method_name@ == "print"@)),
{
    str_eq(class_name, "java/io/PrintStream") && (str_eq(method_name, "println") || str_eq(method_name, "print"))
}

impl Thread {
    /// A thread with an empty call stack and heap.
    pub fn new(class_loader: ClassLoader) -> (t: Self)
        ensures
            t@ == (ThreadV {
                stack: Seq::empty(),
                heap: t@.heap,
                loader: class_loader,
                jit_roots: Seq::empty(),
                console: Seq::empty(),
            }),
            t.heap@ == Heap::new_spec(),
            t@.heap.wf(),
    {
        let t = Thread {
            stack: Vec::new(),
            heap: Heap::new(),
            class_loader,
            jit_roots: Vec::new(),
            console: Vec::new(),
        };
        proof {
            assert(t@.stack =~= Seq::<FrameV>::empty());
            assert(t@.console =~= Seq::<OutputV>::empty());
        }
        t
    }

    /// Registers an object held by compiled code as a root.
    pub fn jit_root_push(&mut self, obj_idx: usize)
        ensures
            final(self)@ == (ThreadV { jit_roots: old(self)@.jit_roots.push(obj_idx), ..old(self)@ }),
    {
        self.jit_roots.push(obj_idx);
        proof {
            assert(final(self)@.stack =~= old(self)@.stack);
        }
    }

    /// Removes the last root registered for compiled code.
    pub fn jit_root_pop(&mut self) -> (r: Option<usize>)
        ensures
            old(self)@.jit_roots.len() == 0 ==> r is None && final(self)@ == old(self)@,
            old(self)@.jit_roots.len() > 0 ==> r == Some(old(self)@.jit_roots.last()) && final(self)@ == (ThreadV {
                jit_roots: old(self)@.jit_roots.drop_last(),
                ..old(self)@
            }),
    {
        self.jit_roots.pop()
    }

    /// The roots registered for compiled code.
    pub fn jit_roots(&self) -> (r: &[usize])
        ensures
            r@ == self@.jit_roots,
    {
        self.jit_roots.as_slice()
    }

    /// Pushes a frame onto the call stack.
    pub fn push_frame(&mut self, frame: Frame)
        ensures
            final(self)@ == (ThreadV { stack: old(self)@.stack.push(frame@), ..old(self)@ }),
    {
        self.stack.push(frame);
        proof {
            assert(final(self)@.stack =~= old(self)@.stack.push(frame@));
        }
    }

    /// Pops the top frame of the call stack.
    pub fn pop_frame(&mut self) -> (r: Option<Frame>)
        ensures
            old(self)@.stack.len() == 0 ==> r is None && final(self)@ == old(self)@,
            old(self)@.stack.len() > 0 ==> r is Some && r.unwrap()@ == old(self)@.top() && final(self)@ == (ThreadV {
                stack: old(self)@.stack.drop_last(),
                ..old(self)@
            }),
    {
        let r = self.stack.pop();
        proof {
            assert(final(self)@.stack =~= if old(self)@.stack.len() > 0 { old(self)@.stack.drop_last() } else { old(self)@.stack });
        }
        r
    }

    /// The frame on top of the call stack.
    pub fn current_frame(&mut self) -> (f: &mut Frame)
        requires
            old(self).stack@.len() > 0,
        ensures
            *f == old(self).stack@.last(),
            final(self).stack@ == old(self).stack@.update(old(self).stack@.len() - 1, *final(f)),
            final(self).heap == old(self).heap,
            final(self).class_loader == old(self).class_loader,
            final(self).jit_roots == old(self).jit_roots,
            final(self).console == old(self).console,
            final(self)@ == old(self)@.with_top(final(f)@),
    {
        let n = self.stack.len();
        let ghost t = self@;
        let f = &mut self.stack[n - 1];
        proof {
            assert(after_borrow(self)@.stack =~= t.stack.update(n - 1, final(f)@));
        }
        f
    }

    /// Runs a native `PrintStream` method: appends what it prints to the
    /// console. It returns no value.
    fn execute_native_stub(
        &mut self,
        class_name: &str,
        method_name: &str,
        descriptor: &str,
        args: Vec<Value>,
    ) -> (r: Option<Value>)
        requires
            native_output(old(self)@.heap, class_name@, method_name@, descriptor@, args@) is Some,
        ensures
            r is None,
            final(self)@ == (ThreadV {
                console: old(self)@.console + native_output(
                    old(self)@.heap,
                    class_name@,
                    method_name@,
                    descriptor@,
                    args@,
                ).unwrap(),
                ..old(self)@
            }),
    {
        let ghost t0 = self@;
        let line = str_eq(method_name, "println");
        let print = str_eq(method_name, "print");
        let out: Option<Output> = if line && str_eq(descriptor, "()V") {
            Some(Output::Newline)
        } else if (line || print) && str_eq(descriptor, "(I)V") {
            if args.len() < 2 {
                None
            } else {
                Some(Output::Int(args[1].as_i32(), line))
            }
        } else if line && str_eq(descriptor, "(J)V") {
            if args.len() < 2 {
                None
            } else {
                Some(Output::Long(args[1].as_i64(), line))
            }
        } else if (line || print) && str_eq(descriptor, "(Ljava/lang/String;)V") {
            if args.len() < 2 {
                None
            } else {
                match args[1] {
                    Value::Object(idx) => match self.heap.get_string(idx) {
                        Some(s) => Some(Output::Text(s.to_owned(), line)),
                        None => if line {
                            Some(Output::NotAString)
                        } else {
                            None
                        },
                    },
                    v => Some(Output::Debug(v, line)),
                }
            }
        } else {
            Some(
                Output::Unhandled {
                    class_name: class_name.to_owned(),
                    method_name: method_name.to_owned(),
                    descriptor: descriptor.to_owned(),
                },
            )
        };
        match out {
            Some(o) => {
                self.console.push(o);
                proof {
                    assert(self@.console =~= t0.console + seq![o@]);
                }
            },
            None => {
                proof {
                    assert(self@.console =~= t0.console + Seq::<OutputV>::empty());
                }
            },
        }
        None
    }

    /// Acts on the result of an instruction (see `after_instruction`).
    fn finish_instruction(&mut self, result: ExecutionResult) -> (o: StepOutcome)
        requires
            old(self)@.heap.wf(),
            old(self)@.stack.len() > 0,
        ensures
            final(self)@.heap.wf(),
            match after_instruction(old(self)@, result@) {
                Step::Next(t) => o is Next && final(self)@ == t,
                Step::Halt(v, t) => o == StepOutcome::Halt(v) && final(self)@ == t,
                Step::Trap(t) => o is Trap && final(self)@ == t,
            },
    {
        match result {
            ExecutionResult::Continue => StepOutcome::Next,
            ExecutionResult::Return(val) => {
                self.pop_frame();
                if self.stack.len() > 0 {
                    match val {
                        Some(v) => {
                            self.current_frame().push(v);
                        },
                        None => {},
                    }
                }
                if self.stack.len() == 0 {
                    StepOutcome::Halt(val)
                } else {
                    StepOutcome::Next
                }
            },
            ExecutionResult::Invoke { class_name, method_name, descriptor, args } => {
                if is_native_stub(class_name.as_str(), method_name.as_str(), descriptor.as_str()) {
                    if !self.native_args_ok(method_name.as_str(), descriptor.as_str(), &args) {
                        return StepOutcome::Trap;
                    }
                    self.execute_native_stub(class_name.as_str(), method_name.as_str(), descriptor.as_str(), args);
                    return StepOutcome::Next;
                }
                let frame = match self.class_loader.get_class(class_name.as_str()) {
                    None => {
                        return StepOutcome::Trap;
                    },
                    Some(class) => match self.class_loader.find_method(class, method_name.as_str(), descriptor.as_str()) {
                        None => {
                            return StepOutcome::Trap;
                        },
                        Some(method) => match ClassLoader::get_method_code(method, class) {
                            None => {
                                return StepOutcome::Trap;
                            },
                            Some((_max_stack, max_locals, code)) => {
                                let mut new_frame = Frame::with_args(max_locals as usize, code, args);
                                new_frame.class_name = class_name;
                                new_frame
                            },
                        },
                    },
                };
                self.push_frame(frame);
                StepOutcome::Next
            },
        }
    }

    /// Whether the value a native method prints has the type its descriptor
    /// names (see `native_output`).
    fn native_args_ok(&self, method_name: &str, descriptor: &str, args: &Vec<Value>) -> (ok: bool)
        ensures
            ok == (native_output(self@.heap, "java/io/PrintStream"@, method_name@, descriptor@, args@) is Some),
    {
        let line = str_eq(method_name, "println");
        let print = str_eq(method_name, "print");
        if args.len() < 2 || line && str_eq(descriptor, "()V") {
            true
        } else if (line || print) && str_eq(descriptor, "(I)V") {
            match args[1] {
                Value::I32(_) => true,
                _ => false,
            }
        } else if line && str_eq(descriptor, "(J)V") {
            match args[1] {
                Value::I64(_) => true,
                _ => false,
            }
        } else {
            true
        }
    }

    /// One pass of the execution loop (see `next_step`).
    fn step(&mut self) -> (o: StepOutcome)
        requires
            old(self)@.heap.wf(),
        ensures
            final(self)@.heap.wf(),
            match next_step(old(self)@) {
                Step::Next(t) => o is Next && final(self)@ == t,
                Step::Halt(v, t) => o == StepOutcome::Halt(v) && final(self)@ == t,
                Step::Trap(t) => o is Trap && final(self)@ == t,
            },
    {
        let n = self.stack.len();
        if n == 0 {
            return StepOutcome::Trap;
        }
        if self.stack[n - 1].pc >= self.stack[n - 1].code.len() {
            return StepOutcome::Halt(None);
        }
        let frame = self.current_frame();
        let opcode = frame.code[frame.pc];
        frame.pc = frame.pc + 1;
        if !can_execute(self, opcode) {
            return StepOutcome::Trap;
        }
        let result = execute_instruction(self, opcode);
        self.finish_instruction(result)
    }

    /// Runs the execution loop for at most `fuel` instructions: until the
    /// first frame returns or its code runs out, an instruction or a call
    /// cannot be executed, or the fuel runs out.
    pub fn run(&mut self, fuel: u64) -> (r: RunResult)
        requires
            old(self)@.heap.wf(),
        ensures
            final(self)@.heap.wf(),
            match run_steps(old(self)@, fuel as nat) {
                Step::Halt(v, t) => r == RunResult::Halted(v) && final(self)@ == t,
                Step::Next(t) => r == RunResult::OutOfFuel && final(self)@ == t,
                Step::Trap(t) => r == RunResult::Trapped && final(self)@ == t,
            },
    {
        let ghost t0 = self@;
        let mut k: u64 = 0;
        while k < fuel
            invariant
                k <= fuel,
                self@.heap.wf(),
                t0 == old(self)@,
                run_steps(t0, fuel as nat) == run_steps(self@, (fuel - k) as nat),
            decreases fuel - k,
        {
            match self.step() {
                StepOutcome::Next => {
                    k = k + 1;
                },
                StepOutcome::Halt(v) => {
                    return RunResult::Halted(v);
                },
                StepOutcome::Trap => {
                    return RunResult::Trapped;
                },
            }
        }
        RunResult::OutOfFuel
    }

    /// Executes the current frame until it returns, and returns its value.
    /// The loop runs at most `u64::MAX` instructions.
    pub fn execute(&mut self) -> (r: Option<Value>)
        requires
            old(self)@.heap.wf(),
            !(run_steps(old(self)@, u64::MAX as nat) is Trap),
        ensures
            final(self)@.heap.wf(),
            match run_steps(old(self)@, u64::MAX as nat) {
                Step::Halt(v, t) => r == v && final(self)@ == t,
                Step::Next(t) => r is None && final(self)@ == t,
                Step::Trap(_) => false,
            },
    {
        match self.run(u64::MAX) {
            RunResult::Halted(v) => v,
            _ => None,
        }
    }
}

/// Popping the frame just pushed gives it back and leaves the thread as it
/// was; the same holds of the roots of compiled code.
pub proof fn lemma_push_then_pop_frame(t: ThreadV, f: FrameV, root: usize)
    ensures
        (ThreadV { stack: t.stack.push(f), ..t }).top() == f,
        (ThreadV { stack: (ThreadV { stack: t.stack.push(f), ..t }).stack.drop_last(), ..t }) == t,
        (ThreadV { jit_roots: t.jit_roots.push(root), ..t }).jit_roots.last() == root,
        (ThreadV { jit_roots: t.jit_roots.push(root).drop_last(), ..t }) == t,
{
    assert(t.stack.push(f).drop_last() =~= t.stack);
    assert(t.jit_roots.push(root).drop_last() =~= t.jit_roots);
}
/// Whether the top frame's next instruction returns: `ireturn` or
/// `areturn` with a value on its operand stack, or `return`.
pub open spec fn returns_next(t: ThreadV) -> bool {
    &&& t.stack.len() > 0
    &&& t.top().pc < t.top().code.len()
    &&& {
        let op = t.top().code[t.top().pc as int];
        ||| (op == 0xAC || op == 0xB0) && t.top().stack.len() > 0
        ||| op == 0xB1
    }
}

/// The value that the top frame's returning instruction hands back.
pub open spec fn returned_value(t: ThreadV) -> Option<Value> {
    if t.top().code[t.top().pc as int] == 0xB1 {
        None
    } else {
        Some(t.top().peek(0))
    }
}

/// A return in a called method: the callee's frame is popped, its value (if
/// any) is pushed onto the caller's operand stack, and execution goes on in
/// the caller at the program counter it had saved.
pub proof fn lemma_return_to_caller(t: ThreadV)
    requires
        t.stack.len() >= 2,
        returns_next(t),
    ensures
        next_step(t) == Step::Next(
            ThreadV {
                stack: t.stack.drop_last().update(
                    t.stack.len() - 2,
                    match returned_value(t) {
                        Some(v) => t.stack[t.stack.len() - 2].pushed(v),
                        None => t.stack[t.stack.len() - 2],
                    },
                ),
                ..t
            },
        ),
{
    let f = t.top();
    let t1 = t.with_top(f.at(f.pc + 1));
    lemma_with_top(t, f.at(f.pc + 1), f.at(f.pc + 1).popped());
    let t2 = if f.code[f.pc as int] == 0xB1 {
        t1
    } else {
        t.with_top(f.at(f.pc + 1).popped())
    };
    assert(t2.stack.drop_last() =~= t.stack.drop_last());
    let expected = ThreadV {
        stack: t.stack.drop_last().update(
            t.stack.len() - 2,
            match returned_value(t) {
                Some(v) => t.stack[t.stack.len() - 2].pushed(v),
                None => t.stack[t.stack.len() - 2],
            },
        ),
        ..t
    };
    if let Step::Next(u) = next_step(t) {
        assert(u.stack =~= expected.stack);
    }
}

/// How a pass of the execution loop halts: either the top frame's code has
/// run out (no value, and the thread stays as it was), or the only frame
/// returned, which empties the call stack, with the value it returned.
pub proof fn lemma_halt_cases(t: ThreadV)
    ensures
        next_step(t) matches Step::Halt(v, u) ==> {
            ||| v is None && u == t && t.stack.len() > 0 && t.top().pc >= t.top().code.len()
            ||| t.stack.len() == 1 && u.stack.len() == 0 && returns_next(t) && v == returned_value(t)
        },
{
    if t.stack.len() > 0 && t.top().pc < t.top().code.len() {
        let f = t.top();
        let t1 = t.with_top(f.at(f.pc + 1));
        lemma_with_top(t, f.at(f.pc + 1), f.at(f.pc + 1).popped());
        if let Effect::Done(t2, r) = instruction_effect(f.code[f.pc as int], t1) {
            lemma_instruction_keeps_context(f.code[f.pc as int], t1);
        }
    }
}

/// A run halts only through a halting pass of the loop: from some state
/// reached, that pass gives the run's value and final state (see
/// `lemma_halt_cases`).
pub proof fn lemma_run_halts_by_step(t: ThreadV, fuel: nat)
    ensures
        run_steps(t, fuel) matches Step::Halt(v, u) ==> exists|w: ThreadV| next_step(w) == Step::Halt(v, u),
    decreases fuel,
{
    if fuel > 0 {
        if let Step::Next(u) = next_step(t) {
            lemma_run_halts_by_step(u, (fuel - 1) as nat);
        } else if let Step::Halt(v, u) = next_step(t) {
            assert(next_step(t) == Step::Halt(v, u));
        }
    }
}

/// Whether a printed item ends its line, for the items that print a value.
pub open spec fn ends_line(o: OutputV) -> Option<bool> {
    match o {
        OutputV::Int(_, line) => Some(line),
        OutputV::Long(_, line) => Some(line),
        OutputV::Text(_, line) => Some(line),
        OutputV::Debug(_, line) => Some(line),
        _ => None,
    }
}

/// `PrintStream.print` never ends a line: nothing it prints is a line break
/// or a value followed by one. `PrintStream.println` ends the line after
/// every value it prints. With `(I)V`, each prints the int argument after
/// the stream, `print` without and `println` with a line break.
pub proof fn lemma_print_and_println_lines(
    heap: HeapV,
    class_name: Seq<char>,
    descriptor: Seq<char>,
    args: Seq<Value>,
)
    ensures
        native_output(heap, class_name, "print"@, descriptor, args) matches Some(out) ==> forall|k: int|
            0 <= k < out.len() ==> out[k] != OutputV::Newline && ends_line(#[trigger] out[k]) != Some(true),
        native_output(heap, class_name, "println"@, descriptor, args) matches Some(out) ==> forall|k: int|
            0 <= k < out.len() ==> ends_line(#[trigger] out[k]) != Some(false),
        descriptor == "(I)V"@ && args.len() >= 2 && args[1] is I32 ==> native_output(heap, class_name, "print"@, descriptor, args)
            == Some(seq![OutputV::Int(args[1].i32_value(), false)]),
        descriptor == "(I)V"@ && args.len() >= 2 && args[1] is I32 ==> native_output(heap, class_name, "println"@, descriptor, args)
            == Some(seq![OutputV::Int(args[1].i32_value(), true)]),
{
    reveal_strlit("print");
    reveal_strlit("println");
    reveal_strlit("(I)V");
    reveal_strlit("()V");
    assert("(I)V"@ != "()V"@) by {
        assert("(I)V"@.len() != "()V"@.len());
    }
    assert("print"@ != "println"@) by {
        assert("print"@.len() != "println"@.len());
    }
}

/// A call that an invoke instruction makes runs the called method in a new
/// frame, at its start with an empty operand stack, whose first locals hold
/// the values that the caller pushed last, in the order it pushed them;
/// the caller keeps the values below them, and the frames below the
/// caller are unchanged.
pub proof fn lemma_call_receives_pushed_values(t: ThreadV)
    requires
        t.stack.len() > 0,
        t.top().pc < t.top().code.len(),
        t.top().code[t.top().pc as int] == 0xB6 || t.top().code[t.top().pc as int] == 0xB7
            || t.top().code[t.top().pc as int] == 0xB8,
        next_step(t) matches Step::Next(u) && u.stack.len() == t.stack.len() + 1,
    ensures
        next_step(t) matches Step::Next(u) && ({
            let f = t.top();
            let caller = u.stack[t.stack.len() - 1];
            let callee = u.top();
            let k = caller.stack.len() as int;
            &&& k <= f.stack.len()
            &&& caller.stack == f.stack.subrange(0, k)
            &&& callee.pc == 0
            &&& callee.stack.len() == 0
            &&& forall|i: int| 0 <= i < f.stack.len() - k && i < callee.locals.len() ==> #[trigger] callee.locals[i] == f.stack[k + i]
            &&& u.stack.subrange(0, t.stack.len() - 1) == t.stack.subrange(0, t.stack.len() - 1)
        }),
{
    let f = t.top();
    let op = f.code[f.pc as int];
    let t1 = t.with_top(f.at(f.pc + 1));
    lemma_with_top(t, f.at(f.pc + 1), f.at(f.pc + 1));
    lemma_invoke_takes_pushed_values(op, t1);
    if let Effect::Done(t2, r) = instruction_effect(op, t1) {
        match r {
            ResultV::Invoke { class_name, method_name, descriptor, args } => {
                assert(t2.stack.len() == t.stack.len());
                let n = args.len() as int;
                assert(t2.top().stack == f.stack.subrange(0, f.stack.len() - n));
                if let Step::Next(u) = next_step(t) {
                    assert(u.stack.len() == t2.stack.len() + 1);
                    assert(u.stack[t.stack.len() - 1] == t2.top());
                    let callee = u.top();
                    assert forall|i: int| 0 <= i < n && i < callee.locals.len() implies #[trigger] callee.locals[i]
                        == f.stack[f.stack.len() - n + i] by {
                        assert(args[i] == f.stack[f.stack.len() - n + i]);
                    }
                    assert(u.stack.subrange(0, t.stack.len() - 1) =~= t.stack.subrange(0, t.stack.len() - 1)) by {
                        assert forall|i: int| 0 <= i < t.stack.len() - 1 implies u.stack[i] == t.stack[i] by {
                            assert(u.stack[i] == t2.stack[i]);
                        }
                    }
                }
            },
            _ => {},
        }
    }
}

} // verus!
