# mini_jvm

A small Java virtual machine whose core is verified with Verus.

- `src/classfile`: the class-file model and a parser whose result is
  specified byte by byte (`class_file_of`).
- `src/runtime`: values and frames, the heap, the class loader, threads with
  their execution loop, and a mark-sweep collector proved to free exactly the
  unreachable objects.
- `src/instructions`: one handler per bytecode instruction, each specified
  by an `*_effect` function on the thread's view; `checks` decides before an
  instruction runs whether it would trap.
- `src/jit`: the lowering step of the baseline compiler, from bytecode to
  operations on numbered variables, and the invocation counts that trigger it.
- `app/`: the command-line program, file reading, printing, and code
  generation with Cranelift.

## Collections

Maps keyed by strings (instance fields, static fields, loaded classes,
invocation counts) are vectors of `(String, value)` pairs with the first
entry for a name in effect: vstd specifies `HashMap` only well enough to
prove facts about integer keys, and these contracts state lookups by name.
The array side tables are vectors indexed by heap slot, and the collector's
mark set is a vector of flags indexed by slot: both are keyed by the same
slot numbers as the object vector, so one length invariant covers them and
the collector's proof reads them by index alongside the objects.
