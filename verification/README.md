# boyia

A verified core of the Boyia scripting runtime, written in Verus.

- `src/ids.rs` — the identifier table (names to stable keys).
- `src/value.rs` — script values and the copy rules between value slots.
- `src/text.rs` — byte-string algorithms: hashing, search, split, replace, substring, trim,
  integer formatting, with their laws (split/join, trim idempotence).
- `src/vm.rs` — the VM state: globals, function bodies, string buffers, registers, locals,
  code and entry tables; objects, strings, arrays, cache patching and loading.
- `src/tasks.rs` — the micro-task queue.
- `src/front.rs` — the lexer part that finds literal `require("...")` calls and resolves
  their paths.
- `src/compile_info.rs` — the compile pipeline and the post-order walk over the `require`
  graph (dependencies' global code runs first; each file, the entry script included, is
  compiled once; the walk ends, cycles of `require`s included).
- `src/string_class.rs` — the `String` builtin class and its natives.
- `src/runtime.rs` — the runtime: native and compile-time function tables, persistent
  values, initialization.
- `app/lib.rs` — the I/O edge: reading script files for the walk, natives that print or load
  files, floating-point helpers, and an embedder data slot.
