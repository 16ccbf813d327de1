//! Boyia scripting runtime: the identifier table, script values and the VM's stores, the
//! String builtin class, the micro-task queue, the compile pipeline's `require` walk, and
//! the runtime's function tables.

pub mod ids;
pub mod value;
pub mod text;
pub mod vm;
pub mod front;
pub mod compile_info;
pub mod runtime;
pub mod string_class;
pub mod tasks;
