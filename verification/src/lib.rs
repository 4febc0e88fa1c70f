//! A small scripting-language backend: a bytecode compiler and a stack-based
//! virtual machine, together with the object model and global registry they
//! share. Programs arrive as an abstract syntax tree, are lowered to a flat
//! instruction sequence with backpatched jump targets, and are executed by a
//! frame-stack machine whose only side effect is the text it echoes.

pub mod arith;
pub mod ast;
pub mod code;
pub mod compiler;
pub mod error;
pub mod float_ops;
pub mod globals;
pub mod lower;
pub mod object;
pub mod stdlib;
pub mod table;
pub mod text;
pub mod vm;
