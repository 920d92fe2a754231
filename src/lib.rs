pub mod config;
pub mod text;
pub mod types;
pub mod registry;
pub mod diagnostics;
pub mod ast;
pub mod borrow;
pub mod ir;
pub mod typecheck;
pub mod emitter;
pub mod lowering;
pub mod statements;
pub mod definitions;
pub mod driver;
