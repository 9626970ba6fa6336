pub mod atomics;
pub mod rt_scheduler;
pub mod runtime;
pub mod ast;
pub mod ir;
pub mod irgen;
pub mod ai_hints;
pub mod semantic;
pub mod lexer;
