//! Verified core of the Monty sandboxed Python interpreter's runtime library.
pub mod async_exec;
pub mod async_state;
pub mod builtins;
pub mod collections;
pub mod compare;
pub mod date;
pub mod exception;
pub mod heap;
pub mod heap_entries;
pub mod io;
pub mod iter;
pub mod limits;
pub mod modules;
pub mod pool;
pub mod range;
pub mod repl;
pub mod scheduler;
pub mod session;
pub mod sorting;
pub mod text;
pub mod timedelta;
pub mod timezone;
pub mod type_check;
pub mod value;
pub mod vm;
