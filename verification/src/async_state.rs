//! Coroutines and gather futures stored on the heap.
use vstd::prelude::*;
use crate::value::{HeapId, Value};

verus! {

/// Execution state of a coroutine.
#[derive(Debug, Clone, Copy, PartialEq, Eq, Structural)]
pub enum CoroutineState {
    New,
    Running,
    Completed,
}

/// A coroutine object created by calling an `async def` function.
#[derive(Debug)]
pub struct Coroutine {
    pub func_id: u32,
    pub namespace: Vec<Value>,
    pub state: CoroutineState,
}

/// One awaitable passed to `asyncio.gather()`.
#[derive(Debug, Clone, Copy, PartialEq, Eq, Structural)]
pub enum GatherItem {
    /// A coroutine on the heap (the gather holds a reference to it).
    Coroutine(HeapId),
    /// The future of an external call.
    ExternalFuture(u32),
}

/// The future returned by `asyncio.gather()`: the awaitables, one result slot per
/// awaitable, the external calls and spawned tasks still outstanding, and the task
/// awaiting the gather.
#[derive(Debug)]
pub struct GatherFuture {
    pub items: Vec<GatherItem>,
    pub results: Vec<Option<Value>>,
    pub pending_calls: Vec<u32>,
    pub task_ids: Vec<u32>,
    pub waiter: Option<u32>,
}

} // verus!
