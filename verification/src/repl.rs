//! The parts of the REPL and session state that do not run code: the global
//! namespace (names bound to slots holding values), looking up callable globals,
//! and naming interactive snippets.
use vstd::prelude::*;
use crate::collections::{NameMap, name_map_contents, name_map_entries, name_map_get, name_map_insert, name_map_new};
use crate::exception::{ExcType, RunError, is_error};
use crate::text::{decimal_digits, push_str, push_u64, str_starts_with, str_to_string};
use crate::date::{OsFunction, os_function_name, os_function_name_spec};
use crate::heap::{Heap, dropped_from, lemma_dropped_none, lemma_dropped_step};
use crate::value::{ArgValues, Value};
use crate::scheduler::CallId;
use crate::vm::{ExtFunctionResult, FrameExit, ResumeStep, VM, all_future, frame_base, not_defined_message, not_found_exc, settle_stopped, settled_by, step_outcome};

verus! {

/// Whether a REPL snippet can run now or needs more input.
#[derive(Debug, Clone, Copy, PartialEq, Eq, Structural)]
pub enum ReplContinuationMode {
    /// The snippet is complete and can run.
    Complete,
    /// The snippet is incomplete and needs more lines.
    IncompleteImplicit,
    /// The snippet opened an indented block and waits for a blank line.
    IncompleteBlock,
}

/// How parsing a snippet ended, as far as telling a complete snippet from an
/// unfinished one goes.
pub enum ParseOutcome {
    /// The snippet parsed.
    Parsed,
    /// A parse error described only by its message.
    Message(String),
    /// The input ended inside a token.
    LexicalEof,
    /// A token was expected where the input ended.
    ExpectedTokenAtEnd,
    /// A triple-quoted f-string or t-string was not closed.
    UnterminatedTripleQuote,
    /// Any other parse error.
    OtherError,
}

/// The message that marks a block header without its indented body.
pub open spec fn indented_block_prefix() -> Seq<char> {
    "Expected an indented block after "@
}

/// Whether a snippet can run or needs more lines, from how parsing it ended: an
/// input that ended inside a token, where a token was expected, or inside a
/// triple-quoted string continues implicitly; a block header without its body
/// waits for the block (and a blank line); everything else is complete.
pub fn continuation_mode_for(outcome: &ParseOutcome) -> (r: ReplContinuationMode)
    ensures
        r == match outcome {
            ParseOutcome::Message(m) => if indented_block_prefix().is_prefix_of(m@) {
                ReplContinuationMode::IncompleteBlock
            } else {
                ReplContinuationMode::Complete
            },
            ParseOutcome::LexicalEof | ParseOutcome::ExpectedTokenAtEnd | ParseOutcome::UnterminatedTripleQuote =>
                ReplContinuationMode::IncompleteImplicit,
            ParseOutcome::Parsed | ParseOutcome::OtherError => ReplContinuationMode::Complete,
        },
{
    match outcome {
        ParseOutcome::Message(m) => {
            let prefix = "Expected an indented block after ";
            proof {
                reveal_strlit("Expected an indented block after ");
            }
            if str_starts_with(m.as_str(), prefix) {
                ReplContinuationMode::IncompleteBlock
            } else {
                ReplContinuationMode::Complete
            }
        },
        ParseOutcome::LexicalEof | ParseOutcome::ExpectedTokenAtEnd | ParseOutcome::UnterminatedTripleQuote =>
            ReplContinuationMode::IncompleteImplicit,
        ParseOutcome::Parsed | ParseOutcome::OtherError => ReplContinuationMode::Complete,
    }
}

/// Whether a value can be called: functions, builtins, external and module
/// functions, and heap objects (which may be callable).
pub open spec fn is_callable_spec(v: Value) -> bool {
    v is DefFunction || v is Builtin || v is ExtFunction || v is ModuleFunction || v is Ref
}

/// Whether a value can be called.
pub fn is_callable(v: &Value) -> (r: bool)
    ensures
        r == is_callable_spec(*v),
{
    match v {
        Value::DefFunction(_) | Value::Builtin(_) | Value::ExtFunction(_) | Value::ModuleFunction(_) | Value::Ref(_) => true,
        _ => false,
    }
}

/// The global namespace of a REPL or session: names, their slots, the slot values,
/// and the number of the next interactive snippet.
pub struct Globals {
    name_map: NameMap,
    values: Vec<Value>,
    next_input_id: u64,
}

/// `"'{name}' is not callable"`.
pub open spec fn not_callable_message(name: Seq<char>) -> Seq<char> {
    "'"@ + name + "' is not callable"@
}

/// `"<python-input-{n}>"`.
pub open spec fn input_script_name(n: nat) -> Seq<char> {
    "<python-input-"@ + decimal_digits(n) + ">"@
}

impl Globals {
    /// The slot of each name.
    pub closed spec fn names(&self) -> Map<Seq<char>, usize> {
        name_map_contents(self.name_map)
    }

    /// The slot values.
    pub closed spec fn vals(&self) -> Seq<Value> {
        self.values@
    }

    /// The number the next snippet gets.
    pub closed spec fn next_input(&self) -> u64 {
        self.next_input_id
    }

    /// An empty namespace.
    pub fn new() -> (r: Globals)
        ensures
            r.wf(),
            r.names().is_empty(),
            r.vals().len() == 0,
            r.next_input() == 0,
    {
        Globals { name_map: name_map_new(), values: Vec::new(), next_input_id: 0 }
    }

    /// The slot values.
    pub fn values(&self) -> (r: &Vec<Value>)
        ensures
            r@ == self.vals(),
    {
        &self.values
    }

    /// Stores a value in a slot, returning the value it replaces; `None` (and the
    /// value is handed back) when the slot does not exist.
    pub fn set_slot(&mut self, idx: usize, v: Value) -> (r: Result<Value, Value>)
        ensures
            idx < old(self).vals().len() ==> r == Ok::<Value, Value>(old(self).vals()[idx as int])
                && final(self).vals() == old(self).vals().update(idx as int, v),
            idx >= old(self).vals().len() ==> r == Err::<Value, Value>(v) && final(self).vals() == old(self).vals(),
            final(self).names() == old(self).names(),
            final(self).next_input() == old(self).next_input(),
    {
        if idx >= self.values.len() {
            return Err(v);
        }
        let mut x = v;
        core::mem::swap(&mut self.values[idx], &mut x);
        Ok(x)
    }

    /// The name map is finite.
    pub closed spec fn wf(&self) -> bool {
        self.names().dom().finite()
    }

    /// Binds a name to a slot.
    pub fn bind(&mut self, name: String, slot: usize)
        ensures
            old(self).wf() ==> final(self).wf(),
            final(self).names() == old(self).names().insert(name@, slot),
            final(self).vals() == old(self).vals(),
            final(self).next_input() == old(self).next_input(),
    {
        name_map_insert(&mut self.name_map, name, slot);
    }

    /// Whether `name` names a global slot holding a callable value.
    pub fn has_function(&self, name: &str) -> (r: bool)
        ensures
            r == (self.names().contains_key(name@) && self.names()[name@] < self.vals().len()
                && is_callable_spec(self.vals()[self.names()[name@] as int])),
    {
        match name_map_get(&self.name_map, name) {
            Some(idx) => idx < self.values.len() && is_callable(&self.values[idx]),
            None => false,
        }
    }

    /// The slot of a callable global. NameError when the name is unbound or its slot
    /// is empty; TypeError when its value cannot be called.
    pub fn resolve_callable_slot(&self, name: &str) -> (r: Result<usize, RunError>)
        ensures
            match r {
                Ok(i) => self.names().contains_key(name@) && self.names()[name@] == i && i < self.vals().len()
                    && is_callable_spec(self.vals()[i as int]),
                Err(e) => if !self.names().contains_key(name@) || self.names()[name@] >= self.vals().len()
                    || self.vals()[self.names()[name@] as int] is Undefined {
                    is_error(e, ExcType::NameError, not_defined_message(name@))
                } else {
                    !is_callable_spec(self.vals()[self.names()[name@] as int])
                        && is_error(e, ExcType::TypeError, not_callable_message(name@))
                },
            },
    {
        let idx = match name_map_get(&self.name_map, name) {
            Some(i) => i,
            None => return Err(crate::vm::not_found_exc(name)),
        };
        if idx >= self.values.len() {
            return Err(crate::vm::not_found_exc(name));
        }
        match &self.values[idx] {
            Value::Undefined => return Err(crate::vm::not_found_exc(name)),
            _ => {},
        }
        if !is_callable(&self.values[idx]) {
            let mut m = str_to_string("'");
            push_str(&mut m, name);
            push_str(&mut m, "' is not callable");
            return Err(RunError { exc_type: ExcType::TypeError, message: m });
        }
        Ok(idx)
    }

    /// The names of the globals holding callable values, each once, in no particular
    /// order.
    pub fn function_names(&self) -> (r: Vec<String>)
        requires
            self.wf(),
        ensures
            forall|i: int| 0 <= i < r@.len() ==> self.names().contains_key(#[trigger] r@[i]@)
                && self.names()[r@[i]@] < self.vals().len() && is_callable_spec(self.vals()[self.names()[r@[i]@] as int]),
            forall|k: Seq<char>| #[trigger] self.names().contains_key(k) && self.names()[k] < self.vals().len()
                && is_callable_spec(self.vals()[self.names()[k] as int]) ==> exists|i: int| 0 <= i < r@.len() && r@[i]@ == k,
    {
        let entries = name_map_entries(&self.name_map);
        proof {
            assert forall|j: int| 0 <= j < entries@.len() implies #[trigger] self.names().contains_key(entries@[j].0@)
                && self.names()[entries@[j].0@] == entries@[j].1 by {
                assert(name_map_contents(self.name_map).contains_key(entries@[j].0@));
            }
        }
        let mut out: Vec<String> = Vec::new();
        let mut i: usize = 0;
        while i < entries.len()
            invariant
                i <= entries@.len(),
                entries@.len() == self.names().len(),
                forall|j: int| 0 <= j < entries@.len() ==> #[trigger] self.names().contains_key(entries@[j].0@)
                    && self.names()[entries@[j].0@] == entries@[j].1,
                forall|j: int| 0 <= j < out@.len() ==> self.names().contains_key(#[trigger] out@[j]@)
                    && self.names()[out@[j]@] < self.vals().len() && is_callable_spec(self.vals()[self.names()[out@[j]@] as int]),
                forall|j: int| 0 <= j < i && entries@[j].1 < self.vals().len()
                    && is_callable_spec(self.vals()[entries@[j].1 as int]) ==> exists|x: int| 0 <= x < out@.len() && #[trigger] out@[x]@ == entries@[j].0@,
            decreases entries@.len() - i,
        {
            let idx = entries[i].1;
            let ghost out0 = out@;
            proof {
                assert(self.names().contains_key(entries@[i as int].0@));
            }
            if idx < self.values.len() && is_callable(&self.values[idx]) {
                out.push(entries[i].0.clone());
                proof {
                    assert(out@[out@.len() - 1]@ == entries@[i as int].0@);
                    assert forall|j: int| 0 <= j < out@.len() implies self.names().contains_key(#[trigger] out@[j]@)
                        && self.names()[out@[j]@] < self.vals().len() && is_callable_spec(self.vals()[self.names()[out@[j]@] as int]) by {
                        if j < out0.len() {
                            assert(out@[j] == out0[j]);
                        }
                    }
                }
            }
            proof {
                assert forall|j: int| 0 <= j < i + 1 && entries@[j].1 < self.vals().len()
                    && is_callable_spec(self.vals()[entries@[j].1 as int]) implies exists|x: int| 0 <= x < out@.len() && #[trigger] out@[x]@ == entries@[j].0@ by {
                    if j < i {
                        let x = choose|x: int| 0 <= x < out0.len() && #[trigger] out0[x]@ == entries@[j].0@;
                        assert(out@[x] == out0[x]);
                    } else {
                        assert(out@[out@.len() - 1]@ == entries@[j].0@);
                    }
                }
            }
            i = i + 1;
        }
        proof {
            assert forall|k: Seq<char>| #[trigger] self.names().contains_key(k) && self.names()[k] < self.vals().len()
                && is_callable_spec(self.vals()[self.names()[k] as int]) implies exists|x: int| 0 <= x < out@.len() && out@[x]@ == k by {
                lemma_entry_for_key(entries@, self.names(), k);
                let j = choose|j: int| 0 <= j < entries@.len() && #[trigger] entries@[j].0@ == k;
                assert(self.names().contains_key(entries@[j].0@));
            }
        }
        out
    }

    /// Grows the slot list with empty slots to at least `size` slots.
    pub fn ensure_globals_size(&mut self, size: usize)
        ensures
            final(self).vals().len() == if old(self).vals().len() < size { size as int } else { old(self).vals().len() as int },
            forall|i: int| 0 <= i < old(self).vals().len() ==> #[trigger] final(self).vals()[i] == old(self).vals()[i],
            forall|i: int| old(self).vals().len() <= i < final(self).vals().len() ==> #[trigger] final(self).vals()[i] is Undefined,
            final(self).names() == old(self).names(),
            final(self).next_input() == old(self).next_input(),
    {
        while self.values.len() < size
            invariant
                old(self).vals().len() <= self.vals().len(),
                old(self).vals().len() < size ==> self.vals().len() <= size,
                old(self).vals().len() >= size ==> self.vals().len() == old(self).vals().len(),
                forall|i: int| 0 <= i < old(self).vals().len() ==> #[trigger] self.vals()[i] == old(self).vals()[i],
                forall|i: int| old(self).vals().len() <= i < self.vals().len() ==> #[trigger] self.vals()[i] is Undefined,
                self.names() == old(self).names(),
                self.next_input() == old(self).next_input(),
            decreases size - self.vals().len(),
        {
            self.values.push(Value::Undefined);
        }
    }

    /// The file name of the next interactive snippet, `<python-input-N>`, counting
    /// from 0.
    pub fn next_input_script_name(&mut self) -> (r: String)
        requires
            old(self).next_input() < u64::MAX,
        ensures
            r@ == input_script_name(old(self).next_input() as nat),
            final(self).next_input() == old(self).next_input() + 1,
            final(self).names() == old(self).names(),
            final(self).vals() == old(self).vals(),
    {
        let id = self.next_input_id;
        self.next_input_id = self.next_input_id + 1;
        let mut s = str_to_string("<python-input-");
        push_u64(&mut s, id);
        push_str(&mut s, ">");
        s
    }
}

/// `"External function '{name}' not implemented with standard execution"`.
pub open spec fn external_not_implemented_message(name: Seq<char>) -> Seq<char> {
    "External function '"@ + name + "' not implemented with standard execution"@
}

/// `"OS function '{name}' not implemented with standard execution"`.
pub open spec fn os_not_implemented_message(name: Seq<char>) -> Seq<char> {
    "OS function '"@ + name + "' not implemented with standard execution"@
}

/// `"Method call '{name}' not implemented with standard execution"`.
pub open spec fn method_not_implemented_message(name: Seq<char>) -> Seq<char> {
    "Method call '"@ + name + "' not implemented with standard execution"@
}

/// The error a run without a host gives when the code stopped for something only
/// a host can answer; `None` for a return.
pub open spec fn standard_exit_error(exit: FrameExit) -> Option<(ExcType, Seq<char>)> {
    match exit {
        FrameExit::Return(_) => None,
        FrameExit::ExternalCall { function_name, .. } => Some((ExcType::NotImplementedError, external_not_implemented_message(function_name@))),
        FrameExit::OsCall { function, .. } => Some((ExcType::NotImplementedError, os_not_implemented_message(os_function_name_spec(function)))),
        FrameExit::MethodCall { method_name, .. } => Some((ExcType::NotImplementedError, method_not_implemented_message(method_name@))),
        FrameExit::ResolveFutures(_) => Some((ExcType::NotImplementedError, "async futures not supported by standard execution."@)),
        FrameExit::NameLookup { name, .. } => Some((ExcType::NameError, not_defined_message(name@))),
    }
}

/// The value of a run without a host: a return gives its value, an error stays the
/// error, and a stop for something only a host can answer (an external, OS or
/// method call, pending futures) is NotImplementedError, or NameError for an
/// unknown name. The arguments of a call that is not made are dropped.
pub fn frame_exit_to_object(exit: Result<FrameExit, RunError>, heap: &mut Heap) -> (r: Result<Value, RunError>)
    requires
        old(heap).wf(),
    ensures
        final(heap).wf(),
        match exit {
            Err(e) => r == Err::<Value, RunError>(e) && final(heap)@ == old(heap)@,
            Ok(FrameExit::Return(v)) => r == Ok::<Value, RunError>(v) && final(heap)@ == old(heap)@,
            Ok(x) => r matches Err(e) && standard_exit_error(x) matches Some((t, m)) && is_error(e, t, m),
        },
{
    match exit? {
        FrameExit::Return(v) => Ok(v),
        FrameExit::ExternalCall { function_name, args } => {
            args.drop_with_heap(heap);
            let mut m = str_to_string("External function '");
            push_str(&mut m, function_name.as_str());
            push_str(&mut m, "' not implemented with standard execution");
            Err(RunError { exc_type: ExcType::NotImplementedError, message: m })
        },
        FrameExit::OsCall { function, args } => {
            args.drop_with_heap(heap);
            let mut m = str_to_string("OS function '");
            push_str(&mut m, os_function_name(function));
            push_str(&mut m, "' not implemented with standard execution");
            Err(RunError { exc_type: ExcType::NotImplementedError, message: m })
        },
        FrameExit::MethodCall { method_name, args } => {
            args.drop_with_heap(heap);
            let mut m = str_to_string("Method call '");
            push_str(&mut m, method_name.as_str());
            push_str(&mut m, "' not implemented with standard execution");
            Err(RunError { exc_type: ExcType::NotImplementedError, message: m })
        },
        FrameExit::ResolveFutures(_) => Err(RunError::from_str(ExcType::NotImplementedError, "async futures not supported by standard execution.")),
        FrameExit::NameLookup { name, .. } => Err(not_found_exc(name.as_str())),
    }
}

/// What the host answers for a name the code read.
#[derive(Debug)]
pub enum NameLookupResult {
    /// The name stands for this value.
    Value(Value),
    /// The host does not know the name either.
    Undefined,
}

/// A run paused on a name that nothing defines, waiting for the host's answer.
pub struct ReplNameLookup {
    name: String,
    namespace_slot: u16,
    is_global: bool,
    vm: VM,
}

impl ReplNameLookup {
    /// The name the code read.
    pub closed spec fn looked_up(&self) -> Seq<char> {
        self.name@
    }

    /// The name the code read.
    pub fn name(&self) -> (r: &str)
        ensures
            r@ == self.looked_up(),
    {
        self.name.as_str()
    }

    /// The slot where an answer is cached.
    pub closed spec fn slot(&self) -> u16 {
        self.namespace_slot
    }

    /// Whether the slot is a global one (else a slot of the innermost frame).
    pub closed spec fn global(&self) -> bool {
        self.is_global
    }

    /// The paused VM.
    pub closed spec fn paused(&self) -> VM {
        self.vm
    }

    /// A run paused on `name`, whose answer goes to `namespace_slot`.
    pub fn new(name: String, namespace_slot: u16, is_global: bool, vm: VM) -> (r: ReplNameLookup)
        ensures
            r.looked_up() == name@,
            r.slot() == namespace_slot,
            r.global() == is_global,
            r.paused() == vm,
    {
        ReplNameLookup { name, namespace_slot, is_global, vm }
    }

    /// The paused VM, given up without resuming.
    pub fn into_vm(self) -> (r: VM)
        ensures
            r == self.paused(),
    {
        self.vm
    }

    /// Whether the slot for the answer exists.
    pub open spec fn cache_fits(&self, globals: &Globals) -> bool {
        if self.global() {
            self.slot() < globals.vals().len()
        } else {
            frame_base(self.paused().frames@) + self.slot() < self.paused().stack@.len()
        }
    }

    /// Resumes the run with the host's answer. A value is cached in the slot (the
    /// value it replaces is dropped) and pushed for the code to use; an unknown name
    /// gives the NameError to raise in the code.
    pub fn resume(self, result: NameLookupResult, globals: &mut Globals) -> (r: (VM, Result<(), RunError>))
        requires
            self.paused().heap.wf(),
            result is Value ==> self.cache_fits(old(globals)),
        ensures
            r.0.heap.wf(),
            r.0.scheduler == self.paused().scheduler,
            r.0.frames == self.paused().frames,
            final(globals).names() == old(globals).names(),
            final(globals).next_input() == old(globals).next_input(),
            match result {
                NameLookupResult::Value(v) => {
                    &&& r.1 is Ok
                    &&& if self.global() {
                        &&& final(globals).vals() == old(globals).vals().update(self.slot() as int, v)
                        &&& r.0.stack@ == self.paused().stack@.push(v)
                    } else {
                        &&& final(globals).vals() == old(globals).vals()
                        &&& r.0.stack@ == self.paused().stack@.update(frame_base(self.paused().frames@) + self.slot(), v).push(v)
                    }
                },
                NameLookupResult::Undefined => {
                    &&& r.1 matches Err(e) && is_error(e, ExcType::NameError, not_defined_message(self.looked_up()))
                    &&& r.0 == self.paused()
                    &&& final(globals).vals() == old(globals).vals()
                },
            },
    {
        let ReplNameLookup { name, namespace_slot, is_global, vm } = self;
        let mut vm = vm;
        match result {
            NameLookupResult::Value(v) => {
                let slot = namespace_slot as usize;
                let base = vm.current_stack_base();
                let cached = v.clone_with_heap(&mut vm.heap);
                if is_global {
                    match globals.set_slot(slot, cached) {
                        Ok(prev) => prev.drop_with_heap(&mut vm.heap),
                        Err(unused) => unused.drop_with_heap(&mut vm.heap),
                    }
                } else {
                    let n = vm.stack.len();
                    proof {
                        assert(base + slot < n);
                    }
                    let idx = base + slot;
                    let mut prev = cached;
                    core::mem::swap(&mut vm.stack[idx], &mut prev);
                    prev.drop_with_heap(&mut vm.heap);
                }
                vm.stack.push(v);
                (vm, Ok(()))
            },
            NameLookupResult::Undefined => {
                let e = not_found_exc(name.as_str());
                (vm, Err(e))
            },
        }
    }
}

/// The call ids the host reports, in order.
pub open spec fn reported_ids(results: Seq<(CallId, ExtFunctionResult)>) -> Seq<CallId> {
    results.map_values(|p: (CallId, ExtFunctionResult)| p.0)
}

/// The first of `ids` that is not among `pending`.
pub open spec fn first_unknown(ids: Seq<CallId>, pending: Seq<CallId>) -> Option<CallId>
    decreases ids.len(),
{
    if ids.len() == 0 {
        None
    } else if !pending.contains(ids[0]) {
        Some(ids[0])
    } else {
        first_unknown(ids.drop_first(), pending)
    }
}

/// The items of a list of call ids as `{:?}` writes them: `1, 2, 3`.
pub open spec fn id_list_items(ids: Seq<CallId>) -> Seq<char>
    decreases ids.len(),
{
    if ids.len() == 0 {
        Seq::empty()
    } else if ids.len() == 1 {
        decimal_digits(ids[0] as nat)
    } else {
        id_list_items(ids.drop_last()) + ", "@ + decimal_digits(ids.last() as nat)
    }
}

/// `"unknown call_id {id}, expected one of: [{pending}]"`.
pub open spec fn unknown_call_id_message(id: CallId, pending: Seq<CallId>) -> Seq<char> {
    "unknown call_id "@ + decimal_digits(id as nat) + ", expected one of: ["@ + id_list_items(pending) + "]"@
}

/// Whether a list of call ids holds `x`.
fn contains_id(ids: &Vec<CallId>, x: CallId) -> (r: bool)
    ensures
        r == ids@.contains(x),
{
    let mut i: usize = 0;
    while i < ids.len()
        invariant
            i <= ids@.len(),
            forall|j: int| 0 <= j < i ==> ids@[j] != x,
        decreases ids@.len() - i,
    {
        if ids[i] == x {
            return true;
        }
        i = i + 1;
    }
    false
}

/// Appends the items of a list of call ids, `1, 2, 3`.
fn push_id_list(s: &mut String, ids: &Vec<CallId>)
    ensures
        final(s)@ == old(s)@ + id_list_items(ids@),
{
    let mut i: usize = 0;
    while i < ids.len()
        invariant
            i <= ids@.len(),
            s@ == old(s)@ + id_list_items(ids@.take(i as int)),
        decreases ids@.len() - i,
    {
        let ghost before = s@;
        assert(ids@.take(i + 1).drop_last() == ids@.take(i as int));
        if i > 0 {
            push_str(s, ", ");
        } else {
            assert(ids@.take(0) == Seq::<CallId>::empty());
        }
        push_u64(s, ids[i] as u64);
        i = i + 1;
    }
    assert(ids@.take(ids@.len() as int) == ids@);
}

/// The first reported call id that is not pending, if any.
fn find_unknown_call_id(results: &Vec<(CallId, ExtFunctionResult)>, pending: &Vec<CallId>) -> (r: Option<CallId>)
    ensures
        r == first_unknown(reported_ids(results@), pending@),
{
    let ghost ids = reported_ids(results@);
    assert(ids.skip(0) == ids);
    let mut i: usize = 0;
    while i < results.len()
        invariant
            i <= results@.len(),
            ids == reported_ids(results@),
            first_unknown(ids, pending@) == first_unknown(ids.skip(i as int), pending@),
        decreases results@.len() - i,
    {
        let id = results[i].0;
        assert(ids.skip(i as int)[0] == id);
        if !contains_id(pending, id) {
            return Some(id);
        }
        assert(ids.skip(i as int).drop_first() == ids.skip(i + 1));
        i = i + 1;
    }
    None
}

/// Checks that every call id the host reports is one of the pending ones;
/// RuntimeError naming the first that is not.
pub fn check_call_ids(results: &Vec<(CallId, ExtFunctionResult)>, pending: &Vec<CallId>) -> (r: Result<(), RunError>)
    ensures
        match first_unknown(reported_ids(results@), pending@) {
            None => r is Ok,
            Some(id) => r matches Err(e) && is_error(e, ExcType::RuntimeError, unknown_call_id_message(id, pending@)),
        },
{
    match find_unknown_call_id(results, pending) {
        None => Ok(()),
        Some(id) => {
            let mut m = str_to_string("unknown call_id ");
            push_u64(&mut m, id as u64);
            push_str(&mut m, ", expected one of: [");
            push_id_list(&mut m, pending);
            push_str(&mut m, "]");
            Err(RunError { exc_type: ExcType::RuntimeError, message: m })
        },
    }
}

/// Drops the values of the reported results.
fn drop_reported(results: Vec<(CallId, ExtFunctionResult)>, heap: &mut Heap)
    requires
        old(heap).wf(),
    ensures
        final(heap).wf(),
        final(heap)@.slots.len() == old(heap)@.slots.len(),
        dropped_from(old(heap)@, final(heap)@, reported_values(results@), 0),
{
    let ghost orig = results@;
    let ghost vals = reported_values(orig);
    proof {
        lemma_dropped_none(old(heap)@, vals);
    }
    let mut rest = results;
    while rest.len() > 0
        invariant
            heap.wf(),
            heap@.slots.len() == old(heap)@.slots.len(),
            vals == reported_values(orig),
            rest@.len() <= orig.len(),
            rest@ == orig.take(rest@.len() as int),
            dropped_from(old(heap)@, heap@, vals, rest@.len() as int),
        decreases rest@.len(),
    {
        let ghost before = heap@;
        let (id, res) = rest.pop().unwrap();
        proof {
            assert((id, res) == orig[rest@.len() as int]);
            assert(rest@ == orig.take(rest@.len() as int));
        }
        if let ExtFunctionResult::Return(v) = res {
            v.drop_with_heap(heap);
        }
        proof {
            lemma_dropped_step(old(heap)@, before, heap@, vals, rest@.len() as int);
        }
    }
}

/// The values the host reported, result by result: what a call returned, and `None`
/// for the other reports, which hold no value.
pub open spec fn reported_values(results: Seq<(CallId, ExtFunctionResult)>) -> Seq<Value> {
    Seq::new(results.len(), |i: int| match results[i].1 {
        ExtFunctionResult::Return(v) => v,
        _ => Value::NoneValue,
    })
}

/// A run blocked until the host resolves external calls.
pub struct ReplResolveFutures {
    vm: VM,
    pending_call_ids: Vec<CallId>,
}

impl ReplResolveFutures {
    /// The paused VM.
    pub closed spec fn paused(&self) -> VM {
        self.vm
    }

    /// The calls the host is expected to resolve.
    pub closed spec fn pending(&self) -> Seq<CallId> {
        self.pending_call_ids@
    }

    /// A run blocked on the calls `pending_call_ids`.
    pub fn new(vm: VM, pending_call_ids: Vec<CallId>) -> (r: ReplResolveFutures)
        ensures
            r.paused() == vm,
            r.pending() == pending_call_ids@,
    {
        ReplResolveFutures { vm, pending_call_ids }
    }

    /// The paused VM, given up without resuming.
    pub fn into_vm(self) -> (r: VM)
        ensures
            r == self.paused(),
    {
        self.vm
    }

    /// The calls the host is expected to resolve.
    pub fn pending_call_ids(&self) -> (r: &Vec<CallId>)
        ensures
            r@ == self.pending(),
    {
        &self.pending_call_ids
    }

    /// Resumes the run with results for some of the pending calls (the others can be
    /// resolved by a later resume). A reported id that is not pending is an error and
    /// nothing is settled; otherwise the calls are settled and the VM decides what
    /// runs next (see [`VM::resume_with_resolved_futures`]).
    pub fn resume(self, results: Vec<(CallId, ExtFunctionResult)>) -> (r: (VM, Result<ResumeStep, RunError>))
        requires
            self.paused().heap.wf(),
            self.paused().scheduler.wf(),
        ensures
            r.0.heap.wf(),
            r.0.scheduler.wf(),
            match first_unknown(reported_ids(results@), self.pending()) {
                Some(id) => {
                    &&& r.1 matches Err(e) && is_error(e, ExcType::RuntimeError, unknown_call_id_message(id, self.pending()))
                    &&& r.0.scheduler == self.paused().scheduler
                    &&& r.0.stack == self.paused().stack
                    &&& r.0.frames == self.paused().frames
                },
                None => {
                    &&& all_future(results@) ==> step_outcome(self.paused(), r.0, r.1)
                    &&& ({
                        ||| exists|mid: VM| #[trigger] settled_by(self.paused(), mid, results@) && step_outcome(mid, r.0, r.1)
                        ||| exists|k: int, mid: VM| 0 <= k < results@.len() && #[trigger] settled_by(self.paused(), mid, results@.take(k))
                            && settle_stopped(mid, results@[k], r.1)
                    })
                },
            },
    {
        let ReplResolveFutures { vm, pending_call_ids } = self;
        let mut vm = vm;
        match check_call_ids(&results, &pending_call_ids) {
            Err(e) => {
                drop_reported(results, &mut vm.heap);
                (vm, Err(e))
            },
            Ok(()) => {
                let r = vm.resume_with_resolved_futures(results);
                (vm, r)
            },
        }
    }
}

/// Where a REPL snippet stands when its frame exits. A finished snippet (`Complete`
/// or `Error`) carries the session's names with what the snippet compiled committed;
/// a paused one carries the session's names as they were, the paused VM, and the
/// names the snippet compiled with, to be committed when it finishes.
pub enum ReplProgress {
    /// The snippet returned `value`.
    Complete { names: Globals, value: Value },
    /// The snippet called an external function (or a method of a host object).
    FunctionCall { function_name: String, args: ArgValues, method_call: bool, vm: VM, names: Globals, compiled: Globals },
    /// The snippet called an operating-system function.
    OsCall { function: OsFunction, args: ArgValues, vm: VM, names: Globals, compiled: Globals },
    /// Every task waits on external calls.
    ResolveFutures { waiting: ReplResolveFutures, names: Globals, compiled: Globals },
    /// The snippet read a name that nothing defines.
    NameLookup { lookup: ReplNameLookup, names: Globals, compiled: Globals },
    /// The snippet raised `error`.
    Error { names: Globals, error: RunError },
}

/// Turns how a snippet's frame exited into REPL progress. `names` are the session's
/// names before the snippet, `compiled` those the snippet was compiled with: they
/// become the session's names when the snippet returns or raises, and are kept
/// aside, with the paused VM, when it pauses on an external call, an
/// operating-system call, unresolved futures or an unknown name.
pub fn build_repl_progress(exit: Result<FrameExit, RunError>, vm: VM, names: Globals, compiled: Globals) -> (r: ReplProgress)
    ensures
        match exit {
            Ok(FrameExit::Return(v)) => r == (ReplProgress::Complete { names: compiled, value: v }),
            Ok(FrameExit::ExternalCall { function_name, args }) =>
                r == (ReplProgress::FunctionCall { function_name, args, method_call: false, vm, names, compiled }),
            Ok(FrameExit::MethodCall { method_name, args }) =>
                r == (ReplProgress::FunctionCall { function_name: method_name, args, method_call: true, vm, names, compiled }),
            Ok(FrameExit::OsCall { function, args }) => r == (ReplProgress::OsCall { function, args, vm, names, compiled }),
            Ok(FrameExit::ResolveFutures(ids)) => (r matches ReplProgress::ResolveFutures { waiting, names: n, compiled: c }
                && waiting.paused() == vm && waiting.pending() == ids@ && n == names && c == compiled),
            Ok(FrameExit::NameLookup { name, namespace_slot, is_global }) => (r matches ReplProgress::NameLookup { lookup, names: n, compiled: c }
                && lookup.looked_up() == name@ && lookup.slot() == namespace_slot && lookup.global() == is_global
                && lookup.paused() == vm && n == names && c == compiled),
            Err(e) => r == (ReplProgress::Error { names: compiled, error: e }),
        },
{
    match exit {
        Ok(FrameExit::Return(v)) => ReplProgress::Complete { names: compiled, value: v },
        Ok(FrameExit::ExternalCall { function_name, args }) =>
            ReplProgress::FunctionCall { function_name, args, method_call: false, vm, names, compiled },
        Ok(FrameExit::MethodCall { method_name, args }) =>
            ReplProgress::FunctionCall { function_name: method_name, args, method_call: true, vm, names, compiled },
        Ok(FrameExit::OsCall { function, args }) => ReplProgress::OsCall { function, args, vm, names, compiled },
        Ok(FrameExit::ResolveFutures(ids)) =>
            ReplProgress::ResolveFutures { waiting: ReplResolveFutures::new(vm, ids), names, compiled },
        Ok(FrameExit::NameLookup { name, namespace_slot, is_global }) =>
            ReplProgress::NameLookup { lookup: ReplNameLookup::new(name, namespace_slot, is_global, vm), names, compiled },
        Err(e) => ReplProgress::Error { names: compiled, error: e },
    }
}

/// Every key of a map whose entries a list holds appears in the list.
proof fn lemma_entry_for_key(entries: Seq<(String, usize)>, names: Map<Seq<char>, usize>, k: Seq<char>)
    requires
        entries.len() == names.len(),
        names.dom().finite(),
        names.contains_key(k),
        forall|j: int| 0 <= j < entries.len() ==> #[trigger] names.contains_key(entries[j].0@),
        forall|i: int| #![trigger entries[i]] 0 <= i < entries.len() ==> (forall|j: int| #![trigger entries[j]] i < j < entries.len() ==> entries[j].0@ != entries[i].0@),
    ensures
        exists|j: int| 0 <= j < entries.len() && #[trigger] entries[j].0@ == k,
{
    let keys = Seq::new(entries.len(), |j: int| entries[j].0@);
    if !(exists|j: int| 0 <= j < entries.len() && #[trigger] entries[j].0@ == k) {
        assert(keys.to_set().subset_of(names.dom().remove(k))) by {
            assert forall|x: Seq<char>| keys.to_set().contains(x) implies names.dom().remove(k).contains(x) by {
                let j = choose|j: int| 0 <= j < keys.len() && keys[j] == x;
                assert(names.contains_key(entries[j].0@));
            }
        }
        assert(keys.no_duplicates()) by {
            assert forall|i: int, j: int| 0 <= i < keys.len() && 0 <= j < keys.len() && i != j implies keys[i] != keys[j] by {
                if i < j {
                    assert(entries[i].0@ != entries[j].0@);
                } else {
                    assert(entries[j].0@ != entries[i].0@);
                }
            }
        }
        keys.unique_seq_to_set();
        vstd::set_lib::lemma_len_subset(keys.to_set(), names.dom().remove(k));
        assert(false);
    }
}

} // verus!
