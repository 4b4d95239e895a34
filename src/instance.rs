use vstd::prelude::*;

use crate::asc::{
    asc_get_bytes, asc_get_string, asc_new_bytes, asc_new_string, bytes_at, bytes_round_trip,
    encode_string, holds_at, string_at, utf16_of, AscError,
};
use crate::bigint::{
    abs, base58, base58_of, big_add, big_div, big_magnitude_hex, big_mul, big_pow, big_rem, big_sub, big_to_decimal,
    is_zero, keccak256, keccak256_of, parse_big_int, parsed_big_int, power, signed_le, signed_len,
    trunc_div, trunc_rem,
};
use crate::entity::Entity;
use crate::entity::StoreValue;
use crate::entity_abi::{asc_new_entity, entity_at, entity_image, entity_image_len, store_value_obj, value_at};
use crate::heap::{AscHeap, GuestAllocator, HeapError, MAX_OBJECT_SIZE};
use crate::host::{contains_string, listed, MappingContext, PoiEvent, PoiEventView, Trap};
use crate::module::{ValidModule, ValidationError};
use crate::state::{op_view, BlockState, EntityKey};
use crate::text::{
    abort_message, abort_text, address_from_hex, bytes_to_string, decimal_of, hex_decoded,
    hex_digits_of, hex_with_prefix, lossy_utf8, lower_hex, parse_i64, parse_u64, parsed_i64, parsed_u64, strip_0x,
    trim_zeros,
};
use crate::ethereum::{
    block_obj, block_tree, call_obj, call_tree, event_obj, event_tree, EthereumBlockData, EthereumCallData,
    EthereumLogData, lemma_record, record_slots, stands_for, tokens_obj, tokens_tree, Token, UnresolvedContractCall,
    EthereumTransactionData, LogParam,
};
use crate::json::{json_parses, json_text_tree, json_tree, JSON_TREE_DEPTH, MAX_JSON_DEPTH};
use crate::layout::{asc_new_tree, obj_image, obj_size, tree_obj, Obj, Tree};
use crate::call_abi::{asc_get_contract_call, contract_call_at, contract_call_readable};
use crate::version::{
    at_least, call_layout, contract_call_layout, event_layout, ApiVersion, CallLayout, ContractCallLayout, EventLayout,
};

verus! {

/// Why a request produced no block state.
#[derive(Debug)]
pub enum MappingError {
    /// The module was refused.
    Validation(ValidationError),
    /// The engine could not link or instantiate the module.
    Instantiation(String),
    /// The instance does not export something the runtime needs.
    MissingExport(String),
    /// The instance does not export the handler that the trigger names.
    HandlerMissing(String),
    /// The handler trapped.
    Trap(Trap),
}

/// The event that a handler is called for, with the name of the handler.
#[derive(Debug)]
pub enum MappingTrigger {
    Log {
        handler: String,
        transaction: EthereumTransactionData,
        log: EthereumLogData,
        params: Vec<LogParam>,
    },
    Call {
        handler: String,
        transaction: EthereumTransactionData,
        call: EthereumCallData,
        inputs: Vec<LogParam>,
        outputs: Vec<LogParam>,
    },
    Block { handler: String },
}

impl MappingTrigger {
    pub open spec fn handler_name(&self) -> Seq<char> {
        match self {
            MappingTrigger::Log { handler, .. } => handler@,
            MappingTrigger::Call { handler, .. } => handler@,
            MappingTrigger::Block { handler, .. } => handler@,
        }
    }

    /// The name of the handler to invoke.
    pub fn handler(&self) -> (r: &String)
        ensures
            r@ == self.handler_name(),
    {
        match self {
            MappingTrigger::Log { handler, .. } => handler,
            MappingTrigger::Call { handler, .. } => handler,
            MappingTrigger::Block { handler, .. } => handler,
        }
    }
}

/// A request to run one trigger's handler against a context.
#[derive(Debug)]
pub struct MappingRequest {
    pub ctx: MappingContext,
    pub trigger: MappingTrigger,
}

/// How the handler's argument is laid out for the guest.
#[derive(Debug, Clone, Copy, PartialEq, Eq, Structural)]
pub enum ArgumentLayout {
    Event(EventLayout),
    Call(CallLayout),
    Block,
}

/// The layout of the argument for `trigger` under api version `v`.
pub open spec fn layout_for(trigger: MappingTrigger, v: ApiVersion) -> ArgumentLayout {
    match trigger {
        MappingTrigger::Log { .. } => ArgumentLayout::Event(
            if at_least(v, 0, 0, 2) {
                EventLayout::WithTransactionDetails
            } else {
                EventLayout::Legacy
            },
        ),
        MappingTrigger::Call { .. } => ArgumentLayout::Call(
            if at_least(v, 0, 0, 3) {
                CallLayout::WithDetails
            } else {
                CallLayout::Legacy
            },
        ),
        MappingTrigger::Block { .. } => ArgumentLayout::Block,
    }
}

/// The guest object that `trigger`'s handler receives in `block` under api
/// version `v`.
pub open spec fn trigger_obj(block: EthereumBlockData, trigger: MappingTrigger, v: ApiVersion) -> Obj {
    match trigger {
        MappingTrigger::Log { transaction, log, params, .. } => event_obj(
            block,
            transaction,
            log,
            params@,
            at_least(v, 0, 0, 2),
        ),
        MappingTrigger::Call { transaction, call, inputs, outputs, .. } => call_obj(
            block,
            transaction,
            call,
            inputs@,
            outputs@,
            at_least(v, 0, 0, 3),
        ),
        MappingTrigger::Block { .. } => block_obj(block),
    }
}

proof fn lemma_obj_size_positive(o: Obj)
    requires
        o matches Obj::Record(cs) && cs.len() > 0,
    ensures
        obj_size(o, ARGUMENT_DEPTH as nat) > 0,
{
}

/// The depth to which a handler's argument is laid out.
pub const ARGUMENT_DEPTH: usize = 5;

/// A handler to call, and how its argument is laid out.
#[derive(Debug)]
pub struct HandlerCall {
    pub handler: String,
    pub layout: ArgumentLayout,
}

/// The level of a guest log message.
#[derive(Debug, Clone, Copy, PartialEq, Eq, Structural)]
pub enum LogLevel {
    Error,
    Warning,
    Info,
    Debug,
}

/// The level of `log.log`: 1 is error, 2 warning, 3 info, 4 debug; any other
/// value is info.
pub open spec fn log_level_of(level: i32) -> LogLevel {
    if level == 1 {
        LogLevel::Error
    } else if level == 2 {
        LogLevel::Warning
    } else if level == 4 {
        LogLevel::Debug
    } else {
        LogLevel::Info
    }
}

/// Maps the level that the guest gives to a log level.
pub fn log_level(level: i32) -> (r: LogLevel)
    ensures
        r == log_level_of(level),
{
    match level {
        1 => LogLevel::Error,
        2 => LogLevel::Warning,
        4 => LogLevel::Debug,
        _ => LogLevel::Info,
    }
}

/// `None` for zero, which the guest uses for an unknown position.
pub open spec fn nonzero(n: i32) -> Option<i32> {
    if n == 0 {
        None
    } else {
        Some(n)
    }
}

/// The optional string at `p`: `Some(None)` for the null pointer, `None`
/// where no string can be read there.
pub open spec fn optional_string_at(mem: Seq<u8>, p: u32) -> Option<Option<Seq<char>>> {
    if p == 0 {
        Some(None)
    } else {
        match string_at(mem, p as int) {
            Some(s) => Some(Some(s)),
            None => None,
        }
    }
}

/// An arithmetic operation on two big integers.
#[derive(Debug, Clone, Copy, PartialEq, Eq, Structural)]
pub enum BigIntOp {
    Plus,
    Minus,
    Times,
    DividedBy,
    Mod,
}

/// The value of `op` on `a` and `b`; `None` for a division by zero.
pub open spec fn big_int_result(op: BigIntOp, a: int, b: int) -> Option<int> {
    match op {
        BigIntOp::Plus => Some(a + b),
        BigIntOp::Minus => Some(a - b),
        BigIntOp::Times => Some(a * b),
        BigIntOp::DividedBy => if b == 0 {
            None
        } else {
            Some(trunc_div(a, b))
        },
        BigIntOp::Mod => if b == 0 {
            None
        } else {
            Some(trunc_rem(a, b))
        },
    }
}

/// The big integer stored at `p`, if its bytes lie in memory.
pub open spec fn big_int_at(mem: Seq<u8>, p: int) -> Option<int> {
    match bytes_at(mem, p) {
        Some(b) => Some(signed_le(b)),
        None => None,
    }
}

/// The trap of a failed placement of a `len`-byte object on `before`: too
/// large only beyond `MAX_OBJECT_SIZE`, and a failed allocation only where
/// the current slab had no room, so the guest's allocator was asked.
pub open spec fn placement_trap(t: Trap, len: nat, before: AscHeap) -> bool {
    t matches Trap::Memory(AscError::Heap(e)) && (e == HeapError::TooLarge && len > MAX_OBJECT_SIZE
        || e == HeapError::AllocationFailed && len > before.arena_free_size)
}

/// A placement in guest memory failed.
pub open spec fn placement_failed(t: Trap) -> bool {
    t matches Trap::Memory(AscError::Heap(e)) && (e == HeapError::TooLarge || e == HeapError::AllocationFailed)
}

/// The result object of `json.try_fromBytes` for text that is not JSON: no
/// value, and an error arm that wraps `true`.
pub open spec fn json_error_obj() -> Obj {
    Obj::Record(seq![Obj::Null, Obj::Record(seq![Obj::Word(1)])])
}

proof fn lemma_json_error_tree(arms: Vec<Tree>, w: Vec<Tree>)
    requires
        arms@.len() == 2,
        arms@[0] == Tree::Null,
        arms@[1] == Tree::Record(w),
        w@.len() == 1,
        w@[0] == Tree::Word(1),
    ensures
        tree_obj(Tree::Record(arms), 3) == json_error_obj(),
{
    assert(stands_for(w@[0], Obj::Word(1), 1));
    lemma_record(w, seq![Obj::Word(1)], 1);
    assert(stands_for(arms@[0], Obj::Null, 2));
    lemma_record(arms, seq![Obj::Null, Obj::Record(seq![Obj::Word(1)])], 2);
    assert(stands_for(Tree::Record(arms), json_error_obj(), 3));
}

/// The size of a string's guest layout.
pub open spec fn string_len(s: Seq<char>) -> nat {
    2 * utf16_of(s).len() + 4
}

/// What a host function that writes the byte array `image` leaves: a pointer
/// to it, or a failed placement; the context and exports are untouched.
pub open spec fn wrote_bytes(before: WasmiModule, after: WasmiModule, b: Seq<u8>, r: Result<u32, Trap>) -> bool {
    &&& after.heap.wf()
    &&& after.ctx == before.ctx
    &&& after.exports == before.exports
    &&& match r {
        Ok(p) => bytes_at(after.heap.memory@, p as int) == Some(b),
        Err(t) => placement_trap(t, b.len() + 4, before.heap),
    }
}

/// What a big-integer host function leaves: the result written as a new
/// big integer; a trap for a division by zero or an argument that cannot be
/// read, with nothing changed.
pub open spec fn big_int_outcome(
    before: WasmiModule,
    after: WasmiModule,
    op: BigIntOp,
    x_ptr: u32,
    y_ptr: u32,
    r: Result<u32, Trap>,
) -> bool {
    &&& after.heap.wf()
    &&& after.ctx == before.ctx
    &&& after.exports == before.exports
    &&& match (bytes_at(before.heap.memory@, x_ptr as int), bytes_at(before.heap.memory@, y_ptr as int)) {
        (Some(a), Some(b)) => match big_int_result(op, signed_le(a), signed_le(b)) {
            None => r matches Err(Trap::DivisionByZero) && after == before,
            Some(v) => match r {
                Ok(p) => big_int_at(after.heap.memory@, p as int) == Some(v),
                Err(t) => placement_trap(t, signed_len(v) + 4, before.heap),
            },
        },
        _ => r matches Err(t) && t is Memory && after == before,
    }
}

/// The array at `p` and each string it points to can be read.
pub open spec fn params_readable(mem: Seq<u8>, p: u32) -> bool {
    &&& crate::asc::ptrs_at(mem, p as int) is Some
    &&& forall|i: int| 0 <= i < crate::asc::ptrs_at(mem, p as int)->0.len() ==> (#[trigger] string_at(mem, crate::asc::ptrs_at(mem, p as int)->0[i] as int)) is Some
}

/// What `ipfs.map` asks for: the link to stream, the callback to run on
/// each JSON value, the value handed to every run, and the flags.
#[derive(Debug)]
pub struct IpfsMapRequest {
    pub link: String,
    pub callback: String,
    pub user_data: StoreValue,
    pub flags: Vec<String>,
}

/// An instance of a validated module bound to one request's context: the
/// guest's exports, its memory with the host's arena, and the context.
pub struct WasmiModule {
    pub ctx: MappingContext,
    pub heap: AscHeap,
    pub exports: Vec<String>,
    pub user_module: String,
}

impl WasmiModule {
    pub open spec fn wf(&self) -> bool {
        self.ctx.wf() && self.heap.wf()
    }

    /// Binds an instantiated module, with the names it exports and its
    /// memory, to `ctx`. The module must export its memory and its allocator.
    pub fn from_valid_module_with_ctx(
        valid_module: &ValidModule,
        ctx: MappingContext,
        exports: Vec<String>,
        memory: Vec<u8>,
    ) -> (r: Result<WasmiModule, MappingError>)
        requires
            ctx.wf(),
        ensures
            (r is Ok) == (listed(exports@, "memory"@) && listed(exports@, "memory.allocate"@)),
            r matches Err(e) ==> e matches MappingError::MissingExport(n) && (
                n@ == "memory"@ && !listed(exports@, "memory"@)
                || n@ == "memory.allocate"@ && !listed(exports@, "memory.allocate"@)),
            r matches Ok(m) ==> {
                &&& m.wf()
                &&& m.ctx == ctx
                &&& m.exports == exports
                &&& m.heap.memory@ == memory@
                &&& m.heap.arena_start_ptr == 0
                &&& m.heap.arena_free_size == 0
                &&& m.user_module@ == valid_module.user_module@
            },
    {
        let mem_name = String::from_str("memory");
        if !contains_string(&exports, &mem_name) {
            return Err(MappingError::MissingExport(mem_name));
        }
        let alloc_name = String::from_str("memory.allocate");
        if !contains_string(&exports, &alloc_name) {
            return Err(MappingError::MissingExport(alloc_name));
        }
        Ok(WasmiModule {
            ctx,
            heap: AscHeap::new(memory),
            exports,
            user_module: valid_module.user_module.clone(),
        })
    }

    /// Resolves the handler that `trigger` names and the layout of its
    /// argument. A handler that the module does not export is an error, and
    /// nothing changes.
    pub fn prepare_handler(&self, trigger: &MappingTrigger) -> (r: Result<HandlerCall, MappingError>)
        ensures
            (r is Ok) == listed(self.exports@, trigger.handler_name()),
            r matches Ok(c) ==> c.handler@ == trigger.handler_name() && c.layout == layout_for(
                *trigger,
                self.ctx.host_exports.api_version,
            ),
            r matches Err(e) ==> e matches MappingError::HandlerMissing(n) && n@ == trigger.handler_name(),
    {
        let name = trigger.handler();
        if !contains_string(&self.exports, name) {
            return Err(MappingError::HandlerMissing(name.clone()));
        }
        let v = &self.ctx.host_exports.api_version;
        let layout = match trigger {
            MappingTrigger::Log { .. } => ArgumentLayout::Event(event_layout(v)),
            MappingTrigger::Call { .. } => ArgumentLayout::Call(call_layout(v)),
            MappingTrigger::Block { .. } => ArgumentLayout::Block,
        };
        Ok(HandlerCall { handler: name.clone(), layout })
    }

    /// `handle_ethereum_log`, `handle_ethereum_call` and
    /// `handle_ethereum_block`: resolves the handler that `trigger` names and
    /// writes its argument, the event, call or block in the layout that the
    /// api version selects. Returns the handler to call and the argument's
    /// pointer; a handler that the module does not export changes nothing.
    pub fn handle_trigger<A: GuestAllocator>(&mut self, alloc: &mut A, trigger: &MappingTrigger) -> (r: Result<
        (HandlerCall, u32),
        MappingError,
    >)
        requires
            old(self).heap.wf(),
            match trigger {
                MappingTrigger::Log { params, .. } => params@.len() <= u32::MAX,
                MappingTrigger::Call { inputs, outputs, .. } => inputs@.len() <= u32::MAX && outputs@.len() <= u32::MAX,
                MappingTrigger::Block { .. } => true,
            },
        ensures
            final(self).heap.wf(),
            final(self).ctx == old(self).ctx,
            final(self).exports == old(self).exports,
            !listed(old(self).exports@, trigger.handler_name()) ==> (r matches Err(e) && e matches MappingError::HandlerMissing(
                n,
            ) && n@ == trigger.handler_name() && *final(self) == *old(self)),
            listed(old(self).exports@, trigger.handler_name()) ==> match r {
                Ok((c, p)) => {
                    &&& c.handler@ == trigger.handler_name()
                    &&& c.layout == layout_for(*trigger, old(self).ctx.host_exports.api_version)
                    &&& p != 0
                    &&& holds_at(
                        final(self).heap.memory@,
                        p as int,
                        obj_image(
                            trigger_obj(old(self).ctx.block, *trigger, old(self).ctx.host_exports.api_version),
                            p as int,
                            ARGUMENT_DEPTH as nat,
                        ),
                    )
                },
                Err(e) => e matches MappingError::Trap(t) && placement_trap(
                    t,
                    obj_size(
                        trigger_obj(old(self).ctx.block, *trigger, old(self).ctx.host_exports.api_version),
                        ARGUMENT_DEPTH as nat,
                    ),
                    old(self).heap,
                ),
            },
    {
        let call = self.prepare_handler(trigger)?;
        let v = &self.ctx.host_exports.api_version;
        let tree = match trigger {
            MappingTrigger::Log { transaction, log, params, .. } => event_tree(
                &self.ctx.block,
                transaction,
                log,
                params,
                v.at_least(0, 0, 2),
            ),
            MappingTrigger::Call { transaction, call, inputs, outputs, .. } => call_tree(
                &self.ctx.block,
                transaction,
                call,
                inputs,
                outputs,
                v.at_least(0, 0, 3),
            ),
            MappingTrigger::Block { .. } => block_tree(&self.ctx.block),
        };
        let ghost o = trigger_obj(self.ctx.block, *trigger, self.ctx.host_exports.api_version);
        assert(tree_obj(tree, ARGUMENT_DEPTH as nat) == o);
        match asc_new_tree(&mut self.heap, alloc, &tree, ARGUMENT_DEPTH) {
            Ok(p) => {
                proof {
                    lemma_obj_size_positive(o);
                }
                Ok((call, p))
            },
            Err(e) => Err(MappingError::Trap(Trap::Memory(e))),
        }
    }

    /// `ipfs.map`, first part: the link, callback name, user data and flags
    /// read from guest memory.
    pub fn ipfs_map_request(&self, link_ptr: u32, callback_ptr: u32, user_data_ptr: u32, flags_ptr: u32) -> (r: Result<
        IpfsMapRequest,
        Trap,
    >)
        ensures
            (string_at(self.heap.memory@, link_ptr as int) is Some && string_at(self.heap.memory@, callback_ptr as int) is Some
                && value_at(self.heap.memory@, user_data_ptr as int) is Some && params_readable(self.heap.memory@, flags_ptr))
                ==> r is Ok,
            r matches Ok(q) ==> {
                &&& string_at(self.heap.memory@, link_ptr as int) == Some(q.link@)
                &&& string_at(self.heap.memory@, callback_ptr as int) == Some(q.callback@)
                &&& value_at(self.heap.memory@, user_data_ptr as int) == Some(q.user_data@)
                &&& crate::asc::ptrs_at(self.heap.memory@, flags_ptr as int) matches Some(ps) && ps.len() == q.flags@.len()
                    && forall|j: int| 0 <= j < ps.len() ==> string_at(self.heap.memory@, ps[j] as int) == Some(#[trigger] q.flags@[j]@)
            },
            r matches Err(t) ==> t is Memory,
    {
        let link = match asc_get_string(&self.heap, link_ptr) {
            Ok(x) => x,
            Err(e) => {
                return Err(Trap::Memory(e));
            },
        };
        let callback = match asc_get_string(&self.heap, callback_ptr) {
            Ok(x) => x,
            Err(e) => {
                return Err(Trap::Memory(e));
            },
        };
        let user_data = match crate::entity_abi::asc_get_value(&self.heap, user_data_ptr) {
            Ok(x) => x,
            Err(e) => {
                return Err(Trap::Memory(e));
            },
        };
        let flags = match self.string_array(flags_ptr) {
            Ok(x) => x,
            Err(t) => {
                assert(!params_readable(self.heap.memory@, flags_ptr)) by {
                    if params_readable(self.heap.memory@, flags_ptr) {
                        let ps = crate::asc::ptrs_at(self.heap.memory@, flags_ptr as int)->0;
                        let i = choose|i: int| 0 <= i < ps.len() && string_at(self.heap.memory@, ps[i] as int) is None;
                        assert(string_at(self.heap.memory@, crate::asc::ptrs_at(self.heap.memory@, flags_ptr as int)->0[i] as int) is Some);
                    }
                }
                return Err(t);
            },
        };
        Ok(IpfsMapRequest { link, callback, user_data, flags })
    }

    /// `ipfs.map`, for each value: resolves the callback and writes its two
    /// arguments, the JSON value and the user data. A callback that the
    /// module does not export changes nothing.
    pub fn handle_json_callback<A: GuestAllocator>(
        &mut self,
        alloc: &mut A,
        handler: &String,
        value: &serde_json::Value,
        user_data: &StoreValue,
    ) -> (r: Result<(u32, u32), MappingError>)
        requires
            old(self).heap.wf(),
        ensures
            final(self).heap.wf(),
            final(self).ctx == old(self).ctx,
            !listed(old(self).exports@, handler@) ==> (r matches Err(e) && e matches MappingError::HandlerMissing(n)
                && n@ == handler@ && *final(self) == *old(self)),
            r matches Ok((v, u)) ==> v != 0 && u != 0 && holds_at(
                final(self).heap.memory@,
                u as int,
                obj_image(store_value_obj(user_data@), u as int, 2),
            ),
            r matches Err(e) ==> (e is HandlerMissing || (e matches MappingError::Trap(t) && (t is InvalidJson
                || placement_failed(t)))),
    {
        if !contains_string(&self.exports, handler) {
            return Err(MappingError::HandlerMissing(handler.clone()));
        }
        let value_tree = match json_tree(value, MAX_JSON_DEPTH) {
            Some(t) => t,
            None => {
                return Err(MappingError::Trap(Trap::InvalidJson));
            },
        };
        let v = match asc_new_tree(&mut self.heap, alloc, &value_tree, JSON_TREE_DEPTH) {
            Ok(p) => p,
            Err(e) => {
                return Err(MappingError::Trap(Trap::Memory(e)));
            },
        };
        let user_tree = crate::entity_abi::store_value_tree(user_data);
        assert(tree_obj(user_tree, 2) == store_value_obj(user_data@));
        let u = match asc_new_tree(&mut self.heap, alloc, &user_tree, 2) {
            Ok(p) => p,
            Err(e) => {
                return Err(MappingError::Trap(Trap::Memory(e)));
            },
        };
        Ok((v, u))
    }

    /// Ends a callback run: the context as the callback left it, or its trap.
    pub fn finish_callback(self, outcome: Result<(), Trap>) -> (r: Result<MappingContext, MappingError>)
        ensures
            outcome is Ok ==> (r matches Ok(c) && c == self.ctx),
            outcome is Err ==> (r matches Err(e) && e matches MappingError::Trap(t) && t == outcome->Err_0),
    {
        match outcome {
            Ok(()) => Ok(self.ctx),
            Err(t) => Err(MappingError::Trap(t)),
        }
    }

    /// Ends a request: the block state built when the handler returned, or
    /// its trap, with nothing of the state that a trapping handler left.
    pub fn finish(self, outcome: Result<(), Trap>) -> (r: Result<BlockState, MappingError>)
        ensures
            outcome is Ok ==> (r matches Ok(s) && s == self.ctx.state),
            outcome is Err ==> (r matches Err(e) && e matches MappingError::Trap(t) && t == outcome->Err_0),
    {
        match outcome {
            Ok(()) => Ok(self.ctx.state),
            Err(t) => Err(MappingError::Trap(t)),
        }
    }

    /// `typeConversion.bytesToHex`: the bytes at `bytes_ptr` as `0x` and two
    /// lowercase hexadecimal digits per byte, written as a new string.
    pub fn bytes_to_hex<A: GuestAllocator>(&mut self, alloc: &mut A, bytes_ptr: u32) -> (r: Result<u32, Trap>)
        requires
            old(self).heap.wf(),
        ensures
            final(self).heap.wf(),
            final(self).ctx == old(self).ctx,
            final(self).exports == old(self).exports,
            match bytes_at(old(self).heap.memory@, bytes_ptr as int) {
                None => r matches Err(Trap::Memory(AscError::Heap(HeapError::OutOfBounds))),
                Some(b) => match r {
                    Ok(p) => holds_at(final(self).heap.memory@, p as int, encode_string("0x"@ + lower_hex(b))),
                    Err(t) => placement_trap(t, string_len("0x"@ + lower_hex(b)), old(self).heap),
                },
            },
    {
        let bytes = match asc_get_bytes(&self.heap, bytes_ptr) {
            Ok(b) => b,
            Err(e) => {
                return Err(Trap::Memory(e));
            },
        };
        let hex = hex_with_prefix(bytes.as_slice());
        match asc_new_string(&mut self.heap, alloc, hex.as_str()) {
            Ok(p) => Ok(p),
            Err(e) => Err(Trap::Memory(e)),
        }
    }

    /// `typeConversion.bytesToString`: the bytes at `bytes_ptr`, less trailing
    /// zero bytes, decoded as UTF-8 and written as a new string.
    pub fn bytes_to_string<A: GuestAllocator>(&mut self, alloc: &mut A, bytes_ptr: u32) -> (r: Result<u32, Trap>)
        requires
            old(self).heap.wf(),
        ensures
            final(self).heap.wf(),
            final(self).ctx == old(self).ctx,
            final(self).exports == old(self).exports,
            match bytes_at(old(self).heap.memory@, bytes_ptr as int) {
                None => r matches Err(Trap::Memory(AscError::Heap(HeapError::OutOfBounds))),
                Some(b) => match r {
                    Ok(p) => holds_at(final(self).heap.memory@, p as int, encode_string(lossy_utf8(trim_zeros(b)))),
                    Err(t) => placement_trap(t, string_len(lossy_utf8(trim_zeros(b))), old(self).heap),
                },
            },
            bytes_at(old(self).heap.memory@, bytes_ptr as int) matches Some(b) ==> (vstd::utf8::valid_utf8(trim_zeros(b))
                ==> lossy_utf8(trim_zeros(b)) == vstd::utf8::decode_utf8(trim_zeros(b))),
    {
        let bytes = match asc_get_bytes(&self.heap, bytes_ptr) {
            Ok(b) => b,
            Err(e) => {
                return Err(Trap::Memory(e));
            },
        };
        let s = bytes_to_string(bytes.as_slice());
        match asc_new_string(&mut self.heap, alloc, s.as_str()) {
            Ok(p) => Ok(p),
            Err(e) => Err(Trap::Memory(e)),
        }
    }

    /// Reads an optional string argument; the null pointer stands for none.
    fn optional_string(&self, p: u32) -> (r: Result<Option<String>, Trap>)
        ensures
            match optional_string_at(self.heap.memory@, p) {
                Some(o) => (r matches Ok(x) && match x {
                    Some(s) => o == Some(s@),
                    None => o is None,
                }),
                None => r matches Err(t) && t is Memory,
            },
    {
        if p == 0 {
            return Ok(None);
        }
        match asc_get_string(&self.heap, p) {
            Ok(s) => Ok(Some(s)),
            Err(e) => Err(Trap::Memory(e)),
        }
    }

    /// `env.abort`: always a trap. It carries the message and the position
    /// that the guest gave; a line or column of zero is unknown.
    pub fn abort(&self, message_ptr: u32, file_name_ptr: u32, line_number: i32, column_number: i32) -> (r: Trap)
        ensures
            match (
                optional_string_at(self.heap.memory@, message_ptr),
                optional_string_at(self.heap.memory@, file_name_ptr),
            ) {
                (Some(m), Some(f)) => (r matches Trap::Abort(t) && t@ == abort_text(
                    m,
                    f,
                    nonzero(line_number),
                    nonzero(column_number),
                )),
                _ => r is Memory,
            },
    {
        let message = match self.optional_string(message_ptr) {
            Ok(m) => m,
            Err(t) => {
                return t;
            },
        };
        let file_name = match self.optional_string(file_name_ptr) {
            Ok(f) => f,
            Err(t) => {
                return t;
            },
        };
        let line = if line_number == 0 {
            None
        } else {
            Some(line_number)
        };
        let column = if column_number == 0 {
            None
        } else {
            Some(column_number)
        };
        Trap::Abort(abort_message(message, file_name, line, column))
    }

    /// Writes a byte array and returns its pointer.
    fn new_bytes<A: GuestAllocator>(&mut self, alloc: &mut A, b: &Vec<u8>) -> (r: Result<u32, Trap>)
        requires
            old(self).heap.wf(),
        ensures
            wrote_bytes(*old(self), *final(self), b@, r),
    {
        match asc_new_bytes(&mut self.heap, alloc, b.as_slice()) {
            Ok(p) => {
                proof {
                    bytes_round_trip(self.heap.memory@, p as int, b@);
                }
                Ok(p)
            },
            Err(e) => Err(Trap::Memory(e)),
        }
    }

    fn big_int_binary<A: GuestAllocator>(&mut self, alloc: &mut A, op: BigIntOp, x_ptr: u32, y_ptr: u32) -> (r: Result<u32, Trap>)
        requires
            old(self).heap.wf(),
        ensures
            big_int_outcome(*old(self), *final(self), op, x_ptr, y_ptr, r),
    {
        let x = match asc_get_bytes(&self.heap, x_ptr) {
            Ok(b) => b,
            Err(e) => {
                return Err(Trap::Memory(e));
            },
        };
        let y = match asc_get_bytes(&self.heap, y_ptr) {
            Ok(b) => b,
            Err(e) => {
                return Err(Trap::Memory(e));
            },
        };
        let result = match op {
            BigIntOp::Plus => big_add(x.as_slice(), y.as_slice()),
            BigIntOp::Minus => big_sub(x.as_slice(), y.as_slice()),
            BigIntOp::Times => big_mul(x.as_slice(), y.as_slice()),
            BigIntOp::DividedBy => {
                if is_zero(y.as_slice()) {
                    return Err(Trap::DivisionByZero);
                }
                big_div(x.as_slice(), y.as_slice())
            },
            BigIntOp::Mod => {
                if is_zero(y.as_slice()) {
                    return Err(Trap::DivisionByZero);
                }
                big_rem(x.as_slice(), y.as_slice())
            },
        };
        self.new_bytes(alloc, &result)
    }

    /// `bigInt.plus`.
    pub fn big_int_plus<A: GuestAllocator>(&mut self, alloc: &mut A, x_ptr: u32, y_ptr: u32) -> (r: Result<u32, Trap>)
        requires
            old(self).heap.wf(),
        ensures
            big_int_outcome(*old(self), *final(self), BigIntOp::Plus, x_ptr, y_ptr, r),
    {
        self.big_int_binary(alloc, BigIntOp::Plus, x_ptr, y_ptr)
    }

    /// `bigInt.minus`.
    pub fn big_int_minus<A: GuestAllocator>(&mut self, alloc: &mut A, x_ptr: u32, y_ptr: u32) -> (r: Result<u32, Trap>)
        requires
            old(self).heap.wf(),
        ensures
            big_int_outcome(*old(self), *final(self), BigIntOp::Minus, x_ptr, y_ptr, r),
    {
        self.big_int_binary(alloc, BigIntOp::Minus, x_ptr, y_ptr)
    }

    /// `bigInt.times`.
    pub fn big_int_times<A: GuestAllocator>(&mut self, alloc: &mut A, x_ptr: u32, y_ptr: u32) -> (r: Result<u32, Trap>)
        requires
            old(self).heap.wf(),
        ensures
            big_int_outcome(*old(self), *final(self), BigIntOp::Times, x_ptr, y_ptr, r),
    {
        self.big_int_binary(alloc, BigIntOp::Times, x_ptr, y_ptr)
    }

    /// `bigInt.dividedBy`: rounds toward zero; a zero divisor traps.
    pub fn big_int_divided_by<A: GuestAllocator>(&mut self, alloc: &mut A, x_ptr: u32, y_ptr: u32) -> (r: Result<u32, Trap>)
        requires
            old(self).heap.wf(),
        ensures
            big_int_outcome(*old(self), *final(self), BigIntOp::DividedBy, x_ptr, y_ptr, r),
    {
        self.big_int_binary(alloc, BigIntOp::DividedBy, x_ptr, y_ptr)
    }

    /// `bigInt.mod`: the remainder takes the sign of the dividend; a zero
    /// divisor traps.
    pub fn big_int_mod<A: GuestAllocator>(&mut self, alloc: &mut A, x_ptr: u32, y_ptr: u32) -> (r: Result<u32, Trap>)
        requires
            old(self).heap.wf(),
        ensures
            big_int_outcome(*old(self), *final(self), BigIntOp::Mod, x_ptr, y_ptr, r),
    {
        self.big_int_binary(alloc, BigIntOp::Mod, x_ptr, y_ptr)
    }

    /// `bigInt.pow`.
    pub fn big_int_pow<A: GuestAllocator>(&mut self, alloc: &mut A, x_ptr: u32, exp: u8) -> (r: Result<u32, Trap>)
        requires
            old(self).heap.wf(),
        ensures
            final(self).heap.wf(),
            final(self).ctx == old(self).ctx,
            match bytes_at(old(self).heap.memory@, x_ptr as int) {
                Some(a) => match r {
                    Ok(p) => big_int_at(final(self).heap.memory@, p as int) == Some(power(signed_le(a), exp as nat)),
                    Err(t) => placement_trap(t, signed_len(power(signed_le(a), exp as nat)) + 4, old(self).heap),
                },
                None => r matches Err(t) && t is Memory && *final(self) == *old(self),
            },
    {
        let x = match asc_get_bytes(&self.heap, x_ptr) {
            Ok(b) => b,
            Err(e) => {
                return Err(Trap::Memory(e));
            },
        };
        let result = big_pow(x.as_slice(), exp);
        self.new_bytes(alloc, &result)
    }

    /// `typeConversion.bigIntToString`: the big integer in decimal.
    pub fn big_int_to_string<A: GuestAllocator>(&mut self, alloc: &mut A, x_ptr: u32) -> (r: Result<u32, Trap>)
        requires
            old(self).heap.wf(),
        ensures
            final(self).heap.wf(),
            final(self).ctx == old(self).ctx,
            match bytes_at(old(self).heap.memory@, x_ptr as int) {
                Some(a) => match r {
                    Ok(p) => holds_at(final(self).heap.memory@, p as int, encode_string(decimal_of(signed_le(a)))),
                    Err(t) => placement_trap(t, string_len(decimal_of(signed_le(a))), old(self).heap),
                },
                None => r matches Err(t) && t is Memory && *final(self) == *old(self),
            },
    {
        let x = match asc_get_bytes(&self.heap, x_ptr) {
            Ok(b) => b,
            Err(e) => {
                return Err(Trap::Memory(e));
            },
        };
        let s = big_to_decimal(x.as_slice());
        match asc_new_string(&mut self.heap, alloc, s.as_str()) {
            Ok(p) => Ok(p),
            Err(e) => Err(Trap::Memory(e)),
        }
    }

    /// `typeConversion.stringToH160`: the 20-byte address that the string at
    /// `str_ptr` writes in hexadecimal, as a new byte array.
    pub fn string_to_h160<A: GuestAllocator>(&mut self, alloc: &mut A, str_ptr: u32) -> (r: Result<u32, Trap>)
        requires
            old(self).heap.wf(),
        ensures
            match string_at(old(self).heap.memory@, str_ptr as int) {
                Some(s) => match hex_decoded(strip_0x(vstd::utf8::encode_utf8(s))) {
                    Some(d) => if d.len() == 20 {
                        wrote_bytes(*old(self), *final(self), d, r)
                    } else {
                        r matches Err(Trap::InvalidAddress(t)) && t@ == s && *final(self) == *old(self)
                    },
                    None => r matches Err(Trap::InvalidAddress(t)) && t@ == s && *final(self) == *old(self),
                },
                None => r matches Err(t) && t is Memory && *final(self) == *old(self),
            },
    {
        let s = match asc_get_string(&self.heap, str_ptr) {
            Ok(s) => s,
            Err(e) => {
                return Err(Trap::Memory(e));
            },
        };
        match address_from_hex(s.as_str()) {
            Some(address) => self.new_bytes(alloc, &address),
            None => Err(Trap::InvalidAddress(s)),
        }
    }

    /// `typeConversion.bigIntToHex`: `0x` and the lowercase hexadecimal
    /// digits of the big integer's magnitude, without leading zeros.
    pub fn big_int_to_hex<A: GuestAllocator>(&mut self, alloc: &mut A, x_ptr: u32) -> (r: Result<u32, Trap>)
        requires
            old(self).heap.wf(),
        ensures
            final(self).heap.wf(),
            final(self).ctx == old(self).ctx,
            match bytes_at(old(self).heap.memory@, x_ptr as int) {
                Some(a) => match r {
                    Ok(p) => holds_at(
                        final(self).heap.memory@,
                        p as int,
                        encode_string("0x"@ + hex_digits_of(abs(signed_le(a)) as nat)),
                    ),
                    Err(t) => placement_trap(t, string_len("0x"@ + hex_digits_of(abs(signed_le(a)) as nat)), old(self).heap),
                },
                None => r matches Err(t) && t is Memory && *final(self) == *old(self),
            },
    {
        let x = match asc_get_bytes(&self.heap, x_ptr) {
            Ok(b) => b,
            Err(e) => {
                return Err(Trap::Memory(e));
            },
        };
        let mut s = String::from_str("0x");
        let digits = big_magnitude_hex(x.as_slice());
        s.append(digits.as_str());
        match asc_new_string(&mut self.heap, alloc, s.as_str()) {
            Ok(p) => Ok(p),
            Err(e) => Err(Trap::Memory(e)),
        }
    }

    /// `ethereum.call`, first half: the contract call at `call_ptr`, read with
    /// the function signature from api version 0.0.4 on.
    pub fn ethereum_call_request(&self, call_ptr: u32) -> (r: Result<UnresolvedContractCall, Trap>)
        ensures
            contract_call_readable(self.heap.memory@, call_ptr as int, at_least(self.ctx.host_exports.api_version, 0, 0, 4))
                ==> r is Ok,
            r matches Ok(c) ==> contract_call_at(
                self.heap.memory@,
                call_ptr as int,
                at_least(self.ctx.host_exports.api_version, 0, 0, 4),
                c,
            ),
            r matches Err(t) ==> t is Memory,
    {
        let with_signature = match contract_call_layout(&self.ctx.host_exports.api_version) {
            ContractCallLayout::WithSignature => true,
            ContractCallLayout::Legacy => false,
        };
        match asc_get_contract_call(&self.heap, call_ptr, with_signature) {
            Ok(c) => Ok(c),
            Err(e) => Err(Trap::Memory(e)),
        }
    }

    /// `ethereum.call`, second half: the values the call returned as a new
    /// array, or the null pointer where the call gave nothing.
    pub fn tokens_or_null<A: GuestAllocator>(&mut self, alloc: &mut A, result: Option<Vec<Token>>) -> (r: Result<u32, Trap>)
        requires
            old(self).heap.wf(),
            result matches Some(ts) ==> ts@.len() <= u32::MAX,
        ensures
            final(self).heap.wf(),
            final(self).ctx == old(self).ctx,
            match result {
                Some(ts) => match r {
                    Ok(p) => p != 0 && holds_at(final(self).heap.memory@, p as int, obj_image(tokens_obj(ts@), p as int, 3)),
                    Err(t) => placement_trap(t, obj_size(tokens_obj(ts@), 3), old(self).heap),
                },
                None => r == Ok::<u32, Trap>(0) && *final(self) == *old(self),
            },
    {
        match result {
            Some(ts) => {
                let tree = tokens_tree(&ts);
                assert(tree_obj(tree, 3) == tokens_obj(ts@));
                match asc_new_tree(&mut self.heap, alloc, &tree, 3) {
                    Ok(p) => Ok(p),
                    Err(e) => Err(Trap::Memory(e)),
                }
            },
            None => Ok(0),
        }
    }

    /// `json.fromBytes`: the JSON value that the bytes at `bytes_ptr` hold,
    /// written as a new tagged value. Text that is not JSON traps.
    pub fn json_from_bytes<A: GuestAllocator>(&mut self, alloc: &mut A, bytes_ptr: u32) -> (r: Result<u32, Trap>)
        requires
            old(self).heap.wf(),
        ensures
            final(self).heap.wf(),
            final(self).ctx == old(self).ctx,
            match bytes_at(old(self).heap.memory@, bytes_ptr as int) {
                Some(b) => {
                    &&& !json_parses(b) ==> (r matches Err(Trap::InvalidJson) && *final(self) == *old(self))
                    &&& r matches Ok(p) ==> p != 0
                    &&& r matches Err(t) ==> (t is InvalidJson || placement_failed(t))
                },
                None => r matches Err(t) && t is Memory && *final(self) == *old(self),
            },
    {
        let bytes = match asc_get_bytes(&self.heap, bytes_ptr) {
            Ok(b) => b,
            Err(e) => {
                return Err(Trap::Memory(e));
            },
        };
        let tree = match json_text_tree(bytes.as_slice()) {
            Some(t) => t,
            None => {
                return Err(Trap::InvalidJson);
            },
        };
        match asc_new_tree(&mut self.heap, alloc, &tree, JSON_TREE_DEPTH) {
            Ok(p) => Ok(p),
            Err(e) => Err(Trap::Memory(e)),
        }
    }

    /// `json.try_fromBytes`: a result object whose value arm holds the JSON
    /// value, or whose error arm holds `true` where the bytes are not JSON.
    /// It never traps on bad text.
    pub fn json_try_from_bytes<A: GuestAllocator>(&mut self, alloc: &mut A, bytes_ptr: u32) -> (r: Result<u32, Trap>)
        requires
            old(self).heap.wf(),
        ensures
            final(self).heap.wf(),
            final(self).ctx == old(self).ctx,
            match bytes_at(old(self).heap.memory@, bytes_ptr as int) {
                Some(b) => {
                    &&& !json_parses(b) ==> match r {
                        Ok(p) => p != 0 && holds_at(final(self).heap.memory@, p as int, obj_image(json_error_obj(), p as int, 3)),
                        Err(t) => placement_trap(t, obj_size(json_error_obj(), 3), old(self).heap),
                    }
                    &&& r matches Ok(p) ==> p != 0
                    &&& r matches Err(t) ==> placement_failed(t)
                },
                None => r matches Err(t) && t is Memory && *final(self) == *old(self),
            },
    {
        let bytes = match asc_get_bytes(&self.heap, bytes_ptr) {
            Ok(b) => b,
            Err(e) => {
                return Err(Trap::Memory(e));
            },
        };
        let mut arms: Vec<Tree> = Vec::new();
        let ghost mut w_ghost: Vec<Tree> = arbitrary();
        let depth = match json_text_tree(bytes.as_slice()) {
            Some(t) => {
                let mut wrapped: Vec<Tree> = Vec::new();
                wrapped.push(t);
                arms.push(Tree::Record(wrapped));
                arms.push(Tree::Null);
                JSON_TREE_DEPTH + 2
            },
            None => {
                let mut wrapped: Vec<Tree> = Vec::new();
                wrapped.push(Tree::Word(1));
                proof {
                    w_ghost = wrapped;
                }
                arms.push(Tree::Null);
                arms.push(Tree::Record(wrapped));
                3
            },
        };
        let ghost arms_ghost = arms;
        let result = Tree::Record(arms);
        proof {
            if !json_parses(bytes@) {
                lemma_json_error_tree(arms_ghost, w_ghost);
            }
        }
        match asc_new_tree(&mut self.heap, alloc, &result, depth) {
            Ok(p) => Ok(p),
            Err(e) => Err(Trap::Memory(e)),
        }
    }

    /// `box.profile`: a fetched JSON value written as a new tagged value, or
    /// the null pointer where nothing was fetched.
    pub fn json_or_null<A: GuestAllocator>(&mut self, alloc: &mut A, fetched: Option<serde_json::Value>) -> (r: Result<u32, Trap>)
        requires
            old(self).heap.wf(),
        ensures
            final(self).heap.wf(),
            final(self).ctx == old(self).ctx,
            fetched is None ==> r == Ok::<u32, Trap>(0) && *final(self) == *old(self),
            r matches Err(t) ==> (t is InvalidJson || placement_failed(t)),
    {
        match fetched {
            Some(v) => match json_tree(&v, MAX_JSON_DEPTH) {
                Some(t) => match asc_new_tree(&mut self.heap, alloc, &t, JSON_TREE_DEPTH) {
                    Ok(p) => Ok(p),
                    Err(e) => Err(Trap::Memory(e)),
                },
                None => Err(Trap::InvalidJson),
            },
            None => Ok(0),
        }
    }

    /// `crypto.keccak256`: the digest of the bytes, as a new byte array.
    pub fn crypto_keccak_256<A: GuestAllocator>(&mut self, alloc: &mut A, input_ptr: u32) -> (r: Result<u32, Trap>)
        requires
            old(self).heap.wf(),
        ensures
            match bytes_at(old(self).heap.memory@, input_ptr as int) {
                Some(b) => wrote_bytes(*old(self), *final(self), keccak256_of(b), r),
                None => r matches Err(t) && t is Memory && *final(self) == *old(self),
            },
    {
        let input = match asc_get_bytes(&self.heap, input_ptr) {
            Ok(b) => b,
            Err(e) => {
                return Err(Trap::Memory(e));
            },
        };
        let digest = keccak256(input.as_slice());
        self.new_bytes(alloc, &digest)
    }

    /// `typeConversion.bytesToBase58`.
    pub fn bytes_to_base58<A: GuestAllocator>(&mut self, alloc: &mut A, bytes_ptr: u32) -> (r: Result<u32, Trap>)
        requires
            old(self).heap.wf(),
        ensures
            final(self).heap.wf(),
            final(self).ctx == old(self).ctx,
            match bytes_at(old(self).heap.memory@, bytes_ptr as int) {
                Some(b) => match r {
                    Ok(p) => holds_at(final(self).heap.memory@, p as int, encode_string(base58_of(b))),
                    Err(t) => placement_trap(t, string_len(base58_of(b)), old(self).heap),
                },
                None => r matches Err(t) && t is Memory && *final(self) == *old(self),
            },
    {
        let bytes = match asc_get_bytes(&self.heap, bytes_ptr) {
            Ok(b) => b,
            Err(e) => {
                return Err(Trap::Memory(e));
            },
        };
        let s = base58(bytes.as_slice());
        match asc_new_string(&mut self.heap, alloc, s.as_str()) {
            Ok(p) => Ok(p),
            Err(e) => Err(Trap::Memory(e)),
        }
    }

    /// `ipfs.cat`, `arweave.transactionData`: fetched bytes become a new byte
    /// array; a failed fetch becomes the null pointer, never a trap.
    pub fn bytes_or_null<A: GuestAllocator>(&mut self, alloc: &mut A, fetched: Option<Vec<u8>>) -> (r: Result<u32, Trap>)
        requires
            old(self).heap.wf(),
        ensures
            match fetched {
                Some(b) => wrote_bytes(*old(self), *final(self), b@, r),
                None => r == Ok::<u32, Trap>(0) && *final(self) == *old(self),
            },
    {
        match fetched {
            Some(b) => self.new_bytes(alloc, &b),
            None => Ok(0),
        }
    }

    /// `json.toI64`: the decimal text at `json_ptr` as a signed number.
    pub fn json_to_i64(&self, json_ptr: u32) -> (r: Result<i64, Trap>)
        ensures
            match string_at(self.heap.memory@, json_ptr as int) {
                Some(s) => match parsed_i64(s) {
                    Some(v) => r == Ok::<i64, Trap>(v),
                    None => r matches Err(Trap::NotANumber(t)) && t@ == s,
                },
                None => r matches Err(t) && t is Memory,
            },
    {
        let s = match asc_get_string(&self.heap, json_ptr) {
            Ok(s) => s,
            Err(e) => {
                return Err(Trap::Memory(e));
            },
        };
        match parse_i64(s.as_str()) {
            Some(v) => Ok(v),
            None => Err(Trap::NotANumber(s)),
        }
    }

    /// `json.toU64`: the decimal text at `json_ptr` as an unsigned number.
    pub fn json_to_u64(&self, json_ptr: u32) -> (r: Result<u64, Trap>)
        ensures
            match string_at(self.heap.memory@, json_ptr as int) {
                Some(s) => match parsed_u64(s) {
                    Some(v) => r == Ok::<u64, Trap>(v),
                    None => r matches Err(Trap::NotANumber(t)) && t@ == s,
                },
                None => r matches Err(t) && t is Memory,
            },
    {
        let s = match asc_get_string(&self.heap, json_ptr) {
            Ok(s) => s,
            Err(e) => {
                return Err(Trap::Memory(e));
            },
        };
        match parse_u64(s.as_str()) {
            Some(v) => Ok(v),
            None => Err(Trap::NotANumber(s)),
        }
    }

    /// `json.toBigInt`: the decimal text at `json_ptr` as a new big integer.
    pub fn json_to_big_int<A: GuestAllocator>(&mut self, alloc: &mut A, json_ptr: u32) -> (r: Result<u32, Trap>)
        requires
            old(self).heap.wf(),
        ensures
            final(self).heap.wf(),
            final(self).ctx == old(self).ctx,
            match string_at(old(self).heap.memory@, json_ptr as int) {
                Some(s) => match parsed_big_int(s) {
                    Some(v) => match r {
                        Ok(p) => big_int_at(final(self).heap.memory@, p as int) == Some(v),
                        Err(t) => placement_trap(t, signed_len(v) + 4, old(self).heap),
                    },
                    None => r matches Err(Trap::NotANumber(t)) && t@ == s && *final(self) == *old(self),
                },
                None => r matches Err(t) && t is Memory && *final(self) == *old(self),
            },
    {
        let s = match asc_get_string(&self.heap, json_ptr) {
            Ok(s) => s,
            Err(e) => {
                return Err(Trap::Memory(e));
            },
        };
        match parse_big_int(s.as_str()) {
            Some(b) => self.new_bytes(alloc, &b),
            None => Err(Trap::NotANumber(s)),
        }
    }

    /// Reads the strings that an array of string pointers at `ptr` points to.
    fn string_array(&self, ptr: u32) -> (r: Result<Vec<String>, Trap>)
        ensures
            match crate::asc::ptrs_at(self.heap.memory@, ptr as int) {
                Some(ps) => match r {
                    Ok(v) => v@.len() == ps.len() && forall|i: int| 0 <= i < ps.len() ==> string_at(self.heap.memory@, ps[i] as int) == Some(#[trigger] v@[i]@),
                    Err(t) => t is Memory && exists|i: int| 0 <= i < ps.len() && string_at(self.heap.memory@, ps[i] as int) is None,
                },
                None => r matches Err(t) && t is Memory,
            },
    {
        let ps = match crate::asc::asc_get_ptrs(&self.heap, ptr) {
            Ok(ps) => ps,
            Err(e) => {
                return Err(Trap::Memory(e));
            },
        };
        let mut out: Vec<String> = Vec::new();
        let mut i: usize = 0;
        while i < ps.len()
            invariant
                0 <= i <= ps@.len(),
                crate::asc::ptrs_at(self.heap.memory@, ptr as int) == Some(ps@),
                out@.len() == i,
                forall|j: int| 0 <= j < i ==> string_at(self.heap.memory@, ps@[j] as int) == Some(#[trigger] out@[j]@),
            decreases ps@.len() - i,
        {
            match asc_get_string(&self.heap, ps[i]) {
                Ok(s) => out.push(s),
                Err(e) => {
                    assert(string_at(self.heap.memory@, ps@[i as int] as int) is None);
                    assert(0 <= i < ps@.len());
                    return Err(Trap::Memory(e));
                },
            }
            i = i + 1;
        }
        Ok(out)
    }

    /// `dataSource.create` with the template name and parameters read from
    /// guest memory.
    pub fn data_source_create(&mut self, name_ptr: u32, params_ptr: u32) -> (r: Result<(), Trap>)
        requires
            old(self).ctx.wf(),
        ensures
            final(self).ctx.wf(),
            final(self).heap == old(self).heap,
            r is Err ==> final(self).ctx == old(self).ctx,
            params_readable(old(self).heap.memory@, params_ptr) ==> match string_at(old(self).heap.memory@, name_ptr as int) {
                Some(name) => (r is Ok) == listed(old(self).ctx.host_exports.templates@, name),
                None => r is Err,
            },
            match string_at(old(self).heap.memory@, name_ptr as int) {
                Some(name) => r is Ok ==> {
                    &&& listed(old(self).ctx.host_exports.templates@, name)
                    &&& final(self).ctx.state.created_data_sources@.len() == old(self).ctx.state.created_data_sources@.len() + 1
                    &&& final(self).ctx.state.created_data_sources@.last().template@ == name
                    &&& final(self).ctx.state.created_data_sources@.drop_last() == old(self).ctx.state.created_data_sources@
                    &&& final(self).ctx.state.created_data_sources@.last().context is None
                    &&& final(self).ctx.state.created_data_sources@.last().params@.len() == crate::asc::ptrs_at(
                        old(self).heap.memory@,
                        params_ptr as int,
                    )->0.len()
                    &&& forall|j: int| 0 <= j < final(self).ctx.state.created_data_sources@.last().params@.len() ==> string_at(
                        old(self).heap.memory@,
                        crate::asc::ptrs_at(old(self).heap.memory@, params_ptr as int)->0[j] as int,
                    ) == Some(#[trigger] final(self).ctx.state.created_data_sources@.last().params@[j]@)
                    &&& final(self).ctx.state.entity_cache == old(self).ctx.state.entity_cache
                    &&& final(self).ctx.proof_of_indexing == old(self).ctx.proof_of_indexing
                },
                None => r matches Err(t) && t is Memory,
            },
    {
        let name = match asc_get_string(&self.heap, name_ptr) {
            Ok(s) => s,
            Err(e) => {
                return Err(Trap::Memory(e));
            },
        };
        let params = self.string_array(params_ptr)?;
        self.ctx.data_source_create(name, params, None)
    }

    /// `dataSource.createWithContext`: as `data_source_create`, with the
    /// context entity read from guest memory too.
    pub fn data_source_create_with_context(&mut self, name_ptr: u32, params_ptr: u32, context_ptr: u32) -> (r: Result<(), Trap>)
        requires
            old(self).ctx.wf(),
        ensures
            final(self).ctx.wf(),
            final(self).heap == old(self).heap,
            r is Err ==> final(self).ctx == old(self).ctx,
            params_readable(old(self).heap.memory@, params_ptr) ==> match (
                string_at(old(self).heap.memory@, name_ptr as int),
                entity_at(old(self).heap.memory@, context_ptr as int),
            ) {
                (Some(name), Some(_)) => (r is Ok) == listed(old(self).ctx.host_exports.templates@, name),
                _ => r is Err,
            },
            match (string_at(old(self).heap.memory@, name_ptr as int), entity_at(old(self).heap.memory@, context_ptr as int)) {
                (Some(name), Some(c)) => r is Ok ==> {
                    &&& listed(old(self).ctx.host_exports.templates@, name)
                    &&& final(self).ctx.state.created_data_sources@.drop_last() == old(self).ctx.state.created_data_sources@
                    &&& final(self).ctx.state.created_data_sources@.last().template@ == name
                    &&& op_view(final(self).ctx.state.created_data_sources@.last().context) == Some(c)
                    &&& final(self).ctx.state.created_data_sources@.last().params@.len() == crate::asc::ptrs_at(
                        old(self).heap.memory@,
                        params_ptr as int,
                    )->0.len()
                    &&& forall|j: int| 0 <= j < final(self).ctx.state.created_data_sources@.last().params@.len() ==> string_at(
                        old(self).heap.memory@,
                        crate::asc::ptrs_at(old(self).heap.memory@, params_ptr as int)->0[j] as int,
                    ) == Some(#[trigger] final(self).ctx.state.created_data_sources@.last().params@[j]@)
                    &&& final(self).ctx.state.entity_cache == old(self).ctx.state.entity_cache
                    &&& final(self).ctx.proof_of_indexing == old(self).ctx.proof_of_indexing
                },
                _ => r matches Err(t) && t is Memory,
            },
    {
        let name = match asc_get_string(&self.heap, name_ptr) {
            Ok(s) => s,
            Err(e) => {
                return Err(Trap::Memory(e));
            },
        };
        let params = self.string_array(params_ptr)?;
        let context = match crate::entity_abi::asc_get_entity(&self.heap, context_ptr) {
            Ok(c) => c,
            Err(e) => {
                return Err(Trap::Memory(e));
            },
        };
        self.ctx.data_source_create(name, params, Some(context))
    }

    /// `dataSource.context`: the data source's context as a new entity.
    pub fn data_source_context<A: GuestAllocator>(&mut self, alloc: &mut A) -> (r: Result<u32, Trap>)
        requires
            old(self).heap.wf(),
        ensures
            final(self).heap.wf(),
            final(self).ctx == old(self).ctx,
            match r {
                Ok(p) => p != 0 && holds_at(
                    final(self).heap.memory@,
                    p as int,
                    entity_image(old(self).ctx.host_exports.data_source_context@, p as int),
                ) && entity_at(final(self).heap.memory@, p as int) == Some(old(self).ctx.host_exports.data_source_context@),
                Err(t) => placement_trap(t, entity_image_len(old(self).ctx.host_exports.data_source_context@), old(self).heap),
            },
    {
        match asc_new_entity(&mut self.heap, alloc, &self.ctx.host_exports.data_source_context) {
            Ok(p) => Ok(p),
            Err(e) => Err(Trap::Memory(e)),
        }
    }

    /// `dataSource.network`: the network name as a new string.
    pub fn data_source_network<A: GuestAllocator>(&mut self, alloc: &mut A) -> (r: Result<u32, Trap>)
        requires
            old(self).heap.wf(),
        ensures
            final(self).heap.wf(),
            final(self).ctx == old(self).ctx,
            match r {
                Ok(p) => holds_at(final(self).heap.memory@, p as int, encode_string(old(self).ctx.host_exports.data_source_network@)),
                Err(t) => placement_trap(t, string_len(old(self).ctx.host_exports.data_source_network@), old(self).heap),
            },
    {
        match asc_new_string(&mut self.heap, alloc, self.ctx.host_exports.data_source_network.as_str()) {
            Ok(p) => Ok(p),
            Err(e) => Err(Trap::Memory(e)),
        }
    }

    /// `dataSource.address`: the address as a new byte array.
    pub fn data_source_address<A: GuestAllocator>(&mut self, alloc: &mut A) -> (r: Result<u32, Trap>)
        requires
            old(self).heap.wf(),
        ensures
            wrote_bytes(*old(self), *final(self), old(self).ctx.host_exports.data_source_address@, r),
    {
        let address = crate::entity::copy_bytes(&self.ctx.host_exports.data_source_address);
        self.new_bytes(alloc, &address)
    }

    /// `ens.nameByHash`: the name found, as a new string, or the null
    /// pointer where there is none.
    pub fn string_or_null<A: GuestAllocator>(&mut self, alloc: &mut A, found: Option<String>) -> (r: Result<u32, Trap>)
        requires
            old(self).heap.wf(),
        ensures
            final(self).heap.wf(),
            final(self).ctx == old(self).ctx,
            match found {
                Some(s) => match r {
                    Ok(p) => holds_at(final(self).heap.memory@, p as int, encode_string(s@)),
                    Err(t) => placement_trap(t, string_len(s@), old(self).heap),
                },
                None => r == Ok::<u32, Trap>(0) && *final(self) == *old(self),
            },
    {
        match found {
            Some(s) => match asc_new_string(&mut self.heap, alloc, s.as_str()) {
                Ok(p) => Ok(p),
                Err(e) => Err(Trap::Memory(e)),
            },
            None => Ok(0),
        }
    }

    /// The entity type and id that `store.get` asks for, read from guest strings.
    pub fn store_key(&self, entity_ptr: u32, id_ptr: u32) -> (r: Result<EntityKey, Trap>)
        ensures
            match (string_at(self.heap.memory@, entity_ptr as int), string_at(self.heap.memory@, id_ptr as int)) {
                (Some(e), Some(i)) => (r matches Ok(k) && k@ == (e, i)),
                _ => r matches Err(t) && t is Memory,
            },
    {
        let entity_type = match asc_get_string(&self.heap, entity_ptr) {
            Ok(s) => s,
            Err(e) => {
                return Err(Trap::Memory(e));
            },
        };
        let entity_id = match asc_get_string(&self.heap, id_ptr) {
            Ok(s) => s,
            Err(e) => {
                return Err(Trap::Memory(e));
            },
        };
        Ok(EntityKey { entity_type, entity_id })
    }

    /// `store.get`: the entity as this request left it, written as a new
    /// entity, or the null pointer where there is none. `stored` is what the
    /// store holds; it counts only where nothing is pending.
    pub fn store_get<A: GuestAllocator>(
        &mut self,
        alloc: &mut A,
        entity_ptr: u32,
        id_ptr: u32,
        stored: Option<Entity>,
    ) -> (r: Result<u32, Trap>)
        requires
            old(self).wf(),
        ensures
            final(self).wf(),
            final(self).ctx == old(self).ctx,
            match (string_at(old(self).heap.memory@, entity_ptr as int), string_at(old(self).heap.memory@, id_ptr as int)) {
                (Some(e), Some(i)) => match (match old(self).ctx.state.entity_cache.pending((e, i)) {
                    Some(op) => op,
                    None => op_view(stored),
                }) {
                    Some(d) => match r {
                        Ok(p) => p != 0 && holds_at(final(self).heap.memory@, p as int, entity_image(d, p as int))
                            && entity_at(final(self).heap.memory@, p as int) == Some(d),
                        Err(t) => placement_trap(t, entity_image_len(d), old(self).heap),
                    },
                    None => r == Ok::<u32, Trap>(0) && *final(self) == *old(self),
                },
                _ => r matches Err(t) && t is Memory && *final(self) == *old(self),
            },
    {
        let key = self.store_key(entity_ptr, id_ptr)?;
        match self.ctx.store_get(&key.entity_type, &key.entity_id, stored) {
            Some(found) => match asc_new_entity(&mut self.heap, alloc, &found) {
                Ok(p) => Ok(p),
                Err(e) => Err(Trap::Memory(e)),
            },
            None => Ok(0),
        }
    }

    /// `store.set` with the entity type, id and data read from guest memory.
    pub fn store_set(&mut self, entity_ptr: u32, id_ptr: u32, data_ptr: u32) -> (r: Result<(), Trap>)
        requires
            old(self).ctx.wf(),
        ensures
            final(self).ctx.wf(),
            final(self).heap == old(self).heap,
            match (
                string_at(old(self).heap.memory@, entity_ptr as int),
                string_at(old(self).heap.memory@, id_ptr as int),
                crate::entity_abi::entity_at(old(self).heap.memory@, data_ptr as int),
            ) {
                (Some(e), Some(i), Some(d)) => {
                    &&& r is Ok
                    &&& final(self).ctx.state.entity_cache.pending((e, i)) == Some(Some(d))
                    &&& forall|k: (Seq<char>, Seq<char>)| k != (e, i) ==> #[trigger] final(self).ctx.state.entity_cache.pending(k)
                        == old(self).ctx.state.entity_cache.pending(k)
                    &&& final(self).ctx.state.created_data_sources@ == old(self).ctx.state.created_data_sources@
                    &&& final(self).ctx.proof_of_indexing@.map_values(|x: PoiEvent| x@) == old(self).ctx.proof_of_indexing@.map_values(
                        |x: PoiEvent| x@,
                    ).push(PoiEventView::SetEntity((e, i), d))
                    &&& final(self).ctx.host_exports == old(self).ctx.host_exports
                },
                _ => r matches Err(t) && t is Memory && *final(self) == *old(self),
            },
    {
        let entity = match asc_get_string(&self.heap, entity_ptr) {
            Ok(s) => s,
            Err(e) => {
                return Err(Trap::Memory(e));
            },
        };
        let id = match asc_get_string(&self.heap, id_ptr) {
            Ok(s) => s,
            Err(e) => {
                return Err(Trap::Memory(e));
            },
        };
        let data = match crate::entity_abi::asc_get_entity(&self.heap, data_ptr) {
            Ok(d) => d,
            Err(e) => {
                return Err(Trap::Memory(e));
            },
        };
        self.ctx.store_set(entity, id, data);
        Ok(())
    }

    /// `log.log`: the level and the message that the guest logs.
    pub fn log_log(&self, level: i32, msg_ptr: u32) -> (r: Result<(LogLevel, String), Trap>)
        ensures
            match string_at(self.heap.memory@, msg_ptr as int) {
                Some(s) => (r matches Ok((l, m)) && l == log_level_of(level) && m@ == s),
                None => r matches Err(t) && t is Memory,
            },
    {
        match asc_get_string(&self.heap, msg_ptr) {
            Ok(m) => Ok((log_level(level), m)),
            Err(e) => Err(Trap::Memory(e)),
        }
    }

    /// `store.remove` with the entity type and id read from guest strings.
    pub fn store_remove(&mut self, entity_ptr: u32, id_ptr: u32) -> (r: Result<(), Trap>)
        requires
            old(self).ctx.wf(),
        ensures
            final(self).ctx.wf(),
            final(self).heap == old(self).heap,
            match (string_at(old(self).heap.memory@, entity_ptr as int), string_at(old(self).heap.memory@, id_ptr as int)) {
                (Some(e), Some(i)) => {
                    &&& r is Ok
                    &&& final(self).ctx.state.entity_cache.pending((e, i)) == Some(None::<crate::state::EntityView>)
                    &&& forall|k: (Seq<char>, Seq<char>)| k != (e, i) ==> #[trigger] final(self).ctx.state.entity_cache.pending(k)
                        == old(self).ctx.state.entity_cache.pending(k)
                    &&& final(self).ctx.state.created_data_sources@ == old(self).ctx.state.created_data_sources@
                    &&& final(self).ctx.proof_of_indexing@.map_values(|x: PoiEvent| x@) == old(self).ctx.proof_of_indexing@.map_values(
                        |x: PoiEvent| x@,
                    ).push(PoiEventView::RemoveEntity((e, i)))
                    &&& final(self).ctx.host_exports == old(self).ctx.host_exports
                },
                _ => r matches Err(t) && t is Memory && *final(self) == *old(self),
            },
    {
        let entity = match asc_get_string(&self.heap, entity_ptr) {
            Ok(s) => s,
            Err(e) => {
                return Err(Trap::Memory(e));
            },
        };
        let id = match asc_get_string(&self.heap, id_ptr) {
            Ok(s) => s,
            Err(e) => {
                return Err(Trap::Memory(e));
            },
        };
        self.ctx.store_remove(entity, id);
        Ok(())
    }
}

} // verus!
