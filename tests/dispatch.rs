use mapping_runtime::asc::{asc_get_bytes, asc_get_string, asc_new_bytes, asc_new_ptrs, asc_new_string};
use mapping_runtime::ethereum::{
    EthereumBlockData, EthereumCallData, EthereumLogData, EthereumTransactionData, LogParam, Token,
};
use mapping_runtime::entity::{Entity, StoreValue};
use mapping_runtime::heap::AscHeap;
use mapping_runtime::host::{HostExports, MappingContext, Trap};
use mapping_runtime::instance::{ArgumentLayout, MappingError, MappingTrigger, WasmiModule};
use mapping_runtime::module::{user_namespace, ValidModule, ValidationError};
use mapping_runtime::state::{BlockState, EntityKey};
use mapping_runtime::version::{
    call_layout, contract_call_layout, event_layout, ApiVersion, CallLayout, ContractCallLayout,
    EventLayout,
};

fn context(version: ApiVersion) -> MappingContext {
    MappingContext {
        host_exports: HostExports {
            api_version: version,
            templates: vec!["Pool".to_string(), "Token".to_string()],
            data_source_network: "mainnet".to_string(),
            data_source_address: vec![1; 20],
            data_source_context: Entity::new(),
        },
        state: BlockState::new(),
        proof_of_indexing: Vec::new(),
        block: sample_block(),
    }
}

fn leb(mut n: usize, out: &mut Vec<u8>) {
    loop {
        let b = (n & 0x7f) as u8;
        n >>= 7;
        if n == 0 {
            out.push(b);
            break;
        }
        out.push(b | 0x80);
    }
}

fn name(s: &str, out: &mut Vec<u8>) {
    leb(s.len(), out);
    out.extend_from_slice(s.as_bytes());
}

/// A binary module importing one function `() -> ()` per `(module, field)`.
fn module_importing(imports: &[(&str, &str)]) -> Vec<u8> {
    let mut m = vec![0x00, 0x61, 0x73, 0x6d, 0x01, 0x00, 0x00, 0x00];
    m.extend_from_slice(&[0x01, 0x04, 0x01, 0x60, 0x00, 0x00]);
    let mut body = Vec::new();
    leb(imports.len(), &mut body);
    for (module, field) in imports {
        name(module, &mut body);
        name(field, &mut body);
        body.extend_from_slice(&[0x00, 0x00]);
    }
    m.push(0x02);
    leb(body.len(), &mut m);
    m.extend_from_slice(&body);
    m
}

fn strings(v: &[&str]) -> Vec<String> {
    v.iter().map(|s| s.to_string()).collect()
}

fn key(t: &str, id: &str) -> EntityKey {
    EntityKey { entity_type: t.to_string(), entity_id: id.to_string() }
}

fn entity(id: &str) -> Entity {
    let mut e = Entity::new();
    e.push("id".to_string(), StoreValue::String(id.to_string()));
    e
}

#[test]
fn single_user_namespace_is_found() {
    let r = user_namespace(&strings(&["index", "env", "index", "env"]));
    assert_eq!(r, Ok("index".to_string()));
}

#[test]
fn zero_or_several_user_namespaces_are_refused() {
    assert_eq!(
        user_namespace(&strings(&["env"])),
        Err(ValidationError::NamespaceCount { count: 0 })
    );
    assert_eq!(
        user_namespace(&strings(&["a", "env", "b", "a"])),
        Err(ValidationError::NamespaceCount { count: 2 })
    );
    assert_eq!(user_namespace(&Vec::new()), Err(ValidationError::NamespaceCount { count: 0 }));
}

#[test]
fn valid_module_records_its_namespace() {
    let raw = module_importing(&[("index", "store.set"), ("env", "abort"), ("index", "log.log")]);
    let m = ValidModule::new(&raw).unwrap();
    assert_eq!(m.user_module, "index");
}

#[test]
fn module_with_two_namespaces_is_refused() {
    let raw = module_importing(&[("a", "f"), ("b", "g")]);
    assert!(matches!(ValidModule::new(&raw), Err(ValidationError::NamespaceCount { count: 2 })));
}

#[test]
fn malformed_module_is_refused() {
    assert!(matches!(ValidModule::new(&[1, 2, 3]), Err(ValidationError::Parse(_))));
}

#[test]
fn instance_needs_memory_and_allocator() {
    let raw = module_importing(&[("index", "f")]);
    let vm = ValidModule::new(&raw).unwrap();
    let r = WasmiModule::from_valid_module_with_ctx(
        &vm,
        context(ApiVersion::new(0, 0, 4)),
        strings(&["memory"]),
        Vec::new(),
    );
    assert!(matches!(r, Err(MappingError::MissingExport(n)) if n == "memory.allocate"));
    let r = WasmiModule::from_valid_module_with_ctx(
        &vm,
        context(ApiVersion::new(0, 0, 4)),
        strings(&["memory.allocate", "h"]),
        Vec::new(),
    );
    assert!(matches!(r, Err(MappingError::MissingExport(n)) if n == "memory"));
    let m = WasmiModule::from_valid_module_with_ctx(
        &vm,
        context(ApiVersion::new(0, 0, 4)),
        strings(&["memory", "memory.allocate", "h"]),
        vec![0; 64],
    )
    .unwrap();
    assert_eq!(m.user_module, "index");
    assert_eq!(m.heap.arena_start_ptr, 0);
    assert_eq!(m.heap.arena_free_size, 0);
    assert_eq!(m.heap.memory.len(), 64);
}

fn instance(version: ApiVersion) -> WasmiModule {
    WasmiModule {
        ctx: context(version),
        heap: AscHeap::new(Vec::new()),
        exports: strings(&["memory", "memory.allocate", "handleTransfer", "handleCall", "handleBlock"]),
        user_module: "index".to_string(),
    }
}

#[test]
fn log_handler_happy_path() {
    let mut m = instance(ApiVersion::new(0, 0, 2));
    let trigger = log_trigger("handleTransfer");
    let call = m.prepare_handler(&trigger).unwrap();
    assert_eq!(call.handler, "handleTransfer");
    assert_eq!(call.layout, ArgumentLayout::Event(EventLayout::WithTransactionDetails));
    let mut data = Entity::new();
    data.push("x".to_string(), StoreValue::Int(42));
    m.ctx.store_set("Foo".to_string(), "1".to_string(), data);
    let state = m.finish(Ok(())).unwrap();
    assert_eq!(state.entity_cache.updates.len(), 1);
    let pending = state.entity_cache.get(&key("Foo", "1")).unwrap().unwrap();
    let mut want = Entity::new();
    want.push("x".to_string(), StoreValue::Int(42));
    assert!(pending.same(&want));
    assert!(state.created_data_sources.is_empty());
}

#[test]
fn unknown_handler_is_missing_and_state_is_kept() {
    let mut m = instance(ApiVersion::new(0, 0, 4));
    m.ctx.store_set("Foo".to_string(), "1".to_string(), entity("1"));
    let trigger = block_trigger("handleNothing");
    assert!(matches!(
        m.prepare_handler(&trigger),
        Err(MappingError::HandlerMissing(n)) if n == "handleNothing"
    ));
    assert_eq!(m.ctx.state.entity_cache.updates.len(), 1);
    assert!(m.ctx.state.entity_cache.get(&key("Foo", "1")).is_some());
}

#[test]
fn trapped_handler_returns_the_trap_only() {
    let mut m = instance(ApiVersion::new(0, 0, 4));
    m.ctx.store_set("Foo".to_string(), "1".to_string(), entity("1"));
    let r = m.finish(Err(Trap::Abort("Mapping aborted at f.ts, line 10, column 3, with message: bad".to_string())));
    match r {
        Err(MappingError::Trap(Trap::Abort(t))) => assert!(t.contains("bad")),
        other => panic!("unexpected {:?}", other),
    }
}

#[test]
fn call_layout_follows_api_version() {
    let m = instance(ApiVersion::new(0, 0, 3));
    let call = m.prepare_handler(&call_trigger("handleCall")).unwrap();
    assert_eq!(call.layout, ArgumentLayout::Call(CallLayout::WithDetails));
    let m = instance(ApiVersion::new(0, 0, 2));
    let call = m.prepare_handler(&call_trigger("handleCall")).unwrap();
    assert_eq!(call.layout, ArgumentLayout::Call(CallLayout::Legacy));
    let m = instance(ApiVersion::new(0, 0, 1));
    let call = m.prepare_handler(&log_trigger("handleTransfer")).unwrap();
    assert_eq!(call.layout, ArgumentLayout::Event(EventLayout::Legacy));
    let call = m.prepare_handler(&block_trigger("handleBlock")).unwrap();
    assert_eq!(call.layout, ArgumentLayout::Block);
}

#[test]
fn version_boundaries() {
    let v = |s: &str| ApiVersion::parse(s).unwrap();
    assert_eq!(event_layout(&v("0.0.1")), EventLayout::Legacy);
    assert_eq!(event_layout(&v("0.0.2")), EventLayout::WithTransactionDetails);
    assert_eq!(call_layout(&v("0.0.2")), CallLayout::Legacy);
    assert_eq!(call_layout(&v("0.0.3")), CallLayout::WithDetails);
    assert_eq!(contract_call_layout(&v("0.0.3")), ContractCallLayout::Legacy);
    assert_eq!(contract_call_layout(&v("0.0.4")), ContractCallLayout::WithSignature);
    assert_eq!(contract_call_layout(&v("0.0.4-alpha")), ContractCallLayout::Legacy);
    assert_eq!(contract_call_layout(&v("0.1.0")), ContractCallLayout::WithSignature);
    assert_eq!(contract_call_layout(&v("1.0.0")), ContractCallLayout::WithSignature);
    assert_eq!(ApiVersion::parse("0.0"), None);
    assert_eq!(
        ApiVersion::parse("1.2.3-rc.1"),
        Some(ApiVersion { major: 1, minor: 2, patch: 3, pre_release: true })
    );
}

#[test]
fn store_reads_its_own_writes() {
    let mut ctx = context(ApiVersion::new(0, 0, 4));
    let foo = "Foo".to_string();
    let one = "1".to_string();
    assert!(ctx.store_get(&foo, &one, None).is_none());
    assert!(ctx.store_get(&foo, &one, Some(entity("stored"))).unwrap().same(&entity("stored")));
    ctx.store_set(foo.clone(), one.clone(), entity("mine"));
    assert!(ctx.store_get(&foo, &one, Some(entity("stored"))).unwrap().same(&entity("mine")));
    ctx.store_set(foo.clone(), one.clone(), entity("again"));
    assert!(ctx.store_get(&foo, &one, None).unwrap().same(&entity("again")));
    assert_eq!(ctx.state.entity_cache.updates.len(), 1);
    ctx.store_remove(foo.clone(), one.clone());
    assert!(ctx.store_get(&foo, &one, Some(entity("stored"))).is_none());
    assert_eq!(ctx.proof_of_indexing.len(), 3);
}

#[test]
fn unknown_template_traps() {
    let mut ctx = context(ApiVersion::new(0, 0, 4));
    assert!(matches!(
        ctx.data_source_create("Nope".to_string(), vec![], None),
        Err(Trap::UnknownTemplate(n)) if n == "Nope"
    ));
    assert!(ctx.state.created_data_sources.is_empty());
    ctx.data_source_create("Token".to_string(), strings(&["0xabc"]), Some(entity("c"))).unwrap();
    assert_eq!(ctx.state.created_data_sources.len(), 1);
    assert_eq!(ctx.state.created_data_sources[0].template, "Token");
    assert_eq!(ctx.state.created_data_sources[0].params, strings(&["0xabc"]));
}

#[test]
fn derived_context_starts_empty() {
    let mut ctx = context(ApiVersion::new(0, 0, 3));
    ctx.store_set("Foo".to_string(), "1".to_string(), entity("1"));
    let d = ctx.derive_with_empty_block_state();
    assert_eq!(d.host_exports.api_version, ApiVersion::new(0, 0, 3));
    assert_eq!(d.host_exports.templates, ctx.host_exports.templates);
    assert_eq!(d.host_exports.data_source_network, "mainnet");
    assert!(d.state.entity_cache.updates.is_empty());
    assert!(d.state.created_data_sources.is_empty());
    assert!(d.proof_of_indexing.is_empty());
}

#[test]
fn ipfs_map_merges_callback_states_in_order() {
    let mut ctx = context(ApiVersion::new(0, 0, 4));
    let mut outputs = Vec::new();
    for id in ["a", "b", "c"] {
        let mut d = ctx.derive_with_empty_block_state();
        d.store_set("Item".to_string(), id.to_string(), entity(id));
        d.data_source_create("Pool".to_string(), strings(&[id]), None).unwrap();
        outputs.push(d.state);
    }
    ctx.merge_states(outputs).unwrap();
    for id in ["a", "b", "c"] {
        let e = ctx.state.entity_cache.get(&key("Item", id)).unwrap().unwrap();
        assert!(e.same(&entity(id)));
    }
    let params: Vec<Vec<String>> =
        ctx.state.created_data_sources.iter().map(|d| d.params.clone()).collect();
    assert_eq!(params, vec![strings(&["a"]), strings(&["b"]), strings(&["c"])]);
}

#[test]
fn conflicting_writes_fail_to_merge() {
    let mut ctx = context(ApiVersion::new(0, 0, 4));
    ctx.store_set("Item".to_string(), "a".to_string(), entity("first"));
    let mut same = BlockState::new();
    same.entity_cache.apply(key("Item", "a"), Some(entity("first")));
    let mut other = BlockState::new();
    other.entity_cache.apply(key("Item", "a"), Some(entity("second")));
    ctx.merge_states(vec![same]).unwrap();
    assert!(matches!(
        ctx.merge_states(vec![other]),
        Err(Trap::MergeConflict(k)) if k.entity_id == "a"
    ));
    let e = ctx.state.entity_cache.get(&key("Item", "a")).unwrap().unwrap();
    assert!(e.same(&entity("first")));
}

#[test]
fn removal_is_laid_over_a_write() {
    let mut base = BlockState::new();
    base.entity_cache.apply(key("Item", "a"), Some(entity("a")));
    let mut later = BlockState::new();
    later.entity_cache.apply(key("Item", "a"), None);
    later.entity_cache.apply(key("Item", "b"), Some(entity("b")));
    base.extend(later).unwrap();
    assert!(matches!(base.entity_cache.get(&key("Item", "a")), Some(None)));
    assert!(base.entity_cache.get(&key("Item", "b")).unwrap().unwrap().same(&entity("b")));
    assert!(base.entity_cache.get(&key("Item", "c")).is_none());
}

#[test]
fn derived_contexts_bring_back_their_records() {
    let mut ctx = context(ApiVersion::new(0, 0, 4));
    ctx.store_set("Parent".to_string(), "p".to_string(), entity("p"));
    let mut outputs = Vec::new();
    for id in ["a", "b", "c"] {
        let mut d = ctx.derive_with_empty_block_state();
        d.store_set("Item".to_string(), id.to_string(), entity(id));
        outputs.push(d);
    }
    ctx.merge_derived(outputs).unwrap();
    let ids: Vec<String> = ctx
        .proof_of_indexing
        .iter()
        .map(|e| match e {
            mapping_runtime::host::PoiEvent::SetEntity(k, _) => k.entity_id.clone(),
            mapping_runtime::host::PoiEvent::RemoveEntity(k) => format!("-{}", k.entity_id),
        })
        .collect();
    assert_eq!(ids, strings(&["p", "a", "b", "c"]));
    for id in ["p", "a", "b", "c"] {
        assert!(ctx.state.entity_cache.get(&key(if id == "p" { "Parent" } else { "Item" }, id)).is_some());
    }
}

fn sample_block() -> EthereumBlockData {
    EthereumBlockData {
        hash: vec![0x11; 32],
        parent_hash: vec![0x22; 32],
        uncles_hash: vec![0x33; 32],
        author: vec![0x44; 20],
        state_root: vec![0x55; 32],
        transactions_root: vec![0x66; 32],
        receipts_root: vec![0x77; 32],
        number: vec![0x10, 0x27],
        gas_used: vec![1],
        gas_limit: vec![2],
        timestamp: vec![3],
        difficulty: vec![4],
        total_difficulty: vec![5],
        size: None,
    }
}

fn sample_transaction() -> EthereumTransactionData {
    EthereumTransactionData {
        hash: vec![0xaa; 32],
        index: vec![0],
        from: vec![0xbb; 20],
        to: Some(vec![0xcc; 20]),
        value: vec![9],
        gas_used: vec![8],
        gas_price: vec![7],
        input: vec![0xde, 0xad],
    }
}

fn one_param() -> Vec<LogParam> {
    vec![LogParam { name: "value".to_string(), value: Token::Uint(vec![42]) }]
}

fn log_trigger(handler: &str) -> MappingTrigger {
    MappingTrigger::Log {
        handler: handler.to_string(),
        transaction: sample_transaction(),
        log: EthereumLogData {
            address: vec![0xcc; 20],
            log_index: vec![1],
            transaction_log_index: vec![1],
            log_type: None,
        },
        params: one_param(),
    }
}

fn call_trigger(handler: &str) -> MappingTrigger {
    MappingTrigger::Call {
        handler: handler.to_string(),
        transaction: sample_transaction(),
        call: EthereumCallData { to: vec![0xcc; 20], from: vec![0xbb; 20] },
        inputs: one_param(),
        outputs: Vec::new(),
    }
}

fn block_trigger(handler: &str) -> MappingTrigger {
    MappingTrigger::Block { handler: handler.to_string() }
}

struct Bump {
    next: u32,
}

impl mapping_runtime::heap::GuestAllocator for Bump {
    fn allocate(&mut self, memory: &mut Vec<u8>, size: u32) -> Option<u32> {
        let p = self.next;
        let end = (p + size) as usize;
        if memory.len() < end {
            memory.resize(end, 0);
        }
        self.next = p + size;
        Some(p)
    }
}

fn word(m: &WasmiModule, p: u32) -> u32 {
    let b = m.heap.get(p, 4).unwrap();
    u32::from_le_bytes([b[0], b[1], b[2], b[3]])
}

#[test]
fn call_argument_layout_follows_api_version() {
    let mut m = instance(ApiVersion::new(0, 0, 3));
    let mut a = Bump { next: 8 };
    let (call, p) = m.handle_trigger(&mut a, &call_trigger("handleCall")).unwrap();
    assert_eq!(call.layout, ArgumentLayout::Call(CallLayout::WithDetails));
    assert_eq!(asc_get_bytes(&m.heap, word(&m, p)).unwrap(), vec![0xcc; 20]);
    assert_eq!(asc_get_bytes(&m.heap, word(&m, p + 4)).unwrap(), vec![0xbb; 20]);
    let tx = word(&m, p + 12);
    assert_eq!(asc_get_bytes(&m.heap, word(&m, tx + 28)).unwrap(), vec![0xde, 0xad]);

    let mut m = instance(ApiVersion::new(0, 0, 2));
    let mut a = Bump { next: 8 };
    let (call, p) = m.handle_trigger(&mut a, &call_trigger("handleCall")).unwrap();
    assert_eq!(call.layout, ArgumentLayout::Call(CallLayout::Legacy));
    let block = word(&m, p + 4);
    assert_eq!(asc_get_bytes(&m.heap, word(&m, block)).unwrap(), vec![0x11; 32]);
    let inputs = word(&m, p + 12);
    assert_eq!(word(&m, inputs), 1);
}

#[test]
fn log_argument_carries_event_and_params() {
    let mut m = instance(ApiVersion::new(0, 0, 2));
    let mut a = Bump { next: 8 };
    let (call, p) = m.handle_trigger(&mut a, &log_trigger("handleTransfer")).unwrap();
    assert_eq!(call.handler, "handleTransfer");
    assert_eq!(asc_get_bytes(&m.heap, word(&m, p)).unwrap(), vec![0xcc; 20]);
    assert_eq!(word(&m, p + 12), 0);
    let tx = word(&m, p + 20);
    assert_eq!(asc_get_bytes(&m.heap, word(&m, tx + 28)).unwrap(), vec![0xde, 0xad]);
    let params = word(&m, p + 24);
    assert_eq!(word(&m, params), 1);
    let param = word(&m, params + 4);
    assert_eq!(asc_get_string(&m.heap, word(&m, param)).unwrap(), "value");
    let token = word(&m, param + 4);
    assert_eq!(word(&m, token), 4);
    assert_eq!(asc_get_bytes(&m.heap, word(&m, token + 8)).unwrap(), vec![42]);
}

#[test]
fn block_argument_and_missing_handler() {
    let mut m = instance(ApiVersion::new(0, 0, 4));
    let mut a = Bump { next: 8 };
    let (call, p) = m.handle_trigger(&mut a, &block_trigger("handleBlock")).unwrap();
    assert_eq!(call.layout, ArgumentLayout::Block);
    assert_eq!(asc_get_bytes(&m.heap, word(&m, p + 28)).unwrap(), vec![0x10, 0x27]);
    assert_eq!(word(&m, p + 52), 0);
    let before = m.heap.memory.clone();
    assert!(matches!(
        m.handle_trigger(&mut a, &block_trigger("nothing")),
        Err(MappingError::HandlerMissing(n)) if n == "nothing"
    ));
    assert_eq!(m.heap.memory, before);
}

#[test]
fn conflicting_callback_writes_fail_even_with_a_removal_between() {
    let mut ctx = context(ApiVersion::new(0, 0, 4));
    let mut first = BlockState::new();
    first.entity_cache.apply(key("Item", "a"), Some(entity("x")));
    let mut middle = BlockState::new();
    middle.entity_cache.apply(key("Item", "a"), None);
    let mut last = BlockState::new();
    last.entity_cache.apply(key("Item", "a"), Some(entity("y")));
    assert!(matches!(
        ctx.merge_states(vec![first, middle, last]),
        Err(Trap::MergeConflict(k)) if k.entity_id == "a"
    ));
    assert!(ctx.state.entity_cache.updates.is_empty());
}

fn place_words(m: &mut WasmiModule, a: &mut Bump, words: &[u32]) -> u32 {
    let mut image = Vec::new();
    for w in words {
        image.extend_from_slice(&w.to_le_bytes());
    }
    m.heap.raw_new(a, &image).unwrap()
}

fn contract_call_in_memory(m: &mut WasmiModule, a: &mut Bump, with_signature: bool) -> u32 {
    let name = asc_new_string(&mut m.heap, a, "Token").unwrap();
    let address = asc_new_bytes(&mut m.heap, a, &[0xcc; 20]).unwrap();
    let function = asc_new_string(&mut m.heap, a, "balanceOf").unwrap();
    let owner = asc_new_bytes(&mut m.heap, a, &[0xbb; 20]).unwrap();
    let arg = place_words(m, a, &[0, 0, owner, 0]);
    let flag = place_words(m, a, &[5, 0, 1, 0]);
    let args = asc_new_ptrs(&mut m.heap, a, &vec![arg, flag]).unwrap();
    if with_signature {
        let sig = asc_new_string(&mut m.heap, a, "balanceOf(address):(uint256)").unwrap();
        place_words(m, a, &[name, address, function, sig, args])
    } else {
        place_words(m, a, &[name, address, function, args])
    }
}

#[test]
fn contract_call_layout_follows_api_version() {
    for (version, with_signature) in [(ApiVersion::new(0, 0, 4), true), (ApiVersion::new(0, 0, 3), false)] {
        let mut m = instance(version);
        let mut a = Bump { next: 8 };
        let p = contract_call_in_memory(&mut m, &mut a, with_signature);
        let c = m.ethereum_call_request(p).unwrap();
        assert_eq!(c.contract_name, "Token");
        assert_eq!(c.contract_address, vec![0xcc; 20]);
        assert_eq!(c.function_name, "balanceOf");
        assert_eq!(c.function_signature.is_some(), with_signature);
        assert_eq!(c.function_args.len(), 2);
        assert!(matches!(&c.function_args[0], Token::Address(b) if *b == vec![0xbb; 20]));
        assert!(matches!(c.function_args[1], Token::Bool(true)));
    }
}

#[test]
fn contract_call_result_becomes_a_value_array_or_null() {
    let mut m = instance(ApiVersion::new(0, 0, 4));
    let mut a = Bump { next: 8 };
    assert!(matches!(m.tokens_or_null(&mut a, None), Ok(0)));
    let p = m
        .tokens_or_null(&mut a, Some(vec![Token::Uint(vec![7]), Token::String("ok".to_string())]))
        .unwrap();
    assert_eq!(word(&m, p), 2);
    let first = word(&m, p + 4);
    assert_eq!(word(&m, first), 4);
    assert_eq!(asc_get_bytes(&m.heap, word(&m, first + 8)).unwrap(), vec![7]);
    let second = word(&m, p + 8);
    assert_eq!(asc_get_string(&m.heap, word(&m, second + 8)).unwrap(), "ok");
}
