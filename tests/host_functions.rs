use mapping_runtime::entity::{Entity, StoreValue};
use mapping_runtime::entity_abi::asc_get_entity;
use mapping_runtime::heap::{AscHeap, GuestAllocator};
use mapping_runtime::asc::{asc_get_bytes, asc_get_string, asc_new_bytes, asc_new_ptrs, asc_new_string};
use mapping_runtime::host::{HostExports, MappingContext, PoiEvent, Trap};
use mapping_runtime::instance::{log_level, LogLevel, WasmiModule};
use mapping_runtime::resolver::{HostFunction, ModuleResolver};
use mapping_runtime::state::BlockState;
use mapping_runtime::text::{abort_message, bytes_to_string, hex_with_prefix};
use mapping_runtime::version::ApiVersion;

struct BumpAllocator {
    next: u32,
}

impl GuestAllocator for BumpAllocator {
    fn allocate(&mut self, memory: &mut Vec<u8>, size: u32) -> Option<u32> {
        let p = self.next;
        let end = (p + size) as usize;
        if memory.len() < end {
            memory.resize(end, 0);
        }
        self.next = p + size;
        Some(p)
    }
}

fn context() -> MappingContext {
    MappingContext {
        host_exports: HostExports {
            api_version: ApiVersion::new(0, 0, 4),
            templates: vec!["Pool".to_string()],
            data_source_network: "mainnet".to_string(),
            data_source_address: vec![0xab; 20],
            data_source_context: Entity::new(),
        },
        state: BlockState::new(),
        proof_of_indexing: Vec::new(),
        block: sample_block(),
    }
}

fn instance() -> WasmiModule {
    WasmiModule {
        ctx: context(),
        heap: AscHeap::new(Vec::new()),
        exports: vec!["memory".to_string(), "memory.allocate".to_string(), "handleTransfer".to_string()],
        user_module: "index".to_string(),
    }
}

fn bump() -> BumpAllocator {
    BumpAllocator { next: 8 }
}

fn signed_le(v: i64) -> Vec<u8> {
    let mut b = v.to_le_bytes().to_vec();
    while b.len() > 1 {
        let last = b[b.len() - 1];
        let prev = b[b.len() - 2];
        if (last == 0 && prev < 0x80) || (last == 0xff && prev >= 0x80) {
            b.pop();
        } else {
            break;
        }
    }
    b
}

fn value_of(b: &[u8]) -> i64 {
    let mut v: i64 = if b.last().map_or(false, |x| *x >= 0x80) { -1 } else { 0 };
    for byte in b.iter().rev() {
        v = (v << 8) | (*byte as i64);
    }
    v
}

#[test]
fn bytes_to_hex_has_prefix_and_lowercase_digits() {
    assert_eq!(hex_with_prefix(&[0x01, 0xab, 0xff, 0x00]), "0x01abff00");
    assert_eq!(hex_with_prefix(&[]), "0x");
}

#[test]
fn bytes_to_hex_through_guest_memory() {
    let mut m = instance();
    let mut a = bump();
    let p = asc_new_bytes(&mut m.heap, &mut a, &[0xde, 0xad, 0x0b]).unwrap();
    let q = m.bytes_to_hex(&mut a, p).unwrap();
    assert_eq!(asc_get_string(&m.heap, q).unwrap(), "0xdead0b");
    let e = asc_new_bytes(&mut m.heap, &mut a, &[]).unwrap();
    let q = m.bytes_to_hex(&mut a, e).unwrap();
    assert_eq!(asc_get_string(&m.heap, q).unwrap(), "0x");
}

#[test]
fn string_survives_hex_round_trip() {
    let text = "héllo";
    let hex = hex_with_prefix(text.as_bytes());
    assert!(hex.starts_with("0x"));
    assert_eq!(hex, "0x68c3a96c6c6f");
    let bytes = hex::decode(&hex[2..]).unwrap();
    assert_eq!(bytes, text.as_bytes());
    assert_eq!(bytes_to_string(&bytes), text);

    let mut m = instance();
    let mut a = bump();
    let p = asc_new_bytes(&mut m.heap, &mut a, &bytes).unwrap();
    let s = m.bytes_to_string(&mut a, p).unwrap();
    assert_eq!(asc_get_string(&m.heap, s).unwrap(), text);
}

#[test]
fn bytes_to_string_trims_trailing_zeros_and_replaces_invalid_bytes() {
    assert_eq!(bytes_to_string(b"abc\0\0\0"), "abc");
    assert_eq!(bytes_to_string(b"a\0b"), "a\0b");
    assert_eq!(bytes_to_string(&[0x61, 0xff]), "a\u{fffd}");
    assert_eq!(bytes_to_string(&[]), "");
}

#[test]
fn abort_traps_with_message_and_position() {
    let mut m = instance();
    let mut a = bump();
    let msg = asc_new_string(&mut m.heap, &mut a, "bad").unwrap();
    let file = asc_new_string(&mut m.heap, &mut a, "f.ts").unwrap();
    match m.abort(msg, file, 10, 3) {
        Trap::Abort(text) => {
            assert_eq!(text, "Mapping aborted at f.ts, line 10, column 3, with message: bad");
            for part in ["bad", "f.ts", "10", "3"] {
                assert!(text.contains(part));
            }
        }
        other => panic!("unexpected trap {:?}", other),
    }
}

#[test]
fn abort_reports_missing_parts_as_unknown() {
    let m = instance();
    match m.abort(0, 0, 0, 0) {
        Trap::Abort(text) => assert_eq!(
            text,
            "Mapping aborted at an unknown file, line unknown, column unknown, with no message"
        ),
        other => panic!("unexpected trap {:?}", other),
    }
    assert_eq!(
        abort_message(Some("m".to_string()), Some("x.ts".to_string()), Some(-7), None),
        "Mapping aborted at x.ts, line -7, column unknown, with message: m"
    );
}

#[test]
fn abort_with_unreadable_message_is_a_memory_trap() {
    let m = instance();
    assert!(matches!(m.abort(1_000_000, 0, 1, 1), Trap::Memory(_)));
}

#[test]
fn big_int_arithmetic() {
    let mut m = instance();
    let mut a = bump();
    let x = asc_new_bytes(&mut m.heap, &mut a, &signed_le(-1125)).unwrap();
    let y = asc_new_bytes(&mut m.heap, &mut a, &signed_le(100)).unwrap();
    let get = |m: &WasmiModule, p: u32| value_of(&asc_get_bytes(&m.heap, p).unwrap());
    let r = m.big_int_plus(&mut a, x, y).unwrap();
    assert_eq!(get(&m, r), -1025);
    let r = m.big_int_minus(&mut a, x, y).unwrap();
    assert_eq!(get(&m, r), -1225);
    let r = m.big_int_times(&mut a, x, y).unwrap();
    assert_eq!(get(&m, r), -112_500);
    let r = m.big_int_divided_by(&mut a, x, y).unwrap();
    assert_eq!(get(&m, r), -11);
    let r = m.big_int_mod(&mut a, x, y).unwrap();
    assert_eq!(get(&m, r), -25);
    let r = m.big_int_pow(&mut a, y, 3).unwrap();
    assert_eq!(get(&m, r), 1_000_000);
    let r = m.big_int_to_string(&mut a, x).unwrap();
    assert_eq!(asc_get_string(&m.heap, r).unwrap(), "-1125");
    assert_eq!(signed_le(-1125), vec![155, 251]);
}

#[test]
fn big_int_division_by_zero_traps_without_side_effects() {
    let mut m = instance();
    let mut a = bump();
    let x = asc_new_bytes(&mut m.heap, &mut a, &signed_le(7)).unwrap();
    let zero = asc_new_bytes(&mut m.heap, &mut a, &[0, 0]).unwrap();
    let empty = asc_new_bytes(&mut m.heap, &mut a, &[]).unwrap();
    m.ctx.store_set("Foo".to_string(), "1".to_string(), Entity::new());
    let memory = m.heap.memory.clone();
    let (start, free) = (m.heap.arena_start_ptr, m.heap.arena_free_size);
    assert!(matches!(m.big_int_divided_by(&mut a, x, zero), Err(Trap::DivisionByZero)));
    assert!(matches!(m.big_int_divided_by(&mut a, x, empty), Err(Trap::DivisionByZero)));
    assert!(matches!(m.big_int_mod(&mut a, x, zero), Err(Trap::DivisionByZero)));
    assert_eq!(m.heap.memory, memory);
    assert_eq!((m.heap.arena_start_ptr, m.heap.arena_free_size), (start, free));
    assert_eq!(m.ctx.state.entity_cache.updates.len(), 1);
    assert_eq!(m.ctx.proof_of_indexing.len(), 1);
}

#[test]
fn keccak_and_base58() {
    let mut m = instance();
    let mut a = bump();
    let e = asc_new_bytes(&mut m.heap, &mut a, &[]).unwrap();
    let d = m.crypto_keccak_256(&mut a, e).unwrap();
    assert_eq!(
        hex::encode(asc_get_bytes(&m.heap, d).unwrap()),
        "c5d2460186f7233c927e7db2dcc703c0e500b653ca82273b7bfad8045d85a470"
    );
    let h = asc_new_bytes(&mut m.heap, &mut a, b"hello world").unwrap();
    let s = m.bytes_to_base58(&mut a, h).unwrap();
    assert_eq!(asc_get_string(&m.heap, s).unwrap(), "StV1DL6CwTryKyV");
}

#[test]
fn failed_fetch_becomes_null() {
    let mut m = instance();
    let mut a = bump();
    assert!(matches!(m.bytes_or_null(&mut a, None), Ok(0)));
    let p = m.bytes_or_null(&mut a, Some(vec![1, 2, 3])).unwrap();
    assert_ne!(p, 0);
    assert_eq!(asc_get_bytes(&m.heap, p).unwrap(), vec![1, 2, 3]);
}

#[test]
fn store_remove_reads_guest_strings() {
    let mut m = instance();
    let mut a = bump();
    m.ctx.store_set("Foo".to_string(), "1".to_string(), Entity::new());
    let e = asc_new_string(&mut m.heap, &mut a, "Foo").unwrap();
    let i = asc_new_string(&mut m.heap, &mut a, "1").unwrap();
    m.store_remove(e, i).unwrap();
    assert!(m
        .ctx
        .store_get(&"Foo".to_string(), &"1".to_string(), Some(Entity::new()))
        .is_none());
    assert!(matches!(m.store_remove(1_000_000, i), Err(Trap::Memory(_))));
    assert!(matches!(m.ctx.proof_of_indexing.last(), Some(PoiEvent::RemoveEntity(_))));
}

#[test]
fn log_levels() {
    assert_eq!(log_level(1), LogLevel::Error);
    assert_eq!(log_level(2), LogLevel::Warning);
    assert_eq!(log_level(3), LogLevel::Info);
    assert_eq!(log_level(4), LogLevel::Debug);
    assert_eq!(log_level(0), LogLevel::Info);
    assert_eq!(log_level(99), LogLevel::Info);
}

#[test]
fn resolver_knows_the_catalog() {
    let r = ModuleResolver;
    assert_eq!(r.resolve_func("store.set"), Ok(HostFunction::StoreSet));
    assert_eq!(r.resolve_func("bigInt.dividedBy"), Ok(HostFunction::BigIntDividedBy));
    assert_eq!(r.resolve_func("json.try_fromBytes"), Ok(HostFunction::JsonTryFromBytes));
    assert_eq!(r.resolve_func("box.profile"), Ok(HostFunction::BoxProfile));
    assert_eq!(r.resolve_func("nope.nope"), Err("Export 'nope.nope' not found".to_string()));
    assert!(r.resolve_func("abort").is_err());
}

#[test]
fn entity_values_compare_by_contents() {
    let mut e = Entity::new();
    e.push("x".to_string(), StoreValue::Int(42));
    e.push("b".to_string(), StoreValue::Bytes(vec![1, 2]));
    let d = e.duplicate();
    assert!(e.same(&d));
    let mut f = Entity::new();
    f.push("x".to_string(), StoreValue::Int(43));
    f.push("b".to_string(), StoreValue::Bytes(vec![1, 2]));
    assert!(!e.same(&f));
    assert!(StoreValue::BigInt(vec![1]).same(&StoreValue::BigInt(vec![1])));
    assert!(!StoreValue::BigInt(vec![1]).same(&StoreValue::Bytes(vec![1])));
}

#[test]
fn json_numbers_are_read_from_decimal_text() {
    let mut m = instance();
    let mut a = bump();
    let p = asc_new_string(&mut m.heap, &mut a, "-42").unwrap();
    assert!(matches!(m.json_to_i64(p), Ok(-42)));
    assert!(matches!(m.json_to_u64(p), Err(Trap::NotANumber(t)) if t == "-42"));
    let q = asc_new_string(&mut m.heap, &mut a, "18446744073709551615").unwrap();
    assert!(matches!(m.json_to_u64(q), Ok(u64::MAX)));
    assert!(matches!(m.json_to_i64(q), Err(Trap::NotANumber(_))));
    let big = asc_new_string(&mut m.heap, &mut a, "-1125").unwrap();
    let r = m.json_to_big_int(&mut a, big).unwrap();
    assert_eq!(asc_get_bytes(&m.heap, r).unwrap(), vec![155, 251]);
    let bad = asc_new_string(&mut m.heap, &mut a, "1.5").unwrap();
    assert!(matches!(m.json_to_big_int(&mut a, bad), Err(Trap::NotANumber(t)) if t == "1.5"));
    assert!(matches!(m.json_to_i64(1_000_000), Err(Trap::Memory(_))));
    let plus = asc_new_string(&mut m.heap, &mut a, "+7").unwrap();
    assert!(matches!(m.json_to_i64(plus), Ok(7)));
    assert!(matches!(m.json_to_u64(plus), Ok(7)));
    let sign_only = asc_new_string(&mut m.heap, &mut a, "-").unwrap();
    assert!(matches!(m.json_to_i64(sign_only), Err(Trap::NotANumber(_))));
}

#[test]
fn data_source_create_reads_guest_arguments() {
    let mut m = instance();
    let mut a = bump();
    let name = asc_new_string(&mut m.heap, &mut a, "Pool").unwrap();
    let first = asc_new_string(&mut m.heap, &mut a, "0xabc").unwrap();
    let second = asc_new_string(&mut m.heap, &mut a, "7").unwrap();
    let params = asc_new_ptrs(&mut m.heap, &mut a, &vec![first, second]).unwrap();
    m.data_source_create(name, params).unwrap();
    let created = &m.ctx.state.created_data_sources;
    assert_eq!(created.len(), 1);
    assert_eq!(created[0].template, "Pool");
    assert_eq!(created[0].params, vec!["0xabc".to_string(), "7".to_string()]);
    assert!(created[0].context.is_none());
    let unknown = asc_new_string(&mut m.heap, &mut a, "Nope").unwrap();
    assert!(matches!(m.data_source_create(unknown, params), Err(Trap::UnknownTemplate(_))));
    assert_eq!(m.ctx.state.created_data_sources.len(), 1);
}

#[test]
fn data_source_network_and_address() {
    let mut m = instance();
    let mut a = bump();
    let n = m.data_source_network(&mut a).unwrap();
    assert_eq!(asc_get_string(&m.heap, n).unwrap(), "mainnet");
    let d = m.data_source_address(&mut a).unwrap();
    assert_eq!(asc_get_bytes(&m.heap, d).unwrap(), vec![0xab; 20]);
}

#[test]
fn missing_name_becomes_null() {
    let mut m = instance();
    let mut a = bump();
    assert!(matches!(m.string_or_null(&mut a, None), Ok(0)));
    let p = m.string_or_null(&mut a, Some("vitalik.eth".to_string())).unwrap();
    assert_eq!(asc_get_string(&m.heap, p).unwrap(), "vitalik.eth");
}

fn place(m: &mut WasmiModule, a: &mut BumpAllocator, image: &[u8]) -> u32 {
    m.heap.raw_new(a, image).unwrap()
}

fn tagged(m: &mut WasmiModule, a: &mut BumpAllocator, kind: u32, payload: u32) -> u32 {
    let mut image = kind.to_le_bytes().to_vec();
    image.extend_from_slice(&[0, 0, 0, 0]);
    image.extend_from_slice(&(payload as u64).to_le_bytes());
    place(m, a, &image)
}

fn field(m: &mut WasmiModule, a: &mut BumpAllocator, name: &str, value_ptr: u32) -> u32 {
    let key = asc_new_string(&mut m.heap, a, name).unwrap();
    let mut image = key.to_le_bytes().to_vec();
    image.extend_from_slice(&value_ptr.to_le_bytes());
    place(m, a, &image)
}

#[test]
fn store_set_reads_an_entity_from_guest_memory() {
    let mut m = instance();
    let mut a = bump();
    let name = asc_new_string(&mut m.heap, &mut a, "Transfer").unwrap();
    let x = tagged(&mut m, &mut a, 1, (-5i32) as u32);
    let s = asc_new_string(&mut m.heap, &mut a, "alice").unwrap();
    let from = tagged(&mut m, &mut a, 0, s);
    let b = asc_new_bytes(&mut m.heap, &mut a, &[7, 8]).unwrap();
    let raw = tagged(&mut m, &mut a, 6, b);
    let t = tagged(&mut m, &mut a, 3, 1);
    let n = tagged(&mut m, &mut a, 5, 0);
    let fields = vec![
        field(&mut m, &mut a, "x", x),
        field(&mut m, &mut a, "from", from),
        field(&mut m, &mut a, "raw", raw),
        field(&mut m, &mut a, "ok", t),
        field(&mut m, &mut a, "none", n),
    ];
    let entries = asc_new_ptrs(&mut m.heap, &mut a, &fields).unwrap();
    let entity = place(&mut m, &mut a, &entries.to_le_bytes());
    let id = asc_new_string(&mut m.heap, &mut a, "0x1").unwrap();
    m.store_set(name, id, entity).unwrap();

    let mut want = Entity::new();
    want.push("x".to_string(), StoreValue::Int(-5));
    want.push("from".to_string(), StoreValue::String("alice".to_string()));
    want.push("raw".to_string(), StoreValue::Bytes(vec![7, 8]));
    want.push("ok".to_string(), StoreValue::Bool(true));
    want.push("none".to_string(), StoreValue::Null);
    let got = m.ctx.store_get(&"Transfer".to_string(), &"0x1".to_string(), None).unwrap();
    assert!(got.same(&want));
    assert!(matches!(m.ctx.proof_of_indexing.last(), Some(PoiEvent::SetEntity(_, d)) if d.same(&want)));
}

#[test]
fn store_set_refuses_an_unknown_value_kind() {
    let mut m = instance();
    let mut a = bump();
    let name = asc_new_string(&mut m.heap, &mut a, "Foo").unwrap();
    let odd = tagged(&mut m, &mut a, 4, 0);
    let fields = vec![field(&mut m, &mut a, "list", odd)];
    let entries = asc_new_ptrs(&mut m.heap, &mut a, &fields).unwrap();
    let entity = place(&mut m, &mut a, &entries.to_le_bytes());
    assert!(matches!(
        m.store_set(name, name, entity),
        Err(Trap::Memory(mapping_runtime::asc::AscError::UnsupportedKind(4)))
    ));
    assert!(m.ctx.state.entity_cache.updates.is_empty());
    assert!(m.ctx.proof_of_indexing.is_empty());
}

#[test]
fn log_log_reads_level_and_message() {
    let mut m = instance();
    let mut a = bump();
    let msg = asc_new_string(&mut m.heap, &mut a, "hello").unwrap();
    assert!(matches!(m.log_log(2, msg), Ok((LogLevel::Warning, t)) if t == "hello"));
    assert!(matches!(m.log_log(7, msg), Ok((LogLevel::Info, _))));
}

#[test]
fn store_get_writes_the_pending_entity() {
    let mut m = instance();
    let mut a = bump();
    let mut data = Entity::new();
    data.push("x".to_string(), StoreValue::Int(42));
    data.push("name".to_string(), StoreValue::String("héllo".to_string()));
    data.push("big".to_string(), StoreValue::BigInt(vec![155, 251]));
    m.ctx.store_set("Foo".to_string(), "1".to_string(), data.duplicate());
    let e = asc_new_string(&mut m.heap, &mut a, "Foo").unwrap();
    let one = asc_new_string(&mut m.heap, &mut a, "1").unwrap();
    let two = asc_new_string(&mut m.heap, &mut a, "2").unwrap();
    let p = m.store_get(&mut a, e, one, None).unwrap();
    assert!(asc_get_entity(&m.heap, p).unwrap().same(&data));
    assert!(matches!(m.store_get(&mut a, e, two, None), Ok(0)));
    let mut stored = Entity::new();
    stored.push("y".to_string(), StoreValue::Bool(false));
    let q = m.store_get(&mut a, e, two, Some(stored.duplicate())).unwrap();
    assert!(asc_get_entity(&m.heap, q).unwrap().same(&stored));
    m.ctx.store_remove("Foo".to_string(), "1".to_string());
    assert!(matches!(m.store_get(&mut a, e, one, Some(stored)), Ok(0)));
    let key = m.store_key(e, one).unwrap();
    assert_eq!((key.entity_type.as_str(), key.entity_id.as_str()), ("Foo", "1"));
}

#[test]
fn string_to_h160_reads_forty_hex_digits() {
    use_address("0x00000000219ab540356cBB839Cbe05303d7705Fa", Some("00000000219ab540356cbb839cbe05303d7705fa"));
    use_address("00000000219ab540356cbb839cbe05303d7705fa", Some("00000000219ab540356cbb839cbe05303d7705fa"));
    use_address("0x0x00000000219ab540356cbb839cbe05303d7705fa", Some("00000000219ab540356cbb839cbe05303d7705fa"));
    use_address("0x00000000219ab540356cbb839cbe05303d7705f", None);
    use_address("0x00000000219ab540356cbb839cbe05303d7705fz", None);
    use_address("0x", None);
    use_address("", None);
}

fn use_address(text: &str, want: Option<&str>) {
    assert_eq!(
        mapping_runtime::text::address_from_hex(text).map(hex::encode),
        want.map(|w| w.to_string())
    );
    let mut m = instance();
    let mut a = bump();
    let p = asc_new_string(&mut m.heap, &mut a, text).unwrap();
    match (m.string_to_h160(&mut a, p), want) {
        (Ok(q), Some(w)) => assert_eq!(hex::encode(asc_get_bytes(&m.heap, q).unwrap()), w),
        (Err(Trap::InvalidAddress(t)), None) => assert_eq!(t, text),
        (other, _) => panic!("unexpected {:?} for {}", other, text),
    }
}

#[test]
fn big_int_to_hex_shows_the_magnitude() {
    let mut m = instance();
    let mut a = bump();
    for (v, want) in [(0i64, "0x0"), (255, "0xff"), (-1125, "0x465"), (4096, "0x1000")] {
        let x = asc_new_bytes(&mut m.heap, &mut a, &signed_le(v)).unwrap();
        let r = m.big_int_to_hex(&mut a, x).unwrap();
        assert_eq!(asc_get_string(&m.heap, r).unwrap(), want);
    }
}

#[test]
fn data_source_with_context_and_context_read() {
    let mut m = instance();
    let mut a = bump();
    let mut ctx_entity = Entity::new();
    ctx_entity.push("owner".to_string(), StoreValue::String("alice".to_string()));
    ctx_entity.push("n".to_string(), StoreValue::Int(3));
    let c = mapping_runtime::entity_abi::asc_new_entity(&mut m.heap, &mut a, &ctx_entity).unwrap();
    let name = asc_new_string(&mut m.heap, &mut a, "Pool").unwrap();
    let param = asc_new_string(&mut m.heap, &mut a, "0x1").unwrap();
    let params = asc_new_ptrs(&mut m.heap, &mut a, &vec![param]).unwrap();
    m.data_source_create_with_context(name, params, c).unwrap();
    let created = &m.ctx.state.created_data_sources[0];
    assert_eq!(created.template, "Pool");
    assert_eq!(created.params, vec!["0x1".to_string()]);
    assert!(created.context.as_ref().unwrap().same(&ctx_entity));

    m.ctx.host_exports.data_source_context = ctx_entity.duplicate();
    let p = m.data_source_context(&mut a).unwrap();
    assert!(asc_get_entity(&m.heap, p).unwrap().same(&ctx_entity));
    assert!(m.ctx.state.entity_cache.is_well_formed());
}

#[test]
fn entity_fitting_the_arena_needs_no_allocation() {
    let mut heap = AscHeap::new(vec![0; 4096]);
    heap.arena_start_ptr = 16;
    heap.arena_free_size = 4000;
    let mut e = Entity::new();
    e.push("k".to_string(), StoreValue::Bytes(vec![1, 2, 3]));
    struct Refuse;
    impl GuestAllocator for Refuse {
        fn allocate(&mut self, _m: &mut Vec<u8>, _s: u32) -> Option<u32> {
            None
        }
    }
    let p = mapping_runtime::entity_abi::asc_new_entity(&mut heap, &mut Refuse, &e).unwrap();
    assert_eq!(p, 16);
    assert!(asc_get_entity(&heap, p).unwrap().same(&e));
}

fn sample_block() -> mapping_runtime::ethereum::EthereumBlockData {
    mapping_runtime::ethereum::EthereumBlockData {
        hash: vec![1; 32],
        parent_hash: vec![2; 32],
        uncles_hash: vec![3; 32],
        author: vec![4; 20],
        state_root: vec![5; 32],
        transactions_root: vec![6; 32],
        receipts_root: vec![7; 32],
        number: vec![1],
        gas_used: vec![1],
        gas_limit: vec![1],
        timestamp: vec![1],
        difficulty: vec![1],
        total_difficulty: vec![1],
        size: Some(vec![2]),
    }
}

fn word_at(m: &WasmiModule, p: u32) -> u32 {
    let b = m.heap.get(p, 4).unwrap();
    u32::from_le_bytes([b[0], b[1], b[2], b[3]])
}

#[test]
fn json_from_bytes_writes_tagged_values() {
    let mut m = instance();
    let mut a = bump();
    let text = br#"{"a":[1.5,true,null],"b":"x"}"#;
    let p = asc_new_bytes(&mut m.heap, &mut a, text).unwrap();
    let v = m.json_from_bytes(&mut a, p).unwrap();
    assert_eq!(word_at(&m, v), 5);
    let entries = word_at(&m, v + 8);
    assert_eq!(word_at(&m, entries), 2);
    let first = word_at(&m, entries + 4);
    assert_eq!(asc_get_string(&m.heap, word_at(&m, first)).unwrap(), "a");
    let array = word_at(&m, first + 4);
    assert_eq!(word_at(&m, array), 4);
    let items = word_at(&m, array + 8);
    assert_eq!(word_at(&m, items), 3);
    let number = word_at(&m, items + 4);
    assert_eq!(word_at(&m, number), 2);
    assert_eq!(asc_get_string(&m.heap, word_at(&m, number + 8)).unwrap(), "1.5");
    let flag = word_at(&m, items + 8);
    assert_eq!((word_at(&m, flag), word_at(&m, flag + 8)), (1, 1));
    let null = word_at(&m, items + 12);
    assert_eq!(word_at(&m, null), 0);
    let second = word_at(&m, entries + 8);
    let text_value = word_at(&m, second + 4);
    assert_eq!(word_at(&m, text_value), 3);
    assert_eq!(asc_get_string(&m.heap, word_at(&m, text_value + 8)).unwrap(), "x");

    let bad = asc_new_bytes(&mut m.heap, &mut a, b"{nope").unwrap();
    assert!(matches!(m.json_from_bytes(&mut a, bad), Err(Trap::InvalidJson)));
}

#[test]
fn json_try_from_bytes_never_traps_on_bad_text() {
    let mut m = instance();
    let mut a = bump();
    let bad = asc_new_bytes(&mut m.heap, &mut a, b"[1,").unwrap();
    let r = m.json_try_from_bytes(&mut a, bad).unwrap();
    assert_eq!(word_at(&m, r), 0);
    let err = word_at(&m, r + 4);
    assert_eq!(word_at(&m, err), 1);
    let good = asc_new_bytes(&mut m.heap, &mut a, b"7").unwrap();
    let r = m.json_try_from_bytes(&mut a, good).unwrap();
    assert_eq!(word_at(&m, r + 4), 0);
    let value = word_at(&m, word_at(&m, r));
    assert_eq!(word_at(&m, value), 2);
    assert!(matches!(m.json_or_null(&mut a, None), Ok(0)));
    let profile = m.json_or_null(&mut a, Some(serde_json::Value::Bool(false))).unwrap();
    assert_eq!(word_at(&m, profile), 1);
}
