use vstd::prelude::*;

use crate::asc::{
    asc_get_bytes, asc_get_ptrs, asc_get_string, bytes_at, bytes_image, encode_bytes,
    bytes_round_trip, encode_ptrs, encode_string, header_at, holds_at, lemma_holds_sub,
    lemma_ptrs_le_len, lemma_u32_at, place, ptrs_at, ptrs_le, ptrs_round_trip, push_u32,
    read_header, string_at, string_image, string_round_trip, u32_le, AscError,
};
use crate::entity::{copy_bytes, Entity, Field, StoreValue, ValueView};
use crate::ethereum::{lemma_record, record_slots, stands_for};
use crate::layout::{Obj, Tree};
use crate::heap::{AscHeap, GuestAllocator, HeapError, MAX_OBJECT_SIZE};
use crate::state::EntityView;

verus! {

/// Kind of a tagged store value: a string.
pub const KIND_STRING: u32 = 0;
/// Kind of a tagged store value: a 32-bit integer.
pub const KIND_INT: u32 = 1;
/// Kind of a tagged store value: a boolean.
pub const KIND_BOOL: u32 = 3;
/// Kind of a tagged store value: null.
pub const KIND_NULL: u32 = 5;
/// Kind of a tagged store value: a byte array.
pub const KIND_BYTES: u32 = 6;
/// Kind of a tagged store value: a big integer.
pub const KIND_BIG_INT: u32 = 7;

/// The tagged value at `p`: its kind at `p`, its payload from `p + 8`. A
/// string, byte array or big integer payload points to the object; an integer
/// or boolean payload holds the value in its low 32 bits.
pub open spec fn value_at(mem: Seq<u8>, p: int) -> Option<ValueView> {
    match (header_at(mem, p), header_at(mem, p + 8)) {
        (Some(kind), Some(payload)) => if kind == KIND_STRING {
            match string_at(mem, payload) {
                Some(s) => Some(ValueView::String(s)),
                None => None,
            }
        } else if kind == KIND_INT {
            Some(ValueView::Int(payload as u32 as i32))
        } else if kind == KIND_BOOL {
            Some(ValueView::Bool(payload != 0))
        } else if kind == KIND_NULL {
            Some(ValueView::Null)
        } else if kind == KIND_BYTES {
            match bytes_at(mem, payload) {
                Some(b) => Some(ValueView::Bytes(b)),
                None => None,
            }
        } else if kind == KIND_BIG_INT {
            match bytes_at(mem, payload) {
                Some(b) => Some(ValueView::BigInt(b)),
                None => None,
            }
        } else {
            None
        },
        _ => None,
    }
}

/// The map entry at `p`: a pointer to its key string, then one to its value.
pub open spec fn field_at(mem: Seq<u8>, p: int) -> Option<(Seq<char>, ValueView)> {
    match (header_at(mem, p), header_at(mem, p + 4)) {
        (Some(k), Some(v)) => match (string_at(mem, k), value_at(mem, v)) {
            (Some(name), Some(value)) => Some((name, value)),
            _ => None,
        },
        _ => None,
    }
}

/// The entity at `p`: a pointer to the array of its entries, read in order.
pub open spec fn entity_at(mem: Seq<u8>, p: int) -> Option<EntityView> {
    match header_at(mem, p) {
        Some(ep) => match ptrs_at(mem, ep) {
            Some(entries) => if forall|i: int| 0 <= i < entries.len() ==> (#[trigger] field_at(mem, entries[i] as int)) is Some {
                Some(Seq::new(entries.len(), |i: int| field_at(mem, entries[i] as int)->0))
            } else {
                None
            },
            None => None,
        },
        None => None,
    }
}

/// The guest object of a tagged store value, as `value_at` reads it.
pub open spec fn store_value_obj(v: ValueView) -> Obj {
    let payload = match v {
        ValueView::String(x) => Obj::Str(x),
        ValueView::Int(i) => Obj::Word(i as u32),
        ValueView::Bool(b) => Obj::Word(if b { 1 } else { 0 }),
        ValueView::Null => Obj::Word(0),
        ValueView::Bytes(b) => Obj::Bytes(b),
        ValueView::BigInt(b) => Obj::Bytes(b),
    };
    Obj::Record(seq![Obj::Word(value_kind(v)), Obj::Word(0), payload, Obj::Word(0)])
}

/// The tree of a tagged store value.
pub fn store_value_tree(v: &StoreValue) -> (r: Tree)
    ensures
        stands_for(r, store_value_obj(v@), 2),
{
    let (kind, payload): (u32, Tree) = match v {
        StoreValue::String(x) => (KIND_STRING, Tree::Str(x.clone())),
        StoreValue::Int(i) => (KIND_INT, Tree::Word(#[verifier::truncate] (*i as u32))),
        StoreValue::Bool(b) => (KIND_BOOL, Tree::Word(if *b {
            1
        } else {
            0
        })),
        StoreValue::Null => (KIND_NULL, Tree::Word(0)),
        StoreValue::Bytes(b) => (KIND_BYTES, Tree::Bytes(copy_bytes(b))),
        StoreValue::BigInt(b) => (KIND_BIG_INT, Tree::Bytes(copy_bytes(b))),
    };
    let mut t: Vec<Tree> = Vec::new();
    t.push(Tree::Word(kind));
    t.push(Tree::Word(0));
    t.push(payload);
    t.push(Tree::Word(0));
    proof {
        let os = record_slots(store_value_obj(v@));
        assert forall|i: int| 0 <= i < os.len() implies stands_for(#[trigger] t@[i], os[i], 1) by {}
        lemma_record(t, os, 1);
    }
    Tree::Record(t)
}

/// Reads the tagged store value at `ptr`.
pub fn asc_get_value(heap: &AscHeap, ptr: u32) -> (r: Result<StoreValue, AscError>)
    ensures
        match value_at(heap.memory@, ptr as int) {
            Some(v) => (r matches Ok(x) && x@ == v),
            None => r is Err,
        },
{
    let kind = read_header(heap, ptr)?;
    if ptr as u64 + 8 > u32::MAX as u64 {
        return Err(AscError::Heap(HeapError::OutOfBounds));
    }
    let payload = read_header(heap, ptr + 8)?;
    if kind == KIND_STRING {
        Ok(StoreValue::String(asc_get_string(heap, payload)?))
    } else if kind == KIND_INT {
        Ok(StoreValue::Int(#[verifier::truncate] (payload as i32)))
    } else if kind == KIND_BOOL {
        Ok(StoreValue::Bool(payload != 0))
    } else if kind == KIND_NULL {
        Ok(StoreValue::Null)
    } else if kind == KIND_BYTES {
        Ok(StoreValue::Bytes(asc_get_bytes(heap, payload)?))
    } else if kind == KIND_BIG_INT {
        Ok(StoreValue::BigInt(asc_get_bytes(heap, payload)?))
    } else {
        Err(AscError::UnsupportedKind(kind))
    }
}

/// Reads the entity at `ptr`, its fields in the order of its entries.
pub fn asc_get_entity(heap: &AscHeap, ptr: u32) -> (r: Result<Entity, AscError>)
    ensures
        match entity_at(heap.memory@, ptr as int) {
            Some(e) => (r matches Ok(x) && x@ == e),
            None => r is Err,
        },
{
    let ghost mem = heap.memory@;
    let entries_ptr = read_header(heap, ptr)?;
    let entries = asc_get_ptrs(heap, entries_ptr)?;
    let mut out = Entity::new();
    let mut i: usize = 0;
    while i < entries.len()
        invariant
            0 <= i <= entries@.len(),
            mem == heap.memory@,
            ptrs_at(mem, entries_ptr as int) == Some(entries@),
            header_at(mem, ptr as int) == Some(entries_ptr as int),
            out@.len() == i,
            forall|j: int| 0 <= j < i ==> field_at(mem, entries@[j] as int) == Some(#[trigger] out@[j]),
        decreases entries@.len() - i,
    {
        let p = entries[i];
        assert(p == entries@[i as int]);
        let key_ptr = match read_header(heap, p) {
            Ok(k) => k,
            Err(e) => {
                assert(field_at(mem, entries@[i as int] as int) is None);
                return Err(e);
            },
        };
        if p as u64 + 4 > u32::MAX as u64 {
            assert(field_at(mem, entries@[i as int] as int) is None);
            return Err(AscError::Heap(HeapError::OutOfBounds));
        }
        let value_ptr = match read_header(heap, p + 4) {
            Ok(v) => v,
            Err(e) => {
                assert(field_at(mem, entries@[i as int] as int) is None);
                return Err(e);
            },
        };
        let name = match asc_get_string(heap, key_ptr) {
            Ok(n) => n,
            Err(e) => {
                assert(field_at(mem, entries@[i as int] as int) is None);
                return Err(e);
            },
        };
        let value = match asc_get_value(heap, value_ptr) {
            Ok(v) => v,
            Err(e) => {
                assert(field_at(mem, entries@[i as int] as int) is None);
                return Err(e);
            },
        };
        let ghost before = out@;
        out.push(name, value);
        proof {
            assert(out@[i as int] == field_at(mem, entries@[i as int] as int)->0);
            assert forall|j: int| 0 <= j < i + 1 implies field_at(mem, entries@[j] as int) == Some(#[trigger] out@[j]) by {
                if j < i {
                    assert(out@[j] == before[j]);
                }
            }
        }
        i = i + 1;
    }
    proof {
        let want = Seq::new(entries@.len(), |j: int| field_at(mem, entries@[j] as int)->0);
        assert forall|j: int| 0 <= j < entries@.len() implies (#[trigger] field_at(mem, entries@[j] as int)) is Some by {
            assert(field_at(mem, entries@[j] as int) == Some(out@[j]));
        }
        assert(out@ =~= want);
    }
    Ok(out)
}

/// The kind that tags a store value.
pub open spec fn value_kind(v: ValueView) -> u32 {
    match v {
        ValueView::String(_) => KIND_STRING,
        ValueView::Int(_) => KIND_INT,
        ValueView::Bool(_) => KIND_BOOL,
        ValueView::Null => KIND_NULL,
        ValueView::Bytes(_) => KIND_BYTES,
        ValueView::BigInt(_) => KIND_BIG_INT,
    }
}

/// The object that a store value's payload points to, if any.
pub open spec fn payload_image(v: ValueView) -> Seq<u8> {
    match v {
        ValueView::String(s) => encode_string(s),
        ValueView::Bytes(b) => encode_bytes(b),
        ValueView::BigInt(b) => encode_bytes(b),
        _ => Seq::empty(),
    }
}

/// The payload word of a store value whose payload object is at `at`.
pub open spec fn payload_word(v: ValueView, at: int) -> u32 {
    match v {
        ValueView::Int(i) => i as u32,
        ValueView::Bool(b) => if b {
            1
        } else {
            0
        },
        ValueView::Null => 0,
        _ => at as u32,
    }
}

/// The bytes that one field takes in an entity's image.
pub open spec fn chunk_len(f: (Seq<char>, ValueView)) -> nat {
    16 + encode_string(f.0).len() + payload_image(f.1).len()
}

/// One field's part of an entity's image, placed at `at`: the tagged value,
/// then the key string, then the value's payload object.
pub open spec fn field_chunk(f: (Seq<char>, ValueView), at: int) -> Seq<u8> {
    let key = encode_string(f.0);
    u32_le(value_kind(f.1)) + u32_le(0) + u32_le(payload_word(f.1, at + 16 + key.len())) + u32_le(0) + key
        + payload_image(f.1)
}

/// The bytes that the fields `fs` take.
pub open spec fn chunks_len(fs: EntityView) -> nat
    decreases fs.len(),
{
    if fs.len() == 0 {
        0
    } else {
        chunks_len(fs.drop_last()) + chunk_len(fs.last())
    }
}

/// The fields `fs` one after another from `at` on.
pub open spec fn chunks(fs: EntityView, at: int) -> Seq<u8>
    decreases fs.len(),
{
    if fs.len() == 0 {
        Seq::empty()
    } else {
        chunks(fs.drop_last(), at) + field_chunk(fs.last(), at + chunks_len(fs.drop_last()))
    }
}

/// The map entries of the fields `fs` laid out from `at` on: a pointer to
/// each key, then to each tagged value.
pub open spec fn entries_image(fs: EntityView, at: int) -> Seq<u8>
    decreases fs.len(),
{
    if fs.len() == 0 {
        Seq::empty()
    } else {
        let start = at + chunks_len(fs.drop_last());
        entries_image(fs.drop_last(), at) + u32_le((start + 16) as u32) + u32_le(start as u32)
    }
}

/// Pointers to `n` entries of eight bytes from `base` on.
pub open spec fn entry_ptrs(n: nat, base: int) -> Seq<u32> {
    Seq::new(n, |i: int| (base + 8 * i) as u32)
}

/// The image of entity `e` written at `p`: the pointer to its entry array,
/// the array, the entries, then each field's value, key and payload.
pub open spec fn entity_image(e: EntityView, p: int) -> Seq<u8> {
    let n = e.len();
    let at = p + 8 + 12 * n;
    u32_le((p + 4) as u32) + encode_ptrs(entry_ptrs(n, p + 8 + 4 * n)) + entries_image(e, at) + chunks(e, at)
}

/// The size of an entity's image.
pub open spec fn entity_image_len(e: EntityView) -> nat {
    8 + 12 * e.len() + chunks_len(e)
}

proof fn lemma_chunks_len_prefix(fs: EntityView, i: int)
    requires
        0 <= i <= fs.len(),
    ensures
        chunks_len(fs.subrange(0, i)) <= chunks_len(fs),
    decreases fs.len(),
{
    if i < fs.len() {
        let init = fs.drop_last();
        lemma_chunks_len_prefix(init, i);
        assert(init.subrange(0, i) =~= fs.subrange(0, i));
    } else {
        assert(fs.subrange(0, i) =~= fs);
    }
}

proof fn lemma_image_lens(fs: EntityView, at: int)
    ensures
        entries_image(fs, at).len() == 8 * fs.len(),
        chunks(fs, at).len() == chunks_len(fs),
    decreases fs.len(),
{
    if fs.len() > 0 {
        lemma_image_lens(fs.drop_last(), at);
    }
}

proof fn lemma_step(ev: EntityView, i: int, at0: int)
    requires
        0 <= i < ev.len(),
    ensures
        chunks_len(ev.subrange(0, i + 1)) == chunks_len(ev.subrange(0, i)) + chunk_len(ev[i]),
        entries_image(ev.subrange(0, i + 1), at0) == entries_image(ev.subrange(0, i), at0) + u32_le(
            (at0 + chunks_len(ev.subrange(0, i)) + 16) as u32,
        ) + u32_le((at0 + chunks_len(ev.subrange(0, i))) as u32),
        chunks(ev.subrange(0, i + 1), at0) == chunks(ev.subrange(0, i), at0) + field_chunk(
            ev[i],
            at0 + chunks_len(ev.subrange(0, i)),
        ),
{
    let post = ev.subrange(0, i + 1);
    assert(post.drop_last() =~= ev.subrange(0, i));
    assert(post.last() == ev[i]);
}

/// Appends one field's entry and its part of the image, placed at `at`.
fn push_field(entries: &mut Vec<u8>, fields: &mut Vec<u8>, f: &Field, key: &Vec<u8>, payload: &Vec<u8>, at: u32)
    requires
        key@ == encode_string(f.name@),
        payload@ == payload_image(f.value@),
        at + chunk_len((f.name@, f.value@)) <= u32::MAX,
    ensures
        final(entries)@ == old(entries)@ + u32_le((at + 16) as u32) + u32_le(at),
        final(fields)@ == old(fields)@ + field_chunk((f.name@, f.value@), at as int),
{
    push_u32(entries, at + 16);
    push_u32(entries, at);
    let payload_at = at + 16 + key.len() as u32;
    let (kind, word): (u32, u32) = match &f.value {
        StoreValue::String(_) => (KIND_STRING, payload_at),
        StoreValue::Int(x) => (KIND_INT, #[verifier::truncate] (*x as u32)),
        StoreValue::Bool(b) => (KIND_BOOL, if *b {
            1
        } else {
            0
        }),
        StoreValue::Null => (KIND_NULL, 0),
        StoreValue::Bytes(_) => (KIND_BYTES, payload_at),
        StoreValue::BigInt(_) => (KIND_BIG_INT, payload_at),
    };
    push_u32(fields, kind);
    push_u32(fields, 0);
    push_u32(fields, word);
    push_u32(fields, 0);
    append_bytes(fields, key);
    append_bytes(fields, payload);
    assert(final(fields)@ =~= old(fields)@ + field_chunk((f.name@, f.value@), at as int));
}

proof fn lemma_parts_at(fs: EntityView, at: int, i: int)
    requires
        0 <= i < fs.len(),
    ensures
        chunks_len(fs.subrange(0, i)) + chunk_len(fs[i]) <= chunks_len(fs),
        entries_image(fs, at).subrange(8 * i, 8 * i + 8) == u32_le((at + chunks_len(fs.subrange(0, i)) + 16) as u32)
            + u32_le((at + chunks_len(fs.subrange(0, i))) as u32),
        chunks(fs, at).subrange(chunks_len(fs.subrange(0, i)) as int, (chunks_len(fs.subrange(0, i)) + chunk_len(fs[i])) as int)
            == field_chunk(fs[i], at + chunks_len(fs.subrange(0, i))),
    decreases fs.len(),
{
    let init = fs.drop_last();
    lemma_image_lens(init, at);
    lemma_image_lens(fs, at);
    if i == fs.len() - 1 {
        assert(fs.subrange(0, i) =~= init);
        assert(fs.last() == fs[i]);
        assert(entries_image(fs, at).subrange(8 * i, 8 * i + 8) =~= u32_le((at + chunks_len(init) + 16) as u32)
            + u32_le((at + chunks_len(init)) as u32));
        assert(chunks(fs, at).subrange(chunks_len(init) as int, (chunks_len(init) + chunk_len(fs[i])) as int) =~= field_chunk(
            fs[i],
            at + chunks_len(init),
        ));
    } else {
        lemma_parts_at(init, at, i);
        assert(init.subrange(0, i) =~= fs.subrange(0, i));
        assert(init[i] == fs[i]);
        assert(entries_image(fs, at).subrange(8 * i, 8 * i + 8) =~= entries_image(init, at).subrange(8 * i, 8 * i + 8));
        let c = chunks_len(fs.subrange(0, i)) as int;
        assert(chunks(fs, at).subrange(c, c + chunk_len(fs[i])) =~= chunks(init, at).subrange(c, c + chunk_len(fs[i])));
    }
}

proof fn lemma_field_round_trip(mem: Seq<u8>, q: int, f: (Seq<char>, ValueView))
    requires
        holds_at(mem, q, field_chunk(f, q)),
        q + chunk_len(f) <= u32::MAX,
        chunk_len(f) <= MAX_OBJECT_SIZE,
    ensures
        value_at(mem, q) == Some(f.1),
        string_at(mem, q + 16) == Some(f.0),
{
    let img = field_chunk(f, q);
    let key = encode_string(f.0);
    let pl = payload_image(f.1);
    let k = key.len() as int;
    assert(img.len() == 16 + k + pl.len());
    lemma_holds_sub(mem, q, img, 0, 4);
    assert(img.subrange(0, 4) =~= u32_le(value_kind(f.1)));
    lemma_u32_at(mem, q, value_kind(f.1));
    lemma_holds_sub(mem, q, img, 8, 12);
    let word = payload_word(f.1, q + 16 + k);
    assert(img.subrange(8, 12) =~= u32_le(word));
    lemma_u32_at(mem, q + 8, word);
    lemma_holds_sub(mem, q, img, 16, 16 + k);
    assert(img.subrange(16, 16 + k) =~= key);
    string_round_trip(mem, q + 16, f.0);
    lemma_holds_sub(mem, q, img, 16 + k, img.len() as int);
    assert(img.subrange(16 + k, img.len() as int) =~= pl);
    match f.1 {
        ValueView::String(v) => {
            string_round_trip(mem, q + 16 + k, v);
        },
        ValueView::Bytes(b) => {
            bytes_round_trip(mem, q + 16 + k, b);
        },
        ValueView::BigInt(b) => {
            bytes_round_trip(mem, q + 16 + k, b);
        },
        ValueView::Int(i) => {
            assert((i as u32) as i32 == i) by (bit_vector);
        },
        _ => {},
    }
}

proof fn lemma_entry_field(mem: Seq<u8>, p: int, e: EntityView, i: int)
    requires
        0 <= i < e.len(),
        holds_at(mem, p + 8 + 4 * e.len(), entries_image(e, p + 8 + 12 * e.len())),
        holds_at(mem, p + 8 + 12 * e.len(), chunks(e, p + 8 + 12 * e.len())),
        entity_image_len(e) <= MAX_OBJECT_SIZE,
        p + entity_image_len(e) <= u32::MAX,
        p >= 0,
    ensures
        field_at(mem, p + 8 + 4 * e.len() + 8 * i) == Some(e[i]),
{
    let n = e.len() as int;
    let at = p + 8 + 12 * n;
    let ents = entries_image(e, at);
    let chs = chunks(e, at);
    lemma_image_lens(e, at);
    lemma_parts_at(e, at, i);
    let c = chunks_len(e.subrange(0, i)) as int;
    let start = at + c;
    let q = p + 8 + 4 * n + 8 * i;
    lemma_holds_sub(mem, p + 8 + 4 * n, ents, 8 * i, 8 * i + 8);
    let entry = ents.subrange(8 * i, 8 * i + 8);
    lemma_holds_sub(mem, q, entry, 0, 4);
    assert(entry.subrange(0, 4) =~= u32_le((start + 16) as u32));
    lemma_u32_at(mem, q, (start + 16) as u32);
    lemma_holds_sub(mem, q, entry, 4, 8);
    assert(entry.subrange(4, 8) =~= u32_le(start as u32));
    lemma_u32_at(mem, q + 4, start as u32);
    lemma_holds_sub(mem, at, chs, c, c + chunk_len(e[i]));
    lemma_field_round_trip(mem, start, e[i]);
}

/// An entity written by `asc_new_entity` reads back as the entity written.
#[verifier::rlimit(60)]
pub proof fn entity_round_trip(mem: Seq<u8>, p: int, e: EntityView)
    requires
        holds_at(mem, p, entity_image(e, p)),
        entity_image_len(e) <= MAX_OBJECT_SIZE,
        p + entity_image_len(e) <= u32::MAX,
    ensures
        entity_at(mem, p) == Some(e),
{
    let n = e.len() as int;
    let at = p + 8 + 12 * n;
    let ptrs = entry_ptrs(n as nat, p + 8 + 4 * n);
    let img = entity_image(e, p);
    let ents = entries_image(e, at);
    let chs = chunks(e, at);
    assert(img.len() == entity_image_len(e) && ents.len() == 8 * n && chs.len() == chunks_len(e)
        && encode_ptrs(ptrs).len() == 4 + 4 * n) by {
        lemma_image_lens(e, at);
        lemma_ptrs_le_len(ptrs);
    }
    assert(header_at(mem, p) == Some(p + 4)) by {
        lemma_holds_sub(mem, p, img, 0, 4);
        assert(img.subrange(0, 4) =~= u32_le((p + 4) as u32));
        lemma_u32_at(mem, p, (p + 4) as u32);
    }
    assert(ptrs_at(mem, p + 4) == Some(ptrs)) by {
        lemma_holds_sub(mem, p, img, 4, 8 + 4 * n);
        assert(img.subrange(4, 8 + 4 * n) =~= encode_ptrs(ptrs));
        ptrs_round_trip(mem, p + 4, ptrs);
    }
    assert(holds_at(mem, p + 8 + 4 * n, ents)) by {
        lemma_holds_sub(mem, p, img, 8 + 4 * n, 8 + 12 * n);
        assert(img.subrange(8 + 4 * n, 8 + 12 * n) =~= ents);
    }
    assert(holds_at(mem, at, chs)) by {
        lemma_holds_sub(mem, p, img, 8 + 12 * n, img.len() as int);
        assert(img.subrange(8 + 12 * n, img.len() as int) =~= chs);
    }
    assert forall|i: int| 0 <= i < n implies (#[trigger] field_at(mem, ptrs[i] as int)) == Some(e[i]) by {
        assert(ptrs[i] as int == p + 8 + 4 * n + 8 * i);
        lemma_entry_field(mem, p, e, i);
    }
    let got = Seq::new(n as nat, |i: int| field_at(mem, ptrs[i] as int)->0);
    assert(got =~= e);
}

/// Appends the bytes of `b`.
pub(crate) fn append_bytes(out: &mut Vec<u8>, b: &Vec<u8>)
    ensures
        final(out)@ == old(out)@ + b@,
{
    let mut i: usize = 0;
    while i < b.len()
        invariant
            0 <= i <= b@.len(),
            out@ == old(out)@ + b@.subrange(0, i as int),
        decreases b@.len() - i,
    {
        out.push(b[i]);
        assert(out@ =~= old(out)@ + b@.subrange(0, i + 1));
        i = i + 1;
    }
    assert(b@.subrange(0, b@.len() as int) =~= b@);
}

/// Writes an entity as one image and returns its pointer. It fails only as
/// placing an image of `entity_image_len(e@)` bytes fails.
pub fn asc_new_entity<A: GuestAllocator>(heap: &mut AscHeap, alloc: &mut A, e: &Entity) -> (r: Result<u32, AscError>)
    requires
        old(heap).wf(),
    ensures
        final(heap).wf(),
        match r {
            Ok(p) => p != 0 && holds_at(final(heap).memory@, p as int, entity_image(e@, p as int))
                && entity_at(final(heap).memory@, p as int) == Some(e@),
            Err(x) => x == AscError::Heap(HeapError::TooLarge) && entity_image_len(e@) > MAX_OBJECT_SIZE
                || x == AscError::Heap(HeapError::AllocationFailed) && entity_image_len(e@) > old(heap).arena_free_size,
        },
{
    let ghost ev = e@;
    let n = e.fields.len();
    if n > (MAX_OBJECT_SIZE - 8) / 12 {
        return Err(AscError::Heap(HeapError::TooLarge));
    }
    let mut keys: Vec<Vec<u8>> = Vec::new();
    let mut payloads: Vec<Vec<u8>> = Vec::new();
    let mut total: usize = 8 + 12 * n;
    let mut i: usize = 0;
    while i < n
        invariant
            0 <= i <= n,
            n == ev.len(),
            ev == e@,
            *heap == *old(heap),
            heap.wf(),
            total == 8 + 12 * n + chunks_len(ev.subrange(0, i as int)),
            total <= MAX_OBJECT_SIZE,
            keys@.len() == i,
            payloads@.len() == i,
            forall|j: int| 0 <= j < i ==> (#[trigger] keys@[j])@ == encode_string(ev[j].0),
            forall|j: int| 0 <= j < i ==> (#[trigger] payloads@[j])@ == payload_image(ev[j].1),
        decreases n - i,
    {
        let f = &e.fields[i];
        assert(ev[i as int] == (f.name@, f.value@));
        proof {
            let post = ev.subrange(0, i + 1);
            assert(post.drop_last() =~= ev.subrange(0, i as int));
            assert(post.last() == ev[i as int]);
            lemma_chunks_len_prefix(ev, i + 1);
        }
        let key = match string_image(f.name.as_str()) {
            Some(k) => k,
            None => {
                return Err(AscError::Heap(HeapError::TooLarge));
            },
        };
        let payload = match &f.value {
            StoreValue::String(v) => match string_image(v.as_str()) {
                Some(k) => k,
                None => {
                    return Err(AscError::Heap(HeapError::TooLarge));
                },
            },
            StoreValue::Bytes(b) => {
                if b.len() > MAX_OBJECT_SIZE - 4 {
                    return Err(AscError::Heap(HeapError::TooLarge));
                }
                bytes_image(b.as_slice())
            },
            StoreValue::BigInt(b) => {
                if b.len() > MAX_OBJECT_SIZE - 4 {
                    return Err(AscError::Heap(HeapError::TooLarge));
                }
                bytes_image(b.as_slice())
            },
            _ => Vec::new(),
        };
        assert(payload@ == payload_image(f.value@));
        if total as u64 + 16 + key.len() as u64 + payload.len() as u64 > MAX_OBJECT_SIZE as u64 {
            return Err(AscError::Heap(HeapError::TooLarge));
        }
        total = total + 16 + key.len() + payload.len();
        keys.push(key);
        payloads.push(payload);
        i = i + 1;
    }
    assert(ev.subrange(0, n as int) =~= ev);
    let mut zeros: Vec<u8> = Vec::new();
    let mut z: usize = 0;
    while z < total
        invariant
            0 <= z <= total,
            zeros@.len() == z,
        decreases total - z,
    {
        zeros.push(0);
        z = z + 1;
    }
    let p = place(heap, alloc, &zeros)?;
    let ghost at0 = p + 8 + 12 * n;
    let mut image: Vec<u8> = Vec::new();
    push_u32(&mut image, p + 4);
    push_u32(&mut image, n as u32);
    let base = p + 8 + 4 * (n as u32);
    let ghost ptrs = entry_ptrs(n as nat, base as int);
    let mut j: u32 = 0;
    while j < n as u32
        invariant
            0 <= j <= n,
            n <= (MAX_OBJECT_SIZE - 8) / 12,
            p + total <= u32::MAX,
            total == 8 + 12 * n + chunks_len(ev),
            base == p + 8 + 4 * n,
            ptrs == entry_ptrs(n as nat, base as int),
            image@ == u32_le((p + 4) as u32) + u32_le(n as u32) + ptrs_le(ptrs.subrange(0, j as int)),
        decreases n - j,
    {
        push_u32(&mut image, base + 8 * j);
        proof {
            let post = ptrs.subrange(0, j + 1);
            assert(post.drop_last() =~= ptrs.subrange(0, j as int));
            assert(post.last() == (base + 8 * j) as u32);
        }
        j = j + 1;
    }
    assert(ptrs.subrange(0, n as int) =~= ptrs);
    assert(image@ =~= u32_le((p + 4) as u32) + encode_ptrs(ptrs));
    let mut entries: Vec<u8> = Vec::new();
    let mut fields: Vec<u8> = Vec::new();
    let mut at: u32 = p + 8 + 12 * (n as u32);
    let mut i: usize = 0;
    while i < n
        invariant
            0 <= i <= n,
            n == ev.len(),
            ev == e@,
            keys@.len() == n,
            payloads@.len() == n,
            forall|j: int| 0 <= j < n ==> (#[trigger] keys@[j])@ == encode_string(ev[j].0),
            forall|j: int| 0 <= j < n ==> (#[trigger] payloads@[j])@ == payload_image(ev[j].1),
            at0 == p + 8 + 12 * n,
            p + total <= u32::MAX,
            total == 8 + 12 * n + chunks_len(ev),
            at == at0 + chunks_len(ev.subrange(0, i as int)),
            entries@ == entries_image(ev.subrange(0, i as int), at0),
            fields@ == chunks(ev.subrange(0, i as int), at0),
        decreases n - i,
    {
        proof {
            lemma_step(ev, i as int, at0);
            lemma_chunks_len_prefix(ev, i + 1);
        }
        push_field(&mut entries, &mut fields, &e.fields[i], &keys[i], &payloads[i], at);
        at = at + 16 + keys[i].len() as u32 + payloads[i].len() as u32;
        i = i + 1;
    }
    assert(ev.subrange(0, n as int) =~= ev);
    append_bytes(&mut image, &entries);
    append_bytes(&mut image, &fields);
    proof {
        lemma_image_lens(ev, at0);
        lemma_ptrs_le_len(ptrs);
        assert(image@ =~= entity_image(ev, p as int));
    }
    heap.write(p, &image);
    proof {
        let mem = heap.memory@;
        assert(mem.subrange(p as int, p + image@.len()) =~= image@);
        entity_round_trip(mem, p as int, ev);
    }
    Ok(p)
}

} // verus!
