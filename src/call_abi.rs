use vstd::prelude::*;

use crate::asc::{asc_get_bytes, asc_get_ptrs, asc_get_string, bytes_at, header_at, ptrs_at, read_header, string_at, AscError};
use crate::ethereum::{token_obj, Token, UnresolvedContractCall};
use crate::heap::{AscHeap, HeapError};
use crate::layout::Obj;

verus! {

/// The ABI value stored at `p`, as its guest object: a kind below 5 with a
/// byte-array payload, 5 with a boolean word, or 6 with a string payload.
pub open spec fn token_at(mem: Seq<u8>, p: int) -> Option<Obj> {
    match (header_at(mem, p), header_at(mem, p + 8)) {
        (Some(kind), Some(payload)) => if kind <= 4 {
            match bytes_at(mem, payload) {
                Some(b) => Some(Obj::Record(seq![Obj::Word(kind as u32), Obj::Word(0), Obj::Bytes(b), Obj::Word(0)])),
                None => None,
            }
        } else if kind == 5 {
            Some(
                Obj::Record(
                    seq![Obj::Word(5), Obj::Word(0), Obj::Word(if payload != 0 { 1 } else { 0 }), Obj::Word(0)],
                ),
            )
        } else if kind == 6 {
            match string_at(mem, payload) {
                Some(x) => Some(Obj::Record(seq![Obj::Word(6), Obj::Word(0), Obj::Str(x), Obj::Word(0)])),
                None => None,
            }
        } else {
            None
        },
        _ => None,
    }
}

/// Reads the ABI value at `ptr`.
pub fn asc_get_token(heap: &AscHeap, ptr: u32) -> (r: Result<Token, AscError>)
    ensures
        match token_at(heap.memory@, ptr as int) {
            Some(o) => (r matches Ok(t) && token_obj(t) == o),
            None => r is Err,
        },
{
    let kind = read_header(heap, ptr)?;
    if ptr as u64 + 8 > u32::MAX as u64 {
        return Err(AscError::Heap(HeapError::OutOfBounds));
    }
    let payload = read_header(heap, ptr + 8)?;
    let t = if kind == 0 {
        Token::Address(asc_get_bytes(heap, payload)?)
    } else if kind == 1 {
        Token::FixedBytes(asc_get_bytes(heap, payload)?)
    } else if kind == 2 {
        Token::Bytes(asc_get_bytes(heap, payload)?)
    } else if kind == 3 {
        Token::Int(asc_get_bytes(heap, payload)?)
    } else if kind == 4 {
        Token::Uint(asc_get_bytes(heap, payload)?)
    } else if kind == 5 {
        Token::Bool(payload != 0)
    } else if kind == 6 {
        Token::String(asc_get_string(heap, payload)?)
    } else {
        return Err(AscError::UnsupportedKind(kind));
    };
    proof {
        let o = token_at(heap.memory@, ptr as int)->0;
        assert(record_slots_eq(token_obj(t), o));
    }
    Ok(t)
}

spec fn record_slots_eq(a: Obj, b: Obj) -> bool {
    a == b
}

/// Word `i` of the object at `p`.
pub open spec fn word_at(mem: Seq<u8>, p: int, i: int) -> Option<int> {
    header_at(mem, p + 4 * i)
}

/// The values that the array at `p` points to, each read as an ABI value.
pub open spec fn tokens_readable(mem: Seq<u8>, p: int) -> bool {
    &&& ptrs_at(mem, p) is Some
    &&& forall|i: int| 0 <= i < ptrs_at(mem, p)->0.len() ==> (#[trigger] token_at(mem, ptrs_at(mem, p)->0[i] as int)) is Some
}

/// Every part of the contract call at `p` can be read; the signature is a
/// part `with_signature` only.
pub open spec fn contract_call_readable(mem: Seq<u8>, p: int, with_signature: bool) -> bool {
    let args = if with_signature { 4int } else { 3int };
    &&& forall|i: int| 0 <= i <= args ==> (#[trigger] word_at(mem, p, i)) is Some
    &&& string_at(mem, word_at(mem, p, 0)->0) is Some
    &&& bytes_at(mem, word_at(mem, p, 1)->0) is Some
    &&& string_at(mem, word_at(mem, p, 2)->0) is Some
    &&& with_signature ==> string_at(mem, word_at(mem, p, 3)->0) is Some
    &&& tokens_readable(mem, word_at(mem, p, args)->0)
}

/// `c` is what the contract call at `p` holds.
pub open spec fn contract_call_at(mem: Seq<u8>, p: int, with_signature: bool, c: UnresolvedContractCall) -> bool {
    let args = if with_signature { 4int } else { 3int };
    &&& string_at(mem, word_at(mem, p, 0)->0) == Some(c.contract_name@)
    &&& bytes_at(mem, word_at(mem, p, 1)->0) == Some(c.contract_address@)
    &&& string_at(mem, word_at(mem, p, 2)->0) == Some(c.function_name@)
    &&& (if with_signature {
        c.function_signature matches Some(x) && string_at(mem, word_at(mem, p, 3)->0) == Some(x@)
    } else {
        c.function_signature is None
    })
    &&& ptrs_at(mem, word_at(mem, p, args)->0) matches Some(ps) && ps.len() == c.function_args@.len() && forall|i: int|
        0 <= i < ps.len() ==> token_at(mem, ps[i] as int) == Some(token_obj(#[trigger] c.function_args@[i]))
}

/// Reads the ABI values that the array at `ptr` points to.
fn read_tokens(heap: &AscHeap, ptr: u32) -> (r: Result<Vec<Token>, AscError>)
    ensures
        tokens_readable(heap.memory@, ptr as int) ==> r is Ok,
        r matches Ok(ts) ==> ptrs_at(heap.memory@, ptr as int) matches Some(ps) && ps.len() == ts@.len() && forall|i: int|
            0 <= i < ps.len() ==> token_at(heap.memory@, ps[i] as int) == Some(token_obj(#[trigger] ts@[i])),
{
    let ghost mem = heap.memory@;
    let ghost tr = tokens_readable(mem, ptr as int);
    let ps = asc_get_ptrs(heap, ptr)?;
    let mut out: Vec<Token> = Vec::new();
    let mut i: usize = 0;
    while i < ps.len()
        invariant
            0 <= i <= ps@.len(),
            mem == heap.memory@,
            ptrs_at(mem, ptr as int) == Some(ps@),
            tr == tokens_readable(mem, ptr as int),
            out@.len() == i,
            forall|j: int| 0 <= j < i ==> token_at(mem, ps@[j] as int) == Some(token_obj(#[trigger] out@[j])),
        decreases ps@.len() - i,
    {
        let t = match asc_get_token(heap, ps[i]) {
            Ok(t) => t,
            Err(e) => {
                assert(!tr) by {
                    if tr {
                        assert(ptrs_at(mem, ptr as int)->0[i as int] == ps@[i as int]);
                        assert(token_at(mem, ptrs_at(mem, ptr as int)->0[i as int] as int) is Some);
                    }
                }
                return Err(e);
            },
        };
        out.push(t);
        i = i + 1;
    }
    Ok(out)
}

/// Reads a contract call: its contract's name and address, the function's
/// name, its signature where `with_signature`, and its arguments.
pub fn asc_get_contract_call(heap: &AscHeap, ptr: u32, with_signature: bool) -> (r: Result<UnresolvedContractCall, AscError>)
    ensures
        contract_call_readable(heap.memory@, ptr as int, with_signature) ==> r is Ok,
        r matches Ok(c) ==> contract_call_at(heap.memory@, ptr as int, with_signature, c),
{
    let ghost mem = heap.memory@;
    let end: u64 = if with_signature {
        20
    } else {
        16
    };
    if ptr as u64 + end > u32::MAX as u64 {
        proof {
            let args = if with_signature { 4int } else { 3int };
            assert(word_at(mem, ptr as int, args) is None);
        }
        return Err(AscError::Heap(HeapError::OutOfBounds));
    }
    let name_ptr = read_header(heap, ptr)?;
    let address_ptr = read_header(heap, ptr + 4)?;
    let function_ptr = read_header(heap, ptr + 8)?;
    let contract_name = asc_get_string(heap, name_ptr)?;
    let contract_address = asc_get_bytes(heap, address_ptr)?;
    let function_name = asc_get_string(heap, function_ptr)?;
    let (function_signature, args_ptr) = if with_signature {
        let sig_ptr = read_header(heap, ptr + 12)?;
        let args_ptr = read_header(heap, ptr + 16)?;
        (Some(asc_get_string(heap, sig_ptr)?), args_ptr)
    } else {
        (None, read_header(heap, ptr + 12)?)
    };
    proof {
        let args = if with_signature { 4int } else { 3int };
        assert(word_at(mem, ptr as int, args) == Some(args_ptr as int));
    }
    let function_args = read_tokens(heap, args_ptr)?;
    let c = UnresolvedContractCall { contract_name, contract_address, function_name, function_signature, function_args };
    proof {
        let args = if with_signature { 4int } else { 3int };
        assert(word_at(mem, ptr as int, args) == Some(args_ptr as int));
        assert(word_at(mem, ptr as int, 0) == Some(name_ptr as int));
        assert(word_at(mem, ptr as int, 1) == Some(address_ptr as int));
        assert(word_at(mem, ptr as int, 2) == Some(function_ptr as int));
    }
    Ok(c)
}

} // verus!
