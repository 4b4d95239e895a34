use vstd::prelude::*;

use crate::heap::{AscHeap, GuestAllocator, HeapError, MAX_OBJECT_SIZE};

verus! {

/// Why a guest object could not be written or read.
#[derive(Debug, PartialEq, Eq, Structural)]
pub enum AscError {
    /// Guest memory refused the access.
    Heap(HeapError),
    /// A string's code units are not valid UTF-16.
    InvalidUtf16,
    /// A tagged value has a kind that the host does not read.
    UnsupportedKind(u32),
    /// An object written earlier no longer reads back as written: the guest's
    /// allocator changed it while handing out a slab.
    Overwritten,
}

/// Little-endian bytes of a 32-bit value.
pub open spec fn u32_le(v: u32) -> Seq<u8> {
    seq![
        (v % 256) as u8,
        ((v / 256) % 256) as u8,
        ((v / 65536) % 256) as u8,
        (v / 16777216) as u8,
    ]
}

/// The value of four little-endian bytes.
pub open spec fn le_u32(b: Seq<u8>) -> int {
    b[0] + b[1] * 256 + b[2] * 65536 + b[3] * 16777216
}

pub proof fn le_u32_of_u32_le(v: u32)
    ensures
        le_u32(u32_le(v)) == v,
{
    let b = u32_le(v);
    assert(b[0] + b[1] * 256 + b[2] * 65536 + b[3] * 16777216 == v) by (nonlinear_arith)
        requires
            b[0] == v % 256,
            b[1] == (v / 256) % 256,
            b[2] == (v / 65536) % 256,
            b[3] == v / 16777216,
            v <= u32::MAX,
    ;
}

/// UTF-16 code units of one character.
pub open spec fn utf16_char(c: char) -> Seq<u16> {
    let v = c as u32;
    if v < 0x10000 {
        seq![v as u16]
    } else {
        let w = v - 0x10000;
        seq![(0xD800 + w / 0x400) as u16, (0xDC00 + w % 0x400) as u16]
    }
}

/// UTF-16 code units of a string.
pub open spec fn utf16_of(s: Seq<char>) -> Seq<u16>
    decreases s.len(),
{
    if s.len() == 0 {
        Seq::empty()
    } else {
        utf16_of(s.drop_last()) + utf16_char(s.last())
    }
}

/// Code units as little-endian byte pairs.
pub open spec fn units_le(u: Seq<u16>) -> Seq<u8> {
    Seq::new(
        2 * u.len(),
        |i: int|
            if i % 2 == 0 {
                (u[i / 2] % 256) as u8
            } else {
                (u[i / 2] / 256) as u8
            },
    )
}

/// Little-endian byte pairs read as code units.
pub open spec fn units_of(b: Seq<u8>) -> Seq<u16> {
    Seq::new(b.len() / 2, |i: int| (b[2 * i] + 256 * b[2 * i + 1]) as u16)
}

/// Guest layout of a byte array: its length, then its bytes.
pub open spec fn encode_bytes(b: Seq<u8>) -> Seq<u8> {
    u32_le(b.len() as u32) + b
}

/// Guest layout of a string: its number of UTF-16 code units, then the units.
pub open spec fn encode_string(s: Seq<char>) -> Seq<u8> {
    u32_le(utf16_of(s).len() as u32) + units_le(utf16_of(s))
}

/// Guest layout of an array of guest pointers: its length, then each pointer.
pub open spec fn encode_ptrs(ps: Seq<u32>) -> Seq<u8> {
    u32_le(ps.len() as u32) + ptrs_le(ps)
}

/// The pointers of an array, each as four little-endian bytes.
pub open spec fn ptrs_le(ps: Seq<u32>) -> Seq<u8>
    decreases ps.len(),
{
    if ps.len() == 0 {
        Seq::empty()
    } else {
        ptrs_le(ps.drop_last()) + u32_le(ps.last())
    }
}

/// The length header stored at `p`, if it lies in memory.
pub open spec fn header_at(mem: Seq<u8>, p: int) -> Option<int> {
    if 0 <= p && p + 4 <= mem.len() && p + 4 <= u32::MAX {
        Some(le_u32(mem.subrange(p, p + 4)))
    } else {
        None
    }
}

/// The byte array stored at `p`, if its header and body lie in memory, within
/// the 32-bit address space.
pub open spec fn bytes_at(mem: Seq<u8>, p: int) -> Option<Seq<u8>> {
    match header_at(mem, p) {
        Some(n) => if p + 4 + n <= mem.len() && p + 4 + n <= u32::MAX {
            Some(mem.subrange(p + 4, p + 4 + n))
        } else {
            None
        },
        None => None,
    }
}

/// The code units of the string stored at `p`, if they lie in memory.
pub open spec fn units_at(mem: Seq<u8>, p: int) -> Option<Seq<u16>> {
    match header_at(mem, p) {
        Some(n) => if p + 4 + 2 * n <= mem.len() && p + 4 + 2 * n <= u32::MAX {
            Some(units_of(mem.subrange(p + 4, p + 4 + 2 * n)))
        } else {
            None
        },
        None => None,
    }
}

/// The pointers of the array stored at `p`, if they lie in memory.
pub open spec fn ptrs_at(mem: Seq<u8>, p: int) -> Option<Seq<u32>> {
    match header_at(mem, p) {
        Some(n) => if p + 4 + 4 * n <= mem.len() && p + 4 + 4 * n <= u32::MAX {
            Some(
                Seq::new(
                    n as nat,
                    |i: int| le_u32(mem.subrange(p + 4 + 4 * i, p + 8 + 4 * i)) as u32,
                ),
            )
        } else {
            None
        },
        None => None,
    }
}

/// The string stored at `p`, if its code units lie in memory and are valid UTF-16.
pub open spec fn string_at(mem: Seq<u8>, p: int) -> Option<Seq<char>> {
    match units_at(mem, p) {
        Some(u) => if exists|s: Seq<char>| utf16_of(s) == u {
            Some(choose|s: Seq<char>| utf16_of(s) == u)
        } else {
            None
        },
        None => None,
    }
}

/// Relies on `str::encode_utf16`: the string's UTF-16 code units, in order.
#[verifier::external_body]
fn utf16_units(s: &str) -> (r: Vec<u16>)
    ensures
        r@ == utf16_of(s@),
{
    s.encode_utf16().collect()
}

/// Relies on `String::from_utf16`: valid UTF-16 decodes to the string that
/// encodes to it, anything else is refused.
#[verifier::external_body]
fn string_from_utf16(v: &[u16]) -> (r: Option<String>)
    ensures
        r is Some <==> exists|s: Seq<char>| utf16_of(s) == v@,
        forall|s: Seq<char>| utf16_of(s) == v@ ==> r is Some && (#[trigger] r->0@) == s,
{
    String::from_utf16(v).ok()
}

/// Appends the little-endian bytes of `v`.
pub(crate) fn push_u32(out: &mut Vec<u8>, v: u32)
    ensures
        final(out)@ == old(out)@ + u32_le(v),
{
    out.push((v % 256) as u8);
    out.push(((v / 256) % 256) as u8);
    out.push(((v / 65536) % 256) as u8);
    out.push((v / 16777216) as u8);
    assert(final(out)@ =~= old(out)@ + u32_le(v));
}

/// Reads the length header at `ptr`.
pub(crate) fn read_header(heap: &AscHeap, ptr: u32) -> (r: Result<u32, AscError>)
    ensures
        match header_at(heap.memory@, ptr as int) {
            Some(n) => r == Ok::<u32, AscError>(n as u32) && n <= u32::MAX,
            None => r == Err::<u32, AscError>(AscError::Heap(HeapError::OutOfBounds)),
        },
{
    if ptr as u64 + 4 > u32::MAX as u64 {
        return Err(AscError::Heap(HeapError::OutOfBounds));
    }
    let b = match heap.get(ptr, 4) {
        Ok(b) => b,
        Err(e) => {
            return Err(AscError::Heap(e));
        },
    };
    let v = b[0] as u32 + (b[1] as u32) * 256 + (b[2] as u32) * 65536 + (b[3] as u32) * 16777216;
    Ok(v)
}

/// `image` stands at `p` in `mem`.
pub open spec fn holds_at(mem: Seq<u8>, p: int, image: Seq<u8>) -> bool {
    &&& 0 <= p
    &&& p + image.len() <= mem.len()
    &&& mem.subrange(p, p + image.len()) == image
}

/// The result of placing an image of `len` bytes in guest memory: a pointer to
/// it, or the error that `raw_new` gives.
pub open spec fn placed(before: AscHeap, after: AscHeap, len: int, image: Seq<u8>, r: Result<u32, AscError>) -> bool {
    &&& after.wf()
    &&& len > MAX_OBJECT_SIZE ==> r == Err::<u32, AscError>(AscError::Heap(HeapError::TooLarge))
    &&& match r {
        Ok(p) => holds_at(after.memory@, p as int, image) && p + image.len() <= u32::MAX && (len > 0 ==> p != 0),
        Err(e) => e == AscError::Heap(HeapError::TooLarge) && len > MAX_OBJECT_SIZE
            || e == AscError::Heap(HeapError::AllocationFailed) && len > before.arena_free_size,
    }
}

/// Writes a finished image into guest memory.
pub(crate) fn place<A: GuestAllocator>(heap: &mut AscHeap, alloc: &mut A, image: &Vec<u8>) -> (r: Result<u32, AscError>)
    requires
        old(heap).wf(),
    ensures
        placed(*old(heap), *final(heap), image@.len() as int, image@, r),
{
    let ghost before = *heap;
    match heap.raw_new(alloc, image.as_slice()) {
        Ok(p) => {
            proof {
                crate::heap::raw_new_then_get(before, *heap, image@, p);
            }
            Ok(p)
        },
        Err(e) => Err(AscError::Heap(e)),
    }
}

/// Writes a byte array into guest memory and returns its pointer.
pub fn asc_new_bytes<A: GuestAllocator>(heap: &mut AscHeap, alloc: &mut A, b: &[u8]) -> (r: Result<u32, AscError>)
    requires
        old(heap).wf(),
    ensures
        placed(*old(heap), *final(heap), (b@.len() + 4) as int, encode_bytes(b@), r),
{
    if b.len() > MAX_OBJECT_SIZE - 4 {
        return Err(AscError::Heap(HeapError::TooLarge));
    }
    let image = bytes_image(b);
    place(heap, alloc, &image)
}

/// The guest layout of a byte array.
pub(crate) fn bytes_image(b: &[u8]) -> (r: Vec<u8>)
    requires
        b@.len() <= MAX_OBJECT_SIZE - 4,
    ensures
        r@ == encode_bytes(b@),
{
    let mut image: Vec<u8> = Vec::new();
    push_u32(&mut image, b.len() as u32);
    let mut i: usize = 0;
    while i < b.len()
        invariant
            0 <= i <= b@.len(),
            image@ == u32_le(b@.len() as u32) + b@.subrange(0, i as int),
        decreases b@.len() - i,
    {
        image.push(b[i]);
        proof {
            assert(image@ =~= u32_le(b@.len() as u32) + b@.subrange(0, i + 1));
        }
        i = i + 1;
    }
    assert(b@.subrange(0, b@.len() as int) =~= b@);
    image
}

/// Reads the byte array at `ptr`.
pub fn asc_get_bytes(heap: &AscHeap, ptr: u32) -> (r: Result<Vec<u8>, AscError>)
    ensures
        match bytes_at(heap.memory@, ptr as int) {
            Some(b) => (r matches Ok(v) && v@ == b),
            None => r == Err::<Vec<u8>, AscError>(AscError::Heap(HeapError::OutOfBounds)),
        },
{
    let n = read_header(heap, ptr)?;
    if ptr as u64 + 4 + n as u64 > u32::MAX as u64 {
        return Err(AscError::Heap(HeapError::OutOfBounds));
    }
    match heap.get(ptr + 4, n) {
        Ok(v) => Ok(v),
        Err(e) => Err(AscError::Heap(e)),
    }
}

/// Writes a string into guest memory as UTF-16 and returns its pointer.
pub fn asc_new_string<A: GuestAllocator>(heap: &mut AscHeap, alloc: &mut A, s: &str) -> (r: Result<u32, AscError>)
    requires
        old(heap).wf(),
    ensures
        placed(*old(heap), *final(heap), (2 * utf16_of(s@).len() + 4) as int, encode_string(s@), r),
{
    match string_image(s) {
        Some(image) => place(heap, alloc, &image),
        None => Err(AscError::Heap(HeapError::TooLarge)),
    }
}

/// The guest layout of a string; `None` where it is larger than
/// `MAX_OBJECT_SIZE`.
pub(crate) fn string_image(s: &str) -> (r: Option<Vec<u8>>)
    ensures
        match r {
            Some(v) => v@ == encode_string(s@) && 2 * utf16_of(s@).len() + 4 <= MAX_OBJECT_SIZE,
            None => 2 * utf16_of(s@).len() + 4 > MAX_OBJECT_SIZE,
        },
{
    let units = utf16_units(s);
    if units.len() > (MAX_OBJECT_SIZE - 4) / 2 {
        return None;
    }
    let mut image: Vec<u8> = Vec::new();
    push_u32(&mut image, units.len() as u32);
    let mut i: usize = 0;
    while i < units.len()
        invariant
            0 <= i <= units@.len(),
            units@.len() <= (MAX_OBJECT_SIZE - 4) / 2,
            image@ == u32_le(units@.len() as u32) + units_le(units@.subrange(0, i as int)),
        decreases units@.len() - i,
    {
        let u = units[i];
        image.push((u % 256) as u8);
        image.push((u / 256) as u8);
        proof {
            let pre = units@.subrange(0, i as int);
            let post = units@.subrange(0, i + 1);
            assert(units_le(post) =~= units_le(pre) + seq![(u % 256) as u8, (u / 256) as u8]) by {
                assert forall|k: int| 0 <= k < 2 * pre.len() implies units_le(post)[k] == units_le(pre)[k] by {
                    assert(k / 2 < pre.len());
                    assert(post[k / 2] == pre[k / 2]);
                }
                assert((2 * i) / 2 == i as int);
                assert((2 * i + 1) / 2 == i as int);
                assert((2 * i) % 2 == 0);
                assert((2 * i + 1) % 2 == 1);
            }
            assert(image@ =~= u32_le(units@.len() as u32) + units_le(post));
        }
        i = i + 1;
    }
    assert(units@.subrange(0, units@.len() as int) =~= units@);
    Some(image)
}

/// Reads the string at `ptr`; code units that are not valid UTF-16 are refused.
pub fn asc_get_string(heap: &AscHeap, ptr: u32) -> (r: Result<String, AscError>)
    ensures
        match units_at(heap.memory@, ptr as int) {
            Some(u) => {
                &&& forall|s: Seq<char>| utf16_of(s) == u ==> (r matches Ok(t) && t@ == s)
                &&& (r matches Ok(t) ==> utf16_of(t@) == u)
                &&& r is Err ==> r == Err::<String, AscError>(AscError::InvalidUtf16)
            },
            None => r == Err::<String, AscError>(AscError::Heap(HeapError::OutOfBounds)),
        },
        match string_at(heap.memory@, ptr as int) {
            Some(s) => (r matches Ok(t) && t@ == s),
            None => r is Err,
        },
{
    let n = read_header(heap, ptr)?;
    if ptr as u64 + 4 + 2 * (n as u64) > u32::MAX as u64 {
        return Err(AscError::Heap(HeapError::OutOfBounds));
    }
    let body = match heap.get(ptr + 4, 2 * n) {
        Ok(v) => v,
        Err(e) => {
            return Err(AscError::Heap(e));
        },
    };
    let mut units: Vec<u16> = Vec::new();
    let mut i: usize = 0;
    while i < n as usize
        invariant
            0 <= i <= n,
            body@.len() == 2 * n,
            body.len() == 2 * n,
            units@ == units_of(body@).subrange(0, i as int),
        decreases n - i,
    {
        assert(2 * i + 1 < body@.len());
        let lo = body[2 * i];
        let hi = body[2 * i + 1];
        units.push((lo as u16) + 256 * (hi as u16));
        proof {
            assert(units@ =~= units_of(body@).subrange(0, i + 1));
        }
        i = i + 1;
    }
    assert(units@ =~= units_of(body@));
    match string_from_utf16(units.as_slice()) {
        Some(t) => Ok(t),
        None => Err(AscError::InvalidUtf16),
    }
}

/// Writes an array of guest pointers into guest memory and returns its pointer.
pub fn asc_new_ptrs<A: GuestAllocator>(heap: &mut AscHeap, alloc: &mut A, ps: &Vec<u32>) -> (r: Result<u32, AscError>)
    requires
        old(heap).wf(),
    ensures
        placed(*old(heap), *final(heap), (4 * ps@.len() + 4) as int, encode_ptrs(ps@), r),
{
    if ps.len() > (MAX_OBJECT_SIZE - 4) / 4 {
        return Err(AscError::Heap(HeapError::TooLarge));
    }
    let mut image: Vec<u8> = Vec::new();
    push_u32(&mut image, ps.len() as u32);
    let mut i: usize = 0;
    while i < ps.len()
        invariant
            0 <= i <= ps@.len(),
            image@ == u32_le(ps@.len() as u32) + ptrs_le(ps@.subrange(0, i as int)),
        decreases ps@.len() - i,
    {
        push_u32(&mut image, ps[i]);
        proof {
            let post = ps@.subrange(0, i + 1);
            assert(post.drop_last() =~= ps@.subrange(0, i as int));
        }
        i = i + 1;
    }
    assert(ps@.subrange(0, ps@.len() as int) =~= ps@);
    proof {
        lemma_ptrs_le_len(ps@);
    }
    place(heap, alloc, &image)
}

/// Reads the array of guest pointers at `ptr`.
pub fn asc_get_ptrs(heap: &AscHeap, ptr: u32) -> (r: Result<Vec<u32>, AscError>)
    ensures
        match ptrs_at(heap.memory@, ptr as int) {
            Some(ps) => (r matches Ok(v) && v@ == ps),
            None => r == Err::<Vec<u32>, AscError>(AscError::Heap(HeapError::OutOfBounds)),
        },
{
    let n = read_header(heap, ptr)?;
    if ptr as u64 + 4 + 4 * (n as u64) > u32::MAX as u64 || (ptr as u64 + 4 + 4 * (n as u64))
        > heap.memory.len() as u64 {
        return Err(AscError::Heap(HeapError::OutOfBounds));
    }
    let ghost mem = heap.memory@;
    let mut out: Vec<u32> = Vec::new();
    let mut i: u32 = 0;
    while i < n
        invariant
            0 <= i <= n,
            ptr + 4 + 4 * n <= mem.len(),
            ptr + 4 + 4 * n <= u32::MAX,
            mem == heap.memory@,
            out@.len() == i,
            forall|k: int| 0 <= k < i ==> out@[k] == le_u32(mem.subrange(ptr + 4 + 4 * k, ptr + 8 + 4 * k)) as u32,
        decreases n - i,
    {
        let v = read_header(heap, ptr + 4 + 4 * i)?;
        out.push(v);
        i = i + 1;
    }
    proof {
        let want = Seq::new(n as nat, |k: int| le_u32(mem.subrange(ptr + 4 + 4 * k, ptr + 8 + 4 * k)) as u32);
        assert(out@ =~= want);
    }
    Ok(out)
}

pub proof fn lemma_ptrs_le_len(ps: Seq<u32>)
    ensures
        ptrs_le(ps).len() == 4 * ps.len(),
        forall|k: int| 0 <= k < ps.len() ==> #[trigger] ptrs_le(ps).subrange(4 * k, 4 * k + 4) == u32_le(ps[k]),
    decreases ps.len(),
{
    if ps.len() > 0 {
        let init = ps.drop_last();
        lemma_ptrs_le_len(init);
        assert forall|k: int| 0 <= k < ps.len() implies #[trigger] ptrs_le(ps).subrange(4 * k, 4 * k + 4) == u32_le(ps[k]) by {
            if k < init.len() {
                assert(ptrs_le(ps).subrange(4 * k, 4 * k + 4) =~= ptrs_le(init).subrange(4 * k, 4 * k + 4));
            } else {
                assert(ptrs_le(ps).subrange(4 * k, 4 * k + 4) =~= u32_le(ps.last()));
            }
        }
    }
}

/// A byte array read back from where it was written is the array written.
pub proof fn bytes_round_trip(mem: Seq<u8>, p: int, b: Seq<u8>)
    requires
        b.len() <= MAX_OBJECT_SIZE - 4,
        holds_at(mem, p, encode_bytes(b)),
        p + encode_bytes(b).len() <= u32::MAX,
    ensures
        bytes_at(mem, p) == Some(b),
{
    let image = encode_bytes(b);
    assert(mem.subrange(p, p + 4) =~= image.subrange(0, 4));
    assert(image.subrange(0, 4) =~= u32_le(b.len() as u32));
    le_u32_of_u32_le(b.len() as u32);
    assert(mem.subrange(p + 4, p + 4 + b.len()) =~= image.subrange(4, 4 + b.len() as int));
    assert(image.subrange(4, 4 + b.len() as int) =~= b);
}

/// Code units survive their byte layout.
pub proof fn units_round_trip(u: Seq<u16>)
    ensures
        units_le(u).len() == 2 * u.len(),
        units_of(units_le(u)) == u,
{
    let b = units_le(u);
    assert forall|i: int| 0 <= i < u.len() implies #[trigger] units_of(b)[i] == u[i] by {
        assert((2 * i) / 2 == i);
        assert((2 * i + 1) / 2 == i);
        assert((2 * i) % 2 == 0);
        assert((2 * i + 1) % 2 == 1);
        let x = u[i];
        assert((x % 256) + 256 * (x / 256) == x);
    }
    assert(units_of(b) =~= u);
}

/// A string read back from where it was written has the code units written;
/// `asc_get_string` then returns the string itself.
proof fn lemma_utf16_char(c: char)
    ensures
        (c as u32) < 0x10000 ==> utf16_char(c).len() == 1 && !(0xDC00 <= utf16_char(c)[0] <= 0xDFFF)
            && utf16_char(c)[0] == c as u32,
        (c as u32) >= 0x10000 ==> utf16_char(c).len() == 2 && 0xDC00 <= utf16_char(c)[1] <= 0xDFFF
            && utf16_char(c)[0] == 0xD800 + ((c as u32) - 0x10000) / 0x400
            && utf16_char(c)[1] == 0xDC00 + ((c as u32) - 0x10000) % 0x400,
{
    vstd::utf8::char_is_scalar(c);
    let v = c as u32;
    if v >= 0x10000 {
        assert(v <= 0x10FFFF);
        let w = v - 0x10000;
        assert(w / 0x400 < 0x400);
    }
}

proof fn lemma_utf16_len(s: Seq<char>)
    ensures
        utf16_of(s).len() >= s.len(),
    decreases s.len(),
{
    if s.len() > 0 {
        lemma_utf16_len(s.drop_last());
        lemma_utf16_char(s.last());
    }
}

/// Distinct strings have distinct UTF-16 code units.
pub proof fn lemma_utf16_injective(s: Seq<char>, t: Seq<char>)
    requires
        utf16_of(s) == utf16_of(t),
    ensures
        s == t,
    decreases s.len() + t.len(),
{
    lemma_utf16_len(s);
    lemma_utf16_len(t);
    if s.len() == 0 || t.len() == 0 {
        if s.len() == 0 && t.len() == 0 {
            assert(s =~= t);
        }
    } else {
        let (a, b) = (s.last(), t.last());
        let (ua, ub) = (utf16_char(a), utf16_char(b));
        let (ps, pt) = (utf16_of(s.drop_last()), utf16_of(t.drop_last()));
        lemma_utf16_char(a);
        lemma_utf16_char(b);
        let e = utf16_of(s);
        assert(e == ps + ua);
        assert(e == pt + ub);
        assert(e.last() == ua.last());
        assert(e.last() == ub.last());
        vstd::utf8::char_u32_cast(a, a as u32);
        vstd::utf8::char_u32_cast(b, b as u32);
        if (a as u32) < 0x10000 {
            assert((b as u32) < 0x10000);
            assert(a as u32 == b as u32);
        } else {
            assert((b as u32) >= 0x10000);
            assert(e[e.len() - 2] == ua[0]);
            assert(e[e.len() - 2] == ub[0]);
            let wa = (a as u32) - 0x10000;
            let wb = (b as u32) - 0x10000;
            assert(wa == 0x400 * (wa / 0x400) + wa % 0x400);
            assert(wb == 0x400 * (wb / 0x400) + wb % 0x400);
            assert(a as u32 == b as u32);
        }
        assert(a == b);
        assert(ps =~= e.subrange(0, e.len() - ua.len()));
        assert(pt =~= e.subrange(0, e.len() - ub.len()));
        lemma_utf16_injective(s.drop_last(), t.drop_last());
        assert(s =~= s.drop_last().push(a));
        assert(t =~= t.drop_last().push(b));
    }
}

/// A part of an image that stands in memory stands there too.
pub proof fn lemma_holds_part(mem: Seq<u8>, p: int, image: Seq<u8>, a: int, b: int)
    requires
        holds_at(mem, p, image),
        0 <= a <= b <= image.len(),
    ensures
        mem.subrange(p + a, p + b) == image.subrange(a, b),
{
    assert forall|k: int| 0 <= k < b - a implies #[trigger] mem.subrange(p + a, p + b)[k] == image.subrange(a, b)[k] by {
        assert(mem.subrange(p, p + image.len())[a + k] == image[a + k]);
    }
    assert(mem.subrange(p + a, p + b) =~= image.subrange(a, b));
}

#[verifier::rlimit(40)]
pub proof fn string_round_trip(mem: Seq<u8>, p: int, s: Seq<char>)
    requires
        utf16_of(s).len() <= (MAX_OBJECT_SIZE - 4) / 2,
        holds_at(mem, p, encode_string(s)),
        p + encode_string(s).len() <= u32::MAX,
    ensures
        units_at(mem, p) == Some(utf16_of(s)),
        string_at(mem, p) == Some(s),
{
    let u = utf16_of(s);
    let image = encode_string(s);
    let n = u.len() as int;
    assert(image.len() == 4 + 2 * n) by {
        units_round_trip(u);
    }
    lemma_holds_part(mem, p, image, 0, 4);
    assert(image.subrange(0, 4) =~= u32_le(n as u32));
    le_u32_of_u32_le(n as u32);
    assert(header_at(mem, p) == Some(n));
    lemma_holds_part(mem, p, image, 4, 4 + 2 * n);
    let body = mem.subrange(p + 4, p + 4 + 2 * n);
    assert(body == units_le(u)) by {
        assert(image.subrange(4, 4 + 2 * n) =~= units_le(u));
    }
    assert(units_of(body) == u) by {
        units_round_trip(u);
    }
    assert(units_at(mem, p) == Some(u));
    let c = choose|c: Seq<char>| utf16_of(c) == u;
    lemma_utf16_injective(c, s);
}

/// The part `[a, b)` of an image that stands at `p` stands at `p + a`.
pub proof fn lemma_holds_sub(mem: Seq<u8>, p: int, image: Seq<u8>, a: int, b: int)
    requires
        holds_at(mem, p, image),
        0 <= a <= b <= image.len(),
    ensures
        holds_at(mem, p + a, image.subrange(a, b)),
{
    lemma_holds_part(mem, p, image, a, b);
}

/// A 32-bit value written at `p` reads back as its header.
pub proof fn lemma_u32_at(mem: Seq<u8>, p: int, v: u32)
    requires
        holds_at(mem, p, u32_le(v)),
        p + 4 <= u32::MAX,
    ensures
        header_at(mem, p) == Some(v as int),
{
    le_u32_of_u32_le(v);
    assert(mem.subrange(p, p + 4) == u32_le(v));
}

/// An array of pointers read back from where it was written is the array written.
pub proof fn ptrs_round_trip(mem: Seq<u8>, p: int, ps: Seq<u32>)
    requires
        ps.len() <= (MAX_OBJECT_SIZE - 4) / 4,
        holds_at(mem, p, encode_ptrs(ps)),
        p + encode_ptrs(ps).len() <= u32::MAX,
    ensures
        ptrs_at(mem, p) == Some(ps),
{
    let image = encode_ptrs(ps);
    lemma_ptrs_le_len(ps);
    assert(mem.subrange(p, p + 4) =~= image.subrange(0, 4));
    assert(image.subrange(0, 4) =~= u32_le(ps.len() as u32));
    le_u32_of_u32_le(ps.len() as u32);
    let n = ps.len() as int;
    let got = Seq::new(n as nat, |i: int| le_u32(mem.subrange(p + 4 + 4 * i, p + 8 + 4 * i)) as u32);
    let body = mem.subrange(p + 4, p + 4 + 4 * n);
    assert(body =~= ptrs_le(ps)) by {
        assert forall|k: int| 0 <= k < 4 * n implies body[k] == ptrs_le(ps)[k] by {
            assert(body[k] == mem.subrange(p, p + image.len())[4 + k]);
        }
    }
    assert forall|i: int| 0 <= i < n implies got[i] == ps[i] by {
        assert(mem.subrange(p + 4 + 4 * i, p + 8 + 4 * i) =~= body.subrange(4 * i, 4 * i + 4));
        assert(mem.subrange(p + 4 + 4 * i, p + 8 + 4 * i) =~= ptrs_le(ps).subrange(4 * i, 4 * i + 4));
        assert(ptrs_le(ps).subrange(4 * i, 4 * i + 4) == u32_le(ps[i]));
        le_u32_of_u32_le(ps[i]);
    }
    assert(got =~= ps);
}

} // verus!
