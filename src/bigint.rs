use vstd::prelude::*;

use num_bigint::BigInt;
use tiny_keccak::Hasher;

verus! {

/// The unsigned value of little-endian bytes.
pub open spec fn unsigned_le(b: Seq<u8>) -> nat
    decreases b.len(),
{
    if b.len() == 0 {
        0
    } else {
        (b[0] + 256 * unsigned_le(b.subrange(1, b.len() as int))) as nat
    }
}

/// The number of values that `n` bytes can take.
pub open spec fn byte_range(n: nat) -> nat
    decreases n,
{
    if n == 0 {
        1
    } else {
        256 * byte_range((n - 1) as nat)
    }
}

/// The value of little-endian two's-complement bytes; no bytes is zero.
pub open spec fn signed_le(b: Seq<u8>) -> int {
    if b.len() > 0 && b.last() >= 128 {
        unsigned_le(b) - byte_range(b.len())
    } else {
        unsigned_le(b) as int
    }
}

/// The number of bytes in the shortest two's-complement form of `v`; zero
/// takes one byte.
pub open spec fn signed_len(v: int) -> nat
    decreases abs(v),
{
    if -128 <= v < 128 {
        1
    } else {
        1 + signed_len(v / 256)
    }
}

/// Division rounded toward zero.
pub open spec fn trunc_div(a: int, b: int) -> int {
    let q = abs(a) / abs(b);
    if (a < 0) == (b < 0) {
        q
    } else {
        -q
    }
}

/// The remainder of division rounded toward zero; it takes the sign of `a`.
pub open spec fn trunc_rem(a: int, b: int) -> int {
    a - b * trunc_div(a, b)
}

pub open spec fn abs(a: int) -> int {
    if a < 0 {
        -a
    } else {
        a
    }
}

/// `x` to the power `e`.
pub open spec fn power(x: int, e: nat) -> int
    decreases e,
{
    if e == 0 {
        1
    } else {
        x * power(x, (e - 1) as nat)
    }
}

/// Relies on `num_bigint::BigInt`'s `+`, read from and written to
/// little-endian two's-complement bytes; `to_signed_bytes_le` writes the
/// shortest form.
#[verifier::external_body]
pub(crate) fn big_add(x: &[u8], y: &[u8]) -> (r: Vec<u8>)
    ensures
        signed_le(r@) == signed_le(x@) + signed_le(y@),
        r@.len() == signed_len(signed_le(r@)),
{
    (BigInt::from_signed_bytes_le(x) + BigInt::from_signed_bytes_le(y)).to_signed_bytes_le()
}

/// Relies on `num_bigint::BigInt`'s `-`, on two's-complement bytes.
#[verifier::external_body]
pub(crate) fn big_sub(x: &[u8], y: &[u8]) -> (r: Vec<u8>)
    ensures
        signed_le(r@) == signed_le(x@) - signed_le(y@),
        r@.len() == signed_len(signed_le(r@)),
{
    (BigInt::from_signed_bytes_le(x) - BigInt::from_signed_bytes_le(y)).to_signed_bytes_le()
}

/// Relies on `num_bigint::BigInt`'s `*`, on two's-complement bytes.
#[verifier::external_body]
pub(crate) fn big_mul(x: &[u8], y: &[u8]) -> (r: Vec<u8>)
    ensures
        signed_le(r@) == signed_le(x@) * signed_le(y@),
        r@.len() == signed_len(signed_le(r@)),
{
    (BigInt::from_signed_bytes_le(x) * BigInt::from_signed_bytes_le(y)).to_signed_bytes_le()
}

/// Relies on `num_bigint::BigInt`'s `/`, which rounds toward zero and panics
/// on a zero divisor.
#[verifier::external_body]
pub(crate) fn big_div(x: &[u8], y: &[u8]) -> (r: Vec<u8>)
    requires
        signed_le(y@) != 0,
    ensures
        signed_le(r@) == trunc_div(signed_le(x@), signed_le(y@)),
        r@.len() == signed_len(signed_le(r@)),
{
    (BigInt::from_signed_bytes_le(x) / BigInt::from_signed_bytes_le(y)).to_signed_bytes_le()
}

/// Relies on `num_bigint::BigInt`'s `%`, whose result takes the sign of the
/// dividend, and which panics on a zero divisor.
#[verifier::external_body]
pub(crate) fn big_rem(x: &[u8], y: &[u8]) -> (r: Vec<u8>)
    requires
        signed_le(y@) != 0,
    ensures
        signed_le(r@) == trunc_rem(signed_le(x@), signed_le(y@)),
        r@.len() == signed_len(signed_le(r@)),
{
    (BigInt::from_signed_bytes_le(x) % BigInt::from_signed_bytes_le(y)).to_signed_bytes_le()
}

/// Relies on `num_bigint::BigInt::pow`.
#[verifier::external_body]
pub(crate) fn big_pow(x: &[u8], e: u8) -> (r: Vec<u8>)
    ensures
        signed_le(r@) == power(signed_le(x@), e as nat),
        r@.len() == signed_len(signed_le(r@)),
{
    BigInt::from_signed_bytes_le(x).pow(e as u32).to_signed_bytes_le()
}

/// Relies on the `Display` of `num_bigint::BigInt`: the value in decimal.
#[verifier::external_body]
pub(crate) fn big_to_decimal(x: &[u8]) -> (r: String)
    ensures
        r@ == crate::text::decimal_of(signed_le(x@)),
{
    BigInt::from_signed_bytes_le(x).to_string()
}

/// Relies on `BigUint::to_str_radix` in radix sixteen on the magnitude of
/// a `num_bigint::BigInt`: lowercase digits without leading zeros.
#[verifier::external_body]
pub(crate) fn big_magnitude_hex(x: &[u8]) -> (r: String)
    ensures
        r@ == crate::text::hex_digits_of(abs(signed_le(x@)) as nat),
{
    BigInt::from_signed_bytes_le(x).magnitude().to_str_radix(16)
}

/// What `BigInt::from_str` reads from `s`: an optional sign, then decimal
/// digits, with `_` allowed between them.
pub uninterp spec fn parsed_big_int(s: Seq<char>) -> Option<int>;

/// Relies on `BigInt::from_str` in radix ten; the canonical decimal text of a
/// number reads back as that number.
#[verifier::external_body]
pub(crate) fn parse_big_int(s: &str) -> (r: Option<Vec<u8>>)
    ensures
        (r is Some) == (parsed_big_int(s@) is Some),
        r matches Some(b) ==> parsed_big_int(s@) == Some(signed_le(b@)),
        r matches Some(b) ==> b@.len() == signed_len(signed_le(b@)),
        forall|v: int| #[trigger] crate::text::decimal_of(v) == s@ ==> r is Some && signed_le(r->0@) == v,
{
    match s.parse::<BigInt>() {
        Ok(n) => Some(n.to_signed_bytes_le()),
        Err(_) => None,
    }
}

/// Whether two's-complement bytes stand for zero: every byte is zero.
pub fn is_zero(b: &[u8]) -> (r: bool)
    ensures
        r == (signed_le(b@) == 0),
{
    let mut i: usize = 0;
    while i < b.len()
        invariant
            0 <= i <= b@.len(),
            forall|j: int| 0 <= j < i ==> b@[j] == 0,
        decreases b@.len() - i,
    {
        if b[i] != 0 {
            proof {
                lemma_nonzero_byte(b@, i as int);
            }
            return false;
        }
        i = i + 1;
    }
    proof {
        lemma_zero_bytes(b@);
    }
    true
}

proof fn lemma_zero_bytes(b: Seq<u8>)
    requires
        forall|j: int| 0 <= j < b.len() ==> b[j] == 0,
    ensures
        unsigned_le(b) == 0,
        signed_le(b) == 0,
    decreases b.len(),
{
    if b.len() > 0 {
        lemma_zero_bytes(b.subrange(1, b.len() as int));
        assert(b.last() == b[b.len() - 1]);
    }
}

proof fn lemma_unsigned_bound(b: Seq<u8>)
    ensures
        unsigned_le(b) < byte_range(b.len()),
    decreases b.len(),
{
    if b.len() > 0 {
        let t = b.subrange(1, b.len() as int);
        lemma_unsigned_bound(t);
        assert(unsigned_le(b) <= 255 + 256 * unsigned_le(t));
        assert(256 * unsigned_le(t) <= 256 * (byte_range(t.len()) - 1)) by (nonlinear_arith)
            requires
                unsigned_le(t) <= byte_range(t.len()) - 1,
        ;
    }
}

proof fn lemma_nonzero_byte(b: Seq<u8>, i: int)
    requires
        0 <= i < b.len(),
        b[i] != 0,
    ensures
        signed_le(b) != 0,
{
    lemma_unsigned_positive(b, i);
    lemma_unsigned_bound(b);
}

proof fn lemma_unsigned_positive(b: Seq<u8>, i: int)
    requires
        0 <= i < b.len(),
        b[i] != 0,
    ensures
        unsigned_le(b) > 0,
    decreases b.len(),
{
    if i > 0 {
        let t = b.subrange(1, b.len() as int);
        assert(t[i - 1] == b[i]);
        lemma_unsigned_positive(t, i - 1);
    }
}

/// The Keccak-256 digest of `b`.
pub uninterp spec fn keccak256_of(b: Seq<u8>) -> Seq<u8>;

/// Relies on `tiny_keccak::Keccak::v256`: the 32-byte Keccak-256 digest.
#[verifier::external_body]
pub(crate) fn keccak256(b: &[u8]) -> (r: Vec<u8>)
    ensures
        r@ == keccak256_of(b@),
        r@.len() == 32,
{
    let mut k = tiny_keccak::Keccak::v256();
    k.update(b);
    let mut out = [0u8; 32];
    k.finalize(&mut out);
    out.to_vec()
}

/// The base-58 digit `d` in the Bitcoin alphabet.
pub open spec fn base58_digit(d: int) -> char {
    seq!['1', '2', '3', '4', '5', '6', '7', '8', '9', 'A', 'B', 'C', 'D', 'E', 'F', 'G', 'H', 'J', 'K', 'L', 'M', 'N', 'P', 'Q', 'R', 'S', 'T', 'U', 'V', 'W', 'X', 'Y', 'Z', 'a', 'b', 'c', 'd', 'e', 'f', 'g', 'h', 'i', 'j', 'k', 'm', 'n', 'o', 'p', 'q', 'r', 's', 't', 'u', 'v', 'w', 'x', 'y', 'z'][d]
}

/// The unsigned value of big-endian bytes.
pub open spec fn unsigned_be(b: Seq<u8>) -> nat
    decreases b.len(),
{
    if b.len() == 0 {
        0
    } else {
        (unsigned_be(b.drop_last()) * 256 + b.last()) as nat
    }
}

/// The base-58 digits of `n`, without leading zeros; none for zero.
pub open spec fn base58_digits(n: nat) -> Seq<char>
    decreases n,
{
    if n == 0 {
        Seq::empty()
    } else {
        base58_digits(n / 58).push(base58_digit((n % 58) as int))
    }
}

/// The number of zero bytes that `b` starts with.
pub open spec fn leading_zero_bytes(b: Seq<u8>) -> nat
    decreases b.len(),
{
    if b.len() > 0 && b[0] == 0 {
        1 + leading_zero_bytes(b.subrange(1, b.len() as int))
    } else {
        0
    }
}

/// The base58 text of `b`: a `1` for each leading zero byte, then the
/// base-58 digits of the bytes' big-endian value.
pub open spec fn base58_of(b: Seq<u8>) -> Seq<char> {
    Seq::new(leading_zero_bytes(b), |i: int| '1') + base58_digits(unsigned_be(b))
}

/// Relies on `bs58::encode` with its default (Bitcoin) alphabet.
#[verifier::external_body]
pub(crate) fn base58(b: &[u8]) -> (r: String)
    ensures
        r@ == base58_of(b@),
{
    bs58::encode(b).into_string()
}

} // verus!
