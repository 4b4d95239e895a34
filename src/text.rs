use vstd::prelude::*;

verus! {

/// The lowercase hexadecimal digit for `d` (below sixteen).
pub open spec fn hex_digit(d: int) -> char {
    seq!['0', '1', '2', '3', '4', '5', '6', '7', '8', '9', 'a', 'b', 'c', 'd', 'e', 'f'][d]
}

/// Two lowercase hexadecimal digits for each byte, high digit first.
pub open spec fn lower_hex(b: Seq<u8>) -> Seq<char>
    decreases b.len(),
{
    if b.len() == 0 {
        Seq::empty()
    } else {
        lower_hex(b.drop_last()) + seq![hex_digit(b.last() as int / 16), hex_digit(b.last() as int % 16)]
    }
}

/// The decimal digit for `d` (below ten).
pub open spec fn decimal_digit(d: int) -> char {
    seq!['0', '1', '2', '3', '4', '5', '6', '7', '8', '9'][d]
}

/// The decimal digits of `n`, without leading zeros.
pub open spec fn digits_of(n: nat) -> Seq<char>
    decreases n,
{
    if n < 10 {
        seq![decimal_digit(n as int)]
    } else {
        digits_of(n / 10).push(decimal_digit((n % 10) as int))
    }
}

/// The lowercase hexadecimal digits of `n`, without leading zeros.
pub open spec fn hex_digits_of(n: nat) -> Seq<char>
    decreases n,
{
    if n < 16 {
        seq![hex_digit(n as int)]
    } else {
        hex_digits_of(n / 16).push(hex_digit((n % 16) as int))
    }
}

/// `n` in decimal, with a minus sign when negative.
pub open spec fn decimal_of(n: int) -> Seq<char> {
    if n < 0 {
        seq!['-'] + digits_of((-n) as nat)
    } else {
        digits_of(n as nat)
    }
}

/// The value of an ASCII hexadecimal digit of either case.
pub open spec fn hex_value(c: u8) -> Option<int> {
    if 48 <= c <= 57 {
        Some(c - 48)
    } else if 97 <= c <= 102 {
        Some(c - 87)
    } else if 65 <= c <= 70 {
        Some(c - 55)
    } else {
        None
    }
}

/// The bytes that pairs of hexadecimal digits stand for, high digit first;
/// `None` for an odd length or a character that is not a hexadecimal digit.
pub open spec fn hex_decoded(b: Seq<u8>) -> Option<Seq<u8>> {
    if b.len() % 2 == 0 && forall|i: int| 0 <= i < b.len() ==> (#[trigger] hex_value(b[i])) is Some {
        Some(Seq::new(b.len() / 2, |i: int| (16 * hex_value(b[2 * i])->0 + hex_value(b[2 * i + 1])->0) as u8))
    } else {
        None
    }
}

/// Relies on `hex::decode`, which reads pairs of hexadecimal digits of
/// either case.
#[verifier::external_body]
fn hex_decode(b: &[u8]) -> (r: Option<Vec<u8>>)
    ensures
        match hex_decoded(b@) {
            Some(d) => (r matches Some(v) && v@ == d),
            None => r is None,
        },
{
    hex::decode(b).ok()
}

/// `b` without its leading `0x` pairs.
pub open spec fn strip_0x(b: Seq<u8>) -> Seq<u8>
    decreases b.len(),
{
    if b.len() >= 2 && b[0] == 48 && b[1] == 120 {
        strip_0x(b.subrange(2, b.len() as int))
    } else {
        b
    }
}

/// The 20 bytes of an address written in hexadecimal, with or without `0x`;
/// `None` for any other text.
pub fn address_from_hex(s: &str) -> (r: Option<Vec<u8>>)
    ensures
        match hex_decoded(strip_0x(vstd::utf8::encode_utf8(s@))) {
            Some(d) => if d.len() == 20 {
                (r matches Some(v) && v@ == d)
            } else {
                r is None
            },
            None => r is None,
        },
{
    let b = s.as_bytes();
    let mut start: usize = 0;
    assert(b@.subrange(0, b@.len() as int) =~= b@);
    while start < b.len() && b.len() - start >= 2 && b[start] == 48 && b[start + 1] == 120
        invariant
            0 <= start <= b@.len(),
            strip_0x(b@.subrange(start as int, b@.len() as int)) == strip_0x(b@),
        decreases b@.len() - start,
    {
        assert(b@.subrange(start as int, b@.len() as int).subrange(2, b@.len() - start) =~= b@.subrange(start + 2, b@.len() as int));
        start = start + 2;
    }
    proof {
        let rest = b@.subrange(start as int, b@.len() as int);
        if rest.len() >= 2 {
            assert(rest[0] == b@[start as int] && rest[1] == b@[start + 1]);
        }
        assert(strip_0x(rest) == rest);
    }
    let rest = slice_from(b, start);
    match hex_decode(rest.as_slice()) {
        Some(d) => if d.len() == 20 {
            Some(d)
        } else {
            None
        },
        None => None,
    }
}

/// The bytes of `b` from `start` on.
fn slice_from(b: &[u8], start: usize) -> (r: Vec<u8>)
    requires
        start <= b@.len(),
    ensures
        r@ == b@.subrange(start as int, b@.len() as int),
{
    let mut out: Vec<u8> = Vec::new();
    let mut i: usize = start;
    while i < b.len()
        invariant
            start <= i <= b@.len(),
            out@ == b@.subrange(start as int, i as int),
        decreases b@.len() - i,
    {
        out.push(b[i]);
        assert(out@ =~= b@.subrange(start as int, i + 1));
        i = i + 1;
    }
    out
}

/// Relies on `hex::encode`: two lowercase hexadecimal digits per byte.
#[verifier::external_body]
fn hex_encode(b: &[u8]) -> (r: String)
    ensures
        r@ == lower_hex(b@),
{
    hex::encode(b)
}

/// The decimal digit `d` as text.
fn digit_text(d: u64) -> (r: &'static str)
    requires
        d < 10,
    ensures
        r@ == seq![decimal_digit(d as int)],
{
    match d {
        0 => {
            proof {
                reveal_strlit("0");
            }
            "0"
        },
        1 => {
            proof {
                reveal_strlit("1");
            }
            "1"
        },
        2 => {
            proof {
                reveal_strlit("2");
            }
            "2"
        },
        3 => {
            proof {
                reveal_strlit("3");
            }
            "3"
        },
        4 => {
            proof {
                reveal_strlit("4");
            }
            "4"
        },
        5 => {
            proof {
                reveal_strlit("5");
            }
            "5"
        },
        6 => {
            proof {
                reveal_strlit("6");
            }
            "6"
        },
        7 => {
            proof {
                reveal_strlit("7");
            }
            "7"
        },
        8 => {
            proof {
                reveal_strlit("8");
            }
            "8"
        },
        _ => {
            proof {
                reveal_strlit("9");
            }
            "9"
        },
    }
}

/// Appends the decimal digits of `n`.
fn push_digits(s: &mut String, n: u64)
    ensures
        final(s)@ == old(s)@ + digits_of(n as nat),
    decreases n,
{
    if n >= 10 {
        push_digits(s, n / 10);
    }
    s.append(digit_text(n % 10));
    proof {
        if n >= 10 {
            assert(final(s)@ =~= old(s)@ + digits_of((n / 10) as nat).push(decimal_digit((n % 10) as int)));
        } else {
            assert(final(s)@ =~= old(s)@ + digits_of(n as nat));
        }
    }
}

/// `n` in decimal, with a minus sign when negative.
fn decimal(n: i32) -> (r: String)
    ensures
        r@ == decimal_of(n as int),
{
    let mut s = String::new();
    if n < 0 {
        s.append("-");
        proof {
            reveal_strlit("-");
        }
        let m: i64 = -(n as i64);
        push_digits(&mut s, m as u64);
        assert(s@ =~= seq!['-'] + digits_of((-n) as nat));
    } else {
        push_digits(&mut s, n as u64);
        assert(s@ =~= digits_of(n as nat));
    }
    s
}

/// `c` is one of the ASCII digits.
pub open spec fn is_decimal_digit(c: char) -> bool {
    48 <= (c as u32) <= 57
}

/// The value of ASCII decimal digits.
pub open spec fn digits_value(s: Seq<char>) -> nat
    decreases s.len(),
{
    if s.len() == 0 {
        0
    } else {
        digits_value(s.drop_last()) * 10 + ((s.last() as u32) - 48) as nat
    }
}

/// `s` is one or more ASCII digits.
pub open spec fn all_decimal_digits(s: Seq<char>) -> bool {
    s.len() > 0 && forall|i: int| 0 <= i < s.len() ==> is_decimal_digit(#[trigger] s[i])
}

/// The number that decimal text writes: an optional `+` (or `-` where
/// `signed`), then one or more digits.
pub open spec fn decimal_value(s: Seq<char>, signed: bool) -> Option<int> {
    if s.len() > 0 && (s[0] == '+' || signed && s[0] == '-') {
        let rest = s.subrange(1, s.len() as int);
        if all_decimal_digits(rest) {
            Some(
                if s[0] == '-' {
                    -(digits_value(rest) as int)
                } else {
                    digits_value(rest) as int
                },
            )
        } else {
            None
        }
    } else if all_decimal_digits(s) {
        Some(digits_value(s) as int)
    } else {
        None
    }
}

/// What `str::parse::<i64>` reads from `s`: decimal text whose value fits.
pub open spec fn parsed_i64(s: Seq<char>) -> Option<i64> {
    match decimal_value(s, true) {
        Some(v) => if i64::MIN <= v <= i64::MAX {
            Some(v as i64)
        } else {
            None
        },
        None => None,
    }
}

/// What `str::parse::<u64>` reads from `s`: unsigned decimal text whose
/// value fits.
pub open spec fn parsed_u64(s: Seq<char>) -> Option<u64> {
    match decimal_value(s, false) {
        Some(v) => if 0 <= v <= u64::MAX {
            Some(v as u64)
        } else {
            None
        },
        None => None,
    }
}

/// Relies on `str::parse::<i64>`, which reads an optional sign and decimal
/// digits and refuses a value out of range.
#[verifier::external_body]
pub(crate) fn parse_i64(s: &str) -> (r: Option<i64>)
    ensures
        r == parsed_i64(s@),
{
    s.parse::<i64>().ok()
}

/// Relies on `str::parse::<u64>`, which reads an optional `+` and decimal
/// digits and refuses a value out of range.
#[verifier::external_body]
pub(crate) fn parse_u64(s: &str) -> (r: Option<u64>)
    ensures
        r == parsed_u64(s@),
{
    s.parse::<u64>().ok()
}

/// What `String::from_utf8_lossy` makes of `b`: invalid sequences become
/// replacement characters.
pub uninterp spec fn lossy_utf8(b: Seq<u8>) -> Seq<char>;

/// Relies on `String::from_utf8_lossy`, which decodes valid UTF-8 exactly.
#[verifier::external_body]
fn utf8_lossy(b: &[u8]) -> (r: String)
    ensures
        r@ == lossy_utf8(b@),
        vstd::utf8::valid_utf8(b@) ==> r@ == vstd::utf8::decode_utf8(b@),
{
    String::from_utf8_lossy(b).into_owned()
}

/// `"0x"` followed by two lowercase hexadecimal digits per byte.
pub fn hex_with_prefix(b: &[u8]) -> (r: String)
    ensures
        r@ == "0x"@ + lower_hex(b@),
{
    let mut s = String::from_str("0x");
    let h = hex_encode(b);
    s.append(h.as_str());
    s
}

/// `b` without its trailing zero bytes.
pub open spec fn trim_zeros(b: Seq<u8>) -> Seq<u8>
    decreases b.len(),
{
    if b.len() > 0 && b.last() == 0 {
        trim_zeros(b.drop_last())
    } else {
        b
    }
}

/// Decodes bytes as UTF-8, dropping the zero bytes that pad a fixed-size
/// buffer at the end; invalid sequences become replacement characters.
pub fn bytes_to_string(b: &[u8]) -> (r: String)
    ensures
        r@ == lossy_utf8(trim_zeros(b@)),
        vstd::utf8::valid_utf8(trim_zeros(b@)) ==> r@ == vstd::utf8::decode_utf8(trim_zeros(b@)),
{
    let mut end: usize = b.len();
    assert(b@.subrange(0, b@.len() as int) =~= b@);
    while end > 0 && b[end - 1] == 0
        invariant
            0 <= end <= b@.len(),
            trim_zeros(b@.subrange(0, end as int)) == trim_zeros(b@),
        decreases end,
    {
        assert(b@.subrange(0, end as int).drop_last() =~= b@.subrange(0, end - 1));
        end = end - 1;
    }
    let trimmed = slice_prefix(b, end);
    assert(trim_zeros(trimmed@) == trimmed@);
    utf8_lossy(trimmed.as_slice())
}

/// The first `end` bytes of `b`.
fn slice_prefix(b: &[u8], end: usize) -> (r: Vec<u8>)
    requires
        end <= b@.len(),
    ensures
        r@ == b@.subrange(0, end as int),
{
    let mut out: Vec<u8> = Vec::new();
    let mut i: usize = 0;
    while i < end
        invariant
            0 <= i <= end,
            end <= b@.len(),
            out@ == b@.subrange(0, i as int),
        decreases end - i,
    {
        out.push(b[i]);
        assert(out@ =~= b@.subrange(0, i + 1));
        i = i + 1;
    }
    out
}

/// `Some(n)` shown in decimal, `None` shown as `unknown`.
pub open spec fn number_or_unknown(n: Option<i32>) -> Seq<char> {
    match n {
        Some(v) => decimal_of(v as int),
        None => "unknown"@,
    }
}

/// The text of the trap raised when a mapping aborts.
pub open spec fn abort_text(
    message: Option<Seq<char>>,
    file_name: Option<Seq<char>>,
    line: Option<i32>,
    column: Option<i32>,
) -> Seq<char> {
    "Mapping aborted at "@ + match file_name {
        Some(f) => f,
        None => "an unknown file"@,
    } + ", line "@ + number_or_unknown(line) + ", column "@ + number_or_unknown(column) + ", with "@
        + match message {
        Some(m) => "message: "@ + m,
        None => "no message"@,
    }
}

fn push_number(s: &mut String, n: Option<i32>)
    ensures
        final(s)@ == old(s)@ + number_or_unknown(n),
{
    match n {
        Some(v) => {
            let d = decimal(v);
            s.append(d.as_str());
        },
        None => s.append("unknown"),
    }
}

/// Builds the text of the trap raised when a mapping aborts.
pub fn abort_message(
    message: Option<String>,
    file_name: Option<String>,
    line: Option<i32>,
    column: Option<i32>,
) -> (r: String)
    ensures
        r@ == abort_text(
            match message {
                Some(m) => Some(m@),
                None => None,
            },
            match file_name {
                Some(f) => Some(f@),
                None => None,
            },
            line,
            column,
        ),
{
    let mut s = String::from_str("Mapping aborted at ");
    match &file_name {
        Some(f) => s.append(f.as_str()),
        None => s.append("an unknown file"),
    }
    s.append(", line ");
    push_number(&mut s, line);
    s.append(", column ");
    push_number(&mut s, column);
    s.append(", with ");
    match &message {
        Some(m) => {
            s.append("message: ");
            s.append(m.as_str());
        },
        None => s.append("no message"),
    }
    s
}

} // verus!
