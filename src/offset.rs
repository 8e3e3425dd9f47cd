//! Offset specifiers: `[+]digits[.][b]`, octal by default, decimal with a
//! trailing `.`, and counted in 512-byte blocks with a trailing `b`.
use vstd::prelude::*;
use vstd::string::StringSliceAdditionalSpecFns;

verus! {

/// Why an offset specifier was rejected.
#[derive(Debug, Clone, Copy, PartialEq, Eq, Structural)]
pub enum OffsetError {
    /// No digits remain once the sign and the suffixes are taken off.
    Empty,
    /// A byte of the digit part is not a digit of the chosen radix.
    InvalidDigit,
    /// The offset does not fit in 64 bits.
    Overflow,
}

/// The specifier without one leading `+`.
pub open spec fn offset_body(s: Seq<u8>) -> Seq<u8> {
    if s.len() > 0 && s[0] == 43u8 {
        s.drop_first()
    } else {
        s
    }
}

/// Whether the specifier ends in `b` (512-byte blocks).
pub open spec fn has_block_suffix(s: Seq<u8>) -> bool {
    let t = offset_body(s);
    t.len() > 0 && t.last() == 98u8
}

/// The specifier without the sign and without a trailing `b`.
pub open spec fn offset_unblocked(s: Seq<u8>) -> Seq<u8> {
    if has_block_suffix(s) {
        offset_body(s).drop_last()
    } else {
        offset_body(s)
    }
}

/// Whether the number is written in decimal (a `.` before the optional `b`).
pub open spec fn is_decimal(s: Seq<u8>) -> bool {
    let u = offset_unblocked(s);
    u.len() > 0 && u.last() == 46u8
}

/// The digit part of the specifier.
pub open spec fn offset_digits(s: Seq<u8>) -> Seq<u8> {
    if is_decimal(s) {
        offset_unblocked(s).drop_last()
    } else {
        offset_unblocked(s)
    }
}

pub open spec fn offset_radix(s: Seq<u8>) -> nat {
    if is_decimal(s) {
        10
    } else {
        8
    }
}

pub open spec fn offset_multiplier(s: Seq<u8>) -> nat {
    if has_block_suffix(s) {
        512
    } else {
        1
    }
}

pub open spec fn is_radix_digit(c: u8, radix: nat) -> bool {
    48 <= c && c < 48 + radix
}

pub open spec fn all_radix_digits(d: Seq<u8>, radix: nat) -> bool {
    forall|i: int| 0 <= i < d.len() ==> is_radix_digit(#[trigger] d[i], radix)
}

/// The number that a string of digits denotes in `radix`.
pub open spec fn digits_value(d: Seq<u8>, radix: nat) -> nat
    decreases d.len(),
{
    if d.len() == 0 {
        0
    } else {
        digits_value(d.drop_last(), radix) * radix + (d.last() - 48) as nat
    }
}

/// The outcome of reading `d` as a number in `radix`.
pub open spec fn digits_result(d: Seq<u8>, radix: nat) -> Result<u64, OffsetError> {
    if d.len() == 0 {
        Err(OffsetError::Empty)
    } else if !all_radix_digits(d, radix) {
        Err(OffsetError::InvalidDigit)
    } else if digits_value(d, radix) > u64::MAX {
        Err(OffsetError::Overflow)
    } else {
        Ok(digits_value(d, radix) as u64)
    }
}

/// The outcome of parsing the specifier `s`.
pub open spec fn offset_result(s: Seq<u8>) -> Result<u64, OffsetError> {
    match digits_result(offset_digits(s), offset_radix(s)) {
        Ok(n) => if n * offset_multiplier(s) > u64::MAX {
            Err(OffsetError::Overflow)
        } else {
            Ok((n * offset_multiplier(s)) as u64)
        },
        Err(e) => Err(e),
    }
}

proof fn lemma_value_grows(d: Seq<u8>, radix: nat, i: int, j: int)
    requires
        radix >= 1,
        0 <= i <= j <= d.len(),
        all_radix_digits(d, radix),
    ensures
        digits_value(d.subrange(0, i), radix) <= digits_value(d.subrange(0, j), radix),
    decreases j - i,
{
    if i < j {
        lemma_value_grows(d, radix, i, j - 1);
        let p = d.subrange(0, j);
        assert(p.drop_last() =~= d.subrange(0, j - 1));
        assert(is_radix_digit(d[j - 1], radix));
        let v = digits_value(d.subrange(0, j - 1), radix);
        assert(v <= v * radix) by (nonlinear_arith)
            requires
                radix >= 1,
        ;
    }
}

/// Reads `b[start..end]` as a number in `radix`.
fn parse_digits(b: &[u8], start: usize, end: usize, radix: u64) -> (r: Result<u64, OffsetError>)
    requires
        start <= end <= b@.len(),
        radix == 8 || radix == 10,
    ensures
        r == digits_result(b@.subrange(start as int, end as int), radix as nat),
{
    let ghost d = b@.subrange(start as int, end as int);
    if end == start {
        return Err(OffsetError::Empty);
    }
    let mut i: usize = start;
    while i < end
        invariant
            start <= i <= end <= b@.len(),
            d == b@.subrange(start as int, end as int),
            radix == 8 || radix == 10,
            forall|k: int| start <= k < i ==> is_radix_digit(#[trigger] b@[k], radix as nat),
        decreases end - i,
    {
        if !(48u8 <= b[i] && (b[i] as u64) < 48 + radix) {
            assert(d[i - start] == b@[i as int]);
            return Err(OffsetError::InvalidDigit);
        }
        i = i + 1;
    }
    assert(all_radix_digits(d, radix as nat)) by {
        assert forall|k: int| 0 <= k < d.len() implies is_radix_digit(#[trigger] d[k], radix as nat) by {
            assert(d[k] == b@[start + k]);
        }
    }
    let mut value: u64 = 0;
    let mut j: usize = start;
    while j < end
        invariant
            start <= j <= end <= b@.len(),
            d == b@.subrange(start as int, end as int),
            radix == 8 || radix == 10,
            all_radix_digits(d, radix as nat),
            value as nat == digits_value(d.subrange(0, j - start), radix as nat),
        decreases end - j,
    {
        let ghost p = d.subrange(0, j - start + 1);
        assert(p.drop_last() =~= d.subrange(0, j - start));
        assert(p.last() == b@[j as int]);
        assert(is_radix_digit(d[j - start], radix as nat));
        let digit = (b[j] - 48u8) as u64;
        let next = match value.checked_mul(radix) {
            Some(m) => m.checked_add(digit),
            None => None,
        };
        match next {
            Some(v) => {
                value = v;
            },
            None => {
                proof {
                    lemma_value_grows(d, radix as nat, j - start + 1, d.len() as int);
                    assert(d.subrange(0, d.len() as int) =~= d);
                    assert(value * radix + digit >= value * radix);
                }
                return Err(OffsetError::Overflow);
            },
        }
        j = j + 1;
    }
    assert(d.subrange(0, d.len() as int) =~= d);
    Ok(value)
}

/// Parses an offset specifier `[+]digits[.][b]` into a byte count: the digits
/// are octal unless followed by `.`, and a final `b` multiplies by 512.
pub fn parse_offset(offstr: &str) -> (r: Result<u64, OffsetError>)
    ensures
        r == offset_result(offstr.spec_bytes()),
{
    let b = offstr.as_bytes();
    let ghost s = offstr.spec_bytes();
    let len = b.len();
    let start: usize = if len > 0 && b[0] == 43u8 {
        1
    } else {
        0
    };
    assert(offset_body(s) =~= s.subrange(start as int, len as int));
    let mut end: usize = len;
    let mut mult: u64 = 1;
    let mut radix: u64 = 8;
    if end > start && b[end - 1] == 98u8 {
        mult = 512;
        end = end - 1;
    }
    assert(offset_unblocked(s) =~= s.subrange(start as int, end as int));
    if end > start && b[end - 1] == 46u8 {
        radix = 10;
        end = end - 1;
    }
    assert(offset_digits(s) =~= s.subrange(start as int, end as int));
    match parse_digits(b, start, end, radix) {
        Ok(n) => n.checked_mul(mult).ok_or(OffsetError::Overflow),
        Err(e) => Err(e),
    }
}

/// The specifier written from its parts: an optional `+`, the digits, an
/// optional `.` and an optional `b`.
pub open spec fn offset_text(plus: bool, digits: Seq<u8>, decimal: bool, blocks: bool) -> Seq<u8> {
    (if plus {
        seq![43u8]
    } else {
        Seq::empty()
    }) + digits + (if decimal {
        seq![46u8]
    } else {
        Seq::empty()
    }) + (if blocks {
        seq![98u8]
    } else {
        Seq::empty()
    })
}

/// Every specifier of the form `[+]digits[.][b]` parses: to its digits read in
/// octal (decimal with the `.`), times 512 with the `b`, whenever that fits in
/// 64 bits, and to `Overflow` only when it does not.
pub proof fn lemma_parse_offset_grammar(plus: bool, digits: Seq<u8>, decimal: bool, blocks: bool)
    requires
        digits.len() > 0,
        all_radix_digits(digits, if decimal { 10 } else { 8 }),
    ensures
        ({
            let n = digits_value(digits, if decimal { 10 } else { 8 }) * (if blocks { 512nat } else { 1nat });
            offset_result(offset_text(plus, digits, decimal, blocks)) == if n <= u64::MAX {
                Ok::<u64, OffsetError>(n as u64)
            } else {
                Err::<u64, OffsetError>(OffsetError::Overflow)
            }
        }),
{
    let s = offset_text(plus, digits, decimal, blocks);
    let radix: nat = if decimal { 10 } else { 8 };
    let dd = digits + (if decimal { seq![46u8] } else { Seq::empty() });
    let body = dd + (if blocks { seq![98u8] } else { Seq::empty() });
    assert(is_radix_digit(digits[0], radix));
    assert(is_radix_digit(digits.last(), radix));
    if plus {
        assert(s =~= seq![43u8] + body);
        assert(s.drop_first() =~= body);
    } else {
        assert(s =~= body);
    }
    assert(offset_body(s) =~= body);
    if blocks {
        assert(body.drop_last() =~= dd);
    } else {
        assert(body =~= dd);
    }
    assert(has_block_suffix(s) == blocks);
    assert(offset_unblocked(s) =~= dd);
    if decimal {
        assert(dd.drop_last() =~= digits);
    } else {
        assert(dd =~= digits);
    }
    assert(is_decimal(s) == decimal);
    assert(offset_digits(s) =~= digits);
    let v = digits_value(digits, radix);
    assert(v <= u64::MAX || v * offset_multiplier(s) > u64::MAX) by (nonlinear_arith)
        requires
            offset_multiplier(s) >= 1,
    ;
}

/// A specifier whose digit part is empty, or holds a byte that is not a digit
/// of its radix, is rejected.
pub proof fn lemma_parse_offset_rejects(s: Seq<u8>)
    requires
        offset_digits(s).len() == 0 || !all_radix_digits(offset_digits(s), offset_radix(s)),
    ensures
        offset_result(s) is Err,
        offset_digits(s).len() == 0 ==> offset_result(s) == Err::<u64, OffsetError>(OffsetError::Empty),
{
}

} // verus!
