//! Rendering unsigned integers as digit strings in a given radix, with padding.
use vstd::prelude::*;

verus! {

/// The ASCII digit for a value below the radix (lower-case letters above nine).
pub open spec fn digit_char(d: nat) -> u8 {
    if d < 10 {
        (48 + d) as u8
    } else {
        (97 + d - 10) as u8
    }
}

/// The shortest digit string of `n` in `radix` ("0" for zero).
pub open spec fn digits_of(n: nat, radix: nat) -> Seq<u8>
    decreases n
    via digits_of_decreases
{
    if radix < 2 || n < radix {
        seq![digit_char(n)]
    } else {
        digits_of(n / radix, radix).push(digit_char(n % radix))
    }
}

#[via_fn]
proof fn digits_of_decreases(n: nat, radix: nat) {
    if !(radix < 2 || n < radix) {
        assert(n / radix < n) by (nonlinear_arith)
            requires
                radix >= 2,
                n >= radix,
        ;
    }
}

/// `s` preceded by as many `fill` bytes as make it at least `width` long.
pub open spec fn pad_left(s: Seq<u8>, width: nat, fill: u8) -> Seq<u8> {
    if s.len() >= width {
        s
    } else {
        Seq::new((width - s.len()) as nat, |_i: int| fill) + s
    }
}

/// The digits of `n` in `radix`, padded on the left with `fill` to `width`.
pub open spec fn padded(n: nat, radix: nat, width: nat, fill: u8) -> Seq<u8> {
    pad_left(digits_of(n, radix), width, fill)
}

/// The value of a digit byte: `0`-`9`, then `a`-`f`.
pub open spec fn digit_value(c: u8) -> nat {
    if c >= 97 {
        (c - 87) as nat
    } else {
        (c - 48) as nat
    }
}

/// The number that `s` denotes in `radix`, spaces skipped.
pub open spec fn read_number(s: Seq<u8>, radix: nat) -> nat
    decreases s.len(),
{
    if s.len() == 0 {
        0
    } else if s.last() == 32u8 {
        read_number(s.drop_last(), radix)
    } else {
        read_number(s.drop_last(), radix) * radix + digit_value(s.last())
    }
}

/// Reading back the digits of `n` gives `n`.
pub proof fn lemma_read_digits(n: nat, radix: nat)
    requires
        2 <= radix <= 16,
    ensures
        read_number(digits_of(n, radix), radix) == n,
    decreases n,
{
    if n < radix {
        let s = digits_of(n, radix);
        assert(s.drop_last() =~= Seq::<u8>::empty());
        assert(s.last() == digit_char(n));
        assert(digit_char(n) != 32u8 && digit_value(digit_char(n)) == n);
        assert(read_number(s.drop_last(), radix) == 0);
        assert(0 * radix == 0);
        assert(read_number(s, radix) == read_number(s.drop_last(), radix) * radix + n);
    } else {
        assert(n / radix < n) by (nonlinear_arith)
            requires
                radix >= 2,
                n >= radix,
        ;
        lemma_read_digits(n / radix, radix);
        let s = digits_of(n, radix);
        assert(s.drop_last() =~= digits_of(n / radix, radix));
        assert(n % radix < radix) by (nonlinear_arith)
            requires
                radix >= 2,
        ;
        let m = n % radix;
        assert(s.last() == digit_char(m));
        assert(digit_char(m) != 32u8 && digit_value(digit_char(m)) == m);
        assert(read_number(s, radix) == read_number(s.drop_last(), radix) * radix + m);
        assert(read_number(s, radix) == (n / radix) * radix + m);
        assert(n == (n / radix) * radix + n % radix) by (nonlinear_arith)
            requires
                radix >= 2,
        ;
    }
}

/// Zeros and spaces in front of a number do not change what it reads as.
pub proof fn lemma_read_skips_prefix(p: Seq<u8>, s: Seq<u8>, radix: nat)
    requires
        forall|i: int| 0 <= i < p.len() ==> #[trigger] p[i] == 48u8 || p[i] == 32u8,
    ensures
        read_number(p + s, radix) == read_number(s, radix),
    decreases p.len() + s.len(),
{
    if s.len() == 0 {
        assert(p + s =~= p);
        if p.len() > 0 {
            assert(p[p.len() - 1] == 48u8 || p[p.len() - 1] == 32u8);
            lemma_read_skips_prefix(p.drop_last(), s, radix);
            assert(p.drop_last() + s =~= p.drop_last());
            assert(read_number(p.drop_last(), radix) == 0);
            assert(0 * radix == 0);
            assert(read_number(p, radix) == 0);
        }
    } else {
        lemma_read_skips_prefix(p, s.drop_last(), radix);
        assert((p + s).drop_last() =~= p + s.drop_last());
        assert((p + s).last() == s.last());
    }
}

/// Padding a number with zeros or spaces does not change what it reads as.
pub proof fn lemma_read_padded(s: Seq<u8>, width: nat, fill: u8, radix: nat)
    requires
        fill == 48u8 || fill == 32u8,
    ensures
        read_number(pad_left(s, width, fill), radix) == read_number(s, radix),
{
    if s.len() < width {
        let p = Seq::new((width - s.len()) as nat, |_i: int| fill);
        lemma_read_skips_prefix(p, s, radix);
    }
}

/// `radix` to the power `k`.
pub open spec fn power(radix: nat, k: nat) -> nat
    decreases k,
{
    if k == 0 {
        1
    } else {
        radix * power(radix, (k - 1) as nat)
    }
}

/// A number below `radix` to the `k` has at most `k` digits (`k` at least one).
pub proof fn lemma_digits_len(n: nat, radix: nat, k: nat)
    requires
        2 <= radix,
        1 <= k,
        n < power(radix, k),
    ensures
        digits_of(n, radix).len() <= k,
    decreases k,
{
    if n >= radix {
        assert(k >= 2) by {
            if k == 1 {
                assert(power(radix, 0) == 1);
                assert(power(radix, 1) == radix * power(radix, 0));
                assert(radix * power(radix, 0) == radix) by (nonlinear_arith)
                    requires
                        power(radix, 0) == 1,
                ;
            }
        }
        let p = power(radix, (k - 1) as nat);
        assert(n / radix < p) by (nonlinear_arith)
            requires
                n < radix * p,
                radix >= 2,
        ;
        lemma_digits_len(n / radix, radix, (k - 1) as nat);
    }
}

fn digit_byte(d: u64) -> (r: u8)
    requires
        d < 16,
    ensures
        r == digit_char(d as nat),
{
    if d < 10 {
        (48 + d) as u8
    } else {
        (97 + d - 10) as u8
    }
}

/// Appends the digits of `n` in `radix` to `out`.
pub fn push_digits(out: &mut Vec<u8>, n: u64, radix: u64)
    requires
        2 <= radix <= 16,
    ensures
        final(out)@ == old(out)@ + digits_of(n as nat, radix as nat),
    decreases n,
{
    if n < radix {
        out.push(digit_byte(n));
        assert(old(out)@.push(digit_char(n as nat)) =~= old(out)@ + seq![digit_char(n as nat)]);
    } else {
        assert(n / radix < n) by (nonlinear_arith)
            requires
                radix >= 2,
                n >= radix,
        ;
        let q = n / radix;
        let d = n % radix;
        push_digits(out, q, radix);
        out.push(digit_byte(d));
        assert(final(out)@ =~= old(out)@ + digits_of(n as nat, radix as nat));
    }
}

/// Appends `s` to `out`, preceded by as many `fill` bytes as make it at
/// least `width` long.
pub fn push_left_padded(out: &mut Vec<u8>, s: &[u8], width: usize, fill: u8)
    ensures
        final(out)@ == old(out)@ + pad_left(s@, width as nat, fill),
{
    let len = s.len();
    if len < width {
        let mut i: usize = 0;
        while i < width - len
            invariant
                len < width,
                i <= width - len,
                out@ == old(out)@ + Seq::new(i as nat, |_j: int| fill),
            decreases width - len - i,
        {
            out.push(fill);
            i = i + 1;
            assert(out@ =~= old(out)@ + Seq::new(i as nat, |_j: int| fill));
        }
    }
    let pre = Ghost(out@);
    let mut k: usize = 0;
    while k < len
        invariant
            len == s@.len(),
            k <= len,
            out@ == pre@ + s@.subrange(0, k as int),
        decreases len - k,
    {
        out.push(s[k]);
        k = k + 1;
        assert(out@ =~= pre@ + s@.subrange(0, k as int));
    }
    assert(s@.subrange(0, len as int) =~= s@);
    assert(final(out)@ =~= old(out)@ + pad_left(s@, width as nat, fill));
}

/// Appends the digits of `n` in `radix`, padded on the left with `fill` to
/// `width` bytes.
pub fn push_padded(out: &mut Vec<u8>, n: u64, radix: u64, width: usize, fill: u8)
    requires
        2 <= radix <= 16,
    ensures
        final(out)@ == old(out)@ + padded(n as nat, radix as nat, width as nat, fill),
{
    let mut ds: Vec<u8> = Vec::new();
    push_digits(&mut ds, n, radix);
    assert(ds@ =~= digits_of(n as nat, radix as nat));
    push_left_padded(out, ds.as_slice(), width, fill);
}

} // verus!
