//! Decimal rendering of the numbers that appear in the output: plain
//! unsigned decimals, zero-padded decimals for the cross-reference table,
//! and fixed-point reals with three fractional digits.

use vstd::prelude::*;

verus! {

/// Decimal digit bytes of `n`, most significant digit first.
pub open spec fn dec_bytes(n: nat) -> Seq<u8>
    decreases n,
{
    if n < 10 {
        seq![(48 + n) as u8]
    } else {
        dec_bytes(n / 10) + seq![(48 + n % 10) as u8]
    }
}

/// `k` copies of the digit `0`.
pub open spec fn zero_bytes(k: nat) -> Seq<u8>
    decreases k,
{
    if k == 0 {
        Seq::empty()
    } else {
        seq![48u8] + zero_bytes((k - 1) as nat)
    }
}

/// Decimal digits of `n`, left-padded with zeros to at least `w` bytes.
pub open spec fn dec_padded_bytes(n: nat, w: nat) -> Seq<u8> {
    if dec_bytes(n).len() < w {
        zero_bytes((w - dec_bytes(n).len()) as nat) + dec_bytes(n)
    } else {
        dec_bytes(n)
    }
}

pub open spec fn pow10(k: nat) -> nat
    decreases k,
{
    if k == 0 {
        1
    } else {
        10 * pow10((k - 1) as nat)
    }
}

proof fn lemma_dec_bytes_len_bound(n: nat, k: nat)
    requires
        1 <= k,
        n < pow10(k),
    ensures
        dec_bytes(n).len() <= k,
    decreases k,
{
    if n < 10 {
    } else {
        assert(pow10(k) == 10 * pow10((k - 1) as nat));
        lemma_dec_bytes_len_bound(n / 10, (k - 1) as nat);
    }
}

/// Appends the decimal digits of `n` to `out`.
pub fn push_dec(n: u64, out: &mut Vec<u8>)
    ensures
        final(out)@ == old(out)@ + dec_bytes(n as nat),
    decreases n,
{
    if n < 10 {
        out.push((n as u8) + 48);
        assert(final(out)@ =~= old(out)@ + dec_bytes(n as nat));
    } else {
        push_dec(n / 10, out);
        out.push((n % 10) as u8 + 48);
        assert(final(out)@ =~= old(out)@ + dec_bytes(n as nat));
    }
}

/// Number of decimal digits of `n`.
fn count_digits(n: u64) -> (d: u64)
    ensures
        d == dec_bytes(n as nat).len(),
        d <= 20,
    decreases n,
{
    proof {
        reveal_with_fuel(pow10, 21);
        assert(pow10(20) == 100000000000000000000);
        lemma_dec_bytes_len_bound(n as nat, 20);
    }
    if n < 10 {
        1
    } else {
        1 + count_digits(n / 10)
    }
}

proof fn lemma_zero_bytes_snoc(k: nat)
    ensures
        zero_bytes(k + 1) =~= zero_bytes(k) + seq![48u8],
    decreases k,
{
    if k == 0 {
    } else {
        lemma_zero_bytes_snoc((k - 1) as nat);
        assert(zero_bytes(k + 1) =~= zero_bytes(k) + seq![48u8]);
    }
}

/// Appends the decimal digits of `n`, zero-padded on the left to `w` bytes.
pub fn push_dec_padded(n: u64, w: u64, out: &mut Vec<u8>)
    ensures
        final(out)@ == old(out)@ + dec_padded_bytes(n as nat, w as nat),
{
    let d = count_digits(n);
    let mut k: u64 = d;
    while k < w
        invariant
            d <= k,
            d == dec_bytes(n as nat).len(),
            k <= w || k == d,
            out@ == old(out)@ + zero_bytes((k - d) as nat),
        decreases w - k,
    {
        out.push(48);
        proof {
            lemma_zero_bytes_snoc((k - d) as nat);
            assert(out@ =~= old(out)@ + zero_bytes((k + 1 - d) as nat));
        }
        k = k + 1;
    }
    push_dec(n, out);
    proof {
        if d < w {
            assert(final(out)@ =~= old(out)@ + dec_padded_bytes(n as nat, w as nat));
        } else {
            assert(zero_bytes(0) =~= Seq::<u8>::empty());
            assert(final(out)@ =~= old(out)@ + dec_padded_bytes(n as nat, w as nat));
        }
    }
}

/// A real number in thousandths: the value is `milli / 1000`.
///
/// Coordinates, color components and font sizes are all carried as `Fixed`
/// values and print as decimals with up to three fractional digits.
#[derive(Clone, Copy, PartialEq, Eq, Structural, Debug)]
pub struct Fixed {
    pub milli: i64,
}

/// Bytes of the fractional part of a magnitude, `f` being thousandths,
/// with trailing zeros trimmed; empty when `f` is zero.
pub open spec fn frac_bytes(f: nat) -> Seq<u8> {
    let d1 = (48 + f / 100) as u8;
    let d2 = (48 + (f / 10) % 10) as u8;
    let d3 = (48 + f % 10) as u8;
    if f == 0 {
        Seq::empty()
    } else if f % 10 != 0 {
        seq![46u8, d1, d2, d3]
    } else if (f / 10) % 10 != 0 {
        seq![46u8, d1, d2]
    } else {
        seq![46u8, d1]
    }
}

/// Decimal bytes of the nonnegative fixed-point value `u` thousandths.
pub open spec fn mag_bytes(u: nat) -> Seq<u8> {
    dec_bytes(u / 1000) + frac_bytes(u % 1000)
}

/// Decimal bytes of the fixed-point value `m` thousandths, with sign.
pub open spec fn fixed_bytes(m: int) -> Seq<u8> {
    if m < 0 {
        seq![45u8] + mag_bytes((-m) as nat)
    } else {
        mag_bytes(m as nat)
    }
}

impl Fixed {
    /// The value `v` as a `Fixed`.
    pub fn from_int(v: i32) -> (r: Fixed)
        ensures
            r.milli == v as int * 1000,
    {
        Fixed { milli: (v as i64) * 1000 }
    }

    /// The value `milli / 1000` as a `Fixed`.
    pub fn from_milli(milli: i64) -> (r: Fixed)
        ensures
            r.milli == milli,
    {
        Fixed { milli }
    }

    pub fn zero() -> (r: Fixed)
        ensures
            r.milli == 0,
    {
        Fixed { milli: 0 }
    }
}

/// Appends the decimal rendering of `x` to `out`.
pub fn push_fixed(x: Fixed, out: &mut Vec<u8>)
    ensures
        final(out)@ == old(out)@ + fixed_bytes(x.milli as int),
{
    let m = x.milli;
    let mag: u64 = if m >= 0 {
        m as u64
    } else {
        ((-(m + 1)) as u64) + 1
    };
    assert(mag as nat == if m >= 0 { m as nat } else { (-(m as int)) as nat });
    if m < 0 {
        out.push(45);
    }
    push_dec(mag / 1000, out);
    let f = mag % 1000;
    if f != 0 {
        let d1 = 48 + (f / 100) as u8;
        let d2 = 48 + ((f / 10) % 10) as u8;
        let d3 = 48 + (f % 10) as u8;
        if f % 10 != 0 {
            out.push(46);
            out.push(d1);
            out.push(d2);
            out.push(d3);
        } else if (f / 10) % 10 != 0 {
            out.push(46);
            out.push(d1);
            out.push(d2);
        } else {
            out.push(46);
            out.push(d1);
        }
    }
    assert(final(out)@ =~= old(out)@ + fixed_bytes(x.milli as int));
}

} // verus!
