//! Byte counts: their sum, and in words.

use vstd::prelude::*;
use crate::text;

verus! {

pub const KIB: u64 = 1024;

pub const MIB: u64 = 1_048_576;

pub const GIB: u64 = 1_073_741_824;

/// `x / unit` to the nearest integer; exactly half goes to the even neighbour.
pub open spec fn rounded(x: nat, unit: nat) -> nat {
    let q = x / unit;
    let r = x % unit;
    if 2 * r > unit || (2 * r == unit && q % 2 == 1) {
        q + 1
    } else {
        q
    }
}

/// The distance between neighbouring double precision numbers around `b`: 1 below
/// 2^53, and twice as much for each doubling from there on.
pub open spec fn float_step(b: nat) -> nat
    decreases b,
{
    if b < 0x20_0000_0000_0000 {
        1
    } else {
        2 * float_step(b / 2)
    }
}

/// The double precision number nearest to `b`.
pub open spec fn nearest_float(b: nat) -> nat {
    rounded(b, float_step(b)) * float_step(b)
}

/// A byte count in words: gigabytes with one decimal, megabytes and kilobytes
/// without, and single bytes below a kilobyte. Counts are rounded once to double
/// precision and then to the shown digits, halves to even.
pub open spec fn byte_words(b: nat) -> Seq<char> {
    let f = nearest_float(b);
    if b >= GIB {
        let tenths = rounded(f * 10, GIB as nat);
        text::decimal(tenths / 10) + "."@ + text::decimal(tenths % 10) + " GB"@
    } else if b >= MIB {
        text::decimal(rounded(f, MIB as nat)) + " MB"@
    } else if b >= KIB {
        text::decimal(rounded(f, KIB as nat)) + " KB"@
    } else {
        text::decimal(b) + " B"@
    }
}

fn round_div(x: u128, unit: u128) -> (r: u128)
    requires
        0 < unit <= 0x1_0000_0000_0000_0000,
        x <= 0xff_ffff_ffff_ffff_ffff,
    ensures
        r == rounded(x as nat, unit as nat),
{
    let q: u128 = x / unit;
    let m: u128 = x % unit;
    assert(q <= x) by (nonlinear_arith)
        requires
            q == x / unit,
            unit > 0,
    ;
    if 2 * m > unit || (2 * m == unit && q % 2 == 1) {
        q + 1
    } else {
        q
    }
}

fn spacing(b: u64) -> (r: u64)
    ensures
        r == float_step(b as nat),
        1 <= r,
        r == 1 || r * 0x10_0000_0000_0000 <= b,
    decreases b,
{
    if b < 0x20_0000_0000_0000 {
        1
    } else {
        let half: u64 = spacing(b / 2);
        2 * half
    }
}

/// `rounded` is off by at most half a unit.
proof fn lemma_rounded_bound(x: nat, unit: nat)
    requires
        unit > 0,
    ensures
        2 * (rounded(x, unit) * unit) <= 2 * x + unit,
        2 * x <= 2 * (rounded(x, unit) * unit) + unit,
{
    let q = x / unit;
    let r = x % unit;
    assert(x == q * unit + r) by {
        vstd::arithmetic::div_mod::lemma_fundamental_div_mod(x as int, unit as int);
        assert(unit * q == q * unit) by (nonlinear_arith);
    }
    assert((q + 1) * unit == q * unit + unit) by (nonlinear_arith);
    assert(r < unit) by {
        vstd::arithmetic::div_mod::lemma_mod_bound(x as int, unit as int);
    }
}

fn to_float(b: u64) -> (r: u128)
    ensures
        r == nearest_float(b as nat),
        r <= 0x1_0000_0000_0000_1000,
        b < 0x20_0000_0000_0000 ==> r == b,
{
    let step: u64 = spacing(b);
    assert(step <= 0x1000);
    let q: u128 = round_div(b as u128, step as u128);
    proof {
        lemma_rounded_bound(b as nat, step as nat);
    }
    assert(q <= 0xffff_ffff_ffff_ffff_ffff);
    q * step as u128
}

/// A byte count in words, such as `1.5 GB`, `12 MB`, `3 KB` or `512 B`.
pub fn fmt_bytes(b: u64) -> (r: String)
    ensures
        r@ == byte_words(b as nat),
{
    let f: u128 = to_float(b);
    if b >= GIB {
        let tenths: u128 = round_div(f * 10, GIB as u128);
        proof {
            lemma_rounded_bound((f * 10) as nat, GIB as nat);
        }
        let whole = text::decimal_of((tenths / 10) as u64);
        let part = text::decimal_of((tenths % 10) as u64);
        let mut r: String = whole;
        r.append(".");
        r.append(part.as_str());
        r.append(" GB");
        r
    } else if b >= MIB {
        let n: u128 = round_div(f, MIB as u128);
        proof {
            lemma_rounded_bound(f as nat, MIB as nat);
        }
        text::join2(text::decimal_of(n as u64).as_str(), " MB")
    } else if b >= KIB {
        let n: u128 = round_div(f, KIB as u128);
        proof {
            lemma_rounded_bound(f as nat, KIB as nat);
        }
        text::join2(text::decimal_of(n as u64).as_str(), " KB")
    } else {
        text::join2(text::decimal_of(b).as_str(), " B")
    }
}

/// The sum of byte counts.
pub open spec fn sum_of(parts: Seq<u64>) -> int
    decreases parts.len(),
{
    if parts.len() == 0 {
        0
    } else {
        sum_of(parts.drop_last()) + parts.last()
    }
}

proof fn lemma_sum_grows(parts: Seq<u64>, n: int)
    requires
        0 <= n <= parts.len(),
    ensures
        sum_of(parts.take(n)) <= sum_of(parts),
    decreases parts.len(),
{
    if n == parts.len() {
        assert(parts.take(n) =~= parts);
    } else {
        lemma_sum_grows(parts.drop_last(), n);
        assert(parts.drop_last().take(n) =~= parts.take(n));
    }
}

/// The sum of byte counts; none where it is more than can be told.
pub fn total(parts: &Vec<u64>) -> (r: Option<u64>)
    ensures
        match r {
            Some(sum) => sum == sum_of(parts@),
            None => sum_of(parts@) > u64::MAX,
        },
{
    let mut sum: u64 = 0;
    let mut i: usize = 0;
    while i < parts.len()
        invariant
            i <= parts@.len(),
            sum == sum_of(parts@.take(i as int)),
        decreases parts.len() - i,
    {
        proof {
            assert(parts@.take(i + 1).drop_last() =~= parts@.take(i as int));
            lemma_sum_grows(parts@, i + 1);
        }
        let part: u64 = parts[i];
        if sum > u64::MAX - part {
            return None;
        }
        sum = sum + part;
        i = i + 1;
    }
    assert(parts@.take(i as int) =~= parts@);
    Some(sum)
}

/// Rounding goes to a nearest whole number, and to the even one where two are as near.
pub proof fn rounding_goes_to_the_nearest(x: nat, unit: nat)
    requires
        unit > 0,
    ensures
        2 * (rounded(x, unit) * unit) <= 2 * x + unit,
        2 * x <= 2 * (rounded(x, unit) * unit) + unit,
        2 * (rounded(x, unit) * unit) == 2 * x + unit || 2 * x == 2 * (rounded(x, unit) * unit)
            + unit ==> rounded(x, unit) % 2 == 0,
{
    let q = x / unit;
    let r = x % unit;
    assert(x == q * unit + r && r < unit) by (nonlinear_arith)
        requires
            q == x / unit,
            r == x % unit,
            unit > 0,
    ;
    assert((q + 1) * unit == q * unit + unit) by (nonlinear_arith);
}

proof fn lemma_float_step(b: nat)
    ensures
        float_step(b) >= 1,
        b < 0x20_0000_0000_0000 ==> nearest_float(b) == b,
    decreases b,
{
    if b >= 0x20_0000_0000_0000 {
        lemma_float_step(b / 2);
    } else {
        assert(b / 1 == b && b % 1 == 0);
    }
}

/// `n` units are a nearest number of units to `x`, and an even one where two are as near.
pub open spec fn nearest_units(n: nat, unit: nat, x: nat) -> bool {
    &&& 2 * (n * unit) <= 2 * x + unit
    &&& 2 * x <= 2 * (n * unit) + unit
    &&& 2 * (n * unit) == 2 * x + unit || 2 * x == 2 * (n * unit) + unit ==> n % 2 == 0
}

/// Counts below a kilobyte are told exactly. From there on a count is told as the nearest
/// number of kilobytes, from a megabyte on of megabytes, and from a gigabyte on of tenths
/// of gigabytes, taken of what double precision holds of it.
pub proof fn counts_are_told_to_the_nearest(b: nat)
    ensures
        b < 1024 ==> byte_words(b) == text::decimal(b) + " B"@,
        1024 <= b < 1_048_576 ==> exists|n: nat|
            byte_words(b) == #[trigger] text::decimal(n) + " KB"@ && nearest_units(n, 1024, b),
        1_048_576 <= b < 1_073_741_824 ==> exists|n: nat|
            byte_words(b) == #[trigger] text::decimal(n) + " MB"@ && nearest_units(
                n,
                1_048_576,
                b,
            ),
        b >= 1_073_741_824 ==> exists|n: nat, t: nat|
            byte_words(b) == #[trigger] text::decimal(n) + "."@ + #[trigger] text::decimal(t)
                + " GB"@ && t < 10 && nearest_units(
                10 * n + t,
                1_073_741_824,
                10 * nearest_float(b),
            ),
        b < 0x20_0000_0000_0000 ==> nearest_float(b) == b,
{
    lemma_float_step(b);
    let f = nearest_float(b);
    rounding_goes_to_the_nearest(b, KIB as nat);
    rounding_goes_to_the_nearest(b, MIB as nat);
    rounding_goes_to_the_nearest(f * 10, GIB as nat);
    let k = rounded(b, KIB as nat);
    let m = rounded(b, MIB as nat);
    let g = rounded(f * 10, GIB as nat);
    if 1024 <= b < 1_048_576 {
        assert(byte_words(b) == text::decimal(k) + " KB"@);
        assert(nearest_units(k, 1024, b));
    }
    if 1_048_576 <= b < 1_073_741_824 {
        assert(byte_words(b) == text::decimal(m) + " MB"@);
        assert(nearest_units(m, 1_048_576, b));
    }
    if b >= 1_073_741_824 {
        let n = g / 10;
        let t = g % 10;
        assert(10 * n + t == g);
        assert(nearest_units(10 * n + t, 1_073_741_824, 10 * f));
        assert(byte_words(b) == text::decimal(n) + "."@ + text::decimal(t) + " GB"@);
    }
}

/// What double precision holds of a count is a multiple of the distance between its
/// numbers there, and none of those is nearer; the distance is the one at which the count
/// has fifty-three binary digits.
pub proof fn double_precision_is_nearest(b: nat)
    ensures
        ({
            let step = float_step(b);
            let f = nearest_float(b);
            &&& step >= 1
            &&& b < 0x20_0000_0000_0000 ==> step == 1 && f == b
            &&& b >= 0x20_0000_0000_0000 ==> 0x10_0000_0000_0000 * step <= b
                < 0x20_0000_0000_0000 * step
            &&& exists|n: nat| f == #[trigger] (n * step)
            &&& 2 * f <= 2 * b + step
            &&& 2 * b <= 2 * f + step
        }),
    decreases b,
{
    lemma_float_step(b);
    rounding_goes_to_the_nearest(b, float_step(b));
    if b >= 0x20_0000_0000_0000 {
        double_precision_is_nearest(b / 2);
    }
    assert(nearest_float(b) == rounded(b, float_step(b)) * float_step(b));
}

/// A total adds up all its parts, each once.
pub proof fn totals_add_up(a: Seq<u64>, b: Seq<u64>, x: u64)
    ensures
        sum_of(a + b) == sum_of(a) + sum_of(b),
        sum_of(seq![x]) == x,
        sum_of(Seq::empty()) == 0,
    decreases b.len(),
{
    assert(seq![x].drop_last() =~= Seq::<u64>::empty());
    assert(sum_of(seq![x].drop_last()) == 0);
    if b.len() == 0 {
        assert(a + b =~= a);
    } else {
        assert((a + b).drop_last() =~= a + b.drop_last());
        totals_add_up(a, b.drop_last(), x);
    }
}

} // verus!
