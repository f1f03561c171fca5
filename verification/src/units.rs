//! Amounts of bytes for people to read.
use vstd::prelude::*;

use crate::error::{concat2, concat3};
use crate::retry::doubled;
use crate::text;

verus! {

/// How many steps of precision a double-precision number has: two to the power of 53.
pub const DOUBLE_STEPS: u64 = 9007199254740992;

/// How many units there are.
pub const UNIT_COUNT: usize = 5;

/// `n` divided by `d`, rounded to the nearest whole number, and halves to the even one.
pub open spec fn half_even(n: int, d: int) -> int {
    let q = n / d;
    let r = n % d;
    if 2 * r < d || (2 * r == d && q % 2 == 0) {
        q
    } else {
        q + 1
    }
}

/// The power of two by whose multiples numbers near `n` are kept in double precision, as an
/// exponent from `e` on.
pub open spec fn grain_exponent(n: u64, e: nat) -> nat
    decreases 11 - e,
{
    if e >= 11 || n < doubled(e) * DOUBLE_STEPS {
        e
    } else {
        grain_exponent(n, e + 1)
    }
}

/// The number nearest to `n` in double precision.
pub open spec fn as_double(n: u64) -> int {
    let grain = doubled(grain_exponent(n, 0)) as int;
    half_even(n as int, grain) * grain
}

/// `n` divided by `d`, rounded to the nearest whole number, and halves to the even one.
fn divide_half_even(n: u128, d: u128) -> (r: u128)
    requires
        0 < d <= 0x1_0000_0000_0000_0000,
        n <= 0xff_ffff_ffff_ffff_ffff,
    ensures
        r == half_even(n as int, d as int),
        r <= n + 1,
{
    let q = n / d;
    let rest = n % d;
    assert(q <= n) by (nonlinear_arith)
        requires
            q == n / d,
            d > 0,
    ;
    if 2 * rest < d || (2 * rest == d && q % 2 == 0) {
        q
    } else {
        q + 1
    }
}

/// The number nearest to `n` in double precision.
fn round_to_double(n: u64) -> (r: u128)
    ensures
        r == as_double(n),
        r <= 0x1_0000_0000_0000_0000,
{
    let mut grain: u128 = 1;
    let mut e: u32 = 0;
    while e < 11 && n as u128 >= grain * DOUBLE_STEPS as u128
        invariant
            e <= 11,
            grain == doubled(e as nat),
            1 <= grain <= 2048,
            e <= 10 ==> grain <= 1024,
            grain_exponent(n, 0) == grain_exponent(n, e as nat),
            e == 0 <==> grain == 1,
            e > 0 ==> 2 * n >= grain * DOUBLE_STEPS,
        decreases 11 - e,
    {
        proof {
            lemma_doubled(e as nat);
        }
        grain = grain * 2;
        e = e + 1;
    }
    proof {
        lemma_doubled_values();
    }
    let q = divide_half_even(n as u128, grain);
    proof {
        lemma_rounded_bound(n as int, grain as int, e as nat);
    }
    q * grain
}

/// Doubling once more, and the doublings that are small.
proof fn lemma_doubled(e: nat)
    ensures
        doubled(e + 1) == 2 * doubled(e),
        e <= 9 ==> doubled(e) <= 512,
        e <= 10 ==> doubled(e) <= 1024,
{
    lemma_doubled_values();
}

/// The first doublings.
proof fn lemma_doubled_values()
    ensures
        doubled(0) == 1,
        doubled(1) == 2,
        doubled(2) == 4,
        doubled(3) == 8,
        doubled(4) == 16,
        doubled(5) == 32,
        doubled(6) == 64,
        doubled(7) == 128,
        doubled(8) == 256,
        doubled(9) == 512,
        doubled(10) == 1024,
        doubled(11) == 2048,
{
    reveal_with_fuel(doubled, 13);
}

/// Rounding a 64-bit number does not pass two to the power of 64.
proof fn lemma_rounded_bound(n: int, grain: int, e: nat)
    requires
        0 <= n < 0x1_0000_0000_0000_0000,
        e <= 11,
        grain == doubled(e),
    ensures
        half_even(n, grain) * grain <= 0x1_0000_0000_0000_0000,
        half_even(n, grain) >= 0,
{
    lemma_doubled_values();
    let q = n / grain;
    let top = 0x1_0000_0000_0000_0000int;
    let m = top / grain;
    assert(top == m * grain) by (nonlinear_arith)
        requires
            top == 0x1_0000_0000_0000_0000int,
            m == top / grain,
            grain == 1 || grain == 2 || grain == 4 || grain == 8 || grain == 16 || grain == 32
                || grain == 64 || grain == 128 || grain == 256 || grain == 512 || grain == 1024
                || grain == 2048,
    ;
    assert(q < m) by (nonlinear_arith)
        requires
            q == n / grain,
            n < top,
            top == m * grain,
            grain > 0,
    ;
    assert(half_even(n, grain) <= m);
    assert(half_even(n, grain) * grain <= m * grain) by (nonlinear_arith)
        requires
            half_even(n, grain) <= m,
            grain > 0,
    ;
}

/// The name of a unit of bytes, each 1024 times the one before.
pub open spec fn unit_name(k: nat) -> Seq<char> {
    if k == 0 {
        "B"@
    } else if k == 1 {
        "KiB"@
    } else if k == 2 {
        "MiB"@
    } else if k == 3 {
        "GiB"@
    } else {
        "TiB"@
    }
}

/// The unit for an amount, from unit `k` of size `scale` on, and its size.
pub open spec fn unit_for(amount: int, k: nat, scale: int) -> (nat, int)
    decreases UNIT_COUNT - k,
{
    if k + 1 < UNIT_COUNT && amount >= scale * 1024 {
        unit_for(amount, k + 1, scale * 1024)
    } else {
        (k, scale)
    }
}

/// An amount of bytes: below 1024 as it is, and otherwise in the largest unit that it fills, with
/// one decimal place below ten.
pub open spec fn bytes_text(bytes: u64) -> Seq<char> {
    let amount = as_double(bytes);
    let (k, scale) = unit_for(amount, 0, 1);
    if k == 0 {
        text::decimal_view(bytes as nat) + " B"@
    } else if amount >= 10 * scale {
        text::decimal_view(half_even(amount, scale) as nat) + " "@ + unit_name(k)
    } else {
        let tenths = half_even(10 * amount, scale);
        text::decimal_view((tenths / 10) as nat) + "."@ + text::decimal_view(
            (tenths % 10) as nat,
        ) + " "@ + unit_name(k)
    }
}

/// The name of a unit of bytes.
fn unit(k: usize) -> (name: &'static str)
    requires
        k < UNIT_COUNT,
    ensures
        name@ == unit_name(k as nat),
{
    if k == 0 {
        "B"
    } else if k == 1 {
        "KiB"
    } else if k == 2 {
        "MiB"
    } else if k == 3 {
        "GiB"
    } else {
        "TiB"
    }
}

/// Shows an amount of bytes.
pub fn format_bytes(bytes: u64) -> (s: String)
    ensures
        s@ == bytes_text(bytes),
{
    let amount = round_to_double(bytes);
    let mut k: usize = 0;
    let mut scale: u128 = 1;
    while k + 1 < UNIT_COUNT && amount >= scale * 1024
        invariant
            k < UNIT_COUNT,
            amount <= 0x1_0000_0000_0000_0000,
            1 <= scale <= 1099511627776,
            k <= 3 ==> scale <= 1073741824,
            k <= 2 ==> scale <= 1048576,
            k <= 1 ==> scale <= 1024,
            k == 0 ==> scale == 1,
            k > 0 ==> scale >= 1024,
            unit_for(amount as int, 0, 1) == unit_for(amount as int, k as nat, scale as int),
        decreases UNIT_COUNT - k,
    {
        scale = scale * 1024;
        k = k + 1;
    }
    if k == 0 {
        return concat2(text::decimal(bytes).as_str(), " B");
    }
    if amount >= 10 * scale {
        let whole = divide_half_even(amount, scale);
        proof {
            lemma_whole_is_small(amount as int, scale as int);
        }
        return concat3(text::decimal(whole as u64).as_str(), " ", unit(k));
    }
    let tenths = divide_half_even(10 * amount, scale);
    proof {
        lemma_tenths_are_few(amount as int, scale as int);
    }
    let mut s = concat3(
        text::decimal((tenths / 10) as u64).as_str(),
        ".",
        text::decimal((tenths % 10) as u64).as_str(),
    );
    s.append(" ");
    s.append(unit(k));
    s
}

/// In a unit of at least 1024 bytes an amount fits in 64 bits.
proof fn lemma_whole_is_small(amount: int, scale: int)
    requires
        0 <= amount <= 0x1_0000_0000_0000_0000,
        scale >= 1024,
    ensures
        0 <= half_even(amount, scale) <= u64::MAX,
{
    let q = amount / scale;
    assert(0 <= q <= amount / 1024) by (nonlinear_arith)
        requires
            q == amount / scale,
            scale >= 1024,
            amount >= 0,
    ;
}

/// Below ten of a unit there are at most a hundred tenths.
proof fn lemma_tenths_are_few(amount: int, scale: int)
    requires
        0 <= amount < 10 * scale,
    ensures
        0 <= half_even(10 * amount, scale) <= 100,
{
    let n = 10 * amount;
    let q = n / scale;
    assert(0 <= q < 100) by (nonlinear_arith)
        requires
            q == n / scale,
            0 <= n < 100 * scale,
    ;
}

/// A quotient is rounded to a nearest whole number, and to an even one where two are equally near.
pub proof fn law_a_quotient_is_rounded_to_the_nearest(n: int, d: int)
    requires
        d > 0,
        n >= 0,
    ensures
        -d <= 2 * (half_even(n, d) * d - n) <= d,
        2 * (half_even(n, d) * d - n) == d || 2 * (half_even(n, d) * d - n) == -d ==> half_even(
            n,
            d,
        ) % 2 == 0,
{
    let q = n / d;
    let r = n % d;
    assert(n == q * d + r && 0 <= r < d) by (nonlinear_arith)
        requires
            q == n / d,
            r == n % d,
            d > 0,
    ;
    assert((q + 1) * d == q * d + d) by (nonlinear_arith);
}

/// Amounts below 1024 bytes are told in bytes; whole numbers of a larger unit are told in that
/// unit, with a decimal place below ten.
pub proof fn law_whole_amounts_are_told_whole(n: u64)
    ensures
        n < 1024 ==> bytes_text(n) == text::decimal_view(n as nat) + " B"@,
        10 <= n < 1024 ==> {
            &&& bytes_text((n * 1024) as u64) == text::decimal_view(n as nat) + " KiB"@
            &&& bytes_text((n * 1048576) as u64) == text::decimal_view(n as nat) + " MiB"@
            &&& bytes_text((n * 1073741824) as u64) == text::decimal_view(n as nat) + " GiB"@
            &&& bytes_text((n * 1099511627776) as u64) == text::decimal_view(n as nat) + " TiB"@
        },
        1 <= n < 10 ==> {
            &&& bytes_text((n * 1024) as u64) == text::decimal_view(n as nat) + ".0 KiB"@
            &&& bytes_text((n * 1048576) as u64) == text::decimal_view(n as nat) + ".0 MiB"@
            &&& bytes_text((n * 1073741824) as u64) == text::decimal_view(n as nat) + ".0 GiB"@
            &&& bytes_text((n * 1099511627776) as u64) == text::decimal_view(n as nat) + ".0 TiB"@
        },
{
    if n < 1024 {
        lemma_exact(n);
        reveal_with_fuel(unit_for, 6);
        if n >= 1 {
            lemma_whole_amount(n, 1, 1024);
            lemma_whole_amount(n, 2, 1048576);
            lemma_whole_amount(n, 3, 1073741824);
            lemma_whole_amount(n, 4, 1099511627776);
            reveal_strlit(" ");
            reveal_strlit(" KiB");
            reveal_strlit(" MiB");
            reveal_strlit(" GiB");
            reveal_strlit(" TiB");
            reveal_strlit("KiB");
            reveal_strlit("MiB");
            reveal_strlit("GiB");
            reveal_strlit("TiB");
            reveal_strlit(".0 KiB");
            reveal_strlit(".0 MiB");
            reveal_strlit(".0 GiB");
            reveal_strlit(".0 TiB");
            reveal_strlit(".");
            let digits = text::decimal_view(n as nat);
            let zero = text::decimal_view(0);
            assert(zero =~= seq!['0']);
            assert(digits + " "@ + "KiB"@ =~= digits + " KiB"@);
            assert(digits + " "@ + "MiB"@ =~= digits + " MiB"@);
            assert(digits + " "@ + "GiB"@ =~= digits + " GiB"@);
            assert(digits + " "@ + "TiB"@ =~= digits + " TiB"@);
            assert(digits + "."@ + zero + " "@ + "KiB"@ =~= digits + ".0 KiB"@);
            assert(digits + "."@ + zero + " "@ + "MiB"@ =~= digits + ".0 MiB"@);
            assert(digits + "."@ + zero + " "@ + "GiB"@ =~= digits + ".0 GiB"@);
            assert(digits + "."@ + zero + " "@ + "TiB"@ =~= digits + ".0 TiB"@);
        }
    }
}

/// A number below two to the power of 53 is kept as it is in double precision.
proof fn lemma_exact(n: u64)
    requires
        n < DOUBLE_STEPS,
    ensures
        as_double(n) == n,
{
    assert(doubled(0) == 1);
    assert(grain_exponent(n, 0) == 0);
    assert(half_even(n as int, 1) == n);
}

/// A whole number of a unit is told in that unit.
proof fn lemma_whole_amount(n: u64, k: nat, scale: int)
    requires
        1 <= n < 1024,
        k == 1 && scale == 1024 || k == 2 && scale == 1048576 || k == 3 && scale == 1073741824
            || k == 4 && scale == 1099511627776,
    ensures
        ({
            let b = (n * scale) as u64;
            let digits = text::decimal_view(n as nat);
            &&& n >= 10 ==> bytes_text(b) == digits + " "@ + unit_name(k)
            &&& n < 10 ==> bytes_text(b) == digits + "."@ + text::decimal_view(0) + " "@
                + unit_name(k)
        }),
{
    let b = (n * scale) as u64;
    assert(n * scale <= 1023 * 1099511627776) by (nonlinear_arith)
        requires
            n <= 1023,
            1 <= scale <= 1099511627776,
    ;
    assert(n * scale >= scale) by (nonlinear_arith)
        requires
            n >= 1,
            scale >= 1,
    ;
    assert(n * scale < 1024 * scale) by (nonlinear_arith)
        requires
            n < 1024,
            scale >= 1,
    ;
    assert(b == n * scale);
    lemma_exact(b);
    reveal_with_fuel(unit_for, 6);
    assert(unit_for(b as int, 0, 1) == (k, scale));
    assert(n >= 10 <==> n * scale >= 10 * scale) by (nonlinear_arith)
        requires
            scale >= 1,
    ;
    lemma_exact_quotient(n as int, scale);
    assert(10 * (n * scale) == (10 * n) * scale) by (nonlinear_arith);
    lemma_exact_quotient(10 * n, scale);
}

/// A multiple divides without a rest.
proof fn lemma_exact_quotient(n: int, d: int)
    requires
        d > 0,
    ensures
        half_even(n * d, d) == n,
{
    assert((n * d) / d == n && (n * d) % d == 0) by (nonlinear_arith)
        requires
            d > 0,
    ;
}

} // verus!
