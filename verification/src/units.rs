//! Sizes for people to read.

use crate::chars;
use crate::text;
use vstd::prelude::*;

verus! {

/// `a / b` rounded to the nearest integer, halves to the even one.
pub open spec fn rounded(a: nat, b: nat) -> nat {
    if 2 * (a % b) < b {
        a / b
    } else if 2 * (a % b) > b {
        a / b + 1
    } else {
        a / b + (a / b) % 2
    }
}

/// The largest exact integers of a double are below this.
pub const DOUBLE_EXACT: u128 = 0x20_0000_0000_0000;

/// The distance of neighbouring doubles at `n`, from `step` upwards.
pub open spec fn double_step(n: nat, step: nat) -> nat
    decreases n + 1 - step,
{
    if step == 0 || n < DOUBLE_EXACT * step {
        step
    } else {
        double_step(n, 2 * step)
    }
}

/// `n` as a double.
pub open spec fn as_double(n: nat) -> nat {
    rounded(n, double_step(n, 1)) * double_step(n, 1)
}

/// The largest unit, up to GiB, of which there is at least one.
pub open spec fn unit_of(n: nat) -> nat {
    if n < 1024 {
        0
    } else if n < 1024 * 1024 {
        1
    } else if n < 1024 * 1024 * 1024 {
        2
    } else {
        3
    }
}

pub open spec fn unit_size(unit: nat) -> nat {
    if unit == 0 {
        1
    } else if unit == 1 {
        1024
    } else if unit == 2 {
        1024 * 1024
    } else {
        1024 * 1024 * 1024
    }
}

pub open spec fn unit_name(unit: nat) -> Seq<char> {
    if unit == 0 {
        " B"@
    } else if unit == 1 {
        " KiB"@
    } else if unit == 2 {
        " MiB"@
    } else {
        " GiB"@
    }
}

/// A size in the largest unit that fits, with one decimal for all but bytes.
pub open spec fn human(n: nat) -> Seq<char> {
    let unit = unit_of(n);
    if unit == 0 {
        chars::decimal(n) + unit_name(0)
    } else {
        let tenths = rounded(10 * as_double(n), unit_size(unit));
        chars::decimal(tenths / 10) + "."@ + chars::decimal(tenths % 10) + unit_name(unit)
    }
}

fn round(a: u128, b: u128) -> (r: u128)
    requires
        0 < b <= 0x1_0000_0000_0000,
        a <= 0x100_0000_0000_0000_0000,
    ensures
        r == rounded(a as nat, b as nat),
{
    let q: u128 = a / b;
    let rest: u128 = a % b;
    if 2 * rest < b {
        q
    } else if 2 * rest > b {
        q + 1
    } else {
        q + q % 2
    }
}

/// `n` as a double, which at this size has no fraction.
fn to_double(n: u64) -> (r: u128)
    ensures
        r == as_double(n as nat),
        r <= 0x1_0000_0000_0000_0000,
{
    let mut step: u128 = 1;
    while n as u128 >= DOUBLE_EXACT * step
        invariant
            1 <= step <= 2048,
            step == 1 || n as u128 >= DOUBLE_EXACT * (step / 2),
            step == 1 || step == 2 || step == 4 || step == 8 || step == 16 || step == 32 || step
                == 64 || step == 128 || step == 256 || step == 512 || step == 1024 || step == 2048,
            double_step(n as nat, 1) == double_step(n as nat, step as nat),
        decreases 4096 - step,
    {
        step = 2 * step;
    }
    let q = round(n as u128, step);
    proof {
        let m = n as nat;
        let s = step as nat;
        assert(q <= DOUBLE_EXACT) by {
            assert(m / s < DOUBLE_EXACT) by (nonlinear_arith)
                requires
                    m < DOUBLE_EXACT * s,
                    s > 0,
            ;
        }
        assert(q * step <= DOUBLE_EXACT * 2048) by (nonlinear_arith)
            requires
                q <= DOUBLE_EXACT,
                step <= 2048,
        ;
    }
    q * step
}

/// A size in the largest unit that fits, up to GiB.
pub fn human_bytes(n: u64) -> (r: String)
    ensures
        r@ == human(n as nat),
{
    if n < 1024 {
        return text::cat2(&text::decimal(n), " B");
    }
    let (size, name): (u128, &str) = if n < 1024 * 1024 {
        (1024, " KiB")
    } else if n < 1024 * 1024 * 1024 {
        (1024 * 1024, " MiB")
    } else {
        (1024 * 1024 * 1024, " GiB")
    };
    let d = to_double(n);
    let tenths = round(10 * d, size);
    assert(tenths / 10 <= u64::MAX);
    text::cat4(
        &text::decimal((tenths / 10) as u64),
        ".",
        &text::decimal((tenths % 10) as u64),
        name,
    )
}

/// A quotient is rounded to an integer that is no further off than a half, and
/// where two are a half off, to the even one.
pub proof fn rounding_goes_to_the_nearest(a: nat, b: nat)
    requires
        b > 0,
    ensures
        2 * (a - rounded(a, b) * b) <= b,
        2 * (rounded(a, b) * b - a) <= b,
        2 * (a - rounded(a, b) * b) == b || 2 * (rounded(a, b) * b - a) == b ==> rounded(a, b) % 2
            == 0,
{
    let q = a / b;
    let r = a % b;
    vstd::arithmetic::div_mod::lemma_fundamental_div_mod(a as int, b as int);
    assert(b * q == q * b) by (nonlinear_arith);
    assert((q + 1) * b == q * b + b) by (nonlinear_arith);
    let e = rounded(a, b);
    assert(e == q || e == q + 1);
    if 2 * r == b {
        assert(e % 2 == 0);
    }
}

/// A size is given in the largest of B, KiB, MiB and GiB of which there is at
/// least one; each is 1024 of the one before it.
pub proof fn units_fit_the_size(n: nat)
    ensures
        unit_of(n) <= 3,
        unit_of(n) > 0 ==> n >= unit_size(unit_of(n)),
        unit_of(n) < 3 ==> n < 1024 * unit_size(unit_of(n)),
        unit_size(0) == 1,
        unit_size(1) == 1024 * unit_size(0),
        unit_size(2) == 1024 * unit_size(1),
        unit_size(3) == 1024 * unit_size(2),
        unit_name(0) == " B"@,
        unit_name(1) == " KiB"@,
        unit_name(2) == " MiB"@,
        unit_name(3) == " GiB"@,
{
}

proof fn lemma_double_step(n: nat, step: nat)
    requires
        step > 0,
    ensures
        double_step(n, step) >= step,
        n < 0x20_0000_0000_0000 * double_step(n, step),
        double_step(n, step) > step ==> n >= 0x10_0000_0000_0000 * double_step(n, step),
    decreases n + 1 - step,
{
    if n >= DOUBLE_EXACT * step {
        lemma_double_step(n, 2 * step);
    }
}

/// Up to two to the power of 53 a size is a double as it is, and a larger one is
/// off by less than one part in two to the power of 53.
pub proof fn doubles_are_near(n: nat)
    ensures
        n < 0x20_0000_0000_0000 ==> as_double(n) == n,
        0x20_0000_0000_0000 * (n - as_double(n)) <= n,
        0x20_0000_0000_0000 * (as_double(n) - n) <= n,
{
    let step = double_step(n, 1);
    lemma_double_step(n, 1);
    rounding_goes_to_the_nearest(n, step);
    if n < 0x20_0000_0000_0000 {
        assert(step == 1);
        assert(n % 1 == 0 && n / 1 == n);
    }
    if step == 1 {
        assert(n % 1 == 0 && n / 1 == n);
        assert(as_double(n) == n);
    } else {
        let d = as_double(n);
        assert(2 * (n - d) <= step);
        assert(2 * (d - n) <= step);
        assert(n >= 0x10_0000_0000_0000 * step);
    }
}

/// A size below one KiB is a number of bytes. Any other is written in its unit
/// with one decimal, rounded.
pub proof fn sizes_have_one_decimal(n: nat)
    ensures
        n < 1024 ==> human(n) == chars::decimal(n) + " B"@,
        1024 <= n < 0x20_0000_0000_0000 ==> exists|whole: nat, tenth: nat|
            tenth < 10 && human(n) == #[trigger] size_text(whole, tenth, unit_name(unit_of(n))) && {
                let size = unit_size(unit_of(n));
                &&& 2 * (10 * n - (10 * whole + tenth) * size) <= size
                &&& 2 * ((10 * whole + tenth) * size - 10 * n) <= size
            },
{
    if 1024 <= n < 0x20_0000_0000_0000 {
        let size = unit_size(unit_of(n));
        doubles_are_near(n);
        let tenths = rounded(10 * as_double(n), size);
        rounding_goes_to_the_nearest(10 * n, size);
        let whole = tenths / 10;
        let tenth = tenths % 10;
        assert(10 * whole + tenth == tenths);
        assert(human(n) == size_text(whole, tenth, unit_name(unit_of(n))));
    }
}

/// A number with one decimal, and its unit.
pub open spec fn size_text(whole: nat, tenth: nat, unit: Seq<char>) -> Seq<char> {
    chars::decimal(whole) + "."@ + chars::decimal(tenth) + unit
}

} // verus!
