//! How long something took and how large something is, in words.
//!
//! Both are given to a tenth, computed in the precision of IEEE double numbers:
//! 53 significant bits, rounded to the nearest, and to the even one of two that
//! are equally near.

use crate::number::{write_decimal, write_two_digits};
use vstd::arithmetic::mul::*;
use vstd::arithmetic::power2::*;
use vstd::prelude::*;
use vstd::string::*;

verus! {

/// The smallest number with 53 significant bits.
pub const HALF_SPAN: u64 = 0x10_0000_0000_0000;

/// The smallest number with 54 significant bits.
pub const SPAN: u64 = 0x20_0000_0000_0000;

/// The nanoseconds in a second.
pub const NANOS: u32 = 1_000_000_000;

/// A span of time.
#[derive(Debug, Clone, Copy, PartialEq, Eq, Structural)]
pub struct Elapsed {
    pub secs: u64,
    /// The nanoseconds beyond the whole seconds.
    pub nanos: u32,
}

impl Elapsed {
    /// There is less than a second beyond the whole seconds.
    pub open spec fn wf(self) -> bool {
        self.nanos < NANOS
    }
}

/// The integer nearest to `n / d`, the even one of two that are equally near.
pub open spec fn nearest(n: nat, d: nat) -> nat {
    let whole = n / d;
    let rest = n % d;
    if 2 * rest < d || (2 * rest == d && whole % 2 == 0) {
        whole
    } else {
        whole + 1
    }
}

/// How often `n / d` has to be doubled to have 53 bits before the point.
pub open spec fn shift(n: nat, d: nat) -> nat
    decreases
            if n < HALF_SPAN * d {
                HALF_SPAN * d - n
            } else {
                0
            },
{
    if n == 0 || n >= HALF_SPAN * d {
        0
    } else {
        1 + shift(2 * n, d)
    }
}

/// The double number nearest to `n / d`, below 2^53: `m / 2^s`, as `(m, s)`.
pub open spec fn double(n: nat, d: nat) -> (nat, nat) {
    (nearest(n * pow2(shift(n, d)), d), shift(n, d))
}

/// The tenths of a double number, to the nearest.
pub open spec fn tenths_of(double: (nat, nat)) -> nat {
    nearest(10 * double.0, pow2(double.1))
}

/// The tenths of a second in a span of time: its nanoseconds are divided by the
/// nanoseconds in a second, and the seconds are added.
pub open spec fn tenths_of_elapsed(elapsed: Elapsed) -> nat {
    let part = double(elapsed.nanos as nat, NANOS as nat);
    tenths_of(double((elapsed.secs * pow2(part.1) + part.0) as nat, pow2(part.1)))
}

/// A number of tenths, with a point.
pub open spec fn with_tenths(tenths: nat) -> Seq<char> {
    crate::number::decimal(tenths / 10) + "."@ + crate::number::decimal(tenths % 10)
}

/// A span of time in words.
pub open spec fn duration_text(elapsed: Elapsed) -> Seq<char> {
    let secs = elapsed.secs as int;
    if secs >= 3600 {
        crate::number::decimal((secs / 3600) as nat) + "h "@ + crate::number::two_digits(
            (secs % 3600) / 60,
        ) + "m "@ + crate::number::two_digits(secs % 60) + "s"@
    } else if secs >= 60 {
        crate::number::decimal((secs / 60) as nat) + "m "@ + crate::number::two_digits(secs % 60)
            + "s"@
    } else {
        with_tenths(tenths_of_elapsed(elapsed)) + "s"@
    }
}

/// How often a number has to be halved to have 53 bits.
pub open spec fn excess(n: nat) -> nat
    decreases n,
{
    if n < SPAN {
        0
    } else {
        1 + excess(n / 2)
    }
}

/// A whole number in double precision.
pub open spec fn whole_double(n: nat) -> nat {
    nearest(n, pow2(excess(n))) * pow2(excess(n))
}

/// The unit that a size is given in: the largest that is not larger than the size.
pub open spec fn unit_of(size: nat) -> int {
    if size < 0x400 {
        0
    } else if size < 0x10_0000 {
        1
    } else if size < 0x4000_0000 {
        2
    } else if size < 0x100_0000_0000 {
        3
    } else {
        4
    }
}

/// The bytes in a unit.
pub open spec fn unit_size(unit: int) -> nat {
    if unit == 0 {
        1
    } else if unit == 1 {
        0x400
    } else if unit == 2 {
        0x10_0000
    } else if unit == 3 {
        0x4000_0000
    } else {
        0x100_0000_0000
    }
}

/// The name of a unit.
pub open spec fn unit_name(unit: int) -> Seq<char> {
    if unit == 0 {
        "B"@
    } else if unit == 1 {
        "KiB"@
    } else if unit == 2 {
        "MiB"@
    } else if unit == 3 {
        "GiB"@
    } else {
        "TiB"@
    }
}

/// A size in words.
pub open spec fn bytes_text(bytes: nat) -> Seq<char> {
    let size = whole_double(bytes);
    let unit = unit_of(size);
    if unit == 0 {
        crate::number::decimal(bytes) + " "@ + unit_name(0)
    } else {
        with_tenths(nearest(10 * size, unit_size(unit))) + " "@ + unit_name(unit)
    }
}

// -- arithmetic --------------------------------------------------------------

/// `nearest` is a matter of the quotient alone.
proof fn lemma_nearest_scales(n: nat, d: nat, c: nat)
    requires
        d > 0,
        c > 0,
    ensures
        nearest(n * c, d * c) == nearest(n, d),
{
    vstd::arithmetic::div_mod::lemma_fundamental_div_mod(n as int, d as int);
    let whole = n as int / d as int;
    let rest = n as int % d as int;
    assert(0 <= rest < d);
    assert(n * c == whole * (d * c) + rest * c) by (nonlinear_arith)
        requires
            n == d * whole + rest,
    ;
    assert(0 <= rest * c < d * c) by (nonlinear_arith)
        requires
            0 <= rest < d,
            c > 0,
    ;
    vstd::arithmetic::div_mod::lemma_fundamental_div_mod_converse(
        (n * c) as int,
        (d * c) as int,
        whole,
        rest * c,
    );
    assert(2 * (rest * c) < d * c <==> 2 * rest < d) by (nonlinear_arith)
        requires
            c > 0,
    ;
    assert(2 * (rest * c) == d * c <==> 2 * rest == d) by (nonlinear_arith)
        requires
            c > 0,
    ;
}

/// An integer is nearest to itself.
proof fn lemma_nearest_exact(n: nat, d: nat)
    requires
        d > 0,
    ensures
        nearest(n * d, d) == n,
{
    lemma_nearest_scales(n, 1, d);
    assert(1 * d == d);
    assert(n / 1 == n && n % 1 == 0);
}

/// The integer nearest to `n / d`.
fn nearest_integer(n: u128, d: u128) -> (result: u128)
    requires
        0 < d < 0x1_0000_0000_0000_0000_0000_0000,
    ensures
        result == nearest(n as nat, d as nat),
        result <= n / d + 1,
{
    let whole = n / d;
    let rest = n % d;
    assert(d > 1 ==> whole < n || n == 0) by (nonlinear_arith)
        requires
            whole == n / d,
            d > 0,
    ;
    if 2 * rest < d || (2 * rest == d && whole % 2 == 0) {
        whole
    } else {
        whole + 1
    }
}

/// Doubling `n / d` on the way to 53 bits.
proof fn lemma_shift_doubles(n: nat, d: nat, s: nat)
    requires
        n > 0,
        n * pow2(s) < HALF_SPAN * d,
        shift(n, d) == s + shift(n * pow2(s), d),
    ensures
        shift(n, d) == s + 1 + shift(n * pow2(s + 1), d),
        n * pow2(s + 1) == 2 * (n * pow2(s)),
{
    lemma_pow2_pos(s);
    lemma_pow2_unfold(s + 1);
    assert(n * pow2(s) > 0) by (nonlinear_arith)
        requires
            n > 0,
            pow2(s) > 0,
    ;
    assert(n * (2 * pow2(s)) == 2 * (n * pow2(s))) by (nonlinear_arith);
}

/// The double number nearest to a part of a second, and the power of two that it
/// is over.
fn double_of_nanos(nanos: u32) -> (part: (u128, u128))
    requires
        0 < nanos < NANOS,
    ensures
        part.0 == double(nanos as nat, NANOS as nat).0,
        part.1 == pow2(double(nanos as nat, NANOS as nat).1),
        HALF_SPAN <= part.0 <= SPAN,
        HALF_SPAN < part.1 < 0x8_0000_0000_0000_0000_0000,
{
    let mut scaled: u128 = nanos as u128;
    let mut power: u128 = 1;
    let ghost mut s: nat = 0;
    proof {
        lemma2_to64();
        assert(nanos * pow2(0) == nanos);
    }
    while scaled < 0x10_0000_0000_0000 * 1_000_000_000
        invariant
            0 < nanos < NANOS,
            power == pow2(s),
            scaled == nanos * pow2(s),
            scaled < SPAN * NANOS,
            shift(nanos as nat, NANOS as nat) == s + shift(scaled as nat, NANOS as nat),
        decreases SPAN * NANOS - scaled,
    {
        proof {
            lemma_shift_doubles(nanos as nat, NANOS as nat, s);
            lemma_pow2_unfold(s + 1);
            lemma_pow2_pos(s);
            assert(power <= scaled) by (nonlinear_arith)
                requires
                    scaled == nanos * power,
                    nanos > 0,
            ;
            s = s + 1;
        }
        scaled = scaled * 2;
        power = power * 2;
    }
    proof {
        assert(power <= scaled) by (nonlinear_arith)
            requires
                scaled == nanos * power,
                nanos > 0,
        ;
        assert(0x10_0000_0000_0000 < power) by (nonlinear_arith)
            requires
                scaled == nanos * power,
                scaled >= 0x10_0000_0000_0000 * 1_000_000_000,
                nanos < 1_000_000_000,
        ;
    }
    let mantissa = nearest_integer(scaled, 1_000_000_000);
    (mantissa, power)
}

/// The tenths of a whole number of seconds.
proof fn lemma_whole_tenths(secs: u64)
    ensures
        tenths_of_elapsed(Elapsed { secs, nanos: 0 }) == 10 * secs,
{
    lemma2_to64();
    let n = secs as nat;
    let s = shift(n, 1);
    lemma_pow2_pos(s);
    assert(0 * pow2(0) == 0);
    assert(nearest(0, NANOS as nat) == 0);
    assert(double(0, NANOS as nat) == (0nat, 0nat));
    assert(secs * pow2(0) + 0 == secs);
    lemma_nearest_exact(n * pow2(s), 1);
    assert((n * pow2(s)) * 1 == n * pow2(s));
    assert(10 * (n * pow2(s)) == (10 * n) * pow2(s)) by (nonlinear_arith);
    lemma_nearest_exact(10 * n, pow2(s));
}

/// The tenths of a second in a span of time below a minute.
fn tenths_elapsed(secs: u64, nanos: u32) -> (tenths: u64)
    requires
        secs < 60,
        nanos < NANOS,
    ensures
        tenths == tenths_of_elapsed(Elapsed { secs, nanos }),
{
    if nanos == 0 {
        proof {
            lemma_whole_tenths(secs);
        }
        return 10 * secs;
    }
    let (part, over) = double_of_nanos(nanos);
    let ghost k = double(nanos as nat, NANOS as nat).1;
    assert(0 <= secs * over <= 59 * over) by (nonlinear_arith)
        requires
            secs <= 59,
    ;
    let sum: u128 = secs as u128 * over + part;
    let mut unit: u128 = over;
    let mut power: u128 = 1;
    let ghost mut j: nat = 0;
    proof {
        lemma2_to64();
        lemma_pow2_pos(k);
        assert(pow2(0) == 1);
        assert(sum * pow2(0) == sum) by (nonlinear_arith)
            requires
                pow2(0) == 1,
        ;
        assert(sum / over < SPAN) by (nonlinear_arith)
            requires
                sum <= 59 * over + SPAN,
                over >= 2,
                SPAN == 0x20_0000_0000_0000,
        ;
    }
    while sum / unit < 0x10_0000_0000_0000
        invariant
            HALF_SPAN <= sum,
            over == pow2(k),
            j <= k,
            unit == pow2((k - j) as nat),
            power == pow2(j),
            power > 0,
            unit * power == over,
            0 < over < 0x8_0000_0000_0000_0000_0000,
            0 < unit <= over,
            sum / unit < SPAN,
            shift(sum as nat, over as nat) == j + shift((sum * pow2(j)) as nat, over as nat),
        decreases unit,
    {
        proof {
            assert(sum < 0x10_0000_0000_0000 * unit) by (nonlinear_arith)
                requires
                    sum / unit < 0x10_0000_0000_0000,
                    unit > 0,
            ;
            assert(sum * power < 0x10_0000_0000_0000 * over) by (nonlinear_arith)
                requires
                    sum < 0x10_0000_0000_0000 * unit,
                    unit * power == over,
                    over > 0,
            ;
            lemma_shift_doubles(sum as nat, over as nat, j);
            if k == j {
                lemma2_to64();
                assert(false);
            }
            lemma_pow2_unfold((k - j) as nat);
            lemma_pow2_unfold(j + 1);
            lemma_pow2_pos((k - j - 1) as nat);
            assert((unit / 2) * (power * 2) == over) by (nonlinear_arith)
                requires
                    unit * power == over,
                    unit % 2 == 0,
            ;
            assert(sum / ((unit / 2) as u128) < SPAN) by (nonlinear_arith)
                requires
                    sum < 0x10_0000_0000_0000 * unit,
                    unit % 2 == 0,
                    unit > 0,
                    SPAN == 0x20_0000_0000_0000,
            ;
            assert(power * 2 <= over) by (nonlinear_arith)
                requires
                    (unit / 2) * (power * 2) == over,
                    unit / 2 > 0,
            ;
            j = j + 1;
        }
        unit = unit / 2;
        power = power * 2;
    }
    proof {
        assert(sum >= 0x10_0000_0000_0000 * unit) by (nonlinear_arith)
            requires
                sum / unit >= 0x10_0000_0000_0000,
                unit > 0,
        ;
        assert(sum * power >= 0x10_0000_0000_0000 * over) by (nonlinear_arith)
            requires
                sum >= 0x10_0000_0000_0000 * unit,
                unit * power == over,
                power > 0,
        ;
        lemma_nearest_scales(sum as nat, unit as nat, power as nat);
        assert(power <= over) by (nonlinear_arith)
            requires
                unit * power == over,
                unit > 0,
        ;
    }
    let mantissa = nearest_integer(sum, unit);
    let tenths = nearest_integer(10 * mantissa, power);
    proof {
        assert(10 * mantissa / power as int <= 10 * mantissa) by (nonlinear_arith)
            requires
                power > 0,
                mantissa >= 0,
        ;
    }
    tenths as u64
}

/// A number of tenths, with a point.
fn write_tenths(tenths: u64) -> (text: String)
    ensures
        text@ == with_tenths(tenths as nat),
{
    let mut text = write_decimal(tenths / 10);
    text.append(".");
    text.append(write_decimal(tenths % 10).as_str());
    text
}

/// How long something took.
pub fn format_duration(elapsed: Elapsed) -> (text: String)
    requires
        elapsed.wf(),
    ensures
        text@ == duration_text(elapsed),
{
    let secs = elapsed.secs;
    if secs >= 3600 {
        let mut text = write_decimal(secs / 3600);
        text.append("h ");
        text.append(write_two_digits((secs % 3600) / 60).as_str());
        text.append("m ");
        text.append(write_two_digits(secs % 60).as_str());
        text.append("s");
        text
    } else if secs >= 60 {
        let mut text = write_decimal(secs / 60);
        text.append("m ");
        text.append(write_two_digits(secs % 60).as_str());
        text.append("s");
        text
    } else {
        let mut text = write_tenths(tenths_elapsed(secs, elapsed.nanos));
        text.append("s");
        text
    }
}

/// Halving `n` on the way to 53 bits.
proof fn lemma_excess_halves(n: nat, s: nat)
    requires
        n / pow2(s) >= SPAN,
        excess(n) == s + excess(n / pow2(s)),
    ensures
        excess(n) == s + 1 + excess(n / pow2(s + 1)),
        n / pow2(s + 1) == (n / pow2(s)) / 2,
{
    lemma_pow2_pos(s);
    lemma_pow2_unfold(s + 1);
    vstd::arithmetic::div_mod::lemma_div_denominator(n as int, pow2(s) as int, 2);
    assert(pow2(s) * 2 == 2 * pow2(s));
}

/// A whole number in double precision.
fn to_double(n: u64) -> (result: u128)
    ensures
        result == whole_double(n as nat),
        result <= 0x4_0000_0000_0000_0000,
{
    let mut top: u64 = n;
    let mut power: u128 = 1;
    let ghost mut s: nat = 0;
    proof {
        lemma2_to64();
        assert(n as nat / 1 == n);
    }
    while top >= 0x20_0000_0000_0000
        invariant
            power == pow2(s),
            power >= 1,
            top == n as nat / pow2(s),
            excess(n as nat) == s + excess(top as nat),
            top * power <= n,
            power == 1 || top >= HALF_SPAN,
        decreases top,
    {
        proof {
            lemma_excess_halves(n as nat, s);
            lemma_pow2_unfold(s + 1);
            assert((top / 2) * (power * 2) <= n) by (nonlinear_arith)
                requires
                    top * power <= n,
                    top >= 0,
                    power >= 1,
            ;
            assert(power < 0x1_0000_0000_0000_0000) by (nonlinear_arith)
                requires
                    top * power <= n,
                    top >= 1,
                    n <= 0xffff_ffff_ffff_ffff,
            ;
            s = s + 1;
        }
        top = top / 2;
        power = power * 2;
    }
    assert(power == 1 || power <= 0x1000) by (nonlinear_arith)
        requires
            top * power <= n,
            n <= 0xffff_ffff_ffff_ffff,
            power == 1 || top >= 0x10_0000_0000_0000,
    ;
    let rounded = nearest_integer(n as u128, power);
    assert(rounded * power <= n + power) by (nonlinear_arith)
        requires
            rounded <= n as u128 / power + 1,
            power >= 1,
    ;
    rounded * power
}

/// How large something is.
pub fn format_bytes(bytes: u64) -> (text: String)
    ensures
        text@ == bytes_text(bytes as nat),
{
    let size = to_double(bytes);
    let (unit, name): (u128, &str) = if size < 0x400 {
        let mut text = write_decimal(bytes);
        text.append(" ");
        text.append("B");
        return text;
    } else if size < 0x10_0000 {
        (0x400, "KiB")
    } else if size < 0x4000_0000 {
        (0x10_0000, "MiB")
    } else if size < 0x100_0000_0000 {
        (0x4000_0000, "GiB")
    } else {
        (0x100_0000_0000, "TiB")
    };
    let tenths = nearest_integer(10 * size, unit);
    let mut text = write_tenths(tenths as u64);
    text.append(" ");
    text.append(name);
    text
}

// -- laws --------------------------------------------------------------------

/// A size of less than 1024 bytes is given exactly.
pub proof fn law_small_sizes_are_exact(bytes: nat)
    requires
        bytes < 0x400,
    ensures
        bytes_text(bytes) == crate::number::decimal(bytes) + " "@ + "B"@,
{
    lemma_whole_double_exact(bytes);
}

/// Below 2^53, a size is not rounded before it is divided: what is given is the
/// nearest number of tenths of the largest unit that is not larger than it.
pub proof fn law_sizes_are_given_in_their_unit(bytes: nat)
    requires
        0x400 <= bytes < SPAN,
    ensures
        unit_size(unit_of(bytes)) <= bytes,
        unit_of(bytes) < 4 ==> bytes < unit_size(unit_of(bytes) + 1),
        bytes_text(bytes) == with_tenths(nearest(10 * bytes, unit_size(unit_of(bytes)))) + " "@
            + unit_name(unit_of(bytes)),
{
    lemma_whole_double_exact(bytes);
}

proof fn lemma_whole_double_exact(n: nat)
    requires
        n < SPAN,
    ensures
        whole_double(n) == n,
{
    lemma2_to64();
    assert(pow2(0) == 1);
    lemma_nearest_exact(n, 1);
    assert(n * 1 == n);
}

/// A whole number of seconds below a minute is given as such, with no tenths.
pub proof fn law_whole_seconds_have_no_tenths(secs: u64)
    requires
        secs < 60,
    ensures
        duration_text(Elapsed { secs, nanos: 0 }) == crate::number::decimal(secs as nat) + "."@
            + crate::number::decimal(0) + "s"@,
{
    lemma_whole_tenths(secs);
}

/// The nearest integer to a quotient is at most half away from it, and even where it
/// is half away.
pub proof fn law_nearest_is_half_away_at_most(n: nat, d: nat)
    requires
        d > 0,
    ensures
        2 * (nearest(n, d) * d) <= 2 * n + d,
        2 * n <= 2 * (nearest(n, d) * d) + d,
        2 * (nearest(n, d) * d) == 2 * n + d || 2 * n == 2 * (nearest(n, d) * d) + d ==> nearest(
            n,
            d,
        ) % 2 == 0,
{
    let whole = n / d;
    let rest = n % d;
    vstd::arithmetic::div_mod::lemma_fundamental_div_mod(n as int, d as int);
    assert(n == d * whole + rest);
    assert(whole * d == d * whole) by (nonlinear_arith);
    assert((whole + 1) * d == d * whole + d) by (nonlinear_arith);
    if nearest(n, d) == whole + 1 && 2 * ((whole + 1) * d) == 2 * n + d {
        assert(2 * rest == d);
    }
}

/// Sizes are given in the largest unit that they reach, with one digit behind the
/// point.
pub proof fn law_sizes_are_given_with_one_digit(bytes: nat)
    requires
        bytes < SPAN,
    ensures
        0x400 <= bytes < 0x10_0000 ==> bytes_text(bytes) == with_tenths(nearest(10 * bytes, 0x400))
            + " KiB"@,
        0x10_0000 <= bytes < 0x4000_0000 ==> bytes_text(bytes) == with_tenths(
            nearest(10 * bytes, 0x10_0000),
        ) + " MiB"@,
        0x4000_0000 <= bytes < 0x100_0000_0000 ==> bytes_text(bytes) == with_tenths(
            nearest(10 * bytes, 0x4000_0000),
        ) + " GiB"@,
        0x100_0000_0000 <= bytes ==> bytes_text(bytes) == with_tenths(
            nearest(10 * bytes, 0x100_0000_0000),
        ) + " TiB"@,
{
    lemma_whole_double_exact(bytes);
    reveal_strlit(" ");
    reveal_strlit("KiB");
    reveal_strlit("MiB");
    reveal_strlit("GiB");
    reveal_strlit("TiB");
    reveal_strlit(" KiB");
    reveal_strlit(" MiB");
    reveal_strlit(" GiB");
    reveal_strlit(" TiB");
    let unit = unit_of(bytes);
    let number = with_tenths(nearest(10 * bytes, unit_size(unit)));
    assert(number + " "@ + "KiB"@ =~= number + " KiB"@);
    assert(number + " "@ + "MiB"@ =~= number + " MiB"@);
    assert(number + " "@ + "GiB"@ =~= number + " GiB"@);
    assert(number + " "@ + "TiB"@ =~= number + " TiB"@);
}

/// Tenths are written behind a point.
pub proof fn law_tenths_follow_the_point(whole: nat, tenths: nat)
    requires
        tenths < 10,
    ensures
        with_tenths(10 * whole + tenths) == crate::number::decimal(whole) + seq![
            '.',
            (0x30 + tenths) as char,
        ],
{
    reveal_strlit(".");
    crate::number::law_decimal_appends_the_last_digit(whole, tenths);
    assert((10 * whole + tenths) / 10 == whole);
    assert((10 * whole + tenths) % 10 == tenths);
    assert(with_tenths(10 * whole + tenths) =~= crate::number::decimal(whole) + seq![
        '.',
        (0x30 + tenths) as char,
    ]);
}

/// From a minute on a span of time is given in minutes and seconds, and from an hour
/// on in hours too, and all of it is given.
pub proof fn law_long_spans_are_given_in_parts(hours: nat, minutes: nat, secs: nat, nanos: u32)
    requires
        minutes < 60,
        secs < 60,
        3600 * hours + 60 * minutes + secs <= u64::MAX,
    ensures
        ({
            let elapsed = Elapsed {
                secs: (3600 * hours + 60 * minutes + secs) as u64,
                nanos,
            };
            &&& hours > 0 ==> duration_text(elapsed) == crate::number::decimal(hours) + "h "@
                + crate::number::two_digits(minutes as int) + "m "@ + crate::number::two_digits(
                secs as int,
            ) + "s"@
            &&& hours == 0 && minutes > 0 ==> duration_text(elapsed) == crate::number::decimal(
                minutes,
            ) + "m "@ + crate::number::two_digits(secs as int) + "s"@
        }),
{
    let total = 3600 * hours + 60 * minutes + secs;
    assert(total / 3600 == hours);
    assert((total % 3600) / 60 == minutes);
    assert(total % 60 == secs);
}

proof fn lemma_shift_reaches(n: nat, d: nat)
    requires
        n > 0,
        d > 0,
    ensures
        n * pow2(shift(n, d)) >= HALF_SPAN * d,
    decreases
            if n < HALF_SPAN * d {
                HALF_SPAN * d - n
            } else {
                0
            },
{
    if n < HALF_SPAN * d {
        lemma_shift_reaches(2 * n, d);
        let s = shift(2 * n, d);
        vstd::arithmetic::power2::lemma_pow2_unfold((s + 1) as nat);
        assert(n * (2 * pow2(s)) == (2 * n) * pow2(s)) by (nonlinear_arith);
        assert(shift(n, d) == s + 1);
    } else {
        vstd::arithmetic::power2::lemma2_to64();
        assert(n * 1 == n);
    }
}

proof fn lemma_nearest_error(n: nat, d: nat) -> (error: int)
    requires
        d > 0,
    ensures
        nearest(n, d) * d == n + error,
        -(d as int) <= 2 * error <= d,
{
    law_nearest_is_half_away_at_most(n, d);
    nearest(n, d) * d - n
}

/// Below a minute a span of time is given to the nearest tenth of a second: it is at
/// most half a tenth away from what is given.
pub proof fn law_short_spans_are_given_to_the_nearest_tenth(elapsed: Elapsed)
    requires
        elapsed.secs < 60,
        elapsed.wf(),
    ensures
        duration_text(elapsed) == with_tenths(tenths_of_elapsed(elapsed)) + "s"@,
        ({
            let total = elapsed.secs * 1_000_000_000 + elapsed.nanos;
            let given = tenths_of_elapsed(elapsed) * 100_000_000;
            total - 50_000_000 <= given <= total + 50_000_000
        }),
{
    let secs = elapsed.secs as nat;
    let nanos = elapsed.nanos as nat;
    if nanos == 0 {
        lemma_whole_tenths(elapsed.secs);
        assert(elapsed == Elapsed { secs: elapsed.secs, nanos: 0 });
    } else {
        let d = NANOS as nat;
        let p = pow2(shift(nanos, d));
        let m = nearest(nanos * p, d);
        lemma_shift_reaches(nanos, d);
        vstd::arithmetic::power2::lemma_pow2_pos(shift(nanos, d));
        assert(p >= HALF_SPAN) by (nonlinear_arith)
            requires
                nanos * p >= HALF_SPAN * d,
                0 < nanos < d,
                p > 0,
        ;
        let c = lemma_nearest_error(nanos * p, d);
        assert(m <= p) by (nonlinear_arith)
            requires
                m * d == nanos * p + c,
                2 * c <= d,
                nanos + 1 <= d,
                p >= HALF_SPAN,
                d == 1_000_000_000,
                HALF_SPAN == 0x10_0000_0000_0000,
        ;
        let n = (elapsed.secs * p + m) as nat;
        assert(elapsed.secs * p >= 0) by (nonlinear_arith)
            requires
                p > 0,
        ;
        assert(n <= 60 * p) by (nonlinear_arith)
            requires
                n == secs * p + m,
                secs <= 59,
                m <= p,
                p > 0,
        ;
        assert(secs * p == elapsed.secs * p);
        assert(m >= 1) by (nonlinear_arith)
            requires
                m * d == nanos * p + c,
                -(d as int) <= 2 * c,
                nanos >= 1,
                p >= HALF_SPAN,
                d == 1_000_000_000,
                HALF_SPAN == 0x10_0000_0000_0000,
        ;
        let q = pow2(shift(n, p));
        let k = nearest(n * q, p);
        lemma_shift_reaches(n, p);
        vstd::arithmetic::power2::lemma_pow2_pos(shift(n, p));
        assert(q > 1_000_000_000) by (nonlinear_arith)
            requires
                n * q >= HALF_SPAN * p,
                n <= 60 * p,
                p > 0,
                q > 0,
                HALF_SPAN == 0x10_0000_0000_0000,
        ;
        let b = lemma_nearest_error(n * q, p);
        let t = nearest(10 * k, q);
        let a = lemma_nearest_error(10 * k, q);
        assert(t == tenths_of_elapsed(elapsed));
        lemma_tenths_error(
            t as int,
            k as int,
            m as int,
            p as int,
            q as int,
            secs as int,
            nanos as int,
            a,
            b,
            c,
        );
    }
}

/// The errors of three roundings together are less than a nanosecond beyond half a
/// tenth of a second.
proof fn lemma_tenths_error(
    t: int,
    k: int,
    m: int,
    p: int,
    q: int,
    secs: int,
    nanos: int,
    a: int,
    b: int,
    c: int,
)
    requires
        p > 1_000_000_000,
        q > 1_000_000_000,
        t * q == 10 * k + a,
        k * p == (secs * p + m) * q + b,
        m * 1_000_000_000 == nanos * p + c,
        -q <= 2 * a <= q,
        -p <= 2 * b <= p,
        -1_000_000_000 <= 2 * c <= 1_000_000_000,
    ensures
        secs * 1_000_000_000 + nanos - 50_000_000 <= t * 100_000_000 <= secs * 1_000_000_000 + nanos
            + 50_000_000,
{
    let d: int = 1_000_000_000;
    let away = t * 100_000_000 - (secs * d + nanos);
    let pq = p * q;
    // Ten times what is given is away from ten times the span by the three errors.
    let far = d * t - 10 * d * secs - 10 * nanos;
    assert(10 * away * pq == far * pq) by (nonlinear_arith)
        requires
            10 * away == far,
    ;
    assert(far * pq == d * (t * pq) - 10 * d * (secs * pq) - 10 * (nanos * pq)) by (nonlinear_arith)
        requires
            far == d * t - 10 * d * secs - 10 * nanos,
            d == 1_000_000_000,
    ;
    assert(t * pq == (t * q) * p) by (nonlinear_arith)
        requires
            pq == p * q,
    ;
    assert((10 * k + a) * p == 10 * (k * p) + a * p) by (nonlinear_arith);
    assert((secs * p + m) * q == secs * pq + m * q) by (nonlinear_arith)
        requires
            pq == p * q,
    ;
    assert((m * d) * q == d * (m * q)) by (nonlinear_arith);
    assert((nanos * p + c) * q == nanos * pq + c * q) by (nonlinear_arith)
        requires
            pq == p * q,
    ;
    assert(10 * away * pq == 10 * (c * q) + 10 * d * b + d * (a * p));
    assert(-(d * q) <= 2 * (c * q) <= d * q) by (nonlinear_arith)
        requires
            -d <= 2 * c <= d,
            q > 0,
    ;
    assert(-pq <= 2 * (a * p) <= pq) by (nonlinear_arith)
        requires
            -q <= 2 * a <= q,
            p > 0,
            pq == p * q,
    ;
    assert(d * q < pq && d * p < pq) by (nonlinear_arith)
        requires
            d < p,
            d < q,
            pq == p * q,
            d == 1_000_000_000,
    ;
    if away >= 50_000_001 {
        assert(10 * away * pq >= 500_000_010 * pq) by (nonlinear_arith)
            requires
                away >= 50_000_001,
                pq > 0,
        ;
    }
    if away <= -50_000_001 {
        assert(10 * away * pq <= -500_000_010 * pq) by (nonlinear_arith)
            requires
                away <= -50_000_001,
                pq > 0,
        ;
    }
}

/// Sizes beyond what a double number holds exactly are given in tebibytes too, at most
/// half a tenth and ten kibibytes away from what they are.
pub proof fn law_huge_sizes_are_given_in_tebibytes(bytes: u64) -> (tenths: nat)
    requires
        bytes >= SPAN,
    ensures
        bytes_text(bytes as nat) == with_tenths(tenths) + " TiB"@,
        10 * bytes - 0x80_0000_0000 - 10240 <= tenths * 0x100_0000_0000 <= 10 * bytes
            + 0x80_0000_0000 + 10240,
{
    let n = bytes as nat;
    let p = pow2(excess(n));
    reveal_with_fuel(excess, 13);
    vstd::arithmetic::power2::lemma2_to64();
    assert(excess(n) <= 11);
    if excess(n) < 11 {
        vstd::arithmetic::power2::lemma_pow2_strictly_increases(excess(n), 11);
    }
    assert(p <= 2048);
    vstd::arithmetic::power2::lemma_pow2_pos(excess(n));
    let error = lemma_nearest_error(n, p);
    let size = whole_double(n);
    assert(size == n + error);
    assert(unit_of(size) == 4);
    let tenths = nearest(10 * size, 0x100_0000_0000);
    let further = lemma_nearest_error(10 * size, 0x100_0000_0000);
    reveal_strlit(" ");
    reveal_strlit("TiB");
    reveal_strlit(" TiB");
    assert(with_tenths(tenths) + " "@ + "TiB"@ =~= with_tenths(tenths) + " TiB"@);
    tenths
}

} // verus!
