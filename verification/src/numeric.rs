//! Integer arithmetic shared by the compensated sensors: arithmetic shifts
//! as floor division, products of bounded factors, and the search for a raw
//! count.

use vstd::prelude::*;

verus! {

/// `x` fits in an `i64`.
pub open spec fn fits(x: int) -> bool {
    i64::MIN <= x <= i64::MAX
}

/// Division that rounds toward zero, as the machine divides.
pub open spec fn quotient(x: int, y: int) -> int
    recommends
        y != 0,
{
    if (x >= 0) == (y > 0) {
        magnitude(x) / magnitude(y)
    } else {
        -(magnitude(x) / magnitude(y))
    }
}

/// Distance from zero.
pub open spec fn magnitude(x: int) -> int {
    if x < 0 {
        -x
    } else {
        x
    }
}

/// A shift right by one halves, rounding down.
proof fn lemma_halve(x: i64)
    by (bit_vector)
    ensures
        (x >> 1) as int == x as int / 2,
{
}

/// An arithmetic shift right divides by the power of two, rounding down.
pub proof fn lemma_shr(x: i64)
    ensures
        (x >> 1) as int == x as int / 2,
        (x >> 2) as int == x as int / 4,
        (x >> 3) as int == x as int / 8,
        (x >> 4) as int == x as int / 16,
        (x >> 6) as int == x as int / 64,
        (x >> 8) as int == x as int / 256,
        (x >> 10) as int == x as int / 1024,
        (x >> 11) as int == x as int / 2048,
        (x >> 12) as int == x as int / 4096,
        (x >> 13) as int == x as int / 8192,
        (x >> 14) as int == x as int / 16384,
        (x >> 15) as int == x as int / 32768,
        (x >> 17) as int == x as int / 131072,
        (x >> 18) as int == x as int / 262144,
{
    assert((x >> 2) == (x >> 1) >> 1
        && (x >> 3) == (x >> 2) >> 1
        && (x >> 4) == (x >> 3) >> 1
        && (x >> 5) == (x >> 4) >> 1
        && (x >> 6) == (x >> 5) >> 1
        && (x >> 7) == (x >> 6) >> 1
        && (x >> 8) == (x >> 7) >> 1
        && (x >> 9) == (x >> 8) >> 1
        && (x >> 10) == (x >> 9) >> 1
        && (x >> 11) == (x >> 10) >> 1
        && (x >> 12) == (x >> 11) >> 1
        && (x >> 13) == (x >> 12) >> 1
        && (x >> 14) == (x >> 13) >> 1
        && (x >> 15) == (x >> 14) >> 1
        && (x >> 16) == (x >> 15) >> 1
        && (x >> 17) == (x >> 16) >> 1
        && (x >> 18) == (x >> 17) >> 1) by (bit_vector);
    lemma_halve(x);
    lemma_halve(x >> 1);
    lemma_halve(x >> 2);
    lemma_halve(x >> 3);
    lemma_halve(x >> 4);
    lemma_halve(x >> 5);
    lemma_halve(x >> 6);
    lemma_halve(x >> 7);
    lemma_halve(x >> 8);
    lemma_halve(x >> 9);
    lemma_halve(x >> 10);
    lemma_halve(x >> 11);
    lemma_halve(x >> 12);
    lemma_halve(x >> 13);
    lemma_halve(x >> 14);
    lemma_halve(x >> 15);
    lemma_halve(x >> 16);
    lemma_halve(x >> 17);
}

/// A product is no larger than the product of its factors' bounds.
pub proof fn lemma_product_bound(a: int, b: int, x: int, y: int)
    by (nonlinear_arith)
    requires
        -x <= a <= x,
        -y <= b <= y,
    ensures
        -(x * y) <= a * b <= x * y,
{
}

/// A square is not negative and no larger than the square of its bound.
pub proof fn lemma_square_bound(a: int, x: int)
    by (nonlinear_arith)
    requires
        -x <= a <= x,
    ensures
        0 <= a * a <= x * x,
{
}

/// Machine division of `i64` values.
pub fn divide(x: i64, y: i64) -> (q: i64)
    requires
        y != 0,
        x != i64::MIN,
    ensures
        q as int == quotient(x as int, y as int),
{
    let q: i64 = x / y;
    proof {
        let (a, b) = (x as int, y as int);
        if b < 0 {
            assert(a / b == -(a / (-b))) by (nonlinear_arith)
                requires
                    b < 0,
            ;
            assert((-a) / b == -((-a) / (-b))) by (nonlinear_arith)
                requires
                    b < 0,
            ;
        }
    }
    q
}

/// A quotient is no larger than its bounds make it.
pub proof fn lemma_quotient_bound(x: int, d: int, bound: int, least: int)
    requires
        0 < least <= d,
        -bound <= x <= bound,
    ensures
        -(bound / least) <= quotient(x, d) <= bound / least,
{
    let m = magnitude(x);
    assert(0 <= m / d <= bound / least) by (nonlinear_arith)
        requires
            0 <= m <= bound,
            0 < least <= d,
    ;
}

/// Taking less than the divisor off a dividend lowers the quotient by at
/// most one.
pub proof fn lemma_quotient_step(x: int, e: int, d: int)
    requires
        0 <= e < d,
    ensures
        quotient(x - e, d) <= quotient(x, d) <= quotient(x - e, d) + 1,
{
    let y = x - e;
    if y >= 0 {
        assert(y / d <= x / d <= y / d + 1) by (nonlinear_arith)
            requires
                0 <= y <= x < y + d,
                0 < d,
        ;
    } else if x < 0 {
        let (a, b) = (-x, -y);
        assert(a / d <= b / d <= a / d + 1) by (nonlinear_arith)
            requires
                0 <= a <= b < a + d,
                0 < d,
        ;
    } else {
        let b = -y;
        assert(x / d == 0 && b / d == 0) by (nonlinear_arith)
            requires
                0 <= x < d,
                0 < b < d,
        ;
    }
}

/// A smaller dividend has no larger a quotient.
pub proof fn lemma_quotient_monotonic(x: int, y: int, d: int)
    requires
        x <= y,
        0 < d,
    ensures
        quotient(x, d) <= quotient(y, d),
{
    if x >= 0 {
        assert(x / d <= y / d) by (nonlinear_arith)
            requires
                0 <= x <= y,
                0 < d,
        ;
    } else if y < 0 {
        let (a, b) = (-y, -x);
        assert(a / d <= b / d) by (nonlinear_arith)
            requires
                0 <= a <= b,
                0 < d,
        ;
    } else {
        let b = -x;
        assert(0 <= b / d && 0 <= y / d) by (nonlinear_arith)
            requires
                0 <= b,
                0 <= y,
                0 < d,
        ;
    }
}

/// Taking `m` times the divisor off a dividend lowers the quotient by `m`,
/// or by one less on the way through zero.
pub proof fn lemma_quotient_drop(x: int, m: int, d: int)
    requires
        0 <= m,
        0 < d,
    ensures
        quotient(x - m * d, d) <= quotient(x, d) - m + 1,
        x - m * d >= 0 ==> quotient(x - m * d, d) == quotient(x, d) - m,
{
    let y = x - m * d;
    assert(m * d >= 0) by (nonlinear_arith)
        requires
            0 <= m,
            0 < d,
    ;
    if y >= 0 {
        assert(y / d == x / d - m) by (nonlinear_arith)
            requires
                y == x - m * d,
                0 < d,
        ;
    } else if x < 0 {
        let (a, b) = (-x, -y);
        assert(b / d == a / d + m) by (nonlinear_arith)
            requires
                b == a + m * d,
                0 < d,
        ;
    } else {
        let b = -y;
        assert(b / d >= m - x / d - 1) by (nonlinear_arith)
            requires
                b == m * d - x,
                0 < d,
        ;
    }
}

/// What is left over by a division that rounds toward zero: less than the
/// divisor in size, and on the dividend's side of zero.
pub proof fn lemma_quotient_remainder(x: int, y: int)
    requires
        y != 0,
    ensures
        ({
            let rest = x - quotient(x, y) * y;
            &&& magnitude(rest) < magnitude(y)
            &&& x >= 0 ==> rest >= 0
            &&& x <= 0 ==> rest <= 0
        }),
{
    let (a, b) = (magnitude(x), magnitude(y));
    let q = a / b;
    assert(0 <= a - q * b < b) by (nonlinear_arith)
        requires
            q == a / b,
            0 < b,
    ;
    assert((-q) * y == -(q * y) && q * (-y) == -(q * y) && (-q) * (-y) == q * y) by (nonlinear_arith);
    if x == 0 {
        assert(q == 0) by (nonlinear_arith)
            requires
                q == 0int / b,
                0 < b,
        ;
        assert(q * y == 0) by (nonlinear_arith)
            requires
                q == 0,
        ;
    }
}

/// A quotient is told by what it leaves over.
pub proof fn lemma_quotient_told(x: int, y: int, q: int)
    requires
        0 < y,
        x >= 0 ==> y * q <= x < y * q + y,
        x < 0 ==> y * q - y < x <= y * q,
    ensures
        quotient(x, y) == q,
{
    if x >= 0 {
        assert(x / y == q) by (nonlinear_arith)
            requires
                y * q <= x < y * q + y,
                0 < y,
        ;
    } else {
        let (m, n) = (-x, -q);
        assert(y * n == -(y * q)) by (nonlinear_arith)
            requires
                n == -q,
        ;
        assert(m / y == n) by (nonlinear_arith)
            requires
                y * n <= m < y * n + y,
                0 < y,
        ;
    }
}

/// The low byte of a value's two's complement.
pub open spec fn low_byte(x: int) -> int {
    x % 256
}

/// The byte above the low one of a value's two's complement.
pub open spec fn high_byte(x: int) -> int {
    (x / 256) % 256
}

/// Takes the low byte.
pub fn take_low_byte(x: i32) -> (byte: u8)
    ensures
        byte as int == low_byte(x as int),
{
    assert((x as u8) as int == x as int % 256) by (bit_vector);
    x as u8
}

/// Takes the byte above the low one.
pub fn take_high_byte(x: i32) -> (byte: u8)
    ensures
        byte as int == high_byte(x as int),
{
    assert(((x >> 8) as u8) as int == (x as int / 256) % 256) by (bit_vector);
    (x >> 8) as u8
}

/// The upper eight bits of a 12-bit value.
pub open spec fn middle_byte(x: int) -> int {
    (x / 16) % 256
}

/// Takes the upper eight bits of a 12-bit value.
pub fn take_middle_byte(x: i32) -> (byte: u8)
    ensures
        byte as int == middle_byte(x as int),
{
    assert(((x >> 4) as u8) as int == (x as int / 16) % 256) by (bit_vector);
    (x >> 4) as u8
}

/// The low nibbles of two values in one byte.
pub fn pack_nibbles(high: i32, low: i32) -> (byte: u8)
    ensures
        byte as int == (high as int % 16) * 16 + low as int % 16,
{
    assert(((((high & 0xF) << 4) | (low & 0xF)) as u8) as int == (high as int % 16) * 16 + low as int
        % 16) by (bit_vector);
    (((high & 0xF) << 4) | (low & 0xF)) as u8
}

/// Byte `index` of a 20-bit count as a converter register file holds it:
/// most significant byte first, the low nibble left-justified in the last.
pub open spec fn count20_byte(count: int, index: int) -> int {
    if index == 0 {
        (count / 4096) % 256
    } else if index == 1 {
        (count / 16) % 256
    } else {
        (count % 16) * 16
    }
}

/// Takes byte `index` of a 20-bit count.
pub fn take_count20_byte(count: u32, index: u8) -> (byte: u8)
    requires
        index < 3,
    ensures
        byte as int == count20_byte(count as int, index as int),
{
    assert(((count >> 12) as u8) as int == (count as int / 4096) % 256 && ((count >> 4) as u8) as int
        == (count as int / 16) % 256 && (((count & 0x0F) << 4) as u8) as int == (count as int % 16)
        * 16) by (bit_vector);
    if index == 0 {
        (count >> 12) as u8
    } else if index == 1 {
        (count >> 4) as u8
    } else {
        ((count & 0x0F) << 4) as u8
    }
}

/// Where bisecting `[lo, hi]` ends, given which counts are too low.
pub open spec fn bisect(too_low: spec_fn(int) -> bool, lo: int, hi: int) -> int
    decreases hi - lo,
{
    if lo >= hi {
        lo
    } else {
        let mid = lo + (hi - lo) / 2;
        if too_low(mid) {
            bisect(too_low, mid + 1, hi)
        } else {
            bisect(too_low, lo, mid)
        }
    }
}

/// Bisecting ends where "too low" turns into "not too low": the count
/// before the result, if there is one, is too low, and the result itself is
/// not, unless it is the last count.
pub proof fn lemma_bisect_crossing(too_low: spec_fn(int) -> bool, lo: int, hi: int)
    requires
        lo <= hi,
    ensures
        lo <= bisect(too_low, lo, hi) <= hi,
        bisect(too_low, lo, hi) > lo ==> too_low(bisect(too_low, lo, hi) - 1),
        bisect(too_low, lo, hi) < hi ==> !too_low(bisect(too_low, lo, hi)),
    decreases hi - lo,
{
    if lo < hi {
        let mid = lo + (hi - lo) / 2;
        if too_low(mid) {
            lemma_bisect_crossing(too_low, mid + 1, hi);
        } else {
            lemma_bisect_crossing(too_low, lo, mid);
        }
    }
}

/// Whether the compensated value of a raw count still falls short of the
/// target, going up or going down from the value at count 0.
pub open spec fn short_of(decode: spec_fn(int) -> int, target: int, max: int) -> spec_fn(
    int,
) -> bool {
    if decode(max) >= decode(0) {
        |x: int| decode(x) < target
    } else {
        |x: int| decode(x) > target
    }
}

/// The raw count that a search for `target` over `0..=max` ends at.
pub open spec fn crossing(decode: spec_fn(int) -> int, target: int, max: int) -> int {
    bisect(short_of(decode, target, max), 0, max)
}

/// The raw count at or next to the crossing whose value is nearer to the
/// target; the crossing itself when both are as near.
pub open spec fn nearest(decode: spec_fn(int) -> int, target: int, max: int) -> int {
    let x = crossing(decode, target, max);
    if x > 0 && magnitude(decode(x - 1) - target) < magnitude(decode(x) - target) {
        x - 1
    } else {
        x
    }
}

/// Searches `0..=max` for the count at which `decode` stops falling short
/// of `target`.
pub fn search_crossing<F: Fn(u32) -> i64>(
    max: u32,
    target: i64,
    decode: F,
    Ghost(model): Ghost<spec_fn(int) -> int>,
) -> (count: u32)
    requires
        forall|x: u32| x <= max ==> #[trigger] decode.requires((x,)),
        forall|x: u32, y: i64|
            x <= max && #[trigger] decode.ensures((x,), y) ==> y as int == model(x as int),
    ensures
        count as int == crossing(model, target as int, max as int),
        count <= max,
{
    let increasing = decode(max) >= decode(0);
    let ghost too_low = short_of(model, target as int, max as int);
    let mut lo: u32 = 0;
    let mut hi: u32 = max;
    while lo < hi
        invariant
            lo <= hi <= max,
            forall|x: u32| x <= max ==> #[trigger] decode.requires((x,)),
            forall|x: u32, y: i64|
                x <= max && #[trigger] decode.ensures((x,), y) ==> y as int == model(x as int),
            increasing == (model(max as int) >= model(0)),
            too_low == short_of(model, target as int, max as int),
            bisect(too_low, lo as int, hi as int) == bisect(too_low, 0, max as int),
        decreases hi - lo,
    {
        let mid: u32 = lo + (hi - lo) / 2;
        let value: i64 = decode(mid);
        let short = if increasing {
            value < target
        } else {
            value > target
        };
        assert(short == too_low(mid as int));
        if short {
            lo = mid + 1;
        } else {
            hi = mid;
        }
    }
    lo
}

/// Searches `0..=max` for the count whose value is nearest to `target`,
/// given that `decode` rises or falls throughout.
pub fn search_nearest<F: Fn(u32) -> i64>(
    max: u32,
    target: i64,
    decode: F,
    Ghost(model): Ghost<spec_fn(int) -> int>,
) -> (count: u32)
    requires
        forall|x: u32| x <= max ==> #[trigger] decode.requires((x,)),
        forall|x: u32, y: i64|
            x <= max && #[trigger] decode.ensures((x,), y) ==> y as int == model(x as int),
    ensures
        count as int == nearest(model, target as int, max as int),
        count <= max,
{
    let count: u32 = search_crossing(max, target, &decode, Ghost(model));
    if count > 0 {
        let here: i64 = decode(count);
        let before: i64 = decode(count - 1);
        if distance(before, target) < distance(here, target) {
            return count - 1;
        }
    }
    count
}

/// How far apart two values are.
fn distance(a: i64, b: i64) -> (d: u64)
    ensures
        d as int == magnitude(a as int - b as int),
{
    if a >= b {
        (a as i128 - b as i128) as u64
    } else {
        (b as i128 - a as i128) as u64
    }
}

/// With values that never fall as the count rises, the crossing is the
/// least count whose value reaches the target, or the last count when none
/// does.
pub proof fn lemma_crossing_is_least(decode: spec_fn(int) -> int, target: int, max: int)
    requires
        0 <= max,
        forall|x: int, y: int| 0 <= x <= y <= max ==> #[trigger] decode(x) <= #[trigger] decode(y),
    ensures
        0 <= crossing(decode, target, max) <= max,
        forall|x: int|
            0 <= x < crossing(decode, target, max) ==> #[trigger] decode(x) < target,
        crossing(decode, target, max) < max ==> decode(crossing(decode, target, max)) >= target,
{
    let low = short_of(decode, target, max);
    let c = crossing(decode, target, max);
    lemma_bisect_crossing(low, 0, max);
    assert(decode(0) <= decode(max));
    assert forall|x: int| 0 <= x < c implies #[trigger] decode(x) < target by {
        assert(low(c - 1));
        assert(decode(x) <= decode(c - 1));
    }
    if c < max {
        assert(!low(c));
    }
}

/// The search ends at an edge, whether or not the values rise throughout:
/// where they end higher than they begin, the value before the result is below
/// the target and the result's own is not, unless it is the last; where they
/// end lower, the value before it is above the target and its own is not.
pub proof fn lemma_crossing_edge(decode: spec_fn(int) -> int, target: int, max: int)
    requires
        0 <= max,
    ensures
        ({
            let c = crossing(decode, target, max);
            let rising = decode(max) >= decode(0);
            &&& 0 <= c <= max
            &&& c > 0 && rising ==> decode(c - 1) < target
            &&& c < max && rising ==> decode(c) >= target
            &&& c > 0 && !rising ==> decode(c - 1) > target
            &&& c < max && !rising ==> decode(c) <= target
        }),
{
    let low = short_of(decode, target, max);
    let c = crossing(decode, target, max);
    lemma_bisect_crossing(low, 0, max);
    if c > 0 {
        assert(low(c - 1));
    }
    if c < max {
        assert(!low(c));
    }
}

/// The search for the nearest ends at the edge or one count before it, at the
/// edge if both are as near.
pub proof fn lemma_nearest_edge(decode: spec_fn(int) -> int, target: int, max: int)
    ensures
        ({
            let (n, c) = (nearest(decode, target, max), crossing(decode, target, max));
            let (here, before) = (
                magnitude(decode(c) - target),
                magnitude(decode(c - 1) - target),
            );
            &&& n == c || n == c - 1
            &&& n == c - 1 <==> c > 0 && before < here
        }),
{
}

/// Over values that rise throughout, or fall throughout, no count is nearer
/// to the target than the one that the search for the nearest ends at.
pub proof fn lemma_nearest_is_nearest(decode: spec_fn(int) -> int, target: int, max: int, x: int)
    requires
        0 <= x <= max,
        ({
            ||| forall|a: int, b: int|
                0 <= a <= b <= max ==> #[trigger] decode(a) <= #[trigger] decode(b)
            ||| forall|a: int, b: int|
                0 <= a <= b <= max ==> #[trigger] decode(a) >= #[trigger] decode(b)
        }),
    ensures
        magnitude(decode(nearest(decode, target, max)) - target) <= magnitude(decode(x) - target),
{
    let low = short_of(decode, target, max);
    let c = crossing(decode, target, max);
    lemma_bisect_crossing(low, 0, max);
    if c > 0 {
        assert(low(c - 1));
    }
    if c < max {
        assert(!low(c));
    }
    assert(decode(0) <= decode(x) || decode(0) >= decode(x));
    assert(decode(x) <= decode(max) || decode(x) >= decode(max));
    assert(decode(c - 1) <= decode(c) || decode(c - 1) >= decode(c));
}

} // verus!
