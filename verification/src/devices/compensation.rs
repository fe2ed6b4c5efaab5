//! What the compensation formulas of the two Bosch sensors come to: worked
//! through step by step, coefficient by coefficient, and on counts whose
//! readings are known.

use crate::devices::{bme680, bmp280};
use crate::numeric::{lemma_quotient_remainder, lemma_quotient_told, quotient};
use vstd::prelude::*;

verus! {

/// `q` is `x` divided by `d`, rounded down.
pub open spec fn floors(x: int, d: int, q: int) -> bool {
    d * q <= x < d * q + d
}

/// `q` is `x` divided by a `d` that is positive, rounded toward zero.
pub open spec fn cuts(x: int, d: int, q: int) -> bool {
    &&& x >= 0 ==> d * q <= x < d * q + d
    &&& x < 0 ==> d * q - d < x <= d * q
}

/// A temperature worked through: the line through the count from T1 and T2,
/// the curve from T3, and 5/256 of their sum, to the nearest hundredth of a
/// degree.
pub proof fn lemma_bmp280_temp(
    t1: int,
    t2: int,
    t3: int,
    count: int,
    eighth: int,
    sixteenth: int,
    line: int,
    square: int,
    curve: int,
    reading: int,
)
    requires
        floors(count, 8, eighth),
        floors(count, 16, sixteenth),
        floors((eighth - 2 * t1) * t2, 2048, line),
        floors((sixteenth - t1) * (sixteenth - t1), 4096, square),
        floors(square * t3, 16384, curve),
        -128 <= 5 * (line + curve) - 256 * reading < 128,
    ensures
        bmp280::fine_temp(t1, t2, t3, count) == line + curve,
        bmp280::centidegrees(line + curve) == reading,
{
    assert(eighth - t1 * 2 == eighth - 2 * t1);
}

/// A temperature worked through: the line through the count from T1 and T2,
/// the curve from T3, and 5/256 of their sum, to the nearest hundredth of a
/// degree.
pub proof fn lemma_bme680_temp(
    t1: int,
    t2: int,
    t3: int,
    count: int,
    eighth: int,
    half: int,
    line: int,
    square: int,
    curve: int,
    reading: int,
)
    requires
        floors(count, 8, eighth),
        floors(eighth - 2 * t1, 2, half),
        floors((eighth - 2 * t1) * t2, 2048, line),
        floors(half * half, 4096, square),
        floors(square * (16 * t3), 16384, curve),
        -128 <= 5 * (line + curve) - 256 * reading < 128,
    ensures
        bme680::fine_temp(t1, t2, t3, count) == line + curve,
        bme680::centidegrees(line + curve) == reading,
{
    assert(eighth - t1 * 2 == eighth - 2 * t1);
    assert(t3 * 16 == 16 * t3);
}

/// How far the pressure formula's temperature part goes, worked through: the
/// offset from P4, P5 and P6 and the divisor from P1, P2 and P3, at a working
/// temperature `v` that is half the fine one less 64000.
pub open spec fn bmp280_warmth(
    p1: int,
    p: Seq<i16>,
    fine: int,
    v: int,
    offset: int,
    divisor: int,
    w: int,
    large: int,
    small: int,
    curve: int,
    slope: int,
    gain: int,
) -> bool {
    &&& floors(fine, 2, v + 64000)
    &&& floors(v, 4, w)
    &&& floors(w * w, 2048, large)
    &&& floors(large * p[4] + v * p[3] * 2, 4, offset - 65536 * p[2])
    &&& floors(w * w, 8192, small)
    &&& floors(p[1] * small, 8, curve)
    &&& floors(p[0] * v, 2, slope)
    &&& floors(curve + slope, 262144, gain)
    &&& floors((32768 + gain) * p1, 32768, divisor)
}

/// A pressure worked through: the count and the offset taken from 2^20, times
/// 3125, doubled and divided by the divisor, and corrected by P7, P8 and P9
/// and the squares that they go with.
pub proof fn lemma_bmp280_pressure(
    p1: int,
    p: Seq<i16>,
    fine: int,
    count: int,
    v: int,
    offset: int,
    divisor: int,
    w: int,
    large: int,
    small: int,
    curve: int,
    slope: int,
    gain: int,
    drop: int,
    coarse: int,
    half: int,
    eighth: int,
    quarter: int,
    square: int,
    bow: int,
    lean: int,
    fix: int,
)
    requires
        bmp280_warmth(p1, p, fine, v, offset, divisor, w, large, small, curve, slope, gain),
        divisor > 0,
        floors(offset, 4096, drop),
        ({
            let scaled = 3125 * (1_048_576 - count - drop);
            if scaled < 0x8000_0000 {
                cuts(2 * scaled, divisor, coarse)
            } else {
                coarse == 2 * half && cuts(scaled, divisor, half)
            }
        }),
        floors(coarse, 8, eighth),
        floors(coarse, 4, quarter),
        floors(eighth * eighth, 8192, square),
        floors(p[7] * square, 4096, bow),
        floors(quarter * p[6], 8192, lean),
        floors(bow + lean + p[5], 16, fix),
    ensures
        bmp280::pressure(p1, p, fine, count) == coarse + fix,
{
    let scaled = 3125 * (1_048_576 - count - drop);
    assert(v == bmp280::working_temp(fine));
    assert(bmp280::quarter_square(v) == w * w);
    assert(bmp280::pressure_offset(p, v) == offset);
    assert(bmp280::pressure_divisor(p1, p, v) == divisor);
    assert(bmp280::scaled_count(p, v, count) == scaled);
    if scaled < 0x8000_0000 {
        lemma_quotient_told(scaled * 2, divisor, coarse);
    } else {
        lemma_quotient_told(scaled, divisor, half);
    }
    assert(bmp280::coarse_pressure(scaled, divisor) == coarse);
    assert(bmp280::pressure_correction(p, coarse) == fix);
}

/// How far the pressure formula's temperature part goes, worked through: the
/// offset from P4, P5 and P6 and the divisor from P1, P2 and P3, at a working
/// temperature `v` that is half the fine one less 64000.
pub open spec fn bme680_warmth(
    p1: int,
    p: Seq<i32>,
    fine: int,
    v: int,
    offset: int,
    divisor: int,
    w: int,
    large: int,
    small: int,
    curve: int,
    slope: int,
    gain: int,
) -> bool {
    &&& floors(fine, 2, v + 64000)
    &&& floors(v, 4, w)
    &&& floors(w * w, 2048, large)
    &&& floors(large * p[4], 4, curve)
    &&& floors(curve + v * p[3] * 2, 4, offset - 65536 * p[2])
    &&& floors(w * w, 8192, small)
    &&& floors(p[0] * v, 2, slope)
    &&& floors(4 * (small * p[1]) + slope, 262144, gain)
    &&& floors((32768 + gain) * p1, 32768, divisor)
}

/// A pressure worked through: the count and the offset taken from 2^20, times
/// 3125, doubled and divided by the divisor, and corrected by P7 to P10 and
/// the powers that they go with, the square and the line to the nearest.
pub proof fn lemma_bme680_pressure(
    p1: int,
    p: Seq<i32>,
    fine: int,
    count: int,
    v: int,
    offset: int,
    divisor: int,
    w: int,
    large: int,
    small: int,
    curve: int,
    slope: int,
    gain: int,
    drop: int,
    coarse: int,
    half: int,
    eighth: int,
    quarter: int,
    page: int,
    square: int,
    cube: int,
    bow: int,
    lean: int,
    twist: int,
    fix: int,
)
    requires
        bme680_warmth(p1, p, fine, v, offset, divisor, w, large, small, curve, slope, gain),
        divisor > 0,
        floors(offset, 4096, drop),
        ({
            let scaled = 3125 * (1_048_576 - count - drop);
            if scaled < 0x4000_0000 {
                cuts(2 * scaled, divisor, coarse)
            } else {
                coarse == 2 * half && cuts(scaled, divisor, half)
            }
        }),
        floors(coarse, 8, eighth),
        floors(coarse, 4, quarter),
        floors(coarse, 256, page),
        floors(eighth * eighth, 8192, square),
        -2048 <= p[7] * square - 4096 * bow < 2048,
        -4096 <= quarter * p[6] - 8192 * lean < 4096,
        cube == page * (page * page),
        floors(cube * p[8], 131072, twist),
        floors(bow + lean + twist + 128 * p[5], 16, fix),
    ensures
        bme680::pressure(p1, p, fine, count) == coarse + fix,
{
    let scaled = 3125 * (1_048_576 - count - drop);
    let p3 = p[1] as int;
    assert(v == bme680::working_temp(fine));
    assert(bme680::quarter_square(v) == w * w);
    assert(bme680::pressure_offset(p, v) == offset);
    assert(small * (p3 * 32) == 8 * (4 * (small * p3))) by (nonlinear_arith);
    assert(bme680::pressure_gain(p, v) == 4 * (small * p[1]) + slope);
    assert(bme680::pressure_divisor(p1, p, v) == divisor);
    assert(bme680::scaled_count(p, v, count) == scaled);
    if scaled < 0x4000_0000 {
        lemma_quotient_told(scaled * 2, divisor, coarse);
    } else {
        lemma_quotient_told(scaled, divisor, half);
    }
    assert(bme680::coarse_pressure(scaled, divisor) == coarse);
    assert(bme680::correction_bow(p, coarse) == bow);
    assert(bme680::correction_lean(p, coarse) == lean);
    let p10 = p[8] as int;
    assert((page * p10) * (page * page) == (page * (page * page)) * p10) by (nonlinear_arith);
    assert(bme680::correction_twist(p, coarse) == twist);
    assert(bme680::pressure_correction(p, coarse) == fix);
}

/// Where the divisor vanishes the pressure is 0, whatever the count.
pub proof fn lemma_no_divisor(
    p1: int,
    p: Seq<i16>,
    q: Seq<i32>,
    fine: int,
    count: int,
    v: int,
    offset: int,
    w: int,
    large: int,
    small: int,
    curve: int,
    slope: int,
    gain: int,
)
    ensures
        bmp280_warmth(p1, p, fine, v, offset, 0, w, large, small, curve, slope, gain) ==> bmp280::pressure(p1, p, fine, count)
            == 0,
        bme680_warmth(p1, q, fine, v, offset, 0, w, large, small, curve, slope, gain) ==> bme680::pressure(p1, q, fine, count)
            == 0,
{
    if bmp280_warmth(p1, p, fine, v, offset, 0, w, large, small, curve, slope, gain) {
        assert(bmp280::quarter_square(v) == w * w);
        assert(bmp280::pressure_divisor(p1, p, v) == 0);
    }
    if bme680_warmth(p1, q, fine, v, offset, 0, w, large, small, curve, slope, gain) {
        let p3 = q[1] as int;
        assert(bme680::quarter_square(v) == w * w);
        assert(small * (p3 * 32) == 8 * (4 * (small * p3))) by (nonlinear_arith);
        assert(bme680::pressure_gain(q, v) == 4 * (small * q[1]) + slope);
        assert(bme680::pressure_divisor(p1, q, v) == 0);
    }
}

/// A humidity worked through, at `t` hundredths of a degree: the count less
/// sixteen times H1 and half the drift from H3; times the gain from H2, H4
/// and H5; plus the square that H6 and H7 weigh; brought to units of 1/65536 %
/// and kept within 0 and 100 %.
pub proof fn lemma_bme680_humidity(
    h: Seq<i32>,
    t: int,
    count: int,
    drift: int,
    half_drift: int,
    lean: int,
    bow: int,
    inner: int,
    outer: int,
    gain: int,
    tilt: int,
    bend: int,
    page: int,
    square: int,
    curve: int,
    reading: int,
)
    requires
        cuts(t * h[2], 100, drift),
        floors(drift, 2, half_drift),
        cuts(t * h[3], 100, lean),
        cuts(t * h[4], 100, bow),
        floors(t * bow, 64, inner),
        cuts(inner, 100, outer),
        floors(h[1] * (lean + outer + 16384), 1024, gain),
        cuts(t * h[6], 100, tilt),
        floors(128 * h[5] + tilt, 16, bend),
        ({
            let linear = (count - 16 * h[0] - half_drift) * gain;
            &&& floors(linear, 16384, page)
            &&& floors(page * page, 1024, square)
            &&& floors(bend * square, 2, curve)
            &&& -32 <= linear + curve - 64 * reading < 32
        }),
    ensures
        bme680::humidity(h, t, count) == if reading < 0 {
            0
        } else if reading > 6_553_600 {
            6_553_600
        } else {
            reading
        },
{
    lemma_quotient_told(t * h[2], 100, drift);
    lemma_quotient_told(t * h[3], 100, lean);
    lemma_quotient_told(t * h[4], 100, bow);
    lemma_quotient_told(inner, 100, outer);
    lemma_quotient_told(t * h[6], 100, tilt);
    let excess = count - 16 * h[0] - half_drift;
    let linear = excess * gain;
    assert(bme680::humidity_excess(h, t, count) == excess);
    assert(bme680::humidity_shape(h, t) == lean + outer + 16384);
    assert(bme680::humidity_gain(h, t) == gain);
    assert(bme680::humidity_bend(h, t) == bend);
    assert(bme680::humidity_curve(bend, linear) == curve);
}

// Coefficient by coefficient.

/// The gain of the BME680's pressure formula, coefficient by coefficient:
/// without P3 it is half of P2 times the working temperature, without P2 it is
/// the P3 term alone, and it is always the sum of the two.
pub proof fn lemma_gain_terms(p: Seq<i32>, without_p3: Seq<i32>, without_p2: Seq<i32>, v: int)
    requires
        p.len() == 9,
        without_p3 == p.update(1, 0),
        without_p2 == p.update(0, 0),
    ensures
        floors(p[0] * v, 2, bme680::pressure_gain(without_p3, v)),
        ({
            let square = ((v / 4) * (v / 4)) / 8192;
            bme680::pressure_gain(without_p2, v) == 4 * (square * p[1])
        }),
        bme680::pressure_gain(p, v) == bme680::pressure_gain(without_p3, v)
            + bme680::pressure_gain(without_p2, v),
{
    let s = bme680::quarter_square(v) / 8192;
    let p3 = p[1] as int;
    assert(s * (p3 * 32) == 8 * (4 * (s * p3))) by (nonlinear_arith);
    assert(s * (without_p3[1] * 32) == 0) by (nonlinear_arith)
        requires
            without_p3[1] == 0,
    ;
    assert(without_p2[0] * v == 0) by (nonlinear_arith)
        requires
            without_p2[0] == 0,
    ;
}

/// A product with a negative factor falls as the other rises.
proof fn lemma_falling_product(a: int, x: int, y: int)
    requires
        a < 0,
        x <= y,
    ensures
        a * y <= a * x - (y - x),
{
    assert(a * y <= a * x - (y - x)) by (nonlinear_arith)
        requires
            a < 0,
            x <= y,
    ;
}

/// With P2 negative and P3 zero, as far as the first order goes, the gain and
/// the divisor fall as the working temperature rises.
pub proof fn lemma_gain_falls(p1: int, p: Seq<i32>, v: int, w: int)
    requires
        p.len() == 9,
        p[0] < 0,
        p[1] == 0,
        v <= w,
        p1 >= 0,
    ensures
        bme680::pressure_gain(p, w) <= bme680::pressure_gain(p, v),
        v + 2 <= w ==> bme680::pressure_gain(p, w) < bme680::pressure_gain(p, v),
        bme680::pressure_divisor(p1, p, w) <= bme680::pressure_divisor(p1, p, v),
{
    lemma_falling_product(p[0] as int, v, w);
    let (s, t) = (bme680::quarter_square(v) / 8192, bme680::quarter_square(w) / 8192);
    assert(s * (p[1] * 32) == 0 && t * (p[1] * 32) == 0) by (nonlinear_arith)
        requires
            p[1] == 0,
    ;
    let a = 32768 + bme680::pressure_gain(p, v) / 262144;
    let b = 32768 + bme680::pressure_gain(p, w) / 262144;
    assert(b * p1 <= a * p1) by (nonlinear_arith)
        requires
            b <= a,
            p1 >= 0,
    ;
}

/// With P2 negative and P3 zero the BMP280's divisor falls as the working
/// temperature rises.
pub proof fn lemma_divisor_falls(p1: int, p: Seq<i16>, v: int, w: int)
    requires
        p.len() == 8,
        p[0] < 0,
        p[1] == 0,
        v <= w,
        p1 >= 0,
    ensures
        bmp280::pressure_divisor(p1, p, w) <= bmp280::pressure_divisor(p1, p, v),
{
    lemma_falling_product(p[0] as int, v, w);
    let (s, t) = (bmp280::quarter_square(v) / 8192, bmp280::quarter_square(w) / 8192);
    assert(0 * s == 0 && 0 * t == 0);
    let a = 32768 + ((p[0] * v) / 2) / 262144;
    let b = 32768 + ((p[0] * w) / 2) / 262144;
    assert(b * p1 <= a * p1) by (nonlinear_arith)
        requires
            b <= a,
            p1 >= 0,
    ;
}

/// At the working temperature 0, which is a fine temperature of 128000, only
/// P1 and P4 are left of the temperature part: the divisor is P1 and the
/// offset 65536 times P4.
pub proof fn lemma_no_warmth(p1: int, p: Seq<i16>, q: Seq<i32>)
    requires
        p.len() == 8,
        q.len() == 9,
    ensures
        bmp280::working_temp(128_000) == 0 && bme680::working_temp(128_000) == 0,
        bmp280::pressure_offset(p, 0) == 65536 * p[2],
        bme680::pressure_offset(q, 0) == 65536 * q[2],
        bmp280::pressure_divisor(p1, p, 0) == p1,
        bme680::pressure_divisor(p1, q, 0) == p1,
{
    let w = 0int / 4;
    assert(w * w == 0) by (nonlinear_arith)
        requires
            w == 0,
    ;
    assert(0 * p[4] == 0 && 0 * p[3] * 2 == 0 && p[1] * 0 == 0 && p[0] * 0 == 0);
    assert(0 * q[4] == 0 && 0 * q[3] * 2 == 0 && 0 * (q[1] * 32) == 0 && q[0] * 0 == 0);
}

/// The offset rises by 65536 with each unit of P4, whatever the temperature;
/// without P6 the rest of it is half of P5 times the working temperature.
pub proof fn lemma_offset_terms(p: Seq<i16>, q: Seq<i32>, v: int, p4: i16)
    requires
        p.len() == 8,
        q.len() == 9,
    ensures
        bmp280::pressure_offset(p.update(2, p4), v) - 65536 * p4 == bmp280::pressure_offset(p, v)
            - 65536 * p[2],
        bme680::pressure_offset(q.update(2, p4 as i32), v) - 65536 * p4
            == bme680::pressure_offset(q, v) - 65536 * q[2],
        p[4] == 0 ==> floors(v * p[3], 2, bmp280::pressure_offset(p, v) - 65536 * p[2]),
        q[4] == 0 ==> floors(v * q[3], 2, bme680::pressure_offset(q, v) - 65536 * q[2]),
        p[3] == 0 && p[4] >= 0 ==> bmp280::pressure_offset(p, v) >= 65536 * p[2],
        q[3] == 0 && q[4] >= 0 ==> bme680::pressure_offset(q, v) >= 65536 * q[2],
{
    let (s, t) = (bmp280::quarter_square(v) / 2048, bme680::quarter_square(v) / 2048);
    assert((v / 4) * (v / 4) >= 0) by (nonlinear_arith);
    assert(s * 0 == 0 && t * 0 == 0 && v * 0 * 2 == 0);
    let (a, b) = (p[4] as int, q[4] as int);
    if a >= 0 {
        assert(s * a >= 0) by (nonlinear_arith)
            requires
                a >= 0,
                s >= 0,
        ;
    }
    if b >= 0 {
        assert(t * b >= 0) by (nonlinear_arith)
            requires
                b >= 0,
                t >= 0,
        ;
    }
}

/// The coarse pressure times the divisor is twice the scaled count, but for
/// less than one divisor below the threshold of its formula and less than two
/// above.
pub proof fn lemma_coarse(scaled: int, divisor: int)
    requires
        divisor > 0,
    ensures
        ({
            let rest = 2 * scaled - bmp280::coarse_pressure(scaled, divisor) * divisor;
            &&& -divisor < rest < 2 * divisor
            &&& scaled < 0x8000_0000 ==> rest < divisor
        }),
        ({
            let rest = 2 * scaled - bme680::coarse_pressure(scaled, divisor) * divisor;
            &&& -divisor < rest < 2 * divisor
            &&& scaled < 0x4000_0000 ==> rest < divisor
        }),
{
    lemma_quotient_remainder(scaled * 2, divisor);
    lemma_quotient_remainder(scaled, divisor);
    let q = quotient(scaled, divisor);
    assert((q * 2) * divisor == 2 * (q * divisor)) by (nonlinear_arith);
}

/// Each count takes 3125 off the scaled count.
pub proof fn lemma_scaled(p: Seq<i16>, q: Seq<i32>, v: int, count: int)
    ensures
        bmp280::scaled_count(p, v, count) - bmp280::scaled_count(p, v, count + 1) == 3125,
        bme680::scaled_count(q, v, count) - bme680::scaled_count(q, v, count + 1) == 3125,
{
}

// Known readings.

/// What the BME680 reads, away from 25 degrees and there.
pub proof fn lemma_bme680_known_pressures()
    ensures
        bme680::pressure(34000, bme680::par_p_values(), 0, 485_000) == 101_226,
        bme680::pressure(34000, bme680::par_p_values(), 300_000, 400_000) == 128_503,
        bme680::pressure(34000, bme680::par_p_values(), 128_000, 485_000) == 105_507,
        bme680::pressure(34000, bme680::par_p_values(), -200_000, 600_000) == 75_009,
{
    let p = bme680::par_p_values();
    lemma_bme680_pressure(
        34000,
        p,
        0,
        485_000,
        -64_000,
        2_315_970,
        35_396,
        -16_000,
        125_000,
        31_250,
        3_125_000,
        341_920_000,
        1346,
        565,
        99_412,
        49_706,
        12_426,
        24_853,
        388,
        18_848,
        58_411_072,
        23,
        18_203,
        13_369,
        1814,
    );
    lemma_bme680_pressure(
        34000,
        p,
        300_000,
        400_000,
        86_000,
        2_420_395,
        32_259,
        21_500,
        225_708,
        56_427,
        5_642_700,
        -459_455_000,
        -1677,
        590,
        125_542,
        62_771,
        15_692,
        31_385,
        490,
        30_058,
        117_649_000,
        37,
        22_987,
        26_927,
        2961,
    );
    lemma_bme680_pressure(
        34000,
        p,
        128_000,
        485_000,
        0,
        1_310_720,
        34_000,
        0,
        0,
        0,
        0,
        0,
        0,
        320,
        103_538,
        51_769,
        12_942,
        25_884,
        404,
        20_446,
        65_939_264,
        25,
        18_958,
        15_092,
        1969,
    );
    lemma_bme680_pressure(
        34000,
        p,
        -200_000,
        600_000,
        -164_000,
        7_014_720,
        37_752,
        -41_000,
        820_800,
        205_200,
        20_520_000,
        876_170_000,
        3617,
        1712,
        73_980,
        36_990,
        9247,
        18_495,
        288,
        10_437,
        23_887_872,
        13,
        13_546,
        5467,
        1029,
    );
}

/// What the BMP280 reads, away from 25 degrees and there.
pub proof fn lemma_bmp280_known_pressures()
    ensures
        bmp280::pressure(36477, bmp280::dig_p_values(), 0, 415_148) == 96_823,
        bmp280::pressure(36477, bmp280::dig_p_values(), 300_000, 400_000) == 108_613,
        bmp280::pressure(36477, bmp280::dig_p_values(), 128_000, 415_148) == 100_640,
        bmp280::pressure(36477, bmp280::dig_p_values(), -200_000, 600_000) == 62_530,
{
    let p = bmp280::dig_p_values();
    lemma_bmp280_pressure(
        36477,
        p,
        0,
        415_148,
        -64_000,
        182_406_530,
        37_978,
        -16_000,
        125_000,
        31_250,
        11_812_500,
        341_920_000,
        1349,
        44_532,
        96_914,
        48_457,
        12_114,
        24_228,
        17_913,
        26_239,
        -43_180,
        -91,
    );
    lemma_bmp280_pressure(
        36477,
        p,
        300_000,
        400_000,
        86_000,
        192_730_291,
        34_615,
        21_500,
        225_708,
        56_427,
        21_329_406,
        -459_455_000,
        -1672,
        47_053,
        108_609,
        54_304,
        13_576,
        27_152,
        22_498,
        32_956,
        -48_392,
        4,
    );
    lemma_bmp280_pressure(
        36477,
        p,
        128_000,
        415_148,
        0,
        187_105_280,
        36_477,
        0,
        0,
        0,
        0,
        0,
        0,
        45_680,
        100_705,
        50_352,
        12_588,
        25_176,
        19_342,
        28_333,
        -44_870,
        -65,
    );
    lemma_bmp280_pressure(
        36477,
        p,
        -200_000,
        600_000,
        -164_000,
        174_188_880,
        40_526,
        -41_000,
        820_800,
        205_200,
        77_565_600,
        876_170_000,
        3638,
        42_526,
        62_621,
        31_310,
        7827,
        15_655,
        7478,
        10_954,
        -27_901,
        -91,
    );
}

/// What the two sensors make of temperature counts.
pub proof fn lemma_known_temperatures()
    ensures
        bme680::reading_temp(0) == -12_884,
        bme680::reading_temp(500_000) == 2604,
        bme680::reading_temp(519_888) == 3221,
        bme680::reading_temp(1_048_575) == 19_628,
        bmp280::reading_temp(0) == -14_088,
        bmp280::reading_temp(500_000) == 1885,
        bmp280::reading_temp(519_888) == 2508,
        bmp280::reading_temp(1_048_575) == 18_755,
{
    lemma_bme680_temp(
        26000,
        26000,
        3,
        0,
        0,
        -26_000,
        -660_157,
        165_039,
        483,
        -12_884,
    );
    lemma_bme680_temp(
        26000,
        26000,
        3,
        500_000,
        62_500,
        5250,
        133_300,
        6729,
        19,
        2604,
    );
    lemma_bme680_temp(
        26000,
        26000,
        3,
        519_888,
        64_986,
        6493,
        164_861,
        10_292,
        30,
        3221,
    );
    lemma_bme680_temp(
        26000,
        26000,
        3,
        1_048_575,
        131_071,
        39_535,
        1_003_831,
        381_595,
        1117,
        19_628,
    );
    lemma_bmp280_temp(
        27504,
        26435,
        -1000,
        0,
        0,
        0,
        -710_028,
        184_685,
        -11_273,
        -14_088,
    );
    lemma_bmp280_temp(
        27504,
        26435,
        -1000,
        500_000,
        62_500,
        31_250,
        96_704,
        3425,
        -210,
        1885,
    );
    lemma_bmp280_temp(
        27504,
        26435,
        -1000,
        519_888,
        64_986,
        32_493,
        128_793,
        6076,
        -371,
        2508,
    );
    lemma_bmp280_temp(
        27504,
        26435,
        -1000,
        1_048_575,
        131_071,
        65_535,
        981_799,
        353_114,
        -21_553,
        18_755,
    );
}

/// What the BME680 makes of humidity counts, in the cold and in the warm.
pub proof fn lemma_known_humidities()
    ensures
        bme680::reading_humidity(0, 20_000) == 640_200,
        bme680::reading_humidity(4000, 20_000) == 715_051,
        bme680::reading_humidity(-2000, 30_000) == 1_190_405,
        bme680::reading_humidity(2500, 12_000) == 216_734,
{
    let h = bme680::par_h_values();
    lemma_bme680_humidity(
        h,
        0,
        20_000,
        0,
        0,
        0,
        0,
        0,
        0,
        3200,
        0,
        960,
        2343,
        5360,
        2_572_800,
        640_200,
    );
    lemma_bme680_humidity(
        h,
        4000,
        20_000,
        0,
        0,
        1200,
        800,
        50_000,
        500,
        3532,
        1200,
        1035,
        2586,
        6530,
        3_379_275,
        715_051,
    );
    lemma_bme680_humidity(
        h,
        -2000,
        30_000,
        0,
        0,
        -600,
        -400,
        12_500,
        125,
        3107,
        -600,
        922,
        4171,
        16_989,
        7_831_929,
        1_190_405,
    );
    lemma_bme680_humidity(
        h,
        2500,
        12_000,
        0,
        0,
        750,
        500,
        19_531,
        195,
        3384,
        750,
        1006,
        826,
        666,
        334_998,
        216_734,
    );
}

/// A new sensor reads 25 degrees, and the BME680 50 % relative humidity, to
/// within a fiftieth of a percent above it.
pub proof fn lemma_new_sensors_read(bmp: bmp280::Bmp280, bme: bme680::Bme680)
    requires
        bmp.fresh(),
        bme.fresh(),
    ensures
        bmp280::reading_temp(bmp.adc_t as int) == 2500,
        bme680::reading_temp(bme.adc_t as int) == 2500,
        50 * 65536 <= bme680::reading_humidity(2500, bme.hum_adc as int) <= 50 * 65536 + 1_000,
{
    let h = bme680::par_h_values();
    lemma_known_temperatures();
    bmp280::lemma_temp_count_met(2500, bmp.adc_t as int);
    bme680::lemma_temp_count_met(2500, bme.adc_t as int);
    lemma_bme680_humidity(
        h,
        2500,
        65_535,
        0,
        0,
        750,
        500,
        19_531,
        195,
        3384,
        750,
        1006,
        11_883,
        137_896,
        69_361_688,
        4_125_940,
    );
    bme680::lemma_humidity_count_met(2500, 3_276_800, bme.hum_adc as int);
}

} // verus!
