//! Bosch BME680 temperature, pressure and humidity sensor: calibration
//! coefficients and raw converter counts, as on [the
//! BMP280](crate::devices::bmp280), with a humidity channel. The gas
//! channel is not modelled.
//!
//! Registers: 0x8A-0x8C and 0xE9-0xEA temperature calibration, 0x8E-0xA0
//! pressure calibration, 0xE1-0xE8 humidity calibration (H1 and H2 are
//! 12-bit and share a byte), 0x1F-0x21 pressure count and 0x22-0x24
//! temperature count (20 bits, most significant first), 0x25-0x26 humidity
//! count (16 bits). Every other register reads 0, and no register can be
//! written.

use crate::i2c::I2cDevice;
use crate::numeric::{
    count20_byte, crossing, divide, fits, high_byte, lemma_bisect_crossing,
    lemma_crossing_is_least, lemma_product_bound, lemma_quotient_bound, lemma_quotient_drop,
    lemma_quotient_monotonic, lemma_quotient_step,
    lemma_shr, lemma_square_bound, low_byte, magnitude, middle_byte, pack_nibbles, quotient,
    search_crossing, short_of, take_count20_byte, take_high_byte, take_low_byte, take_middle_byte,
};
use vstd::prelude::*;

verus! {

/// I2C address of a BME680 with SDO tied high.
pub const BME680_ADDRESS: u8 = 0x77;

/// Largest temperature or pressure count (20 bits).
pub const COUNT_MAX: u32 = 0xFFFFF;

/// Largest humidity count (16 bits).
pub const HUMIDITY_COUNT_MAX: u32 = 0xFFFF;

/// Full humidity, 100 %, in units of 1/65536 %.
pub const FULL_HUMIDITY: i64 = 6_553_600;

/// The fine temperature that a temperature count stands for.
pub open spec fn fine_temp(t1: int, t2: int, t3: int, count: int) -> int {
    let offset = count / 8 - t1 * 2;
    offset * t2 / 2048 + ((offset / 2) * (offset / 2) / 4096) * (t3 * 16) / 16384
}

/// Hundredths of a degree Celsius of a fine temperature.
pub open spec fn centidegrees(fine: int) -> int {
    (fine * 5 + 128) / 256
}

/// The working temperature of the pressure formula.
pub open spec fn working_temp(fine: int) -> int {
    fine / 2 - 64000
}

/// The square of a quarter of the working temperature.
pub open spec fn quarter_square(v: int) -> int {
    (v / 4) * (v / 4)
}

/// The offset of the pressure formula, from P4, P5 and P6.
pub open spec fn pressure_offset(p: Seq<i32>, v: int) -> int {
    (((quarter_square(v) / 2048) * p[4]) / 4 + v * p[3] * 2) / 4 + p[2] * 65536
}

/// The gain of the pressure formula, from P2 and P3.
pub open spec fn pressure_gain(p: Seq<i32>, v: int) -> int {
    ((quarter_square(v) / 8192) * (p[1] * 32)) / 8 + (p[0] * v) / 2
}

/// The divisor of the pressure formula.
pub open spec fn pressure_divisor(p1: int, p: Seq<i32>, v: int) -> int {
    (32768 + pressure_gain(p, v) / 262144) * p1 / 32768
}

/// The scaled count of the pressure formula.
pub open spec fn scaled_count(p: Seq<i32>, v: int, count: int) -> int {
    (1_048_576 - count - pressure_offset(p, v) / 4096) * 3125
}

/// The pressure before its final correction.
pub open spec fn coarse_pressure(scaled: int, divisor: int) -> int {
    if scaled < 0x4000_0000 {
        quotient(scaled * 2, divisor)
    } else {
        quotient(scaled, divisor) * 2
    }
}

/// The quadratic part of the final correction, from P9.
pub open spec fn correction_bow(p: Seq<i32>, coarse: int) -> int {
    (p[7] * ((coarse / 8) * (coarse / 8) / 8192) + 2048) / 4096
}

/// The linear part of the final correction, from P8.
pub open spec fn correction_lean(p: Seq<i32>, coarse: int) -> int {
    ((coarse / 4) * p[6] + 4096) / 8192
}

/// The cubic part of the final correction, from P10.
pub open spec fn correction_twist(p: Seq<i32>, coarse: int) -> int {
    (((coarse / 256) * p[8]) * ((coarse / 256) * (coarse / 256))) / 131072
}

/// The final correction.
pub open spec fn pressure_correction(p: Seq<i32>, coarse: int) -> int {
    (correction_bow(p, coarse) + correction_lean(p, coarse) + correction_twist(p, coarse) + p[5]
        * 128) / 16
}

/// The pressure in pascals that a pressure count stands for; 0 where the
/// divisor vanishes.
pub open spec fn pressure(p1: int, p: Seq<i32>, fine: int, count: int) -> int {
    let v = working_temp(fine);
    let divisor = pressure_divisor(p1, p, v);
    if divisor == 0 {
        0
    } else {
        let coarse = coarse_pressure(scaled_count(p, v, count), divisor);
        coarse + pressure_correction(p, coarse)
    }
}

/// No step of the pressure formula leaves the range of its 64-bit
/// arithmetic.
pub open spec fn pressure_computable(p1: int, p: Seq<i32>, fine: int, count: int) -> bool {
    let v = working_temp(fine);
    let divisor = pressure_divisor(p1, p, v);
    let scaled = scaled_count(p, v, count);
    let coarse = coarse_pressure(scaled, divisor);
    &&& fits(v)
    &&& fits(quarter_square(v))
    &&& fits((quarter_square(v) / 2048) * p[4])
    &&& fits(v * p[3] * 2)
    &&& fits(((quarter_square(v) / 2048) * p[4]) / 4 + v * p[3] * 2)
    &&& fits(pressure_offset(p, v))
    &&& fits((quarter_square(v) / 8192) * (p[1] * 32))
    &&& fits(p[0] * v)
    &&& fits(pressure_gain(p, v))
    &&& fits((32768 + pressure_gain(p, v) / 262144) * p1)
    &&& divisor != 0 ==> {
        &&& fits(1_048_576 - count - pressure_offset(p, v) / 4096)
        &&& fits(scaled)
        &&& scaled < 0x4000_0000 ==> scaled * 2 > i64::MIN
        &&& fits(coarse)
        &&& fits((coarse / 8) * (coarse / 8))
        &&& fits(p[7] * ((coarse / 8) * (coarse / 8) / 8192))
        &&& fits(p[7] * ((coarse / 8) * (coarse / 8) / 8192) + 2048)
        &&& fits((coarse / 4) * p[6])
        &&& fits((coarse / 4) * p[6] + 4096)
        &&& fits((coarse / 256) * p[8])
        &&& fits((coarse / 256) * (coarse / 256))
        &&& fits(((coarse / 256) * p[8]) * ((coarse / 256) * (coarse / 256)))
        &&& fits(correction_bow(p, coarse) + correction_lean(p, coarse))
        &&& fits(
            correction_bow(p, coarse) + correction_lean(p, coarse) + correction_twist(p, coarse),
        )
        &&& fits(
            correction_bow(p, coarse) + correction_lean(p, coarse) + correction_twist(p, coarse)
                + p[5] * 128,
        )
        &&& fits(coarse + pressure_correction(p, coarse))
    }
}

/// A hundredth of a product, rounded toward zero.
pub open spec fn hundredth(t: int, h: int) -> int {
    quotient(t * h, 100)
}

/// The humidity count less its offset, from H1 and H3.
pub open spec fn humidity_excess(h: Seq<i32>, t: int, count: int) -> int {
    count - h[0] * 16 - hundredth(t, h[2] as int) / 2
}

/// The gain of the humidity formula before scaling, from H4 and H5.
pub open spec fn humidity_shape(h: Seq<i32>, t: int) -> int {
    hundredth(t, h[3] as int) + quotient((t * hundredth(t, h[4] as int)) / 64, 100) + 16384
}

/// The gain of the humidity formula.
pub open spec fn humidity_gain(h: Seq<i32>, t: int) -> int {
    (h[1] * humidity_shape(h, t)) / 1024
}

/// The weight of the quadratic term, from H6 and H7.
pub open spec fn humidity_bend(h: Seq<i32>, t: int) -> int {
    (h[5] * 128 + hundredth(t, h[6] as int)) / 16
}

/// The quadratic term.
pub open spec fn humidity_curve(bend: int, linear: int) -> int {
    (bend * (((linear / 16384) * (linear / 16384)) / 1024)) / 2
}

/// `x` brought into `[0, FULL_HUMIDITY]`.
pub open spec fn limited(x: int) -> int {
    if x < 0 {
        0
    } else if x > FULL_HUMIDITY {
        FULL_HUMIDITY as int
    } else {
        x
    }
}

/// The relative humidity, in units of 1/65536 %, that a humidity count
/// stands for at `t` hundredths of a degree.
pub open spec fn humidity(h: Seq<i32>, t: int, count: int) -> int {
    let linear = humidity_excess(h, t, count) * humidity_gain(h, t);
    limited((linear + humidity_curve(humidity_bend(h, t), linear) + 32) / 64)
}

/// No step of the humidity formula leaves the range of its 64-bit
/// arithmetic.
pub open spec fn humidity_computable(h: Seq<i32>, t: int, count: int) -> bool {
    let gain = humidity_gain(h, t);
    let excess = humidity_excess(h, t, count);
    let linear = excess * gain;
    let bend = humidity_bend(h, t);
    let curve = humidity_curve(bend, linear);
    &&& i64::MIN < t * h[2] <= i64::MAX
    &&& fits(excess)
    &&& i64::MIN < t * h[3] <= i64::MAX
    &&& i64::MIN < t * h[4] <= i64::MAX
    &&& fits(t * hundredth(t, h[4] as int))
    &&& fits(hundredth(t, h[3] as int) + quotient((t * hundredth(t, h[4] as int)) / 64, 100))
    &&& fits(humidity_shape(h, t))
    &&& fits(h[1] * humidity_shape(h, t))
    &&& fits(linear)
    &&& i64::MIN < t * h[6] <= i64::MAX
    &&& fits(h[5] * 128 + hundredth(t, h[6] as int))
    &&& fits((linear / 16384) * (linear / 16384))
    &&& fits(bend * (((linear / 16384) * (linear / 16384)) / 1024))
    &&& fits(linear + curve)
    &&& fits(linear + curve + 32)
}

/// Bosch's temperature compensation: the fine temperature, and hundredths
/// of a degree.
pub fn compensate_temp(par_t1: u16, par_t2: i16, par_t3: i8, adc_t: u32) -> (r: (i64, i64))
    ensures
        r.0 as int == fine_temp(par_t1 as int, par_t2 as int, par_t3 as int, adc_t as int),
        r.1 as int == centidegrees(r.0 as int),
{
    let t1: i64 = par_t1 as i64;
    let t2: i64 = par_t2 as i64;
    let t3: i64 = par_t3 as i64;
    let adc: i64 = adc_t as i64;
    proof {
        lemma_shr(adc);
    }
    let offset: i64 = (adc >> 3) - t1 * 2;
    proof {
        lemma_shr(offset);
        lemma_product_bound(offset as int, t2 as int, 0x2000_0000, 0x8000);
        lemma_square_bound((offset >> 1) as int, 0x1000_0000);
    }
    let slope: i64 = offset * t2;
    let square: i64 = (offset >> 1) * (offset >> 1);
    proof {
        lemma_shr(slope);
        lemma_shr(square);
        lemma_product_bound((square >> 12) as int, (t3 * 16) as int, 0x1000_0000_0000, 0x800);
    }
    let bend: i64 = (square >> 12) * (t3 * 16);
    proof {
        lemma_shr(bend);
    }
    let t_fine: i64 = (slope >> 11) + (bend >> 14);
    let scaled: i64 = t_fine * 5 + 128;
    proof {
        lemma_shr(scaled);
    }
    (t_fine, scaled >> 8)
}

/// Bosch's pressure compensation, in pascals.
pub fn compensate_pressure(par_p1: u16, par_p: [i32; 9], t_fine: i64, adc_p: u32) -> (pa: i64)
    requires
        pressure_computable(par_p1 as int, par_p@, t_fine as int, adc_p as int),
    ensures
        pa as int == pressure(par_p1 as int, par_p@, t_fine as int, adc_p as int),
{
    let ghost p = par_p@;
    let p1: i64 = par_p1 as i64;
    let p2: i64 = par_p[0] as i64;
    let p3: i64 = par_p[1] as i64;
    let p4: i64 = par_p[2] as i64;
    let p5: i64 = par_p[3] as i64;
    let p6: i64 = par_p[4] as i64;
    let p7: i64 = par_p[5] as i64;
    let p8: i64 = par_p[6] as i64;
    let p9: i64 = par_p[7] as i64;
    let p10: i64 = par_p[8] as i64;
    proof {
        lemma_shr(t_fine);
    }
    let v: i64 = (t_fine >> 1) - 64000;
    proof {
        lemma_shr(v);
    }
    let square: i64 = (v >> 2) * (v >> 2);
    proof {
        lemma_shr(square);
    }
    let bend: i64 = (square >> 11) * p6;
    assert(fits(v * p5)) by {
        assert(fits(v * p[3] * 2));
    }
    let tilt: i64 = v * p5 * 2;
    proof {
        lemma_shr(bend);
    }
    let sum: i64 = (bend >> 2) + tilt;
    proof {
        lemma_shr(sum);
    }
    let offset: i64 = (sum >> 2) + p4 * 65536;
    assert(offset as int == pressure_offset(p, v as int));
    let curve: i64 = (square >> 13) * (p3 * 32);
    let slope: i64 = p2 * v;
    proof {
        lemma_shr(curve);
        lemma_shr(slope);
    }
    let gain: i64 = (curve >> 3) + (slope >> 1);
    proof {
        lemma_shr(gain);
    }
    let weighted: i64 = (32768 + (gain >> 18)) * p1;
    proof {
        lemma_shr(weighted);
    }
    let divisor: i64 = weighted >> 15;
    assert(divisor as int == pressure_divisor(p1 as int, p, v as int));
    if divisor == 0 {
        return 0;
    }
    proof {
        lemma_shr(offset);
    }
    let scaled: i64 = (1_048_576 - adc_p as i64 - (offset >> 12)) * 3125;
    let coarse: i64 = if scaled < 0x4000_0000 {
        divide(scaled * 2, divisor)
    } else {
        divide(scaled, divisor) * 2
    };
    assert(coarse as int == coarse_pressure(scaled as int, divisor as int));
    proof {
        lemma_shr(coarse);
    }
    let coarse_square: i64 = (coarse >> 3) * (coarse >> 3);
    proof {
        lemma_shr(coarse_square);
    }
    let bow: i64 = p9 * (coarse_square >> 13) + 2048;
    let lean: i64 = (coarse >> 2) * p8 + 4096;
    let twist: i64 = ((coarse >> 8) * p10) * ((coarse >> 8) * (coarse >> 8));
    proof {
        lemma_shr(bow);
        lemma_shr(lean);
        lemma_shr(twist);
    }
    let fix: i64 = (bow >> 12) + (lean >> 13) + (twist >> 17) + p7 * 128;
    proof {
        lemma_shr(fix);
    }
    coarse + (fix >> 4)
}

/// Bosch's humidity compensation, in units of 1/65536 %.
pub fn compensate_humidity(par_h: [i32; 7], temp_centidegrees: i64, hum_adc: u32) -> (rh: i64)
    requires
        humidity_computable(par_h@, temp_centidegrees as int, hum_adc as int),
    ensures
        rh as int == humidity(par_h@, temp_centidegrees as int, hum_adc as int),
{
    let ghost h = par_h@;
    let h1: i64 = par_h[0] as i64;
    let h2: i64 = par_h[1] as i64;
    let h3: i64 = par_h[2] as i64;
    let h4: i64 = par_h[3] as i64;
    let h5: i64 = par_h[4] as i64;
    let h6: i64 = par_h[5] as i64;
    let h7: i64 = par_h[6] as i64;
    let t: i64 = temp_centidegrees;
    let drift: i64 = divide(t * h3, 100);
    proof {
        lemma_shr(drift);
    }
    let excess: i64 = (hum_adc as i64 - h1 * 16) - (drift >> 1);
    assert(excess as int == humidity_excess(h, t as int, hum_adc as int));
    let inner: i64 = t * divide(t * h5, 100);
    proof {
        lemma_shr(inner);
    }
    let shape: i64 = divide(t * h4, 100) + divide(inner >> 6, 100) + 16384;
    assert(shape as int == humidity_shape(h, t as int));
    let product: i64 = h2 * shape;
    proof {
        lemma_shr(product);
    }
    let gain: i64 = product >> 10;
    let linear: i64 = excess * gain;
    let weight: i64 = h6 * 128 + divide(t * h7, 100);
    proof {
        lemma_shr(weight);
        lemma_shr(linear);
    }
    let bend: i64 = weight >> 4;
    assert(bend as int == humidity_bend(h, t as int));
    let square: i64 = (linear >> 14) * (linear >> 14);
    proof {
        lemma_shr(square);
    }
    let curve: i64 = bend * (square >> 10);
    proof {
        lemma_shr(curve);
    }
    let total: i64 = linear + (curve >> 1) + 32;
    proof {
        lemma_shr(total);
    }
    let rh: i64 = total >> 6;
    if rh < 0 {
        0
    } else if rh > FULL_HUMIDITY {
        FULL_HUMIDITY
    } else {
        rh
    }
}

/// The chip: calibration, the three counts, and the register pointer.
pub struct Bme680 {
    pub par_t1: u16,
    pub par_t2: i16,
    pub par_t3: i8,
    pub par_p1: u16,
    /// P2 to P10.
    pub par_p: [i32; 9],
    /// H1 to H7.
    pub par_h: [i32; 7],
    /// Temperature count, 20 bits.
    pub adc_t: u32,
    /// Pressure count, 20 bits.
    pub adc_p: u32,
    /// Humidity count, 16 bits.
    pub hum_adc: u32,
    pub pointer: u8,
    pub awaiting_pointer: bool,
}

/// P2 to P10 of this chip.
pub open spec fn par_p_values() -> Seq<i32> {
    seq![-10685i32, 88i32, 20i32, -7i32, 100i32, -20i32, 6000i32, 5i32, 30i32]
}

/// H1 to H7 of this chip.
pub open spec fn par_h_values() -> Seq<i32> {
    seq![500i32, 200i32, 0i32, 30i32, 20i32, 120i32, 30i32]
}

/// The fine temperature that this chip's calibration makes of a count.
pub open spec fn reading_fine(count: int) -> int {
    fine_temp(26000, 26000, 3, count)
}

/// Hundredths of a degree that this chip's calibration makes of a count.
pub open spec fn reading_temp(count: int) -> int {
    centidegrees(reading_fine(count))
}

/// Pascals that this chip's calibration makes of a pressure count, at a
/// fine temperature.
pub open spec fn reading_pressure(fine: int) -> spec_fn(int) -> int {
    |count: int| pressure(34000, par_p_values(), fine, count)
}

/// Relative humidity that this chip's calibration makes of a humidity
/// count, at `t` hundredths of a degree.
pub open spec fn reading_humidity(t: int, count: int) -> int {
    humidity(par_h_values(), t, count)
}

/// `count` is the temperature count for `target` hundredths of a degree:
/// the least that reaches it, or the last when none does.
pub open spec fn is_temp_count(target: int, count: int) -> bool {
    &&& 0 <= count <= COUNT_MAX
    &&& forall|x: int| 0 <= x < count ==> #[trigger] reading_temp(x) < target
    &&& count < COUNT_MAX ==> reading_temp(count) >= target
}

/// `count` is the humidity count for `target` at `t` hundredths of a
/// degree: the least that reaches it, or the last when none does.
pub open spec fn is_humidity_count(t: int, target: int, count: int) -> bool {
    &&& 0 <= count <= HUMIDITY_COUNT_MAX
    &&& forall|x: int| 0 <= x < count ==> #[trigger] reading_humidity(t, x) < target
    &&& count < HUMIDITY_COUNT_MAX ==> reading_humidity(t, count) >= target
}

/// One count up raises the temperature by nothing or by one hundredth.
pub proof fn lemma_temp_step(count: int)
    requires
        0 <= count < COUNT_MAX,
    ensures
        reading_temp(count) <= reading_temp(count + 1) <= reading_temp(count) + 1,
{
    let d = (count / 8 - 52000) / 2;
    let e = ((count + 1) / 8 - 52000) / 2;
    assert(e == d || e == d + 1);
    assert(-26000 <= d <= 39536);
    if e == d + 1 {
        assert((d + 1) * (d + 1) == d * d + 2 * d + 1) by (nonlinear_arith);
    }
}

/// Over the whole range of counts, a higher count never reads colder.
pub proof fn lemma_temp_monotonic(a: int, b: int)
    requires
        0 <= a <= b <= COUNT_MAX,
    ensures
        reading_temp(a) <= reading_temp(b),
    decreases b - a,
{
    if a < b {
        lemma_temp_monotonic(a, b - 1);
        lemma_temp_step(b - 1);
    }
}

/// The fine temperatures and the temperatures that counts can stand for.
pub proof fn lemma_fine_range(count: int)
    requires
        0 <= count <= COUNT_MAX,
    ensures
        -700_000 <= reading_fine(count) <= 1_050_000,
        -14_000 <= reading_temp(count) <= 21_000,
{
    let d = (count / 8 - 52000) / 2;
    lemma_square_bound(d, 39_536);
}

/// The pressure divisor at any fine temperature that a count can stand for.
proof fn lemma_divisor_range(fine: int)
    requires
        -700_000 <= fine <= 1_050_000,
    ensures
        24_000 <= pressure_divisor(34000, par_p_values(), working_temp(fine)) <= 60_000,
        -100_000_000 <= pressure_offset(par_p_values(), working_temp(fine)) <= 100_000_000,
{
    let v = working_temp(fine);
    let p = par_p_values();
    let g = pressure_gain(p, v);
    lemma_square_bound(v / 4, 116_000);
    assert(0 <= quarter_square(v) / 8192 <= 1_650_000);
    assert(g == ((quarter_square(v) / 8192) * 2816) / 8 + (-10685 * v) / 2);
    assert(-9_420 <= g / 262144 <= 11_000);
}

/// What the coarse pressure can be.
proof fn lemma_coarse_range(fine: int, count: int)
    requires
        -700_000 <= fine <= 1_050_000,
        0 <= count <= COUNT_MAX,
    ensures
        ({
            let v = working_temp(fine);
            let d = pressure_divisor(34000, par_p_values(), v);
            let scaled = scaled_count(par_p_values(), v, count);
            &&& -100_000_000 <= scaled <= 3_500_000_000
            &&& -292_000 <= coarse_pressure(scaled, d) <= 292_000
        }),
{
    let v = working_temp(fine);
    let d = pressure_divisor(34000, par_p_values(), v);
    let scaled = scaled_count(par_p_values(), v, count);
    lemma_divisor_range(fine);
    lemma_quotient_bound(scaled, d, 3_500_000_000, 24_000);
    if scaled < 0x4000_0000 {
        lemma_quotient_bound(scaled * 2, d, 7_000_000_000, 24_000);
    }
}

/// The cubic part of the correction stays small over coarse pressures.
proof fn lemma_twist_range(k: int)
    requires
        -1_141 <= k <= 1_141,
    ensures
        -1_485_446_221 <= k * (k * k) <= 1_485_446_221,
        0 <= k * k <= 1_301_881,
        (k * 30) * (k * k) == 30 * (k * (k * k)),
{
    lemma_square_bound(k, 1_141);
    lemma_product_bound(k, k * k, 1_141, 1_301_881);
    assert((k * 30) * (k * k) == 30 * (k * (k * k))) by (nonlinear_arith);
}

/// With this chip's calibration the pressure formula stays in range at
/// every pair of counts.
pub proof fn lemma_pressure_computable(fine: int, count: int)
    requires
        -700_000 <= fine <= 1_050_000,
        0 <= count <= COUNT_MAX,
    ensures
        pressure_computable(34000, par_p_values(), fine, count),
{
    let v = working_temp(fine);
    let p = par_p_values();
    let d = pressure_divisor(34000, p, v);
    let coarse = coarse_pressure(scaled_count(p, v, count), d);
    lemma_square_bound(v / 4, 116_000);
    lemma_divisor_range(fine);
    lemma_coarse_range(fine, count);
    lemma_square_bound(coarse / 8, 36_500);
    lemma_twist_range(coarse / 256);
}

/// What the pieces of the humidity formula can be at any temperature that a
/// count can stand for.
proof fn lemma_humidity_pieces(t: int)
    requires
        -14_000 <= t <= 21_000,
    ensures
        forall|count: int| #[trigger] humidity_excess(par_h_values(), t, count) == count - 8000,
        0 <= hundredth(t, 20) * t <= 88_200_000,
        hundredth(t, 0) == 0,
        -4_200 <= hundredth(t, 30) <= 6_300,
        1_000 <= humidity_shape(par_h_values(), t) <= 40_000,
        190 <= humidity_gain(par_h_values(), t) <= 7_813,
        600 <= humidity_bend(par_h_values(), t) <= 1_400,
{
    let h = par_h_values();
    let q = hundredth(t, 20);
    assert(hundredth(t, 0) == 0) by {
        lemma_quotient_bound(t * 0, 100, 0, 100);
    }
    lemma_quotient_bound(t * 20, 100, 420_000, 100);
    lemma_quotient_bound(t * 30, 100, 630_000, 100);
    assert(0 <= q * t <= 88_200_000) by (nonlinear_arith)
        requires
            -4_200 <= q <= 4_200,
            -14_000 <= t <= 21_000,
            t >= 0 ==> q >= 0,
            t < 0 ==> q <= 0,
    ;
    assert(t * q == q * t) by (nonlinear_arith);
    assert(humidity_shape(h, t) == hundredth(t, 30) + quotient((q * t) / 64, 100) + 16384);
}

/// With this chip's calibration the humidity formula stays in range.
pub proof fn lemma_humidity_computable(t: int, count: int)
    requires
        -14_000 <= t <= 21_000,
        0 <= count <= HUMIDITY_COUNT_MAX,
    ensures
        humidity_computable(par_h_values(), t, count),
{
    let h = par_h_values();
    lemma_humidity_pieces(t);
    let (e, g) = (humidity_excess(h, t, count), humidity_gain(h, t));
    let linear = e * g;
    lemma_product_bound(e, g, 57_535, 7_813);
    lemma_square_bound(linear / 16384, 27_437);
    let s = ((linear / 16384) * (linear / 16384)) / 1024;
    lemma_product_bound(humidity_bend(h, t), s, 1_400, 735_146);
    assert(t * hundredth(t, 20) == hundredth(t, 20) * t) by (nonlinear_arith);
}

/// The quadratic term grows with a linear term that is not negative.
proof fn lemma_curve_monotonic(bend: int, a: int, b: int)
    requires
        600 <= bend <= 1_400,
        0 <= a <= b,
    ensures
        0 <= humidity_curve(bend, a) <= humidity_curve(bend, b),
{
    let (x, y) = (a / 16384, b / 16384);
    assert(0 <= x * x <= y * y) by (nonlinear_arith)
        requires
            0 <= x <= y,
    ;
    let (r, s) = ((x * x) / 1024, (y * y) / 1024);
    assert(0 <= bend * r <= bend * s) by (nonlinear_arith)
        requires
            0 <= r <= s,
            0 <= bend,
    ;
}

/// Below the humidity offset the quadratic term does not make up for the
/// negative linear one.
proof fn lemma_curve_below_offset(bend: int, linear: int)
    requires
        600 <= bend <= 1_400,
        -62_504_000 <= linear < 0,
    ensures
        linear + humidity_curve(bend, linear) < 0,
{
    let u = linear / 16384;
    assert(-3_815 <= u <= -1);
    assert(0 <= u * u <= 3_815 * -u) by (nonlinear_arith)
        requires
            -3_815 <= u <= -1,
    ;
    let s = (u * u) / 1024;
    assert(0 <= bend * s <= 1_400 * s) by (nonlinear_arith)
        requires
            0 <= s,
            0 <= bend <= 1_400,
    ;
    if u == -1 {
        assert(u * u == 1) by (nonlinear_arith)
            requires
                u == -1,
        ;
        assert(bend * s == 0) by (nonlinear_arith)
            requires
                s == 0,
        ;
    }
}

/// At any temperature, a higher humidity count never reads drier.
pub proof fn lemma_humidity_monotonic(t: int, a: int, b: int)
    requires
        -14_000 <= t <= 21_000,
        0 <= a <= b <= HUMIDITY_COUNT_MAX,
    ensures
        reading_humidity(t, a) <= reading_humidity(t, b),
{
    let h = par_h_values();
    lemma_humidity_pieces(t);
    let (g, bend) = (humidity_gain(h, t), humidity_bend(h, t));
    let (x, y) = (humidity_excess(h, t, a), humidity_excess(h, t, b));
    assert(x * g <= y * g) by (nonlinear_arith)
        requires
            x <= y,
            0 < g,
    ;
    if x < 0 {
        assert(-62_504_000 <= x * g < 0) by (nonlinear_arith)
            requires
                -8_000 <= x < 0,
                0 < g <= 7_813,
        ;
        lemma_curve_below_offset(bend, x * g);
    } else {
        assert(0 <= x * g) by (nonlinear_arith)
            requires
                0 <= x,
                0 < g,
        ;
        lemma_curve_monotonic(bend, x * g, y * g);
    }
}

/// One humidity count changes the reading by less than a fiftieth of a
/// percent.
pub proof fn lemma_humidity_step(t: int, count: int)
    requires
        -14_000 <= t <= 21_000,
        0 <= count < HUMIDITY_COUNT_MAX,
    ensures
        reading_humidity(t, count + 1) <= reading_humidity(t, count) + 1_000,
{
    let h = par_h_values();
    lemma_humidity_pieces(t);
    lemma_humidity_monotonic(t, count, count + 1);
    let (g, bend) = (humidity_gain(h, t), humidity_bend(h, t));
    let e = humidity_excess(h, t, count);
    let (a, b) = (e * g, (e + 1) * g);
    assert(b == a + g) by (nonlinear_arith)
        requires
            a == e * g,
            b == (e + 1) * g,
    ;
    if e + 1 < 0 {
        assert(-62_504_000 <= b < 0) by (nonlinear_arith)
            requires
                b == (e + 1) * g,
                -8_000 <= e + 1 < 0,
                0 < g <= 7_813,
        ;
        lemma_curve_below_offset(bend, b);
    } else {
        assert(-7_813 <= a <= 449_521_000) by (nonlinear_arith)
            requires
                a == e * g,
                -1 <= e <= 57_535,
                0 < g <= 7_813,
        ;
        let (x, y) = (a / 16384, b / 16384);
        assert(-1 <= x <= 27_437 && x <= y <= x + 1);
        assert((x + 1) * (x + 1) == x * x + 2 * x + 1) by (nonlinear_arith);
        let (r, s) = ((x * x) / 1024, (y * y) / 1024);
        assert(s <= r + 55);
        assert(bend * s <= bend * r + 77_000) by (nonlinear_arith)
            requires
                s <= r + 55,
                0 <= bend <= 1_400,
        ;
    }
}

/// The count for a temperature is read as that temperature wherever the range
/// of readings holds it; below the range it is the first count, and above it
/// the last.
pub proof fn lemma_temp_count_met(target: int, count: int)
    requires
        is_temp_count(target, count),
    ensures
        reading_temp(0) <= target <= reading_temp(0xFFFFF) ==> reading_temp(count) == target,
        target <= reading_temp(0) ==> count == 0,
        target > reading_temp(0xFFFFF) ==> count == 0xFFFFF,
{
    if count > 0 {
        assert(reading_temp(0) < target);
        assert(reading_temp(count - 1) < target);
        lemma_temp_step(count - 1);
    }
    if count < COUNT_MAX {
        lemma_temp_monotonic(count, COUNT_MAX as int);
    }
}

/// The search over temperature counts ends at the count for the target, and
/// the target is met exactly where the range of readings holds it.
proof fn lemma_temp_count(target: int)
    ensures
        ({
            let count = crossing(|x: int| reading_temp(x), target, COUNT_MAX as int);
            &&& is_temp_count(target, count)
            &&& reading_temp(0) <= target <= reading_temp(COUNT_MAX as int) ==> reading_temp(count)
                == target
        }),
{
    let model = |x: int| reading_temp(x);
    let max = COUNT_MAX as int;
    let c = crossing(model, target, max);
    assert forall|x: int, y: int| 0 <= x <= y <= max implies #[trigger] model(x)
        <= #[trigger] model(y) by {
        lemma_temp_monotonic(x, y);
    }
    lemma_crossing_is_least(model, target, max);
    assert forall|x: int| 0 <= x < c implies #[trigger] reading_temp(x) < target by {
        assert(model(x) < target);
    }
    if c > 0 {
        assert(model(c - 1) < target);
        lemma_temp_step(c - 1);
    }
}

/// The count for a humidity is read as that humidity, to within a fiftieth of
/// a percent above it, wherever the range of readings holds it.
pub proof fn lemma_humidity_count_met(t: int, target: int, count: int)
    requires
        -14_000 <= t <= 21_000,
        is_humidity_count(t, target, count),
        0 <= target <= reading_humidity(t, 0xFFFF),
    ensures
        target <= reading_humidity(t, count) <= target + 1_000,
{
    if count > 0 {
        assert(reading_humidity(t, count - 1) < target);
        lemma_humidity_step(t, count - 1);
    } else {
        lemma_humidity_pieces(t);
        let h = par_h_values();
        let (g, bend) = (humidity_gain(h, t), humidity_bend(h, t));
        lemma_curve_below_offset(bend, -8000 * g);
    }
}

/// The search over humidity counts ends at the count for the target, and a
/// target within the range of readings is met to within a fiftieth of a
/// percent.
proof fn lemma_humidity_count(t: int, target: int)
    requires
        -14_000 <= t <= 21_000,
    ensures
        ({
            let max = HUMIDITY_COUNT_MAX as int;
            let count = crossing(|x: int| reading_humidity(t, x), target, max);
            &&& is_humidity_count(t, target, count)
            &&& 0 <= target <= reading_humidity(t, max) ==> target <= reading_humidity(t, count)
                <= target + 1_000
        }),
{
    let model = |x: int| reading_humidity(t, x);
    let max = HUMIDITY_COUNT_MAX as int;
    let c = crossing(model, target, max);
    assert forall|x: int, y: int| 0 <= x <= y <= max implies #[trigger] model(x)
        <= #[trigger] model(y) by {
        lemma_humidity_monotonic(t, x, y);
    }
    lemma_crossing_is_least(model, target, max);
    assert forall|x: int| 0 <= x < c implies #[trigger] reading_humidity(t, x) < target by {
        assert(model(x) < target);
    }
    if c > 0 {
        assert(model(c - 1) < target);
        lemma_humidity_step(t, c - 1);
    } else {
        lemma_humidity_pieces(t);
        let h = par_h_values();
        let (g, bend) = (humidity_gain(h, t), humidity_bend(h, t));
        lemma_curve_below_offset(bend, -8000 * g);
    }
}

/// One count changes the coarse pressure by at most 2 Pa.
proof fn lemma_coarse_step(scaled: int, d: int)
    requires
        24_000 <= d,
    ensures
        -2 <= coarse_pressure(scaled, d) - coarse_pressure(scaled - 3125, d) <= 2,
{
    lemma_quotient_step(scaled * 2, 6250, d);
    lemma_quotient_step(scaled, 3125, d);
    if scaled >= 0x4000_0000 > scaled - 3125 {
        let q = scaled / d;
        let r = (scaled * 2) / d;
        assert(2 * q <= r <= 2 * q + 1) by (nonlinear_arith)
            requires
                q == scaled / d,
                r == (scaled * 2) / d,
                24_000 <= d,
        ;
    }
}

/// How far apart the quadratic parts are of two coarse pressures at most
/// 2 Pa apart.
proof fn lemma_bow_step(a: int, b: int)
    requires
        -292_000 <= a <= 292_000,
        -292_000 <= b <= 292_000,
        a <= b <= a + 2,
    ensures
        -1 <= correction_bow(par_p_values(), b) - correction_bow(par_p_values(), a) <= 1,
{
    let (u, w) = (a / 8, b / 8);
    assert(w == u || w == u + 1);
    assert((u + 1) * (u + 1) == u * u + 2 * u + 1) by (nonlinear_arith);
    let (x, y) = ((u * u) / 8192, (w * w) / 8192);
    assert(-10 <= y - x <= 10);
    assert(correction_bow(par_p_values(), a) == (5 * x + 2048) / 4096);
    assert(correction_bow(par_p_values(), b) == (5 * y + 2048) / 4096);
}

/// How far apart the cubic parts are of two coarse pressures at most 2 Pa
/// apart.
proof fn lemma_twist_step(a: int, b: int)
    requires
        -292_000 <= a <= 292_000,
        -292_000 <= b <= 292_000,
        a <= b <= a + 2,
    ensures
        -1 <= correction_twist(par_p_values(), b) - correction_twist(par_p_values(), a) <= 1_000,
{
    let (k, m) = (a / 256, b / 256);
    assert(m == k || m == k + 1);
    lemma_twist_range(k);
    lemma_twist_range(m);
    assert((k + 1) * ((k + 1) * (k + 1)) == k * (k * k) + 3 * (k * k) + 3 * k + 1)
        by (nonlinear_arith);
    let (x, y) = (k * (k * k), m * (m * m));
    assert(-4_000 <= y - x <= 4_000_000);
    assert(correction_twist(par_p_values(), a) == (30 * x) / 131072);
    assert(correction_twist(par_p_values(), b) == (30 * y) / 131072);
}

/// Two coarse pressures at most 2 Pa apart have corrections at most 70 Pa
/// apart.
proof fn lemma_correction_step(a: int, b: int)
    requires
        -292_000 <= a <= 292_000,
        -292_000 <= b <= 292_000,
        a <= b <= a + 2,
    ensures
        -70 <= pressure_correction(par_p_values(), b) - pressure_correction(par_p_values(), a)
            <= 70,
{
    let p = par_p_values();
    lemma_bow_step(a, b);
    lemma_twist_step(a, b);
    assert(0 <= correction_lean(p, b) - correction_lean(p, a) <= 2);
}

/// One count changes the pressure reading by at most 72 Pa.
pub proof fn lemma_pressure_step(fine: int, count: int)
    requires
        -700_000 <= fine <= 1_050_000,
        0 <= count < COUNT_MAX,
    ensures
        magnitude(reading_pressure(fine)(count) - reading_pressure(fine)(count + 1)) <= 72,
{
    let p = par_p_values();
    let v = working_temp(fine);
    let d = pressure_divisor(34000, p, v);
    let scaled = scaled_count(p, v, count);
    lemma_divisor_range(fine);
    lemma_coarse_range(fine, count);
    lemma_coarse_range(fine, count + 1);
    assert(scaled_count(p, v, count + 1) == scaled - 3125);
    lemma_coarse_step(scaled, d);
    let a = coarse_pressure(scaled, d);
    let b = coarse_pressure(scaled - 3125, d);
    if a <= b {
        lemma_correction_step(a, b);
    } else {
        lemma_correction_step(b, a);
    }
}

/// A smaller scaled count has no larger a coarse pressure, within either
/// branch of the formula or half a divisor on; two divisors on it is smaller
/// by two at least.
proof fn lemma_coarse_falls(scaled: int, e: int, d: int)
    requires
        0 <= e,
        24_000 <= d <= 60_000,
    ensures
        scaled < 0x4000_0000 || scaled - e >= 0x4000_0000 || 2 * e >= d ==> coarse_pressure(
            scaled - e,
            d,
        ) <= coarse_pressure(scaled, d),
        e >= 2 * d ==> coarse_pressure(scaled - e, d) + 2 <= coarse_pressure(scaled, d),
{
    let less = scaled - e;
    lemma_quotient_monotonic(less * 2, scaled * 2, d);
    lemma_quotient_monotonic(less, scaled, d);
    if e >= 2 * d {
        lemma_quotient_monotonic(less, scaled - 2 * d, d);
        lemma_quotient_drop(scaled, 2, d);
        lemma_quotient_monotonic(less * 2, scaled * 2 - 4 * d, d);
        lemma_quotient_drop(scaled * 2, 4, d);
    }
    if scaled >= 0x4000_0000 {
        let (q, r) = (scaled / d, (scaled * 2) / d);
        assert(2 * q <= r <= 2 * q + 1) by (nonlinear_arith)
            requires
                q == scaled / d,
                r == (scaled * 2) / d,
                24_000 <= d,
        ;
        if 2 * e >= d {
            lemma_quotient_monotonic(less * 2, scaled * 2 - d, d);
            lemma_quotient_drop(scaled * 2, 1, d);
        }
    }
}

/// A coarse pressure higher by at most 2 Pa has a correction lower by at most
/// one.
proof fn lemma_correction_drop(a: int, b: int)
    requires
        -292_000 <= a <= 292_000,
        -292_000 <= b <= 292_000,
        a <= b <= a + 2,
    ensures
        pressure_correction(par_p_values(), b) >= pressure_correction(par_p_values(), a) - 1,
{
    let p = par_p_values();
    lemma_bow_step(a, b);
    lemma_twist_step(a, b);
    assert(0 <= correction_lean(p, b) - correction_lean(p, a));
}

/// A higher coarse pressure, corrected, is no lower; from 2 Pa on it is
/// higher.
proof fn lemma_corrected_rises(a: int, b: int)
    requires
        -292_000 <= a <= b <= 292_000,
    ensures
        a + pressure_correction(par_p_values(), a) <= b + pressure_correction(par_p_values(), b),
        a + 2 <= b ==> a + pressure_correction(par_p_values(), a) < b + pressure_correction(
            par_p_values(),
            b,
        ),
    decreases b - a,
{
    if a < b {
        lemma_correction_drop(b - 1, b);
        lemma_corrected_rises(a, b - 1);
        if a + 2 <= b {
            lemma_correction_drop(b - 2, b);
            lemma_corrected_rises(a, b - 2);
        }
    }
}

/// At any temperature the pressure falls as its count rises: from 10 counts
/// on it is never higher, and from 64 on it is lower. Within either branch of
/// the formula a higher count never reads higher at all; where a step changes
/// branch, rounding can raise the reading.
pub proof fn lemma_pressure_falls(fine: int, a: int, b: int)
    requires
        -700_000 <= fine <= 1_050_000,
        0 <= a <= b <= COUNT_MAX,
    ensures
        ({
            let read = reading_pressure(fine);
            let v = working_temp(fine);
            &&& a + 10 <= b ==> read(b) <= read(a)
            &&& a + 64 <= b ==> read(b) < read(a)
            &&& scaled_count(par_p_values(), v, a) < 0x4000_0000 || scaled_count(
                par_p_values(),
                v,
                b,
            ) >= 0x4000_0000 ==> read(b) <= read(a)
        }),
{
    let p = par_p_values();
    let v = working_temp(fine);
    let d = pressure_divisor(34000, p, v);
    let (s, e) = (scaled_count(p, v, a), (b - a) * 3125);
    let (high, low) = (coarse_pressure(s, d), coarse_pressure(s - e, d));
    lemma_divisor_range(fine);
    lemma_coarse_range(fine, a);
    lemma_coarse_range(fine, b);
    assert(scaled_count(p, v, b) == s - e);
    lemma_coarse_falls(s, e, d);
    if low <= high {
        lemma_corrected_rises(low, high);
    }
}

/// A pressure that this chip can read at all is met to within 72 Pa by the
/// count that [`Bme680::set_pressure_hpa`] picks for it.
pub proof fn lemma_pressure_round_trip(adc_t: int, target: int)
    requires
        0 <= adc_t <= COUNT_MAX,
        reading_pressure(reading_fine(adc_t))(COUNT_MAX as int) <= target
            <= reading_pressure(reading_fine(adc_t))(0),
    ensures
        ({
            let read = reading_pressure(reading_fine(adc_t));
            magnitude(read(crossing(read, target, COUNT_MAX as int)) - target) <= 72
        }),
{
    let fine = reading_fine(adc_t);
    let read = reading_pressure(fine);
    let max = COUNT_MAX as int;
    let low = short_of(read, target, max);
    let c = crossing(read, target, max);
    lemma_fine_range(adc_t);
    lemma_bisect_crossing(low, 0, max);
    if c > 0 {
        assert(low(c - 1));
        lemma_pressure_step(fine, c - 1);
    }
    if c < max {
        assert(!low(c));
    }
}

impl Bme680 {
    /// The calibration is this chip's, and the counts are in range.
    pub open spec fn calibrated(&self) -> bool {
        &&& self.par_t1 == 26000
        &&& self.par_t2 == 26000
        &&& self.par_t3 == 3
        &&& self.par_p1 == 34000
        &&& self.par_p@ == par_p_values()
        &&& self.par_h@ == par_h_values()
        &&& self.adc_t <= COUNT_MAX
        &&& self.adc_p <= COUNT_MAX
        &&& self.hum_adc <= HUMIDITY_COUNT_MAX
    }

    /// The byte that a pressure calibration register reads as.
    pub open spec fn pressure_register(self, reg: u8) -> int {
        if reg == 0x8E {
            low_byte(self.par_p1 as int)
        } else if reg == 0x8F {
            high_byte(self.par_p1 as int)
        } else if reg == 0x90 {
            low_byte(self.par_p@[0] as int)
        } else if reg == 0x91 {
            high_byte(self.par_p@[0] as int)
        } else if reg == 0x92 {
            low_byte(self.par_p@[1] as int)
        } else if reg == 0x94 {
            low_byte(self.par_p@[2] as int)
        } else if reg == 0x95 {
            high_byte(self.par_p@[2] as int)
        } else if reg == 0x96 {
            low_byte(self.par_p@[3] as int)
        } else if reg == 0x97 {
            high_byte(self.par_p@[3] as int)
        } else if reg == 0x98 {
            low_byte(self.par_p@[5] as int)
        } else if reg == 0x99 {
            low_byte(self.par_p@[4] as int)
        } else if reg == 0x9C {
            low_byte(self.par_p@[6] as int)
        } else if reg == 0x9D {
            high_byte(self.par_p@[6] as int)
        } else if reg == 0x9E {
            low_byte(self.par_p@[7] as int)
        } else if reg == 0x9F {
            high_byte(self.par_p@[7] as int)
        } else if reg == 0xA0 {
            low_byte(self.par_p@[8] as int)
        } else {
            0
        }
    }

    /// The byte that a humidity calibration register reads as: H2 and H1
    /// with their low nibbles sharing 0xE2, then H3 to H7.
    pub open spec fn humidity_register(self, reg: u8) -> int {
        if reg == 0xE1 {
            middle_byte(self.par_h@[1] as int)
        } else if reg == 0xE2 {
            (self.par_h@[1] as int % 16) * 16 + self.par_h@[0] as int % 16
        } else if reg == 0xE3 {
            middle_byte(self.par_h@[0] as int)
        } else {
            low_byte(self.par_h@[reg - 0xE2] as int)
        }
    }

    /// The byte that a register reads as.
    pub open spec fn register(self, reg: u8) -> int {
        if reg == 0x8A {
            low_byte(self.par_t2 as int)
        } else if reg == 0x8B {
            high_byte(self.par_t2 as int)
        } else if reg == 0x8C {
            low_byte(self.par_t3 as int)
        } else if reg == 0xE9 {
            low_byte(self.par_t1 as int)
        } else if reg == 0xEA {
            high_byte(self.par_t1 as int)
        } else if 0x8E <= reg <= 0xA0 {
            self.pressure_register(reg)
        } else if 0xE1 <= reg <= 0xE8 {
            self.humidity_register(reg)
        } else if 0x1F <= reg <= 0x21 {
            count20_byte(self.adc_p as int, reg - 0x1F)
        } else if 0x22 <= reg <= 0x24 {
            count20_byte(self.adc_t as int, reg - 0x22)
        } else if reg == 0x25 {
            high_byte(self.hum_adc as int)
        } else if reg == 0x26 {
            low_byte(self.hum_adc as int)
        } else {
            0
        }
    }

    /// The byte that the next read gives.
    pub open spec fn output(self) -> int {
        self.register(self.pointer)
    }

    /// The chip after an address phase: a write phase expects a pointer.
    pub open spec fn after_start(self, read: bool) -> Self {
        Bme680 { awaiting_pointer: self.awaiting_pointer || !read, ..self }
    }

    /// The chip after a byte was sent to it: the pointer, or a write with
    /// no effect but to move the pointer on.
    pub open spec fn after_write(self, byte: u8) -> Self {
        if self.awaiting_pointer {
            Bme680 { pointer: byte, awaiting_pointer: false, ..self }
        } else {
            self.after_read()
        }
    }

    /// The chip after a byte was read from it.
    pub open spec fn after_read(self) -> Self {
        Bme680 { pointer: self.pointer.wrapping_add(1), ..self }
    }

    /// The chip after `n` bytes were read from it in a row.
    pub open spec fn after_reads(self, n: nat) -> Self
        decreases n,
    {
        if n == 0 {
            self
        } else {
            self.after_reads((n - 1) as nat).after_read()
        }
    }

    /// The counts are those for the given readings, in hundredths of a
    /// degree, pascals and 1/65536 %.
    pub open spec fn senses(&self, centidegrees: int, pascals: int, humidity: int) -> bool {
        &&& is_temp_count(centidegrees, self.adc_t as int)
        &&& self.adc_p as int == crossing(
            reading_pressure(reading_fine(self.adc_t as int)),
            pascals,
            COUNT_MAX as int,
        )
        &&& is_humidity_count(
            reading_temp(self.adc_t as int),
            humidity,
            self.hum_adc as int,
        )
    }

    /// A new chip, which senses 25 degrees Celsius, 1013.25 hPa and 50 %
    /// relative humidity.
    pub open spec fn fresh(&self) -> bool {
        &&& self.calibrated()
        &&& self.senses(2_500, 101_325, 3_276_800)
        &&& self.pointer == 0
        &&& !self.awaiting_pointer
    }

    /// A chip that senses 25 degrees Celsius, 1013.25 hPa and 50 % relative
    /// humidity.
    pub fn new() -> (dev: Self)
        ensures
            dev.fresh(),
    {
        let mut dev = Bme680 {
            par_t1: 26000,
            par_t2: 26000,
            par_t3: 3,
            par_p1: 34000,
            par_p: [-10685, 88, 20, -7, 100, -20, 6000, 5, 30],
            par_h: [500, 200, 0, 30, 20, 120, 30],
            adc_t: 0,
            adc_p: 0,
            hum_adc: 0,
            pointer: 0,
            awaiting_pointer: false,
        };
        assert(dev.par_p@ =~= par_p_values());
        assert(dev.par_h@ =~= par_h_values());
        dev.set_celsius(2_500);
        dev.set_pressure_hpa(101_325);
        dev.set_humidity_percent(3_276_800);
        dev
    }

    /// The fine temperature and the temperature of the count that is set.
    pub fn temp_fine_and_centidegrees(&self) -> (r: (i64, i64))
        requires
            self.calibrated(),
        ensures
            r.0 as int == reading_fine(self.adc_t as int),
            r.1 as int == reading_temp(self.adc_t as int),
    {
        compensate_temp(self.par_t1, self.par_t2, self.par_t3, self.adc_t)
    }

    /// Sets the sensed temperature, in hundredths of a degree Celsius, by
    /// searching for the count that compensates to it.
    pub fn set_celsius(&mut self, centidegrees: i64)
        requires
            old(self).calibrated(),
        ensures
            final(self).calibrated(),
            *final(self) == (Bme680 { adc_t: final(self).adc_t, ..*old(self) }),
            is_temp_count(centidegrees as int, final(self).adc_t as int),
            reading_temp(0) <= centidegrees <= reading_temp(COUNT_MAX as int) ==> reading_temp(
                final(self).adc_t as int,
            ) == centidegrees,
    {
        let t1: u16 = self.par_t1;
        let t2: i16 = self.par_t2;
        let t3: i8 = self.par_t3;
        let ghost model = |count: int| reading_temp(count);
        let decode = |adc_t: u32| -> (t: i64)
            ensures
                decodes_temp(t1, t2, t3, adc_t, t),
        {
            let (_, t) = compensate_temp(t1, t2, t3, adc_t);
            t
        };
        let count: u32 = search_crossing(COUNT_MAX, centidegrees, decode, Ghost(model));
        proof {
            lemma_temp_count(centidegrees as int);
        }
        self.adc_t = count;
    }

    /// Sets the sensed pressure, in pascals, at the temperature that is set
    /// now, by searching for the count that compensates to it.
    pub fn set_pressure_hpa(&mut self, pascals: i64)
        requires
            old(self).calibrated(),
        ensures
            final(self).calibrated(),
            *final(self) == (Bme680 { adc_p: final(self).adc_p, ..*old(self) }),
            final(self).adc_p as int == crossing(
                reading_pressure(reading_fine(old(self).adc_t as int)),
                pascals as int,
                COUNT_MAX as int,
            ),
    {
        let (t_fine, _) = self.temp_fine_and_centidegrees();
        let p1: u16 = self.par_p1;
        let p: [i32; 9] = self.par_p;
        let ghost model = reading_pressure(t_fine as int);
        proof {
            lemma_fine_range(self.adc_t as int);
            assert forall|x: u32| x <= COUNT_MAX implies #[trigger] pressure_computable(
                p1 as int,
                p@,
                t_fine as int,
                x as int,
            ) by {
                lemma_pressure_computable(t_fine as int, x as int);
            }
        }
        let decode = |adc_p: u32| -> (pa: i64)
            requires
                adc_p <= COUNT_MAX,
            ensures
                decodes_pressure(p1, p, t_fine, adc_p, pa),
        {
            compensate_pressure(p1, p, t_fine, adc_p)
        };
        let count: u32 = search_crossing(COUNT_MAX, pascals, decode, Ghost(model));
        self.adc_p = count;
    }

    /// Sets the sensed relative humidity, in units of 1/65536 %, at the
    /// temperature that is set now, by searching for the count that
    /// compensates to it. Where no count reads as much, which is above about
    /// 63 % at 25 degrees, it is the last count.
    pub fn set_humidity_percent(&mut self, humidity: i64)
        requires
            old(self).calibrated(),
        ensures
            final(self).calibrated(),
            *final(self) == (Bme680 { hum_adc: final(self).hum_adc, ..*old(self) }),
            is_humidity_count(
                reading_temp(old(self).adc_t as int),
                humidity as int,
                final(self).hum_adc as int,
            ),
            ({
                let t = reading_temp(old(self).adc_t as int);
                0 <= humidity <= reading_humidity(t, HUMIDITY_COUNT_MAX as int) ==> humidity
                    <= reading_humidity(t, final(self).hum_adc as int) <= humidity + 1_000
            }),
    {
        let (_, t) = self.temp_fine_and_centidegrees();
        let h: [i32; 7] = self.par_h;
        let ghost model = |count: int| reading_humidity(t as int, count);
        proof {
            lemma_fine_range(self.adc_t as int);
            assert forall|x: u32| x <= HUMIDITY_COUNT_MAX implies #[trigger] humidity_computable(
                h@,
                t as int,
                x as int,
            ) by {
                lemma_humidity_computable(t as int, x as int);
            }
        }
        let decode = |hum_adc: u32| -> (rh: i64)
            requires
                hum_adc <= HUMIDITY_COUNT_MAX,
            ensures
                decodes_humidity(h, t, hum_adc, rh),
        {
            compensate_humidity(h, t, hum_adc)
        };
        let count: u32 = search_crossing(HUMIDITY_COUNT_MAX, humidity, decode, Ghost(model));
        proof {
            lemma_humidity_count(t as int, humidity as int);
        }
        self.hum_adc = count;
    }

    fn pressure_register_byte(&self, reg: u8) -> (byte: u8)
        ensures
            byte as int == self.pressure_register(reg),
    {
        match reg {
            0x8E => take_low_byte(self.par_p1 as i32),
            0x8F => take_high_byte(self.par_p1 as i32),
            0x90 => take_low_byte(self.par_p[0]),
            0x91 => take_high_byte(self.par_p[0]),
            0x92 => take_low_byte(self.par_p[1]),
            0x94 => take_low_byte(self.par_p[2]),
            0x95 => take_high_byte(self.par_p[2]),
            0x96 => take_low_byte(self.par_p[3]),
            0x97 => take_high_byte(self.par_p[3]),
            0x98 => take_low_byte(self.par_p[5]),
            0x99 => take_low_byte(self.par_p[4]),
            0x9C => take_low_byte(self.par_p[6]),
            0x9D => take_high_byte(self.par_p[6]),
            0x9E => take_low_byte(self.par_p[7]),
            0x9F => take_high_byte(self.par_p[7]),
            0xA0 => take_low_byte(self.par_p[8]),
            _ => 0x00,
        }
    }

    fn humidity_register_byte(&self, reg: u8) -> (byte: u8)
        requires
            0xE1 <= reg <= 0xE8,
        ensures
            byte as int == self.humidity_register(reg),
    {
        match reg {
            0xE1 => take_middle_byte(self.par_h[1]),
            0xE2 => pack_nibbles(self.par_h[1], self.par_h[0]),
            0xE3 => take_middle_byte(self.par_h[0]),
            _ => take_low_byte(self.par_h[(reg - 0xE2) as usize]),
        }
    }

    /// The byte that a register reads as.
    pub fn register_byte(&self, reg: u8) -> (byte: u8)
        requires
            self.calibrated(),
        ensures
            byte as int == self.register(reg),
    {
        match reg {
            0x8A => take_low_byte(self.par_t2 as i32),
            0x8B => take_high_byte(self.par_t2 as i32),
            0x8C => take_low_byte(self.par_t3 as i32),
            0xE9 => take_low_byte(self.par_t1 as i32),
            0xEA => take_high_byte(self.par_t1 as i32),
            0x8E..=0xA0 => self.pressure_register_byte(reg),
            0xE1..=0xE8 => self.humidity_register_byte(reg),
            0x1F..=0x21 => take_count20_byte(self.adc_p, reg - 0x1F),
            0x22..=0x24 => take_count20_byte(self.adc_t, reg - 0x22),
            0x25 => take_high_byte(self.hum_adc as i32),
            0x26 => take_low_byte(self.hum_adc as i32),
            _ => 0x00,
        }
    }
}

/// A driver that unpacks 0xE1 to 0xE3 recovers the 12-bit H1 and H2.
pub proof fn lemma_humidity_packing(dev: Bme680)
    requires
        dev.calibrated(),
    ensures
        dev.register(0xE3) * 16 + dev.register(0xE2) % 16 == dev.par_h@[0],
        dev.register(0xE1) * 16 + dev.register(0xE2) / 16 == dev.par_h@[1],
{
}

/// `t` is what the temperature formula makes of a count.
spec fn decodes_temp(t1: u16, t2: i16, t3: i8, adc_t: u32, t: i64) -> bool {
    t as int == centidegrees(fine_temp(t1 as int, t2 as int, t3 as int, adc_t as int))
}

/// `pa` is what the pressure formula makes of a count.
spec fn decodes_pressure(p1: u16, p: [i32; 9], fine: i64, adc_p: u32, pa: i64) -> bool {
    pa as int == pressure(p1 as int, p@, fine as int, adc_p as int)
}

/// `rh` is what the humidity formula makes of a count.
spec fn decodes_humidity(h: [i32; 7], t: i64, hum_adc: u32, rh: i64) -> bool {
    rh as int == humidity(h@, t as int, hum_adc as int)
}

/// Byte `n` of a burst read comes from the register `n` places on, counted
/// round the 256 registers, and reading changes nothing but the
/// pointer.
pub proof fn lemma_burst(dev: Bme680, n: nat)
    ensures
        dev.after_reads(n) == (Bme680 {
            pointer: ((dev.pointer + n) % 256) as u8,
            ..dev
        }),
        dev.after_reads(n).output() == dev.register(((dev.pointer + n) % 256) as u8),
    decreases n,
{
    if n > 0 {
        lemma_burst(dev, (n - 1) as nat);
    }
}

/// The signed byte that a register holds.
pub open spec fn signed8(byte: int) -> int {
    if byte >= 128 {
        byte - 256
    } else {
        byte
    }
}

/// The signed word that a low and a high byte make.
pub open spec fn signed16(low: int, high: int) -> int {
    if high >= 128 {
        high * 256 + low - 65536
    } else {
        high * 256 + low
    }
}

/// What a driver makes of the count registers: the pressure count from 0x1F
/// and the temperature count from 0x22, twenty bits each, and the humidity
/// count from 0x25, sixteen bits.
pub proof fn lemma_counts_decoded(dev: Bme680)
    requires
        dev.calibrated(),
    ensures
        dev.register(0x1F) * 4096 + dev.register(0x20) * 16 + dev.register(0x21) / 16 == dev.adc_p,
        dev.register(0x22) * 4096 + dev.register(0x23) * 16 + dev.register(0x24) / 16 == dev.adc_t,
        dev.register(0x21) % 16 == 0 && dev.register(0x24) % 16 == 0,
        dev.register(0x25) * 256 + dev.register(0x26) == dev.hum_adc,
{
}

/// What a driver makes of the temperature and pressure calibration: T1 from
/// 0xE9, T2 from 0x8A and T3 at 0x8C; P1 from 0x8E, P2 from 0x90, P3 at 0x92,
/// P4 from 0x94, P5 from 0x96, P7 at 0x98, P6 at 0x99, P8 from 0x9C, P9 from
/// 0x9E and P10 at 0xA0.
pub proof fn lemma_calibration_decoded(dev: Bme680)
    requires
        dev.calibrated(),
    ensures
        dev.register(0xEA) * 256 + dev.register(0xE9) == 26000,
        signed16(dev.register(0x8A), dev.register(0x8B)) == 26000,
        signed8(dev.register(0x8C)) == 3,
        dev.register(0x8F) * 256 + dev.register(0x8E) == 34000,
        signed16(dev.register(0x90), dev.register(0x91)) == -10685,
        signed8(dev.register(0x92)) == 88,
        signed16(dev.register(0x94), dev.register(0x95)) == 20,
        signed16(dev.register(0x96), dev.register(0x97)) == -7,
        signed8(dev.register(0x99)) == 100,
        signed8(dev.register(0x98)) == -20,
        signed16(dev.register(0x9C), dev.register(0x9D)) == 6000,
        signed16(dev.register(0x9E), dev.register(0x9F)) == 5,
        dev.register(0xA0) == 30,
{
}

/// What a driver makes of the humidity calibration: H1 and H2, twelve bits
/// each, from 0xE1 to 0xE3, and H3 to H7 from 0xE4 on.
pub proof fn lemma_humidity_calibration_decoded(dev: Bme680)
    requires
        dev.calibrated(),
    ensures
        dev.register(0xE3) * 16 + dev.register(0xE2) % 16 == 500,
        dev.register(0xE1) * 16 + dev.register(0xE2) / 16 == 200,
        signed8(dev.register(0xE4)) == 0,
        signed8(dev.register(0xE5)) == 30,
        signed8(dev.register(0xE6)) == 20,
        dev.register(0xE7) == 120,
        signed8(dev.register(0xE8)) == 30,
{
}

/// What the formulas make of the counts goes by the calibration that the
/// registers give.
pub proof fn lemma_readings_calibrated(dev: Bme680, count: int, fine: int, t: int)
    requires
        dev.calibrated(),
    ensures
        reading_fine(count) == fine_temp(
            dev.par_t1 as int,
            dev.par_t2 as int,
            dev.par_t3 as int,
            count,
        ),
        reading_temp(count) == centidegrees(reading_fine(count)),
        reading_pressure(fine)(count) == pressure(dev.par_p1 as int, dev.par_p@, fine, count),
        reading_humidity(t, count) == humidity(dev.par_h@, t, count),
{
}

/// Registers outside the calibration and the counts read 0.
pub proof fn lemma_other_registers(dev: Bme680, reg: u8)
    requires
        reg < 0x1F || 0x26 < reg < 0x8A || reg == 0x8D || reg == 0x93 || reg == 0x9A || reg == 0x9B
            || 0xA0 < reg < 0xE1 || reg > 0xEA,
    ensures
        dev.register(reg) == 0,
{
}

/// What a register reads as does not go by the pointer.
proof fn lemma_register_alone(dev: Bme680, pointer: u8, awaiting_pointer: bool, reg: u8)
    ensures
        (Bme680 { pointer, awaiting_pointer, ..dev }).register(reg) == dev.register(reg),
{
}

/// Told a register number and then read, the chip gives the registers from
/// that one on.
pub proof fn lemma_told(dev: Bme680, byte: u8, n: nat)
    ensures
        dev.after_start(false).after_write(byte).after_start(true).after_reads(n).output()
            == dev.register(((byte + n) % 256) as u8),
{
    let pointed = dev.after_start(false).after_write(byte).after_start(true);
    lemma_burst(pointed, n);
    lemma_register_alone(
        dev,
        pointed.pointer,
        pointed.awaiting_pointer,
        ((byte + n) % 256) as u8,
    );
}

/// The first byte of a write phase is the pointer; every byte behind it, and
/// every byte read, moves it on, round all 256.
pub proof fn lemma_pointer(dev: Bme680, reg: u8, byte: u8)
    ensures
        ({
            let told = dev.after_start(false).after_write(reg);
            &&& told.pointer == reg
            &&& told.after_write(byte).pointer as int == (reg + 1) % 256
            &&& told.after_read().pointer as int == (reg + 1) % 256
            &&& told.after_start(true).pointer == reg
        }),
{
}

/// Nothing sent over the bus changes what any register reads as.
pub proof fn lemma_registers_not_writable(dev: Bme680, byte: u8, reg: u8)
    ensures
        dev.after_write(byte).register(reg) == dev.register(reg),
{
}

impl I2cDevice for Bme680 {
    open spec fn valid(&self) -> bool {
        self.calibrated()
    }

    open spec fn on_start(&self, read: bool, after: &Self, ack: bool) -> bool {
        *after == self.after_start(read) && ack
    }

    open spec fn on_write(&self, byte: u8, after: &Self, ack: bool) -> bool {
        *after == self.after_write(byte) && ack
    }

    open spec fn on_read(&self, master_will_ack: bool, after: &Self, byte: u8) -> bool {
        *after == self.after_read() && byte as int == self.output()
    }

    open spec fn on_stop(&self, after: &Self) -> bool {
        *after == *self
    }

    open spec fn can_tick(&self, cck: u32) -> bool {
        true
    }

    open spec fn on_tick(&self, cck: u32, after: &Self) -> bool {
        *after == *self
    }

    fn start(&mut self, read: bool) -> (ack: bool) {
        if !read {
            self.awaiting_pointer = true;
        }
        true
    }

    fn write(&mut self, byte: u8) -> (ack: bool) {
        if self.awaiting_pointer {
            self.pointer = byte;
            self.awaiting_pointer = false;
            return true;
        }
        self.pointer = self.pointer.wrapping_add(1);
        true
    }

    fn read(&mut self, master_will_ack: bool) -> (byte: u8) {
        let byte: u8 = self.register_byte(self.pointer);
        self.pointer = self.pointer.wrapping_add(1);
        byte
    }

    fn stop(&mut self) {
    }

    fn tick(&mut self, cck: u32) {
    }
}

impl Default for Bme680 {
    fn default() -> (dev: Self)
        ensures
            dev.fresh(),
    {
        Self::new()
    }
}

/// New chips hold the same.
pub proof fn lemma_fresh_unique(a: Bme680, b: Bme680)
    requires
        a.fresh(),
        b.fresh(),
    ensures
        a == b,
{
    let (x, y) = (a.adc_t as int, b.adc_t as int);
    if x < y {
        assert(reading_temp(x) >= 2500);
    } else if y < x {
        assert(reading_temp(y) >= 2500);
    }
    let t = reading_temp(a.adc_t as int);
    let (m, n) = (a.hum_adc as int, b.hum_adc as int);
    if m < n {
        assert(reading_humidity(t, m) >= 3_276_800);
    } else if n < m {
        assert(reading_humidity(t, n) >= 3_276_800);
    }
    assert(a.par_p =~= b.par_p) by {
        assert forall|i: int| 0 <= i < a.par_p@.len() implies a.par_p[i] == b.par_p[i] by {
            assert(a.par_p@[i] == b.par_p@[i]);
        }
    }
    assert(a.par_h =~= b.par_h) by {
        assert forall|i: int| 0 <= i < a.par_h@.len() implies a.par_h[i] == b.par_h[i] by {
            assert(a.par_h@[i] == b.par_h@[i]);
        }
    }
}

} // verus!
