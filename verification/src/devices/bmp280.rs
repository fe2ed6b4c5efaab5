//! Bosch BMP280 temperature and pressure sensor. The register space holds
//! what the real chip's does: factory calibration coefficients and raw
//! converter counts. A driver turns counts into degrees and pascals with
//! Bosch's fixed-point formulas; [`Bmp280::set_celsius`] and
//! [`Bmp280::set_pressure_hpa`] search for the counts that those formulas
//! turn back into a wanted reading.
//!
//! Registers: 0x88-0x8D temperature calibration, 0x8E-0x9F pressure
//! calibration (all little-endian), 0xF7-0xF9 pressure count, 0xFA-0xFC
//! temperature count (20 bits, most significant first). Every other
//! register reads 0, and no register can be written.

use crate::i2c::I2cDevice;
use crate::numeric::{
    count20_byte, crossing, divide, fits, high_byte, lemma_bisect_crossing,
    lemma_crossing_is_least, lemma_product_bound, lemma_quotient_bound, lemma_quotient_drop,
    lemma_quotient_monotonic, lemma_quotient_step,
    lemma_shr, lemma_square_bound, low_byte, magnitude, nearest, quotient, search_nearest,
    short_of, take_count20_byte, take_high_byte, take_low_byte,
};
use vstd::prelude::*;

verus! {

/// I2C address of a BMP280 with SDO tied high.
pub const BMP280_ADDRESS: u8 = 0x76;

/// Largest converter count (20 bits).
pub const COUNT_MAX: u32 = 0xFFFFF;

/// The fine temperature that a temperature count stands for.
pub open spec fn fine_temp(t1: int, t2: int, t3: int, count: int) -> int {
    let offset = count / 16 - t1;
    (count / 8 - t1 * 2) * t2 / 2048 + (offset * offset / 4096) * t3 / 16384
}

/// Hundredths of a degree Celsius of a fine temperature.
pub open spec fn centidegrees(fine: int) -> int {
    (fine * 5 + 128) / 256
}

/// The working temperature of the pressure formula.
pub open spec fn working_temp(fine: int) -> int {
    fine / 2 - 64000
}

/// The square of a quarter of the working temperature.
pub open spec fn quarter_square(v: int) -> int {
    (v / 4) * (v / 4)
}

/// The offset of the pressure formula, from P4, P5 and P6.
pub open spec fn pressure_offset(p: Seq<i16>, v: int) -> int {
    ((quarter_square(v) / 2048) * p[4] + v * p[3] * 2) / 4 + p[2] * 65536
}

/// The divisor of the pressure formula, from P1, P2 and P3.
pub open spec fn pressure_divisor(p1: int, p: Seq<i16>, v: int) -> int {
    (32768 + ((p[1] * (quarter_square(v) / 8192)) / 8 + (p[0] * v) / 2) / 262144) * p1 / 32768
}

/// The scaled count of the pressure formula.
pub open spec fn scaled_count(p: Seq<i16>, v: int, count: int) -> int {
    (1_048_576 - count - pressure_offset(p, v) / 4096) * 3125
}

/// The pressure before its final correction.
pub open spec fn coarse_pressure(scaled: int, divisor: int) -> int {
    if scaled < 0x8000_0000 {
        quotient(scaled * 2, divisor)
    } else {
        quotient(scaled, divisor) * 2
    }
}

/// The final correction, from P7, P8 and P9.
pub open spec fn pressure_correction(p: Seq<i16>, coarse: int) -> int {
    ((p[7] * ((coarse / 8) * (coarse / 8) / 8192)) / 4096 + ((coarse / 4) * p[6]) / 8192 + p[5])
        / 16
}

/// The pressure in pascals that a pressure count stands for; 0 where the
/// divisor vanishes.
pub open spec fn pressure(p1: int, p: Seq<i16>, fine: int, count: int) -> int {
    let v = working_temp(fine);
    let divisor = pressure_divisor(p1, p, v);
    if divisor == 0 {
        0
    } else {
        let coarse = coarse_pressure(scaled_count(p, v, count), divisor);
        coarse + pressure_correction(p, coarse)
    }
}

/// No step of the pressure formula leaves the range of its 64-bit
/// arithmetic.
pub open spec fn pressure_computable(p1: int, p: Seq<i16>, fine: int, count: int) -> bool {
    let v = working_temp(fine);
    let divisor = pressure_divisor(p1, p, v);
    let scaled = scaled_count(p, v, count);
    let coarse = coarse_pressure(scaled, divisor);
    &&& fits(v)
    &&& fits(quarter_square(v))
    &&& fits((quarter_square(v) / 2048) * p[4])
    &&& fits(v * p[3] * 2)
    &&& fits((quarter_square(v) / 2048) * p[4] + v * p[3] * 2)
    &&& fits(pressure_offset(p, v))
    &&& fits(p[1] * (quarter_square(v) / 8192))
    &&& fits(p[0] * v)
    &&& fits((p[1] * (quarter_square(v) / 8192)) / 8 + (p[0] * v) / 2)
    &&& fits((32768 + ((p[1] * (quarter_square(v) / 8192)) / 8 + (p[0] * v) / 2) / 262144) * p1)
    &&& divisor != 0 ==> {
        &&& fits(1_048_576 - count - pressure_offset(p, v) / 4096)
        &&& fits(scaled)
        &&& scaled < 0x8000_0000 ==> scaled * 2 > i64::MIN
        &&& fits(coarse)
        &&& fits((coarse / 8) * (coarse / 8))
        &&& fits(p[7] * ((coarse / 8) * (coarse / 8) / 8192))
        &&& fits((coarse / 4) * p[6])
        &&& fits(
            (p[7] * ((coarse / 8) * (coarse / 8) / 8192)) / 4096 + ((coarse / 4) * p[6]) / 8192,
        )
        &&& fits(
            (p[7] * ((coarse / 8) * (coarse / 8) / 8192)) / 4096 + ((coarse / 4) * p[6]) / 8192
                + p[5],
        )
        &&& fits(coarse + pressure_correction(p, coarse))
    }
}

/// Bosch's temperature compensation: the fine temperature, and hundredths
/// of a degree.
pub fn compensate_temp(dig_t1: u16, dig_t2: i16, dig_t3: i16, adc_t: u32) -> (r: (i64, i64))
    ensures
        r.0 as int == fine_temp(dig_t1 as int, dig_t2 as int, dig_t3 as int, adc_t as int),
        r.1 as int == centidegrees(r.0 as int),
{
    let t1: i64 = dig_t1 as i64;
    let t2: i64 = dig_t2 as i64;
    let t3: i64 = dig_t3 as i64;
    let adc: i64 = adc_t as i64;
    proof {
        lemma_shr(adc);
    }
    let coarse: i64 = (adc >> 3) - t1 * 2;
    let offset: i64 = (adc >> 4) - t1;
    proof {
        lemma_product_bound(coarse as int, t2 as int, 0x2000_0000, 0x8000);
        lemma_square_bound(offset as int, 0x1000_0000);
    }
    let slope: i64 = coarse * t2;
    let square: i64 = offset * offset;
    proof {
        lemma_shr(slope);
        lemma_shr(square);
        lemma_product_bound((square >> 12) as int, t3 as int, 0x1000_0000_0000, 0x8000);
    }
    let bend: i64 = (square >> 12) * t3;
    proof {
        lemma_shr(bend);
    }
    let t_fine: i64 = (slope >> 11) + (bend >> 14);
    let scaled: i64 = t_fine * 5 + 128;
    proof {
        lemma_shr(scaled);
    }
    (t_fine, scaled >> 8)
}

/// Bosch's pressure compensation, in pascals.
pub fn compensate_pressure(dig_p1: u16, dig_p: [i16; 8], t_fine: i64, adc_p: u32) -> (pa: i64)
    requires
        pressure_computable(dig_p1 as int, dig_p@, t_fine as int, adc_p as int),
    ensures
        pa as int == pressure(dig_p1 as int, dig_p@, t_fine as int, adc_p as int),
{
    let ghost p = dig_p@;
    let p1: i64 = dig_p1 as i64;
    let p2: i64 = dig_p[0] as i64;
    let p3: i64 = dig_p[1] as i64;
    let p4: i64 = dig_p[2] as i64;
    let p5: i64 = dig_p[3] as i64;
    let p6: i64 = dig_p[4] as i64;
    let p7: i64 = dig_p[5] as i64;
    let p8: i64 = dig_p[6] as i64;
    let p9: i64 = dig_p[7] as i64;
    proof {
        lemma_shr(t_fine);
    }
    let v: i64 = (t_fine >> 1) - 64000;
    proof {
        lemma_shr(v);
    }
    let square: i64 = (v >> 2) * (v >> 2);
    proof {
        lemma_shr(square);
    }
    let bend: i64 = (square >> 11) * p6;
    assert(fits(v * p5)) by {
        assert(fits(v * p[3] * 2));
    }
    let tilt: i64 = v * p5 * 2;
    let sum: i64 = bend + tilt;
    proof {
        lemma_shr(sum);
    }
    let offset: i64 = (sum >> 2) + p4 * 65536;
    assert(offset as int == pressure_offset(p, v as int));
    let curve: i64 = p3 * (square >> 13);
    let slope: i64 = p2 * v;
    proof {
        lemma_shr(curve);
        lemma_shr(slope);
    }
    let gain: i64 = (curve >> 3) + (slope >> 1);
    proof {
        lemma_shr(gain);
    }
    let weighted: i64 = (32768 + (gain >> 18)) * p1;
    proof {
        lemma_shr(weighted);
    }
    let divisor: i64 = weighted >> 15;
    assert(divisor as int == pressure_divisor(p1 as int, p, v as int));
    if divisor == 0 {
        return 0;
    }
    proof {
        lemma_shr(offset);
    }
    let scaled: i64 = (1_048_576 - adc_p as i64 - (offset >> 12)) * 3125;
    let coarse: i64 = if scaled < 0x8000_0000 {
        divide(scaled * 2, divisor)
    } else {
        divide(scaled, divisor) * 2
    };
    assert(coarse as int == coarse_pressure(scaled as int, divisor as int));
    proof {
        lemma_shr(coarse);
    }
    let coarse_square: i64 = (coarse >> 3) * (coarse >> 3);
    proof {
        lemma_shr(coarse_square);
    }
    let bow: i64 = p9 * (coarse_square >> 13);
    let lean: i64 = (coarse >> 2) * p8;
    proof {
        lemma_shr(bow);
        lemma_shr(lean);
    }
    let fix: i64 = (bow >> 12) + (lean >> 13) + p7;
    proof {
        lemma_shr(fix);
    }
    coarse + (fix >> 4)
}

/// The chip: calibration, the two counts, and the register pointer.
pub struct Bmp280 {
    pub dig_t1: u16,
    pub dig_t2: i16,
    pub dig_t3: i16,
    pub dig_p1: u16,
    /// P2 to P9.
    pub dig_p: [i16; 8],
    /// Temperature count, 20 bits.
    pub adc_t: u32,
    /// Pressure count, 20 bits.
    pub adc_p: u32,
    pub pointer: u8,
    pub awaiting_pointer: bool,
}

/// P2 to P9 of this chip.
pub open spec fn dig_p_values() -> Seq<i16> {
    seq![-10685i16, 3024i16, 2855i16, 140i16, -7i16, 15500i16, -14600i16, 6000i16]
}

/// Hundredths of a degree that this chip's calibration makes of a count.
pub open spec fn reading_temp(count: int) -> int {
    centidegrees(reading_fine(count))
}

/// The fine temperature that this chip's calibration makes of a count.
pub open spec fn reading_fine(count: int) -> int {
    fine_temp(27504, 26435, -1000, count)
}

/// Pascals that this chip's calibration makes of a pressure count, at a
/// fine temperature.
pub open spec fn reading_pressure(fine: int) -> spec_fn(int) -> int {
    |count: int| pressure(36477, dig_p_values(), fine, count)
}

/// `count` is the temperature count for `target` hundredths of a degree:
/// the least that reaches it, or the last when none does.
pub open spec fn is_temp_count(target: int, count: int) -> bool {
    &&& 0 <= count <= COUNT_MAX
    &&& forall|x: int| 0 <= x < count ==> #[trigger] reading_temp(x) < target
    &&& count < COUNT_MAX ==> reading_temp(count) >= target
}

/// One count up raises the temperature by nothing or by one hundredth.
pub proof fn lemma_temp_step(count: int)
    requires
        0 <= count < COUNT_MAX,
    ensures
        reading_temp(count) <= reading_temp(count + 1) <= reading_temp(count) + 1,
{
    let d = count / 16 - 27504;
    let e = (count + 1) / 16 - 27504;
    assert(e == d || e == d + 1);
    if e == d + 1 {
        assert((d + 1) * (d + 1) == d * d + 2 * d + 1) by (nonlinear_arith);
    }
}

/// Over the whole range of counts, a higher count never reads colder.
pub proof fn lemma_temp_monotonic(a: int, b: int)
    requires
        0 <= a <= b <= COUNT_MAX,
    ensures
        reading_temp(a) <= reading_temp(b),
    decreases b - a,
{
    if a < b {
        lemma_temp_monotonic(a, b - 1);
        lemma_temp_step(b - 1);
    }
}

/// The fine temperatures that counts can stand for.
pub proof fn lemma_fine_range(count: int)
    requires
        0 <= count <= COUNT_MAX,
    ensures
        -800_000 <= reading_fine(count) <= 1_000_000,
{
    let d = count / 16 - 27504;
    lemma_square_bound(d, 38031);
}

/// The pressure divisor at any fine temperature that a count can stand for.
proof fn lemma_divisor_range(fine: int)
    requires
        -800_000 <= fine <= 1_000_000,
    ensures
        25_000 <= pressure_divisor(36477, dig_p_values(), working_temp(fine)) <= 60_000,
        100_000_000 <= pressure_offset(dig_p_values(), working_temp(fine)) <= 300_000_000,
{
    let v = working_temp(fine);
    lemma_square_bound(v / 4, 116_000);
}

/// What the coarse pressure can be.
proof fn lemma_coarse_range(fine: int, count: int)
    requires
        -800_000 <= fine <= 1_000_000,
        0 <= count <= COUNT_MAX,
    ensures
        ({
            let v = working_temp(fine);
            let d = pressure_divisor(36477, dig_p_values(), v);
            let scaled = scaled_count(dig_p_values(), v, count);
            &&& -229_000_000 <= scaled <= 3_250_000_000
            &&& -20_000 <= coarse_pressure(scaled, d) <= 300_000
        }),
{
    let v = working_temp(fine);
    let d = pressure_divisor(36477, dig_p_values(), v);
    let scaled = scaled_count(dig_p_values(), v, count);
    let offset = pressure_offset(dig_p_values(), v);
    lemma_divisor_range(fine);
    assert(24_000 <= offset / 4096 <= 73_243);
    assert(-229_000_000 <= scaled <= 3_250_000_000);
    lemma_quotient_monotonic(-458_000_000, scaled * 2, d);
    lemma_quotient_bound(-458_000_000, d, 458_000_000, 25_000);
    if scaled < 0x8000_0000 {
        lemma_quotient_bound(scaled * 2, d, 4_294_967_296, 25_000);
    } else {
        lemma_quotient_bound(scaled, d, 3_250_000_000, 25_000);
    }
}

/// With this chip's calibration the pressure formula stays in range at
/// every pair of counts.
pub proof fn lemma_pressure_computable(fine: int, count: int)
    requires
        -800_000 <= fine <= 1_000_000,
        0 <= count <= COUNT_MAX,
    ensures
        pressure_computable(36477, dig_p_values(), fine, count),
{
    let v = working_temp(fine);
    let p = dig_p_values();
    let d = pressure_divisor(36477, p, v);
    let coarse = coarse_pressure(scaled_count(p, v, count), d);
    lemma_square_bound(v / 4, 116_000);
    lemma_divisor_range(fine);
    lemma_coarse_range(fine, count);
    lemma_square_bound(coarse / 8, 125_000);
}

impl Bmp280 {
    /// The calibration is this chip's, and the counts are 20-bit.
    pub open spec fn calibrated(&self) -> bool {
        &&& self.dig_t1 == 27504
        &&& self.dig_t2 == 26435
        &&& self.dig_t3 == -1000
        &&& self.dig_p1 == 36477
        &&& self.dig_p@ == dig_p_values()
        &&& self.adc_t <= COUNT_MAX
        &&& self.adc_p <= COUNT_MAX
    }

    /// The byte that a register reads as.
    pub open spec fn register(self, reg: u8) -> int {
        if reg == 0x88 {
            low_byte(self.dig_t1 as int)
        } else if reg == 0x89 {
            high_byte(self.dig_t1 as int)
        } else if reg == 0x8A {
            low_byte(self.dig_t2 as int)
        } else if reg == 0x8B {
            high_byte(self.dig_t2 as int)
        } else if reg == 0x8C {
            low_byte(self.dig_t3 as int)
        } else if reg == 0x8D {
            high_byte(self.dig_t3 as int)
        } else if reg == 0x8E {
            low_byte(self.dig_p1 as int)
        } else if reg == 0x8F {
            high_byte(self.dig_p1 as int)
        } else if 0x90 <= reg <= 0x9F {
            let value = self.dig_p@[(reg - 0x90) / 2] as int;
            if reg % 2 == 0 {
                low_byte(value)
            } else {
                high_byte(value)
            }
        } else if 0xF7 <= reg <= 0xF9 {
            count20_byte(self.adc_p as int, reg - 0xF7)
        } else if 0xFA <= reg <= 0xFC {
            count20_byte(self.adc_t as int, reg - 0xFA)
        } else {
            0
        }
    }

    /// The byte that the next read gives.
    pub open spec fn output(self) -> int {
        self.register(self.pointer)
    }

    /// The chip after an address phase: a write phase expects a pointer.
    pub open spec fn after_start(self, read: bool) -> Self {
        Bmp280 { awaiting_pointer: self.awaiting_pointer || !read, ..self }
    }

    /// The chip after a byte was sent to it: the pointer, or a write with
    /// no effect but to move the pointer on.
    pub open spec fn after_write(self, byte: u8) -> Self {
        if self.awaiting_pointer {
            Bmp280 { pointer: byte, awaiting_pointer: false, ..self }
        } else {
            self.after_read()
        }
    }

    /// The chip after a byte was read from it.
    pub open spec fn after_read(self) -> Self {
        Bmp280 { pointer: self.pointer.wrapping_add(1), ..self }
    }

    /// The chip after `n` bytes were read from it in a row.
    pub open spec fn after_reads(self, n: nat) -> Self
        decreases n,
    {
        if n == 0 {
            self
        } else {
            self.after_reads((n - 1) as nat).after_read()
        }
    }

    /// A new chip, which senses 25 degrees Celsius and 1013.25 hPa.
    pub open spec fn fresh(&self) -> bool {
        &&& self.calibrated()
        &&& is_temp_count(2500, self.adc_t as int)
        &&& self.adc_p as int == nearest(
            reading_pressure(reading_fine(self.adc_t as int)),
            101_325,
            COUNT_MAX as int,
        )
        &&& self.pointer == 0
        &&& !self.awaiting_pointer
    }

    /// A chip that senses 25 degrees Celsius and 1013.25 hPa.
    pub fn new() -> (dev: Self)
        ensures
            dev.fresh(),
    {
        let mut dev = Bmp280 {
            dig_t1: 27504,
            dig_t2: 26435,
            dig_t3: -1000,
            dig_p1: 36477,
            dig_p: [-10685, 3024, 2855, 140, -7, 15500, -14600, 6000],
            adc_t: 0,
            adc_p: 0,
            pointer: 0,
            awaiting_pointer: false,
        };
        assert(dev.dig_p@ =~= dig_p_values());
        dev.set_celsius(2500);
        dev.set_pressure_hpa(101_325);
        dev
    }

    /// Sets the sensed temperature, in hundredths of a degree Celsius, by
    /// searching for the count that compensates to it.
    pub fn set_celsius(&mut self, centidegrees: i64)
        requires
            old(self).calibrated(),
        ensures
            final(self).calibrated(),
            *final(self) == (Bmp280 { adc_t: final(self).adc_t, ..*old(self) }),
            is_temp_count(centidegrees as int, final(self).adc_t as int),
            reading_temp(0) <= centidegrees <= reading_temp(COUNT_MAX as int) ==> reading_temp(
                final(self).adc_t as int,
            ) == centidegrees,
    {
        let t1: u16 = self.dig_t1;
        let t2: i16 = self.dig_t2;
        let t3: i16 = self.dig_t3;
        let ghost model = |count: int| reading_temp(count);
        let decode = |adc_t: u32| -> (t: i64)
            ensures
                decodes_temp(t1, t2, t3, adc_t, t),
        {
            let (_, t) = compensate_temp(t1, t2, t3, adc_t);
            t
        };
        let count: u32 = search_nearest(COUNT_MAX, centidegrees, decode, Ghost(model));
        proof {
            lemma_temp_count(centidegrees as int);
        }
        self.adc_t = count;
    }

    /// Sets the sensed pressure, in pascals, at the temperature that is set
    /// now, by searching for the count that compensates to it.
    pub fn set_pressure_hpa(&mut self, pascals: i64)
        requires
            old(self).calibrated(),
        ensures
            final(self).calibrated(),
            *final(self) == (Bmp280 { adc_p: final(self).adc_p, ..*old(self) }),
            final(self).adc_p as int == nearest(
                reading_pressure(reading_fine(old(self).adc_t as int)),
                pascals as int,
                COUNT_MAX as int,
            ),
    {
        let t_fine: i64 = compensate_temp(self.dig_t1, self.dig_t2, self.dig_t3, self.adc_t).0;
        let p1: u16 = self.dig_p1;
        let p: [i16; 8] = self.dig_p;
        let ghost model = reading_pressure(t_fine as int);
        proof {
            lemma_fine_range(self.adc_t as int);
            assert forall|x: u32| x <= COUNT_MAX implies #[trigger] pressure_computable(
                p1 as int,
                p@,
                t_fine as int,
                x as int,
            ) by {
                lemma_pressure_computable(t_fine as int, x as int);
            }
        }
        let decode = |adc_p: u32| -> (pa: i64)
            requires
                adc_p <= COUNT_MAX,
            ensures
                decodes_pressure(p1, p, t_fine, adc_p, pa),
        {
            compensate_pressure(p1, p, t_fine, adc_p)
        };
        let count: u32 = search_nearest(COUNT_MAX, pascals, decode, Ghost(model));
        self.adc_p = count;
    }

    fn register_byte(&self, reg: u8) -> (byte: u8)
        ensures
            byte as int == self.register(reg),
    {
        match reg {
            0x88 => take_low_byte(self.dig_t1 as i32),
            0x89 => take_high_byte(self.dig_t1 as i32),
            0x8A => take_low_byte(self.dig_t2 as i32),
            0x8B => take_high_byte(self.dig_t2 as i32),
            0x8C => take_low_byte(self.dig_t3 as i32),
            0x8D => take_high_byte(self.dig_t3 as i32),
            0x8E => take_low_byte(self.dig_p1 as i32),
            0x8F => take_high_byte(self.dig_p1 as i32),
            0x90..=0x9F => {
                let value: i32 = self.dig_p[((reg - 0x90) / 2) as usize] as i32;
                if reg % 2 == 0 {
                    take_low_byte(value)
                } else {
                    take_high_byte(value)
                }
            },
            0xF7..=0xF9 => take_count20_byte(self.adc_p, reg - 0xF7),
            0xFA..=0xFC => take_count20_byte(self.adc_t, reg - 0xFA),
            _ => 0x00,
        }
    }
}

/// `t` is what the temperature formula makes of a count.
spec fn decodes_temp(t1: u16, t2: i16, t3: i16, adc_t: u32, t: i64) -> bool {
    t as int == centidegrees(fine_temp(t1 as int, t2 as int, t3 as int, adc_t as int))
}

/// `pa` is what the pressure formula makes of a count.
spec fn decodes_pressure(p1: u16, p: [i16; 8], fine: i64, adc_p: u32, pa: i64) -> bool {
    pa as int == pressure(p1 as int, p@, fine as int, adc_p as int)
}

/// The count for a temperature is read as that temperature wherever the range
/// of readings holds it; below the range it is the first count, and above it
/// the last.
pub proof fn lemma_temp_count_met(target: int, count: int)
    requires
        is_temp_count(target, count),
    ensures
        reading_temp(0) <= target <= reading_temp(0xFFFFF) ==> reading_temp(count) == target,
        target <= reading_temp(0) ==> count == 0,
        target > reading_temp(0xFFFFF) ==> count == 0xFFFFF,
{
    if count > 0 {
        assert(reading_temp(0) < target);
        assert(reading_temp(count - 1) < target);
        lemma_temp_step(count - 1);
    }
    if count < COUNT_MAX {
        lemma_temp_monotonic(count, COUNT_MAX as int);
    }
}

/// The search over temperature counts ends at the count for the target, and
/// the target is met exactly where the range of readings holds it.
proof fn lemma_temp_count(target: int)
    ensures
        ({
            let count = nearest(|x: int| reading_temp(x), target, COUNT_MAX as int);
            &&& is_temp_count(target, count)
            &&& reading_temp(0) <= target <= reading_temp(COUNT_MAX as int) ==> reading_temp(count)
                == target
        }),
{
    let model = |x: int| reading_temp(x);
    let max = COUNT_MAX as int;
    let c = crossing(model, target, max);
    assert forall|x: int, y: int| 0 <= x <= y <= max implies #[trigger] model(x)
        <= #[trigger] model(y) by {
        lemma_temp_monotonic(x, y);
    }
    lemma_crossing_is_least(model, target, max);
    assert forall|x: int| 0 <= x < c implies #[trigger] reading_temp(x) < target by {
        assert(model(x) < target);
    }
    if c > 0 {
        assert(model(c - 1) < target);
        lemma_temp_step(c - 1);
    }
    if c < max {
        assert(model(c) >= target);
    }
    assert(model(0) == reading_temp(0) && model(max) == reading_temp(max) && model(c)
        == reading_temp(c) && model(c - 1) == reading_temp(c - 1));
}

/// One count changes the coarse pressure by at most 2 Pa.
proof fn lemma_coarse_step(scaled: int, d: int)
    requires
        25_000 <= d,
    ensures
        -2 <= coarse_pressure(scaled, d) - coarse_pressure(scaled - 3125, d) <= 2,
{
    lemma_quotient_step(scaled * 2, 6250, d);
    lemma_quotient_step(scaled, 3125, d);
    if scaled >= 0x8000_0000 > scaled - 3125 {
        let q = scaled / d;
        let r = (scaled * 2) / d;
        assert(2 * q <= r <= 2 * q + 1) by (nonlinear_arith)
            requires
                q == scaled / d,
                r == (scaled * 2) / d,
                25_000 <= d,
        ;
    }
}

/// Two coarse pressures at most 2 Pa apart have corrections at most 4 Pa
/// apart.
proof fn lemma_correction_step(a: int, b: int)
    requires
        -1_000_000 <= a <= 1_000_000,
        -1_000_000 <= b <= 1_000_000,
        a <= b <= a + 2,
    ensures
        -4 <= pressure_correction(dig_p_values(), b) - pressure_correction(dig_p_values(), a) <= 4,
{
    let u = a / 8;
    let w = b / 8;
    assert(w == u || w == u + 1);
    assert((u + 1) * (u + 1) == u * u + 2 * u + 1) by (nonlinear_arith);
}

/// One count changes the pressure reading by at most 6 Pa.
pub proof fn lemma_pressure_step(fine: int, count: int)
    requires
        -800_000 <= fine <= 1_000_000,
        0 <= count < COUNT_MAX,
    ensures
        magnitude(reading_pressure(fine)(count) - reading_pressure(fine)(count + 1)) <= 6,
{
    let p = dig_p_values();
    let v = working_temp(fine);
    let d = pressure_divisor(36477, p, v);
    let scaled = scaled_count(p, v, count);
    lemma_divisor_range(fine);
    lemma_coarse_range(fine, count);
    lemma_coarse_range(fine, count + 1);
    assert(scaled_count(p, v, count + 1) == scaled - 3125);
    lemma_coarse_step(scaled, d);
    let a = coarse_pressure(scaled, d);
    let b = coarse_pressure(scaled - 3125, d);
    if a <= b {
        lemma_correction_step(a, b);
    } else {
        lemma_correction_step(b, a);
    }
}

/// A smaller scaled count has no larger a coarse pressure, within either
/// branch of the formula or half a divisor on; two divisors on it is smaller
/// by two at least.
proof fn lemma_coarse_falls(scaled: int, e: int, d: int)
    requires
        0 <= e,
        25_000 <= d <= 60_000,
    ensures
        scaled < 0x8000_0000 || scaled - e >= 0x8000_0000 || 2 * e >= d ==> coarse_pressure(
            scaled - e,
            d,
        ) <= coarse_pressure(scaled, d),
        e >= 2 * d ==> coarse_pressure(scaled - e, d) + 2 <= coarse_pressure(scaled, d),
{
    let less = scaled - e;
    lemma_quotient_monotonic(less * 2, scaled * 2, d);
    lemma_quotient_monotonic(less, scaled, d);
    if e >= 2 * d {
        lemma_quotient_monotonic(less, scaled - 2 * d, d);
        lemma_quotient_drop(scaled, 2, d);
        lemma_quotient_monotonic(less * 2, scaled * 2 - 4 * d, d);
        lemma_quotient_drop(scaled * 2, 4, d);
    }
    if scaled >= 0x8000_0000 {
        let (q, r) = (scaled / d, (scaled * 2) / d);
        assert(2 * q <= r <= 2 * q + 1) by (nonlinear_arith)
            requires
                q == scaled / d,
                r == (scaled * 2) / d,
                25_000 <= d,
        ;
        if 2 * e >= d {
            lemma_quotient_monotonic(less * 2, scaled * 2 - d, d);
            lemma_quotient_drop(scaled * 2, 1, d);
        }
    }
}

/// A coarse pressure higher by at most 2 Pa has a correction lower by at most
/// one.
proof fn lemma_correction_drop(a: int, b: int)
    requires
        -20_000 <= a <= 300_000,
        -20_000 <= b <= 300_000,
        a <= b <= a + 2,
    ensures
        pressure_correction(dig_p_values(), b) >= pressure_correction(dig_p_values(), a) - 1,
{
    let (u, w) = (a / 8, b / 8);
    assert(w == u || w == u + 1);
    assert((u + 1) * (u + 1) == u * u + 2 * u + 1) by (nonlinear_arith);
    let (x, y) = ((u * u) / 8192, (w * w) / 8192);
    assert(y >= x - 1);
    let (g, h) = ((6000 * x) / 4096, (6000 * y) / 4096);
    assert(h >= g - 2);
    let (j, k) = (((a / 4) * -14600) / 8192, ((b / 4) * -14600) / 8192);
    assert(k >= j - 2);
    assert(pressure_correction(dig_p_values(), a) == (g + j + 15500) / 16);
    assert(pressure_correction(dig_p_values(), b) == (h + k + 15500) / 16);
}

/// A higher coarse pressure, corrected, is no lower; from 2 Pa on it is
/// higher.
proof fn lemma_corrected_rises(a: int, b: int)
    requires
        -20_000 <= a <= b <= 300_000,
    ensures
        a + pressure_correction(dig_p_values(), a) <= b + pressure_correction(dig_p_values(), b),
        a + 2 <= b ==> a + pressure_correction(dig_p_values(), a) < b + pressure_correction(
            dig_p_values(),
            b,
        ),
    decreases b - a,
{
    if a < b {
        lemma_correction_drop(b - 1, b);
        lemma_corrected_rises(a, b - 1);
        if a + 2 <= b {
            lemma_correction_drop(b - 2, b);
            lemma_corrected_rises(a, b - 2);
        }
    }
}

/// At any temperature the pressure falls as its count rises: from 10 counts
/// on it is never higher, and from 64 on it is lower. Within either branch of
/// the formula a higher count never reads higher at all; where a step changes
/// branch, rounding can raise the reading.
pub proof fn lemma_pressure_falls(fine: int, a: int, b: int)
    requires
        -800_000 <= fine <= 1_000_000,
        0 <= a <= b <= COUNT_MAX,
    ensures
        ({
            let read = reading_pressure(fine);
            let v = working_temp(fine);
            &&& a + 10 <= b ==> read(b) <= read(a)
            &&& a + 64 <= b ==> read(b) < read(a)
            &&& scaled_count(dig_p_values(), v, a) < 0x8000_0000 || scaled_count(
                dig_p_values(),
                v,
                b,
            ) >= 0x8000_0000 ==> read(b) <= read(a)
        }),
{
    let p = dig_p_values();
    let v = working_temp(fine);
    let d = pressure_divisor(36477, p, v);
    let (s, e) = (scaled_count(p, v, a), (b - a) * 3125);
    let (high, low) = (coarse_pressure(s, d), coarse_pressure(s - e, d));
    lemma_divisor_range(fine);
    lemma_coarse_range(fine, a);
    lemma_coarse_range(fine, b);
    assert(scaled_count(p, v, b) == s - e);
    lemma_coarse_falls(s, e, d);
    if low <= high {
        lemma_corrected_rises(low, high);
    }
}

/// A pressure that this chip can read at all is met to within 6 Pa by the
/// count that [`Bmp280::set_pressure_hpa`] picks for it.
pub proof fn lemma_pressure_round_trip(adc_t: int, target: int)
    requires
        0 <= adc_t <= COUNT_MAX,
        reading_pressure(reading_fine(adc_t))(COUNT_MAX as int) <= target
            <= reading_pressure(reading_fine(adc_t))(0),
    ensures
        ({
            let read = reading_pressure(reading_fine(adc_t));
            magnitude(read(nearest(read, target, COUNT_MAX as int)) - target) <= 6
        }),
{
    let fine = reading_fine(adc_t);
    let read = reading_pressure(fine);
    let max = COUNT_MAX as int;
    let low = short_of(read, target, max);
    let c = crossing(read, target, max);
    lemma_fine_range(adc_t);
    lemma_bisect_crossing(low, 0, max);
    if c > 0 {
        assert(low(c - 1));
        lemma_pressure_step(fine, c - 1);
    }
    if c < max {
        assert(!low(c));
    }
}

/// Byte `n` of a burst read comes from the register `n` places on, counted
/// round the 256 registers, and reading changes nothing but the
/// pointer.
pub proof fn lemma_burst(dev: Bmp280, n: nat)
    ensures
        dev.after_reads(n) == (Bmp280 {
            pointer: ((dev.pointer + n) % 256) as u8,
            ..dev
        }),
        dev.after_reads(n).output() == dev.register(((dev.pointer + n) % 256) as u8),
    decreases n,
{
    if n > 0 {
        lemma_burst(dev, (n - 1) as nat);
    }
}

/// The unsigned word that a low and a high byte make.
pub open spec fn unsigned16(low: int, high: int) -> int {
    high * 256 + low
}

/// The signed word that a low and a high byte make.
pub open spec fn signed16(low: int, high: int) -> int {
    if high >= 128 {
        high * 256 + low - 65536
    } else {
        high * 256 + low
    }
}

/// What a driver makes of the count registers: the pressure count from 0xF7
/// and the temperature count from 0xFA, twenty bits each.
pub proof fn lemma_counts_decoded(dev: Bmp280)
    requires
        dev.calibrated(),
    ensures
        dev.register(0xF7) * 4096 + dev.register(0xF8) * 16 + dev.register(0xF9) / 16 == dev.adc_p,
        dev.register(0xFA) * 4096 + dev.register(0xFB) * 16 + dev.register(0xFC) / 16 == dev.adc_t,
        dev.register(0xF9) % 16 == 0 && dev.register(0xFC) % 16 == 0,
{
}

/// What a driver makes of the calibration registers: T1 to T3 from 0x88 and P1
/// to P9 from 0x8E, low byte first, T1 and P1 unsigned.
pub proof fn lemma_calibration_decoded(dev: Bmp280)
    requires
        dev.calibrated(),
    ensures
        unsigned16(dev.register(0x88), dev.register(0x89)) == 27504,
        signed16(dev.register(0x8A), dev.register(0x8B)) == 26435,
        signed16(dev.register(0x8C), dev.register(0x8D)) == -1000,
        unsigned16(dev.register(0x8E), dev.register(0x8F)) == 36477,
        signed16(dev.register(0x90), dev.register(0x91)) == -10685,
        signed16(dev.register(0x92), dev.register(0x93)) == 3024,
        signed16(dev.register(0x94), dev.register(0x95)) == 2855,
        signed16(dev.register(0x96), dev.register(0x97)) == 140,
        signed16(dev.register(0x98), dev.register(0x99)) == -7,
        signed16(dev.register(0x9A), dev.register(0x9B)) == 15500,
        signed16(dev.register(0x9C), dev.register(0x9D)) == -14600,
        signed16(dev.register(0x9E), dev.register(0x9F)) == 6000,
{
}

/// What the formulas make of the counts goes by the calibration that the
/// registers give.
pub proof fn lemma_readings_calibrated(dev: Bmp280, count: int, fine: int)
    requires
        dev.calibrated(),
    ensures
        reading_fine(count) == fine_temp(
            dev.dig_t1 as int,
            dev.dig_t2 as int,
            dev.dig_t3 as int,
            count,
        ),
        reading_temp(count) == centidegrees(reading_fine(count)),
        reading_pressure(fine)(count) == pressure(dev.dig_p1 as int, dev.dig_p@, fine, count),
{
}

/// Registers outside the calibration and the counts read 0.
pub proof fn lemma_other_registers(dev: Bmp280, reg: u8)
    requires
        reg < 0x88 || 0x9F < reg < 0xF7 || reg > 0xFC,
    ensures
        dev.register(reg) == 0,
{
}

/// What a register reads as does not go by the pointer.
proof fn lemma_register_alone(dev: Bmp280, pointer: u8, awaiting_pointer: bool, reg: u8)
    ensures
        (Bmp280 { pointer, awaiting_pointer, ..dev }).register(reg) == dev.register(reg),
{
}

/// Told a register number and then read, the chip gives the registers from
/// that one on.
pub proof fn lemma_told(dev: Bmp280, byte: u8, n: nat)
    ensures
        dev.after_start(false).after_write(byte).after_start(true).after_reads(n).output()
            == dev.register(((byte + n) % 256) as u8),
{
    let pointed = dev.after_start(false).after_write(byte).after_start(true);
    lemma_burst(pointed, n);
    lemma_register_alone(
        dev,
        pointed.pointer,
        pointed.awaiting_pointer,
        ((byte + n) % 256) as u8,
    );
}

/// The first byte of a write phase is the pointer; every byte behind it, and
/// every byte read, moves it on, round all 256.
pub proof fn lemma_pointer(dev: Bmp280, reg: u8, byte: u8)
    ensures
        ({
            let told = dev.after_start(false).after_write(reg);
            &&& told.pointer == reg
            &&& told.after_write(byte).pointer as int == (reg + 1) % 256
            &&& told.after_read().pointer as int == (reg + 1) % 256
            &&& told.after_start(true).pointer == reg
        }),
{
}

/// Nothing sent over the bus changes what any register reads as.
pub proof fn lemma_registers_not_writable(dev: Bmp280, byte: u8, reg: u8)
    ensures
        dev.after_write(byte).register(reg) == dev.register(reg),
{
}

impl I2cDevice for Bmp280 {
    open spec fn valid(&self) -> bool {
        self.calibrated()
    }

    open spec fn on_start(&self, read: bool, after: &Self, ack: bool) -> bool {
        *after == self.after_start(read) && ack
    }

    open spec fn on_write(&self, byte: u8, after: &Self, ack: bool) -> bool {
        *after == self.after_write(byte) && ack
    }

    open spec fn on_read(&self, master_will_ack: bool, after: &Self, byte: u8) -> bool {
        *after == self.after_read() && byte as int == self.output()
    }

    open spec fn on_stop(&self, after: &Self) -> bool {
        *after == *self
    }

    open spec fn can_tick(&self, cck: u32) -> bool {
        true
    }

    open spec fn on_tick(&self, cck: u32, after: &Self) -> bool {
        *after == *self
    }

    fn start(&mut self, read: bool) -> (ack: bool) {
        if !read {
            self.awaiting_pointer = true;
        }
        true
    }

    fn write(&mut self, byte: u8) -> (ack: bool) {
        if self.awaiting_pointer {
            self.pointer = byte;
            self.awaiting_pointer = false;
            return true;
        }
        self.pointer = self.pointer.wrapping_add(1);
        true
    }

    fn read(&mut self, master_will_ack: bool) -> (byte: u8) {
        let byte: u8 = self.register_byte(self.pointer);
        self.pointer = self.pointer.wrapping_add(1);
        byte
    }

    fn stop(&mut self) {
    }

    fn tick(&mut self, cck: u32) {
    }
}

impl Default for Bmp280 {
    fn default() -> (dev: Self)
        ensures
            dev.fresh(),
    {
        Self::new()
    }
}

/// New chips hold the same.
pub proof fn lemma_fresh_unique(a: Bmp280, b: Bmp280)
    requires
        a.fresh(),
        b.fresh(),
    ensures
        a == b,
{
    let (x, y) = (a.adc_t as int, b.adc_t as int);
    if x < y {
        assert(reading_temp(x) >= 2500);
    } else if y < x {
        assert(reading_temp(y) >= 2500);
    }
    assert(a.dig_p =~= b.dig_p) by {
        assert forall|i: int| 0 <= i < a.dig_p@.len() implies a.dig_p[i] == b.dig_p[i] by {
            assert(a.dig_p@[i] == b.dig_p@[i]);
        }
    }
}

} // verus!
