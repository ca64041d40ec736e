//! WitMotion attitude sensors on the bus: a WT901C485-family inertial sensor
//! at Modbus slave `0x50` and an HWT101CL single-axis gyro at slave `0x60`.
//! Modbus RTU functions `0x03` (read holding registers) and `0x06` (write
//! single register).
//!
//! The command frames are fixed. The registers hold counts, which are scaled to
//! physical quantities.

use crate::binary64::{
    law_exact_product, lemma_number_of, lemma_parts, places_of, significand_of,
};
use crate::checksum::crc16_modbus;
use crate::division::{
    law_exact_quotient, law_quotient_is_nearly_exact, law_whole_is_exact, whole,
};
use crate::scalar::{law_absolute_drops_sign, Scalar};
use vstd::arithmetic::power2::{lemma_pow2_adds, lemma_pow2_pos, pow2};
use vstd::prelude::*;

verus! {

/// Address of the inertial sensor.
pub const SLAVE_INERTIAL: u8 = 0x50;

/// Modbus function "read holding registers".
pub const FUNC_READ_REGISTERS: u8 = 0x03;

/// Combined acceleration, rate, magnetic field and angle read: 15 registers
/// from `0x34`, with a reply of [`COMBINED_REPLY_LEN`] bytes.
pub const CMD_READ_ACC_GYRO_MAG_ANGLE: [u8; 8] = [0x50, 0x03, 0x00, 0x34, 0x00, 0x0F, 0x49, 0x81];

/// Angle read: 6 registers from `0x3D`.
pub const CMD_READ_ANGLE: [u8; 8] = [0x50, 0x03, 0x00, 0x3D, 0x00, 0x06, 0x59, 0x85];

/// Yaw read of the single-axis gyro. The two trailing bytes are not the CRC of
/// the six before them; the control loops do not send this frame.
pub const CMD_READ_YAW: [u8; 8] = [0x60, 0x03, 0x00, 0x3D, 0x00, 0x06, 0xC3, 0x06];

/// Yaw rate read of the single-axis gyro, with the same stale trailing bytes
/// as [`CMD_READ_YAW`].
pub const CMD_READ_YAW_VELO: [u8; 8] = [0x60, 0x03, 0x00, 0x37, 0x00, 0x03, 0xC5, 0x45];

/// Acceleration read.
pub const CMD_READ_ACC: [u8; 8] = [0x50, 0x03, 0x00, 0x34, 0x00, 0x03, 0x49, 0x84];

/// Angular rate read.
pub const CMD_READ_VELO: [u8; 8] = [0x50, 0x03, 0x00, 0x37, 0x00, 0x03, 0xB9, 0x84];

/// Full register dump of the single-axis gyro.
pub const CMD_READ_ALL_HWT101: [u8; 8] = [0x60, 0x03, 0x00, 0x30, 0x00, 0x30, 0x4D, 0xA0];

/// Unlocks the configuration registers.
pub const CMD_UNLOCK: [u8; 8] = [0x50, 0x06, 0x00, 0x69, 0xB5, 0x88, 0x22, 0xA1];

/// Zeroes the roll and pitch reference.
pub const CMD_CALIBRATE_XY: [u8; 8] = [0x50, 0x06, 0x00, 0x01, 0x00, 0x08, 0xD4, 0x4D];

/// Zeroes the heading.
pub const CMD_CALIBRATE_Z: [u8; 8] = [0x50, 0x06, 0x00, 0x01, 0x00, 0x04, 0xD4, 0x48];

/// Stores the configuration.
pub const CMD_SAVE: [u8; 8] = [0x50, 0x06, 0x00, 0x00, 0x00, 0x00, 0x84, 0x4B];

/// Sets the reply delay.
pub const CMD_MOD_DELAY: [u8; 8] = [0x50, 0x06, 0x00, 0x20, 0x00, 0x08, 0x84, 0x47];

/// Length of the reply to [`CMD_READ_ACC_GYRO_MAG_ANGLE`].
pub const COMBINED_REPLY_LEN: usize = 35;

/// Length of the reply to [`CMD_READ_ANGLE`].
pub const ANGLE_REPLY_LEN: usize = 17;

/// Count that stands for the full scale of a 16-bit channel, 32768, as bits.
pub const COUNT_FULL_SCALE: u64 = 0x40E0_0000_0000_0000;

/// Full scale of the accelerometer, 16 g, as bits.
pub const ACC_FULL_SCALE_G: u64 = 0x4030_0000_0000_0000;

/// Full scale of the gyro, 2000 degrees per second, as bits.
pub const GYRO_FULL_SCALE_DPS: u64 = 0x409F_4000_0000_0000;

/// Angle counts in one degree, 1000, as bits.
pub const ANGLE_COUNTS_PER_DEG: u64 = 0x408F_4000_0000_0000;

/// One combined reading.
#[derive(Debug, Clone, Copy, PartialEq, Eq)]
pub struct ImuFrame {
    /// Acceleration, in g.
    pub acc_g: [Scalar; 3],
    /// Angular rate, in degrees per second.
    pub gyro_dps: [Scalar; 3],
    /// Roll, pitch and yaw, in degrees.
    pub angle_deg: [Scalar; 3],
    /// Magnetic field, unscaled.
    pub mag_raw: [Scalar; 3],
}

/// `count` of a 16-bit channel with the full scale `full`.
pub open spec fn scaled(count: int, full: Scalar) -> Scalar {
    whole(count).over(Scalar { bits: COUNT_FULL_SCALE }).times(full)
}

/// `count` of an angle, in degrees.
pub open spec fn angle_of(count: int) -> Scalar {
    whole(count).over(Scalar { bits: ANGLE_COUNTS_PER_DEG })
}

/// The integer that `pattern`, a two's complement number of `2 * half`
/// patterns, stands for.
pub open spec fn twos_complement(pattern: int, half: int) -> int {
    if pattern >= half {
        pattern - 2 * half
    } else {
        pattern
    }
}

/// The signed 16-bit number whose bytes are `hi`, `lo`.
pub open spec fn int16_of(hi: u8, lo: u8) -> int {
    twos_complement(hi * 0x100 + lo, 0x8000)
}

/// The signed 32-bit number of two 16-bit registers of which the second holds
/// the high word: `b0`, `b1` are the bytes of the low word and `b2`, `b3` those
/// of the high word, each word high byte first.
pub open spec fn int32_swapped_of(b0: u8, b1: u8, b2: u8, b3: u8) -> int {
    twos_complement((b2 * 0x100 + b3) * 0x1_0000 + b0 * 0x100 + b1, 0x8000_0000)
}

/// Channel `i` of three consecutive big-endian 16-bit numbers at `start`.
pub open spec fn int16_channel(bytes: Seq<u8>, start: int, i: int) -> int {
    int16_of(bytes[start + 2 * i], bytes[start + 2 * i + 1])
}

/// Channel `i` of three consecutive word-swapped 32-bit numbers at `start`.
pub open spec fn int32_channel(bytes: Seq<u8>, start: int, i: int) -> int {
    int32_swapped_of(
        bytes[start + 4 * i],
        bytes[start + 4 * i + 1],
        bytes[start + 4 * i + 2],
        bytes[start + 4 * i + 3],
    )
}

/// A combined reply is accepted on its length and slave address alone.
pub open spec fn combined_reply_accepted(bytes: Seq<u8>) -> bool {
    bytes.len() == COMBINED_REPLY_LEN && bytes[0] == SLAVE_INERTIAL
}

/// The quantities that the combined reply `bytes` holds.
pub open spec fn combined_frame(bytes: Seq<u8>) -> ImuFrame {
    let acc = Scalar { bits: ACC_FULL_SCALE_G };
    let gyro = Scalar { bits: GYRO_FULL_SCALE_DPS };
    ImuFrame {
        acc_g: [
            scaled(int16_channel(bytes, 3, 0), acc),
            scaled(int16_channel(bytes, 3, 1), acc),
            scaled(int16_channel(bytes, 3, 2), acc),
        ],
        gyro_dps: [
            scaled(int16_channel(bytes, 9, 0), gyro),
            scaled(int16_channel(bytes, 9, 1), gyro),
            scaled(int16_channel(bytes, 9, 2), gyro),
        ],
        angle_deg: [
            angle_of(int32_channel(bytes, 21, 0)),
            angle_of(int32_channel(bytes, 21, 1)),
            angle_of(int32_channel(bytes, 21, 2)),
        ],
        mag_raw: [
            whole(int16_channel(bytes, 15, 0)),
            whole(int16_channel(bytes, 15, 1)),
            whole(int16_channel(bytes, 15, 2)),
        ],
    }
}

/// What [`parse_combined_reply`] makes of `bytes`.
pub open spec fn combined_reply(bytes: Seq<u8>) -> Option<ImuFrame> {
    if combined_reply_accepted(bytes) {
        Some(combined_frame(bytes))
    } else {
        None
    }
}

/// An angle reply is accepted when its length, address and function match and
/// its last two bytes are the CRC of the others, low byte first.
pub open spec fn angle_reply_accepted(addr: u8, bytes: Seq<u8>) -> bool {
    &&& bytes.len() == ANGLE_REPLY_LEN
    &&& bytes[0] == addr
    &&& bytes[1] == FUNC_READ_REGISTERS
    &&& bytes.skip(15) =~= crate::checksum::crc_wire(crate::checksum::crc16_of(bytes.take(15)))
}

fn int16(hi: u8, lo: u8) -> (v: i16)
    ensures
        v as int == int16_of(hi, lo),
{
    let pattern: i32 = hi as i32 * 0x100 + lo as i32;
    if pattern >= 0x8000 {
        (pattern - 0x1_0000) as i16
    } else {
        pattern as i16
    }
}

fn int32_swapped(b0: u8, b1: u8, b2: u8, b3: u8) -> (v: i32)
    ensures
        v as int == int32_swapped_of(b0, b1, b2, b3),
{
    let low: i64 = b0 as i64 * 0x100 + b1 as i64;
    let high: i64 = b2 as i64 * 0x100 + b3 as i64;
    let pattern: i64 = high * 0x1_0000 + low;
    if pattern >= 0x8000_0000 {
        (pattern - 0x1_0000_0000) as i32
    } else {
        pattern as i32
    }
}

/// Three big-endian signed 16-bit numbers from byte offset `start`.
pub fn read_int16_triplet(bytes: &[u8], start: usize) -> (v: [i16; 3])
    requires
        start + 6 <= bytes@.len(),
    ensures
        forall|i: int| 0 <= i < 3 ==> #[trigger] v[i] == int16_channel(bytes@, start as int, i),
{
    let v: [i16; 3] = [
        int16(bytes[start], bytes[start + 1]),
        int16(bytes[start + 2], bytes[start + 3]),
        int16(bytes[start + 4], bytes[start + 5]),
    ];
    v
}

/// Three word-swapped signed 32-bit numbers from byte offset `start`.
pub fn read_int32_triplet_swapped(bytes: &[u8], start: usize) -> (v: [i32; 3])
    requires
        start + 12 <= bytes@.len(),
    ensures
        forall|i: int| 0 <= i < 3 ==> #[trigger] v[i] == int32_channel(bytes@, start as int, i),
{
    let v: [i32; 3] = [
        int32_swapped(bytes[start], bytes[start + 1], bytes[start + 2], bytes[start + 3]),
        int32_swapped(bytes[start + 4], bytes[start + 5], bytes[start + 6], bytes[start + 7]),
        int32_swapped(bytes[start + 8], bytes[start + 9], bytes[start + 10], bytes[start + 11]),
    ];
    v
}

fn scale_counts(v: [i16; 3], full: Scalar) -> (res: [Scalar; 3])
    ensures
        forall|i: int| 0 <= i < 3 ==> #[trigger] res[i] == scaled(v[i] as int, full),
{
    let count = Scalar { bits: COUNT_FULL_SCALE };
    [
        Scalar::from_integer(v[0] as i64).div(count).mul(full),
        Scalar::from_integer(v[1] as i64).div(count).mul(full),
        Scalar::from_integer(v[2] as i64).div(count).mul(full),
    ]
}

fn scale_angles(v: [i32; 3]) -> (res: [Scalar; 3])
    ensures
        forall|i: int| 0 <= i < 3 ==> #[trigger] res[i] == angle_of(v[i] as int),
{
    let count = Scalar { bits: ANGLE_COUNTS_PER_DEG };
    [
        Scalar::from_integer(v[0] as i64).div(count),
        Scalar::from_integer(v[1] as i64).div(count),
        Scalar::from_integer(v[2] as i64).div(count),
    ]
}

/// Decodes the reply to [`CMD_READ_ACC_GYRO_MAG_ANGLE`]. The trailing CRC of
/// this reply is not looked at.
pub fn parse_combined_reply(bytes: &[u8]) -> (res: Option<ImuFrame>)
    ensures
        res == combined_reply(bytes@),
{
    if bytes.len() != COMBINED_REPLY_LEN || bytes[0] != SLAVE_INERTIAL {
        return None;
    }
    let acc = read_int16_triplet(bytes, 3);
    let gyro = read_int16_triplet(bytes, 9);
    let mag = read_int16_triplet(bytes, 15);
    let angle = read_int32_triplet_swapped(bytes, 21);
    let frame = ImuFrame {
        acc_g: scale_counts(acc, Scalar { bits: ACC_FULL_SCALE_G }),
        gyro_dps: scale_counts(gyro, Scalar { bits: GYRO_FULL_SCALE_DPS }),
        angle_deg: scale_angles(angle),
        mag_raw: [
            Scalar::from_integer(mag[0] as i64),
            Scalar::from_integer(mag[1] as i64),
            Scalar::from_integer(mag[2] as i64),
        ],
    };
    proof {
        let spec_frame = combined_frame(bytes@);
        assert(acc[0] == int16_channel(bytes@, 3, 0) && acc[1] == int16_channel(bytes@, 3, 1)
            && acc[2] == int16_channel(bytes@, 3, 2));
        assert(gyro[0] == int16_channel(bytes@, 9, 0) && gyro[1] == int16_channel(bytes@, 9, 1)
            && gyro[2] == int16_channel(bytes@, 9, 2));
        assert(mag[0] == int16_channel(bytes@, 15, 0) && mag[1] == int16_channel(bytes@, 15, 1)
            && mag[2] == int16_channel(bytes@, 15, 2));
        assert(angle[0] == int32_channel(bytes@, 21, 0) && angle[1] == int32_channel(bytes@, 21, 1)
            && angle[2] == int32_channel(bytes@, 21, 2));
        assert(frame.acc_g =~= spec_frame.acc_g);
        assert(frame.gyro_dps =~= spec_frame.gyro_dps);
        assert(frame.angle_deg =~= spec_frame.angle_deg);
        assert(frame.mag_raw =~= spec_frame.mag_raw);
    }
    Some(frame)
}

/// Decodes the reply to [`CMD_READ_ANGLE`] from slave `addr`, after checking
/// its CRC.
pub fn parse_angle_only_reply(addr: u8, bytes: &[u8]) -> (res: Option<[Scalar; 3]>)
    ensures
        res is Some <==> angle_reply_accepted(addr, bytes@),
        res matches Some(angle) ==> forall|i: int|
            0 <= i < 3 ==> #[trigger] angle[i] == angle_of(int32_channel(bytes@, 3, i)),
{
    if bytes.len() != ANGLE_REPLY_LEN || bytes[0] != addr || bytes[1] != FUNC_READ_REGISTERS {
        return None;
    }
    let crc: u16 = crc16_modbus(&bytes[0..15]);
    proof {
        assert(bytes@.subrange(0, 15) =~= bytes@.take(15));
        let wire = crate::checksum::crc_wire(crc);
        assert(bytes@.skip(15)[0] == bytes@[15] && bytes@.skip(15)[1] == bytes@[16]);
        assert(wire[0] == crc % 256 && wire[1] == crc / 256);
    }
    if bytes[15] as u16 != crc % 256 || bytes[16] as u16 != crc / 256 {
        return None;
    }
    let counts = read_int32_triplet_swapped(bytes, 3);
    let angle = scale_angles(counts);
    assert forall|i: int| 0 <= i < 3 implies #[trigger] angle[i] == angle_of(
        int32_channel(bytes@, 3, i),
    ) by {
        assert(counts[i] == int32_channel(bytes@, 3, i));
    }
    Some(angle)
}

/// The word-swapped layout holds every signed 32-bit number: the bytes of `v`,
/// low word first and each word high byte first, decode to `v`.
pub proof fn law_swapped_layout_round_trips(v: i32)
    ensures
        ({
            let pattern = if v < 0 { v + 0x1_0000_0000 } else { v as int };
            int32_swapped_of(
                (pattern / 0x100 % 0x100) as u8,
                (pattern % 0x100) as u8,
                (pattern / 0x100_0000) as u8,
                (pattern / 0x1_0000 % 0x100) as u8,
            ) == v
        }),
{
}

/// An angle reply that was accepted is refused once any one byte of it is
/// replaced by a different one.
pub proof fn law_angle_reply_damage_is_refused(addr: u8, bytes: Seq<u8>, at: int, byte: u8)
    requires
        angle_reply_accepted(addr, bytes),
        0 <= at < bytes.len(),
        byte != bytes[at],
    ensures
        !angle_reply_accepted(addr, bytes.update(at, byte)),
{
    let damaged = bytes.update(at, byte);
    if at >= 15 {
        assert(damaged.take(15) =~= bytes.take(15));
        assert(damaged.skip(15)[at - 15] == byte);
        assert(bytes.skip(15)[at - 15] == bytes[at]);
    } else {
        assert(damaged.take(15) =~= bytes.take(15).update(at, byte));
        assert(damaged.skip(15) =~= bytes.skip(15));
        crate::checksum::law_crc16_finds_single_byte_errors(bytes.take(15), at, byte);
        let a = crate::checksum::crc16_of(bytes.take(15));
        let b = crate::checksum::crc16_of(damaged.take(15));
        let wa = crate::checksum::crc_wire(a);
        let wb = crate::checksum::crc_wire(b);
        assert(wa[0] == a % 256 && wa[1] == a / 256);
        assert(wb[0] == b % 256 && wb[1] == b / 256);
    }
}

/// The values of the scales.
proof fn lemma_scales()
    ensures
        (Scalar { bits: COUNT_FULL_SCALE }).units() == 32768 * pow2(1074),
        (Scalar { bits: ACC_FULL_SCALE_G }).units() == 16 * pow2(1074),
        (Scalar { bits: GYRO_FULL_SCALE_DPS }).units() == 2000 * pow2(1074),
        (Scalar { bits: ANGLE_COUNTS_PER_DEG }).units() == 1000 * pow2(1074),
{
    lemma_parts(COUNT_FULL_SCALE);
    lemma_parts(ACC_FULL_SCALE_G);
    lemma_parts(GYRO_FULL_SCALE_DPS);
    lemma_parts(ANGLE_COUNTS_PER_DEG);
    vstd::arithmetic::power2::lemma2_to64();
    vstd::arithmetic::power2::lemma2_to64_rest();
    lemma_pow2_adds(37, 1037);
    lemma_pow2_adds(48, 1026);
    lemma_pow2_adds(42, 1032);
    lemma_pow2_adds(43, 1031);
    assert(significand_of(COUNT_FULL_SCALE) == 32768 * 0x20_0000_0000u64 && places_of(
        COUNT_FULL_SCALE,
    ) == 1037);
    assert(significand_of(ACC_FULL_SCALE_G) == 16 * 0x1_0000_0000_0000u64 && places_of(
        ACC_FULL_SCALE_G,
    ) == 1026);
    assert(significand_of(GYRO_FULL_SCALE_DPS) == 2000 * 0x400_0000_0000u64 && places_of(
        GYRO_FULL_SCALE_DPS,
    ) == 1032);
    assert(significand_of(ANGLE_COUNTS_PER_DEG) == 1000 * 0x800_0000_0000u64 && places_of(
        ANGLE_COUNTS_PER_DEG,
    ) == 1031);
    lemma_scaled_up(32768, 0x20_0000_0000, pow2(1037) as int);
    lemma_scaled_up(16, 0x1_0000_0000_0000, pow2(1026) as int);
    lemma_scaled_up(2000, 0x400_0000_0000, pow2(1032) as int);
    lemma_scaled_up(1000, 0x800_0000_0000, pow2(1031) as int);
}

proof fn lemma_scaled_up(n: int, a: int, b: int)
    ensures
        (n * a) * b == n * (a * b),
{
    assert((n * a) * b == n * (a * b)) by (nonlinear_arith);
}

/// `count` out of 32768 of a full scale of `full`, in units: it is exact.
proof fn lemma_scaled_is_exact(count: int, scale: Scalar, full: int)
    requires
        -0x8000 <= count < 0x8000,
        0 < full <= 2000,
        scale.finite(),
        scale.units() == full * pow2(1074),
    ensures
        32768 * scaled(count, scale).units() == (count * full) * pow2(1074),
{
    lemma_scales();
    lemma_pow2_pos(1074);
    let one = pow2(1074) as int;
    let range = Scalar { bits: COUNT_FULL_SCALE };
    assert(range.finite());
    law_whole_is_exact(count);
    vstd::arithmetic::power2::lemma2_to64();
    lemma_pow2_adds(15, 1059);
    let step = pow2(1059) as int;
    let y = lemma_number_of(count, 1059);
    assert((count * step) * (32768 * one) == (count * one) * one) by (nonlinear_arith)
        requires
            one == 32768 * step,
    ;
    law_exact_quotient(whole(count), range, y);
    let q = whole(count).over(range);
    assert(-2 * 0x10_0000_0000_0000 < count * full < 2 * 0x10_0000_0000_0000) by (nonlinear_arith)
        requires
            -0x8000 <= count < 0x8000,
            0 < full <= 2000,
    ;
    let z = lemma_number_of(count * full, 1059);
    assert(((count * full) * step) * one == (count * step) * (full * one)) by (nonlinear_arith);
    law_exact_product(q, scale, z);
    assert(32768 * ((count * full) * step) == (count * full) * (32768 * step)) by (nonlinear_arith);
}

/// `count` thousandths of a degree, in units: within 2^-31 degrees.
proof fn lemma_angle_is_near(count: int)
    requires
        -0x8000_0000 <= count < 0x8000_0000,
    ensures
        angle_of(count).finite(),
        -1000 * pow2(1043) <= 1000 * angle_of(count).units() - count * pow2(1074) <= 1000 * pow2(1043),
{
    lemma_scales();
    lemma_pow2_pos(1074);
    lemma_pow2_pos(1043);
    let one = pow2(1074) as int;
    let range = Scalar { bits: ANGLE_COUNTS_PER_DEG };
    assert(range.finite());
    law_whole_is_exact(count);
    let a = whole(count);
    law_absolute_drops_sign(a);
    law_absolute_drops_sign(range);
    vstd::arithmetic::power2::lemma2_to64();
    lemma_pow2_adds(22, 1074);
    let size = a.absolute().units();
    let top = pow2(1096) as int;
    assert(count * one <= 0x8000_0000 * one && -(0x8000_0000 * one) <= count * one)
        by (nonlinear_arith)
        requires
            -0x8000_0000 <= count < 0x8000_0000,
            one > 0,
    ;
    assert(size * one < top * (1000 * one)) by (nonlinear_arith)
        requires
            0 <= size <= 0x8000_0000 * one,
            top == 0x40_0000 * one,
            one > 0,
    ;
    law_quotient_is_nearly_exact(a, range, 1043);
    let (u, w) = (a.over(range).units(), pow2(1043) as int);
    assert(-(1000 * w) <= 1000 * u - count * one <= 1000 * w) by (nonlinear_arith)
        requires
            -(w * (1000 * one)) <= 2 * (u * (1000 * one) - (count * one) * one) <= w * (1000 * one),
            w > 0,
            one > 0,
    ;
}

/// The whole reply reads back: each of its nine 16-bit numbers and three 32-bit angles
/// is channel `i` of its own quantity, at its place on the wire. Accelerations are 16
/// g for 32768 counts and rates 2000 degrees per second, exactly; the field is
/// unscaled; an angle is a thousandth of a degree for a count, within 2^-31 degrees.
pub proof fn law_combined_reply_reads_back(
    bytes: Seq<u8>,
    acc: Seq<int>,
    gyro: Seq<int>,
    mag: Seq<int>,
    angle: Seq<int>,
    i: int,
)
    requires
        bytes.len() == 35,
        bytes[0] == 0x50,
        0 <= i < 3,
        -0x8000 <= acc[i] < 0x8000,
        -0x8000 <= gyro[i] < 0x8000,
        -0x8000 <= mag[i] < 0x8000,
        -0x8000_0000 <= angle[i] < 0x8000_0000,
        bytes[3 + 2 * i] * 0x100 + bytes[4 + 2 * i] == acc[i] + if acc[i] < 0 {
            0x1_0000int
        } else {
            0
        },
        bytes[9 + 2 * i] * 0x100 + bytes[10 + 2 * i] == gyro[i] + if gyro[i] < 0 {
            0x1_0000int
        } else {
            0
        },
        bytes[15 + 2 * i] * 0x100 + bytes[16 + 2 * i] == mag[i] + if mag[i] < 0 {
            0x1_0000int
        } else {
            0
        },
        bytes[23 + 4 * i] * 0x100_0000 + bytes[24 + 4 * i] * 0x1_0000 + bytes[21 + 4 * i] * 0x100
            + bytes[22 + 4 * i] == angle[i] + if angle[i] < 0 {
            0x1_0000_0000int
        } else {
            0
        },
    ensures
        combined_reply(bytes) is Some,
        ({
            let frame = combined_reply(bytes)->0;
            &&& 32768 * frame.acc_g[i].units() == (acc[i] * 16) * pow2(1074)
            &&& 32768 * frame.gyro_dps[i].units() == (gyro[i] * 2000) * pow2(1074)
            &&& frame.mag_raw[i].units() == mag[i] * pow2(1074)
            &&& frame.angle_deg[i].finite()
            &&& -1000 * pow2(1043) <= 1000 * frame.angle_deg[i].units() - angle[i] * pow2(1074)
                <= 1000 * pow2(1043)
        }),
{
    lemma_scales();
    assert(int16_channel(bytes, 3, i) == acc[i]);
    assert(int16_channel(bytes, 9, i) == gyro[i]);
    assert(int16_channel(bytes, 15, i) == mag[i]);
    assert(int32_channel(bytes, 21, i) == angle[i]);
    lemma_scaled_is_exact(acc[i], Scalar { bits: ACC_FULL_SCALE_G }, 16);
    lemma_scaled_is_exact(gyro[i], Scalar { bits: GYRO_FULL_SCALE_DPS }, 2000);
    law_whole_is_exact(mag[i]);
    lemma_angle_is_near(angle[i]);
}

/// A reply to a combined reading counts exactly if it has 35 bytes and comes from the
/// inertial sensor.
pub proof fn law_combined_reply_counts(bytes: Seq<u8>)
    ensures
        combined_reply(bytes) is Some <==> bytes.len() == 35 && bytes[0] == 0x50,
{
}

/// An angle reply reads back: each of its three 32-bit numbers is the angle `i`, a
/// thousandth of a degree for a count, within 2^-31 degrees.
pub proof fn law_angle_counts_read_back(bytes: Seq<u8>, count: int, i: int)
    requires
        bytes.len() == 17,
        0 <= i < 3,
        -0x8000_0000 <= count < 0x8000_0000,
        bytes[5 + 4 * i] * 0x100_0000 + bytes[6 + 4 * i] * 0x1_0000 + bytes[3 + 4 * i] * 0x100
            + bytes[4 + 4 * i] == count + if count < 0 {
            0x1_0000_0000int
        } else {
            0
        },
    ensures
        -1000 * pow2(1043) <= 1000 * angle_of(int32_channel(bytes, 3, i)).units() - count * pow2(
            1074,
        ) <= 1000 * pow2(1043),
{
    assert(int32_channel(bytes, 3, i) == count);
    lemma_angle_is_near(count);
}

/// An angle reply counts exactly if it has 17 bytes, names its sensor and the register
/// read, and ends with the CRC of all bytes before it, the low byte first.
pub proof fn law_angle_reply_counts(addr: u8, bytes: Seq<u8>)
    ensures
        angle_reply_accepted(addr, bytes) <==> bytes.len() == 17 && bytes[0] == addr && bytes[1]
            == 0x03 && bytes[15] + 256 * bytes[16] == crate::checksum::crc16_of(bytes.take(15)),
{
    if bytes.len() == 17 {
        let crc = crate::checksum::crc16_of(bytes.take(15));
        let (tail, wire) = (bytes.skip(15), crate::checksum::crc_wire(crc));
        assert(tail.len() == 2 && tail[0] == bytes[15] && tail[1] == bytes[16]);
        assert(wire[0] == crc % 256 && wire[1] == crc / 256);
        if bytes[15] + 256 * bytes[16] == crc {
            assert(tail =~= wire);
        }
        if tail =~= wire {
            assert(tail[0] == wire[0] && tail[1] == wire[1]);
        }
    }
}

} // verus!
