//! MKS closed-loop stepper drivers: four axes at addresses 1 to 4.
//!
//! Requests start with [`TX_HEADER`], replies with [`RX_HEADER`]; both end with
//! a checksum-8. Distances are in metres, speeds in revolutions per minute.

use crate::binary64::{
    apart, law_exact_product, law_product_is_nearest, law_product_is_nearly_exact,
    law_special_sums_and_products, law_sum_is_nearly_exact, lemma_parts, lemma_powers, places,
    places_of, power_of_two, significand, significand_of,
};
use crate::checksum::{sealed, sum8, sum8_of};
use crate::division::{
    law_nearest_integer_is_near, law_quotient_is_nearly_exact, law_special_quotients,
    law_whole_is_exact, lemma_common_factor, limited_to_i32, whole,
};
use crate::scalar::{
    law_absolute_drops_sign, law_comparison_goes_by_value, law_negation_reverses_value,
    lemma_magnitude_order, magnitude_units, Scalar, SIGN_BIT,
};
use vstd::arithmetic::power2::{
    lemma_pow2_adds, lemma_pow2_pos, lemma_pow2_strictly_increases, lemma_pow2_unfold, pow2,
};
use vstd::prelude::*;

verus! {

pub const TX_HEADER: u8 = 0xFA;

pub const RX_HEADER: u8 = 0xFB;

pub const FUNC_HOME: u8 = 0x91;

pub const FUNC_READ_ENCODER: u8 = 0x30;

pub const FUNC_READ_ERROR: u8 = 0x39;

pub const FUNC_READ_RPM: u8 = 0x32;

pub const FUNC_IS_MOVING: u8 = 0xF1;

pub const FUNC_RUN_ABS: u8 = 0xF5;

pub const FUNC_RUN_REL: u8 = 0xF4;

/// Travel of a mass in one motor revolution, 0.004 m, as bits.
pub const PITCH_M_PER_REV: u64 = 0x3F70_624D_D2F1_A9FC;

/// Motor ticks in one revolution, 16384, as bits.
pub const TICKS_PER_REV: u64 = 0x40D0_0000_0000_0000;

/// The speed, in revolutions per minute, from which on the speed field does not
/// grow, 187.5, as bits.
pub const SPEED_LIMIT: u64 = 0x4067_7000_0000_0000;

/// Largest value of the speed field.
pub const SPEED_MAX: i64 = 3000;

/// Degrees in an encoder tick, of which 16383 are half a turn, as bits.
pub const ENCODER_TICKS_TO_DEG: u64 = 0x3F86_805A_0168_05A0;

/// Travel of a mass in one degree of the encoder, in metres, as bits: a turn is 4
/// mm.
pub const ENCODER_TOTAL_ANGLE_TO_M: u64 = 0x3EE7_4D3B_7BA7_5828;

/// Degrees in a turn, as bits.
pub const TURN_DEG: u64 = 0x4076_8000_0000_0000;

/// Position error ticks in one degree, of which 51200 are a turn, as bits.
pub const ERROR_TICKS_PER_DEG: u64 = 0x4061_C71C_71C7_1C72;

/// Lengths of the replies.
pub const ENCODER_REPLY_LEN: usize = 10;

pub const ERROR_REPLY_LEN: usize = 8;

pub const RPM_REPLY_LEN: usize = 6;

pub const IS_MOVING_REPLY_LEN: usize = 5;

/// `body` followed by its checksum-8.
pub open spec fn seal(body: Seq<u8>) -> Seq<u8> {
    body.push(sum8_of(body) as u8)
}

/// The four-byte request `func` to axis `addr`.
pub open spec fn request_frame(addr: u8, func: u8) -> Seq<u8> {
    seal(seq![TX_HEADER, addr, func])
}

/// `x` limited to `low..=high`.
pub open spec fn limited(x: int, low: int, high: int) -> int {
    if x < low {
        low
    } else if x > high {
        high
    } else {
        x
    }
}

/// The speed field for `spd` revolutions per minute: sixteenths of a revolution,
/// rounded to a whole number with halves away from zero, within
/// `0..=SPEED_MAX`. What is not a number is standstill.
pub open spec fn speed_field(spd: Scalar) -> int {
    if spd.nan() {
        0
    } else {
        let one = pow2(1074) as int;
        limited((32 * spd.units() + one) / (2 * one), 0, SPEED_MAX as int)
    }
}

/// The position field for a distance of `dist_m` metres: every axis counts
/// backwards, in the nearest whole number of ticks. What does not fit in 32 bits
/// saturates; what is not a number is zero.
pub open spec fn position_field(dist_m: Scalar) -> int {
    let ticks = dist_m.negated().over(Scalar { bits: PITCH_M_PER_REV }).times(
        Scalar { bits: TICKS_PER_REV },
    );
    if ticks.nan() {
        0
    } else {
        limited_to_i32(ticks.nearest_integer())
    }
}

/// The 32-bit two's complement pattern of `v`.
pub open spec fn pattern32(v: int) -> int {
    if v < 0 {
        v + 0x1_0000_0000
    } else {
        v
    }
}

/// The unsigned number whose four bytes are `b0` to `b3`, high byte first.
pub open spec fn be32(b0: u8, b1: u8, b2: u8, b3: u8) -> int {
    ((b0 * 0x100 + b1) * 0x100 + b2) * 0x100 + b3
}

/// The bytes of a move before the checksum: speed, acceleration and position
/// fields, each high byte first.
pub open spec fn run_body(func: u8, addr: u8, dist_m: Scalar, spd: Scalar, acc: u8) -> Seq<u8> {
    let speed = speed_field(spd);
    let pattern = pattern32(position_field(dist_m));
    seq![
        TX_HEADER,
        addr,
        func,
        (speed / 0x100) as u8,
        (speed % 0x100) as u8,
        acc,
        (pattern / 0x100_0000) as u8,
        (pattern / 0x1_0000 % 0x100) as u8,
        (pattern / 0x100 % 0x100) as u8,
        (pattern % 0x100) as u8,
    ]
}

/// The eleven-byte move request `func` to axis `addr`.
pub open spec fn run_frame(func: u8, addr: u8, dist_m: Scalar, spd: Scalar, acc: u8) -> Seq<u8> {
    seal(run_body(func, addr, dist_m, spd, acc))
}

/// The position, in metres, of an encoder that has made `rotation` turns and stands
/// at `ticks` within the turn. A position that is not strictly within the turn does
/// not count, and the turns are then counted as degrees.
pub open spec fn encoder_position(rotation: int, ticks: int) -> Scalar {
    let turn = Scalar { bits: TURN_DEG };
    let degree = whole(ticks).times(Scalar { bits: ENCODER_TICKS_TO_DEG });
    let total = if (Scalar { bits: 0 }).lt(degree) && degree.lt(turn) {
        whole(rotation).times(turn).plus(degree)
    } else {
        whole(rotation)
    };
    total.times(Scalar { bits: ENCODER_TOTAL_ANGLE_TO_M })
}

/// The position that the reply `bytes` holds. Turns are counted down from the
/// largest 32-bit number; a zero carry stands for none.
pub open spec fn encoder_reading(bytes: Seq<u8>) -> Scalar {
    let carry = be32(bytes[3], bytes[4], bytes[5], bytes[6]);
    encoder_position(
        if carry > 0 {
            0xFFFF_FFFF - carry
        } else {
            0
        },
        bytes[7] * 0x100 + bytes[8],
    )
}

/// An encoder reply is accepted when it has the right length, is sealed, and at
/// least one of header, address and function is right.
pub open spec fn encoder_reply_accepted(addr: u8, bytes: Seq<u8>) -> bool {
    &&& bytes.len() == ENCODER_REPLY_LEN
    &&& bytes[0] == RX_HEADER || bytes[1] == addr || bytes[2] == FUNC_READ_ENCODER
    &&& sealed(bytes)
}

/// What [`parse_encoder_reply`] makes of `bytes`.
pub open spec fn encoder_reply(addr: u8, bytes: Seq<u8>) -> Option<Scalar> {
    if encoder_reply_accepted(addr, bytes) {
        Some(encoder_reading(bytes))
    } else {
        None
    }
}

/// The other replies are accepted when length, header, address and function all
/// match and they are sealed.
pub open spec fn reply_accepted(addr: u8, func: u8, len: int, bytes: Seq<u8>) -> bool {
    &&& bytes.len() == len
    &&& bytes[0] == RX_HEADER
    &&& bytes[1] == addr
    &&& bytes[2] == func
    &&& sealed(bytes)
}

/// What [`parse_error_reply`] makes of `bytes`.
pub open spec fn error_reply(addr: u8, bytes: Seq<u8>) -> Option<Scalar> {
    if reply_accepted(addr, FUNC_READ_ERROR, ERROR_REPLY_LEN as int, bytes) {
        Some(
            whole(
                crate::imu::twos_complement(
                    be32(bytes[3], bytes[4], bytes[5], bytes[6]),
                    0x8000_0000,
                ),
            ).over(Scalar { bits: ERROR_TICKS_PER_DEG }),
        )
    } else {
        None
    }
}

/// What [`parse_rpm_reply`] makes of `bytes`.
pub open spec fn rpm_reply(addr: u8, bytes: Seq<u8>) -> Option<Scalar> {
    if reply_accepted(addr, FUNC_READ_RPM, RPM_REPLY_LEN as int, bytes) {
        Some(whole(crate::imu::int16_of(bytes[3], bytes[4])))
    } else {
        None
    }
}

/// What [`parse_is_moving_reply`] makes of `bytes`: header and function decide,
/// neither address nor checksum is looked at, and status 1 means stopped.
pub open spec fn is_moving_reply(bytes: Seq<u8>) -> Option<bool> {
    if bytes.len() >= 4 && bytes[0] == RX_HEADER && bytes[2] == FUNC_IS_MOVING {
        Some(bytes[3] != 1)
    } else {
        None
    }
}

/// The request `[TX_HEADER, addr, func, checksum]`.
pub fn build_simple(addr: u8, func: u8) -> (frame: [u8; 4])
    ensures
        frame@ == request_frame(addr, func),
{
    let body: [u8; 3] = [TX_HEADER, addr, func];
    let sum: u8 = sum8(body.as_slice());
    assert(body@ =~= seq![TX_HEADER, addr, func]);
    let frame: [u8; 4] = [TX_HEADER, addr, func, sum];
    assert(frame@ =~= request_frame(addr, func));
    frame
}

/// Request to seek the stored home position.
pub fn build_home(addr: u8) -> (frame: [u8; 4])
    ensures
        frame@ == request_frame(addr, FUNC_HOME),
{
    build_simple(addr, FUNC_HOME)
}

/// Request for the encoder position.
pub fn build_read_encoder(addr: u8) -> (frame: [u8; 4])
    ensures
        frame@ == request_frame(addr, FUNC_READ_ENCODER),
{
    build_simple(addr, FUNC_READ_ENCODER)
}

/// Request for the position error.
pub fn build_read_error(addr: u8) -> (frame: [u8; 4])
    ensures
        frame@ == request_frame(addr, FUNC_READ_ERROR),
{
    build_simple(addr, FUNC_READ_ERROR)
}

/// Request for the motor speed.
pub fn build_read_rpm(addr: u8) -> (frame: [u8; 4])
    ensures
        frame@ == request_frame(addr, FUNC_READ_RPM),
{
    build_simple(addr, FUNC_READ_RPM)
}

/// Request for the moving status.
pub fn build_is_moving(addr: u8) -> (frame: [u8; 4])
    ensures
        frame@ == request_frame(addr, FUNC_IS_MOVING),
{
    build_simple(addr, FUNC_IS_MOVING)
}

/// The speed field for `spd` revolutions per minute: see [`speed_field`].
pub fn speed_steps(spd: Scalar) -> (steps: i64)
    ensures
        steps == speed_field(spd),
        0 <= steps <= SPEED_MAX,
{
    if spd.is_nan() {
        return 0;
    }
    let ghost one = pow2(1074) as int;
    let ghost scaled = 32 * spd.units() + one;
    proof {
        lemma_pow2_pos(1074);
    }
    if spd.less(Scalar { bits: 0 }) {
        proof {
            assert(magnitude_units(0) == 0);
            assert(scaled / (2 * one) <= 0) by (nonlinear_arith)
                requires
                    scaled <= one,
                    one > 0,
            ;
        }
        return 0;
    }
    if !spd.less(Scalar { bits: SPEED_LIMIT }) {
        proof {
            lemma_speed_limit();
            assert(scaled / (2 * one) >= 3000) by (nonlinear_arith)
                requires
                    scaled >= 6001 * one,
                    one > 0,
            ;
        }
        return SPEED_MAX;
    }
    let m: u64 = spd.bits % SIGN_BIT;
    let sig: u64 = significand(m);
    let at: u64 = places(m);
    proof {
        lemma_parts(m);
        lemma_magnitude_order(0, m);
        assert(magnitude_units(0) == 0);
        assert(spd.units() == magnitude_units(m));
        lemma_speed_limit();
        lemma_magnitude_order(m, SPEED_LIMIT);
        assert(at <= 1029);
        lemma_powers();
    }
    let down: u64 = 1069 - at;
    let ghost step = pow2(at as nat) as int;
    if down > 60 {
        proof {
            lemma_pow2_pos(at as nat);
            lemma_pow2_adds((at + 5) as nat, 54);
            lemma_pow2_adds(at as nat, 5);
            lemma_pow2_unfold(54);
            if at + 59 < 1074 {
                lemma_pow2_strictly_increases((at + 59) as nat, 1074);
            }
            assert(0 <= scaled && scaled / (2 * one) == 0) by (nonlinear_arith)
                requires
                    scaled == 32 * (sig * step) + one,
                    0 <= sig < 2 * 0x10_0000_0000_0000,
                    step > 0,
                    (step * 32) * (4 * 0x10_0000_0000_0000) <= one,
            ;
        }
        return 0;
    }
    // The number of sixteenths is `sig` times 2^-(down + 1).
    let half: u128 = power_of_two(down);
    let steps: u128 = (sig as u128 + half) / (2 * half);
    proof {
        lemma_pow2_pos(at as nat);
        lemma_pow2_adds(down as nat, (at + 5) as nat);
        lemma_pow2_adds(at as nat, 5);
        let f = 32 * step;
        assert(one == half * f);
        assert(scaled == (sig + half) * f && 2 * one == (2 * half) * f) by (nonlinear_arith)
            requires
                scaled == 32 * (sig * step) + one,
                one == half * f,
                f == 32 * step,
        ;
        lemma_common_factor((sig + half) as int, 2 * half as int, f);
        assert(sig * f == 32 * (sig * step)) by (nonlinear_arith)
            requires
                f == 32 * step,
        ;
        assert(steps <= 3000) by (nonlinear_arith)
            requires
                steps == (sig + half) / (2 * half),
                sig * f < 6000 * (half * f),
                f > 0,
                half > 0,
        {
            assert(sig < 6000 * half);
        }
    }
    steps as i64
}

/// The limit of the speed is 187.5 revolutions per minute.
proof fn lemma_speed_limit()
    ensures
        2 * (Scalar { bits: SPEED_LIMIT }).units() == 375 * pow2(1074),
        !(Scalar { bits: SPEED_LIMIT }).nan(),
        (Scalar { bits: SPEED_LIMIT }).magnitude() == SPEED_LIMIT,
{
    lemma_parts(SPEED_LIMIT);
    assert(significand_of(SPEED_LIMIT) == 375 * 0x1000_0000_0000u64);
    assert(places_of(SPEED_LIMIT) == 1029);
    lemma_pow2_adds(1029, 45);
    vstd::arithmetic::power2::lemma2_to64_rest();
    let step = pow2(1029) as int;
    assert(2 * ((375 * 0x1000_0000_0000int) * step) == 375 * (step * 0x2000_0000_0000int))
        by (nonlinear_arith);
}

/// The position field for a distance of `dist_m` metres: see [`position_field`].
pub fn position_ticks(dist_m: Scalar) -> (ticks: i32)
    ensures
        ticks == position_field(dist_m),
{
    dist_m.neg().div(Scalar { bits: PITCH_M_PER_REV }).mul(
        Scalar { bits: TICKS_PER_REV },
    ).to_nearest_i32()
}

/// A move of `dist_m` metres at `spd` revolutions per minute: see
/// [`position_field`] and [`speed_field`].
pub fn build_run(func: u8, addr: u8, dist_m: Scalar, spd: Scalar, acc: u8) -> (frame: [u8; 11])
    ensures
        frame@ == run_frame(func, addr, dist_m, spd, acc),
{
    let speed: i64 = speed_steps(spd);
    let position: i64 = position_ticks(dist_m) as i64;
    let pattern: i64 = if position < 0 {
        position + 0x1_0000_0000
    } else {
        position
    };
    let body: [u8; 10] = [
        TX_HEADER,
        addr,
        func,
        (speed / 0x100) as u8,
        (speed % 0x100) as u8,
        acc,
        (pattern / 0x100_0000) as u8,
        (pattern / 0x1_0000 % 0x100) as u8,
        (pattern / 0x100 % 0x100) as u8,
        (pattern % 0x100) as u8,
    ];
    let sum: u8 = sum8(body.as_slice());
    assert(body@ =~= run_body(func, addr, dist_m, spd, acc));
    let frame: [u8; 11] = [
        body[0],
        body[1],
        body[2],
        body[3],
        body[4],
        body[5],
        body[6],
        body[7],
        body[8],
        body[9],
        sum,
    ];
    assert(frame@ =~= run_frame(func, addr, dist_m, spd, acc));
    frame
}

/// Move to an absolute position.
pub fn build_run_abs(addr: u8, dist_m: Scalar, spd: Scalar, acc: u8) -> (frame: [u8; 11])
    ensures
        frame@ == run_frame(FUNC_RUN_ABS, addr, dist_m, spd, acc),
{
    build_run(FUNC_RUN_ABS, addr, dist_m, spd, acc)
}

/// Move by a relative distance.
pub fn build_run_rel(addr: u8, dist_m: Scalar, spd: Scalar, acc: u8) -> (frame: [u8; 11])
    ensures
        frame@ == run_frame(FUNC_RUN_REL, addr, dist_m, spd, acc),
{
    build_run(FUNC_RUN_REL, addr, dist_m, spd, acc)
}

/// Whether the last byte is the checksum-8 of the others.
pub fn is_sealed(bytes: &[u8]) -> (res: bool)
    requires
        bytes@.len() > 0,
    ensures
        res == sealed(bytes@),
{
    let n: usize = bytes.len() - 1;
    assert(bytes@.subrange(0, n as int) =~= bytes@.drop_last());
    sum8(&bytes[0..n]) == bytes[n]
}

/// The position of an encoder: see [`encoder_position`].
pub fn position_of_encoder(rotation: u32, ticks: u16) -> (res: Scalar)
    ensures
        res == encoder_position(rotation as int, ticks as int),
{
    let turn = Scalar { bits: TURN_DEG };
    let turns = Scalar::from_integer(rotation as i64);
    let degree = Scalar::from_integer(ticks as i64).mul(Scalar { bits: ENCODER_TICKS_TO_DEG });
    let total = if (Scalar { bits: 0 }).less(degree) && degree.less(turn) {
        turns.mul(turn).add(degree)
    } else {
        turns
    };
    total.mul(Scalar { bits: ENCODER_TOTAL_ANGLE_TO_M })
}

/// Decodes a reply to [`build_read_encoder`] to metres. One matching field out of
/// header, address and function is enough; the checksum must match.
pub fn parse_encoder_reply(addr: u8, bytes: &[u8]) -> (res: Option<Scalar>)
    ensures
        res == encoder_reply(addr, bytes@),
{
    if bytes.len() != ENCODER_REPLY_LEN {
        return None;
    }
    if bytes[0] != RX_HEADER && bytes[1] != addr && bytes[2] != FUNC_READ_ENCODER {
        return None;
    }
    if !is_sealed(bytes) {
        return None;
    }
    let carry: u32 = ((bytes[3] as u32 * 0x100 + bytes[4] as u32) * 0x100 + bytes[5] as u32) * 0x100
        + bytes[6] as u32;
    let rotation: u32 = if carry > 0 {
        0xFFFF_FFFF - carry
    } else {
        0
    };
    let ticks: u16 = bytes[7] as u16 * 0x100 + bytes[8] as u16;
    Some(position_of_encoder(rotation, ticks))
}

/// Decodes a reply to [`build_read_error`] to degrees.
pub fn parse_error_reply(addr: u8, bytes: &[u8]) -> (res: Option<Scalar>)
    ensures
        res == error_reply(addr, bytes@),
{
    if bytes.len() != ERROR_REPLY_LEN || bytes[0] != RX_HEADER || bytes[1] != addr || bytes[2]
        != FUNC_READ_ERROR {
        return None;
    }
    if !is_sealed(bytes) {
        return None;
    }
    let pattern: i64 = ((bytes[3] as i64 * 0x100 + bytes[4] as i64) * 0x100 + bytes[5] as i64)
        * 0x100 + bytes[6] as i64;
    let ticks: i64 = if pattern >= 0x8000_0000 {
        pattern - 0x1_0000_0000
    } else {
        pattern
    };
    Some(Scalar::from_integer(ticks).div(Scalar { bits: ERROR_TICKS_PER_DEG }))
}

/// Decodes a reply to [`build_read_rpm`] to revolutions per minute.
pub fn parse_rpm_reply(addr: u8, bytes: &[u8]) -> (res: Option<Scalar>)
    ensures
        res == rpm_reply(addr, bytes@),
{
    if bytes.len() != RPM_REPLY_LEN || bytes[0] != RX_HEADER || bytes[1] != addr || bytes[2]
        != FUNC_READ_RPM {
        return None;
    }
    if !is_sealed(bytes) {
        return None;
    }
    let pattern: i64 = bytes[3] as i64 * 0x100 + bytes[4] as i64;
    let rpm: i64 = if pattern >= 0x8000 {
        pattern - 0x1_0000
    } else {
        pattern
    };
    Some(Scalar::from_integer(rpm))
}

/// Decodes a reply to [`build_is_moving`].
pub fn parse_is_moving_reply(bytes: &[u8]) -> (res: Option<bool>)
    ensures
        res == is_moving_reply(bytes@),
{
    if bytes.len() < 4 || bytes[0] != RX_HEADER || bytes[2] != FUNC_IS_MOVING {
        return None;
    }
    Some(bytes[3] != 1)
}

proof fn lemma_seal_seals(body: Seq<u8>)
    ensures
        sealed(seal(body)),
{
    assert(seal(body).drop_last() =~= body);
}

/// Every request carries a right checksum, whatever the address and function.
pub proof fn law_requests_are_sealed(
    addr: u8,
    func: u8,
    dist_m: Scalar,
    spd: Scalar,
    acc: u8,
)
    ensures
        sealed(request_frame(addr, func)),
        sealed(run_frame(func, addr, dist_m, spd, acc)),
{
    lemma_seal_seals(seq![TX_HEADER, addr, func]);
    lemma_seal_seals(run_body(func, addr, dist_m, spd, acc));
}

/// The fields of a move request read back: the position is that of the negated
/// distance; the speed lies in `0..=SPEED_MAX` and is within half a
/// sixteenth of a revolution of the requested one when that fits.
pub proof fn law_run_frame_reads_back(func: u8, addr: u8, dist_m: Scalar, spd: Scalar, acc: u8)
    ensures
        ({
            let frame = run_frame(func, addr, dist_m, spd, acc);
            &&& frame.len() == 11
            &&& frame[0] == TX_HEADER
            &&& frame[1] == addr
            &&& frame[2] == func
            &&& frame[5] == acc
            &&& frame[3] * 0x100 + frame[4] == speed_field(spd)
            &&& 0 <= speed_field(spd) <= SPEED_MAX
            &&& (!spd.nan() && 0 <= 16 * spd.units() <= SPEED_MAX * pow2(1074) ==> -pow2(1074) <= 2
                * (speed_field(spd) * pow2(1074) - 16 * spd.units()) <= pow2(1074))
            &&& crate::imu::twos_complement(
                be32(frame[6], frame[7], frame[8], frame[9]),
                0x8000_0000,
            ) == position_field(dist_m)
        }),
{
    let one = pow2(1074) as int;
    let twice = 32 * spd.units();
    lemma_pow2_pos(1074);
    if !spd.nan() && 0 <= 16 * spd.units() <= SPEED_MAX * one {
        let whole = (twice + one) / (2 * one);
        assert(0 <= whole <= 3000 && -one <= 2 * (whole * one) - twice <= one)
            by (nonlinear_arith)
            requires
                whole == (twice + one) / (2 * one),
                0 <= twice <= 6000 * one,
                one > 0,
        ;
    }
    let pattern = pattern32(position_field(dist_m));
    assert(0 <= pattern < 0x1_0000_0000);
    assert(pattern / 0x100_0000 < 0x100);
    assert(be32(
        (pattern / 0x100_0000) as u8,
        (pattern / 0x1_0000 % 0x100) as u8,
        (pattern / 0x100 % 0x100) as u8,
        (pattern % 0x100) as u8,
    ) == pattern);
}

/// An encoder reply from axis `addr` with any turn count and any position within
/// the turn is decoded to the position of exactly these.
pub proof fn law_encoder_reply_round_trips(addr: u8, rotation: u32, ticks: u16)
    requires
        rotation < 0xFFFF_FFFF,
    ensures
        ({
            let carry = 0xFFFF_FFFF - rotation;
            let bytes = seal(
                seq![
                    RX_HEADER,
                    addr,
                    FUNC_READ_ENCODER,
                    (carry / 0x100_0000) as u8,
                    (carry / 0x1_0000 % 0x100) as u8,
                    (carry / 0x100 % 0x100) as u8,
                    (carry % 0x100) as u8,
                    (ticks / 0x100) as u8,
                    (ticks % 0x100) as u8,
                ],
            );
            encoder_reply(addr, bytes) == Some(encoder_position(rotation as int, ticks as int))
        }),
{
    let carry = 0xFFFF_FFFF - rotation;
    let body = seq![
        RX_HEADER,
        addr,
        FUNC_READ_ENCODER,
        (carry / 0x100_0000) as u8,
        (carry / 0x1_0000 % 0x100) as u8,
        (carry / 0x100 % 0x100) as u8,
        (carry % 0x100) as u8,
        (ticks / 0x100) as u8,
        (ticks % 0x100) as u8,
    ];
    lemma_seal_seals(body);
    assert(be32(
        (carry / 0x100_0000) as u8,
        (carry / 0x1_0000 % 0x100) as u8,
        (carry / 0x100 % 0x100) as u8,
        (carry % 0x100) as u8,
    ) == carry);
}

/// A sealed reply of the right length is refused by the encoder decoder only
/// when header, address and function are wrong all at once.
pub proof fn law_encoder_reply_needs_one_matching_field(addr: u8, bytes: Seq<u8>)
    requires
        bytes.len() == ENCODER_REPLY_LEN,
        sealed(bytes),
    ensures
        encoder_reply(addr, bytes) is None <==> (bytes[0] != RX_HEADER && bytes[1] != addr
            && bytes[2] != FUNC_READ_ENCODER),
{
}

/// A reply that the error or speed decoder accepts comes from the axis that was
/// asked: no other address accepts it.
pub proof fn law_strict_replies_name_their_axis(addr: u8, other: u8, bytes: Seq<u8>)
    requires
        other != addr,
    ensures
        error_reply(addr, bytes) is Some ==> error_reply(other, bytes) is None,
        rpm_reply(addr, bytes) is Some ==> rpm_reply(other, bytes) is None,
{
}

/// No encoder, error or speed reply survives the replacement of one of its
/// bytes by a different one.
pub proof fn law_damaged_replies_are_refused(addr: u8, bytes: Seq<u8>, at: int, byte: u8)
    requires
        0 <= at < bytes.len(),
        byte != bytes[at],
    ensures
        encoder_reply(addr, bytes) is Some ==> encoder_reply(addr, bytes.update(at, byte)) is None,
        error_reply(addr, bytes) is Some ==> error_reply(addr, bytes.update(at, byte)) is None,
        rpm_reply(addr, bytes) is Some ==> rpm_reply(addr, bytes.update(at, byte)) is None,
{
    if sealed(bytes) {
        crate::checksum::law_sum8_finds_single_byte_errors(bytes, at, byte);
    }
}

/// Within a metre, the position field is the nearest whole number of ticks, up to
/// 2^-31 of a tick for rounding: times the pitch, it is at most half of a pitch from
/// 16384 times the negated distance.
pub proof fn law_position_field_is_near(dist_m: Scalar)
    requires
        dist_m.finite(),
        -pow2(1074) <= dist_m.units() <= pow2(1074),
    ensures
        ({
            let pitch = (Scalar { bits: PITCH_M_PER_REV }).units();
            let off = (position_field(dist_m) * pitch + 16384 * dist_m.units()) * pow2(1074);
            let most = (pow2(1073) + pow2(1043)) * pitch;
            -most <= off <= most
        }),
{
    let pitch = Scalar { bits: PITCH_M_PER_REV };
    let per_rev = Scalar { bits: TICKS_PER_REV };
    let one = pow2(1074) as int;
    let p = pitch.units();
    let back = dist_m.negated();
    let d = back.units();
    lemma_pow2_pos(1074);
    lemma_pitch();
    law_negation_reverses_value(dist_m);
    law_absolute_drops_sign(back);
    law_absolute_drops_sign(pitch);
    assert(back.finite() && pitch.finite() && per_rev.finite());
    // The quotient.
    lemma_pow2_adds(8, 1074);
    let size = back.absolute().units();
    assert(size * one < pow2(1082) * p) by (nonlinear_arith)
        requires
            size <= one,
            256 * p > one,
            pow2(1082) == 256 * one,
            one > 0,
    ;
    law_quotient_is_nearly_exact(back, pitch, 1029);
    let q = back.over(pitch);
    let qu = q.units();
    let e3 = qu * p - d * one;
    let tiny = pow2(1029) as int;
    lemma_pow2_pos(1029);
    assert(-(tiny * p) <= 2 * e3 <= tiny * p);
    // The quotient is below 256.
    lemma_pow2_adds(45, 1029);
    assert(-256 * one < qu < 256 * one) by (nonlinear_arith)
        requires
            -(tiny * p) <= 2 * (qu * p - d * one) <= tiny * p,
            -one <= d <= one,
            65536 * p > 261 * one,
            64 * tiny <= one,
            128 * p < one,
            p > 0,
            one > 0,
    ;
    // The ticks.
    lemma_pow2_adds(14, 1074);
    lemma_pow2_adds(22, 1074);
    let wide = pow2(1088) as int;
    let product = qu * wide;
    assert(-(pow2(1096) * one) < product < pow2(1096) * one) by (nonlinear_arith)
        requires
            product == qu * wide,
            -256 * one < qu < 256 * one,
            wide == 16384 * one,
            pow2(1096) == 0x40_0000 * one,
            one > 0,
    ;
    law_product_is_nearly_exact(q, per_rev, 1043);
    let ticks = q.times(per_rev);
    let t = ticks.units();
    let small = pow2(1043) as int;
    lemma_pow2_pos(1043);
    assert(-small <= 2 * (t - 16384 * qu) <= small) by (nonlinear_arith)
        requires
            -(small * one) <= 2 * (t * one - qu * wide) <= small * one,
            wide == 16384 * one,
            one > 0,
    ;
    law_nearest_integer_is_near(ticks);
    let n = ticks.nearest_integer();
    lemma_pow2_strictly_increases(1043, 1074);
    assert(i32::MIN < n < i32::MAX) by (nonlinear_arith)
        requires
            -one <= 2 * (n * one - t) <= one,
            -one <= 2 * (t - 16384 * qu) <= one,
            -256 * one < qu < 256 * one,
            one > 0,
    ;
    lemma_pow2_unfold(1074);
    let half = pow2(1073) as int;
    lemma_pow2_adds(14, 1029);
    let off = (n * p - 16384 * d) * one;
    assert(-((half + small) * p) <= off <= (half + small) * p) by (nonlinear_arith)
        requires
            off == (n * p - 16384 * d) * one,
            -(2 * half) <= 2 * (n * one - t) <= 2 * half,
            -small <= 2 * (t - 16384 * qu) <= small,
            -(tiny * p) <= 2 * (qu * p - d * one) <= tiny * p,
            16384 * tiny == small,
            p > 0,
    {
        let e1 = n * one - t;
        let e2 = t - 16384 * qu;
        let e3 = qu * p - d * one;
        assert(off == (e1 + e2) * p + 16384 * e3);
        assert(-((2 * half + small) * p) <= 2 * ((e1 + e2) * p) <= (2 * half + small) * p);
        assert(16384 * (tiny * p) == small * p);
    }
    assert(n * p - 16384 * d == n * p + 16384 * dist_m.units());
}

/// The pitch in units, between 261/65536 m and 1/128 m; ticks in a revolution.
proof fn lemma_pitch()
    ensures
        ({
            let p = (Scalar { bits: PITCH_M_PER_REV }).units();
            &&& p > 0
            &&& 65536 * p > 261 * pow2(1074)
            &&& pow2(45) == 0x2000_0000_0000
            &&& 128 * p < pow2(1074)
            &&& (Scalar { bits: TICKS_PER_REV }).units() == pow2(1088)
            &&& pow2(8) == 256
            &&& pow2(14) == 16384
            &&& pow2(22) == 0x40_0000
        }),
{
    vstd::arithmetic::power2::lemma2_to64();
    lemma_powers();
    vstd::arithmetic::power2::lemma2_to64_rest();
    lemma_parts(0x3F70_5000_0000_0000);
    assert(significand_of(0x3F70_5000_0000_0000) == 261 * 0x1000_0000_0000u64);
    lemma_pow2_adds(44, 1014);
    lemma_pow2_adds(16, 1058);
    let step = pow2(1014) as int;
    assert((261 * 0x1000_0000_0000int) * step == 261 * (0x1000_0000_0000int * step))
        by (nonlinear_arith);
    lemma_parts(0x3F80_0000_0000_0000);
    lemma_parts(TICKS_PER_REV);
    lemma_pow2_adds(52, 1015);
    lemma_pow2_adds(52, 1036);
    lemma_pow2_adds(7, 1067);
    lemma_pow2_pos(1074);
    lemma_magnitude_order(0x3F70_5000_0000_0000, PITCH_M_PER_REV);
    lemma_magnitude_order(PITCH_M_PER_REV, 0x3F80_0000_0000_0000);
}

/// A request is its header, the address of the axis, the function, and the sum of
/// these three modulo 256.
pub proof fn law_request_names_its_axis(addr: u8, func: u8)
    ensures
        ({
            let frame = request_frame(addr, func);
            &&& frame.len() == 4
            &&& frame[0] == 0xFA
            &&& frame[1] == addr
            &&& frame[2] == func
            &&& frame[3] == (0xFA + addr + func) % 256
        }),
{
    let body = seq![TX_HEADER, addr, func];
    reveal_with_fuel(crate::checksum::byte_sum, 4);
    assert(body.drop_last() =~= seq![TX_HEADER, addr]);
    assert(body.drop_last().drop_last() =~= seq![TX_HEADER]);
    assert(body.drop_last().drop_last().drop_last() =~= Seq::empty());
}

/// A sealed error or speed reply from axis `addr` decodes to exactly the number that
/// it holds: speeds are revolutions per minute, errors 51200 ticks for 360 degrees,
/// within 2^-30 degrees.
pub proof fn law_error_and_speed_replies_read_back(
    addr: u8,
    error: Seq<u8>,
    speed: Seq<u8>,
    ticks: int,
    rpm: int,
)
    requires
        error.len() == 8,
        error[0] == 0xFB && error[1] == addr && error[2] == 0x39,
        sealed(error),
        -0x8000_0000 <= ticks < 0x8000_0000,
        error[3] * 0x100_0000 + error[4] * 0x1_0000 + error[5] * 0x100 + error[6] == ticks + if ticks
            < 0 {
            0x1_0000_0000int
        } else {
            0
        },
        speed.len() == 6,
        speed[0] == 0xFB && speed[1] == addr && speed[2] == 0x32,
        sealed(speed),
        -0x8000 <= rpm < 0x8000,
        speed[3] * 0x100 + speed[4] == rpm + if rpm < 0 {
            0x1_0000int
        } else {
            0
        },
    ensures
        error_reply(addr, error) is Some,
        rpm_reply(addr, speed) is Some,
        rpm_reply(addr, speed)->0.units() == rpm * pow2(1074),
        ({
            let off = 1280 * error_reply(addr, error)->0.units() - (9 * ticks) * pow2(1074);
            -1280 * pow2(1045) <= off <= 1280 * pow2(1045)
        }),
{
    law_whole_is_exact(rpm);
    law_whole_is_exact(ticks);
    let per = Scalar { bits: ERROR_TICKS_PER_DEG };
    let one = pow2(1074) as int;
    lemma_pow2_pos(1074);
    lemma_error_scale();
    let a = whole(ticks);
    law_absolute_drops_sign(a);
    law_absolute_drops_sign(per);
    lemma_pow2_adds(24, 1074);
    vstd::arithmetic::power2::lemma2_to64();
    let (size, p, top) = (a.absolute().units(), per.units(), pow2(1098) as int);
    assert(ticks * one <= 0x8000_0000 * one && -(0x8000_0000 * one) <= ticks * one)
        by (nonlinear_arith)
        requires
            -0x8000_0000 <= ticks < 0x8000_0000,
            one > 0,
    ;
    assert(size * one < top * p) by (nonlinear_arith)
        requires
            0 <= size <= 0x8000_0000 * one,
            top == 0x100_0000 * one,
            p > 142 * one,
            one > 0,
    ;
    law_quotient_is_nearly_exact(a, per, 1045);
    let (u, w) = (a.over(per).units(), pow2(1045) as int);
    let tiny = pow2(1030) as int;
    lemma_pow2_pos(1030);
    lemma_pow2_adds(15, 1030);
    // The scale is 1280 / 9, within `tiny`.
    assert(-1280 * w <= 1280 * u - (9 * ticks) * one <= 1280 * w) by (nonlinear_arith)
        requires
            -(w * p) <= 2 * (u * p - (ticks * one) * one) <= w * p,
            -tiny <= 9 * p - 1280 * one <= tiny,
            w == 0x8000 * tiny,
            -0x8000_0000 <= ticks < 0x8000_0000,
            142 * one < p < 143 * one,
            0x1000_0000 * tiny <= one,
            tiny > 0,
            one > 0,
    {
        let e = 9 * p - 1280 * one;
        // Nine times the first line, with the scale put in.
        assert(9 * (u * p) == 1280 * (u * one) + u * e);
        assert(-(0x100_0000 * one) <= u <= 0x100_0000 * one) by {
            assert(2 * (u * p) <= w * p + 2 * (0x8000_0000 * (one * one)));
            assert(2 * (u * p) >= -(w * p) - 2 * (0x8000_0000 * (one * one)));
            assert(w * p <= one * p);
            if u > 0x100_0000 * one {
                assert(u * p >= 0x100_0000 * one * p);
                assert(0x100_0000 * one * p >= 0x100_0000 * one * (142 * one));
            }
            if u < -(0x100_0000 * one) {
                assert(u * p <= -(0x100_0000 * one * p));
                assert(0x100_0000 * one * p >= 0x100_0000 * one * (142 * one));
            }
        }
        assert(-(0x100_0000 * one * tiny) <= u * e <= 0x100_0000 * one * tiny);
        assert(9 * (w * p) == 1280 * (w * one) + w * e);
        assert(w * e <= w * one && -(w * one) <= w * e);
        assert(2 * (1280 * u - 9 * ticks * one) * one <= 1281 * w * one + 2 * (0x100_0000 * one
            * tiny));
        assert(2 * (1280 * u - 9 * ticks * one) * one >= -(1281 * w * one) - 2 * (0x100_0000 * one
            * tiny));
        assert(2 * (0x100_0000 * one * tiny) == 1024 * (w * one));
    }
}

/// Position error ticks in a degree: 1280 / 9.
proof fn lemma_error_scale()
    ensures
        ({
            let p = (Scalar { bits: ERROR_TICKS_PER_DEG }).units();
            let one = pow2(1074) as int;
            &&& -pow2(1030) <= 9 * p - 1280 * one <= pow2(1030)
            &&& 142 * one < p < 143 * one
            &&& 0x1000_0000 * pow2(1030) <= one
        }),
{
    lemma_powers();
    vstd::arithmetic::power2::lemma2_to64();
    vstd::arithmetic::power2::lemma2_to64_rest();
    lemma_parts(ERROR_TICKS_PER_DEG);
    assert(places_of(ERROR_TICKS_PER_DEG) == 1029);
    assert(significand_of(ERROR_TICKS_PER_DEG) == 0x11_C71C_71C7_1C72);
    lemma_pow2_adds(45, 1029);
    lemma_pow2_unfold(1030);
    lemma_pow2_pos(1029);
    let step = pow2(1029) as int;
    assert(9 * (0x11_C71C_71C7_1C72int * step) == (9 * 0x11_C71C_71C7_1C72int) * step)
        by (nonlinear_arith);
    assert(1280 * (0x2000_0000_0000int * step) == (1280 * 0x2000_0000_0000int) * step)
        by (nonlinear_arith);
}

/// A moving status counts with four bytes or more, the right header and the right
/// function; the fourth byte is 1 exactly when the motor stands still.
pub proof fn law_moving_status_reads_back(bytes: Seq<u8>)
    ensures
        is_moving_reply(bytes) is Some <==> bytes.len() >= 4 && bytes[0] == 0xFB && bytes[2] == 0xF1,
        is_moving_reply(bytes) == Some(false) ==> bytes[3] == 1,
        is_moving_reply(bytes) == Some(true) ==> bytes[3] != 1,
{
}

/// The encoder's scales: 16383 ticks are 180 degrees, 90000 degrees are a metre.
proof fn lemma_encoder_scales()
    ensures
        ({
            let c = (Scalar { bits: ENCODER_TICKS_TO_DEG }).units();
            let m = (Scalar { bits: ENCODER_TOTAL_ANGLE_TO_M }).units();
            let one = pow2(1074) as int;
            &&& -pow2(1026) <= 16383 * c - 180 * one <= pow2(1026)
            &&& -pow2(1020) <= 90000 * m - one <= pow2(1020)
            &&& (Scalar { bits: TURN_DEG }).units() == 360 * one
            &&& pow2(1084) == 0x400 * one
            &&& pow2(1100) == 0x400_0000 * one
            &&& pow2(1116) == 0x400_0000_0000 * one
            &&& one == 0x400 * pow2(1064)
            &&& pow2(1047) == 0x2_0000 * pow2(1030)
            &&& pow2(1063) == 0x2_0000_0000 * pow2(1030)
            &&& pow2(1064) == 2 * pow2(1063)
            &&& pow2(1072) == 0x100 * pow2(1064)
            &&& pow2(1030) == 0x400 * pow2(1020)
            &&& pow2(1030) == 0x10 * pow2(1026)
            &&& pow2(1031) == 2 * pow2(1030)
            &&& pow2(1020) > 0
        }),
{
    lemma_powers();
    vstd::arithmetic::power2::lemma2_to64();
    vstd::arithmetic::power2::lemma2_to64_rest();
    lemma_parts(ENCODER_TICKS_TO_DEG);
    lemma_parts(ENCODER_TOTAL_ANGLE_TO_M);
    lemma_parts(TURN_DEG);
    assert(places_of(ENCODER_TICKS_TO_DEG) == 1015);
    assert(significand_of(ENCODER_TICKS_TO_DEG) == 0x16_805A_0168_05A0);
    assert(places_of(ENCODER_TOTAL_ANGLE_TO_M) == 1005);
    assert(significand_of(ENCODER_TOTAL_ANGLE_TO_M) == 0x17_4D3B_7BA7_5828);
    assert(places_of(TURN_DEG) == 1030);
    assert(significand_of(TURN_DEG) == 360 * 0x1000_0000_0000u64);
    lemma_pow2_pos(1005);
    lemma_pow2_pos(1020);
    lemma_pow2_adds(10, 1005);
    lemma_pow2_adds(15, 1005);
    lemma_pow2_adds(11, 1015);
    lemma_pow2_adds(59, 1015);
    lemma_pow2_adds(44, 1030);
    lemma_pow2_adds(10, 1074);
    lemma_pow2_adds(26, 1074);
    lemma_pow2_adds(42, 1074);
    lemma_pow2_adds(10, 1064);
    lemma_pow2_adds(17, 1030);
    lemma_pow2_adds(33, 1030);
    lemma_pow2_adds(1, 1063);
    lemma_pow2_adds(8, 1064);
    lemma_pow2_adds(10, 1020);
    lemma_pow2_adds(4, 1026);
    lemma_pow2_adds(1, 1030);
    let (a, b, t) = (pow2(1015) as int, pow2(1005) as int, pow2(1030) as int);
    assert(16383 * (0x16_805A_0168_05A0int * a) == (16383 * 0x16_805A_0168_05A0int) * a)
        by (nonlinear_arith);
    assert(180 * (0x800_0000_0000_0000int * a) == (180 * 0x800_0000_0000_0000int) * a)
        by (nonlinear_arith);
    assert(90000 * (0x17_4D3B_7BA7_5828int * b) == (90000 * 0x17_4D3B_7BA7_5828int) * b)
        by (nonlinear_arith);
    assert((360 * 0x1000_0000_0000int) * t == 360 * (0x1000_0000_0000int * t)) by (nonlinear_arith);
}

/// An angle of at most 2^42 degrees, in metres.
proof fn lemma_travel(total: Scalar)
    requires
        total.finite(),
        -0x200_0000_0000 * pow2(1074) <= total.units() <= 0x200_0000_0000 * pow2(1074),
    ensures
        ({
            let p = total.times(Scalar { bits: ENCODER_TOTAL_ANGLE_TO_M });
            &&& p.finite()
            &&& -pow2(1064) <= 90000 * p.units() - total.units() <= pow2(1064)
        }),
{
    lemma_encoder_scales();
    lemma_pow2_pos(1074);
    let m = Scalar { bits: ENCODER_TOTAL_ANGLE_TO_M };
    let (one, tu, mu) = (pow2(1074) as int, total.units(), m.units());
    let (e, tiny) = (90000 * mu - one, pow2(1020) as int);
    assert(-((0x400_0000 * one) * one) < tu * mu < (0x400_0000 * one) * one) by (nonlinear_arith)
        requires
            -0x200_0000_0000 * one <= tu <= 0x200_0000_0000 * one,
            0 < mu,
            80000 * mu < one,
            one > 0,
    ;
    law_product_is_nearly_exact(total, m, 1047);
    let (pu, w) = (total.times(m).units(), pow2(1047) as int);
    assert(-(w * one) <= 2 * (pu * one - tu * mu) <= w * one);
    assert(-(0x400_0000_0000 * tiny) - 90000 * w <= 2 * (90000 * pu - tu) <= 0x400_0000_0000 * tiny
        + 90000 * w) by (nonlinear_arith)
        requires
            -(w * one) <= 2 * (pu * one - tu * mu) <= w * one,
            e == 90000 * mu - one,
            -tiny <= e <= tiny,
            -0x200_0000_0000 * one <= tu <= 0x200_0000_0000 * one,
            one > 0,
            tiny > 0,
    {
        assert(90000 * (tu * mu) == tu * one + tu * e);
        assert(-(0x200_0000_0000 * one * tiny) <= tu * e <= 0x200_0000_0000 * one * tiny);
        let x = 2 * (90000 * pu - tu);
        let y = 0x400_0000_0000 * tiny + 90000 * w;
        assert(x * one == 90000 * (2 * (pu * one - tu * mu)) + 2 * (tu * e));
        assert(x * one <= y * one);
        assert(x * one >= -(y * one));
    }
}

/// A number within 2^1028 units of a turn is a turn.
proof fn lemma_turn(x: Scalar)
    requires
        x.finite(),
        -4 * pow2(1026) <= x.units() - 360 * pow2(1074) <= 4 * pow2(1026),
    ensures
        x.units() == 360 * pow2(1074),
{
    lemma_encoder_scales();
    lemma_powers();
    lemma_pow2_pos(1026);
    let (below, above): (u64, u64) = (0x4076_7FFF_FFFF_FFFF, 0x4076_8000_0000_0001);
    lemma_parts(TURN_DEG);
    lemma_parts(below);
    lemma_parts(above);
    assert(places_of(TURN_DEG) == 1030 && places_of(below) == 1030 && places_of(above) == 1030);
    assert(significand_of(below) + 1 == significand_of(TURN_DEG));
    assert(significand_of(above) == significand_of(TURN_DEG) + 1);
    let (s, t) = (significand_of(TURN_DEG) as int, pow2(1030) as int);
    assert((s + 1) * t == s * t + t && (s - 1) * t == s * t - t) by (nonlinear_arith);
    let m = x.magnitude();
    assert(magnitude_units(0) == 0);
    lemma_magnitude_order(0, m);
    if m <= below {
        lemma_magnitude_order(m, below);
    } else if m >= above {
        lemma_magnitude_order(above, m);
    }
}

/// The angle within a turn, which is strictly positive and below a turn exactly when
/// the ticks are.
proof fn lemma_degree(ticks: int)
    requires
        0 <= ticks < 0x1_0000,
    ensures
        ({
            let one = pow2(1074) as int;
            let degree = whole(ticks).times(Scalar { bits: ENCODER_TICKS_TO_DEG });
            let off = 16383 * degree.units() - 180 * (ticks * one);
            &&& degree.finite()
            &&& -(0x4_0000 * pow2(1030)) <= off <= 0x4_0000 * pow2(1030)
            &&& (0 < ticks < 32766) <==> 0 < degree.units() < 360 * one
            &&& 0 <= ticks * one <= 0x1_0000 * one
        }),
{
    lemma_encoder_scales();
    lemma_pow2_pos(1074);
    law_whole_is_exact(ticks);
    assert(magnitude_units(0) == 0);
    let one = pow2(1074) as int;
    let c = Scalar { bits: ENCODER_TICKS_TO_DEG };
    let (cu, unit) = (c.units(), pow2(1026) as int);
    let exact = ticks * cu;
    assert((ticks * one) * cu == exact * one) by (nonlinear_arith)
        requires
            exact == ticks * cu,
    ;
    let (e, n) = (16383 * cu - 180 * one, ticks * one);
    assert(16383 * exact == 180 * n + ticks * e && -(0x1_0000 * unit) <= ticks * e <= 0x1_0000
        * unit) by (nonlinear_arith)
        requires
            exact == ticks * cu,
            n == ticks * one,
            e == 16383 * cu - 180 * one,
            -unit <= e <= unit,
            0 <= ticks < 0x1_0000,
    ;
    assert(0 <= n <= 0x1_0000 * one && (ticks < 32766 ==> n <= 32765 * one) && (ticks > 32766
        ==> n >= 32767 * one) && (ticks > 0 ==> n >= one)) by (nonlinear_arith)
        requires
            n == ticks * one,
            0 <= ticks < 0x1_0000,
            one > 0,
    ;
    assert(-((0x400 * one) * one) < exact * one < (0x400 * one) * one) by (nonlinear_arith)
        requires
            -(0x400 * one) < exact < 0x400 * one,
            one > 0,
    ;
    law_product_is_nearly_exact(whole(ticks), c, 1031);
    let (du, w) = (whole(ticks).times(c).units(), pow2(1031) as int);
    assert(-w <= 2 * (du - exact) <= w) by (nonlinear_arith)
        requires
            -(w * one) <= 2 * (du * one - exact * one) <= w * one,
            one > 0,
    ;
    if ticks == 32766 {
        let turn = Scalar { bits: TURN_DEG };
        law_product_is_nearest(whole(ticks), c, turn);
        assert(exact == 32766 * cu);
        let far = apart((360 * one) * one, exact * one);
        assert(far <= (2 * unit) * one) by (nonlinear_arith)
            requires
                far == (360 * one) * one - exact * one || far == exact * one - (360 * one) * one,
                -2 * unit <= exact - 360 * one <= 2 * unit,
                one > 0,
        ;
        assert(-2 * unit <= du - exact <= 2 * unit) by (nonlinear_arith)
            requires
                -((2 * unit) * one) <= du * one - exact * one <= (2 * unit) * one,
                one > 0,
        ;
        lemma_turn(whole(ticks).times(c));
    }
    if ticks == 0 {
        assert(exact * one == 0) by (nonlinear_arith)
            requires
                exact == ticks * cu,
                ticks == 0,
        ;
        assert(0 * one == 0) by (nonlinear_arith);
        law_exact_product(whole(ticks), c, Scalar { bits: 0 });
    }
}

/// Where the encoder says that a mass stands. Strictly within a turn of 32766 ticks, a
/// turn is 4 mm of travel, and the position is that of all ticks, within a quarter of
/// one. At the start of a turn and from its end on the turns are taken for degrees.
pub proof fn law_encoder_position_is_near(rotation: int, ticks: int)
    requires
        0 <= rotation < 0x1_0000_0000,
        0 <= ticks < 0x1_0000,
    ensures
        encoder_position(rotation, ticks).finite(),
        0 < ticks < 32766 ==> ({
            let off = 8_191_500 * encoder_position(rotation, ticks).units() - (32766 * rotation
                + ticks) * pow2(1074);
            -pow2(1072) <= off <= pow2(1072)
        }),
        ticks == 0 || ticks >= 32766 ==> ({
            let off = 90_000 * encoder_position(rotation, ticks).units() - rotation * pow2(1074);
            -pow2(1064) <= off <= pow2(1064)
        }),
{
    lemma_encoder_scales();
    lemma_pow2_pos(1074);
    lemma_degree(ticks);
    law_whole_is_exact(rotation);
    law_whole_is_exact(360 * rotation);
    assert(magnitude_units(0) == 0);
    let one = pow2(1074) as int;
    let turn = Scalar { bits: TURN_DEG };
    let degree = whole(ticks).times(Scalar { bits: ENCODER_TICKS_TO_DEG });
    law_comparison_goes_by_value(Scalar { bits: 0 }, degree);
    law_comparison_goes_by_value(degree, turn);
    let r = rotation * one;
    assert(0 <= r <= 0x1_0000_0000 * one) by (nonlinear_arith)
        requires
            r == rotation * one,
            0 <= rotation < 0x1_0000_0000,
            one > 0,
    ;
    if 0 < ticks < 32766 {
        assert(r * (360 * one) == ((360 * rotation) * one) * one) by (nonlinear_arith)
            requires
                r == rotation * one,
        ;
        law_exact_product(whole(rotation), turn, whole(360 * rotation));
        assert((360 * rotation) * one == 360 * r) by (nonlinear_arith)
            requires
                r == rotation * one,
        ;
        let turns = whole(rotation).times(turn);
        law_sum_is_nearly_exact(turns, degree, 1063);
        lemma_travel(turns.plus(degree));
        assert((32766 * rotation + ticks) * one == 32766 * r + ticks * one) by (nonlinear_arith)
            requires
                r == rotation * one,
        ;
    } else {
        lemma_travel(whole(rotation));
    }
}

/// What is no finite number in a move: a distance that is not a number is zero, an
/// infinite one goes as far as the field can, backwards for positive ones; a speed that
/// is not a number is standstill, and so is a negative one; an infinite one is the
/// largest.
pub proof fn law_special_moves(dist_m: Scalar, spd: Scalar)
    ensures
        dist_m.nan() ==> position_field(dist_m) == 0,
        dist_m.infinite() && !dist_m.is_negative() ==> position_field(dist_m) == -0x8000_0000,
        dist_m.infinite() && dist_m.is_negative() ==> position_field(dist_m) == 0x7FFF_FFFF,
        spd.nan() ==> speed_field(spd) == 0,
        !spd.nan() && spd.is_negative() ==> speed_field(spd) == 0,
        spd.infinite() && !spd.is_negative() ==> speed_field(spd) == 3000,
{
    let one = pow2(1074) as int;
    lemma_pow2_pos(1074);
    let (pitch, per_rev) = (Scalar { bits: PITCH_M_PER_REV }, Scalar { bits: TICKS_PER_REV });
    let back = dist_m.negated();
    let q = back.over(pitch);
    let ticks = q.times(per_rev);
    lemma_pitch();
    lemma_pow2_pos(1088);
    law_negation_reverses_value(dist_m);
    law_special_quotients(back, pitch);
    law_special_sums_and_products(q, per_rev);
    assert(magnitude_units(0) == 0);
    let top: u64 = 0x41F0_0000_0000_0000;
    lemma_powers();
    vstd::arithmetic::power2::lemma2_to64();
    vstd::arithmetic::power2::lemma2_to64_rest();
    lemma_parts(top);
    assert(places_of(top) == 1054);
    lemma_pow2_adds(52, 1054);
    lemma_pow2_adds(32, 1074);
    lemma_magnitude_order(top, 0x7FF0_0000_0000_0000);
    lemma_magnitude_order(0, spd.magnitude());
    if dist_m.infinite() {
        let u = magnitude_units(0x7FF0_0000_0000_0000);
        assert((2 * u + one) / (2 * one) >= 0x1_0000_0000) by (nonlinear_arith)
            requires
                u >= 0x1_0000_0000 * one,
                one > 0,
        ;
        assert((one - 2 * (-u)) == 2 * u + one);
    }
    let s = spd.units();
    if !spd.nan() && spd.is_negative() {
        assert((32 * s + one) / (2 * one) <= 0) by (nonlinear_arith)
            requires
                s <= 0,
                one > 0,
        ;
    }
    if spd.infinite() && !spd.is_negative() {
        assert((32 * s + one) / (2 * one) >= 3000) by (nonlinear_arith)
            requires
                s >= 0x1_0000_0000 * one,
                one > 0,
        ;
    }
}

/// An error or speed reply counts exactly if it has its length, starts with the header
/// of a reply, names its axis and its function, and is sealed; an encoder reply if it has
/// ten bytes, is sealed, and one of the three is right.
pub proof fn law_replies_count(addr: u8, bytes: Seq<u8>)
    ensures
        error_reply(addr, bytes) is Some <==> bytes.len() == 8 && bytes[0] == 0xFB && bytes[1]
            == addr && bytes[2] == 0x39 && sealed(bytes),
        rpm_reply(addr, bytes) is Some <==> bytes.len() == 6 && bytes[0] == 0xFB && bytes[1]
            == addr && bytes[2] == 0x32 && sealed(bytes),
        encoder_reply(addr, bytes) is Some <==> bytes.len() == 10 && (bytes[0] == 0xFB || bytes[1]
            == addr || bytes[2] == 0x30) && sealed(bytes),
{
}

} // verus!
