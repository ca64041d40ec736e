//! Priming of the encoders before a control loop starts: every axis is nudged,
//! and the encoders are polled until every mass is far enough from its home end.

use crate::binary64::{lemma_parts, places_of, significand_of};
use crate::commands::RunMode;
use crate::lqi_loop;
use crate::mpc_loop;
use crate::rail;
use crate::rail::PerAxis;
use crate::rig;
use crate::scalar::Scalar;
use crate::transport::{follows_script, lemma_script_stands_still, Bus};
use vstd::arithmetic::power2::{lemma_pow2_adds, lemma_pow2_pos, pow2};
use vstd::prelude::*;

verus! {

/// Pause after each encoder read of the poll, in milliseconds.
pub const POLL_PAUSE_MS: u64 = 250;

/// How long the poll may go on, in nanoseconds: one minute.
pub const INIT_POLL_TIMEOUT_NS: u128 = 60_000_000_000;

/// Speed of the nudge, 50 RPM, as bits.
pub const NUDGE_SPD: u64 = 0x4049_0000_0000_0000;

/// The nudge that starts a priming.
#[derive(Debug, Clone, Copy, PartialEq, Eq, Structural)]
pub struct Nudge {
    /// Distance, in metres.
    pub dist_m: Scalar,
    pub acc: u8,
    /// Pause after each axis, in milliseconds.
    pub pause_ms: u64,
}

/// A priming under way.
#[derive(Debug, Clone, Copy)]
pub struct Priming {
    /// The latest position of each axis, zero until it has been read.
    pub d0: PerAxis,
    /// The position that every axis must reach.
    pub min_d: Scalar,
}

/// What a priming needs next.
#[derive(Debug, Clone, Copy, PartialEq, Eq, Structural)]
pub enum PrimeStep {
    /// The encoders were polled.
    Polled,
    /// Every axis is far enough from its home end.
    Ready,
    /// The poll took too long.
    TimedOut,
}

/// `v` where there is a value, `previous` elsewhere.
pub open spec fn replaced(previous: Scalar, v: Option<Scalar>) -> Scalar {
    match v {
        Some(x) => x,
        None => previous,
    }
}

/// The positions after a poll that gave `decoded`.
pub open spec fn absorbed(d0: PerAxis, decoded: [Option<Scalar>; 4]) -> PerAxis {
    [
        replaced(d0[0], decoded[0]),
        replaced(d0[1], decoded[1]),
        replaced(d0[2], decoded[2]),
        replaced(d0[3], decoded[3]),
    ]
}

fn replace(previous: Scalar, v: Option<Scalar>) -> (res: Scalar)
    ensures
        res == replaced(previous, v),
{
    match v {
        Some(x) => x,
        None => previous,
    }
}

impl Priming {
    /// Nudges all four axes and starts a priming.
    pub fn begin<B: Bus>(bus: &mut B, nudge: Nudge, min_d: Scalar) -> (res: Priming)
        ensures
            final(bus).log() == old(bus).log() + rig::nudge_traffic(
                nudge.dist_m,
                Scalar { bits: NUDGE_SPD },
                nudge.acc,
                nudge.pause_ms,
            ),
            res.d0 == crate::telemetry::no_positions(),
            res.min_d == min_d,
            follows_script(*old(bus), *final(bus)),
    {
        let spd = Scalar { bits: NUDGE_SPD };
        rig::nudge_axes(bus, nudge.dist_m, spd, nudge.acc, nudge.pause_ms);
        let zero = Scalar { bits: 0 };
        Priming { d0: [zero, zero, zero, zero], min_d }
    }

    /// Takes the next step, `elapsed_ns` nanoseconds after the nudges: polls the
    /// encoders once unless every axis is far enough or the time is up.
    pub fn next<B: Bus>(&mut self, bus: &mut B, elapsed_ns: u128) -> (step: PrimeStep)
        ensures
            step is Ready <==> !rail::any_below(old(self).d0, old(self).min_d),
            step is TimedOut <==> rail::any_below(old(self).d0, old(self).min_d) && elapsed_ns
                > INIT_POLL_TIMEOUT_NS,
            step is Polled ==> {
                let start = old(bus).log().len() as int;
                &&& rig::swept(old(bus).log(), final(bus).log(), POLL_PAUSE_MS)
                &&& final(self).d0 == absorbed(
                    old(self).d0,
                    rig::sweep_readings(final(bus).log(), start, POLL_PAUSE_MS),
                )
                &&& final(self).min_d == old(self).min_d
            },
            !(step is Polled) ==> *final(bus) == *old(bus) && *final(self) == *old(self),
            follows_script(*old(bus), *final(bus)),
    {
        proof {
            lemma_script_stands_still(*bus);
        }
        if !rail::is_any_below(self.d0, self.min_d) {
            PrimeStep::Ready
        } else if elapsed_ns > INIT_POLL_TIMEOUT_NS {
            PrimeStep::TimedOut
        } else {
            let readings = rig::read_axes(bus, POLL_PAUSE_MS);
            self.absorb(readings);
            PrimeStep::Polled
        }
    }

    /// Takes in the readings of a poll. An axis that gave no reading
    /// keeps its position.
    pub fn absorb(&mut self, decoded: [Option<Scalar>; 4])
        ensures
            final(self).d0 == absorbed(old(self).d0, decoded),
            final(self).min_d == old(self).min_d,
    {
        self.d0 = [
            replace(self.d0[0], decoded[0]),
            replace(self.d0[1], decoded[1]),
            replace(self.d0[2], decoded[2]),
            replace(self.d0[3], decoded[3]),
        ];
    }
}

/// The nudge that starts a loop.
pub open spec fn start_nudge(mode: RunMode) -> Nudge {
    match mode {
        RunMode::Mpc => Nudge {
            dist_m: Scalar { bits: mpc_loop::NUDGE_DIST },
            acc: mpc_loop::NUDGE_ACC,
            pause_ms: mpc_loop::MOTOR_PAUSE_MS,
        },
        RunMode::Lqi => Nudge {
            dist_m: Scalar { bits: lqi_loop::NUDGE_DIST },
            acc: lqi_loop::NUDGE_ACC,
            pause_ms: lqi_loop::MOTOR_PAUSE_MS,
        },
    }
}

/// How far from its home end every mass must be for a loop to start.
pub open spec fn start_threshold(mode: RunMode) -> Scalar {
    match mode {
        RunMode::Mpc => Scalar { bits: mpc_loop::INIT_MIN_D },
        RunMode::Lqi => Scalar { bits: lqi_loop::INIT_MIN_D },
    }
}

/// Starts the priming of a loop: with its nudges, and until every mass is as far
/// from its home end as the loop asks for.
pub fn begin_start<B: Bus>(bus: &mut B, mode: RunMode) -> (res: Priming)
    ensures
        ({
            let nudge = start_nudge(mode);
            final(bus).log() == old(bus).log() + rig::nudge_traffic(
                nudge.dist_m,
                Scalar { bits: NUDGE_SPD },
                nudge.acc,
                nudge.pause_ms,
            )
        }),
        res.d0 == crate::telemetry::no_positions(),
        res.min_d == start_threshold(mode),
        follows_script(*old(bus), *final(bus)),
{
    match mode {
        RunMode::Mpc => Priming::begin(
            bus,
            mpc_loop::nudge(),
            Scalar { bits: mpc_loop::INIT_MIN_D },
        ),
        RunMode::Lqi => Priming::begin(
            bus,
            lqi_loop::nudge(),
            Scalar { bits: lqi_loop::INIT_MIN_D },
        ),
    }
}

/// No mass is below the threshold of its loop when a priming of that loop is
/// ready, whatever was read on the way.
pub proof fn law_ready_masses_are_above_threshold(priming: Priming, mode: RunMode, i: int)
    requires
        priming.min_d == start_threshold(mode),
        !rail::any_below(priming.d0, priming.min_d),
        0 <= i < 4,
    ensures
        !priming.d0[i].lt(start_threshold(mode)),
{
}

/// An axis that was never read is at zero, so a priming with a positive
/// threshold is not ready before every axis has been read.
pub proof fn law_unread_axis_is_not_ready(d0: PerAxis, min_d: Scalar, i: int)
    requires
        0 <= i < 4,
        d0[i].bits == 0,
        !min_d.nan(),
        min_d.units() > 0,
    ensures
        rail::any_below(d0, min_d),
{
    assert(crate::scalar::magnitude_units(0) == 0);
    assert(d0[i].lt(min_d));
}

/// A poll updates each axis by its own reading; an axis without one keeps its position.
pub proof fn law_poll_updates_each_axis(d0: PerAxis, decoded: [Option<Scalar>; 4], i: int)
    requires
        0 <= i < 4,
    ensures
        decoded[i] is None ==> absorbed(d0, decoded)[i] == d0[i],
        decoded[i] matches Some(v) ==> absorbed(d0, decoded)[i] == v,
{
}

/// How the two loops start: the model-predictive one nudges by -0.001 m and waits for
/// 0.01 m, the linear-quadratic one nudges by -0.0015 m and waits for 0.05 m, each
/// within 2^-52 m.
pub proof fn law_starts_differ_by_loop()
    ensures
        ({
            let one = pow2(1074) as int;
            let (m, l) = (start_nudge(RunMode::Mpc), start_nudge(RunMode::Lqi));
            let (tm, tl) = (start_threshold(RunMode::Mpc), start_threshold(RunMode::Lqi));
            &&& -1000 * pow2(1022) <= 1000 * m.dist_m.units() + one <= 1000 * pow2(1022)
            &&& -2000 * pow2(1022) <= 2000 * l.dist_m.units() + 3 * one <= 2000 * pow2(1022)
            &&& -100 * pow2(1022) <= 100 * tm.units() - one <= 100 * pow2(1022)
            &&& -20 * pow2(1022) <= 20 * tl.units() - one <= 20 * pow2(1022)
            &&& m.acc == 128 && l.acc == 32
            &&& m.pause_ms == 120 && l.pause_ms == 100
        }),
{
    vstd::arithmetic::power2::lemma2_to64();
    vstd::arithmetic::power2::lemma2_to64_rest();
    let (a, b) = (0x3F50_624D_D2F1_A9FCu64, 0x3F58_9374_BC6A_7EFAu64);
    let (c, d) = (mpc_loop::INIT_MIN_D, lqi_loop::INIT_MIN_D);
    lemma_parts(a);
    lemma_parts(b);
    lemma_parts(c);
    lemma_parts(d);
    assert(places_of(a) == 1012 && significand_of(a) == 0x10_624D_D2F1_A9FC);
    assert(places_of(b) == 1012 && significand_of(b) == 0x18_9374_BC6A_7EFA);
    assert(places_of(c) == 1015 && significand_of(c) == 0x14_7AE1_47AE_147B);
    assert(places_of(d) == 1017 && significand_of(d) == 0x19_9999_9999_999A);
    assert((Scalar { bits: mpc_loop::NUDGE_DIST }).magnitude() == a);
    assert((Scalar { bits: lqi_loop::NUDGE_DIST }).magnitude() == b);
    lemma_pow2_adds(62, 1012);
    lemma_pow2_adds(10, 1012);
    lemma_pow2_adds(59, 1015);
    lemma_pow2_adds(7, 1015);
    lemma_pow2_adds(57, 1017);
    lemma_pow2_adds(5, 1017);
    lemma_pow2_pos(1012);
    lemma_pow2_pos(1015);
    lemma_pow2_pos(1017);
    lemma_times(1000, 0x10_624D_D2F1_A9FC, pow2(1012) as int);
    lemma_times(2000, 0x18_9374_BC6A_7EFA, pow2(1012) as int);
    lemma_times(3, 0x4000_0000_0000_0000, pow2(1012) as int);
    lemma_times(100, 0x14_7AE1_47AE_147B, pow2(1015) as int);
    lemma_times(20, 0x19_9999_9999_999A, pow2(1017) as int);
    lemma_times(1000, 0x400, pow2(1012) as int);
    lemma_times(2000, 0x400, pow2(1012) as int);
    lemma_times(100, 0x80, pow2(1015) as int);
    lemma_times(20, 0x20, pow2(1017) as int);
}

proof fn lemma_times(n: int, a: int, p: int)
    ensures
        n * (a * p) == (n * a) * p,
{
    assert(n * (a * p) == (n * a) * p) by (nonlinear_arith);
}

} // verus!
