//! What the operator's side asks of the side that owns the serial bus.
//!
//! The bus has one owner, so every manual action goes through these commands
//! too; otherwise its frames could fall between those of a running loop.

use crate::mpc_model::TuningWeights;
use crate::scalar::Scalar;
use vstd::prelude::*;

verus! {

/// Speed of manual moves and of the loops' moves, 180 RPM, as binary64 bits.
pub const DEFAULT_SPD: u64 = 0x4066_8000_0000_0000;

/// Acceleration of manual moves and of the loops' moves.
pub const DEFAULT_ACC: u8 = 64;

/// Default weights, as binary64 bits: 50 on the angles and on the yaw rate.
pub const DEFAULT_Q_ANGLE: u64 = 0x4049_0000_0000_0000;

/// 25 on the roll and pitch rates.
pub const DEFAULT_Q_RATE: u64 = 0x4039_0000_0000_0000;

/// 0.3 on the integrated errors.
pub const DEFAULT_QI: u64 = 0x3FD3_3333_3333_3333;

/// 5 on the mass positions.
pub const DEFAULT_QD: u64 = 0x4014_0000_0000_0000;

/// 400 on changes of the commands.
pub const DEFAULT_R: u64 = 0x4079_0000_0000_0000;

/// Default largest change of a command in one step, 0.01 m, as bits.
pub const DEFAULT_DU_MAX: u64 = 0x3F84_7AE1_47AE_147B;

/// Default tolerance of the tracking gate, 0.03 m, as bits.
pub const DEFAULT_D_TRACK_TOL: u64 = 0x3F9E_B851_EB85_1EB8;

/// Which control loop runs.
#[derive(Debug, Clone, Copy, PartialEq, Eq, Structural)]
pub enum RunMode {
    Mpc,
    Lqi,
}

/// How the linear-quadratic loop turns a torque into mass positions.
#[derive(Debug, Clone, Copy, PartialEq, Eq, Structural)]
pub enum MassSolver {
    Pinv,
    Qp,
}

/// The weights that the operator tunes, and the motion settings kept with them.
#[derive(Debug, Clone, Copy)]
pub struct TuneWeights {
    pub q: [Scalar; 5],
    pub qi: [Scalar; 2],
    pub qd: Scalar,
    pub r: Scalar,
    pub du_max: Scalar,
    pub d_track_tol: Scalar,
    /// Speed of moves, in RPM.
    pub jog_spd: Scalar,
    /// Acceleration of moves.
    pub jog_acc: u8,
}

/// The weights in use until the operator changes them.
pub open spec fn default_weights() -> TuneWeights {
    TuneWeights {
        q: [
            Scalar { bits: DEFAULT_Q_ANGLE },
            Scalar { bits: DEFAULT_Q_ANGLE },
            Scalar { bits: DEFAULT_Q_RATE },
            Scalar { bits: DEFAULT_Q_RATE },
            Scalar { bits: DEFAULT_Q_ANGLE },
        ],
        qi: [Scalar { bits: DEFAULT_QI }, Scalar { bits: DEFAULT_QI }],
        qd: Scalar { bits: DEFAULT_QD },
        r: Scalar { bits: DEFAULT_R },
        du_max: Scalar { bits: DEFAULT_DU_MAX },
        d_track_tol: Scalar { bits: DEFAULT_D_TRACK_TOL },
        jog_spd: Scalar { bits: DEFAULT_SPD },
        jog_acc: DEFAULT_ACC,
    }
}

impl Default for TuneWeights {
    fn default() -> (w: TuneWeights)
        ensures
            w == default_weights(),
    {
        let angle = Scalar { bits: DEFAULT_Q_ANGLE };
        let rate = Scalar { bits: DEFAULT_Q_RATE };
        let qi = Scalar { bits: DEFAULT_QI };
        TuneWeights {
            q: [angle, angle, rate, rate, angle],
            qi: [qi, qi],
            qd: Scalar { bits: DEFAULT_QD },
            r: Scalar { bits: DEFAULT_R },
            du_max: Scalar { bits: DEFAULT_DU_MAX },
            d_track_tol: Scalar { bits: DEFAULT_D_TRACK_TOL },
            jog_spd: Scalar { bits: DEFAULT_SPD },
            jog_acc: DEFAULT_ACC,
        }
    }
}

/// The weights of the model-predictive controller: all but the motion settings.
pub open spec fn tuning_of(w: TuneWeights) -> TuningWeights {
    TuningWeights {
        q: w.q,
        qi: w.qi,
        qd: w.qd,
        r: w.r,
        du_max: w.du_max,
        d_track_tol: w.d_track_tol,
    }
}

impl From<TuneWeights> for TuningWeights {
    fn from(w: TuneWeights) -> (res: TuningWeights) {
        TuningWeights {
            q: w.q,
            qi: w.qi,
            qd: w.qd,
            r: w.r,
            du_max: w.du_max,
            d_track_tol: w.d_track_tol,
        }
    }
}

impl vstd::std_specs::convert::FromSpecImpl<TuneWeights> for TuningWeights {
    open spec fn obeys_from_spec() -> bool {
        true
    }

    open spec fn from_spec(w: TuneWeights) -> TuningWeights {
        tuning_of(w)
    }
}

/// A command of the operator.
#[derive(Debug)]
pub enum UiCommand {
    /// Open the serial port of this name.
    Connect(String),
    Disconnect,
    RefreshPorts,
    /// Send all four axes home.
    Home,
    /// Read the encoder of one axis.
    ReadEncoder(u8),
    /// Move one axis to a position, in metres, at a speed in RPM.
    JogAbsolute { addr: u8, dist_m: Scalar, spd: Scalar, acc: u8 },
    /// Move one axis by a distance, in metres, at a speed in RPM.
    JogRelative { addr: u8, dist_m: Scalar, spd: Scalar, acc: u8 },
    /// Switch the controller of the running loop on or off.
    SetController(bool),
    /// Set the angles that the running loop tracks.
    SetSetpoint { roll_deg: Scalar, pitch_deg: Scalar },
    /// Choose the configuration for the next start.
    SetXyPreBalance(bool),
    SetMassSolver(MassSolver),
    UpdateWeights(TuneWeights),
    /// Start a control loop.
    StartAuto(RunMode),
    /// Stop whatever runs.
    Stop,
    /// Take the current weights into the running loop.
    TuneNow,
    /// Poll all four encoders while idle. A running loop is not interrupted.
    SetManualPoll(bool),
}

/// The model-predictive controller gets the operator's weights, each for what it is
/// named after.
pub proof fn law_tuning_keeps_each_weight(w: TuneWeights)
    ensures
        tuning_of(w).q == w.q,
        tuning_of(w).qi == w.qi,
        tuning_of(w).qd == w.qd,
        tuning_of(w).r == w.r,
        tuning_of(w).du_max == w.du_max,
        tuning_of(w).d_track_tol == w.d_track_tol,
        <TuningWeights as vstd::std_specs::convert::FromSpec<TuneWeights>>::from_spec(w)
            == tuning_of(w),
{
}

/// The weights before the operator changes any: 50 for the angles and the yaw rate, 25
/// for the other rates, 0.3 for the integrals, 5 for the positions, 400 for the commands;
/// 0.01 m for a step, 0.03 m for the tracking; 180 revolutions per minute.
pub proof fn law_default_weights()
    ensures
        ({
            let w = default_weights();
            &&& w.q[0].bits == 0x4049_0000_0000_0000 && w.q[1].bits == w.q[0].bits
            &&& w.q[2].bits == 0x4039_0000_0000_0000 && w.q[3].bits == w.q[2].bits
            &&& w.q[4].bits == w.q[0].bits
            &&& w.qi[0].bits == 0x3FD3_3333_3333_3333 && w.qi[1].bits == w.qi[0].bits
            &&& w.qd.bits == 0x4014_0000_0000_0000
            &&& w.r.bits == 0x4079_0000_0000_0000
            &&& w.du_max.bits == 0x3F84_7AE1_47AE_147B
            &&& w.d_track_tol.bits == 0x3F9E_B851_EB85_1EB8
            &&& w.jog_spd.bits == 0x4066_8000_0000_0000
        }),
{
}

} // verus!
