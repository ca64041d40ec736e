//! Snapshots for the operator: one after every control cycle, and one after
//! each command that has an outcome to report.

use crate::rail::PerAxis;
use crate::scalar::Scalar;
use vstd::prelude::*;

verus! {

/// What runs on the side that owns the bus.
#[derive(Debug, Clone, Copy, PartialEq, Eq, Structural)]
pub enum RunState {
    Idle,
    Manual,
    Mpc,
    Lqi,
}

/// How a control cycle came to its command.
pub type ExitFlag = i32;

/// The command was computed.
pub const FLAG_SOLVED: ExitFlag = 1;

/// The controller is off; no command was sent.
pub const FLAG_OFF: ExitFlag = 0;

/// There was no solution; the previous command is held.
pub const FLAG_INFEASIBLE: ExitFlag = -1;

/// The masses still track the previous command, which is held.
pub const FLAG_HELD: ExitFlag = -99;

/// One snapshot.
#[derive(Debug)]
pub struct Telemetry {
    pub run_state: RunState,
    /// Whether the serial port is open.
    pub connected: bool,
    /// Whether this is a cycle of a control loop. If not, only `run_state`,
    /// `connected`, `is_poll`, `manual_read` and `status` mean anything.
    pub is_sample: bool,
    /// Whether this is a turn of the encoder poll, in which case `t_ms` and
    /// `d_meas` mean something too.
    pub is_poll: bool,
    /// The axis and the position, in metres, that a single encoder read gave.
    pub manual_read: Option<(u8, Scalar)>,
    /// Time since the run started, in milliseconds.
    pub t_ms: u64,
    pub roll_deg: Scalar,
    pub pitch_deg: Scalar,
    pub gyro_dps: [Scalar; 3],
    pub d_meas: PerAxis,
    pub d_cmd: PerAxis,
    pub e_deg: [Scalar; 2],
    /// How the cycle came to its command.
    pub exitflag: ExitFlag,
    pub status: String,
    /// Cycles of the loop so far.
    pub cycle: u64,
}

/// What a [`Telemetry`] says.
#[verifier::ext_equal]
pub struct Snapshot {
    pub run_state: RunState,
    pub connected: bool,
    pub is_sample: bool,
    pub is_poll: bool,
    pub manual_read: Option<(u8, Scalar)>,
    pub t_ms: u64,
    pub roll_deg: Scalar,
    pub pitch_deg: Scalar,
    pub gyro_dps: [Scalar; 3],
    pub d_meas: PerAxis,
    pub d_cmd: PerAxis,
    pub e_deg: [Scalar; 2],
    pub exitflag: ExitFlag,
    pub status: Seq<char>,
    pub cycle: u64,
}

impl View for Telemetry {
    type V = Snapshot;

    open spec fn view(&self) -> Snapshot {
        Snapshot {
            run_state: self.run_state,
            connected: self.connected,
            is_sample: self.is_sample,
            is_poll: self.is_poll,
            manual_read: self.manual_read,
            t_ms: self.t_ms,
            roll_deg: self.roll_deg,
            pitch_deg: self.pitch_deg,
            gyro_dps: self.gyro_dps,
            d_meas: self.d_meas,
            d_cmd: self.d_cmd,
            e_deg: self.e_deg,
            exitflag: self.exitflag,
            status: self.status@,
            cycle: self.cycle,
        }
    }
}

/// The positions of masses that were never measured.
pub open spec fn no_positions() -> PerAxis {
    [Scalar { bits: 0 }, Scalar { bits: 0 }, Scalar { bits: 0 }, Scalar { bits: 0 }]
}

/// A snapshot that only reports on a command: every reading is zero.
pub open spec fn notice(run_state: RunState, connected: bool, status: Seq<char>) -> Snapshot {
    let zero = Scalar { bits: 0 };
    Snapshot {
        run_state,
        connected,
        is_sample: false,
        is_poll: false,
        manual_read: None,
        t_ms: 0,
        roll_deg: zero,
        pitch_deg: zero,
        gyro_dps: [zero, zero, zero],
        d_meas: no_positions(),
        d_cmd: no_positions(),
        e_deg: [zero, zero],
        exitflag: 0,
        status,
        cycle: 0,
    }
}

impl Telemetry {
    /// A snapshot that only reports on a command.
    pub fn notice(run_state: RunState, connected: bool, status: String) -> (tel: Telemetry)
        ensures
            tel@ == notice(run_state, connected, status@),
    {
        let zero = Scalar { bits: 0 };
        Telemetry {
            run_state,
            connected,
            is_sample: false,
            is_poll: false,
            manual_read: None,
            t_ms: 0,
            roll_deg: zero,
            pitch_deg: zero,
            gyro_dps: [zero, zero, zero],
            d_meas: [zero, zero, zero, zero],
            d_cmd: [zero, zero, zero, zero],
            e_deg: [zero, zero],
            exitflag: 0,
            status,
            cycle: 0,
        }
    }
}

impl Telemetry {
    /// A copy of this snapshot.
    pub fn duplicate(&self) -> (tel: Telemetry)
        ensures
            tel@ == self@,
    {
        Telemetry {
            run_state: self.run_state,
            connected: self.connected,
            is_sample: self.is_sample,
            is_poll: self.is_poll,
            manual_read: self.manual_read,
            t_ms: self.t_ms,
            roll_deg: self.roll_deg,
            pitch_deg: self.pitch_deg,
            gyro_dps: self.gyro_dps,
            d_meas: self.d_meas,
            d_cmd: self.d_cmd,
            e_deg: self.e_deg,
            exitflag: self.exitflag,
            status: self.status.clone(),
            cycle: self.cycle,
        }
    }
}

impl Default for Telemetry {
    /// Idle, not connected, nothing to report.
    fn default() -> (tel: Telemetry)
        ensures
            tel@ == notice(RunState::Idle, false, Seq::empty()),
    {
        Telemetry::notice(RunState::Idle, false, String::new())
    }
}

/// A snapshot says of each reading what the telemetry holds, and a notice reads zero
/// everywhere but for its run state, connection and status.
pub proof fn law_snapshot_keeps_each_reading(
    tel: Telemetry,
    run_state: RunState,
    connected: bool,
    status: Seq<char>,
    k: int,
)
    requires
        0 <= k < 4,
    ensures
        tel@.run_state == tel.run_state && tel@.connected == tel.connected,
        tel@.is_sample == tel.is_sample && tel@.is_poll == tel.is_poll,
        tel@.manual_read == tel.manual_read && tel@.t_ms == tel.t_ms,
        tel@.roll_deg == tel.roll_deg && tel@.pitch_deg == tel.pitch_deg,
        k < 3 ==> tel@.gyro_dps[k] == tel.gyro_dps[k],
        tel@.d_meas[k] == tel.d_meas[k] && tel@.d_cmd[k] == tel.d_cmd[k],
        k < 2 ==> tel@.e_deg[k] == tel.e_deg[k],
        tel@.exitflag == tel.exitflag && tel@.status == tel.status@ && tel@.cycle == tel.cycle,
        notice(run_state, connected, status).run_state == run_state,
        notice(run_state, connected, status).connected == connected,
        notice(run_state, connected, status).status == status,
        !notice(run_state, connected, status).is_sample,
        !notice(run_state, connected, status).is_poll,
        notice(run_state, connected, status).manual_read is None,
        notice(run_state, connected, status).t_ms == 0,
        notice(run_state, connected, status).cycle == 0,
        notice(run_state, connected, status).exitflag == 0,
        notice(run_state, connected, status).roll_deg.bits == 0,
        notice(run_state, connected, status).pitch_deg.bits == 0,
        k < 3 ==> notice(run_state, connected, status).gyro_dps[k].bits == 0,
        notice(run_state, connected, status).d_meas[k].bits == 0,
        notice(run_state, connected, status).d_cmd[k].bits == 0,
        k < 2 ==> notice(run_state, connected, status).e_deg[k].bits == 0,
{
}

} // verus!
