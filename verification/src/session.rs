//! The side that owns the serial bus: what each command of the operator does,
//! and which work is due between commands.
//!
//! A command is handled at once, bus traffic included, except for what needs the
//! operating system, time, or the solvers. That is asked for in a
//! [`Request`], whose outcome comes back through one of the methods of
//! [`Session`].

use crate::commands::{tuning_of, MassSolver, RunMode, TuneWeights, UiCommand};
use crate::lqi_gains::{lqi_weights_of, LqiWeights};
use crate::lqi_loop::LqiLoop;
use crate::matrix::Matrix;
use crate::mks;
use crate::mks_ops::{asked_fresh, last_reply};
use crate::mpc_loop::MpcLoop;
use crate::mpc_model::TuningWeights;
use crate::rail;
use crate::rail::PerAxis;
use crate::rig;
use crate::rig::Readings;
use crate::scalar::Scalar;
use crate::telemetry::{no_positions, notice, RunState, Snapshot, Telemetry};
use crate::text;
use crate::transport::{
    follows_script, law_script_is_followed_on, lemma_script_goes_on, lemma_script_stands_still, Bus,
    BusEvent,
};
use vstd::prelude::*;

verus! {

/// Baud rate of the serial port.
pub const BAUD: u32 = 115_200;

/// Read timeout of the serial port, in milliseconds.
pub const OPEN_TIMEOUT_MS: u64 = 300;

/// Pause after sending each axis home, in milliseconds.
pub const HOME_PAUSE_MS: u64 = 200;

/// Pause after a manual move, in milliseconds.
pub const JOG_PAUSE_MS: u64 = 120;

/// Length of a cycle of the linear-quadratic loop, in milliseconds.
pub const LQI_PLANT_T_MS: u64 = 3250;

/// Length of a turn of the encoder poll, in milliseconds.
pub const MANUAL_POLL_T_MS: u64 = 500;

/// The latest time at which the poll clock can still be advanced by a turn.
pub const MAX_POLL_MS: u64 = 18_446_744_073_709_551_115;

/// What runs between commands.
#[derive(Debug)]
pub enum Run {
    Idle,
    /// The encoders are polled; nothing moves. An axis keeps its position over
    /// a failed read.
    Manual { t_ms: u64, d_meas: PerAxis },
    Mpc { mpc: MpcLoop },
    Lqi { lqi: LqiLoop },
}

/// The state of the side that owns the bus.
#[derive(Debug)]
pub struct Session<B> {
    /// The open port, if there is one.
    pub bus: Option<B>,
    pub run: Run,
    pub weights: TuneWeights,
    pub mass_solver: MassSolver,
    /// Whether the next model-predictive run starts from a balanced platform.
    pub xy_pre_balance: bool,
}

/// What a command leaves for the caller to do.
#[derive(Debug)]
pub enum Request {
    /// Open this port, then call [`Session::opened`].
    OpenPort { port: String },
    /// Write this position, in metres, with four decimals, then call
    /// [`Session::encoder_described`].
    DescribeEncoder { addr: u8, position: Scalar },
    /// Prime the encoders and build a loop, then call [`Session::mpc_started`].
    StartMpc { xy_pre_balance: bool, tuning: TuningWeights },
    /// Solve the gains, then call [`Session::lqi_solved`].
    StartLqi { weights: LqiWeights },
    /// Prime the encoders and build a loop with these gains, then call
    /// [`Session::lqi_started`].
    PrimeLqi { weights: LqiWeights, kx: Matrix, ki: Matrix },
    /// Solve the gains again, then call [`Session::lqi_retuned`].
    RetuneLqi { weights: LqiWeights },
}

/// What a command leads to: a snapshot to send, and after it a request.
#[derive(Debug)]
pub struct Outcome {
    pub report: Option<Telemetry>,
    pub request: Option<Request>,
}

/// The work that is due when no command waits.
#[derive(Debug, Clone, Copy, PartialEq, Eq, Structural)]
pub enum Work {
    /// Wait for a command.
    Wait,
    /// Poll the encoders once.
    Poll,
    /// Run a cycle of the model-predictive loop.
    MpcCycle,
    /// Run a cycle of the linear-quadratic loop.
    LqiCycle,
}

/// What a snapshot shows as running.
pub open spec fn run_state_of(run: Run) -> RunState {
    match run {
        Run::Idle => RunState::Idle,
        Run::Manual { .. } => RunState::Manual,
        Run::Mpc { .. } => RunState::Mpc,
        Run::Lqi { .. } => RunState::Lqi,
    }
}

/// What a snapshot shows as running.
pub fn run_state(run: &Run) -> (res: RunState)
    ensures
        res == run_state_of(*run),
{
    match run {
        Run::Idle => RunState::Idle,
        Run::Manual { .. } => RunState::Manual,
        Run::Mpc { .. } => RunState::Mpc,
        Run::Lqi { .. } => RunState::Lqi,
    }
}

impl Outcome {
    /// Nothing to send and nothing to do.
    pub open spec fn silent(&self) -> bool {
        self.report is None && self.request is None
    }

    /// A snapshot to send, and nothing to do.
    pub open spec fn only_reports(&self, snapshot: Snapshot) -> bool {
        self.report is Some && self.report->0@ == snapshot && self.request is None
    }

    /// Nothing to send, and a request.
    pub open spec fn only_requests(&self, request: Request) -> bool {
        self.report is None && self.request == Some(request)
    }
}

/// The status of an encoder read that got no reply at all.
pub open spec fn timeout_status(addr: u8) -> Seq<char> {
    "Encoder["@ + text::decimal(addr as nat)
        + "]: timeout, 0 bytes back (check addr/baud/wiring)"@
}

/// The status of an encoder read that got a reply which does not parse.
pub open spec fn unparsable_status(addr: u8, reply: Seq<u8>) -> Seq<char> {
    "Encoder["@ + text::decimal(addr as nat) + "]: "@ + text::decimal(reply.len())
        + " bytes, unparsable: "@ + text::hex_list(reply)
}

/// The status of an encoder read that gave the position `metres`.
pub open spec fn encoder_status(addr: u8, metres: Seq<char>) -> Seq<char> {
    "Encoder["@ + text::decimal(addr as nat) + "] = "@ + metres + " m"@
}

/// The state that a started loop shows as running.
pub open spec fn target_state(mode: RunMode) -> RunState {
    match mode {
        RunMode::Mpc => RunState::Mpc,
        RunMode::Lqi => RunState::Lqi,
    }
}

/// The run with the controller switched.
pub open spec fn with_controller(run: Run, on: bool) -> Run {
    match run {
        Run::Mpc { mpc } => Run::Mpc { mpc: MpcLoop { controller_on: on, ..mpc } },
        Run::Lqi { lqi } => Run::Lqi { lqi: LqiLoop { controller_on: on, ..lqi } },
        _ => run,
    }
}

/// The run with other angles to track.
pub open spec fn with_setpoint(run: Run, setpoint_deg: [Scalar; 2]) -> Run {
    match run {
        Run::Mpc { mpc } => Run::Mpc { mpc: MpcLoop { setpoint_deg, ..mpc } },
        Run::Lqi { lqi } => Run::Lqi { lqi: LqiLoop { setpoint_deg, ..lqi } },
        _ => run,
    }
}

/// The run with another way to allocate torques.
pub open spec fn with_solver(run: Run, mass_solver: MassSolver) -> Run {
    match run {
        Run::Lqi { lqi } => Run::Lqi { lqi: LqiLoop { mass_solver, ..lqi } },
        _ => run,
    }
}

/// The run with other motion settings.
pub open spec fn with_motion(run: Run, spd: Scalar, acc: u8) -> Run {
    match run {
        Run::Mpc { mpc } => Run::Mpc { mpc: MpcLoop { spd, acc, ..mpc } },
        Run::Lqi { lqi } => Run::Lqi { lqi: LqiLoop { spd, acc, ..lqi } },
        _ => run,
    }
}

/// The run after the encoder poll was switched on or off.
pub open spec fn with_poll(run: Run, on: bool) -> Run {
    if on && run is Idle {
        Run::Manual { t_ms: 0, d_meas: no_positions() }
    } else if !on && run is Manual {
        Run::Idle
    } else {
        run
    }
}

/// `after` differs from `before` at most in what has passed over the bus.
pub open spec fn only_bus_used<B>(before: Session<B>, after: Session<B>) -> bool {
    &&& after == (Session { bus: after.bus, ..before })
    &&& after.bus is Some == before.bus is Some
}

/// What passed over the bus, if it is the same one, followed its script.
pub open spec fn keeps_script<B: Bus>(before: Session<B>, after: Session<B>) -> bool {
    before.bus is Some && after.bus is Some ==> follows_script(before.bus->0, after.bus->0)
}

proof fn lemma_session_stands_still<B: Bus>(session: Session<B>)
    ensures
        keeps_script(session, session),
{
    if session.bus is Some {
        lemma_script_stands_still(session.bus->0);
    }
}

/// With an open port, `traffic` passes over the bus; without one, nothing
/// happens. Nothing else changes.
pub open spec fn sends<B: Bus>(
    before: Session<B>,
    after: Session<B>,
    traffic: Seq<BusEvent>,
) -> bool {
    &&& only_bus_used(before, after)
    &&& before.bus is Some ==> after.bus->0.log() == before.bus->0.log() + traffic
}

/// An encoder read over an open port: the request and the reply pass over the
/// bus, and the outcome tells a missing reply, a bad reply and a reading apart.
pub open spec fn encoder_read<B: Bus>(
    before: Session<B>,
    addr: u8,
    after: Session<B>,
    outcome: Outcome,
) -> bool {
    let reply = last_reply(after.bus->0.log());
    &&& only_bus_used(before, after)
    &&& before.bus is None ==> outcome.silent()
    &&& before.bus is Some ==> {
        &&& after.bus->0.log() == asked_fresh(
            before.bus->0.log(),
            mks::request_frame(addr, mks::FUNC_READ_ENCODER),
            mks::ENCODER_REPLY_LEN as nat,
            reply,
        )
        &&& match mks::encoder_reply(addr, reply) {
            Some(position) => outcome.only_requests(Request::DescribeEncoder { addr, position }),
            None => outcome.only_reports(
                notice(
                    run_state_of(before.run),
                    true,
                    if reply.len() == 0 {
                        timeout_status(addr)
                    } else {
                        unparsable_status(addr, reply)
                    },
                ),
            ),
        }
    }
}

/// The start of a loop: with an open port it is announced and asked for. The
/// announcement already shows the loop as running, since an idle snapshot means
/// that the start has failed.
pub open spec fn start_requested<B>(session: Session<B>, mode: RunMode, outcome: Outcome) -> bool {
    if session.bus is Some {
        &&& outcome.report is Some
        &&& outcome.report->0@ == notice(target_state(mode), true, "Initializing..."@)
        &&& outcome.request == Some(
            match mode {
                RunMode::Mpc => Request::StartMpc {
                    xy_pre_balance: session.xy_pre_balance,
                    tuning: tuning_of(session.weights),
                },
                RunMode::Lqi => Request::StartLqi { weights: lqi_weights_of(session.weights) },
            },
        )
    } else {
        outcome.silent()
    }
}

/// What the command `cmd` does.
pub open spec fn handled<B: Bus>(
    before: Session<B>,
    cmd: UiCommand,
    after: Session<B>,
    outcome: Outcome,
) -> bool {
    match cmd {
        UiCommand::Connect(port) => after == before && outcome.only_requests(
            Request::OpenPort { port },
        ),
        UiCommand::Disconnect => after == (Session { bus: None, run: Run::Idle, ..before })
            && outcome.only_reports(notice(RunState::Idle, false, "Disconnected"@)),
        UiCommand::RefreshPorts => after == before && outcome.silent(),
        UiCommand::Home => sends(before, after, rig::home_traffic(HOME_PAUSE_MS))
            && outcome.silent(),
        UiCommand::ReadEncoder(addr) => encoder_read(before, addr, after, outcome),
        UiCommand::JogAbsolute { addr, dist_m, spd, acc } => sends(
            before,
            after,
            rig::move_traffic(mks::FUNC_RUN_ABS, addr, dist_m, spd, acc, JOG_PAUSE_MS),
        ) && outcome.silent(),
        UiCommand::JogRelative { addr, dist_m, spd, acc } => sends(
            before,
            after,
            rig::move_traffic(mks::FUNC_RUN_REL, addr, dist_m, spd, acc, JOG_PAUSE_MS),
        ) && outcome.silent(),
        UiCommand::SetController(on) => after == (Session {
            run: with_controller(before.run, on),
            ..before
        }) && outcome.silent(),
        UiCommand::SetSetpoint { roll_deg, pitch_deg } => after == (Session {
            run: with_setpoint(before.run, [roll_deg, pitch_deg]),
            ..before
        }) && outcome.silent(),
        UiCommand::SetXyPreBalance(v) => after == (Session { xy_pre_balance: v, ..before })
            && outcome.silent(),
        UiCommand::SetMassSolver(solver) => after == (Session {
            mass_solver: solver,
            run: with_solver(before.run, solver),
            ..before
        }) && outcome.silent(),
        UiCommand::UpdateWeights(w) => after == (Session {
            weights: w,
            run: with_motion(before.run, w.jog_spd, w.jog_acc),
            ..before
        }) && outcome.silent(),
        UiCommand::StartAuto(mode) => after == before && start_requested(before, mode, outcome),
        UiCommand::Stop => after == (Session { run: Run::Idle, ..before }) && outcome.silent(),
        UiCommand::TuneNow => match before.run {
            Run::Mpc { mpc } => {
                let ctrl = after.run->mpc.ctrl;
                &&& ctrl.assembled(mpc.preset, mpc.d_op, Some(tuning_of(before.weights)))
                &&& after == (Session { run: Run::Mpc { mpc: MpcLoop { ctrl, ..mpc } }, ..before })
                &&& outcome.silent()
            },
            Run::Lqi { .. } => after == before && outcome.only_requests(
                Request::RetuneLqi { weights: lqi_weights_of(before.weights) },
            ),
            _ => after == before && outcome.silent(),
        },
        UiCommand::SetManualPoll(on) => after == (Session {
            run: with_poll(before.run, on),
            ..before
        }) && outcome.silent(),
    }
}

impl Run {
    fn set_controller(&mut self, on: bool)
        ensures
            *final(self) == with_controller(*old(self), on),
    {
        match self {
            Run::Mpc { mpc } => {
                mpc.controller_on = on;
            },
            Run::Lqi { lqi } => {
                lqi.controller_on = on;
            },
            _ => {},
        }
    }

    fn set_setpoint(&mut self, setpoint_deg: [Scalar; 2])
        ensures
            *final(self) == with_setpoint(*old(self), setpoint_deg),
    {
        match self {
            Run::Mpc { mpc } => {
                mpc.setpoint_deg = setpoint_deg;
            },
            Run::Lqi { lqi } => {
                lqi.setpoint_deg = setpoint_deg;
            },
            _ => {},
        }
    }

    fn set_mass_solver(&mut self, solver: MassSolver)
        ensures
            *final(self) == with_solver(*old(self), solver),
    {
        if let Run::Lqi { lqi } = self {
            lqi.mass_solver = solver;
        }
    }

    fn set_motion(&mut self, spd: Scalar, acc: u8)
        ensures
            *final(self) == with_motion(*old(self), spd, acc),
    {
        match self {
            Run::Mpc { mpc } => {
                mpc.spd = spd;
                mpc.acc = acc;
            },
            Run::Lqi { lqi } => {
                lqi.spd = spd;
                lqi.acc = acc;
            },
            _ => {},
        }
    }

    fn set_poll(&mut self, on: bool)
        ensures
            *final(self) == with_poll(*old(self), on),
    {
        let zero = Scalar { bits: 0 };
        if on {
            if let Run::Idle = self {
                *self = Run::Manual { t_ms: 0, d_meas: [zero, zero, zero, zero] };
            }
        } else if let Run::Manual { .. } = self {
            *self = Run::Idle;
        }
    }
}

fn no_outcome() -> (res: Outcome)
    ensures
        res.silent(),
{
    Outcome { report: None, request: None }
}

fn requesting(request: Request) -> (res: Outcome)
    ensures
        res.only_requests(request),
{
    Outcome { report: None, request: Some(request) }
}

fn reporting(run_state: RunState, connected: bool, status: String) -> (res: Outcome)
    ensures
        res.only_reports(notice(run_state, connected, status@)),
{
    Outcome { report: Some(Telemetry::notice(run_state, connected, status)), request: None }
}

/// The status of a failed encoder read.
fn failed_read_status(addr: u8, reply: &[u8]) -> (status: String)
    ensures
        status@ == if reply@.len() == 0 {
            timeout_status(addr)
        } else {
            unparsable_status(addr, reply@)
        },
{
    let mut status: String = "Encoder[".to_owned();
    text::append_decimal(&mut status, addr as u64);
    if reply.len() == 0 {
        status.append("]: timeout, 0 bytes back (check addr/baud/wiring)");
    } else {
        status.append("]: ");
        text::append_decimal(&mut status, reply.len() as u64);
        status.append(" bytes, unparsable: ");
        text::append_hex_list(&mut status, reply);
    }
    status
}

/// The positions of a poll: readings that are missing or not finite leave the
/// previous position.
pub open spec fn polled(previous: PerAxis, decoded: [Option<Scalar>; 4]) -> PerAxis {
    [
        rail::held(previous[0], decoded[0]),
        rail::held(previous[1], decoded[1]),
        rail::held(previous[2], decoded[2]),
        rail::held(previous[3], decoded[3]),
    ]
}

/// What a turn of the poll that ends at `t_ms` with the positions `d_meas`
/// reports. It is no sample, which only a cycle of a control loop gives.
pub open spec fn poll_report(t_ms: u64, d_meas: PerAxis) -> Snapshot {
    Snapshot {
        is_poll: true,
        t_ms,
        d_meas,
        ..notice(RunState::Manual, true, "Manual live read"@)
    }
}

/// What is reported when a linear-quadratic loop could not be started.
pub open spec fn lqi_failure() -> Snapshot {
    notice(
        RunState::Idle,
        true,
        "LQI init failed: jog all 4 axes above ~50mm first, or check the tuning weights (R = 0 or an all-zero Q makes the gain solve singular)"@,
    )
}

fn report_lqi_failure() -> (report: Telemetry)
    ensures
        report@ == lqi_failure(),
{
    Telemetry::notice(
        RunState::Idle,
        true,
        "LQI init failed: jog all 4 axes above ~50mm first, or check the tuning weights (R = 0 or an all-zero Q makes the gain solve singular)".to_owned(),
    )
}

impl<B: Bus> Session<B> {
    /// A session without a port, idle, with the default settings.
    pub fn new() -> (res: Session<B>)
        ensures
            res.bus is None,
            res.run is Idle,
            res.weights == crate::commands::default_weights(),
            res.mass_solver == MassSolver::Pinv,
            !res.xy_pre_balance,
    {
        Session {
            bus: None,
            run: Run::Idle,
            weights: TuneWeights::default(),
            mass_solver: MassSolver::Pinv,
            xy_pre_balance: false,
        }
    }

    /// Handles one command of the operator.
    pub fn handle_command(&mut self, cmd: UiCommand) -> (outcome: Outcome)
        ensures
            handled(*old(self), cmd, *final(self), outcome),
            keeps_script(*old(self), *final(self)),
    {
        proof {
            lemma_session_stands_still(*self);
        }
        match cmd {
            UiCommand::Connect(port) => requesting(Request::OpenPort { port }),
            UiCommand::Disconnect => {
                self.bus = None;
                self.run = Run::Idle;
                reporting(RunState::Idle, false, "Disconnected".to_owned())
            },
            UiCommand::RefreshPorts => no_outcome(),
            UiCommand::Home => {
                if let Some(bus) = &mut self.bus {
                    rig::home_axes(bus, HOME_PAUSE_MS);
                }
                no_outcome()
            },
            UiCommand::ReadEncoder(addr) => self.read_encoder(addr),
            UiCommand::JogAbsolute { addr, dist_m, spd, acc } => {
                if let Some(bus) = &mut self.bus {
                    rig::move_to(bus, addr, dist_m, spd, acc, JOG_PAUSE_MS);
                }
                no_outcome()
            },
            UiCommand::JogRelative { addr, dist_m, spd, acc } => {
                if let Some(bus) = &mut self.bus {
                    rig::move_by(bus, addr, dist_m, spd, acc, JOG_PAUSE_MS);
                }
                no_outcome()
            },
            UiCommand::SetController(on) => {
                self.run.set_controller(on);
                no_outcome()
            },
            UiCommand::SetSetpoint { roll_deg, pitch_deg } => {
                self.run.set_setpoint([roll_deg, pitch_deg]);
                no_outcome()
            },
            UiCommand::SetXyPreBalance(v) => {
                self.xy_pre_balance = v;
                no_outcome()
            },
            UiCommand::SetMassSolver(solver) => {
                self.mass_solver = solver;
                self.run.set_mass_solver(solver);
                no_outcome()
            },
            UiCommand::UpdateWeights(w) => {
                self.weights = w;
                self.run.set_motion(w.jog_spd, w.jog_acc);
                no_outcome()
            },
            UiCommand::StartAuto(mode) => self.request_start(mode),
            UiCommand::Stop => {
                self.run = Run::Idle;
                no_outcome()
            },
            UiCommand::TuneNow => match &mut self.run {
                Run::Mpc { mpc } => {
                    mpc.retune(TuningWeights::from(self.weights));
                    no_outcome()
                },
                Run::Lqi { .. } => requesting(
                    Request::RetuneLqi { weights: LqiWeights::from(self.weights) },
                ),
                _ => no_outcome(),
            },
            UiCommand::SetManualPoll(on) => {
                self.run.set_poll(on);
                no_outcome()
            },
        }
    }

    /// Announces the start of a loop and asks for it, if the port is open.
    fn request_start(&self, mode: RunMode) -> (outcome: Outcome)
        ensures
            start_requested(*self, mode, outcome),
    {
        if self.bus.is_none() {
            return no_outcome();
        }
        let (state, request) = match mode {
            RunMode::Mpc => (
                RunState::Mpc,
                Request::StartMpc {
                    xy_pre_balance: self.xy_pre_balance,
                    tuning: TuningWeights::from(self.weights),
                },
            ),
            RunMode::Lqi => (
                RunState::Lqi,
                Request::StartLqi { weights: LqiWeights::from(self.weights) },
            ),
        };
        Outcome {
            report: Some(Telemetry::notice(state, true, "Initializing...".to_owned())),
            request: Some(request),
        }
    }

    /// Reads the encoder of one axis, keeping a reply that does not parse for
    /// the status.
    fn read_encoder(&mut self, addr: u8) -> (outcome: Outcome)
        ensures
            encoder_read(*old(self), addr, *final(self), outcome),
            keeps_script(*old(self), *final(self)),
    {
        proof {
            lemma_session_stands_still(*self);
        }
        let state = run_state(&self.run);
        match &mut self.bus {
            None => no_outcome(),
            Some(bus) => {
                let ghost start = *bus;
                bus.flush_input();
                let ghost flushed = *bus;
                bus.write_bytes(mks::build_read_encoder(addr).as_slice());
                let ghost asked = *bus;
                let reply: Vec<u8> = bus.read_up_to(mks::ENCODER_REPLY_LEN);
                proof {
                    broadcast use law_script_is_followed_on;

                    lemma_script_goes_on(start, flushed, BusEvent::Flush);
                    lemma_script_goes_on(flushed, asked, asked.log().last());
                    lemma_script_goes_on(asked, *bus, bus.log().last());
                }
                match mks::parse_encoder_reply(addr, reply.as_slice()) {
                    Some(position) => requesting(Request::DescribeEncoder { addr, position }),
                    None => reporting(state, true, failed_read_status(addr, reply.as_slice())),
                }
            },
        }
    }
}

/// A loop that runs is sound and between cycles.
pub open spec fn run_sound(run: Run) -> bool {
    match run {
        Run::Mpc { mpc } => mpc.wf() && mpc.phase is Resting,
        Run::Lqi { lqi } => lqi.wf() && lqi.phase is Resting,
        _ => true,
    }
}

/// The work that is due: a loop or the poll runs only over an open port.
pub open spec fn work_due<B>(session: Session<B>) -> Work {
    match session.run {
        Run::Manual { .. } if session.bus is Some => Work::Poll,
        Run::Mpc { .. } if session.bus is Some => Work::MpcCycle,
        Run::Lqi { .. } if session.bus is Some => Work::LqiCycle,
        _ => Work::Wait,
    }
}

/// How much of a cycle of `period_ms` milliseconds is left after `elapsed_ns`
/// nanoseconds, in nanoseconds; none when the cycle has overrun.
pub fn sleep_remaining(elapsed_ns: u128, period_ms: u64) -> (left_ns: u128)
    ensures
        elapsed_ns < period_ms * 1_000_000 ==> left_ns == period_ms * 1_000_000 - elapsed_ns,
        elapsed_ns >= period_ms * 1_000_000 ==> left_ns == 0,
{
    let period_ns: u128 = period_ms as u128 * 1_000_000;
    if elapsed_ns < period_ns {
        period_ns - elapsed_ns
    } else {
        0
    }
}

impl<B: Bus> Session<B> {
    /// Takes in the outcome of opening `port`. A failure leaves no port open,
    /// not even an earlier one.
    pub fn opened(&mut self, port: &str, result: Result<B, String>) -> (report: Telemetry)
        ensures
            match result {
                Ok(bus) => *final(self) == (Session { bus: Some(bus), ..*old(self) }) && report@
                    == notice(run_state_of(old(self).run), true, "Connected ("@ + port@ + ")"@),
                Err(e) => *final(self) == (Session { bus: None, ..*old(self) }) && report@
                    == notice(run_state_of(old(self).run), false, "Connect failed: "@ + e@),
            },
    {
        let state = run_state(&self.run);
        match result {
            Ok(bus) => {
                self.bus = Some(bus);
                let status: String = "Connected (".to_owned().concat(port).concat(")");
                Telemetry::notice(state, true, status)
            },
            Err(e) => {
                self.bus = None;
                Telemetry::notice(state, false, "Connect failed: ".to_owned().concat(e.as_str()))
            },
        }
    }

    /// The snapshot for an encoder read of axis `addr` that gave `position`
    /// metres, which is `metres` in the status.
    pub fn encoder_described(&self, addr: u8, position: Scalar, metres: &str) -> (report: Telemetry)
        ensures
            report@ == (Snapshot {
                manual_read: Some((addr, position)),
                ..notice(run_state_of(self.run), true, encoder_status(addr, metres@))
            }),
    {
        let mut status: String = "Encoder[".to_owned();
        text::append_decimal(&mut status, addr as u64);
        status.append("] = ");
        status.append(metres);
        status.append(" m");
        let mut report = Telemetry::notice(run_state(&self.run), true, status);
        report.manual_read = Some((addr, position));
        report
    }

    /// Takes in a started model-predictive loop, which gets the motion settings;
    /// without one the session is idle and says why.
    pub fn mpc_started(&mut self, started: Option<MpcLoop>) -> (report: Option<Telemetry>)
        requires
            started matches Some(mpc) ==> run_sound(Run::Mpc { mpc }),
        ensures
            run_sound(final(self).run),
            match started {
                Some(mpc) => report is None && *final(self) == (Session {
                    run: Run::Mpc {
                        mpc: MpcLoop {
                            spd: old(self).weights.jog_spd,
                            acc: old(self).weights.jog_acc,
                            ..mpc
                        },
                    },
                    ..*old(self)
                }),
                None => report is Some && report->0@ == notice(
                    RunState::Idle,
                    true,
                    "MPC init timed out: jog all 4 axes above ~10mm first, then retry Start Auto"@,
                ) && *final(self) == (Session { run: Run::Idle, ..*old(self) }),
            },
    {
        match started {
            Some(mut mpc) => {
                mpc.spd = self.weights.jog_spd;
                mpc.acc = self.weights.jog_acc;
                self.run = Run::Mpc { mpc };
                None
            },
            None => {
                self.run = Run::Idle;
                Some(
                    Telemetry::notice(
                        RunState::Idle,
                        true,
                        "MPC init timed out: jog all 4 axes above ~10mm first, then retry Start Auto".to_owned(),
                    ),
                )
            },
        }
    }

    /// Takes in the gains for a linear-quadratic loop. With them the encoders are
    /// to be primed, which moves the masses; without them nothing moves, the
    /// session is idle and says why.
    pub fn lqi_solved(
        &mut self,
        weights: LqiWeights,
        gains: Option<(Matrix, Matrix)>,
    ) -> (outcome: Outcome)
        ensures
            match gains {
                Some((kx, ki)) => *final(self) == *old(self) && outcome.only_requests(
                    Request::PrimeLqi { weights, kx, ki },
                ),
                None => *final(self) == (Session { run: Run::Idle, ..*old(self) })
                    && outcome.only_reports(lqi_failure()),
            },
    {
        match gains {
            Some((kx, ki)) => requesting(Request::PrimeLqi { weights, kx, ki }),
            None => {
                self.run = Run::Idle;
                Outcome { report: Some(report_lqi_failure()), request: None }
            },
        }
    }

    /// Takes in a started linear-quadratic loop, which gets the motion settings
    /// and the way to allocate torques; without one the session is idle and
    /// says why.
    pub fn lqi_started(&mut self, started: Option<LqiLoop>) -> (report: Option<Telemetry>)
        requires
            started matches Some(lqi) ==> run_sound(Run::Lqi { lqi }),
        ensures
            run_sound(final(self).run),
            match started {
                Some(lqi) => report is None && *final(self) == (Session {
                    run: Run::Lqi {
                        lqi: LqiLoop {
                            mass_solver: old(self).mass_solver,
                            spd: old(self).weights.jog_spd,
                            acc: old(self).weights.jog_acc,
                            ..lqi
                        },
                    },
                    ..*old(self)
                }),
                None => report is Some && report->0@ == lqi_failure() && *final(self) == (Session { run: Run::Idle, ..*old(self) }),
            },
    {
        match started {
            Some(mut lqi) => {
                lqi.mass_solver = self.mass_solver;
                lqi.spd = self.weights.jog_spd;
                lqi.acc = self.weights.jog_acc;
                self.run = Run::Lqi { lqi };
                None
            },
            None => {
                self.run = Run::Idle;
                Some(report_lqi_failure())
            },
        }
    }

    /// Takes new gains into a running linear-quadratic loop; without them the
    /// loop goes on with its old ones and the operator is told.
    pub fn lqi_retuned(
        &mut self,
        weights: &LqiWeights,
        gains: Option<(Matrix, Matrix)>,
    ) -> (report: Option<Telemetry>)
        ensures
            match old(self).run {
                Run::Lqi { lqi } => match gains {
                    Some((kx, ki)) => report is None && *final(self) == (Session {
                        run: Run::Lqi {
                            lqi: LqiLoop {
                                kx,
                                ki,
                                du_max: weights.du_max,
                                d_track_tol: weights.d_track_tol,
                                ..lqi
                            },
                        },
                        ..*old(self)
                    }),
                    None => *final(self) == *old(self) && report is Some && report->0@ == notice(
                        RunState::Lqi,
                        true,
                        "Tune Now: LQI gain solve failed, keeping previous gains (check R and Q — R = 0 is singular)"@,
                    ),
                },
                _ => *final(self) == *old(self) && report is None,
            },
            run_sound(old(self).run) ==> run_sound(final(self).run),
    {
        if let Run::Lqi { lqi } = &mut self.run {
            if !lqi.retune(weights, gains) {
                return Some(
                    Telemetry::notice(
                        RunState::Lqi,
                        true,
                        "Tune Now: LQI gain solve failed, keeping previous gains (check R and Q — R = 0 is singular)".to_owned(),
                    ),
                );
            }
        }
        None
    }

    /// Takes in that a cycle of the loop `mode` broke off, for the reason
    /// `reason`. The session is idle.
    pub fn crashed(&mut self, mode: RunMode, reason: &str) -> (report: Telemetry)
        ensures
            *final(self) == (Session { run: Run::Idle, ..*old(self) }),
            report@ == notice(
                RunState::Idle,
                true,
                (match mode {
                    RunMode::Mpc => "MPC loop crashed: "@,
                    RunMode::Lqi => "LQI loop crashed: "@,
                }) + reason@,
            ),
    {
        self.run = Run::Idle;
        let head: String = match mode {
            RunMode::Mpc => "MPC loop crashed: ".to_owned(),
            RunMode::Lqi => "LQI loop crashed: ".to_owned(),
        };
        Telemetry::notice(RunState::Idle, true, head.concat(reason))
    }

    /// The work that is due when no command waits.
    pub fn next_work(&self) -> (work: Work)
        ensures
            work == work_due(*self),
    {
        if self.bus.is_none() {
            return Work::Wait;
        }
        match &self.run {
            Run::Idle => Work::Wait,
            Run::Manual { .. } => Work::Poll,
            Run::Mpc { .. } => Work::MpcCycle,
            Run::Lqi { .. } => Work::LqiCycle,
        }
    }

    /// Takes a turn of the poll: reads all four encoders and reports the positions.
    pub fn poll(&mut self) -> (report: Telemetry)
        requires
            work_due(*old(self)) is Poll,
            old(self).run->t_ms <= MAX_POLL_MS,
        ensures
            ({
                let t_ms = (old(self).run->t_ms + MANUAL_POLL_T_MS) as u64;
                let (log, log_after) = (old(self).bus->0.log(), final(self).bus->0.log());
                let readings = rig::sweep_readings(log_after, log.len() as int, 0);
                let d_meas = polled(old(self).run->d_meas, readings);
                &&& rig::swept(log, log_after, 0)
                &&& final(self).bus is Some
                &&& *final(self) == (Session {
                    bus: final(self).bus,
                    run: Run::Manual { t_ms, d_meas },
                    ..*old(self)
                })
                &&& report@ == poll_report(t_ms, d_meas)
            }),
            keeps_script(*old(self), *final(self)),
    {
        let decoded: Readings = match &mut self.bus {
            Some(bus) => rig::read_axes(bus, 0),
            None => [None, None, None, None],
        };
        let (before_ms, previous): (u64, PerAxis) = match &self.run {
            Run::Manual { t_ms, d_meas } => (*t_ms, *d_meas),
            _ => (0, [Scalar { bits: 0 }; 4]),
        };
        let t_ms: u64 = before_ms + MANUAL_POLL_T_MS;
        let d_meas: PerAxis = [
            rail::hold_reading(previous[0], decoded[0]),
            rail::hold_reading(previous[1], decoded[1]),
            rail::hold_reading(previous[2], decoded[2]),
            rail::hold_reading(previous[3], decoded[3]),
        ];
        self.run = Run::Manual { t_ms, d_meas };
        let mut report = Telemetry::notice(RunState::Manual, true, "Manual live read".to_owned());
        report.is_poll = true;
        report.t_ms = t_ms;
        report.d_meas = d_meas;
        report
    }
}

/// No command disturbs a running loop: it stays sound and between cycles, or it
/// ends.
pub proof fn law_commands_keep_loops_sound<B: Bus>(
    before: Session<B>,
    cmd: UiCommand,
    after: Session<B>,
    outcome: Outcome,
)
    requires
        handled(before, cmd, after, outcome),
        run_sound(before.run),
    ensures
        run_sound(after.run),
{
}

/// No command changes where the model of a running loop is linearized, or its
/// preset, and a retune builds the model for exactly these and the current
/// weights. It keeps everything else.
pub proof fn law_retune_happens_at_start<B: Bus>(
    before: Session<B>,
    cmd: UiCommand,
    after: Session<B>,
    outcome: Outcome,
)
    requires
        handled(before, cmd, after, outcome),
        before.run is Mpc,
    ensures
        after.run matches Run::Mpc { mpc } ==> mpc.preset == before.run->mpc.preset && mpc.d_op
            == before.run->mpc.d_op,
        cmd is TuneNow ==> {
            let (old_loop, new_loop) = (before.run->mpc, after.run->mpc);
            &&& after.run is Mpc
            &&& new_loop.ctrl.assembled(
                old_loop.preset,
                old_loop.d_op,
                Some(tuning_of(before.weights)),
            )
            &&& new_loop == (MpcLoop { ctrl: new_loop.ctrl, ..old_loop })
        },
{
}

/// Stopping and disconnecting leave nothing running, whatever ran before, and
/// disconnecting closes the port.
pub proof fn law_stop_and_disconnect_end_idle<B: Bus>(
    before: Session<B>,
    cmd: UiCommand,
    after: Session<B>,
    outcome: Outcome,
)
    requires
        handled(before, cmd, after, outcome),
        cmd is Stop || cmd is Disconnect,
    ensures
        after.run is Idle,
        work_due(after) is Wait,
        cmd is Disconnect ==> after.bus is None,
        cmd is Stop ==> after.bus == before.bus,
{
}

/// Switching the encoder poll never interrupts a control loop, and never starts
/// one.
pub proof fn law_poll_never_interrupts_a_loop<B: Bus>(
    before: Session<B>,
    on: bool,
    after: Session<B>,
    outcome: Outcome,
)
    requires
        handled(before, UiCommand::SetManualPoll(on), after, outcome),
    ensures
        before.run is Mpc || before.run is Lqi ==> after.run == before.run,
        after.run is Mpc ==> before.run is Mpc,
        after.run is Lqi ==> before.run is Lqi,
        after.run is Manual ==> on || before.run is Manual && before.run == after.run,
{
}

/// Without an open port no command starts a loop or asks for anything but to
/// open one or to retune what runs, and nothing is due.
pub proof fn law_no_port_no_motion<B: Bus>(
    before: Session<B>,
    cmd: UiCommand,
    after: Session<B>,
    outcome: Outcome,
)
    requires
        handled(before, cmd, after, outcome),
        before.bus is None,
    ensures
        after.bus is None,
        work_due(after) is Wait,
        outcome.request matches Some(request) ==> request is OpenPort || request is RetuneLqi,
{
}

/// Only homing and manual moves make a motor move; any other command leaves the
/// bus alone, closes it, or reads an encoder.
pub proof fn law_only_motion_commands_move<B: Bus>(
    before: Session<B>,
    cmd: UiCommand,
    after: Session<B>,
    outcome: Outcome,
)
    requires
        handled(before, cmd, after, outcome),
        !(cmd is Home || cmd is JogAbsolute || cmd is JogRelative),
        after.bus is Some,
    ensures
        before.bus is Some,
        before.bus->0.log().is_prefix_of(after.bus->0.log()),
        rig::motionless(after.bus->0.log().skip(before.bus->0.log().len() as int)),
{
    let log = before.bus->0.log();
    let log_after = after.bus->0.log();
    if let UiCommand::ReadEncoder(addr) = cmd {
        let reply = last_reply(log_after);
        assert(log_after =~= log + rig::encoder_exchange(addr, reply, 0));
        rig::law_reading_moves_nothing(addr, reply, 0);
        assert(log_after.skip(log.len() as int) =~= rig::encoder_exchange(addr, reply, 0));
    } else {
        assert(log_after == log);
        assert(log.skip(log.len() as int) =~= Seq::empty());
    }
}

/// Switching the controller reaches the running loop, and changes nothing else in it.
pub proof fn law_controller_switch_reaches_loop<B: Bus>(
    before: Session<B>,
    on: bool,
    after: Session<B>,
    outcome: Outcome,
)
    requires
        handled(before, UiCommand::SetController(on), after, outcome),
    ensures
        before.run matches Run::Mpc { mpc } ==> after.run is Mpc && after.run->mpc == (MpcLoop {
            controller_on: on,
            ..mpc
        }),
        before.run matches Run::Lqi { lqi } ==> after.run is Lqi && after.run->lqi == (LqiLoop {
            controller_on: on,
            ..lqi
        }),
        after == (Session { run: after.run, ..before }),
        before.run is Idle ==> after.run is Idle,
        before.run is Manual ==> after.run == before.run,
        outcome.report is None && outcome.request is None,
{
}

/// The angles that the operator sets reach the running loop, roll as the first and
/// pitch as the second, and change nothing else in it.
pub proof fn law_setpoint_reaches_loop<B: Bus>(
    before: Session<B>,
    roll_deg: Scalar,
    pitch_deg: Scalar,
    after: Session<B>,
    outcome: Outcome,
)
    requires
        handled(before, UiCommand::SetSetpoint { roll_deg, pitch_deg }, after, outcome),
    ensures
        before.run matches Run::Mpc { mpc } ==> {
            let set = after.run->mpc.setpoint_deg;
            &&& after.run is Mpc
            &&& set[0] == roll_deg && set[1] == pitch_deg
            &&& after.run->mpc == (MpcLoop { setpoint_deg: set, ..mpc })
        },
        before.run matches Run::Lqi { lqi } ==> {
            let set = after.run->lqi.setpoint_deg;
            &&& after.run is Lqi
            &&& set[0] == roll_deg && set[1] == pitch_deg
            &&& after.run->lqi == (LqiLoop { setpoint_deg: set, ..lqi })
        },
        after == (Session { run: after.run, ..before }),
        before.run is Idle ==> after.run is Idle,
        before.run is Manual ==> after.run == before.run,
        outcome.report is None && outcome.request is None,
{
}

/// New weights are kept for the next start, and their speed and acceleration reach the
/// running loop at once; nothing else in it changes.
pub proof fn law_weights_reach_session<B: Bus>(
    before: Session<B>,
    w: TuneWeights,
    after: Session<B>,
    outcome: Outcome,
)
    requires
        handled(before, UiCommand::UpdateWeights(w), after, outcome),
    ensures
        after.weights == w,
        before.run matches Run::Mpc { mpc } ==> after.run is Mpc && after.run->mpc == (MpcLoop {
            spd: w.jog_spd,
            acc: w.jog_acc,
            ..mpc
        }),
        before.run matches Run::Lqi { lqi } ==> after.run is Lqi && after.run->lqi == (LqiLoop {
            spd: w.jog_spd,
            acc: w.jog_acc,
            ..lqi
        }),
        after == (Session { weights: w, run: after.run, ..before }),
        before.run is Idle ==> after.run is Idle,
        before.run is Manual ==> after.run == before.run,
        outcome.report is None && outcome.request is None,
{
}

/// The way to allocate torques is kept for the next start and reaches a running
/// linear-quadratic loop at once; the configuration is kept for the next start.
pub proof fn law_choices_reach_session<B: Bus>(
    before: Session<B>,
    solver: MassSolver,
    balanced: bool,
    after: (Session<B>, Session<B>),
    outcomes: (Outcome, Outcome),
)
    requires
        handled(before, UiCommand::SetMassSolver(solver), after.0, outcomes.0),
        handled(before, UiCommand::SetXyPreBalance(balanced), after.1, outcomes.1),
    ensures
        after.0.mass_solver == solver,
        before.run matches Run::Lqi { lqi } ==> after.0.run is Lqi && after.0.run->lqi == (LqiLoop {
            mass_solver: solver,
            ..lqi
        }),
        !(before.run is Lqi) ==> after.0.run == before.run,
        after.0 == (Session { mass_solver: solver, run: after.0.run, ..before }),
        after.1 == (Session { xy_pre_balance: balanced, ..before }),
        outcomes.0.report is None && outcomes.0.request is None,
        outcomes.1.report is None && outcomes.1.request is None,
{
}

/// A start asks for the loop that was chosen, with the operator's weights, each for
/// what it is named after, and announces it as running. Without a port nothing happens.
pub proof fn law_start_asks_with_weights<B: Bus>(
    before: Session<B>,
    mode: RunMode,
    after: Session<B>,
    outcome: Outcome,
)
    requires
        handled(before, UiCommand::StartAuto(mode), after, outcome),
    ensures
        after == before,
        before.bus is None ==> outcome.report is None && outcome.request is None,
        before.bus is Some ==> {
            let w = before.weights;
            &&& outcome.report is Some
            &&& outcome.report->0@.connected
            &&& !outcome.report->0@.is_sample
            &&& match mode {
                RunMode::Mpc => {
                    &&& outcome.report->0@.run_state == RunState::Mpc
                    &&& outcome.request is Some && outcome.request->0 is StartMpc
                    &&& outcome.request->0->xy_pre_balance == before.xy_pre_balance
                    &&& outcome.request->0->tuning.q == w.q
                    &&& outcome.request->0->tuning.qi == w.qi
                    &&& outcome.request->0->tuning.qd == w.qd
                    &&& outcome.request->0->tuning.r == w.r
                    &&& outcome.request->0->tuning.du_max == w.du_max
                    &&& outcome.request->0->tuning.d_track_tol == w.d_track_tol
                },
                RunMode::Lqi => {
                    let weights = outcome.request->0->StartLqi_weights;
                    &&& outcome.report->0@.run_state == RunState::Lqi
                    &&& outcome.request is Some && outcome.request->0 is StartLqi
                    &&& weights.qx == w.q
                    &&& weights.qi == w.qi
                    &&& weights.r == w.r
                    &&& weights.du_max == w.du_max
                    &&& weights.d_track_tol == w.d_track_tol
                },
            }
        },
{
}

/// A retune of a linear-quadratic loop asks for gains with the operator's weights, each
/// for what it is named after; one of a model-predictive loop takes them over.
pub proof fn law_retune_uses_weights<B: Bus>(
    before: Session<B>,
    after: Session<B>,
    outcome: Outcome,
)
    requires
        handled(before, UiCommand::TuneNow, after, outcome),
    ensures
        before.run is Lqi ==> {
            let (w, weights) = (before.weights, outcome.request->0->RetuneLqi_weights);
            &&& after == before
            &&& outcome.report is None
            &&& outcome.request is Some && outcome.request->0 is RetuneLqi
            &&& weights.qx == w.q
            &&& weights.qi == w.qi
            &&& weights.r == w.r
            &&& weights.du_max == w.du_max
            &&& weights.d_track_tol == w.d_track_tol
        },
        before.run matches Run::Mpc { mpc } ==> {
            let w = before.weights;
            let ctrl = after.run->mpc.ctrl;
            &&& after.run is Mpc
            &&& outcome.report is None && outcome.request is None
            &&& !crate::mpc_model::post_balanced(mpc.preset.r0z) ==> ctrl.du_max == w.du_max
                && ctrl.d_track_tol == w.d_track_tol
            &&& !crate::mpc_model::post_balanced(mpc.preset.r0z) ==> {
                &&& forall|j: int| 0 <= j < 5 ==> #[trigger] ctrl.q11@[j][j] == w.q[j]
                &&& forall|i: int| 5 <= i < 7 ==> #[trigger] ctrl.q11@[i][i] == w.qi[i - 5]
                &&& forall|k: int| 7 <= k < 11 ==> #[trigger] ctrl.q11@[k][k] == w.qd
                &&& forall|k: int| 0 <= k < 4 ==> #[trigger] ctrl.r@[k][k] == w.r
            }
            &&& after.run->mpc.d_op == mpc.d_op && after.run->mpc.preset == mpc.preset
            &&& after.run->mpc.x_est == mpc.x_est && after.run->mpc.d_cmd_prev == mpc.d_cmd_prev
        },
        before.run is Idle || before.run is Manual ==> after == before && outcome.report is None
            && outcome.request is None,
{
}

/// Moves and homing go out at once over an open port: a move asks its own axis for its
/// own distance, at its own speed and acceleration; homing asks every axis.
pub proof fn law_motion_commands_reach_axes<B: Bus>(
    before: Session<B>,
    addr: u8,
    dist_m: Scalar,
    spd: Scalar,
    acc: u8,
    after: (Session<B>, Session<B>, Session<B>),
    outcomes: (Outcome, Outcome, Outcome),
    k: int,
)
    requires
        before.bus is Some,
        handled(before, UiCommand::JogAbsolute { addr, dist_m, spd, acc }, after.0, outcomes.0),
        handled(before, UiCommand::JogRelative { addr, dist_m, spd, acc }, after.1, outcomes.1),
        handled(before, UiCommand::Home, after.2, outcomes.2),
        0 <= k < 4,
    ensures
        ({
            let n = before.bus->0.log().len() as int;
            let (a, b) = (after.0.bus->0.log(), after.1.bus->0.log());
            let c = after.2.bus->0.log();
            &&& after.0.bus is Some && after.1.bus is Some && after.2.bus is Some
            &&& after.0.run == before.run && after.1.run == before.run && after.2.run == before.run
            &&& a.len() == n + 3 && b.len() == n + 3 && c.len() == n + 12
            &&& rig::asks_for_move(a[n + 1], 0xF5, addr - 1, dist_m, spd, acc)
            &&& rig::asks_for_move(b[n + 1], 0xF4, addr - 1, dist_m, spd, acc)
            &&& c[n + 3 * k + 1] == (BusEvent::Write {
                bytes: mks::request_frame((k + 1) as u8, 0x91),
            })
            &&& a[n] is Flush && b[n] is Flush && c[n + 3 * k] is Flush
            &&& a[n + 2] == (BusEvent::Pause { ms: 120 }) && b[n + 2] == (BusEvent::Pause {
                ms: 120,
            })
            &&& c[n + 3 * k + 2] == (BusEvent::Pause { ms: 200 })
        }),
{
    rig::law_move_reaches_its_axis(mks::FUNC_RUN_ABS, addr, dist_m, spd, acc, JOG_PAUSE_MS);
    rig::law_move_reaches_its_axis(mks::FUNC_RUN_REL, addr, dist_m, spd, acc, JOG_PAUSE_MS);
    rig::law_nudge_and_home_reach_each_axis(dist_m, spd, acc, HOME_PAUSE_MS, k);
}

/// A single encoder read asks the axis that is named, and what it leads to is decided
/// by the reply: a position to describe for the same axis, or a report of the failure.
pub proof fn law_encoder_read_asks_its_axis<B: Bus>(
    before: Session<B>,
    addr: u8,
    after: Session<B>,
    outcome: Outcome,
)
    requires
        before.bus is Some,
        handled(before, UiCommand::ReadEncoder(addr), after, outcome),
    ensures
        ({
            let n = before.bus->0.log().len() as int;
            let log = after.bus->0.log();
            let decoded = mks::encoder_reply(addr, log[n + 2]->reply);
            &&& after.bus is Some
            &&& after.run == before.run && after.weights == before.weights
            &&& log.len() == n + 3
            &&& log[n] is Flush
            &&& log[n + 1] == (BusEvent::Write { bytes: mks::request_frame(addr, 0x30) })
            &&& log[n + 2] is Read
            &&& decoded matches Some(v) ==> outcome.report is None && outcome.request == Some(
                Request::DescribeEncoder { addr, position: v },
            )
            &&& decoded is None ==> outcome.request is None && outcome.report is Some
                && !outcome.report->0@.is_sample && outcome.report->0@.manual_read is None
                && outcome.report->0@.connected
            &&& decoded is None ==> outcome.report->0@.status == "Encoder["@ + text::decimal(
                addr as nat,
            ) + if log[n + 2]->reply.len() == 0 {
                "]: timeout, 0 bytes back (check addr/baud/wiring)"@
            } else {
                "]: "@ + text::decimal(log[n + 2]->reply.len()) + " bytes, unparsable: "@
                    + text::hex_list(log[n + 2]->reply)
            }
        }),
{
    let reply = after.bus->0.log()[before.bus->0.log().len() as int + 2]->reply;
    assert(timeout_status(addr) =~= "Encoder["@ + text::decimal(addr as nat)
        + "]: timeout, 0 bytes back (check addr/baud/wiring)"@);
    assert(unparsable_status(addr, reply) =~= "Encoder["@ + text::decimal(addr as nat) + ("]: "@
        + text::decimal(reply.len()) + " bytes, unparsable: "@ + text::hex_list(reply)));
}

/// The encoder poll is switched on only while nothing runs, from zero, and off only
/// while it runs. Stopping ends whatever runs; disconnecting also closes the port.
pub proof fn law_poll_switch_and_stop<B: Bus>(
    before: Session<B>,
    on: bool,
    after: (Session<B>, Session<B>, Session<B>),
    outcomes: (Outcome, Outcome, Outcome),
    k: int,
)
    requires
        handled(before, UiCommand::SetManualPoll(on), after.0, outcomes.0),
        handled(before, UiCommand::Stop, after.1, outcomes.1),
        handled(before, UiCommand::Disconnect, after.2, outcomes.2),
        0 <= k < 4,
    ensures
        on && before.run is Idle ==> after.0.run is Manual && after.0.run->t_ms == 0
            && after.0.run->d_meas[k].bits == 0,
        on && !(before.run is Idle) ==> after.0.run == before.run,
        !on && before.run is Manual ==> after.0.run is Idle,
        !on && !(before.run is Manual) ==> after.0.run == before.run,
        after.0 == (Session { run: after.0.run, ..before }),
        after.1.run is Idle && after.1 == (Session { run: after.1.run, ..before }),
        after.2.run is Idle && after.2.bus is None && after.2 == (Session {
            run: after.2.run,
            bus: after.2.bus,
            ..before
        }),
        outcomes.2.report is Some && !outcomes.2.report->0@.connected
            && outcomes.2.report->0@.run_state == RunState::Idle,
{
}

/// A turn of the poll keeps the positions of axes that gave no finite reading, and
/// takes every other axis from its own reading; the report shows them.
pub proof fn law_poll_takes_each_axis(
    previous: PerAxis,
    decoded: [Option<Scalar>; 4],
    t_ms: u64,
    i: int,
)
    requires
        0 <= i < 4,
    ensures
        ({
            let d = polled(previous, decoded);
            let report = poll_report(t_ms, d);
            &&& decoded[i] is None ==> d[i] == previous[i]
            &&& decoded[i] matches Some(v) ==> d[i] == if v.finite() {
                v
            } else {
                previous[i]
            }
            &&& report.is_poll && !report.is_sample && report.connected
            &&& report.run_state == RunState::Manual
            &&& report.t_ms == t_ms
            &&& report.d_meas[i] == d[i]
            &&& report.manual_read is None
        }),
{
}

/// The work that is due is that of what runs, and nothing without an open port.
pub proof fn law_work_is_that_of_the_run<B: Bus>(session: Session<B>)
    ensures
        work_due(session) is MpcCycle <==> session.bus is Some && session.run is Mpc,
        work_due(session) is LqiCycle <==> session.bus is Some && session.run is Lqi,
        work_due(session) is Poll <==> session.bus is Some && session.run is Manual,
        work_due(session) is Wait <==> session.bus is None || session.run is Idle,
        run_state_of(session.run) == RunState::Mpc <==> session.run is Mpc,
        run_state_of(session.run) == RunState::Lqi <==> session.run is Lqi,
        run_state_of(session.run) == RunState::Manual <==> session.run is Manual,
        run_state_of(session.run) == RunState::Idle <==> session.run is Idle,
{
}

} // verus!
