//! The operator's side: what the console shows, and which commands its buttons
//! send.

use crate::commands::{tuning_of, MassSolver, RunMode, TuneWeights, UiCommand};
use crate::lqi_gains::lqi_weights_of;
use crate::mks;
use crate::prime::start_threshold;
use crate::rail::PerAxis;
use crate::rig;
use crate::scalar::{law_comparison_goes_by_value, Scalar};
use crate::session::{handled, Outcome, Request, Run, Session, JOG_PAUSE_MS};
use crate::telemetry::{
    no_positions, notice, ExitFlag, RunState, Snapshot, Telemetry, FLAG_HELD, FLAG_INFEASIBLE,
    FLAG_OFF, FLAG_SOLVED,
};
use crate::transport::{writes_in, Bus};
use std::collections::VecDeque;
use vstd::prelude::*;

verus! {

/// Samples that the console keeps.
pub const HISTORY_LEN: usize = 300;

/// How far back the plots reach, in milliseconds.
pub const WINDOW_MS: u64 = 120_000;

/// The colour of a label.
#[derive(Debug, Clone, Copy, PartialEq, Eq, Structural)]
pub enum Tint {
    Gray,
    Rgb { r: u8, g: u8, b: u8 },
}

/// The label and colour for what runs.
pub fn run_state_chip(state: RunState) -> (chip: (&'static str, Tint))
    ensures
        match state {
            RunState::Idle => chip.0@ == "Idle"@ && chip.1 == Tint::Gray,
            RunState::Manual => chip.0@ == "Manual poll"@ && chip.1 == (Tint::Rgb {
                r: 90,
                g: 140,
                b: 220,
            }),
            RunState::Mpc => chip.0@ == "▶ MPC"@ && chip.1 == (Tint::Rgb { r: 80, g: 180, b: 80 }),
            RunState::Lqi => chip.0@ == "▶ LQI"@ && chip.1 == (Tint::Rgb { r: 80, g: 180, b: 80 }),
        },
{
    match state {
        RunState::Idle => ("Idle", Tint::Gray),
        RunState::Manual => ("Manual poll", Tint::Rgb { r: 90, g: 140, b: 220 }),
        RunState::Mpc => ("▶ MPC", Tint::Rgb { r: 80, g: 180, b: 80 }),
        RunState::Lqi => ("▶ LQI", Tint::Rgb { r: 80, g: 180, b: 80 }),
    }
}

/// The label and colour for how a cycle came to its command.
pub fn exitflag_badge(flag: ExitFlag) -> (badge: (&'static str, Tint))
    ensures
        if flag == FLAG_SOLVED {
            badge.0@ == "✔ solved"@ && badge.1 == (Tint::Rgb { r: 80, g: 180, b: 80 })
        } else if flag == FLAG_HELD {
            badge.0@ == "⏳ gate held"@ && badge.1 == (Tint::Rgb { r: 220, g: 160, b: 60 })
        } else if flag == FLAG_INFEASIBLE {
            badge.0@ == "⚠ infeasible"@ && badge.1 == (Tint::Rgb { r: 200, g: 80, b: 60 })
        } else if flag == FLAG_OFF {
            badge.0@ == "off"@ && badge.1 == Tint::Gray
        } else {
            badge.0@ == "?"@ && badge.1 == Tint::Gray
        },
{
    if flag == FLAG_SOLVED {
        ("✔ solved", Tint::Rgb { r: 80, g: 180, b: 80 })
    } else if flag == FLAG_HELD {
        ("⏳ gate held", Tint::Rgb { r: 220, g: 160, b: 60 })
    } else if flag == FLAG_INFEASIBLE {
        ("⚠ infeasible", Tint::Rgb { r: 200, g: 80, b: 60 })
    } else if flag == FLAG_OFF {
        ("off", Tint::Gray)
    } else {
        ("?", Tint::Gray)
    }
}

/// What the console shows and remembers.
#[derive(Debug)]
pub struct Console {
    pub connected: bool,
    /// A connection was asked for and no snapshot has come since.
    pub connecting: bool,
    pub run_mode: RunMode,
    pub xy_pre_balance: bool,
    pub controller_on: bool,
    pub mass_solver: MassSolver,
    /// A loop was started, as far as the console knows.
    pub running: bool,
    pub setpoint_roll: Scalar,
    pub setpoint_pitch: Scalar,
    pub weights: TuneWeights,
    pub manual_poll: bool,
    /// The latest sample, with the latest run state.
    pub latest: Telemetry,
    /// The latest samples, oldest first.
    pub history: VecDeque<Telemetry>,
    pub status_line: String,
    /// The positions of the latest sample or turn of the encoder poll.
    pub live_d_meas: PerAxis,
    /// The latest single encoder read of each axis.
    pub manual_d_meas: [Option<Scalar>; 4],
    /// Roll and pitch of the sample before the latest.
    pub prev_roll: Scalar,
    pub prev_pitch: Scalar,
}

/// What snapshots say.
pub open spec fn snapshots(history: Seq<Telemetry>) -> Seq<Snapshot> {
    history.map_values(|tel: Telemetry| tel@)
}

/// A history of at most [`HISTORY_LEN`] samples after one more.
pub open spec fn remembered(history: Seq<Snapshot>, sample: Snapshot) -> Seq<Snapshot> {
    if history.len() >= HISTORY_LEN {
        history.skip(1).push(sample)
    } else {
        history.push(sample)
    }
}

/// The single encoder reads after the read `read`.
pub open spec fn with_read(
    reads: Seq<Option<Scalar>>,
    read: Option<(u8, Scalar)>,
) -> Seq<Option<Scalar>> {
    match read {
        Some((addr, v)) => reads.update(addr - 1, Some(v)),
        None => reads,
    }
}

/// The live positions after a snapshot: a cycle of a loop and a turn of the
/// encoder poll carry some.
pub open spec fn with_positions(live: PerAxis, tel: Snapshot) -> PerAxis {
    if tel.is_sample || tel.is_poll {
        tel.d_meas
    } else {
        live
    }
}

/// The settings of the operator are the same.
pub open spec fn same_settings(before: Console, after: Console) -> bool {
    &&& after.run_mode == before.run_mode
    &&& after.xy_pre_balance == before.xy_pre_balance
    &&& after.controller_on == before.controller_on
    &&& after.mass_solver == before.mass_solver
    &&& after.setpoint_roll == before.setpoint_roll
    &&& after.setpoint_pitch == before.setpoint_pitch
    &&& after.weights == before.weights
}

/// What the snapshot `tel` changes: every snapshot updates the status, the
/// connection and the run state; an idle one means that nothing runs any more.
/// Only a sample is shown as the latest one and kept; its positions are live, and
/// so are those of a turn of the encoder poll.
pub open spec fn absorbed(before: Console, tel: Snapshot, after: Console) -> bool {
    &&& same_settings(before, after)
    &&& after.manual_poll == before.manual_poll
    &&& after.status_line@ == tel.status
    &&& after.connected == tel.connected
    &&& !after.connecting
    &&& after.running == (before.running && tel.run_state != RunState::Idle)
    &&& after.live_d_meas == with_positions(before.live_d_meas, tel)
    &&& after.manual_d_meas@ == with_read(before.manual_d_meas@, tel.manual_read)
    &&& if tel.is_sample {
        &&& after.latest@ == tel
        &&& snapshots(after.history@) == remembered(snapshots(before.history@), tel)
        &&& after.prev_roll == before.latest.roll_deg
        &&& after.prev_pitch == before.latest.pitch_deg
    } else {
        &&& after.latest@ == (Snapshot { run_state: tel.run_state, ..before.latest@ })
        &&& after.history == before.history
        &&& after.prev_roll == before.prev_roll
        &&& after.prev_pitch == before.prev_pitch
    }
}

impl Console {
    /// The history is no longer than it may be and holds samples only.
    pub open spec fn wf(&self) -> bool {
        &&& self.history@.len() <= HISTORY_LEN
        &&& forall|i: int| 0 <= i < self.history@.len() ==> (#[trigger] self.history@[i]).is_sample
    }

    /// A console that is not connected.
    pub fn new(weights: TuneWeights) -> (res: Console)
        ensures
            res.wf(),
            !res.connected,
            !res.connecting,
            res.run_mode == RunMode::Mpc,
            !res.xy_pre_balance,
            res.controller_on,
            res.mass_solver == MassSolver::Pinv,
            !res.running,
            res.setpoint_roll.bits == 0,
            res.setpoint_pitch.bits == 0,
            res.weights == weights,
            !res.manual_poll,
            res.latest@ == notice(RunState::Idle, false, Seq::empty()),
            res.history@ == Seq::<Telemetry>::empty(),
            res.status_line@ == "Disconnected"@,
            res.live_d_meas == no_positions(),
            res.manual_d_meas@ == Seq::new(4, |i: int| None::<Scalar>),
            res.prev_roll.bits == 0,
            res.prev_pitch.bits == 0,
    {
        let zero = Scalar { bits: 0 };
        Console {
            connected: false,
            connecting: false,
            run_mode: RunMode::Mpc,
            xy_pre_balance: false,
            controller_on: true,
            mass_solver: MassSolver::Pinv,
            running: false,
            setpoint_roll: zero,
            setpoint_pitch: zero,
            weights,
            manual_poll: false,
            latest: Telemetry::default(),
            history: VecDeque::new(),
            status_line: "Disconnected".to_owned(),
            live_d_meas: [zero, zero, zero, zero],
            manual_d_meas: [None, None, None, None],
            prev_roll: zero,
            prev_pitch: zero,
        }
    }

    /// Takes in a snapshot: see [`absorbed`].
    pub fn absorb(&mut self, tel: Telemetry)
        requires
            tel.manual_read matches Some((addr, v)) ==> 1 <= addr <= 4,
        ensures
            old(self).wf() ==> final(self).wf(),
            absorbed(*old(self), tel@, *final(self)),
    {
        self.status_line = tel.status.clone();
        self.connected = tel.connected;
        self.connecting = false;
        self.latest.run_state = tel.run_state;
        if tel.run_state == RunState::Idle {
            self.running = false;
        }
        if tel.is_sample || tel.is_poll {
            self.live_d_meas = tel.d_meas;
        }
        if let Some((addr, v)) = tel.manual_read {
            self.manual_d_meas[(addr - 1) as usize] = Some(v);
        }
        if tel.is_sample {
            self.prev_roll = self.latest.roll_deg;
            self.prev_pitch = self.latest.pitch_deg;
            self.latest = tel.duplicate();
            if self.history.len() >= HISTORY_LEN {
                let _ = self.history.pop_front();
            }
            self.history.push_back(tel);
            assert(snapshots(self.history@) =~= remembered(snapshots(old(self).history@), tel@));
        }
    }
}

/// What is known about the masses before a start.
#[derive(Debug, Clone, Copy)]
pub enum Preflight {
    /// A loop runs; there is nothing to check.
    Running,
    /// Some axis has not been read.
    Unknown,
    /// Every axis is far enough from its home end.
    Ready,
    /// These axes are too close to their home ends.
    TooClose { axes: [bool; 4] },
}

/// The best known position of each axis: the live one while a loop or the encoder
/// poll runs, the latest single read otherwise.
pub open spec fn readiness(console: Console) -> [Option<Scalar>; 4] {
    if console.latest.run_state != RunState::Idle {
        let d = console.live_d_meas;
        [Some(d[0]), Some(d[1]), Some(d[2]), Some(d[3])]
    } else {
        console.manual_d_meas
    }
}

/// The axis at index `i` is known to be too close to its home end.
pub open spec fn too_close(console: Console, i: int) -> bool {
    readiness(console)[i] matches Some(d) && d.lt(start_threshold(console.run_mode))
}

/// A sample at `t_ms` is shown when the latest sample is at `latest_ms`.
pub open spec fn shown(t_ms: u64, latest_ms: u64) -> bool {
    t_ms + WINDOW_MS >= latest_ms
}

/// The time of the latest sample, zero without one.
pub open spec fn latest_ms(history: Seq<Telemetry>) -> u64 {
    if history.len() > 0 {
        history.last().t_ms
    } else {
        0
    }
}

/// The first `n` samples that are shown.
pub open spec fn window_of(history: Seq<Telemetry>, n: int) -> Seq<int>
    decreases n,
{
    if n <= 0 {
        Seq::empty()
    } else if shown(history[n - 1].t_ms, latest_ms(history)) {
        window_of(history, n - 1).push(n - 1)
    } else {
        window_of(history, n - 1)
    }
}

/// How many of the samples `indices` were held by the tracking gate.
pub open spec fn held_among(history: Seq<Telemetry>, indices: Seq<int>) -> nat
    decreases indices.len(),
{
    if indices.len() == 0 {
        0
    } else {
        held_among(history, indices.drop_last()) + if history[indices.last()].exitflag
            == FLAG_HELD {
            1nat
        } else {
            0
        }
    }
}

/// A command for each of the four axes.
pub open spec fn for_each_axis(command: spec_fn(u8) -> UiCommand) -> Seq<UiCommand> {
    seq![command(1), command(2), command(3), command(4)]
}

impl Console {
    /// Whether manual moves are allowed: not without a port, and not against a
    /// running loop.
    pub fn can_move(&self) -> (res: bool)
        ensures
            res == (self.connected && !self.running),
    {
        self.connected && !self.running
    }

    /// The best known position of each axis: see [`readiness`].
    pub fn axis_readiness(&self) -> (res: [Option<Scalar>; 4])
        ensures
            res == readiness(*self),
    {
        if self.latest.run_state == RunState::Idle {
            self.manual_d_meas
        } else {
            let d = self.live_d_meas;
            [Some(d[0]), Some(d[1]), Some(d[2]), Some(d[3])]
        }
    }

    /// What is known about the masses before a start.
    pub fn preflight(&self) -> (res: Preflight)
        ensures
            res is Running <==> self.running,
            res is Unknown <==> !self.running && exists|i: int|
                0 <= i < 4 && (#[trigger] readiness(*self)[i]) is None,
            res is Ready <==> !self.running && forall|i: int|
                0 <= i < 4 ==> (#[trigger] readiness(*self)[i]) is Some && !too_close(*self, i),
            res matches Preflight::TooClose { axes } ==> forall|i: int|
                0 <= i < 4 ==> #[trigger] axes[i] == too_close(*self, i),
    {
        if self.running {
            return Preflight::Running;
        }
        let min_d = match self.run_mode {
            RunMode::Mpc => Scalar { bits: crate::mpc_loop::INIT_MIN_D },
            RunMode::Lqi => Scalar { bits: crate::lqi_loop::INIT_MIN_D },
        };
        let known = self.axis_readiness();
        let mut axes: [bool; 4] = [false; 4];
        let mut any: bool = false;
        let mut i: usize = 0;
        while i < 4
            invariant
                i <= 4,
                !self.running,
                known == readiness(*self),
                min_d == start_threshold(self.run_mode),
                forall|j: int| 0 <= j < i ==> (#[trigger] known[j]) is Some,
                forall|j: int| 0 <= j < i ==> #[trigger] axes[j] == too_close(*self, j),
                any == exists|j: int| 0 <= j < i && #[trigger] axes[j],
            decreases 4 - i,
        {
            match known[i] {
                None => {
                    assert(readiness(*self)[i as int] is None);
                    return Preflight::Unknown;
                },
                Some(d) => {
                    let below = d.less(min_d);
                    let ghost before = axes;
                    axes[i] = below;
                    assert(forall|j: int| 0 <= j < i ==> axes[j] == before[j]);
                    assert(axes[i as int] == below);
                    any = any || below;
                },
            }
            i = i + 1;
        }
        if any {
            let ghost j = choose|j: int| 0 <= j < 4 && #[trigger] axes[j];
            assert(too_close(*self, j));
            assert(readiness(*self)[j] is Some);
            Preflight::TooClose { axes }
        } else {
            assert forall|j: int| 0 <= j < 4 implies (#[trigger] readiness(*self)[j]) is Some
                && !too_close(*self, j) by {
                assert(known[j] is Some);
                assert(axes[j] == too_close(*self, j));
            }
            Preflight::Ready
        }
    }
}

impl Console {
    /// The indices of the samples that the plots show, oldest first.
    pub fn windowed_history(&self) -> (res: Vec<usize>)
        ensures
            res@.map_values(|i: usize| i as int) == window_of(
                self.history@,
                self.history@.len() as int,
            ),
            forall|k: int| 0 <= k < res@.len() ==> #[trigger] res@[k] < self.history@.len(),
    {
        let n: usize = self.history.len();
        let end_ms: u64 = if n > 0 {
            self.history[n - 1].t_ms
        } else {
            0
        };
        let start_ms: u64 = if end_ms > WINDOW_MS {
            end_ms - WINDOW_MS
        } else {
            0
        };
        let mut res: Vec<usize> = Vec::new();
        let mut i: usize = 0;
        assert(res@.map_values(|k: usize| k as int) =~= window_of(self.history@, 0));
        while i < n
            invariant
                i <= n,
                n == self.history@.len(),
                end_ms == latest_ms(self.history@),
                start_ms == if end_ms > WINDOW_MS {
                    (end_ms - WINDOW_MS) as u64
                } else {
                    0
                },
                res@.map_values(|k: usize| k as int) == window_of(self.history@, i as int),
                forall|k: int| 0 <= k < res@.len() ==> #[trigger] res@[k] < i,
            decreases n - i,
        {
            let ghost before = res@;
            if self.history[i].t_ms >= start_ms {
                res.push(i);
                assert(res@.map_values(|k: usize| k as int) =~= before.map_values(
                    |k: usize| k as int,
                ).push(i as int));
            }
            i = i + 1;
        }
        res
    }

    /// How many samples the plots show, and how many of them were held by the
    /// tracking gate.
    pub fn gate_counts(&self) -> (res: (usize, usize))
        ensures
            ({
                let window = window_of(self.history@, self.history@.len() as int);
                res.0 == window.len() && res.1 == held_among(self.history@, window)
            }),
    {
        let window = self.windowed_history();
        let ghost indices = window@.map_values(|k: usize| k as int);
        let mut held: usize = 0;
        let mut i: usize = 0;
        assert(indices.take(0) =~= Seq::empty());
        while i < window.len()
            invariant
                i <= window@.len(),
                held <= i,
                indices == window@.map_values(|k: usize| k as int),
                forall|k: int|
                    0 <= k < window@.len() ==> #[trigger] window@[k] < self.history@.len(),
                held == held_among(self.history@, indices.take(i as int)),
            decreases window@.len() - i,
        {
            assert(indices.take(i + 1).drop_last() =~= indices.take(i as int));
            assert(indices.take(i + 1).last() == window@[i as int] as int);
            let k: usize = window[i];
            assert(window@[i as int] < self.history@.len());
            if self.history[k].exitflag == FLAG_HELD {
                held = held + 1;
            }
            i = i + 1;
        }
        assert(indices.take(i as int) =~= indices);
        (window.len(), held)
    }

    /// The connect button: sends nothing without a port name or while another
    /// connection is under way.
    pub fn connect(&mut self, port: &String) -> (cmd: Option<UiCommand>)
        ensures
            ({
                let sent = !old(self).connecting && port@.len() > 0;
                &&& cmd == if sent {
                    Some(UiCommand::Connect(*port))
                } else {
                    None
                }
                &&& sent ==> final(self).connecting && final(self).status_line@ == "Connecting…"@
                &&& *final(self) == (Console {
                    connecting: final(self).connecting,
                    status_line: final(self).status_line,
                    ..*old(self)
                })
                &&& !sent ==> *final(self) == *old(self)
            }),
    {
        if self.connecting || port.as_str().unicode_len() == 0 {
            return None;
        }
        self.connecting = true;
        self.status_line = "Connecting…".to_owned();
        Some(UiCommand::Connect(port.clone()))
    }

    /// The disconnect button.
    pub fn disconnect(&mut self) -> (cmd: UiCommand)
        ensures
            cmd == UiCommand::Disconnect,
            *final(self) == (Console {
                running: false,
                latest: Telemetry { run_state: RunState::Idle, ..old(self).latest },
                ..*old(self)
            }),
    {
        self.running = false;
        self.latest.run_state = RunState::Idle;
        UiCommand::Disconnect
    }

    /// The stop button, which is there only while a loop runs. No snapshot
    /// follows a stop, so the run state is shown as idle at once.
    pub fn stop(&mut self) -> (cmd: Option<UiCommand>)
        ensures
            !old(self).running ==> cmd is None && *final(self) == *old(self),
            old(self).running ==> cmd == Some(UiCommand::Stop) && *final(self) == (Console {
                running: false,
                latest: Telemetry { run_state: RunState::Idle, ..old(self).latest },
                ..*old(self)
            }),
    {
        if !self.running {
            return None;
        }
        self.running = false;
        self.latest.run_state = RunState::Idle;
        Some(UiCommand::Stop)
    }

    /// Moves one axis to a position, if moves are allowed.
    pub fn go(&self, addr: u8, dist_m: Scalar) -> (cmd: Option<UiCommand>)
        ensures
            cmd == if self.connected && !self.running {
                Some(
                    UiCommand::JogAbsolute {
                        addr,
                        dist_m,
                        spd: self.weights.jog_spd,
                        acc: self.weights.jog_acc,
                    },
                )
            } else {
                None
            },
    {
        if self.can_move() {
            let (spd, acc) = (self.weights.jog_spd, self.weights.jog_acc);
            Some(UiCommand::JogAbsolute { addr, dist_m, spd, acc })
        } else {
            None
        }
    }

    /// Moves one axis by a distance, if moves are allowed.
    pub fn shift(&self, addr: u8, dist_m: Scalar) -> (cmd: Option<UiCommand>)
        ensures
            cmd == if self.connected && !self.running {
                Some(
                    UiCommand::JogRelative {
                        addr,
                        dist_m,
                        spd: self.weights.jog_spd,
                        acc: self.weights.jog_acc,
                    },
                )
            } else {
                None
            },
    {
        if self.can_move() {
            let (spd, acc) = (self.weights.jog_spd, self.weights.jog_acc);
            Some(UiCommand::JogRelative { addr, dist_m, spd, acc })
        } else {
            None
        }
    }

    /// Moves all four axes to a position, if moves are allowed.
    pub fn go_all(&self, dist_m: Scalar) -> (cmds: Vec<UiCommand>)
        ensures
            cmds@ == if self.connected && !self.running {
                for_each_axis(
                    |addr: u8|
                        UiCommand::JogAbsolute {
                            addr,
                            dist_m,
                            spd: self.weights.jog_spd,
                            acc: self.weights.jog_acc,
                        },
                )
            } else {
                Seq::empty()
            },
    {
        self.go_to([dist_m, dist_m, dist_m, dist_m])
    }

    /// Moves each axis to a position of its own, if moves are allowed.
    pub fn go_to(&self, dists: [Scalar; 4]) -> (cmds: Vec<UiCommand>)
        ensures
            cmds@ == if self.connected && !self.running {
                for_each_axis(
                    |addr: u8|
                        UiCommand::JogAbsolute {
                            addr,
                            dist_m: dists[addr - 1],
                            spd: self.weights.jog_spd,
                            acc: self.weights.jog_acc,
                        },
                )
            } else {
                Seq::empty()
            },
    {
        let mut cmds: Vec<UiCommand> = Vec::new();
        if self.can_move() {
            let (spd, acc) = (self.weights.jog_spd, self.weights.jog_acc);
            cmds.push(UiCommand::JogAbsolute { addr: 1, dist_m: dists[0], spd, acc });
            cmds.push(UiCommand::JogAbsolute { addr: 2, dist_m: dists[1], spd, acc });
            cmds.push(UiCommand::JogAbsolute { addr: 3, dist_m: dists[2], spd, acc });
            cmds.push(UiCommand::JogAbsolute { addr: 4, dist_m: dists[3], spd, acc });
        }
        cmds
    }

    /// Moves all four axes by a distance, if moves are allowed.
    pub fn shift_all(&self, dist_m: Scalar) -> (cmds: Vec<UiCommand>)
        ensures
            cmds@ == if self.connected && !self.running {
                for_each_axis(
                    |addr: u8|
                        UiCommand::JogRelative {
                            addr,
                            dist_m,
                            spd: self.weights.jog_spd,
                            acc: self.weights.jog_acc,
                        },
                )
            } else {
                Seq::empty()
            },
    {
        let mut cmds: Vec<UiCommand> = Vec::new();
        if self.can_move() {
            let (spd, acc) = (self.weights.jog_spd, self.weights.jog_acc);
            cmds.push(UiCommand::JogRelative { addr: 1, dist_m, spd, acc });
            cmds.push(UiCommand::JogRelative { addr: 2, dist_m, spd, acc });
            cmds.push(UiCommand::JogRelative { addr: 3, dist_m, spd, acc });
            cmds.push(UiCommand::JogRelative { addr: 4, dist_m, spd, acc });
        }
        cmds
    }

    /// Reads the encoder of one axis, if the port is open. A running loop does not
    /// forbid it.
    pub fn read(&self, addr: u8) -> (cmd: Option<UiCommand>)
        ensures
            cmd == if self.connected {
                Some(UiCommand::ReadEncoder(addr))
            } else {
                None
            },
    {
        if self.connected {
            Some(UiCommand::ReadEncoder(addr))
        } else {
            None
        }
    }

    /// Reads all four encoders, if the port is open. A running loop does not
    /// forbid it.
    pub fn read_all(&self) -> (cmds: Vec<UiCommand>)
        ensures
            cmds@ == if self.connected {
                for_each_axis(|addr: u8| UiCommand::ReadEncoder(addr))
            } else {
                Seq::empty()
            },
    {
        let mut cmds: Vec<UiCommand> = Vec::new();
        if self.connected {
            cmds.push(UiCommand::ReadEncoder(1));
            cmds.push(UiCommand::ReadEncoder(2));
            cmds.push(UiCommand::ReadEncoder(3));
            cmds.push(UiCommand::ReadEncoder(4));
        }
        cmds
    }

    /// Sends all four axes home, if moves are allowed. The single reads are
    /// stale from then on.
    pub fn home_all(&mut self) -> (cmd: Option<UiCommand>)
        ensures
            ({
                let sent = old(self).connected && !old(self).running;
                &&& cmd == if sent {
                    Some(UiCommand::Home)
                } else {
                    None
                }
                &&& !sent ==> *final(self) == *old(self)
                &&& sent ==> *final(self) == (Console {
                    manual_d_meas: [None, None, None, None],
                    status_line: final(self).status_line,
                    ..*old(self)
                }) && final(self).status_line@
                    == "Homing all 4 axes — wait for motion to stop"@
            }),
    {
        if !self.can_move() {
            return None;
        }
        self.manual_d_meas = [None, None, None, None];
        self.status_line = "Homing all 4 axes — wait for motion to stop".to_owned();
        Some(UiCommand::Home)
    }

    /// Switches the encoder poll. Switching it on starts a new history.
    pub fn set_manual_poll(&mut self, on: bool) -> (cmd: UiCommand)
        ensures
            cmd == UiCommand::SetManualPoll(on),
            *final(self) == (Console {
                manual_poll: on,
                history: final(self).history,
                ..*old(self)
            }),
            on ==> final(self).history@ == Seq::<Telemetry>::empty(),
            !on ==> final(self).history == old(self).history,
    {
        self.manual_poll = on;
        if on {
            self.history.clear();
        }
        UiCommand::SetManualPoll(on)
    }

    /// The controller switch.
    pub fn set_controller(&mut self, on: bool) -> (cmd: UiCommand)
        ensures
            cmd == UiCommand::SetController(on),
            *final(self) == (Console { controller_on: on, ..*old(self) }),
    {
        self.controller_on = on;
        UiCommand::SetController(on)
    }

    /// The choice of how torques are allocated.
    pub fn set_mass_solver(&mut self, solver: MassSolver) -> (cmd: UiCommand)
        ensures
            cmd == UiCommand::SetMassSolver(solver),
            *final(self) == (Console { mass_solver: solver, ..*old(self) }),
    {
        self.mass_solver = solver;
        UiCommand::SetMassSolver(solver)
    }

    /// The angles to track.
    pub fn set_setpoint(&mut self, roll_deg: Scalar, pitch_deg: Scalar) -> (cmd: UiCommand)
        ensures
            cmd == (UiCommand::SetSetpoint { roll_deg, pitch_deg }),
            *final(self) == (Console {
                setpoint_roll: roll_deg,
                setpoint_pitch: pitch_deg,
                ..*old(self)
            }),
    {
        self.setpoint_roll = roll_deg;
        self.setpoint_pitch = pitch_deg;
        UiCommand::SetSetpoint { roll_deg, pitch_deg }
    }

    /// The start button: sends the settings and then the start, if the port is
    /// open and nothing runs. It ends the encoder poll and starts a new history.
    pub fn start_auto(&mut self) -> (cmds: Vec<UiCommand>)
        ensures
            ({
                let sent = old(self).connected && !old(self).running;
                &&& !sent ==> cmds@.len() == 0 && *final(self) == *old(self)
                &&& sent ==> {
                    &&& cmds@ == seq![
                        UiCommand::SetXyPreBalance(old(self).xy_pre_balance),
                        UiCommand::UpdateWeights(old(self).weights),
                        UiCommand::SetMassSolver(old(self).mass_solver),
                        UiCommand::StartAuto(old(self).run_mode),
                    ]
                    &&& *final(self) == (Console {
                        manual_poll: false,
                        running: true,
                        history: final(self).history,
                        ..*old(self)
                    })
                    &&& final(self).history@ == Seq::<Telemetry>::empty()
                }
            }),
    {
        let mut cmds: Vec<UiCommand> = Vec::new();
        if self.can_move() {
            self.manual_poll = false;
            self.history.clear();
            cmds.push(UiCommand::SetXyPreBalance(self.xy_pre_balance));
            cmds.push(UiCommand::UpdateWeights(self.weights));
            cmds.push(UiCommand::SetMassSolver(self.mass_solver));
            cmds.push(UiCommand::StartAuto(self.run_mode));
            self.running = true;
        }
        cmds
    }

    /// The tuning button: sends the weights and then asks to use them.
    pub fn tune_now(&self) -> (cmds: Vec<UiCommand>)
        ensures
            cmds@ == seq![UiCommand::UpdateWeights(self.weights), UiCommand::TuneNow],
    {
        let mut cmds: Vec<UiCommand> = Vec::new();
        cmds.push(UiCommand::UpdateWeights(self.weights));
        cmds.push(UiCommand::TuneNow);
        cmds
    }
}

/// The samples among the first `n` snapshots of `queue`.
pub open spec fn samples_of(queue: Seq<Snapshot>, n: int) -> Seq<Snapshot>
    decreases n,
{
    if n <= 0 {
        Seq::empty()
    } else if queue[n - 1].is_sample {
        samples_of(queue, n - 1).push(queue[n - 1])
    } else {
        samples_of(queue, n - 1)
    }
}

/// The live positions after the first `n` snapshots of `queue`.
pub open spec fn positions_after(live: PerAxis, queue: Seq<Snapshot>, n: int) -> PerAxis
    decreases n,
{
    if n <= 0 {
        live
    } else {
        with_positions(positions_after(live, queue, n - 1), queue[n - 1])
    }
}

/// The single encoder reads after the first `n` snapshots of `queue`.
pub open spec fn reads_after(
    reads: Seq<Option<Scalar>>,
    queue: Seq<Snapshot>,
    n: int,
) -> Seq<Option<Scalar>>
    decreases n,
{
    if n <= 0 {
        reads
    } else {
        with_read(reads_after(reads, queue, n - 1), queue[n - 1].manual_read)
    }
}

/// The last [`HISTORY_LEN`] of `samples`, or all of them if there are fewer.
pub open spec fn latest_samples(samples: Seq<Snapshot>) -> Seq<Snapshot> {
    if samples.len() > HISTORY_LEN {
        samples.skip(samples.len() - HISTORY_LEN)
    } else {
        samples
    }
}

/// The console takes in the snapshots `queue`, one after the other: `consoles[k]`
/// takes in `queue[k]`, which leads to `consoles[k + 1]`.
pub open spec fn drained(consoles: Seq<Console>, queue: Seq<Snapshot>) -> bool {
    &&& consoles.len() == queue.len() + 1
    &&& forall|k: int|
        0 <= k < queue.len() ==> absorbed(
            #[trigger] consoles[k],
            queue[k],
            consoles[k + 1],
        )
}

/// After a queue of snapshots the history is the last [`HISTORY_LEN`] of what it
/// was and the samples of the queue; the last snapshot gives the status and the
/// connection; any idle one ends what ran; the latest sample is shown, with the
/// latest run state; later positions replace earlier ones; and the settings of
/// the operator stay. An empty queue changes nothing.
pub proof fn law_queue_is_absorbed_in_order(consoles: Seq<Console>, queue: Seq<Snapshot>)
    requires
        drained(consoles, queue),
        consoles[0].wf(),
    ensures
        ({
            let first = consoles[0];
            let last = consoles.last();
            let samples = samples_of(queue, queue.len() as int);
            &&& snapshots(last.history@) == latest_samples(snapshots(first.history@) + samples)
            &&& last.manual_d_meas@ == reads_after(
                first.manual_d_meas@,
                queue,
                queue.len() as int,
            )
            &&& last.live_d_meas == positions_after(
                first.live_d_meas,
                queue,
                queue.len() as int,
            )
            &&& last.running == (first.running && forall|k: int|
                0 <= k < queue.len() ==> (#[trigger] queue[k]).run_state != RunState::Idle)
            &&& same_settings(first, last)
            &&& last.manual_poll == first.manual_poll
            &&& last.latest@ == (Snapshot {
                run_state: last.latest.run_state,
                ..if samples.len() > 0 {
                    samples.last()
                } else {
                    first.latest@
                }
            })
            &&& queue.len() > 0 ==> {
                &&& last.status_line@ == queue.last().status
                &&& last.connected == queue.last().connected
                &&& !last.connecting
                &&& last.latest.run_state == queue.last().run_state
            }
            &&& queue.len() == 0 ==> last == first
        }),
    decreases queue.len(),
{
    let first = consoles[0];
    let n = queue.len() as int;
    if n == 0 {
        assert(snapshots(first.history@) + samples_of(queue, 0) =~= snapshots(first.history@));
    } else {
        let shorter = queue.drop_last();
        assert(drained(consoles.drop_last(), shorter)) by {
            assert forall|k: int| 0 <= k < shorter.len() implies absorbed(
                #[trigger] consoles.drop_last()[k],
                shorter[k],
                consoles.drop_last()[k + 1],
            ) by {
                assert(absorbed(consoles[k], queue[k], consoles[k + 1]));
            }
        }
        law_queue_is_absorbed_in_order(consoles.drop_last(), shorter);
        lemma_prefix_decides(queue, first.manual_d_meas@, first.live_d_meas, n - 1);
        let before = consoles[n - 1];
        assert(absorbed(before, queue[n - 1], consoles[n]));
        assert(consoles.drop_last().last() == before);
        let kept = snapshots(first.history@);
        let seen = samples_of(queue, n - 1);
        if queue[n - 1].is_sample {
            assert(samples_of(queue, n) == seen.push(queue[n - 1]));
            assert((kept + seen).push(queue[n - 1]) =~= kept + samples_of(queue, n));
            assert(remembered(latest_samples(kept + seen), queue[n - 1]) =~= latest_samples(
                (kept + seen).push(queue[n - 1]),
            ));
        }
        assert(forall|k: int|
            0 <= k < n - 1 ==> (#[trigger] shorter[k]).run_state == queue[k].run_state);
        if before.running && queue[n - 1].run_state != RunState::Idle {
            assert forall|k: int| 0 <= k < n implies (#[trigger] queue[k]).run_state
                != RunState::Idle by {
                if k < n - 1 {
                    assert(shorter[k].run_state != RunState::Idle);
                }
            }
        }
    }
}

proof fn lemma_prefix_decides(
    queue: Seq<Snapshot>,
    reads: Seq<Option<Scalar>>,
    live: PerAxis,
    n: int,
)
    requires
        0 <= n < queue.len(),
    ensures
        samples_of(queue.drop_last(), n) == samples_of(queue, n),
        reads_after(reads, queue.drop_last(), n) == reads_after(reads, queue, n),
        positions_after(live, queue.drop_last(), n) == positions_after(live, queue, n),
    decreases n,
{
    if n > 0 {
        lemma_prefix_decides(queue, reads, live, n - 1);
    }
}

/// The window is part of the history, in order, and always holds its latest
/// sample.
pub proof fn law_window_is_ordered_part_of_history(history: Seq<Telemetry>, n: int)
    requires
        0 <= n <= history.len(),
    ensures
        window_of(history, n).len() <= n,
        forall|k: int|
            0 <= k < window_of(history, n).len() ==> 0 <= #[trigger] window_of(history, n)[k] < n
                && shown(history[window_of(history, n)[k]].t_ms, latest_ms(history)),
        forall|k: int, l: int|
            0 <= k < l < window_of(history, n).len() ==> #[trigger] window_of(history, n)[k]
                < #[trigger] window_of(history, n)[l],
        n == history.len() && n > 0 ==> window_of(history, n).last() == n - 1,
    decreases n,
{
    if n > 0 {
        law_window_is_ordered_part_of_history(history, n - 1);
    }
}

/// The commands of the start button, handled one after the other, ask for a
/// start with exactly the settings of the console.
pub proof fn law_start_uses_console_settings<B: Bus>(
    console: Console,
    sessions: Seq<Session<B>>,
    outcomes: Seq<Outcome>,
)
    requires
        sessions.len() == 5,
        outcomes.len() == 4,
        sessions[0].bus is Some,
        handled(
            sessions[0],
            UiCommand::SetXyPreBalance(console.xy_pre_balance),
            sessions[1],
            outcomes[0],
        ),
        handled(
            sessions[1],
            UiCommand::UpdateWeights(console.weights),
            sessions[2],
            outcomes[1],
        ),
        handled(
            sessions[2],
            UiCommand::SetMassSolver(console.mass_solver),
            sessions[3],
            outcomes[2],
        ),
        handled(sessions[3], UiCommand::StartAuto(console.run_mode), sessions[4], outcomes[3]),
    ensures
        outcomes[3].request == Some(
            match console.run_mode {
                RunMode::Mpc => Request::StartMpc {
                    xy_pre_balance: console.xy_pre_balance,
                    tuning: tuning_of(console.weights),
                },
                RunMode::Lqi => Request::StartLqi { weights: lqi_weights_of(console.weights) },
            },
        ),
        sessions[4].mass_solver == console.mass_solver,
        sessions[4].weights == console.weights,
        sessions[4].bus is Some,
        ({
            let (w, request) = (console.weights, outcomes[3].request->0);
            match console.run_mode {
                RunMode::Mpc => {
                    &&& request is StartMpc
                    &&& request->xy_pre_balance == console.xy_pre_balance
                    &&& request->tuning.q == w.q
                    &&& request->tuning.qi == w.qi
                    &&& request->tuning.qd == w.qd
                    &&& request->tuning.r == w.r
                    &&& request->tuning.du_max == w.du_max
                    &&& request->tuning.d_track_tol == w.d_track_tol
                },
                RunMode::Lqi => {
                    let weights = request->StartLqi_weights;
                    &&& request is StartLqi
                    &&& weights.qx == w.q
                    &&& weights.qi == w.qi
                    &&& weights.r == w.r
                    &&& weights.du_max == w.du_max
                    &&& weights.d_track_tol == w.d_track_tol
                },
            }
        }),
{
}

/// The commands of the tuning button, handled one after the other, make a running
/// loop take exactly the weights of the console.
pub proof fn law_tuning_uses_console_weights<B: Bus>(
    console: Console,
    first: Session<B>,
    second: Session<B>,
    third: Session<B>,
    outcomes: (Outcome, Outcome),
)
    requires
        handled(first, UiCommand::UpdateWeights(console.weights), second, outcomes.0),
        handled(second, UiCommand::TuneNow, third, outcomes.1),
    ensures
        first.run matches Run::Mpc { mpc } ==> third.run->mpc.ctrl.assembled(
            mpc.preset,
            mpc.d_op,
            Some(tuning_of(console.weights)),
        ),
        first.run is Lqi ==> outcomes.1.request == Some(
            Request::RetuneLqi { weights: lqi_weights_of(console.weights) },
        ),
        third.run is Mpc == first.run is Mpc,
        third.run is Lqi == first.run is Lqi,
        first.run is Lqi ==> {
            let (w, weights) = (console.weights, outcomes.1.request->0->RetuneLqi_weights);
            &&& weights.qx == w.q
            &&& weights.qi == w.qi
            &&& weights.r == w.r
            &&& weights.du_max == w.du_max
            &&& weights.d_track_tol == w.d_track_tol
        },
        first.run matches Run::Mpc { mpc } ==> {
            let (w, ctrl) = (console.weights, third.run->mpc.ctrl);
            !crate::mpc_model::post_balanced(mpc.preset.r0z) ==> ctrl.du_max == w.du_max
                && ctrl.d_track_tol == w.d_track_tol
        },
{
}

/// The command of a move button, when the port is open, sends one request to its
/// axis: with the distance of the button, and the speed and the acceleration of the
/// console.
pub proof fn law_moves_use_console_motion<B: Bus>(
    console: Console,
    addr: u8,
    dist_m: Scalar,
    before: Session<B>,
    after: (Session<B>, Session<B>),
    outcomes: (Outcome, Outcome),
)
    requires
        before.bus is Some,
        ({
            let (spd, acc) = (console.weights.jog_spd, console.weights.jog_acc);
            &&& handled(
                before,
                UiCommand::JogAbsolute { addr, dist_m, spd, acc },
                after.0,
                outcomes.0,
            )
            &&& handled(
                before,
                UiCommand::JogRelative { addr, dist_m, spd, acc },
                after.1,
                outcomes.1,
            )
        }),
    ensures
        ({
            let (spd, acc) = (console.weights.jog_spd, console.weights.jog_acc);
            let start = before.bus->0.log().len() as int;
            &&& writes_in(after.0.bus->0.log().skip(start)) == seq![
                mks::run_frame(mks::FUNC_RUN_ABS, addr, dist_m, spd, acc),
            ]
            &&& writes_in(after.1.bus->0.log().skip(start)) == seq![
                mks::run_frame(mks::FUNC_RUN_REL, addr, dist_m, spd, acc),
            ]
        }),
{
    let (spd, acc) = (console.weights.jog_spd, console.weights.jog_acc);
    let log = before.bus->0.log();
    let start = log.len() as int;
    let dists = [dist_m, dist_m, dist_m, dist_m];
    let there = rig::move_traffic(mks::FUNC_RUN_ABS, addr, dist_m, spd, acc, JOG_PAUSE_MS);
    let along = rig::move_traffic(mks::FUNC_RUN_REL, addr, dist_m, spd, acc, JOG_PAUSE_MS);
    let none = Seq::empty();
    rig::law_traffic_writes_requests(
        mks::FUNC_RUN_ABS,
        addr,
        none,
        dists,
        spd,
        acc,
        JOG_PAUSE_MS,
    );
    rig::law_traffic_writes_requests(
        mks::FUNC_RUN_REL,
        addr,
        none,
        dists,
        spd,
        acc,
        JOG_PAUSE_MS,
    );
    assert((log + there).skip(start) =~= there);
    assert((log + along).skip(start) =~= along);
}

/// What a snapshot does to the readings of the console. A single read goes to its own
/// axis and no other. A sample is shown, reading by reading, becomes the last of the
/// history, and gives the live positions; roll and pitch of the sample before it are
/// kept. Any other snapshot leaves the shown readings, and a turn of the encoder poll
/// gives the live positions too.
pub proof fn law_snapshot_reaches_readings(
    before: Console,
    tel: Snapshot,
    after: Console,
    k: int,
    i: int,
)
    requires
        absorbed(before, tel, after),
        0 <= k < 4,
    ensures
        tel.manual_read matches Some((addr, v)) ==> 1 <= addr <= 4 ==> after.manual_d_meas[k]
            == if k == addr - 1 {
            Some(v)
        } else {
            before.manual_d_meas[k]
        },
        tel.manual_read is None ==> after.manual_d_meas[k] == before.manual_d_meas[k],
        after.live_d_meas[k] == if tel.is_sample || tel.is_poll {
            tel.d_meas[k]
        } else {
            before.live_d_meas[k]
        },
        after.latest.run_state == tel.run_state,
        after.connected == tel.connected,
        after.status_line@ == tel.status,
        after.running <==> before.running && tel.run_state != RunState::Idle,
        !after.connecting,
        tel.is_sample ==> {
            let n = before.history@.len();
            let shift = if n < 300 {
                0int
            } else {
                1
            };
            let last = after.history@.last();
            &&& after.latest.t_ms == tel.t_ms && after.latest.cycle == tel.cycle
            &&& after.latest.roll_deg == tel.roll_deg && after.latest.pitch_deg == tel.pitch_deg
            &&& k < 3 ==> after.latest.gyro_dps[k] == tel.gyro_dps[k]
            &&& after.latest.d_meas[k] == tel.d_meas[k] && after.latest.d_cmd[k] == tel.d_cmd[k]
            &&& k < 2 ==> after.latest.e_deg[k] == tel.e_deg[k]
            &&& after.latest.exitflag == tel.exitflag
            &&& after.prev_roll == before.latest.roll_deg
            &&& after.prev_pitch == before.latest.pitch_deg
            &&& after.history@.len() == n + 1 - shift
            &&& 0 <= i < n - shift ==> after.history@[i]@ == before.history@[i + shift]@
            &&& last.t_ms == tel.t_ms && last.exitflag == tel.exitflag
            &&& last.roll_deg == tel.roll_deg && last.pitch_deg == tel.pitch_deg
            &&& k < 3 ==> last.gyro_dps[k] == tel.gyro_dps[k]
            &&& last.d_meas[k] == tel.d_meas[k] && last.d_cmd[k] == tel.d_cmd[k]
            &&& k < 2 ==> last.e_deg[k] == tel.e_deg[k]
        },
        !tel.is_sample ==> {
            &&& after.latest.t_ms == before.latest.t_ms
            &&& after.latest.roll_deg == before.latest.roll_deg
            &&& after.latest.pitch_deg == before.latest.pitch_deg
            &&& after.latest.d_meas[k] == before.latest.d_meas[k]
            &&& after.latest.d_cmd[k] == before.latest.d_cmd[k]
            &&& after.latest.exitflag == before.latest.exitflag
            &&& after.history@ == before.history@
            &&& after.prev_roll == before.prev_roll && after.prev_pitch == before.prev_pitch
        },
{
    if tel.is_sample {
        let n = before.history@.len();
        let kept = snapshots(after.history@);
        assert(kept.len() == after.history@.len());
        assert(kept.last() == after.history@.last()@);
        let shift = if n < 300 {
            0int
        } else {
            1
        };
        if 0 <= i < n - shift {
            assert(kept[i] == after.history@[i]@);
            assert(kept[i] == snapshots(before.history@)[i + shift]);
        }
    }
}

/// Where an axis is known to stand: by the live positions while something runs, by its
/// own latest single read otherwise.
pub proof fn law_readiness_is_per_axis(console: Console, i: int)
    requires
        0 <= i < 4,
    ensures
        console.latest.run_state != RunState::Idle ==> readiness(console)[i] == Some(
            console.live_d_meas[i],
        ),
        console.latest.run_state == RunState::Idle ==> readiness(console)[i]
            == console.manual_d_meas[i],
        readiness(console)[i] is None ==> !too_close(console, i),
        readiness(console)[i] matches Some(d) ==> d.finite() ==> (too_close(console, i) <==> d.units()
            < start_threshold(console.run_mode).units()),
{
    if readiness(console)[i] is Some && readiness(console)[i]->0.finite() {
        law_comparison_goes_by_value(readiness(console)[i]->0, start_threshold(console.run_mode));
    }
}

/// The window holds every sample of the last two minutes before the latest one, and no
/// other.
pub proof fn law_window_holds_last_two_minutes(history: Seq<Telemetry>, n: int, i: int)
    requires
        0 <= i < n <= history.len(),
    ensures
        window_of(history, n).contains(i) <==> history[i].t_ms + 120_000 >= history.last().t_ms,
    decreases n,
{
    law_window_is_ordered_part_of_history(history, n - 1);
    let (whole, part) = (window_of(history, n), window_of(history, n - 1));
    if i < n - 1 {
        law_window_holds_last_two_minutes(history, n - 1, i);
        if part.contains(i) {
            let k = choose|k: int| 0 <= k < part.len() && part[k] == i;
            assert(whole[k] == i);
        }
        if whole.contains(i) {
            let k = choose|k: int| 0 <= k < whole.len() && whole[k] == i;
            assert(part[k] == i);
        }
    } else {
        if whole == part.push(i) {
            assert(whole.last() == i);
        }
        if whole == part && part.contains(i) {
            let k = choose|k: int| 0 <= k < part.len() && part[k] == i;
            assert(part[k] < n - 1);
        }
    }
}

/// A sample counts as held exactly if its flag is -99, and each counts once.
pub proof fn law_held_samples_are_counted(history: Seq<Telemetry>, indices: Seq<int>, i: int)
    ensures
        held_among(history, Seq::empty()) == 0,
        history[i].exitflag == -99 ==> held_among(history, indices.push(i)) == held_among(
            history,
            indices,
        ) + 1,
        history[i].exitflag != -99 ==> held_among(history, indices.push(i)) == held_among(
            history,
            indices,
        ),
{
    assert(indices.push(i).drop_last() =~= indices);
}

/// A command for every axis is given to the axes 1 to 4 in turn.
pub proof fn law_every_axis_gets_its_command(command: spec_fn(u8) -> UiCommand, k: int)
    requires
        0 <= k < 4,
    ensures
        for_each_axis(command).len() == 4,
        for_each_axis(command)[k] == command((k + 1) as u8),
{
}

/// The samples of a queue are the snapshots that are marked as one, in order.
pub proof fn law_samples_are_the_marked_ones(queue: Seq<Snapshot>, n: int)
    requires
        0 <= n <= queue.len(),
    ensures
        samples_of(queue, n) == queue.take(n).filter(|tel: Snapshot| tel.is_sample),
    decreases n,
{
    reveal(Seq::filter);
    if n > 0 {
        law_samples_are_the_marked_ones(queue, n - 1);
        assert(queue.take(n).drop_last() =~= queue.take(n - 1));
        assert(queue.take(n).last() == queue[n - 1]);
    }
}

/// After a queue the live positions are those of its last snapshot that carries some,
/// and the single read of an axis is the last one of that axis; without one they stay.
pub proof fn law_latest_readings_win(
    live: PerAxis,
    reads: Seq<Option<Scalar>>,
    queue: Seq<Snapshot>,
    n: int,
    k: int,
    axis: int,
)
    requires
        0 <= k < n <= queue.len(),
        reads.len() == 4,
        1 <= axis <= 4,
        forall|l: int|
            0 <= l < n && (#[trigger] queue[l]).manual_read is Some ==> 1 <= (
            queue[l].manual_read->0).0 <= 4,
    ensures
        ((queue[k].is_sample || queue[k].is_poll) && forall|l: int|
            k < l < n ==> !(#[trigger] queue[l]).is_sample && !queue[l].is_poll) ==> positions_after(
            live,
            queue,
            n,
        ) == queue[k].d_meas,
        (forall|l: int| 0 <= l < n ==> !(#[trigger] queue[l]).is_sample && !queue[l].is_poll)
            ==> positions_after(live, queue, n) == live,
        reads_after(reads, queue, n).len() == 4,
        (queue[k].manual_read is Some && (queue[k].manual_read->0).0 == axis && forall|l: int|
            k < l < n ==> !((#[trigger] queue[l]).manual_read is Some && (queue[l].manual_read->0).0
                == axis)) ==> reads_after(reads, queue, n)[axis - 1] == Some(
            (queue[k].manual_read->0).1,
        ),
        (forall|l: int|
            0 <= l < n ==> !((#[trigger] queue[l]).manual_read is Some && (queue[l].manual_read->0).0
                == axis)) ==> reads_after(reads, queue, n)[axis - 1] == reads[axis - 1],
    decreases n,
{
    reveal_with_fuel(positions_after, 2);
    reveal_with_fuel(reads_after, 2);
    if k < n - 1 {
        law_latest_readings_win(live, reads, queue, n - 1, k, axis);
    } else if n > 1 {
        law_latest_readings_win(live, reads, queue, n - 1, 0, axis);
    }
}

} // verus!
