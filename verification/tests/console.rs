//! The operator's console.

use automass::commands::{MassSolver, RunMode, TuneWeights, UiCommand};
use automass::console::{
    exitflag_badge, run_state_chip, Console, Preflight, Tint, HISTORY_LEN,
};
use automass::scalar::Scalar;
use automass::telemetry::{RunState, Telemetry};

fn scalar(x: f64) -> Scalar {
    Scalar { bits: x.to_bits() }
}

fn sample(t_ms: u64, roll: f64, exitflag: i32) -> Telemetry {
    let mut tel = Telemetry::notice(RunState::Mpc, true, "Running...".to_string());
    tel.is_sample = true;
    tel.t_ms = t_ms;
    tel.roll_deg = scalar(roll);
    tel.exitflag = exitflag;
    tel.d_meas = [scalar(0.2); 4];
    tel
}

fn connected() -> Console {
    let mut console = Console::new(TuneWeights::default());
    console.absorb(Telemetry::notice(RunState::Idle, true, "Connected (p)".to_string()));
    console
}

#[test]
fn labels_for_states_and_flags() {
    assert_eq!(run_state_chip(RunState::Idle), ("Idle", Tint::Gray));
    assert_eq!(
        run_state_chip(RunState::Manual),
        ("Manual poll", Tint::Rgb { r: 90, g: 140, b: 220 })
    );
    assert_eq!(run_state_chip(RunState::Mpc), ("▶ MPC", Tint::Rgb { r: 80, g: 180, b: 80 }));
    assert_eq!(run_state_chip(RunState::Lqi), ("▶ LQI", Tint::Rgb { r: 80, g: 180, b: 80 }));
    assert_eq!(exitflag_badge(1).0, "✔ solved");
    assert_eq!(exitflag_badge(-99).0, "⏳ gate held");
    assert_eq!(exitflag_badge(-1).0, "⚠ infeasible");
    assert_eq!(exitflag_badge(0), ("off", Tint::Gray));
    assert_eq!(exitflag_badge(7), ("?", Tint::Gray));
}

#[test]
fn notices_update_the_status_but_not_the_readings() {
    let mut console = connected();
    assert!(console.connected);
    assert_eq!(console.status_line, "Connected (p)");
    console.absorb(sample(2000, 1.5, 1));
    console.running = true;
    console.absorb(Telemetry::notice(RunState::Mpc, true, "still".to_string()));
    assert_eq!(console.history.len(), 1);
    assert_eq!(console.latest.roll_deg, scalar(1.5));
    assert_eq!(console.latest.t_ms, 2000);
    assert!(console.running);
    // An idle notice means that the run is over.
    console.absorb(Telemetry::notice(RunState::Idle, true, "crashed".to_string()));
    assert!(!console.running);
    assert_eq!(console.latest.run_state, RunState::Idle);
    assert_eq!(console.latest.roll_deg, scalar(1.5));
    assert_eq!(console.history.len(), 1);
}

#[test]
fn samples_are_kept_up_to_a_limit() {
    let mut console = connected();
    for i in 0..HISTORY_LEN as u64 + 5 {
        console.absorb(sample(i, i as f64, 1));
    }
    assert_eq!(console.history.len(), HISTORY_LEN);
    assert_eq!(console.history[0].t_ms, 5);
    assert_eq!(console.latest.t_ms, HISTORY_LEN as u64 + 4);
    assert_eq!(console.prev_roll, scalar(HISTORY_LEN as f64 + 3.0));
}

#[test]
fn single_reads_go_to_their_axis() {
    let mut console = connected();
    let mut tel = Telemetry::notice(RunState::Idle, true, String::new());
    tel.manual_read = Some((3, scalar(0.25)));
    console.absorb(tel);
    assert_eq!(console.manual_d_meas, [None, None, Some(scalar(0.25)), None]);
    assert_eq!(console.axis_readiness(), console.manual_d_meas);
    console.absorb(sample(1, 0.0, 1));
    assert_eq!(console.axis_readiness(), [Some(scalar(0.2)); 4]);
}

#[test]
fn the_poll_updates_live_positions_only() {
    let mut console = connected();
    console.absorb(sample(2000, 1.5, 1));
    let mut tel = Telemetry::notice(RunState::Manual, true, "Manual live read".to_string());
    tel.is_poll = true;
    tel.t_ms = 500;
    tel.d_meas = [scalar(0.1), scalar(0.2), scalar(0.3), scalar(0.4)];
    let polled = tel.d_meas;
    console.absorb(tel);
    assert_eq!(console.live_d_meas, polled);
    assert_eq!(console.axis_readiness(), polled.map(Some));
    assert_eq!(console.latest.d_meas, [scalar(0.2); 4]);
    assert_eq!((console.latest.t_ms, console.latest.run_state), (2000, RunState::Manual));
    assert_eq!((console.history.len(), console.manual_d_meas), (1, [None; 4]));
    // A notice in between carries no positions.
    console.absorb(Telemetry::notice(RunState::Manual, true, "Connected (p)".to_string()));
    assert_eq!(console.live_d_meas, polled);
}

#[test]
fn a_queue_leaves_its_last_word() {
    let mut console = connected();
    console.running = true;
    console.absorb(sample(1, 1.0, 1));
    console.absorb(Telemetry::notice(RunState::Idle, true, "stopped".to_string()));
    console.absorb(sample(2, 2.0, 1));
    console.absorb(Telemetry::notice(RunState::Mpc, false, "gone".to_string()));
    let times: Vec<u64> = console.history.iter().map(|t| t.t_ms).collect();
    assert_eq!(times, vec![1, 2]);
    assert_eq!((console.status_line.as_str(), console.connected), ("gone", false));
    assert!(!console.running);
    assert_eq!((console.latest.t_ms, console.latest.run_state), (2, RunState::Mpc));
}

#[test]
fn preflight_compares_with_the_threshold_of_the_mode() {
    let mut console = connected();
    assert!(matches!(console.preflight(), Preflight::Unknown));
    for addr in 1..=4u8 {
        let mut tel = Telemetry::notice(RunState::Idle, true, String::new());
        tel.manual_read = Some((addr, scalar(if addr == 2 { 0.03 } else { 0.06 })));
        console.absorb(tel);
    }
    assert!(matches!(console.preflight(), Preflight::Ready));
    console.run_mode = RunMode::Lqi;
    match console.preflight() {
        Preflight::TooClose { axes } => assert_eq!(axes, [false, true, false, false]),
        other => panic!("{other:?}"),
    }
    console.running = true;
    assert!(matches!(console.preflight(), Preflight::Running));
}

#[test]
fn the_window_reaches_back_two_minutes() {
    let mut console = connected();
    assert_eq!(console.gate_counts(), (0, 0));
    assert!(console.windowed_history().is_empty());
    for (t, flag) in [(0, -99), (10_000, -99), (30_000, 1), (130_000, -99), (130_001, 0)] {
        console.absorb(sample(t, 0.0, flag));
    }
    // 130001 - 120000 = 10001, so the sample at 10000 is just out.
    assert_eq!(console.windowed_history(), vec![2, 3, 4]);
    assert_eq!(console.gate_counts(), (3, 1));
}

#[test]
fn buttons_send_nothing_when_they_must_not() {
    let mut console = Console::new(TuneWeights::default());
    assert!(!console.can_move());
    assert!(console.go(1, scalar(0.1)).is_none());
    assert!(console.shift(1, scalar(0.1)).is_none());
    assert!(console.go_all(scalar(0.1)).is_empty());
    assert!(console.shift_all(scalar(0.1)).is_empty());
    assert!(console.read_all().is_empty());
    assert!(console.read(2).is_none());
    assert!(console.home_all().is_none());
    assert!(console.start_auto().is_empty());
    assert!(console.stop().is_none());
    assert!(console.connect(&String::new()).is_none());
    assert_eq!(console.status_line, "Disconnected");

    let mut console = connected();
    console.running = true;
    assert!(console.go_to([0.1, 0.2, 0.3, 0.4].map(scalar)).is_empty());
    assert!(console.home_all().is_none());
    assert!(console.start_auto().is_empty());
    assert_eq!(console.read_all().len(), 4);
    assert!(matches!(console.read(2), Some(UiCommand::ReadEncoder(2))));
}

#[test]
fn connecting_asks_once() {
    let mut console = Console::new(TuneWeights::default());
    let port = "ttyUSB0".to_string();
    match console.connect(&port) {
        Some(UiCommand::Connect(p)) => assert_eq!(p, port),
        other => panic!("{other:?}"),
    }
    assert!(console.connecting);
    assert_eq!(console.status_line, "Connecting…");
    assert!(console.connect(&port).is_none());
    assert!(matches!(console.disconnect(), UiCommand::Disconnect));
}

#[test]
fn moves_carry_the_motion_settings() {
    let mut console = connected();
    console.weights.jog_acc = 9;
    console.weights.jog_spd = scalar(12.5);
    let cmds = console.go_to([1.0, 2.0, 3.0, 4.0].map(scalar));
    for (i, cmd) in cmds.iter().enumerate() {
        match cmd {
            UiCommand::JogAbsolute { addr, dist_m, spd, acc } => {
                assert_eq!((*addr as usize, *dist_m), (i + 1, scalar((i + 1) as f64)));
                assert_eq!((*spd, *acc), (scalar(12.5), 9));
            }
            other => panic!("{other:?}"),
        }
    }
    assert_eq!(cmds.len(), 4);
    for (i, cmd) in console.shift_all(scalar(-0.07)).iter().enumerate() {
        match cmd {
            UiCommand::JogRelative { addr, dist_m, .. } => {
                assert_eq!((*addr as usize, *dist_m), (i + 1, scalar(-0.07)));
            }
            other => panic!("{other:?}"),
        }
    }
    match console.go(4, scalar(0.3)) {
        Some(UiCommand::JogAbsolute { addr, dist_m, spd, acc }) => {
            assert_eq!((addr, dist_m, spd, acc), (4, scalar(0.3), scalar(12.5), 9));
        }
        other => panic!("{other:?}"),
    }
    match console.shift(4, scalar(0.3)) {
        Some(UiCommand::JogRelative { addr, dist_m, spd, acc }) => {
            assert_eq!((addr, dist_m, spd, acc), (4, scalar(0.3), scalar(12.5), 9));
        }
        other => panic!("{other:?}"),
    }
    assert_eq!(console.go_all(scalar(0.1)).len(), 4);
}

#[test]
fn homing_makes_single_reads_stale() {
    let mut console = connected();
    console.manual_d_meas = [Some(scalar(0.1)); 4];
    assert!(matches!(console.home_all(), Some(UiCommand::Home)));
    assert_eq!(console.manual_d_meas, [None; 4]);
    assert_eq!(console.status_line, "Homing all 4 axes — wait for motion to stop");
}

#[test]
fn starting_sends_settings_first_and_clears_the_history() {
    let mut console = connected();
    console.absorb(sample(1, 0.0, 1));
    console.absorb(Telemetry::notice(RunState::Idle, true, String::new()));
    console.manual_poll = true;
    console.mass_solver = MassSolver::Qp;
    console.xy_pre_balance = true;
    console.run_mode = RunMode::Lqi;
    let cmds = console.start_auto();
    assert_eq!(cmds.len(), 4);
    assert!(matches!(cmds[0], UiCommand::SetXyPreBalance(true)));
    assert!(matches!(cmds[1], UiCommand::UpdateWeights(_)));
    assert!(matches!(cmds[2], UiCommand::SetMassSolver(MassSolver::Qp)));
    assert!(matches!(cmds[3], UiCommand::StartAuto(RunMode::Lqi)));
    assert!(console.running && !console.manual_poll && console.history.is_empty());
    assert!(matches!(console.stop(), Some(UiCommand::Stop)));
    assert!(!console.running);
    assert_eq!(console.latest.run_state, RunState::Idle);
}

#[test]
fn poll_switch_and_tuning() {
    let mut console = connected();
    console.absorb(sample(1, 0.0, 1));
    assert!(matches!(console.set_manual_poll(false), UiCommand::SetManualPoll(false)));
    assert_eq!(console.history.len(), 1);
    assert!(matches!(console.set_manual_poll(true), UiCommand::SetManualPoll(true)));
    assert!(console.history.is_empty() && console.manual_poll);
    let cmds = console.tune_now();
    assert!(matches!(cmds[0], UiCommand::UpdateWeights(_)));
    assert!(matches!(cmds[1], UiCommand::TuneNow));
    assert_eq!(cmds.len(), 2);
}

#[test]
fn settings_are_kept_and_sent() {
    let mut console = connected();
    assert!(matches!(console.set_controller(false), UiCommand::SetController(false)));
    assert!(!console.controller_on);
    assert!(matches!(
        console.set_mass_solver(MassSolver::Qp),
        UiCommand::SetMassSolver(MassSolver::Qp)
    ));
    assert_eq!(console.mass_solver, MassSolver::Qp);
    match console.set_setpoint(scalar(1.5), scalar(-2.0)) {
        UiCommand::SetSetpoint { roll_deg, pitch_deg } => {
            assert_eq!((roll_deg, pitch_deg), (scalar(1.5), scalar(-2.0)));
        }
        other => panic!("{other:?}"),
    }
    assert_eq!((console.setpoint_roll, console.setpoint_pitch), (scalar(1.5), scalar(-2.0)));
}
