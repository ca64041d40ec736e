//! Commands on a bus without hardware.

use automass::checksum::sum8;
use automass::mks::position_of_encoder;
use automass::commands::{MassSolver, RunMode, TuneWeights, UiCommand};
use automass::lqi_gains::LqiWeights;
use automass::lqi_loop::LqiLoop;
use automass::matrix::Matrix;
use automass::mpc_loop::MpcLoop;
use automass::mpc_model::{preset_model_init, TuningWeights};
use automass::scalar::Scalar;
use automass::session::{run_state, sleep_remaining, Request, Run, Session, Work};
use automass::telemetry::{RunState, Telemetry};
use automass::transport::MockBus;

fn scalar(x: f64) -> Scalar {
    Scalar { bits: x.to_bits() }
}

fn mpc() -> MpcLoop {
    let weights = TuningWeights::from(TuneWeights::default());
    MpcLoop::init([scalar(0.2); 4], preset_model_init(), weights)
}

fn lqi() -> LqiLoop {
    let (kx, ki) = (Matrix::zeros(3, 5), Matrix::zeros(3, 2));
    LqiLoop::init([scalar(0.2); 4], kx, ki, &LqiWeights::default())
}

fn connected() -> Session<MockBus> {
    let mut session = Session::new();
    session.opened("p", Ok(MockBus::default()));
    session
}

/// Handles a command that neither reports nor asks for anything.
fn silent(session: &mut Session<MockBus>, cmd: UiCommand) {
    let outcome = session.handle_command(cmd);
    assert!(outcome.report.is_none() && outcome.request.is_none());
}

fn writes(session: &Session<MockBus>) -> &Vec<Vec<u8>> {
    &session.bus.as_ref().unwrap().writes
}

fn assert_notice(tel: &Telemetry, state: RunState, connected: bool, status: &str) {
    assert_eq!((tel.run_state, tel.connected, tel.status.as_str()), (state, connected, status));
    assert!(!tel.is_sample);
    assert_eq!((tel.t_ms, tel.cycle, tel.exitflag), (0, 0, 0));
    assert_eq!(tel.d_meas, [scalar(0.0); 4]);
}

#[test]
fn a_new_session_is_idle_with_default_settings() {
    let session: Session<MockBus> = Session::new();
    assert!(session.bus.is_none() && !session.xy_pre_balance);
    assert_eq!(session.mass_solver, MassSolver::Pinv);
    assert_eq!(session.weights.jog_spd, scalar(180.0));
    assert_eq!(session.weights.jog_acc, 64);
    assert_eq!(session.weights.q, [50.0, 50.0, 25.0, 25.0, 50.0].map(scalar));
    assert_eq!(session.weights.d_track_tol, scalar(0.03));
    assert_eq!(session.next_work(), Work::Wait);
}

#[test]
fn connecting_opens_a_port_and_reports() {
    let mut session: Session<MockBus> = Session::new();
    let outcome = session.handle_command(UiCommand::Connect("ttyUSB0".to_string()));
    match outcome.request {
        Some(Request::OpenPort { port }) => assert_eq!(port, "ttyUSB0"),
        other => panic!("{other:?}"),
    }
    let tel = session.opened("ttyUSB0", Ok(MockBus::default()));
    assert_notice(&tel, RunState::Idle, true, "Connected (ttyUSB0)");
    // A failure closes the port that was open before.
    let tel = session.opened("ttyUSB1", Err("busy".to_string()));
    assert_notice(&tel, RunState::Idle, false, "Connect failed: busy");
    assert!(session.bus.is_none());
}

#[test]
fn disconnecting_ends_everything() {
    let mut session = connected();
    session.mpc_started(Some(mpc()));
    assert_eq!(session.next_work(), Work::MpcCycle);
    let outcome = session.handle_command(UiCommand::Disconnect);
    assert_notice(&outcome.report.unwrap(), RunState::Idle, false, "Disconnected");
    assert!(session.bus.is_none());
    assert_eq!(run_state(&session.run), RunState::Idle);
    assert_eq!(session.next_work(), Work::Wait);
}

#[test]
fn without_a_port_nothing_moves_or_starts() {
    let mut session: Session<MockBus> = Session::new();
    silent(&mut session, UiCommand::Home);
    silent(&mut session, UiCommand::ReadEncoder(1));
    let (dist_m, spd) = (scalar(0.1), scalar(1.0));
    silent(&mut session, UiCommand::JogAbsolute { addr: 1, dist_m, spd, acc: 1 });
    silent(&mut session, UiCommand::JogRelative { addr: 1, dist_m, spd, acc: 1 });
    silent(&mut session, UiCommand::StartAuto(RunMode::Mpc));
    silent(&mut session, UiCommand::RefreshPorts);
    silent(&mut session, UiCommand::SetManualPoll(true));
    assert_eq!(run_state(&session.run), RunState::Manual);
    assert_eq!(session.next_work(), Work::Wait);
}

#[test]
fn moves_go_out_at_once() {
    let mut session = connected();
    silent(&mut session, UiCommand::Home);
    let (dist_m, spd) = (scalar(0.01), scalar(100.0));
    silent(&mut session, UiCommand::JogAbsolute { addr: 2, dist_m, spd, acc: 50 });
    let (dist_m, spd) = (scalar(-0.05), scalar(1.0));
    silent(&mut session, UiCommand::JogRelative { addr: 3, dist_m, spd, acc: 1 });
    let sent: Vec<(u8, u8)> = writes(&session).iter().map(|w| (w[1], w[2])).collect();
    assert_eq!(
        sent,
        vec![(1, 0x91), (2, 0x91), (3, 0x91), (4, 0x91), (2, 0xF5), (3, 0xF4)]
    );
    assert_eq!(&writes(&session)[4][6..10], &(-40960i32).to_be_bytes());
    assert_eq!(&writes(&session)[4][3..5], &1600u16.to_be_bytes());
    assert_eq!(&writes(&session)[5][3..5], &16u16.to_be_bytes());
}

#[test]
fn encoder_reads_tell_failures_apart() {
    let mut session = connected();
    let outcome = session.handle_command(UiCommand::ReadEncoder(3));
    assert_notice(
        &outcome.report.unwrap(),
        RunState::Idle,
        true,
        "Encoder[3]: timeout, 0 bytes back (check addr/baud/wiring)",
    );

    session.bus.as_mut().unwrap().push_reply(vec![0xFB, 0x01, 0x0A]);
    let outcome = session.handle_command(UiCommand::ReadEncoder(1));
    let reply = vec![0xFBu8, 0x01, 0x0A];
    assert_notice(
        &outcome.report.unwrap(),
        RunState::Idle,
        true,
        &format!("Encoder[1]: {} bytes, unparsable: {reply:02X?}", reply.len()),
    );

    let mut good = vec![0xFB, 4, 0x30, 0xFF, 0xFF, 0xFF, 0xF0, 0x01, 0x00];
    good.push(sum8(&good));
    session.bus.as_mut().unwrap().push_reply(good);
    let outcome = session.handle_command(UiCommand::ReadEncoder(4));
    assert!(outcome.report.is_none());
    match outcome.request {
        Some(Request::DescribeEncoder { addr, position }) => {
            assert_eq!((addr, position), (4, position_of_encoder(15, 256)));
        }
        other => panic!("{other:?}"),
    }
    let tel = session.encoder_described(4, scalar(0.0612), "0.0612");
    assert_notice(&tel, RunState::Idle, true, "Encoder[4] = 0.0612 m");
    assert_eq!(tel.manual_read, Some((4, scalar(0.0612))));
}

#[test]
fn starting_announces_the_loop_and_asks_for_it() {
    let mut session = connected();
    silent(&mut session, UiCommand::SetXyPreBalance(true));
    let outcome = session.handle_command(UiCommand::StartAuto(RunMode::Mpc));
    assert_notice(&outcome.report.unwrap(), RunState::Mpc, true, "Initializing...");
    match outcome.request {
        Some(Request::StartMpc { xy_pre_balance, tuning }) => {
            assert!(xy_pre_balance);
            assert_eq!(tuning.r, scalar(400.0));
        }
        other => panic!("{other:?}"),
    }
    assert!(matches!(session.run, Run::Idle));
    let outcome = session.handle_command(UiCommand::StartAuto(RunMode::Lqi));
    assert_notice(&outcome.report.unwrap(), RunState::Lqi, true, "Initializing...");
    assert!(matches!(outcome.request, Some(Request::StartLqi { .. })));
}

#[test]
fn started_loops_get_the_settings() {
    let mut session = connected();
    let mut w = TuneWeights::default();
    w.jog_spd = scalar(90.0);
    w.jog_acc = 7;
    silent(&mut session, UiCommand::UpdateWeights(w));
    silent(&mut session, UiCommand::SetMassSolver(MassSolver::Qp));
    assert!(session.mpc_started(Some(mpc())).is_none());
    match &session.run {
        Run::Mpc { mpc } => assert_eq!((mpc.spd, mpc.acc), (scalar(90.0), 7)),
        other => panic!("{other:?}"),
    }
    assert!(session.lqi_started(Some(lqi())).is_none());
    match &session.run {
        Run::Lqi { lqi } => {
            assert_eq!((lqi.spd, lqi.acc), (scalar(90.0), 7));
            assert_eq!(lqi.mass_solver, MassSolver::Qp);
        }
        other => panic!("{other:?}"),
    }
    assert_eq!(session.next_work(), Work::LqiCycle);
}

#[test]
fn failed_starts_say_why_and_end_idle() {
    let mut session = connected();
    silent(&mut session, UiCommand::SetManualPoll(true));
    let tel = session.mpc_started(None).unwrap();
    assert_notice(
        &tel,
        RunState::Idle,
        true,
        "MPC init timed out: jog all 4 axes above ~10mm first, then retry Start Auto",
    );
    assert!(matches!(session.run, Run::Idle));
    let tel = session.lqi_started(None).unwrap();
    assert_notice(
        &tel,
        RunState::Idle,
        true,
        "LQI init failed: jog all 4 axes above ~50mm first, or check the tuning weights \
         (R = 0 or an all-zero Q makes the gain solve singular)",
    );
}

#[test]
fn gains_come_before_the_masses_move() {
    let mut session = connected();
    let weights = LqiWeights::default();
    let outcome = session.lqi_solved(weights, None);
    assert!(outcome.request.is_none());
    let status = outcome.report.unwrap().status;
    assert!(status.starts_with("LQI init failed: "), "{status}");
    assert!(matches!(session.run, Run::Idle));
    let gains = Some((Matrix::zeros(3, 5), Matrix::identity(2)));
    let outcome = session.lqi_solved(weights, gains);
    assert!(outcome.report.is_none());
    match outcome.request {
        Some(Request::PrimeLqi { kx, ki, .. }) => {
            assert_eq!((kx.nrows(), ki.get(1, 1)), (3, scalar(1.0)));
        }
        other => panic!("{other:?}"),
    }
    assert!(writes(&session).is_empty());
}

#[test]
fn settings_reach_a_running_loop() {
    let mut session = connected();
    session.mpc_started(Some(mpc()));
    silent(&mut session, UiCommand::SetController(false));
    silent(
        &mut session,
        UiCommand::SetSetpoint { roll_deg: scalar(1.0), pitch_deg: scalar(-2.0) },
    );
    let mut w = TuneWeights::default();
    w.jog_spd = scalar(10.0);
    silent(&mut session, UiCommand::UpdateWeights(w));
    silent(&mut session, UiCommand::SetMassSolver(MassSolver::Qp));
    match &session.run {
        Run::Mpc { mpc } => {
            assert!(!mpc.controller_on);
            assert_eq!(mpc.setpoint_deg, [scalar(1.0), scalar(-2.0)]);
            assert_eq!(mpc.spd, scalar(10.0));
        }
        other => panic!("{other:?}"),
    }
    session.lqi_started(Some(lqi()));
    silent(&mut session, UiCommand::SetController(false));
    silent(&mut session, UiCommand::SetMassSolver(MassSolver::Pinv));
    match &session.run {
        Run::Lqi { lqi } => {
            assert!(!lqi.controller_on);
            assert_eq!(lqi.mass_solver, MassSolver::Pinv);
        }
        other => panic!("{other:?}"),
    }
    silent(&mut session, UiCommand::Stop);
    silent(&mut session, UiCommand::SetController(true));
    assert!(matches!(session.run, Run::Idle));
    assert!(session.bus.is_some());
}

#[test]
fn retuning_depends_on_what_runs() {
    let mut session = connected();
    silent(&mut session, UiCommand::TuneNow);
    session.mpc_started(Some(mpc()));
    let mut weights = TuneWeights::default();
    weights.r = scalar(77.0);
    silent(&mut session, UiCommand::UpdateWeights(weights));
    silent(&mut session, UiCommand::TuneNow);
    match &session.run {
        Run::Mpc { mpc } => {
            // The model is built again where the loop started, with the same preset.
            assert_eq!(mpc.d_op, [scalar(0.2); 4]);
            assert_eq!(mpc.preset.alpha, preset_model_init().alpha);
            assert_eq!(mpc.ctrl.r.get(0, 0), scalar(77.0));
            assert_eq!(mpc.ctrl.r.get(0, 1), scalar(0.0));
            assert_eq!(mpc.ctrl.bd.get(7, 0), scalar(1.0 - 0.2));
        }
        other => panic!("{other:?}"),
    }

    session.lqi_started(Some(lqi()));
    let outcome = session.handle_command(UiCommand::TuneNow);
    let Some(Request::RetuneLqi { weights }) = outcome.request else {
        panic!("no request");
    };
    let tel = session.lqi_retuned(&weights, None).unwrap();
    assert_notice(
        &tel,
        RunState::Lqi,
        true,
        "Tune Now: LQI gain solve failed, keeping previous gains (check R and Q — R = 0 is singular)",
    );
    match &session.run {
        Run::Lqi { lqi } => assert_eq!(lqi.du_max, scalar(0.05)),
        other => panic!("{other:?}"),
    }
    let gains = Some((Matrix::identity(5), Matrix::identity(2)));
    assert!(session.lqi_retuned(&weights, gains).is_none());
    match &session.run {
        Run::Lqi { lqi } => {
            assert_eq!(lqi.du_max, scalar(0.01));
            assert_eq!(lqi.kx.get(0, 0), scalar(1.0));
        }
        other => panic!("{other:?}"),
    }
}

#[test]
fn the_poll_runs_only_while_idle() {
    let mut session = connected();
    silent(&mut session, UiCommand::SetManualPoll(true));
    assert_eq!(session.next_work(), Work::Poll);
    let mut good = vec![0xFB, 2, 0x30, 0xFF, 0xFF, 0xFF, 0xF0, 0x01, 0x00];
    good.push(sum8(&good));
    session.bus.as_mut().unwrap().push_reply(vec![]);
    session.bus.as_mut().unwrap().push_reply(good);
    let tel = session.poll();
    assert_eq!(writes(&session).len(), 4);
    assert_eq!((tel.run_state, tel.t_ms), (RunState::Manual, 500));
    assert!(tel.is_poll && !tel.is_sample);
    assert_eq!(tel.status, "Manual live read");
    let zero = scalar(0.0);
    let at = position_of_encoder(15, 256);
    assert_eq!(tel.d_meas, [zero, at, zero, zero]);
    // A failed read keeps the position, and the clock goes on.
    let tel = session.poll();
    assert_eq!((tel.t_ms, tel.d_meas[1]), (1000, at));
    silent(&mut session, UiCommand::SetManualPoll(true));
    assert!(matches!(session.run, Run::Manual { t_ms: 1000, .. }));
    silent(&mut session, UiCommand::SetManualPoll(false));
    assert!(matches!(session.run, Run::Idle));

    session.mpc_started(Some(mpc()));
    silent(&mut session, UiCommand::SetManualPoll(true));
    silent(&mut session, UiCommand::SetManualPoll(false));
    assert_eq!(session.next_work(), Work::MpcCycle);
}

#[test]
fn a_crash_is_reported_and_ends_the_loop() {
    let mut session = connected();
    session.mpc_started(Some(mpc()));
    let tel = session.crashed(RunMode::Mpc, "boom");
    assert_notice(&tel, RunState::Idle, true, "MPC loop crashed: boom");
    assert!(matches!(session.run, Run::Idle));
    let tel = session.crashed(RunMode::Lqi, "x");
    assert_eq!(tel.status, "LQI loop crashed: x");
}

#[test]
fn a_cycle_that_overruns_is_followed_at_once() {
    assert_eq!(sleep_remaining(500_000_000, 2000), 1_500_000_000);
    assert_eq!(sleep_remaining(2_000_000_000, 2000), 0);
    assert_eq!(sleep_remaining(u128::MAX, 3250), 0);
    assert_eq!(sleep_remaining(0, 500), 500_000_000);
}
