//! The bus without hardware, and the exchanges over it.

use automass::checksum::sum8;
use automass::imu::CMD_READ_ACC_GYRO_MAG_ANGLE;
use automass::mks::position_of_encoder;
use automass::mks_ops::{
    home, is_moving, read_encoder, read_error, read_imu, read_rpm, run_abs, run_rel,
};
use automass::commands::RunMode;
use automass::prime::{begin_start, Nudge, PrimeStep, Priming, INIT_POLL_TIMEOUT_NS};
use automass::rig::{
    drive_axes, home_axes, move_by, move_to, nudge_axes, read_attitude, read_axes,
};
use automass::scalar::Scalar;
use automass::transport::{Bus, MockBus};

fn scalar(x: f64) -> Scalar {
    Scalar { bits: x.to_bits() }
}

fn encoder_reply(addr: u8, turns: u32, ticks: u16) -> Vec<u8> {
    let mut reply = vec![0xFB, addr, 0x30];
    reply.extend_from_slice(&(u32::MAX - turns).to_be_bytes());
    reply.extend_from_slice(&ticks.to_be_bytes());
    reply.push(sum8(&reply));
    reply
}

#[test]
fn mock_bus_records_writes_and_serves_replies() {
    let mut bus = MockBus::default();
    bus.push_reply(vec![0xFB, 1, 0x30]);
    bus.write_bytes(&[0xFA, 1, 0x30, 0x2B]);
    assert_eq!(bus.writes[0], vec![0xFA, 1, 0x30, 0x2B]);
    assert_eq!(bus.read_up_to(10), vec![0xFB, 1, 0x30]);
}

#[test]
fn mock_bus_truncates_and_runs_dry() {
    let mut bus = MockBus::default();
    bus.push_reply(vec![1, 2, 3, 4]);
    bus.push_reply(vec![5]);
    assert_eq!(bus.read_up_to(2), vec![1, 2]);
    assert_eq!(bus.read_up_to(2), vec![5]);
    assert_eq!(bus.read_up_to(2), Vec::<u8>::new());
    bus.flush_input();
    bus.pause(1);
    assert!(bus.writes.is_empty());
}

#[test]
fn read_encoder_sends_correct_frame_and_parses_reply() {
    let mut bus = MockBus::default();
    let mut reply = [0u8; 10];
    reply[0] = 0xFB;
    reply[1] = 1;
    reply[2] = 0x30;
    reply[9] = sum8(&reply[..9]);
    bus.push_reply(reply.to_vec());

    let result = read_encoder(&mut bus, 1);
    assert_eq!(bus.writes[0], vec![0xFA, 1, 0x30, 0x2B]);
    assert!(result.is_some());
}

#[test]
fn read_imu_short_reply_returns_none() {
    let mut bus = MockBus::default();
    bus.push_reply(vec![0x50; 10]);
    assert!(read_imu(&mut bus).is_none());
    assert_eq!(bus.writes[0], CMD_READ_ACC_GYRO_MAG_ANGLE.to_vec());
}

#[test]
fn other_reads_ask_and_parse() {
    let mut bus = MockBus::default();
    let mut err = vec![0xFB, 2, 0x39, 0, 0, 1, 0];
    err.push(sum8(&err));
    bus.push_reply(err);
    let mut rpm = vec![0xFB, 2, 0x32, 0xFF, 0xFF];
    rpm.push(sum8(&rpm));
    bus.push_reply(rpm);
    bus.push_reply(vec![0xFB, 2, 0xF1, 1, 0]);
    assert_eq!(read_error(&mut bus, 2), Some(scalar(256.0 / (51200.0 / 360.0))));
    assert_eq!(read_rpm(&mut bus, 2), Some(scalar(-1.0)));
    assert_eq!(is_moving(&mut bus, 2), Some(false));
    assert_eq!(is_moving(&mut bus, 2), None);
    let codes: Vec<u8> = bus.writes.iter().map(|w| w[2]).collect();
    assert_eq!(codes, vec![0x39, 0x32, 0xF1, 0xF1]);
}

/// A bus that writes down the order of everything done to it.
struct Recorder {
    done: Vec<String>,
}

impl Bus for Recorder {
    fn write_bytes(&mut self, bytes: &[u8]) {
        self.done.push(format!("write {:02X} to {}", bytes[2], bytes[1]));
    }

    fn read_up_to(&mut self, n: usize) -> Vec<u8> {
        self.done.push(format!("read {n}"));
        Vec::new()
    }

    fn flush_input(&mut self) {
        self.done.push("flush".to_string());
    }

    fn pause(&mut self, ms: u64) {
        self.done.push(format!("pause {ms}"));
    }
}

#[test]
fn every_request_to_a_driver_discards_stale_input_first() {
    let mut bus = Recorder { done: Vec::new() };
    home(&mut bus, 1);
    run_abs(&mut bus, 2, scalar(0.01), scalar(1.0), 5);
    run_rel(&mut bus, 3, scalar(0.01), scalar(1.0), 5);
    read_rpm(&mut bus, 4);
    let done = [
        "flush", "write 91 to 1", "flush", "write F5 to 2", "flush", "write F4 to 3", "flush",
        "write 32 to 4", "read 6",
    ];
    assert_eq!(bus.done, done);
    let mut bus = Recorder { done: Vec::new() };
    home_axes(&mut bus, 200);
    assert_eq!(&bus.done[..4], &["flush", "write 91 to 1", "pause 200", "flush"]);
    assert_eq!(bus.done.len(), 12);
    let mut bus = Recorder { done: Vec::new() };
    drive_axes(&mut bus, [0.1, 0.2, 0.3, 0.4].map(scalar), scalar(1.0), 5, 120);
    assert_eq!(&bus.done[3..6], &["flush", "write F4 to 2", "pause 120"]);
    // The attitude sensor is asked as it is.
    let mut bus = Recorder { done: Vec::new() };
    read_imu(&mut bus);
    assert_eq!(bus.done.len(), 2);
    assert_eq!(bus.done[1], "read 35");
}

#[test]
fn moves_write_and_read_nothing() {
    let mut bus = MockBus::default();
    bus.push_reply(vec![1]);
    home(&mut bus, 3);
    run_abs(&mut bus, 1, scalar(0.01), scalar(1.0), 5);
    run_rel(&mut bus, 2, scalar(-0.01), scalar(1.0), 5);
    assert_eq!(bus.writes.len(), 3);
    assert_eq!(bus.writes[0], vec![0xFA, 3, 0x91, 0x8E]);
    assert_eq!(bus.writes[1][2], 0xF5);
    assert_eq!(&bus.writes[1][6..10], &(-40960i32).to_be_bytes());
    assert_eq!(bus.writes[2][2], 0xF4);
    assert_eq!(&bus.writes[2][6..10], &40960i32.to_be_bytes());
    assert_eq!(bus.replies.len(), 1);
}

#[test]
fn a_sweep_asks_every_axis_in_turn() {
    let mut bus = MockBus::default();
    bus.push_reply(encoder_reply(1, 3, 100));
    bus.push_reply(vec![]);
    bus.push_reply(encoder_reply(3, 5, 7));
    bus.push_reply(encoder_reply(4, 0, 9));
    let readings = read_axes(&mut bus, 50);
    assert_eq!(readings[0], Some(position_of_encoder(3, 100)));
    assert_eq!(readings[1], None);
    assert_eq!(readings[2], Some(position_of_encoder(5, 7)));
    assert_eq!(readings[3], Some(position_of_encoder(0, 9)));
    let asked: Vec<u8> = bus.writes.iter().map(|w| w[1]).collect();
    assert_eq!(asked, vec![1, 2, 3, 4]);
    assert!(bus.writes.iter().all(|w| w[2] == 0x30));
}

#[test]
fn an_attitude_reading_asks_the_sensor() {
    let mut bus = MockBus::default();
    let mut reply = vec![0u8; 35];
    reply[0] = 0x50;
    reply[22] = 5;
    bus.push_reply(reply);
    let frame = read_attitude(&mut bus, 50).unwrap();
    assert_eq!(frame.angle_deg, [0.005, 0.0, 0.0].map(scalar));
    assert_eq!(bus.writes, vec![CMD_READ_ACC_GYRO_MAG_ANGLE.to_vec()]);
}

#[test]
fn axis_two_is_driven_by_distance() {
    let mut bus = MockBus::default();
    drive_axes(&mut bus, [0.1, 0.2, 0.3, 0.4].map(scalar), scalar(180.0), 64, 120);
    let moves: Vec<(u8, u8, i32)> = bus
        .writes
        .iter()
        .map(|w| (w[1], w[2], i32::from_be_bytes([w[6], w[7], w[8], w[9]])))
        .collect();
    assert_eq!(moves, vec![
            (1, 0xF5, -409600),
            (2, 0xF4, -819200),
            (3, 0xF5, -1228800),
            (4, 0xF5, -1638400),
        ]);
    assert!(bus.writes.iter().all(|w| (w[3], w[4], w[5]) == (0x0B, 0x40, 64)));
}

#[test]
fn single_moves_nudges_and_homing() {
    let mut bus = MockBus::default();
    move_to(&mut bus, 2, scalar(0.1), scalar(1.0), 1, 120);
    move_by(&mut bus, 3, scalar(0.1), scalar(1.0), 1, 120);
    nudge_axes(&mut bus, scalar(-0.001), scalar(50.0), 128, 120);
    home_axes(&mut bus, 200);
    let sent: Vec<(u8, u8)> = bus.writes.iter().map(|w| (w[1], w[2])).collect();
    assert_eq!(
        sent,
        vec![
            (2, 0xF5),
            (3, 0xF4),
            (1, 0xF4),
            (2, 0xF4),
            (3, 0xF4),
            (4, 0xF4),
            (1, 0x91),
            (2, 0x91),
            (3, 0x91),
            (4, 0x91),
        ]
    );
    assert_eq!(&bus.writes[2][6..10], &4096i32.to_be_bytes());
    assert_eq!((bus.writes[2][3], bus.writes[2][4], bus.writes[2][5]), (0x03, 0x20, 128));
}

#[test]
fn priming_waits_for_every_axis_and_gives_up_after_a_minute() {
    let mut bus = MockBus::default();
    let nudge = Nudge { dist_m: scalar(-0.001), acc: 128, pause_ms: 120 };
    let mut priming = Priming::begin(&mut bus, nudge, scalar(0.01));
    assert_eq!(bus.writes.len(), 4);
    bus.push_reply(encoder_reply(1, 50, 1));
    bus.push_reply(encoder_reply(2, 2, 1));
    bus.push_reply(vec![]);
    bus.push_reply(encoder_reply(4, 50, 1));
    assert_eq!(priming.next(&mut bus, 0), PrimeStep::Polled);
    assert_eq!(bus.writes.len(), 8);
    let at = position_of_encoder(50, 1);
    assert_eq!(priming.d0, [at, position_of_encoder(2, 1), scalar(0.0), at]);
    assert_eq!(priming.next(&mut bus, INIT_POLL_TIMEOUT_NS), PrimeStep::Polled);
    assert_eq!(priming.next(&mut bus, INIT_POLL_TIMEOUT_NS + 1), PrimeStep::TimedOut);
    assert_eq!(bus.writes.len(), 12);
    // An axis without a reading keeps its position; a NaN is not below.
    priming.absorb([None, Some(scalar(0.01)), Some(scalar(f64::NAN)), None]);
    assert_eq!(priming.d0[0], at);
    assert_eq!(priming.next(&mut bus, u128::MAX), PrimeStep::Ready);
    assert_eq!(bus.writes.len(), 12);
}

#[test]
fn each_loop_starts_with_its_own_nudge_and_threshold() {
    let cases = [(RunMode::Mpc, 4096i32, 128, 0.01), (RunMode::Lqi, 6144i32, 32, 0.05)];
    for (mode, field, acc, threshold) in cases {
        let mut bus = MockBus::default();
        let mut priming = begin_start(&mut bus, mode);
        assert_eq!(priming.min_d, scalar(threshold));
        assert_eq!(bus.writes.len(), 4);
        for (i, w) in bus.writes.iter().enumerate() {
            assert_eq!((w[1] as usize, w[2], w[5]), (i + 1, 0xF4, acc));
            assert_eq!((w[3], w[4]), (0x03, 0x20));
            assert_eq!(&w[6..10], &field.to_be_bytes());
        }
        priming.absorb([Some(scalar(threshold)); 4]);
        assert!(matches!(priming.next(&mut bus, 0), PrimeStep::Ready));
        priming.absorb([None, None, Some(scalar(threshold - 1e-9)), None]);
        assert!(!matches!(priming.next(&mut bus, 0), PrimeStep::Ready));
    }
}

#[test]
fn a_script_is_followed_write_by_write_and_read_by_read() {
    let mut bus = MockBus::default();
    for addr in 1..=4 {
        bus.push_reply(encoder_reply(addr, 1, 1));
    }
    bus.push_reply(vec![9]);
    nudge_axes(&mut bus, scalar(0.1), scalar(50.0), 1, 0);
    assert_eq!((bus.writes.len(), bus.replies.len()), (4, 5));
    read_axes(&mut bus, 0);
    assert_eq!((bus.writes.len(), bus.replies.len()), (8, 1));
    read_attitude(&mut bus, 0);
    assert_eq!((bus.writes.len(), bus.replies.len()), (9, 0));
    // An empty script goes on with empty replies.
    assert_eq!(read_axes(&mut bus, 0), [None; 4]);
    assert_eq!((bus.writes.len(), bus.replies.len()), (13, 0));
}
