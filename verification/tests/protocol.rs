//! Frames, checksums and replies of the motor drivers and the attitude sensor.

use automass::checksum::{crc16_modbus, sum8};
use automass::imu::{
    parse_angle_only_reply, parse_combined_reply, CMD_CALIBRATE_XY, CMD_CALIBRATE_Z,
    CMD_MOD_DELAY, CMD_READ_ACC, CMD_READ_ACC_GYRO_MAG_ANGLE, CMD_READ_ALL_HWT101,
    CMD_READ_ANGLE, CMD_READ_VELO, CMD_READ_YAW, CMD_READ_YAW_VELO, CMD_SAVE, CMD_UNLOCK,
};
use automass::mks::{
    build_home, build_is_moving, build_read_encoder, build_read_error, build_read_rpm,
    build_run_abs, build_run_rel, parse_encoder_reply, parse_error_reply, parse_is_moving_reply,
    parse_rpm_reply, position_of_encoder, position_ticks, speed_steps,
};
use automass::scalar::Scalar;

fn scalar(x: f64) -> Scalar {
    Scalar { bits: x.to_bits() }
}

fn num(x: Scalar) -> f64 {
    f64::from_bits(x.bits)
}

fn assert_crc_matches(cmd: [u8; 8]) {
    let crc = crc16_modbus(&cmd[..6]);
    assert_eq!(crc.to_le_bytes(), [cmd[6], cmd[7]], "cmd={:02X?}", cmd);
}

#[test]
fn sum8_wraps() {
    assert_eq!(sum8(&[0xFA, 0x01, 0x30]), 0x2B);
    assert_eq!(sum8(&[0xFF, 0xFF]), 0xFE);
}

#[test]
fn crc16_matches_read_angle_command() {
    let crc = crc16_modbus(&[0x50, 0x03, 0x00, 0x3D, 0x00, 0x06]);
    assert_eq!(crc.to_le_bytes(), [0x59, 0x85]);
}

#[test]
fn most_fixed_commands_have_valid_crc16() {
    for cmd in [
        CMD_READ_ACC_GYRO_MAG_ANGLE,
        CMD_READ_ANGLE,
        CMD_READ_ACC,
        CMD_READ_VELO,
        CMD_READ_ALL_HWT101,
        CMD_UNLOCK,
        CMD_CALIBRATE_XY,
        CMD_CALIBRATE_Z,
        CMD_SAVE,
        CMD_MOD_DELAY,
    ] {
        assert_crc_matches(cmd);
    }
}

#[test]
fn read_yaw_commands_have_known_stale_crc16() {
    assert_ne!(
        crc16_modbus(&CMD_READ_YAW[..6]).to_le_bytes(),
        [CMD_READ_YAW[6], CMD_READ_YAW[7]]
    );
    assert_ne!(
        crc16_modbus(&CMD_READ_YAW_VELO[..6]).to_le_bytes(),
        [CMD_READ_YAW_VELO[6], CMD_READ_YAW_VELO[7]]
    );
}

#[test]
fn combined_reply_rejects_short_or_bad_header() {
    assert!(parse_combined_reply(&[0u8; 34]).is_none());
    let mut bytes = [0u8; 35];
    bytes[0] = 0x51;
    assert!(parse_combined_reply(&bytes).is_none());
}

#[test]
fn combined_reply_decodes_angle_word_swap() {
    let mut bytes = [0u8; 35];
    bytes[0] = 0x50;
    bytes[21] = 0x03;
    bytes[22] = 0xE8;
    bytes[23] = 0x00;
    bytes[24] = 0x00;
    let frame = parse_combined_reply(&bytes).unwrap();
    assert!((num(frame.angle_deg[0]) - 1.0).abs() < 1e-9);
}

#[test]
fn combined_reply_decodes_every_channel() {
    let mut bytes = [0u8; 35];
    bytes[0] = 0x50;
    // Acceleration x is -2, rotation y is 300, field z is -32768, yaw is -1.
    bytes[3] = 0xFF;
    bytes[4] = 0xFE;
    bytes[11] = 0x01;
    bytes[12] = 0x2C;
    bytes[19] = 0x80;
    bytes[20] = 0x00;
    for b in &mut bytes[29..33] {
        *b = 0xFF;
    }
    let frame = parse_combined_reply(&bytes).unwrap();
    assert_eq!(frame.acc_g.map(num), [-2.0 / 32768.0 * 16.0, 0.0, 0.0]);
    assert_eq!(frame.gyro_dps.map(num), [0.0, 300.0 / 32768.0 * 2000.0, 0.0]);
    assert_eq!(frame.mag_raw.map(num), [0.0, 0.0, -32768.0]);
    assert_eq!(frame.angle_deg.map(num), [0.0, 0.0, -1.0 / 1000.0]);
}

#[test]
fn angle_only_reply_checks_address_function_and_crc() {
    let mut bytes = [0u8; 17];
    bytes[0] = 0x50;
    bytes[1] = 0x03;
    bytes[2] = 0x0C;
    bytes[3] = 0x03;
    bytes[4] = 0xE8;
    // Pitch is 0x0001_0002.
    bytes[7] = 0x00;
    bytes[8] = 0x02;
    bytes[9] = 0x00;
    bytes[10] = 0x01;
    let crc = crc16_modbus(&bytes[..15]).to_le_bytes();
    bytes[15] = crc[0];
    bytes[16] = crc[1];
    let angles = [1.0, 65538.0 / 1000.0, 0.0].map(scalar);
    assert_eq!(parse_angle_only_reply(0x50, &bytes), Some(angles));
    assert_eq!(parse_angle_only_reply(0x51, &bytes), None);
    assert_eq!(parse_angle_only_reply(0x50, &bytes[..16]), None);
    let mut damaged = bytes;
    damaged[5] ^= 0x40;
    assert_eq!(parse_angle_only_reply(0x50, &damaged), None);
    let mut wrong_function = bytes;
    wrong_function[1] = 0x06;
    assert_eq!(parse_angle_only_reply(0x50, &wrong_function), None);
}

#[test]
fn home_frame_bytes() {
    assert_eq!(build_home(1), [0xFA, 0x01, 0x91, 0x8C]);
}

#[test]
fn read_encoder_frame_bytes() {
    assert_eq!(build_read_encoder(1), [0xFA, 0x01, 0x30, 0x2B]);
}

#[test]
fn other_request_frame_bytes() {
    assert_eq!(build_read_error(2), [0xFA, 0x02, 0x39, 0x35]);
    assert_eq!(build_read_rpm(3), [0xFA, 0x03, 0x32, 0x2F]);
    assert_eq!(build_is_moving(4), [0xFA, 0x04, 0xF1, 0xEF]);
}

#[test]
fn run_abs_negates_and_scales() {
    let frame = build_run_abs(1, scalar(0.01), scalar(100.0), 50);
    assert_eq!(frame[0], 0xFA);
    assert_eq!(frame[1], 1);
    assert_eq!(frame[2], 0xF5);
    assert_eq!(&frame[3..5], &[0x06, 0x40]);
    assert_eq!(frame[5], 50);
    let field = i32::from_be_bytes([frame[6], frame[7], frame[8], frame[9]]);
    assert_eq!(field, -40960);
    assert_eq!(frame[10], sum8(&frame[..10]));
}

#[test]
fn run_rel_uses_f4() {
    let frame = build_run_rel(2, scalar(-0.005), scalar(500.0), 100);
    assert_eq!(frame[2], 0xF4);
    assert_eq!(&frame[3..5], &[0x0B, 0xB8]);
}

#[test]
fn run_fields_saturate() {
    let frame = build_run_abs(1, scalar(1e9), scalar(-5.0), 0);
    assert_eq!(&frame[3..5], &[0, 0]);
    assert_eq!(&frame[6..10], &i32::MIN.to_be_bytes());
    let frame = build_run_abs(1, scalar(f64::NEG_INFINITY), scalar(f64::INFINITY), 0);
    assert_eq!(&frame[3..5], &[0x0B, 0xB8]);
    assert_eq!(&frame[6..10], &i32::MAX.to_be_bytes());
    let frame = build_run_abs(1, scalar(f64::NAN), scalar(f64::NAN), 0);
    assert_eq!(&frame[3..5], &[0, 0]);
    assert_eq!(&frame[6..10], &[0, 0, 0, 0]);
}

#[test]
fn encoder_reply_roundtrip() {
    let mut bytes = [0u8; 10];
    bytes[0] = 0xFB;
    bytes[1] = 1;
    bytes[2] = 0x30;
    bytes[3..7].copy_from_slice(&0u32.to_be_bytes());
    bytes[7..9].copy_from_slice(&8000u16.to_be_bytes());
    bytes[9] = sum8(&bytes[..9]);
    let m = num(parse_encoder_reply(1, &bytes).unwrap());
    let expected_degree = 8000.0 * (180.0 / 16383.0);
    assert!((m - expected_degree * (4.0 / 1000.0 / 360.0)).abs() < 1e-9);
}

#[test]
fn encoder_reply_counts_turns_down() {
    let mut bytes = [0u8; 10];
    bytes[0] = 0xFB;
    bytes[1] = 1;
    bytes[2] = 0x30;
    bytes[3..7].copy_from_slice(&(u32::MAX - 7).to_be_bytes());
    bytes[7..9].copy_from_slice(&32766u16.to_be_bytes());
    bytes[9] = sum8(&bytes[..9]);
    let per_degree = 4.0 / 1000.0 / 360.0;
    // Outside of the turn the turns count as degrees, and the ticks not at all.
    assert_eq!(parse_encoder_reply(1, &bytes), Some(scalar(7.0 * per_degree)));
    bytes[7..9].copy_from_slice(&1u16.to_be_bytes());
    bytes[9] = sum8(&bytes[..9]);
    let total = 7.0 * 360.0 + 1.0 * (180.0 / 16383.0);
    assert_eq!(parse_encoder_reply(1, &bytes), Some(scalar(total * per_degree)));
}

/// The position of an encoder, worked out by the machine.
fn expected_position(carry: u32, ticks: u16) -> f64 {
    let rotation = if carry > 0 { 4_294_967_295.0 - carry as f64 } else { 0.0 };
    let degree = ticks as f64 * (180.0 / 16383.0);
    let total = if degree > 0.0 && degree < 360.0 { rotation * 360.0 + degree } else { rotation };
    total * (4.0 / 1000.0 / 360.0)
}

#[test]
fn encoder_positions_are_exact() {
    for turns in [0u32, 1, 15, 49, 50, 123_456, 1 << 31, u32::MAX - 1] {
        for ticks in [0u16, 1, 2, 8000, 16383, 20000, 32765, 32766, 32767, 65535] {
            let expected = expected_position(u32::MAX - turns, ticks);
            assert_eq!(position_of_encoder(turns, ticks), scalar(expected), "{turns} {ticks}");
        }
    }
}

#[test]
fn encoder_reply_rejects_bad_checksum() {
    let mut bytes = [0u8; 10];
    bytes[0] = 0xFB;
    bytes[1] = 1;
    bytes[2] = 0x30;
    bytes[9] = 0xFF;
    assert!(parse_encoder_reply(1, &bytes).is_none());
}

#[test]
fn encoder_reply_lenient_header_bug_preserved() {
    let mut bytes = [0u8; 10];
    bytes[0] = 0x00;
    bytes[1] = 1;
    bytes[2] = 0x99;
    bytes[9] = sum8(&bytes[..9]);
    assert!(parse_encoder_reply(1, &bytes).is_some());
}

#[test]
fn encoder_reply_without_any_matching_field_is_rejected() {
    let mut bytes = [0u8; 10];
    bytes[1] = 2;
    bytes[2] = 0x99;
    bytes[9] = sum8(&bytes[..9]);
    assert!(parse_encoder_reply(1, &bytes).is_none());
}

#[test]
fn is_moving_ignores_addr_and_checksum() {
    let bytes = [0xFB, 0x99, 0xF1, 0x00, 0x00];
    assert_eq!(parse_is_moving_reply(&bytes), Some(true));
    let bytes_stopped = [0xFB, 0x99, 0xF1, 0x01, 0x00];
    assert_eq!(parse_is_moving_reply(&bytes_stopped), Some(false));
}

#[test]
fn error_and_rpm_strict_validation() {
    let mut err = [0xFB, 1, 0x39, 0, 0, 0, 0, 0];
    err[7] = sum8(&err[..7]);
    assert!(parse_error_reply(1, &err).is_some());
    assert!(parse_error_reply(2, &err).is_none());

    let mut rpm = [0xFB, 1, 0x32, 0, 100, 0];
    rpm[5] = sum8(&rpm[..5]);
    assert_eq!(parse_rpm_reply(1, &rpm).map(num), Some(100.0));
}

#[test]
fn error_and_rpm_are_signed() {
    let mut err = [0xFB, 1, 0x39, 0xFF, 0xFF, 0xFF, 0xFE, 0];
    err[7] = sum8(&err[..7]);
    assert_eq!(parse_error_reply(1, &err), Some(scalar(-2.0 / (51200.0 / 360.0))));
    let mut rpm = [0xFB, 1, 0x32, 0x80, 0, 0];
    rpm[5] = sum8(&rpm[..5]);
    assert_eq!(parse_rpm_reply(1, &rpm), Some(scalar(-32768.0)));
    rpm[4] = 1;
    assert_eq!(parse_rpm_reply(1, &rpm), None);
}

#[test]
fn a_single_damaged_byte_is_found() {
    let frame = build_run_abs(3, scalar(0.1234), scalar(50.0), 7);
    for i in 0..10 {
        let mut damaged = frame;
        damaged[i] ^= 0x11;
        assert_ne!(damaged[10], sum8(&damaged[..10]));
    }
    let cmd = CMD_READ_ANGLE;
    for i in 0..6 {
        let mut damaged = cmd;
        damaged[i] ^= 0x81;
        assert_ne!(crc16_modbus(&damaged[..6]), crc16_modbus(&cmd[..6]));
    }
    // A frame followed by its own CRC leaves no remainder.
    assert_eq!(crc16_modbus(&cmd), 0);
}

#[test]
fn speeds_are_rounded_to_sixteenths_and_limited() {
    let mut speeds = vec![
        0.0, -0.0, 180.0, 50.0, 187.4, 187.5, 187.6, 500.0, 1e300, 5e-324, -5e-324, -1.0, 0.03125,
        0.031249999999999, 0.09375, 99.96875, 99.968749999999, f64::INFINITY, f64::NEG_INFINITY,
        f64::NAN, f64::MAX, f64::MIN_POSITIVE,
    ];
    for i in 0..4000 {
        speeds.push(i as f64 * 0.0471 - 0.3);
    }
    for spd in speeds {
        let expected = (spd * 16.0).clamp(0.0, 3000.0).round() as u16;
        assert_eq!(speed_steps(scalar(spd)), i64::from(expected), "{spd}");
    }
    assert_eq!(speed_steps(scalar(180.0)), 2880);
    assert_eq!(speed_steps(scalar(500.0)), 3000);
    assert_eq!(speed_steps(scalar(f64::NAN)), 0);
}

#[test]
fn distances_are_rounded_to_ticks() {
    let mut dists = vec![
        0.0, -0.0, 0.01, -0.005, 0.2, 0.495, 0.001, -0.0015, 1e-7, 1.2207031e-7, 5e-324, 524.287999,
        524.288, 524.2881, -524.288, -524.28812, 1e300, -1e300, f64::INFINITY, f64::NEG_INFINITY,
        f64::NAN, f64::MAX, f64::MIN_POSITIVE,
    ];
    for i in 0..4000 {
        dists.push(i as f64 * 0.000_251_7 - 0.5);
        // Around half a tick.
        dists.push((i as f64 + 0.5) * 0.004 / 16384.0);
    }
    for dist in dists {
        let expected = (-dist / 0.004 * 16384.0).round() as i32;
        assert_eq!(position_ticks(scalar(dist)), expected, "{dist:e}");
        if dist.abs() <= 1.0 {
            // The nearest tick, of which 16384 are 4 mm.
            assert!((f64::from(expected) * 0.004 + 16384.0 * dist).abs() <= 0.002 + 1e-9);
        }
    }
    assert_eq!(position_ticks(scalar(0.01)), -40960);
    assert_eq!(position_ticks(scalar(-0.001)), 4096);
    assert_eq!(position_ticks(scalar(-0.0015)), 6144);
}
