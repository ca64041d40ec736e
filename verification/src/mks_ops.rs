//! Exchanges with the motor drivers and the attitude sensor over a [`Bus`].
//!
//! Every request to a driver first discards buffered input: home and move
//! requests are answered by the driver too, and those answers are never read, so
//! one of them could otherwise be taken for the reply to a later request.

use crate::imu;
use crate::mks;
use crate::scalar::Scalar;
use crate::transport::{
    follows_script, law_script_is_followed_on, lemma_script_goes_on, served, unserved, Bus,
    BusEvent,
};
use vstd::prelude::*;

verus! {

/// The log after the request `frame` was written and `reply` came for it.
pub open spec fn asked(
    log: Seq<BusEvent>,
    frame: Seq<u8>,
    wanted: nat,
    reply: Seq<u8>,
) -> Seq<BusEvent> {
    log.push(BusEvent::Write { bytes: frame }).push(BusEvent::Read { wanted, reply })
}

/// The log after stale input was discarded, the request `frame` was written and
/// `reply` came for it.
pub open spec fn asked_fresh(
    log: Seq<BusEvent>,
    frame: Seq<u8>,
    wanted: nat,
    reply: Seq<u8>,
) -> Seq<BusEvent> {
    asked(log.push(BusEvent::Flush), frame, wanted, reply)
}

/// The reply that the last entry of `log` records.
pub open spec fn last_reply(log: Seq<BusEvent>) -> Seq<u8> {
    log.last()->reply
}

/// The log after stale input was discarded and the request `frame` was written.
pub open spec fn told(log: Seq<BusEvent>, frame: Seq<u8>) -> Seq<BusEvent> {
    log.push(BusEvent::Flush).push(BusEvent::Write { bytes: frame })
}

/// A scripted bus records the one request `frame` and takes its next reply,
/// which is `reply`, for a read of up to `wanted` bytes.
pub open spec fn took_reply<B: Bus>(
    before: B,
    after: B,
    frame: Seq<u8>,
    wanted: nat,
    reply: Seq<u8>,
) -> bool {
    before.scripted() ==> {
        &&& after.scripted()
        &&& after.written() == before.written().push(frame)
        &&& after.pending() == unserved(before.pending())
        &&& reply == served(before.pending(), wanted)
    }
}

/// A scripted bus records the one request `frame` and keeps its replies.
pub open spec fn took_frame<B: Bus>(before: B, after: B, frame: Seq<u8>) -> bool {
    before.scripted() ==> {
        &&& after.scripted()
        &&& after.written() == before.written().push(frame)
        &&& after.pending() == before.pending()
    }
}

/// Asks axis `addr` for its encoder position.
pub fn read_encoder<B: Bus>(bus: &mut B, addr: u8) -> (res: Option<Scalar>)
    ensures
        final(bus).log() == asked_fresh(
            old(bus).log(),
            mks::request_frame(addr, mks::FUNC_READ_ENCODER),
            mks::ENCODER_REPLY_LEN as nat,
            last_reply(final(bus).log()),
        ),
        last_reply(final(bus).log()).len() <= mks::ENCODER_REPLY_LEN,
        res == mks::encoder_reply(addr, last_reply(final(bus).log())),
        took_reply(
            *old(bus),
            *final(bus),
            mks::request_frame(addr, mks::FUNC_READ_ENCODER),
            mks::ENCODER_REPLY_LEN as nat,
            last_reply(final(bus).log()),
        ),
        follows_script(*old(bus), *final(bus)),
{
    bus.flush_input();
    let ghost flushed = *bus;
    bus.write_bytes(mks::build_read_encoder(addr).as_slice());
    let ghost asked_bus = *bus;
    let reply: Vec<u8> = bus.read_up_to(mks::ENCODER_REPLY_LEN);
    proof {
        broadcast use law_script_is_followed_on;

        lemma_script_goes_on(*old(bus), flushed, BusEvent::Flush);
        lemma_script_goes_on(flushed, asked_bus, asked_bus.log().last());
        lemma_script_goes_on(asked_bus, *bus, bus.log().last());
    }
    mks::parse_encoder_reply(addr, reply.as_slice())
}

/// Asks axis `addr` for its position error.
pub fn read_error<B: Bus>(bus: &mut B, addr: u8) -> (res: Option<Scalar>)
    ensures
        final(bus).log() == asked_fresh(
            old(bus).log(),
            mks::request_frame(addr, mks::FUNC_READ_ERROR),
            mks::ERROR_REPLY_LEN as nat,
            last_reply(final(bus).log()),
        ),
        last_reply(final(bus).log()).len() <= mks::ERROR_REPLY_LEN,
        res == mks::error_reply(addr, last_reply(final(bus).log())),
        took_reply(
            *old(bus),
            *final(bus),
            mks::request_frame(addr, mks::FUNC_READ_ERROR),
            mks::ERROR_REPLY_LEN as nat,
            last_reply(final(bus).log()),
        ),
        follows_script(*old(bus), *final(bus)),
{
    bus.flush_input();
    let ghost flushed = *bus;
    bus.write_bytes(mks::build_read_error(addr).as_slice());
    let ghost asked_bus = *bus;
    let reply: Vec<u8> = bus.read_up_to(mks::ERROR_REPLY_LEN);
    proof {
        broadcast use law_script_is_followed_on;

        lemma_script_goes_on(*old(bus), flushed, BusEvent::Flush);
        lemma_script_goes_on(flushed, asked_bus, asked_bus.log().last());
        lemma_script_goes_on(asked_bus, *bus, bus.log().last());
    }
    mks::parse_error_reply(addr, reply.as_slice())
}

/// Asks axis `addr` for its speed.
pub fn read_rpm<B: Bus>(bus: &mut B, addr: u8) -> (res: Option<Scalar>)
    ensures
        final(bus).log() == asked_fresh(
            old(bus).log(),
            mks::request_frame(addr, mks::FUNC_READ_RPM),
            mks::RPM_REPLY_LEN as nat,
            last_reply(final(bus).log()),
        ),
        last_reply(final(bus).log()).len() <= mks::RPM_REPLY_LEN,
        res == mks::rpm_reply(addr, last_reply(final(bus).log())),
        took_reply(
            *old(bus),
            *final(bus),
            mks::request_frame(addr, mks::FUNC_READ_RPM),
            mks::RPM_REPLY_LEN as nat,
            last_reply(final(bus).log()),
        ),
        follows_script(*old(bus), *final(bus)),
{
    bus.flush_input();
    let ghost flushed = *bus;
    bus.write_bytes(mks::build_read_rpm(addr).as_slice());
    let ghost asked_bus = *bus;
    let reply: Vec<u8> = bus.read_up_to(mks::RPM_REPLY_LEN);
    proof {
        broadcast use law_script_is_followed_on;

        lemma_script_goes_on(*old(bus), flushed, BusEvent::Flush);
        lemma_script_goes_on(flushed, asked_bus, asked_bus.log().last());
        lemma_script_goes_on(asked_bus, *bus, bus.log().last());
    }
    mks::parse_rpm_reply(addr, reply.as_slice())
}

/// Asks axis `addr` whether it is moving.
pub fn is_moving<B: Bus>(bus: &mut B, addr: u8) -> (res: Option<bool>)
    ensures
        final(bus).log() == asked_fresh(
            old(bus).log(),
            mks::request_frame(addr, mks::FUNC_IS_MOVING),
            mks::IS_MOVING_REPLY_LEN as nat,
            last_reply(final(bus).log()),
        ),
        last_reply(final(bus).log()).len() <= mks::IS_MOVING_REPLY_LEN,
        res == mks::is_moving_reply(last_reply(final(bus).log())),
        took_reply(
            *old(bus),
            *final(bus),
            mks::request_frame(addr, mks::FUNC_IS_MOVING),
            mks::IS_MOVING_REPLY_LEN as nat,
            last_reply(final(bus).log()),
        ),
        follows_script(*old(bus), *final(bus)),
{
    bus.flush_input();
    let ghost flushed = *bus;
    bus.write_bytes(mks::build_is_moving(addr).as_slice());
    let ghost asked_bus = *bus;
    let reply: Vec<u8> = bus.read_up_to(mks::IS_MOVING_REPLY_LEN);
    proof {
        broadcast use law_script_is_followed_on;

        lemma_script_goes_on(*old(bus), flushed, BusEvent::Flush);
        lemma_script_goes_on(flushed, asked_bus, asked_bus.log().last());
        lemma_script_goes_on(asked_bus, *bus, bus.log().last());
    }
    mks::parse_is_moving_reply(reply.as_slice())
}

/// Sends axis `addr` home. Stale input is discarded first; the
/// answer of the driver is not read.
pub fn home<B: Bus>(bus: &mut B, addr: u8)
    ensures
        final(bus).log() == told(old(bus).log(), mks::request_frame(addr, mks::FUNC_HOME)),
        took_frame(*old(bus), *final(bus), mks::request_frame(addr, mks::FUNC_HOME)),
        follows_script(*old(bus), *final(bus)),
{
    bus.flush_input();
    let ghost flushed = *bus;
    bus.write_bytes(mks::build_home(addr).as_slice());
    proof {
        broadcast use law_script_is_followed_on;

        lemma_script_goes_on(*old(bus), flushed, BusEvent::Flush);
        lemma_script_goes_on(flushed, *bus, bus.log().last());
    }
}

/// Moves axis `addr` to an absolute position. Stale input is discarded first; the
/// answer of the driver is not read.
pub fn run_abs<B: Bus>(bus: &mut B, addr: u8, dist_m: Scalar, spd: Scalar, acc: u8)
    ensures
        final(bus).log() == told(
            old(bus).log(),
            mks::run_frame(mks::FUNC_RUN_ABS, addr, dist_m, spd, acc),
        ),
        took_frame(
            *old(bus),
            *final(bus),
            mks::run_frame(mks::FUNC_RUN_ABS, addr, dist_m, spd, acc),
        ),
        follows_script(*old(bus), *final(bus)),
{
    bus.flush_input();
    let ghost flushed = *bus;
    bus.write_bytes(mks::build_run_abs(addr, dist_m, spd, acc).as_slice());
    proof {
        broadcast use law_script_is_followed_on;

        lemma_script_goes_on(*old(bus), flushed, BusEvent::Flush);
        lemma_script_goes_on(flushed, *bus, bus.log().last());
    }
}

/// Moves axis `addr` by a relative distance. Stale input is discarded first; the
/// answer of the driver is not read.
pub fn run_rel<B: Bus>(bus: &mut B, addr: u8, dist_m: Scalar, spd: Scalar, acc: u8)
    ensures
        final(bus).log() == told(
            old(bus).log(),
            mks::run_frame(mks::FUNC_RUN_REL, addr, dist_m, spd, acc),
        ),
        took_frame(
            *old(bus),
            *final(bus),
            mks::run_frame(mks::FUNC_RUN_REL, addr, dist_m, spd, acc),
        ),
        follows_script(*old(bus), *final(bus)),
{
    bus.flush_input();
    let ghost flushed = *bus;
    bus.write_bytes(mks::build_run_rel(addr, dist_m, spd, acc).as_slice());
    proof {
        broadcast use law_script_is_followed_on;

        lemma_script_goes_on(*old(bus), flushed, BusEvent::Flush);
        lemma_script_goes_on(flushed, *bus, bus.log().last());
    }
}

/// Asks the attitude sensor for a combined reading. Discarding stale input is
/// left to the caller, who does it once in a control cycle.
pub fn read_imu<B: Bus>(bus: &mut B) -> (res: Option<imu::ImuFrame>)
    ensures
        final(bus).log() == asked(
            old(bus).log(),
            imu::CMD_READ_ACC_GYRO_MAG_ANGLE@,
            imu::COMBINED_REPLY_LEN as nat,
            last_reply(final(bus).log()),
        ),
        last_reply(final(bus).log()).len() <= imu::COMBINED_REPLY_LEN,
        res == imu::combined_reply(last_reply(final(bus).log())),
        took_reply(
            *old(bus),
            *final(bus),
            imu::CMD_READ_ACC_GYRO_MAG_ANGLE@,
            imu::COMBINED_REPLY_LEN as nat,
            last_reply(final(bus).log()),
        ),
        follows_script(*old(bus), *final(bus)),
{
    let ghost start = *bus;
    let request: [u8; 8] = imu::CMD_READ_ACC_GYRO_MAG_ANGLE;
    bus.write_bytes(request.as_slice());
    let ghost asked_bus = *bus;
    let reply: Vec<u8> = bus.read_up_to(imu::COMBINED_REPLY_LEN);
    proof {
        broadcast use law_script_is_followed_on;

        lemma_script_goes_on(start, asked_bus, asked_bus.log().last());
        lemma_script_goes_on(asked_bus, *bus, bus.log().last());
    }
    imu::parse_combined_reply(reply.as_slice())
}

} // verus!
