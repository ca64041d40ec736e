//! Exchanges that involve all four axes: sweeps over the encoders, the attitude
//! reading, and moves.

use crate::imu;
use crate::mks;
use crate::mks_ops;
use crate::mks_ops::last_reply;
use crate::scalar::Scalar;
use crate::transport::{
    follows_script, law_script_is_followed_on, lemma_script_goes_on, lemma_writes_add, writes_in,
    Bus, BusEvent,
};
use vstd::prelude::*;

verus! {

broadcast use law_script_is_followed_on;

/// The position of each axis, in metres, absent where the reply was missing or bad.
pub type Readings = [Option<Scalar>; 4];

/// Leaves the bus alone for `ms` milliseconds.
pub fn rest<B: Bus>(bus: &mut B, ms: u64)
    ensures
        final(bus).log() == old(bus).log().push(BusEvent::Pause { ms: ms as nat }),
        follows_script(*old(bus), *final(bus)),
{
    bus.pause(ms);
    proof {
        lemma_script_goes_on(*old(bus), *bus, BusEvent::Pause { ms: ms as nat });
    }
}

/// Discards stale input.
pub fn discard<B: Bus>(bus: &mut B)
    ensures
        final(bus).log() == old(bus).log().push(BusEvent::Flush),
        follows_script(*old(bus), *final(bus)),
{
    bus.flush_input();
    proof {
        lemma_script_goes_on(*old(bus), *bus, BusEvent::Flush);
    }
}

/// The traffic of one encoder request and the pause after it, if there is one.
pub open spec fn encoder_exchange(addr: u8, reply: Seq<u8>, pause_ms: u64) -> Seq<BusEvent> {
    let exchange = seq![
        BusEvent::Flush,
        BusEvent::Write { bytes: mks::request_frame(addr, mks::FUNC_READ_ENCODER) },
        BusEvent::Read { wanted: mks::ENCODER_REPLY_LEN as nat, reply },
    ];
    if pause_ms > 0 {
        exchange.push(BusEvent::Pause { ms: pause_ms as nat })
    } else {
        exchange
    }
}

/// The reply to the encoder request for the axis at index `i`, in a sweep whose
/// traffic starts at index `start` of `log`.
pub open spec fn sweep_reply(log: Seq<BusEvent>, start: int, pause_ms: u64, i: int) -> Seq<u8> {
    log[start + i * (if pause_ms > 0 {
        4int
    } else {
        3
    }) + 2]->reply
}

/// `after` is `before` and a sweep over all four encoders.
pub open spec fn swept(before: Seq<BusEvent>, after: Seq<BusEvent>, pause_ms: u64) -> bool {
    let start = before.len() as int;
    after == before + encoder_exchange(1, sweep_reply(after, start, pause_ms, 0), pause_ms)
        + encoder_exchange(2, sweep_reply(after, start, pause_ms, 1), pause_ms)
        + encoder_exchange(3, sweep_reply(after, start, pause_ms, 2), pause_ms)
        + encoder_exchange(4, sweep_reply(after, start, pause_ms, 3), pause_ms)
}

/// The readings that a sweep gives.
pub open spec fn sweep_readings(after: Seq<BusEvent>, start: int, pause_ms: u64) -> Readings {
    [
        mks::encoder_reply(1, sweep_reply(after, start, pause_ms, 0)),
        mks::encoder_reply(2, sweep_reply(after, start, pause_ms, 1)),
        mks::encoder_reply(3, sweep_reply(after, start, pause_ms, 2)),
        mks::encoder_reply(4, sweep_reply(after, start, pause_ms, 3)),
    ]
}

/// Reads the encoder of axis `addr`, and leaves the bus alone for `pause_ms`
/// milliseconds unless that is none.
fn read_axis<B: Bus>(bus: &mut B, addr: u8, pause_ms: u64) -> (res: Option<Scalar>)
    ensures
        ({
            let reply = final(bus).log()[old(bus).log().len() as int + 2]->reply;
            &&& final(bus).log() == old(bus).log() + encoder_exchange(addr, reply, pause_ms)
            &&& res == mks::encoder_reply(addr, reply)
        }),
        follows_script(*old(bus), *final(bus)),
{
    let res = mks_ops::read_encoder(bus, addr);
    let ghost reply = last_reply(bus.log());
    if pause_ms > 0 {
        rest(bus, pause_ms);
    }
    assert(bus.log()[old(bus).log().len() as int + 2]->reply == reply);
    assert(bus.log() =~= old(bus).log() + encoder_exchange(addr, reply, pause_ms));
    res
}

/// Reads the encoders of all four axes, each followed by a pause of `pause_ms`
/// milliseconds unless that is none.
pub fn read_axes<B: Bus>(bus: &mut B, pause_ms: u64) -> (res: Readings)
    ensures
        swept(old(bus).log(), final(bus).log(), pause_ms),
        res == sweep_readings(final(bus).log(), old(bus).log().len() as int, pause_ms),
        follows_script(*old(bus), *final(bus)),
{
    let a = read_axis(bus, 1, pause_ms);
    let b = read_axis(bus, 2, pause_ms);
    let c = read_axis(bus, 3, pause_ms);
    let d = read_axis(bus, 4, pause_ms);
    [a, b, c, d]
}

/// The traffic of an attitude reading: stale input is discarded, the sensor is
/// asked, and the bus is left alone for `pause_ms` milliseconds.
pub open spec fn attitude_exchange(reply: Seq<u8>, pause_ms: u64) -> Seq<BusEvent> {
    seq![
        BusEvent::Flush,
        BusEvent::Write { bytes: imu::CMD_READ_ACC_GYRO_MAG_ANGLE@ },
        BusEvent::Read { wanted: imu::COMBINED_REPLY_LEN as nat, reply },
        BusEvent::Pause { ms: pause_ms as nat },
    ]
}

/// The reply in an attitude exchange at the end of `log`.
pub open spec fn attitude_reply(log: Seq<BusEvent>) -> Seq<u8> {
    log[log.len() - 2]->reply
}

/// Reads the attitude sensor.
pub fn read_attitude<B: Bus>(bus: &mut B, pause_ms: u64) -> (res: Option<imu::ImuFrame>)
    ensures
        final(bus).log() == old(bus).log() + attitude_exchange(
            attitude_reply(final(bus).log()),
            pause_ms,
        ),
        res == imu::combined_reply(attitude_reply(final(bus).log())),
        follows_script(*old(bus), *final(bus)),
{
    discard(bus);
    let res = mks_ops::read_imu(bus);
    let ghost reply = last_reply(bus.log());
    rest(bus, pause_ms);
    assert(attitude_reply(bus.log()) == reply);
    assert(bus.log() =~= old(bus).log() + attitude_exchange(reply, pause_ms));
    res
}

/// A move of one axis, as the motor driver is asked for it.
pub open spec fn move_event(func: u8, addr: u8, dist_m: Scalar, spd: Scalar, acc: u8) -> BusEvent {
    BusEvent::Write { bytes: mks::run_frame(func, addr, dist_m, spd, acc) }
}

/// The traffic of a move of one axis: stale input is discarded, the driver is
/// asked, and the bus is left alone.
pub open spec fn move_traffic(
    func: u8,
    addr: u8,
    dist_m: Scalar,
    spd: Scalar,
    acc: u8,
    pause_ms: u64,
) -> Seq<BusEvent> {
    seq![
        BusEvent::Flush,
        move_event(func, addr, dist_m, spd, acc),
        BusEvent::Pause { ms: pause_ms as nat },
    ]
}

/// Moves one axis to a position.
pub fn move_to<B: Bus>(bus: &mut B, addr: u8, dist_m: Scalar, spd: Scalar, acc: u8, pause_ms: u64)
    ensures
        final(bus).log() == old(bus).log() + move_traffic(
            mks::FUNC_RUN_ABS,
            addr,
            dist_m,
            spd,
            acc,
            pause_ms,
        ),
        follows_script(*old(bus), *final(bus)),
{
    mks_ops::run_abs(bus, addr, dist_m, spd, acc);
    rest(bus, pause_ms);
    assert(bus.log() =~= old(bus).log() + move_traffic(
        mks::FUNC_RUN_ABS,
        addr,
        dist_m,
        spd,
        acc,
        pause_ms,
    ));
}

/// Moves one axis by a distance.
pub fn move_by<B: Bus>(bus: &mut B, addr: u8, dist_m: Scalar, spd: Scalar, acc: u8, pause_ms: u64)
    ensures
        final(bus).log() == old(bus).log() + move_traffic(
            mks::FUNC_RUN_REL,
            addr,
            dist_m,
            spd,
            acc,
            pause_ms,
        ),
        follows_script(*old(bus), *final(bus)),
{
    mks_ops::run_rel(bus, addr, dist_m, spd, acc);
    rest(bus, pause_ms);
    assert(bus.log() =~= old(bus).log() + move_traffic(
        mks::FUNC_RUN_REL,
        addr,
        dist_m,
        spd,
        acc,
        pause_ms,
    ));
}

/// The traffic of a command to all four masses: axis 2 is moved by a distance,
/// the other axes to a position, with a pause after each.
pub open spec fn drive_traffic(
    dists: [Scalar; 4],
    spd: Scalar,
    acc: u8,
    pause_ms: u64,
) -> Seq<BusEvent> {
    let pause = BusEvent::Pause { ms: pause_ms as nat };
    seq![
        BusEvent::Flush,
        move_event(mks::FUNC_RUN_ABS, 1, dists[0], spd, acc),
        pause,
        BusEvent::Flush,
        move_event(mks::FUNC_RUN_REL, 2, dists[1], spd, acc),
        pause,
        BusEvent::Flush,
        move_event(mks::FUNC_RUN_ABS, 3, dists[2], spd, acc),
        pause,
        BusEvent::Flush,
        move_event(mks::FUNC_RUN_ABS, 4, dists[3], spd, acc),
        pause,
    ]
}

/// Commands all four masses: axis 2 by the distance `dists[1]`, the other axes
/// to a position.
pub fn drive_axes<B: Bus>(bus: &mut B, dists: [Scalar; 4], spd: Scalar, acc: u8, pause_ms: u64)
    ensures
        final(bus).log() == old(bus).log() + drive_traffic(dists, spd, acc, pause_ms),
        follows_script(*old(bus), *final(bus)),
{
    mks_ops::run_abs(bus, 1, dists[0], spd, acc);
    rest(bus, pause_ms);
    mks_ops::run_rel(bus, 2, dists[1], spd, acc);
    rest(bus, pause_ms);
    mks_ops::run_abs(bus, 3, dists[2], spd, acc);
    rest(bus, pause_ms);
    mks_ops::run_abs(bus, 4, dists[3], spd, acc);
    rest(bus, pause_ms);
    assert(bus.log() =~= old(bus).log() + drive_traffic(dists, spd, acc, pause_ms));
}

/// The traffic of moving every axis by the same distance.
pub open spec fn nudge_traffic(
    dist_m: Scalar,
    spd: Scalar,
    acc: u8,
    pause_ms: u64,
) -> Seq<BusEvent> {
    let pause = BusEvent::Pause { ms: pause_ms as nat };
    seq![
        BusEvent::Flush,
        move_event(mks::FUNC_RUN_REL, 1, dist_m, spd, acc),
        pause,
        BusEvent::Flush,
        move_event(mks::FUNC_RUN_REL, 2, dist_m, spd, acc),
        pause,
        BusEvent::Flush,
        move_event(mks::FUNC_RUN_REL, 3, dist_m, spd, acc),
        pause,
        BusEvent::Flush,
        move_event(mks::FUNC_RUN_REL, 4, dist_m, spd, acc),
        pause,
    ]
}

/// Moves every axis by the same distance.
pub fn nudge_axes<B: Bus>(bus: &mut B, dist_m: Scalar, spd: Scalar, acc: u8, pause_ms: u64)
    ensures
        final(bus).log() == old(bus).log() + nudge_traffic(dist_m, spd, acc, pause_ms),
        follows_script(*old(bus), *final(bus)),
{
    mks_ops::run_rel(bus, 1, dist_m, spd, acc);
    rest(bus, pause_ms);
    mks_ops::run_rel(bus, 2, dist_m, spd, acc);
    rest(bus, pause_ms);
    mks_ops::run_rel(bus, 3, dist_m, spd, acc);
    rest(bus, pause_ms);
    mks_ops::run_rel(bus, 4, dist_m, spd, acc);
    rest(bus, pause_ms);
    assert(bus.log() =~= old(bus).log() + nudge_traffic(dist_m, spd, acc, pause_ms));
}

/// The traffic of sending every axis home.
pub open spec fn home_traffic(pause_ms: u64) -> Seq<BusEvent> {
    let pause = BusEvent::Pause { ms: pause_ms as nat };
    seq![
        BusEvent::Flush,
        BusEvent::Write { bytes: mks::request_frame(1, mks::FUNC_HOME) },
        pause,
        BusEvent::Flush,
        BusEvent::Write { bytes: mks::request_frame(2, mks::FUNC_HOME) },
        pause,
        BusEvent::Flush,
        BusEvent::Write { bytes: mks::request_frame(3, mks::FUNC_HOME) },
        pause,
        BusEvent::Flush,
        BusEvent::Write { bytes: mks::request_frame(4, mks::FUNC_HOME) },
        pause,
    ]
}

/// Sends every axis home.
pub fn home_axes<B: Bus>(bus: &mut B, pause_ms: u64)
    ensures
        final(bus).log() == old(bus).log() + home_traffic(pause_ms),
        follows_script(*old(bus), *final(bus)),
{
    mks_ops::home(bus, 1);
    rest(bus, pause_ms);
    mks_ops::home(bus, 2);
    rest(bus, pause_ms);
    mks_ops::home(bus, 3);
    rest(bus, pause_ms);
    mks_ops::home(bus, 4);
    rest(bus, pause_ms);
    assert(bus.log() =~= old(bus).log() + home_traffic(pause_ms));
}

/// `event` asks a motor to move: it is a write with the function code of a
/// move or of homing.
pub open spec fn moves_motor(event: BusEvent) -> bool {
    match event {
        BusEvent::Write { bytes } => bytes.len() > 2 && bytes[0] == mks::TX_HEADER && (bytes[2]
            == mks::FUNC_RUN_ABS || bytes[2] == mks::FUNC_RUN_REL || bytes[2] == mks::FUNC_HOME),
        _ => false,
    }
}

/// No event of `log` asks a motor to move.
pub open spec fn motionless(log: Seq<BusEvent>) -> bool {
    forall|k: int| 0 <= k < log.len() ==> !moves_motor(#[trigger] log[k])
}

/// Reading the encoders and the attitude sensor moves no motor.
pub proof fn law_reading_moves_nothing(addr: u8, reply: Seq<u8>, pause_ms: u64)
    ensures
        motionless(encoder_exchange(addr, reply, pause_ms)),
        motionless(attitude_exchange(reply, pause_ms)),
{
    assert(mks::request_frame(addr, mks::FUNC_READ_ENCODER)[2] == mks::FUNC_READ_ENCODER);
    assert(imu::CMD_READ_ACC_GYRO_MAG_ANGLE@[0] != mks::TX_HEADER);
}

/// `after` is `before` and the sensor traffic of a cycle: a sweep over the
/// encoders, which gave `encoders`, and an attitude reading, which gave `imu`.
pub open spec fn sensed(
    before: Seq<BusEvent>,
    after: Seq<BusEvent>,
    encoders: Readings,
    imu: Option<imu::ImuFrame>,
    pause_ms: u64,
) -> bool {
    let sweep = after.take(after.len() - 4);
    &&& after.len() >= 4
    &&& swept(before, sweep, pause_ms)
    &&& encoders == sensed_positions(before, after, pause_ms)
    &&& after == sweep + attitude_exchange(attitude_reply(after), pause_ms)
    &&& imu == sensed_attitude(after)
}

/// The positions that the sensors gave between the logs `before` and `after`.
pub open spec fn sensed_positions(
    before: Seq<BusEvent>,
    after: Seq<BusEvent>,
    pause_ms: u64,
) -> Readings {
    sweep_readings(after.take(after.len() - 4), before.len() as int, pause_ms)
}

/// What the attitude sensor gave at the end of the log `after`.
pub open spec fn sensed_attitude(after: Seq<BusEvent>) -> Option<imu::ImuFrame> {
    imu::combined_reply(attitude_reply(after))
}

/// Reads all sensors, each followed by a pause of `pause_ms` milliseconds.
pub fn read_sensors<B: Bus>(bus: &mut B, pause_ms: u64) -> (res: (
    Readings,
    Option<imu::ImuFrame>,
))
    ensures
        sensed(old(bus).log(), final(bus).log(), res.0, res.1, pause_ms),
        follows_script(*old(bus), *final(bus)),
{
    let encoders = read_axes(bus, pause_ms);
    let ghost sweep = bus.log();
    let frame = read_attitude(bus, pause_ms);
    assert(bus.log().take(bus.log().len() - 4) =~= sweep);
    (encoders, frame)
}

/// Reading all sensors moves no motor.
pub proof fn law_sensing_moves_nothing(
    before: Seq<BusEvent>,
    after: Seq<BusEvent>,
    encoders: Readings,
    imu: Option<imu::ImuFrame>,
    pause_ms: u64,
)
    requires
        sensed(before, after, encoders, imu, pause_ms),
    ensures
        before.is_prefix_of(after),
        motionless(after.skip(before.len() as int)),
{
    let sweep = after.take(after.len() - 4);
    let start = before.len() as int;
    let r0 = sweep_reply(sweep, start, pause_ms, 0);
    let r1 = sweep_reply(sweep, start, pause_ms, 1);
    let r2 = sweep_reply(sweep, start, pause_ms, 2);
    let r3 = sweep_reply(sweep, start, pause_ms, 3);
    let reply = attitude_reply(after);
    law_reading_moves_nothing(1, r0, pause_ms);
    law_reading_moves_nothing(2, r1, pause_ms);
    law_reading_moves_nothing(3, r2, pause_ms);
    law_reading_moves_nothing(4, r3, pause_ms);
    law_reading_moves_nothing(0, reply, pause_ms);
    let traffic = encoder_exchange(1, r0, pause_ms) + encoder_exchange(2, r1, pause_ms)
        + encoder_exchange(3, r2, pause_ms) + encoder_exchange(4, r3, pause_ms)
        + attitude_exchange(reply, pause_ms);
    assert(after =~= before + traffic);
    assert(after.skip(start) =~= traffic);
}

/// The requests of a reading of all sensors.
pub open spec fn sensing_requests() -> Seq<Seq<u8>> {
    seq![
        mks::request_frame(1, mks::FUNC_READ_ENCODER),
        mks::request_frame(2, mks::FUNC_READ_ENCODER),
        mks::request_frame(3, mks::FUNC_READ_ENCODER),
        mks::request_frame(4, mks::FUNC_READ_ENCODER),
        imu::CMD_READ_ACC_GYRO_MAG_ANGLE@,
    ]
}

/// The requests of a command to all four masses.
pub open spec fn drive_requests(dists: [Scalar; 4], spd: Scalar, acc: u8) -> Seq<Seq<u8>> {
    seq![
        mks::run_frame(mks::FUNC_RUN_ABS, 1, dists[0], spd, acc),
        mks::run_frame(mks::FUNC_RUN_REL, 2, dists[1], spd, acc),
        mks::run_frame(mks::FUNC_RUN_ABS, 3, dists[2], spd, acc),
        mks::run_frame(mks::FUNC_RUN_ABS, 4, dists[3], spd, acc),
    ]
}

/// What is written in the traffic of one exchange: one request to the driver or
/// to the sensor, or one request for each axis.
pub proof fn law_traffic_writes_requests(
    func: u8,
    addr: u8,
    reply: Seq<u8>,
    dists: [Scalar; 4],
    spd: Scalar,
    acc: u8,
    pause_ms: u64,
)
    ensures
        writes_in(encoder_exchange(addr, reply, pause_ms)) == seq![
            mks::request_frame(addr, mks::FUNC_READ_ENCODER),
        ],
        writes_in(attitude_exchange(reply, pause_ms)) == seq![imu::CMD_READ_ACC_GYRO_MAG_ANGLE@],
        writes_in(move_traffic(func, addr, dists[0], spd, acc, pause_ms)) == seq![
            mks::run_frame(func, addr, dists[0], spd, acc),
        ],
        writes_in(drive_traffic(dists, spd, acc, pause_ms)) == drive_requests(dists, spd, acc),
        writes_in(home_traffic(pause_ms)) == seq![
            mks::request_frame(1, mks::FUNC_HOME),
            mks::request_frame(2, mks::FUNC_HOME),
            mks::request_frame(3, mks::FUNC_HOME),
            mks::request_frame(4, mks::FUNC_HOME),
        ],
        writes_in(nudge_traffic(dists[0], spd, acc, pause_ms)) == seq![
            mks::run_frame(mks::FUNC_RUN_REL, 1, dists[0], spd, acc),
            mks::run_frame(mks::FUNC_RUN_REL, 2, dists[0], spd, acc),
            mks::run_frame(mks::FUNC_RUN_REL, 3, dists[0], spd, acc),
            mks::run_frame(mks::FUNC_RUN_REL, 4, dists[0], spd, acc),
        ],
{
    let exchange = encoder_exchange(addr, reply, 0);
    lemma_writes_of_three(exchange);
    if pause_ms > 0 {
        let whole = encoder_exchange(addr, reply, pause_ms);
        assert(whole.drop_last() =~= exchange);
    } else {
        assert(encoder_exchange(addr, reply, pause_ms) =~= exchange);
    }
    let asked = attitude_exchange(reply, pause_ms);
    assert(asked.drop_last() =~= seq![asked[0], asked[1], asked[2]]);
    lemma_writes_of_three(asked.drop_last());
    lemma_writes_of_three(move_traffic(func, addr, dists[0], spd, acc, pause_ms));
    lemma_writes_of_four(drive_traffic(dists, spd, acc, pause_ms));
    lemma_writes_of_four(home_traffic(pause_ms));
    lemma_writes_of_four(nudge_traffic(dists[0], spd, acc, pause_ms));
}

proof fn lemma_writes_of_three(log: Seq<BusEvent>)
    requires
        log.len() == 3,
        log[1] is Write,
        !(log[0] is Write),
        !(log[2] is Write),
    ensures
        writes_in(log) == seq![log[1]->bytes],
{
    reveal_with_fuel(writes_in, 4);
    assert(log.drop_last().drop_last().drop_last() =~= Seq::empty());
    assert(writes_in(log) =~= seq![log[1]->bytes]);
}

proof fn lemma_writes_of_four(log: Seq<BusEvent>)
    requires
        log.len() == 12,
        forall|k: int| 0 <= k < 12 ==> ((#[trigger] log[k]) is Write <==> k % 3 == 1),
    ensures
        writes_in(log) == seq![log[1]->bytes, log[4]->bytes, log[7]->bytes, log[10]->bytes],
{
    let (a, b) = (log.take(3), log.skip(3).take(3));
    let (c, d) = (log.skip(6).take(3), log.skip(9));
    lemma_writes_of_three(a);
    lemma_writes_of_three(b);
    lemma_writes_of_three(c);
    lemma_writes_of_three(d);
    assert(log =~= a + b + c + d);
    lemma_writes_add(a, b);
    lemma_writes_add(a + b, c);
    lemma_writes_add(a + b + c, d);
    assert(writes_in(log) =~= seq![log[1]->bytes, log[4]->bytes, log[7]->bytes, log[10]->bytes]);
}

/// A cycle that reads all sensors writes five requests for it.
pub proof fn law_sensing_writes_five_requests(
    before: Seq<BusEvent>,
    after: Seq<BusEvent>,
    encoders: Readings,
    imu: Option<imu::ImuFrame>,
    pause_ms: u64,
)
    requires
        sensed(before, after, encoders, imu, pause_ms),
    ensures
        writes_in(after.skip(before.len() as int)) == sensing_requests(),
{
    let sweep = after.take(after.len() - 4);
    let start = before.len() as int;
    let r0 = sweep_reply(sweep, start, pause_ms, 0);
    let r1 = sweep_reply(sweep, start, pause_ms, 1);
    let r2 = sweep_reply(sweep, start, pause_ms, 2);
    let r3 = sweep_reply(sweep, start, pause_ms, 3);
    let reply = attitude_reply(after);
    let (a, b) = (encoder_exchange(1, r0, pause_ms), encoder_exchange(2, r1, pause_ms));
    let (c, d) = (encoder_exchange(3, r2, pause_ms), encoder_exchange(4, r3, pause_ms));
    let e = attitude_exchange(reply, pause_ms);
    let zero = Scalar { bits: 0 };
    let some = [zero, zero, zero, zero];
    law_traffic_writes_requests(0, 1, r0, some, zero, 0, pause_ms);
    law_traffic_writes_requests(0, 2, r1, some, zero, 0, pause_ms);
    law_traffic_writes_requests(0, 3, r2, some, zero, 0, pause_ms);
    law_traffic_writes_requests(0, 4, r3, some, zero, 0, pause_ms);
    law_traffic_writes_requests(0, 0, reply, some, zero, 0, pause_ms);
    lemma_writes_add(a, b);
    lemma_writes_add(a + b, c);
    lemma_writes_add(a + b + c, d);
    lemma_writes_add(a + b + c + d, e);
    assert(after =~= before + (a + b + c + d + e));
    assert(after.skip(start) =~= a + b + c + d + e);
    assert(writes_in(after.skip(start)) =~= sensing_requests());
}

/// A cycle that reads all sensors and then drives the masses writes nine requests.
pub proof fn law_driving_writes_four_more(
    before: Seq<BusEvent>,
    between: Seq<BusEvent>,
    dists: [Scalar; 4],
    spd: Scalar,
    acc: u8,
    pause_ms: u64,
)
    requires
        before.is_prefix_of(between),
        writes_in(between.skip(before.len() as int)) == sensing_requests(),
    ensures
        ({
            let after = between + drive_traffic(dists, spd, acc, pause_ms);
            writes_in(after.skip(before.len() as int)) == sensing_requests() + drive_requests(
                dists,
                spd,
                acc,
            )
        }),
{
    let drive = drive_traffic(dists, spd, acc, pause_ms);
    let start = before.len() as int;
    law_traffic_writes_requests(0, 0, Seq::empty(), dists, spd, acc, pause_ms);
    lemma_writes_add(between.skip(start), drive);
    assert((between + drive).skip(start) =~= between.skip(start) + drive);
}

/// Reading the sensors asks every axis in turn: the axis at index `k` is sent a read
/// request, with its own address, and the reply that is read next gives its position.
/// The attitude sensor is asked last, and its reply gives the attitude.
pub proof fn law_sensors_are_asked_in_turn(
    before: Seq<BusEvent>,
    after: Seq<BusEvent>,
    encoders: Readings,
    imu: Option<imu::ImuFrame>,
    pause_ms: u64,
    k: int,
)
    requires
        sensed(before, after, encoders, imu, pause_ms),
        pause_ms > 0,
        0 <= k < 4,
    ensures
        ({
            let n = before.len() as int;
            let (asked, answered) = (after[n + 4 * k + 1], after[n + 4 * k + 2]);
            &&& after.len() == n + 20
            &&& before == after.take(n)
            &&& asked == (BusEvent::Write { bytes: mks::request_frame((k + 1) as u8, 0x30) })
            &&& answered is Read
            &&& encoders[k] == mks::encoder_reply((k + 1) as u8, answered->reply)
            &&& after[n + 17] == (BusEvent::Write { bytes: imu::CMD_READ_ACC_GYRO_MAG_ANGLE@ })
            &&& after[n + 18] is Read
            &&& imu == imu::combined_reply(after[n + 18]->reply)
        }),
{
    let n = before.len() as int;
    let sweep = after.take(after.len() - 4);
    let r0 = sweep_reply(sweep, n, pause_ms, 0);
    let r1 = sweep_reply(sweep, n, pause_ms, 1);
    let r2 = sweep_reply(sweep, n, pause_ms, 2);
    let r3 = sweep_reply(sweep, n, pause_ms, 3);
    let (a, b) = (encoder_exchange(1, r0, pause_ms), encoder_exchange(2, r1, pause_ms));
    let (c, d) = (encoder_exchange(3, r2, pause_ms), encoder_exchange(4, r3, pause_ms));
    assert(sweep == before + a + b + c + d);
    assert(a.len() == 4 && b.len() == 4 && c.len() == 4 && d.len() == 4);
    assert(after.take(n) =~= before) by {
        assert(sweep.take(n) =~= before);
    }
    assert(sweep[n + 1] == a[1] && sweep[n + 2] == a[2]);
    assert(sweep[n + 5] == b[1] && sweep[n + 6] == b[2]);
    assert(sweep[n + 9] == c[1] && sweep[n + 10] == c[2]);
    assert(sweep[n + 13] == d[1] && sweep[n + 14] == d[2]);
    assert(k == 0 || k == 1 || k == 2 || k == 3);
    assert(after[n + 4 * k + 1] == sweep[n + 4 * k + 1]);
    assert(after[n + 4 * k + 2] == sweep[n + 4 * k + 2]);
}

/// A sweep over the encoders asks every axis in turn: the axis at index `k` is sent a
/// read request, with its own address, and the reply that is read next gives its
/// position.
pub proof fn law_sweep_asks_in_turn(
    before: Seq<BusEvent>,
    after: Seq<BusEvent>,
    pause_ms: u64,
    k: int,
)
    requires
        swept(before, after, pause_ms),
        0 <= k < 4,
    ensures
        ({
            let n = before.len() as int;
            let step = if pause_ms > 0 {
                4int
            } else {
                3
            };
            let (asked, answered) = (after[n + step * k + 1], after[n + step * k + 2]);
            &&& after.len() == n + 4 * step
            &&& before == after.take(n)
            &&& asked == (BusEvent::Write { bytes: mks::request_frame((k + 1) as u8, 0x30) })
            &&& answered is Read
            &&& sweep_readings(after, n, pause_ms)[k] == mks::encoder_reply(
                (k + 1) as u8,
                answered->reply,
            )
        }),
{
    let n = before.len() as int;
    let r0 = sweep_reply(after, n, pause_ms, 0);
    let r1 = sweep_reply(after, n, pause_ms, 1);
    let r2 = sweep_reply(after, n, pause_ms, 2);
    let r3 = sweep_reply(after, n, pause_ms, 3);
    let (a, b) = (encoder_exchange(1, r0, pause_ms), encoder_exchange(2, r1, pause_ms));
    let (c, d) = (encoder_exchange(3, r2, pause_ms), encoder_exchange(4, r3, pause_ms));
    let step = if pause_ms > 0 {
        4int
    } else {
        3
    };
    assert(after == before + a + b + c + d);
    assert(a.len() == step && b.len() == step && c.len() == step && d.len() == step);
    assert(after.take(n) =~= before);
    assert(after[n + 1] == a[1] && after[n + 2] == a[2]);
    assert(after[n + step + 1] == b[1] && after[n + step + 2] == b[2]);
    assert(after[n + 2 * step + 1] == c[1] && after[n + 2 * step + 2] == c[2]);
    assert(after[n + 3 * step + 1] == d[1] && after[n + 3 * step + 2] == d[2]);
    assert(k == 0 || k == 1 || k == 2 || k == 3);
}

/// `event` asks the axis at index `k` for the move `func` over `dist_m`, at the speed
/// `spd` and the acceleration `acc`: the frame has the address `k + 1`, and its fields
/// read back as these.
pub open spec fn asks_for_move(
    event: BusEvent,
    func: u8,
    k: int,
    dist_m: Scalar,
    spd: Scalar,
    acc: u8,
) -> bool {
    let bytes = event->bytes;
    &&& event is Write
    &&& bytes.len() == 11
    &&& bytes[0] == 0xFA
    &&& bytes[1] == k + 1
    &&& bytes[2] == func
    &&& bytes[3] * 0x100 + bytes[4] == mks::speed_field(spd)
    &&& bytes[5] == acc
    &&& imu::twos_complement(
        mks::be32(bytes[6], bytes[7], bytes[8], bytes[9]),
        0x8000_0000,
    ) == mks::position_field(dist_m)
}

/// A command to the masses asks every axis in turn, after stale input has been
/// discarded: the second for a relative move, the others for an absolute one, the axis
/// at index `k` for the distance at index `k`.
pub proof fn law_drive_moves_each_axis(
    dists: [Scalar; 4],
    spd: Scalar,
    acc: u8,
    pause_ms: u64,
    k: int,
)
    requires
        0 <= k < 4,
    ensures
        ({
            let traffic = drive_traffic(dists, spd, acc, pause_ms);
            &&& traffic.len() == 12
            &&& traffic[3 * k] is Flush
            &&& asks_for_move(
                traffic[3 * k + 1],
                if k == 1 {
                    0xF4
                } else {
                    0xF5
                },
                k,
                dists[k],
                spd,
                acc,
            )
            &&& traffic[3 * k + 2] == (BusEvent::Pause { ms: pause_ms as nat })
        }),
{
    let func = if k == 1 {
        mks::FUNC_RUN_REL
    } else {
        mks::FUNC_RUN_ABS
    };
    mks::law_run_frame_reads_back(func, (k + 1) as u8, dists[k], spd, acc);
    assert(k == 0 || k == 1 || k == 2 || k == 3);
}

/// A nudge asks every axis in turn for the same relative move, and homing sends every
/// axis home, each after stale input has been discarded.
pub proof fn law_nudge_and_home_reach_each_axis(
    dist_m: Scalar,
    spd: Scalar,
    acc: u8,
    pause_ms: u64,
    k: int,
)
    requires
        0 <= k < 4,
    ensures
        ({
            let (nudge, home) = (nudge_traffic(dist_m, spd, acc, pause_ms), home_traffic(pause_ms));
            &&& nudge.len() == 12 && home.len() == 12
            &&& nudge[3 * k] is Flush && home[3 * k] is Flush
            &&& asks_for_move(nudge[3 * k + 1], 0xF4, k, dist_m, spd, acc)
            &&& home[3 * k + 1] == (BusEvent::Write {
                bytes: mks::request_frame((k + 1) as u8, 0x91),
            })
            &&& nudge[3 * k + 2] == (BusEvent::Pause { ms: pause_ms as nat })
            &&& home[3 * k + 2] == (BusEvent::Pause { ms: pause_ms as nat })
        }),
{
    mks::law_run_frame_reads_back(mks::FUNC_RUN_REL, (k + 1) as u8, dist_m, spd, acc);
    assert(k == 0 || k == 1 || k == 2 || k == 3);
}

/// A single move asks the one axis for the one move, after stale input has been
/// discarded.
pub proof fn law_move_reaches_its_axis(
    func: u8,
    addr: u8,
    dist_m: Scalar,
    spd: Scalar,
    acc: u8,
    pause_ms: u64,
)
    ensures
        ({
            let traffic = move_traffic(func, addr, dist_m, spd, acc, pause_ms);
            &&& traffic.len() == 3
            &&& traffic[0] is Flush
            &&& asks_for_move(traffic[1], func, addr - 1, dist_m, spd, acc)
            &&& traffic[2] == (BusEvent::Pause { ms: pause_ms as nat })
        }),
{
    mks::law_run_frame_reads_back(func, addr, dist_m, spd, acc);
}

} // verus!
