//! The serial bus: one half-duplex port shared by the attitude sensor and the
//! four motor drivers.

use std::collections::VecDeque;
use vstd::prelude::*;

verus! {

/// One operation on a bus, as its log records it.
pub enum BusEvent {
    /// `bytes` were written.
    Write { bytes: Seq<u8> },
    /// Up to `wanted` bytes were asked for, and `reply` came.
    Read { wanted: nat, reply: Seq<u8> },
    /// Buffered input was discarded.
    Flush,
    /// The bus was left alone for `ms` milliseconds.
    Pause { ms: nat },
}

/// The reply to a read of up to `n` bytes when `pending` replies are queued: as
/// much of the first one as was asked for, or nothing.
pub open spec fn served(pending: Seq<Seq<u8>>, n: nat) -> Seq<u8> {
    if pending.len() == 0 {
        Seq::empty()
    } else if pending.first().len() <= n {
        pending.first()
    } else {
        pending.first().take(n as int)
    }
}

/// The queued replies that a read leaves.
pub open spec fn unserved(pending: Seq<Seq<u8>>) -> Seq<Seq<u8>> {
    if pending.len() == 0 {
        pending
    } else {
        pending.skip(1)
    }
}

/// A request and reply transport. Every operation appends one entry to the log.
///
/// The contracts of the methods bind an implementation only where its proofs are
/// made. For an implementation outside of this library they are claims about its
/// hardware that nothing here shows: in particular, one that leaves [`Bus::log`]
/// at its default has a log that never grows, and meets none of them.
pub trait Bus {
    /// All operations so far, oldest first.
    open spec fn log(&self) -> Seq<BusEvent> {
        Seq::empty()
    }

    /// Whether the replies are known beforehand: a read takes the next of the
    /// replies in [`Bus::pending`], and nothing else does.
    open spec fn scripted(&self) -> bool {
        false
    }

    /// What was written to a scripted bus, oldest first.
    open spec fn written(&self) -> Seq<Seq<u8>> {
        Seq::empty()
    }

    /// The replies that a scripted bus still has.
    open spec fn pending(&self) -> Seq<Seq<u8>> {
        Seq::empty()
    }

    /// Writes `bytes`.
    fn write_bytes(&mut self, bytes: &[u8])
        ensures
            final(self).log() == old(self).log().push(BusEvent::Write { bytes: bytes@ }),
            old(self).scripted() ==> {
                &&& final(self).scripted()
                &&& final(self).written() == old(self).written().push(bytes@)
                &&& final(self).pending() == old(self).pending()
            },
    ;

    /// Reads up to `n` bytes and returns early, with fewer or even none, once
    /// the read times out.
    fn read_up_to(&mut self, n: usize) -> (reply: Vec<u8>)
        ensures
            reply@.len() <= n,
            final(self).log() == old(self).log().push(
                BusEvent::Read { wanted: n as nat, reply: reply@ },
            ),
            old(self).scripted() ==> {
                &&& final(self).scripted()
                &&& reply@ == served(old(self).pending(), n as nat)
                &&& final(self).written() == old(self).written()
                &&& final(self).pending() == unserved(old(self).pending())
            },
    ;

    /// Discards buffered input.
    fn flush_input(&mut self)
        ensures
            final(self).log() == old(self).log().push(BusEvent::Flush),
            old(self).scripted() ==> {
                &&& final(self).scripted()
                &&& final(self).written() == old(self).written()
                &&& final(self).pending() == old(self).pending()
            },
    ;

    /// Leaves the bus alone for `ms` milliseconds, so that the devices can turn
    /// around.
    fn pause(&mut self, ms: u64)
        ensures
            final(self).log() == old(self).log().push(BusEvent::Pause { ms: ms as nat }),
            old(self).scripted() ==> {
                &&& final(self).scripted()
                &&& final(self).written() == old(self).written()
                &&& final(self).pending() == old(self).pending()
            },
    ;
}

/// What `log` says was written.
pub open spec fn writes_in(log: Seq<BusEvent>) -> Seq<Seq<u8>>
    decreases log.len(),
{
    if log.len() == 0 {
        Seq::empty()
    } else {
        match log.last() {
            BusEvent::Write { bytes } => writes_in(log.drop_last()).push(bytes),
            _ => writes_in(log.drop_last()),
        }
    }
}

/// The queued replies that are left of `pending` after what `log` says was read.
pub open spec fn left_after(pending: Seq<Seq<u8>>, log: Seq<BusEvent>) -> Seq<Seq<u8>>
    decreases log.len(),
{
    if log.len() == 0 {
        pending
    } else {
        match log.last() {
            BusEvent::Read { .. } => unserved(left_after(pending, log.drop_last())),
            _ => left_after(pending, log.drop_last()),
        }
    }
}

/// Every reply in `log` is the next one of the queued replies `pending`.
pub open spec fn serves(pending: Seq<Seq<u8>>, log: Seq<BusEvent>) -> bool
    decreases log.len(),
{
    log.len() > 0 ==> {
        &&& serves(pending, log.drop_last())
        &&& log.last() matches BusEvent::Read { wanted, reply } ==> reply == served(
            left_after(pending, log.drop_last()),
            wanted,
        )
    }
}

/// What has passed over a scripted bus: it has written down exactly the writes of
/// the new part of its log, and each read there took the next of its replies.
#[verifier::opaque]
pub open spec fn follows_script<B: Bus>(before: B, after: B) -> bool {
    before.scripted() ==> {
        let passed = after.log().skip(before.log().len() as int);
        &&& after.scripted()
        &&& before.log().is_prefix_of(after.log())
        &&& after.written() == before.written() + writes_in(passed)
        &&& after.pending() == left_after(before.pending(), passed)
        &&& serves(before.pending(), passed)
    }
}

proof fn lemma_script_adds(pending: Seq<Seq<u8>>, first: Seq<BusEvent>, second: Seq<BusEvent>)
    ensures
        writes_in(first + second) == writes_in(first) + writes_in(second),
        left_after(pending, first + second) == left_after(left_after(pending, first), second),
        serves(pending, first) && serves(left_after(pending, first), second) ==> serves(
            pending,
            first + second,
        ),
    decreases second.len(),
{
    let both = first + second;
    if second.len() == 0 {
        assert(both =~= first);
        assert(writes_in(first) + writes_in(second) =~= writes_in(first));
    } else {
        lemma_script_adds(pending, first, second.drop_last());
        assert(both.drop_last() =~= first + second.drop_last());
        assert(both.last() == second.last());
        if let BusEvent::Write { bytes } = second.last() {
            assert((writes_in(first) + writes_in(second.drop_last())).push(bytes) =~= writes_in(
                first,
            ) + writes_in(second));
        }
    }
}

/// The writes of two logs in a row.
pub proof fn lemma_writes_add(first: Seq<BusEvent>, second: Seq<BusEvent>)
    ensures
        writes_in(first + second) == writes_in(first) + writes_in(second),
{
    lemma_script_adds(Seq::empty(), first, second);
}

/// What follows the script in two parts follows it as a whole.
pub broadcast proof fn law_script_is_followed_on<B: Bus>(first: B, second: B, third: B)
    requires
        #[trigger] follows_script(first, second),
        #[trigger] follows_script(second, third),
    ensures
        follows_script(first, third),
{
    reveal(follows_script);
    if first.scripted() {
        let n = first.log().len() as int;
        let m = second.log().len() as int;
        let early = second.log().skip(n);
        let late = third.log().skip(m);
        lemma_script_adds(first.pending(), early, late);
        assert(third.log().skip(n) =~= early + late) by {
            assert(second.log() =~= third.log().take(m));
        }
        assert(first.log().is_prefix_of(third.log())) by {
            assert(first.log() =~= third.log().take(n));
        }
        assert(first.written() + writes_in(early) + writes_in(late) =~= first.written() + (
        writes_in(early) + writes_in(late)));
    }
}

/// A bus that nothing has passed over follows the script.
pub proof fn lemma_script_stands_still<B: Bus>(bus: B)
    ensures
        follows_script(bus, bus),
{
    reveal(follows_script);
    let nothing = bus.log().skip(bus.log().len() as int);
    assert(nothing =~= Seq::empty());
    assert(bus.written() + writes_in(nothing) =~= bus.written());
    assert(bus.log().is_prefix_of(bus.log())) by {
        assert(bus.log() =~= bus.log().take(bus.log().len() as int));
    }
}

/// One operation follows the script.
pub proof fn lemma_script_goes_on<B: Bus>(before: B, after: B, event: BusEvent)
    requires
        after.log() == before.log().push(event),
        before.scripted() ==> {
            &&& after.scripted()
            &&& after.written() == match event {
                BusEvent::Write { bytes } => before.written().push(bytes),
                _ => before.written(),
            }
            &&& after.pending() == match event {
                BusEvent::Read { .. } => unserved(before.pending()),
                _ => before.pending(),
            }
            &&& event matches BusEvent::Read { wanted, reply } ==> reply == served(
                before.pending(),
                wanted,
            )
        },
    ensures
        follows_script(before, after),
{
    reveal(follows_script);
    reveal_with_fuel(writes_in, 2);
    reveal_with_fuel(left_after, 2);
    reveal_with_fuel(serves, 2);
    let n = before.log().len() as int;
    let passed = after.log().skip(n);
    assert(passed =~= seq![event]);
    assert(passed.drop_last() =~= Seq::empty());
    assert(before.log().is_prefix_of(after.log())) by {
        assert(before.log() =~= after.log().take(n));
    }
    if let BusEvent::Write { bytes } = event {
        assert(writes_in(passed) =~= seq![bytes]);
        assert(before.written().push(bytes) =~= before.written() + writes_in(passed));
    } else {
        assert(before.written() =~= before.written() + writes_in(passed));
    }
}

/// The contents of each vector of `v`.
pub open spec fn contents(v: Seq<Vec<u8>>) -> Seq<Seq<u8>> {
    v.map_values(|bytes: Vec<u8>| bytes@)
}

/// A bus without hardware: it records every write and serves canned replies,
/// one for each read.
pub struct MockBus {
    pub writes: Vec<Vec<u8>>,
    pub replies: VecDeque<Vec<u8>>,
    /// The log of the bus; a proof-only value.
    pub events: Ghost<Seq<BusEvent>>,
}

impl Default for MockBus {
    /// A bus with no replies queued and nothing written.
    fn default() -> (bus: MockBus)
        ensures
            bus.writes@ == Seq::<Vec<u8>>::empty(),
            bus.replies@ == Seq::<Vec<u8>>::empty(),
            bus.log() == Seq::<BusEvent>::empty(),
            bus.written() == Seq::<Seq<u8>>::empty(),
            bus.pending() == Seq::<Seq<u8>>::empty(),
    {
        MockBus { writes: Vec::new(), replies: VecDeque::new(), events: Ghost(Seq::empty()) }
    }
}

impl MockBus {
    /// Queues `bytes` as the answer to a later read.
    pub fn push_reply(&mut self, bytes: Vec<u8>)
        ensures
            final(self).replies@ == old(self).replies@.push(bytes),
            final(self).writes == old(self).writes,
            final(self).log() == old(self).log(),
            final(self).written() == old(self).written(),
            final(self).pending() == old(self).pending().push(bytes@),
    {
        self.replies.push_back(bytes);
        assert(contents(self.replies@) =~= contents(old(self).replies@).push(bytes@));
    }
}

impl Bus for MockBus {
    open spec fn log(&self) -> Seq<BusEvent> {
        self.events@
    }

    open spec fn scripted(&self) -> bool {
        true
    }

    open spec fn written(&self) -> Seq<Seq<u8>> {
        contents(self.writes@)
    }

    open spec fn pending(&self) -> Seq<Seq<u8>> {
        contents(self.replies@)
    }

    fn write_bytes(&mut self, bytes: &[u8]) {
        let mut copy: Vec<u8> = Vec::new();
        copy.extend_from_slice(bytes);
        assert(copy@ =~= bytes@);
        self.writes.push(copy);
        assert(contents(self.writes@) =~= contents(old(self).writes@).push(bytes@));
        proof {
            self.events@ = self.events@.push(BusEvent::Write { bytes: bytes@ });
        }
    }

    fn read_up_to(&mut self, n: usize) -> (reply: Vec<u8>) {
        let mut reply: Vec<u8> = match self.replies.pop_front() {
            Some(bytes) => bytes,
            None => Vec::new(),
        };
        reply.truncate(n);
        assert(contents(self.replies@) =~= unserved(contents(old(self).replies@)));
        assert(reply@ =~= served(contents(old(self).replies@), n as nat));
        proof {
            self.events@ = self.events@.push(BusEvent::Read { wanted: n as nat, reply: reply@ });
        }
        reply
    }

    /// Does nothing: queued replies are answers to come, not stale input.
    fn flush_input(&mut self)
        ensures
            final(self).writes == old(self).writes,
            final(self).replies == old(self).replies,
    {
        proof {
            self.events@ = self.events@.push(BusEvent::Flush);
        }
    }

    /// Takes no time: there is no device to wait for.
    fn pause(&mut self, ms: u64)
        ensures
            final(self).writes == old(self).writes,
            final(self).replies == old(self).replies,
    {
        proof {
            self.events@ = self.events@.push(BusEvent::Pause { ms: ms as nat });
        }
    }
}

/// A read takes the first queued reply, cut off at the length that was asked for, and
/// leaves the others in their order; without a queued reply it takes nothing.
pub proof fn law_read_takes_first_reply(pending: Seq<Seq<u8>>, n: nat, i: int)
    ensures
        pending.len() == 0 ==> served(pending, n).len() == 0 && unserved(pending).len() == 0,
        pending.len() > 0 ==> {
            &&& served(pending, n).len() == if pending[0].len() < n {
                pending[0].len()
            } else {
                n
            }
            &&& 0 <= i < served(pending, n).len() ==> served(pending, n)[i] == pending[0][i]
            &&& unserved(pending).len() == pending.len() - 1
            &&& 0 <= i < pending.len() - 1 ==> unserved(pending)[i] == pending[i + 1]
        },
{
}

/// The writes of a log are those that were made, in order: a write adds its bytes at
/// the end, and nothing else adds any.
pub proof fn law_writes_stand_in_order(log: Seq<BusEvent>, event: BusEvent)
    ensures
        writes_in(Seq::empty()).len() == 0,
        event is Write ==> writes_in(log.push(event)) == writes_in(log).push(event->bytes),
        !(event is Write) ==> writes_in(log.push(event)) == writes_in(log),
{
    assert(log.push(event).drop_last() =~= log);
}

} // verus!
