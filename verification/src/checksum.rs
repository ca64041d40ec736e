//! Checksums of the two wire protocols on the bus: the additive checksum-8 of
//! the motor drivers and the CRC-16/MODBUS of the attitude sensors.

use vstd::prelude::*;

verus! {

/// The sum of `bytes` as a mathematical integer.
pub open spec fn byte_sum(bytes: Seq<u8>) -> int
    decreases bytes.len(),
{
    if bytes.len() == 0 {
        0
    } else {
        byte_sum(bytes.drop_last()) + bytes.last() as int
    }
}

/// The checksum-8 of `bytes`: their sum modulo 256.
pub open spec fn sum8_of(bytes: Seq<u8>) -> int {
    byte_sum(bytes) % 256
}

/// A frame is sealed when its last byte is the checksum-8 of all others.
pub open spec fn sealed(frame: Seq<u8>) -> bool {
    frame.len() > 0 && frame.last() as int == sum8_of(frame.drop_last())
}

/// One division step of the reflected CRC register by the polynomial `0xA001`.
pub open spec fn crc_shift(reg: u16) -> u16 {
    if reg & 1 != 0 {
        (reg >> 1) ^ 0xA001
    } else {
        reg >> 1
    }
}

/// `n` division steps.
pub open spec fn crc_shifts(reg: u16, n: nat) -> u16
    decreases n,
{
    if n == 0 {
        reg
    } else {
        crc_shift(crc_shifts(reg, (n - 1) as nat))
    }
}

/// The register after one more message byte, least significant bit first.
pub open spec fn crc_absorb(reg: u16, byte: u8) -> u16 {
    crc_shifts(reg ^ (byte as u16), 8)
}

/// The register after `bytes`, starting from `reg`.
pub open spec fn crc_from(reg: u16, bytes: Seq<u8>) -> u16
    decreases bytes.len(),
{
    if bytes.len() == 0 {
        reg
    } else {
        crc_absorb(crc_from(reg, bytes.drop_last()), bytes.last())
    }
}

/// CRC-16/MODBUS of `bytes`: the register starts at `0xFFFF` and is not
/// inverted at the end.
pub open spec fn crc16_of(bytes: Seq<u8>) -> u16 {
    crc_from(0xFFFF, bytes)
}

/// The two bytes of a CRC in the order in which they travel: low byte first.
pub open spec fn crc_wire(crc: u16) -> Seq<u8> {
    seq![(crc % 256) as u8, (crc / 256) as u8]
}

/// Checksum-8 of the motor drivers: the sum of all bytes, modulo 256.
pub fn sum8(bytes: &[u8]) -> (sum: u8)
    ensures
        sum as int == sum8_of(bytes@),
{
    let mut acc: u8 = 0;
    let mut i: usize = 0;
    assert(bytes@.take(0) =~= Seq::<u8>::empty());
    while i < bytes.len()
        invariant
            i <= bytes.len(),
            acc as int == sum8_of(bytes@.take(i as int)),
        decreases bytes.len() - i,
    {
        assert(bytes@.take(i + 1).drop_last() =~= bytes@.take(i as int));
        acc = acc.wrapping_add(bytes[i]);
        i = i + 1;
    }
    assert(bytes@.take(bytes@.len() as int) =~= bytes@);
    acc
}

/// CRC-16/MODBUS: reflected polynomial `0xA001`, initial value `0xFFFF`, bytes
/// fed least significant bit first.
pub fn crc16_modbus(bytes: &[u8]) -> (crc: u16)
    ensures
        crc == crc16_of(bytes@),
{
    let mut crc: u16 = 0xFFFF;
    let mut i: usize = 0;
    assert(bytes@.take(0) =~= Seq::<u8>::empty());
    while i < bytes.len()
        invariant
            i <= bytes.len(),
            crc == crc16_of(bytes@.take(i as int)),
        decreases bytes.len() - i,
    {
        let ghost before = crc;
        crc = crc ^ (bytes[i] as u16);
        let ghost mixed = crc;
        let mut k: u8 = 0;
        while k < 8
            invariant
                k <= 8,
                crc == crc_shifts(mixed, k as nat),
            decreases 8 - k,
        {
            if crc & 1 != 0 {
                crc = (crc >> 1) ^ 0xA001;
            } else {
                crc = crc >> 1;
            }
            k = k + 1;
        }
        assert(bytes@.take(i + 1).drop_last() =~= bytes@.take(i as int));
        i = i + 1;
    }
    assert(bytes@.take(bytes@.len() as int) =~= bytes@);
    crc
}

/// The sum of a concatenation is the sum of the parts.
pub proof fn lemma_byte_sum_concat(a: Seq<u8>, b: Seq<u8>)
    ensures
        byte_sum(a + b) == byte_sum(a) + byte_sum(b),
    decreases b.len(),
{
    if b.len() == 0 {
        assert(a + b =~= a);
    } else {
        assert((a + b).drop_last() =~= a + b.drop_last());
        lemma_byte_sum_concat(a, b.drop_last());
    }
}

/// The checksum-8 does not depend on the order of the bytes: exchanging two
/// neighbouring blocks leaves it unchanged.
pub proof fn law_sum8_ignores_order(a: Seq<u8>, b: Seq<u8>)
    ensures
        sum8_of(a + b) == sum8_of(b + a),
{
    lemma_byte_sum_concat(a, b);
    lemma_byte_sum_concat(b, a);
}

/// A sealed frame stops being sealed when any single byte of it is replaced by
/// a different one: the checksum-8 finds every error in one byte.
pub proof fn law_sum8_finds_single_byte_errors(frame: Seq<u8>, at: int, byte: u8)
    requires
        sealed(frame),
        0 <= at < frame.len(),
        byte != frame[at],
    ensures
        !sealed(frame.update(at, byte)),
{
    let damaged = frame.update(at, byte);
    let body = frame.drop_last();
    if at == frame.len() - 1 {
        assert(damaged.drop_last() =~= body);
    } else {
        assert(damaged.drop_last() =~= body.update(at, byte));
        let left = body.take(at);
        let right = body.skip(at + 1);
        assert(body =~= left + seq![body[at]] + right);
        assert(body.update(at, byte) =~= left + seq![byte] + right);
        lemma_byte_sum_concat(left + seq![body[at]], right);
        lemma_byte_sum_concat(left, seq![body[at]]);
        lemma_byte_sum_concat(left + seq![byte], right);
        lemma_byte_sum_concat(left, seq![byte]);
        assert(seq![body[at]].drop_last() =~= Seq::<u8>::empty());
        assert(seq![byte].drop_last() =~= Seq::<u8>::empty());
        assert(byte_sum(seq![body[at]]) == body[at] as int) by {
            reveal_with_fuel(byte_sum, 2);
        }
        assert(byte_sum(seq![byte]) == byte as int) by {
            reveal_with_fuel(byte_sum, 2);
        }
    }
}

/// Feeding a message in two parts is feeding their concatenation.
pub proof fn lemma_crc_from_concat(reg: u16, a: Seq<u8>, b: Seq<u8>)
    ensures
        crc_from(reg, a + b) == crc_from(crc_from(reg, a), b),
    decreases b.len(),
{
    if b.len() == 0 {
        assert(a + b =~= a);
    } else {
        assert((a + b).drop_last() =~= a + b.drop_last());
        lemma_crc_from_concat(reg, a, b.drop_last());
    }
}

proof fn lemma_eight_shifts(reg: u16)
    ensures
        crc_shifts(reg, 8) == crc_shift(
            crc_shift(crc_shift(crc_shift(crc_shift(crc_shift(crc_shift(crc_shift(reg))))))),
        ),
{
    reveal_with_fuel(crc_shifts, 9);
}

/// Absorbing a byte equal to the low half of the register shifts the high half
/// down, with nothing mixed in.
proof fn lemma_absorb_low_half(reg: u16)
    ensures
        crc_absorb(reg, (reg % 256) as u8) == reg / 256,
{
    let byte = (reg % 256) as u8;
    lemma_eight_shifts(reg ^ (byte as u16));
    let s0 = reg ^ (byte as u16);
    let s1 = crc_shift(s0);
    let s2 = crc_shift(s1);
    let s3 = crc_shift(s2);
    let s4 = crc_shift(s3);
    let s5 = crc_shift(s4);
    let s6 = crc_shift(s5);
    let s7 = crc_shift(s6);
    let low = byte as u16;
    assert(s0 == reg & 0xFF00) by (bit_vector)
        requires
            s0 == reg ^ low,
            low == reg % 256,
    ;
    assert(s0 & 1 == 0) by (bit_vector)
        requires
            s0 == reg & 0xFF00,
    ;
    assert((s0 >> 1) & 1 == 0 && (s0 >> 1 >> 1) & 1 == 0 && (s0 >> 1 >> 1 >> 1) & 1 == 0 && (s0 >> 1
        >> 1 >> 1 >> 1) & 1 == 0 && (s0 >> 1 >> 1 >> 1 >> 1 >> 1) & 1 == 0 && (s0 >> 1 >> 1 >> 1
        >> 1 >> 1 >> 1) & 1 == 0 && (s0 >> 1 >> 1 >> 1 >> 1 >> 1 >> 1 >> 1) & 1 == 0 && (s0 >> 1
        >> 1 >> 1 >> 1 >> 1 >> 1 >> 1 >> 1) == reg / 256) by (bit_vector)
        requires
            s0 == reg & 0xFF00,
    ;
}

/// Different registers stay different under a division step.
proof fn lemma_shift_is_injective(a: u16, b: u16)
    requires
        a != b,
    ensures
        crc_shift(a) != crc_shift(b),
{
    assert(a != b ==> (if a & 1 != 0 {
        (a >> 1) ^ 0xA001
    } else {
        a >> 1
    }) != (if b & 1 != 0 {
        (b >> 1) ^ 0xA001
    } else {
        b >> 1
    })) by (bit_vector);
}

proof fn lemma_shifts_are_injective(a: u16, b: u16, n: nat)
    requires
        a != b,
    ensures
        crc_shifts(a, n) != crc_shifts(b, n),
    decreases n,
{
    if n > 0 {
        lemma_shifts_are_injective(a, b, (n - 1) as nat);
        lemma_shift_is_injective(crc_shifts(a, (n - 1) as nat), crc_shifts(b, (n - 1) as nat));
    }
}

/// Different registers stay different when the same bytes follow.
proof fn lemma_crc_from_is_injective(a: u16, b: u16, bytes: Seq<u8>)
    requires
        a != b,
    ensures
        crc_from(a, bytes) != crc_from(b, bytes),
    decreases bytes.len(),
{
    if bytes.len() > 0 {
        lemma_crc_from_is_injective(a, b, bytes.drop_last());
        let ra = crc_from(a, bytes.drop_last());
        let rb = crc_from(b, bytes.drop_last());
        let w = bytes.last() as u16;
        assert(ra != rb ==> ra ^ w != rb ^ w) by (bit_vector);
        lemma_shifts_are_injective(ra ^ w, rb ^ w, 8);
    }
}

/// Two messages of the same length that differ in exactly one byte have
/// different CRCs.
pub proof fn law_crc16_finds_single_byte_errors(message: Seq<u8>, at: int, byte: u8)
    requires
        0 <= at < message.len(),
        byte != message[at],
    ensures
        crc16_of(message) != crc16_of(message.update(at, byte)),
{
    let damaged = message.update(at, byte);
    let head = message.take(at);
    let tail = message.skip(at + 1);
    let good = message[at];
    assert(message =~= head.push(good) + tail);
    assert(damaged =~= head.push(byte) + tail);
    lemma_crc_from_concat(0xFFFF, head.push(good), tail);
    lemma_crc_from_concat(0xFFFF, head.push(byte), tail);
    assert(head.push(good).drop_last() =~= head);
    assert(head.push(byte).drop_last() =~= head);
    let reg = crc_from(0xFFFF, head);
    let wg = good as u16;
    let wb = byte as u16;
    assert(wg != wb ==> reg ^ wg != reg ^ wb) by (bit_vector);
    lemma_shifts_are_injective(reg ^ wg, reg ^ wb, 8);
    lemma_crc_from_is_injective(crc_absorb(reg, good), crc_absorb(reg, byte), tail);
}

/// A message followed by its own CRC, low byte first, has CRC zero.
pub proof fn law_crc16_residue_is_zero(message: Seq<u8>)
    ensures
        crc16_of(message + crc_wire(crc16_of(message))) == 0,
{
    let crc = crc16_of(message);
    let low = (crc % 256) as u8;
    let high = (crc / 256) as u8;
    let wire = crc_wire(crc);
    lemma_crc_from_concat(0xFFFF, message, wire);
    assert(wire.drop_last() =~= seq![low]);
    assert(seq![low].drop_last() =~= Seq::<u8>::empty());
    assert(crc_from(crc, wire) == crc_absorb(crc_absorb(crc, low), high)) by {
        reveal_with_fuel(crc_from, 3);
    }
    lemma_absorb_low_half(crc);
    let rest: u16 = crc / 256;
    assert(rest % 256 == rest);
    lemma_absorb_low_half(rest);
    assert(rest / 256 == 0);
}

/// The sum grows by each byte, modulo 256, and seals a frame. A CRC travels as two bytes,
/// the low one first, that read back as it.
pub proof fn law_sums_grow_by_each_byte(bytes: Seq<u8>, byte: u8, crc: u16)
    ensures
        sum8_of(Seq::empty()) == 0,
        sum8_of(bytes.push(byte)) == (sum8_of(bytes) + byte) % 256,
        sealed(bytes.push(byte)) <==> byte == sum8_of(bytes),
        crc_wire(crc).len() == 2,
        crc_wire(crc)[0] + 256 * crc_wire(crc)[1] == crc,
{
    assert(bytes.push(byte).drop_last() =~= bytes);
}

} // verus!
