//! The checkpoint header that the server puts in front of Replicon payloads.
//!
//! A header is the two bytes of [`CHECKPOINT_MAGIC`], the byte [`CHECKPOINT_VERSION`] and the
//! authoritative server tick as four bytes, most significant byte first. Prediction reads the
//! tick back to translate Replicon checkpoints into simulation time. That a header has two, one
//! and four bytes is given; the values of magic and version and the byte order are this library's
//! choice.

use vstd::prelude::*;

use crate::tick::Tick;

verus! {

/// The largest message that fits into one packet.
pub const MAX_PACKET_SIZE: usize = 1200;

/// The two bytes that open every checkpoint header, a choice of this library.
pub const CHECKPOINT_MAGIC: [u8; 2] = [0x4c, 0x59];

/// The layout version, the third byte of every checkpoint header, a choice of this library.
pub const CHECKPOINT_VERSION: u8 = 1;

/// The length of a checkpoint header.
pub const CHECKPOINT_HEADER_LEN: usize = 7;

/// The four bytes of a tick number, most significant first.
pub open spec fn tick_bytes(tick: Tick) -> Seq<u8> {
    seq![
        (tick.0 / 0x100_0000) as u8,
        (tick.0 / 0x1_0000 % 0x100) as u8,
        (tick.0 / 0x100 % 0x100) as u8,
        (tick.0 % 0x100) as u8,
    ]
}

/// The header that carries `tick`.
pub open spec fn checkpoint_header(tick: Tick) -> Seq<u8> {
    seq![CHECKPOINT_MAGIC[0], CHECKPOINT_MAGIC[1], CHECKPOINT_VERSION] + tick_bytes(tick)
}

/// `payload` behind the header that carries `tick`.
pub open spec fn wrapped_payload(tick: Tick, payload: Seq<u8>) -> Seq<u8> {
    checkpoint_header(tick) + payload
}

/// The number that the tick field of a wrapped message holds.
pub open spec fn checkpoint_tick_number(message: Seq<u8>) -> int {
    message[3] * 0x100_0000 + message[4] * 0x1_0000 + message[5] * 0x100 + message[6]
}

/// What follows the header of a wrapped message.
pub open spec fn checkpoint_payload(message: Seq<u8>) -> Seq<u8> {
    message.skip(CHECKPOINT_HEADER_LEN as int)
}

/// Prefixes `payload` with a checkpoint header for `tick`.
pub fn wrap_server_payload(tick: Tick, payload: Vec<u8>) -> (message: Vec<u8>)
    ensures
        message@ == wrapped_payload(tick, payload@),
        message@.len() == payload@.len() + 7,
        message@.skip(7) == payload@,
        message@.take(3) == seq![0x4cu8, 0x59u8, 1u8],
        message@[3] * 0x100_0000 + message@[4] * 0x1_0000 + message@[5] * 0x100 + message@[6]
            == tick.0,
{
    let ghost payload_bytes = payload@;
    let mut message: Vec<u8> = Vec::new();
    message.push(CHECKPOINT_MAGIC[0]);
    message.push(CHECKPOINT_MAGIC[1]);
    message.push(CHECKPOINT_VERSION);
    message.push((tick.0 / 0x100_0000) as u8);
    message.push((tick.0 / 0x1_0000 % 0x100) as u8);
    message.push((tick.0 / 0x100 % 0x100) as u8);
    message.push((tick.0 % 0x100) as u8);
    assert(message@ =~= checkpoint_header(tick));
    let mut payload = payload;
    message.append(&mut payload);
    proof {
        law_header_is_seven_bytes(tick, payload_bytes);
    }
    message
}

/// A wrapped message is seven bytes longer than its payload and ends in it, byte for byte. It
/// opens with the bytes 0x4c, 0x59 and 1, and the next four are the digits of the tick number in
/// base 256, the highest first.
pub proof fn law_header_is_seven_bytes(tick: Tick, payload: Seq<u8>)
    ensures
        wrapped_payload(tick, payload).len() == payload.len() + 7,
        wrapped_payload(tick, payload).skip(7) == payload,
        wrapped_payload(tick, payload).take(3) == seq![0x4cu8, 0x59u8, 1u8],
        forall|at: int|
            0 <= at < payload.len() ==> wrapped_payload(tick, payload)[at + 7]
                == #[trigger] payload[at],
        wrapped_payload(tick, payload)[3] * 0x100_0000 + wrapped_payload(tick, payload)[4]
            * 0x1_0000 + wrapped_payload(tick, payload)[5] * 0x100 + wrapped_payload(
            tick,
            payload,
        )[6] == tick.0,
{
    assert(wrapped_payload(tick, payload).skip(7) =~= payload);
    assert(wrapped_payload(tick, payload).take(3) =~= seq![0x4cu8, 0x59u8, 1u8]);
}

/// The header depends on the tick alone, and a payload that is split wraps as its first part does,
/// with the second part behind it.
pub proof fn law_header_ignores_the_payload(tick: Tick, first: Seq<u8>, second: Seq<u8>)
    ensures
        wrapped_payload(tick, first).take(7) == wrapped_payload(tick, second).take(7),
        wrapped_payload(tick, first + second) == wrapped_payload(tick, first) + second,
{
    assert(wrapped_payload(tick, first).take(7) =~= wrapped_payload(tick, second).take(7));
    assert(wrapped_payload(tick, first + second) =~= wrapped_payload(tick, first) + second);
}

/// A packet holds 1200 bytes, so a payload fits into one behind its header if and only if it has
/// at most 1193.
pub proof fn law_packet_budget(tick: Tick, payload: Seq<u8>)
    ensures
        MAX_PACKET_SIZE == 1200,
        CHECKPOINT_HEADER_LEN == 7,
        wrapped_payload(tick, payload).len() <= MAX_PACKET_SIZE <==> payload.len() <= 1193,
{
}

/// A wrapped message opens with the magic bytes and the version, and gives back the tick and the
/// payload that went into it.
pub proof fn law_wrapped_payload_reads_back(tick: Tick, payload: Seq<u8>)
    ensures
        wrapped_payload(tick, payload)[0] == CHECKPOINT_MAGIC[0],
        wrapped_payload(tick, payload)[1] == CHECKPOINT_MAGIC[1],
        wrapped_payload(tick, payload)[2] == CHECKPOINT_VERSION,
        checkpoint_tick_number(wrapped_payload(tick, payload)) == tick.0,
        checkpoint_payload(wrapped_payload(tick, payload)) == payload,
{
    assert(checkpoint_payload(wrapped_payload(tick, payload)) =~= payload);
}

/// Different ticks or payloads never give the same wrapped message.
pub proof fn law_wrapping_is_injective(
    tick_a: Tick,
    payload_a: Seq<u8>,
    tick_b: Tick,
    payload_b: Seq<u8>,
)
    requires
        wrapped_payload(tick_a, payload_a) == wrapped_payload(tick_b, payload_b),
    ensures
        tick_a == tick_b,
        payload_a == payload_b,
{
    law_wrapped_payload_reads_back(tick_a, payload_a);
    law_wrapped_payload_reads_back(tick_b, payload_b);
}

/// Wrapping adds exactly the header, so a wrapped payload stays within one packet if and only if
/// the payload leaves room for the header.
pub proof fn law_wrapping_costs_the_header(tick: Tick, payload: Seq<u8>)
    ensures
        wrapped_payload(tick, payload).len() == payload.len() + CHECKPOINT_HEADER_LEN,
        wrapped_payload(tick, payload).len() <= MAX_PACKET_SIZE <==> payload.len()
            <= MAX_PACKET_SIZE - CHECKPOINT_HEADER_LEN,
{
}

} // verus!
