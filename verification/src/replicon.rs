//! Replicon's message store, and the entities that name its clients.

use std::collections::VecDeque;

use bevy_ecs::entity::Entity;
use bevy_replicon::prelude::ServerMessages;
use vstd::prelude::*;

verus! {

/// Replicon's store of the messages that the server has received and wants sent.
#[verifier::external_type_specification]
#[verifier::external_body]
pub struct ExServerMessages(ServerMessages);

/// The messages that wait in a store to be sent, oldest first: the bits of the client's entity,
/// the server channel's index and the bytes.
pub uninterp spec fn sent_messages(messages: ServerMessages) -> Seq<(u64, usize, Seq<u8>)>;

/// The messages that a store has received, for each client channel oldest first: the bits of the
/// client's entity and the bytes.
pub uninterp spec fn received_messages(messages: ServerMessages) -> Seq<Seq<(u64, Seq<u8>)>>;

/// A message that Replicon wants sent.
pub struct SentMessage {
    /// The bits of the client's entity.
    pub client: u64,
    /// The index of the server channel.
    pub channel: usize,
    /// The bytes.
    pub message: Vec<u8>,
}

impl View for SentMessage {
    type V = (u64, usize, Seq<u8>);

    open spec fn view(&self) -> (u64, usize, Seq<u8>) {
        (self.client, self.channel, self.message@)
    }
}

/// What a list of messages holds.
pub open spec fn sent_view(sent: Seq<SentMessage>) -> Seq<(u64, usize, Seq<u8>)> {
    sent.map_values(|message: SentMessage| message@)
}

/// A message that a client has sent.
pub struct ReceivedMessage {
    /// The client.
    pub client: ClientEntity,
    /// The bytes.
    pub message: Vec<u8>,
}

impl View for ReceivedMessage {
    type V = (u64, Seq<u8>);

    open spec fn view(&self) -> (u64, Seq<u8>) {
        (self.client.spec_bits(), self.message@)
    }
}

/// What a list of received messages holds.
pub open spec fn received_view(received: Seq<ReceivedMessage>) -> Seq<(u64, Seq<u8>)> {
    received.map_values(|message: ReceivedMessage| message@)
}

/// Calls `ServerMessages::drain_sent`: it hands out every message that waits to be sent, in the
/// order in which they were queued, and keeps none of them. What was received stays as it is.
#[verifier::external_body]
pub(crate) fn drain_sent(messages: &mut ServerMessages) -> (sent: VecDeque<SentMessage>)
    ensures
        sent_view(sent@) == sent_messages(*old(messages)),
        sent_messages(*final(messages)) == Seq::<(u64, usize, Seq<u8>)>::empty(),
        received_messages(*final(messages)) == received_messages(*old(messages)),
{
    messages
        .drain_sent()
        .map(|(client, channel, message)| SentMessage {
            client: client.to_bits(),
            channel,
            message: message.to_vec(),
        })
        .collect()
}

/// Calls `ServerMessages::insert_received`: it puts a message at the end of what one client
/// channel has received, and changes nothing else. It panics where the store has no such channel,
/// and `Entity::from_bits`, which it takes the client from, on bits that name no entity.
#[verifier::external_body]
pub(crate) fn insert_received(
    messages: &mut ServerMessages,
    client: u64,
    channel: usize,
    message: Vec<u8>,
)
    requires
        names_entity(client),
        channel < received_messages(*old(messages)).len(),
    ensures
        received_messages(*final(messages)) == received_messages(*old(messages)).update(
            channel as int,
            received_messages(*old(messages))[channel as int].push((client, message@)),
        ),
        sent_messages(*final(messages)) == sent_messages(*old(messages)),
{
    messages.insert_received(Entity::from_bits(client), channel, message)
}

/// Whether `bits` are the bits of an entity: the low half, which holds the entity's index, is
/// never zero, and the high half, which holds its generation, is free. These are the bits that
/// `Entity::from_bits` takes.
pub open spec fn names_entity(bits: u64) -> bool {
    bits % 0x1_0000_0000 != 0
}

/// The entity of a client, by its bits.
#[derive(Debug, Clone, Copy)]
pub struct ClientEntity {
    bits: u64,
}

impl ClientEntity {
    #[verifier::type_invariant]
    spec fn inv(self) -> bool {
        names_entity(self.bits)
    }

    /// The bits of the entity.
    pub closed spec fn spec_bits(self) -> u64 {
        self.bits
    }

    /// The client whose entity has these bits; `None` where no entity has them.
    pub fn from_bits(bits: u64) -> (client: Option<ClientEntity>)
        ensures
            client is Some <==> names_entity(bits),
            client is Some <==> bits % 0x1_0000_0000 != 0,
            client matches Some(entity) ==> entity.spec_bits() == bits,
    {
        if bits % 0x1_0000_0000 != 0 {
            Some(ClientEntity { bits })
        } else {
            None
        }
    }

    /// The bits of the entity.
    pub fn bits(&self) -> (bits: u64)
        ensures
            bits == self.spec_bits(),
            names_entity(bits),
            bits % 0x1_0000_0000 != 0,
    {
        proof {
            use_type_invariant(self);
        }
        self.bits
    }
}

/// A list of messages to send holds, position by position, the client, the channel and the bytes
/// of each of them.
pub proof fn law_sent_messages_are_seen_as_they_are(sent: Seq<SentMessage>)
    ensures
        sent_view(sent).len() == sent.len(),
        forall|at: int|
            0 <= at < sent.len() ==> #[trigger] sent_view(sent)[at] == (
                sent[at].client,
                sent[at].channel,
                sent[at].message@,
            ),
{
}

/// A list of received messages holds, position by position, the client and the bytes of each of
/// them.
pub proof fn law_received_messages_are_seen_as_they_are(received: Seq<ReceivedMessage>)
    ensures
        received_view(received).len() == received.len(),
        forall|at: int|
            0 <= at < received.len() ==> #[trigger] received_view(received)[at] == (
                received[at].client.spec_bits(),
                received[at].message@,
            ),
{
}

/// Bits name an entity if and only if their low half is not zero; the high half makes no
/// difference.
pub proof fn law_low_half_names_the_entity(low: u64, high: u64)
    requires
        low < 0x1_0000_0000,
        high < 0x1_0000_0000,
    ensures
        names_entity((high * 0x1_0000_0000 + low) as u64) <==> low != 0,
{
}

} // verus!
