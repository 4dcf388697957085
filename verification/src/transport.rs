//! Per-client transports: the queues of messages that wait to be read or sent.
//!
//! The transports are this library's own model. It holds what the packet bridge reads and fills,
//! the receivers and senders of a link by channel, and says which messages a link has to split.
//! Priorities, acknowledgements and the splitting itself are left to the link. The transports of
//! the networking stack live in sibling crates of its workspace, which this library does not
//! depend on, so that it can be verified and used without them.

use std::collections::HashMap;
use std::collections::VecDeque;

use vstd::prelude::*;

use crate::channels::ChannelId;
use crate::channels::ChannelKind;
use crate::checkpoint::MAX_PACKET_SIZE;
use crate::replicon::ClientEntity;

verus! {

broadcast use vstd::std_specs::hash::group_hash_axioms;

/// Why a transport did not take a message.
#[derive(Debug, Clone, Copy, PartialEq, Eq, Structural)]
pub enum TransportError {
    /// The transport does not send on this channel.
    ChannelNotFound(ChannelKind),
}

/// The bytes of each message in a queue.
pub open spec fn queue_view(queue: Seq<Vec<u8>>) -> Seq<Seq<u8>> {
    queue.map_values(|message: Vec<u8>| message@)
}

/// A client's transport.
pub struct Transport {
    receivers: HashMap<ChannelId, VecDeque<Vec<u8>>>,
    senders: HashMap<ChannelKind, VecDeque<Vec<u8>>>,
}

impl Transport {
    /// The messages that have arrived and were not read yet, for each channel that the transport
    /// receives, oldest first.
    pub closed spec fn inbox(self) -> Map<ChannelId, Seq<Seq<u8>>> {
        self.receivers@.map_values(|queue: VecDeque<Vec<u8>>| queue_view(queue@))
    }

    /// The messages that wait to be sent, for each channel that the transport sends on, oldest
    /// first.
    pub closed spec fn outbox(self) -> Map<ChannelKind, Seq<Seq<u8>>> {
        self.senders@.map_values(|queue: VecDeque<Vec<u8>>| queue_view(queue@))
    }

    /// A transport without channels.
    pub fn new() -> (transport: Transport)
        ensures
            transport.inbox() == Map::<ChannelId, Seq<Seq<u8>>>::empty(),
            transport.outbox() == Map::<ChannelKind, Seq<Seq<u8>>>::empty(),
    {
        let transport = Transport { receivers: HashMap::new(), senders: HashMap::new() };
        assert(transport.inbox() =~= Map::<ChannelId, Seq<Seq<u8>>>::empty());
        assert(transport.outbox() =~= Map::<ChannelKind, Seq<Seq<u8>>>::empty());
        transport
    }

    /// Starts to receive a channel. A channel that is received already keeps what has arrived.
    pub fn add_receiver(&mut self, channel: ChannelId)
        ensures
            final(self).inbox() == (if old(self).inbox().contains_key(channel) {
                old(self).inbox()
            } else {
                old(self).inbox().insert(channel, Seq::empty())
            }),
            final(self).outbox() == old(self).outbox(),
    {
        let ghost before = *self;
        if !self.receivers.contains_key(&channel) {
            let queue: VecDeque<Vec<u8>> = VecDeque::new();
            assert(queue_view(queue@) =~= Seq::<Seq<u8>>::empty());
            self.receivers.insert(channel, queue);
            assert(self.inbox() =~= before.inbox().insert(channel, Seq::empty()));
        }
    }

    /// Starts to send on a channel. A channel that is sent on already keeps what is queued.
    pub fn add_sender(&mut self, channel: ChannelKind)
        ensures
            final(self).outbox() == (if old(self).outbox().contains_key(channel) {
                old(self).outbox()
            } else {
                old(self).outbox().insert(channel, Seq::empty())
            }),
            final(self).inbox() == old(self).inbox(),
    {
        let ghost before = *self;
        if !self.senders.contains_key(&channel) {
            let queue: VecDeque<Vec<u8>> = VecDeque::new();
            assert(queue_view(queue@) =~= Seq::<Seq<u8>>::empty());
            self.senders.insert(channel, queue);
            assert(self.outbox() =~= before.outbox().insert(channel, Seq::empty()));
        }
    }

    /// Takes in a message that has arrived on a channel, and says whether the transport receives
    /// the channel; a message on any other channel is dropped.
    pub fn deliver(&mut self, channel: ChannelId, message: Vec<u8>) -> (taken: bool)
        ensures
            taken == old(self).inbox().contains_key(channel),
            final(self).inbox() == (if taken {
                old(self).inbox().insert(channel, old(self).inbox()[channel].push(message@))
            } else {
                old(self).inbox()
            }),
            final(self).outbox() == old(self).outbox(),
    {
        let ghost before = *self;
        match self.receivers.remove(&channel) {
            None => {
                assert(self.inbox() =~= before.inbox());
                false
            },
            Some(queue) => {
                let mut queue: VecDeque<Vec<u8>> = queue;
                let ghost unread = queue@;
                let ghost bytes = message@;
                queue.push_back(message);
                self.receivers.insert(channel, queue);
                proof {
                    assert(queue_view(queue@) =~= queue_view(unread).push(bytes));
                    assert(self.inbox() =~= before.inbox().insert(
                        channel,
                        before.inbox()[channel].push(bytes),
                    ));
                }
                true
            },
        }
    }

    /// Whether a message has arrived on a channel and was not read yet.
    pub fn has_unread(&self, channel: ChannelId) -> (unread: bool)
        ensures
            unread <==> self.inbox().contains_key(channel) && self.inbox()[channel].len() > 0,
    {
        match self.receivers.get(&channel) {
            None => false,
            Some(queue) => queue.len() > 0,
        }
    }

    /// Takes the oldest unread message of a channel; `None` where there is none, or the transport
    /// does not receive the channel.
    pub fn read_message(&mut self, channel: ChannelId) -> (message: Option<Vec<u8>>)
        ensures
            message is Some <==> old(self).inbox().contains_key(channel)
                && old(self).inbox()[channel].len() > 0,
            message matches Some(bytes) ==> {
                &&& bytes@ == old(self).inbox()[channel].first()
                &&& final(self).inbox() == old(self).inbox().insert(
                    channel,
                    old(self).inbox()[channel].drop_first(),
                )
            },
            message is None ==> final(self).inbox() == old(self).inbox(),
            final(self).outbox() == old(self).outbox(),
    {
        let ghost before = *self;
        match self.receivers.remove(&channel) {
            None => {
                assert(self.inbox() =~= before.inbox());
                None
            },
            Some(queue) => {
                let mut queue: VecDeque<Vec<u8>> = queue;
                let ghost unread = queue@;
                let message = queue.pop_front();
                self.receivers.insert(channel, queue);
                proof {
                    assert(before.inbox()[channel] == queue_view(unread));
                    if unread.len() > 0 {
                        assert(queue_view(queue@) =~= queue_view(unread).drop_first());
                        assert(self.inbox() =~= before.inbox().insert(
                            channel,
                            before.inbox()[channel].drop_first(),
                        ));
                    } else {
                        assert(queue@ =~= unread);
                        assert(self.inbox() =~= before.inbox());
                    }
                }
                message
            },
        }
    }

    /// Queues a message on a channel. A transport that does not send on the channel refuses the
    /// message and stays as it is.
    pub fn send_mut_erased(&mut self, channel: ChannelKind, message: Vec<u8>) -> (result: Result<
        (),
        TransportError,
    >)
        ensures
            result is Ok <==> old(self).outbox().contains_key(channel),
            result is Ok ==> final(self).outbox() == old(self).outbox().insert(
                channel,
                old(self).outbox()[channel].push(message@),
            ),
            result matches Err(error) ==> {
                &&& error == TransportError::ChannelNotFound(channel)
                &&& final(self).outbox() == old(self).outbox()
            },
            final(self).inbox() == old(self).inbox(),
    {
        let ghost before = *self;
        match self.senders.remove(&channel) {
            None => {
                assert(self.outbox() =~= before.outbox());
                Err(TransportError::ChannelNotFound(channel))
            },
            Some(queue) => {
                let mut queue: VecDeque<Vec<u8>> = queue;
                let ghost unsent = queue@;
                let ghost bytes = message@;
                queue.push_back(message);
                self.senders.insert(channel, queue);
                proof {
                    assert(queue_view(queue@) =~= queue_view(unsent).push(bytes));
                    assert(self.outbox() =~= before.outbox().insert(
                        channel,
                        before.outbox()[channel].push(bytes),
                    ));
                }
                Ok(())
            },
        }
    }

    /// Takes everything that is queued on a channel, in order: first the messages that fit into
    /// one packet, then those that have to be split into fragments. `None` where the transport
    /// does not send on the channel.
    pub fn send_packet(&mut self, channel: ChannelKind) -> (packets: Option<
        (Vec<Vec<u8>>, Vec<Vec<u8>>),
    >)
        ensures
            packets is Some <==> old(self).outbox().contains_key(channel),
            packets matches Some((single, fragmented)) ==> {
                &&& queue_view(single@) == old(self).outbox()[channel].filter(
                    |message: Seq<u8>| fits_one_packet(message),
                )
                &&& queue_view(fragmented@) == old(self).outbox()[channel].filter(
                    |message: Seq<u8>| !fits_one_packet(message),
                )
                &&& single@.map_values(|message: Vec<u8>| message@) == old(
                    self,
                ).outbox()[channel].filter(|message: Seq<u8>| message.len() <= 1200)
                &&& fragmented@.map_values(|message: Vec<u8>| message@) == old(
                    self,
                ).outbox()[channel].filter(|message: Seq<u8>| message.len() > 1200)
                &&& final(self).outbox() == old(self).outbox().insert(channel, Seq::empty())
            },
            packets is None ==> final(self).outbox() == old(self).outbox(),
            final(self).inbox() == old(self).inbox(),
    {
        let ghost before = *self;
        match self.senders.remove(&channel) {
            None => {
                assert(self.outbox() =~= before.outbox());
                None
            },
            Some(queue) => {
                let rest: VecDeque<Vec<u8>> = VecDeque::new();
                assert(queue_view(rest@) =~= Seq::<Seq<u8>>::empty());
                self.senders.insert(channel, rest);
                assert(before.outbox()[channel] == queue_view(queue@));
                assert(self.outbox() =~= before.outbox().insert(channel, Seq::empty()));
                proof {
                    law_packets_hold_1200_bytes(queue_view(queue@));
                }
                Some(split_by_size(queue))
            },
        }
    }
}

/// An entity with a transport.
pub struct TransportLink {
    /// The entity.
    pub client: ClientEntity,
    /// Whether the entity is a client of a server.
    pub client_of: bool,
    /// Its transport.
    pub transport: Transport,
}

/// Whether a message needs no fragmentation.
pub open spec fn fits_one_packet(message: Seq<u8>) -> bool {
    message.len() <= MAX_PACKET_SIZE
}

/// Parts the messages that fit into one packet from those that do not.
fn split_by_size(queue: VecDeque<Vec<u8>>) -> (parts: (Vec<Vec<u8>>, Vec<Vec<u8>>))
    ensures
        queue_view(parts.0@) == queue_view(queue@).filter(
            |message: Seq<u8>| fits_one_packet(message),
        ),
        queue_view(parts.1@) == queue_view(queue@).filter(
            |message: Seq<u8>| !fits_one_packet(message),
        ),
{
    let ghost all = queue_view(queue@);
    let ghost fits = |message: Seq<u8>| fits_one_packet(message);
    let ghost exceeds = |message: Seq<u8>| !fits_one_packet(message);
    let mut rest: VecDeque<Vec<u8>> = queue;
    let mut single: Vec<Vec<u8>> = Vec::new();
    let mut fragmented: Vec<Vec<u8>> = Vec::new();
    let ghost mut done = Seq::<Seq<u8>>::empty();
    proof {
        reveal(Seq::filter);
        assert(all =~= done + queue_view(rest@));
        assert(queue_view(single@) =~= done.filter(fits));
        assert(queue_view(fragmented@) =~= done.filter(exceeds));
    }
    while rest.len() > 0
        invariant
            fits == (|message: Seq<u8>| fits_one_packet(message)),
            exceeds == (|message: Seq<u8>| !fits_one_packet(message)),
            all == done + queue_view(rest@),
            queue_view(single@) == done.filter(fits),
            queue_view(fragmented@) == done.filter(exceeds),
        decreases rest@.len(),
    {
        let ghost rest_before = rest@;
        let ghost single_before = single@;
        let ghost fragmented_before = fragmented@;
        let ghost done_before = done;
        if let Some(message) = rest.pop_front() {
            let ghost bytes = message@;
            proof {
                done = done_before.push(bytes);
                reveal(Seq::filter);
                assert(done.drop_last() =~= done_before);
                assert(queue_view(rest_before)[0] == bytes);
                assert(done + queue_view(rest@) =~= done_before + queue_view(rest_before));
            }
            if message.len() <= MAX_PACKET_SIZE {
                single.push(message);
                assert(queue_view(single@) =~= queue_view(single_before).push(bytes));
            } else {
                fragmented.push(message);
                assert(queue_view(fragmented@) =~= queue_view(fragmented_before).push(bytes));
            }
        }
    }
    assert(all =~= done);
    (single, fragmented)
}

/// A message leaves in one packet if and only if it has at most 1200 bytes, and messages of the
/// same kind leave in the order in which they were queued.
pub proof fn law_packets_hold_1200_bytes(queue: Seq<Seq<u8>>)
    ensures
        queue.filter(|message: Seq<u8>| fits_one_packet(message)) == queue.filter(
            |message: Seq<u8>| message.len() <= 1200,
        ),
        queue.filter(|message: Seq<u8>| !fits_one_packet(message)) == queue.filter(
            |message: Seq<u8>| message.len() > 1200,
        ),
    decreases queue.len(),
{
    reveal(Seq::filter);
    if queue.len() > 0 {
        law_packets_hold_1200_bytes(queue.drop_last());
    }
}

/// A queue is seen as the bytes of its messages, position by position.
pub proof fn law_queues_are_seen_as_they_are(queue: Seq<Vec<u8>>)
    ensures
        queue_view(queue).len() == queue.len(),
        forall|at: int|
            0 <= at < queue.len() ==> #[trigger] queue_view(queue)[at] == queue[at]@,
{
}

/// Every queued message leaves either in one packet or in fragments, and no other message does.
pub proof fn law_packets_part_the_queue(queue: Seq<Seq<u8>>)
    ensures
        queue.to_multiset() == queue.filter(
            |message: Seq<u8>| fits_one_packet(message),
        ).to_multiset().add(
            queue.filter(|message: Seq<u8>| !fits_one_packet(message)).to_multiset(),
        ),
    decreases queue.len(),
{
    broadcast use vstd::seq_lib::group_to_multiset_ensures;

    let fits = |message: Seq<u8>| fits_one_packet(message);
    let exceeds = |message: Seq<u8>| !fits_one_packet(message);
    reveal(Seq::filter);
    if queue.len() > 0 {
        let fewer = queue.drop_last();
        law_packets_part_the_queue(fewer);
        assert(queue =~= fewer.push(queue.last()));
    }
    assert(queue.to_multiset() =~= queue.filter(fits).to_multiset().add(
        queue.filter(exceeds).to_multiset(),
    ));
}

} // verus!
