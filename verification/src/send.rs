//! The sending half of the packet bridge: what Replicon wants sent goes from its message store to
//! the transports of the clients.

use std::collections::VecDeque;

use bevy_replicon::prelude::ServerMessages;
use vstd::prelude::*;

use crate::channels::ChannelId;
use crate::channels::ChannelKind;
use crate::channels::RepliconChannelMap;
use crate::checkpoint;
use crate::checkpoint::wrap_server_payload;
use crate::checkpoint::MAX_PACKET_SIZE;
use crate::replicon;
use crate::replicon::SentMessage;
use crate::tick::Tick;
use crate::transport;
use crate::transport::TransportError;
use crate::transport::TransportLink;

verus! {

/// What became of a message.
#[derive(Debug, Clone, Copy, PartialEq, Eq, Structural)]
pub enum SendOutcome {
    /// The client's transport has queued it.
    Queued,
    /// The client's transport refused it.
    Refused(TransportError),
    /// No client of the server has the entity that it was meant for.
    NoTransport,
}

/// What is worth knowing of a message that was handed to the transports.
#[derive(Debug, Clone, Copy, PartialEq, Eq, Structural)]
pub struct SendReport {
    /// The bits of the client's entity.
    pub client: u64,
    /// The index of the server channel.
    pub channel: usize,
    /// The length of the message as it was sent.
    pub len: usize,
    /// Whether the message carries a checkpoint header and exceeds the packet budget, so that the
    /// transport has to fragment it.
    pub exceeds_budget: bool,
    /// What became of it.
    pub outcome: SendOutcome,
}

/// A message names a server channel that does not exist.
#[derive(Debug, Clone, Copy, PartialEq, Eq, Structural)]
pub struct UnknownChannel(pub usize);

/// Whether messages on a server channel carry a checkpoint header. These are the two channels
/// that feed the confirmation history and the mutate ticks of the client.
pub open spec fn carries_checkpoint(channel: usize) -> bool {
    channel == 0 || channel == 1
}

/// The bytes that go out for a payload.
pub open spec fn outgoing(tick: Tick, channel: usize, payload: Seq<u8>) -> Seq<u8> {
    if carries_checkpoint(channel) {
        checkpoint::wrapped_payload(tick, payload)
    } else {
        payload
    }
}

/// Whether a link takes the messages for the client with these bits.
pub open spec fn serves(link: TransportLink, client: u64) -> bool {
    link.client_of && link.client.spec_bits() == client
}

/// The position of the first link that serves a client.
pub open spec fn link_of(links: Seq<TransportLink>, client: u64) -> Option<int>
    decreases links.len(),
{
    if links.len() == 0 {
        None
    } else {
        match link_of(links.drop_last(), client) {
            Some(at) => Some(at),
            None => if serves(links.last(), client) {
                Some(links.len() - 1)
            } else {
                None
            },
        }
    }
}

/// What becomes of a message for `client` on the channel `kind`.
pub open spec fn outcome_of(links: Seq<TransportLink>, client: u64, kind: ChannelKind) -> SendOutcome {
    match link_of(links, client) {
        None => SendOutcome::NoTransport,
        Some(at) => if links[at].transport.outbox().contains_key(kind) {
            SendOutcome::Queued
        } else {
            SendOutcome::Refused(TransportError::ChannelNotFound(kind))
        },
    }
}

/// The report on a message.
pub open spec fn report_of(
    channels: Seq<(ChannelKind, ChannelId)>,
    tick: Tick,
    links: Seq<TransportLink>,
    sent: (u64, usize, Seq<u8>),
) -> SendReport {
    let message = outgoing(tick, sent.1, sent.2);
    SendReport {
        client: sent.0,
        channel: sent.1,
        len: message.len() as usize,
        exceeds_budget: carries_checkpoint(sent.1) && message.len() > MAX_PACKET_SIZE,
        outcome: outcome_of(links, sent.0, channels[sent.1 as int].0),
    }
}

/// The bytes that the link at `at` gets on the channel `kind`, in the order in which Replicon
/// wanted them sent.
pub open spec fn queued_for(
    channels: Seq<(ChannelKind, ChannelId)>,
    tick: Tick,
    links: Seq<TransportLink>,
    sent: Seq<(u64, usize, Seq<u8>)>,
    at: int,
    kind: ChannelKind,
) -> Seq<Seq<u8>>
    decreases sent.len(),
{
    if sent.len() == 0 {
        Seq::empty()
    } else {
        let earlier = queued_for(channels, tick, links, sent.drop_last(), at, kind);
        let (client, channel, payload) = sent.last();
        if link_of(links, client) == Some(at) && channels[channel as int].0 == kind {
            earlier.push(outgoing(tick, channel, payload))
        } else {
            earlier
        }
    }
}

/// The outbox of the link at `at` after a batch of messages was handed to the transports: every
/// channel keeps what it held and gets its messages of the batch.
pub open spec fn outbox_after_send(
    channels: Seq<(ChannelKind, ChannelId)>,
    tick: Tick,
    links: Seq<TransportLink>,
    sent: Seq<(u64, usize, Seq<u8>)>,
    at: int,
) -> Map<ChannelKind, Seq<Seq<u8>>> {
    Map::new(
        |kind: ChannelKind| links[at].transport.outbox().contains_key(kind),
        |kind: ChannelKind|
            links[at].transport.outbox()[kind] + queued_for(channels, tick, links, sent, at, kind),
    )
}

/// How a send pass changes the links: only their outboxes change.
pub open spec fn links_after_send(
    channels: Seq<(ChannelKind, ChannelId)>,
    tick: Tick,
    before: Seq<TransportLink>,
    sent: Seq<(u64, usize, Seq<u8>)>,
    after: Seq<TransportLink>,
) -> bool {
    &&& same_clients(before, after)
    &&& forall|at: int|
        0 <= at < before.len() ==> {
            &&& (#[trigger] after[at]).transport.inbox() == before[at].transport.inbox()
            &&& after[at].transport.outbox() == outbox_after_send(channels, tick, before, sent, at)
        }
}

/// Whether two lists of links belong to the same entities.
pub open spec fn same_clients(a: Seq<TransportLink>, b: Seq<TransportLink>) -> bool {
    &&& a.len() == b.len()
    &&& forall|at: int|
        0 <= at < a.len() ==> {
            &&& (#[trigger] b[at]).client.spec_bits() == a[at].client.spec_bits()
            &&& b[at].client_of == a[at].client_of
        }
}

/// Whether every message names a server channel.
pub open spec fn channels_known(
    channels: Seq<(ChannelKind, ChannelId)>,
    sent: Seq<(u64, usize, Seq<u8>)>,
) -> bool {
    forall|at: int| 0 <= at < sent.len() ==> (#[trigger] sent[at]).1 < channels.len()
}

proof fn lemma_link_of_bounds(links: Seq<TransportLink>, client: u64)
    ensures
        link_of(links, client) matches Some(at) ==> 0 <= at < links.len() && serves(
            links[at],
            client,
        ),
    decreases links.len(),
{
    if links.len() > 0 {
        lemma_link_of_bounds(links.drop_last(), client);
    }
}

proof fn lemma_link_of_same_clients(a: Seq<TransportLink>, b: Seq<TransportLink>, client: u64)
    requires
        same_clients(a, b),
    ensures
        link_of(a, client) == link_of(b, client),
    decreases a.len(),
{
    if a.len() > 0 {
        assert(same_clients(a.drop_last(), b.drop_last()));
        assert(b.last() == b[b.len() - 1]);
        lemma_link_of_same_clients(a.drop_last(), b.drop_last(), client);
    }
}

/// Finds the first link that serves a client.
fn find_link(links: &Vec<TransportLink>, client: u64) -> (found: Option<usize>)
    ensures
        found is Some <==> link_of(links@, client) is Some,
        found matches Some(at) ==> {
            &&& link_of(links@, client) == Some(at as int)
            &&& at < links@.len()
        },
{
    let mut at: usize = 0;
    while at < links.len()
        invariant
            at <= links@.len(),
            link_of(links@.take(at as int), client) is None,
        decreases links@.len() - at,
    {
        proof {
            assert(links@.take(at + 1).drop_last() =~= links@.take(at as int));
            assert(links@.take(at + 1).last() == links@[at as int]);
        }
        if links[at].client_of && links[at].client.bits() == client {
            proof {
                lemma_link_of_prefix(links@, client, at + 1);
            }
            return Some(at);
        }
        at = at + 1;
    }
    assert(links@.take(links@.len() as int) =~= links@);
    None
}

proof fn lemma_link_of_prefix(links: Seq<TransportLink>, client: u64, count: int)
    requires
        0 <= count <= links.len(),
        link_of(links.take(count), client) is Some,
    ensures
        link_of(links, client) == link_of(links.take(count), client),
    decreases links.len(),
{
    if count < links.len() {
        assert(links.drop_last().take(count) =~= links.take(count));
        lemma_link_of_prefix(links.drop_last(), client, count);
    } else {
        assert(links.take(count) =~= links);
    }
}

proof fn lemma_queued_for_same_clients(
    channels: Seq<(ChannelKind, ChannelId)>,
    tick: Tick,
    a: Seq<TransportLink>,
    b: Seq<TransportLink>,
    sent: Seq<(u64, usize, Seq<u8>)>,
    at: int,
    kind: ChannelKind,
)
    requires
        same_clients(a, b),
    ensures
        queued_for(channels, tick, a, sent, at, kind) == queued_for(
            channels,
            tick,
            b,
            sent,
            at,
            kind,
        ),
    decreases sent.len(),
{
    if sent.len() > 0 {
        lemma_queued_for_same_clients(channels, tick, a, b, sent.drop_last(), at, kind);
        lemma_link_of_same_clients(a, b, sent.last().0);
    }
}

/// What a link gets on a channel for one batch after another is what it gets for both in one.
pub proof fn law_queued_messages_keep_their_order(
    channels: Seq<(ChannelKind, ChannelId)>,
    tick: Tick,
    links: Seq<TransportLink>,
    first: Seq<(u64, usize, Seq<u8>)>,
    second: Seq<(u64, usize, Seq<u8>)>,
    at: int,
    kind: ChannelKind,
)
    ensures
        queued_for(channels, tick, links, first + second, at, kind) == queued_for(
            channels,
            tick,
            links,
            first,
            at,
            kind,
        ) + queued_for(channels, tick, links, second, at, kind),
    decreases second.len(),
{
    if second.len() == 0 {
        assert(first + second =~= first);
    } else {
        assert((first + second).drop_last() =~= first + second.drop_last());
        assert((first + second).last() == second.last());
        law_queued_messages_keep_their_order(
            channels,
            tick,
            links,
            first,
            second.drop_last(),
            at,
            kind,
        );
    }
    assert(queued_for(channels, tick, links, first + second, at, kind) =~= queued_for(
        channels,
        tick,
        links,
        first,
        at,
        kind,
    ) + queued_for(channels, tick, links, second, at, kind));
}

/// Sending one batch after another at the same tick leaves the links as sending both in one
/// would, and a message of the second batch gets the report that it would have got in the first.
pub proof fn law_batches_compose(
    channels: Seq<(ChannelKind, ChannelId)>,
    tick: Tick,
    before: Seq<TransportLink>,
    first: Seq<(u64, usize, Seq<u8>)>,
    between: Seq<TransportLink>,
    second: Seq<(u64, usize, Seq<u8>)>,
    after: Seq<TransportLink>,
)
    requires
        links_after_send(channels, tick, before, first, between),
        links_after_send(channels, tick, between, second, after),
    ensures
        links_after_send(channels, tick, before, first + second, after),
        forall|sent: (u64, usize, Seq<u8>)| #[trigger]
            report_of(channels, tick, between, sent) == report_of(channels, tick, before, sent),
{
    assert forall|at: int| 0 <= at < before.len() implies {
        &&& (#[trigger] after[at]).transport.inbox() == before[at].transport.inbox()
        &&& after[at].transport.outbox() == outbox_after_send(
            channels,
            tick,
            before,
            first + second,
            at,
        )
        &&& after[at].client.spec_bits() == before[at].client.spec_bits()
        &&& after[at].client_of == before[at].client_of
    } by {
        let middle = between[at];
        let whole = outbox_after_send(channels, tick, before, first + second, at);
        assert forall|kind: ChannelKind| #[trigger] whole.contains_key(kind) implies whole[kind]
            == after[at].transport.outbox()[kind] by {
            law_queued_messages_keep_their_order(
                channels,
                tick,
                before,
                first,
                second,
                at,
                kind,
            );
            lemma_queued_for_same_clients(channels, tick, before, between, second, at, kind);
            let held = before[at].transport.outbox()[kind];
            let one = queued_for(channels, tick, before, first, at, kind);
            let two = queued_for(channels, tick, before, second, at, kind);
            assert(held + one + two =~= held + (one + two));
        }
        assert(after[at].transport.outbox() =~= whole);
    }
    assert forall|sent: (u64, usize, Seq<u8>)| #[trigger]
        report_of(channels, tick, between, sent) == report_of(channels, tick, before, sent) by {
        lemma_link_of_same_clients(before, between, sent.0);
        lemma_link_of_bounds(before, sent.0);
        match link_of(before, sent.0) {
            Some(at) => {
                assert(between[at].transport.outbox() == outbox_after_send(
                    channels,
                    tick,
                    before,
                    first,
                    at,
                ));
            },
            None => {},
        }
    }
}

/// Sending nothing changes nothing.
pub proof fn law_empty_batch_changes_nothing(
    channels: Seq<(ChannelKind, ChannelId)>,
    tick: Tick,
    links: Seq<TransportLink>,
)
    ensures
        links_after_send(channels, tick, links, Seq::empty(), links),
{
    assert forall|at: int| 0 <= at < links.len() implies (#[trigger] links[at]).transport.outbox()
        == outbox_after_send(channels, tick, links, Seq::empty(), at) by {
        let outbox = links[at].transport.outbox();
        let same = outbox_after_send(channels, tick, links, Seq::empty(), at);
        assert forall|kind: ChannelKind| outbox.contains_key(kind) implies #[trigger] same[kind]
            == outbox[kind] by {
            assert(outbox[kind] + Seq::<Seq<u8>>::empty() =~= outbox[kind]);
        }
        assert(same =~= outbox);
    }
}

/// Hands one message to the transport of its client.
fn send_message(
    channel_map: &RepliconChannelMap,
    tick: Tick,
    sent: SentMessage,
    links: &mut Vec<TransportLink>,
) -> (report: SendReport)
    requires
        sent.channel < channel_map.server_channels@.len(),
    ensures
        report == report_of(channel_map.server_channels@, tick, old(links)@, sent@),
        links_after_send(
            channel_map.server_channels@,
            tick,
            old(links)@,
            seq![sent@],
            final(links)@,
        ),
{
    let ghost channels = channel_map.server_channels@;
    let ghost before = links@;
    let ghost view = sent@;
    let client: u64 = sent.client;
    let channel: usize = sent.channel;
    let kind: ChannelKind = channel_map.server_channels[channel].0;
    let checkpoint: bool = channel == 0 || channel == 1;
    let message: Vec<u8> = if checkpoint {
        wrap_server_payload(tick, sent.message)
    } else {
        sent.message
    };
    let len: usize = message.len();
    let exceeds_budget: bool = checkpoint && len > MAX_PACKET_SIZE;
    let ghost bytes = message@;
    let found = find_link(links, client);
    let outcome = match found {
        None => SendOutcome::NoTransport,
        Some(at) => {
            let link = &mut links[at];
            match link.transport.send_mut_erased(kind, message) {
                Ok(()) => SendOutcome::Queued,
                Err(error) => SendOutcome::Refused(error),
            }
        },
    };
    proof {
        let one = seq![view];
        assert(one.drop_last() =~= Seq::empty());
        assert forall|at: int| 0 <= at < before.len() implies (
        #[trigger] links@[at]).transport.outbox() == outbox_after_send(
            channels,
            tick,
            before,
            one,
            at,
        ) by {
            let whole = outbox_after_send(channels, tick, before, one, at);
            assert forall|k: ChannelKind| #[trigger] whole.contains_key(k) implies whole[k]
                == links@[at].transport.outbox()[k] by {
                assert(queued_for(channels, tick, before, one.drop_last(), at, k) =~= Seq::empty());
                assert(before[at].transport.outbox()[k] + Seq::<Seq<u8>>::empty()
                    =~= before[at].transport.outbox()[k]);
                assert(before[at].transport.outbox()[k] + Seq::<Seq<u8>>::empty().push(bytes)
                    =~= before[at].transport.outbox()[k].push(bytes));
            }
            assert(links@[at].transport.outbox().dom() =~= before[at].transport.outbox().dom());
            assert(whole.dom() =~= before[at].transport.outbox().dom());
            assert(links@[at].transport.outbox() =~= whole);
        }
    }
    SendReport { client, channel, len, exceeds_budget, outcome }
}

/// Hands messages to the transports of their clients, in order, and reports on each of them.
/// Messages on the channels that feed the client's checkpoints go out behind a header with the
/// server's tick.
pub fn send_drained_packets(
    channel_map: &RepliconChannelMap,
    tick: Tick,
    sent: VecDeque<SentMessage>,
    links: &mut Vec<TransportLink>,
) -> (reports: Vec<SendReport>)
    requires
        channels_known(channel_map.server_channels@, replicon::sent_view(sent@)),
    ensures
        reports@ == replicon::sent_view(sent@).map_values(
            |message: (u64, usize, Seq<u8>)|
                report_of(channel_map.server_channels@, tick, old(links)@, message),
        ),
        links_after_send(
            channel_map.server_channels@,
            tick,
            old(links)@,
            replicon::sent_view(sent@),
            final(links)@,
        ),
{
    let ghost channels = channel_map.server_channels@;
    let ghost before = links@;
    let ghost all = replicon::sent_view(sent@);
    let ghost report = |message: (u64, usize, Seq<u8>)| report_of(channels, tick, before, message);
    let ghost mut done = Seq::<(u64, usize, Seq<u8>)>::empty();
    let mut rest: VecDeque<SentMessage> = sent;
    let mut reports: Vec<SendReport> = Vec::new();
    proof {
        law_empty_batch_changes_nothing(channels, tick, before);
        assert(done + replicon::sent_view(rest@) =~= all);
        assert(reports@ =~= done.map_values(report));
    }
    while rest.len() > 0
        invariant
            channels == channel_map.server_channels@,
            before == old(links)@,
            report == (|message: (u64, usize, Seq<u8>)|
                report_of(channels, tick, before, message)),
            all == done + replicon::sent_view(rest@),
            channels_known(channels, all),
            reports@ == done.map_values(report),
            links_after_send(channels, tick, before, done, links@),
        decreases rest@.len(),
    {
        let ghost queue = rest@;
        let ghost between = links@;
        let ghost reported = reports@;
        if let Some(message) = rest.pop_front() {
            let ghost view = message@;
            proof {
                assert(replicon::sent_view(queue)[0] == view);
                assert(all[done.len() as int] == view);
            }
            reports.push(send_message(channel_map, tick, message, links));
            proof {
                law_batches_compose(
                    channels,
                    tick,
                    before,
                    done,
                    between,
                    seq![view],
                    links@,
                );
                let longer = done.push(view);
                assert(longer =~= done + seq![view]);
                assert(longer + replicon::sent_view(rest@) =~= done + replicon::sent_view(queue));
                assert(reports@ =~= longer.map_values(report));
                done = longer;
            }
        }
    }
    assert(done =~= all);
    reports
}

/// Finds the first message that names no server channel.
fn find_unknown_channel(channel_map: &RepliconChannelMap, sent: &VecDeque<SentMessage>) -> (found:
    Option<UnknownChannel>)
    ensures
        found is None <==> channels_known(
            channel_map.server_channels@,
            replicon::sent_view(sent@),
        ),
        found matches Some(unknown) ==> is_first_unknown(
            channel_map.server_channels@,
            replicon::sent_view(sent@),
            unknown,
        ),
{
    let ghost view = replicon::sent_view(sent@);
    let mut at: usize = 0;
    while at < sent.len()
        invariant
            at <= sent@.len(),
            view == replicon::sent_view(sent@),
            forall|earlier: int|
                0 <= earlier < at ==> (#[trigger] view[earlier]).1
                    < channel_map.server_channels@.len(),
        decreases sent@.len() - at,
    {
        assert(view[at as int] == sent@[at as int]@);
        if sent[at].channel >= channel_map.server_channels.len() {
            return Some(UnknownChannel(sent[at].channel));
        }
        at = at + 1;
    }
    None
}

/// Whether the first message that names no server channel names this index.
pub open spec fn is_first_unknown(
    channels: Seq<(ChannelKind, ChannelId)>,
    sent: Seq<(u64, usize, Seq<u8>)>,
    unknown: UnknownChannel,
) -> bool {
    exists|at: int|
        {
            &&& 0 <= at < sent.len()
            &&& (#[trigger] sent[at]).1 == unknown.0
            &&& unknown.0 >= channels.len()
            &&& channels_known(channels, sent.take(at))
        }
}

/// Takes the messages that Replicon wants sent out of its store and hands them to the transports
/// of their clients. Every message has to name a server channel, whether or not its client has a
/// transport; [`checked_send_server_packets`] tests that.
pub fn send_server_packets(
    channel_map: &RepliconChannelMap,
    tick: Tick,
    messages: &mut ServerMessages,
    links: &mut Vec<TransportLink>,
) -> (reports: Vec<SendReport>)
    requires
        channels_known(
            channel_map.server_channels@,
            replicon::sent_messages(*old(messages)),
        ),
    ensures
        replicon::sent_messages(*final(messages)) == Seq::<(u64, usize, Seq<u8>)>::empty(),
        replicon::received_messages(*final(messages)) == replicon::received_messages(
            *old(messages),
        ),
        reports@ == replicon::sent_messages(*old(messages)).map_values(
            |message: (u64, usize, Seq<u8>)|
                report_of(channel_map.server_channels@, tick, old(links)@, message),
        ),
        links_after_send(
            channel_map.server_channels@,
            tick,
            old(links)@,
            replicon::sent_messages(*old(messages)),
            final(links)@,
        ),
{
    let sent = replicon::drain_sent(messages);
    send_drained_packets(channel_map, tick, sent, links)
}

/// Does what [`send_server_packets`] does, where every message names a server channel. Where one
/// of them does not, the messages are taken out of the store and none is handed on.
pub fn checked_send_server_packets(
    channel_map: &RepliconChannelMap,
    tick: Tick,
    messages: &mut ServerMessages,
    links: &mut Vec<TransportLink>,
) -> (result: Result<Vec<SendReport>, UnknownChannel>)
    ensures
        replicon::sent_messages(*final(messages)) == Seq::<(u64, usize, Seq<u8>)>::empty(),
        replicon::received_messages(*final(messages)) == replicon::received_messages(
            *old(messages),
        ),
        result is Ok <==> channels_known(
            channel_map.server_channels@,
            replicon::sent_messages(*old(messages)),
        ),
        result matches Ok(reports) ==> {
            &&& reports@ == replicon::sent_messages(*old(messages)).map_values(
                |message: (u64, usize, Seq<u8>)|
                    report_of(channel_map.server_channels@, tick, old(links)@, message),
            )
            &&& links_after_send(
                channel_map.server_channels@,
                tick,
                old(links)@,
                replicon::sent_messages(*old(messages)),
                final(links)@,
            )
        },
        result matches Err(unknown) ==> {
            &&& is_first_unknown(
                channel_map.server_channels@,
                replicon::sent_messages(*old(messages)),
                unknown,
            )
            &&& final(links)@ == old(links)@
        },
        result is Ok <==> forall|at: int|
            0 <= at < replicon::sent_messages(*old(messages)).len() ==> (
            #[trigger] replicon::sent_messages(*old(messages))[at]).1
                < channel_map.server_channels@.len(),
        result matches Err(unknown) ==> exists|at: int|
            {
                &&& 0 <= at < replicon::sent_messages(*old(messages)).len()
                &&& (#[trigger] replicon::sent_messages(*old(messages))[at]).1 == unknown.0
                &&& unknown.0 >= channel_map.server_channels@.len()
                &&& forall|earlier: int|
                    0 <= earlier < at ==> (#[trigger] replicon::sent_messages(
                        *old(messages),
                    )[earlier]).1 < channel_map.server_channels@.len()
            },
{
    let sent = replicon::drain_sent(messages);
    match find_unknown_channel(channel_map, &sent) {
        Some(unknown) => {
            proof {
                let all = replicon::sent_messages(*old(messages));
                let channels = channel_map.server_channels@;
                let at = choose|at: int|
                    {
                        &&& 0 <= at < all.len()
                        &&& (#[trigger] all[at]).1 == unknown.0
                        &&& unknown.0 >= channels.len()
                        &&& channels_known(channels, all.take(at))
                    };
                assert forall|earlier: int| 0 <= earlier < at implies (#[trigger] all[earlier]).1
                    < channels.len() by {
                    assert(all.take(at)[earlier] == all[earlier]);
                }
            }
            Err(unknown)
        },
        None => Ok(send_drained_packets(channel_map, tick, sent, links)),
    }
}

/// On the channels that carry checkpoints the bytes that go out give back the server's tick and
/// the payload; on all others they are the payload.
pub proof fn law_outgoing_reads_back(tick: Tick, channel: usize, payload: Seq<u8>)
    ensures
        carries_checkpoint(channel) ==> {
            &&& checkpoint::checkpoint_tick_number(outgoing(tick, channel, payload)) == tick.0
            &&& checkpoint::checkpoint_payload(outgoing(tick, channel, payload)) == payload
        },
        !carries_checkpoint(channel) ==> outgoing(tick, channel, payload) == payload,
{
    checkpoint::law_wrapped_payload_reads_back(tick, payload);
}

/// A report flags the packet budget if and only if the message carries a checkpoint header and
/// its payload leaves no room for the header. On a channel that carries checkpoints these are
/// exactly the messages that leave in fragments.
pub proof fn law_budget_flag(
    channels: Seq<(ChannelKind, ChannelId)>,
    tick: Tick,
    links: Seq<TransportLink>,
    sent: (u64, usize, Seq<u8>),
)
    ensures
        report_of(channels, tick, links, sent).exceeds_budget <==> carries_checkpoint(sent.1)
            && sent.2.len() + checkpoint::CHECKPOINT_HEADER_LEN > MAX_PACKET_SIZE,
        carries_checkpoint(sent.1) ==> (report_of(channels, tick, links, sent).exceeds_budget
            <==> !transport::fits_one_packet(outgoing(tick, sent.1, sent.2))),
{
    checkpoint::law_wrapping_costs_the_header(tick, sent.2);
}

/// A link that no message of a batch is for keeps its outbox.
pub proof fn law_other_links_are_untouched(
    channels: Seq<(ChannelKind, ChannelId)>,
    tick: Tick,
    before: Seq<TransportLink>,
    sent: Seq<(u64, usize, Seq<u8>)>,
    after: Seq<TransportLink>,
    at: int,
)
    requires
        links_after_send(channels, tick, before, sent, after),
        0 <= at < before.len(),
        forall|message: int|
            0 <= message < sent.len() ==> !serves(before[at], (#[trigger] sent[message]).0),
    ensures
        after[at].transport.outbox() == before[at].transport.outbox(),
{
    let outbox = before[at].transport.outbox();
    assert forall|kind: ChannelKind| outbox.contains_key(kind) implies #[trigger] outbox_after_send(
        channels,
        tick,
        before,
        sent,
        at,
    )[kind] == outbox[kind] by {
        lemma_nothing_queued(channels, tick, before, sent, at, kind);
        assert(outbox[kind] + Seq::<Seq<u8>>::empty() =~= outbox[kind]);
    }
    assert(outbox_after_send(channels, tick, before, sent, at) =~= outbox);
    assert(after[at].transport.outbox() == outbox);
}

proof fn lemma_nothing_queued(
    channels: Seq<(ChannelKind, ChannelId)>,
    tick: Tick,
    links: Seq<TransportLink>,
    sent: Seq<(u64, usize, Seq<u8>)>,
    at: int,
    kind: ChannelKind,
)
    requires
        0 <= at < links.len(),
        forall|message: int|
            0 <= message < sent.len() ==> !serves(links[at], (#[trigger] sent[message]).0),
    ensures
        queued_for(channels, tick, links, sent, at, kind) == Seq::<Seq<u8>>::empty(),
    decreases sent.len(),
{
    if sent.len() > 0 {
        assert(sent.last() == sent[sent.len() - 1]);
        lemma_link_of_bounds(links, sent.last().0);
        assert forall|message: int| 0 <= message < sent.drop_last().len() implies !serves(
            links[at],
            (#[trigger] sent.drop_last()[message]).0,
        ) by {
            assert(sent.drop_last()[message] == sent[message]);
        }
        lemma_nothing_queued(channels, tick, links, sent.drop_last(), at, kind);
    }
}

/// Every message that was reported as queued stands in the outbox of its client, on its channel,
/// as it went out.
pub proof fn law_queued_messages_are_in_the_outbox(
    channels: Seq<(ChannelKind, ChannelId)>,
    tick: Tick,
    before: Seq<TransportLink>,
    sent: Seq<(u64, usize, Seq<u8>)>,
    after: Seq<TransportLink>,
    message: int,
)
    requires
        links_after_send(channels, tick, before, sent, after),
        0 <= message < sent.len(),
        report_of(channels, tick, before, sent[message]).outcome == SendOutcome::Queued,
    ensures
        exists|at: int|
            {
                &&& 0 <= at < after.len()
                &&& serves(#[trigger] after[at], sent[message].0)
                &&& after[at].transport.outbox().contains_key(channels[sent[message].1 as int].0)
                &&& after[at].transport.outbox()[channels[sent[message].1 as int].0].contains(
                    outgoing(tick, sent[message].1, sent[message].2),
                )
            },
{
    let (client, channel, payload) = sent[message];
    let kind = channels[channel as int].0;
    let at = link_of(before, client)->Some_0;
    lemma_link_of_bounds(before, client);
    lemma_queued_contains(channels, tick, before, sent, at, message);
    let queued = queued_for(channels, tick, before, sent, at, kind);
    let held = before[at].transport.outbox()[kind];
    let position = queued.index_of(outgoing(tick, channel, payload));
    assert((held + queued)[held.len() + position] == outgoing(tick, channel, payload));
    assert(after[at].transport.outbox()[kind] == held + queued);
    assert(serves(after[at], client));
}

proof fn lemma_queued_contains(
    channels: Seq<(ChannelKind, ChannelId)>,
    tick: Tick,
    links: Seq<TransportLink>,
    sent: Seq<(u64, usize, Seq<u8>)>,
    at: int,
    message: int,
)
    requires
        0 <= message < sent.len(),
        link_of(links, sent[message].0) == Some(at),
    ensures
        queued_for(
            channels,
            tick,
            links,
            sent,
            at,
            channels[sent[message].1 as int].0,
        ).contains(outgoing(tick, sent[message].1, sent[message].2)),
    decreases sent.len(),
{
    let kind = channels[sent[message].1 as int].0;
    let bytes = outgoing(tick, sent[message].1, sent[message].2);
    let queued = queued_for(channels, tick, links, sent, at, kind);
    let earlier = queued_for(channels, tick, links, sent.drop_last(), at, kind);
    if message == sent.len() - 1 {
        assert(queued[queued.len() - 1] == bytes);
    } else {
        assert(sent.drop_last()[message] == sent[message]);
        lemma_queued_contains(channels, tick, links, sent.drop_last(), at, message);
        let position = earlier.index_of(bytes);
        assert(queued[position] == bytes);
    }
}

/// A batch of which no message is queued changes no outbox.
pub proof fn law_undelivered_messages_change_nothing(
    channels: Seq<(ChannelKind, ChannelId)>,
    tick: Tick,
    before: Seq<TransportLink>,
    sent: Seq<(u64, usize, Seq<u8>)>,
    after: Seq<TransportLink>,
    at: int,
)
    requires
        links_after_send(channels, tick, before, sent, after),
        0 <= at < before.len(),
        forall|message: int|
            0 <= message < sent.len() ==> report_of(
                channels,
                tick,
                before,
                #[trigger] sent[message],
            ).outcome != SendOutcome::Queued,
    ensures
        after[at].transport.outbox() == before[at].transport.outbox(),
{
    let outbox = before[at].transport.outbox();
    let whole = outbox_after_send(channels, tick, before, sent, at);
    assert forall|kind: ChannelKind| outbox.contains_key(kind) implies #[trigger] whole[kind]
        == outbox[kind] by {
        lemma_nothing_deliverable(channels, tick, before, sent, at, kind);
        assert(outbox[kind] + Seq::<Seq<u8>>::empty() =~= outbox[kind]);
    }
    assert(whole =~= outbox);
    assert(after[at].transport.outbox() == whole);
}

proof fn lemma_nothing_deliverable(
    channels: Seq<(ChannelKind, ChannelId)>,
    tick: Tick,
    links: Seq<TransportLink>,
    sent: Seq<(u64, usize, Seq<u8>)>,
    at: int,
    kind: ChannelKind,
)
    requires
        links[at].transport.outbox().contains_key(kind),
        forall|message: int|
            0 <= message < sent.len() ==> report_of(
                channels,
                tick,
                links,
                #[trigger] sent[message],
            ).outcome != SendOutcome::Queued,
    ensures
        queued_for(channels, tick, links, sent, at, kind) == Seq::<Seq<u8>>::empty(),
    decreases sent.len(),
{
    if sent.len() > 0 {
        assert(sent.last() == sent[sent.len() - 1]);
        assert forall|message: int| 0 <= message < sent.drop_last().len() implies report_of(
            channels,
            tick,
            links,
            #[trigger] sent.drop_last()[message],
        ).outcome != SendOutcome::Queued by {
            assert(sent.drop_last()[message] == sent[message]);
        }
        lemma_nothing_deliverable(channels, tick, links, sent.drop_last(), at, kind);
    }
}

/// The messages that are for one client, in order.
pub open spec fn messages_for(
    sent: Seq<(u64, usize, Seq<u8>)>,
    client: u64,
) -> Seq<(u64, usize, Seq<u8>)> {
    sent.filter(|message: (u64, usize, Seq<u8>)| message.0 == client)
}

/// Clients do not get in each other's way: what a client's outbox gains depends only on the
/// messages that are for this client.
pub proof fn law_clients_are_isolated(
    channels: Seq<(ChannelKind, ChannelId)>,
    tick: Tick,
    links: Seq<TransportLink>,
    a: Seq<(u64, usize, Seq<u8>)>,
    b: Seq<(u64, usize, Seq<u8>)>,
    client: u64,
    at: int,
    kind: ChannelKind,
)
    requires
        link_of(links, client) == Some(at),
        messages_for(a, client) == messages_for(b, client),
    ensures
        queued_for(channels, tick, links, a, at, kind) == queued_for(
            channels,
            tick,
            links,
            b,
            at,
            kind,
        ),
{
    lemma_queued_for_own_messages(channels, tick, links, a, client, at, kind);
    lemma_queued_for_own_messages(channels, tick, links, b, client, at, kind);
}

proof fn lemma_queued_for_own_messages(
    channels: Seq<(ChannelKind, ChannelId)>,
    tick: Tick,
    links: Seq<TransportLink>,
    sent: Seq<(u64, usize, Seq<u8>)>,
    client: u64,
    at: int,
    kind: ChannelKind,
)
    requires
        link_of(links, client) == Some(at),
    ensures
        queued_for(channels, tick, links, sent, at, kind) == queued_for(
            channels,
            tick,
            links,
            messages_for(sent, client),
            at,
            kind,
        ),
    decreases sent.len(),
{
    reveal(Seq::filter);
    if sent.len() > 0 {
        let fewer = sent.drop_last();
        lemma_queued_for_own_messages(channels, tick, links, fewer, client, at, kind);
        lemma_link_of_bounds(links, client);
        lemma_link_of_bounds(links, sent.last().0);
        if sent.last().0 == client {
            assert(messages_for(sent, client).drop_last() =~= messages_for(fewer, client));
            assert(messages_for(sent, client).last() == sent.last());
        }
    }
}

/// Where no two links belong to one entity, the link of a client is the one that serves it.
pub proof fn law_link_of_is_the_link_that_serves(
    links: Seq<TransportLink>,
    client: u64,
    at: int,
)
    requires
        0 <= at < links.len(),
        forall|a: int, b: int|
            0 <= a < b < links.len() ==> (#[trigger] links[a]).client.spec_bits() != (
            #[trigger] links[b]).client.spec_bits(),
    ensures
        link_of(links, client) == Some(at) <==> serves(links[at], client),
{
    lemma_link_of_bounds(links, client);
    if serves(links[at], client) {
        lemma_some_link_serves(links, client, at);
    }
}

proof fn lemma_some_link_serves(links: Seq<TransportLink>, client: u64, at: int)
    requires
        0 <= at < links.len(),
        serves(links[at], client),
    ensures
        link_of(links, client) is Some,
    decreases links.len(),
{
    if at < links.len() - 1 {
        assert(links.drop_last()[at] == links[at]);
        lemma_some_link_serves(links.drop_last(), client, at);
    }
}

/// What a send pass does to the links. A message goes to the first client of a server whose
/// entity it names. There every channel keeps what it held and gains the messages of this client
/// on the channel, in the order of the batch: those on the server channels 0 and 1 behind the
/// seven bytes of a header with the tick, and those on any other server channel as they are.
/// Nothing else changes.
pub proof fn law_outboxes_gain_their_messages(
    channels: Seq<(ChannelKind, ChannelId)>,
    tick: Tick,
    before: Seq<TransportLink>,
    sent: Seq<(u64, usize, Seq<u8>)>,
    after: Seq<TransportLink>,
    at: int,
    kind: ChannelKind,
)
    requires
        links_after_send(channels, tick, before, sent, after),
        0 <= at < before.len(),
    ensures
        after.len() == before.len(),
        after[at].client.spec_bits() == before[at].client.spec_bits(),
        after[at].client_of == before[at].client_of,
        after[at].transport.inbox() == before[at].transport.inbox(),
        after[at].transport.outbox().dom() == before[at].transport.outbox().dom(),
        before[at].client_of && (forall|earlier: int|
            0 <= earlier < at && (#[trigger] before[earlier]).client_of
                ==> before[earlier].client.spec_bits() != before[at].client.spec_bits())
            ==> before[at].transport.outbox().contains_key(kind) ==> after[at].transport.outbox()[kind]
                == before[at].transport.outbox()[kind] + sent.filter(
                |message: (u64, usize, Seq<u8>)|
                    message.0 == before[at].client.spec_bits() && channels[message.1 as int].0
                        == kind,
            ).map_values(
                |message: (u64, usize, Seq<u8>)|
                    if message.1 >= 2 {
                        message.2
                    } else {
                        seq![
                            0x4cu8,
                            0x59u8,
                            1u8,
                            (tick.0 / 0x100_0000) as u8,
                            (tick.0 / 0x1_0000 % 0x100) as u8,
                            (tick.0 / 0x100 % 0x100) as u8,
                            (tick.0 % 0x100) as u8,
                        ] + message.2
                    },
            ),
        !before[at].client_of || (exists|earlier: int|
            0 <= earlier < at && (#[trigger] before[earlier]).client_of
                && before[earlier].client.spec_bits() == before[at].client.spec_bits())
            ==> after[at].transport.outbox() == before[at].transport.outbox(),
{
    let client = before[at].client.spec_bits();
    let outbox = before[at].transport.outbox();
    assert(after[at].transport.outbox() == outbox_after_send(channels, tick, before, sent, at));
    assert(after[at].transport.outbox().dom() =~= outbox.dom());
    if before[at].client_of && (forall|earlier: int|
        0 <= earlier < at && (#[trigger] before[earlier]).client_of
            ==> before[earlier].client.spec_bits() != client) {
        lemma_queued_for_is_a_filter(channels, tick, before, sent, at, kind);
    }
    if !before[at].client_of || (exists|earlier: int|
        0 <= earlier < at && (#[trigger] before[earlier]).client_of
            && before[earlier].client.spec_bits() == client) {
        assert forall|kind: ChannelKind| outbox.contains_key(
            kind,
        ) implies #[trigger] outbox_after_send(channels, tick, before, sent, at)[kind]
            == outbox[kind] by {
            lemma_nothing_queued_behind(channels, tick, before, sent, at, kind);
            assert(outbox[kind] + Seq::<Seq<u8>>::empty() =~= outbox[kind]);
        }
        assert(outbox_after_send(channels, tick, before, sent, at) =~= outbox);
    }
}

proof fn lemma_link_of_is_the_first(links: Seq<TransportLink>, client: u64, at: int)
    requires
        0 <= at < links.len(),
    ensures
        link_of(links, client) == Some(at) <==> serves(links[at], client) && forall|earlier: int|
            0 <= earlier < at ==> !serves(#[trigger] links[earlier], client),
    decreases links.len(),
{
    let fewer = links.drop_last();
    lemma_link_of_bounds(fewer, client);
    assert forall|earlier: int| 0 <= earlier < fewer.len() implies #[trigger] fewer[earlier]
        == links[earlier] by {}
    if at < fewer.len() {
        lemma_link_of_is_the_first(fewer, client, at);
        assert(forall|earlier: int|
            0 <= earlier < at ==> #[trigger] fewer[earlier] == links[earlier]);
        if forall|earlier: int| 0 <= earlier < at ==> !serves(#[trigger] links[earlier], client) {
            assert forall|earlier: int| 0 <= earlier < at implies !serves(
                #[trigger] fewer[earlier],
                client,
            ) by {
                assert(fewer[earlier] == links[earlier]);
            }
        }
        if forall|earlier: int| 0 <= earlier < at ==> !serves(#[trigger] fewer[earlier], client) {
            assert forall|earlier: int| 0 <= earlier < at implies !serves(
                #[trigger] links[earlier],
                client,
            ) by {
                assert(fewer[earlier] == links[earlier]);
            }
        }
    } else {
        match link_of(fewer, client) {
            Some(found) => {
                assert(serves(links[found], client));
            },
            None => {
                assert forall|earlier: int| 0 <= earlier < at implies !serves(
                    #[trigger] links[earlier],
                    client,
                ) by {
                    if serves(links[earlier], client) {
                        assert(fewer[earlier] == links[earlier]);
                        lemma_some_link_serves(fewer, client, earlier);
                    }
                }
            },
        }
    }
}

proof fn lemma_outgoing(tick: Tick, channel: usize, payload: Seq<u8>)
    ensures
        outgoing(tick, channel, payload) == (if channel >= 2 {
            payload
        } else {
            seq![
                0x4cu8,
                0x59u8,
                1u8,
                (tick.0 / 0x100_0000) as u8,
                (tick.0 / 0x1_0000 % 0x100) as u8,
                (tick.0 / 0x100 % 0x100) as u8,
                (tick.0 % 0x100) as u8,
            ] + payload
        }),
{
    assert(checkpoint::checkpoint_header(tick) =~= seq![
        0x4cu8,
        0x59u8,
        1u8,
        (tick.0 / 0x100_0000) as u8,
        (tick.0 / 0x1_0000 % 0x100) as u8,
        (tick.0 / 0x100 % 0x100) as u8,
        (tick.0 % 0x100) as u8,
    ]);
}

proof fn lemma_queued_for_is_a_filter(
    channels: Seq<(ChannelKind, ChannelId)>,
    tick: Tick,
    before: Seq<TransportLink>,
    sent: Seq<(u64, usize, Seq<u8>)>,
    at: int,
    kind: ChannelKind,
)
    requires
        0 <= at < before.len(),
        before[at].client_of,
        forall|earlier: int|
            0 <= earlier < at && (#[trigger] before[earlier]).client_of
                ==> before[earlier].client.spec_bits() != before[at].client.spec_bits(),
    ensures
        queued_for(channels, tick, before, sent, at, kind) == (sent.filter(
            |message: (u64, usize, Seq<u8>)|
                message.0 == before[at].client.spec_bits() && channels[message.1 as int].0
                    == kind,
        ).map_values(
            |message: (u64, usize, Seq<u8>)|
                if message.1 >= 2 {
                    message.2
                } else {
                    seq![
                        0x4cu8,
                        0x59u8,
                        1u8,
                        (tick.0 / 0x100_0000) as u8,
                        (tick.0 / 0x1_0000 % 0x100) as u8,
                        (tick.0 / 0x100 % 0x100) as u8,
                        (tick.0 % 0x100) as u8,
                    ] + message.2
                },
        )),
    decreases sent.len(),
{
    reveal(Seq::filter);
    let wanted = |message: (u64, usize, Seq<u8>)|
        message.0 == before[at].client.spec_bits() && channels[message.1 as int].0 == kind;
    let bytes = |message: (u64, usize, Seq<u8>)|
        if message.1 >= 2 {
            message.2
        } else {
            seq![
                0x4cu8,
                0x59u8,
                1u8,
                (tick.0 / 0x100_0000) as u8,
                (tick.0 / 0x1_0000 % 0x100) as u8,
                (tick.0 / 0x100 % 0x100) as u8,
                (tick.0 % 0x100) as u8,
            ] + message.2
        };
    if sent.len() > 0 {
        let fewer = sent.drop_last();
        lemma_queued_for_is_a_filter(channels, tick, before, fewer, at, kind);
        let (client, channel, payload) = sent.last();
        lemma_link_of_is_the_first(before, client, at);
        lemma_outgoing(tick, channel, payload);
        assert(link_of(before, client) == Some(at) <==> client
            == before[at].client.spec_bits());
        if wanted(sent.last()) {
            assert(sent.filter(wanted) =~= fewer.filter(wanted).push(sent.last()));
            assert(sent.filter(wanted).map_values(bytes) =~= fewer.filter(wanted).map_values(
                bytes,
            ).push(bytes(sent.last())));
        } else {
            assert(sent.filter(wanted) =~= fewer.filter(wanted));
        }
    } else {
        assert(sent.filter(wanted).map_values(bytes) =~= Seq::empty());
    }
}

proof fn lemma_nothing_queued_behind(
    channels: Seq<(ChannelKind, ChannelId)>,
    tick: Tick,
    links: Seq<TransportLink>,
    sent: Seq<(u64, usize, Seq<u8>)>,
    at: int,
    kind: ChannelKind,
)
    requires
        0 <= at < links.len(),
        !links[at].client_of || (exists|earlier: int|
            0 <= earlier < at && (#[trigger] links[earlier]).client_of
                && links[earlier].client.spec_bits() == links[at].client.spec_bits()),
    ensures
        queued_for(channels, tick, links, sent, at, kind) == Seq::<Seq<u8>>::empty(),
    decreases sent.len(),
{
    if sent.len() > 0 {
        lemma_nothing_queued_behind(channels, tick, links, sent.drop_last(), at, kind);
        lemma_link_of_is_the_first(links, sent.last().0, at);
    }
}

/// One message on a server channel. Its client's outbox gains exactly one message on the channel.
/// From the server channel 2 on this is the payload itself; on the channels 0 and 1 it is the
/// payload behind seven bytes that depend on the tick alone and hold its number.
pub proof fn law_only_channels_0_and_1_carry_a_header(
    channels: Seq<(ChannelKind, ChannelId)>,
    tick: Tick,
    before: Seq<TransportLink>,
    client: u64,
    channel: usize,
    payload: Seq<u8>,
    after: Seq<TransportLink>,
    at: int,
)
    requires
        links_after_send(channels, tick, before, seq![(client, channel, payload)], after),
        0 <= at < before.len(),
        before[at].client_of,
        before[at].client.spec_bits() == client,
        forall|earlier: int|
            0 <= earlier < at && (#[trigger] before[earlier]).client_of
                ==> before[earlier].client.spec_bits() != client,
        before[at].transport.outbox().contains_key(channels[channel as int].0),
    ensures
        after[at].transport.outbox()[channels[channel as int].0].len()
            == before[at].transport.outbox()[channels[channel as int].0].len() + 1,
        after[at].transport.outbox()[channels[channel as int].0].drop_last()
            == before[at].transport.outbox()[channels[channel as int].0],
        channel >= 2 ==> after[at].transport.outbox()[channels[channel as int].0].last() == payload,
        channel < 2 ==> {
            let message = after[at].transport.outbox()[channels[channel as int].0].last();
            &&& message.len() == payload.len() + 7
            &&& message.skip(7) == payload
            &&& message[3] * 0x100_0000 + message[4] * 0x1_0000 + message[5] * 0x100 + message[6]
                == tick.0
            &&& message.take(3) == seq![0x4cu8, 0x59u8, 1u8]
        },
{
    let kind = channels[channel as int].0;
    let one = seq![(client, channel, payload)];
    let held = before[at].transport.outbox()[kind];
    lemma_link_of_is_the_first(before, client, at);
    assert(after[at].transport.outbox() == outbox_after_send(channels, tick, before, one, at));
    assert(one.drop_last() =~= Seq::empty());
    assert(queued_for(channels, tick, before, one.drop_last(), at, kind) =~= Seq::empty());
    let bytes = outgoing(tick, channel, payload);
    assert(held + queued_for(channels, tick, before, one, at, kind) =~= held.push(bytes));
    assert(held.push(bytes).drop_last() =~= held);
    checkpoint::law_header_is_seven_bytes(tick, payload);
}

/// A report names the message's client and channel and says how long the message was as it went
/// out: seven bytes longer than its payload on the server channels 0 and 1, which flag it where
/// that is over 1200, and as long as its payload on any other.
pub proof fn law_reports_measure_the_message(
    channels: Seq<(ChannelKind, ChannelId)>,
    tick: Tick,
    links: Seq<TransportLink>,
    client: u64,
    channel: usize,
    payload: Seq<u8>,
)
    requires
        payload.len() + 7 <= usize::MAX,
    ensures
        report_of(channels, tick, links, (client, channel, payload)).client == client,
        report_of(channels, tick, links, (client, channel, payload)).channel == channel,
        channel < 2 ==> report_of(channels, tick, links, (client, channel, payload)).len
            == payload.len() + 7,
        channel >= 2 ==> report_of(channels, tick, links, (client, channel, payload)).len
            == payload.len(),
        report_of(channels, tick, links, (client, channel, payload)).exceeds_budget <==> channel < 2
            && payload.len() > 1193,
{
    checkpoint::law_header_is_seven_bytes(tick, payload);
}

/// A report says what became of the message. No transport was found if and only if no client of a
/// server has the entity; otherwise the first one that has it queued the message, if it sends on
/// the channel, and refused it for want of the channel, if it does not.
pub proof fn law_reports_tell_the_outcome(
    channels: Seq<(ChannelKind, ChannelId)>,
    tick: Tick,
    links: Seq<TransportLink>,
    client: u64,
    channel: usize,
    payload: Seq<u8>,
    at: int,
)
    ensures
        report_of(channels, tick, links, (client, channel, payload)).outcome
            == SendOutcome::NoTransport <==> forall|other: int|
            0 <= other < links.len() && (#[trigger] links[other]).client_of
                ==> links[other].client.spec_bits() != client,
        0 <= at < links.len() && links[at].client_of && links[at].client.spec_bits() == client && (
        forall|earlier: int|
            0 <= earlier < at && (#[trigger] links[earlier]).client_of
                ==> links[earlier].client.spec_bits() != client) ==> report_of(
            channels,
            tick,
            links,
            (client, channel, payload),
        ).outcome == (if links[at].transport.outbox().contains_key(channels[channel as int].0) {
            SendOutcome::Queued
        } else {
            SendOutcome::Refused(TransportError::ChannelNotFound(channels[channel as int].0))
        }),
{
    lemma_link_of_bounds(links, client);
    if link_of(links, client) is None {
        assert forall|other: int|
            0 <= other < links.len() && (
            #[trigger] links[other]).client_of implies links[other].client.spec_bits()
            != client by {
            if links[other].client.spec_bits() == client {
                lemma_some_link_serves(links, client, other);
            }
        }
    }
    if 0 <= at < links.len() {
        lemma_link_of_is_the_first(links, client, at);
    }
}

} // verus!
