//! The receiving half of the packet bridge: what the clients have sent goes from their transports
//! into Replicon's message store.

use std::collections::VecDeque;

use bevy_replicon::prelude::ServerMessages;
use vstd::prelude::*;

use crate::channels::ChannelId;
use crate::channels::ChannelKind;
use crate::channels::RepliconChannelMap;
use crate::replicon;
use crate::replicon::ClientEntity;
use crate::replicon::ReceivedMessage;
use crate::transport::Transport;
use crate::transport::TransportLink;

verus! {

/// Whether one of the first `count` channels has this id.
pub open spec fn is_read(
    channels: Seq<(ChannelKind, ChannelId)>,
    count: int,
    id: ChannelId,
) -> bool {
    exists|earlier: int| 0 <= earlier < count && (#[trigger] channels[earlier]).1 == id
}

/// What one inbox gives to the channel at `index`: all unread messages on the channel's id, in
/// order. Where channels share an id, the first of them gets the messages.
pub open spec fn delivered(
    channels: Seq<(ChannelKind, ChannelId)>,
    inbox: Map<ChannelId, Seq<Seq<u8>>>,
    index: int,
) -> Seq<Seq<u8>> {
    if inbox.contains_key(channels[index].1) && !is_read(channels, index, channels[index].1) {
        inbox[channels[index].1]
    } else {
        Seq::empty()
    }
}

/// An inbox after all messages on the first `count` channels were read.
pub open spec fn drained_inbox(
    channels: Seq<(ChannelKind, ChannelId)>,
    inbox: Map<ChannelId, Seq<Seq<u8>>>,
    count: int,
) -> Map<ChannelId, Seq<Seq<u8>>> {
    Map::new(
        |id: ChannelId| inbox.contains_key(id),
        |id: ChannelId|
            if is_read(channels, count, id) {
                Seq::empty()
            } else {
                inbox[id]
            },
    )
}

/// Messages with the client that they came from.
pub open spec fn from_client(client: u64, messages: Seq<Seq<u8>>) -> Seq<(u64, Seq<u8>)> {
    messages.map_values(|message: Seq<u8>| (client, message))
}

/// What the client channels have received after the first `count` channels of one client's inbox
/// were read into them.
pub open spec fn received_from_inbox(
    received: Seq<Seq<(u64, Seq<u8>)>>,
    channels: Seq<(ChannelKind, ChannelId)>,
    client: u64,
    inbox: Map<ChannelId, Seq<Seq<u8>>>,
    count: int,
) -> Seq<Seq<(u64, Seq<u8>)>> {
    Seq::new(
        received.len(),
        |index: int|
            if index < count {
                received[index] + from_client(client, delivered(channels, inbox, index))
            } else {
                received[index]
            },
    )
}

/// What an inbox holds on a channel: nothing, where the transport does not receive it.
pub open spec fn unread(inbox: Map<ChannelId, Seq<Seq<u8>>>, id: ChannelId) -> Seq<Seq<u8>> {
    if inbox.contains_key(id) {
        inbox[id]
    } else {
        Seq::empty()
    }
}

/// Whether no client of a server has anything unread for the client channels from `count` on.
pub open spec fn nothing_beyond(
    channels: Seq<(ChannelKind, ChannelId)>,
    links: Seq<TransportLink>,
    count: int,
) -> bool {
    forall|at: int, index: int|
        0 <= at < links.len() && links[at].client_of && count <= index < channels.len() ==> (
        #[trigger] delivered(channels, links[at].transport.inbox(), index)).len() == 0
}

/// Moves everything on the channel `id` of a transport to the end of `received`.
fn read_channel(
    received: &mut VecDeque<ReceivedMessage>,
    client: ClientEntity,
    id: ChannelId,
    transport: &mut Transport,
)
    ensures
        replicon::received_view(final(received)@) == replicon::received_view(old(received)@)
            + from_client(client.spec_bits(), unread(old(transport).inbox(), id)),
        final(transport).inbox() == (if old(transport).inbox().contains_key(id) {
            old(transport).inbox().insert(id, Seq::empty())
        } else {
            old(transport).inbox()
        }),
        final(transport).outbox() == old(transport).outbox(),
{
    let ghost bits = client.spec_bits();
    let ghost before = replicon::received_view(received@);
    let ghost inbox = transport.inbox();
    let ghost mut done = Seq::<Seq<u8>>::empty();
    let ghost mut rest = unread(inbox, id);
    proof {
        assert(before + from_client(bits, done) =~= before);
        assert(inbox.contains_key(id) ==> inbox.insert(id, rest) =~= inbox);
        assert(done + rest =~= unread(inbox, id));
    }
    loop
        invariant
            bits == client.spec_bits(),
            inbox == old(transport).inbox(),
            before == replicon::received_view(old(received)@),
            done + rest == unread(inbox, id),
            replicon::received_view(received@) == before + from_client(bits, done),
            transport.inbox() == (if inbox.contains_key(id) {
                inbox.insert(id, rest)
            } else {
                inbox
            }),
            transport.outbox() == old(transport).outbox(),
        ensures
            rest.len() == 0,
        decreases rest.len(),
    {
        match transport.read_message(id) {
            None => {
                assert((done + rest).len() == unread(inbox, id).len());
                break;
            },
            Some(message) => {
                let ghost bytes = message@;
                let ghost queue = received@;
                received.push_back(ReceivedMessage { client, message });
                proof {
                    let longer = done.push(bytes);
                    assert(from_client(bits, longer) =~= from_client(bits, done).push(
                        (bits, bytes),
                    ));
                    assert(replicon::received_view(received@) =~= replicon::received_view(
                        queue,
                    ).push((bits, bytes)));
                    assert(replicon::received_view(received@) =~= before + from_client(
                        bits,
                        longer,
                    ));
                    assert(longer + rest.drop_first() =~= done + rest);
                    assert(inbox.insert(id, rest).insert(id, rest.drop_first()) =~= inbox.insert(
                        id,
                        rest.drop_first(),
                    ));
                    done = longer;
                    rest = rest.drop_first();
                }
            },
        }
    }
    proof {
        assert(done =~= unread(inbox, id));
        assert(rest =~= Seq::<Seq<u8>>::empty());
    }
}

/// What each of several lists of received messages holds.
pub open spec fn channels_view(received: Seq<VecDeque<ReceivedMessage>>) -> Seq<
    Seq<(u64, Seq<u8>)>,
> {
    received.map_values(|channel: VecDeque<ReceivedMessage>| replicon::received_view(channel@))
}

/// Reads everything that one client has sent on the client channels.
fn read_link(
    channel_map: &RepliconChannelMap,
    received: &mut Vec<VecDeque<ReceivedMessage>>,
    client: ClientEntity,
    transport: &mut Transport,
)
    requires
        channel_map.client_channels@.len() <= old(received)@.len(),
    ensures
        channels_view(final(received)@) == received_from_inbox(
            channels_view(old(received)@),
            channel_map.client_channels@,
            client.spec_bits(),
            old(transport).inbox(),
            channel_map.client_channels@.len() as int,
        ),
        final(transport).inbox() == drained_inbox(
            channel_map.client_channels@,
            old(transport).inbox(),
            channel_map.client_channels@.len() as int,
        ),
        final(transport).outbox() == old(transport).outbox(),
{
    let ghost bits = client.spec_bits();
    let ghost channels = channel_map.client_channels@;
    let ghost inbox = transport.inbox();
    let ghost before = channels_view(received@);
    let mut index: usize = 0;
    proof {
        assert(drained_inbox(channels, inbox, 0) =~= inbox);
        assert(received_from_inbox(before, channels, bits, inbox, 0) =~= before);
    }
    while index < channel_map.client_channels.len()
        invariant
            index <= channels.len(),
            channels == channel_map.client_channels@,
            channels.len() <= before.len(),
            bits == client.spec_bits(),
            inbox == old(transport).inbox(),
            before == channels_view(old(received)@),
            transport.inbox() == drained_inbox(channels, inbox, index as int),
            transport.outbox() == old(transport).outbox(),
            received@.len() == before.len(),
            channels_view(received@) == received_from_inbox(
                before,
                channels,
                bits,
                inbox,
                index as int,
            ),
        decreases channels.len() - index,
    {
        let id: ChannelId = channel_map.client_channels[index].1;
        let ghost partly = channels_view(received@);
        read_channel(&mut received[index], client, id, transport);
        proof {
            assert(channels[index as int].1 == id);
            assert(unread(drained_inbox(channels, inbox, index as int), id) =~= delivered(
                channels,
                inbox,
                index as int,
            ));
            assert(channels_view(received@) =~= partly.update(
                index as int,
                partly[index as int] + from_client(bits, delivered(channels, inbox, index as int)),
            ));
            assert(channels_view(received@) =~= received_from_inbox(
                before,
                channels,
                bits,
                inbox,
                index + 1,
            ));
            assert(transport.inbox() =~= drained_inbox(channels, inbox, index + 1));
        }
        index = index + 1;
    }
}

/// What the client channels have received after the links' inboxes were read into them, one link
/// after the other. Only the links of clients of a server are read.
pub open spec fn received_from_links(
    received: Seq<Seq<(u64, Seq<u8>)>>,
    channels: Seq<(ChannelKind, ChannelId)>,
    links: Seq<TransportLink>,
) -> Seq<Seq<(u64, Seq<u8>)>>
    decreases links.len(),
{
    if links.len() == 0 {
        received
    } else {
        let earlier = received_from_links(received, channels, links.drop_last());
        if links.last().client_of {
            received_from_inbox(
                earlier,
                channels,
                links.last().client.spec_bits(),
                links.last().transport.inbox(),
                channels.len() as int,
            )
        } else {
            earlier
        }
    }
}

/// As many empty channels as there are client channels.
pub open spec fn nothing_received(count: nat) -> Seq<Seq<(u64, Seq<u8>)>> {
    Seq::new(count, |index: int| Seq::empty())
}

/// Reads what the clients have sent: for each client channel, its messages in the order of the
/// links, and of each link in the order in which they arrived.
pub fn read_client_packets(
    channel_map: &RepliconChannelMap,
    links: &mut Vec<TransportLink>,
) -> (received: Vec<VecDeque<ReceivedMessage>>)
    ensures
        channels_view(received@) == received_from_links(
            nothing_received(channel_map.client_channels@.len()),
            channel_map.client_channels@,
            old(links)@,
        ),
        links_after_receive(channel_map.client_channels@, old(links)@, final(links)@),
        received@.len() == channel_map.client_channels@.len(),
        forall|index: int|
            0 <= index < received@.len() ==> (#[trigger] received@[index])@.map_values(
                |message: ReceivedMessage| (message.client.spec_bits(), message.message@),
            ) == old(links)@.map_values(
                |link: TransportLink|
                    if link.client_of && link.transport.inbox().contains_key(
                        channel_map.client_channels@[index].1,
                    ) && (forall|earlier: int|
                        0 <= earlier < index ==> (#[trigger] channel_map.client_channels@[earlier]).1
                            != channel_map.client_channels@[index].1) {
                        link.transport.inbox()[channel_map.client_channels@[index].1].map_values(
                            |message: Seq<u8>| (link.client.spec_bits(), message),
                        )
                    } else {
                        Seq::<(u64, Seq<u8>)>::empty()
                    },
            ).flatten(),
{
    let ghost channels = channel_map.client_channels@;
    let ghost before = links@;
    let mut received: Vec<VecDeque<ReceivedMessage>> = Vec::new();
    while received.len() < channel_map.client_channels.len()
        invariant
            received@.len() <= channel_map.client_channels@.len(),
            channels_view(received@) == nothing_received(received@.len()),
        decreases channel_map.client_channels@.len() - received@.len(),
    {
        let ghost fewer = received@;
        received.push(VecDeque::new());
        proof {
            assert(replicon::received_view(received@.last()@) =~= Seq::empty());
            assert(channels_view(received@) =~= channels_view(fewer).push(Seq::empty()));
            assert(channels_view(received@) =~= nothing_received(received@.len()));
        }
    }
    let ghost none = nothing_received(channels.len());
    let mut at: usize = 0;
    assert(before.take(0) =~= Seq::empty());
    while at < links.len()
        invariant
            at <= links@.len(),
            links@.len() == before.len(),
            before == old(links)@,
            channels == channel_map.client_channels@,
            received@.len() == channels.len(),
            none == nothing_received(channels.len()),
            channels_view(received@) == received_from_links(
                none,
                channels,
                before.take(at as int),
            ),
            forall|done: int|
                0 <= done < at ==> link_after_receive(
                    channels,
                    before[done],
                    #[trigger] links@[done],
                ),
            forall|later: int|
                at <= later < before.len() ==> #[trigger] links@[later] == before[later],
        decreases links@.len() - at,
    {
        let link = &mut links[at];
        if link.client_of {
            read_link(channel_map, &mut received, link.client, &mut link.transport);
            assert(channels_view(received@).len() == channels.len());
        }
        proof {
            assert(before.take(at + 1).drop_last() =~= before.take(at as int));
        }
        at = at + 1;
    }
    assert(before.take(before.len() as int) =~= before);
    assert forall|index: int| 0 <= index < received@.len() implies (
    #[trigger] received@[index])@.map_values(
        |message: ReceivedMessage| (message.client.spec_bits(), message.message@),
    ) == before.map_values(
        |link: TransportLink|
            if link.client_of && link.transport.inbox().contains_key(
                channels[index].1,
            ) && (forall|earlier: int|
                0 <= earlier < index ==> (#[trigger] channels[earlier]).1
                    != channels[index].1) {
                link.transport.inbox()[channels[index].1].map_values(
                    |message: Seq<u8>| (link.client.spec_bits(), message),
                )
            } else {
                Seq::<(u64, Seq<u8>)>::empty()
            },
    ).flatten() by {
        law_channels_receive_link_by_link(none, channels, before, index);
        assert(channels_view(received@)[index] =~= received@[index]@.map_values(
            |message: ReceivedMessage| (message.client.spec_bits(), message.message@),
        ));
        assert(none[index] + before.map_values(
            |link: TransportLink|
                if link.client_of && link.transport.inbox().contains_key(
                    channels[index].1,
                ) && (forall|earlier: int|
                    0 <= earlier < index ==> (#[trigger] channels[earlier]).1
                        != channels[index].1) {
                    link.transport.inbox()[channels[index].1].map_values(
                        |message: Seq<u8>| (link.client.spec_bits(), message),
                    )
                } else {
                    Seq::<(u64, Seq<u8>)>::empty()
                },
        ).flatten() =~= before.map_values(
            |link: TransportLink|
                if link.client_of && link.transport.inbox().contains_key(
                    channels[index].1,
                ) && (forall|earlier: int|
                    0 <= earlier < index ==> (#[trigger] channels[earlier]).1
                        != channels[index].1) {
                    link.transport.inbox()[channels[index].1].map_values(
                        |message: Seq<u8>| (link.client.spec_bits(), message),
                    )
                } else {
                    Seq::<(u64, Seq<u8>)>::empty()
                },
        ).flatten());
    }
    received
}

/// How a receive pass changes the links.
pub open spec fn links_after_receive(
    channels: Seq<(ChannelKind, ChannelId)>,
    before: Seq<TransportLink>,
    after: Seq<TransportLink>,
) -> bool {
    &&& after.len() == before.len()
    &&& forall|at: int|
        0 <= at < before.len() ==> link_after_receive(channels, before[at], #[trigger] after[at])
}

/// How a receive pass changes a link: the inbox of a client of a server loses what was unread on
/// the client channels, and everything else stays.
pub open spec fn link_after_receive(
    channels: Seq<(ChannelKind, ChannelId)>,
    before: TransportLink,
    after: TransportLink,
) -> bool {
    &&& after.client.spec_bits() == before.client.spec_bits()
    &&& after.client_of == before.client_of
    &&& after.transport.outbox() == before.transport.outbox()
    &&& after.transport.inbox() == if before.client_of {
        drained_inbox(channels, before.transport.inbox(), channels.len() as int)
    } else {
        before.transport.inbox()
    }
}

/// Reading the links into channels that have received something before adds, to each channel,
/// what reading them into empty channels gives.
pub proof fn law_receiving_appends(
    received: Seq<Seq<(u64, Seq<u8>)>>,
    channels: Seq<(ChannelKind, ChannelId)>,
    links: Seq<TransportLink>,
)
    ensures
        received_from_links(received, channels, links) == appended(
            received,
            received_from_links(nothing_received(channels.len()), channels, links),
        ),
    decreases links.len(),
{
    let none = nothing_received(channels.len());
    lemma_received_len(none, channels, links);
    lemma_received_len(received, channels, links);
    if links.len() == 0 {
        assert(appended(received, none) =~= received) by {
            assert forall|index: int| 0 <= index < received.len() implies #[trigger] appended(
                received,
                none,
            )[index] == received[index] by {
                if index < none.len() {
                    assert(received[index] + none[index] =~= received[index]);
                }
            }
        }
    } else {
        let fewer = links.drop_last();
        law_receiving_appends(received, channels, fewer);
        lemma_received_len(none, channels, fewer);
        lemma_received_len(received, channels, fewer);
        let whole = received_from_links(received, channels, links);
        let part = received_from_links(none, channels, links);
        assert forall|index: int| 0 <= index < received.len() implies #[trigger] whole[index]
            == appended(received, part)[index] by {
            if index < channels.len() && links.last().client_of {
                let added = from_client(
                    links.last().client.spec_bits(),
                    delivered(channels, links.last().transport.inbox(), index),
                );
                let earlier = received_from_links(none, channels, fewer)[index];
                assert(received[index] + earlier + added =~= received[index] + (earlier + added));
            }
        }
        assert(whole =~= appended(received, part));
    }
}

/// Lists with further messages at their ends.
pub open spec fn appended(
    received: Seq<Seq<(u64, Seq<u8>)>>,
    added: Seq<Seq<(u64, Seq<u8>)>>,
) -> Seq<Seq<(u64, Seq<u8>)>> {
    Seq::new(
        received.len(),
        |index: int|
            if index < added.len() {
                received[index] + added[index]
            } else {
                received[index]
            },
    )
}

proof fn lemma_received_len(
    received: Seq<Seq<(u64, Seq<u8>)>>,
    channels: Seq<(ChannelKind, ChannelId)>,
    links: Seq<TransportLink>,
)
    ensures
        received_from_links(received, channels, links).len() == received.len(),
    decreases links.len(),
{
    if links.len() > 0 {
        lemma_received_len(received, channels, links.drop_last());
    }
}

/// Puts messages at the end of what one client channel of the store has received.
fn insert_channel(
    messages: &mut ServerMessages,
    index: usize,
    received: &mut VecDeque<ReceivedMessage>,
)
    requires
        index < replicon::received_messages(*old(messages)).len(),
    ensures
        replicon::received_messages(*final(messages)) == replicon::received_messages(
            *old(messages),
        ).update(
            index as int,
            replicon::received_messages(*old(messages))[index as int] + replicon::received_view(
                old(received)@,
            ),
        ),
        replicon::sent_messages(*final(messages)) == replicon::sent_messages(*old(messages)),
{
    let ghost store = replicon::received_messages(*messages);
    let ghost all = replicon::received_view(received@);
    let ghost mut done = Seq::<(u64, Seq<u8>)>::empty();
    proof {
        assert(store[index as int] + done =~= store[index as int]);
        assert(store.update(index as int, store[index as int]) =~= store);
        assert(done + replicon::received_view(received@) =~= all);
    }
    while received.len() > 0
        invariant
            index < store.len(),
            all == replicon::received_view(old(received)@),
            store == replicon::received_messages(*old(messages)),
            done + replicon::received_view(received@) == all,
            replicon::received_messages(*messages) == store.update(
                index as int,
                store[index as int] + done,
            ),
            replicon::sent_messages(*messages) == replicon::sent_messages(*old(messages)),
        decreases received@.len(),
    {
        let ghost queue = received@;
        if let Some(next) = received.pop_front() {
            let ghost entry = next@;
            let bits: u64 = next.client.bits();
            replicon::insert_received(messages, bits, index, next.message);
            proof {
                let longer = done.push(entry);
                assert(replicon::received_view(queue)[0] == entry);
                assert(longer + replicon::received_view(received@) =~= done
                    + replicon::received_view(queue));
                assert(replicon::received_messages(*messages) =~= store.update(
                    index as int,
                    store[index as int] + longer,
                ));
                done = longer;
            }
        }
    }
    assert(done =~= all);
}

proof fn lemma_nothing_beyond(
    channels: Seq<(ChannelKind, ChannelId)>,
    links: Seq<TransportLink>,
    count: int,
    index: int,
)
    requires
        nothing_beyond(channels, links, count),
        0 <= index,
        count <= index < channels.len(),
    ensures
        received_from_links(nothing_received(channels.len()), channels, links)[index].len() == 0,
    decreases links.len(),
{
    let none = nothing_received(channels.len());
    if links.len() > 0 {
        let fewer = links.drop_last();
        assert forall|at: int, later: int|
            0 <= at < fewer.len() && fewer[at].client_of && count <= later
                < channels.len() implies (#[trigger] delivered(
            channels,
            fewer[at].transport.inbox(),
            later,
        )).len() == 0 by {
            assert(fewer[at] == links[at]);
        }
        lemma_nothing_beyond(channels, fewer, count, index);
        lemma_received_len(none, channels, fewer);
        assert(links.last() == links[links.len() - 1]);
    }
}

/// Finds the first client channel from `count` on for which a client of a server has something
/// unread.
pub fn find_unread_beyond(
    channel_map: &RepliconChannelMap,
    links: &Vec<TransportLink>,
    count: usize,
) -> (found: Option<usize>)
    ensures
        found is None <==> nothing_beyond(channel_map.client_channels@, links@, count as int),
        found matches Some(index) ==> {
            &&& count <= index < channel_map.client_channels@.len()
            &&& exists|at: int|
                {
                    &&& 0 <= at < links@.len()
                    &&& links@[at].client_of
                    &&& (#[trigger] delivered(
                        channel_map.client_channels@,
                        links@[at].transport.inbox(),
                        index as int,
                    )).len() > 0
                }
            &&& forall|at: int, earlier: int|
                0 <= at < links@.len() && links@[at].client_of && count <= earlier < index ==> (
                #[trigger] delivered(
                    channel_map.client_channels@,
                    links@[at].transport.inbox(),
                    earlier,
                )).len() == 0
        },
        found is None <==> forall|at: int, index: int|
            {
                &&& 0 <= at < links@.len()
                &&& (#[trigger] links@[at]).client_of
                &&& count <= index < channel_map.client_channels@.len()
                &&& links@[at].transport.inbox().contains_key(
                    (#[trigger] channel_map.client_channels@[index]).1,
                )
                &&& links@[at].transport.inbox()[channel_map.client_channels@[index].1].len() > 0
            } ==> exists|earlier: int|
                0 <= earlier < index && (#[trigger] channel_map.client_channels@[earlier]).1
                    == channel_map.client_channels@[index].1,
        found matches Some(index) ==> {
            &&& forall|earlier: int|
                0 <= earlier < index ==> (#[trigger] channel_map.client_channels@[earlier]).1
                    != channel_map.client_channels@[index as int].1
            &&& exists|at: int|
                {
                    &&& 0 <= at < links@.len()
                    &&& (#[trigger] links@[at]).client_of
                    &&& links@[at].transport.inbox().contains_key(
                        channel_map.client_channels@[index as int].1,
                    )
                    &&& links@[at].transport.inbox()[channel_map.client_channels@[index as int].1].len()
                        > 0
                }
        },
{
    let ghost channels = channel_map.client_channels@;
    let mut index: usize = count;
    while index < channel_map.client_channels.len()
        invariant
            count <= index,
            channels == channel_map.client_channels@,
            forall|at: int, earlier: int|
                0 <= at < links@.len() && links@[at].client_of && count <= earlier < index ==> (
                #[trigger] delivered(channels, links@[at].transport.inbox(), earlier)).len() == 0,
        decreases channels.len() - index,
    {
        let id: ChannelId = channel_map.client_channels[index].1;
        let mut first: bool = true;
        let mut earlier: usize = 0;
        while earlier < index
            invariant
                earlier <= index < channels.len(),
                channels == channel_map.client_channels@,
                first == !is_read(channels, earlier as int, id),
            decreases index - earlier,
        {
            if channel_map.client_channels[earlier].1 == id {
                assert(channels[earlier as int].1 == id);
                first = false;
            }
            earlier = earlier + 1;
        }
        let mut at: usize = 0;
        while at < links.len()
            invariant
                at <= links@.len(),
                count <= index < channels.len(),
                channels == channel_map.client_channels@,
                id == channels[index as int].1,
                first == !is_read(channels, index as int, id),
                forall|seen: int|
                    0 <= seen < at && links@[seen].client_of ==> (#[trigger] delivered(
                        channels,
                        links@[seen].transport.inbox(),
                        index as int,
                    )).len() == 0,
                forall|other: int, earlier: int|
                    0 <= other < links@.len() && links@[other].client_of && count <= earlier
                        < index ==> (#[trigger] delivered(
                        channels,
                        links@[other].transport.inbox(),
                        earlier,
                    )).len() == 0,
            decreases links@.len() - at,
        {
            if first && links[at].client_of && links[at].transport.has_unread(id) {
                assert(delivered(
                    channels,
                    links@[at as int].transport.inbox(),
                    index as int,
                ).len() > 0);
                proof {
                    law_unread_beyond(channels, links@, count as int);
                    assert(links@[at as int].client_of);
                    assert(channels[index as int].1 == id);
                }
                return Some(index);
            }
            at = at + 1;
        }
        index = index + 1;
    }
    proof {
        law_unread_beyond(channels, links@, count as int);
    }
    None
}

/// Reads what the clients have sent on the client channels into the message store. The store has
/// to have a receive channel for every message that is there to be read.
///
/// A store does not show how many receive channels it has. Replicon gives it one for each client
/// channel that is registered, and [`find_unread_beyond`] tests the condition for that number.
pub fn receive_server_packets(
    channel_map: &RepliconChannelMap,
    messages: &mut ServerMessages,
    links: &mut Vec<TransportLink>,
)
    requires
        nothing_beyond(
            channel_map.client_channels@,
            old(links)@,
            replicon::received_messages(*old(messages)).len() as int,
        ),
    ensures
        replicon::received_messages(*final(messages)) == received_from_links(
            replicon::received_messages(*old(messages)),
            channel_map.client_channels@,
            old(links)@,
        ),
        replicon::sent_messages(*final(messages)) == replicon::sent_messages(*old(messages)),
        links_after_receive(channel_map.client_channels@, old(links)@, final(links)@),
        replicon::received_messages(*final(messages)).len() == replicon::received_messages(
            *old(messages),
        ).len(),
        forall|index: int|
            channel_map.client_channels@.len() <= index < replicon::received_messages(
                *old(messages),
            ).len() ==> #[trigger] replicon::received_messages(*final(messages))[index]
                == replicon::received_messages(*old(messages))[index],
        forall|index: int|
            0 <= index < channel_map.client_channels@.len() && index < replicon::received_messages(
                *old(messages),
            ).len() ==> #[trigger] replicon::received_messages(*final(messages))[index]
                == replicon::received_messages(*old(messages))[index] + old(links)@.map_values(
                |link: TransportLink|
                    if link.client_of && link.transport.inbox().contains_key(
                        channel_map.client_channels@[index].1,
                    ) && (forall|earlier: int|
                        0 <= earlier < index ==> (#[trigger] channel_map.client_channels@[earlier]).1
                            != channel_map.client_channels@[index].1) {
                        link.transport.inbox()[channel_map.client_channels@[index].1].map_values(
                            |message: Seq<u8>| (link.client.spec_bits(), message),
                        )
                    } else {
                        Seq::<(u64, Seq<u8>)>::empty()
                    },
            ).flatten(),
{
    let ghost store = replicon::received_messages(*messages);
    let ghost channels = channel_map.client_channels@;
    let mut received: Vec<VecDeque<ReceivedMessage>> = read_client_packets(channel_map, links);
    let ghost read = channels_view(received@);
    proof {
        lemma_received_len(nothing_received(channels.len()), channels, old(links)@);
        law_receiving_appends(store, channels, old(links)@);
        assert(appended(store, read.take(0)) =~= store);
        assert forall|index: int| store.len() <= index < read.len() implies (
        #[trigger] read[index]).len() == 0 by {
            lemma_nothing_beyond(channels, old(links)@, store.len() as int, index);
        }
    }
    let mut index: usize = 0;
    while index < received.len()
        invariant
            index <= received@.len(),
            received@.len() == read.len(),
            forall|beyond: int|
                store.len() <= beyond < read.len() ==> (#[trigger] read[beyond]).len() == 0,
            forall|later: int|
                index <= later < received@.len() ==> replicon::received_view(
                    (#[trigger] received@[later])@,
                ) == read[later],
            replicon::received_messages(*messages) == appended(store, read.take(index as int)),
            replicon::sent_messages(*messages) == replicon::sent_messages(*old(messages)),
        decreases received@.len() - index,
    {
        assert(replicon::received_view(received@[index as int]@) == read[index as int]);
        if received[index].len() > 0 {
            insert_channel(messages, index, &mut received[index]);
        } else {
            assert(index < store.len() ==> store[index as int] + read[index as int]
                =~= store[index as int]);
        }
        assert(replicon::received_messages(*messages) =~= appended(store, read.take(index + 1)));
        index = index + 1;
    }
    proof {
        assert(read.take(read.len() as int) =~= read);
        lemma_received_len(store, channels, old(links)@);
        assert forall|index: int| 0 <= index < channels.len() && index < store.len() implies (
        #[trigger] received_from_links(
            store,
            channels,
            old(links)@,
        )[index]) == store[index] + old(links)@.map_values(
            |link: TransportLink|
                if link.client_of && link.transport.inbox().contains_key(
                    channels[index].1,
                ) && (forall|earlier: int|
                    0 <= earlier < index ==> (#[trigger] channels[earlier]).1
                        != channels[index].1) {
                    link.transport.inbox()[channels[index].1].map_values(
                        |message: Seq<u8>| (link.client.spec_bits(), message),
                    )
                } else {
                    Seq::<(u64, Seq<u8>)>::empty()
                },
        ).flatten() by {
            law_channels_receive_link_by_link(store, channels, old(links)@, index);
        }
        assert forall|index: int| channels.len() <= index < store.len() implies (
        #[trigger] received_from_links(
            store,
            channels,
            old(links)@,
        )[index]) == store[index] by {
            law_channels_receive_link_by_link(store, channels, old(links)@, index);
        }
    }
}

/// After a receive pass another one has nothing to read: it may run on any store, leaves what the
/// store has received as it is, and changes no link.
pub proof fn law_receiving_again_reads_nothing(
    received: Seq<Seq<(u64, Seq<u8>)>>,
    channels: Seq<(ChannelKind, ChannelId)>,
    before: Seq<TransportLink>,
    after: Seq<TransportLink>,
)
    requires
        links_after_receive(channels, before, after),
    ensures
        received_from_links(received, channels, after) == received,
        forall|count: int| 0 <= count ==> #[trigger] nothing_beyond(channels, after, count),
        links_after_receive(channels, after, after),
    decreases after.len(),
{
    assert forall|at: int, index: int|
        0 <= at < after.len() && after[at].client_of && 0 <= index < channels.len() implies (
    #[trigger] delivered(channels, after[at].transport.inbox(), index)).len() == 0 by {
        assert(link_after_receive(channels, before[at], after[at]));
        assert(is_read(channels, channels.len() as int, channels[index].1));
    }
    assert forall|at: int| 0 <= at < after.len() implies link_after_receive(
        channels,
        after[at],
        #[trigger] after[at],
    ) by {
        assert(link_after_receive(channels, before[at], after[at]));
        if after[at].client_of {
            assert(drained_inbox(channels, after[at].transport.inbox(), channels.len() as int)
                =~= after[at].transport.inbox());
        }
    }
    if after.len() > 0 {
        assert(after.last() == after[after.len() - 1]);
        assert forall|at: int| 0 <= at < before.drop_last().len() implies link_after_receive(
            channels,
            before.drop_last()[at],
            #[trigger] after.drop_last()[at],
        ) by {
            assert(after.drop_last()[at] == after[at]);
        }
        law_receiving_again_reads_nothing(
            received,
            channels,
            before.drop_last(),
            after.drop_last(),
        );
        let client = after.last().client.spec_bits();
        let inbox = after.last().transport.inbox();
        if after.last().client_of {
            assert forall|index: int| 0 <= index < received.len() implies #[trigger] received_from_inbox(
                received,
                channels,
                client,
                inbox,
                channels.len() as int,
            )[index] == received[index] by {
                if index < channels.len() {
                    assert(is_read(channels, channels.len() as int, channels[index].1));
                    assert(delivered(channels, inbox, index) =~= Seq::empty());
                    assert(received[index] + from_client(client, Seq::empty()) =~= received[index]);
                }
            }
            assert(received_from_inbox(received, channels, client, inbox, channels.len() as int)
                =~= received);
        }
    }
}

/// A receive pass leaves alone what has arrived on channels that are not client channels, and
/// what has arrived for anyone who is not a client of a server.
pub proof fn law_other_channels_are_untouched(
    channels: Seq<(ChannelKind, ChannelId)>,
    before: Seq<TransportLink>,
    after: Seq<TransportLink>,
    at: int,
    id: ChannelId,
)
    requires
        links_after_receive(channels, before, after),
        0 <= at < before.len(),
        before[at].client_of ==> forall|index: int|
            0 <= index < channels.len() ==> (#[trigger] channels[index]).1 != id,
    ensures
        after[at].transport.inbox().contains_key(id) == before[at].transport.inbox().contains_key(
            id,
        ),
        before[at].transport.inbox().contains_key(id) ==> after[at].transport.inbox()[id]
            == before[at].transport.inbox()[id],
{
    assert(link_after_receive(channels, before[at], after[at]));
}

/// No message on a client channel is lost: whatever a client of a server has sent on the channel
/// at `index` is received, from this client, on the first channel with the same id.
pub proof fn law_no_message_is_lost(
    received: Seq<Seq<(u64, Seq<u8>)>>,
    channels: Seq<(ChannelKind, ChannelId)>,
    links: Seq<TransportLink>,
    at: int,
    index: int,
    message: int,
)
    requires
        0 <= at < links.len(),
        links[at].client_of,
        0 <= index < channels.len(),
        index < received.len(),
        !is_read(channels, index, channels[index].1),
        links[at].transport.inbox().contains_key(channels[index].1),
        0 <= message < links[at].transport.inbox()[channels[index].1].len(),
    ensures
        received_from_links(received, channels, links)[index].contains(
            (
                links[at].client.spec_bits(),
                links[at].transport.inbox()[channels[index].1][message],
            ),
        ),
    decreases links.len(),
{
    let client = links[at].client.spec_bits();
    let bytes = links[at].transport.inbox()[channels[index].1][message];
    let whole = received_from_links(received, channels, links)[index];
    let fewer = links.drop_last();
    let earlier = received_from_links(received, channels, fewer)[index];
    lemma_received_len(received, channels, fewer);
    if at == links.len() - 1 {
        assert(whole[earlier.len() + message] == (client, bytes));
    } else {
        assert(fewer[at] == links[at]);
        law_no_message_is_lost(received, channels, fewer, at, index, message);
        let position = earlier.index_of((client, bytes));
        assert(whole[position] == (client, bytes));
    }
}

/// No message is made up: whatever a receive pass adds to a channel was unread on that channel's
/// id with a client of a server.
pub proof fn law_no_message_is_made_up(
    channels: Seq<(ChannelKind, ChannelId)>,
    links: Seq<TransportLink>,
    index: int,
    position: int,
)
    requires
        0 <= index < channels.len(),
        0 <= position < received_from_links(
            nothing_received(channels.len()),
            channels,
            links,
        )[index].len(),
    ensures
        exists|at: int|
            {
                &&& 0 <= at < links.len()
                &&& sent_by(
                    #[trigger] links[at],
                    channels[index].1,
                    received_from_links(nothing_received(channels.len()), channels, links)[index][
                        position
                    ],
                )
            },
    decreases links.len(),
{
    let none = nothing_received(channels.len());
    lemma_received_len(none, channels, links);
    let entry = received_from_links(none, channels, links)[index][position];
    if links.len() > 0 {
        let fewer = links.drop_last();
        let earlier = received_from_links(none, channels, fewer)[index];
        lemma_received_len(none, channels, fewer);
        if position < earlier.len() {
            law_no_message_is_made_up(channels, fewer, index, position);
            let at = choose|at: int|
                0 <= at < fewer.len() && sent_by(
                    #[trigger] fewer[at],
                    channels[index].1,
                    earlier[position],
                );
            assert(fewer[at] == links[at]);
            assert(sent_by(links[at], channels[index].1, entry));
        } else {
            let inbox = links.last().transport.inbox();
            assert(entry.1 == delivered(channels, inbox, index)[position - earlier.len()]);
            assert(sent_by(links[links.len() - 1], channels[index].1, entry));
        }
    }
}

/// Whether a message is unread on a channel with this client of a server.
pub open spec fn sent_by(link: TransportLink, id: ChannelId, entry: (u64, Seq<u8>)) -> bool {
    &&& link.client_of
    &&& link.client.spec_bits() == entry.0
    &&& link.transport.inbox().contains_key(id)
    &&& link.transport.inbox()[id].contains(entry.1)
}

/// A receive pass may run if and only if every message that a client of a server has unread on a
/// client channel from `count` on is read on an earlier channel with the same id.
pub proof fn law_unread_beyond(
    channels: Seq<(ChannelKind, ChannelId)>,
    links: Seq<TransportLink>,
    count: int,
)
    requires
        0 <= count,
    ensures
        nothing_beyond(channels, links, count) <==> forall|at: int, index: int|
            {
                &&& 0 <= at < links.len()
                &&& (#[trigger] links[at]).client_of
                &&& count <= index < channels.len()
                &&& links[at].transport.inbox().contains_key((#[trigger] channels[index]).1)
                &&& links[at].transport.inbox()[channels[index].1].len() > 0
            } ==> exists|earlier: int|
                0 <= earlier < index && (#[trigger] channels[earlier]).1 == channels[index].1,
{
    if nothing_beyond(channels, links, count) {
        assert forall|at: int, index: int|
            {
                &&& 0 <= at < links.len()
                &&& (#[trigger] links[at]).client_of
                &&& count <= index < channels.len()
                &&& links[at].transport.inbox().contains_key((#[trigger] channels[index]).1)
                &&& links[at].transport.inbox()[channels[index].1].len() > 0
            } implies exists|earlier: int|
            0 <= earlier < index && (#[trigger] channels[earlier]).1 == channels[index].1 by {
            assert(delivered(channels, links[at].transport.inbox(), index).len() == 0);
        }
    }
}

/// What a channel has received after a receive pass is what it had received before, then, link by
/// link, all that a client of a server had unread on the channel's id, in the order of arrival and
/// under the client's own bits. Where channels share an id the first of them gets the messages,
/// and channels that are no client channels get none.
pub proof fn law_channels_receive_link_by_link(
    received: Seq<Seq<(u64, Seq<u8>)>>,
    channels: Seq<(ChannelKind, ChannelId)>,
    links: Seq<TransportLink>,
    index: int,
)
    requires
        0 <= index < received.len(),
    ensures
        received_from_links(received, channels, links).len() == received.len(),
        index >= channels.len() ==> received_from_links(received, channels, links)[index]
            == received[index],
        index < channels.len() ==> received_from_links(received, channels, links)[index]
            == received[index] + links.map_values(
            |link: TransportLink|
                if link.client_of && link.transport.inbox().contains_key(
                    channels[index].1,
                ) && (forall|earlier: int|
                    0 <= earlier < index ==> (#[trigger] channels[earlier]).1
                        != channels[index].1) {
                    link.transport.inbox()[channels[index].1].map_values(
                        |message: Seq<u8>| (link.client.spec_bits(), message),
                    )
                } else {
                    Seq::<(u64, Seq<u8>)>::empty()
                },
        ).flatten(),
    decreases links.len(),
{
    lemma_received_len(received, channels, links);
    let part = |link: TransportLink|
        if link.client_of && link.transport.inbox().contains_key(channels[index].1) && (forall|
            earlier: int,
        |
            0 <= earlier < index ==> (#[trigger] channels[earlier]).1 != channels[index].1) {
            link.transport.inbox()[channels[index].1].map_values(
                |message: Seq<u8>| (link.client.spec_bits(), message),
            )
        } else {
            Seq::<(u64, Seq<u8>)>::empty()
        };
    let parts = links.map_values(part);
    parts.lemma_flatten_and_flatten_alt_are_equivalent();
    if links.len() == 0 {
        assert(parts.flatten() =~= Seq::empty());
        assert(received[index] + parts.flatten() =~= received[index]);
    } else {
        let fewer = links.drop_last();
        lemma_received_len(received, channels, fewer);
        law_channels_receive_link_by_link(received, channels, fewer, index);
        let fewer_parts = fewer.map_values(part);
        fewer_parts.lemma_flatten_and_flatten_alt_are_equivalent();
        assert(parts.drop_last() =~= fewer_parts);
        assert(parts.last() == part(links.last()));
        if index < channels.len() {
            let earlier = received_from_links(received, channels, fewer)[index];
            let inbox = links.last().transport.inbox();
            if links.last().client_of {
                assert(from_client(
                    links.last().client.spec_bits(),
                    delivered(channels, inbox, index),
                ) =~= part(links.last()));
            }
            assert(earlier + part(links.last()) =~= received[index] + (fewer_parts.flatten() + part(
                links.last(),
            )));
            assert(received_from_links(received, channels, links)[index] =~= earlier + part(
                links.last(),
            ));
        }
    }
}

/// A receive pass keeps the order of arrival: what it adds to a channel holds all unread messages
/// of a client of a server on the channel's id in one run, which starts at the position that is
/// given back, the first message first.
pub proof fn law_order_of_arrival_is_kept(
    received: Seq<Seq<(u64, Seq<u8>)>>,
    channels: Seq<(ChannelKind, ChannelId)>,
    links: Seq<TransportLink>,
    at: int,
    index: int,
) -> (start: int)
    requires
        0 <= at < links.len(),
        links[at].client_of,
        0 <= index < channels.len(),
        index < received.len(),
        forall|earlier: int|
            0 <= earlier < index ==> (#[trigger] channels[earlier]).1 != channels[index].1,
        links[at].transport.inbox().contains_key(channels[index].1),
    ensures
        received[index].len() <= start,
        start + links[at].transport.inbox()[channels[index].1].len() <= received_from_links(
            received,
            channels,
            links,
        )[index].len(),
        forall|k: int|
            0 <= k < links[at].transport.inbox()[channels[index].1].len() ==> received_from_links(
                received,
                channels,
                links,
            )[index][start + k] == (
                links[at].client.spec_bits(),
                #[trigger] links[at].transport.inbox()[channels[index].1][k],
            ),
    decreases links.len(),
{
    let fewer = links.drop_last();
    let earlier = received_from_links(received, channels, fewer)[index];
    lemma_received_len(received, channels, fewer);
    lemma_received_grows(received, channels, fewer, index);
    if at == links.len() - 1 {
        earlier.len() as int
    } else {
        assert(fewer[at] == links[at]);
        let start = law_order_of_arrival_is_kept(received, channels, fewer, at, index);
        assert(received_from_links(received, channels, links)[index].take(earlier.len() as int)
            =~= earlier);
        start
    }
}

proof fn lemma_received_grows(
    received: Seq<Seq<(u64, Seq<u8>)>>,
    channels: Seq<(ChannelKind, ChannelId)>,
    links: Seq<TransportLink>,
    index: int,
)
    requires
        0 <= index < received.len(),
    ensures
        received_from_links(received, channels, links)[index].len() >= received[index].len(),
    decreases links.len(),
{
    if links.len() > 0 {
        lemma_received_len(received, channels, links.drop_last());
        lemma_received_grows(received, channels, links.drop_last(), index);
    }
}

/// Where every link has a client of its own, what a receive pass adds to a channel from one client
/// is exactly what this client had unread on the channel's id: as many messages, in the same
/// order.
pub proof fn law_each_client_is_read_once_and_in_order(
    channels: Seq<(ChannelKind, ChannelId)>,
    links: Seq<TransportLink>,
    at: int,
    index: int,
)
    requires
        0 <= at < links.len(),
        links[at].client_of,
        forall|a: int, b: int|
            0 <= a < b < links.len() ==> (#[trigger] links[a]).client.spec_bits() != (
            #[trigger] links[b]).client.spec_bits(),
        0 <= index < channels.len(),
        forall|earlier: int|
            0 <= earlier < index ==> (#[trigger] channels[earlier]).1 != channels[index].1,
        links[at].transport.inbox().contains_key(channels[index].1),
    ensures
        received_from_links(nothing_received(channels.len()), channels, links)[index].filter(
            |entry: (u64, Seq<u8>)| entry.0 == links[at].client.spec_bits(),
        ) == links[at].transport.inbox()[channels[index].1].map_values(
            |message: Seq<u8>| (links[at].client.spec_bits(), message),
        ),
    decreases links.len(),
{
    let client = links[at].client.spec_bits();
    let own = |entry: (u64, Seq<u8>)| entry.0 == client;
    let none = nothing_received(channels.len());
    let fewer = links.drop_last();
    let earlier = received_from_links(none, channels, fewer)[index];
    let last = links.last();
    let added = if last.client_of {
        from_client(last.client.spec_bits(), delivered(channels, last.transport.inbox(), index))
    } else {
        Seq::empty()
    };
    lemma_received_len(none, channels, fewer);
    assert(received_from_links(none, channels, links)[index] =~= earlier + added);
    Seq::filter_distributes_over_add(earlier, added, own);
    if at == links.len() - 1 {
        assert forall|other: int| 0 <= other < fewer.len() implies (
        #[trigger] fewer[other]).client.spec_bits() != client by {
            assert(fewer[other] == links[other]);
        }
        lemma_no_entry_of(channels, fewer, client, index);
        lemma_filter_uniform(added, client, client);
        assert(earlier.filter(own) + added =~= added);
        assert(added =~= links[at].transport.inbox()[channels[index].1].map_values(
            |message: Seq<u8>| (client, message),
        ));
    } else {
        assert(fewer[at] == links[at]);
        assert forall|a: int, b: int| 0 <= a < b < fewer.len() implies (
        #[trigger] fewer[a]).client.spec_bits() != (#[trigger] fewer[b]).client.spec_bits() by {
            assert(fewer[a] == links[a]);
            assert(fewer[b] == links[b]);
        }
        law_each_client_is_read_once_and_in_order(channels, fewer, at, index);
        lemma_filter_uniform(added, last.client.spec_bits(), client);
        assert(links[links.len() - 1] == last);
        assert(earlier.filter(own) + Seq::empty() =~= earlier.filter(own));
    }
}

proof fn lemma_filter_uniform(entries: Seq<(u64, Seq<u8>)>, client: u64, wanted: u64)
    requires
        forall|at: int| 0 <= at < entries.len() ==> (#[trigger] entries[at]).0 == client,
    ensures
        entries.filter(|entry: (u64, Seq<u8>)| entry.0 == wanted) == (if client == wanted {
            entries
        } else {
            Seq::empty()
        }),
    decreases entries.len(),
{
    reveal(Seq::filter);
    if entries.len() > 0 {
        lemma_filter_uniform(entries.drop_last(), client, wanted);
        assert(entries.last() == entries[entries.len() - 1]);
        assert(entries.drop_last().push(entries.last()) =~= entries);
    } else {
        assert(entries =~= Seq::empty());
    }
}

proof fn lemma_no_entry_of(
    channels: Seq<(ChannelKind, ChannelId)>,
    links: Seq<TransportLink>,
    client: u64,
    index: int,
)
    requires
        0 <= index < channels.len(),
        forall|at: int|
            0 <= at < links.len() ==> (#[trigger] links[at]).client.spec_bits() != client,
    ensures
        received_from_links(nothing_received(channels.len()), channels, links)[index].filter(
            |entry: (u64, Seq<u8>)| entry.0 == client,
        ) == Seq::<(u64, Seq<u8>)>::empty(),
    decreases links.len(),
{
    let own = |entry: (u64, Seq<u8>)| entry.0 == client;
    let none = nothing_received(channels.len());
    if links.len() == 0 {
        reveal(Seq::filter);
    } else {
        let fewer = links.drop_last();
        let last = links.last();
        let earlier = received_from_links(none, channels, fewer)[index];
        let added = if last.client_of {
            from_client(
                last.client.spec_bits(),
                delivered(channels, last.transport.inbox(), index),
            )
        } else {
            Seq::empty()
        };
        lemma_received_len(none, channels, fewer);
        assert(links[links.len() - 1] == last);
        assert(received_from_links(none, channels, links)[index] =~= earlier + added);
        Seq::filter_distributes_over_add(earlier, added, own);
        lemma_no_entry_of(channels, fewer, client, index);
        lemma_filter_uniform(added, last.client.spec_bits(), client);
        assert(earlier.filter(own) + added.filter(own) =~= Seq::empty());
    }
}

/// After a receive pass a client of a server has nothing unread on the ids of the client channels,
/// and still has whatever was unread on any other id. Everyone else's inbox, all outboxes and the
/// links themselves stay as they were, and no inbox gains or loses a channel.
pub proof fn law_receiving_empties_the_client_channels(
    channels: Seq<(ChannelKind, ChannelId)>,
    before: Seq<TransportLink>,
    after: Seq<TransportLink>,
    at: int,
)
    requires
        links_after_receive(channels, before, after),
        0 <= at < before.len(),
    ensures
        after.len() == before.len(),
        after[at].client.spec_bits() == before[at].client.spec_bits(),
        after[at].client_of == before[at].client_of,
        after[at].transport.outbox() == before[at].transport.outbox(),
        !before[at].client_of ==> after[at].transport.inbox() == before[at].transport.inbox(),
        after[at].transport.inbox().dom() == before[at].transport.inbox().dom(),
        before[at].client_of ==> forall|id: ChannelId| #[trigger]
            before[at].transport.inbox().contains_key(id) ==> after[at].transport.inbox()[id] == (
            if exists|index: int| 0 <= index < channels.len() && (#[trigger] channels[index]).1
                == id {
                Seq::<Seq<u8>>::empty()
            } else {
                before[at].transport.inbox()[id]
            }),
{
    assert(link_after_receive(channels, before[at], after[at]));
    assert(after[at].transport.inbox().dom() =~= before[at].transport.inbox().dom());
}

/// Lists of received messages hold, list by list and position by position, the client and the
/// bytes of each message, and channels that have received nothing are empty.
pub proof fn law_channels_are_seen_as_they_are(received: Seq<VecDeque<ReceivedMessage>>, count: nat)
    ensures
        channels_view(received).len() == received.len(),
        forall|index: int|
            0 <= index < received.len() ==> (#[trigger] channels_view(received)[index])
                == received[index]@.map_values(
                |message: ReceivedMessage| (message.client.spec_bits(), message.message@),
            ),
        nothing_received(count).len() == count,
        forall|index: int|
            0 <= index < count ==> #[trigger] nothing_received(count)[index] == Seq::<
                (u64, Seq<u8>),
            >::empty(),
{
    assert forall|index: int| 0 <= index < received.len() implies (
    #[trigger] channels_view(received)[index]) == received[index]@.map_values(
        |message: ReceivedMessage| (message.client.spec_bits(), message.message@),
    ) by {
        assert(channels_view(received)[index] =~= received[index]@.map_values(
            |message: ReceivedMessage| (message.client.spec_bits(), message.message@),
        ));
    }
}

} // verus!
