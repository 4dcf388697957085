use bevy_app::App;
use bevy_ecs::entity::Entity;
use bevy_ecs::error::Result as BevyResult;
use bevy_ecs::message::Message;
use bevy_ecs::message::Messages;
use bevy_replicon::prelude::Channel;
use bevy_replicon::prelude::ClientMessageAppExt;
use bevy_replicon::prelude::FromClient;
use bevy_replicon::prelude::RepliconChannels;
use bevy_replicon::prelude::RepliconPlugins;
use bevy_replicon::prelude::ServerMessages;
use bevy_replicon::shared::message::ctx::ClientSendCtx;
use bevy_replicon::shared::message::ctx::ServerReceiveCtx;
use bevy_state::app::AppExtStates;
use bevy_state::app::StatesPlugin;
use bevy_time::TimePlugin;
use bytes::Bytes;
use lightyear_replication::channels::RepliconChannelMap;
use lightyear_replication::receive::find_unread_beyond;
use lightyear_replication::receive::read_client_packets;
use lightyear_replication::receive::receive_server_packets;
use lightyear_replication::replicon::ClientEntity;
use lightyear_replication::send::checked_send_server_packets;
use lightyear_replication::send::send_server_packets;
use lightyear_replication::send::SendOutcome;
use lightyear_replication::send::SendReport;
use lightyear_replication::send::UnknownChannel;
use lightyear_replication::tick::Tick;
use lightyear_replication::transport::Transport;
use lightyear_replication::transport::TransportError;
use lightyear_replication::transport::TransportLink;

const UPDATES: u64 = 100;
const MUTATIONS: u64 = 101;
const EVENTS: u64 = 102;

fn server_channel_map() -> RepliconChannelMap {
    RepliconChannelMap {
        server_channels: vec![(UPDATES, 1), (MUTATIONS, 2), (EVENTS, 3)],
        client_channels: vec![(200, 10), (201, 11)],
    }
}

fn client(index: u32) -> Entity {
    Entity::from_raw_u32(index).unwrap()
}

fn link(entity: Entity, transport: Transport) -> TransportLink {
    TransportLink {
        client: ClientEntity::from_bits(entity.to_bits()).unwrap(),
        client_of: true,
        transport,
    }
}

fn sending_transport() -> Transport {
    let mut transport = Transport::new();
    transport.add_sender(UPDATES);
    transport.add_sender(MUTATIONS);
    transport
}

#[test]
fn send_bridge_fragments_channel_zero_payload_that_would_overflow_after_wrapping() {
    let mut messages = ServerMessages::default();
    let entity = client(1);
    let mut links = vec![link(entity, sending_transport())];

    // Channel 0 is wrapped on the way; this wrapped payload exceeds 1200 bytes and must be sent
    // through the transport fragmentation path.
    let payload = Bytes::from(vec![0_u8; 1778]);
    messages.send(entity, 0_usize, payload);

    let reports =
        send_server_packets(&server_channel_map(), Tick(0), &mut messages, &mut links);
    assert_eq!(
        reports,
        vec![SendReport {
            client: entity.to_bits(),
            channel: 0,
            len: 1785,
            exceeds_budget: true,
            outcome: SendOutcome::Queued,
        }]
    );

    let (single, fragmented) = links[0].transport.send_packet(UPDATES).unwrap();
    assert!(single.is_empty());
    assert!(!fragmented.is_empty());
}

#[test]
fn send_bridge_keeps_channel_zero_payload_when_wrapper_fits_budget() {
    let mut messages = ServerMessages::default();
    let entity = client(1);
    let mut links = vec![link(entity, sending_transport())];
    let payload = Bytes::from(vec![0_u8; 1193]);
    messages.send(entity, 0_usize, payload);

    let reports =
        send_server_packets(&server_channel_map(), Tick(0), &mut messages, &mut links);
    assert!(!reports[0].exceeds_budget);

    let (single, fragmented) = links[0].transport.send_packet(UPDATES).unwrap();
    assert!(!single.is_empty() || !fragmented.is_empty());
    assert_eq!(single.len(), 1);
    assert_eq!(single[0].len(), 1200);
    assert!(fragmented.is_empty());
}

#[test]
fn sent_messages_keep_their_order_and_are_drained() {
    let mut messages = ServerMessages::default();
    let (a, b) = (client(1), client(2));
    let mut links = vec![link(a, sending_transport()), link(b, sending_transport())];
    messages.send(a, 1_usize, vec![1_u8]);
    messages.send(b, 1_usize, vec![2_u8]);
    messages.send(a, 1_usize, vec![3_u8]);
    messages.send(a, 0_usize, vec![4_u8]);

    let map = server_channel_map();
    let reports = send_server_packets(&map, Tick(258), &mut messages, &mut links);
    assert_eq!(reports.len(), 4);
    assert!(reports.iter().all(|report| report.outcome == SendOutcome::Queued));
    assert_eq!(messages.drain_sent().count(), 0);

    let (single, fragmented) = links[0].transport.send_packet(MUTATIONS).unwrap();
    assert_eq!(
        single,
        vec![
            vec![0x4c, 0x59, 1, 0, 0, 1, 2, 1],
            vec![0x4c, 0x59, 1, 0, 0, 1, 2, 3],
        ]
    );
    assert!(fragmented.is_empty());
    let (single, _) = links[0].transport.send_packet(UPDATES).unwrap();
    assert_eq!(single, vec![vec![0x4c, 0x59, 1, 0, 0, 1, 2, 4]]);
    let (single, _) = links[1].transport.send_packet(MUTATIONS).unwrap();
    assert_eq!(single, vec![vec![0x4c, 0x59, 1, 0, 0, 1, 2, 2]]);
    let (single, _) = links[1].transport.send_packet(UPDATES).unwrap();
    assert!(single.is_empty());

    // Nothing is left for a second pass.
    let reports = send_server_packets(&map, Tick(259), &mut messages, &mut links);
    assert!(reports.is_empty());
}

#[test]
fn other_channels_are_sent_as_they_are() {
    let mut messages = ServerMessages::default();
    let entity = client(5);
    let mut transport = sending_transport();
    transport.add_sender(EVENTS);
    let mut links = vec![link(entity, transport)];
    messages.send(entity, 2_usize, vec![6_u8; 1201]);

    let reports =
        send_server_packets(&server_channel_map(), Tick(1), &mut messages, &mut links);
    assert_eq!(
        reports,
        vec![SendReport {
            client: entity.to_bits(),
            channel: 2,
            len: 1201,
            exceeds_budget: false,
            outcome: SendOutcome::Queued,
        }]
    );
    let (single, fragmented) = links[0].transport.send_packet(EVENTS).unwrap();
    assert!(single.is_empty());
    assert_eq!(fragmented, vec![vec![6_u8; 1201]]);
}

#[test]
fn undeliverable_messages_are_reported() {
    let mut messages = ServerMessages::default();
    let (here, gone, stranger) = (client(1), client(2), client(3));
    let mut links = vec![link(here, sending_transport()), link(stranger, sending_transport())];
    links[1].client_of = false;
    messages.send(here, 2_usize, vec![1_u8]);
    messages.send(gone, 0_usize, vec![2_u8]);
    messages.send(stranger, 0_usize, vec![3_u8]);

    let reports =
        send_server_packets(&server_channel_map(), Tick(0), &mut messages, &mut links);
    assert_eq!(
        reports[0].outcome,
        SendOutcome::Refused(TransportError::ChannelNotFound(EVENTS))
    );
    assert_eq!(reports[1].outcome, SendOutcome::NoTransport);
    assert_eq!(reports[2].outcome, SendOutcome::NoTransport);
    for link in links.iter_mut() {
        assert!(link.transport.send_packet(UPDATES).unwrap().0.is_empty());
        assert!(link.transport.send_packet(EVENTS).is_none());
    }
}

#[test]
fn unknown_server_channel_is_an_error() {
    let mut messages = ServerMessages::default();
    let entity = client(1);
    let mut links = vec![link(entity, sending_transport())];
    messages.send(entity, 0_usize, vec![1_u8]);
    messages.send(entity, 3_usize, vec![2_u8]);
    messages.send(entity, 9_usize, vec![3_u8]);

    let result =
        checked_send_server_packets(&server_channel_map(), Tick(0), &mut messages, &mut links);
    assert_eq!(result, Err(UnknownChannel(3)));
    assert!(links[0].transport.send_packet(UPDATES).unwrap().0.is_empty());
    assert_eq!(messages.drain_sent().count(), 0);
}

#[test]
fn clients_do_not_get_in_each_others_way() {
    let (a, b) = (client(1), client(2));
    let mut queues = Vec::new();
    for disturbed in [false, true] {
        let mut messages = ServerMessages::default();
        let mut links = vec![link(a, sending_transport()), link(b, sending_transport())];
        if disturbed {
            messages.send(b, 1_usize, vec![7_u8]);
        }
        messages.send(a, 1_usize, vec![1_u8]);
        if disturbed {
            messages.send(b, 0_usize, vec![8_u8]);
        }
        messages.send(a, 1_usize, vec![2_u8]);
        send_server_packets(&server_channel_map(), Tick(4), &mut messages, &mut links);
        queues.push(links[0].transport.send_packet(MUTATIONS).unwrap());
    }
    assert_eq!(queues[0], queues[1]);
    assert_eq!(queues[0].0.len(), 2);
}

#[test]
fn checked_send_does_what_send_does() {
    let entity = client(1);
    let mut reports = Vec::new();
    let mut packets = Vec::new();
    for checked in [false, true] {
        let mut messages = ServerMessages::default();
        let mut links = vec![link(entity, sending_transport())];
        messages.send(entity, 0_usize, vec![1_u8]);
        messages.send(entity, 2_usize, vec![2_u8]);
        let map = server_channel_map();
        reports.push(if checked {
            checked_send_server_packets(&map, Tick(3), &mut messages, &mut links).unwrap()
        } else {
            send_server_packets(&map, Tick(3), &mut messages, &mut links)
        });
        packets.push(links[0].transport.send_packet(UPDATES).unwrap());
    }
    assert_eq!(reports[0], reports[1]);
    assert_eq!(packets[0], packets[1]);
    assert_eq!(packets[0].0, vec![vec![0x4c, 0x59, 1, 0, 0, 0, 3, 1]]);
}

#[test]
fn surplus_client_channels_may_be_silent() {
    let map = server_channel_map();
    let mut transport = Transport::new();
    transport.add_receiver(10);
    transport.add_receiver(11);
    let mut links = vec![link(client(1), transport)];

    // This store has no receive channel at all, and nothing needs one.
    let mut messages = ServerMessages::default();
    assert_eq!(find_unread_beyond(&map, &links, 0), None);
    receive_server_packets(&map, &mut messages, &mut links);

    links[0].transport.deliver(11, vec![1]);
    assert!(links[0].transport.has_unread(11));
    assert!(!links[0].transport.has_unread(10));
    assert!(!links[0].transport.has_unread(12));
    assert_eq!(find_unread_beyond(&map, &links, 0), Some(1));
    assert_eq!(find_unread_beyond(&map, &links, 1), Some(1));
    assert_eq!(find_unread_beyond(&map, &links, 2), None);
    links[0].client_of = false;
    assert_eq!(find_unread_beyond(&map, &links, 0), None);
}

#[test]
fn client_packets_are_read_by_channel_and_client() {
    let mut first = Transport::new();
    first.add_receiver(10);
    first.add_receiver(11);
    first.add_receiver(99);
    assert!(first.deliver(10, vec![1]));
    assert!(first.deliver(11, vec![2]));
    assert!(first.deliver(10, vec![3]));
    assert!(first.deliver(99, vec![4]));
    assert!(!first.deliver(98, vec![5]));
    let mut second = Transport::new();
    second.add_receiver(10);
    assert!(second.deliver(10, vec![6]));
    let mut outsider = Transport::new();
    outsider.add_receiver(10);
    assert!(outsider.deliver(10, vec![7]));

    let (a, b, c) = (client(1), client(2), client(3));
    let mut links = vec![link(a, first), link(b, second), link(c, outsider)];
    links[2].client_of = false;

    let map = server_channel_map();
    let received = read_client_packets(&map, &mut links);
    let plain: Vec<Vec<(u64, Vec<u8>)>> = received
        .iter()
        .map(|channel| {
            channel
                .iter()
                .map(|message| (message.client.bits(), message.message.clone()))
                .collect()
        })
        .collect();
    assert_eq!(
        plain,
        vec![
            vec![
                (a.to_bits(), vec![1]),
                (a.to_bits(), vec![3]),
                (b.to_bits(), vec![6]),
            ],
            vec![(a.to_bits(), vec![2])],
        ]
    );

    // Nothing is left to read on the client channels, and nothing else was touched.
    let again = read_client_packets(&map, &mut links);
    assert!(again.iter().all(|channel| channel.is_empty()));
    assert_eq!(links[0].transport.read_message(99), Some(vec![4]));
    assert_eq!(links[2].transport.read_message(10), Some(vec![7]));
    assert_eq!(links[2].transport.read_message(10), None);
    assert_eq!(links[2].transport.read_message(12), None);
}

#[test]
fn shared_channel_id_goes_to_the_first_channel() {
    let map = RepliconChannelMap {
        server_channels: Vec::new(),
        client_channels: vec![(200, 10), (201, 10)],
    };
    let mut transport = Transport::new();
    transport.add_receiver(10);
    transport.deliver(10, vec![1]);
    let mut links = vec![link(client(1), transport)];
    let received = read_client_packets(&map, &mut links);
    assert_eq!(received[0].len(), 1);
    assert_eq!(received[1].len(), 0);
}

#[test]
fn client_entities_are_checked() {
    assert!(ClientEntity::from_bits(0).is_none());
    assert!(ClientEntity::from_bits(0x7_0000_0000).is_none());
    for bits in [0, 1, 0xffff_ffff, 0x1_0000_0000, 0x1_0000_0001, u64::MAX] {
        assert_eq!(
            ClientEntity::from_bits(bits).is_some(),
            Entity::try_from_bits(bits).is_some()
        );
    }
    let entity = Entity::from_bits(0x7_0000_0009);
    let client = ClientEntity::from_bits(entity.to_bits()).unwrap();
    assert_eq!(client.bits(), 0x7_0000_0009);
}

#[test]
fn reopened_channels_keep_their_queues() {
    let mut transport = Transport::new();
    transport.add_receiver(1);
    transport.deliver(1, vec![8]);
    transport.add_receiver(1);
    assert_eq!(transport.read_message(1), Some(vec![8]));
    transport.add_sender(2);
    assert_eq!(transport.send_mut_erased(2, vec![9]), Ok(()));
    transport.add_sender(2);
    assert_eq!(transport.send_packet(2).unwrap().0, vec![vec![9]]);
    assert_eq!(
        transport.send_mut_erased(3, vec![9]),
        Err(TransportError::ChannelNotFound(3))
    );
}

#[derive(Debug, PartialEq)]
struct Ping(u8);

impl Message for Ping {}

fn serialize_ping(_: &mut ClientSendCtx, ping: &Ping, buffer: &mut Vec<u8>) -> BevyResult<()> {
    buffer.push(ping.0);
    Ok(())
}

fn deserialize_ping(_: &mut ServerReceiveCtx, message: &mut Bytes) -> BevyResult<Ping> {
    Ok(Ping(message[0]))
}

#[test]
fn received_packets_reach_replicon() {
    let mut app = App::new();
    app.add_plugins((TimePlugin, StatesPlugin, RepliconPlugins));
    app.add_client_message_with(Channel::Ordered, serialize_ping, deserialize_ping);
    app.insert_state(bevy_replicon::prelude::ServerState::Running);
    app.finish();
    app.cleanup();

    // The channel of the message is the last one that was registered.
    let count = app.world().resource::<RepliconChannels>().client_channels().len();
    let map = RepliconChannelMap {
        server_channels: Vec::new(),
        client_channels: (0..count).map(|index| (200, 10 + index as u16)).collect(),
    };
    let mut transport = Transport::new();
    transport.add_receiver(10 + count as u16 - 1);
    transport.deliver(10 + count as u16 - 1, vec![5]);
    transport.deliver(10 + count as u16 - 1, vec![6]);
    let entity = app.world_mut().spawn_empty().id();
    let mut links = vec![link(entity, transport)];

    let mut messages = app.world_mut().remove_resource::<ServerMessages>().unwrap();
    messages.send(entity, 0_usize, vec![1_u8]);
    assert_eq!(find_unread_beyond(&map, &links, count), None);
    receive_server_packets(&map, &mut messages, &mut links);
    // Nothing is delivered twice.
    receive_server_packets(&map, &mut messages, &mut links);
    assert_eq!(messages.drain_sent().count(), 1);
    app.insert_resource(messages);
    app.update();

    let mut pings = app.world_mut().resource_mut::<Messages<FromClient<Ping>>>();
    let received: Vec<(Entity, u8)> = pings
        .drain()
        .map(|ping| (ping.client_id.entity().unwrap(), ping.message.0))
        .collect();
    assert_eq!(received, vec![(entity, 5), (entity, 6)]);
}
