//! The server's lifecycle, and what a client that connects gets.

use vstd::prelude::*;

use crate::checkpoint::MAX_PACKET_SIZE;

verus! {

/// Whether the server accepts and handles client connections.
#[derive(Debug, Clone, Copy, PartialEq, Eq, Structural)]
pub enum ServerState {
    /// It does not.
    Stopped,
    /// It does.
    Running,
}

/// The markers of an entity that decide the server's state.
#[derive(Debug, Clone, Copy, PartialEq, Eq, Structural)]
pub struct LifecycleMarkers {
    /// The entity is a server.
    pub server: bool,
    /// The entity has started.
    pub started: bool,
    /// The entity has stopped.
    pub stopped: bool,
}

/// Whether a server has started.
pub open spec fn server_started(entities: Seq<LifecycleMarkers>) -> bool {
    exists|at: int|
        0 <= at < entities.len() && (#[trigger] entities[at]).server && entities[at].started
}

/// Whether a server has stopped.
pub open spec fn server_stopped(entities: Seq<LifecycleMarkers>) -> bool {
    exists|at: int|
        0 <= at < entities.len() && (#[trigger] entities[at]).server && entities[at].stopped
}

/// The state that the entities ask for: running as soon as one server has started, stopped once
/// none has started and one has stopped, and the present state otherwise. Clients that connect are
/// the matter of [`state_on_connect`].
pub open spec fn wanted_state(entities: Seq<LifecycleMarkers>, state: ServerState) -> ServerState {
    if server_started(entities) {
        ServerState::Running
    } else if server_stopped(entities) {
        ServerState::Stopped
    } else {
        state
    }
}

/// Decides to which state the server moves; `None` where it stays in its state.
pub fn sync_server_state(entities: &Vec<LifecycleMarkers>, state: ServerState) -> (next: Option<
    ServerState,
>)
    ensures
        next == (if wanted_state(entities@, state) == state {
            None::<ServerState>
        } else {
            Some(wanted_state(entities@, state))
        }),
        next == Some(ServerState::Running) <==> state == ServerState::Stopped && exists|at: int|
            0 <= at < entities@.len() && (#[trigger] entities@[at]).server
                && entities@[at].started,
        next == Some(ServerState::Stopped) <==> state == ServerState::Running && (exists|at: int|
            0 <= at < entities@.len() && (#[trigger] entities@[at]).server
                && entities@[at].stopped) && forall|at: int|
            0 <= at < entities@.len() && (#[trigger] entities@[at]).server
                ==> !entities@[at].started,
{
    let mut started: bool = false;
    let mut stopped: bool = false;
    let mut at: usize = 0;
    while at < entities.len()
        invariant
            at <= entities@.len(),
            started == exists|seen: int|
                0 <= seen < at && (#[trigger] entities@[seen]).server && entities@[seen].started,
            stopped == exists|seen: int|
                0 <= seen < at && (#[trigger] entities@[seen]).server && entities@[seen].stopped,
        decreases entities@.len() - at,
    {
        let markers = entities[at];
        started = started || (markers.server && markers.started);
        stopped = stopped || (markers.server && markers.stopped);
        at = at + 1;
    }
    let mut next: Option<ServerState> = None;
    if started && state != ServerState::Running {
        next = Some(ServerState::Running);
    }
    if !started && stopped && state != ServerState::Stopped {
        next = Some(ServerState::Stopped);
    }
    next
}

/// One step is enough: in the state that the entities ask for, they ask for no other.
pub proof fn law_state_settles(entities: Seq<LifecycleMarkers>, state: ServerState)
    ensures
        wanted_state(entities, wanted_state(entities, state)) == wanted_state(entities, state),
{
}

/// Only servers have a say: two worlds with the same servers ask for the same state, whatever
/// markers their other entities have.
pub proof fn law_only_servers_count(
    a: Seq<LifecycleMarkers>,
    b: Seq<LifecycleMarkers>,
    state: ServerState,
)
    requires
        forall|markers: LifecycleMarkers|
            markers.server ==> (#[trigger] a.contains(markers) <==> b.contains(markers)),
    ensures
        wanted_state(a, state) == wanted_state(b, state),
{
    lemma_same_servers(a, b);
    lemma_same_servers(b, a);
}

proof fn lemma_same_servers(a: Seq<LifecycleMarkers>, b: Seq<LifecycleMarkers>)
    requires
        forall|markers: LifecycleMarkers|
            markers.server && #[trigger] a.contains(markers) ==> b.contains(markers),
    ensures
        server_started(a) ==> server_started(b),
        server_stopped(a) ==> server_stopped(b),
{
    if server_started(a) {
        let at = choose|at: int|
            0 <= at < a.len() && (#[trigger] a[at]).server && a[at].started;
        assert(a.contains(a[at]));
        let other = b.index_of(a[at]);
        assert(b[other].server && b[other].started);
    }
    if server_stopped(a) {
        let at = choose|at: int|
            0 <= at < a.len() && (#[trigger] a[at]).server && a[at].stopped;
        assert(a.contains(a[at]));
        let other = b.index_of(a[at]);
        assert(b[other].server && b[other].stopped);
    }
}

/// A server that has started keeps the state running, whichever other servers have stopped.
pub proof fn law_started_wins(entities: Seq<LifecycleMarkers>, state: ServerState, at: int)
    requires
        0 <= at < entities.len(),
        entities[at].server,
        entities[at].started,
    ensures
        wanted_state(entities, state) == ServerState::Running,
{
}

/// The link entity of a client, as far as connecting is concerned.
#[derive(Debug, Clone, Copy, PartialEq, Eq, Structural)]
pub struct ConnectionLink {
    /// The bits of the entity.
    pub entity: u64,
    /// Whether it has just connected.
    pub newly_connected: bool,
    /// Whether it is a client of a server.
    pub client_of: bool,
    /// Whether it is a client in the same world as the server.
    pub host_client: bool,
    /// The bits of the remote peer's id.
    pub remote_id: Option<u64>,
}

/// Whether a client has just connected.
pub open spec fn client_connected(links: Seq<ConnectionLink>) -> bool {
    exists|at: int| 0 <= at < links.len() && (#[trigger] links[at]).newly_connected
}

/// Decides to which state the server moves when clients connect: it runs as soon as one does,
/// even where no server has started; `None` where it stays in its state.
pub fn state_on_connect(links: &Vec<ConnectionLink>, state: ServerState) -> (next: Option<
    ServerState,
>)
    ensures
        next == (if client_connected(links@) && state != ServerState::Running {
            Some(ServerState::Running)
        } else {
            None::<ServerState>
        }),
        state_after_connect(links@, state) == (match next {
            Some(moved) => moved,
            None => state,
        }),
        next is Some <==> state == ServerState::Stopped && exists|at: int|
            0 <= at < links@.len() && (#[trigger] links@[at]).newly_connected,
        next is Some ==> next == Some(ServerState::Running),
{
    let mut at: usize = 0;
    while at < links.len()
        invariant
            at <= links@.len(),
            forall|seen: int| 0 <= seen < at ==> !(#[trigger] links@[seen]).newly_connected,
        decreases links@.len() - at,
    {
        if links[at].newly_connected {
            assert(client_connected(links@));
            if state != ServerState::Running {
                return Some(ServerState::Running);
            }
            return None;
        }
        at = at + 1;
    }
    None
}

/// The state after clients have connected.
pub open spec fn state_after_connect(
    links: Seq<ConnectionLink>,
    state: ServerState,
) -> ServerState {
    if client_connected(links) {
        ServerState::Running
    } else {
        state
    }
}

/// The server runs when a server starts or a client connects, whatever its state was. After a
/// client has connected the state stays running unless a server has stopped and none has started.
pub proof fn law_runs_when_server_starts_or_client_connects(
    entities: Seq<LifecycleMarkers>,
    links: Seq<ConnectionLink>,
    state: ServerState,
)
    ensures
        server_started(entities) ==> wanted_state(entities, state) == ServerState::Running,
        client_connected(links) ==> state_after_connect(links, state) == ServerState::Running,
        client_connected(links) && (server_started(entities) || !server_stopped(entities))
            ==> wanted_state(entities, state_after_connect(links, state)) == ServerState::Running,
{
}

/// What is inserted on the link entity of a client.
#[derive(Debug, Clone, Copy, PartialEq, Eq, Structural)]
pub enum ClientInsert {
    /// A remote client becomes a target of Replicon's packets.
    ConnectedClient {
        /// The bits of the entity.
        entity: u64,
        /// The largest message that is not split.
        max_size: usize,
        /// The number that identifies the client across reconnects.
        network_id: u64,
    },
    /// A host client only takes part in visibility.
    ClientVisibility {
        /// The bits of the entity.
        entity: u64,
    },
}

/// Whether a remote client has just connected over this link.
pub open spec fn is_new_remote(link: ConnectionLink) -> bool {
    link.newly_connected && link.client_of && !link.host_client && link.remote_id is Some
}

/// Whether a host client has just connected over this link.
pub open spec fn is_new_host(link: ConnectionLink) -> bool {
    link.newly_connected && link.host_client
}

/// What a remote client gets.
pub open spec fn remote_insert(link: ConnectionLink) -> ClientInsert {
    ClientInsert::ConnectedClient {
        entity: link.entity,
        max_size: MAX_PACKET_SIZE,
        network_id: link.remote_id->Some_0,
    }
}

/// What a host client gets.
pub open spec fn host_insert(link: ConnectionLink) -> ClientInsert {
    ClientInsert::ClientVisibility { entity: link.entity }
}

/// What is inserted for the remote clients that have just connected, in the order of the links.
pub open spec fn remote_inserts(links: Seq<ConnectionLink>) -> Seq<ClientInsert> {
    links.filter(|link: ConnectionLink| is_new_remote(link)).map_values(
        |link: ConnectionLink| remote_insert(link),
    )
}

/// What is inserted for the host clients that have just connected, in the order of the links.
pub open spec fn host_inserts(links: Seq<ConnectionLink>) -> Seq<ClientInsert> {
    links.filter(|link: ConnectionLink| is_new_host(link)).map_values(
        |link: ConnectionLink| host_insert(link),
    )
}

/// Decides what the clients that have just connected get: remote clients become targets of
/// Replicon's packets, host clients only take part in visibility. Host clients share the server's
/// world, and as packet targets might collide with the network id of a remote client.
pub fn on_client_connected(links: &Vec<ConnectionLink>) -> (inserts: Vec<ClientInsert>)
    ensures
        inserts@ == remote_inserts(links@) + host_inserts(links@),
        inserts@ == (links@.filter(
            |link: ConnectionLink|
                link.newly_connected && link.client_of && !link.host_client
                    && link.remote_id is Some,
        ).map_values(
            |link: ConnectionLink|
                ClientInsert::ConnectedClient {
                    entity: link.entity,
                    max_size: 1200,
                    network_id: link.remote_id->0,
                },
        ) + links@.filter(
            |link: ConnectionLink| link.newly_connected && link.host_client,
        ).map_values(
            |link: ConnectionLink| ClientInsert::ClientVisibility { entity: link.entity },
        )),
{
    let mut inserts: Vec<ClientInsert> = Vec::new();
    let mut at: usize = 0;
    proof {
        lemma_inserts_of_nothing();
        assert(links@.take(0) =~= Seq::empty());
    }
    while at < links.len()
        invariant
            at <= links@.len(),
            inserts@ == remote_inserts(links@.take(at as int)),
        decreases links@.len() - at,
    {
        proof {
            lemma_inserts_of_more(links@.take(at as int), links@[at as int]);
            assert(links@.take(at + 1) =~= links@.take(at as int).push(links@[at as int]));
        }
        let link = links[at];
        if link.newly_connected && link.client_of && !link.host_client {
            if let Some(remote_id) = link.remote_id {
                inserts.push(
                    ClientInsert::ConnectedClient {
                        entity: link.entity,
                        max_size: MAX_PACKET_SIZE,
                        network_id: remote_id,
                    },
                );
            }
        }
        at = at + 1;
    }
    at = 0;
    proof {
        assert(links@.take(links@.len() as int) =~= links@);
        assert(inserts@ =~= remote_inserts(links@) + host_inserts(links@.take(0)));
    }
    while at < links.len()
        invariant
            at <= links@.len(),
            inserts@ == remote_inserts(links@) + host_inserts(links@.take(at as int)),
        decreases links@.len() - at,
    {
        proof {
            lemma_inserts_of_more(links@.take(at as int), links@[at as int]);
            assert(links@.take(at + 1) =~= links@.take(at as int).push(links@[at as int]));
        }
        let link = links[at];
        if link.newly_connected && link.host_client {
            inserts.push(ClientInsert::ClientVisibility { entity: link.entity });
        }
        assert(inserts@ =~= remote_inserts(links@) + host_inserts(links@.take(at + 1)));
        at = at + 1;
    }
    assert(links@.take(links@.len() as int) =~= links@);
    proof {
        law_inserts_in_order(links@);
    }
    inserts
}

/// The inserts come in the order of the links, those of the remote clients first: a remote client
/// gets the packet budget and the bits of its remote id, a host client visibility only, and nobody
/// gets anything twice.
pub proof fn law_inserts_in_order(links: Seq<ConnectionLink>)
    ensures
        remote_inserts(links) + host_inserts(links) == (links.filter(
            |link: ConnectionLink|
                link.newly_connected && link.client_of && !link.host_client
                    && link.remote_id is Some,
        ).map_values(
            |link: ConnectionLink|
                ClientInsert::ConnectedClient {
                    entity: link.entity,
                    max_size: 1200,
                    network_id: link.remote_id->0,
                },
        ) + links.filter(
            |link: ConnectionLink| link.newly_connected && link.host_client,
        ).map_values(
            |link: ConnectionLink| ClientInsert::ClientVisibility { entity: link.entity },
        )),
    decreases links.len(),
{
    let is_remote = |link: ConnectionLink|
        link.newly_connected && link.client_of && !link.host_client && link.remote_id is Some;
    let is_host = |link: ConnectionLink| link.newly_connected && link.host_client;
    lemma_same_filter(links, is_remote, |link: ConnectionLink| is_new_remote(link));
    lemma_same_filter(links, is_host, |link: ConnectionLink| is_new_host(link));
    assert(remote_inserts(links) =~= links.filter(is_remote).map_values(
        |link: ConnectionLink|
            ClientInsert::ConnectedClient {
                entity: link.entity,
                max_size: 1200,
                network_id: link.remote_id->0,
            },
    ));
    assert(host_inserts(links) =~= links.filter(is_host).map_values(
        |link: ConnectionLink| ClientInsert::ClientVisibility { entity: link.entity },
    ));
}

proof fn lemma_same_filter(
    links: Seq<ConnectionLink>,
    a: spec_fn(ConnectionLink) -> bool,
    b: spec_fn(ConnectionLink) -> bool,
)
    requires
        forall|link: ConnectionLink| #[trigger] a(link) == b(link),
    ensures
        links.filter(a) == links.filter(b),
    decreases links.len(),
{
    reveal(Seq::filter);
    if links.len() > 0 {
        lemma_same_filter(links.drop_last(), a, b);
    }
}

/// Every packet target is a remote client that has just connected over a link of the same entity,
/// and its network id is exactly the link's remote id, its budget that of a packet.
pub proof fn law_network_id_is_the_remote_id(
    links: Seq<ConnectionLink>,
    position: int,
    entity: u64,
    max_size: usize,
    network_id: u64,
)
    requires
        0 <= position < (remote_inserts(links) + host_inserts(links)).len(),
        (remote_inserts(links) + host_inserts(links))[position] == (
        ClientInsert::ConnectedClient { entity, max_size, network_id }),
    ensures
        max_size == 1200,
        exists|at: int|
            {
                &&& 0 <= at < links.len()
                &&& (#[trigger] links[at]).entity == entity
                &&& links[at].remote_id == Some(network_id)
                &&& links[at].newly_connected
                &&& links[at].client_of
                &&& !links[at].host_client
            },
{
    law_inserts_belong_to_new_links(links, position);
    let at = choose|at: int|
        0 <= at < links.len() && is_insert_for(
            #[trigger] links[at],
            (remote_inserts(links) + host_inserts(links))[position],
        );
    assert(links[at].remote_id == Some(network_id));
}

/// Every remote client that has just connected becomes a packet target under its own remote id,
/// and every host client that has just connected gets visibility.
pub proof fn law_new_clients_get_their_inserts(links: Seq<ConnectionLink>, at: int)
    requires
        0 <= at < links.len(),
        links[at].newly_connected,
    ensures
        links[at].client_of && !links[at].host_client && links[at].remote_id is Some ==> (
        remote_inserts(links) + host_inserts(links)).contains(
            ClientInsert::ConnectedClient {
                entity: links[at].entity,
                max_size: 1200,
                network_id: links[at].remote_id->0,
            },
        ),
        links[at].host_client ==> (remote_inserts(links) + host_inserts(links)).contains(
            ClientInsert::ClientVisibility { entity: links[at].entity },
        ),
{
    law_new_links_are_served(links, at);
}

/// Remote clients with different remote ids never share a network id: where every link has an
/// entity of its own, the packet targets of two links have the same network id if and only if the
/// links have the same remote id.
pub proof fn law_network_ids_tell_remote_clients_apart(
    links: Seq<ConnectionLink>,
    a: int,
    b: int,
    max_size: usize,
    id_a: u64,
    id_b: u64,
)
    requires
        0 <= a < links.len(),
        0 <= b < links.len(),
        forall|at: int, other: int|
            0 <= at < other < links.len() ==> (#[trigger] links[at]).entity != (
            #[trigger] links[other]).entity,
        (remote_inserts(links) + host_inserts(links)).contains(
            ClientInsert::ConnectedClient {
                entity: links[a].entity,
                max_size,
                network_id: id_a,
            },
        ),
        (remote_inserts(links) + host_inserts(links)).contains(
            ClientInsert::ConnectedClient {
                entity: links[b].entity,
                max_size,
                network_id: id_b,
            },
        ),
    ensures
        id_a == id_b <==> links[a].remote_id == links[b].remote_id,
{
    let inserts = remote_inserts(links) + host_inserts(links);
    let insert_a = ClientInsert::ConnectedClient {
        entity: links[a].entity,
        max_size,
        network_id: id_a,
    };
    let insert_b = ClientInsert::ConnectedClient {
        entity: links[b].entity,
        max_size,
        network_id: id_b,
    };
    law_network_id_is_the_remote_id(
        links,
        inserts.index_of(insert_a),
        links[a].entity,
        max_size,
        id_a,
    );
    law_network_id_is_the_remote_id(
        links,
        inserts.index_of(insert_b),
        links[b].entity,
        max_size,
        id_b,
    );
}

proof fn lemma_inserts_of_nothing()
    ensures
        remote_inserts(Seq::empty()) == Seq::<ClientInsert>::empty(),
        host_inserts(Seq::empty()) == Seq::<ClientInsert>::empty(),
{
    reveal(Seq::filter);
    assert(remote_inserts(Seq::empty()) =~= Seq::<ClientInsert>::empty());
    assert(host_inserts(Seq::empty()) =~= Seq::<ClientInsert>::empty());
}

proof fn lemma_inserts_of_more(links: Seq<ConnectionLink>, link: ConnectionLink)
    ensures
        remote_inserts(links.push(link)) == (if is_new_remote(link) {
            remote_inserts(links).push(remote_insert(link))
        } else {
            remote_inserts(links)
        }),
        host_inserts(links.push(link)) == (if is_new_host(link) {
            host_inserts(links).push(host_insert(link))
        } else {
            host_inserts(links)
        }),
{
    reveal(Seq::filter);
    assert(links.push(link).drop_last() =~= links);
    assert(remote_inserts(links.push(link)) =~= if is_new_remote(link) {
        remote_inserts(links).push(remote_insert(link))
    } else {
        remote_inserts(links)
    });
    assert(host_inserts(links.push(link)) =~= if is_new_host(link) {
        host_inserts(links).push(host_insert(link))
    } else {
        host_inserts(links)
    });
}

/// Whether an insert is what a link that has just connected gets.
pub open spec fn is_insert_for(link: ConnectionLink, insert: ClientInsert) -> bool {
    ||| is_new_remote(link) && insert == remote_insert(link)
    ||| is_new_host(link) && insert == host_insert(link)
}

/// Only links that have just connected get something, and each gets what its kind of client is
/// due.
pub proof fn law_inserts_belong_to_new_links(links: Seq<ConnectionLink>, position: int)
    requires
        0 <= position < (remote_inserts(links) + host_inserts(links)).len(),
    ensures
        exists|at: int|
            0 <= at < links.len() && is_insert_for(
                #[trigger] links[at],
                (remote_inserts(links) + host_inserts(links))[position],
            ),
{
    let is_remote = |link: ConnectionLink| is_new_remote(link);
    let is_host = |link: ConnectionLink| is_new_host(link);
    let remotes = links.filter(is_remote);
    let hosts = links.filter(is_host);
    if position < remotes.len() {
        links.lemma_filter_pred(is_remote, position);
        lemma_filtered_from(links, is_remote, remotes[position]);
    } else {
        links.lemma_filter_pred(is_host, position - remotes.len());
        lemma_filtered_from(links, is_host, hosts[position - remotes.len()]);
    }
}

/// Every link over which a client has just connected gets what its kind of client is due.
pub proof fn law_new_links_are_served(links: Seq<ConnectionLink>, at: int)
    requires
        0 <= at < links.len(),
    ensures
        is_new_remote(links[at]) ==> (remote_inserts(links) + host_inserts(links)).contains(
            remote_insert(links[at]),
        ),
        is_new_host(links[at]) ==> (remote_inserts(links) + host_inserts(links)).contains(
            host_insert(links[at]),
        ),
{
    let is_remote = |link: ConnectionLink| is_new_remote(link);
    let is_host = |link: ConnectionLink| is_new_host(link);
    let remotes = links.filter(is_remote);
    let hosts = links.filter(is_host);
    let inserts = remote_inserts(links) + host_inserts(links);
    if is_new_remote(links[at]) {
        links.lemma_filter_contains(is_remote, at);
        let position = remotes.index_of(links[at]);
        assert(inserts[position] == remote_insert(links[at]));
    }
    if is_new_host(links[at]) {
        links.lemma_filter_contains(is_host, at);
        let position = hosts.index_of(links[at]);
        assert(inserts[remotes.len() + position] == host_insert(links[at]));
    }
}

/// A host client never becomes a target of Replicon's packets.
pub proof fn law_host_clients_are_no_packet_targets(
    links: Seq<ConnectionLink>,
    at: int,
    position: int,
)
    requires
        0 <= at < links.len(),
        links[at].host_client,
        forall|other: int|
            0 <= other < links.len() && other != at ==> (#[trigger] links[other]).entity
                != links[at].entity,
        0 <= position < (remote_inserts(links) + host_inserts(links)).len(),
    ensures
        (remote_inserts(links) + host_inserts(links))[position] matches ClientInsert::ConnectedClient {
            entity,
            ..
        } ==> entity != links[at].entity,
{
    law_inserts_belong_to_new_links(links, position);
}

proof fn lemma_filtered_from(
    links: Seq<ConnectionLink>,
    wanted: spec_fn(ConnectionLink) -> bool,
    link: ConnectionLink,
)
    requires
        links.filter(wanted).contains(link),
    ensures
        links.contains(link),
    decreases links.len(),
{
    reveal(Seq::filter);
    if links.len() > 0 {
        let fewer = links.drop_last();
        if links.last() == link {
            assert(links[links.len() - 1] == link);
        } else {
            let all = links.filter(wanted);
            let position = all.index_of(link);
            assert(fewer.filter(wanted)[position] == link);
            lemma_filtered_from(fewer, wanted, link);
            let at = fewer.index_of(link);
            assert(links[at] == link);
        }
    }
}

/// The server moves to running as soon as one entity that is a server has started, to stopped if
/// none has started and one has stopped, and stays in its state otherwise.
pub proof fn law_servers_decide_the_state(
    entities: Seq<LifecycleMarkers>,
    state: ServerState,
    at: int,
)
    requires
        0 <= at < entities.len(),
    ensures
        entities[at].server && entities[at].started ==> wanted_state(entities, state)
            == ServerState::Running,
        entities[at].server && entities[at].stopped && (forall|other: int|
            0 <= other < entities.len() && (#[trigger] entities[other]).server
                ==> !entities[other].started) ==> wanted_state(entities, state)
            == ServerState::Stopped,
        (forall|other: int|
            0 <= other < entities.len() && (#[trigger] entities[other]).server
                ==> !entities[other].started && !entities[other].stopped) ==> wanted_state(
            entities,
            state,
        ) == state,
{
}

/// Without entities the server stays in its state.
pub proof fn law_nobody_moves_the_state(state: ServerState)
    ensures
        wanted_state(Seq::empty(), state) == state,
        state_after_connect(Seq::empty(), state) == state,
{
}

/// The server runs after any link has just connected, and stays in its state where none has.
pub proof fn law_any_new_link_lets_the_server_run(links: Seq<ConnectionLink>, state: ServerState)
    ensures
        (exists|at: int| 0 <= at < links.len() && (#[trigger] links[at]).newly_connected)
            ==> state_after_connect(links, state) == ServerState::Running,
        (forall|at: int| 0 <= at < links.len() ==> !(#[trigger] links[at]).newly_connected)
            ==> state_after_connect(links, state) == state,
{
}

} // verus!
