use lightyear_replication::server::on_client_connected;
use lightyear_replication::server::state_on_connect;
use lightyear_replication::server::sync_server_state;
use lightyear_replication::server::ClientInsert;
use lightyear_replication::server::ConnectionLink;
use lightyear_replication::server::LifecycleMarkers;
use lightyear_replication::server::ServerState;

fn update(entities: &Vec<LifecycleMarkers>, state: &mut ServerState) {
    if let Some(next) = sync_server_state(entities, *state) {
        *state = next;
    }
}

#[test]
fn non_server_stopped_marker_does_not_stop_local_sender() {
    let mut state = ServerState::Running;
    let entities = vec![LifecycleMarkers { server: false, started: false, stopped: true }];

    update(&entities, &mut state);
    update(&entities, &mut state);

    assert_eq!(state, ServerState::Running);
}

#[test]
fn stopped_server_entity_transitions_state_to_stopped() {
    let mut state = ServerState::Running;
    let entities = vec![LifecycleMarkers { server: true, started: false, stopped: true }];

    update(&entities, &mut state);
    update(&entities, &mut state);

    assert_eq!(state, ServerState::Stopped);
}

#[test]
fn started_server_wins_over_a_stopped_one() {
    let entities = vec![
        LifecycleMarkers { server: true, started: false, stopped: true },
        LifecycleMarkers { server: true, started: true, stopped: false },
    ];
    assert_eq!(
        sync_server_state(&entities, ServerState::Stopped),
        Some(ServerState::Running)
    );
    assert_eq!(sync_server_state(&entities, ServerState::Running), None);
}

#[test]
fn state_stays_without_markers() {
    let entities = vec![LifecycleMarkers { server: true, started: false, stopped: false }];
    assert_eq!(sync_server_state(&entities, ServerState::Running), None);
    assert_eq!(sync_server_state(&entities, ServerState::Stopped), None);
    assert_eq!(sync_server_state(&Vec::new(), ServerState::Running), None);
}

#[test]
fn non_server_started_marker_does_not_start() {
    let entities = vec![LifecycleMarkers { server: false, started: true, stopped: false }];
    assert_eq!(sync_server_state(&entities, ServerState::Stopped), None);
}

#[test]
fn remote_clients_become_packet_targets_and_host_clients_do_not() {
    let remote = ConnectionLink {
        entity: 11,
        newly_connected: true,
        client_of: true,
        host_client: false,
        remote_id: Some(77),
    };
    let host = ConnectionLink { entity: 12, host_client: true, ..remote };
    let earlier = ConnectionLink { entity: 13, newly_connected: false, ..remote };
    let no_client = ConnectionLink { entity: 14, client_of: false, ..remote };
    let no_id = ConnectionLink { entity: 15, remote_id: None, ..remote };
    let second = ConnectionLink { entity: 16, remote_id: Some(78), ..remote };

    let inserts = on_client_connected(&vec![host, remote, earlier, no_client, no_id, second]);

    assert_eq!(
        inserts,
        vec![
            ClientInsert::ConnectedClient { entity: 11, max_size: 1200, network_id: 77 },
            ClientInsert::ConnectedClient { entity: 16, max_size: 1200, network_id: 78 },
            ClientInsert::ClientVisibility { entity: 12 },
        ]
    );
}

#[test]
fn host_client_outside_the_client_list_still_gets_visibility() {
    let host = ConnectionLink {
        entity: 9,
        newly_connected: true,
        client_of: false,
        host_client: true,
        remote_id: None,
    };
    assert_eq!(
        on_client_connected(&vec![host]),
        vec![ClientInsert::ClientVisibility { entity: 9 }]
    );
}

#[test]
fn state_runs_when_a_client_connects_without_a_server() {
    let connected = ConnectionLink {
        entity: 9,
        newly_connected: true,
        client_of: false,
        host_client: false,
        remote_id: None,
    };
    let earlier = ConnectionLink { newly_connected: false, ..connected };
    let no_servers = vec![LifecycleMarkers { server: false, started: false, stopped: true }];

    let mut state = ServerState::Stopped;
    assert_eq!(state_on_connect(&vec![earlier], state), None);
    let next = state_on_connect(&vec![earlier, connected], state);
    assert_eq!(next, Some(ServerState::Running));
    state = next.unwrap();
    assert_eq!(state_on_connect(&vec![connected], state), None);

    // Without a server the state stays running.
    update(&no_servers, &mut state);
    assert_eq!(state, ServerState::Running);
    // A server that has only stopped is heard again.
    let stopped = vec![LifecycleMarkers { server: true, started: false, stopped: true }];
    update(&stopped, &mut state);
    assert_eq!(state, ServerState::Stopped);
    assert_eq!(state_on_connect(&Vec::new(), state), None);
}

#[test]
fn same_servers_ask_for_the_same_state() {
    let server = LifecycleMarkers { server: true, started: true, stopped: false };
    let other = LifecycleMarkers { server: false, started: false, stopped: true };
    for state in [ServerState::Stopped, ServerState::Running] {
        assert_eq!(
            sync_server_state(&vec![server], state),
            sync_server_state(&vec![other, server, other, server], state)
        );
    }
}
