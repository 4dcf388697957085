use lightyear_replication::simple_box::action_prespawn_hash;
use lightyear_replication::simple_box::applies_client_input;
use lightyear_replication::simple_box::applies_server_input;
use lightyear_replication::simple_box::connected_player_action;
use lightyear_replication::simple_box::handle_connected;
use lightyear_replication::simple_box::handle_controlled_spawn;
use lightyear_replication::simple_box::spawn_action_entities;
use lightyear_replication::simple_box::ControlledPlayer;
use lightyear_replication::simple_box::ControlledSpawn;
use lightyear_replication::simple_box::NetworkTarget;

#[test]
fn prespawn_hash_is_a_wrapping_product() {
    assert_eq!(action_prespawn_hash(0, 1), 1);
    assert_eq!(action_prespawn_hash(1, 1), 6364136223846793006);
    assert_eq!(action_prespawn_hash(2, 0), 12728272447693586010);
    assert_eq!(action_prespawn_hash(3, 0), 645664597830827399);
    assert_eq!(action_prespawn_hash(u64::MAX, 1), 12082607849862758612);
    assert_ne!(action_prespawn_hash(4, 1), action_prespawn_hash(5, 1));
}

#[test]
fn client_and_server_hash_the_same_action() {
    let server = spawn_action_entities(20, 6, true);
    let client = spawn_action_entities(31, 6, false);
    assert_eq!(server.hash, client.hash);
    assert_eq!(server.replicate, Some(NetworkTarget::Single(6)));
    assert_eq!(server.receiver, None);
    assert!(server.server_action && !server.input_marker);
    assert_eq!(client.replicate, None);
    assert_eq!(client.receiver, Some(31));
    assert!(!client.server_action && client.input_marker);
}

#[test]
fn host_input_is_applied_once() {
    for spawned_by_server in [false, true] {
        let action = spawn_action_entities(8, 6, spawned_by_server);
        let client = applies_client_input(true, true, action.replicate.is_some(), true);
        let server = applies_server_input(true, action.server_action, false, true);
        assert_ne!(client, server);
    }
    assert!(!applies_client_input(false, false, false, true));
    assert!(!applies_client_input(true, false, false, false));
    assert!(applies_client_input(true, false, true, true));
    assert!(applies_server_input(false, false, true, true));
    assert!(!applies_server_input(true, true, true, true));
    assert!(!applies_server_input(false, true, false, false));
}

#[test]
fn connected_client_gets_a_player() {
    let spawn = handle_connected(40, Some(6)).unwrap();
    assert_eq!(spawn.client_id, 6);
    assert_eq!(spawn.owner, 40);
    assert_eq!(spawn.replicate, NetworkTarget::All);
    assert_eq!(spawn.prediction, NetworkTarget::Single(6));
    assert_eq!(spawn.interpolation, NetworkTarget::AllExceptSingle(6));
    assert_eq!(handle_connected(40, None), None);
}

#[test]
fn connected_client_gets_the_servers_action() {
    let spawn = handle_connected(40, Some(6)).unwrap();
    let action = connected_player_action(&spawn, 41);
    assert_eq!(action, spawn_action_entities(41, 6, true));
    assert_eq!(action.player, 41);
    assert_eq!(action.hash, action_prespawn_hash(6, 1));
    assert_eq!(action.replicate, Some(NetworkTarget::Single(6)));
    assert!(action.server_action);
}

#[test]
fn controlled_player_gets_inputs_once() {
    let player = ControlledPlayer { client_id: 6, has_input_marker: false, owner: Some(3) };
    let nothing = ControlledSpawn { insert_input_marker: false, action: None };

    let spawn = handle_controlled_spawn(8, Some(player), &vec![2, 3], &vec![7]);
    assert!(spawn.insert_input_marker);
    assert_eq!(spawn.action, Some(spawn_action_entities(8, 6, false)));
    let spawn = handle_controlled_spawn(8, Some(player), &vec![2, 3], &vec![7, 8]);
    assert_eq!(spawn, ControlledSpawn { insert_input_marker: true, action: None });

    assert_eq!(handle_controlled_spawn(8, None, &vec![3], &vec![]), nothing);
    assert_eq!(handle_controlled_spawn(8, Some(player), &vec![2], &vec![]), nothing);
    let marked = ControlledPlayer { client_id: 6, has_input_marker: true, owner: None };
    assert_eq!(handle_controlled_spawn(8, Some(marked), &vec![], &vec![]), nothing);
    let free = ControlledPlayer { client_id: 6, has_input_marker: false, owner: None };
    assert!(handle_controlled_spawn(8, Some(free), &vec![], &vec![]).insert_input_marker);
}
