//! The decisions of the `simple_box` demo, in which every client moves a box.

use vstd::arithmetic::div_mod;
use vstd::prelude::*;

verus! {

/// Whom something is sent to, among the peers of a server.
#[derive(Debug, Clone, Copy, PartialEq, Eq, Structural)]
pub enum NetworkTarget {
    /// Every peer.
    All,
    /// The peer with these id bits.
    Single(u64),
    /// Every peer but the one with these id bits.
    AllExceptSingle(u64),
}

/// Whether a target comprises a peer.
pub open spec fn targets(target: NetworkTarget, peer: u64) -> bool {
    match target {
        NetworkTarget::All => true,
        NetworkTarget::Single(single) => peer == single,
        NetworkTarget::AllExceptSingle(single) => peer != single,
    }
}

/// The factor that spreads the id bits of a client over a hash.
pub const HASH_FACTOR: u64 = 6364136223846793005;

/// The hash of an action entity of a client.
pub open spec fn prespawn_hash(client_id: u64, salt: u64) -> int {
    (client_id * HASH_FACTOR + salt) % 0x1_0000_0000_0000_0000
}

/// A hash by which client and server recognise the same action entity, whenever each of them has
/// spawned it.
pub fn action_prespawn_hash(client_id: u64, salt: u64) -> (hash: u64)
    ensures
        hash == prespawn_hash(client_id, salt),
        hash == (client_id * 6364136223846793005 + salt) % 0x1_0000_0000_0000_0000,
{
    let spread: u64 = client_id.wrapping_mul(HASH_FACTOR);
    let hash: u64 = spread.wrapping_add(salt);
    proof {
        let modulus: int = 0x1_0000_0000_0000_0000;
        assert(spread == (client_id * HASH_FACTOR) % modulus);
        assert(hash == (spread + salt) % modulus);
        div_mod::lemma_add_mod_noop(client_id * HASH_FACTOR, salt as int, modulus);
        div_mod::lemma_add_mod_noop(spread as int, salt as int, modulus);
        div_mod::lemma_mod_twice(client_id * HASH_FACTOR, modulus);
    }
    hash
}

/// The action entities of different clients never share a hash under the same salt.
pub proof fn law_clients_have_different_hashes(a: u64, b: u64, salt: u64)
    requires
        prespawn_hash(a, salt) == prespawn_hash(b, salt),
    ensures
        a == b,
{
    let modulus: int = 0x1_0000_0000_0000_0000;
    // The factor is odd, so it has an inverse: `factor * inverse == 1 + excess * modulus`.
    let factor: int = HASH_FACTOR as int;
    let inverse: int = 13877824140714322085;
    let excess: int = 4787856489426250814;
    assert(factor * inverse == 1 + excess * modulus);
    div_mod::lemma_fundamental_div_mod(a * factor + salt, modulus);
    div_mod::lemma_fundamental_div_mod(b * factor + salt, modulus);
    let difference = a - b;
    let quotient = (a * factor + salt) / modulus - (b * factor + salt) / modulus;
    assert(difference * factor == modulus * quotient) by (nonlinear_arith)
        requires
            difference == a - b,
            a * factor + salt == modulus * ((a * factor + salt) / modulus) + (a * factor + salt)
                % modulus,
            b * factor + salt == modulus * ((b * factor + salt) / modulus) + (b * factor + salt)
                % modulus,
            (a * factor + salt) % modulus == (b * factor + salt) % modulus,
            quotient == (a * factor + salt) / modulus - (b * factor + salt) / modulus,
    ;
    let multiple = quotient * inverse - excess * difference;
    assert(difference == modulus * multiple) by (nonlinear_arith)
        requires
            difference * factor == modulus * quotient,
            factor * inverse == 1 + excess * modulus,
            multiple == quotient * inverse - excess * difference,
    ;
}

/// When the client applies a movement input. The client knows the server's copy of an action by
/// its being replicated.
pub open spec fn client_applies(
    client_synced: bool,
    is_host_server: bool,
    action_is_replicated: bool,
    predicts_target: bool,
) -> bool {
    client_synced && !(is_host_server && action_is_replicated) && predicts_target
}

/// When the server applies a movement input. The server knows its own copy of an action by the
/// mark that it has put on it.
pub open spec fn server_applies(
    is_host_server: bool,
    is_server_action: bool,
    host_client_controls: bool,
    target_has_position: bool,
) -> bool {
    (is_host_server ==> is_server_action && !host_client_controls) && target_has_position
}

/// Whether the client applies a movement input: not before it is synced, and in a host server not
/// for an action that is replicated, which is the server's copy.
pub fn applies_client_input(
    client_synced: bool,
    is_host_server: bool,
    action_is_replicated: bool,
    predicts_target: bool,
) -> (applies: bool)
    ensures
        applies == client_applies(
            client_synced,
            is_host_server,
            action_is_replicated,
            predicts_target,
        ),
        !client_synced ==> !applies,
        client_synced && !is_host_server ==> applies == predicts_target,
        client_synced && is_host_server ==> (applies <==> !action_is_replicated
            && predicts_target),
{
    if !client_synced {
        return false;
    }
    if is_host_server && action_is_replicated {
        return false;
    }
    predicts_target
}

/// Whether the server applies a movement input: in a host server only for an action that bears
/// the server's mark, and not for a box that a host client controls.
pub fn applies_server_input(
    is_host_server: bool,
    is_server_action: bool,
    host_client_controls: bool,
    target_has_position: bool,
) -> (applies: bool)
    ensures
        applies == server_applies(
            is_host_server,
            is_server_action,
            host_client_controls,
            target_has_position,
        ),
        !is_host_server ==> applies == target_has_position,
        is_host_server ==> (applies <==> is_server_action && !host_client_controls
            && target_has_position),
{
    if is_host_server && !is_server_action {
        return false;
    }
    if is_host_server && host_client_controls {
        return false;
    }
    target_has_position
}

/// In a host server an action entity never counts on both sides: an input that the client applies
/// for it, the server leaves alone. The client goes by whether the entity is replicated, the
/// server by its mark, and every entity that is spawned has either both or none of the two.
pub proof fn law_host_input_is_applied_once(
    player: u64,
    client_id: u64,
    spawned_by_server: bool,
    client_synced: bool,
    host_client_controls: bool,
    predicts_target: bool,
    target_has_position: bool,
)
    ensures
        action_of(player, client_id, spawned_by_server).replicate is Some <==> action_of(
            player,
            client_id,
            spawned_by_server,
        ).server_action,
        !(client_applies(
            client_synced,
            true,
            action_of(player, client_id, spawned_by_server).replicate is Some,
            predicts_target,
        ) && server_applies(
            true,
            action_of(player, client_id, spawned_by_server).server_action,
            host_client_controls,
            target_has_position,
        )),
{
}

/// A player entity that has come under a client's control.
#[derive(Debug, Clone, Copy, PartialEq, Eq, Structural)]
pub struct ControlledPlayer {
    /// The id bits of the player's client.
    pub client_id: u64,
    /// Whether it takes the inputs of this client already.
    pub has_input_marker: bool,
    /// The bits of the entity that controls it.
    pub owner: Option<u64>,
}

/// What a player entity that has come under control gets.
#[derive(Debug, Clone, Copy, PartialEq, Eq, Structural)]
pub struct ControlledSpawn {
    /// It takes the inputs of this client from now on.
    pub insert_input_marker: bool,
    /// The action entity that is spawned for it.
    pub action: Option<ActionSpawn>,
}

/// Whether a player entity is to take the inputs of this client: it has no marker yet, and its
/// owner, where it has one, is one of the clients here.
pub open spec fn takes_inputs(player: Option<ControlledPlayer>, clients: Seq<u64>) -> bool {
    &&& player matches Some(controlled)
    &&& !controlled.has_input_marker
    &&& controlled.owner matches Some(owner) ==> clients.contains(owner)
}

/// Decides what an entity that has come under control gets. The client's action entity is spawned
/// only where none is there for the player yet.
pub fn handle_controlled_spawn(
    entity: u64,
    player: Option<ControlledPlayer>,
    clients: &Vec<u64>,
    action_targets: &Vec<u64>,
) -> (spawn: ControlledSpawn)
    ensures
        spawn.insert_input_marker == takes_inputs(player, clients@),
        spawn.action == (if takes_inputs(player, clients@) && !action_targets@.contains(entity) {
            Some(action_of(entity, player->Some_0.client_id, false))
        } else {
            None::<ActionSpawn>
        }),
        spawn.insert_input_marker <==> player is Some && !player->Some_0.has_input_marker && (
        player->Some_0.owner is Some ==> clients@.contains(player->Some_0.owner->Some_0)),
        spawn.action is Some <==> spawn.insert_input_marker && !action_targets@.contains(entity),
        spawn.action matches Some(action) ==> {
            &&& action.player == entity
            &&& action.hash == (player->Some_0.client_id * 6364136223846793005 + 1)
                % 0x1_0000_0000_0000_0000
            &&& action.receiver == Some(entity)
            &&& action.replicate is None
            &&& !action.server_action
            &&& action.input_marker
        },
{
    let nothing = ControlledSpawn { insert_input_marker: false, action: None };
    match player {
        None => nothing,
        Some(controlled) => {
            if let Some(owner) = controlled.owner {
                if !contains(clients, owner) {
                    return nothing;
                }
            }
            if controlled.has_input_marker {
                return nothing;
            }
            let action = if contains(action_targets, entity) {
                None
            } else {
                Some(spawn_action_entities(entity, controlled.client_id, false))
            };
            ControlledSpawn { insert_input_marker: true, action }
        },
    }
}

fn contains(entities: &Vec<u64>, entity: u64) -> (found: bool)
    ensures
        found == entities@.contains(entity),
{
    let mut at: usize = 0;
    while at < entities.len()
        invariant
            at <= entities@.len(),
            forall|seen: int| 0 <= seen < at ==> #[trigger] entities@[seen] != entity,
        decreases entities@.len() - at,
    {
        if entities[at] == entity {
            return true;
        }
        at = at + 1;
    }
    false
}

/// The player entity of a client.
#[derive(Debug, Clone, Copy, PartialEq, Eq, Structural)]
pub struct PlayerSpawn {
    /// The id bits of the client.
    pub client_id: u64,
    /// Who sees the player.
    pub replicate: NetworkTarget,
    /// Who predicts it.
    pub prediction: NetworkTarget,
    /// Who interpolates it.
    pub interpolation: NetworkTarget,
    /// The bits of the link entity that controls it.
    pub owner: u64,
}

/// Decides which player a link entity that has connected gets; `None` where the entity is no
/// client of the server.
pub fn handle_connected(link: u64, client_id: Option<u64>) -> (spawn: Option<PlayerSpawn>)
    ensures
        spawn == (match client_id {
            Some(id) => Some(player_of(link, id)),
            None => None,
        }),
        spawn is Some <==> client_id is Some,
        spawn matches Some(player) ==> {
            &&& client_id == Some(player.client_id)
            &&& player.replicate == NetworkTarget::All
            &&& player.prediction == NetworkTarget::Single(player.client_id)
            &&& player.interpolation == NetworkTarget::AllExceptSingle(player.client_id)
            &&& player.owner == link
        },
{
    match client_id {
        None => None,
        Some(id) => Some(
            PlayerSpawn {
                client_id: id,
                replicate: NetworkTarget::All,
                prediction: NetworkTarget::Single(id),
                interpolation: NetworkTarget::AllExceptSingle(id),
                owner: link,
            },
        ),
    }
}

/// The player of a client: all see it, the client itself predicts it, and the others interpolate
/// it.
pub open spec fn player_of(link: u64, client_id: u64) -> PlayerSpawn {
    PlayerSpawn {
        client_id,
        replicate: NetworkTarget::All,
        prediction: NetworkTarget::Single(client_id),
        interpolation: NetworkTarget::AllExceptSingle(client_id),
        owner: link,
    }
}

/// Every peer sees a player, and either predicts or interpolates it, never both; only the
/// player's own client predicts it.
pub proof fn law_peers_predict_or_interpolate(link: u64, client_id: u64, peer: u64)
    ensures
        targets(player_of(link, client_id).replicate, peer),
        targets(player_of(link, client_id).prediction, peer) <==> !targets(
            player_of(link, client_id).interpolation,
            peer,
        ),
        targets(player_of(link, client_id).prediction, peer) <==> peer == client_id,
{
}

/// The action entity of a player.
#[derive(Debug, Clone, Copy, PartialEq, Eq, Structural)]
pub struct ActionSpawn {
    /// The bits of the player entity.
    pub player: u64,
    /// The hash by which client and server recognise the entity.
    pub hash: u64,
    /// The entity that the prespawned match belongs to, on the client.
    pub receiver: Option<u64>,
    /// Whom the server replicates the entity to.
    pub replicate: Option<NetworkTarget>,
    /// Whether it is the server's copy of the action.
    pub server_action: bool,
    /// Whether it takes the inputs of this client.
    pub input_marker: bool,
}

/// The action entity of a player. The server replicates its copy to the player's client and marks
/// it as its own; the client's copy is a stable input target of the player.
pub open spec fn action_of(player: u64, client_id: u64, is_server: bool) -> ActionSpawn {
    ActionSpawn {
        player,
        hash: prespawn_hash(client_id, 1) as u64,
        receiver: if is_server {
            None
        } else {
            Some(player)
        },
        replicate: if is_server {
            Some(NetworkTarget::Single(client_id))
        } else {
            None
        },
        server_action: is_server,
        input_marker: !is_server,
    }
}

/// Decides how the action entity of a player is spawned, on the server and on the client.
pub fn spawn_action_entities(player: u64, client_id: u64, is_server: bool) -> (action: ActionSpawn)
    ensures
        action == action_of(player, client_id, is_server),
        action.hash == prespawn_hash(client_id, 1),
        action.player == player,
        action.hash == (client_id * 6364136223846793005 + 1) % 0x1_0000_0000_0000_0000,
        is_server ==> action.receiver is None && action.replicate == Some(
            NetworkTarget::Single(client_id),
        ) && action.server_action && !action.input_marker,
        !is_server ==> action.receiver == Some(player) && action.replicate is None
            && !action.server_action && action.input_marker,
{
    let hash: u64 = action_prespawn_hash(client_id, 1);
    if is_server {
        ActionSpawn {
            player,
            hash,
            receiver: None,
            replicate: Some(NetworkTarget::Single(client_id)),
            server_action: true,
            input_marker: false,
        }
    } else {
        ActionSpawn {
            player,
            hash,
            receiver: Some(player),
            replicate: None,
            server_action: false,
            input_marker: true,
        }
    }
}

/// Decides which action entity the server spawns for the player of a client that has connected,
/// once the player entity is there.
pub fn connected_player_action(spawn: &PlayerSpawn, player: u64) -> (action: ActionSpawn)
    ensures
        action == action_of(player, spawn.client_id, true),
        action.player == player,
        action.hash == (spawn.client_id * 6364136223846793005 + 1) % 0x1_0000_0000_0000_0000,
        action.receiver is None,
        action.replicate == Some(NetworkTarget::Single(spawn.client_id)),
        action.server_action,
        !action.input_marker,
{
    spawn_action_entities(player, spawn.client_id, true)
}

/// The server's and the client's copy of an action have the same hash, whichever entities the
/// players are, and the server's copy goes to the player's own client, the one that predicts the
/// player, and to no other peer.
pub proof fn law_action_copies_match(
    link: u64,
    server_player: u64,
    client_player: u64,
    client_id: u64,
    peer: u64,
)
    ensures
        action_of(server_player, player_of(link, client_id).client_id, true).hash == action_of(
            client_player,
            client_id,
            false,
        ).hash,
        action_of(server_player, player_of(link, client_id).client_id, true).replicate
            matches Some(target) && (targets(target, peer) <==> targets(
            player_of(link, client_id).prediction,
            peer,
        )),
{
}

/// Outside a host server the server applies an input if and only if its target has a position:
/// the marks of the action and whoever controls the player make no difference. In a host server
/// it applies the inputs of its own actions, on players with a position that no host client
/// controls, and no others.
pub proof fn law_server_moves_every_positioned_player(
    is_server_action: bool,
    host_client_controls: bool,
    target_has_position: bool,
)
    ensures
        server_applies(false, is_server_action, host_client_controls, target_has_position)
            == target_has_position,
        server_applies(true, true, false, target_has_position) == target_has_position,
        !server_applies(true, false, host_client_controls, target_has_position),
        !server_applies(true, is_server_action, true, target_has_position),
{
}

/// A synced client applies an input on every target that it predicts, save in a host server, where
/// it leaves the inputs of replicated actions to the server. A client that is not synced applies
/// none.
pub proof fn law_synced_client_moves_what_it_predicts(
    is_host_server: bool,
    action_is_replicated: bool,
    predicts_target: bool,
)
    ensures
        client_applies(true, false, action_is_replicated, predicts_target) == predicts_target,
        client_applies(true, is_host_server, false, predicts_target) == predicts_target,
        !client_applies(true, true, true, predicts_target),
        !client_applies(false, is_host_server, action_is_replicated, predicts_target),
{
}

/// In a host server every input on a box that both sides could move is applied by exactly one of
/// them, unless a host client controls the box: then the server applies none.
pub proof fn law_host_input_has_one_side(
    player: u64,
    client_id: u64,
    spawned_by_server: bool,
    host_client_controls: bool,
)
    ensures
        client_applies(
            true,
            true,
            action_of(player, client_id, spawned_by_server).replicate is Some,
            true,
        ) == !spawned_by_server,
        server_applies(
            true,
            action_of(player, client_id, spawned_by_server).server_action,
            host_client_controls,
            true,
        ) == (spawned_by_server && !host_client_controls),
{
}

/// The hash of an action entity is the wrapping product of the client's id bits and the factor,
/// plus the salt. So it fits 64 bits, the next salt gives the next hash, and the next client's
/// hash is one factor further on.
pub proof fn law_hash_steps(client_id: u64, salt: u64)
    ensures
        0 <= prespawn_hash(client_id, salt) <= u64::MAX,
        prespawn_hash(client_id, salt) == (client_id * 6364136223846793005 + salt)
            % 0x1_0000_0000_0000_0000,
        salt < u64::MAX ==> prespawn_hash(client_id, (salt + 1) as u64) == (prespawn_hash(
            client_id,
            salt,
        ) + 1) % 0x1_0000_0000_0000_0000,
        client_id < u64::MAX ==> prespawn_hash((client_id + 1) as u64, salt) == (prespawn_hash(
            client_id,
            salt,
        ) + 6364136223846793005) % 0x1_0000_0000_0000_0000,
{
    let modulus: int = 0x1_0000_0000_0000_0000;
    let whole: int = client_id * 6364136223846793005 + salt;
    div_mod::lemma_add_mod_noop(whole, 1, modulus);
    div_mod::lemma_add_mod_noop(whole % modulus, 1, modulus);
    div_mod::lemma_add_mod_noop(whole, 6364136223846793005, modulus);
    div_mod::lemma_add_mod_noop(whole % modulus, 6364136223846793005, modulus);
    div_mod::lemma_mod_twice(whole, modulus);
}

/// A target comprises a peer as its name says.
pub proof fn law_targets(single: u64, peer: u64)
    ensures
        targets(NetworkTarget::All, peer),
        targets(NetworkTarget::Single(single), single),
        peer != single ==> !targets(NetworkTarget::Single(single), peer),
        !targets(NetworkTarget::AllExceptSingle(single), single),
        peer != single ==> targets(NetworkTarget::AllExceptSingle(single), peer),
{
}

/// An entity that has come under control takes this client's inputs if and only if it is a player
/// without a marker whose owner, where it has one, is a client here.
pub proof fn law_who_takes_inputs(player: ControlledPlayer, owner: u64, clients: Seq<u64>)
    ensures
        !takes_inputs(None, clients),
        player.has_input_marker ==> !takes_inputs(Some(player), clients),
        !player.has_input_marker && player.owner is None ==> takes_inputs(Some(player), clients),
        !player.has_input_marker && player.owner == Some(owner) ==> (takes_inputs(
            Some(player),
            clients,
        ) <==> clients.contains(owner)),
{
}

} // verus!
