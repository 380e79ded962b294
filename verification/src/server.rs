use vstd::prelude::*;
use std::collections::HashMap;
use crate::protocol::{Packet, PlayerId};
use crate::text::host_port;
use crate::transport::TransportType;

verus! {

broadcast use vstd::std_specs::hash::group_hash_axioms;

/// Bit pattern of the `f32` value 64.0, the height at which players join.
pub const SPAWN_Y_BITS: u32 = 0x4280_0000;

/// What the server knows of one connected player. Coordinates are `f32`
/// bit patterns, as they arrive on the wire.
#[derive(Debug)]
pub struct PlayerInfo {
    pub id: PlayerId,
    pub username: String,
    pub x: u32,
    pub y: u32,
    pub z: u32,
    pub yaw: u8,
    pub pitch: u8,
}

/// What the server reports to the game after handling a packet.
#[derive(Debug)]
pub enum ServerEvent {
    PlayerConnected(PlayerId, String),
    PlayerDisconnected(PlayerId),
    PlayerMoved(PlayerId, u32, u32, u32),
    PlayerRotated(PlayerId, u8, u8),
    BlockChanged(i32, i32, i32, u8),
    ChatMessage(PlayerId, String),
}

/// The players table after `player_id` sent `packet`, and the event reported.
pub open spec fn server_step(players: Map<PlayerId, PlayerInfo>, player_id: PlayerId, packet: Packet)
    -> (Map<PlayerId, PlayerInfo>, Option<ServerEvent>)
{
    match packet {
        Packet::Connect { username, .. } => (
            players.insert(player_id, PlayerInfo {
                id: player_id,
                username,
                x: 0,
                y: SPAWN_Y_BITS,
                z: 0,
                yaw: 0,
                pitch: 128,
            }),
            Some(ServerEvent::PlayerConnected(player_id, username)),
        ),
        Packet::Position { x, y, z, .. } => (
            if players.contains_key(player_id) {
                players.insert(player_id, PlayerInfo { x, y, z, ..players[player_id] })
            } else {
                players
            },
            Some(ServerEvent::PlayerMoved(player_id, x, y, z)),
        ),
        Packet::Rotation { yaw, pitch, .. } => (
            if players.contains_key(player_id) {
                players.insert(player_id, PlayerInfo { yaw, pitch, ..players[player_id] })
            } else {
                players
            },
            Some(ServerEvent::PlayerRotated(player_id, yaw, pitch)),
        ),
        Packet::BlockChange { x, y, z, block_type } => (players, Some(ServerEvent::BlockChanged(x, y, z, block_type))),
        Packet::Chat { message, .. } => (players, Some(ServerEvent::ChatMessage(player_id, message))),
        Packet::Disconnect { .. } => (players.remove(player_id), Some(ServerEvent::PlayerDisconnected(player_id))),
        _ => (players, None),
    }
}

/// The server's table of connected players.
pub struct ServerState {
    pub players: HashMap<PlayerId, PlayerInfo>,
}

impl ServerState {
    /// No player connected.
    pub fn new() -> (s: Self)
        ensures
            s.players@ == Map::<PlayerId, PlayerInfo>::empty(),
    {
        ServerState { players: HashMap::new() }
    }

    /// Applies a packet received from `player_id`: a connect registers the
    /// player at the spawn point, moves and turns update a registered player,
    /// a disconnect removes it; every packet but acknowledgements and pings is
    /// reported as an event.
    pub fn handle_packet(&mut self, player_id: PlayerId, packet: Packet) -> (e: Option<ServerEvent>)
        ensures
            final(self).players@ == server_step(old(self).players@, player_id, packet).0,
            e == server_step(old(self).players@, player_id, packet).1,
    {
        match packet {
            Packet::Connect { username, .. } => {
                let name = username.clone();
                let player = PlayerInfo {
                    id: player_id,
                    username: name,
                    x: 0,
                    y: SPAWN_Y_BITS,
                    z: 0,
                    yaw: 0,
                    pitch: 128,
                };
                self.players.insert(player_id, player);
                Some(ServerEvent::PlayerConnected(player_id, username))
            },
            Packet::Position { x, y, z, .. } => {
                match self.players.remove(&player_id) {
                    Some(p) => {
                        let updated = PlayerInfo { x, y, z, ..p };
                        self.players.insert(player_id, updated);
                    },
                    None => {},
                }
                Some(ServerEvent::PlayerMoved(player_id, x, y, z))
            },
            Packet::Rotation { yaw, pitch, .. } => {
                match self.players.remove(&player_id) {
                    Some(p) => {
                        let updated = PlayerInfo { yaw, pitch, ..p };
                        self.players.insert(player_id, updated);
                    },
                    None => {},
                }
                Some(ServerEvent::PlayerRotated(player_id, yaw, pitch))
            },
            Packet::BlockChange { x, y, z, block_type } => Some(ServerEvent::BlockChanged(x, y, z, block_type)),
            Packet::Chat { message, .. } => Some(ServerEvent::ChatMessage(player_id, message)),
            Packet::Disconnect { .. } => {
                self.players.remove(&player_id);
                Some(ServerEvent::PlayerDisconnected(player_id))
            },
            _ => None,
        }
    }

    /// Removes `player_id` and reports its departure.
    pub fn remove_player(&mut self, player_id: PlayerId) -> (e: ServerEvent)
        ensures
            final(self).players@ == old(self).players@.remove(player_id),
            e == ServerEvent::PlayerDisconnected(player_id),
    {
        self.players.remove(&player_id);
        ServerEvent::PlayerDisconnected(player_id)
    }

    /// Number of connected players.
    pub fn player_count(&self) -> (n: usize)
        ensures
            n == self.players@.len(),
    {
        self.players.len()
    }
}

/// Server-table law: a packet from `id` changes only `id`'s entry, each
/// field from the packet field of the same name: a connect registers `id`
/// under its name at the spawn point, facing yaw 0 and level pitch 128; a
/// move of a registered player changes only its coordinates, a turn only its
/// yaw and pitch; a disconnect removes it; block changes, chat and the rest
/// leave the table as it was. The event reports the same fields.
pub proof fn lemma_server_step_fields(players: Map<PlayerId, PlayerInfo>, id: PlayerId, p: Packet)
    ensures
        ({
            let (m, e) = server_step(players, id, p);
            &&& forall|k: PlayerId| k != id ==> (#[trigger] m.contains_key(k) <==> players.contains_key(k))
            &&& forall|k: PlayerId| k != id && players.contains_key(k) ==> #[trigger] m[k] == players[k]
            &&& p matches Packet::Connect { username, .. } ==> {
                &&& m.contains_key(id)
                &&& m[id] == (PlayerInfo { id, username, x: 0, y: SPAWN_Y_BITS, z: 0, yaw: 0, pitch: 128 })
                &&& e matches Some(ServerEvent::PlayerConnected(i, n)) && i == id && n == username
            }
            &&& p matches Packet::Position { x, y, z, .. } ==> {
                &&& m.contains_key(id) == players.contains_key(id)
                &&& players.contains_key(id) ==> m[id] == (PlayerInfo { x, y, z, ..players[id] })
                &&& players.contains_key(id) ==> m[id].yaw == players[id].yaw && m[id].pitch == players[id].pitch
                    && m[id].username == players[id].username
                &&& e matches Some(ServerEvent::PlayerMoved(i, ex, ey, ez)) && i == id && ex == x && ey == y && ez == z
            }
            &&& p matches Packet::Rotation { yaw, pitch, .. } ==> {
                &&& m.contains_key(id) == players.contains_key(id)
                &&& players.contains_key(id) ==> m[id].yaw == yaw && m[id].pitch == pitch
                    && m[id].x == players[id].x && m[id].y == players[id].y && m[id].z == players[id].z
                    && m[id].username == players[id].username && m[id].id == players[id].id
                &&& e matches Some(ServerEvent::PlayerRotated(i, eyaw, epitch)) && i == id && eyaw == yaw && epitch == pitch
            }
            &&& p matches Packet::BlockChange { x, y, z, block_type } ==> {
                &&& m == players
                &&& e matches Some(ServerEvent::BlockChanged(ex, ey, ez, t)) && ex == x && ey == y && ez == z && t == block_type
            }
            &&& p matches Packet::Chat { message, .. } ==> {
                &&& m == players
                &&& e matches Some(ServerEvent::ChatMessage(i, msg)) && i == id && msg == message
            }
            &&& p is Disconnect ==> {
                &&& !m.contains_key(id)
                &&& e matches Some(ServerEvent::PlayerDisconnected(i)) && i == id
            }
            &&& (p is Ping || p is Pong || p is ConnectAck) ==> m == players && e is None
        }),
{
}

/// Registration law: after a connect from `id`, `id` is registered under the
/// name it sent, at the spawn point; after a disconnect it is gone; a move of
/// a registered player changes only its coordinates.
pub proof fn lemma_connect_move_disconnect(
    players: Map<PlayerId, PlayerInfo>,
    id: PlayerId,
    name: String,
    x: u32,
    y: u32,
    z: u32,
)
    ensures
        ({
            let m1 = server_step(players, id, Packet::Connect { player_id: 0, username: name }).0;
            &&& m1.contains_key(id)
            &&& m1[id].username == name
            &&& m1[id].y == SPAWN_Y_BITS
            &&& {
                let m2 = server_step(m1, id, Packet::Position { player_id: id, x, y, z }).0;
                &&& m2.contains_key(id)
                &&& m2[id].x == x && m2[id].y == y && m2[id].z == z
                &&& m2[id].username == name
                &&& m2.dom() == m1.dom()
            }
            &&& !server_step(m1, id, Packet::Disconnect { player_id: id }).0.contains_key(id)
        }),
{
    let m1 = server_step(players, id, Packet::Connect { player_id: 0, username: name }).0;
    let m2 = server_step(m1, id, Packet::Position { player_id: id, x, y, z }).0;
    assert(m2.dom() =~= m1.dom());
}

/// The packet the dedicated server forwards after `packet` arrives from
/// connection `id`, and the acknowledgement it first sends back. Connects,
/// moves, turns, chat and departures are stamped with the sender's id; a
/// connect is acknowledged as accepted.
pub open spec fn spec_relay(packet: Packet, id: PlayerId) -> (Packet, Option<Packet>) {
    match packet {
        Packet::Connect { username, .. } => (
            Packet::Connect { player_id: id, username },
            Some(Packet::ConnectAck { success: true, player_id: id }),
        ),
        Packet::Position { x, y, z, .. } => (Packet::Position { player_id: id, x, y, z }, None),
        Packet::Rotation { yaw, pitch, .. } => (Packet::Rotation { player_id: id, yaw, pitch }, None),
        Packet::Chat { message, .. } => (Packet::Chat { player_id: id, message }, None),
        Packet::Disconnect { .. } => (Packet::Disconnect { player_id: id }, None),
        _ => (packet, None),
    }
}

/// Stamps a packet received from connection `id` for forwarding to the other
/// connections; returns it with the acknowledgement owed to the sender.
pub fn relay_packet(packet: Packet, id: PlayerId) -> (r: (Packet, Option<Packet>))
    ensures
        r == spec_relay(packet, id),
{
    match packet {
        Packet::Connect { username, .. } => (
            Packet::Connect { player_id: id, username },
            Some(Packet::ConnectAck { success: true, player_id: id }),
        ),
        Packet::Position { x, y, z, .. } => (Packet::Position { player_id: id, x, y, z }, None),
        Packet::Rotation { yaw, pitch, .. } => (Packet::Rotation { player_id: id, yaw, pitch }, None),
        Packet::Chat { message, .. } => (Packet::Chat { player_id: id, message }, None),
        Packet::Disconnect { .. } => (Packet::Disconnect { player_id: id }, None),
        other => (other, None),
    }
}

/// The notice forwarded to the other connections when connection `id` drops.
pub fn disconnect_notice(id: PlayerId) -> (p: Packet)
    ensures
        p == (Packet::Disconnect { player_id: id }),
{
    Packet::Disconnect { player_id: id }
}

/// How the dedicated server is started.
#[derive(Debug, Clone)]
pub struct ServerConfig {
    pub address: String,
    pub port: u16,
    pub transport: TransportType,
    pub max_players: usize,
}

impl Default for ServerConfig {
    fn default() -> (c: Self)
        ensures
            c.address@ == "0.0.0.0"@,
            c.port == 25565,
            c.transport == TransportType::Tcp,
            c.max_players == 100,
    {
        ServerConfig {
            address: "0.0.0.0".to_owned(),
            port: 25565,
            transport: TransportType::Tcp,
            max_players: 100,
        }
    }
}

impl ServerConfig {
    /// `address:port`.
    pub fn bind_address(&self) -> (s: String)
        ensures
            s@ == self.address@ + seq![':'] + crate::text::decimal(self.port as nat),
    {
        host_port(&self.address, self.port)
    }
}

/// Relay law: forwarding a packet changes only its player id, which becomes
/// the id of the connection it came from; every other field is forwarded as
/// received, and only a connect is acknowledged (with success and the new
/// id). Packets without a player id are forwarded unchanged.
pub proof fn lemma_relay_restamps(p: Packet, id: PlayerId)
    ensures
        ({
            let (f, ack) = spec_relay(p, id);
            &&& p matches Packet::Connect { username, .. } ==> {
                &&& f matches Packet::Connect { player_id: fid, username: fu } && fid == id && fu == username
                &&& ack == Some(Packet::ConnectAck { success: true, player_id: id })
            }
            &&& p matches Packet::Position { x, y, z, .. } ==> f matches Packet::Position { player_id: fid, x: fx, y: fy, z: fz }
                && fid == id && fx == x && fy == y && fz == z
            &&& p matches Packet::Rotation { yaw, pitch, .. } ==> f matches Packet::Rotation { player_id: fid, yaw: fyaw, pitch: fpitch }
                && fid == id && fyaw == yaw && fpitch == pitch
            &&& p matches Packet::Chat { message, .. } ==> f matches Packet::Chat { player_id: fid, message: fm }
                && fid == id && fm == message
            &&& p matches Packet::Disconnect { .. } ==> f matches Packet::Disconnect { player_id: fid } && fid == id
            &&& !(p is Connect) ==> ack is None
            &&& (p is ConnectAck || p is BlockChange || p is Ping || p is Pong) ==> f == p
        }),
{
}

} // verus!
