use vstd::prelude::*;
use std::collections::HashMap;
use crate::menu::GameState;
use crate::protocol::{Packet, PlayerId};
use crate::server::spec_relay;
use crate::text::{decimal, host_port, push_decimal};
use crate::transport::TransportType;

verus! {

broadcast use vstd::std_specs::hash::group_hash_axioms;

/// Events the client reports to the game. Coordinates are `f32` bit patterns.
#[derive(Debug)]
pub enum ClientEvent {
    Connected(PlayerId),
    Disconnected,
    PlayerJoined(PlayerId, String),
    PlayerLeft(PlayerId),
    PlayerMoved(PlayerId, u32, u32, u32),
    PlayerRotated(PlayerId, u8, u8),
    BlockChanged(i32, i32, i32, u8),
    ChatMessage(PlayerId, String),
    Pong(u64),
}

/// State of the client's connection.
#[derive(Debug, Clone, Copy, PartialEq, Eq, Structural)]
pub enum ConnectionState {
    Disconnected,
    Connecting,
    Connected,
    Reconnecting,
}

/// The event a packet from the server turns into, if any.
pub open spec fn spec_packet_event(packet: Packet) -> Option<ClientEvent> {
    match packet {
        Packet::Position { player_id, x, y, z } => Some(ClientEvent::PlayerMoved(player_id, x, y, z)),
        Packet::Rotation { player_id, yaw, pitch } => Some(ClientEvent::PlayerRotated(player_id, yaw, pitch)),
        Packet::BlockChange { x, y, z, block_type } => Some(ClientEvent::BlockChanged(x, y, z, block_type)),
        Packet::Chat { player_id, message } => Some(ClientEvent::ChatMessage(player_id, message)),
        Packet::Connect { player_id, username } => Some(ClientEvent::PlayerJoined(player_id, username)),
        Packet::Disconnect { player_id } => Some(ClientEvent::PlayerLeft(player_id)),
        Packet::Pong { timestamp } => Some(ClientEvent::Pong(timestamp)),
        _ => None,
    }
}

/// Turns a packet received from the server into the event it announces:
/// moves, turns, block changes, chat, joins, departures and pongs.
pub fn packet_event(packet: Packet) -> (e: Option<ClientEvent>)
    ensures
        e == spec_packet_event(packet),
{
    match packet {
        Packet::Position { player_id, x, y, z } => Some(ClientEvent::PlayerMoved(player_id, x, y, z)),
        Packet::Rotation { player_id, yaw, pitch } => Some(ClientEvent::PlayerRotated(player_id, yaw, pitch)),
        Packet::BlockChange { x, y, z, block_type } => Some(ClientEvent::BlockChanged(x, y, z, block_type)),
        Packet::Chat { player_id, message } => Some(ClientEvent::ChatMessage(player_id, message)),
        Packet::Connect { player_id, username } => Some(ClientEvent::PlayerJoined(player_id, username)),
        Packet::Disconnect { player_id } => Some(ClientEvent::PlayerLeft(player_id)),
        Packet::Pong { timestamp } => Some(ClientEvent::Pong(timestamp)),
        _ => None,
    }
}

/// Why a connection attempt or a send did not go through.
#[derive(Debug, Clone, Copy, PartialEq, Eq, Structural)]
pub enum ClientError {
    /// The server answered the connect with a refusal.
    Rejected,
    /// The server answered the connect with something else than an acknowledgement.
    UnexpectedResponse,
    /// The client has no player id yet.
    NotConnected,
}

/// The connection bookkeeping of a game client; sending and receiving is the
/// transport's part.
pub struct ClientSession {
    pub transport_type: TransportType,
    pub state: ConnectionState,
    pub player_id: Option<PlayerId>,
}

impl ClientSession {
    /// A disconnected client on `transport_type`.
    pub fn new(transport_type: TransportType) -> (s: Self)
        ensures
            s.transport_type == transport_type,
            s.state == ConnectionState::Disconnected,
            s.player_id is None,
    {
        ClientSession { transport_type, state: ConnectionState::Disconnected, player_id: None }
    }

    /// A connection attempt starts.
    pub fn begin_connect(&mut self)
        ensures
            final(self).state == ConnectionState::Connecting,
            final(self).player_id == old(self).player_id,
            final(self).transport_type == old(self).transport_type,
    {
        self.state = ConnectionState::Connecting;
    }

    /// The connect packet that introduces `username`; the server assigns the id.
    pub fn connect_packet(username: &str) -> (p: Packet)
        ensures
            p matches Packet::Connect { player_id, username: u } && player_id == 0 && u@ == username@,
    {
        Packet::Connect { player_id: 0, username: username.to_owned() }
    }

    /// Takes the server's answer to the connect packet. An accepting
    /// acknowledgement connects the client under the id it carries; a refusal
    /// or any other packet fails, leaving the client as it was.
    pub fn connect_reply(&mut self, reply: Packet) -> (r: Result<ClientEvent, ClientError>)
        ensures
            final(self).transport_type == old(self).transport_type,
            match reply {
                Packet::ConnectAck { success: true, player_id } => r == Ok::<ClientEvent, ClientError>(ClientEvent::Connected(player_id))
                    && final(self).state == ConnectionState::Connected
                    && final(self).player_id == Some(player_id),
                Packet::ConnectAck { success: false, .. } => r == Err::<ClientEvent, ClientError>(ClientError::Rejected)
                    && final(self).state == old(self).state && final(self).player_id == old(self).player_id,
                _ => r == Err::<ClientEvent, ClientError>(ClientError::UnexpectedResponse)
                    && final(self).state == old(self).state && final(self).player_id == old(self).player_id,
            },
    {
        match reply {
            Packet::ConnectAck { success, player_id } => {
                if success {
                    self.state = ConnectionState::Connected;
                    self.player_id = Some(player_id);
                    Ok(ClientEvent::Connected(player_id))
                } else {
                    Err(ClientError::Rejected)
                }
            },
            _ => Err(ClientError::UnexpectedResponse),
        }
    }

    /// The goodbye packet to send before closing, when the client has an id.
    pub fn disconnect_packet(&self) -> (p: Option<Packet>)
        ensures
            match self.player_id {
                Some(id) => p == Some(Packet::Disconnect { player_id: id }),
                None => p is None,
            },
    {
        match self.player_id {
            Some(id) => Some(Packet::Disconnect { player_id: id }),
            None => None,
        }
    }

    /// The connection is closed: the client forgets its id.
    pub fn disconnected(&mut self) -> (e: ClientEvent)
        ensures
            final(self).state == ConnectionState::Disconnected,
            final(self).player_id is None,
            final(self).transport_type == old(self).transport_type,
            e == ClientEvent::Disconnected,
    {
        self.state = ConnectionState::Disconnected;
        self.player_id = None;
        ClientEvent::Disconnected
    }

    /// Connection state.
    pub fn state(&self) -> (s: ConnectionState)
        ensures
            s == self.state,
    {
        self.state
    }

    /// Whether the client is connected.
    pub fn is_connected(&self) -> (b: bool)
        ensures
            b == (self.state == ConnectionState::Connected),
    {
        self.state == ConnectionState::Connected
    }

    /// The id the server assigned, if any.
    pub fn player_id(&self) -> (id: Option<PlayerId>)
        ensures
            id == self.player_id,
    {
        self.player_id
    }

    /// The transport in use.
    pub fn transport_type(&self) -> (t: TransportType)
        ensures
            t == self.transport_type,
    {
        self.transport_type
    }

    /// The position update to send (coordinates as `f32` bit patterns).
    pub fn position_packet(&self, x: u32, y: u32, z: u32) -> (r: Result<Packet, ClientError>)
        ensures
            match self.player_id {
                Some(id) => r == Ok::<Packet, ClientError>(Packet::Position { player_id: id, x, y, z }),
                None => r == Err::<Packet, ClientError>(ClientError::NotConnected),
            },
    {
        match self.player_id {
            Some(id) => Ok(Packet::Position { player_id: id, x, y, z }),
            None => Err(ClientError::NotConnected),
        }
    }

    /// The rotation update to send.
    pub fn rotation_packet(&self, yaw: u8, pitch: u8) -> (r: Result<Packet, ClientError>)
        ensures
            match self.player_id {
                Some(id) => r == Ok::<Packet, ClientError>(Packet::Rotation { player_id: id, yaw, pitch }),
                None => r == Err::<Packet, ClientError>(ClientError::NotConnected),
            },
    {
        match self.player_id {
            Some(id) => Ok(Packet::Rotation { player_id: id, yaw, pitch }),
            None => Err(ClientError::NotConnected),
        }
    }

    /// The chat message to send.
    pub fn chat_packet(&self, message: &str) -> (r: Result<Packet, ClientError>)
        ensures
            match self.player_id {
                Some(id) => r matches Ok(Packet::Chat { player_id, message: m }) && player_id == id && m@ == message@,
                None => r == Err::<Packet, ClientError>(ClientError::NotConnected),
            },
    {
        match self.player_id {
            Some(id) => Ok(Packet::Chat { player_id: id, message: message.to_owned() }),
            None => Err(ClientError::NotConnected),
        }
    }
}

/// The block change to send; it carries no player id.
pub fn block_change_packet(x: i32, y: i32, z: i32, block_type: u8) -> (p: Packet)
    ensures
        p == (Packet::BlockChange { x, y, z, block_type }),
{
    Packet::BlockChange { x, y, z, block_type }
}

/// Where the client connects.
#[derive(Debug, Clone)]
pub struct ClientConfig {
    pub server_address: String,
    pub server_port: u16,
    pub username: String,
    pub transport: TransportType,
}

impl Default for ClientConfig {
    fn default() -> (c: Self)
        ensures
            c.server_address@ == "127.0.0.1"@,
            c.server_port == 25565,
            c.username@ == "Player"@,
            c.transport == TransportType::Tcp,
    {
        ClientConfig {
            server_address: "127.0.0.1".to_owned(),
            server_port: 25565,
            username: "Player".to_owned(),
            transport: TransportType::Tcp,
        }
    }
}

impl ClientConfig {
    /// `server_address:server_port`.
    pub fn full_address(&self) -> (s: String)
        ensures
            s@ == self.server_address@ + seq![':'] + decimal(self.server_port as nat),
    {
        host_port(&self.server_address, self.server_port)
    }
}

/// Another player as this client sees it. Coordinates and angles are `f32`
/// bit patterns.
#[derive(Debug)]
pub struct RemotePlayer {
    pub x: u32,
    pub y: u32,
    pub z: u32,
    pub yaw: u32,
    pub pitch: u32,
    pub username: String,
}

/// Bit pattern of the `f32` value 70.0, the height at which a player that
/// joins without a position is drawn.
pub const JOIN_Y_BITS: u32 = 0x428C_0000;

/// The name shown for a player whose name has not arrived: `Player<id>`.
pub open spec fn default_player_name(id: PlayerId) -> Seq<char> {
    seq!['P', 'l', 'a', 'y', 'e', 'r'] + decimal(id as nat)
}

/// What the game must do after a network packet is applied.
#[derive(Debug, Clone, Copy, PartialEq, Eq, Structural)]
pub enum NetworkAction {
    Nothing,
    /// The server accepted this client: grab and hide the mouse cursor.
    CaptureMouse,
    /// Turn `player_id` to the given wire angles (decoded by the caller).
    Rotate { player_id: PlayerId, yaw: u8, pitch: u8 },
}

/// The client's view of the multiplayer session.
pub struct NetworkState {
    pub my_player_id: PlayerId,
    pub remote_players: HashMap<PlayerId, RemotePlayer>,
    pub game_state: GameState,
}

impl NetworkState {
    /// Applies one packet from the server.
    ///
    /// An accepting acknowledgement sets this client's id and starts play; a
    /// refusing one returns to the menu. Moves of other players update them,
    /// or add them under a default name. A join names a known player or
    /// adds it at the join height; a departure removes it. Turns of other,
    /// known players are handed back for decoding.
    pub fn apply_packet(&mut self, packet: Packet) -> (a: NetworkAction)
        ensures
            match packet {
                Packet::ConnectAck { success, player_id } => if success {
                    final(self).my_player_id == player_id && final(self).game_state == GameState::Playing
                        && a == NetworkAction::CaptureMouse
                        && final(self).remote_players@ == old(self).remote_players@
                } else {
                    final(self).my_player_id == old(self).my_player_id && final(self).game_state == GameState::Menu
                        && a == NetworkAction::Nothing
                        && final(self).remote_players@ == old(self).remote_players@
                },
                Packet::Position { player_id, x, y, z } => {
                    &&& a == NetworkAction::Nothing
                    &&& final(self).my_player_id == old(self).my_player_id
                    &&& final(self).game_state == old(self).game_state
                    &&& if player_id == old(self).my_player_id {
                        final(self).remote_players@ == old(self).remote_players@
                    } else if old(self).remote_players@.contains_key(player_id) {
                        final(self).remote_players@ == old(self).remote_players@.insert(
                            player_id,
                            RemotePlayer { x, y, z, ..old(self).remote_players@[player_id] },
                        )
                    } else {
                        final(self).remote_players@.dom() == old(self).remote_players@.dom().insert(player_id)
                        && final(self).remote_players@.remove(player_id) == old(self).remote_players@
                        && final(self).remote_players@[player_id].x == x
                        && final(self).remote_players@[player_id].y == y
                        && final(self).remote_players@[player_id].z == z
                        && final(self).remote_players@[player_id].yaw == 0
                        && final(self).remote_players@[player_id].pitch == 0
                        && final(self).remote_players@[player_id].username@ == default_player_name(player_id)
                    }
                },
                Packet::Rotation { player_id, yaw, pitch } => {
                    &&& final(self).my_player_id == old(self).my_player_id
                    &&& final(self).game_state == old(self).game_state
                    &&& final(self).remote_players@ == old(self).remote_players@
                    &&& a == if player_id != old(self).my_player_id && old(self).remote_players@.contains_key(player_id) {
                        NetworkAction::Rotate { player_id, yaw, pitch }
                    } else {
                        NetworkAction::Nothing
                    }
                },
                Packet::Connect { player_id, username } => {
                    &&& a == NetworkAction::Nothing
                    &&& final(self).my_player_id == old(self).my_player_id
                    &&& final(self).game_state == old(self).game_state
                    &&& if old(self).remote_players@.contains_key(player_id) {
                        final(self).remote_players@ == old(self).remote_players@.insert(
                            player_id,
                            RemotePlayer { username, ..old(self).remote_players@[player_id] },
                        )
                    } else {
                        final(self).remote_players@ == old(self).remote_players@.insert(
                            player_id,
                            RemotePlayer { x: 0, y: JOIN_Y_BITS, z: 0, yaw: 0, pitch: 0, username },
                        )
                    }
                },
                Packet::Disconnect { player_id } => {
                    &&& a == NetworkAction::Nothing
                    &&& final(self).my_player_id == old(self).my_player_id
                    &&& final(self).game_state == old(self).game_state
                    &&& final(self).remote_players@ == old(self).remote_players@.remove(player_id)
                },
                _ => a == NetworkAction::Nothing && final(self).my_player_id == old(self).my_player_id
                    && final(self).game_state == old(self).game_state
                    && final(self).remote_players@ == old(self).remote_players@,
            },
    {
        match packet {
            Packet::ConnectAck { success, player_id } => {
                if success {
                    self.my_player_id = player_id;
                    self.game_state = GameState::Playing;
                    NetworkAction::CaptureMouse
                } else {
                    self.game_state = GameState::Menu;
                    NetworkAction::Nothing
                }
            },
            Packet::Position { player_id, x, y, z } => {
                if player_id != self.my_player_id {
                    match self.remote_players.remove(&player_id) {
                        Some(p) => {
                            self.remote_players.insert(player_id, RemotePlayer { x, y, z, ..p });
                        },
                        None => {
                            let mut name = "Player".to_owned();
                            push_decimal(&mut name, player_id);
                            proof {
                                reveal_strlit("Player");
                            }
                            assert(name@ =~= default_player_name(player_id));
                            self.remote_players.insert(
                                player_id,
                                RemotePlayer { x, y, z, yaw: 0, pitch: 0, username: name },
                            );
                        },
                    }
                }
                NetworkAction::Nothing
            },
            Packet::Rotation { player_id, yaw, pitch } => {
                if player_id != self.my_player_id && self.remote_players.contains_key(&player_id) {
                    NetworkAction::Rotate { player_id, yaw, pitch }
                } else {
                    NetworkAction::Nothing
                }
            },
            Packet::Connect { player_id, username } => {
                match self.remote_players.remove(&player_id) {
                    Some(p) => {
                        self.remote_players.insert(player_id, RemotePlayer { username, ..p });
                    },
                    None => {
                        self.remote_players.insert(
                            player_id,
                            RemotePlayer { x: 0, y: JOIN_Y_BITS, z: 0, yaw: 0, pitch: 0, username },
                        );
                    },
                }
                NetworkAction::Nothing
            },
            Packet::Disconnect { player_id } => {
                self.remote_players.remove(&player_id);
                NetworkAction::Nothing
            },
            _ => NetworkAction::Nothing,
        }
    }
}

/// Event law: the event a packet announces carries that packet's own fields,
/// each field of the event in the place of the packet field of the same name;
/// pings and connection acknowledgements announce nothing.
pub proof fn lemma_packet_event_fields(p: Packet)
    ensures
        ({
            let e = spec_packet_event(p);
            &&& p matches Packet::Position { player_id, x, y, z } ==> e matches Some(ClientEvent::PlayerMoved(i, ex, ey, ez))
                && i == player_id && ex == x && ey == y && ez == z
            &&& p matches Packet::Rotation { player_id, yaw, pitch } ==> e matches Some(ClientEvent::PlayerRotated(i, eyaw, epitch))
                && i == player_id && eyaw == yaw && epitch == pitch
            &&& p matches Packet::BlockChange { x, y, z, block_type } ==> e matches Some(ClientEvent::BlockChanged(ex, ey, ez, t))
                && ex == x && ey == y && ez == z && t == block_type
            &&& p matches Packet::Chat { player_id, message } ==> e matches Some(ClientEvent::ChatMessage(i, m))
                && i == player_id && m == message
            &&& p matches Packet::Connect { player_id, username } ==> e matches Some(ClientEvent::PlayerJoined(i, u))
                && i == player_id && u == username
            &&& p matches Packet::Disconnect { player_id } ==> e == Some(ClientEvent::PlayerLeft(player_id))
            &&& p matches Packet::Pong { timestamp } ==> e == Some(ClientEvent::Pong(timestamp))
            &&& (p is Ping || p is ConnectAck) ==> e is None
        }),
{
}

/// Relay-then-event law: when the server relays a move or a turn that
/// connection `id` sent, the other clients see player `id` move to the sent
/// coordinates, or turn to the sent yaw and pitch.
pub proof fn lemma_relayed_update_event(p: Packet, id: PlayerId)
    ensures
        p matches Packet::Position { x, y, z, .. } ==> spec_packet_event(spec_relay(p, id).0) == Some(
            ClientEvent::PlayerMoved(id, x, y, z),
        ),
        p matches Packet::Rotation { yaw, pitch, .. } ==> spec_packet_event(spec_relay(p, id).0) == Some(
            ClientEvent::PlayerRotated(id, yaw, pitch),
        ),
{
}

} // verus!
