use render3d::client::{
    block_change_packet, packet_event, ClientConfig, ClientError, ClientEvent, ClientSession, ConnectionState,
    NetworkAction, NetworkState, JOIN_Y_BITS,
};
use render3d::menu::GameState;
use render3d::protocol::Packet;
use render3d::server::{disconnect_notice, relay_packet, ServerConfig, ServerEvent, ServerState, SPAWN_Y_BITS};
use render3d::transport::TransportType;
use std::collections::HashMap;

#[test]
fn config_addresses() {
    assert_eq!(ClientConfig::default().full_address(), "127.0.0.1:25565");
    assert_eq!(ServerConfig::default().bind_address(), "0.0.0.0:25565");
    let c = ClientConfig { server_address: "host".to_string(), server_port: 0, username: "u".to_string(), transport: TransportType::Tcp };
    assert_eq!(c.full_address(), "host:0");
    let s = ServerConfig { address: "::".to_string(), port: 65535, transport: TransportType::default(), max_players: 1 };
    assert_eq!(s.bind_address(), ":::65535");
    assert_eq!(ServerConfig::default().max_players, 100);
    assert_eq!(TransportType::Tcp.name(), "TCP");
}

#[test]
fn server_registers_moves_and_drops_players() {
    let mut s = ServerState::new();
    let e = s.handle_packet(5, Packet::Connect { player_id: 0, username: "bob".to_string() });
    assert!(matches!(e, Some(ServerEvent::PlayerConnected(5, ref n)) if n == "bob"));
    assert_eq!(s.player_count(), 1);
    let p = &s.players[&5];
    assert_eq!((p.id, p.x, p.y, p.z, p.yaw, p.pitch), (5, 0, SPAWN_Y_BITS, 0, 0, 128));
    assert_eq!(f32::from_bits(SPAWN_Y_BITS), 64.0);
    let e = s.handle_packet(5, Packet::Position { player_id: 99, x: 1, y: 2, z: 3 });
    assert!(matches!(e, Some(ServerEvent::PlayerMoved(5, 1, 2, 3))));
    assert_eq!((s.players[&5].x, s.players[&5].y, s.players[&5].z), (1, 2, 3));
    s.handle_packet(5, Packet::Rotation { player_id: 5, yaw: 10, pitch: 20 });
    assert_eq!((s.players[&5].yaw, s.players[&5].pitch), (10, 20));
    let e = s.handle_packet(6, Packet::Position { player_id: 6, x: 1, y: 1, z: 1 });
    assert!(matches!(e, Some(ServerEvent::PlayerMoved(6, 1, 1, 1))));
    assert_eq!(s.player_count(), 1);
    let e = s.handle_packet(5, Packet::Chat { player_id: 0, message: "hi".to_string() });
    assert!(matches!(e, Some(ServerEvent::ChatMessage(5, ref m)) if m == "hi"));
    assert!(s.handle_packet(5, Packet::Ping { timestamp: 1 }).is_none());
    let e = s.handle_packet(5, Packet::Disconnect { player_id: 5 });
    assert!(matches!(e, Some(ServerEvent::PlayerDisconnected(5))));
    assert_eq!(s.player_count(), 0);
    assert!(matches!(s.remove_player(9), ServerEvent::PlayerDisconnected(9)));
}

#[test]
fn relay_stamps_sender() {
    let (p, ack) = relay_packet(Packet::Connect { player_id: 0, username: "a".to_string() }, 3);
    assert!(matches!(p, Packet::Connect { player_id: 3, .. }));
    assert!(matches!(ack, Some(Packet::ConnectAck { success: true, player_id: 3 })));
    let (p, ack) = relay_packet(Packet::Position { player_id: 1, x: 2, y: 3, z: 4 }, 8);
    assert!(matches!(p, Packet::Position { player_id: 8, x: 2, y: 3, z: 4 }));
    assert!(ack.is_none());
    let (p, _) = relay_packet(Packet::BlockChange { x: 1, y: 2, z: 3, block_type: 4 }, 8);
    assert!(matches!(p, Packet::BlockChange { x: 1, y: 2, z: 3, block_type: 4 }));
    assert!(matches!(disconnect_notice(4), Packet::Disconnect { player_id: 4 }));
}

#[test]
fn client_session_connects() {
    let mut c = ClientSession::new(TransportType::Tcp);
    assert_eq!(c.state(), ConnectionState::Disconnected);
    assert!(c.position_packet(1, 2, 3).is_err());
    c.begin_connect();
    assert_eq!(c.state(), ConnectionState::Connecting);
    assert_eq!(c.connect_reply(Packet::ConnectAck { success: false, player_id: 1 }).unwrap_err(), ClientError::Rejected);
    assert_eq!(c.connect_reply(Packet::Ping { timestamp: 1 }).unwrap_err(), ClientError::UnexpectedResponse);
    assert_eq!(c.state(), ConnectionState::Connecting);
    let e = c.connect_reply(Packet::ConnectAck { success: true, player_id: 11 }).unwrap();
    assert!(matches!(e, ClientEvent::Connected(11)));
    assert!(c.is_connected());
    assert_eq!(c.player_id(), Some(11));
    assert!(matches!(c.position_packet(1, 2, 3), Ok(Packet::Position { player_id: 11, x: 1, y: 2, z: 3 })));
    assert!(matches!(c.rotation_packet(4, 5), Ok(Packet::Rotation { player_id: 11, yaw: 4, pitch: 5 })));
    assert!(matches!(c.chat_packet("yo"), Ok(Packet::Chat { player_id: 11, ref message }) if message == "yo"));
    assert!(matches!(c.disconnect_packet(), Some(Packet::Disconnect { player_id: 11 })));
    assert!(matches!(c.disconnected(), ClientEvent::Disconnected));
    assert_eq!(c.player_id(), None);
    assert!(c.disconnect_packet().is_none());
    assert!(matches!(ClientSession::connect_packet("me"), Packet::Connect { player_id: 0, ref username } if username == "me"));
    assert!(matches!(block_change_packet(1, 2, 3, 4), Packet::BlockChange { x: 1, y: 2, z: 3, block_type: 4 }));
    assert_eq!(c.transport_type(), TransportType::Tcp);
}

#[test]
fn client_events_for_packets() {
    assert!(matches!(packet_event(Packet::Pong { timestamp: 5 }), Some(ClientEvent::Pong(5))));
    assert!(matches!(packet_event(Packet::Disconnect { player_id: 2 }), Some(ClientEvent::PlayerLeft(2))));
    assert!(matches!(packet_event(Packet::Connect { player_id: 2, username: "z".to_string() }), Some(ClientEvent::PlayerJoined(2, _))));
    assert!(packet_event(Packet::Ping { timestamp: 5 }).is_none());
    assert!(packet_event(Packet::ConnectAck { success: true, player_id: 1 }).is_none());
}

#[test]
fn network_state_tracks_remote_players() {
    let mut n = NetworkState { my_player_id: 0, remote_players: HashMap::new(), game_state: GameState::Connecting };
    assert_eq!(n.apply_packet(Packet::ConnectAck { success: true, player_id: 4 }), NetworkAction::CaptureMouse);
    assert_eq!((n.my_player_id, n.game_state), (4, GameState::Playing));
    n.apply_packet(Packet::Position { player_id: 4, x: 1, y: 1, z: 1 });
    assert!(n.remote_players.is_empty());
    n.apply_packet(Packet::Position { player_id: 9, x: 1, y: 2, z: 3 });
    let p = &n.remote_players[&9];
    assert_eq!((p.x, p.y, p.z, p.yaw, p.pitch), (1, 2, 3, 0, 0));
    assert_eq!(p.username, "Player9");
    n.apply_packet(Packet::Connect { player_id: 9, username: "nine".to_string() });
    assert_eq!(n.remote_players[&9].username, "nine");
    assert_eq!(n.remote_players[&9].x, 1);
    n.apply_packet(Packet::Connect { player_id: 12, username: "twelve".to_string() });
    assert_eq!(n.remote_players[&12].y, JOIN_Y_BITS);
    assert_eq!(f32::from_bits(JOIN_Y_BITS), 70.0);
    assert_eq!(n.apply_packet(Packet::Rotation { player_id: 12, yaw: 1, pitch: 2 }), NetworkAction::Rotate { player_id: 12, yaw: 1, pitch: 2 });
    assert_eq!(n.apply_packet(Packet::Rotation { player_id: 13, yaw: 1, pitch: 2 }), NetworkAction::Nothing);
    n.apply_packet(Packet::Disconnect { player_id: 9 });
    assert!(!n.remote_players.contains_key(&9));
    assert_eq!(n.apply_packet(Packet::ConnectAck { success: false, player_id: 1 }), NetworkAction::Nothing);
    assert_eq!((n.my_player_id, n.game_state), (4, GameState::Menu));
}
