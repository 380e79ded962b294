use render3d::menu::{is_ascii_control, GameState, MenuField, MenuState, MAX_ADDRESS_BYTES, MAX_USERNAME_BYTES};

#[test]
fn new_menu_defaults() {
    let m = MenuState::new();
    assert_eq!(m.server_address, "127.0.0.1:25565");
    assert_eq!(m.username, "Player");
    assert_eq!(m.selected_field, MenuField::Unselected);
    assert!(m.error_message.is_none());
    assert!(m.status_message.is_none());
    assert!(!m.is_editing());
    assert_eq!(GameState::default(), GameState::Menu);
    assert_eq!(MenuField::default(), MenuField::Unselected);
}

#[test]
fn typing_goes_to_selected_field_only() {
    let mut m = MenuState::new();
    m.handle_char('x');
    assert_eq!(m.server_address, "127.0.0.1:25565");
    assert_eq!(m.username, "Player");
    m.select_field(MenuField::Username);
    assert!(m.is_editing());
    m.handle_char('1');
    assert_eq!(m.username, "Player1");
    m.handle_char('\n');
    m.handle_char('\u{7f}');
    assert_eq!(m.username, "Player1");
}

#[test]
fn username_stops_at_sixteen_bytes() {
    let mut m = MenuState::new();
    m.select_field(MenuField::Username);
    for _ in 0..20 {
        m.handle_char('a');
    }
    assert_eq!(m.username.len(), MAX_USERNAME_BYTES);
    assert_eq!(m.username, "Playeraaaaaaaaaa");
}

#[test]
fn address_stops_at_fifty_bytes_but_last_char_may_be_wide() {
    let mut m = MenuState::new();
    m.select_field(MenuField::ServerAddress);
    m.server_address = "a".repeat(49);
    m.handle_char('é');
    assert_eq!(m.server_address.len(), 51);
    m.handle_char('b');
    assert_eq!(m.server_address.len(), 51);
    assert!(MAX_ADDRESS_BYTES == 50);
}

#[test]
fn backspace_removes_last_char() {
    let mut m = MenuState::new();
    m.select_field(MenuField::ServerAddress);
    m.handle_backspace();
    assert_eq!(m.server_address, "127.0.0.1:2556");
    m.server_address.clear();
    m.handle_backspace();
    assert_eq!(m.server_address, "");
    m.select_field(MenuField::Unselected);
    m.handle_backspace();
    assert_eq!(m.username, "Player");
}

#[test]
fn next_field_cycles() {
    let mut m = MenuState::new();
    m.next_field();
    assert_eq!(m.selected_field, MenuField::ServerAddress);
    m.next_field();
    assert_eq!(m.selected_field, MenuField::Username);
    m.next_field();
    assert_eq!(m.selected_field, MenuField::Unselected);
}

#[test]
fn messages() {
    let mut m = MenuState::new();
    m.set_error("bad");
    m.set_status("Connecting to x...");
    assert_eq!(m.error_message.as_deref(), Some("bad"));
    assert_eq!(m.status_message.as_deref(), Some("Connecting to x..."));
    m.clear_error();
    assert!(m.error_message.is_none());
    assert_eq!(m.status_message.as_deref(), Some("Connecting to x..."));
}

#[test]
fn ascii_control_matches_std() {
    for c in ['\0', '\t', '\u{1f}', ' ', 'a', '\u{7f}', '\u{80}', 'é'] {
        assert_eq!(is_ascii_control(c), c.is_ascii_control());
    }
}
