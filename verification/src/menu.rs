use vstd::prelude::*;
use crate::text::{pop_char, push_char, utf8_len};
use vstd::utf8::encode_utf8;

verus! {

/// Which screen the game shows.
#[derive(Debug, Clone, Copy, PartialEq, Eq, Structural)]
pub enum GameState {
    Menu,
    Playing,
    Connecting,
}

impl Default for GameState {
    fn default() -> (s: Self)
        ensures
            s == GameState::Menu,
    {
        GameState::Menu
    }
}

/// The text field of the connect menu that takes typed characters.
#[derive(Debug, Clone, Copy, PartialEq, Eq, Structural)]
pub enum MenuField {
    ServerAddress,
    Username,
    Unselected,
}

impl Default for MenuField {
    fn default() -> (f: Self)
        ensures
            f == MenuField::Unselected,
    {
        MenuField::Unselected
    }
}

/// Longest server address the menu accepts, in UTF-8 bytes.
pub const MAX_ADDRESS_BYTES: usize = 50;

/// Longest user name the menu accepts, in UTF-8 bytes.
pub const MAX_USERNAME_BYTES: usize = 16;

/// `c` is an ASCII control character: U+0000 to U+001F, or U+007F.
pub open spec fn spec_is_ascii_control(c: char) -> bool {
    (c as u32) < 0x20 || (c as u32) == 0x7f
}

/// `char::is_ascii_control`.
pub fn is_ascii_control(c: char) -> (b: bool)
    ensures
        b == spec_is_ascii_control(c),
{
    let v = c as u32;
    v < 0x20 || v == 0x7f
}

/// The text the field accepts after typing `c` into `text`, which holds at
/// most `limit` UTF-8 bytes before the character (so a multi-byte character
/// may carry it a little past the limit).
pub open spec fn typed(text: Seq<char>, c: char, limit: nat) -> Seq<char> {
    if !spec_is_ascii_control(c) && encode_utf8(text).len() < limit {
        text.push(c)
    } else {
        text
    }
}

/// The connect menu: two text fields, the field being edited, and the
/// messages shown under them.
#[derive(Debug, Clone)]
pub struct MenuState {
    pub server_address: String,
    pub username: String,
    pub selected_field: MenuField,
    pub error_message: Option<String>,
    pub status_message: Option<String>,
}

impl Default for MenuState {
    fn default() -> (m: Self)
        ensures
            m.server_address@ == "127.0.0.1:25565"@,
            m.username@ == "Player"@,
            m.selected_field == MenuField::Unselected,
            m.error_message is None,
            m.status_message is None,
    {
        MenuState {
            server_address: "127.0.0.1:25565".to_owned(),
            username: "Player".to_owned(),
            selected_field: MenuField::Unselected,
            error_message: None,
            status_message: None,
        }
    }
}

impl MenuState {
    /// The menu as the game first shows it.
    pub fn new() -> (m: Self)
        ensures
            m.server_address@ == "127.0.0.1:25565"@,
            m.username@ == "Player"@,
            m.selected_field == MenuField::Unselected,
            m.error_message is None,
            m.status_message is None,
    {
        Self::default()
    }

    /// Types `ch` into the selected field. Control characters are ignored, the
    /// address takes characters while it holds fewer than 50 bytes and the user
    /// name while it holds fewer than 16; with no field selected nothing changes.
    pub fn handle_char(&mut self, ch: char)
        ensures
            final(self).server_address@ == (if old(self).selected_field == MenuField::ServerAddress {
                typed(old(self).server_address@, ch, MAX_ADDRESS_BYTES as nat)
            } else {
                old(self).server_address@
            }),
            final(self).username@ == (if old(self).selected_field == MenuField::Username {
                typed(old(self).username@, ch, MAX_USERNAME_BYTES as nat)
            } else {
                old(self).username@
            }),
            final(self).selected_field == old(self).selected_field,
            final(self).error_message == old(self).error_message,
            final(self).status_message == old(self).status_message,
    {
        if !is_ascii_control(ch) {
            match self.selected_field {
                MenuField::ServerAddress => {
                    if utf8_len(&self.server_address) < MAX_ADDRESS_BYTES {
                        push_char(&mut self.server_address, ch);
                    }
                },
                MenuField::Username => {
                    if utf8_len(&self.username) < MAX_USERNAME_BYTES {
                        push_char(&mut self.username, ch);
                    }
                },
                MenuField::Unselected => {},
            }
        }
    }

    /// Deletes the last character of the selected field, if any.
    pub fn handle_backspace(&mut self)
        ensures
            final(self).server_address@ == (if old(self).selected_field == MenuField::ServerAddress
                && old(self).server_address@.len() > 0 {
                old(self).server_address@.drop_last()
            } else {
                old(self).server_address@
            }),
            final(self).username@ == (if old(self).selected_field == MenuField::Username
                && old(self).username@.len() > 0 {
                old(self).username@.drop_last()
            } else {
                old(self).username@
            }),
            final(self).selected_field == old(self).selected_field,
            final(self).error_message == old(self).error_message,
            final(self).status_message == old(self).status_message,
    {
        match self.selected_field {
            MenuField::ServerAddress => {
                pop_char(&mut self.server_address);
            },
            MenuField::Username => {
                pop_char(&mut self.username);
            },
            MenuField::Unselected => {},
        }
    }

    /// Moves the selection on: none, address, user name, then none again.
    pub fn next_field(&mut self)
        ensures
            final(self).selected_field == next_field_of(old(self).selected_field),
            final(self).server_address == old(self).server_address,
            final(self).username == old(self).username,
            final(self).error_message == old(self).error_message,
            final(self).status_message == old(self).status_message,
    {
        self.selected_field = match self.selected_field {
            MenuField::Unselected => MenuField::ServerAddress,
            MenuField::ServerAddress => MenuField::Username,
            MenuField::Username => MenuField::Unselected,
        };
    }

    /// Selects `field`.
    pub fn select_field(&mut self, field: MenuField)
        ensures
            final(self).selected_field == field,
            final(self).server_address == old(self).server_address,
            final(self).username == old(self).username,
            final(self).error_message == old(self).error_message,
            final(self).status_message == old(self).status_message,
    {
        self.selected_field = field;
    }

    /// Removes the error message.
    pub fn clear_error(&mut self)
        ensures
            final(self).error_message is None,
            final(self).server_address == old(self).server_address,
            final(self).username == old(self).username,
            final(self).selected_field == old(self).selected_field,
            final(self).status_message == old(self).status_message,
    {
        self.error_message = None;
    }

    /// Shows `msg` as the error message.
    pub fn set_error(&mut self, msg: &str)
        ensures
            final(self).error_message is Some,
            final(self).error_message.unwrap()@ == msg@,
            final(self).server_address == old(self).server_address,
            final(self).username == old(self).username,
            final(self).selected_field == old(self).selected_field,
            final(self).status_message == old(self).status_message,
    {
        self.error_message = Some(msg.to_owned());
    }

    /// Shows `msg` as the status message.
    pub fn set_status(&mut self, msg: &str)
        ensures
            final(self).status_message is Some,
            final(self).status_message.unwrap()@ == msg@,
            final(self).server_address == old(self).server_address,
            final(self).username == old(self).username,
            final(self).selected_field == old(self).selected_field,
            final(self).error_message == old(self).error_message,
    {
        self.status_message = Some(msg.to_owned());
    }

    /// A text field is selected.
    pub fn is_editing(&self) -> (b: bool)
        ensures
            b == (self.selected_field != MenuField::Unselected),
    {
        self.selected_field != MenuField::Unselected
    }
}

/// The field that follows `f` in the menu's cycle.
pub open spec fn next_field_of(f: MenuField) -> MenuField {
    match f {
        MenuField::Unselected => MenuField::ServerAddress,
        MenuField::ServerAddress => MenuField::Username,
        MenuField::Username => MenuField::Unselected,
    }
}

/// Cycling law: three presses of `next_field` bring the selection back.
pub proof fn lemma_next_field_cycle(f: MenuField)
    ensures
        next_field_of(next_field_of(next_field_of(f))) == f,
        next_field_of(f) != f,
{
}

/// Typing law: a field takes a typed character at its end exactly when the
/// character is not an ASCII control character (U+0000 to U+001F, U+007F)
/// and the field holds fewer bytes than its limit; otherwise it stays as it
/// was. Tab moves from no field to the address, to the user name, and back.
pub proof fn lemma_typing(text: Seq<char>, c: char, limit: nat)
    ensures
        typed(text, c, limit) == text || typed(text, c, limit) == text.push(c),
        ((c as u32) < 0x20 || (c as u32) == 0x7f) ==> typed(text, c, limit) == text,
        (c as u32) >= 0x20 && (c as u32) != 0x7f && encode_utf8(text).len() < limit ==> typed(text, c, limit) == text.push(c),
        encode_utf8(text).len() >= limit ==> typed(text, c, limit) == text,
        next_field_of(MenuField::Unselected) == MenuField::ServerAddress,
        next_field_of(MenuField::ServerAddress) == MenuField::Username,
        next_field_of(MenuField::Username) == MenuField::Unselected,
{
}

} // verus!
