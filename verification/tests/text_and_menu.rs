use os_paint::menu::{update_menu, MenuAction, MenuButton, MenuInput, MenuScreen, MenuState};
use os_paint::text::{
    default_player_name, generate_room_code, guest_label, player_name, room_code, room_url, trim_white_space,
};

#[test]
fn room_codes_are_six_zero_padded_digits() {
    assert_eq!(room_code(0), "000000");
    assert_eq!(room_code(42), "000042");
    assert_eq!(room_code(999_999), "999999");
    for _ in 0..20 {
        let code = generate_room_code();
        assert_eq!(code.len(), 6);
        assert!(code.chars().all(|c| c.is_ascii_digit()));
    }
}

#[test]
fn player_names_have_four_digits() {
    assert_eq!(player_name(7), "Player0007");
    assert_eq!(player_name(9_999), "Player9999");
    let name = default_player_name();
    assert_eq!(name.len(), 10);
    assert!(name.starts_with("Player"));
    assert!(name[6..].chars().all(|c| c.is_ascii_digit()));
}

#[test]
fn guest_labels_use_the_low_sixteen_bits_in_hex() {
    assert_eq!(guest_label(0), "Guest-0000");
    assert_eq!(guest_label(0xABCD_1234), "Guest-1234");
    assert_eq!(guest_label(0xFFFF_FFFF_FFFF_00AF), "Guest-00AF");
    assert_eq!(guest_label(0xBEEF), "Guest-BEEF");
}

#[test]
fn room_urls_join_server_and_code_with_one_slash() {
    assert_eq!(room_url("wss://host.example", "123456"), "wss://host.example/123456");
    assert_eq!(room_url("wss://host.example/", "123456"), "wss://host.example/123456");
    assert_eq!(room_url("wss://host.example///", "000001"), "wss://host.example/000001");
    assert_eq!(room_url("", "1"), "/1");
    assert_eq!(room_url("/", "1"), "/1");
}

#[test]
fn trimming_removes_unicode_white_space_at_both_ends() {
    assert_eq!(trim_white_space("  Ada  Lovelace \t"), "Ada  Lovelace");
    assert_eq!(trim_white_space("   "), "");
    assert_eq!(trim_white_space(""), "");
    assert_eq!(trim_white_space("\u{3000}x\u{85}"), "x");
    for s in ["a b", " \n z\u{2009}", "\u{a0}\u{1680}q r\u{202f}"] {
        assert_eq!(trim_white_space(s), s.trim());
    }
}

fn input() -> MenuInput {
    MenuInput { escape: false, typed: None, backspace: false, enter: false, clicked: None }
}

fn typed(c: char) -> MenuInput {
    MenuInput { typed: Some(c), ..input() }
}

fn click(b: MenuButton) -> MenuInput {
    MenuInput { clicked: Some(b), ..input() }
}

#[test]
fn root_menu_buttons() {
    let mut menu = MenuState::new();
    assert!(matches!(update_menu(&mut menu, false, "Ada", MenuInput { escape: true, ..input() }), MenuAction::Close));
    assert!(matches!(update_menu(&mut menu, false, "Ada", click(MenuButton::Resume)), MenuAction::Close));
    assert!(matches!(update_menu(&mut menu, false, "Ada", click(MenuButton::Host)), MenuAction::Host));
    assert!(matches!(update_menu(&mut menu, true, "Ada", click(MenuButton::Host)), MenuAction::Nothing));
    assert!(matches!(update_menu(&mut menu, false, "Ada", click(MenuButton::Leave)), MenuAction::Nothing));
    assert!(matches!(update_menu(&mut menu, true, "Ada", click(MenuButton::Leave)), MenuAction::Leave));
    assert!(matches!(menu.screen, MenuScreen::Root));
    assert!(matches!(update_menu(&mut menu, false, "Ada", click(MenuButton::Name)), MenuAction::Nothing));
    assert!(matches!(menu.screen, MenuScreen::NameInput(ref n) if n == "Ada"));
    let mut menu = MenuState::new();
    assert!(matches!(update_menu(&mut menu, true, "Ada", click(MenuButton::Join)), MenuAction::Nothing));
    assert!(matches!(menu.screen, MenuScreen::Root));
    update_menu(&mut menu, false, "Ada", click(MenuButton::Join));
    assert!(matches!(menu.screen, MenuScreen::JoinInput(ref d) if d.is_empty()));
}

#[test]
fn join_screen_takes_six_digits() {
    let mut menu = MenuState { screen: MenuScreen::JoinInput(String::new()) };
    for c in ['1', 'x', '2', ' ', '3', '4', '5', '6', '7'] {
        assert!(matches!(update_menu(&mut menu, false, "Ada", typed(c)), MenuAction::Nothing));
    }
    assert!(matches!(menu.screen, MenuScreen::JoinInput(ref d) if d == "123456"));
    update_menu(&mut menu, false, "Ada", MenuInput { backspace: true, ..input() });
    assert!(matches!(menu.screen, MenuScreen::JoinInput(ref d) if d == "12345"));
    assert!(matches!(update_menu(&mut menu, false, "Ada", MenuInput { enter: true, ..input() }), MenuAction::Nothing));
    assert!(matches!(update_menu(&mut menu, false, "Ada", click(MenuButton::Confirm)), MenuAction::Nothing));
    let action = update_menu(&mut menu, false, "Ada", MenuInput { typed: Some('9'), enter: true, ..input() });
    assert!(matches!(action, MenuAction::Join(ref code) if code == "123459"));
    assert!(matches!(update_menu(&mut menu, false, "Ada", click(MenuButton::Confirm)), MenuAction::Join(ref c) if c == "123459"));
    update_menu(&mut menu, false, "Ada", click(MenuButton::Back));
    assert!(matches!(menu.screen, MenuScreen::Root));
    let mut menu = MenuState { screen: MenuScreen::JoinInput("12".to_string()) };
    update_menu(&mut menu, false, "Ada", MenuInput { escape: true, typed: Some('3'), ..input() });
    assert!(matches!(menu.screen, MenuScreen::Root));
}

#[test]
fn name_screen_saves_trimmed_names() {
    let mut menu = MenuState { screen: MenuScreen::NameInput(String::new()) };
    for c in [' ', 'A', '-', 'd', 'a', ' ', '!'] {
        update_menu(&mut menu, false, "x", typed(c));
    }
    assert!(matches!(menu.screen, MenuScreen::NameInput(ref n) if n == " Ada "));
    let action = update_menu(&mut menu, false, "x", MenuInput { enter: true, ..input() });
    assert!(matches!(action, MenuAction::SetName(ref n) if n == "Ada"));
    let mut menu = MenuState { screen: MenuScreen::NameInput("   ".to_string()) };
    assert!(matches!(update_menu(&mut menu, false, "x", click(MenuButton::Confirm)), MenuAction::Nothing));
    let mut menu = MenuState { screen: MenuScreen::NameInput("abcdefghijklmnop".to_string()) };
    update_menu(&mut menu, false, "x", typed('q'));
    assert!(matches!(menu.screen, MenuScreen::NameInput(ref n) if n == "abcdefghijklmnop"));
    update_menu(&mut menu, false, "x", MenuInput { typed: Some('q'), backspace: true, ..input() });
    assert!(matches!(menu.screen, MenuScreen::NameInput(ref n) if n == "abcdefghijklmno"));
    update_menu(&mut menu, false, "x", click(MenuButton::Back));
    assert!(matches!(menu.screen, MenuScreen::Root));
}

#[test]
fn typed_names_stay_within_sixteen_bytes() {
    let mut menu = MenuState { screen: MenuScreen::NameInput("é".repeat(7)) };
    update_menu(&mut menu, false, "x", typed('a'));
    assert!(matches!(menu.screen, MenuScreen::NameInput(ref n) if n.len() == 15));
    update_menu(&mut menu, false, "x", typed('é'));
    assert!(matches!(menu.screen, MenuScreen::NameInput(ref n) if n.len() == 15));
    update_menu(&mut menu, false, "x", typed('b'));
    assert!(matches!(menu.screen, MenuScreen::NameInput(ref n) if n.len() == 16 && n.ends_with("ab")));
    update_menu(&mut menu, false, "x", typed('c'));
    assert!(matches!(menu.screen, MenuScreen::NameInput(ref n) if n.len() == 16));
}
