//! The pause menu's screens and what each frame of input does to them.
use vstd::prelude::*;
use crate::text::{push_char, pop_char, trim_white_space, trimmed, is_white_space, lemma_trimmed_has_no_outer_white_space};

verus! {

/// The screen the pause menu shows.
pub enum MenuScreen {
    Root,
    /// Typing a room code; holds the digits typed so far.
    JoinInput(String),
    /// Typing a name; holds the text typed so far.
    NameInput(String),
}

/// The pause menu.
pub struct MenuState {
    pub screen: MenuScreen,
}

impl MenuState {
    /// A menu on its root screen.
    pub fn new() -> (menu: Self)
        ensures
            menu.screen is Root,
    {
        MenuState { screen: MenuScreen::Root }
    }
}

/// What the caller should do after a frame of menu input.
pub enum MenuAction {
    Nothing,
    Close,
    Host,
    Join(String),
    Leave,
    SetName(String),
}

/// The menu's buttons.
#[derive(Clone, Copy, PartialEq, Eq, Structural, Debug)]
pub enum MenuButton {
    /// "Name: ..." on the root screen.
    Name,
    /// "Leave Lobby" on the root screen, in a lobby.
    Leave,
    /// "Host a Lobby" on the root screen, alone.
    Host,
    /// "Join a Lobby" on the root screen, alone.
    Join,
    /// "Resume" on the root screen.
    Resume,
    /// "Join" or "Save" on a text screen.
    Confirm,
    /// "Back" on a text screen.
    Back,
}

/// One frame of input to the menu.
#[derive(Clone, Copy)]
pub struct MenuInput {
    pub escape: bool,
    /// The character typed this frame, if any.
    pub typed: Option<char>,
    pub backspace: bool,
    pub enter: bool,
    /// The button clicked this frame, if any.
    pub clicked: Option<MenuButton>,
}

/// A menu screen, as a mathematical value.
pub enum ScreenView {
    Root,
    JoinInput(Seq<char>),
    NameInput(Seq<char>),
}

/// A menu action, as a mathematical value.
pub enum ActionView {
    Nothing,
    Close,
    Host,
    Join(Seq<char>),
    Leave,
    SetName(Seq<char>),
}

impl DeepView for MenuScreen {
    type V = ScreenView;

    open spec fn deep_view(&self) -> ScreenView {
        match self {
            MenuScreen::Root => ScreenView::Root,
            MenuScreen::JoinInput(s) => ScreenView::JoinInput(s@),
            MenuScreen::NameInput(s) => ScreenView::NameInput(s@),
        }
    }
}

impl DeepView for MenuAction {
    type V = ActionView;

    open spec fn deep_view(&self) -> ActionView {
        match self {
            MenuAction::Nothing => ActionView::Nothing,
            MenuAction::Close => ActionView::Close,
            MenuAction::Host => ActionView::Host,
            MenuAction::Join(s) => ActionView::Join(s@),
            MenuAction::Leave => ActionView::Leave,
            MenuAction::SetName(s) => ActionView::SetName(s@),
        }
    }
}

/// The number of bytes of `s` in UTF-8, as `str::len` returns it.
pub open spec fn byte_len(s: Seq<char>) -> usize {
    vstd::utf8::encode_utf8(s).len() as usize
}

/// Whether `c` is an ASCII digit.
pub open spec fn is_digit(c: char) -> bool {
    '0' <= c <= '9'
}

/// Whether `c` is an ASCII letter or digit, or a space.
pub open spec fn is_name_char(c: char) -> bool {
    ||| '0' <= c <= '9'
    ||| 'a' <= c <= 'z'
    ||| 'A' <= c <= 'Z'
    ||| c == ' '
}

/// The longest room code, in bytes.
pub const ROOM_CODE_LEN: usize = 6;

/// The longest name that can be typed, in bytes.
pub const MAX_NAME_LEN: usize = 16;

/// Typing on the room code screen: a digit is appended while the code is
/// shorter than six bytes; Backspace then removes the last character.
pub open spec fn code_after_typing(digits: Seq<char>, input: MenuInput) -> Seq<char> {
    let typed = match input.typed {
        Some(c) => if is_digit(c) && byte_len(digits) < ROOM_CODE_LEN { digits.push(c) } else { digits },
        None => digits,
    };
    if input.backspace && typed.len() > 0 { typed.drop_last() } else { typed }
}

/// Typing on the name screen: a letter, digit or space is appended while the
/// name is shorter than sixteen bytes; Backspace then removes the last
/// character.
pub open spec fn name_after_typing(name: Seq<char>, input: MenuInput) -> Seq<char> {
    let typed = match input.typed {
        Some(c) => if is_name_char(c) && byte_len(name) < MAX_NAME_LEN { name.push(c) } else { name },
        None => name,
    };
    if input.backspace && typed.len() > 0 { typed.drop_last() } else { typed }
}

/// What one frame of input does to the menu: the screen it leaves and the
/// action for the caller.
/// - Root: Escape or Resume closes; Name opens the name screen with the
///   current name; in a lobby, Leave leaves; alone, Host hosts and Join
///   opens the room code screen, empty.
/// - Room code: Escape or Back returns to the root; typing edits the code;
///   Enter or Join with six bytes typed joins that room.
/// - Name: Escape or Back returns to the root; typing edits the name; Enter
///   or Save, when the name is not only white space, sets the name, trimmed.
pub open spec fn menu_spec(screen: ScreenView, in_lobby: bool, player_name: Seq<char>, input: MenuInput) -> (ScreenView, ActionView) {
    match screen {
        ScreenView::Root => {
            if input.escape {
                (screen, ActionView::Close)
            } else if input.clicked == Some(MenuButton::Name) {
                (ScreenView::NameInput(player_name), ActionView::Nothing)
            } else if in_lobby && input.clicked == Some(MenuButton::Leave) {
                (screen, ActionView::Leave)
            } else if !in_lobby && input.clicked == Some(MenuButton::Host) {
                (screen, ActionView::Host)
            } else if !in_lobby && input.clicked == Some(MenuButton::Join) {
                (ScreenView::JoinInput(Seq::empty()), ActionView::Nothing)
            } else if input.clicked == Some(MenuButton::Resume) {
                (screen, ActionView::Close)
            } else {
                (screen, ActionView::Nothing)
            }
        },
        ScreenView::JoinInput(digits) => {
            if input.escape {
                (ScreenView::Root, ActionView::Nothing)
            } else {
                let code = code_after_typing(digits, input);
                let ready = byte_len(code) == ROOM_CODE_LEN;
                if ready && (input.enter || input.clicked == Some(MenuButton::Confirm)) {
                    (ScreenView::JoinInput(code), ActionView::Join(code))
                } else if input.clicked == Some(MenuButton::Back) {
                    (ScreenView::Root, ActionView::Nothing)
                } else {
                    (ScreenView::JoinInput(code), ActionView::Nothing)
                }
            }
        },
        ScreenView::NameInput(name) => {
            if input.escape {
                (ScreenView::Root, ActionView::Nothing)
            } else {
                let typed = name_after_typing(name, input);
                let ready = trimmed(typed).len() > 0;
                if ready && (input.enter || input.clicked == Some(MenuButton::Confirm)) {
                    (ScreenView::NameInput(typed), ActionView::SetName(trimmed(typed)))
                } else if input.clicked == Some(MenuButton::Back) {
                    (ScreenView::Root, ActionView::Nothing)
                } else {
                    (ScreenView::NameInput(typed), ActionView::Nothing)
                }
            }
        },
    }
}

fn is_digit_char(c: char) -> (res: bool)
    ensures
        res == is_digit(c),
{
    '0' <= c && c <= '9'
}

fn is_name_char_exec(c: char) -> (res: bool)
    ensures
        res == is_name_char(c),
{
    ('0' <= c && c <= '9') || ('a' <= c && c <= 'z') || ('A' <= c && c <= 'Z') || c == ' '
}

fn edit_code(digits: &mut String, input: MenuInput)
    ensures
        final(digits)@ == code_after_typing(old(digits)@, input),
{
    if let Some(c) = input.typed {
        if is_digit_char(c) && digits.as_str().len() < ROOM_CODE_LEN {
            push_char(digits, c);
        }
    }
    if input.backspace {
        pop_char(digits);
    }
}

fn edit_name(name: &mut String, input: MenuInput)
    ensures
        final(name)@ == name_after_typing(old(name)@, input),
{
    if let Some(c) = input.typed {
        if is_name_char_exec(c) && name.as_str().len() < MAX_NAME_LEN {
            push_char(name, c);
        }
    }
    if input.backspace {
        pop_char(name);
    }
}

fn clicked(input: MenuInput, button: MenuButton) -> (res: bool)
    ensures
        res == (input.clicked == Some(button)),
{
    match input.clicked {
        Some(b) => b == button,
        None => false,
    }
}

/// Takes in one frame of menu input, as `menu_spec` describes. `in_lobby`
/// says whether a lobby is joined; `player_name` is the current name.
pub fn update_menu(menu: &mut MenuState, in_lobby: bool, player_name: &str, input: MenuInput) -> (action: MenuAction)
    ensures
        (final(menu).screen.deep_view(), action.deep_view()) == menu_spec(
            old(menu).screen.deep_view(),
            in_lobby,
            player_name@,
            input,
        ),
{
    let mut screen = MenuScreen::Root;
    std::mem::swap(&mut screen, &mut menu.screen);
    match screen {
        MenuScreen::Root => {
            if input.escape {
                return MenuAction::Close;
            }
            if clicked(input, MenuButton::Name) {
                menu.screen = MenuScreen::NameInput(player_name.to_owned());
                return MenuAction::Nothing;
            }
            if in_lobby {
                if clicked(input, MenuButton::Leave) {
                    return MenuAction::Leave;
                }
            } else {
                if clicked(input, MenuButton::Host) {
                    return MenuAction::Host;
                }
                if clicked(input, MenuButton::Join) {
                    menu.screen = MenuScreen::JoinInput(String::new());
                    return MenuAction::Nothing;
                }
            }
            if clicked(input, MenuButton::Resume) {
                return MenuAction::Close;
            }
            MenuAction::Nothing
        },
        MenuScreen::JoinInput(digits) => {
            if input.escape {
                return MenuAction::Nothing;
            }
            let mut digits = digits;
            edit_code(&mut digits, input);
            let ready = digits.as_str().len() == ROOM_CODE_LEN;
            if ready && (input.enter || clicked(input, MenuButton::Confirm)) {
                let code = digits.clone();
                menu.screen = MenuScreen::JoinInput(digits);
                return MenuAction::Join(code);
            }
            if clicked(input, MenuButton::Back) {
                return MenuAction::Nothing;
            }
            menu.screen = MenuScreen::JoinInput(digits);
            MenuAction::Nothing
        },
        MenuScreen::NameInput(name) => {
            if input.escape {
                return MenuAction::Nothing;
            }
            let mut name = name;
            edit_name(&mut name, input);
            let trimmed_name = trim_white_space(name.as_str());
            let ready = !trimmed_name.as_str().is_empty();
            if ready && (input.enter || clicked(input, MenuButton::Confirm)) {
                menu.screen = MenuScreen::NameInput(name);
                return MenuAction::SetName(trimmed_name);
            }
            if clicked(input, MenuButton::Back) {
                return MenuAction::Nothing;
            }
            menu.screen = MenuScreen::NameInput(name);
            MenuAction::Nothing
        },
    }
}

/// Whether `s` is a room code in the making: at most six ASCII digits.
pub open spec fn is_partial_code(s: Seq<char>) -> bool {
    s.len() <= ROOM_CODE_LEN && forall|i: int| 0 <= i < s.len() ==> is_digit(#[trigger] s[i])
}

proof fn lemma_digits_byte_len(s: Seq<char>)
    requires
        forall|i: int| 0 <= i < s.len() ==> is_digit(#[trigger] s[i]),
        s.len() <= usize::MAX,
    ensures
        byte_len(s) == s.len(),
{
    assert(vstd::utf8::is_ascii_chars(s));
    vstd::utf8::is_ascii_chars_encode_utf8(s);
}

/// The room code screen only ever holds up to six digits, and the menu only
/// asks to join a room with a code of exactly six digits.
pub proof fn lemma_room_codes_are_six_digits(digits: Seq<char>, in_lobby: bool, player_name: Seq<char>, input: MenuInput)
    requires
        is_partial_code(digits),
    ensures
        ({
            let (screen, action) = menu_spec(ScreenView::JoinInput(digits), in_lobby, player_name, input);
            &&& screen matches ScreenView::JoinInput(d) ==> is_partial_code(d)
            &&& action matches ActionView::Join(code) ==> code.len() == ROOM_CODE_LEN && is_partial_code(code)
        }),
{
    lemma_digits_byte_len(digits);
    let typed = match input.typed {
        Some(c) => if is_digit(c) && byte_len(digits) < ROOM_CODE_LEN { digits.push(c) } else { digits },
        None => digits,
    };
    assert(forall|i: int| 0 <= i < typed.len() ==> is_digit(#[trigger] typed[i]));
    let code = code_after_typing(digits, input);
    assert(forall|i: int| 0 <= i < code.len() ==> is_digit(#[trigger] code[i])) by {
        if input.backspace && typed.len() > 0 {
            assert forall|i: int| 0 <= i < code.len() implies is_digit(#[trigger] code[i]) by {
                assert(code[i] == typed[i]);
            }
        }
    }
    lemma_digits_byte_len(code);
}

/// On the root screen every button shown does what its label says, in a
/// lobby or not: Escape and "Resume" close the menu, "Name: ..." opens the
/// name screen with the current name, "Leave Lobby" (shown only in a lobby)
/// leaves, "Host a Lobby" (shown only outside one) hosts, and "Join a Lobby"
/// (shown only outside one) opens an empty room-code screen. A button not
/// shown, or no click at all, does nothing and the menu stays on the root.
pub proof fn lemma_root_buttons_do_what_they_say(in_lobby: bool, player_name: Seq<char>, input: MenuInput)
    ensures
        input.escape ==> menu_spec(ScreenView::Root, in_lobby, player_name, input) == (ScreenView::Root, ActionView::Close),
        !input.escape && input.clicked == Some(MenuButton::Resume) ==> menu_spec(
            ScreenView::Root,
            in_lobby,
            player_name,
            input,
        ) == (ScreenView::Root, ActionView::Close),
        !input.escape && input.clicked == Some(MenuButton::Name) ==> menu_spec(
            ScreenView::Root,
            in_lobby,
            player_name,
            input,
        ) == (ScreenView::NameInput(player_name), ActionView::Nothing),
        !input.escape && input.clicked == Some(MenuButton::Leave) ==> menu_spec(
            ScreenView::Root,
            in_lobby,
            player_name,
            input,
        ) == (ScreenView::Root, if in_lobby { ActionView::Leave } else { ActionView::Nothing }),
        !input.escape && input.clicked == Some(MenuButton::Host) ==> menu_spec(
            ScreenView::Root,
            in_lobby,
            player_name,
            input,
        ) == (ScreenView::Root, if in_lobby { ActionView::Nothing } else { ActionView::Host }),
        !input.escape && input.clicked == Some(MenuButton::Join) ==> menu_spec(
            ScreenView::Root,
            in_lobby,
            player_name,
            input,
        ) == if in_lobby {
            (ScreenView::Root, ActionView::Nothing)
        } else {
            (ScreenView::JoinInput(Seq::empty()), ActionView::Nothing)
        },
        !input.escape && (input.clicked is None || input.clicked == Some(MenuButton::Confirm) || input.clicked == Some(
            MenuButton::Back,
        )) ==> menu_spec(ScreenView::Root, in_lobby, player_name, input) == (ScreenView::Root, ActionView::Nothing),
{
}

/// The menu only ever sets a name that is not blank and neither starts nor
/// ends with white space.
pub proof fn lemma_names_are_trimmed(screen: ScreenView, in_lobby: bool, player_name: Seq<char>, input: MenuInput)
    ensures
        menu_spec(screen, in_lobby, player_name, input).1 matches ActionView::SetName(name) ==> name.len() > 0
            && !is_white_space(name[0]) && !is_white_space(name.last()),
{
    if let ScreenView::NameInput(n) = screen {
        lemma_trimmed_has_no_outer_white_space(name_after_typing(n, input));
    }
}

proof fn lemma_encode_utf8_add(a: Seq<char>, b: Seq<char>)
    ensures
        vstd::utf8::encode_utf8(a + b) == vstd::utf8::encode_utf8(a) + vstd::utf8::encode_utf8(b),
    decreases a.len(),
{
    if a.len() == 0 {
        assert(a + b =~= b);
        assert(vstd::utf8::encode_utf8(a) =~= Seq::<u8>::empty());
        assert(vstd::utf8::encode_utf8(a) + vstd::utf8::encode_utf8(b) =~= vstd::utf8::encode_utf8(b));
    } else {
        lemma_encode_utf8_add(a.drop_first(), b);
        assert((a + b).drop_first() =~= a.drop_first() + b);
        assert((a + b)[0] == a[0]);
        assert(vstd::utf8::encode_utf8(a + b) =~= vstd::utf8::encode_scalar(a[0] as u32) + vstd::utf8::encode_utf8(
            a.drop_first() + b,
        ));
    }
}

/// Appending a character grows the UTF-8 length by that character's width,
/// which is one for an ASCII character.
proof fn lemma_utf8_len_push(s: Seq<char>, c: char)
    ensures
        vstd::utf8::encode_utf8(s.push(c)).len() >= vstd::utf8::encode_utf8(s).len(),
        (c as u32) < 0x80 ==> vstd::utf8::encode_utf8(s.push(c)).len() == vstd::utf8::encode_utf8(s).len() + 1,
{
    lemma_encode_utf8_add(s, seq![c]);
    assert(s.push(c) =~= s + seq![c]);
    assert(seq![c].drop_first() =~= Seq::<char>::empty());
    assert(vstd::utf8::encode_utf8(seq![c]) =~= vstd::utf8::encode_scalar(c as u32) + vstd::utf8::encode_utf8(
        Seq::<char>::empty(),
    ));
}

/// What typing can do to a name in one frame: nothing, append one letter,
/// digit or space, remove the last character, or both.
pub open spec fn one_typing_step(name: Seq<char>, typed: Seq<char>) -> bool {
    ||| typed == name
    ||| name.len() > 0 && typed == name.drop_last()
    ||| exists|c: char| is_name_char(c) && typed == #[trigger] name.push(c)
}

/// On the name screen a name within sixteen bytes stays within sixteen
/// bytes, and a frame of input changes it by at most one typing step. The
/// screen only ever asks to set a name, never to host, join, leave or close,
/// and the name it sets is the trimmed text on the screen, never blank.
pub proof fn lemma_typed_names_stay_short(name: Seq<char>, in_lobby: bool, player_name: Seq<char>, input: MenuInput)
    requires
        vstd::utf8::encode_utf8(name).len() <= MAX_NAME_LEN,
    ensures
        ({
            let (screen, action) = menu_spec(ScreenView::NameInput(name), in_lobby, player_name, input);
            &&& action is Nothing || action is SetName
            &&& screen matches ScreenView::NameInput(m) ==> vstd::utf8::encode_utf8(m).len() <= MAX_NAME_LEN
                && one_typing_step(name, m)
            &&& action matches ActionView::SetName(n) ==> (screen matches ScreenView::NameInput(m) && n == trimmed(m)
                && n.len() > 0)
        }),
{
    let typed = match input.typed {
        Some(c) => if is_name_char(c) && byte_len(name) < MAX_NAME_LEN { name.push(c) } else { name },
        None => name,
    };
    let m = name_after_typing(name, input);
    if let Some(c) = input.typed {
        lemma_utf8_len_push(name, c);
        if typed != name {
            assert(one_typing_step(name, typed));
        }
    }
    if input.backspace && typed.len() > 0 {
        lemma_utf8_len_push(typed.drop_last(), typed.last());
        assert(typed.drop_last().push(typed.last()) =~= typed);
        if typed != name {
            assert(m =~= name);
        }
    }
}

} // verus!
