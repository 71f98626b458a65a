//! The keys that travel from the viewer to the host, and the names they travel under.

use crate::text;
use vstd::prelude::*;

verus! {

/// A key that the host can press.
#[derive(Debug, Clone, Copy, PartialEq, Eq, Structural)]
pub enum Key {
    /// The key that types a character.
    Unicode(char),
    Return,
    Tab,
    Space,
    Backspace,
    Escape,
    Delete,
    UpArrow,
    DownArrow,
    LeftArrow,
    RightArrow,
    Home,
    End,
    PageUp,
    PageDown,
    F1,
    F2,
    F3,
    F4,
    F5,
    F6,
    F7,
    F8,
    F9,
    F10,
    F11,
    F12,
    Meta,
    Shift,
    Control,
    Alt,
}

/// A key of the viewer's keyboard.
#[derive(Debug, Clone, Copy, PartialEq, Eq, Structural)]
pub enum ViewerKey {
    Enter,
    Tab,
    Space,
    Backspace,
    Escape,
    Delete,
    ArrowUp,
    ArrowDown,
    ArrowLeft,
    ArrowRight,
    Home,
    End,
    PageUp,
    PageDown,
    F1,
    F2,
    F3,
    F4,
    F5,
    F6,
    F7,
    F8,
    F9,
    F10,
    F11,
    F12,
    A,
    B,
    C,
    D,
    E,
    F,
    G,
    H,
    I,
    J,
    K,
    L,
    M,
    N,
    O,
    P,
    Q,
    R,
    S,
    T,
    U,
    V,
    W,
    X,
    Y,
    Z,
    Num0,
    Num1,
    Num2,
    Num3,
    Num4,
    Num5,
    Num6,
    Num7,
    Num8,
    Num9,
    /// A key that has no name on the host.
    Other,
}

/// The host's key of a name. A single ASCII character names the key that types it.
pub open spec fn key_named(name: Seq<char>) -> Option<Key> {
    if name.len() == 1 && name[0] as u32 <= 0x7f {
        Some(Key::Unicode(name[0]))
    } else if name == "return"@ || name == "enter"@ {
        Some(Key::Return)
    } else if name == "tab"@ {
        Some(Key::Tab)
    } else if name == "space"@ {
        Some(Key::Space)
    } else if name == "backspace"@ {
        Some(Key::Backspace)
    } else if name == "escape"@ || name == "esc"@ {
        Some(Key::Escape)
    } else if name == "delete"@ {
        Some(Key::Delete)
    } else if name == "up"@ {
        Some(Key::UpArrow)
    } else if name == "down"@ {
        Some(Key::DownArrow)
    } else if name == "left"@ {
        Some(Key::LeftArrow)
    } else if name == "right"@ {
        Some(Key::RightArrow)
    } else if name == "home"@ {
        Some(Key::Home)
    } else if name == "end"@ {
        Some(Key::End)
    } else if name == "pageup"@ {
        Some(Key::PageUp)
    } else if name == "pagedown"@ {
        Some(Key::PageDown)
    } else if name == "f1"@ {
        Some(Key::F1)
    } else if name == "f2"@ {
        Some(Key::F2)
    } else if name == "f3"@ {
        Some(Key::F3)
    } else if name == "f4"@ {
        Some(Key::F4)
    } else if name == "f5"@ {
        Some(Key::F5)
    } else if name == "f6"@ {
        Some(Key::F6)
    } else if name == "f7"@ {
        Some(Key::F7)
    } else if name == "f8"@ {
        Some(Key::F8)
    } else if name == "f9"@ {
        Some(Key::F9)
    } else if name == "f10"@ {
        Some(Key::F10)
    } else if name == "f11"@ {
        Some(Key::F11)
    } else if name == "f12"@ {
        Some(Key::F12)
    } else if name == "meta"@ || name == "command"@ || name == "super"@ {
        Some(Key::Meta)
    } else if name == "shift"@ {
        Some(Key::Shift)
    } else if name == "control"@ || name == "ctrl"@ {
        Some(Key::Control)
    } else if name == "alt"@ || name == "option"@ {
        Some(Key::Alt)
    } else {
        None
    }
}

/// Whether the characters spell a name.
fn spells(chars: &Vec<char>, name: &str) -> (res: bool)
    ensures
        res == (chars@ == name@),
{
    let wanted: Vec<char> = text::chars_of(name);
    text::same_chars(chars, &wanted)
}

/// Finds the host's key of a name; `None` where the host knows no such key.
pub fn map_key(name: &str) -> (res: Option<Key>)
    ensures
        res == key_named(name@),
{
    let c: Vec<char> = text::chars_of(name);
    if c.len() == 1 && c[0] as u32 <= 0x7f {
        Some(Key::Unicode(c[0]))
    } else if spells(&c, "return") || spells(&c, "enter") {
        Some(Key::Return)
    } else if spells(&c, "tab") {
        Some(Key::Tab)
    } else if spells(&c, "space") {
        Some(Key::Space)
    } else if spells(&c, "backspace") {
        Some(Key::Backspace)
    } else if spells(&c, "escape") || spells(&c, "esc") {
        Some(Key::Escape)
    } else if spells(&c, "delete") {
        Some(Key::Delete)
    } else if spells(&c, "up") {
        Some(Key::UpArrow)
    } else if spells(&c, "down") {
        Some(Key::DownArrow)
    } else if spells(&c, "left") {
        Some(Key::LeftArrow)
    } else if spells(&c, "right") {
        Some(Key::RightArrow)
    } else if spells(&c, "home") {
        Some(Key::Home)
    } else if spells(&c, "end") {
        Some(Key::End)
    } else if spells(&c, "pageup") {
        Some(Key::PageUp)
    } else if spells(&c, "pagedown") {
        Some(Key::PageDown)
    } else if spells(&c, "f1") {
        Some(Key::F1)
    } else if spells(&c, "f2") {
        Some(Key::F2)
    } else if spells(&c, "f3") {
        Some(Key::F3)
    } else if spells(&c, "f4") {
        Some(Key::F4)
    } else if spells(&c, "f5") {
        Some(Key::F5)
    } else if spells(&c, "f6") {
        Some(Key::F6)
    } else if spells(&c, "f7") {
        Some(Key::F7)
    } else if spells(&c, "f8") {
        Some(Key::F8)
    } else if spells(&c, "f9") {
        Some(Key::F9)
    } else if spells(&c, "f10") {
        Some(Key::F10)
    } else if spells(&c, "f11") {
        Some(Key::F11)
    } else if spells(&c, "f12") {
        Some(Key::F12)
    } else if spells(&c, "meta") || spells(&c, "command") || spells(&c, "super") {
        Some(Key::Meta)
    } else if spells(&c, "shift") {
        Some(Key::Shift)
    } else if spells(&c, "control") || spells(&c, "ctrl") {
        Some(Key::Control)
    } else if spells(&c, "alt") || spells(&c, "option") {
        Some(Key::Alt)
    } else {
        None
    }
}

/// The name under which the viewer sends a key; `None` for a key that it does not send.
pub open spec fn host_name(key: ViewerKey) -> Option<Seq<char>> {
    match key {
        ViewerKey::Enter => Some("return"@),
        ViewerKey::Tab => Some("tab"@),
        ViewerKey::Space => Some("space"@),
        ViewerKey::Backspace => Some("backspace"@),
        ViewerKey::Escape => Some("escape"@),
        ViewerKey::Delete => Some("delete"@),
        ViewerKey::ArrowUp => Some("up"@),
        ViewerKey::ArrowDown => Some("down"@),
        ViewerKey::ArrowLeft => Some("left"@),
        ViewerKey::ArrowRight => Some("right"@),
        ViewerKey::Home => Some("home"@),
        ViewerKey::End => Some("end"@),
        ViewerKey::PageUp => Some("pageup"@),
        ViewerKey::PageDown => Some("pagedown"@),
        ViewerKey::F1 => Some("f1"@),
        ViewerKey::F2 => Some("f2"@),
        ViewerKey::F3 => Some("f3"@),
        ViewerKey::F4 => Some("f4"@),
        ViewerKey::F5 => Some("f5"@),
        ViewerKey::F6 => Some("f6"@),
        ViewerKey::F7 => Some("f7"@),
        ViewerKey::F8 => Some("f8"@),
        ViewerKey::F9 => Some("f9"@),
        ViewerKey::F10 => Some("f10"@),
        ViewerKey::F11 => Some("f11"@),
        ViewerKey::F12 => Some("f12"@),
        ViewerKey::A => Some("a"@),
        ViewerKey::B => Some("b"@),
        ViewerKey::C => Some("c"@),
        ViewerKey::D => Some("d"@),
        ViewerKey::E => Some("e"@),
        ViewerKey::F => Some("f"@),
        ViewerKey::G => Some("g"@),
        ViewerKey::H => Some("h"@),
        ViewerKey::I => Some("i"@),
        ViewerKey::J => Some("j"@),
        ViewerKey::K => Some("k"@),
        ViewerKey::L => Some("l"@),
        ViewerKey::M => Some("m"@),
        ViewerKey::N => Some("n"@),
        ViewerKey::O => Some("o"@),
        ViewerKey::P => Some("p"@),
        ViewerKey::Q => Some("q"@),
        ViewerKey::R => Some("r"@),
        ViewerKey::S => Some("s"@),
        ViewerKey::T => Some("t"@),
        ViewerKey::U => Some("u"@),
        ViewerKey::V => Some("v"@),
        ViewerKey::W => Some("w"@),
        ViewerKey::X => Some("x"@),
        ViewerKey::Y => Some("y"@),
        ViewerKey::Z => Some("z"@),
        ViewerKey::Num0 => Some("0"@),
        ViewerKey::Num1 => Some("1"@),
        ViewerKey::Num2 => Some("2"@),
        ViewerKey::Num3 => Some("3"@),
        ViewerKey::Num4 => Some("4"@),
        ViewerKey::Num5 => Some("5"@),
        ViewerKey::Num6 => Some("6"@),
        ViewerKey::Num7 => Some("7"@),
        ViewerKey::Num8 => Some("8"@),
        ViewerKey::Num9 => Some("9"@),
        ViewerKey::Other => None,
    }
}

/// The name under which the viewer sends a key; `None` for a key that it does not send.
pub fn key_to_host_name(key: ViewerKey) -> (res: Option<String>)
    ensures
        match res {
            Some(name) => host_name(key) == Some(name@),
            None => host_name(key) is None,
        },
{
    let name: &str = match key {
        ViewerKey::Enter => "return",
        ViewerKey::Tab => "tab",
        ViewerKey::Space => "space",
        ViewerKey::Backspace => "backspace",
        ViewerKey::Escape => "escape",
        ViewerKey::Delete => "delete",
        ViewerKey::ArrowUp => "up",
        ViewerKey::ArrowDown => "down",
        ViewerKey::ArrowLeft => "left",
        ViewerKey::ArrowRight => "right",
        ViewerKey::Home => "home",
        ViewerKey::End => "end",
        ViewerKey::PageUp => "pageup",
        ViewerKey::PageDown => "pagedown",
        ViewerKey::F1 => "f1",
        ViewerKey::F2 => "f2",
        ViewerKey::F3 => "f3",
        ViewerKey::F4 => "f4",
        ViewerKey::F5 => "f5",
        ViewerKey::F6 => "f6",
        ViewerKey::F7 => "f7",
        ViewerKey::F8 => "f8",
        ViewerKey::F9 => "f9",
        ViewerKey::F10 => "f10",
        ViewerKey::F11 => "f11",
        ViewerKey::F12 => "f12",
        ViewerKey::A => "a",
        ViewerKey::B => "b",
        ViewerKey::C => "c",
        ViewerKey::D => "d",
        ViewerKey::E => "e",
        ViewerKey::F => "f",
        ViewerKey::G => "g",
        ViewerKey::H => "h",
        ViewerKey::I => "i",
        ViewerKey::J => "j",
        ViewerKey::K => "k",
        ViewerKey::L => "l",
        ViewerKey::M => "m",
        ViewerKey::N => "n",
        ViewerKey::O => "o",
        ViewerKey::P => "p",
        ViewerKey::Q => "q",
        ViewerKey::R => "r",
        ViewerKey::S => "s",
        ViewerKey::T => "t",
        ViewerKey::U => "u",
        ViewerKey::V => "v",
        ViewerKey::W => "w",
        ViewerKey::X => "x",
        ViewerKey::Y => "y",
        ViewerKey::Z => "z",
        ViewerKey::Num0 => "0",
        ViewerKey::Num1 => "1",
        ViewerKey::Num2 => "2",
        ViewerKey::Num3 => "3",
        ViewerKey::Num4 => "4",
        ViewerKey::Num5 => "5",
        ViewerKey::Num6 => "6",
        ViewerKey::Num7 => "7",
        ViewerKey::Num8 => "8",
        ViewerKey::Num9 => "9",
        ViewerKey::Other => {
            return None;
        },
    };
    Some(name.to_owned())
}

/// The key that the host presses for a key of the viewer.
pub open spec fn pressed_key(key: ViewerKey) -> Option<Key> {
    match key {
        ViewerKey::Enter => Some(Key::Return),
        ViewerKey::Tab => Some(Key::Tab),
        ViewerKey::Space => Some(Key::Space),
        ViewerKey::Backspace => Some(Key::Backspace),
        ViewerKey::Escape => Some(Key::Escape),
        ViewerKey::Delete => Some(Key::Delete),
        ViewerKey::ArrowUp => Some(Key::UpArrow),
        ViewerKey::ArrowDown => Some(Key::DownArrow),
        ViewerKey::ArrowLeft => Some(Key::LeftArrow),
        ViewerKey::ArrowRight => Some(Key::RightArrow),
        ViewerKey::Home => Some(Key::Home),
        ViewerKey::End => Some(Key::End),
        ViewerKey::PageUp => Some(Key::PageUp),
        ViewerKey::PageDown => Some(Key::PageDown),
        ViewerKey::F1 => Some(Key::F1),
        ViewerKey::F2 => Some(Key::F2),
        ViewerKey::F3 => Some(Key::F3),
        ViewerKey::F4 => Some(Key::F4),
        ViewerKey::F5 => Some(Key::F5),
        ViewerKey::F6 => Some(Key::F6),
        ViewerKey::F7 => Some(Key::F7),
        ViewerKey::F8 => Some(Key::F8),
        ViewerKey::F9 => Some(Key::F9),
        ViewerKey::F10 => Some(Key::F10),
        ViewerKey::F11 => Some(Key::F11),
        ViewerKey::F12 => Some(Key::F12),
        ViewerKey::A => Some(Key::Unicode('a')),
        ViewerKey::B => Some(Key::Unicode('b')),
        ViewerKey::C => Some(Key::Unicode('c')),
        ViewerKey::D => Some(Key::Unicode('d')),
        ViewerKey::E => Some(Key::Unicode('e')),
        ViewerKey::F => Some(Key::Unicode('f')),
        ViewerKey::G => Some(Key::Unicode('g')),
        ViewerKey::H => Some(Key::Unicode('h')),
        ViewerKey::I => Some(Key::Unicode('i')),
        ViewerKey::J => Some(Key::Unicode('j')),
        ViewerKey::K => Some(Key::Unicode('k')),
        ViewerKey::L => Some(Key::Unicode('l')),
        ViewerKey::M => Some(Key::Unicode('m')),
        ViewerKey::N => Some(Key::Unicode('n')),
        ViewerKey::O => Some(Key::Unicode('o')),
        ViewerKey::P => Some(Key::Unicode('p')),
        ViewerKey::Q => Some(Key::Unicode('q')),
        ViewerKey::R => Some(Key::Unicode('r')),
        ViewerKey::S => Some(Key::Unicode('s')),
        ViewerKey::T => Some(Key::Unicode('t')),
        ViewerKey::U => Some(Key::Unicode('u')),
        ViewerKey::V => Some(Key::Unicode('v')),
        ViewerKey::W => Some(Key::Unicode('w')),
        ViewerKey::X => Some(Key::Unicode('x')),
        ViewerKey::Y => Some(Key::Unicode('y')),
        ViewerKey::Z => Some(Key::Unicode('z')),
        ViewerKey::Num0 => Some(Key::Unicode('0')),
        ViewerKey::Num1 => Some(Key::Unicode('1')),
        ViewerKey::Num2 => Some(Key::Unicode('2')),
        ViewerKey::Num3 => Some(Key::Unicode('3')),
        ViewerKey::Num4 => Some(Key::Unicode('4')),
        ViewerKey::Num5 => Some(Key::Unicode('5')),
        ViewerKey::Num6 => Some(Key::Unicode('6')),
        ViewerKey::Num7 => Some(Key::Unicode('7')),
        ViewerKey::Num8 => Some(Key::Unicode('8')),
        ViewerKey::Num9 => Some(Key::Unicode('9')),
        ViewerKey::Other => None,
    }
}

/// Gives away the characters of the names that the viewer sends.
proof fn lemma_names_spelled()
    ensures
        "return"@ == seq!['r', 'e', 't', 'u', 'r', 'n'],
        "tab"@ == seq!['t', 'a', 'b'],
        "space"@ == seq!['s', 'p', 'a', 'c', 'e'],
        "backspace"@ == seq!['b', 'a', 'c', 'k', 's', 'p', 'a', 'c', 'e'],
        "escape"@ == seq!['e', 's', 'c', 'a', 'p', 'e'],
        "delete"@ == seq!['d', 'e', 'l', 'e', 't', 'e'],
        "up"@ == seq!['u', 'p'],
        "down"@ == seq!['d', 'o', 'w', 'n'],
        "left"@ == seq!['l', 'e', 'f', 't'],
        "right"@ == seq!['r', 'i', 'g', 'h', 't'],
        "home"@ == seq!['h', 'o', 'm', 'e'],
        "end"@ == seq!['e', 'n', 'd'],
        "pageup"@ == seq!['p', 'a', 'g', 'e', 'u', 'p'],
        "pagedown"@ == seq!['p', 'a', 'g', 'e', 'd', 'o', 'w', 'n'],
        "f1"@ == seq!['f', '1'],
        "f2"@ == seq!['f', '2'],
        "f3"@ == seq!['f', '3'],
        "f4"@ == seq!['f', '4'],
        "f5"@ == seq!['f', '5'],
        "f6"@ == seq!['f', '6'],
        "f7"@ == seq!['f', '7'],
        "f8"@ == seq!['f', '8'],
        "f9"@ == seq!['f', '9'],
        "f10"@ == seq!['f', '1', '0'],
        "f11"@ == seq!['f', '1', '1'],
        "f12"@ == seq!['f', '1', '2'],
        "a"@ == seq!['a'],
        "b"@ == seq!['b'],
        "c"@ == seq!['c'],
        "d"@ == seq!['d'],
        "e"@ == seq!['e'],
        "f"@ == seq!['f'],
        "g"@ == seq!['g'],
        "h"@ == seq!['h'],
        "i"@ == seq!['i'],
        "j"@ == seq!['j'],
        "k"@ == seq!['k'],
        "l"@ == seq!['l'],
        "m"@ == seq!['m'],
        "n"@ == seq!['n'],
        "o"@ == seq!['o'],
        "p"@ == seq!['p'],
        "q"@ == seq!['q'],
        "r"@ == seq!['r'],
        "s"@ == seq!['s'],
        "t"@ == seq!['t'],
        "u"@ == seq!['u'],
        "v"@ == seq!['v'],
        "w"@ == seq!['w'],
        "x"@ == seq!['x'],
        "y"@ == seq!['y'],
        "z"@ == seq!['z'],
        "0"@ == seq!['0'],
        "1"@ == seq!['1'],
        "2"@ == seq!['2'],
        "3"@ == seq!['3'],
        "4"@ == seq!['4'],
        "5"@ == seq!['5'],
        "6"@ == seq!['6'],
        "7"@ == seq!['7'],
        "8"@ == seq!['8'],
        "9"@ == seq!['9'],
        "enter"@ == seq!['e', 'n', 't', 'e', 'r'],
        "esc"@ == seq!['e', 's', 'c'],
        "meta"@ == seq!['m', 'e', 't', 'a'],
        "command"@ == seq!['c', 'o', 'm', 'm', 'a', 'n', 'd'],
        "super"@ == seq!['s', 'u', 'p', 'e', 'r'],
        "shift"@ == seq!['s', 'h', 'i', 'f', 't'],
        "control"@ == seq!['c', 'o', 'n', 't', 'r', 'o', 'l'],
        "ctrl"@ == seq!['c', 't', 'r', 'l'],
        "alt"@ == seq!['a', 'l', 't'],
        "option"@ == seq!['o', 'p', 't', 'i', 'o', 'n'],
{
    reveal_strlit("return");
    reveal_strlit("tab");
    reveal_strlit("space");
    reveal_strlit("backspace");
    reveal_strlit("escape");
    reveal_strlit("delete");
    reveal_strlit("up");
    reveal_strlit("down");
    reveal_strlit("left");
    reveal_strlit("right");
    reveal_strlit("home");
    reveal_strlit("end");
    reveal_strlit("pageup");
    reveal_strlit("pagedown");
    reveal_strlit("f1");
    reveal_strlit("f2");
    reveal_strlit("f3");
    reveal_strlit("f4");
    reveal_strlit("f5");
    reveal_strlit("f6");
    reveal_strlit("f7");
    reveal_strlit("f8");
    reveal_strlit("f9");
    reveal_strlit("f10");
    reveal_strlit("f11");
    reveal_strlit("f12");
    reveal_strlit("a");
    reveal_strlit("b");
    reveal_strlit("c");
    reveal_strlit("d");
    reveal_strlit("e");
    reveal_strlit("f");
    reveal_strlit("g");
    reveal_strlit("h");
    reveal_strlit("i");
    reveal_strlit("j");
    reveal_strlit("k");
    reveal_strlit("l");
    reveal_strlit("m");
    reveal_strlit("n");
    reveal_strlit("o");
    reveal_strlit("p");
    reveal_strlit("q");
    reveal_strlit("r");
    reveal_strlit("s");
    reveal_strlit("t");
    reveal_strlit("u");
    reveal_strlit("v");
    reveal_strlit("w");
    reveal_strlit("x");
    reveal_strlit("y");
    reveal_strlit("z");
    reveal_strlit("0");
    reveal_strlit("1");
    reveal_strlit("2");
    reveal_strlit("3");
    reveal_strlit("4");
    reveal_strlit("5");
    reveal_strlit("6");
    reveal_strlit("7");
    reveal_strlit("8");
    reveal_strlit("9");
    reveal_strlit("enter");
    reveal_strlit("esc");
    reveal_strlit("meta");
    reveal_strlit("command");
    reveal_strlit("super");
    reveal_strlit("shift");
    reveal_strlit("control");
    reveal_strlit("ctrl");
    reveal_strlit("alt");
    reveal_strlit("option");
}

/// The host understands every name that the viewer sends, and presses the key that the
/// viewer's key stands for.
pub proof fn lemma_host_understands_viewer(key: ViewerKey)
    ensures
        match host_name(key) {
            Some(name) => key_named(name) == pressed_key(key) && pressed_key(key) is Some,
            None => pressed_key(key) is None,
        },
{
    lemma_names_spelled();
}

/// Each key of the host has just these names. A key that types a character is named by that
/// character, if it is an ASCII character, and by nothing else.
pub proof fn lemma_names_of_keys(name: Seq<char>, c: char)
    ensures
        key_named(name) == Some(Key::Unicode(c)) <==> name == seq![c] && (c as int) < 128,
        key_named(name) == Some(Key::Return) <==> name == "return"@ || name == "enter"@,
        key_named(name) == Some(Key::Tab) <==> name == "tab"@,
        key_named(name) == Some(Key::Space) <==> name == "space"@,
        key_named(name) == Some(Key::Backspace) <==> name == "backspace"@,
        key_named(name) == Some(Key::Escape) <==> name == "escape"@ || name == "esc"@,
        key_named(name) == Some(Key::Delete) <==> name == "delete"@,
        key_named(name) == Some(Key::UpArrow) <==> name == "up"@,
        key_named(name) == Some(Key::DownArrow) <==> name == "down"@,
        key_named(name) == Some(Key::LeftArrow) <==> name == "left"@,
        key_named(name) == Some(Key::RightArrow) <==> name == "right"@,
        key_named(name) == Some(Key::Home) <==> name == "home"@,
        key_named(name) == Some(Key::End) <==> name == "end"@,
        key_named(name) == Some(Key::PageUp) <==> name == "pageup"@,
        key_named(name) == Some(Key::PageDown) <==> name == "pagedown"@,
        key_named(name) == Some(Key::F1) <==> name == "f1"@,
        key_named(name) == Some(Key::F2) <==> name == "f2"@,
        key_named(name) == Some(Key::F3) <==> name == "f3"@,
        key_named(name) == Some(Key::F4) <==> name == "f4"@,
        key_named(name) == Some(Key::F5) <==> name == "f5"@,
        key_named(name) == Some(Key::F6) <==> name == "f6"@,
        key_named(name) == Some(Key::F7) <==> name == "f7"@,
        key_named(name) == Some(Key::F8) <==> name == "f8"@,
        key_named(name) == Some(Key::F9) <==> name == "f9"@,
        key_named(name) == Some(Key::F10) <==> name == "f10"@,
        key_named(name) == Some(Key::F11) <==> name == "f11"@,
        key_named(name) == Some(Key::F12) <==> name == "f12"@,
        key_named(name) == Some(Key::Meta) <==> name == "meta"@ || name == "command"@ || name == "super"@,
        key_named(name) == Some(Key::Shift) <==> name == "shift"@,
        key_named(name) == Some(Key::Control) <==> name == "control"@ || name == "ctrl"@,
        key_named(name) == Some(Key::Alt) <==> name == "alt"@ || name == "option"@,
{
    lemma_names_spelled();
    if name.len() == 1 {
        assert(name =~= seq![name[0]]);
    }
}

/// What each key of the viewer does on the host: a letter or a digit types it, every other key
/// presses the key of its kind, and a key without a name does nothing.
pub proof fn lemma_keys_arrive(key: ViewerKey)
    ensures
        host_name(key) is None <==> key == ViewerKey::Other,
        host_name(key) matches Some(name) ==> match key {
            ViewerKey::Enter => name == "return"@ && key_named(name) == Some(Key::Return),
            ViewerKey::Tab => name == "tab"@ && key_named(name) == Some(Key::Tab),
            ViewerKey::Space => name == "space"@ && key_named(name) == Some(Key::Space),
            ViewerKey::Backspace => name == "backspace"@ && key_named(name) == Some(Key::Backspace),
            ViewerKey::Escape => name == "escape"@ && key_named(name) == Some(Key::Escape),
            ViewerKey::Delete => name == "delete"@ && key_named(name) == Some(Key::Delete),
            ViewerKey::ArrowUp => name == "up"@ && key_named(name) == Some(Key::UpArrow),
            ViewerKey::ArrowDown => name == "down"@ && key_named(name) == Some(Key::DownArrow),
            ViewerKey::ArrowLeft => name == "left"@ && key_named(name) == Some(Key::LeftArrow),
            ViewerKey::ArrowRight => name == "right"@ && key_named(name) == Some(Key::RightArrow),
            ViewerKey::Home => name == "home"@ && key_named(name) == Some(Key::Home),
            ViewerKey::End => name == "end"@ && key_named(name) == Some(Key::End),
            ViewerKey::PageUp => name == "pageup"@ && key_named(name) == Some(Key::PageUp),
            ViewerKey::PageDown => name == "pagedown"@ && key_named(name) == Some(Key::PageDown),
            ViewerKey::F1 => name == "f1"@ && key_named(name) == Some(Key::F1),
            ViewerKey::F2 => name == "f2"@ && key_named(name) == Some(Key::F2),
            ViewerKey::F3 => name == "f3"@ && key_named(name) == Some(Key::F3),
            ViewerKey::F4 => name == "f4"@ && key_named(name) == Some(Key::F4),
            ViewerKey::F5 => name == "f5"@ && key_named(name) == Some(Key::F5),
            ViewerKey::F6 => name == "f6"@ && key_named(name) == Some(Key::F6),
            ViewerKey::F7 => name == "f7"@ && key_named(name) == Some(Key::F7),
            ViewerKey::F8 => name == "f8"@ && key_named(name) == Some(Key::F8),
            ViewerKey::F9 => name == "f9"@ && key_named(name) == Some(Key::F9),
            ViewerKey::F10 => name == "f10"@ && key_named(name) == Some(Key::F10),
            ViewerKey::F11 => name == "f11"@ && key_named(name) == Some(Key::F11),
            ViewerKey::F12 => name == "f12"@ && key_named(name) == Some(Key::F12),
            ViewerKey::A => name == "a"@ && key_named(name) == Some(Key::Unicode('a')),
            ViewerKey::B => name == "b"@ && key_named(name) == Some(Key::Unicode('b')),
            ViewerKey::C => name == "c"@ && key_named(name) == Some(Key::Unicode('c')),
            ViewerKey::D => name == "d"@ && key_named(name) == Some(Key::Unicode('d')),
            ViewerKey::E => name == "e"@ && key_named(name) == Some(Key::Unicode('e')),
            ViewerKey::F => name == "f"@ && key_named(name) == Some(Key::Unicode('f')),
            ViewerKey::G => name == "g"@ && key_named(name) == Some(Key::Unicode('g')),
            ViewerKey::H => name == "h"@ && key_named(name) == Some(Key::Unicode('h')),
            ViewerKey::I => name == "i"@ && key_named(name) == Some(Key::Unicode('i')),
            ViewerKey::J => name == "j"@ && key_named(name) == Some(Key::Unicode('j')),
            ViewerKey::K => name == "k"@ && key_named(name) == Some(Key::Unicode('k')),
            ViewerKey::L => name == "l"@ && key_named(name) == Some(Key::Unicode('l')),
            ViewerKey::M => name == "m"@ && key_named(name) == Some(Key::Unicode('m')),
            ViewerKey::N => name == "n"@ && key_named(name) == Some(Key::Unicode('n')),
            ViewerKey::O => name == "o"@ && key_named(name) == Some(Key::Unicode('o')),
            ViewerKey::P => name == "p"@ && key_named(name) == Some(Key::Unicode('p')),
            ViewerKey::Q => name == "q"@ && key_named(name) == Some(Key::Unicode('q')),
            ViewerKey::R => name == "r"@ && key_named(name) == Some(Key::Unicode('r')),
            ViewerKey::S => name == "s"@ && key_named(name) == Some(Key::Unicode('s')),
            ViewerKey::T => name == "t"@ && key_named(name) == Some(Key::Unicode('t')),
            ViewerKey::U => name == "u"@ && key_named(name) == Some(Key::Unicode('u')),
            ViewerKey::V => name == "v"@ && key_named(name) == Some(Key::Unicode('v')),
            ViewerKey::W => name == "w"@ && key_named(name) == Some(Key::Unicode('w')),
            ViewerKey::X => name == "x"@ && key_named(name) == Some(Key::Unicode('x')),
            ViewerKey::Y => name == "y"@ && key_named(name) == Some(Key::Unicode('y')),
            ViewerKey::Z => name == "z"@ && key_named(name) == Some(Key::Unicode('z')),
            ViewerKey::Num0 => name == "0"@ && key_named(name) == Some(Key::Unicode('0')),
            ViewerKey::Num1 => name == "1"@ && key_named(name) == Some(Key::Unicode('1')),
            ViewerKey::Num2 => name == "2"@ && key_named(name) == Some(Key::Unicode('2')),
            ViewerKey::Num3 => name == "3"@ && key_named(name) == Some(Key::Unicode('3')),
            ViewerKey::Num4 => name == "4"@ && key_named(name) == Some(Key::Unicode('4')),
            ViewerKey::Num5 => name == "5"@ && key_named(name) == Some(Key::Unicode('5')),
            ViewerKey::Num6 => name == "6"@ && key_named(name) == Some(Key::Unicode('6')),
            ViewerKey::Num7 => name == "7"@ && key_named(name) == Some(Key::Unicode('7')),
            ViewerKey::Num8 => name == "8"@ && key_named(name) == Some(Key::Unicode('8')),
            ViewerKey::Num9 => name == "9"@ && key_named(name) == Some(Key::Unicode('9')),
            ViewerKey::Other => false,
        },
        host_name(key) matches Some(name) ==> pressed_key(key) == key_named(name),
        host_name(key) is None ==> pressed_key(key) is None,
{
    lemma_names_spelled();
}

} // verus!
