use remote_lab::keys::{key_to_host_name, map_key, Key, ViewerKey};

#[test]
fn single_ascii_character_names_itself() {
    assert_eq!(map_key("a"), Some(Key::Unicode('a')));
    assert_eq!(map_key("Z"), Some(Key::Unicode('Z')));
    assert_eq!(map_key(" "), Some(Key::Unicode(' ')));
    assert_eq!(map_key("\u{7f}"), Some(Key::Unicode('\u{7f}')));
}

#[test]
fn single_character_beyond_ascii_names_nothing() {
    assert_eq!(map_key("ä"), None);
    assert_eq!(map_key("\u{80}"), None);
}

#[test]
fn names_of_keys() {
    for (name, key) in [
        ("return", Key::Return),
        ("enter", Key::Return),
        ("tab", Key::Tab),
        ("space", Key::Space),
        ("backspace", Key::Backspace),
        ("escape", Key::Escape),
        ("esc", Key::Escape),
        ("delete", Key::Delete),
        ("up", Key::UpArrow),
        ("down", Key::DownArrow),
        ("left", Key::LeftArrow),
        ("right", Key::RightArrow),
        ("home", Key::Home),
        ("end", Key::End),
        ("pageup", Key::PageUp),
        ("pagedown", Key::PageDown),
        ("f1", Key::F1),
        ("f9", Key::F9),
        ("f10", Key::F10),
        ("f12", Key::F12),
        ("meta", Key::Meta),
        ("command", Key::Meta),
        ("super", Key::Meta),
        ("shift", Key::Shift),
        ("control", Key::Control),
        ("ctrl", Key::Control),
        ("alt", Key::Alt),
        ("option", Key::Alt),
    ] {
        assert_eq!(map_key(name), Some(key));
    }
}

#[test]
fn unknown_names() {
    for name in ["", "f13", "Return", "RETURN", "tab ", "capslock"] {
        assert_eq!(map_key(name), None);
    }
}

#[test]
fn keys_of_the_viewer() {
    assert_eq!(key_to_host_name(ViewerKey::Enter), Some("return".to_string()));
    assert_eq!(key_to_host_name(ViewerKey::ArrowLeft), Some("left".to_string()));
    assert_eq!(key_to_host_name(ViewerKey::F11), Some("f11".to_string()));
    assert_eq!(key_to_host_name(ViewerKey::Q), Some("q".to_string()));
    assert_eq!(key_to_host_name(ViewerKey::Num7), Some("7".to_string()));
    assert_eq!(key_to_host_name(ViewerKey::Other), None);
}

#[test]
fn host_understands_the_viewer() {
    for (key, pressed) in [
        (ViewerKey::Enter, Key::Return),
        (ViewerKey::Tab, Key::Tab),
        (ViewerKey::Space, Key::Space),
        (ViewerKey::Backspace, Key::Backspace),
        (ViewerKey::Escape, Key::Escape),
        (ViewerKey::Delete, Key::Delete),
        (ViewerKey::ArrowUp, Key::UpArrow),
        (ViewerKey::ArrowDown, Key::DownArrow),
        (ViewerKey::ArrowLeft, Key::LeftArrow),
        (ViewerKey::ArrowRight, Key::RightArrow),
        (ViewerKey::Home, Key::Home),
        (ViewerKey::End, Key::End),
        (ViewerKey::PageUp, Key::PageUp),
        (ViewerKey::PageDown, Key::PageDown),
        (ViewerKey::F1, Key::F1),
        (ViewerKey::F12, Key::F12),
        (ViewerKey::A, Key::Unicode('a')),
        (ViewerKey::Z, Key::Unicode('z')),
        (ViewerKey::Num0, Key::Unicode('0')),
    ] {
        assert_eq!(map_key(&key_to_host_name(key).unwrap()), Some(pressed));
    }
}
