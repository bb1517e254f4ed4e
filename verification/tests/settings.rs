use leafish::decimal::{format_i32, parse_i32};
use leafish::settings::config_var::{read_line, write_entry, Line};
use leafish::settings::keybinds::{deserialize_key, Actionkey, Keybind, KeybindStore, Loaded};
use std::str::FromStr;

fn bind(name: &'static str, action: Actionkey) -> Keybind {
    Keybind {
        name,
        description: "first line\nsecond line",
        action,
    }
}

fn store() -> KeybindStore {
    let mut store = KeybindStore::new();
    store.insert(17, bind("keybind_forward", Actionkey::Forward));
    store.insert(31, bind("keybind_backward", Actionkey::Backward));
    store.insert(57, bind("keybind_jump", Actionkey::Jump));
    store
}

#[test]
fn every_action_is_listed_once() {
    let values = Actionkey::values();
    assert_eq!(values.len(), 11);
    assert_eq!(values[0], Actionkey::Forward);
    assert_eq!(values[10], Actionkey::ToggleChat);
    for (i, a) in values.iter().enumerate() {
        for (j, b) in values.iter().enumerate() {
            assert_eq!(a == b, i == j);
        }
    }
}

#[test]
fn actions_have_their_names() {
    let names = [
        ("keybind_forward", Actionkey::Forward),
        ("keybind_backward", Actionkey::Backward),
        ("keybind_left", Actionkey::Left),
        ("keybind_right", Actionkey::Right),
        ("keybind_open_inv", Actionkey::OpenInv),
        ("keybind_sneak", Actionkey::Sneak),
        ("keybind_sprint", Actionkey::Sprint),
        ("keybind_jump", Actionkey::Jump),
        ("keybind_toggle_hud", Actionkey::ToggleHud),
        ("keybind_toggle_debug_info", Actionkey::ToggleDebug),
        ("keybind_toggle_chat", Actionkey::ToggleChat),
    ];
    for (name, action) in names {
        assert_eq!(Actionkey::from_str(name), Ok(action));
        assert_eq!(Actionkey::from_name(name), Some(action));
    }
    assert_eq!(Actionkey::from_str("keybind_fly"), Err(()));
    assert_eq!(Actionkey::from_str("forward"), Err(()));
    assert_eq!(Actionkey::from_str(""), Err(()));
    assert_eq!(Actionkey::from_str("KEYBIND_FORWARD"), Err(()));
}

#[test]
fn keys_are_decimal_integers() {
    assert_eq!(deserialize_key("0"), Some(0));
    assert_eq!(deserialize_key("57"), Some(57));
    assert_eq!(deserialize_key("-3"), Some(-3));
    assert_eq!(deserialize_key("+3"), Some(3));
    assert_eq!(deserialize_key("007"), Some(7));
    assert_eq!(deserialize_key("-0"), Some(0));
    assert_eq!(deserialize_key("2147483647"), Some(i32::MAX));
    assert_eq!(deserialize_key("-2147483648"), Some(i32::MIN));
    assert_eq!(deserialize_key("2147483648"), None);
    assert_eq!(deserialize_key("-2147483649"), None);
    assert_eq!(deserialize_key("99999999999999999999999999"), None);
    assert_eq!(deserialize_key(""), None);
    assert_eq!(deserialize_key("-"), None);
    assert_eq!(deserialize_key("+"), None);
    assert_eq!(deserialize_key(" 5"), None);
    assert_eq!(deserialize_key("5 "), None);
    assert_eq!(deserialize_key("12a"), None);
    assert_eq!(deserialize_key("--5"), None);
    assert_eq!(deserialize_key("٣"), None);
    assert_eq!(deserialize_key("1é"), None);
}

#[test]
fn integers_parse_as_std_parses_them() {
    for text in [
        "0", "1", "-1", "+1", "10", "0010", "2147483647", "2147483648", "-2147483648",
        "-2147483649", "", "+", "-", "+-1", "1_0", "0x10", "1.5", " 1", "4294967296",
    ] {
        assert_eq!(parse_i32(text), text.parse::<i32>().ok());
    }
}

#[test]
fn integers_format_as_std_formats_them() {
    for v in [0, 1, -1, 9, 10, 11, 99, 100, 12345, -12345, i32::MAX, i32::MIN, 1000000000] {
        assert_eq!(format_i32(v), v.to_string());
        assert_eq!(parse_i32(&format_i32(v)), Some(v));
    }
}

#[test]
fn store_looks_up_by_key_and_action() {
    let store = store();
    assert_eq!(store.get(31).unwrap().action, Actionkey::Backward);
    assert_eq!(store.get(31).unwrap().name, "keybind_backward");
    assert!(store.get(32).is_none());
    assert_eq!(store.key_of(Actionkey::Jump), Some(57));
    assert_eq!(store.key_of(Actionkey::Sneak), None);
}

#[test]
fn set_moves_an_action_to_another_key() {
    let mut store = store();
    store.set(99, Actionkey::Forward);
    assert!(store.get(17).is_none());
    assert_eq!(store.get(99).unwrap().action, Actionkey::Forward);
    assert_eq!(store.key_of(Actionkey::Forward), Some(99));
    assert_eq!(store.key_of(Actionkey::Backward), Some(31));
    // Moving onto a key that is taken displaces what was bound there.
    store.set(31, Actionkey::Jump);
    assert_eq!(store.get(31).unwrap().action, Actionkey::Jump);
    assert!(store.get(57).is_none());
    assert_eq!(store.key_of(Actionkey::Backward), None);
    // Moving to the key it has changes nothing.
    store.set(31, Actionkey::Jump);
    assert_eq!(store.key_of(Actionkey::Jump), Some(31));
}

#[test]
fn insert_replaces_the_binding_of_a_key() {
    let mut store = store();
    store.insert(17, bind("keybind_sneak", Actionkey::Sneak));
    assert_eq!(store.get(17).unwrap().action, Actionkey::Sneak);
    assert_eq!(store.key_of(Actionkey::Forward), None);
    assert_eq!(
        store.save_text(),
        "# first line\n# second line\nkeybind_sneak 17\n\n\
         # first line\n# second line\nkeybind_backward 31\n\n\
         # first line\n# second line\nkeybind_jump 57\n\n"
    );
}

#[test]
fn lines_of_the_file_rebind() {
    let mut store = store();
    assert_eq!(store.load_line("# keybind_forward 1"), Loaded::Skipped);
    assert_eq!(store.load_line(""), Loaded::Skipped);
    assert_eq!(store.load_line("max_fps 60"), Loaded::Skipped);
    assert_eq!(store.load_line("keybind_forward"), Loaded::Broken);
    assert_eq!(store.load_line("keybind_fly 5"), Loaded::Unknown);
    assert_eq!(store.load_line("keybind_sneak 5"), Loaded::Unknown);
    assert_eq!(store.load_line("keybind_forward w"), Loaded::BadKey);
    assert_eq!(store.load_line("keybind_forward  5"), Loaded::BadKey);
    assert_eq!(store.key_of(Actionkey::Forward), Some(17));
    assert_eq!(store.load_line("keybind_forward 5"), Loaded::Rebound);
    assert_eq!(store.key_of(Actionkey::Forward), Some(5));
    assert!(store.get(17).is_none());
}

#[test]
fn saved_bindings_load_back() {
    let saved = store();
    let text = saved.save_text();
    assert_eq!(
        text,
        "# first line\n# second line\nkeybind_forward 17\n\n\
         # first line\n# second line\nkeybind_backward 31\n\n\
         # first line\n# second line\nkeybind_jump 57\n\n"
    );
    let mut loaded = KeybindStore::new();
    loaded.insert(1, bind("keybind_forward", Actionkey::Forward));
    loaded.insert(2, bind("keybind_backward", Actionkey::Backward));
    loaded.insert(3, bind("keybind_jump", Actionkey::Jump));
    for line in text.lines() {
        loaded.load_line(line);
    }
    for action in [Actionkey::Forward, Actionkey::Backward, Actionkey::Jump] {
        assert_eq!(loaded.key_of(action), saved.key_of(action));
    }
}

#[test]
fn config_lines() {
    assert_eq!(read_line(""), Line::Skipped);
    assert_eq!(read_line("#"), Line::Skipped);
    assert_eq!(read_line("# a b"), Line::Skipped);
    assert_eq!(read_line("name"), Line::Broken);
    assert_eq!(
        read_line("name value"),
        Line::Entry {
            name: "name".to_string(),
            arg: "value".to_string()
        }
    );
    assert_eq!(
        read_line("name value with spaces "),
        Line::Entry {
            name: "name".to_string(),
            arg: "value with spaces ".to_string()
        }
    );
    assert_eq!(
        read_line(" x"),
        Line::Entry {
            name: "".to_string(),
            arg: "x".to_string()
        }
    );
    assert_eq!(
        read_line("name "),
        Line::Entry {
            name: "name".to_string(),
            arg: "".to_string()
        }
    );
}

#[test]
fn config_entries() {
    let mut text = "x".to_string();
    write_entry(&mut text, "one\r\ntwo\n", "name", "1.5");
    assert_eq!(text, "x# one\n# two\nname 1.5\n\n");
    let mut text = String::new();
    write_entry(&mut text, "", "name", "");
    assert_eq!(text, "name \n\n");
}

#[test]
fn config_entry_comments_follow_the_lines_of_the_description() {
    let mut text = String::new();
    write_entry(&mut text, "x\r", "n", "v");
    assert_eq!(text, "# x\r\nn v\n\n");
    let mut text = String::new();
    write_entry(&mut text, "a\n\nb", "n", "v");
    assert_eq!(text, "# a\n# \n# b\nn v\n\n");
}
