use tetetris::settings::keys::{parse_key, Key};
use tetetris::settings::KeyBindings;

#[test]
fn de_keys() {
    let expect = vec![
        Key::Up,
        Key::Alt('x'),
        Key::Ctrl('y'),
        Key::F(5),
        Key::Char('q'),
    ];
    let texts = ["Up", "A-x", "C-y", "F5", "q"];
    let parsed: Vec<Key> = texts.iter().map(|t| parse_key(t).unwrap()).collect();
    assert_eq!(expect, parsed);
}

#[test]
fn de_keys_invalid() {
    let err = parse_key("Null").unwrap_err();
    assert_eq!("invalid key binding", err.message());
}

#[test]
fn parse_named_keys() {
    assert_eq!(parse_key("Backspace").unwrap(), Key::Backspace);
    assert_eq!(parse_key("Left").unwrap(), Key::Left);
    assert_eq!(parse_key("Right").unwrap(), Key::Right);
    assert_eq!(parse_key("Down").unwrap(), Key::Down);
    assert_eq!(parse_key("Home").unwrap(), Key::Home);
    assert_eq!(parse_key("End").unwrap(), Key::End);
    assert_eq!(parse_key("PageUp").unwrap(), Key::PageUp);
    assert_eq!(parse_key("PageDown").unwrap(), Key::PageDown);
    assert_eq!(parse_key("BackTab").unwrap(), Key::BackTab);
    assert_eq!(parse_key("Delete").unwrap(), Key::Delete);
    assert_eq!(parse_key("Insert").unwrap(), Key::Insert);
    assert_eq!(parse_key("Esc").unwrap(), Key::Esc);
}

#[test]
fn parse_key_edge_cases() {
    // A bare `F` is an ordinary character; `F` with a numeral is an F key,
    // and the numeral may carry the sign accepted by integer parsing.
    assert_eq!(parse_key("F").unwrap(), Key::Char('F'));
    assert_eq!(parse_key("F255").unwrap(), Key::F(255));
    assert_eq!(parse_key("F+5").unwrap(), Key::F(5));
    assert!(parse_key("F256").is_err());
    assert!(parse_key("A-").is_err());
    assert!(parse_key("A-xy").is_err());
    assert!(parse_key("").is_err());
    assert!(parse_key("up").is_err());
}

#[test]
fn parse_key_single_characters() {
    assert_eq!(parse_key("z").unwrap(), Key::Char('z'));
    assert_eq!(parse_key(" ").unwrap(), Key::Char(' '));
    assert!(parse_key("zz").is_err());
    // A multi-byte character is not a one-byte key name.
    assert!(parse_key("\u{2190}").is_err());
}

fn empty_bindings() -> KeyBindings {
    KeyBindings {
        move_left: vec![],
        move_right: vec![],
        move_down: vec![],
        rotate_cw: vec![],
        rotate_ccw: vec![],
        drop: vec![],
        pause: vec![],
    }
}

#[test]
fn fill_empty_default() {
    let mut kb = empty_bindings();
    kb.fill_empty();

    assert_eq!(KeyBindings::default(), kb);
}

#[test]
fn fill_empty_keeps_custom_bindings() {
    let mut kb = empty_bindings();
    kb.move_left = vec![Key::Char('h')];
    kb.fill_empty();
    assert_eq!(vec![Key::Char('h')], kb.move_left);
    assert_eq!(vec![Key::Right], kb.move_right);
}

#[test]
fn validate_default() {
    assert!(KeyBindings::default().validate().is_ok());
}

#[test]
fn validate_unique() {
    let kb = KeyBindings {
        move_left: vec![Key::Right],
        ..KeyBindings::default()
    };

    assert_eq!(
        "key bindings contain duplicate keys",
        kb.validate().unwrap_err().message()
    );
}

#[test]
fn validate_reserved() {
    let kb = KeyBindings {
        move_left: vec![Key::Char('q')],
        ..KeyBindings::default()
    };

    assert_eq!(
        "exit keys `q` and `C-c` can't be changed",
        kb.validate().unwrap_err().message()
    );
}

#[test]
fn validate_reserved_ctrl_c() {
    let kb = KeyBindings {
        pause: vec![Key::Ctrl('c')],
        ..KeyBindings::default()
    };

    assert_eq!(
        "exit keys `q` and `C-c` can't be changed",
        kb.validate().unwrap_err().message()
    );
}
