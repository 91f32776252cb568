use tetetris::help::{format_keys, Help};
use tetetris::settings::keys::Key;
use tetetris::settings::KeyBindings;

#[test]
fn verify_format_keys() {
    assert_eq!(
        "\u{2191} space F5 A-x C-y q ret \\0 ?",
        format_keys(&vec![
            Key::Up,
            Key::Char(' '),
            Key::F(5),
            Key::Alt('x'),
            Key::Ctrl('y'),
            Key::Char('q'),
            Key::Char('\n'),
            Key::Null,
            Key::Home
        ])
    );
}

#[test]
fn format_keys_empty_and_arrows() {
    assert_eq!("", format_keys(&vec![]));
    assert_eq!(
        "\u{2190} \u{2192} \u{2193} esc",
        format_keys(&vec![Key::Left, Key::Right, Key::Down, Key::Esc])
    );
}

#[test]
fn format_keys_f_numbers() {
    assert_eq!("F0 F7 F10 F12 F255", format_keys(&vec![
        Key::F(0),
        Key::F(7),
        Key::F(10),
        Key::F(12),
        Key::F(255),
    ]));
}

#[test]
fn help_lines_for_default_bindings() {
    let h = Help::from_bindings(&KeyBindings::default());
    assert_eq!(h.len(), 9);
    assert_eq!(h.line(0), "HELP:");
    assert_eq!(h.line(1), "Move left: \u{2190}");
    assert_eq!(h.line(2), "Move right: \u{2192}");
    assert_eq!(h.line(3), "Move down: \u{2193}");
    assert_eq!(h.line(4), "Rotate clockwise: space x \u{2191}");
    assert_eq!(h.line(5), "Rotate counter-clockwise: z");
    assert_eq!(h.line(6), "Hard drop: ret");
    assert_eq!(h.line(7), "Pause: esc");
    assert_eq!(h.line(8), "Quit: q C-c");
}
