use kumokiri::hotkey::{
    parse_hotkey, parse_key, Hotkey, HotkeyError, MOD_ALT, MOD_CONTROL, MOD_NOREPEAT, MOD_SHIFT,
    MOD_WIN,
};

#[test]
fn parses_combo_hotkey() {
    let hotkey = parse_hotkey("Ctrl+Alt+B").unwrap();
    assert_eq!(hotkey.modifiers, MOD_CONTROL | MOD_ALT);
    assert_eq!(hotkey.vk, b'B' as u32);
    assert_eq!(hotkey.display, "Ctrl+Alt+B");
}

#[test]
fn parses_single_key_hotkey() {
    let hotkey = parse_hotkey("F8").unwrap();
    assert_eq!(hotkey.modifiers, 0);
    assert_eq!(hotkey.vk, 0x77);
    assert_eq!(hotkey.display, "F8");
}

#[test]
fn rejects_multiple_main_keys() {
    assert!(parse_hotkey("Ctrl+A+B").is_err());
}

#[test]
fn multiple_main_keys_error_variant() {
    assert_eq!(parse_hotkey("Ctrl+A+B"), Err(HotkeyError::MultipleMainKeys));
}

#[test]
fn only_modifiers_is_missing_key() {
    assert_eq!(parse_hotkey("Ctrl+Shift"), Err(HotkeyError::MissingKey));
    assert_eq!(parse_hotkey(""), Err(HotkeyError::MissingKey));
    assert_eq!(parse_hotkey("  + + "), Err(HotkeyError::MissingKey));
}

#[test]
fn unsupported_key_keeps_upper_case_name() {
    assert_eq!(
        parse_hotkey("ctrl+banana"),
        Err(HotkeyError::UnsupportedKey("BANANA".to_string()))
    );
    assert_eq!(parse_hotkey("F25"), Err(HotkeyError::UnsupportedKey("F25".to_string())));
    assert_eq!(parse_hotkey("F0"), Err(HotkeyError::UnsupportedKey("F0".to_string())));
}

#[test]
fn case_and_separators_do_not_matter() {
    let a = parse_hotkey("ctrl alt b").unwrap();
    let b = parse_hotkey("CTRL+ALT+B").unwrap();
    let c = parse_hotkey("  Ctrl ++ Alt\tb ").unwrap();
    assert_eq!(a, b);
    assert_eq!(b, c);
    assert_eq!(a.display, "Ctrl+Alt+B");
}

#[test]
fn display_orders_modifiers() {
    let h = parse_hotkey("win+shift+alt+control+PrtSc").unwrap();
    assert_eq!(h.modifiers, 0x1 | 0x2 | 0x4 | 0x8);
    assert_eq!(h.vk, 0x2C);
    assert_eq!(h.display, "Ctrl+Alt+Shift+Win+PrintScreen");
}

#[test]
fn display_parses_back_to_same_hotkey() {
    for input in ["meta+cmd+f08", "Shift+pgdn", "alt+7", "Ctrl+Win+esc", "F24"] {
        let h = parse_hotkey(input).unwrap();
        let again = parse_hotkey(&h.display).unwrap();
        assert_eq!(h, again);
    }
}

#[test]
fn function_key_number_is_normalised() {
    assert_eq!(parse_hotkey("F+12"), Err(HotkeyError::MultipleMainKeys));
    let h = parse_hotkey("f012").unwrap();
    assert_eq!(h.vk, 123);
    assert_eq!(h.display, "F12");
}

#[test]
fn register_modifiers_adds_no_repeat() {
    let h = Hotkey { modifiers: MOD_SHIFT | MOD_WIN, vk: 0x41, display: "Shift+Win+A".to_string() };
    assert_eq!(h.register_modifiers(), 0x4 | 0x8 | 0x4000);
    assert_eq!(MOD_NOREPEAT, 0x4000);
}

#[test]
fn parse_key_table() {
    assert_eq!(parse_key("A"), Ok((0x41, "A".to_string())));
    assert_eq!(parse_key("7"), Ok((0x37, "7".to_string())));
    assert_eq!(parse_key("F1"), Ok((112, "F1".to_string())));
    assert_eq!(parse_key("F+5"), Ok((116, "F5".to_string())));
    assert_eq!(parse_key("ESCAPE"), Ok((0x1B, "Esc".to_string())));
    assert_eq!(parse_key("RETURN"), Ok((0x0D, "Enter".to_string())));
    assert_eq!(parse_key("BKSP"), Ok((0x08, "Backspace".to_string())));
    assert_eq!(parse_key("PGUP"), Ok((0x21, "PageUp".to_string())));
    assert_eq!(parse_key("SNAPSHOT"), Ok((0x2C, "PrintScreen".to_string())));
    assert_eq!(parse_key("PAUSE"), Ok((0x13, "Pause".to_string())));
    assert_eq!(parse_key("a"), Ok((0x61, "a".to_string())));
    assert_eq!(parse_key("!"), Err(HotkeyError::UnsupportedKey("!".to_string())));
}

#[test]
fn error_messages() {
    assert_eq!(HotkeyError::MultipleMainKeys.message(), "热键只能有一个主按键");
    assert_eq!(HotkeyError::MissingKey.message(), "请输入一个按键，例如 Ctrl+Alt+B 或 F8");
    assert_eq!(HotkeyError::UnsupportedKey("XY".to_string()).message(), "不支持的按键: XY");
}

#[test]
fn order_separators_and_repeated_modifiers_do_not_matter() {
    let a = parse_hotkey("b + alt+ctrl+CTRL").unwrap();
    let b = parse_hotkey("Ctrl+Alt+B").unwrap();
    assert_eq!(a, b);
    assert!(parse_hotkey("A+Ctrl+B").is_err());
    assert!(parse_hotkey("B+Ctrl+A").is_err());
    assert!(parse_hotkey(" + ").is_err());
}

#[test]
fn display_name_resolves_to_same_key() {
    for token in ["PGDN", "ESCAPE", "F07", "F+3", "PRTSC", "Q", "9"] {
        let (vk, name) = parse_key(token).unwrap();
        assert_eq!(parse_key(&name.to_ascii_uppercase()), Ok((vk, name)));
    }
}
