use kumokiri::hotkey::HotkeyError;
use kumokiri::settings::Settings;

fn same(a: &Settings, b: &Settings) -> bool {
    a.save_to_file == b.save_to_file
        && a.save_to_clipboard == b.save_to_clipboard
        && a.save_dir == b.save_dir
        && a.hotkey == b.hotkey
        && a.start_with_windows == b.start_with_windows
}

#[test]
fn defaults_are_file_only_with_default_hotkey() {
    let s = Settings::defaults("C:\\Pictures".to_string());
    assert!(s.save_to_file);
    assert!(!s.save_to_clipboard);
    assert_eq!(s.save_dir, "C:\\Pictures");
    assert_eq!(s.hotkey, "Ctrl+Alt+B");
    assert!(!s.start_with_windows);
}

#[test]
fn missing_file_gives_defaults() {
    let s = Settings::load(None, "D:\\shots");
    assert!(same(&s, &Settings::defaults("D:\\shots".to_string())));
}

#[test]
fn load_reads_known_keys() {
    let text = "save_to_file=false\nsave_to_clipboard = true \nsave_dir= E:\\caps \nhotkey=Shift+F9\r\nstart_with_windows=true";
    let s = Settings::load(Some(text), "D:\\shots");
    assert!(!s.save_to_file);
    assert!(s.save_to_clipboard);
    assert_eq!(s.save_dir, "E:\\caps");
    assert_eq!(s.hotkey, "Shift+F9");
    assert!(s.start_with_windows);
}

#[test]
fn load_ignores_unknown_keys_and_lines_without_equals() {
    let text = "# comment\ncolour=blue\nsave_to_file\n=true\nsave_to_clipboard=yes\n";
    let s = Settings::load(Some(text), "D:\\shots");
    assert!(same(&s, &Settings::defaults("D:\\shots".to_string())));
}

#[test]
fn value_may_contain_equals_sign() {
    let s = Settings::load(Some("save_dir=C:\\a=b\n"), "D:\\shots");
    assert_eq!(s.save_dir, "C:\\a=b");
}

#[test]
fn later_lines_win() {
    let s = Settings::load(Some("hotkey=F1\nhotkey=F2\n"), "D:\\shots");
    assert_eq!(s.hotkey, "F2");
}

#[test]
fn blank_values_fall_back() {
    let s = Settings::load(Some("save_dir=   \nhotkey=\n"), "D:\\shots");
    assert_eq!(s.save_dir, "D:\\shots");
    assert_eq!(s.hotkey, "Ctrl+Alt+B");
}

#[test]
fn config_text_format() {
    let s = Settings {
        save_to_file: true,
        save_to_clipboard: false,
        save_dir: "C:\\x".to_string(),
        hotkey: "Ctrl+F8".to_string(),
        start_with_windows: true,
    };
    assert_eq!(
        s.to_config_text(),
        "save_to_file=true\nsave_to_clipboard=false\nsave_dir=C:\\x\nhotkey=Ctrl+F8\nstart_with_windows=true\n"
    );
}

#[test]
fn saved_settings_load_back() {
    let s = Settings {
        save_to_file: false,
        save_to_clipboard: true,
        save_dir: "C:\\Users\\me\\Pictures\\Screenshots".to_string(),
        hotkey: "Alt+PrintScreen".to_string(),
        start_with_windows: true,
    };
    let text = s.to_config_text();
    let back = Settings::load(Some(&text), "D:\\other");
    assert!(same(&s, &back));
}

#[test]
fn has_output_needs_a_destination() {
    let mut s = Settings::defaults("x".to_string());
    assert!(s.has_output());
    s.save_to_file = false;
    assert!(!s.has_output());
    s.save_to_clipboard = true;
    assert!(s.has_output());
}

#[test]
fn form_trims_and_checks_hotkey() {
    let s = Settings::from_form(true, true, "  ", "  ctrl+shift+s ", false, "D:\\shots").unwrap();
    assert_eq!(s.save_dir, "D:\\shots");
    assert_eq!(s.hotkey, "ctrl+shift+s");
    assert!(s.save_to_clipboard);
    let s = Settings::from_form(false, true, " E:\\x ", "F8", true, "D:\\shots").unwrap();
    assert_eq!(s.save_dir, "E:\\x");
    assert!(s.start_with_windows);
    let e = Settings::from_form(true, false, "", "Ctrl+Alt", false, "D:\\shots").unwrap_err();
    assert_eq!(e, HotkeyError::MissingKey);
}

#[test]
fn last_line_for_a_key_wins_and_blank_falls_back() {
    let s = Settings::load(Some("hotkey=F1\nsave_dir=X\nhotkey=  \n"), "D:\\shots");
    assert_eq!(s.hotkey, "Ctrl+Alt+B");
    let s = Settings::load(Some("hotkey=F1\nhotkey= Alt+F2 \n"), "D:\\shots");
    assert_eq!(s.hotkey, "Alt+F2");
    let s = Settings::load(Some("save_dir=X\nsave_dir=\t\n"), "D:\\shots");
    assert_eq!(s.save_dir, "D:\\shots");
}

#[test]
fn ignored_lines_change_nothing() {
    let base = "save_to_file=false\nhotkey=F3\n";
    let a = Settings::load(Some(base), "D:\\shots");
    let b = Settings::load(Some("save_to_file=false\nhotkey=F3\nnot a setting\ncolour = red\n"), "D:\\shots");
    assert!(same(&a, &b));
}
