use kumokiri::hotkey::{parse_hotkey, HotkeyError};
use kumokiri::main_window::{
    autostart_command, autostart_removal_status, hotkey_status, is_startup_launch,
    main_window_action, output_status, registry_deletion_status, tray_action, tray_event_code,
    MainAction, TrayAction, ERROR_FILE_NOT_FOUND, ERROR_SUCCESS, HOTKEY_ID, IDC_APPLY,
    IDC_CAPTURE, ID_TRAY_EXIT, NIN_SELECT, SIZE_MINIMIZED, WM_CLOSE, WM_COMMAND, WM_CONTEXTMENU,
    WM_HOTKEY, WM_LBUTTONDBLCLK, WM_RBUTTONUP, WM_SIZE, WM_TRAYICON,
};

#[test]
fn tray_codes_and_actions() {
    assert_eq!(tray_event_code(0x0003_0203), 0x0203);
    assert_eq!(tray_event_code(-1), 0xffff);
    assert_eq!(tray_action(NIN_SELECT), TrayAction::Restore);
    assert_eq!(tray_action(WM_LBUTTONDBLCLK), TrayAction::Restore);
    assert_eq!(tray_action(WM_CONTEXTMENU), TrayAction::ShowMenu);
    assert_eq!(tray_action(WM_RBUTTONUP), TrayAction::ShowMenu);
    assert_eq!(tray_action(0x0200), TrayAction::Ignore);
}

#[test]
fn window_messages() {
    assert_eq!(main_window_action(WM_COMMAND, IDC_APPLY, 0, false), MainAction::SaveSettings);
    assert_eq!(main_window_action(WM_COMMAND, 0x1_0000 | IDC_CAPTURE, 0, false), MainAction::StartCapture);
    assert_eq!(main_window_action(WM_COMMAND, ID_TRAY_EXIT, 0, false), MainAction::ExitApp);
    assert_eq!(main_window_action(WM_COMMAND, 1001, 0, false), MainAction::Handled);
    assert_eq!(main_window_action(WM_HOTKEY, HOTKEY_ID as usize, 0, false), MainAction::StartCapture);
    assert_eq!(main_window_action(WM_HOTKEY, 701, 0, false), MainAction::Handled);
    assert_eq!(main_window_action(WM_SIZE, SIZE_MINIMIZED as usize, 0, false), MainAction::HideToTray);
    assert_eq!(main_window_action(WM_SIZE, 0, 0, false), MainAction::PassOn);
    assert_eq!(main_window_action(WM_CLOSE, 0, 0, false), MainAction::HideToTray);
    assert_eq!(main_window_action(WM_CLOSE, 0, 0, true), MainAction::DestroyWindow);
    assert_eq!(
        main_window_action(WM_TRAYICON, 0, WM_RBUTTONUP as isize, false),
        MainAction::Tray(TrayAction::ShowMenu)
    );
    assert_eq!(main_window_action(0x000F, 0, 0, false), MainAction::PassOn);
}

#[test]
fn startup_argument() {
    let args = vec!["kumokiri.exe".to_string(), "--startup".to_string()];
    assert!(is_startup_launch(&args));
    let args = vec!["kumokiri.exe".to_string(), "--startup=1".to_string()];
    assert!(!is_startup_launch(&args));
    assert!(!is_startup_launch(&vec![]));
}

#[test]
fn autostart_registry() {
    assert_eq!(
        autostart_command("C:\\Program Files\\Kumokiri\\kumokiri.exe"),
        "\"C:\\Program Files\\Kumokiri\\kumokiri.exe\" --startup"
    );
    assert_eq!(registry_deletion_status(ERROR_FILE_NOT_FOUND), ERROR_SUCCESS);
    assert_eq!(registry_deletion_status(5), 5);
    assert_eq!(autostart_removal_status(0, 5), 0);
    assert_eq!(autostart_removal_status(2, 5), 0);
    assert_eq!(autostart_removal_status(5, 2), 0);
    assert_eq!(autostart_removal_status(5, 6), 6);
}

#[test]
fn capture_report() {
    assert_eq!(
        output_status(Some("D:\\shots\\screenshot_1.png"), true, true),
        "已保存: D:\\shots\\screenshot_1.png；已复制到剪贴板；HDR 已按显示效果映射"
    );
    assert_eq!(output_status(None, true, false), "已复制到剪贴板");
    assert_eq!(output_status(None, false, false), "");
}

#[test]
fn hotkey_report() {
    let ok = parse_hotkey("alt+f8");
    assert_eq!(hotkey_status(&ok, true), "热键已启用: Alt+F8");
    assert_eq!(hotkey_status(&ok, false), "热键注册失败，可能已被其他程序占用");
    let bad: Result<_, HotkeyError> = parse_hotkey("Ctrl");
    assert_eq!(hotkey_status(&bad, true), "热键无效: 请输入一个按键，例如 Ctrl+Alt+B 或 F8");
}
