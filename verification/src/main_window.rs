//! Decisions of the settings window and its tray icon: which messages start a
//! capture, hide the window or quit, and the texts the window reports.
use vstd::prelude::*;
use crate::hotkey::{error_text, hotkey_result_view, Hotkey, HotkeyError, HotkeyErrorModel, HotkeyModel};
use crate::text::{join_chars, joined, push_str, seqs_of, string_from_chars};

verus! {

/// Identifier under which the capture hotkey is registered.
pub const HOTKEY_ID: i32 = 101;

/// Message the tray icon sends to the window (`WM_APP + 1`).
pub const WM_TRAYICON: u32 = 0x8001;

pub const WM_SIZE: u32 = 0x0005;
pub const WM_CLOSE: u32 = 0x0010;
pub const WM_CONTEXTMENU: u32 = 0x007B;
pub const WM_COMMAND: u32 = 0x0111;
pub const WM_LBUTTONDBLCLK: u32 = 0x0203;
pub const WM_RBUTTONUP: u32 = 0x0205;
pub const WM_HOTKEY: u32 = 0x0312;

/// Tray notification of a click on the icon (`NIN_SELECT`).
pub const NIN_SELECT: u32 = 0x0400;

/// `WM_SIZE` parameter of a window being minimised.
pub const SIZE_MINIMIZED: u32 = 1;

/// Command identifier of the Apply button.
pub const IDC_APPLY: usize = 1006;

/// Command identifier of the Capture button.
pub const IDC_CAPTURE: usize = 1007;

/// Command identifier of the tray menu's Exit entry.
pub const ID_TRAY_EXIT: usize = 2001;

/// Status code of a registry call that succeeded.
pub const ERROR_SUCCESS: u32 = 0;

/// Status code of a registry call on a value that does not exist.
pub const ERROR_FILE_NOT_FOUND: u32 = 2;

/// What a tray notification asks of the window.
#[derive(Clone, Copy, Debug, PartialEq, Eq, Structural)]
pub enum TrayAction {
    Restore,
    ShowMenu,
    Ignore,
}

/// What a window message asks of the settings window.
#[derive(Clone, Copy, Debug, PartialEq, Eq, Structural)]
pub enum MainAction {
    /// Read the form, store the settings and register the hotkey again.
    SaveSettings,
    /// Start a capture.
    StartCapture,
    /// Quit the program.
    ExitApp,
    /// Hide the window behind the tray icon.
    HideToTray,
    /// Close the window for good.
    DestroyWindow,
    /// A tray notification.
    Tray(TrayAction),
    /// The message was handled and needs nothing more.
    Handled,
    /// The message goes on to the default handling.
    PassOn,
}

/// The notification code carried by a tray message: the low word of its parameter.
pub open spec fn low_word(lparam: isize) -> u32 {
    (lparam & 0xffff) as u32
}

/// Extracts the notification code of a tray message.
pub fn tray_event_code(lparam: isize) -> (c: u32)
    ensures
        c == low_word(lparam),
        c < 0x10000,
{
    let m = lparam & 0xffff;
    assert(0 <= lparam & 0xffff < 0x10000) by (bit_vector);
    m as u32
}

pub open spec fn tray_action_spec(code: u32) -> TrayAction {
    if code == NIN_SELECT || code == WM_LBUTTONDBLCLK {
        TrayAction::Restore
    } else if code == WM_CONTEXTMENU || code == WM_RBUTTONUP {
        TrayAction::ShowMenu
    } else {
        TrayAction::Ignore
    }
}

/// What a tray notification does: a click or double click brings the window
/// back, a right click or context-menu request opens the menu.
pub fn tray_action(code: u32) -> (a: TrayAction)
    ensures
        a == tray_action_spec(code),
{
    if code == NIN_SELECT || code == WM_LBUTTONDBLCLK {
        TrayAction::Restore
    } else if code == WM_CONTEXTMENU || code == WM_RBUTTONUP {
        TrayAction::ShowMenu
    } else {
        TrayAction::Ignore
    }
}

pub open spec fn main_action_spec(msg: u32, wparam: usize, lparam: isize, allow_exit: bool) -> MainAction {
    if msg == WM_TRAYICON {
        MainAction::Tray(tray_action_spec(low_word(lparam)))
    } else if msg == WM_COMMAND {
        let id = wparam & 0xffff;
        if id == IDC_APPLY {
            MainAction::SaveSettings
        } else if id == IDC_CAPTURE {
            MainAction::StartCapture
        } else if id == ID_TRAY_EXIT {
            MainAction::ExitApp
        } else {
            MainAction::Handled
        }
    } else if msg == WM_HOTKEY {
        if wparam as i32 == HOTKEY_ID {
            MainAction::StartCapture
        } else {
            MainAction::Handled
        }
    } else if msg == WM_SIZE {
        if wparam as u32 == SIZE_MINIMIZED {
            MainAction::HideToTray
        } else {
            MainAction::PassOn
        }
    } else if msg == WM_CLOSE {
        if allow_exit {
            MainAction::DestroyWindow
        } else {
            MainAction::HideToTray
        }
    } else {
        MainAction::PassOn
    }
}

/// Decides what a message to the settings window does. Commands come from the
/// Apply and Capture buttons and the tray menu; the capture hotkey starts a
/// capture; minimising, and closing unless quitting was asked for, hide the
/// window behind the tray icon.
pub fn main_window_action(msg: u32, wparam: usize, lparam: isize, allow_exit: bool) -> (a: MainAction)
    ensures
        a == main_action_spec(msg, wparam, lparam, allow_exit),
{
    if msg == WM_TRAYICON {
        MainAction::Tray(tray_action(tray_event_code(lparam)))
    } else if msg == WM_COMMAND {
        let id = wparam & 0xffff;
        if id == IDC_APPLY {
            MainAction::SaveSettings
        } else if id == IDC_CAPTURE {
            MainAction::StartCapture
        } else if id == ID_TRAY_EXIT {
            MainAction::ExitApp
        } else {
            MainAction::Handled
        }
    } else if msg == WM_HOTKEY {
        if #[verifier::truncate] (wparam as i32) == HOTKEY_ID {
            MainAction::StartCapture
        } else {
            MainAction::Handled
        }
    } else if msg == WM_SIZE {
        if #[verifier::truncate] (wparam as u32) == SIZE_MINIMIZED {
            MainAction::HideToTray
        } else {
            MainAction::PassOn
        }
    } else if msg == WM_CLOSE {
        if allow_exit {
            MainAction::DestroyWindow
        } else {
            MainAction::HideToTray
        }
    } else {
        MainAction::PassOn
    }
}

/// Whether the program was started at log-in, with the argument `--startup`
/// (and so starts hidden).
pub fn is_startup_launch(args: &Vec<String>) -> (b: bool)
    ensures
        b == exists|i: int| 0 <= i < args@.len() && (#[trigger] args@[i])@ == "--startup"@,
{
    let mut i: usize = 0;
    while i < args.len()
        invariant
            i <= args@.len(),
            forall|k: int| 0 <= k < i ==> (#[trigger] args@[k])@ != "--startup"@,
        decreases args@.len() - i,
    {
        let arg = args[i].as_str();
        let chars = crate::text::chars_of(arg);
        if crate::text::chars_eq_str(chars.as_slice(), "--startup") {
            assert(args@[i as int]@ == "--startup"@);
            return true;
        }
        i = i + 1;
    }
    false
}

/// The command stored for starting at log-in: the quoted program path and the
/// startup argument.
pub open spec fn autostart_command_spec(exe: Seq<char>) -> Seq<char> {
    seq!['"'] + exe + "\" "@ + "--startup"@
}

/// Builds the command stored for starting the program at log-in.
pub fn autostart_command(exe: &str) -> (s: String)
    ensures
        s@ == autostart_command_spec(exe@),
{
    let mut out: Vec<char> = Vec::new();
    out.push('"');
    push_str(&mut out, exe);
    push_str(&mut out, "\" ");
    push_str(&mut out, "--startup");
    assert(out@ =~= autostart_command_spec(exe@));
    string_from_chars(out.as_slice())
}

/// The outcome of deleting a registry value: a value that was not there counts
/// as deleted.
pub open spec fn deletion_status_spec(code: u32) -> u32 {
    if code == ERROR_FILE_NOT_FOUND { ERROR_SUCCESS } else { code }
}

/// Maps the status of a registry deletion, treating a missing value as deleted.
pub fn registry_deletion_status(code: u32) -> (r: u32)
    ensures
        r == deletion_status_spec(code),
{
    if code == ERROR_FILE_NOT_FOUND {
        ERROR_SUCCESS
    } else {
        code
    }
}

/// Turning start-at-log-in off deletes the value under the current and the
/// former name; it succeeds if the first deletion did, else it reports the second.
pub fn autostart_removal_status(current: u32, legacy: u32) -> (r: u32)
    ensures
        r == (if deletion_status_spec(current) == ERROR_SUCCESS {
            ERROR_SUCCESS
        } else {
            deletion_status_spec(legacy)
        }),
{
    let c = registry_deletion_status(current);
    let l = registry_deletion_status(legacy);
    if c == ERROR_SUCCESS {
        c
    } else {
        l
    }
}

/// The parts of the report after a capture was put out.
pub open spec fn output_parts(saved_path: Option<Seq<char>>, copied: bool, hdr: bool) -> Seq<Seq<char>> {
    let p1 = match saved_path {
        Some(path) => seq!["已保存: "@ + path],
        None => Seq::<Seq<char>>::empty(),
    };
    let p2 = if copied { p1.push("已复制到剪贴板"@) } else { p1 };
    if hdr { p2.push("HDR 已按显示效果映射"@) } else { p2 }
}

/// The report after a capture: where it was saved, whether it went to the
/// clipboard and whether HDR content was mapped, joined by `；`.
pub fn output_status(saved_path: Option<&str>, copied: bool, hdr: bool) -> (s: String)
    ensures
        s@ == joined(
            output_parts(
                match saved_path {
                    Some(p) => Some(p@),
                    None => None,
                },
                copied,
                hdr,
            ),
            "；"@,
        ),
{
    let mut parts: Vec<Vec<char>> = Vec::new();
    if let Some(path) = saved_path {
        let mut part: Vec<char> = Vec::new();
        push_str(&mut part, "已保存: ");
        push_str(&mut part, path);
        parts.push(part);
    }
    if copied {
        parts.push(crate::text::chars_of("已复制到剪贴板"));
    }
    if hdr {
        parts.push(crate::text::chars_of("HDR 已按显示效果映射"));
    }
    assert(seqs_of(parts@) =~= output_parts(
        match saved_path {
            Some(p) => Some(p@),
            None => None,
        },
        copied,
        hdr,
    ));
    let out = join_chars(&parts, "；");
    string_from_chars(out.as_slice())
}

/// The status reported after the hotkey of the settings was (re)registered.
pub open spec fn hotkey_status_spec(parsed: Result<HotkeyModel, HotkeyErrorModel>, registered: bool) -> Seq<char> {
    match parsed {
        Ok(h) => if registered {
            "热键已启用: "@ + h.display
        } else {
            "热键注册失败，可能已被其他程序占用"@
        },
        Err(e) => "热键无效: "@ + error_text(e),
    }
}

/// The status text after registering the hotkey of the settings: the hotkey
/// now active, a registration that the system refused, or why the description
/// was rejected.
pub fn hotkey_status(parsed: &Result<Hotkey, HotkeyError>, registered: bool) -> (s: String)
    ensures
        s@ == hotkey_status_spec(hotkey_result_view(*parsed), registered),
{
    let mut out: Vec<char> = Vec::new();
    match parsed {
        Ok(h) => {
            if registered {
                push_str(&mut out, "热键已启用: ");
                push_str(&mut out, h.display.as_str());
            } else {
                push_str(&mut out, "热键注册失败，可能已被其他程序占用");
            }
        },
        Err(e) => {
            push_str(&mut out, "热键无效: ");
            let m = e.message();
            push_str(&mut out, m.as_str());
        },
    }
    string_from_chars(out.as_slice())
}

} // verus!
