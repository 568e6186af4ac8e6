//! Parsing of global hotkey descriptions such as `Ctrl+Alt+B` or `F8`.
use vstd::prelude::*;
use crate::text::{
    ascii_upper, ascii_upper_seq, chars_eq_str, chars_of, decimal, digit_char, is_space,
    is_space_char,
    push_decimal, push_str, seqs_of, string_from_chars, to_ascii_upper,
};

verus! {

/// Modifier bit of the Alt key.
pub const MOD_ALT: u32 = 0x1;

/// Modifier bit of the Ctrl key.
pub const MOD_CONTROL: u32 = 0x2;

/// Modifier bit of the Shift key.
pub const MOD_SHIFT: u32 = 0x4;

/// Modifier bit of the Windows key.
pub const MOD_WIN: u32 = 0x8;

/// Flag that keeps a held hotkey from repeating.
pub const MOD_NOREPEAT: u32 = 0x4000;

/// A parsed hotkey: modifier bits, virtual-key code and a canonical spelling.
#[derive(Debug, Clone, PartialEq, Eq)]
pub struct Hotkey {
    pub modifiers: u32,
    pub vk: u32,
    pub display: String,
}

/// Why a hotkey description was rejected.
#[derive(Debug, Clone, PartialEq, Eq)]
pub enum HotkeyError {
    /// More than one non-modifier key was named.
    MultipleMainKeys,
    /// Only modifiers (or nothing) were named.
    MissingKey,
    /// A key name that is not supported (upper-cased as it was looked up).
    UnsupportedKey(String),
}

/// The mathematical content of a `Hotkey`.
pub struct HotkeyModel {
    pub modifiers: u32,
    pub vk: u32,
    pub display: Seq<char>,
}

/// The mathematical content of a `HotkeyError`.
pub enum HotkeyErrorModel {
    MultipleMainKeys,
    MissingKey,
    UnsupportedKey(Seq<char>),
}

impl View for Hotkey {
    type V = HotkeyModel;

    open spec fn view(&self) -> HotkeyModel {
        HotkeyModel { modifiers: self.modifiers, vk: self.vk, display: self.display@ }
    }
}

impl View for HotkeyError {
    type V = HotkeyErrorModel;

    open spec fn view(&self) -> HotkeyErrorModel {
        match self {
            HotkeyError::MultipleMainKeys => HotkeyErrorModel::MultipleMainKeys,
            HotkeyError::MissingKey => HotkeyErrorModel::MissingKey,
            HotkeyError::UnsupportedKey(s) => HotkeyErrorModel::UnsupportedKey(s@),
        }
    }
}

/// The message shown for a rejected description.
pub open spec fn error_text(e: HotkeyErrorModel) -> Seq<char> {
    match e {
        HotkeyErrorModel::MultipleMainKeys => "热键只能有一个主按键"@,
        HotkeyErrorModel::MissingKey => "请输入一个按键，例如 Ctrl+Alt+B 或 F8"@,
        HotkeyErrorModel::UnsupportedKey(token) => "不支持的按键: "@ + token,
    }
}

impl HotkeyError {
    /// The message that tells the user why the description was rejected.
    pub fn message(&self) -> (s: String)
        ensures
            s@ == error_text(self@),
    {
        match self {
            HotkeyError::MultipleMainKeys => String::from_str("热键只能有一个主按键"),
            HotkeyError::MissingKey => String::from_str("请输入一个按键，例如 Ctrl+Alt+B 或 F8"),
            HotkeyError::UnsupportedKey(token) => {
                let mut out: Vec<char> = Vec::new();
                push_str(&mut out, "不支持的按键: ");
                push_str(&mut out, token.as_str());
                string_from_chars(out.as_slice())
            },
        }
    }
}

impl Hotkey {
    /// The modifier flags to register the hotkey with: its modifiers, not repeating.
    pub fn register_modifiers(&self) -> (r: u32)
        ensures
            r == self.modifiers | MOD_NOREPEAT,
    {
        self.modifiers | MOD_NOREPEAT
    }
}

/// A character that separates the keys of a description: `+` or whitespace.
pub open spec fn is_key_separator(c: char) -> bool {
    c == '+' || is_space(c)
}

/// Scanning a description: the keys completed so far and the key being read.
pub open spec fn key_scan(s: Seq<char>) -> (Seq<Seq<char>>, Seq<char>)
    decreases s.len(),
{
    if s.len() == 0 {
        (seq![], seq![])
    } else {
        let (done, cur) = key_scan(s.drop_last());
        let c = s.last();
        if is_key_separator(c) {
            if cur.len() > 0 {
                (done.push(cur), seq![])
            } else {
                (done, cur)
            }
        } else {
            (done, cur.push(c))
        }
    }
}

/// The key names of a description: the maximal runs of characters that are
/// neither `+` nor whitespace.
pub open spec fn key_tokens(s: Seq<char>) -> Seq<Seq<char>> {
    let (done, cur) = key_scan(s);
    if cur.len() > 0 {
        done.push(cur)
    } else {
        done
    }
}

/// The modifier bit named by an upper-case key name, if it names a modifier.
pub open spec fn modifier_bit(name: Seq<char>) -> Option<u32> {
    if name == "CTRL"@ || name == "CONTROL"@ {
        Some(MOD_CONTROL)
    } else if name == "ALT"@ {
        Some(MOD_ALT)
    } else if name == "SHIFT"@ {
        Some(MOD_SHIFT)
    } else if name == "WIN"@ || name == "WINDOWS"@ || name == "META"@ || name == "CMD"@ {
        Some(MOD_WIN)
    } else {
        None
    }
}

pub open spec fn is_ascii_digit(c: char) -> bool {
    '0' <= c <= '9'
}

pub open spec fn is_ascii_alnum(c: char) -> bool {
    is_ascii_digit(c) || 'A' <= c <= 'Z' || 'a' <= c <= 'z'
}

/// The value of a string of decimal digits.
pub open spec fn digits_value(s: Seq<char>) -> nat
    decreases s.len(),
{
    if s.len() == 0 {
        0
    } else {
        10 * digits_value(s.drop_last()) + (s.last() as nat - 48) as nat
    }
}

pub open spec fn all_digits(s: Seq<char>) -> bool {
    forall|i: int| 0 <= i < s.len() ==> is_ascii_digit(#[trigger] s[i])
}

/// `str::parse::<u32>`: an optional `+` then at least one decimal digit, with a
/// value that fits in `u32`.
pub open spec fn parsed_u32(s: Seq<char>) -> Option<nat> {
    let digits = if s.len() > 0 && s[0] == '+' { s.drop_first() } else { s };
    if digits.len() > 0 && all_digits(digits) && digits_value(digits) <= u32::MAX {
        Some(digits_value(digits))
    } else {
        None
    }
}

/// The named (non-character, non-function) keys: virtual-key code and display name.
pub open spec fn named_key(name: Seq<char>) -> Option<(u32, Seq<char>)> {
    if name == "ESC"@ || name == "ESCAPE"@ {
        Some((0x1B, "Esc"@))
    } else if name == "ENTER"@ || name == "RETURN"@ {
        Some((0x0D, "Enter"@))
    } else if name == "SPACE"@ {
        Some((0x20, "Space"@))
    } else if name == "TAB"@ {
        Some((0x09, "Tab"@))
    } else if name == "BACKSPACE"@ || name == "BKSP"@ {
        Some((0x08, "Backspace"@))
    } else if name == "DELETE"@ || name == "DEL"@ {
        Some((0x2E, "Delete"@))
    } else if name == "INSERT"@ || name == "INS"@ {
        Some((0x2D, "Insert"@))
    } else if name == "HOME"@ {
        Some((0x24, "Home"@))
    } else if name == "END"@ {
        Some((0x23, "End"@))
    } else if name == "PAGEUP"@ || name == "PGUP"@ {
        Some((0x21, "PageUp"@))
    } else if name == "PAGEDOWN"@ || name == "PGDN"@ {
        Some((0x22, "PageDown"@))
    } else if name == "LEFT"@ {
        Some((0x25, "Left"@))
    } else if name == "UP"@ {
        Some((0x26, "Up"@))
    } else if name == "RIGHT"@ {
        Some((0x27, "Right"@))
    } else if name == "DOWN"@ {
        Some((0x28, "Down"@))
    } else if name == "PRINTSCREEN"@ || name == "PRTSC"@ || name == "PRTSCR"@ || name
        == "SNAPSHOT"@ {
        Some((0x2C, "PrintScreen"@))
    } else if name == "PAUSE"@ {
        Some((0x13, "Pause"@))
    } else {
        None
    }
}

/// The function key number of a name `F<n>` with `1 <= n <= 24`.
pub open spec fn function_key_number(token: Seq<char>) -> Option<nat> {
    if token.len() > 0 && token[0] == 'F' {
        match parsed_u32(token.drop_first()) {
            Some(n) => if 1 <= n <= 24 {
                Some(n)
            } else {
                None
            },
            None => None,
        }
    } else {
        None
    }
}

/// What `parse_key` gives for a key name: a single ASCII letter or digit is its
/// own code, `F1` to `F24` map to codes 112 to 135, then the named keys.
pub open spec fn key_of(token: Seq<char>) -> Result<(u32, Seq<char>), HotkeyErrorModel> {
    if token.len() == 1 && is_ascii_alnum(token[0]) {
        Ok((token[0] as u32, token))
    } else if function_key_number(token) is Some {
        let n = function_key_number(token).unwrap();
        Ok(((111 + n) as u32, seq!['F'] + decimal(n)))
    } else {
        match named_key(token) {
            Some(k) => Ok(k),
            None => Err(HotkeyErrorModel::UnsupportedKey(token)),
        }
    }
}

/// What has been read of a description: the modifier bits and the main key.
pub type KeyAcc = (u32, Option<(u32, Seq<char>)>);

/// Reading one key name of a description.
pub open spec fn read_key(acc: KeyAcc, token: Seq<char>) -> Result<KeyAcc, HotkeyErrorModel> {
    let upper = ascii_upper_seq(token);
    match modifier_bit(upper) {
        Some(bit) => Ok((acc.0 | bit, acc.1)),
        None => if acc.1 is Some {
            Err(HotkeyErrorModel::MultipleMainKeys)
        } else {
            match key_of(upper) {
                Ok(k) => Ok((acc.0, Some(k))),
                Err(e) => Err(e),
            }
        },
    }
}

/// Reading key names in order, stopping at the first rejected one.
pub open spec fn read_keys(acc: KeyAcc, tokens: Seq<Seq<char>>) -> Result<KeyAcc, HotkeyErrorModel>
    decreases tokens.len(),
{
    if tokens.len() == 0 {
        Ok(acc)
    } else {
        match read_key(acc, tokens[0]) {
            Ok(next) => read_keys(next, tokens.drop_first()),
            Err(e) => Err(e),
        }
    }
}

/// The canonical spelling: the modifiers present, in the order Ctrl, Alt,
/// Shift, Win, then the key name, joined by `+`.
pub open spec fn display_of(modifiers: u32, name: Seq<char>) -> Seq<char> {
    (if modifiers & MOD_CONTROL != 0 { "Ctrl"@.push('+') } else { seq![] }) + (if modifiers
        & MOD_ALT != 0 {
        "Alt"@.push('+')
    } else {
        seq![]
    }) + (if modifiers & MOD_SHIFT != 0 {
        "Shift"@.push('+')
    } else {
        seq![]
    }) + (if modifiers & MOD_WIN != 0 {
        "Win"@.push('+')
    } else {
        seq![]
    }) + name
}

/// What `parse_hotkey` gives for a description.
pub open spec fn hotkey_of(input: Seq<char>) -> Result<HotkeyModel, HotkeyErrorModel> {
    match read_keys((0, None), key_tokens(input)) {
        Err(e) => Err(e),
        Ok((modifiers, None)) => Err(HotkeyErrorModel::MissingKey),
        Ok((modifiers, Some((vk, name)))) => Ok(
            HotkeyModel { modifiers, vk, display: display_of(modifiers, name) },
        ),
    }
}

pub open spec fn hotkey_result_view(r: Result<Hotkey, HotkeyError>) -> Result<
    HotkeyModel,
    HotkeyErrorModel,
> {
    match r {
        Ok(h) => Ok(h@),
        Err(e) => Err(e@),
    }
}

pub open spec fn key_result_view(r: Result<(u32, String), HotkeyError>) -> Result<
    (u32, Seq<char>),
    HotkeyErrorModel,
> {
    match r {
        Ok((vk, name)) => Ok((vk, name@)),
        Err(e) => Err(e@),
    }
}

pub open spec fn key_view(k: Option<(u32, String)>) -> Option<(u32, Seq<char>)> {
    match k {
        Some((vk, name)) => Some((vk, name@)),
        None => None,
    }
}

proof fn lemma_upper_idempotent(s: Seq<char>)
    ensures
        ascii_upper_seq(ascii_upper_seq(s)) == ascii_upper_seq(s),
{
    assert(ascii_upper_seq(ascii_upper_seq(s)) =~= ascii_upper_seq(s));
}

pub open spec fn upper_tokens(toks: Seq<Seq<char>>) -> Seq<Seq<char>> {
    toks.map_values(|t: Seq<char>| ascii_upper_seq(t))
}

proof fn lemma_key_scan_upper(s: Seq<char>)
    ensures
        key_scan(ascii_upper_seq(s)) == (upper_tokens(key_scan(s).0), ascii_upper_seq(
            key_scan(s).1,
        )),
    decreases s.len(),
{
    if s.len() == 0 {
        assert(ascii_upper_seq(s) =~= seq![]);
        assert(upper_tokens(seq![]) =~= seq![]);
        assert(ascii_upper_seq(seq![]) =~= seq![]);
    } else {
        let u = ascii_upper_seq(s);
        lemma_key_scan_upper(s.drop_last());
        assert(u.drop_last() =~= ascii_upper_seq(s.drop_last()));
        assert(u.last() == ascii_upper(s.last()));
        let (done, cur) = key_scan(s.drop_last());
        assert(ascii_upper_seq(cur).len() == cur.len());
        assert(upper_tokens(done.push(cur)) =~= upper_tokens(done).push(ascii_upper_seq(cur)));
        assert(ascii_upper_seq(cur.push(s.last())) =~= ascii_upper_seq(cur).push(
            ascii_upper(s.last()),
        ));
        assert(ascii_upper_seq(Seq::<char>::empty()) =~= Seq::<char>::empty());
    }
}

proof fn lemma_read_keys_upper(acc: KeyAcc, toks: Seq<Seq<char>>)
    ensures
        read_keys(acc, upper_tokens(toks)) == read_keys(acc, toks),
    decreases toks.len(),
{
    if toks.len() > 0 {
        let ut = upper_tokens(toks);
        lemma_upper_idempotent(toks[0]);
        assert(ut[0] == ascii_upper_seq(toks[0]));
        assert(read_key(acc, ut[0]) == read_key(acc, toks[0]));
        assert(ut.drop_first() =~= upper_tokens(toks.drop_first()));
        match read_key(acc, toks[0]) {
            Ok(next) => {
                lemma_read_keys_upper(next, toks.drop_first());
            },
            Err(_) => {},
        }
    }
}

/// Hotkey descriptions are case-insensitive: upper-casing the ASCII letters of a
/// description does not change what it parses to.
pub proof fn lemma_hotkey_case_insensitive(input: Seq<char>)
    ensures
        hotkey_of(ascii_upper_seq(input)) == hotkey_of(input),
{
    lemma_key_scan_upper(input);
    let (done, cur) = key_scan(input);
    assert(ascii_upper_seq(cur).len() == cur.len());
    assert(upper_tokens(done.push(cur)) =~= upper_tokens(done).push(ascii_upper_seq(cur)));
    assert(key_tokens(ascii_upper_seq(input)) == upper_tokens(key_tokens(input)));
    lemma_read_keys_upper((0, None), key_tokens(input));
}

proof fn lemma_decimal_digits(n: nat)
    ensures
        decimal(n).len() > 0,
        all_digits(decimal(n)),
        digits_value(decimal(n)) == n,
    decreases n,
{
    let c = digit_char(n % 10);
    assert(c as nat == 48 + n % 10);
    if n < 10 {
        assert(decimal(n) == seq![c]);
        assert(seq![c].drop_last() =~= Seq::<char>::empty());
        assert(digits_value(Seq::<char>::empty()) == 0);
        assert(seq![c].last() == c);
        assert(digits_value(seq![c]) == 10 * digits_value(seq![c].drop_last()) + (c as nat
            - 48) as nat);
        assert(is_ascii_digit(seq![c][0]));
    } else {
        lemma_decimal_digits(n / 10);
        let d = decimal(n / 10);
        assert(decimal(n) == d.push(c));
        assert(d.push(c).drop_last() =~= d);
        assert(digits_value(d.push(c)) == 10 * digits_value(d) + (c as nat - 48) as nat);
        assert forall|i: int| 0 <= i < d.push(c).len() implies is_ascii_digit(
            #[trigger] d.push(c)[i],
        ) by {
            if i < d.len() {
                assert(d.push(c)[i] == d[i]);
            }
        }
    }
}

/// No character of `s` separates keys.
pub open spec fn no_separator(s: Seq<char>) -> bool {
    forall|i: int| 0 <= i < s.len() ==> !is_key_separator(#[trigger] s[i])
}

proof fn lemma_key_scan_word(p: Seq<char>, w: Seq<char>)
    requires
        no_separator(w),
    ensures
        key_scan(p + w) == (key_scan(p).0, key_scan(p).1 + w),
    decreases w.len(),
{
    if w.len() == 0 {
        assert(p + w =~= p);
        assert(key_scan(p).1 + w =~= key_scan(p).1);
    } else {
        let w0 = w.drop_last();
        assert(no_separator(w0)) by {
            assert forall|i: int| 0 <= i < w0.len() implies !is_key_separator(#[trigger] w0[i]) by {
                assert(w0[i] == w[i]);
            }
        }
        lemma_key_scan_word(p, w0);
        assert((p + w).drop_last() =~= p + w0);
        assert((p + w).last() == w[w.len() - 1]);
        assert(key_scan(p).1 + w0 + seq![w.last()] =~= key_scan(p).1 + w);
    }
}

proof fn lemma_key_scan_word_plus(p: Seq<char>, w: Seq<char>)
    requires
        no_separator(w),
        w.len() > 0,
        key_scan(p).1.len() == 0,
    ensures
        key_scan(p + w + seq!['+']) == (key_scan(p).0.push(w), Seq::<char>::empty()),
{
    lemma_key_scan_word(p, w);
    assert((p + w + seq!['+']).drop_last() =~= p + w);
    assert(key_scan(p).1 + w =~= w);
}

/// The value read so far only has modifier bits.
proof fn lemma_read_keys_bits(acc: KeyAcc, toks: Seq<Seq<char>>)
    requires
        acc.0 < 16,
    ensures
        read_keys(acc, toks) matches Ok(r) ==> r.0 < 16,
    decreases toks.len(),
{
    if toks.len() > 0 {
        match read_key(acc, toks[0]) {
            Ok(next) => {
                let m = acc.0;
                assert(m < 16 ==> (m | 1u32) < 16 && (m | 2u32) < 16 && (m | 4u32) < 16 && (m
                    | 8u32) < 16) by (bit_vector);
                lemma_read_keys_bits(next, toks.drop_first());
            },
            Err(_) => {},
        }
    }
}

/// What a key name reads back as: its own name when spelled canonically.
pub open spec fn canonical_key(vk: u32, name: Seq<char>) -> bool {
    &&& name.len() > 0
    &&& no_separator(name)
    &&& ascii_upper_seq(name) == name || named_key(ascii_upper_seq(name)) == Some((vk, name))
    &&& modifier_bit(ascii_upper_seq(name)) is None
    &&& key_of(ascii_upper_seq(name)) == Ok::<(u32, Seq<char>), HotkeyErrorModel>((vk, name))
}

proof fn lemma_named_key_entry(alias: Seq<char>, vk: u32, name: Seq<char>)
    requires
        named_key(alias) == Some((vk, name)),
        ascii_upper_seq(name) == alias,
        name.len() > 1,
        no_separator(name),
        modifier_bit(alias) is None,
        alias.len() > 1,
        alias[0] != 'F',
    ensures
        canonical_key(vk, name),
{
}

proof fn lemma_named_key_canonical(u: Seq<char>)
    requires
        named_key(u) is Some,
    ensures
        canonical_key(named_key(u).unwrap().0, named_key(u).unwrap().1),
{
    reveal_strlit("ALT");
    reveal_strlit("BACKSPACE");
    reveal_strlit("BKSP");
    reveal_strlit("Backspace");
    reveal_strlit("CMD");
    reveal_strlit("CONTROL");
    reveal_strlit("CTRL");
    reveal_strlit("DEL");
    reveal_strlit("DELETE");
    reveal_strlit("DOWN");
    reveal_strlit("Delete");
    reveal_strlit("Down");
    reveal_strlit("END");
    reveal_strlit("ENTER");
    reveal_strlit("ESC");
    reveal_strlit("ESCAPE");
    reveal_strlit("End");
    reveal_strlit("Enter");
    reveal_strlit("Esc");
    reveal_strlit("HOME");
    reveal_strlit("Home");
    reveal_strlit("INS");
    reveal_strlit("INSERT");
    reveal_strlit("Insert");
    reveal_strlit("LEFT");
    reveal_strlit("Left");
    reveal_strlit("META");
    reveal_strlit("PAGEDOWN");
    reveal_strlit("PAGEUP");
    reveal_strlit("PAUSE");
    reveal_strlit("PGDN");
    reveal_strlit("PGUP");
    reveal_strlit("PRINTSCREEN");
    reveal_strlit("PRTSC");
    reveal_strlit("PRTSCR");
    reveal_strlit("PageDown");
    reveal_strlit("PageUp");
    reveal_strlit("Pause");
    reveal_strlit("PrintScreen");
    reveal_strlit("RETURN");
    reveal_strlit("RIGHT");
    reveal_strlit("Right");
    reveal_strlit("SHIFT");
    reveal_strlit("SNAPSHOT");
    reveal_strlit("SPACE");
    reveal_strlit("Space");
    reveal_strlit("TAB");
    reveal_strlit("Tab");
    reveal_strlit("UP");
    reveal_strlit("Up");
    reveal_strlit("WIN");
    reveal_strlit("WINDOWS");
    if u == "ESC"@ || u == "ESCAPE"@ {
        assert(ascii_upper_seq("Esc"@) =~= "ESC"@);
        assert("ESC"@[0] != "ALT"@[0]);
        assert("ESC"@[0] != "WIN"@[0]);
        assert("ESC"@[0] != "CMD"@[0]);
        lemma_named_key_entry("ESC"@, 0x1b, "Esc"@);
    } else if u == "ENTER"@ || u == "RETURN"@ {
        assert(ascii_upper_seq("Enter"@) =~= "ENTER"@);
        assert("ENTER"@[0] != "SHIFT"@[0]);
        lemma_named_key_entry("ENTER"@, 0xd, "Enter"@);
    } else if u == "SPACE"@ {
        assert(ascii_upper_seq("Space"@) =~= "SPACE"@);
        assert("SPACE"@[0] != "ENTER"@[0]);
        assert("SPACE"@[1] != "SHIFT"@[1]);
        lemma_named_key_entry("SPACE"@, 0x20, "Space"@);
    } else if u == "TAB"@ {
        assert(ascii_upper_seq("Tab"@) =~= "TAB"@);
        assert("TAB"@[0] != "ESC"@[0]);
        assert("TAB"@[0] != "ALT"@[0]);
        assert("TAB"@[0] != "WIN"@[0]);
        assert("TAB"@[0] != "CMD"@[0]);
        lemma_named_key_entry("TAB"@, 0x9, "Tab"@);
    } else if u == "BACKSPACE"@ || u == "BKSP"@ {
        assert(ascii_upper_seq("Backspace"@) =~= "BACKSPACE"@);
        lemma_named_key_entry("BACKSPACE"@, 0x8, "Backspace"@);
    } else if u == "DELETE"@ || u == "DEL"@ {
        assert(ascii_upper_seq("Delete"@) =~= "DELETE"@);
        assert("DELETE"@[0] != "ESCAPE"@[0]);
        assert("DELETE"@[0] != "RETURN"@[0]);
        lemma_named_key_entry("DELETE"@, 0x2e, "Delete"@);
    } else if u == "INSERT"@ || u == "INS"@ {
        assert(ascii_upper_seq("Insert"@) =~= "INSERT"@);
        assert("INSERT"@[0] != "ESCAPE"@[0]);
        assert("INSERT"@[0] != "RETURN"@[0]);
        assert("INSERT"@[0] != "DELETE"@[0]);
        lemma_named_key_entry("INSERT"@, 0x2d, "Insert"@);
    } else if u == "HOME"@ {
        assert(ascii_upper_seq("Home"@) =~= "HOME"@);
        assert("HOME"@[0] != "BKSP"@[0]);
        assert("HOME"@[0] != "CTRL"@[0]);
        assert("HOME"@[0] != "META"@[0]);
        lemma_named_key_entry("HOME"@, 0x24, "Home"@);
    } else if u == "END"@ {
        assert(ascii_upper_seq("End"@) =~= "END"@);
        assert("END"@[1] != "ESC"@[1]);
        assert("END"@[0] != "TAB"@[0]);
        assert("END"@[0] != "DEL"@[0]);
        assert("END"@[0] != "INS"@[0]);
        assert("END"@[0] != "ALT"@[0]);
        assert("END"@[0] != "WIN"@[0]);
        assert("END"@[0] != "CMD"@[0]);
        lemma_named_key_entry("END"@, 0x23, "End"@);
    } else if u == "PAGEUP"@ || u == "PGUP"@ {
        assert(ascii_upper_seq("PageUp"@) =~= "PAGEUP"@);
        assert("PAGEUP"@[0] != "ESCAPE"@[0]);
        assert("PAGEUP"@[0] != "RETURN"@[0]);
        assert("PAGEUP"@[0] != "DELETE"@[0]);
        assert("PAGEUP"@[0] != "INSERT"@[0]);
        lemma_named_key_entry("PAGEUP"@, 0x21, "PageUp"@);
    } else if u == "PAGEDOWN"@ || u == "PGDN"@ {
        assert(ascii_upper_seq("PageDown"@) =~= "PAGEDOWN"@);
        lemma_named_key_entry("PAGEDOWN"@, 0x22, "PageDown"@);
    } else if u == "LEFT"@ {
        assert(ascii_upper_seq("Left"@) =~= "LEFT"@);
        assert("LEFT"@[0] != "BKSP"@[0]);
        assert("LEFT"@[0] != "HOME"@[0]);
        assert("LEFT"@[0] != "PGUP"@[0]);
        assert("LEFT"@[0] != "PGDN"@[0]);
        assert("LEFT"@[0] != "CTRL"@[0]);
        assert("LEFT"@[0] != "META"@[0]);
        lemma_named_key_entry("LEFT"@, 0x25, "Left"@);
    } else if u == "UP"@ {
        assert(ascii_upper_seq("Up"@) =~= "UP"@);
        lemma_named_key_entry("UP"@, 0x26, "Up"@);
    } else if u == "RIGHT"@ {
        assert(ascii_upper_seq("Right"@) =~= "RIGHT"@);
        assert("RIGHT"@[0] != "ENTER"@[0]);
        assert("RIGHT"@[0] != "SPACE"@[0]);
        assert("RIGHT"@[0] != "SHIFT"@[0]);
        lemma_named_key_entry("RIGHT"@, 0x27, "Right"@);
    } else if u == "DOWN"@ {
        assert(ascii_upper_seq("Down"@) =~= "DOWN"@);
        assert("DOWN"@[0] != "BKSP"@[0]);
        assert("DOWN"@[0] != "HOME"@[0]);
        assert("DOWN"@[0] != "PGUP"@[0]);
        assert("DOWN"@[0] != "PGDN"@[0]);
        assert("DOWN"@[0] != "LEFT"@[0]);
        assert("DOWN"@[0] != "CTRL"@[0]);
        assert("DOWN"@[0] != "META"@[0]);
        lemma_named_key_entry("DOWN"@, 0x28, "Down"@);
    } else if u == "PRINTSCREEN"@ || u == "PRTSC"@ || u == "PRTSCR"@ || u == "SNAPSHOT"@ {
        assert(ascii_upper_seq("PrintScreen"@) =~= "PRINTSCREEN"@);
        lemma_named_key_entry("PRINTSCREEN"@, 0x2c, "PrintScreen"@);
    } else if u == "PAUSE"@ {
        assert(ascii_upper_seq("Pause"@) =~= "PAUSE"@);
        assert("PAUSE"@[0] != "ENTER"@[0]);
        assert("PAUSE"@[0] != "SPACE"@[0]);
        assert("PAUSE"@[0] != "RIGHT"@[0]);
        assert("PAUSE"@[1] != "PRTSC"@[1]);
        assert("PAUSE"@[0] != "SHIFT"@[0]);
        lemma_named_key_entry("PAUSE"@, 0x13, "Pause"@);
    }
}

proof fn lemma_read_keys_push(acc: KeyAcc, toks: Seq<Seq<char>>, t: Seq<char>)
    ensures
        read_keys(acc, toks.push(t)) == (match read_keys(acc, toks) {
            Ok(a) => read_key(a, t),
            Err(e) => Err(e),
        }),
    decreases toks.len(),
{
    if toks.len() == 0 {
        assert(toks.push(t).drop_first() =~= Seq::<Seq<char>>::empty());
        assert(toks.push(t)[0] == t);
        match read_key(acc, t) {
            Ok(next) => {
                assert(read_keys(next, Seq::<Seq<char>>::empty()) == Ok::<
                    KeyAcc,
                    HotkeyErrorModel,
                >(next));
            },
            Err(_) => {},
        }
    } else {
        assert(toks.push(t).drop_first() =~= toks.drop_first().push(t));
        assert(toks.push(t)[0] == toks[0]);
        match read_key(acc, toks[0]) {
            Ok(next) => {
                lemma_read_keys_push(next, toks.drop_first(), t);
            },
            Err(_) => {},
        }
    }
}

/// Every key name of a description is non-empty and free of separators.
pub open spec fn well_split(toks: Seq<Seq<char>>) -> bool {
    forall|i: int| 0 <= i < toks.len() ==> (#[trigger] toks[i]).len() > 0 && no_separator(toks[i])
}

proof fn lemma_key_scan_well_split(s: Seq<char>)
    ensures
        well_split(key_scan(s).0),
        no_separator(key_scan(s).1),
        well_split(key_tokens(s)),
    decreases s.len(),
{
    if s.len() > 0 {
        lemma_key_scan_well_split(s.drop_last());
        let (done, cur) = key_scan(s.drop_last());
        let c = s.last();
        if !is_key_separator(c) {
            assert forall|i: int| 0 <= i < cur.push(c).len() implies !is_key_separator(
                #[trigger] cur.push(c)[i],
            ) by {
                if i < cur.len() {
                    assert(cur.push(c)[i] == cur[i]);
                }
            }
        } else if cur.len() > 0 {
            assert forall|i: int| 0 <= i < done.push(cur).len() implies (#[trigger] done.push(
                cur,
            )[i]).len() > 0 && no_separator(done.push(cur)[i]) by {
                if i < done.len() {
                    assert(done.push(cur)[i] == done[i]);
                }
            }
        }
    }
    let (done, cur) = key_scan(s);
    if cur.len() > 0 {
        assert forall|i: int| 0 <= i < done.push(cur).len() implies (#[trigger] done.push(
            cur,
        )[i]).len() > 0 && no_separator(done.push(cur)[i]) by {
            if i < done.len() {
                assert(done.push(cur)[i] == done[i]);
            }
        }
    }
}

proof fn lemma_upper_keeps_separators(t: Seq<char>)
    requires
        no_separator(t),
    ensures
        no_separator(ascii_upper_seq(t)),
        ascii_upper_seq(t).len() == t.len(),
{
    assert forall|i: int| 0 <= i < ascii_upper_seq(t).len() implies !is_key_separator(
        #[trigger] ascii_upper_seq(t)[i],
    ) by {
        assert(!is_key_separator(t[i]));
    }
}

proof fn lemma_function_key_name(n: nat)
    requires
        1 <= n <= 24,
    ensures
        ({
            let name = seq!['F'] + decimal(n);
            &&& name.len() > 1
            &&& no_separator(name)
            &&& ascii_upper_seq(name) == name
            &&& modifier_bit(name) is None
            &&& key_of(name) == Ok::<(u32, Seq<char>), HotkeyErrorModel>(((111 + n) as u32, name))
        }),
{
    reveal_strlit("CTRL");
    reveal_strlit("CONTROL");
    reveal_strlit("ALT");
    reveal_strlit("SHIFT");
    reveal_strlit("WIN");
    reveal_strlit("WINDOWS");
    reveal_strlit("META");
    reveal_strlit("CMD");
    let name = seq!['F'] + decimal(n);
    lemma_decimal_digits(n);
    assert(name[0] == 'F');
    assert forall|i: int| 0 <= i < name.len() implies !is_key_separator(#[trigger] name[i]) by {
        if i > 0 {
            assert(name[i] == decimal(n)[i - 1]);
            assert(is_ascii_digit(decimal(n)[i - 1]));
        }
    }
    assert forall|i: int| 0 <= i < name.len() implies #[trigger] ascii_upper_seq(name)[i]
        == name[i] by {
        if i > 0 {
            assert(name[i] == decimal(n)[i - 1]);
            assert(is_ascii_digit(decimal(n)[i - 1]));
        }
    }
    assert(ascii_upper_seq(name) =~= name);
    assert(name.drop_first() =~= decimal(n));
    assert(decimal(n)[0] != '+') by {
        assert(is_ascii_digit(decimal(n)[0]));
    }
    assert(parsed_u32(name.drop_first()) == Some(n));
    assert(function_key_number(name) == Some(n));
    assert("CTRL"@[0] != 'F' && "CONTROL"@[0] != 'F' && "ALT"@[0] != 'F' && "SHIFT"@[0]
        != 'F' && "WIN"@[0] != 'F' && "WINDOWS"@[0] != 'F' && "META"@[0] != 'F' && "CMD"@[0]
        != 'F');
    assert(modifier_bit(name) is None);
}

proof fn lemma_key_canonical(t: Seq<char>)
    requires
        t.len() > 0,
        no_separator(t),
        key_of(ascii_upper_seq(t)) is Ok,
    ensures
        canonical_key(key_of(ascii_upper_seq(t))->Ok_0.0, key_of(ascii_upper_seq(t))->Ok_0.1),
{
    let u = ascii_upper_seq(t);
    lemma_upper_keeps_separators(t);
    lemma_upper_idempotent(t);
    if u.len() == 1 && is_ascii_alnum(u[0]) {
        reveal_strlit("CTRL");
        reveal_strlit("CONTROL");
        reveal_strlit("ALT");
        reveal_strlit("SHIFT");
        reveal_strlit("WIN");
        reveal_strlit("WINDOWS");
        reveal_strlit("META");
        reveal_strlit("CMD");
        assert(ascii_upper_seq(u) == u);
    } else if function_key_number(u) is Some {
        lemma_function_key_name(function_key_number(u).unwrap());
    } else {
        assert(named_key(u) is Some);
        lemma_named_key_canonical(u);
    }
}

/// A key's display name, upper-cased, resolves to the same key: looking up an
/// upper-case key name and then its display name gives the same code and name.
pub proof fn lemma_key_name_round_trip(token: Seq<char>)
    requires
        ascii_upper_seq(token) == token,
        key_of(token) is Ok,
    ensures
        key_of(ascii_upper_seq(key_of(token)->Ok_0.1)) == key_of(token),
{
    if token.len() == 1 && is_ascii_alnum(token[0]) {
    } else if function_key_number(token) is Some {
        lemma_function_key_name(function_key_number(token).unwrap());
    } else {
        lemma_named_key_canonical(token);
    }
}

proof fn lemma_read_keys_canonical(acc: KeyAcc, toks: Seq<Seq<char>>)
    requires
        well_split(toks),
        acc.0 < 16,
        acc.1 matches Some(k) ==> canonical_key(k.0, k.1),
    ensures
        read_keys(acc, toks) matches Ok(r) ==> r.0 < 16 && (r.1 matches Some(k) ==> canonical_key(
            k.0,
            k.1,
        )),
    decreases toks.len(),
{
    if toks.len() > 0 {
        match read_key(acc, toks[0]) {
            Ok(next) => {
                let m = acc.0;
                assert(m < 16 ==> (m | 1u32) < 16 && (m | 2u32) < 16 && (m | 4u32) < 16 && (m
                    | 8u32) < 16) by (bit_vector);
                if modifier_bit(ascii_upper_seq(toks[0])) is None {
                    lemma_key_canonical(toks[0]);
                }
                assert(well_split(toks.drop_first())) by {
                    assert forall|i: int| 0 <= i < toks.drop_first().len() implies (
                    #[trigger] toks.drop_first()[i]).len() > 0 && no_separator(
                        toks.drop_first()[i],
                    ) by {
                        assert(toks.drop_first()[i] == toks[i + 1]);
                    }
                }
                lemma_read_keys_canonical(next, toks.drop_first());
            },
            Err(_) => {},
        }
    }
}

/// The modifier bits that the canonical spelling of `m` reads back as.
pub open spec fn reread_modifiers(m: u32) -> u32 {
    let v1 = if m & MOD_CONTROL != 0 { 0u32 | MOD_CONTROL } else { 0u32 };
    let v2 = if m & MOD_ALT != 0 { v1 | MOD_ALT } else { v1 };
    let v3 = if m & MOD_SHIFT != 0 { v2 | MOD_SHIFT } else { v2 };
    if m & MOD_WIN != 0 { v3 | MOD_WIN } else { v3 }
}

proof fn lemma_reread_modifiers(m: u32)
    requires
        m < 16,
    ensures
        reread_modifiers(m) == m,
{
    assert(m < 16 ==> (if m & 8u32 != 0 {
        (if m & 4u32 != 0 {
            (if m & 1u32 != 0 {
                (if m & 2u32 != 0 { 0u32 | 2u32 } else { 0u32 }) | 1u32
            } else {
                (if m & 2u32 != 0 { 0u32 | 2u32 } else { 0u32 })
            }) | 4u32
        } else {
            (if m & 1u32 != 0 {
                (if m & 2u32 != 0 { 0u32 | 2u32 } else { 0u32 }) | 1u32
            } else {
                (if m & 2u32 != 0 { 0u32 | 2u32 } else { 0u32 })
            })
        }) | 8u32
    } else {
        (if m & 4u32 != 0 {
            (if m & 1u32 != 0 {
                (if m & 2u32 != 0 { 0u32 | 2u32 } else { 0u32 }) | 1u32
            } else {
                (if m & 2u32 != 0 { 0u32 | 2u32 } else { 0u32 })
            }) | 4u32
        } else {
            (if m & 1u32 != 0 {
                (if m & 2u32 != 0 { 0u32 | 2u32 } else { 0u32 }) | 1u32
            } else {
                (if m & 2u32 != 0 { 0u32 | 2u32 } else { 0u32 })
            })
        })
    }) == m) by (bit_vector);
}

/// The key names of a canonical spelling, modifiers first.
pub open spec fn display_tokens(m: u32, name: Seq<char>) -> Seq<Seq<char>> {
    let t1 = if m & MOD_CONTROL != 0 { seq!["Ctrl"@] } else { Seq::<Seq<char>>::empty() };
    let t2 = if m & MOD_ALT != 0 { t1.push("Alt"@) } else { t1 };
    let t3 = if m & MOD_SHIFT != 0 { t2.push("Shift"@) } else { t2 };
    let t4 = if m & MOD_WIN != 0 { t3.push("Win"@) } else { t3 };
    t4.push(name)
}

proof fn lemma_display_tokens(m: u32, name: Seq<char>)
    requires
        name.len() > 0,
        no_separator(name),
    ensures
        key_tokens(display_of(m, name)) == display_tokens(m, name),
{
    reveal_strlit("Ctrl");
    reveal_strlit("Alt");
    reveal_strlit("Shift");
    reveal_strlit("Win");
    let e = Seq::<char>::empty();
    let words = seq!["Ctrl"@, "Alt"@, "Shift"@, "Win"@];
    assert forall|k: int| 0 <= k < 4 implies no_separator(#[trigger] words[k]) && words[k].len()
        > 0 by {
        assert forall|i: int| 0 <= i < words[k].len() implies !is_key_separator(
            #[trigger] words[k][i],
        ) by {}
    }
    let p1 = if m & MOD_CONTROL != 0 { "Ctrl"@.push('+') } else { e };
    let p2 = p1 + if m & MOD_ALT != 0 { "Alt"@.push('+') } else { e };
    let p3 = p2 + if m & MOD_SHIFT != 0 { "Shift"@.push('+') } else { e };
    let p4 = p3 + if m & MOD_WIN != 0 { "Win"@.push('+') } else { e };
    assert(display_of(m, name) =~= p4 + name);
    let t1 = if m & MOD_CONTROL != 0 { seq!["Ctrl"@] } else { Seq::<Seq<char>>::empty() };
    let t2 = if m & MOD_ALT != 0 { t1.push("Alt"@) } else { t1 };
    let t3 = if m & MOD_SHIFT != 0 { t2.push("Shift"@) } else { t2 };
    let t4 = if m & MOD_WIN != 0 { t3.push("Win"@) } else { t3 };
    assert(key_scan(e) == (Seq::<Seq<char>>::empty(), e));
    if m & MOD_CONTROL != 0 {
        lemma_key_scan_word_plus(e, words[0]);
        assert(e + words[0] + seq!['+'] =~= p1);
        assert(Seq::<Seq<char>>::empty().push(words[0]) =~= t1);
    }
    assert(key_scan(p1) == (t1, e));
    if m & MOD_ALT != 0 {
        lemma_key_scan_word_plus(p1, words[1]);
        assert(p1 + words[1] + seq!['+'] =~= p2);
    } else {
        assert(p2 =~= p1);
    }
    assert(key_scan(p2) == (t2, e));
    if m & MOD_SHIFT != 0 {
        lemma_key_scan_word_plus(p2, words[2]);
        assert(p2 + words[2] + seq!['+'] =~= p3);
    } else {
        assert(p3 =~= p2);
    }
    assert(key_scan(p3) == (t3, e));
    if m & MOD_WIN != 0 {
        lemma_key_scan_word_plus(p3, words[3]);
        assert(p3 + words[3] + seq!['+'] =~= p4);
    } else {
        assert(p4 =~= p3);
    }
    assert(key_scan(p4) == (t4, e));
    lemma_key_scan_word(p4, name);
    assert(e + name =~= name);
}

/// The canonical spelling of a parsed hotkey parses back to the same hotkey.
pub proof fn lemma_display_round_trip(input: Seq<char>)
    requires
        hotkey_of(input) is Ok,
    ensures
        hotkey_of(hotkey_of(input)->Ok_0.display) == hotkey_of(input),
{
    let toks = key_tokens(input);
    lemma_key_scan_well_split(input);
    lemma_read_keys_canonical((0, None), toks);
    let (m, key) = read_keys((0u32, None), toks)->Ok_0;
    let (vk, name) = key.unwrap();
    assert(canonical_key(vk, name));
    let d = display_of(m, name);
    lemma_display_tokens(m, name);
    reveal_strlit("Ctrl");
    reveal_strlit("Alt");
    reveal_strlit("Shift");
    reveal_strlit("Win");
    reveal_strlit("CTRL");
    reveal_strlit("CONTROL");
    reveal_strlit("ALT");
    reveal_strlit("SHIFT");
    reveal_strlit("WIN");
    assert(ascii_upper_seq("Ctrl"@) =~= "CTRL"@);
    assert(ascii_upper_seq("Alt"@) =~= "ALT"@);
    assert(ascii_upper_seq("Shift"@) =~= "SHIFT"@);
    assert(ascii_upper_seq("Win"@) =~= "WIN"@);
    assert("WIN"@[0] != "ALT"@[0]);
    assert(modifier_bit("CTRL"@) == Some(MOD_CONTROL));
    assert(modifier_bit("ALT"@) == Some(MOD_ALT));
    assert(modifier_bit("SHIFT"@) == Some(MOD_SHIFT));
    assert(modifier_bit("WIN"@) == Some(MOD_WIN));
    let e = Seq::<Seq<char>>::empty();
    let a0: KeyAcc = (0u32, None);
    let v1 = if m & MOD_CONTROL != 0 { 0u32 | MOD_CONTROL } else { 0u32 };
    let v2 = if m & MOD_ALT != 0 { v1 | MOD_ALT } else { v1 };
    let v3 = if m & MOD_SHIFT != 0 { v2 | MOD_SHIFT } else { v2 };
    let v4 = if m & MOD_WIN != 0 { v3 | MOD_WIN } else { v3 };
    let t1 = if m & MOD_CONTROL != 0 { seq!["Ctrl"@] } else { e };
    let t2 = if m & MOD_ALT != 0 { t1.push("Alt"@) } else { t1 };
    let t3 = if m & MOD_SHIFT != 0 { t2.push("Shift"@) } else { t2 };
    let t4 = if m & MOD_WIN != 0 { t3.push("Win"@) } else { t3 };
    assert(read_keys(a0, e) == Ok::<KeyAcc, HotkeyErrorModel>(a0));
    if m & MOD_CONTROL != 0 {
        lemma_read_keys_push(a0, e, "Ctrl"@);
        assert(e.push("Ctrl"@) =~= t1);
    }
    assert(read_keys(a0, t1) == Ok::<KeyAcc, HotkeyErrorModel>((v1, None)));
    if m & MOD_ALT != 0 {
        lemma_read_keys_push(a0, t1, "Alt"@);
    }
    assert(read_keys(a0, t2) == Ok::<KeyAcc, HotkeyErrorModel>((v2, None)));
    if m & MOD_SHIFT != 0 {
        lemma_read_keys_push(a0, t2, "Shift"@);
    }
    assert(read_keys(a0, t3) == Ok::<KeyAcc, HotkeyErrorModel>((v3, None)));
    if m & MOD_WIN != 0 {
        lemma_read_keys_push(a0, t3, "Win"@);
    }
    assert(read_keys(a0, t4) == Ok::<KeyAcc, HotkeyErrorModel>((v4, None)));
    lemma_read_keys_push(a0, t4, name);
    assert(read_key((v4, None), name) == Ok::<KeyAcc, HotkeyErrorModel>((v4, Some((vk, name)))));
    assert(v4 == reread_modifiers(m));
    lemma_reread_modifiers(m);
    assert(display_tokens(m, name) == t4.push(name));
}

/// The modifier bit a key name stands for (zero for other names).
pub open spec fn token_bit(t: Seq<char>) -> u32 {
    match modifier_bit(ascii_upper_seq(t)) {
        Some(bit) => bit,
        None => 0,
    }
}

/// All the modifier bits named among `toks`.
pub open spec fn modifiers_of(toks: Seq<Seq<char>>) -> u32
    decreases toks.len(),
{
    if toks.len() == 0 {
        0
    } else {
        token_bit(toks[0]) | modifiers_of(toks.drop_first())
    }
}

/// The main (non-modifier) key names among `toks`, upper-cased, in order.
pub open spec fn main_keys(toks: Seq<Seq<char>>) -> Seq<Seq<char>>
    decreases toks.len(),
{
    if toks.len() == 0 {
        seq![]
    } else if modifier_bit(ascii_upper_seq(toks[0])) is Some {
        main_keys(toks.drop_first())
    } else {
        seq![ascii_upper_seq(toks[0])] + main_keys(toks.drop_first())
    }
}

proof fn lemma_read_keys_summary(acc: KeyAcc, toks: Seq<Seq<char>>)
    ensures
        ({
            let mains = main_keys(toks);
            let m = acc.0 | modifiers_of(toks);
            &&& acc.1 is None && mains.len() == 1 && key_of(mains[0]) is Ok ==> read_keys(
                acc,
                toks,
            ) == Ok::<KeyAcc, HotkeyErrorModel>((m, Some(key_of(mains[0])->Ok_0)))
            &&& mains.len() == 0 ==> read_keys(acc, toks) == Ok::<KeyAcc, HotkeyErrorModel>(
                (m, acc.1),
            )
            &&& (acc.1 is Some && mains.len() >= 1) || (acc.1 is None && mains.len() >= 2) || (
            acc.1 is None && mains.len() == 1 && key_of(mains[0]) is Err) ==> read_keys(
                acc,
                toks,
            ) is Err
        }),
    decreases toks.len(),
{
    let a = acc.0;
    assert(a | 0u32 == a) by (bit_vector);
    if toks.len() > 0 {
        let t = toks[0];
        let rest = toks.drop_first();
        let b = token_bit(t);
        let r = modifiers_of(rest);
        assert((a | b) | r == a | (b | r)) by (bit_vector);
        match modifier_bit(ascii_upper_seq(t)) {
            Some(bit) => {
                lemma_read_keys_summary((a | bit, acc.1), rest);
            },
            None => {
                assert(a | 0u32 == a) by (bit_vector);
                let u = ascii_upper_seq(t);
                assert(main_keys(toks) == seq![u] + main_keys(rest));
                assert((seq![u] + main_keys(rest))[0] == u);
                match key_of(u) {
                    Ok(k) => {
                        lemma_read_keys_summary((a, Some(k)), rest);
                    },
                    Err(_) => {},
                }
            },
        }
    }
}

/// A description parses exactly when it names one main key and that key is
/// supported; the hotkey is then that key with every modifier named. So the
/// case of the letters, the separators used, the order of the names and
/// repeated modifiers change nothing but which error a bad description gives.
pub proof fn lemma_hotkey_names(input: Seq<char>)
    ensures
        ({
            let toks = key_tokens(input);
            let mains = main_keys(toks);
            let m = modifiers_of(toks);
            &&& (hotkey_of(input) is Ok) <==> (mains.len() == 1 && key_of(mains[0]) is Ok)
            &&& mains.len() == 1 && key_of(mains[0]) is Ok ==> hotkey_of(input) == Ok::<
                HotkeyModel,
                HotkeyErrorModel,
            >(
                HotkeyModel {
                    modifiers: m,
                    vk: key_of(mains[0])->Ok_0.0,
                    display: display_of(m, key_of(mains[0])->Ok_0.1),
                },
            )
        }),
{
    let toks = key_tokens(input);
    lemma_read_keys_summary((0u32, None), toks);
    let m = modifiers_of(toks);
    assert(0u32 | m == m) by (bit_vector);
}

/// Two descriptions that name the same modifiers and the same main keys, in
/// any order and any spelling of case or separators, parse alike: both fail,
/// or both give the same hotkey.
pub proof fn lemma_hotkey_same_names(s1: Seq<char>, s2: Seq<char>)
    requires
        modifiers_of(key_tokens(s1)) == modifiers_of(key_tokens(s2)),
        main_keys(key_tokens(s1)).to_multiset() == main_keys(key_tokens(s2)).to_multiset(),
    ensures
        (hotkey_of(s1) is Ok) == (hotkey_of(s2) is Ok),
        hotkey_of(s1) is Ok ==> hotkey_of(s1) == hotkey_of(s2),
{
    let m1 = main_keys(key_tokens(s1));
    let m2 = main_keys(key_tokens(s2));
    lemma_hotkey_names(s1);
    lemma_hotkey_names(s2);
    m1.to_multiset_ensures();
    m2.to_multiset_ensures();
    if m1.len() == 1 {
        assert(m1.contains(m1[0]));
        assert(m2.to_multiset().count(m1[0]) > 0);
        assert(m2.contains(m1[0]));
        assert(m2[0] == m1[0]);
    }
}

/// Windows virtual-key codes of the named keys.
pub const VK_BACK: u32 = 0x08;
pub const VK_TAB: u32 = 0x09;
pub const VK_RETURN: u32 = 0x0D;
pub const VK_PAUSE: u32 = 0x13;
pub const VK_ESCAPE: u32 = 0x1B;
pub const VK_SPACE: u32 = 0x20;
pub const VK_PRIOR: u32 = 0x21;
pub const VK_NEXT: u32 = 0x22;
pub const VK_END: u32 = 0x23;
pub const VK_HOME: u32 = 0x24;
pub const VK_LEFT: u32 = 0x25;
pub const VK_UP: u32 = 0x26;
pub const VK_RIGHT: u32 = 0x27;
pub const VK_DOWN: u32 = 0x28;
pub const VK_SNAPSHOT: u32 = 0x2C;
pub const VK_INSERT: u32 = 0x2D;
pub const VK_DELETE: u32 = 0x2E;

/// Windows virtual-key code of F1; F2 to F24 follow it.
pub const VK_F1: u32 = 0x70;

/// The Windows virtual-key code of a key, by the name it is displayed under:
/// the named keys by the Windows table, `F1` to `F24` from `VK_F1` on, and a
/// letter or digit by its own code.
pub open spec fn windows_key_code(name: Seq<char>) -> int {
    if name == "Esc"@ {
        VK_ESCAPE as int
    } else if name == "Enter"@ {
        VK_RETURN as int
    } else if name == "Space"@ {
        VK_SPACE as int
    } else if name == "Tab"@ {
        VK_TAB as int
    } else if name == "Backspace"@ {
        VK_BACK as int
    } else if name == "Delete"@ {
        VK_DELETE as int
    } else if name == "Insert"@ {
        VK_INSERT as int
    } else if name == "Home"@ {
        VK_HOME as int
    } else if name == "End"@ {
        VK_END as int
    } else if name == "PageUp"@ {
        VK_PRIOR as int
    } else if name == "PageDown"@ {
        VK_NEXT as int
    } else if name == "Left"@ {
        VK_LEFT as int
    } else if name == "Up"@ {
        VK_UP as int
    } else if name == "Right"@ {
        VK_RIGHT as int
    } else if name == "Down"@ {
        VK_DOWN as int
    } else if name == "PrintScreen"@ {
        VK_SNAPSHOT as int
    } else if name == "Pause"@ {
        VK_PAUSE as int
    } else if function_key_number(name) is Some {
        VK_F1 + function_key_number(name).unwrap() - 1
    } else {
        name[0] as int
    }
}

/// A supported key name resolves to the Windows virtual-key code of the name
/// it is displayed under: whatever alias or spelling was used, `Home` is
/// `VK_HOME`, `End` is `VK_END`, `F5` is `VK_F1 + 4`, `Q` is the code of `Q`.
pub proof fn lemma_key_code_is_windows_code(token: Seq<char>)
    requires
        key_of(token) is Ok,
    ensures
        key_of(token)->Ok_0.0 == windows_key_code(key_of(token)->Ok_0.1),
{
    reveal_strlit("Esc");
    reveal_strlit("Enter");
    reveal_strlit("Space");
    reveal_strlit("Tab");
    reveal_strlit("Backspace");
    reveal_strlit("Delete");
    reveal_strlit("Insert");
    reveal_strlit("Home");
    reveal_strlit("End");
    reveal_strlit("PageUp");
    reveal_strlit("PageDown");
    reveal_strlit("Left");
    reveal_strlit("Up");
    reveal_strlit("Right");
    reveal_strlit("Down");
    reveal_strlit("PrintScreen");
    reveal_strlit("Pause");
    reveal_strlit("ESC");
    reveal_strlit("ESCAPE");
    reveal_strlit("ENTER");
    reveal_strlit("RETURN");
    reveal_strlit("SPACE");
    reveal_strlit("TAB");
    reveal_strlit("BACKSPACE");
    reveal_strlit("BKSP");
    reveal_strlit("DELETE");
    reveal_strlit("DEL");
    reveal_strlit("INSERT");
    reveal_strlit("INS");
    reveal_strlit("HOME");
    reveal_strlit("END");
    reveal_strlit("PAGEUP");
    reveal_strlit("PGUP");
    reveal_strlit("PAGEDOWN");
    reveal_strlit("PGDN");
    reveal_strlit("LEFT");
    reveal_strlit("UP");
    reveal_strlit("RIGHT");
    reveal_strlit("DOWN");
    reveal_strlit("PRINTSCREEN");
    reveal_strlit("PRTSC");
    reveal_strlit("PRTSCR");
    reveal_strlit("SNAPSHOT");
    reveal_strlit("PAUSE");
    // the only display names of equal length and equal first character
    assert("Esc"@[1] != "End"@[1]);
    let (vk, name) = key_of(token)->Ok_0;
    if token.len() == 1 && is_ascii_alnum(token[0]) {
        assert(name.len() == 1);
        assert(function_key_number(name) is None);
    } else if function_key_number(token) is Some {
        let n = function_key_number(token).unwrap();
        lemma_function_key_name(n);
        assert(name == seq!['F'] + decimal(n));
        assert(name[0] == 'F');
    } else {
        assert(named_key(token) == Some((vk, name)));
    }
}

/// A parsed hotkey is registered with the Windows virtual-key code of its main
/// key, by the name that key is displayed under.
pub proof fn lemma_hotkey_code_is_windows_code(input: Seq<char>)
    ensures
        ({
            let mains = main_keys(key_tokens(input));
            hotkey_of(input) is Ok ==> mains.len() == 1 && key_of(mains[0]) is Ok
                && hotkey_of(input)->Ok_0.vk == windows_key_code(key_of(mains[0])->Ok_0.1)
        }),
{
    lemma_hotkey_names(input);
    let mains = main_keys(key_tokens(input));
    if hotkey_of(input) is Ok {
        lemma_key_code_is_windows_code(mains[0]);
    }
}

fn is_separator_char(c: char) -> (b: bool)
    ensures
        b == is_key_separator(c),
{
    c == '+' || is_space_char(c)
}


/// Splits a description into its key names.
fn split_keys(chars: &Vec<char>) -> (r: Vec<Vec<char>>)
    ensures
        seqs_of(r@) == key_tokens(chars@),
{
    let mut done: Vec<Vec<char>> = Vec::new();
    let mut cur: Vec<char> = Vec::new();
    let mut i: usize = 0;
    while i < chars.len()
        invariant
            i <= chars@.len(),
            key_scan(chars@.take(i as int)) == (seqs_of(done@), cur@),
        decreases chars@.len() - i,
    {
        let c = chars[i];
        assert(chars@.take(i + 1).drop_last() =~= chars@.take(i as int));
        if is_separator_char(c) {
            if cur.len() > 0 {
                let ghost old_done = done@;
                done.push(cur);
                cur = Vec::new();
                assert(seqs_of(done@) =~= seqs_of(old_done).push(
                    key_scan(chars@.take(i as int)).1,
                ));
                assert(cur@ =~= seq![]);
            }
        } else {
            cur.push(c);
        }
        i = i + 1;
    }
    assert(chars@.take(i as int) =~= chars@);
    if cur.len() > 0 {
        let ghost old_done = done@;
        done.push(cur);
        assert(seqs_of(done@) =~= seqs_of(old_done).push(key_scan(chars@).1));
    }
    done
}

fn upper_chars(v: &Vec<char>) -> (r: Vec<char>)
    ensures
        r@ == ascii_upper_seq(v@),
{
    let mut r: Vec<char> = Vec::new();
    let mut i: usize = 0;
    while i < v.len()
        invariant
            i <= v@.len(),
            r@ == ascii_upper_seq(v@.take(i as int)),
        decreases v@.len() - i,
    {
        r.push(to_ascii_upper(v[i]));
        assert(ascii_upper_seq(v@.take(i + 1)) =~= ascii_upper_seq(v@.take(i as int)).push(
            ascii_upper(v@[i as int]),
        ));
        i = i + 1;
    }
    assert(v@.take(i as int) =~= v@);
    r
}

fn modifier_bit_of(name: &Vec<char>) -> (r: Option<u32>)
    ensures
        r == modifier_bit(name@),
{
    if chars_eq_str(name, "CTRL") || chars_eq_str(name, "CONTROL") {
        Some(MOD_CONTROL)
    } else if chars_eq_str(name, "ALT") {
        Some(MOD_ALT)
    } else if chars_eq_str(name, "SHIFT") {
        Some(MOD_SHIFT)
    } else if chars_eq_str(name, "WIN") || chars_eq_str(name, "WINDOWS") || chars_eq_str(
        name,
        "META",
    ) || chars_eq_str(name, "CMD") {
        Some(MOD_WIN)
    } else {
        None
    }
}

fn is_ascii_alnum_char(c: char) -> (b: bool)
    ensures
        b == is_ascii_alnum(c),
{
    ('0' <= c && c <= '9') || ('A' <= c && c <= 'Z') || ('a' <= c && c <= 'z')
}

/// `min(digits_value(s), 2^32)`: the value, saturated just above `u32::MAX`.
pub open spec fn capped_value(s: Seq<char>) -> nat {
    if digits_value(s) > 0x1_0000_0000 {
        0x1_0000_0000
    } else {
        digits_value(s)
    }
}

/// Parses `chars[start..]` as a `u32` the way `str::parse` does.
fn parse_u32_from(chars: &Vec<char>, start: usize) -> (r: Option<u32>)
    requires
        start <= chars@.len(),
    ensures
        r matches Some(n) ==> parsed_u32(chars@.skip(start as int)) == Some(n as nat),
        r is None ==> parsed_u32(chars@.skip(start as int)) is None,
{
    let ghost s = chars@.skip(start as int);
    let mut i = start;
    if i < chars.len() && chars[i] == '+' {
        i = i + 1;
    }
    let ghost digits = chars@.skip(i as int);
    assert(digits == (if s.len() > 0 && s[0] == '+' {
        s.drop_first()
    } else {
        s
    }));
    if i >= chars.len() {
        return None;
    }
    let begin = i;
    let mut acc: u64 = 0;
    assert(chars@.subrange(begin as int, begin as int) =~= seq![]);
    while i < chars.len()
        invariant
            begin <= i <= chars@.len(),
            digits == chars@.skip(begin as int),
            s == chars@.skip(start as int),
            digits == (if s.len() > 0 && s[0] == '+' {
                s.drop_first()
            } else {
                s
            }),
            all_digits(chars@.subrange(begin as int, i as int)),
            acc == capped_value(chars@.subrange(begin as int, i as int)),
        decreases chars@.len() - i,
    {
        let c = chars[i];
        if !('0' <= c && c <= '9') {
            assert(digits[i - begin] == c);
            assert(!all_digits(digits));
            return None;
        }
        let d = (c as u32 - 48) as u64;
        let ghost prev = chars@.subrange(begin as int, i as int);
        let ghost next = chars@.subrange(begin as int, i + 1);
        assert(next.drop_last() =~= prev);
        assert(next.last() == c);
        if acc >= 0x1_0000_0000 {
            assert(digits_value(next) >= digits_value(prev));
            acc = 0x1_0000_0000;
        } else {
            acc = acc * 10 + d;
            if acc > 0x1_0000_0000 {
                acc = 0x1_0000_0000;
            }
        }
        i = i + 1;
    }
    assert(chars@.subrange(begin as int, i as int) =~= digits);
    if acc > 0xFFFF_FFFF {
        None
    } else {
        Some(acc as u32)
    }
}

fn named_key_of(name: &Vec<char>) -> (r: Option<(u32, &'static str)>)
    ensures
        r matches Some((vk, n)) ==> named_key(name@) == Some((vk, n@)),
        r is None ==> named_key(name@) is None,
{
    if chars_eq_str(name, "ESC") || chars_eq_str(name, "ESCAPE") {
        Some((0x1B, "Esc"))
    } else if chars_eq_str(name, "ENTER") || chars_eq_str(name, "RETURN") {
        Some((0x0D, "Enter"))
    } else if chars_eq_str(name, "SPACE") {
        Some((0x20, "Space"))
    } else if chars_eq_str(name, "TAB") {
        Some((0x09, "Tab"))
    } else if chars_eq_str(name, "BACKSPACE") || chars_eq_str(name, "BKSP") {
        Some((0x08, "Backspace"))
    } else if chars_eq_str(name, "DELETE") || chars_eq_str(name, "DEL") {
        Some((0x2E, "Delete"))
    } else if chars_eq_str(name, "INSERT") || chars_eq_str(name, "INS") {
        Some((0x2D, "Insert"))
    } else if chars_eq_str(name, "HOME") {
        Some((0x24, "Home"))
    } else if chars_eq_str(name, "END") {
        Some((0x23, "End"))
    } else if chars_eq_str(name, "PAGEUP") || chars_eq_str(name, "PGUP") {
        Some((0x21, "PageUp"))
    } else if chars_eq_str(name, "PAGEDOWN") || chars_eq_str(name, "PGDN") {
        Some((0x22, "PageDown"))
    } else if chars_eq_str(name, "LEFT") {
        Some((0x25, "Left"))
    } else if chars_eq_str(name, "UP") {
        Some((0x26, "Up"))
    } else if chars_eq_str(name, "RIGHT") {
        Some((0x27, "Right"))
    } else if chars_eq_str(name, "DOWN") {
        Some((0x28, "Down"))
    } else if chars_eq_str(name, "PRINTSCREEN") || chars_eq_str(name, "PRTSC") || chars_eq_str(
        name,
        "PRTSCR",
    ) || chars_eq_str(name, "SNAPSHOT") {
        Some((0x2C, "PrintScreen"))
    } else if chars_eq_str(name, "PAUSE") {
        Some((0x13, "Pause"))
    } else {
        None
    }
}

fn key_of_chars(token: &Vec<char>) -> (r: Result<(u32, String), HotkeyError>)
    ensures
        key_result_view(r) == key_of(token@),
{
    if token.len() == 1 && is_ascii_alnum_char(token[0]) {
        return Ok((token[0] as u32, string_from_chars(token.as_slice())));
    }
    if token.len() > 0 && token[0] == 'F' {
        let parsed = parse_u32_from(token, 1);
        assert(token@.skip(1) =~= token@.drop_first());
        if let Some(n) = parsed {
            if 1 <= n && n <= 24 {
                let mut name: Vec<char> = Vec::new();
                name.push('F');
                push_decimal(&mut name, n as u128);
                return Ok((111 + n, string_from_chars(name.as_slice())));
            }
        }
    }
    match named_key_of(token) {
        Some((vk, name)) => Ok((vk, String::from_str(name))),
        None => Err(HotkeyError::UnsupportedKey(string_from_chars(token.as_slice()))),
    }
}

/// Resolves one (upper-case) key name to its virtual-key code and display name.
pub fn parse_key(token: &str) -> (r: Result<(u32, String), HotkeyError>)
    ensures
        key_result_view(r) == key_of(token@),
{
    let chars = chars_of(token);
    key_of_chars(&chars)
}

/// Parses a hotkey description: key names separated by `+` or whitespace,
/// case-insensitive, any number of modifiers and exactly one main key.
pub fn parse_hotkey(input: &str) -> (r: Result<Hotkey, HotkeyError>)
    ensures
        hotkey_result_view(r) == hotkey_of(input@),
{
    let chars = chars_of(input);
    let tokens = split_keys(&chars);
    let ghost toks = seqs_of(tokens@);
    let mut modifiers: u32 = 0;
    let mut key: Option<(u32, String)> = None;
    let mut i: usize = 0;
    assert(toks.skip(0) =~= toks);
    while i < tokens.len()
        invariant
            i <= tokens@.len(),
            toks == seqs_of(tokens@),
            toks == key_tokens(input@),
            read_keys((0, None), toks) == read_keys(
                (modifiers, key_view(key)),
                toks.skip(i as int),
            ),
        decreases tokens@.len() - i,
    {
        let ghost rest = toks.skip(i as int);
        assert(rest[0] == tokens@[i as int]@);
        assert(rest.drop_first() =~= toks.skip(i + 1));
        let upper = upper_chars(&tokens[i]);
        match modifier_bit_of(&upper) {
            Some(bit) => {
                modifiers = modifiers | bit;
            },
            None => {
                if key.is_some() {
                    return Err(HotkeyError::MultipleMainKeys);
                }
                match key_of_chars(&upper) {
                    Ok(k) => {
                        key = Some(k);
                    },
                    Err(e) => {
                        return Err(e);
                    },
                }
            },
        }
        i = i + 1;
    }
    let (vk, key_name) = match key {
        Some(k) => k,
        None => {
            return Err(HotkeyError::MissingKey);
        },
    };
    let mut display: Vec<char> = Vec::new();
    if modifiers & MOD_CONTROL != 0 {
        push_str(&mut display, "Ctrl");
        display.push('+');
    }
    let ghost d1 = display@;
    if modifiers & MOD_ALT != 0 {
        push_str(&mut display, "Alt");
        display.push('+');
    }
    let ghost d2 = display@;
    if modifiers & MOD_SHIFT != 0 {
        push_str(&mut display, "Shift");
        display.push('+');
    }
    let ghost d3 = display@;
    if modifiers & MOD_WIN != 0 {
        push_str(&mut display, "Win");
        display.push('+');
    }
    let name_chars = chars_of(key_name.as_str());
    let mut j: usize = 0;
    let ghost d4 = display@;
    while j < name_chars.len()
        invariant
            j <= name_chars@.len(),
            display@ == d4 + name_chars@.take(j as int),
        decreases name_chars@.len() - j,
    {
        display.push(name_chars[j]);
        assert(name_chars@.take(j + 1) =~= name_chars@.take(j as int).push(name_chars@[j as int]));
        j = j + 1;
    }
    assert(name_chars@.take(j as int) =~= name_chars@);
    assert(display@ =~= display_of(modifiers, key_name@));
    Ok(Hotkey { modifiers, vk, display: string_from_chars(display.as_slice()) })
}

} // verus!
