//! The user's settings and their `key=value` text form.
use vstd::prelude::*;
use crate::hotkey::{hotkey_of, parse_hotkey, HotkeyError, HotkeyErrorModel};
use crate::text::{
    is_space, lemma_first_index_of, lemma_trimmed_idempotent, trim_end, trim_start, chars_eq_str, chars_of, find_char, first_index_of, push_str, string_from_chars, sub_chars,
    trim_chars, trimmed,
};

verus! {

/// The settings of the application.
#[derive(Debug, Clone)]
pub struct Settings {
    pub save_to_file: bool,
    pub save_to_clipboard: bool,
    pub save_dir: String,
    pub hotkey: String,
    pub start_with_windows: bool,
}

/// The mathematical content of `Settings`.
pub struct SettingsModel {
    pub save_to_file: bool,
    pub save_to_clipboard: bool,
    pub save_dir: Seq<char>,
    pub hotkey: Seq<char>,
    pub start_with_windows: bool,
}

impl View for Settings {
    type V = SettingsModel;

    open spec fn view(&self) -> SettingsModel {
        SettingsModel {
            save_to_file: self.save_to_file,
            save_to_clipboard: self.save_to_clipboard,
            save_dir: self.save_dir@,
            hotkey: self.hotkey@,
            start_with_windows: self.start_with_windows,
        }
    }
}

/// The hotkey used when none is configured.
pub open spec fn default_hotkey() -> Seq<char> {
    "Ctrl+Alt+B"@
}

/// The settings before any configuration is read, saving into `save_dir`.
pub open spec fn default_settings(save_dir: Seq<char>) -> SettingsModel {
    SettingsModel {
        save_to_file: true,
        save_to_clipboard: false,
        save_dir,
        hotkey: default_hotkey(),
        start_with_windows: false,
    }
}

/// The settings after one configuration line: `key=value`, split at the first
/// `=`, both sides trimmed; unknown keys and lines without `=` change nothing,
/// and a flag is on exactly when its value is `true`.
pub open spec fn apply_line(s: SettingsModel, line: Seq<char>) -> SettingsModel {
    match first_index_of(line, '=') {
        None => s,
        Some(k) => {
            let key = trimmed(line.take(k as int));
            let value = trimmed(line.skip(k + 1 as int));
            if key == "save_to_file"@ {
                SettingsModel { save_to_file: value == "true"@, ..s }
            } else if key == "save_to_clipboard"@ {
                SettingsModel { save_to_clipboard: value == "true"@, ..s }
            } else if key == "save_dir"@ {
                SettingsModel { save_dir: value, ..s }
            } else if key == "hotkey"@ {
                SettingsModel { hotkey: value, ..s }
            } else if key == "start_with_windows"@ {
                SettingsModel { start_with_windows: value == "true"@, ..s }
            } else {
                s
            }
        },
    }
}

/// Reading a configuration text: the settings after its complete lines and the
/// line being read (lines end at `\n`).
pub open spec fn config_scan(base: SettingsModel, text: Seq<char>) -> (SettingsModel, Seq<char>)
    decreases text.len(),
{
    if text.len() == 0 {
        (base, seq![])
    } else {
        let (s, line) = config_scan(base, text.drop_last());
        if text.last() == '\n' {
            (apply_line(s, line), seq![])
        } else {
            (s, line.push(text.last()))
        }
    }
}

/// The settings after every line of `text`, applied in order to `base`.
pub open spec fn apply_config(base: SettingsModel, text: Seq<char>) -> SettingsModel {
    let (s, line) = config_scan(base, text);
    apply_line(s, line)
}

/// A blank save directory or hotkey falls back to its default.
pub open spec fn with_fallbacks(s: SettingsModel, default_save_dir: Seq<char>) -> SettingsModel {
    SettingsModel {
        save_dir: if trimmed(s.save_dir).len() == 0 {
            default_save_dir
        } else {
            s.save_dir
        },
        hotkey: if trimmed(s.hotkey).len() == 0 {
            default_hotkey()
        } else {
            s.hotkey
        },
        ..s
    }
}

/// The settings that `Settings::load` gives for the configuration text (none
/// where the file could not be read).
pub open spec fn loaded_settings(content: Option<Seq<char>>, default_save_dir: Seq<char>) -> SettingsModel {
    match content {
        None => default_settings(default_save_dir),
        Some(text) => with_fallbacks(
            apply_config(default_settings(default_save_dir), text),
            default_save_dir,
        ),
    }
}

pub open spec fn bool_text(b: bool) -> Seq<char> {
    if b {
        "true"@
    } else {
        "false"@
    }
}

/// One `key=value` line.
pub open spec fn config_line(key: Seq<char>, value: Seq<char>) -> Seq<char> {
    key + seq!['='] + value + seq!['\n']
}

/// The configuration text that `Settings::save` writes.
pub open spec fn config_text(s: SettingsModel) -> Seq<char> {
    config_line("save_to_file"@, bool_text(s.save_to_file)) + config_line(
        "save_to_clipboard"@,
        bool_text(s.save_to_clipboard),
    ) + config_line("save_dir"@, s.save_dir) + config_line("hotkey"@, s.hotkey) + config_line(
        "start_with_windows"@,
        bool_text(s.start_with_windows),
    )
}

proof fn lemma_scan_step(base: SettingsModel, text: Seq<char>, i: int)
    requires
        0 <= i < text.len(),
    ensures
        config_scan(base, text.take(i + 1)) == ({
            let (s, line) = config_scan(base, text.take(i));
            if text[i] == '\n' {
                (apply_line(s, line), seq![])
            } else {
                (s, line.push(text[i]))
            }
        }),
{
    assert(text.take(i + 1).drop_last() =~= text.take(i));
}

proof fn lemma_scan_append(base: SettingsModel, p: Seq<char>, q: Seq<char>)
    requires
        !q.contains('\n'),
    ensures
        config_scan(base, p + q) == (config_scan(base, p).0, config_scan(base, p).1 + q),
    decreases q.len(),
{
    if q.len() == 0 {
        assert(p + q =~= p);
        assert(config_scan(base, p).1 + q =~= config_scan(base, p).1);
    } else {
        let q0 = q.drop_last();
        assert(!q0.contains('\n')) by {
            if q0.contains('\n') {
                let j = choose|j: int| 0 <= j < q0.len() && q0[j] == '\n';
                assert(q[j] == '\n');
            }
        }
        lemma_scan_append(base, p, q0);
        assert((p + q).drop_last() =~= p + q0);
        assert((p + q).last() == q.last());
        assert(q.last() != '\n') by {
            assert(q[q.len() - 1] == q.last());
        }
        assert(config_scan(base, p).1 + q0 + seq![q.last()] =~= config_scan(base, p).1 + q);
    }
}

proof fn lemma_scan_line(base: SettingsModel, p: Seq<char>, q: Seq<char>)
    requires
        !q.contains('\n'),
    ensures
        config_scan(base, p + q + seq!['\n']) == (
            apply_line(config_scan(base, p).0, config_scan(base, p).1 + q),
            Seq::<char>::empty(),
        ),
{
    lemma_scan_append(base, p, q);
    assert((p + q + seq!['\n']).drop_last() =~= p + q);
}

/// A value that a configuration line keeps as it is.
pub open spec fn storable(v: Seq<char>) -> bool {
    &&& !v.contains('\n')
    &&& trimmed(v) == v
}

proof fn lemma_apply_keyed_line(s: SettingsModel, key: Seq<char>, value: Seq<char>)
    requires
        !key.contains('='),
        key.len() > 0,
        !is_space(key[0]),
        !is_space(key.last()),
    ensures
        apply_line(s, key + seq!['='] + value) == ({
            let v = trimmed(value);
            if key == "save_to_file"@ {
                SettingsModel { save_to_file: v == "true"@, ..s }
            } else if key == "save_to_clipboard"@ {
                SettingsModel { save_to_clipboard: v == "true"@, ..s }
            } else if key == "save_dir"@ {
                SettingsModel { save_dir: v, ..s }
            } else if key == "hotkey"@ {
                SettingsModel { hotkey: v, ..s }
            } else if key == "start_with_windows"@ {
                SettingsModel { start_with_windows: v == "true"@, ..s }
            } else {
                s
            }
        }),
{
    let line = key + seq!['='] + value;
    assert forall|j: int| 0 <= j < key.len() implies line[j] != '=' by {
        assert(line[j] == key[j]);
        if key[j] == '=' {
            assert(key.contains('='));
        }
    }
    lemma_first_index_of(line, '=', key.len() as int);
    assert(line.take(key.len() as int) =~= key);
    assert(line.skip(key.len() + 1 as int) =~= value);
    assert(trim_start(key) == key);
    assert(trim_end(key) == key);
}

/// Saving then loading gives back the settings, as long as the directory and
/// the hotkey are single-line, not blank and without surrounding whitespace.
pub proof fn lemma_save_then_load(s: SettingsModel, default_save_dir: Seq<char>)
    requires
        storable(s.save_dir),
        storable(s.hotkey),
        s.save_dir.len() > 0,
        s.hotkey.len() > 0,
    ensures
        loaded_settings(Some(config_text(s)), default_save_dir) == s,
{
    reveal_strlit("save_to_file");
    reveal_strlit("save_to_clipboard");
    reveal_strlit("save_dir");
    reveal_strlit("hotkey");
    reveal_strlit("start_with_windows");
    reveal_strlit("true");
    reveal_strlit("false");
    let base = default_settings(default_save_dir);
    let k1 = "save_to_file"@;
    let k2 = "save_to_clipboard"@;
    let k3 = "save_dir"@;
    let k4 = "hotkey"@;
    let k5 = "start_with_windows"@;
    let v1 = bool_text(s.save_to_file);
    let v2 = bool_text(s.save_to_clipboard);
    let v5 = bool_text(s.start_with_windows);
    let q1 = k1 + seq!['='] + v1;
    let q2 = k2 + seq!['='] + v2;
    let q3 = k3 + seq!['='] + s.save_dir;
    let q4 = k4 + seq!['='] + s.hotkey;
    let q5 = k5 + seq!['='] + v5;
    assert forall|q: Seq<char>, a: Seq<char>, b: Seq<char>|
        q == a + seq!['='] + b && !a.contains('\n') && !b.contains('\n') implies !q.contains(
        '\n',
    ) by {
        if q.contains('\n') {
            let j = choose|j: int| 0 <= j < q.len() && q[j] == '\n';
            if j < a.len() {
                assert(a[j] == '\n');
            } else if j > a.len() {
                assert(b[j - a.len() - 1] == '\n');
            }
        }
    }
    assert(!k1.contains('\n') && !k2.contains('\n') && !k3.contains('\n') && !k4.contains('\n')
        && !k5.contains('\n'));
    assert(!v1.contains('\n') && !v2.contains('\n') && !v5.contains('\n'));
    assert(!k1.contains('=') && !k2.contains('=') && !k3.contains('=') && !k4.contains('=')
        && !k5.contains('='));
    assert(trimmed(v1) == v1 && trimmed(v2) == v2 && trimmed(v5) == v5);
    let empty = Seq::<char>::empty();
    let t1 = q1 + seq!['\n'];
    let t2 = t1 + q2 + seq!['\n'];
    let t3 = t2 + q3 + seq!['\n'];
    let t4 = t3 + q4 + seq!['\n'];
    let t5 = t4 + q5 + seq!['\n'];
    assert(config_text(s) =~= t5);
    assert(config_scan(base, empty) == (base, empty));
    lemma_scan_line(base, empty, q1);
    assert(empty + q1 + seq!['\n'] =~= t1);
    assert(empty + q1 =~= q1);
    lemma_apply_keyed_line(base, k1, v1);
    let s1 = SettingsModel { save_to_file: s.save_to_file, ..base };
    assert(config_scan(base, t1) == (s1, empty));
    lemma_scan_line(base, t1, q2);
    assert(empty + q2 =~= q2);
    lemma_apply_keyed_line(s1, k2, v2);
    let s2 = SettingsModel { save_to_clipboard: s.save_to_clipboard, ..s1 };
    assert(config_scan(base, t2) == (s2, empty));
    lemma_scan_line(base, t2, q3);
    assert(empty + q3 =~= q3);
    lemma_apply_keyed_line(s2, k3, s.save_dir);
    let s3 = SettingsModel { save_dir: s.save_dir, ..s2 };
    assert(config_scan(base, t3) == (s3, empty));
    lemma_scan_line(base, t3, q4);
    assert(empty + q4 =~= q4);
    lemma_apply_keyed_line(s3, k4, s.hotkey);
    let s4 = SettingsModel { hotkey: s.hotkey, ..s3 };
    assert(config_scan(base, t4) == (s4, empty));
    lemma_scan_line(base, t4, q5);
    assert(empty + q5 =~= q5);
    lemma_apply_keyed_line(s4, k5, v5);
    let s5 = SettingsModel { start_with_windows: s.start_with_windows, ..s4 };
    assert(config_scan(base, t5) == (s5, empty));
    assert(first_index_of(empty, '=') is None);
    assert(apply_config(base, t5) == s5);
    assert(s5 == s);
}

proof fn lemma_line_without_newline(key: Seq<char>, value: Seq<char>)
    requires
        !key.contains('\n'),
        !value.contains('\n'),
    ensures
        !(key + seq!['='] + value).contains('\n'),
{
    let q = key + seq!['='] + value;
    if q.contains('\n') {
        let j = choose|j: int| 0 <= j < q.len() && q[j] == '\n';
        if j < key.len() {
            assert(key[j] == '\n');
        } else if j > key.len() {
            assert(value[j - key.len() - 1] == '\n');
        }
    }
}

proof fn lemma_scan_after_lines(base: SettingsModel, p: Seq<char>)
    requires
        p.len() == 0 || p.last() == '\n',
    ensures
        config_scan(base, p).1 == Seq::<char>::empty(),
        apply_config(base, p) == config_scan(base, p).0,
{
    assert(first_index_of(Seq::<char>::empty(), '=') is None);
}

/// A `hotkey=` or `save_dir=` line at the end of the configuration decides
/// that setting, whatever earlier lines said (so the last line for a key
/// wins): the setting becomes the line's value, trimmed, or its default where
/// that value is blank.
pub proof fn lemma_load_last_line(p: Seq<char>, key: Seq<char>, value: Seq<char>, d: Seq<char>)
    requires
        p.len() == 0 || p.last() == '\n',
        !value.contains('\n'),
        key == "hotkey"@ || key == "save_dir"@,
    ensures
        ({
            let r = loaded_settings(Some(p + key + seq!['='] + value + seq!['\n']), d);
            let v = trimmed(value);
            &&& key == "hotkey"@ ==> r.hotkey == (if v.len() == 0 {
                default_hotkey()
            } else {
                v
            })
            &&& key == "save_dir"@ ==> r.save_dir == (if v.len() == 0 {
                d
            } else {
                v
            })
        }),
{
    reveal_strlit("hotkey");
    reveal_strlit("save_dir");
    reveal_strlit("save_to_file");
    reveal_strlit("save_to_clipboard");
    reveal_strlit("start_with_windows");
    let base = default_settings(d);
    let q = key + seq!['='] + value;
    assert(!key.contains('\n') && !key.contains('='));
    lemma_line_without_newline(key, value);
    lemma_scan_after_lines(base, p);
    lemma_scan_line(base, p, q);
    assert(config_scan(base, p).1 + q =~= q);
    assert(p + key + seq!['='] + value + seq!['\n'] =~= p + q + seq!['\n']);
    lemma_apply_keyed_line(config_scan(base, p).0, key, value);
    assert(first_index_of(Seq::<char>::empty(), '=') is None);
    lemma_trimmed_idempotent(value);
}

/// Whether `key` names one of the settings.
pub open spec fn is_setting_key(key: Seq<char>) -> bool {
    key == "save_to_file"@ || key == "save_to_clipboard"@ || key == "save_dir"@ || key
        == "hotkey"@ || key == "start_with_windows"@
}

/// A line without `=`, or with an unknown key, changes nothing when it is
/// added at the end of the configuration.
pub proof fn lemma_load_ignores_line(p: Seq<char>, line: Seq<char>, d: Seq<char>)
    requires
        p.len() == 0 || p.last() == '\n',
        !line.contains('\n'),
        match first_index_of(line, '=') {
            None => true,
            Some(k) => !is_setting_key(trimmed(line.take(k as int))),
        },
    ensures
        loaded_settings(Some(p + line + seq!['\n']), d) == loaded_settings(Some(p), d),
{
    let base = default_settings(d);
    lemma_scan_after_lines(base, p);
    lemma_scan_line(base, p, line);
    assert(config_scan(base, p).1 + line =~= line);
    assert(first_index_of(Seq::<char>::empty(), '=') is None);
}

/// Loading never leaves the save directory or the hotkey blank.
pub proof fn lemma_load_not_blank(content: Option<Seq<char>>, default_save_dir: Seq<char>)
    requires
        trimmed(default_save_dir).len() > 0,
    ensures
        trimmed(loaded_settings(content, default_save_dir).save_dir).len() > 0,
        trimmed(loaded_settings(content, default_save_dir).hotkey).len() > 0,
{
    reveal_strlit("Ctrl+Alt+B");
    assert(trim_start(default_hotkey()) == default_hotkey());
    assert(trim_end(default_hotkey()) == default_hotkey());
}

impl Settings {
    /// The settings before any configuration is read, saving into `save_dir`.
    pub fn defaults(save_dir: String) -> (r: Settings)
        ensures
            r@ == default_settings(save_dir@),
    {
        Settings {
            save_to_file: true,
            save_to_clipboard: false,
            save_dir,
            hotkey: String::from_str("Ctrl+Alt+B"),
            start_with_windows: false,
        }
    }

    /// Whether at least one way of saving a screenshot is chosen.
    pub fn has_output(&self) -> (b: bool)
        ensures
            b == (self.save_to_file || self.save_to_clipboard),
    {
        self.save_to_file || self.save_to_clipboard
    }

    fn apply_line_chars(&mut self, line: &Vec<char>)
        ensures
            final(self)@ == apply_line(old(self)@, line@),
    {
        let k = match find_char(line.as_slice(), '=') {
            Some(k) => k,
            None => {
                return;
            },
        };
        let n = line.len();
        assert(k < n);
        let key_raw = sub_chars(line.as_slice(), 0, k);
        let value_raw = sub_chars(line.as_slice(), k + 1, n);
        assert(key_raw@ =~= line@.take(k as int));
        assert(value_raw@ =~= line@.skip(k + 1));
        let key = trim_chars(key_raw.as_slice());
        let value = trim_chars(value_raw.as_slice());
        if chars_eq_str(key.as_slice(), "save_to_file") {
            self.save_to_file = chars_eq_str(value.as_slice(), "true");
        } else if chars_eq_str(key.as_slice(), "save_to_clipboard") {
            self.save_to_clipboard = chars_eq_str(value.as_slice(), "true");
        } else if chars_eq_str(key.as_slice(), "save_dir") {
            self.save_dir = string_from_chars(value.as_slice());
        } else if chars_eq_str(key.as_slice(), "hotkey") {
            self.hotkey = string_from_chars(value.as_slice());
        } else if chars_eq_str(key.as_slice(), "start_with_windows") {
            self.start_with_windows = chars_eq_str(value.as_slice(), "true");
        }
    }

    /// The settings read from a configuration text (`None` where the file could
    /// not be read), on top of the defaults; a blank save directory or hotkey
    /// falls back to `default_save_dir` or `Ctrl+Alt+B`.
    pub fn load(content: Option<&str>, default_save_dir: &str) -> (r: Settings)
        ensures
            r@ == loaded_settings(
                match content {
                    Some(t) => Some(t@),
                    None => None,
                },
                default_save_dir@,
            ),
    {
        let mut settings = Settings::defaults(String::from_str(default_save_dir));
        let text = match content {
            Some(t) => t,
            None => {
                return settings;
            },
        };
        let chars = chars_of(text);
        let ghost base = settings@;
        let mut line: Vec<char> = Vec::new();
        let mut i: usize = 0;
        while i < chars.len()
            invariant
                i <= chars@.len(),
                chars@ == text@,
                config_scan(base, chars@.take(i as int)) == (settings@, line@),
            decreases chars@.len() - i,
        {
            proof {
                lemma_scan_step(base, chars@, i as int);
            }
            if chars[i] == '\n' {
                settings.apply_line_chars(&line);
                line = Vec::new();
                assert(line@ =~= seq![]);
            } else {
                line.push(chars[i]);
            }
            i = i + 1;
        }
        assert(chars@.take(i as int) =~= chars@);
        settings.apply_line_chars(&line);
        let dir_chars = chars_of(settings.save_dir.as_str());
        if trim_chars(dir_chars.as_slice()).len() == 0 {
            settings.save_dir = String::from_str(default_save_dir);
        }
        let hotkey_chars = chars_of(settings.hotkey.as_str());
        if trim_chars(hotkey_chars.as_slice()).len() == 0 {
            settings.hotkey = String::from_str("Ctrl+Alt+B");
        }
        settings
    }

    /// The configuration text that saving writes: one `key=value` line per field.
    pub fn to_config_text(&self) -> (r: String)
        ensures
            r@ == config_text(self@),
    {
        let mut out: Vec<char> = Vec::new();
        push_str(&mut out, "save_to_file");
        out.push('=');
        push_str(&mut out, if self.save_to_file { "true" } else { "false" });
        out.push('\n');
        push_str(&mut out, "save_to_clipboard");
        out.push('=');
        push_str(&mut out, if self.save_to_clipboard { "true" } else { "false" });
        out.push('\n');
        push_str(&mut out, "save_dir");
        out.push('=');
        push_str(&mut out, self.save_dir.as_str());
        out.push('\n');
        push_str(&mut out, "hotkey");
        out.push('=');
        push_str(&mut out, self.hotkey.as_str());
        out.push('\n');
        push_str(&mut out, "start_with_windows");
        out.push('=');
        push_str(&mut out, if self.start_with_windows { "true" } else { "false" });
        out.push('\n');
        assert(out@ =~= config_text(self@));
        string_from_chars(out.as_slice())
    }

    /// The settings entered in the settings form: both texts are trimmed, the
    /// hotkey must parse, and a blank save directory becomes `default_save_dir`.
    pub fn from_form(
        save_to_file: bool,
        save_to_clipboard: bool,
        save_dir_text: &str,
        hotkey_text: &str,
        start_with_windows: bool,
        default_save_dir: &str,
    ) -> (r: Result<Settings, HotkeyError>)
        ensures
            match hotkey_of(trimmed(hotkey_text@)) {
                Err(e) => r matches Err(err) && err@ == e,
                Ok(_) => r matches Ok(s) && s@ == SettingsModel {
                    save_to_file,
                    save_to_clipboard,
                    save_dir: if trimmed(save_dir_text@).len() == 0 {
                        default_save_dir@
                    } else {
                        trimmed(save_dir_text@)
                    },
                    hotkey: trimmed(hotkey_text@),
                    start_with_windows,
                },
            },
    {
        let dir = trim_chars(chars_of(save_dir_text).as_slice());
        let hotkey = string_from_chars(trim_chars(chars_of(hotkey_text).as_slice()).as_slice());
        match parse_hotkey(hotkey.as_str()) {
            Err(e) => {
                return Err(e);
            },
            Ok(_) => {},
        }
        let save_dir = if dir.len() == 0 {
            String::from_str(default_save_dir)
        } else {
            string_from_chars(dir.as_slice())
        };
        Ok(Settings { save_to_file, save_to_clipboard, save_dir, hotkey, start_with_windows })
    }
}

} // verus!
