//! Character-level text helpers: whitespace, trimming, ASCII case, decimal
//! numbers and UTF-16.
use vstd::prelude::*;

verus! {

/// `char::is_whitespace`: the Unicode `White_Space` property.
pub open spec fn is_space(c: char) -> bool {
    let v = c as u32;
    ||| 0x09 <= v <= 0x0D
    ||| v == 0x20
    ||| v == 0x85
    ||| v == 0xA0
    ||| v == 0x1680
    ||| 0x2000 <= v <= 0x200A
    ||| v == 0x2028
    ||| v == 0x2029
    ||| v == 0x202F
    ||| v == 0x205F
    ||| v == 0x3000
}

/// Whether `c` is Unicode whitespace.
pub fn is_space_char(c: char) -> (b: bool)
    ensures
        b == is_space(c),
{
    let v = c as u32;
    (0x09 <= v && v <= 0x0D) || v == 0x20 || v == 0x85 || v == 0xA0 || v == 0x1680 || (0x2000 <= v
        && v <= 0x200A) || v == 0x2028 || v == 0x2029 || v == 0x202F || v == 0x205F || v == 0x3000
}

/// `char::to_ascii_uppercase`.
pub open spec fn ascii_upper(c: char) -> char {
    if 'a' <= c <= 'z' {
        ((c as u32 - 32) as u8) as char
    } else {
        c
    }
}

pub open spec fn ascii_upper_seq(s: Seq<char>) -> Seq<char> {
    s.map_values(|c: char| ascii_upper(c))
}

/// The ASCII upper case of `c`.
pub fn to_ascii_upper(c: char) -> (r: char)
    ensures
        r == ascii_upper(c),
{
    if 'a' <= c && c <= 'z' {
        ((c as u32 - 32) as u8) as char
    } else {
        c
    }
}

/// `s` without its leading whitespace.
pub open spec fn trim_start(s: Seq<char>) -> Seq<char>
    decreases s.len(),
{
    if s.len() > 0 && is_space(s[0]) {
        trim_start(s.drop_first())
    } else {
        s
    }
}

/// `s` without its trailing whitespace.
pub open spec fn trim_end(s: Seq<char>) -> Seq<char>
    decreases s.len(),
{
    if s.len() > 0 && is_space(s.last()) {
        trim_end(s.drop_last())
    } else {
        s
    }
}

/// `str::trim`: `s` without leading and trailing whitespace.
pub open spec fn trimmed(s: Seq<char>) -> Seq<char> {
    trim_end(trim_start(s))
}

/// The characters of `s`.
pub fn chars_of(s: &str) -> (v: Vec<char>)
    ensures
        v@ == s@,
{
    let mut v: Vec<char> = Vec::new();
    for c in it: s.chars()
        invariant
            v@ == it.seq().take(it.index() as int),
    {
        v.push(c);
    }
    v
}

/// Appends a character to a string (`String::push`).
#[verifier::external_body]
fn push_char(s: &mut String, c: char)
    ensures
        final(s)@ == old(s)@.push(c),
{
    s.push(c);
}

/// The string made of the characters `v`.
pub fn string_from_chars(v: &[char]) -> (s: String)
    ensures
        s@ == v@,
{
    let mut s = String::new();
    let mut i: usize = 0;
    while i < v.len()
        invariant
            i <= v@.len(),
            s@ == v@.take(i as int),
        decreases v@.len() - i,
    {
        push_char(&mut s, v[i]);
        assert(v@.take(i + 1) =~= v@.take(i as int).push(v@[i as int]));
        i = i + 1;
    }
    assert(v@.take(i as int) =~= v@);
    s
}

/// Appends the characters of `s` to `out`.
pub fn push_str(out: &mut Vec<char>, s: &str)
    ensures
        final(out)@ == old(out)@ + s@,
{
    let cs = chars_of(s);
    let mut i: usize = 0;
    while i < cs.len()
        invariant
            i <= cs@.len(),
            cs@ == s@,
            out@ == old(out)@ + cs@.take(i as int),
        decreases cs@.len() - i,
    {
        out.push(cs[i]);
        assert(cs@.take(i + 1) =~= cs@.take(i as int).push(cs@[i as int]));
        i = i + 1;
    }
    assert(cs@.take(i as int) =~= cs@);
}

/// Whether the characters `v` spell `w`.
pub fn chars_eq_str(v: &[char], w: &str) -> (b: bool)
    ensures
        b == (v@ == w@),
{
    let wc = chars_of(w);
    if v.len() != wc.len() {
        return false;
    }
    let mut i: usize = 0;
    while i < v.len()
        invariant
            i <= v@.len(),
            v@.len() == wc@.len(),
            wc@ == w@,
            forall|k: int| 0 <= k < i ==> v@[k] == wc@[k],
        decreases v@.len() - i,
    {
        if v[i] != wc[i] {
            return false;
        }
        i = i + 1;
    }
    assert(v@ =~= wc@);
    true
}

proof fn lemma_trim_start_skip(s: Seq<char>, i: int)
    requires
        0 <= i < s.len(),
        is_space(s[i]),
    ensures
        trim_start(s.skip(i)) == trim_start(s.skip(i + 1)),
{
    assert(s.skip(i).drop_first() =~= s.skip(i + 1));
}

proof fn lemma_trim_end_take(s: Seq<char>, j: int)
    requires
        0 < j <= s.len(),
        is_space(s[j - 1]),
    ensures
        trim_end(s.take(j)) == trim_end(s.take(j - 1)),
{
    assert(s.take(j).drop_last() =~= s.take(j - 1));
}

proof fn lemma_trim_start_shape(s: Seq<char>)
    ensures
        trim_start(s).len() <= s.len(),
        trim_start(s) == s.skip(s.len() - trim_start(s).len()),
        trim_start(s).len() > 0 ==> !is_space(trim_start(s)[0]),
    decreases s.len(),
{
    if s.len() > 0 && is_space(s[0]) {
        lemma_trim_start_shape(s.drop_first());
        assert(s.drop_first().skip(s.drop_first().len() - trim_start(s).len()) =~= s.skip(
            s.len() - trim_start(s).len(),
        ));
    } else {
        assert(s.skip(0) =~= s);
    }
}

proof fn lemma_trim_end_shape(s: Seq<char>)
    ensures
        trim_end(s).len() <= s.len(),
        trim_end(s) == s.take(trim_end(s).len() as int),
        trim_end(s).len() > 0 ==> !is_space(trim_end(s).last()),
    decreases s.len(),
{
    if s.len() > 0 && is_space(s.last()) {
        lemma_trim_end_shape(s.drop_last());
        assert(s.drop_last().take(trim_end(s).len() as int) =~= s.take(
            trim_end(s).len() as int,
        ));
    } else {
        assert(s.take(s.len() as int) =~= s);
    }
}

/// Trimming twice is trimming once: a trimmed text that is not empty starts and
/// ends with a character that is not whitespace.
pub proof fn lemma_trimmed_idempotent(s: Seq<char>)
    ensures
        trimmed(trimmed(s)) == trimmed(s),
        trimmed(s).len() > 0 ==> !is_space(trimmed(s)[0]) && !is_space(trimmed(s).last()),
{
    let x = trim_start(s);
    let y = trim_end(x);
    lemma_trim_start_shape(s);
    lemma_trim_end_shape(x);
    if y.len() > 0 {
        assert(y[0] == x[0]);
        assert(trim_start(y) == y);
        assert(trim_end(y) == y);
    } else {
        assert(trim_start(y) == y);
    }
}

/// The characters of `v` without leading and trailing whitespace.
pub fn trim_chars(v: &[char]) -> (r: Vec<char>)
    ensures
        r@ == trimmed(v@),
{
    let mut i: usize = 0;
    assert(v@.skip(0) =~= v@);
    while i < v.len() && is_space_char(v[i])
        invariant
            i <= v@.len(),
            trim_start(v@) == trim_start(v@.skip(i as int)),
        decreases v@.len() - i,
    {
        proof {
            lemma_trim_start_skip(v@, i as int);
        }
        i = i + 1;
    }
    let ghost rest = v@.skip(i as int);
    assert(trim_start(v@) == rest);
    let mut j: usize = v.len();
    assert(rest.take(rest.len() as int) =~= rest);
    while j > i && is_space_char(v[j - 1])
        invariant
            i <= j <= v@.len(),
            rest == v@.skip(i as int),
            trim_end(rest) == trim_end(rest.take(j - i)),
        decreases j,
    {
        proof {
            assert(rest[j - i - 1] == v@[j - 1]);
            lemma_trim_end_take(rest, j - i);
        }
        j = j - 1;
    }
    let mut r: Vec<char> = Vec::new();
    let mut k: usize = i;
    while k < j
        invariant
            i <= k <= j <= v@.len(),
            r@ == v@.subrange(i as int, k as int),
        decreases j - k,
    {
        r.push(v[k]);
        assert(v@.subrange(i as int, k + 1) =~= v@.subrange(i as int, k as int).push(v@[k as int]));
        k = k + 1;
    }
    assert(rest.take(j - i) =~= r@);
    r
}

/// The decimal digit character for `d < 10`.
pub open spec fn digit_char(d: nat) -> char {
    ((48 + d) as u8) as char
}

/// The decimal representation of `n`, without leading zeros.
pub open spec fn decimal(n: nat) -> Seq<char>
    decreases n,
{
    if n < 10 {
        seq![digit_char(n)]
    } else {
        decimal(n / 10).push(digit_char(n % 10))
    }
}

/// Appends the decimal representation of `n` to `out`.
pub fn push_decimal(out: &mut Vec<char>, n: u128)
    ensures
        final(out)@ == old(out)@ + decimal(n as nat),
    decreases n,
{
    if n >= 10 {
        push_decimal(out, n / 10);
    }
    let d = (n % 10) as u8;
    out.push((48u8 + d) as char);
    assert(decimal(n as nat) == if n < 10 {
        seq![digit_char(n as nat)]
    } else {
        decimal((n / 10) as nat).push(digit_char((n % 10) as nat))
    });
}

/// The UTF-16 code units of one character.
pub open spec fn utf16_of_char(c: char) -> Seq<u16> {
    let v = c as u32;
    if v < 0x10000 {
        seq![v as u16]
    } else {
        let u = v - 0x10000;
        seq![(0xD800 + u / 0x400) as u16, (0xDC00 + u % 0x400) as u16]
    }
}

/// `str::encode_utf16`: the UTF-16 code units of `s`.
pub open spec fn utf16(s: Seq<char>) -> Seq<u16>
    decreases s.len(),
{
    if s.len() == 0 {
        seq![]
    } else {
        utf16(s.drop_last()) + utf16_of_char(s.last())
    }
}

/// The text as UTF-16 with a terminating zero, as wide-string APIs take it.
pub fn to_wide(text: &str) -> (r: Vec<u16>)
    ensures
        r@ == utf16(text@).push(0u16),
{
    let chars = chars_of(text);
    let mut out: Vec<u16> = Vec::new();
    let mut i: usize = 0;
    while i < chars.len()
        invariant
            i <= chars@.len(),
            chars@ == text@,
            out@ == utf16(chars@.take(i as int)),
        decreases chars@.len() - i,
    {
        let c = chars[i];
        let v = c as u32;
        proof {
            assert(chars@.take(i + 1).drop_last() =~= chars@.take(i as int));
        }
        if v < 0x10000 {
            out.push(v as u16);
            assert(out@ =~= utf16(chars@.take(i as int)) + utf16_of_char(c));
        } else {
            let u = v - 0x10000;
            out.push((0xD800 + u / 0x400) as u16);
            out.push((0xDC00 + u % 0x400) as u16);
            assert(out@ =~= utf16(chars@.take(i as int)) + utf16_of_char(c));
        }
        i = i + 1;
    }
    assert(chars@.take(i as int) =~= chars@);
    out.push(0);
    out
}

/// The contents of a fixed wide-character buffer after `copy_to_fixed_wide`:
/// the zero-terminated UTF-16 text, cut to the buffer's length, then the
/// buffer's own remaining contents, with the last unit set to zero.
pub open spec fn fixed_wide_copy(target: Seq<u16>, text: Seq<char>) -> Seq<u16> {
    let wide = utf16(text).push(0u16);
    let count = min_nat(target.len(), wide.len());
    let copied = wide.take(count as int) + target.skip(count as int);
    if target.len() == 0 {
        copied
    } else {
        copied.update(target.len() - 1, 0u16)
    }
}

pub open spec fn min_nat(a: nat, b: nat) -> nat {
    if a <= b { a } else { b }
}

/// Copying into a fixed buffer keeps the buffer's length and leaves it
/// zero-terminated; a text that fits with its terminator is copied whole.
pub proof fn lemma_fixed_wide_copy(target: Seq<u16>, text: Seq<char>)
    ensures
        fixed_wide_copy(target, text).len() == target.len(),
        target.len() > 0 ==> fixed_wide_copy(target, text).last() == 0,
        utf16(text).len() < target.len() ==> fixed_wide_copy(target, text).take(
            utf16(text).len() + 1 as int,
        ) == utf16(text).push(0u16),
{
    let wide = utf16(text).push(0u16);
    let count = min_nat(target.len(), wide.len());
    let copied = wide.take(count as int) + target.skip(count as int);
    assert(copied.len() == target.len());
    if utf16(text).len() < target.len() {
        let r = fixed_wide_copy(target, text);
        assert(r.take(wide.len() as int) =~= wide);
    }
}

/// Copies `text` into a fixed wide-character buffer, truncating it and always
/// leaving the buffer zero-terminated.
pub fn copy_to_fixed_wide(target: &mut [u16], text: &str)
    ensures
        final(target)@ == fixed_wide_copy(old(target)@, text@),
{
    let wide = to_wide(text);
    let count = if target.len() <= wide.len() { target.len() } else { wide.len() };
    let mut i: usize = 0;
    while i < count
        invariant
            i <= count,
            count == min_nat(old(target)@.len(), wide@.len()),
            wide@ == utf16(text@).push(0u16),
            target@.len() == old(target)@.len(),
            target@ == wide@.take(i as int) + old(target)@.skip(i as int),
        decreases count - i,
    {
        target[i] = wide[i];
        assert(target@ =~= wide@.take(i + 1) + old(target)@.skip(i + 1));
        i = i + 1;
    }
    let n = target.len();
    if n > 0 {
        target[n - 1] = 0;
    }
}

/// The characters `v[from..to]`.
pub fn sub_chars(v: &[char], from: usize, to: usize) -> (r: Vec<char>)
    requires
        from <= to <= v@.len(),
    ensures
        r@ == v@.subrange(from as int, to as int),
{
    let mut r: Vec<char> = Vec::new();
    let mut k = from;
    while k < to
        invariant
            from <= k <= to <= v@.len(),
            r@ == v@.subrange(from as int, k as int),
        decreases to - k,
    {
        r.push(v[k]);
        assert(v@.subrange(from as int, k + 1) =~= v@.subrange(from as int, k as int).push(
            v@[k as int],
        ));
        k = k + 1;
    }
    r
}

/// The position of the first `c` in `s`.
pub open spec fn first_index_of(s: Seq<char>, c: char) -> Option<nat>
    decreases s.len(),
{
    if s.len() == 0 {
        None
    } else if s[0] == c {
        Some(0)
    } else {
        match first_index_of(s.drop_first(), c) {
            Some(i) => Some(i + 1),
            None => None,
        }
    }
}

pub proof fn lemma_first_index_of(s: Seq<char>, c: char, i: int)
    requires
        0 <= i <= s.len(),
        forall|j: int| 0 <= j < i ==> s[j] != c,
        i == s.len() || s[i] == c,
    ensures
        first_index_of(s, c) == (if i < s.len() {
            Some(i as nat)
        } else {
            None
        }),
    decreases i,
{
    if i > 0 {
        lemma_first_index_of(s.drop_first(), c, i - 1);
    }
}

/// The position of the first `c` in `v`.
pub fn find_char(v: &[char], c: char) -> (r: Option<usize>)
    ensures
        r matches Some(i) ==> first_index_of(v@, c) == Some(i as nat) && i < v@.len(),
        r is None ==> first_index_of(v@, c) is None,
{
    let mut i: usize = 0;
    while i < v.len()
        invariant
            i <= v@.len(),
            forall|j: int| 0 <= j < i ==> v@[j] != c,
        decreases v@.len() - i,
    {
        if v[i] == c {
            proof {
                lemma_first_index_of(v@, c, i as int);
            }
            return Some(i);
        }
        i = i + 1;
    }
    proof {
        lemma_first_index_of(v@, c, i as int);
    }
    None
}

/// The character sequences held by a vector of character vectors.
pub open spec fn seqs_of(v: Seq<Vec<char>>) -> Seq<Seq<char>> {
    v.map_values(|t: Vec<char>| t@)
}

/// The parts joined into one text with `sep` between neighbours (`join`).
pub open spec fn joined(parts: Seq<Seq<char>>, sep: Seq<char>) -> Seq<char>
    decreases parts.len(),
{
    if parts.len() == 0 {
        seq![]
    } else if parts.len() == 1 {
        parts[0]
    } else {
        joined(parts.drop_last(), sep) + sep + parts.last()
    }
}

/// Joins the parts with `sep` between neighbours.
pub fn join_chars(parts: &Vec<Vec<char>>, sep: &str) -> (r: Vec<char>)
    ensures
        r@ == joined(seqs_of(parts@), sep@),
{
    let mut out: Vec<char> = Vec::new();
    let mut i: usize = 0;
    while i < parts.len()
        invariant
            i <= parts@.len(),
            out@ == joined(seqs_of(parts@).take(i as int), sep@),
        decreases parts@.len() - i,
    {
        let ghost before = seqs_of(parts@).take(i as int);
        assert(seqs_of(parts@).take(i + 1).drop_last() =~= before);
        assert(seqs_of(parts@).take(i + 1).last() == parts@[i as int]@);
        if i > 0 {
            push_str(&mut out, sep);
        }
        let part = &parts[i];
        let mut j: usize = 0;
        let ghost mid = out@;
        while j < part.len()
            invariant
                j <= part@.len(),
                out@ == mid + part@.take(j as int),
            decreases part@.len() - j,
        {
            out.push(part[j]);
            assert(part@.take(j + 1) =~= part@.take(j as int).push(part@[j as int]));
            j = j + 1;
        }
        assert(part@.take(j as int) =~= part@);
        if i == 0 {
            assert(mid =~= seq![]);
            assert(out@ =~= part@);
        }
        i = i + 1;
    }
    assert(seqs_of(parts@).take(i as int) =~= seqs_of(parts@));
    out
}

} // verus!
