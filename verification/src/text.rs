//! Character-level helpers shared by the lexers: UTF-8 byte widths,
//! character classes, and building strings from characters.
use vstd::prelude::*;
use vstd::utf8::*;

verus! {

broadcast use vstd::utf8::char_is_scalar;

/// Number of bytes of the UTF-8 encoding of a character sequence.
pub open spec fn utf8_len(s: Seq<char>) -> nat {
    encode_utf8(s).len()
}

/// Number of bytes of the UTF-8 encoding of one character.
pub open spec fn char_width(c: char) -> nat {
    encode_scalar(c as u32).len()
}

pub proof fn lemma_char_width_bounds(c: char)
    ensures
        1 <= char_width(c) <= 4,
{
}

pub proof fn lemma_utf8_len_concat(a: Seq<char>, b: Seq<char>)
    ensures
        utf8_len(a + b) == utf8_len(a) + utf8_len(b),
    decreases a.len(),
{
    if a.len() == 0 {
        assert(a + b =~= b);
    } else {
        assert((a + b).drop_first() =~= a.drop_first() + b);
        lemma_utf8_len_concat(a.drop_first(), b);
    }
}

pub proof fn lemma_utf8_len_push(s: Seq<char>, c: char)
    ensures
        utf8_len(s.push(c)) == utf8_len(s) + char_width(c),
{
    assert(s.push(c) =~= s + seq![c]);
    lemma_utf8_len_concat(s, seq![c]);
    assert(seq![c].drop_first() =~= Seq::<char>::empty());
    assert(encode_utf8(Seq::<char>::empty()) =~= Seq::<u8>::empty());
    assert(encode_utf8(seq![c]) =~= encode_scalar(c as u32));
}

pub proof fn lemma_utf8_len_take_step(s: Seq<char>, k: int)
    requires
        0 <= k < s.len(),
    ensures
        utf8_len(s.take(k + 1)) == utf8_len(s.take(k)) + char_width(s[k]),
{
    assert(s.take(k + 1) =~= s.take(k).push(s[k]));
    lemma_utf8_len_push(s.take(k), s[k]);
}

/// Byte positions grow strictly with character positions.
pub proof fn lemma_utf8_len_take_mono(s: Seq<char>, i: int, j: int)
    requires
        0 <= i <= j <= s.len(),
    ensures
        utf8_len(s.take(i)) + (j - i) <= utf8_len(s.take(j)),
    decreases j - i,
{
    if i < j {
        lemma_utf8_len_take_mono(s, i, j - 1);
        lemma_utf8_len_take_step(s, j - 1);
        lemma_char_width_bounds(s[j - 1]);
    }
}

pub proof fn lemma_utf8_len_bound(s: Seq<char>)
    ensures
        s.len() <= utf8_len(s) <= 4 * s.len(),
    decreases s.len(),
{
    if s.len() > 0 {
        lemma_utf8_len_bound(s.drop_first());
        lemma_char_width_bounds(s[0]);
    }
}

/// The byte width of a character, as `char::len_utf8` documents it.
pub fn utf8_width(c: char) -> (w: usize)
    ensures
        w == char_width(c),
        1 <= w <= 4,
{
    let v = c as u32;
    if v <= 0x7F {
        1
    } else if v <= 0x7FF {
        2
    } else if v <= 0xFFFF {
        3
    } else {
        4
    }
}

/// The characters of a string slice.
pub fn str_chars(s: &str) -> (r: Vec<char>)
    ensures
        r@ == s@,
{
    let mut r: Vec<char> = Vec::new();
    for c in it: s.chars()
        invariant
            r@ == it.seq().take(it.index() as int),
            it.seq() == s@,
    {
        r.push(c);
    }
    r
}

/// Appends one character to a string.
#[verifier::external_body]
pub(crate) fn push_char(s: &mut String, c: char)
    ensures
        final(s)@ == old(s)@.push(c),
{
    s.push(c);
}

/// Appends a string slice to a string.
pub(crate) fn push_str(s: &mut String, t: &str)
    ensures
        final(s)@ == old(s)@ + t@,
{
    s.append(t);
}

/// The string made of the characters `v[lo..hi]`.
pub fn string_from_chars(v: &Vec<char>, lo: usize, hi: usize) -> (r: String)
    requires
        lo <= hi <= v.len(),
    ensures
        r@ == v@.subrange(lo as int, hi as int),
{
    let mut r = String::new();
    let mut i = lo;
    while i < hi
        invariant
            lo <= i <= hi <= v.len(),
            r@ == v@.subrange(lo as int, i as int),
        decreases hi - i,
    {
        push_char(&mut r, v[i]);
        i = i + 1;
        assert(r@ =~= v@.subrange(lo as int, i as int));
    }
    r
}

/// Equality of two string slices by their characters.
pub fn str_eq(a: &str, b: &str) -> (r: bool)
    ensures
        r == (a@ == b@),
{
    let x = str_chars(a);
    let y = str_chars(b);
    chars_eq(&x, &y)
}

/// Equality of two character vectors.
pub fn chars_eq(x: &Vec<char>, y: &Vec<char>) -> (r: bool)
    ensures
        r == (x@ == y@),
{
    if x.len() != y.len() {
        return false;
    }
    let mut i: usize = 0;
    while i < x.len()
        invariant
            x.len() == y.len(),
            0 <= i <= x.len(),
            forall|k: int| 0 <= k < i ==> x@[k] == y@[k],
        decreases x.len() - i,
    {
        if x[i] != y[i] {
            return false;
        }
        i = i + 1;
    }
    assert(x@ =~= y@);
    true
}

/// Whether `s[p..]` starts with `w`.
pub open spec fn starts_at(s: Seq<char>, p: int, w: Seq<char>) -> bool {
    &&& 0 <= p
    &&& p + w.len() <= s.len()
    &&& s.subrange(p, p + w.len()) == w
}

pub fn chars_start_at(s: &Vec<char>, p: usize, w: &Vec<char>) -> (r: bool)
    ensures
        r == starts_at(s@, p as int, w@),
{
    if p > s.len() || w.len() > s.len() - p {
        return false;
    }
    let mut i: usize = 0;
    while i < w.len()
        invariant
            p + w.len() <= s.len(),
            0 <= i <= w.len(),
            forall|k: int| 0 <= k < i ==> s@[p + k] == w@[k],
        decreases w.len() - i,
    {
        if s[p + i] != w[i] {
            assert(s@.subrange(p as int, p + w.len())[i as int] != w@[i as int]);
            return false;
        }
        i = i + 1;
    }
    assert(s@.subrange(p as int, p + w.len()) =~= w@);
    true
}

/// The Unicode `White_Space` property, which `char::is_whitespace` and the
/// `\s` class of regular expressions both test.
pub open spec fn spec_is_space(c: char) -> bool {
    let v = c as u32;
    ||| 0x9 <= v <= 0xD
    ||| v == 0x20
    ||| v == 0x85
    ||| v == 0xA0
    ||| v == 0x1680
    ||| 0x2000 <= v <= 0x200A
    ||| v == 0x2028
    ||| v == 0x2029
    ||| v == 0x202F
    ||| v == 0x205F
    ||| v == 0x3000
}

pub fn is_space(c: char) -> (r: bool)
    ensures
        r == spec_is_space(c),
{
    let v = c as u32;
    (0x9 <= v && v <= 0xD) || v == 0x20 || v == 0x85 || v == 0xA0 || v == 0x1680 || (0x2000 <= v
        && v <= 0x200A) || v == 0x2028 || v == 0x2029 || v == 0x202F || v == 0x205F || v == 0x3000
}

pub open spec fn spec_is_digit(c: char) -> bool {
    '0' <= c <= '9'
}

pub open spec fn spec_is_ascii_letter(c: char) -> bool {
    ('a' <= c <= 'z') || ('A' <= c <= 'Z')
}

/// Whether a regular expression, compiled from `pattern`, finds a match in
/// the one-character text `c` (false where the pattern does not compile).
pub uninterp spec fn regex_matches_char(pattern: Seq<char>, c: char) -> bool;

/// Calls `regex::Regex::new` on `pattern` and `Regex::is_match` on the text
/// made of `c` alone.  The contract names the result; it states nothing of
/// which characters a pattern accepts.
#[verifier::external_body]
fn regex_char_match(pattern: &str, c: char) -> (r: bool)
    ensures
        r == regex_matches_char(pattern@, c),
{
    match regex::Regex::new(pattern) {
        Ok(re) => re.is_match(&c.to_string()),
        Err(_) => false,
    }
}

/// Pattern of one Unicode word character (`\w`).
pub open spec fn word_pattern() -> Seq<char> {
    seq!['^', '\\', 'w', '$']
}

/// Pattern of one character of the Han, Greek, Bopomofo or Hangul scripts.
pub open spec fn script_pattern() -> Seq<char> {
    seq![
        '^', '[', '\\', 'p', '{', 'H', 'a', 'n', '}', '\\', 'p', '{', 'G', 'r', 'e', 'e', 'k', '}',
        '\\', 'p', '{', 'B', 'o', 'p', 'o', 'm', 'o', 'f', 'o', '}', '\\', 'p', '{', 'H', 'a', 'n',
        'g', 'u', 'l', '}', ']', '$'
    ]
}

/// A word character in the sense of the `\b` word boundary: for ASCII
/// `[0-9A-Za-z_]`, beyond ASCII what Unicode calls a word character.
pub open spec fn spec_is_word(c: char) -> bool {
    if (c as u32) < 128 {
        spec_is_digit(c) || spec_is_ascii_letter(c) || c == '_'
    } else {
        regex_matches_char(word_pattern(), c)
    }
}

/// A character of the Han, Greek, Bopomofo or Hangul scripts (none is ASCII).
pub open spec fn spec_is_script(c: char) -> bool {
    (c as u32) >= 128 && regex_matches_char(script_pattern(), c)
}

pub fn is_word(c: char) -> (r: bool)
    ensures
        r == spec_is_word(c),
{
    if (c as u32) < 128 {
        ('0' <= c && c <= '9') || ('a' <= c && c <= 'z') || ('A' <= c && c <= 'Z') || c == '_'
    } else {
        let p = "^\\w$";
        proof {
            reveal_strlit("^\\w$");
        }
        assert(p@ =~= word_pattern());
        regex_char_match(p, c)
    }
}

pub fn is_script(c: char) -> (r: bool)
    ensures
        r == spec_is_script(c),
{
    if (c as u32) < 128 {
        false
    } else {
        let p = "^[\\p{Han}\\p{Greek}\\p{Bopomofo}\\p{Hangul}]$";
        proof {
            reveal_strlit("^[\\p{Han}\\p{Greek}\\p{Bopomofo}\\p{Hangul}]$");
        }
        assert(p@ =~= script_pattern());
        regex_char_match(p, c)
    }
}

/// The decimal digit `d`.
pub open spec fn digit_char(d: nat) -> char {
    if d == 0 {
        '0'
    } else if d == 1 {
        '1'
    } else if d == 2 {
        '2'
    } else if d == 3 {
        '3'
    } else if d == 4 {
        '4'
    } else if d == 5 {
        '5'
    } else if d == 6 {
        '6'
    } else if d == 7 {
        '7'
    } else if d == 8 {
        '8'
    } else {
        '9'
    }
}

/// `n` written in decimal, without leading zeros.
pub open spec fn nat_text(n: nat) -> Seq<char>
    decreases n,
{
    if n < 10 {
        seq![digit_char(n)]
    } else {
        nat_text(n / 10).push(digit_char(n % 10))
    }
}

fn digit_exec(d: usize) -> (c: char)
    requires
        d < 10,
    ensures
        c == digit_char(d as nat),
{
    if d == 0 {
        '0'
    } else if d == 1 {
        '1'
    } else if d == 2 {
        '2'
    } else if d == 3 {
        '3'
    } else if d == 4 {
        '4'
    } else if d == 5 {
        '5'
    } else if d == 6 {
        '6'
    } else if d == 7 {
        '7'
    } else if d == 8 {
        '8'
    } else {
        '9'
    }
}

/// Appends `n` written in decimal.
pub fn push_usize(s: &mut String, n: usize)
    ensures
        final(s)@ == old(s)@ + nat_text(n as nat),
    decreases n,
{
    if n >= 10 {
        push_usize(s, n / 10);
    }
    push_char(s, digit_exec(n % 10));
    assert(s@ =~= old(s)@ + nat_text(n as nat));
}

/// The text that std's `Debug` gives for a string slice: the string in
/// double quotes with its special characters escaped.
pub uninterp spec fn debug_text(s: Seq<char>) -> Seq<char>;

/// Formats `s` with std's `Debug` for `str`; the result is named
/// `debug_text` of the characters of `s`, and nothing more is claimed.
#[verifier::external_body]
pub(crate) fn debug_str(s: &str) -> (r: String)
    ensures
        r@ == debug_text(s@),
{
    format!("{:?}", s)
}

} // verus!
