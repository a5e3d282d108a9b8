//! Token-level matchers shared by both lexers.  Each matcher looks at the
//! text `s` from index `p` and tells how many characters the corresponding
//! token rule takes there (0 when the rule does not apply).
use crate::text::{
    chars_start_at, is_script, is_space, is_word, spec_is_ascii_letter, spec_is_digit, spec_is_script,
    spec_is_space, spec_is_word, starts_at, str_chars,
};
use vstd::prelude::*;

verus! {

/// Character classes that the token rules are built from.
pub enum CharClass {
    Space,
    Digit,
    /// First character of a name: ASCII letter, `_`, `$`, `?`, `%` or a script letter.
    NameStart,
    /// Further characters of a name: a name start or a digit.
    NamePart,
    /// First character of a script-style name: ASCII letter, `_`, `$` or a script letter.
    WordStart,
    /// Further characters of a script-style name: a word start, a digit or `}`.
    WordPart,
}

pub open spec fn in_class(k: CharClass, c: char) -> bool {
    match k {
        CharClass::Space => spec_is_space(c),
        CharClass::Digit => spec_is_digit(c),
        CharClass::NameStart => spec_is_ascii_letter(c) || c == '_' || c == '$' || c == '?' || c
            == '%' || spec_is_script(c),
        CharClass::NamePart => spec_is_ascii_letter(c) || c == '_' || c == '$' || c == '?' || c
            == '%' || spec_is_script(c) || spec_is_digit(c),
        CharClass::WordStart => spec_is_ascii_letter(c) || c == '_' || c == '$' || spec_is_script(
            c,
        ),
        CharClass::WordPart => spec_is_ascii_letter(c) || c == '_' || c == '$' || spec_is_script(c)
            || spec_is_digit(c) || c == '}',
    }
}

pub fn class_has(k: &CharClass, c: char) -> (r: bool)
    ensures
        r == in_class(*k, c),
{
    match k {
        CharClass::Space => is_space(c),
        CharClass::Digit => '0' <= c && c <= '9',
        CharClass::NameStart => {
            ('a' <= c && c <= 'z') || ('A' <= c && c <= 'Z') || c == '_' || c == '$' || c == '?'
                || c == '%' || is_script(c)
        },
        CharClass::NamePart => {
            ('a' <= c && c <= 'z') || ('A' <= c && c <= 'Z') || c == '_' || c == '$' || c == '?'
                || c == '%' || ('0' <= c && c <= '9') || is_script(c)
        },
        CharClass::WordStart => {
            ('a' <= c && c <= 'z') || ('A' <= c && c <= 'Z') || c == '_' || c == '$' || is_script(
                c,
            )
        },
        CharClass::WordPart => {
            ('a' <= c && c <= 'z') || ('A' <= c && c <= 'Z') || c == '_' || c == '$' || ('0' <= c
                && c <= '9') || c == '}' || is_script(c)
        },
    }
}

/// Length of the longest run of characters of class `k` starting at `p`.
pub open spec fn run_len(s: Seq<char>, p: int, k: CharClass) -> nat
    decreases s.len() - p,
{
    if 0 <= p < s.len() && in_class(k, s[p]) {
        1 + run_len(s, p + 1, k)
    } else {
        0
    }
}

pub proof fn lemma_run_len_bound(s: Seq<char>, p: int, k: CharClass)
    requires
        0 <= p <= s.len(),
    ensures
        p + run_len(s, p, k) <= s.len(),
        forall|i: int| p <= i < p + run_len(s, p, k) ==> in_class(k, #[trigger] s[i]),
        p + run_len(s, p, k) < s.len() ==> !in_class(k, s[p + run_len(s, p, k)]),
    decreases s.len() - p,
{
    if p < s.len() && in_class(k, s[p]) {
        lemma_run_len_bound(s, p + 1, k);
    }
}

pub fn scan_run(s: &Vec<char>, p: usize, k: &CharClass) -> (r: usize)
    requires
        p <= s.len(),
    ensures
        r == p + run_len(s@, p as int, *k),
        r <= s.len(),
{
    let mut i = p;
    while i < s.len() && class_has(k, s[i])
        invariant
            p <= i <= s.len(),
            run_len(s@, p as int, *k) == (i - p) + run_len(s@, i as int, *k),
        decreases s.len() - i,
    {
        i = i + 1;
    }
    i
}

/// Whether a word boundary (`\b`) holds at index `q` just after a word character.
pub open spec fn word_end(s: Seq<char>, q: int) -> bool {
    q >= s.len() || !spec_is_word(s[q])
}

pub fn at_word_end(s: &Vec<char>, q: usize) -> (r: bool)
    ensures
        r == word_end(s@, q as int),
{
    q >= s.len() || !is_word(s[q])
}

/// First index `i >= from` with `s[i] == c`.
pub open spec fn find_char(s: Seq<char>, from: int, c: char) -> Option<int>
    decreases s.len() - from,
{
    if from < 0 || from >= s.len() {
        None
    } else if s[from] == c {
        Some(from)
    } else {
        find_char(s, from + 1, c)
    }
}

pub proof fn lemma_find_char(s: Seq<char>, from: int, c: char)
    requires
        0 <= from,
    ensures
        find_char(s, from, c) matches Some(i) ==> from <= i < s.len() && s[i] == c && forall|
            j: int,
        |
            from <= j < i ==> s[j] != c,
        find_char(s, from, c) is None ==> forall|j: int| from <= j < s.len() ==> s[j] != c,
    decreases s.len() - from,
{
    if from < s.len() && s[from] != c {
        lemma_find_char(s, from + 1, c);
    }
}

pub fn find_char_from(s: &Vec<char>, from: usize, c: char) -> (r: Option<usize>)
    ensures
        match r {
            Some(i) => find_char(s@, from as int, c) == Some(i as int),
            None => find_char(s@, from as int, c) is None,
        },
{
    let mut i = from;
    while i < s.len()
        invariant
            from <= i,
            find_char(s@, from as int, c) == find_char(s@, i as int, c),
        decreases s.len() - i,
    {
        if s[i] == c {
            return Some(i);
        }
        i = i + 1;
    }
    None
}

/// Length of a line comment `//...\n` at `p` (the comment takes the newline too).
pub open spec fn line_comment_len(s: Seq<char>, p: int) -> nat {
    if starts_at(s, p, seq!['/', '/']) {
        match find_char(s, p + 2, '\n') {
            Some(i) => (i + 1 - p) as nat,
            None => 0,
        }
    } else {
        0
    }
}

/// Last index `j` with `from <= j` and `s[j..j+2] == "*/"`.
pub open spec fn last_block_end(s: Seq<char>, from: int, j: int) -> Option<int>
    decreases j + 1 - from,
{
    if j < from || j < 0 || j + 2 > s.len() {
        None
    } else if s[j] == '*' && s[j + 1] == '/' {
        Some(j)
    } else {
        last_block_end(s, from, j - 1)
    }
}

/// Length of a block comment `/* ... */` at `p`; the comment reaches the last
/// `*/` of the text.
pub open spec fn block_comment_len(s: Seq<char>, p: int) -> nat {
    if starts_at(s, p, seq!['/', '*']) {
        match last_block_end(s, p + 2, s.len() - 2) {
            Some(j) => (j + 2 - p) as nat,
            None => 0,
        }
    } else {
        0
    }
}

pub proof fn lemma_last_block_end(s: Seq<char>, from: int, j: int)
    requires
        0 <= from,
    ensures
        last_block_end(s, from, j) matches Some(k) ==> from <= k <= j && k + 2 <= s.len(),
    decreases j + 1 - from,
{
    if j < from || j < 0 || j + 2 > s.len() {
    } else if s[j] == '*' && s[j + 1] == '/' {
    } else {
        lemma_last_block_end(s, from, j - 1);
    }
}

pub fn line_comment_at(s: &Vec<char>, p: usize) -> (r: usize)
    requires
        p <= s.len(),
    ensures
        r == line_comment_len(s@, p as int),
        p + r <= s.len(),
{
    if s.len() >= 2 && p <= s.len() - 2 && s[p] == '/' && s[p + 1] == '/' {
        assert(starts_at(s@, p as int, seq!['/', '/'])) by {
            assert(s@.subrange(p as int, p + 2) =~= seq!['/', '/']);
        }
        proof {
            lemma_find_char(s@, p + 2, '\n');
        }
        match find_char_from(s, p + 2, '\n') {
            Some(i) => i + 1 - p,
            None => 0,
        }
    } else {
        assert(!starts_at(s@, p as int, seq!['/', '/'])) by {
            if starts_at(s@, p as int, seq!['/', '/']) {
                assert(s@.subrange(p as int, p + 2)[0] == s@[p as int]);
                assert(s@.subrange(p as int, p + 2)[1] == s@[p + 1]);
            }
        }
        0
    }
}

pub fn block_comment_at(s: &Vec<char>, p: usize) -> (r: usize)
    requires
        p <= s.len(),
    ensures
        r == block_comment_len(s@, p as int),
        p + r <= s.len(),
{
    if s.len() >= 2 && p <= s.len() - 2 && s[p] == '/' && s[p + 1] == '*' {
        assert(starts_at(s@, p as int, seq!['/', '*'])) by {
            assert(s@.subrange(p as int, p + 2) =~= seq!['/', '*']);
        }
        let mut j = s.len() - 2;
        while j >= p + 2
            invariant
                p + 2 <= s.len(),
                j + 2 <= s.len(),
                starts_at(s@, p as int, seq!['/', '*']),
                last_block_end(s@, p + 2, s.len() - 2) == last_block_end(s@, p + 2, j as int),
            decreases j,
        {
            if s[j] == '*' && s[j + 1] == '/' {
                assert(last_block_end(s@, p + 2, j as int) == Some(j as int));
                return j + 2 - p;
            }
            j = j - 1;
        }
        assert(last_block_end(s@, p + 2, j as int) is None);
        0
    } else {
        assert(!starts_at(s@, p as int, seq!['/', '*'])) by {
            if starts_at(s@, p as int, seq!['/', '*']) {
                assert(s@.subrange(p as int, p + 2)[0] == s@[p as int]);
                assert(s@.subrange(p as int, p + 2)[1] == s@[p + 1]);
            }
        }
        0
    }
}

/// End (exclusive) of a quoted text whose body starts at `q`: the body is a
/// sequence of escapes `\x` (any `x` but a newline) and characters other than
/// `"`, closed by `"`.  An escape is only taken where a closing quote still
/// follows it, as the first match a backtracking matcher finds.
pub open spec fn quoted_end(s: Seq<char>, q: int) -> Option<int>
    decreases s.len() - q,
{
    if q < 0 || q >= s.len() {
        None
    } else if s[q] == '"' {
        Some(q + 1)
    } else if s[q] == '\\' && q + 1 < s.len() && s[q + 1] != '\n' && quoted_end(s, q + 2) is Some {
        quoted_end(s, q + 2)
    } else {
        quoted_end(s, q + 1)
    }
}

/// `quoted_end(s, q)` exists exactly where a `"` stands at or after `q`.
pub proof fn lemma_quoted_end(s: Seq<char>, q: int)
    requires
        0 <= q,
    ensures
        (quoted_end(s, q) is Some) == (find_char(s, q, '"') is Some),
        quoted_end(s, q) matches Some(e) ==> q < e <= s.len(),
    decreases s.len() - q,
{
    if q < s.len() {
        lemma_quoted_end(s, q + 1);
        if q + 2 <= s.len() {
            lemma_quoted_end(s, q + 2);
        }
    }
}

/// Length of a quoted token at `p`: `prefix` then a quoted body.
pub open spec fn quoted_len(s: Seq<char>, p: int, prefix: Seq<char>) -> nat {
    if starts_at(s, p, prefix) {
        match quoted_end(s, p + prefix.len()) {
            Some(e) => (e - p) as nat,
            None => 0,
        }
    } else {
        0
    }
}

pub fn quoted_at(s: &Vec<char>, p: usize, prefix: &Vec<char>) -> (r: usize)
    requires
        p <= s.len(),
    ensures
        r == quoted_len(s@, p as int, prefix@),
        p + r <= s.len(),
{
    if !chars_start_at(s, p, prefix) {
        return 0;
    }
    let q0 = p + prefix.len();
    // index of the last quote of the text, if any
    let mut last: usize = s.len();
    let mut k: usize = s.len();
    while k > q0
        invariant
            q0 <= k <= s.len(),
            last <= s.len(),
            last == s.len() ==> forall|j: int| k <= j < s.len() ==> s@[j] != '"',
            last < s.len() ==> last >= k && s@[last as int] == '"',
            forall|j: int| last < j < s.len() ==> s@[j] != '"',
        decreases k,
    {
        k = k - 1;
        if s[k] == '"' && last == s.len() {
            last = k;
        }
    }
    proof {
        lemma_quoted_end(s@, q0 as int);
        lemma_find_char(s@, q0 as int, '"');
    }
    if last == s.len() {
        assert(find_char(s@, q0 as int, '"') is None);
        return 0;
    }
    let mut i = q0;
    while i < s.len()
        invariant
            q0 == p + prefix@.len(),
            starts_at(s@, p as int, prefix@),
            p <= q0 <= i <= s.len(),
            q0 <= last < s.len(),
            s@[last as int] == '"',
            forall|j: int| last < j < s.len() ==> s@[j] != '"',
            quoted_end(s@, q0 as int) == quoted_end(s@, i as int),
            i <= last,
        decreases s.len() - i,
    {
        proof {
            lemma_quoted_end(s@, i as int);
            lemma_find_char(s@, i as int, '"');
            if i + 1 <= s.len() {
                lemma_quoted_end(s@, i + 1);
                lemma_find_char(s@, i + 1, '"');
            }
            if i + 2 <= s.len() {
                lemma_quoted_end(s@, i + 2);
                lemma_find_char(s@, i + 2, '"');
            }
        }
        if s[i] == '"' {
            assert(quoted_end(s@, i as int) == Some(i + 1));
            assert(starts_at(s@, p as int, prefix@));
            return i + 1 - p;
        }
        if s[i] == '\\' && i + 1 < s.len() && s[i + 1] != '\n' && i + 2 <= last {
            assert(find_char(s@, i + 2, '"') is Some) by {
                lemma_find_char(s@, i + 2, '"');
            }
            i = i + 2;
        } else {
            if s[i] == '\\' && i + 1 < s.len() && s[i + 1] != '\n' {
                assert(find_char(s@, i + 2, '"') is None);
            }
            i = i + 1;
        }
    }
    assert(false);
    0
}

/// The keywords, in the order the keyword rule tries them.
pub open spec fn keyword_text(i: int) -> Seq<char> {
    if i == 0 {
        "true"@
    } else if i == 1 {
        "false"@
    } else if i == 2 {
        "and"@
    } else if i == 3 {
        "or"@
    } else if i == 4 {
        "null"@
    } else if i == 5 {
        "function"@
    } else if i == 6 {
        "if"@
    } else if i == 7 {
        "then"@
    } else if i == 8 {
        "else"@
    } else if i == 9 {
        "loop"@
    } else if i == 10 {
        "for"@
    } else if i == 11 {
        "some"@
    } else if i == 12 {
        "every"@
    } else if i == 13 {
        "in"@
    } else if i == 14 {
        "return"@
    } else {
        "satisfies"@
    }
}

pub fn keyword_str(i: usize) -> (r: &'static str)
    requires
        i < 16,
    ensures
        r@ == keyword_text(i as int),
{
    if i == 0 {
        "true"
    } else if i == 1 {
        "false"
    } else if i == 2 {
        "and"
    } else if i == 3 {
        "or"
    } else if i == 4 {
        "null"
    } else if i == 5 {
        "function"
    } else if i == 6 {
        "if"
    } else if i == 7 {
        "then"
    } else if i == 8 {
        "else"
    } else if i == 9 {
        "loop"
    } else if i == 10 {
        "for"
    } else if i == 11 {
        "some"
    } else if i == 12 {
        "every"
    } else if i == 13 {
        "in"
    } else if i == 14 {
        "return"
    } else {
        "satisfies"
    }
}

/// Length of the first keyword, in list order from `i`, that stands at `p`
/// between word boundaries.
pub open spec fn keyword_from(s: Seq<char>, p: int, i: int) -> nat
    decreases 16 - i,
{
    if i < 0 || i >= 16 {
        0
    } else if starts_at(s, p, keyword_text(i)) && word_end(s, p + keyword_text(i).len()) {
        keyword_text(i).len()
    } else {
        keyword_from(s, p, i + 1)
    }
}

/// Length of the keyword at `p` (0 where none stands there).
pub open spec fn keyword_len(s: Seq<char>, p: int) -> nat {
    if 0 <= p < s.len() && spec_is_word(s[p]) {
        keyword_from(s, p, 0)
    } else {
        0
    }
}

pub proof fn lemma_keyword_from(s: Seq<char>, p: int, i: int)
    requires
        0 <= i,
        0 <= p <= s.len(),
    ensures
        p + keyword_from(s, p, i) <= s.len(),
    decreases 16 - i,
{
    if i < 16 && !(starts_at(s, p, keyword_text(i)) && word_end(s, p + keyword_text(i).len())) {
        lemma_keyword_from(s, p, i + 1);
    }
}

pub fn keyword_at(s: &Vec<char>, p: usize) -> (r: usize)
    requires
        p <= s.len(),
    ensures
        r == keyword_len(s@, p as int),
        p + r <= s.len(),
{
    if p >= s.len() || !is_word(s[p]) {
        return 0;
    }
    proof {
        lemma_keyword_from(s@, p as int, 0);
    }
    let mut i: usize = 0;
    while i < 16
        invariant
            p < s.len(),
            spec_is_word(s@[p as int]),
            0 <= i <= 16,
            keyword_from(s@, p as int, 0) == keyword_from(s@, p as int, i as int),
        decreases 16 - i,
    {
        let kw = str_chars(keyword_str(i));
        if chars_start_at(s, p, &kw) && at_word_end(s, p + kw.len()) {
            assert(keyword_from(s@, p as int, i as int) == kw.len());
            return kw.len();
        }
        i = i + 1;
    }
    0
}

/// Length of a number `[0-9]+(\.[0-9]+)?` at `p` followed by a word boundary.
pub open spec fn number_len(s: Seq<char>, p: int) -> nat {
    let n = run_len(s, p, CharClass::Digit);
    if n == 0 {
        0
    } else {
        let q = p + n;
        let m = if q < s.len() && s[q] == '.' {
            run_len(s, q + 1, CharClass::Digit)
        } else {
            0
        };
        if m > 0 && word_end(s, q + 1 + m) {
            (n + 1 + m) as nat
        } else if word_end(s, q) {
            n
        } else {
            0
        }
    }
}

pub fn number_at(s: &Vec<char>, p: usize) -> (r: usize)
    requires
        p <= s.len(),
    ensures
        r == number_len(s@, p as int),
        p + r <= s.len(),
{
    let q = scan_run(s, p, &CharClass::Digit);
    if q == p {
        return 0;
    }
    let mut m: usize = 0;
    if q < s.len() && s[q] == '.' {
        let e = scan_run(s, q + 1, &CharClass::Digit);
        m = e - (q + 1);
    }
    if m > 0 && at_word_end(s, q + 1 + m) {
        q + 1 + m - p
    } else if at_word_end(s, q) {
        q - p
    } else {
        0
    }
}

} // verus!
