//! The FEEL lexer: tokens with text positions.
use crate::lexing::{
    block_comment_at, block_comment_len, keyword_at, keyword_len, line_comment_at,
    line_comment_len, number_at, number_len, quoted_at, quoted_len, run_len, scan_run, CharClass,
};
use crate::position::{
    advance, lemma_advance_concat, lemma_newline_count_bound, position_of, TextPosition,
};
use crate::text::{
    chars_start_at, lemma_utf8_len_bound, lemma_utf8_len_concat, lemma_utf8_len_take_mono,
    lemma_utf8_len_take_step, push_str, starts_at, str_chars, str_eq, string_from_chars, utf8_len,
    utf8_width,
};
use vstd::prelude::*;
use vstd::string::StringSliceAdditionalSpecFns;

verus! {

/// An error of the lexer.
#[derive(Debug)]
pub struct ScanError {
    pub message: String,
}

impl Clone for ScanError {
    fn clone(&self) -> (r: Self)
        ensures
            r == *self,
    {
        ScanError { message: self.message.clone() }
    }
}

impl ScanError {
    pub fn from_str(message: &str) -> (r: ScanError)
        ensures
            r.message@ == message@,
    {
        ScanError { message: message.to_owned() }
    }

    /// The printed form `ScanError: message`.
    pub fn to_string(&self) -> (r: String)
        ensures
            r@ == "ScanError: "@ + self.message@,
    {
        let mut r = String::new();
        push_str(&mut r, "ScanError: ");
        push_str(&mut r, self.message.as_str());
        r
    }
}

/// A token: its kind, its text and where it starts.
#[derive(Debug)]
pub struct Token {
    pub kind: &'static str,
    pub value: String,
    pub position: TextPosition,
}

impl Clone for Token {
    fn clone(&self) -> (r: Self)
        ensures
            r == *self,
    {
        Token { kind: self.kind, value: self.value.clone(), position: self.position }
    }
}

/// Whether some string of `ks` has the characters `k`.
pub open spec fn str_in(ks: Seq<&str>, k: Seq<char>) -> bool {
    exists|i: int| 0 <= i < ks.len() && (#[trigger] ks[i])@ == k
}

pub fn str_in_slice(ks: &[&str], k: &str) -> (r: bool)
    ensures
        r == str_in(ks@, k@),
{
    let mut i: usize = 0;
    while i < ks.len()
        invariant
            0 <= i <= ks.len(),
            forall|j: int| 0 <= j < i ==> (#[trigger] ks@[j])@ != k@,
        decreases ks.len() - i,
    {
        if str_eq(ks[i], k) {
            return true;
        }
        i = i + 1;
    }
    false
}

impl Token {
    pub fn expect(&self, kind: &str) -> (r: bool)
        ensures
            r == (self.kind@ == kind@),
    {
        str_eq(self.kind, kind)
    }

    pub fn expect_kinds(&self, kinds: &[&str]) -> (r: bool)
        ensures
            r == str_in(kinds@, self.kind@),
    {
        str_in_slice(kinds, self.kind)
    }

    pub fn expect_keyword(&self, keyword: &str) -> (r: bool)
        ensures
            r == (self.kind@ == "keyword"@ && self.value@ == keyword@),
    {
        if !str_eq(self.kind, "keyword") {
            return false;
        }
        str_eq(self.value.as_str(), keyword)
    }

    pub fn expect_keywords(&self, keywords: &[&str]) -> (r: bool)
        ensures
            r == (self.kind@ == "keyword"@ && str_in(keywords@, self.value@)),
    {
        if !str_eq(self.kind, "keyword") {
            return false;
        }
        str_in_slice(keywords, self.value.as_str())
    }
}

/// The operators of the lexer, in the order it tries them.
pub open spec fn feel_op(i: int) -> Seq<char> {
    if i == 0 {
        ".."@
    } else if i == 1 {
        "."@
    } else if i == 2 {
        ","@
    } else if i == 3 {
        ";"@
    } else if i == 4 {
        ">="@
    } else if i == 5 {
        ">"@
    } else if i == 6 {
        "="@
    } else if i == 7 {
        "<="@
    } else if i == 8 {
        "<"@
    } else if i == 9 {
        "!="@
    } else if i == 10 {
        "!"@
    } else if i == 11 {
        "("@
    } else if i == 12 {
        ")"@
    } else if i == 13 {
        "["@
    } else if i == 14 {
        "]"@
    } else if i == 15 {
        "{"@
    } else if i == 16 {
        "}"@
    } else if i == 17 {
        ":="@
    } else if i == 18 {
        ":"@
    } else if i == 19 {
        "+"@
    } else if i == 20 {
        "-"@
    } else if i == 21 {
        "*"@
    } else if i == 22 {
        "/"@
    } else {
        "%"@
    }
}

pub fn feel_op_str(i: usize) -> (r: &'static str)
    requires
        i < 24,
    ensures
        r@ == feel_op(i as int),
{
    if i == 0 {
        ".."
    } else if i == 1 {
        "."
    } else if i == 2 {
        ","
    } else if i == 3 {
        ";"
    } else if i == 4 {
        ">="
    } else if i == 5 {
        ">"
    } else if i == 6 {
        "="
    } else if i == 7 {
        "<="
    } else if i == 8 {
        "<"
    } else if i == 9 {
        "!="
    } else if i == 10 {
        "!"
    } else if i == 11 {
        "("
    } else if i == 12 {
        ")"
    } else if i == 13 {
        "["
    } else if i == 14 {
        "]"
    } else if i == 15 {
        "{"
    } else if i == 16 {
        "}"
    } else if i == 17 {
        ":="
    } else if i == 18 {
        ":"
    } else if i == 19 {
        "+"
    } else if i == 20 {
        "-"
    } else if i == 21 {
        "*"
    } else if i == 22 {
        "/"
    } else {
        "%"
    }
}

/// Every operator has at least one character.
pub proof fn lemma_feel_op_len(i: int)
    ensures
        feel_op(i).len() >= 1,
{
    reveal_strlit("..");
    reveal_strlit(".");
    reveal_strlit(",");
    reveal_strlit(";");
    reveal_strlit(">=");
    reveal_strlit(">");
    reveal_strlit("=");
    reveal_strlit("<=");
    reveal_strlit("<");
    reveal_strlit("!=");
    reveal_strlit("!");
    reveal_strlit("(");
    reveal_strlit(")");
    reveal_strlit("[");
    reveal_strlit("]");
    reveal_strlit("{");
    reveal_strlit("}");
    reveal_strlit(":=");
    reveal_strlit(":");
    reveal_strlit("+");
    reveal_strlit("-");
    reveal_strlit("*");
    reveal_strlit("/");
    reveal_strlit("%");
}

/// Index of the first operator, from the `i`-th on, that stands at `p`.
pub open spec fn feel_op_from(s: Seq<char>, p: int, i: int) -> Option<int>
    decreases 24 - i,
{
    if i < 0 || i >= 24 {
        None
    } else if starts_at(s, p, feel_op(i)) {
        Some(i)
    } else {
        feel_op_from(s, p, i + 1)
    }
}

pub proof fn lemma_feel_op_from(s: Seq<char>, p: int, i: int)
    requires
        0 <= i,
    ensures
        feel_op_from(s, p, i) matches Some(j) ==> 0 <= j < 24 && starts_at(s, p, feel_op(j)),
    decreases 24 - i,
{
    if i < 24 && !starts_at(s, p, feel_op(i)) {
        lemma_feel_op_from(s, p, i + 1);
    }
}

/// Length of a name at `p`: a name start, then name parts.
pub open spec fn feel_name_len(s: Seq<char>, p: int) -> nat {
    if 0 <= p < s.len() && crate::lexing::in_class(CharClass::NameStart, s[p]) {
        1 + run_len(s, p + 1, CharClass::NamePart)
    } else {
        0
    }
}

/// The token rule that applies at `p` of `s`, tried in order: white space,
/// line comment, block comment, keyword, temporal literal, string,
/// operator, number, name.  Gives the token's kind and its length.
pub open spec fn feel_token(s: Seq<char>, p: int) -> Option<(Seq<char>, nat)> {
    if run_len(s, p, CharClass::Space) > 0 {
        Some(("space"@, run_len(s, p, CharClass::Space)))
    } else if line_comment_len(s, p) > 0 {
        Some(("comment_singleline"@, line_comment_len(s, p)))
    } else if block_comment_len(s, p) > 0 {
        Some(("comment_multiline"@, block_comment_len(s, p)))
    } else if keyword_len(s, p) > 0 {
        Some(("keyword"@, keyword_len(s, p)))
    } else if quoted_len(s, p, seq!['@', '"']) > 0 {
        Some(("temporal"@, quoted_len(s, p, seq!['@', '"'])))
    } else if quoted_len(s, p, seq!['"']) > 0 {
        Some(("string"@, quoted_len(s, p, seq!['"'])))
    } else if feel_op_from(s, p, 0) is Some {
        let i = feel_op_from(s, p, 0)->0;
        Some((feel_op(i), feel_op(i).len()))
    } else if number_len(s, p) > 0 {
        Some(("number"@, number_len(s, p)))
    } else if feel_name_len(s, p) > 0 {
        Some(("name"@, feel_name_len(s, p)))
    } else {
        None
    }
}

pub proof fn lemma_feel_token(s: Seq<char>, p: int)
    requires
        0 <= p <= s.len(),
    ensures
        feel_token(s, p) matches Some((k, n)) ==> 1 <= n && p + n <= s.len(),
{
    crate::lexing::lemma_run_len_bound(s, p, CharClass::Space);
    crate::lexing::lemma_run_len_bound(s, p, CharClass::Digit);
    if p < s.len() {
        crate::lexing::lemma_run_len_bound(s, p + 1, CharClass::NamePart);
    }
    let q = p + run_len(s, p, CharClass::Digit);
    if q < s.len() {
        crate::lexing::lemma_run_len_bound(s, q + 1, CharClass::Digit);
    }
    crate::lexing::lemma_find_char(s, p + 2, '\n');
    crate::lexing::lemma_last_block_end(s, p + 2, s.len() - 2);
    if p < s.len() {
        crate::lexing::lemma_keyword_from(s, p, 0);
    }
    crate::lexing::lemma_quoted_end(s, p + 2);
    crate::lexing::lemma_quoted_end(s, p + 1);
    lemma_feel_op_from(s, p, 0);
    if feel_op_from(s, p, 0) is Some {
        lemma_feel_op_len(feel_op_from(s, p, 0)->0);
    }
}

fn chars_of(s: &str) -> (r: Vec<char>)
    ensures
        r@ == s@,
{
    str_chars(s)
}

/// The token rule at `p`: its kind and length, as `feel_token` states.
pub fn feel_token_at(s: &Vec<char>, p: usize) -> (r: Option<(&'static str, usize)>)
    requires
        p <= s.len(),
    ensures
        match r {
            Some((k, n)) => feel_token(s@, p as int) == Some((k@, n as nat)),
            None => feel_token(s@, p as int) is None,
        },
{
    let n = scan_run(s, p, &CharClass::Space) - p;
    if n > 0 {
        return Some(("space", n));
    }
    let n = line_comment_at(s, p);
    if n > 0 {
        return Some(("comment_singleline", n));
    }
    let n = block_comment_at(s, p);
    if n > 0 {
        return Some(("comment_multiline", n));
    }
    let n = keyword_at(s, p);
    if n > 0 {
        return Some(("keyword", n));
    }
    let mut at_q: Vec<char> = Vec::new();
    at_q.push('@');
    at_q.push('"');
    assert(at_q@ =~= seq!['@', '"']);
    let n = quoted_at(s, p, &at_q);
    if n > 0 {
        return Some(("temporal", n));
    }
    let mut q: Vec<char> = Vec::new();
    q.push('"');
    assert(q@ =~= seq!['"']);
    let n = quoted_at(s, p, &q);
    if n > 0 {
        return Some(("string", n));
    }
    let mut i: usize = 0;
    while i < 24
        invariant
            0 <= i <= 24,
            p <= s.len(),
            feel_op_from(s@, p as int, 0) == feel_op_from(s@, p as int, i as int),
            run_len(s@, p as int, CharClass::Space) == 0,
            line_comment_len(s@, p as int) == 0,
            block_comment_len(s@, p as int) == 0,
            keyword_len(s@, p as int) == 0,
            quoted_len(s@, p as int, seq!['@', '"']) == 0,
            quoted_len(s@, p as int, seq!['"']) == 0,
        decreases 24 - i,
    {
        let op = feel_op_str(i);
        let opv = chars_of(op);
        if chars_start_at(s, p, &opv) {
            return Some((op, opv.len()));
        }
        i = i + 1;
    }
    let n = number_at(s, p);
    if n > 0 {
        return Some(("number", n));
    }
    if p < s.len() && crate::lexing::class_has(&CharClass::NameStart, s[p]) {
        let e = scan_run(s, p + 1, &CharClass::NamePart);
        return Some(("name", e - p));
    }
    None
}

/// The next token of `s` from `p` that is not white space or a comment:
/// its kind, start and end, or the index where no token rule applies.
/// At the end of the text the token is `eof`, empty.
pub open spec fn feel_next(s: Seq<char>, p: int) -> Result<(Seq<char>, int, int), int>
    decreases s.len() - p,
{
    if p < 0 || p >= s.len() {
        Ok(("eof"@, p, p))
    } else {
        match feel_token(s, p) {
            None => Err(p),
            Some((k, n)) => if k == "space"@ || k == "comment_singleline"@ || k
                == "comment_multiline"@ {
                if n > 0 && p + n <= s.len() {
                    feel_next(s, p + n)
                } else {
                    Err(p)
                }
            } else {
                Ok((k, p, p + n))
            },
        }
    }
}

pub proof fn lemma_feel_next(s: Seq<char>, p: int)
    requires
        0 <= p <= s.len(),
    ensures
        feel_next(s, p) matches Ok((k, a, b)) ==> p <= a <= b <= s.len() && (a < s.len() ==> a
            < b),
        feel_next(s, p) matches Err(f) ==> p <= f < s.len(),
    decreases s.len() - p,
{
    if p < s.len() {
        lemma_feel_token(s, p);
        if let Some((k, n)) = feel_token(s, p) {
            if (k == "space"@ || k == "comment_singleline"@ || k == "comment_multiline"@) && n
                > 0 && p + n <= s.len() {
                lemma_feel_next(s, p + n);
            }
        }
    }
}

/// The position of index `k` of `s`, as a `TextPosition` view.
pub open spec fn pos_at(s: Seq<char>, k: int) -> (int, int, int) {
    position_of(s.take(k))
}

/// The lexer over one input text.
pub struct Scanner<'a> {
    input: &'a str,
    text: Vec<char>,
    offset: usize,
    cursor: TextPosition,
    current: Option<Token>,
}

impl<'a> Scanner<'a> {
    /// The characters of the input.
    pub closed spec fn text(&self) -> Seq<char> {
        self.text@
    }

    /// Index, in characters, up to which the input has been read.
    pub closed spec fn offset(&self) -> int {
        self.offset as int
    }

    /// The token read last.
    pub closed spec fn current(&self) -> Option<Token> {
        self.current
    }

    /// The scan position stands at `offset`, and the cursor is its position.
    pub closed spec fn wf(&self) -> bool {
        &&& self.text@ == self.input@
        &&& self.offset <= self.text.len()
        &&& self.cursor@ == pos_at(self.text@, self.offset as int)
        &&& utf8_len(self.text@) <= usize::MAX
    }

    proof fn lemma_pos_fits(&self, k: int)
        requires
            self.text@ == self.input@,
            utf8_len(self.text@) <= usize::MAX,
            0 <= k <= self.text@.len(),
        ensures
            pos_at(self.text@, k).0 <= usize::MAX,
            pos_at(self.text@, k).1 <= usize::MAX,
            pos_at(self.text@, k).2 <= usize::MAX,
    {
        lemma_pos_bounds(self.text@, k);
    }

    pub fn new(input: &'a str) -> (r: Scanner<'a>)
        requires
            utf8_len(input@) <= usize::MAX,
        ensures
            r.wf(),
            r.text() == input@,
            r.offset() == 0,
            r.current() is None,
    {
        let text = str_chars(input);
        let r = Scanner { input, text, offset: 0, cursor: TextPosition::zero(), current: None };
        assert(r.text@.take(0) =~= Seq::<char>::empty());
        assert(crate::position::newline_count(Seq::<char>::empty()) == 0);
        assert(crate::position::last_line(Seq::<char>::empty()) =~= Seq::<char>::empty());
        assert(vstd::utf8::encode_utf8(Seq::<char>::empty()) =~= Seq::<u8>::empty());
        r
    }

    /// Whether the whole input has been read.
    pub fn is_eof(&self) -> (r: bool)
        requires
            self.wf(),
        ensures
            r == (self.offset() >= self.text().len()),
    {
        proof {
            let s = self.text@;
            let k = self.offset as int;
            lemma_utf8_len_take_mono(s, k, s.len() as int);
            assert(s.take(s.len() as int) =~= s);
        }
        self.cursor.chars >= self.input.len()
    }

    /// The input between two byte offsets, both at character boundaries.
    pub fn text_range(&self, start: usize, end: usize) -> (r: String)
        requires
            self.wf(),
            exists|a: int, b: int|
                0 <= a <= b <= self.text().len() && utf8_len(self.text().take(a)) == start
                    && utf8_len(self.text().take(b)) == end,
        ensures
            exists|a: int, b: int|
                0 <= a <= b <= self.text().len() && utf8_len(self.text().take(a)) == start
                    && utf8_len(self.text().take(b)) == end && r@ == self.text().subrange(a, b),
    {
        let a = char_index_of(&self.text, start);
        let b = char_index_of(&self.text, end);
        let ghost (ga, gb) = choose|a: int, b: int|
            0 <= a <= b <= self.text().len() && utf8_len(self.text().take(a)) == start
                && utf8_len(self.text().take(b)) == end;
        proof {
            lemma_take_utf8_unique(self.text@, a as int, ga);
            lemma_take_utf8_unique(self.text@, b as int, gb);
        }
        string_from_chars(&self.text, a, b)
    }

    /// The token read last; there must be one.
    pub fn current_token(&self) -> (r: Token)
        requires
            self.current() is Some,
        ensures
            r == self.current()->0,
    {
        match &self.current {
            Some(t) => t.clone(),
            None => {
                assert(false);
                self.current.clone().unwrap()
            },
        }
    }

    pub fn expect(&self, kind: &str) -> (r: bool)
        ensures
            r == (self.current() is Some && self.current()->0.kind@ == kind@),
    {
        match &self.current {
            Some(t) => t.expect(kind),
            None => false,
        }
    }

    pub fn expect_kinds(&self, kinds: &[&str]) -> (r: bool)
        ensures
            r == (self.current() is Some && str_in(kinds@, self.current()->0.kind@)),
    {
        match &self.current {
            Some(t) => t.expect_kinds(kinds),
            None => false,
        }
    }

    pub fn expect_keyword(&self, keyword: &str) -> (r: bool)
        ensures
            r == (self.current() is Some && self.current()->0.kind@ == "keyword"@
                && self.current()->0.value@ == keyword@),
    {
        match &self.current {
            Some(t) => t.expect_keyword(keyword),
            None => false,
        }
    }

    pub fn expect_keywords(&self, keywords: &[&str]) -> (r: bool)
        ensures
            r == (self.current() is Some && self.current()->0.kind@ == "keyword"@ && str_in(
                keywords@,
                self.current()->0.value@,
            )),
    {
        match &self.current {
            Some(t) => t.expect_keywords(keywords),
            None => false,
        }
    }

    /// Reads the next token that is not white space or a comment.
    pub fn next_token(&mut self) -> (r: Result<(), ScanError>)
        requires
            old(self).wf(),
        ensures
            final(self).wf(),
            final(self).text() == old(self).text(),
            match feel_next(old(self).text(), old(self).offset()) {
                Ok((k, a, b)) => {
                    &&& r is Ok
                    &&& final(self).offset() == b
                    &&& final(self).current() matches Some(t) && t.kind@ == k && t.value@
                        == old(self).text().subrange(a, b) && t.position@ == pos_at(
                        old(self).text(),
                        a,
                    )
                },
                Err(f) => {
                    &&& r matches Err(e) && e.message@ == "fail to find token"@
                    &&& final(self).offset() == f
                    &&& final(self).current() == old(self).current()
                },
            },
    {
        proof {
            lemma_feel_next(self.text@, self.offset as int);
        }
        loop
            invariant
                self.wf(),
                self.text@ == old(self).text@,
                feel_next(old(self).text(), old(self).offset()) == feel_next(
                    self.text@,
                    self.offset as int,
                ),
                self.current == old(self).current,
            decreases self.text.len() - self.offset,
        {
            if self.offset >= self.text.len() {
                let t = Token { kind: "eof", value: String::new(), position: self.cursor };
                self.current = Some(t);
                assert(self.text@.subrange(self.offset as int, self.offset as int)
                    =~= Seq::<char>::empty());
                return Ok(());
            }
            proof {
                lemma_feel_token(self.text@, self.offset as int);
            }
            match feel_token_at(&self.text, self.offset) {
                None => {
                    let e = ScanError::from_str("fail to find token");
                    return Err(e);
                },
                Some((kind, n)) => {
                    let start = self.offset;
                    let end = start + n;
                    let value = string_from_chars(&self.text, start, end);
                    proof {
                        self.lemma_pos_fits(end as int);
                        assert(self.text@.take(end as int) =~= self.text@.take(start as int)
                            + value@);
                        lemma_advance_concat((0, 0, 0), self.text@.take(start as int), value@);
                    }
                    let position = self.cursor;
                    let next_cursor = self.cursor.increase(value.as_str());
                    let skip = str_eq(kind, "space") || str_eq(kind, "comment_singleline")
                        || str_eq(kind, "comment_multiline");
                    self.offset = end;
                    self.cursor = next_cursor;
                    if !skip {
                        let t = Token { kind, value, position };
                        self.current = Some(t);
                        return Ok(());
                    }
                },
            }
        }
    }

    /// Moves back to just after `token`, which was read from this input at
    /// character index `at`, and makes it the current token.
    pub fn rewind(&mut self, token: Token)
        requires
            old(self).wf(),
            exists|at: int|
                0 <= at && at + token.value@.len() <= old(self).text().len() && pos_at(
                    old(self).text(),
                    at,
                ) == token.position@ && old(self).text().subrange(at, at + token.value@.len())
                    == token.value@,
        ensures
            final(self).wf(),
            final(self).text() == old(self).text(),
            final(self).current() == Some(token),
            exists|at: int|
                0 <= at && at + token.value@.len() <= old(self).text().len() && pos_at(
                    old(self).text(),
                    at,
                ) == token.position@ && old(self).text().subrange(at, at + token.value@.len())
                    == token.value@ && final(self).offset() == at + token.value@.len(),
    {
        let at = char_index_of(&self.text, token.position.chars);
        let ghost gat = choose|at: int|
            0 <= at && at + token.value@.len() <= old(self).text().len() && pos_at(
                old(self).text(),
                at,
            ) == token.position@ && old(self).text().subrange(at, at + token.value@.len())
                == token.value@;
        proof {
            lemma_take_utf8_unique(self.text@, at as int, gat);
            let s = self.text@;
            let e = gat + token.value@.len();
            self.lemma_pos_fits(e);
            assert(s.take(e) =~= s.take(gat) + token.value@);
            lemma_advance_concat((0, 0, 0), s.take(gat), token.value@);
        }
        let vlen = str_chars(token.value.as_str()).len();
        self.cursor = token.position.increase(token.value.as_str());
        self.offset = at + vlen;
        self.current = Some(token);
    }

}

/// The position of a prefix of `s` is bounded by the byte length of `s`.
pub proof fn lemma_pos_bounds(s: Seq<char>, k: int)
    requires
        0 <= k <= s.len(),
    ensures
        pos_at(s, k).0 <= utf8_len(s),
        pos_at(s, k).1 <= utf8_len(s),
        pos_at(s, k).2 <= utf8_len(s),
{
    let t = s.take(k);
    lemma_utf8_len_take_mono(s, k, s.len() as int);
    assert(s.take(s.len() as int) =~= s);
    lemma_newline_count_bound(t);
    lemma_utf8_len_bound(t);
}

/// Character indices are ordered as their byte offsets.
pub proof fn lemma_take_utf8_unique(s: Seq<char>, a: int, b: int)
    requires
        0 <= a <= s.len(),
        0 <= b <= s.len(),
        utf8_len(s.take(a)) == utf8_len(s.take(b)),
    ensures
        a == b,
{
    if a < b {
        lemma_utf8_len_take_mono(s, a, b);
    } else if b < a {
        lemma_utf8_len_take_mono(s, b, a);
    }
}

/// The character index whose byte offset is `bytes`, where there is one.
fn char_index_of(v: &Vec<char>, bytes: usize) -> (r: usize)
    ensures
        r <= v.len(),
        (exists|a: int| 0 <= a <= v@.len() && utf8_len(v@.take(a)) == bytes) ==> utf8_len(
            v@.take(r as int),
        ) == bytes,
{
    let mut i: usize = 0;
    let mut b: usize = 0;
    proof {
        assert(v@.take(0) =~= Seq::<char>::empty());
        assert(vstd::utf8::encode_utf8(Seq::<char>::empty()) =~= Seq::<u8>::empty());
    }
    while i < v.len() && b < bytes
        invariant
            0 <= i <= v.len(),
            b == utf8_len(v@.take(i as int)),
            b <= bytes,
            forall|a: int| 0 <= a < i ==> utf8_len(#[trigger] v@.take(a)) < bytes,
        decreases v.len() - i,
    {
        proof {
            lemma_utf8_len_take_step(v@, i as int);
        }
        let w = utf8_width(v[i]);
        if w > bytes - b {
            proof {
                assert forall|a: int| 0 <= a <= v@.len() implies utf8_len(#[trigger] v@.take(a))
                    != bytes by {
                    if a > i {
                        lemma_utf8_len_take_mono(v@, i + 1, a);
                    }
                }
            }
            return i;
        }
        b = b + w;
        i = i + 1;
    }
    proof {
        if b < bytes {
            assert forall|a: int| 0 <= a <= v@.len() implies utf8_len(#[trigger] v@.take(a))
                != bytes by {}
        }
    }
    i
}

/// Whether the text from `p` to `a` is made of white space and comments
/// only, token after token.
pub open spec fn skipped(s: Seq<char>, p: int, a: int) -> bool
    decreases s.len() - p,
{
    if p == a {
        true
    } else if p < 0 || p >= s.len() {
        false
    } else {
        match feel_token(s, p) {
            Some((k, n)) => if (k == "space"@ || k == "comment_singleline"@ || k
                == "comment_multiline"@) && n > 0 && p + n <= a && p + n <= s.len() {
                skipped(s, p + n, a)
            } else {
                false
            },
            None => false,
        }
    }
}

/// What `next_token` reads from `p`: only white space and comments lie
/// before the token, and the token is neither; at the end of the text it
/// is `eof`.
pub proof fn lemma_next_skips(s: Seq<char>, p: int)
    requires
        0 <= p <= s.len(),
    ensures
        feel_next(s, p) matches Ok((k, a, b)) ==> {
            &&& skipped(s, p, a)
            &&& k != "space"@ && k != "comment_singleline"@ && k != "comment_multiline"@
            &&& (a >= s.len() ==> k == "eof"@ && a == b)
        },
    decreases s.len() - p,
{
    reveal_strlit("eof");
    reveal_strlit("space");
    reveal_strlit("comment_singleline");
    reveal_strlit("comment_multiline");
    assert("eof"@.len() == 3 && "space"@.len() == 5);
    assert("eof"@ != "space"@ && "eof"@ != "comment_singleline"@ && "eof"@ != "comment_multiline"@);
    if p < s.len() {
        lemma_feel_token(s, p);
        if let Some((k, n)) = feel_token(s, p) {
            if (k == "space"@ || k == "comment_singleline"@ || k == "comment_multiline"@) && n > 0
                && p + n <= s.len() {
                lemma_next_skips(s, p + n);
                lemma_feel_next(s, p + n);
            }
        }
    }
}

/// Rewinding to a token that `next_token` read from `a` to `b` puts the
/// scanner just after it, at `b`, where reading went on before: the index
/// `at` that `rewind` finds for the token's position is `a` itself, so the
/// next token read again is the one read before.
pub proof fn lemma_rewind_resumes(s: Seq<char>, a: int, b: int, at: int)
    requires
        0 <= a <= b <= s.len(),
        0 <= at,
        at + (b - a) <= s.len(),
        pos_at(s, at) == pos_at(s, a),
    ensures
        at + (b - a) == b,
        feel_next(s, at + (b - a)) == feel_next(s, b),
{
    lemma_take_utf8_unique(s, at, a);
}

/// The end of the input is reached exactly when the text read so far, up
/// to the end of the last token (its position in bytes plus the bytes of
/// its value), covers the whole input.
pub proof fn lemma_eof_when_consumed(s: Seq<char>, a: int, b: int)
    requires
        0 <= a <= b <= s.len(),
    ensures
        (b >= s.len()) <==> (utf8_len(s.take(a)) + utf8_len(s.subrange(a, b)) >= utf8_len(s)),
{
    crate::text::lemma_utf8_len_concat(s.take(a), s.subrange(a, b));
    assert(s.take(a) + s.subrange(a, b) =~= s.take(b));
    assert(s.take(s.len() as int) =~= s);
    if b < s.len() {
        crate::text::lemma_utf8_len_take_mono(s, b, s.len() as int);
    }
}

} // verus!
