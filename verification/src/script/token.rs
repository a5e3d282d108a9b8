//! The script lexer: tokens with byte offsets.
use crate::lexing::{
    block_comment_at, block_comment_len, class_has, in_class, keyword_at, keyword_len,
    lemma_run_len_bound, line_comment_at, line_comment_len, number_at, number_len, quoted_at,
    quoted_len, run_len, scan_run, CharClass,
};
use crate::scan::{feel_op, feel_op_str, lemma_feel_op_len, str_in, str_in_slice};
use crate::text::{
    chars_start_at, lemma_utf8_len_concat, lemma_utf8_len_take_mono, starts_at, str_chars, str_eq,
    string_from_chars, utf8_len,
};
use vstd::prelude::*;
use vstd::string::StringSliceAdditionalSpecFns;

verus! {

/// A token: its kind, its text and the byte offset where it starts.
#[derive(Debug)]
pub struct Token {
    pub kind: &'static str,
    pub value: String,
    pub position: usize,
}

impl Clone for Token {
    fn clone(&self) -> (r: Self)
        ensures
            r == *self,
    {
        Token { kind: self.kind, value: self.value.clone(), position: self.position }
    }
}

impl Token {
    pub fn expect(&self, kind: &str) -> (r: bool)
        ensures
            r == (self.kind@ == kind@),
    {
        str_eq(self.kind, kind)
    }

    pub fn expect_kinds(&self, kinds: &[&str]) -> (r: bool)
        ensures
            r == str_in(kinds@, self.kind@),
    {
        str_in_slice(kinds, self.kind)
    }

    pub fn expect_keyword(&self, keyword: &str) -> (r: bool)
        ensures
            r == (self.kind@ == "keyword"@ && self.value@ == keyword@),
    {
        if !str_eq(self.kind, "keyword") {
            return false;
        }
        str_eq(self.value.as_str(), keyword)
    }

    pub fn expect_keywords(&self, keywords: &[&str]) -> (r: bool)
        ensures
            r == (self.kind@ == "keyword"@ && str_in(keywords@, self.value@)),
    {
        if !str_eq(self.kind, "keyword") {
            return false;
        }
        str_in_slice(keywords, self.value.as_str())
    }
}

/// The operators of this lexer, in the order it tries them: `?` first,
/// then those of the FEEL lexer.
pub open spec fn script_op(i: int) -> Seq<char> {
    if i == 0 {
        "?"@
    } else {
        feel_op(i - 1)
    }
}

pub fn script_op_str(i: usize) -> (r: &'static str)
    requires
        i < 25,
    ensures
        r@ == script_op(i as int),
{
    if i == 0 {
        "?"
    } else {
        feel_op_str(i - 1)
    }
}

/// Index of the first operator, from the `i`-th on, that stands at `p`.
pub open spec fn script_op_from(s: Seq<char>, p: int, i: int) -> Option<int>
    decreases 25 - i,
{
    if i < 0 || i >= 25 {
        None
    } else if starts_at(s, p, script_op(i)) {
        Some(i)
    } else {
        script_op_from(s, p, i + 1)
    }
}

pub proof fn lemma_script_op_from(s: Seq<char>, p: int, i: int)
    requires
        0 <= i,
    ensures
        script_op_from(s, p, i) matches Some(j) ==> 0 <= j < 25 && starts_at(s, p, script_op(j))
            && script_op(j).len() >= 1,
    decreases 25 - i,
{
    if i < 25 && !starts_at(s, p, script_op(i)) {
        lemma_script_op_from(s, p, i + 1);
    }
    reveal_strlit("?");
    if i > 0 {
        lemma_feel_op_len(i - 1);
    }
}

/// Length of a name at `p`: one word; a name of several words is read
/// by the parser from consecutive name tokens.
pub open spec fn script_name_len(s: Seq<char>, p: int) -> nat {
    if 0 <= p < s.len() && in_class(CharClass::WordStart, s[p]) {
        (1 + run_len(s, p + 1, CharClass::WordPart)) as nat
    } else {
        0
    }
}

/// The token rule that applies at `p`, tried in order: white space, line
/// comment, block comment, keyword, temporal literal, string, number,
/// operator, name.  Gives the token's kind and its length.
pub open spec fn script_token(s: Seq<char>, p: int) -> Option<(Seq<char>, nat)> {
    if run_len(s, p, CharClass::Space) > 0 {
        Some(("space"@, run_len(s, p, CharClass::Space)))
    } else if line_comment_len(s, p) > 0 {
        Some(("comment_singleline"@, line_comment_len(s, p)))
    } else if block_comment_len(s, p) > 0 {
        Some(("comment_multiline"@, block_comment_len(s, p)))
    } else if keyword_len(s, p) > 0 {
        Some(("keyword"@, keyword_len(s, p)))
    } else if quoted_len(s, p, seq!['@', '"']) > 0 {
        Some(("temporal"@, quoted_len(s, p, seq!['@', '"'])))
    } else if quoted_len(s, p, seq!['"']) > 0 {
        Some(("string"@, quoted_len(s, p, seq!['"'])))
    } else if number_len(s, p) > 0 {
        Some(("number"@, number_len(s, p)))
    } else if script_op_from(s, p, 0) is Some {
        let i = script_op_from(s, p, 0)->0;
        Some((script_op(i), script_op(i).len()))
    } else if script_name_len(s, p) > 0 {
        Some(("name"@, script_name_len(s, p)))
    } else {
        None
    }
}

pub proof fn lemma_script_token(s: Seq<char>, p: int)
    requires
        0 <= p <= s.len(),
    ensures
        script_token(s, p) matches Some((k, n)) ==> 1 <= n && p + n <= s.len(),
{
    lemma_run_len_bound(s, p, CharClass::Space);
    crate::scan::lemma_feel_token(s, p);
    if p + 1 <= s.len() {
        crate::scan::lemma_feel_token(s, p + 1);
        lemma_run_len_bound(s, p + 1, CharClass::Digit);
        let q = p + 1 + run_len(s, p + 1, CharClass::Digit);
        if q < s.len() {
            lemma_run_len_bound(s, q + 1, CharClass::Digit);
        }
        lemma_run_len_bound(s, p + 1, CharClass::WordPart);
    }
    lemma_run_len_bound(s, p, CharClass::Digit);
    let q = p + run_len(s, p, CharClass::Digit);
    if q < s.len() {
        lemma_run_len_bound(s, q + 1, CharClass::Digit);
    }
    lemma_script_op_from(s, p, 0);
}

pub fn script_token_at(s: &Vec<char>, p: usize) -> (r: Option<(&'static str, usize)>)
    requires
        p <= s.len(),
    ensures
        match r {
            Some((k, n)) => script_token(s@, p as int) == Some((k@, n as nat)),
            None => script_token(s@, p as int) is None,
        },
{
    let n = scan_run(s, p, &CharClass::Space) - p;
    if n > 0 {
        return Some(("space", n));
    }
    let n = line_comment_at(s, p);
    if n > 0 {
        return Some(("comment_singleline", n));
    }
    let n = block_comment_at(s, p);
    if n > 0 {
        return Some(("comment_multiline", n));
    }
    let n = keyword_at(s, p);
    if n > 0 {
        return Some(("keyword", n));
    }
    let mut at_q: Vec<char> = Vec::new();
    at_q.push('@');
    at_q.push('"');
    assert(at_q@ =~= seq!['@', '"']);
    let n = quoted_at(s, p, &at_q);
    if n > 0 {
        return Some(("temporal", n));
    }
    let mut q: Vec<char> = Vec::new();
    q.push('"');
    assert(q@ =~= seq!['"']);
    let n = quoted_at(s, p, &q);
    if n > 0 {
        return Some(("string", n));
    }
    let n = number_at(s, p);
    if n > 0 {
        return Some(("number", n));
    }
    let mut i: usize = 0;
    while i < 25
        invariant
            0 <= i <= 25,
            p <= s.len(),
            script_op_from(s@, p as int, 0) == script_op_from(s@, p as int, i as int),
            run_len(s@, p as int, CharClass::Space) == 0,
            line_comment_len(s@, p as int) == 0,
            block_comment_len(s@, p as int) == 0,
            keyword_len(s@, p as int) == 0,
            quoted_len(s@, p as int, seq!['@', '"']) == 0,
            quoted_len(s@, p as int, seq!['"']) == 0,
            number_len(s@, p as int) == 0,
        decreases 25 - i,
    {
        let op = script_op_str(i);
        let opv = str_chars(op);
        if chars_start_at(s, p, &opv) {
            return Some((op, opv.len()));
        }
        i = i + 1;
    }
    if p < s.len() && class_has(&CharClass::WordStart, s[p]) {
        let e = scan_run(s, p + 1, &CharClass::WordPart);
        return Some(("name", e - p));
    }
    None
}

/// The next token from `p` that is not white space or a comment: its kind,
/// start and end, or the index where no token rule applies.  At the end of
/// the text the token is `eof`, empty.
pub open spec fn script_next(s: Seq<char>, p: int) -> Result<(Seq<char>, int, int), int>
    decreases s.len() - p,
{
    if p < 0 || p >= s.len() {
        Ok(("eof"@, p, p))
    } else {
        match script_token(s, p) {
            None => Err(p),
            Some((k, n)) => if k == "space"@ || k == "comment_singleline"@ || k
                == "comment_multiline"@ {
                if n > 0 && p + n <= s.len() {
                    script_next(s, p + n)
                } else {
                    Err(p)
                }
            } else {
                Ok((k, p, p + n))
            },
        }
    }
}

pub proof fn lemma_script_next(s: Seq<char>, p: int)
    requires
        0 <= p <= s.len(),
    ensures
        script_next(s, p) matches Ok((k, a, b)) ==> p <= a <= b <= s.len() && (a < s.len() ==> a
            < b) && (a == s.len() ==> b == a),
        script_next(s, p) matches Err(f) ==> p <= f < s.len(),
    decreases s.len() - p,
{
    if p < s.len() {
        lemma_script_token(s, p);
        if let Some((k, n)) = script_token(s, p) {
            if (k == "space"@ || k == "comment_singleline"@ || k == "comment_multiline"@) && n
                > 0 && p + n <= s.len() {
                lemma_script_next(s, p + n);
            }
        }
    }
}

/// The tokens read one after another from `p` until the end of the text
/// (the last one may be `eof`), as `(kind, start, end)`; or the index where
/// no token rule applies.
pub open spec fn script_tokens(s: Seq<char>, p: int) -> Result<Seq<(Seq<char>, int, int)>, int>
    decreases s.len() - p,
{
    if p < 0 || p >= s.len() {
        Ok(Seq::empty())
    } else {
        match script_next(s, p) {
            Err(f) => Err(f),
            Ok((k, a, b)) => if p < b <= s.len() {
                match script_tokens(s, b) {
                    Ok(rest) => Ok(seq![(k, a, b)] + rest),
                    Err(f) => Err(f),
                }
            } else {
                Err(p)
            },
        }
    }
}

/// Whether `t` is the token `(kind, start, end)` of the text `s`.
pub open spec fn token_is(t: Token, s: Seq<char>, spec_tok: (Seq<char>, int, int)) -> bool {
    &&& t.kind@ == spec_tok.0
    &&& t.value@ == s.subrange(spec_tok.1, spec_tok.2)
    &&& t.position == utf8_len(s.take(spec_tok.1))
}

/// The script lexer over one input text.
pub struct Scanner<'a> {
    input: &'a str,
    text: Vec<char>,
    offset: usize,
    cursor: usize,
    current: Option<Token>,
}

impl<'a> Scanner<'a> {
    /// The characters of the input.
    pub closed spec fn text(&self) -> Seq<char> {
        self.text@
    }

    /// Index, in characters, up to which the input has been read.
    pub closed spec fn offset(&self) -> int {
        self.offset as int
    }

    /// The token read last.
    pub closed spec fn current(&self) -> Option<Token> {
        self.current
    }

    pub closed spec fn wf(&self) -> bool {
        &&& self.text@ == self.input@
        &&& self.offset <= self.text.len()
        &&& self.cursor == utf8_len(self.text@.take(self.offset as int))
        &&& utf8_len(self.text@) <= usize::MAX
    }

    pub fn new(input: &'a str) -> (r: Scanner<'a>)
        requires
            utf8_len(input@) <= usize::MAX,
        ensures
            r.wf(),
            r.text() == input@,
            r.offset() == 0,
            r.current() is None,
    {
        let text = str_chars(input);
        let r = Scanner { input, text, offset: 0, cursor: 0, current: None };
        assert(r.text@.take(0) =~= Seq::<char>::empty());
        assert(vstd::utf8::encode_utf8(Seq::<char>::empty()) =~= Seq::<u8>::empty());
        r
    }

    pub proof fn lemma_offset(&self)
        requires
            self.wf(),
        ensures
            0 <= self.offset() <= self.text().len(),
    {
    }

    /// Index, in characters, up to which the input has been read.
    pub fn char_offset(&self) -> (r: usize)
        ensures
            r == self.offset(),
    {
        self.offset
    }

    /// Length of the input in characters.
    pub fn char_len(&self) -> (r: usize)
        requires
            self.wf(),
        ensures
            r == self.text().len(),
    {
        self.text.len()
    }

    /// Whether the token read last has a non-empty text.
    pub fn current_has_value(&self) -> (r: bool)
        ensures
            r == (self.current() is Some && self.current()->0.value@.len() > 0),
    {
        match &self.current {
            Some(t) => !t.value.as_str().is_empty(),
            None => false,
        }
    }

    /// Whether the whole input has been read.
    pub fn is_eof(&self) -> (r: bool)
        requires
            self.wf(),
        ensures
            r == (self.offset() >= self.text().len()),
    {
        proof {
            let s = self.text@;
            lemma_utf8_len_take_mono(s, self.offset as int, s.len() as int);
            assert(s.take(s.len() as int) =~= s);
        }
        self.cursor >= self.input.len()
    }

    /// The token read last, if any.
    pub fn current_token(&self) -> (r: Option<Token>)
        ensures
            r == self.current(),
    {
        match &self.current {
            Some(t) => Some(t.clone()),
            None => None,
        }
    }

    /// The token read last; there must be one.
    pub fn unwrap_current_token(&self) -> (r: Token)
        requires
            self.current() is Some,
        ensures
            r == self.current()->0,
    {
        match &self.current {
            Some(t) => t.clone(),
            None => {
                assert(false);
                self.current.clone().unwrap()
            },
        }
    }

    pub fn expect(&self, kind: &str) -> (r: bool)
        ensures
            r == (self.current() is Some && self.current()->0.kind@ == kind@),
    {
        match &self.current {
            Some(t) => t.expect(kind),
            None => false,
        }
    }

    pub fn expect_kinds(&self, kinds: &[&str]) -> (r: bool)
        ensures
            r == (self.current() is Some && str_in(kinds@, self.current()->0.kind@)),
    {
        match &self.current {
            Some(t) => t.expect_kinds(kinds),
            None => false,
        }
    }

    pub fn expect_keyword(&self, keyword: &str) -> (r: bool)
        ensures
            r == (self.current() is Some && self.current()->0.kind@ == "keyword"@
                && self.current()->0.value@ == keyword@),
    {
        match &self.current {
            Some(t) => t.expect_keyword(keyword),
            None => false,
        }
    }

    pub fn expect_keywords(&self, keywords: &[&str]) -> (r: bool)
        ensures
            r == (self.current() is Some && self.current()->0.kind@ == "keyword"@ && str_in(
                keywords@,
                self.current()->0.value@,
            )),
    {
        match &self.current {
            Some(t) => t.expect_keywords(keywords),
            None => false,
        }
    }

    /// Reads the next token that is not white space or a comment.
    pub fn next_token(&mut self) -> (r: Result<(), String>)
        requires
            old(self).wf(),
        ensures
            final(self).wf(),
            final(self).text() == old(self).text(),
            match script_next(old(self).text(), old(self).offset()) {
                Ok((k, a, b)) => {
                    &&& r is Ok
                    &&& final(self).offset() == b
                    &&& final(self).current() matches Some(t) && token_is(
                        t,
                        old(self).text(),
                        (k, a, b),
                    )
                },
                Err(f) => {
                    &&& r matches Err(m) && m@ == "fail to find token"@
                    &&& final(self).offset() == f
                    &&& final(self).current() == old(self).current()
                },
            },
    {
        proof {
            lemma_script_next(self.text@, self.offset as int);
        }
        loop
            invariant
                self.wf(),
                self.text@ == old(self).text@,
                script_next(old(self).text(), old(self).offset()) == script_next(
                    self.text@,
                    self.offset as int,
                ),
                self.current == old(self).current,
            decreases self.text.len() - self.offset,
        {
            if self.offset >= self.text.len() {
                let t = Token { kind: "eof", value: String::new(), position: self.cursor };
                self.current = Some(t);
                assert(self.text@.subrange(self.offset as int, self.offset as int)
                    =~= Seq::<char>::empty());
                return Ok(());
            }
            proof {
                lemma_script_token(self.text@, self.offset as int);
            }
            match script_token_at(&self.text, self.offset) {
                None => {
                    return Err("fail to find token".to_owned());
                },
                Some((kind, n)) => {
                    let start = self.offset;
                    let end = start + n;
                    let value = string_from_chars(&self.text, start, end);
                    let position = self.cursor;
                    proof {
                        let s = self.text@;
                        assert(s.take(end as int) =~= s.take(start as int) + value@);
                        lemma_utf8_len_concat(s.take(start as int), value@);
                        lemma_utf8_len_take_mono(s, end as int, s.len() as int);
                        assert(s.take(s.len() as int) =~= s);
                    }
                    let skip = str_eq(kind, "space") || str_eq(kind, "comment_singleline")
                        || str_eq(kind, "comment_multiline");
                    self.offset = end;
                    self.cursor = self.cursor + value.as_str().len();
                    if !skip {
                        let t = Token { kind, value, position };
                        self.current = Some(t);
                        return Ok(());
                    }
                },
            }
        }
    }

    /// Reads all tokens up to the end of the input.
    pub fn find_tokens(&mut self) -> (r: Result<Vec<Token>, String>)
        requires
            old(self).wf(),
        ensures
            final(self).wf(),
            final(self).text() == old(self).text(),
            match script_tokens(old(self).text(), old(self).offset()) {
                Ok(ts) => r matches Ok(v) && v@.len() == ts.len() && forall|i: int|
                    0 <= i < ts.len() ==> token_is(#[trigger] v@[i], old(self).text(), ts[i]),
                Err(f) => r matches Err(m) && m@ == "fail to find token"@,
            },
            r is Ok ==> final(self).offset() >= final(self).text().len(),
    {
        let mut tokens: Vec<Token> = Vec::new();
        let ghost s = self.text@;
        let ghost p0 = self.offset as int;
        let ghost mut acc: Seq<(Seq<char>, int, int)> = Seq::empty();
        loop
            invariant
                self.wf(),
                self.text@ == s,
                s == old(self).text(),
                p0 == old(self).offset(),
                p0 <= self.offset,
                match script_tokens(s, p0) {
                    Ok(ts) => script_tokens(s, self.offset as int) matches Ok(rest) && ts == acc
                        + rest,
                    Err(_) => script_tokens(s, self.offset as int) is Err,
                },
                tokens@.len() == acc.len(),
                forall|i: int| 0 <= i < acc.len() ==> token_is(#[trigger] tokens@[i], s, acc[i]),
            decreases self.text.len() - self.offset,
        {
            if self.is_eof() {
                return Ok(tokens);
            }
            proof {
                lemma_script_next(s, self.offset as int);
            }
            let ghost before = self.offset as int;
            match self.next_token() {
                Err(m) => {
                    return Err(m);
                },
                Ok(()) => {},
            }
            let t = self.unwrap_current_token();
            tokens.push(t);
            proof {
                let tok = match script_next(s, before) {
                    Ok(x) => x,
                    Err(_) => (Seq::empty(), 0, 0),
                };
                acc = acc.push(tok);
                if let Ok(ts) = script_tokens(s, p0) {
                    let rest = script_tokens(s, before)->Ok_0;
                    assert(rest == seq![tok] + script_tokens(s, self.offset as int)->Ok_0);
                    assert(ts == acc + script_tokens(s, self.offset as int)->Ok_0);
                }
            }
        }
    }
}

} // verus!
