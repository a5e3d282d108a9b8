//! The parser of FEEL scripts.  Each rule computes the function of
//! `grammar.rs` of the same name: the tree it builds and the lexer state it
//! leaves are those the grammar gives, and so is every error.
use crate::scan::{str_in, str_in_slice, ScanError};
use crate::script::ast::{
    lemma_args_view, lemma_boxes_view, lemma_items_view, lemma_nodes_view, lemma_strings_view,
    node_view, args_view, boxes_view, items_view, nodes_view, strings_view,
    FuncCallArg, MapNodeItem, Node, SArg, SItem, SNode,
};
use crate::script::grammar::{
    below, g_arg, g_args, g_bracket, g_bracket_list, g_call_rest, g_expression, g_for,
    g_function, g_if, g_leaf, g_level, g_level_rest, g_list_rest, g_map, g_map_item, g_map_items,
    g_map_key, g_multi_tests, g_name, g_neg, g_params, g_parse, g_postfix, g_postfix_rest,
    g_quantified, g_range_end, g_single, g_test, g_tests_rest, g_top, has_value, is_compare_op,
    is_kind, is_kw, level_op, name_of, rank, stalled, step, unexpect, unexpect_keyword, PState,
    PRes, SErr, SToken,
};
use crate::script::token::{Scanner, Token};
use crate::text::{push_str, str_eq, utf8_len};
use vstd::prelude::*;

verus! {

/// An error of the parser, or one of the lexer that it passes on.
#[derive(Debug)]
pub enum ParseError {
    Parse(String),
    Scan(ScanError),
}

pub open spec fn err_view(e: ParseError) -> SErr {
    match e {
        ParseError::Parse(m) => SErr::Parse(m@),
        ParseError::Scan(x) => SErr::Scan(x.message@),
    }
}

impl ParseError {
    pub fn new(message: String) -> (r: ParseError)
        ensures
            r == ParseError::Parse(message),
    {
        ParseError::Parse(message)
    }

    /// The message of the error, as it is printed.
    pub fn to_string(&self) -> (r: String)
        ensures
            r@ == match *self {
                ParseError::Parse(m) => "ParseError: "@ + m@,
                ParseError::Scan(x) => "ScanError: "@ + x.message@,
            },
    {
        let mut r = String::new();
        match self {
            ParseError::Parse(m) => {
                push_str(&mut r, "ParseError: ");
                push_str(&mut r, m.as_str());
            },
            ParseError::Scan(x) => {
                push_str(&mut r, "ScanError: ");
                push_str(&mut r, x.message.as_str());
            },
        }
        r
    }
}

pub open spec fn tok_view(t: Token) -> SToken {
    SToken { kind: t.kind@, value: t.value@ }
}

/// Whether `r` is what the grammar result `g` says, with the lexer left in
/// state `st`.
pub open spec fn node_result(r: Result<Box<Node>, ParseError>, st: PState, g: PRes) -> bool {
    match g {
        Ok((n, st2)) => r is Ok && node_view(*r->Ok_0) == n && st == st2,
        Err(e) => r is Err && err_view(r->Err_0) == e,
    }
}

/// The parser: a lexer over the input, and the token read last.
pub struct Parser<'a> {
    scanner: Scanner<'a>,
}

impl<'a> Parser<'a> {
    pub closed spec fn text(&self) -> Seq<char> {
        self.scanner.text()
    }

    pub closed spec fn state(&self) -> PState {
        PState {
            off: self.scanner.offset(),
            cur: match self.scanner.current() {
                Some(t) => Some(tok_view(t)),
                None => None,
            },
        }
    }

    pub closed spec fn wf(&self) -> bool {
        self.scanner.wf()
    }

    pub proof fn lemma_wf(&self)
        requires
            self.wf(),
        ensures
            0 <= self.state().off <= self.text().len(),
            0 <= rank(self.text(), self.state()),
    {
        self.scanner.lemma_offset();
    }

    pub fn new(input: &'a str) -> (r: Parser<'a>)
        requires
            utf8_len(input@) <= usize::MAX,
        ensures
            r.wf(),
            r.text() == input@,
            r.state() == (PState { off: 0, cur: None }),
    {
        Parser { scanner: Scanner::new(input) }
    }

    /// Reads the next token.
    fn goahead(&mut self) -> (r: Result<(), ParseError>)
        requires
            old(self).wf(),
        ensures
            final(self).wf(),
            final(self).text() == old(self).text(),
            old(self).state().cur is Some ==> final(self).state().cur is Some,
            match step(old(self).text(), old(self).state()) {
                Ok(st) => r is Ok && final(self).state() == st,
                Err(e) => r is Err && err_view(r->Err_0) == e,
            },
    {
        match self.scanner.next_token() {
            Ok(()) => Ok(()),
            Err(m) => Err(ParseError::Scan(ScanError { message: m })),
        }
    }

    /// Where the lexer stands: its offset and whether its token has text.
    fn mark(&self) -> (m: (usize, bool))
        requires
            self.wf(),
        ensures
            m.0 <= self.text().len(),
            m.0 == self.state().off,
            m.1 == has_value(self.state()),
    {
        proof {
            self.lemma_wf();
        }
        (self.scanner.char_offset(), self.scanner.current_has_value())
    }

    /// Whether going from the state marked `m` to the present one, and from
    /// rule tier `tier` to `tier2`, goes down the order of `below`.
    fn is_below(&self, m: (usize, bool), tier2: u8, tier: u8, Ghost(st): Ghost<PState>) -> (r: bool)
        requires
            self.wf(),
            m.0 == st.off,
            m.1 == has_value(st),
            m.0 <= self.text().len(),
        ensures
            r == below(self.text(), self.state(), tier2 as int, st, tier as int),
    {
        proof {
            self.lemma_wf();
        }
        let len = self.scanner.char_len();
        let (off2, has2) = self.mark();
        let r1: u128 = 2 * ((len - m.0) as u128) + if m.1 {
            1u128
        } else {
            0u128
        };
        let r2: u128 = 2 * ((len - off2) as u128) + if has2 {
            1u128
        } else {
            0u128
        };
        r2 < r1 || (r2 == r1 && tier2 < tier)
    }

    fn expect(&self, kind: &str) -> (r: bool)
        ensures
            r == is_kind(self.state(), kind@),
    {
        self.scanner.expect(kind)
    }

    fn expect_keyword(&self, keyword: &str) -> (r: bool)
        ensures
            r == is_kw(self.state(), keyword@),
    {
        self.scanner.expect_keyword(keyword)
    }

    fn expect_compare_op(&self) -> (r: bool)
        ensures
            r == is_compare_op(self.state()),
    {
        self.expect(">") || self.expect(">=") || self.expect("<") || self.expect("<=")
            || self.expect("!=") || self.expect("=")
    }

    fn expect_level_op(&self, lvl: u8) -> (r: bool)
        ensures
            r == level_op(self.state(), lvl as int),
    {
        if lvl == 6 {
            self.expect_keyword("in")
        } else if lvl == 5 {
            self.expect_keyword("or")
        } else if lvl == 4 {
            self.expect_keyword("and")
        } else if lvl == 3 {
            self.expect_compare_op()
        } else if lvl == 2 {
            self.expect("+") || self.expect("-")
        } else {
            self.expect("*") || self.expect("/") || self.expect("%")
        }
    }

    fn current(&self) -> (t: Token)
        requires
            self.state().cur is Some,
        ensures
            tok_view(t) == self.state().cur->0,
    {
        self.scanner.unwrap_current_token()
    }

    fn unexpect(&self, expects: &str) -> (e: ParseError)
        requires
            self.state().cur is Some,
        ensures
            err_view(e) == unexpect(self.state(), expects@),
    {
        let t = self.current();
        let mut m = String::new();
        push_str(&mut m, "unexpected token ");
        push_str(&mut m, t.kind);
        push_str(&mut m, ", expect ");
        push_str(&mut m, expects);
        proof {
            assert(m@ =~= "unexpected token "@ + t.kind@ + ", expect "@ + expects@);
        }
        ParseError::new(m)
    }

    fn unexpect_keyword(&self, expects: &str) -> (e: ParseError)
        requires
            self.state().cur is Some,
        ensures
            err_view(e) == unexpect_keyword(self.state(), expects@),
    {
        let t = self.current();
        let mut m = String::new();
        push_str(&mut m, "unexpected keyword ");
        push_str(&mut m, t.value.as_str());
        push_str(&mut m, ", expect ");
        push_str(&mut m, expects);
        proof {
            assert(m@ =~= "unexpected keyword "@ + t.value@ + ", expect "@ + expects@);
        }
        ParseError::new(m)
    }

    fn stalled(&self) -> (e: ParseError)
        ensures
            err_view(e) == stalled(),
    {
        ParseError::new("expression consumed no input".to_owned())
    }

    /// Names and keywords joined by single spaces, up to one of the keywords
    /// `stop`.
    fn parse_name(&mut self, stop: &[&str]) -> (r: Result<String, ParseError>)
        requires
            old(self).wf(),
            old(self).state().cur is Some,
        ensures
            final(self).wf(),
            final(self).text() == old(self).text(),
            final(self).state().cur is Some,
            match g_name(old(self).text(), old(self).state(), stop@, Seq::empty()) {
                Ok((words, st)) => r is Ok && r->Ok_0@ == name_of(words) && final(self).state()
                    == st,
                Err(e) => r is Err && err_view(r->Err_0) == e,
            },
    {
        let ghost s = self.text();
        let ghost st0 = self.state();
        let ghost mut words: Seq<Seq<char>> = Seq::empty();
        let mut buf = String::new();
        let mut any = false;
        loop
            invariant
                self.wf(),
                self.text() == s,
                s == old(self).text(),
                st0 == old(self).state(),
                self.state().cur is Some,
                g_name(s, st0, stop@, Seq::empty()) == g_name(s, self.state(), stop@, words),
                buf@ == name_of(words),
                any == (words.len() > 0),
            decreases rank(s, self.state()),
        {
            proof {
                self.lemma_wf();
            }
            let go = (self.expect("name") || self.expect("keyword")) && !(self.expect("keyword")
                && str_in_slice(stop, self.current().value.as_str()));
            if !go {
                if !any {
                    return Err(self.unexpect("names"));
                }
                return Ok(buf);
            }
            let t = self.current();
            let m = self.mark();
            let ghost st = self.state();
            match self.goahead() {
                Err(e) => {
                    return Err(e);
                },
                Ok(()) => {},
            }
            if !self.is_below(m, 1, 1, Ghost(st)) {
                return Err(self.stalled());
            }
            if any {
                push_str(&mut buf, " ");
            }
            any = true;
            push_str(&mut buf, t.value.as_str());
            proof {
                let w2 = words.push(t.value@);
                assert(w2.subrange(0, w2.len() - 1) =~= words);
                if words.len() == 0 {
                    assert(buf@ =~= t.value@);
                } else {
                    assert(buf@ =~= name_of(words) + " "@ + t.value@);
                }
                words = w2;
            }
        }
    }
}

/// What a call rule gives once its argument list is read.
pub open spec fn call_of(func: SNode, g: Result<(Seq<SArg>, PState), SErr>) -> PRes {
    match g {
        Err(e) => Err(e),
        Ok((args, st)) => Ok((SNode::FuncCall { func_ref: Box::new(func), args }, st)),
    }
}

/// What a map rule gives once its items are read.
pub open spec fn map_of(g: Result<(Seq<SItem>, PState), SErr>) -> PRes {
    match g {
        Err(e) => Err(e),
        Ok((items, st)) => Ok((SNode::MapExpr(items), st)),
    }
}

impl<'a> Parser<'a> {
    /// A token read as a leaf of the tree.
    fn parse_leaf(&mut self, n: Node) -> (r: Result<Box<Node>, ParseError>)
        requires
            old(self).wf(),
            old(self).state().cur is Some,
        ensures
            final(self).wf(),
            final(self).text() == old(self).text(),
            final(self).state().cur is Some,
            node_result(r, final(self).state(), g_leaf(old(self).text(), old(self).state(), node_view(n))),
    {
        match self.goahead() {
            Err(e) => Err(e),
            Ok(()) => Ok(Box::new(n)),
        }
    }

    /// A map key: a name, or a string.
    fn parse_map_key(&mut self) -> (r: Result<Box<Node>, ParseError>)
        requires
            old(self).wf(),
            old(self).state().cur is Some,
        ensures
            final(self).wf(),
            final(self).text() == old(self).text(),
            final(self).state().cur is Some,
            node_result(r, final(self).state(), g_map_key(old(self).text(), old(self).state())),
    {
        if self.expect("name") {
            let no_stop: [&str; 0] = [];
            proof {
                assert(no_stop@ =~= Seq::<&str>::empty());
            }
            match self.parse_name(&no_stop) {
                Err(e) => Err(e),
                Ok(name) => Ok(Box::new(Node::Ident(name))),
            }
        } else if self.expect("string") {
            let v = self.current().value;
            self.parse_leaf(Node::Str(v))
        } else {
            Err(self.unexpect("name or string"))
        }
    }

    /// The parameter names of a function definition, through its `)`.
    fn parse_params(&mut self) -> (r: Result<Vec<String>, ParseError>)
        requires
            old(self).wf(),
            old(self).state().cur is Some,
        ensures
            final(self).wf(),
            final(self).text() == old(self).text(),
            final(self).state().cur is Some,
            match g_params(old(self).text(), Seq::empty(), old(self).state()) {
                Ok((names, st)) => r is Ok && strings_view(r->Ok_0@) == names && final(self).state()
                    == st,
                Err(e) => r is Err && err_view(r->Err_0) == e,
            },
    {
        let ghost s = self.text();
        let ghost st0 = self.state();
        let mut names: Vec<String> = Vec::new();
        let no_stop: [&str; 0] = [];
        proof {
            assert(no_stop@ =~= Seq::<&str>::empty());
        }
        loop
            invariant
                self.wf(),
                self.text() == s,
                s == old(self).text(),
                st0 == old(self).state(),
                self.state().cur is Some,
                no_stop@ == Seq::<&str>::empty(),
                g_params(s, Seq::empty(), st0) == g_params(s, strings_view(names@), self.state()),
            decreases rank(s, self.state()),
        {
            proof {
                self.lemma_wf();
            }
            if self.expect(")") {
                match self.goahead() {
                    Err(e) => {
                        return Err(e);
                    },
                    Ok(()) => {
                        return Ok(names);
                    },
                }
            }
            let m = self.mark();
            let ghost sti = self.state();
            let name = match self.parse_name(&no_stop) {
                Err(e) => {
                    return Err(e);
                },
                Ok(name) => name,
            };
            let ghost old_names = names@;
            names.push(name);
            proof {
                assert(names@.subrange(0, names@.len() - 1) =~= old_names);
            }
            if self.expect(",") {
                match self.goahead() {
                    Err(e) => {
                        return Err(e);
                    },
                    Ok(()) => {},
                }
                if !self.is_below(m, 6, 6, Ghost(sti)) {
                    return Err(self.stalled());
                }
            } else if !self.expect(")") {
                return Err(self.unexpect("')'"));
            } else {
                match self.goahead() {
                    Err(e) => {
                        return Err(e);
                    },
                    Ok(()) => {
                        return Ok(names);
                    },
                }
            }
        }
    }
}

impl<'a> Parser<'a> {
    fn parse_expression(&mut self) -> (r: Result<Box<Node>, ParseError>)
        requires
            old(self).wf(),
            old(self).state().cur is Some,
        ensures
            final(self).wf(),
            final(self).text() == old(self).text(),
            final(self).state().cur is Some,
            node_result(r, final(self).state(), g_expression(old(self).text(), old(self).state())),
        decreases rank(old(self).text(), old(self).state()), 24int,
    {
        self.parse_level(6)
    }

    /// Binary operators of level `lvl`, left associative.
    fn parse_level(&mut self, lvl: u8) -> (r: Result<Box<Node>, ParseError>)
        requires
            old(self).wf(),
            old(self).state().cur is Some,
        ensures
            final(self).wf(),
            final(self).text() == old(self).text(),
            final(self).state().cur is Some,
            node_result(r, final(self).state(), g_level(old(self).text(), old(self).state(), lvl as nat)),
        decreases rank(old(self).text(), old(self).state()), 2 * lvl + 11,
    {
        if lvl == 0 || lvl > 6 {
            return self.parse_postfix();
        }
        let ghost s = self.text();
        let ghost st = self.state();
        let m = self.mark();
        let mut left = match self.parse_level(lvl - 1) {
            Err(e) => {
                return Err(e);
            },
            Ok(n) => n,
        };
        if !self.is_below(m, 2 * lvl + 10, 2 * lvl + 11, Ghost(st)) {
            return Err(self.stalled());
        }
        loop
            invariant
                self.wf(),
                self.text() == s,
                s == old(self).text(),
                st == old(self).state(),
                self.state().cur is Some,
                1 <= lvl <= 6,
                g_level(s, st, lvl as nat) == g_level_rest(s, node_view(*left), self.state(), lvl as nat),
                0 <= rank(s, self.state()) <= rank(s, st),
            decreases rank(s, self.state()),
        {
            if !self.expect_level_op(lvl) {
                return Ok(left);
            }
            let op = self.current().value;
            let mi = self.mark();
            let ghost sti = self.state();
            match self.goahead() {
                Err(e) => {
                    return Err(e);
                },
                Ok(()) => {},
            }
            if !self.is_below(mi, 2 * lvl + 9, 2 * lvl + 10, Ghost(sti)) {
                return Err(self.stalled());
            }
            let right = match self.parse_level(lvl - 1) {
                Err(e) => {
                    return Err(e);
                },
                Ok(n) => n,
            };
            if !self.is_below(mi, 2 * lvl + 10, 2 * lvl + 10, Ghost(sti)) {
                return Err(self.stalled());
            }
            left = Box::new(Node::Binop { op, left, right });
        }
    }

    /// A single element followed by calls, indexing and attribute access.
    fn parse_postfix(&mut self) -> (r: Result<Box<Node>, ParseError>)
        requires
            old(self).wf(),
            old(self).state().cur is Some,
        ensures
            final(self).wf(),
            final(self).text() == old(self).text(),
            final(self).state().cur is Some,
            node_result(r, final(self).state(), g_postfix(old(self).text(), old(self).state())),
        decreases rank(old(self).text(), old(self).state()), 10int,
    {
        let ghost s = self.text();
        let ghost st = self.state();
        let m = self.mark();
        let mut node = match self.parse_single() {
            Err(e) => {
                return Err(e);
            },
            Ok(n) => n,
        };
        if !self.is_below(m, 9, 10, Ghost(st)) {
            return Err(self.stalled());
        }
        let no_stop: [&str; 0] = [];
        proof {
            assert(no_stop@ =~= Seq::<&str>::empty());
        }
        loop
            invariant
                self.wf(),
                self.text() == s,
                s == old(self).text(),
                st == old(self).state(),
                self.state().cur is Some,
                no_stop@ == Seq::<&str>::empty(),
                g_postfix(s, st) == g_postfix_rest(s, node_view(*node), self.state()),
                0 <= rank(s, self.state()) <= rank(s, st),
            decreases rank(s, self.state()),
        {
            let mi = self.mark();
            let ghost sti = self.state();
            if self.expect("(") {
                node = match self.parse_funccall_rest(node) {
                    Err(e) => {
                        return Err(e);
                    },
                    Ok(n) => n,
                };
                if !self.is_below(mi, 9, 9, Ghost(sti)) {
                    return Err(self.stalled());
                }
            } else if self.expect("[") {
                match self.goahead() {
                    Err(e) => {
                        return Err(e);
                    },
                    Ok(()) => {},
                }
                if !self.is_below(mi, 24, 9, Ghost(sti)) {
                    return Err(self.stalled());
                }
                let at = match self.parse_expression() {
                    Err(e) => {
                        return Err(e);
                    },
                    Ok(n) => n,
                };
                if !self.expect("]") {
                    return Err(self.unexpect("]"));
                }
                match self.goahead() {
                    Err(e) => {
                        return Err(e);
                    },
                    Ok(()) => {},
                }
                if !self.is_below(mi, 9, 9, Ghost(sti)) {
                    return Err(self.stalled());
                }
                node = Box::new(Node::Binop { op: "[]".to_owned(), left: node, right: at });
            } else if self.expect(".") {
                match self.goahead() {
                    Err(e) => {
                        return Err(e);
                    },
                    Ok(()) => {},
                }
                if !self.is_below(mi, 1, 9, Ghost(sti)) {
                    return Err(self.stalled());
                }
                let attr = match self.parse_name(&no_stop) {
                    Err(e) => {
                        return Err(e);
                    },
                    Ok(a) => a,
                };
                if !self.is_below(mi, 9, 9, Ghost(sti)) {
                    return Err(self.stalled());
                }
                node = Box::new(Node::DotOp { left: node, attr });
            } else {
                return Ok(node);
            }
        }
    }

    /// The argument list of a call, from its `(`.
    #[verifier::rlimit(100)]
    #[verifier::spinoff_prover]
    fn parse_funccall_rest(&mut self, func: Box<Node>) -> (r: Result<Box<Node>, ParseError>)
        requires
            old(self).wf(),
            old(self).state().cur is Some,
        ensures
            final(self).wf(),
            final(self).text() == old(self).text(),
            final(self).state().cur is Some,
            node_result(
                r,
                final(self).state(),
                g_call_rest(old(self).text(), node_view(*func), old(self).state()),
            ),
        decreases rank(old(self).text(), old(self).state()), 8int,
    {
        let ghost s = self.text();
        let ghost st = self.state();
        let ghost f = node_view(*func);
        let m = self.mark();
        match self.goahead() {
            Err(e) => {
                return Err(e);
            },
            Ok(()) => {},
        }
        if !self.is_below(m, 26, 8, Ghost(st)) {
            return Err(self.stalled());
        }
        let mut args: Vec<FuncCallArg> = Vec::new();
        proof {
            assert(args_view(args@) =~= Seq::<SArg>::empty());
        }
        loop
            invariant
                self.wf(),
                self.text() == s,
                s == old(self).text(),
                st == old(self).state(),
                self.state().cur is Some,
                f == node_view(*func),
                g_call_rest(s, f, st) == call_of(f, g_args(s, args_view(args@), self.state())),
                0 <= rank(s, self.state()) < rank(s, st),
            decreases rank(s, self.state()),
        {
            if self.expect(")") {
                match self.goahead() {
                    Err(e) => {
                        return Err(e);
                    },
                    Ok(()) => {
                        return Ok(Box::new(Node::FuncCall { func_ref: func, args }));
                    },
                }
            }
            let mi = self.mark();
            let ghost sti = self.state();
            let arg = match self.parse_funcall_arg() {
                Err(e) => {
                    return Err(e);
                },
                Ok(a) => a,
            };
            let ghost old_args = args@;
            args.push(arg);
            proof {
                assert(args@.subrange(0, args@.len() - 1) =~= old_args);
            }
            if self.expect(",") {
                match self.goahead() {
                    Err(e) => {
                        return Err(e);
                    },
                    Ok(()) => {},
                }
                if !self.is_below(mi, 26, 26, Ghost(sti)) {
                    return Err(self.stalled());
                }
            } else if !self.expect(")") {
                return Err(self.unexpect(") and ,"));
            } else {
                match self.goahead() {
                    Err(e) => {
                        return Err(e);
                    },
                    Ok(()) => {
                        return Ok(Box::new(Node::FuncCall { func_ref: func, args }));
                    },
                }
            }
        }
    }

    /// An argument of a call: an expression, or `name: expression`.
    fn parse_funcall_arg(&mut self) -> (r: Result<FuncCallArg, ParseError>)
        requires
            old(self).wf(),
            old(self).state().cur is Some,
        ensures
            final(self).wf(),
            final(self).text() == old(self).text(),
            final(self).state().cur is Some,
            match g_arg(old(self).text(), old(self).state()) {
                Ok((a, st)) => r is Ok && (SArg {
                    name: r->Ok_0.arg_name@,
                    arg: node_view(*r->Ok_0.arg),
                }) == a && final(self).state() == st,
                Err(e) => r is Err && err_view(r->Err_0) == e,
            },
        decreases rank(old(self).text(), old(self).state()), 25int,
    {
        let ghost st = self.state();
        let m = self.mark();
        let arg = match self.parse_expression() {
            Err(e) => {
                return Err(e);
            },
            Ok(n) => n,
        };
        if self.expect(":") {
            match self.goahead() {
                Err(e) => {
                    return Err(e);
                },
                Ok(()) => {},
            }
            match *arg {
                Node::Var(name) => {
                    match self.goahead() {
                        Err(e) => {
                            return Err(e);
                        },
                        Ok(()) => {},
                    }
                    if !self.is_below(m, 24, 25, Ghost(st)) {
                        return Err(self.stalled());
                    }
                    match self.parse_expression() {
                        Err(e) => Err(e),
                        Ok(v) => Ok(FuncCallArg { arg_name: name, arg: v }),
                    }
                },
                _ => Err(self.unexpect("'var'")),
            }
        } else {
            Ok(FuncCallArg { arg_name: String::new(), arg })
        }
    }

    /// A single element: literal, name, parenthesized expression, range,
    /// list, map, `?`, or a keyword construct.
    fn parse_single(&mut self) -> (r: Result<Box<Node>, ParseError>)
        requires
            old(self).wf(),
            old(self).state().cur is Some,
        ensures
            final(self).wf(),
            final(self).text() == old(self).text(),
            final(self).state().cur is Some,
            node_result(r, final(self).state(), g_single(old(self).text(), old(self).state())),
        decreases rank(old(self).text(), old(self).state()), 8int,
    {
        let v = self.current().value;
        if self.expect("number") {
            self.parse_leaf(Node::Number(v))
        } else if self.expect("name") {
            self.parse_leaf(Node::Var(v))
        } else if self.expect("string") {
            self.parse_leaf(Node::Str(v))
        } else if self.expect("temporal") {
            self.parse_leaf(Node::Temporal(v))
        } else if self.expect("-") {
            self.parse_neg()
        } else if self.expect("{") {
            self.parse_map()
        } else if self.expect("(") {
            self.parse_bracket_or_range()
        } else if self.expect("[") {
            self.parse_range_or_array()
        } else if self.expect("?") {
            Ok(Box::new(Node::Var("?".to_owned())))
        } else if self.expect("keyword") {
            let k = v.as_str();
            if str_eq(k, "true") {
                self.parse_leaf(Node::Bool(true))
            } else if str_eq(k, "false") {
                self.parse_leaf(Node::Bool(false))
            } else if str_eq(k, "null") {
                self.parse_leaf(Node::Null)
            } else if str_eq(k, "if") {
                self.parse_if_expression()
            } else if str_eq(k, "for") {
                self.parse_for_expression()
            } else if str_eq(k, "some") || str_eq(k, "every") {
                self.parse_some_or_every_expression()
            } else if str_eq(k, "function") {
                self.parse_function_definition()
            } else {
                Err(self.unexpect_keyword("true, false"))
            }
        } else {
            Err(self.unexpect("name, number"))
        }
    }

    fn parse_neg(&mut self) -> (r: Result<Box<Node>, ParseError>)
        requires
            old(self).wf(),
            old(self).state().cur is Some,
        ensures
            final(self).wf(),
            final(self).text() == old(self).text(),
            final(self).state().cur is Some,
            node_result(r, final(self).state(), g_neg(old(self).text(), old(self).state())),
        decreases rank(old(self).text(), old(self).state()), 7int,
    {
        let ghost st = self.state();
        let m = self.mark();
        match self.goahead() {
            Err(e) => {
                return Err(e);
            },
            Ok(()) => {},
        }
        if !self.is_below(m, 24, 7, Ghost(st)) {
            return Err(self.stalled());
        }
        match self.parse_expression() {
            Err(e) => Err(e),
            Ok(v) => Ok(Box::new(Node::Neg(v))),
        }
    }

    /// A map (context) literal `{key: value, ...}`.
    #[verifier::rlimit(100)]
    #[verifier::spinoff_prover]
    fn parse_map(&mut self) -> (r: Result<Box<Node>, ParseError>)
        requires
            old(self).wf(),
            old(self).state().cur is Some,
        ensures
            final(self).wf(),
            final(self).text() == old(self).text(),
            final(self).state().cur is Some,
            node_result(r, final(self).state(), g_map(old(self).text(), old(self).state())),
        decreases rank(old(self).text(), old(self).state()), 7int,
    {
        let ghost s = self.text();
        let ghost st = self.state();
        let m = self.mark();
        match self.goahead() {
            Err(e) => {
                return Err(e);
            },
            Ok(()) => {},
        }
        if !self.is_below(m, 6, 7, Ghost(st)) {
            return Err(self.stalled());
        }
        let mut items: Vec<MapNodeItem> = Vec::new();
        proof {
            assert(items_view(items@) =~= Seq::<SItem>::empty());
        }
        loop
            invariant
                self.wf(),
                self.text() == s,
                s == old(self).text(),
                st == old(self).state(),
                self.state().cur is Some,
                g_map(s, st) == map_of(g_map_items(s, items_view(items@), self.state())),
                0 <= rank(s, self.state()) <= rank(s, st),
            decreases rank(s, self.state()),
        {
            if self.expect("}") {
                match self.goahead() {
                    Err(e) => {
                        return Err(e);
                    },
                    Ok(()) => {
                        return Ok(Box::new(Node::MapExpr(items)));
                    },
                }
            }
            let mi = self.mark();
            let ghost sti = self.state();
            let item = match self.parse_map_item() {
                Err(e) => {
                    return Err(e);
                },
                Ok(item) => item,
            };
            let ghost old_items = items@;
            items.push(item);
            proof {
                assert(items@.subrange(0, items@.len() - 1) =~= old_items);
            }
            if self.expect(",") {
                match self.goahead() {
                    Err(e) => {
                        return Err(e);
                    },
                    Ok(()) => {},
                }
                if !self.is_below(mi, 6, 6, Ghost(sti)) {
                    return Err(self.stalled());
                }
            } else if !self.expect("}") {
                return Err(self.unexpect("'}', ','"));
            } else {
                match self.goahead() {
                    Err(e) => {
                        return Err(e);
                    },
                    Ok(()) => {
                        return Ok(Box::new(Node::MapExpr(items)));
                    },
                }
            }
        }
    }

    /// One item `key: value` of a map.
    fn parse_map_item(&mut self) -> (r: Result<MapNodeItem, ParseError>)
        requires
            old(self).wf(),
            old(self).state().cur is Some,
        ensures
            final(self).wf(),
            final(self).text() == old(self).text(),
            final(self).state().cur is Some,
            match g_map_item(old(self).text(), old(self).state()) {
                Ok((item, st)) => r is Ok && (SItem {
                    name: node_view(*r->Ok_0.name),
                    value: node_view(*r->Ok_0.value),
                }) == item && final(self).state() == st,
                Err(e) => r is Err && err_view(r->Err_0) == e,
            },
        decreases rank(old(self).text(), old(self).state()), 5int,
    {
        let ghost st = self.state();
        let m = self.mark();
        let name = match self.parse_map_key() {
            Err(e) => {
                return Err(e);
            },
            Ok(k) => k,
        };
        if !self.expect(":") {
            return Err(self.unexpect(":"));
        }
        match self.goahead() {
            Err(e) => {
                return Err(e);
            },
            Ok(()) => {},
        }
        if !self.is_below(m, 24, 5, Ghost(st)) {
            return Err(self.stalled());
        }
        match self.parse_expression() {
            Err(e) => Err(e),
            Ok(value) => Ok(MapNodeItem { name, value }),
        }
    }

    /// The end of a range whose start is read: `end)` or `end]`.
    fn parse_range_given_start(&mut self, start_open: bool, start: Box<Node>) -> (r: Result<
        Box<Node>,
        ParseError,
    >)
        requires
            old(self).wf(),
            old(self).state().cur is Some,
        ensures
            final(self).wf(),
            final(self).text() == old(self).text(),
            final(self).state().cur is Some,
            node_result(
                r,
                final(self).state(),
                g_range_end(old(self).text(), start_open, node_view(*start), old(self).state()),
            ),
        decreases rank(old(self).text(), old(self).state()), 25int,
    {
        let end = match self.parse_expression() {
            Err(e) => {
                return Err(e);
            },
            Ok(n) => n,
        };
        if self.expect(")") || self.expect("]") {
            let end_open = self.expect(")");
            match self.goahead() {
                Err(e) => Err(e),
                Ok(()) => Ok(Box::new(Node::Range { start_open, start, end_open, end })),
            }
        } else {
            Err(self.unexpect("')', ']'"))
        }
    }

    /// `( expr )`, or a range with an open start `( start .. end`.
    fn parse_bracket_or_range(&mut self) -> (r: Result<Box<Node>, ParseError>)
        requires
            old(self).wf(),
            old(self).state().cur is Some,
        ensures
            final(self).wf(),
            final(self).text() == old(self).text(),
            final(self).state().cur is Some,
            node_result(r, final(self).state(), g_bracket(old(self).text(), old(self).state())),
        decreases rank(old(self).text(), old(self).state()), 7int,
    {
        let ghost st = self.state();
        let m = self.mark();
        match self.goahead() {
            Err(e) => {
                return Err(e);
            },
            Ok(()) => {},
        }
        if !self.is_below(m, 24, 7, Ghost(st)) {
            return Err(self.stalled());
        }
        let a = match self.parse_expression() {
            Err(e) => {
                return Err(e);
            },
            Ok(n) => n,
        };
        if self.expect("..") {
            match self.goahead() {
                Err(e) => {
                    return Err(e);
                },
                Ok(()) => {},
            }
            if !self.is_below(m, 25, 7, Ghost(st)) {
                return Err(self.stalled());
            }
            self.parse_range_given_start(true, a)
        } else if self.expect(")") {
            match self.goahead() {
                Err(e) => Err(e),
                Ok(()) => Ok(a),
            }
        } else {
            Err(self.unexpect("')', '..'"))
        }
    }

    /// `[ ]`, a list `[a, b, ...]`, or a range with a closed start
    /// `[ start .. end`.
    fn parse_range_or_array(&mut self) -> (r: Result<Box<Node>, ParseError>)
        requires
            old(self).wf(),
            old(self).state().cur is Some,
        ensures
            final(self).wf(),
            final(self).text() == old(self).text(),
            final(self).state().cur is Some,
            node_result(r, final(self).state(), g_bracket_list(old(self).text(), old(self).state())),
        decreases rank(old(self).text(), old(self).state()), 7int,
    {
        let ghost s = self.text();
        let ghost st = self.state();
        let m = self.mark();
        match self.goahead() {
            Err(e) => {
                return Err(e);
            },
            Ok(()) => {},
        }
        if self.expect("]") {
            match self.goahead() {
                Err(e) => {
                    return Err(e);
                },
                Ok(()) => {
                    let empty: Vec<Box<Node>> = Vec::new();
                    proof {
                        assert(boxes_view(empty@) =~= Seq::<SNode>::empty());
                    }
                    return Ok(Box::new(Node::Array(empty)));
                },
            }
        }
        if !self.is_below(m, 24, 7, Ghost(st)) {
            return Err(self.stalled());
        }
        let a = match self.parse_expression() {
            Err(e) => {
                return Err(e);
            },
            Ok(n) => n,
        };
        if self.expect(",") || self.expect("]") {
            if !self.is_below(m, 3, 7, Ghost(st)) {
                return Err(self.stalled());
            }
            let mut elements: Vec<Box<Node>> = Vec::new();
            elements.push(a);
            proof {
                lemma_boxes_view(elements@);
                assert(boxes_view(elements@) =~= seq![node_view(*elements@[0])]);
            }
            loop
                invariant
                    self.wf(),
                    self.text() == s,
                    s == old(self).text(),
                    st == old(self).state(),
                    self.state().cur is Some,
                    g_bracket_list(s, st) == g_list_rest(s, boxes_view(elements@), self.state()),
                    0 <= rank(s, self.state()) <= rank(s, st),
                decreases rank(s, self.state()),
            {
                let mi = self.mark();
                let ghost sti = self.state();
                if self.expect(",") {
                    match self.goahead() {
                        Err(e) => {
                            return Err(e);
                        },
                        Ok(()) => {},
                    }
                    if !self.is_below(mi, 24, 3, Ghost(sti)) {
                        return Err(self.stalled());
                    }
                    let n = match self.parse_expression() {
                        Err(e) => {
                            return Err(e);
                        },
                        Ok(n) => n,
                    };
                    if !self.is_below(mi, 3, 3, Ghost(sti)) {
                        return Err(self.stalled());
                    }
                    let ghost old_elements = elements@;
                    elements.push(n);
                    proof {
                        assert(elements@.subrange(0, elements@.len() - 1) =~= old_elements);
                    }
                } else if !self.expect("]") {
                    return Err(self.unexpect("']'"));
                } else {
                    match self.goahead() {
                        Err(e) => {
                            return Err(e);
                        },
                        Ok(()) => {
                            return Ok(Box::new(Node::Array(elements)));
                        },
                    }
                }
            }
        } else if !self.expect("..") {
            Err(self.unexpect("'..'"))
        } else {
            match self.goahead() {
                Err(e) => {
                    return Err(e);
                },
                Ok(()) => {},
            }
            if !self.is_below(m, 25, 7, Ghost(st)) {
                return Err(self.stalled());
            }
            self.parse_range_given_start(false, a)
        }
    }

    /// `if c then a else b`.
    #[verifier::rlimit(60)]
    #[verifier::spinoff_prover]
    fn parse_if_expression(&mut self) -> (r: Result<Box<Node>, ParseError>)
        requires
            old(self).wf(),
            old(self).state().cur is Some,
        ensures
            final(self).wf(),
            final(self).text() == old(self).text(),
            final(self).state().cur is Some,
            node_result(r, final(self).state(), g_if(old(self).text(), old(self).state())),
        decreases rank(old(self).text(), old(self).state()), 7int,
    {
        let ghost st = self.state();
        let m = self.mark();
        match self.goahead() {
            Err(e) => {
                return Err(e);
            },
            Ok(()) => {},
        }
        if !self.is_below(m, 24, 7, Ghost(st)) {
            return Err(self.stalled());
        }
        let condition = match self.parse_expression() {
            Err(e) => {
                return Err(e);
            },
            Ok(n) => n,
        };
        if !self.expect_keyword("then") {
            return Err(self.unexpect_keyword("then"));
        }
        match self.goahead() {
            Err(e) => {
                return Err(e);
            },
            Ok(()) => {},
        }
        if !self.is_below(m, 24, 7, Ghost(st)) {
            return Err(self.stalled());
        }
        let then_branch = match self.parse_expression() {
            Err(e) => {
                return Err(e);
            },
            Ok(n) => n,
        };
        if !self.expect_keyword("else") {
            return Err(self.unexpect_keyword("else"));
        }
        match self.goahead() {
            Err(e) => {
                return Err(e);
            },
            Ok(()) => {},
        }
        if !self.is_below(m, 24, 7, Ghost(st)) {
            return Err(self.stalled());
        }
        match self.parse_expression() {
            Err(e) => Err(e),
            Ok(else_branch) => Ok(Box::new(Node::IfExpr { condition, then_branch, else_branch })),
        }
    }

    /// `for name in list, ... return expr`; the part after `,` is read as a
    /// further `for` expression.
    fn parse_for_expression(&mut self) -> (r: Result<Box<Node>, ParseError>)
        requires
            old(self).wf(),
            old(self).state().cur is Some,
        ensures
            final(self).wf(),
            final(self).text() == old(self).text(),
            final(self).state().cur is Some,
            node_result(r, final(self).state(), g_for(old(self).text(), old(self).state())),
        decreases rank(old(self).text(), old(self).state()), 7int,
    {
        let ghost st = self.state();
        let m = self.mark();
        match self.goahead() {
            Err(e) => {
                return Err(e);
            },
            Ok(()) => {},
        }
        if !self.is_below(m, 1, 7, Ghost(st)) {
            return Err(self.stalled());
        }
        let stop: [&str; 2] = ["in", "for"];
        proof {
            assert(stop@ =~= seq!["in", "for"]);
        }
        let var_name = match self.parse_name(&stop) {
            Err(e) => {
                return Err(e);
            },
            Ok(n) => n,
        };
        if !self.expect_keyword("in") {
            return Err(self.unexpect_keyword("in"));
        }
        match self.goahead() {
            Err(e) => {
                return Err(e);
            },
            Ok(()) => {},
        }
        if !self.is_below(m, 24, 7, Ghost(st)) {
            return Err(self.stalled());
        }
        let list_expr = match self.parse_expression() {
            Err(e) => {
                return Err(e);
            },
            Ok(n) => n,
        };
        if self.expect(",") {
            if !self.is_below(m, 7, 7, Ghost(st)) {
                return Err(self.stalled());
            }
            return match self.parse_for_expression() {
                Err(e) => Err(e),
                Ok(return_expr) => Ok(Box::new(Node::ForExpr { var_name, list_expr, return_expr })),
            };
        }
        if !self.expect_keyword("return") {
            return Err(self.unexpect_keyword("return"));
        }
        match self.goahead() {
            Err(e) => {
                return Err(e);
            },
            Ok(()) => {},
        }
        if !self.is_below(m, 24, 7, Ghost(st)) {
            return Err(self.stalled());
        }
        match self.parse_expression() {
            Err(e) => Err(e),
            Ok(return_expr) => Ok(Box::new(Node::ForExpr { var_name, list_expr, return_expr })),
        }
    }

    /// `some name in list satisfies test` or `every ...`.
    #[verifier::rlimit(60)]
    #[verifier::spinoff_prover]
    fn parse_some_or_every_expression(&mut self) -> (r: Result<Box<Node>, ParseError>)
        requires
            old(self).wf(),
            old(self).state().cur is Some,
        ensures
            final(self).wf(),
            final(self).text() == old(self).text(),
            final(self).state().cur is Some,
            node_result(r, final(self).state(), g_quantified(old(self).text(), old(self).state())),
        decreases rank(old(self).text(), old(self).state()), 7int,
    {
        let ghost st = self.state();
        let cmd = self.current().value;
        let m = self.mark();
        match self.goahead() {
            Err(e) => {
                return Err(e);
            },
            Ok(()) => {},
        }
        if !self.is_below(m, 1, 7, Ghost(st)) {
            return Err(self.stalled());
        }
        let stop: [&str; 1] = ["in"];
        proof {
            assert(stop@ =~= seq!["in"]);
        }
        let var_name = match self.parse_name(&stop) {
            Err(e) => {
                return Err(e);
            },
            Ok(n) => n,
        };
        if !self.expect_keyword("in") {
            return Err(self.unexpect_keyword("in"));
        }
        match self.goahead() {
            Err(e) => {
                return Err(e);
            },
            Ok(()) => {},
        }
        if !self.is_below(m, 24, 7, Ghost(st)) {
            return Err(self.stalled());
        }
        let list_expr = match self.parse_expression() {
            Err(e) => {
                return Err(e);
            },
            Ok(n) => n,
        };
        if !self.expect_keyword("satisfies") {
            return Err(self.unexpect_keyword("satisfies"));
        }
        match self.goahead() {
            Err(e) => {
                return Err(e);
            },
            Ok(()) => {},
        }
        if !self.is_below(m, 24, 7, Ghost(st)) {
            return Err(self.stalled());
        }
        let filter_expr = match self.parse_expression() {
            Err(e) => {
                return Err(e);
            },
            Ok(n) => n,
        };
        if str_eq(cmd.as_str(), "some") {
            Ok(Box::new(Node::SomeExpr { var_name, list_expr, filter_expr }))
        } else {
            Ok(Box::new(Node::EveryExpr { var_name, list_expr, filter_expr }))
        }
    }

    /// `function(a, b, ...) body`.
    fn parse_function_definition(&mut self) -> (r: Result<Box<Node>, ParseError>)
        requires
            old(self).wf(),
            old(self).state().cur is Some,
        ensures
            final(self).wf(),
            final(self).text() == old(self).text(),
            final(self).state().cur is Some,
            node_result(r, final(self).state(), g_function(old(self).text(), old(self).state())),
        decreases rank(old(self).text(), old(self).state()), 7int,
    {
        let ghost st = self.state();
        let m = self.mark();
        match self.goahead() {
            Err(e) => {
                return Err(e);
            },
            Ok(()) => {},
        }
        if !self.expect("(") {
            return Err(self.unexpect("'('"));
        }
        match self.goahead() {
            Err(e) => {
                return Err(e);
            },
            Ok(()) => {},
        }
        if !self.is_below(m, 6, 7, Ghost(st)) {
            return Err(self.stalled());
        }
        let arg_names = match self.parse_params() {
            Err(e) => {
                return Err(e);
            },
            Ok(names) => names,
        };
        if !self.is_below(m, 24, 7, Ghost(st)) {
            return Err(self.stalled());
        }
        match self.parse_expression() {
            Err(e) => Err(e),
            Ok(body) => Ok(Box::new(Node::FuncDef { arg_names, body })),
        }
    }
}

impl<'a> Parser<'a> {
    /// A unary test `op expr`, tested on `?`, or an expression.
    fn parse_multi_tests_element(&mut self) -> (r: Result<Box<Node>, ParseError>)
        requires
            old(self).wf(),
            old(self).state().cur is Some,
        ensures
            final(self).wf(),
            final(self).text() == old(self).text(),
            final(self).state().cur is Some,
            node_result(r, final(self).state(), g_test(old(self).text(), old(self).state())),
    {
        if self.expect_compare_op() {
            let ghost st = self.state();
            let op = self.current().kind;
            let m = self.mark();
            match self.goahead() {
                Err(e) => {
                    return Err(e);
                },
                Ok(()) => {},
            }
            if !self.is_below(m, 24, 38, Ghost(st)) {
                return Err(self.stalled());
            }
            match self.parse_expression() {
                Err(e) => Err(e),
                Ok(right) => {
                    let left = Box::new(Node::Var("?".to_owned()));
                    assert(node_view(*left) == SNode::Var("?"@));
                    Ok(Box::new(Node::Binop { op: op.to_owned(), left, right }))
                },
            }
        } else {
            self.parse_expression()
        }
    }

    /// Tests separated by `,`.
    fn parse_multi_tests(&mut self) -> (r: Result<Box<Node>, ParseError>)
        requires
            old(self).wf(),
            old(self).state().cur is Some,
        ensures
            final(self).wf(),
            final(self).text() == old(self).text(),
            final(self).state().cur is Some,
            node_result(r, final(self).state(), g_multi_tests(old(self).text(), old(self).state())),
    {
        let ghost s = self.text();
        let ghost st = self.state();
        let m = self.mark();
        let elem = match self.parse_multi_tests_element() {
            Err(e) => {
                return Err(e);
            },
            Ok(n) => n,
        };
        if !self.expect(",") {
            return Ok(elem);
        }
        if !self.is_below(m, 37, 39, Ghost(st)) {
            return Err(self.stalled());
        }
        let mut elements: Vec<Node> = Vec::new();
        elements.push(*elem);
        proof {
            lemma_nodes_view(elements@);
            assert(nodes_view(elements@) =~= seq![node_view(elements@[0])]);
        }
        loop
            invariant
                self.wf(),
                self.text() == s,
                s == old(self).text(),
                st == old(self).state(),
                self.state().cur is Some,
                g_multi_tests(s, st) == g_tests_rest(s, nodes_view(elements@), self.state()),
            decreases rank(s, self.state()),
        {
            if !self.expect(",") {
                return Ok(Box::new(Node::MultiTests { elements }));
            }
            let mi = self.mark();
            let ghost sti = self.state();
            match self.goahead() {
                Err(e) => {
                    return Err(e);
                },
                Ok(()) => {},
            }
            if !self.is_below(mi, 38, 37, Ghost(sti)) {
                return Err(self.stalled());
            }
            let elem1 = match self.parse_multi_tests_element() {
                Err(e) => {
                    return Err(e);
                },
                Ok(n) => n,
            };
            if !self.is_below(mi, 37, 37, Ghost(sti)) {
                return Err(self.stalled());
            }
            let ghost old_elements = elements@;
            elements.push(*elem1);
            proof {
                assert(elements@.subrange(0, elements@.len() - 1) =~= old_elements);
            }
        }
    }

    /// Parses the whole input: expressions and unary tests separated by
    /// `;`.  One of them is given as it is; none or several as a list.
    pub fn parse(&mut self) -> (r: Result<Box<Node>, ParseError>)
        requires
            old(self).wf(),
            old(self).state() == (PState { off: 0, cur: None }),
        ensures
            match g_parse(old(self).text()) {
                Ok(n) => r is Ok && node_view(*r->Ok_0) == n,
                Err(e) => r is Err && err_view(r->Err_0) == e,
            },
    {
        let ghost s = self.text();
        match self.goahead() {
            Err(e) => {
                return Err(e);
            },
            Ok(()) => {},
        }
        let mut exprs: Vec<Node> = Vec::new();
        proof {
            assert(nodes_view(exprs@) =~= Seq::<SNode>::empty());
        }
        loop
            invariant
                self.wf(),
                self.text() == s,
                s == old(self).text(),
                self.state().cur is Some,
                g_parse(s) == g_top(s, nodes_view(exprs@), self.state()),
            decreases rank(s, self.state()),
        {
            proof {
                self.lemma_wf();
            }
            if self.expect("eof") {
                proof {
                    lemma_nodes_view(exprs@);
                }
                if exprs.len() == 1 {
                    let only = exprs.pop().unwrap();
                    return Ok(Box::new(only));
                } else {
                    return Ok(Box::new(Node::ExprList { elements: exprs }));
                }
            }
            let m = self.mark();
            let ghost sti = self.state();
            if self.expect(";") {
                match self.goahead() {
                    Err(e) => {
                        return Err(e);
                    },
                    Ok(()) => {},
                }
                if !self.is_below(m, 40, 40, Ghost(sti)) {
                    return Err(self.stalled());
                }
            } else {
                let node = match self.parse_multi_tests() {
                    Err(e) => {
                        return Err(e);
                    },
                    Ok(n) => n,
                };
                if !self.is_below(m, 40, 40, Ghost(sti)) {
                    return Err(self.stalled());
                }
                let ghost old_exprs = exprs@;
                exprs.push(*node);
                proof {
                    assert(exprs@.subrange(0, exprs@.len() - 1) =~= old_exprs);
                }
            }
        }
    }
}

/// Parses a FEEL script.
pub fn parse(input: &str) -> (r: Result<Box<Node>, ParseError>)
    requires
        utf8_len(input@) <= usize::MAX,
    ensures
        match g_parse(input@) {
            Ok(n) => r is Ok && node_view(*r->Ok_0) == n,
            Err(e) => r is Err && err_view(r->Err_0) == e,
        },
{
    let mut parser = Parser::new(input);
    parser.parse()
}

} // verus!
