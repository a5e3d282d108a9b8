//! Text positions: byte offset, line and column reached after a piece of text.
use crate::text::{
    lemma_utf8_len_concat, lemma_utf8_len_push, nat_text, push_str, push_usize, str_chars, utf8_len,
    utf8_width,
};
use vstd::prelude::*;

verus! {

/// Number of `'\n'` characters of `s`.
pub open spec fn newline_count(s: Seq<char>) -> nat
    decreases s.len(),
{
    if s.len() == 0 {
        0
    } else {
        newline_count(s.drop_last()) + if s.last() == '\n' {
            1nat
        } else {
            0nat
        }
    }
}

/// The part of `s` after its last `'\n'` (all of `s` where it has none).
pub open spec fn last_line(s: Seq<char>) -> Seq<char>
    decreases s.len(),
{
    if s.len() == 0 {
        s
    } else if s.last() == '\n' {
        Seq::<char>::empty()
    } else {
        last_line(s.drop_last()).push(s.last())
    }
}

/// The position `(bytes, lines, columns)` reached from `p` after `chunk`:
/// bytes grow by the UTF-8 length of `chunk`, lines by its newlines, and
/// the column is the byte length of the text since the last newline.
pub open spec fn advance(p: (int, int, int), chunk: Seq<char>) -> (int, int, int) {
    (
        p.0 + utf8_len(chunk),
        p.1 + newline_count(chunk),
        (if newline_count(chunk) == 0 {
            p.2
        } else {
            0
        }) + utf8_len(last_line(chunk)),
    )
}

/// The position reached from the start of a text after its prefix `s`.
pub open spec fn position_of(s: Seq<char>) -> (int, int, int) {
    advance((0, 0, 0), s)
}

pub proof fn lemma_newline_count_push(s: Seq<char>, c: char)
    ensures
        newline_count(s.push(c)) == newline_count(s) + if c == '\n' {
            1nat
        } else {
            0nat
        },
        last_line(s.push(c)) == if c == '\n' {
            Seq::<char>::empty()
        } else {
            last_line(s).push(c)
        },
{
    assert(s.push(c).drop_last() =~= s);
}

pub proof fn lemma_newline_count_concat(a: Seq<char>, b: Seq<char>)
    ensures
        newline_count(a + b) == newline_count(a) + newline_count(b),
        last_line(a + b) == if newline_count(b) == 0 {
            last_line(a) + b
        } else {
            last_line(b)
        },
    decreases b.len(),
{
    if b.len() == 0 {
        assert(a + b =~= a);
        assert(last_line(a) + b =~= last_line(a));
    } else {
        let c = b.last();
        let b0 = b.drop_last();
        assert(b =~= b0.push(c));
        assert(a + b =~= (a + b0).push(c));
        lemma_newline_count_concat(a, b0);
        lemma_newline_count_push(a + b0, c);
        lemma_newline_count_push(b0, c);
        if c != '\n' && newline_count(b0) == 0 {
            assert((last_line(a) + b0).push(c) =~= last_line(a) + b);
        }
    }
}

pub proof fn lemma_newline_count_bound(s: Seq<char>)
    ensures
        newline_count(s) <= s.len(),
        utf8_len(last_line(s)) <= utf8_len(s),
    decreases s.len(),
{
    if s.len() > 0 {
        let c = s.last();
        let s0 = s.drop_last();
        assert(s =~= s0.push(c));
        lemma_newline_count_bound(s0);
        lemma_newline_count_push(s0, c);
        lemma_utf8_len_push(s0, c);
        if c != '\n' {
            lemma_utf8_len_push(last_line(s0), c);
        }
    }
    crate::text::lemma_utf8_len_bound(s);
}

/// Advancing over `a` then over `b` is advancing over `a + b`.
pub proof fn lemma_advance_concat(p: (int, int, int), a: Seq<char>, b: Seq<char>)
    ensures
        advance(advance(p, a), b) == advance(p, a + b),
{
    lemma_newline_count_concat(a, b);
    lemma_utf8_len_concat(a, b);
    lemma_utf8_len_concat(last_line(a), b);
    lemma_newline_count_concat(Seq::<char>::empty(), b);
    assert(Seq::<char>::empty() + b =~= b);
    assert(last_line(Seq::<char>::empty()) =~= Seq::<char>::empty());
}

/// A position in a text.
#[derive(Clone, Copy, PartialEq, Eq, Debug, Structural)]
pub struct TextPosition {
    pub chars: usize,
    pub lines: usize,
    pub cols: usize,
}

impl View for TextPosition {
    type V = (int, int, int);

    open spec fn view(&self) -> (int, int, int) {
        (self.chars as int, self.lines as int, self.cols as int)
    }
}

impl TextPosition {
    /// The printed form `chars: C, lines: L, cols: K`.
    pub fn to_string(&self) -> (r: String)
        ensures
            r@ == "chars: "@ + nat_text(self.chars as nat) + ", lines: "@ + nat_text(
                self.lines as nat,
            ) + ", cols: "@ + nat_text(self.cols as nat),
    {
        let mut r = String::new();
        push_str(&mut r, "chars: ");
        push_usize(&mut r, self.chars);
        push_str(&mut r, ", lines: ");
        push_usize(&mut r, self.lines);
        push_str(&mut r, ", cols: ");
        push_usize(&mut r, self.cols);
        assert(r@ =~= "chars: "@ + nat_text(self.chars as nat) + ", lines: "@ + nat_text(
            self.lines as nat,
        ) + ", cols: "@ + nat_text(self.cols as nat));
        r
    }

    pub fn zero() -> (r: TextPosition)
        ensures
            r@ == (0int, 0int, 0int),
    {
        TextPosition { chars: 0, lines: 0, cols: 0 }
    }

    pub fn is_zero(&self) -> (r: bool)
        ensures
            r == (self.chars == 0 && self.lines == 0 && self.cols == 0),
    {
        self.chars == 0 && self.lines == 0 && self.cols == 0
    }

    /// The position after `chunk`, read from this position.
    pub fn increase(&self, chunk: &str) -> (r: TextPosition)
        requires
            advance(self@, chunk@).0 <= usize::MAX,
            advance(self@, chunk@).1 <= usize::MAX,
            advance(self@, chunk@).2 <= usize::MAX,
        ensures
            r@ == advance(self@, chunk@),
    {
        let v = str_chars(chunk);
        let mut nl: usize = 0;
        let mut lb: usize = 0;
        let mut i: usize = 0;
        proof {
            lemma_newline_count_bound(v@);
            assert(v@.take(0) =~= Seq::<char>::empty());
        }
        while i < v.len()
            invariant
                v@ == chunk@,
                0 <= i <= v.len(),
                nl == newline_count(v@.take(i as int)),
                lb == utf8_len(last_line(v@.take(i as int))),
                newline_count(v@) <= v@.len(),
                utf8_len(v@) <= usize::MAX,
            decreases v.len() - i,
        {
            let c = v[i];
            proof {
                assert(v@.take(i + 1) =~= v@.take(i as int).push(c));
                lemma_newline_count_push(v@.take(i as int), c);
                lemma_utf8_len_push(last_line(v@.take(i as int)), c);
                lemma_newline_count_bound(v@.take(i + 1));
                assert(v@ =~= v@.take(i + 1) + v@.skip(i + 1));
                lemma_utf8_len_concat(v@.take(i + 1), v@.skip(i + 1));
            }
            if c == '\n' {
                nl = nl + 1;
                lb = 0;
            } else {
                lb = lb + utf8_width(c);
            }
            i = i + 1;
        }
        assert(v@.take(i as int) =~= v@);
        let cols = if nl == 0 {
            self.cols + lb
        } else {
            lb
        };
        TextPosition { chars: self.chars + chunk.len(), lines: self.lines + nl, cols }
    }

    /// The line of `full_text` this position stands on, then a line that
    /// points at its column with `^`.
    pub fn line_pointers(&self, full_text: &str) -> (r: String)
        requires
            self.lines <= newline_count(full_text@),
        ensures
            r@ == nth_line(full_text@, self.lines as int) + seq!['\n'] + Seq::new(
                (if self.cols > 0 {
                    self.cols - 1
                } else {
                    0
                }) as nat,
                |i: int| ' ',
            ) + seq!['^', '\n'],
    {
        let v = str_chars(full_text);
        let (a, b) = line_bounds(&v, self.lines);
        let mut r = crate::text::string_from_chars(&v, a, b);
        crate::text::push_char(&mut r, '\n');
        let n = if self.cols > 0 {
            self.cols - 1
        } else {
            0
        };
        let ghost head = r@;
        let mut k: usize = 0;
        while k < n
            invariant
                0 <= k <= n,
                r@ == head + Seq::new(k as nat, |i: int| ' '),
            decreases n - k,
        {
            crate::text::push_char(&mut r, ' ');
            k = k + 1;
            assert(r@ =~= head + Seq::new(k as nat, |i: int| ' '));
        }
        crate::text::push_char(&mut r, '^');
        crate::text::push_char(&mut r, '\n');
        assert(r@ =~= nth_line(full_text@, self.lines as int) + seq!['\n'] + Seq::new(
            n as nat,
            |i: int| ' ',
        ) + seq!['^', '\n']);
        r
    }
}

/// Index of the `k`-th newline (counting from 0) at or after `from`.
pub open spec fn nth_newline(s: Seq<char>, from: int, k: int) -> Option<int>
    decreases s.len() - from,
{
    if from < 0 || from >= s.len() {
        None
    } else if s[from] == '\n' {
        if k <= 0 {
            Some(from)
        } else {
            nth_newline(s, from + 1, k - 1)
        }
    } else {
        nth_newline(s, from + 1, k)
    }
}

/// Index where line `k` of `s` starts (lines are split at `'\n'`).
pub open spec fn line_start(s: Seq<char>, k: int) -> int {
    if k <= 0 {
        0
    } else {
        match nth_newline(s, 0, k - 1) {
            Some(i) => i + 1,
            None => s.len() as int,
        }
    }
}

/// Index where line `k` of `s` ends (its newline, or the end of the text).
pub open spec fn line_end(s: Seq<char>, k: int) -> int {
    match crate::lexing::find_char(s, line_start(s, k), '\n') {
        Some(i) => i,
        None => s.len() as int,
    }
}

/// Line `k` of `s`, without its newline.
pub open spec fn nth_line(s: Seq<char>, k: int) -> Seq<char> {
    s.subrange(line_start(s, k), line_end(s, k))
}

pub proof fn lemma_nth_newline(s: Seq<char>, from: int, k: int)
    requires
        0 <= from,
    ensures
        nth_newline(s, from, k) matches Some(i) ==> from <= i < s.len(),
    decreases s.len() - from,
{
    if from < s.len() {
        lemma_nth_newline(s, from + 1, if s[from] == '\n' {
            k - 1
        } else {
            k
        });
    }
}

fn line_bounds(v: &Vec<char>, k: usize) -> (r: (usize, usize))
    ensures
        r.0 == line_start(v@, k as int),
        r.1 == line_end(v@, k as int),
        r.0 <= r.1 <= v.len(),
{
    let mut a: usize = 0;
    if k > 0 {
        // find the (k-1)-th newline
        let mut i: usize = 0;
        let mut left: usize = k - 1;
        let mut found = false;
        while i < v.len() && !found
            invariant
                0 <= i <= v.len(),
                k > 0,
                nth_newline(v@, 0, k - 1) == nth_newline(v@, i as int, left as int),
                found ==> i < v.len() && v@[i as int] == '\n' && left == 0,
            decreases v.len() - i + (if found {
                0int
            } else {
                1int
            }),
        {
            if v[i] == '\n' && left == 0 {
                found = true;
            } else {
                if v[i] == '\n' {
                    left = left - 1;
                }
                i = i + 1;
            }
        }
        if found {
            a = i + 1;
        } else {
            a = v.len();
        }
        proof {
            lemma_nth_newline(v@, 0, k - 1);
        }
    }
    proof {
        crate::lexing::lemma_find_char(v@, a as int, '\n');
    }
    let b = match crate::lexing::find_char_from(v, a, '\n') {
        Some(i) => i,
        None => v.len(),
    };
    (a, b)
}

} // verus!
