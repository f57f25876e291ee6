//! Turns a sequence of characters into tokens, one at a time.

use vstd::prelude::*;
use vstd::string::*;

verus! {

/// A token of the language.
///
/// A number keeps the text of its literal; a literal that does not denote a
/// number reads as `0`.
#[derive(Debug, PartialEq)]
pub enum Token {
    Eof,
    Def,
    Extern,
    Identifier(String),
    Number(String),
    Char(char),
    If,
    Then,
    Else,
    For,
    In,
}

/// The mathematical value of a [`Token`].
pub enum TokenV {
    Eof,
    Def,
    Extern,
    Identifier(Seq<char>),
    Number(Seq<char>),
    Char(char),
    If,
    Then,
    Else,
    For,
    In,
}

impl View for Token {
    type V = TokenV;

    open spec fn view(&self) -> TokenV {
        match self {
            Token::Eof => TokenV::Eof,
            Token::Def => TokenV::Def,
            Token::Extern => TokenV::Extern,
            Token::Identifier(s) => TokenV::Identifier(s@),
            Token::Number(s) => TokenV::Number(s@),
            Token::Char(c) => TokenV::Char(*c),
            Token::If => TokenV::If,
            Token::Then => TokenV::Then,
            Token::Else => TokenV::Else,
            Token::For => TokenV::For,
            Token::In => TokenV::In,
        }
    }
}

pub open spec fn is_space(c: char) -> bool {
    c == ' ' || c == '\t' || c == '\n' || c == '\x0C' || c == '\r'
}

pub open spec fn is_alpha(c: char) -> bool {
    ('a' <= c && c <= 'z') || ('A' <= c && c <= 'Z')
}

pub open spec fn is_digit(c: char) -> bool {
    '0' <= c && c <= '9'
}

pub open spec fn is_alnum(c: char) -> bool {
    is_alpha(c) || is_digit(c)
}

pub open spec fn is_num_char(c: char) -> bool {
    is_digit(c) || c == '.'
}

pub open spec fn is_newline(c: char) -> bool {
    c == '\r' || c == '\n'
}

/// The first position at or after `p` where the run of characters satisfying
/// `f` ends.
pub open spec fn run_end(s: Seq<char>, p: int, f: spec_fn(char) -> bool) -> int
    decreases s.len() - p,
{
    if 0 <= p < s.len() && f(s[p]) {
        run_end(s, p + 1, f)
    } else {
        p
    }
}

/// The first position at or after `p` whose character is not white space.
pub open spec fn skip_space(s: Seq<char>, p: int) -> int {
    run_end(s, p, |c: char| is_space(c))
}

/// The position where a run of identifier characters starting at `p` ends.
pub open spec fn ident_end(s: Seq<char>, p: int) -> int {
    run_end(s, p, |c: char| is_alnum(c))
}

/// The position where a run of digits and dots starting at `p` ends.
pub open spec fn number_end(s: Seq<char>, p: int) -> int {
    run_end(s, p, |c: char| is_num_char(c))
}

/// The first position at or after `p` that holds a line break, or the end.
pub open spec fn line_end(s: Seq<char>, p: int) -> int {
    run_end(s, p, |c: char| !is_newline(c))
}

/// A run ends within the input, no earlier than it starts, and every
/// character it passes satisfies `f`.
pub proof fn lemma_run_end(s: Seq<char>, p: int, f: spec_fn(char) -> bool)
    requires
        0 <= p <= s.len(),
    ensures
        p <= run_end(s, p, f) <= s.len(),
        forall|i: int| p <= i < run_end(s, p, f) ==> f(s[i]),
        run_end(s, p, f) < s.len() ==> !f(s[run_end(s, p, f)]),
    decreases s.len() - p,
{
    if p < s.len() && f(s[p]) {
        lemma_run_end(s, p + 1, f);
    }
}

/// The number of dots in `w`.
pub open spec fn count_dots(w: Seq<char>) -> nat
    decreases w.len(),
{
    if w.len() == 0 {
        0
    } else {
        count_dots(w.drop_last()) + if w.last() == '.' { 1nat } else { 0nat }
    }
}

/// A run of digits and dots that denotes a decimal number: at least one digit
/// and at most one dot.
pub open spec fn is_number_literal(w: Seq<char>) -> bool {
    &&& count_dots(w) <= 1
    &&& exists|i: int| 0 <= i < w.len() && is_digit(w[i])
}

/// The number a run of digits and dots stands for, as text.
pub open spec fn number_text(w: Seq<char>) -> Seq<char> {
    if is_number_literal(w) {
        w
    } else {
        "0"@
    }
}

/// The token an identifier-shaped word stands for.
pub open spec fn word_token(w: Seq<char>) -> TokenV {
    if w == "def"@ {
        TokenV::Def
    } else if w == "extern"@ {
        TokenV::Extern
    } else if w == "if"@ {
        TokenV::If
    } else if w == "then"@ {
        TokenV::Then
    } else if w == "else"@ {
        TokenV::Else
    } else if w == "for"@ {
        TokenV::For
    } else if w == "in"@ {
        TokenV::In
    } else {
        TokenV::Identifier(w)
    }
}

/// The token that starts at or after position `p` of `s`, and the position
/// just after it.
///
/// White space is skipped; a `#` starts a comment that runs to the end of the
/// line; at the end of the input the token is `Eof`.
pub open spec fn next_token(s: Seq<char>, p: int) -> (TokenV, int)
    recommends
        0 <= p <= s.len(),
    decreases s.len() - p,
    when 0 <= p <= s.len()
    via next_token_decreases
{
    let q = skip_space(s, p);
    if q >= s.len() {
        (TokenV::Eof, q)
    } else if is_alpha(s[q]) {
        let e = ident_end(s, q + 1);
        (word_token(s.subrange(q, e)), e)
    } else if is_num_char(s[q]) {
        let e = number_end(s, q + 1);
        (TokenV::Number(number_text(s.subrange(q, e))), e)
    } else if s[q] == '#' {
        let e = line_end(s, q + 1);
        if e >= s.len() {
            (TokenV::Eof, e)
        } else {
            next_token(s, e)
        }
    } else {
        (TokenV::Char(s[q]), q + 1)
    }
}


fn is_space_exec(c: char) -> (r: bool)
    ensures
        r == is_space(c),
{
    c == ' ' || c == '\t' || c == '\n' || c == '\x0C' || c == '\r'
}

fn is_alpha_exec(c: char) -> (r: bool)
    ensures
        r == is_alpha(c),
{
    ('a' <= c && c <= 'z') || ('A' <= c && c <= 'Z')
}

fn is_digit_exec(c: char) -> (r: bool)
    ensures
        r == is_digit(c),
{
    '0' <= c && c <= '9'
}

/// Relies on `String`'s `FromIterator<&char>` (through `collect`): the string holds the
/// characters in the order given.
#[verifier::external_body]
fn string_of_chars(chars: &Vec<char>) -> (r: String)
    ensures
        r@ == chars@,
{
    chars.iter().collect()
}

/// Whether the characters of `w` are those of `lit`.
fn chars_eq(w: &Vec<char>, lit: &str) -> (r: bool)
    ensures
        r == (w@ == lit@),
{
    let n = lit.unicode_len();
    if w.len() != n {
        return false;
    }
    let mut i: usize = 0;
    while i < n
        invariant
            n == lit@.len(),
            n == w@.len(),
            i <= n,
            forall|j: int| 0 <= j < i ==> w@[j] == lit@[j],
        decreases n - i,
    {
        if w[i] != lit.get_char(i) {
            return false;
        }
        i = i + 1;
    }
    assert(w@ =~= lit@);
    true
}

fn word_token_exec(w: Vec<char>) -> (r: Token)
    ensures
        r@ == word_token(w@),
{
    if chars_eq(&w, "def") {
        Token::Def
    } else if chars_eq(&w, "extern") {
        Token::Extern
    } else if chars_eq(&w, "if") {
        Token::If
    } else if chars_eq(&w, "then") {
        Token::Then
    } else if chars_eq(&w, "else") {
        Token::Else
    } else if chars_eq(&w, "for") {
        Token::For
    } else if chars_eq(&w, "in") {
        Token::In
    } else {
        Token::Identifier(string_of_chars(&w))
    }
}

proof fn lemma_count_dots_push(w: Seq<char>, c: char)
    ensures
        count_dots(w.push(c)) == count_dots(w) + if c == '.' { 1nat } else { 0nat },
{
    assert(w.push(c).drop_last() =~= w);
}

fn number_text_exec(w: Vec<char>) -> (r: String)
    ensures
        r@ == number_text(w@),
{
    let mut dots: usize = 0;
    let mut digit = false;
    let mut i: usize = 0;
    while i < w.len()
        invariant
            i <= w@.len(),
            dots <= i,
            dots == count_dots(w@.subrange(0, i as int)),
            digit == exists|j: int| 0 <= j < i && is_digit(w@[j]),
        decreases w.len() - i,
    {
        proof {
            lemma_count_dots_push(w@.subrange(0, i as int), w@[i as int]);
            assert(w@.subrange(0, i as int).push(w@[i as int]) =~= w@.subrange(0, i + 1));
        }
        if w[i] == '.' {
            dots = dots + 1;
        }
        if is_digit_exec(w[i]) {
            digit = true;
        }
        i = i + 1;
    }
    assert(w@.subrange(0, w@.len() as int) =~= w@);
    if dots <= 1 && digit {
        string_of_chars(&w)
    } else {
        String::from_str("0")
    }
}

/// Lexer over a sequence of characters.
pub struct Lexer {
    input: Vec<char>,
    pos: usize,
}

impl Lexer {
    /// The characters being read.
    pub closed spec fn text(&self) -> Seq<char> {
        self.input@
    }

    /// The position of the next character to read.
    pub closed spec fn pos(&self) -> int {
        self.pos as int
    }

    pub closed spec fn wf(&self) -> bool {
        self.pos <= self.input@.len()
    }

    /// A well-formed lexer stands within its input.
    pub proof fn lemma_wf(&self)
        requires
            self.wf(),
        ensures
            0 <= self.pos() <= self.text().len(),
    {
    }

    /// A lexer at the start of `input`.
    pub fn new(input: Vec<char>) -> (r: Lexer)
        ensures
            r.wf(),
            r.text() == input@,
            r.pos() == 0,
    {
        Lexer { input, pos: 0 }
    }

    /// Move to the next character and return it; `None` at the end.
    pub fn step(&mut self) -> (r: Option<char>)
        requires
            old(self).wf(),
        ensures
            final(self).wf(),
            final(self).text() == old(self).text(),
            final(self).pos() == if old(self).pos() < old(self).text().len() {
                old(self).pos() + 1
            } else {
                old(self).pos()
            },
            r == if final(self).pos() < final(self).text().len() {
                Some(final(self).text()[final(self).pos()])
            } else {
                None::<char>
            },
    {
        if self.pos < self.input.len() {
            self.pos = self.pos + 1;
        }
        if self.pos < self.input.len() {
            Some(self.input[self.pos])
        } else {
            None
        }
    }

    /// Lex and return the next token.
    pub fn gettok(&mut self) -> (r: Token)
        requires
            old(self).wf(),
        ensures
            final(self).wf(),
            final(self).text() == old(self).text(),
            (r@, final(self).pos()) == next_token(old(self).text(), old(self).pos()),
    {
        let ghost s = self.input@;
        let ghost first = self.pos as int;
        let len = self.input.len();
        loop
            invariant
                s == self.input@,
                s == old(self).input@,
                first == old(self).pos,
                len == s.len(),
                first <= self.pos <= len,
                next_token(s, first) == next_token(s, self.pos as int),
            decreases len - self.pos,
        {
            let ghost p = self.pos as int;
            // Skip white space.
            while self.pos < len && is_space_exec(self.input[self.pos])
                invariant
                    s == self.input@,
                    len == s.len(),
                    p <= self.pos <= len,
                    skip_space(s, p) == skip_space(s, self.pos as int),
                decreases len - self.pos,
            {
                self.step();
            }
            let q = self.pos;
            if q >= len {
                return Token::Eof;
            }
            let c = self.input[q];
            if is_alpha_exec(c) {
                let mut word: Vec<char> = Vec::new();
                word.push(c);
                self.pos = q + 1;
                while self.pos < len && (is_alpha_exec(self.input[self.pos]) || is_digit_exec(
                    self.input[self.pos],
                ))
                    invariant
                        s == self.input@,
                        len == s.len(),
                        q < self.pos <= len,
                        word@ == s.subrange(q as int, self.pos as int),
                        ident_end(s, q + 1) == ident_end(s, self.pos as int),
                    decreases len - self.pos,
                {
                    word.push(self.input[self.pos]);
                    self.step();
                    assert(word@ =~= s.subrange(q as int, self.pos as int));
                }
                return word_token_exec(word);
            }
            if is_digit_exec(c) || c == '.' {
                let mut word: Vec<char> = Vec::new();
                word.push(c);
                self.pos = q + 1;
                while self.pos < len && (is_digit_exec(self.input[self.pos]) || self.input[self.pos]
                    == '.')
                    invariant
                        s == self.input@,
                        len == s.len(),
                        q < self.pos <= len,
                        word@ == s.subrange(q as int, self.pos as int),
                        number_end(s, q + 1) == number_end(s, self.pos as int),
                    decreases len - self.pos,
                {
                    word.push(self.input[self.pos]);
                    self.step();
                    assert(word@ =~= s.subrange(q as int, self.pos as int));
                }
                return Token::Number(number_text_exec(word));
            }
            if c == '#' {
                self.pos = q + 1;
                while self.pos < len && !(self.input[self.pos] == '\r' || self.input[self.pos]
                    == '\n')
                    invariant
                        s == self.input@,
                        len == s.len(),
                        q < self.pos <= len,
                        line_end(s, q + 1) == line_end(s, self.pos as int),
                    decreases len - self.pos,
                {
                    self.step();
                }
                if self.pos >= len {
                    return Token::Eof;
                }
            } else {
                self.pos = q + 1;
                return Token::Char(c);
            }
        }
    }
}

#[via_fn]
proof fn next_token_decreases(s: Seq<char>, p: int) {
    let q = skip_space(s, p);
    lemma_run_end(s, p, |c: char| is_space(c));
    if q < s.len() && !is_alpha(s[q]) && !is_num_char(s[q]) && s[q] == '#' {
        lemma_run_end(s, q + 1, |c: char| !is_newline(c));
    }
}

} // verus!
