use vstd::prelude::*;

use crate::error::{error_views, lemma_error_views_push, ErrorView, LoxError, LoxResult};
use crate::lexicon::{
    diagnostic, digits_end, end_token, find_char, is_alpha_char, is_word_char, keyword_kind,
    lemma_step_advances, line_tag, newlines, number_end, scan_from, step, step_errors, step_tokens,
    word_end, ErrorKind,
};
use crate::token::{lemma_token_views_push, token_views, Literal, LoxType, Token, TokenView};
use crate::token_type::TokenType;

verus! {

/// Turns source text into tokens, left to right, and collects the diagnostics met on the way.
#[derive(Debug)]
pub struct Scanner {
    tokens: Vec<Token>,
    errors: Vec<LoxError>,
    start: usize,
    start_line: usize,
    current: usize,
    line: usize,
}

/// The observable state of a `Scanner`.
pub struct ScannerView {
    pub tokens: Seq<TokenView>,
    pub errors: Seq<ErrorView>,
    pub current: nat,
    pub line: nat,
}

impl ScannerView {
    /// A scanner that has scanned nothing: cursor at the start, on line 1.
    pub open spec fn fresh(self) -> bool {
        &&& self.tokens == Seq::<TokenView>::empty()
        &&& self.errors == Seq::<ErrorView>::empty()
        &&& self.current == 0
        &&& self.line == 1
    }

    /// The state after one classification step on `s` at the cursor; no change at the end of
    /// `s`. Diagnostics are not recorded by a single step: see `step_report`.
    pub open spec fn after_step(self, s: Seq<char>) -> ScannerView {
        if self.current >= s.len() {
            self
        } else {
            let st = step(s, self.current, self.line);
            ScannerView {
                tokens: self.tokens + step_tokens(s, self.current, self.line),
                errors: self.errors,
                current: st.end,
                line: st.line,
            }
        }
    }

    /// The diagnostic, if any, of one classification step on `s` at the cursor.
    pub open spec fn step_report(self, s: Seq<char>) -> Seq<ErrorView> {
        if self.current >= s.len() {
            Seq::empty()
        } else {
            step_errors(s, self.current, self.line)
        }
    }

    /// The state after scanning `s` to its end from this state's cursor and line, the
    /// end-of-input token included.
    pub open spec fn after_scan(self, s: Seq<char>) -> ScannerView {
        let m = scan_from(s, self.current, self.line);
        ScannerView {
            tokens: self.tokens + m.tokens + seq![end_token(m.line)],
            errors: self.errors + m.errors,
            current: if self.current < s.len() {
                s.len()
            } else {
                self.current
            },
            line: m.line,
        }
    }
}

impl View for Scanner {
    type V = ScannerView;

    closed spec fn view(&self) -> ScannerView {
        ScannerView {
            tokens: token_views(self.tokens@),
            errors: error_views(self.errors@),
            current: self.current as nat,
            line: self.line as nat,
        }
    }
}

/// Whether `c` may start an identifier: alphabetic, or an underscore.
pub fn is_alpha(c: &char) -> (r: bool)
    ensures
        r == is_alpha_char(*c),
{
    c.is_alphabetic() || *c == '_'
}

/// Whether `c` may continue an identifier: it may start one, or it is numeric.
pub fn is_alphanumeric(c: &char) -> (r: bool)
    ensures
        r == is_word_char(*c),
{
    is_alpha(c) || c.is_numeric()
}

fn is_digit(c: char) -> (r: bool)
    ensures
        r == crate::lexicon::is_digit(c),
{
    '0' <= c && c <= '9'
}

/// The characters of `source`, in order.
fn decode(source: &str) -> (r: Vec<char>)
    ensures
        r@ == source@,
{
    let mut out: Vec<char> = Vec::new();
    for c in it: source.chars()
        invariant
            out@ == it.seq().take(it.index() as int),
            it.seq() == source@,
    {
        out.push(c);
    }
    out
}

/// The text of `src` from `from` to `to`.
fn slice_text(src: &Vec<char>, from: usize, to: usize) -> (r: String)
    requires
        from <= to <= src@.len(),
    ensures
        r@ == src@.subrange(from as int, to as int),
{
    let mut out = String::new();
    let mut i: usize = from;
    while i < to
        invariant
            from <= i <= to <= src@.len(),
            out@ == src@.subrange(from as int, i as int),
        decreases to - i,
    {
        out.push(src[i]);
        assert(src@.subrange(from as int, i + 1) =~= src@.subrange(from as int, i as int).push(
            src@[i as int],
        ));
        i += 1;
    }
    out
}

/// A line number as a diagnostic carries it.
fn tag(line: usize) -> (r: i32)
    ensures
        r == line_tag(line as nat),
{
    if line <= i32::MAX as usize {
        line as i32
    } else {
        i32::MAX
    }
}

impl Default for Scanner {
    fn default() -> (s: Scanner)
        ensures
            s.wf(),
            s@.fresh(),
    {
        Scanner::new()
    }
}

/// One classification step, with its diagnostic recorded, leaves the end state of a scan as it
/// was.
proof fn lemma_after_scan_unfold(v: ScannerView, s: Seq<char>)
    requires
        v.current < s.len(),
    ensures
        (ScannerView { errors: v.errors + v.step_report(s), ..v.after_step(s) }).after_scan(s)
            == v.after_scan(s),
{
    lemma_step_advances(s, v.current, v.line);
    let w = ScannerView { errors: v.errors + v.step_report(s), ..v.after_step(s) };
    assert(w.after_scan(s).tokens =~= v.after_scan(s).tokens);
    assert(w.after_scan(s).errors =~= v.after_scan(s).errors);
}

impl Scanner {
    /// The scanner's internal consistency: the line counter never runs ahead of the cursor.
    pub closed spec fn wf(&self) -> bool {
        self.line <= self.current + 1
    }

    /// A fresh scanner: no tokens, cursor at offset 0, line 1.
    pub fn new() -> (s: Self)
        ensures
            s.wf(),
            s@.fresh(),
    {
        let tokens: Vec<Token> = Vec::new();
        let errors: Vec<LoxError> = Vec::new();
        let s = Scanner { tokens, errors, start: 0, start_line: 1, current: 0, line: 1 };
        assert(token_views(s.tokens@) =~= Seq::<TokenView>::empty());
        assert(error_views(s.errors@) =~= Seq::<ErrorView>::empty());
        s
    }

    fn end_of_source(&self, src: &Vec<char>) -> (r: bool)
        ensures
            r == (self.current >= src@.len()),
    {
        self.current >= src.len()
    }

    /// Consumes the character under the cursor.
    fn advance(&mut self, src: &Vec<char>) -> (c: char)
        requires
            old(self).current < src@.len(),
        ensures
            c == src@[old(self).current as int],
            final(self).current == old(self).current + 1,
            *final(self) == (Scanner { current: (old(self).current + 1) as usize, ..*old(self) }),
    {
        let c = src[self.current];
        assert(self.current < src.len());
        self.current = self.current + 1;
        c
    }

    /// Consumes the character under the cursor when it is `m`.
    fn match_next(&mut self, m: char, src: &Vec<char>) -> (r: bool)
        ensures
            r == (old(self).current < src@.len() && src@[old(self).current as int] == m),
            final(self).current == old(self).current + if r {
                1int
            } else {
                0int
            },
            *final(self) == (Scanner {
                current: if r {
                    (old(self).current + 1) as usize
                } else {
                    old(self).current
                },
                ..*old(self)
            }),
    {
        if self.end_of_source(src) {
            return false;
        }
        if src[self.current] != m {
            return false;
        }
        assert(self.current < src.len());
        self.current = self.current + 1;
        true
    }

    /// The character under the cursor, or `'\0'` at the end of the source.
    fn peek(&self, src: &Vec<char>) -> (c: char)
        ensures
            c == if self.current < src@.len() {
                src@[self.current as int]
            } else {
                '\0'
            },
    {
        if self.end_of_source(src) {
            '\0'
        } else {
            src[self.current]
        }
    }

    /// The character after the one under the cursor, or `'\0'` past the end of the source.
    fn peek_next(&self, src: &Vec<char>) -> (c: char)
        ensures
            c == if self.current + 1 < src@.len() {
                src@[self.current + 1]
            } else {
                '\0'
            },
    {
        if self.current >= src.len() || self.current + 1 >= src.len() {
            '\0'
        } else {
            src[self.current + 1]
        }
    }

    /// The string literal whose opening quote was just consumed: its text up to the closing
    /// quote, which is consumed too. Newlines inside count as lines. Without a closing quote
    /// the rest of the source is consumed and the diagnostic names the line of the opening
    /// quote.
    fn string(&mut self, src: &Vec<char>) -> (r: LoxResult<String>)
        requires
            old(self).current <= src@.len() < usize::MAX,
            old(self).line <= old(self).current + 1,
        ensures
            ({
                let from = old(self).current as int;
                let e = find_char(src@, old(self).current as nat, '"');
                &&& final(self).line == old(self).line + newlines(src@.subrange(from, e as int))
                &&& final(self).line <= final(self).current + 1
                &&& old(self).current <= final(self).current <= src@.len()
                &&& final(self).tokens == old(self).tokens
                &&& final(self).errors == old(self).errors
                &&& final(self).start == old(self).start
                &&& final(self).start_line == old(self).start_line
                &&& if e < src@.len() {
                    &&& final(self).current == e + 1
                    &&& r matches Ok(t) && t@ == src@.subrange(from, e as int)
                } else {
                    &&& final(self).current == e
                    &&& r matches Err(err) && err@ == diagnostic(
                        old(self).start_line as nat,
                        ErrorKind::UnterminatedString,
                    )
                }
            }),
    {
        let from = self.current;
        while self.peek(src) != '"' && !self.end_of_source(src)
            invariant
                from == old(self).current,
                from <= self.current <= src@.len() < usize::MAX,
                find_char(src@, from as nat, '"') == find_char(src@, self.current as nat, '"'),
                self.line == old(self).line + newlines(src@.subrange(from as int, self.current as int)),
                self.line <= self.current + 1,
                self.tokens == old(self).tokens,
                self.errors == old(self).errors,
                self.start == old(self).start,
                self.start_line == old(self).start_line,
            decreases src@.len() - self.current,
        {
            let ghost at = self.current as int;
            if self.peek(src) == '\n' {
                self.line = self.line + 1;
            }
            self.advance(src);
            assert(src@.subrange(from as int, at + 1).drop_last() =~= src@.subrange(from as int, at));
        }
        if self.end_of_source(src) {
            return Err(LoxError::new(tag(self.start_line), ErrorKind::UnterminatedString.message()));
        }
        let to = self.current;
        self.advance(src);
        Ok(slice_text(src, from, to))
    }

    /// The rest of a numeral whose first digit was just consumed; returns the numeral's text.
    fn number(&mut self, src: &Vec<char>) -> (r: String)
        requires
            old(self).start <= old(self).current <= src@.len(),
        ensures
            final(self).current == number_end(src@, old(self).current as nat),
            old(self).current <= final(self).current <= src@.len(),
            *final(self) == (Scanner { current: final(self).current, ..*old(self) }),
            r@ == src@.subrange(old(self).start as int, final(self).current as int),
    {
        while is_digit(self.peek(src))
            invariant
                old(self).current <= self.current <= src@.len(),
                digits_end(src@, old(self).current as nat) == digits_end(src@, self.current as nat),
                self.tokens == old(self).tokens,
                self.errors == old(self).errors,
                self.start == old(self).start,
                self.start_line == old(self).start_line,
                self.line == old(self).line,
            decreases src@.len() - self.current,
        {
            self.advance(src);
        }
        let ghost e = self.current;
        if self.peek(src) == '.' && is_digit(self.peek_next(src)) {
            self.advance(src);
            while is_digit(self.peek(src))
                invariant
                    e + 1 <= self.current <= src@.len(),
                    digits_end(src@, (e + 1) as nat) == digits_end(src@, self.current as nat),
                    self.tokens == old(self).tokens,
                    self.errors == old(self).errors,
                    self.start == old(self).start,
                    self.start_line == old(self).start_line,
                    self.line == old(self).line,
                decreases src@.len() - self.current,
            {
                self.advance(src);
            }
        }
        slice_text(src, self.start, self.current)
    }

    /// The rest of a word whose first character was just consumed; returns the word's text.
    fn identifier(&mut self, src: &Vec<char>) -> (r: String)
        requires
            old(self).start <= old(self).current <= src@.len(),
        ensures
            final(self).current == word_end(src@, old(self).current as nat),
            old(self).current <= final(self).current <= src@.len(),
            *final(self) == (Scanner { current: final(self).current, ..*old(self) }),
            r@ == src@.subrange(old(self).start as int, final(self).current as int),
    {
        while !self.end_of_source(src) && is_alphanumeric(&src[self.current])
            invariant
                old(self).current <= self.current <= src@.len(),
                word_end(src@, old(self).current as nat) == word_end(src@, self.current as nat),
                self.tokens == old(self).tokens,
                self.errors == old(self).errors,
                self.start == old(self).start,
                self.start_line == old(self).start_line,
                self.line == old(self).line,
            decreases src@.len() - self.current,
        {
            self.advance(src);
        }
        slice_text(src, self.start, self.current)
    }

    /// Whether the current lexeme is exactly `word`.
    fn lexeme_is(&self, src: &Vec<char>, word: &str) -> (r: bool)
        requires
            self.start <= self.current <= src@.len(),
        ensures
            r == (src@.subrange(self.start as int, self.current as int) == word@),
    {
        let n = word.unicode_len();
        if self.current - self.start != n {
            return false;
        }
        let mut i: usize = 0;
        while i < n
            invariant
                n == word@.len(),
                self.current - self.start == n,
                self.start <= self.current <= src@.len(),
                i <= n,
                forall|k: int| 0 <= k < i ==> src@[self.start + k] == word@[k],
            decreases n - i,
        {
            if src[self.start + i] != word.get_char(i) {
                assert(src@.subrange(self.start as int, self.current as int)[i as int] != word@[i as int]);
                return false;
            }
            i += 1;
        }
        assert(src@.subrange(self.start as int, self.current as int) =~= word@);
        true
    }

    /// The kind of the current lexeme: a keyword's own kind on an exact match, else an
    /// identifier.
    fn keywords(&self, src: &Vec<char>) -> (r: TokenType)
        requires
            self.start <= self.current <= src@.len(),
        ensures
            r == keyword_kind(src@.subrange(self.start as int, self.current as int)),
    {
        if self.lexeme_is(src, "and") {
            TokenType::AND
        } else if self.lexeme_is(src, "class") {
            TokenType::CLASS
        } else if self.lexeme_is(src, "else") {
            TokenType::ELSE
        } else if self.lexeme_is(src, "false") {
            TokenType::FALSE
        } else if self.lexeme_is(src, "for") {
            TokenType::FOR
        } else if self.lexeme_is(src, "fun") {
            TokenType::FUN
        } else if self.lexeme_is(src, "if") {
            TokenType::IF
        } else if self.lexeme_is(src, "nil") {
            TokenType::NIL
        } else if self.lexeme_is(src, "or") {
            TokenType::OR
        } else if self.lexeme_is(src, "print") {
            TokenType::PRINT
        } else if self.lexeme_is(src, "return") {
            TokenType::RETURN
        } else if self.lexeme_is(src, "super") {
            TokenType::SUPER
        } else if self.lexeme_is(src, "this") {
            TokenType::THIS
        } else if self.lexeme_is(src, "true") {
            TokenType::TRUE
        } else if self.lexeme_is(src, "var") {
            TokenType::VAR
        } else if self.lexeme_is(src, "while") {
            TokenType::WHILE
        } else {
            TokenType::IDENTIFIER
        }
    }

    fn push_token(&mut self, ttype: TokenType, lexeme: String, literal: LoxType)
        ensures
            token_views(final(self).tokens@) == token_views(old(self).tokens@) + seq![
                TokenView {
                    ttype,
                    lexeme: lexeme@,
                    literal: literal@,
                    line: old(self).start_line as nat,
                },
            ],
            *final(self) == (Scanner { tokens: final(self).tokens, ..*old(self) }),
    {
        let token = Token::new(ttype, lexeme, literal, self.start_line);
        proof {
            lemma_token_views_push(self.tokens@, token);
        }
        self.tokens.push(token);
        assert(token_views(old(self).tokens@).push(token@) =~= token_views(old(self).tokens@) + seq![token@]);
    }

    /// Emits a token with the current lexeme; a string token carries `literal` as its text,
    /// any other kind no literal.
    fn add_token_stringish(&mut self, ttype: TokenType, literal: String, src: &Vec<char>)
        requires
            old(self).start <= old(self).current <= src@.len(),
        ensures
            token_views(final(self).tokens@) == token_views(old(self).tokens@) + seq![
                TokenView {
                    ttype,
                    lexeme: src@.subrange(old(self).start as int, old(self).current as int),
                    literal: if ttype == TokenType::STRING {
                        Literal::Text(literal@)
                    } else {
                        Literal::Nil
                    },
                    line: old(self).start_line as nat,
                },
            ],
            *final(self) == (Scanner { tokens: final(self).tokens, ..*old(self) }),
    {
        let literal = match ttype {
            TokenType::STRING => LoxType::Text(literal),
            _ => LoxType::Nil,
        };
        let lexeme = slice_text(src, self.start, self.current);
        self.push_token(ttype, lexeme, literal);
    }

    /// Emits a token with the current lexeme and `numeral` as its numeric literal.
    fn add_token_numeric(&mut self, ttype: TokenType, numeral: String, src: &Vec<char>)
        requires
            old(self).start <= old(self).current <= src@.len(),
        ensures
            token_views(final(self).tokens@) == token_views(old(self).tokens@) + seq![
                TokenView {
                    ttype,
                    lexeme: src@.subrange(old(self).start as int, old(self).current as int),
                    literal: Literal::Number(numeral@),
                    line: old(self).start_line as nat,
                },
            ],
            *final(self) == (Scanner { tokens: final(self).tokens, ..*old(self) }),
    {
        let lexeme = slice_text(src, self.start, self.current);
        self.push_token(ttype, lexeme, LoxType::Number(numeral));
    }

    /// Emits a token without literal: with the current lexeme, or with an empty one for the
    /// end-of-input token.
    fn add_token(&mut self, ttype: TokenType, src: &Vec<char>)
        requires
            ttype != TokenType::EOF ==> old(self).start <= old(self).current <= src@.len(),
        ensures
            token_views(final(self).tokens@) == token_views(old(self).tokens@) + seq![
                TokenView {
                    ttype,
                    lexeme: if ttype == TokenType::EOF {
                        Seq::empty()
                    } else {
                        src@.subrange(old(self).start as int, old(self).current as int)
                    },
                    literal: Literal::Nil,
                    line: old(self).start_line as nat,
                },
            ],
            *final(self) == (Scanner { tokens: final(self).tokens, ..*old(self) }),
    {
        let lexeme = match ttype {
            TokenType::EOF => String::new(),
            _ => slice_text(src, self.start, self.current),
        };
        self.push_token(ttype, lexeme, LoxType::Nil);
    }

    /// Classifies the token at the cursor: consumes it, emits its token if it has one, and
    /// returns its diagnostic if it has one.
    #[verifier::rlimit(40)]
    fn scan_next(&mut self, src: &Vec<char>) -> (r: LoxResult<()>)
        requires
            old(self).wf(),
            src@.len() < usize::MAX,
        ensures
            final(self).wf(),
            final(self)@ == old(self)@.after_step(src@),
            match r {
                Ok(_) => old(self)@.step_report(src@) == Seq::<ErrorView>::empty(),
                Err(e) => old(self)@.step_report(src@) == seq![e@],
            },
    {
        if self.end_of_source(src) {
            return Ok(());
        }
        self.start = self.current;
        self.start_line = self.line;
        let c = self.advance(src);
        let ghost q = self.current;
        match c {
            '(' => self.add_token(TokenType::LEFT_PAREN, src),
            ')' => self.add_token(TokenType::RIGHT_PAREN, src),
            '{' => self.add_token(TokenType::LEFT_BRACE, src),
            '}' => self.add_token(TokenType::RIGHT_BRACE, src),
            ',' => self.add_token(TokenType::COMMA, src),
            '.' => self.add_token(TokenType::DOT, src),
            '-' => self.add_token(TokenType::MINUS, src),
            '+' => self.add_token(TokenType::PLUS, src),
            ';' => self.add_token(TokenType::SEMICOLON, src),
            '*' => self.add_token(TokenType::STAR, src),
            '!' => {
                if self.match_next('=', src) {
                    self.add_token(TokenType::BANG_EQUAL, src)
                } else {
                    self.add_token(TokenType::BANG, src)
                }
            },
            '=' => {
                if self.match_next('=', src) {
                    self.add_token(TokenType::EQUAL_EQUAL, src)
                } else {
                    self.add_token(TokenType::EQUAL, src)
                }
            },
            '<' => {
                if self.match_next('=', src) {
                    self.add_token(TokenType::LESS_EQUAL, src)
                } else {
                    self.add_token(TokenType::LESS, src)
                }
            },
            '>' => {
                if self.match_next('=', src) {
                    self.add_token(TokenType::GREATER_EQUAL, src)
                } else {
                    self.add_token(TokenType::GREATER, src)
                }
            },
            '/' => {
                if self.match_next('/', src) {
                    while self.peek(src) != '\n' && !self.end_of_source(src)
                        invariant
                            q + 1 <= self.current <= src@.len(),
                            find_char(src@, (q + 1) as nat, '\n') == find_char(
                                src@,
                                self.current as nat,
                                '\n',
                            ),
                            self.tokens == old(self).tokens,
                            self.errors == old(self).errors,
                            self.line == old(self).line,
                            self.line <= q + 1,
                        decreases src@.len() - self.current,
                    {
                        self.advance(src);
                    }
                } else {
                    self.add_token(TokenType::SLASH, src)
                }
            },
            ' ' | '\t' | '\r' => {},
            '\n' => {
                self.line = self.line + 1;
            },
            '"' => {
                match self.string(src) {
                    Ok(text) => self.add_token_stringish(TokenType::STRING, text, src),
                    Err(e) => {
                        return Err(e);
                    },
                }
            },
            _ => {
                if is_digit(c) {
                    let numeral = self.number(src);
                    self.add_token_numeric(TokenType::NUMBER, numeral, src);
                } else if is_alpha(&c) {
                    let word = self.identifier(src);
                    let ttype = self.keywords(src);
                    self.add_token_stringish(ttype, word, src);
                } else {
                    return Err(
                        LoxError::new(tag(self.start_line), ErrorKind::InvalidCharacter.message()),
                    );
                }
            },
        }
        Ok(())
    }

    /// Scans the token at the cursor of `source`: the next step of a scan, which returns its
    /// diagnostic rather than recording it. At the end of `source` it does nothing.
    pub fn scan_token(&mut self, source: &str) -> (r: LoxResult<()>)
        requires
            old(self).wf(),
            source@.len() < usize::MAX,
        ensures
            final(self).wf(),
            final(self)@ == old(self)@.after_step(source@),
            match r {
                Ok(_) => old(self)@.step_report(source@) == Seq::<ErrorView>::empty(),
                Err(e) => old(self)@.step_report(source@) == seq![e@],
            },
    {
        let src = decode(source);
        self.scan_next(&src)
    }

    /// Scans `source` to its end, starting at the cursor and line counter, then appends the
    /// end-of-input token; returns all tokens produced so far. The diagnostics met are
    /// recorded, in order, and scanning goes on after each of them. The source must be shorter
    /// than `usize::MAX` characters, so that every line number fits in a `usize`.
    pub fn scan_tokens(&mut self, source: String) -> (r: &Vec<Token>)
        requires
            old(self).wf(),
            source@.len() < usize::MAX,
        ensures
            final(self).wf(),
            final(self)@ == old(self)@.after_scan(source@),
            token_views(r@) == final(self)@.tokens,
    {
        let src = decode(source.as_str());
        while !self.end_of_source(&src)
            invariant
                self.wf(),
                src@ == source@,
                src@.len() < usize::MAX,
                self@.after_scan(src@) == old(self)@.after_scan(src@),
                old(self).current < src@.len() ==> self.current <= src@.len(),
                old(self).current >= src@.len() ==> self@ == old(self)@,
            decreases src@.len() - self.current,
        {
            let ghost before = self@;
            proof {
                lemma_step_advances(src@, self.current as nat, self.line as nat);
                lemma_after_scan_unfold(before, src@);
            }
            match self.scan_next(&src) {
                Ok(()) => {},
                Err(e) => {
                    proof {
                        lemma_error_views_push(self.errors@, e);
                    }
                    self.errors.push(e);
                },
            }
            assert(self@ == (ScannerView {
                errors: before.errors + before.step_report(src@),
                ..before.after_step(src@)
            })) by {
                assert(self@.errors =~= before.errors + before.step_report(src@));
            }
        }
        self.start_line = self.line;
        self.add_token(TokenType::EOF, &src);
        proof {
            assert(self@.tokens =~= old(self)@.after_scan(src@).tokens);
            assert(self@.errors =~= old(self)@.after_scan(src@).errors);
        }
        &self.tokens
    }

    /// The line counter: 1 plus the number of newlines consumed so far.
    pub fn line(&self) -> (r: usize)
        ensures
            r == self@.line,
    {
        self.line
    }

    /// The tokens produced so far.
    pub fn tokens(&self) -> (r: &Vec<Token>)
        ensures
            token_views(r@) == self@.tokens,
    {
        &self.tokens
    }

    /// The diagnostics reported so far, in source order.
    pub fn errors(&self) -> (r: &Vec<LoxError>)
        ensures
            error_views(r@) == self@.errors,
    {
        &self.errors
    }
}

} // verus!
