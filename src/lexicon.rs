use vstd::prelude::*;

use crate::error::ErrorView;
use crate::token::{Literal, TokenView};
use crate::token_type::TokenType;

verus! {

/// Whether a character has the Unicode `Alphabetic` property.
pub uninterp spec fn alphabetic(c: char) -> bool;

/// Whether a character falls in one of Unicode's general categories for numbers.
pub uninterp spec fn numeric(c: char) -> bool;

/// Relies on `char::is_alphabetic`: whether `c` has the Unicode `Alphabetic` property, which
/// depends on `c` alone.
pub assume_specification[ char::is_alphabetic ](c: char) -> (r: bool)
    ensures
        r == alphabetic(c),
;

/// Relies on `char::is_numeric`: whether `c` is in a Unicode number category (Nd, Nl or No),
/// which depends on `c` alone.
pub assume_specification[ char::is_numeric ](c: char) -> (r: bool)
    ensures
        r == numeric(c),
;

/// Relies on `String::push`: the character is appended at the end.
pub assume_specification[ String::push ](s: &mut String, ch: char)
    ensures
        final(s)@ == old(s)@.push(ch),
;

/// A decimal digit `0` to `9`.
pub open spec fn is_digit(c: char) -> bool {
    '0' <= c <= '9'
}

/// A character that may start an identifier.
pub open spec fn is_alpha_char(c: char) -> bool {
    alphabetic(c) || c == '_'
}

/// A character that may continue an identifier.
pub open spec fn is_word_char(c: char) -> bool {
    is_alpha_char(c) || numeric(c)
}

/// Whitespace between tokens: space, tab, carriage return or newline.
pub open spec fn is_blank(c: char) -> bool {
    c == ' ' || c == '\t' || c == '\r' || c == '\n'
}

/// The kind of each of the ten single-character punctuation marks.
pub open spec fn punctuation_kind(c: char) -> Option<TokenType> {
    if c == '(' {
        Some(TokenType::LEFT_PAREN)
    } else if c == ')' {
        Some(TokenType::RIGHT_PAREN)
    } else if c == '{' {
        Some(TokenType::LEFT_BRACE)
    } else if c == '}' {
        Some(TokenType::RIGHT_BRACE)
    } else if c == ',' {
        Some(TokenType::COMMA)
    } else if c == '.' {
        Some(TokenType::DOT)
    } else if c == '-' {
        Some(TokenType::MINUS)
    } else if c == '+' {
        Some(TokenType::PLUS)
    } else if c == ';' {
        Some(TokenType::SEMICOLON)
    } else if c == '*' {
        Some(TokenType::STAR)
    } else {
        None
    }
}

/// The kinds of `!`, `=`, `<` and `>`: alone, and followed by `=`.
pub open spec fn operator_kinds(c: char) -> Option<(TokenType, TokenType)> {
    if c == '!' {
        Some((TokenType::BANG, TokenType::BANG_EQUAL))
    } else if c == '=' {
        Some((TokenType::EQUAL, TokenType::EQUAL_EQUAL))
    } else if c == '<' {
        Some((TokenType::LESS, TokenType::LESS_EQUAL))
    } else if c == '>' {
        Some((TokenType::GREATER, TokenType::GREATER_EQUAL))
    } else {
        None
    }
}

/// The kind of a word: its keyword kind on an exact match of the keyword table, else an
/// identifier.
pub open spec fn keyword_kind(w: Seq<char>) -> TokenType {
    if w == "and"@ {
        TokenType::AND
    } else if w == "class"@ {
        TokenType::CLASS
    } else if w == "else"@ {
        TokenType::ELSE
    } else if w == "false"@ {
        TokenType::FALSE
    } else if w == "for"@ {
        TokenType::FOR
    } else if w == "fun"@ {
        TokenType::FUN
    } else if w == "if"@ {
        TokenType::IF
    } else if w == "nil"@ {
        TokenType::NIL
    } else if w == "or"@ {
        TokenType::OR
    } else if w == "print"@ {
        TokenType::PRINT
    } else if w == "return"@ {
        TokenType::RETURN
    } else if w == "super"@ {
        TokenType::SUPER
    } else if w == "this"@ {
        TokenType::THIS
    } else if w == "true"@ {
        TokenType::TRUE
    } else if w == "var"@ {
        TokenType::VAR
    } else if w == "while"@ {
        TokenType::WHILE
    } else {
        TokenType::IDENTIFIER
    }
}

/// The end of the maximal run of decimal digits in `s` from `p`.
pub open spec fn digits_end(s: Seq<char>, p: nat) -> nat
    decreases s.len() - p,
{
    if p < s.len() && is_digit(s[p as int]) {
        digits_end(s, p + 1)
    } else {
        p
    }
}

/// The end of the maximal run of identifier characters in `s` from `p`.
pub open spec fn word_end(s: Seq<char>, p: nat) -> nat
    decreases s.len() - p,
{
    if p < s.len() && is_word_char(s[p as int]) {
        word_end(s, p + 1)
    } else {
        p
    }
}

/// The position of the first `c` in `s` from `p`, or the length of `s` when there is none.
pub open spec fn find_char(s: Seq<char>, p: nat, c: char) -> nat
    decreases s.len() - p,
{
    if p < s.len() && s[p as int] != c {
        find_char(s, p + 1, c)
    } else {
        p
    }
}

/// The end of a numeral whose first digit is at `p - 1`: a run of digits, then a dot and a
/// second run of digits only where a digit follows the dot.
pub open spec fn number_end(s: Seq<char>, p: nat) -> nat {
    let e = digits_end(s, p);
    if e + 1 < s.len() && s[e as int] == '.' && is_digit(s[e + 1int]) {
        digits_end(s, e + 1)
    } else {
        e
    }
}

/// The number of newlines in `s`.
pub open spec fn newlines(s: Seq<char>) -> nat
    decreases s.len(),
{
    if s.len() == 0 {
        0
    } else {
        newlines(s.drop_last()) + if s.last() == '\n' {
            1nat
        } else {
            0nat
        }
    }
}

/// The two diagnostics of the scanner.
#[derive(Debug, Clone, Copy, PartialEq, Eq, Structural)]
pub enum ErrorKind {
    /// A character that starts no token.
    InvalidCharacter,
    /// A string literal without its closing quote.
    UnterminatedString,
}

impl ErrorKind {
    pub open spec fn text(self) -> Seq<char> {
        match self {
            ErrorKind::InvalidCharacter => "Invalid Character"@,
            ErrorKind::UnterminatedString => "Unterminated String"@,
        }
    }

    /// The message of the diagnostic.
    pub fn message(&self) -> (r: &'static str)
        ensures
            r@ == self.text(),
    {
        match self {
            ErrorKind::InvalidCharacter => "Invalid Character",
            ErrorKind::UnterminatedString => "Unterminated String",
        }
    }
}

/// A line number as a diagnostic carries it: saturated at `i32::MAX`.
pub open spec fn line_tag(line: nat) -> i32 {
    if line <= i32::MAX {
        line as i32
    } else {
        i32::MAX
    }
}

/// The diagnostic of `kind` for a token that starts on `line`.
pub open spec fn diagnostic(line: nat, kind: ErrorKind) -> ErrorView {
    ErrorView { line: line_tag(line), place: None, message: Some(kind.text()) }
}

/// What one classification step does with the token that starts at the cursor.
pub enum Outcome {
    /// A token of this kind and literal, whose lexeme is the consumed text.
    Emit(TokenType, Literal),
    /// Whitespace or a comment: consumed, no token.
    Skip,
    /// A diagnostic; nothing is emitted for the consumed text.
    Fail(ErrorKind),
}

/// One classification step: where the cursor goes, the line counter after it, and the outcome.
pub struct Step {
    pub end: nat,
    pub line: nat,
    pub outcome: Outcome,
}

/// The classification step for the token starting at `p` (with `p < s.len()`), on `line`.
pub open spec fn step(s: Seq<char>, p: nat, line: nat) -> Step {
    let c = s[p as int];
    let q = p + 1;
    if punctuation_kind(c) is Some {
        Step { end: q, line, outcome: Outcome::Emit(punctuation_kind(c)->0, Literal::Nil) }
    } else if operator_kinds(c) is Some {
        let kinds = operator_kinds(c)->0;
        if q < s.len() && s[q as int] == '=' {
            Step { end: q + 1, line, outcome: Outcome::Emit(kinds.1, Literal::Nil) }
        } else {
            Step { end: q, line, outcome: Outcome::Emit(kinds.0, Literal::Nil) }
        }
    } else if c == '/' {
        if q < s.len() && s[q as int] == '/' {
            Step { end: find_char(s, q + 1, '\n'), line, outcome: Outcome::Skip }
        } else {
            Step { end: q, line, outcome: Outcome::Emit(TokenType::SLASH, Literal::Nil) }
        }
    } else if c == '\n' {
        Step { end: q, line: line + 1, outcome: Outcome::Skip }
    } else if is_blank(c) {
        Step { end: q, line, outcome: Outcome::Skip }
    } else if c == '"' {
        let e = find_char(s, q, '"');
        let after = line + newlines(s.subrange(q as int, e as int));
        if e < s.len() {
            Step {
                end: e + 1,
                line: after,
                outcome: Outcome::Emit(TokenType::STRING, Literal::Text(s.subrange(q as int, e as int))),
            }
        } else {
            Step { end: e, line: after, outcome: Outcome::Fail(ErrorKind::UnterminatedString) }
        }
    } else if is_digit(c) {
        let e = number_end(s, q);
        Step {
            end: e,
            line,
            outcome: Outcome::Emit(TokenType::NUMBER, Literal::Number(s.subrange(p as int, e as int))),
        }
    } else if is_alpha_char(c) {
        let e = word_end(s, q);
        Step {
            end: e,
            line,
            outcome: Outcome::Emit(keyword_kind(s.subrange(p as int, e as int)), Literal::Nil),
        }
    } else {
        Step { end: q, line, outcome: Outcome::Fail(ErrorKind::InvalidCharacter) }
    }
}


/// What a scan from `p` on `line` to the end of `s` yields: its tokens and its diagnostics in
/// source order, and the line counter at the end.
pub struct Scanned {
    pub tokens: Seq<TokenView>,
    pub errors: Seq<ErrorView>,
    pub line: nat,
}

/// The tokens that the step at `p` emits: none, or one whose lexeme is the consumed text and
/// whose line is the line on which it starts.
pub open spec fn step_tokens(s: Seq<char>, p: nat, line: nat) -> Seq<TokenView> {
    let st = step(s, p, line);
    match st.outcome {
        Outcome::Emit(ttype, literal) => seq![
            TokenView { ttype, lexeme: s.subrange(p as int, st.end as int), literal, line },
        ],
        _ => Seq::empty(),
    }
}

/// The diagnostics that the step at `p` reports: none, or one tagged with its starting line.
pub open spec fn step_errors(s: Seq<char>, p: nat, line: nat) -> Seq<ErrorView> {
    match step(s, p, line).outcome {
        Outcome::Fail(kind) => seq![diagnostic(line, kind)],
        _ => Seq::empty(),
    }
}

/// Scanning `s` from `p` on `line`: one classification step after another until the end.
pub open spec fn scan_from(s: Seq<char>, p: nat, line: nat) -> Scanned
    decreases s.len() - p,
{
    if p >= s.len() {
        Scanned { tokens: Seq::empty(), errors: Seq::empty(), line }
    } else {
        let st = step(s, p, line);
        proof {
            lemma_step_advances(s, p, line);
        }
        let rest = scan_from(s, st.end, st.line);
        Scanned {
            tokens: step_tokens(s, p, line) + rest.tokens,
            errors: step_errors(s, p, line) + rest.errors,
            line: rest.line,
        }
    }
}

/// Scanning a whole source from its start, on line 1.
pub open spec fn scan(s: Seq<char>) -> Scanned {
    scan_from(s, 0, 1)
}

/// The end-of-input token on `line`.
pub open spec fn end_token(line: nat) -> TokenView {
    TokenView { ttype: TokenType::EOF, lexeme: Seq::empty(), literal: Literal::Nil, line }
}

pub proof fn lemma_find_char_bounds(s: Seq<char>, p: nat, c: char)
    requires
        p <= s.len(),
    ensures
        p <= find_char(s, p, c) <= s.len(),
    decreases s.len() - p,
{
    if p < s.len() && s[p as int] != c {
        lemma_find_char_bounds(s, p + 1, c);
    }
}

pub proof fn lemma_digits_end_bounds(s: Seq<char>, p: nat)
    requires
        p <= s.len(),
    ensures
        p <= digits_end(s, p) <= s.len(),
    decreases s.len() - p,
{
    if p < s.len() && is_digit(s[p as int]) {
        lemma_digits_end_bounds(s, p + 1);
    }
}

pub proof fn lemma_word_end_bounds(s: Seq<char>, p: nat)
    requires
        p <= s.len(),
    ensures
        p <= word_end(s, p) <= s.len(),
    decreases s.len() - p,
{
    if p < s.len() && is_word_char(s[p as int]) {
        lemma_word_end_bounds(s, p + 1);
    }
}

/// Every step consumes at least one character and stays within the source.
pub proof fn lemma_step_advances(s: Seq<char>, p: nat, line: nat)
    requires
        p < s.len(),
    ensures
        p < step(s, p, line).end <= s.len(),
        line <= step(s, p, line).line,
{
    let q = p + 1;
    lemma_find_char_bounds(s, q, '"');
    if q < s.len() {
        lemma_find_char_bounds(s, q + 1, '\n');
    }
    lemma_digits_end_bounds(s, q);
    let e = digits_end(s, q);
    if e + 1 < s.len() {
        lemma_digits_end_bounds(s, e + 1);
    }
    lemma_word_end_bounds(s, q);
}

} // verus!
