use vstd::prelude::*;

use crate::lexicon::{
    diagnostic, digits_end, end_token, find_char, is_alpha_char, is_blank, is_digit, is_word_char,
    lemma_digits_end_bounds, lemma_find_char_bounds, lemma_step_advances, newlines, word_end,
    operator_kinds, punctuation_kind, scan_from, step, step_tokens, ErrorKind,
};
use crate::scanner::ScannerView;
use crate::token::{Literal, TokenView};
use crate::token_type::TokenType;

verus! {

/// A token without literal on line 1.
pub open spec fn plain_token(ttype: TokenType, lexeme: Seq<char>) -> TokenView {
    TokenView { ttype, lexeme, literal: Literal::Nil, line: 1 }
}

proof fn lemma_find_char_first(s: Seq<char>, p: nat, e: nat, c: char)
    requires
        p <= e <= s.len(),
        forall|i: int| p <= i < e ==> s[i] != c,
        e == s.len() || s[e as int] == c,
    ensures
        find_char(s, p, c) == e,
    decreases e - p,
{
    if p < e {
        lemma_find_char_first(s, p + 1, e, c);
    }
}

proof fn lemma_digits_run(s: Seq<char>, p: nat, e: nat)
    requires
        p <= e <= s.len(),
        forall|i: int| p <= i < e ==> is_digit(s[i]),
        e == s.len() || !is_digit(s[e as int]),
    ensures
        digits_end(s, p) == e,
    decreases e - p,
{
    if p < e {
        lemma_digits_run(s, p + 1, e);
    }
}

/// Scanning the same source with two fresh scanners gives the same tokens, the same
/// diagnostics and the same line counter.
pub proof fn lemma_scan_deterministic(a: ScannerView, b: ScannerView, s: Seq<char>)
    requires
        a.fresh(),
        b.fresh(),
    ensures
        a.after_scan(s) == b.after_scan(s),
{
    assert(a == b);
}

/// A source made of one recognised symbol scans to exactly that symbol's token, followed by
/// the end-of-input token, with no diagnostic: each punctuation mark, each of `!`, `=`, `<`,
/// `>` and `/` alone, and each of `!`, `=`, `<`, `>` followed by `=`.
pub proof fn lemma_single_symbol(v: ScannerView, c: char)
    requires
        v.fresh(),
    ensures
        punctuation_kind(c) is Some ==> {
            let r = v.after_scan(seq![c]);
            &&& r.tokens == seq![plain_token(punctuation_kind(c)->0, seq![c]), end_token(1)]
            &&& r.errors.len() == 0
        },
        operator_kinds(c) is Some ==> {
            let r = v.after_scan(seq![c]);
            let kinds = operator_kinds(c)->0;
            &&& r.tokens == seq![plain_token(kinds.0, seq![c]), end_token(1)]
            &&& r.errors.len() == 0
        },
        operator_kinds(c) is Some ==> {
            let r = v.after_scan(seq![c, '=']);
            let kinds = operator_kinds(c)->0;
            &&& r.tokens == seq![plain_token(kinds.1, seq![c, '=']), end_token(1)]
            &&& r.errors.len() == 0
        },
        c == '/' ==> {
            let r = v.after_scan(seq![c]);
            &&& r.tokens == seq![plain_token(TokenType::SLASH, seq![c]), end_token(1)]
            &&& r.errors.len() == 0
        },
{
    let one = seq![c];
    let two = seq![c, '='];
    assert(one.subrange(0, 1) =~= one);
    assert(two.subrange(0, 2) =~= two);
    let r1 = v.after_scan(one);
    let r2 = v.after_scan(two);
    assert(scan_from(one, 1, 1).tokens.len() == 0);
    assert(scan_from(two, 2, 1).tokens.len() == 0);
    if punctuation_kind(c) is Some || operator_kinds(c) is Some || c == '/' {
        assert(r1.tokens =~= scan_from(one, 0, 1).tokens + seq![end_token(1)]);
    }
    if operator_kinds(c) is Some {
        assert(r2.tokens =~= scan_from(two, 0, 1).tokens + seq![end_token(1)]);
    }
}

/// A string literal scans to one string token whose literal is the text between the quotes,
/// newlines included, and the line counter advances by the newlines inside.
pub proof fn lemma_string_round_trip(v: ScannerView, t: Seq<char>)
    requires
        v.fresh(),
        forall|i: int| 0 <= i < t.len() ==> t[i] != '"',
    ensures
        ({
            let s = seq!['"'] + t + seq!['"'];
            let r = v.after_scan(s);
            &&& r.tokens == seq![
                TokenView { ttype: TokenType::STRING, lexeme: s, literal: Literal::Text(t), line: 1 },
                end_token(1 + newlines(t)),
            ]
            &&& r.errors.len() == 0
            &&& r.line == 1 + newlines(t)
        }),
{
    let s = seq!['"'] + t + seq!['"'];
    let e = t.len() + 1;
    lemma_find_char_first(s, 1, e, '"');
    assert(s.subrange(1, e as int) =~= t);
    assert(s.subrange(0, s.len() as int) =~= s);
    let st = step(s, 0, 1);
    assert(st.end == s.len() && st.line == 1 + newlines(t));
    let rest = scan_from(s, st.end, st.line);
    assert(rest.tokens.len() == 0 && rest.errors.len() == 0 && rest.line == st.line);
    let r = v.after_scan(s);
    assert(r.tokens =~= scan_from(s, 0, 1).tokens + seq![end_token(1 + newlines(t))]);
}

/// A string literal without its closing quote yields no token and one diagnostic, tagged with
/// the line of the opening quote; the scan still ends with the end-of-input token.
pub proof fn lemma_unterminated_string(v: ScannerView, t: Seq<char>)
    requires
        v.fresh(),
        forall|i: int| 0 <= i < t.len() ==> t[i] != '"',
    ensures
        ({
            let r = v.after_scan(seq!['"'] + t);
            &&& r.tokens == seq![end_token(1 + newlines(t))]
            &&& r.errors == seq![diagnostic(1, ErrorKind::UnterminatedString)]
            &&& r.line == 1 + newlines(t)
        }),
{
    let s = seq!['"'] + t;
    lemma_find_char_first(s, 1, s.len(), '"');
    assert(s.subrange(1, s.len() as int) =~= t);
    let st = step(s, 0, 1);
    assert(st.end == s.len() && st.line == 1 + newlines(t));
    let rest = scan_from(s, st.end, st.line);
    assert(rest.tokens.len() == 0 && rest.errors.len() == 0 && rest.line == st.line);
    let r = v.after_scan(s);
    assert(r.tokens =~= seq![end_token(1 + newlines(t))]);
    assert(r.errors =~= seq![diagnostic(1, ErrorKind::UnterminatedString)]);
}

/// A dot after a run of digits that no digit follows is not part of the numeral: the numeral
/// is one number token and the dot a token of its own.
pub proof fn lemma_number_stops_before_bare_dot(v: ScannerView, d: Seq<char>, rest: Seq<char>)
    requires
        v.fresh(),
        d.len() > 0,
        forall|i: int| 0 <= i < d.len() ==> is_digit(d[i]),
        rest.len() == 0 || !is_digit(rest[0]),
    ensures
        ({
            let r = v.after_scan(d + seq!['.'] + rest);
            &&& r.tokens.len() >= 2
            &&& r.tokens[0] == TokenView {
                ttype: TokenType::NUMBER,
                lexeme: d,
                literal: Literal::Number(d),
                line: 1,
            }
            &&& r.tokens[1] == plain_token(TokenType::DOT, seq!['.'])
        }),
{
    let s = d + seq!['.'] + rest;
    let n = d.len();
    lemma_digits_run(s, 1, n);
    assert(s.subrange(0, n as int) =~= d);
    assert(s.subrange(n as int, n + 1int) =~= seq!['.']);
    if rest.len() > 0 {
        assert(s[n + 1int] == rest[0]);
    }
    let tail = scan_from(s, n + 1, 1);
    assert(scan_from(s, n, 1).tokens =~= seq![plain_token(TokenType::DOT, seq!['.'])] + tail.tokens);
    let r = v.after_scan(s);
    assert(r.tokens =~= seq![
        TokenView { ttype: TokenType::NUMBER, lexeme: d, literal: Literal::Number(d), line: 1 },
    ] + scan_from(s, n, 1).tokens + seq![end_token(tail.line)]);
}

/// A character that starts no token yields no token and one diagnostic on line 1; the scan
/// still ends with the end-of-input token.
pub proof fn lemma_invalid_character(v: ScannerView, c: char)
    requires
        v.fresh(),
        punctuation_kind(c) is None,
        operator_kinds(c) is None,
        c != '/',
        !is_blank(c),
        c != '"',
        !is_digit(c),
        !is_alpha_char(c),
    ensures
        ({
            let r = v.after_scan(seq![c]);
            &&& r.tokens == seq![end_token(1)]
            &&& r.errors == seq![diagnostic(1, ErrorKind::InvalidCharacter)]
            &&& r.line == 1
        }),
{
    let rest = scan_from(seq![c], 1, 1);
    assert(rest.tokens.len() == 0 && rest.errors.len() == 0 && rest.line == 1);
    let r = v.after_scan(seq![c]);
    assert(r.tokens =~= seq![end_token(1)]);
    assert(r.errors =~= seq![diagnostic(1, ErrorKind::InvalidCharacter)]);
}

/// A full-line comment yields no token: only the end-of-input token, on the next line.
pub proof fn lemma_line_comment(v: ScannerView, t: Seq<char>)
    requires
        v.fresh(),
        forall|i: int| 0 <= i < t.len() ==> t[i] != '\n',
    ensures
        ({
            let r = v.after_scan(seq!['/', '/'] + t + seq!['\n']);
            &&& r.tokens == seq![end_token(2)]
            &&& r.errors.len() == 0
            &&& r.line == 2
        }),
{
    let s = seq!['/', '/'] + t + seq!['\n'];
    let e = t.len() + 2;
    lemma_find_char_first(s, 2, e, '\n');
    let rest = scan_from(s, e + 1, 2);
    assert(rest.tokens.len() == 0 && rest.errors.len() == 0 && rest.line == 2);
    let tail = scan_from(s, e, 1);
    assert(tail.tokens.len() == 0 && tail.errors.len() == 0 && tail.line == 2);
    let r = v.after_scan(s);
    assert(r.tokens =~= seq![end_token(2)]);
}

proof fn lemma_newlines_concat(a: Seq<char>, b: Seq<char>)
    ensures
        newlines(a + b) == newlines(a) + newlines(b),
    decreases b.len(),
{
    if b.len() == 0 {
        assert(a + b =~= a);
    } else {
        assert((a + b).drop_last() =~= a + b.drop_last());
        lemma_newlines_concat(a, b.drop_last());
    }
}

proof fn lemma_newlines_none(a: Seq<char>)
    requires
        forall|i: int| 0 <= i < a.len() ==> a[i] != '\n',
    ensures
        newlines(a) == 0,
    decreases a.len(),
{
    if a.len() > 0 {
        lemma_newlines_none(a.drop_last());
    }
}

proof fn lemma_find_char_skips(s: Seq<char>, p: nat, c: char)
    requires
        p <= s.len(),
    ensures
        forall|i: int| p <= i < find_char(s, p, c) ==> s[i] != c,
    decreases s.len() - p,
{
    if p < s.len() && s[p as int] != c {
        lemma_find_char_skips(s, p + 1, c);
    }
}

proof fn lemma_find_char_first_hit(s: Seq<char>, p: nat, c: char)
    requires
        p <= s.len(),
    ensures
        find_char(s, p, c) < s.len() ==> s[find_char(s, p, c) as int] == c,
    decreases s.len() - p,
{
    if p < s.len() && s[p as int] != c {
        lemma_find_char_first_hit(s, p + 1, c);
    }
}

proof fn lemma_digits_end_run(s: Seq<char>, p: nat)
    requires
        p <= s.len(),
    ensures
        forall|i: int| p <= i < digits_end(s, p) ==> is_digit(s[i]),
    decreases s.len() - p,
{
    if p < s.len() && is_digit(s[p as int]) {
        lemma_digits_end_run(s, p + 1);
    }
}

proof fn lemma_word_end_run(s: Seq<char>, p: nat)
    requires
        p <= s.len(),
    ensures
        forall|i: int| p <= i < word_end(s, p) ==> is_word_char(s[i]),
    decreases s.len() - p,
{
    if p < s.len() && is_word_char(s[p as int]) {
        lemma_word_end_run(s, p + 1);
    }
}

/// A step's line counter advances by the number of newlines in the text it consumes.
proof fn lemma_step_lines(s: Seq<char>, p: nat, line: nat)
    requires
        p < s.len(),
        !is_word_char('\n'),
    ensures
        step(s, p, line).line == line + newlines(s.subrange(p as int, step(s, p, line).end as int)),
{
    let st = step(s, p, line);
    let c = s[p as int];
    let q = p + 1;
    lemma_step_advances(s, p, line);
    let seg = s.subrange(p as int, st.end as int);
    if c == '"' {
        let e = find_char(s, q, '"');
        lemma_find_char_bounds(s, q, '"');
        lemma_newlines_concat(seq![c], s.subrange(q as int, e as int));
        assert(seq![c] + s.subrange(q as int, e as int) =~= s.subrange(p as int, e as int));
        assert(newlines(seq![c]) == 0) by {
            assert(seq![c].drop_last() =~= Seq::<char>::empty());
            assert(newlines(Seq::<char>::empty()) == 0);
        }
        if e < s.len() {
            assert(st.end == e + 1);
            assert(s[e as int] == '"') by {
                lemma_find_char_first_hit(s, q, '"');
            }
            lemma_newlines_concat(s.subrange(p as int, e as int), seq!['"']);
            assert(s.subrange(p as int, e as int) + seq!['"'] =~= seg);
            assert(newlines(seq!['"']) == 0) by {
                assert(seq!['"'].drop_last() =~= Seq::<char>::empty());
                assert(newlines(Seq::<char>::empty()) == 0);
            }
        } else {
            assert(s.subrange(p as int, e as int) =~= seg);
        }
    } else if c == '\n' && punctuation_kind(c) is None && operator_kinds(c) is None {
        assert(seg =~= seq!['\n']);
        assert(seq!['\n'].drop_last() =~= Seq::<char>::empty());
        assert(newlines(Seq::<char>::empty()) == 0);
    } else {
        if q < s.len() {
            lemma_find_char_skips(s, q + 1, '\n');
            lemma_find_char_bounds(s, q + 1, '\n');
        }
        lemma_digits_end_run(s, q);
        lemma_digits_end_bounds(s, q);
        let e = digits_end(s, q);
        if e + 1 < s.len() {
            lemma_digits_end_run(s, e + 1);
        }
        lemma_word_end_run(s, q);
        assert forall|i: int| 0 <= i < seg.len() implies seg[i] != '\n' by {
            assert(seg[i] == s[p + i]);
        }
        lemma_newlines_none(seg);
    }
}

proof fn lemma_scan_lines(s: Seq<char>, p: nat, line: nat)
    requires
        p <= s.len(),
        !is_word_char('\n'),
    ensures
        scan_from(s, p, line).line == line + newlines(s.subrange(p as int, s.len() as int)),
    decreases s.len() - p,
{
    if p == s.len() {
        assert(s.subrange(p as int, s.len() as int) =~= Seq::<char>::empty());
    } else {
        let st = step(s, p, line);
        lemma_step_advances(s, p, line);
        lemma_step_lines(s, p, line);
        lemma_scan_lines(s, st.end, st.line);
        lemma_newlines_concat(
            s.subrange(p as int, st.end as int),
            s.subrange(st.end as int, s.len() as int),
        );
        assert(s.subrange(p as int, st.end as int) + s.subrange(st.end as int, s.len() as int)
            =~= s.subrange(p as int, s.len() as int));
    }
}

/// After a scan the line counter is 1 plus the number of newlines in the source: each newline,
/// between tokens or inside a string literal, counts exactly once, and nothing else counts.
/// (Newline is a control character, neither alphabetic nor numeric in Unicode, so it never
/// continues an identifier; the precondition states that.)
pub proof fn lemma_line_count(v: ScannerView, s: Seq<char>)
    requires
        v.fresh(),
        !is_word_char('\n'),
    ensures
        v.after_scan(s).line == 1 + newlines(s),
{
    lemma_scan_lines(s, 0, 1);
    assert(s.subrange(0, s.len() as int) =~= s);
}

proof fn lemma_scan_lines_ordered(s: Seq<char>, p: nat, line: nat)
    ensures
        ({
            let m = scan_from(s, p, line);
            &&& line <= m.line
            &&& forall|i: int| 0 <= i < m.tokens.len() ==> line <= #[trigger] m.tokens[i].line <= m.line
            &&& forall|i: int, j: int|
                0 <= i < j < m.tokens.len() ==> m.tokens[i].line <= m.tokens[j].line
        }),
    decreases s.len() - p,
{
    if p < s.len() {
        let st = step(s, p, line);
        lemma_step_advances(s, p, line);
        lemma_scan_lines_ordered(s, st.end, st.line);
        let rest = scan_from(s, st.end, st.line);
        let m = scan_from(s, p, line);
        let head = step_tokens(s, p, line);
        assert(m.tokens == head + rest.tokens);
        assert forall|i: int| 0 <= i < m.tokens.len() implies line <= #[trigger] m.tokens[i].line
            <= m.line by {
            if i >= head.len() {
                assert(m.tokens[i] == rest.tokens[i - head.len()]);
            }
        }
        assert forall|i: int, j: int| 0 <= i < j < m.tokens.len() implies m.tokens[i].line
            <= m.tokens[j].line by {
            if i >= head.len() {
                assert(m.tokens[i] == rest.tokens[i - head.len()]);
            }
            if j >= head.len() {
                assert(m.tokens[j] == rest.tokens[j - head.len()]);
            }
        }
    }
}

/// The tokens of a scan come in non-decreasing line order, the end-of-input token last, on
/// the final line.
pub proof fn lemma_tokens_in_line_order(v: ScannerView, s: Seq<char>)
    requires
        v.fresh(),
    ensures
        ({
            let ts = v.after_scan(s).tokens;
            &&& ts.len() > 0
            &&& ts.last() == end_token(v.after_scan(s).line)
            &&& forall|i: int, j: int| 0 <= i < j < ts.len() ==> ts[i].line <= ts[j].line
        }),
{
    lemma_scan_lines_ordered(s, 0, 1);
    let m = scan_from(s, 0, 1);
    let ts = v.after_scan(s).tokens;
    assert(ts =~= m.tokens + seq![end_token(m.line)]);
    assert forall|i: int, j: int| 0 <= i < j < ts.len() implies ts[i].line <= ts[j].line by {
        assert(ts[i] == m.tokens[i]);
        if j < m.tokens.len() {
            assert(ts[j] == m.tokens[j]);
        }
    }
}

} // verus!



