//! The tokenizer reads a rendered literal back as the literal it was.

use crate::ast::ExprView;
use crate::error::CompileError;
use crate::lexer::{
    digit_at, exponent_end, fraction_end, lemma_number_end_bounds, lemma_symbol_from_first,
    lemma_line_at_bounds, lemma_symbol_from_fits, lex_from, lex_spec, number_end, stands_at, string_at, string_body,
    span_start, symbol_at, symbol_fits, symbol_from, token_at, unescape, whole_end,
};
use crate::render::{escape_char, escape_text, quoted, render};
use crate::symbol::{symbol_table, Symbol};
use crate::text::{is_digit, is_newline, is_space, lemma_run_end, lemma_run_end_in_part, run_end, CharClass};
use crate::token::{TokenValueView, TokenView};
use vstd::prelude::*;

verus! {

/// `text` is what the tokenizer reads as one number literal: a whole part,
/// possibly a fraction, possibly an exponent, and nothing else. A minus sign
/// is no part of it: the tokenizer reads a minus sign as a symbol.
pub open spec fn is_number_text(text: Seq<char>) -> bool {
    &&& text.len() > 0
    &&& text[0] != '-'
    &&& number_end(text, 0) == Some(text.len() as int)
}

/// `c` starts no symbol.
pub open spec fn starts_no_symbol(c: char) -> bool {
    forall|sym: Symbol| sym.head() != c
}

/// No symbol stands where the text has ended or the character starts none.
pub proof fn lemma_no_symbol(s: Seq<char>, p: int)
    requires
        !(0 <= p < s.len()) || starts_no_symbol(s[p]),
    ensures
        symbol_at(s, p) is None,
{
    lemma_symbol_from_fits(s, p, 0);
    if symbol_from(s, p, 0) is Some {
        let sym = symbol_from(s, p, 0).unwrap();
        assert(sym.head() == s[p]);
    }
}

/// No token starts at the end of the text.
pub proof fn lemma_no_token_at_end(s: Seq<char>)
    ensures
        token_at(s, s.len() as int) is None,
        run_end(s, s.len() as int, CharClass::Space) == s.len(),
{
    lemma_no_symbol(s, s.len() as int);
}

/// A text that is one token is read as that token alone.
pub proof fn lemma_single_token(s: Seq<char>, value: TokenValueView)
    requires
        s.len() > 0,
        !is_space(s[0]),
        !is_newline(s[0]),
        token_at(s, 0) == Some((value, s.len() as int)),
    ensures
        lex_spec(s) == Ok::<Seq<TokenView>, CompileError>(
            seq![TokenView { value, span: (0usize)..(s.len() as usize) }],
        ),
{
    let tok = TokenView { value, span: (0usize)..(s.len() as usize) };
    assert(run_end(s, 0, CharClass::Space) == 0);
    assert(span_start(s, 0) == 0) by {
        lemma_line_at_bounds(s, 0);
    }
    assert(Seq::<TokenView>::empty().push(tok) =~= seq![tok]);
    assert(lex_from(s, 0, Seq::empty()) == lex_from(s, s.len() as int, seq![tok]));
    lemma_no_token_at_end(s);
}

/// Re-reading a number: the tokenizer reads the text of a number literal as
/// that one number literal.
///
/// For every text of a number, the tokens of the rendering of the number
/// literal are the single token that holds the same text.
pub proof fn lemma_number_round_trip(text: Seq<char>, span: std::ops::Range<usize>)
    requires
        is_number_text(text),
    ensures
        render(ExprView::LitNum(text, span)) == text,
        lex_spec(render(ExprView::LitNum(text, span))) == Ok::<Seq<TokenView>, CompileError>(
            seq![
                TokenView {
                    value: TokenValueView::LitNum(text),
                    span: (0usize)..(text.len() as usize),
                },
            ],
        ),
{
    let s = text;
    assert(!stands_at(s, 0, '-'));
    assert(whole_end(s, 0) is Some);
    assert(is_digit(s[0]));
    assert(starts_no_symbol(s[0])) by {
        assert forall|sym: Symbol| sym.head() != s[0] by {}
    }
    lemma_no_symbol(s, 0);
    assert(s.subrange(0, s.len() as int) =~= s);
    assert(token_at(s, 0) == Some((TokenValueView::LitNum(text), s.len() as int)));
    lemma_single_token(s, TokenValueView::LitNum(text));
}

/// Every number that the tokenizer reads is written with the text of a
/// number: where the token at `p` is a number literal, its text passes
/// [`is_number_text`], so [`lemma_number_round_trip`] holds of it.
pub proof fn lemma_number_token_text(s: Seq<char>, p: int, text: Seq<char>, e: int)
    requires
        token_at(s, p) == Some((TokenValueView::LitNum(text), e)),
    ensures
        is_number_text(text),
{
    assert(symbol_at(s, p) is None);
    assert(number_end(s, p) == Some(e));
    assert(text == s.subrange(p, e));
    lemma_number_end_bounds(s, p);
    if stands_at(s, p, '-') {
        assert(symbol_table()[16] == Symbol::Minus);
        assert(symbol_fits(s, p, Symbol::Minus));
        let _ = lemma_symbol_from_first(s, p, 16, 0);
    }
    assert(text[0] == s[p]);
    // the whole part
    let b = whole_end(s, p).unwrap();
    if 0 <= p + 1 <= s.len() {
        lemma_run_end(s, p + 1, CharClass::Digit);
    }
    // the fraction
    let c = fraction_end(s, b);
    if stands_at(s, b, '.') && digit_at(s, b + 1) {
        lemma_run_end(s, b + 2, CharClass::Digit);
    }
    // the exponent
    let present = stands_at(s, c, 'e') || stands_at(s, c, 'E');
    let m = if stands_at(s, c + 1, '+') || stands_at(s, c + 1, '-') {
        c + 2
    } else {
        c + 1
    };
    if present && digit_at(s, m) {
        lemma_run_end(s, m + 1, CharClass::Digit);
    }
    assert(p < b <= c <= e);
    // the same three parts in the text alone
    let tb = whole_end(text, 0);
    assert(tb == Some(b - p)) by {
        if !stands_at(s, p, '0') {
            lemma_run_end_in_part(s, p, e, 1, CharClass::Digit);
        }
    }
    assert(fraction_end(text, b - p) == c - p) by {
        if stands_at(s, b, '.') && digit_at(s, b + 1) {
            assert(text[b - p] == s[b]);
            assert(text[b - p + 1] == s[b + 1]);
            lemma_run_end_in_part(s, p, e, b - p + 2, CharClass::Digit);
        } else {
            if b < e {
                assert(text[b - p] == s[b]);
                if b + 1 < e {
                    assert(text[b - p + 1] == s[b + 1]);
                }
            }
        }
    }
    assert(exponent_end(text, c - p) == e - p) by {
        if present && digit_at(s, m) {
            assert(text[c - p] == s[c]);
            assert(text[c - p + 1] == s[c + 1]);
            assert(text[m - p] == s[m]);
            lemma_run_end_in_part(s, p, e, m - p + 1, CharClass::Digit);
        } else {
            assert(c == e);
        }
    }
}

/// The escaped form of a text starts with the escaped form of its first
/// character.
pub proof fn lemma_escape_text_front(t: Seq<char>)
    requires
        t.len() > 0,
    ensures
        escape_text(t) == escape_char(t[0]) + escape_text(t.drop_first()),
    decreases t.len(),
{
    if t.len() == 1 {
        assert(t.drop_last() =~= Seq::<char>::empty());
        assert(t.drop_first() =~= Seq::<char>::empty());
        assert(escape_text(t.drop_last()) =~= Seq::<char>::empty());
        assert(escape_text(t) =~= escape_char(t[0]) + escape_text(t.drop_first()));
    } else {
        lemma_escape_text_front(t.drop_last());
        assert(t.drop_last().drop_first() =~= t.drop_first().drop_last());
        assert(t.drop_first().last() == t.last());
        assert(escape_text(t) =~= escape_char(t[0]) + escape_text(t.drop_first()));
    }
}

/// Reading the escaped form of `t` inside a string literal gathers `t` and
/// arrives behind the escaped form.
pub proof fn lemma_string_body_reads_escaped(s: Seq<char>, p: int, t: Seq<char>, acc: Seq<char>)
    requires
        0 <= p,
        p + escape_text(t).len() <= s.len(),
        s.subrange(p, p + escape_text(t).len()) == escape_text(t),
    ensures
        string_body(s, p, acc) == string_body(s, p + escape_text(t).len(), acc + t),
    decreases t.len(),
{
    if t.len() == 0 {
        assert(acc + t =~= acc);
    } else {
        let c = t[0];
        let rest = t.drop_first();
        let e = escape_text(t);
        lemma_escape_text_front(t);
        let ec = escape_char(c);
        assert(e == ec + escape_text(rest));
        assert(s[p] == e[0]);
        assert(e[0] == ec[0]);
        let q = p + ec.len();
        if ec.len() == 2 {
            assert(s[p + 1] == e[1]);
            assert(e[1] == ec[1]);
            assert(unescape(s[p + 1]) == Some(c));
        }
        assert(string_body(s, p, acc) == string_body(s, q, acc.push(c)));
        assert(s.subrange(q, q + escape_text(rest).len()) =~= escape_text(rest)) by {
            assert forall|i: int| 0 <= i < escape_text(rest).len() implies s[q + i]
                == escape_text(rest)[i] by {
                assert(s[q + i] == s.subrange(p, p + e.len())[ec.len() + i]);
            }
        }
        lemma_string_body_reads_escaped(s, q, rest, acc.push(c));
        assert(acc.push(c) + rest =~= acc + t);
    }
}

/// Re-reading a string: the tokenizer reads the rendering of a string
/// literal as that one string literal.
///
/// For every string, the tokens of the rendering of the string literal are
/// the single token that holds the same string.
pub proof fn lemma_string_round_trip(text: Seq<char>, span: std::ops::Range<usize>)
    ensures
        render(ExprView::LitStr(text, span)) == quoted(text),
        lex_spec(render(ExprView::LitStr(text, span))) == Ok::<Seq<TokenView>, CompileError>(
            seq![
                TokenView {
                    value: TokenValueView::LitStr(text),
                    span: (0usize)..(quoted(text).len() as usize),
                },
            ],
        ),
{
    let s = quoted(text);
    let e = escape_text(text);
    let n = e.len() as int;
    assert(s.len() == n + 2);
    assert(s[0] == '"');
    assert(s[n + 1] == '"');
    assert(s.subrange(1, 1 + n) =~= e);
    lemma_string_body_reads_escaped(s, 1, text, Seq::empty());
    assert(Seq::<char>::empty() + text =~= text);
    assert(string_body(s, 1 + n, text) == Some((text, s.len() as int)));
    assert(string_at(s, 0) == Some((text, s.len() as int)));
    assert(starts_no_symbol('"')) by {
        assert forall|sym: Symbol| sym.head() != '"' by {}
    }
    lemma_no_symbol(s, 0);
    assert(token_at(s, 0) == Some((TokenValueView::LitStr(text), s.len() as int)));
    lemma_single_token(s, TokenValueView::LitStr(text));
}

} // verus!
