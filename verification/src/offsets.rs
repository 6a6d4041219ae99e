//! The spans of the tokens of a source text are offsets into that text.

use crate::error::ErrorKind;
use crate::lexer::{
    indent_width, lemma_line_at_bounds, lemma_symbol_from_fits, lemma_token_at_bounds, lex_from,
    lex_spec, line_at, number_at, span_start, string_at, string_body, symbol_at, symbol_from,
    token_at, unescape, word_at,
};
use crate::nesting::lemma_arrange_fails_on_dedent_only;
use crate::order::{
    lemma_behind_leading_break, lemma_lex_from_error, lemma_tokens_in_order, read_at, read_from,
};
use crate::text::{is_newline, is_space, lemma_run_end, run_end, CharClass};
use crate::token::{TokenValueView, TokenView};
use crate::{behind_break, compile_spec, moved_back, source_tokens_spec};
use vstd::prelude::*;

verus! {

/// The width of an indentation does not depend on what stands before the
/// text.
pub proof fn lemma_indent_width_behind_break(src: Seq<char>, from: int, to: int)
    requires
        0 <= from <= to <= src.len(),
    ensures
        indent_width(behind_break(src), from + 1, to + 1) == indent_width(src, from, to),
    decreases to - from,
{
    if from < to {
        lemma_indent_width_behind_break(src, from, to - 1);
        assert(behind_break(src)[to] == src[to - 1]);
    }
}

/// What the span `a..b` of a token says of the source text `src`.
///
/// A line start has the span of the indentation of its line: the line begins
/// at `a`, which is the start of the text or stands behind a line break, the
/// characters from `a` to `b` are spaces and tabs, and the width is theirs.
/// An identifier, a symbol and a number are the characters from `a` to `b`. A
/// string literal stands between the quotes at `a` and before `b`.
pub open spec fn spans_source(src: Seq<char>, t: TokenView) -> bool {
    let a = t.span.start as int;
    let b = t.span.end as int;
    &&& 0 <= a <= b <= src.len()
    &&& match t.value {
        TokenValueView::Line(width) => {
            &&& a == 0 || is_newline(src[a - 1])
            &&& forall|k: int| a <= k < b ==> is_space(#[trigger] src[k])
            &&& width == indent_width(src, a, b) as usize
        },
        TokenValueView::Ident(name) => a < b && name == src.subrange(a, b),
        TokenValueView::Punct(sym) => a < b && sym.text() == src.subrange(a, b),
        TokenValueView::LitNum(text) => a < b && text == src.subrange(a, b),
        TokenValueView::LitStr(_) => a + 1 < b && src[a] == '"' && src[b - 1] == '"',
        _ => false,
    }
}

/// A string literal ends with its closing quote.
pub proof fn lemma_string_body_ends_with_quote(s: Seq<char>, p: int, acc: Seq<char>)
    ensures
        string_body(s, p, acc) matches Some((_, e)) ==> p < e <= s.len() && s[e - 1]
            == '"',
    decreases s.len() - p,
{
    if 0 <= p < s.len() && s[p] != '"' {
        if s[p] == '\\' {
            if p + 1 < s.len() && unescape(s[p + 1]) is Some {
                lemma_string_body_ends_with_quote(
                    s,
                    p + 2,
                    acc.push(unescape(s[p + 1]).unwrap()),
                );
            }
        } else {
            lemma_string_body_ends_with_quote(s, p + 1, acc.push(s[p]));
        }
    }
}

/// The spans of the tokens of a source text are offsets into that text.
///
/// Every token of the source text lies inside the text, and its span says
/// of the text what [`spans_source`] says: the characters of the source at
/// the offsets of the span are the token.
pub proof fn lemma_tokens_span_source(src: Seq<char>, i: int)
    requires
        src.len() + 1 <= usize::MAX,
        source_tokens_spec(src) is Ok,
        0 <= i < source_tokens_spec(src).unwrap().len(),
    ensures
        spans_source(src, source_tokens_spec(src).unwrap()[i]),
{
    let s = behind_break(src);
    let read = lex_spec(s).unwrap();
    let t = read[i];
    let moved = source_tokens_spec(src).unwrap()[i];
    assert(moved == moved_back(t));
    lemma_behind_leading_break(s);
    lemma_tokens_in_order(s);
    assert(read_at(s, t));
    let p = choose|p: int| read_from(s, p, t);
    let e = t.span.end as int;
    let a = moved.span.start as int;
    let b = moved.span.end as int;
    lemma_line_at_bounds(s, p);
    assert forall|k: int| 0 <= k < src.len() implies s[k + 1] == #[trigger] src[k] by {}
    match t.value {
        TokenValueView::Line(width) => {
            assert(line_at(s, p) is Some);
            let begin = t.span.start as int;
            lemma_run_end(s, begin, CharClass::Space);
            lemma_indent_width_behind_break(src, a, b);
            assert forall|k: int| a <= k < b implies is_space(#[trigger] src[k]) by {
                assert(src[k] == s[k + 1]);
            }
            if a > 0 {
                assert(s[a] == src[a - 1]);
            }
        },
        TokenValueView::Ident(name) => {
            assert(word_at(s, p) == Some((name, e)));
            assert(s.subrange(p, e) =~= src.subrange(a, b));
        },
        TokenValueView::Punct(sym) => {
            assert(symbol_at(s, p) == Some((sym, e)));
            lemma_symbol_from_fits(s, p, 0);
            assert(symbol_from(s, p, 0) == Some(sym));
            assert(sym.text() =~= src.subrange(a, b));
        },
        TokenValueView::LitNum(text) => {
            assert(number_at(s, p) == Some((text, e)));
            assert(s.subrange(p, e) =~= src.subrange(a, b));
        },
        TokenValueView::LitStr(text) => {
            assert(string_at(s, p) == Some((text, e)));
            lemma_string_body_ends_with_quote(s, p + 1, Seq::empty());
        },
        _ => {},
    }
}

/// A lexical error of a source text stands at an offset into that text: at
/// a character of the source at which no token starts.
pub proof fn lemma_error_in_source(src: Seq<char>)
    requires
        src.len() + 1 <= usize::MAX,
        source_tokens_spec(src) is Err,
    ensures
        0 <= source_tokens_spec(src)->Err_0.position < src.len(),
        token_at(behind_break(src), source_tokens_spec(src)->Err_0.position + 1) is None,
        !is_space(src[source_tokens_spec(src)->Err_0.position as int]),
{
    let s = behind_break(src);
    lemma_behind_leading_break(s);
    lemma_lex_from_error(s, 0, Seq::empty());
    let e = lex_spec(s)->Err_0;
    lemma_error_not_space(s, 0, Seq::empty());
    assert(s[e.position as int] == src[e.position - 1]);
}

/// A lexical error does not stand at a space or a tab.
pub proof fn lemma_error_not_space(s: Seq<char>, p: int, acc: Seq<TokenView>)
    requires
        s.len() <= usize::MAX,
        0 <= p <= s.len(),
    ensures
        lex_from(s, p, acc) matches Err(e) ==> e.position < s.len() && !is_space(
            s[e.position as int],
        ),
    decreases s.len() - p,
{
    let start = run_end(s, p, CharClass::Space);
    lemma_run_end(s, p, CharClass::Space);
    lemma_token_at_bounds(s, start);
    match token_at(s, start) {
        Some((value, end)) => {
            lemma_error_not_space(
                s,
                end,
                acc.push(
                    TokenView {
                        value,
                        span: (span_start(s, start) as usize)..(end as usize),
                    },
                ),
            );
        },
        None => {},
    }
}

/// An indentation error of a source text stands where the offending line
/// begins: at the start of the source or behind a line break, with the
/// indentation of the line behind it.
pub proof fn lemma_indentation_error_at_line_begin(src: Seq<char>)
    requires
        src.len() + 1 <= usize::MAX,
        compile_spec(src) matches Err(e) && e.kind == ErrorKind::Indentation,
    ensures
        ({
            let p = compile_spec(src)->Err_0.position as int;
            0 <= p <= src.len() && (p == 0 || is_newline(src[p - 1]))
        }),
{
    let s = behind_break(src);
    lemma_behind_leading_break(s);
    let tokens = source_tokens_spec(src).unwrap();
    let k = lemma_arrange_fails_on_dedent_only(tokens);
    lemma_tokens_span_source(src, k);
}

} // verus!
