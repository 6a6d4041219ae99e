//! What holds of every output of the tokenizer, and with it of the first two
//! stages together.

use crate::blocks::arrange_spec;
use crate::error::ErrorKind;
use crate::lexer::{
    lemma_line_at_bounds, lemma_token_at_bounds, lex_from, lex_spec, line_at, span_start, token_at,
};
use crate::nesting::{lemma_arrange_well_nested, no_markers, well_nested};
use crate::roundtrip::{is_number_text, lemma_number_token_text};
use crate::text::{is_newline, lemma_run_end, run_end, CharClass};
use crate::token::{TokenValueView, TokenView};
use vstd::prelude::*;

verus! {

/// `t` is the token that stands in `s` at `p`: it has its value, its span
/// ends where that token ends, and its span starts at `p` or, for a line
/// start, where the line begins.
pub open spec fn read_from(s: Seq<char>, p: int, t: TokenView) -> bool {
    &&& 0 <= p <= t.span.start <= t.span.end <= s.len()
    &&& p < t.span.end
    &&& token_at(s, p) == Some((t.value, t.span.end as int))
    &&& t.span.start == span_start(s, p)
}

/// `t` is a token that stands in `s`, with the span that the tokenizer notes
/// for it.
pub open spec fn read_at(s: Seq<char>, t: TokenView) -> bool {
    exists|p: int| read_from(s, p, t)
}

/// The tokens stand in the order of the text and do not overlap.
pub open spec fn in_order(ts: Seq<TokenView>) -> bool {
    forall|i: int, j: int| 0 <= i < j < ts.len() ==> ts[i].span.end <= ts[j].span.start
}

/// Every token of `ts` stands in `s`, with the span that the tokenizer notes
/// for it.
pub open spec fn all_read_at(s: Seq<char>, ts: Seq<TokenView>) -> bool {
    forall|i: int| 0 <= i < ts.len() ==> read_at(s, #[trigger] ts[i])
}

/// What holds of the tokens gathered so far holds of all the tokens.
pub proof fn lemma_lex_from_tokens(s: Seq<char>, p: int, acc: Seq<TokenView>)
    requires
        s.len() <= usize::MAX,
        0 <= p <= s.len(),
        all_read_at(s, acc),
        in_order(acc),
        forall|i: int| 0 <= i < acc.len() ==> (#[trigger] acc[i]).span.end <= p,
    ensures
        lex_from(s, p, acc) matches Ok(ts) ==> all_read_at(s, ts) && in_order(ts),
    decreases s.len() - p,
{
    let start = run_end(s, p, CharClass::Space);
    lemma_run_end(s, p, CharClass::Space);
    lemma_token_at_bounds(s, start);
    match token_at(s, start) {
        Some((value, end)) => {
            let t = TokenView { value, span: (span_start(s, start) as usize)..(end as usize) };
            let next = acc.push(t);
            assert(read_from(s, start, t));
            assert(all_read_at(s, next)) by {
                assert forall|i: int| 0 <= i < next.len() implies read_at(s, #[trigger] next[i]) by {
                    if i < acc.len() {
                        assert(next[i] == acc[i]);
                    }
                }
            }
            assert(in_order(next)) by {
                assert forall|i: int, j: int| 0 <= i < j < next.len() implies next[i].span.end
                    <= next[j].span.start by {
                    assert(next[i] == acc[i]);
                    if j < acc.len() {
                        assert(next[j] == acc[j]);
                    }
                }
            }
            assert forall|i: int| 0 <= i < next.len() implies (#[trigger] next[i]).span.end
                <= end by {
                if i < acc.len() {
                    assert(next[i] == acc[i]);
                }
            }
            lemma_lex_from_tokens(s, end, next);
        },
        None => {},
    }
}

/// The tokens are ordered by their position in the source.
///
/// Every token that the tokenizer puts out is a token that stands in the
/// text, its span lies inside the text, and each token ends before the next
/// one starts.
pub proof fn lemma_tokens_in_order(s: Seq<char>)
    requires
        s.len() <= usize::MAX,
        lex_spec(s) is Ok,
    ensures
        all_read_at(s, lex_spec(s).unwrap()),
        in_order(lex_spec(s).unwrap()),
{
    lemma_lex_from_tokens(s, 0, Seq::empty());
}

/// The tokenizer puts out no block marker.
pub proof fn lemma_tokens_hold_no_markers(s: Seq<char>)
    requires
        s.len() <= usize::MAX,
        lex_spec(s) is Ok,
    ensures
        no_markers(lex_spec(s).unwrap()),
{
    lemma_tokens_in_order(s);
    let ts = lex_spec(s).unwrap();
    assert forall|i: int| 0 <= i < ts.len() implies (#[trigger] ts[i]).value
        != TokenValueView::BeginBlock && ts[i].value != TokenValueView::EndBlock by {
        assert(read_at(s, ts[i]));
        let p = choose|p: int| read_from(s, p, ts[i]);
        assert(read_from(s, p, ts[i]));
    }
}

/// Every number literal that the tokenizer puts out holds the text of a
/// number.
pub proof fn lemma_number_tokens(s: Seq<char>, i: int, text: Seq<char>)
    requires
        s.len() <= usize::MAX,
        lex_spec(s) is Ok,
        0 <= i < lex_spec(s).unwrap().len(),
        lex_spec(s).unwrap()[i].value == TokenValueView::LitNum(text),
    ensures
        is_number_text(text),
{
    lemma_tokens_in_order(s);
    let t = lex_spec(s).unwrap()[i];
    assert(read_at(s, t));
    let p = choose|p: int| read_from(s, p, t);
    lemma_number_token_text(s, p, text, t.span.end as int);
}

/// The block markers of every arranged text nest.
///
/// Whatever the text: when the tokenizer and the arranger accept it, no
/// prefix of the arranged tokens holds more block ends than block starts,
/// and the arranged tokens hold as many of the one as of the other.
pub proof fn lemma_arranged_text_well_nested(s: Seq<char>)
    requires
        s.len() <= usize::MAX,
        lex_spec(s) is Ok,
        arrange_spec(lex_spec(s).unwrap()) is Ok,
    ensures
        well_nested(arrange_spec(lex_spec(s).unwrap()).unwrap()),
{
    lemma_tokens_hold_no_markers(s);
    lemma_arrange_well_nested(lex_spec(s).unwrap());
}

/// A lexical error stands where no token starts and the text has not ended.
pub proof fn lemma_lex_from_error(s: Seq<char>, p: int, acc: Seq<TokenView>)
    requires
        s.len() <= usize::MAX,
        0 <= p <= s.len(),
    ensures
        lex_from(s, p, acc) matches Err(e) ==> {
            &&& e.kind == ErrorKind::Lexical
            &&& p <= e.position < s.len()
            &&& token_at(s, e.position as int) is None
        },
    decreases s.len() - p,
{
    let start = run_end(s, p, CharClass::Space);
    lemma_run_end(s, p, CharClass::Space);
    lemma_token_at_bounds(s, start);
    match token_at(s, start) {
        Some((value, end)) => {
            lemma_lex_from_error(
                s,
                end,
                acc.push(
                    TokenView { value, span: (span_start(s, start) as usize)..(end as usize) },
                ),
            );
        },
        None => {},
    }
}

/// In a text that starts with a line break, nothing is noted at offset 0:
/// the span of every token starts behind the line break, and so does a
/// lexical error.
pub proof fn lemma_behind_leading_break(s: Seq<char>)
    requires
        s.len() <= usize::MAX,
        s.len() > 0,
        is_newline(s[0]),
    ensures
        lex_spec(s) matches Ok(ts) ==> forall|i: int|
            0 <= i < ts.len() ==> 1 <= (#[trigger] ts[i]).span.start <= ts[i].span.end <= s.len(),
        lex_spec(s) matches Err(e) ==> e.kind == ErrorKind::Lexical && 1 <= e.position < s.len(),
{
    lemma_line_at_bounds(s, 0);
    assert(line_at(s, 0) is Some);
    assert(token_at(s, 0) is Some);
    lemma_lex_from_error(s, 0, Seq::empty());
    if lex_spec(s) is Ok {
        lemma_tokens_in_order(s);
        let ts = lex_spec(s).unwrap();
        assert forall|i: int| 0 <= i < ts.len() implies 1 <= (#[trigger] ts[i]).span.start
            <= ts[i].span.end <= s.len() by {
            assert(read_at(s, ts[i]));
            let p = choose|p: int| read_from(s, p, ts[i]);
            lemma_line_at_bounds(s, p);
        }
    }
}

} // verus!
