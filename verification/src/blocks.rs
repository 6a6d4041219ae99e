//! The block arranger: turns the indentation recorded at each line start into
//! explicit block markers.
//!
//! The arranger keeps a stack of the indentation widths of the blocks that are
//! open. A line that is indented more than the innermost open block opens a
//! block; a line that is indented less closes blocks until the width of the
//! line is the width of the innermost block still open, and is an error when
//! no block of that width is open.

use crate::error::{CompileError, ErrorKind};
use crate::token::{token_views, Token, TokenValue, TokenValueView, TokenView};
use vstd::prelude::*;

verus! {

/// The width of the innermost open block; 0 when no block is open.
pub open spec fn top_level(levels: Seq<usize>) -> usize {
    if levels.len() == 0 {
        0
    } else {
        levels.last()
    }
}

/// What is left of the stack once every block wider than `width` is closed.
pub open spec fn close_to(levels: Seq<usize>, width: usize) -> Seq<usize>
    decreases levels.len(),
{
    if levels.len() > 0 && width < levels.last() {
        close_to(levels.drop_last(), width)
    } else {
        levels
    }
}

/// A marker that covers no source text, placed at offset `at`.
pub open spec fn marker(value: TokenValueView, at: usize) -> TokenView {
    TokenView { value, span: at..at }
}

/// `count` block ends at offset `at`.
pub open spec fn block_ends(count: nat, at: usize) -> Seq<TokenView> {
    Seq::new(count, |i: int| marker(TokenValueView::EndBlock, at))
}

/// The statement separator that replaces a line start with the span `span`.
pub open spec fn separator(span: std::ops::Range<usize>) -> TokenView {
    TokenView { value: TokenValueView::Line(0), span }
}

/// The stack after a line start of the given width, or `None` when the line
/// is indented to a width at which no open block started.
pub open spec fn levels_after_line(levels: Seq<usize>, width: usize) -> Option<Seq<usize>> {
    if width > top_level(levels) {
        Some(levels.push(width))
    } else if top_level(close_to(levels, width)) == width {
        Some(close_to(levels, width))
    } else {
        None
    }
}

/// What a line start of the given width with the span `span` is replaced by:
/// a block start at the end of `span`, the point right behind the
/// indentation, or as many block ends as blocks are closed, at the start of
/// `span`; and then the separator.
pub open spec fn line_output(levels: Seq<usize>, width: usize, span: std::ops::Range<usize>) -> Seq<
    TokenView,
> {
    if width > top_level(levels) {
        seq![marker(TokenValueView::BeginBlock, span.end), separator(span)]
    } else {
        block_ends((levels.len() - close_to(levels, width).len()) as nat, span.start).push(
            separator(span),
        )
    }
}

/// The stack of open blocks and the output after all of `tokens` were read,
/// or the error of the first line start that fits no open block.
pub open spec fn arrange_prefix(tokens: Seq<TokenView>) -> Result<
    (Seq<usize>, Seq<TokenView>),
    CompileError,
>
    decreases tokens.len(),
{
    if tokens.len() == 0 {
        Ok((Seq::empty(), Seq::empty()))
    } else {
        match arrange_prefix(tokens.drop_last()) {
            Err(e) => Err(e),
            Ok((levels, out)) => {
                let t = tokens.last();
                match t.value {
                    TokenValueView::Line(width) => match levels_after_line(levels, width) {
                        Some(next) => Ok((next, out + line_output(levels, width, t.span))),
                        None => Err(
                            CompileError { kind: ErrorKind::Indentation, position: t.span.start },
                        ),
                    },
                    _ => Ok((levels, out.push(t))),
                }
            },
        }
    }
}

/// The offset at which the blocks still open at the end are closed: the end
/// of the last token.
pub open spec fn end_offset(tokens: Seq<TokenView>) -> usize {
    if tokens.len() == 0 {
        0
    } else {
        tokens.last().span.end
    }
}

/// The arranged form of `tokens`: every line start replaced as
/// [`line_output`] says, every other token kept, and at the end one block end
/// for each block still open.
pub open spec fn arrange_spec(tokens: Seq<TokenView>) -> Result<Seq<TokenView>, CompileError> {
    match arrange_prefix(tokens) {
        Err(e) => Err(e),
        Ok((levels, out)) => Ok(out + block_ends(levels.len(), end_offset(tokens))),
    }
}

/// An error met in a prefix is the error of the whole.
pub proof fn lemma_arrange_prefix_error(tokens: Seq<TokenView>, k: int)
    requires
        0 <= k <= tokens.len(),
        arrange_prefix(tokens.take(k)) is Err,
    ensures
        arrange_prefix(tokens) == arrange_prefix(tokens.take(k)),
    decreases tokens.len(),
{
    if k == tokens.len() {
        assert(tokens.take(k) =~= tokens);
    } else {
        assert(tokens.drop_last().take(k) =~= tokens.take(k));
        lemma_arrange_prefix_error(tokens.drop_last(), k);
    }
}

/// Adding a token at the end adds its content at the end.
pub proof fn lemma_token_views_push(tokens: Seq<Token>, t: Token)
    ensures
        token_views(tokens.push(t)) == token_views(tokens).push(t@),
{
    assert(token_views(tokens.push(t)) =~= token_views(tokens).push(t@));
}

/// Rewrites the indentation of `tokens` into block markers.
///
/// Every `Line(width)` with the span `span` becomes:
/// - a `BeginBlock` when the line is indented more than the innermost open
///   block, at the end of `span`, the point right behind the indentation;
/// - one `EndBlock` for each block it closes when it is indented less, at the
///   start of `span`;
/// - and after these the separator `Line(0)` with the same `span`.
///
/// All other tokens are kept as they are. The blocks still open after the last
/// token are closed at the end of that token.
///
/// Fails with an indentation error, at the start of the span of the offending
/// line start, when a line is indented less than the innermost open block to a
/// width at which no open block started.
pub fn arrange(tokens: &[Token]) -> (r: Result<Vec<Token>, CompileError>)
    ensures
        match r {
            Ok(out) => arrange_spec(token_views(tokens@)) == Ok::<Seq<TokenView>, CompileError>(
                token_views(out@),
            ),
            Err(e) => arrange_spec(token_views(tokens@)) == Err::<Seq<TokenView>, CompileError>(e),
        },
{
    let ghost views = token_views(tokens@);
    let mut result: Vec<Token> = Vec::new();
    let mut levels: Vec<usize> = Vec::new();
    let mut i: usize = 0;
    proof {
        assert(views.take(0) =~= Seq::<TokenView>::empty());
        assert(token_views(result@) =~= Seq::<TokenView>::empty());
    }
    while i < tokens.len()
        invariant
            i <= tokens.len(),
            views == token_views(tokens@),
            arrange_prefix(views.take(i as int)) == Ok::<
                (Seq<usize>, Seq<TokenView>),
                CompileError,
            >((levels@, token_views(result@))),
        decreases tokens.len() - i,
    {
        let ghost before = views.take(i as int);
        let ghost levels0 = levels@;
        let ghost out0 = token_views(result@);
        proof {
            assert(views.take(i + 1).drop_last() =~= before);
            assert(views.take(i + 1).last() == tokens@[i as int]@);
        }
        match &tokens[i].0 {
            TokenValue::Line(width) => {
                let ind = *width;
                let pos = tokens[i].1.start;
                let last = if levels.len() == 0 {
                    0
                } else {
                    levels[levels.len() - 1]
                };
                if ind > last {
                    let ghost r0 = result@;
                    let behind = tokens[i].1.end;
                    result.push(Token(TokenValue::BeginBlock, behind..behind));
                    proof {
                        lemma_token_views_push(r0, result@.last());
                    }
                    levels.push(ind);
                } else {
                    let ghost mut closed: nat = 0;
                    while levels.len() > 0 && ind < levels[levels.len() - 1]
                        invariant
                            close_to(levels0, ind) == close_to(levels@, ind),
                            closed == levels0.len() - levels@.len(),
                            levels@.len() <= levels0.len(),
                            token_views(result@) == out0 + block_ends(closed, pos),
                        decreases levels.len(),
                    {
                        let ghost r0 = result@;
                        levels.pop();
                        result.push(Token(TokenValue::EndBlock, pos..pos));
                        proof {
                            lemma_token_views_push(r0, result@.last());
                            assert(block_ends(closed, pos).push(
                                marker(TokenValueView::EndBlock, pos),
                            ) =~= block_ends(closed + 1, pos));
                            assert((out0 + block_ends(closed, pos)).push(
                                marker(TokenValueView::EndBlock, pos),
                            ) =~= out0 + block_ends(closed + 1, pos));
                            closed = closed + 1;
                        }
                    }
                    let now = if levels.len() == 0 {
                        0
                    } else {
                        levels[levels.len() - 1]
                    };
                    if ind != now {
                        proof {
                            lemma_arrange_prefix_error(views, i + 1);
                        }
                        return Err(CompileError::indentation(pos));
                    }
                }
                let ghost r1 = result@;
                result.push(Token(TokenValue::Line(0), tokens[i].1.start..tokens[i].1.end));
                proof {
                    lemma_token_views_push(r1, result@.last());
                    assert(token_views(result@) =~= out0 + line_output(
                        levels0,
                        ind,
                        tokens@[i as int].1,
                    ));
                }
            },
            _ => {
                let ghost r1 = result@;
                result.push(tokens[i].clone());
                proof {
                    lemma_token_views_push(r1, result@.last());
                }
            },
        }
        i += 1;
    }
    proof {
        assert(views.take(i as int) =~= views);
    }
    let ghost body = token_views(result@);
    let last_pos = if tokens.len() == 0 {
        0
    } else {
        tokens[tokens.len() - 1].1.end
    };
    let open_blocks = levels.len();
    let mut k: usize = 0;
    while k < open_blocks
        invariant
            k <= open_blocks,
            token_views(result@) == body + block_ends(k as nat, last_pos),
        decreases open_blocks - k,
    {
        let ghost r0 = result@;
        result.push(Token(TokenValue::EndBlock, last_pos..last_pos));
        proof {
            lemma_token_views_push(r0, result@.last());
            assert((body + block_ends(k as nat, last_pos)).push(
                marker(TokenValueView::EndBlock, last_pos),
            ) =~= body + block_ends((k + 1) as nat, last_pos));
        }
        k += 1;
    }
    proof {
        assert(body + block_ends(0, last_pos) =~= body) by {
            assert(block_ends(0, last_pos) =~= Seq::<TokenView>::empty());
        }
    }
    Ok(result)
}

} // verus!
