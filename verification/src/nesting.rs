//! What holds of every output of the block arranger.

use crate::blocks::{
    arrange_prefix, arrange_spec, block_ends, close_to, end_offset, lemma_arrange_prefix_error,
    levels_after_line, line_output, marker, top_level,
};
use crate::error::{CompileError, ErrorKind};
use crate::token::{TokenValueView, TokenView};
use vstd::prelude::*;

verus! {

/// What a token adds to the number of open blocks.
pub open spec fn depth_change(t: TokenView) -> int {
    match t.value {
        TokenValueView::BeginBlock => 1,
        TokenValueView::EndBlock => -1,
        _ => 0,
    }
}

/// The number of block starts in `ts` less the number of block ends.
pub open spec fn depth(ts: Seq<TokenView>) -> int
    decreases ts.len(),
{
    if ts.len() == 0 {
        0
    } else {
        depth(ts.drop_last()) + depth_change(ts.last())
    }
}

/// The block markers of `ts` nest: no prefix of `ts` holds more block ends
/// than block starts, and `ts` holds as many of the one as of the other.
pub open spec fn well_nested(ts: Seq<TokenView>) -> bool {
    &&& forall|k: int| 0 <= k <= ts.len() ==> depth(#[trigger] ts.take(k)) >= 0
    &&& depth(ts) == 0
}

/// `ts` holds no block marker.
pub open spec fn no_markers(ts: Seq<TokenView>) -> bool {
    forall|i: int|
        0 <= i < ts.len() ==> (#[trigger] ts[i]).value != TokenValueView::BeginBlock && ts[i].value
            != TokenValueView::EndBlock
}

/// The widths on the stack grow from the bottom to the top, and none is 0.
pub open spec fn increasing(levels: Seq<usize>) -> bool {
    &&& forall|i: int| 0 <= i < levels.len() ==> 0 < #[trigger] levels[i]
    &&& forall|i: int, j: int| 0 <= i < j < levels.len() ==> levels[i] < levels[j]
}

/// The depth of a single token is what the token adds.
pub proof fn lemma_depth_single(t: TokenView)
    ensures
        depth(seq![t]) == depth_change(t),
{
    reveal_with_fuel(depth, 2);
    assert(seq![t].drop_last() =~= Seq::<TokenView>::empty());
}

/// The depth of two runs of tokens is the sum of their depths.
pub proof fn lemma_depth_concat(a: Seq<TokenView>, b: Seq<TokenView>)
    ensures
        depth(a + b) == depth(a) + depth(b),
    decreases b.len(),
{
    if b.len() == 0 {
        assert(a + b =~= a);
    } else {
        assert((a + b).drop_last() =~= a + b.drop_last());
        assert((a + b).last() == b.last());
        lemma_depth_concat(a, b.drop_last());
    }
}

/// `count` block ends lower the depth by `count`.
pub proof fn lemma_depth_block_ends(count: nat, at: usize)
    ensures
        depth(block_ends(count, at)) == -(count as int),
    decreases count,
{
    if count > 0 {
        assert(block_ends(count, at).drop_last() =~= block_ends((count - 1) as nat, at));
        lemma_depth_block_ends((count - 1) as nat, at);
    }
}

/// Closing blocks leaves a bottom part of the stack, whose top is at most
/// the width closed to.
pub proof fn lemma_close_to(levels: Seq<usize>, width: usize)
    ensures
        close_to(levels, width).len() <= levels.len(),
        close_to(levels, width) == levels.take(close_to(levels, width).len() as int),
        top_level(close_to(levels, width)) <= width,
        forall|i: int|
            close_to(levels, width).len() <= i < levels.len() && increasing(levels) ==> width
                < #[trigger] levels[i],
    decreases levels.len(),
{
    if levels.len() > 0 && width < levels.last() {
        let init = levels.drop_last();
        lemma_close_to(init, width);
        let kept = close_to(init, width);
        assert(init.take(kept.len() as int) =~= levels.take(kept.len() as int));
        assert forall|i: int| kept.len() <= i < levels.len() && increasing(levels) implies width
            < #[trigger] levels[i] by {
            if i < init.len() {
                assert(init[i] == levels[i]);
                assert(increasing(init));
            }
        }
    } else {
        assert(levels.take(levels.len() as int) =~= levels);
    }
}

/// The depth of every prefix of what replaces a line start, counted from
/// the `levels.len()` blocks that are open before it, is not negative, and
/// behind it as many blocks are open as the new stack holds.
pub proof fn lemma_line_output_depth(
    levels: Seq<usize>,
    width: usize,
    span: std::ops::Range<usize>,
    j: int,
)
    requires
        levels_after_line(levels, width) is Some,
        0 <= j <= line_output(levels, width, span).len(),
    ensures
        levels.len() + depth(line_output(levels, width, span).take(j)) >= 0,
        levels.len() + depth(line_output(levels, width, span)) == levels_after_line(
            levels,
            width,
        ).unwrap().len(),
{
    let out = line_output(levels, width, span);
    let part = out.take(j);
    lemma_close_to(levels, width);
    if width > top_level(levels) {
        let b = marker(TokenValueView::BeginBlock, span.end);
        assert(out.drop_last() =~= seq![b]);
        lemma_depth_single(b);
        assert(depth(out) == 1);
        if j == 0 {
            assert(part =~= Seq::<TokenView>::empty());
        } else if j == 1 {
            assert(part =~= seq![b]);
        } else {
            assert(part =~= out);
        }
    } else {
        let n = (levels.len() - close_to(levels, width).len()) as nat;
        let ends = block_ends(n, span.start);
        assert(out.drop_last() =~= ends);
        lemma_depth_block_ends(n, span.start);
        if j <= n {
            assert(part =~= block_ends(j as nat, span.start));
            lemma_depth_block_ends(j as nat, span.start);
        } else {
            assert(part =~= out);
        }
    }
}

/// The widths on the stack of open blocks grow from the bottom to the top.
pub proof fn lemma_levels_increasing(tokens: Seq<TokenView>)
    requires
        arrange_prefix(tokens) is Ok,
    ensures
        increasing(arrange_prefix(tokens).unwrap().0),
    decreases tokens.len(),
{
    if tokens.len() > 0 {
        let init = tokens.drop_last();
        let t = tokens.last();
        lemma_levels_increasing(init);
        let levels0 = arrange_prefix(init).unwrap().0;
        let levels = arrange_prefix(tokens).unwrap().0;
        match t.value {
            TokenValueView::Line(width) => {
                lemma_close_to(levels0, width);
                if width > top_level(levels0) {
                    assert forall|i: int, j: int| 0 <= i < j < levels.len() implies levels[i]
                        < levels[j] by {
                        if j == levels0.len() {
                            assert(levels0[i] <= levels0.last());
                        }
                    }
                }
            },
            _ => {},
        }
    }
}

/// While the input holds no block marker, the output so far never closes a
/// block that is not open, and as many blocks are open behind it as the stack
/// holds widths.
pub proof fn lemma_arrange_prefix_nested(tokens: Seq<TokenView>)
    requires
        no_markers(tokens),
        arrange_prefix(tokens) is Ok,
    ensures
        ({
            let (levels, out) = arrange_prefix(tokens).unwrap();
            &&& depth(out) == levels.len()
            &&& forall|k: int| 0 <= k <= out.len() ==> depth(#[trigger] out.take(k)) >= 0
        }),
    decreases tokens.len(),
{
    let (levels, out) = arrange_prefix(tokens).unwrap();
    if tokens.len() == 0 {
        assert forall|k: int| 0 <= k <= out.len() implies depth(#[trigger] out.take(k)) >= 0 by {
            assert(out.take(k) =~= out);
        }
    } else {
        let init = tokens.drop_last();
        let t = tokens.last();
        assert(no_markers(init)) by {
            assert forall|i: int| 0 <= i < init.len() implies (#[trigger] init[i]).value
                != TokenValueView::BeginBlock && init[i].value != TokenValueView::EndBlock by {
                assert(init[i] == tokens[i]);
            }
        }
        lemma_arrange_prefix_nested(init);
        let (levels0, out0) = arrange_prefix(init).unwrap();
        let added = match t.value {
            TokenValueView::Line(width) => line_output(levels0, width, t.span),
            _ => seq![t],
        };
        assert(out =~= out0 + added);
        lemma_depth_concat(out0, added);
        match t.value {
            TokenValueView::Line(width) => {
                lemma_line_output_depth(levels0, width, t.span, added.len() as int);
            },
            _ => {
                assert(tokens[tokens.len() - 1] == t);
                lemma_depth_single(t);
            },
        }
        assert forall|k: int| 0 <= k <= out.len() implies depth(#[trigger] out.take(k)) >= 0 by {
            if k <= out0.len() {
                assert(out.take(k) =~= out0.take(k));
            } else {
                let j = k - out0.len();
                assert(out.take(k) =~= out0 + added.take(j));
                lemma_depth_concat(out0, added.take(j));
                match t.value {
                    TokenValueView::Line(width) => {
                        lemma_line_output_depth(levels0, width, t.span, j);
                    },
                    _ => {
                        assert(added.take(j) =~= added);
                    },
                }
            }
        }
    }
}

/// The block markers that the arranger puts out nest.
///
/// For every input without block markers that the arranger accepts, no
/// prefix of the output holds more block ends than block starts, and the
/// whole output holds as many of the one as of the other.
pub proof fn lemma_arrange_well_nested(tokens: Seq<TokenView>)
    requires
        no_markers(tokens),
        arrange_spec(tokens) is Ok,
    ensures
        well_nested(arrange_spec(tokens).unwrap()),
{
    lemma_arrange_prefix_nested(tokens);
    let (levels, body) = arrange_prefix(tokens).unwrap();
    let at = end_offset(tokens);
    let out = arrange_spec(tokens).unwrap();
    assert(out == body + block_ends(levels.len(), at));
    lemma_depth_concat(body, block_ends(levels.len(), at));
    lemma_depth_block_ends(levels.len(), at);
    assert forall|k: int| 0 <= k <= out.len() implies depth(#[trigger] out.take(k)) >= 0 by {
        if k <= body.len() {
            assert(out.take(k) =~= body.take(k));
        } else {
            let j = (k - body.len()) as nat;
            assert(out.take(k) =~= body + block_ends(j, at));
            lemma_depth_concat(body, block_ends(j, at));
            lemma_depth_block_ends(j, at);
        }
    }
}

/// A line fits the open blocks exactly when it is indented more than the
/// innermost of them, or not at all, or to the width of one of them.
pub proof fn lemma_line_fits(levels: Seq<usize>, width: usize)
    requires
        increasing(levels),
    ensures
        levels_after_line(levels, width) is Some <==> (width > top_level(levels) || width == 0
            || levels.contains(width)),
{
    lemma_close_to(levels, width);
    let kept = close_to(levels, width);
    if width <= top_level(levels) {
        if top_level(kept) == width {
            if kept.len() > 0 {
                assert(levels[kept.len() - 1] == width);
            }
        } else {
            if levels.contains(width) {
                let i = choose|i: int| 0 <= i < levels.len() && levels[i] == width;
                if i < kept.len() {
                    assert(kept[i] == levels[i]);
                    if i < kept.len() - 1 {
                        assert(levels[i] < levels[kept.len() - 1]);
                    }
                }
            }
            if width == 0 && kept.len() > 0 {
                assert(kept.last() == levels[kept.len() - 1]);
            }
        }
    }
}

/// A dedent to a width at which no open block started is an indentation
/// error.
///
/// When the line start at index `k` is indented less than the innermost
/// block that is open there, but not to the width of any open block nor to
/// width 0, arranging fails with an indentation error at the offset where
/// that line start begins, whatever follows it.
pub proof fn lemma_dedent_without_level(tokens: Seq<TokenView>, k: int, width: usize)
    requires
        0 <= k < tokens.len(),
        tokens[k].value == TokenValueView::Line(width),
        arrange_prefix(tokens.take(k)) is Ok,
        width < top_level(arrange_prefix(tokens.take(k)).unwrap().0),
        width != 0,
        !arrange_prefix(tokens.take(k)).unwrap().0.contains(width),
    ensures
        arrange_spec(tokens) == Err::<Seq<TokenView>, CompileError>(
            CompileError { kind: ErrorKind::Indentation, position: tokens[k].span.start },
        ),
{
    let levels = arrange_prefix(tokens.take(k)).unwrap().0;
    lemma_close_to(levels, width);
    let kept = close_to(levels, width);
    if kept.len() > 0 {
        assert(kept.last() == levels[kept.len() - 1]);
        assert(levels.contains(kept.last()));
    }
    assert(levels_after_line(levels, width) is None);
    assert(tokens.take(k + 1).drop_last() =~= tokens.take(k));
    assert(tokens.take(k + 1).last() == tokens[k]);
    lemma_arrange_prefix_error(tokens, k + 1);
}

/// A line start, whatever its width.
pub open spec fn is_line(t: TokenView) -> bool {
    t.value is Line
}

/// A token that carries structure only: a line start or a block marker.
pub open spec fn is_structural(t: TokenView) -> bool {
    t.value is Line || t.value is BeginBlock || t.value is EndBlock
}

/// The tokens of `ts` that carry content, in their order.
pub open spec fn plain(ts: Seq<TokenView>) -> Seq<TokenView>
    decreases ts.len(),
{
    if ts.len() == 0 {
        Seq::empty()
    } else if is_structural(ts.last()) {
        plain(ts.drop_last())
    } else {
        plain(ts.drop_last()).push(ts.last())
    }
}

/// The number of line starts in `ts`.
pub open spec fn lines(ts: Seq<TokenView>) -> nat
    decreases ts.len(),
{
    if ts.len() == 0 {
        0
    } else if is_line(ts.last()) {
        lines(ts.drop_last()) + 1
    } else {
        lines(ts.drop_last())
    }
}

/// Every line start of `ts` is the plain separator `Line(0)`.
pub open spec fn lines_are_separators(ts: Seq<TokenView>) -> bool {
    forall|i: int| 0 <= i < ts.len() && is_line(#[trigger] ts[i]) ==> ts[i].value
        == TokenValueView::Line(0)
}

/// The content and the line starts of two runs of tokens are those of the
/// one followed by those of the other.
pub proof fn lemma_plain_concat(a: Seq<TokenView>, b: Seq<TokenView>)
    ensures
        plain(a + b) == plain(a) + plain(b),
        lines(a + b) == lines(a) + lines(b),
    decreases b.len(),
{
    if b.len() == 0 {
        assert(a + b =~= a);
        assert(plain(a) + plain(b) =~= plain(a));
    } else {
        assert((a + b).drop_last() =~= a + b.drop_last());
        assert((a + b).last() == b.last());
        lemma_plain_concat(a, b.drop_last());
        assert(plain(a + b) =~= plain(a) + plain(b));
    }
}

/// Block ends hold no content and no line start.
pub proof fn lemma_plain_block_ends(count: nat, at: usize)
    ensures
        plain(block_ends(count, at)) == Seq::<TokenView>::empty(),
        lines(block_ends(count, at)) == 0,
    decreases count,
{
    if count > 0 {
        assert(block_ends(count, at).drop_last() =~= block_ends((count - 1) as nat, at));
        lemma_plain_block_ends((count - 1) as nat, at);
    }
}

/// What replaces a line start holds no content and exactly one line start,
/// the separator.
pub proof fn lemma_plain_line_output(levels: Seq<usize>, width: usize, span: std::ops::Range<usize>)
    ensures
        plain(line_output(levels, width, span)) == Seq::<TokenView>::empty(),
        lines(line_output(levels, width, span)) == 1,
        lines_are_separators(line_output(levels, width, span)),
{
    let out = line_output(levels, width, span);
    reveal_with_fuel(plain, 3);
    reveal_with_fuel(lines, 3);
    if width > top_level(levels) {
        let b = marker(TokenValueView::BeginBlock, span.end);
        assert(out.drop_last() =~= seq![b]);
        assert(seq![b].drop_last() =~= Seq::<TokenView>::empty());
    } else {
        let n = (levels.len() - close_to(levels, width).len()) as nat;
        assert(out.drop_last() =~= block_ends(n, span.start));
        lemma_plain_block_ends(n, span.start);
    }
}

/// The arranger keeps the content and replaces every line start by one
/// separator.
///
/// For every input without block markers that the arranger accepts, the
/// output holds the tokens of the input that are no line starts, unchanged and
/// in their order; it holds as many line starts as the input, and each of them
/// is the separator `Line(0)`.
pub proof fn lemma_arrange_keeps_content(tokens: Seq<TokenView>)
    requires
        no_markers(tokens),
        arrange_spec(tokens) is Ok,
    ensures
        plain(arrange_spec(tokens).unwrap()) == plain(tokens),
        lines(arrange_spec(tokens).unwrap()) == lines(tokens),
        lines_are_separators(arrange_spec(tokens).unwrap()),
{
    lemma_arrange_prefix_keeps_content(tokens);
    let (levels, body) = arrange_prefix(tokens).unwrap();
    let ends = block_ends(levels.len(), end_offset(tokens));
    let out = arrange_spec(tokens).unwrap();
    assert(out == body + ends);
    lemma_plain_concat(body, ends);
    lemma_plain_block_ends(levels.len(), end_offset(tokens));
    assert(plain(body) + Seq::<TokenView>::empty() =~= plain(body));
    assert forall|i: int| 0 <= i < out.len() && is_line(#[trigger] out[i]) implies out[i].value
        == TokenValueView::Line(0) by {
        if i < body.len() {
            assert(out[i] == body[i]);
        } else {
            assert(out[i] == ends[i - body.len()]);
        }
    }
}

/// The output so far holds the content of the input so far and one
/// separator for each of its line starts.
pub proof fn lemma_arrange_prefix_keeps_content(tokens: Seq<TokenView>)
    requires
        no_markers(tokens),
        arrange_prefix(tokens) is Ok,
    ensures
        plain(arrange_prefix(tokens).unwrap().1) == plain(tokens),
        lines(arrange_prefix(tokens).unwrap().1) == lines(tokens),
        lines_are_separators(arrange_prefix(tokens).unwrap().1),
    decreases tokens.len(),
{
    let (levels, out) = arrange_prefix(tokens).unwrap();
    if tokens.len() > 0 {
        let init = tokens.drop_last();
        let t = tokens.last();
        assert(tokens[tokens.len() - 1] == t);
        assert(no_markers(init)) by {
            assert forall|i: int| 0 <= i < init.len() implies (#[trigger] init[i]).value
                != TokenValueView::BeginBlock && init[i].value != TokenValueView::EndBlock by {
                assert(init[i] == tokens[i]);
            }
        }
        lemma_arrange_prefix_keeps_content(init);
        let (levels0, out0) = arrange_prefix(init).unwrap();
        let added = match t.value {
            TokenValueView::Line(width) => line_output(levels0, width, t.span),
            _ => seq![t],
        };
        assert(out =~= out0 + added);
        lemma_plain_concat(out0, added);
        match t.value {
            TokenValueView::Line(width) => {
                lemma_plain_line_output(levels0, width, t.span);
                assert(plain(out0) + Seq::<TokenView>::empty() =~= plain(out0));
            },
            _ => {
                reveal_with_fuel(plain, 2);
                reveal_with_fuel(lines, 2);
                assert(added.drop_last() =~= Seq::<TokenView>::empty());
                assert(plain(out0) + seq![t] =~= plain(out0).push(t));
            },
        }
        assert forall|i: int| 0 <= i < out.len() && is_line(#[trigger] out[i]) implies out[i].value
            == TokenValueView::Line(0) by {
            if i < out0.len() {
                assert(out[i] == out0[i]);
            } else {
                assert(out[i] == added[i - out0.len()]);
                match t.value {
                    TokenValueView::Line(width) => {
                        lemma_plain_line_output(levels0, width, t.span);
                    },
                    _ => {},
                }
            }
        }
    }
}

/// The line start at index `k` is a dedent to a width at which no open
/// block started: it is indented less than the innermost block open there,
/// but not to the width of any open block nor to width 0.
pub open spec fn dedent_without_level(tokens: Seq<TokenView>, k: int) -> bool {
    &&& 0 <= k < tokens.len()
    &&& tokens[k].value is Line
    &&& arrange_prefix(tokens.take(k)) is Ok
    &&& tokens[k].value->Line_0 < top_level(arrange_prefix(tokens.take(k)).unwrap().0)
    &&& tokens[k].value->Line_0 != 0
    &&& !arrange_prefix(tokens.take(k)).unwrap().0.contains(tokens[k].value->Line_0)
}

/// The arranger fails on nothing but a dedent to a width at which no open
/// block started.
///
/// Whenever arranging fails, the input holds a line start that is such a
/// dedent, and the error is the indentation error at the offset where that
/// line start begins.
pub proof fn lemma_arrange_fails_on_dedent_only(tokens: Seq<TokenView>) -> (k: int)
    requires
        arrange_spec(tokens) is Err,
    ensures
        dedent_without_level(tokens, k),
        arrange_spec(tokens) == Err::<Seq<TokenView>, CompileError>(
            CompileError { kind: ErrorKind::Indentation, position: tokens[k].span.start },
        ),
    decreases tokens.len(),
{
    let init = tokens.drop_last();
    let t = tokens.last();
    if arrange_prefix(init) is Err {
        let k = lemma_arrange_fails_on_dedent_only(init);
        assert(init.take(k) =~= tokens.take(k));
        assert(init[k] == tokens[k]);
        k
    } else {
        let k = tokens.len() - 1;
        assert(tokens.take(k) =~= init);
        assert(tokens[k] == t);
        let levels = arrange_prefix(init).unwrap().0;
        lemma_levels_increasing(init);
        lemma_line_fits(levels, t.value->Line_0);
        k
    }
}

} // verus!
