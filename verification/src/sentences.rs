//! What the parser makes of the simplest statements: two operators between
//! three variables, and a conditional with an else-arm.

use crate::ast::{if_else_view, ExprView, IdentView, VarDefView};
use crate::error::CompileError;
use crate::grammar::{
    atom_spec, block_spec, call_spec, expr_spec, func_spec, is_begin, is_end, is_punct,
    is_separator, leaf_spec, operator_at, program_spec, stmts_spec, tail_spec, term_spec,
};
use crate::precedence::{lemma_else_joins_if, lemma_levels_skip, lemma_two_operators, right_first};
use crate::reduce::{node, reduce_spec, tight_priorities, TermView};
use crate::symbol::Symbol;
use crate::token::{TokenValueView, TokenView};
use vstd::prelude::*;

verus! {

/// The operand that the single token at `p` is: a variable, `@`, a number
/// or a string.
pub open spec fn operand_at(t: Seq<TokenView>, p: int) -> Option<ExprView> {
    if 0 <= p < t.len() {
        match t[p].value {
            TokenValueView::Ident(name) => Some(
                ExprView::Var(VarDefView { name: IdentView { name, span: t[p].span }, ty: None }),
            ),
            TokenValueView::Punct(Symbol::At) => Some(ExprView::LastLine(t[p].span)),
            TokenValueView::LitNum(text) => Some(ExprView::LitNum(text, t[p].span)),
            TokenValueView::LitStr(text) => Some(ExprView::LitStr(text, t[p].span)),
            _ => None,
        }
    } else {
        None
    }
}

/// A token that is an operand is read as that operand, unless it is an
/// identifier that a parenthesis or a colon follows.
pub proof fn lemma_operand_atom(t: Seq<TokenView>, p: int)
    requires
        operand_at(t, p) is Some,
        !is_punct(t, p + 1, Symbol::OpenParen),
        !is_punct(t, p + 1, Symbol::Colon),
    ensures
        atom_spec(t, p) == Some((operand_at(t, p).unwrap(), p + 1)),
{
    assert(call_spec(t, p) is None);
    assert(func_spec(t, p) is None);
    assert(leaf_spec(t, p) == Some((operand_at(t, p).unwrap(), p + 1)));
}

/// The statement `a first b second c`.
///
/// For every three operands of one token each (variables, numbers, strings,
/// `@`) and every two binary operators other than `!?`, the program of the
/// one line `a first b second c` is the one tree that
/// [`lemma_two_operators`] describes. With `=` twice it is `a = (b = c)`; with
/// `+` and `*` it is `a + (b * c)`.
pub proof fn lemma_statement_of_two_operators(t: Seq<TokenView>, first: Symbol, second: Symbol)
    requires
        t.len() == 6,
        is_separator(t, 0),
        operand_at(t, 1) is Some,
        t[2].value == TokenValueView::Punct(first),
        operand_at(t, 3) is Some,
        t[4].value == TokenValueView::Punct(second),
        operand_at(t, 5) is Some,
        first.binary_kind() is Some,
        second.binary_kind() is Some,
    ensures
        ({
            let a = operand_at(t, 1).unwrap();
            let b = operand_at(t, 3).unwrap();
            let c = operand_at(t, 5).unwrap();
            program_spec(t) == Ok::<Seq<ExprView>, CompileError>(
                seq![
                    if right_first(first, second) {
                        node(first, a, node(second, b, c))
                    } else {
                        node(second, node(first, a, b), c)
                    },
                ],
            )
        }),
{
    let a = operand_at(t, 1).unwrap();
    let b = operand_at(t, 3).unwrap();
    let c = operand_at(t, 5).unwrap();
    let t1 = TermView { op: first, operand: b };
    let t2 = TermView { op: second, operand: c };
    lemma_operand_atom(t, 1);
    lemma_operand_atom(t, 3);
    lemma_operand_atom(t, 5);
    assert(operator_at(t, 2) == Some(first));
    assert(operator_at(t, 4) == Some(second));
    assert(term_spec(t, 2) == Some((t1, 4int)));
    assert(term_spec(t, 4) == Some((t2, 6int)));
    assert(term_spec(t, 6) is None);
    let none = Seq::<TermView>::empty();
    assert(none.push(t1).push(t2) =~= seq![t1, t2]);
    assert(tail_spec(t, 6, seq![t1, t2]) == (seq![t1, t2], 6int));
    assert(tail_spec(t, 4, none.push(t1)) == (seq![t1, t2], 6int));
    assert(tail_spec(t, 2, none) == (seq![t1, t2], 6int));
    lemma_two_operators(a, first, b, second, c);
    let tree = reduce_spec(a, seq![t1, t2]);
    assert(expr_spec(t, 1) == Some((tree, 6int)));
    let items = Seq::<ExprView>::empty();
    assert(items.push(tree) =~= seq![tree]);
    assert(stmts_spec(t, 6, seq![tree]) == (seq![tree], 6int));
    assert(stmts_spec(t, 0, items) == (seq![tree], 6int));
}

/// The conditional with an else-arm on a line of its own.
///
/// For every three operands `c`, `t` and `e` of one token each, the program
///
/// ```text
/// c ?
///     t
/// !? e
/// ```
///
/// whose arranged tokens are `Line(0) c ? BeginBlock Line(0) t EndBlock
/// Line(0) !? e`, is the single conditional with the condition `c`, the block
/// of `t` as its first arm and `e` as its else-arm.
pub proof fn lemma_else_on_its_own_line(t: Seq<TokenView>)
    requires
        t.len() == 10,
        is_separator(t, 0),
        operand_at(t, 1) is Some,
        is_punct(t, 2, Symbol::Question),
        is_begin(t, 3),
        is_separator(t, 4),
        operand_at(t, 5) is Some,
        is_end(t, 6),
        is_separator(t, 7),
        is_punct(t, 8, Symbol::Else),
        operand_at(t, 9) is Some,
    ensures
        program_spec(t) == Ok::<Seq<ExprView>, CompileError>(
            seq![
                if_else_view(
                    operand_at(t, 1).unwrap(),
                    ExprView::Block(seq![operand_at(t, 5).unwrap()]),
                    operand_at(t, 9).unwrap(),
                ),
            ],
        ),
{
    let c = operand_at(t, 1).unwrap();
    let inner = operand_at(t, 5).unwrap();
    let e = operand_at(t, 9).unwrap();
    let arm = ExprView::Block(seq![inner]);
    lemma_operand_atom(t, 1);
    lemma_operand_atom(t, 5);
    lemma_operand_atom(t, 9);
    // the indented block
    let no_terms = Seq::<TermView>::empty();
    assert(term_spec(t, 6) is None);
    assert(tail_spec(t, 6, no_terms) == (no_terms, 6int));
    lemma_one_operand(inner);
    assert(expr_spec(t, 5) == Some((inner, 6int)));
    let no_items = Seq::<ExprView>::empty();
    assert(no_items.push(inner) =~= seq![inner]);
    assert(stmts_spec(t, 6, seq![inner]) == (seq![inner], 6int));
    assert(stmts_spec(t, 4, no_items) == (seq![inner], 6int));
    assert(block_spec(t, 3) == Some((arm, 7int)));
    assert(call_spec(t, 3) is None);
    assert(func_spec(t, 3) is None);
    assert(leaf_spec(t, 3) is None);
    assert(atom_spec(t, 3) == Some((arm, 7int)));
    // the two terms
    let t1 = TermView { op: Symbol::Question, operand: arm };
    let t2 = TermView { op: Symbol::Else, operand: e };
    assert(operator_at(t, 2) == Some(Symbol::Question));
    assert(term_spec(t, 2) == Some((t1, 7int)));
    assert(operator_at(t, 7) is None);
    assert(term_spec(t, 7) == Some((t2, 10int)));
    assert(term_spec(t, 10) is None);
    assert(no_terms.push(t1).push(t2) =~= seq![t1, t2]);
    assert(tail_spec(t, 10, seq![t1, t2]) == (seq![t1, t2], 10int));
    assert(tail_spec(t, 7, no_terms.push(t1)) == (seq![t1, t2], 10int));
    assert(tail_spec(t, 2, no_terms) == (seq![t1, t2], 10int));
    lemma_else_joins_if(c, arm, e);
    let tree = if_else_view(c, arm, e);
    assert(expr_spec(t, 1) == Some((tree, 10int)));
    assert(no_items.push(tree) =~= seq![tree]);
    assert(stmts_spec(t, 10, seq![tree]) == (seq![tree], 10int));
    assert(stmts_spec(t, 0, no_items) == (seq![tree], 10int));
}

/// An operand that no term follows is the expression.
pub proof fn lemma_one_operand(a: ExprView)
    ensures
        reduce_spec(a, Seq::empty()) == a,
{
    lemma_levels_skip(a, Seq::<TermView>::empty(), tight_priorities());
}

} // verus!
