//! The tree parser: reads the arranged tokens as the grammar says and builds
//! the syntax tree.
//!
//! Each function reads one rule of [`crate::grammar`] at a position of the
//! token sequence. It returns what the rule says: the value read and the
//! position behind it, or `None` where the rule does not fit.

use crate::ast::{
    expr_views, lemma_expr_views_push, lemma_var_def_views_push, opt_ident_view, var_def_views,
    Block, Expr, ExprView, Ident, VarDef, VarDefView,
};
use crate::error::CompileError;
use crate::grammar::{
    args_spec, atom_spec, block_spec, bracketed_spec, call_spec, expr_spec, func_spec, ident_at,
    inline_spec, is_begin, is_end, is_punct, is_separator, leaf_spec, operator_at, program_spec,
    semis_spec, stmts_spec, tail_spec, term_spec, var_def_spec, var_defs_spec,
};
use crate::reduce::{all_operators, lemma_term_views_push, reduce, term_views, Term, TermView};
use crate::symbol::{puncts, symbol_named, Symbol};
use crate::token::{token_views, Token, TokenValue};
use vstd::prelude::*;

verus! {

/// The executable result `r` is what the grammar reads.
pub open spec fn parsed_as(r: Option<(Expr, usize)>, s: Option<(ExprView, int)>) -> bool {
    match r {
        Some((e, q)) => s == Some((e@, q as int)),
        None => s is None,
    }
}

/// Whether the token at `p` is the symbol `s`.
fn is_symbol(tokens: &[Token], p: usize, s: Symbol) -> (r: bool)
    ensures
        r == is_punct(token_views(tokens@), p as int, s),
{
    if p < tokens.len() {
        match &tokens[p].0 {
            TokenValue::Punct(x) => *x == s,
            _ => false,
        }
    } else {
        false
    }
}

/// Whether the token at `p` is the statement separator.
fn is_line(tokens: &[Token], p: usize) -> (r: bool)
    ensures
        r == is_separator(token_views(tokens@), p as int),
{
    if p < tokens.len() {
        match &tokens[p].0 {
            TokenValue::Line(w) => *w == 0,
            _ => false,
        }
    } else {
        false
    }
}

/// Whether the token at `p` starts an indented block.
fn is_block_begin(tokens: &[Token], p: usize) -> (r: bool)
    ensures
        r == is_begin(token_views(tokens@), p as int),
{
    if p < tokens.len() {
        match &tokens[p].0 {
            TokenValue::BeginBlock => true,
            _ => false,
        }
    } else {
        false
    }
}

/// Whether the token at `p` ends an indented block.
fn is_block_end(tokens: &[Token], p: usize) -> (r: bool)
    ensures
        r == is_end(token_views(tokens@), p as int),
{
    if p < tokens.len() {
        match &tokens[p].0 {
            TokenValue::EndBlock => true,
            _ => false,
        }
    } else {
        false
    }
}

/// The identifier at `p`, if the token there is one.
pub fn ident(tokens: &[Token], p: usize) -> (r: Option<Ident>)
    ensures
        opt_ident_view(r) == ident_at(token_views(tokens@), p as int),
{
    if p < tokens.len() {
        match &tokens[p].0 {
            TokenValue::Ident(name) => Some(
                Ident(name.clone(), tokens[p].1.start..tokens[p].1.end),
            ),
            _ => None,
        }
    } else {
        None
    }
}

/// Whether the token at `p` is an identifier.
pub fn is_ident(tokens: &[Token], p: usize) -> (r: bool)
    ensures
        r == (ident_at(token_views(tokens@), p as int) is Some),
{
    if p < tokens.len() {
        match &tokens[p].0 {
            TokenValue::Ident(_) => true,
            _ => false,
        }
    } else {
        false
    }
}

/// The binary operator at `p`, if the token there is one.
fn operator(tokens: &[Token], p: usize) -> (r: Option<Symbol>)
    ensures
        r == operator_at(token_views(tokens@), p as int),
{
    if p < tokens.len() {
        match &tokens[p].0 {
            TokenValue::Punct(s) => match s.binding() {
                Some(_) => Some(*s),
                None => None,
            },
            _ => None,
        }
    } else {
        None
    }
}

/// Reads the symbol written `v` at `start`.
///
/// Returns the token and the position behind it when the token at `start` is
/// that symbol, and `None` when it is any other token or `start` is the end.
/// `v` must be the text of a symbol.
pub fn punct(tokens: &[Token], start: usize, v: &str) -> (r: Option<(Token, usize)>)
    requires
        symbol_named(v@) is Some,
    ensures
        r is Some == is_punct(token_views(tokens@), start as int, symbol_named(v@).unwrap()),
        r matches Some((tok, q)) ==> tok@ == tokens@[start as int]@ && q == start + 1,
{
    let s = puncts(v);
    if is_symbol(tokens, start, s) {
        Some((tokens[start].clone(), start + 1))
    } else {
        None
    }
}

/// Reads `variable` at `start`.
pub fn var_def(tokens: &[Token], start: usize) -> (r: Option<(VarDef, usize)>)
    ensures
        match r {
            Some((d, q)) => var_def_spec(token_views(tokens@), start as int) == Some(
                (d@, q as int),
            ) && start < q <= tokens.len(),
            None => var_def_spec(token_views(tokens@), start as int) is None,
        },
{
    if start >= tokens.len() {
        return None;
    }
    if is_symbol(tokens, start + 1, Symbol::Colon) && start + 2 < tokens.len() {
        match ident(tokens, start) {
            Some(name) => match ident(tokens, start + 2) {
                Some(ty) => Some((VarDef(name, Some(ty)), start + 3)),
                None => None,
            },
            None => None,
        }
    } else {
        match ident(tokens, start) {
            Some(name) => Some((VarDef(name, None), start + 1)),
            None => None,
        }
    }
}

/// Reads `{ variable }` at `start`.
fn var_defs(tokens: &[Token], start: usize) -> (r: (Vec<VarDef>, usize))
    requires
        start <= tokens.len(),
    ensures
        (var_def_views(r.0@), r.1 as int) == var_defs_spec(
            token_views(tokens@),
            start as int,
            Seq::empty(),
        ),
        start <= r.1 <= tokens.len(),
{
    let ghost t = token_views(tokens@);
    let mut acc: Vec<VarDef> = Vec::new();
    let mut pos = start;
    proof {
        assert(var_def_views(acc@) =~= Seq::<VarDefView>::empty());
    }
    loop
        invariant
            t == token_views(tokens@),
            start <= pos <= tokens.len(),
            var_defs_spec(t, start as int, Seq::empty()) == var_defs_spec(
                t,
                pos as int,
                var_def_views(acc@),
            ),
        decreases tokens.len() - pos,
    {
        match var_def(tokens, pos) {
            Some((d, q)) => {
                proof {
                    lemma_var_def_views_push(acc@, d);
                }
                acc.push(d);
                pos = q;
            },
            None => {
                return (acc, pos);
            },
        }
    }
}

/// Reads a variable, `@`, a number or a string at `start`.
fn leaf(tokens: &[Token], start: usize) -> (r: Option<(Expr, usize)>)
    ensures
        parsed_as(r, leaf_spec(token_views(tokens@), start as int)),
        r matches Some((_, q)) ==> start < q <= tokens.len(),
{
    match var_def(tokens, start) {
        Some((d, q)) => Some((Expr::Var(d), q)),
        None => {
            if start < tokens.len() {
                let span = tokens[start].1.start..tokens[start].1.end;
                match &tokens[start].0 {
                    TokenValue::Punct(Symbol::At) => Some((Expr::LastLine(span), start + 1)),
                    TokenValue::LitNum(text) => Some((Expr::LitNum(text.clone(), span), start + 1)),
                    TokenValue::LitStr(text) => Some((Expr::LitStr(text.clone(), span), start + 1)),
                    _ => None,
                }
            } else {
                None
            }
        },
    }
}

/// Reads `expr` at `start`: an atom and the terms behind it, reduced by
/// priority to one expression.
pub fn binary(tokens: &[Token], start: usize) -> (r: Option<(Expr, usize)>)
    ensures
        parsed_as(r, expr_spec(token_views(tokens@), start as int)),
        r matches Some((_, q)) ==> start < q <= tokens.len(),
    decreases tokens.len() - start, 4int,
{
    match non_left_recursive(tokens, start) {
        None => None,
        Some((first, q)) => {
            let (rest, end) = operator_tail(tokens, q);
            Some((reduce(first, rest), end))
        },
    }
}

/// Reads `expr` at `start`.
pub fn expr(tokens: &[Token], start: usize) -> (r: Option<(Expr, usize)>)
    ensures
        parsed_as(r, expr_spec(token_views(tokens@), start as int)),
        r matches Some((_, q)) ==> start < q <= tokens.len(),
    decreases tokens.len() - start, 5int,
{
    binary(tokens, start)
}

/// Reads `{ term }` at `start`.
fn operator_tail(tokens: &[Token], start: usize) -> (r: (Vec<Term>, usize))
    requires
        start <= tokens.len(),
    ensures
        (term_views(r.0@), r.1 as int) == tail_spec(
            token_views(tokens@),
            start as int,
            Seq::empty(),
        ),
        all_operators(term_views(r.0@)),
        start <= r.1 <= tokens.len(),
    decreases tokens.len() - start, 1int,
{
    let ghost t = token_views(tokens@);
    let mut acc: Vec<Term> = Vec::new();
    let mut pos = start;
    proof {
        assert(term_views(acc@) =~= Seq::<TermView>::empty());
    }
    loop
        invariant
            t == token_views(tokens@),
            start <= pos <= tokens.len(),
            tail_spec(t, start as int, Seq::empty()) == tail_spec(t, pos as int, term_views(acc@)),
            all_operators(term_views(acc@)),
        decreases tokens.len() - pos,
    {
        match term(tokens, pos) {
            Some((tm, q)) => {
                proof {
                    lemma_term_views_push(acc@, tm);
                }
                acc.push(tm);
                pos = q;
            },
            None => {
                return (acc, pos);
            },
        }
    }
}

/// Reads `term` at `start`.
fn term(tokens: &[Token], start: usize) -> (r: Option<(Term, usize)>)
    ensures
        match r {
            Some((tm, q)) => term_spec(token_views(tokens@), start as int) == Some((tm@, q as int))
                && start < q <= tokens.len() && tm.op.priority() is Some,
            None => term_spec(token_views(tokens@), start as int) is None,
        },
    decreases tokens.len() - start, 0int,
{
    match operator(tokens, start) {
        Some(op) => match non_left_recursive(tokens, start + 1) {
            Some((operand, q)) => Some((Term { op, operand }, q)),
            None => None,
        },
        None => {
            if start > 0 && is_block_end(tokens, start - 1) && is_line(tokens, start) && is_symbol(
                tokens,
                start + 1,
                Symbol::Else,
            ) {
                match non_left_recursive(tokens, start + 2) {
                    Some((operand, q)) => Some((Term { op: Symbol::Else, operand }, q)),
                    None => None,
                }
            } else {
                None
            }
        },
    }
}

/// Reads `atom` at `start`.
pub fn non_left_recursive(tokens: &[Token], start: usize) -> (r: Option<(Expr, usize)>)
    ensures
        parsed_as(r, atom_spec(token_views(tokens@), start as int)),
        r matches Some((_, q)) ==> start < q <= tokens.len(),
    decreases tokens.len() - start, 3int,
{
    match call_expr(tokens, start) {
        Some(r) => {
            return Some(r);
        },
        None => {},
    }
    match func(tokens, start) {
        Some(r) => {
            return Some(r);
        },
        None => {},
    }
    match leaf(tokens, start) {
        Some(r) => {
            return Some(r);
        },
        None => {},
    }
    block(tokens, start)
}

/// Reads `call` at `start`.
pub fn call_expr(tokens: &[Token], start: usize) -> (r: Option<(Expr, usize)>)
    ensures
        parsed_as(r, call_spec(token_views(tokens@), start as int)),
        r matches Some((_, q)) ==> start < q <= tokens.len(),
    decreases tokens.len() - start, 2int,
{
    match ident(tokens, start) {
        Some(name) => {
            if is_symbol(tokens, start + 1, Symbol::OpenParen) {
                let (args, q) = call_args(tokens, start + 2);
                if is_symbol(tokens, q, Symbol::CloseParen) {
                    Some((Expr::Call(name, args), q + 1))
                } else {
                    None
                }
            } else {
                None
            }
        },
        None => None,
    }
}

/// Reads `{ expr [ "," ] }` at `start`.
fn call_args(tokens: &[Token], start: usize) -> (r: (Vec<Expr>, usize))
    requires
        start <= tokens.len(),
    ensures
        (expr_views(r.0@), r.1 as int) == args_spec(
            token_views(tokens@),
            start as int,
            Seq::empty(),
        ),
        start <= r.1 <= tokens.len(),
    decreases tokens.len() - start, 6int,
{
    let ghost t = token_views(tokens@);
    let mut acc: Vec<Expr> = Vec::new();
    let mut pos = start;
    proof {
        assert(expr_views(acc@) =~= Seq::<ExprView>::empty());
    }
    loop
        invariant
            t == token_views(tokens@),
            start <= pos <= tokens.len(),
            args_spec(t, start as int, Seq::empty()) == args_spec(t, pos as int, expr_views(acc@)),
        decreases tokens.len() - pos,
    {
        match expr(tokens, pos) {
            Some((e, q)) => {
                proof {
                    lemma_expr_views_push(acc@, e);
                }
                acc.push(e);
                pos = if is_symbol(tokens, q, Symbol::Comma) {
                    q + 1
                } else {
                    q
                };
            },
            None => {
                return (acc, pos);
            },
        }
    }
}

/// Reads `function` at `start`.
pub fn func(tokens: &[Token], start: usize) -> (r: Option<(Expr, usize)>)
    ensures
        parsed_as(r, func_spec(token_views(tokens@), start as int)),
        r matches Some((_, q)) ==> start < q <= tokens.len(),
    decreases tokens.len() - start, 2int,
{
    if !is_symbol(tokens, start, Symbol::OpenParen) {
        return None;
    }
    let (params, q) = var_defs(tokens, start + 1);
    if !is_symbol(tokens, q, Symbol::CloseParen) {
        return None;
    }
    let mut ret: Option<Ident> = None;
    let mut arrow = q + 1;
    if is_symbol(tokens, q + 1, Symbol::Colon) {
        match ident(tokens, q + 2) {
            Some(name) => {
                ret = Some(name);
                arrow = q + 3;
            },
            None => {},
        }
    }
    if !is_symbol(tokens, arrow, Symbol::Arrow) {
        return None;
    }
    match expr(tokens, arrow + 1) {
        Some((body, end)) => {
            let e = Expr::Func(Box::new((params, ret, body)));
            Some((e, end))
        },
        None => None,
    }
}

/// Reads `block` at `start`.
pub fn block(tokens: &[Token], start: usize) -> (r: Option<(Expr, usize)>)
    ensures
        parsed_as(r, block_spec(token_views(tokens@), start as int)),
        r matches Some((_, q)) ==> start < q <= tokens.len(),
    decreases tokens.len() - start, 2int,
{
    if is_block_begin(tokens, start) {
        return indent_block(tokens, start);
    }
    match bracketed_block(tokens, start) {
        Some(r) => {
            return Some(r);
        },
        None => {},
    }
    inline_block(tokens, start)
}

/// Reads an indented block at `start`: `BeginBlock statements EndBlock`.
fn indent_block(tokens: &[Token], start: usize) -> (r: Option<(Expr, usize)>)
    requires
        is_begin(token_views(tokens@), start as int),
    ensures
        parsed_as(r, block_spec(token_views(tokens@), start as int)),
        r matches Some((_, q)) ==> start < q <= tokens.len(),
    decreases tokens.len() - start, 1int,
{
    let (items, q) = ml_block(tokens, start + 1);
    if is_block_end(tokens, q) {
        Some((Expr::Block(items), q + 1))
    } else {
        None
    }
}

/// Reads the braced block whose statements stand on lines of their own.
fn bracketed_block(tokens: &[Token], start: usize) -> (r: Option<(Expr, usize)>)
    ensures
        parsed_as(r, bracketed_spec(token_views(tokens@), start as int)),
        r matches Some((_, q)) ==> start < q <= tokens.len(),
    decreases tokens.len() - start, 1int,
{
    if is_symbol(tokens, start, Symbol::OpenBrace) && is_block_begin(tokens, start + 1) {
        let (items, q) = ml_block(tokens, start + 2);
        if is_block_end(tokens, q) && is_line(tokens, q + 1) && is_symbol(
            tokens,
            q + 2,
            Symbol::CloseBrace,
        ) {
            Some((Expr::Block(items), q + 3))
        } else {
            None
        }
    } else {
        None
    }
}

/// Reads the braced block on one line.
fn inline_block(tokens: &[Token], start: usize) -> (r: Option<(Expr, usize)>)
    ensures
        parsed_as(r, inline_spec(token_views(tokens@), start as int)),
        r matches Some((_, q)) ==> start < q <= tokens.len(),
    decreases tokens.len() - start, 1int,
{
    if !is_symbol(tokens, start, Symbol::OpenBrace) {
        return None;
    }
    let (closed, q) = closed_statements(tokens, start + 1);
    if closed.len() > 0 {
        let mut items = closed;
        let mut end = q;
        match expr(tokens, q) {
            Some((e, r)) => {
                proof {
                    lemma_expr_views_push(items@, e);
                }
                items.push(e);
                end = r;
            },
            None => {},
        }
        if is_symbol(tokens, end, Symbol::CloseBrace) {
            Some((Expr::Block(Block(items)), end + 1))
        } else {
            None
        }
    } else {
        match expr(tokens, start + 1) {
            Some((e, r)) => {
                if is_symbol(tokens, r, Symbol::CloseBrace) {
                    let mut items: Vec<Expr> = Vec::new();
                    proof {
                        lemma_expr_views_push(items@, e);
                        assert(expr_views(items@) =~= Seq::<ExprView>::empty());
                        assert(Seq::<ExprView>::empty().push(e@) =~= seq![e@]);
                    }
                    items.push(e);
                    Some((Expr::Block(Block(items)), r + 1))
                } else {
                    None
                }
            },
            None => None,
        }
    }
}

/// Reads `{ expr ";" }` at `start`.
fn closed_statements(tokens: &[Token], start: usize) -> (r: (Vec<Expr>, usize))
    requires
        start <= tokens.len(),
    ensures
        (expr_views(r.0@), r.1 as int) == semis_spec(
            token_views(tokens@),
            start as int,
            Seq::empty(),
        ),
        start <= r.1 <= tokens.len(),
        r.0@.len() > 0 ==> start < r.1,
    decreases tokens.len() - start, 6int,
{
    let ghost t = token_views(tokens@);
    let mut acc: Vec<Expr> = Vec::new();
    let mut pos = start;
    proof {
        assert(expr_views(acc@) =~= Seq::<ExprView>::empty());
    }
    loop
        invariant
            t == token_views(tokens@),
            start <= pos <= tokens.len(),
            acc@.len() > 0 ==> start < pos,
            semis_spec(t, start as int, Seq::empty()) == semis_spec(
                t,
                pos as int,
                expr_views(acc@),
            ),
        decreases tokens.len() - pos,
    {
        match expr(tokens, pos) {
            Some((e, q)) => {
                if is_symbol(tokens, q, Symbol::Semicolon) {
                    proof {
                        lemma_expr_views_push(acc@, e);
                    }
                    acc.push(e);
                    pos = q + 1;
                } else {
                    return (acc, pos);
                }
            },
            None => {
                return (acc, pos);
            },
        }
    }
}

/// Reads `statements` at `start`: as many lines as there are, each a
/// separator and an expression.
pub fn ml_block(tokens: &[Token], start: usize) -> (r: (Block, usize))
    requires
        start <= tokens.len(),
    ensures
        (r.0@, r.1 as int) == stmts_spec(token_views(tokens@), start as int, Seq::empty()),
        start <= r.1 <= tokens.len(),
    decreases tokens.len() - start, 6int,
{
    let ghost t = token_views(tokens@);
    let mut acc: Vec<Expr> = Vec::new();
    let mut pos = start;
    proof {
        assert(expr_views(acc@) =~= Seq::<ExprView>::empty());
    }
    loop
        invariant
            t == token_views(tokens@),
            start <= pos <= tokens.len(),
            stmts_spec(t, start as int, Seq::empty()) == stmts_spec(
                t,
                pos as int,
                expr_views(acc@),
            ),
        decreases tokens.len() - pos,
    {
        if !is_line(tokens, pos) {
            return (Block(acc), pos);
        }
        match expr(tokens, pos + 1) {
            Some((e, q)) => {
                proof {
                    lemma_expr_views_push(acc@, e);
                }
                acc.push(e);
                pos = q;
            },
            None => {
                return (Block(acc), pos);
            },
        }
    }
}

/// Parses a whole program.
///
/// Returns the statements of the top level. Fails with a syntax error when
/// they do not reach the end of `tokens`: the error carries the source offset
/// at which the first token that is not part of them starts.
pub fn parser(tokens: &[Token]) -> (r: Result<Block, CompileError>)
    ensures
        match r {
            Ok(b) => program_spec(token_views(tokens@)) == Ok::<Seq<ExprView>, CompileError>(b@),
            Err(e) => program_spec(token_views(tokens@)) == Err::<Seq<ExprView>, CompileError>(e),
        },
{
    let (items, end) = ml_block(tokens, 0);
    if end < tokens.len() {
        Err(CompileError::syntax(tokens[end].1.start))
    } else {
        Ok(items)
    }
}

} // verus!
