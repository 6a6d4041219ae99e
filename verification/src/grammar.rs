//! The grammar, as functions from a token sequence and a position to what is
//! read there.
//!
//! Every rule is an ordered choice without look-back: the first alternative
//! that fits is taken and never revisited. A rule that reads one construct
//! returns `None` where nothing fits; a rule that reads a repetition returns
//! what it has gathered and the position at which it stopped.
//!
//! ```text
//! program    = statements end-of-input
//! statements = { Line(0) expr }
//! expr       = atom { term }                      reduced by priority
//! term       = operator atom
//!            | Line(0) "!?" atom                  only right after an EndBlock
//! atom       = call | function | variable | "@" | number | string | block
//! call       = identifier "(" { expr [ "," ] } ")"
//! function   = "(" { variable } ")" [ ":" identifier ] "=>" expr
//! variable   = identifier [ ":" identifier ]
//! block      = BeginBlock statements EndBlock
//!            | "{" BeginBlock statements EndBlock Line(0) "}"
//!            | "{" expr ";" { expr ";" } [ expr ] "}"
//!            | "{" expr "}"
//! ```

use crate::ast::{ExprView, IdentView, VarDefView};
use crate::error::{CompileError, ErrorKind};
use crate::reduce::{reduce_spec, TermView};
use crate::symbol::Symbol;
use crate::token::{TokenValueView, TokenView};
use vstd::prelude::*;

verus! {

/// Position `q` lies behind `p` and not behind the end of `t`.
///
/// A rule that goes on behind what another rule has read tests this first.
/// The test is what makes the rules well-founded; it never fails, as
/// [`lemma_expr_advances`] and the lemmas behind it show.
pub open spec fn advances(t: Seq<TokenView>, p: int, q: int) -> bool {
    p < q <= t.len()
}

/// The token at `p` is the symbol `s`.
pub open spec fn is_punct(t: Seq<TokenView>, p: int, s: Symbol) -> bool {
    0 <= p < t.len() && t[p].value == TokenValueView::Punct(s)
}

/// The token at `p` is the statement separator.
pub open spec fn is_separator(t: Seq<TokenView>, p: int) -> bool {
    0 <= p < t.len() && t[p].value == TokenValueView::Line(0)
}

/// The token at `p` starts an indented block.
pub open spec fn is_begin(t: Seq<TokenView>, p: int) -> bool {
    0 <= p < t.len() && t[p].value == TokenValueView::BeginBlock
}

/// The token at `p` ends an indented block.
pub open spec fn is_end(t: Seq<TokenView>, p: int) -> bool {
    0 <= p < t.len() && t[p].value == TokenValueView::EndBlock
}

/// The identifier at `p`.
pub open spec fn ident_at(t: Seq<TokenView>, p: int) -> Option<IdentView> {
    if 0 <= p < t.len() {
        match t[p].value {
            TokenValueView::Ident(name) => Some(IdentView { name, span: t[p].span }),
            _ => None,
        }
    } else {
        None
    }
}

/// The binary operator at `p`.
pub open spec fn operator_at(t: Seq<TokenView>, p: int) -> Option<Symbol> {
    if 0 <= p < t.len() {
        match t[p].value {
            TokenValueView::Punct(s) => if s.priority() is Some {
                Some(s)
            } else {
                None
            },
            _ => None,
        }
    } else {
        None
    }
}

/// `variable`: a name, and a type where a colon and a further token follow.
/// Once the colon and the token after it are there, that token has to be an
/// identifier: the rule does not fall back to the bare name.
pub open spec fn var_def_spec(t: Seq<TokenView>, p: int) -> Option<(VarDefView, int)> {
    if is_punct(t, p + 1, Symbol::Colon) && p + 2 < t.len() {
        match (ident_at(t, p), ident_at(t, p + 2)) {
            (Some(name), Some(ty)) => Some((VarDefView { name, ty: Some(ty) }, p + 3)),
            _ => None,
        }
    } else {
        match ident_at(t, p) {
            Some(name) => Some((VarDefView { name, ty: None }, p + 1)),
            None => None,
        }
    }
}

/// `{ variable }`, gathered behind `acc`.
pub open spec fn var_defs_spec(t: Seq<TokenView>, p: int, acc: Seq<VarDefView>) -> (
    Seq<VarDefView>,
    int,
)
    decreases t.len() - p,
{
    match var_def_spec(t, p) {
        Some((d, q)) => var_defs_spec(t, q, acc.push(d)),
        None => (acc, p),
    }
}

/// A parameter list ends at or behind the position where it starts.
pub proof fn lemma_var_defs_bounds(t: Seq<TokenView>, p: int, acc: Seq<VarDefView>)
    requires
        0 <= p <= t.len(),
    ensures
        p <= var_defs_spec(t, p, acc).1 <= t.len(),
    decreases t.len() - p,
{
    match var_def_spec(t, p) {
        Some((d, q)) => lemma_var_defs_bounds(t, q, acc.push(d)),
        None => {},
    }
}

/// The atoms of one or three tokens: a variable, `@`, a number, a string.
pub open spec fn leaf_spec(t: Seq<TokenView>, p: int) -> Option<(ExprView, int)> {
    match var_def_spec(t, p) {
        Some((d, q)) => Some((ExprView::Var(d), q)),
        None => if 0 <= p < t.len() {
            match t[p].value {
                TokenValueView::Punct(Symbol::At) => Some((ExprView::LastLine(t[p].span), p + 1)),
                TokenValueView::LitNum(text) => Some((ExprView::LitNum(text, t[p].span), p + 1)),
                TokenValueView::LitStr(text) => Some((ExprView::LitStr(text, t[p].span), p + 1)),
                _ => None,
            }
        } else {
            None
        },
    }
}

/// `expr`: an atom and the terms behind it, reduced to one expression.
pub open spec fn expr_spec(t: Seq<TokenView>, p: int) -> Option<(ExprView, int)>
    decreases t.len() - p, 4int,
{
    match atom_spec(t, p) {
        Some((first, q)) => if advances(t, p, q) {
            let (rest, end) = tail_spec(t, q, Seq::empty());
            Some((reduce_spec(first, rest), end))
        } else {
            None
        },
        None => None,
    }
}

/// `{ term }`, gathered behind `acc`.
pub open spec fn tail_spec(t: Seq<TokenView>, p: int, acc: Seq<TermView>) -> (Seq<TermView>, int)
    decreases t.len() - p, 1int,
{
    match term_spec(t, p) {
        Some((term, q)) => if advances(t, p, q) {
            tail_spec(t, q, acc.push(term))
        } else {
            (acc, p)
        },
        None => (acc, p),
    }
}

/// `term`: a binary operator and its right operand. An else-arm may also
/// start on a line of its own, provided that the line follows directly on the
/// end of an indented block.
pub open spec fn term_spec(t: Seq<TokenView>, p: int) -> Option<(TermView, int)>
    decreases t.len() - p, 0int,
{
    match operator_at(t, p) {
        Some(op) => match atom_spec(t, p + 1) {
            Some((operand, q)) => Some((TermView { op, operand }, q)),
            None => None,
        },
        None => if is_end(t, p - 1) && is_separator(t, p) && is_punct(t, p + 1, Symbol::Else) {
            match atom_spec(t, p + 2) {
                Some((operand, q)) => Some((TermView { op: Symbol::Else, operand }, q)),
                None => None,
            }
        } else {
            None
        },
    }
}

/// `atom`.
pub open spec fn atom_spec(t: Seq<TokenView>, p: int) -> Option<(ExprView, int)>
    decreases t.len() - p, 3int,
{
    if call_spec(t, p) is Some {
        call_spec(t, p)
    } else if func_spec(t, p) is Some {
        func_spec(t, p)
    } else if leaf_spec(t, p) is Some {
        leaf_spec(t, p)
    } else {
        block_spec(t, p)
    }
}

/// `call`: an identifier directly followed by a parenthesized argument list.
pub open spec fn call_spec(t: Seq<TokenView>, p: int) -> Option<(ExprView, int)>
    decreases t.len() - p, 2int,
{
    match ident_at(t, p) {
        Some(name) => if is_punct(t, p + 1, Symbol::OpenParen) {
            let (args, q) = args_spec(t, p + 2, Seq::empty());
            if is_punct(t, q, Symbol::CloseParen) {
                Some((ExprView::Call(name, args), q + 1))
            } else {
                None
            }
        } else {
            None
        },
        None => None,
    }
}

/// `{ expr [ "," ] }`, gathered behind `acc`.
pub open spec fn args_spec(t: Seq<TokenView>, p: int, acc: Seq<ExprView>) -> (Seq<ExprView>, int)
    decreases t.len() - p, 5int,
{
    match expr_spec(t, p) {
        Some((e, q)) => if advances(t, p, q) {
            let next = if is_punct(t, q, Symbol::Comma) {
                q + 1
            } else {
                q
            };
            args_spec(t, next, acc.push(e))
        } else {
            (acc, p)
        },
        None => (acc, p),
    }
}

/// `function`. A colon behind the parameter list that no identifier follows
/// is not skipped: the arrow is then looked for at the colon, and the rule
/// fails.
pub open spec fn func_spec(t: Seq<TokenView>, p: int) -> Option<(ExprView, int)>
    decreases t.len() - p, 2int,
{
    if !is_punct(t, p, Symbol::OpenParen) {
        None
    } else {
        let (params, q) = var_defs_spec(t, p + 1, Seq::empty());
        if !is_punct(t, q, Symbol::CloseParen) {
            None
        } else {
            let typed = is_punct(t, q + 1, Symbol::Colon) && ident_at(t, q + 2) is Some;
            let ret = if typed {
                ident_at(t, q + 2)
            } else {
                None
            };
            let arrow = if typed {
                q + 3
            } else {
                q + 1
            };
            if !is_punct(t, arrow, Symbol::Arrow) {
                None
            } else {
                proof {
                    lemma_var_defs_bounds(t, p + 1, Seq::empty());
                }
                match expr_spec(t, arrow + 1) {
                    Some((body, end)) => Some((ExprView::Func(params, ret, Box::new(body)), end)),
                    None => None,
                }
            }
        }
    }
}

/// `block`.
pub open spec fn block_spec(t: Seq<TokenView>, p: int) -> Option<(ExprView, int)>
    decreases t.len() - p, 2int,
{
    if is_begin(t, p) {
        let (items, q) = stmts_spec(t, p + 1, Seq::empty());
        if is_end(t, q) {
            Some((ExprView::Block(items), q + 1))
        } else {
            None
        }
    } else if bracketed_spec(t, p) is Some {
        bracketed_spec(t, p)
    } else {
        inline_spec(t, p)
    }
}

/// The braced block whose statements stand indented on lines of their own;
/// the closing brace stands on the line after them.
pub open spec fn bracketed_spec(t: Seq<TokenView>, p: int) -> Option<(ExprView, int)>
    decreases t.len() - p, 1int,
{
    if is_punct(t, p, Symbol::OpenBrace) && is_begin(t, p + 1) {
        let (items, q) = stmts_spec(t, p + 2, Seq::empty());
        if is_end(t, q) && is_separator(t, q + 1) && is_punct(t, q + 2, Symbol::CloseBrace) {
            Some((ExprView::Block(items), q + 3))
        } else {
            None
        }
    } else {
        None
    }
}

/// The braced block on one line: statements closed by `;` and possibly one
/// more that is not, or a single expression.
pub open spec fn inline_spec(t: Seq<TokenView>, p: int) -> Option<(ExprView, int)>
    decreases t.len() - p, 1int,
{
    if !is_punct(t, p, Symbol::OpenBrace) {
        None
    } else {
        let (closed, q) = semis_spec(t, p + 1, Seq::empty());
        if closed.len() > 0 {
            let (items, end) = if advances(t, p, q) {
                match expr_spec(t, q) {
                    Some((e, r)) => (closed.push(e), r),
                    None => (closed, q),
                }
            } else {
                (closed, q)
            };
            if is_punct(t, end, Symbol::CloseBrace) {
                Some((ExprView::Block(items), end + 1))
            } else {
                None
            }
        } else {
            match expr_spec(t, p + 1) {
                Some((e, r)) => if is_punct(t, r, Symbol::CloseBrace) {
                    Some((ExprView::Block(seq![e]), r + 1))
                } else {
                    None
                },
                None => None,
            }
        }
    }
}

/// `{ expr ";" }`, gathered behind `acc`.
pub open spec fn semis_spec(t: Seq<TokenView>, p: int, acc: Seq<ExprView>) -> (Seq<ExprView>, int)
    decreases t.len() - p, 5int,
{
    match expr_spec(t, p) {
        Some((e, q)) => if advances(t, p, q) && is_punct(t, q, Symbol::Semicolon) {
            semis_spec(t, q + 1, acc.push(e))
        } else {
            (acc, p)
        },
        None => (acc, p),
    }
}

/// `statements`, gathered behind `acc`.
pub open spec fn stmts_spec(t: Seq<TokenView>, p: int, acc: Seq<ExprView>) -> (Seq<ExprView>, int)
    decreases t.len() - p, 5int,
{
    if is_separator(t, p) {
        match expr_spec(t, p + 1) {
            Some((e, q)) => if advances(t, p, q) {
                stmts_spec(t, q, acc.push(e))
            } else {
                (acc, p)
            },
            None => (acc, p),
        }
    } else {
        (acc, p)
    }
}

/// `program`: the statements of the top level, which have to reach the end
/// of the tokens. Where they stop short, the token at which they stop is the
/// unexpected one, and the error carries the offset at which it starts.
pub open spec fn program_spec(t: Seq<TokenView>) -> Result<Seq<ExprView>, CompileError> {
    let (items, q) = stmts_spec(t, 0, Seq::empty());
    if 0 <= q < t.len() {
        Err(CompileError { kind: ErrorKind::Syntax, position: t[q].span.start })
    } else {
        Ok(items)
    }
}

/// What a rule read at `p` gives back: nothing, or a position behind `p`
/// and not behind the end.
pub open spec fn ends_behind<A>(t: Seq<TokenView>, p: int, r: Option<(A, int)>) -> bool {
    r matches Some((_, q)) ==> advances(t, p, q)
}

/// What a repetition started at `p` gives back: a position at or behind `p`
/// and not behind the end.
pub open spec fn ends_within<A>(t: Seq<TokenView>, p: int, r: (Seq<A>, int)) -> bool {
    p <= r.1 <= t.len()
}

/// Every expression ends behind its start. The rules test this of each
/// expression, atom and term before they go on behind it; by this and the
/// lemmas that follow, the test never fails.
pub proof fn lemma_expr_advances(t: Seq<TokenView>, p: int)
    ensures
        ends_behind(t, p, expr_spec(t, p)),
        atom_spec(t, p) is Some ==> expr_spec(t, p) is Some,
    decreases t.len() - p, 4int,
{
    lemma_atom_advances(t, p);
    match atom_spec(t, p) {
        Some((first, q)) => {
            lemma_tail_within(t, q, Seq::empty());
        },
        None => {},
    }
}

/// Every atom ends behind its start.
pub proof fn lemma_atom_advances(t: Seq<TokenView>, p: int)
    ensures
        ends_behind(t, p, atom_spec(t, p)),
    decreases t.len() - p, 3int,
{
    lemma_call_advances(t, p);
    lemma_func_advances(t, p);
    lemma_block_advances(t, p);
}

/// Every term ends behind its start.
pub proof fn lemma_term_advances(t: Seq<TokenView>, p: int)
    ensures
        ends_behind(t, p, term_spec(t, p)),
    decreases t.len() - p, 0int,
{
    match operator_at(t, p) {
        Some(op) => {
            lemma_atom_advances(t, p + 1);
        },
        None => {
            if is_end(t, p - 1) && is_separator(t, p) && is_punct(t, p + 1, Symbol::Else) {
                lemma_atom_advances(t, p + 2);
            }
        },
    }
}

/// The terms behind an atom end inside the tokens.
pub proof fn lemma_tail_within(t: Seq<TokenView>, p: int, acc: Seq<TermView>)
    requires
        0 <= p <= t.len(),
    ensures
        ends_within(t, p, tail_spec(t, p, acc)),
    decreases t.len() - p, 1int,
{
    lemma_term_advances(t, p);
    match term_spec(t, p) {
        Some((term, q)) => {
            lemma_tail_within(t, q, acc.push(term));
        },
        None => {},
    }
}

/// Every call ends behind its start.
pub proof fn lemma_call_advances(t: Seq<TokenView>, p: int)
    ensures
        ends_behind(t, p, call_spec(t, p)),
    decreases t.len() - p, 2int,
{
    if ident_at(t, p) is Some && is_punct(t, p + 1, Symbol::OpenParen) {
        lemma_args_within(t, p + 2, Seq::empty());
    }
}

/// The arguments of a call end inside the tokens.
pub proof fn lemma_args_within(t: Seq<TokenView>, p: int, acc: Seq<ExprView>)
    requires
        0 <= p <= t.len(),
    ensures
        ends_within(t, p, args_spec(t, p, acc)),
    decreases t.len() - p, 5int,
{
    lemma_expr_advances(t, p);
    match expr_spec(t, p) {
        Some((e, q)) => {
            let next = if is_punct(t, q, Symbol::Comma) {
                q + 1
            } else {
                q
            };
            lemma_args_within(t, next, acc.push(e));
        },
        None => {},
    }
}

/// Every function literal ends behind its start.
pub proof fn lemma_func_advances(t: Seq<TokenView>, p: int)
    ensures
        ends_behind(t, p, func_spec(t, p)),
    decreases t.len() - p, 2int,
{
    if is_punct(t, p, Symbol::OpenParen) {
        lemma_var_defs_bounds(t, p + 1, Seq::empty());
        let q = var_defs_spec(t, p + 1, Seq::empty()).1;
        if is_punct(t, q, Symbol::CloseParen) {
            let typed = is_punct(t, q + 1, Symbol::Colon) && ident_at(t, q + 2) is Some;
            let arrow = if typed {
                q + 3
            } else {
                q + 1
            };
            if is_punct(t, arrow, Symbol::Arrow) {
                lemma_expr_advances(t, arrow + 1);
            }
        }
    }
}

/// Every block ends behind its start.
pub proof fn lemma_block_advances(t: Seq<TokenView>, p: int)
    ensures
        ends_behind(t, p, block_spec(t, p)),
    decreases t.len() - p, 2int,
{
    if is_begin(t, p) {
        lemma_stmts_within(t, p + 1, Seq::empty());
    } else {
        lemma_bracketed_advances(t, p);
        lemma_inline_advances(t, p);
    }
}

/// Every braced block of lines ends behind its start.
pub proof fn lemma_bracketed_advances(t: Seq<TokenView>, p: int)
    ensures
        ends_behind(t, p, bracketed_spec(t, p)),
    decreases t.len() - p, 1int,
{
    if is_punct(t, p, Symbol::OpenBrace) && is_begin(t, p + 1) {
        lemma_stmts_within(t, p + 2, Seq::empty());
    }
}

/// Every braced block on one line ends behind its start, and the statements
/// closed by `;` end behind the brace.
pub proof fn lemma_inline_advances(t: Seq<TokenView>, p: int)
    ensures
        ends_behind(t, p, inline_spec(t, p)),
        is_punct(t, p, Symbol::OpenBrace) ==> advances(
            t,
            p,
            semis_spec(t, p + 1, Seq::empty()).1,
        ),
    decreases t.len() - p, 1int,
{
    if is_punct(t, p, Symbol::OpenBrace) {
        lemma_semis_within(t, p + 1, Seq::empty());
        let (closed, q) = semis_spec(t, p + 1, Seq::empty());
        if closed.len() > 0 {
            lemma_expr_advances(t, q);
        } else {
            lemma_expr_advances(t, p + 1);
        }
    }
}

/// The statements closed by `;` end inside the tokens.
pub proof fn lemma_semis_within(t: Seq<TokenView>, p: int, acc: Seq<ExprView>)
    requires
        0 <= p <= t.len(),
    ensures
        ends_within(t, p, semis_spec(t, p, acc)),
    decreases t.len() - p, 5int,
{
    lemma_expr_advances(t, p);
    match expr_spec(t, p) {
        Some((e, q)) => {
            if is_punct(t, q, Symbol::Semicolon) {
                lemma_semis_within(t, q + 1, acc.push(e));
            }
        },
        None => {},
    }
}

/// The statements of a block end inside the tokens.
pub proof fn lemma_stmts_within(t: Seq<TokenView>, p: int, acc: Seq<ExprView>)
    requires
        0 <= p <= t.len(),
    ensures
        ends_within(t, p, stmts_spec(t, p, acc)),
    decreases t.len() - p, 5int,
{
    if is_separator(t, p) {
        lemma_expr_advances(t, p + 1);
        match expr_spec(t, p + 1) {
            Some((e, q)) => {
                lemma_stmts_within(t, q, acc.push(e));
            },
            None => {},
        }
    }
}

} // verus!
