//! Operator reduction: folds an operand followed by `operator operand` pairs
//! into one expression.
//!
//! The bands of priority are reduced one after the other, tightest first.
//! Every band but the loosest is reduced from left to right: an operator of the
//! band merges its operand into the operand before it. The loosest band (`?`,
//! `!?`, `^`, `=`) is reduced from right to left: the operand of a `!?` is set
//! aside as an else-arm, and the next `?` to the left takes the else-arm set
//! aside last and becomes a conditional with both arms.

use crate::ast::{binary_view, if_else_view, operation_view, Expr, ExprView, Operation};
use crate::symbol::{BinaryKind, Symbol, LOOSE_PRIORITY};
use vstd::prelude::*;

verus! {

/// An operator and the operand that follows it.
pub struct Term {
    pub op: Symbol,
    pub operand: Expr,
}

/// Mathematical content of a [`Term`].
pub struct TermView {
    pub op: Symbol,
    pub operand: ExprView,
}

impl View for Term {
    type V = TermView;

    open spec fn view(&self) -> TermView {
        TermView { op: self.op, operand: self.operand@ }
    }
}

/// The contents of a run of terms.
pub open spec fn term_views(terms: Seq<Term>) -> Seq<TermView> {
    terms.map_values(|t: Term| t@)
}

/// Adding a term at the end adds its content at the end.
pub proof fn lemma_term_views_push(terms: Seq<Term>, t: Term)
    ensures
        term_views(terms.push(t)) == term_views(terms).push(t@),
{
    assert(term_views(terms.push(t)) =~= term_views(terms).push(t@));
}

/// Every operator of `rest` is a binary operator of the language.
pub open spec fn all_operators(rest: Seq<TermView>) -> bool {
    forall|k: int| 0 <= k < rest.len() ==> (#[trigger] rest[k]).op.priority() is Some
}

/// The node that operator `op` builds from `l` and `r`.
pub open spec fn node(op: Symbol, l: ExprView, r: ExprView) -> ExprView {
    binary_view(op.binary_kind().unwrap(), l, r)
}

/// Merges the operand of `t` into the last operand of the running sequence
/// `head tail`.
pub open spec fn absorb(head: ExprView, tail: Seq<TermView>, t: TermView) -> (
    ExprView,
    Seq<TermView>,
) {
    if tail.len() == 0 {
        (node(t.op, head, t.operand), tail)
    } else {
        (
            head,
            tail.drop_last().push(
                TermView { op: tail.last().op, operand: node(t.op, tail.last().operand, t.operand) },
            ),
        )
    }
}

/// `head rest` with the operators of one priority reduced, left to right: a
/// term whose operator has the priority is merged into the operand before it,
/// every other term is kept.
pub open spec fn fold_level(head: ExprView, rest: Seq<TermView>, priority: usize) -> (
    ExprView,
    Seq<TermView>,
)
    decreases rest.len(),
{
    if rest.len() == 0 {
        (head, Seq::empty())
    } else {
        let (h, tail) = fold_level(head, rest.drop_last(), priority);
        let t = rest.last();
        if t.op.priority() == Some(priority) {
            absorb(h, tail, t)
        } else {
            (h, tail.push(t))
        }
    }
}

/// The priorities that are reduced from left to right, tightest first.
pub open spec fn tight_priorities() -> Seq<usize> {
    seq![3usize, 4usize, 6usize, 7usize, 8usize, 10usize, 11usize, 12usize]
}

/// `head rest` with the given priorities reduced one after the other.
pub open spec fn fold_levels(head: ExprView, rest: Seq<TermView>, priorities: Seq<usize>) -> (
    ExprView,
    Seq<TermView>,
)
    decreases priorities.len(),
{
    if priorities.len() == 0 {
        (head, rest)
    } else {
        let (h, tail) = fold_levels(head, rest, priorities.drop_last());
        fold_level(h, tail, priorities.last())
    }
}

/// What operator `op` makes of the operand `own` to its left, the reduced
/// operand `right` to its right and the else-arms set aside so far: the new
/// value of the left operand, and the else-arms left.
pub open spec fn combine(own: ExprView, op: Symbol, right: ExprView, elses: Seq<ExprView>) -> (
    ExprView,
    Seq<ExprView>,
) {
    if op == Symbol::Else {
        (own, elses.push(right))
    } else if op == Symbol::Question && elses.len() > 0 {
        (if_else_view(own, right, elses.last()), elses.drop_last())
    } else {
        (node(op, own, right), elses)
    }
}

/// The operand at index `i` of `head rest` (index 0 is `head`) once all that
/// stands to its right is reduced from right to left, and the else-arms that
/// no `?` has taken yet.
pub open spec fn loose_from(head: ExprView, rest: Seq<TermView>, i: int) -> (
    ExprView,
    Seq<ExprView>,
)
    decreases rest.len() - i,
{
    let own = if i <= 0 {
        head
    } else {
        rest[i - 1].operand
    };
    if i < 0 || i >= rest.len() {
        (own, Seq::empty())
    } else {
        let (right, elses) = loose_from(head, rest, i + 1);
        combine(own, rest[i].op, right, elses)
    }
}

/// `head rest` reduced from right to left. Else-arms that no `?` takes are
/// dropped.
pub open spec fn fold_loose(head: ExprView, rest: Seq<TermView>) -> ExprView {
    loose_from(head, rest, 0).0
}

/// The expression that `head rest` reduces to.
pub open spec fn reduce_spec(head: ExprView, rest: Seq<TermView>) -> ExprView {
    let (h, tail) = fold_levels(head, rest, tight_priorities());
    fold_loose(h, tail)
}

/// Reducing one priority adds no operator.
pub proof fn lemma_fold_level_operators(head: ExprView, rest: Seq<TermView>, priority: usize)
    requires
        all_operators(rest),
    ensures
        all_operators(fold_level(head, rest, priority).1),
    decreases rest.len(),
{
    if rest.len() > 0 {
        let init = rest.drop_last();
        assert forall|k: int| 0 <= k < init.len() implies (#[trigger] init[k]).op.priority()
            is Some by {
            assert(init[k] == rest[k]);
        }
        lemma_fold_level_operators(head, init, priority);
        let (h, tail) = fold_level(head, init, priority);
        let t = rest.last();
        let out = fold_level(head, rest, priority).1;
        assert forall|k: int| 0 <= k < out.len() implies (#[trigger] out[k]).op.priority()
            is Some by {
            if t.op.priority() == Some(priority) {
                if tail.len() > 0 {
                    if k < tail.len() - 1 {
                        assert(out[k] == tail[k]);
                    } else {
                        assert(out[k].op == tail.last().op);
                    }
                }
            } else {
                if k < tail.len() {
                    assert(out[k] == tail[k]);
                } else {
                    assert(out[k] == t);
                }
            }
        }
    }
}

/// Builds the node of a binary operator.
///
/// `op` must be one of the seventeen operators that build a node of their own;
/// `!?` is none of them.
pub fn reduce_binary(l: Expr, op: Symbol, r: Expr) -> (e: Expr)
    requires
        op.binary_kind() is Some,
    ensures
        e@ == node(op, l@, r@),
{
    let operation = match op.operation() {
        Some(BinaryKind::If) => Operation::If(l, r),
        Some(BinaryKind::While) => Operation::While(l, r),
        Some(BinaryKind::Assign) => Operation::Assign(l, r),
        Some(BinaryKind::Add) => Operation::Add(l, r),
        Some(BinaryKind::Sub) => Operation::Sub(l, r),
        Some(BinaryKind::Mul) => Operation::Mul(l, r),
        Some(BinaryKind::Div) => Operation::Div(l, r),
        Some(BinaryKind::BitAnd) => Operation::BitAnd(l, r),
        Some(BinaryKind::BitOr) => Operation::BitOr(l, r),
        Some(BinaryKind::EQ) => Operation::EQ(l, r),
        Some(BinaryKind::NE) => Operation::NE(l, r),
        Some(BinaryKind::GT) => Operation::GT(l, r),
        Some(BinaryKind::LT) => Operation::LT(l, r),
        Some(BinaryKind::GE) => Operation::GE(l, r),
        Some(BinaryKind::LE) => Operation::LE(l, r),
        Some(BinaryKind::And) => Operation::And(l, r),
        Some(BinaryKind::Or) => Operation::Or(l, r),
        None => Operation::If(l, r),
    };
    let e = Expr::Operation(Box::new(operation));
    proof {
        assert(e@ == operation_view(operation));
        assert(operation_view(operation) == node(op, l@, r@));
    }
    e
}

/// The terms in the opposite order.
fn reversed(terms: Vec<Term>) -> (r: Vec<Term>)
    ensures
        r@ == terms@.reverse(),
{
    let mut terms = terms;
    let ghost all = terms@;
    let mut out: Vec<Term> = Vec::new();
    while terms.len() > 0
        invariant
            terms@ == all.take(terms@.len() as int),
            out@.len() + terms@.len() == all.len(),
            forall|k: int| 0 <= k < out@.len() ==> out@[k] == all[all.len() - 1 - k],
        decreases terms.len(),
    {
        let t = terms.pop().unwrap();
        out.push(t);
        proof {
            assert(terms@ =~= all.take(terms@.len() as int));
        }
    }
    proof {
        assert(out@ =~= all.reverse());
    }
    out
}

/// Reduces the operators of one priority from left to right.
pub fn reduce_level(head: Expr, rest: Vec<Term>, priority: usize) -> (r: (Expr, Vec<Term>))
    requires
        priority != LOOSE_PRIORITY,
    ensures
        (r.0@, term_views(r.1@)) == fold_level(head@, term_views(rest@), priority),
{
    let ghost all = term_views(rest@);
    let ghost head0 = head@;
    let count = rest.len();
    let mut pending = reversed(rest);
    let mut head = head;
    let mut tail: Vec<Term> = Vec::new();
    let mut done: usize = 0;
    proof {
        assert(all.take(0) =~= Seq::<TermView>::empty());
        assert(term_views(tail@) =~= Seq::<TermView>::empty());
    }
    while done < count
        invariant
            done <= count,
            count == all.len(),
            pending@.len() == count - done,
            forall|k: int| 0 <= k < pending@.len() ==> pending@[k]@ == all[count - 1 - k],
            (head@, term_views(tail@)) == fold_level(head0, all.take(done as int), priority),
            priority != LOOSE_PRIORITY,
        decreases count - done,
    {
        let ghost before = all.take(done as int);
        let ghost tail0 = tail@;
        let t = pending.pop().unwrap();
        proof {
            assert(t@ == all[done as int]);
            assert(all.take(done + 1).drop_last() =~= before);
            assert(all.take(done + 1).last() == t@);
        }
        if t.op.binding() == Some(priority) {
            if tail.len() == 0 {
                head = reduce_binary(head, t.op, t.operand);
            } else {
                let prev = tail.pop().unwrap();
                let ghost tail1 = tail@;
                let merged = Term { op: prev.op, operand: reduce_binary(prev.operand, t.op, t.operand) };
                tail.push(merged);
                proof {
                    lemma_term_views_push(tail1, merged);
                    assert(term_views(tail1) =~= term_views(tail0).drop_last());
                }
            }
        } else {
            tail.push(t);
            proof {
                lemma_term_views_push(tail0, t);
            }
        }
        done += 1;
    }
    proof {
        assert(all.take(done as int) =~= all);
    }
    (head, tail)
}

/// One step of the reduction from right to left: what `op` makes of the
/// operand to its left and the reduced operand to its right.
fn combine_exec(own: Expr, op: Symbol, right: Expr, elses: &mut Vec<Expr>) -> (e: Expr)
    requires
        op.priority() is Some,
    ensures
        (e@, crate::ast::expr_views(final(elses)@)) == combine(
            own@,
            op,
            right@,
            crate::ast::expr_views(old(elses)@),
        ),
{
    let ghost before = elses@;
    match op {
        Symbol::Else => {
            elses.push(right);
            proof {
                crate::ast::lemma_expr_views_push(before, right);
            }
            own
        },
        Symbol::Question => {
            if elses.len() > 0 {
                let other = elses.pop().unwrap();
                proof {
                    assert(crate::ast::expr_views(elses@) =~= crate::ast::expr_views(
                        before,
                    ).drop_last());
                }
                let operation = Operation::IfElse(own, right, other);
                let e = Expr::Operation(Box::new(operation));
                proof {
                    assert(other@ == crate::ast::expr_views(before).last());
                    assert(e@ == operation_view(operation));
                }
                e
            } else {
                reduce_binary(own, op, right)
            }
        },
        _ => reduce_binary(own, op, right),
    }
}

/// Reduces what the tighter priorities left over, from right to left.
pub fn reduce_loose(head: Expr, rest: Vec<Term>) -> (e: Expr)
    requires
        all_operators(term_views(rest@)),
    ensures
        e@ == fold_loose(head@, term_views(rest@)),
{
    let ghost all = term_views(rest@);
    let ghost head0 = head@;
    let mut rest = rest;
    let mut elses: Vec<Expr> = Vec::new();
    let mut carry = match rest.pop() {
        None => {
            return head;
        },
        Some(t) => t,
    };
    proof {
        assert(crate::ast::expr_views(elses@) =~= Seq::<ExprView>::empty());
        assert(carry@ == all[all.len() - 1]);
        assert(loose_from(head0, all, all.len() as int) == (
            carry@.operand,
            Seq::<ExprView>::empty(),
        ));
    }
    while rest.len() > 0
        invariant
            rest@.len() < all.len(),
            all_operators(all),
            forall|k: int| 0 <= k < rest@.len() ==> rest@[k]@ == all[k],
            carry.op == all[rest@.len() as int].op,
            (carry.operand@, crate::ast::expr_views(elses@)) == loose_from(
                head0,
                all,
                (rest@.len() + 1) as int,
            ),
        decreases rest.len(),
    {
        let ghost i = rest@.len() as int;
        let t = rest.pop().unwrap();
        proof {
            assert(t@ == all[i - 1]);
            assert(all[i].op.priority() is Some);
        }
        let merged = combine_exec(t.operand, carry.op, carry.operand, &mut elses);
        carry = Term { op: t.op, operand: merged };
    }
    proof {
        assert(all[0].op.priority() is Some);
    }
    combine_exec(head, carry.op, carry.operand, &mut elses)
}

/// Reduces an operand followed by `operator operand` pairs to one expression.
pub fn reduce(head: Expr, rest: Vec<Term>) -> (e: Expr)
    requires
        all_operators(term_views(rest@)),
    ensures
        e@ == reduce_spec(head@, term_views(rest@)),
{
    let ghost head0 = head@;
    let ghost all = term_views(rest@);
    let priorities: [usize; 8] = [3, 4, 6, 7, 8, 10, 11, 12];
    let mut head = head;
    let mut rest = rest;
    let mut k: usize = 0;
    proof {
        assert(priorities@ =~= tight_priorities());
        assert(priorities@.take(0) =~= Seq::<usize>::empty());
    }
    while k < 8
        invariant
            k <= 8,
            priorities@ == tight_priorities(),
            (head@, term_views(rest@)) == fold_levels(head0, all, priorities@.take(k as int)),
            all_operators(term_views(rest@)),
        decreases 8 - k,
    {
        let ghost h0 = head@;
        let ghost r0 = term_views(rest@);
        proof {
            assert(priorities@.take(k + 1).drop_last() =~= priorities@.take(k as int));
            assert(priorities@.take(k + 1).last() == priorities@[k as int]);
            lemma_fold_level_operators(h0, r0, priorities@[k as int]);
        }
        let p = priorities[k];
        let (h, r) = reduce_level(head, rest, p);
        head = h;
        rest = r;
        k += 1;
    }
    proof {
        assert(priorities@.take(8) =~= priorities@);
    }
    reduce_loose(head, rest)
}

} // verus!
