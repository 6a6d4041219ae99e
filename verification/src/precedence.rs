//! How priority and direction shape the tree of two operators.

use crate::ast::{if_else_view, ExprView};
use crate::reduce::{
    fold_level, fold_levels, fold_loose, loose_from, node, reduce_spec, tight_priorities, TermView,
};
use crate::symbol::{Symbol, LOOSE_PRIORITY};
use vstd::prelude::*;

verus! {

/// In `a first b second c`, the operator `second` takes its operands before
/// `first` does: it binds tighter, or both are of the loosest band, which is
/// reduced from the right.
pub open spec fn right_first(first: Symbol, second: Symbol) -> bool {
    ||| second.priority().unwrap() < first.priority().unwrap()
    ||| (first.priority() == Some(LOOSE_PRIORITY) && second.priority() == Some(LOOSE_PRIORITY))
}

/// Reducing a priority that no term has changes nothing.
pub proof fn lemma_fold_level_skips(head: ExprView, rest: Seq<TermView>, priority: usize)
    requires
        forall|k: int| 0 <= k < rest.len() ==> (#[trigger] rest[k]).op.priority() != Some(priority),
    ensures
        fold_level(head, rest, priority) == (head, rest),
    decreases rest.len(),
{
    if rest.len() > 0 {
        let init = rest.drop_last();
        assert forall|k: int| 0 <= k < init.len() implies (#[trigger] init[k]).op.priority()
            != Some(priority) by {
            assert(init[k] == rest[k]);
        }
        lemma_fold_level_skips(head, init, priority);
        assert(rest.last() == rest[rest.len() - 1]);
        assert(init.push(rest.last()) =~= rest);
    } else {
        assert(rest =~= Seq::<TermView>::empty());
    }
}

/// One operator between two operands builds its node; an else-arm without a
/// conditional is dropped.
pub proof fn lemma_one_operator(a: ExprView, op: Symbol, b: ExprView)
    requires
        op.priority() is Some,
    ensures
        reduce_spec(a, seq![TermView { op, operand: b }]) == if op == Symbol::Else {
            a
        } else {
            node(op, a, b)
        },
{
    let t = TermView { op, operand: b };
    let rest = seq![t];
    reveal_with_fuel(fold_level, 3);
    reveal_with_fuel(loose_from, 3);
    assert(rest.drop_last() =~= Seq::<TermView>::empty());
    let p = op.priority().unwrap();
    if p == LOOSE_PRIORITY {
        lemma_levels_skip(a, rest, tight_priorities());
    } else {
        lemma_levels_fold_one(a, t);
        assert(fold_loose(node(op, a, b), Seq::empty()) == node(op, a, b));
    }
}

/// Reducing priorities that no term has changes nothing.
pub proof fn lemma_levels_skip(head: ExprView, rest: Seq<TermView>, priorities: Seq<usize>)
    requires
        forall|k: int, j: int|
            0 <= k < rest.len() && 0 <= j < priorities.len() ==> (#[trigger] rest[k]).op.priority()
                != Some(#[trigger] priorities[j]),
    ensures
        fold_levels(head, rest, priorities) == (head, rest),
    decreases priorities.len(),
{
    if priorities.len() > 0 {
        let init = priorities.drop_last();
        assert forall|k: int, j: int| 0 <= k < rest.len() && 0 <= j < init.len() implies (
        #[trigger] rest[k]).op.priority() != Some(#[trigger] init[j]) by {
            assert(init[j] == priorities[j]);
        }
        lemma_levels_skip(head, rest, init);
        assert forall|k: int| 0 <= k < rest.len() implies (#[trigger] rest[k]).op.priority()
            != Some(priorities.last()) by {
            assert(priorities.last() == priorities[priorities.len() - 1]);
        }
        lemma_fold_level_skips(head, rest, priorities.last());
    }
}

/// A single term of a tight priority is folded into the head by the time
/// all tight priorities are reduced.
pub proof fn lemma_levels_fold_one(a: ExprView, t: TermView)
    requires
        t.op.priority() is Some,
        t.op.priority() != Some(LOOSE_PRIORITY),
    ensures
        fold_levels(a, seq![t], tight_priorities()) == (
            node(t.op, a, t.operand),
            Seq::<TermView>::empty(),
        ),
{
    let ps = tight_priorities();
    let p = t.op.priority().unwrap();
    let i = choose|i: int| 0 <= i < ps.len() && ps[i] == p;
    assert(exists|i: int| 0 <= i < ps.len() && ps[i] == p) by {
        assert(ps[0] == 3 && ps[1] == 4 && ps[2] == 6 && ps[3] == 7 && ps[4] == 8 && ps[5] == 10
            && ps[6] == 11 && ps[7] == 12);
    }
    lemma_levels_split(a, seq![t], ps, i);
    let before = ps.take(i);
    let after = ps.skip(i + 1);
    assert forall|k: int, j: int| 0 <= k < 1 && 0 <= j < before.len() implies (#[trigger] seq![
        t,
    ][k]).op.priority() != Some(#[trigger] before[j]) by {
        assert(before[j] == ps[j]);
        lemma_tight_priorities_differ(j, i);
    }
    lemma_levels_skip(a, seq![t], before);
    reveal_with_fuel(fold_level, 3);
    assert(seq![t].drop_last() =~= Seq::<TermView>::empty());
    assert(fold_level(a, seq![t], p) == (node(t.op, a, t.operand), Seq::<TermView>::empty()));
    lemma_levels_skip(node(t.op, a, t.operand), Seq::<TermView>::empty(), after);
}

/// No two of the tight priorities are the same.
pub proof fn lemma_tight_priorities_differ(i: int, j: int)
    requires
        0 <= i < tight_priorities().len(),
        0 <= j < tight_priorities().len(),
        i != j,
    ensures
        tight_priorities()[i] != tight_priorities()[j],
        tight_priorities()[i] != LOOSE_PRIORITY,
        i < j ==> tight_priorities()[i] < tight_priorities()[j],
{
    let ps = tight_priorities();
    assert(ps[0] == 3 && ps[1] == 4 && ps[2] == 6 && ps[3] == 7 && ps[4] == 8 && ps[5] == 10
        && ps[6] == 11 && ps[7] == 12);
}

/// Reducing a list of priorities is reducing those before index `i`, then
/// the one at `i`, then those behind it.
pub proof fn lemma_levels_split(head: ExprView, rest: Seq<TermView>, priorities: Seq<usize>, i: int)
    requires
        0 <= i < priorities.len(),
    ensures
        ({
            let (h1, r1) = fold_levels(head, rest, priorities.take(i));
            let (h2, r2) = fold_level(h1, r1, priorities[i]);
            fold_levels(head, rest, priorities) == fold_levels(h2, r2, priorities.skip(i + 1))
        }),
    decreases priorities.len(),
{
    let (h1, r1) = fold_levels(head, rest, priorities.take(i));
    let (h2, r2) = fold_level(h1, r1, priorities[i]);
    if i == priorities.len() - 1 {
        assert(priorities.take(i) =~= priorities.drop_last());
        assert(priorities.skip(i + 1) =~= Seq::<usize>::empty());
    } else {
        let init = priorities.drop_last();
        lemma_levels_split(head, rest, init, i);
        assert(init.take(i) =~= priorities.take(i));
        assert(init.skip(i + 1) =~= priorities.skip(i + 1).drop_last());
        assert(priorities.skip(i + 1).last() == priorities.last());
    }
}

/// The place of a priority among the tight priorities; 8 for any other.
pub open spec fn level_of(priority: usize) -> int {
    if priority == 3 {
        0
    } else if priority == 4 {
        1
    } else if priority == 6 {
        2
    } else if priority == 7 {
        3
    } else if priority == 8 {
        4
    } else if priority == 10 {
        5
    } else if priority == 11 {
        6
    } else if priority == 12 {
        7
    } else {
        8
    }
}

/// `a t1 t2` once the first `k` tight priorities are reduced.
pub open spec fn after_levels(a: ExprView, t1: TermView, t2: TermView, k: int) -> (
    ExprView,
    Seq<TermView>,
) {
    let l1 = level_of(t1.op.priority().unwrap());
    let l2 = level_of(t2.op.priority().unwrap());
    if l1 < k && l2 < k {
        if l2 < l1 {
            (node(t1.op, a, node(t2.op, t1.operand, t2.operand)), Seq::empty())
        } else {
            (node(t2.op, node(t1.op, a, t1.operand), t2.operand), Seq::empty())
        }
    } else if l1 < k {
        (node(t1.op, a, t1.operand), seq![t2])
    } else if l2 < k {
        (a, seq![TermView { op: t1.op, operand: node(t2.op, t1.operand, t2.operand) }])
    } else {
        (a, seq![t1, t2])
    }
}

/// What the first `k` tight priorities make of two terms.
pub proof fn lemma_two_terms_levels(a: ExprView, t1: TermView, t2: TermView, k: int)
    requires
        0 <= k <= tight_priorities().len(),
        t1.op.priority() is Some,
        t2.op.priority() is Some,
    ensures
        fold_levels(a, seq![t1, t2], tight_priorities().take(k)) == after_levels(a, t1, t2, k),
    decreases k,
{
    let ps = tight_priorities();
    assert(ps[0] == 3 && ps[1] == 4 && ps[2] == 6 && ps[3] == 7 && ps[4] == 8 && ps[5] == 10
        && ps[6] == 11 && ps[7] == 12);
    if k == 0 {
        assert(ps.take(0) =~= Seq::<usize>::empty());
    } else {
        lemma_two_terms_levels(a, t1, t2, k - 1);
        assert(ps.take(k).drop_last() =~= ps.take(k - 1));
        assert(ps.take(k).last() == ps[k - 1]);
        let p = ps[k - 1];
        let (h, r) = after_levels(a, t1, t2, k - 1);
        let l1 = level_of(t1.op.priority().unwrap());
        let l2 = level_of(t2.op.priority().unwrap());
        assert(t1.op.priority() == Some(p) <==> l1 == k - 1);
        assert(t2.op.priority() == Some(p) <==> l2 == k - 1);
        reveal_with_fuel(fold_level, 4);
        assert(seq![t1, t2].drop_last() =~= seq![t1]);
        assert(seq![t1].drop_last() =~= Seq::<TermView>::empty());
        assert(seq![t2].drop_last() =~= Seq::<TermView>::empty());
        let merged = TermView { op: t1.op, operand: node(t2.op, t1.operand, t2.operand) };
        assert(seq![merged].drop_last() =~= Seq::<TermView>::empty());
        assert(Seq::<TermView>::empty().push(t1) =~= seq![t1]);
        assert(Seq::<TermView>::empty().push(t2) =~= seq![t2]);
        assert(Seq::<TermView>::empty().push(merged) =~= seq![merged]);
        assert(seq![t1].push(t2) =~= seq![t1, t2]);
        assert(seq![t1].drop_last().push(merged) =~= seq![merged]);
        assert(fold_level(h, r, p) == after_levels(a, t1, t2, k));
    }
}

/// The tree of two operators.
///
/// In `a first b second c`, where neither operator is `!?`: when `second`
/// binds tighter than `first`, or both are of the loosest band, `second`
/// takes `b` and `c` and `first` takes `a` and the result; else `first` takes
/// `a` and `b` and `second` takes the result and `c`. So a tighter operator is
/// reduced first, operators of one tight priority associate to the left, and
/// the operators of the loosest band associate to the right.
pub proof fn lemma_two_operators(
    a: ExprView,
    first: Symbol,
    b: ExprView,
    second: Symbol,
    c: ExprView,
)
    requires
        first.binary_kind() is Some,
        second.binary_kind() is Some,
    ensures
        reduce_spec(
            a,
            seq![TermView { op: first, operand: b }, TermView { op: second, operand: c }],
        ) == if right_first(first, second) {
            node(first, a, node(second, b, c))
        } else {
            node(second, node(first, a, b), c)
        },
{
    let t1 = TermView { op: first, operand: b };
    let t2 = TermView { op: second, operand: c };
    let ps = tight_priorities();
    lemma_two_terms_levels(a, t1, t2, 8);
    assert(ps.take(8) =~= ps);
    let (h, r) = after_levels(a, t1, t2, 8);
    reveal_with_fuel(loose_from, 4);
    let merged = TermView { op: first, operand: node(second, b, c) };
    assert(seq![t1, t2][0] == t1 && seq![t1, t2][1] == t2);
    assert(seq![t2][0] == t2);
    assert(seq![merged][0] == merged);
    assert(fold_loose(h, r) == if right_first(first, second) {
        node(first, a, node(second, b, c))
    } else {
        node(second, node(first, a, b), c)
    });
}

/// An else-arm directly behind a conditional makes it a conditional with
/// both arms: `c ? t !? e` is the one node that holds the three.
pub proof fn lemma_else_joins_if(c: ExprView, t: ExprView, e: ExprView)
    ensures
        reduce_spec(
            c,
            seq![
                TermView { op: Symbol::Question, operand: t },
                TermView { op: Symbol::Else, operand: e },
            ],
        ) == if_else_view(c, t, e),
{
    let t1 = TermView { op: Symbol::Question, operand: t };
    let t2 = TermView { op: Symbol::Else, operand: e };
    lemma_two_terms_levels(c, t1, t2, 8);
    assert(tight_priorities().take(8) =~= tight_priorities());
    reveal_with_fuel(loose_from, 4);
    assert(seq![t1, t2][0] == t1 && seq![t1, t2][1] == t2);
    assert(Seq::<ExprView>::empty().push(e).last() == e);
}

} // verus!
