//! A walk that keeps its pending work on a stack of its own, so that the depth
//! of a tree is not bounded by the depth of the call stack.

use crate::ast::{BinaryExpr, Expr, GroupExpr, UnaryExpr};
use crate::visitor::{Outcome, VisitResult, Visitor};
use vstd::prelude::*;

verus! {

/// One piece of pending work.
#[derive(Clone, Copy)]
enum Task<'a> {
    /// Walk this tree.
    Visit(&'a Expr<'a>),
    /// The operand has been walked: hand the node to the visitor.
    Unary(&'a UnaryExpr<'a>),
    /// The two sides have been walked: hand the node to the visitor.
    Binary(&'a BinaryExpr<'a>),
    /// The enclosed expression has been walked: hand the node to the visitor.
    Group(&'a GroupExpr<'a>),
}

impl<'a> Task<'a> {
    /// A bound on the number of steps that the task stands for.
    spec fn weight(self) -> nat {
        match self {
            Task::Visit(e) => 2 * e.size(),
            _ => 1,
        }
    }
}

/// A bound on the number of steps that the tasks stand for together.
spec fn work(tasks: Seq<Task>) -> nat
    decreases tasks.len(),
{
    if tasks.len() == 0 {
        0
    } else {
        work(tasks.drop_last()) + tasks.last().weight()
    }
}

/// Whether the tasks, taken from the last to the first, always find the
/// results they consume among `held` results, and leave exactly one.
spec fn fits(tasks: Seq<Task>, held: nat) -> bool
    decreases tasks.len(),
{
    if tasks.len() == 0 {
        held == 1
    } else {
        match tasks.last() {
            Task::Visit(_) => fits(tasks.drop_last(), held + 1),
            Task::Unary(_) => held >= 1 && fits(tasks.drop_last(), held),
            Task::Binary(_) => held >= 2 && fits(tasks.drop_last(), (held - 1) as nat),
            Task::Group(_) => held >= 1 && fits(tasks.drop_last(), held),
        }
    }
}

/// The values of a list of results.
spec fn outcomes(results: Seq<VisitResult>) -> Seq<Outcome> {
    Seq::new(results.len(), |i: int| results[i]@)
}

/// Whether carrying out the tasks, from the last to the first, on top of the
/// results already `held` may end with `out` as the one result left.
spec fn completes<V: Visitor>(
    visitor: &V,
    tasks: Seq<Task>,
    held: Seq<Outcome>,
    out: Outcome,
) -> bool
    decreases tasks.len(),
{
    if tasks.len() == 0 {
        held.len() == 1 && held[0] == out
    } else {
        let rest = tasks.drop_last();
        match tasks.last() {
            Task::Visit(e) => exists|o: Outcome| #[trigger]
                e.visited_by(visitor, o) && completes(visitor, rest, held.push(o), out),
            Task::Unary(e) => held.len() >= 1 && exists|o: Outcome| #[trigger]
                visitor.unary_outcome(*e, held.last(), o) && completes(
                    visitor,
                    rest,
                    held.drop_last().push(o),
                    out,
                ),
            Task::Binary(e) => held.len() >= 2 && exists|o: Outcome| #[trigger]
                visitor.binary_outcome(*e, held[held.len() - 2], held[held.len() - 1], o)
                    && completes(visitor, rest, held.drop_last().drop_last().push(o), out),
            Task::Group(e) => held.len() >= 1 && exists|o: Outcome| #[trigger]
                visitor.group_outcome(*e, held.last(), o) && completes(
                    visitor,
                    rest,
                    held.drop_last().push(o),
                    out,
                ),
        }
    }
}

proof fn lemma_size_positive(e: Expr)
    ensures
        e.size() >= 1,
{
}

proof fn lemma_push(tasks: Seq<Task>, task: Task)
    ensures
        tasks.push(task).drop_last() == tasks,
        tasks.push(task).last() == task,
        work(tasks.push(task)) == work(tasks) + task.weight(),
        forall|held: nat| #[trigger]
            fits(tasks.push(task), held) == match task {
                Task::Visit(_) => fits(tasks, held + 1),
                Task::Unary(_) => held >= 1 && fits(tasks, held),
                Task::Binary(_) => held >= 2 && fits(tasks, (held - 1) as nat),
                Task::Group(_) => held >= 1 && fits(tasks, held),
            },
{
    assert(tasks.push(task).drop_last() =~= tasks);
}

/// Walking a literal is one call of the visitor.
proof fn lemma_visit_literal<V: Visitor>(
    visitor: &V,
    rest: Seq<Task>,
    held: Seq<Outcome>,
    e: &Expr,
    r: Outcome,
    out: Outcome,
)
    requires
        *e is Literal,
        visitor.literal_outcome(e->Literal_0, r),
        completes(visitor, rest, held.push(r), out),
    ensures
        completes(visitor, rest.push(Task::Visit(e)), held, out),
{
    lemma_push(rest, Task::Visit(e));
    assert(e.visited_by(visitor, r));
}

/// Walking a unary node is walking its operand and then closing the node.
proof fn lemma_open_unary<V: Visitor>(
    visitor: &V,
    rest: Seq<Task>,
    held: Seq<Outcome>,
    e: &Expr,
    u: &UnaryExpr,
    out: Outcome,
)
    requires
        *e == Expr::Unary(*u),
        completes(visitor, rest.push(Task::Unary(u)).push(Task::Visit(u.rhs)), held, out),
    ensures
        completes(visitor, rest.push(Task::Visit(e)), held, out),
{
    let closing = rest.push(Task::Unary(u));
    lemma_push(closing, Task::Visit(u.rhs));
    lemma_push(rest, Task::Unary(u));
    lemma_push(rest, Task::Visit(e));
    let operand: Outcome = choose|o: Outcome| #[trigger]
        u.rhs.visited_by(visitor, o) && completes(visitor, closing, held.push(o), out);
    assert(held.push(operand).drop_last() =~= held);
    let r: Outcome = choose|o: Outcome| #[trigger]
        visitor.unary_outcome(*u, operand, o) && completes(visitor, rest, held.push(o), out);
    assert(e.visited_by(visitor, r));
}

/// Walking a group is walking what it encloses and then closing the node.
proof fn lemma_open_group<V: Visitor>(
    visitor: &V,
    rest: Seq<Task>,
    held: Seq<Outcome>,
    e: &Expr,
    g: &GroupExpr,
    out: Outcome,
)
    requires
        *e == Expr::Group(*g),
        completes(visitor, rest.push(Task::Group(g)).push(Task::Visit(g.expr)), held, out),
    ensures
        completes(visitor, rest.push(Task::Visit(e)), held, out),
{
    let closing = rest.push(Task::Group(g));
    lemma_push(closing, Task::Visit(g.expr));
    lemma_push(rest, Task::Group(g));
    lemma_push(rest, Task::Visit(e));
    let inner: Outcome = choose|o: Outcome| #[trigger]
        g.expr.visited_by(visitor, o) && completes(visitor, closing, held.push(o), out);
    assert(held.push(inner).drop_last() =~= held);
    let r: Outcome = choose|o: Outcome| #[trigger]
        visitor.group_outcome(*g, inner, o) && completes(visitor, rest, held.push(o), out);
    assert(e.visited_by(visitor, r));
}

/// Walking a binary node is walking its left side, then its right side, and
/// then closing the node.
proof fn lemma_open_binary<V: Visitor>(
    visitor: &V,
    rest: Seq<Task>,
    held: Seq<Outcome>,
    e: &Expr,
    b: &BinaryExpr,
    out: Outcome,
)
    requires
        *e == Expr::Binary(*b),
        completes(
            visitor,
            rest.push(Task::Binary(b)).push(Task::Visit(b.rhs)).push(Task::Visit(b.lhs)),
            held,
            out,
        ),
    ensures
        completes(visitor, rest.push(Task::Visit(e)), held, out),
{
    let closing = rest.push(Task::Binary(b));
    let right_next = closing.push(Task::Visit(b.rhs));
    lemma_push(right_next, Task::Visit(b.lhs));
    lemma_push(closing, Task::Visit(b.rhs));
    lemma_push(rest, Task::Binary(b));
    lemma_push(rest, Task::Visit(e));
    let left: Outcome = choose|o: Outcome| #[trigger]
        b.lhs.visited_by(visitor, o) && completes(visitor, right_next, held.push(o), out);
    let right: Outcome = choose|o: Outcome| #[trigger]
        b.rhs.visited_by(visitor, o) && completes(
            visitor,
            closing,
            held.push(left).push(o),
            out,
        );
    let both = held.push(left).push(right);
    assert(both.drop_last().drop_last() =~= held);
    assert(both[both.len() - 2] == left);
    assert(both[both.len() - 1] == right);
    let r: Outcome = choose|o: Outcome| #[trigger]
        visitor.binary_outcome(*b, left, right, o) && completes(visitor, rest, held.push(o), out);
    assert(e.visited_by(visitor, r));
}

/// Closing a unary node replaces the operand's result by the node's.
proof fn lemma_close_unary<V: Visitor>(
    visitor: &V,
    rest: Seq<Task>,
    held: Seq<Outcome>,
    u: &UnaryExpr,
    r: Outcome,
    out: Outcome,
)
    requires
        held.len() >= 1,
        visitor.unary_outcome(*u, held.last(), r),
        completes(visitor, rest, held.drop_last().push(r), out),
    ensures
        completes(visitor, rest.push(Task::Unary(u)), held, out),
{
    lemma_push(rest, Task::Unary(u));
}

/// Closing a group replaces the enclosed expression's result by the node's.
proof fn lemma_close_group<V: Visitor>(
    visitor: &V,
    rest: Seq<Task>,
    held: Seq<Outcome>,
    g: &GroupExpr,
    r: Outcome,
    out: Outcome,
)
    requires
        held.len() >= 1,
        visitor.group_outcome(*g, held.last(), r),
        completes(visitor, rest, held.drop_last().push(r), out),
    ensures
        completes(visitor, rest.push(Task::Group(g)), held, out),
{
    lemma_push(rest, Task::Group(g));
}

/// Closing a binary node replaces the results of its two sides by the node's.
proof fn lemma_close_binary<V: Visitor>(
    visitor: &V,
    rest: Seq<Task>,
    held: Seq<Outcome>,
    b: &BinaryExpr,
    r: Outcome,
    out: Outcome,
)
    requires
        held.len() >= 2,
        visitor.binary_outcome(*b, held[held.len() - 2], held[held.len() - 1], r),
        completes(visitor, rest, held.drop_last().drop_last().push(r), out),
    ensures
        completes(visitor, rest.push(Task::Binary(b)), held, out),
{
    lemma_push(rest, Task::Binary(b));
}

impl<'a> Expr<'a> {
    /// Walks the tree with `visitor` as `accept` does, with the same calls of
    /// the visitor in the same order, but without recursion.
    pub fn accept_iterative<V: Visitor>(&'a self, visitor: &V) -> (r: VisitResult)
        ensures
            self.visited_by(visitor, r@),
    {
        let mut tasks: Vec<Task<'a>> = Vec::new();
        let mut results: Vec<VisitResult> = Vec::new();
        tasks.push(Task::Visit(self));
        proof {
            let empty = Seq::<Task>::empty();
            lemma_push(empty, Task::Visit(self));
            assert(tasks@ =~= empty.push(Task::Visit(self)));
            assert(outcomes(results@) =~= Seq::<Outcome>::empty());
            assert(fits(empty, 1));
            assert forall|out: Outcome| #[trigger]
                completes(visitor, tasks@, outcomes(results@), out) implies self.visited_by(
                visitor,
                out,
            ) by {
                let o: Outcome = choose|o: Outcome| #[trigger]
                    self.visited_by(visitor, o) && completes(
                        visitor,
                        empty,
                        outcomes(results@).push(o),
                        out,
                    );
                assert(outcomes(results@).push(o)[0] == o);
            }
        }
        while tasks.len() > 0
            invariant
                fits(tasks@, results@.len() as nat),
                forall|out: Outcome| #[trigger]
                    completes(visitor, tasks@, outcomes(results@), out) ==> self.visited_by(
                        visitor,
                        out,
                    ),
            decreases work(tasks@),
        {
            let ghost before = tasks@;
            let ghost held = outcomes(results@);
            let task = tasks.pop().unwrap();
            let ghost rest = tasks@;
            proof {
                assert(before =~= rest.push(task));
                lemma_push(rest, task);
            }
            match task {
                Task::Visit(e) => match e {
                    Expr::Binary(b) => {
                        tasks.push(Task::Binary(b));
                        tasks.push(Task::Visit(b.rhs));
                        tasks.push(Task::Visit(b.lhs));
                        proof {
                            let closing = rest.push(Task::Binary(b));
                            let right_next = closing.push(Task::Visit(b.rhs));
                            lemma_push(rest, Task::Binary(b));
                            lemma_push(closing, Task::Visit(b.rhs));
                            lemma_push(right_next, Task::Visit(b.lhs));
                            lemma_size_positive(*b.lhs);
                            lemma_size_positive(*b.rhs);
                            assert forall|out: Outcome| #[trigger]
                                completes(
                                    visitor,
                                    tasks@,
                                    outcomes(results@),
                                    out,
                                ) implies self.visited_by(visitor, out) by {
                                lemma_open_binary(visitor, rest, held, e, b, out);
                            }
                        }
                    },
                    Expr::Group(g) => {
                        tasks.push(Task::Group(g));
                        tasks.push(Task::Visit(g.expr));
                        proof {
                            let closing = rest.push(Task::Group(g));
                            lemma_push(rest, Task::Group(g));
                            lemma_push(closing, Task::Visit(g.expr));
                            lemma_size_positive(*g.expr);
                            assert forall|out: Outcome| #[trigger]
                                completes(
                                    visitor,
                                    tasks@,
                                    outcomes(results@),
                                    out,
                                ) implies self.visited_by(visitor, out) by {
                                lemma_open_group(visitor, rest, held, e, g, out);
                            }
                        }
                    },
                    Expr::Literal(l) => {
                        let r = visitor.visit_literal(l);
                        let ghost rv = r@;
                        results.push(r);
                        proof {
                            assert(outcomes(results@) =~= held.push(rv));
                            assert forall|out: Outcome| #[trigger]
                                completes(
                                    visitor,
                                    tasks@,
                                    outcomes(results@),
                                    out,
                                ) implies self.visited_by(visitor, out) by {
                                lemma_visit_literal(visitor, rest, held, e, rv, out);
                            }
                        }
                    },
                    Expr::Unary(u) => {
                        tasks.push(Task::Unary(u));
                        tasks.push(Task::Visit(u.rhs));
                        proof {
                            let closing = rest.push(Task::Unary(u));
                            lemma_push(rest, Task::Unary(u));
                            lemma_push(closing, Task::Visit(u.rhs));
                            lemma_size_positive(*u.rhs);
                            assert forall|out: Outcome| #[trigger]
                                completes(
                                    visitor,
                                    tasks@,
                                    outcomes(results@),
                                    out,
                                ) implies self.visited_by(visitor, out) by {
                                lemma_open_unary(visitor, rest, held, e, u, out);
                            }
                        }
                    },
                },
                Task::Unary(u) => {
                    let operand = results.pop().unwrap();
                    let ghost below = outcomes(results@);
                    let r = visitor.visit_unary(u, operand);
                    let ghost rv = r@;
                    results.push(r);
                    proof {
                        assert(below =~= held.drop_last());
                        assert(outcomes(results@) =~= below.push(rv));
                        assert forall|out: Outcome| #[trigger]
                            completes(
                                visitor,
                                tasks@,
                                outcomes(results@),
                                out,
                            ) implies self.visited_by(visitor, out) by {
                            lemma_close_unary(visitor, rest, held, u, rv, out);
                        }
                    }
                },
                Task::Binary(b) => {
                    let right = results.pop().unwrap();
                    let left = results.pop().unwrap();
                    let ghost below = outcomes(results@);
                    let r = visitor.visit_binary(b, left, right);
                    let ghost rv = r@;
                    results.push(r);
                    proof {
                        assert(below =~= held.drop_last().drop_last());
                        assert(outcomes(results@) =~= below.push(rv));
                        assert forall|out: Outcome| #[trigger]
                            completes(
                                visitor,
                                tasks@,
                                outcomes(results@),
                                out,
                            ) implies self.visited_by(visitor, out) by {
                            lemma_close_binary(visitor, rest, held, b, rv, out);
                        }
                    }
                },
                Task::Group(g) => {
                    let inner = results.pop().unwrap();
                    let ghost below = outcomes(results@);
                    let r = visitor.visit_group(g, inner);
                    let ghost rv = r@;
                    results.push(r);
                    proof {
                        assert(below =~= held.drop_last());
                        assert(outcomes(results@) =~= below.push(rv));
                        assert forall|out: Outcome| #[trigger]
                            completes(
                                visitor,
                                tasks@,
                                outcomes(results@),
                                out,
                            ) implies self.visited_by(visitor, out) by {
                            lemma_close_group(visitor, rest, held, g, rv, out);
                        }
                    }
                },
            }
        }
        let ghost held = outcomes(results@);
        let r = results.pop().unwrap();
        proof {
            assert(held[0] == r@);
            assert(completes(visitor, tasks@, held, r@));
        }
        r
    }
}

} // verus!
