//! The printer: writes a tree as a fully parenthesized prefix string.

use crate::ast::{BinaryExpr, Expr, GroupExpr, LiteralExpr, UnaryExpr};
use crate::visitor::{Outcome, VisitResult, Visitor};
use vstd::prelude::*;

verus! {

/// The text that an outcome contributes to its parent: its own text, or
/// nothing where it is not a text.
pub open spec fn text_of(out: Outcome) -> Seq<char> {
    match out {
        Outcome::Text(s) => s,
        _ => Seq::empty(),
    }
}

/// The texts that a list of results contributes, in order.
pub open spec fn texts_of(parts: Seq<VisitResult>) -> Seq<Seq<char>> {
    Seq::new(parts.len(), |i: int| text_of(parts[i]@))
}

/// Each part with a single space in front of it, one after the other.
pub open spec fn spaced(parts: Seq<Seq<char>>) -> Seq<char>
    decreases parts.len(),
{
    if parts.len() == 0 {
        Seq::empty()
    } else {
        spaced(parts.drop_last()) + " "@ + parts.last()
    }
}

/// `(name part part ...)`: an opening parenthesis, the name, each part with
/// a space in front of it, and a closing parenthesis.
pub open spec fn parenthesized(name: Seq<char>, parts: Seq<Seq<char>>) -> Seq<char> {
    "("@ + name + spaced(parts) + ")"@
}

/// `(name a)`.
pub open spec fn wrapped(name: Seq<char>, a: Seq<char>) -> Seq<char> {
    "("@ + name + " "@ + a + ")"@
}

/// `(name a b)`.
pub open spec fn wrapped_pair(name: Seq<char>, a: Seq<char>, b: Seq<char>) -> Seq<char> {
    "("@ + name + " "@ + a + " "@ + b + ")"@
}

/// What `format` may write for a number: the relation between the bits that
/// it is given and the text that it returns.
pub open spec fn written<F: Fn(u64) -> String>(format: F) -> spec_fn(u64, Seq<char>) -> bool {
    |bits: u64, text: Seq<char>|
        exists|s: String| #[trigger] format.ensures((bits,), s) && s@ == text
}

/// Whether `text` is a rendering of `expr`, where `write` relates each number
/// to what may be written for it: a literal is written as `write` says, and
/// every other node is its token and its children's renderings in
/// parentheses, `(Mul a b)`, `(Sub a)`, `(group a)`.
pub open spec fn renders(write: spec_fn(u64, Seq<char>) -> bool, expr: Expr, text: Seq<char>) -> bool
    decreases expr,
{
    match expr {
        Expr::Binary(e) => exists|l: Seq<char>, r: Seq<char>|
            renders(write, *e.lhs, l) && renders(write, *e.rhs, r) && text
                == #[trigger] wrapped_pair(e.op.token(), l, r),
        Expr::Group(e) => exists|inner: Seq<char>|
            renders(write, *e.expr, inner) && text == #[trigger] wrapped("group"@, inner),
        Expr::Literal(e) => write(e.bits, text),
        Expr::Unary(e) => exists|operand: Seq<char>|
            renders(write, *e.rhs, operand) && text == #[trigger] wrapped(e.op.token(), operand),
    }
}

/// One part in parentheses is `(name a)`.
proof fn lemma_parenthesized_one(name: Seq<char>, a: Seq<char>)
    ensures
        parenthesized(name, seq![a]) == wrapped(name, a),
{
    let parts = seq![a];
    assert(parts.drop_last() =~= Seq::<Seq<char>>::empty());
    assert(spaced(parts.drop_last()) =~= Seq::<char>::empty());
    assert(spaced(parts) =~= " "@ + a);
    assert(parenthesized(name, parts) =~= wrapped(name, a));
}

/// Two parts in parentheses are `(name a b)`.
proof fn lemma_parenthesized_two(name: Seq<char>, a: Seq<char>, b: Seq<char>)
    ensures
        parenthesized(name, seq![a, b]) == wrapped_pair(name, a, b),
{
    let parts = seq![a, b];
    assert(parts.drop_last() =~= seq![a]);
    assert(seq![a].drop_last() =~= Seq::<Seq<char>>::empty());
    assert(spaced(seq![a].drop_last()) =~= Seq::<char>::empty());
    assert(spaced(seq![a]) =~= " "@ + a);
    assert(spaced(parts) =~= " "@ + a + " "@ + b);
    assert(parenthesized(name, parts) =~= wrapped_pair(name, a, b));
}

/// The printer. It holds the function that writes a number, given by its bit
/// pattern, as text; that function can be called on every bit pattern.
pub struct Repr<F: Fn(u64) -> String> {
    format: F,
}

impl<F: Fn(u64) -> String> Repr<F> {
    #[verifier::type_invariant]
    spec fn callable(&self) -> bool {
        forall|bits: u64| self.format.requires((bits,))
    }

    /// The function that writes the numbers.
    pub closed spec fn format(&self) -> F {
        self.format
    }

    /// A printer that writes numbers with `format`, which must accept every
    /// bit pattern.
    pub fn new(format: F) -> (r: Self)
        requires
            forall|bits: u64| format.requires((bits,)),
        ensures
            r.format() == format,
    {
        Repr { format }
    }

    /// Puts `name` and the texts among `parts` in one pair of parentheses.
    /// A part that is not a text contributes only its space.
    pub fn parenthesize(&self, name: &str, parts: Vec<VisitResult>) -> (s: String)
        ensures
            s@ == parenthesized(name@, texts_of(parts@)),
    {
        let mut s = String::from_str("(");
        s.append(name);
        let ghost texts = texts_of(parts@);
        let mut i: usize = 0;
        while i < parts.len()
            invariant
                i <= parts.len(),
                texts == texts_of(parts@),
                s@ == "("@ + name@ + spaced(texts.take(i as int)),
            decreases parts.len() - i,
        {
            s.append(" ");
            match &parts[i] {
                VisitResult::Text(v) => s.append(v.as_str()),
                _ => {},
            }
            proof {
                let before = texts.take(i as int);
                let after = texts.take(i + 1);
                assert(after.drop_last() =~= before);
                assert(after.last() == text_of(parts@[i as int]@));
                assert(s@ =~= "("@ + name@ + spaced(after));
            }
            i += 1;
        }
        proof {
            assert(texts.take(i as int) =~= texts);
        }
        s.append(")");
        s
    }

    /// Renders the tree, and leaves the printer as it was.
    pub fn repr(&mut self, ast: &Expr) -> (s: String)
        ensures
            renders(written(old(self).format()), *ast, s@),
            *final(self) == *old(self),
    {
        let out = ast.accept(&*self);
        proof {
            lemma_visit_renders(&*self, *ast, out@);
        }
        match out {
            VisitResult::Text(s) => s,
            _ => String::from_str("?"),
        }
    }

    /// Renders the tree as `repr` does, without recursion: the depth of the
    /// tree is bounded by the memory at hand only.
    pub fn repr_iterative<'a>(&mut self, ast: &'a Expr<'a>) -> (s: String)
        ensures
            renders(written(old(self).format()), *ast, s@),
            *final(self) == *old(self),
    {
        let out = ast.accept_iterative(&*self);
        proof {
            lemma_visit_renders(&*self, *ast, out@);
        }
        match out {
            VisitResult::Text(s) => s,
            _ => String::from_str("?"),
        }
    }
}

impl<F: Fn(u64) -> String> Visitor for Repr<F> {
    closed spec fn literal_outcome(&self, expr: LiteralExpr, out: Outcome) -> bool {
        exists|s: String| #[trigger] self.format.ensures((expr.bits,), s) && out == Outcome::Text(s@)
    }

    open spec fn unary_outcome(&self, expr: UnaryExpr, operand: Outcome, out: Outcome) -> bool {
        out == Outcome::Text(wrapped(expr.op.token(), text_of(operand)))
    }

    open spec fn binary_outcome(
        &self,
        expr: BinaryExpr,
        left: Outcome,
        right: Outcome,
        out: Outcome,
    ) -> bool {
        out == Outcome::Text(wrapped_pair(expr.op.token(), text_of(left), text_of(right)))
    }

    open spec fn group_outcome(&self, expr: GroupExpr, inner: Outcome, out: Outcome) -> bool {
        out == Outcome::Text(wrapped("group"@, text_of(inner)))
    }

    fn visit_literal(&self, expr: &LiteralExpr) -> (r: VisitResult) {
        proof {
            use_type_invariant(self);
        }
        VisitResult::Text((self.format)(expr.bits))
    }

    fn visit_unary(&self, expr: &UnaryExpr, operand: VisitResult) -> (r: VisitResult) {
        let ghost a = text_of(operand@);
        let parts = vec![operand];
        proof {
            assert(texts_of(parts@) =~= seq![a]);
            lemma_parenthesized_one(expr.op.token(), a);
        }
        VisitResult::Text(self.parenthesize(expr.op.name(), parts))
    }

    fn visit_binary(&self, expr: &BinaryExpr, left: VisitResult, right: VisitResult) -> (r:
        VisitResult) {
        let ghost a = text_of(left@);
        let ghost b = text_of(right@);
        let parts = vec![left, right];
        proof {
            assert(texts_of(parts@) =~= seq![a, b]);
            lemma_parenthesized_two(expr.op.token(), a, b);
        }
        VisitResult::Text(self.parenthesize(expr.op.name(), parts))
    }

    fn visit_group(&self, expr: &GroupExpr, inner: VisitResult) -> (r: VisitResult) {
        let ghost a = text_of(inner@);
        let parts = vec![inner];
        proof {
            assert(texts_of(parts@) =~= seq![a]);
            lemma_parenthesized_one("group"@, a);
        }
        VisitResult::Text(self.parenthesize("group", parts))
    }
}

/// What the printer makes of a tree through `accept` is a text, and that
/// text is a rendering of the tree.
pub proof fn lemma_visit_renders<F: Fn(u64) -> String>(printer: &Repr<F>, expr: Expr, out: Outcome)
    requires
        expr.visited_by(printer, out),
    ensures
        out is Text,
        renders(written(printer.format()), expr, out->Text_0),
    decreases expr,
{
    match expr {
        Expr::Binary(e) => {
            let (l, r): (Outcome, Outcome) = choose|l: Outcome, r: Outcome|
                e.lhs.visited_by(printer, l) && e.rhs.visited_by(printer, r)
                    && #[trigger] printer.binary_outcome(e, l, r, out);
            lemma_visit_renders(printer, *e.lhs, l);
            lemma_visit_renders(printer, *e.rhs, r);
            assert(out->Text_0 == wrapped_pair(e.op.token(), l->Text_0, r->Text_0));
        },
        Expr::Group(e) => {
            let inner: Outcome = choose|inner: Outcome|
                e.expr.visited_by(printer, inner) && #[trigger] printer.group_outcome(
                    e,
                    inner,
                    out,
                );
            lemma_visit_renders(printer, *e.expr, inner);
            assert(out->Text_0 == wrapped("group"@, inner->Text_0));
        },
        Expr::Literal(e) => {},
        Expr::Unary(e) => {
            let operand: Outcome = choose|operand: Outcome|
                e.rhs.visited_by(printer, operand) && #[trigger] printer.unary_outcome(
                    e,
                    operand,
                    out,
                );
            lemma_visit_renders(printer, *e.rhs, operand);
            assert(out->Text_0 == wrapped(e.op.token(), operand->Text_0));
        },
    }
}

/// Whether `write` admits a text for the number.
pub open spec fn writable(write: spec_fn(u64, Seq<char>) -> bool, bits: u64) -> bool {
    exists|text: Seq<char>| #[trigger] write(bits, text)
}

/// Every tree has a rendering: where a text may be written for every number,
/// rendering never fails.
pub proof fn lemma_renders_exists(write: spec_fn(u64, Seq<char>) -> bool, expr: Expr)
    requires
        forall|bits: u64| #[trigger] writable(write, bits),
    ensures
        exists|text: Seq<char>| renders(write, expr, text),
    decreases expr,
{
    match expr {
        Expr::Binary(e) => {
            lemma_renders_exists(write, *e.lhs);
            lemma_renders_exists(write, *e.rhs);
            let l: Seq<char> = choose|l: Seq<char>| renders(write, *e.lhs, l);
            let r: Seq<char> = choose|r: Seq<char>| renders(write, *e.rhs, r);
            assert(renders(write, expr, wrapped_pair(e.op.token(), l, r)));
        },
        Expr::Group(e) => {
            lemma_renders_exists(write, *e.expr);
            let a: Seq<char> = choose|a: Seq<char>| renders(write, *e.expr, a);
            assert(renders(write, expr, wrapped("group"@, a)));
        },
        Expr::Literal(e) => {
            assert(writable(write, e.bits));
            let text: Seq<char> = choose|text: Seq<char>| #[trigger] write(e.bits, text);
            assert(renders(write, expr, text));
        },
        Expr::Unary(e) => {
            lemma_renders_exists(write, *e.rhs);
            let a: Seq<char> = choose|a: Seq<char>| renders(write, *e.rhs, a);
            assert(renders(write, expr, wrapped(e.op.token(), a)));
        },
    }
}

/// Whether `write` admits one text only for each number.
pub open spec fn single_text(write: spec_fn(u64, Seq<char>) -> bool) -> bool {
    forall|bits: u64, s: Seq<char>, t: Seq<char>|
        #![trigger write(bits, s), write(bits, t)]
        write(bits, s) && write(bits, t) ==> s == t
}

/// Rendering is deterministic: where one text only may be written for each
/// number, a tree has at most one rendering.
pub proof fn lemma_renders_unique(
    write: spec_fn(u64, Seq<char>) -> bool,
    expr: Expr,
    s: Seq<char>,
    t: Seq<char>,
)
    requires
        single_text(write),
        renders(write, expr, s),
        renders(write, expr, t),
    ensures
        s == t,
    decreases expr,
{
    match expr {
        Expr::Binary(e) => {
            let (l1, r1): (Seq<char>, Seq<char>) = choose|l: Seq<char>, r: Seq<char>|
                renders(write, *e.lhs, l) && renders(write, *e.rhs, r) && s
                    == #[trigger] wrapped_pair(e.op.token(), l, r);
            let (l2, r2): (Seq<char>, Seq<char>) = choose|l: Seq<char>, r: Seq<char>|
                renders(write, *e.lhs, l) && renders(write, *e.rhs, r) && t
                    == #[trigger] wrapped_pair(e.op.token(), l, r);
            lemma_renders_unique(write, *e.lhs, l1, l2);
            lemma_renders_unique(write, *e.rhs, r1, r2);
        },
        Expr::Group(e) => {
            let a: Seq<char> = choose|a: Seq<char>|
                renders(write, *e.expr, a) && s == #[trigger] wrapped("group"@, a);
            let b: Seq<char> = choose|b: Seq<char>|
                renders(write, *e.expr, b) && t == #[trigger] wrapped("group"@, b);
            lemma_renders_unique(write, *e.expr, a, b);
        },
        Expr::Literal(e) => {},
        Expr::Unary(e) => {
            let a: Seq<char> = choose|a: Seq<char>|
                renders(write, *e.rhs, a) && s == #[trigger] wrapped(e.op.token(), a);
            let b: Seq<char> = choose|b: Seq<char>|
                renders(write, *e.rhs, b) && t == #[trigger] wrapped(e.op.token(), b);
            lemma_renders_unique(write, *e.rhs, a, b);
        },
    }
}

/// A group is rendered as the expression it encloses between `(group ` and
/// `)`.
pub proof fn lemma_group_rendering(
    write: spec_fn(u64, Seq<char>) -> bool,
    inner: &Expr,
    text: Seq<char>,
)
    ensures
        renders(write, Expr::Group(GroupExpr { expr: inner }), text) <==> exists|t: Seq<char>|
            #[trigger] renders(write, *inner, t) && text == "(group "@ + t + ")"@,
{
    reveal_strlit("(");
    reveal_strlit("group");
    reveal_strlit(" ");
    reveal_strlit("(group ");
    assert("("@ + "group"@ + " "@ =~= "(group "@);
    let whole = Expr::Group(GroupExpr { expr: inner });
    assert forall|t: Seq<char>| #[trigger] wrapped("group"@, t) == "(group "@ + t + ")"@ by {
        assert(wrapped("group"@, t) =~= "(group "@ + t + ")"@);
    }
    if renders(write, whole, text) {
        let t: Seq<char> = choose|t: Seq<char>|
            renders(write, *inner, t) && text == #[trigger] wrapped("group"@, t);
        assert(renders(write, *inner, t) && text == "(group "@ + t + ")"@);
    }
    if exists|t: Seq<char>| #[trigger] renders(write, *inner, t) && text == "(group "@ + t + ")"@ {
        let t: Seq<char> = choose|t: Seq<char>| #[trigger]
            renders(write, *inner, t) && text == "(group "@ + t + ")"@;
        assert(text == wrapped("group"@, t));
    }
}

} // verus!
