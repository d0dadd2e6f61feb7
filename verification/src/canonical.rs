//! The rendering is canonical: where numbers are written without spaces and
//! parentheses, a rendering belongs to one tree shape only, and where distinct
//! numbers are also written differently, to one tree only.

use crate::ast::Expr;
use crate::printer::{renders, wrapped, wrapped_pair};
use vstd::prelude::*;

verus! {

/// Whether `text` can be told apart from its surroundings in a rendering: it
/// is not empty, and holds no parenthesis and no space.
pub open spec fn plain(text: Seq<char>) -> bool {
    &&& text.len() > 0
    &&& forall|i: int|
        0 <= i < text.len() ==> #[trigger] text[i] != '(' && text[i] != ')' && text[i] != ' '
}

/// Whether every text that may be written for a number is plain.
pub open spec fn writes_plainly(write: spec_fn(u64, Seq<char>) -> bool) -> bool {
    forall|bits: u64, text: Seq<char>| #[trigger] write(bits, text) ==> plain(text)
}

/// Whether no text may be written for two distinct numbers.
pub open spec fn writes_apart(write: spec_fn(u64, Seq<char>) -> bool) -> bool {
    forall|a: u64, b: u64, text: Seq<char>|
        #![trigger write(a, text), write(b, text)]
        write(a, text) && write(b, text) ==> a == b
}

/// Whether two trees differ in the numbers of their literals at most.
pub open spec fn same_shape(a: Expr, b: Expr) -> bool
    decreases a,
{
    match (a, b) {
        (Expr::Binary(x), Expr::Binary(y)) => x.op == y.op && same_shape(*x.lhs, *y.lhs)
            && same_shape(*x.rhs, *y.rhs),
        (Expr::Group(x), Expr::Group(y)) => same_shape(*x.expr, *y.expr),
        (Expr::Literal(_), Expr::Literal(_)) => true,
        (Expr::Unary(x), Expr::Unary(y)) => x.op == y.op && same_shape(*x.rhs, *y.rhs),
        _ => false,
    }
}

/// The token of a node that is not a literal.
spec fn token_of(e: Expr) -> Seq<char> {
    match e {
        Expr::Binary(b) => b.op.token(),
        Expr::Group(_) => "group"@,
        Expr::Literal(_) => Seq::empty(),
        Expr::Unary(u) => u.op.token(),
    }
}

/// The first child of a node that is not a literal.
spec fn first_of(e: Expr) -> Expr {
    match e {
        Expr::Binary(b) => *b.lhs,
        Expr::Group(g) => *g.expr,
        Expr::Literal(_) => e,
        Expr::Unary(u) => *u.rhs,
    }
}

/// Whether what follows a rendering ends it: nothing, a space or a closing
/// parenthesis.
spec fn stops(rest: Seq<char>) -> bool {
    rest.len() == 0 || rest[0] == ' ' || rest[0] == ')'
}

/// The characters of the fixed pieces of a rendering.
proof fn lemma_marks()
    ensures
        "("@ == seq!['('],
        ")"@ == seq![')'],
        " "@ == seq![' '],
        "group"@.len() == 5 && "group"@[0] == 'g',
        "Add"@.len() == 3 && "Add"@[0] == 'A',
        "Sub"@.len() == 3 && "Sub"@[0] == 'S',
        "Mul"@.len() == 3 && "Mul"@[0] == 'M',
        "Div"@.len() == 3 && "Div"@[0] == 'D',
{
    reveal_strlit("(");
    reveal_strlit(")");
    reveal_strlit(" ");
    reveal_strlit("group");
    reveal_strlit("Add");
    reveal_strlit("Sub");
    reveal_strlit("Mul");
    reveal_strlit("Div");
    assert("("@ =~= seq!['(']);
    assert(")"@ =~= seq![')']);
    assert(" "@ =~= seq![' ']);
}

proof fn lemma_cancel(p: Seq<char>, u: Seq<char>, v: Seq<char>)
    requires
        p + u == p + v,
    ensures
        u == v,
{
    assert(u =~= (p + u).subrange(p.len() as int, (p + u).len() as int));
    assert(v =~= (p + v).subrange(p.len() as int, (p + v).len() as int));
}

/// Whether `first`, `second` and `tail` are the pieces of the rendering `s`
/// of a node that is not a literal: the rendering of its first child, that of
/// its second child where it has one, and all that follows the first
/// child's.
spec fn taken_apart(
    write: spec_fn(u64, Seq<char>) -> bool,
    e: Expr,
    s: Seq<char>,
    first: Seq<char>,
    second: Seq<char>,
    tail: Seq<char>,
) -> bool {
    &&& !(e is Literal)
    &&& s == "("@ + token_of(e) + " "@ + first + tail
    &&& renders(write, first_of(e), first)
    &&& e is Binary ==> renders(write, *e->Binary_0.rhs, second) && tail == " "@ + second + ")"@
    &&& !(e is Binary) ==> tail == ")"@
}

proof fn lemma_parts(write: spec_fn(u64, Seq<char>) -> bool, e: Expr, s: Seq<char>) -> (parts: (
    Seq<char>,
    Seq<char>,
    Seq<char>,
))
    requires
        renders(write, e, s),
        !(e is Literal),
    ensures
        taken_apart(write, e, s, parts.0, parts.1, parts.2),
{
    match e {
        Expr::Binary(b) => {
            let (l, r): (Seq<char>, Seq<char>) = choose|l: Seq<char>, r: Seq<char>|
                renders(write, *b.lhs, l) && renders(write, *b.rhs, r) && s
                    == #[trigger] wrapped_pair(b.op.token(), l, r);
            let tail = " "@ + r + ")"@;
            assert(s =~= "("@ + token_of(e) + " "@ + l + tail);
            (l, r, tail)
        },
        Expr::Group(g) => {
            let a: Seq<char> = choose|a: Seq<char>|
                renders(write, *g.expr, a) && s == #[trigger] wrapped("group"@, a);
            (a, Seq::empty(), ")"@)
        },
        Expr::Literal(_) => (Seq::empty(), Seq::empty(), Seq::empty()),
        Expr::Unary(u) => {
            let a: Seq<char> = choose|a: Seq<char>|
                renders(write, *u.rhs, a) && s == #[trigger] wrapped(u.op.token(), a);
            (a, Seq::empty(), ")"@)
        },
    }
}

/// The first character of a token tells the token.
proof fn lemma_token_told(a: Expr, b: Expr)
    requires
        !(a is Literal),
        !(b is Literal),
        token_of(a)[0] == token_of(b)[0],
    ensures
        token_of(a) == token_of(b),
        a is Group <==> b is Group,
        a is Unary && b is Unary ==> a->Unary_0.op == b->Unary_0.op,
        a is Binary && b is Binary ==> a->Binary_0.op == b->Binary_0.op,
{
    lemma_marks();
}

/// A rendering of a node that is not a literal begins with an opening
/// parenthesis and the first character of its token.
proof fn lemma_opening(
    write: spec_fn(u64, Seq<char>) -> bool,
    e: Expr,
    s: Seq<char>,
    first: Seq<char>,
    second: Seq<char>,
    tail: Seq<char>,
)
    requires
        taken_apart(write, e, s, first, second, tail),
    ensures
        s.len() >= 2,
        s[0] == '(',
        s[1] == token_of(e)[0],
        tail.len() >= 1,
        tail[0] == (if e is Binary {
            ' '
        } else {
            ')'
        }),
{
    lemma_marks();
}

/// Two plain texts, each followed by something that ends it, that agree as
/// far as they go, are the same.
proof fn lemma_plain_pair(s: Seq<char>, x: Seq<char>, t: Seq<char>, y: Seq<char>)
    requires
        plain(s),
        plain(t),
        s + x == t + y,
        stops(x),
        stops(y),
    ensures
        s == t,
        x == y,
{
    if s.len() < t.len() {
        assert((s + x)[s.len() as int] == x[0]);
        assert((t + y)[s.len() as int] == t[s.len() as int]);
        assert(false);
    }
    if t.len() < s.len() {
        assert((t + y)[t.len() as int] == y[0]);
        assert((s + x)[t.len() as int] == s[t.len() as int]);
        assert(false);
    }
    assert(s =~= (s + x).subrange(0, s.len() as int));
    assert(t =~= (t + y).subrange(0, t.len() as int));
    lemma_cancel(s, x, y);
}

/// A plain text and the rendering of a node that is not a literal differ in
/// their first character.
proof fn lemma_plain_apart(
    write: spec_fn(u64, Seq<char>) -> bool,
    s: Seq<char>,
    x: Seq<char>,
    e: Expr,
    t: Seq<char>,
    y: Seq<char>,
)
    requires
        plain(s),
        renders(write, e, t),
        !(e is Literal),
    ensures
        s + x != t + y,
{
    let (first, second, tail) = lemma_parts(write, e, t);
    lemma_opening(write, e, t, first, second, tail);
    assert((s + x)[0] == s[0]);
    assert((t + y)[0] == t[0]);
}

/// Two renderings of nodes that are not literals, which agree as far as they
/// go, have the same token, and agree from their first children on.
proof fn lemma_heads(
    write: spec_fn(u64, Seq<char>) -> bool,
    a: Expr,
    s: Seq<char>,
    x: Seq<char>,
    a1: Seq<char>,
    a2: Seq<char>,
    atail: Seq<char>,
    b: Expr,
    t: Seq<char>,
    y: Seq<char>,
    b1: Seq<char>,
    b2: Seq<char>,
    btail: Seq<char>,
)
    requires
        taken_apart(write, a, s, a1, a2, atail),
        taken_apart(write, b, t, b1, b2, btail),
        s + x == t + y,
    ensures
        token_of(a) == token_of(b),
        a is Group <==> b is Group,
        a is Unary && b is Unary ==> a->Unary_0.op == b->Unary_0.op,
        a is Binary && b is Binary ==> a->Binary_0.op == b->Binary_0.op,
        a1 + (atail + x) == b1 + (btail + y),
        stops(atail + x),
        stops(btail + y),
        (atail + x)[0] == atail[0],
        (btail + y)[0] == btail[0],
{
    lemma_opening(write, a, s, a1, a2, atail);
    lemma_opening(write, b, t, b1, b2, btail);
    assert((s + x)[1] == s[1]);
    assert((t + y)[1] == t[1]);
    lemma_token_told(a, b);
    let p = "("@ + token_of(a) + " "@;
    assert(s + x =~= p + (a1 + (atail + x)));
    assert(t + y =~= p + (b1 + (btail + y)));
    lemma_cancel(p, a1 + (atail + x), b1 + (btail + y));
    assert((atail + x)[0] == atail[0]);
    assert((btail + y)[0] == btail[0]);
}

/// What follows the first children of two binary nodes agrees from the
/// second children on.
proof fn lemma_second(
    a2: Seq<char>,
    atail: Seq<char>,
    x: Seq<char>,
    b2: Seq<char>,
    btail: Seq<char>,
    y: Seq<char>,
)
    requires
        atail == " "@ + a2 + ")"@,
        btail == " "@ + b2 + ")"@,
        atail + x == btail + y,
    ensures
        a2 + (")"@ + x) == b2 + (")"@ + y),
        stops(")"@ + x),
        stops(")"@ + y),
{
    lemma_marks();
    assert(atail + x =~= " "@ + (a2 + (")"@ + x)));
    assert(btail + y =~= " "@ + (b2 + (")"@ + y)));
    lemma_cancel(" "@, a2 + (")"@ + x), b2 + (")"@ + y));
    assert((")"@ + x)[0] == ')');
    assert((")"@ + y)[0] == ')');
}

/// Two renderings, each followed by something that ends it, that agree as
/// far as they go, are the same rendering of the same shape.
proof fn lemma_split(
    write: spec_fn(u64, Seq<char>) -> bool,
    a: Expr,
    s: Seq<char>,
    x: Seq<char>,
    b: Expr,
    t: Seq<char>,
    y: Seq<char>,
)
    requires
        writes_plainly(write),
        renders(write, a, s),
        renders(write, b, t),
        s + x == t + y,
        stops(x),
        stops(y),
    ensures
        s == t,
        x == y,
        same_shape(a, b),
        writes_apart(write) ==> a == b,
    decreases a,
{
    if a is Literal && b is Literal {
        lemma_plain_pair(s, x, t, y);
    } else if a is Literal {
        lemma_plain_apart(write, s, x, b, t, y);
    } else if b is Literal {
        lemma_plain_apart(write, t, y, a, s, x);
    } else {
        let (a1, a2, atail) = lemma_parts(write, a, s);
        let (b1, b2, btail) = lemma_parts(write, b, t);
        lemma_heads(write, a, s, x, a1, a2, atail, b, t, y, b1, b2, btail);
        lemma_opening(write, a, s, a1, a2, atail);
        lemma_opening(write, b, t, b1, b2, btail);
        lemma_split(write, first_of(a), a1, atail + x, first_of(b), b1, btail + y);
        if a is Binary {
            lemma_second(a2, atail, x, b2, btail, y);
            lemma_split(
                write,
                *a->Binary_0.rhs,
                a2,
                ")"@ + x,
                *b->Binary_0.rhs,
                b2,
                ")"@ + y,
            );
            lemma_cancel(")"@, x, y);
            if writes_apart(write) {
                assert(a->Binary_0 == b->Binary_0);
            }
        } else {
            lemma_cancel(")"@, x, y);
            if writes_apart(write) {
                if a is Group {
                    assert(a->Group_0 == b->Group_0);
                } else {
                    assert(a->Unary_0 == b->Unary_0);
                }
            }
        }
    }
}

/// Where numbers are written plainly, one text is the rendering of trees of
/// one shape only.
pub proof fn lemma_rendering_tells_shape(
    write: spec_fn(u64, Seq<char>) -> bool,
    a: Expr,
    b: Expr,
    text: Seq<char>,
)
    requires
        writes_plainly(write),
        renders(write, a, text),
        renders(write, b, text),
    ensures
        same_shape(a, b),
{
    lemma_split(write, a, text, Seq::empty(), b, text, Seq::empty());
}

/// Where numbers are written plainly and distinct numbers differently, one
/// text is the rendering of one tree only.
pub proof fn lemma_rendering_tells_tree(
    write: spec_fn(u64, Seq<char>) -> bool,
    a: Expr,
    b: Expr,
    text: Seq<char>,
)
    requires
        writes_plainly(write),
        writes_apart(write),
        renders(write, a, text),
        renders(write, b, text),
    ensures
        a == b,
{
    lemma_split(write, a, text, Seq::empty(), b, text, Seq::empty());
}

} // verus!
