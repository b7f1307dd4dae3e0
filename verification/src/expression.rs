//! Expression trees and their canonical, fully parenthesised rendering.
use crate::token::TokenType;
use vstd::prelude::*;

verus! {

/// An expression, as the parser builds it. Names are slices of the source.
pub enum Expr<'source> {
    Name(&'source str),
    Assign { name: &'source str, right: Box<Expr<'source>> },
    Call { func: Box<Expr<'source>>, args: Vec<Box<Expr<'source>>> },
    Cond { cond: Box<Expr<'source>>, then_arm: Box<Expr<'source>>, else_arm: Box<Expr<'source>> },
    Prefix { op: TokenType, right: Box<Expr<'source>> },
    Postfix { left: Box<Expr<'source>>, op: TokenType },
    Infix { left: Box<Expr<'source>>, op: TokenType, right: Box<Expr<'source>> },
}

/// The mathematical model of an expression: the same tree, with each name
/// as its characters and the arguments of a call as a sequence.
pub enum Tree {
    Name(Seq<char>),
    Assign { name: Seq<char>, right: Box<Tree> },
    Call { func: Box<Tree>, args: Seq<Tree> },
    Cond { cond: Box<Tree>, then_arm: Box<Tree>, else_arm: Box<Tree> },
    Prefix { op: TokenType, right: Box<Tree> },
    Postfix { left: Box<Tree>, op: TokenType },
    Infix { left: Box<Tree>, op: TokenType, right: Box<Tree> },
}

/// The trees of a sequence of expressions, in order.
pub open spec fn trees_of(exprs: Seq<Box<Expr<'_>>>) -> Seq<Tree>
    decreases exprs,
{
    if exprs.len() == 0 {
        Seq::empty()
    } else {
        trees_of(exprs.drop_last()).push(exprs.last().tree())
    }
}

impl<'source> Expr<'source> {
    /// The tree that this expression stands for.
    pub open spec fn tree(&self) -> Tree
        decreases self,
    {
        match self {
            Expr::Name(name) => Tree::Name(name@),
            Expr::Assign { name, right } => Tree::Assign {
                name: name@,
                right: Box::new(right.tree()),
            },
            Expr::Call { func, args } => Tree::Call {
                func: Box::new(func.tree()),
                args: trees_of(args@),
            },
            Expr::Cond { cond, then_arm, else_arm } => Tree::Cond {
                cond: Box::new(cond.tree()),
                then_arm: Box::new(then_arm.tree()),
                else_arm: Box::new(else_arm.tree()),
            },
            Expr::Prefix { op, right } => Tree::Prefix { op: *op, right: Box::new(right.tree()) },
            Expr::Postfix { left, op } => Tree::Postfix { left: Box::new(left.tree()), op: *op },
            Expr::Infix { left, op, right } => Tree::Infix {
                left: Box::new(left.tree()),
                op: *op,
                right: Box::new(right.tree()),
            },
        }
    }
}

impl<'source> View for Expr<'source> {
    type V = Tree;

    open spec fn view(&self) -> Tree {
        self.tree()
    }
}

/// The character that stands for the operator `op` in a rendering.
pub open spec fn op_char(op: TokenType) -> char
    recommends
        op.spec_punctuator() is Some,
{
    op.spec_punctuator()->0
}

/// The character `c` with a space on either side.
pub open spec fn spaced(c: char) -> Seq<char> {
    seq![' ', c, ' ']
}

impl Tree {
    /// Every operator in the tree has a punctuator, so the tree can be
    /// rendered.
    pub open spec fn printable(self) -> bool
        decreases self,
    {
        match self {
            Tree::Name(_) => true,
            Tree::Assign { name, right } => right.printable(),
            Tree::Call { func, args } => func.printable() && forall|i: int|
                0 <= i < args.len() ==> (#[trigger] args[i]).printable(),
            Tree::Cond { cond, then_arm, else_arm } => cond.printable() && then_arm.printable()
                && else_arm.printable(),
            Tree::Prefix { op, right } => op.spec_punctuator() is Some && right.printable(),
            Tree::Postfix { left, op } => op.spec_punctuator() is Some && left.printable(),
            Tree::Infix { left, op, right } => op.spec_punctuator() is Some && left.printable()
                && right.printable(),
        }
    }

    /// The canonical rendering: every composite node but a call in its own
    /// parentheses.
    pub open spec fn render(self) -> Seq<char>
        decreases self,
    {
        match self {
            Tree::Name(name) => name,
            Tree::Assign { name, right } => seq!['('] + name + spaced('=') + right.render()
                + seq![')'],
            Tree::Call { func, args } => func.render() + seq!['('] + render_list(args) + seq![')'],
            Tree::Cond { cond, then_arm, else_arm } => seq!['('] + cond.render() + spaced('?')
                + then_arm.render() + spaced(':') + else_arm.render() + seq![')'],
            Tree::Prefix { op, right } => seq!['(', op_char(op)] + right.render() + seq![')'],
            Tree::Postfix { left, op } => seq!['('] + left.render() + seq![op_char(op), ')'],
            Tree::Infix { left, op, right } => seq!['('] + left.render() + spaced(op_char(op))
                + right.render() + seq![')'],
        }
    }
}

/// The renderings of `trees`, in order, with a comma and a space between
/// neighbours.
pub open spec fn render_list(trees: Seq<Tree>) -> Seq<char>
    decreases trees,
{
    if trees.len() == 0 {
        Seq::empty()
    } else if trees.len() == 1 {
        trees[0].render()
    } else {
        render_list(trees.drop_last()) + seq![',', ' '] + trees.last().render()
    }
}

/// [`trees_of`] keeps the length and takes each expression to its tree.
pub proof fn lemma_trees_of(exprs: Seq<Box<Expr<'_>>>)
    ensures
        trees_of(exprs).len() == exprs.len(),
        forall|i: int| 0 <= i < exprs.len() ==> #[trigger] trees_of(exprs)[i] == exprs[i].tree(),
    decreases exprs.len(),
{
    if exprs.len() > 0 {
        lemma_trees_of(exprs.drop_last());
    }
}

/// The trees of the first `n + 1` expressions are those of the first `n`
/// followed by the tree of the next.
proof fn lemma_trees_of_take(exprs: Seq<Box<Expr<'_>>>, n: int)
    requires
        0 <= n < exprs.len(),
    ensures
        trees_of(exprs.take(n + 1)) == trees_of(exprs.take(n)).push(exprs[n].tree()),
{
    assert(exprs.take(n + 1).drop_last() =~= exprs.take(n));
}

/// Rendering a list with one more tree at its end.
proof fn lemma_render_list_push(trees: Seq<Tree>, t: Tree)
    ensures
        render_list(trees.push(t)) == if trees.len() == 0 {
            t.render()
        } else {
            render_list(trees) + seq![',', ' '] + t.render()
        },
{
    assert(trees.push(t).drop_last() =~= trees);
}

/// In a printable call, the function and every argument are printable.
proof fn lemma_printable_call(func: Tree, args: Seq<Tree>)
    requires
        (Tree::Call { func: Box::new(func), args }).printable(),
    ensures
        func.printable(),
        forall|j: int| 0 <= j < args.len() ==> (#[trigger] args[j]).printable(),
{
    let call = Tree::Call { func: Box::new(func), args };
    assert(call->args == args);
}

/// Rendering into a string.
pub trait Print {
    /// Whether the value can be rendered.
    spec fn printable(&self) -> bool;

    /// The characters of the rendering.
    spec fn printed(&self) -> Seq<char>;

    /// Appends the rendering to `out`.
    fn print(&self, out: &mut String)
        requires
            self.printable(),
        ensures
            final(out)@ == old(out)@ + self.printed(),
    ;
}

/// The pieces that make up the rendering of an assignment, appended to
/// `base` one by one, give `base` followed by the rendering.
proof fn lemma_assign_pieces(base: Seq<char>, name: Seq<char>, sep: Seq<char>, r: Seq<char>)
    requires
        sep == spaced('='),
    ensures
        (base.push('(') + name + sep + r).push(')') == base + (seq!['('] + name + spaced('=') + r
            + seq![')']),
{
    let whole = seq!['('] + name + spaced('=') + r + seq![')'];
    assert((base.push('(') + name + sep + r).push(')') =~= base + whole);
}

/// The same for a conditional.
proof fn lemma_cond_pieces(
    base: Seq<char>,
    c: Seq<char>,
    q: Seq<char>,
    t: Seq<char>,
    colon: Seq<char>,
    e: Seq<char>,
)
    requires
        q == spaced('?'),
        colon == spaced(':'),
    ensures
        (base.push('(') + c + q + t + colon + e).push(')') == base + (seq!['('] + c + spaced('?')
            + t + spaced(':') + e + seq![')']),
{
    let whole = seq!['('] + c + spaced('?') + t + spaced(':') + e + seq![')'];
    assert((base.push('(') + c + q + t + colon + e).push(')') =~= base + whole);
}

/// The same for a binary operation.
proof fn lemma_infix_pieces(base: Seq<char>, l: Seq<char>, op: char, r: Seq<char>)
    ensures
        ((base.push('(') + l).push(' ').push(op).push(' ') + r).push(')') == base + (seq!['(']
            + l + spaced(op) + r + seq![')']),
{
    let whole = seq!['('] + l + spaced(op) + r + seq![')'];
    assert(((base.push('(') + l).push(' ').push(op).push(' ') + r).push(')') =~= base + whole);
}

/// The same for a prefix operation.
proof fn lemma_prefix_pieces(base: Seq<char>, op: char, r: Seq<char>)
    ensures
        (base.push('(').push(op) + r).push(')') == base + (seq!['(', op] + r + seq![')']),
{
    assert((base.push('(').push(op) + r).push(')') =~= base + (seq!['(', op] + r + seq![')']));
}

/// The same for a postfix operation.
proof fn lemma_postfix_pieces(base: Seq<char>, l: Seq<char>, op: char)
    ensures
        (base.push('(') + l).push(op).push(')') == base + (seq!['('] + l + seq![op, ')']),
{
    assert((base.push('(') + l).push(op).push(')') =~= base + (seq!['('] + l + seq![op, ')']));
}

/// The same for a call.
proof fn lemma_call_pieces(base: Seq<char>, f: Seq<char>, list: Seq<char>)
    ensures
        ((base + f).push('(') + list).push(')') == base + (f + seq!['('] + list + seq![')']),
{
    assert(((base + f).push('(') + list).push(')') =~= base + (f + seq!['('] + list + seq![')']));
}

/// Appends to `out` the renderings of `args`, with a comma and a space
/// between neighbours.
fn print_list<'source>(args: &Vec<Box<Expr<'source>>>, out: &mut String)
    requires
        forall|j: int| 0 <= j < args.len() ==> (#[trigger] args@[j]).tree().printable(),
    ensures
        final(out)@ == old(out)@ + render_list(trees_of(args@)),
    decreases args,
{
    let ghost base = out@;
    let mut i: usize = 0;
    proof {
        assert(out@ =~= base + render_list(trees_of(args@.take(0))));
    }
    while i < args.len()
        invariant
            i <= args.len(),
            forall|j: int| 0 <= j < args.len() ==> (#[trigger] args@[j]).tree().printable(),
            out@ == base + render_list(trees_of(args@.take(i as int))),
        decreases args.len() - i,
    {
        if i > 0 {
            out.push_str(", ");
        }
        args[i].print(out);
        proof {
            reveal_strlit(", ");
            assert(", "@ =~= seq![',', ' ']);
            let done = trees_of(args@.take(i as int));
            lemma_trees_of(args@.take(i as int));
            lemma_trees_of_take(args@, i as int);
            lemma_render_list_push(done, args@[i as int].tree());
            assert(out@ =~= base + render_list(trees_of(args@.take(i + 1))));
        }
        i += 1;
    }
    proof {
        assert(args@.take(i as int) =~= args@);
    }
}

impl<'source> Print for Expr<'source> {
    open spec fn printable(&self) -> bool {
        self@.printable()
    }

    open spec fn printed(&self) -> Seq<char> {
        self@.render()
    }

    fn print(&self, out: &mut String)
        decreases self,
    {
        let ghost base = out@;
        match self {
            Expr::Name(name) => {
                out.push_str(name);
            },
            Expr::Assign { name, right } => {
                out.push('(');
                out.push_str(name);
                out.push_str(" = ");
                right.print(out);
                out.push(')');
                proof {
                    reveal_strlit(" = ");
                    assert(" = "@ =~= spaced('='));
                    lemma_assign_pieces(base, name@, " = "@, right@.render());
                }
            },
            Expr::Cond { cond, then_arm, else_arm } => {
                out.push('(');
                cond.print(out);
                out.push_str(" ? ");
                then_arm.print(out);
                out.push_str(" : ");
                else_arm.print(out);
                out.push(')');
                proof {
                    reveal_strlit(" ? ");
                    reveal_strlit(" : ");
                    assert(" ? "@ =~= spaced('?'));
                    assert(" : "@ =~= spaced(':'));
                    lemma_cond_pieces(
                        base,
                        cond@.render(),
                        " ? "@,
                        then_arm@.render(),
                        " : "@,
                        else_arm@.render(),
                    );
                }
            },
            Expr::Call { func, args } => {
                func.print(out);
                out.push('(');
                proof {
                    lemma_trees_of(args@);
                    assert(self@.printable());
                    assert(self@ == Tree::Call {
                        func: Box::new(func.tree()),
                        args: trees_of(args@),
                    });
                    let list = trees_of(args@);
                    lemma_printable_call(func.tree(), list);
                    assert forall|j: int| 0 <= j < args.len() implies (#[trigger] args@[j])
                        .tree().printable() by {
                        assert(list[j].printable());
                    }
                }
                print_list(args, out);
                out.push(')');
                proof {
                    lemma_call_pieces(base, func@.render(), render_list(trees_of(args@)));
                }
            },
            Expr::Infix { left, op, right } => {
                out.push('(');
                left.print(out);
                out.push(' ');
                out.push(op.punctuator().unwrap());
                out.push(' ');
                right.print(out);
                out.push(')');
                proof {
                    lemma_infix_pieces(base, left@.render(), op_char(*op), right@.render());
                }
            },
            Expr::Prefix { op, right } => {
                out.push('(');
                out.push(op.punctuator().unwrap());
                right.print(out);
                out.push(')');
                proof {
                    lemma_prefix_pieces(base, op_char(*op), right@.render());
                }
            },
            Expr::Postfix { left, op } => {
                out.push('(');
                left.print(out);
                out.push(op.punctuator().unwrap());
                out.push(')');
                proof {
                    lemma_postfix_pieces(base, left@.render(), op_char(*op));
                }
            },
        }
    }
}

} // verus!
