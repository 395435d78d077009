use vstd::prelude::*;

verus! {

/// The one unary operator of the language.
#[derive(Debug, Clone, Copy, PartialEq, Eq, Structural)]
pub enum UnaryOp {
    Neg,
}

/// The four binary operators of the language.
#[derive(Debug, Clone, Copy, PartialEq, Eq, Structural)]
pub enum BinaryOp {
    Add,
    Sub,
    Mul,
    Div,
}

/// An expression of the language. A number literal carries the bit pattern
/// of an IEEE-754 double; names and string payloads are plain bytes.
/// Each node exclusively owns its children: the tree has no sharing.
#[derive(Debug)]
pub enum Expr {
    Number(u64),
    String(Vec<u8>),
    UnaryOp(UnaryOp, Box<Expr>),
    BinaryOp(BinaryOp, Box<Expr>, Box<Expr>),
    Variable(Vec<u8>),
    Let(Vec<u8>, Box<Expr>, Box<Expr>),
    Apply(Box<Expr>, Vec<Expr>),
}

/// A statement: a bare expression, a function definition, or a top-level
/// binding that persists for the rest of the program.
#[derive(Debug, Clone)]
pub enum Stmt {
    Expr(Expr),
    Def(Vec<u8>, Vec<Vec<u8>>, Expr),
    Let(Vec<u8>, Expr),
}

/// The mathematical shape of an expression.
#[verifier::ext_equal]
pub enum ExprView {
    Number(u64),
    String(Seq<u8>),
    UnaryOp(UnaryOp, Box<ExprView>),
    BinaryOp(BinaryOp, Box<ExprView>, Box<ExprView>),
    Variable(Seq<u8>),
    Let(Seq<u8>, Box<ExprView>, Box<ExprView>),
    Apply(Box<ExprView>, Seq<ExprView>),
}

/// The mathematical shape of a statement.
#[verifier::ext_equal]
pub enum StmtView {
    Expr(ExprView),
    Def(Seq<u8>, Seq<Seq<u8>>, ExprView),
    Let(Seq<u8>, ExprView),
}

impl Expr {
    /// The view of an expression, written as its own recursive function
    /// because the recursion cannot live inside the trait implementation.
    pub open spec fn model(&self) -> ExprView
        decreases self,
    {
        match self {
            Expr::Number(n) => ExprView::Number(*n),
            Expr::String(s) => ExprView::String(s@),
            Expr::UnaryOp(op, e) => ExprView::UnaryOp(*op, Box::new(e.model())),
            Expr::BinaryOp(op, l, r) => ExprView::BinaryOp(
                *op,
                Box::new(l.model()),
                Box::new(r.model()),
            ),
            Expr::Variable(name) => ExprView::Variable(name@),
            Expr::Let(name, e1, e2) => ExprView::Let(
                name@,
                Box::new(e1.model()),
                Box::new(e2.model()),
            ),
            Expr::Apply(f, args) => ExprView::Apply(Box::new(f.model()), Expr::models(args@)),
        }
    }

    /// The views of a list of expressions, in order.
    pub open spec fn models(s: Seq<Expr>) -> Seq<ExprView>
        decreases s,
    {
        if s.len() == 0 {
            Seq::empty()
        } else {
            seq![s[0].model()] + Expr::models(s.subrange(1, s.len() as int))
        }
    }
}

/// The views of a list of expressions are its members' views, in order.
pub proof fn lemma_models(s: Seq<Expr>)
    ensures
        Expr::models(s).len() == s.len(),
        forall|i: int| 0 <= i < s.len() ==> Expr::models(s)[i] == s[i].model(),
    decreases s.len(),
{
    if s.len() > 0 {
        lemma_models(s.subrange(1, s.len() as int));
    }
}

impl View for Expr {
    type V = ExprView;

    open spec fn view(&self) -> ExprView {
        self.model()
    }
}

/// Copies a list of expressions, element by element; each copy has the
/// view of its original.
fn clone_exprs(exprs: &[Expr]) -> (r: Vec<Expr>)
    ensures
        r@.len() == exprs@.len(),
        forall|i: int| 0 <= i < exprs@.len() ==> r@[i].model() == exprs@[i].model(),
    decreases exprs@,
{
    if exprs.len() == 0 {
        Vec::new()
    } else {
        let first = exprs[0].clone();
        let (_, rest) = exprs.split_at(1);
        proof {
            assert(decreases_to!(exprs@ => exprs@.subrange(1, exprs@.len() as int)));
        }
        let rest_copied = clone_exprs(rest);
        let mut r: Vec<Expr> = Vec::new();
        r.push(first);
        let mut rest_copied = rest_copied;
        r.append(&mut rest_copied);
        proof {
            assert(forall|i: int|
                0 < i < exprs@.len() ==> exprs@.subrange(1, exprs@.len() as int)[i - 1]
                    == exprs@[i]);
        }
        r
    }
}

impl Clone for Expr {
    /// A copy of an expression is a fresh tree with the same view.
    fn clone(&self) -> (r: Self)
        ensures
            r@ == self@,
        decreases self,
    {
        match self {
            Expr::Number(n) => Expr::Number(*n),
            Expr::String(s) => Expr::String(crate::bytes::clone_bytes(s)),
            Expr::UnaryOp(op, e) => Expr::UnaryOp(*op, Box::new((**e).clone())),
            Expr::BinaryOp(op, l, r) => Expr::BinaryOp(
                *op,
                Box::new((**l).clone()),
                Box::new((**r).clone()),
            ),
            Expr::Variable(name) => Expr::Variable(crate::bytes::clone_bytes(name)),
            Expr::Let(name, e1, e2) => Expr::Let(
                crate::bytes::clone_bytes(name),
                Box::new((**e1).clone()),
                Box::new((**e2).clone()),
            ),
            Expr::Apply(f, args) => {
                let copied = clone_exprs(args.as_slice());
                let r = Expr::Apply(Box::new((**f).clone()), copied);
                proof {
                    lemma_models(copied@);
                    lemma_models(args@);
                    assert(Expr::models(copied@) =~= Expr::models(args@));
                    assert(r.model() =~= self.model());
                }
                r
            },
        }
    }
}

impl View for Stmt {
    type V = StmtView;

    open spec fn view(&self) -> StmtView {
        match self {
            Stmt::Expr(e) => StmtView::Expr(e.model()),
            Stmt::Def(name, params, body) => StmtView::Def(name@, params.deep_view(), body.model()),
            Stmt::Let(name, e) => StmtView::Let(name@, e.model()),
        }
    }
}

} // verus!
