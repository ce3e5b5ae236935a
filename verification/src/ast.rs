//! The abstract syntax tree: identifiers, types, literals, operators,
//! expressions, statements and top-level declarations. Every interior node
//! carries the spans of its parts, so diagnostics can point back into the
//! source.

use vstd::prelude::*;

use crate::intern::{intern_eq, intern_get, intern_str, intern_text};
use crate::span::{Span, Spanned};

verus! {

/// An interned, immutable identifier. Two identifiers are equal exactly when
/// their textual forms are equal, and the comparison is constant-time because
/// each distinct text is interned once.
#[derive(Debug, Clone, Copy, PartialEq)]
pub struct Ident(pub internment::Intern<String>);

impl View for Ident {
    type V = Seq<char>;

    closed spec fn view(&self) -> Seq<char> {
        intern_text(self.0)
    }
}

impl Ident {
    pub fn new(text: &str) -> (r: Ident)
        ensures
            r@ == text@,
    {
        Ident(intern_str(text))
    }

    /// The identifier's textual form.
    pub fn text(&self) -> (s: &String)
        ensures
            s@ == self@,
    {
        intern_get(&self.0)
    }

    /// Constant-time equality of the underlying texts.
    pub fn same(&self, other: &Ident) -> (r: bool)
        ensures
            r == (self@ == other@),
    {
        intern_eq(&self.0, &other.0)
    }
}

/// The text of a real-number literal, validated by the lexer and interned
/// like an identifier so that tokens stay small and copyable. The front end
/// never computes with real numbers; turning the text into a machine float is
/// the consumer's step.
#[derive(Debug, Clone, Copy, PartialEq)]
pub struct RealText(pub(crate) internment::Intern<String>);

impl View for RealText {
    type V = Seq<char>;

    closed spec fn view(&self) -> Seq<char> {
        intern_text(self.0)
    }
}

impl RealText {
    pub fn new(text: &str) -> (r: RealText)
        ensures
            r@ == text@,
    {
        RealText(intern_str(text))
    }

    /// The literal exactly as it was written.
    pub fn text(&self) -> (s: &String)
        ensures
            s@ == self@,
    {
        intern_get(&self.0)
    }

    /// Constant-time equality of the underlying texts.
    pub fn same(&self, other: &RealText) -> (r: bool)
        ensures
            r == (self@ == other@),
    {
        intern_eq(&self.0, &other.0)
    }
}

/// The closed set of base types of the language.
#[derive(Debug, Clone, PartialEq, Eq, Structural)]
pub enum Type {
    Int,
    Char,
    Bool,
    Real,
    Unit,
}

impl Type {
    pub open spec fn name_spec(&self) -> Seq<char> {
        match self {
            Type::Int => "int"@,
            Type::Char => "char"@,
            Type::Bool => "bool"@,
            Type::Real => "real"@,
            Type::Unit => "()"@,
        }
    }

    /// The source keyword for the type, with `Unit` rendered `()`.
    pub fn name(&self) -> (s: &'static str)
        ensures
            s@ == self.name_spec(),
    {
        match self {
            Type::Int => "int",
            Type::Char => "char",
            Type::Bool => "bool",
            Type::Real => "real",
            Type::Unit => "()",
        }
    }
}

/// A literal value. `Int` holds a non-negative magnitude; negation is a
/// unary operator, not part of the literal. `Real` holds the literal's
/// validated text.
#[derive(Debug, Clone, Copy, PartialEq)]
pub enum Literal {
    Int(usize),
    Char(char),
    Bool(bool),
    Real(RealText),
    Unit,
}

/// Binary operators, grouped by precedence level.
#[derive(Debug, Clone, Copy, PartialEq, Eq, Structural)]
pub enum BinaryOp {
    Sub,
    Mul,
    Div,
    Rem,
    Eq,
    NotEq,
    Less,
    LessEq,
    Greater,
    GreaterEq,
    And,
    Or,
}

impl BinaryOp {
    pub open spec fn symbol_spec(&self) -> Seq<char> {
        match self {
            BinaryOp::Sub => "-"@,
            BinaryOp::Mul => "*"@,
            BinaryOp::Div => "div"@,
            BinaryOp::Rem => "mod"@,
            BinaryOp::Eq => "="@,
            BinaryOp::NotEq => "<>"@,
            BinaryOp::Less => "<"@,
            BinaryOp::LessEq => "<="@,
            BinaryOp::Greater => ">"@,
            BinaryOp::GreaterEq => ">="@,
            BinaryOp::And => "&&"@,
            BinaryOp::Or => "||"@,
        }
    }

    /// The operator as it is written in source.
    pub fn symbol(&self) -> (s: &'static str)
        ensures
            s@ == self.symbol_spec(),
    {
        match self {
            BinaryOp::Sub => "-",
            BinaryOp::Mul => "*",
            BinaryOp::Div => "div",
            BinaryOp::Rem => "mod",
            BinaryOp::Eq => "=",
            BinaryOp::NotEq => "<>",
            BinaryOp::Less => "<",
            BinaryOp::LessEq => "<=",
            BinaryOp::Greater => ">",
            BinaryOp::GreaterEq => ">=",
            BinaryOp::And => "&&",
            BinaryOp::Or => "||",
        }
    }
}

/// Unary prefix operators: arithmetic negation (tilde) and boolean `not`.
#[derive(Debug, Clone, Copy, PartialEq, Eq, Structural)]
pub enum UnaryOp {
    Neg,
    Not,
}

impl UnaryOp {
    pub open spec fn symbol_spec(&self) -> Seq<char> {
        match self {
            UnaryOp::Neg => "~"@,
            UnaryOp::Not => "not"@,
        }
    }

    pub fn symbol(&self) -> (s: &'static str)
        ensures
            s@ == self.symbol_spec(),
    {
        match self {
            UnaryOp::Neg => "~",
            UnaryOp::Not => "not",
        }
    }
}

/// Borrow prefixes: `&x` and `&mut x`.
#[derive(Debug, Clone, Copy, PartialEq, Eq, Structural)]
pub enum BorrowOp {
    Ref,
    RefMut,
}

impl BorrowOp {
    pub open spec fn symbol_spec(&self) -> Seq<char> {
        match self {
            BorrowOp::Ref => "&"@,
            BorrowOp::RefMut => "&mut"@,
        }
    }

    pub fn symbol(&self) -> (s: &'static str)
        ensures
            s@ == self.symbol_spec(),
    {
        match self {
            BorrowOp::Ref => "&",
            BorrowOp::RefMut => "&mut",
        }
    }
}

/// An expression. Every field that holds a sub-expression holds its span as
/// well, so a consumer can highlight any sub-part.
#[derive(Debug)]
pub enum Expr {
    Value(Literal),
    Local(Ident),
    Unary { op: Spanned<UnaryOp>, expr: Box<Spanned<Expr>> },
    Borrow { op: Spanned<BorrowOp>, expr: Box<Spanned<Expr>> },
    Apply { callee: Box<Spanned<Expr>>, arg: Box<Spanned<Expr>> },
    Binary { left: Box<Spanned<Expr>>, op: Spanned<BinaryOp>, right: Box<Spanned<Expr>> },
    Let { stmts: Vec<Spanned<Stmt>>, expr: Box<Spanned<Expr>> },
    If {
        condition: Box<Spanned<Expr>>,
        then_expr: Box<Spanned<Expr>>,
        else_expr: Box<Spanned<Expr>>,
    },
}

/// A `val` binding: a name, an optional declared type and the bound
/// expression.
#[derive(Debug)]
pub struct Val {
    pub name: Spanned<Ident>,
    pub ty: Option<Type>,
    pub expr: Spanned<Expr>,
}

/// A statement inside a `let` block.
#[derive(Debug)]
pub enum Stmt {
    Val(Val),
    Assign { target: Spanned<Ident>, value: Spanned<Expr> },
    While { condition: Spanned<Expr>, body: Box<Spanned<Stmt>> },
}

/// A function parameter: a plain name, a wildcard, or either of those with a
/// declared type.
#[derive(Debug)]
pub enum FuncParam {
    Ident(Ident),
    Wildcard,
    Typed { param: Box<FuncParam>, ty: Type },
}

/// A top-level function declaration.
#[derive(Debug)]
pub struct Func {
    pub name: Spanned<Ident>,
    pub params: Vec<Spanned<FuncParam>>,
    pub ty: Option<Spanned<Type>>,
    pub expr: Spanned<Expr>,
}

/// A top-level declaration.
#[derive(Debug)]
pub enum Decl {
    Val(Val),
    Func(Func),
}

/// `outer` covers `inner`: same source, and the inner range lies within the
/// outer one.
pub open spec fn covers(outer: Span, inner: Span) -> bool {
    &&& outer.src == inner.src
    &&& outer.start <= inner.start
    &&& inner.end <= outer.end
}

/// Well-formed spans on an expression tree: the span of every node covers the
/// spans of all of its immediate children. The node built for a parenthesized
/// expression keeps its children but widens its span to the parentheses, so
/// covering, not equality, is the invariant that holds of every node.
pub open spec fn expr_wf(e: Expr, s: Span) -> bool
    decreases e,
{
    match e {
        Expr::Value(_) => true,
        Expr::Local(_) => true,
        Expr::Unary { op, expr } => {
            &&& covers(s, op.1)
            &&& covers(s, expr.1)
            &&& expr_wf(expr.0, expr.1)
        },
        Expr::Borrow { op, expr } => {
            &&& covers(s, op.1)
            &&& covers(s, expr.1)
            &&& expr_wf(expr.0, expr.1)
        },
        Expr::Apply { callee, arg } => {
            &&& covers(s, callee.1)
            &&& covers(s, arg.1)
            &&& expr_wf(callee.0, callee.1)
            &&& expr_wf(arg.0, arg.1)
        },
        Expr::Binary { left, op, right } => {
            &&& covers(s, left.1)
            &&& covers(s, op.1)
            &&& covers(s, right.1)
            &&& expr_wf(left.0, left.1)
            &&& expr_wf(right.0, right.1)
        },
        Expr::Let { stmts, expr } => {
            &&& forall|i: int|
                0 <= i < stmts@.len() ==> covers(s, #[trigger] stmts@[i].1) && stmt_wf(
                    stmts@[i].0,
                    stmts@[i].1,
                )
            &&& covers(s, expr.1)
            &&& expr_wf(expr.0, expr.1)
        },
        Expr::If { condition, then_expr, else_expr } => {
            &&& covers(s, condition.1)
            &&& covers(s, then_expr.1)
            &&& covers(s, else_expr.1)
            &&& expr_wf(condition.0, condition.1)
            &&& expr_wf(then_expr.0, then_expr.1)
            &&& expr_wf(else_expr.0, else_expr.1)
        },
    }
}

/// Widening the span of a node keeps it well-formed: the wider span still
/// covers every immediate child.
pub proof fn lemma_expr_wf_widen(e: Expr, s1: Span, s2: Span)
    requires
        expr_wf(e, s1),
        covers(s2, s1),
    ensures
        expr_wf(e, s2),
{
}

/// Well-formed spans on a statement, as in `expr_wf`.
pub open spec fn stmt_wf(st: Stmt, s: Span) -> bool
    decreases st,
{
    match st {
        Stmt::Val(v) => {
            &&& covers(s, v.name.1)
            &&& covers(s, v.expr.1)
            &&& expr_wf(v.expr.0, v.expr.1)
        },
        Stmt::Assign { target, value } => {
            &&& covers(s, target.1)
            &&& covers(s, value.1)
            &&& expr_wf(value.0, value.1)
        },
        Stmt::While { condition, body } => {
            &&& covers(s, condition.1)
            &&& covers(s, body.1)
            &&& expr_wf(condition.0, condition.1)
            &&& stmt_wf(body.0, body.1)
        },
    }
}

} // verus!
