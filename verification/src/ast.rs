use vstd::prelude::*;

verus! {

/// A binary arithmetic operator. All four operators have equal precedence
/// and combine strictly left-to-right.
#[derive(Debug, Clone, Copy, PartialEq, Eq, Structural)]
pub enum BinaryOp {
    Add,
    Sub,
    Mul,
    Div,
}

/// An expression: an integer literal, a variable reference, or a binary
/// application whose operands are exclusively owned sub-expressions.
#[derive(Debug)]
pub enum Expr {
    Int(i32),
    Var(String),
    Binary { left: Box<Expr>, op: BinaryOp, right: Box<Expr> },
}

/// A statement: a `let` binding or a `return`.
#[derive(Debug)]
pub enum Stmt {
    Let { name: String, value: Expr },
    Return(Expr),
}

/// A function definition: its name and the ordered statements of its body.
/// The return-type annotation is validated during parsing but not retained.
#[derive(Debug)]
pub struct Function {
    pub name: String,
    pub body: Vec<Stmt>,
}

/// The mathematical model of an expression.
pub enum ExprV {
    Int(i32),
    Var(Seq<char>),
    Binary { left: Box<ExprV>, op: BinaryOp, right: Box<ExprV> },
}

/// The mathematical model of a statement.
pub enum StmtV {
    Let { name: Seq<char>, value: ExprV },
    Return(ExprV),
}

/// The mathematical model of a function definition.
pub struct FunctionV {
    pub name: Seq<char>,
    pub body: Seq<StmtV>,
}

pub open spec fn expr_view(e: Expr) -> ExprV
    decreases e,
{
    match e {
        Expr::Int(n) => ExprV::Int(n),
        Expr::Var(s) => ExprV::Var(s@),
        Expr::Binary { left, op, right } => ExprV::Binary {
            left: Box::new(expr_view(*left)),
            op,
            right: Box::new(expr_view(*right)),
        },
    }
}

impl View for Expr {
    type V = ExprV;

    open spec fn view(&self) -> ExprV {
        expr_view(*self)
    }
}

impl View for Stmt {
    type V = StmtV;

    open spec fn view(&self) -> StmtV {
        match self {
            Stmt::Let { name, value } => StmtV::Let { name: name@, value: expr_view(*value) },
            Stmt::Return(e) => StmtV::Return(expr_view(*e)),
        }
    }
}

/// The statement views of a statement sequence.
pub open spec fn stmts_view(ss: Seq<Stmt>) -> Seq<StmtV> {
    ss.map_values(|s: Stmt| s@)
}

/// The function views of a function sequence.
pub open spec fn fns_view(fs: Seq<Function>) -> Seq<FunctionV> {
    fs.map_values(|f: Function| f@)
}

impl View for Function {
    type V = FunctionV;

    open spec fn view(&self) -> FunctionV {
        FunctionV { name: self.name@, body: stmts_view(self.body@) }
    }
}

} // verus!
