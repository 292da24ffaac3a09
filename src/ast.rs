use vstd::prelude::*;
use vstd::string::StringExecFns;

use crate::token::{Token, TokenView};

verus! {

broadcast use vstd::std_specs::vec::group_vec_axioms, vstd::seq::group_seq_axioms;

/// A literal as written in the source. A number keeps its decimal text;
/// turning it into a double is left to evaluation.
#[derive(Debug)]
pub enum Literal {
    Number(String),
    Str(String),
    Boolean(bool),
    Nil,
}

/// An expression tree. Every child is owned by its parent.
#[derive(Debug)]
pub enum Expr {
    Binary { left: Box<Expr>, operator: Token, right: Box<Expr> },
    Literal(Literal),
    Grouping(Box<Expr>),
    Unary { operator: Token, right: Box<Expr> },
    Variable(Token),
    Assignment { name: Token, value: Box<Expr> },
    Logical { left: Box<Expr>, operator: Token, right: Box<Expr> },
}

/// A statement tree.
#[derive(Debug)]
pub enum Statement {
    Print(Expr),
    Expression(Expr),
    Var { name: Token, initializer: Option<Expr> },
    Block(Vec<Statement>),
    If { condition: Expr, then_branch: Box<Statement>, else_branch: Option<Box<Statement>> },
}

/// A runtime value. A number is held as the bit pattern of an IEEE 754
/// double.
#[derive(Debug)]
pub enum LiteralValue {
    Number(u64),
    String(String),
    Boolean(bool),
    Nil,
}

pub enum ValueView {
    Number(u64),
    Str(Seq<char>),
    Boolean(bool),
    Nil,
}

impl View for LiteralValue {
    type V = ValueView;

    open spec fn view(&self) -> ValueView {
        match self {
            LiteralValue::Number(n) => ValueView::Number(*n),
            LiteralValue::String(s) => ValueView::Str(s@),
            LiteralValue::Boolean(b) => ValueView::Boolean(*b),
            LiteralValue::Nil => ValueView::Nil,
        }
    }
}

impl LiteralValue {
    /// The printed form of the value: a string's characters as they are,
    /// `true`, `false` or `nil`, and for a number whatever `number_text`
    /// makes of its bits.
    pub fn as_string<G: Fn(u64) -> String>(&self, number_text: &G) -> (r: String)
        requires
            forall|b: u64| #[trigger] call_requires(*number_text, (b,)),
        ensures
            match self@ {
                ValueView::Number(b) => call_ensures(*number_text, (b,), r),
                ValueView::Str(s) => r@ == s,
                ValueView::Boolean(b) => r@ == bool_text(b),
                ValueView::Nil => r@ == "nil"@,
            },
    {
        match self {
            LiteralValue::Number(b) => number_text(*b),
            LiteralValue::String(s) => s.clone(),
            LiteralValue::Boolean(b) => bool_string(*b),
            LiteralValue::Nil => String::from_str("nil"),
        }
    }

    /// An equal copy of this value.
    pub fn cloned(&self) -> (r: LiteralValue)
        ensures
            r@ == self@,
    {
        match self {
            LiteralValue::Number(n) => LiteralValue::Number(*n),
            LiteralValue::String(s) => LiteralValue::String(s.clone()),
            LiteralValue::Boolean(b) => LiteralValue::Boolean(*b),
            LiteralValue::Nil => LiteralValue::Nil,
        }
    }
}

pub enum LiteralView {
    Number(Seq<char>),
    Str(Seq<char>),
    Boolean(bool),
    Nil,
}

pub enum ExprView {
    Binary { left: Box<ExprView>, operator: TokenView, right: Box<ExprView> },
    Literal(LiteralView),
    Grouping(Box<ExprView>),
    Unary { operator: TokenView, right: Box<ExprView> },
    Variable(TokenView),
    Assignment { name: TokenView, value: Box<ExprView> },
    Logical { left: Box<ExprView>, operator: TokenView, right: Box<ExprView> },
}

pub enum StmtView {
    Print(ExprView),
    Expression(ExprView),
    Var { name: TokenView, initializer: Option<ExprView> },
    Block(Seq<StmtView>),
    If { condition: ExprView, then_branch: Box<StmtView>, else_branch: Option<Box<StmtView>> },
}

impl View for Literal {
    type V = LiteralView;

    open spec fn view(&self) -> LiteralView {
        match self {
            Literal::Number(s) => LiteralView::Number(s@),
            Literal::Str(s) => LiteralView::Str(s@),
            Literal::Boolean(b) => LiteralView::Boolean(*b),
            Literal::Nil => LiteralView::Nil,
        }
    }
}

pub open spec fn bool_text(b: bool) -> Seq<char> {
    if b {
        "true"@
    } else {
        "false"@
    }
}

fn bool_string(b: bool) -> (r: String)
    ensures
        r@ == bool_text(b),
{
    if b {
        String::from_str("true")
    } else {
        String::from_str("false")
    }
}

pub open spec fn literal_text(l: LiteralView) -> Seq<char> {
    match l {
        LiteralView::Number(text) => text,
        LiteralView::Str(s) => s,
        LiteralView::Boolean(b) => bool_text(b),
        LiteralView::Nil => "nil"@,
    }
}

/// The prefix form of an expression: `(op left right)` for binary and
/// logical operators, `(op right)` for unary ones, `(group inner)`,
/// `(= name value)`, and literals and names as written.
pub open spec fn tree_text(e: ExprView) -> Seq<char>
    decreases e,
{
    match e {
        ExprView::Binary { left, operator, right } => "("@ + operator.lexeme + " "@ + tree_text(
            *left,
        ) + " "@ + tree_text(*right) + ")"@,
        ExprView::Literal(l) => literal_text(l),
        ExprView::Grouping(inner) => "(group "@ + tree_text(*inner) + ")"@,
        ExprView::Unary { operator, right } => "("@ + operator.lexeme + " "@ + tree_text(*right)
            + ")"@,
        ExprView::Variable(name) => name.lexeme,
        ExprView::Assignment { name, value } => "(= "@ + name.lexeme + " "@ + tree_text(*value)
            + ")"@,
        ExprView::Logical { left, operator, right } => "("@ + operator.lexeme + " "@ + tree_text(
            *left,
        ) + " "@ + tree_text(*right) + ")"@,
    }
}

impl Expr {
    /// The prefix form of the expression.
    pub fn to_string(&self) -> (r: String)
        ensures
            r@ == tree_text(self@),
    {
        let mut s = String::new();
        self.write_to(&mut s);
        assert(s@ =~= tree_text(self@));
        s
    }

    fn write_to(&self, s: &mut String)
        ensures
            final(s)@ == old(s)@ + tree_text(self@),
        decreases self,
    {
        let ghost s0 = s@;
        match self {
            Expr::Binary { left, operator, right } | Expr::Logical { left, operator, right } => {
                s.append("(");
                s.append(operator.lexeme.as_str());
                s.append(" ");
                left.write_to(s);
                s.append(" ");
                right.write_to(s);
                s.append(")");
            },
            Expr::Literal(l) => match l {
                Literal::Number(text) => s.append(text.as_str()),
                Literal::Str(text) => s.append(text.as_str()),
                Literal::Boolean(b) => {
                    let t = bool_string(*b);
                    s.append(t.as_str());
                },
                Literal::Nil => s.append("nil"),
            },
            Expr::Grouping(inner) => {
                s.append("(group ");
                inner.write_to(s);
                s.append(")");
            },
            Expr::Unary { operator, right } => {
                s.append("(");
                s.append(operator.lexeme.as_str());
                s.append(" ");
                right.write_to(s);
                s.append(")");
            },
            Expr::Variable(name) => s.append(name.lexeme.as_str()),
            Expr::Assignment { name, value } => {
                s.append("(= ");
                s.append(name.lexeme.as_str());
                s.append(" ");
                value.write_to(s);
                s.append(")");
            },
        }
        assert(s@ =~= s0 + tree_text(self@));
    }
}

pub open spec fn expr_view(e: Expr) -> ExprView
    decreases e,
{
    match e {
        Expr::Binary { left, operator, right } => ExprView::Binary {
            left: Box::new(expr_view(*left)),
            operator: operator@,
            right: Box::new(expr_view(*right)),
        },
        Expr::Literal(l) => ExprView::Literal(l@),
        Expr::Grouping(inner) => ExprView::Grouping(Box::new(expr_view(*inner))),
        Expr::Unary { operator, right } => ExprView::Unary {
            operator: operator@,
            right: Box::new(expr_view(*right)),
        },
        Expr::Variable(name) => ExprView::Variable(name@),
        Expr::Assignment { name, value } => ExprView::Assignment {
            name: name@,
            value: Box::new(expr_view(*value)),
        },
        Expr::Logical { left, operator, right } => ExprView::Logical {
            left: Box::new(expr_view(*left)),
            operator: operator@,
            right: Box::new(expr_view(*right)),
        },
    }
}

impl View for Expr {
    type V = ExprView;

    open spec fn view(&self) -> ExprView {
        expr_view(*self)
    }
}

pub open spec fn stmt_view(s: Statement) -> StmtView
    decreases s, 1int,
{
    match s {
        Statement::Print(e) => StmtView::Print(e@),
        Statement::Expression(e) => StmtView::Expression(e@),
        Statement::Var { name, initializer } => StmtView::Var {
            name: name@,
            initializer: match initializer {
                Some(e) => Some(e@),
                None => None,
            },
        },
        Statement::Block(stmts) => StmtView::Block(stmts_view(stmts@)),
        Statement::If { condition, then_branch, else_branch } => StmtView::If {
            condition: condition@,
            then_branch: Box::new(stmt_view(*then_branch)),
            else_branch: match else_branch {
                Some(b) => Some(Box::new(stmt_view(*b))),
                None => None,
            },
        },
    }
}

pub open spec fn stmts_view(ss: Seq<Statement>) -> Seq<StmtView>
    decreases ss, 0int,
{
    if ss.len() == 0 {
        Seq::empty()
    } else {
        stmts_view(ss.drop_last()).push(stmt_view(ss.last()))
    }
}

impl View for Statement {
    type V = StmtView;

    open spec fn view(&self) -> StmtView {
        stmt_view(*self)
    }
}

} // verus!
