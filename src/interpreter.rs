use vstd::prelude::*;
use vstd::string::StringExecFns;

use crate::ast::{
    stmt_view, stmts_view, Expr, ExprView, Literal, LiteralValue, LiteralView, Statement,
    StmtView, ValueView,
};
use crate::environment::{assigned, defined, lookup, undefined_message, EnvView, Environment};
use crate::number::{
    answer, answers_all, ask, deterministic, equal, less, less_eq, neg, negate, num_eq,
    num_less, num_less_eq, NumOp, NumOpView,
};
use crate::text::{report, report_text};
use crate::token::{Token, TokenType, TokenView};

verus! {

broadcast use vstd::seq::group_seq_axioms, vstd::std_specs::vec::group_vec_axioms;

/// An error that stops a run: the line of the token where it arose and what
/// went wrong.
#[derive(Debug)]
pub struct RuntimeError {
    pub line: usize,
    pub message: String,
}

pub struct RuntimeErrorView {
    pub line: nat,
    pub message: Seq<char>,
}

impl RuntimeError {
    /// The report of this error: `[line N] Error: <message>`.
    pub fn to_string(&self) -> (r: String)
        ensures
            r@ == report_text(self.line as nat, Seq::empty(), self.message@),
    {
        proof {
            reveal_strlit("");
        }
        report(self.line, "", self.message.as_str())
    }
}

impl View for RuntimeError {
    type V = RuntimeErrorView;

    open spec fn view(&self) -> RuntimeErrorView {
        RuntimeErrorView { line: self.line as nat, message: self.message@ }
    }
}

pub type Evaluated = (Result<ValueView, RuntimeErrorView>, EnvView);

pub type Executed = (Result<(), RuntimeErrorView>, EnvView, Seq<ValueView>);

// ---------------------------------------------------------------------------
// The semantics. `f` is the arithmetic on doubles that the caller supplies.
// ---------------------------------------------------------------------------

/// `nil` and `false` are false; every other value is true.
pub open spec fn truthy(v: ValueView) -> bool {
    match v {
        ValueView::Nil => false,
        ValueView::Boolean(b) => b,
        _ => true,
    }
}

/// Equality without coercion: values of different kinds are unequal.
pub open spec fn values_equal(a: ValueView, b: ValueView) -> bool {
    match (a, b) {
        (ValueView::Number(x), ValueView::Number(y)) => num_eq(x, y),
        (ValueView::Str(x), ValueView::Str(y)) => x == y,
        (ValueView::Boolean(x), ValueView::Boolean(y)) => x == y,
        (ValueView::Nil, ValueView::Nil) => true,
        _ => false,
    }
}

pub open spec fn rt_error(line: nat, message: Seq<char>) -> RuntimeErrorView {
    RuntimeErrorView { line, message }
}

pub open spec fn operand_message() -> Seq<char> {
    "Operand must be a number."@
}

pub open spec fn operands_message() -> Seq<char> {
    "Operands must be numbers."@
}

pub open spec fn plus_message() -> Seq<char> {
    "Operands must be two numbers or two strings."@
}

pub open spec fn operator_message() -> Seq<char> {
    "Unknown operator."@
}

/// The result of an arithmetic operator on two numbers, else an error.
pub open spec fn arithmetic<F: Fn(NumOp) -> u64>(
    f: F,
    op: TokenView,
    l: ValueView,
    r: ValueView,
) -> Result<ValueView, RuntimeErrorView> {
    match (l, r) {
        (ValueView::Number(a), ValueView::Number(b)) => Ok(
            ValueView::Number(
                answer(
                    f,
                    if op.kind == TokenType::MINUS {
                        NumOpView::Sub(a, b)
                    } else if op.kind == TokenType::STAR {
                        NumOpView::Mul(a, b)
                    } else {
                        NumOpView::Div(a, b)
                    },
                ),
            ),
        ),
        _ => Err(rt_error(op.line, operands_message())),
    }
}

/// The result of a comparison of two numbers, else an error.
pub open spec fn comparison(op: TokenView, l: ValueView, r: ValueView) -> Result<
    ValueView,
    RuntimeErrorView,
> {
    match (l, r) {
        (ValueView::Number(a), ValueView::Number(b)) => Ok(
            ValueView::Boolean(
                if op.kind == TokenType::GREATER {
                    num_less(b, a)
                } else if op.kind == TokenType::GREATER_EQUAL {
                    num_less_eq(b, a)
                } else if op.kind == TokenType::LESS {
                    num_less(a, b)
                } else {
                    num_less_eq(a, b)
                },
            ),
        ),
        _ => Err(rt_error(op.line, operands_message())),
    }
}

/// The value of a binary operator on two operand values.
pub open spec fn binary_value<F: Fn(NumOp) -> u64>(
    f: F,
    op: TokenView,
    l: ValueView,
    r: ValueView,
) -> Result<ValueView, RuntimeErrorView> {
    let k = op.kind;
    if k == TokenType::PLUS {
        match (l, r) {
            (ValueView::Number(a), ValueView::Number(b)) => Ok(
                ValueView::Number(answer(f, NumOpView::Add(a, b))),
            ),
            (ValueView::Str(a), ValueView::Str(b)) => Ok(ValueView::Str(a + b)),
            _ => Err(rt_error(op.line, plus_message())),
        }
    } else if k == TokenType::MINUS || k == TokenType::STAR || k == TokenType::SLASH {
        arithmetic(f, op, l, r)
    } else if k == TokenType::GREATER || k == TokenType::GREATER_EQUAL || k == TokenType::LESS || k
        == TokenType::LESS_EQUAL {
        comparison(op, l, r)
    } else if k == TokenType::EQUAL_EQUAL {
        Ok(ValueView::Boolean(values_equal(l, r)))
    } else if k == TokenType::BANG_EQUAL {
        Ok(ValueView::Boolean(!values_equal(l, r)))
    } else {
        Err(rt_error(op.line, operator_message()))
    }
}

/// The value of a unary operator on its operand's value.
pub open spec fn unary_value(op: TokenView, v: ValueView) -> Result<ValueView, RuntimeErrorView> {
    if op.kind == TokenType::MINUS {
        match v {
            ValueView::Number(n) => Ok(ValueView::Number(negate(n))),
            _ => Err(rt_error(op.line, operand_message())),
        }
    } else if op.kind == TokenType::BANG {
        Ok(ValueView::Boolean(!truthy(v)))
    } else {
        Err(rt_error(op.line, operator_message()))
    }
}

pub open spec fn literal_value<F: Fn(NumOp) -> u64>(f: F, l: LiteralView) -> ValueView {
    match l {
        LiteralView::Number(text) => ValueView::Number(answer(f, NumOpView::Parse(text))),
        LiteralView::Str(s) => ValueView::Str(s),
        LiteralView::Boolean(b) => ValueView::Boolean(b),
        LiteralView::Nil => ValueView::Nil,
    }
}

/// The value of `e` in the scopes `env`, and the scopes after it; operands
/// are evaluated left to right, and `and` and `or` evaluate their right
/// operand only where the left one does not decide.
pub open spec fn eval<F: Fn(NumOp) -> u64>(f: F, e: ExprView, env: EnvView) -> Evaluated
    decreases e,
{
    match e {
        ExprView::Literal(l) => (Ok(literal_value(f, l)), env),
        ExprView::Grouping(inner) => eval(f, *inner, env),
        ExprView::Variable(name) => match lookup(env, name.lexeme) {
            Some(v) => (Ok(v), env),
            None => (Err(rt_error(name.line, undefined_message(name.lexeme))), env),
        },
        ExprView::Assignment { name, value } => {
            let (r, env1) = eval(f, *value, env);
            match r {
                Err(x) => (Err(x), env1),
                Ok(v) => match assigned(env1, name.lexeme, v) {
                    Some(env2) => (Ok(v), env2),
                    None => (Err(rt_error(name.line, undefined_message(name.lexeme))), env1),
                },
            }
        },
        ExprView::Unary { operator, right } => {
            let (r, env1) = eval(f, *right, env);
            match r {
                Err(x) => (Err(x), env1),
                Ok(v) => (unary_value(operator, v), env1),
            }
        },
        ExprView::Binary { left, operator, right } => {
            let (l, env1) = eval(f, *left, env);
            match l {
                Err(x) => (Err(x), env1),
                Ok(lv) => {
                    let (r, env2) = eval(f, *right, env1);
                    match r {
                        Err(x) => (Err(x), env2),
                        Ok(rv) => (binary_value(f, operator, lv, rv), env2),
                    }
                },
            }
        },
        ExprView::Logical { left, operator, right } => {
            let (l, env1) = eval(f, *left, env);
            match l {
                Err(x) => (Err(x), env1),
                Ok(lv) => if (operator.kind == TokenType::OR) == truthy(lv) {
                    (Ok(lv), env1)
                } else {
                    eval(f, *right, env1)
                },
            }
        },
    }
}

/// The outcome of running `s` in the scopes `env`: success or the error that
/// stopped it, the scopes after it, and the values it printed.
pub open spec fn exec<F: Fn(NumOp) -> u64>(f: F, s: StmtView, env: EnvView) -> Executed
    decreases s, 1int,
{
    match s {
        StmtView::Print(e) => {
            let (r, env1) = eval(f, e, env);
            match r {
                Err(x) => (Err(x), env1, Seq::empty()),
                Ok(v) => (Ok(()), env1, seq![v]),
            }
        },
        StmtView::Expression(e) => {
            let (r, env1) = eval(f, e, env);
            match r {
                Err(x) => (Err(x), env1, Seq::empty()),
                Ok(v) => (Ok(()), env1, Seq::empty()),
            }
        },
        StmtView::Var { name, initializer } => match initializer {
            Some(e) => {
                let (r, env1) = eval(f, e, env);
                match r {
                    Err(x) => (Err(x), env1, Seq::empty()),
                    Ok(v) => (Ok(()), defined(env1, name.lexeme, v), Seq::empty()),
                }
            },
            None => (Ok(()), defined(env, name.lexeme, ValueView::Nil), Seq::empty()),
        },
        StmtView::Block(stmts) => {
            let (r, env1, out) = exec_all(f, stmts, env.push(Map::empty()));
            (r, env1.drop_last(), out)
        },
        StmtView::If { condition, then_branch, else_branch } => {
            let (r, env1) = eval(f, condition, env);
            match r {
                Err(x) => (Err(x), env1, Seq::empty()),
                Ok(v) => if truthy(v) {
                    exec(f, *then_branch, env1)
                } else {
                    match else_branch {
                        Some(b) => exec(f, *b, env1),
                        None => (Ok(()), env1, Seq::empty()),
                    }
                },
            }
        },
    }
}

/// Runs `ss` in order, stopping at the first error.
pub open spec fn exec_all<F: Fn(NumOp) -> u64>(f: F, ss: Seq<StmtView>, env: EnvView) -> Executed
    decreases ss, 0int,
{
    if ss.len() == 0 {
        (Ok(()), env, Seq::empty())
    } else {
        let (r, env1, out1) = exec(f, ss[0], env);
        match r {
            Err(x) => (Err(x), env1, out1),
            Ok(_) => {
                let (r2, env2, out2) = exec_all(f, ss.drop_first(), env1);
                (r2, env2, out1 + out2)
            },
        }
    }
}

/// Whether a binary operator on these operands asks the arithmetic.
pub open spec fn binary_consults(op: TokenView, l: ValueView, r: ValueView) -> bool {
    &&& (op.kind == TokenType::PLUS || op.kind == TokenType::MINUS || op.kind == TokenType::STAR
        || op.kind == TokenType::SLASH)
    &&& l is Number
    &&& r is Number
}

/// Whether evaluating `e` in `env` asks the arithmetic anything: a number
/// literal, or arithmetic on two numbers, on the path that `eval` takes.
pub open spec fn consults<F: Fn(NumOp) -> u64>(f: F, e: ExprView, env: EnvView) -> bool
    decreases e,
{
    match e {
        ExprView::Literal(l) => l is Number,
        ExprView::Grouping(inner) => consults(f, *inner, env),
        ExprView::Variable(_) => false,
        ExprView::Assignment { value, .. } => consults(f, *value, env),
        ExprView::Unary { right, .. } => consults(f, *right, env),
        ExprView::Binary { left, operator, right } => {
            let (l, env1) = eval(f, *left, env);
            consults(f, *left, env) || (l is Ok && (consults(f, *right, env1) || ({
                let (r, env2) = eval(f, *right, env1);
                r is Ok && binary_consults(operator, l->Ok_0, r->Ok_0)
            })))
        },
        ExprView::Logical { left, operator, right } => {
            let (l, env1) = eval(f, *left, env);
            consults(f, *left, env) || (l is Ok && (operator.kind == TokenType::OR) != truthy(
                l->Ok_0,
            ) && consults(f, *right, env1))
        },
    }
}

/// Whether running `s` in `env` asks the arithmetic anything.
pub open spec fn consults_stmt<F: Fn(NumOp) -> u64>(f: F, s: StmtView, env: EnvView) -> bool
    decreases s, 1int,
{
    match s {
        StmtView::Print(e) => consults(f, e, env),
        StmtView::Expression(e) => consults(f, e, env),
        StmtView::Var { initializer, .. } => match initializer {
            Some(e) => consults(f, e, env),
            None => false,
        },
        StmtView::Block(stmts) => consults_all(f, stmts, env.push(Map::empty())),
        StmtView::If { condition, then_branch, else_branch } => {
            let (r, env1) = eval(f, condition, env);
            consults(f, condition, env) || (r is Ok && if truthy(r->Ok_0) {
                consults_stmt(f, *then_branch, env1)
            } else {
                match else_branch {
                    Some(b) => consults_stmt(f, *b, env1),
                    None => false,
                }
            })
        },
    }
}

/// Whether running `ss` in order in `env` asks the arithmetic anything.
pub open spec fn consults_all<F: Fn(NumOp) -> u64>(f: F, ss: Seq<StmtView>, env: EnvView) -> bool
    decreases ss, 0int,
{
    if ss.len() == 0 {
        false
    } else {
        let (r, env1, out1) = exec(f, ss[0], env);
        consults_stmt(f, ss[0], env) || (r is Ok && consults_all(f, ss.drop_first(), env1))
    }
}

pub open spec fn value_outcome(r: Result<LiteralValue, RuntimeError>) -> Result<
    ValueView,
    RuntimeErrorView,
> {
    match r {
        Ok(v) => Ok(v@),
        Err(e) => Err(e@),
    }
}

pub open spec fn unit_outcome(r: Result<(), RuntimeError>) -> Result<(), RuntimeErrorView> {
    match r {
        Ok(_) => Ok(()),
        Err(e) => Err(e@),
    }
}

pub open spec fn values_view(v: Seq<LiteralValue>) -> Seq<ValueView> {
    v.map_values(|x: LiteralValue| x@)
}

proof fn lemma_stmts_view(ss: Seq<Statement>)
    ensures
        stmts_view(ss).len() == ss.len(),
        forall|i: int| 0 <= i < ss.len() ==> #[trigger] stmts_view(ss)[i] == stmt_view(ss[i]),
    decreases ss.len(),
{
    if ss.len() > 0 {
        lemma_stmts_view(ss.drop_last());
    }
}

// ---------------------------------------------------------------------------
// The interpreter.
// ---------------------------------------------------------------------------

/// A tree-walking interpreter that owns the scopes of a run.
pub struct Interpreter {
    environment: Environment,
}

impl Interpreter {
    /// The scopes of the run, outermost first.
    pub closed spec fn env(&self) -> EnvView {
        self.environment@
    }

    /// The scopes are well formed: at least one, and no name bound twice in
    /// one scope.
    pub closed spec fn inv(&self) -> bool {
        self.environment.wf()
    }

    /// An interpreter with one empty scope.
    pub fn new() -> (r: Self)
        ensures
            r.inv(),
            r.env() == seq![Map::<Seq<char>, ValueView>::empty()],
    {
        Self { environment: Environment::new() }
    }

    /// Evaluates `expr`, asking `arith` for arithmetic on doubles.
    pub fn evaluate<F: Fn(NumOp) -> u64>(&mut self, expr: Expr, arith: &F) -> (r: Result<
        LiteralValue,
        RuntimeError,
    >)
        requires
            answers_all(*arith),
            old(self).inv(),
        ensures
            final(self).inv(),
            final(self).env().len() == old(self).env().len(),
            deterministic(*arith) || !consults(*arith, expr@, old(self).env()) ==> (value_outcome(
                r,
            ), final(self).env()) == eval(
                *arith,
                expr@,
                old(self).env(),
            ),
        decreases expr,
    {
        match expr {
            Expr::Literal(lit) => {
                let v = match lit {
                    Literal::Number(text) => LiteralValue::Number(ask(arith, NumOp::Parse(text))),
                    Literal::Str(s) => LiteralValue::String(s),
                    Literal::Boolean(b) => LiteralValue::Boolean(b),
                    Literal::Nil => LiteralValue::Nil,
                };
                Ok(v)
            },
            Expr::Grouping(inner) => self.evaluate(*inner, arith),
            Expr::Variable(name) => match self.environment.get(name.lexeme.as_str()) {
                Some(v) => Ok(v),
                None => Err(
                    RuntimeError { line: name.line, message: undefined_string(&name.lexeme) },
                ),
            },
            Expr::Assignment { name, value } => {
                let v = match self.evaluate(*value, arith) {
                    Ok(v) => v,
                    Err(e) => return Err(e),
                };
                let kept = v.cloned();
                match self.environment.assign(name.lexeme.as_str(), v) {
                    Ok(()) => Ok(kept),
                    Err(_) => Err(
                        RuntimeError { line: name.line, message: undefined_string(&name.lexeme) },
                    ),
                }
            },
            Expr::Unary { operator, right } => {
                let v = match self.evaluate(*right, arith) {
                    Ok(v) => v,
                    Err(e) => return Err(e),
                };
                if operator.token_type == TokenType::MINUS {
                    match Self::expect_number(&operator, &v) {
                        Ok(n) => Ok(LiteralValue::Number(neg(n))),
                        Err(e) => Err(e),
                    }
                } else if operator.token_type == TokenType::BANG {
                    Ok(LiteralValue::Boolean(!Self::is_truthy(&v)))
                } else {
                    Err(Self::error(&operator, "Unknown operator."))
                }
            },
            Expr::Binary { left, operator, right } => {
                let l = match self.evaluate(*left, arith) {
                    Ok(v) => v,
                    Err(e) => return Err(e),
                };
                let r = match self.evaluate(*right, arith) {
                    Ok(v) => v,
                    Err(e) => return Err(e),
                };
                Self::binary(&operator, l, r, arith)
            },
            Expr::Logical { left, operator, right } => {
                let l = match self.evaluate(*left, arith) {
                    Ok(v) => v,
                    Err(e) => return Err(e),
                };
                if (operator.token_type == TokenType::OR) == Self::is_truthy(&l) {
                    Ok(l)
                } else {
                    self.evaluate(*right, arith)
                }
            },
        }
    }

    /// Applies a binary operator to two operand values.
    fn binary<F: Fn(NumOp) -> u64>(
        operator: &Token,
        left: LiteralValue,
        right: LiteralValue,
        arith: &F,
    ) -> (r: Result<LiteralValue, RuntimeError>)
        requires
            answers_all(*arith),
        ensures
            deterministic(*arith) || !binary_consults(operator@, left@, right@) ==> value_outcome(r)
                == binary_value(
                *arith,
                operator@,
                left@,
                right@,
            ),
    {
        let k = operator.token_type;
        if k == TokenType::PLUS {
            match (left, right) {
                (LiteralValue::Number(a), LiteralValue::Number(b)) => Ok(
                    LiteralValue::Number(ask(arith, NumOp::Add(a, b))),
                ),
                (LiteralValue::String(a), LiteralValue::String(b)) => {
                    let mut s = a;
                    s.append(b.as_str());
                    Ok(LiteralValue::String(s))
                },
                _ => Err(Self::error(operator, "Operands must be two numbers or two strings.")),
            }
        } else if k == TokenType::MINUS || k == TokenType::STAR || k == TokenType::SLASH {
            let (a, b) = match Self::expect_numbers(operator, &left, &right) {
                Ok(p) => p,
                Err(e) => return Err(e),
            };
            let q = if k == TokenType::MINUS {
                NumOp::Sub(a, b)
            } else if k == TokenType::STAR {
                NumOp::Mul(a, b)
            } else {
                NumOp::Div(a, b)
            };
            Ok(LiteralValue::Number(ask(arith, q)))
        } else if k == TokenType::GREATER || k == TokenType::GREATER_EQUAL || k == TokenType::LESS
            || k == TokenType::LESS_EQUAL {
            let (a, b) = match Self::expect_numbers(operator, &left, &right) {
                Ok(p) => p,
                Err(e) => return Err(e),
            };
            let result = if k == TokenType::GREATER {
                less(b, a)
            } else if k == TokenType::GREATER_EQUAL {
                less_eq(b, a)
            } else if k == TokenType::LESS {
                less(a, b)
            } else {
                less_eq(a, b)
            };
            Ok(LiteralValue::Boolean(result))
        } else if k == TokenType::EQUAL_EQUAL {
            Ok(LiteralValue::Boolean(Self::is_equal(&left, &right)))
        } else if k == TokenType::BANG_EQUAL {
            Ok(LiteralValue::Boolean(!Self::is_equal(&left, &right)))
        } else {
            Err(Self::error(operator, "Unknown operator."))
        }
    }

    /// Runs one statement, appending what it prints to `out`, and asking
    /// `arith` for arithmetic on doubles. A block's scope is gone afterwards,
    /// whether or not the block failed.
    pub fn run<F: Fn(NumOp) -> u64>(
        &mut self,
        statement: Statement,
        arith: &F,
        out: &mut Vec<LiteralValue>,
    ) -> (r: Result<(), RuntimeError>)
        requires
            answers_all(*arith),
            old(self).inv(),
        ensures
            final(self).inv(),
            final(self).env().len() == old(self).env().len(),
            old(out)@.len() <= final(out)@.len(),
            values_view(final(out)@).subrange(0, old(out)@.len() as int) == values_view(old(out)@),
            deterministic(*arith) || !consults_stmt(*arith, statement@, old(self).env()) ==> (
            unit_outcome(r), final(self).env(), values_view(final(out)@)) == ({
                let (res, env1, printed) = exec(*arith, statement@, old(self).env());
                (res, env1, values_view(old(out)@) + printed)
            }),
        decreases statement,
    {
        let ghost out0 = values_view(out@);
        let ghost st0 = statement;
        proof {
            self.environment.lemma_wf_has_scope();
        }
        match statement {
            Statement::Print(expr) => {
                let value = match self.evaluate(expr, arith) {
                    Ok(v) => v,
                    Err(e) => {
                        assert(values_view(out@) =~= out0 + Seq::<ValueView>::empty());
                        return Err(e);
                    },
                };
                out.push(value);
                assert(values_view(out@) =~= out0 + seq![out@.last()@]);
                Ok(())
            },
            Statement::Expression(expr) => {
                assert(values_view(out@) =~= out0 + Seq::<ValueView>::empty());
                match self.evaluate(expr, arith) {
                    Ok(_) => Ok(()),
                    Err(e) => Err(e),
                }
            },
            Statement::Var { name, initializer } => {
                assert(values_view(out@) =~= out0 + Seq::<ValueView>::empty());
                let value = match initializer {
                    Some(init) => match self.evaluate(init, arith) {
                        Ok(v) => v,
                        Err(e) => return Err(e),
                    },
                    None => LiteralValue::Nil,
                };
                self.environment.define(name.lexeme, value);
                Ok(())
            },
            Statement::Block(statements) => {
                proof {
                    assert(decreases_to!(st0 => st0->Block_0));
                }
                proof {
                    self.environment.lemma_wf_has_scope();
                }
                self.environment.push_scope();
                let r = self.run_program(statements, arith, out);
                self.environment.pop_scope();
                r
            },
            Statement::If { condition, then_branch, else_branch } => {
                let v = match self.evaluate(condition, arith) {
                    Ok(v) => v,
                    Err(e) => {
                        assert(values_view(out@) =~= out0 + Seq::<ValueView>::empty());
                        return Err(e);
                    },
                };
                if Self::is_truthy(&v) {
                    self.run(*then_branch, arith, out)
                } else {
                    match else_branch {
                        Some(b) => self.run(*b, arith, out),
                        None => {
                            assert(values_view(out@) =~= out0 + Seq::<ValueView>::empty());
                            Ok(())
                        },
                    }
                }
            },
        }
    }

    /// Runs `statements` in order in the current scopes, appending what they
    /// print to `out`, and stops at the first error.
    pub fn run_program<F: Fn(NumOp) -> u64>(
        &mut self,
        statements: Vec<Statement>,
        arith: &F,
        out: &mut Vec<LiteralValue>,
    ) -> (r: Result<(), RuntimeError>)
        requires
            answers_all(*arith),
            old(self).inv(),
        ensures
            final(self).inv(),
            final(self).env().len() == old(self).env().len(),
            old(out)@.len() <= final(out)@.len(),
            values_view(final(out)@).subrange(0, old(out)@.len() as int) == values_view(old(out)@),
            deterministic(*arith) || !consults_all(*arith, stmts_view(statements@), old(self).env())
                ==> (unit_outcome(r), final(self).env(), values_view(final(out)@)) == ({
                let (res, env1, printed) = exec_all(*arith, stmts_view(statements@), old(self).env());
                (res, env1, values_view(old(out)@) + printed)
            }),
        decreases statements,
    {
        let ghost out0 = values_view(out@);
        let ghost ss = statements@;
        let ghost sv = stmts_view(ss);
        let ghost vs = statements;
        proof {
            lemma_stmts_view(ss);
        }
        let ghost inner0 = self.env();
        let mut result: Result<(), RuntimeError> = Ok(());
        let ghost mut k: int = 0;
        proof {
            assert(sv.subrange(0, sv.len() as int) =~= sv);
            assert(values_view(out@).subrange(out0.len() as int, out@.len() as int) =~= Seq::<ValueView>::empty());
            let printed = exec_all(*arith, sv, inner0).2;
            assert(Seq::<ValueView>::empty() + printed =~= printed);
        }
        for s in it: statements.into_iter()
            invariant
                answers_all(*arith),
                it.seq() == ss,
                vs@ == ss,
                vs == statements,
                k == it.index(),
                0 <= k <= ss.len(),
                sv == stmts_view(ss),
                sv.len() == ss.len(),
                forall|i: int| 0 <= i < ss.len() ==> #[trigger] sv[i] == stmt_view(ss[i]),
                self.env().len() == inner0.len(),
                self.inv(),
                out0.len() <= out@.len(),
                values_view(out@).subrange(0, out0.len() as int) == out0,
                deterministic(*arith) || !consults_all(*arith, sv, inner0) ==> match result {
                    Ok(_) => (deterministic(*arith) || !consults_all(
                        *arith,
                        sv.subrange(k, sv.len() as int),
                        self.env(),
                    )) && exec_all(*arith, sv, inner0) == ({
                        let (res, env1, printed) = exec_all(
                            *arith,
                            sv.subrange(k, sv.len() as int),
                            self.env(),
                        );
                        (res, env1, values_view(out@).subrange(out0.len() as int, out@.len() as int) + printed)
                    }),
                    Err(e) => exec_all(*arith, sv, inner0) == (
                        Err::<(), RuntimeErrorView>(e@),
                        self.env(),
                        values_view(out@).subrange(out0.len() as int, out@.len() as int),
                    ),
                },
        {
            let ghost before = values_view(out@);
            let ghost envk = self.env();
            let ghost rest = sv.subrange(k, sv.len() as int);
            proof {
                assert(s == ss[k]);
                assert(decreases_to!(vs => vs@));
                assert(decreases_to!(vs@ => vs@[k]));
                assert(decreases_to!(vs => s));
                assert(rest[0] == stmt_view(s));
                assert(rest.drop_first() =~= sv.subrange(k + 1, sv.len() as int));
            }
            let ok = match result {
                Ok(()) => true,
                Err(_) => false,
            };
            if ok {
                match self.run(s, arith, out) {
                    Ok(()) => {},
                    Err(e) => {
                        result = Err(e);
                    },
                }
                proof {
                    assert(values_view(out@).subrange(0, out0.len() as int) =~= out0);
                    if deterministic(*arith) || !consults_all(*arith, sv, inner0) {
                        let (r1, env1, o1) = exec(*arith, rest[0], envk);
                        let vo = values_view(out@);
                        assert(vo == before + o1);
                        assert(vo.len() == out@.len());
                        let so_old = before.subrange(out0.len() as int, before.len() as int);
                        let so_new = vo.subrange(out0.len() as int, vo.len() as int);
                        assert forall|i: int| 0 <= i < so_new.len() implies so_new[i] == (so_old + o1)[i] by {
                            if i < so_old.len() {
                                assert(so_new[i] == vo[out0.len() + i]);
                            } else {
                                assert(so_new[i] == vo[out0.len() + i]);
                            }
                        }
                        assert(so_new =~= so_old + o1);
                        if r1 is Ok {
                            let (r2, env2, o2) = exec_all(*arith, rest.drop_first(), env1);
                            assert(so_old + (o1 + o2) =~= so_new + o2);
                        }
                    }
                }
            }
            proof {
                k = k + 1;
            }
        }
        assert(sv.subrange(k, sv.len() as int) =~= Seq::<StmtView>::empty());
        assert(values_view(out@) =~= out0 + values_view(out@).subrange(out0.len() as int, out@.len() as int));
        result
    }

    fn is_truthy(value: &LiteralValue) -> (r: bool)
        ensures
            r == truthy(value@),
    {
        match value {
            LiteralValue::Nil => false,
            LiteralValue::Boolean(b) => *b,
            _ => true,
        }
    }

    fn is_equal(left: &LiteralValue, right: &LiteralValue) -> (r: bool)
        ensures
            r == values_equal(left@, right@),
    {
        match (left, right) {
            (LiteralValue::Number(a), LiteralValue::Number(b)) => equal(*a, *b),
            (LiteralValue::Nil, LiteralValue::Nil) => true,
            (LiteralValue::Boolean(a), LiteralValue::Boolean(b)) => *a == *b,
            (LiteralValue::String(a), LiteralValue::String(b)) => *a == *b,
            _ => false,
        }
    }

    fn expect_number(operator: &Token, value: &LiteralValue) -> (r: Result<u64, RuntimeError>)
        ensures
            match value@ {
                ValueView::Number(n) => r == Ok::<u64, RuntimeError>(n),
                _ => r is Err && r->Err_0@ == rt_error(operator.line as nat, operand_message()),
            },
    {
        match value {
            LiteralValue::Number(n) => Ok(*n),
            _ => Err(Self::error(operator, "Operand must be a number.")),
        }
    }

    fn expect_numbers(operator: &Token, left: &LiteralValue, right: &LiteralValue) -> (r: Result<
        (u64, u64),
        RuntimeError,
    >)
        ensures
            match (left@, right@) {
                (ValueView::Number(a), ValueView::Number(b)) => r == Ok::<(u64, u64), RuntimeError>(
                    (a, b),
                ),
                _ => r is Err && r->Err_0@ == rt_error(operator.line as nat, operands_message()),
            },
    {
        match (left, right) {
            (LiteralValue::Number(l), LiteralValue::Number(r)) => Ok((*l, *r)),
            _ => Err(Self::error(operator, "Operands must be numbers.")),
        }
    }

    fn error(operator: &Token, message: &str) -> (r: RuntimeError)
        ensures
            r@ == rt_error(operator.line as nat, message@),
    {
        RuntimeError { line: operator.line, message: String::from_str(message) }
    }
}

fn undefined_string(name: &String) -> (r: String)
    ensures
        r@ == undefined_message(name@),
{
    crate::environment::undefined(name.as_str())
}

} // verus!
