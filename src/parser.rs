use vstd::prelude::*;
use vstd::string::StringExecFns;

use crate::ast::{stmts_view, Expr, ExprView, Literal, LiteralView, Statement, StmtView};
use crate::lexer::tokens_view;
use crate::text::{report, report_text};
use crate::token::{Token, TokenType, TokenView};

verus! {

/// A syntax error: the line and place of the offending token, and what was
/// expected there.
#[derive(Debug)]
pub struct ParseError {
    pub line: usize,
    pub location: String,
    pub message: String,
}

pub struct ParseErrorView {
    pub line: nat,
    pub location: Seq<char>,
    pub message: Seq<char>,
}

impl ParseError {
    /// The report of this error: `[line N] Error <location>: <message>`.
    pub fn to_string(&self) -> (r: String)
        ensures
            r@ == report_text(self.line as nat, " "@ + self.location@, self.message@),
    {
        let mut place = String::from_str(" ");
        place.append(self.location.as_str());
        report(self.line, place.as_str(), self.message.as_str())
    }
}

impl View for ParseError {
    type V = ParseErrorView;

    open spec fn view(&self) -> ParseErrorView {
        ParseErrorView { line: self.line as nat, location: self.location@, message: self.message@ }
    }
}

// ---------------------------------------------------------------------------
// The grammar, stated over a sequence of tokens. Each rule takes the position
// where it starts and gives either a tree and the position after it, or the
// error that ends the parse.
// ---------------------------------------------------------------------------

pub type ExprParse = Result<(ExprView, int), ParseErrorView>;

pub type StmtParse = Result<(StmtView, int), ParseErrorView>;

pub open spec fn kind_at(toks: Seq<TokenView>, i: int) -> TokenType {
    if 0 <= i < toks.len() {
        toks[i].kind
    } else {
        TokenType::EOF
    }
}

pub open spec fn at_end(toks: Seq<TokenView>, i: int) -> bool {
    kind_at(toks, i) == TokenType::EOF
}

pub open spec fn check(toks: Seq<TokenView>, i: int, k: TokenType) -> bool {
    !at_end(toks, i) && kind_at(toks, i) == k
}

/// Where an error is reported: at the end of input, or at a token's text.
pub open spec fn location_of(t: TokenView) -> Seq<char> {
    if t.kind == TokenType::EOF {
        "at end"@
    } else {
        "at '"@ + t.lexeme + "'"@
    }
}

pub open spec fn error_at(toks: Seq<TokenView>, i: int, message: Seq<char>) -> ParseErrorView {
    ParseErrorView { line: toks[i].line, location: location_of(toks[i]), message }
}

/// The result of a rule that did not move forward, which no rule gives.
pub open spec fn stalled() -> ParseErrorView {
    ParseErrorView { line: 0, location: Seq::empty(), message: Seq::empty() }
}

/// The operators of a binary precedence level. Levels run from 1, the
/// loosest (`or`), through `and`, equality, comparison and terms, to 6,
/// factors.
pub open spec fn level_op(level: nat, k: TokenType) -> bool {
    if level == 1 {
        k == TokenType::OR
    } else if level == 2 {
        k == TokenType::AND
    } else if level == 3 {
        k == TokenType::BANG_EQUAL || k == TokenType::EQUAL_EQUAL
    } else if level == 4 {
        k == TokenType::GREATER || k == TokenType::GREATER_EQUAL || k == TokenType::LESS || k
            == TokenType::LESS_EQUAL
    } else if level == 5 {
        k == TokenType::PLUS || k == TokenType::MINUS
    } else {
        k == TokenType::STAR || k == TokenType::SLASH
    }
}

pub open spec fn level_at(toks: Seq<TokenView>, i: int, level: nat) -> bool {
    !at_end(toks, i) && level_op(level, kind_at(toks, i))
}

/// The node that joins two operands at a level: `and` and `or` make logical
/// nodes, the other levels binary ones.
pub open spec fn join(level: nat, left: ExprView, operator: TokenView, right: ExprView) -> ExprView {
    if level <= 2 {
        ExprView::Logical { left: Box::new(left), operator, right: Box::new(right) }
    } else {
        ExprView::Binary { left: Box::new(left), operator, right: Box::new(right) }
    }
}

pub open spec fn clamp(level: nat) -> int {
    if level > 6 {
        6
    } else {
        level as int
    }
}

/// The kinds of token that can start a primary expression.
pub open spec fn starts_primary(k: TokenType) -> bool {
    k == TokenType::TRUE || k == TokenType::FALSE || k == TokenType::NIL || k == TokenType::NUMBER
        || k == TokenType::STRING || k == TokenType::LEFT_PAREN || k == TokenType::IDENTIFIER
}

/// The kinds of token that can start an expression.
pub open spec fn starts_expression(k: TokenType) -> bool {
    starts_primary(k) || k == TokenType::BANG || k == TokenType::MINUS
}

/// primary := "true" | "false" | "nil" | NUMBER | STRING | "(" expression ")" | IDENTIFIER
pub open spec fn primary(toks: Seq<TokenView>, p: int) -> ExprParse
    decreases toks.len() - p, 0int,
{
    let k = kind_at(toks, p);
    if at_end(toks, p) {
        Err(error_at(toks, p, "Expected expression"@))
    } else if k == TokenType::TRUE {
        Ok((ExprView::Literal(LiteralView::Boolean(true)), p + 1))
    } else if k == TokenType::FALSE {
        Ok((ExprView::Literal(LiteralView::Boolean(false)), p + 1))
    } else if k == TokenType::NIL {
        Ok((ExprView::Literal(LiteralView::Nil), p + 1))
    } else if k == TokenType::NUMBER {
        match toks[p].literal {
            Some(s) => Ok((ExprView::Literal(LiteralView::Number(s)), p + 1)),
            None => Err(error_at(toks, p, "Expected number literal"@)),
        }
    } else if k == TokenType::STRING {
        match toks[p].literal {
            Some(s) => Ok((ExprView::Literal(LiteralView::Str(s)), p + 1)),
            None => Err(error_at(toks, p, "Expected string literal"@)),
        }
    } else if k == TokenType::LEFT_PAREN {
        match assignment(toks, p + 1) {
            Err(e) => Err(e),
            Ok((inner, q)) => if check(toks, q, TokenType::RIGHT_PAREN) {
                Ok((ExprView::Grouping(Box::new(inner)), q + 1))
            } else {
                Err(error_at(toks, q, "Expect ')' after expression"@))
            },
        }
    } else if k == TokenType::IDENTIFIER {
        Ok((ExprView::Variable(toks[p]), p + 1))
    } else {
        Err(error_at(toks, p, "Expected expression"@))
    }
}

/// unary := ("!" | "-") unary | primary
pub open spec fn unary(toks: Seq<TokenView>, p: int) -> ExprParse
    decreases toks.len() - p, 1int,
{
    if check(toks, p, TokenType::BANG) || check(toks, p, TokenType::MINUS) {
        match unary(toks, p + 1) {
            Err(e) => Err(e),
            Ok((right, q)) => Ok((ExprView::Unary { operator: toks[p], right: Box::new(right) }, q)),
        }
    } else {
        primary(toks, p)
    }
}

/// What stands on either side of an operator of `level`: the next tighter
/// level, or a unary expression below the tightest.
pub open spec fn operand(toks: Seq<TokenView>, p: int, level: nat) -> ExprParse
    decreases toks.len() - p, 3 * (7 - clamp(level)) + 2,
{
    if level >= 6 {
        unary(toks, p)
    } else {
        binary(toks, p, level + 1)
    }
}

/// level := operand (op operand)*, grouped to the left.
pub open spec fn binary(toks: Seq<TokenView>, p: int, level: nat) -> ExprParse
    decreases toks.len() - p, 3 * (7 - clamp(level)) + 1,
{
    if level >= 6 {
        match unary(toks, p) {
            Err(e) => Err(e),
            Ok((first, q)) => if p <= q <= toks.len() {
                chain(toks, first, q, level)
            } else {
                Err(stalled())
            },
        }
    } else {
        match binary(toks, p, level + 1) {
            Err(e) => Err(e),
            Ok((first, q)) => if p <= q <= toks.len() {
                chain(toks, first, q, level)
            } else {
                Err(stalled())
            },
        }
    }
}

/// The rest of a level after `left`, which ends at `q`.
pub open spec fn chain(toks: Seq<TokenView>, left: ExprView, q: int, level: nat) -> ExprParse
    decreases toks.len() - q, 3 * (7 - clamp(level)),
{
    if level_at(toks, q, level) {
        match operand(toks, q + 1, level) {
            Err(e) => Err(e),
            Ok((right, r)) => if q < r <= toks.len() {
                chain(toks, join(level, left, toks[q], right), r, level)
            } else {
                Err(stalled())
            },
        }
    } else {
        Ok((left, q))
    }
}

/// assignment := IDENTIFIER "=" assignment | or, grouped to the right.
pub open spec fn assignment(toks: Seq<TokenView>, p: int) -> ExprParse
    decreases toks.len() - p, 21int,
{
    match binary(toks, p, 1) {
        Err(e) => Err(e),
        Ok((target, q)) => if check(toks, q, TokenType::EQUAL) {
            if p <= q {
                match assignment(toks, q + 1) {
                    Err(e) => Err(e),
                    Ok((value, r)) => match target {
                        ExprView::Variable(name) => Ok(
                            (ExprView::Assignment { name, value: Box::new(value) }, r),
                        ),
                        _ => Err(error_at(toks, r, "Invalid assignment target."@)),
                    },
                }
            } else {
                Err(stalled())
            }
        } else {
            Ok((target, q))
        },
    }
}

/// The statement `made` followed by the `;` that must end it at `q`.
pub open spec fn terminated(toks: Seq<TokenView>, made: StmtView, q: int, message: Seq<char>) -> StmtParse {
    if check(toks, q, TokenType::SEMICOLON) {
        Ok((made, q + 1))
    } else {
        Err(error_at(toks, q, message))
    }
}

/// print_statement := expression ";"   (after `print`)
pub open spec fn print_statement(toks: Seq<TokenView>, p: int) -> StmtParse {
    match assignment(toks, p) {
        Err(e) => Err(e),
        Ok((value, q)) => terminated(toks, StmtView::Print(value), q, "Expect ';' after value."@),
    }
}

/// expression_statement := expression ";"
pub open spec fn expression_statement(toks: Seq<TokenView>, p: int) -> StmtParse {
    match assignment(toks, p) {
        Err(e) => Err(e),
        Ok((expr, q)) => terminated(
            toks,
            StmtView::Expression(expr),
            q,
            "Expect ';' after expression."@,
        ),
    }
}

/// var_statement := IDENTIFIER ("=" expression)? ";"   (after `var`)
pub open spec fn var_statement(toks: Seq<TokenView>, p: int) -> StmtParse {
    if !check(toks, p, TokenType::IDENTIFIER) {
        Err(error_at(toks, p, "Expect variable name."@))
    } else if check(toks, p + 1, TokenType::EQUAL) {
        match assignment(toks, p + 2) {
            Err(e) => Err(e),
            Ok((init, q)) => terminated(
                toks,
                StmtView::Var { name: toks[p], initializer: Some(init) },
                q,
                "Expect ';' after variable declaration."@,
            ),
        }
    } else {
        terminated(
            toks,
            StmtView::Var { name: toks[p], initializer: None },
            p + 1,
            "Expect ';' after variable declaration."@,
        )
    }
}

/// statement := "print" print_statement | "var" var_statement
///            | "{" block | "if" if_statement | expression_statement
pub open spec fn statement(toks: Seq<TokenView>, p: int) -> StmtParse
    decreases toks.len() - p, 1int,
{
    if check(toks, p, TokenType::PRINT) {
        print_statement(toks, p + 1)
    } else if check(toks, p, TokenType::VAR) {
        var_statement(toks, p + 1)
    } else if check(toks, p, TokenType::LEFT_BRACE) {
        match block_from(toks, p + 1, Seq::empty()) {
            Err(e) => Err(e),
            Ok((stmts, q)) => Ok((StmtView::Block(stmts), q)),
        }
    } else if check(toks, p, TokenType::IF) {
        if_statement(toks, p + 1)
    } else {
        expression_statement(toks, p)
    }
}

/// block := statement* "}"   (after `{`), with `done` parsed before `p`.
pub open spec fn block_from(toks: Seq<TokenView>, p: int, done: Seq<StmtView>) -> Result<
    (Seq<StmtView>, int),
    ParseErrorView,
>
    decreases toks.len() - p, 2int,
{
    if !check(toks, p, TokenType::RIGHT_BRACE) && !at_end(toks, p) {
        match statement(toks, p) {
            Err(e) => Err(e),
            Ok((s, q)) => if p < q <= toks.len() {
                block_from(toks, q, done.push(s))
            } else {
                Err(stalled())
            },
        }
    } else if check(toks, p, TokenType::RIGHT_BRACE) {
        Ok((done, p + 1))
    } else {
        Err(error_at(toks, p, "Expect '}' after block."@))
    }
}

/// if_statement := "(" expression ")" statement ("else" statement)?   (after
/// `if`); an `else` belongs to the nearest `if` before it.
pub open spec fn if_statement(toks: Seq<TokenView>, p: int) -> StmtParse
    decreases toks.len() - p, 0int,
{
    if !check(toks, p, TokenType::LEFT_PAREN) {
        Err(error_at(toks, p, "Expect '(' after 'if'."@))
    } else {
        match assignment(toks, p + 1) {
            Err(e) => Err(e),
            Ok((condition, q)) => if !check(toks, q, TokenType::RIGHT_PAREN) {
                Err(error_at(toks, q, "Expect ')' after if condition."@))
            } else if p < q {
                match statement(toks, q + 1) {
                    Err(e) => Err(e),
                    Ok((then_branch, r)) => if check(toks, r, TokenType::ELSE) {
                        if q < r {
                            match statement(toks, r + 1) {
                                Err(e) => Err(e),
                                Ok((else_branch, t)) => Ok(
                                    (
                                        StmtView::If {
                                            condition,
                                            then_branch: Box::new(then_branch),
                                            else_branch: Some(Box::new(else_branch)),
                                        },
                                        t,
                                    ),
                                ),
                            }
                        } else {
                            Err(stalled())
                        }
                    } else {
                        Ok(
                            (
                                StmtView::If {
                                    condition,
                                    then_branch: Box::new(then_branch),
                                    else_branch: None,
                                },
                                r,
                            ),
                        )
                    },
                }
            } else {
                Err(stalled())
            },
        }
    }
}

/// program := statement* EOF, with `done` parsed before `p`.
pub open spec fn program_from(toks: Seq<TokenView>, p: int, done: Seq<StmtView>) -> Result<
    Seq<StmtView>,
    ParseErrorView,
>
    decreases toks.len() - p,
{
    if !at_end(toks, p) {
        match statement(toks, p) {
            Err(e) => Err(e),
            Ok((s, q)) => if p < q <= toks.len() {
                program_from(toks, q, done.push(s))
            } else {
                Err(stalled())
            },
        }
    } else {
        Ok(done)
    }
}

pub open spec fn stmt_outcome(r: Result<Statement, ParseError>, s: StmtParse, pos: int) -> bool {
    match s {
        Ok((st, q)) => r is Ok && r->Ok_0@ == st && pos == q,
        Err(err) => r is Err && r->Err_0@ == err,
    }
}

/// An executable outcome agrees with the grammar's: the same tree and the
/// same end position, or the same error.
pub open spec fn expr_outcome(r: Result<Expr, ParseError>, s: ExprParse, pos: int) -> bool {
    match s {
        Ok((e, q)) => r is Ok && r->Ok_0@ == e && pos == q,
        Err(err) => r is Err && r->Err_0@ == err,
    }
}


// ---------------------------------------------------------------------------
// Parentheses in parsed expressions.
// ---------------------------------------------------------------------------

/// How many of the tokens at positions `p..q` have kind `k`.
pub open spec fn count_kind(toks: Seq<TokenView>, p: int, q: int, k: TokenType) -> nat
    decreases q - p,
{
    if q <= p {
        0
    } else {
        count_kind(toks, p, q - 1, k) + if kind_at(toks, q - 1) == k {
            1nat
        } else {
            0nat
        }
    }
}

/// How many grouping nodes `e` holds.
pub open spec fn groupings(e: ExprView) -> nat
    decreases e,
{
    match e {
        ExprView::Binary { left, right, .. } => groupings(*left) + groupings(*right),
        ExprView::Logical { left, right, .. } => groupings(*left) + groupings(*right),
        ExprView::Literal(_) => 0,
        ExprView::Variable(_) => 0,
        ExprView::Grouping(inner) => groupings(*inner) + 1,
        ExprView::Unary { right, .. } => groupings(*right),
        ExprView::Assignment { value, .. } => groupings(*value),
    }
}

/// The tokens at `p..q` hold exactly `n` opening and `n` closing
/// parentheses.
pub open spec fn balanced(toks: Seq<TokenView>, p: int, q: int, n: nat) -> bool {
    &&& count_kind(toks, p, q, TokenType::LEFT_PAREN) == n
    &&& count_kind(toks, p, q, TokenType::RIGHT_PAREN) == n
}

proof fn lemma_count_split(toks: Seq<TokenView>, p: int, q: int, r: int, k: TokenType)
    requires
        p <= q <= r,
    ensures
        count_kind(toks, p, r, k) == count_kind(toks, p, q, k) + count_kind(toks, q, r, k),
    decreases r - q,
{
    if q < r {
        lemma_count_split(toks, p, q, r - 1, k);
    }
}

/// Joins the counts of three adjacent ranges.
proof fn lemma_balanced_join(toks: Seq<TokenView>, p: int, q: int, r: int, s: int, a: nat, b: nat, c: nat)
    requires
        p <= q <= r <= s,
        balanced(toks, p, q, a),
        balanced(toks, q, r, b),
        balanced(toks, r, s, c),
    ensures
        balanced(toks, p, s, a + b + c),
{
    lemma_count_split(toks, p, q, r, TokenType::LEFT_PAREN);
    lemma_count_split(toks, p, r, s, TokenType::LEFT_PAREN);
    lemma_count_split(toks, p, q, r, TokenType::RIGHT_PAREN);
    lemma_count_split(toks, p, r, s, TokenType::RIGHT_PAREN);
}

/// A single token that is no parenthesis.
proof fn lemma_plain_token(toks: Seq<TokenView>, p: int)
    requires
        kind_at(toks, p) != TokenType::LEFT_PAREN,
        kind_at(toks, p) != TokenType::RIGHT_PAREN,
    ensures
        balanced(toks, p, p + 1, 0),
{
    assert(count_kind(toks, p, p, TokenType::LEFT_PAREN) == 0);
    assert(count_kind(toks, p, p, TokenType::RIGHT_PAREN) == 0);
}

proof fn lemma_primary_balanced(toks: Seq<TokenView>, p: int)
    ensures
        primary(toks, p) matches Ok((e, q)) ==> p <= q && balanced(toks, p, q, groupings(e)),
    decreases toks.len() - p, 0int,
{
    let k = kind_at(toks, p);
    if !at_end(toks, p) && k == TokenType::LEFT_PAREN {
        lemma_assignment_balanced(toks, p + 1);
        if let Ok((inner, q)) = assignment(toks, p + 1) {
            if check(toks, q, TokenType::RIGHT_PAREN) {
                assert(count_kind(toks, p, p + 1, TokenType::LEFT_PAREN) == 1) by {
                    assert(count_kind(toks, p, p, TokenType::LEFT_PAREN) == 0);
                }
                assert(count_kind(toks, p, p + 1, TokenType::RIGHT_PAREN) == 0) by {
                    assert(count_kind(toks, p, p, TokenType::RIGHT_PAREN) == 0);
                }
                assert(count_kind(toks, q, q + 1, TokenType::LEFT_PAREN) == 0) by {
                    assert(count_kind(toks, q, q, TokenType::LEFT_PAREN) == 0);
                }
                assert(count_kind(toks, q, q + 1, TokenType::RIGHT_PAREN) == 1) by {
                    assert(count_kind(toks, q, q, TokenType::RIGHT_PAREN) == 0);
                }
                lemma_count_split(toks, p, p + 1, q, TokenType::LEFT_PAREN);
                lemma_count_split(toks, p, q, q + 1, TokenType::LEFT_PAREN);
                lemma_count_split(toks, p, p + 1, q, TokenType::RIGHT_PAREN);
                lemma_count_split(toks, p, q, q + 1, TokenType::RIGHT_PAREN);
            }
        }
    } else if k != TokenType::RIGHT_PAREN {
        lemma_plain_token(toks, p);
    }
}

proof fn lemma_unary_balanced(toks: Seq<TokenView>, p: int)
    ensures
        unary(toks, p) matches Ok((e, q)) ==> p <= q && balanced(toks, p, q, groupings(e)),
    decreases toks.len() - p, 1int,
{
    if check(toks, p, TokenType::BANG) || check(toks, p, TokenType::MINUS) {
        lemma_unary_balanced(toks, p + 1);
        if let Ok((right, q)) = unary(toks, p + 1) {
            lemma_plain_token(toks, p);
            assert(balanced(toks, p + 1, q, groupings(right)));
            lemma_balanced_join(toks, p, p + 1, q, q, 0, groupings(right), 0);
        }
    } else {
        lemma_primary_balanced(toks, p);
    }
}

proof fn lemma_operand_balanced(toks: Seq<TokenView>, p: int, level: nat)
    ensures
        operand(toks, p, level) matches Ok((e, q)) ==> p <= q && balanced(toks, p, q, groupings(e)),
    decreases toks.len() - p, 3 * (7 - clamp(level)) + 2,
{
    if level >= 6 {
        lemma_unary_balanced(toks, p);
    } else {
        lemma_binary_balanced(toks, p, level + 1);
    }
}

proof fn lemma_binary_balanced(toks: Seq<TokenView>, p: int, level: nat)
    ensures
        binary(toks, p, level) matches Ok((e, q)) ==> p <= q && balanced(toks, p, q, groupings(e)),
    decreases toks.len() - p, 3 * (7 - clamp(level)) + 1,
{
    let first = if level >= 6 {
        lemma_unary_balanced(toks, p);
        unary(toks, p)
    } else {
        lemma_binary_balanced(toks, p, level + 1);
        binary(toks, p, level + 1)
    };
    if let Ok((e, q)) = first {
        if p <= q <= toks.len() {
            lemma_chain_balanced(toks, e, q, level);
            if let Ok((e2, r)) = chain(toks, e, q, level) {
                assert(balanced(toks, q, r, (groupings(e2) - groupings(e)) as nat));
                lemma_balanced_join(toks, p, q, r, r, groupings(e), (groupings(e2) - groupings(e)) as nat, 0);
            }
        }
    }
}

proof fn lemma_chain_balanced(toks: Seq<TokenView>, left: ExprView, q: int, level: nat)
    ensures
        chain(toks, left, q, level) matches Ok((e, r)) ==> q <= r && groupings(left) <= groupings(e)
            && balanced(toks, q, r, (groupings(e) - groupings(left)) as nat),
    decreases toks.len() - q, 3 * (7 - clamp(level)),
{
    if level_at(toks, q, level) {
        lemma_operand_balanced(toks, q + 1, level);
        if let Ok((right, r)) = operand(toks, q + 1, level) {
            if q < r <= toks.len() {
                let joined = join(level, left, toks[q], right);
                assert(groupings(joined) == groupings(left) + groupings(right));
                lemma_chain_balanced(toks, joined, r, level);
                if let Ok((e, t)) = chain(toks, joined, r, level) {
                    lemma_plain_token(toks, q);
                    lemma_balanced_join(toks, q, q + 1, r, t, 0, groupings(right), (groupings(e) - groupings(joined)) as nat);
                }
            }
        }
    } else {
        assert(count_kind(toks, q, q, TokenType::LEFT_PAREN) == 0);
        assert(count_kind(toks, q, q, TokenType::RIGHT_PAREN) == 0);
    }
}

proof fn lemma_assignment_balanced(toks: Seq<TokenView>, p: int)
    ensures
        assignment(toks, p) matches Ok((e, q)) ==> p <= q && balanced(toks, p, q, groupings(e)),
    decreases toks.len() - p, 21int,
{
    lemma_binary_balanced(toks, p, 1);
    if let Ok((target, q)) = binary(toks, p, 1) {
        if check(toks, q, TokenType::EQUAL) && p <= q {
            lemma_assignment_balanced(toks, q + 1);
            if let Ok((value, r)) = assignment(toks, q + 1) {
                if target is Variable {
                    lemma_plain_token(toks, q);
                    lemma_balanced_join(toks, p, q, q + 1, r, groupings(target), 0, groupings(value));
                    assert(groupings(target) == 0);
                }
            }
        }
    }
}

/// Parentheses in a parsed expression are balanced: where an expression is
/// parsed from `p` to `q`, the tokens it took hold one `(` and one `)` for
/// each grouping in its tree, and no others; every other outcome is a parse
/// error.
pub proof fn lemma_groupings_balanced(toks: Seq<TokenView>, p: int)
    ensures
        assignment(toks, p) matches Ok((e, q)) ==> {
            &&& p <= q
            &&& count_kind(toks, p, q, TokenType::LEFT_PAREN) == groupings(e)
            &&& count_kind(toks, p, q, TokenType::RIGHT_PAREN) == groupings(e)
        },
{
    lemma_assignment_balanced(toks, p);
}

// ---------------------------------------------------------------------------
// The parser.
// ---------------------------------------------------------------------------

/// A recursive-descent parser over a token sequence that ends with the
/// end-of-input token.
#[derive(Debug)]
pub struct Parser {
    tokens: Vec<Token>,
    current: usize,
}

impl Parser {
    /// The tokens being parsed.
    pub closed spec fn tokens_seq(&self) -> Seq<TokenView> {
        tokens_view(self.tokens@)
    }

    /// The position of the next token.
    pub closed spec fn position(&self) -> int {
        self.current as int
    }

    pub closed spec fn inv(&self) -> bool {
        &&& self.tokens@.len() > 0
        &&& self.tokens@.last().token_type == TokenType::EOF
        &&& self.current < self.tokens@.len()
    }

    /// A parser at the first of `tokens`.
    pub fn new(tokens: Vec<Token>) -> (r: Self)
        requires
            tokens@.len() > 0,
            tokens@.last().token_type == TokenType::EOF,
        ensures
            r.inv(),
            r.tokens_seq() == tokens_view(tokens@),
            r.position() == 0,
    {
        Self { tokens, current: 0 }
    }

    /// Parses one expression from the current token.
    pub fn parse(&mut self) -> (r: Result<Expr, ParseError>)
        requires
            old(self).inv(),
        ensures
            final(self).inv(),
            final(self).tokens_seq() == old(self).tokens_seq(),
            expr_outcome(r, assignment(old(self).tokens_seq(), old(self).position()), final(self).position()),
            !starts_expression(kind_at(old(self).tokens_seq(), old(self).position())) ==> r is Err
                && final(self).position() == old(self).position(),
    {
        self.expression()
    }

    /// Parses statements up to the end of input, stopping at the first
    /// error.
    pub fn parse_statements(&mut self) -> (r: Result<Vec<Statement>, ParseError>)
        requires
            old(self).inv(),
        ensures
            final(self).inv(),
            final(self).tokens_seq() == old(self).tokens_seq(),
            match program_from(old(self).tokens_seq(), old(self).position(), Seq::empty()) {
                Ok(stmts) => r is Ok && stmts_view(r->Ok_0@) == stmts,
                Err(e) => r is Err && r->Err_0@ == e,
            },
    {
        let ghost toks = tokens_view(self.tokens@);
        let ghost begin = self.current as int;
        let mut statements: Vec<Statement> = Vec::new();
        while !self.is_at_end()
            invariant
                self.inv(),
                self.tokens@ == old(self).tokens@,
                toks == tokens_view(self.tokens@),
                begin == old(self).current,
                program_from(toks, begin, Seq::empty()) == program_from(
                    toks,
                    self.current as int,
                    stmts_view(statements@),
                ),
            decreases self.tokens@.len() - self.current,
        {
            let ghost before = statements@;
            let s = match self.statement() {
                Ok(s) => s,
                Err(e) => return Err(e),
            };
            statements.push(s);
            assert(statements@.drop_last() =~= before);
        }
        Ok(statements)
    }

    fn statement(&mut self) -> (r: Result<Statement, ParseError>)
        requires
            old(self).inv(),
        ensures
            final(self).inv(),
            final(self).tokens@ == old(self).tokens@,
            old(self).current <= final(self).current,
            stmt_outcome(r, statement(tokens_view(old(self).tokens@), old(self).current as int), final(self).current as int),
            r is Ok ==> old(self).current < final(self).current,
        decreases old(self).tokens@.len() - old(self).current, 1int,
    {
        if self.match_kind(TokenType::PRINT) {
            return self.print_statement();
        }
        if self.match_kind(TokenType::VAR) {
            return self.var_statement();
        }
        if self.match_kind(TokenType::LEFT_BRACE) {
            return match self.block() {
                Ok(stmts) => Ok(Statement::Block(stmts)),
                Err(e) => Err(e),
            };
        }
        if self.match_kind(TokenType::IF) {
            return self.if_statement();
        }
        self.expression_statement()
    }

    fn print_statement(&mut self) -> (r: Result<Statement, ParseError>)
        requires
            old(self).inv(),
        ensures
            final(self).inv(),
            final(self).tokens@ == old(self).tokens@,
            old(self).current <= final(self).current,
            stmt_outcome(r, print_statement(tokens_view(old(self).tokens@), old(self).current as int), final(self).current as int),
            r is Ok ==> old(self).current < final(self).current,
    {
        let value = match self.expression() {
            Ok(v) => v,
            Err(e) => return Err(e),
        };
        match self.consume(TokenType::SEMICOLON, "Expect ';' after value.") {
            Ok(()) => Ok(Statement::Print(value)),
            Err(e) => Err(e),
        }
    }

    fn expression_statement(&mut self) -> (r: Result<Statement, ParseError>)
        requires
            old(self).inv(),
        ensures
            final(self).inv(),
            final(self).tokens@ == old(self).tokens@,
            old(self).current <= final(self).current,
            stmt_outcome(r, expression_statement(tokens_view(old(self).tokens@), old(self).current as int), final(self).current as int),
            r is Ok ==> old(self).current < final(self).current,
    {
        let expr = match self.expression() {
            Ok(v) => v,
            Err(e) => return Err(e),
        };
        match self.consume(TokenType::SEMICOLON, "Expect ';' after expression.") {
            Ok(()) => Ok(Statement::Expression(expr)),
            Err(e) => Err(e),
        }
    }

    fn var_statement(&mut self) -> (r: Result<Statement, ParseError>)
        requires
            old(self).inv(),
        ensures
            final(self).inv(),
            final(self).tokens@ == old(self).tokens@,
            old(self).current <= final(self).current,
            stmt_outcome(r, var_statement(tokens_view(old(self).tokens@), old(self).current as int), final(self).current as int),
            r is Ok ==> old(self).current < final(self).current,
    {
        let name = self.tokens[self.current].cloned();
        match self.consume(TokenType::IDENTIFIER, "Expect variable name.") {
            Ok(()) => {},
            Err(e) => return Err(e),
        }
        let initializer = if self.check(TokenType::EQUAL) {
            self.advance();
            match self.expression() {
                Ok(e) => Some(e),
                Err(e) => return Err(e),
            }
        } else {
            None
        };
        match self.consume(TokenType::SEMICOLON, "Expect ';' after variable declaration.") {
            Ok(()) => Ok(Statement::Var { name, initializer }),
            Err(e) => Err(e),
        }
    }

    fn block(&mut self) -> (r: Result<Vec<Statement>, ParseError>)
        requires
            old(self).inv(),
        ensures
            final(self).inv(),
            final(self).tokens@ == old(self).tokens@,
            old(self).current <= final(self).current,
            match block_from(tokens_view(old(self).tokens@), old(self).current as int, Seq::empty()) {
                Ok((stmts, q)) => r is Ok && stmts_view(r->Ok_0@) == stmts && final(self).current == q,
                Err(e) => r is Err && r->Err_0@ == e,
            },
        decreases old(self).tokens@.len() - old(self).current, 2int,
    {
        let ghost toks = tokens_view(self.tokens@);
        let ghost begin = self.current as int;
        let mut statements: Vec<Statement> = Vec::new();
        while !self.check(TokenType::RIGHT_BRACE) && !self.is_at_end()
            invariant
                self.inv(),
                self.tokens@ == old(self).tokens@,
                toks == tokens_view(self.tokens@),
                begin == old(self).current,
                begin <= self.current,
                block_from(toks, begin, Seq::empty()) == block_from(
                    toks,
                    self.current as int,
                    stmts_view(statements@),
                ),
            decreases self.tokens@.len() - self.current,
        {
            let ghost before = statements@;
            let s = match self.statement() {
                Ok(s) => s,
                Err(e) => return Err(e),
            };
            statements.push(s);
            assert(statements@.drop_last() =~= before);
        }
        match self.consume(TokenType::RIGHT_BRACE, "Expect '}' after block.") {
            Ok(()) => Ok(statements),
            Err(e) => Err(e),
        }
    }

    fn if_statement(&mut self) -> (r: Result<Statement, ParseError>)
        requires
            old(self).inv(),
        ensures
            final(self).inv(),
            final(self).tokens@ == old(self).tokens@,
            old(self).current <= final(self).current,
            stmt_outcome(r, if_statement(tokens_view(old(self).tokens@), old(self).current as int), final(self).current as int),
            r is Ok ==> old(self).current < final(self).current,
        decreases old(self).tokens@.len() - old(self).current, 0int,
    {
        match self.consume(TokenType::LEFT_PAREN, "Expect '(' after 'if'.") {
            Ok(()) => {},
            Err(e) => return Err(e),
        }
        let condition = match self.expression() {
            Ok(e) => e,
            Err(e) => return Err(e),
        };
        match self.consume(TokenType::RIGHT_PAREN, "Expect ')' after if condition.") {
            Ok(()) => {},
            Err(e) => return Err(e),
        }
        let then_branch = match self.statement() {
            Ok(s) => Box::new(s),
            Err(e) => return Err(e),
        };
        let else_branch = if self.match_kind(TokenType::ELSE) {
            match self.statement() {
                Ok(s) => Some(Box::new(s)),
                Err(e) => return Err(e),
            }
        } else {
            None
        };
        Ok(Statement::If { condition, then_branch, else_branch })
    }

    fn expression(&mut self) -> (r: Result<Expr, ParseError>)
        requires
            old(self).inv(),
        ensures
            final(self).inv(),
            final(self).tokens@ == old(self).tokens@,
            old(self).current <= final(self).current,
            !starts_expression(kind_at(tokens_view(old(self).tokens@), old(self).current as int)) ==> r is Err && final(self).current == old(self).current,
            expr_outcome(r, assignment(tokens_view(old(self).tokens@), old(self).current as int), final(self).current as int),
        decreases old(self).tokens@.len() - old(self).current, 22int,
    {
        self.assignment()
    }

    fn assignment(&mut self) -> (r: Result<Expr, ParseError>)
        requires
            old(self).inv(),
        ensures
            final(self).inv(),
            final(self).tokens@ == old(self).tokens@,
            old(self).current <= final(self).current,
            !starts_expression(kind_at(tokens_view(old(self).tokens@), old(self).current as int)) ==> r is Err && final(self).current == old(self).current,
            expr_outcome(r, assignment(tokens_view(old(self).tokens@), old(self).current as int), final(self).current as int),
        decreases old(self).tokens@.len() - old(self).current, 21int,
    {
        let expr = match self.logical_or() {
            Ok(e) => e,
            Err(e) => return Err(e),
        };
        if self.match_kind(TokenType::EQUAL) {
            let value = match self.assignment() {
                Ok(v) => v,
                Err(e) => return Err(e),
            };
            match expr {
                Expr::Variable(name) => {
                    return Ok(Expr::Assignment { name, value: Box::new(value) });
                },
                _ => {
                    return Err(self.error("Invalid assignment target."));
                },
            }
        }
        Ok(expr)
    }

    fn logical_or(&mut self) -> (r: Result<Expr, ParseError>)
        requires
            old(self).inv(),
        ensures
            final(self).inv(),
            final(self).tokens@ == old(self).tokens@,
            old(self).current <= final(self).current,
            !starts_expression(kind_at(tokens_view(old(self).tokens@), old(self).current as int)) ==> r is Err && final(self).current == old(self).current,
            expr_outcome(r, binary(tokens_view(old(self).tokens@), old(self).current as int, 1), final(self).current as int),
        decreases old(self).tokens@.len() - old(self).current, 19int,
    {
        let first = match self.logical_and() {
            Ok(e) => e,
            Err(e) => return Err(e),
        };
        self.chain(first, 1)
    }

    fn logical_and(&mut self) -> (r: Result<Expr, ParseError>)
        requires
            old(self).inv(),
        ensures
            final(self).inv(),
            final(self).tokens@ == old(self).tokens@,
            old(self).current <= final(self).current,
            !starts_expression(kind_at(tokens_view(old(self).tokens@), old(self).current as int)) ==> r is Err && final(self).current == old(self).current,
            expr_outcome(r, binary(tokens_view(old(self).tokens@), old(self).current as int, 2), final(self).current as int),
        decreases old(self).tokens@.len() - old(self).current, 16int,
    {
        let first = match self.equality() {
            Ok(e) => e,
            Err(e) => return Err(e),
        };
        self.chain(first, 2)
    }

    fn equality(&mut self) -> (r: Result<Expr, ParseError>)
        requires
            old(self).inv(),
        ensures
            final(self).inv(),
            final(self).tokens@ == old(self).tokens@,
            old(self).current <= final(self).current,
            !starts_expression(kind_at(tokens_view(old(self).tokens@), old(self).current as int)) ==> r is Err && final(self).current == old(self).current,
            expr_outcome(r, binary(tokens_view(old(self).tokens@), old(self).current as int, 3), final(self).current as int),
        decreases old(self).tokens@.len() - old(self).current, 13int,
    {
        let first = match self.comparison() {
            Ok(e) => e,
            Err(e) => return Err(e),
        };
        self.chain(first, 3)
    }

    fn comparison(&mut self) -> (r: Result<Expr, ParseError>)
        requires
            old(self).inv(),
        ensures
            final(self).inv(),
            final(self).tokens@ == old(self).tokens@,
            old(self).current <= final(self).current,
            !starts_expression(kind_at(tokens_view(old(self).tokens@), old(self).current as int)) ==> r is Err && final(self).current == old(self).current,
            expr_outcome(r, binary(tokens_view(old(self).tokens@), old(self).current as int, 4), final(self).current as int),
        decreases old(self).tokens@.len() - old(self).current, 10int,
    {
        let first = match self.term() {
            Ok(e) => e,
            Err(e) => return Err(e),
        };
        self.chain(first, 4)
    }

    fn term(&mut self) -> (r: Result<Expr, ParseError>)
        requires
            old(self).inv(),
        ensures
            final(self).inv(),
            final(self).tokens@ == old(self).tokens@,
            old(self).current <= final(self).current,
            !starts_expression(kind_at(tokens_view(old(self).tokens@), old(self).current as int)) ==> r is Err && final(self).current == old(self).current,
            expr_outcome(r, binary(tokens_view(old(self).tokens@), old(self).current as int, 5), final(self).current as int),
        decreases old(self).tokens@.len() - old(self).current, 7int,
    {
        let first = match self.factor() {
            Ok(e) => e,
            Err(e) => return Err(e),
        };
        self.chain(first, 5)
    }

    fn factor(&mut self) -> (r: Result<Expr, ParseError>)
        requires
            old(self).inv(),
        ensures
            final(self).inv(),
            final(self).tokens@ == old(self).tokens@,
            old(self).current <= final(self).current,
            !starts_expression(kind_at(tokens_view(old(self).tokens@), old(self).current as int)) ==> r is Err && final(self).current == old(self).current,
            expr_outcome(r, binary(tokens_view(old(self).tokens@), old(self).current as int, 6), final(self).current as int),
        decreases old(self).tokens@.len() - old(self).current, 4int,
    {
        let first = match self.unary() {
            Ok(e) => e,
            Err(e) => return Err(e),
        };
        self.chain(first, 6)
    }

    /// Parses the operand of an operator of `level`.
    fn operand(&mut self, level: u8) -> (r: Result<Expr, ParseError>)
        requires
            old(self).inv(),
            1 <= level <= 6,
        ensures
            final(self).inv(),
            final(self).tokens@ == old(self).tokens@,
            old(self).current <= final(self).current,
            !starts_expression(kind_at(tokens_view(old(self).tokens@), old(self).current as int)) ==> r is Err && final(self).current == old(self).current,
            expr_outcome(r, operand(tokens_view(old(self).tokens@), old(self).current as int, level as nat), final(self).current as int),
        decreases old(self).tokens@.len() - old(self).current, 3 * (7 - level) + 2,
    {
        if level >= 6 {
            self.unary()
        } else if level == 5 {
            self.factor()
        } else if level == 4 {
            self.term()
        } else if level == 3 {
            self.comparison()
        } else if level == 2 {
            self.equality()
        } else {
            self.logical_and()
        }
    }

    /// Continues a level whose first operand `first` has been parsed:
    /// operators of `level` and their operands, grouped to the left.
    fn chain(&mut self, first: Expr, level: u8) -> (r: Result<Expr, ParseError>)
        requires
            old(self).inv(),
            1 <= level <= 6,
        ensures
            final(self).inv(),
            final(self).tokens@ == old(self).tokens@,
            old(self).current <= final(self).current,
            expr_outcome(r, chain(tokens_view(old(self).tokens@), first@, old(self).current as int, level as nat), final(self).current as int),
        decreases old(self).tokens@.len() - old(self).current, 3 * (7 - level),
    {
        let ghost toks = tokens_view(self.tokens@);
        let ghost q0 = self.current as int;
        let mut expr = first;
        while self.match_level(level)
            invariant
                self.inv(),
                self.tokens@ == old(self).tokens@,
                toks == tokens_view(self.tokens@),
                1 <= level <= 6,
                q0 <= self.current,
                q0 == old(self).current,
                chain(toks, first@, q0, level as nat) == chain(toks, expr@, self.current as int, level as nat),
            decreases self.tokens@.len() - self.current,
        {
            let operator = self.tokens[self.current - 1].cloned();
            let right = match self.operand(level) {
                Ok(r) => r,
                Err(e) => return Err(e),
            };
            if level <= 2 {
                expr = Expr::Logical { left: Box::new(expr), operator, right: Box::new(right) };
            } else {
                expr = Expr::Binary { left: Box::new(expr), operator, right: Box::new(right) };
            }
        }
        Ok(expr)
    }

    fn unary(&mut self) -> (r: Result<Expr, ParseError>)
        requires
            old(self).inv(),
        ensures
            final(self).inv(),
            final(self).tokens@ == old(self).tokens@,
            old(self).current <= final(self).current,
            !starts_expression(kind_at(tokens_view(old(self).tokens@), old(self).current as int)) ==> r is Err && final(self).current == old(self).current,
            expr_outcome(r, unary(tokens_view(old(self).tokens@), old(self).current as int), final(self).current as int),
        decreases old(self).tokens@.len() - old(self).current, 1int,
    {
        if self.match_either(TokenType::BANG, TokenType::MINUS) {
            let operator = self.tokens[self.current - 1].cloned();
            let right = match self.unary() {
                Ok(r) => r,
                Err(e) => return Err(e),
            };
            return Ok(Expr::Unary { operator, right: Box::new(right) });
        }
        self.primary()
    }

    fn primary(&mut self) -> (r: Result<Expr, ParseError>)
        requires
            old(self).inv(),
        ensures
            final(self).inv(),
            final(self).tokens@ == old(self).tokens@,
            old(self).current <= final(self).current,
            !starts_primary(kind_at(tokens_view(old(self).tokens@), old(self).current as int)) ==> r is Err && final(self).current == old(self).current,
            expr_outcome(r, primary(tokens_view(old(self).tokens@), old(self).current as int), final(self).current as int),
        decreases old(self).tokens@.len() - old(self).current, 0int,
    {
        if self.is_at_end() {
            return Err(self.error("Expected expression"));
        }
        let kind = self.tokens[self.current].token_type;
        let expr = if kind == TokenType::TRUE {
            Expr::Literal(Literal::Boolean(true))
        } else if kind == TokenType::FALSE {
            Expr::Literal(Literal::Boolean(false))
        } else if kind == TokenType::NIL {
            Expr::Literal(Literal::Nil)
        } else if kind == TokenType::NUMBER {
            match &self.tokens[self.current].literal {
                Some(s) => Expr::Literal(Literal::Number(s.clone())),
                None => return Err(self.error("Expected number literal")),
            }
        } else if kind == TokenType::STRING {
            match &self.tokens[self.current].literal {
                Some(s) => Expr::Literal(Literal::Str(s.clone())),
                None => return Err(self.error("Expected string literal")),
            }
        } else if kind == TokenType::LEFT_PAREN {
            self.advance();
            let inner = match self.expression() {
                Ok(e) => e,
                Err(e) => return Err(e),
            };
            match self.consume(TokenType::RIGHT_PAREN, "Expect ')' after expression") {
                Ok(()) => {},
                Err(e) => return Err(e),
            }
            return Ok(Expr::Grouping(Box::new(inner)));
        } else if kind == TokenType::IDENTIFIER {
            let name = self.tokens[self.current].cloned();
            self.advance();
            return Ok(Expr::Variable(name));
        } else {
            return Err(self.error("Expected expression"));
        };
        self.advance();
        Ok(expr)
    }

    // --- Navigation ---

    fn advance(&mut self)
        requires
            old(self).inv(),
        ensures
            final(self).inv(),
            final(self).tokens@ == old(self).tokens@,
            final(self).current == if at_end(tokens_view(old(self).tokens@), old(self).current as int) {
                old(self).current as int
            } else {
                old(self).current + 1
            },
    {
        if !self.is_at_end() && self.current < self.tokens.len() {
            self.current = self.current + 1;
        }
    }

    fn is_at_end(&self) -> (r: bool)
        requires
            self.inv(),
        ensures
            r == at_end(tokens_view(self.tokens@), self.current as int),
            !r ==> self.current + 1 < self.tokens@.len(),
    {
        self.tokens[self.current].token_type == TokenType::EOF
    }

    fn check(&self, token_type: TokenType) -> (r: bool)
        requires
            self.inv(),
        ensures
            r == check(tokens_view(self.tokens@), self.current as int, token_type),
    {
        !self.is_at_end() && self.tokens[self.current].token_type == token_type
    }

    fn match_kind(&mut self, token_type: TokenType) -> (r: bool)
        requires
            old(self).inv(),
        ensures
            final(self).inv(),
            final(self).tokens@ == old(self).tokens@,
            r == check(tokens_view(old(self).tokens@), old(self).current as int, token_type),
            final(self).current == old(self).current + if r {
                1int
            } else {
                0int
            },
    {
        if self.check(token_type) {
            self.advance();
            return true;
        }
        false
    }

    fn match_either(&mut self, a: TokenType, b: TokenType) -> (r: bool)
        requires
            old(self).inv(),
        ensures
            final(self).inv(),
            final(self).tokens@ == old(self).tokens@,
            r == (check(tokens_view(old(self).tokens@), old(self).current as int, a) || check(
                tokens_view(old(self).tokens@),
                old(self).current as int,
                b,
            )),
            final(self).current == old(self).current + if r {
                1int
            } else {
                0int
            },
    {
        if self.check(a) || self.check(b) {
            self.advance();
            return true;
        }
        false
    }

    /// Takes the next token if it is an operator of `level`.
    fn match_level(&mut self, level: u8) -> (r: bool)
        requires
            old(self).inv(),
            1 <= level <= 6,
        ensures
            final(self).inv(),
            final(self).tokens@ == old(self).tokens@,
            r == level_at(tokens_view(old(self).tokens@), old(self).current as int, level as nat),
            final(self).current == old(self).current + if r {
                1int
            } else {
                0int
            },
    {
        if level == 1 {
            self.match_kind(TokenType::OR)
        } else if level == 2 {
            self.match_kind(TokenType::AND)
        } else if level == 3 {
            self.match_either(TokenType::BANG_EQUAL, TokenType::EQUAL_EQUAL)
        } else if level == 4 {
            self.match_either(TokenType::GREATER, TokenType::GREATER_EQUAL) || self.match_either(
                TokenType::LESS,
                TokenType::LESS_EQUAL,
            )
        } else if level == 5 {
            self.match_either(TokenType::PLUS, TokenType::MINUS)
        } else {
            self.match_either(TokenType::STAR, TokenType::SLASH)
        }
    }

    // --- Errors ---

    /// Takes the next token if it has kind `token_type`, else fails with
    /// `message` at that token.
    fn consume(&mut self, token_type: TokenType, message: &str) -> (r: Result<(), ParseError>)
        requires
            old(self).inv(),
        ensures
            final(self).inv(),
            final(self).tokens@ == old(self).tokens@,
            r is Ok <==> check(tokens_view(old(self).tokens@), old(self).current as int, token_type),
            r is Ok ==> final(self).current == old(self).current + 1,
            r is Err ==> r->Err_0@ == error_at(tokens_view(old(self).tokens@), old(self).current as int, message@),
            r is Err ==> final(self).current == old(self).current,
    {
        if self.check(token_type) {
            self.advance();
            Ok(())
        } else {
            Err(self.error(message))
        }
    }

    /// An error at the next token.
    fn error(&self, message: &str) -> (r: ParseError)
        requires
            self.inv(),
        ensures
            r@ == error_at(tokens_view(self.tokens@), self.current as int, message@),
    {
        let token = &self.tokens[self.current];
        let location = if token.token_type == TokenType::EOF {
            String::from_str("at end")
        } else {
            let mut l = String::from_str("at '");
            l.append(token.lexeme.as_str());
            l.append("'");
            l
        };
        ParseError { line: token.line, location, message: String::from_str(message) }
    }
}

} // verus!
