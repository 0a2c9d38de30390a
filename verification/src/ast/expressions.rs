//! Expression parsing: primaries, precedence climbing, and their
//! mathematical model.
//!
//! The spec functions in this file define, token by token, which tree an
//! expression parse builds, how many tokens it consumes, and which failure
//! it reports. The executable parsers are proved to return exactly what
//! the model says.

use vstd::prelude::*;

use crate::ast::{lemma_exprs_view_push, BinaryExpr, CallExpr, ErrV, ExprV, Expression, ParseError,
    TokenCursor, exprs_view, msg_of};
use crate::lexer::{Token, TokenV};

verus! {

/// The precedence of a binary operator character, or `-1` for any other
/// character. The three operators in increasing order of importance:
/// `-`, `+`, `*`; the precedence is the position in that list.
pub open spec fn spec_prec(c: char) -> int {
    if c == '-' {
        0
    } else if c == '+' {
        1
    } else if c == '*' {
        2
    } else {
        -1
    }
}

/// The precedence of a token: `-1` unless it is a binary operator.
pub open spec fn tok_prec(t: TokenV) -> int {
    match t {
        TokenV::Operator(c) => spec_prec(c),
        _ => -1,
    }
}

/// How many tokens remain from position `pos` on.
pub open spec fn rem_toks(toks: Seq<TokenV>, pos: int) -> nat {
    if 0 <= pos <= toks.len() {
        (toks.len() - pos) as nat
    } else {
        0
    }
}

/// What parsing an identifier primary at `pos` yields: a call when an
/// opening parenthesis follows the identifier, otherwise a variable.
/// On success: the tree and the number of tokens consumed.
pub open spec fn spec_parse_identifier(toks: Seq<TokenV>, pos: int) -> Result<(ExprV, nat), ErrV>
    decreases rem_toks(toks, pos), 0int,
{
    if !(0 <= pos < toks.len()) {
        Err(ErrV::ExpectedIdentifier)
    } else {
        match toks[pos] {
            TokenV::Identifier(name) => {
                if pos + 1 < toks.len() && toks[pos + 1] == TokenV::Operator('(') {
                    if pos + 2 < toks.len() && toks[pos + 2] == TokenV::Operator(')') {
                        Ok((ExprV::Call { callee: name, args: Seq::empty() }, 3))
                    } else {
                        match spec_parse_args(toks, pos + 2, Seq::empty()) {
                            Err(e) => Err(e),
                            Ok((args, n)) => Ok(
                                (ExprV::Call { callee: name, args }, (2 + n) as nat),
                            ),
                        }
                    }
                } else {
                    Ok((ExprV::Variable(name), 1))
                }
            },
            _ => Err(ErrV::ExpectedIdentifier),
        }
    }
}

/// What parsing a non-empty call-argument list at `pos` yields: the
/// expressions between the commas, in order, appended to `acc`; the
/// closing parenthesis is consumed. Anything but `,` or `)` after an
/// argument is a failure.
pub open spec fn spec_parse_args(toks: Seq<TokenV>, pos: int, acc: Seq<ExprV>) -> Result<
    (Seq<ExprV>, nat),
    ErrV,
>
    decreases rem_toks(toks, pos), 4int,
{
    if !(0 <= pos <= toks.len()) {
        Err(ErrV::UnknownToken)
    } else {
        match spec_parse_expression(toks, pos) {
            Err(e) => Err(e),
            Ok((e, n)) => {
                let q = pos + n;
                if !(0 <= q < toks.len()) {
                    Err(ErrV::ExpectedCommaOrClose)
                } else if toks[q] == TokenV::Operator(')') {
                    Ok((acc.push(e), (n + 1) as nat))
                } else if toks[q] == TokenV::Operator(',') {
                    match spec_parse_args(toks, q + 1, acc.push(e)) {
                        Err(e2) => Err(e2),
                        Ok((es, m)) => Ok((es, (n + 1 + m) as nat)),
                    }
                } else {
                    Err(ErrV::ExpectedCommaOrClose)
                }
            },
        }
    }
}

/// What parsing a primary expression at `pos` yields: a number, an
/// identifier primary, or a parenthesized expression, which contributes
/// its inner tree without a node of its own.
pub open spec fn spec_parse_primary(toks: Seq<TokenV>, pos: int) -> Result<(ExprV, nat), ErrV>
    decreases rem_toks(toks, pos), 1int,
{
    if !(0 <= pos < toks.len()) {
        Err(ErrV::UnknownToken)
    } else {
        match toks[pos] {
            TokenV::Identifier(_) => spec_parse_identifier(toks, pos),
            TokenV::Number(text) => Ok((ExprV::Number(text), 1)),
            TokenV::Operator(c) => {
                if c == '(' {
                    match spec_parse_expression(toks, pos + 1) {
                        Err(e) => Err(e),
                        Ok((e, n)) => {
                            let q = pos + 1 + n;
                            if 0 <= q < toks.len() && toks[q] == TokenV::Operator(')') {
                                Ok((e, (n + 2) as nat))
                            } else {
                                Err(ErrV::ExpectedClose)
                            }
                        },
                    }
                } else {
                    Err(ErrV::UnknownToken)
                }
            },
            _ => Err(ErrV::UnknownToken),
        }
    }
}

/// What precedence climbing at `pos` yields, starting from the tree `lhs`
/// and consuming only operators of precedence at least `min_prec`: zero or
/// more `<operator> <primary>` pairs folded onto `lhs`, left-associatively
/// for equal precedence, with a tighter-binding operator first folded into
/// the right operand. The first operator below the threshold, and anything
/// that is no binary operator, is left unconsumed.
pub open spec fn spec_parse_binop(
    toks: Seq<TokenV>,
    pos: int,
    lhs: ExprV,
    min_prec: int,
) -> Result<(ExprV, nat), ErrV>
    decreases rem_toks(toks, pos), 2int,
{
    if !(0 <= pos < toks.len()) {
        Ok((lhs, 0))
    } else {
        match toks[pos] {
            TokenV::Operator(c) => {
                if spec_prec(c) >= 0 && spec_prec(c) >= min_prec {
                    let p = spec_prec(c);
                    match spec_parse_primary(toks, pos + 1) {
                        Err(e) => Err(e),
                        Ok((rhs, n)) => {
                            let q = pos + 1 + n;
                            let climbed = if 0 <= q < toks.len() && tok_prec(toks[q]) > p {
                                spec_parse_binop(toks, q, rhs, p + 1)
                            } else {
                                Ok((rhs, 0))
                            };
                            match climbed {
                                Err(e) => Err(e),
                                Ok((rhs2, m)) => {
                                    let folded = ExprV::Binary {
                                        op: c,
                                        lhs: Box::new(lhs),
                                        rhs: Box::new(rhs2),
                                    };
                                    match spec_parse_binop(toks, q + m, folded, min_prec) {
                                        Err(e) => Err(e),
                                        Ok((e, k)) => Ok((e, (1 + n + m + k) as nat)),
                                    }
                                },
                            }
                        },
                    }
                } else {
                    Ok((lhs, 0))
                }
            },
            _ => Ok((lhs, 0)),
        }
    }
}

/// What parsing a whole expression at `pos` yields: one primary, then
/// precedence climbing from the lowest threshold.
pub open spec fn spec_parse_expression(toks: Seq<TokenV>, pos: int) -> Result<(ExprV, nat), ErrV>
    decreases rem_toks(toks, pos), 3int,
{
    if !(0 <= pos <= toks.len()) {
        Err(ErrV::UnknownToken)
    } else {
        match spec_parse_primary(toks, pos) {
            Err(e) => Err(e),
            Ok((lhs, n)) => match spec_parse_binop(toks, pos + n, lhs, 0) {
                Err(e) => Err(e),
                Ok((e, m)) => Ok((e, (n + m) as nat)),
            },
        }
    }
}

/// The outcome `r` with `d` more consumed tokens on account of what a
/// caller consumed before it.
pub open spec fn add_used(r: Result<(ExprV, nat), ErrV>, d: nat) -> Result<(ExprV, nat), ErrV> {
    match r {
        Ok((e, n)) => Ok((e, (n + d) as nat)),
        Err(k) => Err(k),
    }
}

/// As [`add_used`], for an argument-list outcome.
pub open spec fn add_used_args(r: Result<(Seq<ExprV>, nat), ErrV>, d: nat) -> Result<
    (Seq<ExprV>, nat),
    ErrV,
> {
    match r {
        Ok((es, n)) => Ok((es, (n + d) as nat)),
        Err(k) => Err(k),
    }
}

/// What every parser promises: on success the returned tree and the new
/// cursor position are exactly what the model `spec_r` says; on failure
/// the error carries exactly the message the model says. The token
/// sequence itself never changes.
pub open spec fn parse_post(
    t0: TokenCursor,
    t1: TokenCursor,
    r: Result<Expression, ParseError>,
    spec_r: Result<(ExprV, nat), ErrV>,
) -> bool {
    &&& t1.wf()
    &&& t1.toks_v() == t0.toks_v()
    &&& match spec_r {
        Ok((e, n)) => r matches Ok(expr) && expr@ == e && t1.at() == t0.at() + n,
        Err(k) => r matches Err(pe) && pe@ == msg_of(k),
    }
}

/// An identifier primary consumes at least one token and stays in bounds.
pub proof fn lemma_identifier_progress(toks: Seq<TokenV>, pos: int)
    ensures
        spec_parse_identifier(toks, pos) matches Ok((e, n)) ==> 1 <= n && pos + n <= toks.len(),
    decreases rem_toks(toks, pos), 0int,
{
    if 0 <= pos < toks.len() && toks[pos] is Identifier {
        if pos + 1 < toks.len() && toks[pos + 1] == TokenV::Operator('(') {
            if !(pos + 2 < toks.len() && toks[pos + 2] == TokenV::Operator(')')) {
                lemma_args_progress(toks, pos + 2, Seq::empty());
            }
        }
    }
}

/// An argument list consumes at least one token and stays in bounds.
pub proof fn lemma_args_progress(toks: Seq<TokenV>, pos: int, acc: Seq<ExprV>)
    ensures
        spec_parse_args(toks, pos, acc) matches Ok((es, n)) ==> 1 <= n && pos + n <= toks.len(),
    decreases rem_toks(toks, pos), 4int,
{
    if 0 <= pos <= toks.len() {
        lemma_expression_progress(toks, pos);
        match spec_parse_expression(toks, pos) {
            Ok((e, n)) => {
                let q = pos + n;
                if 0 <= q < toks.len() && toks[q] == TokenV::Operator(',') {
                    lemma_args_progress(toks, q + 1, acc.push(e));
                }
            },
            _ => {},
        }
    }
}

/// A primary consumes at least one token and stays in bounds.
pub proof fn lemma_primary_progress(toks: Seq<TokenV>, pos: int)
    ensures
        spec_parse_primary(toks, pos) matches Ok((e, n)) ==> 1 <= n && pos + n <= toks.len(),
    decreases rem_toks(toks, pos), 1int,
{
    if 0 <= pos < toks.len() {
        match toks[pos] {
            TokenV::Identifier(_) => lemma_identifier_progress(toks, pos),
            TokenV::Operator(c) => {
                if c == '(' {
                    lemma_expression_progress(toks, pos + 1);
                }
            },
            _ => {},
        }
    }
}

/// Precedence climbing never reads past the end of the tokens.
pub proof fn lemma_binop_progress(toks: Seq<TokenV>, pos: int, lhs: ExprV, min_prec: int)
    requires
        0 <= pos <= toks.len(),
    ensures
        spec_parse_binop(toks, pos, lhs, min_prec) matches Ok((e, n)) ==> pos + n <= toks.len(),
    decreases rem_toks(toks, pos), 2int,
{
    if 0 <= pos < toks.len() {
        match toks[pos] {
            TokenV::Operator(c) => {
                if spec_prec(c) >= 0 && spec_prec(c) >= min_prec {
                    let p = spec_prec(c);
                    lemma_primary_progress(toks, pos + 1);
                    match spec_parse_primary(toks, pos + 1) {
                        Ok((rhs, n)) => {
                            let q = pos + 1 + n;
                            if 0 <= q < toks.len() && tok_prec(toks[q]) > p {
                                lemma_binop_progress(toks, q, rhs, p + 1);
                            }
                            let climbed = if 0 <= q < toks.len() && tok_prec(toks[q]) > p {
                                spec_parse_binop(toks, q, rhs, p + 1)
                            } else {
                                Ok((rhs, 0))
                            };
                            match climbed {
                                Ok((rhs2, m)) => {
                                    let folded = ExprV::Binary {
                                        op: c,
                                        lhs: Box::new(lhs),
                                        rhs: Box::new(rhs2),
                                    };
                                    lemma_binop_progress(toks, q + m, folded, min_prec);
                                },
                                _ => {},
                            }
                        },
                        _ => {},
                    }
                }
            },
            _ => {},
        }
    }
}

/// An expression consumes at least one token and stays in bounds.
pub proof fn lemma_expression_progress(toks: Seq<TokenV>, pos: int)
    ensures
        spec_parse_expression(toks, pos) matches Ok((e, n)) ==> 1 <= n && pos + n <= toks.len(),
    decreases rem_toks(toks, pos), 3int,
{
    if 0 <= pos <= toks.len() {
        lemma_primary_progress(toks, pos);
        match spec_parse_primary(toks, pos) {
            Ok((lhs, n)) => {
                lemma_binop_progress(toks, pos + n, lhs, 0);
            },
            _ => {},
        }
    }
}


/// Is the lookahead a binary operator token?
fn is_binary_operator(token: Option<&Token>) -> (r: bool)
    ensures
        r == (match token {
            Some(t) => tok_prec(t@) >= 0,
            None => false,
        }),
{
    match token {
        Some(Token::Operator(op)) => *op == '-' || *op == '+' || *op == '*',
        _ => false,
    }
}

/// The precedence of a binary operator token, `None` for anything else.
fn get_binary_operator_precedence(token: &Token) -> (r: Option<usize>)
    ensures
        r == (if tok_prec(token@) >= 0 {
            Some(tok_prec(token@) as usize)
        } else {
            None::<usize>
        }),
{
    match token {
        Token::Operator(op) => {
            if *op == '-' {
                Some(0)
            } else if *op == '+' {
                Some(1)
            } else if *op == '*' {
                Some(2)
            } else {
                None
            }
        },
        _ => None,
    }
}

/// The character an operator token holds, `None` for anything else.
fn get_operator_char(token: &Token) -> (r: Option<char>)
    ensures
        r == (match token@ {
            TokenV::Operator(c) => Some(c),
            _ => None::<char>,
        }),
{
    match token {
        Token::Operator(op) => Some(*op),
        _ => None,
    }
}

/// A numeric literal becomes a number node directly.
fn parse_number(number: String) -> (r: Expression)
    ensures
        r@ == ExprV::Number(number@),
{
    Expression::Number(number)
}

/// Converts '(expression)': the parentheses are consumed and contribute
/// no node of their own.
fn parse_parenthesis_expression(tokens: &mut TokenCursor) -> (r: Result<Expression, ParseError>)
    requires
        old(tokens).wf(),
        0 <= old(tokens).at() < old(tokens).toks_v().len(),
        old(tokens).toks_v()[old(tokens).at()] == TokenV::Operator('('),
    ensures
        parse_post(
            *old(tokens),
            *final(tokens),
            r,
            spec_parse_primary(old(tokens).toks_v(), old(tokens).at()),
        ),
    decreases rem_toks(tokens.toks_v(), tokens.at()), 0int,
{
    let ghost toks = tokens.toks_v();
    let ghost p0 = tokens.at();
    tokens.advance();  // destroy open bracket
    let inner_expression = match parse_expression(tokens) {
        Ok(e) => e,
        Err(e) => {
            return Err(e);
        },
    };
    proof {
        lemma_expression_progress(toks, p0 + 1);
    }
    let is_close = match tokens.peek() {
        Some(Token::Operator(c)) => *c == ')',
        _ => false,
    };
    if !is_close {
        return Err(ParseError::new("Expected ')'"));
    }
    tokens.advance();
    Ok(inner_expression)
}

/// Converts text starting with an identifier, such as 'data' or
/// 'getdata(a, b)'.
#[verifier::loop_isolation(false)]
fn parse_identifier(tokens: &mut TokenCursor) -> (r: Result<Expression, ParseError>)
    requires
        old(tokens).wf(),
    ensures
        parse_post(
            *old(tokens),
            *final(tokens),
            r,
            spec_parse_identifier(old(tokens).toks_v(), old(tokens).at()),
        ),
    decreases rem_toks(tokens.toks_v(), tokens.at()), 1int,
{
    let ghost toks = tokens.toks_v();
    let ghost p0 = tokens.at();
    let variable: String = match tokens.peek() {
        Some(Token::Identifier(s)) => s.clone(),
        _ => {
            return Err(ParseError::new("Expected Identifier Token"));
        },
    };
    let ghost namev = variable@;
    tokens.advance();
    let is_open = match tokens.peek() {
        Some(Token::Operator(c)) => *c == '(',
        _ => false,
    };
    if !is_open {
        return Ok(Expression::Variable(variable));
    }
    tokens.advance();
    let is_close = match tokens.peek() {
        Some(Token::Operator(c)) => *c == ')',
        _ => false,
    };
    if is_close {
        tokens.advance();
        let r = Expression::Call(Box::new(CallExpr { callee: variable, args: Vec::new() }));
        proof {
            assert(exprs_view(Seq::<Expression>::empty()) =~= Seq::<ExprV>::empty());
            assert(r@ == (ExprV::Call { callee: namev, args: Seq::<ExprV>::empty() }));
        }
        return Ok(r);
    }
    let mut args: Vec<Expression> = Vec::new();
    loop
        invariant
            tokens.wf(),
            tokens.toks_v() == toks,
            0 <= p0,
            p0 + 1 < toks.len(),
            p0 + 2 <= tokens.at() <= toks.len(),
            toks[p0] == TokenV::Identifier(namev),
            toks[p0 + 1] == TokenV::Operator('('),
            !(p0 + 2 < toks.len() && toks[p0 + 2] == TokenV::Operator(')')),
            spec_parse_args(toks, p0 + 2, Seq::empty()) == add_used_args(
                spec_parse_args(toks, tokens.at(), exprs_view(args@)),
                (tokens.at() - (p0 + 2)) as nat,
            ),
        decreases toks.len() - tokens.at(),
    {
        let ghost cur = tokens.at();
        let ghost pre_args = args@;
        let arg = match parse_expression(tokens) {
            Ok(a) => a,
            Err(e) => {
                return Err(e);
            },
        };
        proof {
            lemma_expression_progress(toks, cur);
        }
        args.push(arg);
        proof {
            assert(args@ =~= pre_args.push(arg));
            lemma_exprs_view_push(pre_args, arg);
        }
        let is_close2 = match tokens.peek() {
            Some(Token::Operator(c)) => *c == ')',
            _ => false,
        };
        if is_close2 {
            tokens.advance();
            let r = Expression::Call(Box::new(CallExpr { callee: variable, args }));
            return Ok(r);
        }
        let is_comma = match tokens.peek() {
            Some(Token::Operator(c)) => *c == ',',
            _ => false,
        };
        if !is_comma {
            return Err(ParseError::new("Expected ',' or ')'"));
        }
        tokens.advance();
    }
}

/// A primary expression: a single identifier or call, a number, or an
/// expression enclosed in brackets.
pub fn parse_primary(tokens: &mut TokenCursor) -> (r: Result<Expression, ParseError>)
    requires
        old(tokens).wf(),
    ensures
        parse_post(
            *old(tokens),
            *final(tokens),
            r,
            spec_parse_primary(old(tokens).toks_v(), old(tokens).at()),
        ),
    decreases rem_toks(tokens.toks_v(), tokens.at()), 2int,
{
    let next_is: u8 = match tokens.peek() {
        Some(Token::Identifier(_)) => 0,
        Some(Token::Number(_)) => 1,
        Some(Token::Operator(c)) => {
            if *c == '(' {
                2
            } else {
                3
            }
        },
        _ => 3,
    };
    if next_is == 0 {
        parse_identifier(tokens)
    } else if next_is == 1 {
        let text = match tokens.peek() {
            Some(Token::Number(s)) => s.clone(),
            _ => {
                return Err(ParseError::new("Unknown token when expecting an expression"));
            },
        };
        tokens.advance();
        Ok(parse_number(text))
    } else if next_is == 2 {
        parse_parenthesis_expression(tokens)
    } else {
        Err(ParseError::new("Unknown token when expecting an expression"))
    }
}

/// The main work behind binary expressions: zero or more trailing
/// operator-primary pairs folded onto `lhs`, left-associatively for equal
/// precedence, stopping before the first operator whose precedence is
/// below `cutoff_precedence`.
#[verifier::loop_isolation(false)]
pub fn parse_binary_operation(
    tokens: &mut TokenCursor,
    lhs: Expression,
    cutoff_precedence: usize,
) -> (r: Result<Expression, ParseError>)
    requires
        old(tokens).wf(),
    ensures
        parse_post(
            *old(tokens),
            *final(tokens),
            r,
            spec_parse_binop(
                old(tokens).toks_v(),
                old(tokens).at(),
                lhs@,
                cutoff_precedence as int,
            ),
        ),
    decreases rem_toks(tokens.toks_v(), tokens.at()), 3int,
{
    let ghost toks = tokens.toks_v();
    let ghost p0 = tokens.at();
    let ghost lhs0 = lhs@;
    let mut lhs = lhs;
    loop
        invariant
            tokens.wf(),
            tokens.toks_v() == toks,
            0 <= p0 <= tokens.at() <= toks.len(),
            spec_parse_binop(toks, p0, lhs0, cutoff_precedence as int) == add_used(
                spec_parse_binop(toks, tokens.at(), lhs@, cutoff_precedence as int),
                (tokens.at() - p0) as nat,
            ),
        decreases toks.len() - tokens.at(),
    {
        let ghost cur = tokens.at();
        let operator = tokens.peek();
        if !is_binary_operator(operator) {
            return Ok(lhs);
        }
        let operator_token = match operator {
            Some(t) => t,
            None => {
                // never taken: the lookahead is a binary operator
                return Ok(lhs);
            },
        };
        let operator_precedence = match get_binary_operator_precedence(operator_token) {
            Some(p) => p,
            None => {
                // never taken: the lookahead is a binary operator
                return Ok(lhs);
            },
        };
        let operator_char = match get_operator_char(operator_token) {
            Some(c) => c,
            None => {
                // never taken: an operator token holds its character
                return Ok(lhs);
            },
        };
        if operator_precedence < cutoff_precedence {
            return Ok(lhs);
        }
        tokens.advance();
        let next_expression = match parse_primary(tokens) {
            Ok(e) => e,
            Err(e) => {
                return Err(e);
            },
        };
        proof {
            lemma_primary_progress(toks, cur + 1);
        }
        let next_precedence: Option<usize> = match tokens.peek() {
            Some(t2) => get_binary_operator_precedence(t2),
            None => None,
        };
        let do_climb = match next_precedence {
            Some(np) => np > operator_precedence,
            None => false,
        };
        let rhs = if do_climb {
            match parse_binary_operation(tokens, next_expression, operator_precedence + 1) {
                Ok(e) => e,
                Err(e) => {
                    return Err(e);
                },
            }
        } else {
            next_expression
        };
        lhs = Expression::Binary(Box::new(BinaryExpr { op: operator_char, lhs, rhs }));
    }
}

/// The main work behind expressions, such as 'a + (b * getmean(x))':
/// one primary, then precedence climbing from the lowest threshold.
pub fn parse_expression(tokens: &mut TokenCursor) -> (r: Result<Expression, ParseError>)
    requires
        old(tokens).wf(),
    ensures
        parse_post(
            *old(tokens),
            *final(tokens),
            r,
            spec_parse_expression(old(tokens).toks_v(), old(tokens).at()),
        ),
    decreases rem_toks(tokens.toks_v(), tokens.at()), 4int,
{
    let ghost toks = tokens.toks_v();
    let ghost p0 = tokens.at();
    let initial_expression = match parse_primary(tokens) {
        Ok(e) => e,
        Err(e) => {
            return Err(e);
        },
    };
    proof {
        lemma_primary_progress(toks, p0);
    }
    parse_binary_operation(tokens, initial_expression, 0)
}

} // verus!
