//! Declaration parsing: prototypes, function definitions, externs, and
//! bare top-level expressions, with their mathematical model.

use vstd::prelude::*;

use crate::ast::expressions::{parse_expression, parse_post, rem_toks, spec_parse_expression};
use crate::ast::{ErrV, ExprV, Expression, FunctionExpr, ParseError, ProtoTypeExpr, ProtoV,
    TokenCursor, msg_of};
use crate::lexer::{Token, TokenV};

verus! {

/// What parsing a prototype's parameter list yields: the identifiers up
/// to the closing parenthesis, appended to `acc` in order. No separators
/// stand between parameters; anything but an identifier or `)` fails.
pub open spec fn spec_parse_params(toks: Seq<TokenV>, pos: int, acc: Seq<Seq<char>>) -> Result<
    (Seq<Seq<char>>, nat),
    ErrV,
>
    decreases rem_toks(toks, pos),
{
    if !(0 <= pos < toks.len()) {
        Err(ErrV::ProtoClose)
    } else {
        match toks[pos] {
            TokenV::Identifier(arg) => {
                match spec_parse_params(toks, pos + 1, acc.push(arg)) {
                    Err(e) => Err(e),
                    Ok((args, n)) => Ok((args, (n + 1) as nat)),
                }
            },
            TokenV::Operator(c) => {
                if c == ')' {
                    Ok((acc, 1))
                } else {
                    Err(ErrV::ProtoClose)
                }
            },
            _ => Err(ErrV::ProtoClose),
        }
    }
}

/// What parsing a prototype yields: a function name, `(`, the parameter
/// names, `)`.
pub open spec fn spec_parse_prototype(toks: Seq<TokenV>, pos: int) -> Result<
    ((Seq<char>, Seq<Seq<char>>), nat),
    ErrV,
> {
    if !(0 <= pos < toks.len()) {
        Err(ErrV::ProtoName)
    } else {
        match toks[pos] {
            TokenV::Identifier(name) => {
                if pos + 1 < toks.len() && toks[pos + 1] == TokenV::Operator('(') {
                    match spec_parse_params(toks, pos + 2, Seq::empty()) {
                        Err(e) => Err(e),
                        Ok((args, n)) => Ok(((name, args), (n + 2) as nat)),
                    }
                } else {
                    Err(ErrV::ProtoOpen)
                }
            },
            _ => Err(ErrV::ProtoName),
        }
    }
}

/// One token consumed unseen: the keyword the dispatcher already peeked.
pub open spec fn after_keyword(toks: Seq<TokenV>, pos: int) -> int {
    if 0 <= pos < toks.len() {
        pos + 1
    } else {
        pos
    }
}

/// What parsing a function definition yields: the `def` keyword, a
/// prototype, and exactly one expression as the body.
pub open spec fn spec_parse_function(toks: Seq<TokenV>, pos: int) -> Result<(ExprV, nat), ErrV> {
    let p1 = after_keyword(toks, pos);
    match spec_parse_prototype(toks, p1) {
        Err(e) => Err(e),
        Ok(((name, args), n)) => match spec_parse_expression(toks, p1 + n) {
            Err(e) => Err(e),
            Ok((body, m)) => Ok(
                (
                    ExprV::Function { proto: ProtoV { name, args }, body: Box::new(body) },
                    ((p1 - pos) + n + m) as nat,
                ),
            ),
        },
    }
}

/// What parsing an extern declaration yields: the `extern` keyword and a
/// prototype, without a body.
pub open spec fn spec_parse_extern(toks: Seq<TokenV>, pos: int) -> Result<(ExprV, nat), ErrV> {
    let p1 = after_keyword(toks, pos);
    match spec_parse_prototype(toks, p1) {
        Err(e) => Err(e),
        Ok(((name, args), n)) => Ok(
            (ExprV::ProtoType(ProtoV { name, args }), ((p1 - pos) + n) as nat),
        ),
    }
}

/// What parsing a bare top-level expression yields: the expression,
/// wrapped as an anonymous function with an empty name and no parameters.
pub open spec fn spec_parse_top_level(toks: Seq<TokenV>, pos: int) -> Result<(ExprV, nat), ErrV> {
    match spec_parse_expression(toks, pos) {
        Err(e) => Err(e),
        Ok((body, n)) => Ok(
            (
                ExprV::Function {
                    proto: ProtoV { name: Seq::empty(), args: Seq::empty() },
                    body: Box::new(body),
                },
                n,
            ),
        ),
    }
}

/// A function's name, `(`, its parameter names without separators, `)`.
#[verifier::loop_isolation(false)]
pub fn parse_prototype(tokens: &mut TokenCursor) -> (r: Result<ProtoTypeExpr, ParseError>)
    requires
        old(tokens).wf(),
    ensures
        final(tokens).wf(),
        final(tokens).toks_v() == old(tokens).toks_v(),
        match spec_parse_prototype(old(tokens).toks_v(), old(tokens).at()) {
            Ok(((name, argvs), n)) => {
                &&& r matches Ok(p) && p@ == (ProtoV { name, args: argvs })
                &&& final(tokens).at() == old(tokens).at() + n
            },
            Err(k) => r matches Err(pe) && pe@ == msg_of(k),
        },
{
    let ghost toks = tokens.toks_v();
    let ghost p0 = tokens.at();
    let name: String = match tokens.peek() {
        Some(Token::Identifier(s)) => s.clone(),
        _ => {
            return Err(ParseError::new("Expected function name in prototype"));
        },
    };
    tokens.advance();
    let is_open = match tokens.peek() {
        Some(Token::Operator(c)) => *c == '(',
        _ => false,
    };
    if !is_open {
        return Err(ParseError::new("Expected '(' in prototype"));
    }
    tokens.advance();
    let mut args: Vec<String> = Vec::new();
    proof {
        assert(args.deep_view() =~= Seq::<Seq<char>>::empty());
    }
    loop
        invariant
            tokens.wf(),
            tokens.toks_v() == toks,
            p0 + 2 <= tokens.at() <= toks.len(),
            spec_parse_params(toks, p0 + 2, Seq::empty()) == (match spec_parse_params(
                toks,
                tokens.at(),
                args.deep_view(),
            ) {
                Err(k) => Err::<(Seq<Seq<char>>, nat), ErrV>(k),
                Ok((es, n)) => Ok((es, (n + tokens.at() - (p0 + 2)) as nat)),
            }),
        decreases toks.len() - tokens.at(),
    {
        let kind: u8 = match tokens.peek() {
            Some(Token::Identifier(_)) => 0,
            Some(Token::Operator(c)) => {
                if *c == ')' {
                    1
                } else {
                    2
                }
            },
            _ => 2,
        };
        if kind == 0 {
            let arg = match tokens.peek() {
                Some(Token::Identifier(s)) => s.clone(),
                _ => {
                    return Err(ParseError::new("Expected ')' in prototype"));
                },
            };
            tokens.advance();
            let ghost pre = args.deep_view();
            args.push(arg);
            proof {
                assert(args.deep_view() =~= pre.push(arg@));
            }
        } else if kind == 1 {
            tokens.advance();
            return Ok(ProtoTypeExpr { name, args });
        } else {
            return Err(ParseError::new("Expected ')' in prototype"));
        }
    }
}

/// A function definition: the `def` keyword, a prototype, and exactly one
/// expression as the body.
pub fn parse_function(tokens: &mut TokenCursor) -> (r: Result<Expression, ParseError>)
    requires
        old(tokens).wf(),
    ensures
        parse_post(
            *old(tokens),
            *final(tokens),
            r,
            spec_parse_function(old(tokens).toks_v(), old(tokens).at()),
        ),
{
    tokens.advance();  // consume def
    let proto = match parse_prototype(tokens) {
        Ok(p) => p,
        Err(e) => {
            return Err(e);
        },
    };
    let body = match parse_expression(tokens) {
        Ok(b) => b,
        Err(e) => {
            return Err(e);
        },
    };
    Ok(Expression::Function(Box::new(FunctionExpr { proto, body })))
}

/// An extern declaration: the `extern` keyword and a prototype, without
/// a body.
pub fn parse_extern(tokens: &mut TokenCursor) -> (r: Result<Expression, ParseError>)
    requires
        old(tokens).wf(),
    ensures
        parse_post(
            *old(tokens),
            *final(tokens),
            r,
            spec_parse_extern(old(tokens).toks_v(), old(tokens).at()),
        ),
{
    tokens.advance();  // consume extern
    let proto = match parse_prototype(tokens) {
        Ok(p) => p,
        Err(e) => {
            return Err(e);
        },
    };
    Ok(Expression::ProtoType(Box::new(proto)))
}

/// A bare top-level expression, wrapped as an anonymous function with an
/// empty name and no parameters, so that every top-level item is handled
/// the same way downstream.
pub fn parse_top_level_expression(tokens: &mut TokenCursor) -> (r: Result<Expression, ParseError>)
    requires
        old(tokens).wf(),
    ensures
        parse_post(
            *old(tokens),
            *final(tokens),
            r,
            spec_parse_top_level(old(tokens).toks_v(), old(tokens).at()),
        ),
{
    let body = match parse_expression(tokens) {
        Ok(b) => b,
        Err(e) => {
            return Err(e);
        },
    };
    let args: Vec<String> = Vec::new();
    proof {
        assert(args.deep_view() =~= Seq::<Seq<char>>::empty());
    }
    let proto = ProtoTypeExpr { name: String::new(), args };
    Ok(Expression::Function(Box::new(FunctionExpr { proto, body })))
}

} // verus!
