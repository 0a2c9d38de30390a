//! The abstract syntax tree, the parser's error type, and the token cursor
//! the parsers share.

use vstd::prelude::*;

use crate::lexer::{spec_tokens, Token, TokenIter, TokenV};
use crate::lexer::lemma_next_token_bounds;

pub mod expressions;
pub mod functions;
pub mod laws;

verus! {

/// The mathematical value of an expression tree.
pub enum ExprV {
    Number(Seq<char>),
    Variable(Seq<char>),
    Binary { op: char, lhs: Box<ExprV>, rhs: Box<ExprV> },
    Call { callee: Seq<char>, args: Seq<ExprV> },
    ProtoType(ProtoV),
    Function { proto: ProtoV, body: Box<ExprV> },
}

/// The mathematical value of a function prototype.
pub struct ProtoV {
    pub name: Seq<char>,
    pub args: Seq<Seq<char>>,
}

/// A binary operation: `lhs op rhs`, both children exclusively owned.
#[derive(Debug, PartialEq)]
pub struct BinaryExpr {
    pub op: char,
    pub lhs: Expression,
    pub rhs: Expression,
}

/// A call `callee(args, ...)` with the arguments in source order.
#[derive(Debug, PartialEq)]
pub struct CallExpr {
    pub callee: String,
    pub args: Vec<Expression>,
}

/// A function's name and parameter names, without a body.
#[derive(Debug, PartialEq)]
pub struct ProtoTypeExpr {
    pub name: String,
    pub args: Vec<String>,
}

/// A function definition: a prototype and one body expression.
#[derive(Debug, PartialEq)]
pub struct FunctionExpr {
    pub proto: ProtoTypeExpr,
    pub body: Expression,
}

/// One node of the abstract syntax tree. A numeric literal keeps its
/// source text; the grammar never computes with the value.
#[derive(Debug, PartialEq)]
pub enum Expression {
    Number(String),
    Variable(String),
    Binary(Box<BinaryExpr>),
    Call(Box<CallExpr>),
    ProtoType(Box<ProtoTypeExpr>),
    Function(Box<FunctionExpr>),
}

/// The tree a syntax tree stands for.
pub open spec fn expr_view(e: Expression) -> ExprV
    decreases e,
{
    match e {
        Expression::Number(s) => ExprV::Number(s@),
        Expression::Variable(s) => ExprV::Variable(s@),
        Expression::Binary(b) => ExprV::Binary {
            op: b.op,
            lhs: Box::new(expr_view(b.lhs)),
            rhs: Box::new(expr_view(b.rhs)),
        },
        Expression::Call(c) => ExprV::Call {
            callee: c.callee@,
            args: exprs_view(c.args@),
        },
        Expression::ProtoType(p) => ExprV::ProtoType(proto_view(*p)),
        Expression::Function(f) => ExprV::Function {
            proto: proto_view(f.proto),
            body: Box::new(expr_view(f.body)),
        },
    }
}

/// The trees a sequence of syntax trees stands for, in order.
pub open spec fn exprs_view(args: Seq<Expression>) -> Seq<ExprV>
    decreases args,
{
    if args.len() == 0 {
        Seq::empty()
    } else {
        seq![expr_view(args[0])] + exprs_view(args.subrange(1, args.len() as int))
    }
}

/// Appending a tree on the right appends its value on the right.
pub proof fn lemma_exprs_view_push(s: Seq<Expression>, e: Expression)
    ensures
        exprs_view(s.push(e)) == exprs_view(s).push(expr_view(e)),
    decreases s.len(),
{
    if s.len() == 0 {
        assert(s.push(e)[0] == e);
        assert(s.push(e).subrange(1, 1) =~= s);
        assert(exprs_view(s.push(e)) == seq![expr_view(e)] + exprs_view(s));
        assert(seq![expr_view(e)] + exprs_view(s) =~= exprs_view(s).push(expr_view(e)));
    } else {
        let tail = s.subrange(1, s.len() as int);
        assert(s.push(e)[0] == s[0]);
        assert(s.push(e).subrange(1, s.len() as int + 1) =~= tail.push(e));
        lemma_exprs_view_push(tail, e);
        assert(exprs_view(s.push(e)) == seq![expr_view(s[0])] + exprs_view(tail).push(
            expr_view(e),
        ));
        assert(seq![expr_view(s[0])] + exprs_view(tail).push(expr_view(e)) =~= (seq![
            expr_view(s[0]),
        ] + exprs_view(tail)).push(expr_view(e)));
    }
}

pub open spec fn proto_view(p: ProtoTypeExpr) -> ProtoV {
    ProtoV { name: p.name@, args: p.args.deep_view() }
}

impl View for Expression {
    type V = ExprV;

    open spec fn view(&self) -> ExprV {
        expr_view(*self)
    }
}

impl DeepView for Expression {
    type V = ExprV;

    open spec fn deep_view(&self) -> ExprV {
        expr_view(*self)
    }
}

impl View for ProtoTypeExpr {
    type V = ProtoV;

    open spec fn view(&self) -> ProtoV {
        proto_view(*self)
    }
}

/// A parsing failure, carrying a human-readable message that names the
/// expected token or context. No partial tree accompanies it.
#[derive(Debug, PartialEq)]
pub struct ParseError {
    msg: String,
}

impl View for ParseError {
    type V = Seq<char>;

    closed spec fn view(&self) -> Seq<char> {
        self.msg@
    }
}

impl ParseError {
    /// The message describing what the parser expected.
    pub fn message(&self) -> (r: &str)
        ensures
            r@ == self@,
    {
        self.msg.as_str()
    }

    pub(crate) fn new(msg: &str) -> (r: ParseError)
        ensures
            r@ == msg@,
    {
        ParseError { msg: msg.to_owned() }
    }
}

/// The distinct parsing failures. Each stands for one of the messages a
/// [`ParseError`] can carry; [`msg_of`] spells them out.
pub enum ErrV {
    /// A parenthesized expression without its `)`.
    ExpectedClose,
    /// An identifier was required and something else was found.
    ExpectedIdentifier,
    /// A call argument was not followed by `,` or `)`.
    ExpectedCommaOrClose,
    /// No valid start of a primary expression.
    UnknownToken,
    /// A prototype without a function name.
    ProtoName,
    /// A prototype without its `(`.
    ProtoOpen,
    /// A prototype parameter list without its `)`.
    ProtoClose,
}

/// The message that reports each failure.
pub open spec fn msg_of(e: ErrV) -> Seq<char> {
    match e {
        ErrV::ExpectedClose => "Expected ')'"@,
        ErrV::ExpectedIdentifier => "Expected Identifier Token"@,
        ErrV::ExpectedCommaOrClose => "Expected ',' or ')'"@,
        ErrV::UnknownToken => "Unknown token when expecting an expression"@,
        ErrV::ProtoName => "Expected function name in prototype"@,
        ErrV::ProtoOpen => "Expected '(' in prototype"@,
        ErrV::ProtoClose => "Expected ')' in prototype"@,
    }
}

/// The tokens of one line, with a cursor over them. Each parser consumes
/// tokens by advancing the cursor; nothing else is shared between parses.
pub struct TokenCursor {
    toks: Vec<Token>,
    pos: usize,
}

impl TokenCursor {
    /// The token sequence being parsed.
    pub closed spec fn toks_v(&self) -> Seq<TokenV> {
        self.toks.deep_view()
    }

    /// The position of the next token not yet consumed.
    pub closed spec fn at(&self) -> int {
        self.pos as int
    }

    pub open spec fn wf(&self) -> bool {
        0 <= self.at() <= self.toks_v().len()
    }

    /// Lex the whole line: the cursor starts at the first of exactly the
    /// tokens the lexing model assigns to the text.
    pub fn new(src: &str) -> (r: TokenCursor)
        ensures
            r.wf(),
            r.at() == 0,
            r.toks_v() == spec_tokens(src@, 0),
    {
        let ghost cs = src@;
        let mut it = TokenIter::new(src);
        let mut toks: Vec<Token> = Vec::new();
        loop
            invariant
                it.wf(),
                it.chars() == cs,
                spec_tokens(cs, 0) == toks.deep_view() + spec_tokens(cs, it.at()),
            ensures
                toks.deep_view() == spec_tokens(cs, 0),
            decreases cs.len() - it.at(),
        {
            let ghost p = it.at();
            let ghost pre = toks.deep_view();
            proof {
                lemma_next_token_bounds(cs, p);
            }
            match it.next() {
                Some(t) => {
                    toks.push(t);
                    proof {
                        assert(spec_tokens(cs, p) == seq![t@] + spec_tokens(cs, it.at()));
                        assert(toks.deep_view() =~= pre.push(t@));
                        assert(pre + (seq![t@] + spec_tokens(cs, it.at())) =~= toks.deep_view()
                            + spec_tokens(cs, it.at()));
                    }
                },
                None => {
                    proof {
                        assert(spec_tokens(cs, p) =~= Seq::<TokenV>::empty());
                        assert(toks.deep_view() + Seq::<TokenV>::empty() =~= toks.deep_view());
                        assert(toks.deep_view() + spec_tokens(cs, it.at()) =~= toks.deep_view());
                    }
                    break;
                },
            }
        }
        TokenCursor { toks, pos: 0 }
    }

    /// The next token, if one remains; the cursor does not move.
    pub fn peek(&self) -> (r: Option<&Token>)
        requires
            self.wf(),
        ensures
            match r {
                Some(t) => self.at() < self.toks_v().len() && t@ == self.toks_v()[self.at()],
                None => self.at() == self.toks_v().len(),
            },
    {
        if self.pos < self.toks.len() {
            Some(&self.toks[self.pos])
        } else {
            None
        }
    }

    /// Consume one token, if one remains.
    pub fn advance(&mut self)
        requires
            old(self).wf(),
        ensures
            final(self).wf(),
            final(self).toks_v() == old(self).toks_v(),
            final(self).at() == if old(self).at() < old(self).toks_v().len() {
                old(self).at() + 1
            } else {
                old(self).at()
            },
    {
        if self.pos < self.toks.len() {
            self.pos = self.pos + 1;
        }
    }
}

} // verus!
