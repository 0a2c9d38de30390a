//! Laws of the expression grammar.
//!
//! The frame lemmas say that a successful parse depends only on the
//! tokens it consumed and on the token standing at its end; on them rest
//! the laws that call arguments are taken positionally and in order, that
//! a three-operand input associates by precedence, and that parentheses
//! are transparent.

use vstd::prelude::*;

use crate::ast::expressions::{lemma_args_progress, lemma_binop_progress,
    lemma_expression_progress, lemma_identifier_progress, lemma_primary_progress, rem_toks,
    spec_parse_args, spec_parse_binop, spec_parse_expression, spec_parse_identifier,
    spec_parse_primary, spec_prec, tok_prec};
use crate::ast::{ErrV, ExprV};
use crate::lexer::TokenV;

verus! {

/// The `n` tokens of `t1` from `p1` on stand, equal and in order, in
/// `t2` from `p2` on.
pub open spec fn window_eq(t1: Seq<TokenV>, p1: int, t2: Seq<TokenV>, p2: int, n: int) -> bool {
    &&& 0 <= n
    &&& 0 <= p1 && p1 + n <= t1.len()
    &&& 0 <= p2 && p2 + n <= t2.len()
    &&& forall|i: int| p1 <= i < p1 + n ==> #[trigger] t1[i] == t2[i - p1 + p2]
}

/// A position every completed expression parse stops before, whatever
/// follows it: the end of the tokens, or a token that is neither a
/// binary operator nor an opening parenthesis.
pub open spec fn stopper(t: Seq<TokenV>, q: int) -> bool {
    q >= t.len() || (tok_prec(t[q]) < 0 && t[q] != TokenV::Operator('('))
}

/// What must hold of the two positions after the consumed window: either
/// both are stopping positions, or the same token stands at both.
pub open spec fn boundary_ok(t1: Seq<TokenV>, q1: int, t2: Seq<TokenV>, q2: int) -> bool {
    (stopper(t1, q1) && stopper(t2, q2)) || (q1 < t1.len() && q2 < t2.len() && t1[q1] == t2[q2])
}

proof fn lemma_window_sub(t1: Seq<TokenV>, p1: int, t2: Seq<TokenV>, p2: int, n: int, d: int, m: int)
    requires
        window_eq(t1, p1, t2, p2, n),
        0 <= d,
        0 <= m,
        d + m <= n,
    ensures
        window_eq(t1, p1 + d, t2, p2 + d, m),
{
    assert forall|i: int| p1 + d <= i < p1 + d + m implies #[trigger] t1[i] == t2[i - (p1 + d) + (
    p2 + d)] by {
        assert(t1[i] == t2[i - p1 + p2]);
    }
}

proof fn lemma_window_end(t1: Seq<TokenV>, p1: int, t2: Seq<TokenV>, p2: int, n: int)
    requires
        window_eq(t1, p1, t2, p2, n),
    ensures
        n > 0 ==> p1 + n <= t1.len() && p2 + n <= t2.len(),
{
}

/// An identifier primary reads only its window and its end position.
pub proof fn lemma_identifier_frame(
    t1: Seq<TokenV>,
    p1: int,
    t2: Seq<TokenV>,
    p2: int,
    e: ExprV,
    n: nat,
)
    requires
        0 <= p1 <= t1.len(),
        0 <= p2 <= t2.len(),
        spec_parse_identifier(t1, p1) == Ok::<(ExprV, nat), ErrV>((e, n)),
        window_eq(t1, p1, t2, p2, n as int),
        boundary_ok(t1, p1 + n, t2, p2 + n),
    ensures
        spec_parse_identifier(t2, p2) == Ok::<(ExprV, nat), ErrV>((e, n)),
    decreases rem_toks(t1, p1), 0int,
{
    lemma_identifier_progress(t1, p1);
    assert(t1[p1 + 0] == t2[p2 + 0]);
    if p1 + 1 < t1.len() && t1[p1 + 1] == TokenV::Operator('(') {
        assert(t1[p1 + 1] == t2[p2 + 1]);
        if p1 + 2 < t1.len() && t1[p1 + 2] == TokenV::Operator(')') {
            assert(t1[p1 + 2] == t2[p2 + 2]);
        } else {
            match spec_parse_args(t1, p1 + 2, Seq::empty()) {
                Ok((args, na)) => {
                    lemma_args_progress(t1, p1 + 2, Seq::empty());
                    assert(t1[p1 + 2] == t2[p2 + 2]);
                    lemma_window_sub(t1, p1, t2, p2, n as int, 2, na as int);
                    lemma_args_frame(t1, p1 + 2, t2, p2 + 2, Seq::empty(), args, na);
                },
                Err(_) => {},
            }
        }
    } else {
        // a bare variable: one token, and the end position says that
        // whatever follows is not `(` in either sequence
    }
}

/// A call-argument list reads only its window.
pub proof fn lemma_args_frame(
    t1: Seq<TokenV>,
    p1: int,
    t2: Seq<TokenV>,
    p2: int,
    acc: Seq<ExprV>,
    es: Seq<ExprV>,
    n: nat,
)
    requires
        0 <= p1 <= t1.len(),
        0 <= p2 <= t2.len(),
        spec_parse_args(t1, p1, acc) == Ok::<(Seq<ExprV>, nat), ErrV>((es, n)),
        window_eq(t1, p1, t2, p2, n as int),
    ensures
        spec_parse_args(t2, p2, acc) == Ok::<(Seq<ExprV>, nat), ErrV>((es, n)),
    decreases rem_toks(t1, p1), 4int,
{
    lemma_args_progress(t1, p1, acc);
    match spec_parse_expression(t1, p1) {
        Ok((e, ne)) => {
            lemma_expression_progress(t1, p1);
            let q1 = p1 + ne;
            // the separator at q1 is within the window
            assert(t1[p1 + ne] == t2[p2 + ne]);
            lemma_window_sub(t1, p1, t2, p2, n as int, 0, ne as int);
            lemma_expression_frame(t1, p1, t2, p2, e, ne);
            if t1[q1] == TokenV::Operator(',') {
                lemma_window_sub(t1, p1, t2, p2, n as int, ne as int + 1, n as int - ne - 1);
                lemma_args_frame(t1, q1 + 1, t2, p2 + ne + 1, acc.push(e), es, (n - ne - 1) as nat);
            }
        },
        Err(_) => {},
    }
}

/// A primary expression reads only its window and its end position.
pub proof fn lemma_primary_frame(
    t1: Seq<TokenV>,
    p1: int,
    t2: Seq<TokenV>,
    p2: int,
    e: ExprV,
    n: nat,
)
    requires
        0 <= p1 <= t1.len(),
        0 <= p2 <= t2.len(),
        spec_parse_primary(t1, p1) == Ok::<(ExprV, nat), ErrV>((e, n)),
        window_eq(t1, p1, t2, p2, n as int),
        boundary_ok(t1, p1 + n, t2, p2 + n),
    ensures
        spec_parse_primary(t2, p2) == Ok::<(ExprV, nat), ErrV>((e, n)),
    decreases rem_toks(t1, p1), 1int,
{
    lemma_primary_progress(t1, p1);
    assert(t1[p1 + 0] == t2[p2 + 0]);
    match t1[p1] {
        TokenV::Identifier(_) => {
            lemma_identifier_frame(t1, p1, t2, p2, e, n);
        },
        TokenV::Number(_) => {},
        TokenV::Operator(c) => {
            if c == '(' {
                match spec_parse_expression(t1, p1 + 1) {
                    Ok((inner, ni)) => {
                        lemma_expression_progress(t1, p1 + 1);
                        // the closing parenthesis is within the window
                        assert(t1[p1 + (1 + ni)] == t2[p2 + (1 + ni)]);
                        lemma_window_sub(t1, p1, t2, p2, n as int, 1, ni as int);
                        lemma_expression_frame(t1, p1 + 1, t2, p2 + 1, inner, ni);
                    },
                    Err(_) => {},
                }
            }
        },
        _ => {},
    }
}

/// Precedence climbing reads only its window and its end position.
pub proof fn lemma_binop_frame(
    t1: Seq<TokenV>,
    p1: int,
    t2: Seq<TokenV>,
    p2: int,
    lhs: ExprV,
    min_prec: int,
    e: ExprV,
    n: nat,
)
    requires
        0 <= p1 <= t1.len(),
        0 <= p2 <= t2.len(),
        spec_parse_binop(t1, p1, lhs, min_prec) == Ok::<(ExprV, nat), ErrV>((e, n)),
        window_eq(t1, p1, t2, p2, n as int),
        boundary_ok(t1, p1 + n, t2, p2 + n),
    ensures
        spec_parse_binop(t2, p2, lhs, min_prec) == Ok::<(ExprV, nat), ErrV>((e, n)),
    decreases rem_toks(t1, p1), 2int,
{
    lemma_binop_progress(t1, p1, lhs, min_prec);
    lemma_window_end(t1, p1, t2, p2, n as int);
    if p1 == t1.len() {
        // nothing consumed; both boundary positions stop the climb
    } else {
        match t1[p1] {
            TokenV::Operator(c) => {
                if spec_prec(c) >= 0 && spec_prec(c) >= min_prec {
                    let p = spec_prec(c);
                    assert(t1[p1 + 0] == t2[p2 + 0]);
                    match spec_parse_primary(t1, p1 + 1) {
                        Ok((rhs, n0)) => {
                            lemma_primary_progress(t1, p1 + 1);
                            let q1 = p1 + 1 + n0;
                            let q2 = p2 + 1 + n0;
                            let climb = 0 <= q1 < t1.len() && tok_prec(t1[q1]) > p;
                            let climbed = if climb {
                                spec_parse_binop(t1, q1, rhs, p + 1)
                            } else {
                                Ok((rhs, 0))
                            };
                            match climbed {
                                Ok((rhs2, m)) => {
                                    if climb {
                                        lemma_binop_progress(t1, q1, rhs, p + 1);
                                    }
                                    let folded = ExprV::Binary {
                                        op: c,
                                        lhs: Box::new(lhs),
                                        rhs: Box::new(rhs2),
                                    };
                                    match spec_parse_binop(t1, q1 + m, folded, min_prec) {
                                        Ok((e2, k)) => {
                                            lemma_binop_progress(t1, q1 + m, folded, min_prec);
                                            // n == 1 + n0 + m + k
                                            // the primary's end position
                                            if 1 + n0 < n {
                                                assert(t1[p1 + (1 + n0)] == t2[p2 + (1 + n0)]);
                                            }
                                            lemma_window_sub(t1, p1, t2, p2, n as int, 1, n0 as int);
                                            lemma_primary_frame(t1, p1 + 1, t2, p2 + 1, rhs, n0);
                                            // the climb happens on the same condition in t2
                                            if climb {
                                                assert(m >= 1);
                                                assert(t1[p1 + (1 + n0)] == t2[p2 + (1 + n0)]);
                                                if 1 + n0 + m < n {
                                                    assert(t1[p1 + (1 + n0 + m)] == t2[p2 + (1 + n0
                                                        + m)]);
                                                }
                                                lemma_window_sub(
                                                    t1,
                                                    p1,
                                                    t2,
                                                    p2,
                                                    n as int,
                                                    1 + n0 as int,
                                                    m as int,
                                                );
                                                lemma_binop_frame(
                                                    t1,
                                                    q1,
                                                    t2,
                                                    q2,
                                                    rhs,
                                                    p + 1,
                                                    rhs2,
                                                    m,
                                                );
                                            } else {
                                                if k >= 1 {
                                                    assert(t1[p1 + (1 + n0)] == t2[p2 + (1 + n0)]);
                                                }
                                            }
                                            // the tail climb
                                            lemma_window_sub(
                                                t1,
                                                p1,
                                                t2,
                                                p2,
                                                n as int,
                                                1 + n0 as int + m as int,
                                                k as int,
                                            );
                                            lemma_binop_frame(
                                                t1,
                                                q1 + m,
                                                t2,
                                                q2 + m,
                                                folded,
                                                min_prec,
                                                e2,
                                                k,
                                            );
                                        },
                                        Err(_) => {},
                                    }
                                },
                                Err(_) => {},
                            }
                        },
                        Err(_) => {},
                    }
                } else {
                    // the operator is below the threshold or no operator at
                    // all: nothing consumed, and the boundary settles t2
                }
            },
            _ => {},
        }
    }
}

/// A whole expression reads only its window and its end position.
pub proof fn lemma_expression_frame(
    t1: Seq<TokenV>,
    p1: int,
    t2: Seq<TokenV>,
    p2: int,
    e: ExprV,
    n: nat,
)
    requires
        0 <= p1 <= t1.len(),
        0 <= p2 <= t2.len(),
        spec_parse_expression(t1, p1) == Ok::<(ExprV, nat), ErrV>((e, n)),
        window_eq(t1, p1, t2, p2, n as int),
        boundary_ok(t1, p1 + n, t2, p2 + n),
    ensures
        spec_parse_expression(t2, p2) == Ok::<(ExprV, nat), ErrV>((e, n)),
    decreases rem_toks(t1, p1), 3int,
{
    lemma_expression_progress(t1, p1);
    lemma_window_end(t1, p1, t2, p2, n as int);
    match spec_parse_primary(t1, p1) {
        Ok((lhs, n0)) => {
            lemma_primary_progress(t1, p1);
            match spec_parse_binop(t1, p1 + n0, lhs, 0) {
                Ok((e2, m)) => {
                    lemma_binop_progress(t1, p1 + n0, lhs, 0);
                    if n0 < n {
                        assert(t1[p1 + n0 as int] == t2[p2 + n0 as int]);
                    }
                    lemma_window_sub(t1, p1, t2, p2, n as int, 0, n0 as int);
                    lemma_primary_frame(t1, p1, t2, p2, lhs, n0);
                    lemma_window_sub(t1, p1, t2, p2, n as int, n0 as int, m as int);
                    lemma_binop_frame(t1, p1 + n0, t2, p2 + n0, lhs, 0, e2, m);
                },
                Err(_) => {},
            }
        },
        Err(_) => {},
    }
}


/// A token that stands for a single operand: a number or a bare
/// identifier.
pub open spec fn is_atom_tok(t: TokenV) -> bool {
    t is Number || t is Identifier
}

/// The tree a single operand token stands for.
pub open spec fn atom_val(t: TokenV) -> ExprV {
    match t {
        TokenV::Number(s) => ExprV::Number(s),
        TokenV::Identifier(s) => ExprV::Variable(s),
        _ => ExprV::Number(Seq::empty()),
    }
}

/// Parenthesization is transparent: for any token sequence that parses
/// entirely as an expression, wrapping it in parentheses yields the
/// identical tree, with no node for the parentheses themselves.
pub proof fn lemma_parens_transparent(e_toks: Seq<TokenV>, e: ExprV)
    requires
        spec_parse_expression(e_toks, 0) == Ok::<(ExprV, nat), ErrV>((e, e_toks.len() as nat)),
    ensures
        spec_parse_expression(
            seq![TokenV::Operator('(')] + e_toks + seq![TokenV::Operator(')')],
            0,
        ) == Ok::<(ExprV, nat), ErrV>((e, (e_toks.len() + 2) as nat)),
{
    let t2 = seq![TokenV::Operator('(')] + e_toks + seq![TokenV::Operator(')')];
    let n = e_toks.len() as int;
    lemma_expression_progress(e_toks, 0);
    assert(t2.len() == n + 2);
    assert(t2[0] == TokenV::Operator('('));
    assert(t2[1 + n] == TokenV::Operator(')'));
    assert(window_eq(e_toks, 0, t2, 1, n)) by {
        assert forall|i: int| 0 <= i < 0 + n implies #[trigger] e_toks[i] == t2[i - 0 + 1] by {
            assert(t2[i + 1] == e_toks[i]);
        }
    }
    assert(stopper(e_toks, n));
    assert(stopper(t2, 1 + n));
    lemma_expression_frame(e_toks, 0, t2, 1, e, e_toks.len() as nat);
    assert(spec_parse_primary(t2, 0) == Ok::<(ExprV, nat), ErrV>((e, (n + 2) as nat)));
    assert(spec_parse_binop(t2, n + 2, e, 0) == Ok::<(ExprV, nat), ErrV>((e, 0 as nat)));
}

/// The token sequence of a comma-separated argument list: the pieces in
/// order with a comma between each two.
pub open spec fn args_toks(arg_seqs: Seq<Seq<TokenV>>) -> Seq<TokenV>
    decreases arg_seqs.len(),
{
    if arg_seqs.len() == 0 {
        Seq::empty()
    } else if arg_seqs.len() == 1 {
        arg_seqs[0]
    } else {
        arg_seqs[0] + seq![TokenV::Operator(',')] + args_toks(
            arg_seqs.subrange(1, arg_seqs.len() as int),
        )
    }
}

/// The token sequence of a call: the callee, `(`, the argument list, `)`.
pub open spec fn call_toks(callee: Seq<char>, arg_seqs: Seq<Seq<TokenV>>) -> Seq<TokenV> {
    seq![TokenV::Identifier(callee), TokenV::Operator('(')] + args_toks(arg_seqs) + seq![
        TokenV::Operator(')'),
    ]
}

proof fn lemma_args_build(arg_seqs: Seq<Seq<TokenV>>, arg_vals: Seq<ExprV>, acc: Seq<ExprV>)
    requires
        arg_seqs.len() == arg_vals.len(),
        arg_seqs.len() >= 1,
        forall|i: int|
            0 <= i < arg_seqs.len() ==> spec_parse_expression(#[trigger] arg_seqs[i], 0)
                == Ok::<(ExprV, nat), ErrV>((arg_vals[i], arg_seqs[i].len() as nat)),
    ensures
        spec_parse_args(args_toks(arg_seqs) + seq![TokenV::Operator(')')], 0, acc) == Ok::<
            (Seq<ExprV>, nat),
            ErrV,
        >((acc + arg_vals, (args_toks(arg_seqs).len() + 1) as nat)),
    decreases arg_seqs.len(),
{
    let t = args_toks(arg_seqs) + seq![TokenV::Operator(')')];
    let a0 = arg_seqs[0];
    let v0 = arg_vals[0];
    assert(spec_parse_expression(a0, 0) == Ok::<(ExprV, nat), ErrV>((v0, a0.len() as nat)));
    lemma_expression_progress(a0, 0);
    let n0 = a0.len() as int;
    if arg_seqs.len() == 1 {
        assert(t.len() == n0 + 1);
        assert(t[n0] == TokenV::Operator(')'));
        assert(window_eq(a0, 0, t, 0, n0)) by {
            assert forall|i: int| 0 <= i < 0 + n0 implies #[trigger] a0[i] == t[i - 0 + 0] by {
                assert(t[i] == a0[i]);
            }
        }
        assert(stopper(a0, n0));
        assert(stopper(t, n0));
        lemma_expression_frame(a0, 0, t, 0, v0, a0.len() as nat);
        assert(acc + arg_vals =~= acc.push(v0));
        assert(spec_parse_args(t, 0, acc) == Ok::<(Seq<ExprV>, nat), ErrV>(
            (acc.push(v0), (n0 + 1) as nat),
        ));
    } else {
        let rest = arg_seqs.subrange(1, arg_seqs.len() as int);
        let rest_vals = arg_vals.subrange(1, arg_vals.len() as int);
        let rt = args_toks(rest) + seq![TokenV::Operator(')')];
        assert(args_toks(arg_seqs) == a0 + seq![TokenV::Operator(',')] + args_toks(rest));
        assert(t.len() == n0 + 1 + args_toks(rest).len() + 1);
        assert(t[n0] == TokenV::Operator(','));
        assert(window_eq(a0, 0, t, 0, n0)) by {
            assert forall|i: int| 0 <= i < 0 + n0 implies #[trigger] a0[i] == t[i - 0 + 0] by {
                assert(t[i] == a0[i]);
            }
        }
        assert(stopper(a0, n0));
        assert(stopper(t, n0));
        lemma_expression_frame(a0, 0, t, 0, v0, a0.len() as nat);
        assert forall|i: int|
            0 <= i < rest.len() implies spec_parse_expression(#[trigger] rest[i], 0) == Ok::<
            (ExprV, nat),
            ErrV,
        >((rest_vals[i], rest[i].len() as nat)) by {
            assert(rest[i] == arg_seqs[i + 1]);
            assert(rest_vals[i] == arg_vals[i + 1]);
        }
        lemma_args_build(rest, rest_vals, acc.push(v0));
        lemma_args_progress(rt, 0, acc.push(v0));
        assert(window_eq(rt, 0, t, n0 + 1, rt.len() as int)) by {
            assert forall|i: int| 0 <= i < 0 + rt.len() implies #[trigger] rt[i] == t[i - 0 + (n0
                + 1)] by {
                if i < args_toks(rest).len() {
                    assert(rt[i] == args_toks(rest)[i]);
                    assert(t[n0 + 1 + i] == args_toks(rest)[i]);
                } else {
                    assert(rt[i] == TokenV::Operator(')'));
                    assert(t[n0 + 1 + i] == TokenV::Operator(')'));
                }
            }
        }
        lemma_args_frame(
            rt,
            0,
            t,
            n0 + 1,
            acc.push(v0),
            acc.push(v0) + rest_vals,
            (args_toks(rest).len() + 1) as nat,
        );
        assert(acc.push(v0) + rest_vals =~= acc + arg_vals);
        assert(spec_parse_args(t, 0, acc) == Ok::<(Seq<ExprV>, nat), ErrV>(
            (acc + arg_vals, (args_toks(arg_seqs).len() + 1) as nat),
        ));
    }
}

/// Call arguments are positional and ordered: for a token sequence
/// `identifier ( a1 , a2 , ... )` whose argument pieces each parse
/// entirely as expressions, the parser yields a call whose callee is the
/// identifier and whose arguments are the pieces' trees, in order.
pub proof fn lemma_call_positional(
    callee: Seq<char>,
    arg_seqs: Seq<Seq<TokenV>>,
    arg_vals: Seq<ExprV>,
)
    requires
        arg_seqs.len() == arg_vals.len(),
        arg_seqs.len() >= 1,
        forall|i: int|
            0 <= i < arg_seqs.len() ==> spec_parse_expression(#[trigger] arg_seqs[i], 0)
                == Ok::<(ExprV, nat), ErrV>((arg_vals[i], arg_seqs[i].len() as nat)),
    ensures
        spec_parse_expression(call_toks(callee, arg_seqs), 0) == Ok::<(ExprV, nat), ErrV>(
            (ExprV::Call { callee, args: arg_vals }, call_toks(callee, arg_seqs).len() as nat),
        ),
{
    let t = call_toks(callee, arg_seqs);
    let at = args_toks(arg_seqs);
    let a0 = arg_seqs[0];
    assert(spec_parse_expression(a0, 0) == Ok::<(ExprV, nat), ErrV>(
        (arg_vals[0], a0.len() as nat),
    ));
    lemma_expression_progress(a0, 0);
    assert(at[0] == a0[0]) by {
        if arg_seqs.len() == 1 {
        } else {
            assert(at == a0 + seq![TokenV::Operator(',')] + args_toks(
                arg_seqs.subrange(1, arg_seqs.len() as int),
            ));
        }
    }
    assert(t.len() == at.len() + 3);
    assert(t[0] == TokenV::Identifier(callee));
    assert(t[1] == TokenV::Operator('('));
    assert(t[2] == at[0]);
    // the first argument starts with a number, an identifier, or `(`,
    // never with `)`
    assert(t[2] != TokenV::Operator(')')) by {
        assert(spec_parse_primary(a0, 0) is Ok);
    }
    lemma_args_build(arg_seqs, arg_vals, Seq::empty());
    let rt = at + seq![TokenV::Operator(')')];
    lemma_args_progress(rt, 0, Seq::empty());
    assert(window_eq(rt, 0, t, 2, rt.len() as int)) by {
        assert forall|i: int| 0 <= i < 0 + rt.len() implies #[trigger] rt[i] == t[i - 0 + 2] by {
            if i < at.len() {
                assert(rt[i] == at[i]);
                assert(t[2 + i] == at[i]);
            } else {
                assert(rt[i] == TokenV::Operator(')'));
                assert(t[2 + i] == TokenV::Operator(')'));
            }
        }
    }
    lemma_args_frame(rt, 0, t, 2, Seq::empty(), Seq::empty() + arg_vals, (at.len() + 1) as nat);
    assert(Seq::empty() + arg_vals =~= arg_vals);
    assert(spec_parse_identifier(t, 0) == Ok::<(ExprV, nat), ErrV>(
        (ExprV::Call { callee, args: arg_vals }, t.len() as nat),
    ));
    assert(spec_parse_binop(t, t.len() as int, ExprV::Call { callee, args: arg_vals }, 0)
        == Ok::<(ExprV, nat), ErrV>((ExprV::Call { callee, args: arg_vals }, 0 as nat)));
}

/// Three operands associate by precedence: `a op1 b op2 c` folds to
/// `(a op1 b) op2 c` when the first operator binds at least as tightly,
/// and to `a op1 (b op2 c)` when the second binds tighter.
pub proof fn lemma_precedence_association(a: TokenV, op1: char, b: TokenV, op2: char, c: TokenV)
    requires
        is_atom_tok(a),
        is_atom_tok(b),
        is_atom_tok(c),
        spec_prec(op1) >= 0,
        spec_prec(op2) >= 0,
    ensures
        ({
            let toks = seq![a, TokenV::Operator(op1), b, TokenV::Operator(op2), c];
            let left = ExprV::Binary {
                op: op2,
                lhs: Box::new(
                    ExprV::Binary {
                        op: op1,
                        lhs: Box::new(atom_val(a)),
                        rhs: Box::new(atom_val(b)),
                    },
                ),
                rhs: Box::new(atom_val(c)),
            };
            let right = ExprV::Binary {
                op: op1,
                lhs: Box::new(atom_val(a)),
                rhs: Box::new(
                    ExprV::Binary {
                        op: op2,
                        lhs: Box::new(atom_val(b)),
                        rhs: Box::new(atom_val(c)),
                    },
                ),
            };
            spec_parse_expression(toks, 0) == Ok::<(ExprV, nat), ErrV>(
                (
                    if spec_prec(op1) >= spec_prec(op2) {
                        left
                    } else {
                        right
                    },
                    5,
                ),
            )
        }),
{
    let toks = seq![a, TokenV::Operator(op1), b, TokenV::Operator(op2), c];
    let p1 = spec_prec(op1);
    let p2 = spec_prec(op2);
    assert(toks[0] == a && toks[1] == TokenV::Operator(op1) && toks[2] == b && toks[3]
        == TokenV::Operator(op2) && toks[4] == c);
    assert(op1 != '(' && op2 != '(');
    assert(spec_parse_primary(toks, 0) == Ok::<(ExprV, nat), ErrV>((atom_val(a), 1)));
    assert(spec_parse_primary(toks, 2) == Ok::<(ExprV, nat), ErrV>((atom_val(b), 1)));
    assert(spec_parse_primary(toks, 4) == Ok::<(ExprV, nat), ErrV>((atom_val(c), 1)));
    if p1 >= p2 {
        let f1 = ExprV::Binary { op: op1, lhs: Box::new(atom_val(a)), rhs: Box::new(atom_val(b)) };
        let f2 = ExprV::Binary { op: op2, lhs: Box::new(f1), rhs: Box::new(atom_val(c)) };
        assert(spec_parse_binop(toks, 5, f2, 0) == Ok::<(ExprV, nat), ErrV>((f2, 0 as nat)));
        assert(spec_parse_binop(toks, 3, f1, 0) == Ok::<(ExprV, nat), ErrV>((f2, 2 as nat)));
        assert(spec_parse_binop(toks, 1, atom_val(a), 0) == Ok::<(ExprV, nat), ErrV>(
            (f2, 4 as nat),
        ));
    } else {
        let fi = ExprV::Binary { op: op2, lhs: Box::new(atom_val(b)), rhs: Box::new(atom_val(c)) };
        let fo = ExprV::Binary { op: op1, lhs: Box::new(atom_val(a)), rhs: Box::new(fi) };
        assert(spec_parse_binop(toks, 5, fi, p1 + 1) == Ok::<(ExprV, nat), ErrV>((fi, 0 as nat)));
        assert(spec_parse_binop(toks, 3, atom_val(b), p1 + 1) == Ok::<(ExprV, nat), ErrV>(
            (fi, 2 as nat),
        ));
        assert(spec_parse_binop(toks, 5, fo, 0) == Ok::<(ExprV, nat), ErrV>((fo, 0 as nat)));
        assert(spec_parse_binop(toks, 1, atom_val(a), 0) == Ok::<(ExprV, nat), ErrV>(
            (fo, 4 as nat),
        ));
    }
}

} // verus!
