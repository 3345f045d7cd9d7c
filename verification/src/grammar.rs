//! The grammar of expressions, as a recursive-descent reading of a token
//! sequence:
//!
//! ```text
//! add   ::= mul (('+' | '-') mul)*          left to right
//! mul   ::= unary (('*' | '/' | '%') unary)* left to right
//! unary ::= '-' unary | pow
//! pow   ::= atom ('^' unary)?               so `^` groups to the right
//! atom  ::= number | constant | function '(' add ')' | '(' add ')'
//! ```
//!
//! Each reading function takes the tokens and a position and gives the
//! expression read there with the position after it, or the error.

use vstd::prelude::*;
use crate::token::{law_tokens_are_proper, proper_token, spec_tokenize, TokenV};
use crate::error::CalcErrorV;
use crate::expr::{binop_of, constant_of, func_of, numbers_decimal, op_char, BinOp, ExprV, Func};

verus! {

/// The outcome of reading an expression from a position.
pub type Reading = Result<(ExprV, int), CalcErrorV>;

/// A successful reading of `x`, ending at `p`.
pub open spec fn read_ok(x: ExprV, p: int) -> Reading {
    Ok((x, p))
}

/// `+` or `-`.
pub open spec fn is_add_op(t: TokenV) -> bool {
    t == TokenV::Op('+') || t == TokenV::Op('-')
}

/// `*`, `/` or `%`.
pub open spec fn is_mul_op(t: TokenV) -> bool {
    t == TokenV::Op('*') || t == TokenV::Op('/') || t == TokenV::Op('%')
}

/// The binary operator of an operator token.
pub open spec fn token_binop(t: TokenV) -> BinOp {
    match t {
        TokenV::Op(c) => binop_of(c),
        _ => BinOp::Pow,
    }
}

/// Builds a binary expression.
pub open spec fn bin(op: BinOp, a: ExprV, b: ExprV) -> ExprV {
    ExprV::Binary(op, Box::new(a), Box::new(b))
}

/// A sum or difference: a product, then any number of `+`/`-` products.
pub open spec fn read_add(ts: Seq<TokenV>, pos: int) -> Reading
    decreases ts.len() - pos, 6int,
{
    match read_mul(ts, pos) {
        Err(e) => Err(e),
        Ok((l, p)) => if pos <= p <= ts.len() {
            read_add_tail(ts, p, l)
        } else {
            Ok((l, p))
        },
    }
}

/// The `+`/`-` products that follow `left` at `pos`, folded to the left.
pub open spec fn read_add_tail(ts: Seq<TokenV>, pos: int, left: ExprV) -> Reading
    decreases ts.len() - pos, 5int,
{
    if 0 <= pos < ts.len() && is_add_op(ts[pos]) {
        match read_mul(ts, pos + 1) {
            Err(e) => Err(e),
            Ok((r, q)) => if pos < q <= ts.len() {
                read_add_tail(ts, q, bin(token_binop(ts[pos]), left, r))
            } else {
                Ok((r, q))
            },
        }
    } else {
        Ok((left, pos))
    }
}

/// A product, quotient or remainder: a signed factor, then any number of
/// `*`/`/`/`%` signed factors.
pub open spec fn read_mul(ts: Seq<TokenV>, pos: int) -> Reading
    decreases ts.len() - pos, 4int,
{
    match read_unary(ts, pos) {
        Err(e) => Err(e),
        Ok((l, p)) => if pos <= p <= ts.len() {
            read_mul_tail(ts, p, l)
        } else {
            Ok((l, p))
        },
    }
}

/// The `*`/`/`/`%` factors that follow `left` at `pos`, folded to the left.
pub open spec fn read_mul_tail(ts: Seq<TokenV>, pos: int, left: ExprV) -> Reading
    decreases ts.len() - pos, 3int,
{
    if 0 <= pos < ts.len() && is_mul_op(ts[pos]) {
        match read_unary(ts, pos + 1) {
            Err(e) => Err(e),
            Ok((r, q)) => if pos < q <= ts.len() {
                read_mul_tail(ts, q, bin(token_binop(ts[pos]), left, r))
            } else {
                Ok((r, q))
            },
        }
    } else {
        Ok((left, pos))
    }
}

/// A factor with any number of leading minus signs.
pub open spec fn read_unary(ts: Seq<TokenV>, pos: int) -> Reading
    decreases ts.len() - pos, 2int,
{
    if 0 <= pos < ts.len() && ts[pos] == TokenV::Op('-') {
        match read_unary(ts, pos + 1) {
            Err(e) => Err(e),
            Ok((x, q)) => Ok((ExprV::Neg(Box::new(x)), q)),
        }
    } else {
        read_pow(ts, pos)
    }
}

/// An operand, raised to a signed power when `^` follows.
pub open spec fn read_pow(ts: Seq<TokenV>, pos: int) -> Reading
    decreases ts.len() - pos, 1int,
{
    match read_atom(ts, pos) {
        Err(e) => Err(e),
        Ok((b, p)) => if pos <= p < ts.len() && ts[p] == TokenV::Op('^') {
            match read_unary(ts, p + 1) {
                Err(e) => Err(e),
                Ok((x, q)) => Ok((bin(BinOp::Pow, b, x), q)),
            }
        } else {
            Ok((b, p))
        },
    }
}

/// An operand: a number, a constant, a function applied to a parenthesized
/// argument, or a parenthesized expression.
pub open spec fn read_atom(ts: Seq<TokenV>, pos: int) -> Reading
    decreases ts.len() - pos, 0int,
{
    if pos < 0 || pos >= ts.len() {
        Err(CalcErrorV::UnexpectedToken(None))
    } else {
        match ts[pos] {
            TokenV::Number(lit) => Ok((ExprV::Num(lit), pos + 1)),
            TokenV::Ident(name) => if func_of(name) is Some && pos + 1 < ts.len() && ts[pos + 1]
                == TokenV::LParen {
                match read_atom(ts, pos + 1) {
                    Err(e) => Err(e),
                    Ok((x, q)) => Ok((ExprV::Call(func_of(name)->0, Box::new(x)), q)),
                }
            } else if constant_of(name) is Some {
                Ok((ExprV::Const(constant_of(name)->0), pos + 1))
            } else {
                Err(CalcErrorV::UnknownIdent(name))
            },
            TokenV::LParen => match read_add(ts, pos + 1) {
                Err(e) => Err(e),
                Ok((x, q)) => if 0 <= q < ts.len() && ts[q] == TokenV::RParen {
                    Ok((x, q + 1))
                } else {
                    Err(CalcErrorV::MissingCloseParen)
                },
            },
            t => Err(CalcErrorV::UnexpectedToken(Some(t))),
        }
    }
}

/// A whole token sequence as one expression: what is left after the
/// expression is an error.
pub open spec fn read_all(ts: Seq<TokenV>) -> Result<ExprV, CalcErrorV> {
    match read_add(ts, 0) {
        Err(e) => Err(e),
        Ok((x, p)) => if p == ts.len() {
            Ok(x)
        } else {
            Err(CalcErrorV::LeftoverTokens(ts.subrange(p, ts.len() as int)))
        },
    }
}

/// A whole text as one expression.
pub open spec fn read_text(s: Seq<char>) -> Result<ExprV, CalcErrorV> {
    match spec_tokenize(s) {
        Err(e) => Err(e),
        Ok(ts) => read_all(ts),
    }
}

/// A reading from `pos` that succeeds moves forward, and stays within the
/// tokens.
pub open spec fn advances(r: Reading, pos: int, len: int) -> bool {
    r matches Ok((_, p)) ==> pos < p <= len
}

/// A reading from `pos` that succeeds does not move back, and stays within
/// the tokens.
pub open spec fn stays_or_advances(r: Reading, pos: int, len: int) -> bool {
    r matches Ok((_, p)) ==> pos <= p <= len
}

pub proof fn lemma_add_advances(ts: Seq<TokenV>, pos: int)
    requires
        0 <= pos,
    ensures
        advances(read_add(ts, pos), pos, ts.len() as int),
    decreases ts.len() - pos, 6int,
{
    lemma_mul_advances(ts, pos);
    if let Ok((l, p)) = read_mul(ts, pos) {
        lemma_add_tail_advances(ts, p, l);
    }
}

pub proof fn lemma_add_tail_advances(ts: Seq<TokenV>, pos: int, left: ExprV)
    requires
        0 <= pos <= ts.len(),
    ensures
        stays_or_advances(read_add_tail(ts, pos, left), pos, ts.len() as int),
    decreases ts.len() - pos, 5int,
{
    if 0 <= pos < ts.len() && is_add_op(ts[pos]) {
        lemma_mul_advances(ts, pos + 1);
        if let Ok((r, q)) = read_mul(ts, pos + 1) {
            lemma_add_tail_advances(ts, q, bin(token_binop(ts[pos]), left, r));
        }
    }
}

pub proof fn lemma_mul_advances(ts: Seq<TokenV>, pos: int)
    requires
        0 <= pos,
    ensures
        advances(read_mul(ts, pos), pos, ts.len() as int),
    decreases ts.len() - pos, 4int,
{
    lemma_unary_advances(ts, pos);
    if let Ok((l, p)) = read_unary(ts, pos) {
        lemma_mul_tail_advances(ts, p, l);
    }
}

pub proof fn lemma_mul_tail_advances(ts: Seq<TokenV>, pos: int, left: ExprV)
    requires
        0 <= pos <= ts.len(),
    ensures
        stays_or_advances(read_mul_tail(ts, pos, left), pos, ts.len() as int),
    decreases ts.len() - pos, 3int,
{
    if 0 <= pos < ts.len() && is_mul_op(ts[pos]) {
        lemma_unary_advances(ts, pos + 1);
        if let Ok((r, q)) = read_unary(ts, pos + 1) {
            lemma_mul_tail_advances(ts, q, bin(token_binop(ts[pos]), left, r));
        }
    }
}

pub proof fn lemma_unary_advances(ts: Seq<TokenV>, pos: int)
    requires
        0 <= pos,
    ensures
        advances(read_unary(ts, pos), pos, ts.len() as int),
    decreases ts.len() - pos, 2int,
{
    if 0 <= pos < ts.len() && ts[pos] == TokenV::Op('-') {
        lemma_unary_advances(ts, pos + 1);
    } else {
        lemma_pow_advances(ts, pos);
    }
}

pub proof fn lemma_pow_advances(ts: Seq<TokenV>, pos: int)
    requires
        0 <= pos,
    ensures
        advances(read_pow(ts, pos), pos, ts.len() as int),
    decreases ts.len() - pos, 1int,
{
    lemma_atom_advances(ts, pos);
    if let Ok((b, p)) = read_atom(ts, pos) {
        if pos <= p < ts.len() && ts[p] == TokenV::Op('^') {
            lemma_unary_advances(ts, p + 1);
        }
    }
}

pub proof fn lemma_atom_advances(ts: Seq<TokenV>, pos: int)
    requires
        0 <= pos,
    ensures
        advances(read_atom(ts, pos), pos, ts.len() as int),
    decreases ts.len() - pos, 0int,
{
    if 0 <= pos < ts.len() {
        match ts[pos] {
            TokenV::Ident(name) => {
                if func_of(name) is Some && pos + 1 < ts.len() && ts[pos + 1] == TokenV::LParen {
                    lemma_atom_advances(ts, pos + 1);
                }
            },
            TokenV::LParen => {
                lemma_add_advances(ts, pos + 1);
            },
            _ => {},
        }
    }
}

/// Every token of `ts` is proper.
pub open spec fn all_proper(ts: Seq<TokenV>) -> bool {
    forall|j: int| 0 <= j < ts.len() ==> proper_token(#[trigger] ts[j])
}

/// A successful reading gives an expression whose numbers are decimal.
pub open spec fn yields_decimal(r: Reading) -> bool {
    r matches Ok((x, _)) ==> numbers_decimal(x)
}

proof fn lemma_add_decimal(ts: Seq<TokenV>, pos: int)
    requires
        0 <= pos,
        all_proper(ts),
    ensures
        yields_decimal(read_add(ts, pos)),
    decreases ts.len() - pos, 6int,
{
    lemma_mul_decimal(ts, pos);
    if let Ok((l, p)) = read_mul(ts, pos) {
        if pos <= p <= ts.len() {
            lemma_add_tail_decimal(ts, p, l);
        }
    }
}

proof fn lemma_add_tail_decimal(ts: Seq<TokenV>, pos: int, left: ExprV)
    requires
        0 <= pos <= ts.len(),
        all_proper(ts),
        numbers_decimal(left),
    ensures
        yields_decimal(read_add_tail(ts, pos, left)),
    decreases ts.len() - pos, 5int,
{
    if 0 <= pos < ts.len() && is_add_op(ts[pos]) {
        lemma_mul_decimal(ts, pos + 1);
        if let Ok((r, q)) = read_mul(ts, pos + 1) {
            if pos < q <= ts.len() {
                lemma_add_tail_decimal(ts, q, bin(token_binop(ts[pos]), left, r));
            }
        }
    }
}

proof fn lemma_mul_decimal(ts: Seq<TokenV>, pos: int)
    requires
        0 <= pos,
        all_proper(ts),
    ensures
        yields_decimal(read_mul(ts, pos)),
    decreases ts.len() - pos, 4int,
{
    lemma_unary_decimal(ts, pos);
    if let Ok((l, p)) = read_unary(ts, pos) {
        if pos <= p <= ts.len() {
            lemma_mul_tail_decimal(ts, p, l);
        }
    }
}

proof fn lemma_mul_tail_decimal(ts: Seq<TokenV>, pos: int, left: ExprV)
    requires
        0 <= pos <= ts.len(),
        all_proper(ts),
        numbers_decimal(left),
    ensures
        yields_decimal(read_mul_tail(ts, pos, left)),
    decreases ts.len() - pos, 3int,
{
    if 0 <= pos < ts.len() && is_mul_op(ts[pos]) {
        lemma_unary_decimal(ts, pos + 1);
        if let Ok((r, q)) = read_unary(ts, pos + 1) {
            if pos < q <= ts.len() {
                lemma_mul_tail_decimal(ts, q, bin(token_binop(ts[pos]), left, r));
            }
        }
    }
}

proof fn lemma_unary_decimal(ts: Seq<TokenV>, pos: int)
    requires
        0 <= pos,
        all_proper(ts),
    ensures
        yields_decimal(read_unary(ts, pos)),
    decreases ts.len() - pos, 2int,
{
    if 0 <= pos < ts.len() && ts[pos] == TokenV::Op('-') {
        lemma_unary_decimal(ts, pos + 1);
    } else {
        lemma_pow_decimal(ts, pos);
    }
}

proof fn lemma_pow_decimal(ts: Seq<TokenV>, pos: int)
    requires
        0 <= pos,
        all_proper(ts),
    ensures
        yields_decimal(read_pow(ts, pos)),
    decreases ts.len() - pos, 1int,
{
    lemma_atom_decimal(ts, pos);
    if let Ok((b, p)) = read_atom(ts, pos) {
        if pos <= p < ts.len() && ts[p] == TokenV::Op('^') {
            lemma_unary_decimal(ts, p + 1);
        }
    }
}

proof fn lemma_atom_decimal(ts: Seq<TokenV>, pos: int)
    requires
        0 <= pos,
        all_proper(ts),
    ensures
        yields_decimal(read_atom(ts, pos)),
    decreases ts.len() - pos, 0int,
{
    if 0 <= pos < ts.len() {
        assert(proper_token(ts[pos]));
        match ts[pos] {
            TokenV::Ident(name) => {
                if func_of(name) is Some && pos + 1 < ts.len() && ts[pos + 1] == TokenV::LParen {
                    lemma_atom_decimal(ts, pos + 1);
                }
            },
            TokenV::LParen => {
                lemma_add_decimal(ts, pos + 1);
            },
            _ => {},
        }
    }
}

/// Every number of an expression read from text is a decimal number, so
/// that it can always be turned into a floating-point value.
pub proof fn law_read_numbers_are_decimal(s: Seq<char>)
    ensures
        read_text(s) matches Ok(x) ==> numbers_decimal(x),
{
    law_tokens_are_proper(s);
    if let Ok(ts) = spec_tokenize(s) {
        lemma_add_decimal(ts, 0);
    }
}

/// An operand that no `^` follows is the whole power: reading a power where
/// the operand read ends at the end of the tokens or at a token other than
/// `^` gives that operand.
pub proof fn law_power_without_caret(ts: Seq<TokenV>, pos: int)
    requires
        0 <= pos,
    ensures
        read_atom(ts, pos) matches Ok((x, p)) ==> (p == ts.len() || ts[p] != TokenV::Op('^')
            ==> read_pow(ts, pos) == read_ok(x, p)),
        read_atom(ts, pos) is Err ==> read_pow(ts, pos) == read_atom(ts, pos),
{
    lemma_atom_advances(ts, pos);
}

/// The operator character of a step of a chain of sums and differences:
/// `+` when the step adds, `-` when it subtracts.
pub open spec fn sum_step_char(adds: bool) -> char {
    if adds { '+' } else { '-' }
}

/// The tokens of a chain `first o1 n1 o2 n2 ...` of numbers joined by `+`
/// and `-`, where each step is (adds, number).
pub open spec fn sum_chain_tokens(first: Seq<char>, steps: Seq<(bool, Seq<char>)>) -> Seq<TokenV>
    decreases steps.len(),
{
    if steps.len() == 0 {
        seq![TokenV::Number(first)]
    } else {
        sum_chain_tokens(first, steps.drop_last()) + seq![
            TokenV::Op(sum_step_char(steps.last().0)),
            TokenV::Number(steps.last().1),
        ]
    }
}

/// The chain computed step by step from the left: `((first o1 n1) o2 n2) ...`.
pub open spec fn sum_chain_from_left(first: Seq<char>, steps: Seq<(bool, Seq<char>)>) -> ExprV
    decreases steps.len(),
{
    if steps.len() == 0 {
        ExprV::Num(first)
    } else {
        bin(
            if steps.last().0 { BinOp::Add } else { BinOp::Sub },
            sum_chain_from_left(first, steps.drop_last()),
            ExprV::Num(steps.last().1),
        )
    }
}

proof fn lemma_sum_chain_shape(first: Seq<char>, steps: Seq<(bool, Seq<char>)>)
    ensures
        sum_chain_tokens(first, steps).len() == 2 * steps.len() + 1,
        sum_chain_tokens(first, steps)[0] == TokenV::Number(first),
        forall|k: int|
            #![trigger steps[k]]
            0 <= k < steps.len() ==> sum_chain_tokens(first, steps)[2 * k + 1] == TokenV::Op(
                sum_step_char(steps[k].0),
            ) && sum_chain_tokens(first, steps)[2 * k + 2] == TokenV::Number(steps[k].1),
    decreases steps.len(),
{
    if steps.len() > 0 {
        let pre = steps.drop_last();
        lemma_sum_chain_shape(first, pre);
        let ts = sum_chain_tokens(first, steps);
        let tp = sum_chain_tokens(first, pre);
        assert forall|k: int|
            #![trigger steps[k]]
            0 <= k < steps.len() implies sum_chain_tokens(first, steps)[2 * k + 1] == TokenV::Op(
                sum_step_char(steps[k].0),
            ) && sum_chain_tokens(first, steps)[2 * k + 2] == TokenV::Number(steps[k].1) by {
            if k < pre.len() {
                assert(steps[k] == pre[k]);
                assert(pre[k] == steps[k]);
                assert(ts[2 * k + 1] == tp[2 * k + 1]);
                assert(ts[2 * k + 2] == tp[2 * k + 2]);
            } else {
                assert(steps[k] == steps.last());
                assert(2 * k + 1 == tp.len());
            }
        }
    }
}

proof fn lemma_sum_chain_tail(
    first: Seq<char>,
    steps: Seq<(bool, Seq<char>)>,
    k: int,
)
    requires
        0 <= k <= steps.len(),
    ensures
        read_add_tail(
            sum_chain_tokens(first, steps),
            2 * k + 1,
            sum_chain_from_left(first, steps.take(k)),
        ) == read_ok(sum_chain_from_left(first, steps), 2 * steps.len() + 1int),
    decreases steps.len() - k,
{
    let ts = sum_chain_tokens(first, steps);
    lemma_sum_chain_shape(first, steps);
    if k == steps.len() {
        assert(steps.take(k) =~= steps);
    } else {
        let step = steps[k];
        let left = sum_chain_from_left(first, steps.take(k));
        let p = 2 * k + 1;
        let lit = ExprV::Num(step.1);
        assert(ts[p] == TokenV::Op(sum_step_char(step.0)));
        assert(ts[p + 1] == TokenV::Number(step.1));
        assert(p + 2 == ts.len() || ts[p + 2] == TokenV::Op(sum_step_char(steps[k + 1].0)));
        assert(read_atom(ts, p + 1) == read_ok(lit, p + 2));
        assert(read_pow(ts, p + 1) == read_ok(lit, p + 2));
        assert(read_unary(ts, p + 1) == read_ok(lit, p + 2));
        assert(read_mul_tail(ts, p + 2, lit) == read_ok(lit, p + 2));
        assert(read_mul(ts, p + 1) == read_ok(lit, p + 2));
        let next = sum_chain_from_left(first, steps.take(k + 1));
        assert(steps.take(k + 1).drop_last() =~= steps.take(k));
        assert(steps.take(k + 1).last() == step);
        assert(next == bin(token_binop(ts[p]), left, lit));
        lemma_sum_chain_tail(first, steps, k + 1);
    }
}

/// Sums and differences group to the left whatever their mix: a chain
/// `first o1 n1 o2 n2 ...` of numbers joined by `+` and `-` reads as
/// `((first o1 n1) o2 n2) ...`; for instance `8 - 3 + 2` is `(8 - 3) + 2`.
pub proof fn law_sums_group_left(first: Seq<char>, steps: Seq<(bool, Seq<char>)>)
    ensures
        read_all(sum_chain_tokens(first, steps)) == Ok::<ExprV, CalcErrorV>(
            sum_chain_from_left(first, steps),
        ),
{
    let ts = sum_chain_tokens(first, steps);
    lemma_sum_chain_shape(first, steps);
    let a = ExprV::Num(first);
    assert(steps.len() == 0 || ts[1] == TokenV::Op(sum_step_char(steps[0].0)));
    assert(read_atom(ts, 0) == read_ok(a, 1));
    assert(read_pow(ts, 0) == read_ok(a, 1));
    assert(read_unary(ts, 0) == read_ok(a, 1));
    assert(read_mul_tail(ts, 1, a) == read_ok(a, 1));
    assert(read_mul(ts, 0) == read_ok(a, 1));
    assert(steps.take(0) =~= Seq::<(bool, Seq<char>)>::empty());
    lemma_sum_chain_tail(first, steps, 0);
}

/// An operator of the product level: `*`, `/` or `%`.
pub open spec fn is_product_op(op: BinOp) -> bool {
    op == BinOp::Mul || op == BinOp::Div || op == BinOp::Rem
}

/// The tokens of a chain `first o1 n1 o2 n2 ...` of numbers joined by
/// operators, where each step is (operator, number).
pub open spec fn op_chain_tokens(first: Seq<char>, steps: Seq<(BinOp, Seq<char>)>) -> Seq<TokenV>
    decreases steps.len(),
{
    if steps.len() == 0 {
        seq![TokenV::Number(first)]
    } else {
        op_chain_tokens(first, steps.drop_last()) + seq![
            TokenV::Op(op_char(steps.last().0)),
            TokenV::Number(steps.last().1),
        ]
    }
}

/// The chain computed step by step from the left.
pub open spec fn op_chain_from_left(first: Seq<char>, steps: Seq<(BinOp, Seq<char>)>) -> ExprV
    decreases steps.len(),
{
    if steps.len() == 0 {
        ExprV::Num(first)
    } else {
        bin(steps.last().0, op_chain_from_left(first, steps.drop_last()), ExprV::Num(steps.last().1))
    }
}

proof fn lemma_op_chain_shape(first: Seq<char>, steps: Seq<(BinOp, Seq<char>)>)
    ensures
        op_chain_tokens(first, steps).len() == 2 * steps.len() + 1,
        op_chain_tokens(first, steps)[0] == TokenV::Number(first),
        forall|k: int|
            #![trigger steps[k]]
            0 <= k < steps.len() ==> op_chain_tokens(first, steps)[2 * k + 1] == TokenV::Op(
                op_char(steps[k].0),
            ) && op_chain_tokens(first, steps)[2 * k + 2] == TokenV::Number(steps[k].1),
    decreases steps.len(),
{
    if steps.len() > 0 {
        let pre = steps.drop_last();
        lemma_op_chain_shape(first, pre);
        let ts = op_chain_tokens(first, steps);
        let tp = op_chain_tokens(first, pre);
        assert forall|k: int|
            #![trigger steps[k]]
            0 <= k < steps.len() implies op_chain_tokens(first, steps)[2 * k + 1] == TokenV::Op(
                op_char(steps[k].0),
            ) && op_chain_tokens(first, steps)[2 * k + 2] == TokenV::Number(steps[k].1) by {
            if k < pre.len() {
                assert(pre[k] == steps[k]);
                assert(ts[2 * k + 1] == tp[2 * k + 1]);
                assert(ts[2 * k + 2] == tp[2 * k + 2]);
            } else {
                assert(steps[k] == steps.last());
                assert(2 * k + 1 == tp.len());
            }
        }
    }
}

proof fn lemma_product_chain_tail(first: Seq<char>, steps: Seq<(BinOp, Seq<char>)>, k: int)
    requires
        0 <= k <= steps.len(),
        forall|j: int| 0 <= j < steps.len() ==> is_product_op(#[trigger] steps[j].0),
    ensures
        read_mul_tail(
            op_chain_tokens(first, steps),
            2 * k + 1,
            op_chain_from_left(first, steps.take(k)),
        ) == read_ok(op_chain_from_left(first, steps), 2 * steps.len() + 1int),
    decreases steps.len() - k,
{
    let ts = op_chain_tokens(first, steps);
    lemma_op_chain_shape(first, steps);
    if k == steps.len() {
        assert(steps.take(k) =~= steps);
    } else {
        let step = steps[k];
        assert(is_product_op(step.0));
        let left = op_chain_from_left(first, steps.take(k));
        let p = 2 * k + 1;
        let lit = ExprV::Num(step.1);
        assert(ts[p] == TokenV::Op(op_char(step.0)));
        assert(ts[p + 1] == TokenV::Number(step.1));
        if k + 1 < steps.len() {
            assert(is_product_op(steps[k + 1].0));
            assert(ts[p + 2] == TokenV::Op(op_char(steps[k + 1].0)));
        }
        assert(read_atom(ts, p + 1) == read_ok(lit, p + 2));
        assert(read_pow(ts, p + 1) == read_ok(lit, p + 2));
        assert(read_unary(ts, p + 1) == read_ok(lit, p + 2));
        let next = op_chain_from_left(first, steps.take(k + 1));
        assert(steps.take(k + 1).drop_last() =~= steps.take(k));
        assert(steps.take(k + 1).last() == step);
        assert(next == bin(token_binop(ts[p]), left, lit));
        lemma_product_chain_tail(first, steps, k + 1);
    }
}

/// Products, quotients and remainders group to the left whatever their
/// mix: a chain `first o1 n1 o2 n2 ...` of numbers joined by `*`, `/` and
/// `%` reads as `((first o1 n1) o2 n2) ...`; for instance `8 / 4 * 2` is
/// `(8 / 4) * 2`.
pub proof fn law_products_group_left(first: Seq<char>, steps: Seq<(BinOp, Seq<char>)>)
    requires
        forall|j: int| 0 <= j < steps.len() ==> is_product_op(#[trigger] steps[j].0),
    ensures
        read_all(op_chain_tokens(first, steps)) == Ok::<ExprV, CalcErrorV>(
            op_chain_from_left(first, steps),
        ),
{
    let ts = op_chain_tokens(first, steps);
    lemma_op_chain_shape(first, steps);
    let a = ExprV::Num(first);
    if steps.len() > 0 {
        assert(is_product_op(steps[0].0));
        assert(ts[1] == TokenV::Op(op_char(steps[0].0)));
    }
    assert(read_atom(ts, 0) == read_ok(a, 1));
    assert(read_pow(ts, 0) == read_ok(a, 1));
    assert(read_unary(ts, 0) == read_ok(a, 1));
    assert(steps.take(0) =~= Seq::<(BinOp, Seq<char>)>::empty());
    lemma_product_chain_tail(first, steps, 0);
    let whole = op_chain_from_left(first, steps);
    let end = 2 * steps.len() + 1int;
    assert(read_mul(ts, 0) == read_ok(whole, end));
    assert(read_add_tail(ts, end, whole) == read_ok(whole, end));
}

/// `*` binds tighter than `+`: `a + b * c` is `a + (b * c)`.
pub proof fn law_product_binds_tighter(a: Seq<char>, b: Seq<char>, c: Seq<char>)
    ensures
        read_all(
            seq![
                TokenV::Number(a),
                TokenV::Op('+'),
                TokenV::Number(b),
                TokenV::Op('*'),
                TokenV::Number(c),
            ],
        ) == Ok::<ExprV, CalcErrorV>(
            bin(BinOp::Add, ExprV::Num(a), bin(BinOp::Mul, ExprV::Num(b), ExprV::Num(c))),
        ),
{
    let ts = seq![
        TokenV::Number(a),
        TokenV::Op('+'),
        TokenV::Number(b),
        TokenV::Op('*'),
        TokenV::Number(c),
    ];
    let bc = bin(BinOp::Mul, ExprV::Num(b), ExprV::Num(c));
    assert(read_pow(ts, 4) == read_ok(ExprV::Num(c), 5));
    assert(read_unary(ts, 4) == read_pow(ts, 4));
    assert(read_mul_tail(ts, 5, bc) == read_ok(bc, 5));
    assert(read_pow(ts, 2) == read_ok(ExprV::Num(b), 3));
    assert(read_unary(ts, 2) == read_pow(ts, 2));
    assert(read_mul_tail(ts, 3, ExprV::Num(b)) == read_ok(bc, 5));
    assert(read_mul(ts, 2) == read_ok(bc, 5));
    assert(read_pow(ts, 0) == read_ok(ExprV::Num(a), 1));
    assert(read_unary(ts, 0) == read_pow(ts, 0));
    assert(read_mul_tail(ts, 1, ExprV::Num(a)) == read_ok(ExprV::Num(a), 1));
    assert(read_mul(ts, 0) == read_ok(ExprV::Num(a), 1));
    let whole = bin(BinOp::Add, ExprV::Num(a), bc);
    assert(read_add_tail(ts, 5, whole) == read_ok(whole, 5));
    assert(read_add_tail(ts, 1, ExprV::Num(a)) == read_ok(whole, 5));
    assert(read_add(ts, 0) == read_ok(whole, 5));
}

/// `-` groups to the left: `a - b - c` is `(a - b) - c`.
pub proof fn law_difference_groups_left(a: Seq<char>, b: Seq<char>, c: Seq<char>)
    ensures
        read_all(
            seq![
                TokenV::Number(a),
                TokenV::Op('-'),
                TokenV::Number(b),
                TokenV::Op('-'),
                TokenV::Number(c),
            ],
        ) == Ok::<ExprV, CalcErrorV>(
            bin(BinOp::Sub, bin(BinOp::Sub, ExprV::Num(a), ExprV::Num(b)), ExprV::Num(c)),
        ),
{
    let ts = seq![
        TokenV::Number(a),
        TokenV::Op('-'),
        TokenV::Number(b),
        TokenV::Op('-'),
        TokenV::Number(c),
    ];
    let ab = bin(BinOp::Sub, ExprV::Num(a), ExprV::Num(b));
    let whole = bin(BinOp::Sub, ab, ExprV::Num(c));
    assert(read_pow(ts, 4) == read_ok(ExprV::Num(c), 5));
    assert(read_unary(ts, 4) == read_pow(ts, 4));
    assert(read_mul_tail(ts, 5, ExprV::Num(c)) == read_ok(ExprV::Num(c), 5));
    assert(read_mul(ts, 4) == read_ok(ExprV::Num(c), 5));
    assert(read_pow(ts, 2) == read_ok(ExprV::Num(b), 3));
    assert(read_unary(ts, 2) == read_pow(ts, 2));
    assert(read_mul_tail(ts, 3, ExprV::Num(b)) == read_ok(ExprV::Num(b), 3));
    assert(read_mul(ts, 2) == read_ok(ExprV::Num(b), 3));
    assert(read_pow(ts, 0) == read_ok(ExprV::Num(a), 1));
    assert(read_unary(ts, 0) == read_pow(ts, 0));
    assert(read_mul_tail(ts, 1, ExprV::Num(a)) == read_ok(ExprV::Num(a), 1));
    assert(read_mul(ts, 0) == read_ok(ExprV::Num(a), 1));
    assert(read_add_tail(ts, 5, whole) == read_ok(whole, 5));
    assert(read_add_tail(ts, 3, ab) == read_ok(whole, 5));
    assert(read_add_tail(ts, 1, ExprV::Num(a)) == read_ok(whole, 5));
    assert(read_add(ts, 0) == read_ok(whole, 5));
}

/// `^` groups to the right: `a ^ b ^ c` is `a ^ (b ^ c)`.
pub proof fn law_power_groups_right(a: Seq<char>, b: Seq<char>, c: Seq<char>)
    ensures
        read_all(
            seq![
                TokenV::Number(a),
                TokenV::Op('^'),
                TokenV::Number(b),
                TokenV::Op('^'),
                TokenV::Number(c),
            ],
        ) == Ok::<ExprV, CalcErrorV>(
            bin(BinOp::Pow, ExprV::Num(a), bin(BinOp::Pow, ExprV::Num(b), ExprV::Num(c))),
        ),
{
    let ts = seq![
        TokenV::Number(a),
        TokenV::Op('^'),
        TokenV::Number(b),
        TokenV::Op('^'),
        TokenV::Number(c),
    ];
    let bc = bin(BinOp::Pow, ExprV::Num(b), ExprV::Num(c));
    let whole = bin(BinOp::Pow, ExprV::Num(a), bc);
    assert(read_pow(ts, 4) == read_ok(ExprV::Num(c), 5));
    assert(read_unary(ts, 4) == read_pow(ts, 4));
    assert(read_pow(ts, 2) == read_ok(bc, 5));
    assert(read_unary(ts, 2) == read_pow(ts, 2));
    assert(read_pow(ts, 0) == read_ok(whole, 5));
    assert(read_unary(ts, 0) == read_pow(ts, 0));
    assert(read_mul_tail(ts, 5, whole) == read_ok(whole, 5));
    assert(read_mul(ts, 0) == read_ok(whole, 5));
    assert(read_add_tail(ts, 5, whole) == read_ok(whole, 5));
    assert(read_add(ts, 0) == read_ok(whole, 5));
}

/// A leading minus applies to the whole power: `-a ^ b` is `-(a ^ b)`.
pub proof fn law_minus_applies_to_power(a: Seq<char>, b: Seq<char>)
    ensures
        read_all(
            seq![TokenV::Op('-'), TokenV::Number(a), TokenV::Op('^'), TokenV::Number(b)],
        ) == Ok::<ExprV, CalcErrorV>(
            ExprV::Neg(Box::new(bin(BinOp::Pow, ExprV::Num(a), ExprV::Num(b)))),
        ),
{
    let ts = seq![TokenV::Op('-'), TokenV::Number(a), TokenV::Op('^'), TokenV::Number(b)];
    let ab = bin(BinOp::Pow, ExprV::Num(a), ExprV::Num(b));
    let whole = ExprV::Neg(Box::new(ab));
    assert(read_pow(ts, 3) == read_ok(ExprV::Num(b), 4));
    assert(read_unary(ts, 3) == read_pow(ts, 3));
    assert(read_pow(ts, 1) == read_ok(ab, 4));
    assert(read_unary(ts, 1) == read_pow(ts, 1));
    assert(read_unary(ts, 0) == read_ok(whole, 4));
    assert(read_mul_tail(ts, 4, whole) == read_ok(whole, 4));
    assert(read_mul(ts, 0) == read_ok(whole, 4));
    assert(read_add_tail(ts, 4, whole) == read_ok(whole, 4));
    assert(read_add(ts, 0) == read_ok(whole, 4));
}


/// A reading moved `k` positions along.
pub open spec fn shifted(r: Reading, k: int) -> Reading {
    match r {
        Ok((x, p)) => Ok((x, p + k)),
        Err(e) => Err(e),
    }
}

proof fn lemma_add_shift(pre: Seq<TokenV>, ts: Seq<TokenV>, pos: int)
    requires
        0 <= pos,
    ensures
        read_add(pre + ts, pre.len() + pos) == shifted(read_add(ts, pos), pre.len() as int),
    decreases ts.len() - pos, 6int,
{
    lemma_mul_shift(pre, ts, pos);
    lemma_mul_advances(ts, pos);
    if let Ok((l, p)) = read_mul(ts, pos) {
        lemma_add_tail_shift(pre, ts, p, l);
    }
}

proof fn lemma_add_tail_shift(pre: Seq<TokenV>, ts: Seq<TokenV>, pos: int, left: ExprV)
    requires
        0 <= pos <= ts.len(),
    ensures
        read_add_tail(pre + ts, pre.len() + pos, left) == shifted(
            read_add_tail(ts, pos, left),
            pre.len() as int,
        ),
    decreases ts.len() - pos, 5int,
{
    let big = pre + ts;
    if pos < ts.len() {
        assert(big[pre.len() + pos] == ts[pos]);
        if is_add_op(ts[pos]) {
            lemma_mul_shift(pre, ts, pos + 1);
            lemma_mul_advances(ts, pos + 1);
            if let Ok((r, q)) = read_mul(ts, pos + 1) {
                lemma_add_tail_shift(pre, ts, q, bin(token_binop(ts[pos]), left, r));
            }
        }
    }
}

proof fn lemma_mul_shift(pre: Seq<TokenV>, ts: Seq<TokenV>, pos: int)
    requires
        0 <= pos,
    ensures
        read_mul(pre + ts, pre.len() + pos) == shifted(read_mul(ts, pos), pre.len() as int),
    decreases ts.len() - pos, 4int,
{
    lemma_unary_shift(pre, ts, pos);
    lemma_unary_advances(ts, pos);
    if let Ok((l, p)) = read_unary(ts, pos) {
        lemma_mul_tail_shift(pre, ts, p, l);
    }
}

proof fn lemma_mul_tail_shift(pre: Seq<TokenV>, ts: Seq<TokenV>, pos: int, left: ExprV)
    requires
        0 <= pos <= ts.len(),
    ensures
        read_mul_tail(pre + ts, pre.len() + pos, left) == shifted(
            read_mul_tail(ts, pos, left),
            pre.len() as int,
        ),
    decreases ts.len() - pos, 3int,
{
    let big = pre + ts;
    if pos < ts.len() {
        assert(big[pre.len() + pos] == ts[pos]);
        if is_mul_op(ts[pos]) {
            lemma_unary_shift(pre, ts, pos + 1);
            lemma_unary_advances(ts, pos + 1);
            if let Ok((r, q)) = read_unary(ts, pos + 1) {
                lemma_mul_tail_shift(pre, ts, q, bin(token_binop(ts[pos]), left, r));
            }
        }
    }
}

proof fn lemma_unary_shift(pre: Seq<TokenV>, ts: Seq<TokenV>, pos: int)
    requires
        0 <= pos,
    ensures
        read_unary(pre + ts, pre.len() + pos) == shifted(read_unary(ts, pos), pre.len() as int),
    decreases ts.len() - pos, 2int,
{
    let big = pre + ts;
    if pos < ts.len() {
        assert(big[pre.len() + pos] == ts[pos]);
    }
    if 0 <= pos < ts.len() && ts[pos] == TokenV::Op('-') {
        lemma_unary_shift(pre, ts, pos + 1);
    } else {
        lemma_pow_shift(pre, ts, pos);
    }
}

proof fn lemma_pow_shift(pre: Seq<TokenV>, ts: Seq<TokenV>, pos: int)
    requires
        0 <= pos,
    ensures
        read_pow(pre + ts, pre.len() + pos) == shifted(read_pow(ts, pos), pre.len() as int),
    decreases ts.len() - pos, 1int,
{
    let big = pre + ts;
    lemma_atom_shift(pre, ts, pos);
    lemma_atom_advances(ts, pos);
    if let Ok((b, p)) = read_atom(ts, pos) {
        if p < ts.len() {
            assert(big[pre.len() + p] == ts[p]);
            if ts[p] == TokenV::Op('^') {
                lemma_unary_shift(pre, ts, p + 1);
            }
        }
    }
}

proof fn lemma_atom_shift(pre: Seq<TokenV>, ts: Seq<TokenV>, pos: int)
    requires
        0 <= pos,
    ensures
        read_atom(pre + ts, pre.len() + pos) == shifted(read_atom(ts, pos), pre.len() as int),
    decreases ts.len() - pos, 0int,
{
    let big = pre + ts;
    if pos < ts.len() {
        assert(big[pre.len() + pos] == ts[pos]);
        if pos + 1 < ts.len() {
            assert(big[pre.len() + pos + 1] == ts[pos + 1]);
        }
        match ts[pos] {
            TokenV::Ident(name) => {
                if func_of(name) is Some && pos + 1 < ts.len() && ts[pos + 1] == TokenV::LParen {
                    lemma_atom_shift(pre, ts, pos + 1);
                }
            },
            TokenV::LParen => {
                lemma_add_shift(pre, ts, pos + 1);
                lemma_add_advances(ts, pos + 1);
                if let Ok((x, q)) = read_add(ts, pos + 1) {
                    if q < ts.len() {
                        assert(big[pre.len() + q] == ts[q]);
                    }
                }
            },
            _ => {},
        }
    }
}


/// Tokens that a closing parenthesis follows.
spec fn closes(post: Seq<TokenV>) -> bool {
    post.len() > 0 && post[0] == TokenV::RParen
}

proof fn lemma_add_extend(ts: Seq<TokenV>, post: Seq<TokenV>, pos: int)
    requires
        0 <= pos,
        closes(post),
        read_add(ts, pos) is Ok,
    ensures
        read_add(ts + post, pos) == read_add(ts, pos),
    decreases ts.len() - pos, 6int,
{
    lemma_mul_advances(ts, pos);
    if let Ok((l, p)) = read_mul(ts, pos) {
        lemma_mul_extend(ts, post, pos);
        lemma_add_tail_extend(ts, post, p, l);
    }
}

proof fn lemma_add_tail_extend(ts: Seq<TokenV>, post: Seq<TokenV>, pos: int, left: ExprV)
    requires
        0 <= pos <= ts.len(),
        closes(post),
        read_add_tail(ts, pos, left) is Ok,
    ensures
        read_add_tail(ts + post, pos, left) == read_add_tail(ts, pos, left),
    decreases ts.len() - pos, 5int,
{
    let big = ts + post;
    assert(big[ts.len() as int] == post[0]);
    if pos < ts.len() {
        assert(big[pos] == ts[pos]);
        if is_add_op(ts[pos]) {
            lemma_mul_advances(ts, pos + 1);
            if let Ok((r, q)) = read_mul(ts, pos + 1) {
                lemma_mul_extend(ts, post, pos + 1);
                lemma_add_tail_extend(ts, post, q, bin(token_binop(ts[pos]), left, r));
            }
        }
    }
}

proof fn lemma_mul_extend(ts: Seq<TokenV>, post: Seq<TokenV>, pos: int)
    requires
        0 <= pos,
        closes(post),
        read_mul(ts, pos) is Ok,
    ensures
        read_mul(ts + post, pos) == read_mul(ts, pos),
    decreases ts.len() - pos, 4int,
{
    lemma_unary_advances(ts, pos);
    if let Ok((l, p)) = read_unary(ts, pos) {
        lemma_unary_extend(ts, post, pos);
        lemma_mul_tail_extend(ts, post, p, l);
    }
}

proof fn lemma_mul_tail_extend(ts: Seq<TokenV>, post: Seq<TokenV>, pos: int, left: ExprV)
    requires
        0 <= pos <= ts.len(),
        closes(post),
        read_mul_tail(ts, pos, left) is Ok,
    ensures
        read_mul_tail(ts + post, pos, left) == read_mul_tail(ts, pos, left),
    decreases ts.len() - pos, 3int,
{
    let big = ts + post;
    assert(big[ts.len() as int] == post[0]);
    if pos < ts.len() {
        assert(big[pos] == ts[pos]);
        if is_mul_op(ts[pos]) {
            lemma_unary_advances(ts, pos + 1);
            if let Ok((r, q)) = read_unary(ts, pos + 1) {
                lemma_unary_extend(ts, post, pos + 1);
                lemma_mul_tail_extend(ts, post, q, bin(token_binop(ts[pos]), left, r));
            }
        }
    }
}

proof fn lemma_unary_extend(ts: Seq<TokenV>, post: Seq<TokenV>, pos: int)
    requires
        0 <= pos,
        closes(post),
        read_unary(ts, pos) is Ok,
    ensures
        read_unary(ts + post, pos) == read_unary(ts, pos),
    decreases ts.len() - pos, 2int,
{
    let big = ts + post;
    if pos >= ts.len() {
        assert(read_atom(ts, pos) is Err);
        assert(read_pow(ts, pos) is Err);
    } else {
        assert(big[pos] == ts[pos]);
        if ts[pos] == TokenV::Op('-') {
            lemma_unary_extend(ts, post, pos + 1);
        } else {
            lemma_pow_extend(ts, post, pos);
        }
    }
}

proof fn lemma_pow_extend(ts: Seq<TokenV>, post: Seq<TokenV>, pos: int)
    requires
        0 <= pos,
        closes(post),
        read_pow(ts, pos) is Ok,
    ensures
        read_pow(ts + post, pos) == read_pow(ts, pos),
    decreases ts.len() - pos, 1int,
{
    let big = ts + post;
    assert(big[ts.len() as int] == post[0]);
    lemma_atom_advances(ts, pos);
    if let Ok((b, p)) = read_atom(ts, pos) {
        lemma_atom_extend(ts, post, pos);
        if p < ts.len() {
            assert(big[p] == ts[p]);
            if ts[p] == TokenV::Op('^') {
                lemma_unary_extend(ts, post, p + 1);
            }
        }
    }
}

proof fn lemma_atom_extend(ts: Seq<TokenV>, post: Seq<TokenV>, pos: int)
    requires
        0 <= pos,
        closes(post),
        read_atom(ts, pos) is Ok,
    ensures
        read_atom(ts + post, pos) == read_atom(ts, pos),
    decreases ts.len() - pos, 0int,
{
    let big = ts + post;
    assert(big[ts.len() as int] == post[0]);
    if pos < ts.len() {
        assert(big[pos] == ts[pos]);
        if pos + 1 < ts.len() {
            assert(big[pos + 1] == ts[pos + 1]);
        }
        match ts[pos] {
            TokenV::Ident(name) => {
                if func_of(name) is Some && pos + 1 < ts.len() && ts[pos + 1] == TokenV::LParen {
                    lemma_atom_extend(ts, post, pos + 1);
                }
            },
            TokenV::LParen => {
                lemma_add_advances(ts, pos + 1);
                if let Ok((x, q)) = read_add(ts, pos + 1) {
                    lemma_add_extend(ts, post, pos + 1);
                    if q < ts.len() {
                        assert(big[q] == ts[q]);
                    }
                }
            },
            _ => {},
        }
    }
}


/// Reading `( ts ) post` where `ts` reads wholly as `x` and `post` starts
/// after the closing parenthesis.
#[verifier::rlimit(30)]
proof fn lemma_paren_atom(ts: Seq<TokenV>, rest: Seq<TokenV>, x: ExprV)
    requires
        read_all(ts) == Ok::<ExprV, CalcErrorV>(x),
    ensures
        read_atom(seq![TokenV::LParen] + ts + seq![TokenV::RParen] + rest, 0) == read_ok(
            x,
            ts.len() + 2int,
        ),
{
    let n = ts.len() as int;
    let post = seq![TokenV::RParen] + rest;
    let big = seq![TokenV::LParen] + ts + seq![TokenV::RParen] + rest;
    assert(big =~= seq![TokenV::LParen] + (ts + post));
    assert(post[0] == TokenV::RParen);
    lemma_add_advances(ts, 0);
    assert(read_add(ts, 0) == read_ok(x, n));
    lemma_add_extend(ts, post, 0);
    lemma_add_shift(seq![TokenV::LParen], ts + post, 0);
    assert(read_add(big, 1) == read_ok(x, n + 1));
    assert(big[0] == TokenV::LParen);
    assert(big[n + 1] == TokenV::RParen);
}

#[verifier::rlimit(30)]
proof fn lemma_paren_whole(ts: Seq<TokenV>, x: ExprV)
    requires
        read_all(ts) == Ok::<ExprV, CalcErrorV>(x),
    ensures
        read_atom(seq![TokenV::LParen] + ts + seq![TokenV::RParen], 0) == read_ok(
            x,
            ts.len() + 2int,
        ),
        read_all(seq![TokenV::LParen] + ts + seq![TokenV::RParen]) == Ok::<ExprV, CalcErrorV>(x),
{
    let n = ts.len() as int;
    let p1 = seq![TokenV::LParen] + ts + seq![TokenV::RParen];
    lemma_paren_atom(ts, Seq::<TokenV>::empty(), x);
    assert(p1 + Seq::<TokenV>::empty() =~= p1);
    assert(read_atom(p1, 0) == read_ok(x, n + 2));
    assert(read_pow(p1, 0) == read_ok(x, n + 2));
    assert(read_unary(p1, 0) == read_ok(x, n + 2));
    assert(read_mul_tail(p1, n + 2, x) == read_ok(x, n + 2));
    assert(read_mul(p1, 0) == read_ok(x, n + 2));
    assert(read_add_tail(p1, n + 2, x) == read_ok(x, n + 2));
    assert(read_add(p1, 0) == read_ok(x, n + 2));
}

#[verifier::rlimit(30)]
proof fn lemma_paren_call(ts: Seq<TokenV>, name: Seq<char>, f: Func, x: ExprV)
    requires
        read_all(ts) == Ok::<ExprV, CalcErrorV>(x),
        func_of(name) == Some(f),
    ensures
        read_all(seq![TokenV::Ident(name), TokenV::LParen] + ts + seq![TokenV::RParen]) == Ok::<
            ExprV,
            CalcErrorV,
        >(ExprV::Call(f, Box::new(x))),
{
    let n = ts.len() as int;
    let p1 = seq![TokenV::LParen] + ts + seq![TokenV::RParen];
    lemma_paren_whole(ts, x);
    let pre = seq![TokenV::Ident(name)];
    let p2 = seq![TokenV::Ident(name), TokenV::LParen] + ts + seq![TokenV::RParen];
    assert(p2 =~= pre + p1);
    lemma_atom_shift(pre, p1, 0);
    assert(read_atom(p2, 1) == read_ok(x, n + 3));
    assert(p2[0] == TokenV::Ident(name));
    assert(p2[1] == TokenV::LParen);
    let call = ExprV::Call(f, Box::new(x));
    assert(read_atom(p2, 0) == read_ok(call, n + 3));
    assert(read_pow(p2, 0) == read_ok(call, n + 3));
    assert(read_unary(p2, 0) == read_ok(call, n + 3));
    assert(read_mul_tail(p2, n + 3, call) == read_ok(call, n + 3));
    assert(read_mul(p2, 0) == read_ok(call, n + 3));
    assert(read_add_tail(p2, n + 3, call) == read_ok(call, n + 3));
    assert(read_add(p2, 0) == read_ok(call, n + 3));
}

#[verifier::rlimit(30)]
proof fn lemma_paren_times(ts: Seq<TokenV>, c: Seq<char>, x: ExprV)
    requires
        read_all(ts) == Ok::<ExprV, CalcErrorV>(x),
    ensures
        read_all(
            seq![TokenV::LParen] + ts + seq![TokenV::RParen, TokenV::Op('*'), TokenV::Number(c)],
        ) == Ok::<ExprV, CalcErrorV>(bin(BinOp::Mul, x, ExprV::Num(c))),
{
    let n = ts.len() as int;
    let tail = seq![TokenV::Op('*'), TokenV::Number(c)];
    let p3 = seq![TokenV::LParen] + ts + seq![TokenV::RParen, TokenV::Op('*'), TokenV::Number(c)];
    assert(p3 =~= seq![TokenV::LParen] + ts + seq![TokenV::RParen] + tail);
    lemma_paren_atom(ts, tail, x);
    let prod = bin(BinOp::Mul, x, ExprV::Num(c));
    assert(p3[n + 2] == TokenV::Op('*'));
    assert(p3[n + 3] == TokenV::Number(c));
    assert(read_pow(p3, 0) == read_ok(x, n + 2));
    assert(read_unary(p3, 0) == read_ok(x, n + 2));
    assert(read_atom(p3, n + 3) == read_ok(ExprV::Num(c), n + 4));
    assert(read_pow(p3, n + 3) == read_ok(ExprV::Num(c), n + 4));
    assert(read_unary(p3, n + 3) == read_ok(ExprV::Num(c), n + 4));
    assert(read_mul_tail(p3, n + 4, prod) == read_ok(prod, n + 4));
    assert(read_mul_tail(p3, n + 2, x) == read_ok(prod, n + 4));
    assert(read_mul(p3, 0) == read_ok(prod, n + 4));
    assert(read_add_tail(p3, n + 4, prod) == read_ok(prod, n + 4));
    assert(read_add(p3, 0) == read_ok(prod, n + 4));
}

#[verifier::rlimit(30)]
proof fn lemma_times_paren(ts: Seq<TokenV>, c: Seq<char>, x: ExprV)
    requires
        read_all(ts) == Ok::<ExprV, CalcErrorV>(x),
    ensures
        read_all(
            seq![TokenV::Number(c), TokenV::Op('*'), TokenV::LParen] + ts + seq![TokenV::RParen],
        ) == Ok::<ExprV, CalcErrorV>(bin(BinOp::Mul, ExprV::Num(c), x)),
{
    let n = ts.len() as int;
    let p1 = seq![TokenV::LParen] + ts + seq![TokenV::RParen];
    lemma_paren_whole(ts, x);
    let pre4 = seq![TokenV::Number(c), TokenV::Op('*')];
    let p4 = seq![TokenV::Number(c), TokenV::Op('*'), TokenV::LParen] + ts + seq![TokenV::RParen];
    assert(p4 =~= pre4 + p1);
    lemma_atom_shift(pre4, p1, 0);
    let prod4 = bin(BinOp::Mul, ExprV::Num(c), x);
    assert(p4[0] == TokenV::Number(c));
    assert(p4[1] == TokenV::Op('*'));
    assert(p4[2] == TokenV::LParen);
    assert(read_atom(p4, 2) == read_ok(x, n + 4));
    assert(read_pow(p4, 2) == read_ok(x, n + 4));
    assert(read_unary(p4, 2) == read_ok(x, n + 4));
    assert(read_atom(p4, 0) == read_ok(ExprV::Num(c), 1));
    assert(read_pow(p4, 0) == read_ok(ExprV::Num(c), 1));
    assert(read_unary(p4, 0) == read_ok(ExprV::Num(c), 1));
    assert(read_mul_tail(p4, n + 4, prod4) == read_ok(prod4, n + 4));
    assert(read_mul_tail(p4, 1, ExprV::Num(c)) == read_ok(prod4, n + 4));
    assert(read_mul(p4, 0) == read_ok(prod4, n + 4));
    assert(read_add_tail(p4, n + 4, prod4) == read_ok(prod4, n + 4));
    assert(read_add(p4, 0) == read_ok(prod4, n + 4));
}

/// Parentheses group: tokens that read as a whole expression `x` read, in
/// parentheses, as `x` again; after a function's name, as that function
/// applied to `x`; and multiplied by a number `c` on either side, as the
/// product of `x` and `c`, whatever `x` is (so `(1 + 2) * 3` multiplies the
/// sum by 3).
pub proof fn law_parentheses_group(ts: Seq<TokenV>, name: Seq<char>, c: Seq<char>)
    ensures
        read_all(ts) matches Ok(x) ==> read_all(
            seq![TokenV::LParen] + ts + seq![TokenV::RParen],
        ) == Ok::<ExprV, CalcErrorV>(x),
        read_all(ts) matches Ok(x) ==> (func_of(name) matches Some(f) ==> read_all(
            seq![TokenV::Ident(name), TokenV::LParen] + ts + seq![TokenV::RParen],
        ) == Ok::<ExprV, CalcErrorV>(ExprV::Call(f, Box::new(x)))),
        read_all(ts) matches Ok(x) ==> read_all(
            seq![TokenV::LParen] + ts + seq![TokenV::RParen, TokenV::Op('*'), TokenV::Number(c)],
        ) == Ok::<ExprV, CalcErrorV>(bin(BinOp::Mul, x, ExprV::Num(c))),
        read_all(ts) matches Ok(x) ==> read_all(
            seq![TokenV::Number(c), TokenV::Op('*'), TokenV::LParen] + ts + seq![TokenV::RParen],
        ) == Ok::<ExprV, CalcErrorV>(bin(BinOp::Mul, ExprV::Num(c), x)),
{
    if let Ok(x) = read_all(ts) {
        lemma_paren_whole(ts, x);
        if let Some(f) = func_of(name) {
            lemma_paren_call(ts, name, f, x);
        }
        lemma_paren_times(ts, c, x);
        lemma_times_paren(ts, c, x);
    }
}


#[verifier::rlimit(30)]
proof fn lemma_one_operator(a: Seq<char>, c: char, b: Seq<char>)
    requires
        c == '+' || c == '-' || c == '*' || c == '/' || c == '%' || c == '^',
    ensures
        read_all(seq![TokenV::Number(a), TokenV::Op(c), TokenV::Number(b)]) == Ok::<
            ExprV,
            CalcErrorV,
        >(bin(binop_of(c), ExprV::Num(a), ExprV::Num(b))),
{
    let ts = seq![TokenV::Number(a), TokenV::Op(c), TokenV::Number(b)];
    let na = ExprV::Num(a);
    let nb = ExprV::Num(b);
    let whole = bin(binop_of(c), na, nb);
    assert(ts[0] == TokenV::Number(a));
    assert(ts[1] == TokenV::Op(c));
    assert(ts[2] == TokenV::Number(b));
    assert(read_atom(ts, 2) == read_ok(nb, 3));
    assert(read_pow(ts, 2) == read_ok(nb, 3));
    assert(read_unary(ts, 2) == read_pow(ts, 2));
    assert(read_atom(ts, 0) == read_ok(na, 1));
    assert(read_unary(ts, 0) == read_pow(ts, 0));
    if c == '^' {
        assert(read_pow(ts, 0) == read_ok(whole, 3));
        assert(read_mul_tail(ts, 3, whole) == read_ok(whole, 3));
        assert(read_mul(ts, 0) == read_ok(whole, 3));
        assert(read_add_tail(ts, 3, whole) == read_ok(whole, 3));
    } else {
        assert(read_pow(ts, 0) == read_ok(na, 1));
        if c == '*' || c == '/' || c == '%' {
            assert(read_mul_tail(ts, 3, whole) == read_ok(whole, 3));
            assert(read_mul_tail(ts, 1, na) == read_ok(whole, 3));
            assert(read_mul(ts, 0) == read_ok(whole, 3));
            assert(read_add_tail(ts, 3, whole) == read_ok(whole, 3));
        } else {
            assert(read_mul_tail(ts, 1, na) == read_ok(na, 1));
            assert(read_mul(ts, 0) == read_ok(na, 1));
            assert(read_mul_tail(ts, 3, nb) == read_ok(nb, 3));
            assert(read_mul(ts, 2) == read_ok(nb, 3));
            assert(read_add_tail(ts, 3, whole) == read_ok(whole, 3));
            assert(read_add_tail(ts, 1, na) == read_ok(whole, 3));
        }
    }
    assert(read_add(ts, 0) == read_ok(whole, 3));
}

/// Each operator sign means its operation: `a + b` adds, `a - b`
/// subtracts, `a * b` multiplies, `a / b` divides, `a % b` takes the
/// remainder, `a ^ b` raises to a power, and `-a` negates.
#[verifier::rlimit(30)]
pub proof fn law_operators_mean(a: Seq<char>, b: Seq<char>)
    ensures
        read_all(seq![TokenV::Number(a), TokenV::Op('+'), TokenV::Number(b)]) == Ok::<
            ExprV,
            CalcErrorV,
        >(bin(BinOp::Add, ExprV::Num(a), ExprV::Num(b))),
        read_all(seq![TokenV::Number(a), TokenV::Op('-'), TokenV::Number(b)]) == Ok::<
            ExprV,
            CalcErrorV,
        >(bin(BinOp::Sub, ExprV::Num(a), ExprV::Num(b))),
        read_all(seq![TokenV::Number(a), TokenV::Op('*'), TokenV::Number(b)]) == Ok::<
            ExprV,
            CalcErrorV,
        >(bin(BinOp::Mul, ExprV::Num(a), ExprV::Num(b))),
        read_all(seq![TokenV::Number(a), TokenV::Op('/'), TokenV::Number(b)]) == Ok::<
            ExprV,
            CalcErrorV,
        >(bin(BinOp::Div, ExprV::Num(a), ExprV::Num(b))),
        read_all(seq![TokenV::Number(a), TokenV::Op('%'), TokenV::Number(b)]) == Ok::<
            ExprV,
            CalcErrorV,
        >(bin(BinOp::Rem, ExprV::Num(a), ExprV::Num(b))),
        read_all(seq![TokenV::Number(a), TokenV::Op('^'), TokenV::Number(b)]) == Ok::<
            ExprV,
            CalcErrorV,
        >(bin(BinOp::Pow, ExprV::Num(a), ExprV::Num(b))),
        read_all(seq![TokenV::Op('-'), TokenV::Number(a)]) == Ok::<ExprV, CalcErrorV>(
            ExprV::Neg(Box::new(ExprV::Num(a))),
        ),
{
    lemma_one_operator(a, '+', b);
    lemma_one_operator(a, '-', b);
    lemma_one_operator(a, '*', b);
    lemma_one_operator(a, '/', b);
    lemma_one_operator(a, '%', b);
    lemma_one_operator(a, '^', b);
    let ts = seq![TokenV::Op('-'), TokenV::Number(a)];
    let neg = ExprV::Neg(Box::new(ExprV::Num(a)));
    assert(read_atom(ts, 1) == read_ok(ExprV::Num(a), 2));
    assert(read_pow(ts, 1) == read_ok(ExprV::Num(a), 2));
    assert(read_unary(ts, 1) == read_ok(ExprV::Num(a), 2));
    assert(read_unary(ts, 0) == read_ok(neg, 2));
    assert(read_mul_tail(ts, 2, neg) == read_ok(neg, 2));
    assert(read_mul(ts, 0) == read_ok(neg, 2));
    assert(read_add_tail(ts, 2, neg) == read_ok(neg, 2));
    assert(read_add(ts, 0) == read_ok(neg, 2));
}


/// What single names and unfinished or overlong inputs read as: a
/// constant's name is that constant; a name that is no constant and is not
/// called with `(` is an unknown name; nothing at all, or an input that
/// ends where an operand is due, is an unexpected end; an opened
/// parenthesis that is not closed is a missing `)`; and what follows a
/// whole expression is left over.
#[verifier::rlimit(30)]
pub proof fn law_reading_failures(a: Seq<char>, b: Seq<char>, name: Seq<char>)
    ensures
        constant_of(name) matches Some(k) ==> read_all(seq![TokenV::Ident(name)]) == Ok::<
            ExprV,
            CalcErrorV,
        >(ExprV::Const(k)),
        constant_of(name) is None ==> read_all(seq![TokenV::Ident(name)]) == Err::<
            ExprV,
            CalcErrorV,
        >(CalcErrorV::UnknownIdent(name)),
        read_all(Seq::<TokenV>::empty()) == Err::<ExprV, CalcErrorV>(
            CalcErrorV::UnexpectedToken(None),
        ),
        read_all(seq![TokenV::Number(a), TokenV::Op('+')]) == Err::<ExprV, CalcErrorV>(
            CalcErrorV::UnexpectedToken(None),
        ),
        read_all(seq![TokenV::LParen, TokenV::Number(a)]) == Err::<ExprV, CalcErrorV>(
            CalcErrorV::MissingCloseParen,
        ),
        read_all(seq![TokenV::Number(a), TokenV::Number(b)]) == Err::<ExprV, CalcErrorV>(
            CalcErrorV::LeftoverTokens(seq![TokenV::Number(b)]),
        ),
{
    let t1 = seq![TokenV::Ident(name)];
    assert(t1[0] == TokenV::Ident(name));
    if let Some(k) = constant_of(name) {
        let x = ExprV::Const(k);
        assert(read_atom(t1, 0) == read_ok(x, 1));
        assert(read_pow(t1, 0) == read_ok(x, 1));
        assert(read_unary(t1, 0) == read_ok(x, 1));
        assert(read_mul_tail(t1, 1, x) == read_ok(x, 1));
        assert(read_mul(t1, 0) == read_ok(x, 1));
        assert(read_add_tail(t1, 1, x) == read_ok(x, 1));
        assert(read_add(t1, 0) == read_ok(x, 1));
    } else {
        assert(read_atom(t1, 0) is Err);
        assert(read_pow(t1, 0) == read_atom(t1, 0));
        assert(read_unary(t1, 0) == read_atom(t1, 0));
        assert(read_mul(t1, 0) == read_atom(t1, 0));
        assert(read_add(t1, 0) == read_atom(t1, 0));
    }
    let t0 = Seq::<TokenV>::empty();
    assert(read_unary(t0, 0) == read_atom(t0, 0));
    let t2 = seq![TokenV::Number(a), TokenV::Op('+')];
    let na = ExprV::Num(a);
    assert(t2[1] == TokenV::Op('+'));
    assert(read_atom(t2, 0) == read_ok(na, 1));
    assert(read_pow(t2, 0) == read_ok(na, 1));
    assert(read_unary(t2, 0) == read_ok(na, 1));
    assert(read_mul(t2, 0) == read_ok(na, 1));
    assert(read_unary(t2, 2) == read_atom(t2, 2));
    assert(read_mul(t2, 2) == read_atom(t2, 2));
    assert(read_add_tail(t2, 1, na) == read_atom(t2, 2));
    let t3 = seq![TokenV::LParen, TokenV::Number(a)];
    assert(t3[0] == TokenV::LParen);
    assert(t3[1] == TokenV::Number(a));
    assert(read_atom(t3, 1) == read_ok(na, 2));
    assert(read_pow(t3, 1) == read_ok(na, 2));
    assert(read_unary(t3, 1) == read_ok(na, 2));
    assert(read_mul(t3, 1) == read_ok(na, 2));
    assert(read_add(t3, 1) == read_ok(na, 2));
    assert(read_atom(t3, 0) == Err::<(ExprV, int), CalcErrorV>(CalcErrorV::MissingCloseParen));
    assert(read_unary(t3, 0) == read_atom(t3, 0));
    assert(read_mul(t3, 0) == read_atom(t3, 0));
    assert(read_add(t3, 0) == read_atom(t3, 0));
    let t4 = seq![TokenV::Number(a), TokenV::Number(b)];
    assert(t4[0] == TokenV::Number(a));
    assert(t4[1] == TokenV::Number(b));
    assert(read_atom(t4, 0) == read_ok(na, 1));
    assert(read_pow(t4, 0) == read_ok(na, 1));
    assert(read_unary(t4, 0) == read_ok(na, 1));
    assert(read_mul(t4, 0) == read_ok(na, 1));
    assert(read_add(t4, 0) == read_ok(na, 1));
    assert(t4.subrange(1, 2) =~= seq![TokenV::Number(b)]);
}

} // verus!
