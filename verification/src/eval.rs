//! The expression reader: from text to an expression tree.

use vstd::prelude::*;
use crate::token::{tokens_view, TokenV};
use crate::error::{CalcError, CalcErrorV};
use crate::expr::{numbers_decimal, BinOp, Constant, Expr, ExprV, Func};
use crate::grammar::{
    law_read_numbers_are_decimal, lemma_add_advances, lemma_atom_advances, lemma_mul_advances,
    lemma_pow_advances, lemma_unary_advances, read_add, read_add_tail, read_atom, read_mul,
    read_mul_tail, read_pow, read_text, read_unary, Reading,
};

pub use crate::token::{tokenize, Token};

verus! {

/// Whether angles are read in degrees or in radians.
#[derive(Debug, Clone, Copy, PartialEq, Eq, Structural)]
pub enum AngleMode {
    Deg,
    Rad,
}

/// An evaluator, with the angle mode its trigonometric functions use.
pub struct Eval {
    pub deg: AngleMode,
}

/// An executable reading result agrees with the reading the grammar gives:
/// the same expression and the same end position, or the same error.
pub open spec fn reads(r: Result<Expr, CalcError>, end: usize, spec: Reading) -> bool {
    match spec {
        Ok((x, p)) => r matches Ok(e) && e@ == x && end == p,
        Err(err) => r matches Err(e) && e@ == err,
    }
}

/// The model of a reading result.
pub open spec fn expr_result_view(r: Result<Expr, CalcError>) -> Result<ExprV, CalcErrorV> {
    match r {
        Ok(e) => Ok(e@),
        Err(e) => Err(e@),
    }
}

/// A copy of a token.
fn copy_token(t: &Token) -> (r: Token)
    ensures
        r@ == t@,
{
    match t {
        Token::Number(s) => Token::Number(s.clone()),
        Token::Op(c) => Token::Op(*c),
        Token::Ident(s) => Token::Ident(s.clone()),
        Token::LParen => Token::LParen,
        Token::RParen => Token::RParen,
    }
}

/// The operator character of the token at `i`, if it is an operator.
fn op_at(toks: &[Token], i: usize) -> (r: Option<char>)
    ensures
        toks@.len() <= usize::MAX,
        match r {
            Some(c) => i < toks@.len() && toks@[i as int]@ == TokenV::Op(c),
            None => i >= toks@.len() || !(toks@[i as int]@ is Op),
        },
{
    if i < toks.len() {
        match &toks[i] {
            Token::Op(c) => Some(*c),
            _ => None,
        }
    } else {
        None
    }
}

/// Whether the token at `i` is the given parenthesis.
fn paren_at(toks: &[Token], i: usize, open: bool) -> (r: bool)
    ensures
        toks@.len() <= usize::MAX,
        r == (i < toks@.len() && toks@[i as int]@ == (if open {
            TokenV::LParen
        } else {
            TokenV::RParen
        })),
{
    if i < toks.len() {
        match &toks[i] {
            Token::LParen => open,
            Token::RParen => !open,
            _ => false,
        }
    } else {
        false
    }
}

impl Eval {
    /// Reads `input` as one expression: tokenizes it, reads a sum from the
    /// first token, and fails with the remaining tokens if any are left.
    pub fn parse_expr(&self, input: &str) -> (r: Result<Expr, CalcError>)
        ensures
            expr_result_view(r) == read_text(input@),
            r matches Ok(e) ==> numbers_decimal(e@),
    {
        proof {
            law_read_numbers_are_decimal(input@);
        }
        let mut toks = match tokenize(input) {
            Ok(t) => t,
            Err(e) => return Err(e),
        };
        let mut pos: usize = 0;
        proof {
            lemma_add_advances(tokens_view(toks@), 0);
        }
        let val = match self.parse_add(toks.as_slice(), &mut pos) {
            Ok(v) => v,
            Err(e) => return Err(e),
        };
        if pos != toks.len() {
            let ghost all = toks@;
            let rest = toks.split_off(pos);
            proof {
                assert(tokens_view(rest@) =~= tokens_view(all).subrange(
                    pos as int,
                    all.len() as int,
                ));
            }
            return Err(CalcError::LeftoverTokens(rest));
        }
        Ok(val)
    }

    /// Reads a sum or difference at `*pos`.
    pub fn parse_add(&self, toks: &[Token], pos: &mut usize) -> (r: Result<Expr, CalcError>)
        ensures
            reads(r, *final(pos), read_add(tokens_view(toks@), *old(pos) as int)),
        decreases toks@.len() - *old(pos), 6int,
    {
        let ghost ts = tokens_view(toks@);
        let ghost start = *pos as int;
        proof {
            lemma_mul_advances(ts, start);
        }
        let mut left = match self.parse_mul(toks, pos) {
            Ok(x) => x,
            Err(e) => return Err(e),
        };
        loop
            invariant
                ts == tokens_view(toks@),
                start == *old(pos),
                start < *pos <= ts.len(),
                read_add(ts, start) == read_add_tail(ts, *pos as int, left@),
            decreases ts.len() - *pos,
        {
            let p = *pos;
            let op = match op_at(toks, p) {
                Some(c) => c,
                None => return Ok(left),
            };
            if op != '+' && op != '-' {
                return Ok(left);
            }
            *pos = p + 1;
            proof {
                lemma_mul_advances(ts, p + 1);
            }
            let right = match self.parse_mul(toks, pos) {
                Ok(x) => x,
                Err(e) => return Err(e),
            };
            let bop = if op == '+' {
                BinOp::Add
            } else {
                BinOp::Sub
            };
            left = Expr::Binary(bop, Box::new(left), Box::new(right));
        }
    }

    /// Reads a product, quotient or remainder at `*pos`.
    pub fn parse_mul(&self, toks: &[Token], pos: &mut usize) -> (r: Result<Expr, CalcError>)
        ensures
            reads(r, *final(pos), read_mul(tokens_view(toks@), *old(pos) as int)),
        decreases toks@.len() - *old(pos), 4int,
    {
        let ghost ts = tokens_view(toks@);
        let ghost start = *pos as int;
        proof {
            lemma_unary_advances(ts, start);
        }
        let mut left = match self.parse_unary(toks, pos) {
            Ok(x) => x,
            Err(e) => return Err(e),
        };
        loop
            invariant
                ts == tokens_view(toks@),
                start == *old(pos),
                start < *pos <= ts.len(),
                read_mul(ts, start) == read_mul_tail(ts, *pos as int, left@),
            decreases ts.len() - *pos,
        {
            let p = *pos;
            let op = match op_at(toks, p) {
                Some(c) => c,
                None => return Ok(left),
            };
            if op != '*' && op != '/' && op != '%' {
                return Ok(left);
            }
            *pos = p + 1;
            proof {
                lemma_unary_advances(ts, p + 1);
            }
            let right = match self.parse_unary(toks, pos) {
                Ok(x) => x,
                Err(e) => return Err(e),
            };
            let bop = if op == '*' {
                BinOp::Mul
            } else if op == '/' {
                BinOp::Div
            } else {
                BinOp::Rem
            };
            left = Expr::Binary(bop, Box::new(left), Box::new(right));
        }
    }

    /// Reads a factor with its leading minus signs at `*pos`.
    pub fn parse_unary(&self, toks: &[Token], pos: &mut usize) -> (r: Result<Expr, CalcError>)
        ensures
            reads(r, *final(pos), read_unary(tokens_view(toks@), *old(pos) as int)),
        decreases toks@.len() - *old(pos), 2int,
    {
        let p = *pos;
        if op_at(toks, p) == Some('-') {
            *pos = p + 1;
            match self.parse_unary(toks, pos) {
                Ok(x) => Ok(Expr::Neg(Box::new(x))),
                Err(e) => Err(e),
            }
        } else {
            self.parse_pow(toks, pos)
        }
    }

    /// Reads an operand at `*pos`, with the power it is raised to if `^`
    /// follows; the exponent is read as a signed factor, so `^` groups to
    /// the right.
    pub fn parse_pow(&self, toks: &[Token], pos: &mut usize) -> (r: Result<Expr, CalcError>)
        ensures
            reads(r, *final(pos), read_pow(tokens_view(toks@), *old(pos) as int)),
        decreases toks@.len() - *old(pos), 1int,
    {
        let ghost ts = tokens_view(toks@);
        let ghost start = *pos as int;
        proof {
            lemma_atom_advances(ts, start);
        }
        let base = match self.parse_atom(toks, pos) {
            Ok(x) => x,
            Err(e) => return Err(e),
        };
        let p = *pos;
        if op_at(toks, p) == Some('^') {
            *pos = p + 1;
            match self.parse_unary(toks, pos) {
                Ok(x) => Ok(Expr::Binary(BinOp::Pow, Box::new(base), Box::new(x))),
                Err(e) => Err(e),
            }
        } else {
            Ok(base)
        }
    }

    /// Reads an operand at `*pos`: a number, a constant, a function applied
    /// to a parenthesized argument, or a parenthesized expression.
    pub fn parse_atom(&self, toks: &[Token], pos: &mut usize) -> (r: Result<Expr, CalcError>)
        ensures
            reads(r, *final(pos), read_atom(tokens_view(toks@), *old(pos) as int)),
        decreases toks@.len() - *old(pos), 0int,
    {
        let ghost ts = tokens_view(toks@);
        let p = *pos;
        if p >= toks.len() {
            return Err(CalcError::UnexpectedToken(None));
        }
        assert(ts[p as int] == toks@[p as int]@);
        match &toks[p] {
            Token::Number(n) => {
                *pos = p + 1;
                Ok(Expr::Num(n.clone()))
            },
            Token::Ident(name) => {
                let f = Func::from_name(name.as_str());
                if f.is_some() && paren_at(toks, p + 1, true) {
                    *pos = p + 1;
                    match self.parse_atom(toks, pos) {
                        Ok(x) => Ok(Expr::Call(f.unwrap(), Box::new(x))),
                        Err(e) => Err(e),
                    }
                } else {
                    match Constant::from_name(name.as_str()) {
                        Some(c) => {
                            *pos = p + 1;
                            Ok(Expr::Const(c))
                        },
                        None => Err(CalcError::UnknownIdent(name.clone())),
                    }
                }
            },
            Token::LParen => {
                *pos = p + 1;
                let x = match self.parse_add(toks, pos) {
                    Ok(x) => x,
                    Err(e) => return Err(e),
                };
                if paren_at(toks, *pos, false) {
                    *pos = *pos + 1;
                    Ok(x)
                } else {
                    Err(CalcError::MissingCloseParen)
                }
            },
            t => Err(CalcError::UnexpectedToken(Some(copy_token(t)))),
        }
    }
}

} // verus!
