//! Writing an expression down, fully parenthesized, and reading it back.

use vstd::prelude::*;
use crate::token::{
    is_gap, is_name_char, is_name_start, is_number_char, name_end, number_end, proper_token,
    spec_tokenize, token_text, tokenize_from, TokenV,
};
use crate::error::CalcErrorV;
use crate::text::{is_ascii_letter, is_digit};
use crate::expr::{
    binop_of, constant_name, constant_of, func_name, func_of, law_names_read_back,
    lemma_name_letters, op_char,
    numbers_decimal, BinOp, Constant, ExprV, Func,
};
use crate::grammar::{
    bin, is_add_op, is_mul_op, read_add, read_add_tail, read_all, read_atom, read_ok, read_mul,
    read_mul_tail, read_pow, read_text, read_unary, token_binop,
};

verus! {

/// The tokens of an expression written with every operand of an operator
/// in parentheses: `(a) + (b)`, `-(x)`, `sin(x)`.
pub open spec fn written_tokens(e: ExprV) -> Seq<TokenV>
    decreases e,
{
    match e {
        ExprV::Num(lit) => seq![TokenV::Number(lit)],
        ExprV::Const(c) => seq![TokenV::Ident(constant_name(c))],
        ExprV::Neg(x) => seq![TokenV::Op('-'), TokenV::LParen] + written_tokens(*x) + seq![
            TokenV::RParen,
        ],
        ExprV::Binary(op, a, b) => seq![TokenV::LParen] + written_tokens(*a) + seq![
            TokenV::RParen,
            TokenV::Op(op_char(op)),
            TokenV::LParen,
        ] + written_tokens(*b) + seq![TokenV::RParen],
        ExprV::Call(f, x) => seq![TokenV::Ident(func_name(f)), TokenV::LParen] + written_tokens(
            *x,
        ) + seq![TokenV::RParen],
    }
}

/// After a complete operand at `p` nothing continues it: the tokens end, or
/// the next token is no binary operator.
pub open spec fn ends_operand(ts: Seq<TokenV>, p: int) -> bool {
    p == ts.len() || !(is_add_op(ts[p]) || is_mul_op(ts[p]) || ts[p] == TokenV::Op('^'))
}

/// `w` stands in `ts` from position `k` on.
pub open spec fn placed(ts: Seq<TokenV>, k: int, w: Seq<TokenV>) -> bool {
    0 <= k && k + w.len() <= ts.len() && ts.subrange(k, k + w.len()) == w
}

proof fn lemma_binop_char(op: BinOp)
    ensures
        binop_of(op_char(op)) == op,
        token_binop(TokenV::Op(op_char(op))) == op,
        op == BinOp::Add || op == BinOp::Sub ==> is_add_op(TokenV::Op(op_char(op))),
        op == BinOp::Mul || op == BinOp::Div || op == BinOp::Rem ==> is_mul_op(
            TokenV::Op(op_char(op)),
        ),
        op != BinOp::Add && op != BinOp::Sub ==> !is_add_op(TokenV::Op(op_char(op))),
        op != BinOp::Mul && op != BinOp::Div && op != BinOp::Rem ==> !is_mul_op(
            TokenV::Op(op_char(op)),
        ),
{
}

/// A signed factor read from `k` to `end`, with nothing continuing it, is
/// the whole sum read from `k`.
proof fn lemma_lift_unary(ts: Seq<TokenV>, k: int, x: ExprV, end: int)
    requires
        0 <= k < end <= ts.len(),
        read_unary(ts, k) == read_ok(x, end),
        ends_operand(ts, end),
    ensures
        read_add(ts, k) == read_ok(x, end),
{
    assert(read_mul_tail(ts, end, x) == read_ok(x, end));
    assert(read_mul(ts, k) == read_ok(x, end));
    assert(read_add_tail(ts, end, x) == read_ok(x, end));
}

/// An operand read from `k` to `end` that no `^` follows is the power read
/// from `k`.
proof fn lemma_pow_of_atom(ts: Seq<TokenV>, k: int, x: ExprV, end: int)
    requires
        0 <= k < end <= ts.len(),
        read_atom(ts, k) == read_ok(x, end),
        end == ts.len() || ts[end] != TokenV::Op('^'),
    ensures
        read_pow(ts, k) == read_ok(x, end),
{
}

/// An operand read from `k` to `end` that does not start with `-` and that
/// nothing continues is the whole sum read from `k`.
proof fn lemma_lift_atom(ts: Seq<TokenV>, k: int, x: ExprV, end: int)
    requires
        0 <= k < end <= ts.len(),
        ts[k] != TokenV::Op('-'),
        read_atom(ts, k) == read_ok(x, end),
        ends_operand(ts, end),
    ensures
        read_add(ts, k) == read_ok(x, end),
{
    lemma_pow_of_atom(ts, k, x, end);
    assert(read_unary(ts, k) == read_pow(ts, k));
    lemma_lift_unary(ts, k, x, end);
}

/// A parenthesized expression written at `k` is read as an operand.
proof fn lemma_group_reads(ts: Seq<TokenV>, k: int, x: ExprV)
    requires
        placed(ts, k, seq![TokenV::LParen] + written_tokens(x) + seq![TokenV::RParen]),
    ensures
        read_atom(ts, k) == read_ok(x, k + written_tokens(x).len() + 2),
    decreases x, 2int,
{
    let wx = written_tokens(x);
    let w = seq![TokenV::LParen] + wx + seq![TokenV::RParen];
    let n = wx.len() as int;
    assert(ts[k] == w[0]);
    assert(ts[k + 1 + n] == w[1 + n]);
    assert(ts.subrange(k + 1, k + 1 + n) =~= wx) by {
        assert forall|j: int| 0 <= j < n implies ts.subrange(k + 1, k + 1 + n)[j] == wx[j] by {
            assert(ts[k + 1 + j] == w[1 + j]);
        }
    }
    lemma_written_reads(ts, k + 1, x);
}

/// An expression written at `k`, with nothing continuing it, is read back
/// as the sum that spans exactly its tokens.
pub proof fn lemma_written_reads(ts: Seq<TokenV>, k: int, e: ExprV)
    requires
        placed(ts, k, written_tokens(e)),
        ends_operand(ts, k + written_tokens(e).len()),
    ensures
        read_add(ts, k) == read_ok(e, k + written_tokens(e).len()),
    decreases e, 1int,
{
    let w = written_tokens(e);
    let end = k + w.len();
    assert(ts[k] == w[0]);
    match e {
        ExprV::Num(lit) => {
            lemma_lift_atom(ts, k, e, end);
        },
        ExprV::Const(c) => {
            law_names_read_back(Func::Sin, c);
            lemma_lift_atom(ts, k, e, end);
        },
        ExprV::Neg(x) => {
            let wx = written_tokens(*x);
            let n = wx.len() as int;
            let g = seq![TokenV::LParen] + wx + seq![TokenV::RParen];
            assert(w =~= seq![TokenV::Op('-')] + g);
            assert(ts.subrange(k + 1, k + 1 + g.len()) =~= g) by {
                assert forall|j: int| 0 <= j < g.len() implies ts.subrange(
                    k + 1,
                    k + 1 + g.len(),
                )[j] == g[j] by {
                    assert(ts[k + 1 + j] == w[1 + j]);
                }
            }
            lemma_group_reads(ts, k + 1, *x);
            lemma_pow_of_atom(ts, k + 1, *x, end);
            assert(read_unary(ts, k + 1) == read_pow(ts, k + 1));
            assert(read_unary(ts, k) == read_ok(e, end));
            lemma_lift_unary(ts, k, e, end);
        },
        ExprV::Call(f, x) => {
            let wx = written_tokens(*x);
            let g = seq![TokenV::LParen] + wx + seq![TokenV::RParen];
            assert(w =~= seq![TokenV::Ident(func_name(f))] + g);
            assert(ts.subrange(k + 1, k + 1 + g.len()) =~= g) by {
                assert forall|j: int| 0 <= j < g.len() implies ts.subrange(
                    k + 1,
                    k + 1 + g.len(),
                )[j] == g[j] by {
                    assert(ts[k + 1 + j] == w[1 + j]);
                }
            }
            law_names_read_back(f, Constant::Pi);
            assert(ts[k + 1] == g[0]);
            lemma_group_reads(ts, k + 1, *x);
            assert(read_atom(ts, k) == read_ok(e, end));
            lemma_lift_atom(ts, k, e, end);
        },
        ExprV::Binary(_, _, _) => {
            lemma_binary_reads(ts, k, e);
        },
    }
}

/// A binary expression written at `k`, with nothing continuing it, is read
/// back as the sum that spans exactly its tokens.
proof fn lemma_binary_reads(ts: Seq<TokenV>, k: int, e: ExprV)
    requires
        e is Binary,
        placed(ts, k, written_tokens(e)),
        ends_operand(ts, k + written_tokens(e).len()),
    ensures
        read_add(ts, k) == read_ok(e, k + written_tokens(e).len()),
    decreases e, 0int,
{
    let w = written_tokens(e);
    let end = k + w.len();
    let (op, a, b) = match e {
        ExprV::Binary(op, a, b) => (op, a, b),
        _ => arbitrary(),
    };
    let wa = written_tokens(*a);
    let wb = written_tokens(*b);
    let ga = seq![TokenV::LParen] + wa + seq![TokenV::RParen];
    let gb = seq![TokenV::LParen] + wb + seq![TokenV::RParen];
    let m = k + ga.len();
    assert(w =~= ga + seq![TokenV::Op(op_char(op))] + gb);
    assert(ts.subrange(k, k + ga.len()) =~= ga) by {
        assert forall|j: int| 0 <= j < ga.len() implies ts.subrange(k, k + ga.len())[j]
            == ga[j] by {
            assert(ts[k + j] == w[j]);
        }
    }
    assert(ts.subrange(m + 1, m + 1 + gb.len()) =~= gb) by {
        assert forall|j: int| 0 <= j < gb.len() implies ts.subrange(
            m + 1,
            m + 1 + gb.len(),
        )[j] == gb[j] by {
            assert(ts[m + 1 + j] == w[ga.len() + 1 + j]);
        }
    }
    assert(ts[m] == w[ga.len() as int]);
    assert(ts[m + 1] == gb[0]);
    lemma_group_reads(ts, k, *a);
    lemma_group_reads(ts, m + 1, *b);
    lemma_binop_char(op);
    lemma_pow_of_atom(ts, m + 1, *b, end);
    assert(read_unary(ts, m + 1) == read_pow(ts, m + 1));
    if op == BinOp::Pow {
        assert(read_pow(ts, k) == read_ok(e, end));
        assert(read_unary(ts, k) == read_pow(ts, k));
        lemma_lift_unary(ts, k, e, end);
    } else {
        lemma_pow_of_atom(ts, k, *a, m);
        assert(read_unary(ts, k) == read_pow(ts, k));
        if op == BinOp::Add || op == BinOp::Sub {
            assert(read_mul_tail(ts, end, *b) == read_ok(*b, end));
            assert(read_mul(ts, m + 1) == read_ok(*b, end));
            assert(read_mul_tail(ts, m, *a) == read_ok(*a, m));
            assert(read_mul(ts, k) == read_ok(*a, m));
            assert(read_add_tail(ts, end, e) == read_ok(e, end));
            assert(read_add_tail(ts, m, *a) == read_ok(e, end));
        } else {
            assert(read_mul_tail(ts, end, e) == read_ok(e, end));
            assert(read_mul_tail(ts, m, *a) == read_ok(e, end));
            assert(read_mul(ts, k) == read_ok(e, end));
            assert(read_add_tail(ts, end, e) == read_ok(e, end));
        }
    }
}

/// Every expression, written fully parenthesized, reads back as itself.
pub proof fn law_written_tokens_read_back(e: ExprV)
    ensures
        read_all(written_tokens(e)) == Ok::<ExprV, CalcErrorV>(e),
{
    let ts = written_tokens(e);
    assert(ts.subrange(0, ts.len() as int) =~= ts);
    lemma_written_reads(ts, 0, e);
}

/// The texts of tokens, separated by single spaces.
pub open spec fn joined_text(ts: Seq<TokenV>) -> Seq<char>
    decreases ts.len(),
{
    if ts.len() == 0 {
        seq![]
    } else if ts.len() == 1 {
        token_text(ts[0])
    } else {
        joined_text(ts.drop_last()) + seq![' '] + token_text(ts.last())
    }
}

/// The text of an expression written fully parenthesized, its tokens
/// separated by single spaces.
pub open spec fn written_text(e: ExprV) -> Seq<char> {
    joined_text(written_tokens(e))
}

/// Joining a token in front of others puts a space between its text and
/// theirs.
proof fn lemma_joined_front(t: TokenV, rest: Seq<TokenV>)
    requires
        rest.len() > 0,
    ensures
        joined_text(seq![t] + rest) == token_text(t) + seq![' '] + joined_text(rest),
    decreases rest.len(),
{
    let ts = seq![t] + rest;
    assert(ts.drop_last() =~= seq![t] + rest.drop_last());
    assert(ts.last() == rest.last());
    if rest.len() == 1 {
        assert(seq![t] + rest.drop_last() =~= seq![t]);
        assert(joined_text(rest) == token_text(rest[0]));
        assert(joined_text(ts) =~= token_text(t) + seq![' '] + joined_text(rest));
    } else {
        lemma_joined_front(t, rest.drop_last());
        assert(joined_text(ts) == joined_text(ts.drop_last()) + seq![' '] + token_text(ts.last()));
        assert(joined_text(rest) == joined_text(rest.drop_last()) + seq![' '] + token_text(
            rest.last(),
        ));
        assert(joined_text(ts) =~= token_text(t) + seq![' '] + joined_text(rest));
    }
}

proof fn lemma_number_end_at(s: Seq<char>, i: int, j: int)
    requires
        0 <= i <= j <= s.len(),
        forall|k: int| i <= k < j ==> is_number_char(#[trigger] s[k]),
        j == s.len() || !is_number_char(s[j]),
    ensures
        number_end(s, i) == j,
    decreases j - i,
{
    if i < j {
        lemma_number_end_at(s, i + 1, j);
    }
}

proof fn lemma_name_end_at(s: Seq<char>, i: int, j: int)
    requires
        0 <= i <= j <= s.len(),
        forall|k: int| i <= k < j ==> is_name_char(#[trigger] s[k]),
        j == s.len() || !is_name_char(s[j]),
    ensures
        name_end(s, i) == j,
    decreases j - i,
{
    if i < j {
        lemma_name_end_at(s, i + 1, j);
    }
}

/// Tokenizing the space-separated texts of proper tokens gives the tokens
/// back.
proof fn lemma_tokenize_joined(s: Seq<char>, i: int, ts: Seq<TokenV>)
    requires
        0 <= i <= s.len(),
        s.subrange(i, s.len() as int) == joined_text(ts),
        forall|j: int| 0 <= j < ts.len() ==> proper_token(#[trigger] ts[j]),
    ensures
        tokenize_from(s, i) == Ok::<Seq<TokenV>, CalcErrorV>(ts),
    decreases ts.len(),
{
    if ts.len() == 0 {
        assert(s.subrange(i, s.len() as int).len() == 0);
        assert(ts =~= Seq::<TokenV>::empty());
    } else {
        let t = ts[0];
        let rest = ts.drop_first();
        let tt = token_text(t);
        let n = tt.len() as int;
        assert(ts =~= seq![t] + rest);
        assert(proper_token(t));
        let sub = s.subrange(i, s.len() as int);
        if rest.len() == 0 {
            assert(sub == tt);
            assert(rest =~= Seq::<TokenV>::empty());
            assert(tokenize_from(s, i + n) == Ok::<Seq<TokenV>, CalcErrorV>(rest));
        } else {
            lemma_joined_front(t, rest);
            assert(sub == tt + seq![' '] + joined_text(rest));
            assert(s[i + n] == sub[n]);
            assert(s.subrange(i + n + 1, s.len() as int) =~= joined_text(rest)) by {
                assert forall|j: int| 0 <= j < joined_text(rest).len() implies s.subrange(
                    i + n + 1,
                    s.len() as int,
                )[j] == joined_text(rest)[j] by {
                    assert(s[i + n + 1 + j] == sub[n + 1 + j]);
                }
            }
            assert forall|j: int| 0 <= j < rest.len() implies proper_token(#[trigger] rest[j]) by {
                assert(rest[j] == ts[j + 1]);
            }
            lemma_tokenize_joined(s, i + n + 1, rest);
            assert(is_gap(s[i + n]));
            assert(tokenize_from(s, i + n) == tokenize_from(s, i + n + 1));
        }
        assert(n >= 1) by {
            match t {
                TokenV::Number(lit) => {},
                TokenV::Ident(name) => {},
                _ => {},
            }
        }
        assert(i + n <= s.len());
        assert forall|k: int| 0 <= k < n implies s[i + k] == #[trigger] tt[k] by {
            assert(s[i + k] == sub[k]);
        }
        // What follows the token's text: the end, or a space.
        assert(i + n == s.len() || s[i + n] == ' ');
        match t {
            TokenV::Number(lit) => {
                assert forall|k: int| i <= k < i + n implies is_number_char(#[trigger] s[k]) by {
                    assert(s[i + (k - i)] == tt[k - i]);
                }
                lemma_number_end_at(s, i, i + n);
                assert(s.subrange(i, i + n) =~= lit);
                assert(tokenize_from(s, i) == crate::token::prepend_tokens(
                    seq![t],
                    tokenize_from(s, i + n),
                ));
            },
            TokenV::Ident(name) => {
                assert forall|k: int| i <= k < i + n implies is_name_char(#[trigger] s[k]) by {
                    assert(s[i + (k - i)] == tt[k - i]);
                }
                lemma_name_end_at(s, i, i + n);
                assert(s.subrange(i, i + n) =~= name);
                assert(s[i] == name[0]);
                assert(tokenize_from(s, i) == crate::token::prepend_tokens(
                    seq![t],
                    tokenize_from(s, i + n),
                ));
            },
            _ => {
                assert(s[i] == tt[0]);
                assert(n == 1);
                assert(tokenize_from(s, i) == crate::token::prepend_tokens(
                    seq![t],
                    tokenize_from(s, i + n),
                ));
            },
        }
        assert(seq![t] + rest =~= ts);
    }
}

/// The tokens of a written expression are proper when its numbers are.
proof fn lemma_written_tokens_proper(e: ExprV)
    requires
        numbers_decimal(e),
    ensures
        forall|j: int|
            0 <= j < written_tokens(e).len() ==> proper_token(#[trigger] written_tokens(e)[j]),
    decreases e,
{
    lemma_name_letters();
    match e {
        ExprV::Num(_) => {},
        ExprV::Const(c) => {
            let name = constant_name(c);
            assert(written_tokens(e)[0] == TokenV::Ident(name));
            assert forall|j: int| 0 <= j < name.len() implies is_name_char(#[trigger] name[j]) by {
            }
        },
        ExprV::Neg(x) => {
            lemma_written_tokens_proper(*x);
            let wx = written_tokens(*x);
            assert forall|j: int| 0 <= j < written_tokens(e).len() implies proper_token(
                #[trigger] written_tokens(e)[j],
            ) by {
                if 2 <= j < 2 + wx.len() {
                    assert(written_tokens(e)[j] == wx[j - 2]);
                }
            }
        },
        ExprV::Call(f, x) => {
            lemma_written_tokens_proper(*x);
            let wx = written_tokens(*x);
            let name = func_name(f);
            assert forall|j: int| 0 <= j < name.len() implies is_name_char(#[trigger] name[j]) by {
            }
            assert forall|j: int| 0 <= j < written_tokens(e).len() implies proper_token(
                #[trigger] written_tokens(e)[j],
            ) by {
                if 2 <= j < 2 + wx.len() {
                    assert(written_tokens(e)[j] == wx[j - 2]);
                }
            }
        },
        ExprV::Binary(op, a, b) => {
            lemma_written_tokens_proper(*a);
            lemma_written_tokens_proper(*b);
            let wa = written_tokens(*a);
            let wb = written_tokens(*b);
            assert forall|j: int| 0 <= j < written_tokens(e).len() implies proper_token(
                #[trigger] written_tokens(e)[j],
            ) by {
                if 1 <= j < 1 + wa.len() {
                    assert(written_tokens(e)[j] == wa[j - 1]);
                } else if 4 + wa.len() <= j < 4 + wa.len() + wb.len() {
                    assert(written_tokens(e)[j] == wb[j - 4 - wa.len()]);
                }
            }
        },
    }
}

/// Every expression whose numbers are decimal numbers, written out as text
/// fully parenthesized with its tokens separated by spaces, reads back as
/// itself.
pub proof fn law_written_text_reads_back(e: ExprV)
    requires
        numbers_decimal(e),
    ensures
        read_text(written_text(e)) == Ok::<ExprV, CalcErrorV>(e),
{
    let ts = written_tokens(e);
    let s = written_text(e);
    lemma_written_tokens_proper(e);
    assert(s.subrange(0, s.len() as int) =~= s);
    lemma_tokenize_joined(s, 0, ts);
    law_written_tokens_read_back(e);
}

} // verus!
