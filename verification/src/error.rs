//! What can go wrong when reading an expression.

use vstd::prelude::*;
use crate::token::{tokens_view, Token, TokenV};
use crate::text::push_char;

verus! {

/// Why an input is not an expression.
#[derive(Debug, Clone, PartialEq)]
pub enum CalcError {
    /// A character that starts no token.
    UnknownChar(char),
    /// A run of digits and dots that is no decimal number, such as `1.2.3`.
    BadNumber(String),
    /// A name that is neither a constant nor a function applied to an argument.
    UnknownIdent(String),
    /// A `(` without its `)`.
    MissingCloseParen,
    /// A token (or the end of the input) where an operand should start.
    UnexpectedToken(Option<Token>),
    /// Tokens left over after a complete expression.
    LeftoverTokens(Vec<Token>),
}

/// The model of an error.
pub enum CalcErrorV {
    UnknownChar(char),
    BadNumber(Seq<char>),
    UnknownIdent(Seq<char>),
    MissingCloseParen,
    UnexpectedToken(Option<TokenV>),
    LeftoverTokens(Seq<TokenV>),
}

impl View for CalcError {
    type V = CalcErrorV;

    open spec fn view(&self) -> CalcErrorV {
        match self {
            CalcError::UnknownChar(c) => CalcErrorV::UnknownChar(*c),
            CalcError::BadNumber(s) => CalcErrorV::BadNumber(s@),
            CalcError::UnknownIdent(s) => CalcErrorV::UnknownIdent(s@),
            CalcError::MissingCloseParen => CalcErrorV::MissingCloseParen,
            CalcError::UnexpectedToken(t) => CalcErrorV::UnexpectedToken(
                match t {
                    Some(t) => Some(t@),
                    None => None,
                },
            ),
            CalcError::LeftoverTokens(ts) => CalcErrorV::LeftoverTokens(tokens_view(ts@)),
        }
    }
}

/// `number` may give `out` for the number text `n`.
pub open spec fn formats_to<N: Fn(&String) -> String>(number: N, n: String, out: Seq<char>) -> bool {
    exists|r: String| call_ensures(number, (&n,), r) && r@ == out
}

/// The tokens an error lists in its message.
pub open spec fn listed_tokens(e: CalcError) -> Seq<Token> {
    match e {
        CalcError::UnexpectedToken(Some(t)) => seq![t],
        CalcError::LeftoverTokens(ts) => ts@,
        _ => seq![],
    }
}

/// `shown` holds, for each of the tokens `ts` that is a number, a text that
/// `number` may give for it.
pub open spec fn numbers_shown<N: Fn(&String) -> String>(
    number: N,
    ts: Seq<Token>,
    shown: Seq<Seq<char>>,
) -> bool {
    &&& shown.len() == ts.len()
    &&& forall|i: int|
        0 <= i < ts.len() ==> (#[trigger] ts[i] matches Token::Number(n) ==> formats_to(
            number,
            n,
            shown[i],
        ))
}

/// How a token is listed in a message, in the form `{:?}` gives it:
/// `Number(2.0)`, `Op('+')`, `Ident("pi")`, `LParen`, `RParen`. A number is
/// listed by `number`, the text given for its value (`2.0`); the value is
/// floating point, so that text comes from the caller. An operator is shown
/// between single quotes and a name between double quotes as they stand,
/// which is `{:?}`'s form for every operator and name the tokenizer makes
/// (`{:?}` would escape quotes, backslashes and some other characters that
/// only tokens built by hand can hold).
pub open spec fn token_debug_text(t: TokenV, number: Seq<char>) -> Seq<char> {
    match t {
        TokenV::Number(_) => "Number("@ + number + ")"@,
        TokenV::Op(c) => "Op('"@ + seq![c] + "')"@,
        TokenV::Ident(name) => "Ident(\""@ + name + "\")"@,
        TokenV::LParen => "LParen"@,
        TokenV::RParen => "RParen"@,
    }
}

/// Tokens listed as `{:?}` lists them, separated by `, `; `shown[i]` is the
/// text of the value of `ts[i]` where it is a number.
pub open spec fn token_list_text(ts: Seq<TokenV>, shown: Seq<Seq<char>>) -> Seq<char>
    decreases ts.len(),
{
    if ts.len() == 0 {
        seq![]
    } else if ts.len() == 1 {
        token_debug_text(ts[0], shown[0])
    } else {
        token_list_text(ts.drop_last(), shown.take(ts.len() - 1)) + ", "@ + token_debug_text(
            ts.last(),
            shown[ts.len() - 1],
        )
    }
}

/// The message shown for an error, where `shown` gives the texts of the
/// values of the numbers it lists (see [`listed_tokens`]). A token is
/// listed as in [`token_debug_text`], an absent one as `None`, leftover
/// tokens between square brackets.
pub open spec fn message_text(e: CalcErrorV, shown: Seq<Seq<char>>) -> Seq<char> {
    match e {
        CalcErrorV::UnknownChar(c) => "알 수 없는 문자: '"@ + seq![c, '\''],
        CalcErrorV::BadNumber(lit) => "잘못된 숫자: "@ + lit,
        CalcErrorV::UnknownIdent(name) => "알 수 없는 식별자: "@ + name,
        CalcErrorV::MissingCloseParen => "닫는 괄호 없음"@,
        CalcErrorV::UnexpectedToken(Some(t)) => "예상치 못한 토큰: Some("@ + token_debug_text(
            t,
            shown[0],
        ) + ")"@,
        CalcErrorV::UnexpectedToken(None) => "예상치 못한 토큰: None"@,
        CalcErrorV::LeftoverTokens(ts) => "남은 토큰: ["@ + token_list_text(ts, shown) + "]"@,
    }
}

/// Appends how a token is listed in a message, where `number` is the text
/// of its value if it is a number.
fn push_token_debug(s: &mut String, t: &Token, number: &str)
    ensures
        final(s)@ == old(s)@ + token_debug_text(t@, number@),
{
    let ghost before = s@;
    match t {
        Token::Number(_) => {
            s.append("Number(");
            s.append(number);
            s.append(")");
            assert(s@ =~= before + ("Number("@ + number@ + ")"@));
        },
        Token::Op(c) => {
            s.append("Op('");
            push_char(s, *c);
            s.append("')");
            assert(s@ =~= before + ("Op('"@ + seq![*c] + "')"@));
        },
        Token::Ident(n) => {
            s.append("Ident(\"");
            s.append(n.as_str());
            s.append("\")");
            assert(s@ =~= before + ("Ident(\""@ + n@ + "\")"@));
        },
        Token::LParen => s.append("LParen"),
        Token::RParen => s.append("RParen"),
    }
}

impl CalcError {
    /// The message shown for this error. The value of a number it lists is
    /// written as `number` gives it (for the number's decimal text).
    pub fn message<N: Fn(&String) -> String>(&self, number: N) -> (r: String)
        requires
            forall|n: &String| call_requires(number, (n,)),
        ensures
            exists|shown: Seq<Seq<char>>|
                numbers_shown(number, listed_tokens(*self), shown) && r@ == message_text(
                    self@,
                    shown,
                ),
    {
        match self {
            CalcError::UnknownChar(c) => {
                let mut s = "알 수 없는 문자: '".to_owned();
                push_char(&mut s, *c);
                push_char(&mut s, '\'');
                assert(s@ =~= "알 수 없는 문자: '"@ + seq![*c, '\'']);
                assert(numbers_shown(number, listed_tokens(*self), seq![]));
                assert(s@ == message_text(self@, seq![]));
                s
            },
            CalcError::BadNumber(lit) => {
                let mut s = "잘못된 숫자: ".to_owned();
                s.append(lit.as_str());
                assert(numbers_shown(number, listed_tokens(*self), seq![]));
                assert(s@ == message_text(self@, seq![]));
                s
            },
            CalcError::UnknownIdent(name) => {
                let mut s = "알 수 없는 식별자: ".to_owned();
                s.append(name.as_str());
                assert(numbers_shown(number, listed_tokens(*self), seq![]));
                assert(s@ == message_text(self@, seq![]));
                s
            },
            CalcError::MissingCloseParen => {
                let s = "닫는 괄호 없음".to_owned();
                assert(numbers_shown(number, listed_tokens(*self), seq![]));
                assert(s@ == message_text(self@, seq![]));
                s
            },
            CalcError::UnexpectedToken(Some(t)) => {
                let mut s = "예상치 못한 토큰: Some(".to_owned();
                let ghost prefix = s@;
                let shown_value = match t {
                    Token::Number(n) => number(n),
                    _ => String::new(),
                };
                push_token_debug(&mut s, t, shown_value.as_str());
                s.append(")");
                let ghost shown = seq![shown_value@];
                assert(s@ =~= prefix + token_debug_text(t@, shown[0]) + ")"@);
                assert(numbers_shown(number, listed_tokens(*self), shown));
                assert(s@ == message_text(self@, shown));
                s
            },
            CalcError::UnexpectedToken(None) => {
                let s = "예상치 못한 토큰: None".to_owned();
                assert(numbers_shown(number, listed_tokens(*self), seq![]));
                assert(s@ == message_text(self@, seq![]));
                s
            },
            CalcError::LeftoverTokens(ts) => {
                let mut s = "남은 토큰: [".to_owned();
                let ghost prefix = s@;
                let ghost tv = tokens_view(ts@);
                let ghost mut shown: Seq<Seq<char>> = seq![];
                let mut i: usize = 0;
                while i < ts.len()
                    invariant
                        i <= ts@.len(),
                        tv == tokens_view(ts@),
                        shown.len() == i,
                        forall|j: int|
                            0 <= j < i ==> (#[trigger] ts@[j] matches Token::Number(n)
                                ==> formats_to(number, n, shown[j])),
                        s@ == prefix + token_list_text(tv.take(i as int), shown),
                        forall|n: &String| call_requires(number, (n,)),
                    decreases ts@.len() - i,
                {
                    let ghost before = s@;
                    let ghost old_shown = shown;
                    if i > 0 {
                        s.append(", ");
                    }
                    let shown_value = match &ts[i] {
                        Token::Number(n) => number(n),
                        _ => String::new(),
                    };
                    push_token_debug(&mut s, &ts[i], shown_value.as_str());
                    proof {
                        shown = shown.push(shown_value@);
                        assert(shown.take(i as int) =~= old_shown);
                        assert(tv.take(i + 1).drop_last() =~= tv.take(i as int));
                        assert(tv.take(i + 1).last() == ts@[i as int]@);
                        if i == 0 {
                            assert(token_list_text(tv.take(0), old_shown) =~= Seq::<char>::empty());
                            assert(s@ =~= prefix + token_list_text(tv.take(1), shown));
                        } else {
                            assert(s@ =~= prefix + token_list_text(tv.take(i + 1), shown));
                        }
                        assert forall|j: int| 0 <= j < i + 1 implies (#[trigger] ts@[j] matches Token::Number(n)
                            ==> formats_to(number, n, shown[j])) by {
                            if j < i {
                                assert(shown[j] == old_shown[j]);
                            }
                        }
                    }
                    i = i + 1;
                }
                assert(tv.take(ts@.len() as int) =~= tv);
                let ghost listed = s@;
                s.append("]");
                assert(s@ =~= listed + "]"@);
                assert(numbers_shown(number, listed_tokens(*self), shown));
                assert(s@ == message_text(self@, shown));
                s
            },
        }
    }
}

} // verus!
