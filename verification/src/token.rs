//! Tokens of an expression and the tokenizer.

use vstd::prelude::*;
use crate::text::{
    alphanumeric, char_is_alphanumeric, chars_of, collect_string, is_ascii_char, is_ascii_letter,
    is_digit,
};
use crate::error::{CalcError, CalcErrorV};

verus! {

/// A token of an arithmetic expression.
///
/// A number keeps the decimal text it was written with (digits with at most
/// one `.`, and at least one digit), not a floating-point value; where a
/// message lists a number by its value (`Number(2.0)`), the caller of
/// `CalcError::message` writes that value.
#[derive(Debug, Clone, PartialEq)]
pub enum Token {
    Number(String),
    Op(char),
    Ident(String),
    LParen,
    RParen,
}

/// The mathematical model of a token: texts become character sequences.
pub enum TokenV {
    Number(Seq<char>),
    Op(char),
    Ident(Seq<char>),
    LParen,
    RParen,
}

impl View for Token {
    type V = TokenV;

    open spec fn view(&self) -> TokenV {
        match self {
            Token::Number(s) => TokenV::Number(s@),
            Token::Op(c) => TokenV::Op(*c),
            Token::Ident(s) => TokenV::Ident(s@),
            Token::LParen => TokenV::LParen,
            Token::RParen => TokenV::RParen,
        }
    }
}

/// The models of a sequence of tokens.
pub open spec fn tokens_view(ts: Seq<Token>) -> Seq<TokenV> {
    ts.map_values(|t: Token| t@)
}

/// The text a token stands for in the input.
pub open spec fn token_text(t: TokenV) -> Seq<char> {
    match t {
        TokenV::Number(s) => s,
        TokenV::Op(c) => seq![c],
        TokenV::Ident(s) => s,
        TokenV::LParen => seq!['('],
        TokenV::RParen => seq![')'],
    }
}

/// A character that may appear in a number literal.
pub open spec fn is_number_char(c: char) -> bool {
    is_digit(c) || c == '.'
}

/// A character that may start a name.
pub open spec fn is_name_start(c: char) -> bool {
    is_ascii_letter(c) || c == '_'
}

/// A character that may continue a name: `_`, or an alphanumeric character
/// (for ASCII, a letter or a digit).
pub open spec fn is_name_char(c: char) -> bool {
    ||| c == '_'
    ||| is_ascii_char(c) && (is_ascii_letter(c) || is_digit(c))
    ||| !is_ascii_char(c) && alphanumeric(c)
}

/// An operator character.
pub open spec fn is_op_char(c: char) -> bool {
    c == '+' || c == '-' || c == '*' || c == '/' || c == '^' || c == '%' || c == '!'
}

/// A character skipped between tokens.
pub open spec fn is_gap(c: char) -> bool {
    c == ' ' || c == '\t'
}

/// The end of the longest run of number characters of `s` that starts at `i`.
pub open spec fn number_end(s: Seq<char>, i: int) -> int
    decreases s.len() - i,
{
    if 0 <= i < s.len() && is_number_char(s[i]) {
        number_end(s, i + 1)
    } else {
        i
    }
}

/// The end of the longest run of name characters of `s` that starts at `i`.
pub open spec fn name_end(s: Seq<char>, i: int) -> int
    decreases s.len() - i,
{
    if 0 <= i < s.len() && is_name_char(s[i]) {
        name_end(s, i + 1)
    } else {
        i
    }
}

/// How many `.` characters `s` holds.
pub open spec fn dot_count(s: Seq<char>) -> nat
    decreases s.len(),
{
    if s.len() == 0 {
        0
    } else {
        dot_count(s.drop_last()) + if s.last() == '.' { 1nat } else { 0nat }
    }
}

/// How many digits `s` holds.
pub open spec fn digit_count(s: Seq<char>) -> nat
    decreases s.len(),
{
    if s.len() == 0 {
        0
    } else {
        digit_count(s.drop_last()) + if is_digit(s.last()) { 1nat } else { 0nat }
    }
}

/// A run of digits and dots is a decimal number (`1`, `1.5`, `.5`, `1.`)
/// when it holds at most one dot and at least one digit.
pub open spec fn valid_number(lit: Seq<char>) -> bool {
    dot_count(lit) <= 1 && digit_count(lit) >= 1
}

/// A number's text as the tokenizer lets it through: non-empty, made of
/// digits and dots, and a decimal number.
pub open spec fn decimal_literal(lit: Seq<char>) -> bool {
    &&& lit.len() > 0
    &&& forall|j: int| 0 <= j < lit.len() ==> is_number_char(#[trigger] lit[j])
    &&& valid_number(lit)
}

/// A token that the tokenizer can produce: a decimal number, a name that
/// starts with a letter or `_` and goes on with name characters, an operator
/// character, or a parenthesis.
pub open spec fn proper_token(t: TokenV) -> bool {
    match t {
        TokenV::Number(lit) => decimal_literal(lit),
        TokenV::Ident(name) => {
            &&& name.len() > 0
            &&& is_name_start(name[0])
            &&& forall|j: int| 0 <= j < name.len() ==> is_name_char(#[trigger] name[j])
        },
        TokenV::Op(c) => is_op_char(c),
        _ => true,
    }
}

pub proof fn lemma_number_end(s: Seq<char>, i: int)
    requires
        0 <= i <= s.len(),
    ensures
        i <= number_end(s, i) <= s.len(),
        forall|k: int| i <= k < number_end(s, i) ==> is_number_char(#[trigger] s[k]),
        number_end(s, i) < s.len() ==> !is_number_char(s[number_end(s, i)]),
    decreases s.len() - i,
{
    if i < s.len() && is_number_char(s[i]) {
        lemma_number_end(s, i + 1);
    }
}

pub proof fn lemma_name_end(s: Seq<char>, i: int)
    requires
        0 <= i <= s.len(),
    ensures
        i <= name_end(s, i) <= s.len(),
        forall|k: int| i <= k < name_end(s, i) ==> is_name_char(#[trigger] s[k]),
        name_end(s, i) < s.len() ==> !is_name_char(s[name_end(s, i)]),
    decreases s.len() - i,
{
    if i < s.len() && is_name_char(s[i]) {
        lemma_name_end(s, i + 1);
    }
}

/// Prepends tokens to a tokenizer outcome.
pub open spec fn prepend_tokens(
    pre: Seq<TokenV>,
    r: Result<Seq<TokenV>, CalcErrorV>,
) -> Result<Seq<TokenV>, CalcErrorV> {
    match r {
        Ok(ts) => Ok(pre + ts),
        Err(e) => Err(e),
    }
}

/// Tokenizing `s` from position `i` on, left to right: gaps are skipped, a
/// run of digits and dots is one number, a letter or `_` starts a name that
/// runs over name characters, operators and parentheses are tokens of their
/// own. The first character that fits none of these, or the first run of
/// digits and dots that is no decimal number, is the error.
pub open spec fn tokenize_from(s: Seq<char>, i: int) -> Result<Seq<TokenV>, CalcErrorV>
    decreases s.len() - i,
{
    if i < 0 || i >= s.len() {
        Ok(seq![])
    } else {
        let c = s[i];
        if is_number_char(c) {
            let j = number_end(s, i);
            proof {
                lemma_number_end(s, i);
            }
            let lit = s.subrange(i, j);
            if !valid_number(lit) {
                Err(CalcErrorV::BadNumber(lit))
            } else {
                prepend_tokens(seq![TokenV::Number(lit)], tokenize_from(s, j))
            }
        } else if is_name_start(c) {
            let j = name_end(s, i);
            proof {
                lemma_name_end(s, i);
            }
            prepend_tokens(seq![TokenV::Ident(s.subrange(i, j))], tokenize_from(s, j))
        } else if is_op_char(c) {
            prepend_tokens(seq![TokenV::Op(c)], tokenize_from(s, i + 1))
        } else if c == '(' {
            prepend_tokens(seq![TokenV::LParen], tokenize_from(s, i + 1))
        } else if c == ')' {
            prepend_tokens(seq![TokenV::RParen], tokenize_from(s, i + 1))
        } else if is_gap(c) {
            tokenize_from(s, i + 1)
        } else {
            Err(CalcErrorV::UnknownChar(c))
        }
    }
}

/// The tokens of a whole input.
pub open spec fn spec_tokenize(s: Seq<char>) -> Result<Seq<TokenV>, CalcErrorV> {
    tokenize_from(s, 0)
}

/// The model of a tokenizer result.
pub open spec fn tokens_result_view(r: Result<Vec<Token>, CalcError>) -> Result<
    Seq<TokenV>,
    CalcErrorV,
> {
    match r {
        Ok(ts) => Ok(tokens_view(ts@)),
        Err(e) => Err(e@),
    }
}

proof fn lemma_tokens_proper_from(s: Seq<char>, i: int)
    requires
        0 <= i <= s.len(),
    ensures
        tokenize_from(s, i) matches Ok(ts) ==> forall|j: int|
            0 <= j < ts.len() ==> proper_token(#[trigger] ts[j]),
    decreases s.len() - i,
{
    if i < s.len() {
        let c = s[i];
        if is_number_char(c) {
            lemma_number_end(s, i);
            let e = number_end(s, i);
            lemma_tokens_proper_from(s, e);
            let lit = s.subrange(i, e);
            assert forall|k: int| 0 <= k < lit.len() implies is_number_char(#[trigger] lit[k]) by {
                assert(lit[k] == s[i + k]);
            }
        } else if is_name_start(c) {
            lemma_name_end(s, i);
            assert(is_name_char(c));
            let e = name_end(s, i);
            lemma_tokens_proper_from(s, e);
            let name = s.subrange(i, e);
            assert forall|k: int| 0 <= k < name.len() implies is_name_char(#[trigger] name[k]) by {
                assert(name[k] == s[i + k]);
            }
            assert(name[0] == c);
        } else {
            lemma_tokens_proper_from(s, i + 1);
        }
    }
}

/// Every token the tokenizer produces is proper; in particular every number
/// token is a decimal number.
pub proof fn law_tokens_are_proper(s: Seq<char>)
    ensures
        spec_tokenize(s) matches Ok(ts) ==> forall|j: int|
            0 <= j < ts.len() ==> proper_token(#[trigger] ts[j]),
{
    lemma_tokens_proper_from(s, 0);
}

proof fn lemma_number_run_ends(s: Seq<char>, i: int)
    requires
        0 <= i <= s.len(),
        forall|k: int| i <= k < s.len() ==> is_number_char(#[trigger] s[k]),
    ensures
        number_end(s, i) == s.len(),
    decreases s.len() - i,
{
    if i < s.len() {
        lemma_number_run_ends(s, i + 1);
    }
}

proof fn lemma_counts_concat(x: Seq<char>, y: Seq<char>)
    ensures
        dot_count(x + y) == dot_count(x) + dot_count(y),
        digit_count(x + y) == digit_count(x) + digit_count(y),
    decreases y.len(),
{
    if y.len() == 0 {
        assert(x + y =~= x);
    } else {
        assert((x + y).drop_last() =~= x + y.drop_last());
        assert((x + y).last() == y.last());
        lemma_counts_concat(x, y.drop_last());
    }
}

proof fn lemma_counts_of_digits(x: Seq<char>)
    requires
        forall|k: int| 0 <= k < x.len() ==> is_digit(#[trigger] x[k]),
    ensures
        dot_count(x) == 0,
        digit_count(x) == x.len(),
    decreases x.len(),
{
    if x.len() > 0 {
        assert forall|k: int| 0 <= k < x.drop_last().len() implies is_digit(
            #[trigger] x.drop_last()[k],
        ) by {
            assert(x.drop_last()[k] == x[k]);
        }
        lemma_counts_of_digits(x.drop_last());
        assert(is_digit(x[x.len() - 1]));
    }
}

/// Every run of digits, of any length, with at most one dot and at least
/// one digit, is read as one number token holding exactly that run: `a`
/// alone when it is not empty, and `a.b` when `a` and `b` together hold a
/// digit (`12345`, `1.5`, `.5`, `7.`).
pub proof fn law_digit_runs_are_numbers(a: Seq<char>, b: Seq<char>)
    requires
        forall|k: int| 0 <= k < a.len() ==> is_digit(#[trigger] a[k]),
        forall|k: int| 0 <= k < b.len() ==> is_digit(#[trigger] b[k]),
    ensures
        a.len() > 0 ==> spec_tokenize(a) == Ok::<Seq<TokenV>, CalcErrorV>(
            seq![TokenV::Number(a)],
        ),
        a.len() + b.len() > 0 ==> spec_tokenize(a + seq!['.'] + b) == Ok::<
            Seq<TokenV>,
            CalcErrorV,
        >(seq![TokenV::Number(a + seq!['.'] + b)]),
{
    lemma_counts_of_digits(a);
    lemma_counts_of_digits(b);
    if a.len() > 0 {
        lemma_number_run_ends(a, 0);
        assert(a.subrange(0, a.len() as int) =~= a);
        assert(tokenize_from(a, a.len() as int) == Ok::<Seq<TokenV>, CalcErrorV>(seq![]));
        assert(seq![TokenV::Number(a)] + seq![] =~= seq![TokenV::Number(a)]);
        assert(is_number_char(a[0]));
    }
    if a.len() + b.len() > 0 {
        let s = a + seq!['.'] + b;
        assert forall|k: int| 0 <= k < s.len() implies is_number_char(#[trigger] s[k]) by {
            if k < a.len() {
                assert(s[k] == a[k]);
            } else if k > a.len() {
                assert(s[k] == b[k - a.len() - 1]);
            }
        }
        lemma_number_run_ends(s, 0);
        lemma_counts_concat(a, seq!['.']);
        lemma_counts_concat(a + seq!['.'], b);
        let dot = seq!['.'];
        assert(dot.drop_last() =~= Seq::<char>::empty());
        assert(dot_count(dot.drop_last()) == 0);
        assert(digit_count(dot.drop_last()) == 0);
        assert(dot.last() == '.');
        assert(dot_count(dot) == 1);
        assert(digit_count(dot) == 0);
        assert(s.subrange(0, s.len() as int) =~= s);
        assert(tokenize_from(s, s.len() as int) == Ok::<Seq<TokenV>, CalcErrorV>(seq![]));
        assert(seq![TokenV::Number(s)] + seq![] =~= seq![TokenV::Number(s)]);
        assert(is_number_char(s[0]));
    }
}

/// A run of digits with two dots in it, of any length, is a bad number,
/// reported with the whole run (`1.2.3`, `1..2`, `..`).
#[verifier::rlimit(30)]
pub proof fn law_two_dots_make_a_bad_number(a: Seq<char>, b: Seq<char>, c: Seq<char>)
    requires
        forall|k: int| 0 <= k < a.len() ==> is_digit(#[trigger] a[k]),
        forall|k: int| 0 <= k < b.len() ==> is_digit(#[trigger] b[k]),
        forall|k: int| 0 <= k < c.len() ==> is_digit(#[trigger] c[k]),
    ensures
        spec_tokenize(a + seq!['.'] + b + seq!['.'] + c) == Err::<Seq<TokenV>, CalcErrorV>(
            CalcErrorV::BadNumber(a + seq!['.'] + b + seq!['.'] + c),
        ),
{
    let dot = seq!['.'];
    let s = a + dot + b + dot + c;
    lemma_counts_of_digits(a);
    lemma_counts_of_digits(b);
    lemma_counts_of_digits(c);
    assert(dot.drop_last() =~= Seq::<char>::empty());
    assert(dot_count(dot.drop_last()) == 0);
    assert(dot.last() == '.');
    assert(dot_count(dot) == 1);
    lemma_counts_concat(a, dot);
    lemma_counts_concat(a + dot, b);
    lemma_counts_concat(a + dot + b, dot);
    lemma_counts_concat(a + dot + b + dot, c);
    assert(dot_count(s) == 2);
    assert forall|k: int| 0 <= k < s.len() implies is_number_char(#[trigger] s[k]) by {
        let n1 = a.len() as int;
        let n2 = n1 + 1 + b.len();
        if k < n1 {
            assert(s[k] == a[k]);
        } else if k == n1 {
            assert(s[k] == '.');
        } else if k < n2 {
            assert(s[k] == b[k - n1 - 1]);
        } else if k == n2 {
            assert(s[k] == '.');
        } else {
            assert(s[k] == c[k - n2 - 1]);
        }
    }
    lemma_number_run_ends(s, 0);
    assert(s.subrange(0, s.len() as int) =~= s);
    assert(is_number_char(s[0]));
}

/// A character that can start a token or be skipped between tokens.
pub open spec fn starts_or_skips(c: char) -> bool {
    is_number_char(c) || is_name_start(c) || is_op_char(c) || c == '(' || c == ')' || is_gap(c)
}

/// `lit` is a run of digits and dots of `s`, from `a` to `b`, that no digit
/// or dot follows.
pub open spec fn number_run_at(s: Seq<char>, lit: Seq<char>, a: int, b: int) -> bool {
    &&& 0 <= a < b <= s.len()
    &&& s.subrange(a, b) == lit
    &&& forall|k: int| a <= k < b ==> is_number_char(#[trigger] s[k])
    &&& (b == s.len() || !is_number_char(s[b]))
}

proof fn lemma_tokenize_errors_from(s: Seq<char>, i: int)
    requires
        0 <= i <= s.len(),
    ensures
        tokenize_from(s, i) matches Err(CalcErrorV::UnknownChar(c)) ==> exists|k: int|
            i <= k < s.len() && s[k] == c && !starts_or_skips(c),
        (forall|k: int| i <= k < s.len() ==> starts_or_skips(#[trigger] s[k])) ==> !(tokenize_from(
            s,
            i,
        ) is Err && tokenize_from(s, i)->Err_0 is UnknownChar),
        tokenize_from(s, i) matches Err(CalcErrorV::BadNumber(lit)) ==> !valid_number(lit)
            && exists|a: int, b: int| i <= a && number_run_at(s, lit, a, b),
        tokenize_from(s, i) matches Err(e) ==> (e is UnknownChar || e is BadNumber),
    decreases s.len() - i,
{
    if i < s.len() {
        let c = s[i];
        if is_number_char(c) {
            lemma_number_end(s, i);
            let j = number_end(s, i);
            lemma_tokenize_errors_from(s, j);
            let lit = s.subrange(i, j);
            if !valid_number(lit) {
                assert(number_run_at(s, lit, i, j));
            }
            if let Err(CalcErrorV::UnknownChar(c2)) = tokenize_from(s, j) {
                let k = choose|k: int| j <= k < s.len() && s[k] == c2 && !starts_or_skips(c2);
                assert(i <= k);
            }
            if let Err(CalcErrorV::BadNumber(l2)) = tokenize_from(s, j) {
                let (a, b) = choose|a: int, b: int| j <= a && number_run_at(s, l2, a, b);
                assert(i <= a);
            }
        } else if is_name_start(c) {
            lemma_name_end(s, i);
            assert(is_name_char(c));
            let j = name_end(s, i);
            lemma_tokenize_errors_from(s, j);
            if let Err(CalcErrorV::UnknownChar(c2)) = tokenize_from(s, j) {
                let k = choose|k: int| j <= k < s.len() && s[k] == c2 && !starts_or_skips(c2);
                assert(i <= k);
            }
            if let Err(CalcErrorV::BadNumber(l2)) = tokenize_from(s, j) {
                let (a, b) = choose|a: int, b: int| j <= a && number_run_at(s, l2, a, b);
                assert(i <= a);
            }
        } else {
            lemma_tokenize_errors_from(s, i + 1);
            if let Err(CalcErrorV::UnknownChar(c2)) = tokenize_from(s, i + 1) {
                let k = choose|k: int| i + 1 <= k < s.len() && s[k] == c2 && !starts_or_skips(c2);
                assert(i <= k);
            }
            if let Err(CalcErrorV::BadNumber(l2)) = tokenize_from(s, i + 1) {
                let (a, b) = choose|a: int, b: int| i + 1 <= a && number_run_at(s, l2, a, b);
                assert(i <= a);
            }
        }
    }
}

/// The tokenizer fails only for a reason in the input: an unknown
/// character is one of the input's characters that starts no token and is
/// no space or tab (so an input of such characters alone never fails for
/// one), and a bad number is a whole run of digits and dots of the input
/// (followed by no digit or dot) that is no decimal number.
pub proof fn law_tokenize_fails_for_a_reason(s: Seq<char>)
    ensures
        spec_tokenize(s) matches Err(CalcErrorV::UnknownChar(c)) ==> exists|k: int|
            0 <= k < s.len() && s[k] == c && !starts_or_skips(c),
        (forall|k: int| 0 <= k < s.len() ==> starts_or_skips(#[trigger] s[k])) ==> !(
        spec_tokenize(s) is Err && spec_tokenize(s)->Err_0 is UnknownChar),
        spec_tokenize(s) matches Err(CalcErrorV::BadNumber(lit)) ==> !valid_number(lit)
            && exists|a: int, b: int| number_run_at(s, lit, a, b),
        spec_tokenize(s) matches Err(e) ==> (e is UnknownChar || e is BadNumber),
{
    lemma_tokenize_errors_from(s, 0);
}

proof fn lemma_blanks_from(s: Seq<char>, i: int)
    requires
        forall|k: int| 0 <= k < s.len() ==> (#[trigger] s[k] == ' ' || s[k] == '\t'),
    ensures
        tokenize_from(s, i) == Ok::<Seq<TokenV>, CalcErrorV>(seq![]),
    decreases s.len() - i,
{
    if 0 <= i < s.len() {
        assert(s[i] == ' ' || s[i] == '\t');
        lemma_blanks_from(s, i + 1);
    }
}

proof fn lemma_name_run_ends(s: Seq<char>, i: int)
    requires
        0 <= i <= s.len(),
        forall|k: int| i <= k < s.len() ==> is_name_char(#[trigger] s[k]),
    ensures
        name_end(s, i) == s.len(),
    decreases s.len() - i,
{
    if i < s.len() {
        lemma_name_run_ends(s, i + 1);
    }
}

/// A word that starts with an ASCII letter or `_` and goes on with ASCII
/// letters, digits and `_` is read as one name holding the whole word, of
/// any length (`log2`, `x_1`, `sqrt`).
pub proof fn law_words_are_names(w: Seq<char>)
    requires
        w.len() > 0,
        'a' <= w[0] <= 'z' || 'A' <= w[0] <= 'Z' || w[0] == '_',
        forall|k: int|
            0 <= k < w.len() ==> ('a' <= #[trigger] w[k] <= 'z' || 'A' <= w[k] <= 'Z' || '0'
                <= w[k] <= '9' || w[k] == '_'),
    ensures
        spec_tokenize(w) == Ok::<Seq<TokenV>, CalcErrorV>(seq![TokenV::Ident(w)]),
{
    assert forall|k: int| 0 <= k < w.len() implies is_name_char(#[trigger] w[k]) by {
        let c = w[k];
        if c != '_' {
            assert((c as u32) < 128);
        }
    }
    lemma_name_run_ends(w, 0);
    assert(w.subrange(0, w.len() as int) =~= w);
    assert(tokenize_from(w, w.len() as int) == Ok::<Seq<TokenV>, CalcErrorV>(seq![]));
    assert(seq![TokenV::Ident(w)] + Seq::<TokenV>::empty() =~= seq![TokenV::Ident(w)]);
    assert(!is_number_char(w[0]));
    assert(is_name_start(w[0]));
}

/// An input of spaces and tabs alone reads as no tokens.
pub proof fn law_blanks_are_skipped(s: Seq<char>)
    requires
        forall|k: int| 0 <= k < s.len() ==> (#[trigger] s[k] == ' ' || s[k] == '\t'),
    ensures
        spec_tokenize(s) == Ok::<Seq<TokenV>, CalcErrorV>(seq![]),
{
    lemma_blanks_from(s, 0);
}

/// What one character alone reads as: a digit is a number, a lone `.` is a
/// bad number, an ASCII letter or `_` is a name, each of `+ - * / ^ % !` is
/// that operator, a parenthesis is itself, a space or a tab is nothing, and
/// any other character is unknown.
#[verifier::rlimit(30)]
pub proof fn law_single_characters(c: char)
    ensures
        '0' <= c <= '9' ==> spec_tokenize(seq![c]) == Ok::<Seq<TokenV>, CalcErrorV>(
            seq![TokenV::Number(seq![c])],
        ),
        c == '.' ==> spec_tokenize(seq![c]) == Err::<Seq<TokenV>, CalcErrorV>(
            CalcErrorV::BadNumber(seq!['.']),
        ),
        ('a' <= c <= 'z' || 'A' <= c <= 'Z' || c == '_') ==> spec_tokenize(seq![c]) == Ok::<
            Seq<TokenV>,
            CalcErrorV,
        >(seq![TokenV::Ident(seq![c])]),
        (c == '+' || c == '-' || c == '*' || c == '/' || c == '^' || c == '%' || c == '!')
            ==> spec_tokenize(seq![c]) == Ok::<Seq<TokenV>, CalcErrorV>(seq![TokenV::Op(c)]),
        c == '(' ==> spec_tokenize(seq![c]) == Ok::<Seq<TokenV>, CalcErrorV>(
            seq![TokenV::LParen],
        ),
        c == ')' ==> spec_tokenize(seq![c]) == Ok::<Seq<TokenV>, CalcErrorV>(
            seq![TokenV::RParen],
        ),
        (c == ' ' || c == '\t') ==> spec_tokenize(seq![c]) == Ok::<Seq<TokenV>, CalcErrorV>(
            seq![],
        ),
        !('0' <= c <= '9' || c == '.' || 'a' <= c <= 'z' || 'A' <= c <= 'Z' || c == '_' || c
            == '+' || c == '-' || c == '*' || c == '/' || c == '^' || c == '%' || c == '!' || c
            == '(' || c == ')' || c == ' ' || c == '\t') ==> spec_tokenize(seq![c]) == Err::<
            Seq<TokenV>,
            CalcErrorV,
        >(CalcErrorV::UnknownChar(c)),
{
    let one = seq![c];
    assert(one[0] == c);
    assert(tokenize_from(one, 1) == Ok::<Seq<TokenV>, CalcErrorV>(seq![]));
    assert(one.subrange(0, 1) =~= one);
    if is_number_char(c) {
        assert(number_end(one, 1) == 1);
        assert(number_end(one, 0) == 1);
        assert(dot_count(one.drop_last()) == 0 && digit_count(one.drop_last()) == 0) by {
            assert(one.drop_last() =~= Seq::<char>::empty());
        }
    } else if is_name_start(c) {
        assert(name_end(one, 1) == 1);
        assert(name_end(one, 0) == 1);
    }
    assert(seq![TokenV::Op(c)] + Seq::<TokenV>::empty() =~= seq![TokenV::Op(c)]);
    assert(seq![TokenV::LParen] + Seq::<TokenV>::empty() =~= seq![TokenV::LParen]);
    assert(seq![TokenV::RParen] + Seq::<TokenV>::empty() =~= seq![TokenV::RParen]);
    assert(seq![TokenV::Number(one)] + Seq::<TokenV>::empty() =~= seq![TokenV::Number(one)]);
    assert(seq![TokenV::Ident(one)] + Seq::<TokenV>::empty() =~= seq![TokenV::Ident(one)]);
}

/// The characters of `s` other than spaces and tabs, in order.
pub open spec fn without_gaps(s: Seq<char>) -> Seq<char>
    decreases s.len(),
{
    if s.len() == 0 {
        seq![]
    } else if is_gap(s[0]) {
        without_gaps(s.drop_first())
    } else {
        seq![s[0]] + without_gaps(s.drop_first())
    }
}

/// The texts of tokens, one after the other.
pub open spec fn concat_text(ts: Seq<TokenV>) -> Seq<char>
    decreases ts.len(),
{
    if ts.len() == 0 {
        seq![]
    } else {
        token_text(ts[0]) + concat_text(ts.drop_first())
    }
}

proof fn lemma_without_gaps_concat(a: Seq<char>, b: Seq<char>)
    ensures
        without_gaps(a + b) == without_gaps(a) + without_gaps(b),
    decreases a.len(),
{
    if a.len() == 0 {
        assert(a + b =~= b);
        assert(without_gaps(a) + without_gaps(b) =~= without_gaps(b));
    } else {
        assert((a + b).drop_first() =~= a.drop_first() + b);
        lemma_without_gaps_concat(a.drop_first(), b);
        assert((a + b)[0] == a[0]);
        if is_gap(a[0]) {
        } else {
            assert(without_gaps(a + b) =~= without_gaps(a) + without_gaps(b));
        }
    }
}

proof fn lemma_without_gaps_none(a: Seq<char>)
    requires
        forall|k: int| 0 <= k < a.len() ==> !is_gap(#[trigger] a[k]),
    ensures
        without_gaps(a) == a,
    decreases a.len(),
{
    if a.len() > 0 {
        assert forall|k: int| 0 <= k < a.drop_first().len() implies !is_gap(
            #[trigger] a.drop_first()[k],
        ) by {
            assert(a.drop_first()[k] == a[k + 1]);
        }
        lemma_without_gaps_none(a.drop_first());
        assert(seq![a[0]] + a.drop_first() =~= a);
    }
}

proof fn lemma_tokens_cover_from(s: Seq<char>, i: int)
    requires
        0 <= i <= s.len(),
    ensures
        tokenize_from(s, i) matches Ok(ts) ==> concat_text(ts) == without_gaps(
            s.subrange(i, s.len() as int),
        ),
    decreases s.len() - i,
{
    if i < s.len() {
        let c = s[i];
        let rest = s.subrange(i, s.len() as int);
        let j = if is_number_char(c) {
            lemma_number_end(s, i);
            number_end(s, i)
        } else if is_name_start(c) {
            lemma_name_end(s, i);
            name_end(s, i)
        } else {
            i + 1
        };
        assert(i < j <= s.len()) by {
            if is_number_char(c) {
            } else if is_name_start(c) {
                assert(is_name_char(c));
            }
        }
        lemma_tokens_cover_from(s, j);
        let head = s.subrange(i, j);
        assert(rest =~= head + s.subrange(j, s.len() as int));
        lemma_without_gaps_concat(head, s.subrange(j, s.len() as int));
        if let Ok(ts) = tokenize_from(s, i) {
            if is_gap(c) {
                assert(head =~= seq![c]);
                assert(without_gaps(head) =~= Seq::<char>::empty()) by {
                    assert(head[0] == c);
                    assert(head.drop_first() =~= Seq::<char>::empty());
                    assert(without_gaps(head.drop_first()) =~= Seq::<char>::empty());
                }
                assert(without_gaps(rest) =~= without_gaps(s.subrange(j, s.len() as int)));
            } else {
                assert forall|k: int| 0 <= k < head.len() implies !is_gap(#[trigger] head[k]) by {
                    assert(head[k] == s[i + k]);
                    if is_name_start(c) {
                        assert(is_name_char(s[i + k]));
                    }
                }
                lemma_without_gaps_none(head);
                let r = tokenize_from(s, j);
                let tr = r->Ok_0;
                let t = ts[0];
                assert(ts =~= seq![t] + tr);
                assert(ts.drop_first() =~= tr);
                assert(token_text(t) =~= head);
                assert(concat_text(ts) == token_text(t) + concat_text(tr));
            }
        }
    } else {
        assert(s.subrange(i, s.len() as int) =~= Seq::<char>::empty());
    }
}

/// The tokens of an input cover it: their texts, one after the other, are
/// the input without its spaces and tabs.
pub proof fn law_tokens_cover_input(s: Seq<char>)
    ensures
        spec_tokenize(s) matches Ok(ts) ==> concat_text(ts) == without_gaps(s),
{
    lemma_tokens_cover_from(s, 0);
    assert(s.subrange(0, s.len() as int) =~= s);
}

proof fn lemma_prepend_assoc(
    a: Seq<TokenV>,
    b: Seq<TokenV>,
    r: Result<Seq<TokenV>, CalcErrorV>,
)
    ensures
        prepend_tokens(a + b, r) == prepend_tokens(a, prepend_tokens(b, r)),
{
    match r {
        Ok(t) => {
            assert((a + b) + t =~= a + (b + t));
        },
        Err(_) => {},
    }
}

/// Scans the run of number characters that starts at `start`; returns where
/// it ends and whether it is a decimal number.
fn scan_number(chars: &Vec<char>, start: usize) -> (r: (usize, bool))
    requires
        start < chars@.len(),
        is_number_char(chars@[start as int]),
    ensures
        r.0 == number_end(chars@, start as int),
        r.1 == valid_number(chars@.subrange(start as int, r.0 as int)),
{
    let ghost s = chars@;
    let mut i = start;
    let mut dots: usize = 0;
    let mut digits: usize = 0;
    while i < chars.len() && (('0' <= chars[i] && chars[i] <= '9') || chars[i] == '.')
        invariant
            chars@ == s,
            start <= i <= s.len(),
            number_end(s, i as int) == number_end(s, start as int),
            dots == dot_count(s.subrange(start as int, i as int)),
            digits == digit_count(s.subrange(start as int, i as int)),
            dots + digits <= i - start,
        decreases s.len() - i,
    {
        assert(s.subrange(start as int, i + 1).drop_last() =~= s.subrange(start as int, i as int));
        if chars[i] == '.' {
            dots = dots + 1;
        } else {
            digits = digits + 1;
        }
        i = i + 1;
    }
    (i, dots <= 1 && digits >= 1)
}

/// Scans the run of name characters that starts at `start`.
fn scan_name(chars: &Vec<char>, start: usize) -> (end: usize)
    requires
        start <= chars@.len(),
    ensures
        end == name_end(chars@, start as int),
{
    let ghost s = chars@;
    let mut i = start;
    while i < chars.len() && name_char(chars[i])
        invariant
            chars@ == s,
            start <= i <= s.len(),
            name_end(s, i as int) == name_end(s, start as int),
        decreases s.len() - i,
    {
        i = i + 1;
    }
    i
}

/// Splits `input` into tokens.
pub fn tokenize(input: &str) -> (r: Result<Vec<Token>, CalcError>)
    ensures
        tokens_result_view(r) == spec_tokenize(input@),
{
    let mut toks: Vec<Token> = Vec::new();
    let chars = chars_of(input);
    let ghost s = input@;
    let mut i: usize = 0;
    while i < chars.len()
        invariant
            chars@ == s,
            s == input@,
            i <= s.len(),
            spec_tokenize(s) == prepend_tokens(tokens_view(toks@), tokenize_from(s, i as int)),
        decreases s.len() - i,
    {
        let c = chars[i];
        let ghost old_toks = tokens_view(toks@);
        let ghost old_i = i as int;
        if ('0' <= c && c <= '9') || c == '.' {
            let (end, ok) = scan_number(&chars, i);
            proof {
                lemma_number_end(s, old_i);
            }
            let lit = collect_string(vstd::slice::slice_subrange(chars.as_slice(), i, end));
            if !ok {
                return Err(CalcError::BadNumber(lit));
            }
            toks.push(Token::Number(lit));
            i = end;
            proof {
                assert(tokens_view(toks@) =~= old_toks + seq![TokenV::Number(lit@)]);
                lemma_prepend_assoc(old_toks, seq![TokenV::Number(lit@)], tokenize_from(s, i as int));
            }
        } else if ('a' <= c && c <= 'z') || ('A' <= c && c <= 'Z') || c == '_' {
            let end = scan_name(&chars, i);
            proof {
                lemma_name_end(s, old_i);
            }
            let name = collect_string(vstd::slice::slice_subrange(chars.as_slice(), i, end));
            toks.push(Token::Ident(name));
            i = end;
            proof {
                assert(tokens_view(toks@) =~= old_toks + seq![TokenV::Ident(name@)]);
                lemma_prepend_assoc(old_toks, seq![TokenV::Ident(name@)], tokenize_from(s, i as int));
            }
        } else if c == '+' || c == '-' || c == '*' || c == '/' || c == '^' || c == '%' || c
            == '!' {
            toks.push(Token::Op(c));
            i = i + 1;
            proof {
                assert(tokens_view(toks@) =~= old_toks + seq![TokenV::Op(c)]);
                lemma_prepend_assoc(old_toks, seq![TokenV::Op(c)], tokenize_from(s, i as int));
            }
        } else if c == '(' {
            toks.push(Token::LParen);
            i = i + 1;
            proof {
                assert(tokens_view(toks@) =~= old_toks + seq![TokenV::LParen]);
                lemma_prepend_assoc(old_toks, seq![TokenV::LParen], tokenize_from(s, i as int));
            }
        } else if c == ')' {
            toks.push(Token::RParen);
            i = i + 1;
            proof {
                assert(tokens_view(toks@) =~= old_toks + seq![TokenV::RParen]);
                lemma_prepend_assoc(old_toks, seq![TokenV::RParen], tokenize_from(s, i as int));
            }
        } else if c == ' ' || c == '\t' {
            i = i + 1;
        } else {
            return Err(CalcError::UnknownChar(c));
        }
    }
    assert(tokens_view(toks@) + seq![] =~= tokens_view(toks@));
    Ok(toks)
}

/// Whether `c` may continue a name.
fn name_char(c: char) -> (r: bool)
    ensures
        r == is_name_char(c),
{
    if c == '_' {
        true
    } else if (c as u32) < 128 {
        ('a' <= c && c <= 'z') || ('A' <= c && c <= 'Z') || ('0' <= c && c <= '9')
    } else {
        char_is_alphanumeric(c)
    }
}

} // verus!
