use calcu::error::CalcError;
use calcu::eval::tokenize;
use calcu::token::Token;

fn num(s: &str) -> Token {
    Token::Number(s.to_string())
}

fn ident(s: &str) -> Token {
    Token::Ident(s.to_string())
}

#[test]
fn tokenize_arithmetic() {
    assert_eq!(
        tokenize("1+2*3"),
        Ok(vec![num("1"), Token::Op('+'), num("2"), Token::Op('*'), num("3")])
    );
}

#[test]
fn tokenize_skips_spaces_and_tabs() {
    assert_eq!(
        tokenize(" 12 \t-\t0.5 "),
        Ok(vec![num("12"), Token::Op('-'), num("0.5")])
    );
    assert_eq!(tokenize("  \t "), Ok(vec![]));
    assert_eq!(tokenize(""), Ok(vec![]));
}

#[test]
fn tokenize_names_and_parens() {
    assert_eq!(
        tokenize("sin(30) + pi"),
        Ok(vec![
            ident("sin"),
            Token::LParen,
            num("30"),
            Token::RParen,
            Token::Op('+'),
            ident("pi"),
        ])
    );
    assert_eq!(
        tokenize("log2(8)"),
        Ok(vec![ident("log2"), Token::LParen, num("8"), Token::RParen])
    );
    assert_eq!(tokenize("_x1"), Ok(vec![ident("_x1")]));
}

#[test]
fn tokenize_name_runs_over_unicode_letters() {
    assert_eq!(tokenize("x가2"), Ok(vec![ident("x가2")]));
}

#[test]
fn tokenize_number_forms() {
    assert_eq!(tokenize("1."), Ok(vec![num("1.")]));
    assert_eq!(tokenize(".5"), Ok(vec![num(".5")]));
    assert_eq!(tokenize("3.14pi"), Ok(vec![num("3.14"), ident("pi")]));
}

#[test]
fn tokenize_all_operators() {
    assert_eq!(
        tokenize("+-*/^%!"),
        Ok(vec![
            Token::Op('+'),
            Token::Op('-'),
            Token::Op('*'),
            Token::Op('/'),
            Token::Op('^'),
            Token::Op('%'),
            Token::Op('!'),
        ])
    );
}

#[test]
fn tokenize_rejects_bad_number() {
    assert_eq!(tokenize("1.2.3"), Err(CalcError::BadNumber("1.2.3".to_string())));
    assert_eq!(tokenize("2 + ."), Err(CalcError::BadNumber(".".to_string())));
}

#[test]
fn tokenize_rejects_unknown_char() {
    assert_eq!(tokenize("1 # 2"), Err(CalcError::UnknownChar('#')));
    assert_eq!(tokenize("1\n"), Err(CalcError::UnknownChar('\n')));
    assert_eq!(tokenize("가"), Err(CalcError::UnknownChar('가')));
}

#[test]
fn tokenize_first_error_wins() {
    assert_eq!(tokenize("1..2 #"), Err(CalcError::BadNumber("1..2".to_string())));
    assert_eq!(tokenize("# 1..2"), Err(CalcError::UnknownChar('#')));
}

#[test]
fn tokens_cover_input_without_gaps() {
    let input = " sin( 1.5 )*\tpi - 2 ";
    let toks = tokenize(input).unwrap();
    let mut text = String::new();
    for t in &toks {
        match t {
            Token::Number(s) | Token::Ident(s) => text.push_str(s),
            Token::Op(c) => text.push(*c),
            Token::LParen => text.push('('),
            Token::RParen => text.push(')'),
        }
    }
    let expected: String = input.chars().filter(|c| *c != ' ' && *c != '\t').collect();
    assert_eq!(text, expected);
}
