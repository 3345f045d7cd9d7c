use calcu::error::CalcError;
use calcu::eval::{AngleMode, Eval};
use calcu::expr::{BinOp, Constant, Expr, Func};
use calcu::token::Token;

fn num(s: &str) -> Expr {
    Expr::Num(s.to_string())
}

fn bin(op: BinOp, a: Expr, b: Expr) -> Expr {
    Expr::Binary(op, Box::new(a), Box::new(b))
}

fn neg(x: Expr) -> Expr {
    Expr::Neg(Box::new(x))
}

/// Numbers listed as their floating-point value's `{:?}` form.
fn debug(n: &String) -> String {
    format!("{:?}", n.parse::<f64>().unwrap())
}

fn parse(s: &str) -> Result<Expr, CalcError> {
    Eval { deg: AngleMode::Rad }.parse_expr(s)
}

#[test]
fn basic_ops_parse() {
    assert_eq!(
        parse("1+2*3"),
        Ok(bin(BinOp::Add, num("1"), bin(BinOp::Mul, num("2"), num("3"))))
    );
    assert_eq!(
        parse("(1+2)*3"),
        Ok(bin(BinOp::Mul, bin(BinOp::Add, num("1"), num("2")), num("3")))
    );
}

#[test]
fn floats_parse() {
    assert_eq!(parse("0.1+0.2"), Ok(bin(BinOp::Add, num("0.1"), num("0.2"))));
}

#[test]
fn constants_parse() {
    let ev = Eval { deg: AngleMode::Deg };
    assert_eq!(
        ev.parse_expr("sin(30)"),
        Ok(Expr::Call(Func::Sin, Box::new(num("30"))))
    );
    assert_eq!(
        parse("pi*e"),
        Ok(bin(BinOp::Mul, Expr::Const(Constant::Pi), Expr::Const(Constant::E)))
    );
}

#[test]
fn left_grouping_of_minus_and_division() {
    assert_eq!(
        parse("8-3-2"),
        Ok(bin(BinOp::Sub, bin(BinOp::Sub, num("8"), num("3")), num("2")))
    );
    assert_eq!(
        parse("8/4/2"),
        Ok(bin(BinOp::Div, bin(BinOp::Div, num("8"), num("4")), num("2")))
    );
    assert_eq!(
        parse("10%4*2"),
        Ok(bin(BinOp::Mul, bin(BinOp::Rem, num("10"), num("4")), num("2")))
    );
}

#[test]
fn power_groups_right() {
    assert_eq!(
        parse("2^3^2"),
        Ok(bin(BinOp::Pow, num("2"), bin(BinOp::Pow, num("3"), num("2"))))
    );
    assert_eq!(
        parse("2*3^2"),
        Ok(bin(BinOp::Mul, num("2"), bin(BinOp::Pow, num("3"), num("2"))))
    );
}

#[test]
fn unary_minus() {
    assert_eq!(parse("-1+2"), Ok(bin(BinOp::Add, neg(num("1")), num("2"))));
    assert_eq!(parse("-2^2"), Ok(neg(bin(BinOp::Pow, num("2"), num("2")))));
    assert_eq!(parse("2^-1"), Ok(bin(BinOp::Pow, num("2"), neg(num("1")))));
    assert_eq!(parse("--3"), Ok(neg(neg(num("3")))));
    assert_eq!(parse("4*-2"), Ok(bin(BinOp::Mul, num("4"), neg(num("2")))));
}

#[test]
fn function_calls() {
    assert_eq!(
        parse("sqrt(2)+log2(8)"),
        Ok(bin(
            BinOp::Add,
            Expr::Call(Func::Sqrt, Box::new(num("2"))),
            Expr::Call(Func::Log2, Box::new(num("8")))
        ))
    );
    assert_eq!(
        parse("abs(1-3)"),
        Ok(Expr::Call(Func::Abs, Box::new(bin(BinOp::Sub, num("1"), num("3")))))
    );
    assert_eq!(parse("cos(0)^2"), Ok(bin(BinOp::Pow, Expr::Call(Func::Cos, Box::new(num("0"))), num("2"))));
}

#[test]
fn parse_errors() {
    assert_eq!(parse("1+"), Err(CalcError::UnexpectedToken(None)));
    assert_eq!(parse(""), Err(CalcError::UnexpectedToken(None)));
    assert_eq!(parse("(1+2"), Err(CalcError::MissingCloseParen));
    assert_eq!(parse("sin(1"), Err(CalcError::MissingCloseParen));
    assert_eq!(parse("foo"), Err(CalcError::UnknownIdent("foo".to_string())));
    assert_eq!(parse("sin 30"), Err(CalcError::UnknownIdent("sin".to_string())));
    assert_eq!(parse("2 mod 3"), Err(CalcError::LeftoverTokens(vec![
        Token::Ident("mod".to_string()),
        Token::Number("3".to_string()),
    ])));
    assert_eq!(parse(")"), Err(CalcError::UnexpectedToken(Some(Token::RParen))));
    assert_eq!(parse("*2"), Err(CalcError::UnexpectedToken(Some(Token::Op('*')))));
    assert_eq!(parse("3!"), Err(CalcError::LeftoverTokens(vec![Token::Op('!')])));
    assert_eq!(parse("1 2"), Err(CalcError::LeftoverTokens(vec![Token::Number("2".to_string())])));
    assert_eq!(parse("1.2.3+1"), Err(CalcError::BadNumber("1.2.3".to_string())));
    assert_eq!(parse("1 ? 2"), Err(CalcError::UnknownChar('?')));
}

#[test]
fn written_expression_reads_back() {
    let e = bin(
        BinOp::Sub,
        neg(Expr::Call(Func::Tan, Box::new(num("1.5")))),
        bin(BinOp::Pow, Expr::Const(Constant::Pi), num("2")),
    );
    let text = "( - ( tan ( ( 1.5 ) ) ) ) - ( ( ( pi ) ^ ( 2 ) ) )";
    assert_eq!(parse(text), Ok(e));
}

#[test]
fn messages() {
    assert_eq!(CalcError::UnknownChar('#').message(debug), "알 수 없는 문자: '#'");
    assert_eq!(CalcError::BadNumber("1.2.3".to_string()).message(debug), "잘못된 숫자: 1.2.3");
    assert_eq!(CalcError::UnknownIdent("foo".to_string()).message(debug), "알 수 없는 식별자: foo");
    assert_eq!(CalcError::MissingCloseParen.message(debug), "닫는 괄호 없음");
    assert_eq!(
        CalcError::UnexpectedToken(Some(Token::RParen)).message(debug),
        "예상치 못한 토큰: Some(RParen)"
    );
    assert_eq!(parse("1+").unwrap_err().message(debug), "예상치 못한 토큰: None");
    assert_eq!(parse("").unwrap_err().message(debug), "예상치 못한 토큰: None");
    assert_eq!(parse("*2").unwrap_err().message(debug), "예상치 못한 토큰: Some(Op('*'))");
    assert_eq!(parse("3!").unwrap_err().message(debug), "남은 토큰: [Op('!')]");
    assert_eq!(
        parse("2 mod (3)").unwrap_err().message(debug),
        "남은 토큰: [Ident(\"mod\"), LParen, Number(3.0), RParen]"
    );
    assert_eq!(parse("1 2").unwrap_err().message(debug), "남은 토큰: [Number(2.0)]");
}

#[test]
fn names_of_functions_and_constants() {
    for f in [Func::Sin, Func::Cos, Func::Tan, Func::Ln, Func::Log, Func::Log2, Func::Sqrt, Func::Abs] {
        assert_eq!(Func::from_name(f.name()), Some(f));
        assert_eq!(Constant::from_name(f.name()), None);
    }
    for c in [Constant::Pi, Constant::E] {
        assert_eq!(Constant::from_name(c.name()), Some(c));
        assert_eq!(Func::from_name(c.name()), None);
    }
    assert_eq!(Func::from_name("asin"), None);
    assert_eq!(Func::from_name("exp"), None);
}

#[test]
fn messages_list_number_values() {
    assert_eq!(parse("1 0.50 .5 7.").unwrap_err().message(debug), "남은 토큰: [Number(0.5), Number(0.5), Number(7.0)]");
    assert_eq!(
        CalcError::UnexpectedToken(Some(Token::Number("2".to_string()))).message(debug),
        "예상치 못한 토큰: Some(Number(2.0))"
    );
    assert_eq!(parse("1 2").unwrap_err().message(|n: &String| format!("<{n}>")), "남은 토큰: [Number(<2>)]");
}

#[test]
fn power_without_caret_is_operand() {
    let ev = Eval { deg: AngleMode::Rad };
    let toks = calcu::eval::tokenize("(1+2)*3").unwrap();
    let mut p1 = 0;
    let atom = ev.parse_atom(&toks, &mut p1);
    let mut p2 = 0;
    let pow = ev.parse_pow(&toks, &mut p2);
    assert_eq!(atom, pow);
    assert_eq!(p1, p2);
    assert_eq!(p1, 5);
    let mut p3 = 7;
    assert_eq!(ev.parse_atom(&toks, &mut p3), Err(CalcError::UnexpectedToken(None)));
    let mut p4 = 1;
    assert_eq!(
        ev.parse_add(&toks, &mut p4),
        Ok(bin(BinOp::Add, num("1"), num("2")))
    );
    assert_eq!(p4, 4);
}
