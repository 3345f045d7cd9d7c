use calcu::calculator::{d, k2, key_rgb, keypad, CalculatorApp, KeyKind};
use calcu::text::char_is_whitespace;
use calcu::eval::AngleMode;
use calcu::expr::{BinOp, Constant, Expr, Func};

/// A float evaluation of the tree, enough to check values in tests.
fn value(e: &Expr, mode: AngleMode) -> f64 {
    match e {
        Expr::Num(s) => s.parse().unwrap(),
        Expr::Const(Constant::Pi) => std::f64::consts::PI,
        Expr::Const(Constant::E) => std::f64::consts::E,
        Expr::Neg(x) => -value(x, mode),
        Expr::Binary(op, a, b) => {
            let (a, b) = (value(a, mode), value(b, mode));
            match op {
                BinOp::Add => a + b,
                BinOp::Sub => a - b,
                BinOp::Mul => a * b,
                BinOp::Div => a / b,
                BinOp::Rem => a % b,
                BinOp::Pow => a.powf(b),
            }
        }
        Expr::Call(f, x) => {
            let v = value(x, mode);
            let r = if mode == AngleMode::Deg { v.to_radians() } else { v };
            match f {
                Func::Sin => r.sin(),
                Func::Cos => r.cos(),
                Func::Tan => r.tan(),
                Func::Ln => v.ln(),
                Func::Log => v.log10(),
                Func::Log2 => v.log2(),
                Func::Sqrt => v.sqrt(),
                Func::Abs => v.abs(),
            }
        }
    }
}

fn debug(n: &String) -> String {
    format!("{:?}", n.parse::<f64>().unwrap())
}

fn show(e: &Expr, mode: AngleMode) -> String {
    let v = value(e, mode);
    let s = format!("{v:.10}");
    s.trim_end_matches('0').trim_end_matches('.').to_string()
}

#[test]
fn new_calculator_is_empty() {
    let app = CalculatorApp::new();
    assert_eq!(app.expr, "");
    assert!(app.history.is_empty());
    assert_eq!(app.angle_mode, AngleMode::Deg);
    assert_eq!(app.error, None);
}

#[test]
fn typing_and_backspace() {
    let mut app = CalculatorApp::new();
    app.insert("sin(");
    app.insert("30");
    assert_eq!(app.expr, "sin(30");
    app.backspace();
    assert_eq!(app.expr, "sin(3");
    app.insert("가");
    app.backspace();
    assert_eq!(app.expr, "sin(3");
    app.clear();
    assert_eq!(app.expr, "");
    app.backspace();
    assert_eq!(app.expr, "");
}

#[test]
fn calculate_records_history() {
    let mut app = CalculatorApp::new();
    app.insert("1+2*3");
    app.calculate(show, debug);
    assert_eq!(app.expr, "7");
    assert_eq!(app.error, None);
    assert_eq!(app.history.len(), 1);
    assert_eq!(app.history[0].expr, "1+2*3");
    assert_eq!(app.history[0].result, "7");
    app.insert("^2");
    app.calculate(show, debug);
    assert_eq!(app.expr, "49");
    assert_eq!(app.history.len(), 2);
    assert_eq!(app.history[1].expr, "7^2");
}

#[test]
fn calculate_in_degrees() {
    let mut app = CalculatorApp::new();
    app.insert("sin(30)");
    app.calculate(show, debug);
    assert_eq!(app.expr, "0.5");
    app.set_angle_mode(AngleMode::Rad);
    app.clear();
    app.insert("cos(0)-1");
    app.calculate(show, debug);
    assert_eq!(app.expr, "0");
}

#[test]
fn calculate_hands_the_mode_to_the_renderer() {
    let mut app = CalculatorApp::new();
    app.set_angle_mode(AngleMode::Rad);
    assert_eq!(app.angle_mode, AngleMode::Rad);
    app.insert("2");
    app.calculate(|_, m| format!("{m:?}"), debug);
    assert_eq!(app.expr, "Rad");
    assert_eq!(app.history[0].result, "Rad");
}

#[test]
fn calculate_blank_does_nothing() {
    let mut app = CalculatorApp::new();
    app.insert(" \t ");
    app.calculate(|_, _| panic!("nothing to evaluate"), debug);
    assert_eq!(app.expr, " \t ");
    assert!(app.history.is_empty());
    assert_eq!(app.error, None);
}

#[test]
fn calculate_error_keeps_expression() {
    let mut app = CalculatorApp::new();
    app.insert("(1+2");
    app.calculate(show, debug);
    assert_eq!(app.expr, "(1+2");
    assert!(app.history.is_empty());
    assert_eq!(app.error, Some("닫는 괄호 없음".to_string()));
    app.insert(")");
    assert_eq!(app.error, None);
    app.calculate(show, debug);
    assert_eq!(app.expr, "3");
}

#[test]
fn bad_number_is_reported() {
    let mut app = CalculatorApp::new();
    app.insert("1.2.3");
    app.calculate(show, debug);
    assert_eq!(app.error, Some("잘못된 숫자: 1.2.3".to_string()));
}

#[test]
fn leftover_numbers_are_reported_as_values() {
    let mut app = CalculatorApp::new();
    app.insert("1 2");
    app.calculate(show, debug);
    assert_eq!(app.error, Some("남은 토큰: [Number(2.0)]".to_string()));
    assert_eq!(app.expr, "1 2");
    assert!(app.history.is_empty());
}

#[test]
fn press_dispatches_actions() {
    let mut app = CalculatorApp::new();
    for a in ["1", "2", "+", "3"] {
        app.press(a, show, debug);
    }
    assert_eq!(app.expr, "12+3");
    app.press("BS", show, debug);
    assert_eq!(app.expr, "12+");
    app.press("4", show, debug);
    app.press("=", show, debug);
    assert_eq!(app.expr, "16");
    app.press("AC", show, debug);
    assert_eq!(app.expr, "");
    assert_eq!(app.history.len(), 1);
}

#[test]
fn preview_follows_error_and_input() {
    let mut app = CalculatorApp::new();
    assert!(app.preview().is_none());
    app.insert("2*");
    assert!(app.preview().is_none());
    app.insert("3");
    assert!(app.preview().is_some());
    app.calculate(show, debug);
    app.insert("+");
    app.calculate(show, debug);
    assert!(app.error.is_some());
    assert!(app.preview().is_none());
}

#[test]
fn clear_history_keeps_expression() {
    let mut app = CalculatorApp::new();
    app.insert("2+2");
    app.calculate(show, debug);
    app.clear_history();
    assert!(app.history.is_empty());
    assert_eq!(app.expr, "4");
}

#[test]
fn keys() {
    let k = k2("÷", "/", KeyKind::Op);
    assert_eq!(k.label, "÷");
    assert_eq!(k.action, "/");
    assert_eq!(k.kind, KeyKind::Op);
    let k = d("7");
    assert_eq!(k.label, "7");
    assert_eq!(k.action, "7");
    assert_eq!(k.kind, KeyKind::Digit);
}

#[test]
fn keypad_layout() {
    let rows = keypad();
    let lens: Vec<usize> = rows.iter().map(|r| r.len()).collect();
    assert_eq!(lens, vec![6, 6, 6, 4, 4, 4, 4, 4]);
    assert_eq!(rows[0][0].label, "sin");
    assert_eq!(rows[0][0].action, "sin(");
    assert_eq!(rows[1][2].label, "√");
    assert_eq!(rows[1][2].action, "sqrt(");
    assert_eq!(rows[3][2].action, "BS");
    assert_eq!(rows[3][2].kind, KeyKind::Clear);
    assert_eq!(rows[7][2].action, "=");
    assert_eq!(rows[7][2].kind, KeyKind::Equals);
    assert_eq!(rows[4][0].action, "7");
    assert_eq!(rows[4][0].kind, KeyKind::Digit);
}

#[test]
fn key_colours() {
    assert_eq!(key_rgb(KeyKind::Digit), (52, 56, 66));
    assert_eq!(key_rgb(KeyKind::Op), (62, 66, 78));
    assert_eq!(key_rgb(KeyKind::Func), (45, 49, 58));
    assert_eq!(key_rgb(KeyKind::Paren), (58, 62, 74));
    assert_eq!(key_rgb(KeyKind::Clear), (120, 60, 60));
    assert_eq!(key_rgb(KeyKind::Equals), (40, 90, 200));
}

#[test]
fn whitespace_agrees_with_std() {
    for u in 0u32..0x3100 {
        if let Some(c) = char::from_u32(u) {
            assert_eq!(char_is_whitespace(c), c.is_whitespace(), "{u:#x}");
        }
    }
    assert!(!char_is_whitespace('가'));
}
