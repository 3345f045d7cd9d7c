//! Expression trees, and the names of constants and functions.

use vstd::prelude::*;
use crate::text::same_text;
use crate::token::decimal_literal;

verus! {

/// A binary operator.
#[derive(Debug, Clone, Copy, PartialEq, Eq, Structural)]
pub enum BinOp {
    Add,
    Sub,
    Mul,
    Div,
    Rem,
    Pow,
}

/// A named constant.
#[derive(Debug, Clone, Copy, PartialEq, Eq, Structural)]
pub enum Constant {
    Pi,
    E,
}

/// A function of one argument.
#[derive(Debug, Clone, Copy, PartialEq, Eq, Structural)]
pub enum Func {
    Sin,
    Cos,
    Tan,
    Ln,
    Log,
    Log2,
    Sqrt,
    Abs,
}

/// A parsed expression. A number keeps the decimal text it was written with.
#[derive(Debug, PartialEq)]
pub enum Expr {
    Num(String),
    Const(Constant),
    Neg(Box<Expr>),
    Binary(BinOp, Box<Expr>, Box<Expr>),
    Call(Func, Box<Expr>),
}

/// The mathematical model of an expression.
pub enum ExprV {
    Num(Seq<char>),
    Const(Constant),
    Neg(Box<ExprV>),
    Binary(BinOp, Box<ExprV>, Box<ExprV>),
    Call(Func, Box<ExprV>),
}

/// The model of an expression tree.
pub open spec fn expr_view(e: Expr) -> ExprV
    decreases e,
{
    match e {
        Expr::Num(s) => ExprV::Num(s@),
        Expr::Const(c) => ExprV::Const(c),
        Expr::Neg(x) => ExprV::Neg(Box::new(expr_view(*x))),
        Expr::Binary(op, a, b) => ExprV::Binary(
            op,
            Box::new(expr_view(*a)),
            Box::new(expr_view(*b)),
        ),
        Expr::Call(f, x) => ExprV::Call(f, Box::new(expr_view(*x))),
    }
}

impl View for Expr {
    type V = ExprV;

    open spec fn view(&self) -> ExprV {
        expr_view(*self)
    }
}

/// Every number of the expression is a decimal number.
pub open spec fn numbers_decimal(e: ExprV) -> bool
    decreases e,
{
    match e {
        ExprV::Num(lit) => decimal_literal(lit),
        ExprV::Const(_) => true,
        ExprV::Neg(x) => numbers_decimal(*x),
        ExprV::Binary(_, a, b) => numbers_decimal(*a) && numbers_decimal(*b),
        ExprV::Call(_, x) => numbers_decimal(*x),
    }
}

/// The name a function is called by.
pub open spec fn func_name(f: Func) -> Seq<char> {
    match f {
        Func::Sin => "sin"@,
        Func::Cos => "cos"@,
        Func::Tan => "tan"@,
        Func::Ln => "ln"@,
        Func::Log => "log"@,
        Func::Log2 => "log2"@,
        Func::Sqrt => "sqrt"@,
        Func::Abs => "abs"@,
    }
}

/// The function a name calls, if any.
pub open spec fn func_of(name: Seq<char>) -> Option<Func> {
    if name == "sin"@ {
        Some(Func::Sin)
    } else if name == "cos"@ {
        Some(Func::Cos)
    } else if name == "tan"@ {
        Some(Func::Tan)
    } else if name == "ln"@ {
        Some(Func::Ln)
    } else if name == "log"@ {
        Some(Func::Log)
    } else if name == "log2"@ {
        Some(Func::Log2)
    } else if name == "sqrt"@ {
        Some(Func::Sqrt)
    } else if name == "abs"@ {
        Some(Func::Abs)
    } else {
        None
    }
}

/// The name a constant is written with.
pub open spec fn constant_name(c: Constant) -> Seq<char> {
    match c {
        Constant::Pi => "pi"@,
        Constant::E => "e"@,
    }
}

/// The constant a name denotes, if any.
pub open spec fn constant_of(name: Seq<char>) -> Option<Constant> {
    if name == "pi"@ {
        Some(Constant::Pi)
    } else if name == "e"@ {
        Some(Constant::E)
    } else {
        None
    }
}

/// The operator character of a binary operator.
pub open spec fn op_char(op: BinOp) -> char {
    match op {
        BinOp::Add => '+',
        BinOp::Sub => '-',
        BinOp::Mul => '*',
        BinOp::Div => '/',
        BinOp::Rem => '%',
        BinOp::Pow => '^',
    }
}

/// The binary operator an operator character stands for (`^` for anything
/// that is no other operator).
pub open spec fn binop_of(c: char) -> BinOp {
    if c == '+' {
        BinOp::Add
    } else if c == '-' {
        BinOp::Sub
    } else if c == '*' {
        BinOp::Mul
    } else if c == '/' {
        BinOp::Div
    } else if c == '%' {
        BinOp::Rem
    } else {
        BinOp::Pow
    }
}

impl Func {
    /// The function called by `name`, if any.
    pub fn from_name(name: &str) -> (r: Option<Func>)
        ensures
            r == func_of(name@),
    {
        if same_text(name, "sin") {
            Some(Func::Sin)
        } else if same_text(name, "cos") {
            Some(Func::Cos)
        } else if same_text(name, "tan") {
            Some(Func::Tan)
        } else if same_text(name, "ln") {
            Some(Func::Ln)
        } else if same_text(name, "log") {
            Some(Func::Log)
        } else if same_text(name, "log2") {
            Some(Func::Log2)
        } else if same_text(name, "sqrt") {
            Some(Func::Sqrt)
        } else if same_text(name, "abs") {
            Some(Func::Abs)
        } else {
            None
        }
    }

    /// The name the function is called by.
    pub fn name(&self) -> (r: &'static str)
        ensures
            r@ == func_name(*self),
    {
        match self {
            Func::Sin => "sin",
            Func::Cos => "cos",
            Func::Tan => "tan",
            Func::Ln => "ln",
            Func::Log => "log",
            Func::Log2 => "log2",
            Func::Sqrt => "sqrt",
            Func::Abs => "abs",
        }
    }
}

impl Constant {
    /// The constant denoted by `name`, if any.
    pub fn from_name(name: &str) -> (r: Option<Constant>)
        ensures
            r == constant_of(name@),
    {
        if same_text(name, "pi") {
            Some(Constant::Pi)
        } else if same_text(name, "e") {
            Some(Constant::E)
        } else {
            None
        }
    }

    /// The name the constant is written with.
    pub fn name(&self) -> (r: &'static str)
        ensures
            r@ == constant_name(*self),
    {
        match self {
            Constant::Pi => "pi",
            Constant::E => "e",
        }
    }
}

/// The characters of the names, spelled out.
pub proof fn lemma_name_letters()
    ensures
        "sin"@ =~= seq!['s', 'i', 'n'],
        "cos"@ =~= seq!['c', 'o', 's'],
        "tan"@ =~= seq!['t', 'a', 'n'],
        "ln"@ =~= seq!['l', 'n'],
        "log"@ =~= seq!['l', 'o', 'g'],
        "log2"@ =~= seq!['l', 'o', 'g', '2'],
        "sqrt"@ =~= seq!['s', 'q', 'r', 't'],
        "abs"@ =~= seq!['a', 'b', 's'],
        "pi"@ =~= seq!['p', 'i'],
        "e"@ =~= seq!['e'],
{
    reveal_strlit("sin");
    reveal_strlit("cos");
    reveal_strlit("tan");
    reveal_strlit("ln");
    reveal_strlit("log");
    reveal_strlit("log2");
    reveal_strlit("sqrt");
    reveal_strlit("abs");
    reveal_strlit("pi");
    reveal_strlit("e");
}

/// Reading a function's name back gives the function; reading a constant's
/// name back gives the constant, and no constant's name calls a function.
pub proof fn law_names_read_back(f: Func, c: Constant)
    ensures
        func_of(func_name(f)) == Some(f),
        constant_of(constant_name(c)) == Some(c),
        func_of(constant_name(c)) is None,
        constant_of(func_name(f)) is None,
{
    lemma_name_letters();
    // The names are pairwise different: they differ in length, first or last letter.
    let names = seq!["sin"@, "cos"@, "tan"@, "ln"@, "log"@, "log2"@, "sqrt"@, "abs"@, "pi"@, "e"@];
    assert forall|i: int, j: int| 0 <= i < j < names.len() implies names[i] != names[j] by {
        if names[i] == names[j] {
            assert(names[i][0] == names[j][0]);
            assert(names[i].len() == names[j].len());
            assert(names[i][names[i].len() - 1] == names[j][names[j].len() - 1]);
        }
    }
}

/// Each function is called by its conventional name and by no other:
/// exactly `sin`, `cos`, `tan`, `ln` (natural logarithm), `log` (base 10),
/// `log2`, `sqrt` and `abs`; exactly `pi` and `e` denote the constants.
pub proof fn law_conventional_names(n: Seq<char>)
    ensures
        func_of(n) == Some(Func::Sin) <==> n == seq!['s', 'i', 'n'],
        func_of(n) == Some(Func::Cos) <==> n == seq!['c', 'o', 's'],
        func_of(n) == Some(Func::Tan) <==> n == seq!['t', 'a', 'n'],
        func_of(n) == Some(Func::Ln) <==> n == seq!['l', 'n'],
        func_of(n) == Some(Func::Log) <==> n == seq!['l', 'o', 'g'],
        func_of(n) == Some(Func::Log2) <==> n == seq!['l', 'o', 'g', '2'],
        func_of(n) == Some(Func::Sqrt) <==> n == seq!['s', 'q', 'r', 't'],
        func_of(n) == Some(Func::Abs) <==> n == seq!['a', 'b', 's'],
        constant_of(n) == Some(Constant::Pi) <==> n == seq!['p', 'i'],
        constant_of(n) == Some(Constant::E) <==> n == seq!['e'],
        func_name(Func::Ln) == seq!['l', 'n'],
        func_name(Func::Log) == seq!['l', 'o', 'g'],
        func_name(Func::Log2) == seq!['l', 'o', 'g', '2'],
        func_name(Func::Sin) == seq!['s', 'i', 'n'],
        func_name(Func::Cos) == seq!['c', 'o', 's'],
        func_name(Func::Tan) == seq!['t', 'a', 'n'],
        func_name(Func::Sqrt) == seq!['s', 'q', 'r', 't'],
        func_name(Func::Abs) == seq!['a', 'b', 's'],
        constant_name(Constant::Pi) == seq!['p', 'i'],
        constant_name(Constant::E) == seq!['e'],
{
    law_names_read_back(Func::Sin, Constant::Pi);
    lemma_name_letters();
    assert("log2"@.len() == 4);
    assert("log2"@ != "sin"@ && "log2"@ != "cos"@ && "log2"@ != "tan"@);
    assert("log2"@ != "ln"@ && "log2"@ != "log"@);
}

} // verus!
