//! The state of the calculator front end and what its keys do to it.

use vstd::prelude::*;
use crate::eval::{expr_result_view, AngleMode, Eval};
use crate::expr::Expr;
use crate::error::{listed_tokens, message_text, numbers_shown, CalcError};
use crate::grammar::read_text;
use crate::text::{all_white_space, is_blank, pop_char, same_text};

verus! {

/// One line of the history: what was typed and what it came to.
pub struct HistoryEntry {
    pub expr: String,
    pub result: String,
}

/// The calculator: the expression being typed, the history of results,
/// the angle mode and the message of the last error.
pub struct CalculatorApp {
    pub expr: String,
    pub history: Vec<HistoryEntry>,
    pub angle_mode: AngleMode,
    pub error: Option<String>,
}

/// The model of the calculator.
pub struct CalcState {
    pub expr: Seq<char>,
    pub history: Seq<(Seq<char>, Seq<char>)>,
    pub angle_mode: AngleMode,
    pub error: Option<Seq<char>>,
}

/// The model of a history line: (expression, result).
pub open spec fn entry_view(h: HistoryEntry) -> (Seq<char>, Seq<char>) {
    (h.expr@, h.result@)
}

/// The model of the history.
pub open spec fn history_view(h: Seq<HistoryEntry>) -> Seq<(Seq<char>, Seq<char>)> {
    h.map_values(|e: HistoryEntry| entry_view(e))
}

/// The model of an optional message.
pub open spec fn message_view(m: Option<String>) -> Option<Seq<char>> {
    match m {
        Some(s) => Some(s@),
        None => None,
    }
}

impl View for CalculatorApp {
    type V = CalcState;

    open spec fn view(&self) -> CalcState {
        CalcState {
            expr: self.expr@,
            history: history_view(self.history@),
            angle_mode: self.angle_mode,
            error: message_view(self.error),
        }
    }
}

/// A fresh calculator: nothing typed, no history, degrees, no error.
pub open spec fn initial_state() -> CalcState {
    CalcState { expr: seq![], history: seq![], angle_mode: AngleMode::Deg, error: None }
}

/// Typing `token`: it is appended to the expression and the error is cleared.
pub open spec fn after_insert(st: CalcState, token: Seq<char>) -> CalcState {
    CalcState { expr: st.expr + token, history: st.history, angle_mode: st.angle_mode, error: None }
}

/// Backspace: the last character goes, if there is one; the error is cleared.
pub open spec fn after_backspace(st: CalcState) -> CalcState {
    CalcState {
        expr: if st.expr.len() == 0 {
            st.expr
        } else {
            st.expr.drop_last()
        },
        history: st.history,
        angle_mode: st.angle_mode,
        error: None,
    }
}

/// Clearing: the expression is emptied and the error is cleared.
pub open spec fn after_clear(st: CalcState) -> CalcState {
    CalcState { expr: seq![], history: st.history, angle_mode: st.angle_mode, error: None }
}

/// Calculating, where `shown` is the text the value of the expression is
/// shown as and `message` the message of the error it cannot be read for: a
/// blank expression changes nothing; one that cannot be read keeps
/// everything but shows the message; one that can be read goes to the
/// history with its result, and the result becomes the expression.
pub open spec fn after_calculate(st: CalcState, shown: Seq<char>, message: Seq<char>) -> CalcState {
    if all_white_space(st.expr) {
        st
    } else {
        match read_text(st.expr) {
            Err(_) => CalcState {
                expr: st.expr,
                history: st.history,
                angle_mode: st.angle_mode,
                error: Some(message),
            },
            Ok(_) => CalcState {
                expr: shown,
                history: st.history.push((st.expr, shown)),
                angle_mode: st.angle_mode,
                error: None,
            },
        }
    }
}

/// Calculating needs the value of the expression: it is read and shown.
pub open spec fn calculation_shows(st: CalcState) -> bool {
    !all_white_space(st.expr) && read_text(st.expr) is Ok
}

/// What a `render` function returns for `x` in mode `mode`, and the state
/// after calculating from `old` is the one that shows it.
pub open spec fn rendered_into<F: Fn(&Expr, AngleMode) -> String>(
    render: F,
    old: CalcState,
    new: CalcState,
) -> bool {
    exists|x: Expr, shown: String|
        {
            &&& x@ == read_text(old.expr)->Ok_0
            &&& call_ensures(render, (&x, old.angle_mode), shown)
            &&& new == after_calculate(old, shown@, seq![])
        }
}

/// The error the expression of `old` cannot be read for, with its message
/// (numbers in it written as `number` may give them), and the state after
/// calculating from `old` is the one that shows that message.
pub open spec fn reported<N: Fn(&String) -> String>(
    number: N,
    old: CalcState,
    new: CalcState,
) -> bool {
    exists|err: CalcError, numbers: Seq<Seq<char>>|
        {
            &&& err@ == read_text(old.expr)->Err_0
            &&& numbers_shown(number, listed_tokens(err), numbers)
            &&& new == after_calculate(old, seq![], message_text(err@, numbers))
        }
}

/// The state after a calculation, whatever the value or the message came to.
pub open spec fn calculated<F: Fn(&Expr, AngleMode) -> String, N: Fn(&String) -> String>(
    render: F,
    number: N,
    old: CalcState,
    new: CalcState,
) -> bool {
    if all_white_space(old.expr) {
        new == old
    } else if read_text(old.expr) is Ok {
        rendered_into(render, old, new)
    } else {
        reported(number, old, new)
    }
}

/// A key's action as a command: `BS` is backspace, `AC` clears, `=`
/// calculates, anything else is typed.
pub enum Command {
    Backspace,
    Clear,
    Calculate,
    Type,
}

/// The command of a key action.
pub open spec fn command_of(action: Seq<char>) -> Command {
    if action == "BS"@ {
        Command::Backspace
    } else if action == "AC"@ {
        Command::Clear
    } else if action == "="@ {
        Command::Calculate
    } else {
        Command::Type
    }
}

/// The kind of a key, which decides how it looks.
#[derive(Debug, Clone, Copy, PartialEq, Eq, Structural)]
pub enum KeyKind {
    Digit,
    Op,
    Func,
    Paren,
    Clear,
    Equals,
}

/// A key of the keypad: its label, the action it performs and its kind.
#[derive(Debug, Clone, Copy)]
pub struct Key {
    pub label: &'static str,
    pub action: &'static str,
    pub kind: KeyKind,
}

/// A key with a label, an action and a kind.
pub fn k2(label: &'static str, action: &'static str, kind: KeyKind) -> (k: Key)
    ensures
        k.label == label,
        k.action == action,
        k.kind == kind,
{
    Key { label, action, kind }
}

/// A digit key: it types its own label.
pub fn d(x: &'static str) -> (k: Key)
    ensures
        k.label == x,
        k.action == x,
        k.kind == KeyKind::Digit,
{
    Key { label: x, action: x, kind: KeyKind::Digit }
}

/// The colour of a key of a kind, as red, green and blue.
pub fn key_rgb(kind: KeyKind) -> (r: (u8, u8, u8))
    ensures
        r == match kind {
            KeyKind::Digit => (52u8, 56u8, 66u8),
            KeyKind::Op => (62u8, 66u8, 78u8),
            KeyKind::Func => (45u8, 49u8, 58u8),
            KeyKind::Paren => (58u8, 62u8, 74u8),
            KeyKind::Clear => (120u8, 60u8, 60u8),
            KeyKind::Equals => (40u8, 90u8, 200u8),
        },
{
    match kind {
        KeyKind::Digit => (52, 56, 66),
        KeyKind::Op => (62, 66, 78),
        KeyKind::Func => (45, 49, 58),
        KeyKind::Paren => (58, 62, 74),
        KeyKind::Clear => (120, 60, 60),
        KeyKind::Equals => (40, 90, 200),
    }
}

/// The model of a key: (label, action, kind).
pub open spec fn key_view(k: Key) -> (Seq<char>, Seq<char>, KeyKind) {
    (k.label@, k.action@, k.kind)
}

/// A key of the keypad table.
pub open spec fn key_entry(label: &str, action: &str, kind: KeyKind) -> (Seq<char>, Seq<char>, KeyKind) {
    (label@, action@, kind)
}

/// A digit key of the keypad table.
pub open spec fn digit_entry(x: &str) -> (Seq<char>, Seq<char>, KeyKind) {
    (x@, x@, KeyKind::Digit)
}

/// The keypad, row by row.
pub open spec fn keypad_layout() -> Seq<Seq<(Seq<char>, Seq<char>, KeyKind)>> {
    seq![
        seq![
            key_entry("sin", "sin(", KeyKind::Func),
            key_entry("cos", "cos(", KeyKind::Func),
            key_entry("tan", "tan(", KeyKind::Func),
            key_entry("asin", "asin(", KeyKind::Func),
            key_entry("acos", "acos(", KeyKind::Func),
            key_entry("atan", "atan(", KeyKind::Func),
        ],
        seq![
            key_entry("ln", "ln(", KeyKind::Func),
            key_entry("log", "log(", KeyKind::Func),
            key_entry("√", "sqrt(", KeyKind::Func),
            key_entry("x^y", "^", KeyKind::Func),
            key_entry("x²", "^(2)", KeyKind::Func),
            key_entry("e^x", "exp(", KeyKind::Func),
        ],
        seq![
            key_entry("π", "pi", KeyKind::Func),
            key_entry("e", "e", KeyKind::Func),
            key_entry("|x|", "abs(", KeyKind::Func),
            key_entry("!", "!", KeyKind::Func),
            key_entry("%", "%", KeyKind::Func),
            key_entry("mod", " mod ", KeyKind::Func),
        ],
        seq![
            key_entry("(", "(", KeyKind::Paren),
            key_entry(")", ")", KeyKind::Paren),
            key_entry("⌫", "BS", KeyKind::Clear),
            key_entry("AC", "AC", KeyKind::Clear),
        ],
        seq![digit_entry("7"), digit_entry("8"), digit_entry("9"), key_entry("÷", "/", KeyKind::Op)],
        seq![digit_entry("4"), digit_entry("5"), digit_entry("6"), key_entry("×", "*", KeyKind::Op)],
        seq![digit_entry("1"), digit_entry("2"), digit_entry("3"), key_entry("−", "-", KeyKind::Op)],
        seq![
            digit_entry("0"),
            key_entry(".", ".", KeyKind::Digit),
            key_entry("=", "=", KeyKind::Equals),
            key_entry("+", "+", KeyKind::Op),
        ],
    ]
}

/// The models of a row of keys.
pub open spec fn row_view(row: Vec<Key>) -> Seq<(Seq<char>, Seq<char>, KeyKind)> {
    row@.map_values(|k: Key| key_view(k))
}

/// The keys of the keypad, row by row.
pub fn keypad() -> (rows: Vec<Vec<Key>>)
    ensures
        rows@.map_values(|row: Vec<Key>| row_view(row)) == keypad_layout(),
{
    let rows = vec![
        vec![
            k2("sin", "sin(", KeyKind::Func),
            k2("cos", "cos(", KeyKind::Func),
            k2("tan", "tan(", KeyKind::Func),
            k2("asin", "asin(", KeyKind::Func),
            k2("acos", "acos(", KeyKind::Func),
            k2("atan", "atan(", KeyKind::Func),
        ],
        vec![
            k2("ln", "ln(", KeyKind::Func),
            k2("log", "log(", KeyKind::Func),
            k2("√", "sqrt(", KeyKind::Func),
            k2("x^y", "^", KeyKind::Func),
            k2("x²", "^(2)", KeyKind::Func),
            k2("e^x", "exp(", KeyKind::Func),
        ],
        vec![
            k2("π", "pi", KeyKind::Func),
            k2("e", "e", KeyKind::Func),
            k2("|x|", "abs(", KeyKind::Func),
            k2("!", "!", KeyKind::Func),
            k2("%", "%", KeyKind::Func),
            k2("mod", " mod ", KeyKind::Func),
        ],
        vec![
            k2("(", "(", KeyKind::Paren),
            k2(")", ")", KeyKind::Paren),
            k2("⌫", "BS", KeyKind::Clear),
            k2("AC", "AC", KeyKind::Clear),
        ],
        vec![d("7"), d("8"), d("9"), k2("÷", "/", KeyKind::Op)],
        vec![d("4"), d("5"), d("6"), k2("×", "*", KeyKind::Op)],
        vec![d("1"), d("2"), d("3"), k2("−", "-", KeyKind::Op)],
        vec![d("0"), k2(".", ".", KeyKind::Digit), k2("=", "=", KeyKind::Equals), k2("+", "+", KeyKind::Op)],
    ];
    assert(rows@.map_values(|row: Vec<Key>| row_view(row)) =~= keypad_layout()) by {
        assert forall|i: int| 0 <= i < 8 implies row_view(rows@[i]) =~= keypad_layout()[i] by {
        }
    }
    rows
}

impl CalculatorApp {
    /// Chooses the angle mode.
    pub fn set_angle_mode(&mut self, mode: AngleMode)
        ensures
            final(self)@ == (CalcState { angle_mode: mode, ..old(self)@ }),
    {
        self.angle_mode = mode;
    }

    /// A fresh calculator.
    pub fn new() -> (r: Self)
        ensures
            r@ == initial_state(),
    {
        let r = CalculatorApp {
            expr: String::new(),
            history: Vec::new(),
            angle_mode: AngleMode::Deg,
            error: None,
        };
        assert(history_view(r.history@) =~= seq![]);
        r
    }

    /// Types `token` at the end of the expression.
    pub fn insert(&mut self, token: &str)
        ensures
            final(self)@ == after_insert(old(self)@, token@),
    {
        self.expr.append(token);
        self.error = None;
    }

    /// Removes the last character of the expression.
    pub fn backspace(&mut self)
        ensures
            final(self)@ == after_backspace(old(self)@),
    {
        let _ = pop_char(&mut self.expr);
        self.error = None;
    }

    /// Empties the expression.
    pub fn clear(&mut self)
        ensures
            final(self)@ == after_clear(old(self)@),
    {
        self.expr = String::new();
        self.error = None;
    }

    /// Empties the history.
    pub fn clear_history(&mut self)
        ensures
            final(self)@ == (CalcState { history: seq![], ..old(self)@ }),
    {
        self.history = Vec::new();
        assert(history_view(self.history@) =~= seq![]);
    }

    /// Calculates the expression. Its value is shown as `render` gives it,
    /// for the expression read and the current angle mode; the value of a
    /// number listed in an error message is written as `number` gives it.
    pub fn calculate<F: Fn(&Expr, AngleMode) -> String, N: Fn(&String) -> String>(
        &mut self,
        render: F,
        number: N,
    )
        requires
            forall|x: &Expr, m: AngleMode| call_requires(render, (x, m)),
            forall|n: &String| call_requires(number, (n,)),
        ensures
            calculated(render, number, old(self)@, final(self)@),
    {
        if is_blank(self.expr.as_str()) {
            return;
        }
        let ev = Eval { deg: self.angle_mode };
        match ev.parse_expr(self.expr.as_str()) {
            Ok(x) => {
                let shown = render(&x, self.angle_mode);
                let ghost old_st = self@;
                let typed = self.expr.clone();
                self.history.push(HistoryEntry { expr: typed, result: shown.clone() });
                self.expr = shown;
                self.error = None;
                proof {
                    assert(history_view(self.history@) =~= old_st.history.push(
                        (old_st.expr, self.expr@),
                    ));
                    assert(self@ == after_calculate(old_st, self.expr@, seq![]));
                }
            },
            Err(e) => {
                let ghost old_st = self@;
                let msg = e.message(number);
                self.error = Some(msg);
                proof {
                    let numbers = choose|sh: Seq<Seq<char>>|
                        numbers_shown(number, listed_tokens(e), sh) && msg@ == message_text(
                            e@,
                            sh,
                        );
                    assert(self@ == after_calculate(old_st, seq![], message_text(e@, numbers)));
                }
            },
        }
    }

    /// What pressing a key with `action` does.
    pub fn press<F: Fn(&Expr, AngleMode) -> String, N: Fn(&String) -> String>(
        &mut self,
        action: &str,
        render: F,
        number: N,
    )
        requires
            forall|x: &Expr, m: AngleMode| call_requires(render, (x, m)),
            forall|n: &String| call_requires(number, (n,)),
        ensures
            match command_of(action@) {
                Command::Backspace => final(self)@ == after_backspace(old(self)@),
                Command::Clear => final(self)@ == after_clear(old(self)@),
                Command::Calculate => calculated(render, number, old(self)@, final(self)@),
                Command::Type => final(self)@ == after_insert(old(self)@, action@),
            },
    {
        if same_text(action, "BS") {
            self.backspace();
        } else if same_text(action, "AC") {
            self.clear();
        } else if same_text(action, "=") {
            self.calculate(render, number);
        } else {
            self.insert(action);
        }
    }

    /// The expression to preview while typing: there is none while an error
    /// is shown, when nothing but white space is typed, or when the text
    /// cannot be read.
    pub fn preview(&self) -> (r: Option<Expr>)
        ensures
            r is Some <==> (self.error is None && calculation_shows(self@)),
            r matches Some(x) ==> x@ == read_text(self.expr@)->Ok_0,
    {
        if self.error.is_some() || is_blank(self.expr.as_str()) {
            return None;
        }
        let ev = Eval { deg: self.angle_mode };
        match ev.parse_expr(self.expr.as_str()) {
            Ok(x) => Some(x),
            Err(_) => None,
        }
    }
}

/// Backspace takes back the last character typed: after typing a non-empty
/// `token`, backspace leaves what typing `token` without its last character
/// leaves.
pub proof fn law_backspace_takes_back_typing(st: CalcState, token: Seq<char>)
    requires
        token.len() > 0,
    ensures
        after_backspace(after_insert(st, token)) == after_insert(st, token.drop_last()),
{
    assert((st.expr + token).drop_last() =~= st.expr + token.drop_last());
}

/// Typing two pieces one after the other is typing them joined; clearing
/// empties the expression and undoes any typing; backspace on an empty
/// expression leaves it empty.
pub proof fn law_typing_and_clearing(st: CalcState, a: Seq<char>, b: Seq<char>)
    ensures
        after_insert(after_insert(st, a), b) == after_insert(st, a + b),
        after_insert(st, a).expr.len() == st.expr.len() + a.len(),
        after_insert(st, a).expr.subrange(0, st.expr.len() as int) == st.expr,
        after_clear(st).expr.len() == 0,
        after_clear(after_insert(st, a)) == after_clear(st),
        st.expr.len() == 0 ==> after_backspace(st).expr.len() == 0,
        st.expr.len() > 0 ==> after_backspace(st).expr.len() == st.expr.len() - 1,
        st.expr.len() > 0 ==> after_backspace(st).expr == st.expr.subrange(
            0,
            st.expr.len() - 1,
        ),
{
    assert(st.expr + a + b =~= st.expr + (a + b));
    assert((st.expr + a).subrange(0, st.expr.len() as int) =~= st.expr);
    assert(st.expr.drop_last() =~= st.expr.subrange(0, st.expr.len() - 1));
}

/// Editing (typing, backspace, clearing) never touches the history or the
/// angle mode, and always clears the error.
pub proof fn law_editing_keeps_history(st: CalcState, token: Seq<char>)
    ensures
        after_insert(st, token).history == st.history,
        after_backspace(st).history == st.history,
        after_clear(st).history == st.history,
        after_insert(st, token).angle_mode == st.angle_mode,
        after_backspace(st).angle_mode == st.angle_mode,
        after_clear(st).angle_mode == st.angle_mode,
        after_insert(st, token).error is None,
        after_backspace(st).error is None,
        after_clear(st).error is None,
{
}

/// A calculation never loses history: the old lines stay, in order, and at
/// most one line is added.
pub proof fn law_history_only_grows(st: CalcState, shown: Seq<char>, message: Seq<char>)
    ensures
        st.history.len() <= after_calculate(st, shown, message).history.len() <= st.history.len()
            + 1,
        after_calculate(st, shown, message).history.take(st.history.len() as int) == st.history,
        after_calculate(st, shown, message).angle_mode == st.angle_mode,
{
    assert(st.history.push((st.expr, shown)).take(st.history.len() as int) =~= st.history);
    assert(st.history.take(st.history.len() as int) =~= st.history);
}

/// A successful calculation records what was typed together with its
/// result, and the result becomes the expression to go on with.
pub proof fn law_result_is_recorded_and_kept(st: CalcState, shown: Seq<char>, message: Seq<char>)
    requires
        calculation_shows(st),
    ensures
        after_calculate(st, shown, message).history.last() == (st.expr, shown),
        after_calculate(st, shown, message).expr == shown,
        after_calculate(st, shown, message).error is None,
{
}

/// A calculation that fails keeps the expression and the history and shows
/// the message of the error.
pub proof fn law_failure_only_reports(st: CalcState, shown: Seq<char>, message: Seq<char>)
    requires
        !all_white_space(st.expr),
        read_text(st.expr) is Err,
    ensures
        after_calculate(st, shown, message).expr == st.expr,
        after_calculate(st, shown, message).history == st.history,
        after_calculate(st, shown, message).error == Some(message),
{
}

/// Calculating with nothing but white space typed changes nothing; in
/// particular calculating right after clearing does nothing.
pub proof fn law_blank_calculation_does_nothing(st: CalcState, shown: Seq<char>, message: Seq<char>)
    ensures
        all_white_space(st.expr) ==> after_calculate(st, shown, message) == st,
        after_calculate(after_clear(st), shown, message) == after_clear(st),
{
}

/// Only `BS` backspaces, only `AC` clears and only `=` calculates; every
/// other action is typed as it is.
pub proof fn law_key_commands(a: Seq<char>)
    ensures
        command_of(a) is Backspace <==> a == seq!['B', 'S'],
        command_of(a) is Clear <==> a == seq!['A', 'C'],
        command_of(a) is Calculate <==> a == seq!['='],
        command_of(a) is Type <==> (a != seq!['B', 'S'] && a != seq!['A', 'C'] && a != seq![
            '=',
        ]),
{
    reveal_strlit("BS");
    reveal_strlit("AC");
    reveal_strlit("=");
    assert("BS"@ =~= seq!['B', 'S']);
    assert("AC"@ =~= seq!['A', 'C']);
    assert("="@ =~= seq!['=']);
    assert(seq!['B', 'S'][0] != seq!['A', 'C'][0]);
}

/// What a keypad key's label shows in a sign, written as the character the
/// expression uses: `÷` is `/`, `×` is `*`, `−` is `-`; other labels stand
/// for themselves.
pub open spec fn sign_text(label: Seq<char>) -> Seq<char> {
    if label == seq!['÷'] {
        seq!['/']
    } else if label == seq!['×'] {
        seq!['*']
    } else if label == seq!['−'] {
        seq!['-']
    } else {
        label
    }
}

/// What a function key's label stands for, as typed: a function named in
/// letters is typed with its opening parenthesis (`sin` types `sin(`), and
/// the symbolic labels stand for `sqrt(` (`√`), `abs(` (`|x|`), `exp(`
/// (`e^x`), a power (`x^y` types `^`, `x²` types `^(2)`), `pi` (`π`) and
/// ` mod ` (`mod`); `e`, `!` and `%` stand for themselves.
pub open spec fn function_key_text(label: Seq<char>) -> Seq<char> {
    if label == seq!['√'] {
        seq!['s', 'q', 'r', 't', '(']
    } else if label == seq!['|', 'x', '|'] {
        seq!['a', 'b', 's', '(']
    } else if label == seq!['e', '^', 'x'] {
        seq!['e', 'x', 'p', '(']
    } else if label == seq!['x', '^', 'y'] {
        seq!['^']
    } else if label == seq!['x', '²'] {
        seq!['^', '(', '2', ')']
    } else if label == seq!['π'] {
        seq!['p', 'i']
    } else if label == seq!['m', 'o', 'd'] {
        seq![' ', 'm', 'o', 'd', ' ']
    } else if label == seq!['e'] || label == seq!['!'] || label == seq!['%'] {
        label
    } else {
        label + seq!['(']
    }
}

proof fn lemma_sign_text(l: Seq<char>)
    ensures
        sign_text(l) == (if l.len() == 1 && l[0] == '÷' {
            seq!['/']
        } else if l.len() == 1 && l[0] == '×' {
            seq!['*']
        } else if l.len() == 1 && l[0] == '−' {
            seq!['-']
        } else {
            l
        }),
{
    if l.len() == 1 {
        assert(l =~= seq![l[0]]);
    }
}

proof fn lemma_command_chars(a: Seq<char>)
    ensures
        (a == seq!['B', 'S']) <==> (a.len() == 2 && a[0] == 'B' && a[1] == 'S'),
        (a == seq!['A', 'C']) <==> (a.len() == 2 && a[0] == 'A' && a[1] == 'C'),
        (a == seq!['=']) <==> (a.len() == 1 && a[0] == '='),
{
    if a.len() == 2 {
        assert(a =~= seq![a[0], a[1]]);
    }
    if a.len() == 1 {
        assert(a =~= seq![a[0]]);
    }
}

proof fn lemma_function_key_text(l: Seq<char>)
    ensures
        l.len() == 1 ==> l =~= seq![l[0]],
        l.len() == 2 ==> l =~= seq![l[0], l[1]],
        l.len() == 3 ==> l =~= seq![l[0], l[1], l[2]],
{
}

/// Every digit, operator, parenthesis and `=` key types what its label
/// shows, and every function key what its label stands for; the `⌫` key
/// backspaces and the `AC` key clears; every other key types its action, so
/// that only `=` calculates.
pub proof fn law_keys_do_what_they_show()
    ensures
        forall|i: int, j: int|
            0 <= i < keypad_layout().len() && 0 <= j < keypad_layout()[i].len() ==> {
                let (label, action, kind) = #[trigger] keypad_layout()[i][j];
                &&& (kind == KeyKind::Digit || kind == KeyKind::Op || kind == KeyKind::Paren
                    || kind == KeyKind::Equals) ==> action == sign_text(label)
                &&& kind == KeyKind::Equals <==> command_of(action) is Calculate
                &&& kind == KeyKind::Clear ==> (label == seq!['⌫'] && command_of(action) is Backspace)
                    || (label == seq!['A', 'C'] && command_of(action) is Clear)
                &&& (kind != KeyKind::Clear && kind != KeyKind::Equals) ==> command_of(action) is Type
                &&& kind == KeyKind::Func ==> action == function_key_text(label)
            },
{
    reveal_strlit("sin");
    reveal_strlit("sin(");
    reveal_strlit("cos");
    reveal_strlit("cos(");
    reveal_strlit("tan");
    reveal_strlit("tan(");
    reveal_strlit("asin");
    reveal_strlit("asin(");
    reveal_strlit("acos");
    reveal_strlit("acos(");
    reveal_strlit("atan");
    reveal_strlit("atan(");
    reveal_strlit("ln");
    reveal_strlit("ln(");
    reveal_strlit("log");
    reveal_strlit("log(");
    reveal_strlit("√");
    reveal_strlit("sqrt(");
    reveal_strlit("x^y");
    reveal_strlit("^");
    reveal_strlit("x²");
    reveal_strlit("^(2)");
    reveal_strlit("e^x");
    reveal_strlit("exp(");
    reveal_strlit("π");
    reveal_strlit("pi");
    reveal_strlit("e");
    reveal_strlit("|x|");
    reveal_strlit("abs(");
    reveal_strlit("!");
    reveal_strlit("%");
    reveal_strlit("mod");
    reveal_strlit(" mod ");
    reveal_strlit("(");
    reveal_strlit(")");
    reveal_strlit("⌫");
    reveal_strlit("BS");
    reveal_strlit("AC");
    reveal_strlit("7");
    reveal_strlit("8");
    reveal_strlit("9");
    reveal_strlit("÷");
    reveal_strlit("/");
    reveal_strlit("4");
    reveal_strlit("5");
    reveal_strlit("6");
    reveal_strlit("×");
    reveal_strlit("*");
    reveal_strlit("1");
    reveal_strlit("2");
    reveal_strlit("3");
    reveal_strlit("−");
    reveal_strlit("-");
    reveal_strlit("0");
    reveal_strlit(".");
    reveal_strlit("=");
    reveal_strlit("+");
    let rows = keypad_layout();
    assert forall|i: int, j: int|
        0 <= i < rows.len() && 0 <= j < rows[i].len() implies {
            let (label, action, kind) = #[trigger] rows[i][j];
            &&& (kind == KeyKind::Digit || kind == KeyKind::Op || kind == KeyKind::Paren || kind
                == KeyKind::Equals) ==> action == sign_text(label)
            &&& kind == KeyKind::Equals <==> command_of(action) is Calculate
            &&& kind == KeyKind::Clear ==> (label == seq!['⌫'] && command_of(action) is Backspace)
                || (label == seq!['A', 'C'] && command_of(action) is Clear)
            &&& (kind != KeyKind::Clear && kind != KeyKind::Equals) ==> command_of(action) is Type
            &&& kind == KeyKind::Func ==> action == function_key_text(label)
        } by {
        law_key_commands(rows[i][j].1);
        lemma_command_chars(rows[i][j].1);
        lemma_sign_text(rows[i][j].0);
        lemma_command_chars(rows[i][j].0);
        lemma_function_key_text(rows[i][j].0);
    }
}

} // verus!
