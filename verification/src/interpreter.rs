//! Evaluation: a tree walk over the program against a flat variable
//! environment and a function table, with text output and plot artifacts
//! accumulated along the way. A user call and each loop turn spend one unit
//! of a step budget, so evaluation is total; the budget the facade grants is
//! beyond any reachable run.
use vstd::prelude::*;
use crate::num::{Num, SCALE, iabs, sum_ok, prod_ok, prod_val, quot_ok, quot_val};
use crate::ast::{BinOp, Expr, Stmt, Program, ExprV, StmtV, expr_view, exprs_view, stmt_view,
    stmts_view, strings_view, program_view, lemma_exprs_view, lemma_stmts_view, clone_strings,
    clone_stmts};
use crate::text::{num_text, dec_seq, push_char, push_dec};
use crate::math::{sin_fx, cos_fx, exp_fx, ln_fx, sqrt_floor, sqrt_ok};
use crate::PlotData;

verus! {

/// A runtime value.
pub enum Value {
    Num(Num),
    Str(String),
    Bool(bool),
    Func { params: Vec<String>, body: Vec<Stmt> },
    Empty,
}

/// Mathematical image of a runtime value.
pub enum ValueV {
    Num(int),
    Str(Seq<char>),
    Bool(bool),
    Func { params: Seq<Seq<char>>, body: Seq<StmtV> },
    Empty,
}

pub open spec fn value_view(v: Value) -> ValueV {
    match v {
        Value::Num(n) => ValueV::Num(n@),
        Value::Str(s) => ValueV::Str(s@),
        Value::Bool(b) => ValueV::Bool(b),
        Value::Func { params, body } => ValueV::Func {
            params: strings_view(params@),
            body: stmts_view(body@),
        },
        Value::Empty => ValueV::Empty,
    }
}

impl Clone for Value {
    /// A deep copy with the same image.
    fn clone(&self) -> (r: Value)
        ensures
            value_view(r) == value_view(*self),
    {
        match self {
            Value::Num(n) => Value::Num(*n),
            Value::Str(s) => Value::Str(s.clone()),
            Value::Bool(b) => Value::Bool(*b),
            Value::Func { params, body } => Value::Func {
                params: clone_strings(params),
                body: clone_stmts(body),
            },
            Value::Empty => Value::Empty,
        }
    }
}

/// A declared function: its parameter names and body.
pub struct FuncDef {
    pub params: Vec<String>,
    pub body: Vec<Stmt>,
}

/// Mathematical image of a declared function.
pub struct FuncV {
    pub params: Seq<Seq<char>>,
    pub body: Seq<StmtV>,
}

pub open spec fn func_view(f: FuncDef) -> FuncV {
    FuncV { params: strings_view(f.params@), body: stmts_view(f.body@) }
}

/// The name of a one-argument numeric built-in.
#[derive(Clone, Copy, PartialEq, Eq, Structural)]
pub enum MathFn {
    Sin,
    Cos,
    Exp,
    Log,
    Sqrt,
}

/// A runtime fault; each carries what its message needs.
pub enum RunError {
    VarNotFound(String),
    DivByZero,
    UnsupportedOp,
    CondNotBool,
    Overflow,
    StepLimit,
    PlotArgs,
    PlotName,
    PlotFrom,
    PlotTo,
    FuncNotFound(String),
    PlotParamCount(usize),
    ArityMismatch(String, usize, usize),
    MathArity(MathFn),
    MathArgNum(MathFn),
    LogDomain,
    SqrtDomain,
}

/// Mathematical image of a runtime fault.
pub enum ErrV {
    VarNotFound(Seq<char>),
    DivByZero,
    UnsupportedOp,
    CondNotBool,
    Overflow,
    StepLimit,
    PlotArgs,
    PlotName,
    PlotFrom,
    PlotTo,
    FuncNotFound(Seq<char>),
    PlotParamCount(nat),
    ArityMismatch(Seq<char>, nat, nat),
    MathArity(MathFn),
    MathArgNum(MathFn),
    LogDomain,
    SqrtDomain,
}

impl View for RunError {
    type V = ErrV;

    open spec fn view(&self) -> ErrV {
        match self {
            RunError::VarNotFound(n) => ErrV::VarNotFound(n@),
            RunError::DivByZero => ErrV::DivByZero,
            RunError::UnsupportedOp => ErrV::UnsupportedOp,
            RunError::CondNotBool => ErrV::CondNotBool,
            RunError::Overflow => ErrV::Overflow,
            RunError::StepLimit => ErrV::StepLimit,
            RunError::PlotArgs => ErrV::PlotArgs,
            RunError::PlotName => ErrV::PlotName,
            RunError::PlotFrom => ErrV::PlotFrom,
            RunError::PlotTo => ErrV::PlotTo,
            RunError::FuncNotFound(n) => ErrV::FuncNotFound(n@),
            RunError::PlotParamCount(k) => ErrV::PlotParamCount(*k as nat),
            RunError::ArityMismatch(n, w, g) => ErrV::ArityMismatch(n@, *w as nat, *g as nat),
            RunError::MathArity(f) => ErrV::MathArity(*f),
            RunError::MathArgNum(f) => ErrV::MathArgNum(*f),
            RunError::LogDomain => ErrV::LogDomain,
            RunError::SqrtDomain => ErrV::SqrtDomain,
        }
    }
}

/// The built-in's fixed spelling.
pub open spec fn math_name(f: MathFn) -> Seq<char> {
    match f {
        MathFn::Sin => "син"@,
        MathFn::Cos => "кос"@,
        MathFn::Exp => "эксп"@,
        MathFn::Log => "лог"@,
        MathFn::Sqrt => "корень"@,
    }
}

/// The readable diagnostic for a fault.
pub open spec fn err_msg(e: ErrV) -> Seq<char> {
    match e {
        ErrV::VarNotFound(n) => "Переменная '"@ + n + "' не найдена"@,
        ErrV::DivByZero => "Деление на ноль"@,
        ErrV::UnsupportedOp => "Неподдерживаемая операция"@,
        ErrV::CondNotBool => "Условие должно быть булевым"@,
        ErrV::Overflow => "Переполнение числа"@,
        ErrV::StepLimit => "Превышен лимит шагов выполнения"@,
        ErrV::PlotArgs => "график требует: функция, от, до"@,
        ErrV::PlotName => "Первый аргумент должен быть именем функции"@,
        ErrV::PlotFrom => "Второй аргумент должен быть числом"@,
        ErrV::PlotTo => "Третий аргумент должен быть числом"@,
        ErrV::FuncNotFound(n) => "Функция '"@ + n + "' не найдена"@,
        ErrV::PlotParamCount(k) => "Функция для графика должна иметь 1 параметр, получено "@
            + dec_seq(k),
        ErrV::ArityMismatch(n, w, g) => "Функция '"@ + n + "' ожидает "@ + dec_seq(w)
            + " аргументов, получено "@ + dec_seq(g),
        ErrV::MathArity(f) => math_name(f) + " ожидает 1 аргумент"@,
        ErrV::MathArgNum(f) => "Аргумент "@ + math_name(f) + " должен быть числом"@,
        ErrV::LogDomain => "Аргумент лог должен быть >0"@,
        ErrV::SqrtDomain => "Аргумент корень должен быть >=0"@,
    }
}

/// The variable environment: one flat name-to-value mapping.
pub struct Env {
    pub entries: Vec<(String, Value)>,
}

pub open spec fn env_map(s: Seq<(String, Value)>) -> Map<Seq<char>, ValueV>
    decreases s.len(),
{
    if s.len() == 0 {
        Map::empty()
    } else {
        env_map(s.drop_last()).insert(s.last().0@, value_view(s.last().1))
    }
}

impl Env {
    pub open spec fn view_map(&self) -> Map<Seq<char>, ValueV> {
        env_map(self.entries@)
    }

    pub fn new() -> (r: Env)
        ensures
            r.view_map() == Map::<Seq<char>, ValueV>::empty(),
    {
        Env { entries: Vec::new() }
    }

    pub fn insert(&mut self, name: String, v: Value)
        ensures
            final(self).view_map() == old(self).view_map().insert(name@, value_view(v)),
    {
        let ghost prev = self.entries@;
        self.entries.push((name, v));
        proof {
            assert(self.entries@.drop_last() =~= prev);
        }
    }

    pub fn get(&self, name: &String) -> (r: Option<Value>)
        ensures
            match r {
                Some(v) => self.view_map().contains_key(name@) && value_view(v)
                    == self.view_map()[name@],
                None => !self.view_map().contains_key(name@),
            },
    {
        let ghost s = self.entries@;
        let mut i: usize = self.entries.len();
        proof {
            assert(s.take(s.len() as int) =~= s);
        }
        while i > 0
            invariant
                s == self.entries@,
                i <= s.len(),
                env_map(s).contains_key(name@) ==> env_map(s.take(i as int)).contains_key(
                    name@,
                ) && env_map(s.take(i as int))[name@] == env_map(s)[name@],
                env_map(s.take(i as int)).contains_key(name@) ==> env_map(s).contains_key(
                    name@,
                ),
            decreases i,
        {
            proof {
                assert(s.take(i as int).drop_last() =~= s.take(i - 1));
                assert(s.take(i as int).last() == s[i - 1]);
            }
            if self.entries[i - 1].0 == *name {
                let v = self.entries[i - 1].1.clone();
                return Some(v);
            }
            i = i - 1;
        }
        proof {
            assert(s.take(0) =~= Seq::<(String, Value)>::empty());
        }
        None
    }

    pub fn clone_env(&self) -> (r: Env)
        ensures
            r.view_map() == self.view_map(),
    {
        let mut entries: Vec<(String, Value)> = Vec::new();
        let mut i: usize = 0;
        while i < self.entries.len()
            invariant
                i <= self.entries@.len(),
                entries@.len() == i,
                forall|k: int|
                    0 <= k < i ==> entries@[k].0@ == self.entries@[k].0@ && value_view(
                        entries@[k].1,
                    ) == value_view(self.entries@[k].1),
            decreases self.entries@.len() - i,
        {
            let name = self.entries[i].0.clone();
            let v = self.entries[i].1.clone();
            entries.push((name, v));
            i = i + 1;
        }
        proof {
            lemma_env_map_congruent(entries@, self.entries@);
        }
        Env { entries }
    }
}

proof fn lemma_env_map_congruent(a: Seq<(String, Value)>, b: Seq<(String, Value)>)
    requires
        a.len() == b.len(),
        forall|k: int|
            0 <= k < a.len() ==> a[k].0@ == b[k].0@ && value_view(a[k].1) == value_view(b[k].1),
    ensures
        env_map(a) == env_map(b),
    decreases a.len(),
{
    if a.len() > 0 {
        lemma_env_map_congruent(a.drop_last(), b.drop_last());
    }
}

/// The function table: names to declared functions, grown by declarations.
pub struct FuncTable {
    pub entries: Vec<(String, FuncDef)>,
}

pub open spec fn func_map(s: Seq<(String, FuncDef)>) -> Map<Seq<char>, FuncV>
    decreases s.len(),
{
    if s.len() == 0 {
        Map::empty()
    } else {
        func_map(s.drop_last()).insert(s.last().0@, func_view(s.last().1))
    }
}

impl FuncTable {
    pub open spec fn view_map(&self) -> Map<Seq<char>, FuncV> {
        func_map(self.entries@)
    }

    pub fn new() -> (r: FuncTable)
        ensures
            r.view_map() == Map::<Seq<char>, FuncV>::empty(),
    {
        FuncTable { entries: Vec::new() }
    }

    pub fn insert(&mut self, name: String, f: FuncDef)
        ensures
            final(self).view_map() == old(self).view_map().insert(name@, func_view(f)),
    {
        let ghost prev = self.entries@;
        self.entries.push((name, f));
        proof {
            assert(self.entries@.drop_last() =~= prev);
        }
    }

    pub fn get(&self, name: &String) -> (r: Option<FuncDef>)
        ensures
            match r {
                Some(f) => self.view_map().contains_key(name@) && func_view(f)
                    == self.view_map()[name@],
                None => !self.view_map().contains_key(name@),
            },
    {
        let ghost s = self.entries@;
        let mut i: usize = self.entries.len();
        proof {
            assert(s.take(s.len() as int) =~= s);
        }
        while i > 0
            invariant
                s == self.entries@,
                i <= s.len(),
                func_map(s).contains_key(name@) ==> func_map(s.take(i as int)).contains_key(
                    name@,
                ) && func_map(s.take(i as int))[name@] == func_map(s)[name@],
                func_map(s.take(i as int)).contains_key(name@) ==> func_map(s).contains_key(
                    name@,
                ),
            decreases i,
        {
            proof {
                assert(s.take(i as int).drop_last() =~= s.take(i - 1));
                assert(s.take(i as int).last() == s[i - 1]);
            }
            if self.entries[i - 1].0 == *name {
                let params = clone_strings(&self.entries[i - 1].1.params);
                let body = clone_stmts(&self.entries[i - 1].1.body);
                return Some(FuncDef { params, body });
            }
            i = i - 1;
        }
        proof {
            assert(s.take(0) =~= Seq::<(String, FuncDef)>::empty());
        }
        None
    }
}

/// Mathematical image of one plot artifact: its sample points, color and
/// label. The capture timestamp is an observation of the clock, outside the
/// image.
pub struct PlotV {
    pub points: Seq<(int, int)>,
    pub color: Seq<char>,
    pub label: Seq<char>,
}

pub open spec fn plot_view(p: PlotData) -> PlotV {
    PlotV {
        points: Seq::new(p.points@.len(), |i: int| (p.points@[i].0@, p.points@[i].1@)),
        color: p.color@,
        label: p.label@,
    }
}

pub open spec fn plots_view(s: Seq<PlotData>) -> Seq<PlotV> {
    Seq::new(s.len(), |i: int| plot_view(s[i]))
}

/// Mathematical image of the evaluator's whole state.
pub struct StateV {
    pub env: Map<Seq<char>, ValueV>,
    pub funcs: Map<Seq<char>, FuncV>,
    pub output: Seq<char>,
    pub plots: Seq<PlotV>,
}


/// Structural height of an expression, for the descent measure.
pub open spec fn eheight(e: ExprV) -> nat
    decreases e,
{
    match e {
        ExprV::Number(_) => 1,
        ExprV::StrLit(_) => 1,
        ExprV::Bool(_) => 1,
        ExprV::Ident(_) => 1,
        ExprV::Bin { op, left, right } => 1 + eheight(*left) + eheight(*right),
        ExprV::Call { name, args } => 1 + aheight(args),
        ExprV::Assign { name, value } => 1 + eheight(*value),
    }
}

pub open spec fn aheight(args: Seq<ExprV>) -> nat
    decreases args,
{
    if args.len() == 0 {
        0
    } else {
        1 + eheight(args[0]) + aheight(args.drop_first())
    }
}

/// Structural height of a statement.
pub open spec fn sheight(s: StmtV) -> nat
    decreases s,
{
    match s {
        StmtV::Let { name, init } => 1 + eheight(init),
        StmtV::If { cond, then_branch, else_branch } => 1 + eheight(cond) + bheight(then_branch)
            + match else_branch {
            Some(eb) => bheight(eb),
            None => 0,
        },
        StmtV::While { cond, body } => 1 + eheight(cond) + bheight(body),
        StmtV::Return(e) => 1 + eheight(e),
        StmtV::Expr(e) => 1 + eheight(e),
        StmtV::FuncDecl { name, params, body } => 1 + bheight(body),
    }
}

pub open spec fn bheight(ss: Seq<StmtV>) -> nat
    decreases ss,
{
    if ss.len() == 0 {
        0
    } else {
        1 + sheight(ss[0]) + bheight(ss.drop_first())
    }
}

proof fn lemma_aheight_index(args: Seq<ExprV>, i: int)
    requires
        0 <= i < args.len(),
    ensures
        eheight(args[i]) < aheight(args),
    decreases args,
{
    if i > 0 {
        lemma_aheight_index(args.drop_first(), i - 1);
    }
}

proof fn lemma_bheight_index(ss: Seq<StmtV>, i: int)
    requires
        0 <= i < ss.len(),
    ensures
        sheight(ss[i]) < bheight(ss),
    decreases ss,
{
    if i > 0 {
        lemma_bheight_index(ss.drop_first(), i - 1);
    }
}

/// Parameter names bound to call arguments, later names overwriting earlier
/// ones.
pub open spec fn bind_params(params: Seq<Seq<char>>, vals: Seq<ValueV>) -> Map<Seq<char>, ValueV>
    decreases params.len(),
{
    if params.len() == 0 || vals.len() == 0 {
        Map::empty()
    } else {
        bind_params(params.drop_last(), vals.drop_last()).insert(params.last(), vals.last())
    }
}

/// How one value is printed: a number as decimal text, a string as itself, a
/// truth value by its keyword spelling, anything else as a placeholder.
pub open spec fn format_value_s(v: ValueV) -> Seq<char> {
    match v {
        ValueV::Num(m) => num_text(m),
        ValueV::Str(s) => s,
        ValueV::Bool(b) => if b {
            "истина"@
        } else {
            "ложь"@
        },
        ValueV::Func { params, body } => "<функция>"@,
        ValueV::Empty => "пусто"@,
    }
}

/// The first `k` printed values joined with single spaces.
pub open spec fn join_vals(vs: Seq<ValueV>, k: int) -> Seq<char>
    decreases k,
{
    if k <= 0 || vs.len() == 0 {
        Seq::empty()
    } else if k == 1 {
        format_value_s(vs[0])
    } else {
        join_vals(vs, k - 1) + " "@ + format_value_s(vs[k - 1])
    }
}

/// One binary operation on finished operands.
pub open spec fn apply_binop(l: ValueV, op: BinOp, r: ValueV) -> Result<ValueV, ErrV> {
    match (l, r) {
        (ValueV::Num(a), ValueV::Num(b)) => match op {
            BinOp::Add => if sum_ok(a, b) {
                Ok(ValueV::Num(a + b))
            } else {
                Err(ErrV::Overflow)
            },
            BinOp::Sub => if sum_ok(a, -b) {
                Ok(ValueV::Num(a - b))
            } else {
                Err(ErrV::Overflow)
            },
            BinOp::Mul => if prod_ok(a, b) {
                Ok(ValueV::Num(prod_val(a, b)))
            } else {
                Err(ErrV::Overflow)
            },
            BinOp::Div => if b == 0 {
                Err(ErrV::DivByZero)
            } else if quot_ok(a, b) {
                Ok(ValueV::Num(quot_val(a, b)))
            } else {
                Err(ErrV::Overflow)
            },
            BinOp::Eq => Ok(ValueV::Bool(a == b)),
            BinOp::Ne => Ok(ValueV::Bool(a != b)),
            BinOp::Gt => Ok(ValueV::Bool(a > b)),
            BinOp::Lt => Ok(ValueV::Bool(a < b)),
            BinOp::Ge => Ok(ValueV::Bool(a >= b)),
            BinOp::Le => Ok(ValueV::Bool(a <= b)),
        },
        (ValueV::Str(a), ValueV::Str(b)) => match op {
            BinOp::Add => Ok(ValueV::Str(a + b)),
            _ => Err(ErrV::UnsupportedOp),
        },
        _ => Err(ErrV::UnsupportedOp),
    }
}

/// One numeric built-in applied to its single finished argument.
pub open spec fn apply_math(f: MathFn, vals: Seq<ValueV>) -> Result<ValueV, ErrV> {
    if vals.len() != 1 {
        Err(ErrV::MathArity(f))
    } else {
        match vals[0] {
            ValueV::Num(x) => match f {
                MathFn::Sin => Ok(ValueV::Num(sin_fx(x))),
                MathFn::Cos => Ok(ValueV::Num(cos_fx(x))),
                MathFn::Exp => match exp_fx(x) {
                    Some(v) => Ok(ValueV::Num(v)),
                    None => Err(ErrV::Overflow),
                },
                MathFn::Log => if x <= 0 {
                    Err(ErrV::LogDomain)
                } else {
                    Ok(ValueV::Num(ln_fx(x)))
                },
                MathFn::Sqrt => if x < 0 {
                    Err(ErrV::SqrtDomain)
                } else if sqrt_ok(x) {
                    Ok(ValueV::Num(sqrt_floor((x * SCALE) as nat) as int))
                } else {
                    Err(ErrV::Overflow)
                },
            },
            _ => Err(ErrV::MathArgNum(f)),
        }
    }
}

/// Which numeric built-in a call name denotes.
pub open spec fn math_of_name(name: Seq<char>) -> Option<MathFn> {
    if name == "син"@ {
        Some(MathFn::Sin)
    } else if name == "кос"@ {
        Some(MathFn::Cos)
    } else if name == "эксп"@ {
        Some(MathFn::Exp)
    } else if name == "лог"@ {
        Some(MathFn::Log)
    } else if name == "корень"@ {
        Some(MathFn::Sqrt)
    } else {
        None
    }
}

/// Evaluation of one expression: the state after it and its value or the
/// first fault. An exhausted step budget is itself a fault.
pub open spec fn ev_expr(st: StateV, e: ExprV, fuel: nat) -> (StateV, Result<ValueV, ErrV>)
    decreases fuel, eheight(e), 2int,
{
    if fuel == 0 {
        (st, Err(ErrV::StepLimit))
    } else {
        match e {
            ExprV::Number(m) => (st, Ok(ValueV::Num(m))),
            ExprV::StrLit(s) => (st, Ok(ValueV::Str(s))),
            ExprV::Bool(b) => (st, Ok(ValueV::Bool(b))),
            ExprV::Ident(n) => if st.env.contains_key(n) {
                (st, Ok(st.env[n]))
            } else {
                (st, Err(ErrV::VarNotFound(n)))
            },
            ExprV::Bin { op, left, right } => {
                let (st1, rl) = ev_expr(st, *left, fuel);
                match rl {
                    Err(x) => (st1, Err(x)),
                    Ok(lv) => {
                        let (st2, rr) = ev_expr(st1, *right, fuel);
                        match rr {
                            Err(x) => (st2, Err(x)),
                            Ok(rv) => (st2, apply_binop(lv, op, rv)),
                        }
                    },
                }
            },
            ExprV::Assign { name, value } => {
                let (st1, rv) = ev_expr(st, *value, fuel);
                match rv {
                    Err(x) => (st1, Err(x)),
                    Ok(v) => (
                        StateV { env: st1.env.insert(name, v), ..st1 },
                        Ok(v),
                    ),
                }
            },
            ExprV::Call { name, args } => {
                if name == "печать"@ {
                    ev_print(st, args, fuel)
                } else if name == "график"@ {
                    ev_plot(st, args, fuel)
                } else {
                    let (st1, ra) = ev_args(st, args, fuel);
                    match ra {
                        Err(x) => (st1, Err(x)),
                        Ok(vals) => ev_named(st1, name, vals, fuel),
                    }
                }
            },
        }
    }
}

/// Arguments evaluated left to right.
pub open spec fn ev_args(st: StateV, args: Seq<ExprV>, fuel: nat) -> (
    StateV,
    Result<Seq<ValueV>, ErrV>,
)
    decreases fuel, aheight(args), 0int,
{
    if args.len() == 0 {
        (st, Ok(Seq::empty()))
    } else {
        let (st1, r0) = ev_expr(st, args[0], fuel);
        match r0 {
            Err(x) => (st1, Err(x)),
            Ok(v) => {
                let (st2, rr) = ev_args(st1, args.drop_first(), fuel);
                match rr {
                    Err(x) => (st2, Err(x)),
                    Ok(rest) => (st2, Ok(seq![v] + rest)),
                }
            },
        }
    }
}

/// The print built-in: every argument evaluated, the formatted pieces joined
/// with spaces and sent out as one line.
pub open spec fn ev_print(st: StateV, args: Seq<ExprV>, fuel: nat) -> (
    StateV,
    Result<ValueV, ErrV>,
)
    decreases fuel, aheight(args), 1int,
{
    let (st1, ra) = ev_args(st, args, fuel);
    match ra {
        Err(x) => (st1, Err(x)),
        Ok(vals) => (
            StateV {
                output: st1.output + join_vals(vals, vals.len() as int) + "\n"@,
                ..st1
            },
            Ok(ValueV::Empty),
        ),
    }
}

/// One plot sample per step: the environment is replaced by the single
/// parameter binding, the body runs, and a numeric result is kept.
pub open spec fn ev_plot_samples(
    st: StateV,
    pname: Seq<char>,
    body: Seq<StmtV>,
    from: int,
    step: int,
    i: int,
    pts: Seq<(int, int)>,
    fuel: nat,
) -> (StateV, Result<Seq<(int, int)>, ErrV>)
    decreases fuel, 201 - i, 0int,
{
    if i > 200 {
        (st, Ok(pts))
    } else if fuel == 0 {
        (st, Err(ErrV::StepLimit))
    } else {
        if i * SCALE > u128::MAX {
            (st, Err(ErrV::Overflow))
        } else {
            let xi = i * SCALE;
            if !prod_ok(xi, step) {
                (st, Err(ErrV::Overflow))
            } else {
                let t1 = prod_val(xi, step);
                if !sum_ok(from, t1) {
                    (st, Err(ErrV::Overflow))
                } else {
                    let x = from + t1;
                    let st_s = StateV {
                        env: Map::empty().insert(pname, ValueV::Num(x)),
                        ..st
                    };
                    let (st2, rb) = ev_block(st_s, body, (fuel - 1) as nat);
                    match rb {
                        Err(e) => (st2, Err(e)),
                        Ok(out) => {
                            let pts2 = match out {
                                Some(ValueV::Num(y)) => pts.push((x, y)),
                                _ => pts,
                            };
                            ev_plot_samples(st2, pname, body, from, step, i + 1, pts2, fuel)
                        },
                    }
                }
            }
        }
    }
}

/// The plot built-in: the named one-parameter function sampled two hundred
/// and one times over the closed range, the finished artifact appended.
pub open spec fn ev_plot(st: StateV, args: Seq<ExprV>, fuel: nat) -> (
    StateV,
    Result<ValueV, ErrV>,
)
    decreases fuel, aheight(args), 1int,
    via ev_plot_decreases
{
    if args.len() < 3 {
        (st, Err(ErrV::PlotArgs))
    } else {
        match args[0] {
            ExprV::Ident(fname) => {
                let (st1, r1) = ev_expr(st, args[1], fuel);
                match r1 {
                    Err(x) => (st1, Err(x)),
                    Ok(ValueV::Num(from)) => {
                        let (st2, r2) = ev_expr(st1, args[2], fuel);
                        match r2 {
                            Err(x) => (st2, Err(x)),
                            Ok(ValueV::Num(to)) => ev_plot_run(st2, fname, from, to, fuel),
                            Ok(_) => (st2, Err(ErrV::PlotTo)),
                        }
                    },
                    Ok(_) => (st1, Err(ErrV::PlotFrom)),
                }
            },
            _ => (st, Err(ErrV::PlotName)),
        }
    }
}

#[via_fn]
proof fn ev_plot_decreases(st: StateV, args: Seq<ExprV>, fuel: nat) {
    if args.len() >= 3 {
        lemma_aheight_index(args, 1);
        lemma_aheight_index(args, 2);
    }
}

/// The sampling run of the plot built-in, after its arguments are settled.
pub open spec fn ev_plot_run(st: StateV, fname: Seq<char>, from: int, to: int, fuel: nat) -> (
    StateV,
    Result<ValueV, ErrV>,
)
    decreases fuel, 0int, 0int,
{
    if fuel == 0 {
        (st, Err(ErrV::StepLimit))
    } else if !st.funcs.contains_key(fname) {
        (st, Err(ErrV::FuncNotFound(fname)))
    } else {
        let f = st.funcs[fname];
        if f.params.len() != 1 {
            (st, Err(ErrV::PlotParamCount(f.params.len())))
        } else {
            let pname = f.params[0];
            if !sum_ok(to, -from) {
                (st, Err(ErrV::Overflow))
            } else {
                let diff = to - from;
                if !quot_ok(diff, 200 * SCALE) {
                    (st, Err(ErrV::Overflow))
                } else {
                    let step = quot_val(diff, 200 * SCALE);
                    let saved = st.env;
                    let (st2, rs) = ev_plot_samples(
                        st,
                        pname,
                        f.body,
                        from,
                        step,
                        0,
                        Seq::empty(),
                        (fuel - 1) as nat,
                    );
                    match rs {
                        Err(e) => (st2, Err(e)),
                        Ok(pts) => (
                            StateV {
                                env: saved,
                                plots: st2.plots.push(
                                    PlotV { points: pts, color: "#0066cc"@, label: fname },
                                ),
                                ..st2
                            },
                            Ok(ValueV::Empty),
                        ),
                    }
                }
            }
        }
    }
}

/// A named call after argument evaluation: a numeric built-in by its fixed
/// name first, then the declared function, run in a fresh environment holding
/// only its parameters, the caller's restored afterwards.
pub open spec fn ev_named(st: StateV, name: Seq<char>, vals: Seq<ValueV>, fuel: nat) -> (
    StateV,
    Result<ValueV, ErrV>,
)
    decreases fuel, 0int, 0int,
{
    match math_of_name(name) {
        Some(f) => (st, apply_math(f, vals)),
        None => {
            if fuel == 0 {
                (st, Err(ErrV::StepLimit))
            } else if !st.funcs.contains_key(name) {
                (st, Err(ErrV::FuncNotFound(name)))
            } else {
                let f = st.funcs[name];
                if f.params.len() != vals.len() {
                    (st, Err(ErrV::ArityMismatch(name, f.params.len(), vals.len())))
                } else {
                    let saved = st.env;
                    let st_call = StateV { env: bind_params(f.params, vals), ..st };
                    let (st2, rb) = ev_block(st_call, f.body, (fuel - 1) as nat);
                    match rb {
                        Err(e) => (st2, Err(e)),
                        Ok(out) => (
                            StateV { env: saved, ..st2 },
                            Ok(
                                match out {
                                    Some(v) => v,
                                    None => ValueV::Empty,
                                },
                            ),
                        ),
                    }
                }
            }
        },
    }
}

/// Execution of one statement: the state after it and the early-exit value
/// where a return fired.
pub open spec fn ev_stmt(st: StateV, s: StmtV, fuel: nat) -> (
    StateV,
    Result<Option<ValueV>, ErrV>,
)
    decreases fuel, sheight(s), 0int,
{
    if fuel == 0 {
        (st, Err(ErrV::StepLimit))
    } else {
        match s {
            StmtV::Let { name, init } => {
                let (st1, rv) = ev_expr(st, init, fuel);
                match rv {
                    Err(x) => (st1, Err(x)),
                    Ok(v) => (StateV { env: st1.env.insert(name, v), ..st1 }, Ok(None)),
                }
            },
            StmtV::If { cond, then_branch, else_branch } => {
                let (st1, rc) = ev_expr(st, cond, fuel);
                match rc {
                    Err(x) => (st1, Err(x)),
                    Ok(ValueV::Bool(true)) => ev_block(st1, then_branch, fuel),
                    Ok(ValueV::Bool(false)) => match else_branch {
                        Some(eb) => ev_block(st1, eb, fuel),
                        None => (st1, Ok(None)),
                    },
                    Ok(_) => (st1, Err(ErrV::CondNotBool)),
                }
            },
            StmtV::While { cond, body } => {
                let (st1, rc) = ev_expr(st, cond, fuel);
                match rc {
                    Err(x) => (st1, Err(x)),
                    Ok(ValueV::Bool(false)) => (st1, Ok(None)),
                    Ok(ValueV::Bool(true)) => {
                        let (st2, rb) = ev_block(st1, body, fuel);
                        match rb {
                            Err(x) => (st2, Err(x)),
                            Ok(Some(v)) => (st2, Ok(Some(v))),
                            Ok(None) => ev_stmt(st2, s, (fuel - 1) as nat),
                        }
                    },
                    Ok(_) => (st1, Err(ErrV::CondNotBool)),
                }
            },
            StmtV::Return(e) => {
                let (st1, rv) = ev_expr(st, e, fuel);
                match rv {
                    Err(x) => (st1, Err(x)),
                    Ok(v) => (st1, Ok(Some(v))),
                }
            },
            StmtV::Expr(e) => {
                let (st1, rv) = ev_expr(st, e, fuel);
                match rv {
                    Err(x) => (st1, Err(x)),
                    Ok(_) => (st1, Ok(None)),
                }
            },
            StmtV::FuncDecl { name, params, body } => (
                StateV {
                    funcs: st.funcs.insert(name, FuncV { params, body }),
                    ..st
                },
                Ok(None),
            ),
        }
    }
}

/// Execution of a statement sequence, stopped by the first return value or
/// fault.
pub open spec fn ev_block(st: StateV, ss: Seq<StmtV>, fuel: nat) -> (
    StateV,
    Result<Option<ValueV>, ErrV>,
)
    decreases fuel, bheight(ss), 1int,
{
    if ss.len() == 0 {
        (st, Ok(None))
    } else {
        let (st1, r0) = ev_stmt(st, ss[0], fuel);
        match r0 {
            Err(x) => (st1, Err(x)),
            Ok(Some(v)) => (st1, Ok(Some(v))),
            Ok(None) => ev_block(st1, ss.drop_first(), fuel),
        }
    }
}

/// The whole program: every top-level statement in order; a top-level return
/// value is noted and passed by.
pub open spec fn ev_program(st: StateV, ss: Seq<StmtV>, fuel: nat) -> (StateV, Option<ErrV>)
    decreases fuel, bheight(ss), 2int,
{
    if ss.len() == 0 {
        (st, None)
    } else {
        let (st1, r0) = ev_stmt(st, ss[0], fuel);
        match r0 {
            Err(x) => (st1, Some(x)),
            Ok(_) => ev_program(st1, ss.drop_first(), fuel),
        }
    }
}

/// The evaluator's starting state: everything empty.
pub open spec fn init_state() -> StateV {
    StateV {
        env: Map::empty(),
        funcs: Map::empty(),
        output: Seq::empty(),
        plots: Seq::empty(),
    }
}


pub open spec fn values_view(s: Seq<Value>) -> Seq<ValueV> {
    Seq::new(s.len(), |i: int| value_view(s[i]))
}

pub open spec fn points_view(s: Seq<(Num, Num)>) -> Seq<(int, int)> {
    Seq::new(s.len(), |i: int| (s[i].0@, s[i].1@))
}

pub open spec fn cat_vals(pre: Seq<ValueV>, t: (StateV, Result<Seq<ValueV>, ErrV>)) -> (
    StateV,
    Result<Seq<ValueV>, ErrV>,
) {
    match t.1 {
        Err(e) => t,
        Ok(rest) => (t.0, Ok(pre + rest)),
    }
}

/// The step budget the facade grants: far beyond any reachable run.
pub const FUEL: u64 = u64::MAX;

/// Relies on std::time::SystemTime::now: the clock reading in milliseconds
/// since the epoch, or zero for a clock before it. Nothing is promised of the
/// value.
#[verifier::external_body]
fn now_millis() -> i64 {
    match std::time::SystemTime::now().duration_since(std::time::UNIX_EPOCH) {
        Ok(d) => d.as_millis() as i64,
        Err(_) => 0,
    }
}

/// How one value is printed.
pub fn format_value(val: &Value) -> (r: String)
    ensures
        r@ == format_value_s(value_view(*val)),
{
    match val {
        Value::Num(n) => n.to_text(),
        Value::Str(s) => s.clone(),
        Value::Bool(b) => {
            if *b {
                String::from_str("истина")
            } else {
                String::from_str("ложь")
            }
        },
        Value::Func { .. } => String::from_str("<функция>"),
        Value::Empty => String::from_str("пусто"),
    }
}

fn math_of_name_exec(name: &String) -> (r: Option<MathFn>)
    ensures
        r == math_of_name(name@),
{
    if *name == String::from_str("син") {
        Some(MathFn::Sin)
    } else if *name == String::from_str("кос") {
        Some(MathFn::Cos)
    } else if *name == String::from_str("эксп") {
        Some(MathFn::Exp)
    } else if *name == String::from_str("лог") {
        Some(MathFn::Log)
    } else if *name == String::from_str("корень") {
        Some(MathFn::Sqrt)
    } else {
        None
    }
}

fn eval_binop(l: &Value, op: BinOp, r: &Value) -> (res: Result<Value, RunError>)
    ensures
        match apply_binop(value_view(*l), op, value_view(*r)) {
            Ok(vv) => res matches Ok(v) && value_view(v) == vv,
            Err(ev) => res matches Err(x) && x@ == ev,
        },
{
    match (l, r) {
        (Value::Num(a), Value::Num(b)) => match op {
            BinOp::Add => match a.add(*b) {
                Some(n) => Ok(Value::Num(n)),
                None => Err(RunError::Overflow),
            },
            BinOp::Sub => match a.sub(*b) {
                Some(n) => Ok(Value::Num(n)),
                None => Err(RunError::Overflow),
            },
            BinOp::Mul => match a.mul(*b) {
                Some(n) => Ok(Value::Num(n)),
                None => Err(RunError::Overflow),
            },
            BinOp::Div => {
                if b.is_zero() {
                    Err(RunError::DivByZero)
                } else {
                    match a.div(*b) {
                        Some(n) => Ok(Value::Num(n)),
                        None => Err(RunError::Overflow),
                    }
                }
            },
            BinOp::Eq => Ok(Value::Bool(a.eq_val(*b))),
            BinOp::Ne => Ok(Value::Bool(!a.eq_val(*b))),
            BinOp::Gt => Ok(Value::Bool(a.gt(*b))),
            BinOp::Lt => Ok(Value::Bool(a.lt(*b))),
            BinOp::Ge => Ok(Value::Bool(a.ge(*b))),
            BinOp::Le => Ok(Value::Bool(a.le(*b))),
        },
        (Value::Str(a), Value::Str(b)) => match op {
            BinOp::Add => {
                let mut s = a.clone();
                s.append(b.as_str());
                Ok(Value::Str(s))
            },
            _ => Err(RunError::UnsupportedOp),
        },
        _ => Err(RunError::UnsupportedOp),
    }
}

fn eval_math(f: MathFn, vals: &Vec<Value>) -> (res: Result<Value, RunError>)
    ensures
        match apply_math(f, values_view(vals@)) {
            Ok(vv) => res matches Ok(v) && value_view(v) == vv,
            Err(ev) => res matches Err(x) && x@ == ev,
        },
{
    if vals.len() != 1 {
        return Err(RunError::MathArity(f));
    }
    let x = match &vals[0] {
        Value::Num(n) => *n,
        _ => {
            return Err(RunError::MathArgNum(f));
        },
    };
    match f {
        MathFn::Sin => Ok(Value::Num(crate::math::sin_num(x))),
        MathFn::Cos => Ok(Value::Num(crate::math::cos_num(x))),
        MathFn::Exp => match crate::math::exp_num(x) {
            Some(n) => Ok(Value::Num(n)),
            None => Err(RunError::Overflow),
        },
        MathFn::Log => {
            if x.le(Num::zero()) {
                Err(RunError::LogDomain)
            } else {
                Ok(Value::Num(crate::math::ln_num(x)))
            }
        },
        MathFn::Sqrt => {
            if x.lt(Num::zero()) {
                Err(RunError::SqrtDomain)
            } else {
                match crate::math::sqrt_num(x) {
                    Some(n) => Ok(Value::Num(n)),
                    None => Err(RunError::Overflow),
                }
            }
        },
    }
}

/// The tree-walking evaluator: the environment, the function table, and the
/// accumulated output and plot artifacts of one run.
pub struct Interpreter {
    pub variables: Env,
    pub functions: FuncTable,
    pub output: String,
    pub plots: Vec<PlotData>,
}

impl Interpreter {
    /// Mathematical image of the evaluator's state.
    pub open spec fn st(&self) -> StateV {
        StateV {
            env: self.variables.view_map(),
            funcs: self.functions.view_map(),
            output: self.output@,
            plots: plots_view(self.plots@),
        }
    }

    pub fn new() -> (r: Interpreter)
        ensures
            r.st() == init_state(),
    {
        let r = Interpreter {
            variables: Env::new(),
            functions: FuncTable::new(),
            output: String::new(),
            plots: Vec::new(),
        };
        proof {
            assert(plots_view(r.plots@) =~= Seq::<PlotV>::empty());
            assert(r.st() =~= init_state());
        }
        r
    }

    /// Sends one line to the output: the text and a line break.
    fn print(&mut self, text: String)
        ensures
            final(self).st() == (StateV {
                output: old(self).st().output + text@ + "\n"@,
                ..old(self).st()
            }),
    {
        self.output.append(text.as_str());
        push_char(&mut self.output, '\n');
        proof {
            reveal_strlit("\n");
            assert(final(self).st().output =~= old(self).st().output + text@ + "\n"@);
            assert(final(self).st() =~= (StateV {
                output: old(self).st().output + text@ + "\n"@,
                ..old(self).st()
            }));
        }
    }

    #[verifier::rlimit(100)]
    fn evaluate_expression(&mut self, e: &Expr, fuel: u64) -> (r: Result<Value, RunError>)
        ensures
            ({
                let (st2, res) = ev_expr(old(self).st(), expr_view(*e), fuel as nat);
                &&& final(self).st() == st2
                &&& match res {
                    Ok(vv) => r matches Ok(v) && value_view(v) == vv,
                    Err(ev) => r matches Err(x) && x@ == ev,
                }
            }),
        decreases fuel, eheight(expr_view(*e)), 2int,
    {
        if fuel == 0 {
            return Err(RunError::StepLimit);
        }
        match e {
            Expr::Number(n) => Ok(Value::Num(*n)),
            Expr::StrLit(s) => Ok(Value::Str(s.clone())),
            Expr::Bool(b) => Ok(Value::Bool(*b)),
            Expr::Ident(name) => match self.variables.get(name) {
                Some(v) => Ok(v),
                None => Err(RunError::VarNotFound(name.clone())),
            },
            Expr::Bin { op, left, right } => {
                let lv = match self.evaluate_expression(left, fuel) {
                    Ok(v) => v,
                    Err(x) => {
                        return Err(x);
                    },
                };
                let rv = match self.evaluate_expression(right, fuel) {
                    Ok(v) => v,
                    Err(x) => {
                        return Err(x);
                    },
                };
                eval_binop(&lv, *op, &rv)
            },
            Expr::Assign { name, value } => {
                let v = match self.evaluate_expression(value, fuel) {
                    Ok(v) => v,
                    Err(x) => {
                        return Err(x);
                    },
                };
                let v2 = v.clone();
                self.variables.insert(name.clone(), v);
                Ok(v2)
            },
            Expr::Call { name, args } => {
                if *name == String::from_str("печать") {
                    self.eval_print(args, fuel)
                } else if *name == String::from_str("график") {
                    self.eval_plot(args, fuel)
                } else {
                    let vals = match self.eval_args(args, fuel) {
                        Ok(vs) => vs,
                        Err(x) => {
                            return Err(x);
                        },
                    };
                    self.eval_named(name, &vals, fuel)
                }
            },
        }
    }

    fn eval_args(&mut self, args: &Vec<Expr>, fuel: u64) -> (r: Result<Vec<Value>, RunError>)
        ensures
            ({
                let (st2, res) = ev_args(old(self).st(), exprs_view(args@), fuel as nat);
                &&& final(self).st() == st2
                &&& match res {
                    Ok(vvs) => r matches Ok(vs) && values_view(vs@) == vvs,
                    Err(ev) => r matches Err(x) && x@ == ev,
                }
            }),
        decreases fuel, aheight(exprs_view(args@)), 0int,
    {
        let ghost av = exprs_view(args@);
        let ghost st0 = self.st();
        proof {
            lemma_exprs_view(args@);
            assert(values_view(Seq::<Value>::empty()) =~= Seq::<ValueV>::empty());
            match ev_args(st0, av, fuel as nat).1 {
                Err(_) => {},
                Ok(rest) => {
                    assert(Seq::<ValueV>::empty() + rest =~= rest);
                },
            }
        }
        proof {
            assert(av.skip(0) =~= av);
        }
        let mut vals: Vec<Value> = Vec::new();
        let mut i: usize = 0;
        while i < args.len()
            invariant
                av == exprs_view(args@),
                st0 == old(self).st(),
                av.len() == args@.len(),
                forall|k: int| 0 <= k < args@.len() ==> av[k] == expr_view(args@[k]),
                i <= args@.len(),
                cat_vals(values_view(vals@), ev_args(self.st(), av.skip(i as int), fuel as nat))
                    == ev_args(st0, av, fuel as nat),
            decreases args@.len() - i,
        {
            proof {
                assert(av.skip(i as int)[0] == av[i as int]);
                assert(av.skip(i as int).drop_first() =~= av.skip(i as int + 1));
                assert(av.skip(i as int).len() > 0);
                lemma_aheight_index(av, i as int);
            }
            let v = match self.evaluate_expression(&args[i], fuel) {
                Ok(v) => v,
                Err(x) => {
                    return Err(x);
                },
            };
            let ghost prev = vals@;
            let ghost vv = value_view(v);
            vals.push(v);
            proof {
                assert(values_view(vals@) =~= values_view(prev).push(vv));
                match ev_args(self.st(), av.skip(i as int + 1), fuel as nat).1 {
                    Err(_) => {},
                    Ok(rest) => {
                        assert(values_view(prev) + (seq![vv] + rest) =~= values_view(
                            prev,
                        ).push(vv) + rest);
                    },
                }
            }
            i = i + 1;
        }
        proof {
            assert(av.skip(av.len() as int) =~= Seq::<ExprV>::empty());
        }
        Ok(vals)
    }

    fn eval_print(&mut self, args: &Vec<Expr>, fuel: u64) -> (r: Result<Value, RunError>)
        ensures
            ({
                let (st2, res) = ev_print(old(self).st(), exprs_view(args@), fuel as nat);
                &&& final(self).st() == st2
                &&& match res {
                    Ok(vv) => r matches Ok(v) && value_view(v) == vv,
                    Err(ev) => r matches Err(x) && x@ == ev,
                }
            }),
        decreases fuel, aheight(exprs_view(args@)), 1int,
    {
        let vals = match self.eval_args(args, fuel) {
            Ok(vs) => vs,
            Err(x) => {
                return Err(x);
            },
        };
        let ghost vvs = values_view(vals@);
        let ghost st1 = self.st();
        let mut line = String::new();
        let mut k: usize = 0;
        while k < vals.len()
            invariant
                vvs == values_view(vals@),
                vvs.len() == vals@.len(),
                k <= vals@.len(),
                line@ == join_vals(vvs, k as int),
            decreases vals@.len() - k,
        {
            if k > 0 {
                push_char(&mut line, ' ');
            }
            let piece = format_value(&vals[k]);
            line.append(piece.as_str());
            proof {
                reveal_strlit(" ");
                assert(vvs[k as int] == value_view(vals@[k as int]));
                if k == 0 {
                    assert(line@ =~= join_vals(vvs, k as int + 1));
                } else {
                    assert(join_vals(vvs, k as int) + " "@ + format_value_s(vvs[k as int])
                        =~= line@);
                }
            }
            k = k + 1;
        }
        proof {
            assert(self.st() == st1);
        }
        self.print(line);
        proof {
            assert(self.st() =~= (StateV {
                output: st1.output + join_vals(vvs, vvs.len() as int) + "\n"@,
                ..st1
            }));
        }
        Ok(Value::Empty)
    }

    fn eval_named(&mut self, name: &String, vals: &Vec<Value>, fuel: u64) -> (r: Result<
        Value,
        RunError,
    >)
        ensures
            ({
                let (st2, res) = ev_named(old(self).st(), name@, values_view(vals@), fuel as nat);
                &&& final(self).st() == st2
                &&& match res {
                    Ok(vv) => r matches Ok(v) && value_view(v) == vv,
                    Err(ev) => r matches Err(x) && x@ == ev,
                }
            }),
        decreases fuel, 0int, 0int,
    {
        match math_of_name_exec(name) {
            Some(f) => eval_math(f, vals),
            None => {
                if fuel == 0 {
                    return Err(RunError::StepLimit);
                }
                let fd = match self.functions.get(name) {
                    Some(fd) => fd,
                    None => {
                        return Err(RunError::FuncNotFound(name.clone()));
                    },
                };
                if fd.params.len() != vals.len() {
                    return Err(
                        RunError::ArityMismatch(name.clone(), fd.params.len(), vals.len()),
                    );
                }
                let saved = self.variables.clone_env();
                let mut fresh = Env::new();
                let ghost pv = strings_view(fd.params@);
                let ghost vv = values_view(vals@);
                proof {
                    assert(pv.take(0) =~= Seq::<Seq<char>>::empty());
                    assert(vv.take(0) =~= Seq::<ValueV>::empty());
                }
                let mut k: usize = 0;
                while k < fd.params.len()
                    invariant
                        pv == strings_view(fd.params@),
                        vv == values_view(vals@),
                        pv.len() == fd.params@.len(),
                        vv.len() == vals@.len(),
                        pv.len() == vv.len(),
                        k <= pv.len(),
                        fresh.view_map() == bind_params(pv.take(k as int), vv.take(k as int)),
                    decreases pv.len() - k,
                {
                    fresh.insert(fd.params[k].clone(), vals[k].clone());
                    proof {
                        assert(pv.take(k as int + 1).drop_last() =~= pv.take(k as int));
                        assert(vv.take(k as int + 1).drop_last() =~= vv.take(k as int));
                        assert(pv.take(k as int + 1).last() == pv[k as int]);
                        assert(vv.take(k as int + 1).last() == vv[k as int]);
                    }
                    k = k + 1;
                }
                proof {
                    assert(pv.take(pv.len() as int) =~= pv);
                    assert(vv.take(vv.len() as int) =~= vv);
                }
                self.variables = fresh;
                let rb = self.execute_block(&fd.body, fuel - 1);
                match rb {
                    Err(x) => Err(x),
                    Ok(out) => {
                        self.variables = saved;
                        match out {
                            Some(v) => Ok(v),
                            None => Ok(Value::Empty),
                        }
                    },
                }
            },
        }
    }

    fn eval_plot(&mut self, args: &Vec<Expr>, fuel: u64) -> (r: Result<Value, RunError>)
        ensures
            ({
                let (st2, res) = ev_plot(old(self).st(), exprs_view(args@), fuel as nat);
                &&& final(self).st() == st2
                &&& match res {
                    Ok(vv) => r matches Ok(v) && value_view(v) == vv,
                    Err(ev) => r matches Err(x) && x@ == ev,
                }
            }),
        decreases fuel, aheight(exprs_view(args@)), 1int,
    {
        let ghost av = exprs_view(args@);
        proof {
            lemma_exprs_view(args@);
        }
        if args.len() < 3 {
            return Err(RunError::PlotArgs);
        }
        let fname = match &args[0] {
            Expr::Ident(n) => n.clone(),
            _ => {
                return Err(RunError::PlotName);
            },
        };
        proof {
            lemma_aheight_index(av, 1);
            lemma_aheight_index(av, 2);
        }
        let vfrom = match self.evaluate_expression(&args[1], fuel) {
            Ok(v) => v,
            Err(x) => {
                return Err(x);
            },
        };
        let from = match vfrom {
            Value::Num(n) => n,
            _ => {
                return Err(RunError::PlotFrom);
            },
        };
        let vto = match self.evaluate_expression(&args[2], fuel) {
            Ok(v) => v,
            Err(x) => {
                return Err(x);
            },
        };
        let to = match vto {
            Value::Num(n) => n,
            _ => {
                return Err(RunError::PlotTo);
            },
        };
        self.eval_plot_run(fname, from, to, fuel)
    }

    /// One plot sample: the environment is replaced by the parameter bound to
    /// the sample's abscissa, the body runs, and a numeric result is the kept
    /// point.
    #[verifier::rlimit(100)]
    fn plot_sample(
        &mut self,
        pname: &String,
        body: &Vec<Stmt>,
        from: Num,
        step: Num,
        i: u64,
        fuel_s: u64,
        Ghost(pts): Ghost<Seq<(int, int)>>,
    ) -> (r: Result<Option<(Num, Num)>, RunError>)
        requires
            i <= 200,
            fuel_s >= 1,
        ensures
            ({
                let full = ev_plot_samples(
                    old(self).st(),
                    pname@,
                    stmts_view(body@),
                    from@,
                    step@,
                    i as int,
                    pts,
                    fuel_s as nat,
                );
                match r {
                    Err(x) => full == (final(self).st(), Result::<Seq<(int, int)>, ErrV>::Err(
                        x@,
                    )),
                    Ok(kept) => full == ev_plot_samples(
                        final(self).st(),
                        pname@,
                        stmts_view(body@),
                        from@,
                        step@,
                        i as int + 1,
                        match kept {
                            Some(p) => pts.push((p.0@, p.1@)),
                            None => pts,
                        },
                        fuel_s as nat,
                    ),
                }
            }),
        decreases fuel_s, 0int, 0int,
    {
        let xi = match Num::from_u64(i) {
            Some(x) => x,
            None => {
                return Err(RunError::Overflow);
            },
        };
        let t1 = match xi.mul(step) {
            Some(t) => t,
            None => {
                return Err(RunError::Overflow);
            },
        };
        let x = match from.add(t1) {
            Some(x) => x,
            None => {
                return Err(RunError::Overflow);
            },
        };
        let mut fresh = Env::new();
        fresh.insert(pname.clone(), Value::Num(x));
        self.variables = fresh;
        let rb = self.execute_block(body, fuel_s - 1);
        match rb {
            Err(e) => Err(e),
            Ok(out) => {
                match out {
                    Some(Value::Num(y)) => Ok(Some((x, y))),
                    _ => Ok(None),
                }
            },
        }
    }

    #[verifier::rlimit(100)]
    fn eval_plot_run(&mut self, fname: String, from: Num, to: Num, fuel: u64) -> (r: Result<
        Value,
        RunError,
    >)
        ensures
            ({
                let (st2, res) = ev_plot_run(old(self).st(), fname@, from@, to@, fuel as nat);
                &&& final(self).st() == st2
                &&& match res {
                    Ok(vv) => r matches Ok(v) && value_view(v) == vv,
                    Err(ev) => r matches Err(x) && x@ == ev,
                }
            }),
        decreases fuel, 0int, 0int,
    {
        if fuel == 0 {
            return Err(RunError::StepLimit);
        }
        let fd = match self.functions.get(&fname) {
            Some(fd) => fd,
            None => {
                return Err(RunError::FuncNotFound(fname));
            },
        };
        if fd.params.len() != 1 {
            return Err(RunError::PlotParamCount(fd.params.len()));
        }
        let pname = fd.params[0].clone();
        proof {
            assert(pname@ == strings_view(fd.params@)[0]);
        }
        let diff = match to.sub(from) {
            Some(d) => d,
            None => {
                return Err(RunError::Overflow);
            },
        };
        let den = Num { neg: false, mag: 200 * SCALE };
        proof {
            assert(den@ == 200 * SCALE);
        }
        let step = match diff.div(den) {
            Some(s) => s,
            None => {
                return Err(RunError::Overflow);
            },
        };
        let saved = self.variables.clone_env();
        let ghost st_begin = self.st();
        let ghost bodyv = stmts_view(fd.body@);
        let fuel_s = fuel - 1;
        if fuel_s == 0 {
            return Err(RunError::StepLimit);
        }
        let mut pts: Vec<(Num, Num)> = Vec::new();
        proof {
            assert(points_view(pts@) =~= Seq::<(int, int)>::empty());
        }
        let mut i: u64 = 0;
        while i <= 200
            invariant
                i <= 201,
                fuel >= 1,
                fuel_s == fuel - 1,
                fuel_s >= 1,
                st_begin == old(self).st(),
                bodyv == stmts_view(fd.body@),
                pname@ == strings_view(fd.params@)[0],
                saved.view_map() == st_begin.env,
                st_begin.funcs.contains_key(fname@),
                st_begin.funcs[fname@] == func_view(fd),
                fd.params@.len() == 1,
                sum_ok(to@, -from@),
                quot_ok(to@ - from@, 200 * SCALE),
                step@ == quot_val(to@ - from@, 200 * SCALE),
                ev_plot_samples(
                    st_begin,
                    pname@,
                    bodyv,
                    from@,
                    step@,
                    0,
                    Seq::empty(),
                    fuel_s as nat,
                ) == ev_plot_samples(
                    self.st(),
                    pname@,
                    bodyv,
                    from@,
                    step@,
                    i as int,
                    points_view(pts@),
                    fuel_s as nat,
                ),
            decreases 201 - i,
        {
            let kept = match self.plot_sample(&pname, &fd.body, from, step, i, fuel_s, Ghost(
                points_view(pts@),
            )) {
                Ok(k) => k,
                Err(e) => {
                    return Err(e);
                },
            };
            if let Some(p) = kept {
                let ghost prevp = pts@;
                pts.push(p);
                proof {
                    assert(points_view(pts@) =~= points_view(prevp).push((p.0@, p.1@)));
                }
            }
            i = i + 1;
        }
        self.variables = saved;
        let plot = PlotData {
            points: pts,
            color: String::from_str("#0066cc"),
            label: fname,
            timestamp: now_millis(),
        };
        let ghost prevplots = self.plots@;
        self.plots.push(plot);
        proof {
            assert(plots_view(self.plots@) =~= plots_view(prevplots).push(
                plot_view(self.plots@.last()),
            ));
        }
        Ok(Value::Empty)
    }

    fn execute_block(&mut self, ss: &Vec<Stmt>, fuel: u64) -> (r: Result<
        Option<Value>,
        RunError,
    >)
        ensures
            ({
                let (st2, res) = ev_block(old(self).st(), stmts_view(ss@), fuel as nat);
                &&& final(self).st() == st2
                &&& match res {
                    Ok(ov) => r matches Ok(o) && (match (o, ov) {
                        (Some(v), Some(vv)) => value_view(v) == vv,
                        (None, None) => true,
                        _ => false,
                    }),
                    Err(ev) => r matches Err(x) && x@ == ev,
                }
            }),
        decreases fuel, bheight(stmts_view(ss@)), 2int,
    {
        let ghost sv = stmts_view(ss@);
        let ghost st0 = self.st();
        proof {
            lemma_stmts_view(ss@);
        }
        proof {
            assert(sv.skip(0) =~= sv);
        }
        let mut i: usize = 0;
        while i < ss.len()
            invariant
                sv == stmts_view(ss@),
                st0 == old(self).st(),
                sv.len() == ss@.len(),
                forall|k: int| 0 <= k < ss@.len() ==> sv[k] == stmt_view(ss@[k]),
                i <= ss@.len(),
                ev_block(st0, sv, fuel as nat) == ev_block(
                    self.st(),
                    sv.skip(i as int),
                    fuel as nat,
                ),
            decreases ss@.len() - i,
        {
            proof {
                assert(sv.skip(i as int)[0] == sv[i as int]);
                assert(sv.skip(i as int).drop_first() =~= sv.skip(i as int + 1));
                assert(sv.skip(i as int).len() > 0);
                lemma_bheight_index(sv, i as int);
            }
            let r0 = self.execute_statement(&ss[i], fuel);
            match r0 {
                Err(x) => {
                    return Err(x);
                },
                Ok(Some(v)) => {
                    return Ok(Some(v));
                },
                Ok(None) => {},
            }
            i = i + 1;
        }
        proof {
            assert(sv.skip(sv.len() as int) =~= Seq::<StmtV>::empty());
        }
        Ok(None)
    }

    #[verifier::rlimit(100)]
    fn execute_statement(&mut self, s: &Stmt, fuel: u64) -> (r: Result<Option<Value>, RunError>)
        ensures
            ({
                let (st2, res) = ev_stmt(old(self).st(), stmt_view(*s), fuel as nat);
                &&& final(self).st() == st2
                &&& match res {
                    Ok(ov) => r matches Ok(o) && (match (o, ov) {
                        (Some(v), Some(vv)) => value_view(v) == vv,
                        (None, None) => true,
                        _ => false,
                    }),
                    Err(ev) => r matches Err(x) && x@ == ev,
                }
            }),
        decreases fuel, sheight(stmt_view(*s)), 1int,
    {
        if fuel == 0 {
            return Err(RunError::StepLimit);
        }
        match s {
            Stmt::Let { name, init } => {
                let v = match self.evaluate_expression(init, fuel) {
                    Ok(v) => v,
                    Err(x) => {
                        return Err(x);
                    },
                };
                self.variables.insert(name.clone(), v);
                Ok(None)
            },
            Stmt::If { cond, then_branch, else_branch } => {
                let cv = match self.evaluate_expression(cond, fuel) {
                    Ok(v) => v,
                    Err(x) => {
                        return Err(x);
                    },
                };
                match cv {
                    Value::Bool(true) => self.execute_block(then_branch, fuel),
                    Value::Bool(false) => match else_branch {
                        Some(eb) => self.execute_block(eb, fuel),
                        None => Ok(None),
                    },
                    _ => Err(RunError::CondNotBool),
                }
            },
            Stmt::While { cond, body } => self.run_while(cond, body, fuel),
            Stmt::Return(e) => {
                let v = match self.evaluate_expression(e, fuel) {
                    Ok(v) => v,
                    Err(x) => {
                        return Err(x);
                    },
                };
                Ok(Some(v))
            },
            Stmt::Expr(e) => {
                match self.evaluate_expression(e, fuel) {
                    Ok(_) => Ok(None),
                    Err(x) => Err(x),
                }
            },
            Stmt::FuncDecl { name, params, body } => {
                let fd = FuncDef { params: clone_strings(params), body: clone_stmts(body) };
                self.functions.insert(name.clone(), fd);
                Ok(None)
            },
        }
    }

    /// The loop statement: the condition is read before every turn, and each
    /// turn spends one unit of the step budget.
    #[verifier::rlimit(100)]
    fn run_while(&mut self, cond: &Expr, body: &Vec<Stmt>, fuel: u64) -> (r: Result<
        Option<Value>,
        RunError,
    >)
        requires
            fuel >= 1,
        ensures
            ({
                let wv = StmtV::While { cond: expr_view(*cond), body: stmts_view(body@) };
                let (st2, res) = ev_stmt(old(self).st(), wv, fuel as nat);
                &&& final(self).st() == st2
                &&& match res {
                    Ok(ov) => r matches Ok(o) && (match (o, ov) {
                        (Some(v), Some(vv)) => value_view(v) == vv,
                        (None, None) => true,
                        _ => false,
                    }),
                    Err(ev) => r matches Err(x) && x@ == ev,
                }
            }),
        decreases fuel, sheight(
            StmtV::While { cond: expr_view(*cond), body: stmts_view(body@) },
        ), 0int,
    {
        let ghost wv = StmtV::While { cond: expr_view(*cond), body: stmts_view(body@) };
        let ghost st0 = self.st();
        let mut fuel_c = fuel;
        loop
            invariant
                wv == (StmtV::While { cond: expr_view(*cond), body: stmts_view(body@) }),
                st0 == old(self).st(),
                1 <= fuel_c <= fuel,
                ev_stmt(st0, wv, fuel as nat) == ev_stmt(self.st(), wv, fuel_c as nat),
            decreases fuel_c,
        {
            let cv = match self.evaluate_expression(cond, fuel_c) {
                Ok(v) => v,
                Err(x) => {
                    return Err(x);
                },
            };
            match cv {
                Value::Bool(false) => {
                    return Ok(None);
                },
                Value::Bool(true) => {
                    let rb = self.execute_block(body, fuel_c);
                    match rb {
                        Err(x) => {
                            return Err(x);
                        },
                        Ok(Some(v)) => {
                            return Ok(Some(v));
                        },
                        Ok(None) => {},
                    }
                },
                _ => {
                    return Err(RunError::CondNotBool);
                },
            }
            if fuel_c == 1 {
                proof {
                    reveal_with_fuel(ev_stmt, 2);
                }
                return Err(RunError::StepLimit);
            }
            fuel_c = fuel_c - 1;
        }
    }

    /// Runs the whole program against the evaluator's state; the first fault
    /// ends the run with its readable diagnostic.
    pub fn execute(&mut self, program: Program) -> (r: Result<(), String>)
        ensures
            ({
                let (st2, e) = ev_program(
                    old(self).st(),
                    program_view(program),
                    FUEL as nat,
                );
                &&& final(self).st() == st2
                &&& match e {
                    None => r is Ok,
                    Some(ev) => r matches Err(m) && m@ == err_msg(ev),
                }
            }),
    {
        let ghost pv = program_view(program);
        let ghost st0 = self.st();
        proof {
            lemma_stmts_view(program.statements@);
        }
        let ss = &program.statements;
        proof {
            assert(pv.skip(0) =~= pv);
        }
        let mut i: usize = 0;
        while i < ss.len()
            invariant
                pv == stmts_view(ss@),
                pv == program_view(program),
                st0 == old(self).st(),
                pv.len() == ss@.len(),
                forall|k: int| 0 <= k < ss@.len() ==> pv[k] == stmt_view(ss@[k]),
                i <= ss@.len(),
                ev_program(st0, pv, FUEL as nat) == ev_program(
                    self.st(),
                    pv.skip(i as int),
                    FUEL as nat,
                ),
            decreases ss@.len() - i,
        {
            proof {
                assert(pv.skip(i as int)[0] == pv[i as int]);
                assert(pv.skip(i as int).drop_first() =~= pv.skip(i as int + 1));
                assert(pv.skip(i as int).len() > 0);
            }
            let r0 = self.execute_statement(&ss[i], FUEL);
            match r0 {
                Err(x) => {
                    proof {
                        assert(ev_program(st0, pv, FUEL as nat) == (self.st(), Some(x@)));
                    }
                    return Err(x.message());
                },
                Ok(_) => {},
            }
            i = i + 1;
        }
        proof {
            assert(pv.skip(pv.len() as int) =~= Seq::<StmtV>::empty());
        }
        Ok(())
    }
}

fn math_name_exec(f: MathFn) -> (r: String)
    ensures
        r@ == math_name(f),
{
    match f {
        MathFn::Sin => String::from_str("син"),
        MathFn::Cos => String::from_str("кос"),
        MathFn::Exp => String::from_str("эксп"),
        MathFn::Log => String::from_str("лог"),
        MathFn::Sqrt => String::from_str("корень"),
    }
}

impl RunError {
    /// The fault's readable diagnostic.
    pub fn message(&self) -> (r: String)
        ensures
            r@ == err_msg(self@),
    {
        match self {
            RunError::VarNotFound(n) => {
                let mut s = String::from_str("Переменная '");
                s.append(n.as_str());
                s.append("' не найдена");
                proof {
                    assert(s@ =~= err_msg(self@));
                }
                s
            },
            RunError::DivByZero => String::from_str("Деление на ноль"),
            RunError::UnsupportedOp => String::from_str("Неподдерживаемая операция"),
            RunError::CondNotBool => String::from_str("Условие должно быть булевым"),
            RunError::Overflow => String::from_str("Переполнение числа"),
            RunError::StepLimit => String::from_str("Превышен лимит шагов выполнения"),
            RunError::PlotArgs => String::from_str("график требует: функция, от, до"),
            RunError::PlotName => String::from_str(
                "Первый аргумент должен быть именем функции",
            ),
            RunError::PlotFrom => String::from_str("Второй аргумент должен быть числом"),
            RunError::PlotTo => String::from_str("Третий аргумент должен быть числом"),
            RunError::FuncNotFound(n) => {
                let mut s = String::from_str("Функция '");
                s.append(n.as_str());
                s.append("' не найдена");
                proof {
                    assert(s@ =~= err_msg(self@));
                }
                s
            },
            RunError::PlotParamCount(k) => {
                let mut s = String::from_str(
                    "Функция для графика должна иметь 1 параметр, получено ",
                );
                push_dec(&mut s, *k as u128);
                proof {
                    assert(s@ =~= err_msg(self@));
                }
                s
            },
            RunError::ArityMismatch(n, w, g) => {
                let mut s = String::from_str("Функция '");
                s.append(n.as_str());
                s.append("' ожидает ");
                push_dec(&mut s, *w as u128);
                s.append(" аргументов, получено ");
                push_dec(&mut s, *g as u128);
                proof {
                    assert(s@ =~= err_msg(self@));
                }
                s
            },
            RunError::MathArity(f) => {
                let mut s = math_name_exec(*f);
                s.append(" ожидает 1 аргумент");
                proof {
                    assert(s@ =~= err_msg(self@));
                }
                s
            },
            RunError::MathArgNum(f) => {
                let mut s = String::from_str("Аргумент ");
                let nm = math_name_exec(*f);
                s.append(nm.as_str());
                s.append(" должен быть числом");
                proof {
                    assert(s@ =~= err_msg(self@));
                }
                s
            },
            RunError::LogDomain => String::from_str("Аргумент лог должен быть >0"),
            RunError::SqrtDomain => String::from_str("Аргумент корень должен быть >=0"),
        }
    }
}


/// A call binds nothing but the parameters: every name the fresh environment
/// holds is one of them.
pub proof fn lemma_bind_params_domain(params: Seq<Seq<char>>, vals: Seq<ValueV>, k: Seq<char>)
    ensures
        bind_params(params, vals).contains_key(k) ==> params.contains(k),
    decreases params.len(),
{
    if params.len() > 0 && vals.len() > 0 {
        lemma_bind_params_domain(params.drop_last(), vals.drop_last(), k);
        if bind_params(params, vals).contains_key(k) {
            if k == params.last() {
                assert(params[params.len() - 1] == k);
            } else {
                assert(params.drop_last().contains(k) ==> params.contains(k)) by {
                    if params.drop_last().contains(k) {
                        let i = choose|i: int|
                            0 <= i < params.drop_last().len() && params.drop_last()[i] == k;
                        assert(params[i] == k);
                    }
                }
            }
        }
    }
}

/// The isolation protocol of a user call: the body runs against a fresh
/// environment holding only the parameter bindings, and on a finished body
/// the caller's environment is restored verbatim, while output, plots and
/// declared functions carry over.
pub proof fn lemma_call_isolation(st: StateV, name: Seq<char>, vals: Seq<ValueV>, fuel: nat)
    requires
        math_of_name(name) is None,
        fuel >= 1,
        st.funcs.contains_key(name),
        st.funcs[name].params.len() == vals.len(),
    ensures
        ({
            let f = st.funcs[name];
            let entry = StateV { env: bind_params(f.params, vals), ..st };
            let (st2, rb) = ev_block(entry, f.body, (fuel - 1) as nat);
            ev_named(st, name, vals, fuel) == (match rb {
                Err(e) => (st2, Result::<ValueV, ErrV>::Err(e)),
                Ok(out) => (
                    StateV { env: st.env, ..st2 },
                    Result::<ValueV, ErrV>::Ok(
                        match out {
                            Some(v) => v,
                            None => ValueV::Empty,
                        },
                    ),
                ),
            })
        }),
{
}


/// A finished sampling run only appends: the points already gathered stay as
/// a prefix, and at most one point is kept per remaining sample. A whole run,
/// from the first sample with nothing gathered, therefore yields at most two
/// hundred and one points.
pub proof fn lemma_plot_samples_extend(
    st: StateV,
    pname: Seq<char>,
    body: Seq<StmtV>,
    from: int,
    step: int,
    i: int,
    pts: Seq<(int, int)>,
    fuel: nat,
)
    requires
        0 <= i,
    ensures
        ev_plot_samples(st, pname, body, from, step, i, pts, fuel).1 matches Ok(pts2)
            ==> pts.len() <= pts2.len() <= pts.len() + (if i <= 201 {
                201 - i
            } else {
                0int
            }) && pts2.subrange(0, pts.len() as int) == pts,
    decreases fuel, 201 - i, 0int,
{
    if i > 200 || fuel == 0 {
        match ev_plot_samples(st, pname, body, from, step, i, pts, fuel).1 {
            Ok(pts2) => {
                assert(pts2 == pts);
                assert(pts.subrange(0, pts.len() as int) =~= pts);
            },
            Err(_) => {},
        }
    } else {
        if i * SCALE <= u128::MAX && prod_ok(i * SCALE, step) && sum_ok(
            from,
            prod_val(i * SCALE, step),
        ) {
            let x = from + prod_val(i * SCALE, step);
            let st_s = StateV { env: Map::empty().insert(pname, ValueV::Num(x)), ..st };
            let (st2, rb) = ev_block(st_s, body, (fuel - 1) as nat);
            match rb {
                Err(_) => {},
                Ok(out) => {
                    let pts1 = match out {
                        Some(ValueV::Num(y)) => pts.push((x, y)),
                        _ => pts,
                    };
                    lemma_plot_samples_extend(st2, pname, body, from, step, i + 1, pts1, fuel);
                    match ev_plot_samples(st2, pname, body, from, step, i + 1, pts1, fuel).1 {
                        Err(_) => {},
                        Ok(pts2) => {
                            assert forall|k: int| 0 <= k < pts.len() implies pts2[k] == pts[k] by {
                                assert(pts2.subrange(0, pts1.len() as int)[k] == pts2[k]);
                                assert(pts1[k] == pts[k]);
                            }
                            assert(pts2.subrange(0, pts.len() as int) =~= pts);
                        },
                    }
                },
            }
        }
    }
}

} // verus!
