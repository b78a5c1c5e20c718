//! Evaluation of expressions and predicates against a symbol table.
//!
//! A function body is evaluated in a fresh scope that holds only the
//! function's own parameters: it never sees the bindings of its caller.

use crate::ast::{lemma_args_view, BinOp, Cmp, Expr, ExprV, Offsets, Pred, PredV, Span};
use crate::rational::{q_add, q_div, q_lt, q_mul, q_neg, q_rem, q_sub, same_value, Rational};
use vstd::prelude::*;

verus! {

broadcast use vstd::std_specs::vec::axiom_vec_index_decreases, vstd::seq::axiom_seq_index_decreases, vstd::seq::axiom_seq_subrange_decreases;

/// A function given by one equation: `name(argument_names...) = value_expr`.
#[derive(Debug, PartialEq, Eq)]
pub struct FuncDef {
    pub name: String,
    pub argument_names: Vec<String>,
    pub value_expr: Expr,
}

/// What a name in a [`Context`] stands for.
#[derive(Debug, PartialEq, Eq)]
pub enum SymbolValue {
    Func(FuncDef),
    Num(Rational),
}

/// A symbol table. Where a name occurs more than once, the last binding counts.
#[derive(Debug, PartialEq, Eq)]
pub struct Context(pub Vec<(String, SymbolValue)>);

/// One function application seen during an evaluation: the function's name
/// and the values of its arguments.
#[derive(Clone, Debug, PartialEq, Eq)]
pub struct FunctionCall {
    pub name: String,
    pub args: Vec<Rational>,
}

#[derive(Debug, PartialEq, Eq)]
pub enum EvalError {
    UnknownVariable(Span<String>),
    UnknownFunction(Span<String>),
    NotAVariable(Span<String>),
    NotAFunction(Span<String>),
    /// A call with the wrong number of arguments: the called name, the
    /// offsets of its argument list, and the two counts.
    Arity { function: Span<String>, arglist: (usize, usize), expected: usize, actual: usize },
    DivisionByZero(Span<BinOp>),
}

/// The mathematical content of a [`FuncDef`].
pub struct FuncDefV {
    pub name: Seq<char>,
    pub params: Seq<Seq<char>>,
    pub body: ExprV,
}

/// The mathematical content of a [`SymbolValue`].
pub enum SymV {
    Func(FuncDefV),
    Num((int, int)),
}

/// The mathematical content of an [`EvalError`].
pub enum Failure {
    UnknownVariable(Seq<char>, Offsets),
    UnknownFunction(Seq<char>, Offsets),
    NotAVariable(Seq<char>, Offsets),
    NotAFunction(Seq<char>, Offsets),
    Arity(Seq<char>, Offsets, Offsets, nat, nat),
    DivisionByZero(BinOp, Offsets),
}

/// A symbol table as a sequence of bindings.
pub type Scope = Seq<(Seq<char>, SymV)>;

/// The function applications of an evaluation, in order: name and argument values.
pub type Trace = Seq<(Seq<char>, Seq<(int, int)>)>;

/// The characters of each name.
pub open spec fn names_view(v: Seq<String>) -> Seq<Seq<char>> {
    v.map_values(|s: String| s@)
}

impl View for FuncDef {
    type V = FuncDefV;

    open spec fn view(&self) -> FuncDefV {
        FuncDefV {
            name: self.name@,
            params: names_view(self.argument_names@),
            body: self.value_expr@,
        }
    }
}

impl View for SymbolValue {
    type V = SymV;

    open spec fn view(&self) -> SymV {
        match self {
            SymbolValue::Func(f) => SymV::Func(f@),
            SymbolValue::Num(n) => SymV::Num(n@),
        }
    }
}

impl View for Context {
    type V = Scope;

    open spec fn view(&self) -> Scope {
        self.0@.map_values(|b: (String, SymbolValue)| (b.0@, b.1@))
    }
}

impl View for FunctionCall {
    type V = (Seq<char>, Seq<(int, int)>);

    open spec fn view(&self) -> (Seq<char>, Seq<(int, int)>) {
        (self.name@, self.args@.map_values(|a: Rational| a@))
    }
}

impl View for EvalError {
    type V = Failure;

    open spec fn view(&self) -> Failure {
        match self {
            EvalError::UnknownVariable(n) => Failure::UnknownVariable(n.0@, n.1),
            EvalError::UnknownFunction(n) => Failure::UnknownFunction(n.0@, n.1),
            EvalError::NotAVariable(n) => Failure::NotAVariable(n.0@, n.1),
            EvalError::NotAFunction(n) => Failure::NotAFunction(n.0@, n.1),
            EvalError::Arity { function, arglist, expected, actual } => Failure::Arity(
                function.0@,
                function.1,
                *arglist,
                *expected as nat,
                *actual as nat,
            ),
            EvalError::DivisionByZero(op) => Failure::DivisionByZero(op.0, op.1),
        }
    }
}

/// The trace recorded in a log of calls.
pub open spec fn trace_of(calls: Seq<FunctionCall>) -> Trace {
    calls.map_values(|c: FunctionCall| c@)
}

/// The mathematical content of an evaluation's result.
pub open spec fn value_of(r: Result<Rational, EvalError>) -> Result<(int, int), Failure> {
    match r {
        Ok(v) => Ok(v@),
        Err(e) => Err(e@),
    }
}

/// `i` is the last binding of `name` in `s`.
pub open spec fn last_binding(s: Scope, name: Seq<char>, i: int) -> bool {
    &&& 0 <= i < s.len()
    &&& s[i].0 == name
    &&& forall|j: int| i < j < s.len() ==> s[j].0 != name
}

/// What `name` stands for in `s`: its last binding, if any.
pub open spec fn lookup(s: Scope, name: Seq<char>) -> Option<SymV> {
    if exists|i: int| last_binding(s, name, i) {
        Some(s[choose|i: int| last_binding(s, name, i)].1)
    } else {
        None
    }
}

pub open spec fn has_function(s: Scope) -> bool {
    exists|i: int| 0 <= i < s.len() && s[i].1 is Func
}

/// Scopes that hold a function rank above scopes of plain numbers; a
/// function body is evaluated in a scope of plain numbers.
pub open spec fn scope_rank(s: Scope) -> nat {
    if has_function(s) {
        1
    } else {
        0
    }
}

/// No name is bound twice.
pub open spec fn keys_unique(s: Scope) -> bool {
    forall|i: int, j: int| 0 <= i < j < s.len() ==> (#[trigger] s[i]).0 != (#[trigger] s[j]).0
}

/// `s` with `name` bound to `v`: its binding replaced in place, or a new
/// binding added at the end.
pub open spec fn bind(s: Scope, name: Seq<char>, v: SymV) -> Scope {
    if exists|i: int| 0 <= i < s.len() && s[i].0 == name {
        s.update(choose|i: int| 0 <= i < s.len() && s[i].0 == name, (name, v))
    } else {
        s.push((name, v))
    }
}

/// The scope of a function body: the parameters bound in order to the
/// arguments' values, so that of two equal names the later counts.
pub open spec fn param_scope(params: Seq<Seq<char>>, values: Seq<(int, int)>) -> Scope
    decreases params.len(),
{
    if params.len() == 0 {
        seq![]
    } else {
        bind(
            param_scope(params.subrange(0, params.len() - 1), values),
            params[params.len() - 1],
            SymV::Num(values[params.len() - 1]),
        )
    }
}

/// Binding a number in a scope of numbers leaves a scope of numbers.
pub proof fn lemma_bind_numbers(s: Scope, name: Seq<char>, v: (int, int))
    requires
        forall|i: int| 0 <= i < s.len() ==> (#[trigger] s[i]).1 is Num,
    ensures
        forall|i: int| 0 <= i < bind(s, name, SymV::Num(v)).len() ==> (#[trigger] bind(s, name, SymV::Num(v))[i]).1 is Num,
{
}

/// A function body's scope binds numbers only.
pub proof fn lemma_param_scope_numbers(params: Seq<Seq<char>>, values: Seq<(int, int)>)
    ensures
        !has_function(param_scope(params, values)),
        forall|i: int| 0 <= i < param_scope(params, values).len() ==> (#[trigger] param_scope(params, values)[i]).1 is Num,
    decreases params.len(),
{
    if params.len() > 0 {
        let front = params.subrange(0, params.len() - 1);
        lemma_param_scope_numbers(front, values);
        lemma_bind_numbers(param_scope(front, values), params[params.len() - 1], values[params.len() - 1]);
    }
}

/// The result of a binary operator on two values.
pub open spec fn apply_op(op: BinOp, op_span: Offsets, a: (int, int), b: (int, int)) -> Result<
    (int, int),
    Failure,
> {
    match op {
        BinOp::Add => Ok(q_add(a, b)),
        BinOp::Sub => Ok(q_sub(a, b)),
        BinOp::Mul => Ok(q_mul(a, b)),
        BinOp::Div => if b.0 == 0 {
            Err(Failure::DivisionByZero(op, op_span))
        } else {
            Ok(q_div(a, b))
        },
        BinOp::Mod => if b.0 == 0 {
            Err(Failure::DivisionByZero(op, op_span))
        } else {
            Ok(q_rem(a, b))
        },
    }
}

/// Whether a comparison holds between two values.
pub open spec fn compare(op: Cmp, a: (int, int), b: (int, int)) -> bool {
    match op {
        Cmp::Eq => same_value(a, b),
        Cmp::Lt => q_lt(a, b),
        Cmp::Le => !q_lt(b, a),
        Cmp::Gt => q_lt(b, a),
        Cmp::Ge => !q_lt(a, b),
    }
}

/// The value of an expression in a scope, or the first failure, together with
/// the function applications made on the way.
pub open spec fn eval_expr(e: ExprV, s: Scope) -> (Result<(int, int), Failure>, Trace)
    decreases scope_rank(s), e,
{
    match e {
        ExprV::Func(name, sp, args, list_at) => match lookup(s, name) {
            None => (Err(Failure::UnknownFunction(name, sp)), seq![]),
            Some(SymV::Num(_)) => (Err(Failure::NotAFunction(name, sp)), seq![]),
            Some(SymV::Func(f)) => if f.params.len() != args.len() {
                (Err(Failure::Arity(name, sp, list_at, f.params.len(), args.len())), seq![])
            } else {
                let (ra, t1) = eval_args(args, s);
                match ra {
                    Err(x) => (Err(x), t1),
                    Ok(vs) => {
                        proof {
                            lemma_param_scope_numbers(f.params, vs);
                        }
                        let (rb, t2) = eval_expr(f.body, param_scope(f.params, vs));
                        (rb, t1.push((name, vs)) + t2)
                    },
                }
            },
        },
        ExprV::Ident(name, sp) => match lookup(s, name) {
            None => (Err(Failure::UnknownVariable(name, sp)), seq![]),
            Some(SymV::Func(_)) => (Err(Failure::NotAVariable(name, sp)), seq![]),
            Some(SymV::Num(v)) => (Ok(v), seq![]),
        },
        ExprV::If(c, t, f) => {
            let (rc, t1) = eval_pred(c.0, s);
            match rc {
                Err(x) => (Err(x), t1),
                Ok(b) => if b {
                    let (r, t2) = eval_expr(t.0, s);
                    (r, t1 + t2)
                } else {
                    let (r, t2) = eval_expr(f.0, s);
                    (r, t1 + t2)
                },
            }
        },
        ExprV::BinOp(l, op, op_span, r) => {
            let (rl, t1) = eval_expr(l.0, s);
            match rl {
                Err(x) => (Err(x), t1),
                Ok(a) => {
                    let (rr, t2) = eval_expr(r.0, s);
                    match rr {
                        Err(x) => (Err(x), t1 + t2),
                        Ok(b) => (apply_op(op, op_span, a, b), t1 + t2),
                    }
                },
            }
        },
        ExprV::Neg(x) => {
            let (r, t) = eval_expr(x.0, s);
            match r {
                Err(f) => (Err(f), t),
                Ok(v) => (Ok(q_neg(v)), t),
            }
        },
        ExprV::Num(n, _) => (Ok((n as int, 1int)), seq![]),
    }
}

/// The values of argument expressions, left to right, stopping at the first failure.
pub open spec fn eval_args(args: Seq<(ExprV, Offsets)>, s: Scope) -> (
    Result<Seq<(int, int)>, Failure>,
    Trace,
)
    decreases scope_rank(s), args,
{
    if args.len() == 0 {
        (Ok(seq![]), seq![])
    } else {
        let (front, t1) = eval_args(args.subrange(0, args.len() - 1), s);
        match front {
            Err(x) => (Err(x), t1),
            Ok(vs) => {
                let (r, t2) = eval_expr(args[args.len() - 1].0, s);
                match r {
                    Err(x) => (Err(x), t1 + t2),
                    Ok(v) => (Ok(vs.push(v)), t1 + t2),
                }
            },
        }
    }
}

/// Whether a predicate holds in a scope, or the first failure, together with
/// the function applications made on the way.
pub open spec fn eval_pred(p: PredV, s: Scope) -> (Result<bool, Failure>, Trace)
    decreases scope_rank(s), p,
{
    match p {
        PredV::Cmp(l, op, _, r) => {
            let (rl, t1) = eval_expr(l.0, s);
            match rl {
                Err(x) => (Err(x), t1),
                Ok(a) => {
                    let (rr, t2) = eval_expr(r.0, s);
                    match rr {
                        Err(x) => (Err(x), t1 + t2),
                        Ok(b) => (Ok(compare(op, a, b)), t1 + t2),
                    }
                },
            }
        },
    }
}

proof fn lemma_lookup_last(s: Scope, name: Seq<char>, i: int)
    requires
        last_binding(s, name, i),
    ensures
        lookup(s, name) == Some(s[i].1),
{
    let j = choose|j: int| last_binding(s, name, j);
    assert(last_binding(s, name, j));
    if j < i {
        assert(s[i].0 != name);
    } else if i < j {
        assert(s[j].0 != name);
    }
}

/// In a scope without repeated names, a binding of `name` is the only one.
proof fn lemma_unique_index(s: Scope, name: Seq<char>, i: int)
    requires
        keys_unique(s),
        0 <= i < s.len(),
        s[i].0 == name,
    ensures
        (choose|j: int| 0 <= j < s.len() && s[j].0 == name) == i,
{
    let j = choose|j: int| 0 <= j < s.len() && s[j].0 == name;
    assert(0 <= j < s.len() && s[j].0 == name);
    if j < i {
        assert(s[j].0 != s[i].0);
    } else if i < j {
        assert(s[i].0 != s[j].0);
    }
}

/// A name without a last binding has no binding at all, in a scope without
/// repeated names.
proof fn lemma_absent(s: Scope, name: Seq<char>)
    requires
        keys_unique(s),
        lookup(s, name) is None,
    ensures
        !exists|i: int| 0 <= i < s.len() && s[i].0 == name,
{
    if exists|i: int| 0 <= i < s.len() && s[i].0 == name {
        let i = choose|i: int| 0 <= i < s.len() && s[i].0 == name;
        assert forall|j: int| i < j < s.len() implies s[j].0 != name by {
            assert(s[i].0 != s[j].0);
        }
        assert(last_binding(s, name, i));
    }
}

/// Replacing the value at `i` keeps every other name's meaning.
proof fn lemma_lookup_same_names(s: Scope, t: Scope, n: Seq<char>, i: int)
    requires
        s.len() == t.len(),
        0 <= i < s.len(),
        s[i].0 != n,
        forall|k: int| 0 <= k < s.len() ==> #[trigger] t[k].0 == s[k].0,
        forall|k: int| 0 <= k < s.len() && k != i ==> #[trigger] t[k] == s[k],
    ensures
        lookup(t, n) == lookup(s, n),
{
    if exists|k: int| last_binding(s, n, k) {
        let k = choose|k: int| last_binding(s, n, k);
        assert(last_binding(s, n, k));
        assert(t[k].0 == s[k].0);
        assert forall|j: int| k < j < t.len() implies t[j].0 != n by {
            assert(t[j].0 == s[j].0);
        }
        assert(last_binding(t, n, k));
        lemma_lookup_last(s, n, k);
        lemma_lookup_last(t, n, k);
    } else {
        assert forall|k: int| !last_binding(t, n, k) by {
            if last_binding(t, n, k) {
                assert(t[k].0 == s[k].0);
                assert forall|j: int| k < j < s.len() implies s[j].0 != n by {
                    assert(t[j].0 == s[j].0);
                }
                assert(last_binding(s, n, k));
            }
        }
    }
}

proof fn lemma_lookup_push_other(s: Scope, name: Seq<char>, v: SymV, n: Seq<char>)
    requires
        n != name,
    ensures
        lookup(s.push((name, v)), n) == lookup(s, n),
{
    let t = s.push((name, v));
    if exists|i: int| last_binding(s, n, i) {
        let i = choose|i: int| last_binding(s, n, i);
        lemma_lookup_last(s, n, i);
        assert(last_binding(t, n, i));
        lemma_lookup_last(t, n, i);
    } else {
        assert forall|i: int| !last_binding(t, n, i) by {
            if last_binding(t, n, i) {
                assert(i < s.len());
                assert forall|j: int| i < j < s.len() implies s[j].0 != n by {
                    assert(t[j] == s[j]);
                }
                assert(last_binding(s, n, i));
            }
        }
    }
}

proof fn lemma_args_failure_stays(av: Seq<(ExprV, Offsets)>, s: Scope, k: int, n: int)
    requires
        0 <= k <= n <= av.len(),
        eval_args(av.subrange(0, k), s).0 is Err,
    ensures
        eval_args(av.subrange(0, n), s) == eval_args(av.subrange(0, k), s),
    decreases n - k,
{
    if n > k {
        lemma_args_failure_stays(av, s, k, n - 1);
        assert(av.subrange(0, n).subrange(0, n - 1) =~= av.subrange(0, n - 1));
    }
}

proof fn lemma_trace_push(calls: Seq<FunctionCall>, c: FunctionCall)
    ensures
        trace_of(calls.push(c)) == trace_of(calls).push(c@),
{
    assert(trace_of(calls.push(c)) =~= trace_of(calls).push(c@));
}

impl SymbolValue {
    pub open spec fn wf(&self) -> bool {
        self is Num ==> self->Num_0.wf()
    }
}

impl Context {
    /// No name is bound twice, and every number bound is in lowest terms.
    pub open spec fn wf(&self) -> bool {
        &&& keys_unique(self@)
        &&& forall|i: int| 0 <= i < self.0.len() ==> (#[trigger] self.0[i]).1.wf()
    }

    /// An empty table.
    pub fn new() -> (r: Context)
        ensures
            r.wf(),
            r@ == Seq::<(Seq<char>, SymV)>::empty(),
    {
        let r = Context(Vec::new());
        assert(r@ =~= Seq::<(Seq<char>, SymV)>::empty());
        r
    }

    /// Binds `name` to `value`, replacing what it stood for before.
    pub fn insert(&mut self, name: String, value: SymbolValue)
        requires
            old(self).wf(),
            value.wf(),
        ensures
            final(self).wf(),
            final(self)@ == bind(old(self)@, name@, value@),
            lookup(final(self)@, name@) == Some(value@),
            forall|n: Seq<char>| n != name@ ==> #[trigger] lookup(final(self)@, n) == lookup(old(self)@, n),
    {
        let ghost n = name@;
        let ghost v = value@;
        let ghost s0 = self@;
        match self.find(&name) {
            Some(i) => {
                proof {
                    lemma_unique_index(s0, n, i as int);
                }
                self.0.set(i, (name, value));
                proof {
                    assert(self@ =~= s0.update(i as int, (n, v)));
                    assert forall|k: int| 0 <= k < self@.len() implies #[trigger] self@[k].0 == s0[k].0 by {}
                    assert(last_binding(self@, n, i as int));
                    lemma_lookup_last(self@, n, i as int);
                    assert forall|m: Seq<char>| m != n implies #[trigger] lookup(self@, m) == lookup(s0, m) by {
                        lemma_lookup_same_names(s0, self@, m, i as int);
                    }
                }
            },
            None => {
                proof {
                    lemma_absent(s0, n);
                }
                self.0.push((name, value));
                proof {
                    assert(self@ =~= s0.push((n, v)));
                    lemma_lookup_last(self@, n, self@.len() - 1);
                    assert forall|m: Seq<char>| m != n implies #[trigger] lookup(self@, m) == lookup(s0, m) by {
                        lemma_lookup_push_other(s0, n, v, m);
                    }
                }
            },
        }
    }

    /// The index of the last binding of `name`.
    fn find(&self, name: &String) -> (r: Option<usize>)
        ensures
            match r {
                Some(i) => i < self.0.len() && last_binding(self@, name@, i as int) && lookup(self@, name@)
                    == Some(self@[i as int].1),
                None => lookup(self@, name@) is None,
            },
    {
        let mut j: usize = self.0.len();
        while j > 0
            invariant
                j <= self.0.len(),
                forall|k: int| j <= k < self.0.len() ==> self@[k].0 != name@,
            decreases j,
        {
            j -= 1;
            if self.0[j].0 == *name {
                proof {
                    lemma_lookup_last(self@, name@, j as int);
                }
                return Some(j);
            }
            assert(self@[j as int].0 != name@);
        }
        assert(!exists|i: int| last_binding(self@, name@, i));
        None
    }

    /// The number that `name` stands for.
    pub fn get_variable(&self, name: &Span<String>) -> (r: Result<&Rational, EvalError>)
        requires
            self.wf(),
        ensures
            match lookup(self@, name.0@) {
                None => r is Err && r->Err_0@ == Failure::UnknownVariable(name.0@, name.1),
                Some(SymV::Func(_)) => r is Err && r->Err_0@ == Failure::NotAVariable(name.0@, name.1),
                Some(SymV::Num(v)) => r is Ok && r->Ok_0@ == v && r->Ok_0.wf(),
            },
    {
        match self.find(&name.0) {
            None => Err(EvalError::UnknownVariable(Span(name.0.clone(), name.1))),
            Some(i) => {
                assert(self.0[i as int].1.wf());
                match &self.0[i].1 {
                    SymbolValue::Num(n) => Ok(n),
                    SymbolValue::Func(_) => Err(EvalError::NotAVariable(Span(name.0.clone(), name.1))),
                }
            },
        }
    }

    /// The function that `name` stands for.
    pub fn get_function(&self, name: &Span<String>) -> (r: Result<&FuncDef, EvalError>)
        ensures
            match lookup(self@, name.0@) {
                None => r is Err && r->Err_0@ == Failure::UnknownFunction(name.0@, name.1),
                Some(SymV::Num(_)) => r is Err && r->Err_0@ == Failure::NotAFunction(name.0@, name.1),
                Some(SymV::Func(f)) => r is Ok && r->Ok_0@ == f,
            },
    {
        match self.find(&name.0) {
            None => Err(EvalError::UnknownFunction(Span(name.0.clone(), name.1))),
            Some(i) => match &self.0[i].1 {
                SymbolValue::Func(f) => Ok(f),
                SymbolValue::Num(_) => Err(EvalError::NotAFunction(Span(name.0.clone(), name.1))),
            },
        }
    }
}

/// Applying a definition through the evaluator, with arguments that evaluate
/// to the values `values`, gives what evaluating its body directly gives in a
/// scope that binds each parameter to its value; the application itself is
/// recorded once, after the arguments' own applications and before the body's.
pub proof fn lemma_apply_definition(
    f: FuncDefV,
    s: Scope,
    at: Offsets,
    args: Seq<(ExprV, Offsets)>,
    list_at: Offsets,
    values: Seq<(int, int)>,
)
    requires
        lookup(s, f.name) == Some(SymV::Func(f)),
        args.len() == f.params.len(),
        eval_args(args, s).0 == Ok::<Seq<(int, int)>, Failure>(values),
    ensures
        eval_expr(ExprV::Func(f.name, at, args, list_at), s).0 == eval_expr(
            f.body,
            param_scope(f.params, values),
        ).0,
        eval_expr(ExprV::Func(f.name, at, args, list_at), s).1 == eval_args(args, s).1.push((f.name, values))
            + eval_expr(f.body, param_scope(f.params, values)).1,
{
}

/// Only the selected branch of a conditional is evaluated: two conditionals
/// that differ only in the branch not taken give the same result and record
/// the same applications, even where that branch would fail.
pub proof fn lemma_unselected_branch_ignored(
    cond: (PredV, Offsets),
    then1: (ExprV, Offsets),
    else1: (ExprV, Offsets),
    then2: (ExprV, Offsets),
    else2: (ExprV, Offsets),
    s: Scope,
)
    requires
        eval_pred(cond.0, s).0 == Ok::<bool, Failure>(true) ==> then1 == then2,
        eval_pred(cond.0, s).0 == Ok::<bool, Failure>(false) ==> else1 == else2,
    ensures
        eval_expr(ExprV::If(Box::new(cond), Box::new(then1), Box::new(else1)), s) == eval_expr(
            ExprV::If(Box::new(cond), Box::new(then2), Box::new(else2)),
            s,
        ),
{
}

/// A function body sees only its parameters: in two scopes that bind the
/// function's name to the same definition and in which the arguments evaluate
/// alike, a call gives the same result and records the same applications,
/// whatever else either scope binds.
pub proof fn lemma_call_ignores_caller_scope(
    name: Seq<char>,
    at: Offsets,
    args: Seq<(ExprV, Offsets)>,
    list_at: Offsets,
    s1: Scope,
    s2: Scope,
)
    requires
        lookup(s1, name) is Some,
        lookup(s1, name)->0 is Func,
        lookup(s2, name) == lookup(s1, name),
        eval_args(args, s1) == eval_args(args, s2),
    ensures
        eval_expr(ExprV::Func(name, at, args, list_at), s1) == eval_expr(
            ExprV::Func(name, at, args, list_at),
            s2,
        ),
{
}

/// The number of arguments is checked before any of them is evaluated: a call
/// with the wrong number fails with an arity error and records nothing.
pub proof fn lemma_arity_checked_first(
    name: Seq<char>,
    at: Offsets,
    args: Seq<(ExprV, Offsets)>,
    list_at: Offsets,
    s: Scope,
    f: FuncDefV,
)
    requires
        lookup(s, name) == Some(SymV::Func(f)),
        f.params.len() != args.len(),
    ensures
        eval_expr(ExprV::Func(name, at, args, list_at), s) == (
            Err::<(int, int), Failure>(
                Failure::Arity(name, at, list_at, f.params.len(), args.len()),
            ),
            Seq::<(Seq<char>, Seq<(int, int)>)>::empty(),
        ),
{
}

proof fn lemma_concat_assoc(a: Trace, b: Trace, c: Trace)
    ensures
        (a + b) + c == a + (b + c),
{
    assert((a + b) + c =~= a + (b + c));
}

impl Expr {
    /// Evaluates the expression in `ctx`. Each function application is
    /// appended to `calls` once its arguments are known and before its body
    /// is evaluated.
    pub fn evaluate(&self, ctx: &Context, calls: &mut Vec<FunctionCall>) -> (r: Result<
        Rational,
        EvalError,
    >)
        requires
            ctx.wf(),
        ensures
            value_of(r) == eval_expr(self@, ctx@).0,
            trace_of(final(calls)@) == trace_of(old(calls)@) + eval_expr(self@, ctx@).1,
            r is Ok ==> r->Ok_0.wf(),
        decreases scope_rank(ctx@), self,
    {
        let ghost t0 = trace_of(calls@);
        match self {
            Expr::Func(id, arglist) => {
                let args = &arglist.0;
                let func = match ctx.get_function(id) {
                    Ok(f) => f,
                    Err(e) => {
                        assert(trace_of(calls@) =~= t0 + seq![]);
                        return Err(e);
                    },
                };
                let ghost fv = func@;
                let ghost av = match self@ {
                    ExprV::Func(_, _, a, _) => a,
                    _ => arbitrary(),
                };
                proof {
                    lemma_args_view(args@);
                }
                if func.argument_names.len() != args.len() {
                    assert(trace_of(calls@) =~= t0 + seq![]);
                    return Err(
                        EvalError::Arity {
                            function: Span(id.0.clone(), id.1),
                            arglist: arglist.1,
                            expected: func.argument_names.len(),
                            actual: args.len(),
                        },
                    );
                }
                proof {
                    let k = choose|k: int| last_binding(ctx@, id.0@, k);
                    assert(last_binding(ctx@, id.0@, k));
                    assert(ctx@[k].1 is Func);
                    assert(has_function(ctx@));
                }
                let mut values: Vec<Rational> = Vec::new();
                let mut i: usize = 0;
                assert(av.subrange(0, 0) =~= Seq::<(ExprV, Offsets)>::empty());
                assert(values@.map_values(|v: Rational| v@) =~= Seq::<(int, int)>::empty());
                while i < args.len()
                    invariant
                        i <= args.len(),
                        values.len() == i,
                        t0 == trace_of(old(calls)@),
                        ctx.wf(),
                        *self == Expr::Func(*id, *arglist),
                        *args == arglist.0,
                        self@ == ExprV::Func(id.0@, id.1, av, arglist.1),
                        lookup(ctx@, id.0@) == Some(SymV::Func(func@)),
                        func.argument_names.len() == args.len(),
                        av.len() == args.len(),
                        forall|k: int|
                            0 <= k < args.len() ==> #[trigger] av[k] == (args[k].0@, args[k].1),
                        eval_args(av.subrange(0, i as int), ctx@).0 == Ok::<Seq<(int, int)>, Failure>(
                            values@.map_values(|v: Rational| v@),
                        ),
                        trace_of(calls@) == t0 + eval_args(av.subrange(0, i as int), ctx@).1,
                        forall|k: int| 0 <= k < values.len() ==> (#[trigger] values[k]).wf(),
                    decreases args.len() - i,
                {
                    let ghost prev = av.subrange(0, i as int);
                    let ghost cur = av.subrange(0, i as int + 1);
                    assert(cur.subrange(0, cur.len() - 1) =~= prev);
                    assert(cur[cur.len() - 1] == av[i as int]);
                    let r = args[i].0.evaluate(ctx, calls);
                    proof {
                        lemma_concat_assoc(t0, eval_args(prev, ctx@).1, eval_expr(av[i as int].0, ctx@).1);
                    }
                    match r {
                        Ok(v) => {
                            let ghost vs = values@.map_values(|v: Rational| v@);
                            values.push(v);
                            assert(values@.map_values(|v: Rational| v@) =~= vs.push(v@));
                        },
                        Err(e) => {
                            proof {
                                lemma_args_failure_stays(av, ctx@, i + 1, av.len() as int);
                                assert(av.subrange(0, av.len() as int) =~= av);
                            }
                            return Err(e);
                        },
                    }
                    i += 1;
                }
                assert(av.subrange(0, av.len() as int) =~= av);
                let ghost vs = values@.map_values(|v: Rational| v@);
                let ghost t1 = trace_of(calls@);
                let mut scope = Context::new();
                let mut j: usize = 0;
                assert(fv.params.subrange(0, 0) =~= Seq::<Seq<char>>::empty());
                while j < func.argument_names.len()
                    invariant
                        j <= func.argument_names.len(),
                        func.argument_names.len() == values.len(),
                        fv == func@,
                        vs == values@.map_values(|v: Rational| v@),
                        forall|k: int| 0 <= k < values.len() ==> (#[trigger] values[k]).wf(),
                        scope.wf(),
                        scope@ == param_scope(fv.params.subrange(0, j as int), vs),
                    decreases func.argument_names.len() - j,
                {
                    let value = values[j].duplicate();
                    let ghost front = fv.params.subrange(0, j as int);
                    let ghost cur = fv.params.subrange(0, j as int + 1);
                    assert(cur.subrange(0, cur.len() - 1) =~= front);
                    scope.insert(func.argument_names[j].clone(), SymbolValue::Num(value));
                    j += 1;
                }
                assert(fv.params.subrange(0, fv.params.len() as int) =~= fv.params);
                proof {
                    lemma_param_scope_numbers(fv.params, vs);
                }
                let call = FunctionCall { name: id.0.clone(), args: values };
                proof {
                    lemma_trace_push(calls@, call);
                }
                calls.push(call);
                let r = func.value_expr.evaluate(&scope, calls);
                proof {
                    assert(t1 =~= t0 + eval_args(av, ctx@).1);
                    assert(t1.push((id.0@, vs)) =~= t0 + eval_args(av, ctx@).1.push((id.0@, vs)));
                    assert(trace_of(calls@) =~= t0 + (eval_args(av, ctx@).1.push((id.0@, vs)) + eval_expr(fv.body, scope@).1));
                }
                r
            },
            Expr::Ident(id) => {
                assert(trace_of(calls@) =~= t0 + seq![]);
                match ctx.get_variable(id) {
                    Ok(v) => Ok(v.duplicate()),
                    Err(e) => Err(e),
                }
            },
            Expr::If(cond, then, otherwise) => {
                let c = cond.0.evaluate(ctx, calls);
                match c {
                    Err(e) => Err(e),
                    Ok(b) => {
                        if b {
                            let r = then.0.evaluate(ctx, calls);
                            proof {
                                lemma_concat_assoc(t0, eval_pred(cond.0@, ctx@).1, eval_expr(then.0@, ctx@).1);
                            }
                            r
                        } else {
                            let r = otherwise.0.evaluate(ctx, calls);
                            proof {
                                lemma_concat_assoc(t0, eval_pred(cond.0@, ctx@).1, eval_expr(otherwise.0@, ctx@).1);
                            }
                            r
                        }
                    },
                }
            },
            Expr::BinOp(lhs, op, rhs) => {
                let a = match lhs.0.evaluate(ctx, calls) {
                    Ok(a) => a,
                    Err(e) => return Err(e),
                };
                let b = rhs.0.evaluate(ctx, calls);
                proof {
                    lemma_concat_assoc(t0, eval_expr(lhs.0@, ctx@).1, eval_expr(rhs.0@, ctx@).1);
                }
                let b = match b {
                    Ok(b) => b,
                    Err(e) => return Err(e),
                };
                match op.0 {
                    BinOp::Add => Ok(a.add(&b)),
                    BinOp::Sub => Ok(a.sub(&b)),
                    BinOp::Mul => Ok(a.mul(&b)),
                    BinOp::Div => if b.is_zero() {
                        Err(EvalError::DivisionByZero(Span(op.0, op.1)))
                    } else {
                        Ok(a.div(&b))
                    },
                    BinOp::Mod => if b.is_zero() {
                        Err(EvalError::DivisionByZero(Span(op.0, op.1)))
                    } else {
                        Ok(a.rem(&b))
                    },
                }
            },
            Expr::Neg(e) => match e.0.evaluate(ctx, calls) {
                Ok(v) => Ok(v.neg()),
                Err(x) => Err(x),
            },
            Expr::Num(n) => {
                assert(trace_of(calls@) =~= t0 + seq![]);
                Ok(Rational::from_natural(&n.0))
            },
        }
    }
}

impl Pred {
    /// Decides the comparison in `ctx`, evaluating the left side first.
    pub fn evaluate(&self, ctx: &Context, calls: &mut Vec<FunctionCall>) -> (r: Result<bool, EvalError>)
        requires
            ctx.wf(),
        ensures
            match r {
                Ok(b) => eval_pred(self@, ctx@).0 == Ok::<bool, Failure>(b),
                Err(e) => eval_pred(self@, ctx@).0 == Err::<bool, Failure>(e@),
            },
            trace_of(final(calls)@) == trace_of(old(calls)@) + eval_pred(self@, ctx@).1,
        decreases scope_rank(ctx@), self,
    {
        let ghost t0 = trace_of(calls@);
        match self {
            Pred::Cmp(lhs, op, rhs) => {
                let a = match lhs.0.evaluate(ctx, calls) {
                    Ok(a) => a,
                    Err(e) => return Err(e),
                };
                let b = rhs.0.evaluate(ctx, calls);
                proof {
                    lemma_concat_assoc(t0, eval_expr(lhs.0@, ctx@).1, eval_expr(rhs.0@, ctx@).1);
                }
                let b = match b {
                    Ok(b) => b,
                    Err(e) => return Err(e),
                };
                let (less, equal, greater) = match a.compare(&b) {
                    core::cmp::Ordering::Less => (true, false, false),
                    core::cmp::Ordering::Equal => (false, true, false),
                    core::cmp::Ordering::Greater => (false, false, true),
                };
                Ok(
                    match op.0 {
                        Cmp::Eq => equal,
                        Cmp::Lt => less,
                        Cmp::Le => !greater,
                        Cmp::Gt => greater,
                        Cmp::Ge => !less,
                    },
                )
            },
        }
    }
}

} // verus!
