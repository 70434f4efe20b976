use vstd::prelude::*;

use crate::ast::{App, Atom, NamedVar, Tuple, Value, Var};
use crate::numeric::{NumV, Numeric};
use crate::ast::{num_compiled, tail_compiled, value_compiled, values_compiled, CtxV};
use crate::term::{values_view, ListV, TailV, ValueV};
use crate::var::VarV;

verus! {

/// Whether `w` writes variable `x`: a formal variable by its name, an automatic one as `_`.
pub open spec fn var_written(w: Var, x: VarV) -> bool {
    match x {
        VarV::Formal(n) => w matches Var::Named(m) && m.0@ == n,
        VarV::Auto(_) => w is Anon,
    }
}

/// Whether `w` writes the numeric expression `n`.
pub open spec fn num_written(w: Value, n: NumV) -> bool
    decreases n,
{
    match n {
        NumV::Var(x) => w matches Value::Var(y) && var_written(y, x),
        NumV::Int(i) => w == Value::Int(i),
        NumV::Unop(o, a) => w matches Value::Unop(p, b) && p == o && num_written(*b, *a),
        NumV::Binop(o, a, b) => w matches Value::Binop(p, c, d) && p == o && num_written(*c, *a)
            && num_written(*d, *b),
    }
}

/// Whether `w` writes the value `v`.
pub open spec fn value_written(w: Value, v: ValueV) -> bool
    decreases v,
{
    match v {
        ValueV::Var(x) => w matches Value::Var(y) && var_written(y, x),
        ValueV::Atom(a) => w matches Value::Atom(b) && b.0@ == a,
        ValueV::Numeric(n) => num_written(w, n),
        ValueV::Tuple(ts) => w matches Value::Tuple(t) && values_written(t.0@, ts),
        ValueV::List(l) => list_written(w, *l),
    }
}

/// Whether `ws` writes the values `ts`, one by one.
pub open spec fn values_written(ws: Seq<Value>, ts: Seq<ValueV>) -> bool
    decreases ts,
{
    if ts.len() == 0 {
        ws.len() == 0
    } else {
        ws.len() == ts.len() && values_written(ws.drop_last(), ts.drop_last()) && value_written(
            ws.last(),
            ts.last(),
        )
    }
}

/// Whether `w` writes the list `l`.
pub open spec fn list_written(w: Value, l: ListV) -> bool
    decreases l,
{
    match l {
        ListV::Cons(h, t) => w matches Value::List(a, b) && value_written(*a, *h) && tail_written(*b, t),
        ListV::Nil => w is EmptyList,
    }
}

/// Whether `w` writes the list tail `t`.
pub open spec fn tail_written(w: Value, t: TailV) -> bool
    decreases t,
{
    match t {
        TailV::Open(x) => w matches Value::Var(y) && var_written(y, x),
        TailV::Close(l) => list_written(w, *l),
    }
}

fn write_var(x: crate::var::Var) -> (r: Var)
    ensures
        var_written(r, x@),
{
    match x {
        crate::var::Var::Formal(n) => Var::Named(NamedVar(n)),
        crate::var::Var::Auto(_) => Var::Anon,
    }
}

fn write_num(n: Numeric) -> (r: Value)
    ensures
        num_written(r, n@),
    decreases n,
{
    match n {
        Numeric::Var(x) => Value::Var(write_var(x)),
        Numeric::Int(i) => Value::Int(i),
        Numeric::Unop(o, a) => Value::Unop(o, Box::new(write_num(*a))),
        Numeric::Binop(o, a, b) => {
            let c = write_num(*a);
            let d = write_num(*b);
            Value::Binop(o, Box::new(c), Box::new(d))
        },
    }
}

fn write_list(l: crate::term::List) -> (r: Value)
    ensures
        list_written(r, l@),
    decreases l,
{
    match l {
        crate::term::List::Cons(h, t) => {
            let a = written(h);
            let b = write_tail(t);
            Value::List(Box::new(a), Box::new(b))
        },
        crate::term::List::Nil => Value::EmptyList,
    }
}

fn write_tail(t: crate::term::Tail) -> (r: Value)
    ensures
        tail_written(r, t@),
    decreases t,
{
    match t {
        crate::term::Tail::Open(x) => Value::Var(write_var(x)),
        crate::term::Tail::Close(l) => write_list(*l),
    }
}

fn write_values(vs: Vec<crate::term::Value>) -> (r: Vec<Value>)
    ensures
        values_written(r@, values_view(vs@)),
    decreases vs,
{
    let ghost orig = values_view(vs@);
    let n = vs.len();
    let mut rest = vs;
    let mut out: Vec<Value> = Vec::new();
    let mut i: usize = 0;
    proof {
        assert(orig.take(0) =~= Seq::<ValueV>::empty());
    }
    while i < n
        invariant
            n == orig.len(),
            orig == values_view(vs@),
            i <= n,
            values_view(rest@) =~= orig.subrange(i as int, n as int),
            rest@ =~= vs@.subrange(i as int, n as int),
            out@.len() == i,
            values_written(out@, orig.take(i as int)),
        decreases n - i,
    {
        proof {
            assert(decreases_to!(vs => vs@[i as int]));
        }
        let v = rest.remove(0);
        assert(v == vs@[i as int]);
        let w = written(v);
        let ghost pre = out@;
        out.push(w);
        proof {
            assert(out@.drop_last() =~= pre);
            assert(orig.take(i + 1).drop_last() =~= orig.take(i as int));
            assert(orig.take(i + 1).last() == orig[i as int]);
        }
        i = i + 1;
    }
    proof {
        assert(orig.take(n as int) =~= orig);
    }
    out
}

/// The source form of a value: variables by name, automatic ones as `_`, numeric
/// expressions, tuples and lists written out as they stand.
pub fn written(v: crate::term::Value) -> (r: Value)
    ensures
        value_written(r, v@),
    decreases v,
{
    match v {
        crate::term::Value::Var(x) => Value::Var(write_var(x)),
        crate::term::Value::Atom(a) => Value::Atom(Atom(a)),
        crate::term::Value::Numeric(n) => write_num(n),
        crate::term::Value::Tuple(t) => Value::Tuple(Tuple(write_values(t.0))),
        crate::term::Value::List(l) => write_list(*l),
    }
}

/// The source form of a goal: the predicate's name applied to its arguments written out.
pub fn app_written(a: &crate::pred::App) -> (r: App)
    ensures
        r.0.0@ == a@.pred.name,
        values_written(r.1.0@, a@.args),
{
    let p: &crate::pred::Pred = &**a.pred();
    let name = p.name().clone();
    let args = crate::term::copy_values(&a.args().0);
    App(Atom(name), Tuple(write_values(args)))
}

/// Whether every variable of a numeric expression is a formal one.
pub open spec fn num_formal(n: NumV) -> bool
    decreases n,
{
    match n {
        NumV::Var(x) => x is Formal,
        NumV::Int(_) => true,
        NumV::Unop(_, a) => num_formal(*a),
        NumV::Binop(_, a, b) => num_formal(*a) && num_formal(*b),
    }
}

/// Whether a value is in the form that compiling source gives: no automatic variables, and
/// no numeric expression that is a variable alone (a variable is a value of its own).
pub open spec fn value_canonical(v: ValueV) -> bool
    decreases v,
{
    match v {
        ValueV::Var(x) => x is Formal,
        ValueV::Atom(_) => true,
        ValueV::Numeric(n) => !(n is Var) && num_formal(n),
        ValueV::Tuple(ts) => values_canonical(ts),
        ValueV::List(l) => list_canonical(*l),
    }
}

pub open spec fn values_canonical(ts: Seq<ValueV>) -> bool
    decreases ts,
{
    ts.len() == 0 || (values_canonical(ts.drop_last()) && value_canonical(ts.last()))
}

pub open spec fn list_canonical(l: ListV) -> bool
    decreases l,
{
    match l {
        ListV::Cons(h, t) => value_canonical(*h) && tail_canonical(t),
        ListV::Nil => true,
    }
}

pub open spec fn tail_canonical(t: TailV) -> bool
    decreases t,
{
    match t {
        TailV::Open(x) => x is Formal,
        TailV::Close(l) => list_canonical(*l),
    }
}

proof fn lemma_num_round(w: Value, n: NumV, c: CtxV)
    requires
        num_written(w, n),
        num_formal(n),
    ensures
        num_compiled(w, c) == Some((Ok::<NumV, (Seq<char>, Seq<char>)>(n), c)),
    decreases n,
{
    match n {
        NumV::Unop(_, a) => {
            lemma_num_round(*w->Unop_1, *a, c);
        },
        NumV::Binop(_, a, b) => {
            lemma_num_round(*w->Binop_1, *a, c);
            lemma_num_round(*w->Binop_2, *b, c);
        },
        _ => {},
    }
}

proof fn lemma_value_round(w: Value, v: ValueV, c: CtxV)
    requires
        value_written(w, v),
        value_canonical(v),
    ensures
        value_compiled(w, c) == Some((Ok::<ValueV, (Seq<char>, Seq<char>)>(v), c)),
    decreases v, 0nat,
{
    match v {
        ValueV::Numeric(n) => {
            match n {
                NumV::Unop(_, a) => {
                    lemma_num_round(*w->Unop_1, *a, c);
                },
                NumV::Binop(_, a, b) => {
                    lemma_num_round(*w->Binop_1, *a, c);
                    lemma_num_round(*w->Binop_2, *b, c);
                },
                _ => {},
            }
        },
        ValueV::Tuple(ts) => {
            lemma_values_round(w->Tuple_0.0@, ts, c);
        },
        ValueV::List(l) => {
            lemma_list_round(w, *l, c);
        },
        _ => {},
    }
}

proof fn lemma_values_round(ws: Seq<Value>, ts: Seq<ValueV>, c: CtxV)
    requires
        values_written(ws, ts),
        values_canonical(ts),
    ensures
        values_compiled(ws, c) == Some((Ok::<Seq<ValueV>, (Seq<char>, Seq<char>)>(ts), c)),
    decreases ts, 0nat,
{
    if ts.len() > 0 {
        lemma_values_round(ws.drop_last(), ts.drop_last(), c);
        lemma_value_round(ws.last(), ts.last(), c);
        assert(ts.drop_last().push(ts.last()) =~= ts);
    } else {
        assert(ts =~= Seq::<ValueV>::empty());
    }
}

proof fn lemma_list_round(w: Value, l: ListV, c: CtxV)
    requires
        list_written(w, l),
        list_canonical(l),
    ensures
        value_compiled(w, c) == Some((Ok::<ValueV, (Seq<char>, Seq<char>)>(ValueV::List(Box::new(l))), c)),
        tail_compiled(w, c) == Some((Ok::<TailV, (Seq<char>, Seq<char>)>(TailV::Close(Box::new(l))), c)),
    decreases l, 0nat,
{
    match l {
        ListV::Cons(h, t) => {
            lemma_value_round(*w->List_0, *h, c);
            lemma_tail_round(*w->List_1, t, c);
        },
        ListV::Nil => {},
    }
}

proof fn lemma_tail_round(w: Value, t: TailV, c: CtxV)
    requires
        tail_written(w, t),
        tail_canonical(t),
    ensures
        tail_compiled(w, c) == Some((Ok::<TailV, (Seq<char>, Seq<char>)>(t), c)),
    decreases t, 0nat,
{
    match t {
        TailV::Close(l) => {
            lemma_list_round(w, *l, c);
        },
        _ => {},
    }
}

/// Writing a value back in source form and compiling it gives the value again, in any
/// context, without taking a fresh variable, where the value is in the form that compiling
/// gives (no automatic variables, no numeric expression that is a variable alone).
pub proof fn lemma_written_compiles(w: Value, v: ValueV, c: CtxV)
    requires
        value_written(w, v),
        value_canonical(v),
    ensures
        value_compiled(w, c) == Some((Ok::<ValueV, (Seq<char>, Seq<char>)>(v), c)),
{
    lemma_value_round(w, v, c);
}

} // verus!
