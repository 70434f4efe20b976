use vstd::prelude::*;

use crate::numeric::{BinaryOp, NumV, UnaryOp};
use crate::pred::{share_pred, Pred, PredV, RcPred};
use crate::clause::{ClauseV, StatementV};
use crate::pred::AppV;
use crate::scheme::{generalized, MaybeScheme, MaybeSchemeV, Scheme, SchemeV};
use crate::term::{dedup_append, ListV, TailV, ValueV};
use crate::thing::Thing;
use crate::var::{VarSource, VarV};

verus! {

/// The model of a compilation context: the predicates met so far, each once, and the
/// number of the next automatic variable.
pub struct CtxV {
    pub preds: Seq<PredV>,
    pub next: u32,
}

/// What compiles source syntax into terms: it shares one predicate for each name and arity,
/// and hands out automatic variables for anonymous ones.
pub struct CompileCtx {
    preds: Vec<RcPred>,
    var_src: VarSource,
}

impl View for CompileCtx {
    type V = CtxV;

    closed spec fn view(&self) -> CtxV {
        CtxV { preds: self.preds@.map_values(|p: RcPred| p@), next: self.var_src.next_index() }
    }
}

/// The context after meeting predicate `p`: it is added where it was not met before.
pub open spec fn intern(c: CtxV, p: PredV) -> CtxV {
    if c.preds.contains(p) {
        c
    } else {
        CtxV { preds: c.preds.push(p), next: c.next }
    }
}

impl CompileCtx {
    /// A context that has met no predicate and takes automatic variables from `var_src`.
    pub fn new(var_src: VarSource) -> (r: Self)
        ensures
            r@ == (CtxV { preds: Seq::empty(), next: var_src.next_index() }),
    {
        let r = CompileCtx { preds: Vec::new(), var_src };
        proof {
            assert(r@.preds =~= Seq::<PredV>::empty());
        }
        r
    }

    /// The predicate `name`/`arity`: the one met before, if any, else a new one.
    pub fn pred(&mut self, name: String, arity: usize) -> (r: RcPred)
        ensures
            r@ == (PredV { name: name@, arity: arity }),
            final(self)@ == intern(old(self)@, PredV { name: name@, arity: arity }),
    {
        let ghost p = PredV { name: name@, arity: arity };
        let ghost ps = self@.preds;
        let n = self.preds.len();
        let mut i: usize = 0;
        while i < n
            invariant
                n == self.preds@.len(),
                ps == self.preds@.map_values(|q: RcPred| q@),
                p == (PredV { name: name@, arity: arity }),
                i <= n,
                forall|j: int| 0 <= j < i ==> ps[j] != p,
            decreases n - i,
        {
            let q: &Pred = &*self.preds[i];
            proof {
                assert(ps[i as int] == self.preds@[i as int]@);
                assert(q@ == ps[i as int]);
            }
            let same_arity = q.arity() == arity;
            let same_name = q.name().eq(&name);
            if same_arity && same_name {
                proof {
                    assert(ps[i as int] == p);
                    assert(ps.contains(p));
                }
                return share_pred(&self.preds[i]);
            }
            i = i + 1;
        }
        proof {
            assert(!ps.contains(p));
        }
        let r = Pred::new_rc(name, arity);
        self.preds.push(share_pred(&r));
        proof {
            assert(self.preds@.map_values(|q: RcPred| q@) =~= ps.push(p));
        }
        r
    }

    /// A new automatic variable.
    pub fn auto_var(&mut self) -> (r: crate::var::Var)
        requires
            old(self)@.next < u32::MAX,
        ensures
            r@ == VarV::Auto(old(self)@.next),
            final(self)@ == (CtxV { preds: old(self)@.preds, next: (old(self)@.next + 1) as u32 }),
    {
        self.var_src.acquire()
    }

    /// The source of fresh variables that this context shares.
    pub fn var_src(&mut self) -> (r: &mut VarSource)
        ensures
            r.next_index() == old(self)@.next,
            final(self)@ == (CtxV { preds: old(self)@.preds, next: final(r).next_index() }),
    {
        &mut self.var_src
    }
}

} // verus!

verus! {

/// What the parser carries through a parse.
pub struct ParserTag;

impl ParserTag {
    /// A fresh tag.
    pub fn new() -> (r: ParserTag) {
        ParserTag
    }
}

/// A variable as written: named, or anonymous (`_`), which stands for a fresh variable.
#[derive(PartialEq, Debug)]
pub enum Var {
    Named(NamedVar),
    Anon,
}

/// The name of a variable as written.
#[derive(PartialEq, Debug)]
pub struct NamedVar(pub String);

impl From<NamedVar> for crate::var::Var {
    /// The formal variable that a name stands for.
    fn from(n: NamedVar) -> (r: crate::var::Var) {
        crate::var::Var::Formal(n.0)
    }
}

impl vstd::std_specs::convert::FromSpecImpl<NamedVar> for crate::var::Var {
    open spec fn obeys_from_spec() -> bool {
        true
    }

    open spec fn from_spec(v: NamedVar) -> crate::var::Var {
        crate::var::Var::Formal(v.0)
    }
}

/// An atom as written.
#[derive(PartialEq, Debug)]
pub struct Atom(pub String);

/// A tuple of values as written.
#[derive(PartialEq, Debug)]
pub struct Tuple(pub Vec<Value>);

/// A value as written. Whether an expression is numeric, a list tail or a value is decided
/// when it is compiled.
#[derive(PartialEq, Debug)]
pub enum Value {
    Var(Var),
    Atom(Atom),
    Int(i32),
    Unop(UnaryOp, Box<Value>),
    Binop(BinaryOp, Box<Value>, Box<Value>),
    Tuple(Tuple),
    List(Box<Value>, Box<Value>),
    EmptyList,
}

/// A predicate applied to arguments, as written.
#[derive(PartialEq, Debug)]
pub struct App(pub Atom, pub Tuple);

/// A clause as written.
#[derive(PartialEq, Debug)]
pub enum Clause {
    Top,
    Bot,
    App(App),
    Not(Box<Clause>),
    And(Box<Clause>, Box<Clause>),
    Or(Box<Clause>, Box<Clause>),
}

/// A statement as written: a rule with a condition, or a fact.
#[derive(PartialEq, Debug)]
pub enum Statement {
    Cond(App, Clause),
    Fact(App),
}

/// Something generalized over its free variables when it is compiled.
#[derive(PartialEq, Debug)]
pub struct AutoScheme<T>(pub T);

/// How something is to be generalized: over the variables named, over all its free
/// variables, or not at all.
#[derive(PartialEq, Debug)]
pub enum SchemePrefix<T> {
    Specific(Vec<NamedVar>, T),
    All(T),
    Inst(T),
}

/// Statements to add to the environment.
#[derive(PartialEq, Debug)]
pub struct Assert(pub Vec<AutoScheme<Statement>>);

/// The contents of an input file.
#[derive(PartialEq, Debug)]
pub struct Input(pub Assert);

/// A command as written.
#[derive(PartialEq, Debug)]
pub enum Expr {
    Assert(Assert),
    Query(Clause),
    UnifyVal(SchemePrefix<Value>, SchemePrefix<Value>),
    UnifyApp(SchemePrefix<App>, SchemePrefix<App>),
    TraceQuery(Clause),
    PrintVal(SchemePrefix<Value>),
    PrintStmt(SchemePrefix<Statement>),
    Fold(Value),
    PrintEnv,
    Reset,
}

/// A compilation error: an expression of the wrong kind where the named kind was expected,
/// with its text.
#[derive(Debug)]
pub enum CompileError {
    CompileTypeError(&'static str, String),
}

impl View for CompileError {
    type V = (Seq<char>, Seq<char>);

    /// The kind that was expected, and the text of what stood there.
    open spec fn view(&self) -> (Seq<char>, Seq<char>) {
        match self {
            CompileError::CompileTypeError(k, t) => (k@, t@),
        }
    }
}

/// The text that the derived `Debug` of `Value` writes for an expression.
pub uninterp spec fn value_debug(v: Value) -> Seq<char>;

/// `format!("{:?}", v)` through the derived `Debug` of `Value`: its text, which is a
/// function of the expression alone and is named `value_debug`.
#[verifier::external_body]
fn debug_text(v: &Value) -> (r: String)
    ensures
        r@ == value_debug(*v),
{
    format!("{:?}", v)
}

/// What compiling gives: the result, or the error (the kind that was expected, and the
/// text of the expression of another kind that stood there), and the context after;
/// `None` where the automatic variables run out.
pub type Compiled<X> = Option<(Result<X, (Seq<char>, Seq<char>)>, CtxV)>;

/// The result of compiling a variable.
pub open spec fn var_compiled(v: Var, c: CtxV) -> Option<(VarV, CtxV)> {
    match v {
        Var::Named(n) => Some((VarV::Formal(n.0@), c)),
        Var::Anon => if c.next < u32::MAX {
            Some((VarV::Auto(c.next), CtxV { preds: c.preds, next: (c.next + 1) as u32 }))
        } else {
            None
        },
    }
}

/// The result of compiling an expression as a numeric one: variables, integers and
/// operations, or a one-element tuple around one.
pub open spec fn num_compiled(v: Value, c: CtxV) -> Compiled<NumV>
    decreases v,
{
    match v {
        Value::Var(x) => match var_compiled(x, c) {
            None => None,
            Some((y, c2)) => Some((Ok(NumV::Var(y)), c2)),
        },
        Value::Int(i) => Some((Ok(NumV::Int(i)), c)),
        Value::Unop(o, a) => match num_compiled(*a, c) {
            None => None,
            Some((Err(e), c2)) => Some((Err(e), c2)),
            Some((Ok(x), c2)) => Some((Ok(NumV::Unop(o, Box::new(x))), c2)),
        },
        Value::Binop(o, a, b) => match num_compiled(*a, c) {
            None => None,
            Some((Err(e), c2)) => Some((Err(e), c2)),
            Some((Ok(x), c2)) => match num_compiled(*b, c2) {
                None => None,
                Some((Err(e), c3)) => Some((Err(e), c3)),
                Some((Ok(y), c3)) => Some((Ok(NumV::Binop(o, Box::new(x), Box::new(y))), c3)),
            },
        },
        Value::Tuple(t) => if t.0@.len() == 1 {
            num_compiled(t.0@[0], c)
        } else {
            Some((Err(("Numeric"@, value_debug(v))), c))
        },
        _ => Some((Err(("Numeric"@, value_debug(v))), c)),
    }
}

} // verus!

verus! {

/// The result of compiling an expression as a value.
pub open spec fn value_compiled(v: Value, c: CtxV) -> Compiled<ValueV>
    decreases v,
{
    match v {
        Value::Var(x) => match var_compiled(x, c) {
            None => None,
            Some((y, c2)) => Some((Ok(ValueV::Var(y)), c2)),
        },
        Value::Atom(a) => Some((Ok(ValueV::Atom(a.0@)), c)),
        Value::Int(i) => Some((Ok(ValueV::Numeric(NumV::Int(i))), c)),
        Value::Unop(o, a) => match num_compiled(*a, c) {
            None => None,
            Some((Err(e), c2)) => Some((Err(e), c2)),
            Some((Ok(x), c2)) => Some((Ok(ValueV::Numeric(NumV::Unop(o, Box::new(x)))), c2)),
        },
        Value::Binop(o, a, b) => match num_compiled(*a, c) {
            None => None,
            Some((Err(e), c2)) => Some((Err(e), c2)),
            Some((Ok(x), c2)) => match num_compiled(*b, c2) {
                None => None,
                Some((Err(e), c3)) => Some((Err(e), c3)),
                Some((Ok(y), c3)) => Some(
                    (Ok(ValueV::Numeric(NumV::Binop(o, Box::new(x), Box::new(y)))), c3),
                ),
            },
        },
        Value::Tuple(t) => match values_compiled(t.0@, c) {
            None => None,
            Some((Err(e), c2)) => Some((Err(e), c2)),
            Some((Ok(xs), c2)) => Some((Ok(ValueV::Tuple(xs)), c2)),
        },
        Value::List(a, b) => match value_compiled(*a, c) {
            None => None,
            Some((Err(e), c2)) => Some((Err(e), c2)),
            Some((Ok(h), c2)) => match tail_compiled(*b, c2) {
                None => None,
                Some((Err(e), c3)) => Some((Err(e), c3)),
                Some((Ok(t), c3)) => Some(
                    (Ok(ValueV::List(Box::new(ListV::Cons(Box::new(h), t)))), c3),
                ),
            },
        },
        Value::EmptyList => Some((Ok(ValueV::List(Box::new(ListV::Nil))), c)),
    }
}

/// The result of compiling an expression as a list's tail: a variable or a list.
pub open spec fn tail_compiled(v: Value, c: CtxV) -> Compiled<TailV>
    decreases v,
{
    match v {
        Value::Var(x) => match var_compiled(x, c) {
            None => None,
            Some((y, c2)) => Some((Ok(TailV::Open(y)), c2)),
        },
        Value::List(a, b) => match value_compiled(*a, c) {
            None => None,
            Some((Err(e), c2)) => Some((Err(e), c2)),
            Some((Ok(h), c2)) => match tail_compiled(*b, c2) {
                None => None,
                Some((Err(e), c3)) => Some((Err(e), c3)),
                Some((Ok(t), c3)) => Some((Ok(TailV::Close(Box::new(ListV::Cons(Box::new(h), t)))), c3)),
            },
        },
        Value::EmptyList => Some((Ok(TailV::Close(Box::new(ListV::Nil))), c)),
        _ => Some((Err(("Tail"@, value_debug(v))), c)),
    }
}

/// The result of compiling expressions as values, left to right; the first error stops it.
pub open spec fn values_compiled(vs: Seq<Value>, c: CtxV) -> Compiled<Seq<ValueV>>
    decreases vs,
{
    if vs.len() == 0 {
        Some((Ok(Seq::empty()), c))
    } else {
        match values_compiled(vs.drop_last(), c) {
            None => None,
            Some((Err(e), c2)) => Some((Err(e), c2)),
            Some((Ok(xs), c2)) => match value_compiled(vs.last(), c2) {
                None => None,
                Some((Err(e), c3)) => Some((Err(e), c3)),
                Some((Ok(x), c3)) => Some((Ok(xs.push(x)), c3)),
            },
        }
    }
}

/// Once a prefix fails or runs out of variables, so does every longer prefix, the same way.
pub proof fn lemma_values_compiled_prefix(vs: Seq<Value>, c: CtxV, i: int, j: int)
    requires
        0 <= i <= j <= vs.len(),
        !(values_compiled(vs.take(i), c) matches Some((Ok(_), _))),
    ensures
        values_compiled(vs.take(j), c) == values_compiled(vs.take(i), c),
    decreases j - i,
{
    if j > i {
        lemma_values_compiled_prefix(vs, c, i, j - 1);
        assert(vs.take(j).drop_last() =~= vs.take(j - 1));
    }
}

/// Compiling values gives as many values.
pub proof fn lemma_values_compiled_len(vs: Seq<Value>, c: CtxV)
    ensures
        values_compiled(vs, c) matches Some((Ok(xs), _)) ==> xs.len() == vs.len(),
    decreases vs.len(),
{
    if vs.len() > 0 {
        lemma_values_compiled_len(vs.drop_last(), c);
    }
}

/// The model of a compilation's result.
pub open spec fn res_of<T: View>(r: Result<T, CompileError>) -> Result<T::V, (Seq<char>, Seq<char>)> {
    match r {
        Ok(t) => Ok(t@),
        Err(e) => Err(e@),
    }
}

fn compile_var(v: Var, ctx: &mut CompileCtx) -> (r: crate::var::Var)
    requires
        var_compiled(v, old(ctx)@) is Some,
    ensures
        var_compiled(v, old(ctx)@) == Some((r@, final(ctx)@)),
{
    match v {
        Var::Named(n) => crate::var::Var::from(n),
        Var::Anon => ctx.auto_var(),
    }
}

fn numeric_error(v: Value) -> (r: CompileError)
    ensures
        r@ == ("Numeric"@, value_debug(v)),
{
    let text = debug_text(&v);
    CompileError::CompileTypeError("Numeric", text)
}

fn tail_error(v: Value) -> (r: CompileError)
    ensures
        r@ == ("Tail"@, value_debug(v)),
{
    let text = debug_text(&v);
    CompileError::CompileTypeError("Tail", text)
}

fn compile_num(v: Value, ctx: &mut CompileCtx) -> (r: Result<crate::numeric::Numeric, CompileError>)
    requires
        num_compiled(v, old(ctx)@) is Some,
    ensures
        num_compiled(v, old(ctx)@) == Some((res_of(r), final(ctx)@)),
    decreases v,
{
    match v {
        Value::Var(x) => Ok(crate::numeric::Numeric::Var(compile_var(x, ctx))),
        Value::Int(i) => Ok(crate::numeric::Numeric::Int(i)),
        Value::Unop(o, a) => {
            let x = compile_num(*a, ctx)?;
            Ok(crate::numeric::Numeric::Unop(o, Box::new(x)))
        },
        Value::Binop(o, a, b) => {
            let x = compile_num(*a, ctx)?;
            let y = compile_num(*b, ctx)?;
            Ok(crate::numeric::Numeric::Binop(o, Box::new(x), Box::new(y)))
        },
        Value::Tuple(t) => {
            if t.0.len() == 1 {
                let mut vs = t.0;
                let ghost orig = vs@;
                let one = vs.remove(0);
                assert(one == orig[0]);
                compile_num(one, ctx)
            } else {
                Err(numeric_error(Value::Tuple(t)))
            }
        },
        _ => Err(numeric_error(v)),
    }
}

} // verus!

verus! {

fn compile_value(v: Value, ctx: &mut CompileCtx) -> (r: Result<crate::term::Value, CompileError>)
    requires
        value_compiled(v, old(ctx)@) is Some,
    ensures
        value_compiled(v, old(ctx)@) == Some((res_of(r), final(ctx)@)),
    decreases v,
{
    match v {
        Value::Var(x) => Ok(crate::term::Value::Var(compile_var(x, ctx))),
        Value::Atom(a) => Ok(crate::term::Value::Atom(a.0)),
        Value::Int(i) => Ok(crate::term::Value::Numeric(crate::numeric::Numeric::Int(i))),
        Value::Unop(o, a) => {
            let x = compile_num(*a, ctx)?;
            Ok(crate::term::Value::Numeric(crate::numeric::Numeric::Unop(o, Box::new(x))))
        },
        Value::Binop(o, a, b) => {
            let x = compile_num(*a, ctx)?;
            let y = compile_num(*b, ctx)?;
            Ok(crate::term::Value::Numeric(crate::numeric::Numeric::Binop(o, Box::new(x), Box::new(y))))
        },
        Value::Tuple(t) => {
            let xs = compile_values(t.0, ctx)?;
            Ok(crate::term::Value::Tuple(crate::term::Tuple(xs)))
        },
        Value::List(a, b) => {
            let h = compile_value(*a, ctx)?;
            let t = compile_tail(*b, ctx)?;
            Ok(crate::term::Value::List(Box::new(crate::term::List::Cons(h, t))))
        },
        Value::EmptyList => Ok(crate::term::Value::List(Box::new(crate::term::List::Nil))),
    }
}

fn compile_tail(v: Value, ctx: &mut CompileCtx) -> (r: Result<crate::term::Tail, CompileError>)
    requires
        tail_compiled(v, old(ctx)@) is Some,
    ensures
        tail_compiled(v, old(ctx)@) == Some((res_of(r), final(ctx)@)),
    decreases v,
{
    match v {
        Value::Var(x) => Ok(crate::term::Tail::Open(compile_var(x, ctx))),
        Value::List(a, b) => {
            let h = compile_value(*a, ctx)?;
            let t = compile_tail(*b, ctx)?;
            Ok(crate::term::Tail::Close(Box::new(crate::term::List::Cons(h, t))))
        },
        Value::EmptyList => Ok(crate::term::Tail::Close(Box::new(crate::term::List::Nil))),
        _ => Err(tail_error(v)),
    }
}

fn compile_values(vs: Vec<Value>, ctx: &mut CompileCtx) -> (r: Result<Vec<crate::term::Value>, CompileError>)
    requires
        values_compiled(vs@, old(ctx)@) is Some,
    ensures
        values_compiled(vs@, old(ctx)@) == Some(
            (
                match r {
                    Ok(xs) => Ok(crate::term::values_view(xs@)),
                    Err(e) => Err(e@),
                },
                final(ctx)@,
            ),
        ),
    decreases vs,
{
    let ghost orig = vs@;
    let ghost c0 = ctx@;
    let n = vs.len();
    let mut rest = vs;
    let mut out: Vec<crate::term::Value> = Vec::new();
    let mut i: usize = 0;
    proof {
        assert(orig.take(0) =~= Seq::<Value>::empty());
        assert(crate::term::values_view(out@) =~= Seq::<ValueV>::empty());
    }
    while i < n
        invariant
            n == orig.len(),
            orig == vs@,
            c0 == old(ctx)@,
            i <= n,
            rest@ =~= orig.subrange(i as int, n as int),
            values_compiled(orig, c0) is Some,
            values_compiled(orig.take(i as int), c0) == Some(
                (Ok::<Seq<ValueV>, (Seq<char>, Seq<char>)>(crate::term::values_view(out@)), ctx@),
            ),
        decreases n - i,
    {
        let ghost before = ctx@;
        let ghost pre_out = out@;
        proof {
            assert(orig.take(i + 1).drop_last() =~= orig.take(i as int));
            assert(orig.take(i + 1).last() == orig[i as int]);
            if !(values_compiled(orig.take(i + 1), c0) is Some) {
                lemma_values_compiled_prefix(orig, c0, i + 1, n as int);
                assert(orig.take(n as int) =~= orig);
            }
            assert(decreases_to!(vs => vs@[i as int]));
        }
        let v = rest.remove(0);
        assert(v == orig[i as int]);
        match compile_value(v, ctx) {
            Ok(x) => {
                out.push(x);
                proof {
                    assert(crate::term::values_view(out@) =~= crate::term::values_view(pre_out).push(
                        x@,
                    ));
                }
            },
            Err(e) => {
                proof {
                    assert(values_compiled(orig.take(i + 1), c0) == Some(
                        (Err::<Seq<ValueV>, (Seq<char>, Seq<char>)>(e@), ctx@),
                    ));
                    lemma_values_compiled_prefix(orig, c0, i + 1, n as int);
                    assert(orig.take(n as int) =~= orig);
                }
                return Err(e);
            },
        }
        i = i + 1;
    }
    proof {
        assert(orig.take(n as int) =~= orig);
    }
    Ok(out)
}

} // verus!

verus! {

/// The result of compiling an application: its predicate is met first, then its arguments
/// are compiled.
pub open spec fn app_compiled(a: App, c: CtxV) -> Compiled<AppV> {
    let p = PredV { name: a.0.0@, arity: a.1.0@.len() as usize };
    match values_compiled(a.1.0@, intern(c, p)) {
        None => None,
        Some((Err(e), c2)) => Some((Err(e), c2)),
        Some((Ok(xs), c2)) => Some((Ok(AppV { pred: p, args: xs }), c2)),
    }
}

/// The result of compiling a clause, left to right.
pub open spec fn clause_compiled(x: Clause, c: CtxV) -> Compiled<ClauseV>
    decreases x,
{
    match x {
        Clause::Top => Some((Ok(ClauseV::Top), c)),
        Clause::Bot => Some((Ok(ClauseV::Bot), c)),
        Clause::App(a) => match app_compiled(a, c) {
            None => None,
            Some((Err(e), c2)) => Some((Err(e), c2)),
            Some((Ok(y), c2)) => Some((Ok(ClauseV::App(y)), c2)),
        },
        Clause::Not(y) => match clause_compiled(*y, c) {
            None => None,
            Some((Err(e), c2)) => Some((Err(e), c2)),
            Some((Ok(z), c2)) => Some((Ok(ClauseV::Not(Box::new(z))), c2)),
        },
        Clause::And(a, b) => match clause_compiled(*a, c) {
            None => None,
            Some((Err(e), c2)) => Some((Err(e), c2)),
            Some((Ok(l), c2)) => match clause_compiled(*b, c2) {
                None => None,
                Some((Err(e), c3)) => Some((Err(e), c3)),
                Some((Ok(r), c3)) => Some((Ok(ClauseV::And(Box::new(l), Box::new(r))), c3)),
            },
        },
        Clause::Or(a, b) => match clause_compiled(*a, c) {
            None => None,
            Some((Err(e), c2)) => Some((Err(e), c2)),
            Some((Ok(l), c2)) => match clause_compiled(*b, c2) {
                None => None,
                Some((Err(e), c3)) => Some((Err(e), c3)),
                Some((Ok(r), c3)) => Some((Ok(ClauseV::Or(Box::new(l), Box::new(r))), c3)),
            },
        },
    }
}

/// The result of compiling a statement: the head, then the body; a fact's body is true.
pub open spec fn statement_compiled(s: Statement, c: CtxV) -> Compiled<StatementV> {
    match s {
        Statement::Cond(l, r) => match app_compiled(l, c) {
            None => None,
            Some((Err(e), c2)) => Some((Err(e), c2)),
            Some((Ok(a), c2)) => match clause_compiled(r, c2) {
                None => None,
                Some((Err(e), c3)) => Some((Err(e), c3)),
                Some((Ok(b), c3)) => Some((Ok(StatementV { lhs: a, rhs: b }), c3)),
            },
        },
        Statement::Fact(l) => match app_compiled(l, c) {
            None => None,
            Some((Err(e), c2)) => Some((Err(e), c2)),
            Some((Ok(a), c2)) => Some((Ok(StatementV { lhs: a, rhs: ClauseV::Top }), c2)),
        },
    }
}

fn compile_app(a: App, ctx: &mut CompileCtx) -> (r: Result<crate::pred::App, CompileError>)
    requires
        app_compiled(a, old(ctx)@) is Some,
    ensures
        app_compiled(a, old(ctx)@) == Some((res_of(r), final(ctx)@)),
{
    let App(Atom(name), Tuple(args)) = a;
    let n = args.len();
    let pred = ctx.pred(name, n);
    proof {
        lemma_values_compiled_len(args@, ctx@);
    }
    let xs = compile_values(args, ctx)?;
    Ok(crate::pred::App::new(pred, crate::term::Tuple(xs)))
}

fn compile_clause(x: Clause, ctx: &mut CompileCtx) -> (r: Result<crate::clause::Clause, CompileError>)
    requires
        clause_compiled(x, old(ctx)@) is Some,
    ensures
        clause_compiled(x, old(ctx)@) == Some((res_of(r), final(ctx)@)),
    decreases x,
{
    match x {
        Clause::Top => Ok(crate::clause::Clause::Top),
        Clause::Bot => Ok(crate::clause::Clause::Bot),
        Clause::App(a) => Ok(crate::clause::Clause::App(compile_app(a, ctx)?)),
        Clause::Not(y) => Ok(crate::clause::Clause::Not(Box::new(compile_clause(*y, ctx)?))),
        Clause::And(a, b) => {
            let l = compile_clause(*a, ctx)?;
            let r = compile_clause(*b, ctx)?;
            Ok(crate::clause::Clause::And(Box::new(l), Box::new(r)))
        },
        Clause::Or(a, b) => {
            let l = compile_clause(*a, ctx)?;
            let r = compile_clause(*b, ctx)?;
            Ok(crate::clause::Clause::Or(Box::new(l), Box::new(r)))
        },
    }
}

fn compile_statement(s: Statement, ctx: &mut CompileCtx) -> (r: Result<crate::clause::Statement, CompileError>)
    requires
        statement_compiled(s, old(ctx)@) is Some,
    ensures
        statement_compiled(s, old(ctx)@) == Some((res_of(r), final(ctx)@)),
{
    match s {
        Statement::Cond(l, r) => {
            let a = compile_app(l, ctx)?;
            let b = compile_clause(r, ctx)?;
            Ok(crate::clause::Statement::new(a, b))
        },
        Statement::Fact(l) => Ok(crate::clause::Statement::fact(compile_app(l, ctx)?)),
    }
}

} // verus!

verus! {

/// Source syntax that compiles into a `T`.
pub trait CompileTo<T: View>: Sized {
    /// The result of compiling `self` in context `c`, and the context after.
    spec fn compiled(self, c: CtxV) -> Compiled<T::V>;

    /// Compiles `self`.
    fn compile(self, ctx: &mut CompileCtx) -> (r: Result<T, CompileError>)
        requires
            Self::compiled(self, old(ctx)@) is Some,
        ensures
            Self::compiled(self, old(ctx)@) == Some((res_of(r), final(ctx)@)),
    ;
}

impl CompileTo<crate::var::Var> for Var {
    open spec fn compiled(self, c: CtxV) -> Compiled<VarV> {
        match var_compiled(self, c) {
            None => None,
            Some((v, c2)) => Some((Ok(v), c2)),
        }
    }

    fn compile(self, ctx: &mut CompileCtx) -> (r: Result<crate::var::Var, CompileError>) {
        Ok(compile_var(self, ctx))
    }
}

impl CompileTo<crate::term::Value> for Value {
    open spec fn compiled(self, c: CtxV) -> Compiled<ValueV> {
        value_compiled(self, c)
    }

    fn compile(self, ctx: &mut CompileCtx) -> (r: Result<crate::term::Value, CompileError>) {
        compile_value(self, ctx)
    }
}

impl CompileTo<crate::numeric::Numeric> for Value {
    open spec fn compiled(self, c: CtxV) -> Compiled<NumV> {
        num_compiled(self, c)
    }

    fn compile(self, ctx: &mut CompileCtx) -> (r: Result<crate::numeric::Numeric, CompileError>) {
        compile_num(self, ctx)
    }
}

impl CompileTo<crate::term::Tail> for Value {
    open spec fn compiled(self, c: CtxV) -> Compiled<TailV> {
        tail_compiled(self, c)
    }

    fn compile(self, ctx: &mut CompileCtx) -> (r: Result<crate::term::Tail, CompileError>) {
        compile_tail(self, ctx)
    }
}

impl CompileTo<crate::term::Tuple> for Tuple {
    open spec fn compiled(self, c: CtxV) -> Compiled<Seq<ValueV>> {
        values_compiled(self.0@, c)
    }

    fn compile(self, ctx: &mut CompileCtx) -> (r: Result<crate::term::Tuple, CompileError>) {
        let xs = compile_values(self.0, ctx)?;
        Ok(crate::term::Tuple(xs))
    }
}

impl CompileTo<crate::pred::App> for App {
    open spec fn compiled(self, c: CtxV) -> Compiled<AppV> {
        app_compiled(self, c)
    }

    fn compile(self, ctx: &mut CompileCtx) -> (r: Result<crate::pred::App, CompileError>) {
        compile_app(self, ctx)
    }
}

impl CompileTo<crate::clause::Clause> for Clause {
    open spec fn compiled(self, c: CtxV) -> Compiled<ClauseV> {
        clause_compiled(self, c)
    }

    fn compile(self, ctx: &mut CompileCtx) -> (r: Result<crate::clause::Clause, CompileError>) {
        compile_clause(self, ctx)
    }
}

impl CompileTo<crate::clause::Statement> for Statement {
    open spec fn compiled(self, c: CtxV) -> Compiled<StatementV> {
        statement_compiled(self, c)
    }

    fn compile(self, ctx: &mut CompileCtx) -> (r: Result<crate::clause::Statement, CompileError>) {
        compile_statement(self, ctx)
    }
}

impl<T: CompileTo<U>, U: Thing> CompileTo<MaybeScheme<U>> for AutoScheme<T> {
    /// The compiled value, generalized over its free variables.
    open spec fn compiled(self, c: CtxV) -> Compiled<MaybeSchemeV<U::V>> {
        match T::compiled(self.0, c) {
            None => None,
            Some((Err(e), c2)) => Some((Err(e), c2)),
            Some((Ok(u), c2)) => Some((Ok(generalized::<U>(u)), c2)),
        }
    }

    fn compile(self, ctx: &mut CompileCtx) -> (r: Result<MaybeScheme<U>, CompileError>) {
        let u = self.0.compile(ctx)?;
        Ok(MaybeScheme::generalize(u))
    }
}

/// The variables that names stand for.
pub open spec fn named_vars(vs: Seq<NamedVar>) -> Seq<VarV> {
    vs.map_values(|n: NamedVar| VarV::Formal(n.0@))
}

fn formal_vars(vs: &Vec<NamedVar>) -> (r: Vec<crate::var::Var>)
    ensures
        crate::var::var_views(r@) == named_vars(vs@),
{
    let mut out: Vec<crate::var::Var> = Vec::new();
    let n = vs.len();
    let mut i: usize = 0;
    while i < n
        invariant
            n == vs@.len(),
            i <= n,
            crate::var::var_views(out@) =~= named_vars(vs@).take(i as int),
        decreases n - i,
    {
        let ghost pre = out@;
        out.push(crate::var::Var::Formal(vs[i].0.clone()));
        proof {
            assert(crate::var::var_views(out@) =~= crate::var::var_views(pre).push(
                VarV::Formal(vs@[i as int].0@),
            ));
            assert(named_vars(vs@).take(i + 1) =~= named_vars(vs@).take(i as int).push(
                VarV::Formal(vs@[i as int].0@),
            ));
        }
        i = i + 1;
    }
    proof {
        assert(named_vars(vs@).take(n as int) =~= named_vars(vs@));
    }
    out
}

impl<T: CompileTo<U>, U: Thing> CompileTo<MaybeScheme<U>> for SchemePrefix<T> {
    /// The compiled value generalized over the variables named, over all its free variables,
    /// or not at all.
    open spec fn compiled(self, c: CtxV) -> Compiled<MaybeSchemeV<U::V>> {
        match self {
            SchemePrefix::Specific(vs, t) => match T::compiled(t, c) {
                None => None,
                Some((Err(e), c2)) => Some((Err(e), c2)),
                Some((Ok(u), c2)) => Some(
                    (
                        Ok(
                            MaybeSchemeV::Scheme(
                                SchemeV { vars: dedup_append(Seq::empty(), named_vars(vs@)), val: u },
                            ),
                        ),
                        c2,
                    ),
                ),
            },
            SchemePrefix::All(t) => match T::compiled(t, c) {
                None => None,
                Some((Err(e), c2)) => Some((Err(e), c2)),
                Some((Ok(u), c2)) => Some((Ok(generalized::<U>(u)), c2)),
            },
            SchemePrefix::Inst(t) => match T::compiled(t, c) {
                None => None,
                Some((Err(e), c2)) => Some((Err(e), c2)),
                Some((Ok(u), c2)) => Some((Ok(MaybeSchemeV::Inst(u)), c2)),
            },
        }
    }

    fn compile(self, ctx: &mut CompileCtx) -> (r: Result<MaybeScheme<U>, CompileError>) {
        match self {
            SchemePrefix::Specific(vs, t) => {
                let u = t.compile(ctx)?;
                let vars = formal_vars(&vs);
                Ok(MaybeScheme::Scheme(Scheme::generalize(u, vars)))
            },
            SchemePrefix::All(t) => {
                let u = t.compile(ctx)?;
                Ok(MaybeScheme::generalize(u))
            },
            SchemePrefix::Inst(t) => {
                let u = t.compile(ctx)?;
                Ok(MaybeScheme::Inst(u))
            },
        }
    }
}

} // verus!

verus! {

/// The model of statements to add: each generalized over its free variables.
pub open spec fn stmts_view(v: Seq<MaybeScheme<crate::clause::Statement>>) -> Seq<MaybeSchemeV<StatementV>> {
    v.map_values(|m: MaybeScheme<crate::clause::Statement>| m@)
}

/// The result of compiling statements, left to right, each generalized over its free
/// variables; the first error stops it.
pub open spec fn asserts_compiled(ss: Seq<AutoScheme<Statement>>, c: CtxV) -> Compiled<
    Seq<MaybeSchemeV<StatementV>>,
>
    decreases ss.len(),
{
    if ss.len() == 0 {
        Some((Ok(Seq::empty()), c))
    } else {
        match asserts_compiled(ss.drop_last(), c) {
            None => None,
            Some((Err(e), c2)) => Some((Err(e), c2)),
            Some((Ok(xs), c2)) => match statement_compiled(ss.last().0, c2) {
                None => None,
                Some((Err(e), c3)) => Some((Err(e), c3)),
                Some((Ok(x), c3)) => Some(
                    (Ok(xs.push(generalized::<crate::clause::Statement>(x))), c3),
                ),
            },
        }
    }
}

pub proof fn lemma_asserts_compiled_prefix(ss: Seq<AutoScheme<Statement>>, c: CtxV, i: int, j: int)
    requires
        0 <= i <= j <= ss.len(),
        !(asserts_compiled(ss.take(i), c) matches Some((Ok(_), _))),
    ensures
        asserts_compiled(ss.take(j), c) == asserts_compiled(ss.take(i), c),
    decreases j - i,
{
    if j > i {
        lemma_asserts_compiled_prefix(ss, c, i, j - 1);
        assert(ss.take(j).drop_last() =~= ss.take(j - 1));
    }
}

impl Assert {
    /// Compiles the statements, in order.
    pub fn compile(self, ctx: &mut CompileCtx) -> (r: Result<Vec<MaybeScheme<crate::clause::Statement>>, CompileError>)
        requires
            asserts_compiled(self.0@, old(ctx)@) is Some,
        ensures
            asserts_compiled(self.0@, old(ctx)@) == Some(
                (
                    match r {
                        Ok(xs) => Ok(stmts_view(xs@)),
                        Err(e) => Err(e@),
                    },
                    final(ctx)@,
                ),
            ),
    {
        let ghost orig = self.0@;
        let ghost c0 = ctx@;
        let n = self.0.len();
        let mut rest = self.0;
        let mut out: Vec<MaybeScheme<crate::clause::Statement>> = Vec::new();
        let mut i: usize = 0;
        proof {
            assert(orig.take(0) =~= Seq::<AutoScheme<Statement>>::empty());
            assert(stmts_view(out@) =~= Seq::<MaybeSchemeV<StatementV>>::empty());
        }
        while i < n
            invariant
                n == orig.len(),
                orig == self.0@,
                c0 == old(ctx)@,
                i <= n,
                rest@ =~= orig.subrange(i as int, n as int),
                asserts_compiled(orig, c0) is Some,
                asserts_compiled(orig.take(i as int), c0) == Some(
                    (Ok::<Seq<MaybeSchemeV<StatementV>>, (Seq<char>, Seq<char>)>(stmts_view(out@)), ctx@),
                ),
            decreases n - i,
        {
            let ghost pre_out = out@;
            proof {
                assert(orig.take(i + 1).drop_last() =~= orig.take(i as int));
                assert(orig.take(i + 1).last() == orig[i as int]);
                if !(asserts_compiled(orig.take(i + 1), c0) is Some) {
                    lemma_asserts_compiled_prefix(orig, c0, i + 1, n as int);
                    assert(orig.take(n as int) =~= orig);
                }
            }
            let s = rest.remove(0);
            assert(s == orig[i as int]);
            match compile_statement(s.0, ctx) {
                Ok(x) => {
                    let m = MaybeScheme::generalize(x);
                    out.push(m);
                    proof {
                        assert(stmts_view(out@) =~= stmts_view(pre_out).push(m@));
                    }
                },
                Err(e) => {
                    proof {
                        assert(asserts_compiled(orig.take(i + 1), c0) == Some(
                            (Err::<Seq<MaybeSchemeV<StatementV>>, (Seq<char>, Seq<char>)>(e@), ctx@),
                        ));
                        lemma_asserts_compiled_prefix(orig, c0, i + 1, n as int);
                        assert(orig.take(n as int) =~= orig);
                    }
                    return Err(e);
                },
            }
            i = i + 1;
        }
        proof {
            assert(orig.take(n as int) =~= orig);
        }
        Ok(out)
    }
}

impl Input {
    /// Compiles the statements of an input, in order.
    pub fn compile(self, ctx: &mut CompileCtx) -> (r: Result<Vec<MaybeScheme<crate::clause::Statement>>, CompileError>)
        requires
            asserts_compiled(self.0.0@, old(ctx)@) is Some,
        ensures
            asserts_compiled(self.0.0@, old(ctx)@) == Some(
                (
                    match r {
                        Ok(xs) => Ok(stmts_view(xs@)),
                        Err(e) => Err(e@),
                    },
                    final(ctx)@,
                ),
            ),
    {
        self.0.compile(ctx)
    }
}

} // verus!

verus! {

/// The model of a compiled command.
pub enum CommandV {
    Assert(Seq<MaybeSchemeV<StatementV>>),
    Query(ClauseV),
    UnifyVal(MaybeSchemeV<ValueV>, MaybeSchemeV<ValueV>),
    UnifyApp(MaybeSchemeV<AppV>, MaybeSchemeV<AppV>),
    TraceQuery(ClauseV),
    PrintVal(MaybeSchemeV<ValueV>),
    PrintStmt(MaybeSchemeV<StatementV>),
    Fold(NumV),
    PrintEnv,
    Reset,
}

/// A compiled command.
pub enum Command {
    Assert(Vec<MaybeScheme<crate::clause::Statement>>),
    Query(crate::clause::Clause),
    UnifyVal(MaybeScheme<crate::term::Value>, MaybeScheme<crate::term::Value>),
    UnifyApp(MaybeScheme<crate::pred::App>, MaybeScheme<crate::pred::App>),
    TraceQuery(crate::clause::Clause),
    PrintVal(MaybeScheme<crate::term::Value>),
    PrintStmt(MaybeScheme<crate::clause::Statement>),
    Fold(crate::numeric::Numeric),
    PrintEnv,
    Reset,
}

impl View for Command {
    type V = CommandV;

    open spec fn view(&self) -> CommandV {
        match self {
            Command::Assert(v) => CommandV::Assert(stmts_view(v@)),
            Command::Query(c) => CommandV::Query(c@),
            Command::UnifyVal(a, b) => CommandV::UnifyVal(a@, b@),
            Command::UnifyApp(a, b) => CommandV::UnifyApp(a@, b@),
            Command::TraceQuery(c) => CommandV::TraceQuery(c@),
            Command::PrintVal(v) => CommandV::PrintVal(v@),
            Command::PrintStmt(s) => CommandV::PrintStmt(s@),
            Command::Fold(n) => CommandV::Fold(n@),
            Command::PrintEnv => CommandV::PrintEnv,
            Command::Reset => CommandV::Reset,
        }
    }
}

/// The result of compiling a pair, left then right.
pub open spec fn pair_compiled<A, B>(
    a: Compiled<A>,
    b: spec_fn(CtxV) -> Compiled<B>,
) -> Compiled<(A, B)> {
    match a {
        None => None,
        Some((Err(e), c2)) => Some((Err(e), c2)),
        Some((Ok(x), c2)) => match b(c2) {
            None => None,
            Some((Err(e), c3)) => Some((Err(e), c3)),
            Some((Ok(y), c3)) => Some((Ok((x, y)), c3)),
        },
    }
}

/// The result of compiling a command.
pub open spec fn expr_compiled(e: Expr, c: CtxV) -> Compiled<CommandV> {
    match e {
        Expr::Assert(a) => match asserts_compiled(a.0@, c) {
            None => None,
            Some((Err(x), c2)) => Some((Err(x), c2)),
            Some((Ok(v), c2)) => Some((Ok(CommandV::Assert(v)), c2)),
        },
        Expr::Query(q) => match clause_compiled(q, c) {
            None => None,
            Some((Err(x), c2)) => Some((Err(x), c2)),
            Some((Ok(v), c2)) => Some((Ok(CommandV::Query(v)), c2)),
        },
        Expr::UnifyVal(a, b) => match pair_compiled(
            <SchemePrefix<Value> as CompileTo<MaybeScheme<crate::term::Value>>>::compiled(a, c),
            |c2: CtxV| <SchemePrefix<Value> as CompileTo<MaybeScheme<crate::term::Value>>>::compiled(b, c2),
        ) {
            None => None,
            Some((Err(x), c2)) => Some((Err(x), c2)),
            Some((Ok((l, r)), c2)) => Some((Ok(CommandV::UnifyVal(l, r)), c2)),
        },
        Expr::UnifyApp(a, b) => match pair_compiled(
            <SchemePrefix<App> as CompileTo<MaybeScheme<crate::pred::App>>>::compiled(a, c),
            |c2: CtxV| <SchemePrefix<App> as CompileTo<MaybeScheme<crate::pred::App>>>::compiled(b, c2),
        ) {
            None => None,
            Some((Err(x), c2)) => Some((Err(x), c2)),
            Some((Ok((l, r)), c2)) => Some((Ok(CommandV::UnifyApp(l, r)), c2)),
        },
        Expr::TraceQuery(q) => match clause_compiled(q, c) {
            None => None,
            Some((Err(x), c2)) => Some((Err(x), c2)),
            Some((Ok(v), c2)) => Some((Ok(CommandV::TraceQuery(v)), c2)),
        },
        Expr::PrintVal(v) => match <SchemePrefix<Value> as CompileTo<MaybeScheme<crate::term::Value>>>::compiled(v, c) {
            None => None,
            Some((Err(x), c2)) => Some((Err(x), c2)),
            Some((Ok(m), c2)) => Some((Ok(CommandV::PrintVal(m)), c2)),
        },
        Expr::PrintStmt(s) => match <SchemePrefix<Statement> as CompileTo<MaybeScheme<crate::clause::Statement>>>::compiled(s, c) {
            None => None,
            Some((Err(x), c2)) => Some((Err(x), c2)),
            Some((Ok(m), c2)) => Some((Ok(CommandV::PrintStmt(m)), c2)),
        },
        Expr::Fold(v) => match num_compiled(v, c) {
            None => None,
            Some((Err(x), c2)) => Some((Err(x), c2)),
            Some((Ok(n), c2)) => Some((Ok(CommandV::Fold(n)), c2)),
        },
        Expr::PrintEnv => Some((Ok(CommandV::PrintEnv), c)),
        Expr::Reset => Some((Ok(CommandV::Reset), c)),
    }
}

impl CompileTo<Command> for Expr {
    open spec fn compiled(self, c: CtxV) -> Compiled<CommandV> {
        expr_compiled(self, c)
    }

    fn compile(self, ctx: &mut CompileCtx) -> (r: Result<Command, CompileError>) {
        match self {
            Expr::Assert(a) => Ok(Command::Assert(a.compile(ctx)?)),
            Expr::Query(q) => Ok(Command::Query(compile_clause(q, ctx)?)),
            Expr::UnifyVal(a, b) => {
                let l: MaybeScheme<crate::term::Value> = a.compile(ctx)?;
                let r: MaybeScheme<crate::term::Value> = b.compile(ctx)?;
                Ok(Command::UnifyVal(l, r))
            },
            Expr::UnifyApp(a, b) => {
                let l: MaybeScheme<crate::pred::App> = a.compile(ctx)?;
                let r: MaybeScheme<crate::pred::App> = b.compile(ctx)?;
                Ok(Command::UnifyApp(l, r))
            },
            Expr::TraceQuery(q) => Ok(Command::TraceQuery(compile_clause(q, ctx)?)),
            Expr::PrintVal(v) => Ok(Command::PrintVal(v.compile(ctx)?)),
            Expr::PrintStmt(s) => Ok(Command::PrintStmt(s.compile(ctx)?)),
            Expr::Fold(v) => Ok(Command::Fold(compile_num(v, ctx)?)),
            Expr::PrintEnv => Ok(Command::PrintEnv),
            Expr::Reset => Ok(Command::Reset),
        }
    }
}

} // verus!
