use vstd::prelude::*;

use crate::ast::{expr_compiled, stmts_view, CommandV, CompileCtx, CompileError, CompileTo, Command, CtxV, Expr, Input, asserts_compiled};
use crate::clause::{Statement, StatementV};
use crate::env::{run_spec, Env, Solver, SolverV, Step, TaskV};
use crate::error::{Error, ErrorV};
use crate::numeric::fold;
use crate::pred::{App, AppV};
use crate::scheme::{can_inst_unify, inst_unify, inst_unify_count, MaybeScheme, MaybeSchemeV};
use crate::sub::{Sub, SubV};
use crate::term::{Value, ValueV};
use crate::thing::{Thing, Unify};
use crate::var::VarSource;

verus! {

/// The model of an evaluator: the statements so far and the compilation context, whose
/// counter also numbers the fresh variables of instantiation.
pub struct EvaluatorV {
    pub env: Seq<MaybeSchemeV<StatementV>>,
    pub ctx: CtxV,
}

/// The model of what a command gives back.
pub enum EvalResultV {
    Unit,
    Assert(Seq<MaybeSchemeV<StatementV>>),
    Query(SolverV),
    UnifyVal(Result<(ValueV, ValueV, SubV, ValueV, ValueV), ErrorV>),
    UnifyApp(Result<(AppV, AppV, SubV, AppV, AppV), ErrorV>),
    PrintVal(MaybeSchemeV<ValueV>),
    PrintStmt(MaybeSchemeV<StatementV>),
    PrintEnv(Seq<MaybeSchemeV<StatementV>>),
}

/// What a command gives back.
pub enum EvalResult {
    Unit,
    Assert(Vec<MaybeScheme<Statement>>),
    Query(Solver),
    UnifyVal(Result<(Value, Value, Sub, Value, Value), Error>),
    UnifyApp(Result<(App, App, Sub, App, App), Error>),
    PrintVal(MaybeScheme<Value>),
    PrintStmt(MaybeScheme<Statement>),
    PrintEnv(Vec<MaybeScheme<Statement>>),
}

/// The model of a unification's report: both sides, their unifier, and both sides with the
/// unifier substituted in.
pub open spec fn report_view<T: View>(r: Result<(T, T, Sub, T, T), Error>) -> Result<
    (T::V, T::V, SubV, T::V, T::V),
    ErrorV,
> {
    match r {
        Ok((a, b, s, a2, b2)) => Ok((a@, b@, s@, a2@, b2@)),
        Err(e) => Err(e@),
    }
}

impl View for EvalResult {
    type V = EvalResultV;

    open spec fn view(&self) -> EvalResultV {
        match self {
            EvalResult::Unit => EvalResultV::Unit,
            EvalResult::Assert(v) => EvalResultV::Assert(stmts_view(v@)),
            EvalResult::Query(s) => EvalResultV::Query(s@),
            EvalResult::UnifyVal(r) => EvalResultV::UnifyVal(report_view(*r)),
            EvalResult::UnifyApp(r) => EvalResultV::UnifyApp(report_view(*r)),
            EvalResult::PrintVal(v) => EvalResultV::PrintVal(v@),
            EvalResult::PrintStmt(s) => EvalResultV::PrintStmt(s@),
            EvalResult::PrintEnv(v) => EvalResultV::PrintEnv(stmts_view(v@)),
        }
    }
}

/// Instantiating both sides (from `n` on), unifying them, and substituting the unifier into
/// both: the two instances, the unifier and the two results, or the first error.
pub open spec fn unify_report<T: Thing + Unify>(a: MaybeSchemeV<T::V>, b: MaybeSchemeV<T::V>, n: u32) -> Result<
    (T::V, T::V, SubV, T::V, T::V),
    ErrorV,
> {
    match inst_unify::<T>(a, b, n) {
        Err(e) => Err(e),
        Ok((x, y, s)) => match T::subst(x, s).unwrap() {
            Err(e) => Err(e),
            Ok(x2) => match T::subst(y, s).unwrap() {
                Err(e) => Err(e),
                Ok(y2) => Ok((x, y, s, x2, y2)),
            },
        },
    }
}

/// Whether `unify_report` stays within the variable numbers and terminates.
pub open spec fn can_report<T: Thing + Unify>(a: MaybeSchemeV<T::V>, b: MaybeSchemeV<T::V>, n: u32) -> bool {
    &&& can_inst_unify::<T>(a, b, n)
    &&& (inst_unify::<T>(a, b, n) matches Ok((x, y, s)) ==> {
        &&& T::subst(x, s) is Some
        &&& (T::subst(x, s).unwrap() is Ok ==> T::subst(y, s) is Some)
    })
}

/// An evaluator with the counter moved on by `k`.
pub open spec fn advanced(ev: EvaluatorV, k: nat) -> EvaluatorV {
    EvaluatorV { env: ev.env, ctx: CtxV { preds: ev.ctx.preds, next: (ev.ctx.next + k) as u32 } }
}

/// A fresh evaluator's model.
pub open spec fn fresh_evaluator() -> EvaluatorV {
    EvaluatorV { env: Seq::empty(), ctx: CtxV { preds: Seq::empty(), next: 0 } }
}

/// Carrying out a compiled command: statements are added, a query starts a search, a
/// unification is reported, a numeric expression is folded, and a reset starts afresh.
/// `None` where a unification does not terminate or overflows the variable numbers, or where
/// folding overflows or divides by zero.
pub open spec fn run_command(ev: EvaluatorV, cmd: CommandV) -> Option<(EvaluatorV, EvalResultV)> {
    let n = ev.ctx.next;
    match cmd {
        CommandV::Assert(v) => Some((EvaluatorV { env: ev.env + v, ctx: ev.ctx }, EvalResultV::Assert(v))),
        CommandV::Query(c) => Some(
            (ev, EvalResultV::Query(SolverV { task: TaskV::Solve(c, Seq::empty()), choices: Seq::empty() })),
        ),
        CommandV::TraceQuery(c) => Some(
            (ev, EvalResultV::Query(SolverV { task: TaskV::Solve(c, Seq::empty()), choices: Seq::empty() })),
        ),
        CommandV::UnifyVal(a, b) => if can_report::<Value>(a, b, n) {
            Some(
                (
                    advanced(ev, inst_unify_count::<Value>(a, b, n)),
                    EvalResultV::UnifyVal(unify_report::<Value>(a, b, n)),
                ),
            )
        } else {
            None
        },
        CommandV::UnifyApp(a, b) => if can_report::<App>(a, b, n) {
            Some(
                (
                    advanced(ev, inst_unify_count::<App>(a, b, n)),
                    EvalResultV::UnifyApp(unify_report::<App>(a, b, n)),
                ),
            )
        } else {
            None
        },
        CommandV::PrintVal(v) => Some((ev, EvalResultV::PrintVal(v))),
        CommandV::PrintStmt(s) => Some((ev, EvalResultV::PrintStmt(s))),
        CommandV::Fold(m) => if crate::numeric::foldable(m) {
            Some((ev, EvalResultV::PrintVal(MaybeSchemeV::Inst(ValueV::Numeric(fold(m))))))
        } else {
            None
        },
        CommandV::PrintEnv => Some((ev, EvalResultV::PrintEnv(ev.env))),
        CommandV::Reset => Some((fresh_evaluator(), EvalResultV::Unit)),
    }
}

/// Evaluating a command: it is compiled, then carried out; a compilation error is given
/// back, with the context as compilation left it. `None` where compilation or the command
/// is undefined (see `run_command`) or overflows the variable numbers.
pub open spec fn eval_spec(ev: EvaluatorV, e: Expr) -> Option<(EvaluatorV, Result<EvalResultV, (Seq<char>, Seq<char>)>)> {
    match expr_compiled(e, ev.ctx) {
        None => None,
        Some((Err(k), c2)) => Some((EvaluatorV { env: ev.env, ctx: c2 }, Err(k))),
        Some((Ok(cmd), c2)) => match run_command(EvaluatorV { env: ev.env, ctx: c2 }, cmd) {
            None => None,
            Some((ev2, r)) => Some((ev2, Ok(r))),
        },
    }
}

} // verus!

verus! {

/// Reads commands' results off a session: the statements, and what compiles and numbers
/// the variables.
pub struct Evaluator {
    env: Env,
    compile_ctx: CompileCtx,
}

impl View for Evaluator {
    type V = EvaluatorV;

    closed spec fn view(&self) -> EvaluatorV {
        EvaluatorV { env: self.env@, ctx: self.compile_ctx@ }
    }
}

fn copy_stmts(v: &Vec<MaybeScheme<Statement>>) -> (r: Vec<MaybeScheme<Statement>>)
    ensures
        stmts_view(r@) == stmts_view(v@),
{
    let mut out: Vec<MaybeScheme<Statement>> = Vec::new();
    let n = v.len();
    let mut i: usize = 0;
    while i < n
        invariant
            n == v@.len(),
            i <= n,
            stmts_view(out@) =~= stmts_view(v@).take(i as int),
        decreases n - i,
    {
        let ghost pre = out@;
        let m = v[i].duplicate();
        out.push(m);
        proof {
            assert(stmts_view(out@) =~= stmts_view(pre).push(m@));
            assert(stmts_view(v@).take(i + 1) =~= stmts_view(v@).take(i as int).push(v@[i as int]@));
        }
        i = i + 1;
    }
    proof {
        assert(stmts_view(v@).take(n as int) =~= stmts_view(v@));
    }
    out
}

/// Instantiates both sides, unifies them and substitutes the unifier into both.
fn report<T: Thing + Unify>(a: MaybeScheme<T>, b: MaybeScheme<T>, src: &mut VarSource) -> (r: Result<
    (T, T, Sub, T, T),
    Error,
>)
    requires
        can_report::<T>(a@, b@, old(src).next_index()),
    ensures
        report_view(r) == unify_report::<T>(a@, b@, old(src).next_index()),
        final(src).next_index() == old(src).next_index() + inst_unify_count::<T>(
            a@,
            b@,
            old(src).next_index(),
        ),
{
    let (x, y, sub) = a.inst_and_unify(b, src)?;
    let x1 = x.duplicate();
    let y1 = y.duplicate();
    let x2 = x.sub(&sub)?;
    let y2 = y.sub(&sub)?;
    Ok((x1, y1, sub, x2, y2))
}

impl Evaluator {
    /// An evaluator with no statements, whose variables are numbered from zero.
    pub fn new() -> (r: Self)
        ensures
            r@ == fresh_evaluator(),
    {
        let r = Evaluator { env: Env::new(), compile_ctx: CompileCtx::new(VarSource::new()) };
        r
    }

    /// The statements so far.
    pub fn premises(&self) -> (r: &Vec<MaybeScheme<Statement>>)
        ensures
            stmts_view(r@) == self@.env,
    {
        self.env.premises()
    }

    fn state_all(&mut self, v: &Vec<MaybeScheme<Statement>>)
        ensures
            final(self)@ == (EvaluatorV { env: old(self)@.env + stmts_view(v@), ctx: old(self)@.ctx }),
    {
        let ghost e0 = self@.env;
        let n = v.len();
        let mut i: usize = 0;
        while i < n
            invariant
                n == v@.len(),
                i <= n,
                self@.ctx == old(self)@.ctx,
                e0 == old(self)@.env,
                self@.env =~= e0 + stmts_view(v@).take(i as int),
            decreases n - i,
        {
            self.env.state(v[i].duplicate());
            proof {
                assert(stmts_view(v@).take(i + 1) =~= stmts_view(v@).take(i as int).push(v@[i as int]@));
            }
            i = i + 1;
        }
        proof {
            assert(stmts_view(v@).take(n as int) =~= stmts_view(v@));
        }
    }

    /// Compiles and carries out a command.
    pub fn eval(&mut self, ast: Expr) -> (r: Result<EvalResult, CompileError>)
        requires
            eval_spec(old(self)@, ast) is Some,
        ensures
            eval_spec(old(self)@, ast) == Some(
                (
                    final(self)@,
                    match r {
                        Ok(x) => Ok(x@),
                        Err(e) => Err(e@),
                    },
                ),
            ),
    {
        let cmd = ast.compile(&mut self.compile_ctx)?;
        match cmd {
            Command::Assert(v) => {
                self.state_all(&v);
                Ok(EvalResult::Assert(v))
            },
            Command::Query(c) => Ok(EvalResult::Query(self.env.solve_clause(c))),
            Command::TraceQuery(c) => Ok(EvalResult::Query(self.env.solve_clause(c))),
            Command::UnifyVal(a, b) => {
                let src = self.compile_ctx.var_src();
                Ok(EvalResult::UnifyVal(report(a, b, src)))
            },
            Command::UnifyApp(a, b) => {
                let src = self.compile_ctx.var_src();
                Ok(EvalResult::UnifyApp(report(a, b, src)))
            },
            Command::PrintVal(v) => Ok(EvalResult::PrintVal(v)),
            Command::PrintStmt(s) => Ok(EvalResult::PrintStmt(s)),
            Command::Fold(n) => {
                let mut n = n;
                n.fold();
                Ok(EvalResult::PrintVal(MaybeScheme::Inst(Value::Numeric(n))))
            },
            Command::PrintEnv => Ok(EvalResult::PrintEnv(copy_stmts(self.env.premises()))),
            Command::Reset => {
                *self = Evaluator::new();
                Ok(EvalResult::Unit)
            },
        }
    }

    /// Compiles the statements of an input and adds them.
    pub fn eval_input(&mut self, ast: Input) -> (r: Result<(), CompileError>)
        requires
            asserts_compiled(ast.0.0@, old(self)@.ctx) is Some,
        ensures
            match asserts_compiled(ast.0.0@, old(self)@.ctx).unwrap() {
                (Ok(v), c2) => r is Ok && final(self)@ == (EvaluatorV { env: old(self)@.env + v, ctx: c2 }),
                (Err(k), c2) => r matches Err(e) && e@ == k && final(self)@ == (EvaluatorV {
                    env: old(self)@.env,
                    ctx: c2,
                }),
            },
    {
        let v = ast.compile(&mut self.compile_ctx)?;
        self.state_all(&v);
        Ok(())
    }

    /// As `next_solution`, with each step of the search reported to `tracer` first.
    pub fn next_solution_traced<T: crate::env::Tracer>(&mut self, solver: &mut Solver, budget: u64, tracer: &mut T) -> (r: Step)
        requires
            run_spec(old(solver)@, old(self)@.env, old(self)@.ctx.next, budget as nat) is Some,
        ensures
            run_spec(old(solver)@, old(self)@.env, old(self)@.ctx.next, budget as nat) == Some(
                (final(solver)@, final(self)@.ctx.next, r@),
            ),
            final(self)@.env == old(self)@.env,
            final(self)@.ctx.preds == old(self)@.ctx.preds,
    {
        let src = self.compile_ctx.var_src();
        solver.next_traced(&self.env, src, budget, tracer)
    }

    /// Goes on with the search of a query over the statements so far: up to `budget` steps,
    /// to the next solution or the end of the search.
    pub fn next_solution(&mut self, solver: &mut Solver, budget: u64) -> (r: Step)
        requires
            run_spec(old(solver)@, old(self)@.env, old(self)@.ctx.next, budget as nat) is Some,
        ensures
            run_spec(old(solver)@, old(self)@.env, old(self)@.ctx.next, budget as nat) == Some(
                (final(solver)@, final(self)@.ctx.next, r@),
            ),
            final(self)@.env == old(self)@.env,
            final(self)@.ctx.preds == old(self)@.ctx.preds,
    {
        let src = self.compile_ctx.var_src();
        solver.next(&self.env, src, budget)
    }
}

} // verus!
