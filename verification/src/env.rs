use vstd::prelude::*;

use crate::clause::{clause_sub, Clause, ClauseV, Statement, StatementV};
use crate::pred::{app_unify, App, AppV};
use crate::scheme::{can_inst, inst_count, maybe_inst, MaybeScheme, MaybeSchemeV};
use crate::sub::{compose, restrict, Sub, SubV};
use crate::thing::{free_of, Thing, Unify};
use crate::var::VarSource;

verus! {

/// The model of a continuation frame: what becomes of a solution delivered to it.
pub enum FrameV {
    /// The left side of a conjunction was solved: the right side is solved next.
    AndRight(ClauseV),
    /// The right side of a conjunction was solved: its solution is composed onto this one.
    Compose(SubV),
    /// The body of a statement was solved for the goal: the answer is composed, restricted to
    /// the goal's variables and checked against the goal.
    Answer(AppV, SubV),
    /// A negated goal was solved: the negation fails, and the choices from this height on go.
    Refute(nat),
}

/// The model of a choice point: where the search goes on when the current branch fails.
pub enum ChoiceV {
    /// The right side of a disjunction, with its continuation.
    Alternative(ClauseV, Seq<FrameV>),
    /// The statements of the environment from the given position on, for the goal.
    NextStatement(AppV, nat, Seq<FrameV>),
    /// A negated goal had no solution: the negation holds.
    Refuted(Seq<FrameV>),
}

/// The model of what the solver does next.
pub enum TaskV {
    Solve(ClauseV, Seq<FrameV>),
    Deliver(SubV, Seq<FrameV>),
    TryStatement(AppV, nat, Seq<FrameV>),
    Backtrack,
}

/// The model of a solver: its next task and its choice points, the last one on top.
pub struct SolverV {
    pub task: TaskV,
    pub choices: Seq<ChoiceV>,
}

/// The model of the outcome of a step.
pub enum StepV {
    /// A solution of the query.
    Yield(SubV),
    /// Work was done; no solution yet.
    Continue,
    /// The query has no more solutions.
    Done,
}

/// The head of a statement, generalized or not.
pub open spec fn stmt_head(m: MaybeSchemeV<StatementV>) -> AppV {
    match m {
        MaybeSchemeV::Scheme(s) => s.val.lhs,
        MaybeSchemeV::Inst(i) => i.lhs,
    }
}

/// The solver after starting on clause `c` with continuation `k`.
pub open spec fn solve_step(c: ClauseV, k: Seq<FrameV>, ch: Seq<ChoiceV>) -> SolverV {
    match c {
        ClauseV::Top => SolverV { task: TaskV::Deliver(Seq::empty(), k), choices: ch },
        ClauseV::Bot => SolverV { task: TaskV::Backtrack, choices: ch },
        ClauseV::App(a) => SolverV { task: TaskV::TryStatement(a, 0, k), choices: ch },
        ClauseV::Not(x) => SolverV {
            task: TaskV::Solve(*x, seq![FrameV::Refute(ch.len())]),
            choices: ch.push(ChoiceV::Refuted(k)),
        },
        ClauseV::And(a, b) => SolverV {
            task: TaskV::Solve(*a, k.push(FrameV::AndRight(*b))),
            choices: ch,
        },
        ClauseV::Or(a, b) => SolverV {
            task: TaskV::Solve(*a, k),
            choices: ch.push(ChoiceV::Alternative(*b, k)),
        },
    }
}

/// The solver and the variable counter after trying statement `i` of `env` on goal `a`.
/// A statement whose head names another predicate, or which fails to instantiate, unify with
/// the goal, or take the unifier into its body, fails; otherwise its body is solved next.
/// Either way the next statement is left as a choice. `None` where instantiating overflows the
/// variable numbers or a unification or substitution on the way is undefined (it does not
/// terminate, or folding a numeric expression overflows or divides by zero).
pub open spec fn try_step(
    a: AppV,
    i: nat,
    k: Seq<FrameV>,
    ch: Seq<ChoiceV>,
    env: Seq<MaybeSchemeV<StatementV>>,
    n: u32,
) -> Option<(SolverV, u32)> {
    if i >= env.len() {
        Some((SolverV { task: TaskV::Backtrack, choices: ch }, n))
    } else {
        let ch2 = ch.push(ChoiceV::NextStatement(a, i + 1, k));
        let fail = SolverV { task: TaskV::Backtrack, choices: ch2 };
        let stmt = env[i as int];
        if stmt_head(stmt).pred != a.pred {
            Some((fail, n))
        } else if !can_inst::<Statement>(stmt, n) {
            None
        } else {
            let n2 = (n + inst_count(stmt)) as u32;
            match maybe_inst::<Statement>(stmt, n).unwrap() {
                Err(_) => Some((fail, n2)),
                Ok(st) => match app_unify(st.lhs, a) {
                    None => None,
                    Some(Err(_)) => Some((fail, n2)),
                    Some(Ok(s)) => match clause_sub(st.rhs, s) {
                        None => None,
                        Some(Err(_)) => Some((fail, n2)),
                        Some(Ok(rhs)) => Some(
                            (
                                SolverV {
                                    task: TaskV::Solve(rhs, k.push(FrameV::Answer(a, s))),
                                    choices: ch2,
                                },
                                n2,
                            ),
                        ),
                    },
                },
            }
        }
    }
}

/// The answer that a statement's unifier `s1` and its body's solution `s` give for goal `a`:
/// their composition, restricted to the variables of `a`, if it fits `a`.
pub open spec fn answer_for(a: AppV, s1: SubV, s: SubV) -> Option<Option<SubV>> {
    match compose(s1, s) {
        None => None,
        Some(Err(_)) => Some(None),
        Some(Ok(r)) => {
            let r2 = restrict(r, free_of::<App>(a));
            if <App as Thing>::fits(a, r2) {
                Some(Some(r2))
            } else {
                Some(None)
            }
        },
    }
}

/// Restricting a substitution to some variables keeps what each of those variables reads.
pub proof fn lemma_lookup_restrict(c: SubV, vs: Seq<crate::var::VarV>, x: crate::var::VarV)
    requires
        crate::sub::keys_distinct(c),
        vs.contains(x),
    ensures
        crate::sub::lookup(restrict(c, vs), x) == crate::sub::lookup(c, x),
{
    let p = |q: (crate::var::VarV, crate::term::ValueV)| vs.contains(q.0);
    let f = c.filter(p);
    assert(restrict(c, vs) == f);
    crate::sub::lemma_filter_keys_distinct(c, p);
    if crate::sub::has_key(c, x) {
        let i = crate::sub::key_index(c, x);
        crate::sub::lemma_sub_get_at(c, i);
        c.lemma_filter_contains(p, i);
        let k = choose|k: int| 0 <= k < f.len() && f[k] == c[i];
        crate::sub::lemma_sub_get_at(f, k);
    } else {
        assert(!crate::sub::has_key(f, x)) by {
            if crate::sub::has_key(f, x) {
                let k = choose|k: int| 0 <= k < f.len() && f[k].0 == x;
                assert(c.contains(f[k]));
                let j = choose|j: int| 0 <= j < c.len() && c[j] == f[k];
                assert(c[j].0 == x);
            }
        }
    }
}

/// An answer is the statement's head unifier followed by its body's solution: each
/// variable of the goal reads, in the answer, what it reads under the unifier with the
/// body's solution substituted in; and the answer binds only variables of the goal.
pub proof fn lemma_answer_for_sound(a: AppV, s1: SubV, s: SubV)
    requires
        crate::sub::keys_distinct(s1),
        crate::sub::keys_distinct(s),
        answer_for(a, s1, s) matches Some(Some(_)),
    ensures
        ({
            let r = answer_for(a, s1, s).unwrap().unwrap();
            &&& forall|x: crate::var::VarV| #[trigger] free_of::<App>(a).contains(x) ==> crate::subst::value_sub(
                crate::sub::lookup(s1, x),
                s,
            ) == Some(Ok::<crate::term::ValueV, crate::error::ErrorV>(crate::sub::lookup(r, x)))
            &&& forall|i: int| 0 <= i < r.len() ==> free_of::<App>(a).contains(#[trigger] r[i].0)
        }),
{
    let c = compose(s1, s).unwrap()->Ok_0;
    let vs = free_of::<App>(a);
    let r = restrict(c, vs);
    assert forall|x: crate::var::VarV| #[trigger] vs.contains(x) implies crate::subst::value_sub(
        crate::sub::lookup(s1, x),
        s,
    ) == Some(Ok::<crate::term::ValueV, crate::error::ErrorV>(crate::sub::lookup(r, x))) by {
        crate::subst::lemma_lookup_compose(s1, s, x);
        lemma_lookup_restrict(c, vs, x);
    }
    let p = |q: (crate::var::VarV, crate::term::ValueV)| vs.contains(q.0);
    assert forall|i: int| 0 <= i < r.len() implies vs.contains(#[trigger] r[i].0) by {
        c.lemma_filter_pred(p, i);
    }
}

/// The solver and the outcome after delivering solution `s` to continuation `k`: with no
/// frame left it is a solution of the query. `None` where a substitution on the way is
/// undefined.
pub open spec fn deliver_step(s: SubV, k: Seq<FrameV>, ch: Seq<ChoiceV>) -> Option<(SolverV, StepV)> {
    let fail = SolverV { task: TaskV::Backtrack, choices: ch };
    if k.len() == 0 {
        Some((fail, StepV::Yield(s)))
    } else {
        let rest = k.drop_last();
        match k.last() {
            FrameV::AndRight(b) => match clause_sub(b, s) {
                None => None,
                Some(Err(_)) => Some((fail, StepV::Continue)),
                Some(Ok(b2)) => Some(
                    (
                        SolverV { task: TaskV::Solve(b2, rest.push(FrameV::Compose(s))), choices: ch },
                        StepV::Continue,
                    ),
                ),
            },
            FrameV::Compose(s1) => match compose(s1, s) {
                None => None,
                Some(Err(_)) => Some((fail, StepV::Continue)),
                Some(Ok(r)) => Some(
                    (SolverV { task: TaskV::Deliver(r, rest), choices: ch }, StepV::Continue),
                ),
            },
            FrameV::Answer(a, s1) => match answer_for(a, s1, s) {
                None => None,
                Some(None) => Some((fail, StepV::Continue)),
                Some(Some(r)) => Some(
                    (SolverV { task: TaskV::Deliver(r, rest), choices: ch }, StepV::Continue),
                ),
            },
            FrameV::Refute(m) => Some(
                (
                    SolverV {
                        task: TaskV::Backtrack,
                        choices: if m <= ch.len() {
                            ch.take(m as int)
                        } else {
                            ch
                        },
                    },
                    StepV::Continue,
                ),
            ),
        }
    }
}

/// The solver and the outcome after the current branch fails: the last choice point is
/// taken up, or, with none left, the query is done.
pub open spec fn backtrack_step(ch: Seq<ChoiceV>) -> (SolverV, StepV) {
    if ch.len() == 0 {
        (SolverV { task: TaskV::Backtrack, choices: ch }, StepV::Done)
    } else {
        let rest = ch.drop_last();
        let task = match ch.last() {
            ChoiceV::Alternative(b, k) => TaskV::Solve(b, k),
            ChoiceV::NextStatement(a, i, k) => TaskV::TryStatement(a, i, k),
            ChoiceV::Refuted(k) => TaskV::Deliver(Seq::empty(), k),
        };
        (SolverV { task: task, choices: rest }, StepV::Continue)
    }
}

/// One step of the solver over environment `env`, with `n` the next fresh variable number:
/// the new solver, the new number and the outcome. `None` where the step is undefined: a
/// substitution or unification on the way does not terminate or folds a numeric expression
/// that overflows or divides by zero, or the fresh variables would run out.
#[verifier::opaque]
pub open spec fn step_spec(st: SolverV, env: Seq<MaybeSchemeV<StatementV>>, n: u32) -> Option<
    (SolverV, u32, StepV),
> {
    match st.task {
        TaskV::Solve(c, k) => Some((solve_step(c, k, st.choices), n, StepV::Continue)),
        TaskV::TryStatement(a, i, k) => match try_step(a, i, k, st.choices, env, n) {
            None => None,
            Some((st2, n2)) => Some((st2, n2, StepV::Continue)),
        },
        TaskV::Deliver(s, k) => match deliver_step(s, k, st.choices) {
            None => None,
            Some((st2, r)) => Some((st2, n, r)),
        },
        TaskV::Backtrack => {
            let (st2, r) = backtrack_step(st.choices);
            Some((st2, n, r))
        },
    }
}

/// Up to `fuel` steps, stopping at the first solution or at the end of the search.
pub open spec fn run_spec(st: SolverV, env: Seq<MaybeSchemeV<StatementV>>, n: u32, fuel: nat) -> Option<
    (SolverV, u32, StepV),
>
    decreases fuel,
{
    if fuel == 0 {
        Some((st, n, StepV::Continue))
    } else {
        match step_spec(st, env, n) {
            None => None,
            Some((st2, n2, r)) => match r {
                StepV::Continue => run_spec(st2, env, n2, (fuel - 1) as nat),
                _ => Some((st2, n2, r)),
            },
        }
    }
}

} // verus!

verus! {

/// What becomes of a solution delivered to a continuation.
#[derive(Debug)]
pub enum Frame {
    AndRight(Clause),
    Compose(Sub),
    Answer(App, Sub),
    Refute(usize),
}

/// A point where the search goes on when the current branch fails.
#[derive(Debug)]
pub enum Choice {
    Alternative(Clause, Vec<Frame>),
    NextStatement(App, usize, Vec<Frame>),
    Refuted(Vec<Frame>),
}

/// What the solver does next.
#[derive(Debug)]
pub enum Task {
    Solve(Clause, Vec<Frame>),
    Deliver(Sub, Vec<Frame>),
    TryStatement(App, usize, Vec<Frame>),
    Backtrack,
}

/// The outcome of a step of the solver.
#[derive(Debug)]
pub enum Step {
    Yield(Sub),
    Continue,
    Done,
}

impl View for Frame {
    type V = FrameV;

    open spec fn view(&self) -> FrameV {
        match self {
            Frame::AndRight(b) => FrameV::AndRight(b@),
            Frame::Compose(s) => FrameV::Compose(s@),
            Frame::Answer(a, s) => FrameV::Answer(a@, s@),
            Frame::Refute(m) => FrameV::Refute(*m as nat),
        }
    }
}

/// The model of a continuation, innermost frame last.
pub open spec fn frames_view(k: Seq<Frame>) -> Seq<FrameV> {
    k.map_values(|f: Frame| f@)
}

impl View for Choice {
    type V = ChoiceV;

    open spec fn view(&self) -> ChoiceV {
        match self {
            Choice::Alternative(b, k) => ChoiceV::Alternative(b@, frames_view(k@)),
            Choice::NextStatement(a, i, k) => ChoiceV::NextStatement(a@, *i as nat, frames_view(k@)),
            Choice::Refuted(k) => ChoiceV::Refuted(frames_view(k@)),
        }
    }
}

/// The model of a stack of choice points, the last one on top.
pub open spec fn choices_view(c: Seq<Choice>) -> Seq<ChoiceV> {
    c.map_values(|x: Choice| x@)
}

impl View for Task {
    type V = TaskV;

    open spec fn view(&self) -> TaskV {
        match self {
            Task::Solve(c, k) => TaskV::Solve(c@, frames_view(k@)),
            Task::Deliver(s, k) => TaskV::Deliver(s@, frames_view(k@)),
            Task::TryStatement(a, i, k) => TaskV::TryStatement(a@, *i as nat, frames_view(k@)),
            Task::Backtrack => TaskV::Backtrack,
        }
    }
}

impl View for Step {
    type V = StepV;

    open spec fn view(&self) -> StepV {
        match self {
            Step::Yield(s) => StepV::Yield(s@),
            Step::Continue => StepV::Continue,
            Step::Done => StepV::Done,
        }
    }
}

/// A copy of a frame.
fn copy_frame(f: &Frame) -> (r: Frame)
    ensures
        r@ == f@,
{
    match f {
        Frame::AndRight(b) => Frame::AndRight(b.duplicate()),
        Frame::Compose(s) => Frame::Compose(s.duplicate()),
        Frame::Answer(a, s) => Frame::Answer(a.duplicate(), s.duplicate()),
        Frame::Refute(m) => Frame::Refute(*m),
    }
}

/// A copy of a continuation.
fn copy_frames(k: &Vec<Frame>) -> (r: Vec<Frame>)
    ensures
        frames_view(r@) == frames_view(k@),
{
    let mut out: Vec<Frame> = Vec::new();
    let n = k.len();
    let mut i: usize = 0;
    while i < n
        invariant
            n == k@.len(),
            i <= n,
            frames_view(out@) =~= frames_view(k@).take(i as int),
        decreases n - i,
    {
        let f = copy_frame(&k[i]);
        let ghost pre = out@;
        out.push(f);
        proof {
            assert(frames_view(out@) =~= frames_view(pre).push(out@[i as int]@));
            assert(frames_view(k@).take(i + 1) =~= frames_view(k@).take(i as int).push(k@[i as int]@));
        }
        i = i + 1;
    }
    proof {
        assert(frames_view(k@).take(n as int) =~= frames_view(k@));
    }
    out
}

} // verus!

verus! {

/// What a traced search reports as it goes, for whoever shows a traced query: before
/// each step, the task that the step takes up. Nothing is asked of it; the search is the
/// same whatever it does.
pub trait Tracer {
    fn trace(&mut self, task: &Task);
}

/// The statements known so far, in the order they were stated.
pub struct Env(Vec<MaybeScheme<Statement>>);

impl View for Env {
    type V = Seq<MaybeSchemeV<StatementV>>;

    closed spec fn view(&self) -> Seq<MaybeSchemeV<StatementV>> {
        self.0@.map_values(|m: MaybeScheme<Statement>| m@)
    }
}

/// The search for the solutions of a query, one step at a time.
#[derive(Debug)]
pub struct Solver {
    task: Task,
    choices: Vec<Choice>,
}

impl View for Solver {
    type V = SolverV;

    closed spec fn view(&self) -> SolverV {
        SolverV { task: self.task@, choices: choices_view(self.choices@) }
    }
}

impl Env {
    /// An environment with no statements.
    pub fn new() -> (r: Env)
        ensures
            r@ == Seq::<MaybeSchemeV<StatementV>>::empty(),
    {
        let r = Env(Vec::new());
        proof {
            assert(r@ =~= Seq::<MaybeSchemeV<StatementV>>::empty());
        }
        r
    }

    /// The statements, in the order they were stated.
    pub fn premises(&self) -> (r: &Vec<MaybeScheme<Statement>>)
        ensures
            r@.map_values(|m: MaybeScheme<Statement>| m@) == self@,
    {
        &self.0
    }

    /// Adds a statement after the others.
    pub fn state(&mut self, stmt: MaybeScheme<Statement>)
        ensures
            final(self)@ == old(self)@.push(stmt@),
    {
        let ghost pre = self.0@;
        self.0.push(stmt);
        proof {
            assert(self.0@.map_values(|m: MaybeScheme<Statement>| m@) =~= pre.map_values(
                |m: MaybeScheme<Statement>| m@,
            ).push(stmt@));
        }
    }

    /// The search for the solutions of `clause`.
    pub fn solve_clause(&self, clause: Clause) -> (r: Solver)
        ensures
            r@ == (SolverV { task: TaskV::Solve(clause@, Seq::empty()), choices: Seq::empty() }),
    {
        let r = Solver { task: Task::Solve(clause, Vec::new()), choices: Vec::new() };
        proof {
            assert(frames_view(Seq::<Frame>::empty()) =~= Seq::<FrameV>::empty());
            assert(choices_view(Seq::<Choice>::empty()) =~= Seq::<ChoiceV>::empty());
        }
        r
    }

    /// The search for the answers to goal `app`: each statement whose head unifies with it,
    /// in order, through the solutions of its body.
    pub fn solve_app(&self, app: App) -> (r: Solver)
        ensures
            r@ == (SolverV { task: TaskV::TryStatement(app@, 0, Seq::empty()), choices: Seq::empty() }),
            goal_inv(r@, app@),
    {
        let r = Solver { task: Task::TryStatement(app, 0, Vec::new()), choices: Vec::new() };
        proof {
            assert(frames_view(Seq::<Frame>::empty()) =~= Seq::<FrameV>::empty());
            assert(choices_view(Seq::<Choice>::empty()) =~= Seq::<ChoiceV>::empty());
        }
        r
    }
}

impl Solver {
    fn push_choice(&mut self, c: Choice)
        ensures
            final(self)@ == (SolverV { task: old(self)@.task, choices: old(self)@.choices.push(c@) }),
    {
        let ghost pre = self.choices@;
        self.choices.push(c);
        proof {
            assert(choices_view(self.choices@) =~= choices_view(pre).push(c@));
        }
    }

    fn set_task(&mut self, t: Task)
        ensures
            final(self)@ == (SolverV { task: t@, choices: old(self)@.choices }),
    {
        self.task = t;
    }

    /// Starts on clause `c` with continuation `k`.
    fn solve(&mut self, c: Clause, k: Vec<Frame>)
        ensures
            final(self)@ == solve_step(c@, frames_view(k@), old(self)@.choices),
    {
        match c {
            Clause::Top => self.set_task(Task::Deliver(Sub::top(), k)),
            Clause::Bot => self.set_task(Task::Backtrack),
            Clause::App(a) => self.set_task(Task::TryStatement(a, 0, k)),
            Clause::Not(x) => {
                let m = self.choices.len();
                self.push_choice(Choice::Refuted(k));
                let mut k2: Vec<Frame> = Vec::new();
                k2.push(Frame::Refute(m));
                proof {
                    assert(frames_view(k2@) =~= seq![FrameV::Refute(m as nat)]);
                }
                self.set_task(Task::Solve(*x, k2));
            },
            Clause::And(a, b) => {
                let mut k2 = k;
                let ghost pre = k2@;
                k2.push(Frame::AndRight(*b));
                proof {
                    assert(frames_view(k2@) =~= frames_view(pre).push(FrameV::AndRight(b@)));
                }
                self.set_task(Task::Solve(*a, k2));
            },
            Clause::Or(a, b) => {
                let k2 = copy_frames(&k);
                self.push_choice(Choice::Alternative(*b, k2));
                self.set_task(Task::Solve(*a, k));
            },
        }
    }

    /// Takes up the last choice point.
    fn backtrack(&mut self) -> (r: Step)
        ensures
            backtrack_step(old(self)@.choices) == (final(self)@, r@),
    {
        let ghost pre = self.choices@;
        match self.choices.pop() {
            None => {
                self.set_task(Task::Backtrack);
                Step::Done
            },
            Some(c) => {
                proof {
                    assert(choices_view(self.choices@) =~= choices_view(pre).drop_last());
                    assert(choices_view(pre).last() == c@);
                }
                match c {
                    Choice::Alternative(b, k) => self.set_task(Task::Solve(b, k)),
                    Choice::NextStatement(a, i, k) => self.set_task(Task::TryStatement(a, i, k)),
                    Choice::Refuted(k) => self.set_task(Task::Deliver(Sub::top(), k)),
                }
                Step::Continue
            },
        }
    }
}

} // verus!

verus! {

impl Solver {
    fn truncate_choices(&mut self, m: usize)
        ensures
            final(self)@ == (SolverV {
                task: old(self)@.task,
                choices: if m <= old(self)@.choices.len() {
                    old(self)@.choices.take(m as int)
                } else {
                    old(self)@.choices
                },
            }),
    {
        let ghost pre = self.choices@;
        self.choices.truncate(m);
        proof {
            if m <= pre.len() {
                assert(choices_view(self.choices@) =~= choices_view(pre).take(m as int));
            }
        }
    }

    /// Delivers solution `s` to continuation `k`.
    fn deliver(&mut self, s: Sub, k: Vec<Frame>) -> (r: Step)
        requires
            deliver_step(s@, frames_view(k@), old(self)@.choices) is Some,
        ensures
            deliver_step(s@, frames_view(k@), old(self)@.choices) == Some((final(self)@, r@)),
    {
        let ghost kv = frames_view(k@);
        let mut k = k;
        let ghost pre = k@;
        match k.pop() {
            None => {
                self.set_task(Task::Backtrack);
                Step::Yield(s)
            },
            Some(f) => {
                proof {
                    assert(frames_view(k@) =~= kv.drop_last());
                    assert(kv.last() == f@);
                }
                match f {
                    Frame::AndRight(b) => match b.sub(&s) {
                        Ok(b2) => {
                            let ghost pk = k@;
                            let ghost sv = s@;
                            k.push(Frame::Compose(s));
                            proof {
                                assert(frames_view(k@) =~= frames_view(pk).push(FrameV::Compose(sv)));
                            }
                            self.set_task(Task::Solve(b2, k));
                        },
                        Err(_) => self.set_task(Task::Backtrack),
                    },
                    Frame::Compose(s1) => match s1.sub(&s) {
                        Ok(r) => self.set_task(Task::Deliver(r, k)),
                        Err(_) => self.set_task(Task::Backtrack),
                    },
                    Frame::Answer(a, s1) => match s1.sub(&s) {
                        Ok(r) => {
                            let r2 = r.relevant_to(&a);
                            if a.can_sub(&r2) {
                                self.set_task(Task::Deliver(r2, k));
                            } else {
                                self.set_task(Task::Backtrack);
                            }
                        },
                        Err(_) => self.set_task(Task::Backtrack),
                    },
                    Frame::Refute(m) => {
                        self.truncate_choices(m);
                        self.set_task(Task::Backtrack);
                    },
                }
                Step::Continue
            },
        }
    }
}

} // verus!

verus! {

impl Solver {
    /// Tries statement `i` of `env` on goal `a`, with continuation `k`.
    fn try_statement(&mut self, a: App, i: usize, k: Vec<Frame>, env: &Env, src: &mut VarSource)
        requires
            try_step(a@, i as nat, frames_view(k@), old(self)@.choices, env@, old(src).next_index()) is Some,
        ensures
            try_step(a@, i as nat, frames_view(k@), old(self)@.choices, env@, old(src).next_index())
                == Some((final(self)@, final(src).next_index())),
    {
        if i >= env.0.len() {
            self.set_task(Task::Backtrack);
            return;
        }
        let stmt = &env.0[i];
        proof {
            assert(env@[i as int] == stmt@);
        }
        self.push_choice(Choice::NextStatement(a.duplicate(), i + 1, copy_frames(&k)));
        let head: &App = match stmt {
            MaybeScheme::Scheme(s) => s.val().lhs(),
            MaybeScheme::Inst(x) => x.lhs(),
        };
        let hp: &crate::pred::Pred = &**head.pred();
        let ap: &crate::pred::Pred = &**a.pred();
        if !hp.same(ap) {
            self.set_task(Task::Backtrack);
            return;
        }
        match stmt.as_inst(src) {
            Err(_) => self.set_task(Task::Backtrack),
            Ok(st) => match st.lhs().unify(&a) {
                Err(_) => self.set_task(Task::Backtrack),
                Ok(sub) => match st.rhs().duplicate().sub(&sub) {
                    Err(_) => self.set_task(Task::Backtrack),
                    Ok(rhs) => {
                        let mut k2 = k;
                        let ghost pk = k2@;
                        let ghost fr = FrameV::Answer(a@, sub@);
                        k2.push(Frame::Answer(a, sub));
                        proof {
                            assert(frames_view(k2@) =~= frames_view(pk).push(fr));
                        }
                        self.set_task(Task::Solve(rhs, k2));
                    },
                },
            },
        }
    }

    /// One step of the search over `env`, taking fresh variables from `src`.
    pub fn step(&mut self, env: &Env, src: &mut VarSource) -> (r: Step)
        requires
            step_spec(old(self)@, env@, old(src).next_index()) is Some,
        ensures
            step_spec(old(self)@, env@, old(src).next_index()) == Some(
                (final(self)@, final(src).next_index(), r@),
            ),
    {
        proof {
            reveal(step_spec);
        }
        let mut task = Task::Backtrack;
        std::mem::swap(&mut task, &mut self.task);
        match task {
            Task::Solve(c, k) => {
                self.solve(c, k);
                Step::Continue
            },
            Task::TryStatement(a, i, k) => {
                self.try_statement(a, i, k, env, src);
                Step::Continue
            },
            Task::Deliver(s, k) => self.deliver(s, k),
            Task::Backtrack => self.backtrack(),
        }
    }

    /// One step of the search, reported first to `tracer`: the task that the step takes up.
    /// The step itself is that of `step`.
    pub fn step_traced<T: Tracer>(&mut self, env: &Env, src: &mut VarSource, tracer: &mut T) -> (r: Step)
        requires
            step_spec(old(self)@, env@, old(src).next_index()) is Some,
        ensures
            step_spec(old(self)@, env@, old(src).next_index()) == Some(
                (final(self)@, final(src).next_index(), r@),
            ),
    {
        tracer.trace(&self.task);
        self.step(env, src)
    }

    /// As `next`, with each step reported to `tracer` first.
    pub fn next_traced<T: Tracer>(&mut self, env: &Env, src: &mut VarSource, budget: u64, tracer: &mut T) -> (r: Step)
        requires
            run_spec(old(self)@, env@, old(src).next_index(), budget as nat) is Some,
        ensures
            run_spec(old(self)@, env@, old(src).next_index(), budget as nat) == Some(
                (final(self)@, final(src).next_index(), r@),
            ),
    {
        let ghost goal = run_spec(self@, env@, src.next_index(), budget as nat);
        let mut left = budget;
        loop
            invariant
                run_spec(self@, env@, src.next_index(), left as nat) == goal,
                goal == run_spec(old(self)@, env@, old(src).next_index(), budget as nat),
                goal is Some,
            decreases left,
        {
            if left == 0 {
                return Step::Continue;
            }
            let r = self.step_traced(env, src, tracer);
            match r {
                Step::Continue => {
                    left = left - 1;
                },
                _ => {
                    return r;
                },
            }
        }
    }

    /// Steps until a solution turns up, the search ends, or `budget` steps are spent
    /// (`Continue`).
    pub fn next(&mut self, env: &Env, src: &mut VarSource, budget: u64) -> (r: Step)
        requires
            run_spec(old(self)@, env@, old(src).next_index(), budget as nat) is Some,
        ensures
            run_spec(old(self)@, env@, old(src).next_index(), budget as nat) == Some(
                (final(self)@, final(src).next_index(), r@),
            ),
            forall|a: AppV| #[trigger] goal_inv(old(self)@, a) ==> goal_inv(final(self)@, a) && (
            r@ matches StepV::Yield(s) ==> answer_ok(a, s)),
    {
        proof {
            assert forall|a: AppV| #[trigger] goal_inv(self@, a) implies ({
                let (st2, _, r2) = run_spec(self@, env@, src.next_index(), budget as nat).unwrap();
                goal_inv(st2, a) && (r2 matches StepV::Yield(s) ==> answer_ok(a, s))
            }) by {
                lemma_run_answers(self@, env@, src.next_index(), budget as nat, a);
            }
        }
        let ghost goal = run_spec(self@, env@, src.next_index(), budget as nat);
        let mut left = budget;
        loop
            invariant
                run_spec(self@, env@, src.next_index(), left as nat) == goal,
                goal == run_spec(old(self)@, env@, old(src).next_index(), budget as nat),
                goal is Some,
                forall|a: AppV| #[trigger] goal_inv(old(self)@, a) ==> goal_inv(goal.unwrap().0, a) && (
                goal.unwrap().2 matches StepV::Yield(s) ==> answer_ok(a, s)),
            decreases left,
        {
            if left == 0 {
                return Step::Continue;
            }
            let r = self.step(env, src);
            match r {
                Step::Continue => {
                    left = left - 1;
                },
                _ => {
                    return r;
                },
            }
        }
    }
}

} // verus!

verus! {

/// The search never takes back a fresh variable: the counter only grows.
pub proof fn lemma_step_counter_grows(st: SolverV, env: Seq<MaybeSchemeV<StatementV>>, n: u32)
    requires
        step_spec(st, env, n) is Some,
    ensures
        step_spec(st, env, n).unwrap().1 >= n,
{
    reveal(step_spec);
}

/// A search that is done stays done: each further step reports the end again and changes
/// nothing.
pub proof fn lemma_done_stays_done(env: Seq<MaybeSchemeV<StatementV>>, n: u32)
    ensures
        step_spec(SolverV { task: TaskV::Backtrack, choices: Seq::empty() }, env, n) == Some(
            (SolverV { task: TaskV::Backtrack, choices: Seq::<ChoiceV>::empty() }, n, StepV::Done),
        ),
{
    reveal(step_spec);
}

/// Whether continuation `k` has, as its outermost frame, the answer frame of a statement
/// tried on `app`, or the refutation frame of a negation.
pub open spec fn rooted(k: Seq<FrameV>, app: AppV) -> bool {
    &&& k.len() > 0
    &&& (k[0] matches FrameV::Answer(a, _) ==> a == app)
    &&& (k[0] is Answer || k[0] is Refute)
}

/// Whether `s` is an answer for goal `app`: it binds only variables of `app`, and it fits
/// `app`.
pub open spec fn answer_ok(app: AppV, s: SubV) -> bool {
    &&& forall|i: int| 0 <= i < s.len() ==> free_of::<App>(app).contains(#[trigger] s[i].0)
    &&& <App as Thing>::fits(app, s)
}

pub open spec fn choice_rooted(c: ChoiceV, app: AppV) -> bool {
    match c {
        ChoiceV::Alternative(_, k) => rooted(k, app),
        ChoiceV::NextStatement(a, _, k) => rooted(k, app) || (k.len() == 0 && a == app),
        ChoiceV::Refuted(k) => rooted(k, app),
    }
}

/// What holds of every state of a search for the answers to goal `app`.
pub open spec fn goal_inv(st: SolverV, app: AppV) -> bool {
    &&& match st.task {
        TaskV::Solve(_, k) => rooted(k, app),
        TaskV::Deliver(s, k) => rooted(k, app) || (k.len() == 0 && answer_ok(app, s)),
        TaskV::TryStatement(a, _, k) => rooted(k, app) || (k.len() == 0 && a == app),
        TaskV::Backtrack => true,
    }
    &&& forall|j: int| 0 <= j < st.choices.len() ==> choice_rooted(#[trigger] st.choices[j], app)
}

/// The search that `solve_app` starts for `app` keeps `goal_inv` from its first state.
pub proof fn lemma_goal_inv_start(app: AppV)
    ensures
        goal_inv(SolverV { task: TaskV::TryStatement(app, 0, Seq::empty()), choices: Seq::empty() }, app),
{
}

proof fn lemma_rooted_push(k: Seq<FrameV>, f: FrameV, app: AppV)
    requires
        rooted(k, app),
    ensures
        rooted(k.push(f), app),
        k.push(f)[0] == k[0],
{
}

proof fn lemma_rooted_drop_last(k: Seq<FrameV>, app: AppV)
    requires
        rooted(k, app),
        k.len() > 1,
    ensures
        rooted(k.drop_last(), app),
{
}

/// Every answer that a search for goal `app` yields binds only variables of `app` and fits
/// `app`: each step keeps `goal_inv`, and a step that yields under it yields such an answer.
pub proof fn lemma_goal_answers(st: SolverV, env: Seq<MaybeSchemeV<StatementV>>, n: u32, app: AppV)
    requires
        goal_inv(st, app),
        step_spec(st, env, n) is Some,
    ensures
        goal_inv(step_spec(st, env, n).unwrap().0, app),
        step_spec(st, env, n).unwrap().2 matches StepV::Yield(s) ==> answer_ok(app, s),
{
    reveal(step_spec);
    let ch = st.choices;
    match st.task {
        TaskV::Solve(c, k) => {
            let st2 = solve_step(c, k, ch);
            match c {
                ClauseV::Not(x) => {
                    let k2 = seq![FrameV::Refute(ch.len())];
                    assert(rooted(k2, app));
                    assert forall|j: int| 0 <= j < st2.choices.len() implies choice_rooted(
                        #[trigger] st2.choices[j],
                        app,
                    ) by {
                        if j < ch.len() {
                            assert(st2.choices[j] == ch[j]);
                        }
                    }
                },
                ClauseV::And(a, b) => {
                    lemma_rooted_push(k, FrameV::AndRight(*b), app);
                },
                ClauseV::Or(a, b) => {
                    assert forall|j: int| 0 <= j < st2.choices.len() implies choice_rooted(
                        #[trigger] st2.choices[j],
                        app,
                    ) by {
                        if j < ch.len() {
                            assert(st2.choices[j] == ch[j]);
                        }
                    }
                },
                _ => {},
            }
        },
        TaskV::TryStatement(a, i, k) => {
            if i < env.len() {
                let ch2 = ch.push(ChoiceV::NextStatement(a, i + 1, k));
                assert forall|j: int| 0 <= j < ch2.len() implies choice_rooted(#[trigger] ch2[j], app) by {
                    if j < ch.len() {
                        assert(ch2[j] == ch[j]);
                    }
                }
                let (st2, n2) = try_step(a, i, k, ch, env, n).unwrap();
                if let TaskV::Solve(rhs, k2) = st2.task {
                    let stmt = env[i as int];
                    let st = maybe_inst::<Statement>(stmt, n).unwrap()->Ok_0;
                    let s = app_unify(st.lhs, a).unwrap()->Ok_0;
                    if k.len() > 0 {
                        lemma_rooted_push(k, FrameV::Answer(a, s), app);
                    } else {
                        assert(k.push(FrameV::Answer(a, s))[0] == FrameV::Answer(a, s));
                    }
                }
            }
        },
        TaskV::Deliver(s, k) => {
            if k.len() > 0 {
                let rest = k.drop_last();
                if k.len() > 1 {
                    lemma_rooted_drop_last(k, app);
                    match k.last() {
                        FrameV::AndRight(b) => {
                            lemma_rooted_push(rest, FrameV::Compose(s), app);
                        },
                        _ => {},
                    }
                } else {
                    match k.last() {
                        FrameV::Answer(a, s1) => {
                            assert(k.last() == k[0]);
                            if let Some(Some(r2)) = answer_for(a, s1, s) {
                                let r = compose(s1, s).unwrap()->Ok_0;
                                let vars = free_of::<App>(a);
                                let p = |q: (crate::var::VarV, crate::term::ValueV)| vars.contains(q.0);
                                assert forall|i: int| 0 <= i < r2.len() implies vars.contains(#[trigger] r2[i].0) by {
                                    r.lemma_filter_pred(p, i);
                                }
                            }
                        },
                        FrameV::Refute(m) => {
                            let ch2 = if m <= ch.len() {
                                ch.take(m as int)
                            } else {
                                ch
                            };
                            assert forall|j: int| 0 <= j < ch2.len() implies choice_rooted(#[trigger] ch2[j], app) by {
                                assert(ch2[j] == ch[j]);
                            }
                        },
                        _ => {},
                    }
                }
                match k.last() {
                    FrameV::Refute(m) => {
                        let ch2 = if m <= ch.len() {
                            ch.take(m as int)
                        } else {
                            ch
                        };
                        assert forall|j: int| 0 <= j < ch2.len() implies choice_rooted(#[trigger] ch2[j], app) by {
                            assert(ch2[j] == ch[j]);
                        }
                    },
                    _ => {},
                }
            }
        },
        TaskV::Backtrack => {
            if ch.len() > 0 {
                let rest = ch.drop_last();
                assert(choice_rooted(ch[ch.len() - 1], app));
                assert forall|j: int| 0 <= j < rest.len() implies choice_rooted(#[trigger] rest[j], app) by {
                    assert(rest[j] == ch[j]);
                }
            }
        },
    }
}

/// Whatever runs of the search for goal `app` come one after another, from the state that
/// `solve_app` starts it in: every answer yielded binds only variables of `app` and fits
/// `app`, and the search stays in a state from which this goes on holding.
pub proof fn lemma_run_answers(st: SolverV, env: Seq<MaybeSchemeV<StatementV>>, n: u32, fuel: nat, app: AppV)
    requires
        goal_inv(st, app),
        run_spec(st, env, n, fuel) is Some,
    ensures
        goal_inv(run_spec(st, env, n, fuel).unwrap().0, app),
        run_spec(st, env, n, fuel).unwrap().2 matches StepV::Yield(s) ==> answer_ok(app, s),
    decreases fuel,
{
    if fuel > 0 {
        lemma_goal_answers(st, env, n, app);
        let (st2, n2, r) = step_spec(st, env, n).unwrap();
        if r is Continue {
            lemma_run_answers(st2, env, n2, (fuel - 1) as nat, app);
        }
    }
}

} // verus!

verus! {

/// A query of the true clause has one solution, the empty substitution, whatever is stated:
/// the search yields it on its second step and is done on its third.
pub proof fn lemma_top_one_solution(env: Seq<MaybeSchemeV<StatementV>>, n: u32)
    ensures
        ({
            let st0 = SolverV { task: TaskV::Solve(ClauseV::Top, Seq::empty()), choices: Seq::empty() };
            let st1 = SolverV { task: TaskV::Deliver(Seq::empty(), Seq::empty()), choices: Seq::empty() };
            let st2 = SolverV { task: TaskV::Backtrack, choices: Seq::<ChoiceV>::empty() };
            &&& step_spec(st0, env, n) == Some((st1, n, StepV::Continue))
            &&& step_spec(st1, env, n) == Some((st2, n, StepV::Yield(Seq::empty())))
            &&& step_spec(st2, env, n) == Some((st2, n, StepV::Done))
        }),
{
    reveal(step_spec);
}

/// A query of the false clause has no solution, whatever is stated.
pub proof fn lemma_bot_no_solution(env: Seq<MaybeSchemeV<StatementV>>, n: u32)
    ensures
        ({
            let st0 = SolverV { task: TaskV::Solve(ClauseV::Bot, Seq::empty()), choices: Seq::empty() };
            let st1 = SolverV { task: TaskV::Backtrack, choices: Seq::<ChoiceV>::empty() };
            &&& step_spec(st0, env, n) == Some((st1, n, StepV::Continue))
            &&& step_spec(st1, env, n) == Some((st1, n, StepV::Done))
        }),
{
    reveal(step_spec);
}

proof fn lemma_try_other_pred(env: Seq<MaybeSchemeV<StatementV>>, n: u32, app: AppV, i: nat)
    requires
        i < env.len(),
        stmt_head(env[i as int]).pred != app.pred,
    ensures
        step_spec(
            SolverV { task: TaskV::TryStatement(app, i, Seq::empty()), choices: Seq::empty() },
            env,
            n,
        ) == Some(
            (
                SolverV {
                    task: TaskV::Backtrack,
                    choices: seq![ChoiceV::NextStatement(app, i + 1, Seq::empty())],
                },
                n,
                StepV::Continue,
            ),
        ),
{
    reveal(step_spec);
    assert(Seq::<ChoiceV>::empty().push(ChoiceV::NextStatement(app, i + 1, Seq::empty())) =~= seq![
        ChoiceV::NextStatement(app, i + 1, Seq::empty())
    ]);
}

proof fn lemma_take_next_statement(env: Seq<MaybeSchemeV<StatementV>>, n: u32, app: AppV, i: nat)
    ensures
        step_spec(
            SolverV {
                task: TaskV::Backtrack,
                choices: seq![ChoiceV::NextStatement(app, i, Seq::empty())],
            },
            env,
            n,
        ) == Some(
            (
                SolverV { task: TaskV::TryStatement(app, i, Seq::empty()), choices: Seq::empty() },
                n,
                StepV::Continue,
            ),
        ),
{
    reveal(step_spec);
    assert(seq![ChoiceV::NextStatement(app, i, Seq::<FrameV>::empty())].drop_last()
        =~= Seq::<ChoiceV>::empty());
}

proof fn lemma_try_past_end(env: Seq<MaybeSchemeV<StatementV>>, n: u32, app: AppV, i: nat)
    requires
        i >= env.len(),
    ensures
        step_spec(
            SolverV { task: TaskV::TryStatement(app, i, Seq::empty()), choices: Seq::empty() },
            env,
            n,
        ) == Some((SolverV { task: TaskV::Backtrack, choices: Seq::<ChoiceV>::empty() }, n, StepV::Continue)),
{
    reveal(step_spec);
}

/// A goal whose predicate heads no statement has no answer: each statement is passed over
/// in two steps, and the search is done after them.
pub proof fn lemma_unknown_pred_no_answer(
    env: Seq<MaybeSchemeV<StatementV>>,
    n: u32,
    app: AppV,
    i: nat,
)
    requires
        i <= env.len(),
        forall|j: int| 0 <= j < env.len() ==> stmt_head(#[trigger] env[j]).pred != app.pred,
    ensures
        run_spec(
            SolverV { task: TaskV::TryStatement(app, i, Seq::empty()), choices: Seq::empty() },
            env,
            n,
            (2 * (env.len() - i) + 2) as nat,
        ) == Some((SolverV { task: TaskV::Backtrack, choices: Seq::<ChoiceV>::empty() }, n, StepV::Done)),
    decreases env.len() - i,
{
    let st0 = SolverV { task: TaskV::TryStatement(app, i, Seq::empty()), choices: Seq::empty() };
    let f = (2 * (env.len() - i) + 2) as nat;
    if i < env.len() {
        let st1 = SolverV {
            task: TaskV::Backtrack,
            choices: seq![ChoiceV::NextStatement(app, i + 1, Seq::empty())],
        };
        let st2 = SolverV { task: TaskV::TryStatement(app, i + 1, Seq::empty()), choices: Seq::empty() };
        lemma_try_other_pred(env, n, app, i);
        lemma_take_next_statement(env, n, app, i + 1);
        lemma_unknown_pred_no_answer(env, n, app, i + 1);
        assert(run_spec(st0, env, n, f) == run_spec(st1, env, n, (f - 1) as nat));
        assert(run_spec(st1, env, n, (f - 1) as nat) == run_spec(st2, env, n, (f - 2) as nat));
    } else {
        let st1 = SolverV { task: TaskV::Backtrack, choices: Seq::<ChoiceV>::empty() };
        lemma_try_past_end(env, n, app, i);
        lemma_done_stays_done(env, n);
        assert(run_spec(st0, env, n, f) == run_spec(st1, env, n, (f - 1) as nat));
    }
}

} // verus!
