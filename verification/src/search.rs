use vstd::prelude::*;

use crate::clause::{ClauseV, StatementV};
use crate::env::{
    backtrack_step, deliver_step, solve_step, step_spec, try_step, ChoiceV, FrameV, SolverV, StepV, TaskV,
};
use crate::scheme::MaybeSchemeV;
use crate::sub::SubV;

verus! {

/// All the answers of a search from state `st`, in order, with the variable counter at its
/// end; `None` where the search does not end within `fuel` steps or a step is undefined.
pub open spec fn answers(st: SolverV, env: Seq<MaybeSchemeV<StatementV>>, n: u32, fuel: nat) -> Option<
    (Seq<SubV>, u32),
>
    decreases fuel,
{
    if fuel == 0 {
        None
    } else {
        match step_spec(st, env, n) {
            None => None,
            Some((st2, n2, r)) => match r {
                StepV::Done => Some((Seq::empty(), n2)),
                StepV::Yield(s) => match answers(st2, env, n2, (fuel - 1) as nat) {
                    None => None,
                    Some((ss, n3)) => Some((seq![s] + ss, n3)),
                },
                StepV::Continue => answers(st2, env, n2, (fuel - 1) as nat),
            },
        }
    }
}

/// The state in which a query of clause `c` starts.
pub open spec fn query_start(c: ClauseV) -> SolverV {
    SolverV { task: TaskV::Solve(c, Seq::empty()), choices: Seq::empty() }
}

/// More fuel gives the same answers.
pub proof fn lemma_answers_fuel(st: SolverV, env: Seq<MaybeSchemeV<StatementV>>, n: u32, f: nat, g: nat)
    requires
        answers(st, env, n, f) is Some,
        f <= g,
    ensures
        answers(st, env, n, g) == answers(st, env, n, f),
    decreases f,
{
    if f > 0 {
        let (st2, n2, r) = step_spec(st, env, n).unwrap();
        if !(r is Done) {
            lemma_answers_fuel(st2, env, n2, (f - 1) as nat, (g - 1) as nat);
        }
    }
}

/// A frame of a search run inside another, seen from the outer one: negations refer to
/// heights of the choice stack, which the outer search's own choices raise by `d`.
pub open spec fn shift_frame(x: FrameV, d: nat) -> FrameV {
    match x {
        FrameV::Refute(m) => FrameV::Refute(m + d),
        _ => x,
    }
}

/// A continuation of the inner search seen from the outer one: unless it is that of a
/// negated goal (which starts with its refutation frame), it goes on into the outer `f`.
pub open spec fn embed_frames(k: Seq<FrameV>, f: Seq<FrameV>, d: nat) -> Seq<FrameV> {
    let sk = k.map_values(|x: FrameV| shift_frame(x, d));
    if k.len() > 0 && k[0] is Refute {
        sk
    } else {
        f + sk
    }
}

pub open spec fn embed_choice(c: ChoiceV, f: Seq<FrameV>, d: nat) -> ChoiceV {
    match c {
        ChoiceV::Alternative(b, k) => ChoiceV::Alternative(b, embed_frames(k, f, d)),
        ChoiceV::NextStatement(a, i, k) => ChoiceV::NextStatement(a, i, embed_frames(k, f, d)),
        ChoiceV::Refuted(k) => ChoiceV::Refuted(embed_frames(k, f, d)),
    }
}

pub open spec fn embed_choices(ch: Seq<ChoiceV>, f: Seq<FrameV>, base: Seq<ChoiceV>) -> Seq<ChoiceV> {
    base + ch.map_values(|c: ChoiceV| embed_choice(c, f, base.len()))
}

pub open spec fn embed_task(t: TaskV, f: Seq<FrameV>, d: nat) -> TaskV {
    match t {
        TaskV::Solve(c, k) => TaskV::Solve(c, embed_frames(k, f, d)),
        TaskV::Deliver(s, k) => TaskV::Deliver(s, embed_frames(k, f, d)),
        TaskV::TryStatement(a, i, k) => TaskV::TryStatement(a, i, embed_frames(k, f, d)),
        TaskV::Backtrack => TaskV::Backtrack,
    }
}

/// A search run inside another: its solutions go on into the outer continuation `f`, and
/// when its own choices are spent, the outer choices `base` are taken up.
pub open spec fn embed(st: SolverV, f: Seq<FrameV>, base: Seq<ChoiceV>) -> SolverV {
    SolverV { task: embed_task(st.task, f, base.len()), choices: embed_choices(st.choices, f, base) }
}

proof fn lemma_embed_push(k: Seq<FrameV>, x: FrameV, f: Seq<FrameV>, d: nat)
    requires
        !(x is Refute),
    ensures
        embed_frames(k.push(x), f, d) == embed_frames(k, f, d).push(shift_frame(x, d)),
{
    let g = |y: FrameV| shift_frame(y, d);
    assert(k.push(x).map_values(g) =~= k.map_values(g).push(g(x)));
    if k.len() > 0 {
        assert(k.push(x)[0] == k[0]);
    }
    assert(embed_frames(k.push(x), f, d) =~= embed_frames(k, f, d).push(shift_frame(x, d)));
}

proof fn lemma_embed_last(k: Seq<FrameV>, f: Seq<FrameV>, d: nat)
    requires
        k.len() > 0,
    ensures
        embed_frames(k, f, d).len() > 0,
        embed_frames(k, f, d).last() == shift_frame(k.last(), d),
        !(k.len() == 1 && k[0] is Refute) ==> embed_frames(k.drop_last(), f, d) == embed_frames(
            k,
            f,
            d,
        ).drop_last(),
{
    let g = |y: FrameV| shift_frame(y, d);
    assert(k.map_values(g).drop_last() =~= k.drop_last().map_values(g));
    if !(k.len() == 1 && k[0] is Refute) {
        if k.len() > 1 {
            assert(k.drop_last()[0] == k[0]);
        }
        assert(embed_frames(k.drop_last(), f, d) =~= embed_frames(k, f, d).drop_last());
    }
}

proof fn lemma_embed_choices_push(ch: Seq<ChoiceV>, c: ChoiceV, f: Seq<FrameV>, base: Seq<ChoiceV>)
    ensures
        embed_choices(ch.push(c), f, base) == embed_choices(ch, f, base).push(embed_choice(c, f, base.len())),
        embed_choices(ch, f, base).len() == base.len() + ch.len(),
{
    let g = |x: ChoiceV| embed_choice(x, f, base.len());
    assert(ch.push(c).map_values(g) =~= ch.map_values(g).push(g(c)));
    assert(embed_choices(ch.push(c), f, base) =~= embed_choices(ch, f, base).push(g(c)));
}

proof fn lemma_embed_choices_last(ch: Seq<ChoiceV>, f: Seq<FrameV>, base: Seq<ChoiceV>)
    requires
        ch.len() > 0,
    ensures
        embed_choices(ch, f, base).last() == embed_choice(ch.last(), f, base.len()),
        embed_choices(ch, f, base).drop_last() == embed_choices(ch.drop_last(), f, base),
{
    let g = |x: ChoiceV| embed_choice(x, f, base.len());
    assert(ch.map_values(g).drop_last() =~= ch.drop_last().map_values(g));
    assert(embed_choices(ch, f, base).drop_last() =~= embed_choices(ch.drop_last(), f, base));
}

proof fn lemma_embed_choices_take(ch: Seq<ChoiceV>, f: Seq<FrameV>, base: Seq<ChoiceV>, m: nat)
    requires
        m <= ch.len(),
    ensures
        embed_choices(ch, f, base).take((m + base.len()) as int) == embed_choices(ch.take(m as int), f, base),
{
    let g = |x: ChoiceV| embed_choice(x, f, base.len());
    assert(ch.map_values(g).take(m as int) =~= ch.take(m as int).map_values(g));
    assert(embed_choices(ch, f, base).take((m + base.len()) as int) =~= embed_choices(ch.take(m as int), f, base));
}

proof fn lemma_solve_embed(c: ClauseV, k: Seq<FrameV>, ch: Seq<ChoiceV>, f: Seq<FrameV>, base: Seq<ChoiceV>)
    ensures
        solve_step(c, embed_frames(k, f, base.len()), embed_choices(ch, f, base)) == embed(
            solve_step(c, k, ch),
            f,
            base,
        ),
{
    let d = base.len();
    lemma_embed_choices_push(ch, ChoiceV::Refuted(k), f, base);
    match c {
        ClauseV::Not(x) => {
            let g = |y: FrameV| shift_frame(y, d);
            assert(seq![FrameV::Refute(ch.len())].map_values(g) =~= seq![FrameV::Refute(d + ch.len())]);
            assert(embed_frames(seq![FrameV::Refute(ch.len())], f, d) == seq![FrameV::Refute(d + ch.len())]);
        },
        ClauseV::And(a, b) => {
            lemma_embed_push(k, FrameV::AndRight(*b), f, d);
        },
        ClauseV::Or(a, b) => {
            lemma_embed_choices_push(ch, ChoiceV::Alternative(*b, k), f, base);
        },
        _ => {},
    }
}

proof fn lemma_try_embed(
    a: crate::pred::AppV,
    i: nat,
    k: Seq<FrameV>,
    ch: Seq<ChoiceV>,
    env: Seq<MaybeSchemeV<StatementV>>,
    n: u32,
    f: Seq<FrameV>,
    base: Seq<ChoiceV>,
)
    ensures
        match try_step(a, i, k, ch, env, n) {
            None => try_step(a, i, embed_frames(k, f, base.len()), embed_choices(ch, f, base), env, n) is None,
            Some((st2, n2)) => try_step(a, i, embed_frames(k, f, base.len()), embed_choices(ch, f, base), env, n)
                == Some((embed(st2, f, base), n2)),
        },
{
    let d = base.len();
    lemma_embed_choices_push(ch, ChoiceV::NextStatement(a, i + 1, k), f, base);
    if i < env.len() {
        let stmt = env[i as int];
        if crate::scheme::can_inst::<crate::clause::Statement>(stmt, n) {
            if let Ok(st) = crate::scheme::maybe_inst::<crate::clause::Statement>(stmt, n).unwrap() {
                if let Some(Ok(s)) = crate::pred::app_unify(st.lhs, a) {
                    lemma_embed_push(k, FrameV::Answer(a, s), f, d);
                }
            }
        }
    }
}

proof fn lemma_deliver_embed(s: SubV, k: Seq<FrameV>, ch: Seq<ChoiceV>, f: Seq<FrameV>, base: Seq<ChoiceV>)
    requires
        k.len() > 0 || f.len() == 0,
    ensures
        match deliver_step(s, k, ch) {
            None => deliver_step(s, embed_frames(k, f, base.len()), embed_choices(ch, f, base)) is None,
            Some((st2, r)) => deliver_step(s, embed_frames(k, f, base.len()), embed_choices(ch, f, base))
                == Some((embed(st2, f, base), r)),
        },
{
    let d = base.len();
    let kk = embed_frames(k, f, d);
    let cc = embed_choices(ch, f, base);
    lemma_embed_choices_push(ch, ChoiceV::Refuted(k), f, base);
    if k.len() == 0 {
        assert(kk =~= Seq::<FrameV>::empty());
    } else {
        lemma_embed_last(k, f, d);
        let rest = k.drop_last();
        match k.last() {
            FrameV::AndRight(b) => {
                if let Some(Ok(b2)) = crate::clause::clause_sub(b, s) {
                    lemma_embed_push(rest, FrameV::Compose(s), f, d);
                }
            },
            FrameV::Refute(m) => {
                if m <= ch.len() {
                    lemma_embed_choices_take(ch, f, base, m);
                }
            },
            _ => {},
        }
    }
}

proof fn lemma_backtrack_embed(ch: Seq<ChoiceV>, f: Seq<FrameV>, base: Seq<ChoiceV>)
    requires
        ch.len() > 0,
    ensures
        backtrack_step(embed_choices(ch, f, base)) == (embed(backtrack_step(ch).0, f, base), backtrack_step(ch).1),
{
    lemma_embed_choices_last(ch, f, base);
    lemma_embed_choices_push(ch, ch.last(), f, base);
}

/// A step of a search run inside another is a step of the outer search, as long as the
/// inner search neither runs out of choices nor (with an outer continuation) finds a
/// solution.
pub proof fn lemma_step_embed(
    st: SolverV,
    env: Seq<MaybeSchemeV<StatementV>>,
    n: u32,
    f: Seq<FrameV>,
    base: Seq<ChoiceV>,
)
    requires
        step_spec(st, env, n) is Some,
        !(st.task is Backtrack && st.choices.len() == 0),
        (st.task matches TaskV::Deliver(_, k) && k.len() == 0) ==> f.len() == 0,
    ensures
        ({
            let (st2, n2, r) = step_spec(st, env, n).unwrap();
            step_spec(embed(st, f, base), env, n) == Some((embed(st2, f, base), n2, r))
        }),
{
    reveal(step_spec);
    match st.task {
        TaskV::Solve(c, k) => {
            lemma_solve_embed(c, k, st.choices, f, base);
        },
        TaskV::TryStatement(a, i, k) => {
            lemma_try_embed(a, i, k, st.choices, env, n, f, base);
        },
        TaskV::Deliver(s, k) => {
            lemma_deliver_embed(s, k, st.choices, f, base);
        },
        TaskV::Backtrack => {
            lemma_backtrack_embed(st.choices, f, base);
        },
    }
}

/// The search is done only once its choices are spent.
proof fn lemma_done_at_end(st: SolverV, env: Seq<MaybeSchemeV<StatementV>>, n: u32)
    requires
        step_spec(st, env, n) matches Some((_, _, StepV::Done)),
    ensures
        st.task is Backtrack && st.choices.len() == 0,
        step_spec(st, env, n).unwrap().1 == n,
{
    reveal(step_spec);
}

/// A solution is yielded only by delivering it to the end of the query's continuation.
proof fn lemma_yield_at_end(st: SolverV, env: Seq<MaybeSchemeV<StatementV>>, n: u32)
    requires
        step_spec(st, env, n) matches Some((_, _, StepV::Yield(_))),
    ensures
        st.task matches TaskV::Deliver(s, k) && k.len() == 0 && step_spec(st, env, n) == Some(
            (SolverV { task: TaskV::Backtrack, choices: st.choices }, n, StepV::Yield(s)),
        ),
{
    reveal(step_spec);
}

/// A search run inside another gives its answers to the outer search (unless it has an
/// outer continuation, in which case it gives none), then the outer search takes up its own
/// choices `base` where the inner one left the variable counter.
proof fn lemma_answers_embed(
    st: SolverV,
    env: Seq<MaybeSchemeV<StatementV>>,
    n: u32,
    f: Seq<FrameV>,
    base: Seq<ChoiceV>,
    fa: nat,
    g: nat,
)
    requires
        answers(st, env, n, fa) is Some,
        f.len() == 0 || answers(st, env, n, fa).unwrap().0.len() == 0,
        base.len() > 0,
        answers(backtrack_step(base).0, env, answers(st, env, n, fa).unwrap().1, g) is Some,
    ensures
        answers(embed(st, f, base), env, n, fa + g) == Some(
            (
                answers(st, env, n, fa).unwrap().0 + answers(
                    backtrack_step(base).0,
                    env,
                    answers(st, env, n, fa).unwrap().1,
                    g,
                ).unwrap().0,
                answers(backtrack_step(base).0, env, answers(st, env, n, fa).unwrap().1, g).unwrap().1,
            ),
        ),
    decreases fa,
{
    let (st2, n2, r) = step_spec(st, env, n).unwrap();
    let resume = backtrack_step(base).0;
    if st.task is Backtrack && st.choices.len() == 0 {
        reveal(step_spec);
        assert(embed_choices(st.choices, f, base) =~= base);
        assert(step_spec(embed(st, f, base), env, n) == Some((resume, n, StepV::Continue)));
        lemma_answers_fuel(resume, env, n, g, (fa + g - 1) as nat);
        assert(Seq::<SubV>::empty() + answers(resume, env, n, g).unwrap().0 =~= answers(
            resume,
            env,
            n,
            g,
        ).unwrap().0);
    } else {
        if r is Done {
            lemma_done_at_end(st, env, n);
        }
        if r is Yield {
            lemma_yield_at_end(st, env, n);
        }
        if st.task matches TaskV::Deliver(_, k) && k.len() == 0 {
            reveal(step_spec);
        }
        lemma_step_embed(st, env, n, f, base);
        lemma_answers_embed(st2, env, n2, f, base, (fa - 1) as nat, g);
        assert((fa - 1) as nat + g == (fa + g - 1) as nat);
        if let StepV::Yield(x) = r {
            let a2 = answers(st2, env, n2, (fa - 1) as nat).unwrap().0;
            let b = answers(resume, env, answers(st, env, n, fa).unwrap().1, g).unwrap().0;
            assert(seq![x] + (a2 + b) =~= (seq![x] + a2) + b);
        }
    }
}

/// Disjunction: a query of `a ∨ b` gives the answers of `a`, then those of `b` (searched
/// with the variable counter where `a`'s search left it), none dropped or reordered.
pub proof fn lemma_or_answers(
    a: ClauseV,
    b: ClauseV,
    env: Seq<MaybeSchemeV<StatementV>>,
    n: u32,
    fa: nat,
    fb: nat,
)
    requires
        answers(query_start(a), env, n, fa) is Some,
        answers(query_start(b), env, answers(query_start(a), env, n, fa).unwrap().1, fb) is Some,
    ensures
        ({
            let (sa, na) = answers(query_start(a), env, n, fa).unwrap();
            let (sb, nb) = answers(query_start(b), env, na, fb).unwrap();
            answers(query_start(ClauseV::Or(Box::new(a), Box::new(b))), env, n, 1 + fa + fb) == Some(
                (sa + sb, nb),
            )
        }),
{
    reveal(step_spec);
    let base = seq![ChoiceV::Alternative(b, Seq::empty())];
    let st1 = embed(query_start(a), Seq::empty(), base);
    assert(embed_frames(Seq::empty(), Seq::empty(), 1) =~= Seq::<FrameV>::empty());
    assert(embed_choices(Seq::empty(), Seq::empty(), base) =~= base);
    assert(Seq::<ChoiceV>::empty().push(ChoiceV::Alternative(b, Seq::empty())) =~= base);
    assert(step_spec(query_start(ClauseV::Or(Box::new(a), Box::new(b))), env, n) == Some(
        (st1, n, StepV::Continue),
    ));
    assert(base.drop_last() =~= Seq::<ChoiceV>::empty());
    assert(backtrack_step(base).0 == query_start(b));
    lemma_answers_embed(query_start(a), env, n, Seq::empty(), base, fa, fb);
    assert(1 + fa + fb - 1 == fa + fb);
}

/// Negation as failure, where the negated goal has no answer: the negation has exactly one,
/// the empty substitution.
pub proof fn lemma_not_without_answer(c: ClauseV, env: Seq<MaybeSchemeV<StatementV>>, n: u32, f: nat)
    requires
        answers(query_start(c), env, n, f) matches Some((ss, _)) && ss.len() == 0,
    ensures
        answers(query_start(ClauseV::Not(Box::new(c))), env, n, f + 3) == Some(
            (seq![Seq::<(crate::var::VarV, crate::term::ValueV)>::empty()], answers(query_start(c), env, n, f).unwrap().1),
        ),
{
    reveal(step_spec);
    let base = seq![ChoiceV::Refuted(Seq::empty())];
    let fr = seq![FrameV::Refute(0)];
    let st1 = embed(query_start(c), fr, base);
    assert(embed_frames(Seq::empty(), fr, 1) =~= fr);
    assert(embed_choices(Seq::empty(), fr, base) =~= base);
    assert(Seq::<ChoiceV>::empty().push(ChoiceV::Refuted(Seq::empty())) =~= base);
    assert(step_spec(query_start(ClauseV::Not(Box::new(c))), env, n) == Some(
        (st1, n, StepV::Continue),
    ));
    assert(base.drop_last() =~= Seq::<ChoiceV>::empty());
    let n1 = answers(query_start(c), env, n, f).unwrap().1;
    let resume = backtrack_step(base).0;
    assert(resume == SolverV { task: TaskV::Deliver(Seq::empty(), Seq::empty()), choices: Seq::empty() });
    let done = SolverV { task: TaskV::Backtrack, choices: Seq::<ChoiceV>::empty() };
    assert(step_spec(resume, env, n1) == Some((done, n1, StepV::Yield(Seq::empty()))));
    assert(step_spec(done, env, n1) == Some((done, n1, StepV::Done)));
    assert(answers(done, env, n1, 1) == Some((Seq::<SubV>::empty(), n1)));
    assert(answers(resume, env, n1, 2) == Some((seq![Seq::<(crate::var::VarV, crate::term::ValueV)>::empty()] + Seq::<SubV>::empty(), n1)));
    assert(seq![Seq::<(crate::var::VarV, crate::term::ValueV)>::empty()] + Seq::<SubV>::empty() =~= seq![Seq::<(crate::var::VarV, crate::term::ValueV)>::empty()]);
    lemma_answers_embed(query_start(c), env, n, fr, base, f, 2);
    assert(Seq::<SubV>::empty() + seq![Seq::<(crate::var::VarV, crate::term::ValueV)>::empty()] =~= seq![Seq::<(crate::var::VarV, crate::term::ValueV)>::empty()]);
}

proof fn lemma_run_embed_refute(
    st: SolverV,
    env: Seq<MaybeSchemeV<StatementV>>,
    n: u32,
    base: Seq<ChoiceV>,
    f: nat,
)
    requires
        crate::env::run_spec(st, env, n, f) matches Some((_, _, StepV::Yield(_))),
    ensures
        answers(embed(st, seq![FrameV::Refute(0)], base), env, n, f + 1) == Some(
            (Seq::<SubV>::empty(), crate::env::run_spec(st, env, n, f).unwrap().1),
        ),
    decreases f,
{
    let fr = seq![FrameV::Refute(0)];
    let (st2, n2, r) = step_spec(st, env, n).unwrap();
    if r is Yield {
        lemma_yield_at_end(st, env, n);
        reveal(step_spec);
        assert(embed_frames(Seq::empty(), fr, base.len()) =~= fr);
        let cc = embed_choices(st.choices, fr, base);
        assert(fr.drop_last() =~= Seq::<FrameV>::empty());
        assert(cc.take(0) =~= Seq::<ChoiceV>::empty());
        let done = SolverV { task: TaskV::Backtrack, choices: Seq::<ChoiceV>::empty() };
        assert(step_spec(embed(st, fr, base), env, n) == Some((done, n, StepV::Continue)));
        assert(step_spec(done, env, n) == Some((done, n, StepV::Done)));
        assert(answers(done, env, n, f) == Some((Seq::<SubV>::empty(), n)));
        assert(crate::env::run_spec(st, env, n, f).unwrap().1 == n);
    } else {
        if r is Done {
            lemma_done_at_end(st, env, n);
        }
        if st.task matches TaskV::Deliver(_, k) && k.len() == 0 {
            reveal(step_spec);
        }
        if st.task is Backtrack && st.choices.len() == 0 {
            reveal(step_spec);
        }
        lemma_step_embed(st, env, n, fr, base);
        lemma_run_embed_refute(st2, env, n2, base, (f - 1) as nat);
        assert(crate::env::run_spec(st, env, n, f) == crate::env::run_spec(st2, env, n2, (f - 1) as nat));
        assert((f - 1) as nat + 1 == f);
    }
}

/// Negation as failure, where the negated goal has an answer: the negation has none, and
/// its search ends once the first answer of the negated goal is found (no further one is
/// asked for).
pub proof fn lemma_not_with_answer(c: ClauseV, env: Seq<MaybeSchemeV<StatementV>>, n: u32, f: nat)
    requires
        crate::env::run_spec(query_start(c), env, n, f) matches Some((_, _, StepV::Yield(_))),
    ensures
        answers(query_start(ClauseV::Not(Box::new(c))), env, n, f + 2) == Some(
            (Seq::<SubV>::empty(), crate::env::run_spec(query_start(c), env, n, f).unwrap().1),
        ),
{
    reveal(step_spec);
    let base = seq![ChoiceV::Refuted(Seq::empty())];
    let fr = seq![FrameV::Refute(0)];
    let st1 = embed(query_start(c), fr, base);
    assert(embed_frames(Seq::empty(), fr, 1) =~= fr);
    assert(embed_choices(Seq::empty(), fr, base) =~= base);
    assert(Seq::<ChoiceV>::empty().push(ChoiceV::Refuted(Seq::empty())) =~= base);
    assert(step_spec(query_start(ClauseV::Not(Box::new(c))), env, n) == Some(
        (st1, n, StepV::Continue),
    ));
    lemma_run_embed_refute(query_start(c), env, n, base, f);
}

/// What a solution `t` delivered to frame `x` becomes: composed onto the solution that a
/// `Compose` frame holds, or turned into an answer for an `Answer` frame's goal.
/// `Some(None)` where that fails, `None` where it is undefined.
pub open spec fn frame_result(x: FrameV, t: SubV) -> Option<Option<SubV>> {
    match x {
        FrameV::Compose(s1) => match crate::sub::compose(s1, t) {
            None => None,
            Some(Err(_)) => Some(None),
            Some(Ok(r)) => Some(Some(r)),
        },
        FrameV::Answer(a, s1) => crate::env::answer_for(a, s1, t),
        _ => None,
    }
}

/// What each of `ts` delivered to frame `x` becomes, in order; those that fail are left
/// out, and `None` where one is undefined.
pub open spec fn frame_results(x: FrameV, ts: Seq<SubV>) -> Option<Seq<SubV>>
    decreases ts.len(),
{
    if ts.len() == 0 {
        Some(Seq::empty())
    } else {
        match frame_result(x, ts[0]) {
            None => None,
            Some(None) => frame_results(x, ts.skip(1)),
            Some(Some(r)) => match frame_results(x, ts.skip(1)) {
                None => None,
                Some(xs) => Some(seq![r] + xs),
            },
        }
    }
}

/// The compositions of `s` with each of `ts`, in order; those that fail are left out, and
/// `None` where one is undefined.
pub open spec fn composed(s: SubV, ts: Seq<SubV>) -> Option<Seq<SubV>> {
    frame_results(FrameV::Compose(s), ts)
}

/// The answers of a conjunction whose left side's search is at `st`: the search of the left
/// side goes on, and for each answer `s` it gives, where `b` takes `s` in, the answers of
/// the right side so substituted, each composed onto `s` (those that fail to compose, and
/// those `s` that `b` does not take, are left out), before the left side's search goes on.
/// `None` where a search does not end within `fuel` steps or a step is undefined.
pub open spec fn and_answers(
    st: SolverV,
    b: ClauseV,
    env: Seq<MaybeSchemeV<StatementV>>,
    n: u32,
    fuel: nat,
) -> Option<(Seq<SubV>, u32)>
    decreases fuel,
{
    if fuel == 0 {
        None
    } else {
        match step_spec(st, env, n) {
            None => None,
            Some((st2, n2, r)) => match r {
                StepV::Done => Some((Seq::empty(), n2)),
                StepV::Continue => and_answers(st2, b, env, n2, (fuel - 1) as nat),
                StepV::Yield(s) => match crate::clause::clause_sub(b, s) {
                    None => None,
                    Some(Err(_)) => and_answers(st2, b, env, n2, (fuel - 1) as nat),
                    Some(Ok(b2)) => match answers(query_start(b2), env, n2, (fuel - 1) as nat) {
                        None => None,
                        Some((sb, nb)) => match composed(s, sb) {
                            None => None,
                            Some(xs) => match and_answers(st2, b, env, nb, (fuel - 1) as nat) {
                                None => None,
                                Some((rest, n3)) => Some((xs + rest, n3)),
                            },
                        },
                    },
                },
            },
        }
    }
}

/// The search of the right side of a conjunction, for left answer `s`, run inside the
/// outer search: its answers come out composed onto `s`, then the outer search backtracks
/// into `base`.
proof fn lemma_frame_steps(t: SubV, x: FrameV, cb: Seq<ChoiceV>, env: Seq<MaybeSchemeV<StatementV>>, n: u32)
    requires
        x is Compose || x is Answer,
    ensures
        step_spec(SolverV { task: TaskV::Deliver(t, seq![x]), choices: cb }, env, n) == match frame_result(x, t) {
            None => None,
            Some(None) => Some((SolverV { task: TaskV::Backtrack, choices: cb }, n, StepV::Continue)),
            Some(Some(c)) => Some(
                (SolverV { task: TaskV::Deliver(c, Seq::empty()), choices: cb }, n, StepV::Continue),
            ),
        },
        forall|c: SubV|
            step_spec(SolverV { task: TaskV::Deliver(c, Seq::empty()), choices: cb }, env, n) == Some(
                (SolverV { task: TaskV::Backtrack, choices: cb }, n, StepV::Yield(c)),
            ),
{
    reveal(step_spec);
    assert(seq![x].drop_last() =~= Seq::<FrameV>::empty());
}

/// A search run inside another under a single `Compose` or `Answer` frame `x`: its answers
/// come out through `x`, then the outer search backtracks into `base`.
proof fn lemma_frame_embed(
    stb: SolverV,
    x: FrameV,
    base: Seq<ChoiceV>,
    env: Seq<MaybeSchemeV<StatementV>>,
    n: u32,
    fb: nat,
    g: nat,
)
    requires
        x is Compose || x is Answer,
        answers(stb, env, n, fb) is Some,
        frame_results(x, answers(stb, env, n, fb).unwrap().0) is Some,
        answers(
            SolverV { task: TaskV::Backtrack, choices: base },
            env,
            answers(stb, env, n, fb).unwrap().1,
            g,
        ) is Some,
    ensures
        ({
            let (sb, nb) = answers(stb, env, n, fb).unwrap();
            let (rest, n3) = answers(SolverV { task: TaskV::Backtrack, choices: base }, env, nb, g).unwrap();
            answers(embed(stb, seq![x], base), env, n, 2 * fb + g) == Some(
                (frame_results(x, sb).unwrap() + rest, n3),
            )
        }),
    decreases fb,
{
    let fr = seq![x];
    let (st2, n2, r) = step_spec(stb, env, n).unwrap();
    let back = SolverV { task: TaskV::Backtrack, choices: base };
    if stb.task is Backtrack && stb.choices.len() == 0 {
        reveal(step_spec);
        assert(embed_choices(stb.choices, fr, base) =~= base);
        assert(embed(stb, fr, base) == back);
        lemma_answers_fuel(back, env, n, g, 2 * fb + g);
        let rest = answers(back, env, n, g).unwrap().0;
        assert(frame_results(x, Seq::<SubV>::empty()) == Some(Seq::<SubV>::empty()));
        assert(Seq::<SubV>::empty() + rest =~= rest);
    } else if r is Yield {
        lemma_yield_at_end(stb, env, n);
        let t = r->Yield_0;
        let (sb2, nb) = answers(st2, env, n2, (fb - 1) as nat).unwrap();
        assert(answers(stb, env, n, fb).unwrap().0 == seq![t] + sb2);
        assert((seq![t] + sb2)[0] == t);
        assert((seq![t] + sb2).skip(1) =~= sb2);
        let d = base.len();
        assert(embed_frames(Seq::empty(), fr, d) =~= fr);
        let cb = embed_choices(stb.choices, fr, base);
        lemma_frame_embed(st2, x, base, env, n2, (fb - 1) as nat, g);
        let back2 = SolverV { task: TaskV::Backtrack, choices: cb };
        assert(embed(st2, fr, base) == back2);
        assert(embed(stb, fr, base) == SolverV { task: TaskV::Deliver(t, fr), choices: cb });
        lemma_frame_steps(t, x, cb, env, n);
        match frame_result(x, t) {
            Some(Some(c)) => {
                let mid = SolverV { task: TaskV::Deliver(c, Seq::empty()), choices: cb };
                assert(step_spec(mid, env, n) == Some((back2, n, StepV::Yield(c))));
                let rest = answers(back, env, nb, g).unwrap().0;
                assert((2 * fb + g - 2) as nat == 2 * (fb - 1) as nat + g);
                assert(answers(mid, env, n, (2 * fb + g - 1) as nat) == Some(
                    (seq![c] + answers(back2, env, n, (2 * fb + g - 2) as nat).unwrap().0, answers(back2, env, n, (2 * fb + g - 2) as nat).unwrap().1),
                ));
                assert(seq![c] + (frame_results(x, sb2).unwrap() + rest) =~= (seq![c] + frame_results(x, sb2).unwrap()) + rest);
            },
            Some(None) => {
                lemma_answers_fuel(back2, env, n, 2 * (fb - 1) as nat + g, (2 * fb + g - 1) as nat);
            },
            None => {},
        }
    } else {
        if r is Done {
            lemma_done_at_end(stb, env, n);
        }
        if stb.task matches TaskV::Deliver(_, k) && k.len() == 0 {
            reveal(step_spec);
        }
        lemma_step_embed(stb, env, n, fr, base);
        lemma_frame_embed(st2, x, base, env, n2, (fb - 1) as nat, g);
        lemma_answers_fuel(embed(st2, fr, base), env, n2, 2 * (fb - 1) as nat + g, (2 * fb + g - 1) as nat);
    }
}

/// The conjunction's search, with the left side's at `st`, gives the answers that
/// `and_answers` describes.
proof fn lemma_and_embed(
    st: SolverV,
    b: ClauseV,
    env: Seq<MaybeSchemeV<StatementV>>,
    n: u32,
    fuel: nat,
) -> (g: nat)
    requires
        and_answers(st, b, env, n, fuel) is Some,
    ensures
        answers(embed(st, seq![FrameV::AndRight(b)], Seq::empty()), env, n, g) == and_answers(st, b, env, n, fuel),
    decreases fuel,
{
    let fr = seq![FrameV::AndRight(b)];
    let none = Seq::<ChoiceV>::empty();
    let (st2, n2, r) = step_spec(st, env, n).unwrap();
    if st.task is Backtrack && st.choices.len() == 0 {
        reveal(step_spec);
        assert(embed_choices(st.choices, fr, none) =~= none);
        1
    } else if r is Yield {
        lemma_yield_at_end(st, env, n);
        reveal(step_spec);
        let x = r->Yield_0;
        assert(embed_frames(Seq::empty(), fr, 0) =~= fr);
        assert(fr.drop_last() =~= Seq::<FrameV>::empty());
        let cc = embed_choices(st.choices, fr, none);
        let back2 = SolverV { task: TaskV::Backtrack, choices: cc };
        assert(embed(st2, fr, none) == back2);
        match crate::clause::clause_sub(b, x) {
            Some(Err(_)) => {
                assert(step_spec(embed(st, fr, none), env, n) == Some((back2, n, StepV::Continue)));
                let g2 = lemma_and_embed(st2, b, env, n2, (fuel - 1) as nat);
                g2 + 1
            },
            Some(Ok(b2)) => {
                let cf = seq![FrameV::Compose(x)];
                let stb = query_start(b2);
                assert(Seq::<FrameV>::empty().push(FrameV::Compose(x)) =~= cf);
                assert(embed_frames(Seq::empty(), cf, cc.len()) =~= cf);
                assert(embed_choices(Seq::empty(), cf, cc) =~= cc);
                assert(step_spec(embed(st, fr, none), env, n) == Some((embed(stb, cf, cc), n, StepV::Continue)));
                let (sb, nb) = answers(stb, env, n2, (fuel - 1) as nat).unwrap();
                let g2 = lemma_and_embed(st2, b, env, nb, (fuel - 1) as nat);
                lemma_frame_embed(stb, FrameV::Compose(x), cc, env, n2, (fuel - 1) as nat, g2);
                1 + 2 * (fuel - 1) as nat + g2
            },
            None => 0,
        }
    } else {
        if r is Done {
            lemma_done_at_end(st, env, n);
        }
        if st.task matches TaskV::Deliver(_, k) && k.len() == 0 {
            reveal(step_spec);
        }
        lemma_step_embed(st, env, n, fr, none);
        let g2 = lemma_and_embed(st2, b, env, n2, (fuel - 1) as nat);
        g2 + 1
    }
}

/// Conjunction: a query of `a ∧ b` gives, for each answer `s` of `a` in order, where `b`
/// takes `s` in, each answer of `b` so substituted composed onto `s`, in order; pairs that
/// fail to compose, and answers of `a` that `b` does not take, give nothing.
pub proof fn lemma_and_answers(
    a: ClauseV,
    b: ClauseV,
    env: Seq<MaybeSchemeV<StatementV>>,
    n: u32,
    fuel: nat,
) -> (g: nat)
    requires
        and_answers(query_start(a), b, env, n, fuel) is Some,
    ensures
        answers(query_start(ClauseV::And(Box::new(a), Box::new(b))), env, n, g) == and_answers(
            query_start(a),
            b,
            env,
            n,
            fuel,
        ),
{
    reveal(step_spec);
    let fr = seq![FrameV::AndRight(b)];
    let none = Seq::<ChoiceV>::empty();
    assert(Seq::<FrameV>::empty().push(FrameV::AndRight(b)) =~= fr);
    assert(embed_frames(Seq::empty(), fr, 0) =~= fr);
    assert(embed_choices(Seq::empty(), fr, none) =~= none);
    assert(step_spec(query_start(ClauseV::And(Box::new(a), Box::new(b))), env, n) == Some(
        (embed(query_start(a), fr, none), n, StepV::Continue),
    ));
    let g = lemma_and_embed(query_start(a), b, env, n, fuel);
    g + 1
}

/// The answers of goal `a` from statement `i` of `env` on, statement by statement in their
/// order: a statement whose head names another predicate gives nothing; otherwise it is
/// instantiated with fresh variables, its head unified with `a` and the unifier taken into
/// its body, and the answers of its body, each composed onto the unifier and restricted to
/// the variables of `a` where it fits `a` (`answer_for`), come before those of the
/// statements after it. A statement for which one of these steps fails gives nothing.
/// `None` where a search does not end within `fuel` steps or a step is undefined.
pub open spec fn app_answers(
    a: crate::pred::AppV,
    i: nat,
    env: Seq<MaybeSchemeV<StatementV>>,
    n: u32,
    fuel: nat,
) -> Option<(Seq<SubV>, u32)>
    decreases fuel,
{
    if fuel == 0 {
        None
    } else if i >= env.len() {
        Some((Seq::empty(), n))
    } else {
        let stmt = env[i as int];
        let next = (i + 1) as nat;
        let f1 = (fuel - 1) as nat;
        if crate::env::stmt_head(stmt).pred != a.pred {
            app_answers(a, next, env, n, f1)
        } else if !crate::scheme::can_inst::<crate::clause::Statement>(stmt, n) {
            None
        } else {
            let n2 = (n + crate::scheme::inst_count(stmt)) as u32;
            match crate::scheme::maybe_inst::<crate::clause::Statement>(stmt, n).unwrap() {
                Err(_) => app_answers(a, next, env, n2, f1),
                Ok(st) => match crate::pred::app_unify(st.lhs, a) {
                    None => None,
                    Some(Err(_)) => app_answers(a, next, env, n2, f1),
                    Some(Ok(s)) => match crate::clause::clause_sub(st.rhs, s) {
                        None => None,
                        Some(Err(_)) => app_answers(a, next, env, n2, f1),
                        Some(Ok(rhs)) => match answers(query_start(rhs), env, n2, f1) {
                            None => None,
                            Some((sb, nb)) => match frame_results(FrameV::Answer(a, s), sb) {
                                None => None,
                                Some(xs) => match app_answers(a, next, env, nb, f1) {
                                    None => None,
                                    Some((rest, n3)) => Some((xs + rest, n3)),
                                },
                            },
                        },
                    },
                },
            }
        }
    }
}

proof fn lemma_step_try(a: crate::pred::AppV, i: nat, env: Seq<MaybeSchemeV<StatementV>>, n: u32)
    ensures
        step_spec(
            SolverV { task: TaskV::TryStatement(a, i, Seq::empty()), choices: Seq::empty() },
            env,
            n,
        ) == match try_step(a, i, Seq::empty(), Seq::empty(), env, n) {
            None => None,
            Some((st2, n2)) => Some((st2, n2, StepV::Continue)),
        },
        step_spec(SolverV { task: TaskV::Backtrack, choices: Seq::empty() }, env, n) == Some(
            (SolverV { task: TaskV::Backtrack, choices: Seq::<ChoiceV>::empty() }, n, StepV::Done),
        ),
{
    reveal(step_spec);
}

proof fn lemma_step_next_statement(a: crate::pred::AppV, i: nat, env: Seq<MaybeSchemeV<StatementV>>)
    ensures
        forall|n: u32|
            step_spec(
                SolverV { task: TaskV::Backtrack, choices: seq![ChoiceV::NextStatement(a, i, Seq::empty())] },
                env,
                n,
            ) == Some(
                (
                    SolverV { task: TaskV::TryStatement(a, i, Seq::empty()), choices: Seq::<ChoiceV>::empty() },
                    n,
                    StepV::Continue,
                ),
            ),
{
    reveal(step_spec);
    assert(seq![ChoiceV::NextStatement(a, i, Seq::<FrameV>::empty())].drop_last() =~= Seq::<ChoiceV>::empty());
}

/// The search for goal `a` from statement `i` on (`solve_app` starts it at the first) gives
/// the answers that `app_answers` describes, in that order.
pub proof fn lemma_app_answers(
    a: crate::pred::AppV,
    i: nat,
    env: Seq<MaybeSchemeV<StatementV>>,
    n: u32,
    fuel: nat,
) -> (g: nat)
    requires
        app_answers(a, i, env, n, fuel) is Some,
    ensures
        answers(
            SolverV { task: TaskV::TryStatement(a, i, Seq::empty()), choices: Seq::empty() },
            env,
            n,
            g,
        ) == app_answers(a, i, env, n, fuel),
    decreases fuel,
{
    let none = Seq::<ChoiceV>::empty();
    let st0 = SolverV { task: TaskV::TryStatement(a, i, Seq::empty()), choices: none };
    lemma_step_try(a, i, env, n);
    let next = (i + 1) as nat;
    let f1 = (fuel - 1) as nat;
    let done = SolverV { task: TaskV::Backtrack, choices: none };
    if i >= env.len() {
        assert(step_spec(st0, env, n) == Some((done, n, StepV::Continue)));
        assert(step_spec(done, env, n) == Some((done, n, StepV::Done)));
        assert(answers(done, env, n, 1) == Some((Seq::<SubV>::empty(), n)));
        2
    } else {
        let ch2 = seq![ChoiceV::NextStatement(a, next, Seq::empty())];
        assert(none.push(ChoiceV::NextStatement(a, next, Seq::empty())) =~= ch2);
        assert(ch2.drop_last() =~= none);
        let back = SolverV { task: TaskV::Backtrack, choices: ch2 };
        let st_next = SolverV { task: TaskV::TryStatement(a, next, Seq::empty()), choices: none };
        lemma_step_next_statement(a, next, env);
        let stmt = env[i as int];
        if crate::env::stmt_head(stmt).pred != a.pred {
            assert(step_spec(st0, env, n) == Some((back, n, StepV::Continue)));
            let g2 = lemma_app_answers(a, next, env, n, f1);
            assert(answers(st0, env, n, g2 + 2) == answers(back, env, n, g2 + 1));
            assert(answers(back, env, n, g2 + 1) == answers(st_next, env, n, g2));
            g2 + 2
        } else {
            let n2 = (n + crate::scheme::inst_count(stmt)) as u32;
            match crate::scheme::maybe_inst::<crate::clause::Statement>(stmt, n).unwrap() {
                Err(_) => {
                    let g2 = lemma_app_answers(a, next, env, n2, f1);
                    assert(step_spec(st0, env, n) == Some((back, n2, StepV::Continue)));
                    assert(answers(st0, env, n, g2 + 2) == answers(back, env, n2, g2 + 1));
                    assert(answers(back, env, n2, g2 + 1) == answers(st_next, env, n2, g2));
                    g2 + 2
                },
                Ok(st) => match crate::pred::app_unify(st.lhs, a) {
                    Some(Err(_)) => {
                        let g2 = lemma_app_answers(a, next, env, n2, f1);
                        assert(step_spec(st0, env, n) == Some((back, n2, StepV::Continue)));
                        assert(answers(st0, env, n, g2 + 2) == answers(back, env, n2, g2 + 1));
                        assert(answers(back, env, n2, g2 + 1) == answers(st_next, env, n2, g2));
                        g2 + 2
                    },
                    Some(Ok(s)) => match crate::clause::clause_sub(st.rhs, s) {
                        Some(Err(_)) => {
                            let g2 = lemma_app_answers(a, next, env, n2, f1);
                            assert(step_spec(st0, env, n) == Some((back, n2, StepV::Continue)));
                            assert(answers(st0, env, n, g2 + 2) == answers(back, env, n2, g2 + 1));
                            assert(answers(back, env, n2, g2 + 1) == answers(st_next, env, n2, g2));
                            g2 + 2
                        },
                        Some(Ok(rhs)) => {
                            let x = FrameV::Answer(a, s);
                            let fr = seq![x];
                            assert(Seq::<FrameV>::empty().push(x) =~= fr);
                            assert(embed_frames(Seq::empty(), fr, 1) =~= fr);
                            assert(embed_choices(Seq::empty(), fr, ch2) =~= ch2);
                            assert(step_spec(st0, env, n) == Some(
                                (embed(query_start(rhs), fr, ch2), n2, StepV::Continue),
                            ));
                            let (sb, nb) = answers(query_start(rhs), env, n2, f1).unwrap();
                            let g2 = lemma_app_answers(a, next, env, nb, f1);
                            assert(answers(back, env, nb, g2 + 1) == answers(st_next, env, nb, g2));
                            lemma_frame_embed(query_start(rhs), x, ch2, env, n2, f1, g2 + 1);
                            assert(answers(st0, env, n, 1 + 2 * f1 + g2 + 1) == answers(
                                embed(query_start(rhs), fr, ch2),
                                env,
                                n2,
                                2 * f1 + (g2 + 1),
                            ));
                            1 + 2 * f1 + g2 + 1
                        },
                        None => 0,
                    },
                    None => 0,
                },
            }
        }
    }
}

/// The answers a search from `st` yields within its first `fuel` steps, in order, whether it
/// ended (reported that it has no more) within them, and the variable counter after them;
/// `None` where one of those steps is undefined. Unlike `answers`, this says what a search
/// gives so far, also of a search that never ends.
pub open spec fn upto(st: SolverV, env: Seq<MaybeSchemeV<StatementV>>, n: u32, fuel: nat) -> Option<
    (Seq<SubV>, bool, u32),
>
    decreases fuel,
{
    if fuel == 0 {
        Some((Seq::empty(), false, n))
    } else {
        match step_spec(st, env, n) {
            None => None,
            Some((st2, n2, r)) => match r {
                StepV::Done => Some((Seq::empty(), true, n2)),
                StepV::Yield(s) => match upto(st2, env, n2, (fuel - 1) as nat) {
                    None => None,
                    Some((ss, e, n3)) => Some((seq![s] + ss, e, n3)),
                },
                StepV::Continue => upto(st2, env, n2, (fuel - 1) as nat),
            },
        }
    }
}

/// A spent choice stack ends the search.
proof fn lemma_end_is_done(st: SolverV, env: Seq<MaybeSchemeV<StatementV>>, n: u32)
    requires
        st.task is Backtrack,
        st.choices.len() == 0,
    ensures
        step_spec(st, env, n) == Some((st, n, StepV::Done)),
{
    reveal(step_spec);
}

/// A solution delivered to the end of the continuation is yielded.
proof fn lemma_deliver_end_yields(st: SolverV, env: Seq<MaybeSchemeV<StatementV>>, n: u32)
    requires
        st.task matches TaskV::Deliver(_, k) && k.len() == 0,
    ensures
        step_spec(st, env, n) matches Some((_, _, StepV::Yield(_))),
{
    reveal(step_spec);
}

/// While a search run inside another has not ended (and, with an outer continuation, has
/// yielded nothing), the outer search is doing exactly its steps.
proof fn lemma_upto_embed(
    st: SolverV,
    env: Seq<MaybeSchemeV<StatementV>>,
    n: u32,
    f: Seq<FrameV>,
    base: Seq<ChoiceV>,
    fa: nat,
)
    requires
        upto(st, env, n, fa) matches Some((ys, e, _)) && !e && (f.len() == 0 || ys.len() == 0),
    ensures
        upto(embed(st, f, base), env, n, fa) == upto(st, env, n, fa),
    decreases fa,
{
    if fa > 0 {
        let (st2, n2, r) = step_spec(st, env, n).unwrap();
        if st.task is Backtrack && st.choices.len() == 0 {
            lemma_end_is_done(st, env, n);
        }
        if st.task matches TaskV::Deliver(_, k) && k.len() == 0 {
            lemma_deliver_end_yields(st, env, n);
        }
        lemma_step_embed(st, env, n, f, base);
        lemma_upto_embed(st2, env, n2, f, base, (fa - 1) as nat);
    }
}

/// A search run inside another that ends gives its answers, then the outer search takes up
/// its choices `base` and goes on from there for `gb` steps.
proof fn lemma_upto_embed_end(
    st: SolverV,
    env: Seq<MaybeSchemeV<StatementV>>,
    n: u32,
    f: Seq<FrameV>,
    base: Seq<ChoiceV>,
    fa: nat,
    gb: nat,
) -> (g: nat)
    requires
        answers(st, env, n, fa) is Some,
        f.len() == 0 || answers(st, env, n, fa).unwrap().0.len() == 0,
        base.len() > 0,
        upto(backtrack_step(base).0, env, answers(st, env, n, fa).unwrap().1, gb) is Some,
    ensures
        ({
            let (sa, na) = answers(st, env, n, fa).unwrap();
            let (yb, e, nb) = upto(backtrack_step(base).0, env, na, gb).unwrap();
            upto(embed(st, f, base), env, n, g) == Some((sa + yb, e, nb))
        }),
    decreases fa,
{
    let (st2, n2, r) = step_spec(st, env, n).unwrap();
    let resume = backtrack_step(base).0;
    if st.task is Backtrack && st.choices.len() == 0 {
        reveal(step_spec);
        assert(embed_choices(st.choices, f, base) =~= base);
        assert(step_spec(embed(st, f, base), env, n) == Some((resume, n, StepV::Continue)));
        let yb = upto(resume, env, n, gb).unwrap().0;
        assert(Seq::<SubV>::empty() + yb =~= yb);
        gb + 1
    } else {
        if r is Done {
            lemma_done_at_end(st, env, n);
        }
        if r is Yield {
            lemma_yield_at_end(st, env, n);
        }
        if st.task matches TaskV::Deliver(_, k) && k.len() == 0 {
            lemma_deliver_end_yields(st, env, n);
        }
        lemma_step_embed(st, env, n, f, base);
        let g2 = lemma_upto_embed_end(st2, env, n2, f, base, (fa - 1) as nat, gb);
        if let StepV::Yield(x) = r {
            let a2 = answers(st2, env, n2, (fa - 1) as nat).unwrap().0;
            let yb = upto(resume, env, answers(st, env, n, fa).unwrap().1, gb).unwrap().0;
            assert(seq![x] + (a2 + yb) =~= (seq![x] + a2) + yb);
        }
        g2 + 1
    }
}

proof fn lemma_or_first_step(a: ClauseV, b: ClauseV, env: Seq<MaybeSchemeV<StatementV>>, n: u32)
    ensures
        step_spec(query_start(ClauseV::Or(Box::new(a), Box::new(b))), env, n) == Some(
            (
                embed(query_start(a), Seq::empty(), seq![ChoiceV::Alternative(b, Seq::empty())]),
                n,
                StepV::Continue,
            ),
        ),
        backtrack_step(seq![ChoiceV::Alternative(b, Seq::empty())]).0 == query_start(b),
{
    reveal(step_spec);
    let base = seq![ChoiceV::Alternative(b, Seq::empty())];
    assert(embed_frames(Seq::empty(), Seq::empty(), 1) =~= Seq::<FrameV>::empty());
    assert(embed_choices(Seq::empty(), Seq::empty(), base) =~= base);
    assert(Seq::<ChoiceV>::empty().push(ChoiceV::Alternative(b, Seq::empty())) =~= base);
    assert(base.drop_last() =~= Seq::<ChoiceV>::empty());
}

/// Disjunction, at every step: while the search of `a` has not ended, the search of
/// `a ∨ b` is that search, one step behind: it has yielded exactly the answers `a` has
/// yielded so far, in order, whether or not that search ever ends.
pub proof fn lemma_or_prefix(a: ClauseV, b: ClauseV, env: Seq<MaybeSchemeV<StatementV>>, n: u32, f: nat)
    requires
        upto(query_start(a), env, n, f) matches Some((_, e, _)) && !e,
    ensures
        upto(query_start(ClauseV::Or(Box::new(a), Box::new(b))), env, n, f + 1) == upto(
            query_start(a),
            env,
            n,
            f,
        ),
{
    lemma_or_first_step(a, b, env, n);
    lemma_upto_embed(query_start(a), env, n, Seq::empty(), seq![ChoiceV::Alternative(b, Seq::empty())], f);
    assert((f + 1 - 1) as nat == f);
}

/// Disjunction, at every step after `a`'s search ended: the search of `a ∨ b` has yielded
/// all the answers of `a`, then the answers that `b`'s search has yielded so far (run with
/// the counter where `a`'s search left it), whether or not that search ever ends.
pub proof fn lemma_or_then(
    a: ClauseV,
    b: ClauseV,
    env: Seq<MaybeSchemeV<StatementV>>,
    n: u32,
    fa: nat,
    fb: nat,
) -> (g: nat)
    requires
        answers(query_start(a), env, n, fa) is Some,
        upto(query_start(b), env, answers(query_start(a), env, n, fa).unwrap().1, fb) is Some,
    ensures
        ({
            let (sa, na) = answers(query_start(a), env, n, fa).unwrap();
            let (yb, e, nb) = upto(query_start(b), env, na, fb).unwrap();
            upto(query_start(ClauseV::Or(Box::new(a), Box::new(b))), env, n, g) == Some((sa + yb, e, nb))
        }),
{
    lemma_or_first_step(a, b, env, n);
    let base = seq![ChoiceV::Alternative(b, Seq::empty())];
    let g = lemma_upto_embed_end(query_start(a), env, n, Seq::empty(), base, fa, fb);
    assert((g + 1 - 1) as nat == g);
    g + 1
}

/// Negation as failure, at every step: while the negated goal's search has neither ended
/// nor yielded an answer, the negation has yielded nothing and not ended, whether or not
/// that search ever ends.
pub proof fn lemma_not_prefix(c: ClauseV, env: Seq<MaybeSchemeV<StatementV>>, n: u32, f: nat)
    requires
        upto(query_start(c), env, n, f) matches Some((ys, e, _)) && !e && ys.len() == 0,
    ensures
        upto(query_start(ClauseV::Not(Box::new(c))), env, n, f + 1) == upto(query_start(c), env, n, f),
{
    reveal(step_spec);
    let base = seq![ChoiceV::Refuted(Seq::empty())];
    let fr = seq![FrameV::Refute(0)];
    assert(embed_frames(Seq::empty(), fr, 1) =~= fr);
    assert(embed_choices(Seq::empty(), fr, base) =~= base);
    assert(Seq::<ChoiceV>::empty().push(ChoiceV::Refuted(Seq::empty())) =~= base);
    assert(step_spec(query_start(ClauseV::Not(Box::new(c))), env, n) == Some(
        (embed(query_start(c), fr, base), n, StepV::Continue),
    ));
    lemma_upto_embed(query_start(c), env, n, fr, base, f);
    assert((f + 1 - 1) as nat == f);
}

/// A search run inside another under a single `Compose` or `Answer` frame `x`, at every
/// step: what it has yielded so far comes out through `x`; where it ended, the outer search
/// then backtracks into `base` and goes on for `gback` steps.
proof fn lemma_frame_upto(
    stb: SolverV,
    x: FrameV,
    base: Seq<ChoiceV>,
    env: Seq<MaybeSchemeV<StatementV>>,
    n: u32,
    fb: nat,
    gback: nat,
) -> (g: nat)
    requires
        x is Compose || x is Answer,
        upto(stb, env, n, fb) is Some,
        frame_results(x, upto(stb, env, n, fb).unwrap().0) is Some,
        upto(stb, env, n, fb).unwrap().1 ==> upto(
            SolverV { task: TaskV::Backtrack, choices: base },
            env,
            upto(stb, env, n, fb).unwrap().2,
            gback,
        ) is Some,
    ensures
        ({
            let (yb, eb, nb) = upto(stb, env, n, fb).unwrap();
            let xs = frame_results(x, yb).unwrap();
            upto(embed(stb, seq![x], base), env, n, g) == if eb {
                let (rest, e2, n3) = upto(SolverV { task: TaskV::Backtrack, choices: base }, env, nb, gback).unwrap();
                Some((xs + rest, e2, n3))
            } else {
                Some((xs, false, nb))
            }
        }),
    decreases fb,
{
    let fr = seq![x];
    let back = SolverV { task: TaskV::Backtrack, choices: base };
    if fb == 0 {
        assert(frame_results(x, Seq::<SubV>::empty()) == Some(Seq::<SubV>::empty()));
        0
    } else {
        let (st2, n2, r) = step_spec(stb, env, n).unwrap();
        if stb.task is Backtrack && stb.choices.len() == 0 {
            lemma_end_is_done(stb, env, n);
            assert(embed_choices(stb.choices, fr, base) =~= base);
            assert(embed(stb, fr, base) == back);
            let rest = upto(back, env, n, gback).unwrap().0;
            assert(frame_results(x, Seq::<SubV>::empty()) == Some(Seq::<SubV>::empty()));
            assert(Seq::<SubV>::empty() + rest =~= rest);
            gback
        } else if r is Yield {
            lemma_yield_at_end(stb, env, n);
            let t = r->Yield_0;
            let (yb2, eb, nb) = upto(st2, env, n2, (fb - 1) as nat).unwrap();
            assert(upto(stb, env, n, fb).unwrap().0 == seq![t] + yb2);
            assert((seq![t] + yb2)[0] == t);
            assert((seq![t] + yb2).skip(1) =~= yb2);
            let d = base.len();
            assert(embed_frames(Seq::empty(), fr, d) =~= fr);
            let cb = embed_choices(stb.choices, fr, base);
            let g2 = lemma_frame_upto(st2, x, base, env, n2, (fb - 1) as nat, gback);
            let back2 = SolverV { task: TaskV::Backtrack, choices: cb };
            assert(embed(st2, fr, base) == back2);
            assert(embed(stb, fr, base) == SolverV { task: TaskV::Deliver(t, fr), choices: cb });
            lemma_frame_steps(t, x, cb, env, n);
            match frame_result(x, t) {
                Some(Some(c)) => {
                    let mid = SolverV { task: TaskV::Deliver(c, Seq::empty()), choices: cb };
                    assert(step_spec(mid, env, n) == Some((back2, n, StepV::Yield(c))));
                    assert(upto(embed(stb, fr, base), env, n, g2 + 2) == upto(mid, env, n, g2 + 1));
                    let xs2 = frame_results(x, yb2).unwrap();
                    if eb {
                        let rest = upto(back, env, nb, gback).unwrap().0;
                        assert(seq![c] + (xs2 + rest) =~= (seq![c] + xs2) + rest);
                    }
                    g2 + 2
                },
                _ => {
                    g2 + 1
                },
            }
        } else {
            if r is Done {
                lemma_done_at_end(stb, env, n);
            }
            if stb.task matches TaskV::Deliver(_, k) && k.len() == 0 {
                lemma_deliver_end_yields(stb, env, n);
            }
            lemma_step_embed(stb, env, n, fr, base);
            let g2 = lemma_frame_upto(st2, x, base, env, n2, (fb - 1) as nat, gback);
            g2 + 1
        }
    }
}

/// What the search of a conjunction whose left side's search is at `st` yields within
/// `fuel` steps of the left side and of each right side: the left side's search goes on,
/// and for each answer `s` it gives, where `b` takes `s` in, the answers that the search of
/// `b` so substituted yields, each composed onto `s` (failures left out); where that search
/// has not ended, nothing more comes; where it has, the left side's search goes on. The
/// flag says whether the whole search ended.
pub open spec fn and_upto(
    st: SolverV,
    b: ClauseV,
    env: Seq<MaybeSchemeV<StatementV>>,
    n: u32,
    fuel: nat,
) -> Option<(Seq<SubV>, bool, u32)>
    decreases fuel,
{
    if fuel == 0 {
        Some((Seq::empty(), false, n))
    } else {
        match step_spec(st, env, n) {
            None => None,
            Some((st2, n2, r)) => match r {
                StepV::Done => Some((Seq::empty(), true, n2)),
                StepV::Continue => and_upto(st2, b, env, n2, (fuel - 1) as nat),
                StepV::Yield(s) => match crate::clause::clause_sub(b, s) {
                    None => None,
                    Some(Err(_)) => and_upto(st2, b, env, n2, (fuel - 1) as nat),
                    Some(Ok(b2)) => match upto(query_start(b2), env, n2, (fuel - 1) as nat) {
                        None => None,
                        Some((sb, eb, nb)) => match composed(s, sb) {
                            None => None,
                            Some(xs) => if !eb {
                                Some((xs, false, nb))
                            } else {
                                match and_upto(st2, b, env, nb, (fuel - 1) as nat) {
                                    None => None,
                                    Some((rest, e, n3)) => Some((xs + rest, e, n3)),
                                }
                            },
                        },
                    },
                },
            },
        }
    }
}

proof fn lemma_and_upto_embed(
    st: SolverV,
    b: ClauseV,
    env: Seq<MaybeSchemeV<StatementV>>,
    n: u32,
    fuel: nat,
) -> (g: nat)
    requires
        and_upto(st, b, env, n, fuel) is Some,
    ensures
        upto(embed(st, seq![FrameV::AndRight(b)], Seq::empty()), env, n, g) == and_upto(st, b, env, n, fuel),
    decreases fuel,
{
    let fr = seq![FrameV::AndRight(b)];
    let none = Seq::<ChoiceV>::empty();
    if fuel == 0 {
        0
    } else {
        let (st2, n2, r) = step_spec(st, env, n).unwrap();
        if st.task is Backtrack && st.choices.len() == 0 {
            lemma_end_is_done(st, env, n);
            assert(embed_choices(st.choices, fr, none) =~= none);
            assert(st.choices =~= none);
            assert(embed(st, fr, none) == st);
            1
        } else if r is Yield {
            lemma_yield_at_end(st, env, n);
            reveal(step_spec);
            let x = r->Yield_0;
            assert(embed_frames(Seq::empty(), fr, 0) =~= fr);
            assert(fr.drop_last() =~= Seq::<FrameV>::empty());
            let cc = embed_choices(st.choices, fr, none);
            let back2 = SolverV { task: TaskV::Backtrack, choices: cc };
            assert(embed(st2, fr, none) == back2);
            match crate::clause::clause_sub(b, x) {
                Some(Err(_)) => {
                    assert(step_spec(embed(st, fr, none), env, n) == Some((back2, n, StepV::Continue)));
                    let g2 = lemma_and_upto_embed(st2, b, env, n2, (fuel - 1) as nat);
                    g2 + 1
                },
                Some(Ok(b2)) => {
                    let cf = seq![FrameV::Compose(x)];
                    let stb = query_start(b2);
                    assert(Seq::<FrameV>::empty().push(FrameV::Compose(x)) =~= cf);
                    assert(embed_frames(Seq::empty(), cf, cc.len()) =~= cf);
                    assert(embed_choices(Seq::empty(), cf, cc) =~= cc);
                    assert(step_spec(embed(st, fr, none), env, n) == Some((embed(stb, cf, cc), n, StepV::Continue)));
                    let (sb, eb, nb) = upto(stb, env, n2, (fuel - 1) as nat).unwrap();
                    if eb {
                        let g2 = lemma_and_upto_embed(st2, b, env, nb, (fuel - 1) as nat);
                        let gf = lemma_frame_upto(stb, FrameV::Compose(x), cc, env, n2, (fuel - 1) as nat, g2);
                        gf + 1
                    } else {
                        let gf = lemma_frame_upto(stb, FrameV::Compose(x), cc, env, n2, (fuel - 1) as nat, 0);
                        gf + 1
                    }
                },
                None => 0,
            }
        } else {
            if r is Done {
                lemma_done_at_end(st, env, n);
            }
            if st.task matches TaskV::Deliver(_, k) && k.len() == 0 {
                lemma_deliver_end_yields(st, env, n);
            }
            lemma_step_embed(st, env, n, fr, none);
            let g2 = lemma_and_upto_embed(st2, b, env, n2, (fuel - 1) as nat);
            g2 + 1
        }
    }
}

/// Conjunction, at every step: the search of `a ∧ b` reaches a point at which it has
/// yielded exactly what `and_upto` describes for the searches of its parts, whether or not
/// those searches ever end.
pub proof fn lemma_and_upto(
    a: ClauseV,
    b: ClauseV,
    env: Seq<MaybeSchemeV<StatementV>>,
    n: u32,
    fuel: nat,
) -> (g: nat)
    requires
        and_upto(query_start(a), b, env, n, fuel) is Some,
    ensures
        upto(query_start(ClauseV::And(Box::new(a), Box::new(b))), env, n, g) == and_upto(
            query_start(a),
            b,
            env,
            n,
            fuel,
        ),
{
    reveal(step_spec);
    let fr = seq![FrameV::AndRight(b)];
    let none = Seq::<ChoiceV>::empty();
    assert(Seq::<FrameV>::empty().push(FrameV::AndRight(b)) =~= fr);
    assert(embed_frames(Seq::empty(), fr, 0) =~= fr);
    assert(embed_choices(Seq::empty(), fr, none) =~= none);
    assert(step_spec(query_start(ClauseV::And(Box::new(a), Box::new(b))), env, n) == Some(
        (embed(query_start(a), fr, none), n, StepV::Continue),
    ));
    let g = lemma_and_upto_embed(query_start(a), b, env, n, fuel);
    assert((g + 1 - 1) as nat == g);
    g + 1
}

/// What the search for goal `a` from statement `i` of `env` on yields within `fuel` steps
/// of each part: statement by statement in their order, as `app_answers` describes; where a
/// statement's body has a search that has not ended, nothing more comes. The flag says
/// whether the whole search ended.
pub open spec fn app_upto(
    a: crate::pred::AppV,
    i: nat,
    env: Seq<MaybeSchemeV<StatementV>>,
    n: u32,
    fuel: nat,
) -> Option<(Seq<SubV>, bool, u32)>
    decreases fuel,
{
    if fuel == 0 {
        Some((Seq::empty(), false, n))
    } else if i >= env.len() {
        Some((Seq::empty(), true, n))
    } else {
        let stmt = env[i as int];
        let next = (i + 1) as nat;
        let f1 = (fuel - 1) as nat;
        if crate::env::stmt_head(stmt).pred != a.pred {
            app_upto(a, next, env, n, f1)
        } else if !crate::scheme::can_inst::<crate::clause::Statement>(stmt, n) {
            None
        } else {
            let n2 = (n + crate::scheme::inst_count(stmt)) as u32;
            match crate::scheme::maybe_inst::<crate::clause::Statement>(stmt, n).unwrap() {
                Err(_) => app_upto(a, next, env, n2, f1),
                Ok(st) => match crate::pred::app_unify(st.lhs, a) {
                    None => None,
                    Some(Err(_)) => app_upto(a, next, env, n2, f1),
                    Some(Ok(s)) => match crate::clause::clause_sub(st.rhs, s) {
                        None => None,
                        Some(Err(_)) => app_upto(a, next, env, n2, f1),
                        Some(Ok(rhs)) => match upto(query_start(rhs), env, n2, f1) {
                            None => None,
                            Some((sb, eb, nb)) => match frame_results(FrameV::Answer(a, s), sb) {
                                None => None,
                                Some(xs) => if !eb {
                                    Some((xs, false, nb))
                                } else {
                                    match app_upto(a, next, env, nb, f1) {
                                        None => None,
                                        Some((rest, e, n3)) => Some((xs + rest, e, n3)),
                                    }
                                },
                            },
                        },
                    },
                },
            }
        }
    }
}

/// The search for goal `a` from statement `i` on (`solve_app` starts it at the first), at
/// every step: it reaches a point at which it has yielded exactly what `app_upto` describes,
/// whether or not the searches of the statements' bodies ever end.
pub proof fn lemma_app_upto(
    a: crate::pred::AppV,
    i: nat,
    env: Seq<MaybeSchemeV<StatementV>>,
    n: u32,
    fuel: nat,
) -> (g: nat)
    requires
        app_upto(a, i, env, n, fuel) is Some,
    ensures
        upto(
            SolverV { task: TaskV::TryStatement(a, i, Seq::empty()), choices: Seq::empty() },
            env,
            n,
            g,
        ) == app_upto(a, i, env, n, fuel),
    decreases fuel,
{
    let none = Seq::<ChoiceV>::empty();
    let st0 = SolverV { task: TaskV::TryStatement(a, i, Seq::empty()), choices: none };
    if fuel == 0 {
        0
    } else {
        lemma_step_try(a, i, env, n);
        let next = (i + 1) as nat;
        let f1 = (fuel - 1) as nat;
        let done = SolverV { task: TaskV::Backtrack, choices: none };
        if i >= env.len() {
            assert(step_spec(st0, env, n) == Some((done, n, StepV::Continue)));
            assert(step_spec(done, env, n) == Some((done, n, StepV::Done)));
            assert(upto(done, env, n, 1) == Some((Seq::<SubV>::empty(), true, n)));
            2
        } else {
            let ch2 = seq![ChoiceV::NextStatement(a, next, Seq::empty())];
            assert(none.push(ChoiceV::NextStatement(a, next, Seq::empty())) =~= ch2);
            assert(ch2.drop_last() =~= none);
            let back = SolverV { task: TaskV::Backtrack, choices: ch2 };
            let st_next = SolverV { task: TaskV::TryStatement(a, next, Seq::empty()), choices: none };
            lemma_step_next_statement(a, next, env);
            let stmt = env[i as int];
            if crate::env::stmt_head(stmt).pred != a.pred {
                assert(step_spec(st0, env, n) == Some((back, n, StepV::Continue)));
                let g2 = lemma_app_upto(a, next, env, n, f1);
                assert(upto(st0, env, n, g2 + 2) == upto(back, env, n, g2 + 1));
                assert(upto(back, env, n, g2 + 1) == upto(st_next, env, n, g2));
                g2 + 2
            } else {
                let n2 = (n + crate::scheme::inst_count(stmt)) as u32;
                let fail = match crate::scheme::maybe_inst::<crate::clause::Statement>(stmt, n).unwrap() {
                    Err(_) => true,
                    Ok(st) => match crate::pred::app_unify(st.lhs, a) {
                        Some(Err(_)) => true,
                        Some(Ok(s)) => match crate::clause::clause_sub(st.rhs, s) {
                            Some(Err(_)) => true,
                            _ => false,
                        },
                        None => false,
                    },
                };
                if fail {
                    let g2 = lemma_app_upto(a, next, env, n2, f1);
                    assert(step_spec(st0, env, n) == Some((back, n2, StepV::Continue)));
                    assert(upto(st0, env, n, g2 + 2) == upto(back, env, n2, g2 + 1));
                    assert(upto(back, env, n2, g2 + 1) == upto(st_next, env, n2, g2));
                    g2 + 2
                } else {
                    let st = crate::scheme::maybe_inst::<crate::clause::Statement>(stmt, n).unwrap()->Ok_0;
                    let s = crate::pred::app_unify(st.lhs, a).unwrap()->Ok_0;
                    let rhs = crate::clause::clause_sub(st.rhs, s).unwrap()->Ok_0;
                    let x = FrameV::Answer(a, s);
                    let fr = seq![x];
                    assert(Seq::<FrameV>::empty().push(x) =~= fr);
                    assert(embed_frames(Seq::empty(), fr, 1) =~= fr);
                    assert(embed_choices(Seq::empty(), fr, ch2) =~= ch2);
                    assert(step_spec(st0, env, n) == Some((embed(query_start(rhs), fr, ch2), n2, StepV::Continue)));
                    let (sb, eb, nb) = upto(query_start(rhs), env, n2, f1).unwrap();
                    if eb {
                        let g2 = lemma_app_upto(a, next, env, nb, f1);
                        assert(upto(back, env, nb, g2 + 1) == upto(st_next, env, nb, g2));
                        let gf = lemma_frame_upto(query_start(rhs), x, ch2, env, n2, f1, g2 + 1);
                        assert(upto(st0, env, n, gf + 1) == upto(embed(query_start(rhs), fr, ch2), env, n2, gf));
                        gf + 1
                    } else {
                        let gf = lemma_frame_upto(query_start(rhs), x, ch2, env, n2, f1, 0);
                        assert(upto(st0, env, n, gf + 1) == upto(embed(query_start(rhs), fr, ch2), env, n2, gf));
                        gf + 1
                    }
                }
            }
        }
    }
}

} // verus!
