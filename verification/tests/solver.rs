use aunify::env::{Env, Solver, Step};
use aunify::{App, Clause, MaybeScheme, Pred, RcPred, Statement, Sub, Thing, Tuple, Value, Var, VarSource};

fn formal(s: &str) -> Var {
    Var::Formal(s.to_string())
}

fn atomv(s: &str) -> Value {
    Value::Atom(s.to_string())
}

fn app(p: &RcPred, args: Vec<Value>) -> App {
    App::new(p.clone(), Tuple(args))
}

fn all_solutions(solver: &mut Solver, env: &Env, src: &mut VarSource) -> Vec<Vec<(Var, Value)>> {
    let mut out = Vec::new();
    loop {
        match solver.next(env, src, 10_000) {
            Step::Yield(s) => out.push(s.without_autos().into_map()),
            Step::Done => return out,
            Step::Continue => panic!("search did not finish"),
        }
    }
}

fn family() -> (Env, RcPred, RcPred) {
    let parent = Pred::new_rc("parent".into(), 2);
    let grand = Pred::new_rc("grand".into(), 2);
    let mut env = Env::new();
    env.state(MaybeScheme::Inst(Statement::fact(app(&parent, vec![atomv("a"), atomv("b")]))));
    env.state(MaybeScheme::Inst(Statement::fact(app(&parent, vec![atomv("b"), atomv("c")]))));
    env.state(MaybeScheme::Inst(Statement::fact(app(&parent, vec![atomv("b"), atomv("d")]))));
    let rule = Statement::new(
        app(&grand, vec![Value::Var(formal("X")), Value::Var(formal("Z"))]),
        Clause::And(
            Box::new(Clause::App(app(&parent, vec![Value::Var(formal("X")), Value::Var(formal("Y"))]))),
            Box::new(Clause::App(app(&parent, vec![Value::Var(formal("Y")), Value::Var(formal("Z"))]))),
        ),
    );
    env.state(MaybeScheme::generalize(rule));
    (env, parent, grand)
}

#[test]
fn facts_are_found_in_order() {
    let (env, parent, _) = family();
    let mut src = VarSource::new();
    let mut s = env.solve_clause(Clause::App(app(&parent, vec![atomv("b"), Value::Var(formal("W"))])));
    let sols = all_solutions(&mut s, &env, &mut src);
    assert_eq!(
        sols,
        vec![vec![(formal("W"), atomv("c"))], vec![(formal("W"), atomv("d"))]]
    );
}

#[test]
fn rules_chain_through_their_bodies() {
    let (env, _, grand) = family();
    let mut src = VarSource::new();
    let mut s = env.solve_app(app(&grand, vec![atomv("a"), Value::Var(formal("G"))]));
    let sols = all_solutions(&mut s, &env, &mut src);
    assert_eq!(
        sols,
        vec![vec![(formal("G"), atomv("c"))], vec![(formal("G"), atomv("d"))]]
    );
}

#[test]
fn answers_bind_only_goal_variables() {
    let (env, _, grand) = family();
    let mut src = VarSource::new();
    let goal = app(&grand, vec![Value::Var(formal("P")), atomv("d")]);
    let free = goal.free_vars();
    let mut s = env.solve_app(goal);
    loop {
        match s.step(&env, &mut src) {
            Step::Yield(sub) => {
                for (k, _) in sub.into_map() {
                    assert!(free.contains(&k));
                }
            },
            Step::Done => break,
            Step::Continue => {},
        }
    }
}

#[test]
fn top_yields_one_empty_answer_and_bot_none() {
    let (env, _, _) = family();
    let mut src = VarSource::new();
    let mut s = env.solve_clause(Clause::Top);
    assert!(matches!(s.step(&env, &mut src), Step::Continue));
    match s.step(&env, &mut src) {
        Step::Yield(sub) => assert!(sub.is_top()),
        _ => panic!("expected the empty answer"),
    }
    assert!(matches!(s.step(&env, &mut src), Step::Done));
    assert!(matches!(s.step(&env, &mut src), Step::Done));
    let mut s = env.solve_clause(Clause::Bot);
    assert_eq!(all_solutions(&mut s, &env, &mut src), Vec::<Vec<(Var, Value)>>::new());
}

#[test]
fn negation_as_failure() {
    let (env, parent, _) = family();
    let mut src = VarSource::new();
    let yes = Clause::Not(Box::new(Clause::App(app(&parent, vec![atomv("c"), atomv("a")]))));
    let mut s = env.solve_clause(yes);
    assert_eq!(all_solutions(&mut s, &env, &mut src), vec![vec![]]);
    let no = Clause::Not(Box::new(Clause::App(app(&parent, vec![atomv("a"), atomv("b")]))));
    let mut s = env.solve_clause(no);
    assert_eq!(all_solutions(&mut s, &env, &mut src), Vec::<Vec<(Var, Value)>>::new());
}

#[test]
fn disjunction_yields_left_then_right() {
    let (env, parent, _) = family();
    let mut src = VarSource::new();
    let c = Clause::Or(
        Box::new(Clause::App(app(&parent, vec![atomv("b"), Value::Var(formal("Q"))]))),
        Box::new(Clause::App(app(&parent, vec![atomv("a"), Value::Var(formal("Q"))]))),
    );
    let mut s = env.solve_clause(c);
    assert_eq!(
        all_solutions(&mut s, &env, &mut src),
        vec![
            vec![(formal("Q"), atomv("c"))],
            vec![(formal("Q"), atomv("d"))],
            vec![(formal("Q"), atomv("b"))]
        ]
    );
}

#[test]
fn unknown_predicate_has_no_answer() {
    let (env, _, _) = family();
    let mut src = VarSource::new();
    let other = Pred::new_rc("other".into(), 1);
    let mut s = env.solve_app(app(&other, vec![atomv("a")]));
    assert_eq!(all_solutions(&mut s, &env, &mut src), Vec::<Vec<(Var, Value)>>::new());
}

#[test]
fn instantiation_takes_fresh_variables() {
    let (env, _, grand) = family();
    let mut src = VarSource::new();
    let mut s = env.solve_app(app(&grand, vec![atomv("a"), Value::Var(formal("G"))]));
    let _ = all_solutions(&mut s, &env, &mut src);
    let v = src.acquire();
    assert!(matches!(v, Var::Auto(n) if n >= 3));
}

#[test]
fn budget_stops_early() {
    let (env, parent, _) = family();
    let mut src = VarSource::new();
    let mut s = env.solve_clause(Clause::App(app(&parent, vec![atomv("a"), atomv("b")])));
    assert!(matches!(s.next(&env, &mut src, 1), Step::Continue));
    match s.next(&env, &mut src, 100) {
        Step::Yield(sub) => assert_eq!(sub.into_map(), Vec::<(Var, Value)>::new()),
        _ => panic!("expected an answer"),
    }
    let _ = Sub::top();
}

#[test]
fn conjunction_composes_each_left_answer_with_the_right_answers() {
    let (env, parent, _) = family();
    let mut src = VarSource::new();
    let c = Clause::And(
        Box::new(Clause::App(app(&parent, vec![Value::Var(formal("X")), Value::Var(formal("Y"))]))),
        Box::new(Clause::App(app(&parent, vec![Value::Var(formal("Y")), Value::Var(formal("Z"))]))),
    );
    let mut s = env.solve_clause(c);
    let sols = all_solutions(&mut s, &env, &mut src);
    assert_eq!(sols.len(), 2);
    for (sol, z) in sols.iter().zip(["c", "d"]) {
        assert_eq!(sol.len(), 3);
        assert!(sol.contains(&(formal("X"), atomv("a"))));
        assert!(sol.contains(&(formal("Y"), atomv("b"))));
        assert!(sol.contains(&(formal("Z"), atomv(z))));
    }
}

fn looping_env() -> (Env, RcPred, RcPred) {
    let (mut env, parent, _) = family();
    let lp = Pred::new_rc("loop".into(), 1);
    let rule = Statement::new(
        app(&lp, vec![Value::Var(formal("X"))]),
        Clause::App(app(&lp, vec![Value::Var(formal("X"))])),
    );
    env.state(MaybeScheme::generalize(rule));
    (env, parent, lp)
}

#[test]
fn a_left_branch_that_never_ends_holds_up_the_disjunction() {
    let (env, parent, lp) = looping_env();
    let mut src = VarSource::new();
    let c = Clause::Or(
        Box::new(Clause::App(app(&lp, vec![atomv("a")]))),
        Box::new(Clause::App(app(&parent, vec![atomv("a"), atomv("b")]))),
    );
    let mut s = env.solve_clause(c);
    assert!(matches!(s.next(&env, &mut src, 5_000), Step::Continue));
    assert!(matches!(s.next(&env, &mut src, 5_000), Step::Continue));
}

#[test]
fn negating_a_goal_that_never_ends_yields_nothing_so_far() {
    let (env, _, lp) = looping_env();
    let mut src = VarSource::new();
    let mut s = env.solve_clause(Clause::Not(Box::new(Clause::App(app(&lp, vec![atomv("a")])))));
    assert!(matches!(s.next(&env, &mut src, 5_000), Step::Continue));
}

struct CountingTracer(usize);

impl aunify::env::Tracer for CountingTracer {
    fn trace(&mut self, _task: &aunify::env::Task) {
        self.0 += 1;
    }
}

#[test]
fn a_traced_search_reports_each_step_and_finds_the_same_answers() {
    let (env, parent, _) = family();
    let mut src = VarSource::new();
    let mut s = env.solve_clause(Clause::App(app(&parent, vec![atomv("b"), Value::Var(formal("W"))])));
    let mut tracer = CountingTracer(0);
    let mut found = Vec::new();
    loop {
        match s.next_traced(&env, &mut src, 10_000, &mut tracer) {
            Step::Yield(sol) => found.push(sol.without_autos().into_map()),
            Step::Done => break,
            Step::Continue => panic!("search did not finish"),
        }
    }
    assert_eq!(found, vec![vec![(formal("W"), atomv("c"))], vec![(formal("W"), atomv("d"))]]);
    assert!(tracer.0 > 0);
}
