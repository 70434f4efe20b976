use aunify::ast::{
    App as AApp, Assert, Atom, AutoScheme, Clause as AClause, CompileCtx, CompileError, CompileTo,
    Expr, Input, NamedVar, SchemePrefix, Statement as AStatement, Tuple as ATuple, Value as AValue,
    Var as AVar,
};
use aunify::env::Step;
use aunify::eval::{EvalResult, Evaluator};
use aunify::repl::{query_action, reply_to_action, reply_to_step, show_result, QueryAction, QueryReply};
use aunify::written::{app_written, written};
use aunify::{App, List, Pred, Sub, Tail, Tuple};
use aunify::{BinaryOp, MaybeScheme, Numeric, UnaryOp, Value, Var, VarSource};
use std::sync::Arc;

fn named(s: &str) -> AValue {
    AValue::Var(AVar::Named(NamedVar(s.to_string())))
}

fn atom(s: &str) -> AValue {
    AValue::Atom(Atom(s.to_string()))
}

fn aapp(name: &str, args: Vec<AValue>) -> AApp {
    AApp(Atom(name.to_string()), ATuple(args))
}

#[test]
fn predicates_are_shared_by_name_and_arity() {
    let mut ctx = CompileCtx::new(VarSource::new());
    let a = ctx.pred("p".to_string(), 1);
    let b = ctx.pred("p".to_string(), 1);
    let c = ctx.pred("p".to_string(), 2);
    assert!(Arc::ptr_eq(&a, &b));
    assert!(!Arc::ptr_eq(&a, &c));
    assert_eq!(c.arity(), 2);
}

#[test]
fn anonymous_variables_are_fresh() {
    let mut ctx = CompileCtx::new(VarSource::new());
    let v: Value = AValue::Tuple(ATuple(vec![AValue::Var(AVar::Anon), AValue::Var(AVar::Anon), named("X")]))
        .compile(&mut ctx)
        .unwrap();
    assert_eq!(
        v,
        Value::Tuple(aunify::Tuple(vec![
            Value::Var(Var::Auto(0)),
            Value::Var(Var::Auto(1)),
            Value::Var(Var::Formal("X".to_string()))
        ]))
    );
    assert_eq!(ctx.auto_var(), Var::Auto(2));
}

#[test]
fn numeric_expressions_compile() {
    let mut ctx = CompileCtx::new(VarSource::new());
    let v: Value = AValue::Binop(
        BinaryOp::Add,
        Box::new(AValue::Int(1)),
        Box::new(AValue::Unop(UnaryOp::Neg, Box::new(AValue::Tuple(ATuple(vec![AValue::Int(3)]))))),
    )
    .compile(&mut ctx)
    .unwrap();
    assert_eq!(
        v,
        Value::Numeric(Numeric::Binop(
            BinaryOp::Add,
            Box::new(Numeric::Int(1)),
            Box::new(Numeric::Unop(UnaryOp::Neg, Box::new(Numeric::Int(3))))
        ))
    );
}

#[test]
fn wrong_kinds_are_compile_errors() {
    let mut ctx = CompileCtx::new(VarSource::new());
    let r: Result<Numeric, CompileError> = atom("a").compile(&mut ctx);
    match r {
        Err(CompileError::CompileTypeError(k, text)) => {
            assert_eq!(k, "Numeric");
            assert!(text.contains("Atom"));
        },
        Ok(_) => panic!("an atom is not numeric"),
    }
    let r: Result<Value, CompileError> =
        AValue::List(Box::new(atom("a")), Box::new(atom("b"))).compile(&mut ctx);
    match r {
        Err(CompileError::CompileTypeError(k, _)) => assert_eq!(k, "Tail"),
        Ok(_) => panic!("an atom is not a list's tail"),
    }
}

fn type_error(r: Option<CompileError>) -> (&'static str, String) {
    match r {
        Some(CompileError::CompileTypeError(k, t)) => (k, t),
        None => panic!("a compile error was expected"),
    }
}

#[test]
fn compile_error_carries_the_debug_text() {
    let mut ctx = CompileCtx::new(VarSource::new());
    let v = AValue::Binop(BinaryOp::Add, Box::new(AValue::Int(1)), Box::new(atom("a")));
    let r: Result<Value, CompileError> = v.compile(&mut ctx);
    assert_eq!(type_error(r.err()), ("Numeric", format!("{:?}", atom("a"))));
    let pair = AValue::Tuple(ATuple(vec![AValue::Int(1), AValue::Int(2)]));
    let r: Result<Numeric, CompileError> = pair.compile(&mut ctx);
    let text = format!("{:?}", AValue::Tuple(ATuple(vec![AValue::Int(1), AValue::Int(2)])));
    assert_eq!(type_error(r.err()), ("Numeric", text));
    let r: Result<aunify::Tail, CompileError> = AValue::Int(4).compile(&mut ctx);
    assert_eq!(type_error(r.err()), ("Tail", format!("{:?}", AValue::Int(4))));
}

#[test]
fn scheme_prefix_passes_the_inner_error_on() {
    let mut ctx = CompileCtx::new(VarSource::new());
    let v = AValue::Unop(UnaryOp::Neg, Box::new(atom("b")));
    let r: Result<MaybeScheme<Value>, CompileError> =
        SchemePrefix::Specific(vec![NamedVar("X".to_string())], v).compile(&mut ctx);
    assert_eq!(type_error(r.err()), ("Numeric", format!("{:?}", atom("b"))));
}

fn fact(name: &str, args: Vec<AValue>) -> AutoScheme<AStatement> {
    AutoScheme(AStatement::Fact(aapp(name, args)))
}

#[test]
fn evaluator_states_and_queries() {
    let mut ev = Evaluator::new();
    let r = ev
        .eval(Expr::Assert(Assert(vec![fact("p", vec![atom("a")]), fact("p", vec![atom("b")])])))
        .unwrap();
    let lines = show_result(&r);
    assert_eq!(lines, vec![" p(｢a｣) ⊢ ⊤.".to_string(), " p(｢b｣) ⊢ ⊤.".to_string()]);
    assert_eq!(ev.premises().len(), 2);
    let r = ev.eval(Expr::Query(AClause::App(aapp("p", vec![named("X")])))).unwrap();
    let mut solver = match r {
        EvalResult::Query(s) => s,
        _ => panic!("expected a query"),
    };
    let mut seen = Vec::new();
    loop {
        match ev.next_solution(&mut solver, 1000) {
            Step::Yield(s) => seen.push(aunify::text::Show::to_string(&s.without_autos())),
            Step::Done => break,
            Step::Continue => panic!("search did not finish"),
        }
    }
    assert_eq!(seen, vec!["{$X ~ ｢a｣}".to_string(), "{$X ~ ｢b｣}".to_string()]);
}

#[test]
fn evaluator_unifies_folds_and_resets() {
    let mut ev = Evaluator::new();
    let r = ev
        .eval(Expr::UnifyVal(SchemePrefix::All(named("X")), SchemePrefix::Inst(atom("a"))))
        .unwrap();
    assert_eq!(
        show_result(&r),
        vec![
            " unify result: {_0 ~ ｢a｣}".to_string(),
            "     lhs: _0 ~ ｢a｣".to_string(),
            "     rhs: ｢a｣ ~ ｢a｣".to_string()
        ]
    );
    let r = ev
        .eval(Expr::UnifyVal(SchemePrefix::Inst(atom("a")), SchemePrefix::Inst(atom("b"))))
        .unwrap();
    assert_eq!(
        show_result(&r),
        vec![" unify failed: values ｢a｣ and ｢b｣ couldn't be unified".to_string()]
    );
    let r = ev
        .eval(Expr::Fold(AValue::Binop(BinaryOp::Mul, Box::new(AValue::Int(6)), Box::new(AValue::Int(7)))))
        .unwrap();
    match &r {
        EvalResult::PrintVal(MaybeScheme::Inst(v)) => assert_eq!(v, &Value::Numeric(Numeric::Int(42))),
        _ => panic!("expected a folded value"),
    }
    assert_eq!(show_result(&r), vec![" 42".to_string()]);
    ev.eval(Expr::Assert(Assert(vec![fact("q", vec![])]))).unwrap();
    assert_eq!(show_result(&ev.eval(Expr::PrintEnv).unwrap()), vec![" q() ⊢ ⊤".to_string()]);
    ev.eval(Expr::Reset).unwrap();
    assert_eq!(ev.premises().len(), 0);
}

#[test]
fn generalizing_over_named_variables() {
    let mut ev = Evaluator::new();
    let r = ev
        .eval(Expr::PrintVal(SchemePrefix::Specific(
            vec![NamedVar("X".to_string())],
            AValue::Tuple(ATuple(vec![named("X"), named("Y")])),
        )))
        .unwrap();
    assert_eq!(show_result(&r), vec![" forall $X.($X, $Y)".to_string()]);
}

#[test]
fn input_files_add_statements() {
    let mut ev = Evaluator::new();
    ev.eval_input(Input(Assert(vec![fact("r", vec![named("X")])]))).unwrap();
    assert_eq!(ev.premises().len(), 1);
    let bad = Input(Assert(vec![AutoScheme(AStatement::Fact(aapp(
        "s",
        vec![AValue::Unop(UnaryOp::Neg, Box::new(atom("a")))],
    )))]));
    assert!(ev.eval_input(bad).is_err());
    assert_eq!(ev.premises().len(), 1);
}

#[test]
fn keys_after_a_solution() {
    assert_eq!(query_action(';'), Some(QueryAction::Next));
    assert_eq!(query_action('\t'), Some(QueryAction::Next));
    assert_eq!(query_action('.'), Some(QueryAction::Stop));
    assert_eq!(query_action('\n'), Some(QueryAction::Stop));
    assert_eq!(query_action('\x03'), Some(QueryAction::Stop));
    assert_eq!(query_action('\x04'), Some(QueryAction::Stop));
    assert_eq!(query_action('x'), None);
}

#[test]
fn replies_while_showing_solutions() {
    assert!(matches!(reply_to_action(QueryAction::Next), QueryReply::Write(";")));
    assert!(matches!(reply_to_action(QueryAction::Stop), QueryReply::End(".")));
    assert!(matches!(reply_to_step(Step::Done), QueryReply::End(" ⊥.")));
    assert!(matches!(reply_to_step(Step::Continue), QueryReply::Search));
    let sol = Sub::top()
        .with(Var::Formal("x".to_string()), Value::Atom("a".to_string()))
        .unwrap()
        .with(Var::Auto(7), Value::Atom("b".to_string()))
        .unwrap();
    match reply_to_step(Step::Yield(sol)) {
        QueryReply::Ask(shown) => assert_eq!(shown, "{$x ~ ｢a｣}"),
        other => panic!("expected a solution to show, got {:?}", other),
    }
}

#[test]
fn values_are_written_back_in_source_form() {
    let v = Value::Tuple(Tuple(vec![
        Value::Var(Var::Formal("X".to_string())),
        Value::Var(Var::Auto(3)),
        Value::Numeric(Numeric::Binop(
            BinaryOp::Sub,
            Box::new(Numeric::Int(1)),
            Box::new(Numeric::Var(Var::Formal("Y".to_string()))),
        )),
        Value::List(Box::new(List::Cons(
            Value::Atom("a".to_string()),
            Tail::Open(Var::Formal("R".to_string())),
        ))),
    ]));
    let expected = AValue::Tuple(ATuple(vec![
        named("X"),
        AValue::Var(AVar::Anon),
        AValue::Binop(BinaryOp::Sub, Box::new(AValue::Int(1)), Box::new(named("Y"))),
        AValue::List(Box::new(atom("a")), Box::new(named("R"))),
    ]));
    assert_eq!(written(v), expected);
    let app = App::new(Pred::new_rc("p".into(), 2), Tuple(vec![Value::Atom("a".to_string()), Value::List(Box::new(List::Nil))]));
    assert_eq!(app_written(&app), AApp(Atom("p".to_string()), ATuple(vec![atom("a"), AValue::EmptyList])));
}

#[test]
fn a_written_value_compiles_back_to_itself() {
    let v = Value::Tuple(Tuple(vec![
        Value::Var(Var::Formal("X".to_string())),
        Value::Numeric(Numeric::Unop(UnaryOp::Neg, Box::new(Numeric::Var(Var::Formal("Y".to_string()))))),
        Value::List(Box::new(List::Cons(
            Value::Atom("a".to_string()),
            Tail::Close(Box::new(List::Cons(Value::Atom("b".to_string()), Tail::Open(Var::Formal("R".to_string()))))),
        ))),
    ]));
    let mut ctx = CompileCtx::new(VarSource::new());
    let back: Value = written(v.clone()).compile(&mut ctx).unwrap();
    assert_eq!(back, v);
}
