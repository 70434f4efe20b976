use aunify::{App, Pred, Sub, Thing, Tuple, Unify, Value, Var};
use std::collections::HashMap;

fn formal(s: &str) -> Var {
    Var::Formal(s.to_string())
}

fn formalv(s: &str) -> Value {
    Value::Var(formal(s))
}

fn atomv(s: &str) -> Value {
    Value::Atom(s.to_string())
}

fn map(s: Sub) -> HashMap<Var, Value> {
    s.into_map().into_iter().collect()
}

fn test_equal_len<F: Fn(Vec<Value>, Vec<Value>) -> Result<Sub, aunify::Error>>(f: F) {
    assert_eq!(
        map(f(vec![formalv("x"), formalv("x")], vec![formalv("y"), formalv("y")]).unwrap()),
        map(Sub::top().with(formal("x"), formalv("y")).unwrap())
    );

    assert_eq!(
        map(f(vec![formalv("x"), atomv("a")], vec![formalv("y"), formalv("a")]).unwrap()),
        map(
            Sub::top()
                .with(formal("x"), formalv("y"))
                .unwrap()
                .with(formal("a"), atomv("a"))
                .unwrap()
        )
    );

    assert!(f(vec![formalv("x"), formalv("x")], vec![atomv("a"), atomv("b")]).is_err());

    assert_eq!(
        map(f(vec![formalv("x"), formalv("x")], vec![formalv("x"), formalv("y")]).unwrap()),
        map(Sub::top().with(formal("x"), formalv("y")).unwrap())
    );
}

fn test_noneq_len<F: Fn(Vec<Value>, Vec<Value>) -> Result<Sub, aunify::Error>>(f: F) {
    assert!(f(vec![formalv("x")], vec![formalv("y"), atomv("a")]).is_err());
}

#[test]
fn pred_unify() {
    test_equal_len(|a, b| {
        let pred = Pred::new_rc("test".into(), a.len());

        App::new(pred.clone(), Tuple(a)).unify(&App::new(pred, Tuple(b)))
    });

    test_noneq_len(|a, b| {
        App::new(Pred::new_rc("test".into(), a.len()), Tuple(a))
            .unify(&App::new(Pred::new_rc("test".into(), b.len()), Tuple(b)))
    });

    assert!(App::new(Pred::new_rc("a".into(), 1), Tuple(vec![atomv("a")]))
        .unify(&App::new(Pred::new_rc("b".into(), 1), Tuple(vec![atomv("a")])))
        .is_err());
}

#[test]
fn predicate_mismatch_names_both() {
    let r = App::new(Pred::new_rc("a".into(), 1), Tuple(vec![atomv("a")]))
        .unify(&App::new(Pred::new_rc("b".into(), 1), Tuple(vec![atomv("a")])));
    match r {
        Err(aunify::Error::PredMismatch(p, q)) => {
            assert_eq!(p.name(), "a");
            assert_eq!(q.name(), "b");
        },
        _ => panic!("expected a predicate mismatch"),
    }
}

#[test]
fn duplicated_app_shares_its_predicate() {
    let a = App::new(Pred::new_rc("p".into(), 2), Tuple(vec![atomv("a"), formalv("x")]));
    let b = a.duplicate();
    assert_eq!(b.pred().name(), "p");
    assert_eq!(b.pred().arity(), 2);
    assert_eq!(a, b);
}
