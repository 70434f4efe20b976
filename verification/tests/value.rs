use aunify::{Sub, Thing, Tuple, Unify, Value, Var};
use std::collections::{HashMap, HashSet};

fn formal(s: &str) -> Var {
    Var::Formal(s.to_string())
}

fn formalv(s: &str) -> Value {
    Value::Var(formal(s))
}

fn atomv(s: &str) -> Value {
    Value::Atom(s.to_string())
}

fn tuplev(v: Vec<Value>) -> Value {
    Value::Tuple(Tuple(v))
}

fn hset(v: Vec<Var>) -> HashSet<Var> {
    v.into_iter().collect()
}

fn map(s: Sub) -> HashMap<Var, Value> {
    s.into_map().into_iter().collect()
}

fn test_equal_len<F: Fn(Vec<Value>, Vec<Value>) -> Result<Sub, aunify::Error>>(f: F) {
    assert_eq!(
        map(f(vec![formalv("x"), formalv("x")], vec![formalv("y"), formalv("y")]).unwrap()),
        map(Sub::top().with(formal("x"), formalv("y")).unwrap())
    );

    assert_eq!(
        map(f(vec![formalv("x"), atomv("a")], vec![formalv("y"), formalv("a")]).unwrap()),
        map(
            Sub::top()
                .with(formal("x"), formalv("y"))
                .unwrap()
                .with(formal("a"), atomv("a"))
                .unwrap()
        )
    );

    assert!(f(vec![formalv("x"), formalv("x")], vec![atomv("a"), atomv("b")]).is_err());

    assert_eq!(
        map(f(vec![formalv("x"), formalv("x")], vec![formalv("x"), formalv("y")]).unwrap()),
        map(Sub::top().with(formal("x"), formalv("y")).unwrap())
    );
}

fn test_noneq_len<F: Fn(Vec<Value>, Vec<Value>) -> Result<Sub, aunify::Error>>(f: F) {
    assert!(f(vec![formalv("x")], vec![formalv("y"), atomv("a")]).is_err());
}

#[test]
fn free_vars() {
    let fv: HashSet<Var> = formalv("x").free_vars().into_iter().collect();
    assert_eq!(fv, hset(vec![formal("x")]));

    let fv: HashSet<Var> = atomv("a").free_vars().into_iter().collect();
    assert_eq!(fv, hset(vec![]));

    let fv: HashSet<Var> = tuplev(vec![formalv("x"), formalv("y")]).free_vars().into_iter().collect();
    assert_eq!(fv, hset(vec![formal("x"), formal("y")]))
}

#[test]
fn sub() {
    let sub = Sub::top()
        .with(formal("x"), formalv("y"))
        .unwrap()
        .with(formal("z"), formalv("w"))
        .unwrap();

    assert_eq!(formalv("x").sub(&sub).unwrap(), formalv("y"));

    assert_eq!(formalv("y").sub(&sub).unwrap(), formalv("y"));

    assert_eq!(atomv("x").sub(&sub).unwrap(), atomv("x"));

    assert_eq!(
        tuplev(vec![formalv("x"), atomv("x"), formalv("z")]).sub(&sub).unwrap(),
        tuplev(vec![formalv("y"), atomv("x"), formalv("w")])
    );
}

#[test]
fn value_unify() {
    assert_eq!(map(formalv("x").unify(&formalv("x")).unwrap()), map(Sub::top()));

    assert_eq!(
        map(formalv("x").unify(&formalv("y")).unwrap()),
        map(Sub::top().with(formal("x"), formalv("y")).unwrap())
    );

    assert_eq!(
        map(formalv("x").unify(&atomv("a")).unwrap()),
        map(Sub::top().with(formal("x"), atomv("a")).unwrap())
    );

    assert_eq!(
        map(atomv("a").unify(&formalv("y")).unwrap()),
        map(Sub::top().with(formal("y"), atomv("a")).unwrap())
    );

    assert_eq!(map(atomv("a").unify(&atomv("a")).unwrap()), map(Sub::top()));

    test_equal_len(|a, b| tuplev(a).unify(&tuplev(b)));
    test_noneq_len(|a, b| tuplev(a).unify(&tuplev(b)));

    assert!(atomv("a").unify(&atomv("b")).is_err());
}

#[test]
fn free_vars_are_listed_once_in_order() {
    let v = tuplev(vec![formalv("y"), formalv("x"), formalv("y")]);
    assert_eq!(v.free_vars(), vec![formal("y"), formal("x")]);
}

#[test]
fn unify_with_itself_gives_top() {
    let v = tuplev(vec![formalv("x"), atomv("a"), tuplev(vec![formalv("y")])]);
    assert!(v.unify(&v).unwrap().is_top());
}

#[test]
fn with_then_get_reads_back() {
    let s = Sub::top().with(formal("x"), atomv("a")).unwrap();
    assert_eq!(s.get(&formal("x")), Some(&atomv("a")));
    assert_eq!(s.get(&formal("y")), None);
    let s = s.with(formal("y"), atomv("b")).unwrap();
    assert_eq!(s.get(&formal("x")), Some(&atomv("a")));
    assert_eq!(s.get(&formal("y")), Some(&atomv("b")));
    assert_eq!(s.len(), 2);
}

#[test]
fn composition_substitutes_into_bindings() {
    let s1 = Sub::top().with(formal("x"), formalv("y")).unwrap();
    let s2 = Sub::top()
        .with(formal("y"), atomv("a"))
        .unwrap()
        .with(formal("x"), atomv("b"))
        .unwrap();
    let c = s1.sub(&s2).unwrap();
    assert_eq!(
        c.into_map(),
        vec![(formal("x"), atomv("a")), (formal("y"), atomv("a"))]
    );
    let c = Sub::top().sub(&Sub::top().with(formal("z"), atomv("c")).unwrap()).unwrap();
    assert_eq!(c.into_map(), vec![(formal("z"), atomv("c"))]);
}

#[test]
fn without_autos_keeps_named_variables() {
    let s = Sub::top()
        .with(Var::Auto(3), atomv("a"))
        .unwrap()
        .with(formal("x"), atomv("b"))
        .unwrap();
    assert_eq!(s.without_autos().into_map(), vec![(formal("x"), atomv("b"))]);
}

#[test]
fn merge_appends_bindings() {
    let a = Sub::top().with(formal("x"), atomv("a")).unwrap();
    let b = Sub::top().with(formal("y"), atomv("b")).unwrap();
    assert_eq!(
        a.merge(b).unwrap().into_map(),
        vec![(formal("x"), atomv("a")), (formal("y"), atomv("b"))]
    );
}

#[test]
fn binding_a_bound_variable_again_is_refused() {
    let s = Sub::top().with(formal("x"), atomv("a")).unwrap();
    assert!(matches!(
        s.with(formal("x"), atomv("b")),
        Err(aunify::Error::DuplicateSub)
    ));
    let a = Sub::top().with(formal("x"), atomv("a")).unwrap();
    let b = Sub::top()
        .with(formal("y"), atomv("b"))
        .unwrap()
        .with(formal("x"), atomv("c"))
        .unwrap();
    assert!(matches!(a.merge(b), Err(aunify::Error::DuplicateSub)));
}

#[test]
fn relevant_to_keeps_variables_of_the_thing() {
    let s = Sub::top()
        .with(formal("x"), atomv("a"))
        .unwrap()
        .with(formal("y"), atomv("b"))
        .unwrap();
    let r = s.relevant_to(&tuplev(vec![formalv("y"), formalv("z")]));
    assert_eq!(r.into_map(), vec![(formal("y"), atomv("b"))]);
}

#[test]
fn composed_substitution_equals_one_after_the_other() {
    let v = tuplev(vec![formalv("x"), formalv("y"), atomv("c"), tuplev(vec![formalv("z")])]);
    let s1 = Sub::top()
        .with(formal("x"), tuplev(vec![formalv("y"), formalv("w")]))
        .unwrap()
        .with(formal("z"), atomv("a"))
        .unwrap();
    let s2 = Sub::top()
        .with(formal("y"), atomv("b"))
        .unwrap()
        .with(formal("w"), formalv("q"))
        .unwrap();
    let one_after_other = v.duplicate().sub(&s1).unwrap().sub(&s2).unwrap();
    let composed = s1.sub(&s2).unwrap();
    assert_eq!(v.sub(&composed).unwrap(), one_after_other);
    assert_eq!(
        one_after_other,
        tuplev(vec![
            tuplev(vec![atomv("b"), formalv("q")]),
            atomv("b"),
            atomv("c"),
            tuplev(vec![atomv("a")])
        ])
    );
}

#[test]
fn unifier_makes_both_sides_equal() {
    let a = tuplev(vec![formalv("x"), tuplev(vec![formalv("y"), atomv("a")])]);
    let b = tuplev(vec![atomv("b"), formalv("z")]);
    let s = a.unify(&b).unwrap();
    let left = a.sub(&s).unwrap();
    let right = b.sub(&s).unwrap();
    assert_eq!(left, right);
    assert_eq!(left, tuplev(vec![atomv("b"), tuplev(vec![formalv("y"), atomv("a")])]));
}
