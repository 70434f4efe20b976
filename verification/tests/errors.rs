use aunify::{
    BinaryOp, Bind, Error, List, MaybeBind, MaybeScheme, Numeric, Scheme, Sub, Tail, Thing, Tuple,
    UnaryOp, Unify, Value, Var, VarSource,
};

fn formal(s: &str) -> Var {
    Var::Formal(s.to_string())
}

fn atomv(s: &str) -> Value {
    Value::Atom(s.to_string())
}

fn nvar(s: &str) -> Numeric {
    Numeric::Var(formal(s))
}

#[test]
fn numeric_variable_bound_to_an_atom() {
    let sub = Sub::top().with(formal("x"), atomv("a")).unwrap();
    let n = Numeric::Binop(BinaryOp::Add, Box::new(nvar("x")), Box::new(Numeric::Int(1)));
    match n.sub(&sub) {
        Err(Error::SubBadType(k, v)) => {
            assert_eq!(k, "Numeric");
            assert_eq!(v, atomv("a"));
        },
        _ => panic!("expected a type error"),
    }
}

#[test]
fn tail_variable_bound_to_an_atom() {
    let sub = Sub::top().with(formal("t"), atomv("a")).unwrap();
    let l = Value::List(Box::new(List::Cons(atomv("h"), Tail::Open(formal("t")))));
    match l.sub(&sub) {
        Err(Error::SubBadType(k, _)) => assert_eq!(k, "Tail"),
        _ => panic!("expected a type error"),
    }
}

#[test]
fn tail_variable_bound_to_a_list_is_expanded() {
    let rest = Value::List(Box::new(List::Cons(atomv("b"), Tail::Close(Box::new(List::Nil)))));
    let sub = Sub::top().with(formal("t"), rest).unwrap();
    let l = Value::List(Box::new(List::Cons(atomv("a"), Tail::Open(formal("t")))));
    let expected = Value::List(Box::new(List::Cons(
        atomv("a"),
        Tail::Close(Box::new(List::Cons(atomv("b"), Tail::Close(Box::new(List::Nil))))),
    )));
    assert_eq!(l.sub(&sub).unwrap(), expected);
}

#[test]
fn unification_errors() {
    assert!(matches!(
        Value::Numeric(Numeric::Int(1)).unify(&Value::Numeric(Numeric::Int(2))),
        Err(Error::BadNumericUnify(_, _))
    ));
    assert!(matches!(
        Value::Tuple(Tuple(vec![atomv("a")])).unify(&Value::Tuple(Tuple(vec![]))),
        Err(Error::BadTupleUnify(_, _))
    ));
    assert!(matches!(
        Value::List(Box::new(List::Nil))
            .unify(&Value::List(Box::new(List::Cons(atomv("a"), Tail::Close(Box::new(List::Nil)))))),
        Err(Error::BadListUnify(_, _))
    ));
    assert!(matches!(atomv("a").unify(&Value::Numeric(Numeric::Int(1))), Err(Error::BadValueUnify(_, _))));
    let x1 = Numeric::Binop(BinaryOp::Add, Box::new(nvar("x")), Box::new(Numeric::Int(1)));
    assert!(matches!(nvar("x").unify(&x1), Err(Error::VarBothSides(_))));
}

#[test]
fn numeric_unification_binds_variables() {
    let a = Numeric::Binop(BinaryOp::Add, Box::new(nvar("x")), Box::new(Numeric::Int(2)));
    let b = Numeric::Binop(BinaryOp::Add, Box::new(Numeric::Int(1)), Box::new(nvar("y")));
    let s = a.unify(&b).unwrap();
    assert_eq!(
        s.into_map(),
        vec![
            (formal("x"), Value::Numeric(Numeric::Int(1))),
            (formal("y"), Value::Numeric(Numeric::Int(2)))
        ]
    );
}

#[test]
fn folding() {
    let mut n = Numeric::Binop(
        BinaryOp::Mul,
        Box::new(Numeric::Binop(BinaryOp::Add, Box::new(Numeric::Int(1)), Box::new(Numeric::Int(2)))),
        Box::new(Numeric::Unop(UnaryOp::Neg, Box::new(Numeric::Int(3)))),
    );
    n.fold();
    assert_eq!(n, Numeric::Int(-9));
    let mut m = Numeric::Binop(BinaryOp::Mod, Box::new(Numeric::Int(7)), Box::new(nvar("z")));
    let before = Numeric::Binop(BinaryOp::Mod, Box::new(Numeric::Int(7)), Box::new(nvar("z")));
    m.fold();
    assert_eq!(m, before);
    let mut twice = Numeric::Binop(BinaryOp::Sub, Box::new(Numeric::Int(10)), Box::new(Numeric::Int(4)));
    twice.fold();
    let once = Numeric::Int(6);
    twice.fold();
    assert_eq!(twice, once);
}

#[test]
fn folding_keeps_variables_and_folds_constant_parts() {
    let mut n = Numeric::Binop(
        BinaryOp::Add,
        Box::new(nvar("x")),
        Box::new(Numeric::Binop(BinaryOp::Div, Box::new(Numeric::Int(7)), Box::new(Numeric::Int(-2)))),
    );
    n.fold();
    assert_eq!(n, Numeric::Binop(BinaryOp::Add, Box::new(nvar("x")), Box::new(Numeric::Int(-3))));
    let mut m = Numeric::Unop(
        UnaryOp::Neg,
        Box::new(Numeric::Binop(BinaryOp::Mod, Box::new(Numeric::Int(-7)), Box::new(Numeric::Int(3)))),
    );
    m.fold();
    assert_eq!(m, Numeric::Int(1));
}

#[test]
fn schemes_instantiate_with_fresh_variables() {
    let v = Value::Tuple(Tuple(vec![Value::Var(formal("x")), Value::Var(formal("y"))]));
    let mut src = VarSource::new();
    let s = Scheme::generalize(v, vec![formal("x")]);
    let i1 = s.make_inst(&mut src).unwrap();
    let i2 = s.make_inst(&mut src).unwrap();
    assert_eq!(i1, Value::Tuple(Tuple(vec![Value::Var(Var::Auto(0)), Value::Var(formal("y"))])));
    assert_eq!(i2, Value::Tuple(Tuple(vec![Value::Var(Var::Auto(1)), Value::Var(formal("y"))])));
    let m = MaybeScheme::generalize(atomv("a"));
    assert!(matches!(m, MaybeScheme::Inst(_)));
    let m = MaybeScheme::generalize(Value::Var(formal("q")));
    match m {
        MaybeScheme::Scheme(s) => assert_eq!(s.vars(), &vec![formal("q")]),
        _ => panic!("a value with a free variable is generalized"),
    }
}

#[test]
fn unify_inst_instantiates_both() {
    let mut src = VarSource::new();
    let mut a = MaybeScheme::generalize(Value::Var(formal("x")));
    let mut b = MaybeScheme::Inst(atomv("a"));
    let s = a.unify_inst(&mut b, &mut src).unwrap();
    assert_eq!(s.into_map(), vec![(Var::Auto(0), atomv("a"))]);
    assert!(matches!(a, MaybeScheme::Inst(Value::Var(Var::Auto(0)))));
}

#[test]
fn binding_variables() {
    let v = Value::Tuple(Tuple(vec![Value::Var(formal("x")), Value::Var(formal("y"))]));
    let b = Bind::over(v, vec![formal("x"), formal("x")]);
    assert_eq!(b.vars(), &vec![formal("x")]);
    let (b, fresh) = b.bind(formal("y"));
    assert!(fresh);
    let (b, fresh) = b.bind(formal("x"));
    assert!(!fresh);
    assert_eq!(b.vars(), &vec![formal("x"), formal("y")]);
    assert_eq!(aunify::text::Show::to_string(&b), "for $x, $y.($x, $y)");
    let raw = MaybeBind::over(atomv("a"), vec![formal("x")]);
    assert!(matches!(raw, MaybeBind::Raw(_)));
    let bound = MaybeBind::over(Value::Var(formal("x")), vec![formal("x"), formal("z")]);
    match &bound {
        MaybeBind::Bind(b) => assert_eq!(b.vars(), &vec![formal("x")]),
        _ => panic!("x occurs free"),
    }
    assert_eq!(bound.into_raw(), Value::Var(formal("x")));
    let fv = Bind::over(Value::Var(formal("x")), vec![formal("x")]).free_vars();
    assert!(fv.is_empty());
}

#[test]
fn numeric_unifier_unifies_up_to_folding() {
    let add = |a: Numeric, b: Numeric| Numeric::Binop(BinaryOp::Add, Box::new(a), Box::new(b));
    let a = add(nvar("x"), Numeric::Int(2));
    let b = add(add(Numeric::Int(1), Numeric::Int(2)), nvar("y"));
    let s = a.unify(&b).unwrap();
    let mut la = a.clone().sub(&s).unwrap();
    let mut lb = b.clone().sub(&s).unwrap();
    la.fold();
    lb.fold();
    assert_eq!(la, lb);
    assert_eq!(la, Numeric::Int(5));
}

#[test]
fn try_fold_refuses_division_by_zero_and_keeps_the_expression() {
    let div = Numeric::Binop(BinaryOp::Div, Box::new(Numeric::Int(1)), Box::new(Numeric::Int(0)));
    let mut n = Numeric::Unop(UnaryOp::Neg, Box::new(div));
    let before = n.clone();
    assert!(!n.try_fold());
    assert_eq!(n, before);
    let mut m = Numeric::Binop(BinaryOp::Mul, Box::new(Numeric::Int(2)), Box::new(Numeric::Int(3)));
    assert!(m.try_fold());
    assert_eq!(m, Numeric::Int(6));
    let mut big = Numeric::Binop(BinaryOp::Add, Box::new(Numeric::Int(i32::MAX)), Box::new(Numeric::Int(1)));
    assert!(big.clone().checked_folded().is_none());
    assert!(!big.try_fold());
}
