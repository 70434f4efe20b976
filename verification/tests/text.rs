use aunify::text::Show;
use aunify::{
    App, BinaryOp, Clause, List, MaybeScheme, Numeric, Pred, Scheme, Statement, Sub, Tail, Tuple,
    UnaryOp, Value, Var,
};

fn formal(s: &str) -> Var {
    Var::Formal(s.to_string())
}

fn atomv(s: &str) -> Value {
    Value::Atom(s.to_string())
}

fn num(i: i32) -> Numeric {
    Numeric::Int(i)
}

fn bin(o: BinaryOp, a: Numeric, b: Numeric) -> Numeric {
    Numeric::Binop(o, Box::new(a), Box::new(b))
}

#[test]
fn variables_and_atoms() {
    assert_eq!(formal("x").to_string(), "$x");
    assert_eq!(Var::Auto(42).to_string(), "_42");
    assert_eq!(Var::Auto(0).to_string(), "_0");
    assert_eq!(atomv("a").to_string(), "｢a｣");
}

#[test]
fn numeric_precedence() {
    let e = bin(BinaryOp::Mul, bin(BinaryOp::Add, num(1), num(2)), num(3));
    assert_eq!(e.to_string(), "(1 + 2) * 3");
    let e = bin(BinaryOp::Add, num(1), bin(BinaryOp::Mul, num(2), num(3)));
    assert_eq!(e.to_string(), "1 + 2 * 3");
    let e = Numeric::Unop(UnaryOp::Neg, Box::new(bin(BinaryOp::Sub, num(4), num(-5))));
    assert_eq!(e.to_string(), "-(4 - -5)");
    assert_eq!(num(i32::MIN).to_string(), "-2147483648");
    let mut out = String::new();
    num(7).disp_prec(5, &mut out);
    assert_eq!(out, "(7)");
}

#[test]
fn tuples_lists_and_substitutions() {
    let t = Value::Tuple(Tuple(vec![atomv("a"), Value::Var(formal("x"))]));
    assert_eq!(t.to_string(), "(｢a｣, $x)");
    assert_eq!(Value::Tuple(Tuple(vec![])).to_string(), "()");
    let l = Value::List(Box::new(List::Cons(
        atomv("a"),
        Tail::Close(Box::new(List::Cons(atomv("b"), Tail::Open(formal("r"))))),
    )));
    assert_eq!(l.to_string(), "｢a｣:｢b｣:$r");
    assert_eq!(Value::List(Box::new(List::Nil)).to_string(), "[]");
    assert_eq!(Sub::top().to_string(), "⊤");
    let s = Sub::top()
        .with(formal("x"), atomv("a"))
        .unwrap()
        .with(formal("y"), Value::Numeric(num(1)))
        .unwrap();
    assert_eq!(s.to_string(), "{$x ~ ｢a｣, $y ~ 1}");
}

#[test]
fn clauses_statements_and_schemes() {
    let p = Pred::new_rc("p".into(), 1);
    assert_eq!(p.to_string(), "p/1");
    let app = App::new(p.clone(), Tuple(vec![Value::Var(formal("X"))]));
    assert_eq!(app.to_string(), "p($X)");
    let c = Clause::And(
        Box::new(Clause::Or(Box::new(Clause::Top), Box::new(Clause::Bot))),
        Box::new(Clause::Not(Box::new(Clause::App(App::new(p.clone(), Tuple(vec![atomv("a")])))))),
    );
    assert_eq!(c.to_string(), "(⊤, ⊥), ~p(｢a｣)");
    let st = Statement::fact(App::new(p.clone(), Tuple(vec![Value::Var(formal("X"))])));
    assert_eq!(st.to_string(), "p($X) ⊢ ⊤");
    let sc: MaybeScheme<Statement> = MaybeScheme::Scheme(Scheme::generalize(st, vec![formal("X")]));
    assert_eq!(sc.to_string(), "forall $X.p($X) ⊢ ⊤");
}

#[test]
fn error_messages() {
    let r = aunify::Unify::unify(&atomv("a"), &atomv("b"));
    match r {
        Err(e) => assert_eq!(e.to_string(), "values ｢a｣ and ｢b｣ couldn't be unified"),
        Ok(_) => panic!("atoms a and b should not unify"),
    }
}
