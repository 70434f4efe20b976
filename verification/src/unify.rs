use vstd::prelude::*;

use crate::error::{res_view, Error, ErrorV};
use crate::numeric::{num_occ, NumV, Numeric};
use crate::sub::{compose, Sub, SubV};
use crate::subst::{num_sub, tail_sub, value_sub};
use crate::term::{contains_var, copy_list, copy_tail, copy_value, lemma_dedup_append_contains, list_occ, value_view, values_view, List, ListV, Tail, TailV, Tuple, Value, ValueV};
use crate::var::VarV;
use crate::thing::Thing;

verus! {

/// Unification of numeric expressions, with at most `k` nested unifications (`None` beyond).
/// Purely structural: a variable unifies with any expression it does not occur in, equal
/// integers and equal operators unify, and for a binary operation the right operands are
/// unified after the left operands' unifier is substituted into them.
pub open spec fn num_unify_f(a: NumV, b: NumV, k: nat) -> Option<Result<SubV, ErrorV>>
    decreases k,
{
    if k == 0 {
        None
    } else {
        match a {
            NumV::Var(x) => match b {
                NumV::Var(y) => Some(Ok(if x == y { Seq::empty() } else { seq![(x, ValueV::Var(y))] })),
                _ => if num_occ(b).contains(x) {
                    Some(Err(ErrorV::VarBothSides(x)))
                } else {
                    Some(Ok(seq![(x, ValueV::Numeric(b))]))
                },
            },
            _ => match b {
                NumV::Var(y) => if num_occ(a).contains(y) {
                    Some(Err(ErrorV::VarBothSides(y)))
                } else {
                    Some(Ok(seq![(y, ValueV::Numeric(a))]))
                },
                _ => match (a, b) {
                    (NumV::Int(x), NumV::Int(y)) if x == y => Some(Ok(Seq::empty())),
                    (NumV::Unop(o1, n1), NumV::Unop(o2, n2)) if o1 == o2 => num_unify_f(*n1, *n2, (k - 1) as nat),
                    (NumV::Binop(o1, a1, b1), NumV::Binop(o2, a2, b2)) if o1 == o2 => {
                        match num_unify_f(*a1, *a2, (k - 1) as nat) {
                            None => None,
                            Some(Err(e)) => Some(Err(e)),
                            Some(Ok(asub)) => if !crate::numeric::foldable(*b1) {
                                None
                            } else {
                                match num_sub(*b1, asub) {
                                    Err(e) => Some(Err(e)),
                                    Ok(l) => if !crate::numeric::foldable(*b2) {
                                        None
                                    } else {
                                        match num_sub(*b2, asub) {
                                            Err(e) => Some(Err(e)),
                                            Ok(r) => match num_unify_f(l, r, (k - 1) as nat) {
                                                None => None,
                                                Some(Err(e)) => Some(Err(e)),
                                                Some(Ok(bsub)) => compose(asub, bsub),
                                            },
                                        }
                                    },
                                }
                            },
                        }
                    },
                    _ => Some(Err(ErrorV::BadNumericUnify(a, b))),
                },
            },
        }
    }
}

/// Unification of values with at most `k` nested unifications (`None` beyond, or where a
/// substitution on the way is undefined). There is no occurs check at this level.
pub open spec fn value_unify_f(a: ValueV, b: ValueV, k: nat) -> Option<Result<SubV, ErrorV>>
    decreases k, 0int,
{
    if k == 0 {
        None
    } else {
        match a {
            ValueV::Var(x) => match b {
                ValueV::Var(y) => Some(Ok(if x == y { Seq::empty() } else { seq![(x, ValueV::Var(y))] })),
                _ => Some(Ok(seq![(x, b)])),
            },
            _ => match b {
                ValueV::Var(y) => Some(Ok(seq![(y, a)])),
                _ => match (a, b) {
                    (ValueV::Atom(p), ValueV::Atom(q)) if p == q => Some(Ok(Seq::empty())),
                    (ValueV::Numeric(m), ValueV::Numeric(n)) => num_unify_f(m, n, (k - 1) as nat),
                    (ValueV::Tuple(x), ValueV::Tuple(y)) => tuple_unify_f(x, y, (k - 1) as nat),
                    (ValueV::List(l1), ValueV::List(l2)) => list_unify_f(*l1, *l2, (k - 1) as nat),
                    _ => Some(Err(ErrorV::BadValueUnify(a, b))),
                },
            },
        }
    }
}

/// Unification of tuples: they must have the same length; then the elements are unified
/// left to right, each pair after the unifier so far is substituted into it, and each
/// unifier is composed onto the one so far.
pub open spec fn tuple_unify_f(x: Seq<ValueV>, y: Seq<ValueV>, k: nat) -> Option<Result<SubV, ErrorV>>
    decreases k, x.len() + 1,
{
    if x.len() == y.len() {
        tuple_unify_from(x, y, 0, Seq::empty(), k)
    } else {
        Some(Err(ErrorV::BadTupleUnify(x, y)))
    }
}

/// The rest of a tuple's unification from position `i` on, with `ret` the unifier so far.
pub open spec fn tuple_unify_from(x: Seq<ValueV>, y: Seq<ValueV>, i: int, ret: SubV, k: nat) -> Option<
    Result<SubV, ErrorV>,
>
    decreases k, x.len() - i,
{
    if i < 0 || i >= x.len() || x.len() != y.len() {
        Some(Ok(ret))
    } else {
        match value_sub(x[i], ret) {
            None => None,
            Some(Err(e)) => Some(Err(e)),
            Some(Ok(l)) => match value_sub(y[i], ret) {
                None => None,
                Some(Err(e)) => Some(Err(e)),
                Some(Ok(r)) => match value_unify_f(l, r, k) {
                    None => None,
                    Some(Err(e)) => Some(Err(e)),
                    Some(Ok(u)) => match compose(ret, u) {
                        None => None,
                        Some(Err(e)) => Some(Err(e)),
                        Some(Ok(ret2)) => tuple_unify_from(x, y, i + 1, ret2, k),
                    },
                },
            },
        }
    }
}

/// Unification of lists: heads first, then the tails with the heads' unifier substituted in,
/// composed.
pub open spec fn list_unify_f(a: ListV, b: ListV, k: nat) -> Option<Result<SubV, ErrorV>>
    decreases k, 0int,
{
    if k == 0 {
        None
    } else {
        match (a, b) {
            (ListV::Cons(h1, t1), ListV::Cons(h2, t2)) => match value_unify_f(*h1, *h2, (k - 1) as nat) {
                None => None,
                Some(Err(e)) => Some(Err(e)),
                Some(Ok(hsub)) => match tail_sub(t1, hsub) {
                    None => None,
                    Some(Err(e)) => Some(Err(e)),
                    Some(Ok(l)) => match tail_sub(t2, hsub) {
                        None => None,
                        Some(Err(e)) => Some(Err(e)),
                        Some(Ok(r)) => match tail_unify_f(l, r, (k - 1) as nat) {
                            None => None,
                            Some(Err(e)) => Some(Err(e)),
                            Some(Ok(tsub)) => compose(hsub, tsub),
                        },
                    },
                },
            },
            (ListV::Nil, ListV::Nil) => Some(Ok(Seq::empty())),
            _ => Some(Err(ErrorV::BadListUnify(a, b))),
        }
    }
}

/// Unification of tails: a tail variable unifies with a list it does not occur in.
pub open spec fn tail_unify_f(a: TailV, b: TailV, k: nat) -> Option<Result<SubV, ErrorV>>
    decreases k, 0int,
{
    if k == 0 {
        None
    } else {
        match (a, b) {
            (TailV::Open(x), TailV::Open(y)) => Some(Ok(if x == y { Seq::empty() } else { seq![(x, ValueV::Var(y))] })),
            (TailV::Open(x), TailV::Close(l)) => if list_occ(*l).contains(x) {
                Some(Err(ErrorV::VarBothSides(x)))
            } else {
                Some(Ok(seq![(x, ValueV::List(l))]))
            },
            (TailV::Close(l), TailV::Open(y)) => if list_occ(*l).contains(y) {
                Some(Err(ErrorV::VarBothSides(y)))
            } else {
                Some(Ok(seq![(y, ValueV::List(l))]))
            },
            (TailV::Close(l1), TailV::Close(l2)) => list_unify_f(*l1, *l2, (k - 1) as nat),
        }
    }
}

/// Whether the unification of two values terminates.
pub open spec fn value_unify_terminates(a: ValueV, b: ValueV) -> bool {
    exists|k: nat| value_unify_f(a, b, k) is Some
}

/// The unification of two values: `None` where it is undefined (see `value_unify_f`).
pub open spec fn value_unify(a: ValueV, b: ValueV) -> Option<Result<SubV, ErrorV>> {
    if value_unify_terminates(a, b) {
        value_unify_f(a, b, choose|k: nat| value_unify_f(a, b, k) is Some)
    } else {
        None
    }
}

pub open spec fn num_unify(a: NumV, b: NumV) -> Option<Result<SubV, ErrorV>> {
    if exists|k: nat| num_unify_f(a, b, k) is Some {
        num_unify_f(a, b, choose|k: nat| num_unify_f(a, b, k) is Some)
    } else {
        None
    }
}

pub open spec fn tuple_unify(x: Seq<ValueV>, y: Seq<ValueV>) -> Option<Result<SubV, ErrorV>> {
    if exists|k: nat| tuple_unify_f(x, y, k) is Some {
        tuple_unify_f(x, y, choose|k: nat| tuple_unify_f(x, y, k) is Some)
    } else {
        None
    }
}

pub open spec fn list_unify(a: ListV, b: ListV) -> Option<Result<SubV, ErrorV>> {
    if exists|k: nat| list_unify_f(a, b, k) is Some {
        list_unify_f(a, b, choose|k: nat| list_unify_f(a, b, k) is Some)
    } else {
        None
    }
}

pub open spec fn tail_unify(a: TailV, b: TailV) -> Option<Result<SubV, ErrorV>> {
    if exists|k: nat| tail_unify_f(a, b, k) is Some {
        tail_unify_f(a, b, choose|k: nat| tail_unify_f(a, b, k) is Some)
    } else {
        None
    }
}

fn single(x: crate::var::Var, v: Value) -> (r: Sub)
    ensures
        r@ == seq![(x@, v@)],
{
    let r = Sub::top().with(x, v);
    match r {
        Ok(s) => {
            proof {
                assert(s@ =~= seq![(x@, v@)]);
            }
            s
        },
        Err(_) => Sub::top(),
    }
}

pub(crate) fn unify_num_f(a: &Numeric, b: &Numeric, Ghost(k): Ghost<nat>) -> (r: Result<Sub, Error>)
    requires
        num_unify_f(a@, b@, k) is Some,
    ensures
        res_view(r) == num_unify_f(a@, b@, k).unwrap(),
    decreases k,
{
    match (a, b) {
        (Numeric::Var(x), Numeric::Var(y)) => {
            if x.same(y) {
                Ok(Sub::top())
            } else {
                Ok(single(x.clone(), Value::Var(y.clone())))
            }
        },
        (Numeric::Var(x), _) => {
            let fv = b.free_vars();
            proof {
                lemma_dedup_append_contains(Seq::empty(), num_occ(b@), x@);
            }
            if contains_var(&fv, x) {
                Err(Error::VarBothSides(x.clone()))
            } else {
                Ok(single(x.clone(), Value::Numeric(b.clone())))
            }
        },
        (_, Numeric::Var(y)) => {
            let fv = a.free_vars();
            proof {
                lemma_dedup_append_contains(Seq::empty(), num_occ(a@), y@);
            }
            if contains_var(&fv, y) {
                Err(Error::VarBothSides(y.clone()))
            } else {
                Ok(single(y.clone(), Value::Numeric(a.clone())))
            }
        },
        (Numeric::Int(x), Numeric::Int(y)) if *x == *y => Ok(Sub::top()),
        (Numeric::Unop(o1, n1), Numeric::Unop(o2, n2)) if *o1 == *o2 => unify_num_f(&**n1, &**n2, Ghost((k - 1) as nat)),
        (Numeric::Binop(o1, a1, b1), Numeric::Binop(o2, a2, b2)) if *o1 == *o2 => {
            let asub = unify_num_f(&**a1, &**a2, Ghost((k - 1) as nat))?;
            let l = (**b1).clone().sub(&asub)?;
            let r = (**b2).clone().sub(&asub)?;
            let bsub = unify_num_f(&l, &r, Ghost((k - 1) as nat))?;
            asub.sub(&bsub)
        },
        _ => Err(Error::BadNumericUnify(a.clone(), b.clone())),
    }
}

pub(crate) fn unify_value_f(a: &Value, b: &Value, Ghost(k): Ghost<nat>) -> (r: Result<Sub, Error>)
    requires
        value_unify_f(a@, b@, k) is Some,
    ensures
        res_view(r) == value_unify_f(a@, b@, k).unwrap(),
    decreases k, 0int,
{
    match (a, b) {
        (Value::Var(x), Value::Var(y)) => {
            if x.same(y) {
                Ok(Sub::top())
            } else {
                Ok(single(x.clone(), Value::Var(y.clone())))
            }
        },
        (Value::Var(x), _) => Ok(single(x.clone(), copy_value(b))),
        (_, Value::Var(y)) => Ok(single(y.clone(), copy_value(a))),
        (Value::Atom(p), Value::Atom(q)) if p.eq(q) => Ok(Sub::top()),
        (Value::Numeric(m), Value::Numeric(n)) => unify_num_f(m, n, Ghost((k - 1) as nat)),
        (Value::Tuple(x), Value::Tuple(y)) => unify_tuple_f(x, y, Ghost((k - 1) as nat)),
        (Value::List(l1), Value::List(l2)) => unify_list_f(&**l1, &**l2, Ghost((k - 1) as nat)),
        _ => Err(Error::BadValueUnify(copy_value(a), copy_value(b))),
    }
}

pub(crate) fn unify_tuple_f(x: &Tuple, y: &Tuple, Ghost(k): Ghost<nat>) -> (r: Result<Sub, Error>)
    requires
        tuple_unify_f(x@, y@, k) is Some,
    ensures
        res_view(r) == tuple_unify_f(x@, y@, k).unwrap(),
    decreases k, x.0@.len() + 1,
{
    let ghost xs = x@;
    let ghost ys = y@;
    if x.0.len() != y.0.len() {
        proof {
            assert(xs.len() != ys.len());
        }
        return Err(Error::BadTupleUnify(x.clone(), y.clone()));
    }
    let n = x.0.len();
    let mut ret = Sub::top();
    let mut i: usize = 0;
    proof {
        assert(ret@ =~= Seq::<(VarV, ValueV)>::empty());
    }
    while i < n
        invariant
            n == x.0@.len(),
            n == y.0@.len(),
            xs == x@,
            ys == y@,
            xs == values_view(x.0@),
            ys == values_view(y.0@),
            i <= n,
            tuple_unify_from(xs, ys, i as int, ret@, k) == tuple_unify_f(xs, ys, k),
            tuple_unify_f(xs, ys, k) is Some,
        decreases n - i,
    {
        proof {
            assert(xs[i as int] == value_view(x.0@[i as int]));
            assert(ys[i as int] == value_view(y.0@[i as int]));
        }
        let l = copy_value(&x.0[i]).sub(&ret)?;
        let r = copy_value(&y.0[i]).sub(&ret)?;
        let u = unify_value_f(&l, &r, Ghost(k))?;
        ret = ret.sub(&u)?;
        i = i + 1;
    }
    Ok(ret)
}

pub(crate) fn unify_list_f(a: &List, b: &List, Ghost(k): Ghost<nat>) -> (r: Result<Sub, Error>)
    requires
        list_unify_f(a@, b@, k) is Some,
    ensures
        res_view(r) == list_unify_f(a@, b@, k).unwrap(),
    decreases k, 0int,
{
    match (a, b) {
        (List::Cons(h1, t1), List::Cons(h2, t2)) => {
            let hsub = unify_value_f(h1, h2, Ghost((k - 1) as nat))?;
            let l = copy_tail(t1).sub(&hsub)?;
            let r = copy_tail(t2).sub(&hsub)?;
            let tsub = unify_tail_f(&l, &r, Ghost((k - 1) as nat))?;
            hsub.sub(&tsub)
        },
        (List::Nil, List::Nil) => Ok(Sub::top()),
        _ => Err(Error::BadListUnify(copy_list(a), copy_list(b))),
    }
}

pub(crate) fn unify_tail_f(a: &Tail, b: &Tail, Ghost(k): Ghost<nat>) -> (r: Result<Sub, Error>)
    requires
        tail_unify_f(a@, b@, k) is Some,
    ensures
        res_view(r) == tail_unify_f(a@, b@, k).unwrap(),
    decreases k, 0int,
{
    match (a, b) {
        (Tail::Open(x), Tail::Open(y)) => {
            if x.same(y) {
                Ok(Sub::top())
            } else {
                Ok(single(x.clone(), Value::Var(y.clone())))
            }
        },
        (Tail::Open(x), Tail::Close(l)) => {
            let fv = (**l).free_vars();
            proof {
                lemma_dedup_append_contains(Seq::empty(), list_occ(l@), x@);
            }
            if contains_var(&fv, x) {
                Err(Error::VarBothSides(x.clone()))
            } else {
                Ok(single(x.clone(), Value::List(Box::new(copy_list(&**l)))))
            }
        },
        (Tail::Close(l), Tail::Open(y)) => {
            let fv = (**l).free_vars();
            proof {
                lemma_dedup_append_contains(Seq::empty(), list_occ(l@), y@);
            }
            if contains_var(&fv, y) {
                Err(Error::VarBothSides(y.clone()))
            } else {
                Ok(single(y.clone(), Value::List(Box::new(copy_list(&**l)))))
            }
        },
        (Tail::Close(l1), Tail::Close(l2)) => unify_list_f(&**l1, &**l2, Ghost((k - 1) as nat)),
    }
}

} // verus!

verus! {

/// Whether each numeric expression in a value folds within `i32`.
pub open spec fn value_foldable(v: ValueV) -> bool
    decreases v,
{
    match v {
        ValueV::Numeric(n) => crate::numeric::foldable(n),
        ValueV::Tuple(ts) => seq_foldable(ts),
        ValueV::List(l) => list_foldable(*l),
        _ => true,
    }
}

pub open spec fn seq_foldable(ts: Seq<ValueV>) -> bool
    decreases ts,
{
    ts.len() == 0 || (seq_foldable(ts.drop_last()) && value_foldable(ts.last()))
}

pub open spec fn list_foldable(l: ListV) -> bool
    decreases l,
{
    match l {
        ListV::Cons(h, t) => value_foldable(*h) && tail_foldable(t),
        ListV::Nil => true,
    }
}

pub open spec fn tail_foldable(t: TailV) -> bool
    decreases t,
{
    match t {
        TailV::Open(_) => true,
        TailV::Close(l) => list_foldable(*l),
    }
}

/// A value with each of its numeric expressions folded.
pub open spec fn value_folded(v: ValueV) -> ValueV
    decreases v,
{
    match v {
        ValueV::Numeric(n) => ValueV::Numeric(crate::numeric::fold(n)),
        ValueV::Tuple(ts) => ValueV::Tuple(seq_folded(ts)),
        ValueV::List(l) => ValueV::List(Box::new(list_folded(*l))),
        _ => v,
    }
}

pub open spec fn seq_folded(ts: Seq<ValueV>) -> Seq<ValueV>
    decreases ts,
{
    if ts.len() == 0 {
        Seq::empty()
    } else {
        seq_folded(ts.drop_last()).push(value_folded(ts.last()))
    }
}

pub open spec fn list_folded(l: ListV) -> ListV
    decreases l,
{
    match l {
        ListV::Cons(h, t) => ListV::Cons(Box::new(value_folded(*h)), tail_folded(t)),
        ListV::Nil => ListV::Nil,
    }
}

pub open spec fn tail_folded(t: TailV) -> TailV
    decreases t,
{
    match t {
        TailV::Open(x) => t,
        TailV::Close(l) => TailV::Close(Box::new(list_folded(*l))),
    }
}

proof fn lemma_seq_foldable_elem(ts: Seq<ValueV>, i: int)
    requires
        seq_foldable(ts),
        0 <= i < ts.len(),
    ensures
        value_foldable(ts[i]),
    decreases ts.len(),
{
    if i < ts.len() - 1 {
        lemma_seq_foldable_elem(ts.drop_last(), i);
    }
}

proof fn lemma_value_folded_foldable(v: ValueV)
    requires
        value_foldable(v),
    ensures
        value_foldable(value_folded(v)),
    decreases v,
{
    match v {
        ValueV::Numeric(n) => crate::numeric::lemma_fold_foldable(n),
        ValueV::Tuple(ts) => lemma_seq_folded_foldable(ts),
        ValueV::List(l) => lemma_list_folded_foldable(*l),
        _ => {},
    }
}

proof fn lemma_seq_folded_foldable(ts: Seq<ValueV>)
    requires
        seq_foldable(ts),
    ensures
        seq_foldable(seq_folded(ts)),
    decreases ts,
{
    if ts.len() > 0 {
        lemma_seq_folded_foldable(ts.drop_last());
        lemma_value_folded_foldable(ts.last());
        let f = seq_folded(ts);
        assert(f.drop_last() =~= seq_folded(ts.drop_last()));
    }
}

proof fn lemma_list_folded_foldable(l: ListV)
    requires
        list_foldable(l),
    ensures
        list_foldable(list_folded(l)),
    decreases l,
{
    match l {
        ListV::Cons(h, t) => {
            lemma_value_folded_foldable(*h);
            lemma_tail_folded_foldable(t);
        },
        ListV::Nil => {},
    }
}

proof fn lemma_tail_folded_foldable(t: TailV)
    requires
        tail_foldable(t),
    ensures
        tail_foldable(tail_folded(t)),
    decreases t,
{
    match t {
        TailV::Close(l) => lemma_list_folded_foldable(*l),
        _ => {},
    }
}

proof fn lemma_lookup_top(x: VarV)
    ensures
        crate::sub::lookup(Seq::empty(), x) == ValueV::Var(x),
{
    assert(!crate::sub::has_key(Seq::<(VarV, ValueV)>::empty(), x));
}

/// The empty substitution leaves a numeric expression as it is.
pub proof fn lemma_num_subst_top(n: NumV)
    ensures
        crate::subst::num_subst(n, Seq::empty()) == Ok::<NumV, ErrorV>(n),
    decreases n,
{
    match n {
        NumV::Var(x) => lemma_lookup_top(x),
        NumV::Int(_) => {},
        NumV::Unop(_, a) => lemma_num_subst_top(*a),
        NumV::Binop(_, a, b) => {
            lemma_num_subst_top(*a);
            lemma_num_subst_top(*b);
        },
    }
}

/// Substituting the empty substitution into a value folds its numeric expressions and
/// changes nothing else.
pub proof fn lemma_value_sub_top(v: ValueV, d: nat)
    requires
        value_foldable(v),
    ensures
        crate::subst::value_sub_f(v, Seq::empty(), d) == Some(Ok::<ValueV, ErrorV>(value_folded(v))),
    decreases v,
{
    match v {
        ValueV::Var(x) => lemma_lookup_top(x),
        ValueV::Atom(_) => {},
        ValueV::Numeric(n) => lemma_num_subst_top(crate::numeric::fold(n)),
        ValueV::Tuple(ts) => lemma_seq_sub_top(ts, d),
        ValueV::List(l) => lemma_list_sub_top(*l, d),
    }
}

pub proof fn lemma_seq_sub_top(ts: Seq<ValueV>, d: nat)
    requires
        seq_foldable(ts),
    ensures
        crate::subst::seq_sub_f(ts, Seq::empty(), d) == Some(Ok::<Seq<ValueV>, ErrorV>(seq_folded(ts))),
    decreases ts,
{
    if ts.len() > 0 {
        lemma_seq_sub_top(ts.drop_last(), d);
        lemma_value_sub_top(ts.last(), d);
    }
}

pub proof fn lemma_list_sub_top(l: ListV, d: nat)
    requires
        list_foldable(l),
    ensures
        crate::subst::list_sub_f(l, Seq::empty(), d) == Some(Ok::<ListV, ErrorV>(list_folded(l))),
    decreases l,
{
    match l {
        ListV::Cons(h, t) => {
            lemma_value_sub_top(*h, d);
            lemma_tail_sub_top(t, d);
        },
        ListV::Nil => {},
    }
}

pub proof fn lemma_tail_sub_top(t: TailV, d: nat)
    requires
        tail_foldable(t),
    ensures
        crate::subst::tail_sub_f(t, Seq::empty(), d) == Some(Ok::<TailV, ErrorV>(tail_folded(t))),
    decreases t,
{
    match t {
        TailV::Open(x) => lemma_lookup_top(x),
        TailV::Close(l) => lemma_list_sub_top(*l, d),
    }
}

proof fn lemma_compose_top_top()
    ensures
        compose(Seq::empty(), Seq::empty()) == Some(Ok::<SubV, ErrorV>(Seq::empty())),
{
    crate::sub::lemma_compose_top_left(Seq::empty());
}

/// A numeric expression unifies with itself under the empty substitution, as far as the
/// fuel goes.
pub proof fn lemma_num_unify_self(n: NumV, k: nat)
    ensures
        num_unify_f(n, n, k) is None || num_unify_f(n, n, k) == Some(Ok::<SubV, ErrorV>(Seq::empty())),
    decreases k,
{
    if k > 0 {
        match n {
            NumV::Unop(_, a) => lemma_num_unify_self(*a, (k - 1) as nat),
            NumV::Binop(_, a, b) => {
                lemma_num_unify_self(*a, (k - 1) as nat);
                let fb = crate::numeric::fold(*b);
                lemma_num_subst_top(fb);
                lemma_num_unify_self(fb, (k - 1) as nat);
                lemma_compose_top_top();
            },
            _ => {},
        }
    }
}

/// Whether a numeric expression's unification with itself folds only what folds within
/// `i32`: the right operand of each operation it reaches is folded.
pub open spec fn num_self_ok(n: NumV) -> bool
    decreases n,
{
    match n {
        NumV::Unop(_, a) => num_self_ok(*a),
        NumV::Binop(_, a, b) => num_self_ok(*a) && crate::numeric::foldable(*b),
        _ => true,
    }
}

/// Whether a value's unification with itself folds only what folds within `i32`: a tuple's
/// elements and a list's tail are substituted into, which folds them.
pub open spec fn value_self_ok(v: ValueV) -> bool
    decreases v,
{
    match v {
        ValueV::Numeric(n) => num_self_ok(n),
        ValueV::Tuple(ts) => seq_foldable(ts),
        ValueV::List(l) => list_self_ok(*l),
        _ => true,
    }
}

pub open spec fn list_self_ok(l: ListV) -> bool
    decreases l,
{
    match l {
        ListV::Cons(h, t) => value_self_ok(*h) && tail_foldable(t),
        ListV::Nil => true,
    }
}

pub open spec fn tail_self_ok(t: TailV) -> bool
    decreases t,
{
    match t {
        TailV::Open(_) => true,
        TailV::Close(l) => list_self_ok(*l),
    }
}

proof fn lemma_foldable_num_self_ok(n: NumV)
    requires
        crate::numeric::foldable(n),
    ensures
        num_self_ok(n),
    decreases n,
{
    match n {
        NumV::Unop(_, a) => lemma_foldable_num_self_ok(*a),
        NumV::Binop(_, a, _) => lemma_foldable_num_self_ok(*a),
        _ => {},
    }
}

proof fn lemma_foldable_value_self_ok(v: ValueV)
    requires
        value_foldable(v),
    ensures
        value_self_ok(v),
    decreases v,
{
    match v {
        ValueV::Numeric(n) => lemma_foldable_num_self_ok(n),
        ValueV::List(l) => lemma_foldable_list_self_ok(*l),
        _ => {},
    }
}

proof fn lemma_foldable_list_self_ok(l: ListV)
    requires
        list_foldable(l),
    ensures
        list_self_ok(l),
    decreases l,
{
    match l {
        ListV::Cons(h, _) => lemma_foldable_value_self_ok(*h),
        ListV::Nil => {},
    }
}

proof fn lemma_foldable_tail_self_ok(t: TailV)
    requires
        tail_foldable(t),
    ensures
        tail_self_ok(t),
    decreases t,
{
    match t {
        TailV::Close(l) => lemma_foldable_list_self_ok(*l),
        _ => {},
    }
}

/// A value unifies with itself under the empty substitution, as far as the fuel goes.
pub proof fn lemma_value_unify_self_f(v: ValueV, k: nat)
    requires
        value_self_ok(v),
    ensures
        value_unify_f(v, v, k) is None || value_unify_f(v, v, k) == Some(Ok::<SubV, ErrorV>(Seq::empty())),
    decreases k, 0int,
{
    if k > 0 {
        match v {
            ValueV::Numeric(n) => lemma_num_unify_self(n, (k - 1) as nat),
            ValueV::Tuple(x) => lemma_tuple_from_self(x, 0, (k - 1) as nat),
            ValueV::List(l) => lemma_list_unify_self(*l, (k - 1) as nat),
            _ => {},
        }
    }
}

proof fn lemma_tuple_from_self(x: Seq<ValueV>, i: int, k: nat)
    requires
        0 <= i <= x.len(),
        seq_foldable(x),
    ensures
        tuple_unify_from(x, x, i, Seq::empty(), k) is None || tuple_unify_from(x, x, i, Seq::empty(), k)
            == Some(Ok::<SubV, ErrorV>(Seq::empty())),
    decreases k, x.len() - i,
{
    if i < x.len() {
        let e = Seq::<(VarV, ValueV)>::empty();
        lemma_seq_foldable_elem(x, i);
        lemma_value_sub_top(x[i], 0);
        let f = value_folded(x[i]);
        lemma_value_folded_foldable(x[i]);
        lemma_foldable_value_self_ok(f);
        lemma_value_unify_self_f(f, k);
        lemma_compose_top_top();
        lemma_tuple_from_self(x, i + 1, k);
    }
}

proof fn lemma_list_unify_self(l: ListV, k: nat)
    requires
        list_self_ok(l),
    ensures
        list_unify_f(l, l, k) is None || list_unify_f(l, l, k) == Some(Ok::<SubV, ErrorV>(Seq::empty())),
    decreases k, 0int,
{
    if k > 0 {
        match l {
            ListV::Cons(h, t) => {
                lemma_value_unify_self_f(*h, (k - 1) as nat);
                lemma_tail_sub_top(t, 0);
                lemma_tail_folded_foldable(t);
                lemma_foldable_tail_self_ok(tail_folded(t));
                lemma_tail_unify_self(tail_folded(t), (k - 1) as nat);
                lemma_compose_top_top();
            },
            ListV::Nil => {},
        }
    }
}

proof fn lemma_tail_unify_self(t: TailV, k: nat)
    requires
        tail_self_ok(t),
    ensures
        tail_unify_f(t, t, k) is None || tail_unify_f(t, t, k) == Some(Ok::<SubV, ErrorV>(Seq::empty())),
    decreases k, 0int,
{
    if k > 0 {
        match t {
            TailV::Close(l) => lemma_list_unify_self(*l, (k - 1) as nat),
            _ => {},
        }
    }
}

/// How deeply a numeric expression nests.
pub open spec fn num_depth(n: NumV) -> nat
    decreases n,
{
    match n {
        NumV::Unop(_, a) => 1 + num_depth(*a),
        NumV::Binop(_, a, b) => 1 + if num_depth(*a) >= num_depth(*b) {
            num_depth(*a)
        } else {
            num_depth(*b)
        },
        _ => 1,
    }
}

/// How deeply a value nests.
pub open spec fn value_depth(v: ValueV) -> nat
    decreases v,
{
    match v {
        ValueV::Numeric(n) => 1 + num_depth(n),
        ValueV::Tuple(ts) => 1 + seq_depth(ts),
        ValueV::List(l) => 1 + list_depth(*l),
        _ => 1,
    }
}

/// The deepest nesting among values (zero for none).
pub open spec fn seq_depth(ts: Seq<ValueV>) -> nat
    decreases ts,
{
    if ts.len() == 0 {
        0
    } else {
        let a = seq_depth(ts.drop_last());
        let b = value_depth(ts.last());
        if a >= b {
            a
        } else {
            b
        }
    }
}

pub open spec fn list_depth(l: ListV) -> nat
    decreases l,
{
    match l {
        ListV::Cons(h, t) => 1 + if value_depth(*h) >= tail_depth(t) {
            value_depth(*h)
        } else {
            tail_depth(t)
        },
        ListV::Nil => 1,
    }
}

pub open spec fn tail_depth(t: TailV) -> nat
    decreases t,
{
    match t {
        TailV::Open(_) => 1,
        TailV::Close(l) => 1 + list_depth(*l),
    }
}

/// Folding never deepens a numeric expression.
pub proof fn lemma_fold_depth(n: NumV)
    ensures
        num_depth(crate::numeric::fold(n)) <= num_depth(n),
    decreases n,
{
    match n {
        NumV::Unop(_, a) => lemma_fold_depth(*a),
        NumV::Binop(_, a, b) => {
            lemma_fold_depth(*a);
            lemma_fold_depth(*b);
        },
        _ => {},
    }
}

proof fn lemma_value_folded_depth(v: ValueV)
    ensures
        value_depth(value_folded(v)) <= value_depth(v),
    decreases v,
{
    match v {
        ValueV::Numeric(n) => lemma_fold_depth(n),
        ValueV::Tuple(ts) => lemma_seq_folded_depth(ts),
        ValueV::List(l) => lemma_list_folded_depth(*l),
        _ => {},
    }
}

proof fn lemma_seq_folded_depth(ts: Seq<ValueV>)
    ensures
        seq_depth(seq_folded(ts)) <= seq_depth(ts),
        seq_folded(ts).len() == ts.len(),
    decreases ts,
{
    if ts.len() > 0 {
        lemma_seq_folded_depth(ts.drop_last());
        lemma_value_folded_depth(ts.last());
        let f = seq_folded(ts);
        assert(f.drop_last() =~= seq_folded(ts.drop_last()));
    }
}

proof fn lemma_list_folded_depth(l: ListV)
    ensures
        list_depth(list_folded(l)) <= list_depth(l),
    decreases l,
{
    match l {
        ListV::Cons(h, t) => {
            lemma_value_folded_depth(*h);
            lemma_tail_folded_depth(t);
        },
        ListV::Nil => {},
    }
}

proof fn lemma_tail_folded_depth(t: TailV)
    ensures
        tail_depth(tail_folded(t)) <= tail_depth(t),
    decreases t,
{
    match t {
        TailV::Close(l) => lemma_list_folded_depth(*l),
        _ => {},
    }
}

pub proof fn lemma_seq_depth_elem(ts: Seq<ValueV>, i: int)
    requires
        0 <= i < ts.len(),
    ensures
        value_depth(ts[i]) <= seq_depth(ts),
    decreases ts.len(),
{
    if i < ts.len() - 1 {
        lemma_seq_depth_elem(ts.drop_last(), i);
    }
}

/// With more fuel than it nests deep, a numeric expression's unification with itself
/// terminates.
proof fn lemma_num_unify_self_ends(n: NumV, k: nat)
    requires
        k > num_depth(n),
        num_self_ok(n),
    ensures
        num_unify_f(n, n, k) is Some,
    decreases k,
{
    match n {
        NumV::Unop(_, a) => lemma_num_unify_self_ends(*a, (k - 1) as nat),
        NumV::Binop(_, a, b) => {
            lemma_num_unify_self_ends(*a, (k - 1) as nat);
            lemma_num_unify_self(*a, (k - 1) as nat);
            let fb = crate::numeric::fold(*b);
            lemma_fold_depth(*b);
            crate::numeric::lemma_fold_foldable(*b);
            lemma_foldable_num_self_ok(fb);
            lemma_num_subst_top(fb);
            lemma_num_unify_self_ends(fb, (k - 1) as nat);
            lemma_num_unify_self(fb, (k - 1) as nat);
            lemma_compose_top_top();
        },
        _ => {},
    }
}

proof fn lemma_value_unify_self_ends(v: ValueV, k: nat)
    requires
        k > value_depth(v),
        value_self_ok(v),
    ensures
        value_unify_f(v, v, k) is Some,
    decreases k, 0int,
{
    match v {
        ValueV::Numeric(n) => lemma_num_unify_self_ends(n, (k - 1) as nat),
        ValueV::Tuple(x) => lemma_tuple_from_self_ends(x, 0, (k - 1) as nat),
        ValueV::List(l) => lemma_list_unify_self_ends(*l, (k - 1) as nat),
        _ => {},
    }
}

proof fn lemma_tuple_from_self_ends(x: Seq<ValueV>, i: int, k: nat)
    requires
        0 <= i <= x.len(),
        k > seq_depth(x),
        seq_foldable(x),
    ensures
        tuple_unify_from(x, x, i, Seq::empty(), k) is Some,
    decreases k, x.len() - i,
{
    if i < x.len() {
        lemma_seq_foldable_elem(x, i);
        lemma_value_sub_top(x[i], 0);
        let f = value_folded(x[i]);
        lemma_value_folded_foldable(x[i]);
        lemma_foldable_value_self_ok(f);
        lemma_seq_depth_elem(x, i);
        lemma_value_folded_depth(x[i]);
        lemma_value_unify_self_ends(f, k);
        lemma_value_unify_self_f(f, k);
        lemma_compose_top_top();
        lemma_tuple_from_self_ends(x, i + 1, k);
    }
}

proof fn lemma_list_unify_self_ends(l: ListV, k: nat)
    requires
        k > list_depth(l),
        list_self_ok(l),
    ensures
        list_unify_f(l, l, k) is Some,
    decreases k, 0int,
{
    match l {
        ListV::Cons(h, t) => {
            lemma_value_unify_self_ends(*h, (k - 1) as nat);
            lemma_value_unify_self_f(*h, (k - 1) as nat);
            lemma_tail_sub_top(t, 0);
            lemma_tail_folded_depth(t);
            lemma_tail_folded_foldable(t);
            lemma_foldable_tail_self_ok(tail_folded(t));
            lemma_tail_unify_self_ends(tail_folded(t), (k - 1) as nat);
            lemma_tail_unify_self(tail_folded(t), (k - 1) as nat);
            lemma_compose_top_top();
        },
        ListV::Nil => {},
    }
}

proof fn lemma_tail_unify_self_ends(t: TailV, k: nat)
    requires
        k > tail_depth(t),
        tail_self_ok(t),
    ensures
        tail_unify_f(t, t, k) is Some,
    decreases k, 0int,
{
    match t {
        TailV::Close(l) => lemma_list_unify_self_ends(*l, (k - 1) as nat),
        _ => {},
    }
}

/// Unifying a value with itself terminates and gives the empty substitution, wherever the
/// numeric expressions it folds on the way fold within `i32`.
pub proof fn lemma_unify_self(v: ValueV)
    requires
        value_self_ok(v),
    ensures
        value_unify(v, v) == Some(Ok::<SubV, ErrorV>(Seq::empty())),
{
    let d = value_depth(v) + 1;
    lemma_value_unify_self_ends(v, d);
    assert(value_unify_terminates(v, v));
    let k = choose|k: nat| value_unify_f(v, v, k) is Some;
    lemma_value_unify_self_f(v, k);
}


/// A tail variable unifies with any list it does not occur in, binding the variable to the
/// list (whichever side it stands on), and with no list it occurs in (the occurs check); two
/// tail variables unify with nothing bound where they are the same, else with the first
/// bound to the second.
pub proof fn lemma_tail_var_list_unify(x: VarV, l: ListV, y: VarV)
    ensures
        tail_unify(TailV::Open(x), TailV::Open(y)) == Some(
            Ok::<SubV, ErrorV>(if x == y { Seq::empty() } else { seq![(x, ValueV::Var(y))] }),
        ),
        !list_occ(l).contains(x) ==> tail_unify(TailV::Open(x), TailV::Close(Box::new(l))) == Some(
            Ok::<SubV, ErrorV>(seq![(x, ValueV::List(Box::new(l)))]),
        ),
        !list_occ(l).contains(x) ==> tail_unify(TailV::Close(Box::new(l)), TailV::Open(x)) == Some(
            Ok::<SubV, ErrorV>(seq![(x, ValueV::List(Box::new(l)))]),
        ),
        list_occ(l).contains(x) ==> tail_unify(TailV::Open(x), TailV::Close(Box::new(l))) == Some(
            Err::<SubV, ErrorV>(ErrorV::VarBothSides(x)),
        ),
        list_occ(l).contains(x) ==> tail_unify(TailV::Close(Box::new(l)), TailV::Open(x)) == Some(
            Err::<SubV, ErrorV>(ErrorV::VarBothSides(x)),
        ),
{
    let a = TailV::Open(x);
    let b = TailV::Close(Box::new(l));
    assert(tail_unify_f(a, b, 1) is Some);
    assert(tail_unify_f(b, a, 1) is Some);
    assert(tail_unify_f(a, TailV::Open(y), 1) is Some);
}

} // verus!
