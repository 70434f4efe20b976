use vstd::prelude::*;

use crate::error::{numeric_kind, res_view, tail_kind, Error, ErrorV};
use crate::numeric::{fold, foldable, NumV, Numeric};
use crate::sub::{lookup, sub_get, Sub, SubV};
use crate::var::VarV;
use crate::term::{copy_value, value_view, values_view, List, ListV, Tail, TailV, Tuple, Value, ValueV};

verus! {

/// Replaces the variables of a numeric expression by what they stand for under `s`
/// (one step, no folding); a variable bound to something other than a variable or a
/// numeric expression is an error.
pub open spec fn num_subst(n: NumV, s: SubV) -> Result<NumV, ErrorV>
    decreases n,
{
    match n {
        NumV::Var(x) => match lookup(s, x) {
            ValueV::Var(y) => Ok(NumV::Var(y)),
            ValueV::Numeric(k) => Ok(k),
            other => Err(ErrorV::SubBadType(numeric_kind(), other)),
        },
        NumV::Int(i) => Ok(NumV::Int(i)),
        NumV::Unop(o, a) => match num_subst(*a, s) {
            Ok(a2) => Ok(NumV::Unop(o, Box::new(a2))),
            Err(e) => Err(e),
        },
        NumV::Binop(o, a, b) => match num_subst(*a, s) {
            Err(e) => Err(e),
            Ok(a2) => match num_subst(*b, s) {
                Err(e) => Err(e),
                Ok(b2) => Ok(NumV::Binop(o, Box::new(a2), Box::new(b2))),
            },
        },
    }
}

/// Substitution into a numeric expression: it is folded first, then its variables are replaced.
pub open spec fn num_sub(n: NumV, s: SubV) -> Result<NumV, ErrorV> {
    num_subst(fold(n), s)
}

/// Substitution into a value, where at most `d` list tails may be expanded one inside
/// another; `None` where that is not enough (a tail variable's binding leads back to it).
pub open spec fn value_sub_f(v: ValueV, s: SubV, d: nat) -> Option<Result<ValueV, ErrorV>>
    decreases d, v,
{
    match v {
        ValueV::Var(x) => Some(Ok(lookup(s, x))),
        ValueV::Atom(a) => Some(Ok(ValueV::Atom(a))),
        ValueV::Numeric(n) => if foldable(n) {
            Some(
                match num_sub(n, s) {
                    Ok(k) => Ok(ValueV::Numeric(k)),
                    Err(e) => Err(e),
                },
            )
        } else {
            None
        },
        ValueV::Tuple(ts) => match seq_sub_f(ts, s, d) {
            None => None,
            Some(Err(e)) => Some(Err(e)),
            Some(Ok(ts2)) => Some(Ok(ValueV::Tuple(ts2))),
        },
        ValueV::List(l) => match list_sub_f(*l, s, d) {
            None => None,
            Some(Err(e)) => Some(Err(e)),
            Some(Ok(l2)) => Some(Ok(ValueV::List(Box::new(l2)))),
        },
    }
}

/// Substitution into the elements of a tuple, left to right; the first error stops it.
pub open spec fn seq_sub_f(ts: Seq<ValueV>, s: SubV, d: nat) -> Option<Result<Seq<ValueV>, ErrorV>>
    decreases d, ts,
{
    if ts.len() == 0 {
        Some(Ok(Seq::empty()))
    } else {
        match seq_sub_f(ts.drop_last(), s, d) {
            None => None,
            Some(Err(e)) => Some(Err(e)),
            Some(Ok(a)) => match value_sub_f(ts.last(), s, d) {
                None => None,
                Some(Err(e)) => Some(Err(e)),
                Some(Ok(b)) => Some(Ok(a.push(b))),
            },
        }
    }
}

pub open spec fn list_sub_f(l: ListV, s: SubV, d: nat) -> Option<Result<ListV, ErrorV>>
    decreases d, l,
{
    match l {
        ListV::Cons(h, t) => match value_sub_f(*h, s, d) {
            None => None,
            Some(Err(e)) => Some(Err(e)),
            Some(Ok(h2)) => match tail_sub_f(t, s, d) {
                None => None,
                Some(Err(e)) => Some(Err(e)),
                Some(Ok(t2)) => Some(Ok(ListV::Cons(Box::new(h2), t2))),
            },
        },
        ListV::Nil => Some(Ok(ListV::Nil)),
    }
}

/// Substitution into a tail: a tail variable bound to a list is replaced by that list,
/// itself substituted.
pub open spec fn tail_sub_f(t: TailV, s: SubV, d: nat) -> Option<Result<TailV, ErrorV>>
    decreases d, t,
{
    match t {
        TailV::Open(x) => match lookup(s, x) {
            ValueV::Var(y) => Some(Ok(TailV::Open(y))),
            ValueV::List(l) => if d == 0 {
                None
            } else {
                match list_sub_f(*l, s, (d - 1) as nat) {
                    None => None,
                    Some(Err(e)) => Some(Err(e)),
                    Some(Ok(l2)) => Some(Ok(TailV::Close(Box::new(l2)))),
                }
            },
            other => Some(Err(ErrorV::SubBadType(tail_kind(), other))),
        },
        TailV::Close(l) => match list_sub_f(*l, s, d) {
            None => None,
            Some(Err(e)) => Some(Err(e)),
            Some(Ok(l2)) => Some(Ok(TailV::Close(Box::new(l2)))),
        },
    }
}

/// Substitution into a value: `None` where it does not terminate, or where a numeric
/// expression in it overflows or divides by zero when folded. Each expansion of a
/// tail variable that terminates binds a different variable, so as many expansions as
/// there are bindings suffice.
pub open spec fn value_sub(v: ValueV, s: SubV) -> Option<Result<ValueV, ErrorV>> {
    value_sub_f(v, s, s.len())
}

pub open spec fn seq_sub(ts: Seq<ValueV>, s: SubV) -> Option<Result<Seq<ValueV>, ErrorV>> {
    seq_sub_f(ts, s, s.len())
}

pub open spec fn list_sub(l: ListV, s: SubV) -> Option<Result<ListV, ErrorV>> {
    list_sub_f(l, s, s.len())
}

pub open spec fn tail_sub(t: TailV, s: SubV) -> Option<Result<TailV, ErrorV>> {
    tail_sub_f(t, s, s.len())
}

/// Once a prefix of a tuple fails or diverges, so does the whole tuple.
pub proof fn lemma_seq_sub_prefix(ts: Seq<ValueV>, s: SubV, d: nat, i: int, j: int)
    requires
        0 <= i <= j <= ts.len(),
        !(seq_sub_f(ts.take(i), s, d) matches Some(Ok(_))),
    ensures
        seq_sub_f(ts.take(j), s, d) == seq_sub_f(ts.take(i), s, d),
    decreases j - i,
{
    if j > i {
        lemma_seq_sub_prefix(ts, s, d, i, j - 1);
        assert(ts.take(j).drop_last() =~= ts.take(j - 1));
    }
}

fn subst_num(n: &Numeric, s: &Sub) -> (r: Result<Numeric, Error>)
    ensures
        res_view(r) == num_subst(n@, s@),
    decreases n,
{
    match n {
        Numeric::Var(x) => match s.get(x) {
            None => Ok(Numeric::Var(x.clone())),
            Some(val) => match val {
                Value::Var(y) => Ok(Numeric::Var(y.clone())),
                Value::Numeric(k) => Ok(k.clone()),
                other => Err(Error::SubBadType("Numeric", copy_value(other))),
            },
        },
        Numeric::Int(i) => Ok(Numeric::Int(*i)),
        Numeric::Unop(o, a) => {
            let a2 = subst_num(&**a, s)?;
            Ok(Numeric::Unop(*o, Box::new(a2)))
        },
        Numeric::Binop(o, a, b) => {
            let a2 = subst_num(&**a, s)?;
            let b2 = subst_num(&**b, s)?;
            Ok(Numeric::Binop(*o, Box::new(a2), Box::new(b2)))
        },
    }
}

/// Substitutes `s` into a numeric expression, after folding it.
pub(crate) fn sub_num(n: Numeric, s: &Sub) -> (r: Result<Numeric, Error>)
    requires
        foldable(n@),
    ensures
        res_view(r) == num_sub(n@, s@),
{
    let f = n.folded();
    subst_num(&f, s)
}

pub(crate) fn sub_value_f(v: &Value, s: &Sub, Ghost(d): Ghost<nat>) -> (r: Result<Value, Error>)
    requires
        value_sub_f(v@, s@, d) is Some,
    ensures
        res_view(r) == value_sub_f(v@, s@, d).unwrap(),
    decreases d, v,
{
    match v {
        Value::Var(x) => match s.get(x) {
            None => Ok(Value::Var(x.clone())),
            Some(val) => Ok(copy_value(val)),
        },
        Value::Atom(a) => Ok(Value::Atom(a.clone())),
        Value::Numeric(n) => {
            let f = n.clone().folded();
            let k = subst_num(&f, s)?;
            Ok(Value::Numeric(k))
        },
        Value::Tuple(t) => {
            let ts = sub_values_f(&t.0, s, Ghost(d))?;
            Ok(Value::Tuple(Tuple(ts)))
        },
        Value::List(l) => {
            let l2 = sub_list_f(&**l, s, Ghost(d))?;
            Ok(Value::List(Box::new(l2)))
        },
    }
}

pub(crate) fn sub_values_f(ts: &Vec<Value>, s: &Sub, Ghost(d): Ghost<nat>) -> (r: Result<Vec<Value>, Error>)
    requires
        seq_sub_f(values_view(ts@), s@, d) is Some,
    ensures
        match r {
            Ok(out) => seq_sub_f(values_view(ts@), s@, d) == Some(
                Ok::<Seq<ValueV>, ErrorV>(values_view(out@)),
            ),
            Err(e) => seq_sub_f(values_view(ts@), s@, d) == Some(Err::<Seq<ValueV>, ErrorV>(e@)),
        },
    decreases d, ts,
{
    let ghost vs = values_view(ts@);
    let mut out: Vec<Value> = Vec::new();
    let n = ts.len();
    let mut i: usize = 0;
    proof {
        assert(vs.take(0) =~= Seq::<ValueV>::empty());
        assert(values_view(out@) =~= Seq::<ValueV>::empty());
    }
    while i < n
        invariant
            n == ts@.len(),
            vs == values_view(ts@),
            i <= n,
            out@.len() == i,
            seq_sub_f(vs, s@, d) is Some,
            seq_sub_f(vs.take(i as int), s@, d) == Some(Ok::<Seq<ValueV>, ErrorV>(values_view(out@))),
        decreases n - i,
    {
        proof {
            assert(vs.take(i + 1).drop_last() =~= vs.take(i as int));
            assert(vs.take(i + 1).last() == value_view(ts@[i as int]));
            if !(seq_sub_f(vs.take(i + 1), s@, d) matches Some(Ok(_))) {
                lemma_seq_sub_prefix(vs, s@, d, i + 1, n as int);
                assert(vs.take(n as int) =~= vs);
            }
        }
        assert(decreases_to!(ts => ts@[i as int]));
        let x = sub_value_f(&ts[i], s, Ghost(d));
        match x {
            Ok(x) => {
                let ghost pre = out@;
                out.push(x);
                proof {
                    assert(values_view(out@) =~= values_view(pre).push(value_view(out@[i as int])));
                }
            },
            Err(e) => {
                proof {
                    lemma_seq_sub_prefix(vs, s@, d, i + 1, n as int);
                    assert(vs.take(n as int) =~= vs);
                }
                return Err(e);
            },
        }
        i = i + 1;
    }
    proof {
        assert(vs.take(n as int) =~= vs);
    }
    Ok(out)
}

pub(crate) fn sub_list_f(l: &List, s: &Sub, Ghost(d): Ghost<nat>) -> (r: Result<List, Error>)
    requires
        list_sub_f(l@, s@, d) is Some,
    ensures
        res_view(r) == list_sub_f(l@, s@, d).unwrap(),
    decreases d, l,
{
    match l {
        List::Cons(h, t) => {
            let h2 = sub_value_f(h, s, Ghost(d))?;
            let t2 = sub_tail_f(t, s, Ghost(d))?;
            Ok(List::Cons(h2, t2))
        },
        List::Nil => Ok(List::Nil),
    }
}

pub(crate) fn sub_tail_f(t: &Tail, s: &Sub, Ghost(d): Ghost<nat>) -> (r: Result<Tail, Error>)
    requires
        tail_sub_f(t@, s@, d) is Some,
    ensures
        res_view(r) == tail_sub_f(t@, s@, d).unwrap(),
    decreases d, t,
{
    match t {
        Tail::Open(x) => match s.get(x) {
            None => Ok(Tail::Open(x.clone())),
            Some(val) => match val {
                Value::Var(y) => Ok(Tail::Open(y.clone())),
                Value::List(l) => {
                    let l2 = sub_list_f(&**l, s, Ghost((d - 1) as nat))?;
                    Ok(Tail::Close(Box::new(l2)))
                },
                other => Err(Error::SubBadType("Tail", copy_value(other))),
            },
        },
        Tail::Close(l) => {
            let l2 = sub_list_f(&**l, s, Ghost(d))?;
            Ok(Tail::Close(Box::new(l2)))
        },
    }
}

} // verus!

verus! {

/// Whether a numeric expression's variables are all bound (if at all) to variables or
/// numeric expressions.
pub open spec fn num_can_sub(n: NumV, s: SubV) -> bool
    decreases n,
{
    match n {
        NumV::Var(x) => match sub_get(s, x) {
            None => true,
            Some(ValueV::Var(_)) => true,
            Some(ValueV::Numeric(_)) => true,
            Some(_) => false,
        },
        NumV::Int(_) => true,
        NumV::Unop(_, a) => num_can_sub(*a, s),
        NumV::Binop(_, a, b) => num_can_sub(*a, s) && num_can_sub(*b, s),
    }
}

/// Whether `s` binds the variables of a value only to values of the kinds their
/// positions allow (a numeric variable to a variable or a numeric expression, a tail
/// variable to a variable or a list).
pub open spec fn value_can_sub(v: ValueV, s: SubV) -> bool
    decreases v,
{
    match v {
        ValueV::Var(_) => true,
        ValueV::Atom(_) => true,
        ValueV::Numeric(n) => num_can_sub(n, s),
        ValueV::Tuple(ts) => seq_can_sub(ts, s),
        ValueV::List(l) => list_can_sub(*l, s),
    }
}

pub open spec fn seq_can_sub(ts: Seq<ValueV>, s: SubV) -> bool
    decreases ts,
{
    if ts.len() == 0 {
        true
    } else {
        seq_can_sub(ts.drop_last(), s) && value_can_sub(ts.last(), s)
    }
}

pub open spec fn list_can_sub(l: ListV, s: SubV) -> bool
    decreases l,
{
    match l {
        ListV::Cons(h, t) => value_can_sub(*h, s) && tail_can_sub(t, s),
        ListV::Nil => true,
    }
}

pub open spec fn tail_can_sub(t: TailV, s: SubV) -> bool
    decreases t,
{
    match t {
        TailV::Open(x) => match sub_get(s, x) {
            None => true,
            Some(ValueV::Var(_)) => true,
            Some(ValueV::List(_)) => true,
            Some(_) => false,
        },
        TailV::Close(l) => list_can_sub(*l, s),
    }
}

pub proof fn lemma_seq_can_sub_prefix(ts: Seq<ValueV>, s: SubV, i: int, j: int)
    requires
        0 <= i <= j <= ts.len(),
        !seq_can_sub(ts.take(i), s),
    ensures
        !seq_can_sub(ts.take(j), s),
    decreases j - i,
{
    if j > i {
        lemma_seq_can_sub_prefix(ts, s, i, j - 1);
        assert(ts.take(j).drop_last() =~= ts.take(j - 1));
    }
}

pub(crate) fn can_sub_num(n: &Numeric, sub: &Sub) -> (r: bool)
    ensures
        r == num_can_sub(n@, sub@),
    decreases n,
{
    match n {
            Numeric::Var(x) => match sub.get(x) {
                None => true,
                Some(Value::Var(_)) => true,
                Some(Value::Numeric(_)) => true,
                Some(_) => false,
            },
            Numeric::Int(_) => true,
            Numeric::Unop(_, a) => can_sub_num(&**a, sub),
            Numeric::Binop(_, a, b) => can_sub_num(&**a, sub) && can_sub_num(&**b, sub),
        }
}

pub(crate) fn can_sub_value(v: &Value, s: &Sub) -> (r: bool)
    ensures
        r == value_can_sub(v@, s@),
    decreases v,
{
    match v {
        Value::Var(_) => true,
        Value::Atom(_) => true,
        Value::Numeric(n) => can_sub_num(n, s),
        Value::Tuple(t) => can_sub_values(&t.0, s),
        Value::List(l) => can_sub_list(&**l, s),
    }
}

pub(crate) fn can_sub_values(ts: &Vec<Value>, s: &Sub) -> (r: bool)
    ensures
        r == seq_can_sub(values_view(ts@), s@),
    decreases ts,
{
    let ghost vs = values_view(ts@);
    let n = ts.len();
    let mut i: usize = 0;
    proof {
        assert(vs.take(0) =~= Seq::<ValueV>::empty());
    }
    while i < n
        invariant
            n == ts@.len(),
            vs == values_view(ts@),
            i <= n,
            seq_can_sub(vs.take(i as int), s@),
        decreases n - i,
    {
        proof {
            assert(vs.take(i + 1).drop_last() =~= vs.take(i as int));
            assert(vs.take(i + 1).last() == value_view(ts@[i as int]));
        }
        assert(decreases_to!(ts => ts@[i as int]));
        if !can_sub_value(&ts[i], s) {
            proof {
                lemma_seq_can_sub_prefix(vs, s@, i + 1, n as int);
                assert(vs.take(n as int) =~= vs);
            }
            return false;
        }
        i = i + 1;
    }
    proof {
        assert(vs.take(n as int) =~= vs);
    }
    true
}

pub(crate) fn can_sub_list(l: &List, s: &Sub) -> (r: bool)
    ensures
        r == list_can_sub(l@, s@),
    decreases l,
{
    match l {
        List::Cons(h, t) => can_sub_value(h, s) && can_sub_tail(t, s),
        List::Nil => true,
    }
}

pub(crate) fn can_sub_tail(t: &Tail, s: &Sub) -> (r: bool)
    ensures
        r == tail_can_sub(t@, s@),
    decreases t,
{
    match t {
        Tail::Open(x) => match s.get(x) {
            None => true,
            Some(Value::Var(_)) => true,
            Some(Value::List(_)) => true,
            Some(_) => false,
        },
        Tail::Close(l) => can_sub_list(&**l, s),
    }
}

} // verus!

verus! {

/// Whether a value is built from variables, atoms and tuples only.
pub open spec fn plain(v: ValueV) -> bool
    decreases v,
{
    match v {
        ValueV::Var(_) => true,
        ValueV::Atom(_) => true,
        ValueV::Tuple(ts) => plain_seq(ts),
        _ => false,
    }
}

pub open spec fn plain_seq(ts: Seq<ValueV>) -> bool
    decreases ts,
{
    ts.len() == 0 || (plain_seq(ts.drop_last()) && plain(ts.last()))
}

/// Where substituting `s2` into each binding of `s1` succeeds, the bindings keep their
/// variables, in order, and take the substituted values.
pub proof fn lemma_entries_sub_values(s1: SubV, s2: SubV)
    requires
        crate::sub::entries_sub(s1, s2) matches Some(Ok(_)),
    ensures
        crate::sub::entries_sub(s1, s2) matches Some(Ok(a)) && a.len() == s1.len() && forall|i: int|
            0 <= i < a.len() ==> #[trigger] a[i].0 == s1[i].0 && value_sub(s1[i].1, s2) == Some(
                Ok::<ValueV, ErrorV>(a[i].1),
            ),
    decreases s1.len(),
{
    if s1.len() > 0 {
        lemma_entries_sub_values(s1.drop_last(), s2);
        let a = crate::sub::entries_sub(s1, s2).unwrap()->Ok_0;
        let a0 = crate::sub::entries_sub(s1.drop_last(), s2).unwrap()->Ok_0;
        assert forall|i: int| 0 <= i < a.len() implies #[trigger] a[i].0 == s1[i].0 && value_sub(s1[i].1, s2)
            == Some(Ok::<ValueV, ErrorV>(a[i].1)) by {
            if i < a.len() - 1 {
                assert(a[i] == a0[i]);
                assert(s1[i] == s1.drop_last()[i]);
            } else {
                assert(s1[i] == s1.last());
            }
        }
    }
}

/// What a variable reads under a composition: a variable bound by `s1` reads its binding
/// with `s2` substituted in; one bound only by `s2` reads its binding there; one bound by
/// neither reads itself.
pub proof fn lemma_lookup_compose(s1: SubV, s2: SubV, x: VarV)
    requires
        crate::sub::keys_distinct(s1),
        crate::sub::keys_distinct(s2),
        crate::sub::compose(s1, s2) matches Some(Ok(_)),
    ensures
        crate::sub::compose(s1, s2) matches Some(Ok(c)) && value_sub(lookup(s1, x), s2) == Some(
            Ok::<ValueV, ErrorV>(lookup(c, x)),
        ) && crate::sub::keys_distinct(c),
{
    lemma_entries_sub_values(s1, s2);
    let a = crate::sub::entries_sub(s1, s2).unwrap()->Ok_0;
    let p = |q: (VarV, ValueV)| !crate::sub::has_key(s1, q.0);
    let f = s2.filter(p);
    let c = a + f;
    assert(crate::sub::fresh_entries(s2, s1) == f);
    crate::sub::lemma_filter_keys_distinct(s2, p);
    assert forall|k: int| 0 <= k < f.len() implies !crate::sub::has_key(s1, #[trigger] f[k].0) by {
        s2.lemma_filter_pred(p, k);
    }
    assert(crate::sub::keys_distinct(c)) by {
        assert forall|i: int, j: int| 0 <= i < c.len() && 0 <= j < c.len() && i != j implies c[i].0
            != c[j].0 by {
            if i < a.len() && j < a.len() {
                assert(c[i] == a[i] && c[j] == a[j]);
            } else if i >= a.len() && j >= a.len() {
                assert(c[i] == f[i - a.len()] && c[j] == f[j - a.len()]);
            } else if i < a.len() {
                assert(c[i] == a[i] && c[j] == f[j - a.len()]);
                assert(crate::sub::has_key(s1, a[i].0));
            } else {
                assert(c[j] == a[j] && c[i] == f[i - a.len()]);
                assert(crate::sub::has_key(s1, a[j].0));
            }
        }
    }
    if crate::sub::has_key(s1, x) {
        let i = crate::sub::key_index(s1, x);
        crate::sub::lemma_sub_get_at(s1, i);
        assert(c[i] == a[i]);
        crate::sub::lemma_sub_get_at(c, i);
    } else if crate::sub::has_key(s2, x) {
        let j = crate::sub::key_index(s2, x);
        crate::sub::lemma_sub_get_at(s2, j);
        s2.lemma_filter_contains(p, j);
        let k = choose|k: int| 0 <= k < f.len() && f[k] == s2[j];
        assert(c[a.len() + k] == f[k]);
        crate::sub::lemma_sub_get_at(c, a.len() + k);
        crate::unify::lemma_value_sub_top(ValueV::Var(x), 0);
        assert(lookup(s1, x) == ValueV::Var(x));
    } else {
        assert(!crate::sub::has_key(c, x)) by {
            if crate::sub::has_key(c, x) {
                let k = choose|k: int| 0 <= k < c.len() && c[k].0 == x;
                if k < a.len() {
                    assert(c[k] == a[k]);
                    assert(s1[k].0 == x);
                } else {
                    assert(c[k] == f[k - a.len()]);
                    assert(s2.contains(f[k - a.len()]));
                    let j = choose|j: int| 0 <= j < s2.len() && s2[j] == f[k - a.len()];
                    assert(s2[j].0 == x);
                }
            }
        }
        assert(!crate::sub::has_key(s2, x));
    }
}

} // verus!

verus! {

proof fn lemma_plain_compose(v: ValueV, s1: SubV, s2: SubV, d1: nat, d: nat)
    requires
        crate::sub::keys_distinct(s1),
        crate::sub::keys_distinct(s2),
        crate::sub::compose(s1, s2) matches Some(Ok(_)),
        plain(v),
    ensures
        crate::sub::compose(s1, s2) matches Some(Ok(c)) && value_sub_f(v, s1, d1) matches Some(Ok(u))
            && value_sub_f(v, c, d) matches Some(Ok(w)) && value_sub_f(u, s2, s2.len()) == Some(
            Ok::<ValueV, ErrorV>(w),
        ),
    decreases v,
{
    match v {
        ValueV::Var(x) => {
            lemma_lookup_compose(s1, s2, x);
        },
        ValueV::Atom(_) => {},
        ValueV::Tuple(ts) => {
            lemma_plain_seq_compose(ts, s1, s2, d1, d);
        },
        _ => {},
    }
}

proof fn lemma_plain_seq_compose(ts: Seq<ValueV>, s1: SubV, s2: SubV, d1: nat, d: nat)
    requires
        crate::sub::keys_distinct(s1),
        crate::sub::keys_distinct(s2),
        crate::sub::compose(s1, s2) matches Some(Ok(_)),
        plain_seq(ts),
    ensures
        crate::sub::compose(s1, s2) matches Some(Ok(c)) && seq_sub_f(ts, s1, d1) matches Some(Ok(us))
            && seq_sub_f(ts, c, d) matches Some(Ok(ws)) && seq_sub_f(us, s2, s2.len()) == Some(
            Ok::<Seq<ValueV>, ErrorV>(ws),
        ),
    decreases ts,
{
    if ts.len() > 0 {
        lemma_plain_seq_compose(ts.drop_last(), s1, s2, d1, d);
        lemma_plain_compose(ts.last(), s1, s2, d1, d);
        let us = seq_sub_f(ts, s1, d1).unwrap()->Ok_0;
        let us0 = seq_sub_f(ts.drop_last(), s1, d1).unwrap()->Ok_0;
        assert(us.drop_last() =~= us0);
    }
}

/// Substituting the composition of `s1` with `s2` into a value built from variables, atoms
/// and tuples gives what substituting `s1`, then `s2`, gives.
pub proof fn lemma_sub_compose(v: ValueV, s1: SubV, s2: SubV)
    requires
        crate::sub::keys_distinct(s1),
        crate::sub::keys_distinct(s2),
        crate::sub::compose(s1, s2) matches Some(Ok(_)),
        plain(v),
    ensures
        crate::sub::compose(s1, s2) matches Some(Ok(c)) && value_sub(v, s1) matches Some(Ok(u))
            && value_sub(u, s2) == value_sub(v, c) && value_sub(v, c) is Some,
{
    let c = crate::sub::compose(s1, s2).unwrap()->Ok_0;
    lemma_plain_compose(v, s1, s2, s1.len(), c.len());
}


/// Whether no variable of `q` is bound by `s`.
pub open spec fn unbound_in(q: Seq<VarV>, s: SubV) -> bool {
    forall|i: int| 0 <= i < q.len() ==> !crate::sub::has_key(s, #[trigger] q[i])
}

/// Whether the bindings of `s` mention no variable that `s` binds.
pub open spec fn settled(s: SubV) -> bool {
    forall|i: int| 0 <= i < s.len() ==> unbound_in(crate::term::value_occ(#[trigger] s[i].1), s)
}

proof fn lemma_unbound_concat(p: Seq<VarV>, q: Seq<VarV>, s: SubV)
    requires
        unbound_in(p, s),
        unbound_in(q, s),
    ensures
        unbound_in(p + q, s),
{
    assert forall|i: int| 0 <= i < (p + q).len() implies !crate::sub::has_key(s, #[trigger] (p + q)[i]) by {
        if i < p.len() {
            assert((p + q)[i] == p[i]);
        } else {
            assert((p + q)[i] == q[i - p.len()]);
        }
    }
}

proof fn lemma_lookup_settled(s: SubV, x: VarV)
    requires
        settled(s),
    ensures
        unbound_in(crate::term::value_occ(lookup(s, x)), s),
{
    if crate::sub::has_key(s, x) {
        let i = crate::sub::key_index(s, x);
        assert(unbound_in(crate::term::value_occ(s[i].1), s));
    } else {
        assert(crate::term::value_occ(ValueV::Var(x)) =~= seq![x]);
    }
}

proof fn lemma_num_subst_settled(m: NumV, s: SubV)
    requires
        settled(s),
        num_subst(m, s) is Ok,
    ensures
        unbound_in(crate::numeric::num_occ(num_subst(m, s)->Ok_0), s),
    decreases m,
{
    match m {
        NumV::Var(x) => {
            lemma_lookup_settled(s, x);
            if let ValueV::Var(y) = lookup(s, x) {
                assert(crate::numeric::num_occ(NumV::Var(y)) =~= crate::term::value_occ(ValueV::Var(y)));
            }
        },
        NumV::Unop(_, a) => {
            lemma_num_subst_settled(*a, s);
        },
        NumV::Binop(_, a, b) => {
            lemma_num_subst_settled(*a, s);
            lemma_num_subst_settled(*b, s);
            lemma_unbound_concat(
                crate::numeric::num_occ(num_subst(*a, s)->Ok_0),
                crate::numeric::num_occ(num_subst(*b, s)->Ok_0),
                s,
            );
        },
        _ => {},
    }
}

proof fn lemma_value_sub_settled(v: ValueV, s: SubV, d: nat)
    requires
        settled(s),
        value_sub_f(v, s, d) matches Some(Ok(_)),
    ensures
        unbound_in(crate::term::value_occ(value_sub_f(v, s, d).unwrap()->Ok_0), s),
    decreases d, v, 1int,
{
    match v {
        ValueV::Var(x) => {
            lemma_lookup_settled(s, x);
        },
        ValueV::Numeric(n) => {
            lemma_num_subst_settled(fold(n), s);
        },
        ValueV::Tuple(ts) => {
            lemma_seq_sub_settled(ts, s, d);
        },
        ValueV::List(l) => {
            lemma_list_sub_settled(*l, s, d);
        },
        _ => {},
    }
}

proof fn lemma_seq_sub_settled(ts: Seq<ValueV>, s: SubV, d: nat)
    requires
        settled(s),
        seq_sub_f(ts, s, d) matches Some(Ok(_)),
    ensures
        unbound_in(crate::term::seq_occ(seq_sub_f(ts, s, d).unwrap()->Ok_0), s),
    decreases d, ts, 0int,
{
    if ts.len() == 0 {
        assert(crate::term::seq_occ(Seq::<ValueV>::empty()) =~= Seq::<VarV>::empty());
    } else {
        lemma_seq_sub_settled(ts.drop_last(), s, d);
        lemma_value_sub_settled(ts.last(), s, d);
        let a = seq_sub_f(ts.drop_last(), s, d).unwrap()->Ok_0;
        let b = value_sub_f(ts.last(), s, d).unwrap()->Ok_0;
        assert(a.push(b).drop_last() =~= a);
        assert(a.push(b).last() == b);
        lemma_unbound_concat(crate::term::seq_occ(a), crate::term::value_occ(b), s);
    }
}

proof fn lemma_list_sub_settled(l: ListV, s: SubV, d: nat)
    requires
        settled(s),
        list_sub_f(l, s, d) matches Some(Ok(_)),
    ensures
        unbound_in(crate::term::list_occ(list_sub_f(l, s, d).unwrap()->Ok_0), s),
    decreases d, l, 0int,
{
    match l {
        ListV::Cons(h, t) => {
            lemma_value_sub_settled(*h, s, d);
            lemma_tail_sub_settled(t, s, d);
            let h2 = value_sub_f(*h, s, d).unwrap()->Ok_0;
            let t2 = tail_sub_f(t, s, d).unwrap()->Ok_0;
            lemma_unbound_concat(crate::term::value_occ(h2), crate::term::tail_occ(t2), s);
        },
        ListV::Nil => {
            assert(crate::term::list_occ(ListV::Nil) =~= Seq::<VarV>::empty());
        },
    }
}

proof fn lemma_tail_sub_settled(t: TailV, s: SubV, d: nat)
    requires
        settled(s),
        tail_sub_f(t, s, d) matches Some(Ok(_)),
    ensures
        unbound_in(crate::term::tail_occ(tail_sub_f(t, s, d).unwrap()->Ok_0), s),
    decreases d, t, 0int,
{
    match t {
        TailV::Open(x) => {
            lemma_lookup_settled(s, x);
            match lookup(s, x) {
                ValueV::Var(y) => {
                    assert(crate::term::tail_occ(TailV::Open(y)) =~= crate::term::value_occ(ValueV::Var(y)));
                },
                ValueV::List(l) => {
                    lemma_list_sub_settled(*l, s, (d - 1) as nat);
                },
                _ => {},
            }
        },
        TailV::Close(l) => {
            lemma_list_sub_settled(*l, s, d);
        },
    }
}

/// Substitution reaches every variable: where the bindings of `s` mention no variable that
/// `s` binds, no variable that `s` binds is left in what substituting `s` into a value gives
/// (in its tuples, list heads and tails, and numeric expressions alike).
pub proof fn lemma_sub_leaves_no_bound_var(v: ValueV, s: SubV)
    requires
        settled(s),
        value_sub(v, s) matches Some(Ok(_)),
    ensures
        unbound_in(crate::term::value_occ(value_sub(v, s).unwrap()->Ok_0), s),
{
    lemma_value_sub_settled(v, s, s.len());
}

} // verus!
