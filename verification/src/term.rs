use vstd::prelude::*;

use crate::numeric::{num_occ, NumV, Numeric};
use crate::var::{var_views, Var, VarV};

verus! {

/// The model of a value.
pub enum ValueV {
    Var(VarV),
    Atom(Seq<char>),
    Numeric(NumV),
    Tuple(Seq<ValueV>),
    List(Box<ListV>),
}

/// The model of a list: a head and a tail, or the empty list.
pub enum ListV {
    Cons(Box<ValueV>, TailV),
    Nil,
}

/// The model of a list's tail: a variable standing for the rest of the list, or a list.
pub enum TailV {
    Open(VarV),
    Close(Box<ListV>),
}

/// A value of the logic: a variable, an atom, a numeric expression, a tuple or a list.
#[derive(Debug, Hash, PartialEq, Eq)]
pub enum Value {
    Var(Var),
    Atom(String),
    Numeric(Numeric),
    Tuple(Tuple),
    List(Box<List>),
}

/// A tuple of values.
#[derive(Debug, Hash, PartialEq, Eq)]
pub struct Tuple(pub Vec<Value>);

/// A list of values whose tail may be left open.
#[derive(Debug, Hash, PartialEq, Eq)]
pub enum List {
    Cons(Value, Tail),
    Nil,
}

/// The tail of a list.
#[derive(Debug, Hash, PartialEq, Eq)]
pub enum Tail {
    Open(Var),
    Close(Box<List>),
}

pub open spec fn value_view(v: Value) -> ValueV
    decreases v,
{
    match v {
        Value::Var(x) => ValueV::Var(x@),
        Value::Atom(a) => ValueV::Atom(a@),
        Value::Numeric(n) => ValueV::Numeric(n@),
        Value::Tuple(t) => ValueV::Tuple(values_view(t.0@)),
        Value::List(l) => ValueV::List(Box::new(list_view(*l))),
    }
}

pub open spec fn values_view(s: Seq<Value>) -> Seq<ValueV>
    decreases s,
{
    Seq::new(s.len(), |i: int| if 0 <= i < s.len() { value_view(s[i]) } else { ValueV::Tuple(Seq::empty()) })
}

pub open spec fn list_view(l: List) -> ListV
    decreases l,
{
    match l {
        List::Cons(h, t) => ListV::Cons(Box::new(value_view(h)), tail_view(t)),
        List::Nil => ListV::Nil,
    }
}

pub open spec fn tail_view(t: Tail) -> TailV
    decreases t,
{
    match t {
        Tail::Open(x) => TailV::Open(x@),
        Tail::Close(l) => TailV::Close(Box::new(list_view(*l))),
    }
}

impl View for Value {
    type V = ValueV;

    open spec fn view(&self) -> ValueV {
        value_view(*self)
    }
}

impl View for Tuple {
    type V = Seq<ValueV>;

    open spec fn view(&self) -> Seq<ValueV> {
        values_view(self.0@)
    }
}

impl View for List {
    type V = ListV;

    open spec fn view(&self) -> ListV {
        list_view(*self)
    }
}

impl View for Tail {
    type V = TailV;

    open spec fn view(&self) -> TailV {
        tail_view(*self)
    }
}

} // verus!

verus! {

/// The order-preserving insertion of a variable into a duplicate-free sequence.
pub open spec fn dedup_step(acc: Seq<VarV>, x: VarV) -> Seq<VarV> {
    if acc.contains(x) {
        acc
    } else {
        acc.push(x)
    }
}

/// Inserts the variables of `xs`, in order, into `acc`, skipping those already present.
pub open spec fn dedup_append(acc: Seq<VarV>, xs: Seq<VarV>) -> Seq<VarV>
    decreases xs.len(),
{
    if xs.len() == 0 {
        acc
    } else {
        dedup_append(dedup_step(acc, xs[0]), xs.drop_first())
    }
}

/// The variables of a value in order of occurrence (with repetitions).
pub open spec fn value_occ(v: ValueV) -> Seq<VarV>
    decreases v,
{
    match v {
        ValueV::Var(x) => seq![x],
        ValueV::Atom(_) => Seq::empty(),
        ValueV::Numeric(n) => num_occ(n),
        ValueV::Tuple(ts) => seq_occ(ts),
        ValueV::List(l) => list_occ(*l),
    }
}

pub open spec fn seq_occ(ts: Seq<ValueV>) -> Seq<VarV>
    decreases ts,
{
    if ts.len() == 0 {
        Seq::empty()
    } else {
        seq_occ(ts.drop_last()) + value_occ(ts.last())
    }
}

pub open spec fn list_occ(l: ListV) -> Seq<VarV>
    decreases l,
{
    match l {
        ListV::Cons(h, t) => value_occ(*h) + tail_occ(t),
        ListV::Nil => Seq::empty(),
    }
}

pub open spec fn tail_occ(t: TailV) -> Seq<VarV>
    decreases t,
{
    match t {
        TailV::Open(x) => seq![x],
        TailV::Close(l) => list_occ(*l),
    }
}

pub proof fn lemma_dedup_append_concat(acc: Seq<VarV>, a: Seq<VarV>, b: Seq<VarV>)
    ensures
        dedup_append(acc, a + b) == dedup_append(dedup_append(acc, a), b),
    decreases a.len(),
{
    if a.len() == 0 {
        assert(a + b =~= b);
    } else {
        assert((a + b).drop_first() =~= a.drop_first() + b);
        assert((a + b)[0] == a[0]);
        lemma_dedup_append_concat(dedup_step(acc, a[0]), a.drop_first(), b);
    }
}

pub proof fn lemma_dedup_append_single(acc: Seq<VarV>, x: VarV)
    ensures
        dedup_append(acc, seq![x]) == dedup_step(acc, x),
{
    let s = seq![x];
    assert(s.drop_first() =~= Seq::<VarV>::empty());
    assert(dedup_append(dedup_step(acc, x), Seq::<VarV>::empty()) == dedup_step(acc, x));
}

/// Inserts `v` into the duplicate-free variable list `set` unless it is present.
pub fn add_var(set: &mut Vec<Var>, v: &Var)
    ensures
        var_views(final(set)@) == dedup_step(var_views(old(set)@), v@),
{
    let n = set.len();
    let mut i: usize = 0;
    while i < n
        invariant
            n == set.len(),
            i <= n,
            forall|j: int| 0 <= j < i ==> set@[j]@ != v@,
        decreases n - i,
    {
        if set[i].same(v) {
            proof {
                assert(var_views(set@)[i as int] == v@);
            }
            return;
        }
        i = i + 1;
    }
    proof {
        assert(!var_views(set@).contains(v@)) by {
            if var_views(set@).contains(v@) {
                let k = choose|k: int| 0 <= k < var_views(set@).len() && var_views(set@)[k] == v@;
                assert(set@[k]@ == v@);
            }
        }
    }
    let ghost old_set = set@;
    set.push(v.clone());
    proof {
        assert(var_views(set@) =~= var_views(old_set).push(v@));
    }
}

/// Adds the variables of a numeric expression to `set`, in order of occurrence.
pub(crate) fn collect_num(n: &Numeric, set: &mut Vec<Var>)
    ensures
        var_views(final(set)@) == dedup_append(var_views(old(set)@), num_occ(n@)),
    decreases n,
{
    match n {
        Numeric::Var(v) => {
            add_var(set, v);
            proof {
                lemma_dedup_append_single(var_views(old(set)@), v@);
            }
        },
        Numeric::Int(_) => {},
        Numeric::Unop(_, n) => {
            collect_num(&**n, set);
        },
        Numeric::Binop(_, a, b) => {
            collect_num(&**a, set);
            collect_num(&**b, set);
            proof {
                lemma_dedup_append_concat(var_views(old(set)@), num_occ(a@), num_occ(b@));
            }
        },
    }
}

/// A copy of a value.
pub fn copy_value(v: &Value) -> (r: Value)
    ensures
        r@ == v@,
    decreases v,
{
    match v {
        Value::Var(x) => Value::Var(x.clone()),
        Value::Atom(a) => Value::Atom(a.clone()),
        Value::Numeric(n) => Value::Numeric(n.clone()),
        Value::Tuple(t) => Value::Tuple(Tuple(copy_values(&t.0))),
        Value::List(l) => Value::List(Box::new(copy_list(&**l))),
    }
}

/// A copy of a list of values.
pub fn copy_values(s: &Vec<Value>) -> (r: Vec<Value>)
    ensures
        values_view(r@) == values_view(s@),
    decreases s,
{
    let mut out: Vec<Value> = Vec::new();
    let n = s.len();
    let mut i: usize = 0;
    while i < n
        invariant
            n == s.len(),
            i <= n,
            out@.len() == i,
            forall|j: int| 0 <= j < i ==> value_view(#[trigger] out@[j]) == value_view(s@[j]),
        decreases n - i,
    {
        assert(decreases_to!(s => s@[i as int]));
        let c = copy_value(&s[i]);
        out.push(c);
        i = i + 1;
    }
    assert(values_view(out@) =~= values_view(s@));
    out
}

/// A copy of a list.
pub fn copy_list(l: &List) -> (r: List)
    ensures
        r@ == l@,
    decreases l,
{
    match l {
        List::Cons(h, t) => List::Cons(copy_value(h), copy_tail(t)),
        List::Nil => List::Nil,
    }
}

/// A copy of a list's tail.
pub fn copy_tail(t: &Tail) -> (r: Tail)
    ensures
        r@ == t@,
    decreases t,
{
    match t {
        Tail::Open(x) => Tail::Open(x.clone()),
        Tail::Close(l) => Tail::Close(Box::new(copy_list(&**l))),
    }
}

impl Clone for Value {
    fn clone(&self) -> (r: Self)
        ensures
            r@ == self@,
    {
        copy_value(self)
    }
}

impl Clone for Tuple {
    fn clone(&self) -> (r: Self)
        ensures
            r@ == self@,
    {
        Tuple(copy_values(&self.0))
    }
}

impl Clone for List {
    fn clone(&self) -> (r: Self)
        ensures
            r@ == self@,
    {
        copy_list(self)
    }
}

impl Clone for Tail {
    fn clone(&self) -> (r: Self)
        ensures
            r@ == self@,
    {
        copy_tail(self)
    }
}

/// Whether two values are the same.
pub fn eq_value(a: &Value, b: &Value) -> (r: bool)
    ensures
        r == (a@ == b@),
    decreases a,
{
    match (a, b) {
        (Value::Var(x), Value::Var(y)) => x.same(y),
        (Value::Atom(x), Value::Atom(y)) => x.eq(y),
        (Value::Numeric(x), Value::Numeric(y)) => x.equals(y),
        (Value::Tuple(x), Value::Tuple(y)) => {
            let r = eq_values(&x.0, &y.0);
            proof {
                if !r {
                    assert(values_view(x.0@) != values_view(y.0@));
                }
            }
            r
        },
        (Value::List(x), Value::List(y)) => eq_list(&**x, &**y),
        _ => false,
    }
}

/// Whether two lists of values are the same.
pub fn eq_values(a: &Vec<Value>, b: &Vec<Value>) -> (r: bool)
    ensures
        r == (values_view(a@) == values_view(b@)),
    decreases a,
{
    if a.len() != b.len() {
        proof {
            assert(values_view(a@).len() != values_view(b@).len());
        }
        return false;
    }
    let n = a.len();
    let mut i: usize = 0;
    while i < n
        invariant
            n == a.len(),
            n == b.len(),
            i <= n,
            forall|j: int| 0 <= j < i ==> value_view(#[trigger] a@[j]) == value_view(b@[j]),
        decreases n - i,
    {
        assert(decreases_to!(a => a@[i as int]));
        if !eq_value(&a[i], &b[i]) {
            proof {
                assert(values_view(a@)[i as int] != values_view(b@)[i as int]);
            }
            return false;
        }
        i = i + 1;
    }
    assert(values_view(a@) =~= values_view(b@));
    true
}

/// Whether two lists are the same.
pub fn eq_list(a: &List, b: &List) -> (r: bool)
    ensures
        r == (a@ == b@),
    decreases a,
{
    match (a, b) {
        (List::Cons(h1, t1), List::Cons(h2, t2)) => eq_value(h1, h2) && eq_tail(t1, t2),
        (List::Nil, List::Nil) => true,
        _ => false,
    }
}

/// Whether two tails are the same.
pub fn eq_tail(a: &Tail, b: &Tail) -> (r: bool)
    ensures
        r == (a@ == b@),
    decreases a,
{
    match (a, b) {
        (Tail::Open(x), Tail::Open(y)) => x.same(y),
        (Tail::Close(x), Tail::Close(y)) => eq_list(&**x, &**y),
        _ => false,
    }
}

} // verus!

verus! {

/// The free variables of a value, each once, in order of first occurrence.
pub open spec fn value_free(v: ValueV) -> Seq<VarV> {
    dedup_append(Seq::empty(), value_occ(v))
}

pub(crate) fn collect_value(v: &Value, set: &mut Vec<Var>)
    ensures
        var_views(final(set)@) == dedup_append(var_views(old(set)@), value_occ(v@)),
    decreases v,
{
    match v {
        Value::Var(x) => {
            add_var(set, x);
            proof {
                lemma_dedup_append_single(var_views(old(set)@), x@);
            }
        },
        Value::Atom(_) => {},
        Value::Numeric(n) => collect_num(n, set),
        Value::Tuple(t) => collect_values(&t.0, set),
        Value::List(l) => collect_list(&**l, set),
    }
}

pub(crate) fn collect_values(ts: &Vec<Value>, set: &mut Vec<Var>)
    ensures
        var_views(final(set)@) == dedup_append(var_views(old(set)@), seq_occ(values_view(ts@))),
    decreases ts,
{
    let ghost vs = values_view(ts@);
    let ghost start = var_views(set@);
    let n = ts.len();
    let mut i: usize = 0;
    proof {
        assert(vs.take(0) =~= Seq::<ValueV>::empty());
    }
    while i < n
        invariant
            n == ts@.len(),
            vs == values_view(ts@),
            i <= n,
            var_views(set@) == dedup_append(start, seq_occ(vs.take(i as int))),
        decreases n - i,
    {
        proof {
            assert(vs.take(i + 1).drop_last() =~= vs.take(i as int));
            assert(vs.take(i + 1).last() == value_view(ts@[i as int]));
            lemma_dedup_append_concat(start, seq_occ(vs.take(i as int)), value_occ(value_view(ts@[i as int])));
        }
        assert(decreases_to!(ts => ts@[i as int]));
        collect_value(&ts[i], set);
        i = i + 1;
    }
    proof {
        assert(vs.take(n as int) =~= vs);
    }
}

pub(crate) fn collect_list(l: &List, set: &mut Vec<Var>)
    ensures
        var_views(final(set)@) == dedup_append(var_views(old(set)@), list_occ(l@)),
    decreases l,
{
    match l {
        List::Cons(h, t) => {
            collect_value(h, set);
            collect_tail(t, set);
            proof {
                lemma_dedup_append_concat(var_views(old(set)@), value_occ(h@), tail_occ(t@));
            }
        },
        List::Nil => {},
    }
}

pub(crate) fn collect_tail(t: &Tail, set: &mut Vec<Var>)
    ensures
        var_views(final(set)@) == dedup_append(var_views(old(set)@), tail_occ(t@)),
    decreases t,
{
    match t {
        Tail::Open(x) => {
            add_var(set, x);
            proof {
                lemma_dedup_append_single(var_views(old(set)@), x@);
            }
        },
        Tail::Close(l) => collect_list(&**l, set),
    }
}

} // verus!

verus! {

/// A variable is among the deduplicated variables exactly when it was in either part.
pub proof fn lemma_dedup_append_contains(acc: Seq<VarV>, xs: Seq<VarV>, x: VarV)
    ensures
        dedup_append(acc, xs).contains(x) == (acc.contains(x) || xs.contains(x)),
    decreases xs.len(),
{
    if xs.len() > 0 {
        let acc2 = dedup_step(acc, xs[0]);
        lemma_dedup_append_contains(acc2, xs.drop_first(), x);
        assert(acc2.contains(x) == (acc.contains(x) || xs[0] == x)) by {
            if !acc.contains(xs[0]) {
                if acc2.contains(x) {
                    let k = choose|k: int| 0 <= k < acc2.len() && acc2[k] == x;
                    if k < acc.len() {
                        assert(acc[k] == x);
                    }
                }
                if acc.contains(x) {
                    let k = choose|k: int| 0 <= k < acc.len() && acc[k] == x;
                    assert(acc2[k] == x);
                }
                assert(acc2[acc.len() as int] == xs[0]);
            }
        }
        assert(xs.contains(x) == (xs[0] == x || xs.drop_first().contains(x))) by {
            if xs.contains(x) {
                let k = choose|k: int| 0 <= k < xs.len() && xs[k] == x;
                if k > 0 {
                    assert(xs.drop_first()[k - 1] == x);
                }
            }
            if xs.drop_first().contains(x) {
                let k = choose|k: int| 0 <= k < xs.drop_first().len() && xs.drop_first()[k] == x;
                assert(xs[k + 1] == x);
            }
        }
    }
}

/// Whether `x` is among the variables in `set`.
pub fn contains_var(set: &Vec<Var>, x: &Var) -> (r: bool)
    ensures
        r == var_views(set@).contains(x@),
{
    let n = set.len();
    let mut i: usize = 0;
    while i < n
        invariant
            n == set@.len(),
            i <= n,
            forall|j: int| 0 <= j < i ==> set@[j]@ != x@,
        decreases n - i,
    {
        if set[i].same(x) {
            proof {
                assert(var_views(set@)[i as int] == x@);
            }
            return true;
        }
        i = i + 1;
    }
    proof {
        if var_views(set@).contains(x@) {
            let k = choose|k: int| 0 <= k < var_views(set@).len() && var_views(set@)[k] == x@;
            assert(set@[k]@ == x@);
        }
    }
    false
}

} // verus!

verus! {

/// Whether no variable occurs twice.
pub open spec fn no_dup(s: Seq<VarV>) -> bool {
    forall|i: int, j: int| 0 <= i < s.len() && 0 <= j < s.len() && i != j ==> s[i] != s[j]
}

/// Deduplicated insertion keeps a list free of duplicates.
pub proof fn lemma_dedup_append_no_dup(acc: Seq<VarV>, xs: Seq<VarV>)
    requires
        no_dup(acc),
    ensures
        no_dup(dedup_append(acc, xs)),
    decreases xs.len(),
{
    if xs.len() > 0 {
        let acc2 = dedup_step(acc, xs[0]);
        assert(no_dup(acc2)) by {
            if !acc.contains(xs[0]) {
                assert forall|i: int, j: int| 0 <= i < acc2.len() && 0 <= j < acc2.len() && i != j implies acc2[i] != acc2[j] by {
                    if i == acc.len() {
                        assert(acc2[j] == acc[j]);
                    } else if j == acc.len() {
                        assert(acc2[i] == acc[i]);
                    }
                }
            }
        }
        lemma_dedup_append_no_dup(acc2, xs.drop_first());
    }
}

} // verus!
