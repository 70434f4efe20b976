use vstd::prelude::*;

use crate::error::ErrorV;
use crate::sub::{compose, has_key, keys_distinct, lookup, sub_get, SubV};
use crate::subst::{plain, plain_seq, seq_sub_f, value_sub, value_sub_f};
use crate::term::{seq_occ, value_occ, ValueV};
use crate::var::VarV;

verus! {

/// Substitution into a value built from variables, atoms and tuples: each variable is
/// replaced by what it stands for.
pub open spec fn psub(v: ValueV, s: SubV) -> ValueV
    decreases v,
{
    match v {
        ValueV::Var(x) => lookup(s, x),
        ValueV::Tuple(ts) => ValueV::Tuple(
            Seq::new(ts.len(), |i: int| if 0 <= i < ts.len() { psub(ts[i], s) } else { v }),
        ),
        _ => v,
    }
}

/// The elements of a tuple, each substituted.
pub open spec fn psubs(ts: Seq<ValueV>, s: SubV) -> Seq<ValueV> {
    Seq::new(ts.len(), |i: int| psub(ts[i], s))
}

proof fn lemma_psub_tuple(ts: Seq<ValueV>, s: SubV)
    ensures
        psub(ValueV::Tuple(ts), s) == ValueV::Tuple(psubs(ts, s)),
{
    let v = ValueV::Tuple(ts);
    let inner = psub(v, s)->Tuple_0;
    assert(inner.len() == ts.len());
    assert forall|i: int| 0 <= i < ts.len() implies inner[i] == psub(ts[i], s) by {}
    assert(inner =~= psubs(ts, s));
}

/// A tuple is plain exactly when each of its elements is.
pub proof fn lemma_plain_seq_all(ts: Seq<ValueV>)
    ensures
        plain_seq(ts) <==> forall|i: int| 0 <= i < ts.len() ==> plain(#[trigger] ts[i]),
    decreases ts.len(),
{
    if ts.len() > 0 {
        lemma_plain_seq_all(ts.drop_last());
        if forall|i: int| 0 <= i < ts.len() ==> plain(#[trigger] ts[i]) {
            assert forall|i: int| 0 <= i < ts.drop_last().len() implies plain(#[trigger] ts.drop_last()[i]) by {
                assert(ts.drop_last()[i] == ts[i]);
            }
            assert(plain(ts[ts.len() - 1]));
        }
        if plain_seq(ts) {
            assert forall|i: int| 0 <= i < ts.len() implies plain(#[trigger] ts[i]) by {
                if i < ts.len() - 1 {
                    assert(ts.drop_last()[i] == ts[i]);
                }
            }
        }
    }
}

/// For plain values, substitution is `psub`, whatever the fuel.
pub proof fn lemma_plain_sub(v: ValueV, s: SubV, d: nat)
    requires
        plain(v),
    ensures
        value_sub_f(v, s, d) == Some(Ok::<ValueV, ErrorV>(psub(v, s))),
    decreases v,
{
    match v {
        ValueV::Tuple(ts) => {
            lemma_plain_seq_sub(ts, s, d);
            lemma_psub_tuple(ts, s);
        },
        _ => {},
    }
}

pub proof fn lemma_plain_seq_sub(ts: Seq<ValueV>, s: SubV, d: nat)
    requires
        plain_seq(ts),
    ensures
        seq_sub_f(ts, s, d) == Some(Ok::<Seq<ValueV>, ErrorV>(psubs(ts, s))),
    decreases ts,
{
    if ts.len() > 0 {
        lemma_plain_seq_sub(ts.drop_last(), s, d);
        lemma_plain_sub(ts.last(), s, d);
        assert(psubs(ts.drop_last(), s).push(psub(ts.last(), s)) =~= psubs(ts, s));
    } else {
        assert(psubs(ts, s) =~= Seq::<ValueV>::empty());
    }
}

} // verus!

verus! {

/// Whether no variable is in both.
pub open spec fn disjoint(p: Seq<VarV>, q: Seq<VarV>) -> bool {
    forall|x: VarV| p.contains(x) ==> !q.contains(x)
}

/// A sequence has no repetitions exactly when its parts have none and share nothing.
pub proof fn lemma_no_dup_append(p: Seq<VarV>, q: Seq<VarV>)
    ensures
        crate::term::no_dup(p + q) <==> (crate::term::no_dup(p) && crate::term::no_dup(q) && disjoint(p, q)),
{
    let r = p + q;
    if crate::term::no_dup(r) {
        assert forall|i: int, j: int| 0 <= i < p.len() && 0 <= j < p.len() && i != j implies p[i] != p[j] by {
            assert(r[i] == p[i] && r[j] == p[j]);
        }
        assert forall|i: int, j: int| 0 <= i < q.len() && 0 <= j < q.len() && i != j implies q[i] != q[j] by {
            assert(r[p.len() + i] == q[i] && r[p.len() + j] == q[j]);
        }
        assert forall|x: VarV| p.contains(x) implies !q.contains(x) by {
            let i = choose|i: int| 0 <= i < p.len() && p[i] == x;
            if q.contains(x) {
                let j = choose|j: int| 0 <= j < q.len() && q[j] == x;
                assert(r[i] == x && r[p.len() + j] == x);
            }
        }
    }
    if crate::term::no_dup(p) && crate::term::no_dup(q) && disjoint(p, q) {
        assert forall|i: int, j: int| 0 <= i < r.len() && 0 <= j < r.len() && i != j implies r[i] != r[j] by {
            if i < p.len() && j >= p.len() {
                assert(r[i] == p[i] && r[j] == q[j - p.len()]);
                assert(p.contains(p[i]));
                assert(q.contains(q[j - p.len()]));
            } else if i >= p.len() && j < p.len() {
                assert(r[j] == p[j] && r[i] == q[i - p.len()]);
                assert(p.contains(p[j]));
                assert(q.contains(q[i - p.len()]));
            } else if i < p.len() {
                assert(r[i] == p[i] && r[j] == p[j]);
            } else {
                assert(r[i] == q[i - p.len()] && r[j] == q[j - p.len()]);
            }
        }
    }
}

/// A variable occurs in a tuple exactly when it occurs in one of its elements.
pub proof fn lemma_seq_occ_contains(ts: Seq<ValueV>, x: VarV)
    ensures
        seq_occ(ts).contains(x) <==> exists|j: int| 0 <= j < ts.len() && value_occ(#[trigger] ts[j]).contains(x),
    decreases ts.len(),
{
    if ts.len() > 0 {
        let d = ts.drop_last();
        lemma_seq_occ_contains(d, x);
        let a = seq_occ(d);
        let b = value_occ(ts.last());
        assert(seq_occ(ts) == a + b);
        if seq_occ(ts).contains(x) {
            let k = choose|k: int| 0 <= k < (a + b).len() && (a + b)[k] == x;
            if k < a.len() {
                assert(a[k] == x);
                assert(a.contains(x));
                let j = choose|j: int| 0 <= j < d.len() && value_occ(#[trigger] d[j]).contains(x);
                assert(d[j] == ts[j]);
            } else {
                assert(b[k - a.len()] == x);
                assert(b.contains(x));
                assert(ts[ts.len() - 1] == ts.last());
            }
        }
        if exists|j: int| 0 <= j < ts.len() && value_occ(#[trigger] ts[j]).contains(x) {
            let j = choose|j: int| 0 <= j < ts.len() && value_occ(#[trigger] ts[j]).contains(x);
            if j < ts.len() - 1 {
                assert(d[j] == ts[j]);
                assert(a.contains(x));
                let k = choose|k: int| 0 <= k < a.len() && a[k] == x;
                assert((a + b)[k] == x);
            } else {
                assert(ts[j] == ts.last());
                let k = choose|k: int| 0 <= k < b.len() && b[k] == x;
                assert((a + b)[a.len() + k] == x);
            }
        }
    }
}

/// Where a tuple's variables are all distinct, so are each element's, and no two elements
/// share one.
pub proof fn lemma_seq_occ_no_dup(ts: Seq<ValueV>)
    requires
        crate::term::no_dup(seq_occ(ts)),
    ensures
        forall|i: int| 0 <= i < ts.len() ==> crate::term::no_dup(value_occ(#[trigger] ts[i])),
        forall|i: int, j: int|
            0 <= i < ts.len() && 0 <= j < ts.len() && i != j ==> disjoint(
                value_occ(#[trigger] ts[i]),
                value_occ(#[trigger] ts[j]),
            ),
    decreases ts.len(),
{
    if ts.len() > 0 {
        let d = ts.drop_last();
        let a = seq_occ(d);
        let b = value_occ(ts.last());
        assert(seq_occ(ts) == a + b);
        lemma_no_dup_append(a, b);
        lemma_seq_occ_no_dup(d);
        let n = ts.len() - 1;
        assert(ts[n] == ts.last());
        assert forall|i: int| 0 <= i < ts.len() implies crate::term::no_dup(value_occ(#[trigger] ts[i])) by {
            if i < n {
                assert(d[i] == ts[i]);
            }
        }
        assert forall|i: int, j: int|
            0 <= i < ts.len() && 0 <= j < ts.len() && i != j implies disjoint(
                value_occ(#[trigger] ts[i]),
                value_occ(#[trigger] ts[j]),
            ) by {
            if i < n && j < n {
                assert(d[i] == ts[i] && d[j] == ts[j]);
            } else if i < n {
                assert(d[i] == ts[i]);
                assert forall|x: VarV| value_occ(ts[i]).contains(x) implies !value_occ(ts[j]).contains(x) by {
                    lemma_seq_occ_contains(d, x);
                }
            } else {
                assert(d[j] == ts[j]);
                assert forall|x: VarV| value_occ(ts[i]).contains(x) implies !value_occ(ts[j]).contains(x) by {
                    lemma_seq_occ_contains(d, x);
                }
            }
        }
    }
}

} // verus!

verus! {

/// Whether every value bound by `s` is plain.
pub open spec fn plain_range(s: SubV) -> bool {
    forall|k: int| 0 <= k < s.len() ==> plain(#[trigger] s[k].1)
}

/// Whether `x` occurs in a value that `s` binds.
pub open spec fn in_range(s: SubV, x: VarV) -> bool {
    exists|k: int| 0 <= k < s.len() && value_occ(#[trigger] s[k].1).contains(x)
}

proof fn lemma_lookup_bound(s: SubV, x: VarV)
    ensures
        has_key(s, x) ==> exists|k: int| 0 <= k < s.len() && s[k].0 == x && #[trigger] lookup(s, x) == s[k].1,
        !has_key(s, x) ==> lookup(s, x) == ValueV::Var(x),
{
    if has_key(s, x) {
        let k = crate::sub::key_index(s, x);
        assert(0 <= k < s.len() && s[k].0 == x && lookup(s, x) == s[k].1);
    }
}

/// Substitution leaves a plain value alone where it binds none of its variables.
pub proof fn lemma_psub_unbound(v: ValueV, s: SubV)
    requires
        plain(v),
        forall|x: VarV| value_occ(v).contains(x) ==> !has_key(s, x),
    ensures
        psub(v, s) == v,
    decreases v,
{
    match v {
        ValueV::Var(x) => {
            assert(value_occ(v) == seq![x]);
            assert(value_occ(v)[0] == x);
            lemma_lookup_bound(s, x);
        },
        ValueV::Tuple(ts) => {
            lemma_psub_tuple(ts, s);
            lemma_plain_seq_all(ts);
            assert forall|i: int| 0 <= i < ts.len() implies psub(ts[i], s) == ts[i] by {
                assert forall|x: VarV| value_occ(ts[i]).contains(x) implies !has_key(s, x) by {
                    lemma_seq_occ_contains(ts, x);
                }
                lemma_psub_unbound(ts[i], s);
            }
            assert(psubs(ts, s) =~= ts);
        },
        _ => {},
    }
}

/// A plain value substituted by a substitution with plain values is plain, and its
/// variables come from the value (those left unbound) or from the bound values.
pub proof fn lemma_psub_shape(v: ValueV, s: SubV, x: VarV)
    requires
        plain(v),
        plain_range(s),
    ensures
        plain(psub(v, s)),
        value_occ(psub(v, s)).contains(x) ==> (value_occ(v).contains(x) && !has_key(s, x)) || in_range(s, x),
    decreases v,
{
    match v {
        ValueV::Var(y) => {
            lemma_lookup_bound(s, y);
            assert(value_occ(v) == seq![y]);
            if has_key(s, y) {
                let k = choose|k: int| 0 <= k < s.len() && s[k].0 == y && #[trigger] lookup(s, y) == s[k].1;
                assert(plain(s[k].1));
            } else {
                assert(value_occ(ValueV::Var(y)) == seq![y]);
                if value_occ(psub(v, s)).contains(x) {
                    assert(seq![y][0] == y);
                    assert(x == y);
                    assert(value_occ(v).contains(x));
                }
            }
        },
        ValueV::Tuple(ts) => {
            lemma_psub_tuple(ts, s);
            lemma_plain_seq_all(ts);
            let ps = psubs(ts, s);
            assert forall|i: int| 0 <= i < ps.len() implies plain(#[trigger] ps[i]) by {
                lemma_psub_shape(ts[i], s, x);
            }
            lemma_plain_seq_all(ps);
            if value_occ(psub(v, s)).contains(x) {
                lemma_seq_occ_contains(ps, x);
                let j = choose|j: int| 0 <= j < ps.len() && value_occ(#[trigger] ps[j]).contains(x);
                lemma_psub_shape(ts[j], s, x);
                if value_occ(ts[j]).contains(x) {
                    lemma_seq_occ_contains(ts, x);
                }
            }
        },
        _ => {},
    }
}

} // verus!

verus! {

/// Whether `s` binds only variables that satisfy `p`, each once, to plain values whose
/// variables satisfy `p`.
pub open spec fn sub_within(s: SubV, p: spec_fn(VarV) -> bool) -> bool {
    &&& keys_distinct(s)
    &&& plain_range(s)
    &&& forall|k: int| 0 <= k < s.len() ==> p(#[trigger] s[k].0)
    &&& forall|k: int, x: VarV| 0 <= k < s.len() && #[trigger] value_occ(s[k].1).contains(x) ==> p(x)
}

/// The bindings of `s1` with `s2` substituted into their plain values.
pub open spec fn entries_psub(s1: SubV, s2: SubV) -> SubV {
    Seq::new(s1.len(), |i: int| (s1[i].0, psub(s1[i].1, s2)))
}

proof fn lemma_entries_psub(s1: SubV, s2: SubV)
    requires
        plain_range(s1),
    ensures
        crate::sub::entries_sub(s1, s2) == Some(Ok::<SubV, ErrorV>(entries_psub(s1, s2))),
    decreases s1.len(),
{
    if s1.len() > 0 {
        let d = s1.drop_last();
        assert forall|k: int| 0 <= k < d.len() implies plain(#[trigger] d[k].1) by {
            assert(d[k] == s1[k]);
        }
        lemma_entries_psub(d, s2);
        assert(plain(s1[s1.len() - 1].1));
        lemma_plain_sub(s1.last().1, s2, s2.len());
        assert(entries_psub(d, s2).push((s1.last().0, psub(s1.last().1, s2))) =~= entries_psub(s1, s2));
    } else {
        assert(entries_psub(s1, s2) =~= Seq::<(VarV, ValueV)>::empty());
    }
}

/// Composing two substitutions within `p` and `q` gives one within either.
pub proof fn lemma_compose_within(s1: SubV, s2: SubV, p: spec_fn(VarV) -> bool, q: spec_fn(VarV) -> bool)
    requires
        sub_within(s1, p),
        sub_within(s2, q),
    ensures
        compose(s1, s2) matches Some(Ok(c)) && sub_within(c, |x: VarV| p(x) || q(x)),
{
    lemma_entries_psub(s1, s2);
    let a = entries_psub(s1, s2);
    let pr = |e: (VarV, ValueV)| !has_key(s1, e.0);
    let f = s2.filter(pr);
    let c = a + f;
    let pq = |x: VarV| p(x) || q(x);
    assert(crate::sub::fresh_entries(s2, s1) == f);
    crate::sub::lemma_filter_keys_distinct(s2, pr);
    assert forall|k: int| 0 <= k < f.len() implies !has_key(s1, #[trigger] f[k].0) by {
        s2.lemma_filter_pred(pr, k);
    }
    assert(keys_distinct(c)) by {
        assert forall|i: int, j: int| 0 <= i < c.len() && 0 <= j < c.len() && i != j implies c[i].0
            != c[j].0 by {
            if i < a.len() && j < a.len() {
                assert(c[i] == a[i] && c[j] == a[j]);
            } else if i >= a.len() && j >= a.len() {
                assert(c[i] == f[i - a.len()] && c[j] == f[j - a.len()]);
            } else if i < a.len() {
                assert(c[i] == a[i] && c[j] == f[j - a.len()]);
                assert(has_key(s1, s1[i].0));
            } else {
                assert(c[j] == a[j] && c[i] == f[i - a.len()]);
                assert(has_key(s1, s1[j].0));
            }
        }
    }
    assert forall|k: int| 0 <= k < c.len() implies plain(#[trigger] c[k].1) && pq(c[k].0) && (forall|x: VarV|
        value_occ(c[k].1).contains(x) ==> pq(x)) by {
        if k < a.len() {
            assert(c[k] == a[k]);
            assert(plain(s1[k].1));
            assert forall|x: VarV| value_occ(c[k].1).contains(x) implies pq(x) by {
                lemma_psub_shape(s1[k].1, s2, x);
                if in_range(s2, x) {
                    let j = choose|j: int| 0 <= j < s2.len() && value_occ(#[trigger] s2[j].1).contains(x);
                }
            }
            lemma_psub_shape(s1[k].1, s2, s1[k].0);
        } else {
            assert(c[k] == f[k - a.len()]);
            assert(s2.contains(f[k - a.len()]));
            let j = choose|j: int| 0 <= j < s2.len() && s2[j] == f[k - a.len()];
            assert(plain(s2[j].1));
        }
    }
    assert(plain_range(c));
    assert forall|k: int, x: VarV| 0 <= k < c.len() && #[trigger] value_occ(c[k].1).contains(x) implies pq(
        x,
    ) by {}
}

/// For plain values, substituting a composition is substituting one after the other.
pub proof fn lemma_psub_compose(v: ValueV, s1: SubV, s2: SubV, p: spec_fn(VarV) -> bool, q: spec_fn(VarV) -> bool)
    requires
        plain(v),
        sub_within(s1, p),
        sub_within(s2, q),
    ensures
        compose(s1, s2) matches Some(Ok(c)) && psub(v, c) == psub(psub(v, s1), s2),
{
    lemma_compose_within(s1, s2, p, q);
    let c = compose(s1, s2).unwrap()->Ok_0;
    crate::subst::lemma_sub_compose(v, s1, s2);
    lemma_plain_sub(v, s1, s1.len());
    let u = psub(v, s1);
    lemma_psub_shape(v, s1, VarV::Auto(0));
    lemma_plain_sub(u, s2, s2.len());
    lemma_plain_sub(v, c, c.len());
}

} // verus!

verus! {

/// The variables of the first `i` elements of two tuples.
pub open spec fn prefix_vars(xs: Seq<ValueV>, ys: Seq<ValueV>, i: int) -> spec_fn(VarV) -> bool {
    |v: VarV|
        exists|j: int|
            0 <= j < i && (value_occ(#[trigger] xs[j]).contains(v) || value_occ(ys[j]).contains(v))
}

/// The variables of two values.
pub open spec fn pair_vars(a: ValueV, b: ValueV) -> spec_fn(VarV) -> bool {
    |v: VarV| value_occ(a).contains(v) || value_occ(b).contains(v)
}

proof fn lemma_within_weaken(s: SubV, p: spec_fn(VarV) -> bool, q: spec_fn(VarV) -> bool)
    requires
        sub_within(s, p),
        forall|x: VarV| #[trigger] p(x) ==> q(x),
    ensures
        sub_within(s, q),
{
    assert forall|k: int| 0 <= k < s.len() implies q(#[trigger] s[k].0) by {
        assert(p(s[k].0));
    }
    assert forall|k: int, x: VarV| 0 <= k < s.len() && #[trigger] value_occ(s[k].1).contains(x) implies q(x) by {
        assert(p(x));
    }
}

/// What holds of two tuples whose variables all differ.
pub open spec fn tuples_linear(xs: Seq<ValueV>, ys: Seq<ValueV>) -> bool {
    &&& forall|j: int| 0 <= j < xs.len() ==> plain(#[trigger] xs[j])
    &&& forall|j: int| 0 <= j < ys.len() ==> plain(#[trigger] ys[j])
    &&& forall|j: int|
        0 <= j < xs.len() && j < ys.len() ==> crate::term::no_dup(value_occ(#[trigger] xs[j]) + value_occ(ys[j]))
    &&& forall|j1: int, j2: int|
        0 <= j1 < xs.len() && 0 <= j2 < xs.len() && j1 != j2 ==> disjoint(
            value_occ(#[trigger] xs[j1]),
            value_occ(#[trigger] xs[j2]),
        )
    &&& forall|j1: int, j2: int|
        0 <= j1 < ys.len() && 0 <= j2 < ys.len() && j1 != j2 ==> disjoint(
            value_occ(#[trigger] ys[j1]),
            value_occ(#[trigger] ys[j2]),
        )
    &&& forall|j1: int, j2: int|
        0 <= j1 < xs.len() && 0 <= j2 < ys.len() ==> disjoint(
            value_occ(#[trigger] xs[j1]),
            value_occ(#[trigger] ys[j2]),
        )
}

} // verus!

verus! {

proof fn lemma_unify_pair(a: ValueV, b: ValueV, k: nat)
    requires
        plain(a),
        plain(b),
        crate::term::no_dup(value_occ(a) + value_occ(b)),
        crate::unify::value_unify_f(a, b, k) matches Some(Ok(_)),
    ensures
        crate::unify::value_unify_f(a, b, k) matches Some(Ok(s)) && sub_within(s, pair_vars(a, b)) && psub(a, s)
            == psub(b, s),
    decreases k, 0int,
{
    let s = crate::unify::value_unify_f(a, b, k).unwrap()->Ok_0;
    let pv = pair_vars(a, b);
    lemma_no_dup_append(value_occ(a), value_occ(b));
    match a {
        ValueV::Var(x) => {
            assert(value_occ(a) == seq![x]);
            assert(value_occ(a)[0] == x);
            match b {
                ValueV::Var(y) => {
                    assert(value_occ(b) == seq![y]);
                    assert(value_occ(b)[0] == y);
                    assert(value_occ(a).contains(x));
                    assert(value_occ(b).contains(y));
                    assert(x != y);
                    assert(s == seq![(x, ValueV::Var(y))]);
                    crate::sub::lemma_sub_get_at(s, 0);
                    lemma_lookup_bound(s, y);
                    assert(!has_key(s, y));
                },
                _ => {
                    assert(s == seq![(x, b)]);
                    crate::sub::lemma_sub_get_at(s, 0);
                    assert forall|z: VarV| value_occ(b).contains(z) implies !has_key(s, z) by {
                        if has_key(s, z) {
                            assert(s[0].0 == z);
                        }
                    }
                    lemma_psub_unbound(b, s);
                },
            }
        },
        _ => match b {
            ValueV::Var(y) => {
                assert(value_occ(b) == seq![y]);
                assert(value_occ(b)[0] == y);
                assert(s == seq![(y, a)]);
                crate::sub::lemma_sub_get_at(s, 0);
                assert forall|z: VarV| value_occ(a).contains(z) implies !has_key(s, z) by {
                    if has_key(s, z) {
                        assert(s[0].0 == z);
                    }
                }
                lemma_psub_unbound(a, s);
            },
            _ => match (a, b) {
                (ValueV::Atom(_), ValueV::Atom(_)) => {
                    assert(s == Seq::<(VarV, ValueV)>::empty());
                },
                (ValueV::Tuple(xs), ValueV::Tuple(ys)) => {
                    lemma_tuples_linear(xs, ys);
                    let e = Seq::<(VarV, ValueV)>::empty();
                    assert(sub_within(e, prefix_vars(xs, ys, 0)));
                    lemma_unify_from(xs, ys, 0, e, (k - 1) as nat);
                    lemma_psub_tuple(xs, s);
                    lemma_psub_tuple(ys, s);
                    assert(psubs(xs, s) =~= psubs(ys, s));
                    assert forall|v: VarV| #[trigger] prefix_vars(xs, ys, xs.len() as int)(v) implies pv(v) by {
                        let j = choose|j: int|
                            0 <= j < xs.len() && (value_occ(#[trigger] xs[j]).contains(v) || value_occ(
                                ys[j],
                            ).contains(v));
                        lemma_seq_occ_contains(xs, v);
                        lemma_seq_occ_contains(ys, v);
                    }
                    lemma_within_weaken(s, prefix_vars(xs, ys, xs.len() as int), pv);
                },
                _ => {},
            },
        },
    }
}

/// Where two tuples' variables all differ, so do their elements' in each way that
/// `lemma_unify_from` asks for.
proof fn lemma_tuples_linear(xs: Seq<ValueV>, ys: Seq<ValueV>)
    requires
        plain_seq(xs),
        plain_seq(ys),
        crate::term::no_dup(seq_occ(xs) + seq_occ(ys)),
    ensures
        tuples_linear(xs, ys),
{
    lemma_plain_seq_all(xs);
    lemma_plain_seq_all(ys);
    lemma_no_dup_append(seq_occ(xs), seq_occ(ys));
    lemma_seq_occ_no_dup(xs);
    lemma_seq_occ_no_dup(ys);
    assert forall|j1: int, j2: int| 0 <= j1 < xs.len() && 0 <= j2 < ys.len() implies disjoint(
        value_occ(#[trigger] xs[j1]),
        value_occ(#[trigger] ys[j2]),
    ) by {
        assert forall|x: VarV| value_occ(xs[j1]).contains(x) implies !value_occ(ys[j2]).contains(x) by {
            lemma_seq_occ_contains(xs, x);
            lemma_seq_occ_contains(ys, x);
        }
    }
    assert forall|j: int| 0 <= j < xs.len() && j < ys.len() implies crate::term::no_dup(
        value_occ(#[trigger] xs[j]) + value_occ(ys[j]),
    ) by {
        lemma_no_dup_append(value_occ(xs[j]), value_occ(ys[j]));
    }
}

proof fn lemma_unify_from(xs: Seq<ValueV>, ys: Seq<ValueV>, i: int, ret: SubV, k: nat)
    requires
        tuples_linear(xs, ys),
        xs.len() == ys.len(),
        0 <= i <= xs.len(),
        sub_within(ret, prefix_vars(xs, ys, i)),
        forall|j: int| 0 <= j < i ==> psub(#[trigger] xs[j], ret) == psub(ys[j], ret),
        crate::unify::tuple_unify_from(xs, ys, i, ret, k) matches Some(Ok(_)),
    ensures
        crate::unify::tuple_unify_from(xs, ys, i, ret, k) matches Some(Ok(s)) && sub_within(
            s,
            prefix_vars(xs, ys, xs.len() as int),
        ) && forall|j: int| 0 <= j < xs.len() ==> psub(#[trigger] xs[j], s) == psub(ys[j], s),
    decreases k, xs.len() - i,
{
    if i < xs.len() {
        let pi = prefix_vars(xs, ys, i);
        let pn = prefix_vars(xs, ys, i + 1);
        let qi = pair_vars(xs[i], ys[i]);
        assert forall|z: VarV| value_occ(xs[i]).contains(z) implies !has_key(ret, z) by {
            if has_key(ret, z) {
                let m = choose|m: int| 0 <= m < ret.len() && ret[m].0 == z;
                assert(pi(ret[m].0));
                let j = choose|j: int|
                    0 <= j < i && (value_occ(#[trigger] xs[j]).contains(z) || value_occ(ys[j]).contains(z));
                assert(disjoint(value_occ(xs[j]), value_occ(xs[i])));
                assert(disjoint(value_occ(xs[i]), value_occ(ys[j])));
            }
        }
        assert forall|z: VarV| value_occ(ys[i]).contains(z) implies !has_key(ret, z) by {
            if has_key(ret, z) {
                let m = choose|m: int| 0 <= m < ret.len() && ret[m].0 == z;
                assert(pi(ret[m].0));
                let j = choose|j: int|
                    0 <= j < i && (value_occ(#[trigger] xs[j]).contains(z) || value_occ(ys[j]).contains(z));
                assert(disjoint(value_occ(xs[j]), value_occ(ys[i])));
                assert(disjoint(value_occ(ys[j]), value_occ(ys[i])));
            }
        }
        lemma_psub_unbound(xs[i], ret);
        lemma_psub_unbound(ys[i], ret);
        lemma_plain_sub(xs[i], ret, ret.len());
        lemma_plain_sub(ys[i], ret, ret.len());
        lemma_unify_pair(xs[i], ys[i], k);
        let u = crate::unify::value_unify_f(xs[i], ys[i], k).unwrap()->Ok_0;
        lemma_compose_within(ret, u, pi, qi);
        let ret2 = compose(ret, u).unwrap()->Ok_0;
        let pq = |x: VarV| pi(x) || qi(x);
        assert forall|v: VarV| #[trigger] pq(v) implies pn(v) by {
            if pi(v) {
                let j = choose|j: int|
                    0 <= j < i && (value_occ(#[trigger] xs[j]).contains(v) || value_occ(ys[j]).contains(v));
                assert(0 <= j < i + 1 && (value_occ(xs[j]).contains(v) || value_occ(ys[j]).contains(v)));
            } else {
                assert(0 <= i < i + 1 && (value_occ(xs[i]).contains(v) || value_occ(ys[i]).contains(v)));
            }
        }
        lemma_within_weaken(ret2, pq, pn);
        assert forall|j: int| 0 <= j < i + 1 implies psub(#[trigger] xs[j], ret2) == psub(ys[j], ret2) by {
            lemma_psub_compose(xs[j], ret, u, pi, qi);
            lemma_psub_compose(ys[j], ret, u, pi, qi);
        }
        lemma_unify_from(xs, ys, i + 1, ret2, k);
    }
}

} // verus!

verus! {

proof fn lemma_unify_pair_ends(a: ValueV, b: ValueV, k: nat)
    requires
        plain(a),
        plain(b),
        crate::term::no_dup(value_occ(a) + value_occ(b)),
        k > crate::unify::value_depth(a),
    ensures
        crate::unify::value_unify_f(a, b, k) is Some,
    decreases k, 0int,
{
    match (a, b) {
        (ValueV::Tuple(xs), ValueV::Tuple(ys)) => {
            if xs.len() == ys.len() {
                lemma_tuples_linear(xs, ys);
                let e = Seq::<(VarV, ValueV)>::empty();
                assert(sub_within(e, prefix_vars(xs, ys, 0)));
                lemma_unify_from_ends(xs, ys, 0, e, (k - 1) as nat);
            }
        },
        _ => {},
    }
}

proof fn lemma_unify_from_ends(xs: Seq<ValueV>, ys: Seq<ValueV>, i: int, ret: SubV, k: nat)
    requires
        tuples_linear(xs, ys),
        xs.len() == ys.len(),
        0 <= i <= xs.len(),
        sub_within(ret, prefix_vars(xs, ys, i)),
        k > crate::unify::seq_depth(xs),
    ensures
        crate::unify::tuple_unify_from(xs, ys, i, ret, k) is Some,
    decreases k, xs.len() - i,
{
    if i < xs.len() {
        let pi = prefix_vars(xs, ys, i);
        let pn = prefix_vars(xs, ys, i + 1);
        let qi = pair_vars(xs[i], ys[i]);
        assert forall|z: VarV| value_occ(xs[i]).contains(z) implies !has_key(ret, z) by {
            if has_key(ret, z) {
                let m = choose|m: int| 0 <= m < ret.len() && ret[m].0 == z;
                assert(pi(ret[m].0));
                let j = choose|j: int|
                    0 <= j < i && (value_occ(#[trigger] xs[j]).contains(z) || value_occ(ys[j]).contains(z));
                assert(disjoint(value_occ(xs[j]), value_occ(xs[i])));
                assert(disjoint(value_occ(xs[i]), value_occ(ys[j])));
            }
        }
        assert forall|z: VarV| value_occ(ys[i]).contains(z) implies !has_key(ret, z) by {
            if has_key(ret, z) {
                let m = choose|m: int| 0 <= m < ret.len() && ret[m].0 == z;
                assert(pi(ret[m].0));
                let j = choose|j: int|
                    0 <= j < i && (value_occ(#[trigger] xs[j]).contains(z) || value_occ(ys[j]).contains(z));
                assert(disjoint(value_occ(xs[j]), value_occ(ys[i])));
                assert(disjoint(value_occ(ys[j]), value_occ(ys[i])));
            }
        }
        lemma_psub_unbound(xs[i], ret);
        lemma_psub_unbound(ys[i], ret);
        lemma_plain_sub(xs[i], ret, ret.len());
        lemma_plain_sub(ys[i], ret, ret.len());
        crate::unify::lemma_seq_depth_elem(xs, i);
        lemma_unify_pair_ends(xs[i], ys[i], k);
        if crate::unify::value_unify_f(xs[i], ys[i], k) matches Some(Ok(_)) {
            lemma_unify_pair(xs[i], ys[i], k);
            let u = crate::unify::value_unify_f(xs[i], ys[i], k).unwrap()->Ok_0;
            lemma_compose_within(ret, u, pi, qi);
            let ret2 = compose(ret, u).unwrap()->Ok_0;
            let pq = |x: VarV| pi(x) || qi(x);
            assert forall|v: VarV| #[trigger] pq(v) implies pn(v) by {
                if pi(v) {
                    let j = choose|j: int|
                        0 <= j < i && (value_occ(#[trigger] xs[j]).contains(v) || value_occ(ys[j]).contains(v));
                    assert(0 <= j < i + 1 && (value_occ(xs[j]).contains(v) || value_occ(ys[j]).contains(v)));
                } else {
                    assert(0 <= i < i + 1 && (value_occ(xs[i]).contains(v) || value_occ(ys[i]).contains(v)));
                }
            }
            lemma_within_weaken(ret2, pq, pn);
            lemma_unify_from_ends(xs, ys, i + 1, ret2, k);
        }
    }
}

/// Unifying two values built from variables, atoms and tuples, in which no variable occurs
/// twice, terminates; where it succeeds, substituting the unifier into either value gives the
/// same value.
pub proof fn lemma_unifier_unifies(a: ValueV, b: ValueV)
    requires
        plain(a),
        plain(b),
        crate::term::no_dup(value_occ(a) + value_occ(b)),
    ensures
        crate::unify::value_unify(a, b) is Some,
        crate::unify::value_unify(a, b) matches Some(Ok(s)) ==> value_sub(a, s) is Some && value_sub(a, s)
            == value_sub(b, s),
{
    lemma_unify_pair_ends(a, b, crate::unify::value_depth(a) + 1);
    assert(crate::unify::value_unify_terminates(a, b));
    let k = choose|k: nat| crate::unify::value_unify_f(a, b, k) is Some;
    if crate::unify::value_unify_f(a, b, k) matches Some(Ok(_)) {
        lemma_unify_pair(a, b, k);
        let s = crate::unify::value_unify_f(a, b, k).unwrap()->Ok_0;
        lemma_plain_sub(a, s, s.len());
        lemma_plain_sub(b, s, s.len());
    }
}

} // verus!
