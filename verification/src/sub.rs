use vstd::prelude::*;

use crate::term::{copy_value, Value, ValueV};
use crate::thing::Thing;
use crate::var::{var_views, Var, VarV};

verus! {

/// The model of a substitution: its bindings in order, each variable bound at most once.
pub type SubV = Seq<(VarV, ValueV)>;

/// Whether no variable is bound twice.
pub open spec fn keys_distinct(s: SubV) -> bool {
    forall|i: int, j: int| 0 <= i < s.len() && 0 <= j < s.len() && i != j ==> s[i].0 != s[j].0
}

/// Whether `x` is bound.
pub open spec fn has_key(s: SubV, x: VarV) -> bool {
    exists|i: int| 0 <= i < s.len() && s[i].0 == x
}

/// The position of the binding of `x`.
pub open spec fn key_index(s: SubV, x: VarV) -> int {
    choose|i: int| 0 <= i < s.len() && s[i].0 == x
}

/// What `x` is bound to, if it is bound.
pub open spec fn sub_get(s: SubV, x: VarV) -> Option<ValueV> {
    if has_key(s, x) {
        Some(s[key_index(s, x)].1)
    } else {
        None
    }
}

/// What a variable stands for under `s`: its binding, or itself.
pub open spec fn lookup(s: SubV, x: VarV) -> ValueV {
    match sub_get(s, x) {
        Some(v) => v,
        None => ValueV::Var(x),
    }
}

/// The bindings of `s` as a map.
pub open spec fn sub_map(s: SubV) -> Map<VarV, ValueV> {
    Map::new(|x: VarV| has_key(s, x), |x: VarV| s[key_index(s, x)].1)
}

/// The bound variables, in order.
pub open spec fn sub_keys(s: SubV) -> Seq<VarV> {
    s.map_values(|p: (VarV, ValueV)| p.0)
}

/// Where the variables are distinct, a binding found at position `i` is the one `sub_get` reports.
pub proof fn lemma_sub_get_at(s: SubV, i: int)
    requires
        keys_distinct(s),
        0 <= i < s.len(),
    ensures
        sub_get(s, s[i].0) == Some(s[i].1),
{
    assert(has_key(s, s[i].0));
    let k = key_index(s, s[i].0);
    assert(k == i);
}

/// Filtering keeps the variables distinct and keeps only bindings of the filtered sequence.
pub proof fn lemma_filter_keys_distinct(s: SubV, p: spec_fn((VarV, ValueV)) -> bool)
    requires
        keys_distinct(s),
    ensures
        keys_distinct(s.filter(p)),
        forall|k: int| 0 <= k < s.filter(p).len() ==> s.contains(#[trigger] s.filter(p)[k]),
    decreases s.len(),
{
    reveal(Seq::filter);
    if s.len() > 0 {
        let d = s.drop_last();
        lemma_filter_keys_distinct(d, p);
        let f = d.filter(p);
        assert forall|k: int| 0 <= k < f.len() implies f[k].0 != s.last().0 by {
            assert(d.contains(f[k]));
            let j = choose|j: int| 0 <= j < d.len() && d[j] == f[k];
            assert(s[j] == d[j]);
        }
        let g = s.filter(p);
        assert forall|k: int| 0 <= k < g.len() implies s.contains(#[trigger] g[k]) by {
            if k < f.len() {
                assert(g[k] == f[k]);
                assert(d.contains(f[k]));
                let j = choose|j: int| 0 <= j < d.len() && d[j] == f[k];
                assert(s[j] == d[j]);
            } else {
                assert(g[k] == s.last());
                assert(s[s.len() - 1] == s.last());
            }
        }
    }
}

/// A substitution: a finite map from variables to values.
#[derive(Debug)]
pub struct Sub(Vec<(Var, Value)>);

impl View for Sub {
    type V = SubV;

    closed spec fn view(&self) -> SubV {
        self.0@.map_values(|p: (Var, Value)| (p.0@, p.1@))
    }
}

impl Sub {
    #[verifier::type_invariant]
    spec fn wf(&self) -> bool {
        keys_distinct(self@)
    }

    /// Every substitution binds each variable at most once.
    pub(crate) fn distinct_keys(&self)
        ensures
            keys_distinct(self@),
    {
        proof {
            use_type_invariant(self);
        }
    }

    /// The empty substitution.
    pub fn top() -> (r: Sub)
        ensures
            r@ == Seq::<(VarV, ValueV)>::empty(),
    {
        let r = Sub(Vec::new());
        proof {
            assert(r@ =~= Seq::<(VarV, ValueV)>::empty());
        }
        r
    }

    /// The number of bindings.
    pub fn len(&self) -> (r: usize)
        ensures
            r == self@.len(),
    {
        self.0.len()
    }

    /// Whether this is the empty substitution.
    pub fn is_top(&self) -> (r: bool)
        ensures
            r == (self@.len() == 0),
    {
        self.0.len() == 0
    }

    /// The position of the binding of `var`, if any.
    fn find(&self, var: &Var) -> (r: Option<usize>)
        ensures
            r matches Some(i) ==> i < self@.len() && self@[i as int].0 == var@,
            r is None ==> !has_key(self@, var@),
    {
        let n = self.0.len();
        let mut i: usize = 0;
        while i < n
            invariant
                n == self.0@.len(),
                i <= n,
                forall|j: int| 0 <= j < i ==> self@[j].0 != var@,
            decreases n - i,
        {
            if self.0[i].0.same(var) {
                return Some(i);
            }
            i = i + 1;
        }
        None
    }

    /// What `var` is bound to.
    pub fn get(&self, var: &Var) -> (r: Option<&Value>)
        ensures
            match r {
                Some(v) => sub_get(self@, var@) == Some(v@),
                None => sub_get(self@, var@) is None,
            },
    {
        proof {
            use_type_invariant(self);
        }
        match self.find(var) {
            Some(i) => {
                proof {
                    lemma_sub_get_at(self@, i as int);
                }
                Some(&self.0[i].1)
            },
            None => None,
        }
    }

    /// Binds `var` to `is`; where `var` is bound already, nothing is overwritten and the
    /// result is `DuplicateSub`.
    pub fn with(self, var: Var, is: Value) -> (r: Result<Sub, crate::error::Error>)
        ensures
            has_key(self@, var@) ==> (r matches Err(e) && e@ == crate::error::ErrorV::DuplicateSub),
            !has_key(self@, var@) ==> (r matches Ok(s) && s@ == self@.push((var@, is@))),
    {
        proof {
            use_type_invariant(&self);
        }
        if let Some(i) = self.find(&var) {
            proof {
                assert(self@[i as int].0 == var@);
            }
            return Err(crate::error::Error::DuplicateSub);
        }
        let ghost old_v = self@;
        let Sub(mut v) = self;
        let ghost (xv, iv) = (var@, is@);
        let ghost pre = v@;
        v.push((var, is));
        proof {
            let f = |p: (Var, Value)| (p.0@, p.1@);
            assert(v@.map_values(f) =~= pre.map_values(f).push((xv, iv)));
            let t = old_v.push((xv, iv));
            assert forall|i: int, j: int| 0 <= i < t.len() && 0 <= j < t.len() && i != j implies t[i].0 != t[j].0 by {
                if i == old_v.len() {
                    assert(t[j] == old_v[j]);
                } else if j == old_v.len() {
                    assert(t[i] == old_v[i]);
                }
            }
        }
        let r = Sub(v);
        proof {
            assert(r@ =~= old_v.push((xv, iv)));
        }
        Ok(r)
    }

    /// Adds all bindings of `rhs`; where a variable is bound in both, the result is
    /// `DuplicateSub`.
    pub fn merge(self, rhs: Sub) -> (r: Result<Sub, crate::error::Error>)
        ensures
            (exists|x: VarV| has_key(self@, x) && has_key(rhs@, x)) ==> (r matches Err(e) && e@
                == crate::error::ErrorV::DuplicateSub),
            (forall|x: VarV| has_key(self@, x) ==> !has_key(rhs@, x)) ==> (r matches Ok(s) && s@
                == self@ + rhs@),
    {
        proof {
            use_type_invariant(&self);
            use_type_invariant(&rhs);
        }
        let m = rhs.0.len();
        let mut j: usize = 0;
        while j < m
            invariant
                m == rhs@.len(),
                j <= m,
                forall|k: int| 0 <= k < j ==> !has_key(self@, #[trigger] rhs@[k].0),
            decreases m - j,
        {
            if let Some(i) = self.find(&rhs.0[j].0) {
                proof {
                    assert(self@[i as int].0 == rhs@[j as int].0);
                    assert(has_key(rhs@, rhs@[j as int].0));
                }
                return Err(crate::error::Error::DuplicateSub);
            }
            j = j + 1;
        }
        proof {
            assert forall|x: VarV| has_key(self@, x) implies !has_key(rhs@, x) by {
                if has_key(rhs@, x) {
                    let k = choose|k: int| 0 <= k < rhs@.len() && rhs@[k].0 == x;
                    assert(!has_key(self@, rhs@[k].0));
                }
            }
        }
        let ghost a = self@;
        let ghost b = rhs@;
        let Sub(mut v) = self;
        let Sub(w) = rhs;
        let n = w.len();
        let mut i: usize = 0;
        while i < n
            invariant
                n == w@.len(),
                i <= n,
                v@.map_values(|p: (Var, Value)| (p.0@, p.1@)) =~= a + b.take(i as int),
                b =~= w@.map_values(|p: (Var, Value)| (p.0@, p.1@)),
                keys_distinct(a),
                keys_distinct(b),
                forall|x: VarV| has_key(a, x) ==> !has_key(b, x),
            decreases n - i,
        {
            let k = w[i].0.clone();
            let x = copy_value(&w[i].1);
            let ghost pre = v@;
            v.push((k, x));
            proof {
                let f = |p: (Var, Value)| (p.0@, p.1@);
                assert(v@.map_values(f) =~= pre.map_values(f).push(f(w@[i as int])));
                assert(b.take(i + 1) =~= b.take(i as int).push(b[i as int]));
            }
            i = i + 1;
        }
        proof {
            assert(b.take(n as int) =~= b);
            let c = a + b;
            assert forall|i: int, j: int| 0 <= i < c.len() && 0 <= j < c.len() && i != j implies c[i].0 != c[j].0 by {
                if i < a.len() && j >= a.len() {
                    assert(has_key(a, c[i].0));
                    assert(c[j] == b[j - a.len()]);
                } else if i >= a.len() && j < a.len() {
                    assert(has_key(a, c[j].0));
                    assert(c[i] == b[i - a.len()]);
                }
            }
        }
        Ok(Sub(v))
    }

    /// The bindings, in order.
    pub fn into_map(self) -> (r: Vec<(Var, Value)>)
        ensures
            r@.map_values(|p: (Var, Value)| (p.0@, p.1@)) == self@,
    {
        self.0
    }

    /// The bindings of formal (named) variables only, in order.
    pub fn without_autos(self) -> (r: Sub)
        ensures
            r@ == self@.filter(|p: (VarV, ValueV)| p.0 is Formal),
    {
        proof {
            use_type_invariant(&self);
        }
        let ghost s = self@;
        let Sub(v) = self;
        let mut out: Vec<(Var, Value)> = Vec::new();
        let n = v.len();
        let mut i: usize = 0;
        while i < n
            invariant
                n == v@.len(),
                i <= n,
                s =~= v@.map_values(|p: (Var, Value)| (p.0@, p.1@)),
                out@.map_values(|p: (Var, Value)| (p.0@, p.1@))
                    =~= s.take(i as int).filter(|p: (VarV, ValueV)| p.0 is Formal),
            decreases n - i,
        {
            proof {
                assert(s.take(i + 1).drop_last() =~= s.take(i as int));
                reveal(Seq::filter);
            }
            if !v[i].0.is_auto() {
                let k = v[i].0.clone();
                let x = copy_value(&v[i].1);
                out.push((k, x));
            }
            i = i + 1;
        }
        proof {
            assert(s.take(n as int) =~= s);
            lemma_filter_keys_distinct(s, |p: (VarV, ValueV)| p.0 is Formal);
        }
        Sub(out)
    }
}

} // verus!

verus! {

/// Substitutes `s2` into the values of `s1`, in order; the first error stops it.
pub open spec fn entries_sub(s1: SubV, s2: SubV) -> Option<Result<SubV, crate::error::ErrorV>>
    decreases s1.len(),
{
    if s1.len() == 0 {
        Some(Ok(Seq::empty()))
    } else {
        match entries_sub(s1.drop_last(), s2) {
            None => None,
            Some(Err(e)) => Some(Err(e)),
            Some(Ok(a)) => match crate::subst::value_sub(s1.last().1, s2) {
                None => None,
                Some(Err(e)) => Some(Err(e)),
                Some(Ok(v)) => Some(Ok(a.push((s1.last().0, v)))),
            },
        }
    }
}

/// The bindings of `s2` for variables that `s1` does not bind.
pub open spec fn fresh_entries(s2: SubV, s1: SubV) -> SubV {
    s2.filter(|p: (VarV, ValueV)| !has_key(s1, p.0))
}

/// The composition of `s1` with `s2`: each value of `s1` with `s2` substituted in, followed
/// by the bindings of `s2` for variables that `s1` leaves unbound.
pub open spec fn compose(s1: SubV, s2: SubV) -> Option<Result<SubV, crate::error::ErrorV>> {
    match entries_sub(s1, s2) {
        None => None,
        Some(Err(e)) => Some(Err(e)),
        Some(Ok(a)) => Some(Ok(a + fresh_entries(s2, s1))),
    }
}

pub proof fn lemma_entries_sub_prefix(s1: SubV, s2: SubV, i: int, j: int)
    requires
        0 <= i <= j <= s1.len(),
        !(entries_sub(s1.take(i), s2) matches Some(Ok(_))),
    ensures
        entries_sub(s1.take(j), s2) == entries_sub(s1.take(i), s2),
    decreases j - i,
{
    if j > i {
        lemma_entries_sub_prefix(s1, s2, i, j - 1);
        assert(s1.take(j).drop_last() =~= s1.take(j - 1));
    }
}

/// Substituting into the values keeps the variables and their order.
pub proof fn lemma_entries_sub_keys(s1: SubV, s2: SubV)
    requires
        entries_sub(s1, s2) matches Some(Ok(_)),
    ensures
        entries_sub(s1, s2) matches Some(Ok(a)) && a.len() == s1.len() && forall|i: int|
            0 <= i < a.len() ==> #[trigger] a[i].0 == s1[i].0,
    decreases s1.len(),
{
    if s1.len() > 0 {
        lemma_entries_sub_keys(s1.drop_last(), s2);
    }
}

impl Sub {
    /// Composes this substitution with `sub`: `sub` is substituted into each binding of
    /// this one, and the bindings of `sub` for variables this one leaves unbound are added.
    pub fn sub(self, sub: &Sub) -> (r: Result<Sub, crate::error::Error>)
        requires
            compose(self@, sub@) is Some,
        ensures
            crate::error::res_view(r) == compose(self@, sub@).unwrap(),
    {
        proof {
            use_type_invariant(&self);
            use_type_invariant(sub);
        }
        let ghost s1 = self@;
        let ghost s2 = sub@;
        let f = Ghost(|p: (Var, Value)| (p.0@, p.1@));
        let mut out: Vec<(Var, Value)> = Vec::new();
        let n = self.0.len();
        let mut i: usize = 0;
        proof {
            assert(s1.take(0) =~= Seq::<(VarV, ValueV)>::empty());
            assert(out@.map_values(f@) =~= Seq::<(VarV, ValueV)>::empty());
        }
        while i < n
            invariant
                n == self.0@.len(),
                s1 == self@,
                s2 == sub@,
                f@ == (|p: (Var, Value)| (p.0@, p.1@)),
                s1 =~= self.0@.map_values(f@),
                i <= n,
                out@.len() == i,
                compose(s1, s2) is Some,
                entries_sub(s1.take(i as int), s2) == Some(Ok::<SubV, crate::error::ErrorV>(out@.map_values(f@))),
            decreases n - i,
        {
            proof {
                assert(s1.take(i + 1).drop_last() =~= s1.take(i as int));
                assert(s1.take(i + 1).last() == s1[i as int]);
                if !(entries_sub(s1.take(i + 1), s2) matches Some(Ok(_))) {
                    lemma_entries_sub_prefix(s1, s2, i + 1, n as int);
                    assert(s1.take(n as int) =~= s1);
                }
            }
            let v = copy_value(&self.0[i].1).sub(sub);
            match v {
                Ok(v) => {
                    let k = self.0[i].0.clone();
                    let ghost pre = out@;
                    out.push((k, v));
                    proof {
                        assert(out@.map_values(f@) =~= pre.map_values(f@).push(f@(out@[i as int])));
                    }
                },
                Err(e) => {
                    proof {
                        lemma_entries_sub_prefix(s1, s2, i + 1, n as int);
                        assert(s1.take(n as int) =~= s1);
                    }
                    return Err(e);
                },
            }
            i = i + 1;
        }
        proof {
            assert(s1.take(n as int) =~= s1);
            lemma_entries_sub_keys(s1, s2);
        }
        let ghost a = out@.map_values(f@);
        let pred = Ghost(|p: (VarV, ValueV)| !has_key(s1, p.0));
        let m = sub.0.len();
        let mut j: usize = 0;
        proof {
            assert(s2.take(0) =~= Seq::<(VarV, ValueV)>::empty());
            assert(s2.take(0).filter(pred@) =~= Seq::<(VarV, ValueV)>::empty()) by {
                reveal(Seq::filter);
            }
            assert(out@.map_values(f@) =~= a + s2.take(0).filter(pred@));
        }
        while j < m
            invariant
                m == sub.0@.len(),
                s1 == self@,
                s2 == sub@,
                f@ == (|p: (Var, Value)| (p.0@, p.1@)),
                s2 =~= sub.0@.map_values(f@),
                pred@ == (|p: (VarV, ValueV)| !has_key(s1, p.0)),
                j <= m,
                out@.map_values(f@) =~= a + s2.take(j as int).filter(pred@),
            decreases m - j,
        {
            proof {
                assert(s2.take(j + 1).drop_last() =~= s2.take(j as int));
                assert(s2.take(j + 1).last() == s2[j as int]);
                reveal(Seq::filter);
            }
            if self.find(&sub.0[j].0).is_none() {
                let k = sub.0[j].0.clone();
                let x = copy_value(&sub.0[j].1);
                let ghost pre = out@;
                out.push((k, x));
                proof {
                    assert(out@.map_values(f@) =~= pre.map_values(f@).push(f@(out@[pre.len() as int])));
                }
            }
            j = j + 1;
        }
        proof {
            assert(s2.take(m as int) =~= s2);
            let fr = fresh_entries(s2, s1);
            assert(fr == s2.filter(pred@));
            lemma_filter_keys_distinct(s2, pred@);
            let c = a + fr;
            assert forall|x: int, y: int| 0 <= x < c.len() && 0 <= y < c.len() && x != y implies c[x].0 != c[y].0 by {
                if x < a.len() && y < a.len() {
                    assert(c[x].0 == s1[x].0);
                    assert(c[y].0 == s1[y].0);
                } else if x >= a.len() && y >= a.len() {
                    assert(c[x] == fr[x - a.len()]);
                    assert(c[y] == fr[y - a.len()]);
                } else if x < a.len() {
                    assert(c[x].0 == s1[x].0);
                    assert(c[y] == fr[y - a.len()]);
                    s2.lemma_filter_pred(pred@, y - a.len());
                    assert(has_key(s1, s1[x].0));
                } else {
                    assert(c[y].0 == s1[y].0);
                    assert(c[x] == fr[x - a.len()]);
                    s2.lemma_filter_pred(pred@, x - a.len());
                    assert(has_key(s1, s1[y].0));
                }
            }
        }
        Ok(Sub(out))
    }
}

} // verus!

verus! {

/// The bindings of `s` for variables in `vars`.
pub open spec fn restrict(s: SubV, vars: Seq<VarV>) -> SubV {
    s.filter(|p: (VarV, ValueV)| vars.contains(p.0))
}

impl Sub {
    /// The bindings of variables in `vars`, in order.
    pub fn restrict_to(self, vars: &Vec<Var>) -> (r: Sub)
        ensures
            r@ == restrict(self@, var_views(vars@)),
    {
        proof {
            use_type_invariant(&self);
        }
        let ghost free = var_views(vars@);
        let pred = Ghost(|p: (VarV, ValueV)| free.contains(p.0));
        let ghost s = self@;
        let f = Ghost(|p: (Var, Value)| (p.0@, p.1@));
        let Sub(v) = self;
        let mut out: Vec<(Var, Value)> = Vec::new();
        let n = v.len();
        let mut i: usize = 0;
        proof {
            assert(s.take(0) =~= Seq::<(VarV, ValueV)>::empty());
            assert(s.take(0).filter(pred@) =~= Seq::<(VarV, ValueV)>::empty()) by {
                reveal(Seq::filter);
            }
        }
        while i < n
            invariant
                n == v@.len(),
                i <= n,
                f@ == (|p: (Var, Value)| (p.0@, p.1@)),
                s =~= v@.map_values(f@),
                var_views(vars@) == free,
                pred@ == (|p: (VarV, ValueV)| free.contains(p.0)),
                out@.map_values(f@) =~= s.take(i as int).filter(pred@),
            decreases n - i,
        {
            proof {
                assert(s.take(i + 1).drop_last() =~= s.take(i as int));
                assert(s.take(i + 1).last() == s[i as int]);
                reveal(Seq::filter);
            }
            if crate::term::contains_var(vars, &v[i].0) {
                let k = v[i].0.clone();
                let x = copy_value(&v[i].1);
                let ghost pre = out@;
                out.push((k, x));
                proof {
                    assert(out@.map_values(f@) =~= pre.map_values(f@).push(f@(out@[pre.len() as int])));
                }
            }
            i = i + 1;
        }
        proof {
            assert(s.take(n as int) =~= s);
            lemma_filter_keys_distinct(s, pred@);
        }
        Sub(out)
    }

    /// The bindings of variables that occur free in `thing`, in order.
    pub fn relevant_to<T: Thing>(self, thing: &T) -> (r: Sub)
        ensures
            r@ == restrict(self@, crate::thing::free_of::<T>(thing@)),
    {
        let fv = thing.free_vars();
        self.restrict_to(&fv)
    }
}

} // verus!

verus! {

impl Sub {
    /// A copy of this substitution.
    pub fn duplicate(&self) -> (r: Sub)
        ensures
            r@ == self@,
    {
        proof {
            use_type_invariant(self);
        }
        let f = Ghost(|p: (Var, Value)| (p.0@, p.1@));
        let mut out: Vec<(Var, Value)> = Vec::new();
        let n = self.0.len();
        let mut i: usize = 0;
        while i < n
            invariant
                n == self.0@.len(),
                i <= n,
                f@ == (|p: (Var, Value)| (p.0@, p.1@)),
                self@ =~= self.0@.map_values(f@),
                out@.map_values(f@) =~= self@.take(i as int),
            decreases n - i,
        {
            let k = self.0[i].0.clone();
            let x = copy_value(&self.0[i].1);
            let ghost pre = out@;
            out.push((k, x));
            proof {
                assert(out@.map_values(f@) =~= pre.map_values(f@).push(f@(out@[pre.len() as int])));
                assert(self@.take(i + 1) =~= self@.take(i as int).push(self@[i as int]));
            }
            i = i + 1;
        }
        proof {
            assert(self@.take(n as int) =~= self@);
        }
        Sub(out)
    }
}

impl Clone for Sub {
    fn clone(&self) -> (r: Self)
        ensures
            r@ == self@,
    {
        self.duplicate()
    }
}

} // verus!

verus! {

impl Sub {
    /// The binding at position `i`.
    pub fn entry(&self, i: usize) -> (r: (&Var, &Value))
        requires
            i < self@.len(),
        ensures
            (r.0@, r.1@) == self@[i as int],
    {
        let p = &self.0[i];
        (&p.0, &p.1)
    }
}

} // verus!

verus! {

/// What a binding added with `with` reads back: the variable reads the value it was bound to,
/// and every other variable reads what it read before.
pub proof fn lemma_with_then_get(s: SubV, x: VarV, v: ValueV, y: VarV)
    requires
        keys_distinct(s),
        !has_key(s, x),
    ensures
        sub_get(s.push((x, v)), x) == Some(v),
        y != x ==> sub_get(s.push((x, v)), y) == sub_get(s, y),
{
    let t = s.push((x, v));
    assert(keys_distinct(t)) by {
        assert forall|i: int, j: int| 0 <= i < t.len() && 0 <= j < t.len() && i != j implies t[i].0 != t[j].0 by {
            if i == s.len() {
                assert(t[j] == s[j]);
            } else if j == s.len() {
                assert(t[i] == s[i]);
            } else {
                assert(t[i] == s[i] && t[j] == s[j]);
            }
        }
    }
    assert(t[s.len() as int] == (x, v));
    lemma_sub_get_at(t, s.len() as int);
    if y != x {
        if has_key(s, y) {
            let i = key_index(s, y);
            lemma_sub_get_at(s, i);
            assert(t[i] == s[i]);
            lemma_sub_get_at(t, i);
        } else {
            assert(!has_key(t, y)) by {
                if has_key(t, y) {
                    let i = choose|i: int| 0 <= i < t.len() && t[i].0 == y;
                    if i < s.len() {
                        assert(t[i] == s[i]);
                    }
                }
            }
        }
    }
}

/// The empty substitution composed with `s` is `s`.
pub proof fn lemma_compose_top_left(s: SubV)
    ensures
        compose(Seq::empty(), s) == Some(Ok::<SubV, crate::error::ErrorV>(s)),
{
    let e = Seq::<(VarV, ValueV)>::empty();
    let p = |q: (VarV, ValueV)| !has_key(e, q.0);
    assert forall|q: (VarV, ValueV)| #[trigger] p(q) by {}
    lemma_filter_all(s, p);
    assert(Seq::<(VarV, ValueV)>::empty() + s =~= s);
}

proof fn lemma_filter_all(s: SubV, p: spec_fn((VarV, ValueV)) -> bool)
    requires
        forall|q: (VarV, ValueV)| #[trigger] p(q),
    ensures
        s.filter(p) == s,
    decreases s.len(),
{
    reveal(Seq::filter);
    if s.len() > 0 {
        lemma_filter_all(s.drop_last(), p);
        assert(s.drop_last().push(s.last()) =~= s);
    } else {
        assert(s.filter(p) =~= s);
    }
}

} // verus!
