use vstd::prelude::*;

use crate::error::{Error, ErrorV};
use crate::sub::{restrict, Sub, SubV};
use crate::term::{contains_var, dedup_append, dedup_step, lemma_dedup_append_single, add_var};
use crate::thing::{free_of, Thing};
use crate::var::{var_views, Var, VarV};

verus! {

/// The model of a binding: the bound variables and the value they are bound in.
pub struct BindV<V> {
    pub vars: Seq<VarV>,
    pub val: V,
}

/// A value in which some variables are bound (not free).
pub struct Bind<T>(Vec<Var>, T);

/// The model of a value that may have bound variables.
pub enum MaybeBindV<V> {
    Bind(BindV<V>),
    Raw(V),
}

/// A value with bound variables, or a plain value.
pub enum MaybeBind<T> {
    Bind(Bind<T>),
    Raw(T),
}

impl<T: View> View for Bind<T> {
    type V = BindV<T::V>;

    closed spec fn view(&self) -> BindV<T::V> {
        BindV { vars: var_views(self.0@), val: self.1@ }
    }
}

impl<T: View> View for MaybeBind<T> {
    type V = MaybeBindV<T::V>;

    open spec fn view(&self) -> MaybeBindV<T::V> {
        match self {
            MaybeBind::Bind(b) => MaybeBindV::Bind(b@),
            MaybeBind::Raw(r) => MaybeBindV::Raw(r@),
        }
    }
}

/// The variables that stay free under a binding.
pub open spec fn unbound(xs: Seq<VarV>, bound: Seq<VarV>) -> Seq<VarV> {
    xs.filter(|x: VarV| !bound.contains(x))
}

/// A copy of a variable list.
pub fn copy_vars(v: &Vec<Var>) -> (r: Vec<Var>)
    ensures
        var_views(r@) == var_views(v@),
{
    let mut out: Vec<Var> = Vec::new();
    let n = v.len();
    let mut i: usize = 0;
    while i < n
        invariant
            n == v@.len(),
            i <= n,
            var_views(out@) =~= var_views(v@).take(i as int),
        decreases n - i,
    {
        let ghost pre = out@;
        out.push(v[i].clone());
        proof {
            assert(var_views(out@) =~= var_views(pre).push(v@[i as int]@));
            assert(var_views(v@).take(i + 1) =~= var_views(v@).take(i as int).push(v@[i as int]@));
        }
        i = i + 1;
    }
    proof {
        assert(var_views(v@).take(n as int) =~= var_views(v@));
    }
    out
}

/// Removes from `set` the variables in `bound`.
fn retain_unbound(set: &mut Vec<Var>, bound: &Vec<Var>)
    ensures
        var_views(final(set)@) == unbound(var_views(old(set)@), var_views(bound@)),
{
    let ghost s = var_views(set@);
    let ghost b = var_views(bound@);
    let pred = Ghost(|x: VarV| !b.contains(x));
    let mut out: Vec<Var> = Vec::new();
    let n = set.len();
    let mut i: usize = 0;
    proof {
        assert(s.take(0) =~= Seq::<VarV>::empty());
        assert(s.take(0).filter(pred@) =~= Seq::<VarV>::empty()) by {
            reveal(Seq::filter);
        }
    }
    while i < n
        invariant
            n == set@.len(),
            i <= n,
            s == var_views(set@),
            b == var_views(bound@),
            pred@ == (|x: VarV| !b.contains(x)),
            var_views(out@) =~= s.take(i as int).filter(pred@),
        decreases n - i,
    {
        proof {
            assert(s.take(i + 1).drop_last() =~= s.take(i as int));
            assert(s.take(i + 1).last() == s[i as int]);
            reveal(Seq::filter);
        }
        if !contains_var(bound, &set[i]) {
            let ghost pre = out@;
            out.push(set[i].clone());
            proof {
                assert(var_views(out@) =~= var_views(pre).push(set@[i as int]@));
            }
        }
        i = i + 1;
    }
    proof {
        assert(s.take(n as int) =~= s);
    }
    *set = out;
}

/// The duplicate-free list of the given variables, in order of first occurrence.
pub(crate) fn dedup_vars(vars: &Vec<Var>) -> (r: Vec<Var>)
    ensures
        var_views(r@) == dedup_append(Seq::empty(), var_views(vars@)),
{
    let ghost xs = var_views(vars@);
    let mut out: Vec<Var> = Vec::new();
    let n = vars.len();
    let mut i: usize = 0;
    proof {
        assert(xs.take(0) =~= Seq::<VarV>::empty());
        assert(var_views(out@) =~= Seq::<VarV>::empty());
    }
    while i < n
        invariant
            n == vars@.len(),
            i <= n,
            xs == var_views(vars@),
            var_views(out@) == dedup_append(Seq::empty(), xs.take(i as int)),
        decreases n - i,
    {
        proof {
            assert(xs.take(i + 1) =~= xs.take(i as int) + seq![xs[i as int]]);
            crate::term::lemma_dedup_append_concat(Seq::empty(), xs.take(i as int), seq![xs[i as int]]);
            lemma_dedup_append_single(dedup_append(Seq::empty(), xs.take(i as int)), xs[i as int]);
        }
        add_var(&mut out, &vars[i]);
        i = i + 1;
    }
    proof {
        assert(xs.take(n as int) =~= xs);
    }
    out
}

impl<T: View> Bind<T> {
    /// `t` with the variables `vars` bound.
    pub fn over(t: T, vars: Vec<Var>) -> (r: Self)
        ensures
            r@.vars == dedup_append(Seq::empty(), var_views(vars@)),
            r@.val == t@,
    {
        Bind(dedup_vars(&vars), t)
    }

    /// `t` with no variables bound.
    pub fn new(t: T) -> (r: Self)
        ensures
            r@.vars == Seq::<VarV>::empty(),
            r@.val == t@,
    {
        let r = Bind(Vec::new(), t);
        proof {
            assert(var_views(r.0@) =~= Seq::<VarV>::empty());
        }
        r
    }

    /// Binds `var` too; the flag says whether it was not bound before.
    pub fn bind(self, var: Var) -> (r: (Self, bool))
        ensures
            r.0@.vars == dedup_step(self@.vars, var@),
            r.0@.val == self@.val,
            r.1 == !self@.vars.contains(var@),
    {
        let Bind(mut vars, t) = self;
        let present = contains_var(&vars, &var);
        add_var(&mut vars, &var);
        (Bind(vars, t), !present)
    }

    /// The value the variables are bound in.
    pub fn val(&self) -> (r: &T)
        ensures
            r@ == self@.val,
    {
        &self.1
    }

    /// The value the variables are bound in, taken out.
    pub fn into_val(self) -> (r: T)
        ensures
            r@ == self@.val,
    {
        self.1
    }

    /// The bound variables.
    pub fn vars(&self) -> (r: &Vec<Var>)
        ensures
            var_views(r@) == self@.vars,
    {
        &self.0
    }
}

impl<T: Thing> Thing for Bind<T> {
    open spec fn collect(acc: Seq<VarV>, m: BindV<T::V>) -> Seq<VarV> {
        unbound(T::collect(acc, m.val), m.vars)
    }

    open spec fn subst(m: BindV<T::V>, s: SubV) -> Option<Result<BindV<T::V>, ErrorV>> {
        match T::subst(m.val, restrict(s, unbound(T::collect(Seq::empty(), m.val), m.vars))) {
            None => None,
            Some(Err(e)) => Some(Err(e)),
            Some(Ok(v)) => Some(Ok(BindV { vars: m.vars, val: v })),
        }
    }

    open spec fn fits(m: BindV<T::V>, s: SubV) -> bool {
        T::fits(m.val, restrict(s, unbound(T::collect(Seq::empty(), m.val), m.vars)))
    }

    fn collect_free_vars(&self, set: &mut Vec<Var>) {
        self.1.collect_free_vars(set);
        retain_unbound(set, &self.0);
    }

    fn sub(self, sub: &Sub) -> (r: Result<Self, Error>) {
        let mut fv = self.1.free_vars();
        retain_unbound(&mut fv, &self.0);
        let rel = sub.duplicate().restrict_to(&fv);
        let Bind(vars, t) = self;
        let t2 = t.sub(&rel)?;
        Ok(Bind(vars, t2))
    }

    fn can_sub(&self, sub: &Sub) -> (r: bool) {
        let mut fv = self.1.free_vars();
        retain_unbound(&mut fv, &self.0);
        let rel = sub.duplicate().restrict_to(&fv);
        self.1.can_sub(&rel)
    }

    fn duplicate(&self) -> (r: Self) {
        Bind(copy_vars(&self.0), self.1.duplicate())
    }
}

impl<T: Thing> MaybeBind<T> {
    /// `raw` with those of `vars` bound that occur free in it; a plain value where none does.
    pub fn over(raw: T, vars: Vec<Var>) -> (r: Self)
        ensures
            ({
                let kept = var_views(vars@).filter(|x: VarV| free_of::<T>(raw@).contains(x));
                if kept.len() == 0 {
                    r@ == MaybeBindV::Raw(raw@)
                } else {
                    r@ == MaybeBindV::Bind(BindV { vars: dedup_append(Seq::empty(), kept), val: raw@ })
                }
            }),
    {
        let free = raw.free_vars();
        let ghost fv = free_of::<T>(raw@);
        let ghost xs = var_views(vars@);
        let pred = Ghost(|x: VarV| fv.contains(x));
        let mut kept: Vec<Var> = Vec::new();
        let n = vars.len();
        let mut i: usize = 0;
        proof {
            assert(xs.take(0) =~= Seq::<VarV>::empty());
            assert(xs.take(0).filter(pred@) =~= Seq::<VarV>::empty()) by {
                reveal(Seq::filter);
            }
        }
        while i < n
            invariant
                n == vars@.len(),
                i <= n,
                xs == var_views(vars@),
                var_views(free@) == fv,
                pred@ == (|x: VarV| fv.contains(x)),
                var_views(kept@) =~= xs.take(i as int).filter(pred@),
            decreases n - i,
        {
            proof {
                assert(xs.take(i + 1).drop_last() =~= xs.take(i as int));
                assert(xs.take(i + 1).last() == xs[i as int]);
                reveal(Seq::filter);
            }
            if contains_var(&free, &vars[i]) {
                let ghost pre = kept@;
                kept.push(vars[i].clone());
                proof {
                    assert(var_views(kept@) =~= var_views(pre).push(vars@[i as int]@));
                }
            }
            i = i + 1;
        }
        proof {
            assert(xs.take(n as int) =~= xs);
        }
        if kept.len() == 0 {
            MaybeBind::Raw(raw)
        } else {
            MaybeBind::Bind(Bind::over(raw, kept))
        }
    }

    /// The value, bound variables aside.
    pub fn val(&self) -> (r: &T)
        ensures
            r@ == match self@ {
                MaybeBindV::Bind(b) => b.val,
                MaybeBindV::Raw(v) => v,
            },
    {
        match self {
            MaybeBind::Bind(b) => b.val(),
            MaybeBind::Raw(r) => r,
        }
    }

    /// The value, with or without bound variables, taken out.
    pub fn into_raw(self) -> (r: T)
        ensures
            r@ == match self@ {
                MaybeBindV::Bind(b) => b.val,
                MaybeBindV::Raw(v) => v,
            },
    {
        match self {
            MaybeBind::Bind(b) => b.into_val(),
            MaybeBind::Raw(r) => r,
        }
    }
}

impl<T: Thing> Thing for MaybeBind<T> {
    open spec fn collect(acc: Seq<VarV>, m: MaybeBindV<T::V>) -> Seq<VarV> {
        match m {
            MaybeBindV::Bind(b) => Bind::<T>::collect(acc, b),
            MaybeBindV::Raw(v) => T::collect(acc, v),
        }
    }

    open spec fn subst(m: MaybeBindV<T::V>, s: SubV) -> Option<Result<MaybeBindV<T::V>, ErrorV>> {
        match m {
            MaybeBindV::Bind(b) => match Bind::<T>::subst(b, s) {
                None => None,
                Some(Err(e)) => Some(Err(e)),
                Some(Ok(b2)) => Some(Ok(MaybeBindV::Bind(b2))),
            },
            MaybeBindV::Raw(v) => match T::subst(v, s) {
                None => None,
                Some(Err(e)) => Some(Err(e)),
                Some(Ok(v2)) => Some(Ok(MaybeBindV::Raw(v2))),
            },
        }
    }

    open spec fn fits(m: MaybeBindV<T::V>, s: SubV) -> bool {
        match m {
            MaybeBindV::Bind(b) => Bind::<T>::fits(b, s),
            MaybeBindV::Raw(v) => T::fits(v, s),
        }
    }

    fn collect_free_vars(&self, set: &mut Vec<Var>) {
        match self {
            MaybeBind::Bind(b) => b.collect_free_vars(set),
            MaybeBind::Raw(r) => r.collect_free_vars(set),
        }
    }

    fn sub(self, sub: &Sub) -> (r: Result<Self, Error>) {
        match self {
            MaybeBind::Bind(b) => {
                let b2 = b.sub(sub)?;
                Ok(MaybeBind::Bind(b2))
            },
            MaybeBind::Raw(r) => {
                let r2 = r.sub(sub)?;
                Ok(MaybeBind::Raw(r2))
            },
        }
    }

    fn can_sub(&self, sub: &Sub) -> (r: bool) {
        match self {
            MaybeBind::Bind(b) => b.can_sub(sub),
            MaybeBind::Raw(r) => r.can_sub(sub),
        }
    }

    fn duplicate(&self) -> (r: Self) {
        match self {
            MaybeBind::Bind(b) => MaybeBind::Bind(b.duplicate()),
            MaybeBind::Raw(r) => MaybeBind::Raw(r.duplicate()),
        }
    }
}

} // verus!
