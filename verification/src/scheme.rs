use vstd::prelude::*;

use crate::error::{res_view, Error, ErrorV};
use crate::sub::{Sub, SubV};
use crate::term::{dedup_append, lemma_dedup_append_no_dup, no_dup, Value, ValueV};
use crate::thing::{free_of, Thing, Unify};
use crate::var::{var_views, Var, VarSource, VarV};

verus! {

/// The model of a type scheme: the generalized variables and the value over them.
pub struct SchemeV<V> {
    pub vars: Seq<VarV>,
    pub val: V,
}

/// A value generalized over some of its variables: each instantiation renames them to fresh
/// automatic variables.
pub struct Scheme<T>(Vec<Var>, T);

/// The model of a value that may be generalized.
pub enum MaybeSchemeV<V> {
    Scheme(SchemeV<V>),
    Inst(V),
}

/// A generalized value, or an instance.
pub enum MaybeScheme<T> {
    Scheme(Scheme<T>),
    Inst(T),
}

impl<T: View> View for Scheme<T> {
    type V = SchemeV<T::V>;

    closed spec fn view(&self) -> SchemeV<T::V> {
        SchemeV { vars: var_views(self.0@), val: self.1@ }
    }
}

impl<T: View> View for MaybeScheme<T> {
    type V = MaybeSchemeV<T::V>;

    open spec fn view(&self) -> MaybeSchemeV<T::V> {
        match self {
            MaybeScheme::Scheme(s) => MaybeSchemeV::Scheme(s@),
            MaybeScheme::Inst(i) => MaybeSchemeV::Inst(i@),
        }
    }
}

/// The renaming of `vars` to fresh variables numbered from `n` on, in order.
pub open spec fn fresh_sub(vars: Seq<VarV>, n: u32) -> SubV {
    Seq::new(vars.len(), |i: int| (vars[i], ValueV::Var(VarV::Auto((n + i) as u32))))
}

/// The instance of a scheme whose variables are renamed to fresh ones numbered from `n`.
pub open spec fn scheme_inst<T: Thing>(m: SchemeV<T::V>, n: u32) -> Option<Result<T::V, ErrorV>> {
    T::subst(m.val, fresh_sub(m.vars, n))
}

/// How many fresh variables an instantiation takes.
pub open spec fn inst_count<V>(m: MaybeSchemeV<V>) -> nat {
    match m {
        MaybeSchemeV::Scheme(s) => s.vars.len(),
        MaybeSchemeV::Inst(_) => 0,
    }
}

/// The instance of a possibly generalized value, fresh variables numbered from `n`.
pub open spec fn maybe_inst<T: Thing>(m: MaybeSchemeV<T::V>, n: u32) -> Option<Result<T::V, ErrorV>> {
    match m {
        MaybeSchemeV::Scheme(s) => scheme_inst::<T>(s, n),
        MaybeSchemeV::Inst(v) => Some(Ok(v)),
    }
}

/// Whether instantiating from `n` on stays within the variable numbers and terminates.
pub open spec fn can_inst<T: Thing>(m: MaybeSchemeV<T::V>, n: u32) -> bool {
    &&& n + inst_count(m) <= u32::MAX
    &&& maybe_inst::<T>(m, n) is Some
}

/// A value generalized over its free variables, or left an instance where it has none.
pub open spec fn generalized<T: Thing>(v: T::V) -> MaybeSchemeV<T::V> {
    if free_of::<T>(v).len() == 0 {
        MaybeSchemeV::Inst(v)
    } else {
        MaybeSchemeV::Scheme(SchemeV { vars: dedup_append(Seq::empty(), free_of::<T>(v)), val: v })
    }
}

impl<T> Scheme<T> {
    #[verifier::type_invariant]
    spec fn wf(&self) -> bool {
        no_dup(var_views(self.0@))
    }
}

impl<T: View> Scheme<T> {
    /// `t` generalized over the variables `on`.
    pub fn generalize(t: T, on: Vec<Var>) -> (r: Self)
        ensures
            r@.vars == dedup_append(Seq::empty(), var_views(on@)),
            r@.val == t@,
    {
        let vars = crate::bind::dedup_vars(&on);
        proof {
            lemma_dedup_append_no_dup(Seq::empty(), var_views(on@));
        }
        Scheme(vars, t)
    }

    /// The generalized value.
    pub fn val(&self) -> (r: &T)
        ensures
            r@ == self@.val,
    {
        &self.1
    }

    /// The generalized variables.
    pub fn vars(&self) -> (r: &Vec<Var>)
        ensures
            var_views(r@) == self@.vars,
            no_dup(self@.vars),
    {
        proof {
            use_type_invariant(self);
        }
        &self.0
    }
}

/// The renaming of `vars` to fresh variables from `src`.
fn fresh_renaming(vars: &Vec<Var>, src: &mut VarSource) -> (r: Sub)
    requires
        no_dup(var_views(vars@)),
        old(src).next_index() + vars@.len() <= u32::MAX,
    ensures
        r@ == fresh_sub(var_views(vars@), old(src).next_index()),
        final(src).next_index() == old(src).next_index() + vars@.len(),
{
    let ghost n0 = src.next_index();
    let ghost vs = var_views(vars@);
    let mut sub = Sub::top();
    let n = vars.len();
    let mut i: usize = 0;
    while i < n
        invariant
            n == vars@.len(),
            vs == var_views(vars@),
            no_dup(vs),
            i <= n,
            n0 + n <= u32::MAX,
            src.next_index() == n0 + i,
            sub@ =~= fresh_sub(vs, n0).take(i as int),
        decreases n - i,
    {
        let v = src.acquire();
        proof {
            assert(!crate::sub::has_key(sub@, vs[i as int])) by {
                if crate::sub::has_key(sub@, vs[i as int]) {
                    let k = choose|k: int| 0 <= k < sub@.len() && sub@[k].0 == vs[i as int];
                    assert(sub@[k].0 == vs[k]);
                }
            }
        }
        match sub.with(vars[i].clone(), Value::Var(v)) {
            Ok(s) => {
                sub = s;
            },
            Err(_) => {
                return Sub::top();
            },
        }
        proof {
            assert(fresh_sub(vs, n0).take(i + 1) =~= fresh_sub(vs, n0).take(i as int).push(fresh_sub(vs, n0)[i as int]));
        }
        i = i + 1;
    }
    proof {
        assert(fresh_sub(vs, n0).take(n as int) =~= fresh_sub(vs, n0));
    }
    sub
}

impl<T: Thing> Scheme<T> {
    /// An instance: the generalized variables renamed to fresh ones.
    pub fn inst(self, src: &mut VarSource) -> (r: Result<T, Error>)
        requires
            old(src).next_index() + self@.vars.len() <= u32::MAX,
            scheme_inst::<T>(self@, old(src).next_index()) is Some,
        ensures
            res_view(r) == scheme_inst::<T>(self@, old(src).next_index()).unwrap(),
            final(src).next_index() == old(src).next_index() + self@.vars.len(),
    {
        proof {
            use_type_invariant(&self);
        }
        let sub = fresh_renaming(&self.0, src);
        self.1.sub(&sub)
    }

    /// An instance of this scheme, which stays as it is.
    pub fn make_inst(&self, src: &mut VarSource) -> (r: Result<T, Error>)
        requires
            old(src).next_index() + self@.vars.len() <= u32::MAX,
            scheme_inst::<T>(self@, old(src).next_index()) is Some,
        ensures
            res_view(r) == scheme_inst::<T>(self@, old(src).next_index()).unwrap(),
            final(src).next_index() == old(src).next_index() + self@.vars.len(),
    {
        proof {
            use_type_invariant(self);
        }
        let sub = fresh_renaming(&self.0, src);
        self.1.duplicate().sub(&sub)
    }
}

impl<T: Thing> MaybeScheme<T> {
    /// `inst` generalized over its free variables; an instance where it has none.
    pub fn generalize(inst: T) -> (r: Self)
        ensures
            r@ == generalized::<T>(inst@),
    {
        let vars = inst.free_vars();
        if vars.len() == 0 {
            MaybeScheme::Inst(inst)
        } else {
            MaybeScheme::Scheme(Scheme::generalize(inst, vars))
        }
    }

    /// Turns this into an instance, renaming generalized variables to fresh ones, and gives
    /// access to it. Where instantiation fails this stays as it was.
    pub fn to_inst(&mut self, src: &mut VarSource) -> (r: Result<&T, Error>)
        requires
            can_inst::<T>(old(self)@, old(src).next_index()),
        ensures
            final(src).next_index() == old(src).next_index() + inst_count(old(self)@),
            match maybe_inst::<T>(old(self)@, old(src).next_index()).unwrap() {
                Ok(v) => r matches Ok(x) && x@ == v && final(self)@ == MaybeSchemeV::Inst(v),
                Err(e) => r matches Err(x) && x@ == e && final(self)@ == old(self)@,
            },
    {
        match self {
            MaybeScheme::Scheme(s) => {
                let i = s.make_inst(src)?;
                *self = MaybeScheme::Inst(i);
            },
            MaybeScheme::Inst(_) => {},
        }
        match self {
            MaybeScheme::Inst(i) => Ok(i),
            MaybeScheme::Scheme(_) => vstd::pervasive::unreached(),
        }
    }

    /// The instance: generalized variables renamed to fresh ones.
    pub fn into_inst(self, src: &mut VarSource) -> (r: Result<T, Error>)
        requires
            can_inst::<T>(self@, old(src).next_index()),
        ensures
            final(src).next_index() == old(src).next_index() + inst_count(self@),
            res_view(r) == maybe_inst::<T>(self@, old(src).next_index()).unwrap(),
    {
        match self {
            MaybeScheme::Scheme(s) => s.inst(src),
            MaybeScheme::Inst(i) => Ok(i),
        }
    }

    /// A copy of the instance; this value stays as it is.
    pub fn as_inst(&self, src: &mut VarSource) -> (r: Result<T, Error>)
        requires
            can_inst::<T>(self@, old(src).next_index()),
        ensures
            final(src).next_index() == old(src).next_index() + inst_count(self@),
            res_view(r) == maybe_inst::<T>(self@, old(src).next_index()).unwrap(),
    {
        match self {
            MaybeScheme::Scheme(s) => s.make_inst(src),
            MaybeScheme::Inst(i) => Ok(i.duplicate()),
        }
    }
}

} // verus!

verus! {

/// Whether instantiating `a` (from `n` on), then `b`, then unifying the instances, stays
/// within the variable numbers and terminates.
pub open spec fn can_inst_unify<T: Thing + Unify>(a: MaybeSchemeV<T::V>, b: MaybeSchemeV<T::V>, n: u32) -> bool {
    &&& can_inst::<T>(a, n)
    &&& (maybe_inst::<T>(a, n).unwrap() matches Ok(x) ==> {
        &&& can_inst::<T>(b, (n + inst_count(a)) as u32)
        &&& (maybe_inst::<T>(b, (n + inst_count(a)) as u32).unwrap() matches Ok(y) ==> T::unifier(x, y) is Some)
    })
}

/// Instantiating `a` (from `n` on), then `b`, and unifying the instances: the instances and
/// their unifier, or the first error.
pub open spec fn inst_unify<T: Thing + Unify>(a: MaybeSchemeV<T::V>, b: MaybeSchemeV<T::V>, n: u32) -> Result<
    (T::V, T::V, SubV),
    ErrorV,
> {
    match maybe_inst::<T>(a, n).unwrap() {
        Err(e) => Err(e),
        Ok(x) => match maybe_inst::<T>(b, (n + inst_count(a)) as u32).unwrap() {
            Err(e) => Err(e),
            Ok(y) => match T::unifier(x, y).unwrap() {
                Err(e) => Err(e),
                Ok(s) => Ok((x, y, s)),
            },
        },
    }
}

/// How many fresh variables `inst_unify` takes.
pub open spec fn inst_unify_count<T: Thing + Unify>(a: MaybeSchemeV<T::V>, b: MaybeSchemeV<T::V>, n: u32) -> nat {
    match maybe_inst::<T>(a, n).unwrap() {
        Err(_) => inst_count(a),
        Ok(_) => inst_count(a) + inst_count(b),
    }
}

impl<T: Thing + Unify> MaybeScheme<T> {
    /// Turns both into instances and unifies them.
    pub fn unify_inst(&mut self, rhs: &mut Self, src: &mut VarSource) -> (r: Result<Sub, Error>)
        requires
            can_inst_unify::<T>(old(self)@, old(rhs)@, old(src).next_index()),
        ensures
            final(src).next_index() == old(src).next_index() + inst_unify_count::<T>(
                old(self)@,
                old(rhs)@,
                old(src).next_index(),
            ),
            match inst_unify::<T>(old(self)@, old(rhs)@, old(src).next_index()) {
                Ok((x, y, s)) => r matches Ok(t) && t@ == s && final(self)@ == MaybeSchemeV::Inst(x)
                    && final(rhs)@ == MaybeSchemeV::Inst(y),
                Err(e) => r matches Err(t) && t@ == e,
            },
    {
        let a = self.to_inst(src)?;
        let b = rhs.to_inst(src)?;
        a.unify(b)
    }

    /// Instantiates both and unifies the instances, giving the instances and their unifier.
    pub fn inst_and_unify(self, rhs: Self, src: &mut VarSource) -> (r: Result<(T, T, Sub), Error>)
        requires
            can_inst_unify::<T>(self@, rhs@, old(src).next_index()),
        ensures
            final(src).next_index() == old(src).next_index() + inst_unify_count::<T>(
                self@,
                rhs@,
                old(src).next_index(),
            ),
            match inst_unify::<T>(self@, rhs@, old(src).next_index()) {
                Ok((x, y, s)) => r matches Ok(t) && t.0@ == x && t.1@ == y && t.2@ == s,
                Err(e) => r matches Err(t) && t@ == e,
            },
    {
        let a = self.into_inst(src)?;
        let b = rhs.into_inst(src)?;
        let sub = a.unify(&b)?;
        Ok((a, b, sub))
    }
}

} // verus!

verus! {

impl<T: Thing> Scheme<T> {
    /// A copy of this scheme.
    pub fn duplicate(&self) -> (r: Self)
        ensures
            r@ == self@,
    {
        proof {
            use_type_invariant(self);
        }
        Scheme(crate::bind::copy_vars(&self.0), self.1.duplicate())
    }
}

impl<T: Thing> MaybeScheme<T> {
    /// A copy of this value.
    pub fn duplicate(&self) -> (r: Self)
        ensures
            r@ == self@,
    {
        match self {
            MaybeScheme::Scheme(s) => MaybeScheme::Scheme(s.duplicate()),
            MaybeScheme::Inst(i) => MaybeScheme::Inst(i.duplicate()),
        }
    }
}

} // verus!
