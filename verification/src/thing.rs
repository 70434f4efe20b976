use vstd::prelude::*;

use crate::error::{res_view, Error, ErrorV};
use crate::numeric::{num_occ, NumV, Numeric};
use crate::sub::{Sub, SubV};
use crate::subst::{
    can_sub_list, can_sub_num, can_sub_tail, can_sub_value, can_sub_values, list_can_sub, list_sub,
    num_can_sub, num_sub, seq_can_sub, seq_sub, sub_list_f, sub_num, sub_tail_f, sub_value_f,
    sub_values_f, tail_can_sub, tail_sub, value_can_sub, value_sub,
};
use crate::term::{
    collect_list, collect_num, copy_list, copy_tail, copy_value, copy_values, collect_tail, collect_value, collect_values, dedup_append, list_occ,
    seq_occ, tail_occ, value_occ, values_view, List, ListV, Tail, TailV, Tuple, Value, ValueV,
};
use crate::unify::{
    list_unify, list_unify_f, num_unify, num_unify_f, tail_unify, tail_unify_f, tuple_unify,
    tuple_unify_f, unify_list_f, unify_num_f, unify_tail_f, unify_tuple_f, unify_value_f,
    value_unify, value_unify_f,
};
use crate::var::{var_views, Var, VarV};

verus! {

/// Something with variables in it, into which a substitution can be made.
pub trait Thing: View + Sized {
    /// The variable list that `collect_free_vars` leaves when it starts from `acc`.
    spec fn collect(acc: Seq<VarV>, m: Self::V) -> Seq<VarV>;

    /// The result of substituting `s` into a model; `None` where it does not terminate or
    /// folds a numeric expression that overflows or divides by zero.
    spec fn subst(m: Self::V, s: SubV) -> Option<Result<Self::V, ErrorV>>;

    /// Whether `s` binds the model's variables only to values their positions allow.
    spec fn fits(m: Self::V, s: SubV) -> bool;

    /// Adds the variables of `self` to `set`, in order of first occurrence.
    fn collect_free_vars(&self, set: &mut Vec<Var>)
        ensures
            var_views(final(set)@) == Self::collect(var_views(old(set)@), self@),
    ;

    /// The variables of `self`, each once, in order of first occurrence.
    fn free_vars(&self) -> (r: Vec<Var>)
        ensures
            var_views(r@) == Self::collect(Seq::empty(), self@),
    {
        let mut set: Vec<Var> = Vec::new();
        proof {
            assert(var_views(set@) =~= Seq::<VarV>::empty());
        }
        self.collect_free_vars(&mut set);
        set
    }

    /// Substitutes `sub` into `self`.
    fn sub(self, sub: &Sub) -> (r: Result<Self, Error>)
        requires
            Self::subst(self@, sub@) is Some,
        ensures
            res_view(r) == Self::subst(self@, sub@).unwrap(),
    ;

    /// Substitutes `sub` into `self` in place; where that fails, `self` stays as it was.
    fn sub_self(&mut self, sub: &Sub) -> (r: Result<(), Error>)
        requires
            Self::subst(old(self)@, sub@) is Some,
        ensures
            match Self::subst(old(self)@, sub@).unwrap() {
                Ok(v) => r is Ok && final(self)@ == v,
                Err(e) => r matches Err(x) && x@ == e && final(self)@ == old(self)@,
            },
    {
        let me = self.duplicate();
        match me.sub(sub) {
            Ok(x) => {
                *self = x;
                Ok(())
            },
            Err(e) => Err(e),
        }
    }

    /// Whether `sub` binds the variables of `self` only to values their positions allow.
    fn can_sub(&self, sub: &Sub) -> (r: bool)
        ensures
            r == Self::fits(self@, sub@),
    ;

    /// A copy of `self`.
    fn duplicate(&self) -> (r: Self)
        ensures
            r@ == self@,
    ;
}

/// The free variables of a model: each once, in order of first occurrence.
pub open spec fn free_of<T: Thing>(m: T::V) -> Seq<VarV> {
    T::collect(Seq::empty(), m)
}

/// Something that can be unified with another of its kind.
pub trait Unify: View + Sized {
    /// The unifier of two models; `None` where unification does not terminate or folds a
    /// numeric expression that overflows or divides by zero.
    spec fn unifier(a: Self::V, b: Self::V) -> Option<Result<SubV, ErrorV>>;

    /// Unifies `self` with `rhs`, giving a substitution under which they agree.
    fn unify(&self, rhs: &Self) -> (r: Result<Sub, Error>)
        requires
            Self::unifier(self@, rhs@) is Some,
        ensures
            res_view(r) == Self::unifier(self@, rhs@).unwrap(),
    ;
}

impl Thing for Value {
    open spec fn collect(acc: Seq<VarV>, m: ValueV) -> Seq<VarV> {
        dedup_append(acc, value_occ(m))
    }

    open spec fn subst(m: ValueV, s: SubV) -> Option<Result<ValueV, ErrorV>> {
        value_sub(m, s)
    }

    open spec fn fits(m: ValueV, s: SubV) -> bool {
        value_can_sub(m, s)
    }

    fn collect_free_vars(&self, set: &mut Vec<Var>) {
        collect_value(self, set)
    }

    fn sub(self, sub: &Sub) -> (r: Result<Value, Error>) {
        sub_value_f(&self, sub, Ghost(sub@.len()))
    }

    fn can_sub(&self, sub: &Sub) -> (r: bool) {
        can_sub_value(self, sub)
    }

    fn duplicate(&self) -> (r: Value) {
        copy_value(self)
    }
}

impl Thing for Numeric {
    open spec fn collect(acc: Seq<VarV>, m: NumV) -> Seq<VarV> {
        dedup_append(acc, num_occ(m))
    }

    open spec fn subst(m: NumV, s: SubV) -> Option<Result<NumV, ErrorV>> {
        if crate::numeric::foldable(m) {
            Some(num_sub(m, s))
        } else {
            None
        }
    }

    open spec fn fits(m: NumV, s: SubV) -> bool {
        num_can_sub(m, s)
    }

    fn collect_free_vars(&self, set: &mut Vec<Var>) {
        collect_num(self, set)
    }

    fn sub(self, sub: &Sub) -> (r: Result<Numeric, Error>) {
        sub_num(self, sub)
    }

    fn can_sub(&self, sub: &Sub) -> (r: bool) {
        can_sub_num(self, sub)
    }

    fn duplicate(&self) -> (r: Numeric) {
        self.clone()
    }
}

impl Thing for Tuple {
    open spec fn collect(acc: Seq<VarV>, m: Seq<ValueV>) -> Seq<VarV> {
        dedup_append(acc, seq_occ(m))
    }

    open spec fn subst(m: Seq<ValueV>, s: SubV) -> Option<Result<Seq<ValueV>, ErrorV>> {
        seq_sub(m, s)
    }

    open spec fn fits(m: Seq<ValueV>, s: SubV) -> bool {
        seq_can_sub(m, s)
    }

    fn collect_free_vars(&self, set: &mut Vec<Var>) {
        collect_values(&self.0, set);
        proof {
            assert(self@ == values_view(self.0@));
            assert(<Tuple as Thing>::collect(var_views(old(set)@), self@) == dedup_append(var_views(old(set)@), seq_occ(self@)));
        }
    }

    fn sub(self, sub: &Sub) -> (r: Result<Tuple, Error>) {
        match sub_values_f(&self.0, sub, Ghost(sub@.len())) {
            Ok(v) => Ok(Tuple(v)),
            Err(e) => Err(e),
        }
    }

    fn can_sub(&self, sub: &Sub) -> (r: bool) {
        can_sub_values(&self.0, sub)
    }

    fn duplicate(&self) -> (r: Tuple) {
        Tuple(copy_values(&self.0))
    }
}

impl Thing for List {
    open spec fn collect(acc: Seq<VarV>, m: ListV) -> Seq<VarV> {
        dedup_append(acc, list_occ(m))
    }

    open spec fn subst(m: ListV, s: SubV) -> Option<Result<ListV, ErrorV>> {
        list_sub(m, s)
    }

    open spec fn fits(m: ListV, s: SubV) -> bool {
        list_can_sub(m, s)
    }

    fn collect_free_vars(&self, set: &mut Vec<Var>) {
        collect_list(self, set)
    }

    fn sub(self, sub: &Sub) -> (r: Result<List, Error>) {
        sub_list_f(&self, sub, Ghost(sub@.len()))
    }

    fn can_sub(&self, sub: &Sub) -> (r: bool) {
        can_sub_list(self, sub)
    }

    fn duplicate(&self) -> (r: List) {
        copy_list(self)
    }
}

impl Thing for Tail {
    open spec fn collect(acc: Seq<VarV>, m: TailV) -> Seq<VarV> {
        dedup_append(acc, tail_occ(m))
    }

    open spec fn subst(m: TailV, s: SubV) -> Option<Result<TailV, ErrorV>> {
        tail_sub(m, s)
    }

    open spec fn fits(m: TailV, s: SubV) -> bool {
        tail_can_sub(m, s)
    }

    fn collect_free_vars(&self, set: &mut Vec<Var>) {
        collect_tail(self, set)
    }

    fn sub(self, sub: &Sub) -> (r: Result<Tail, Error>) {
        sub_tail_f(&self, sub, Ghost(sub@.len()))
    }

    fn can_sub(&self, sub: &Sub) -> (r: bool) {
        can_sub_tail(self, sub)
    }

    fn duplicate(&self) -> (r: Tail) {
        copy_tail(self)
    }
}

impl Unify for Value {
    open spec fn unifier(a: ValueV, b: ValueV) -> Option<Result<SubV, ErrorV>> {
        value_unify(a, b)
    }

    fn unify(&self, rhs: &Value) -> (r: Result<Sub, Error>) {
        proof {
            assert(exists|k: nat| value_unify_f(self@, rhs@, k) is Some);
        }
        let ghost k = choose|k: nat| value_unify_f(self@, rhs@, k) is Some;
        unify_value_f(self, rhs, Ghost(k))
    }
}

impl Unify for Numeric {
    open spec fn unifier(a: NumV, b: NumV) -> Option<Result<SubV, ErrorV>> {
        num_unify(a, b)
    }

    fn unify(&self, rhs: &Numeric) -> (r: Result<Sub, Error>) {
        proof {
            assert(exists|k: nat| num_unify_f(self@, rhs@, k) is Some);
        }
        let ghost k = choose|k: nat| num_unify_f(self@, rhs@, k) is Some;
        unify_num_f(self, rhs, Ghost(k))
    }
}

impl Unify for Tuple {
    open spec fn unifier(a: Seq<ValueV>, b: Seq<ValueV>) -> Option<Result<SubV, ErrorV>> {
        tuple_unify(a, b)
    }

    fn unify(&self, rhs: &Tuple) -> (r: Result<Sub, Error>) {
        proof {
            assert(<Tuple as Unify>::unifier(self@, rhs@) is Some);
            assert(tuple_unify(self@, rhs@) is Some);
            assert(exists|k: nat| tuple_unify_f(self@, rhs@, k) is Some);
        }
        let ghost k = choose|k: nat| tuple_unify_f(self@, rhs@, k) is Some;
        unify_tuple_f(self, rhs, Ghost(k))
    }
}

impl Unify for List {
    open spec fn unifier(a: ListV, b: ListV) -> Option<Result<SubV, ErrorV>> {
        list_unify(a, b)
    }

    fn unify(&self, rhs: &List) -> (r: Result<Sub, Error>) {
        proof {
            assert(exists|k: nat| list_unify_f(self@, rhs@, k) is Some);
        }
        let ghost k = choose|k: nat| list_unify_f(self@, rhs@, k) is Some;
        unify_list_f(self, rhs, Ghost(k))
    }
}

impl Unify for Tail {
    open spec fn unifier(a: TailV, b: TailV) -> Option<Result<SubV, ErrorV>> {
        tail_unify(a, b)
    }

    fn unify(&self, rhs: &Tail) -> (r: Result<Sub, Error>) {
        proof {
            assert(exists|k: nat| tail_unify_f(self@, rhs@, k) is Some);
        }
        let ghost k = choose|k: nat| tail_unify_f(self@, rhs@, k) is Some;
        unify_tail_f(self, rhs, Ghost(k))
    }
}

} // verus!

verus! {

/// The free variables of a value are each listed once, and they are exactly the variables
/// that occur in it.
pub proof fn lemma_free_vars_of_value(v: ValueV, x: VarV)
    ensures
        crate::term::no_dup(free_of::<Value>(v)),
        free_of::<Value>(v).contains(x) == value_occ(v).contains(x),
{
    crate::term::lemma_dedup_append_no_dup(Seq::empty(), value_occ(v));
    crate::term::lemma_dedup_append_contains(Seq::empty(), value_occ(v), x);
}

} // verus!
