use vstd::prelude::*;

use crate::numeric::{fold, lemma_fold_idempotent, lemma_fold_keeps_vars, num_occ, NumV};
use crate::sub::{compose, has_key, keys_distinct, lookup, SubV};
use crate::subst::{lemma_lookup_compose, num_sub, num_subst};
use crate::term::ValueV;
use crate::unify::{num_unify, num_unify_f};
use crate::var::VarV;

verus! {

/// Folding before substituting changes nothing that folding after would not undo: the
/// substitution succeeds on both or on neither, and the results fold alike.
pub proof fn lemma_fold_subst(n: NumV, s: SubV)
    ensures
        num_subst(fold(n), s) is Ok <==> num_subst(n, s) is Ok,
        num_subst(n, s) matches Ok(m) ==> (num_subst(fold(n), s) matches Ok(m2) && fold(m2) == fold(m)),
    decreases n,
{
    match n {
        NumV::Unop(_, a) => {
            lemma_fold_subst(*a, s);
        },
        NumV::Binop(_, a, b) => {
            lemma_fold_subst(*a, s);
            lemma_fold_subst(*b, s);
        },
        _ => {},
    }
}

/// Substituting into an expression none of whose variables is bound leaves it as it is.
proof fn lemma_subst_untouched(n: NumV, s: SubV)
    requires
        forall|y: VarV| num_occ(n).contains(y) ==> !has_key(s, y),
    ensures
        num_subst(n, s) == Ok::<NumV, crate::error::ErrorV>(n),
    decreases n,
{
    match n {
        NumV::Var(x) => {
            assert(num_occ(n)[0] == x);
        },
        NumV::Unop(_, a) => {
            lemma_subst_untouched(*a, s);
        },
        NumV::Binop(_, a, b) => {
            assert forall|y: VarV| num_occ(*a).contains(y) implies !has_key(s, y) by {
                let i = choose|i: int| 0 <= i < num_occ(*a).len() && num_occ(*a)[i] == y;
                assert(num_occ(n)[i] == y);
            }
            assert forall|y: VarV| num_occ(*b).contains(y) implies !has_key(s, y) by {
                let i = choose|i: int| 0 <= i < num_occ(*b).len() && num_occ(*b)[i] == y;
                assert(num_occ(n)[num_occ(*a).len() + i] == y);
            }
            lemma_subst_untouched(*a, s);
            lemma_subst_untouched(*b, s);
        },
        _ => {},
    }
}

/// Substituting a composition gives, up to folding, what substituting its two parts one
/// after the other gives.
pub proof fn lemma_subst_compose(n: NumV, s1: SubV, s2: SubV)
    requires
        keys_distinct(s1),
        keys_distinct(s2),
        compose(s1, s2) matches Some(Ok(c)) && num_subst(n, c) is Ok,
    ensures
        num_subst(n, s1) matches Ok(m1) && num_subst(m1, s2) matches Ok(m2) && fold(m2) == fold(
            num_subst(n, compose(s1, s2).unwrap()->Ok_0)->Ok_0,
        ),
    decreases n,
{
    let c = compose(s1, s2).unwrap()->Ok_0;
    match n {
        NumV::Var(x) => {
            lemma_lookup_compose(s1, s2, x);
            match lookup(s1, x) {
                ValueV::Var(y) => {},
                ValueV::Numeric(k) => {
                    lemma_fold_subst(k, s2);
                },
                _ => {},
            }
        },
        NumV::Unop(_, a) => {
            lemma_subst_compose(*a, s1, s2);
        },
        NumV::Binop(_, a, b) => {
            lemma_subst_compose(*a, s1, s2);
            lemma_subst_compose(*b, s1, s2);
        },
        _ => {},
    }
}

/// The numeric unifier binds each variable once.
proof fn lemma_num_unify_distinct(a: NumV, b: NumV, k: nat)
    requires
        num_unify_f(a, b, k) matches Some(Ok(_)),
    ensures
        num_unify_f(a, b, k) matches Some(Ok(s)) && keys_distinct(s),
    decreases k,
{
    match (a, b) {
        (NumV::Unop(_, n1), NumV::Unop(_, n2)) => {
            if !(a is Var) && !(b is Var) {
                lemma_num_unify_distinct(*n1, *n2, (k - 1) as nat);
            }
        },
        (NumV::Binop(o1, a1, b1), NumV::Binop(o2, a2, b2)) => {
            if o1 == o2 {
                lemma_num_unify_distinct(*a1, *a2, (k - 1) as nat);
                let asub = num_unify_f(*a1, *a2, (k - 1) as nat).unwrap()->Ok_0;
                let l = num_sub(*b1, asub)->Ok_0;
                let r = num_sub(*b2, asub)->Ok_0;
                lemma_num_unify_distinct(l, r, (k - 1) as nat);
                let bsub = num_unify_f(l, r, (k - 1) as nat).unwrap()->Ok_0;
                lemma_lookup_compose(asub, bsub, VarV::Auto(0));
            }
        },
        _ => {},
    }
}

proof fn lemma_num_unifier_f(a: NumV, b: NumV, k: nat)
    requires
        num_unify_f(a, b, k) matches Some(Ok(s)) && num_sub(a, s) is Ok && num_sub(b, s) is Ok,
    ensures
        ({
            let s = num_unify_f(a, b, k).unwrap()->Ok_0;
            fold(num_sub(a, s)->Ok_0) == fold(num_sub(b, s)->Ok_0)
        }),
    decreases k, 1nat,
{
    let s = num_unify_f(a, b, k).unwrap()->Ok_0;
    match a {
        NumV::Var(x) => match b {
            NumV::Var(y) => {
                if x != y {
                    crate::sub::lemma_sub_get_at(s, 0);
                    assert(!has_key(s, y));
                }
            },
            _ => {
                crate::sub::lemma_sub_get_at(s, 0);
                lemma_fold_keeps_vars(b);
                lemma_subst_untouched(fold(b), s);
                lemma_fold_idempotent(b);
            },
        },
        _ => match b {
            NumV::Var(y) => {
                crate::sub::lemma_sub_get_at(s, 0);
                lemma_fold_keeps_vars(a);
                lemma_subst_untouched(fold(a), s);
                lemma_fold_idempotent(a);
            },
            _ => match (a, b) {
                (NumV::Unop(o, n1), NumV::Unop(_, n2)) => {
                    lemma_fold_subst(a, s);
                    lemma_fold_subst(b, s);
                    lemma_fold_subst(*n1, s);
                    lemma_fold_subst(*n2, s);
                    lemma_num_unifier_f(*n1, *n2, (k - 1) as nat);
                },
                (NumV::Binop(_, _, _), NumV::Binop(_, _, _)) => {
                    lemma_num_unifier_binop(a, b, k);
                },
                _ => {},
            },
        },
    }
}

proof fn lemma_num_unifier_binop(a: NumV, b: NumV, k: nat)
    requires
        a is Binop,
        b is Binop,
        num_unify_f(a, b, k) matches Some(Ok(s)) && num_sub(a, s) is Ok && num_sub(b, s) is Ok,
    ensures
        ({
            let s = num_unify_f(a, b, k).unwrap()->Ok_0;
            fold(num_sub(a, s)->Ok_0) == fold(num_sub(b, s)->Ok_0)
        }),
    decreases k, 0nat,
{
    let (a1, b1) = (*a->Binop_1, *a->Binop_2);
    let (a2, b2) = (*b->Binop_1, *b->Binop_2);
    let k1 = (k - 1) as nat;
    let asub = num_unify_f(a1, a2, k1).unwrap()->Ok_0;
    let l = num_sub(b1, asub)->Ok_0;
    let r = num_sub(b2, asub)->Ok_0;
    let bsub = num_unify_f(l, r, k1).unwrap()->Ok_0;
    let c = num_unify_f(a, b, k).unwrap()->Ok_0;
    assert(compose(asub, bsub) == Some(Ok::<SubV, crate::error::ErrorV>(c)));
    lemma_num_unify_distinct(a1, a2, k1);
    lemma_num_unify_distinct(l, r, k1);
    // Substituting the unifier into each side, as a whole and part by part.
    lemma_fold_subst(a, c);
    lemma_fold_subst(b, c);
    // The left operands: through the first unifier, then the second.
    lemma_subst_compose(a1, asub, bsub);
    lemma_subst_compose(a2, asub, bsub);
    let p1 = num_subst(a1, asub)->Ok_0;
    let p2 = num_subst(a2, asub)->Ok_0;
    lemma_fold_subst(a1, asub);
    lemma_fold_subst(a2, asub);
    lemma_num_unifier_f(a1, a2, k1);
    assert(fold(p1) == fold(p2));
    lemma_fold_subst(p1, bsub);
    lemma_fold_subst(p2, bsub);
    // The right operands: the second unifier unifies them once the first is substituted.
    lemma_subst_compose(b1, asub, bsub);
    lemma_subst_compose(b2, asub, bsub);
    let p3 = num_subst(b1, asub)->Ok_0;
    let p4 = num_subst(b2, asub)->Ok_0;
    lemma_fold_subst(b1, asub);
    lemma_fold_subst(b2, asub);
    assert(fold(l) == fold(p3));
    assert(fold(r) == fold(p4));
    lemma_fold_subst(p3, bsub);
    lemma_fold_subst(p4, bsub);
    assert(num_sub(l, bsub) is Ok);
    assert(num_sub(r, bsub) is Ok);
    lemma_num_unifier_f(l, r, k1);
}

/// The numeric unifier unifies up to folding: where unifying `a` with `b` gives `s`, and
/// substituting `s` into each succeeds, the two results fold to the same expression.
pub proof fn lemma_num_unifier_unifies(a: NumV, b: NumV)
    requires
        num_unify(a, b) matches Some(Ok(s)) && num_sub(a, s) is Ok && num_sub(b, s) is Ok,
    ensures
        ({
            let s = num_unify(a, b).unwrap()->Ok_0;
            fold(num_sub(a, s)->Ok_0) == fold(num_sub(b, s)->Ok_0)
        }),
{
    let k = choose|k: nat| num_unify_f(a, b, k) is Some;
    lemma_num_unifier_f(a, b, k);
}

} // verus!
