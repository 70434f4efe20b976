use vstd::prelude::*;

use std::sync::Arc;

use crate::thing::{Thing, Unify};

verus! {

/// The model of a predicate: its name and its arity.
pub struct PredV {
    pub name: Seq<char>,
    pub arity: usize,
}

/// A predicate symbol with its arity.
#[derive(Debug, Hash, PartialEq, Eq)]
pub struct Pred(String, usize);

/// A shared predicate symbol.
pub type RcPred = Arc<Pred>;

impl View for Pred {
    type V = PredV;

    closed spec fn view(&self) -> PredV {
        PredV { name: self.0@, arity: self.1 }
    }
}

impl Pred {
    /// A shared predicate `name`/`arity`.
    pub fn new_rc(name: String, arity: usize) -> (r: RcPred)
        ensures
            r@ == (PredV { name: name@, arity: arity }),
    {
        Arc::new(Pred(name, arity))
    }

    /// The predicate's name.
    pub fn name(&self) -> (r: &String)
        ensures
            r@ == self@.name,
    {
        &self.0
    }

    /// How many arguments the predicate takes.
    pub fn arity(&self) -> (r: usize)
        ensures
            r == self@.arity,
    {
        self.1
    }

    /// Compares two predicates by name and arity.
    pub fn same(&self, other: &Pred) -> (r: bool)
        ensures
            r == (self@ == other@),
    {
        self.1 == other.1 && self.0.eq(&other.0)
    }
}

/// Another handle to the same predicate, made by `Arc::clone`, which points a new `Arc` at the
/// same allocation; the claim is that the handle's model is the predicate's, nothing more.
#[verifier::external_body]
pub(crate) fn share_pred(p: &RcPred) -> (r: RcPred)
    ensures
        r@ == p@,
{
    Arc::clone(p)
}

} // verus!

verus! {

/// The model of a predicate applied to arguments.
pub struct AppV {
    pub pred: PredV,
    pub args: Seq<crate::term::ValueV>,
}

/// A predicate applied to as many arguments as its arity.
#[derive(Debug, Hash, PartialEq, Eq)]
pub struct App(RcPred, crate::term::Tuple);

impl View for App {
    type V = AppV;

    closed spec fn view(&self) -> AppV {
        AppV { pred: self.0@, args: self.1@ }
    }
}

/// Substitution keeps the length of a tuple.
pub proof fn lemma_seq_sub_len(ts: Seq<crate::term::ValueV>, s: crate::sub::SubV, d: nat)
    ensures
        crate::subst::seq_sub_f(ts, s, d) matches Some(Ok(r)) ==> r.len() == ts.len(),
    decreases ts.len(),
{
    if ts.len() > 0 {
        lemma_seq_sub_len(ts.drop_last(), s, d);
    }
}

impl App {
    #[verifier::type_invariant]
    spec fn wf(&self) -> bool {
        self.1@.len() == self.0@.arity
    }

    /// `pred` applied to `args`, which must be as many as its arity.
    pub fn new(pred: RcPred, args: crate::term::Tuple) -> (r: App)
        requires
            args@.len() == pred@.arity,
        ensures
            r@ == (AppV { pred: pred@, args: args@ }),
    {
        App(pred, args)
    }

    /// The applied predicate.
    pub fn pred(&self) -> (r: &RcPred)
        ensures
            r@ == self@.pred,
    {
        &self.0
    }

    /// The arguments.
    pub fn args(&self) -> (r: &crate::term::Tuple)
        ensures
            r@ == self@.args,
            r@.len() == self@.pred.arity,
    {
        proof {
            use_type_invariant(self);
        }
        &self.1
    }
}

impl crate::thing::Thing for App {
    open spec fn collect(acc: Seq<crate::var::VarV>, m: AppV) -> Seq<crate::var::VarV> {
        crate::term::dedup_append(acc, crate::term::seq_occ(m.args))
    }

    open spec fn subst(m: AppV, s: crate::sub::SubV) -> Option<Result<AppV, crate::error::ErrorV>> {
        match crate::subst::seq_sub(m.args, s) {
            None => None,
            Some(Err(e)) => Some(Err(e)),
            Some(Ok(a)) => Some(Ok(AppV { pred: m.pred, args: a })),
        }
    }

    open spec fn fits(m: AppV, s: crate::sub::SubV) -> bool {
        crate::subst::seq_can_sub(m.args, s)
    }

    fn collect_free_vars(&self, set: &mut Vec<crate::var::Var>) {
        self.1.collect_free_vars(set)
    }

    fn sub(self, sub: &crate::sub::Sub) -> (r: Result<App, crate::error::Error>) {
        proof {
            use_type_invariant(&self);
            lemma_seq_sub_len(self.1@, sub@, sub@.len());
        }
        let App(p, args) = self;
        let args2 = args.sub(sub)?;
        Ok(App(p, args2))
    }

    fn can_sub(&self, sub: &crate::sub::Sub) -> (r: bool) {
        self.1.can_sub(sub)
    }

    fn duplicate(&self) -> (r: App) {
        proof {
            use_type_invariant(self);
        }
        App(share_pred(&self.0), self.1.duplicate())
    }
}

/// The unifier of two applications: the predicates must be the same; then the arguments unify.
pub open spec fn app_unify(a: AppV, b: AppV) -> Option<Result<crate::sub::SubV, crate::error::ErrorV>> {
    if a.pred != b.pred {
        Some(Err(crate::error::ErrorV::PredMismatch(a.pred, b.pred)))
    } else {
        crate::unify::tuple_unify(a.args, b.args)
    }
}

impl crate::thing::Unify for App {
    open spec fn unifier(a: AppV, b: AppV) -> Option<Result<crate::sub::SubV, crate::error::ErrorV>> {
        app_unify(a, b)
    }

    fn unify(&self, rhs: &App) -> (r: Result<crate::sub::Sub, crate::error::Error>) {
        let p: &Pred = &self.0;
        let q: &Pred = &rhs.0;
        if !p.same(q) {
            return Err(crate::error::Error::PredMismatch(share_pred(&self.0), share_pred(&rhs.0)));
        }
        self.1.unify(&rhs.1)
    }
}

} // verus!
