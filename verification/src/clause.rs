use vstd::prelude::*;

use crate::error::{res_view, Error, ErrorV};
use crate::pred::{App, AppV};
use crate::sub::{Sub, SubV};
use crate::thing::Thing;
use crate::var::{var_views, Var, VarV};

verus! {

/// The model of a clause.
pub enum ClauseV {
    Top,
    Bot,
    App(AppV),
    Not(Box<ClauseV>),
    And(Box<ClauseV>, Box<ClauseV>),
    Or(Box<ClauseV>, Box<ClauseV>),
}

/// A goal: true, false, a predicate application, a negation (as failure), a conjunction or
/// a disjunction.
#[derive(Debug)]
pub enum Clause {
    Top,
    Bot,
    App(App),
    Not(Box<Clause>),
    And(Box<Clause>, Box<Clause>),
    Or(Box<Clause>, Box<Clause>),
}

impl View for Clause {
    type V = ClauseV;

    open spec fn view(&self) -> ClauseV
        decreases self,
    {
        match self {
            Clause::Top => ClauseV::Top,
            Clause::Bot => ClauseV::Bot,
            Clause::App(a) => ClauseV::App(a@),
            Clause::Not(c) => ClauseV::Not(Box::new((**c).view())),
            Clause::And(a, b) => ClauseV::And(Box::new((**a).view()), Box::new((**b).view())),
            Clause::Or(a, b) => ClauseV::Or(Box::new((**a).view()), Box::new((**b).view())),
        }
    }
}

pub open spec fn clause_collect(acc: Seq<VarV>, c: ClauseV) -> Seq<VarV>
    decreases c,
{
    match c {
        ClauseV::Top => acc,
        ClauseV::Bot => acc,
        ClauseV::App(a) => <App as Thing>::collect(acc, a),
        ClauseV::Not(x) => clause_collect(acc, *x),
        ClauseV::And(a, b) => clause_collect(clause_collect(acc, *a), *b),
        ClauseV::Or(a, b) => clause_collect(clause_collect(acc, *a), *b),
    }
}

/// Substitution into each application of a clause, left to right.
pub open spec fn clause_sub(c: ClauseV, s: SubV) -> Option<Result<ClauseV, ErrorV>>
    decreases c,
{
    match c {
        ClauseV::Top => Some(Ok(ClauseV::Top)),
        ClauseV::Bot => Some(Ok(ClauseV::Bot)),
        ClauseV::App(a) => match <App as Thing>::subst(a, s) {
            None => None,
            Some(Err(e)) => Some(Err(e)),
            Some(Ok(a2)) => Some(Ok(ClauseV::App(a2))),
        },
        ClauseV::Not(x) => match clause_sub(*x, s) {
            None => None,
            Some(Err(e)) => Some(Err(e)),
            Some(Ok(x2)) => Some(Ok(ClauseV::Not(Box::new(x2)))),
        },
        ClauseV::And(a, b) => match clause_sub(*a, s) {
            None => None,
            Some(Err(e)) => Some(Err(e)),
            Some(Ok(a2)) => match clause_sub(*b, s) {
                None => None,
                Some(Err(e)) => Some(Err(e)),
                Some(Ok(b2)) => Some(Ok(ClauseV::And(Box::new(a2), Box::new(b2)))),
            },
        },
        ClauseV::Or(a, b) => match clause_sub(*a, s) {
            None => None,
            Some(Err(e)) => Some(Err(e)),
            Some(Ok(a2)) => match clause_sub(*b, s) {
                None => None,
                Some(Err(e)) => Some(Err(e)),
                Some(Ok(b2)) => Some(Ok(ClauseV::Or(Box::new(a2), Box::new(b2)))),
            },
        },
    }
}

/// Whether every application in the clause fits `s`.
pub open spec fn clause_fits(c: ClauseV, s: SubV) -> bool
    decreases c,
{
    match c {
        ClauseV::Top => true,
        ClauseV::Bot => true,
        ClauseV::App(a) => <App as Thing>::fits(a, s),
        ClauseV::Not(x) => clause_fits(*x, s),
        ClauseV::And(a, b) => clause_fits(*a, s) && clause_fits(*b, s),
        ClauseV::Or(a, b) => clause_fits(*a, s) && clause_fits(*b, s),
    }
}

fn collect_clause(c: &Clause, set: &mut Vec<Var>)
    ensures
        var_views(final(set)@) == clause_collect(var_views(old(set)@), c@),
    decreases c,
{
    match c {
        Clause::Top => {},
        Clause::Bot => {},
        Clause::App(a) => a.collect_free_vars(set),
        Clause::Not(x) => collect_clause(&**x, set),
        Clause::And(a, b) => {
            collect_clause(&**a, set);
            collect_clause(&**b, set);
        },
        Clause::Or(a, b) => {
            collect_clause(&**a, set);
            collect_clause(&**b, set);
        },
    }
}

fn sub_clause(c: Clause, s: &Sub) -> (r: Result<Clause, Error>)
    requires
        clause_sub(c@, s@) is Some,
    ensures
        res_view(r) == clause_sub(c@, s@).unwrap(),
    decreases c,
{
    match c {
        Clause::Top => Ok(Clause::Top),
        Clause::Bot => Ok(Clause::Bot),
        Clause::App(a) => Ok(Clause::App(a.sub(s)?)),
        Clause::Not(x) => Ok(Clause::Not(Box::new(sub_clause(*x, s)?))),
        Clause::And(a, b) => {
            let a2 = sub_clause(*a, s)?;
            let b2 = sub_clause(*b, s)?;
            Ok(Clause::And(Box::new(a2), Box::new(b2)))
        },
        Clause::Or(a, b) => {
            let a2 = sub_clause(*a, s)?;
            let b2 = sub_clause(*b, s)?;
            Ok(Clause::Or(Box::new(a2), Box::new(b2)))
        },
    }
}

fn fits_clause(c: &Clause, s: &Sub) -> (r: bool)
    ensures
        r == clause_fits(c@, s@),
    decreases c,
{
    match c {
        Clause::Top => true,
        Clause::Bot => true,
        Clause::App(a) => a.can_sub(s),
        Clause::Not(x) => fits_clause(&**x, s),
        Clause::And(a, b) => fits_clause(&**a, s) && fits_clause(&**b, s),
        Clause::Or(a, b) => fits_clause(&**a, s) && fits_clause(&**b, s),
    }
}

fn copy_clause(c: &Clause) -> (r: Clause)
    ensures
        r@ == c@,
    decreases c,
{
    match c {
        Clause::Top => Clause::Top,
        Clause::Bot => Clause::Bot,
        Clause::App(a) => Clause::App(a.duplicate()),
        Clause::Not(x) => Clause::Not(Box::new(copy_clause(&**x))),
        Clause::And(a, b) => Clause::And(Box::new(copy_clause(&**a)), Box::new(copy_clause(&**b))),
        Clause::Or(a, b) => Clause::Or(Box::new(copy_clause(&**a)), Box::new(copy_clause(&**b))),
    }
}

impl Thing for Clause {
    open spec fn collect(acc: Seq<VarV>, m: ClauseV) -> Seq<VarV> {
        clause_collect(acc, m)
    }

    open spec fn subst(m: ClauseV, s: SubV) -> Option<Result<ClauseV, ErrorV>> {
        clause_sub(m, s)
    }

    open spec fn fits(m: ClauseV, s: SubV) -> bool {
        clause_fits(m, s)
    }

    fn collect_free_vars(&self, set: &mut Vec<Var>) {
        collect_clause(self, set)
    }

    fn sub(self, sub: &Sub) -> (r: Result<Clause, Error>) {
        sub_clause(self, sub)
    }

    fn can_sub(&self, sub: &Sub) -> (r: bool) {
        fits_clause(self, sub)
    }

    fn duplicate(&self) -> (r: Clause) {
        copy_clause(self)
    }
}

impl Clone for Clause {
    fn clone(&self) -> (r: Self)
        ensures
            r@ == self@,
    {
        copy_clause(self)
    }
}

/// The model of a statement: its head and its body.
pub struct StatementV {
    pub lhs: AppV,
    pub rhs: ClauseV,
}

/// A rule: the application on the left holds where the clause on the right does.
#[derive(Debug)]
pub struct Statement(App, Clause);

impl View for Statement {
    type V = StatementV;

    closed spec fn view(&self) -> StatementV {
        StatementV { lhs: self.0@, rhs: self.1@ }
    }
}

impl Statement {
    /// The rule that `given` holds where `then` does.
    pub fn new(given: App, then: Clause) -> (r: Statement)
        ensures
            r@ == (StatementV { lhs: given@, rhs: then@ }),
    {
        Statement(given, then)
    }

    /// The head of the rule.
    pub fn lhs(&self) -> (r: &App)
        ensures
            r@ == self@.lhs,
    {
        &self.0
    }

    /// The condition of the rule.
    pub fn rhs(&self) -> (r: &Clause)
        ensures
            r@ == self@.rhs,
    {
        &self.1
    }

    /// A rule with no condition.
    pub fn fact(given: App) -> (r: Statement)
        ensures
            r@ == (StatementV { lhs: given@, rhs: ClauseV::Top }),
    {
        Statement(given, Clause::Top)
    }
}

impl Thing for Statement {
    open spec fn collect(acc: Seq<VarV>, m: StatementV) -> Seq<VarV> {
        clause_collect(<App as Thing>::collect(acc, m.lhs), m.rhs)
    }

    open spec fn subst(m: StatementV, s: SubV) -> Option<Result<StatementV, ErrorV>> {
        match <App as Thing>::subst(m.lhs, s) {
            None => None,
            Some(Err(e)) => Some(Err(e)),
            Some(Ok(l)) => match clause_sub(m.rhs, s) {
                None => None,
                Some(Err(e)) => Some(Err(e)),
                Some(Ok(r)) => Some(Ok(StatementV { lhs: l, rhs: r })),
            },
        }
    }

    open spec fn fits(m: StatementV, s: SubV) -> bool {
        <App as Thing>::fits(m.lhs, s) && clause_fits(m.rhs, s)
    }

    fn collect_free_vars(&self, set: &mut Vec<Var>) {
        self.0.collect_free_vars(set);
        collect_clause(&self.1, set);
    }

    fn sub(self, sub: &Sub) -> (r: Result<Statement, Error>) {
        let Statement(l, r) = self;
        let l2 = l.sub(sub)?;
        let r2 = sub_clause(r, sub)?;
        Ok(Statement(l2, r2))
    }

    fn can_sub(&self, sub: &Sub) -> (r: bool) {
        self.0.can_sub(sub) && fits_clause(&self.1, sub)
    }

    fn duplicate(&self) -> (r: Statement) {
        Statement(self.0.duplicate(), copy_clause(&self.1))
    }
}

} // verus!
