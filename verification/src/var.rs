use vstd::prelude::*;

verus! {

/// The mathematical model of a variable: a formal (named) variable, or an
/// automatically generated one identified by its number.
pub enum VarV {
    Formal(Seq<char>),
    Auto(u32),
}

/// A logic variable.
#[derive(Debug, Hash, PartialEq, Eq)]
pub enum Var {
    Formal(String),
    Auto(u32),
}

impl View for Var {
    type V = VarV;

    open spec fn view(&self) -> VarV {
        match self {
            Var::Formal(s) => VarV::Formal(s@),
            Var::Auto(n) => VarV::Auto(*n),
        }
    }
}

impl Clone for Var {
    fn clone(&self) -> (r: Self)
        ensures
            r@ == self@,
    {
        match self {
            Var::Formal(s) => Var::Formal(s.clone()),
            Var::Auto(n) => Var::Auto(*n),
        }
    }
}

impl Var {
    /// Compares two variables by their models.
    pub fn same(&self, other: &Var) -> (r: bool)
        ensures
            r == (self@ == other@),
    {
        match (self, other) {
            (Var::Formal(a), Var::Formal(b)) => a.eq(b),
            (Var::Auto(a), Var::Auto(b)) => *a == *b,
            _ => false,
        }
    }

    /// Whether this is an automatically generated variable.
    pub fn is_auto(&self) -> (r: bool)
        ensures
            r == (self@ is Auto),
    {
        match self {
            Var::Auto(_) => true,
            Var::Formal(_) => false,
        }
    }
}

/// The models of a sequence of variables.
pub open spec fn var_views(s: Seq<Var>) -> Seq<VarV> {
    s.map_values(|x: Var| x@)
}

/// A source of fresh automatic variables: it hands out `Auto(0)`, `Auto(1)`, ...
pub struct VarSource {
    curr: u32,
}

impl VarSource {
    /// The number of the next variable that `acquire` hands out.
    pub closed spec fn next_index(&self) -> u32 {
        self.curr
    }

    /// A source that starts at `Auto(0)`.
    pub fn new() -> (r: Self)
        ensures
            r.next_index() == 0,
    {
        VarSource { curr: 0 }
    }

    /// Hands out the next automatic variable.
    pub fn acquire(&mut self) -> (v: Var)
        requires
            old(self).next_index() < u32::MAX,
        ensures
            v@ == VarV::Auto(old(self).next_index()),
            final(self).next_index() == old(self).next_index() + 1,
    {
        let curr = self.curr;
        self.curr = curr + 1;
        Var::Auto(curr)
    }
}

} // verus!
