use vstd::prelude::*;

use crate::numeric::{NumV, Numeric};
use crate::pred::{PredV, RcPred};
use crate::term::{List, ListV, Tuple, Value, ValueV};
use crate::var::{Var, VarV};

verus! {

/// The model of an error.
pub enum ErrorV {
    DuplicateSub,
    SubBadType(Seq<char>, ValueV),
    BadValueUnify(ValueV, ValueV),
    BadNumericUnify(NumV, NumV),
    BadTupleUnify(Seq<ValueV>, Seq<ValueV>),
    BadListUnify(ListV, ListV),
    PredMismatch(PredV, PredV),
    VarBothSides(VarV),
}

/// The errors of substitution and unification.
#[derive(Debug)]
pub enum Error {
    /// duplicate variable in substitution
    DuplicateSub,
    /// substitution failure: a variable of the given kind was bound to a value of another
    SubBadType(&'static str, Value),
    /// the values couldn't be unified
    BadValueUnify(Value, Value),
    /// the numeric expressions couldn't be unified
    BadNumericUnify(Numeric, Numeric),
    /// the tuples couldn't be unified
    BadTupleUnify(Tuple, Tuple),
    /// the lists couldn't be unified
    BadListUnify(List, List),
    /// the predicates don't match
    PredMismatch(RcPred, RcPred),
    /// unsolvable unification: the variable is on both sides
    VarBothSides(Var),
}

impl View for Error {
    type V = ErrorV;

    open spec fn view(&self) -> ErrorV {
        match self {
            Error::DuplicateSub => ErrorV::DuplicateSub,
            Error::SubBadType(k, v) => ErrorV::SubBadType(k@, v@),
            Error::BadValueUnify(a, b) => ErrorV::BadValueUnify(a@, b@),
            Error::BadNumericUnify(a, b) => ErrorV::BadNumericUnify(a@, b@),
            Error::BadTupleUnify(a, b) => ErrorV::BadTupleUnify(a@, b@),
            Error::BadListUnify(a, b) => ErrorV::BadListUnify(a@, b@),
            Error::PredMismatch(a, b) => ErrorV::PredMismatch(a@, b@),
            Error::VarBothSides(v) => ErrorV::VarBothSides(v@),
        }
    }
}

/// The model of a result.
pub open spec fn res_view<T: View>(r: Result<T, Error>) -> Result<T::V, ErrorV> {
    match r {
        Ok(t) => Ok(t@),
        Err(e) => Err(e@),
    }
}

/// The kind name that `SubBadType` reports for a numeric variable.
pub open spec fn numeric_kind() -> Seq<char> {
    "Numeric"@
}

/// The kind name that `SubBadType` reports for a list's tail variable.
pub open spec fn tail_kind() -> Seq<char> {
    "Tail"@
}

} // verus!
