use vstd::prelude::*;

use crate::var::{Var, VarV};

verus! {

/// A unary operation on integers.
#[derive(Clone, Copy, Debug, PartialEq, Eq, Hash, Structural)]
pub enum UnaryOp {
    Pos,
    Neg,
}

/// A binary operation on integers.
#[derive(Clone, Copy, Debug, PartialEq, Eq, Hash, Structural)]
pub enum BinaryOp {
    Add,
    Sub,
    Mul,
    Div,
    Mod,
}

/// The model of a numeric expression.
pub enum NumV {
    Var(VarV),
    Int(i32),
    Unop(UnaryOp, Box<NumV>),
    Binop(BinaryOp, Box<NumV>, Box<NumV>),
}

/// A numeric expression over 32-bit integers and variables.
#[derive(Debug, Hash, PartialEq, Eq)]
pub enum Numeric {
    Var(Var),
    Int(i32),
    Unop(UnaryOp, Box<Numeric>),
    Binop(BinaryOp, Box<Numeric>, Box<Numeric>),
}

impl View for Numeric {
    type V = NumV;

    open spec fn view(&self) -> NumV
        decreases self,
    {
        match self {
            Numeric::Var(v) => NumV::Var(v@),
            Numeric::Int(i) => NumV::Int(*i),
            Numeric::Unop(o, n) => NumV::Unop(*o, Box::new((**n).view())),
            Numeric::Binop(o, a, b) => NumV::Binop(*o, Box::new((**a).view()), Box::new((**b).view())),
        }
    }
}

/// The value of a unary operation on an integer, where it is defined in `i32`.
pub open spec fn unop_apply(o: UnaryOp, i: i32) -> Option<i32> {
    match o {
        UnaryOp::Pos => Some(i),
        UnaryOp::Neg => if i == i32::MIN {
            None
        } else {
            Some((-i) as i32)
        },
    }
}

/// The value of a binary operation on integers, where it is defined in `i32`
/// (division and remainder truncate toward zero, as in Rust).
pub open spec fn binop_apply(o: BinaryOp, a: i32, b: i32) -> Option<i32> {
    match o {
        BinaryOp::Add => a.checked_add(b),
        BinaryOp::Sub => a.checked_sub(b),
        BinaryOp::Mul => a.checked_mul(b),
        BinaryOp::Div => a.checked_div(b),
        BinaryOp::Mod => a.checked_rem(b),
    }
}

/// Constant folding, bottom-up: an operation whose operands fold to integers is
/// replaced by its value (where the value is not defined in `i32`, overflow or division
/// by zero, the operation is kept; `foldable` rules that case out).
pub open spec fn fold(n: NumV) -> NumV
    decreases n,
{
    match n {
        NumV::Var(_) => n,
        NumV::Int(_) => n,
        NumV::Unop(o, x) => {
            let fx = fold(*x);
            match fx {
                NumV::Int(i) => match unop_apply(o, i) {
                    Some(r) => NumV::Int(r),
                    None => NumV::Unop(o, Box::new(fx)),
                },
                _ => NumV::Unop(o, Box::new(fx)),
            }
        },
        NumV::Binop(o, a, b) => {
            let fa = fold(*a);
            let fb = fold(*b);
            match (fa, fb) {
                (NumV::Int(x), NumV::Int(y)) => match binop_apply(o, x, y) {
                    Some(r) => NumV::Int(r),
                    None => NumV::Binop(o, Box::new(fa), Box::new(fb)),
                },
                _ => NumV::Binop(o, Box::new(fa), Box::new(fb)),
            }
        },
    }
}

/// Whether folding stays within `i32`: no operation whose operands fold to integers
/// overflows or divides by zero.
pub open spec fn foldable(n: NumV) -> bool
    decreases n,
{
    match n {
        NumV::Var(_) => true,
        NumV::Int(_) => true,
        NumV::Unop(o, x) => foldable(*x) && (fold(*x) matches NumV::Int(i) ==> unop_apply(o, i) is Some),
        NumV::Binop(o, a, b) => foldable(*a) && foldable(*b) && (fold(*a) matches NumV::Int(x) ==> (fold(
            *b,
        ) matches NumV::Int(y) ==> binop_apply(o, x, y) is Some)),
    }
}

/// A folded expression folds further without trouble.
pub proof fn lemma_fold_foldable(n: NumV)
    requires
        foldable(n),
    ensures
        foldable(fold(n)),
    decreases n,
{
    match n {
        NumV::Unop(o, x) => {
            lemma_fold_foldable(*x);
            lemma_fold_idempotent(*x);
        },
        NumV::Binop(o, a, b) => {
            lemma_fold_foldable(*a);
            lemma_fold_foldable(*b);
            lemma_fold_idempotent(*a);
            lemma_fold_idempotent(*b);
        },
        _ => {},
    }
}

/// The variables of a numeric expression, in order of occurrence (left to right,
/// with repetitions).
pub open spec fn num_occ(n: NumV) -> Seq<VarV>
    decreases n,
{
    match n {
        NumV::Var(v) => seq![v],
        NumV::Int(_) => Seq::empty(),
        NumV::Unop(_, x) => num_occ(*x),
        NumV::Binop(_, a, b) => num_occ(*a) + num_occ(*b),
    }
}

/// Folding is idempotent.
pub proof fn lemma_fold_idempotent(n: NumV)
    ensures
        fold(fold(n)) == fold(n),
    decreases n,
{
    match n {
        NumV::Var(_) => {},
        NumV::Int(_) => {},
        NumV::Unop(o, x) => {
            lemma_fold_idempotent(*x);
        },
        NumV::Binop(o, a, b) => {
            lemma_fold_idempotent(*a);
            lemma_fold_idempotent(*b);
        },
    }
}

/// The value of an expression without variables, where every operation in it is defined
/// in `i32`; `None` for an expression with a variable or an undefined operation.
pub open spec fn num_eval(n: NumV) -> Option<i32>
    decreases n,
{
    match n {
        NumV::Var(_) => None,
        NumV::Int(i) => Some(i),
        NumV::Unop(o, x) => match num_eval(*x) {
            Some(i) => unop_apply(o, i),
            None => None,
        },
        NumV::Binop(o, a, b) => match (num_eval(*a), num_eval(*b)) {
            (Some(x), Some(y)) => binop_apply(o, x, y),
            _ => None,
        },
    }
}

/// Whether an expression is in folded form: no operation has integers alone as operands.
pub open spec fn folded_normal(n: NumV) -> bool
    decreases n,
{
    match n {
        NumV::Var(_) => true,
        NumV::Int(_) => true,
        NumV::Unop(_, x) => !(*x is Int) && folded_normal(*x),
        NumV::Binop(_, a, b) => !(*a is Int && *b is Int) && folded_normal(*a) && folded_normal(*b),
    }
}

/// Folding keeps the variables: the same occurrences, in the same order.
pub proof fn lemma_fold_keeps_vars(n: NumV)
    ensures
        num_occ(fold(n)) == num_occ(n),
    decreases n,
{
    match n {
        NumV::Unop(_, x) => {
            lemma_fold_keeps_vars(*x);
        },
        NumV::Binop(_, a, b) => {
            lemma_fold_keeps_vars(*a);
            lemma_fold_keeps_vars(*b);
        },
        _ => {},
    }
}

/// An expression without variables folds to the integer it evaluates to.
pub proof fn lemma_fold_closed(n: NumV)
    requires
        foldable(n),
        num_occ(n).len() == 0,
    ensures
        num_eval(n) is Some,
        fold(n) == NumV::Int(num_eval(n).unwrap()),
    decreases n,
{
    match n {
        NumV::Unop(_, x) => {
            lemma_fold_closed(*x);
        },
        NumV::Binop(_, a, b) => {
            assert(num_occ(*a).len() == 0 && num_occ(*b).len() == 0);
            lemma_fold_closed(*a);
            lemma_fold_closed(*b);
        },
        _ => {},
    }
}

/// Folding leaves no operation whose operands are all integers.
pub proof fn lemma_fold_normal(n: NumV)
    requires
        foldable(n),
    ensures
        folded_normal(fold(n)),
    decreases n,
{
    match n {
        NumV::Unop(_, x) => {
            lemma_fold_normal(*x);
        },
        NumV::Binop(_, a, b) => {
            lemma_fold_normal(*a);
            lemma_fold_normal(*b);
        },
        _ => {},
    }
}

/// Unary plus leaves a value as it is, and unary minus negates it: folding `+e` gives what
/// folding `e` gives where that is an integer, and `-e` its negation (unless that is out of
/// `i32`); the same holds of the values of expressions without variables.
pub proof fn lemma_unop_meaning(e: NumV)
    ensures
        fold(e) matches NumV::Int(i) ==> fold(NumV::Unop(UnaryOp::Pos, Box::new(e))) == fold(e),
        fold(e) matches NumV::Int(i) ==> (i != i32::MIN ==> fold(NumV::Unop(UnaryOp::Neg, Box::new(e)))
            == NumV::Int((-i) as i32) && -i == ((-i) as i32) as int),
        num_eval(NumV::Unop(UnaryOp::Pos, Box::new(e))) == num_eval(e),
        num_eval(e) matches Some(i) ==> (i != i32::MIN ==> num_eval(NumV::Unop(UnaryOp::Neg, Box::new(e)))
            == Some((-i) as i32) && -i == ((-i) as i32) as int),
{
}

/// Addition, subtraction and multiplication fold to the integer sum, difference and
/// product, where it fits in `i32`, and are left unfolded where it does not.
pub proof fn lemma_binop_meaning(x: i32, y: i32)
    ensures
        ({
            let f = |o: BinaryOp| fold(NumV::Binop(o, Box::new(NumV::Int(x)), Box::new(NumV::Int(y))));
            &&& (i32::MIN <= x + y <= i32::MAX ==> f(BinaryOp::Add) == NumV::Int((x + y) as i32))
            &&& (i32::MIN <= x - y <= i32::MAX ==> f(BinaryOp::Sub) == NumV::Int((x - y) as i32))
            &&& (i32::MIN <= x * y <= i32::MAX ==> f(BinaryOp::Mul) == NumV::Int((x * y) as i32))
            &&& (!(i32::MIN <= x + y <= i32::MAX) ==> f(BinaryOp::Add) is Binop)
            &&& (!(i32::MIN <= x * y <= i32::MAX) ==> f(BinaryOp::Mul) is Binop)
        }),
{
    reveal_with_fuel(fold, 2);
}

/// Division and remainder truncate toward zero, as in Rust: for a divisor other than zero
/// (and not the one quotient out of `i32`), the quotient `q` and remainder `r` that folding
/// gives satisfy `q * y + r == x`, with `r` smaller than `y` in size and of the sign of `x`.
/// Dividing by zero is left unfolded.
pub proof fn lemma_div_meaning(x: i32, y: i32)
    ensures
        y != 0 && !(x == i32::MIN && y == -1) ==> ({
            let q = fold(NumV::Binop(BinaryOp::Div, Box::new(NumV::Int(x)), Box::new(NumV::Int(y))));
            let r = fold(NumV::Binop(BinaryOp::Mod, Box::new(NumV::Int(x)), Box::new(NumV::Int(y))));
            &&& q is Int
            &&& r is Int
            &&& q->Int_0 * y + r->Int_0 == x
            &&& (if y > 0 { -y < r->Int_0 < y } else { y < r->Int_0 < -y })
            &&& (r->Int_0 == 0 || (r->Int_0 < 0) == (x < 0))
        }),
        y == 0 ==> fold(NumV::Binop(BinaryOp::Div, Box::new(NumV::Int(x)), Box::new(NumV::Int(y)))) is Binop,
        y == 0 ==> fold(NumV::Binop(BinaryOp::Mod, Box::new(NumV::Int(x)), Box::new(NumV::Int(y)))) is Binop,
{
    reveal_with_fuel(fold, 2);
    if y != 0 && !(x == i32::MIN && y == -1) {
        let xi = x as int;
        let d = y as int;
        let a = if xi < 0 { xi * -1 } else { xi };
        let b = if d < 0 { d * -1 } else { d };
        lemma_euclid_pos(a, b);
        let qq: int = if xi == 0 {
            0
        } else if (xi > 0) == (d > 0) {
            a / b
        } else {
            (a / b) * -1
        };
        let rr: int = if xi < 0 { (a % b) * -1 } else { a % b };
        if xi > 0 && d > 0 {
            assert(xi / d == a / b && xi % d == a % b);
        } else if xi < 0 && d < 0 {
            assert((xi * -1) / (d * -1) == a / b && (xi * -1) % (d * -1) == a % b);
        } else if xi < 0 {
            assert((xi * -1) / d == a / b && (xi * -1) % d == a % b);
        } else if xi > 0 {
            assert(xi / (d * -1) == a / b && xi % (d * -1) == a % b);
        }
        assert(qq * d + rr == xi) by (nonlinear_arith)
            requires
                a == b * (a / b) + a % b,
                a == if xi < 0 { xi * -1 } else { xi },
                b == if d < 0 { d * -1 } else { d },
                qq == if xi == 0 {
                    0
                } else if (xi > 0) == (d > 0) {
                    a / b
                } else {
                    (a / b) * -1
                },
                rr == if xi < 0 { (a % b) * -1 } else { a % b },
                xi == 0 ==> a % b == 0,
        ;
        assert(x.checked_div(y) is Some);
        assert(x.checked_rem(y) is Some);
        let qi = x.checked_div(y).unwrap();
        let ri = x.checked_rem(y).unwrap();
        assert(qi as int == qq);
        assert(ri as int == rr);
        assert(qi * y + ri == x);
        assert(if y > 0 { -y < ri < y } else { y < ri < -y });
        assert(ri == 0 || (ri < 0) == (x < 0));
    }
}

/// For a nonnegative `a` and a positive `b`: `a == b * (a / b) + a % b` with the remainder
/// below `b` and the quotient no larger than `a`.
proof fn lemma_euclid_pos(a: int, b: int)
    requires
        a >= 0,
        b > 0,
    ensures
        a == b * (a / b) + a % b,
        0 <= a % b < b,
        0 <= a / b <= a,
{
    assert(a == b * (a / b) + a % b && 0 <= a % b < b) by (nonlinear_arith)
        requires
            b > 0,
    ;
    assert(0 <= a / b <= a) by (nonlinear_arith)
        requires
            a >= 0,
            b > 0,
    ;
}

fn apply_unop(o: UnaryOp, i: i32) -> (r: Option<i32>)
    ensures
        r == unop_apply(o, i),
{
    match o {
        UnaryOp::Pos => Some(i),
        UnaryOp::Neg => if i == i32::MIN {
            None
        } else {
            Some(-i)
        },
    }
}

fn apply_binop(o: BinaryOp, a: i32, b: i32) -> (r: Option<i32>)
    ensures
        r == binop_apply(o, a, b),
{
    match o {
        BinaryOp::Add => a.checked_add(b),
        BinaryOp::Sub => a.checked_sub(b),
        BinaryOp::Mul => a.checked_mul(b),
        BinaryOp::Div => a.checked_div(b),
        BinaryOp::Mod => a.checked_rem(b),
    }
}

impl Clone for Numeric {
    fn clone(&self) -> (r: Self)
        ensures
            r@ == self@,
        decreases self,
    {
        match self {
            Numeric::Var(v) => Numeric::Var(v.clone()),
            Numeric::Int(i) => Numeric::Int(*i),
            Numeric::Unop(o, n) => Numeric::Unop(*o, Box::new((**n).clone())),
            Numeric::Binop(o, a, b) => Numeric::Binop(
                *o,
                Box::new((**a).clone()),
                Box::new((**b).clone()),
            ),
        }
    }
}

impl Numeric {
    /// Structural equality of the models.
    pub fn equals(&self, other: &Numeric) -> (r: bool)
        ensures
            r == (self@ == other@),
        decreases self,
    {
        match (self, other) {
            (Numeric::Var(a), Numeric::Var(b)) => a.same(b),
            (Numeric::Int(a), Numeric::Int(b)) => *a == *b,
            (Numeric::Unop(o1, a), Numeric::Unop(o2, b)) => *o1 == *o2 && (**a).equals(&**b),
            (Numeric::Binop(o1, a1, b1), Numeric::Binop(o2, a2, b2)) => {
                *o1 == *o2 && (**a1).equals(&**a2) && (**b1).equals(&**b2)
            },
            _ => false,
        }
    }

    /// The folded form of this expression.
    pub fn folded(self) -> (r: Numeric)
        requires
            foldable(self@),
        ensures
            r@ == fold(self@),
        decreases self,
    {
        match self {
            Numeric::Var(v) => Numeric::Var(v),
            Numeric::Int(i) => Numeric::Int(i),
            Numeric::Unop(o, n) => {
                let fx = (*n).folded();
                match fx {
                    Numeric::Int(i) => match apply_unop(o, i) {
                        Some(r) => Numeric::Int(r),
                        None => Numeric::Unop(o, Box::new(Numeric::Int(i))),
                    },
                    other => Numeric::Unop(o, Box::new(other)),
                }
            },
            Numeric::Binop(o, a, b) => {
                let fa = (*a).folded();
                let fb = (*b).folded();
                match (fa, fb) {
                    (Numeric::Int(x), Numeric::Int(y)) => match apply_binop(o, x, y) {
                        Some(r) => Numeric::Int(r),
                        None => Numeric::Binop(
                            o,
                            Box::new(Numeric::Int(x)),
                            Box::new(Numeric::Int(y)),
                        ),
                    },
                    (fa, fb) => Numeric::Binop(o, Box::new(fa), Box::new(fb)),
                }
            },
        }
    }

    /// The folded form of this expression, or `None` where folding overflows or divides by
    /// zero.
    pub fn checked_folded(self) -> (r: Option<Numeric>)
        ensures
            r is Some <==> foldable(self@),
            r matches Some(m) ==> m@ == fold(self@),
        decreases self,
    {
        match self {
            Numeric::Var(v) => Some(Numeric::Var(v)),
            Numeric::Int(i) => Some(Numeric::Int(i)),
            Numeric::Unop(o, n) => {
                let fx = (*n).checked_folded()?;
                match fx {
                    Numeric::Int(i) => match apply_unop(o, i) {
                        Some(r) => Some(Numeric::Int(r)),
                        None => None,
                    },
                    other => Some(Numeric::Unop(o, Box::new(other))),
                }
            },
            Numeric::Binop(o, a, b) => {
                let fa = (*a).checked_folded()?;
                let fb = (*b).checked_folded()?;
                match (fa, fb) {
                    (Numeric::Int(x), Numeric::Int(y)) => match apply_binop(o, x, y) {
                        Some(r) => Some(Numeric::Int(r)),
                        None => None,
                    },
                    (fa, fb) => Some(Numeric::Binop(o, Box::new(fa), Box::new(fb))),
                }
            },
        }
    }

    /// Folds the constant parts of this expression in place where that stays within `i32`;
    /// otherwise (overflow or division by zero) leaves it as it is. Whether it folded comes
    /// back.
    pub fn try_fold(&mut self) -> (ok: bool)
        ensures
            ok == foldable(old(self)@),
            ok ==> final(self)@ == fold(old(self)@),
            !ok ==> final(self)@ == old(self)@,
    {
        match self.clone().checked_folded() {
            Some(m) => {
                *self = m;
                true
            },
            None => false,
        }
    }

    /// Folds the constant parts of this expression in place.
    pub fn fold(&mut self)
        requires
            foldable(old(self)@),
        ensures
            final(self)@ == fold(old(self)@),
            num_occ(final(self)@) == num_occ(old(self)@),
            folded_normal(final(self)@),
            num_occ(old(self)@).len() == 0 ==> final(self)@ == NumV::Int(num_eval(old(self)@).unwrap()),
    {
        proof {
            lemma_fold_keeps_vars(self@);
            lemma_fold_normal(self@);
            if num_occ(self@).len() == 0 {
                lemma_fold_closed(self@);
            }
        }
        let mut me = Numeric::Int(0);
        std::mem::swap(self, &mut me);
        *self = me.folded();
    }
}

} // verus!
