use vstd::prelude::*;

use crate::numeric::{BinaryOp, NumV, Numeric, UnaryOp};
use crate::term::{value_view, values_view, List, ListV, Tail, TailV, Tuple, Value, ValueV};
use crate::bind::{Bind, BindV, MaybeBind, MaybeBindV};
use crate::clause::{Clause, ClauseV, Statement, StatementV};
use crate::pred::{App, AppV, Pred, PredV};
use crate::scheme::{MaybeScheme, MaybeSchemeV, Scheme, SchemeV};
use crate::var::{var_views, Var, VarV};

verus! {

/// `String::push_str` appends the given string slice to the end of the string, as its
/// documentation says; nothing more is claimed.
pub assume_specification[ String::push_str ](s: &mut String, string: &str)
    ensures
        final(s)@ == old(s)@ + string@,
;

/// `String::push` appends the given character to the end of the string, as its
/// documentation says; nothing more is claimed.
pub assume_specification[ String::push ](s: &mut String, ch: char)
    ensures
        final(s)@ == old(s)@.push(ch),
;

/// The character of a decimal digit.
pub open spec fn digit_char(d: nat) -> char {
    if d == 0 {
        '0'
    } else if d == 1 {
        '1'
    } else if d == 2 {
        '2'
    } else if d == 3 {
        '3'
    } else if d == 4 {
        '4'
    } else if d == 5 {
        '5'
    } else if d == 6 {
        '6'
    } else if d == 7 {
        '7'
    } else if d == 8 {
        '8'
    } else {
        '9'
    }
}

/// The decimal text of a natural number, without leading zeros.
pub open spec fn nat_text(n: nat) -> Seq<char>
    decreases n,
{
    if n < 10 {
        seq![digit_char(n)]
    } else {
        nat_text(n / 10).push(digit_char(n % 10))
    }
}

/// The decimal text of an integer, with a minus sign where it is negative.
pub open spec fn int_text(i: int) -> Seq<char> {
    if i < 0 {
        seq!['-'] + nat_text((-i) as nat)
    } else {
        nat_text(i as nat)
    }
}

/// The text of a variable: `$` and the name of a formal one, `_` and the number of an
/// automatic one.
pub open spec fn var_text(v: VarV) -> Seq<char> {
    match v {
        VarV::Formal(n) => seq!['$'] + n,
        VarV::Auto(i) => seq!['_'] + nat_text(i as nat),
    }
}

/// How tightly a numeric expression binds: the higher, the tighter.
pub open spec fn num_prec(m: NumV) -> nat {
    match m {
        NumV::Var(_) => 4,
        NumV::Int(_) => 4,
        NumV::Unop(_, _) => 3,
        NumV::Binop(o, _, _) => match o {
            BinaryOp::Add => 0,
            BinaryOp::Sub => 0,
            BinaryOp::Mul => 1,
            BinaryOp::Div => 1,
            BinaryOp::Mod => 2,
        },
    }
}

pub open spec fn unop_text(o: UnaryOp) -> Seq<char> {
    match o {
        UnaryOp::Pos => "+"@,
        UnaryOp::Neg => "-"@,
    }
}

pub open spec fn binop_text(o: BinaryOp) -> Seq<char> {
    match o {
        BinaryOp::Add => " + "@,
        BinaryOp::Sub => " - "@,
        BinaryOp::Mul => " * "@,
        BinaryOp::Div => " / "@,
        BinaryOp::Mod => " % "@,
    }
}

/// `body` in parentheses where an expression that binds as tightly as `mine` stands where
/// `prec` is asked for.
pub open spec fn paren(mine: nat, prec: nat, body: Seq<char>) -> Seq<char> {
    if mine < prec {
        "("@ + body + ")"@
    } else {
        body
    }
}

/// The text of a numeric expression standing where binding strength `prec` is asked for:
/// operands are shown at the strength of their operator.
pub open spec fn num_text(m: NumV, prec: nat) -> Seq<char>
    decreases m, 1int,
{
    paren(num_prec(m), prec, num_body(m))
}

/// The text of a numeric expression without parentheses around it.
pub open spec fn num_body(m: NumV) -> Seq<char>
    decreases m, 0int,
{
    match m {
        NumV::Var(v) => var_text(v),
        NumV::Int(i) => int_text(i as int),
        NumV::Unop(o, n) => unop_text(o) + num_text(*n, num_prec(m)),
        NumV::Binop(o, a, b) => num_text(*a, num_prec(m)) + binop_text(o) + num_text(*b, num_prec(m)),
    }
}

/// The text of a value.
pub open spec fn value_text(v: ValueV) -> Seq<char>
    decreases v,
{
    match v {
        ValueV::Var(x) => var_text(x),
        ValueV::Atom(a) => seq!['｢'] + a + seq!['｣'],
        ValueV::Numeric(n) => num_text(n, 0),
        ValueV::Tuple(ts) => "("@ + values_text(ts) + ")"@,
        ValueV::List(l) => list_text(*l),
    }
}

/// The texts of values, separated by commas.
pub open spec fn values_text(ts: Seq<ValueV>) -> Seq<char>
    decreases ts,
{
    if ts.len() == 0 {
        Seq::empty()
    } else if ts.len() == 1 {
        value_text(ts.last())
    } else {
        values_text(ts.drop_last()) + ", "@ + value_text(ts.last())
    }
}

/// The text of a list: each head followed by a colon, then the tail.
pub open spec fn list_text(l: ListV) -> Seq<char>
    decreases l,
{
    match l {
        ListV::Cons(h, t) => value_text(*h) + ":"@ + tail_text(t),
        ListV::Nil => "[]"@,
    }
}

pub open spec fn tail_text(t: TailV) -> Seq<char>
    decreases t,
{
    match t {
        TailV::Open(x) => var_text(x),
        TailV::Close(l) => list_text(*l),
    }
}

/// Something with a text form.
pub trait Show: View + Sized {
    /// The text of a model.
    spec fn text(m: Self::V) -> Seq<char>;

    /// Appends the text of `self` to `out`.
    fn write_to(&self, out: &mut String)
        ensures
            final(out)@ == old(out)@ + Self::text(self@),
    ;

    /// The text of `self`.
    fn to_string(&self) -> (r: String)
        ensures
            r@ == Self::text(self@),
    {
        let mut out = String::new();
        self.write_to(&mut out);
        proof {
            assert(out@ =~= Self::text(self@));
        }
        out
    }
}

fn digit(d: u64) -> (c: char)
    requires
        d < 10,
    ensures
        c == digit_char(d as nat),
{
    if d == 0 {
        '0'
    } else if d == 1 {
        '1'
    } else if d == 2 {
        '2'
    } else if d == 3 {
        '3'
    } else if d == 4 {
        '4'
    } else if d == 5 {
        '5'
    } else if d == 6 {
        '6'
    } else if d == 7 {
        '7'
    } else if d == 8 {
        '8'
    } else {
        '9'
    }
}

/// Appends the decimal text of `n`.
pub fn write_nat(n: u64, out: &mut String)
    ensures
        final(out)@ == old(out)@ + nat_text(n as nat),
    decreases n,
{
    if n < 10 {
        out.push(digit(n));
        proof {
            assert(seq![digit_char(n as nat)] =~= nat_text(n as nat));
        }
    } else {
        let ghost pre = out@;
        write_nat(n / 10, out);
        out.push(digit(n % 10));
        proof {
            assert(out@ =~= pre + nat_text(n as nat));
        }
    }
}

/// Appends the decimal text of `i`.
pub fn write_int(i: i32, out: &mut String)
    ensures
        final(out)@ == old(out)@ + int_text(i as int),
{
    if i < 0 {
        let ghost pre = out@;
        out.push('-');
        let m: i64 = i as i64;
        let mag: u64 = (0i64 - m) as u64;
        write_nat(mag, out);
        proof {
            assert(out@ =~= pre + int_text(i as int));
        }
    } else {
        write_nat(i as u64, out);
    }
}

impl Show for Var {
    open spec fn text(m: VarV) -> Seq<char> {
        var_text(m)
    }

    fn write_to(&self, out: &mut String) {
        let ghost pre = out@;
        match self {
            Var::Formal(n) => {
                out.push('$');
                out.push_str(n.as_str());
            },
            Var::Auto(i) => {
                out.push('_');
                write_nat(*i as u64, out);
            },
        }
        proof {
            assert(out@ =~= pre + var_text(self@));
        }
    }
}

impl Numeric {
    fn prec(&self) -> (r: u32)
        ensures
            r as nat == num_prec(self@),
    {
        match self {
            Numeric::Var(_) => 4,
            Numeric::Int(_) => 4,
            Numeric::Unop(_, _) => 3,
            Numeric::Binop(o, _, _) => match o {
                BinaryOp::Add => 0,
                BinaryOp::Sub => 0,
                BinaryOp::Mul => 1,
                BinaryOp::Div => 1,
                BinaryOp::Mod => 2,
            },
        }
    }

    fn disp_body(&self, out: &mut String)
        ensures
            final(out)@ == old(out)@ + num_body(self@),
        decreases self, 0int,
    {
        let ghost pre = out@;
        let mine = self.prec();
        match self {
            Numeric::Var(v) => v.write_to(out),
            Numeric::Int(i) => write_int(*i, out),
            Numeric::Unop(o, n) => {
                match o {
                    UnaryOp::Pos => out.push_str("+"),
                    UnaryOp::Neg => out.push_str("-"),
                }
                n.disp_prec(mine, out);
            },
            Numeric::Binop(o, a, b) => {
                a.disp_prec(mine, out);
                match o {
                    BinaryOp::Add => out.push_str(" + "),
                    BinaryOp::Sub => out.push_str(" - "),
                    BinaryOp::Mul => out.push_str(" * "),
                    BinaryOp::Div => out.push_str(" / "),
                    BinaryOp::Mod => out.push_str(" % "),
                }
                b.disp_prec(mine, out);
            },
        }
        proof {
            assert(out@ =~= pre + num_body(self@));
        }
    }

    /// Appends the text of this expression standing where binding strength `prec` is
    /// asked for, in parentheses where it binds less tightly.
    pub fn disp_prec(&self, prec: u32, out: &mut String)
        ensures
            final(out)@ == old(out)@ + num_text(self@, prec as nat),
        decreases self, 1int,
    {
        let ghost pre = out@;
        let mine = self.prec();
        if mine < prec {
            out.push_str("(");
        }
        self.disp_body(out);
        if mine < prec {
            out.push_str(")");
        }
        proof {
            assert(out@ =~= pre + num_text(self@, prec as nat));
        }
    }
}

impl Show for Numeric {
    open spec fn text(m: NumV) -> Seq<char> {
        num_text(m, 0)
    }

    fn write_to(&self, out: &mut String) {
        self.disp_prec(0, out)
    }
}

fn write_value(v: &Value, out: &mut String)
    ensures
        final(out)@ == old(out)@ + value_text(v@),
    decreases v,
{
    let ghost pre = out@;
    match v {
        Value::Var(x) => x.write_to(out),
        Value::Atom(a) => {
            out.push('｢');
            out.push_str(a.as_str());
            out.push('｣');
        },
        Value::Numeric(n) => n.disp_prec(0, out),
        Value::Tuple(t) => {
            out.push_str("(");
            write_values(&t.0, out);
            out.push_str(")");
        },
        Value::List(l) => write_list(&**l, out),
    }
    proof {
        assert(out@ =~= pre + value_text(v@));
    }
}

fn write_values(s: &Vec<Value>, out: &mut String)
    ensures
        final(out)@ == old(out)@ + values_text(values_view(s@)),
    decreases s,
{
    let ghost pre = out@;
    let ghost ts = values_view(s@);
    let n = s.len();
    let mut i: usize = 0;
    while i < n
        invariant
            n == s@.len(),
            ts == values_view(s@),
            i <= n,
            out@ == pre + values_text(ts.take(i as int)),
        decreases n - i,
    {
        assert(decreases_to!(s => s@[i as int]));
        proof {
            assert(ts.take(i + 1).drop_last() =~= ts.take(i as int));
            assert(ts.take(i + 1).last() == value_view(s@[i as int]));
        }
        if i > 0 {
            out.push_str(", ");
        }
        write_value(&s[i], out);
        proof {
            if i == 0 {
                assert(ts.take(0) =~= Seq::<ValueV>::empty());
                assert(out@ =~= pre + values_text(ts.take(i + 1)));
            } else {
                assert(out@ =~= pre + values_text(ts.take(i + 1)));
            }
        }
        i = i + 1;
    }
    proof {
        assert(ts.take(n as int) =~= ts);
    }
}

fn write_list(l: &List, out: &mut String)
    ensures
        final(out)@ == old(out)@ + list_text(l@),
    decreases l,
{
    let ghost pre = out@;
    match l {
        List::Cons(h, t) => {
            write_value(h, out);
            out.push_str(":");
            write_tail(t, out);
        },
        List::Nil => out.push_str("[]"),
    }
    proof {
        assert(out@ =~= pre + list_text(l@));
    }
}

fn write_tail(t: &Tail, out: &mut String)
    ensures
        final(out)@ == old(out)@ + tail_text(t@),
    decreases t,
{
    match t {
        Tail::Open(x) => x.write_to(out),
        Tail::Close(l) => write_list(&**l, out),
    }
}

impl Show for Value {
    open spec fn text(m: ValueV) -> Seq<char> {
        value_text(m)
    }

    fn write_to(&self, out: &mut String) {
        write_value(self, out)
    }
}

impl Show for Tuple {
    open spec fn text(m: Seq<ValueV>) -> Seq<char> {
        "("@ + values_text(m) + ")"@
    }

    fn write_to(&self, out: &mut String) {
        let ghost pre = out@;
        out.push_str("(");
        write_values(&self.0, out);
        out.push_str(")");
        proof {
            assert(out@ =~= pre + Self::text(self@));
        }
    }
}

impl Show for List {
    open spec fn text(m: ListV) -> Seq<char> {
        list_text(m)
    }

    fn write_to(&self, out: &mut String) {
        write_list(self, out)
    }
}

impl Show for Tail {
    open spec fn text(m: TailV) -> Seq<char> {
        tail_text(m)
    }

    fn write_to(&self, out: &mut String) {
        write_tail(self, out)
    }
}

} // verus!

verus! {

/// The text of one binding of a substitution.
pub open spec fn entry_text(e: (VarV, ValueV)) -> Seq<char> {
    var_text(e.0) + " ~ "@ + value_text(e.1)
}

/// The texts of bindings, separated by commas.
pub open spec fn entries_text(s: Seq<(VarV, ValueV)>) -> Seq<char>
    decreases s.len(),
{
    if s.len() == 0 {
        Seq::empty()
    } else if s.len() == 1 {
        entry_text(s.last())
    } else {
        entries_text(s.drop_last()) + ", "@ + entry_text(s.last())
    }
}

/// The text of a substitution: `⊤` for the empty one, else its bindings in braces.
pub open spec fn sub_text(s: Seq<(VarV, ValueV)>) -> Seq<char> {
    if s.len() == 0 {
        "⊤"@
    } else {
        "{"@ + entries_text(s) + "}"@
    }
}

/// The texts of variables, separated by commas.
pub open spec fn vars_text(vs: Seq<VarV>) -> Seq<char>
    decreases vs.len(),
{
    if vs.len() == 0 {
        Seq::empty()
    } else if vs.len() == 1 {
        var_text(vs.last())
    } else {
        vars_text(vs.drop_last()) + ", "@ + var_text(vs.last())
    }
}

/// Appends the texts of variables, separated by commas.
pub fn write_vars(vs: &Vec<Var>, out: &mut String)
    ensures
        final(out)@ == old(out)@ + vars_text(crate::var::var_views(vs@)),
{
    let ghost pre = out@;
    let ghost xs = crate::var::var_views(vs@);
    let n = vs.len();
    let mut i: usize = 0;
    while i < n
        invariant
            n == vs@.len(),
            xs == crate::var::var_views(vs@),
            i <= n,
            out@ == pre + vars_text(xs.take(i as int)),
        decreases n - i,
    {
        proof {
            assert(xs.take(i + 1).drop_last() =~= xs.take(i as int));
            assert(xs.take(i + 1).last() == vs@[i as int]@);
        }
        if i > 0 {
            out.push_str(", ");
        }
        vs[i].write_to(out);
        proof {
            if i == 0 {
                assert(xs.take(0) =~= Seq::<VarV>::empty());
            }
            assert(out@ =~= pre + vars_text(xs.take(i + 1)));
        }
        i = i + 1;
    }
    proof {
        assert(xs.take(n as int) =~= xs);
    }
}

} // verus!

verus! {

impl Show for crate::sub::Sub {
    open spec fn text(m: Seq<(VarV, ValueV)>) -> Seq<char> {
        sub_text(m)
    }

    fn write_to(&self, out: &mut String) {
        let ghost pre = out@;
        let ghost s = self@;
        let n = self.len();
        if n == 0 {
            out.push_str("⊤");
            return;
        }
        out.push_str("{");
        let mut i: usize = 0;
        while i < n
            invariant
                n == s.len(),
                s == self@,
                n > 0,
                i <= n,
                out@ == pre + "{"@ + entries_text(s.take(i as int)),
            decreases n - i,
        {
            proof {
                assert(s.take(i + 1).drop_last() =~= s.take(i as int));
                assert(s.take(i + 1).last() == s[i as int]);
            }
            if i > 0 {
                out.push_str(", ");
            }
            let (x, v) = self.entry(i);
            x.write_to(out);
            out.push_str(" ~ ");
            write_value(v, out);
            proof {
                if i == 0 {
                    assert(s.take(0) =~= Seq::<(VarV, ValueV)>::empty());
                }
                assert(out@ =~= pre + "{"@ + entries_text(s.take(i + 1)));
            }
            i = i + 1;
        }
        out.push_str("}");
        proof {
            assert(s.take(n as int) =~= s);
            assert(out@ =~= pre + sub_text(s));
        }
    }
}

} // verus!

verus! {

/// The text of a predicate: its name, a slash and its arity.
pub open spec fn pred_text(p: PredV) -> Seq<char> {
    p.name + "/"@ + nat_text(p.arity as nat)
}

/// The text of an application: the predicate's name and the arguments in parentheses.
pub open spec fn app_text(a: AppV) -> Seq<char> {
    a.pred.name + "("@ + values_text(a.args) + ")"@
}

/// How tightly a clause binds: the higher, the tighter.
pub open spec fn clause_prec(c: ClauseV) -> nat {
    match c {
        ClauseV::Top => 3,
        ClauseV::Bot => 3,
        ClauseV::App(_) => 3,
        ClauseV::Not(_) => 2,
        ClauseV::And(_, _) => 1,
        ClauseV::Or(_, _) => 0,
    }
}

/// The text of a clause standing where binding strength `prec` is asked for.
pub open spec fn clause_text(c: ClauseV, prec: nat) -> Seq<char>
    decreases c, 1int,
{
    paren(clause_prec(c), prec, clause_body(c))
}

/// The text of a clause without parentheses around it. Conjunction and disjunction are both
/// written with a comma; they differ in how tightly they bind.
pub open spec fn clause_body(c: ClauseV) -> Seq<char>
    decreases c, 0int,
{
    match c {
        ClauseV::Top => "⊤"@,
        ClauseV::Bot => "⊥"@,
        ClauseV::App(a) => app_text(a),
        ClauseV::Not(x) => "~"@ + clause_text(*x, 2),
        ClauseV::And(a, b) => clause_text(*a, 1) + ", "@ + clause_text(*b, 1),
        ClauseV::Or(a, b) => clause_text(*a, 0) + ", "@ + clause_text(*b, 0),
    }
}

/// The text of a statement: its head, a turnstile and its body.
pub open spec fn statement_text(s: StatementV) -> Seq<char> {
    app_text(s.lhs) + " ⊢ "@ + clause_text(s.rhs, 0)
}

impl Show for Pred {
    open spec fn text(m: PredV) -> Seq<char> {
        pred_text(m)
    }

    fn write_to(&self, out: &mut String) {
        let ghost pre = out@;
        out.push_str(self.name().as_str());
        out.push_str("/");
        write_nat(self.arity() as u64, out);
        proof {
            assert(out@ =~= pre + pred_text(self@));
        }
    }
}

impl Show for App {
    open spec fn text(m: AppV) -> Seq<char> {
        app_text(m)
    }

    fn write_to(&self, out: &mut String) {
        let ghost pre = out@;
        let p: &Pred = &**self.pred();
        out.push_str(p.name().as_str());
        out.push_str("(");
        write_values(&self.args().0, out);
        out.push_str(")");
        proof {
            assert(out@ =~= pre + app_text(self@));
        }
    }
}

impl Clause {
    fn prec(&self) -> (r: u32)
        ensures
            r as nat == clause_prec(self@),
    {
        match self {
            Clause::Top => 3,
            Clause::Bot => 3,
            Clause::App(_) => 3,
            Clause::Not(_) => 2,
            Clause::And(_, _) => 1,
            Clause::Or(_, _) => 0,
        }
    }

    fn disp_body(&self, out: &mut String)
        ensures
            final(out)@ == old(out)@ + clause_body(self@),
        decreases self, 0int,
    {
        let ghost pre = out@;
        match self {
            Clause::Top => out.push_str("⊤"),
            Clause::Bot => out.push_str("⊥"),
            Clause::App(a) => a.write_to(out),
            Clause::Not(x) => {
                out.push_str("~");
                x.disp_prec(2, out);
            },
            Clause::And(a, b) => {
                a.disp_prec(1, out);
                out.push_str(", ");
                b.disp_prec(1, out);
            },
            Clause::Or(a, b) => {
                a.disp_prec(0, out);
                out.push_str(", ");
                b.disp_prec(0, out);
            },
        }
        proof {
            assert(out@ =~= pre + clause_body(self@));
        }
    }

    /// Appends the text of this clause standing where binding strength `prec` is asked for,
    /// in parentheses where it binds less tightly.
    pub fn disp_prec(&self, prec: u32, out: &mut String)
        ensures
            final(out)@ == old(out)@ + clause_text(self@, prec as nat),
        decreases self, 1int,
    {
        let ghost pre = out@;
        let mine = self.prec();
        if mine < prec {
            out.push_str("(");
        }
        self.disp_body(out);
        if mine < prec {
            out.push_str(")");
        }
        proof {
            assert(out@ =~= pre + clause_text(self@, prec as nat));
        }
    }
}

impl Show for Clause {
    open spec fn text(m: ClauseV) -> Seq<char> {
        clause_text(m, 0)
    }

    fn write_to(&self, out: &mut String) {
        self.disp_prec(0, out)
    }
}

impl Show for Statement {
    open spec fn text(m: StatementV) -> Seq<char> {
        statement_text(m)
    }

    fn write_to(&self, out: &mut String) {
        let ghost pre = out@;
        self.lhs().write_to(out);
        out.push_str(" ⊢ ");
        self.rhs().disp_prec(0, out);
        proof {
            assert(out@ =~= pre + statement_text(self@));
        }
    }
}

impl<T: Show> Show for Scheme<T> {
    /// `forall`, the generalized variables, a dot and the value.
    open spec fn text(m: SchemeV<T::V>) -> Seq<char> {
        "forall "@ + vars_text(m.vars) + "."@ + T::text(m.val)
    }

    fn write_to(&self, out: &mut String) {
        let ghost pre = out@;
        out.push_str("forall ");
        write_vars(self.vars(), out);
        out.push_str(".");
        self.val().write_to(out);
        proof {
            assert(out@ =~= pre + Self::text(self@));
        }
    }
}

impl<T: Show> Show for MaybeScheme<T> {
    open spec fn text(m: MaybeSchemeV<T::V>) -> Seq<char> {
        match m {
            MaybeSchemeV::Scheme(s) => Scheme::<T>::text(s),
            MaybeSchemeV::Inst(i) => T::text(i),
        }
    }

    fn write_to(&self, out: &mut String) {
        match self {
            MaybeScheme::Scheme(s) => s.write_to(out),
            MaybeScheme::Inst(i) => i.write_to(out),
        }
    }
}

impl<T: Show> Show for Bind<T> {
    /// `for`, the bound variables, a dot and the value.
    open spec fn text(m: BindV<T::V>) -> Seq<char> {
        "for "@ + vars_text(m.vars) + "."@ + T::text(m.val)
    }

    fn write_to(&self, out: &mut String) {
        let ghost pre = out@;
        out.push_str("for ");
        write_vars(self.vars(), out);
        out.push_str(".");
        self.val().write_to(out);
        proof {
            assert(out@ =~= pre + Self::text(self@));
        }
    }
}

impl<T: Show> Show for MaybeBind<T> {
    open spec fn text(m: MaybeBindV<T::V>) -> Seq<char> {
        match m {
            MaybeBindV::Bind(b) => Bind::<T>::text(b),
            MaybeBindV::Raw(r) => T::text(r),
        }
    }

    fn write_to(&self, out: &mut String) {
        match self {
            MaybeBind::Bind(b) => b.write_to(out),
            MaybeBind::Raw(r) => r.write_to(out),
        }
    }
}

} // verus!

verus! {

/// The message of an error.
pub open spec fn error_text(e: crate::error::ErrorV) -> Seq<char> {
    match e {
        crate::error::ErrorV::DuplicateSub => "duplicate variable in substitution"@,
        crate::error::ErrorV::SubBadType(k, v) => "substitution failure: expected "@ + k + ", got "@
            + value_text(v),
        crate::error::ErrorV::BadValueUnify(a, b) => "values "@ + value_text(a) + " and "@ + value_text(b)
            + " couldn't be unified"@,
        crate::error::ErrorV::BadNumericUnify(a, b) => "numeric expressions "@ + num_text(a, 0) + " and "@
            + num_text(b, 0) + " couldn't be unified"@,
        crate::error::ErrorV::BadTupleUnify(a, b) => "tuples "@ + "("@ + values_text(a) + ")"@ + " and "@
            + "("@ + values_text(b) + ")"@ + " couldn't be unified"@,
        crate::error::ErrorV::BadListUnify(a, b) => "lists "@ + list_text(a) + " and "@ + list_text(b)
            + " couldn't be unified"@,
        crate::error::ErrorV::PredMismatch(a, b) => "predicates "@ + pred_text(a) + " and "@ + pred_text(b)
            + " don't match"@,
        crate::error::ErrorV::VarBothSides(v) => "unsolvable unify: "@ + var_text(v) + " is on both sides"@,
    }
}

impl Show for crate::error::Error {
    open spec fn text(m: crate::error::ErrorV) -> Seq<char> {
        error_text(m)
    }

    fn write_to(&self, out: &mut String) {
        let ghost pre = out@;
        match self {
            crate::error::Error::DuplicateSub => out.push_str("duplicate variable in substitution"),
            crate::error::Error::SubBadType(k, v) => {
                out.push_str("substitution failure: expected ");
                out.push_str(k);
                out.push_str(", got ");
                v.write_to(out);
            },
            crate::error::Error::BadValueUnify(a, b) => {
                out.push_str("values ");
                a.write_to(out);
                out.push_str(" and ");
                b.write_to(out);
                out.push_str(" couldn't be unified");
            },
            crate::error::Error::BadNumericUnify(a, b) => {
                out.push_str("numeric expressions ");
                a.write_to(out);
                out.push_str(" and ");
                b.write_to(out);
                out.push_str(" couldn't be unified");
            },
            crate::error::Error::BadTupleUnify(a, b) => {
                out.push_str("tuples ");
                a.write_to(out);
                out.push_str(" and ");
                b.write_to(out);
                out.push_str(" couldn't be unified");
            },
            crate::error::Error::BadListUnify(a, b) => {
                out.push_str("lists ");
                a.write_to(out);
                out.push_str(" and ");
                b.write_to(out);
                out.push_str(" couldn't be unified");
            },
            crate::error::Error::PredMismatch(a, b) => {
                out.push_str("predicates ");
                let p: &Pred = &**a;
                let q: &Pred = &**b;
                p.write_to(out);
                out.push_str(" and ");
                q.write_to(out);
                out.push_str(" don't match");
            },
            crate::error::Error::VarBothSides(v) => {
                out.push_str("unsolvable unify: ");
                v.write_to(out);
                out.push_str(" is on both sides");
            },
        }
        proof {
            assert(out@ =~= pre + error_text(self@));
        }
    }
}


/// The symbol of a binary operator.
pub open spec fn op_symbol(o: BinaryOp) -> char {
    match o {
        BinaryOp::Add => '+',
        BinaryOp::Sub => '-',
        BinaryOp::Mul => '*',
        BinaryOp::Div => '/',
        BinaryOp::Mod => '%',
    }
}

/// A binary operation is shown by its operator's own symbol, set off by spaces, right after
/// the text of its left operand; so two operations of the same strength on the same operands
/// but with different operators are shown differently. A unary operation starts with its
/// sign.
pub proof fn lemma_operator_shown(o: BinaryOp, p: BinaryOp, a: NumV, b: NumV, u: UnaryOp, n: NumV)
    ensures
        ({
            let m = NumV::Binop(o, Box::new(a), Box::new(b));
            let t = num_body(m);
            let l = num_text(a, num_prec(m)).len();
            &&& t.len() > l + 2
            &&& t[l as int] == ' '
            &&& t[l + 1int] == op_symbol(o)
            &&& t[l + 2int] == ' '
        }),
        o != p && num_prec(NumV::Binop(o, Box::new(a), Box::new(b))) == num_prec(
            NumV::Binop(p, Box::new(a), Box::new(b)),
        ) ==> num_body(NumV::Binop(o, Box::new(a), Box::new(b))) != num_body(
            NumV::Binop(p, Box::new(a), Box::new(b)),
        ),
        num_body(NumV::Unop(u, Box::new(n)))[0] == (if u is Pos { '+' } else { '-' }),
{
    reveal_strlit(" + ");
    reveal_strlit(" - ");
    reveal_strlit(" * ");
    reveal_strlit(" / ");
    reveal_strlit(" % ");
    reveal_strlit("+");
    reveal_strlit("-");
    let m = NumV::Binop(o, Box::new(a), Box::new(b));
    let l = num_text(a, num_prec(m));
    let t = num_body(m);
    assert(t == l + binop_text(o) + num_text(b, num_prec(m)));
    assert(t[l.len() + 1int] == binop_text(o)[1]);
    let mp = NumV::Binop(p, Box::new(a), Box::new(b));
    if o != p && num_prec(m) == num_prec(mp) {
        let tp = num_body(mp);
        assert(tp[l.len() + 1int] == binop_text(p)[1]);
        assert(t[l.len() + 1int] != tp[l.len() + 1int]);
    }
}

} // verus!
