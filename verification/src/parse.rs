use vstd::prelude::*;

use crate::ast::ParserTag;

verus! {

/// The characters of a string, in order.
pub fn chars_of(s: &str) -> (r: Vec<char>)
    ensures
        r@ == s@,
{
    let mut out: Vec<char> = Vec::new();
    for c in it: s.chars()
        invariant
            out@ == it.seq().take(it.index() as int),
    {
        out.push(c);
    }
    out
}

} // verus!

verus! {

/// Whether `c` may stand in a name: a letter, a digit or an underscore.
pub open spec fn is_name_char(c: char) -> bool {
    ('a' as u32 <= c as u32 <= 'z' as u32) || ('A' as u32 <= c as u32 <= 'Z' as u32) || ('0' as u32
        <= c as u32 <= '9' as u32) || c == '_'
}

/// Whether a name is a variable's: it starts with an upper-case letter.
pub open spec fn is_upper(c: char) -> bool {
    'A' as u32 <= c as u32 <= 'Z' as u32
}

pub open spec fn is_space(c: char) -> bool {
    c == ' ' || c == '\t' || c == '\n' || c == '\r'
}

/// The first position from `i` on that holds no space.
pub open spec fn skip_space(s: Seq<char>, i: nat) -> nat
    decreases s.len() - i,
{
    if i < s.len() && is_space(s[i as int]) {
        skip_space(s, i + 1)
    } else {
        i
    }
}

/// The first position from `i` on that holds no name character.
pub open spec fn name_end(s: Seq<char>, i: nat) -> nat
    decreases s.len() - i,
{
    if i < s.len() && is_name_char(s[i as int]) {
        name_end(s, i + 1)
    } else {
        i
    }
}

pub proof fn lemma_skip_space_bounds(s: Seq<char>, i: nat)
    ensures
        i <= skip_space(s, i),
        i <= s.len() ==> skip_space(s, i) <= s.len(),
    decreases s.len() - i,
{
    if i < s.len() && is_space(s[i as int]) {
        lemma_skip_space_bounds(s, i + 1);
    }
}

pub proof fn lemma_name_end_bounds(s: Seq<char>, i: nat)
    ensures
        i <= name_end(s, i),
        i <= s.len() ==> name_end(s, i) <= s.len(),
    decreases s.len() - i,
{
    if i < s.len() && is_name_char(s[i as int]) {
        lemma_name_end_bounds(s, i + 1);
    }
}

/// The value a name stands for: a variable where it starts with an upper-case letter, else
/// an atom.
pub open spec fn name_value(w: Seq<char>) -> crate::term::ValueV {
    if w.len() > 0 && is_upper(w[0]) {
        crate::term::ValueV::Var(crate::var::VarV::Formal(w))
    } else {
        crate::term::ValueV::Atom(w)
    }
}

/// The value written from position `i` on (spaces first), and the position after it.
pub open spec fn value_at(s: Seq<char>, i: nat) -> Option<(crate::term::ValueV, nat)> {
    let j = skip_space(s, i);
    let k = name_end(s, j);
    if k == j {
        None
    } else {
        Some((name_value(s.subrange(j as int, k as int)), k))
    }
}

/// The arguments written from position `i` on, up to and including the closing parenthesis,
/// separated by commas, a comma after the last allowed; and the position after them.
pub open spec fn args_at(s: Seq<char>, i: nat) -> Option<(Seq<crate::term::ValueV>, nat)>
    decreases s.len() - i,
{
    let j = skip_space(s, i);
    if j < s.len() && s[j as int] == ')' {
        Some((Seq::empty(), j + 1))
    } else {
        match value_at(s, j) {
            None => None,
            Some((v, k)) => {
                let m = skip_space(s, k);
                if m < s.len() && s[m as int] == ')' {
                    Some((seq![v], m + 1))
                } else if m < s.len() && s[m as int] == ',' {
                    proof {
                        lemma_skip_space_bounds(s, i);
                        lemma_skip_space_bounds(s, j);
                        lemma_name_end_bounds(s, skip_space(s, j));
                        lemma_skip_space_bounds(s, k);
                    }
                    match args_at(s, m + 1) {
                        None => None,
                        Some((vs, e)) => Some((seq![v] + vs, e)),
                    }
                } else {
                    None
                }
            },
        }
    }
}

/// The value that `s` holds, if it holds one: a name between spaces.
pub open spec fn parsed_value(s: Seq<char>) -> Option<crate::term::ValueV> {
    match value_at(s, 0) {
        Some((v, k)) => if skip_space(s, k) == s.len() {
            Some(v)
        } else {
            None
        },
        None => None,
    }
}

/// The application that `s` holds, if it holds one: the predicate's name (not a variable's),
/// then its arguments in parentheses, between spaces.
pub open spec fn parsed_app(s: Seq<char>) -> Option<(Seq<char>, Seq<crate::term::ValueV>)> {
    let j = skip_space(s, 0);
    let k = name_end(s, j);
    let m = skip_space(s, k);
    if k == j || is_upper(s[j as int]) || !(m < s.len() && s[m as int] == '(') {
        None
    } else {
        match args_at(s, m + 1) {
            Some((vs, e)) => if skip_space(s, e) == s.len() {
                Some((s.subrange(j as int, k as int), vs))
            } else {
                None
            },
            None => None,
        }
    }
}

} // verus!

verus! {

fn name_char(c: char) -> (r: bool)
    ensures
        r == is_name_char(c),
{
    let u = c as u32;
    ('a' as u32 <= u && u <= 'z' as u32) || ('A' as u32 <= u && u <= 'Z' as u32) || ('0' as u32 <= u
        && u <= '9' as u32) || c == '_'
}

fn upper(c: char) -> (r: bool)
    ensures
        r == is_upper(c),
{
    let u = c as u32;
    'A' as u32 <= u && u <= 'Z' as u32
}

fn space(c: char) -> (r: bool)
    ensures
        r == is_space(c),
{
    c == ' ' || c == '\t' || c == '\n' || c == '\r'
}

fn skip_spaces(s: &Vec<char>, i: usize) -> (r: usize)
    requires
        i <= s@.len(),
    ensures
        r == skip_space(s@, i as nat),
        r <= s@.len(),
{
    let mut j = i;
    while j < s.len() && space(s[j])
        invariant
            i <= j <= s@.len(),
            skip_space(s@, j as nat) == skip_space(s@, i as nat),
        decreases s@.len() - j,
    {
        j = j + 1;
    }
    j
}

fn end_of_name(s: &Vec<char>, i: usize) -> (r: usize)
    requires
        i <= s@.len(),
    ensures
        r == name_end(s@, i as nat),
        r <= s@.len(),
{
    let mut j = i;
    while j < s.len() && name_char(s[j])
        invariant
            i <= j <= s@.len(),
            name_end(s@, j as nat) == name_end(s@, i as nat),
        decreases s@.len() - j,
    {
        j = j + 1;
    }
    j
}

fn text_between(s: &Vec<char>, j: usize, k: usize) -> (r: String)
    requires
        j <= k <= s@.len(),
    ensures
        r@ == s@.subrange(j as int, k as int),
{
    let mut out = String::new();
    let mut i = j;
    while i < k
        invariant
            j <= i <= k,
            k <= s@.len(),
            out@ == s@.subrange(j as int, i as int),
        decreases k - i,
    {
        out.push(s[i]);
        proof {
            assert(s@.subrange(j as int, i + 1) =~= s@.subrange(j as int, i as int).push(s@[i as int]));
        }
        i = i + 1;
    }
    out
}

fn value_from(s: &Vec<char>, i: usize) -> (r: Option<(crate::term::Value, usize)>)
    requires
        i <= s@.len(),
    ensures
        match value_at(s@, i as nat) {
            Some((v, k)) => r matches Some((x, e)) && x@ == v && e == k,
            None => r is None,
        },
        r matches Some((_, e)) ==> i < e <= s@.len(),
{
    let j = skip_spaces(s, i);
    let k = end_of_name(s, j);
    proof {
        lemma_skip_space_bounds(s@, i as nat);
        lemma_name_end_bounds(s@, j as nat);
    }
    if k == j {
        return None;
    }
    let w = text_between(s, j, k);
    let v = if upper(s[j]) {
        crate::term::Value::Var(crate::var::Var::Formal(w))
    } else {
        crate::term::Value::Atom(w)
    };
    Some((v, k))
}

fn args_from(s: &Vec<char>, i: usize) -> (r: Option<(Vec<crate::term::Value>, usize)>)
    requires
        i <= s@.len(),
    ensures
        match args_at(s@, i as nat) {
            Some((vs, e)) => r matches Some((xs, f)) && crate::term::values_view(xs@) == vs && f == e,
            None => r is None,
        },
        r matches Some((_, f)) ==> f <= s@.len(),
    decreases s@.len() - i,
{
    let j = skip_spaces(s, i);
    if j < s.len() && s[j] == ')' {
        let xs: Vec<crate::term::Value> = Vec::new();
        proof {
            assert(crate::term::values_view(xs@) =~= Seq::<crate::term::ValueV>::empty());
        }
        return Some((xs, j + 1));
    }
    match value_from(s, j) {
        None => None,
        Some((v, k)) => {
            let m = skip_spaces(s, k);
            proof {
                lemma_skip_space_bounds(s@, i as nat);
                lemma_skip_space_bounds(s@, k as nat);
            }
            if m < s.len() && s[m] == ')' {
                let mut xs: Vec<crate::term::Value> = Vec::new();
                let ghost vv = v@;
                xs.push(v);
                proof {
                    assert(crate::term::values_view(xs@) =~= seq![vv]);
                }
                Some((xs, m + 1))
            } else if m < s.len() && s[m] == ',' {
                match args_from(s, m + 1) {
                    None => None,
                    Some((rest, e)) => {
                        let mut xs: Vec<crate::term::Value> = Vec::new();
                        let ghost vv = v@;
                        xs.push(v);
                        let mut rest = rest;
                        let ghost rv = crate::term::values_view(rest@);
                        xs.append(&mut rest);
                        proof {
                            assert(crate::term::values_view(xs@) =~= seq![vv] + rv);
                        }
                        Some((xs, e))
                    },
                }
            } else {
                None
            }
        },
    }
}

/// The input holds no term of the kind asked for.
#[derive(Debug, PartialEq, Eq)]
pub struct ParseError;

/// Reads a value: a name between spaces, a variable where it starts with an upper-case
/// letter, else an atom.
pub struct ValueParser;

impl ValueParser {
    /// A parser of values.
    pub fn new() -> ValueParser {
        ValueParser
    }

    /// The value that `input` holds, or an error where it holds none.
    pub fn parse(&self, _tag: &mut ParserTag, input: &str) -> (r: Result<crate::term::Value, ParseError>)
        ensures
            match parsed_value(input@) {
                Some(v) => r matches Ok(x) && x@ == v,
                None => r is Err,
            },
    {
        let s = chars_of(input);
        match value_from(&s, 0) {
            Some((v, k)) => {
                if skip_spaces(&s, k) == s.len() {
                    Ok(v)
                } else {
                    Err(ParseError)
                }
            },
            None => Err(ParseError),
        }
    }
}

/// Reads an application: a predicate's name (not a variable's), then its arguments in
/// parentheses, separated by commas, a comma after the last allowed.
pub struct AppParser;

impl AppParser {
    /// A parser of applications.
    pub fn new() -> AppParser {
        AppParser
    }

    /// The application that `input` holds, or an error where it holds none.
    pub fn parse(&self, _tag: &mut ParserTag, input: &str) -> (r: Result<crate::pred::App, ParseError>)
        ensures
            match parsed_app(input@) {
                Some((name, vs)) => r matches Ok(a) && a@ == (crate::pred::AppV {
                    pred: crate::pred::PredV { name: name, arity: vs.len() as usize },
                    args: vs,
                }),
                None => r is Err,
            },
    {
        let s = chars_of(input);
        let j = skip_spaces(&s, 0);
        let k = end_of_name(&s, j);
        proof {
            lemma_name_end_bounds(s@, j as nat);
        }
        if k == j || upper(s[j]) {
            return Err(ParseError);
        }
        let m = skip_spaces(&s, k);
        if !(m < s.len() && s[m] == '(') {
            return Err(ParseError);
        }
        match args_from(&s, m + 1) {
            Some((args, e)) => {
                if skip_spaces(&s, e) == s.len() {
                    let name = text_between(&s, j, k);
                    let n = args.len();
                    proof {
                        assert(crate::term::values_view(args@).len() == args@.len());
                    }
                    let pred = crate::pred::Pred::new_rc(name, n);
                    Ok(crate::pred::App::new(pred, crate::term::Tuple(args)))
                } else {
                    Err(ParseError)
                }
            },
            None => Err(ParseError),
        }
    }
}

} // verus!
