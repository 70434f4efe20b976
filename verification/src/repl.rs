use vstd::prelude::*;

use crate::ast::CompileError;
use crate::clause::Statement;
use crate::env::{Step, StepV};
use crate::eval::{EvalResult, EvalResultV};
use crate::scheme::{MaybeScheme, MaybeSchemeV};
use crate::sub::Sub;
use crate::text::{error_text, Show};
use crate::term::Value;

verus! {

/// What the user asks for after a solution of a query.
#[derive(Debug, PartialEq, Eq)]
pub enum QueryAction {
    Next,
    Stop,
}

/// The action a key asks for: tab or `;` asks for the next solution; interrupt, end of
/// input, return or `.` stops; any other key asks for nothing.
pub fn query_action(c: char) -> (r: Option<QueryAction>)
    ensures
        r == (if c == '\t' || c == ';' {
            Some(QueryAction::Next)
        } else if c == '\x03' || c == '\x04' || c == '\n' || c == '.' {
            Some(QueryAction::Stop)
        } else {
            None
        }),
{
    if c == '\t' || c == ';' {
        Some(QueryAction::Next)
    } else if c == '\x03' || c == '\x04' || c == '\n' || c == '.' {
        Some(QueryAction::Stop)
    } else {
        None
    }
}

/// What the terminal does next while a query's solutions are shown.
#[derive(Debug)]
pub enum QueryReply {
    /// Show this solution after a space and ask what the user wants next.
    Ask(String),
    /// Search on without showing anything.
    Search,
    /// End the line with this text, then search on.
    Write(&'static str),
    /// End the line with this text; the query is over.
    End(&'static str),
}

/// The model of a reply: the texts as character sequences.
pub enum QueryReplyV {
    Ask(Seq<char>),
    Search,
    Write(Seq<char>),
    End(Seq<char>),
}

impl View for QueryReply {
    type V = QueryReplyV;

    open spec fn view(&self) -> QueryReplyV {
        match self {
            QueryReply::Ask(t) => QueryReplyV::Ask(t@),
            QueryReply::Search => QueryReplyV::Search,
            QueryReply::Write(t) => QueryReplyV::Write(t@),
            QueryReply::End(t) => QueryReplyV::End(t@),
        }
    }
}

/// The reply to a step of the search: a solution is shown without its automatic variables
/// and the user is asked; a search that ran out of solutions ends with ` ⊥.`.
pub fn reply_to_step(step: Step) -> (r: QueryReply)
    ensures
        r@ == match step@ {
            StepV::Yield(s) => QueryReplyV::Ask(
                Sub::text(s.filter(|p: (crate::var::VarV, crate::term::ValueV)| p.0 is Formal)),
            ),
            StepV::Continue => QueryReplyV::Search,
            StepV::Done => QueryReplyV::End(" ⊥."@),
        },
{
    match step {
        Step::Yield(sol) => {
            let shown = sol.without_autos();
            QueryReply::Ask(shown.to_string())
        },
        Step::Continue => QueryReply::Search,
        Step::Done => QueryReply::End(" ⊥."),
    }
}

/// The reply to the user's action after a solution: the next one is searched for after
/// `;`, or the query ends with `.`.
pub fn reply_to_action(action: QueryAction) -> (r: QueryReply)
    ensures
        r@ == match action {
            QueryAction::Next => QueryReplyV::Write(";"@),
            QueryAction::Stop => QueryReplyV::End("."@),
        },
{
    match action {
        QueryAction::Next => QueryReply::Write(";"),
        QueryAction::Stop => QueryReply::End("."),
    }
}

/// The text of a compilation error.
pub open spec fn compile_error_text(e: (Seq<char>, Seq<char>)) -> Seq<char> {
    "type error: expected "@ + e.0 + ", got "@ + e.1
}

impl Show for CompileError {
    open spec fn text(m: (Seq<char>, Seq<char>)) -> Seq<char> {
        compile_error_text(m)
    }

    fn write_to(&self, out: &mut String) {
        let ghost pre = out@;
        match self {
            CompileError::CompileTypeError(k, t) => {
                out.push_str("type error: expected ");
                out.push_str(k);
                out.push_str(", got ");
                out.push_str(t.as_str());
            },
        }
        proof {
            assert(out@ =~= pre + compile_error_text(self@));
        }
    }
}

/// The lines that show what a command gave back, each indented by a space; a query's
/// solutions are shown one at a time as they are asked for, so it shows none here.
pub open spec fn result_lines(r: EvalResultV) -> Seq<Seq<char>> {
    match r {
        EvalResultV::Unit => Seq::empty(),
        EvalResultV::Assert(v) => v.map_values(
            |m: MaybeSchemeV<crate::clause::StatementV>|
                " "@ + MaybeScheme::<Statement>::text(m) + "."@,
        ),
        EvalResultV::Query(_) => Seq::empty(),
        EvalResultV::UnifyVal(Ok((a, b, s, a2, b2))) => seq![
            " unify result: "@ + Sub::text(s),
            "     lhs: "@ + Value::text(a) + " ~ "@ + Value::text(a2),
            "     rhs: "@ + Value::text(b) + " ~ "@ + Value::text(b2),
        ],
        EvalResultV::UnifyVal(Err(e)) => seq![" unify failed: "@ + error_text(e)],
        EvalResultV::UnifyApp(Ok((a, b, s, a2, b2))) => seq![
            " unify result: "@ + Sub::text(s),
            "     lhs: "@ + crate::pred::App::text(a) + " ~ "@ + crate::pred::App::text(a2),
            "     rhs: "@ + crate::pred::App::text(b) + " ~ "@ + crate::pred::App::text(b2),
        ],
        EvalResultV::UnifyApp(Err(e)) => seq![" unify failed: "@ + error_text(e)],
        EvalResultV::PrintVal(v) => seq![" "@ + MaybeScheme::<Value>::text(v)],
        EvalResultV::PrintStmt(s) => seq![" "@ + MaybeScheme::<Statement>::text(s)],
        EvalResultV::PrintEnv(v) => v.map_values(
            |m: MaybeSchemeV<crate::clause::StatementV>| " "@ + MaybeScheme::<Statement>::text(m),
        ),
    }
}

fn line_of<T: Show>(lead: &str, t: &T, tail: &str) -> (r: String)
    ensures
        r@ == lead@ + T::text(t@) + tail@,
{
    let mut out = String::new();
    out.push_str(lead);
    t.write_to(&mut out);
    out.push_str(tail);
    proof {
        assert(out@ =~= lead@ + T::text(t@) + tail@);
    }
    out
}

fn pair_line<T: Show>(lead: &str, a: &T, b: &T) -> (r: String)
    ensures
        r@ == lead@ + T::text(a@) + " ~ "@ + T::text(b@),
{
    let mut out = String::new();
    out.push_str(lead);
    a.write_to(&mut out);
    out.push_str(" ~ ");
    b.write_to(&mut out);
    proof {
        assert(out@ =~= lead@ + T::text(a@) + " ~ "@ + T::text(b@));
    }
    out
}

fn stmt_lines(v: &Vec<MaybeScheme<Statement>>, tail: &str) -> (r: Vec<String>)
    ensures
        r@.map_values(|s: String| s@) == crate::ast::stmts_view(v@).map_values(
            |m: MaybeSchemeV<crate::clause::StatementV>|
                " "@ + MaybeScheme::<Statement>::text(m) + tail@,
        ),
{
    let ghost f = |m: MaybeSchemeV<crate::clause::StatementV>|
        " "@ + MaybeScheme::<Statement>::text(m) + tail@;
    let mut out: Vec<String> = Vec::new();
    let n = v.len();
    let mut i: usize = 0;
    while i < n
        invariant
            n == v@.len(),
            i <= n,
            f == (|m: MaybeSchemeV<crate::clause::StatementV>|
                " "@ + MaybeScheme::<Statement>::text(m) + tail@),
            out@.map_values(|s: String| s@) =~= crate::ast::stmts_view(v@).take(i as int).map_values(f),
        decreases n - i,
    {
        let ghost pre = out@;
        let line = line_of(" ", &v[i], tail);
        out.push(line);
        proof {
            assert(out@.map_values(|s: String| s@) =~= pre.map_values(|s: String| s@).push(line@));
            assert(crate::ast::stmts_view(v@).take(i + 1) =~= crate::ast::stmts_view(v@).take(
                i as int,
            ).push(v@[i as int]@));
            assert(crate::ast::stmts_view(v@).take(i + 1).map_values(f) =~= crate::ast::stmts_view(
                v@,
            ).take(i as int).map_values(f).push(f(v@[i as int]@)));
        }
        i = i + 1;
    }
    proof {
        assert(crate::ast::stmts_view(v@).take(n as int) =~= crate::ast::stmts_view(v@));
    }
    out
}

/// The lines that show what a command gave back.
pub fn show_result(r: &EvalResult) -> (lines: Vec<String>)
    ensures
        lines@.map_values(|s: String| s@) == result_lines(r@),
{
    proof {
        reveal_strlit("");
    }
    let mut out: Vec<String> = Vec::new();
    match r {
        EvalResult::Unit => {},
        EvalResult::Assert(v) => {
            out = stmt_lines(v, ".");
        },
        EvalResult::Query(_) => {},
        EvalResult::UnifyVal(Ok((a, b, s, a2, b2))) => {
            let l1 = line_of(" unify result: ", s, "");
            let l2 = pair_line("     lhs: ", a, a2);
            let l3 = pair_line("     rhs: ", b, b2);
            out.push(l1);
            out.push(l2);
            out.push(l3);
            proof {
                assert(l1@ =~= " unify result: "@ + Sub::text(s@));
                assert(out@.map_values(|s: String| s@) =~= seq![l1@, l2@, l3@]);
            }
        },
        EvalResult::UnifyVal(Err(e)) => {
            let l = line_of(" unify failed: ", e, "");
            out.push(l);
            proof {
                assert(l@ =~= " unify failed: "@ + error_text(e@));
                assert(out@.map_values(|s: String| s@) =~= seq![l@]);
            }
        },
        EvalResult::UnifyApp(Ok((a, b, s, a2, b2))) => {
            let l1 = line_of(" unify result: ", s, "");
            let l2 = pair_line("     lhs: ", a, a2);
            let l3 = pair_line("     rhs: ", b, b2);
            out.push(l1);
            out.push(l2);
            out.push(l3);
            proof {
                assert(l1@ =~= " unify result: "@ + Sub::text(s@));
                assert(out@.map_values(|s: String| s@) =~= seq![l1@, l2@, l3@]);
            }
        },
        EvalResult::UnifyApp(Err(e)) => {
            let l = line_of(" unify failed: ", e, "");
            out.push(l);
            proof {
                assert(l@ =~= " unify failed: "@ + error_text(e@));
                assert(out@.map_values(|s: String| s@) =~= seq![l@]);
            }
        },
        EvalResult::PrintVal(v) => {
            let l = line_of(" ", v, "");
            out.push(l);
            proof {
                assert(l@ =~= " "@ + MaybeScheme::<Value>::text(v@));
                assert(out@.map_values(|s: String| s@) =~= seq![l@]);
            }
        },
        EvalResult::PrintStmt(st) => {
            let l = line_of(" ", st, "");
            out.push(l);
            proof {
                assert(l@ =~= " "@ + MaybeScheme::<Statement>::text(st@));
                assert(out@.map_values(|s: String| s@) =~= seq![l@]);
            }
        },
        EvalResult::PrintEnv(v) => {
            out = stmt_lines(v, "");
            proof {
                let f = |m: MaybeSchemeV<crate::clause::StatementV>|
                    " "@ + MaybeScheme::<Statement>::text(m) + ""@;
                let g = |m: MaybeSchemeV<crate::clause::StatementV>|
                    " "@ + MaybeScheme::<Statement>::text(m);
                assert forall|m: MaybeSchemeV<crate::clause::StatementV>| #[trigger] f(m) == g(m) by {
                    assert(f(m) =~= g(m));
                }
                assert(crate::ast::stmts_view(v@).map_values(f) =~= crate::ast::stmts_view(v@).map_values(g));
            }
        },
    }
    proof {
        assert(out@.map_values(|s: String| s@) =~= result_lines(r@));
    }
    out
}

} // verus!
