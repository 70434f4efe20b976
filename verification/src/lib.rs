pub mod ast;
pub mod bind;
pub mod clause;
pub mod env;
pub mod error;
pub mod eval;
pub mod numeric;
pub mod numeric_unifier;
pub mod parse;
pub mod pred;
pub mod repl;
pub mod scheme;
pub mod search;
pub mod sub;
pub mod subst;
pub mod term;
pub mod text;
pub mod thing;
pub mod unifier;
pub mod unify;
pub mod var;
pub mod written;

pub use bind::{Bind, BindV, MaybeBind, MaybeBindV};
pub use clause::{Clause, ClauseV, Statement, StatementV};
pub use env::{Env, Solver, Step};
pub use error::{Error, ErrorV};
pub use eval::{EvalResult, Evaluator};
pub use numeric::{BinaryOp, NumV, Numeric, UnaryOp};
pub use pred::{App, AppV, Pred, PredV, RcPred};
pub use scheme::{MaybeScheme, MaybeSchemeV, Scheme, SchemeV};
pub use sub::{Sub, SubV};
pub use term::{List, ListV, Tail, TailV, Tuple, Value, ValueV};
pub use text::Show;
pub use thing::{Thing, Unify};
pub use var::{Var, VarSource, VarV};
