//! Textual display of expressions: `print(n, 1)`, `{a, b}`, `/* note */`,
//! `42:int`, `?`. Argument and block lists are joined with a comma
//! separator.
use itertools::Itertools;
use vstd::prelude::*;

use crate::expr::Expr;
use crate::expr::ExprV;
use crate::expr::lemma_child_smaller;
use crate::expr::lemma_views_of;
use crate::expr::views_of;
use vstd::string::StringExecFns;

verus! {

/// The pieces of `parts` joined with `sep` between them.
pub open spec fn spec_join(parts: Seq<Seq<char>>, sep: Seq<char>) -> Seq<char>
    decreases parts.len(),
{
    if parts.len() == 0 {
        Seq::empty()
    } else if parts.len() == 1 {
        parts[0]
    } else {
        parts[0] + sep + spec_join(parts.drop_first(), sep)
    }
}

/// Relies on itertools' `Itertools::join`: it writes every item of the
/// iterator in order with `sep` between each pair; for strings that is
/// exactly the concatenation with separators.
#[verifier::external_body]
fn join_with(parts: &Vec<String>, sep: &str) -> (r: String)
    ensures
        r@ == spec_join(parts@.map_values(|p: String| p@), sep@),
{
    parts.iter().join(sep)
}

/// The textual display of a tree.
pub open spec fn spec_text(e: ExprV) -> Seq<char>
    decreases e, 0int,
{
    match e {
        ExprV::Hole { .. } => "?"@,
        ExprV::Comment { text, .. } => "/* "@ + text + " */"@,
        ExprV::Var { name, .. } => name,
        ExprV::Lit { kind, content, .. } => content + ":"@ + kind,
        ExprV::Call { function, arguments, .. } => function + "("@ + spec_join(
            spec_texts(arguments, 0),
            ", "@,
        ) + ")"@,
        ExprV::Do { expressions, .. } => "{"@ + spec_join(spec_texts(expressions, 0), ", "@)
            + "}"@,
    }
}

/// The textual displays of the trees of `s` from index `i` on.
pub open spec fn spec_texts(s: Seq<ExprV>, i: int) -> Seq<Seq<char>>
    decreases s, s.len() - i,
{
    if i < 0 || i >= s.len() {
        Seq::empty()
    } else {
        seq![spec_text(s[i])] + spec_texts(s, i + 1)
    }
}

/// Pointwise reading of `spec_texts` from the start.
proof fn lemma_spec_texts0(s: Seq<ExprV>)
    ensures
        spec_texts(s, 0).len() == s.len(),
        forall|k: int| 0 <= k < s.len() ==> spec_texts(s, 0)[k] == spec_text(s[k]),
{
    lemma_spec_texts(s, 0);
    assert forall|k: int| 0 <= k < s.len() implies spec_texts(s, 0)[k] == spec_text(s[k]) by {
        assert(spec_texts(s, 0)[k - 0] == spec_text(s[k]));
    }
}

/// Pointwise reading of `spec_texts`.
proof fn lemma_spec_texts(s: Seq<ExprV>, i: int)
    requires
        0 <= i <= s.len(),
    ensures
        spec_texts(s, i).len() == s.len() - i,
        forall|k: int| i <= k < s.len() ==> spec_texts(s, i)[k - i] == spec_text(s[k]),
    decreases s.len() - i,
{
    if i < s.len() {
        lemma_spec_texts(s, i + 1);
        assert forall|k: int| i <= k < s.len() implies spec_texts(s, i)[k - i] == spec_text(
            s[k],
        ) by {
            if k > i {
                assert(spec_texts(s, i + 1)[k - (i + 1)] == spec_text(s[k]));
            }
        }
    }
}

impl Expr {
    /// Render the expression as text.
    pub fn to_text(&self) -> (r: String)
        ensures
            r@ == spec_text(self@),
        decreases self, 1int,
    {
        match self {
            Expr::Hole { .. } => "?".to_owned(),
            Expr::Comment { text, .. } => {
                let mut s = "/* ".to_owned();
                s.append(text.as_str());
                s.append(" */");
                s
            },
            Expr::Var { name, .. } => name.clone(),
            Expr::Lit { kind, content, .. } => {
                let mut s = content.clone();
                s.append(":");
                s.append(kind.as_str());
                s
            },
            Expr::Call { function, arguments, .. } => {
                let parts = texts_of_children(self, arguments);
                let joined = join_with(&parts, ", ");
                let mut s = function.clone();
                s.append("(");
                s.append(joined.as_str());
                s.append(")");
                proof {
                    lemma_views_of(arguments@);
                    lemma_spec_texts0(views_of(arguments@));
                    assert(parts@.map_values(|p: String| p@) =~= spec_texts(
                        views_of(arguments@),
                        0,
                    ));
                }
                s
            },
            Expr::Do { expressions, .. } => {
                let parts = texts_of_children(self, expressions);
                let joined = join_with(&parts, ", ");
                let mut s = "{".to_owned();
                s.append(joined.as_str());
                s.append("}");
                proof {
                    lemma_views_of(expressions@);
                    lemma_spec_texts0(views_of(expressions@));
                    assert(parts@.map_values(|p: String| p@) =~= spec_texts(
                        views_of(expressions@),
                        0,
                    ));
                }
                s
            },
        }
    }
}

/// The text of every child of `parent`, in order.
fn texts_of_children(parent: &Expr, arguments: &Vec<Expr>) -> (r: Vec<String>)
    requires
        arguments@ == parent.spec_children(),
    ensures
        r@.len() == arguments@.len(),
        forall|k: int| 0 <= k < arguments@.len() ==> #[trigger] r@[k]@ == spec_text(
            arguments@[k]@,
        ),
    decreases parent, 0int,
{
    let mut out: Vec<String> = Vec::new();
    let n = arguments.len();
    let mut i: usize = 0;
    while i < n
        invariant
            n == arguments@.len(),
            arguments@ == parent.spec_children(),
            out@.len() == i,
            i <= n,
            forall|k: int| 0 <= k < i ==> #[trigger] out@[k]@ == spec_text(arguments@[k]@),
        decreases n - i,
    {
        proof {
            lemma_child_smaller(*parent, i as int);
        }
        out.push(arguments[i].to_text());
        i = i + 1;
    }
    out
}

} // verus!
