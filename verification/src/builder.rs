//! Declarative construction of expression trees: a template describes the
//! shape, and building it assigns `ExprId`s from a monotonically increasing
//! counter in pre-order (a node receives its id before its children). A tree
//! built this way provably satisfies the id-uniqueness invariant.
use vstd::prelude::*;

use crate::expr::Expr;
use crate::expr::ExprId;
use crate::expr::ExprV;
use crate::expr::views_of;
use crate::expr::lemma_views_of;

verus! {

/// The shape of an expression tree, without ids.
#[derive(Debug)]
pub enum ExprTemplate {
    Hole,
    Comment { text: String },
    Call { function: String, arguments: Vec<ExprTemplate> },
    Lit { kind: String, content: String },
    Var { name: String },
    Do { expressions: Vec<ExprTemplate> },
}

/// The mathematical view of a template.
pub enum TemplateV {
    Hole,
    Comment { text: Seq<char> },
    Call { function: Seq<char>, arguments: Seq<TemplateV> },
    Lit { kind: Seq<char>, content: Seq<char> },
    Var { name: Seq<char> },
    Do { expressions: Seq<TemplateV> },
}

/// The views of a sequence of templates from index `i` on.
pub open spec fn tviews_from(s: Seq<ExprTemplate>, i: int) -> Seq<TemplateV>
    decreases s, s.len() - i,
{
    if i < 0 || i >= s.len() {
        Seq::empty()
    } else {
        seq![s[i]@] + tviews_from(s, i + 1)
    }
}

/// The views of a sequence of templates, element by element.
pub open spec fn tviews_of(s: Seq<ExprTemplate>) -> Seq<TemplateV>
    decreases s, s.len() + 1,
{
    tviews_from(s, 0)
}

impl View for ExprTemplate {
    type V = TemplateV;

    open spec fn view(&self) -> TemplateV
        decreases self, 0int,
    {
        match self {
            ExprTemplate::Hole => TemplateV::Hole,
            ExprTemplate::Comment { text } => TemplateV::Comment { text: text@ },
            ExprTemplate::Call { function, arguments } => TemplateV::Call {
                function: function@,
                arguments: tviews_of(arguments@),
            },
            ExprTemplate::Lit { kind, content } => TemplateV::Lit {
                kind: kind@,
                content: content@,
            },
            ExprTemplate::Var { name } => TemplateV::Var { name: name@ },
            ExprTemplate::Do { expressions } => TemplateV::Do {
                expressions: tviews_of(expressions@),
            },
        }
    }
}

/// `tviews_of(s)` is the pointwise view of `s`.
pub proof fn lemma_tviews_of(s: Seq<ExprTemplate>)
    ensures
        tviews_of(s).len() == s.len(),
        forall|k: int| 0 <= k < s.len() ==> tviews_of(s)[k] == s[k]@,
{
    lemma_tviews_from(s, 0);
}

proof fn lemma_tviews_from(s: Seq<ExprTemplate>, i: int)
    requires
        0 <= i <= s.len(),
    ensures
        tviews_from(s, i).len() == s.len() - i,
        forall|k: int| i <= k < s.len() ==> tviews_from(s, i)[k - i] == s[k]@,
    decreases s.len() - i,
{
    if i < s.len() {
        lemma_tviews_from(s, i + 1);
        assert(tviews_from(s, i) == seq![s[i]@] + tviews_from(s, i + 1));
        assert forall|k: int| i <= k < s.len() implies tviews_from(s, i)[k - i] == s[k]@ by {
            if k > i {
                assert(tviews_from(s, i + 1)[k - (i + 1)] == s[k]@);
            }
        }
    } else {
        assert(tviews_from(s, i) =~= Seq::empty());
    }
}

impl TemplateV {
    /// The template's children (empty for leaf shapes).
    pub open spec fn children(self) -> Seq<TemplateV> {
        match self {
            TemplateV::Call { arguments, .. } => arguments,
            TemplateV::Do { expressions } => expressions,
            _ => Seq::empty(),
        }
    }

    /// How many nodes the template describes.
    pub open spec fn count(self) -> nat
        decreases self, 0int,
    {
        match self {
            TemplateV::Call { arguments, .. } => 1 + Self::count_seq(arguments, 0),
            TemplateV::Do { expressions } => 1 + Self::count_seq(expressions, 0),
            _ => 1,
        }
    }

    /// The node count of the templates of `s` from index `i` on.
    pub open spec fn count_seq(s: Seq<TemplateV>, i: int) -> nat
        decreases s, s.len() - i,
    {
        if i < 0 || i >= s.len() {
            0
        } else {
            s[i].count() + Self::count_seq(s, i + 1)
        }
    }

    /// The tree a template builds when ids are assigned pre-order starting at
    /// `n`, together with the next free id.
    pub open spec fn build_spec(self, n: int) -> (ExprV, int)
        decreases self, 0int,
    {
        match self {
            TemplateV::Hole => (ExprV::Hole { id: ExprId(n as u32) }, n + 1),
            TemplateV::Comment { text } => (ExprV::Comment { id: ExprId(n as u32), text }, n + 1),
            TemplateV::Lit { kind, content } => (
                ExprV::Lit { id: ExprId(n as u32), kind, content },
                n + 1,
            ),
            TemplateV::Var { name } => (ExprV::Var { id: ExprId(n as u32), name }, n + 1),
            TemplateV::Call { function, arguments } => {
                let (cs, n2) = Self::build_seq(arguments, n + 1, 0);
                (ExprV::Call { id: ExprId(n as u32), function, arguments: cs }, n2)
            },
            TemplateV::Do { expressions } => {
                let (cs, n2) = Self::build_seq(expressions, n + 1, 0);
                (ExprV::Do { id: ExprId(n as u32), expressions: cs }, n2)
            },
        }
    }

    /// Build the templates of `s` from index `i` on, threading the counter.
    pub open spec fn build_seq(s: Seq<TemplateV>, n: int, i: int) -> (Seq<ExprV>, int)
        decreases s, s.len() - i,
    {
        if i < 0 || i >= s.len() {
            (Seq::empty(), n)
        } else {
            let (c, n2) = s[i].build_spec(n);
            let (rest, n3) = Self::build_seq(s, n2, i + 1);
            (seq![c] + rest, n3)
        }
    }
}

/// A template always describes at least its own node.
proof fn lemma_count_pos(t: TemplateV)
    ensures
        t.count() >= 1,
{
    match t {
        TemplateV::Call { .. } => {},
        TemplateV::Do { .. } => {},
        _ => {},
    }
}

/// Building consumes exactly `count` ids.
pub proof fn lemma_build_next(t: TemplateV, n: int)
    ensures
        t.build_spec(n).1 == n + t.count(),
    decreases t, 0int,
{
    match t {
        TemplateV::Call { arguments, .. } => lemma_build_next_seq(arguments, n + 1, 0),
        TemplateV::Do { expressions } => lemma_build_next_seq(expressions, n + 1, 0),
        _ => {},
    }
}

proof fn lemma_build_next_seq(s: Seq<TemplateV>, n: int, i: int)
    ensures
        TemplateV::build_seq(s, n, i).1 == n + TemplateV::count_seq(s, i),
    decreases s, s.len() - i,
{
    if 0 <= i && i < s.len() {
        lemma_build_next_node(s[i], n);
        lemma_build_next_seq(s, s[i].build_spec(n).1, i + 1);
    }
}

proof fn lemma_build_next_node(t: TemplateV, n: int)
    ensures
        t.build_spec(n).1 == n + t.count(),
    decreases t, 1int,
{
    lemma_build_next(t, n);
}

/// The pre-order ids of a built tree are exactly the consecutive range
/// starting at the counter's value.
pub proof fn lemma_build_ids(t: TemplateV, n: int)
    requires
        0 <= n,
        n + t.count() <= u32::MAX,
    ensures
        t.build_spec(n).0.all_ids() == Seq::new(t.count(), |k: int| ExprId((n + k) as u32)),
    decreases t, 0int,
{
    let ids = t.build_spec(n).0.all_ids();
    let want = Seq::new(t.count(), |k: int| ExprId((n + k) as u32));
    match t {
        TemplateV::Call { arguments, .. } => {
            lemma_build_next_seq(arguments, n + 1, 0);
            lemma_build_ids_seq(arguments, n + 1, 0);
            assert(ids =~= want);
        },
        TemplateV::Do { expressions } => {
            lemma_build_next_seq(expressions, n + 1, 0);
            lemma_build_ids_seq(expressions, n + 1, 0);
            assert(ids =~= want);
        },
        _ => {
            assert(ids =~= want);
        },
    }
}

proof fn lemma_build_ids_seq(s: Seq<TemplateV>, n: int, i: int)
    requires
        0 <= n,
        n + TemplateV::count_seq(s, i) <= u32::MAX,
    ensures
        ExprV::all_ids_seq(TemplateV::build_seq(s, n, i).0, 0) == Seq::new(
            TemplateV::count_seq(s, i),
            |k: int| ExprId((n + k) as u32),
        ),
    decreases s, s.len() - i,
{
    if i < 0 || 0 <= i && i >= s.len() {
        assert(ExprV::all_ids_seq(Seq::<ExprV>::empty(), 0) =~= Seq::new(
            0,
            |k: int| ExprId((n + k) as u32),
        ));
    } else {
        let (c, n2) = s[i].build_spec(n);
        let (rest, n3) = TemplateV::build_seq(s, n2, i + 1);
        lemma_build_next_node(s[i], n);
        lemma_build_next_seq(s, n2, i + 1);
        lemma_build_ids_node(s[i], n);
        lemma_build_ids_seq(s, n2, i + 1);
        assert(ExprV::all_ids_seq(seq![c] + rest, 0) == c.all_ids() + ExprV::all_ids_seq(rest, 0))
            by {
            lemma_all_ids_front(c, rest);
        }
        assert(ExprV::all_ids_seq(TemplateV::build_seq(s, n, i).0, 0) =~= Seq::new(
            TemplateV::count_seq(s, i),
            |k: int| ExprId((n + k) as u32),
        ));
    }
}

proof fn lemma_build_ids_node(t: TemplateV, n: int)
    requires
        0 <= n,
        n + t.count() <= u32::MAX,
    ensures
        t.build_spec(n).0.all_ids() == Seq::new(t.count(), |k: int| ExprId((n + k) as u32)),
    decreases t, 1int,
{
    lemma_build_ids(t, n);
}

/// Peeling the first tree off an id traversal of a child list.
proof fn lemma_all_ids_front(c: ExprV, rest: Seq<ExprV>)
    ensures
        ExprV::all_ids_seq(seq![c] + rest, 0) == c.all_ids() + ExprV::all_ids_seq(rest, 0),
{
    let s = seq![c] + rest;
    assert(s[0] == c);
    assert(ExprV::all_ids_seq(s, 0) == s[0].all_ids() + ExprV::all_ids_seq(s, 1));
    crate::expr::lemma_all_ids_seq_congruence(s, 1, rest, 0);
}

/// Every tree built from a template is valid: its pre-order ids are
/// consecutive, hence pairwise distinct.
pub proof fn lemma_build_valid(t: TemplateV, n: int)
    requires
        0 <= n,
        n + t.count() <= u32::MAX,
    ensures
        t.build_spec(n).0.valid(),
{
    lemma_build_ids(t, n);
    let ids = t.build_spec(n).0.all_ids();
    assert forall|i: int, j: int|
        0 <= i < ids.len() && 0 <= j < ids.len() && i != j implies ids[i] != ids[j] by {
        assert(n + i <= u32::MAX && n + j <= u32::MAX);
        assert(ids[i] == ExprId((n + i) as u32) && ids[j] == ExprId((n + j) as u32));
    }
}

impl ExprTemplate {
    /// The template's children as exec values (empty for leaf shapes).
    pub open spec fn spec_children(&self) -> Seq<ExprTemplate> {
        match self {
            ExprTemplate::Call { arguments, .. } => arguments@,
            ExprTemplate::Do { expressions } => expressions@,
            _ => Seq::empty(),
        }
    }

    /// Build the expression tree this template describes, assigning ids from
    /// `next` in pre-order. The resulting tree always satisfies the
    /// id-uniqueness invariant; this is proved, so no run-time check is
    /// needed.
    pub fn build(&self, next: &mut u32) -> (r: Expr)
        requires
            *old(next) + self@.count() <= u32::MAX,
        ensures
            r@ == self@.build_spec(*old(next) as int).0,
            *final(next) == *old(next) + self@.count(),
            r@.valid(),
        decreases self, 1int,
    {
        proof {
            lemma_count_pos(self@);
            lemma_build_valid(self@, *old(next) as int);
            lemma_build_next(self@, *old(next) as int);
        }
        let id = ExprId(*next);
        *next = *next + 1;
        match self {
            ExprTemplate::Hole => Expr::Hole { id },
            ExprTemplate::Comment { text } => Expr::Comment { id, text: text.clone() },
            ExprTemplate::Lit { kind, content } => Expr::Lit {
                id,
                kind: kind.clone(),
                content: content.clone(),
            },
            ExprTemplate::Var { name } => Expr::Var { id, name: name.clone() },
            ExprTemplate::Call { function, arguments } => {
                let built = build_children(self, arguments, next);
                Expr::Call { id, function: function.clone(), arguments: built }
            },
            ExprTemplate::Do { expressions } => {
                let built = build_children(self, expressions, next);
                Expr::Do { id, expressions: built }
            },
        }
    }
}

/// A template's child is structurally smaller than the template.
proof fn lemma_tpl_child_smaller(t: ExprTemplate, i: int)
    requires
        0 <= i < t.spec_children().len(),
    ensures
        decreases_to!(t => t.spec_children()[i]),
{
    match t {
        ExprTemplate::Call { .. } => {
            assert(decreases_to!(t => t->Call_arguments@[i]));
        },
        ExprTemplate::Do { .. } => {
            assert(decreases_to!(t => t->Do_expressions@[i]));
        },
        _ => {},
    }
}

/// Build every child template in order, threading the id counter.
fn build_children(parent: &ExprTemplate, arguments: &Vec<ExprTemplate>, next: &mut u32) -> (r: Vec<
    Expr,
>)
    requires
        arguments@ == parent.spec_children(),
        *old(next) + TemplateV::count_seq(tviews_of(arguments@), 0) <= u32::MAX,
    ensures
        ({
            let (cs, n2) = TemplateV::build_seq(tviews_of(arguments@), *old(next) as int, 0);
            views_of(r@) == cs && *final(next) == n2
        }),
    decreases parent, 0int,
{
    let ghost tvs = tviews_of(arguments@);
    let ghost n0 = *old(next) as int;
    let ghost full = TemplateV::build_seq(tvs, n0, 0);
    proof {
        lemma_tviews_of(arguments@);
        lemma_build_next_seq(tvs, n0, 0);
    }
    let mut out: Vec<Expr> = Vec::new();
    let n = arguments.len();
    let mut i: usize = 0;
    while i < n
        invariant
            n == arguments@.len(),
            arguments@ == parent.spec_children(),
            tvs == tviews_of(arguments@),
            tvs.len() == n,
            forall|k: int| 0 <= k < n ==> tvs[k] == arguments@[k]@,
            full == TemplateV::build_seq(tvs, n0, 0),
            full.1 <= u32::MAX,
            out@.len() == i,
            views_of(out@) + TemplateV::build_seq(tvs, *next as int, i as int).0 == full.0,
            TemplateV::build_seq(tvs, *next as int, i as int).1 == full.1,
        decreases n - i,
    {
        proof {
            lemma_tpl_child_smaller(*parent, i as int);
            lemma_build_next_seq(tvs, *next as int, i as int);
            lemma_build_next_node(tvs[i as int], *next as int);
            lemma_build_next_seq(tvs, tvs[i as int].build_spec(*next as int).1, i + 1);
        }
        let ghost n_before = *next as int;
        let child = arguments[i].build(next);
        proof {
            lemma_views_of(out@.push(child));
            lemma_views_of(out@);
            assert(views_of(out@.push(child)) =~= views_of(out@) + seq![child@]);
            assert((views_of(out@) + seq![child@]) + TemplateV::build_seq(
                tvs,
                *next as int,
                i + 1,
            ).0 =~= views_of(out@) + (seq![child@] + TemplateV::build_seq(tvs, *next as int, i + 1).0));
        }
        out.push(child);
        i = i + 1;
    }
    proof {
        assert(views_of(out@) + Seq::<ExprV>::empty() =~= views_of(out@));
    }
    out
}

} // verus!
