//! The expression tree: node variants, stable identity, traversal, and
//! identity-preserving mutation (find / update / remove by id).
//!
//! A tree is *valid* iff a pre-order traversal visits no `ExprId` twice; all
//! mutation contracts are stated over the mathematical view [`ExprV`], whose
//! children are `Seq`s.
use vstd::multiset::Multiset;
use vstd::prelude::*;

verus! {

/// A unique number identifying an expression node within one tree.
#[derive(Debug, Clone, Copy, PartialEq, Eq, Hash, Structural)]
pub struct ExprId(pub u32);

impl ExprId {
    pub fn from_raw(id: u32) -> (r: Self)
        ensures
            r == ExprId(id),
    {
        ExprId(id)
    }
}

/// One node of the expression tree. `Call` and `Do` own their children;
/// every node carries its own `ExprId`.
#[derive(Debug)]
pub enum Expr {
    /// A placeholder for an expression yet to be written.
    Hole { id: ExprId },
    /// A free-standing comment.
    Comment { id: ExprId, text: String },
    /// A function call with ordered arguments.
    Call { id: ExprId, function: String, arguments: Vec<Expr> },
    /// A literal, tagged with the kind of value it denotes.
    Lit { id: ExprId, kind: String, content: String },
    /// A variable reference.
    Var { id: ExprId, name: String },
    /// A group of expressions run in order, like progn.
    Do { id: ExprId, expressions: Vec<Expr> },
}

/// The mathematical view of an expression tree: strings become `Seq<char>`
/// and child vectors become `Seq<ExprV>`.
pub enum ExprV {
    Hole { id: ExprId },
    Comment { id: ExprId, text: Seq<char> },
    Call { id: ExprId, function: Seq<char>, arguments: Seq<ExprV> },
    Lit { id: ExprId, kind: Seq<char>, content: Seq<char> },
    Var { id: ExprId, name: Seq<char> },
    Do { id: ExprId, expressions: Seq<ExprV> },
}

/// The views of a sequence of trees, element by element, from index `i` on.
pub open spec fn views_from(s: Seq<Expr>, i: int) -> Seq<ExprV>
    decreases s, s.len() - i,
{
    if i < 0 || i >= s.len() {
        Seq::empty()
    } else {
        seq![s[i]@] + views_from(s, i + 1)
    }
}

/// The views of a sequence of trees, element by element.
pub open spec fn views_of(s: Seq<Expr>) -> Seq<ExprV>
    decreases s, s.len() + 1,
{
    views_from(s, 0)
}

impl View for Expr {
    type V = ExprV;

    open spec fn view(&self) -> ExprV
        decreases self, 0int,
    {
        match self {
            Expr::Hole { id } => ExprV::Hole { id: *id },
            Expr::Comment { id, text } => ExprV::Comment { id: *id, text: text@ },
            Expr::Call { id, function, arguments } => ExprV::Call {
                id: *id,
                function: function@,
                arguments: views_of(arguments@),
            },
            Expr::Lit { id, kind, content } => ExprV::Lit {
                id: *id,
                kind: kind@,
                content: content@,
            },
            Expr::Var { id, name } => ExprV::Var { id: *id, name: name@ },
            Expr::Do { id, expressions } => ExprV::Do {
                id: *id,
                expressions: views_of(expressions@),
            },
        }
    }
}

pub broadcast proof fn lemma_views_from(s: Seq<Expr>, i: int)
    requires
        0 <= i <= s.len(),
    ensures
        (#[trigger] views_from(s, i)).len() == s.len() - i,
        forall|k: int| i <= k < s.len() ==> views_from(s, i)[k - i] == s[k]@,
    decreases s.len() - i,
{
    if i < s.len() {
        lemma_views_from(s, i + 1);
        assert(views_from(s, i) == seq![s[i]@] + views_from(s, i + 1));
        assert forall|k: int| i <= k < s.len() implies views_from(s, i)[k - i] == s[k]@ by {
            if k > i {
                assert(views_from(s, i + 1)[k - (i + 1)] == s[k]@);
            }
        }
    } else {
        assert(views_from(s, i) =~= Seq::empty());
    }
}

/// `views_of(s)` is the pointwise view of `s`.
pub broadcast proof fn lemma_views_of(s: Seq<Expr>)
    ensures
        (#[trigger] views_of(s)).len() == s.len(),
        forall|k: int| 0 <= k < s.len() ==> views_of(s)[k] == s[k]@,
{
    lemma_views_from(s, 0);
}

impl Expr {
    /// The node's own identity.
    pub open spec fn spec_id(&self) -> ExprId {
        self@.id()
    }

    #[verifier::when_used_as_spec(spec_id)]
    pub fn id(&self) -> (r: ExprId)
        ensures
            r == self@.id(),
    {
        match self {
            Expr::Hole { id } => *id,
            Expr::Comment { id, .. } => *id,
            Expr::Call { id, .. } => *id,
            Expr::Lit { id, .. } => *id,
            Expr::Var { id, .. } => *id,
            Expr::Do { id, .. } => *id,
        }
    }

    /// The node's children as exec trees (empty for leaf variants).
    pub open spec fn spec_children(&self) -> Seq<Expr> {
        match self {
            Expr::Call { arguments, .. } => arguments@,
            Expr::Do { expressions, .. } => expressions@,
            _ => Seq::empty(),
        }
    }

    /// The natural child list, empty for leaf variants.
    pub fn childeren(&self) -> (r: &[Expr])
        ensures
            r@ == self.spec_children(),
    {
        match self {
            Expr::Call { arguments, .. } => arguments.as_slice(),
            Expr::Do { expressions, .. } => expressions.as_slice(),
            _ => &[],
        }
    }

    /// The mutable child list of a `Call` or `Do` node; leaf variants have
    /// none. The node keeps its identity and other fields, whatever the
    /// caller does to the list.
    pub fn childeren_mut(&mut self) -> (r: Option<&mut Vec<Expr>>)
        ensures
            match r {
                None => *final(self) == *old(self) && old(self).spec_children().len() == 0,
                Some(v) => {
                    &&& (*v)@ == old(self).spec_children()
                    &&& ((*old(self)) is Call ==> *final(self) == (Expr::Call {
                        id: (*old(self))->Call_id,
                        function: (*old(self))->Call_function,
                        arguments: *final(v),
                    }))
                    &&& ((*old(self)) is Do ==> *final(self) == (Expr::Do {
                        id: (*old(self))->Do_id,
                        expressions: *final(v),
                    }))
                    &&& ((*old(self)) is Call || (*old(self)) is Do)
                },
            },
    {
        match self {
            Expr::Call { arguments, .. } => Some(arguments),
            Expr::Do { expressions, .. } => Some(expressions),
            _ => None,
        }
    }

    /// Pre-order search for the node carrying `id`; first match wins.
    pub fn find_by_id(&self, id: ExprId) -> (r: Option<&Expr>)
        ensures
            match r {
                Some(n) => self@.find(id) == Some(n@) && n@.id() == id,
                None => self@.find(id) is None,
            },
        decreases self,
    {
        if self.id() == id {
            proof {
                lemma_find_id(self@, id);
            }
            return Some(self);
        }
        let cs = self.childeren();
        let ghost vs = self@.children();
        proof {
            lemma_views_of(cs@);
            assert(vs =~= views_of(cs@));
        }
        let n = cs.len();
        let mut i: usize = 0;
        while i < n
            invariant
                cs@ == self.spec_children(),
                n == cs@.len(),
                vs.len() == n,
                forall|k: int| 0 <= k < n ==> vs[k] == cs[k]@,
                ExprV::find_seq(vs, id, 0) == ExprV::find_seq(vs, id, i as int),
                self@.find(id) == ExprV::find_seq(vs, id, 0),
            decreases n - i,
        {
            proof {
                lemma_child_smaller(*self, i as int);
            }
            let found = cs[i].find_by_id(id);
            if let Some(node) = found {
                proof {
                    lemma_find_id(self@, id);
                }
                return Some(node);
            }
            i = i + 1;
        }
        None
    }

    /// Every `ExprId` in the tree, in pre-order.
    pub open spec fn all_ids(&self) -> Seq<ExprId> {
        self@.all_ids()
    }

    /// Verify the integrity of an expression tree: no id appears twice in a
    /// pre-order traversal.
    pub fn valid(&self) -> (r: bool)
        ensures
            r == self@.valid(),
    {
        let mut ids: Vec<ExprId> = Vec::new();
        self.collect_ids(&mut ids);
        let n = ids.len();
        let mut i: usize = 0;
        while i < n
            invariant
                n == ids.len(),
                ids@ == self@.all_ids(),
                forall|p: int, q: int| 0 <= p < q < ids@.len() && p < i ==> ids@[p] != ids@[q],
            decreases n - i,
        {
            let mut j: usize = i + 1;
            while j < n
                invariant
                    i < j,
                    i < n,
                    n == ids.len(),
                    ids@ == self@.all_ids(),
                    forall|q: int| i < q < j ==> ids@[i as int] != ids@[q],
                decreases n - j,
            {
                if ids[i] == ids[j] {
                    assert(0 <= i < j < ids@.len() && ids@[i as int] == ids@[j as int]);
                    assert(!ids@.no_duplicates());
                    return false;
                }
                j = j + 1;
            }
            i = i + 1;
        }
        true
    }

    /// Append the tree's pre-order ids to `out`.
    fn collect_ids(&self, out: &mut Vec<ExprId>)
        ensures
            final(out)@ == old(out)@ + self@.all_ids(),
        decreases self,
    {
        out.push(self.id());
        let ghost mid = out@;
        let cs = self.childeren();
        let ghost vs = self@.children();
        proof {
            lemma_views_of(cs@);
            assert(vs =~= views_of(cs@));
        }
        let n = cs.len();
        let mut i: usize = 0;
        while i < n
            invariant
                cs@ == self.spec_children(),
                n == cs@.len(),
                vs.len() == n,
                forall|k: int| 0 <= k < n ==> vs[k] == cs[k]@,
                out@ + ExprV::all_ids_seq(vs, i as int) == mid + ExprV::all_ids_seq(vs, 0),
            decreases n - i,
        {
            proof {
                lemma_child_smaller(*self, i as int);
            }
            let ghost before = out@;
            cs[i].collect_ids(out);
            proof {
                assert(out@ + ExprV::all_ids_seq(vs, i + 1) =~= (before + cs[i as int]@.all_ids())
                    + ExprV::all_ids_seq(vs, i + 1));
                assert((before + cs[i as int]@.all_ids()) + ExprV::all_ids_seq(vs, i + 1)
                    =~= before + (vs[i as int].all_ids() + ExprV::all_ids_seq(vs, i + 1)));
                assert(vs[i as int].all_ids() + ExprV::all_ids_seq(vs, i + 1) == ExprV::all_ids_seq(
                    vs,
                    i as int,
                ));
            }
            i = i + 1;
        }
        proof {
            assert(self@.all_ids() == seq![self@.id()] + ExprV::all_ids_seq(vs, 0)) by {
                lemma_all_ids_unfold(*self);
            }
            assert(ExprV::all_ids_seq(vs, n as int) =~= Seq::empty());
            assert(out@ + Seq::<ExprId>::empty() =~= out@);
            assert(mid =~= old(out)@ + seq![self@.id()]);
            assert(old(out)@ + (seq![self@.id()] + ExprV::all_ids_seq(vs, 0)) =~= (old(out)@
                + seq![self@.id()]) + ExprV::all_ids_seq(vs, 0));
        }
    }
}

/// `all_ids` of a node is its own id followed by its children's ids.
proof fn lemma_all_ids_unfold(e: Expr)
    ensures
        e@.all_ids() == seq![e@.id()] + ExprV::all_ids_seq(e@.children(), 0),
{
    match e {
        Expr::Call { .. } => {},
        Expr::Do { .. } => {},
        _ => {
            assert(e@.all_ids() =~= seq![e@.id()] + ExprV::all_ids_seq(e@.children(), 0));
        },
    }
}

/// A child is structurally smaller than its parent, for termination of
/// recursive traversals.
pub proof fn lemma_child_smaller(e: Expr, i: int)
    requires
        0 <= i < e.spec_children().len(),
    ensures
        decreases_to!(e => e.spec_children()[i]),
{
    match e {
        Expr::Call { .. } => {
            assert(decreases_to!(e => e->Call_arguments@[i]));
        },
        Expr::Do { .. } => {
            assert(decreases_to!(e => e->Do_expressions@[i]));
        },
        _ => {},
    }
}

/// When `find` succeeds, the node it returns carries the id it was asked for.
pub proof fn lemma_find_id(e: ExprV, id: ExprId)
    ensures
        e.find(id) matches Some(n) ==> n.id() == id,
    decreases e, 0int,
{
    if e.id() != id {
        match e {
            ExprV::Call { arguments, .. } => lemma_find_seq_id(arguments, id, 0),
            ExprV::Do { expressions, .. } => lemma_find_seq_id(expressions, id, 0),
            _ => {},
        }
    }
}

proof fn lemma_find_seq_id(s: Seq<ExprV>, id: ExprId, i: int)
    ensures
        ExprV::find_seq(s, id, i) matches Some(n) ==> n.id() == id,
    decreases s, s.len() - i,
{
    if 0 <= i && i < s.len() {
        lemma_find_id(s[i], id);
        lemma_find_seq_id(s, id, i + 1);
    }
}

impl ExprV {
    /// The node's identity.
    pub open spec fn id(self) -> ExprId {
        match self {
            ExprV::Hole { id } => id,
            ExprV::Comment { id, .. } => id,
            ExprV::Call { id, .. } => id,
            ExprV::Lit { id, .. } => id,
            ExprV::Var { id, .. } => id,
            ExprV::Do { id, .. } => id,
        }
    }

    /// The node's children (empty for leaf variants).
    pub open spec fn children(self) -> Seq<ExprV> {
        match self {
            ExprV::Call { arguments, .. } => arguments,
            ExprV::Do { expressions, .. } => expressions,
            _ => Seq::empty(),
        }
    }

    /// Every id in the tree, in pre-order.
    pub open spec fn all_ids(self) -> Seq<ExprId>
        decreases self, 0int,
    {
        match self {
            ExprV::Call { id, arguments, .. } => seq![id] + Self::all_ids_seq(arguments, 0),
            ExprV::Do { id, expressions } => seq![id] + Self::all_ids_seq(expressions, 0),
            _ => seq![self.id()],
        }
    }

    /// The ids of the trees of `s` from index `i` on, in pre-order.
    pub open spec fn all_ids_seq(s: Seq<ExprV>, i: int) -> Seq<ExprId>
        decreases s, s.len() - i,
    {
        if i < 0 || i >= s.len() {
            Seq::empty()
        } else {
            s[i].all_ids() + Self::all_ids_seq(s, i + 1)
        }
    }

    /// A tree is valid iff a pre-order traversal visits no id twice.
    pub open spec fn valid(self) -> bool {
        self.all_ids().no_duplicates()
    }

    /// Pre-order search: the node itself first, then each child in order.
    pub open spec fn find(self, id: ExprId) -> Option<ExprV>
        decreases self, 0int,
    {
        if self.id() == id {
            Some(self)
        } else {
            match self {
                ExprV::Call { arguments, .. } => Self::find_seq(arguments, id, 0),
                ExprV::Do { expressions, .. } => Self::find_seq(expressions, id, 0),
                _ => None,
            }
        }
    }

    /// Pre-order search through the trees of `s` from index `i` on.
    pub open spec fn find_seq(s: Seq<ExprV>, id: ExprId, i: int) -> Option<ExprV>
        decreases s, s.len() - i,
    {
        if i < 0 || i >= s.len() {
            None
        } else if s[i].find(id) is Some {
            s[i].find(id)
        } else {
            Self::find_seq(s, id, i + 1)
        }
    }

    /// Whether some node of the tree carries `id`.
    pub open spec fn has(self, id: ExprId) -> bool {
        self.find(id) is Some
    }

    /// Detach the first pre-order *descendant* carrying `target` from its
    /// parent's child list, shifting siblings; the node itself is never
    /// removed. Returns the new tree and the removed subtree, if any.
    pub open spec fn remove_desc(self, target: ExprId) -> (ExprV, Option<ExprV>)
        decreases self, 0int,
    {
        match self {
            ExprV::Call { id, function, arguments } => {
                let (s2, r) = Self::remove_seq(arguments, target, 0);
                (ExprV::Call { id, function, arguments: s2 }, r)
            },
            ExprV::Do { id, expressions } => {
                let (s2, r) = Self::remove_seq(expressions, target, 0);
                (ExprV::Do { id, expressions: s2 }, r)
            },
            _ => (self, None),
        }
    }

    /// Removal search through the trees of `s` from index `i` on.
    pub open spec fn remove_seq(s: Seq<ExprV>, target: ExprId, i: int) -> (
        Seq<ExprV>,
        Option<ExprV>,
    )
        decreases s, s.len() - i,
    {
        if i < 0 || i >= s.len() {
            (s, None)
        } else if s[i].id() == target {
            (s.remove(i), Some(s[i]))
        } else {
            let (c, r) = s[i].remove_desc(target);
            if r is Some {
                (s.update(i, c), r)
            } else {
                Self::remove_seq(s, target, i + 1)
            }
        }
    }

    /// Replace the editable text field of every topmost node carrying
    /// `target`: a call's function name, a comment's text, a literal's
    /// content, or a variable's name. `Do` and `Hole` have no editable text
    /// and stay unchanged.
    pub open spec fn with_text(self, target: ExprId, t: Seq<char>) -> ExprV
        decreases self, 0int,
    {
        if self.id() == target {
            match self {
                ExprV::Call { id, function, arguments } => ExprV::Call {
                    id,
                    function: t,
                    arguments,
                },
                ExprV::Comment { id, text } => ExprV::Comment { id, text: t },
                ExprV::Lit { id, kind, content } => ExprV::Lit { id, kind, content: t },
                ExprV::Var { id, name } => ExprV::Var { id, name: t },
                _ => self,
            }
        } else {
            match self {
                ExprV::Call { id, function, arguments } => ExprV::Call {
                    id,
                    function,
                    arguments: Self::with_text_seq(arguments, target, t, 0),
                },
                ExprV::Do { id, expressions } => ExprV::Do {
                    id,
                    expressions: Self::with_text_seq(expressions, target, t, 0),
                },
                _ => self,
            }
        }
    }

    /// `with_text` applied to every tree of `s` from index `i` on.
    pub open spec fn with_text_seq(s: Seq<ExprV>, target: ExprId, t: Seq<char>, i: int) -> Seq<
        ExprV,
    >
        decreases s, s.len() - i,
    {
        if i < 0 || i >= s.len() {
            s
        } else {
            Self::with_text_seq(s, target, t, i + 1).update(i, s[i].with_text(target, t))
        }
    }
}

/// Pointwise reading of `with_text_seq`.
proof fn lemma_with_text_seq(s: Seq<ExprV>, target: ExprId, t: Seq<char>, i: int)
    requires
        0 <= i <= s.len(),
    ensures
        ExprV::with_text_seq(s, target, t, i).len() == s.len(),
        forall|k: int|
            i <= k < s.len() ==> ExprV::with_text_seq(s, target, t, i)[k] == s[k].with_text(
                target,
                t,
            ),
        forall|k: int| 0 <= k < i ==> ExprV::with_text_seq(s, target, t, i)[k] == s[k],
    decreases s.len() - i,
{
    if i < s.len() {
        lemma_with_text_seq(s, target, t, i + 1);
    }
}

/// When the removal search finds nothing, the tree is returned unchanged.
pub proof fn lemma_remove_none(e: ExprV, target: ExprId)
    ensures
        e.remove_desc(target).1 is None ==> e.remove_desc(target).0 == e,
    decreases e, 0int,
{
    match e {
        ExprV::Call { arguments, .. } => lemma_remove_seq_none(arguments, target, 0),
        ExprV::Do { expressions, .. } => lemma_remove_seq_none(expressions, target, 0),
        _ => {},
    }
}

proof fn lemma_remove_seq_none(s: Seq<ExprV>, target: ExprId, i: int)
    ensures
        ExprV::remove_seq(s, target, i).1 is None ==> ExprV::remove_seq(s, target, i).0 == s,
    decreases s, s.len() - i,
{
    if 0 <= i && i < s.len() {
        lemma_remove_seq_none(s, target, i + 1);
    }
}

/// The removal search succeeds exactly where the pre-order search through the
/// children succeeds.
pub proof fn lemma_remove_found(e: ExprV, target: ExprId)
    ensures
        e.remove_desc(target).1 is Some <==> (e.id() != target && e.has(target)) || (e.id()
            == target && ExprV::find_seq(e.children(), target, 0) is Some),
    decreases e, 0int,
{
    match e {
        ExprV::Call { arguments, .. } => lemma_remove_seq_found(arguments, target, 0),
        ExprV::Do { expressions, .. } => lemma_remove_seq_found(expressions, target, 0),
        _ => {},
    }
}

proof fn lemma_remove_seq_found(s: Seq<ExprV>, target: ExprId, i: int)
    ensures
        ExprV::remove_seq(s, target, i).1 is Some <==> ExprV::find_seq(s, target, i) is Some,
    decreases s, s.len() - i,
{
    if 0 <= i && i < s.len() {
        lemma_remove_found_node(s[i], target);
        lemma_remove_seq_found(s, target, i + 1);
        if s[i].id() == target {
            assert(ExprV::remove_seq(s, target, i).1 == Some(s[i]));
            assert(s[i].find(target) is Some);
        } else {
            let (c, r) = s[i].remove_desc(target);
            if r is Some {
                assert(ExprV::remove_seq(s, target, i).1 == r);
                assert(s[i].find(target) is Some);
            } else {
                assert(ExprV::remove_seq(s, target, i) == ExprV::remove_seq(s, target, i + 1));
                assert(s[i].find(target) is None);
                assert(ExprV::find_seq(s, target, i) == ExprV::find_seq(s, target, i + 1));
            }
        }
    }
}

proof fn lemma_remove_found_node(e: ExprV, target: ExprId)
    ensures
        e.id() != target ==> (e.remove_desc(target).1 is Some <==> e.has(target)),
    decreases e, 1int,
{
    match e {
        ExprV::Call { arguments, .. } => lemma_remove_seq_found(arguments, target, 0),
        ExprV::Do { expressions, .. } => lemma_remove_seq_found(expressions, target, 0),
        _ => {},
    }
}

/// A non-empty pre-order traversal starts with the node's own id.
proof fn lemma_all_ids_first(e: ExprV)
    ensures
        e.all_ids().len() >= 1,
        e.all_ids()[0] == e.id(),
{
    match e {
        ExprV::Call { .. } => {},
        ExprV::Do { .. } => {},
        _ => {},
    }
}

/// Membership in a concatenation splits over its parts.
proof fn lemma_contains_concat<A>(a: Seq<A>, b: Seq<A>, x: A)
    ensures
        (a + b).contains(x) <==> a.contains(x) || b.contains(x),
{
    if (a + b).contains(x) {
        let k = choose|k: int| 0 <= k < (a + b).len() && (a + b)[k] == x;
        if k < a.len() {
            assert(a[k] == x);
        } else {
            assert(b[k - a.len()] == x);
        }
    }
    if a.contains(x) {
        let k = choose|k: int| 0 <= k < a.len() && a[k] == x;
        assert((a + b)[k] == x);
    }
    if b.contains(x) {
        let k = choose|k: int| 0 <= k < b.len() && b[k] == x;
        assert((a + b)[k + a.len()] == x);
    }
}

/// A tree has an id exactly when its pre-order traversal lists it.
pub proof fn lemma_has_iff_contains(e: ExprV, t: ExprId)
    ensures
        e.has(t) <==> e.all_ids().contains(t),
    decreases e, 0int,
{
    lemma_all_ids_first(e);
    match e {
        ExprV::Call { id, arguments, .. } => {
            lemma_has_iff_contains_seq(arguments, t, 0);
            lemma_contains_concat(seq![id], ExprV::all_ids_seq(arguments, 0), t);
            assert(seq![id].contains(t) <==> id == t);
        },
        ExprV::Do { id, expressions } => {
            lemma_has_iff_contains_seq(expressions, t, 0);
            lemma_contains_concat(seq![id], ExprV::all_ids_seq(expressions, 0), t);
            assert(seq![id].contains(t) <==> id == t);
        },
        _ => {
            assert(e.all_ids() =~= seq![e.id()]);
            assert(seq![e.id()].contains(t) <==> e.id() == t);
        },
    }
}

proof fn lemma_has_iff_contains_seq(s: Seq<ExprV>, t: ExprId, i: int)
    ensures
        ExprV::find_seq(s, t, i) is Some <==> ExprV::all_ids_seq(s, i).contains(t),
    decreases s, s.len() - i,
{
    if 0 <= i && i < s.len() {
        lemma_has_iff_contains(s[i], t);
        lemma_has_iff_contains_seq(s, t, i + 1);
        lemma_contains_concat(s[i].all_ids(), ExprV::all_ids_seq(s, i + 1), t);
    }
}

/// `all_ids_seq` reads only the suffix it covers.
pub proof fn lemma_all_ids_seq_congruence(s1: Seq<ExprV>, i1: int, s2: Seq<ExprV>, i2: int)
    requires
        0 <= i1 <= s1.len(),
        0 <= i2 <= s2.len(),
        s1.len() - i1 == s2.len() - i2,
        forall|k: int| 0 <= k < s1.len() - i1 ==> #[trigger] s1[i1 + k] == s2[i2 + k],
    ensures
        ExprV::all_ids_seq(s1, i1) == ExprV::all_ids_seq(s2, i2),
    decreases s1.len() - i1,
{
    if i1 < s1.len() {
        assert(s1[i1 + 0] == s2[i2 + 0]);
        assert forall|k: int| 0 <= k < s1.len() - (i1 + 1) implies #[trigger] s1[(i1 + 1) + k]
            == s2[(i2 + 1) + k] by {
            assert(s1[i1 + (k + 1)] == s2[i2 + (k + 1)]);
        }
        lemma_all_ids_seq_congruence(s1, i1 + 1, s2, i2 + 1);
    }
}

/// Shape of the removal result: the removed subtree carries the target id,
/// and the trees before the scan position are untouched.
proof fn lemma_remove_seq_shape(s: Seq<ExprV>, t: ExprId, i: int)
    requires
        0 <= i,
    ensures
        ({
            let (s2, r) = ExprV::remove_seq(s, t, i);
            &&& r matches Some(sub) ==> sub.id() == t && s2.len() >= i && s.len() - 1 <= s2.len()
                <= s.len() && (forall|k: int| 0 <= k < i ==> s2[k] == s[k])
        }),
    decreases s, s.len() - i,
{
    if i < s.len() {
        if s[i].id() == t {
        } else {
            let (c, r) = s[i].remove_desc(t);
            if r is Some {
                lemma_remove_node_shape(s[i], t);
            } else {
                lemma_remove_seq_shape(s, t, i + 1);
            }
        }
    }
}

proof fn lemma_remove_node_shape(e: ExprV, t: ExprId)
    ensures
        e.remove_desc(t).1 matches Some(sub) ==> sub.id() == t,
    decreases e, 0int,
{
    match e {
        ExprV::Call { arguments, .. } => lemma_remove_seq_shape(arguments, t, 0),
        ExprV::Do { expressions, .. } => lemma_remove_seq_shape(expressions, t, 0),
        _ => {},
    }
}

/// Removing a subtree splits the multiset of pre-order ids: nothing else is
/// gained or lost.
pub proof fn lemma_remove_ids(e: ExprV, t: ExprId)
    ensures
        ({
            let (t2, r) = e.remove_desc(t);
            r matches Some(sub) ==> e.all_ids().to_multiset() == t2.all_ids().to_multiset().add(
                sub.all_ids().to_multiset(),
            )
        }),
    decreases e, 0int,
{
    broadcast use vstd::seq_lib::lemma_multiset_commutative;
    broadcast use vstd::multiset::group_multiset_axioms;

    match e {
        ExprV::Call { id, arguments, .. } => {
            lemma_remove_ids_seq(arguments, t, 0);
            let (s2, r) = ExprV::remove_seq(arguments, t, 0);
            if r is Some {
                let detached = r->0;
                assert(e.all_ids().to_multiset() =~= e.remove_desc(t).0.all_ids().to_multiset()
                    .add(detached.all_ids().to_multiset()));
            }
        },
        ExprV::Do { id, expressions } => {
            lemma_remove_ids_seq(expressions, t, 0);
            let (s2, r) = ExprV::remove_seq(expressions, t, 0);
            if r is Some {
                let detached = r->0;
                assert(e.all_ids().to_multiset() =~= e.remove_desc(t).0.all_ids().to_multiset()
                    .add(detached.all_ids().to_multiset()));
            }
        },
        _ => {},
    }
}

proof fn lemma_remove_ids_seq(s: Seq<ExprV>, t: ExprId, i: int)
    requires
        0 <= i,
    ensures
        ({
            let (s2, r) = ExprV::remove_seq(s, t, i);
            r matches Some(sub) ==> ExprV::all_ids_seq(s, i).to_multiset()
                == ExprV::all_ids_seq(s2, i).to_multiset().add(sub.all_ids().to_multiset())
        }),
    decreases s, s.len() - i,
{
    broadcast use vstd::seq_lib::lemma_multiset_commutative;
    broadcast use vstd::multiset::group_multiset_axioms;

    if 0 <= i && i < s.len() {
        let (s2, r) = ExprV::remove_seq(s, t, i);
        if s[i].id() == t {
            // the child itself is detached: the suffix shifts left by one
            assert(ExprV::all_ids_seq(s.remove(i), i) == ExprV::all_ids_seq(s, i + 1)) by {
                lemma_all_ids_seq_congruence(s.remove(i), i, s, i + 1);
            }
            assert(ExprV::all_ids_seq(s, i).to_multiset() =~= ExprV::all_ids_seq(
                s2,
                i,
            ).to_multiset().add(s[i].all_ids().to_multiset()));
        } else {
            let (c, rc) = s[i].remove_desc(t);
            if rc is Some {
                let detached = rc->0;
                lemma_remove_ids_node(s[i], t);
                assert(ExprV::all_ids_seq(s.update(i, c), i + 1) == ExprV::all_ids_seq(s, i + 1))
                    by {
                    lemma_all_ids_seq_congruence(s.update(i, c), i + 1, s, i + 1);
                }
                assert(ExprV::all_ids_seq(s.update(i, c), i) == c.all_ids()
                    + ExprV::all_ids_seq(s, i + 1));
                assert(ExprV::all_ids_seq(s, i).to_multiset() =~= ExprV::all_ids_seq(
                    s2,
                    i,
                ).to_multiset().add(detached.all_ids().to_multiset()));
            } else {
                lemma_remove_ids_seq(s, t, i + 1);
                if ExprV::remove_seq(s, t, i + 1).1 is Some {
                    let detached = ExprV::remove_seq(s, t, i + 1).1->0;
                    lemma_remove_seq_shape(s, t, i + 1);
                    let s3 = ExprV::remove_seq(s, t, i + 1).0;
                    assert(ExprV::all_ids_seq(s3, i) == s3[i].all_ids() + ExprV::all_ids_seq(
                        s3,
                        i + 1,
                    ));
                    assert(s3[i] == s[i]);
                    assert(ExprV::all_ids_seq(s, i).to_multiset() =~= ExprV::all_ids_seq(
                        s3,
                        i,
                    ).to_multiset().add(detached.all_ids().to_multiset()));
                }
            }
        }
    }
}

proof fn lemma_remove_ids_node(e: ExprV, t: ExprId)
    ensures
        ({
            let (t2, r) = e.remove_desc(t);
            r matches Some(sub) ==> e.all_ids().to_multiset() == t2.all_ids().to_multiset().add(
                sub.all_ids().to_multiset(),
            )
        }),
    decreases e, 1int,
{
    lemma_remove_ids(e, t);
}

/// Detaching a subtree from a valid tree leaves two valid trees, and the
/// detached id is gone from the remaining tree.
pub proof fn lemma_remove_valid(e: ExprV, target: ExprId)
    requires
        e.valid(),
    ensures
        ({
            let (t2, r) = e.remove_desc(target);
            r matches Some(sub) ==> {
                &&& sub.valid()
                &&& t2.valid()
                &&& !t2.has(target)
                &&& sub.id() == target
            }
        }),
{
    broadcast use vstd::multiset::group_multiset_axioms;
    broadcast use vstd::seq_lib::to_multiset_contains;

    let (t2, r) = e.remove_desc(target);
    if r is Some {
        let detached = r->0;
        lemma_remove_ids(e, target);
        lemma_remove_node_shape(e, target);
        e.all_ids().lemma_multiset_has_no_duplicates();
        assert forall|x: ExprId| t2.all_ids().to_multiset().contains(x) implies t2.all_ids()
            .to_multiset().count(x) == 1 by {
            assert(e.all_ids().to_multiset().count(x) == t2.all_ids().to_multiset().count(x)
                + detached.all_ids().to_multiset().count(x));
        }
        t2.all_ids().lemma_multiset_has_no_duplicates_conv();
        assert forall|x: ExprId| detached.all_ids().to_multiset().contains(x) implies detached
            .all_ids().to_multiset().count(x) == 1 by {
            assert(e.all_ids().to_multiset().count(x) == t2.all_ids().to_multiset().count(x)
                + detached.all_ids().to_multiset().count(x));
        }
        detached.all_ids().lemma_multiset_has_no_duplicates_conv();
        // the detached id cannot remain behind: it already occurs in `sub`
        lemma_all_ids_first(detached);
        assert(detached.all_ids().contains(target));
        assert(detached.all_ids().to_multiset().count(target) >= 1);
        assert(e.all_ids().to_multiset().count(target) <= 1);
        assert(t2.all_ids().to_multiset().count(target) == 0);
        assert(!t2.all_ids().contains(target));
        lemma_has_iff_contains(t2, target);
    }
}

impl Default for Expr {
    /// The default expression is a hole with the zero id, used as a
    /// placeholder while a tree is temporarily taken apart.
    fn default() -> (r: Self)
        ensures
            r == (Expr::Hole { id: ExprId(0) }),
    {
        Expr::Hole { id: ExprId(0) }
    }
}

impl Expr {
    /// Detach and return the subtree rooted at `id`, shifting its siblings
    /// left; the root itself cannot be removed (every view must always show a
    /// rooted tree), and an absent id is a no-op.
    pub fn remove_by_id(&mut self, id: ExprId) -> (r: Option<Expr>)
        ensures
            old(self)@.id() == id ==> r is None && *final(self) == *old(self),
            old(self)@.id() != id ==> {
                &&& final(self)@ == old(self)@.remove_desc(id).0
                &&& match r {
                    Some(sub) => old(self)@.remove_desc(id).1 == Some(sub@),
                    None => old(self)@.remove_desc(id).1 is None,
                }
                &&& (r is Some <==> old(self)@.has(id))
            },
    {
        if self.id() == id {
            return None;
        }
        proof {
            lemma_remove_found(old(self)@, id);
        }
        let mut tmp = Expr::default();
        core::mem::swap(self, &mut tmp);
        let (t, r) = remove_owned(tmp, id);
        *self = t;
        r
    }

    /// Replace the editable text field of the node carrying `target` (a
    /// call's function name, a comment's text, a literal's content, a
    /// variable's name); `Do`, `Hole` and absent ids are a no-op.
    pub fn set_text(&mut self, target: ExprId, new_text: &str)
        ensures
            final(self)@ == old(self)@.with_text(target, new_text@),
    {
        let mut tmp = Expr::default();
        core::mem::swap(self, &mut tmp);
        let t = set_text_owned(tmp, target, new_text);
        *self = t;
    }
}

/// Recursive worker for [`Expr::remove_by_id`], operating on an owned tree.
fn remove_owned(e: Expr, target: ExprId) -> (res: (Expr, Option<Expr>))
    ensures
        res.0@ == e@.remove_desc(target).0,
        match res.1 {
            Some(sub) => e@.remove_desc(target).1 == Some(sub@),
            None => e@.remove_desc(target).1 is None,
        },
    decreases e, 1int,
{
    let ghost e0 = e;
    match e {
        Expr::Hole { id } => (Expr::Hole { id }, None),
        Expr::Comment { id, text } => (Expr::Comment { id, text }, None),
        Expr::Lit { id, kind, content } => (Expr::Lit { id, kind, content }, None),
        Expr::Var { id, name } => (Expr::Var { id, name }, None),
        Expr::Call { id, function, mut arguments } => {
            let r = remove_in_children(Ghost(e0), &mut arguments, target);
            (Expr::Call { id, function, arguments }, r)
        },
        Expr::Do { id, expressions } => {
            let mut arguments = expressions;
            let r = remove_in_children(Ghost(e0), &mut arguments, target);
            (Expr::Do { id, expressions: arguments }, r)
        },
    }
}

/// Scan `arguments` (the child list of `parent`) for the removal target.
fn remove_in_children(parent: Ghost<Expr>, arguments: &mut Vec<Expr>, target: ExprId) -> (r: Option<
    Expr,
>)
    requires
        old(arguments)@ == parent@.spec_children(),
    ensures
        ({
            let spec_res = ExprV::remove_seq(views_of(old(arguments)@), target, 0);
            &&& views_of(final(arguments)@) == spec_res.0
            &&& match r {
                Some(sub) => spec_res.1 == Some(sub@),
                None => spec_res.1 is None,
            }
        }),
    decreases parent@, 0int,
{
    let ghost args0 = old(arguments)@;
    let ghost vs = views_of(args0);
    proof {
        lemma_views_of(args0);
    }
    let n = arguments.len();
    let mut i: usize = 0;
    while i < n
        invariant
            n == arguments@.len(),
            args0 == old(arguments)@,
            args0.len() == n,
            args0 == parent@.spec_children(),
            vs == views_of(args0),
            vs.len() == n,
            forall|k: int| 0 <= k < n ==> vs[k] == args0[k]@,
            forall|k: int| i <= k < n ==> arguments@[k] == args0[k],
            forall|k: int| 0 <= k < i ==> arguments@[k]@ == vs[k],
            ExprV::remove_seq(vs, target, 0) == ExprV::remove_seq(vs, target, i as int),
        decreases n - i,
    {
        if arguments[i].id() == target {
            let sub = arguments.remove(i);
            proof {
                assert(sub@ == vs[i as int]);
                assert(ExprV::remove_seq(vs, target, i as int) == (
                    vs.remove(i as int),
                    Some(vs[i as int]),
                ));
                lemma_views_of(arguments@);
                assert(views_of(arguments@) =~= vs.remove(i as int));
            }
            return Some(sub);
        }
        proof {
            lemma_child_smaller(parent@, i as int);
        }
        let c = arguments.remove(i);
        let (c2, r) = remove_owned(c, target);
        arguments.insert(i, c2);
        if r.is_some() {
            proof {
                assert(vs[i as int].remove_desc(target).1 is Some);
                assert(ExprV::remove_seq(vs, target, i as int) == (
                    vs.update(i as int, vs[i as int].remove_desc(target).0),
                    vs[i as int].remove_desc(target).1,
                ));
                lemma_views_of(arguments@);
                assert(views_of(arguments@) =~= vs.update(
                    i as int,
                    vs[i as int].remove_desc(target).0,
                ));
            }
            return r;
        }
        proof {
            lemma_remove_none(vs[i as int], target);
            assert(c2@ == vs[i as int]);
            assert(ExprV::remove_seq(vs, target, i as int) == ExprV::remove_seq(
                vs,
                target,
                i + 1,
            ));
        }
        i = i + 1;
    }
    proof {
        lemma_views_of(arguments@);
        assert(views_of(arguments@) =~= vs);
    }
    None
}

/// Precondition relation for [`Expr::update`]: the transform must accept
/// every topmost node carrying `target`, since exactly those are handed to
/// it.
pub open spec fn update_req<F: Fn(Expr) -> Expr>(e: Expr, target: ExprId, f: F) -> bool
    decreases e, 0int,
{
    if e.spec_id() == target {
        call_requires(f, (e,))
    } else {
        match e {
            Expr::Call { arguments, .. } => update_req_seq(arguments@, target, f, 0),
            Expr::Do { expressions, .. } => update_req_seq(expressions@, target, f, 0),
            _ => true,
        }
    }
}

/// `update_req` over the trees of `s` from index `i` on.
pub open spec fn update_req_seq<F: Fn(Expr) -> Expr>(
    s: Seq<Expr>,
    target: ExprId,
    f: F,
    i: int,
) -> bool
    decreases s, s.len() - i,
{
    if i < 0 || i >= s.len() {
        true
    } else {
        update_req(s[i], target, f) && update_req_seq(s, target, f, i + 1)
    }
}

/// What [`Expr::update`] does: every topmost node carrying `target` is
/// replaced by a result the transform may return for it, and everything else
/// is unchanged.
pub open spec fn updated_rel<F: Fn(Expr) -> Expr>(a: Expr, b: Expr, target: ExprId, f: F) -> bool
    decreases a, 0int,
{
    if a.spec_id() == target {
        call_ensures(f, (a,), b)
    } else {
        match a {
            Expr::Call { id, function, arguments } => match b {
                Expr::Call { id: bid, function: bfunction, arguments: bargs } => {
                    &&& bid == id
                    &&& bfunction == function
                    &&& bargs@.len() == arguments@.len()
                    &&& forall|j: int|
                        0 <= j < arguments@.len() ==> updated_rel(
                            arguments@[j],
                            #[trigger] bargs@[j],
                            target,
                            f,
                        )
                },
                _ => false,
            },
            Expr::Do { id, expressions } => match b {
                Expr::Do { id: bid, expressions: bexprs } => {
                    &&& bid == id
                    &&& bexprs@.len() == expressions@.len()
                    &&& forall|j: int|
                        0 <= j < expressions@.len() ==> updated_rel(
                            expressions@[j],
                            #[trigger] bexprs@[j],
                            target,
                            f,
                        )
                },
                _ => false,
            },
            _ => b == a,
        }
    }
}

/// `update_req_seq` gives `update_req` for each tree it covers.
proof fn lemma_update_req_seq<F: Fn(Expr) -> Expr>(s: Seq<Expr>, target: ExprId, f: F, i: int)
    requires
        0 <= i,
        update_req_seq(s, target, f, i),
    ensures
        forall|k: int| i <= k < s.len() ==> update_req(#[trigger] s[k], target, f),
    decreases s.len() - i,
{
    if i < s.len() {
        lemma_update_req_seq(s, target, f, i + 1);
    }
}

impl Expr {
    /// Locate the node carrying `target` and replace it with
    /// `transform(node)`; the transform receives ownership of the old node.
    /// An absent id is a no-op; the tree's shape elsewhere is preserved.
    pub fn update<F: Fn(Expr) -> Expr + Copy>(&mut self, target: ExprId, transform: F)
        requires
            update_req(*old(self), target, transform),
        ensures
            updated_rel(*old(self), *final(self), target, transform),
    {
        let mut tmp = Expr::default();
        core::mem::swap(self, &mut tmp);
        let t = update_owned(tmp, target, transform);
        *self = t;
    }
}

/// Recursive worker for [`Expr::update`], operating on an owned tree.
fn update_owned<F: Fn(Expr) -> Expr + Copy>(e: Expr, target: ExprId, transform: F) -> (r: Expr)
    requires
        update_req(e, target, transform),
    ensures
        updated_rel(e, r, target, transform),
    decreases e, 1int,
{
    if e.id() == target {
        return transform(e);
    }
    let ghost e0 = e;
    match e {
        Expr::Hole { id } => Expr::Hole { id },
        Expr::Comment { id, text } => Expr::Comment { id, text },
        Expr::Lit { id, kind, content } => Expr::Lit { id, kind, content },
        Expr::Var { id, name } => Expr::Var { id, name },
        Expr::Call { id, function, mut arguments } => {
            update_children(Ghost(e0), &mut arguments, target, transform);
            Expr::Call { id, function, arguments }
        },
        Expr::Do { id, expressions } => {
            let mut arguments = expressions;
            update_children(Ghost(e0), &mut arguments, target, transform);
            Expr::Do { id, expressions: arguments }
        },
    }
}

/// Apply the transform recursively to every tree of `arguments` (the child
/// list of `parent`).
fn update_children<F: Fn(Expr) -> Expr + Copy>(
    parent: Ghost<Expr>,
    arguments: &mut Vec<Expr>,
    target: ExprId,
    transform: F,
)
    requires
        old(arguments)@ == parent@.spec_children(),
        update_req_seq(old(arguments)@, target, transform, 0),
    ensures
        final(arguments)@.len() == old(arguments)@.len(),
        forall|k: int|
            0 <= k < old(arguments)@.len() ==> updated_rel(
                old(arguments)@[k],
                #[trigger] final(arguments)@[k],
                target,
                transform,
            ),
    decreases parent@, 0int,
{
    let ghost args0 = old(arguments)@;
    proof {
        lemma_update_req_seq(args0, target, transform, 0);
    }
    let n = arguments.len();
    let mut i: usize = 0;
    while i < n
        invariant
            n == arguments@.len(),
            args0 == old(arguments)@,
            args0.len() == n,
            args0 == parent@.spec_children(),
            forall|k: int| i <= k < n ==> arguments@[k] == args0[k],
            forall|k: int|
                0 <= k < i ==> updated_rel(
                    args0[k],
                    #[trigger] arguments@[k],
                    target,
                    transform,
                ),
            forall|k: int| 0 <= k < n ==> update_req(#[trigger] args0[k], target, transform),
        decreases n - i,
    {
        proof {
            lemma_child_smaller(parent@, i as int);
        }
        let c = arguments.remove(i);
        let c2 = update_owned(c, target, transform);
        arguments.insert(i, c2);
        i = i + 1;
    }
}

/// Recursive worker for [`Expr::set_text`], operating on an owned tree.
fn set_text_owned(e: Expr, target: ExprId, new_text: &str) -> (r: Expr)
    ensures
        r@ == e@.with_text(target, new_text@),
    decreases e, 1int,
{
    let ghost e0 = e;
    let hit = e.id() == target;
    match e {
        Expr::Hole { id } => Expr::Hole { id },
        Expr::Comment { id, text } => {
            if hit {
                Expr::Comment { id, text: new_text.to_owned() }
            } else {
                Expr::Comment { id, text }
            }
        },
        Expr::Lit { id, kind, content } => {
            if hit {
                Expr::Lit { id, kind, content: new_text.to_owned() }
            } else {
                Expr::Lit { id, kind, content }
            }
        },
        Expr::Var { id, name } => {
            if hit {
                Expr::Var { id, name: new_text.to_owned() }
            } else {
                Expr::Var { id, name }
            }
        },
        Expr::Call { id, function, mut arguments } => {
            if hit {
                Expr::Call { id, function: new_text.to_owned(), arguments }
            } else {
                set_text_children(Ghost(e0), &mut arguments, target, new_text);
                Expr::Call { id, function, arguments }
            }
        },
        Expr::Do { id, expressions } => {
            if hit {
                Expr::Do { id, expressions }
            } else {
                let mut arguments = expressions;
                set_text_children(Ghost(e0), &mut arguments, target, new_text);
                Expr::Do { id, expressions: arguments }
            }
        },
    }
}

/// Apply the text replacement to every tree of `arguments` (the child list of
/// `parent`).
fn set_text_children(
    parent: Ghost<Expr>,
    arguments: &mut Vec<Expr>,
    target: ExprId,
    new_text: &str,
)
    requires
        old(arguments)@ == parent@.spec_children(),
    ensures
        views_of(final(arguments)@) == ExprV::with_text_seq(
            views_of(old(arguments)@),
            target,
            new_text@,
            0,
        ),
    decreases parent@, 0int,
{
    let ghost args0 = old(arguments)@;
    let ghost vs = views_of(args0);
    proof {
        lemma_views_of(args0);
        lemma_with_text_seq(vs, target, new_text@, 0);
    }
    let n = arguments.len();
    let mut i: usize = 0;
    while i < n
        invariant
            n == arguments@.len(),
            args0 == old(arguments)@,
            args0.len() == n,
            args0 == parent@.spec_children(),
            vs == views_of(args0),
            vs.len() == n,
            forall|k: int| 0 <= k < n ==> vs[k] == args0[k]@,
            forall|k: int| i <= k < n ==> arguments@[k] == args0[k],
            forall|k: int|
                0 <= k < i ==> arguments@[k]@ == vs[k].with_text(target, new_text@),
        decreases n - i,
    {
        proof {
            lemma_child_smaller(parent@, i as int);
        }
        let c = arguments.remove(i);
        let c2 = set_text_owned(c, target, new_text);
        arguments.insert(i, c2);
        i = i + 1;
    }
    proof {
        lemma_views_of(arguments@);
        lemma_with_text_seq(vs, target, new_text@, 0);
        assert(views_of(arguments@) =~= ExprV::with_text_seq(vs, target, new_text@, 0));
    }
}

/// The tree's nodes in pre-order, as values.
pub open spec fn preorder(e: Expr) -> Seq<Expr>
    decreases e, 0int,
{
    match e {
        Expr::Call { arguments, .. } => seq![e] + preorder_seq(arguments@, 0),
        Expr::Do { expressions, .. } => seq![e] + preorder_seq(expressions@, 0),
        _ => seq![e],
    }
}

/// The pre-orders of the trees of `s` from index `i` on, concatenated.
pub open spec fn preorder_seq(s: Seq<Expr>, i: int) -> Seq<Expr>
    decreases s, s.len() - i,
{
    if i < 0 || i >= s.len() {
        Seq::empty()
    } else {
        preorder(s[i]) + preorder_seq(s, i + 1)
    }
}

/// A lazy depth-first walk over a tree: a stack of subtrees still to visit.
/// Every node is yielded exactly once; the order beyond that is the stack's
/// business.
pub struct ExprIterator<'a> {
    queue: Vec<&'a Expr>,
}

/// The multiset of nodes the stack from index `i` on has yet to yield.
pub open spec fn pending_from(q: Seq<&Expr>, i: int) -> Multiset<Expr>
    decreases q.len() - i,
{
    if i < 0 || i >= q.len() {
        Multiset::empty()
    } else {
        preorder(*q[i]).to_multiset().add(pending_from(q, i + 1))
    }
}

/// A stack of `k` subtrees holds at least `k` pending nodes.
proof fn lemma_pending_len(q: Seq<&Expr>, i: int)
    requires
        0 <= i,
    ensures
        pending_from(q, i).len() >= q.len() - i,
    decreases q.len() - i,
{
    broadcast use vstd::multiset::group_multiset_axioms;

    if i < q.len() {
        lemma_pending_len(q, i + 1);
        preorder(*q[i]).to_multiset_ensures();
        lemma_preorder_nonempty(*q[i]);
    }
}

proof fn lemma_preorder_nonempty(e: Expr)
    ensures
        preorder(e).len() >= 1,
        preorder(e)[0] == e,
{
    match e {
        Expr::Call { .. } => {},
        Expr::Do { .. } => {},
        _ => {},
    }
}

/// Dropping the stack's top removes exactly its pre-order from the pending
/// multiset.
proof fn lemma_pending_drop_last(q: Seq<&Expr>, i: int)
    requires
        0 <= i <= q.len() - 1,
    ensures
        pending_from(q, i) == pending_from(q.drop_last(), i).add(
            preorder(*q[q.len() - 1]).to_multiset(),
        ),
    decreases q.len() - i,
{
    broadcast use vstd::multiset::group_multiset_axioms;

    if i == q.len() - 1 {
        assert(pending_from(q.drop_last(), i) =~= Multiset::empty());
        assert(pending_from(q, i + 1) =~= Multiset::empty());
        assert(pending_from(q, i) =~= pending_from(q.drop_last(), i).add(
            preorder(*q[q.len() - 1]).to_multiset(),
        ));
    } else {
        lemma_pending_drop_last(q, i + 1);
        assert(q.drop_last()[i] == q[i]);
        assert(pending_from(q, i) =~= pending_from(q.drop_last(), i).add(
            preorder(*q[q.len() - 1]).to_multiset(),
        ));
    }
}

/// Pushing a subtree adds exactly its pre-order to the pending multiset.
proof fn lemma_pending_push(q: Seq<&Expr>, x: &Expr, i: int)
    requires
        0 <= i <= q.len(),
    ensures
        pending_from(q.push(x), i) == pending_from(q, i).add(preorder(*x).to_multiset()),
    decreases q.len() - i,
{
    broadcast use vstd::multiset::group_multiset_axioms;

    if i == q.len() {
        assert(pending_from(q, i) =~= Multiset::empty());
        assert(q.push(x)[i] == x);
        assert(pending_from(q.push(x), i + 1) =~= Multiset::empty());
        assert(pending_from(q.push(x), i) =~= pending_from(q, i).add(
            preorder(*x).to_multiset(),
        ));
    } else {
        lemma_pending_push(q, x, i + 1);
        assert(q.push(x)[i] == q[i]);
        assert(pending_from(q.push(x), i) =~= pending_from(q, i).add(
            preorder(*x).to_multiset(),
        ));
    }
}

impl<'a> ExprIterator<'a> {
    /// The multiset of nodes not yet yielded.
    pub closed spec fn remaining(self) -> Multiset<Expr> {
        pending_from(self.queue@, 0)
    }

    /// A fresh walk over the whole of `root`.
    pub fn new(root: &'a Expr) -> (it: Self)
        ensures
            it.remaining() == preorder(*root).to_multiset(),
    {
        broadcast use vstd::multiset::group_multiset_axioms;

        let mut queue: Vec<&'a Expr> = Vec::new();
        queue.push(root);
        let it = ExprIterator { queue };
        proof {
            assert(pending_from(it.queue@, 1) =~= Multiset::empty());
            assert(it.remaining() =~= preorder(*root).to_multiset());
        }
        it
    }

    /// Yield one pending node: the pending multiset loses exactly that node.
    pub fn next(&mut self) -> (r: Option<&'a Expr>)
        ensures
            old(self).remaining().len() == 0 ==> r is None && final(self).remaining() == old(
                self,
            ).remaining(),
            old(self).remaining().len() > 0 ==> match r {
                Some(n) => old(self).remaining().count(*n) > 0 && final(self).remaining() == old(
                    self,
                ).remaining().remove(*n),
                None => false,
            },
    {
        broadcast use vstd::multiset::group_multiset_axioms;

        proof {
            lemma_pending_len(old(self).queue@, 0);
        }
        let item = match self.queue.pop() {
            None => {
                proof {
                    assert(old(self).remaining() =~= Multiset::empty());
                }
                return None;
            },
            Some(item) => item,
        };
        let ghost q0 = old(self).queue@;
        proof {
            if q0.len() > 1 {
                lemma_pending_drop_last(q0, 0);
            } else {
                assert(pending_from(q0.drop_last(), 0) =~= Multiset::empty());
                assert(pending_from(q0, 1) =~= Multiset::empty());
                assert(pending_from(q0, 0) =~= pending_from(q0.drop_last(), 0).add(
                    preorder(*q0[q0.len() - 1]).to_multiset(),
                ));
            }
        }
        let ghost base = pending_from(self.queue@, 0);
        let cs = item.childeren();
        let ghost cvs = item.spec_children();
        let n = cs.len();
        let mut j: usize = 0;
        while j < n
            invariant
                n == cs@.len(),
                cs@ == cvs,
                j <= n,
                pending_from(self.queue@, 0).add(preorder_seq(cvs, j as int).to_multiset())
                    =~= base.add(preorder_seq(cvs, 0).to_multiset()),
            decreases n - j,
        {
            broadcast use vstd::multiset::group_multiset_axioms;

            let ghost qpre = self.queue@;
            self.queue.push(&cs[j]);
            proof {
                lemma_pending_push(qpre, &cs[j as int], 0);
                vstd::seq_lib::lemma_multiset_commutative(preorder(cvs[j as int]), preorder_seq(
                    cvs,
                    j + 1,
                ));
                assert(preorder_seq(cvs, j as int) == preorder(cvs[j as int]) + preorder_seq(
                    cvs,
                    j + 1,
                ));
                assert(pending_from(self.queue@, 0).add(preorder_seq(cvs, j + 1).to_multiset())
                    =~= base.add(preorder_seq(cvs, 0).to_multiset()));
            }
            j = j + 1;
        }
        proof {
            assert(preorder_seq(cvs, n as int).to_multiset() =~= Multiset::empty()) by {
                preorder_seq(cvs, n as int).to_multiset_ensures();
                assert(preorder_seq(cvs, n as int) =~= Seq::empty());
                Seq::<Expr>::empty().to_multiset_ensures();
            }
            assert(final(self).remaining() =~= base.add(preorder_seq(cvs, 0).to_multiset()));
            // the yielded node accounts for exactly one occurrence
            vstd::seq_lib::lemma_multiset_commutative(seq![*item], preorder_seq(cvs, 0));
            assert(preorder(*item) == seq![*item] + preorder_seq(cvs, 0)) by {
                lemma_preorder_unfold(*item);
            }
            assert(seq![*item].to_multiset() =~= Multiset::empty().insert(*item)) by {
                Seq::<Expr>::empty().to_multiset_ensures();
                assert(seq![*item] =~= Seq::<Expr>::empty().push(*item));
            }
            assert(old(self).remaining().count(*item) > 0);
            assert(final(self).remaining() =~= old(self).remaining().remove(*item));
        }
        Some(item)
    }
}

impl Expr {
    /// A fresh depth-first walk over the whole tree.
    pub fn iter(&self) -> (it: ExprIterator)
        ensures
            it.remaining() == preorder(*self).to_multiset(),
    {
        ExprIterator::new(self)
    }
}

/// A node's pre-order is itself, then its children's pre-orders.
proof fn lemma_preorder_unfold(e: Expr)
    ensures
        preorder(e) == seq![e] + preorder_seq(e.spec_children(), 0),
{
    match e {
        Expr::Call { .. } => {},
        Expr::Do { .. } => {},
        _ => {
            assert(preorder_seq(e.spec_children(), 0) =~= Seq::empty());
            assert(preorder(e) =~= seq![e] + preorder_seq(e.spec_children(), 0));
        },
    }
}

/// A failed search through a child list means a failed search in each child.
proof fn lemma_find_seq_none(s: Seq<ExprV>, t: ExprId, i: int)
    requires
        0 <= i,
        ExprV::find_seq(s, t, i) is None,
    ensures
        forall|k: int| i <= k < s.len() ==> (#[trigger] s[k]).find(t) is None,
    decreases s.len() - i,
{
    if 0 <= i && i < s.len() {
        lemma_find_seq_none(s, t, i + 1);
    }
}

/// Editing text never touches an id: the pre-order id traversal is
/// unchanged, so editing preserves validity.
pub proof fn lemma_with_text_ids(e: ExprV, target: ExprId, t: Seq<char>)
    ensures
        e.with_text(target, t).all_ids() == e.all_ids(),
        e.with_text(target, t).valid() == e.valid(),
    decreases e, 1int,
{
    if e.id() == target {
    } else {
        match e {
            ExprV::Call { id, function, arguments } => {
                lemma_with_text_ids_seq(arguments, target, t, 0);
            },
            ExprV::Do { id, expressions } => {
                lemma_with_text_ids_seq(expressions, target, t, 0);
            },
            _ => {},
        }
    }
}

proof fn lemma_with_text_ids_seq(s: Seq<ExprV>, target: ExprId, t: Seq<char>, i: int)
    requires
        0 <= i,
    ensures
        ExprV::all_ids_seq(ExprV::with_text_seq(s, target, t, 0), i) == ExprV::all_ids_seq(s, i),
    decreases s, s.len() - i,
{
    lemma_with_text_seq(s, target, t, 0);
    let mapped = ExprV::with_text_seq(s, target, t, 0);
    if i < s.len() {
        lemma_with_text_ids_node(s[i], target, t);
        lemma_with_text_ids_seq(s, target, t, i + 1);
        assert(mapped[i] == s[i].with_text(target, t));
        assert(ExprV::all_ids_seq(mapped, i) == mapped[i].all_ids() + ExprV::all_ids_seq(
            mapped,
            i + 1,
        ));
    } else {
        assert(ExprV::all_ids_seq(mapped, i) =~= Seq::<ExprId>::empty());
        assert(ExprV::all_ids_seq(s, i) =~= Seq::<ExprId>::empty());
    }
}

proof fn lemma_with_text_ids_node(e: ExprV, target: ExprId, t: Seq<char>)
    ensures
        e.with_text(target, t).all_ids() == e.all_ids(),
    decreases e, 2int,
{
    lemma_with_text_ids(e, target, t);
}

/// Editing an id that is not in the tree changes nothing.
pub proof fn lemma_with_text_absent(e: ExprV, target: ExprId, t: Seq<char>)
    requires
        !e.has(target),
    ensures
        e.with_text(target, t) == e,
    decreases e, 1int,
{
    match e {
        ExprV::Call { id, function, arguments } => {
            lemma_find_seq_none(arguments, target, 0);
            lemma_with_text_absent_seq(arguments, target, t);
        },
        ExprV::Do { id, expressions } => {
            lemma_find_seq_none(expressions, target, 0);
            lemma_with_text_absent_seq(expressions, target, t);
        },
        _ => {},
    }
}

proof fn lemma_with_text_absent_seq(s: Seq<ExprV>, target: ExprId, t: Seq<char>)
    requires
        forall|k: int| 0 <= k < s.len() ==> (#[trigger] s[k]).find(target) is None,
    ensures
        ExprV::with_text_seq(s, target, t, 0) == s,
    decreases s, s.len() + 1,
{
    lemma_with_text_seq(s, target, t, 0);
    assert forall|k: int| 0 <= k < s.len() implies ExprV::with_text_seq(s, target, t, 0)[k]
        == s[k] by {
        lemma_with_text_absent_node(s[k], target, t);
    }
    assert(ExprV::with_text_seq(s, target, t, 0) =~= s);
}

proof fn lemma_with_text_absent_node(e: ExprV, target: ExprId, t: Seq<char>)
    requires
        !e.has(target),
    ensures
        e.with_text(target, t) == e,
    decreases e, 2int,
{
    lemma_with_text_absent(e, target, t);
}

/// An update aimed at an id that is not in the tree leaves the tree's view
/// unchanged, whatever the transform.
pub proof fn lemma_update_absent<F: Fn(Expr) -> Expr>(a: Expr, b: Expr, target: ExprId, f: F)
    requires
        updated_rel(a, b, target, f),
        !a@.has(target),
    ensures
        b@ == a@,
    decreases a, 1int,
{
    match a {
        Expr::Call { id, function, arguments } => {
            lemma_views_of(arguments@);
            lemma_find_seq_none(a@.children(), target, 0);
            match b {
                Expr::Call { id: bid, function: bfunction, arguments: bargs } => {
                    lemma_views_of(bargs@);
                    assert forall|j: int| 0 <= j < arguments@.len() implies views_of(bargs@)[j]
                        == views_of(arguments@)[j] by {
                        assert(updated_rel(arguments@[j], bargs@[j], target, f));
                        assert(views_of(arguments@)[j] == arguments@[j]@);
                        lemma_update_absent_node(arguments@[j], bargs@[j], target, f, a);
                    }
                    assert(views_of(bargs@) =~= views_of(arguments@));
                },
                _ => {},
            }
        },
        Expr::Do { id, expressions } => {
            lemma_views_of(expressions@);
            lemma_find_seq_none(a@.children(), target, 0);
            match b {
                Expr::Do { id: bid, expressions: bexprs } => {
                    lemma_views_of(bexprs@);
                    assert forall|j: int| 0 <= j < expressions@.len() implies views_of(bexprs@)[j]
                        == views_of(expressions@)[j] by {
                        assert(updated_rel(expressions@[j], bexprs@[j], target, f));
                        assert(views_of(expressions@)[j] == expressions@[j]@);
                        lemma_update_absent_node(expressions@[j], bexprs@[j], target, f, a);
                    }
                    assert(views_of(bexprs@) =~= views_of(expressions@));
                },
                _ => {},
            }
        },
        _ => {},
    }
}

proof fn lemma_update_absent_node<F: Fn(Expr) -> Expr>(
    a: Expr,
    b: Expr,
    target: ExprId,
    f: F,
    parent: Expr,
)
    requires
        updated_rel(a, b, target, f),
        !a@.has(target),
        decreases_to!(parent => a),
    ensures
        b@ == a@,
    decreases parent, 0int,
{
    lemma_update_absent(a, b, target, f);
}

/// A transform that accepts every node satisfies `update_req` on every tree,
/// so such transforms can be handed to `update` without further proof.
pub proof fn lemma_update_req_total<F: Fn(Expr) -> Expr>(e: Expr, target: ExprId, f: F)
    requires
        forall|x: Expr| #[trigger] call_requires(f, (x,)),
    ensures
        update_req(e, target, f),
    decreases e, 1int,
{
    if e.spec_id() != target {
        match e {
            Expr::Call { arguments, .. } => {
                lemma_update_req_total_seq(arguments@, target, f, 0);
            },
            Expr::Do { expressions, .. } => {
                lemma_update_req_total_seq(expressions@, target, f, 0);
            },
            _ => {},
        }
    }
}

proof fn lemma_update_req_total_seq<F: Fn(Expr) -> Expr>(
    s: Seq<Expr>,
    target: ExprId,
    f: F,
    i: int,
)
    requires
        forall|x: Expr| #[trigger] call_requires(f, (x,)),
    ensures
        update_req_seq(s, target, f, i),
    decreases s, s.len() - i,
{
    if 0 <= i && i < s.len() {
        lemma_update_req_total_node(s[i], target, f);
        lemma_update_req_total_seq(s, target, f, i + 1);
    }
}

proof fn lemma_update_req_total_node<F: Fn(Expr) -> Expr>(e: Expr, target: ExprId, f: F)
    requires
        forall|x: Expr| #[trigger] call_requires(f, (x,)),
    ensures
        update_req(e, target, f),
    decreases e, 2int,
{
    lemma_update_req_total(e, target, f);
}

/// The id traversal is the node traversal, node by node: on a valid tree
/// the ids a walk yields are therefore pairwise distinct.
pub proof fn lemma_preorder_ids(e: Expr)
    ensures
        preorder(e).map_values(|n: Expr| n@.id()) == e@.all_ids(),
    decreases e, 1int,
{
    let f = |n: Expr| n@.id();
    match e {
        Expr::Call { arguments, .. } => {
            lemma_preorder_ids_seq(arguments@, 0);
            lemma_views_of(arguments@);
            assert(preorder(e).map_values(f) =~= seq![e@.id()] + ExprV::all_ids_seq(
                views_of(arguments@),
                0,
            ));
        },
        Expr::Do { expressions, .. } => {
            lemma_preorder_ids_seq(expressions@, 0);
            lemma_views_of(expressions@);
            assert(preorder(e).map_values(f) =~= seq![e@.id()] + ExprV::all_ids_seq(
                views_of(expressions@),
                0,
            ));
        },
        _ => {
            assert(preorder(e).map_values(f) =~= seq![e@.id()]);
            assert(e@.all_ids() =~= seq![e@.id()]);
        },
    }
}

proof fn lemma_preorder_ids_seq(s: Seq<Expr>, i: int)
    requires
        0 <= i,
    ensures
        preorder_seq(s, i).map_values(|n: Expr| n@.id()) == ExprV::all_ids_seq(views_of(s), i),
    decreases s, s.len() - i,
{
    let f = |n: Expr| n@.id();
    lemma_views_of(s);
    if i < s.len() {
        lemma_preorder_ids_node(s[i], s);
        lemma_preorder_ids_seq(s, i + 1);
        assert(preorder_seq(s, i) == preorder(s[i]) + preorder_seq(s, i + 1));
        assert(preorder_seq(s, i).map_values(f) =~= preorder(s[i]).map_values(f)
            + preorder_seq(s, i + 1).map_values(f));
        assert(ExprV::all_ids_seq(views_of(s), i) == views_of(s)[i].all_ids()
            + ExprV::all_ids_seq(views_of(s), i + 1));
    } else {
        assert(preorder_seq(s, i).map_values(f) =~= Seq::<ExprId>::empty());
        assert(ExprV::all_ids_seq(views_of(s), i) =~= Seq::<ExprId>::empty());
    }
}

proof fn lemma_preorder_ids_node(e: Expr, parent_list: Seq<Expr>)
    requires
        parent_list.contains(e),
    ensures
        preorder(e).map_values(|n: Expr| n@.id()) == e@.all_ids(),
    decreases parent_list, 0int,
{
    lemma_preorder_ids(e);
}

} // verus!
