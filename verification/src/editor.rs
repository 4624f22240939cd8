//! The editor: one shared expression tree, a selection, a yank stack and a
//! read-only toy box, mutated only by draining a FIFO queue of input events,
//! followed by exactly one full re-layout — mutations never interleave with
//! a layout pass.
use vstd::prelude::*;

use crate::builder::ExprTemplate;
use crate::builder::TemplateV;
use crate::builder::lemma_tviews_of;
use crate::builder::tviews_of;
use crate::expr::Expr;
use crate::expr::ExprId;
use crate::expr::ExprV;
use crate::expr::lemma_remove_none;
use crate::expr::lemma_remove_valid;
use crate::expr::lemma_with_text_ids;
use crate::expr::lemma_views_of;
use crate::expr::views_of;
use crate::render::ExprRendering;
use crate::render::ExprViewId;
use crate::render::RenderingState;
use crate::render::RenderingV;
use crate::render::placed;
use crate::render::point2;
use crate::render::sat;
use crate::render::sat_add;
use crate::view::ExprView;
use crate::view::empty_rv;
use crate::view::lemma_render_view_congruence;
use crate::view::spec_render_view;

verus! {

/// The horizontal offset of the yank-list column.
pub const YANK_COLUMN_OFFSET: u32 = 500;

/// The horizontal offset of the main document column.
pub const EDITOR_COLUMN_OFFSET: u32 = 200;

/// The vertical gap between stacked entries of a column.
pub const ROW_GAP: u32 = 20;

/// An input event. Events are queued by the host and processed strictly in
/// order; the host's text prompt runs when the event is raised, and its
/// answer travels inside the event.
#[derive(Debug)]
pub enum Event {
    /// Select the node `id` in the view `view_id`; no validation that the
    /// id exists there (a stale id simply highlights nothing).
    Select { view_id: ExprViewId, id: ExprId },
    /// Edit the node `id` in the view `view_id`; only the main view is
    /// editable. `input` is what the host's text prompt returned: entered
    /// text replaces the node's editable text field, and a cancelled prompt
    /// (`None`) yanks the subtree instead — the deliberate reading of
    /// cancel-as-delete, pinned here by the contracts.
    Edit { view_id: ExprViewId, id: ExprId, input: Option<String> },
}

/// The mathematical view of an event.
pub enum EventV {
    Select { view_id: ExprViewId, id: ExprId },
    Edit { view_id: ExprViewId, id: ExprId, input: Option<Seq<char>> },
}

/// The view of an optional input string.
pub open spec fn input_view(o: Option<String>) -> Option<Seq<char>> {
    match o {
        Some(s) => Some(s@),
        None => None,
    }
}

impl View for Event {
    type V = EventV;

    open spec fn view(&self) -> EventV {
        match self {
            Event::Select { view_id, id } => EventV::Select { view_id: *view_id, id: *id },
            Event::Edit { view_id, id, input } => EventV::Edit {
                view_id: *view_id,
                id: *id,
                input: input_view(*input),
            },
        }
    }
}

/// Data about one instance of the editor.
#[derive(Debug)]
pub struct Editor {
    /// The expression the user is currently editing.
    pub expr: Expr,
    /// Yanked expressions, oldest first; displayed newest first.
    pub yanked: Vec<Expr>,
    /// The current selection in one of the editor's views.
    pub selection: Option<(ExprViewId, ExprId)>,
    /// A constant list from which the user can drag expressions.
    pub toy_box: Vec<Expr>,
}

/// The mathematical view of the editor state.
#[verifier::ext_equal]
pub struct EditorV {
    pub expr: ExprV,
    pub yanked: Seq<ExprV>,
    pub selection: Option<(ExprViewId, ExprId)>,
    pub toy_box: Seq<ExprV>,
}

impl View for Editor {
    type V = EditorV;

    open spec fn view(&self) -> EditorV {
        EditorV {
            expr: self.expr@,
            yanked: views_of(self.yanked@),
            selection: self.selection,
            toy_box: views_of(self.toy_box@),
        }
    }
}

/// What the selection shows within one view.
pub open spec fn sel_in_view(sel: Option<(ExprViewId, ExprId)>, vid: ExprViewId) -> Option<
    ExprId,
> {
    match sel {
        Some(p) => if p.0 == vid {
            Some(p.1)
        } else {
            None
        },
        None => None,
    }
}

/// What an edit event does to the editor: entered text replaces the target
/// node's editable text field; a cancelled prompt detaches the subtree onto
/// the yank stack, except that the root (and an absent id) stays put.
pub open spec fn spec_edit(ed: EditorV, id: ExprId, input: Option<Seq<char>>) -> EditorV {
    match input {
        Some(t) => EditorV { expr: ed.expr.with_text(id, t), ..ed },
        None => {
            if id == ed.expr.id() {
                ed
            } else {
                let (t2, r) = ed.expr.remove_desc(id);
                match r {
                    Some(d) => EditorV { expr: t2, yanked: ed.yanked.push(d), ..ed },
                    None => ed,
                }
            }
        },
    }
}

/// What one event does to the editor. Only the main view is editable.
pub open spec fn spec_step(ed: EditorV, ev: EventV) -> EditorV {
    match ev {
        EventV::Select { view_id, id } => EditorV { selection: Some((view_id, id)), ..ed },
        EventV::Edit { view_id, id, input } => if view_id == ExprViewId::Main {
            spec_edit(ed, id, input)
        } else {
            ed
        },
    }
}

/// Process the events of `evs` from index `i` on, strictly in order.
pub open spec fn spec_steps(ed: EditorV, evs: Seq<EventV>, i: int) -> EditorV
    decreases evs.len() - i,
{
    if i < 0 || i >= evs.len() {
        ed
    } else {
        spec_steps(spec_step(ed, evs[i]), evs, i + 1)
    }
}

/// The shape of the `k`-th toy box entry.
pub open spec fn toy_template(k: int) -> TemplateV {
    if k == 0 {
        TemplateV::Do { expressions: seq![TemplateV::Hole] }
    } else if k == 1 {
        TemplateV::Call {
            function: "if"@,
            arguments: seq![TemplateV::Hole, TemplateV::Hole, TemplateV::Hole],
        }
    } else if k == 2 {
        TemplateV::Call { function: "print"@, arguments: seq![TemplateV::Var { name: "thing"@ }] }
    } else if k == 3 {
        TemplateV::Comment { text: "A comment"@ }
    } else if k == 4 {
        TemplateV::Lit { kind: "int"@, content: "42"@ }
    } else if k == 5 {
        TemplateV::Var { name: "variable"@ }
    } else {
        TemplateV::Hole
    }
}

/// The `k`-th toy box expression: its template built with ids from 1.
pub open spec fn toy_expr(k: int) -> ExprV {
    toy_template(k).build_spec(1).0
}

/// Stack the toy box entries vertically from index `i` on, each a frozen,
/// unselectable view, each placed one row gap below the current height.
pub open spec fn spec_render_toybox(
    toys: Seq<ExprV>,
    st: RenderingState,
    acc: RenderingV,
    i: int,
) -> RenderingV
    decreases toys.len() - i,
{
    if i < 0 || i >= toys.len() {
        acc
    } else {
        let v = ExprView {
            id: ExprViewId::ToyBox { index: i as usize },
            selection: None,
            frozen: true,
        };
        let r = spec_render_view(v, toys[i], st);
        let acc1 = placed(acc, 0, sat(acc.height + ROW_GAP), r);
        spec_render_toybox(toys, st, acc1, i + 1)
    }
}

/// Stack the yank list from index `i` on, newest entry first, each an
/// editable view carrying the selection scoped to it.
pub open spec fn spec_render_yanks(
    yanked: Seq<ExprV>,
    sel: Option<(ExprViewId, ExprId)>,
    st: RenderingState,
    acc: RenderingV,
    i: int,
) -> RenderingV
    decreases yanked.len() - i,
{
    if i < 0 || i >= yanked.len() {
        acc
    } else {
        let vid = ExprViewId::Yanked { index: i as usize };
        let v = ExprView { id: vid, selection: sel_in_view(sel, vid), frozen: false };
        let r = spec_render_view(v, yanked[yanked.len() - 1 - i], st);
        let acc1 = placed(acc, 0, sat(acc.height + ROW_GAP), r);
        spec_render_yanks(yanked, sel, st, acc1, i + 1)
    }
}

/// The composite canvas: the toy box column at the origin, the yank column
/// and the main document offset horizontally, all primitives keeping their
/// `(view, node)` routing pair.
pub open spec fn spec_render_editor(ed: EditorV, st: RenderingState) -> RenderingV {
    let toybox = spec_render_toybox(ed.toy_box, st, empty_rv(), 0);
    let yanks = spec_render_yanks(ed.yanked, ed.selection, st, empty_rv(), 0);
    let main = spec_render_view(
        ExprView {
            id: ExprViewId::Main,
            selection: sel_in_view(ed.selection, ExprViewId::Main),
            frozen: false,
        },
        ed.expr,
        st,
    );
    let c1 = placed(empty_rv(), 0, 0, toybox);
    let c2 = placed(c1, YANK_COLUMN_OFFSET as int, 0, yanks);
    placed(c2, EDITOR_COLUMN_OFFSET as int, 0, main)
}

proof fn lemma_render_toybox_congruence(
    toys: Seq<ExprV>,
    st1: RenderingState,
    st2: RenderingState,
    acc: RenderingV,
    i: int,
)
    requires
        forall|s: Seq<char>| st1.spec_metric(s) == st2.spec_metric(s),
    ensures
        spec_render_toybox(toys, st1, acc, i) == spec_render_toybox(toys, st2, acc, i),
    decreases toys.len() - i,
{
    if 0 <= i && i < toys.len() {
        let v = ExprView {
            id: ExprViewId::ToyBox { index: i as usize },
            selection: None,
            frozen: true,
        };
        lemma_render_view_congruence(v, toys[i], st1, st2);
        let r = spec_render_view(v, toys[i], st1);
        let acc1 = placed(acc, 0, sat(acc.height + ROW_GAP), r);
        lemma_render_toybox_congruence(toys, st1, st2, acc1, i + 1);
    }
}

proof fn lemma_render_yanks_congruence(
    yanked: Seq<ExprV>,
    sel: Option<(ExprViewId, ExprId)>,
    st1: RenderingState,
    st2: RenderingState,
    acc: RenderingV,
    i: int,
)
    requires
        forall|s: Seq<char>| st1.spec_metric(s) == st2.spec_metric(s),
    ensures
        spec_render_yanks(yanked, sel, st1, acc, i) == spec_render_yanks(yanked, sel, st2, acc, i),
    decreases yanked.len() - i,
{
    if 0 <= i && i < yanked.len() {
        let vid = ExprViewId::Yanked { index: i as usize };
        let v = ExprView { id: vid, selection: sel_in_view(sel, vid), frozen: false };
        lemma_render_view_congruence(v, yanked[yanked.len() - 1 - i], st1, st2);
        let r = spec_render_view(v, yanked[yanked.len() - 1 - i], st1);
        let acc1 = placed(acc, 0, sat(acc.height + ROW_GAP), r);
        lemma_render_yanks_congruence(yanked, sel, st1, st2, acc1, i + 1);
    }
}

/// Look the selection up for one view.
fn sel_for(sel: &Option<(ExprViewId, ExprId)>, vid: ExprViewId) -> (r: Option<ExprId>)
    ensures
        r == sel_in_view(*sel, vid),
{
    match sel {
        Some(p) => {
            if p.0 == vid {
                Some(p.1)
            } else {
                None
            }
        },
        None => None,
    }
}

impl Editor {
    /// A fresh editor: an empty block as the document, nothing yanked,
    /// nothing selected, and the constant toy box.
    pub fn new() -> (r: Editor)
        ensures
            r@.expr == (ExprV::Do { id: ExprId(0), expressions: Seq::empty() }),
            r@.yanked == Seq::<ExprV>::empty(),
            r@.selection is None,
            r@.toy_box.len() == 6,
            forall|k: int| 0 <= k < 6 ==> #[trigger] r@.toy_box[k] == toy_expr(k),
            forall|k: int| 0 <= k < 6 ==> (#[trigger] r@.toy_box[k]).valid(),
            r@.expr.valid(),
            all_valid(r@.yanked),
    {
        let r = Editor {
            expr: Expr::Do { id: ExprId::from_raw(0), expressions: Vec::new() },
            yanked: Vec::new(),
            selection: None,
            toy_box: Self::make_toy_box(),
        };
        proof {
            assert(views_of(Seq::<Expr>::empty()) =~= Seq::<ExprV>::empty()) by {
                lemma_views_of(Seq::<Expr>::empty());
            }
            lemma_views_of(r.yanked@);
            assert(views_of(r.yanked@) =~= Seq::<ExprV>::empty());
            // a one-node document trivially has pairwise-distinct ids
            let ids = r@.expr.all_ids();
            assert(ids =~= seq![ExprId(0)] + ExprV::all_ids_seq(Seq::empty(), 0));
            assert(ids.len() == 1);
            assert(ids.no_duplicates());
        }
        r
    }

    /// The constant list of example expressions the user can reach for: a
    /// block, an `if`, a `print` call, a comment, a literal and a variable,
    /// each with ids assigned from 1.
    pub fn make_toy_box() -> (r: Vec<Expr>)
        ensures
            views_of(r@).len() == 6,
            forall|k: int| 0 <= k < 6 ==> #[trigger] views_of(r@)[k] == toy_expr(k),
            forall|k: int| 0 <= k < 6 ==> (#[trigger] views_of(r@)[k]).valid(),
    {
        let mut out: Vec<Expr> = Vec::new();

        let t0 = ExprTemplate::Do { expressions: vec![ExprTemplate::Hole] };
        proof {
            lemma_tviews_of(t0->Do_expressions@);
            assert(tviews_of(t0->Do_expressions@) =~= seq![TemplateV::Hole]);
            assert(t0@ == toy_template(0));
            reveal_with_fuel(TemplateV::count, 3);
            reveal_with_fuel(TemplateV::count_seq, 5);
            assert(t0@.count() == 2);
        }
        let mut c0: u32 = 1;
        out.push(t0.build(&mut c0));

        let t1 = ExprTemplate::Call {
            function: "if".to_owned(),
            arguments: vec![ExprTemplate::Hole, ExprTemplate::Hole, ExprTemplate::Hole],
        };
        proof {
            lemma_tviews_of(t1->Call_arguments@);
            assert(tviews_of(t1->Call_arguments@) =~= seq![
                TemplateV::Hole,
                TemplateV::Hole,
                TemplateV::Hole,
            ]);
            assert(t1@ == toy_template(1));
            let args = seq![TemplateV::Hole, TemplateV::Hole, TemplateV::Hole];
            assert(TemplateV::count_seq(args, 3) == 0);
            assert(TemplateV::Hole.count() == 1);
            assert(TemplateV::count_seq(args, 2) == 1);
            assert(TemplateV::count_seq(args, 1) == 2);
            assert(TemplateV::count_seq(args, 0) == 3);
            assert(t1@.count() == 4);
        }
        let mut c1: u32 = 1;
        out.push(t1.build(&mut c1));

        let t2 = ExprTemplate::Call {
            function: "print".to_owned(),
            arguments: vec![ExprTemplate::Var { name: "thing".to_owned() }],
        };
        proof {
            lemma_tviews_of(t2->Call_arguments@);
            assert(tviews_of(t2->Call_arguments@) =~= seq![TemplateV::Var { name: "thing"@ }]);
            assert(t2@ == toy_template(2));
            reveal_with_fuel(TemplateV::count, 3);
            reveal_with_fuel(TemplateV::count_seq, 5);
            assert(t2@.count() == 2);
        }
        let mut c2: u32 = 1;
        out.push(t2.build(&mut c2));

        let t3 = ExprTemplate::Comment { text: "A comment".to_owned() };
        proof {
            assert(t3@ == toy_template(3));
        }
        let mut c3: u32 = 1;
        out.push(t3.build(&mut c3));

        let t4 = ExprTemplate::Lit { kind: "int".to_owned(), content: "42".to_owned() };
        proof {
            assert(t4@ == toy_template(4));
        }
        let mut c4: u32 = 1;
        out.push(t4.build(&mut c4));

        let t5 = ExprTemplate::Var { name: "variable".to_owned() };
        proof {
            assert(t5@ == toy_template(5));
        }
        let mut c5: u32 = 1;
        out.push(t5.build(&mut c5));

        proof {
            lemma_views_of(out@);
        }
        out
    }

    /// Apply an edit to the node carrying `id`: entered text replaces its
    /// editable text field; a cancelled prompt (`None`) yanks the subtree,
    /// except that the root and absent ids stay put.
    pub fn edit(&mut self, id: ExprId, text: Option<String>)
        ensures
            final(self)@ == spec_edit(old(self)@, id, input_view(text)),
    {
        match text {
            Some(t) => {
                self.expr.set_text(id, t.as_str());
                proof {
                    assert(self@ =~= spec_edit(old(self)@, id, input_view(Some(t))));
                }
            },
            None => {
                let removed = self.expr.remove_by_id(id);
                proof {
                    lemma_remove_none(old(self).expr@, id);
                }
                match removed {
                    Some(d) => {
                        let ghost pre = self.yanked@;
                        self.yanked.push(d);
                        proof {
                            lemma_views_of(pre);
                            lemma_views_of(self.yanked@);
                            assert(views_of(self.yanked@) =~= views_of(pre).push(d@));
                            assert(self@ =~= spec_edit(old(self)@, id, None));
                        }
                    },
                    None => {
                        proof {
                            assert(self@ =~= spec_edit(old(self)@, id, None));
                        }
                    },
                }
            },
        }
    }

    /// Render the toy box column: each entry stacked one row gap below the
    /// previous content.
    pub fn render_toy_box(&self, state: &mut RenderingState) -> (r: ExprRendering)
        requires
            old(state).wf(),
        ensures
            final(state).wf(),
            r@ == spec_render_toybox(self@.toy_box, *old(state), empty_rv(), 0),
            forall|s: Seq<char>| final(state).spec_metric(s) == old(state).spec_metric(s),
    {
        let ghost st0 = *state;
        let ghost toys = self@.toy_box;
        proof {
            lemma_views_of(self.toy_box@);
        }
        let mut out = ExprRendering::empty();
        proof {
            assert(out@ =~~= empty_rv());
        }
        let ghost acc0 = out@;
        let n = self.toy_box.len();
        let mut i: usize = 0;
        while i < n
            invariant
                n == self.toy_box@.len(),
                toys == views_of(self.toy_box@),
                toys.len() == n,
                forall|k: int| 0 <= k < n ==> toys[k] == self.toy_box@[k]@,
                state.wf(),
                forall|s: Seq<char>| state.spec_metric(s) == st0.spec_metric(s),
                spec_render_toybox(toys, st0, out@, i as int) == spec_render_toybox(
                    toys,
                    st0,
                    acc0,
                    0,
                ),
            decreases n - i,
        {
            let ghost acc = out@;
            let view = ExprView {
                id: ExprViewId::ToyBox { index: i },
                selection: None,
                frozen: true,
            };
            let ghost st_before = *state;
            let rendered = view.render(state, &self.toy_box[i]);
            proof {
                lemma_render_view_congruence(view, toys[i as int], st_before, st0);
            }
            let y = sat_add(out.size.height, ROW_GAP);
            out.place(point2(0, y), rendered);
            proof {
                let acc1 = placed(acc, 0, sat(acc.height + ROW_GAP), spec_render_view(
                    view,
                    toys[i as int],
                    st0,
                ));
                assert(out@ =~~= acc1);
                assert(spec_render_toybox(toys, st0, acc, i as int) == spec_render_toybox(
                    toys,
                    st0,
                    acc1,
                    i + 1,
                ));
            }
            i = i + 1;
        }
        out
    }

    /// Render the yank list column, newest entry first, each one row gap
    /// below the previous content.
    pub fn render_yank_list(&self, state: &mut RenderingState) -> (r: ExprRendering)
        requires
            old(state).wf(),
        ensures
            final(state).wf(),
            r@ == spec_render_yanks(self@.yanked, self.selection, *old(state), empty_rv(), 0),
            forall|s: Seq<char>| final(state).spec_metric(s) == old(state).spec_metric(s),
    {
        let ghost st0 = *state;
        let ghost ys = self@.yanked;
        proof {
            lemma_views_of(self.yanked@);
        }
        let mut out = ExprRendering::empty();
        proof {
            assert(out@ =~~= empty_rv());
        }
        let ghost acc0 = out@;
        let n = self.yanked.len();
        let mut i: usize = 0;
        while i < n
            invariant
                n == self.yanked@.len(),
                ys == views_of(self.yanked@),
                ys.len() == n,
                forall|k: int| 0 <= k < n ==> ys[k] == self.yanked@[k]@,
                state.wf(),
                forall|s: Seq<char>| state.spec_metric(s) == st0.spec_metric(s),
                spec_render_yanks(ys, self.selection, st0, out@, i as int) == spec_render_yanks(
                    ys,
                    self.selection,
                    st0,
                    acc0,
                    0,
                ),
            decreases n - i,
        {
            let ghost acc = out@;
            let vid = ExprViewId::Yanked { index: i };
            let view = ExprView { id: vid, selection: sel_for(&self.selection, vid), frozen: false };
            let idx = n - 1 - i;
            let ghost st_before = *state;
            let rendered = view.render(state, &self.yanked[idx]);
            proof {
                lemma_render_view_congruence(view, ys[ys.len() - 1 - i], st_before, st0);
            }
            let y = sat_add(out.size.height, ROW_GAP);
            out.place(point2(0, y), rendered);
            proof {
                let acc1 = placed(acc, 0, sat(acc.height + ROW_GAP), spec_render_view(
                    view,
                    ys[ys.len() - 1 - i],
                    st0,
                ));
                assert(out@ =~~= acc1);
                assert(spec_render_yanks(ys, self.selection, st0, acc, i as int)
                    == spec_render_yanks(ys, self.selection, st0, acc1, i + 1));
            }
            i = i + 1;
        }
        out
    }

    /// Render the whole canvas: the toy box at the origin, the yank list and
    /// the main document offset horizontally, unioned into one composite
    /// with every primitive keeping its `(view, node)` routing pair.
    pub fn render(&self, state: &mut RenderingState) -> (r: ExprRendering)
        requires
            old(state).wf(),
        ensures
            final(state).wf(),
            r@ == spec_render_editor(self@, *old(state)),
            forall|s: Seq<char>| final(state).spec_metric(s) == old(state).spec_metric(s),
    {
        let ghost st0 = *state;
        let mut canvas = ExprRendering::empty();
        proof {
            assert(canvas@ =~~= empty_rv());
        }
        let toybox = self.render_toy_box(state);
        canvas.place(point2(0, 0), toybox);
        let ghost st1 = *state;
        let yanks = self.render_yank_list(state);
        proof {
            lemma_render_yanks_congruence(self@.yanked, self.selection, st1, st0, empty_rv(), 0);
        }
        canvas.place(point2(YANK_COLUMN_OFFSET, 0), yanks);
        let main_view = ExprView {
            id: ExprViewId::Main,
            selection: sel_for(&self.selection, ExprViewId::Main),
            frozen: false,
        };
        let ghost st2 = *state;
        let main = main_view.render(state, &self.expr);
        proof {
            lemma_render_view_congruence(main_view, self@.expr, st2, st0);
        }
        canvas.place(point2(EDITOR_COLUMN_OFFSET, 0), main);
        proof {
            assert(canvas@ =~~= spec_render_editor(self@, st0));
        }
        canvas
    }
}

/// The whole editor application state: the editor, the metrics cache, and
/// the queue of pending input events.
pub struct KaleState {
    pub editor: Editor,
    pub rendering_state: RenderingState,
    pub event_queue: Vec<Event>,
}

impl KaleState {
    /// A fresh application: a new editor, an empty metrics cache, and no
    /// pending events.
    pub fn new() -> (r: KaleState)
        ensures
            r.editor@.expr == (ExprV::Do { id: ExprId(0), expressions: Seq::empty() }),
            r.editor@.yanked == Seq::<ExprV>::empty(),
            r.editor@.selection is None,
            r.editor@.toy_box.len() == 6,
            forall|k: int| 0 <= k < 6 ==> #[trigger] r.editor@.toy_box[k] == toy_expr(k),
            r.editor@.expr.valid(),
            all_valid(r.editor@.yanked),
            r.event_queue@ == Seq::<Event>::empty(),
            r.rendering_state.wf(),
            forall|s: Seq<char>|
                r.rendering_state.spec_metric(s) == crate::render::default_width(s),
    {
        KaleState {
            editor: Editor::new(),
            rendering_state: RenderingState::new(),
            event_queue: Vec::new(),
        }
    }

    /// Queue an event; nothing is mutated until the queue is drained.
    pub fn push_event(&mut self, event: Event)
        ensures
            final(self).event_queue@ == old(self).event_queue@.push(event),
            final(self).editor == old(self).editor,
            final(self).rendering_state == old(self).rendering_state,
    {
        self.event_queue.push(event);
    }

    /// Drain the queue strictly first-in-first-out, applying each event to
    /// the editor, then run exactly one full layout pass over the new state
    /// — visual updates are batched, never once per event.
    pub fn process_events(&mut self) -> (r: ExprRendering)
        requires
            old(self).rendering_state.wf(),
        ensures
            final(self).editor@ == spec_steps(
                old(self).editor@,
                old(self).event_queue@.map_values(|e: Event| e@),
                0,
            ),
            final(self).event_queue@.len() == 0,
            final(self).rendering_state.wf(),
            forall|s: Seq<char>|
                final(self).rendering_state.spec_metric(s) == old(
                    self,
                ).rendering_state.spec_metric(s),
            r@ == spec_render_editor(final(self).editor@, old(self).rendering_state),
    {
        let ghost evs = old(self).event_queue@.map_values(|e: Event| e@);
        let ghost ed0 = old(self).editor@;
        let ghost q0 = old(self).event_queue@;
        let n = self.event_queue.len();
        let mut i: usize = 0;
        while i < n
            invariant
                n == q0.len(),
                evs == q0.map_values(|e: Event| e@),
                evs.len() == n,
                i <= n,
                self.event_queue@ == q0.subrange(i as int, n as int),
                self.rendering_state == old(self).rendering_state,
                spec_steps(self.editor@, evs, i as int) == spec_steps(ed0, evs, 0),
            decreases n - i,
        {
            let ghost before = self.editor@;
            let ev = self.event_queue.remove(0);
            proof {
                assert(ev == q0[i as int]);
                assert(ev@ == evs[i as int]);
                assert(self.event_queue@ =~= q0.subrange(i + 1, n as int));
            }
            match ev {
                Event::Select { view_id, id } => {
                    self.editor.selection = Some((view_id, id));
                    proof {
                        assert(self.editor@ =~= spec_step(before, evs[i as int]));
                    }
                },
                Event::Edit { view_id, id, input } => {
                    if view_id == ExprViewId::Main {
                        self.editor.edit(id, input);
                    }
                    proof {
                        assert(self.editor@ =~= spec_step(before, evs[i as int]));
                    }
                },
            }
            i = i + 1;
        }
        let r = self.editor.render(&mut self.rendering_state);
        r
    }
}

/// Two states that measure alike render the whole editor alike.
pub proof fn lemma_render_editor_congruence(
    ed: EditorV,
    st1: RenderingState,
    st2: RenderingState,
)
    requires
        forall|s: Seq<char>| st1.spec_metric(s) == st2.spec_metric(s),
    ensures
        spec_render_editor(ed, st1) == spec_render_editor(ed, st2),
{
    lemma_render_toybox_congruence(ed.toy_box, st1, st2, empty_rv(), 0);
    lemma_render_yanks_congruence(ed.yanked, ed.selection, st1, st2, empty_rv(), 0);
    lemma_render_view_congruence(
        ExprView {
            id: ExprViewId::Main,
            selection: sel_in_view(ed.selection, ExprViewId::Main),
            frozen: false,
        },
        ed.expr,
        st1,
        st2,
    );
}

/// Every tree of `ys` is valid.
pub open spec fn all_valid(ys: Seq<ExprV>) -> bool {
    forall|k: int| 0 <= k < ys.len() ==> (#[trigger] ys[k]).valid()
}

/// The data-model invariant survives one edit: a valid document stays valid
/// under text replacement and under yanking, and every subtree on the yank
/// stack stays valid, the newly yanked one included.
pub proof fn lemma_edit_preserves_valid(ed: EditorV, id: ExprId, input: Option<Seq<char>>)
    requires
        ed.expr.valid(),
        all_valid(ed.yanked),
    ensures
        spec_edit(ed, id, input).expr.valid(),
        all_valid(spec_edit(ed, id, input).yanked),
{
    match input {
        Some(t) => {
            lemma_with_text_ids(ed.expr, id, t);
        },
        None => {
            if id != ed.expr.id() {
                lemma_remove_valid(ed.expr, id);
                let (t2, r) = ed.expr.remove_desc(id);
                if r is Some {
                    let ys = ed.yanked.push(r->0);
                    assert forall|k: int| 0 <= k < ys.len() implies (#[trigger] ys[k]).valid() by {
                        if k < ed.yanked.len() {
                            assert(ys[k] == ed.yanked[k]);
                        }
                    }
                }
            }
        },
    }
}

/// Draining any queue of events preserves the invariant: the document and
/// every yanked subtree stay valid, whatever the events were.
pub proof fn lemma_steps_preserve_valid(ed: EditorV, evs: Seq<EventV>, i: int)
    requires
        ed.expr.valid(),
        all_valid(ed.yanked),
    ensures
        spec_steps(ed, evs, i).expr.valid(),
        all_valid(spec_steps(ed, evs, i).yanked),
    decreases evs.len() - i,
{
    if 0 <= i && i < evs.len() {
        let ed2 = spec_step(ed, evs[i]);
        match evs[i] {
            EventV::Select { .. } => {},
            EventV::Edit { view_id, id, input } => {
                if view_id == ExprViewId::Main {
                    lemma_edit_preserves_valid(ed, id, input);
                }
            },
        }
        lemma_steps_preserve_valid(ed2, evs, i + 1);
    }
}

} // verus!
