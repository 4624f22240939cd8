//! The layout engine: a recursive, bottom-up pass that turns an expression
//! tree into positioned visual primitives, every primitive tagged with the
//! id of the node that produced it (a call's argument separators carry the
//! argument's id, since clicking one selects the argument).
use vstd::prelude::*;

use crate::expr::Expr;
use crate::expr::ExprId;
use crate::expr::ExprV;
use crate::expr::lemma_child_smaller;
use crate::expr::lemma_views_of;
use crate::expr::views_of;
use crate::render::Circle;
use crate::render::ExprViewId;
use crate::render::ElementV;
use crate::render::ExprRendering;
use crate::render::LINE_HEIGHT;
use crate::render::Rect;
use crate::render::Renderable;
use crate::render::RenderingState;
use crate::render::RenderingV;
use crate::render::SvgSize;
use crate::render::ShapeV;
use crate::render::Text;
use crate::render::TextStyle;
use crate::render::placed;
use crate::render::placed_at;
use crate::render::point2;
use crate::render::rect2;
use crate::render::sat;
use crate::render::sat_add;
use crate::render::tagged;

verus! {

/// The space left between layout parts, in abstract pixel units.
pub const PADDING: u32 = 3;

/// A rendering with no elements and zero size.
pub open spec fn empty_rv() -> RenderingV {
    RenderingV { elements: Seq::empty(), width: 0, height: 0 }
}

/// One tagged text run at the origin, sized by the metric for its content.
pub open spec fn leaf_text_rv(
    content: Seq<char>,
    style: TextStyle,
    colour: Seq<char>,
    id: ExprId,
    st: RenderingState,
) -> RenderingV {
    RenderingV {
        elements: seq![
            ElementV {
                x: 0,
                y: 0,
                shape: ShapeV::TextShape { x: 0, y: 0, content, style, colour },
                tag: Some(id),
                view: None,
            },
        ],
        width: st.spec_metric(content),
        height: LINE_HEIGHT as int,
    }
}

/// The separator marker before a call argument: a small grey circle tagged
/// with the *argument's* id, so clicking it selects the argument.
pub open spec fn separator_rv(id: ExprId) -> RenderingV {
    RenderingV {
        elements: seq![
            ElementV {
                x: 0,
                y: 0,
                shape: ShapeV::CircleShape {
                    x: 3,
                    y: 3,
                    radius: 3,
                    fill: Some("#aaa"@),
                    stroke: None,
                },
                tag: Some(id),
                view: None,
            },
        ],
        width: 6,
        height: 6,
    }
}

/// One rectangle at the origin.
pub open spec fn box_rv(
    width: int,
    height: int,
    fill: Option<Seq<char>>,
    stroke: Option<Seq<char>>,
    tag: Option<ExprId>,
) -> RenderingV {
    RenderingV {
        elements: seq![
            ElementV {
                x: 0,
                y: 0,
                shape: ShapeV::RectShape { x: 0, y: 0, width, height, fill, stroke },
                tag,
                view: None,
            },
        ],
        width,
        height,
    }
}

/// Lay out a node: the rendering it produces before any selection overlay.
pub open spec fn spec_render_base(e: ExprV, sel: Option<ExprId>, st: RenderingState) -> RenderingV
    decreases e, 0int,
{
    match e {
        ExprV::Comment { id, text } => leaf_text_rv(
            text,
            TextStyle::Comment,
            "#43a047"@,
            id,
            st,
        ),
        ExprV::Var { id, name } => leaf_text_rv(name, TextStyle::Mono, "#f44336"@, id, st),
        ExprV::Lit { id, kind, content } => leaf_text_rv(
            content,
            TextStyle::Mono,
            "#283593"@,
            id,
            st,
        ),
        ExprV::Call { id, function, arguments } => {
            let start = leaf_text_rv(function, TextStyle::Mono, "#000"@, id, st);
            let acc = RenderingV { width: sat(start.width + PADDING), ..start };
            spec_render_args(arguments, sel, st, acc, 0)
        },
        ExprV::Do { id, expressions } => {
            let body = spec_render_block(expressions, sel, st, empty_rv(), 0);
            placed_at(body, 0, 0, 0, box_rv(1, body.height, Some("#aaa"@), None, Some(id)))
        },
        ExprV::Hole { id } => box_rv(16, 16, Some("red"@), None, Some(id)),
    }
}

/// Lay out a node, then overlay the selection outline behind everything if
/// the node is the selected one.
pub open spec fn spec_render_expr(e: ExprV, sel: Option<ExprId>, st: RenderingState) -> RenderingV
    decreases e, 1int,
{
    let base = spec_render_base(e, sel, st);
    if sel == Some(e.id()) {
        placed_at(base, 0, 0, 0, box_rv(base.width, base.height, None, Some("#aaa"@), None))
    } else {
        base
    }
}

/// Fold a call's arguments from index `i` into the running rendering: a
/// separator at (cursor+3, 2), the argument at (cursor+1, 0), then the
/// cursor advances by the padding.
pub open spec fn spec_render_args(
    args: Seq<ExprV>,
    sel: Option<ExprId>,
    st: RenderingState,
    acc: RenderingV,
    i: int,
) -> RenderingV
    decreases args, args.len() - i,
{
    if i < 0 || i >= args.len() {
        acc
    } else {
        let acc1 = placed(acc, sat(acc.width + 3), 2, separator_rv(args[i].id()));
        let acc2 = placed(acc1, sat(acc1.width + 1), 0, spec_render_expr(args[i], sel, st));
        let acc3 = RenderingV { width: sat(acc2.width + PADDING), ..acc2 };
        spec_render_args(args, sel, st, acc3, i + 1)
    }
}

/// Stack a block's expressions from index `i` vertically, each at
/// (5, running height), advancing the running height by the padding.
pub open spec fn spec_render_block(
    exprs: Seq<ExprV>,
    sel: Option<ExprId>,
    st: RenderingState,
    acc: RenderingV,
    i: int,
) -> RenderingV
    decreases exprs, exprs.len() - i,
{
    if i < 0 || i >= exprs.len() {
        acc
    } else {
        let acc1 = placed(acc, 5, acc.height, spec_render_expr(exprs[i], sel, st));
        let acc2 = RenderingV { height: sat(acc1.height + PADDING), ..acc1 };
        spec_render_block(exprs, sel, st, acc2, i + 1)
    }
}

/// The layout depends on the metrics state only through the widths it
/// records: two states that measure alike lay out alike.
pub proof fn lemma_render_congruence(
    e: ExprV,
    sel: Option<ExprId>,
    st1: RenderingState,
    st2: RenderingState,
)
    requires
        forall|s: Seq<char>| st1.spec_metric(s) == st2.spec_metric(s),
    ensures
        spec_render_expr(e, sel, st1) == spec_render_expr(e, sel, st2),
        spec_render_base(e, sel, st1) == spec_render_base(e, sel, st2),
    decreases e, 0int,
{
    match e {
        ExprV::Call { id, function, arguments } => {
            let start = leaf_text_rv(function, TextStyle::Mono, "#000"@, id, st1);
            let acc = RenderingV { width: sat(start.width + PADDING), ..start };
            lemma_render_args_congruence(arguments, sel, st1, st2, acc, 0);
        },
        ExprV::Do { id, expressions } => {
            lemma_render_block_congruence(expressions, sel, st1, st2, empty_rv(), 0);
        },
        _ => {},
    }
}

proof fn lemma_render_args_congruence(
    args: Seq<ExprV>,
    sel: Option<ExprId>,
    st1: RenderingState,
    st2: RenderingState,
    acc: RenderingV,
    i: int,
)
    requires
        forall|s: Seq<char>| st1.spec_metric(s) == st2.spec_metric(s),
    ensures
        spec_render_args(args, sel, st1, acc, i) == spec_render_args(args, sel, st2, acc, i),
    decreases args, args.len() - i,
{
    if 0 <= i && i < args.len() {
        lemma_render_congruence_node(args[i], sel, st1, st2);
        let acc1 = placed(acc, sat(acc.width + 3), 2, separator_rv(args[i].id()));
        let acc2 = placed(acc1, sat(acc1.width + 1), 0, spec_render_expr(args[i], sel, st1));
        let acc3 = RenderingV { width: sat(acc2.width + PADDING), ..acc2 };
        lemma_render_args_congruence(args, sel, st1, st2, acc3, i + 1);
    }
}

proof fn lemma_render_block_congruence(
    exprs: Seq<ExprV>,
    sel: Option<ExprId>,
    st1: RenderingState,
    st2: RenderingState,
    acc: RenderingV,
    i: int,
)
    requires
        forall|s: Seq<char>| st1.spec_metric(s) == st2.spec_metric(s),
    ensures
        spec_render_block(exprs, sel, st1, acc, i) == spec_render_block(exprs, sel, st2, acc, i),
    decreases exprs, exprs.len() - i,
{
    if 0 <= i && i < exprs.len() {
        lemma_render_congruence_node(exprs[i], sel, st1, st2);
        let acc1 = placed(acc, 5, acc.height, spec_render_expr(exprs[i], sel, st1));
        let acc2 = RenderingV { height: sat(acc1.height + PADDING), ..acc1 };
        lemma_render_block_congruence(exprs, sel, st1, st2, acc2, i + 1);
    }
}

proof fn lemma_render_congruence_node(
    e: ExprV,
    sel: Option<ExprId>,
    st1: RenderingState,
    st2: RenderingState,
)
    requires
        forall|s: Seq<char>| st1.spec_metric(s) == st2.spec_metric(s),
    ensures
        spec_render_expr(e, sel, st1) == spec_render_expr(e, sel, st2),
        spec_render_base(e, sel, st1) == spec_render_base(e, sel, st2),
    decreases e, 1int,
{
    lemma_render_congruence(e, sel, st1, st2);
}


/// Render one tagged text run.
fn leaf_text(
    state: &mut RenderingState,
    content: &str,
    style: TextStyle,
    colour: &'static str,
    id: ExprId,
) -> (r: ExprRendering)
    requires
        old(state).wf(),
    ensures
        final(state).wf(),
        r@ == leaf_text_rv(content@, style, colour@, id, *old(state)),
        forall|s: Seq<char>| final(state).spec_metric(s) == old(state).spec_metric(s),
{
    let t = Text::new(content, style).colour(colour);
    let rend = t.render(state);
    let r = rend.click(id);
    proof {
        assert(rend@.elements[0] == (ElementV { x: 0, y: 0, shape: t.spec_shape(), tag: None, view: None }));
        assert(r@.elements[0] == tagged(rend@.elements[0], id));
        assert(r@ =~~= leaf_text_rv(content@, style, colour@, id, *old(state)));
    }
    r
}

/// Render the separator marker for the argument carrying `id`.
fn separator(state: &mut RenderingState, id: ExprId) -> (r: ExprRendering)
    requires
        old(state).wf(),
    ensures
        final(state).wf(),
        r@ == separator_rv(id),
        forall|s: Seq<char>| final(state).spec_metric(s) == old(state).spec_metric(s),
{
    let c = Circle::new(point2(3, 3), 3).fill("#aaa");
    let rend = c.render(state);
    let r = rend.click(id);
    proof {
        assert(rend@.elements[0] == (ElementV { x: 0, y: 0, shape: c.spec_shape(), tag: None, view: None }));
        assert(r@.elements[0] == tagged(rend@.elements[0], id));
        assert(r@ =~~= separator_rv(id));
    }
    r
}

/// Render a filled rectangle tagged with `id`.
fn filled_box(
    state: &mut RenderingState,
    width: u32,
    height: u32,
    colour: &'static str,
    id: ExprId,
) -> (r: ExprRendering)
    requires
        old(state).wf(),
    ensures
        final(state).wf(),
        r@ == box_rv(width as int, height as int, Some(colour@), None, Some(id)),
        forall|s: Seq<char>| final(state).spec_metric(s) == old(state).spec_metric(s),
{
    let b = Rect::new(rect2(0, 0, width, height)).fill(colour);
    let rend = b.render(state);
    let r = rend.click(id);
    proof {
        assert(rend@.elements[0] == (ElementV { x: 0, y: 0, shape: b.spec_shape(), tag: None, view: None }));
        assert(r@.elements[0] == tagged(rend@.elements[0], id));
        assert(r@ =~~= box_rv(width as int, height as int, Some(colour@), None, Some(id)));
    }
    r
}

/// Render an untagged outline rectangle, used for selection and frozen
/// overlays.
fn outline_box(state: &mut RenderingState, width: u32, height: u32) -> (r: ExprRendering)
    requires
        old(state).wf(),
    ensures
        final(state).wf(),
        r@ == box_rv(width as int, height as int, None, Some("#aaa"@), None),
        forall|s: Seq<char>| final(state).spec_metric(s) == old(state).spec_metric(s),
{
    let b = Rect::new(rect2(0, 0, width, height)).stroke("#aaa");
    let r = b.render(state);
    proof {
        assert(r@.elements[0] == (ElementV { x: 0, y: 0, shape: b.spec_shape(), tag: None, view: None }));
        assert(r@ =~~= box_rv(width as int, height as int, None, Some("#aaa"@), None));
    }
    r
}

/// Two states that measure alike render any view alike.
pub proof fn lemma_render_view_congruence(
    v: ExprView,
    e: ExprV,
    st1: RenderingState,
    st2: RenderingState,
)
    requires
        forall|s: Seq<char>| st1.spec_metric(s) == st2.spec_metric(s),
    ensures
        spec_render_view(v, e, st1) == spec_render_view(v, e, st2),
{
    lemma_render_congruence(e, v.selection, st1, st2);
}

/// A view showing a single expression: which selection it displays, and
/// whether it is frozen (not editable, shown with a permanent outline).
#[derive(Debug, Clone, Copy)]
pub struct ExprView {
    /// The identity this view's primitives are routed under.
    pub id: ExprViewId,
    /// Which node should be displayed as selected.
    pub selection: Option<ExprId>,
    /// A frozen view is not editable and is outlined.
    pub frozen: bool,
}

/// What a whole view renders: the expression's layout, and behind it the
/// outline rectangle if the view is frozen.
pub open spec fn spec_render_view(
    v: ExprView,
    e: ExprV,
    st: RenderingState,
) -> RenderingV {
    let base = spec_render_expr(e, v.selection, st);
    let framed = if v.frozen {
        placed_at(base, 0, 0, 0, box_rv(base.width, base.height, None, Some("#aaa"@), None))
    } else {
        base
    };
    RenderingV {
        elements: framed.elements.map_values(|el: ElementV| crate::render::stamped(el, v.id)),
        ..framed
    }
}

impl ExprView {
    /// Lay out `expr` recursively, bottom-up, producing positioned
    /// primitives tagged for event routing. Measuring may extend the metrics
    /// cache but never changes any recorded width.
    pub fn render_expr(&self, state: &mut RenderingState, expr: &Expr) -> (r: ExprRendering)
        requires
            old(state).wf(),
        ensures
            final(state).wf(),
            r@ == spec_render_expr(expr@, self.selection, *old(state)),
            forall|s: Seq<char>| final(state).spec_metric(s) == old(state).spec_metric(s),
        decreases expr,
    {
        let ghost st0 = *state;
        let sel = self.selection;
        let mut rendering = match expr {
            Expr::Comment { id, text } => leaf_text(
                state,
                text.as_str(),
                TextStyle::Comment,
                "#43a047",
                *id,
            ),
            Expr::Var { id, name } => leaf_text(state, name.as_str(), TextStyle::Mono, "#f44336", *id),
            Expr::Lit { id, kind, content } => leaf_text(
                state,
                content.as_str(),
                TextStyle::Mono,
                "#283593",
                *id,
            ),
            Expr::Hole { id } => filled_box(state, 16, 16, "red", *id),
            Expr::Call { id, function, arguments } => {
                let mut rendering = leaf_text(state, function.as_str(), TextStyle::Mono, "#000", *id);
                let w0 = sat_add(rendering.size.width, PADDING);
                rendering.size = SvgSize { width: w0, height: rendering.size.height };
                let ghost acc0 = rendering@;
                let ghost vs = views_of(arguments@);
                proof {
                    lemma_views_of(arguments@);
                }
                let n = arguments.len();
                let mut i: usize = 0;
                while i < n
                    invariant
                        self.selection == sel,
                        n == arguments@.len(),
                        expr.spec_children() == arguments@,
                        vs == views_of(arguments@),
                        vs.len() == n,
                        forall|k: int| 0 <= k < n ==> vs[k] == arguments@[k]@,
                        state.wf(),
                        forall|s: Seq<char>|
                            state.spec_metric(s) == st0.spec_metric(s),
                        spec_render_args(vs, sel, st0, rendering@, i as int) == spec_render_args(
                            vs,
                            sel,
                            st0,
                            acc0,
                            0,
                        ),
                    decreases n - i,
                {
                    let ghost acc = rendering@;
                    let arg_id = arguments[i].id();
                    let c = separator(state, arg_id);
                    let px = sat_add(rendering.size.width, 3);
                    rendering.place(point2(px, 2), c);
                    let ghost acc1 = placed(acc, sat(acc.width + 3), 2, separator_rv(
                        vs[i as int].id(),
                    ));
                    proof {
                        assert(rendering@ =~~= acc1);
                        lemma_child_smaller(*expr, i as int);
                    }
                    let ghost st_before = *state;
                    let child = self.render_expr(state, &arguments[i]);
                    proof {
                        lemma_render_congruence_node(vs[i as int], sel, st_before, st0);
                    }
                    let px2 = sat_add(rendering.size.width, 1);
                    rendering.place(point2(px2, 0), child);
                    let ghost acc2 = placed(acc1, sat(acc1.width + 1), 0, spec_render_expr(
                        vs[i as int],
                        sel,
                        st0,
                    ));
                    proof {
                        assert(rendering@ =~~= acc2);
                    }
                    let w = sat_add(rendering.size.width, PADDING);
                    rendering.size = SvgSize { width: w, height: rendering.size.height };
                    proof {
                        let acc3 = RenderingV { width: sat(acc2.width + PADDING), ..acc2 };
                        assert(rendering@ =~~= acc3);
                        assert(spec_render_args(vs, sel, st0, acc, i as int) == spec_render_args(
                            vs,
                            sel,
                            st0,
                            acc3,
                            i + 1,
                        ));
                    }
                    i = i + 1;
                }
                rendering
            },
            Expr::Do { id, expressions } => {
                let mut rendering = ExprRendering::empty();
                proof {
                    assert(rendering@ =~~= empty_rv());
                }
                let ghost acc0 = rendering@;
                let ghost vs = views_of(expressions@);
                proof {
                    lemma_views_of(expressions@);
                }
                let n = expressions.len();
                let mut i: usize = 0;
                while i < n
                    invariant
                        self.selection == sel,
                        n == expressions@.len(),
                        expr.spec_children() == expressions@,
                        vs == views_of(expressions@),
                        vs.len() == n,
                        forall|k: int| 0 <= k < n ==> vs[k] == expressions@[k]@,
                        state.wf(),
                        forall|s: Seq<char>|
                            state.spec_metric(s) == st0.spec_metric(s),
                        spec_render_block(vs, sel, st0, rendering@, i as int) == spec_render_block(
                            vs,
                            sel,
                            st0,
                            acc0,
                            0,
                        ),
                    decreases n - i,
                {
                    let ghost acc = rendering@;
                    proof {
                        lemma_child_smaller(*expr, i as int);
                    }
                    let ghost st_before = *state;
                    let child = self.render_expr(state, &expressions[i]);
                    proof {
                        lemma_render_congruence_node(vs[i as int], sel, st_before, st0);
                    }
                    let py = rendering.size.height;
                    rendering.place(point2(5, py), child);
                    let ghost acc1 = placed(acc, 5, acc.height, spec_render_expr(
                        vs[i as int],
                        sel,
                        st0,
                    ));
                    proof {
                        assert(rendering@ =~~= acc1);
                    }
                    let h = sat_add(rendering.size.height, PADDING);
                    rendering.size = SvgSize { width: rendering.size.width, height: h };
                    proof {
                        let acc2 = RenderingV { height: sat(acc1.height + PADDING), ..acc1 };
                        assert(rendering@ =~~= acc2);
                        assert(spec_render_block(vs, sel, st0, acc, i as int) == spec_render_block(
                            vs,
                            sel,
                            st0,
                            acc2,
                            i + 1,
                        ));
                    }
                    i = i + 1;
                }
                // the block's click target: a thin background rectangle,
                // inserted at the bottom of the draw order
                let bg = filled_box(state, 1, rendering.size.height, "#aaa", *id);
                rendering.place_at(0, point2(0, 0), bg);
                rendering
            },
        };
        proof {
            assert(rendering@ == spec_render_base(expr@, sel, st0));
        }
        let selected = match sel {
            Some(s) => {
                let own = expr.id();
                s == own
            },
            None => false,
        };
        if selected {
            let w = rendering.size.width;
            let h = rendering.size.height;
            let outline = outline_box(state, w, h);
            rendering.place_at(0, point2(0, 0), outline);
        }
        rendering
    }

    /// Render the view: the expression's layout, and for a frozen view an
    /// outline rectangle behind everything.
    pub fn render(&self, state: &mut RenderingState, expr: &Expr) -> (r: ExprRendering)
        requires
            old(state).wf(),
        ensures
            final(state).wf(),
            r@ == spec_render_view(*self, expr@, *old(state)),
            forall|s: Seq<char>| final(state).spec_metric(s) == old(state).spec_metric(s),
    {
        let mut view = self.render_expr(state, expr);
        if self.frozen {
            let w = view.size.width;
            let h = view.size.height;
            let outline = outline_box(state, w, h);
            view.place_at(0, point2(0, 0), outline);
        }
        let r = view.set_view(self.id);
        proof {
            assert(r@ =~~= spec_render_view(*self, expr@, *old(state)));
        }
        r
    }
}

} // verus!
