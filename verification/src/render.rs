//! The rendering primitives: integer geometry, drawable shapes (text runs,
//! rectangles, circles), positioned elements tagged with the id of the
//! expression node that produced them, and the text-metrics cache.
//!
//! All distances are abstract pixel units held in `u32`; dimension
//! arithmetic saturates at `u32::MAX`, far beyond any drawable canvas.
use vstd::prelude::*;

use crate::expr::ExprId;

verus! {

/// A value identifying one expr view; every element is routed under the
/// pair of its view and its node id, so identical node ids in different
/// views do not collide.
#[derive(Debug, Clone, Copy, PartialEq, Eq, Structural)]
pub enum ExprViewId {
    /// The editable main document.
    Main,
    /// One entry of the yank stack.
    Yanked { index: usize },
    /// One read-only example of the toy box palette.
    ToyBox { index: usize },
}

/// The height of one text line, in abstract pixel units.
pub const LINE_HEIGHT: u32 = 20;

/// The width of one monospace character cell, in abstract pixel units; the
/// fallback metric for text never measured by the host.
pub const CHAR_WIDTH: u32 = 8;

/// Dimension addition, saturating at `u32::MAX`.
pub open spec fn sat(v: int) -> int {
    if v > u32::MAX {
        u32::MAX as int
    } else {
        v
    }
}

/// The larger of two dimensions.
pub open spec fn dim_max(a: int, b: int) -> int {
    if a >= b {
        a
    } else {
        b
    }
}

/// Saturating dimension addition.
pub fn sat_add(a: u32, b: u32) -> (r: u32)
    ensures
        r == sat(a + b),
{
    if a > u32::MAX - b {
        u32::MAX
    } else {
        a + b
    }
}

/// The larger of two dimensions.
pub fn max_dim(a: u32, b: u32) -> (r: u32)
    ensures
        r == dim_max(a as int, b as int),
{
    if a >= b {
        a
    } else {
        b
    }
}

/// A point on the canvas.
#[derive(Debug, Clone, Copy, PartialEq, Eq, Structural)]
pub struct SvgPoint {
    pub x: u32,
    pub y: u32,
}

/// A two-dimensional extent.
#[derive(Debug, Clone, Copy, PartialEq, Eq, Structural)]
pub struct SvgSize {
    pub width: u32,
    pub height: u32,
}

/// A rectangle given by its origin and extent.
#[derive(Debug, Clone, Copy, PartialEq, Eq, Structural)]
pub struct SvgRect {
    pub origin: SvgPoint,
    pub size: SvgSize,
}

pub fn point2(x: u32, y: u32) -> (r: SvgPoint)
    ensures
        r == (SvgPoint { x, y }),
{
    SvgPoint { x, y }
}

pub fn size2(width: u32, height: u32) -> (r: SvgSize)
    ensures
        r == (SvgSize { width, height }),
{
    SvgSize { width, height }
}

pub fn rect2(x: u32, y: u32, width: u32, height: u32) -> (r: SvgRect)
    ensures
        r == (SvgRect { origin: SvgPoint { x, y }, size: SvgSize { width, height } }),
{
    SvgRect { origin: SvgPoint { x, y }, size: SvgSize { width, height } }
}

/// How a text run is drawn.
#[derive(Debug, Clone, Copy, PartialEq, Eq, Structural)]
pub enum TextStyle {
    Mono,
    Comment,
}

/// A rectangle primitive.
#[derive(Debug)]
pub struct Rect {
    pub rect: SvgRect,
    pub fill: Option<&'static str>,
    pub stroke: Option<&'static str>,
}

/// A circle primitive.
#[derive(Debug)]
pub struct Circle {
    pub origin: SvgPoint,
    pub radius: u32,
    pub fill: Option<&'static str>,
    pub stroke: Option<&'static str>,
}

/// A text-run primitive.
#[derive(Debug)]
pub struct Text {
    pub origin: SvgPoint,
    pub content: String,
    pub style: TextStyle,
    pub colour: &'static str,
}

/// The drawable geometry of one element.
#[derive(Debug)]
pub enum Shape {
    TextShape(Text),
    RectShape(Rect),
    CircleShape(Circle),
}

/// The mathematical view of a shape: exact integer geometry, text as
/// character sequences.
#[verifier::ext_equal]
pub enum ShapeV {
    TextShape {
        x: int,
        y: int,
        content: Seq<char>,
        style: TextStyle,
        colour: Seq<char>,
    },
    RectShape {
        x: int,
        y: int,
        width: int,
        height: int,
        fill: Option<Seq<char>>,
        stroke: Option<Seq<char>>,
    },
    CircleShape { x: int, y: int, radius: int, fill: Option<Seq<char>>, stroke: Option<Seq<char>> },
}

/// The view of an optional colour.
pub open spec fn colour_view(c: Option<&'static str>) -> Option<Seq<char>> {
    match c {
        Some(s) => Some(s@),
        None => None,
    }
}

impl View for Shape {
    type V = ShapeV;

    open spec fn view(&self) -> ShapeV {
        match self {
            Shape::TextShape(t) => ShapeV::TextShape {
                x: t.origin.x as int,
                y: t.origin.y as int,
                content: t.content@,
                style: t.style,
                colour: t.colour@,
            },
            Shape::RectShape(r) => ShapeV::RectShape {
                x: r.rect.origin.x as int,
                y: r.rect.origin.y as int,
                width: r.rect.size.width as int,
                height: r.rect.size.height as int,
                fill: colour_view(r.fill),
                stroke: colour_view(r.stroke),
            },
            Shape::CircleShape(c) => ShapeV::CircleShape {
                x: c.origin.x as int,
                y: c.origin.y as int,
                radius: c.radius as int,
                fill: colour_view(c.fill),
                stroke: colour_view(c.stroke),
            },
        }
    }
}

/// One positioned drawable, tagged with the id of the expression node that
/// produced it; clicking the element selects that node.
#[derive(Debug)]
pub struct Element {
    /// The element's accumulated translation, relative to the rendering's
    /// origin; absolute position is this offset plus the shape's own origin.
    pub offset: SvgPoint,
    pub shape: Shape,
    pub tag: Option<ExprId>,
    /// Which view the element is routed under, stamped by the view render.
    pub view: Option<ExprViewId>,
}

/// The mathematical view of an element.
#[verifier::ext_equal]
pub struct ElementV {
    pub x: int,
    pub y: int,
    pub shape: ShapeV,
    pub tag: Option<ExprId>,
    pub view: Option<ExprViewId>,
}

impl View for Element {
    type V = ElementV;

    open spec fn view(&self) -> ElementV {
        ElementV {
            x: self.offset.x as int,
            y: self.offset.y as int,
            shape: self.shape@,
            tag: self.tag,
            view: self.view,
        }
    }
}

/// The layout of one expression: a list of positioned elements in draw order
/// (bottom to top) and the bounding-box size.
#[derive(Debug)]
pub struct ExprRendering {
    pub elements: Vec<Element>,
    pub size: SvgSize,
}

/// The mathematical view of a rendering.
#[verifier::ext_equal]
pub struct RenderingV {
    pub elements: Seq<ElementV>,
    pub width: int,
    pub height: int,
}

impl View for ExprRendering {
    type V = RenderingV;

    open spec fn view(&self) -> RenderingV {
        RenderingV {
            elements: self.elements@.map_values(|e: Element| e@),
            width: self.size.width as int,
            height: self.size.height as int,
        }
    }
}

/// `e` translated by `(px, py)`, saturating.
pub open spec fn translated(e: ElementV, px: int, py: int) -> ElementV {
    ElementV { x: sat(e.x + px), y: sat(e.y + py), shape: e.shape, tag: e.tag, view: e.view }
}

/// `e` with its tag replaced.
pub open spec fn tagged(e: ElementV, id: ExprId) -> ElementV {
    ElementV { x: e.x, y: e.y, shape: e.shape, tag: Some(id), view: e.view }
}

/// `e` routed under the view `v`.
pub open spec fn stamped(e: ElementV, v: ExprViewId) -> ElementV {
    ElementV { x: e.x, y: e.y, shape: e.shape, tag: e.tag, view: Some(v) }
}

/// The single reusable composition rule: the child's elements, translated by
/// the offset, are appended to the parent's, and the parent's bounding box
/// grows to the component-wise maximum of its size and offset + child size.
pub open spec fn placed(parent: RenderingV, px: int, py: int, child: RenderingV) -> RenderingV {
    RenderingV {
        elements: parent.elements + child.elements.map_values(|e: ElementV| translated(e, px, py)),
        width: dim_max(parent.width, sat(px + child.width)),
        height: dim_max(parent.height, sat(py + child.height)),
    }
}

/// As [`placed`], but the child's elements are spliced in at `index` of the
/// draw order instead of on top.
pub open spec fn placed_at(
    parent: RenderingV,
    index: int,
    px: int,
    py: int,
    child: RenderingV,
) -> RenderingV {
    RenderingV {
        elements: parent.elements.subrange(0, index) + child.elements.map_values(
            |e: ElementV| translated(e, px, py),
        ) + parent.elements.subrange(index, parent.elements.len() as int),
        width: dim_max(parent.width, sat(px + child.width)),
        height: dim_max(parent.height, sat(py + child.height)),
    }
}

impl ExprRendering {
    /// A rendering with no elements and zero size.
    pub fn empty() -> (r: Self)
        ensures
            r@.elements == Seq::<ElementV>::empty(),
            r@.width == 0,
            r@.height == 0,
    {
        let r = ExprRendering { elements: Vec::new(), size: SvgSize { width: 0, height: 0 } };
        proof {
            assert(r@.elements =~= Seq::<ElementV>::empty());
        }
        r
    }

    /// Make a click on any of the rendering's elements select the node
    /// carrying `id`: every element is tagged with it.
    pub fn click(self, id: ExprId) -> (r: Self)
        ensures
            r@.elements.len() == self@.elements.len(),
            forall|k: int|
                0 <= k < self@.elements.len() ==> r@.elements[k] == tagged(
                    #[trigger] self@.elements[k],
                    id,
                ),
            r@.width == self@.width,
            r@.height == self@.height,
    {
        let ExprRendering { mut elements, size } = self;
        let ghost els0 = elements@;
        let n = elements.len();
        let mut i: usize = 0;
        while i < n
            invariant
                n == elements@.len(),
                els0.len() == n,
                forall|k: int| i <= k < n ==> elements@[k] == els0[k],
                forall|k: int| 0 <= k < i ==> #[trigger] elements@[k]@ == tagged(els0[k]@, id),
            decreases n - i,
        {
            let e = elements.remove(i);
            let e2 = Element { offset: e.offset, shape: e.shape, tag: Some(id), view: e.view };
            elements.insert(i, e2);
            i = i + 1;
        }
        let r = ExprRendering { elements, size };
        proof {
            assert forall|k: int| 0 <= k < els0.len() implies r@.elements[k] == tagged(
                els0.map_values(|e: Element| e@)[k],
                id,
            ) by {
            }
        }
        r
    }

    /// Route every element of the rendering under the view `v`.
    pub fn set_view(self, v: ExprViewId) -> (r: Self)
        ensures
            r@.elements.len() == self@.elements.len(),
            forall|k: int|
                0 <= k < self@.elements.len() ==> r@.elements[k] == stamped(
                    #[trigger] self@.elements[k],
                    v,
                ),
            r@.width == self@.width,
            r@.height == self@.height,
    {
        let ExprRendering { mut elements, size } = self;
        let ghost els0 = elements@;
        let n = elements.len();
        let mut i: usize = 0;
        while i < n
            invariant
                n == elements@.len(),
                els0.len() == n,
                forall|k: int| i <= k < n ==> elements@[k] == els0[k],
                forall|k: int| 0 <= k < i ==> #[trigger] elements@[k]@ == stamped(els0[k]@, v),
            decreases n - i,
        {
            let e = elements.remove(i);
            let e2 = Element { offset: e.offset, shape: e.shape, tag: e.tag, view: Some(v) };
            elements.insert(i, e2);
            i = i + 1;
        }
        ExprRendering { elements, size }
    }

    /// Translate every element by `point`; the recorded size is unchanged.
    pub fn translate(self, point: SvgPoint) -> (r: Self)
        ensures
            r@.elements.len() == self@.elements.len(),
            forall|k: int|
                0 <= k < self@.elements.len() ==> r@.elements[k] == translated(
                    #[trigger] self@.elements[k],
                    point.x as int,
                    point.y as int,
                ),
            r@.width == self@.width,
            r@.height == self@.height,
    {
        let ExprRendering { mut elements, size } = self;
        let ghost els0 = elements@;
        let n = elements.len();
        let mut i: usize = 0;
        while i < n
            invariant
                n == elements@.len(),
                els0.len() == n,
                forall|k: int| i <= k < n ==> elements@[k] == els0[k],
                forall|k: int|
                    0 <= k < i ==> #[trigger] elements@[k]@ == translated(
                        els0[k]@,
                        point.x as int,
                        point.y as int,
                    ),
            decreases n - i,
        {
            let e = elements.remove(i);
            let x = sat_add(e.offset.x, point.x);
            let y = sat_add(e.offset.y, point.y);
            let e2 = Element { offset: SvgPoint { x, y }, shape: e.shape, tag: e.tag, view: e.view };
            elements.insert(i, e2);
            i = i + 1;
        }
        ExprRendering { elements, size }
    }

    /// Place `rendering` at `point`: its elements join the draw order on top,
    /// and the bounding box grows to the component-wise maximum of the
    /// current size and point + child size.
    pub fn place(&mut self, point: SvgPoint, rendering: ExprRendering)
        ensures
            final(self)@ == placed(old(self)@, point.x as int, point.y as int, rendering@),
    {
        let ghost child0 = rendering@;
        let moved = rendering.translate(point);
        let ExprRendering { elements: mut tail, size: child_size } = moved;
        let width = max_dim(self.size.width, sat_add(point.x, child_size.width));
        let height = max_dim(self.size.height, sat_add(point.y, child_size.height));
        self.elements.append(&mut tail);
        self.size = SvgSize { width, height };
        proof {
            assert(final(self)@.elements =~= placed(
                old(self)@,
                point.x as int,
                point.y as int,
                child0,
            ).elements);
        }
    }

    /// Place `rendering` at `point`, inserting its elements at `index` of
    /// the draw order (index 0: behind everything else).
    pub fn place_at(&mut self, index: usize, point: SvgPoint, rendering: ExprRendering)
        requires
            index <= old(self).elements@.len(),
        ensures
            final(self)@ == placed_at(
                old(self)@,
                index as int,
                point.x as int,
                point.y as int,
                rendering@,
            ),
    {
        let ghost child0 = rendering@;
        let moved = rendering.translate(point);
        let ExprRendering { elements: tail, size: child_size } = moved;
        let width = max_dim(self.size.width, sat_add(point.x, child_size.width));
        let height = max_dim(self.size.height, sat_add(point.y, child_size.height));
        let ghost mid0 = self.elements@;
        let n = tail.len();
        let mut j: usize = 0;
        let mut tail = tail;
        let ghost tail0 = tail@;
        while j < n
            invariant
                j <= n,
                n == tail0.len(),
                tail@ == tail0.subrange(j as int, n as int),
                index + j <= self.elements@.len(),
                self.elements@ == mid0.subrange(0, index as int) + tail0.subrange(0, j as int)
                    + mid0.subrange(index as int, mid0.len() as int),
                index <= mid0.len(),
            decreases n - j,
        {
            let e = tail.remove(0);
            let cur = self.elements.len();
            assert(index + j <= cur);
            self.elements.insert(index + j, e);
            proof {
                assert(tail@ =~= tail0.subrange(j + 1, n as int));
                assert(self.elements@ =~= mid0.subrange(0, index as int) + tail0.subrange(
                    0,
                    j + 1,
                ) + mid0.subrange(index as int, mid0.len() as int));
            }
            j = j + 1;
        }
        self.size = SvgSize { width, height };
        proof {
            let pl = placed_at(old(self)@, index as int, point.x as int, point.y as int, child0);
            assert(tail0.subrange(0, n as int) =~= tail0);
            assert(self.elements@ == mid0.subrange(0, index as int) + tail0 + mid0.subrange(
                index as int,
                mid0.len() as int,
            ));
            assert forall|k: int|
                0 <= k < self.elements@.len() implies self.elements@.map_values(
                |e: Element| e@,
            )[k] == pl.elements[k] by {
                if index <= k < index + n {
                    assert(self.elements@[k] == tail0[k - index]);
                    assert(tail0[k - index]@ == translated(
                        child0.elements[k - index],
                        point.x as int,
                        point.y as int,
                    ));
                }
            }
            assert(self@.elements =~= pl.elements);
        }
    }
}

/// The process-scoped text-metrics cache: measured widths by content string,
/// built lazily and never invalidated. Strings never measured by the host
/// fall back to the monospace rule of [`CHAR_WIDTH`] units per character.
pub struct RenderingState {
    cache: Vec<(String, u32)>,
}

/// The fallback width of a text run: one character cell per character.
pub open spec fn default_width(s: Seq<char>) -> int {
    sat(CHAR_WIDTH * s.len())
}

impl RenderingState {
    /// The width the cache records for `s`, or the fallback rule.
    pub closed spec fn spec_metric(self, s: Seq<char>) -> int {
        if exists|k: int| 0 <= k < self.cache@.len() && self.cache@[k].0@ == s {
            let k = choose|k: int| 0 <= k < self.cache@.len() && self.cache@[k].0@ == s;
            self.cache@[k].1 as int
        } else {
            default_width(s)
        }
    }

    /// Whether the cache holds a measured width for `s`.
    pub closed spec fn has_metric(self, s: Seq<char>) -> bool {
        exists|k: int| 0 <= k < self.cache@.len() && self.cache@[k].0@ == s
    }

    /// Whether every cached entry for one string agrees, so that the metric
    /// of a string never depends on which entry a lookup finds.
    pub closed spec fn wf(self) -> bool {
        forall|k1: int, k2: int|
            0 <= k1 < self.cache@.len() && 0 <= k2 < self.cache@.len() && #[trigger] self.cache@[k1].0@
                == #[trigger] self.cache@[k2].0@ ==> self.cache@[k1].1 == self.cache@[k2].1
    }

    /// An empty cache: every string gets the fallback metric.
    pub fn new() -> (r: Self)
        ensures
            r.wf(),
            forall|s: Seq<char>| r.spec_metric(s) == default_width(s),
            forall|s: Seq<char>| !r.has_metric(s),
    {
        RenderingState { cache: Vec::new() }
    }

    /// Record a width measured by the host for `text`. Recording a string
    /// twice keeps the first width: the cache is never invalidated.
    pub fn insert_metric(&mut self, text: String, width: u32)
        requires
            old(self).wf(),
        ensures
            final(self).wf(),
            forall|s: Seq<char>| s != text@ ==> final(self).spec_metric(s) == old(
                self,
            ).spec_metric(s),
            forall|s: Seq<char>|
                final(self).has_metric(s) <==> old(self).has_metric(s) || s == text@,
            !old(self).has_metric(text@) ==> final(self).spec_metric(text@) == width,
            old(self).has_metric(text@) ==> final(self).spec_metric(text@) == old(
                self,
            ).spec_metric(text@),
    {
        let ghost text_v = text@;
        if self.lookup(&text).is_none() {
            self.cache.push((text, width));
            proof {
                let c = self.cache@;
                assert(c[c.len() - 1].0@ == text_v);
                assert forall|s: Seq<char>| s != text_v implies (final(self).has_metric(s)
                    <==> old(self).has_metric(s)) by {
                    lemma_metric_push(old(self).cache@, c, s);
                }
                assert forall|s: Seq<char>| s != text_v implies final(self).spec_metric(s) == old(
                    self,
                ).spec_metric(s) by {
                    lemma_metric_push(old(self).cache@, c, s);
                }
                assert(final(self).has_metric(text_v));
                let k = choose|k: int| 0 <= k < c.len() && c[k].0@ == text_v;
                if k < c.len() - 1 {
                    assert(old(self).cache@[k].0@ == text_v);
                }
                assert(c[k].1 == width);
                assert forall|k1: int, k2: int|
                    0 <= k1 < c.len() && 0 <= k2 < c.len() && #[trigger] c[k1].0@
                        == #[trigger] c[k2].0@ implies c[k1].1 == c[k2].1 by {
                    if k1 < c.len() - 1 && k2 == c.len() - 1 {
                        assert(old(self).has_metric(text_v));
                    }
                    if k2 < c.len() - 1 && k1 == c.len() - 1 {
                        assert(old(self).has_metric(text_v));
                    }
                }
            }
        }
    }

    /// Find a cached width for `text`.
    fn lookup(&self, text: &String) -> (r: Option<u32>)
        ensures
            match r {
                Some(w) => self.has_metric(text@) && self.wf() ==> w as int == self.spec_metric(
                    text@,
                ),
                None => !self.has_metric(text@),
            },
            r is Some ==> self.has_metric(text@),
    {
        let n = self.cache.len();
        let mut i: usize = 0;
        while i < n
            invariant
                n == self.cache@.len(),
                forall|k: int| 0 <= k < i ==> #[trigger] self.cache@[k].0@ != text@,
            decreases n - i,
        {
            if self.cache[i].0 == *text {
                return Some(self.cache[i].1);
            }
            i = i + 1;
        }
        None
    }

    /// Measure a text run: its cached or fallback width, and the fixed line
    /// height. Measuring never changes any string's metric; a fallback
    /// result is memoized.
    pub fn measure_text(&mut self, text: &str) -> (r: SvgSize)
        requires
            old(self).wf(),
        ensures
            final(self).wf(),
            r.width as int == old(self).spec_metric(text@),
            r.height == LINE_HEIGHT,
            forall|s: Seq<char>| final(self).spec_metric(s) == old(self).spec_metric(s),
    {
        let owned = text.to_owned();
        let ghost text_v = text@;
        match self.lookup(&owned) {
            Some(w) => SvgSize { width: w, height: LINE_HEIGHT },
            None => {
                let w = fallback_width(text);
                let ghost pre = *self;
                self.cache.push((owned, w));
                proof {
                    let c = self.cache@;
                    assert(c[c.len() - 1].0@ == text_v);
                    assert forall|s: Seq<char>| final(self).spec_metric(s) == pre.spec_metric(
                        s,
                    ) by {
                        if s != text_v {
                            lemma_metric_push(pre.cache@, c, s);
                        } else {
                            assert(final(self).has_metric(s));
                            let k = choose|k: int| 0 <= k < c.len() && c[k].0@ == s;
                            if k < c.len() - 1 {
                                assert(pre.cache@[k].0@ == text_v);
                                assert(pre.has_metric(text_v));
                            }
                            assert(c[k].1 == w);
                        }
                    }
                    assert forall|k1: int, k2: int|
                        0 <= k1 < c.len() && 0 <= k2 < c.len() && #[trigger] c[k1].0@
                            == #[trigger] c[k2].0@ implies c[k1].1 == c[k2].1 by {
                        if k1 < c.len() - 1 && k2 == c.len() - 1 {
                            assert(pre.has_metric(text_v));
                        }
                        if k2 < c.len() - 1 && k1 == c.len() - 1 {
                            assert(pre.has_metric(text_v));
                        }
                    }
                }
                SvgSize { width: w, height: LINE_HEIGHT }
            },
        }
    }
}

/// Pushing an entry for one string leaves every other string's metric alone.
proof fn lemma_metric_push(c0: Seq<(String, u32)>, c1: Seq<(String, u32)>, s: Seq<char>)
    requires
        c1.len() == c0.len() + 1,
        forall|k: int| 0 <= k < c0.len() ==> c1[k] == c0[k],
        c1[c0.len() as int].0@ != s,
    ensures
        (exists|k: int| 0 <= k < c1.len() && c1[k].0@ == s) <==> (exists|k: int|
            0 <= k < c0.len() && c0[k].0@ == s),
{
    if exists|k: int| 0 <= k < c1.len() && c1[k].0@ == s {
        let k = choose|k: int| 0 <= k < c1.len() && c1[k].0@ == s;
        assert(k < c0.len());
        assert(c0[k].0@ == s);
    }
    if exists|k: int| 0 <= k < c0.len() && c0[k].0@ == s {
        let k = choose|k: int| 0 <= k < c0.len() && c0[k].0@ == s;
        assert(c1[k].0@ == s);
    }
}

/// The fallback width of `text`: one character cell per character.
fn fallback_width(text: &str) -> (r: u32)
    ensures
        r as int == default_width(text@),
{
    let n = text.unicode_len();
    if n >= (u32::MAX / CHAR_WIDTH) as usize + 1 {
        u32::MAX
    } else {
        CHAR_WIDTH * (n as u32)
    }
}

/// A drawable primitive: it knows its element and its measured size, and
/// renders to a one-element [`ExprRendering`].
pub trait Renderable: Sized {
    /// The shape this primitive draws.
    spec fn spec_shape(&self) -> ShapeV;

    /// The primitive's extent under the given metrics.
    spec fn spec_size(&self, st: RenderingState) -> (int, int);

    /// Measure the primitive.
    fn size(&self, state: &mut RenderingState) -> (r: SvgSize)
        requires
            old(state).wf(),
        ensures
            final(state).wf(),
            r.width as int == self.spec_size(*old(state)).0,
            r.height as int == self.spec_size(*old(state)).1,
            forall|s: Seq<char>| final(state).spec_metric(s) == old(state).spec_metric(s),
    ;

    /// Render the primitive: one untagged element at the origin, sized by
    /// `size`.
    fn render(&self, state: &mut RenderingState) -> (r: ExprRendering)
        requires
            old(state).wf(),
        ensures
            final(state).wf(),
            r@.elements =~= seq![
                ElementV { x: 0, y: 0, shape: self.spec_shape(), tag: None, view: None },
            ],
            r@.width == self.spec_size(*old(state)).0,
            r@.height == self.spec_size(*old(state)).1,
            forall|s: Seq<char>| final(state).spec_metric(s) == old(state).spec_metric(s),
    ;
}

impl Circle {
    pub fn new(origin: SvgPoint, radius: u32) -> (r: Self)
        ensures
            r.origin == origin,
            r.radius == radius,
            r.fill is None,
            r.stroke is None,
    {
        Circle { origin, radius, fill: None, stroke: None }
    }

    pub fn fill(self, fill: &'static str) -> (r: Self)
        ensures
            r == (Circle { fill: Some(fill), ..self }),
    {
        Circle { fill: Some(fill), ..self }
    }

    pub fn stroke(self, stroke: &'static str) -> (r: Self)
        ensures
            r == (Circle { stroke: Some(stroke), ..self }),
    {
        Circle { stroke: Some(stroke), ..self }
    }
}

impl Rect {
    pub fn new(rect: SvgRect) -> (r: Self)
        ensures
            r.rect == rect,
            r.fill is None,
            r.stroke is None,
    {
        Rect { rect, fill: None, stroke: None }
    }

    pub fn fill(self, fill: &'static str) -> (r: Self)
        ensures
            r == (Rect { fill: Some(fill), ..self }),
    {
        Rect { fill: Some(fill), ..self }
    }

    pub fn stroke(self, stroke: &'static str) -> (r: Self)
        ensures
            r == (Rect { stroke: Some(stroke), ..self }),
    {
        Rect { stroke: Some(stroke), ..self }
    }
}

impl Text {
    pub fn new(content: &str, style: TextStyle) -> (r: Self)
        ensures
            r.origin == (SvgPoint { x: 0, y: 0 }),
            r.content@ == content@,
            r.style == style,
            r.colour@ == "#000"@,
    {
        Text { origin: SvgPoint { x: 0, y: 0 }, content: content.to_owned(), style, colour: "#000" }
    }

    pub fn origin(self, origin: SvgPoint) -> (r: Self)
        ensures
            r == (Text { origin, ..self }),
    {
        Text { origin, ..self }
    }

    pub fn colour(self, colour: &'static str) -> (r: Self)
        ensures
            r == (Text { colour, ..self }),
    {
        Text { colour, ..self }
    }
}

impl Renderable for Circle {
    open spec fn spec_shape(&self) -> ShapeV {
        Shape::CircleShape(
            Circle { origin: self.origin, radius: self.radius, fill: self.fill, stroke: self.stroke },
        )@
    }

    open spec fn spec_size(&self, st: RenderingState) -> (int, int) {
        (sat(2 * self.radius), sat(2 * self.radius))
    }

    fn size(&self, state: &mut RenderingState) -> (r: SvgSize) {
        let d = sat_add(self.radius, self.radius);
        SvgSize { width: d, height: d }
    }

    fn render(&self, state: &mut RenderingState) -> (r: ExprRendering) {
        let sz = self.size(state);
        let shape = Shape::CircleShape(
            Circle { origin: self.origin, radius: self.radius, fill: self.fill, stroke: self.stroke },
        );
        let element = Element { offset: SvgPoint { x: 0, y: 0 }, shape, tag: None, view: None };
        let mut elements: Vec<Element> = Vec::new();
        elements.push(element);
        let r = ExprRendering { elements, size: sz };
        proof {
            assert(r@.elements =~= seq![
                ElementV { x: 0, y: 0, shape: self.spec_shape(), tag: None, view: None },
            ]);
        }
        r
    }
}

impl Renderable for Rect {
    open spec fn spec_shape(&self) -> ShapeV {
        Shape::RectShape(Rect { rect: self.rect, fill: self.fill, stroke: self.stroke })@
    }

    open spec fn spec_size(&self, st: RenderingState) -> (int, int) {
        (self.rect.size.width as int, self.rect.size.height as int)
    }

    fn size(&self, state: &mut RenderingState) -> (r: SvgSize) {
        self.rect.size
    }

    fn render(&self, state: &mut RenderingState) -> (r: ExprRendering) {
        let sz = self.size(state);
        let shape = Shape::RectShape(Rect { rect: self.rect, fill: self.fill, stroke: self.stroke });
        let element = Element { offset: SvgPoint { x: 0, y: 0 }, shape, tag: None, view: None };
        let mut elements: Vec<Element> = Vec::new();
        elements.push(element);
        let r = ExprRendering { elements, size: sz };
        proof {
            assert(r@.elements =~= seq![
                ElementV { x: 0, y: 0, shape: self.spec_shape(), tag: None, view: None },
            ]);
        }
        r
    }
}

impl Renderable for Text {
    open spec fn spec_shape(&self) -> ShapeV {
        ShapeV::TextShape {
            x: self.origin.x as int,
            y: self.origin.y as int,
            content: self.content@,
            style: self.style,
            colour: self.colour@,
        }
    }

    open spec fn spec_size(&self, st: RenderingState) -> (int, int) {
        (st.spec_metric(self.content@), LINE_HEIGHT as int)
    }

    fn size(&self, state: &mut RenderingState) -> (r: SvgSize) {
        state.measure_text(self.content.as_str())
    }

    fn render(&self, state: &mut RenderingState) -> (r: ExprRendering) {
        let sz = self.size(state);
        let shape = Shape::TextShape(
            Text {
                origin: self.origin,
                content: self.content.clone(),
                style: self.style,
                colour: self.colour,
            },
        );
        let element = Element { offset: SvgPoint { x: 0, y: 0 }, shape, tag: None, view: None };
        let mut elements: Vec<Element> = Vec::new();
        elements.push(element);
        let r = ExprRendering { elements, size: sz };
        proof {
            assert(r@.elements =~= seq![
                ElementV { x: 0, y: 0, shape: self.spec_shape(), tag: None, view: None },
            ]);
        }
        r
    }
}

} // verus!
