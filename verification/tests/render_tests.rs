use kale::expr::ExprId;
use kale::render::ExprRendering;
use kale::render::Rect;
use kale::render::Renderable;
use kale::render::RenderingState;
use kale::render::Text;
use kale::render::TextStyle;
use kale::render::point2;
use kale::render::rect2;

fn box_10x10(state: &mut RenderingState) -> ExprRendering {
    Rect::new(rect2(0, 0, 10, 10)).render(state)
}

#[test]
fn place_accumulates_the_componentwise_maximum() {
    let mut state = RenderingState::new();
    let mut parent = ExprRendering::empty();
    let a = box_10x10(&mut state);
    let b = box_10x10(&mut state);
    parent.place(point2(0, 0), a);
    parent.place(point2(0, 15), b);
    assert_eq!(parent.size.width, 10);
    assert_eq!(parent.size.height, 25);
    assert_eq!(parent.elements.len(), 2);
    assert_eq!(parent.elements[1].offset.x, 0);
    assert_eq!(parent.elements[1].offset.y, 15);
}

#[test]
fn place_at_zero_puts_the_child_behind_everything() {
    let mut state = RenderingState::new();
    let mut parent = ExprRendering::empty();
    let top = box_10x10(&mut state).click(ExprId::from_raw(1));
    parent.place(point2(2, 2), top);
    let behind = box_10x10(&mut state).click(ExprId::from_raw(2));
    parent.place_at(0, point2(0, 0), behind);
    assert_eq!(parent.elements.len(), 2);
    assert_eq!(parent.elements[0].tag, Some(ExprId::from_raw(2)));
    assert_eq!(parent.elements[1].tag, Some(ExprId::from_raw(1)));
}

#[test]
fn translate_moves_elements_not_the_size() {
    let mut state = RenderingState::new();
    let r = box_10x10(&mut state).translate(point2(7, 3));
    assert_eq!(r.elements[0].offset.x, 7);
    assert_eq!(r.elements[0].offset.y, 3);
    assert_eq!(r.size.width, 10);
    assert_eq!(r.size.height, 10);
}

#[test]
fn click_tags_every_element() {
    let mut state = RenderingState::new();
    let mut parent = ExprRendering::empty();
    parent.place(point2(0, 0), box_10x10(&mut state));
    parent.place(point2(0, 10), box_10x10(&mut state));
    let tagged = parent.click(ExprId::from_raw(9));
    assert_eq!(tagged.elements.len(), 2);
    for e in &tagged.elements {
        assert_eq!(e.tag, Some(ExprId::from_raw(9)));
    }
}

#[test]
fn measure_text_uses_the_monospace_fallback() {
    let mut state = RenderingState::new();
    let size = state.measure_text("abc");
    assert_eq!(size.width, 24);
    assert_eq!(size.height, 20);
    // memoized: the same answer comes back
    let again = state.measure_text("abc");
    assert_eq!(again.width, 24);
}

#[test]
fn measure_text_prefers_recorded_host_widths() {
    let mut state = RenderingState::new();
    state.insert_metric("hello".to_string(), 42);
    let size = state.measure_text("hello");
    assert_eq!(size.width, 42);
    assert_eq!(size.height, 20);
    // the cache is never invalidated: recording again keeps the first width
    state.insert_metric("hello".to_string(), 99);
    assert_eq!(state.measure_text("hello").width, 42);
    // other strings are unaffected
    assert_eq!(state.measure_text("hi").width, 16);
}

#[test]
fn text_render_carries_content_and_metric_width() {
    let mut state = RenderingState::new();
    let r = Text::new("ok", TextStyle::Mono).render(&mut state);
    assert_eq!(r.size.width, 16);
    assert_eq!(r.size.height, 20);
    assert_eq!(r.elements.len(), 1);
    match &r.elements[0].shape {
        kale::render::Shape::TextShape(t) => {
            assert_eq!(t.content.as_str(), "ok");
        }
        _ => panic!("expected a text shape"),
    }
}
