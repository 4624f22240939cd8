use kale::builder::ExprTemplate;
use kale::expr::Expr;
use kale::expr::ExprId;
use kale::render::ExprRendering;
use kale::render::ExprViewId;
use kale::render::RenderingState;
use kale::render::Shape;
use kale::view::ExprView;

fn build(t: &ExprTemplate) -> Expr {
    let mut next: u32 = 1;
    t.build(&mut next)
}

fn plain_view() -> ExprView {
    ExprView { id: ExprViewId::Main, selection: None, frozen: false }
}

#[test]
fn block_with_one_var_lays_out_one_text_and_one_background() {
    // Do { [ Var "x" ] }: do id = 1, var id = 2
    let e = build(&ExprTemplate::Do {
        expressions: vec![ExprTemplate::Var { name: "x".to_string() }],
    });
    let mut state = RenderingState::new();
    let r = plain_view().render_expr(&mut state, &e);

    let texts: Vec<usize> = r
        .elements
        .iter()
        .enumerate()
        .filter(|(_, el)| matches!(el.shape, Shape::TextShape(_)))
        .map(|(k, _)| k)
        .collect();
    assert_eq!(texts.len(), 1, "exactly one text primitive");
    let text = &r.elements[texts[0]];
    assert_eq!(text.tag, Some(ExprId::from_raw(2)), "tagged with the var's id");
    assert_eq!((text.offset.x, text.offset.y), (5, 0), "placed at (5, 0)");

    let rects: Vec<usize> = r
        .elements
        .iter()
        .enumerate()
        .filter(|(_, el)| matches!(el.shape, Shape::RectShape(_)))
        .map(|(k, _)| k)
        .collect();
    assert_eq!(rects.len(), 1, "exactly one background rectangle");
    assert_eq!(rects[0], 0, "the background sits at draw index 0");
    assert_eq!(r.elements[0].tag, Some(ExprId::from_raw(1)), "tagged with the block's id");
}

#[test]
fn separator_selects_the_argument_not_the_call() {
    // Call { f, [a, b] }: call id = 1 (A), a id = 2, b id = 3 (B)
    let e = build(&ExprTemplate::Call {
        function: "f".to_string(),
        arguments: vec![
            ExprTemplate::Var { name: "a".to_string() },
            ExprTemplate::Var { name: "b".to_string() },
        ],
    });
    let mut state = RenderingState::new();
    let r = plain_view().render_expr(&mut state, &e);

    let circles: Vec<&kale::render::Element> = r
        .elements
        .iter()
        .filter(|el| matches!(el.shape, Shape::CircleShape(_)))
        .collect();
    assert_eq!(circles.len(), 2, "one separator per argument");
    assert_eq!(circles[0].tag, Some(ExprId::from_raw(2)));
    assert_eq!(
        circles[1].tag,
        Some(ExprId::from_raw(3)),
        "the second separator routes to the second argument, not the call"
    );
    assert!(circles.iter().all(|c| c.tag != Some(ExprId::from_raw(1))));
}

#[test]
fn selection_overlay_is_drawn_behind_everything() {
    let e = build(&ExprTemplate::Var { name: "x".to_string() });
    let mut state = RenderingState::new();
    let view = ExprView {
        id: ExprViewId::Main,
        selection: Some(ExprId::from_raw(1)),
        frozen: false,
    };
    let r = view.render_expr(&mut state, &e);
    assert_eq!(r.elements.len(), 2);
    match &r.elements[0].shape {
        Shape::RectShape(rect) => {
            assert_eq!(rect.stroke, Some("#aaa"));
            assert_eq!(rect.fill, None);
        }
        _ => panic!("the overlay must be the bottom element"),
    }
    assert!(matches!(r.elements[1].shape, Shape::TextShape(_)));
}

#[test]
fn stale_selection_highlights_nothing() {
    let e = build(&ExprTemplate::Var { name: "x".to_string() });
    let mut state = RenderingState::new();
    let view = ExprView {
        id: ExprViewId::Main,
        selection: Some(ExprId::from_raw(42)),
        frozen: false,
    };
    let r = view.render_expr(&mut state, &e);
    assert_eq!(r.elements.len(), 1, "no overlay for an id that is not there");
}

#[test]
fn view_render_stamps_its_view_id() {
    let e = build(&ExprTemplate::Var { name: "x".to_string() });
    let mut state = RenderingState::new();
    let vid = ExprViewId::Yanked { index: 3 };
    let view = ExprView { id: vid, selection: None, frozen: false };
    let r = view.render(&mut state, &e);
    assert!(!r.elements.is_empty());
    for el in &r.elements {
        assert_eq!(el.view, Some(vid));
    }
}

#[test]
fn frozen_view_gets_an_outline_behind_its_content() {
    let e = build(&ExprTemplate::Var { name: "x".to_string() });
    let mut state = RenderingState::new();
    let view = ExprView { id: ExprViewId::ToyBox { index: 0 }, selection: None, frozen: true };
    let r = view.render(&mut state, &e);
    assert_eq!(r.elements.len(), 2);
    match &r.elements[0].shape {
        Shape::RectShape(rect) => assert_eq!(rect.stroke, Some("#aaa")),
        _ => panic!("the outline must be the bottom element"),
    }
}

#[test]
fn editing_the_function_keeps_position_id_and_arguments() {
    // Call { print, [ Var n ] }: call id = 1, var id = 2
    let mut e = build(&ExprTemplate::Call {
        function: "print".to_string(),
        arguments: vec![ExprTemplate::Var { name: "n".to_string() }],
    });
    let mut state = RenderingState::new();
    let before = plain_view().render_expr(&mut state, &e);
    let fn_text_pos_before = text_position(&before, "print");

    e.set_text(ExprId::from_raw(1), "println");

    // only the function string changed
    assert_eq!(e.id(), ExprId::from_raw(1));
    match &e {
        Expr::Call { function, arguments, .. } => {
            assert_eq!(function.as_str(), "println");
            assert_eq!(arguments.len(), 1);
            assert_eq!(arguments[0].id(), ExprId::from_raw(2));
            match &arguments[0] {
                Expr::Var { name, .. } => assert_eq!(name.as_str(), "n"),
                _ => panic!("the argument must still be a var"),
            }
        }
        _ => panic!("still a call"),
    }

    let after = plain_view().render_expr(&mut state, &e);
    let fn_text_pos_after = text_position(&after, "println");
    assert_eq!(fn_text_pos_before, fn_text_pos_after, "the function text stays put");
    // the argument still renders, tagged with its unchanged id
    let n_text = after
        .elements
        .iter()
        .find(|el| match &el.shape {
            Shape::TextShape(t) => t.content.as_str() == "n",
            _ => false,
        })
        .expect("the argument still renders");
    assert_eq!(n_text.tag, Some(ExprId::from_raw(2)));
}

fn text_position(r: &ExprRendering, content: &str) -> (u32, u32) {
    for el in &r.elements {
        if let Shape::TextShape(t) = &el.shape {
            if t.content.as_str() == content {
                return (el.offset.x, el.offset.y);
            }
        }
    }
    panic!("no text primitive reading {}", content);
}
