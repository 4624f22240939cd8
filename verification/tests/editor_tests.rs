use kale::builder::ExprTemplate;
use kale::editor::Editor;
use kale::editor::Event;
use kale::editor::KaleState;
use kale::expr::Expr;
use kale::expr::ExprId;
use kale::render::ExprViewId;

fn sample_tree() -> Expr {
    // do = 1, call = 2, n = 3
    let t = ExprTemplate::Do {
        expressions: vec![ExprTemplate::Call {
            function: "print".to_string(),
            arguments: vec![ExprTemplate::Var { name: "n".to_string() }],
        }],
    };
    let mut next: u32 = 1;
    t.build(&mut next)
}

#[test]
fn toy_box_holds_the_six_examples() {
    let toy_box = Editor::make_toy_box();
    assert_eq!(toy_box.len(), 6);
    for e in &toy_box {
        assert!(e.valid());
    }
    assert_eq!(toy_box[0].to_text(), "{?}");
    assert_eq!(toy_box[1].to_text(), "if(?, ?, ?)");
    assert_eq!(toy_box[2].to_text(), "print(thing)");
    assert_eq!(toy_box[3].to_text(), "/* A comment */");
    assert_eq!(toy_box[4].to_text(), "42:int");
    assert_eq!(toy_box[5].to_text(), "variable");
}

#[test]
fn select_events_set_the_selection() {
    let mut kale = KaleState::new();
    kale.editor.expr = sample_tree();
    kale.push_event(Event::Select { view_id: ExprViewId::Main, id: ExprId::from_raw(2) });
    kale.push_event(Event::Select { view_id: ExprViewId::Main, id: ExprId::from_raw(3) });
    let _canvas = kale.process_events();
    // strictly FIFO: the later event wins
    assert_eq!(kale.editor.selection, Some((ExprViewId::Main, ExprId::from_raw(3))));
}

#[test]
fn edit_with_text_replaces_the_field() {
    let mut kale = KaleState::new();
    kale.editor.expr = sample_tree();
    kale.push_event(Event::Edit {
        view_id: ExprViewId::Main,
        id: ExprId::from_raw(2),
        input: Some("println".to_string()),
    });
    let _canvas = kale.process_events();
    assert_eq!(kale.editor.expr.to_text(), "{println(n)}");
}

#[test]
fn cancelled_edit_yanks_the_subtree() {
    let mut kale = KaleState::new();
    kale.editor.expr = sample_tree();
    kale.push_event(Event::Edit {
        view_id: ExprViewId::Main,
        id: ExprId::from_raw(3),
        input: None,
    });
    let _canvas = kale.process_events();
    assert_eq!(kale.editor.yanked.len(), 1);
    assert_eq!(kale.editor.yanked[0].to_text(), "n");
    assert!(kale.editor.expr.find_by_id(ExprId::from_raw(3)).is_none());
    assert_eq!(kale.editor.expr.to_text(), "{print()}");
}

#[test]
fn cancelled_edit_of_the_root_is_rejected() {
    let mut kale = KaleState::new();
    kale.editor.expr = sample_tree();
    let before = kale.editor.expr.to_text();
    kale.push_event(Event::Edit {
        view_id: ExprViewId::Main,
        id: ExprId::from_raw(1),
        input: None,
    });
    let _canvas = kale.process_events();
    assert!(kale.editor.yanked.is_empty());
    assert_eq!(kale.editor.expr.to_text(), before);
}

#[test]
fn only_the_main_view_is_editable() {
    let mut kale = KaleState::new();
    kale.editor.expr = sample_tree();
    let before = kale.editor.expr.to_text();
    kale.push_event(Event::Edit {
        view_id: ExprViewId::ToyBox { index: 0 },
        id: ExprId::from_raw(2),
        input: Some("boom".to_string()),
    });
    let _canvas = kale.process_events();
    assert_eq!(kale.editor.expr.to_text(), before);
}

#[test]
fn processing_drains_the_queue_and_renders_once() {
    let mut kale = KaleState::new();
    kale.editor.expr = sample_tree();
    kale.push_event(Event::Select { view_id: ExprViewId::Main, id: ExprId::from_raw(2) });
    let canvas = kale.process_events();
    assert!(kale.event_queue.is_empty());
    assert!(!canvas.elements.is_empty());
    // every primitive carries its view for event routing
    for el in &canvas.elements {
        assert!(el.view.is_some());
    }
    // primitives of the main document exist alongside the toy box's
    assert!(canvas.elements.iter().any(|el| el.view == Some(ExprViewId::Main)));
    assert!(canvas
        .elements
        .iter()
        .any(|el| matches!(el.view, Some(ExprViewId::ToyBox { .. }))));
}

#[test]
fn yanked_entries_render_newest_first() {
    let mut kale = KaleState::new();
    kale.editor.expr = sample_tree();
    // yank the var, then the remaining call
    kale.push_event(Event::Edit {
        view_id: ExprViewId::Main,
        id: ExprId::from_raw(3),
        input: None,
    });
    kale.push_event(Event::Edit {
        view_id: ExprViewId::Main,
        id: ExprId::from_raw(2),
        input: None,
    });
    let canvas = kale.process_events();
    assert_eq!(kale.editor.yanked.len(), 2);
    assert_eq!(kale.editor.yanked[0].to_text(), "n");
    assert_eq!(kale.editor.yanked[1].to_text(), "print()");
    assert_eq!(kale.editor.expr.to_text(), "{}");
    // both yank rows render
    assert!(canvas.elements.iter().any(|el| el.view == Some(ExprViewId::Yanked { index: 0 })));
    assert!(canvas.elements.iter().any(|el| el.view == Some(ExprViewId::Yanked { index: 1 })));
}

#[test]
fn selection_highlights_only_its_own_view() {
    let mut kale = KaleState::new();
    kale.editor.expr = sample_tree();
    kale.push_event(Event::Select { view_id: ExprViewId::Main, id: ExprId::from_raw(1) });
    let canvas = kale.process_events();
    // the overlay is an untagged stroked rectangle; among the main view's
    // primitives there is exactly one (frozen toy box outlines live in
    // their own views)
    let overlays: Vec<&kale::render::Element> = canvas
        .elements
        .iter()
        .filter(|el| el.view == Some(ExprViewId::Main))
        .filter(|el| match &el.shape {
            kale::render::Shape::RectShape(r) => r.stroke == Some("#aaa") && el.tag.is_none(),
            _ => false,
        })
        .collect();
    assert_eq!(overlays.len(), 1);
    // nothing is highlighted in the yank column
    assert!(!canvas
        .elements
        .iter()
        .any(|el| matches!(el.view, Some(ExprViewId::Yanked { .. }))));
}
