use kale::builder::ExprTemplate;
use kale::expr::Expr;
use kale::expr::ExprId;
use kale::expr::ExprIterator;

fn var(name: &str) -> ExprTemplate {
    ExprTemplate::Var { name: name.to_string() }
}

fn call(function: &str, arguments: Vec<ExprTemplate>) -> ExprTemplate {
    ExprTemplate::Call { function: function.to_string(), arguments }
}

fn block(expressions: Vec<ExprTemplate>) -> ExprTemplate {
    ExprTemplate::Do { expressions }
}

fn build(t: &ExprTemplate) -> Expr {
    let mut next: u32 = 1;
    t.build(&mut next)
}

fn iter_ids(e: &Expr) -> Vec<u32> {
    let mut it = e.iter();
    let mut ids = Vec::new();
    while let Some(n) = it.next() {
        ids.push(n.id().0);
    }
    ids
}

#[test]
fn built_trees_are_valid() {
    let t = block(vec![
        ExprTemplate::Comment { text: "note".to_string() },
        call("f", vec![var("x"), ExprTemplate::Hole]),
    ]);
    let e = build(&t);
    assert!(e.valid());
}

#[test]
fn duplicated_id_breaks_validity() {
    // forcibly duplicate an id, bypassing the builder
    let e = Expr::Do {
        id: ExprId::from_raw(1),
        expressions: vec![Expr::Hole { id: ExprId::from_raw(1) }],
    };
    assert!(!e.valid());
}

#[test]
fn builder_assigns_preorder_ids() {
    let t = call("f", vec![var("a"), var("b")]);
    let mut next: u32 = 1;
    let e = t.build(&mut next);
    assert_eq!(next, 4);
    assert_eq!(e.id(), ExprId::from_raw(1));
    match &e {
        Expr::Call { function, arguments, .. } => {
            assert_eq!(function.as_str(), "f");
            assert_eq!(arguments[0].id(), ExprId::from_raw(2));
            assert_eq!(arguments[1].id(), ExprId::from_raw(3));
        }
        _ => panic!("expected a call"),
    }
}

#[test]
fn find_returns_the_requested_id() {
    let e = build(&block(vec![call("f", vec![var("a"), var("b")])]));
    for raw in 1..=4u32 {
        let id = ExprId::from_raw(raw);
        let found = e.find_by_id(id).expect("id should be present");
        assert_eq!(found.id(), id);
    }
    assert!(e.find_by_id(ExprId::from_raw(99)).is_none());
}

#[test]
fn remove_nonroot_detaches_a_valid_subtree() {
    // block ids: do=1, call=2, a=3, b=4
    let mut e = build(&block(vec![call("f", vec![var("a"), var("b")])]));
    let removed = e.remove_by_id(ExprId::from_raw(3)).expect("the subtree should come out");
    assert_eq!(removed.id(), ExprId::from_raw(3));
    assert!(removed.valid());
    assert!(e.find_by_id(ExprId::from_raw(3)).is_none());
    assert!(e.valid());
    // the sibling shifted into place
    match e.find_by_id(ExprId::from_raw(2)).unwrap() {
        Expr::Call { arguments, .. } => {
            assert_eq!(arguments.len(), 1);
            assert_eq!(arguments[0].id(), ExprId::from_raw(4));
        }
        _ => panic!("expected a call"),
    }
}

#[test]
fn remove_root_is_rejected() {
    let mut e = build(&block(vec![var("a"), var("b")]));
    let before_text = e.to_text();
    let before_ids = iter_ids(&e);
    assert!(e.remove_by_id(ExprId::from_raw(1)).is_none());
    assert_eq!(e.to_text(), before_text);
    assert_eq!(iter_ids(&e), before_ids);
}

#[test]
fn remove_absent_id_is_a_no_op() {
    let mut e = build(&block(vec![var("a")]));
    let before_text = e.to_text();
    assert!(e.remove_by_id(ExprId::from_raw(77)).is_none());
    assert_eq!(e.to_text(), before_text);
}

#[test]
fn update_replaces_the_target_node() {
    let mut e = build(&call("f", vec![var("a"), var("b")]));
    // ids: call=1, a=2, b=3; swap the second argument for a hole keeping its id
    e.update(ExprId::from_raw(3), |node: Expr| Expr::Hole { id: node.id() });
    match &e {
        Expr::Call { arguments, .. } => {
            assert!(matches!(arguments[1], Expr::Hole { .. }));
            assert_eq!(arguments[1].id(), ExprId::from_raw(3));
            assert!(matches!(arguments[0], Expr::Var { .. }));
        }
        _ => panic!("expected a call"),
    }
    assert!(e.valid());
}

#[test]
fn update_of_absent_id_changes_nothing() {
    let mut e = build(&call("f", vec![var("a")]));
    let before = e.to_text();
    e.update(ExprId::from_raw(9), |node: Expr| node);
    assert_eq!(e.to_text(), before);
}

#[test]
fn set_text_edits_each_editable_variant() {
    let t = block(vec![
        call("f", vec![var("x")]),
        ExprTemplate::Comment { text: "old".to_string() },
        ExprTemplate::Lit { kind: "int".to_string(), content: "1".to_string() },
    ]);
    // ids: do=1, call=2, x=3, comment=4, lit=5
    let mut e = build(&t);
    e.set_text(ExprId::from_raw(2), "g");
    e.set_text(ExprId::from_raw(3), "y");
    e.set_text(ExprId::from_raw(4), "new");
    e.set_text(ExprId::from_raw(5), "2");
    assert_eq!(e.to_text(), "{g(y), /* new */, 2:int}");
    // non-editable variants stay put
    let before = e.to_text();
    e.set_text(ExprId::from_raw(1), "zzz");
    assert_eq!(e.to_text(), before);
}

#[test]
fn childeren_lists_the_natural_child_order() {
    let e = build(&call("f", vec![var("a"), var("b")]));
    let cs = e.childeren();
    assert_eq!(cs.len(), 2);
    assert_eq!(cs[0].id(), ExprId::from_raw(2));
    assert_eq!(cs[1].id(), ExprId::from_raw(3));
    let leaf = build(&var("x"));
    assert!(leaf.childeren().is_empty());
}

#[test]
fn childeren_mut_edits_the_child_list_in_place() {
    let mut e = build(&call("f", vec![var("a")]));
    match e.childeren_mut() {
        Some(children) => children.push(Expr::Hole { id: ExprId::from_raw(9) }),
        None => panic!("a call has a child list"),
    }
    assert_eq!(e.to_text(), "f(a, ?)");
    assert!(e.valid());
    let mut leaf = build(&var("x"));
    assert!(leaf.childeren_mut().is_none());
}

#[test]
fn iterator_visits_every_node_exactly_once() {
    let t = block(vec![
        call("if", vec![var("c"), var("t"), var("e")]),
        ExprTemplate::Hole,
    ]);
    // 6 nodes with ids 1..=6
    let e = build(&t);
    let mut it = ExprIterator::new(&e);
    let mut ids = Vec::new();
    while let Some(n) = it.next() {
        ids.push(n.id().0);
    }
    ids.sort();
    assert_eq!(ids, vec![1, 2, 3, 4, 5, 6]);
    // exhausted for good: a fresh walk must be requested instead
    assert!(it.next().is_none());
}

#[test]
fn to_text_renders_each_variant() {
    assert_eq!(build(&ExprTemplate::Hole).to_text(), "?");
    assert_eq!(build(&var("n")).to_text(), "n");
    assert_eq!(
        build(&ExprTemplate::Comment { text: "A comment".to_string() }).to_text(),
        "/* A comment */"
    );
    assert_eq!(
        build(&ExprTemplate::Lit { kind: "int".to_string(), content: "42".to_string() }).to_text(),
        "42:int"
    );
    assert_eq!(
        build(&call("print", vec![var("n"), ExprTemplate::Hole])).to_text(),
        "print(n, ?)"
    );
    assert_eq!(build(&block(vec![var("a"), var("b")])).to_text(), "{a, b}");
    assert_eq!(build(&block(vec![])).to_text(), "{}");
}
