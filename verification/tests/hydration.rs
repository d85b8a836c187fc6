use virtual_node::hydration::{
    plan_children, utf16_len, DomNodeKind, HydrateStep, HydrationCursor, VChildKind,
};

fn vt(len: usize) -> VChildKind {
    VChildKind::Text { utf16_len: len }
}
fn dt(len: usize) -> DomNodeKind {
    DomNodeKind::Text { utf16_len: len }
}

#[test]
fn utf16_len_counts_code_units() {
    assert_eq!(utf16_len(""), 0);
    assert_eq!(utf16_len("hello"), 5);
    assert_eq!(utf16_len("é"), 1);
    assert_eq!(utf16_len("黑风雷"), 3);
    assert_eq!(utf16_len("😀"), 2);
    assert_eq!(utf16_len("a😀b"), 4);
    assert_eq!(VChildKind::text("a😀"), vt(3));
    assert_eq!(DomNodeKind::text("ab"), dt(2));
}

#[test]
fn matches_children_one_to_one() {
    let v = vec![VChildKind::Element, vt(3)];
    let real = vec![DomNodeKind::Element, dt(3)];
    assert_eq!(
        plan_children(&v, &real),
        vec![
            HydrateStep::AdoptElement { index: 0 },
            HydrateStep::AdoptText { index: 1, split_at: None }
        ]
    );
}

#[test]
fn splits_text_for_adjacent_virtual_texts() {
    // Server rendered "Hello world" as one text node for two virtual texts.
    let v = vec![vt(6), vt(5)];
    let real = vec![dt(11)];
    assert_eq!(
        plan_children(&v, &real),
        vec![
            HydrateStep::AdoptText { index: 0, split_at: Some(6) },
            HydrateStep::AdoptText { index: 1, split_at: None }
        ]
    );
}

#[test]
fn no_split_when_text_is_whole_node_or_empty() {
    let v = vec![vt(4), vt(2)];
    let real = vec![dt(4), dt(2)];
    assert_eq!(
        plan_children(&v, &real),
        vec![
            HydrateStep::AdoptText { index: 0, split_at: None },
            HydrateStep::AdoptText { index: 1, split_at: None }
        ]
    );
    let v = vec![vt(0), vt(2)];
    let real = vec![dt(2)];
    assert_eq!(
        plan_children(&v, &real),
        vec![
            HydrateStep::AdoptText { index: 0, split_at: None },
            HydrateStep::AppendEmptyText
        ]
    );
}

#[test]
fn comments_are_skipped() {
    let v = vec![vt(1), vt(1)];
    let real = vec![dt(1), DomNodeKind::Comment, dt(1)];
    assert_eq!(
        plan_children(&v, &real),
        vec![
            HydrateStep::AdoptText { index: 0, split_at: None },
            HydrateStep::AdoptText { index: 1, split_at: None }
        ]
    );
}

#[test]
fn empty_text_inserted_before_element() {
    let v = vec![vt(0), VChildKind::Element];
    let real = vec![DomNodeKind::Element];
    assert_eq!(
        plan_children(&v, &real),
        vec![
            HydrateStep::InsertEmptyTextBefore { index: 0 },
            HydrateStep::AdoptElement { index: 0 }
        ]
    );
}

#[test]
fn element_skips_whitespace_text() {
    // Indented server HTML: whitespace text nodes between elements.
    let v = vec![VChildKind::Element, VChildKind::Element];
    let real = vec![dt(5), DomNodeKind::Element, dt(5), DomNodeKind::Element, dt(1)];
    assert_eq!(
        plan_children(&v, &real),
        vec![
            HydrateStep::AdoptElement { index: 1 },
            HydrateStep::AdoptElement { index: 3 }
        ]
    );
}

#[test]
fn aborts_when_no_element_is_left() {
    let v = vec![VChildKind::Element, VChildKind::Element, vt(1)];
    let real = vec![DomNodeKind::Element, dt(3)];
    assert_eq!(
        plan_children(&v, &real),
        vec![HydrateStep::AdoptElement { index: 0 }, HydrateStep::Abort]
    );
    assert_eq!(plan_children(&vec![VChildKind::Element], &vec![]), vec![HydrateStep::Abort]);
}

#[test]
fn appends_texts_when_dom_runs_out() {
    let v = vec![vt(2), vt(2)];
    assert_eq!(
        plan_children(&v, &vec![]),
        vec![HydrateStep::AppendEmptyText, HydrateStep::AppendEmptyText]
    );
}

#[test]
fn other_nodes_are_matched_neither_as_text_nor_element() {
    let v = vec![vt(1), VChildKind::Element];
    let real = vec![DomNodeKind::Other, DomNodeKind::Element];
    assert_eq!(
        plan_children(&v, &real),
        vec![
            HydrateStep::InsertEmptyTextBefore { index: 0 },
            HydrateStep::AdoptElement { index: 1 }
        ]
    );
}

#[test]
fn cursor_steps_one_child_at_a_time() {
    let mut c = HydrationCursor::new(&vec![DomNodeKind::Comment, dt(10), DomNodeKind::Element]);
    assert_eq!(c.step(vt(4), true), HydrateStep::AdoptText { index: 0, split_at: Some(4) });
    assert_eq!(c.step(vt(6), false), HydrateStep::AdoptText { index: 1, split_at: None });
    assert_eq!(c.step(VChildKind::Element, false), HydrateStep::AdoptElement { index: 2 });
    assert_eq!(c.step(vt(1), false), HydrateStep::AppendEmptyText);
    assert_eq!(c.step(VChildKind::Element, false), HydrateStep::Abort);
}

#[test]
fn cursor_split_keeps_right_part_for_next_text() {
    let mut c = HydrationCursor::new(&vec![dt(5)]);
    assert_eq!(c.step(vt(2), true), HydrateStep::AdoptText { index: 0, split_at: Some(2) });
    assert_eq!(c.step(vt(3), false), HydrateStep::AdoptText { index: 1, split_at: None });
    assert_eq!(c.step(vt(1), false), HydrateStep::AppendEmptyText);
}
