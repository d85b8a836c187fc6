use virtual_node::creation::text_separators;
use virtual_node::hydration::{plan_children, DomNodeKind, HydrateStep, VChildKind};

#[test]
fn separators_only_between_adjacent_texts() {
    let t = VChildKind::Text { utf16_len: 1 };
    let e = VChildKind::Element;
    assert_eq!(text_separators(&vec![]), Vec::<bool>::new());
    assert_eq!(text_separators(&vec![t, t, e, t, t, t]), vec![false, true, false, false, true, true]);
    assert_eq!(text_separators(&vec![e, e, t]), vec![false, false, false]);
}

#[test]
fn hydration_reads_back_created_children() {
    let children = vec![
        VChildKind::Text { utf16_len: 2 },
        VChildKind::Text { utf16_len: 3 },
        VChildKind::Element,
        VChildKind::Text { utf16_len: 1 },
    ];
    let seps = text_separators(&children);
    let mut real = Vec::new();
    for (c, sep) in children.iter().zip(seps.iter()) {
        if *sep {
            real.push(DomNodeKind::Comment);
        }
        real.push(match c {
            VChildKind::Text { utf16_len } => DomNodeKind::Text { utf16_len: *utf16_len },
            VChildKind::Element => DomNodeKind::Element,
        });
    }
    assert_eq!(real.len(), 5);
    assert_eq!(
        plan_children(&children, &real),
        vec![
            HydrateStep::AdoptText { index: 0, split_at: None },
            HydrateStep::AdoptText { index: 1, split_at: None },
            HydrateStep::AdoptElement { index: 2 },
            HydrateStep::AdoptText { index: 3, split_at: None },
        ]
    );
}
