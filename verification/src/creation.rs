//! The decisions of creating the DOM children of a virtual element.
//!
//! Adjacent virtual texts become separate DOM text nodes; to keep the browser (and an HTML
//! parser, after server rendering) from merging them, a separator comment goes between two
//! text nodes that would otherwise touch. Hydration leaves comments out, so it reads back
//! one real node per virtual child.

use vstd::prelude::*;

use crate::hydration::{
    first_element,
    first_non_comment,
    spec_plan,
    spec_step,
    without_comments,
    DomNodeKind,
    HydrateStep,
    VChildKind,
};

verus! {

/// Whether a separator comment goes before the `i`-th child: it is a text, and so is the
/// child before it.
pub open spec fn needs_separator(children: Seq<VChildKind>, i: int) -> bool {
    &&& 0 < i < children.len()
    &&& children[i] is Text
    &&& children[i - 1] is Text
}

/// The kind of the real node created for a virtual child.
pub open spec fn node_kind(c: VChildKind) -> DomNodeKind {
    match c {
        VChildKind::Text { utf16_len } => DomNodeKind::Text { utf16_len },
        VChildKind::Element => DomNodeKind::Element,
    }
}

/// The real child nodes that creation appends for the virtual children `children`, in order:
/// one node per child, and a separator comment before each text that follows a text.
pub open spec fn spec_render(children: Seq<VChildKind>) -> Seq<DomNodeKind>
    decreases children.len(),
{
    if children.len() == 0 {
        Seq::empty()
    } else {
        let init = spec_render(children.drop_last());
        let with_sep = if needs_separator(children, children.len() - 1) {
            init.push(DomNodeKind::Comment)
        } else {
            init
        };
        with_sep.push(node_kind(children.last()))
    }
}

/// For each virtual child, whether a separator comment is appended before the node created
/// for it.
pub fn text_separators(children: &Vec<VChildKind>) -> (r: Vec<bool>)
    ensures
        r@.len() == children@.len(),
        forall|i: int| 0 <= i < r@.len() ==> #[trigger] r@[i] == needs_separator(children@, i),
{
    let mut r: Vec<bool> = Vec::new();
    let mut previous_node_was_text = false;
    let n = children.len();
    let mut i: usize = 0;
    while i < n
        invariant
            n == children@.len(),
            i <= n,
            r@.len() == i,
            previous_node_was_text == (i > 0 && children@[i - 1] is Text),
            forall|j: int| 0 <= j < i ==> #[trigger] r@[j] == needs_separator(children@, j),
        decreases n - i,
    {
        match children[i] {
            VChildKind::Text { .. } => {
                r.push(previous_node_was_text);
                previous_node_was_text = true;
            },
            VChildKind::Element => {
                r.push(false);
                previous_node_was_text = false;
            },
        }
        i += 1;
    }
    r
}

proof fn lemma_render_last(children: Seq<VChildKind>)
    requires
        children.len() > 0,
    ensures
        spec_render(children).len() > 0,
        spec_render(children).last() == node_kind(children.last()),
{
}

/// Created children never leave two text nodes next to each other.
pub proof fn law_rendered_texts_never_touch(children: Seq<VChildKind>)
    ensures
        forall|i: int|
            0 <= i < spec_render(children).len() - 1 ==> !(#[trigger] spec_render(children)[i] is Text
                && spec_render(children)[i + 1] is Text),
    decreases children.len(),
{
    if children.len() > 0 {
        let init_children = children.drop_last();
        law_rendered_texts_never_touch(init_children);
        let init = spec_render(init_children);
        let out = spec_render(children);
        let n = children.len();
        if n > 1 {
            lemma_render_last(init_children);
            assert(init_children.last() == children[n - 2]);
        }
        if needs_separator(children, n - 1) {
            let with_sep = init.push(DomNodeKind::Comment);
            assert(out == with_sep.push(node_kind(children.last())));
            assert forall|i: int| 0 <= i < out.len() - 1 implies !(#[trigger] out[i] is Text && out[i
                + 1] is Text) by {
                if i < init.len() - 1 {
                    assert(out[i] == init[i] && out[i + 1] == init[i + 1]);
                }
            }
        } else {
            assert(out == init.push(node_kind(children.last())));
            assert forall|i: int| 0 <= i < out.len() - 1 implies !(#[trigger] out[i] is Text && out[i
                + 1] is Text) by {
                if i < init.len() - 1 {
                    assert(out[i] == init[i] && out[i + 1] == init[i + 1]);
                }
            }
        }
    }
}

/// Leaving the separators out of the created children gives back one node per virtual child,
/// of its kind, in order.
pub proof fn law_rendered_children_read_back(children: Seq<VChildKind>)
    ensures
        without_comments(spec_render(children)) == children.map_values(|c: VChildKind| node_kind(c)),
    decreases children.len(),
{
    if children.len() == 0 {
        assert(children.map_values(|c: VChildKind| node_kind(c)) =~= Seq::<DomNodeKind>::empty());
    } else {
        let init_children = children.drop_last();
        law_rendered_children_read_back(init_children);
        let init = spec_render(init_children);
        let k = node_kind(children.last());
        let with_sep = if needs_separator(children, children.len() - 1) {
            init.push(DomNodeKind::Comment)
        } else {
            init
        };
        assert(with_sep.push(k).drop_last() =~= with_sep);
        assert(!(k is Comment));
        assert(without_comments(with_sep.push(k)) == without_comments(with_sep).push(k));
        if needs_separator(children, children.len() - 1) {
            assert(init.push(DomNodeKind::Comment).drop_last() =~= init);
            assert(without_comments(with_sep) == without_comments(init));
        }
        assert(spec_render(children) == with_sep.push(k));
        assert(children.map_values(|c: VChildKind| node_kind(c)) =~= init_children.map_values(
            |c: VChildKind| node_kind(c),
        ).push(k));
    }
}

/// The step that hydration takes for a virtual child whose own real node sits at `index`.
pub open spec fn own_node_step(c: VChildKind, index: int) -> HydrateStep {
    match c {
        VChildKind::Text { .. } => HydrateStep::AdoptText { index: index as usize, split_at: None },
        VChildKind::Element => HydrateStep::AdoptElement { index: index as usize },
    }
}

proof fn lemma_plan_over_own_nodes(children: Seq<VChildKind>, nodes: Seq<DomNodeKind>, pos: int)
    requires
        0 <= pos,
        nodes.len() == pos + children.len(),
        nodes.len() <= usize::MAX,
        forall|i: int| 0 <= i < children.len() ==> nodes[pos + i] == node_kind(#[trigger] children[i]),
    ensures
        spec_plan(children, nodes, pos).len() == children.len(),
        forall|i: int|
            0 <= i < children.len() ==> #[trigger] spec_plan(children, nodes, pos)[i]
                == own_node_step(children[i], pos + i),
    decreases children.len(),
{
    if children.len() > 0 {
        let next_is_text = children.len() > 1 && children[1] is Text;
        assert(nodes[pos + 0] == node_kind(children[0]));
        assert(first_non_comment(nodes, pos) == pos);
        if children[0] is Element {
            assert(first_element(nodes, pos) == pos);
        }
        let r = spec_step(nodes, pos, children[0], next_is_text);
        assert(r.0 == nodes && r.1 == pos + 1 && r.2 == own_node_step(children[0], pos));
        let tail = children.drop_first();
        assert forall|i: int| 0 <= i < tail.len() implies nodes[(pos + 1) + i] == node_kind(
            #[trigger] tail[i],
        ) by {
            assert(tail[i] == children[i + 1]);
        }
        lemma_plan_over_own_nodes(tail, nodes, pos + 1);
        let plan = spec_plan(children, nodes, pos);
        let rest = spec_plan(tail, nodes, pos + 1);
        assert(plan == seq![r.2] + rest);
        assert forall|i: int| 0 <= i < children.len() implies #[trigger] plan[i] == own_node_step(
            children[i],
            pos + i,
        ) by {
            if i > 0 {
                assert(plan[i] == rest[i - 1]);
                assert(tail[i - 1] == children[i]);
            }
        }
    }
}

/// What creation renders, hydration reads back: hydrating the children that creation made
/// for `children` matches each virtual child with the node made for it, in order, without
/// inserting, splitting or stopping.
pub proof fn law_hydration_reads_back_creation(children: Seq<VChildKind>)
    requires
        children.len() <= usize::MAX,
    ensures
        spec_plan(children, without_comments(spec_render(children)), 0).len() == children.len(),
        forall|i: int|
            0 <= i < children.len() ==> #[trigger] spec_plan(
                children,
                without_comments(spec_render(children)),
                0,
            )[i] == own_node_step(children[i], i),
{
    law_rendered_children_read_back(children);
    let nodes = without_comments(spec_render(children));
    assert forall|i: int| 0 <= i < children.len() implies nodes[0 + i] == node_kind(
        #[trigger] children[i],
    ) by {}
    lemma_plan_over_own_nodes(children, nodes, 0);
}

} // verus!
