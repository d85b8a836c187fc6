//! The decisions of hydration: how the children of a virtual element are matched, in order,
//! against the children that an existing DOM element already has.
//!
//! The DOM work (creating and inserting empty text nodes, splitting a text node, recursing
//! into a child element) is left to the caller, which performs each [`HydrateStep`] in turn
//! on its own list of real child nodes, mirroring the list that the [`HydrationCursor`] keeps.

use vstd::prelude::*;
use vstd::std_specs::iter::IteratorSpec;
use vstd::utf8::encode_utf8;

verus! {

/// The number of UTF-16 code units that encode `c`: two for a character outside the Basic
/// Multilingual Plane, one otherwise.
pub open spec fn utf16_units(c: char) -> nat {
    if (c as u32) >= 0x10000 {
        2
    } else {
        1
    }
}

/// The number of UTF-16 code units that encode the characters `s`.
pub open spec fn spec_utf16_len(s: Seq<char>) -> nat
    decreases s.len(),
{
    if s.len() == 0 {
        0
    } else {
        utf16_units(s[0]) + spec_utf16_len(s.drop_first())
    }
}

/// A text never takes more UTF-16 code units than UTF-8 bytes.
proof fn lemma_utf16_len_le_utf8_len(s: Seq<char>)
    ensures
        spec_utf16_len(s) <= encode_utf8(s).len(),
    decreases s.len(),
{
    if s.len() > 0 {
        lemma_utf16_len_le_utf8_len(s.drop_first());
        vstd::utf8::char_is_scalar(s[0]);
        let c = s[0] as u32;
        assert(vstd::utf8::encode_scalar(c).len() >= utf16_units(s[0]));
    }
}

/// UTF-16 length is additive: the length of two texts one after the other is the sum of
/// their lengths.
pub proof fn law_utf16_len_adds_up(a: Seq<char>, b: Seq<char>)
    ensures
        spec_utf16_len(a + b) == spec_utf16_len(a) + spec_utf16_len(b),
    decreases a.len(),
{
    if a.len() > 0 {
        law_utf16_len_adds_up(a.drop_first(), b);
        assert((a + b).drop_first() =~= a.drop_first() + b);
        assert((a + b)[0] == a[0]);
    } else {
        assert(a + b =~= b);
    }
}

/// A single character takes one UTF-16 code unit when it lies in the Basic Multilingual Plane
/// (below U+10000), and two (a surrogate pair) otherwise; these are exactly the characters that
/// take four bytes in UTF-8. So a text's UTF-16 length is its number of characters plus its
/// number of characters outside the Basic Multilingual Plane.
pub proof fn law_utf16_len_of_one_char(c: char)
    ensures
        (c as u32) < 0x10000 ==> spec_utf16_len(seq![c]) == 1,
        (c as u32) >= 0x10000 ==> spec_utf16_len(seq![c]) == 2,
        spec_utf16_len(seq![c]) == if encode_utf8(seq![c]).len() == 4 {
            2int
        } else {
            1int
        },
{
    vstd::utf8::char_is_scalar(c);
    assert(seq![c].drop_first() =~= Seq::<char>::empty());
    assert(seq![c][0] == c);
    assert(spec_utf16_len(Seq::<char>::empty()) == 0);
    assert(spec_utf16_len(seq![c]) == utf16_units(c) + spec_utf16_len(seq![c].drop_first()));
    assert(encode_utf8(seq![c]) == vstd::utf8::encode_scalar(c as u32) + encode_utf8(
        Seq::<char>::empty(),
    ));
    assert(encode_utf8(Seq::<char>::empty()) =~= Seq::<u8>::empty());
}

/// A text's UTF-16 length never falls below its number of characters and never exceeds twice
/// that number; it equals the number of characters exactly when every character lies in the
/// Basic Multilingual Plane.
pub proof fn law_utf16_len_bounds(s: Seq<char>)
    ensures
        s.len() <= spec_utf16_len(s) <= 2 * s.len(),
        (forall|i: int| 0 <= i < s.len() ==> (#[trigger] s[i] as u32) < 0x10000) <==> spec_utf16_len(s)
            == s.len(),
    decreases s.len(),
{
    if s.len() > 0 {
        let t = s.drop_first();
        law_utf16_len_bounds(t);
        if forall|i: int| 0 <= i < s.len() ==> (#[trigger] s[i] as u32) < 0x10000 {
            assert forall|i: int| 0 <= i < t.len() implies (#[trigger] t[i] as u32) < 0x10000 by {
                assert(t[i] == s[i + 1]);
            }
        }
        if forall|i: int| 0 <= i < t.len() ==> (#[trigger] t[i] as u32) < 0x10000 {
            if (s[0] as u32) < 0x10000 {
                assert forall|i: int| 0 <= i < s.len() implies (#[trigger] s[i] as u32) < 0x10000 by {
                    if i > 0 {
                        assert(s[i] == t[i - 1]);
                    }
                }
            }
        }
    }
}

/// The length of `s` in UTF-16 code units, which is how the DOM measures text.
pub fn utf16_len(s: &str) -> (n: usize)
    ensures
        n == spec_utf16_len(s@),
{
    let bytes: usize = s.as_bytes().len();
    proof {
        lemma_utf16_len_le_utf8_len(s@);
    }
    let mut n: usize = 0;
    let mut it = s.chars();
    loop
        invariant
            n + spec_utf16_len(it.remaining()) == spec_utf16_len(s@),
            spec_utf16_len(s@) <= bytes,
            it.obeys_prophetic_iter_laws(),
            it.decrease() is Some,
        ensures
            n == spec_utf16_len(s@),
        decreases it.decrease()->0,
    {
        let ghost before = it.remaining();
        match it.next() {
            Some(c) => {
                assert(spec_utf16_len(before) == utf16_units(c) + spec_utf16_len(it.remaining()));
                if (c as u32) >= 0x10000 {
                    n = n + 2;
                } else {
                    n = n + 1;
                }
            },
            None => {
                break ;
            },
        }
    }
    n
}


/// What hydration needs to know of a child node of the real DOM element.
#[derive(Clone, Copy, Debug, PartialEq, Eq, Structural)]
pub enum DomNodeKind {
    /// A text node, with the length of its data in UTF-16 code units.
    Text { utf16_len: usize },
    /// An element node.
    Element,
    /// A comment node; hydration does not match comments.
    Comment,
    /// Any other kind of node.
    Other,
}

impl DomNodeKind {
    /// The kind of a text node whose data is `data`.
    pub fn text(data: &str) -> (r: DomNodeKind)
        ensures
            r == (DomNodeKind::Text { utf16_len: spec_utf16_len(data@) as usize }),
            spec_utf16_len(data@) <= usize::MAX,
    {
        DomNodeKind::Text { utf16_len: utf16_len(data) }
    }
}

/// What hydration needs to know of a child of the virtual element.
#[derive(Clone, Copy, Debug, PartialEq, Eq, Structural)]
pub enum VChildKind {
    /// A virtual text node, with the length of its text in UTF-16 code units.
    Text { utf16_len: usize },
    /// A virtual element.
    Element,
}

impl VChildKind {
    /// The kind of a virtual text node whose text is `text`.
    pub fn text(text: &str) -> (r: VChildKind)
        ensures
            r == (VChildKind::Text { utf16_len: spec_utf16_len(text@) as usize }),
            spec_utf16_len(text@) <= usize::MAX,
    {
        VChildKind::Text { utf16_len: utf16_len(text) }
    }
}

/// One thing to do to the real DOM while hydrating the next virtual child. Indices refer to
/// the list of real child nodes as the [`HydrationCursor`] keeps it at that point.
#[derive(Clone, Copy, Debug, PartialEq, Eq, Structural)]
pub enum HydrateStep {
    /// No real node is left: append a new empty text node for this virtual text.
    AppendEmptyText,
    /// The real node at `index` is no text node: insert a new empty text node before it for
    /// this virtual text, and match the same real node against the next virtual child.
    InsertEmptyTextBefore { index: usize },
    /// Match this virtual text with the real text node at `index`. With `split_at`, first
    /// split that node at this UTF-16 offset: its right part becomes a new real node just
    /// after it, for the next virtual text.
    AdoptText { index: usize, split_at: Option<usize> },
    /// Match this virtual element with the real element at `index`, skipping the real nodes
    /// before it.
    AdoptElement { index: usize },
    /// No real element is left for this virtual element: stop hydrating these children.
    Abort,
}

/// The first position at or after `pos` that holds no comment (the length when there is none).
pub open spec fn first_non_comment(nodes: Seq<DomNodeKind>, pos: int) -> int
    decreases nodes.len() - pos,
{
    if pos < 0 || pos >= nodes.len() || !(nodes[pos] is Comment) {
        pos
    } else {
        first_non_comment(nodes, pos + 1)
    }
}

/// The first position at or after `pos` that holds an element (the length when there is none).
pub open spec fn first_element(nodes: Seq<DomNodeKind>, pos: int) -> int
    decreases nodes.len() - pos,
{
    if pos < 0 || pos >= nodes.len() {
        nodes.len() as int
    } else if nodes[pos] is Element {
        pos
    } else {
        first_element(nodes, pos + 1)
    }
}

/// One step of hydration: from the real nodes `nodes` with the cursor at `pos`, the virtual
/// child `child` (followed by a virtual text exactly when `next_is_text`) gives the real nodes
/// after the step, the new cursor and the step itself.
pub open spec fn spec_step(
    nodes: Seq<DomNodeKind>,
    pos: int,
    child: VChildKind,
    next_is_text: bool,
) -> (Seq<DomNodeKind>, int, HydrateStep) {
    let p = first_non_comment(nodes, pos);
    if p >= nodes.len() {
        match child {
            VChildKind::Text { .. } => (nodes, p, HydrateStep::AppendEmptyText),
            VChildKind::Element => (nodes, p, HydrateStep::Abort),
        }
    } else {
        match child {
            VChildKind::Text { utf16_len: len } => match nodes[p] {
                DomNodeKind::Text { utf16_len: total } => {
                    if next_is_text && 0 < len && len < total {
                        (
                            nodes.update(p, DomNodeKind::Text { utf16_len: len }).insert(
                                p + 1,
                                DomNodeKind::Text { utf16_len: (total - len) as usize },
                            ),
                            p + 1,
                            HydrateStep::AdoptText { index: p as usize, split_at: Some(len) },
                        )
                    } else {
                        (nodes, p + 1, HydrateStep::AdoptText { index: p as usize, split_at: None })
                    }
                },
                _ => (nodes, p, HydrateStep::InsertEmptyTextBefore { index: p as usize }),
            },
            VChildKind::Element => {
                let j = first_element(nodes, p);
                if j < nodes.len() {
                    (nodes, j + 1, HydrateStep::AdoptElement { index: j as usize })
                } else {
                    (nodes, p, HydrateStep::Abort)
                }
            },
        }
    }
}

/// The real child nodes that hydration matches against: all but the comments, in order.
pub open spec fn without_comments(nodes: Seq<DomNodeKind>) -> Seq<DomNodeKind>
    decreases nodes.len(),
{
    if nodes.len() == 0 {
        Seq::empty()
    } else if nodes.last() is Comment {
        without_comments(nodes.drop_last())
    } else {
        without_comments(nodes.drop_last()).push(nodes.last())
    }
}

/// The state of hydration between two virtual children: the real child nodes (with the
/// right parts of split text nodes in place) and the position of the next one to match.
pub struct HydrationCursor {
    nodes: Vec<DomNodeKind>,
    pos: usize,
}

impl HydrationCursor {
    /// The real child nodes as hydration sees them now.
    pub closed spec fn nodes(&self) -> Seq<DomNodeKind> {
        self.nodes@
    }

    /// The position of the next real node to match.
    pub closed spec fn pos(&self) -> int {
        self.pos as int
    }

    #[verifier::type_invariant]
    spec fn pos_in_range(&self) -> bool {
        self.pos <= self.nodes@.len()
    }

    /// Start hydrating against the real child nodes `children`, in document order; comment
    /// nodes are left out.
    pub fn new(children: &Vec<DomNodeKind>) -> (r: HydrationCursor)
        ensures
            r.nodes() == without_comments(children@),
            r.pos() == 0,
            0 <= r.pos() <= r.nodes().len() <= usize::MAX,
    {
        let mut nodes: Vec<DomNodeKind> = Vec::new();
        let n = children.len();
        let mut i: usize = 0;
        while i < n
            invariant
                n == children@.len(),
                i <= n,
                nodes@ == without_comments(children@.take(i as int)),
            decreases n - i,
        {
            let ghost prefix = children@.take(i as int);
            assert(children@.take(i + 1).drop_last() =~= prefix);
            assert(children@.take(i + 1).last() == children@[i as int]);
            let node = children[i];
            match node {
                DomNodeKind::Comment => {},
                _ => {
                    nodes.push(node);
                },
            }
            i += 1;
        }
        assert(children@.take(n as int) =~= children@);
        let _len: usize = nodes.len();
        HydrationCursor { nodes, pos: 0 }
    }

    /// The first position at or after `pos` that holds no comment.
    fn skip_comments(&self) -> (p: usize)
        ensures
            p == first_non_comment(self.nodes(), self.pos()),
            self.pos() <= p <= self.nodes().len(),
    {
        proof {
            use_type_invariant(self);
        }
        let n = self.nodes.len();
        let mut p = self.pos;
        while p < n && matches!(self.nodes[p], DomNodeKind::Comment)
            invariant
                n == self.nodes@.len(),
                self.pos <= p <= n,
                first_non_comment(self.nodes@, p as int) == first_non_comment(
                    self.nodes@,
                    self.pos as int,
                ),
            decreases n - p,
        {
            p += 1;
        }
        p
    }

    /// The first position at or after `from` that holds an element, if any.
    fn find_element(&self, from: usize) -> (r: Option<usize>)
        requires
            from <= self.nodes().len(),
        ensures
            match r {
                Some(j) => j == first_element(self.nodes(), from as int) && j < self.nodes().len(),
                None => first_element(self.nodes(), from as int) == self.nodes().len(),
            },
    {
        let n = self.nodes.len();
        let mut j = from;
        while j < n
            invariant
                n == self.nodes@.len(),
                from <= j <= n,
                first_element(self.nodes@, j as int) == first_element(self.nodes@, from as int),
            decreases n - j,
        {
            if matches!(self.nodes[j], DomNodeKind::Element) {
                return Some(j);
            }
            j += 1;
        }
        None
    }

    /// Decide what to do for the next virtual child `child`; `next_is_text` tells whether the
    /// virtual child after it is a text. The cursor moves on as the step says.
    pub fn step(&mut self, child: VChildKind, next_is_text: bool) -> (s: HydrateStep)
        ensures
            ({
                let r = spec_step(old(self).nodes(), old(self).pos(), child, next_is_text);
                &&& final(self).nodes() == r.0
                &&& final(self).pos() == r.1
                &&& s == r.2
            }),
            0 <= old(self).pos() <= old(self).nodes().len(),
            0 <= final(self).pos() <= final(self).nodes().len() <= usize::MAX,
    {
        proof {
            use_type_invariant(&*self);
        }
        let p = self.skip_comments();
        let n = self.nodes.len();
        if p >= n {
            self.pos = p;
            return match child {
                VChildKind::Text { .. } => HydrateStep::AppendEmptyText,
                VChildKind::Element => HydrateStep::Abort,
            };
        }
        match child {
            VChildKind::Text { utf16_len: len } => match self.nodes[p] {
                DomNodeKind::Text { utf16_len: total } => {
                    if next_is_text && 0 < len && len < total {
                        let mut nodes: Vec<DomNodeKind> = Vec::new();
                        self.pos = 0;
                        std::mem::swap(&mut nodes, &mut self.nodes);
                        nodes.set(p, DomNodeKind::Text { utf16_len: len });
                        nodes.insert(p + 1, DomNodeKind::Text { utf16_len: total - len });
                        let _len: usize = nodes.len();
                        self.nodes = nodes;
                        self.pos = p + 1;
                        HydrateStep::AdoptText { index: p, split_at: Some(len) }
                    } else {
                        self.pos = p + 1;
                        HydrateStep::AdoptText { index: p, split_at: None }
                    }
                },
                _ => {
                    self.pos = p;
                    HydrateStep::InsertEmptyTextBefore { index: p }
                },
            },
            VChildKind::Element => {
                match self.find_element(p) {
                    Some(j) => {
                        self.pos = j + 1;
                        HydrateStep::AdoptElement { index: j }
                    },
                    None => {
                        self.pos = p;
                        HydrateStep::Abort
                    },
                }
            },
        }
    }
}

/// The steps that hydrate the virtual children `children` against the real nodes `nodes`
/// with the cursor at `pos`: one step per virtual child, in order, up to and including the
/// first `Abort`.
pub open spec fn spec_plan(children: Seq<VChildKind>, nodes: Seq<DomNodeKind>, pos: int) -> Seq<
    HydrateStep,
>
    decreases children.len(),
{
    if children.len() == 0 {
        Seq::empty()
    } else {
        let next_is_text = children.len() > 1 && children[1] is Text;
        let r = spec_step(nodes, pos, children[0], next_is_text);
        if r.2 is Abort {
            seq![r.2]
        } else {
            seq![r.2] + spec_plan(children.drop_first(), r.0, r.1)
        }
    }
}

/// Plan the hydration of the virtual children `children` against the real child nodes
/// `real_children` of an existing element (comments included, in document order).
pub fn plan_children(children: &Vec<VChildKind>, real_children: &Vec<DomNodeKind>) -> (r: Vec<
    HydrateStep,
>)
    ensures
        r@ == spec_plan(children@, without_comments(real_children@), 0),
{
    let mut cursor = HydrationCursor::new(real_children);
    let ghost start = cursor.nodes();
    let mut steps: Vec<HydrateStep> = Vec::new();
    let n = children.len();
    let mut i: usize = 0;
    assert(children@.skip(0) =~= children@);
    assert(steps@ + spec_plan(children@, start, 0) =~= spec_plan(children@, start, 0));
    while i < n
        invariant_except_break
            n == children@.len(),
            i <= n,
            steps@ + spec_plan(children@.skip(i as int), cursor.nodes(), cursor.pos()) == spec_plan(
                children@,
                start,
                0,
            ),
        ensures
            steps@ == spec_plan(children@, start, 0),
        decreases n - i,
    {
        let ghost rest = children@.skip(i as int);
        assert(rest.drop_first() =~= children@.skip(i + 1));
        let next_is_text = i + 1 < n && matches!(children[i + 1], VChildKind::Text { .. });
        assert(next_is_text == (rest.len() > 1 && rest[1] is Text));
        let s = cursor.step(children[i], next_is_text);
        steps.push(s);
        i += 1;
        if matches!(s, HydrateStep::Abort) {
            assert(steps@ =~= spec_plan(children@, start, 0));
            break ;
        }
    }
    proof {
        if i == n {
            assert(children@.skip(n as int) =~= Seq::<VChildKind>::empty());
            assert(steps@ + Seq::<HydrateStep>::empty() =~= steps@);
        }
    }
    steps
}


/// The list that hydration matches against holds no comment.
pub proof fn law_no_comments_are_matched(nodes: Seq<DomNodeKind>)
    ensures
        forall|i: int|
            0 <= i < without_comments(nodes).len() ==> !(#[trigger] without_comments(nodes)[i] is Comment),
        without_comments(nodes).len() <= nodes.len(),
    decreases nodes.len(),
{
    if nodes.len() > 0 {
        law_no_comments_are_matched(nodes.drop_last());
    }
}

proof fn lemma_first_non_comment(nodes: Seq<DomNodeKind>, pos: int)
    requires
        0 <= pos <= nodes.len(),
    ensures
        pos <= first_non_comment(nodes, pos) <= nodes.len(),
        forall|k: int| pos <= k < first_non_comment(nodes, pos) ==> #[trigger] nodes[k] is Comment,
        first_non_comment(nodes, pos) < nodes.len() ==> !(nodes[first_non_comment(
            nodes,
            pos,
        )] is Comment),
    decreases nodes.len() - pos,
{
    if pos < nodes.len() && nodes[pos] is Comment {
        lemma_first_non_comment(nodes, pos + 1);
    }
}

proof fn lemma_first_element(nodes: Seq<DomNodeKind>, pos: int)
    requires
        0 <= pos <= nodes.len(),
    ensures
        pos <= first_element(nodes, pos) <= nodes.len(),
        forall|k: int| pos <= k < first_element(nodes, pos) ==> !(#[trigger] nodes[k] is Element),
        first_element(nodes, pos) < nodes.len() ==> nodes[first_element(nodes, pos)] is Element,
    decreases nodes.len() - pos,
{
    if pos < nodes.len() && !(nodes[pos] is Element) {
        lemma_first_element(nodes, pos + 1);
    }
}

/// The real node that a step matches its virtual child with, if it matches one.
pub open spec fn adopted_index(s: HydrateStep) -> Option<int> {
    match s {
        HydrateStep::AdoptText { index, .. } => Some(index as int),
        HydrateStep::AdoptElement { index } => Some(index as int),
        _ => None,
    }
}

/// Each step matches a virtual text only with the first real node at the cursor that is no
/// comment, when that node is a text, and a virtual element only with the first real element
/// at or after the cursor, and moves the cursor just past it; a new empty
/// text is inserted only before the first real node at the cursor that is no comment, when
/// that node is no text (and the cursor stays on it), and appended
/// only when no real node but comments is left; hydration stops only for a virtual element
/// for which no real element is left. A split keeps the text's total UTF-16 length: the left
/// part holds exactly the virtual text, the right part the rest, for the virtual text after it.
pub proof fn law_step_matches_kinds(
    nodes: Seq<DomNodeKind>,
    pos: int,
    child: VChildKind,
    next_is_text: bool,
)
    requires
        0 <= pos <= nodes.len() <= usize::MAX,
    ensures
        ({
            let (nodes2, pos2, s) = spec_step(nodes, pos, child, next_is_text);
            &&& pos <= pos2 <= nodes2.len()
            &&& match s {
                HydrateStep::AppendEmptyText => {
                    &&& child is Text
                    &&& nodes2 == nodes
                    &&& forall|k: int| pos <= k < nodes.len() ==> #[trigger] nodes[k] is Comment
                },
                HydrateStep::InsertEmptyTextBefore { index } => {
                    &&& child is Text
                    &&& nodes2 == nodes
                    &&& pos2 == index
                    &&& pos <= index < nodes.len()
                    &&& !(nodes[index as int] is Text)
                    &&& !(nodes[index as int] is Comment)
                    &&& forall|k: int| pos <= k < index ==> #[trigger] nodes[k] is Comment
                },
                HydrateStep::AdoptText { index, split_at } => {
                    &&& child is Text
                    &&& pos <= index < nodes.len()
                    &&& nodes[index as int] is Text
                    &&& forall|k: int| pos <= k < index ==> #[trigger] nodes[k] is Comment
                    &&& pos2 == index + 1
                    &&& (split_at is Some) == (next_is_text && 0 < child->Text_utf16_len
                        < nodes[index as int]->Text_utf16_len)
                    &&& match split_at {
                        None => nodes2 == nodes,
                        Some(len) => {
                            &&& child == VChildKind::Text { utf16_len: len }
                            &&& next_is_text
                            &&& 0 < len < nodes[index as int]->Text_utf16_len
                            &&& nodes2.len() == nodes.len() + 1
                            &&& nodes2[index as int] == DomNodeKind::Text { utf16_len: len }
                            &&& nodes2[index + 1] is Text
                            &&& len + nodes2[index + 1]->Text_utf16_len
                                == nodes[index as int]->Text_utf16_len
                            &&& forall|k: int| 0 <= k < index ==> nodes2[k] == nodes[k]
                            &&& forall|k: int|
                                index + 1 < k < nodes2.len() ==> nodes2[k] == nodes[k - 1]
                        },
                    }
                },
                HydrateStep::AdoptElement { index } => {
                    &&& child is Element
                    &&& nodes2 == nodes
                    &&& pos <= index < nodes.len()
                    &&& nodes[index as int] is Element
                    &&& forall|k: int| pos <= k < index ==> !(#[trigger] nodes[k] is Element)
                    &&& pos2 == index + 1
                },
                HydrateStep::Abort => {
                    &&& child is Element
                    &&& nodes2 == nodes
                    &&& forall|k: int| pos <= k < nodes.len() ==> !(#[trigger] nodes[k] is Element)
                },
            }
        }),
{
    lemma_first_non_comment(nodes, pos);
    let p = first_non_comment(nodes, pos);
    if p < nodes.len() {
        lemma_first_element(nodes, p);
    }
}

/// Hydration gives one step per virtual child, in order, and stops early only at an `Abort`,
/// which is its last step; a virtual element is always matched with a real element, or
/// stops hydration, and a virtual text always gets a text node of its own.
pub proof fn law_plan_one_step_per_child(
    children: Seq<VChildKind>,
    nodes: Seq<DomNodeKind>,
    pos: int,
)
    requires
        0 <= pos <= nodes.len(),
        nodes.len() + children.len() <= usize::MAX,
    ensures
        ({
            let plan = spec_plan(children, nodes, pos);
            &&& plan.len() <= children.len()
            &&& plan.len() == children.len() || plan.last() is Abort
            &&& forall|i: int| 0 <= i < plan.len() - 1 ==> !(#[trigger] plan[i] is Abort)
            &&& forall|i: int|
                0 <= i < plan.len() ==> (#[trigger] children[i] is Element <==> (plan[i] is AdoptElement
                    || plan[i] is Abort))
        }),
    decreases children.len(),
{
    if children.len() > 0 {
        let next_is_text = children.len() > 1 && children[1] is Text;
        let r = spec_step(nodes, pos, children[0], next_is_text);
        law_step_matches_kinds(nodes, pos, children[0], next_is_text);
        if !(r.2 is Abort) {
            let tail = children.drop_first();
            law_plan_one_step_per_child(tail, r.0, r.1);
            let plan = spec_plan(children, nodes, pos);
            let rest = spec_plan(tail, r.0, r.1);
            assert(plan == seq![r.2] + rest);
            assert forall|i: int| 0 <= i < plan.len() implies (#[trigger] children[i] is Element <==> (
            plan[i] is AdoptElement || plan[i] is Abort)) by {
                if i > 0 {
                    assert(children[i] == tail[i - 1]);
                    assert(plan[i] == rest[i - 1]);
                }
            }
            assert forall|i: int| 0 <= i < plan.len() - 1 implies !(#[trigger] plan[i] is Abort) by {
                if i > 0 {
                    assert(plan[i] == rest[i - 1]);
                }
            }
            if rest.len() > 0 {
                assert(plan.last() == rest.last());
            }
        }
    }
}

/// The UTF-16 offset at which a step splits a real text node, if it splits one.
pub open spec fn split_offset(s: HydrateStep) -> Option<usize> {
    match s {
        HydrateStep::AdoptText { split_at, .. } => split_at,
        _ => None,
    }
}

/// A text node is split only for a non-empty virtual text that another virtual text follows,
/// at that text's own UTF-16 length.
pub proof fn law_plan_splits_between_texts(
    children: Seq<VChildKind>,
    nodes: Seq<DomNodeKind>,
    pos: int,
)
    requires
        0 <= pos <= nodes.len(),
        nodes.len() + children.len() <= usize::MAX,
    ensures
        forall|i: int|
            0 <= i < spec_plan(children, nodes, pos).len() && split_offset(
                #[trigger] spec_plan(children, nodes, pos)[i],
            ) is Some ==> {
                &&& children[i] == VChildKind::Text {
                    utf16_len: split_offset(spec_plan(children, nodes, pos)[i])->0,
                }
                &&& 0 < split_offset(spec_plan(children, nodes, pos)[i])->0
                &&& i + 1 < children.len()
                &&& children[i + 1] is Text
            },
    decreases children.len(),
{
    if children.len() > 0 {
        let next_is_text = children.len() > 1 && children[1] is Text;
        let r = spec_step(nodes, pos, children[0], next_is_text);
        law_step_matches_kinds(nodes, pos, children[0], next_is_text);
        if !(r.2 is Abort) {
            let tail = children.drop_first();
            law_plan_splits_between_texts(tail, r.0, r.1);
            let plan = spec_plan(children, nodes, pos);
            let rest = spec_plan(tail, r.0, r.1);
            assert(plan == seq![r.2] + rest);
            assert forall|i: int|
                0 <= i < plan.len() && split_offset(#[trigger] plan[i]) is Some implies {
                &&& children[i] == VChildKind::Text { utf16_len: split_offset(plan[i])->0 }
                &&& 0 < split_offset(plan[i])->0
                &&& i + 1 < children.len()
                &&& children[i + 1] is Text
            } by {
                if i > 0 {
                    assert(plan[i] == rest[i - 1]);
                    assert(children[i] == tail[i - 1]);
                    assert(children[i + 1] == tail[i]);
                }
            }
        }
    }
}

proof fn lemma_plan_adopts_at_or_after(children: Seq<VChildKind>, nodes: Seq<DomNodeKind>, pos: int)
    requires
        0 <= pos <= nodes.len(),
        nodes.len() + children.len() <= usize::MAX,
    ensures
        forall|i: int|
            0 <= i < spec_plan(children, nodes, pos).len() && adopted_index(
                #[trigger] spec_plan(children, nodes, pos)[i],
            ) is Some ==> adopted_index(spec_plan(children, nodes, pos)[i])->0 >= pos,
    decreases children.len(),
{
    if children.len() > 0 {
        let next_is_text = children.len() > 1 && children[1] is Text;
        let r = spec_step(nodes, pos, children[0], next_is_text);
        law_step_matches_kinds(nodes, pos, children[0], next_is_text);
        if !(r.2 is Abort) {
            let tail = children.drop_first();
            lemma_plan_adopts_at_or_after(tail, r.0, r.1);
            let plan = spec_plan(children, nodes, pos);
            let rest = spec_plan(tail, r.0, r.1);
            assert(plan == seq![r.2] + rest);
            assert forall|i: int|
                0 <= i < plan.len() && adopted_index(#[trigger] plan[i]) is Some implies adopted_index(
                plan[i],
            )->0 >= pos by {
                if i > 0 {
                    assert(plan[i] == rest[i - 1]);
                }
            }
        }
    }
}

/// No real node is matched with two virtual children: the real nodes that the steps match
/// come at strictly increasing positions, each at or after the cursor that hydration
/// started from (a split inserts its right part after the node it matched).
pub proof fn law_plan_matches_each_real_node_once(
    children: Seq<VChildKind>,
    nodes: Seq<DomNodeKind>,
    pos: int,
)
    requires
        0 <= pos <= nodes.len(),
        nodes.len() + children.len() <= usize::MAX,
    ensures
        forall|i: int|
            0 <= i < spec_plan(children, nodes, pos).len() && adopted_index(
                #[trigger] spec_plan(children, nodes, pos)[i],
            ) is Some ==> adopted_index(spec_plan(children, nodes, pos)[i])->0 >= pos,
        forall|i: int, j: int|
            0 <= i < j < spec_plan(children, nodes, pos).len() && adopted_index(
                #[trigger] spec_plan(children, nodes, pos)[i],
            ) is Some && adopted_index(#[trigger] spec_plan(children, nodes, pos)[j]) is Some
                ==> adopted_index(spec_plan(children, nodes, pos)[i])->0 < adopted_index(
                spec_plan(children, nodes, pos)[j],
            )->0,
    decreases children.len(),
{
    lemma_plan_adopts_at_or_after(children, nodes, pos);
    if children.len() > 0 {
        let next_is_text = children.len() > 1 && children[1] is Text;
        let r = spec_step(nodes, pos, children[0], next_is_text);
        law_step_matches_kinds(nodes, pos, children[0], next_is_text);
        if !(r.2 is Abort) {
            let tail = children.drop_first();
            law_plan_matches_each_real_node_once(tail, r.0, r.1);
            let plan = spec_plan(children, nodes, pos);
            let rest = spec_plan(tail, r.0, r.1);
            assert(plan == seq![r.2] + rest);
            assert forall|i: int, j: int|
                0 <= i < j < plan.len() && adopted_index(#[trigger] plan[i]) is Some
                    && adopted_index(#[trigger] plan[j]) is Some implies adopted_index(plan[i])->0
                < adopted_index(plan[j])->0 by {
                assert(plan[j] == rest[j - 1]);
                if i > 0 {
                    assert(plan[i] == rest[i - 1]);
                }
            }
        }
    }
}

} // verus!
