//! The layout box builder: walks the styled tree, gives every node a box
//! type from its display classification, and groups each maximal run of
//! consecutive inline children under a block parent into one anonymous
//! box, in document order. A node classified `display: none` is dropped
//! with its whole subtree: no box is emitted and the walk does not
//! descend into it.

use vstd::prelude::*;

use crate::cssom::CSSValueView;
use crate::style::{Display, NodeData, NodeDataView, PropMap, StyledDocument, StyledNode,
    StyledView, spec_display};

verus! {

broadcast use vstd::std_specs::vec::axiom_vec_decreases_to_view, vstd::seq::axiom_seq_index_decreases;

/// The type of a layout box.
#[derive(Debug, Clone, Copy, PartialEq, Eq, Structural)]
pub enum BoxType {
    BlockBox,
    InlineBox,
    /// Holds a contiguous run of inline boxes under a block parent; owns
    /// no originating node.
    AnonymousBox,
    /// A `display: none` subtree's terminal box: never holds children.
    NoneBox,
}

/// What a non-anonymous box keeps of its styled node.
#[derive(Debug, PartialEq)]
pub struct BoxProps {
    pub node: NodeData,
    pub properties: PropMap,
}

/// The mathematical shape of a box's properties.
pub struct BoxPropsView {
    pub node: NodeDataView,
    pub props: Map<Seq<char>, CSSValueView>,
}

impl View for BoxProps {
    type V = BoxPropsView;

    open spec fn view(&self) -> BoxPropsView {
        BoxPropsView { node: self.node@, props: self.properties@ }
    }
}

/// One layout box: its type, its originating node's snapshot (none for
/// an anonymous box), and its child boxes in document order.
#[derive(Debug, PartialEq)]
pub struct LayoutBox {
    pub box_type: BoxType,
    pub box_props: Option<BoxProps>,
    pub children: Vec<LayoutBox>,
}

/// The mathematical shape of a layout box.
pub struct LayoutBoxView {
    pub box_type: BoxType,
    pub box_props: Option<BoxPropsView>,
    pub children: Seq<LayoutBoxView>,
}

pub open spec fn layout_box_view(b: LayoutBox) -> LayoutBoxView
    decreases b,
{
    LayoutBoxView {
        box_type: b.box_type,
        box_props: match b.box_props {
            Some(p) => Some(p@),
            None => None,
        },
        children: Seq::new(
            b.children@.len(),
            |i: int|
                if 0 <= i < b.children@.len() {
                    layout_box_view(b.children@[i])
                } else {
                    LayoutBoxView {
                        box_type: BoxType::NoneBox,
                        box_props: None,
                        children: Seq::empty(),
                    }
                },
        ),
    }
}

impl View for LayoutBox {
    type V = LayoutBoxView;

    open spec fn view(&self) -> LayoutBoxView {
        layout_box_view(*self)
    }
}

/// Views of a sequence of layout boxes.
pub open spec fn box_views(bs: Seq<LayoutBox>) -> Seq<LayoutBoxView> {
    Seq::new(bs.len(), |i: int| bs[i]@)
}

/// The layout tree of a whole document.
#[derive(Debug, PartialEq)]
pub struct LayoutDocument {
    pub top_box: LayoutBox,
}

/// The box type a display classification produces.
pub open spec fn spec_box_type(d: Display) -> BoxType {
    match d {
        Display::Block => BoxType::BlockBox,
        Display::Inline => BoxType::InlineBox,
        Display::NoneDisplay => BoxType::NoneBox,
    }
}

/// Route one child's box into a parent's accumulated children: a `none`
/// child contributes nothing; a block child is appended directly; an
/// inline child under a block parent goes into the current anonymous
/// box, opening a fresh one unless the last child already is one — under
/// any other parent it is appended directly.
pub open spec fn spec_append_box(
    parent: BoxType,
    acc: Seq<LayoutBoxView>,
    d: Display,
    b: LayoutBoxView,
) -> Seq<LayoutBoxView> {
    match d {
        Display::NoneDisplay => acc,
        Display::Block => acc.push(b),
        Display::Inline => if parent == BoxType::BlockBox {
            if acc.len() > 0 && acc.last().box_type == BoxType::AnonymousBox {
                acc.update(
                    acc.len() - 1,
                    LayoutBoxView {
                        box_type: BoxType::AnonymousBox,
                        box_props: acc.last().box_props,
                        children: acc.last().children.push(b),
                    },
                )
            } else {
                acc.push(
                    LayoutBoxView {
                        box_type: BoxType::AnonymousBox,
                        box_props: None,
                        children: seq![b],
                    },
                )
            }
        } else {
            acc.push(b)
        },
    }
}

/// The child boxes a parent of type `parent` gets from the first `n`
/// styled children, in document order.
pub open spec fn spec_layout_children(parent: BoxType, cs: Seq<StyledView>, n: int) -> Seq<
    LayoutBoxView,
>
    decreases cs, n,
{
    if n <= 0 || n > cs.len() {
        Seq::empty()
    } else {
        spec_append_box(
            parent,
            spec_layout_children(parent, cs, n - 1),
            spec_display(cs[n - 1]),
            spec_layout_box(cs[n - 1]),
        )
    }
}

/// The layout box of one styled node: its box type follows its display
/// classification; a `none` node keeps no children at all; any other
/// node's children are grouped by `spec_layout_children`.
pub open spec fn spec_layout_box(sv: StyledView) -> LayoutBoxView
    decreases sv, 0int,
{
    let d = spec_display(sv);
    let props = BoxPropsView { node: sv.data, props: sv.props };
    if d == Display::NoneDisplay {
        LayoutBoxView { box_type: BoxType::NoneBox, box_props: Some(props), children: Seq::empty() }
    } else {
        let bt = spec_box_type(d);
        LayoutBoxView {
            box_type: bt,
            box_props: Some(props),
            children: spec_layout_children(bt, sv.children, sv.children.len() as int),
        }
    }
}

/// Build the layout box of one styled node.
#[verifier::loop_isolation(false)]
pub fn create_layout_box(snode: &StyledNode) -> (r: LayoutBox)
    ensures
        r@ == spec_layout_box(snode@),
    decreases *snode,
{
    let d = snode.display();
    let props = BoxProps { node: snode.data.duplicate(), properties: snode.properties.duplicate() };
    let bt = match d {
        Display::Block => BoxType::BlockBox,
        Display::Inline => BoxType::InlineBox,
        Display::NoneDisplay => BoxType::NoneBox,
    };
    if matches!(d, Display::NoneDisplay) {
        let r = LayoutBox { box_type: BoxType::NoneBox, box_props: Some(props), children: Vec::new() };
        proof {
            assert(r@.children =~= Seq::<LayoutBoxView>::empty());
        }
        return r;
    }
    let ghost cs = snode@.children;
    let mut out: Vec<LayoutBox> = Vec::new();
    let n = snode.children.len();
    let mut i: usize = 0;
    proof {
        assert(box_views(out@) =~= Seq::<LayoutBoxView>::empty());
    }
    while i < n
        invariant
            i <= n,
            box_views(out@) == spec_layout_children(bt, cs, i as int),
        decreases n - i,
    {
        proof {
            assert(decreases_to!(*snode => snode.children));
            assert(decreases_to!(snode.children => snode.children@));
            assert(decreases_to!(snode.children@ => snode.children@[i as int]));
            assert(cs[i as int] == snode.children@[i as int]@);
        }
        let child = &snode.children[i];
        let cd = child.display();
        let ghost acc = box_views(out@);
        match cd {
            Display::NoneDisplay => {},
            Display::Block => {
                let b = create_layout_box(child);
                out.push(b);
                proof {
                    assert(box_views(out@) =~= acc.push(spec_layout_box(cs[i as int])));
                }
            },
            Display::Inline => {
                let b = create_layout_box(child);
                if matches!(bt, BoxType::BlockBox) {
                    let ln = out.len();
                    if ln > 0 && matches!(out[ln - 1].box_type, BoxType::AnonymousBox) {
                        proof {
                            assert(out@[ln - 1]@ == acc.last());
                        }
                        match out.pop() {
                            Some(mut last) => {
                                last.children.push(b);
                                out.push(last);
                                proof {
                                    assert(out@.last()@.children
                                        =~= acc.last().children.push(spec_layout_box(
                                        cs[i as int],
                                    )));
                                    assert(box_views(out@) =~= acc.update(
                                        acc.len() - 1,
                                        LayoutBoxView {
                                            box_type: BoxType::AnonymousBox,
                                            box_props: acc.last().box_props,
                                            children: acc.last().children.push(spec_layout_box(
                                                cs[i as int],
                                            )),
                                        },
                                    ));
                                }
                            },
                            None => {
                                proof {
                                    assert(false);
                                }
                            },
                        }
                    } else {
                        let mut anon_children: Vec<LayoutBox> = Vec::new();
                        anon_children.push(b);
                        let anon = LayoutBox {
                            box_type: BoxType::AnonymousBox,
                            box_props: None,
                            children: anon_children,
                        };
                        proof {
                            assert(anon@.children =~= seq![spec_layout_box(cs[i as int])]);
                        }
                        out.push(anon);
                        proof {
                            assert(box_views(out@) =~= acc.push(anon@));
                        }
                    }
                } else {
                    out.push(b);
                    proof {
                        assert(box_views(out@) =~= acc.push(spec_layout_box(cs[i as int])));
                    }
                }
            },
        }
        i = i + 1;
    }
    let r = LayoutBox { box_type: bt, box_props: Some(props), children: out };
    proof {
        assert(r@.children =~= box_views(r.children@));
    }
    r
}

/// Build the layout tree of a whole styled document.
pub fn create_layout_document(document: StyledDocument) -> (r: LayoutDocument)
    ensures
        r.top_box@ == spec_layout_box(document.document_element@),
{
    let layout_box = create_layout_box(&document.document_element);

    LayoutDocument { top_box: layout_box }
}

/// Build the layout tree of one styled tree.
pub fn build_layout(styled_tree: &StyledNode) -> (r: LayoutBox)
    ensures
        r@ == spec_layout_box(styled_tree@),
{
    create_layout_box(styled_tree)
}

/// No two anonymous boxes stand side by side: each holds a maximal run
/// of consecutive inline children.
pub open spec fn anonymous_runs_maximal(bs: Seq<LayoutBoxView>) -> bool {
    forall|i: int|
        0 <= i && i + 1 < bs.len() ==> !((#[trigger] bs[i]).box_type == BoxType::AnonymousBox
            && bs[i + 1].box_type == BoxType::AnonymousBox)
}

/// Routing one more child keeps the runs maximal: a fresh anonymous box
/// opens only when the last box is not anonymous.
proof fn lemma_append_box_keeps_runs(
    parent: BoxType,
    acc: Seq<LayoutBoxView>,
    d: Display,
    b: LayoutBoxView,
)
    requires
        anonymous_runs_maximal(acc),
        b.box_type == spec_box_type(d),
    ensures
        anonymous_runs_maximal(spec_append_box(parent, acc, d, b)),
{
    let out = spec_append_box(parent, acc, d, b);
    assert forall|i: int|
        0 <= i && i + 1 < out.len() implies !((#[trigger] out[i]).box_type
            == BoxType::AnonymousBox && out[i + 1].box_type == BoxType::AnonymousBox) by {
        if i + 1 < acc.len() {
            assert(!(acc[i].box_type == BoxType::AnonymousBox && acc[i + 1].box_type
                == BoxType::AnonymousBox));
        }
    }
}

/// The block-level alternation invariant: the children any parent box
/// gets are grouped into maximal runs — an anonymous box is never the
/// sibling of another anonymous box.
pub proof fn lemma_layout_children_runs_maximal(parent: BoxType, cs: Seq<StyledView>, n: int)
    ensures
        anonymous_runs_maximal(spec_layout_children(parent, cs, n)),
    decreases n,
{
    if n <= 0 || n > cs.len() {
    } else {
        lemma_layout_children_runs_maximal(parent, cs, n - 1);
        let c = cs[n - 1];
        assert(spec_layout_box(c).box_type == spec_box_type(spec_display(c)));
        lemma_append_box_keeps_runs(
            parent,
            spec_layout_children(parent, cs, n - 1),
            spec_display(c),
            spec_layout_box(c),
        );
    }
}

/// The grouping depends only on the children actually considered.
proof fn lemma_layout_children_prefix(
    parent: BoxType,
    cs1: Seq<StyledView>,
    cs2: Seq<StyledView>,
    n: int,
)
    requires
        n <= cs1.len(),
        n <= cs2.len(),
        forall|k: int| 0 <= k < n ==> cs1[k] == cs2[k],
    ensures
        spec_layout_children(parent, cs1, n) == spec_layout_children(parent, cs2, n),
    decreases n,
{
    if n > 0 {
        lemma_layout_children_prefix(parent, cs1, cs2, n - 1);
    }
}

/// A child classified `display: none` never appears in the layout tree:
/// dropping it from the child list leaves the parent's boxes unchanged,
/// wherever it stands among its siblings. Its descendants never appear
/// either: by definition the builder emits no children for a `none`
/// node, so the whole subtree is pruned regardless of its depth or
/// content.
pub proof fn lemma_none_child_dropped(
    parent: BoxType,
    xs: Seq<StyledView>,
    c: StyledView,
    ys: Seq<StyledView>,
)
    requires
        spec_display(c) == Display::NoneDisplay,
    ensures
        spec_layout_children(parent, xs + seq![c] + ys, (xs + seq![c] + ys).len() as int)
            == spec_layout_children(parent, xs + ys, (xs + ys).len() as int),
    decreases ys.len(),
{
    let cs1 = xs + seq![c] + ys;
    let cs2 = xs + ys;
    if ys.len() == 0 {
        assert(cs2 =~= xs);
        assert(cs1.len() == xs.len() + 1);
        assert(cs1[cs1.len() - 1] == c);
        assert(forall|k: int| 0 <= k < xs.len() ==> cs1[k] == xs[k]);
        lemma_layout_children_prefix(parent, cs1, xs, xs.len() as int);
    } else {
        let ys2 = ys.drop_last();
        lemma_none_child_dropped(parent, xs, c, ys2);
        let cs1p = xs + seq![c] + ys2;
        let cs2p = xs + ys2;
        assert(cs1[cs1.len() - 1] == ys.last());
        assert(cs2[cs2.len() - 1] == ys.last());
        assert(forall|k: int| 0 <= k < cs1p.len() ==> cs1[k] == cs1p[k]);
        assert(forall|k: int| 0 <= k < cs2p.len() ==> cs2[k] == cs2p[k]);
        lemma_layout_children_prefix(parent, cs1, cs1p, cs1p.len() as int);
        lemma_layout_children_prefix(parent, cs2, cs2p, cs2p.len() as int);
        assert(spec_layout_children(parent, cs1, cs1.len() as int) == spec_append_box(
            parent,
            spec_layout_children(parent, cs1, cs1.len() - 1),
            spec_display(ys.last()),
            spec_layout_box(ys.last()),
        ));
        assert(spec_layout_children(parent, cs2, cs2.len() as int) == spec_append_box(
            parent,
            spec_layout_children(parent, cs2, cs2.len() - 1),
            spec_display(ys.last()),
            spec_layout_box(ys.last()),
        ));
    }
}

} // verus!
