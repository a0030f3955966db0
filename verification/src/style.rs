//! The style resolver: matches stylesheet rules against DOM elements in
//! document order and merges their declarations into one property map
//! per node, a later assignment to the same property overwriting an
//! earlier one. No specificity weighting and no inheritance: document
//! order alone decides.

use vstd::prelude::*;
use vstd::string::StringExecFns;

use crate::cssom::{AttrCond, AttrOp, CSSValue, CSSValueView, RuleView, Selector, SelectorView,
    Stylesheet};
use crate::dom::{AttrMap, AttrsView, Node, NodeView, attrs_get};
use crate::text::str_to_chars;

verus! {

broadcast use vstd::std_specs::vec::axiom_vec_decreases_to_view, vstd::seq::axiom_seq_index_decreases;

/// What a styled node keeps of its originating DOM node: the element's
/// tag and attributes, or the text run.
#[derive(Debug, PartialEq)]
pub enum NodeData {
    Element { tag: String, attributes: AttrMap },
    Text(String),
}

/// The mathematical shape of a node snapshot.
pub enum NodeDataView {
    Element { tag: Seq<char>, attributes: AttrsView },
    Text(Seq<char>),
}

impl View for NodeData {
    type V = NodeDataView;

    open spec fn view(&self) -> NodeDataView {
        match self {
            NodeData::Element { tag, attributes } => NodeDataView::Element {
                tag: tag@,
                attributes: attributes@,
            },
            NodeData::Text(s) => NodeDataView::Text(s@),
        }
    }
}

impl NodeData {
    /// A copy equal to `self`.
    pub fn duplicate(&self) -> (r: NodeData)
        ensures
            r@ == self@,
    {
        match self {
            NodeData::Element { tag, attributes } => NodeData::Element {
                tag: tag.clone(),
                attributes: attributes.duplicate(),
            },
            NodeData::Text(s) => NodeData::Text(s.clone()),
        }
    }
}

/// The property map a sequence of name/value assignments builds up,
/// later assignments overwriting earlier ones.
pub open spec fn map_of(entries: Seq<(Seq<char>, CSSValueView)>) -> Map<Seq<char>, CSSValueView>
    decreases entries.len(),
{
    if entries.len() == 0 {
        Map::empty()
    } else {
        map_of(entries.drop_last()).insert(entries.last().0, entries.last().1)
    }
}

/// Lookup as an option: the value under `k`, if the map holds one.
pub open spec fn get_opt(m: Map<Seq<char>, CSSValueView>, k: Seq<char>) -> Option<CSSValueView> {
    if m.contains_key(k) {
        Some(m[k])
    } else {
        None
    }
}

/// A node's resolved properties: property name to value, last write
/// winning.
#[derive(Debug, PartialEq)]
pub struct PropMap {
    pub entries: Vec<(String, CSSValue)>,
}

impl View for PropMap {
    type V = Map<Seq<char>, CSSValueView>;

    open spec fn view(&self) -> Map<Seq<char>, CSSValueView> {
        map_of(Seq::new(self.entries@.len(), |i: int| (self.entries@[i].0@, self.entries@[i].1@)))
    }
}

impl PropMap {
    pub fn new() -> (r: PropMap)
        ensures
            r@ == Map::<Seq<char>, CSSValueView>::empty(),
    {
        let r = PropMap { entries: Vec::new() };
        proof {
            assert(Seq::new(r.entries@.len(), |i: int| (r.entries@[i].0@, r.entries@[i].1@))
                =~= Seq::<(Seq<char>, CSSValueView)>::empty());
        }
        r
    }

    /// Assign `name = value`, overwriting any earlier assignment.
    pub fn set(&mut self, name: String, value: CSSValue)
        ensures
            final(self)@ == old(self)@.insert(name@, value@),
    {
        let ghost oldv = Seq::new(
            self.entries@.len(),
            |i: int| (self.entries@[i].0@, self.entries@[i].1@),
        );
        let ghost nv = (name@, value@);
        self.entries.push((name, value));
        proof {
            let newv = Seq::new(
                self.entries@.len(),
                |i: int| (self.entries@[i].0@, self.entries@[i].1@),
            );
            assert(newv.drop_last() =~= oldv);
            assert(newv.last() == nv);
        }
    }

    /// The value assigned to `name`, if any: the last assignment wins.
    pub fn get(&self, name: &String) -> (r: Option<&CSSValue>)
        ensures
            match r {
                Some(v) => get_opt(self@, name@) == Some(v@),
                None => get_opt(self@, name@) is None,
            },
    {
        let ghost whole = Seq::new(
            self.entries@.len(),
            |i: int| (self.entries@[i].0@, self.entries@[i].1@),
        );
        let mut i: usize = self.entries.len();
        proof {
            assert(whole.subrange(0, whole.len() as int) =~= whole);
        }
        while i > 0
            invariant
                i <= self.entries@.len(),
                whole == Seq::new(
                    self.entries@.len(),
                    |k: int| (self.entries@[k].0@, self.entries@[k].1@),
                ),
                get_opt(map_of(whole), name@) == get_opt(map_of(whole.subrange(0, i as int)), name@),
            decreases i,
        {
            proof {
                assert(whole.subrange(0, i as int).drop_last() =~= whole.subrange(0, i - 1));
                assert(whole.subrange(0, i as int).last() == whole[i - 1]);
            }
            if self.entries[i - 1].0 == *name {
                return Some(&self.entries[i - 1].1);
            }
            i = i - 1;
        }
        proof {
            assert(whole.subrange(0, 0) =~= Seq::<(Seq<char>, CSSValueView)>::empty());
        }
        None
    }

    /// A copy with the same assignments.
    pub fn duplicate(&self) -> (r: PropMap)
        ensures
            r@ == self@,
    {
        let n = self.entries.len();
        let mut entries: Vec<(String, CSSValue)> = Vec::new();
        let mut i: usize = 0;
        while i < n
            invariant
                i <= n,
                n == self.entries@.len(),
                entries@.len() == i as int,
                forall|k: int| 0 <= k < i ==> entries@[k].0@ == self.entries@[k].0@
                    && entries@[k].1@ == self.entries@[k].1@,
            decreases n - i,
        {
            let name = self.entries[i].0.clone();
            let value = self.entries[i].1.duplicate();
            entries.push((name, value));
            i = i + 1;
        }
        let r = PropMap { entries };
        proof {
            assert(Seq::new(r.entries@.len(), |k: int| (r.entries@[k].0@, r.entries@[k].1@))
                =~= Seq::new(
                    self.entries@.len(),
                    |k: int| (self.entries@[k].0@, self.entries@[k].1@),
                ));
        }
        r
    }
}

/// The display classification of a styled node.
#[derive(Debug, Clone, Copy, PartialEq, Eq, Structural)]
pub enum Display {
    Block,
    Inline,
    /// `display: none`: the node and its subtree leave the layout tree.
    NoneDisplay,
}

/// A styled node: the originating node's data, its resolved properties,
/// and styled children mirroring the DOM shape.
#[derive(Debug, PartialEq)]
pub struct StyledNode {
    pub data: NodeData,
    pub properties: PropMap,
    pub children: Vec<StyledNode>,
}

/// The mathematical shape of a styled node.
pub struct StyledView {
    pub data: NodeDataView,
    pub props: Map<Seq<char>, CSSValueView>,
    pub children: Seq<StyledView>,
}

pub open spec fn styled_view(s: StyledNode) -> StyledView
    decreases s,
{
    StyledView {
        data: s.data@,
        props: s.properties@,
        children: Seq::new(
            s.children@.len(),
            |i: int|
                if 0 <= i < s.children@.len() {
                    styled_view(s.children@[i])
                } else {
                    StyledView {
                        data: NodeDataView::Text(Seq::empty()),
                        props: Map::empty(),
                        children: Seq::empty(),
                    }
                },
        ),
    }
}

impl View for StyledNode {
    type V = StyledView;

    open spec fn view(&self) -> StyledView {
        styled_view(*self)
    }
}

/// A styled tree handed to layout as a whole document.
#[derive(Debug, PartialEq)]
pub struct StyledDocument {
    pub document_element: StyledNode,
}

/// `needle` occurs contiguously inside `hay`.
pub open spec fn is_substring(needle: Seq<char>, hay: Seq<char>) -> bool {
    exists|i: int|
        0 <= i && i + needle.len() <= hay.len() && #[trigger] hay.subrange(i, i + needle.len())
            == needle
}

/// One attribute condition holds of an element's attributes.
pub open spec fn cond_holds(attrs: AttrsView, cond: (Seq<char>, AttrOp, Seq<char>)) -> bool {
    match attrs_get(attrs, cond.0) {
        Some(av) => match cond.1 {
            AttrOp::Exact => av == cond.2,
            AttrOp::Contains => is_substring(cond.2, av),
        },
        None => false,
    }
}

/// A selector matches an element: the tag agrees (or the selector names
/// none) and every attribute condition holds.
pub open spec fn selector_matches(tag: Seq<char>, attrs: AttrsView, sel: SelectorView) -> bool {
    &&& match sel.tag {
        Some(t) => t == tag,
        None => true,
    }
    &&& forall|i: int| 0 <= i < sel.conds.len() ==> cond_holds(attrs, sel.conds[i])
}

/// Apply a rule's declarations to a property map, in order.
pub open spec fn apply_decls(
    m: Map<Seq<char>, CSSValueView>,
    ds: Seq<(Seq<char>, CSSValueView)>,
) -> Map<Seq<char>, CSSValueView>
    decreases ds.len(),
{
    if ds.len() == 0 {
        m
    } else {
        apply_decls(m.insert(ds.first().0, ds.first().1), ds.drop_first())
    }
}

/// Fold the rules over a property map in stylesheet order, applying the
/// declarations of each rule that matches the element.
pub open spec fn resolve_rules(
    m: Map<Seq<char>, CSSValueView>,
    tag: Seq<char>,
    attrs: AttrsView,
    rules: Seq<RuleView>,
) -> Map<Seq<char>, CSSValueView>
    decreases rules.len(),
{
    if rules.len() == 0 {
        m
    } else {
        let m2 = if selector_matches(tag, attrs, rules.first().selector) {
            apply_decls(m, rules.first().declarations)
        } else {
            m
        };
        resolve_rules(m2, tag, attrs, rules.drop_first())
    }
}

/// The resolved property map of an element under a stylesheet.
pub open spec fn resolved_props(
    tag: Seq<char>,
    attrs: AttrsView,
    rules: Seq<RuleView>,
) -> Map<Seq<char>, CSSValueView> {
    resolve_rules(Map::empty(), tag, attrs, rules)
}

/// The styled tree of a DOM tree under a stylesheet: same shape, each
/// element carrying its resolved properties, each text node an empty
/// map.
pub open spec fn spec_styled(n: NodeView, rules: Seq<RuleView>) -> StyledView
    decreases n,
{
    match n {
        NodeView::Element { tag, attributes, children } => StyledView {
            data: NodeDataView::Element { tag, attributes },
            props: resolved_props(tag, attributes, rules),
            children: Seq::new(
                children.len(),
                |i: int|
                    if 0 <= i < children.len() {
                        spec_styled(children[i], rules)
                    } else {
                        StyledView {
                            data: NodeDataView::Text(Seq::empty()),
                            props: Map::empty(),
                            children: Seq::empty(),
                        }
                    },
            ),
        },
        NodeView::Text(t) => StyledView {
            data: NodeDataView::Text(t),
            props: Map::empty(),
            children: Seq::empty(),
        },
    }
}

/// The display classification of a styled node: text is always inline;
/// an element follows its resolved `display` keyword — `none`, `inline`,
/// and anything else (or no keyword at all) is block.
pub open spec fn spec_display(sv: StyledView) -> Display {
    match sv.data {
        NodeDataView::Text(_) => Display::Inline,
        NodeDataView::Element { .. } => match get_opt(sv.props, "display"@) {
            Some(CSSValueView::Keyword(k)) => if k == "none"@ {
                Display::NoneDisplay
            } else if k == "inline"@ {
                Display::Inline
            } else {
                Display::Block
            },
            _ => Display::Block,
        },
    }
}

impl StyledNode {
    /// This node's display classification.
    pub fn display(&self) -> (d: Display)
        ensures
            d == spec_display(self@),
    {
        match &self.data {
            NodeData::Text(_) => Display::Inline,
            NodeData::Element { .. } => {
                let key = String::from_str("display");
                match self.properties.get(&key) {
                    Some(v) => match v {
                        CSSValue::Keyword(k) => {
                            if *k == String::from_str("none") {
                                Display::NoneDisplay
                            } else if *k == String::from_str("inline") {
                                Display::Inline
                            } else {
                                Display::Block
                            }
                        },
                        CSSValue::Length(_) => Display::Block,
                    },
                    None => Display::Block,
                }
            },
        }
    }
}

/// Whether `needle` occurs contiguously inside `hay`.
pub fn contains_sub(hay: &String, needle: &String) -> (b: bool)
    ensures
        b == is_substring(needle@, hay@),
{
    let h = str_to_chars(hay.as_str());
    let n = str_to_chars(needle.as_str());
    let hl = h.len();
    let nl = n.len();
    if nl > hl {
        return false;
    }
    let mut i: usize = 0;
    while i <= hl - nl
        invariant
            nl <= hl,
            hl == h@.len(),
            nl == n@.len(),
            h@ == hay@,
            n@ == needle@,
            i <= hl - nl + 1,
            forall|ii: int| 0 <= ii < i
                ==> #[trigger] hay@.subrange(ii, ii + needle@.len()) != needle@,
        decreases hl - nl - i + 1,
    {
        let mut j: usize = 0;
        let mut ok = true;
        let ghost mut bad: int = 0;
        while j < nl && ok
            invariant
                j <= nl,
                nl <= hl,
                i + nl <= hl,
                hl == h@.len(),
                nl == n@.len(),
                h@ == hay@,
                n@ == needle@,
                ok ==> forall|jj: int| 0 <= jj < j ==> h@[i + jj] == n@[jj],
                !ok ==> 0 <= bad < nl && h@[i + bad] != n@[bad],
            decreases nl - j, (if ok { 1int } else { 0int }),
        {
            if h[i + j] != n[j] {
                ok = false;
                proof {
                    bad = j as int;
                }
            } else {
                j = j + 1;
            }
        }
        if ok {
            proof {
                assert(hay@.subrange(i as int, i + nl) =~= needle@);
            }
            return true;
        }
        proof {
            assert(hay@.subrange(i as int, i + needle@.len())[bad] == hay@[i + bad]);
        }
        i = i + 1;
    }
    proof {
        if is_substring(needle@, hay@) {
            let w = choose|w: int|
                0 <= w && w + needle@.len() <= hay@.len() && #[trigger] hay@.subrange(
                    w,
                    w + needle@.len(),
                ) == needle@;
            assert(hay@.subrange(w, w + needle@.len()) != needle@);
        }
    }
    false
}

/// Whether one attribute condition holds of an element's attributes.
pub fn cond_matches(attrs: &AttrMap, cond: &AttrCond) -> (b: bool)
    ensures
        b == cond_holds(attrs@, cond@),
{
    match attrs.get(&cond.name) {
        Some(av) => match cond.op {
            AttrOp::Exact => *av == cond.value,
            AttrOp::Contains => contains_sub(av, &cond.value),
        },
        None => false,
    }
}

/// Whether a selector matches an element with this tag and these
/// attributes.
pub fn matches_selector(tag: &String, attrs: &AttrMap, sel: &Selector) -> (b: bool)
    ensures
        b == selector_matches(tag@, attrs@, sel@),
{
    match &sel.tag {
        Some(t) => {
            if !(*t == *tag) {
                return false;
            }
        },
        None => {},
    }
    let n = sel.conds.len();
    let mut i: usize = 0;
    while i < n
        invariant
            i <= n,
            n == sel.conds@.len(),
            forall|k: int| 0 <= k < i ==> cond_holds(attrs@, #[trigger] sel@.conds[k]),
        decreases n - i,
    {
        let hit = cond_matches(attrs, &sel.conds[i]);
        proof {
            assert(sel@.conds[i as int] == sel.conds@[i as int]@);
        }
        if !hit {
            return false;
        }
        i = i + 1;
    }
    true
}

/// Resolve the whole tree: same shape as the DOM, every element carrying
/// the property map merged from all rules that match it, in stylesheet
/// order, later assignments overwriting earlier ones; text nodes carry
/// an empty map.
#[verifier::loop_isolation(false)]
pub fn resolve_styles(node: &Node, stylesheet: &Stylesheet) -> (r: StyledNode)
    ensures
        r@ == spec_styled(node@, stylesheet@),
    decreases *node,
{
    match node {
        Node::Text(s) => {
            let r = StyledNode {
                data: NodeData::Text(s.clone()),
                properties: PropMap::new(),
                children: Vec::new(),
            };
            proof {
                assert(r@.children =~= Seq::<StyledView>::empty());
            }
            r
        },
        Node::Element { tag, attributes, children } => {
            let mut props = PropMap::new();
            let nrules = stylesheet.rules.len();
            proof {
                assert(stylesheet@.skip(0) =~= stylesheet@);
            }
            let mut ri: usize = 0;
            while ri < nrules
                invariant
                    ri <= nrules,
                    nrules == stylesheet.rules@.len(),
                    resolved_props(tag@, attributes@, stylesheet@) == resolve_rules(
                        props@,
                        tag@,
                        attributes@,
                        stylesheet@.skip(ri as int),
                    ),
                decreases nrules - ri,
            {
                let ru = &stylesheet.rules[ri];
                proof {
                    assert(stylesheet@[ri as int] == ru@);
                    assert(stylesheet@.skip(ri as int).first() == stylesheet@[ri as int]);
                    assert(stylesheet@.skip(ri as int).drop_first() =~= stylesheet@.skip(
                        ri as int + 1,
                    ));
                }
                if matches_selector(tag, attributes, &ru.selector) {
                    let ghost goal = apply_decls(props@, ru@.declarations);
                    let nds = ru.declarations.len();
                    proof {
                        assert(ru@.declarations.skip(0) =~= ru@.declarations);
                    }
                    let mut di: usize = 0;
                    while di < nds
                        invariant
                            di <= nds,
                            nds == ru.declarations@.len(),
                            goal == apply_decls(props@, ru@.declarations.skip(di as int)),
                        decreases nds - di,
                    {
                        let d = &ru.declarations[di];
                        proof {
                            assert(ru@.declarations[di as int] == ru.declarations@[di as int]@);
                            assert(ru@.declarations.skip(di as int).first() == ru@.declarations[
                                di as int
                            ]);
                            assert(ru@.declarations.skip(di as int).drop_first()
                                =~= ru@.declarations.skip(di as int + 1));
                        }
                        props.set(d.name.clone(), d.value.duplicate());
                        di = di + 1;
                    }
                    proof {
                        assert(ru@.declarations.skip(nds as int)
                            =~= Seq::<(Seq<char>, CSSValueView)>::empty());
                    }
                }
                ri = ri + 1;
            }
            proof {
                assert(stylesheet@.skip(nrules as int) =~= Seq::<RuleView>::empty());
            }
            let mut out: Vec<StyledNode> = Vec::new();
            let nch = children.len();
            let mut ci: usize = 0;
            while ci < nch
                invariant
                    ci <= nch,
                    nch == children@.len(),
                    out@.len() == ci as int,
                    forall|k: int| 0 <= k < ci
                        ==> (#[trigger] out@[k])@ == spec_styled(children@[k]@, stylesheet@),
                decreases nch - ci,
            {
                proof {
                    assert(decreases_to!(*node => (*node)->Element_children));
                    assert(decreases_to!((*node)->Element_children
                        => (*node)->Element_children@));
                    assert(decreases_to!((*node)->Element_children@
                        => (*node)->Element_children@[ci as int]));
                    assert((*node)->Element_children@[ci as int] == children@[ci as int]);
                }
                let styled_child = resolve_styles(&children[ci], stylesheet);
                out.push(styled_child);
                ci = ci + 1;
            }
            let r = StyledNode {
                data: NodeData::Element { tag: tag.clone(), attributes: attributes.duplicate() },
                properties: props,
                children: out,
            };
            proof {
                assert(r@.children =~= spec_styled(node@, stylesheet@).children);
            }
            r
        },
    }
}

/// Value of the last declaration of property `p` in a declaration list,
/// if the list declares it at all.
pub open spec fn last_decl_value(ds: Seq<(Seq<char>, CSSValueView)>, p: Seq<char>) -> Option<
    CSSValueView,
>
    decreases ds.len(),
{
    if ds.len() == 0 {
        None
    } else {
        let rest = last_decl_value(ds.drop_first(), p);
        if rest is Some {
            rest
        } else if ds.first().0 == p {
            Some(ds.first().1)
        } else {
            None
        }
    }
}

/// Applying a declaration list reads back as: the list's last declaration
/// of the property if there is one, else whatever the map held before.
pub proof fn lemma_apply_decls_get(
    m: Map<Seq<char>, CSSValueView>,
    ds: Seq<(Seq<char>, CSSValueView)>,
    p: Seq<char>,
)
    ensures
        get_opt(apply_decls(m, ds), p) == (match last_decl_value(ds, p) {
            Some(v) => Some(v),
            None => get_opt(m, p),
        }),
    decreases ds.len(),
{
    if ds.len() > 0 {
        lemma_apply_decls_get(m.insert(ds.first().0, ds.first().1), ds.drop_first(), p);
    }
}

/// The cascade is last-write-wins: for two rules that both match an
/// element, and any property the second rule declares, the resolved
/// value is the second rule's (last) declared value, whatever the first
/// rule said.
pub proof fn lemma_cascade_last_wins(
    tag: Seq<char>,
    attrs: AttrsView,
    r1: RuleView,
    r2: RuleView,
    p: Seq<char>,
)
    requires
        selector_matches(tag, attrs, r1.selector),
        selector_matches(tag, attrs, r2.selector),
        last_decl_value(r2.declarations, p) is Some,
    ensures
        get_opt(resolved_props(tag, attrs, seq![r1, r2]), p) == last_decl_value(
            r2.declarations,
            p,
        ),
{
    let rules = seq![r1, r2];
    assert(rules.first() == r1);
    assert(rules.drop_first() =~= seq![r2]);
    let m1 = apply_decls(Map::empty(), r1.declarations);
    assert(resolved_props(tag, attrs, rules) == resolve_rules(m1, tag, attrs, rules.drop_first()));
    assert(seq![r2].first() == r2);
    assert(seq![r2].drop_first() =~= Seq::<RuleView>::empty());
    let m2 = apply_decls(m1, r2.declarations);
    assert(resolve_rules(m2, tag, attrs, Seq::<RuleView>::empty()) == m2);
    lemma_apply_decls_get(m1, r2.declarations, p);
}

} // verus!


