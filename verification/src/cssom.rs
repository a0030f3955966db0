//! The CSSOM model: values, declarations, selectors, rules and the
//! stylesheet, with their mathematical views.

use vstd::prelude::*;

verus! {

/// Unit of a length value.
#[derive(Debug, Clone, Copy, PartialEq, Eq, Structural)]
pub enum Unit {
    Em,
    Px,
    Percent,
}

/// A CSS value: a keyword, or a numeric magnitude with a unit.
#[derive(Debug, PartialEq)]
pub enum CSSValue {
    Keyword(String),
    Length((usize, Unit)),
}

/// The mathematical shape of a CSS value.
pub enum CSSValueView {
    Keyword(Seq<char>),
    Length(nat, Unit),
}

impl View for CSSValue {
    type V = CSSValueView;

    open spec fn view(&self) -> CSSValueView {
        match self {
            CSSValue::Keyword(s) => CSSValueView::Keyword(s@),
            CSSValue::Length(t) => CSSValueView::Length(t.0 as nat, t.1),
        }
    }
}

impl CSSValue {
    /// A copy equal to `self`.
    pub fn duplicate(&self) -> (r: CSSValue)
        ensures
            r@ == self@,
    {
        match self {
            CSSValue::Keyword(s) => CSSValue::Keyword(s.clone()),
            CSSValue::Length(t) => CSSValue::Length((t.0, t.1)),
        }
    }
}

/// One declaration: a property name and its value.
#[derive(Debug, PartialEq)]
pub struct Declaration {
    pub name: String,
    pub value: CSSValue,
}

impl View for Declaration {
    type V = (Seq<char>, CSSValueView);

    open spec fn view(&self) -> (Seq<char>, CSSValueView) {
        (self.name@, self.value@)
    }
}

/// How an attribute condition compares the attribute's value.
#[derive(Debug, Clone, Copy, PartialEq, Eq, Structural)]
pub enum AttrOp {
    /// The attribute's value equals the condition's value.
    Exact,
    /// The condition's value occurs inside the attribute's value.
    Contains,
}

/// One attribute condition of a selector.
#[derive(Debug, PartialEq)]
pub struct AttrCond {
    pub name: String,
    pub op: AttrOp,
    pub value: String,
}

impl View for AttrCond {
    type V = (Seq<char>, AttrOp, Seq<char>);

    open spec fn view(&self) -> (Seq<char>, AttrOp, Seq<char>) {
        (self.name@, self.op, self.value@)
    }
}

/// A selector: an optional tag name and attribute conditions, all of
/// which must hold of an element for the selector to match it.
#[derive(Debug, PartialEq)]
pub struct Selector {
    pub tag: Option<String>,
    pub conds: Vec<AttrCond>,
}

/// The mathematical shape of a selector.
pub struct SelectorView {
    pub tag: Option<Seq<char>>,
    pub conds: Seq<(Seq<char>, AttrOp, Seq<char>)>,
}

impl View for Selector {
    type V = SelectorView;

    open spec fn view(&self) -> SelectorView {
        SelectorView {
            tag: match self.tag {
                Some(t) => Some(t@),
                None => None,
            },
            conds: Seq::new(self.conds@.len(), |i: int| self.conds@[i]@),
        }
    }
}

/// One rule: a selector and the declarations it applies.
#[derive(Debug, PartialEq)]
pub struct Rule {
    pub selector: Selector,
    pub declarations: Vec<Declaration>,
}

/// The mathematical shape of a rule.
pub struct RuleView {
    pub selector: SelectorView,
    pub declarations: Seq<(Seq<char>, CSSValueView)>,
}

impl View for Rule {
    type V = RuleView;

    open spec fn view(&self) -> RuleView {
        RuleView {
            selector: self.selector@,
            declarations: Seq::new(self.declarations@.len(), |i: int| self.declarations@[i]@),
        }
    }
}

/// A stylesheet: rules in document order; a later rule overrides an
/// earlier one property by property wherever both match an element.
#[derive(Debug, PartialEq)]
pub struct Stylesheet {
    pub rules: Vec<Rule>,
}

impl View for Stylesheet {
    type V = Seq<RuleView>;

    open spec fn view(&self) -> Seq<RuleView> {
        Seq::new(self.rules@.len(), |i: int| self.rules@[i]@)
    }
}

} // verus!
