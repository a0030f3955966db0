//! The CSS parser: declarations (`name ':' value`, separated and
//! optionally terminated by `;`), selectors, rules and whole stylesheets.
//!
//! A value is a keyword (letters) or a length: digits immediately
//! followed by one of the unit suffixes `em`, `px`, `%`. All three
//! suffixes are tried, so a percent length parses like the others.
//! Whitespace around separators is tolerated and skipped; duplicate
//! property names are all retained here, in order — the cascade resolves
//! them later, last one winning.
//!
//! Each executable parser returns exactly what its specification-level
//! counterpart (`spec_parse_*`) computes.

use vstd::prelude::*;
use vstd::string::StringExecFns;

use crate::cssom::{AttrCond, AttrOp, CSSValue, CSSValueView, Declaration, Rule, RuleView,
    Selector, SelectorView, Stylesheet, Unit};
use crate::dom::ParseError;
use crate::text::{CharClass, class_pred, class_test, digits_to_usize, digits_val, end_of_run,
    is_letter, scan, str_to_chars, string_from_range};

verus! {

/// Views of a sequence of declarations.
pub open spec fn decl_views(ds: Seq<Declaration>) -> Seq<(Seq<char>, CSSValueView)> {
    Seq::new(ds.len(), |i: int| ds[i]@)
}

/// Views of a sequence of attribute conditions.
pub open spec fn cond_views(cs: Seq<AttrCond>) -> Seq<(Seq<char>, AttrOp, Seq<char>)> {
    Seq::new(cs.len(), |i: int| cs[i]@)
}

/// Views of a sequence of rules.
pub open spec fn rule_views(rs: Seq<Rule>) -> Seq<RuleView> {
    Seq::new(rs.len(), |i: int| rs[i]@)
}

/// Value: a keyword (one or more letters), or digits immediately
/// followed by a unit suffix — `em`, `px` or `%`, each alternative
/// attempted. A digit run whose value does not fit a `usize` fails.
pub open spec fn spec_parse_css_value(s: Seq<char>, i: int) -> Option<(CSSValueView, int)> {
    if !(0 <= i <= s.len()) {
        None
    } else if i < s.len() && is_letter(s[i]) {
        let e = end_of_run(s, i, class_pred(CharClass::Letter));
        Some((CSSValueView::Keyword(s.subrange(i, e)), e))
    } else {
        let d = end_of_run(s, i, class_pred(CharClass::Digit));
        if d == i {
            None
        } else {
            let num = digits_val(s.subrange(i, d));
            if num > usize::MAX as nat {
                None
            } else if d + 1 < s.len() && s[d] == 'e' && s[d + 1] == 'm' {
                Some((CSSValueView::Length(num, Unit::Em), d + 2))
            } else if d + 1 < s.len() && s[d] == 'p' && s[d + 1] == 'x' {
                Some((CSSValueView::Length(num, Unit::Px), d + 2))
            } else if d < s.len() && s[d] == '%' {
                Some((CSSValueView::Length(num, Unit::Percent), d + 1))
            } else {
                None
            }
        }
    }
}

/// Declaration: `property_name ':' value`, the name one or more letters
/// or hyphens, whitespace tolerated around the colon.
pub open spec fn spec_parse_declaration(s: Seq<char>, i: int) -> Option<(
    (Seq<char>, CSSValueView),
    int,
)> {
    if !(0 <= i <= s.len()) {
        None
    } else {
        let e = end_of_run(s, i, class_pred(CharClass::PropChar));
        if e == i {
            None
        } else {
            let k = end_of_run(s, e, class_pred(CharClass::Space));
            if k < s.len() && s[k] == ':' {
                let m = end_of_run(s, k + 1, class_pred(CharClass::Space));
                match spec_parse_css_value(s, m) {
                    Some((v, j)) => Some(((s.subrange(i, e), v), j)),
                    None => None,
                }
            } else {
                None
            }
        }
    }
}

/// Declaration list: declarations separated, and optionally terminated,
/// by `;`, whitespace skipped after each declaration and separator.
/// Never fails: an empty match ends the list.
pub open spec fn spec_parse_declarations(s: Seq<char>, i: int) -> (
    Seq<(Seq<char>, CSSValueView)>,
    int,
)
    decreases s.len() - i,
{
    if !(0 <= i <= s.len()) {
        (Seq::empty(), i)
    } else {
        match spec_parse_declaration(s, i) {
            None => (Seq::empty(), i),
            Some((d, j)) => {
                let k = end_of_run(s, j, class_pred(CharClass::Space));
                if k < s.len() && s[k] == ';' {
                    let m = end_of_run(s, k + 1, class_pred(CharClass::Space));
                    if i < m <= s.len() {
                        let (rest, e) = spec_parse_declarations(s, m);
                        (seq![d] + rest, e)
                    } else {
                        (seq![d], k + 1)
                    }
                } else {
                    (seq![d], k)
                }
            },
        }
    }
}

/// Attribute conditions of a selector: `.name` (class word),
/// `#name` (exact id), `[name=value]` (exact), `[name~=value]`
/// (contains), accumulated onto `acc`; ends in front of whatever follows.
pub open spec fn spec_parse_conds(
    s: Seq<char>,
    i: int,
    acc: Seq<(Seq<char>, AttrOp, Seq<char>)>,
) -> Option<(Seq<(Seq<char>, AttrOp, Seq<char>)>, int)>
    decreases s.len() - i,
{
    if !(0 <= i <= s.len()) {
        None
    } else if i < s.len() && s[i] == '.' {
        let e = end_of_run(s, i + 1, class_pred(CharClass::Alnum));
        if e > i + 1 && e <= s.len() {
            spec_parse_conds(s, e, acc.push(("class"@, AttrOp::Contains, s.subrange(i + 1, e))))
        } else {
            None
        }
    } else if i < s.len() && s[i] == '#' {
        let e = end_of_run(s, i + 1, class_pred(CharClass::Alnum));
        if e > i + 1 && e <= s.len() {
            spec_parse_conds(s, e, acc.push(("id"@, AttrOp::Exact, s.subrange(i + 1, e))))
        } else {
            None
        }
    } else if i < s.len() && s[i] == '[' {
        let e1 = end_of_run(s, i + 1, class_pred(CharClass::Alnum));
        if e1 > i + 1 {
            if e1 < s.len() && s[e1] == '=' {
                let e2 = end_of_run(s, e1 + 1, class_pred(CharClass::Alnum));
                if e2 > e1 + 1 && e2 < s.len() && s[e2] == ']' {
                    spec_parse_conds(
                        s,
                        e2 + 1,
                        acc.push((s.subrange(i + 1, e1), AttrOp::Exact, s.subrange(e1 + 1, e2))),
                    )
                } else {
                    None
                }
            } else if e1 + 1 < s.len() && s[e1] == '~' && s[e1 + 1] == '=' {
                let e2 = end_of_run(s, e1 + 2, class_pred(CharClass::Alnum));
                if e2 > e1 + 2 && e2 < s.len() && s[e2] == ']' {
                    spec_parse_conds(
                        s,
                        e2 + 1,
                        acc.push((s.subrange(i + 1, e1), AttrOp::Contains, s.subrange(e1 + 2, e2))),
                    )
                } else {
                    None
                }
            } else {
                None
            }
        } else {
            None
        }
    } else {
        Some((acc, i))
    }
}

/// Selector: `*`, a tag name, or nothing, followed by attribute
/// conditions; a selector with neither tag nor condition is no match
/// expression and fails.
pub open spec fn spec_parse_selector(s: Seq<char>, i: int) -> Option<(SelectorView, int)> {
    if !(0 <= i <= s.len()) {
        None
    } else if i < s.len() && s[i] == '*' {
        match spec_parse_conds(s, i + 1, Seq::empty()) {
            Some((cs, j)) => Some((SelectorView { tag: None, conds: cs }, j)),
            None => None,
        }
    } else {
        let e = end_of_run(s, i, class_pred(CharClass::Alnum));
        if e > i {
            match spec_parse_conds(s, e, Seq::empty()) {
                Some((cs, j)) => Some((SelectorView { tag: Some(s.subrange(i, e)), conds: cs }, j)),
                None => None,
            }
        } else {
            match spec_parse_conds(s, i, Seq::empty()) {
                Some((cs, j)) => if cs.len() > 0 && j > i {
                    Some((SelectorView { tag: None, conds: cs }, j))
                } else {
                    None
                },
                None => None,
            }
        }
    }
}

/// Rule: `selector '{' declarations '}'`, whitespace tolerated.
pub open spec fn spec_parse_rule(s: Seq<char>, i: int) -> Option<(RuleView, int)> {
    match spec_parse_selector(s, i) {
        Some((sel, j)) => {
            let k = end_of_run(s, j, class_pred(CharClass::Space));
            if k < s.len() && s[k] == '{' {
                let m = end_of_run(s, k + 1, class_pred(CharClass::Space));
                let (ds, e) = spec_parse_declarations(s, m);
                if e < s.len() && s[e] == '}' {
                    Some((RuleView { selector: sel, declarations: ds }, e + 1))
                } else {
                    None
                }
            } else {
                None
            }
        },
        None => None,
    }
}

/// Rule list: whitespace, then rules as long as they parse, accumulated
/// onto `acc`; never fails — it stops in front of the first position
/// where no rule parses.
pub open spec fn spec_parse_rules(s: Seq<char>, i: int, acc: Seq<RuleView>) -> (Seq<RuleView>, int)
    decreases s.len() - i,
{
    if !(0 <= i <= s.len()) {
        (acc, i)
    } else {
        let k = end_of_run(s, i, class_pred(CharClass::Space));
        match spec_parse_rule(s, k) {
            Some((r, j)) => if i < j <= s.len() {
                spec_parse_rules(s, j, acc.push(r))
            } else {
                (acc.push(r), j)
            },
            None => (acc, k),
        }
    }
}

/// Parse a CSS value at `pos`.
pub fn css_value(s: &Vec<char>, pos: usize) -> (r: Option<(CSSValue, usize)>)
    requires
        pos <= s@.len(),
    ensures
        match r {
            Some((v, end)) => {
                &&& spec_parse_css_value(s@, pos as int) == Some((v@, end as int))
                &&& pos < end <= s@.len()
            },
            None => spec_parse_css_value(s@, pos as int) is None,
        },
{
    if pos < s.len() && class_test(CharClass::Letter, s[pos]) {
        let e = scan(s, pos, CharClass::Letter);
        proof {
            crate::text::lemma_end_of_run(s@, pos + 1, class_pred(CharClass::Letter));
        }
        let word = string_from_range(s, pos, e);
        Some((CSSValue::Keyword(word), e))
    } else {
        let d = scan(s, pos, CharClass::Digit);
        if d == pos {
            None
        } else {
            proof {
                crate::text::lemma_end_of_run(s@, pos as int, class_pred(CharClass::Digit));
            }
            match digits_to_usize(s, pos, d) {
                Some(num) => {
                    if d < s.len() && s[d] == 'e' && d + 1 < s.len() && s[d + 1] == 'm' {
                        Some((CSSValue::Length((num, Unit::Em)), d + 2))
                    } else if d < s.len() && s[d] == 'p' && d + 1 < s.len() && s[d + 1] == 'x' {
                        Some((CSSValue::Length((num, Unit::Px)), d + 2))
                    } else if d < s.len() && s[d] == '%' {
                        Some((CSSValue::Length((num, Unit::Percent)), d + 1))
                    } else {
                        None
                    }
                },
                None => None,
            }
        }
    }
}

/// Parse one declaration at `pos`.
pub fn declaration(s: &Vec<char>, pos: usize) -> (r: Option<(Declaration, usize)>)
    requires
        pos <= s@.len(),
    ensures
        match r {
            Some((d, end)) => {
                &&& spec_parse_declaration(s@, pos as int) == Some((d@, end as int))
                &&& pos < end <= s@.len()
            },
            None => spec_parse_declaration(s@, pos as int) is None,
        },
{
    let e = scan(s, pos, CharClass::PropChar);
    if e == pos {
        None
    } else {
        let k = scan(s, e, CharClass::Space);
        if k < s.len() && s[k] == ':' {
            let m = scan(s, k + 1, CharClass::Space);
            match css_value(s, m) {
                Some((v, j)) => {
                    let name = string_from_range(s, pos, e);
                    Some((Declaration { name, value: v }, j))
                },
                None => None,
            }
        } else {
            None
        }
    }
}

/// Parse the declaration list at `pos`; never fails.
pub fn declarations(s: &Vec<char>, pos: usize) -> (r: (Vec<Declaration>, usize))
    requires
        pos <= s@.len(),
    ensures
        spec_parse_declarations(s@, pos as int) == (decl_views(r.0@), r.1 as int),
        pos <= r.1 <= s@.len(),
    decreases s@.len() - pos,
{
    match declaration(s, pos) {
        None => {
            let ds: Vec<Declaration> = Vec::new();
            proof {
                assert(decl_views(ds@) =~= Seq::<(Seq<char>, CSSValueView)>::empty());
            }
            (ds, pos)
        },
        Some((d, j)) => {
            let ghost dv = d@;
            let k = scan(s, j, CharClass::Space);
            if k < s.len() && s[k] == ';' {
                let m = scan(s, k + 1, CharClass::Space);
                let (mut rest, e) = declarations(s, m);
                let ghost restv = rest@;
                let mut ds: Vec<Declaration> = Vec::new();
                ds.push(d);
                ds.append(&mut rest);
                proof {
                    assert(decl_views(ds@) =~= seq![dv] + decl_views(restv));
                }
                (ds, e)
            } else {
                let mut ds: Vec<Declaration> = Vec::new();
                ds.push(d);
                proof {
                    assert(decl_views(ds@) =~= seq![dv]);
                }
                (ds, k)
            }
        },
    }
}

/// Parse the attribute conditions at `pos`, adding onto `acc`.
fn parse_conds(s: &Vec<char>, pos: usize, acc: Vec<AttrCond>) -> (r: Option<(Vec<AttrCond>, usize)>)
    requires
        pos <= s@.len(),
    ensures
        match r {
            Some((cs, end)) => {
                &&& spec_parse_conds(s@, pos as int, cond_views(acc@))
                    == Some((cond_views(cs@), end as int))
                &&& pos <= end <= s@.len()
            },
            None => spec_parse_conds(s@, pos as int, cond_views(acc@)) is None,
        },
    decreases s@.len() - pos,
{
    if pos < s.len() && s[pos] == '.' {
        let e = scan(s, pos + 1, CharClass::Alnum);
        if e > pos + 1 {
            let value = string_from_range(s, pos + 1, e);
            let cond = AttrCond { name: String::from_str("class"), op: AttrOp::Contains, value };
            let ghost cv = cond@;
            let mut acc2 = acc;
            let ghost accv = acc2@;
            acc2.push(cond);
            proof {
                assert(cond_views(acc2@) =~= cond_views(accv).push(cv));
            }
            parse_conds(s, e, acc2)
        } else {
            None
        }
    } else if pos < s.len() && s[pos] == '#' {
        let e = scan(s, pos + 1, CharClass::Alnum);
        if e > pos + 1 {
            let value = string_from_range(s, pos + 1, e);
            let cond = AttrCond { name: String::from_str("id"), op: AttrOp::Exact, value };
            let ghost cv = cond@;
            let mut acc2 = acc;
            let ghost accv = acc2@;
            acc2.push(cond);
            proof {
                assert(cond_views(acc2@) =~= cond_views(accv).push(cv));
            }
            parse_conds(s, e, acc2)
        } else {
            None
        }
    } else if pos < s.len() && s[pos] == '[' {
        let e1 = scan(s, pos + 1, CharClass::Alnum);
        if e1 > pos + 1 {
            if e1 < s.len() && s[e1] == '=' {
                let e2 = scan(s, e1 + 1, CharClass::Alnum);
                if e2 > e1 + 1 && e2 < s.len() && s[e2] == ']' {
                    let name = string_from_range(s, pos + 1, e1);
                    let value = string_from_range(s, e1 + 1, e2);
                    let cond = AttrCond { name, op: AttrOp::Exact, value };
                    let ghost cv = cond@;
                    let mut acc2 = acc;
                    let ghost accv = acc2@;
                    acc2.push(cond);
                    proof {
                        assert(cond_views(acc2@) =~= cond_views(accv).push(cv));
                    }
                    parse_conds(s, e2 + 1, acc2)
                } else {
                    None
                }
            } else if e1 < s.len() && s[e1] == '~' && e1 + 1 < s.len() && s[e1 + 1] == '=' {
                let e2 = scan(s, e1 + 2, CharClass::Alnum);
                if e2 > e1 + 2 && e2 < s.len() && s[e2] == ']' {
                    let name = string_from_range(s, pos + 1, e1);
                    let value = string_from_range(s, e1 + 2, e2);
                    let cond = AttrCond { name, op: AttrOp::Contains, value };
                    let ghost cv = cond@;
                    let mut acc2 = acc;
                    let ghost accv = acc2@;
                    acc2.push(cond);
                    proof {
                        assert(cond_views(acc2@) =~= cond_views(accv).push(cv));
                    }
                    parse_conds(s, e2 + 1, acc2)
                } else {
                    None
                }
            } else {
                None
            }
        } else {
            None
        }
    } else {
        Some((acc, pos))
    }
}

/// Parse one selector at `pos`.
pub fn selector(s: &Vec<char>, pos: usize) -> (r: Option<(Selector, usize)>)
    requires
        pos <= s@.len(),
    ensures
        match r {
            Some((sel, end)) => {
                &&& spec_parse_selector(s@, pos as int) == Some((sel@, end as int))
                &&& pos <= end <= s@.len()
            },
            None => spec_parse_selector(s@, pos as int) is None,
        },
{
    proof {
        assert(cond_views(Seq::<AttrCond>::empty())
            =~= Seq::<(Seq<char>, AttrOp, Seq<char>)>::empty());
    }
    if pos < s.len() && s[pos] == '*' {
        match parse_conds(s, pos + 1, Vec::new()) {
            Some((cs, j)) => {
                let sel = Selector { tag: None, conds: cs };
                proof {
                    assert(cond_views(Seq::<AttrCond>::empty())
                        =~= Seq::<(Seq<char>, AttrOp, Seq<char>)>::empty());
                    assert(sel@.conds =~= cond_views(sel.conds@));
                }
                Some((sel, j))
            },
            None => None,
        }
    } else {
        let e = scan(s, pos, CharClass::Alnum);
        if e > pos {
            match parse_conds(s, e, Vec::new()) {
                Some((cs, j)) => {
                    let tag = string_from_range(s, pos, e);
                    let sel = Selector { tag: Some(tag), conds: cs };
                    proof {
                        assert(cond_views(Seq::<AttrCond>::empty())
                            =~= Seq::<(Seq<char>, AttrOp, Seq<char>)>::empty());
                        assert(sel@.conds =~= cond_views(sel.conds@));
                    }
                    Some((sel, j))
                },
                None => None,
            }
        } else {
            match parse_conds(s, pos, Vec::new()) {
                Some((cs, j)) => {
                    if cs.len() > 0 && j > pos {
                        let sel = Selector { tag: None, conds: cs };
                        proof {
                            assert(cond_views(Seq::<AttrCond>::empty())
                                =~= Seq::<(Seq<char>, AttrOp, Seq<char>)>::empty());
                            assert(sel@.conds =~= cond_views(sel.conds@));
                        }
                        Some((sel, j))
                    } else {
                        None
                    }
                },
                None => None,
            }
        }
    }
}

/// Parse one rule at `pos`.
pub fn rule(s: &Vec<char>, pos: usize) -> (r: Option<(Rule, usize)>)
    requires
        pos <= s@.len(),
    ensures
        match r {
            Some((ru, end)) => {
                &&& spec_parse_rule(s@, pos as int) == Some((ru@, end as int))
                &&& pos < end <= s@.len()
            },
            None => spec_parse_rule(s@, pos as int) is None,
        },
{
    match selector(s, pos) {
        Some((sel, j)) => {
            let k = scan(s, j, CharClass::Space);
            if k < s.len() && s[k] == '{' {
                let m = scan(s, k + 1, CharClass::Space);
                let (ds, e) = declarations(s, m);
                if e < s.len() && s[e] == '}' {
                    let ru = Rule { selector: sel, declarations: ds };
                    proof {
                        assert(ru@.declarations =~= decl_views(ru.declarations@));
                    }
                    Some((ru, e + 1))
                } else {
                    None
                }
            } else {
                None
            }
        },
        None => None,
    }
}

/// Parse the rule list at `pos`, adding onto `acc`; never fails.
fn parse_rules(s: &Vec<char>, pos: usize, acc: Vec<Rule>) -> (r: (Vec<Rule>, usize))
    requires
        pos <= s@.len(),
    ensures
        spec_parse_rules(s@, pos as int, rule_views(acc@)) == (rule_views(r.0@), r.1 as int),
        pos <= r.1 <= s@.len(),
    decreases s@.len() - pos,
{
    let k = scan(s, pos, CharClass::Space);
    match rule(s, k) {
        Some((ru, j)) => {
            let ghost rv = ru@;
            let mut acc2 = acc;
            let ghost accv = acc2@;
            acc2.push(ru);
            proof {
                assert(rule_views(acc2@) =~= rule_views(accv).push(rv));
            }
            parse_rules(s, j, acc2)
        },
        None => (acc, k),
    }
}

/// Parse a whole stylesheet: leading whitespace, then rules, covering
/// the entire input. Succeeds exactly when the rule grammar consumes
/// every character; the failure position is where the first unparsable
/// rule begins.
pub fn parse_css(text: &str) -> (r: Result<Stylesheet, ParseError>)
    ensures
        match r {
            Ok(sheet) => spec_parse_rules(text@, 0, Seq::empty())
                == (sheet@, text@.len() as int),
            Err(_) => spec_parse_rules(text@, 0, Seq::empty()).1 != text@.len() as int,
        },
{
    let s = str_to_chars(text);
    proof {
        assert(rule_views(Seq::<Rule>::empty()) =~= Seq::<RuleView>::empty());
    }
    let (rules, end) = parse_rules(&s, 0, Vec::new());
    if end == s.len() {
        let sheet = Stylesheet { rules };
        proof {
            assert(sheet@ =~= rule_views(sheet.rules@));
        }
        Ok(sheet)
    } else {
        Err(ParseError {
            position: end,
            message: String::from_str("expected a rule: selector, then declarations in braces"),
        })
    }
}

} // verus!
