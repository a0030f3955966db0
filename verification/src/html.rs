//! The HTML parser: a backtracking recursive-descent parser from a
//! character sequence to a DOM tree.
//!
//! Grammar: `element := start_tag, nodes, end_tag`;
//! `nodes := (element | text)*`; `text := one or more characters other
//! than '<'`. Node-sequence parsing is greedy: at each position it
//! attempts an element first and falls back to text; an empty match ends
//! the sequence. After an element's children, the close tag's name must
//! equal the open tag's name; a mismatch is a structural error, never
//! silently accepted.
//!
//! Each executable parser returns exactly what its specification-level
//! counterpart (`spec_parse_*`) computes; the internal "no match" signal
//! is the `None` case and never escapes `parse_html`.

use vstd::prelude::*;
use vstd::string::StringExecFns;

use crate::dom::{AttrMap, AttrsView, Node, NodeView, ParseError, attrs_put};
use crate::text::{CharClass, class_pred, end_of_run, is_letter, lemma_end_of_run,
    lemma_end_of_run_skip, scan, class_test, string_from_range, str_to_chars};

verus! {

/// Views of a sequence of parsed nodes.
pub open spec fn views_of(ns: Seq<Node>) -> Seq<NodeView> {
    Seq::new(ns.len(), |i: int| ns[i]@)
}

/// Text: the maximal nonempty run of characters other than `<`.
pub open spec fn spec_parse_text(s: Seq<char>, i: int) -> Option<(Seq<char>, int)> {
    if 0 <= i <= s.len() {
        let e = end_of_run(s, i, class_pred(CharClass::Text));
        if e > i {
            Some((s.subrange(i, e), e))
        } else {
            None
        }
    } else {
        None
    }
}

/// Attributes after a tag name: zero or more of
/// `whitespace* name '=' '"' value '"'`, accumulated into `acc` with
/// later duplicates replacing earlier ones; ends just past the trailing
/// whitespace, in front of whatever follows the attribute list.
pub open spec fn spec_parse_attrs(s: Seq<char>, i: int, acc: AttrsView) -> Option<(
    AttrsView,
    int,
)>
    decreases s.len() - i,
{
    if !(0 <= i <= s.len()) {
        None
    } else {
        let k = end_of_run(s, i, class_pred(CharClass::Space));
        if k < s.len() && is_letter(s[k]) {
            let m = end_of_run(s, k, class_pred(CharClass::Alnum));
            if m + 1 < s.len() && s[m] == '=' && s[m + 1] == '"' {
                let v = end_of_run(s, m + 2, class_pred(CharClass::AttrValue));
                if v < s.len() && s[v] == '"' && i < v + 1 {
                    spec_parse_attrs(s, v + 1, attrs_put(acc, s.subrange(k, m), s.subrange(m + 2, v)))
                } else {
                    None
                }
            } else {
                None
            }
        } else {
            Some((acc, k))
        }
    }
}

/// Start tag: `'<' name attrs '>'`, yielding the tag name, the attribute
/// map and the position just past `'>'`.
pub open spec fn spec_parse_start_tag(s: Seq<char>, i: int) -> Option<(Seq<char>, AttrsView, int)> {
    if 0 <= i < s.len() && s[i] == '<' {
        let t1 = end_of_run(s, i + 1, class_pred(CharClass::Alnum));
        if t1 == i + 1 {
            None
        } else {
            match spec_parse_attrs(s, t1, Seq::empty()) {
                Some((attrs, k)) => if k < s.len() && s[k] == '>' {
                    Some((s.subrange(i + 1, t1), attrs, k + 1))
                } else {
                    None
                },
                None => None,
            }
        }
    } else {
        None
    }
}

/// End tag: `'</' name '>'`, yielding the tag name and the position just
/// past `'>'`.
pub open spec fn spec_parse_end_tag(s: Seq<char>, i: int) -> Option<(Seq<char>, int)> {
    if 0 <= i && i + 1 < s.len() && s[i] == '<' && s[i + 1] == '/' {
        let t1 = end_of_run(s, i + 2, class_pred(CharClass::Alnum));
        if t1 > i + 2 && t1 < s.len() && s[t1] == '>' {
            Some((s.subrange(i + 2, t1), t1 + 1))
        } else {
            None
        }
    } else {
        None
    }
}

/// Element: start tag, children, end tag, with the two tag names equal;
/// different names fail the parse.
pub open spec fn spec_parse_element(s: Seq<char>, i: int) -> Option<(NodeView, int)>
    decreases s.len() - i, 0int,
{
    match spec_parse_start_tag(s, i) {
        Some((tag, attrs, j)) => if i < j <= s.len() {
            let (children, k) = spec_parse_nodes(s, j);
            match spec_parse_end_tag(s, k) {
                Some((tag2, end)) => if tag2 == tag {
                    Some((NodeView::Element { tag, attributes: attrs, children }, end))
                } else {
                    None
                },
                None => None,
            }
        } else {
            None
        },
        None => None,
    }
}

/// Greedy node sequence: as long as an element or a text run parses at
/// the current position, take it; an empty match ends the sequence and is
/// never an error.
pub open spec fn spec_parse_nodes(s: Seq<char>, i: int) -> (Seq<NodeView>, int)
    decreases s.len() - i, 1int,
{
    if !(0 <= i <= s.len()) {
        (Seq::empty(), i)
    } else {
        match spec_parse_element(s, i) {
            Some((n, j)) => if i < j <= s.len() {
                let (rest, k) = spec_parse_nodes(s, j);
                (seq![n] + rest, k)
            } else {
                (Seq::empty(), i)
            },
            None => match spec_parse_text(s, i) {
                Some((t, j)) => if i < j <= s.len() {
                    let (rest, k) = spec_parse_nodes(s, j);
                    (seq![NodeView::Text(t)] + rest, k)
                } else {
                    (Seq::empty(), i)
                },
                None => (Seq::empty(), i),
            },
        }
    }
}

/// A successful attribute parse never moves backwards nor past the end.
pub proof fn lemma_parse_attrs_bounds(s: Seq<char>, i: int, acc: AttrsView)
    requires
        0 <= i <= s.len(),
        spec_parse_attrs(s, i, acc) is Some,
    ensures
        i <= spec_parse_attrs(s, i, acc)->Some_0.1 <= s.len(),
    decreases s.len() - i,
{
    let k = end_of_run(s, i, class_pred(CharClass::Space));
    lemma_end_of_run(s, i, class_pred(CharClass::Space));
    if k < s.len() && is_letter(s[k]) {
        let m = end_of_run(s, k, class_pred(CharClass::Alnum));
        let v = end_of_run(s, m + 2, class_pred(CharClass::AttrValue));
        lemma_parse_attrs_bounds(s, v + 1, attrs_put(acc, s.subrange(k, m), s.subrange(m + 2, v)));
    }
}

/// A successful start tag ends strictly past where it began, within the
/// input.
pub proof fn lemma_start_tag_bounds(s: Seq<char>, i: int)
    requires
        spec_parse_start_tag(s, i) is Some,
    ensures
        i < spec_parse_start_tag(s, i)->Some_0.2 <= s.len(),
{
    let t1 = end_of_run(s, i + 1, class_pred(CharClass::Alnum));
    lemma_end_of_run(s, i + 1, class_pred(CharClass::Alnum));
    lemma_parse_attrs_bounds(s, t1, Seq::empty());
}

/// A valid tag name: one or more letters or digits.
pub open spec fn is_tag_name(t: Seq<char>) -> bool {
    t.len() > 0 && forall|k: int| 0 <= k < t.len() ==> is_letter(t[k]) || crate::text::is_digit(t[k])
}

/// A successful end tag ends strictly past where it began, within the
/// input.
pub proof fn lemma_end_tag_bounds(s: Seq<char>, i: int)
    requires
        spec_parse_end_tag(s, i) is Some,
    ensures
        i < spec_parse_end_tag(s, i)->Some_0.1 <= s.len(),
{
    lemma_end_of_run(s, i + 2, class_pred(CharClass::Alnum));
}

/// A successful element parse ends strictly past where it began.
pub proof fn lemma_element_bounds(s: Seq<char>, i: int)
    requires
        0 <= i <= s.len(),
    ensures
        spec_parse_element(s, i) matches Some((n, e)) ==> i < e <= s.len(),
    decreases s.len() - i, 0int,
{
    if spec_parse_start_tag(s, i) is Some {
        lemma_start_tag_bounds(s, i);
        let j = spec_parse_start_tag(s, i)->Some_0.2;
        if i < j <= s.len() {
            lemma_nodes_bounds(s, j);
            let k = spec_parse_nodes(s, j).1;
            if spec_parse_end_tag(s, k) is Some {
                lemma_end_tag_bounds(s, k);
            }
        }
    }
}

/// The greedy node-sequence parse never moves backwards nor past the end.
pub proof fn lemma_nodes_bounds(s: Seq<char>, i: int)
    requires
        0 <= i <= s.len(),
    ensures
        i <= spec_parse_nodes(s, i).1 <= s.len(),
    decreases s.len() - i, 1int,
{
    lemma_element_bounds(s, i);
    match spec_parse_element(s, i) {
        Some((n, j)) => {
            if i < j <= s.len() {
                lemma_nodes_bounds(s, j);
            }
        },
        None => match spec_parse_text(s, i) {
            Some((t, j)) => {
                lemma_end_of_run(s, i, class_pred(CharClass::Text));
                if i < j <= s.len() {
                    lemma_nodes_bounds(s, j);
                }
            },
            None => {},
        },
    }
}

/// A bare start tag `'<' name '>'` (no attributes) standing at `i` parses
/// to exactly that name with an empty attribute map.
proof fn lemma_start_tag_plain(s: Seq<char>, i: int, name: Seq<char>)
    requires
        is_tag_name(name),
        0 <= i,
        i + 1 + name.len() < s.len(),
        s[i] == '<',
        s.subrange(i + 1, i + 1 + name.len()) == name,
        s[i + 1 + name.len()] == '>',
    ensures
        spec_parse_start_tag(s, i) == Some((
            name,
            Seq::<(Seq<char>, Seq<char>)>::empty(),
            i + 2 + name.len(),
        )),
{
    let l = name.len() as int;
    let alnum = class_pred(CharClass::Alnum);
    assert forall|k: int| i + 1 <= k < i + 1 + l implies alnum(s[k]) by {
        assert(s[k] == s.subrange(i + 1, i + 1 + l)[k - i - 1]);
    }
    lemma_end_of_run_skip(s, i + 1, i + 1 + l, alnum);
    assert(end_of_run(s, i + 1 + l, alnum) == i + 1 + l);
    let t1 = i + 1 + l;
    assert(end_of_run(s, t1, class_pred(CharClass::Space)) == t1);
    assert(spec_parse_attrs(s, t1, Seq::empty())
        == Some((Seq::<(Seq<char>, Seq<char>)>::empty(), t1)));
}

/// An end tag `'</' name '>'` standing at `j` parses to exactly that name.
proof fn lemma_end_tag_plain(s: Seq<char>, j: int, name: Seq<char>)
    requires
        is_tag_name(name),
        0 <= j,
        j + 2 + name.len() < s.len(),
        s[j] == '<',
        s[j + 1] == '/',
        s.subrange(j + 2, j + 2 + name.len()) == name,
        s[j + 2 + name.len()] == '>',
    ensures
        spec_parse_end_tag(s, j) == Some((name, j + 3 + name.len())),
{
    let l = name.len() as int;
    let alnum = class_pred(CharClass::Alnum);
    assert forall|k: int| j + 2 <= k < j + 2 + l implies alnum(s[k]) by {
        assert(s[k] == s.subrange(j + 2, j + 2 + l)[k - j - 2]);
    }
    lemma_end_of_run_skip(s, j + 2, j + 2 + l, alnum);
    assert(end_of_run(s, j + 2 + l, alnum) == j + 2 + l);
}

/// Every well-formed `<tag>…</tag>` input whose open and close names
/// match parses: the input is `'<' tag '>'`, then any content on which
/// the greedy child parse stops exactly at the close tag, then
/// `'</' tag '>'` ending the input. The parse succeeds, consumes the
/// whole input, and the root's tag name equals the parsed tag name — so
/// `parse_html`, whose contract ties `Ok` to exactly this outcome,
/// succeeds on such an input.
pub proof fn lemma_matching_tags_parse(s: Seq<char>, tag: Seq<char>)
    requires
        is_tag_name(tag),
        1 + tag.len() < s.len(),
        s[0] == '<',
        s.subrange(1, 1 + tag.len() as int) == tag,
        s[1 + tag.len() as int] == '>',
        ({
            let j = spec_parse_nodes(s, 2 + tag.len() as int).1;
            &&& j + 3 + tag.len() == s.len()
            &&& s[j] == '<'
            &&& s[j + 1] == '/'
            &&& s.subrange(j + 2, j + 2 + tag.len() as int) == tag
            &&& s[j + 2 + tag.len() as int] == '>'
        }),
    ensures
        spec_parse_element(s, 0) == Some((
            NodeView::Element {
                tag: tag,
                attributes: Seq::<(Seq<char>, Seq<char>)>::empty(),
                children: spec_parse_nodes(s, 2 + tag.len() as int).0,
            },
            s.len() as int,
        )),
{
    let p = 2 + tag.len() as int;
    lemma_start_tag_plain(s, 0, tag);
    lemma_nodes_bounds(s, p);
    let j = spec_parse_nodes(s, p).1;
    lemma_end_tag_plain(s, j, tag);
}

/// The plainest well-formed input: `<tag>` around raw text (possibly
/// empty), closed by the same name, always parses to an element of that
/// tag with the text as its only child, consuming the whole input.
pub proof fn lemma_text_element_parses(tag: Seq<char>, body: Seq<char>)
    requires
        is_tag_name(tag),
        forall|k: int| 0 <= k < body.len() ==> body[k] != '<',
    ensures
        ({
            let s = seq!['<'] + tag + seq!['>'] + body + seq!['<', '/'] + tag + seq!['>'];
            spec_parse_element(s, 0) == Some((
                NodeView::Element {
                    tag: tag,
                    attributes: Seq::<(Seq<char>, Seq<char>)>::empty(),
                    children: if body.len() == 0 {
                        Seq::<NodeView>::empty()
                    } else {
                        seq![NodeView::Text(body)]
                    },
                },
                s.len() as int,
            ))
        }),
{
    let s = seq!['<'] + tag + seq!['>'] + body + seq!['<', '/'] + tag + seq!['>'];
    let l = tag.len() as int;
    let p = 2 + l;
    let j = p + body.len() as int;
    assert(s.len() == l + body.len() + l + 5);
    assert(s[0] == '<');
    assert(s.subrange(1, 1 + l) =~= tag);
    assert(s[1 + l] == '>');
    assert forall|k: int| p <= k < j implies s[k] != '<' by {
        assert(s[k] == body[k - p]);
    }
    assert(s[j] == '<');
    assert(s[j + 1] == '/');
    assert(s.subrange(j + 2, j + 2 + l) =~= tag);
    assert(s[j + 2 + l] == '>');
    let text_pred = class_pred(CharClass::Text);
    lemma_end_of_run_skip(s, p, j, text_pred);
    assert(end_of_run(s, j, text_pred) == j);
    assert(end_of_run(s, j + 1, class_pred(CharClass::Alnum)) == j + 1);
    assert(spec_parse_start_tag(s, j) is None);
    assert(spec_parse_element(s, j) is None);
    assert(spec_parse_text(s, j) is None);
    assert(spec_parse_nodes(s, j) == (Seq::<NodeView>::empty(), j));
    if body.len() > 0 {
        assert(s[p] == body[0]);
        assert(spec_parse_start_tag(s, p) is None);
        assert(spec_parse_element(s, p) is None);
        assert(s.subrange(p, j) =~= body);
        assert(spec_parse_text(s, p) == Some((body, j)));
        assert(spec_parse_nodes(s, p).0 =~= seq![NodeView::Text(body)]);
        assert(spec_parse_nodes(s, p).1 == j);
    }
    lemma_matching_tags_parse(s, tag);
}

/// Whenever the open and close tag names differ, the element parse — and
/// with it `parse_html`, whose contract ties `Err` to exactly this
/// outcome — rejects the input: the structure is as in
/// `lemma_matching_tags_parse`, but the close tag carries a different
/// name.
pub proof fn lemma_mismatched_tags_rejected(s: Seq<char>, tag: Seq<char>, close: Seq<char>)
    requires
        is_tag_name(tag),
        is_tag_name(close),
        tag != close,
        1 + tag.len() < s.len(),
        s[0] == '<',
        s.subrange(1, 1 + tag.len() as int) == tag,
        s[1 + tag.len() as int] == '>',
        ({
            let j = spec_parse_nodes(s, 2 + tag.len() as int).1;
            &&& j + 2 + close.len() < s.len()
            &&& s[j] == '<'
            &&& s[j + 1] == '/'
            &&& s.subrange(j + 2, j + 2 + close.len() as int) == close
            &&& s[j + 2 + close.len() as int] == '>'
        }),
    ensures
        spec_parse_element(s, 0) is None,
{
    let p = 2 + tag.len() as int;
    lemma_start_tag_plain(s, 0, tag);
    lemma_nodes_bounds(s, p);
    let j = spec_parse_nodes(s, p).1;
    lemma_end_tag_plain(s, j, close);
}

/// The counterpart for raw-text content: wrapping it in an open tag and
/// a close tag of a different name is rejected outright.
pub proof fn lemma_text_element_mismatch_rejected(tag: Seq<char>, close: Seq<char>, body: Seq<char>)
    requires
        is_tag_name(tag),
        is_tag_name(close),
        tag != close,
        forall|k: int| 0 <= k < body.len() ==> body[k] != '<',
    ensures
        spec_parse_element(
            seq!['<'] + tag + seq!['>'] + body + seq!['<', '/'] + close + seq!['>'],
            0,
        ) is None,
{
    let s = seq!['<'] + tag + seq!['>'] + body + seq!['<', '/'] + close + seq!['>'];
    let l = tag.len() as int;
    let p = 2 + l;
    let j = p + body.len() as int;
    assert(s.len() == l + body.len() + close.len() + 5);
    assert(s[0] == '<');
    assert(s.subrange(1, 1 + l) =~= tag);
    assert(s[1 + l] == '>');
    assert forall|k: int| p <= k < j implies s[k] != '<' by {
        assert(s[k] == body[k - p]);
    }
    assert(s[j] == '<');
    assert(s[j + 1] == '/');
    assert(s.subrange(j + 2, j + 2 + close.len() as int) =~= close);
    assert(s[j + 2 + close.len() as int] == '>');
    let text_pred = class_pred(CharClass::Text);
    lemma_end_of_run_skip(s, p, j, text_pred);
    assert(end_of_run(s, j, text_pred) == j);
    assert(end_of_run(s, j + 1, class_pred(CharClass::Alnum)) == j + 1);
    assert(spec_parse_start_tag(s, j) is None);
    assert(spec_parse_element(s, j) is None);
    assert(spec_parse_text(s, j) is None);
    assert(spec_parse_nodes(s, j) == (Seq::<NodeView>::empty(), j));
    if body.len() > 0 {
        assert(s[p] == body[0]);
        assert(spec_parse_start_tag(s, p) is None);
        assert(spec_parse_element(s, p) is None);
        assert(s.subrange(p, j) =~= body);
        assert(spec_parse_text(s, p) == Some((body, j)));
        assert(spec_parse_nodes(s, p).1 == j);
    }
    lemma_mismatched_tags_rejected(s, tag, close);
}

/// Parse a text node at `pos`.
pub fn parse_text(s: &Vec<char>, pos: usize) -> (r: Option<(Node, usize)>)
    requires
        pos <= s@.len(),
    ensures
        match r {
            Some((n, end)) => {
                &&& spec_parse_text(s@, pos as int) == Some((n@->Text_0, end as int))
                &&& n@ is Text
                &&& pos < end <= s@.len()
            },
            None => spec_parse_text(s@, pos as int) is None,
        },
{
    let e = scan(s, pos, CharClass::Text);
    if e > pos {
        let content = string_from_range(s, pos, e);
        Some((Node::text(content), e))
    } else {
        None
    }
}

/// Parse the attribute list at `pos`, adding onto `am`.
fn parse_attrs(s: &Vec<char>, pos: usize, am: AttrMap) -> (r: Option<(AttrMap, usize)>)
    requires
        pos <= s@.len(),
    ensures
        match r {
            Some((a, end)) => {
                &&& spec_parse_attrs(s@, pos as int, am@) == Some((a@, end as int))
                &&& pos <= end <= s@.len()
            },
            None => spec_parse_attrs(s@, pos as int, am@) is None,
        },
    decreases s@.len() - pos,
{
    let k = scan(s, pos, CharClass::Space);
    if k < s.len() && class_test(CharClass::Letter, s[k]) {
        let m = scan(s, k, CharClass::Alnum);
        if m < s.len() && s[m] == '=' && m + 1 < s.len() && s[m + 1] == '"' {
            let v = scan(s, m + 2, CharClass::AttrValue);
            if v < s.len() && s[v] == '"' {
                let name = string_from_range(s, k, m);
                let value = string_from_range(s, m + 2, v);
                let mut am2 = am;
                am2.insert(name, value);
                parse_attrs(s, v + 1, am2)
            } else {
                None
            }
        } else {
            None
        }
    } else {
        Some((am, k))
    }
}

/// Parse a start tag at `pos`.
pub fn parse_start_tag(s: &Vec<char>, pos: usize) -> (r: Option<(String, AttrMap, usize)>)
    requires
        pos <= s@.len(),
    ensures
        match r {
            Some((tag, attrs, end)) => {
                &&& spec_parse_start_tag(s@, pos as int) == Some((tag@, attrs@, end as int))
                &&& pos < end <= s@.len()
            },
            None => spec_parse_start_tag(s@, pos as int) is None,
        },
{
    if pos < s.len() && s[pos] == '<' {
        let t1 = scan(s, pos + 1, CharClass::Alnum);
        if t1 == pos + 1 {
            None
        } else {
            match parse_attrs(s, t1, AttrMap::new()) {
                Some((attrs, k)) => {
                    if k < s.len() && s[k] == '>' {
                        let tag = string_from_range(s, pos + 1, t1);
                        Some((tag, attrs, k + 1))
                    } else {
                        None
                    }
                },
                None => None,
            }
        }
    } else {
        None
    }
}

/// Parse an end tag at `pos`.
pub fn parse_end_tag(s: &Vec<char>, pos: usize) -> (r: Option<(String, usize)>)
    requires
        pos <= s@.len(),
    ensures
        match r {
            Some((tag, end)) => {
                &&& spec_parse_end_tag(s@, pos as int) == Some((tag@, end as int))
                &&& pos < end <= s@.len()
            },
            None => spec_parse_end_tag(s@, pos as int) is None,
        },
{
    if pos < s.len() && s[pos] == '<' && pos + 1 < s.len() && s[pos + 1] == '/' {
        let t1 = scan(s, pos + 2, CharClass::Alnum);
        if t1 > pos + 2 && t1 < s.len() && s[t1] == '>' {
            let tag = string_from_range(s, pos + 2, t1);
            Some((tag, t1 + 1))
        } else {
            None
        }
    } else {
        None
    }
}

/// Parse one element at `pos`: start tag, children, matching end tag.
pub fn parse_elements(s: &Vec<char>, pos: usize) -> (r: Option<(Node, usize)>)
    requires
        pos <= s@.len(),
    ensures
        match r {
            Some((n, end)) => {
                &&& spec_parse_element(s@, pos as int) == Some((n@, end as int))
                &&& pos < end <= s@.len()
            },
            None => spec_parse_element(s@, pos as int) is None,
        },
    decreases s@.len() - pos, 0int,
{
    match parse_start_tag(s, pos) {
        Some((tag, attrs, j)) => {
            let (children, k) = nodes_(s, j);
            match parse_end_tag(s, k) {
                Some((tag2, end)) => {
                    if tag2 == tag {
                        let ghost cv = children@;
                        let n = Node::element(tag, attrs, children);
                        proof {
                            assert(Seq::new(cv.len(), |i: int| cv[i]@) =~= views_of(cv));
                        }
                        Some((n, end))
                    } else {
                        None
                    }
                },
                None => None,
            }
        },
        None => None,
    }
}

/// Parse the greedy node sequence at `pos`; never fails.
pub fn nodes_(s: &Vec<char>, pos: usize) -> (r: (Vec<Node>, usize))
    requires
        pos <= s@.len(),
    ensures
        spec_parse_nodes(s@, pos as int) == (views_of(r.0@), r.1 as int),
        pos <= r.1 <= s@.len(),
    decreases s@.len() - pos, 1int,
{
    match parse_elements(s, pos) {
        Some((n, j)) => {
            let ghost nv = n@;
            let (mut rest, end) = nodes_(s, j);
            let ghost restv = rest@;
            let mut ns: Vec<Node> = Vec::new();
            ns.push(n);
            ns.append(&mut rest);
            proof {
                assert(views_of(ns@) =~= seq![nv] + views_of(restv));
            }
            (ns, end)
        },
        None => match parse_text(s, pos) {
            Some((n, j)) => {
                let ghost nv = n@;
                let (mut rest, end) = nodes_(s, j);
                let ghost restv = rest@;
                let mut ns: Vec<Node> = Vec::new();
                ns.push(n);
                ns.append(&mut rest);
                proof {
                    assert(views_of(ns@) =~= seq![nv] + views_of(restv));
                }
                (ns, end)
            },
            None => {
                let ns: Vec<Node> = Vec::new();
                proof {
                    assert(views_of(ns@) =~= Seq::<NodeView>::empty());
                }
                (ns, pos)
            },
        },
    }
}

/// Parse a whole HTML document: a single root element covering the entire
/// input. Succeeds exactly when the element grammar consumes every
/// character; every failure is reported as a structural error with a
/// position.
pub fn parse_html(text: &str) -> (r: Result<Node, ParseError>)
    ensures
        match r {
            Ok(n) => spec_parse_element(text@, 0) == Some((n@, text@.len() as int)),
            Err(_) => !match spec_parse_element(text@, 0) {
                Some((n, end)) => end == text@.len(),
                None => false,
            },
        },
{
    let s = str_to_chars(text);
    match parse_elements(&s, 0) {
        Some((n, end)) => {
            if end == s.len() {
                Ok(n)
            } else {
                Err(ParseError {
                    position: end,
                    message: String::from_str("unexpected input after the root element"),
                })
            }
        },
        None => Err(describe_element_failure(&s)),
    }
}

/// Work out which step of the element grammar failed at the root, for
/// the error report: no start tag, an unterminated element, or a close
/// tag whose name differs from the open tag's.
fn describe_element_failure(s: &Vec<char>) -> (e: ParseError)
    requires
        spec_parse_element(s@, 0) is None,
{
    match parse_start_tag(s, 0) {
        None => ParseError {
            position: 0,
            message: String::from_str("expected an element: start tag, children, matching end tag"),
        },
        Some((tag, _attrs, j)) => {
            let (_children, k) = nodes_(s, j);
            match parse_end_tag(s, k) {
                None => ParseError {
                    position: k,
                    message: String::from_str("unterminated element: expected an end tag"),
                },
                Some((tag2, _end)) => {
                    if !(tag2 == tag) {
                        ParseError {
                            position: k,
                            message: String::from_str(
                                "tag name of open tag and close tag mismatched",
                            ),
                        }
                    } else {
                        ParseError {
                            position: 0,
                            message: String::from_str(
                                "expected an element: start tag, children, matching end tag",
                            ),
                        }
                    }
                },
            }
        },
    }
}

} // verus!
