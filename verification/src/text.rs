//! Character-level scanning primitives shared by the HTML and CSS parsers:
//! character classes, maximal-run scanning, digit-run valuation, and the
//! small string-building helpers the parsers need.

use vstd::prelude::*;

verus! {

/// The character classes the two grammars scan runs of.
#[derive(Clone, Copy, PartialEq, Eq, Structural, Debug)]
pub enum CharClass {
    /// ASCII letter.
    Letter,
    /// ASCII decimal digit.
    Digit,
    /// ASCII letter or digit (tag and attribute names).
    Alnum,
    /// ASCII letter or `-` (CSS property names).
    PropChar,
    /// ASCII whitespace: space, tab, newline, carriage return.
    Space,
    /// Any character except `<` (HTML text content).
    Text,
    /// Any character except `"` (quoted attribute values).
    AttrValue,
}

pub open spec fn is_letter(c: char) -> bool {
    (97 <= c as u32 && c as u32 <= 122) || (65 <= c as u32 && c as u32 <= 90)
}

pub open spec fn is_digit(c: char) -> bool {
    48 <= c as u32 && c as u32 <= 57
}

pub open spec fn is_space(c: char) -> bool {
    c == ' ' || c == '\t' || c == '\n' || c == '\r'
}

/// The predicate a class stands for.
pub open spec fn class_pred(k: CharClass) -> spec_fn(char) -> bool {
    match k {
        CharClass::Letter => |c: char| is_letter(c),
        CharClass::Digit => |c: char| is_digit(c),
        CharClass::Alnum => |c: char| is_letter(c) || is_digit(c),
        CharClass::PropChar => |c: char| is_letter(c) || c == '-',
        CharClass::Space => |c: char| is_space(c),
        CharClass::Text => |c: char| c != '<',
        CharClass::AttrValue => |c: char| c != '"',
    }
}

/// Index just past the maximal run of characters satisfying `p`,
/// starting at `i`.
pub open spec fn end_of_run(s: Seq<char>, i: int, p: spec_fn(char) -> bool) -> int
    decreases s.len() - i,
{
    if 0 <= i < s.len() && p(s[i]) {
        end_of_run(s, i + 1, p)
    } else {
        i
    }
}

/// The maximal run ends within the input, every character of the run
/// satisfies the predicate, and the first character past it does not.
pub proof fn lemma_end_of_run(s: Seq<char>, i: int, p: spec_fn(char) -> bool)
    requires
        0 <= i <= s.len(),
    ensures
        i <= end_of_run(s, i, p) <= s.len(),
        forall|k: int| i <= k < end_of_run(s, i, p) ==> p(s[k]),
        end_of_run(s, i, p) < s.len() ==> !p(s[end_of_run(s, i, p)]),
    decreases s.len() - i,
{
    if 0 <= i < s.len() && p(s[i]) {
        lemma_end_of_run(s, i + 1, p);
    }
}

/// A run is determined by the characters it scans: if every character in
/// `[i, j)` satisfies `p`, the run from `i` ends where the run from `j` ends.
pub proof fn lemma_end_of_run_skip(s: Seq<char>, i: int, j: int, p: spec_fn(char) -> bool)
    requires
        0 <= i <= j <= s.len(),
        forall|k: int| i <= k < j ==> p(s[k]),
    ensures
        end_of_run(s, i, p) == end_of_run(s, j, p),
    decreases j - i,
{
    if i < j {
        lemma_end_of_run_skip(s, i + 1, j, p);
    }
}

/// Whether `c` belongs to class `k`.
pub fn class_test(k: CharClass, c: char) -> (b: bool)
    ensures
        b == class_pred(k)(c),
{
    let u = c as u32;
    match k {
        CharClass::Letter => (97 <= u && u <= 122) || (65 <= u && u <= 90),
        CharClass::Digit => 48 <= u && u <= 57,
        CharClass::Alnum => (97 <= u && u <= 122) || (65 <= u && u <= 90) || (48 <= u && u <= 57),
        CharClass::PropChar => (97 <= u && u <= 122) || (65 <= u && u <= 90) || c == '-',
        CharClass::Space => c == ' ' || c == '\t' || c == '\n' || c == '\r',
        CharClass::Text => c != '<',
        CharClass::AttrValue => c != '"',
    }
}

/// Scan the maximal run of class-`k` characters starting at `pos`.
pub fn scan(s: &Vec<char>, pos: usize, k: CharClass) -> (end: usize)
    requires
        pos <= s@.len(),
    ensures
        end == end_of_run(s@, pos as int, class_pred(k)),
        pos <= end <= s@.len(),
{
    let mut cur: usize = pos;
    loop
        invariant
            pos <= cur <= s@.len(),
            end_of_run(s@, pos as int, class_pred(k)) == end_of_run(s@, cur as int, class_pred(k)),
        decreases s@.len() - cur,
    {
        if cur < s.len() && class_test(k, s[cur]) {
            cur = cur + 1;
        } else {
            return cur;
        }
    }
}

/// Relies on `String::push`: appends the one character to the end of the
/// string.
#[verifier::external_body]
fn push_char(s: &mut String, c: char)
    ensures
        final(s)@ == old(s)@.push(c),
{
    s.push(c)
}

/// Copy the characters of `s[i..j]` into a fresh `String`.
pub fn string_from_range(s: &Vec<char>, i: usize, j: usize) -> (r: String)
    requires
        i <= j <= s@.len(),
    ensures
        r@ == s@.subrange(i as int, j as int),
{
    let mut r = String::new();
    let mut k: usize = i;
    while k < j
        invariant
            i <= k <= j <= s@.len(),
            r@ == s@.subrange(i as int, k as int),
        decreases j - k,
    {
        push_char(&mut r, s[k]);
        k = k + 1;
        proof {
            assert(s@.subrange(i as int, k as int)
                =~= s@.subrange(i as int, k - 1).push(s@[k - 1]));
        }
    }
    r
}

/// Turn a string slice into the character sequence the parsers consume.
pub fn str_to_chars(s: &str) -> (v: Vec<char>)
    ensures
        v@ == s@,
{
    let n = s.unicode_len();
    let mut v: Vec<char> = Vec::new();
    let mut i: usize = 0;
    while i < n
        invariant
            i <= n,
            n == s@.len(),
            v@ == s@.subrange(0, i as int),
        decreases n - i,
    {
        v.push(s.get_char(i));
        i = i + 1;
        proof {
            assert(s@.subrange(0, i as int)
                =~= s@.subrange(0, i - 1).push(s@[i - 1]));
        }
    }
    proof {
        assert(v@ =~= s@);
    }
    v
}

/// Numeric value of a run of decimal digits, most significant first.
pub open spec fn digits_val(s: Seq<char>) -> nat
    decreases s.len(),
{
    if s.len() == 0 {
        0
    } else {
        digits_val(s.drop_last()) * 10 + digit_of(s.last())
    }
}

pub open spec fn digit_of(c: char) -> nat {
    if is_digit(c) {
        (c as u32 - 48) as nat
    } else {
        0
    }
}

/// Extending a digit run never shrinks its value.
pub proof fn lemma_digits_val_prefix(s: Seq<char>, n: int)
    requires
        0 <= n <= s.len(),
    ensures
        digits_val(s.subrange(0, n)) <= digits_val(s),
    decreases s.len() - n,
{
    if n < s.len() {
        lemma_digits_val_prefix(s, n + 1);
        let a = s.subrange(0, n);
        let b = s.subrange(0, n + 1);
        assert(b.drop_last() =~= a);
        assert(digits_val(b) == digits_val(a) * 10 + digit_of(b.last()));
        assert(digits_val(a) * 10 >= digits_val(a)) by {
            assert(digits_val(a) * 10 - digits_val(a) == 9 * digits_val(a));
        }
    } else {
        assert(s.subrange(0, n) =~= s);
    }
}

/// Value of the digit run `s[i..j]`, if it fits a `usize`; `None` on
/// overflow, which the grammar treats as a failed match.
pub fn digits_to_usize(s: &Vec<char>, i: usize, j: usize) -> (r: Option<usize>)
    requires
        i <= j <= s@.len(),
        forall|k: int| i <= k < j ==> is_digit(s@[k]),
    ensures
        match r {
            Some(v) => v as nat == digits_val(s@.subrange(i as int, j as int)),
            None => digits_val(s@.subrange(i as int, j as int)) > usize::MAX as nat,
        },
{
    let ghost whole = s@.subrange(i as int, j as int);
    let mut acc: usize = 0;
    let mut k: usize = i;
    while k < j
        invariant
            i <= k <= j <= s@.len(),
            forall|m: int| i <= m < j ==> is_digit(s@[m]),
            acc as nat == digits_val(s@.subrange(i as int, k as int)),
            whole == s@.subrange(i as int, j as int),
        decreases j - k,
    {
        let c = s[k];
        let d: usize = (c as u32 - 48) as usize;
        let ghost prefix = s@.subrange(i as int, k as int);
        let ghost ext = s@.subrange(i as int, k + 1);
        proof {
            assert(ext.drop_last() =~= prefix);
            assert(digits_val(ext) == digits_val(prefix) * 10 + digit_of(s@[k as int]));
        }
        let step = match acc.checked_mul(10) {
            Some(t) => t.checked_add(d),
            None => None,
        };
        match step {
            Some(v) => {
                acc = v;
                k = k + 1;
            },
            None => {
                proof {
                    assert(digits_val(ext) > usize::MAX as nat);
                    assert(ext =~= whole.subrange(0, k + 1 - i));
                    lemma_digits_val_prefix(whole, k + 1 - i);
                }
                return None;
            },
        }
    }
    proof {
        assert(s@.subrange(i as int, k as int) =~= whole);
    }
    Some(acc)
}

} // verus!
