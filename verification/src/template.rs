//! The placeholder grammar: where the `${body}` tokens of a template lie.
//!
//! A placeholder is `${`, a body of one or more characters other than `}`,
//! and the `}` that follows the body. Placeholders are found from left to
//! right and never overlap: the search for the next one starts behind the
//! closing brace of the one before.

use vstd::prelude::*;
use crate::text::chars_of;

verus! {

/// The index of the first `c` in `t` at or after `i`, or `t.len()` when there is none.
pub open spec fn index_of(t: Seq<char>, c: char, i: int) -> int
    decreases t.len() - i,
{
    if i < 0 || i >= t.len() {
        t.len() as int
    } else if t[i] == c {
        i
    } else {
        index_of(t, c, i + 1)
    }
}

/// Whether a placeholder starts at `i`: `${`, then a character that is not
/// `}`, and a `}` somewhere behind it.
pub open spec fn opens_at(t: Seq<char>, i: int) -> bool {
    &&& 0 <= i
    &&& i + 3 < t.len()
    &&& t[i] == '$'
    &&& t[i + 1] == '{'
    &&& t[i + 2] != '}'
    &&& index_of(t, '}', i + 2) < t.len()
}

/// The half-open range `[start, end)` that a placeholder takes up in a template.
pub struct Extent {
    pub start: int,
    pub end: int,
}

/// The extent of the placeholder that starts at `i`.
pub open spec fn extent_at(t: Seq<char>, i: int) -> Extent
    recommends
        opens_at(t, i),
{
    Extent { start: i, end: index_of(t, '}', i + 2) + 1 }
}

/// The placeholders that start at or after `i`, from left to right.
pub open spec fn placeholders_from(t: Seq<char>, i: int) -> Seq<Extent>
    decreases t.len() - i,
{
    if i < 0 || i >= t.len() {
        Seq::empty()
    } else if opens_at(t, i) {
        let e = extent_at(t, i);
        // A placeholder ends behind its start; said here for the recursion to end.
        if e.end > i {
            seq![e] + placeholders_from(t, e.end)
        } else {
            Seq::empty()
        }
    } else {
        placeholders_from(t, i + 1)
    }
}

/// The placeholders of a template, from left to right.
pub open spec fn placeholders(t: Seq<char>) -> Seq<Extent> {
    placeholders_from(t, 0)
}

/// The whole text of a placeholder, braces included.
pub open spec fn raw_of(t: Seq<char>, e: Extent) -> Seq<char> {
    t.subrange(e.start, e.end)
}

/// The text between the braces of a placeholder.
pub open spec fn body_of(t: Seq<char>, e: Extent) -> Seq<char> {
    t.subrange(e.start + 2, e.end - 1)
}

/// Where one placeholder lies in a template, counted in characters.
#[derive(Clone, Copy, Debug, PartialEq, Eq)]
pub struct Span {
    /// Index of the `$`.
    pub start: usize,
    /// Index behind the closing `}`.
    pub end: usize,
}

impl View for Span {
    type V = Extent;

    open spec fn view(&self) -> Extent {
        Extent { start: self.start as int, end: self.end as int }
    }
}

/// The extents that a list of spans stands for.
pub open spec fn extents(v: Seq<Span>) -> Seq<Extent> {
    v.map_values(|s: Span| s@)
}

/// `index_of` returns the first occurrence: it lies in `[i, t.len()]`, holds
/// `c` unless it is `t.len()`, and no `c` lies between `i` and it.
pub proof fn lemma_index_of(t: Seq<char>, c: char, i: int)
    requires
        0 <= i <= t.len(),
    ensures
        i <= index_of(t, c, i) <= t.len(),
        index_of(t, c, i) < t.len() ==> t[index_of(t, c, i)] == c,
        forall|k: int| i <= k < index_of(t, c, i) ==> t[k] != c,
    decreases t.len() - i,
{
    if i < t.len() && t[i] != c {
        lemma_index_of(t, c, i + 1);
    }
}

/// A placeholder is `${`, its body and `}`, and its body is not empty and
/// holds no `}`.
pub proof fn lemma_placeholder_shape(t: Seq<char>, i: int)
    requires
        opens_at(t, i),
    ensures
        i + 4 <= extent_at(t, i).end <= t.len(),
        raw_of(t, extent_at(t, i)) == seq!['$', '{'] + body_of(t, extent_at(t, i)) + seq!['}'],
        body_of(t, extent_at(t, i)).len() > 0,
        forall|k: int|
            0 <= k < body_of(t, extent_at(t, i)).len() ==> body_of(t, extent_at(t, i))[k] != '}',
{
    lemma_index_of(t, '}', i + 2);
}

/// Wherever `${`, a body that is not empty and holds no `}`, and `}` stand
/// in a template, a placeholder starts, and it is that text.
pub proof fn lemma_shape_opens(t: Seq<char>, i: int, body: Seq<char>)
    requires
        0 <= i,
        i + body.len() + 3 <= t.len(),
        body.len() > 0,
        forall|k: int| 0 <= k < body.len() ==> body[k] != '}',
        t.subrange(i, i + body.len() + 3) == seq!['$', '{'] + body + seq!['}'],
    ensures
        opens_at(t, i),
        extent_at(t, i) == (Extent { start: i, end: i + body.len() + 3 }),
        body_of(t, extent_at(t, i)) == body,
{
    let raw = t.subrange(i, i + body.len() + 3);
    assert(t[i] == raw[0]);
    assert(t[i + 1] == raw[1]);
    assert forall|k: int| 0 <= k < body.len() implies t[i + 2 + k] == body[k] by {
        assert(t[i + 2 + k] == raw[2 + k]);
    }
    assert(t[i + 2 + body.len()] == raw[body.len() as int + 2]);
    lemma_index_of(t, '}', i + 2);
    let close = index_of(t, '}', i + 2);
    if close < i + 2 + body.len() {
        assert(t[close] == body[close - i - 2]);
    }
    assert(body_of(t, extent_at(t, i)) =~= body);
}

/// Where no `}` lies at or after `i`, no placeholder starts at or after `i - 2`.
pub proof fn lemma_unclosed_has_none(t: Seq<char>, i: int, p: int)
    requires
        0 <= i <= t.len(),
        index_of(t, '}', i) == t.len(),
        0 <= p,
        i <= p + 2,
    ensures
        placeholders_from(t, p) == Seq::<Extent>::empty(),
    decreases t.len() - p,
{
    if p < t.len() {
        if p + 2 <= t.len() {
            lemma_index_of(t, '}', i);
            lemma_index_of(t, '}', p + 2);
        }
        lemma_unclosed_has_none(t, i, p + 1);
    }
}

/// The placeholders found from `i` on are placeholders, lie at or after `i`
/// inside the template, and follow one another without overlap.
pub proof fn lemma_placeholders_in_order(t: Seq<char>, i: int)
    requires
        0 <= i,
    ensures
        forall|k: int|
            0 <= k < placeholders_from(t, i).len() ==> {
                let e = #[trigger] placeholders_from(t, i)[k];
                &&& opens_at(t, e.start)
                &&& e == extent_at(t, e.start)
                &&& i <= e.start
                &&& e.start + 4 <= e.end <= t.len()
            },
        forall|k: int, l: int|
            0 <= k < l < placeholders_from(t, i).len() ==> (#[trigger] placeholders_from(
                t,
                i,
            )[k]).end <= (#[trigger] placeholders_from(t, i)[l]).start,
    decreases t.len() - i,
{
    if i < t.len() {
        if opens_at(t, i) {
            let e = extent_at(t, i);
            lemma_index_of(t, '}', i + 2);
            lemma_placeholders_in_order(t, e.end);
            assert(placeholders_from(t, i) =~= seq![e] + placeholders_from(t, e.end));
        } else {
            lemma_placeholders_in_order(t, i + 1);
            assert(placeholders_from(t, i) == placeholders_from(t, i + 1));
        }
    }
}

/// No placeholder is passed over: wherever one could start at or after `i`,
/// that position lies inside one of the placeholders found from `i` on.
pub proof fn lemma_placeholders_leftmost(t: Seq<char>, i: int, p: int)
    requires
        0 <= i <= p,
        opens_at(t, p),
    ensures
        exists|k: int|
            0 <= k < placeholders_from(t, i).len() && (#[trigger] placeholders_from(
                t,
                i,
            )[k]).start <= p < placeholders_from(t, i)[k].end,
    decreases t.len() - i,
{
    if opens_at(t, i) {
        let e = extent_at(t, i);
        lemma_index_of(t, '}', i + 2);
        let rest = placeholders_from(t, e.end);
        if p < e.end {
            assert(placeholders_from(t, i)[0] == e);
        } else {
            lemma_placeholders_leftmost(t, e.end, p);
            let k = choose|k: int|
                0 <= k < rest.len() && (#[trigger] rest[k]).start <= p < rest[k].end;
            assert(placeholders_from(t, i)[k + 1] == rest[k]);
        }
    } else {
        lemma_placeholders_leftmost(t, i + 1, p);
        let rest = placeholders_from(t, i + 1);
        let k = choose|k: int| 0 <= k < rest.len() && (#[trigger] rest[k]).start <= p < rest[k].end;
        assert(placeholders_from(t, i)[k] == rest[k]);
    }
}

/// The index of the first `c` in `t` at or after `from`, or `t.len()`.
pub fn find_char(t: &Vec<char>, c: char, from: usize) -> (j: usize)
    requires
        from <= t.len(),
    ensures
        j == index_of(t@, c, from as int),
{
    let mut j: usize = from;
    while j < t.len() && t[j] != c
        invariant
            from <= j <= t.len(),
            index_of(t@, c, from as int) == index_of(t@, c, j as int),
        decreases t.len() - j,
    {
        j += 1;
    }
    j
}

/// Finds the placeholders of `t`, from left to right.
pub fn scan_chars(t: &Vec<char>) -> (v: Vec<Span>)
    ensures
        extents(v@) == placeholders(t@),
{
    let n = t.len();
    let mut v: Vec<Span> = Vec::new();
    let mut i: usize = 0;
    while i < n
        invariant
            i <= n,
            n == t.len(),
            placeholders(t@) == extents(v@) + placeholders_from(t@, i as int),
        decreases n - i,
    {
        if n - i >= 4 && t[i] == '$' && t[i + 1] == '{' && t[i + 2] != '}' {
            let j = find_char(t, '}', i + 2);
            proof {
                lemma_index_of(t@, '}', i + 2);
            }
            if j < n {
                let span = Span { start: i, end: j + 1 };
                v.push(span);
                i = j + 1;
            } else {
                proof {
                    lemma_unclosed_has_none(t@, i + 2, i as int);
                    lemma_unclosed_has_none(t@, i + 2, n as int);
                }
                i = n;
            }
        } else {
            i += 1;
        }
    }
    v
}

/// Finds the placeholders of `template`, from left to right, as character
/// ranges.
pub fn scan(template: &str) -> (v: Vec<Span>)
    ensures
        extents(v@) == placeholders(template@),
{
    let chars = chars_of(template);
    scan_chars(&chars)
}

} // verus!
