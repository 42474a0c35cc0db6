//! Expanding a template: every placeholder gives way to the text it asks
//! for, and the text around the placeholders is kept.

use vstd::prelude::*;
use crate::clock::{clock_fill, clock_text, local_now, Instant};
use crate::directive::{
    argument_of, classify_chars, is_clock_kind, is_random_kind, kind_of, lemma_clock_with_pattern,
    lemma_rand_with_argument, meaning, Directive, Meaning, DEFAULT_LENGTH,
};
use crate::number::parse_decimal;
use crate::random::{all_alphanumeric, random_string};
use crate::template::{
    body_of, extent_at, extents, lemma_index_of, lemma_placeholders_in_order, opens_at,
    placeholders, raw_of, scan_chars, Extent, Span,
};
use crate::text::{chars_of, string_of};

verus! {

/// The texts that a list of strings holds.
pub open spec fn texts(v: Seq<String>) -> Seq<Seq<char>> {
    v.map_values(|s: String| s@)
}

/// Where the text before the `k`-th placeholder begins: at the start of the
/// template, or behind the placeholder before.
pub open spec fn prior_end(spans: Seq<Extent>, k: int) -> int {
    if k <= 0 {
        0
    } else {
        spans[k - 1].end
    }
}

/// The output up to and with the fill of the first `k` placeholders: the text
/// before each placeholder, then the fill that takes the placeholder's place.
pub open spec fn spliced_upto(
    t: Seq<char>,
    spans: Seq<Extent>,
    fills: Seq<Seq<char>>,
    k: int,
) -> Seq<char>
    decreases k,
{
    if k <= 0 {
        Seq::empty()
    } else {
        spliced_upto(t, spans, fills, k - 1) + t.subrange(
            prior_end(spans, k - 1),
            spans[k - 1].start,
        ) + fills[k - 1]
    }
}

/// The template `t` with `fills[k]` in the place of `spans[k]`, for every `k`.
pub open spec fn spliced(t: Seq<char>, spans: Seq<Extent>, fills: Seq<Seq<char>>) -> Seq<char> {
    spliced_upto(t, spans, fills, spans.len() as int) + t.subrange(
        prior_end(spans, spans.len() as int),
        t.len() as int,
    )
}

/// The template `t` with its `k`-th placeholder replaced by `fills[k]`.
pub open spec fn substituted(t: Seq<char>, fills: Seq<Seq<char>>) -> Seq<char> {
    spliced(t, placeholders(t), fills)
}

/// Whether `fill` is what a clock placeholder written as `raw` gives way to
/// at some instant: the time written after `pattern`, or `raw` itself where
/// the pattern is rejected.
pub open spec fn is_clock_fill(pattern: Seq<char>, raw: Seq<char>, fill: Seq<char>) -> bool {
    exists|at: Instant| fill == #[trigger] clock_fill(at, pattern, raw)
}

/// Whether `fill` may stand for the placeholder at `e`: the time at some
/// instant written after the pattern (the placeholder itself where the
/// pattern is rejected), letters and digits of the length asked for, or the
/// placeholder as it is written.
pub open spec fn admissible(t: Seq<char>, e: Extent, fill: Seq<char>) -> bool {
    match meaning(body_of(t, e)) {
        Meaning::Clock(pattern) => is_clock_fill(pattern, raw_of(t, e), fill),
        Meaning::Random(length) => fill.len() == length && all_alphanumeric(fill),
        Meaning::Verbatim => fill == raw_of(t, e),
    }
}

/// Whether `fills` holds one admissible fill for each placeholder of `t`.
pub open spec fn fits(t: Seq<char>, fills: Seq<Seq<char>>) -> bool {
    &&& fills.len() == placeholders(t).len()
    &&& forall|k: int| 0 <= k < fills.len() ==> admissible(t, placeholders(t)[k], #[trigger] fills[k])
}

/// Whether `out` is an expansion of `t`: `t` with an admissible fill in the
/// place of each placeholder.
pub open spec fn is_expansion(t: Seq<char>, out: Seq<char>) -> bool {
    exists|fills: Seq<Seq<char>>| fits(t, fills) && out == #[trigger] substituted(t, fills)
}

/// Appends `t[from..to]` to `out`.
fn push_range(out: &mut String, t: &Vec<char>, from: usize, to: usize)
    requires
        from <= to <= t.len(),
    ensures
        final(out)@ == old(out)@ + t@.subrange(from as int, to as int),
{
    let mut i: usize = from;
    while i < to
        invariant
            from <= i <= to <= t.len(),
            out@ == old(out)@ + t@.subrange(from as int, i as int),
        decreases to - i,
    {
        out.push(t[i]);
        i += 1;
    }
}

/// Puts `fills[k]` in the place of `spans[k]`, for every `k`.
fn splice_chars(t: &Vec<char>, spans: &Vec<Span>, fills: &Vec<String>) -> (out: String)
    requires
        extents(spans@) == placeholders(t@),
        fills.len() == spans.len(),
    ensures
        out@ == substituted(t@, texts(fills@)),
{
    let mut out = String::new();
    let mut at: usize = 0;
    let mut k: usize = 0;
    while k < spans.len()
        invariant
            k <= spans.len() == fills.len(),
            extents(spans@) == placeholders(t@),
            at == prior_end(placeholders(t@), k as int),
            at <= t.len(),
            out@ == spliced_upto(t@, placeholders(t@), texts(fills@), k as int),
        decreases spans.len() - k,
    {
        let span = spans[k];
        proof {
            lemma_placeholders_in_order(t@, 0);
            if k > 0 {
                assert(placeholders(t@)[k - 1].end <= placeholders(t@)[k as int].start);
            }
        }
        push_range(&mut out, t, at, span.start);
        out.append(fills[k].as_str());
        at = span.end;
        k += 1;
    }
    push_range(&mut out, t, at, t.len());
    out
}

/// The template with `fills[k]` in the place of its `k`-th placeholder, or
/// nothing where the number of fills is not the number of placeholders.
pub fn substitute(template: &str, fills: &Vec<String>) -> (r: Option<String>)
    ensures
        r is Some <==> fills.len() == placeholders(template@).len(),
        r matches Some(out) ==> out@ == substituted(template@, texts(fills@)),
{
    let t = chars_of(template);
    let spans = scan_chars(&t);
    if spans.len() == fills.len() {
        Some(splice_chars(&t, &spans, fills))
    } else {
        None
    }
}

/// The text that takes the place of the placeholder at `span`: the local time,
/// random letters and digits, or the placeholder itself.
fn fill_for(t: &Vec<char>, span: Span) -> (fill: String)
    requires
        opens_at(t@, span@.start),
        span@ == extent_at(t@, span@.start),
    ensures
        admissible(t@, span@, fill@),
{
    proof {
        lemma_index_of(t@, '}', span@.start + 2);
    }
    match classify_chars(t, span.start + 2, span.end - 1) {
        Directive::Clock(pattern) => {
            let at = local_now();
            clock_text(&at, pattern.as_str(), string_of(t, span.start, span.end))
        },
        Directive::Random(length) => random_string(length),
        Directive::Verbatim => string_of(t, span.start, span.end),
    }
}

/// Expands a template. Each `${time:PATTERN}` and `${date:PATTERN}` gives
/// way to the local time written after the pattern, each `${rand:N}` to `N`
/// random letters and digits (sixteen where `N` is missing or no number);
/// every other placeholder, and a clock placeholder whose pattern is
/// rejected, stays as it is written, as does the text between placeholders.
pub fn format_string(input: &str) -> (out: String)
    ensures
        is_expansion(input@, out@),
{
    let t = chars_of(input);
    let spans = scan_chars(&t);
    let mut fills: Vec<String> = Vec::new();
    let mut k: usize = 0;
    while k < spans.len()
        invariant
            k <= spans.len(),
            fills.len() == k,
            extents(spans@) == placeholders(t@),
            forall|j: int| 0 <= j < k ==> admissible(t@, placeholders(t@)[j], (#[trigger] fills@[j])@),
        decreases spans.len() - k,
    {
        let span = spans[k];
        proof {
            lemma_placeholders_in_order(t@, 0);
            assert(span@ == extents(spans@)[k as int]);
        }
        let fill = fill_for(&t, span);
        fills.push(fill);
        k += 1;
    }
    let out = splice_chars(&t, &spans, &fills);
    proof {
        let f = texts(fills@);
        assert forall|j: int| 0 <= j < f.len() implies admissible(
            t@,
            placeholders(t@)[j],
            #[trigger] f[j],
        ) by {}
    }
    out
}

/// With one placeholder, the expansion is the text before it, its fill, and
/// the text behind it.
pub proof fn lemma_single_placeholder(t: Seq<char>, fills: Seq<Seq<char>>)
    requires
        placeholders(t).len() == 1,
    ensures
        substituted(t, fills) == t.subrange(0, placeholders(t)[0].start) + fills[0] + t.subrange(
            placeholders(t)[0].end,
            t.len() as int,
        ),
{
    reveal_with_fuel(spliced_upto, 2);
}

/// Where each of the first `k` placeholders is filled with its own text, the
/// output up to the `k`-th is the template up to there.
proof fn lemma_verbatim_upto(t: Seq<char>, fills: Seq<Seq<char>>, k: int)
    requires
        0 <= k <= placeholders(t).len(),
        forall|j: int| 0 <= j < k ==> #[trigger] fills[j] == raw_of(t, placeholders(t)[j]),
    ensures
        0 <= prior_end(placeholders(t), k) <= t.len(),
        spliced_upto(t, placeholders(t), fills, k) == t.subrange(
            0,
            prior_end(placeholders(t), k),
        ),
    decreases k,
{
    lemma_placeholders_in_order(t, 0);
    if k > 0 {
        lemma_verbatim_upto(t, fills, k - 1);
    }
}

/// A template whose placeholders all ask for nothing expands to itself.
pub proof fn lemma_verbatim_expansion(t: Seq<char>, out: Seq<char>)
    requires
        is_expansion(t, out),
        forall|k: int|
            0 <= k < placeholders(t).len() ==> meaning(
                body_of(t, #[trigger] placeholders(t)[k]),
            ) is Verbatim,
    ensures
        out == t,
{
    let fills = choose|fills: Seq<Seq<char>>|
        fits(t, fills) && out == #[trigger] substituted(t, fills);
    let found = placeholders(t);
    assert forall|j: int| 0 <= j < found.len() implies #[trigger] fills[j] == raw_of(
        t,
        found[j],
    ) by {}
    lemma_verbatim_upto(t, fills, found.len() as int);
}

/// A template without placeholders expands to itself.
pub proof fn lemma_plain_expansion(t: Seq<char>, out: Seq<char>)
    requires
        is_expansion(t, out),
        placeholders(t).len() == 0,
    ensures
        out == t,
{
    lemma_verbatim_expansion(t, out);
}

/// Where the one placeholder of a template asks for `length` random
/// characters, the expansion is as long as the template without the
/// placeholder and `length` more; it holds the text before the placeholder,
/// then `length` letters and digits, then the text behind the placeholder.
pub proof fn lemma_random_expansion(t: Seq<char>, out: Seq<char>, length: nat)
    requires
        is_expansion(t, out),
        placeholders(t).len() == 1,
        meaning(body_of(t, placeholders(t)[0])) == Meaning::Random(length),
    ensures
        out.len() == t.len() - (placeholders(t)[0].end - placeholders(t)[0].start) + length,
        out.subrange(0, placeholders(t)[0].start) == t.subrange(0, placeholders(t)[0].start),
        all_alphanumeric(
            out.subrange(placeholders(t)[0].start, placeholders(t)[0].start + length),
        ),
        out.subrange(placeholders(t)[0].start + length, out.len() as int) == t.subrange(
            placeholders(t)[0].end,
            t.len() as int,
        ),
{
    let fills = choose|fills: Seq<Seq<char>>|
        fits(t, fills) && out == #[trigger] substituted(t, fills);
    lemma_placeholders_in_order(t, 0);
    lemma_single_placeholder(t, fills);
}

/// Where the one placeholder of a template asks for the clock, the expansion
/// holds, between the text before and behind the placeholder, the time at
/// some instant written after the pattern, or the placeholder itself where
/// the pattern is rejected.
pub proof fn lemma_clock_expansion(t: Seq<char>, out: Seq<char>, pattern: Seq<char>)
    requires
        is_expansion(t, out),
        placeholders(t).len() == 1,
        meaning(body_of(t, placeholders(t)[0])) == Meaning::Clock(pattern),
    ensures
        exists|at: Instant|
            out == t.subrange(0, placeholders(t)[0].start) + #[trigger] clock_fill(
                at,
                pattern,
                raw_of(t, placeholders(t)[0]),
            ) + t.subrange(placeholders(t)[0].end, t.len() as int),
{
    let fills = choose|fills: Seq<Seq<char>>|
        fits(t, fills) && out == #[trigger] substituted(t, fills);
    let e = placeholders(t)[0];
    lemma_single_placeholder(t, fills);
    let at = choose|at: Instant| fills[0] == #[trigger] clock_fill(at, pattern, raw_of(t, e));
    assert(out == t.subrange(0, e.start) + clock_fill(at, pattern, raw_of(t, e)) + t.subrange(
        e.end,
        t.len() as int,
    ));
}

/// A template whose placeholders all have a kind other than `rand`, `time`
/// and `date` expands to itself.
pub proof fn lemma_unrecognized_kept(t: Seq<char>, out: Seq<char>)
    requires
        is_expansion(t, out),
        forall|k: int|
            0 <= k < placeholders(t).len() ==> {
                let kind = kind_of(body_of(t, #[trigger] placeholders(t)[k]));
                !is_random_kind(kind) && !is_clock_kind(kind)
            },
    ensures
        out == t,
{
    lemma_verbatim_expansion(t, out);
}

/// A template whose one placeholder is `${rand:N}`, with `N` the numeral of
/// `n`, expands to a text as long as the template without the placeholder and
/// `n` more, in which `n` letters and digits stand where the placeholder
/// stood.
pub proof fn lemma_rand_length(t: Seq<char>, out: Seq<char>, argument: Seq<char>, n: nat)
    requires
        is_expansion(t, out),
        placeholders(t).len() == 1,
        body_of(t, placeholders(t)[0]) == seq!['r', 'a', 'n', 'd', ':'] + argument,
        parse_decimal(argument) == Some(n),
    ensures
        out.len() == t.len() - (placeholders(t)[0].end - placeholders(t)[0].start) + n,
        all_alphanumeric(out.subrange(placeholders(t)[0].start, placeholders(t)[0].start + n)),
{
    lemma_rand_with_argument(argument);
    lemma_random_expansion(t, out, n);
}

/// A template whose one placeholder has the kind `rand` and no argument, or
/// one that denotes no number, expands as if it asked for sixteen characters.
pub proof fn lemma_rand_default(t: Seq<char>, out: Seq<char>)
    requires
        is_expansion(t, out),
        placeholders(t).len() == 1,
        is_random_kind(kind_of(body_of(t, placeholders(t)[0]))),
        parse_decimal(argument_of(body_of(t, placeholders(t)[0]))) is None,
    ensures
        out.len() == t.len() - (placeholders(t)[0].end - placeholders(t)[0].start) + 16,
        all_alphanumeric(out.subrange(placeholders(t)[0].start, placeholders(t)[0].start + 16)),
{
    lemma_random_expansion(t, out, DEFAULT_LENGTH as nat);
}

/// A template whose one placeholder is `${time:PATTERN}` or
/// `${date:PATTERN}` expands to the text before the placeholder, the time at
/// some instant written after the pattern (the placeholder itself where the
/// pattern is rejected), and the text behind the placeholder.
pub proof fn lemma_time_or_date(t: Seq<char>, out: Seq<char>, pattern: Seq<char>)
    requires
        is_expansion(t, out),
        placeholders(t).len() == 1,
        body_of(t, placeholders(t)[0]) == seq!['t', 'i', 'm', 'e', ':'] + pattern || body_of(
            t,
            placeholders(t)[0],
        ) == seq!['d', 'a', 't', 'e', ':'] + pattern,
    ensures
        exists|at: Instant|
            out == t.subrange(0, placeholders(t)[0].start) + #[trigger] clock_fill(
                at,
                pattern,
                raw_of(t, placeholders(t)[0]),
            ) + t.subrange(placeholders(t)[0].end, t.len() as int),
{
    lemma_clock_with_pattern(pattern);
    lemma_clock_expansion(t, out, pattern);
}

} // verus!
