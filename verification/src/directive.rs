//! What a placeholder asks for, read from the text between its braces.
//!
//! The body is split at its first `:` into a kind and an argument. `time` and
//! `date` take a format pattern, `rand` takes a length; every other body, and
//! a `time` or `date` without an argument, asks for nothing and stands for
//! itself.

use vstd::prelude::*;
use crate::number::{parse_decimal, parse_usize};
use crate::template::{find_char, index_of, lemma_index_of};
use crate::text::{chars_of, string_of};

verus! {

/// The length of a random string whose placeholder names none that can be read.
pub const DEFAULT_LENGTH: usize = 16;

/// What a placeholder asks for.
pub enum Meaning {
    /// The local time, written after the format pattern.
    Clock(Seq<char>),
    /// That many random letters and digits.
    Random(nat),
    /// Nothing: the placeholder is kept as it is written.
    Verbatim,
}

/// The kind of a body: what stands before its first `:`.
pub open spec fn kind_of(body: Seq<char>) -> Seq<char> {
    body.take(index_of(body, ':', 0))
}

/// Whether a body holds a `:` and with it an argument.
pub open spec fn has_argument(body: Seq<char>) -> bool {
    index_of(body, ':', 0) < body.len()
}

/// The argument of a body: what stands behind its first `:`, or nothing where
/// it holds none.
pub open spec fn argument_of(body: Seq<char>) -> Seq<char> {
    if has_argument(body) {
        body.skip(index_of(body, ':', 0) + 1)
    } else {
        Seq::empty()
    }
}

/// Whether `kind` is the kind `rand`.
pub open spec fn is_random_kind(kind: Seq<char>) -> bool {
    kind == seq!['r', 'a', 'n', 'd']
}

/// Whether `kind` is one of the kinds `time` and `date`.
pub open spec fn is_clock_kind(kind: Seq<char>) -> bool {
    kind == seq!['t', 'i', 'm', 'e'] || kind == seq!['d', 'a', 't', 'e']
}

/// What the placeholder with the given body asks for.
pub open spec fn meaning(body: Seq<char>) -> Meaning {
    let kind = kind_of(body);
    if is_random_kind(kind) {
        match parse_decimal(argument_of(body)) {
            Some(n) => Meaning::Random(n),
            None => Meaning::Random(DEFAULT_LENGTH as nat),
        }
    } else if is_clock_kind(kind) && has_argument(body) {
        Meaning::Clock(argument_of(body))
    } else {
        Meaning::Verbatim
    }
}

/// `rand` with an argument asks for as many characters as the argument
/// denotes, and for the default length where the argument denotes no number.
pub proof fn lemma_rand_with_argument(argument: Seq<char>)
    ensures
        meaning(seq!['r', 'a', 'n', 'd', ':'] + argument) == match parse_decimal(argument) {
            Some(n) => Meaning::Random(n),
            None => Meaning::Random(DEFAULT_LENGTH as nat),
        },
{
    let body = seq!['r', 'a', 'n', 'd', ':'] + argument;
    reveal_with_fuel(index_of, 5);
    assert(kind_of(body) =~= seq!['r', 'a', 'n', 'd']);
    assert(argument_of(body) =~= argument);
}

/// `rand` without an argument asks for the default length.
pub proof fn lemma_rand_alone()
    ensures
        meaning(seq!['r', 'a', 'n', 'd']) == Meaning::Random(DEFAULT_LENGTH as nat),
{
    let body = seq!['r', 'a', 'n', 'd'];
    reveal_with_fuel(index_of, 5);
    assert(kind_of(body) =~= body);
}

/// `time` and `date` with an argument ask for the clock, written after the
/// argument as it stands.
pub proof fn lemma_clock_with_pattern(pattern: Seq<char>)
    ensures
        meaning(seq!['t', 'i', 'm', 'e', ':'] + pattern) == Meaning::Clock(pattern),
        meaning(seq!['d', 'a', 't', 'e', ':'] + pattern) == Meaning::Clock(pattern),
{
    let time = seq!['t', 'i', 'm', 'e', ':'] + pattern;
    let date = seq!['d', 'a', 't', 'e', ':'] + pattern;
    reveal_with_fuel(index_of, 5);
    assert(kind_of(time) =~= seq!['t', 'i', 'm', 'e']);
    assert(kind_of(date) =~= seq!['d', 'a', 't', 'e']);
    assert(argument_of(time) =~= pattern);
    assert(argument_of(date) =~= pattern);
}

/// What a placeholder asks for, as read from a template.
#[derive(Debug, PartialEq, Eq)]
pub enum Directive {
    /// The local time, written after the format pattern.
    Clock(String),
    /// That many random letters and digits.
    Random(usize),
    /// Nothing: the placeholder is kept as it is written.
    Verbatim,
}

impl View for Directive {
    type V = Meaning;

    open spec fn view(&self) -> Meaning {
        match self {
            Directive::Clock(pattern) => Meaning::Clock(pattern@),
            Directive::Random(length) => Meaning::Random(*length as nat),
            Directive::Verbatim => Meaning::Verbatim,
        }
    }
}

/// Whether `chars[from..to]` spells the four letters given.
fn spells(chars: &Vec<char>, from: usize, to: usize, a: char, b: char, c: char, d: char) -> (r:
    bool)
    requires
        from <= to <= chars.len(),
    ensures
        r == (chars@.subrange(from as int, to as int) == seq![a, b, c, d]),
{
    let ghost s = chars@.subrange(from as int, to as int);
    if to - from != 4 {
        assert(seq![a, b, c, d].len() == 4);
        return false;
    }
    let r = chars[from] == a && chars[from + 1] == b && chars[from + 2] == c && chars[from + 3]
        == d;
    proof {
        if r {
            assert(s =~= seq![a, b, c, d]);
        }
    }
    r
}

/// Reads the body `chars[from..to]` of a placeholder.
pub fn classify_chars(chars: &Vec<char>, from: usize, to: usize) -> (d: Directive)
    requires
        from <= to <= chars.len(),
    ensures
        d@ == meaning(chars@.subrange(from as int, to as int)),
{
    let ghost body = chars@.subrange(from as int, to as int);
    let found = find_char(chars, ':', from);
    let colon = if found < to {
        found
    } else {
        to
    };
    proof {
        lemma_index_of(chars@, ':', from as int);
        lemma_index_of(body, ':', 0);
        if colon < to {
            assert(body[colon - from] == chars@[colon as int]);
        }
        assert forall|k: int| 0 <= k < colon - from implies body[k] != ':' by {}
        assert(kind_of(body) =~= chars@.subrange(from as int, colon as int));
        if colon < to {
            assert(argument_of(body) =~= chars@.subrange(colon + 1, to as int));
        }
    }
    if spells(chars, from, colon, 'r', 'a', 'n', 'd') {
        let parsed = if colon < to {
            parse_usize(chars, colon + 1, to)
        } else {
            parse_usize(chars, to, to)
        };
        match parsed {
            Some(n) => Directive::Random(n),
            None => Directive::Random(DEFAULT_LENGTH),
        }
    } else {
        let clock = spells(chars, from, colon, 't', 'i', 'm', 'e') || spells(
            chars,
            from,
            colon,
            'd',
            'a',
            't',
            'e',
        );
        if clock && colon < to {
            Directive::Clock(string_of(chars, colon + 1, to))
        } else {
            Directive::Verbatim
        }
    }
}

/// Reads the body of a placeholder: the text between `${` and `}`.
pub fn classify(body: &str) -> (d: Directive)
    ensures
        d@ == meaning(body@),
{
    let chars = chars_of(body);
    assert(chars@.subrange(0, chars@.len() as int) =~= chars@);
    classify_chars(&chars, 0, chars.len())
}

} // verus!
