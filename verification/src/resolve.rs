//! Resolving a collision: a name that is not taken yet, made of the wanted
//! name, an index in brackets and the extension, as in `report (3).csv`.
//!
//! Which index is chosen is decided by the search of [`crate::search`];
//! whether a name is taken is asked of the caller, one name at a time. An
//! answer holds for the moment at which it is given: a name that was
//! reported free may be taken by the time the caller uses it, and it is for
//! the caller to deal with that.

use vstd::prelude::*;
use crate::number::{decimal, decimal_string, lemma_decimal_denotes};
use crate::search::{
    lemma_resolved_is_free, lemma_step_keeps_outcome, outcome, resolved, Search, Step,
};

verus! {

/// The name with the index `index`: the base name, a space, the index in
/// brackets, and the extension.
pub open spec fn candidate(name: Seq<char>, index: int, ext: Seq<char>) -> Seq<char> {
    name + seq![' ', '('] + decimal(index as nat) + seq![')'] + ext
}

/// Whether `occupied` may give `answer` when asked for the name `text`.
pub open spec fn answers<F: Fn(&str) -> bool>(occupied: F, text: Seq<char>, answer: bool) -> bool {
    exists|s: &str| s@ == text && #[trigger] call_ensures(occupied, (s,), answer)
}

/// Whether `occupied` may be asked for every candidate of `name` and `ext`.
pub open spec fn asks_candidates<F: Fn(&str) -> bool>(
    occupied: F,
    name: Seq<char>,
    ext: Seq<char>,
) -> bool {
    forall|s: &str, i: int|
        1 <= i <= u64::MAX && s@ == #[trigger] candidate(name, i, ext) ==> #[trigger] call_requires(
            occupied,
            (s,),
        )
}

/// Whether `occupied` answers as a directory that holds exactly the names
/// in `names`: a name is reported taken if and only if it is in `names`.
pub open spec fn mirrors<F: Fn(&str) -> bool>(occupied: F, names: Set<Seq<char>>) -> bool {
    forall|text: Seq<char>, answer: bool| #[trigger]
        answers(occupied, text, answer) ==> answer == names.contains(text)
}

/// The indices whose candidates for `name` and `ext` are among `names`.
pub open spec fn taken_indices(names: Set<Seq<char>>, name: Seq<char>, ext: Seq<char>) -> Set<
    int,
> {
    Set::new(|i: int| names.contains(candidate(name, i, ext)))
}

/// The candidate that is chosen for `name` and `ext` in a directory that
/// holds `names`: the one with the index that the search settles on, or
/// nothing where the search gives up.
pub open spec fn resolved_name(names: Set<Seq<char>>, name: Seq<char>, ext: Seq<char>) -> Option<
    Seq<char>,
> {
    match resolved(taken_indices(names, name, ext)) {
        Some(i) => Some(candidate(name, i, ext)),
        None => None,
    }
}

/// The candidate that is chosen in a directory is not among its names.
pub proof fn lemma_resolved_name_is_free(names: Set<Seq<char>>, name: Seq<char>, ext: Seq<char>)
    ensures
        resolved_name(names, name, ext) matches Some(text) ==> !names.contains(text),
{
    lemma_resolved_is_free(taken_indices(names, name, ext));
}

/// Candidates with different indices are different names.
pub proof fn lemma_candidates_differ(name: Seq<char>, ext: Seq<char>, i: int, j: int)
    requires
        0 <= i,
        0 <= j,
        i != j,
    ensures
        candidate(name, i, ext) != candidate(name, j, ext),
{
    let a = candidate(name, i, ext);
    let b = candidate(name, j, ext);
    let di = decimal(i as nat);
    let dj = decimal(j as nat);
    lemma_decimal_denotes(i as nat);
    lemma_decimal_denotes(j as nat);
    if a == b {
        assert(a.len() == name.len() + 2 + di.len() + 1 + ext.len());
        assert(b.len() == name.len() + 2 + dj.len() + 1 + ext.len());
        assert forall|k: int| 0 <= k < di.len() implies di[k] == dj[k] by {
            assert(a[name.len() + 2 + k] == di[k]);
            assert(b[name.len() + 2 + k] == dj[k]);
        }
        assert(di =~= dj);
    }
}

/// Writes the name with the index `index`.
pub fn candidate_name(name: &str, index: u64, ext: &str) -> (out: String)
    ensures
        out@ == candidate(name@, index as int, ext@),
{
    let mut out = String::new();
    out.append(name);
    out.push(' ');
    out.push('(');
    out.append(decimal_string(index).as_str());
    out.push(')');
    out.append(ext);
    out
}

/// Finds a name for `name` and `ext` that `occupied` reports free, asking
/// `occupied` for one candidate after another as the search directs.
///
/// A name that is returned is a candidate for which `occupied` answered
/// `false`. Where `occupied` answers as a directory that holds a set of
/// names, the candidate returned is the one that is chosen in that directory,
/// and nothing is returned only where the search gives up.
pub fn get_name_iter<F: Fn(&str) -> bool>(name: &str, ext: &str, occupied: F) -> (r: Option<
    String,
>)
    requires
        asks_candidates(occupied, name@, ext@),
    ensures
        r matches Some(out) ==> exists|i: int|
            1 <= i <= u64::MAX && out@ == #[trigger] candidate(name@, i, ext@) && answers(
                occupied,
                out@,
                false,
            ),
        forall|names: Set<Seq<char>>| #[trigger]
            mirrors(occupied, names) ==> match resolved_name(names, name@, ext@) {
                Some(text) => r matches Some(out) && out@ == text,
                None => r is None,
            },
{
    let mut search = Search::new();
    loop
        invariant
            search.wf(),
            asks_candidates(occupied, name@, ext@),
            forall|names: Set<Seq<char>>| #[trigger]
                mirrors(occupied, names) ==> outcome(
                    search,
                    taken_indices(names, name@, ext@),
                ) == resolved(taken_indices(names, name@, ext@)),
        decreases search.questions_left(),
    {
        let index = search.probe();
        let text = candidate_name(name, index, ext);
        let answer = occupied(text.as_str());
        proof {
            assert(answers(occupied, text@, answer));
            assert forall|names: Set<Seq<char>>| #[trigger]
                mirrors(occupied, names) implies match search.next(answer) {
                Step::Ask(after) => outcome(after, taken_indices(names, name@, ext@)) == resolved(
                    taken_indices(names, name@, ext@),
                ),
                Step::Found(i) => resolved(taken_indices(names, name@, ext@)) == Some(i as int),
                Step::GiveUp => resolved(taken_indices(names, name@, ext@)) is None,
            } by {
                lemma_step_keeps_outcome(search, taken_indices(names, name@, ext@));
            }
        }
        match search.step(answer) {
            Step::Ask(after) => {
                search = after;
            },
            Step::Found(_) => {
                return Some(text);
            },
            Step::GiveUp => {
                return None;
            },
        }
    }
}

} // verus!
