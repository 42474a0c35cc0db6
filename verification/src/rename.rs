//! What to do with one entry: leave it, or rename it, and to which name.
//!
//! The caller looks at the file system: it tells whether the entry is a
//! directory and what its extension is, and answers whether a name is taken
//! in the entry's directory. The decisions are taken here.

use vstd::prelude::*;
use crate::expand::{format_string, is_expansion};
use crate::resolve::{
    answers, asks_candidates, candidate, get_name_iter, lemma_resolved_name_is_free, mirrors,
    resolved_name,
};

verus! {

/// What is known of an entry that is to be renamed.
#[derive(Debug, PartialEq, Eq)]
pub struct Entry {
    /// Whether the entry is a directory.
    pub is_directory: bool,
    /// The extension of the entry's name, without the dot, where it has one.
    pub extension: Option<String>,
}

/// What is to be done with an entry.
#[derive(Debug, PartialEq, Eq)]
pub enum Plan {
    /// The entry stays as it is: it is a directory, and directories are
    /// left alone.
    Leave,
    /// The entry gets this name, which was reported free.
    Rename(String),
    /// The entry cannot be renamed: no free name was found for it.
    Blocked,
}

/// What is kept behind the new name of an entry: nothing for a directory and
/// for a name without extension, else the dot and the extension.
pub open spec fn kept_suffix(is_directory: bool, extension: Option<Seq<char>>) -> Seq<char> {
    match extension {
        Some(e) if !is_directory => seq!['.'] + e,
        _ => Seq::empty(),
    }
}

impl Entry {
    /// The extension as a text, where there is one.
    pub open spec fn extension_text(&self) -> Option<Seq<char>> {
        match self.extension {
            Some(e) => Some(e@),
            None => None,
        }
    }

    /// What is kept behind the new name of the entry.
    pub open spec fn suffix(&self) -> Seq<char> {
        kept_suffix(self.is_directory, self.extension_text())
    }

    /// What is kept behind the new name of the entry: the dot and the
    /// extension of a file that has one, and nothing else.
    pub fn suffix_text(&self) -> (out: String)
        ensures
            out@ == self.suffix(),
    {
        let mut out = String::new();
        if !self.is_directory {
            if let Some(e) = &self.extension {
                out.push('.');
                out.append(e.as_str());
            }
        }
        out
    }
}

/// The name that is chosen for `base` and `ext` in a directory that holds
/// `names`: the two put together where that name is free, else the candidate
/// that the search settles on, or nothing where the search gives up.
pub open spec fn chosen_name(names: Set<Seq<char>>, base: Seq<char>, ext: Seq<char>) -> Option<
    Seq<char>,
> {
    if !names.contains(base + ext) {
        Some(base + ext)
    } else {
        resolved_name(names, base, ext)
    }
}

/// The name that is chosen in a directory is not among its names.
pub proof fn lemma_chosen_name_is_free(names: Set<Seq<char>>, base: Seq<char>, ext: Seq<char>)
    ensures
        chosen_name(names, base, ext) matches Some(text) ==> !names.contains(text),
{
    lemma_resolved_name_is_free(names, base, ext);
}

/// Chooses the name for an entry whose new base name is `base` and whose
/// extension is kept in `ext`: the two put together, or, where `occupied`
/// reports that name taken, a candidate with an index that it reports free.
pub fn target_name<F: Fn(&str) -> bool>(base: &str, ext: &str, occupied: F) -> (r: Option<
    String,
>)
    requires
        forall|s: &str| s@ == base@ + ext@ ==> call_requires(occupied, (s,)),
        asks_candidates(occupied, base@, ext@),
    ensures
        r matches Some(out) ==> answers(occupied, out@, false) && (out@ == base@ + ext@
            || exists|i: int|
            1 <= i <= u64::MAX && out@ == #[trigger] candidate(base@, i, ext@)),
        forall|names: Set<Seq<char>>| #[trigger]
            mirrors(occupied, names) ==> match chosen_name(names, base@, ext@) {
                Some(text) => r matches Some(out) && out@ == text,
                None => r is None,
            },
{
    let mut plain = String::new();
    plain.append(base);
    plain.append(ext);
    let answer = occupied(plain.as_str());
    assert(answers(occupied, plain@, answer));
    if !answer {
        Some(plain)
    } else {
        get_name_iter(base, ext, occupied)
    }
}

/// Whether `plan` carries out the choice `chosen`: a rename to the name
/// chosen, or a blocked entry where none was.
pub open spec fn plan_for(chosen: Option<Seq<char>>, plan: Plan) -> bool {
    match chosen {
        Some(text) => plan matches Plan::Rename(out) && out@ == text,
        None => plan is Blocked,
    }
}

/// Decides what to do with `entry`. A directory is left alone where
/// `ignore_folders` is set. Any other entry gets a new base name, expanded
/// from `template`, with the entry's extension behind it, and an index in
/// between where `occupied` reports the plain name taken.
pub fn plan_rename<F: Fn(&str) -> bool>(
    entry: &Entry,
    ignore_folders: bool,
    template: &str,
    occupied: F,
) -> (plan: Plan)
    requires
        forall|s: &str| call_requires(occupied, (s,)),
    ensures
        plan is Leave <==> entry.is_directory && ignore_folders,
        plan matches Plan::Rename(out) ==> answers(occupied, out@, false) && exists|
            base: Seq<char>,
        | #[trigger]
            is_expansion(template@, base) && (out@ == base + entry.suffix() || exists|i: int|
                1 <= i <= u64::MAX && out@ == #[trigger] candidate(base, i, entry.suffix())),
        !(entry.is_directory && ignore_folders) ==> exists|base: Seq<char>| #[trigger]
            is_expansion(template@, base) && forall|names: Set<Seq<char>>| #[trigger]
                mirrors(occupied, names) ==> plan_for(chosen_name(names, base, entry.suffix()), plan),
{
    if entry.is_directory && ignore_folders {
        return Plan::Leave;
    }
    let base = format_string(template);
    let ext = entry.suffix_text();
    match target_name(base.as_str(), ext.as_str(), occupied) {
        Some(out) => Plan::Rename(out),
        None => Plan::Blocked,
    }
}

} // verus!
