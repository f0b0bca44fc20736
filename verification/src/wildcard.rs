//! File names with wildcards.

use crate::text::texts;
use crate::window::selected_items;
use vstd::prelude::*;
use wildmatch::WildMatch;

verus! {

/// Whether the pattern matches the whole name: `?` stands for any one
/// character, `*` for any number of characters, none included, and every
/// other character for itself.
pub open spec fn wild_match(pattern: Seq<char>, name: Seq<char>) -> bool
    decreases pattern.len() + name.len(),
{
    if pattern.len() == 0 {
        name.len() == 0
    } else if pattern[0] == '*' {
        wild_match(pattern.skip(1), name) || (name.len() > 0 && wild_match(pattern, name.skip(1)))
    } else {
        name.len() > 0 && (pattern[0] == '?' || pattern[0] == name[0]) && wild_match(
            pattern.skip(1),
            name.skip(1),
        )
    }
}

/// The text holds a wildcard character.
pub open spec fn is_wildcard(text: Seq<char>) -> bool {
    text.contains('*') || text.contains('?')
}

/// Whether the text holds `*` or `?`.
pub fn has_wildcard(text: &str) -> (b: bool)
    ensures
        b == is_wildcard(text@),
{
    let mut found = false;
    for c in it: text.chars()
        invariant
            it.seq() == text@,
            found == (exists|j: int| 0 <= j < it.index() && (text@[j] == '*' || text@[j] == '?')),
    {
        if c == '*' || c == '?' {
            found = true;
        }
    }
    found
}

/// `wildmatch::WildMatch::new` takes a pattern in which `*` and `?` are the
/// wildcards and nothing escapes them; `matches` says whether the pattern
/// matches the whole of the name, comparing the other characters as they
/// are.
#[verifier::external_body]
fn wildcard_matches(pattern: &str, name: &str) -> (b: bool)
    ensures
        b == wild_match(pattern@, name@),
{
    WildMatch::new(pattern).matches(name)
}

/// A file found in a directory: its name in the directory and its path.
pub struct Candidate {
    pub file_name: String,
    pub path: String,
}

/// The path of each candidate.
pub open spec fn candidate_paths(candidates: Seq<Candidate>) -> Seq<Seq<char>> {
    Seq::new(candidates.len(), |i: int| candidates[i].path@)
}

/// For each candidate, whether the pattern matches its file name.
pub open spec fn candidate_marks(pattern: Seq<char>, candidates: Seq<Candidate>) -> Seq<bool> {
    Seq::new(candidates.len(), |i: int| wild_match(pattern, candidates[i].file_name@))
}

/// The paths of the candidates whose file name the pattern matches, in the
/// order of the candidates.
pub fn matching_paths(pattern: &str, candidates: &Vec<Candidate>) -> (paths: Vec<String>)
    ensures
        texts(paths@) == selected_items(
            candidate_paths(candidates@),
            candidate_marks(pattern@, candidates@),
            candidates@.len() as int,
        ),
{
    let mut paths: Vec<String> = Vec::new();
    let mut i: usize = 0;
    assert(texts(paths@) =~= Seq::<Seq<char>>::empty());
    while i < candidates.len()
        invariant
            i <= candidates.len(),
            texts(paths@) == selected_items(
                candidate_paths(candidates@),
                candidate_marks(pattern@, candidates@),
                i as int,
            ),
        decreases candidates.len() - i,
    {
        let ghost sofar = texts(paths@);
        if wildcard_matches(pattern, candidates[i].file_name.as_str()) {
            paths.push(candidates[i].path.clone());
            assert(texts(paths@) =~= sofar.push(candidates@[i as int].path@));
        }
        i = i + 1;
    }
    paths
}

} // verus!
