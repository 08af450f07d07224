use vstd::prelude::*;

use crate::header::{lower, lower_byte, skip_spaces, skip_spaces_exec};

verus! {

/// What a level-3 section heading inside a release names: one of the three
/// known change categories, or none of them.
#[derive(Clone, Copy, Debug, PartialEq, Eq, Structural)]
pub enum SectionKind {
    Added,
    Changed,
    Fixed,
    /// A syntactically valid section heading outside the category vocabulary.
    Unrecognized,
}

/// The word "added" in any case at `i`, followed only by spaces.
pub open spec fn added_word_at(t: Seq<u8>, i: int) -> bool {
    &&& 0 <= i
    &&& t.len() - i >= 5
    &&& lower(t[i]) == 97
    &&& lower(t[i + 1]) == 100
    &&& lower(t[i + 2]) == 100
    &&& lower(t[i + 3]) == 101
    &&& lower(t[i + 4]) == 100
    &&& skip_spaces(t, i + 5) == t.len()
}

/// The word "changed" in any case at `i`, followed only by spaces.
pub open spec fn changed_word_at(t: Seq<u8>, i: int) -> bool {
    &&& 0 <= i
    &&& t.len() - i >= 7
    &&& lower(t[i]) == 99
    &&& lower(t[i + 1]) == 104
    &&& lower(t[i + 2]) == 97
    &&& lower(t[i + 3]) == 110
    &&& lower(t[i + 4]) == 103
    &&& lower(t[i + 5]) == 101
    &&& lower(t[i + 6]) == 100
    &&& skip_spaces(t, i + 7) == t.len()
}

/// The word "fixed" in any case at `i`, followed only by spaces.
pub open spec fn fixed_word_at(t: Seq<u8>, i: int) -> bool {
    &&& 0 <= i
    &&& t.len() - i >= 5
    &&& lower(t[i]) == 102
    &&& lower(t[i + 1]) == 105
    &&& lower(t[i + 2]) == 120
    &&& lower(t[i + 3]) == 101
    &&& lower(t[i + 4]) == 100
    &&& skip_spaces(t, i + 5) == t.len()
}

/// Which category a level-3 heading's text names: a case-insensitive exact
/// match against the section vocabulary, spaces around the word allowed;
/// every other text is `Unrecognized`.
pub open spec fn classify_spec(t: Seq<u8>) -> SectionKind {
    let i = skip_spaces(t, 0);
    if added_word_at(t, i) {
        SectionKind::Added
    } else if changed_word_at(t, i) {
        SectionKind::Changed
    } else if fixed_word_at(t, i) {
        SectionKind::Fixed
    } else {
        SectionKind::Unrecognized
    }
}

/// Maps a level-3 section heading's text to its change category. Total: an
/// unrecognized section name is a valid outcome, not an error.
pub fn classify(t: &Vec<u8>) -> (k: SectionKind)
    ensures
        k == classify_spec(t@),
{
    let i = skip_spaces_exec(t, 0);
    if t.len() - i >= 5 && lower_byte(t[i]) == 97 && lower_byte(t[i + 1]) == 100 && lower_byte(
        t[i + 2],
    ) == 100 && lower_byte(t[i + 3]) == 101 && lower_byte(t[i + 4]) == 100 && skip_spaces_exec(
        t,
        i + 5,
    ) == t.len() {
        SectionKind::Added
    } else if t.len() - i >= 7 && lower_byte(t[i]) == 99 && lower_byte(t[i + 1]) == 104
        && lower_byte(t[i + 2]) == 97 && lower_byte(t[i + 3]) == 110 && lower_byte(t[i + 4]) == 103
        && lower_byte(t[i + 5]) == 101 && lower_byte(t[i + 6]) == 100 && skip_spaces_exec(t, i + 7)
        == t.len() {
        SectionKind::Changed
    } else if t.len() - i >= 5 && lower_byte(t[i]) == 102 && lower_byte(t[i + 1]) == 105
        && lower_byte(t[i + 2]) == 120 && lower_byte(t[i + 3]) == 101 && lower_byte(t[i + 4])
        == 100 && skip_spaces_exec(t, i + 5) == t.len() {
        SectionKind::Fixed
    } else {
        SectionKind::Unrecognized
    }
}

} // verus!
