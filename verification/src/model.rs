//! The platform-independent document model: its integer and enumerated parts.
use vstd::prelude::*;

pub use crate::spreadsheet::{Cell, CellRange};

verus! {

/// The kind of document read.
#[derive(Debug, Clone, Copy, PartialEq, Eq, Structural)]
pub enum Kind {
    DOCX,
    PPTX,
    XLSX,
}

/// The kind of a positioned element.
#[derive(Debug, Clone, Copy, PartialEq, Eq, Structural, Default)]
pub enum ElementType {
    #[default]
    TEXT,
    IMAGE,
    RECT,
    ELLIPSE,
    LINE,
    TABLE,
    PATH,
}

/// Vertical placement of text in its box.
#[derive(Debug, Clone, Copy, PartialEq, Eq, Structural, Default)]
pub enum VerticalAlignment {
    #[default]
    Top,
    Center,
    Bottom,
}

/// How a paragraph's line spacing value is applied.
#[derive(Debug, Clone, Copy, PartialEq, Eq, Structural, Default)]
pub enum LineSpacingRule {
    #[default]
    Auto,
    Exact,
    AtLeast,
}

/// The cap on distinct warnings kept for one document.
pub const MAX_WARNINGS: usize = 100;

/// The texts of a list of strings.
pub open spec fn texts(v: Seq<String>) -> Seq<Seq<char>> {
    v.map_values(|w: String| w@)
}

/// A warning list after `message` is recorded: appended when it is new and
/// fewer than 100 are kept, otherwise unchanged.
pub open spec fn warned(before: Seq<Seq<char>>, message: Seq<char>) -> Seq<Seq<char>> {
    if before.len() < MAX_WARNINGS && !before.contains(message) {
        before.push(message)
    } else {
        before
    }
}

/// A list of at most 100 warnings, none repeated.
pub open spec fn warnings_wf(w: Seq<Seq<char>>) -> bool {
    &&& w.len() <= MAX_WARNINGS
    &&& forall|i: int, j: int| 0 <= i < j < w.len() ==> w[i] != w[j]
}

/// Recording a warning keeps the list within 100 distinct messages, and
/// the message is present afterwards unless the list was full.
pub proof fn law_warnings_stay_bounded(before: Seq<Seq<char>>, message: Seq<char>)
    requires
        warnings_wf(before),
    ensures
        warnings_wf(warned(before, message)),
        before.len() < MAX_WARNINGS ==> warned(before, message).contains(message),
        warned(warned(before, message), message) == warned(before, message),
{
    let after = warned(before, message);
    if before.len() < MAX_WARNINGS && !before.contains(message) {
        assert(after[before.len() as int] == message);
        assert forall|i: int, j: int| 0 <= i < j < after.len() implies after[i] != after[j] by {
            if j == before.len() {
                assert(after[i] == before[i]);
            }
        }
        assert(after.contains(message));
    }
}

/// Records a warning once: nothing happens when the message is already
/// present or when 100 warnings are kept.
pub fn warn(warnings: &mut Vec<String>, message: &str)
    ensures
        texts(final(warnings)@) == warned(texts(old(warnings)@), message@),
{
    if warnings.len() >= MAX_WARNINGS {
        return;
    }
    let ghost before = texts(warnings@);
    let mut i: usize = 0;
    while i < warnings.len()
        invariant
            i <= warnings@.len(),
            before == texts(warnings@),
            forall|j: int| 0 <= j < i ==> before[j] != message@,
        decreases warnings.len() - i,
    {
        if crate::text::str_eq(warnings[i].as_str(), message) {
            assert(before[i as int] == message@);
            return;
        }
        i = i + 1;
    }
    assert(!before.contains(message@));
    warnings.push(message.to_owned());
    assert(texts(warnings@) =~= before.push(message@));
}

} // verus!
