//! The markers in front of the lines of a tile's diff.
use vstd::prelude::*;

verus! {

/// How an object of a tile changed between two versions.
#[derive(Debug, Clone, Copy, PartialEq, Eq, Structural)]
pub enum LineKind {
    Kept,
    Added,
    Removed,
    Modified,
}

/// What goes in front of a line: nothing for an unchanged object, `+`, `-` or `~` otherwise.
pub fn marker(kind: LineKind) -> (marker: &'static str)
    ensures
        marker@ == match kind {
            LineKind::Kept => ""@,
            LineKind::Added => "+"@,
            LineKind::Removed => "-"@,
            LineKind::Modified => "~"@,
        },
{
    match kind {
        LineKind::Kept => "",
        LineKind::Added => "+",
        LineKind::Removed => "-",
        LineKind::Modified => "~",
    }
}

} // verus!
