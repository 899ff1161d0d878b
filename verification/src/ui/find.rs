//! Stepping through the matches of a search.
use vstd::prelude::*;

use crate::geometry::Selection;
use crate::text::{decimal, decimal_digits, string_of};
use crate::ui::dialog::{trim_text, trimmed};
use crate::ui::git::{first_position, lemma_first_position};

verus! {

/// The match a step lands on: from no current match (or one no longer listed) the first going
/// forward and the last going back; otherwise the next or previous one, wrapping around.
pub open spec fn spec_step_position(rows: Seq<u64>, current: Option<u64>, forward: bool) -> Option<
    int,
> {
    if rows.len() == 0 {
        None
    } else {
        let position = match current {
            Some(instance) => first_position(rows, instance),
            None => None,
        };
        match position {
            None => if forward {
                Some(0)
            } else {
                Some(rows.len() - 1)
            },
            Some(p) => if forward {
                Some((p + 1) % (rows.len() as int))
            } else {
                Some((p + rows.len() - 1) % (rows.len() as int))
            },
        }
    }
}

pub fn step_position(rows: &Vec<u64>, current: Option<u64>, forward: bool) -> (next: Option<usize>)
    ensures
        match next {
            Some(n) => spec_step_position(rows@, current, forward) == Some(n as int) && n
                < rows@.len(),
            None => spec_step_position(rows@, current, forward) is None,
        },
{
    let len = rows.len();
    if len == 0 {
        return None;
    }
    let mut position: Option<usize> = None;
    if let Some(instance) = current {
        let mut i: usize = 0;
        while i < len
            invariant
                len == rows@.len(),
                i <= len,
                forall|k: int| 0 <= k < i ==> rows@[k] != instance,
            ensures
                i <= len,
                forall|k: int| 0 <= k < i ==> rows@[k] != instance,
                i < len ==> rows@[i as int] == instance,
            decreases len - i,
        {
            if rows[i] == instance {
                break;
            }
            i = i + 1;
        }
        proof {
            lemma_first_position(rows@, instance, i as int);
        }
        if i < len {
            position = Some(i);
        }
    }
    let next = match position {
        None => if forward {
            0
        } else {
            len - 1
        },
        Some(p) => if forward {
            if p + 1 == len {
                0
            } else {
                p + 1
            }
        } else {
            if p == 0 {
                len - 1
            } else {
                p - 1
            }
        },
    };
    proof {
        if let Some(p) = position {
            if forward {
                if p + 1 == len {
                    vstd::arithmetic::div_mod::lemma_mod_self_0(len as int);
                } else {
                    vstd::arithmetic::div_mod::lemma_small_mod((p + 1) as nat, len as nat);
                }
            } else {
                if p == 0 {
                    vstd::arithmetic::div_mod::lemma_small_mod((len - 1) as nat, len as nat);
                } else {
                    vstd::arithmetic::div_mod::lemma_mod_multiples_vanish(1, (p - 1) as int, len as int);
                    vstd::arithmetic::div_mod::lemma_small_mod((p - 1) as nat, len as nat);
                    assert(p + len - 1 == len * 1 + (p - 1));
                }
            }
        }
    }
    Some(next)
}

/// Stepping back right after stepping forward returns to the match stepped from, when every
/// match is listed once.
pub proof fn lemma_step_back_undoes_forward(rows: Seq<u64>, p: int)
    requires
        rows.no_duplicates(),
        0 <= p < rows.len(),
    ensures
        ({
            let q = (p + 1) % (rows.len() as int);
            &&& spec_step_position(rows, Some(rows[p]), true) == Some(q)
            &&& spec_step_position(rows, Some(rows[q]), false) == Some(p)
        }),
{
    let len = rows.len() as int;
    lemma_first_position(rows, rows[p], p);
    let q = (p + 1) % len;
    if p + 1 == len {
        vstd::arithmetic::div_mod::lemma_mod_self_0(len);
    } else {
        vstd::arithmetic::div_mod::lemma_small_mod((p + 1) as nat, len as nat);
    }
    lemma_first_position(rows, rows[q], q);
    if q == 0 {
        vstd::arithmetic::div_mod::lemma_small_mod((len - 1) as nat, len as nat);
        assert(p == len - 1);
    } else {
        assert(q == p + 1);
        vstd::arithmetic::div_mod::lemma_mod_multiples_vanish(1, p, len);
        vstd::arithmetic::div_mod::lemma_small_mod(p as nat, len as nat);
        assert(q + len - 1 == len * 1 + p);
    }
}

/// Why a typed search does not run.
#[derive(Debug, Clone, Copy, PartialEq, Eq, Structural)]
pub enum SearchError {
    UnknownType,
    NoMapOpen,
    NothingSelected,
}

impl SearchError {
    pub fn message(self) -> (message: &'static str)
        ensures
            message@ == match self {
                SearchError::UnknownType => "Unknown type"@,
                SearchError::NoMapOpen => "No map is open"@,
                SearchError::NothingSelected => "Nothing is block selected"@,
            },
    {
        match self {
            SearchError::UnknownType => "Unknown type",
            SearchError::NoMapOpen => "No map is open",
            SearchError::NothingSelected => "Nothing is block selected",
        }
    }
}

/// Where a typed search runs: the document, and the block it is kept to, if any.
#[derive(Debug, Clone, Copy, PartialEq, Eq, Structural)]
pub struct TypedSearch {
    pub document: u64,
    pub bounds: Option<Selection>,
}

/// What the typed path searches: nothing when it is blank once trimmed of surrounding
/// whitespace; otherwise, in order, an unknown type (`type_known` says whether the loaded types
/// hold the trimmed path, `None` when no types are loaded), no open map, and a search kept to a
/// selection that is not there are refused, and the search runs on the open map, kept to the
/// selection when asked.
pub fn plan_typed_search(
    typed: &str,
    type_known: Option<bool>,
    active: Option<u64>,
    in_selection: bool,
    selection: Option<Selection>,
) -> (planned: Result<Option<TypedSearch>, SearchError>)
    ensures
        planned == if trimmed(typed@).len() == 0 {
            Ok(None)
        } else if type_known == Some(false) {
            Err(SearchError::UnknownType)
        } else {
            match active {
                None => Err(SearchError::NoMapOpen),
                Some(document) => if in_selection {
                    match selection {
                        Some(bounds) => Ok(Some(TypedSearch { document, bounds: Some(bounds) })),
                        None => Err(SearchError::NothingSelected),
                    }
                } else {
                    Ok(Some(TypedSearch { document, bounds: None }))
                },
            }
        },
{
    let path = trim_text(typed);
    if path.unicode_len() == 0 {
        return Ok(None);
    }
    if type_known == Some(false) {
        return Err(SearchError::UnknownType);
    }
    let document = match active {
        Some(document) => document,
        None => return Err(SearchError::NoMapOpen),
    };
    if in_selection {
        match selection {
            Some(bounds) => Ok(Some(TypedSearch { document, bounds: Some(bounds) })),
            None => Err(SearchError::NothingSelected),
        }
    } else {
        Ok(Some(TypedSearch { document, bounds: None }))
    }
}

/// What a search looks for: one prefab, one type, or a type and its subtypes.
#[derive(Debug, Clone, Copy, PartialEq, Eq, Structural)]
pub enum QueryKind {
    Prefab,
    Type,
    TypeOrSubtype,
}

pub open spec fn query_kind_label(kind: QueryKind) -> Seq<char> {
    match kind {
        QueryKind::Prefab => "prefab"@,
        QueryKind::Type => "type"@,
        QueryKind::TypeOrSubtype => "type or subtype"@,
    }
}

/// The line under a search's target: how many instances match, of what, where.
pub open spec fn spec_results_summary(count: nat, kind: QueryKind, in_selection: bool, title: Seq<char>) -> Seq<
    char,
> {
    decimal(count) + " matching "@ + query_kind_label(kind) + (if count == 1 {
        " instance"@
    } else {
        " instances"@
    }) + (if in_selection {
        " in the selection"@
    } else {
        ""@
    }) + " in "@ + title
}

pub fn results_summary(count: usize, kind: QueryKind, in_selection: bool, title: &str) -> (summary:
    String)
    ensures
        summary@ == spec_results_summary(count as nat, kind, in_selection, title@),
{
    let digits = decimal_digits(count);
    let mut summary = string_of(&digits);
    summary.append(" matching ");
    summary.append(
        match kind {
            QueryKind::Prefab => "prefab",
            QueryKind::Type => "type",
            QueryKind::TypeOrSubtype => "type or subtype",
        },
    );
    summary.append(if count == 1 { " instance" } else { " instances" });
    summary.append(if in_selection { " in the selection" } else { "" });
    summary.append(" in ");
    summary.append(title);
    summary
}

} // verus!
