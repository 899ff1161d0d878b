//! What the load popup reports: a job that failed, and the warnings and errors collected while
//! loading the codebase and the maps opened in it.
use vstd::prelude::*;

use crate::path::{
    key_less,
    lemma_key_less_irreflexive,
    lemma_key_less_total,
    lemma_key_less_transitive,
    parts_equal,
    parts_key,
    parts_less,
    path_parts,
    path_parts_of,
    PathPart,
};
use crate::text::{join_with, lemma_join_take_step, views_of};

verus! {

/// How many diagnostic lines the popup shows at most.
pub const MAX_REPORTED_DIAGNOSTICS: usize = 500;

#[derive(Debug, Clone, Copy, PartialEq, Eq, Structural)]
pub enum DiagnosticSeverity {
    Warning,
    Error,
}

/// A job that could not finish, shown until the user dismisses it.
#[derive(Debug, Clone, PartialEq, Eq)]
pub enum LoadNotice {
    Failed { title: String, path: String, message: String },
}

impl LoadNotice {
    /// The notice for `title` (such as "Opening codebase") failing on `path` with `message`.
    pub fn failed(title: &str, path: &str, message: &str) -> (notice: Self)
        ensures
            notice matches LoadNotice::Failed { title: t, path: p, message: m } && t@ == title@
                + " failed"@ && p@ == path@ && m@ == message@,
    {
        let mut full_title = String::from_str(title);
        full_title.append(" failed");
        LoadNotice::Failed {
            title: full_title,
            path: String::from_str(path),
            message: String::from_str(message),
        }
    }
}

/// The warnings and errors one load produced: how many of each, and their lines.
#[derive(Debug, Clone)]
pub struct LoadReport {
    pub warnings: usize,
    pub errors: usize,
    pub warning_lines: Vec<String>,
    pub error_lines: Vec<String>,
}

impl Default for LoadReport {
    fn default() -> (report: Self)
        ensures
            report.warnings == 0,
            report.errors == 0,
            report.warning_lines@.len() == 0,
            report.error_lines@.len() == 0,
    {
        LoadReport {
            warnings: 0,
            errors: 0,
            warning_lines: Vec::new(),
            error_lines: Vec::new(),
        }
    }
}

pub open spec fn report_count(report: LoadReport, severity: DiagnosticSeverity) -> nat {
    match severity {
        DiagnosticSeverity::Warning => report.warnings as nat,
        DiagnosticSeverity::Error => report.errors as nat,
    }
}

pub open spec fn report_lines(report: LoadReport, severity: DiagnosticSeverity) -> Seq<Seq<char>> {
    match severity {
        DiagnosticSeverity::Warning => views_of(report.warning_lines@),
        DiagnosticSeverity::Error => views_of(report.error_lines@),
    }
}

/// A report with nothing counted and no line to show.
pub open spec fn report_is_empty(report: LoadReport) -> bool {
    report.warnings == 0 && report.errors == 0 && report.warning_lines@.len() == 0
        && report.error_lines@.len() == 0
}

impl LoadReport {
    /// The report of a load that failed outright: one error, naming the file it failed on.
    pub fn failure(_title: &str, path: &str, message: &str) -> (report: Self)
        ensures
            report.warnings == 0,
            report.errors == 1,
            report.warning_lines@.len() == 0,
            report.error_lines@.len() == 1,
            report.error_lines@[0]@ == path@ + ": "@ + message@,
    {
        let mut line = String::from_str(path);
        line.append(": ");
        line.append(message);
        let mut error_lines: Vec<String> = Vec::new();
        error_lines.push(line);
        LoadReport { warnings: 0, errors: 1, warning_lines: Vec::new(), error_lines }
    }

    pub fn is_empty(&self) -> (empty: bool)
        ensures
            empty == report_is_empty(*self),
    {
        self.warnings == 0 && self.errors == 0 && self.warning_lines.len() == 0
            && self.error_lines.len() == 0
    }

    pub fn count(&self, severity: DiagnosticSeverity) -> (count: usize)
        ensures
            count == report_count(*self, severity),
    {
        match severity {
            DiagnosticSeverity::Warning => self.warnings,
            DiagnosticSeverity::Error => self.errors,
        }
    }

    pub fn lines(&self, severity: DiagnosticSeverity) -> (lines: &Vec<String>)
        ensures
            views_of(lines@) == report_lines(*self, severity),
    {
        match severity {
            DiagnosticSeverity::Warning => &self.warning_lines,
            DiagnosticSeverity::Error => &self.error_lines,
        }
    }
}

/// `entries` with `key` set to `report`: replaced where the key is already present, inserted
/// before the first greater key otherwise, and removed (or left out) when the report is empty.
pub open spec fn set_entry(
    entries: Seq<(Seq<(u8, Seq<char>)>, LoadReport)>,
    key: Seq<(u8, Seq<char>)>,
    report: LoadReport,
) -> Seq<(Seq<(u8, Seq<char>)>, LoadReport)>
    decreases entries.len(),
{
    if entries.len() == 0 {
        if report_is_empty(report) {
            Seq::empty()
        } else {
            seq![(key, report)]
        }
    } else if entries[0].0 == key {
        if report_is_empty(report) {
            entries.drop_first()
        } else {
            seq![(key, report)] + entries.drop_first()
        }
    } else if key_less(key, entries[0].0) {
        if report_is_empty(report) {
            entries
        } else {
            seq![(key, report)] + entries
        }
    } else {
        seq![entries[0]] + set_entry(entries.drop_first(), key, report)
    }
}

/// Keys in increasing order (so each key once), and no empty report.
pub open spec fn entries_well_formed(entries: Seq<(Seq<(u8, Seq<char>)>, LoadReport)>) -> bool {
    &&& forall|i: int, j: int|
        0 <= i < j < entries.len() ==> key_less(#[trigger] entries[i].0, #[trigger] entries[j].0)
    &&& forall|i: int| 0 <= i < entries.len() ==> !report_is_empty(#[trigger] entries[i].1)
}

/// The report stored under `key`, if any.
pub open spec fn lookup(entries: Seq<(Seq<(u8, Seq<char>)>, LoadReport)>, key: Seq<(u8, Seq<char>)>) -> Option<LoadReport>
    decreases entries.len(),
{
    if entries.len() == 0 {
        None
    } else if entries[0].0 == key {
        Some(entries[0].1)
    } else {
        lookup(entries.drop_first(), key)
    }
}

pub open spec fn entries_count(entries: Seq<(Seq<(u8, Seq<char>)>, LoadReport)>, severity: DiagnosticSeverity) -> nat
    decreases entries.len(),
{
    if entries.len() == 0 {
        0
    } else {
        entries_count(entries.drop_last(), severity) + report_count(entries.last().1, severity)
    }
}

pub open spec fn entries_lines(
    entries: Seq<(Seq<(u8, Seq<char>)>, LoadReport)>,
    severity: DiagnosticSeverity,
) -> Seq<Seq<char>>
    decreases entries.len(),
{
    if entries.len() == 0 {
        Seq::empty()
    } else {
        entries_lines(entries.drop_last(), severity) + report_lines(entries.last().1, severity)
    }
}

pub open spec fn optional_count(report: Option<LoadReport>, severity: DiagnosticSeverity) -> nat {
    match report {
        Some(report) => report_count(report, severity),
        None => 0,
    }
}

pub open spec fn optional_lines(report: Option<LoadReport>, severity: DiagnosticSeverity) -> Seq<
    Seq<char>,
> {
    match report {
        Some(report) => report_lines(report, severity),
        None => Seq::empty(),
    }
}

/// How many diagnostic lines a popup shows out of `available`.
pub open spec fn shown_lines(available: int) -> int {
    if available < MAX_REPORTED_DIAGNOSTICS {
        available
    } else {
        MAX_REPORTED_DIAGNOSTICS as int
    }
}

/// The diagnostics of the current codebase, of a codebase that failed to load, and of each map
/// opened since (by path), with the severity whose list is shown, if any.
#[derive(Debug)]
pub struct DiagnosticsState {
    pub codebase: Option<LoadReport>,
    pub maps: Vec<(Vec<PathPart>, LoadReport)>,
    pub failed_codebase: Option<LoadReport>,
    pub open: Option<DiagnosticSeverity>,
}

impl Default for DiagnosticsState {
    fn default() -> (state: Self)
        ensures
            state.well_formed(),
            state.codebase is None,
            state.failed_codebase is None,
            state.entries().len() == 0,
            state.open is None,
    {
        DiagnosticsState { codebase: None, maps: Vec::new(), failed_codebase: None, open: None }
    }
}

impl DiagnosticsState {
    /// The map reports by path, in increasing order of path.
    pub open spec fn entries(&self) -> Seq<(Seq<(u8, Seq<char>)>, LoadReport)> {
        self.maps@.map_values(|entry: (Vec<PathPart>, LoadReport)| (parts_key(entry.0@), entry.1))
    }

    pub open spec fn well_formed(&self) -> bool {
        entries_well_formed(self.entries())
    }

    /// All diagnostics of one severity: the codebase's, the failed codebase's, then each map's.
    pub open spec fn total(&self, severity: DiagnosticSeverity) -> nat {
        optional_count(self.codebase, severity) + optional_count(self.failed_codebase, severity)
            + entries_count(self.entries(), severity)
    }

    /// All lines of one severity, in the order the popup lists them.
    pub open spec fn all_lines(&self, severity: DiagnosticSeverity) -> Seq<Seq<char>> {
        optional_lines(self.codebase, severity) + optional_lines(self.failed_codebase, severity)
            + entries_lines(self.entries(), severity)
    }
}

/// `open`, unless it names a severity with nothing left to show.
pub open spec fn closed_if_empty(state: DiagnosticsState, open: Option<DiagnosticSeverity>) -> Option<
    DiagnosticSeverity,
> {
    match open {
        Some(severity) => if state.total(severity) == 0 {
            None
        } else {
            Some(severity)
        },
        None => None,
    }
}

/// Setting a key leaves the entries before the first key that is not smaller than it alone.
proof fn lemma_set_entry_after(
    entries: Seq<(Seq<(u8, Seq<char>)>, LoadReport)>,
    key: Seq<(u8, Seq<char>)>,
    report: LoadReport,
    p: int,
)
    requires
        0 <= p <= entries.len(),
        forall|i: int| 0 <= i < p ==> key_less(#[trigger] entries[i].0, key),
    ensures
        set_entry(entries, key, report) == entries.take(p) + set_entry(entries.skip(p), key, report),
    decreases p,
{
    if p == 0 {
        assert(entries.skip(0) =~= entries);
        assert(entries.take(0) + set_entry(entries, key, report) =~= set_entry(entries, key, report));
    } else {
        let first = entries[0].0;
        assert(key_less(first, key));
        lemma_key_less_irreflexive(key);
        lemma_key_less_total(first, key);
        let rest = entries.drop_first();
        assert forall|i: int| 0 <= i < p - 1 implies key_less(#[trigger] rest[i].0, key) by {
            assert(rest[i] == entries[i + 1]);
        }
        lemma_set_entry_after(rest, key, report, p - 1);
        assert(entries.take(p) =~= seq![entries[0]] + rest.take(p - 1));
        assert(entries.skip(p) =~= rest.skip(p - 1));
        assert(set_entry(entries, key, report) == seq![entries[0]] + set_entry(rest, key, report));
        assert(seq![entries[0]] + (rest.take(p - 1) + set_entry(rest.skip(p - 1), key, report))
            =~= (seq![entries[0]] + rest.take(p - 1)) + set_entry(rest.skip(p - 1), key, report));
    }
}

/// Setting a key keeps the entries in order without empty reports, and every entry of the result
/// is either the new one or one that was there before.
proof fn lemma_set_entry_well_formed(
    entries: Seq<(Seq<(u8, Seq<char>)>, LoadReport)>,
    key: Seq<(u8, Seq<char>)>,
    report: LoadReport,
)
    requires
        entries_well_formed(entries),
    ensures
        entries_well_formed(set_entry(entries, key, report)),
        forall|k: int|
            0 <= k < set_entry(entries, key, report).len() ==> (#[trigger] set_entry(
                entries,
                key,
                report,
            )[k] == (key, report) || exists|j: int|
                0 <= j < entries.len() && set_entry(entries, key, report)[k] == entries[j]),
    decreases entries.len(),
{
    let result = set_entry(entries, key, report);
    if entries.len() == 0 {
    } else {
        let first = entries[0];
        let rest = entries.drop_first();
        assert forall|i: int| 0 <= i < rest.len() implies #[trigger] rest[i] == entries[i + 1] by {}
        assert forall|i: int, j: int|
            0 <= i < j < rest.len() implies key_less(#[trigger] rest[i].0, #[trigger] rest[j].0) by {
            assert(rest[i] == entries[i + 1]);
            assert(rest[j] == entries[j + 1]);
        }
        assert forall|i: int| 0 <= i < rest.len() implies !report_is_empty(#[trigger] rest[i].1) by {
            assert(rest[i] == entries[i + 1]);
        }
        assert(entries_well_formed(rest));
        if first.0 == key {
            if report_is_empty(report) {
                assert(result == rest);
                assert forall|k: int| 0 <= k < result.len() implies (#[trigger] result[k] == (key, report)
                    || exists|j: int| 0 <= j < entries.len() && result[k] == entries[j]) by {
                    assert(result[k] == entries[k + 1]);
                }
            } else {
                assert forall|i: int, j: int|
                    0 <= i < j < result.len() implies key_less(
                    #[trigger] result[i].0,
                    #[trigger] result[j].0,
                ) by {
                    assert(result[j] == entries[j]);
                    if i > 0 {
                        assert(result[i] == entries[i]);
                    }
                }
                assert forall|k: int| 0 <= k < result.len() implies (#[trigger] result[k] == (key, report)
                    || exists|j: int| 0 <= j < entries.len() && result[k] == entries[j]) by {
                    if k > 0 {
                        assert(result[k] == entries[k]);
                    }
                }
            }
        } else if key_less(key, first.0) {
            if !report_is_empty(report) {
                assert forall|i: int, j: int|
                    0 <= i < j < result.len() implies key_less(
                    #[trigger] result[i].0,
                    #[trigger] result[j].0,
                ) by {
                    assert(result[j] == entries[j - 1]);
                    if i > 0 {
                        assert(result[i] == entries[i - 1]);
                    } else if j - 1 > 0 {
                        lemma_key_less_transitive(key, first.0, entries[j - 1].0);
                    }
                }
                assert forall|k: int| 0 <= k < result.len() implies (#[trigger] result[k] == (key, report)
                    || exists|j: int| 0 <= j < entries.len() && result[k] == entries[j]) by {
                    if k > 0 {
                        assert(result[k] == entries[k - 1]);
                    }
                }
            } else {
                assert forall|k: int| 0 <= k < result.len() implies (#[trigger] result[k] == (key, report)
                    || exists|j: int| 0 <= j < entries.len() && result[k] == entries[j]) by {
                    assert(result[k] == entries[k]);
                }
            }
        } else {
            lemma_key_less_total(key, first.0);
            assert(key_less(first.0, key));
            lemma_set_entry_well_formed(rest, key, report);
            let tail = set_entry(rest, key, report);
            assert(result == seq![first] + tail);
            assert forall|k: int| 0 <= k < tail.len() implies key_less(first.0, #[trigger] tail[k].0) by {
                if tail[k] != (key, report) {
                    let j = choose|j: int| 0 <= j < rest.len() && tail[k] == rest[j];
                    assert(rest[j] == entries[j + 1]);
                }
            }
            assert forall|i: int, j: int|
                0 <= i < j < result.len() implies key_less(
                #[trigger] result[i].0,
                #[trigger] result[j].0,
            ) by {
                assert(result[j] == tail[j - 1]);
                if i > 0 {
                    assert(result[i] == tail[i - 1]);
                }
            }
            assert forall|k: int| 0 <= k < result.len() implies (#[trigger] result[k] == (key, report)
                || exists|j: int| 0 <= j < entries.len() && result[k] == entries[j]) by {
                if k == 0 {
                    assert(result[0] == entries[0]);
                } else {
                    assert(result[k] == tail[k - 1]);
                    if tail[k - 1] != (key, report) {
                        let j = choose|j: int| 0 <= j < rest.len() && tail[k - 1] == rest[j];
                        assert(rest[j] == entries[j + 1]);
                    }
                }
            }
            assert forall|i: int| 0 <= i < result.len() implies !report_is_empty(#[trigger] result[i].1) by {
                if i > 0 {
                    assert(result[i] == tail[i - 1]);
                }
            }
        }
    }
}

proof fn lemma_lookup_absent(entries: Seq<(Seq<(u8, Seq<char>)>, LoadReport)>, key: Seq<(u8, Seq<char>)>)
    requires
        forall|i: int| 0 <= i < entries.len() ==> (#[trigger] entries[i]).0 != key,
    ensures
        lookup(entries, key) is None,
    decreases entries.len(),
{
    if entries.len() > 0 {
        let rest = entries.drop_first();
        assert forall|i: int| 0 <= i < rest.len() implies (#[trigger] rest[i]).0 != key by {
            assert(rest[i] == entries[i + 1]);
        }
        lemma_lookup_absent(rest, key);
    }
}

/// Reading a map's diagnostics back after setting them: the path set gives the new report (none
/// when it was empty), and every other path gives what it gave before.
pub proof fn lemma_lookup_after_set(
    entries: Seq<(Seq<(u8, Seq<char>)>, LoadReport)>,
    key: Seq<(u8, Seq<char>)>,
    report: LoadReport,
    other: Seq<(u8, Seq<char>)>,
)
    requires
        entries_well_formed(entries),
    ensures
        lookup(set_entry(entries, key, report), key) == (if report_is_empty(report) {
            None
        } else {
            Some(report)
        }),
        other != key ==> lookup(set_entry(entries, key, report), other) == lookup(entries, other),
    decreases entries.len(),
{
    let result = set_entry(entries, key, report);
    if entries.len() == 0 {
        if !report_is_empty(report) {
            assert(result == seq![(key, report)]);
            assert(result[0].0 == key);
            assert(result.drop_first().len() == 0);
            assert(lookup(result.drop_first(), other) is None);
        } else {
            assert(result.len() == 0);
        }
        assert(other != key ==> lookup(result, other) == lookup(entries, other));
    } else {
        let first = entries[0];
        let rest = entries.drop_first();
        assert forall|i: int, j: int|
            0 <= i < j < rest.len() implies key_less(#[trigger] rest[i].0, #[trigger] rest[j].0) by {
            assert(rest[i] == entries[i + 1]);
            assert(rest[j] == entries[j + 1]);
        }
        assert forall|i: int| 0 <= i < rest.len() implies !report_is_empty(#[trigger] rest[i].1) by {
            assert(rest[i] == entries[i + 1]);
        }
        if first.0 == key {
            if report_is_empty(report) {
                assert(result == rest);
            }
            assert forall|i: int| 0 <= i < rest.len() implies (#[trigger] rest[i]).0 != key by {
                assert(rest[i] == entries[i + 1]);
                assert(key_less(key, rest[i].0));
                lemma_key_less_irreflexive(key);
            }
            lemma_lookup_absent(rest, key);
            if !report_is_empty(report) {
                assert(result.drop_first() =~= rest);
            }
            assert(other != key ==> lookup(result, other) == lookup(entries, other));
        } else if key_less(key, first.0) {
            assert forall|i: int| 0 <= i < entries.len() implies (#[trigger] entries[i]).0 != key by {
                if i > 0 {
                    lemma_key_less_transitive(key, first.0, entries[i].0);
                }
                lemma_key_less_irreflexive(key);
            }
            lemma_lookup_absent(entries, key);
            if !report_is_empty(report) {
                assert(result.drop_first() =~= entries);
            }
            assert(other != key ==> lookup(result, other) == lookup(entries, other));
        } else {
            lemma_lookup_after_set(rest, key, report, other);
            assert(result[0] == first);
            assert(result.drop_first() =~= set_entry(rest, key, report));
            assert(result.len() > 0);
            assert(other != key ==> lookup(result, other) == lookup(entries, other));
        }
    }
}

/// Counting a report in front of others adds its count.
proof fn lemma_entries_count_front(
    first: (Seq<(u8, Seq<char>)>, LoadReport),
    rest: Seq<(Seq<(u8, Seq<char>)>, LoadReport)>,
    severity: DiagnosticSeverity,
)
    ensures
        entries_count(seq![first] + rest, severity) == report_count(first.1, severity)
            + entries_count(rest, severity),
    decreases rest.len(),
{
    let whole = seq![first] + rest;
    if rest.len() > 0 {
        lemma_entries_count_front(first, rest.drop_last(), severity);
        assert(whole.drop_last() =~= seq![first] + rest.drop_last());
        assert(whole.last() == rest.last());
    } else {
        assert(whole.drop_last() =~= Seq::<(Seq<(u8, Seq<char>)>, LoadReport)>::empty());
        assert(whole.last() == first);
        assert(entries_count(whole.drop_last(), severity) == 0);
    }
}

/// Setting a map's report replaces what that map counted: the count after, plus what the map
/// counted before, is the count before plus what the new report counts (nothing when empty).
pub proof fn lemma_count_after_set(
    entries: Seq<(Seq<(u8, Seq<char>)>, LoadReport)>,
    key: Seq<(u8, Seq<char>)>,
    report: LoadReport,
    severity: DiagnosticSeverity,
)
    requires
        entries_well_formed(entries),
    ensures
        entries_count(set_entry(entries, key, report), severity) + optional_count(
            lookup(entries, key),
            severity,
        ) == entries_count(entries, severity) + (if report_is_empty(report) {
            0
        } else {
            report_count(report, severity)
        }),
    decreases entries.len(),
{
    let result = set_entry(entries, key, report);
    if entries.len() == 0 {
        if !report_is_empty(report) {
            lemma_entries_count_front((key, report), Seq::empty(), severity);
            assert(seq![(key, report)] + Seq::<(Seq<(u8, Seq<char>)>, LoadReport)>::empty() =~= result);
        }
    } else {
        let first = entries[0];
        let rest = entries.drop_first();
        assert(entries =~= seq![first] + rest);
        lemma_entries_count_front(first, rest, severity);
        assert forall|i: int, j: int|
            0 <= i < j < rest.len() implies key_less(#[trigger] rest[i].0, #[trigger] rest[j].0) by {
            assert(rest[i] == entries[i + 1]);
            assert(rest[j] == entries[j + 1]);
        }
        assert forall|i: int| 0 <= i < rest.len() implies !report_is_empty(#[trigger] rest[i].1) by {
            assert(rest[i] == entries[i + 1]);
        }
        if first.0 == key {
            if !report_is_empty(report) {
                lemma_entries_count_front((key, report), rest, severity);
            }
        } else if key_less(key, first.0) {
            assert forall|i: int| 0 <= i < entries.len() implies (#[trigger] entries[i]).0 != key by {
                if i > 0 {
                    lemma_key_less_transitive(key, first.0, entries[i].0);
                }
                lemma_key_less_irreflexive(key);
            }
            lemma_lookup_absent(entries, key);
            if !report_is_empty(report) {
                lemma_entries_count_front((key, report), entries, severity);
            }
        } else {
            lemma_count_after_set(rest, key, report, severity);
            lemma_entries_count_front(first, set_entry(rest, key, report), severity);
            assert(result == seq![first] + set_entry(rest, key, report));
        }
    }
}

/// The position of the first entry whose path is not before `key`.
fn lower_bound(maps: &Vec<(Vec<PathPart>, LoadReport)>, key: &Vec<PathPart>) -> (p: usize)
    ensures
        p <= maps@.len(),
        forall|i: int| 0 <= i < p ==> key_less(parts_key(#[trigger] maps@[i].0@), parts_key(key@)),
        p < maps@.len() ==> !key_less(parts_key(maps@[p as int].0@), parts_key(key@)),
{
    let mut p: usize = 0;
    while p < maps.len()
        invariant
            p <= maps@.len(),
            forall|i: int| 0 <= i < p ==> key_less(parts_key(#[trigger] maps@[i].0@), parts_key(key@)),
        ensures
            p <= maps@.len(),
            forall|i: int| 0 <= i < p ==> key_less(parts_key(#[trigger] maps@[i].0@), parts_key(key@)),
            p < maps@.len() ==> !key_less(parts_key(maps@[p as int].0@), parts_key(key@)),
        decreases maps.len() - p,
    {
        if !parts_less(&maps[p].0, key) {
            break;
        }
        p = p + 1;
    }
    p
}

proof fn lemma_entries_count_prefix(
    entries: Seq<(Seq<(u8, Seq<char>)>, LoadReport)>,
    severity: DiagnosticSeverity,
    i: int,
)
    requires
        0 <= i <= entries.len(),
    ensures
        entries_count(entries.take(i), severity) <= entries_count(entries, severity),
    decreases entries.len() - i,
{
    if i == entries.len() {
        assert(entries.take(i) =~= entries);
    } else {
        lemma_entries_count_prefix(entries, severity, i + 1);
        assert(entries.take(i + 1).drop_last() =~= entries.take(i));
    }
}

/// Appends the lines of one report, one per line, while fewer than the maximum are shown.
fn push_lines(
    text: &mut String,
    shown: &mut usize,
    lines: &Vec<String>,
    Ghost(before): Ghost<Seq<Seq<char>>>,
)
    requires
        *old(shown) == shown_lines(before.len() as int),
        old(text)@ == join_with(before.take(*old(shown) as int), seq!['\n']),
    ensures
        *final(shown) == shown_lines((before.len() + lines@.len()) as int),
        final(text)@ == join_with(
            (before + views_of(lines@)).take(*final(shown) as int),
            seq!['\n'],
        ),
{
    let ghost all = before + views_of(lines@);
    proof {
        assert(before.take(*shown as int) =~= all.take(*shown as int));
    }
    let mut i: usize = 0;
    while i < lines.len()
        invariant
            all == before + views_of(lines@),
            i <= lines@.len(),
            *shown == shown_lines(before.len() + i as int),
            text@ == join_with(all.take(*shown as int), seq!['\n']),
        decreases lines.len() - i,
    {
        if *shown < MAX_REPORTED_DIAGNOSTICS {
            proof {
                lemma_join_take_step(all, seq!['\n'], *shown as int);
                assert(all[*shown as int] == lines@[i as int]@);
            }
            if *shown > 0 {
                text.push('\n');
            }
            text.append(lines[i].as_str());
            *shown = *shown + 1;
        }
        i = i + 1;
    }
}

impl DiagnosticsState {
    /// A newly loaded codebase: its report replaces everything, and its errors open the list.
    pub fn set_codebase(&mut self, report: LoadReport)
        ensures
            final(self).well_formed(),
            final(self).entries().len() == 0,
            final(self).failed_codebase is None,
            final(self).open == if report.errors > 0 {
                Some(DiagnosticSeverity::Error)
            } else {
                None
            },
            final(self).codebase == if report_is_empty(report) {
                None
            } else {
                Some(report)
            },
    {
        self.maps = Vec::new();
        self.failed_codebase = None;
        self.open = if report.errors > 0 {
            Some(DiagnosticSeverity::Error)
        } else {
            None
        };
        self.codebase = if report.is_empty() {
            None
        } else {
            Some(report)
        };
        proof {
            assert(self.entries() =~= Seq::<(Seq<(u8, Seq<char>)>, LoadReport)>::empty());
        }
    }

    /// A map (re)loaded from `path`: its report replaces the one the same path (component by
    /// component) had, an empty report drops it, errors open the error list, and a list left
    /// with nothing to show closes.
    pub fn set_map(&mut self, path: String, report: LoadReport)
        requires
            old(self).well_formed(),
        ensures
            final(self).well_formed(),
            final(self).codebase == old(self).codebase,
            final(self).failed_codebase == old(self).failed_codebase,
            final(self).entries() == set_entry(old(self).entries(), path_parts(path@), report),
            final(self).open == closed_if_empty(
                *final(self),
                if report.errors > 0 {
                    Some(DiagnosticSeverity::Error)
                } else {
                    old(self).open
                },
            ),
    {
        if report.errors > 0 {
            self.open = Some(DiagnosticSeverity::Error);
        }
        let ghost before = self.entries();
        let parts = path_parts_of(path.as_str());
        let ghost key = path_parts(path@);
        let p = lower_bound(&self.maps, &parts);
        proof {
            assert forall|i: int| 0 <= i < p implies key_less(#[trigger] before[i].0, key) by {
                assert(before[i].0 == parts_key(self.maps@[i].0@));
            }
            lemma_set_entry_after(before, key, report, p as int);
            lemma_set_entry_well_formed(before, key, report);
        }
        let n = self.maps.len();
        let present = p < n && parts_equal(&self.maps[p].0, &parts);
        let empty = report.is_empty();
        let ghost tail = before.skip(p as int);
        proof {
            if p < n {
                assert(tail[0] == before[p as int]);
                if !present {
                    lemma_key_less_total(key, tail[0].0);
                }
                assert(tail.drop_first() =~= before.skip(p + 1));
            }
        }
        if present {
            self.maps.remove(p);
            if !empty {
                self.maps.insert(p, (parts, report));
            }
        } else if !empty {
            self.maps.insert(p, (parts, report));
        }
        proof {
            let expected = set_entry(before, key, report);
            assert(expected == before.take(p as int) + set_entry(tail, key, report));
            assert(self.entries() =~= expected);
        }
        self.close_empty_view();
    }

    /// A codebase that failed to load: its report stays listed, and the error list opens.
    pub fn set_failed_codebase(&mut self, report: LoadReport)
        ensures
            final(self).codebase == old(self).codebase,
            final(self).entries() == old(self).entries(),
            final(self).maps == old(self).maps,
            final(self).failed_codebase == Some(report),
            final(self).open == Some(DiagnosticSeverity::Error),
    {
        self.open = Some(DiagnosticSeverity::Error);
        self.failed_codebase = Some(report);
    }

    /// Whether anything of `severity` is left to show.
    fn has_any(&self, severity: DiagnosticSeverity) -> (any: bool)
        ensures
            any == (self.total(severity) > 0),
    {
        let mut any = match &self.codebase {
            Some(report) => report.count(severity) > 0,
            None => false,
        };
        any = any || match &self.failed_codebase {
            Some(report) => report.count(severity) > 0,
            None => false,
        };
        let ghost entries = self.entries();
        let ghost head = optional_count(self.codebase, severity) + optional_count(
            self.failed_codebase,
            severity,
        );
        let mut i: usize = 0;
        while i < self.maps.len()
            invariant
                entries == self.entries(),
                i <= self.maps@.len(),
                any == (head + entries_count(entries.take(i as int), severity) > 0),
            decreases self.maps.len() - i,
        {
            proof {
                assert(entries.take(i + 1).drop_last() =~= entries.take(i as int));
                assert(entries[i as int].1 == self.maps@[i as int].1);
            }
            any = any || self.maps[i].1.count(severity) > 0;
            i = i + 1;
        }
        proof {
            assert(entries.take(i as int) =~= entries);
        }
        any
    }

    fn close_empty_view(&mut self)
        ensures
            final(self).codebase == old(self).codebase,
            final(self).failed_codebase == old(self).failed_codebase,
            final(self).maps == old(self).maps,
            final(self).open == closed_if_empty(*old(self), old(self).open),
    {
        if let Some(severity) = self.open {
            if !self.has_any(severity) {
                self.open = None;
            }
        }
    }

    /// How many diagnostics of `severity` there are in all.
    pub fn count(&self, severity: DiagnosticSeverity) -> (count: usize)
        requires
            self.total(severity) <= usize::MAX,
        ensures
            count == self.total(severity),
    {
        let ghost entries = self.entries();
        let mut count: usize = match &self.codebase {
            Some(report) => report.count(severity),
            None => 0,
        };
        count = count + match &self.failed_codebase {
            Some(report) => report.count(severity),
            None => 0,
        };
        let ghost head = optional_count(self.codebase, severity) + optional_count(
            self.failed_codebase,
            severity,
        );
        let mut i: usize = 0;
        while i < self.maps.len()
            invariant
                entries == self.entries(),
                i <= self.maps@.len(),
                self.total(severity) <= usize::MAX,
                self.total(severity) == head + entries_count(entries, severity),
                count == head + entries_count(entries.take(i as int), severity),
            decreases self.maps.len() - i,
        {
            proof {
                assert(entries.take(i + 1).drop_last() =~= entries.take(i as int));
                assert(entries[i as int].1 == self.maps@[i as int].1);
                lemma_entries_count_prefix(entries, severity, i + 1);
            }
            count = count + self.maps[i].1.count(severity);
            i = i + 1;
        }
        proof {
            assert(entries.take(i as int) =~= entries);
        }
        count
    }

    /// The first lines of `severity`, one per line, with how many of them there are.
    pub fn text(&self, severity: DiagnosticSeverity) -> (text: (String, usize))
        ensures
            text.1 == shown_lines(self.all_lines(severity).len() as int),
            text.0@ == join_with(self.all_lines(severity).take(text.1 as int), seq!['\n']),
    {
        let mut text = String::new();
        let mut shown: usize = 0;
        proof {
            assert(join_with(Seq::<Seq<char>>::empty().take(0), seq!['\n']) =~= Seq::<char>::empty());
        }
        if let Some(report) = &self.codebase {
            push_lines(&mut text, &mut shown, report.lines(severity), Ghost(Seq::empty()));
            proof {
                assert(Seq::<Seq<char>>::empty() + report_lines(*report, severity) =~= report_lines(
                    *report,
                    severity,
                ));
            }
        }
        let ghost mut before = optional_lines(self.codebase, severity);
        if let Some(report) = &self.failed_codebase {
            push_lines(&mut text, &mut shown, report.lines(severity), Ghost(before));
        }
        proof {
            before = before + optional_lines(self.failed_codebase, severity);
            if self.failed_codebase is None {
                assert(before =~= optional_lines(self.codebase, severity));
            }
        }
        let ghost entries = self.entries();
        let ghost head = before;
        proof {
            assert(entries_lines(entries.take(0), severity) =~= Seq::<Seq<char>>::empty());
            assert(before =~= head + entries_lines(entries.take(0), severity));
        }
        let mut i: usize = 0;
        while i < self.maps.len()
            invariant
                entries == self.entries(),
                i <= self.maps@.len(),
                head == optional_lines(self.codebase, severity) + optional_lines(
                    self.failed_codebase,
                    severity,
                ),
                before == head + entries_lines(entries.take(i as int), severity),
                shown == shown_lines(before.len() as int),
                text@ == join_with(before.take(shown as int), seq!['\n']),
            decreases self.maps.len() - i,
        {
            push_lines(&mut text, &mut shown, self.maps[i].1.lines(severity), Ghost(before));
            proof {
                assert(entries.take(i + 1).drop_last() =~= entries.take(i as int));
                assert(entries[i as int].1 == self.maps@[i as int].1);
                before = before + report_lines(self.maps@[i as int].1, severity);
                assert(before =~= head + entries_lines(entries.take(i + 1), severity));
            }
            i = i + 1;
        }
        proof {
            assert(entries.take(i as int) =~= entries);
            assert(before =~= self.all_lines(severity));
        }
        (text, shown)
    }
}

/// What the user did in the loading popup this frame: whether Escape was pressed, and which of
/// its buttons were clicked (a disabled button reports no click).
#[derive(Debug, Clone, Copy, PartialEq, Eq, Structural)]
pub struct LoadPopupInput {
    pub escape: bool,
    pub cancel_clicked: bool,
    pub close_clicked: bool,
    pub copy_clicked: bool,
}

/// What the loading popup asks of the editor: to cancel the running load, to dismiss what it
/// shows, and text to copy.
#[derive(Debug, Clone, PartialEq, Eq)]
pub struct LoadPopup {
    pub cancel: bool,
    pub dismiss: bool,
    pub copy: Option<String>,
}

/// The loading popup, given the running load (whether it can be cancelled), the notice of a job
/// that failed and the diagnostics. A running load shows its progress, and its Cancel button or
/// Escape cancels it when it can be cancelled. Otherwise a failure notice shows its message:
/// Close or Escape dismisses it and Copy copies the message. Otherwise the open list of
/// diagnostics shows its text: Close or Escape dismisses it and Copy copies the text shown.
/// With none of these the popup is not drawn and asks nothing.
pub fn load_popup(
    loading: Option<bool>,
    notice: &Option<LoadNotice>,
    diagnostics: &DiagnosticsState,
    input: LoadPopupInput,
) -> (popup: LoadPopup)
    ensures
        match loading {
            Some(cancellable) => popup.cancel == (cancellable && (input.cancel_clicked || input.escape))
                && !popup.dismiss && popup.copy is None,
            None => !popup.cancel && match notice {
                Some(LoadNotice::Failed { message, .. }) => popup.dismiss == (input.close_clicked
                    || input.escape) && if input.copy_clicked {
                    popup.copy matches Some(text) && text@ == message@
                } else {
                    popup.copy is None
                },
                None => match diagnostics.open {
                    Some(severity) => popup.dismiss == (input.close_clicked || input.escape)
                        && if input.copy_clicked {
                        popup.copy matches Some(text) && text@ == join_with(
                            diagnostics.all_lines(severity).take(
                                shown_lines(diagnostics.all_lines(severity).len() as int),
                            ),
                            seq!['\n'],
                        )
                    } else {
                        popup.copy is None
                    },
                    None => !popup.dismiss && popup.copy is None,
                },
            },
        },
{
    match loading {
        Some(cancellable) => LoadPopup {
            cancel: cancellable && (input.cancel_clicked || input.escape),
            dismiss: false,
            copy: None,
        },
        None => match notice {
            Some(LoadNotice::Failed { message, .. }) => LoadPopup {
                cancel: false,
                dismiss: input.close_clicked || input.escape,
                copy: if input.copy_clicked {
                    Some(message.clone())
                } else {
                    None
                },
            },
            None => match diagnostics.open {
                Some(severity) => {
                    let copy = if input.copy_clicked {
                        let (text, _) = diagnostics.text(severity);
                        Some(text)
                    } else {
                        None
                    };
                    LoadPopup { cancel: false, dismiss: input.close_clicked || input.escape, copy }
                },
                None => LoadPopup { cancel: false, dismiss: false, copy: None },
            },
        },
    }
}

/// Dismissing the loading popup closes the failure notice it shows, or else the list of
/// diagnostics; nothing else changes.
pub fn dismiss_load_popup(notice: &mut Option<LoadNotice>, diagnostics: &mut DiagnosticsState)
    ensures
        (*old(notice)) is Some ==> (*final(notice)) is None && final(diagnostics).open == old(diagnostics).open,
        (*old(notice)) is None ==> (*final(notice)) is None && final(diagnostics).open is None,
        final(diagnostics).codebase == old(diagnostics).codebase,
        final(diagnostics).failed_codebase == old(diagnostics).failed_codebase,
        final(diagnostics).maps == old(diagnostics).maps,
{
    if notice.is_some() {
        *notice = None;
    } else {
        diagnostics.open = None;
    }
}

} // verus!
