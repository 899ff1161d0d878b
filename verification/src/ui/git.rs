//! The git panel: rows picked in its tables the way a list view selects, the conflict, blame
//! and diff tables, and the versions it compares.
use vstd::prelude::*;

use vstd::seq_lib::{lemma_seq_contains_after_push, seq_to_set_distributes_over_add};

use crate::fill::count_set;
use crate::text::{decimal, decimal_digits, str_equal};
use crate::ui::dialog::{trim_text, trimmed};
use crate::geometry::Coord;

verus! {

/// Where `coord` first occurs in `order`.
pub open spec fn first_position<T>(order: Seq<T>, coord: T) -> Option<int>
    decreases order.len(),
{
    if order.len() == 0 {
        None
    } else if order[0] == coord {
        Some(0)
    } else {
        match first_position(order.drop_first(), coord) {
            Some(i) => Some(i + 1),
            None => None,
        }
    }
}

/// The first position of `coord` is `at` when it occurs there and not before, and there is none
/// when it occurs nowhere up to the end.
pub proof fn lemma_first_position<T>(order: Seq<T>, coord: T, at: int)
    requires
        0 <= at <= order.len(),
        forall|k: int| 0 <= k < at ==> order[k] != coord,
        at < order.len() ==> order[at] == coord,
    ensures
        first_position(order, coord) == if at < order.len() {
            Some(at)
        } else {
            None
        },
    decreases at,
{
    if at > 0 {
        let rest = order.drop_first();
        assert forall|k: int| 0 <= k < at - 1 implies rest[k] != coord by {
            assert(rest[k] == order[k + 1]);
        }
        if at < order.len() {
            assert(rest[at - 1] == order[at]);
        }
        lemma_first_position(rest, coord, at - 1);
    } else if order.len() == 0 {
    }
}

/// `coord` has a first position exactly when it occurs, and it occurs there and nowhere before.
pub proof fn lemma_first_position_occurs<T>(order: Seq<T>, coord: T)
    ensures
        (first_position(order, coord) is Some) == order.contains(coord),
        first_position(order, coord) matches Some(i) ==> 0 <= i < order.len() && order[i] == coord
            && forall|m: int| 0 <= m < i ==> order[m] != coord,
    decreases order.len(),
{
    if order.len() > 0 {
        let rest = order.drop_first();
        lemma_first_position_occurs(rest, coord);
        if order[0] != coord {
            if order.contains(coord) {
                let k = choose|k: int| 0 <= k < order.len() && order[k] == coord;
                assert(rest[k - 1] == coord);
            }
            if rest.contains(coord) {
                let k = choose|k: int| 0 <= k < rest.len() && rest[k] == coord;
                assert(order[k + 1] == coord);
            }
            if let Some(i) = first_position(rest, coord) {
                assert forall|m: int| 0 <= m < i + 1 implies order[m] != coord by {
                    if m > 0 {
                        assert(order[m] == rest[m - 1]);
                    }
                }
            }
        }
    }
}

/// Where the anchor row is in `order`, if there is an anchor and it is still listed.
pub open spec fn anchor_position(order: Seq<Coord>, anchor: Option<Coord>) -> Option<int> {
    match anchor {
        Some(coord) => first_position(order, coord),
        None => None,
    }
}

/// The selected rows of a table, by tile, and the row a shift click extends from.
#[derive(Debug)]
pub struct RowSelection {
    pub tiles: Vec<Coord>,
    pub anchor: Option<Coord>,
}

impl Default for RowSelection {
    fn default() -> (selection: Self)
        ensures
            selection.selected() == Set::<Coord>::empty(),
            selection.anchor is None,
    {
        let selection = RowSelection { tiles: Vec::new(), anchor: None };
        proof {
            assert(selection.selected() =~= Set::<Coord>::empty());
        }
        selection
    }
}

/// Removes every occurrence of `coord`, telling whether there was one.
fn remove_all(tiles: &mut Vec<Coord>, coord: Coord) -> (removed: bool)
    ensures
        removed == old(tiles)@.contains(coord),
        final(tiles)@.to_set() == old(tiles)@.to_set().remove(coord),
{
    let mut kept: Vec<Coord> = Vec::new();
    let mut removed = false;
    let mut i: usize = 0;
    proof {
        assert(kept@.to_set() =~= tiles@.take(0).to_set().remove(coord));
    }
    while i < tiles.len()
        invariant
            i <= tiles@.len(),
            removed == tiles@.take(i as int).contains(coord),
            kept@.to_set() == tiles@.take(i as int).to_set().remove(coord),
        decreases tiles.len() - i,
    {
        let tile = tiles[i];
        proof {
            let prefix = tiles@.take(i as int);
            assert(tiles@.take(i + 1) =~= prefix.push(tile));
            prefix.lemma_push_to_set_commute(tile);
            lemma_seq_contains_after_push(prefix, tile, coord);
            kept@.lemma_push_to_set_commute(tile);
        }
        if tile == coord {
            removed = true;
            proof {
                assert(tiles@.take(i + 1).to_set().remove(coord) =~= tiles@.take(
                    i as int,
                ).to_set().remove(coord));
            }
        } else {
            kept.push(tile);
            proof {
                assert(kept@.to_set() =~= tiles@.take(i + 1).to_set().remove(coord));
            }
        }
        i = i + 1;
    }
    proof {
        assert(tiles@.take(i as int) =~= tiles@);
    }
    *tiles = kept;
    removed
}

impl RowSelection {
    /// The selected tiles.
    pub open spec fn selected(&self) -> Set<Coord> {
        self.tiles@.to_set()
    }

    pub fn contains(&self, coord: Coord) -> (selected: bool)
        ensures
            selected == self.selected().contains(coord),
    {
        let mut i: usize = 0;
        while i < self.tiles.len()
            invariant
                i <= self.tiles@.len(),
                forall|k: int| 0 <= k < i ==> self.tiles@[k] != coord,
            decreases self.tiles.len() - i,
        {
            if self.tiles[i] == coord {
                return true;
            }
            i = i + 1;
        }
        false
    }

    pub fn clear(&mut self)
        ensures
            final(self).selected() == Set::<Coord>::empty(),
            final(self).anchor is None,
    {
        self.tiles = Vec::new();
        self.anchor = None;
        proof {
            assert(self.selected() =~= Set::<Coord>::empty());
        }
    }

    /// The selected rows among `order`, in its order.
    pub fn among(&self, order: &Vec<Coord>) -> (rows: Vec<Coord>)
        ensures
            rows@ == order@.filter(|coord: Coord| self.selected().contains(coord)),
    {
        let ghost pick = |coord: Coord| self.selected().contains(coord);
        let mut rows: Vec<Coord> = Vec::new();
        let mut i: usize = 0;
        while i < order.len()
            invariant
                i <= order@.len(),
                pick == (|coord: Coord| self.selected().contains(coord)),
                rows@ == order@.take(i as int).filter(pick),
            decreases order.len() - i,
        {
            let coord = order[i];
            proof {
                assert(order@.take(i + 1) =~= order@.take(i as int).push(coord));
                order@.take(i as int).lemma_filter_push(coord, pick);
            }
            if self.contains(coord) {
                rows.push(coord);
            }
            i = i + 1;
        }
        proof {
            assert(order@.take(i as int) =~= order@);
        }
        rows
    }

    /// A click on the row at `position` of `order`, like a list view: with shift (and an anchor
    /// still listed) the rows from the anchor to it, added to the selection with ctrl or
    /// replacing it; with ctrl alone the row toggled; otherwise the row alone. The row becomes the
    /// anchor but for a shift click. Returns whether the view should scroll to the row.
    pub fn click(&mut self, shift: bool, ctrl: bool, order: &Vec<Coord>, position: usize) -> (follow: bool)
        requires
            position < order@.len(),
        ensures
            ({
                let coord = order@[position as int];
                match anchor_position(order@, old(self).anchor) {
                    Some(a) if shift => {
                        let lo = if a < position { a } else { position as int };
                        let hi = if a < position { position as int } else { a };
                        &&& final(self).selected() == (if ctrl {
                            old(self).selected()
                        } else {
                            Set::<Coord>::empty()
                        }).union(order@.subrange(lo, hi + 1).to_set())
                        &&& final(self).anchor == old(self).anchor
                        &&& !follow
                    },
                    _ => if ctrl {
                        &&& final(self).selected() == if old(self).selected().contains(coord) {
                            old(self).selected().remove(coord)
                        } else {
                            old(self).selected().insert(coord)
                        }
                        &&& final(self).anchor == Some(coord)
                        &&& !follow
                    } else {
                        &&& final(self).selected() == set![coord]
                        &&& final(self).anchor == Some(coord)
                        &&& follow
                    },
                }
            }),
    {
        let coord = order[position];
        let mut anchor_at: Option<usize> = None;
        if let Some(anchor) = self.anchor {
            let mut i: usize = 0;
            while i < order.len()
                invariant
                    i <= order@.len(),
                    forall|k: int| 0 <= k < i ==> order@[k] != anchor,
                ensures
                    i <= order@.len(),
                    forall|k: int| 0 <= k < i ==> order@[k] != anchor,
                    i < order@.len() ==> order@[i as int] == anchor,
                decreases order.len() - i,
            {
                if order[i] == anchor {
                    break;
                }
                i = i + 1;
            }
            proof {
                lemma_first_position(order@, anchor, i as int);
            }
            if i < order.len() {
                anchor_at = Some(i);
            }
        }
        match anchor_at {
            Some(a) if shift => {
                if !ctrl {
                    self.tiles = Vec::new();
                }
                let ghost before = self.tiles@;
                let lo = if a < position { a } else { position };
                let hi = if a < position { position } else { a };
                let mut k: usize = lo;
                while k <= hi
                    invariant
                        lo <= k <= hi + 1,
                        hi < order.len(),
                        self.anchor == old(self).anchor,
                        self.tiles@ == before + order@.subrange(lo as int, k as int),
                    decreases hi + 1 - k,
                {
                    self.tiles.push(order[k]);
                    proof {
                        assert(order@.subrange(lo as int, k + 1) =~= order@.subrange(
                            lo as int,
                            k as int,
                        ).push(order@[k as int]));
                    }
                    k = k + 1;
                }
                proof {
                    let range = order@.subrange(lo as int, hi + 1);
                    seq_to_set_distributes_over_add(before, range);
                    assert(self.tiles@ =~= before + range);
                    if !ctrl {
                        assert(before.to_set() =~= Set::<Coord>::empty());
                    }
                }
                false
            },
            _ => {
                if ctrl {
                    let ghost before = self.tiles@;
                    if !remove_all(&mut self.tiles, coord) {
                        let ghost kept = self.tiles@;
                        self.tiles.push(coord);
                        proof {
                            kept.lemma_push_to_set_commute(coord);
                            assert(before.to_set().remove(coord) =~= before.to_set());
                        }
                    }
                    self.anchor = Some(coord);
                    false
                } else {
                    self.tiles = Vec::new();
                    self.tiles.push(coord);
                    self.anchor = Some(coord);
                    proof {
                        Seq::<Coord>::empty().lemma_push_to_set_commute(coord);
                        assert(self.tiles@ =~= Seq::<Coord>::empty().push(coord));
                        assert(Seq::<Coord>::empty().to_set() =~= Set::<Coord>::empty());
                        assert(Set::<Coord>::empty().insert(coord) =~= set![coord]);
                    }
                    true
                }
            },
        }
    }
}

/// How many conflicts are resolved: `resolved[i]` says whether the conflict of row `i` has a
/// side taken.
pub fn resolved_count(resolved: &Vec<bool>) -> (count: usize)
    ensures
        count == count_set(resolved@),
{
    let mut count: usize = 0;
    let mut i: usize = 0;
    while i < resolved.len()
        invariant
            i <= resolved@.len(),
            count <= i,
            count == count_set(resolved@.take(i as int)),
        decreases resolved.len() - i,
    {
        proof {
            assert(resolved@.take(i + 1).drop_last() =~= resolved@.take(i as int));
        }
        if resolved[i] {
            count = count + 1;
        }
        i = i + 1;
    }
    proof {
        assert(resolved@.take(i as int) =~= resolved@);
    }
    count
}

/// Whether the conflict table lists row `i`: with "unresolved only" a resolved row is hidden,
/// and with "current level only" a row on another level than `z`.
pub open spec fn lists_row(
    coords: Seq<Coord>,
    resolved: Seq<bool>,
    unresolved_only: bool,
    current_level_only: bool,
    z: u32,
    i: int,
) -> bool {
    &&& 0 <= i < coords.len()
    &&& (!unresolved_only || !resolved[i])
    &&& (!current_level_only || coords[i].z == z)
}

/// The rows the conflict table lists, in order.
pub fn visible_conflict_rows(
    coords: &Vec<Coord>,
    resolved: &Vec<bool>,
    unresolved_only: bool,
    current_level_only: bool,
    z: u32,
) -> (visible: Vec<usize>)
    requires
        resolved@.len() == coords@.len(),
    ensures
        forall|a: int, b: int| 0 <= a < b < visible@.len() ==> visible@[a] < visible@[b],
        forall|i: int|
            visible@.contains(i as usize) && 0 <= i <= usize::MAX <==> lists_row(
                coords@,
                resolved@,
                unresolved_only,
                current_level_only,
                z,
                i,
            ),
{
    let mut visible: Vec<usize> = Vec::new();
    let mut i: usize = 0;
    while i < coords.len()
        invariant
            resolved@.len() == coords@.len(),
            i <= coords@.len(),
            forall|a: int, b: int| 0 <= a < b < visible@.len() ==> visible@[a] < visible@[b],
            forall|k: int| 0 <= k < visible@.len() ==> visible@[k] < i,
            forall|j: int|
                0 <= j < i ==> (visible@.contains(j as usize) <==> lists_row(
                    coords@,
                    resolved@,
                    unresolved_only,
                    current_level_only,
                    z,
                    j,
                )),
            forall|k: int|
                0 <= k < visible@.len() ==> lists_row(
                    coords@,
                    resolved@,
                    unresolved_only,
                    current_level_only,
                    z,
                    visible@[k] as int,
                ),
        decreases coords.len() - i,
    {
        let ghost before = visible@;
        if (!unresolved_only || !resolved[i]) && (!current_level_only || coords[i].z == z) {
            visible.push(i);
            proof {
                assert forall|j: int| 0 <= j < i + 1 implies (visible@.contains(j as usize)
                    <==> lists_row(coords@, resolved@, unresolved_only, current_level_only, z, j)) by {
                    if j < i {
                        if before.contains(j as usize) {
                            let k = choose|k: int| 0 <= k < before.len() && before[k] == j as usize;
                            assert(visible@[k] == j as usize);
                        }
                        if visible@.contains(j as usize) {
                            let k = choose|k: int| 0 <= k < visible@.len() && visible@[k] == j as usize;
                            assert(k < before.len());
                            assert(before[k] == j as usize);
                        }
                    } else {
                        assert(visible@[before.len() as int] == i);
                    }
                }
            }
        } else {
            proof {
                assert(!visible@.contains(i)) by {
                    if visible@.contains(i) {
                        let k = choose|k: int| 0 <= k < visible@.len() && visible@[k] == i;
                    }
                }
            }
        }
        i = i + 1;
    }
    proof {
        assert forall|j: int| visible@.contains(j as usize) && 0 <= j <= usize::MAX implies lists_row(
            coords@,
            resolved@,
            unresolved_only,
            current_level_only,
            z,
            j,
        ) by {
            let k = choose|k: int| 0 <= k < visible@.len() && visible@[k] == j as usize;
        }
    }
    visible
}

/// What the "Take ours" and "Take theirs" buttons resolve: the selected rows among the listed
/// ones, or every conflict of the map when none is selected.
pub fn conflict_targets(selection: &RowSelection, listed: &Vec<Coord>, all: &Vec<Coord>) -> (targets: Vec<
    Coord,
>)
    ensures
        ({
            let picked = listed@.filter(|coord: Coord| selection.selected().contains(coord));
            targets@ == if picked.len() == 0 {
                all@
            } else {
                picked
            }
        }),
{
    let picked = selection.among(listed);
    if picked.len() == 0 {
        let mut copy: Vec<Coord> = Vec::new();
        let mut i: usize = 0;
        while i < all.len()
            invariant
                i <= all@.len(),
                copy@ == all@.take(i as int),
            decreases all.len() - i,
        {
            copy.push(all[i]);
            i = i + 1;
            assert(copy@ =~= all@.take(i as int));
        }
        assert(copy@ =~= all@);
        copy
    } else {
        picked
    }
}

/// The end of the take buttons' labels: " for all", or " (N selected)".
pub open spec fn spec_take_suffix(selected: nat) -> Seq<char> {
    if selected == 0 {
        seq![' ', 'f', 'o', 'r', ' ', 'a', 'l', 'l']
    } else {
        seq![' ', '('] + decimal(selected) + seq![' ', 's', 'e', 'l', 'e', 'c', 't', 'e', 'd', ')']
    }
}

pub fn take_suffix(selected: usize) -> (suffix: String)
    ensures
        suffix@ == spec_take_suffix(selected as nat),
{
    let mut suffix = String::new();
    if selected == 0 {
        suffix.push(' ');
        suffix.push('f');
        suffix.push('o');
        suffix.push('r');
        suffix.push(' ');
        suffix.push('a');
        suffix.push('l');
        suffix.push('l');
        assert(suffix@ =~= spec_take_suffix(selected as nat));
        return suffix;
    }
    suffix.push(' ');
    suffix.push('(');
    let digits = decimal_digits(selected);
    let mut i: usize = 0;
    while i < digits.len()
        invariant
            i <= digits@.len(),
            suffix@ == seq![' ', '('] + digits@.take(i as int),
        decreases digits.len() - i,
    {
        suffix.push(digits[i]);
        i = i + 1;
        assert(suffix@ =~= seq![' ', '('] + digits@.take(i as int));
    }
    assert(digits@.take(i as int) =~= digits@);
    let tail = [' ', 's', 'e', 'l', 'e', 'c', 't', 'e', 'd', ')'];
    let mut k: usize = 0;
    while k < 10
        invariant
            k <= 10,
            tail@ == seq![' ', 's', 'e', 'l', 'e', 'c', 't', 'e', 'd', ')'],
            suffix@ == seq![' ', '('] + decimal(selected as nat) + tail@.take(k as int),
        decreases 10 - k,
    {
        suffix.push(tail[k]);
        k = k + 1;
        assert(suffix@ =~= seq![' ', '('] + decimal(selected as nat) + tail@.take(k as int));
    }
    assert(tail@.take(10) =~= tail@);
    suffix
}

/// A row of the blame table: the tiles changed in the working tree, the tiles a commit last
/// changed (by the commit's position in the walked history), or the tiles older than the walk.
#[derive(Debug, Clone, Copy, PartialEq, Eq, Structural)]
pub enum BlameRow {
    Uncommitted,
    Commit(u32),
    Boundary,
}

/// The commit rows, in history order: every commit with "show all commits", otherwise the
/// commits that last changed at least one tile.
pub open spec fn commit_rows(counts: Seq<usize>, show_all: bool) -> Seq<BlameRow>
    decreases counts.len(),
{
    if counts.len() == 0 {
        seq![]
    } else {
        let earlier = commit_rows(counts.drop_last(), show_all);
        if show_all || counts.last() != 0 {
            earlier.push(BlameRow::Commit((counts.len() - 1) as u32))
        } else {
            earlier
        }
    }
}

/// The rows of the blame table: uncommitted changes first when there are any, then the commits,
/// then the tiles older than the walk when there are any.
pub open spec fn spec_blame_rows(uncommitted: usize, counts: Seq<usize>, boundary: usize, show_all: bool) -> Seq<
    BlameRow,
> {
    (if uncommitted != 0 {
        seq![BlameRow::Uncommitted]
    } else {
        seq![]
    }) + commit_rows(counts, show_all) + (if boundary != 0 {
        seq![BlameRow::Boundary]
    } else {
        seq![]
    })
}

/// The rows of the blame table from the number of tiles changed in the working tree
/// (`uncommitted`), last changed by each walked commit (`counts`), and older than the walk
/// (`boundary`).
pub fn blame_rows(uncommitted: usize, counts: &Vec<usize>, boundary: usize, show_all: bool) -> (rows: Vec<
    BlameRow,
>)
    requires
        counts@.len() <= u32::MAX + 1,
    ensures
        rows@ == spec_blame_rows(uncommitted, counts@, boundary, show_all),
{
    let mut rows: Vec<BlameRow> = Vec::new();
    if uncommitted != 0 {
        rows.push(BlameRow::Uncommitted);
    }
    let ghost head = rows@;
    let mut i: usize = 0;
    while i < counts.len()
        invariant
            counts@.len() <= u32::MAX + 1,
            i <= counts@.len(),
            head == (if uncommitted != 0 {
                seq![BlameRow::Uncommitted]
            } else {
                seq![]
            }),
            rows@ == head + commit_rows(counts@.take(i as int), show_all),
        decreases counts.len() - i,
    {
        proof {
            assert(counts@.take(i + 1).drop_last() =~= counts@.take(i as int));
        }
        if show_all || counts[i] != 0 {
            rows.push(BlameRow::Commit(i as u32));
        }
        i = i + 1;
        assert(rows@ =~= head + commit_rows(counts@.take(i as int), show_all));
    }
    proof {
        assert(counts@.take(i as int) =~= counts@);
    }
    if boundary != 0 {
        rows.push(BlameRow::Boundary);
    }
    assert(rows@ =~= spec_blame_rows(uncommitted, counts@, boundary, show_all));
    rows
}

/// How many tiles a blame row stands for (none for a commit past the walked history).
pub fn blame_row_tiles(row: BlameRow, uncommitted: usize, counts: &Vec<usize>, boundary: usize) -> (tiles:
    usize)
    ensures
        tiles == match row {
            BlameRow::Uncommitted => uncommitted,
            BlameRow::Boundary => boundary,
            BlameRow::Commit(index) => if index < counts@.len() {
                counts@[index as int]
            } else {
                0
            },
        },
{
    match row {
        BlameRow::Uncommitted => uncommitted,
        BlameRow::Boundary => boundary,
        BlameRow::Commit(index) => {
            let index = index as usize;
            if index < counts.len() {
                counts[index]
            } else {
                0
            }
        },
    }
}

/// The diff rows listed: every changed tile, or with "current level only" those on level `z`.
pub fn visible_diff_coords(coords: &Vec<Coord>, level_only: bool, z: u32) -> (visible: Vec<Coord>)
    ensures
        visible@ == coords@.filter(|coord: Coord| !level_only || coord.z == z),
{
    let ghost keep = |coord: Coord| !level_only || coord.z == z;
    let mut visible: Vec<Coord> = Vec::new();
    let mut i: usize = 0;
    while i < coords.len()
        invariant
            i <= coords@.len(),
            keep == (|coord: Coord| !level_only || coord.z == z),
            visible@ == coords@.take(i as int).filter(keep),
        decreases coords.len() - i,
    {
        let coord = coords[i];
        proof {
            assert(coords@.take(i + 1) =~= coords@.take(i as int).push(coord));
            coords@.take(i as int).lemma_filter_push(coord, keep);
        }
        if !level_only || coord.z == z {
            visible.push(coord);
        }
        i = i + 1;
    }
    proof {
        assert(coords@.take(i as int) =~= coords@);
    }
    visible
}

/// The tiles a row's context menu restores: the selected rows when the clicked row is one of
/// them, else the clicked row alone.
pub fn row_menu_targets(selection: &RowSelection, listed: &Vec<Coord>, coord: Coord) -> (targets: Vec<Coord>)
    ensures
        targets@ == if selection.selected().contains(coord) {
            listed@.filter(|c: Coord| selection.selected().contains(c))
        } else {
            seq![coord]
        },
{
    if selection.contains(coord) {
        selection.among(listed)
    } else {
        let mut targets: Vec<Coord> = Vec::new();
        targets.push(coord);
        assert(targets@ =~= seq![coord]);
        targets
    }
}

/// The end of the restore item's label: " (N tiles)" for more than one tile, else nothing.
pub open spec fn spec_tiles_suffix(count: nat) -> Seq<char> {
    if count > 1 {
        seq![' ', '('] + decimal(count) + seq![' ', 't', 'i', 'l', 'e', 's', ')']
    } else {
        seq![]
    }
}

pub fn tiles_suffix(count: usize) -> (suffix: String)
    ensures
        suffix@ == spec_tiles_suffix(count as nat),
{
    let mut suffix = String::new();
    if count <= 1 {
        assert(suffix@ =~= spec_tiles_suffix(count as nat));
        return suffix;
    }
    suffix.push(' ');
    suffix.push('(');
    let digits = decimal_digits(count);
    let mut i: usize = 0;
    while i < digits.len()
        invariant
            i <= digits@.len(),
            suffix@ == seq![' ', '('] + digits@.take(i as int),
        decreases digits.len() - i,
    {
        suffix.push(digits[i]);
        i = i + 1;
        assert(suffix@ =~= seq![' ', '('] + digits@.take(i as int));
    }
    assert(digits@.take(i as int) =~= digits@);
    let tail = [' ', 't', 'i', 'l', 'e', 's', ')'];
    let mut k: usize = 0;
    while k < 7
        invariant
            k <= 7,
            tail@ == seq![' ', 't', 'i', 'l', 'e', 's', ')'],
            suffix@ == seq![' ', '('] + decimal(count as nat) + tail@.take(k as int),
        decreases 7 - k,
    {
        suffix.push(tail[k]);
        k = k + 1;
        assert(suffix@ =~= seq![' ', '('] + decimal(count as nat) + tail@.take(k as int));
    }
    assert(tail@.take(7) =~= tail@);
    suffix
}

/// One side of a map comparison: the working map, or the map at a revision git can resolve.
#[derive(Debug, Clone, PartialEq, Eq)]
pub enum DiffSource {
    Working,
    Revision(String),
}

/// The comparison typed under "Compare other revisions", from the texts already trimmed: none
/// without a `from` revision; an empty `to` compares with the working map.
pub fn custom_diff_sources(from: String, to: String) -> (sources: Option<(DiffSource, DiffSource)>)
    ensures
        from@.len() == 0 ==> sources is None,
        from@.len() > 0 ==> (sources matches Some((DiffSource::Revision(f), target)) && f@ == from@
            && if to@.len() == 0 {
            target is Working
        } else {
            target matches DiffSource::Revision(t) && t@ == to@
        }),
{
    if from.unicode_len() == 0 {
        return None;
    }
    let target = if to.unicode_len() == 0 {
        DiffSource::Working
    } else {
        DiffSource::Revision(to)
    };
    Some((DiffSource::Revision(from), target))
}

/// The comparison typed under "Compare other revisions": both texts are trimmed of surrounding
/// whitespace first.
pub fn custom_diff_request(from: &str, to: &str) -> (sources: Option<(DiffSource, DiffSource)>)
    ensures
        trimmed(from@).len() == 0 ==> sources is None,
        trimmed(from@).len() > 0 ==> (sources matches Some((DiffSource::Revision(f), target)) && f@
            == trimmed(from@) && if trimmed(to@).len() == 0 {
            target is Working
        } else {
            target matches DiffSource::Revision(t) && t@ == trimmed(to@)
        }),
{
    custom_diff_sources(trim_text(from), trim_text(to))
}

/// The name git gives the last commit.
pub open spec fn head_name() -> Seq<char> {
    seq!['H', 'E', 'A', 'D']
}

/// What the "Changes" button of a row of the versions table compares, from the hashes of the
/// commits that changed the map, newest first. Row 0 is the working map, compared with the last
/// commit; row `i` is the commit `hashes[i - 1]`, compared with the next older commit, or with
/// its own parent (`<hash>~1`) when it is the oldest listed. There is no row past the history.
pub fn version_changes(hashes: &Vec<String>, position: usize) -> (sources: Option<(DiffSource, DiffSource)>)
    ensures
        position == 0 ==> (sources matches Some((DiffSource::Revision(from), DiffSource::Working))
            && from@ == head_name()),
        0 < position <= hashes@.len() ==> (sources matches Some(
            (DiffSource::Revision(from), DiffSource::Revision(to)),
        ) && to@ == hashes@[position - 1]@ && from@ == if position < hashes@.len() {
            hashes@[position as int]@
        } else {
            hashes@[position - 1]@ + seq!['~', '1']
        }),
        position > hashes@.len() ==> sources is None,
{
    if position == 0 {
        let mut head = String::new();
        head.push('H');
        head.push('E');
        head.push('A');
        head.push('D');
        assert(head@ =~= head_name());
        return Some((DiffSource::Revision(head), DiffSource::Working));
    }
    if position > hashes.len() {
        return None;
    }
    let current = hashes[position - 1].clone();
    let previous = if position < hashes.len() {
        hashes[position].clone()
    } else {
        let mut parent = hashes[position - 1].clone();
        parent.push('~');
        parent.push('1');
        parent
    };
    Some((DiffSource::Revision(previous), DiffSource::Revision(current)))
}

/// What the "vs Working" button of a commit row compares: the commit with the working map. The
/// working map's own row has no such button.
pub fn version_against_working(hashes: &Vec<String>, position: usize) -> (sources: Option<
    (DiffSource, DiffSource),
>)
    ensures
        0 < position <= hashes@.len() ==> (sources matches Some(
            (DiffSource::Revision(from), DiffSource::Working),
        ) && from@ == hashes@[position - 1]@),
        position == 0 || position > hashes@.len() ==> sources is None,
{
    if position == 0 || position > hashes.len() {
        return None;
    }
    Some((DiffSource::Revision(hashes[position - 1].clone()), DiffSource::Working))
}

/// The two buttons of a row of the versions table.
#[derive(Debug, Clone, Copy, PartialEq, Eq)]
pub enum VersionButton {
    /// "Changes": what the row's version changed.
    Changes,
    /// "vs Working": the row's commit against the working map.
    AgainstWorking,
}

/// What a click on a button of the versions table asks for: the comparison to run, and the row
/// to scroll to once the table is drawn again (the clicked row).
#[derive(Debug, Clone, PartialEq, Eq)]
pub struct VersionRequest {
    pub from: DiffSource,
    pub to: DiffSource,
    pub reveal: usize,
}

/// A click on `button` of the row at `position` of the versions table (row 0 is the working
/// map, row `i` the commit `hashes[i - 1]`): the comparison that `version_changes` or
/// `version_against_working` gives for that row, revealing the clicked row. `None` where the
/// row has no such button.
pub fn version_click(hashes: &Vec<String>, position: usize, button: VersionButton) -> (request:
    Option<VersionRequest>)
    ensures
        match button {
            VersionButton::Changes => position <= hashes@.len() <==> request is Some,
            VersionButton::AgainstWorking => 0 < position <= hashes@.len() <==> request is Some,
        },
        request matches Some(r) ==> r.reveal == position,
        position == 0 && button == VersionButton::Changes ==> (request matches Some(r) && r.from
            matches DiffSource::Revision(f) && f@ == head_name() && r.to is Working),
        0 < position <= hashes@.len() && button == VersionButton::Changes ==> (request matches Some(
            r,
        ) && r.from matches DiffSource::Revision(f) && r.to matches DiffSource::Revision(t) && t@
            == hashes@[position - 1]@ && f@ == if position < hashes@.len() {
            hashes@[position as int]@
        } else {
            hashes@[position - 1]@ + seq!['~', '1']
        }),
        0 < position <= hashes@.len() && button == VersionButton::AgainstWorking ==> (
        request matches Some(r) && r.from matches DiffSource::Revision(f) && f@ == hashes@[position
            - 1]@ && r.to is Working),
{
    let sources = match button {
        VersionButton::Changes => version_changes(hashes, position),
        VersionButton::AgainstWorking => version_against_working(hashes, position),
    };
    match sources {
        Some((from, to)) => Some(VersionRequest { from, to, reveal: position }),
        None => None,
    }
}

/// One side of the comparison loaded in the diff table: whether it is the working map, and the
/// hash of the commit it was read from, where git resolved one.
#[derive(Debug, Clone, PartialEq, Eq)]
pub struct LoadedSide {
    pub working: bool,
    pub commit: Option<String>,
}

/// The badge of a row of the versions table that is part of the loaded comparison.
#[derive(Debug, Clone, Copy, PartialEq, Eq)]
pub enum VersionRole {
    From,
    To,
}

/// Whether a loaded side is the version of the row at `position`: the working map for row 0,
/// the commit `hashes[position - 1]` for the others.
pub open spec fn side_is_row(side: LoadedSide, hashes: Seq<String>, position: int) -> bool {
    if position == 0 {
        side.working
    } else {
        side.commit matches Some(h) && h@ == hashes[position - 1]@
    }
}

/// The badge of a row, given the loaded comparison `(from, to)`: TO where the row is the target
/// side, else FROM where it is the source side, else none; none when nothing is loaded.
pub open spec fn spec_version_role(
    loaded: Option<(LoadedSide, LoadedSide)>,
    hashes: Seq<String>,
    position: int,
) -> Option<VersionRole> {
    match loaded {
        None => None,
        Some((from, to)) => if side_is_row(to, hashes, position) {
            Some(VersionRole::To)
        } else if side_is_row(from, hashes, position) {
            Some(VersionRole::From)
        } else {
            None
        },
    }
}

fn side_matches_row(side: &LoadedSide, hashes: &Vec<String>, position: usize) -> (matches: bool)
    requires
        position <= hashes@.len(),
    ensures
        matches == side_is_row(*side, hashes@, position as int),
{
    if position == 0 {
        side.working
    } else {
        match &side.commit {
            Some(h) => str_equal(h.as_str(), hashes[position - 1].as_str()),
            None => false,
        }
    }
}

/// The FROM or TO badge of the row at `position` of the versions table (row 0 the working map,
/// row `i` the commit `hashes[i - 1]`), from the sides of the loaded comparison.
pub fn version_role(loaded: &Option<(LoadedSide, LoadedSide)>, hashes: &Vec<String>, position: usize) -> (role:
    Option<VersionRole>)
    requires
        position <= hashes@.len(),
    ensures
        role == spec_version_role(*loaded, hashes@, position as int),
{
    match loaded {
        None => None,
        Some((from, to)) => {
            if side_matches_row(to, hashes, position) {
                Some(VersionRole::To)
            } else if side_matches_row(from, hashes, position) {
                Some(VersionRole::From)
            } else {
                None
            }
        },
    }
}

} // verus!
