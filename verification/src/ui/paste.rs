//! Where a pasted block lands, and when its controls show.
use vstd::prelude::*;

use crate::geometry::{Coord, Selection, Size};
use crate::tool::SelectionRotation;

verus! {

/// A paste waiting to be placed: the lower left corner of its footprint on the destination map,
/// and how it is turned.
#[derive(Debug, Clone, Copy, PartialEq, Eq, Structural)]
pub struct PendingPaste {
    pub min: Coord,
    pub rotation: SelectionRotation,
}

#[derive(Debug, Clone, Copy, PartialEq, Eq, Structural)]
pub enum PasteAction {
    Paste,
    Cancel,
}

/// The block the paste controls go with: the target, unless the rotation menu is open.
pub fn paste_controls(rotation_open: bool, target: Option<Selection>) -> (shown: Option<Selection>)
    ensures
        shown == if rotation_open {
            None
        } else {
            target
        },
{
    if rotation_open {
        None
    } else {
        target
    }
}

/// The first tile, along one axis, of a footprint `extent` tiles long (at least one) centred on
/// `anchor`, leaning one tile towards the origin when the extent is even, then moved to start
/// no later than where it still ends on the map edge `limit`, and never before tile 1.
pub open spec fn paste_start(anchor: u32, extent: u32, limit: u32) -> int {
    let e: int = if extent < 1 {
        1
    } else {
        extent as int
    };
    let last: int = if limit - (e - 1) >= 1 {
        limit - (e - 1)
    } else {
        1
    };
    let centred: int = if anchor - (e - 1) / 2 >= 1 {
        anchor - (e - 1) / 2
    } else {
        1
    };
    if centred <= last {
        centred
    } else {
        last
    }
}

fn place(anchor: u32, extent: u32, limit: u32) -> (start: u32)
    ensures
        start == paste_start(anchor, extent, limit),
{
    let extent = if extent < 1 { 1 } else { extent };
    let last = limit.saturating_sub(extent - 1);
    let last = if last < 1 { 1 } else { last };
    let centred = anchor.saturating_sub((extent - 1) / 2);
    let centred = if centred < 1 { 1 } else { centred };
    if centred <= last {
        centred
    } else {
        last
    }
}

/// The lower left corner of a `width` by `height` paste centred on `anchor`, kept on a map of
/// `map_size`.
pub fn centered_paste_min(width: u32, height: u32, anchor: Coord, map_size: Size) -> (min: Coord)
    ensures
        min.x == paste_start(anchor.x, width, map_size.x),
        min.y == paste_start(anchor.y, height, map_size.y),
        min.z == anchor.z,
{
    Coord::new(place(anchor.x, width, map_size.x), place(anchor.y, height, map_size.y), anchor.z)
}

/// A pasted footprint never starts before the first tile, and when it is no longer than the map
/// it ends on the map.
pub proof fn lemma_paste_stays_on_map(anchor: u32, extent: u32, limit: u32)
    ensures
        paste_start(anchor, extent, limit) >= 1,
        1 <= extent <= limit ==> paste_start(anchor, extent, limit) + extent - 1 <= limit,
{
}

} // verus!
