//! Map coordinates, map sizes and rectangular block selections.
use vstd::prelude::*;

verus! {

/// A tile position on a map: `x` grows east, `y` grows north, `z` is the level, all one-based.
#[derive(Debug, Clone, Copy, PartialEq, Eq, Hash, Structural)]
pub struct Coord {
    pub x: u32,
    pub y: u32,
    pub z: u32,
}

/// The extent of a map in tiles along each axis.
#[derive(Debug, Clone, Copy, PartialEq, Eq, Hash, Structural)]
pub struct Size {
    pub x: u32,
    pub y: u32,
    pub z: u32,
}

/// An inclusive rectangle of tiles on one level, from its lower left corner `min`
/// to its upper right corner `max`.
#[derive(Debug, Clone, Copy, PartialEq, Eq, Hash, Structural)]
pub struct Selection {
    pub min: Coord,
    pub max: Coord,
}

impl Coord {
    pub fn new(x: u32, y: u32, z: u32) -> (coord: Coord)
        ensures
            coord == (Coord { x, y, z }),
    {
        Coord { x, y, z }
    }
}

/// Whether `coord` lies on the map: every axis is between one and the map's extent.
pub open spec fn in_bounds(coord: Coord, size: Size) -> bool {
    &&& 1 <= coord.x <= size.x
    &&& 1 <= coord.y <= size.y
    &&& 1 <= coord.z <= size.z
}

/// Row-major order of tiles: by level, then row, then column.
pub open spec fn position_before(a: Coord, b: Coord) -> bool {
    ||| a.z < b.z
    ||| a.z == b.z && a.y < b.y
    ||| a.z == b.z && a.y == b.y && a.x < b.x
}

/// The coordinates in `s` strictly increase in row-major order (so none repeats).
pub open spec fn sorted_by_position(s: Seq<Coord>) -> bool {
    forall|i: int, j: int| 0 <= i < j < s.len() ==> position_before(#[trigger] s[i], #[trigger] s[j])
}

/// The number of tiles between `lo` and `hi` inclusive, zero when `hi < lo`.
pub open spec fn span(lo: u32, hi: u32) -> int {
    if lo <= hi {
        hi - lo + 1
    } else {
        0
    }
}

impl Selection {
    /// The corners are ordered and both lie on the same level.
    pub open spec fn well_formed(self) -> bool {
        &&& self.min.x <= self.max.x
        &&& self.min.y <= self.max.y
        &&& self.min.z == self.max.z
    }

    /// Whether the tile `coord` is part of the rectangle.
    pub open spec fn has(self, coord: Coord) -> bool {
        &&& self.min.x <= coord.x <= self.max.x
        &&& self.min.y <= coord.y <= self.max.y
        &&& coord.z == self.min.z
        &&& coord.z == self.max.z
    }

    /// The width in tiles, saturating at the largest `u32`.
    pub open spec fn spec_width(self) -> u32 {
        if self.min.x <= self.max.x {
            if span(self.min.x, self.max.x) > u32::MAX {
                u32::MAX
            } else {
                span(self.min.x, self.max.x) as u32
            }
        } else {
            0
        }
    }

    /// The height in tiles, saturating at the largest `u32`.
    pub open spec fn spec_height(self) -> u32 {
        if self.min.y <= self.max.y {
            if span(self.min.y, self.max.y) > u32::MAX {
                u32::MAX
            } else {
                span(self.min.y, self.max.y) as u32
            }
        } else {
            0
        }
    }

    /// The rectangle spanned by two corners of a drag, on the level of `start`.
    pub fn from_drag(start: Coord, end: Coord) -> (selection: Selection)
        ensures
            selection.min == (Coord {
                x: if start.x <= end.x { start.x } else { end.x },
                y: if start.y <= end.y { start.y } else { end.y },
                z: start.z,
            }),
            selection.max == (Coord {
                x: if start.x <= end.x { end.x } else { start.x },
                y: if start.y <= end.y { end.y } else { start.y },
                z: start.z,
            }),
            selection.well_formed(),
    {
        let (min_x, max_x) = if start.x <= end.x { (start.x, end.x) } else { (end.x, start.x) };
        let (min_y, max_y) = if start.y <= end.y { (start.y, end.y) } else { (end.y, start.y) };
        Selection {
            min: Coord { x: min_x, y: min_y, z: start.z },
            max: Coord { x: max_x, y: max_y, z: start.z },
        }
    }

    pub fn is_well_formed(&self) -> (ok: bool)
        ensures
            ok == self.well_formed(),
    {
        self.min.x <= self.max.x && self.min.y <= self.max.y && self.min.z == self.max.z
    }

    pub fn contains(&self, coord: Coord) -> (inside: bool)
        ensures
            inside == self.has(coord),
    {
        self.min.x <= coord.x && coord.x <= self.max.x && self.min.y <= coord.y && coord.y
            <= self.max.y && coord.z == self.min.z && coord.z == self.max.z
    }

    pub fn width(&self) -> (width: u32)
        ensures
            width == self.spec_width(),
    {
        if self.min.x <= self.max.x {
            (self.max.x - self.min.x).saturating_add(1)
        } else {
            0
        }
    }

    pub fn height(&self) -> (height: u32)
        ensures
            height == self.spec_height(),
    {
        if self.min.y <= self.max.y {
            (self.max.y - self.min.y).saturating_add(1)
        } else {
            0
        }
    }

    /// The same rectangle moved so that its lower left corner is `target_min`,
    /// or `None` when the rectangle is not well formed or would leave the `u32` range.
    pub open spec fn spec_with_min(self, target_min: Coord) -> Option<Selection> {
        if !self.well_formed() || target_min.x + (self.max.x - self.min.x) > u32::MAX
            || target_min.y + (self.max.y - self.min.y) > u32::MAX {
            None
        } else {
            Some(
                Selection {
                    min: target_min,
                    max: Coord {
                        x: (target_min.x + (self.max.x - self.min.x)) as u32,
                        y: (target_min.y + (self.max.y - self.min.y)) as u32,
                        z: target_min.z,
                    },
                },
            )
        }
    }

    pub fn with_min(&self, target_min: Coord) -> (moved: Option<Selection>)
        ensures
            moved == self.spec_with_min(target_min),
    {
        if !self.is_well_formed() {
            return None;
        }
        let x = target_min.x.checked_add(self.max.x - self.min.x)?;
        let y = target_min.y.checked_add(self.max.y - self.min.y)?;
        Some(Selection { min: target_min, max: Coord { x, y, z: target_min.z } })
    }

    /// Every tile of the rectangle, row by row from the bottom, each row from west to east.
    pub fn tiles(&self) -> (tiles: Vec<Coord>)
        ensures
            forall|c: Coord| tiles@.contains(c) <==> self.has(c),
            sorted_by_position(tiles@),
    {
        let mut tiles: Vec<Coord> = Vec::new();
        if !self.is_well_formed() {
            proof {
                assert forall|c: Coord| tiles@.contains(c) <==> self.has(c) by {
                    if self.has(c) {
                        assert(false);
                    }
                }
            }
            return tiles;
        }
        let z = self.min.z;
        let mut y: u64 = self.min.y as u64;
        while y <= self.max.y as u64
            invariant
                self.well_formed(),
                z == self.min.z,
                self.min.y <= y <= self.max.y as u64 + 1,
                forall|c: Coord|
                    tiles@.contains(c) <==> (self.has(c) && (c.y as u64) < y),
                sorted_by_position(tiles@),
                forall|i: int| 0 <= i < tiles@.len() ==> (#[trigger] tiles@[i]).y < y && tiles@[i].z == z,
            decreases self.max.y as u64 + 1 - y,
        {
            let mut x: u64 = self.min.x as u64;
            while x <= self.max.x as u64
                invariant
                    self.well_formed(),
                    z == self.min.z,
                    self.min.y <= y <= self.max.y,
                    self.min.x <= x <= self.max.x as u64 + 1,
                    forall|c: Coord|
                        tiles@.contains(c) <==> (self.has(c) && ((c.y as u64) < y || (c.y as u64
                            == y && (c.x as u64) < x))),
                    sorted_by_position(tiles@),
                    forall|i: int|
                        0 <= i < tiles@.len() ==> ((#[trigger] tiles@[i]).y < y || (tiles@[i].y
                            == y && tiles@[i].x < x)) && tiles@[i].z == z,
                decreases self.max.x as u64 + 1 - x,
            {
                let c = Coord { x: x as u32, y: y as u32, z };
                let ghost before = tiles@;
                tiles.push(c);
                proof {
                    assert forall|d: Coord|
                        tiles@.contains(d) <==> (self.has(d) && ((d.y as u64) < y || (d.y as u64
                            == y && (d.x as u64) < x + 1))) by {
                        if tiles@.contains(d) {
                            let k = choose|k: int| 0 <= k < tiles@.len() && tiles@[k] == d;
                            if k < before.len() {
                                assert(before[k] == d);
                                assert(before.contains(d));
                            }
                        }
                        if self.has(d) && ((d.y as u64) < y || (d.y as u64 == y && (d.x as u64)
                            < x + 1)) {
                            if d == c {
                                assert(tiles@[before.len() as int] == d);
                            } else {
                                assert(before.contains(d));
                                let k = choose|k: int| 0 <= k < before.len() && before[k] == d;
                                assert(tiles@[k] == d);
                            }
                        }
                    }
                }
                x = x + 1;
            }
            y = y + 1;
        }
        tiles
    }
}

} // verus!
