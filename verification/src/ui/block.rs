//! Block selection options, the hole of a hollow block, and the controls shown for a block.
use vstd::prelude::*;

use crate::geometry::{Coord, Selection, Size};
use crate::tool::{
    BlockSelectionMode,
    SelectionMask,
    SelectionRotation,
    Tool,
    effective_line_width,
    spec_includes,
};

verus! {

/// The block selection settings of the toolbar: a full rectangle, or a border of `line_width`
/// tiles (kept while the full rectangle is chosen).
#[derive(Debug, Clone, Copy, PartialEq, Eq, Structural)]
pub struct BlockSelectionOptions {
    pub full_rectangle: bool,
    pub line_width: i32,
}

impl Default for BlockSelectionOptions {
    fn default() -> (options: Self)
        ensures
            options == (BlockSelectionOptions { full_rectangle: true, line_width: 1 }),
    {
        BlockSelectionOptions { full_rectangle: true, line_width: 1 }
    }
}

/// The border width of the options, at least one tile even for a stale zero or negative value.
pub open spec fn clamped_line_width(line_width: i32) -> u32 {
    if line_width < 1 {
        1
    } else {
        line_width as u32
    }
}

/// A border is always at least one tile wide, and as wide as configured from one tile up, so a
/// stale zero or negative width never wraps round to a huge one.
pub proof fn lemma_line_width_at_least_one(line_width: i32)
    ensures
        clamped_line_width(line_width) >= 1,
        line_width >= 1 ==> clamped_line_width(line_width) == line_width,
        line_width < 1 ==> clamped_line_width(line_width) == 1,
{
}

pub open spec fn spec_options_mode(options: BlockSelectionOptions) -> BlockSelectionMode {
    if options.full_rectangle {
        BlockSelectionMode::Full
    } else {
        BlockSelectionMode::Hollow { line_width: clamped_line_width(options.line_width) }
    }
}

impl BlockSelectionOptions {
    /// The mode a drag selects: a border while shift is held, the chosen mode otherwise.
    pub fn drawing_mode(self, shift: bool) -> (mode: BlockSelectionMode)
        ensures
            mode == if shift {
                BlockSelectionMode::Hollow { line_width: clamped_line_width(self.line_width) }
            } else {
                spec_options_mode(self)
            },
    {
        if shift {
            self.hollow()
        } else {
            self.mode()
        }
    }

    pub fn mode(self) -> (mode: BlockSelectionMode)
        ensures
            mode == spec_options_mode(self),
    {
        if self.full_rectangle {
            BlockSelectionMode::Full
        } else {
            self.hollow()
        }
    }

    fn hollow(self) -> (mode: BlockSelectionMode)
        ensures
            mode == (BlockSelectionMode::Hollow { line_width: clamped_line_width(self.line_width) }),
    {
        let line_width: u32 = if self.line_width < 1 { 1 } else { self.line_width as u32 };
        BlockSelectionMode::Hollow { line_width }
    }

    /// "Full rectangle", "Border, 1 tile", or "Border, N tiles".
    pub fn label(self) -> (label: String)
        ensures
            label@ == match spec_options_mode(self) {
                BlockSelectionMode::Full => "Full rectangle"@,
                BlockSelectionMode::Hollow { line_width } => if line_width == 1 {
                    "Border, 1 tile"@
                } else {
                    "Border, "@ + crate::text::decimal(line_width as nat) + " tiles"@
                },
            },
    {
        match self.mode() {
            BlockSelectionMode::Full => String::from_str("Full rectangle"),
            BlockSelectionMode::Hollow { line_width } => {
                if line_width == 1 {
                    String::from_str("Border, 1 tile")
                } else {
                    let digits = crate::text::decimal_digits(line_width as usize);
                    let mut label = String::from_str("Border, ");
                    label.append(crate::text::string_of(&digits).as_str());
                    label.append(" tiles");
                    label
                }
            },
        }
    }
}

/// A block waiting for the move, copy or fill buttons: where it is, where it would go, and how
/// it would be turned.
#[derive(Debug, Clone, Copy, PartialEq, Eq, Structural)]
pub struct PendingBlockPlacement {
    pub source: Selection,
    pub target: Selection,
    pub rotation: SelectionRotation,
}

/// The hole of a hollow block: the rectangle inset by the line width on every side, or `None`
/// for a full block and for a border too wide to leave a hole.
pub open spec fn spec_hollow_selection_inner(selection: Selection, mode: BlockSelectionMode) -> Option<
    Selection,
> {
    match mode {
        BlockSelectionMode::Full => None,
        BlockSelectionMode::Hollow { line_width } => {
            let w = effective_line_width(line_width) as int;
            if selection.min.x + w > u32::MAX || selection.min.y + w > u32::MAX || selection.max.x
                - w < 0 || selection.max.y - w < 0 {
                None
            } else if selection.min.x + w <= selection.max.x - w && selection.min.y + w
                <= selection.max.y - w {
                Some(
                    Selection {
                        min: Coord {
                            x: (selection.min.x + w) as u32,
                            y: (selection.min.y + w) as u32,
                            z: selection.min.z,
                        },
                        max: Coord {
                            x: (selection.max.x - w) as u32,
                            y: (selection.max.y - w) as u32,
                            z: selection.max.z,
                        },
                    },
                )
            } else {
                None
            }
        },
    }
}

pub fn hollow_selection_inner(selection: Selection, mode: BlockSelectionMode) -> (inner: Option<
    Selection,
>)
    ensures
        inner == spec_hollow_selection_inner(selection, mode),
{
    let line_width = match mode {
        BlockSelectionMode::Full => {
            return None;
        },
        BlockSelectionMode::Hollow { line_width } => line_width,
    };
    let line_width = if line_width < 1 { 1 } else { line_width };
    let min = Coord::new(
        selection.min.x.checked_add(line_width)?,
        selection.min.y.checked_add(line_width)?,
        selection.min.z,
    );
    let max = Coord::new(
        selection.max.x.checked_sub(line_width)?,
        selection.max.y.checked_sub(line_width)?,
        selection.max.z,
    );
    if min.x <= max.x && min.y <= max.y {
        Some(Selection { min, max })
    } else {
        None
    }
}

/// A hollow block edits exactly the tiles of the block outside its hole.
pub proof fn lemma_hollow_is_block_minus_hole(selection: Selection, line_width: u32, coord: Coord)
    requires
        selection.well_formed(),
    ensures
        spec_includes(BlockSelectionMode::Hollow { line_width }, selection, coord) == (
        selection.has(coord) && match spec_hollow_selection_inner(
            selection,
            BlockSelectionMode::Hollow { line_width },
        ) {
            Some(hole) => !(hole.min.x <= coord.x <= hole.max.x && hole.min.y <= coord.y
                <= hole.max.y),
            None => true,
        }),
{
}

/// Which block is offered the move, copy and fill controls: with the block or fill tool, while
/// no drag or rotation is under way, the pending placement, or else the selection where it is.
pub fn block_controls_placement(
    tool: Tool,
    selecting: bool,
    rotation_open: bool,
    selection: Option<Selection>,
    pending: Option<PendingBlockPlacement>,
) -> (placement: Option<PendingBlockPlacement>)
    ensures
        placement == if (tool == Tool::BlockSelect || tool == Tool::Fill) && !selecting
            && !rotation_open {
            match selection {
                Some(source) => match pending {
                    Some(p) => Some(p),
                    None => Some(
                        PendingBlockPlacement {
                            source,
                            target: source,
                            rotation: SelectionRotation::Original,
                        },
                    ),
                },
                None => None,
            }
        } else {
            None
        },
{
    if (tool == Tool::BlockSelect || tool == Tool::Fill) && !selecting && !rotation_open {
        match selection {
            Some(source) => match pending {
                Some(p) => Some(p),
                None => Some(
                    PendingBlockPlacement { source, target: source, rotation: SelectionRotation::Original },
                ),
            },
            None => None,
        }
    } else {
        None
    }
}

/// The two sets of buttons shown beside a block on the map.
#[derive(Debug, Clone, Copy, PartialEq, Eq, Structural)]
pub enum PlacementControls {
    Block,
    Paste,
}

impl PlacementControls {
    pub fn labels(self) -> (labels: Vec<&'static str>)
        ensures
            labels@.len() == match self {
                PlacementControls::Block => 4int,
                PlacementControls::Paste => 2int,
            },
            self == PlacementControls::Block ==> labels@[0]@ == "Move"@ && labels@[1]@ == "Copy"@
                && labels@[2]@ == "Fill selection"@ && labels@[3]@ == "Clear selection"@,
            self == PlacementControls::Paste ==> labels@[0]@ == "Paste"@ && labels@[1]@
                == "Cancel"@,
    {
        match self {
            PlacementControls::Block => vec!["Move", "Copy", "Fill selection", "Clear selection"],
            PlacementControls::Paste => vec!["Paste", "Cancel"],
        }
    }

    /// How many rows of controls the set takes.
    pub fn rows(self) -> (rows: usize)
        ensures
            rows == match self {
                PlacementControls::Block => 3usize,
                PlacementControls::Paste => 1usize,
            },
    {
        match self {
            PlacementControls::Block => 3,
            PlacementControls::Paste => 1,
        }
    }
}

/// The selection a rectangle drag started from, kept so that an aborted drag can put it back.
#[derive(Debug, Clone, Copy, PartialEq, Eq, Structural)]
pub struct RectangleGesture {
    pub start: Option<SelectionMask>,
    pub z: u32,
}

/// The block selection of a map document on its current level.
#[derive(Debug, Clone, Copy, PartialEq, Eq, Structural)]
pub struct DocumentSelection {
    pub z: u32,
    pub selection: Option<Selection>,
    pub selection_mode: BlockSelectionMode,
}

/// Ends a rectangle drag without keeping it: the document, when it is still open, gets back the
/// selection the drag started from if it is still on the level of the drag.
pub fn restore_rectangle_gesture(
    document: &mut Option<DocumentSelection>,
    gesture: &mut Option<RectangleGesture>,
)
    ensures
        final(gesture).is_none(),
        *final(document) == match (*old(gesture), *old(document)) {
            (Some(g), Some(doc)) => if doc.z == g.z {
                Some(
                    DocumentSelection {
                        z: doc.z,
                        selection: match g.start {
                            Some(mask) => Some(mask.bounds),
                            None => None,
                        },
                        selection_mode: match g.start {
                            Some(mask) => mask.mode,
                            None => BlockSelectionMode::Full,
                        },
                    },
                )
            } else {
                Some(doc)
            },
            _ => *old(document),
        },
{
    if let Some(g) = gesture.take() {
        if let Some(doc) = document.as_mut() {
            if doc.z == g.z {
                doc.selection = match g.start {
                    Some(mask) => Some(mask.bounds),
                    None => None,
                };
                doc.selection_mode = match g.start {
                    Some(mask) => mask.mode,
                    None => BlockSelectionMode::Full,
                };
            }
        }
    }
}

/// The tile (counted from 1) of a map axis `extent` tiles long holding the zero-based tile
/// `index`, kept on the map.
pub open spec fn clamped_tile(index: i64, extent: u32) -> u32 {
    if index + 1 < 1 {
        1
    } else if index + 1 > extent {
        extent
    } else {
        (index + 1) as u32
    }
}

fn clamp_tile(index: i64, extent: u32) -> (tile: u32)
    requires
        extent >= 1,
    ensures
        tile == clamped_tile(index, extent),
{
    if index < 0 {
        1
    } else if index >= extent as i64 {
        extent
    } else {
        (index + 1) as u32
    }
}

/// The tile a rectangle drag is over, from the zero-based tile the pointer is on (which may lie
/// off the map), kept on a map of `size` on level `z`; none on a map without tiles.
pub fn rectangle_drag_tile(tile_x: i64, tile_y: i64, size: Size, z: u32) -> (coord: Option<Coord>)
    ensures
        size.x == 0 || size.y == 0 ==> coord is None,
        size.x > 0 && size.y > 0 ==> coord == Some(
            Coord { x: clamped_tile(tile_x, size.x), y: clamped_tile(tile_y, size.y), z },
        ),
{
    if size.x == 0 || size.y == 0 {
        return None;
    }
    Some(Coord::new(clamp_tile(tile_x, size.x), clamp_tile(tile_y, size.y), z))
}

} // verus!
