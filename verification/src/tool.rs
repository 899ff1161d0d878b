//! Editing tools: block transforms, hollow block masks, the requests and plans of block edits,
//! how an atom turns with its block, and directional type variants.
use vstd::prelude::*;

use crate::geometry::{Coord, Selection, Size, in_bounds, position_before, sorted_by_position, span};

verus! {

/// The most tiles a bucket fill changes unless the caller raises the limit.
pub const MAX_FILL_TILES: usize = 5000;

#[derive(Debug, Clone, Copy, PartialEq, Eq, Structural)]
pub enum Tool {
    Place,
    Select,
    BlockSelect,
    Delete,
    Fill,
}

impl Default for Tool {
    fn default() -> (tool: Self)
        ensures
            tool == Tool::Select,
    {
        Tool::Select
    }
}

#[derive(Debug, Clone, Copy, PartialEq, Eq, Structural)]
pub enum SelectionTransform {
    RotateClockwise,
    RotateCounterClockwise,
    MirrorHorizontal,
    MirrorVertical,
}

#[derive(Debug, Clone, Copy, PartialEq, Eq, Structural)]
pub enum SelectionRotation {
    Original,
    Clockwise,
    Half,
    CounterClockwise,
}

impl Default for SelectionRotation {
    fn default() -> (rotation: Self)
        ensures
            rotation == SelectionRotation::Original,
    {
        SelectionRotation::Original
    }
}

#[derive(Debug, Clone, Copy, PartialEq, Eq, Structural)]
pub enum SelectionPlacement {
    Move,
    Copy,
}

#[derive(Debug, Clone, Copy, PartialEq, Eq, Structural)]
pub enum FillMode {
    Wall,
    EntireArea,
    Custom,
}

impl Default for FillMode {
    fn default() -> (mode: Self)
        ensures
            mode == FillMode::Wall,
    {
        FillMode::Wall
    }
}

#[derive(Debug, Clone, Copy, PartialEq, Eq, Structural)]
pub enum BlockSelectionMode {
    Full,
    Hollow { line_width: u32 },
}

impl Default for BlockSelectionMode {
    fn default() -> (mode: Self)
        ensures
            mode == BlockSelectionMode::Full,
    {
        BlockSelectionMode::Full
    }
}

/// A block selection together with the part of it that edits apply to.
#[derive(Debug, Clone, Copy, PartialEq, Eq, Structural)]
pub struct SelectionMask {
    pub bounds: Selection,
    pub mode: BlockSelectionMode,
}

#[derive(Debug, Clone, Copy, PartialEq, Eq, Structural)]
pub enum FillError {
    TooLarge { limit: usize },
}

/// The eight facing directions an atom can have.
#[derive(Debug, Clone, Copy, PartialEq, Eq, Structural)]
pub enum Dir {
    North,
    South,
    East,
    West,
    Northeast,
    Northwest,
    Southeast,
    Southwest,
}

// ----------------------------------------------------------------------------------------------
// Rotations
// ----------------------------------------------------------------------------------------------

pub open spec fn spec_clockwise(rotation: SelectionRotation) -> SelectionRotation {
    match rotation {
        SelectionRotation::Original => SelectionRotation::Clockwise,
        SelectionRotation::Clockwise => SelectionRotation::Half,
        SelectionRotation::Half => SelectionRotation::CounterClockwise,
        SelectionRotation::CounterClockwise => SelectionRotation::Original,
    }
}

/// The transforms that turn a block from its original orientation to `rotation`, in order.
pub open spec fn rotation_transforms(rotation: SelectionRotation) -> Seq<SelectionTransform> {
    match rotation {
        SelectionRotation::Original => seq![],
        SelectionRotation::Clockwise => seq![SelectionTransform::RotateClockwise],
        SelectionRotation::Half => seq![
            SelectionTransform::RotateClockwise,
            SelectionTransform::RotateClockwise,
        ],
        SelectionRotation::CounterClockwise => seq![SelectionTransform::RotateCounterClockwise],
    }
}

impl SelectionRotation {
    /// The rotation a further quarter turn clockwise.
    pub fn clockwise(self) -> (next: Self)
        ensures
            next == spec_clockwise(self),
    {
        match self {
            SelectionRotation::Original => SelectionRotation::Clockwise,
            SelectionRotation::Clockwise => SelectionRotation::Half,
            SelectionRotation::Half => SelectionRotation::CounterClockwise,
            SelectionRotation::CounterClockwise => SelectionRotation::Original,
        }
    }

    pub fn transforms(self) -> (transforms: Vec<SelectionTransform>)
        ensures
            transforms@ == rotation_transforms(self),
    {
        match self {
            SelectionRotation::Original => Vec::new(),
            SelectionRotation::Clockwise => vec![SelectionTransform::RotateClockwise],
            SelectionRotation::Half => vec![
                SelectionTransform::RotateClockwise,
                SelectionTransform::RotateClockwise,
            ],
            SelectionRotation::CounterClockwise => vec![SelectionTransform::RotateCounterClockwise],
        }
    }
}

/// Four quarter turns clockwise bring every rotation back to itself.
pub proof fn lemma_four_quarter_turns(rotation: SelectionRotation)
    ensures
        spec_clockwise(spec_clockwise(spec_clockwise(spec_clockwise(rotation)))) == rotation,
{
}

impl FillMode {
    pub fn label(self) -> (label: &'static str)
        ensures
            label@ == match self {
                FillMode::Wall => "Wall"@,
                FillMode::EntireArea => "Entire Area"@,
                FillMode::Custom => "Custom"@,
            },
    {
        match self {
            FillMode::Wall => "Wall",
            FillMode::EntireArea => "Entire Area",
            FillMode::Custom => "Custom",
        }
    }
}

impl Tool {
    pub fn label(self) -> (label: &'static str)
        ensures
            label@ == match self {
                Tool::Place => "Place"@,
                Tool::Select => "Select"@,
                Tool::BlockSelect => "Block Select"@,
                Tool::Delete => "Delete"@,
                Tool::Fill => "Fill"@,
            },
    {
        match self {
            Tool::Place => "Place",
            Tool::Select => "Select",
            Tool::BlockSelect => "Block Select",
            Tool::Delete => "Delete",
            Tool::Fill => "Fill",
        }
    }
}

// ----------------------------------------------------------------------------------------------
// Points inside a block
// ----------------------------------------------------------------------------------------------

/// Where the point `(x, y)` of a `width` by `height` block lands after `transform`,
/// counted from the lower left corner of the transformed block.
pub open spec fn point_after(transform: SelectionTransform, x: int, y: int, width: int, height: int) -> (
    int,
    int,
) {
    match transform {
        SelectionTransform::RotateClockwise => (y, width - 1 - x),
        SelectionTransform::RotateCounterClockwise => (height - 1 - y, x),
        SelectionTransform::MirrorHorizontal => (width - 1 - x, y),
        SelectionTransform::MirrorVertical => (x, height - 1 - y),
    }
}

/// Whether a transform swaps the width and the height of a block.
pub open spec fn is_rotation(transform: SelectionTransform) -> bool {
    transform == SelectionTransform::RotateClockwise || transform
        == SelectionTransform::RotateCounterClockwise
}

/// The dimensions of a `width` by `height` block after `transform`.
pub open spec fn dims_after(transform: SelectionTransform, width: int, height: int) -> (int, int) {
    if is_rotation(transform) {
        (height, width)
    } else {
        (width, height)
    }
}

pub open spec fn in_block(x: int, y: int, width: int, height: int) -> bool {
    0 <= x < width && 0 <= y < height
}

/// Whether `transform` can move the point `(x, y)` of a `width` by `height` block without a
/// coordinate going below zero: a transform that counts x back from the right edge needs
/// `x < width`, one that counts y back from the top edge needs `y < height`.
pub open spec fn transform_fits(transform: SelectionTransform, x: int, y: int, width: int, height: int) -> bool {
    match transform {
        SelectionTransform::RotateClockwise | SelectionTransform::MirrorHorizontal => x < width,
        SelectionTransform::RotateCounterClockwise | SelectionTransform::MirrorVertical => y < height,
    }
}

pub fn transform_point(point: (u32, u32), width: u32, height: u32, transform: SelectionTransform) -> (moved: (
    u32,
    u32,
))
    requires
        transform_fits(transform, point.0 as int, point.1 as int, width as int, height as int),
    ensures
        (moved.0 as int, moved.1 as int) == point_after(
            transform,
            point.0 as int,
            point.1 as int,
            width as int,
            height as int,
        ),
{
    let (x, y) = point;
    match transform {
        SelectionTransform::RotateClockwise => (y, width - 1 - x),
        SelectionTransform::RotateCounterClockwise => (height - 1 - y, x),
        SelectionTransform::MirrorHorizontal => (width - 1 - x, y),
        SelectionTransform::MirrorVertical => (x, height - 1 - y),
    }
}

/// Every transform moves the points of a block onto the points of the transformed block.
pub proof fn lemma_point_after_stays_in_block(
    transform: SelectionTransform,
    x: int,
    y: int,
    width: int,
    height: int,
)
    requires
        in_block(x, y, width, height),
    ensures
        in_block(
            point_after(transform, x, y, width, height).0,
            point_after(transform, x, y, width, height).1,
            dims_after(transform, width, height).0,
            dims_after(transform, width, height).1,
        ),
{
}

/// Where the edges of a block go (x grows east, y grows north): a left-right mirror swaps the
/// west and east columns, a top-bottom mirror the south and north rows; a clockwise quarter
/// turn takes the north row to the east column and the west column to the north row, a
/// counter-clockwise one takes the north row to the west column and the east column to the
/// north row. The transformed block is `dims_after` the original.
pub proof fn lemma_block_edges_move(x: int, y: int, width: int, height: int)
    ensures
        point_after(SelectionTransform::MirrorHorizontal, 0, y, width, height) == (width - 1, y),
        point_after(SelectionTransform::MirrorHorizontal, width - 1, y, width, height) == (0int, y),
        point_after(SelectionTransform::MirrorVertical, x, 0, width, height) == (x, height - 1),
        point_after(SelectionTransform::MirrorVertical, x, height - 1, width, height) == (x, 0int),
        point_after(SelectionTransform::RotateClockwise, x, height - 1, width, height).0 == height - 1,
        point_after(SelectionTransform::RotateClockwise, 0, y, width, height).1 == width - 1,
        point_after(SelectionTransform::RotateCounterClockwise, x, height - 1, width, height).0 == 0,
        point_after(SelectionTransform::RotateCounterClockwise, width - 1, y, width, height).1 == width
            - 1,
        dims_after(SelectionTransform::RotateClockwise, width, height) == (height, width),
        dims_after(SelectionTransform::RotateCounterClockwise, width, height) == (height, width),
        dims_after(SelectionTransform::MirrorHorizontal, width, height) == (width, height),
        dims_after(SelectionTransform::MirrorVertical, width, height) == (width, height),
{
}

/// Each rotation turns a block the way it is named: the original orientation moves nothing,
/// a half turn sends each tile to the opposite corner's side, a clockwise quarter turn takes
/// the north row to the east column and a counter-clockwise one takes it to the west column.
pub proof fn lemma_rotations_turn_as_named(x: int, y: int, width: int, height: int)
    ensures
        apply_transforms(x, y, width, height, rotation_transforms(SelectionRotation::Original)) == (
            x,
            y,
            width,
            height,
        ),
        apply_transforms(x, y, width, height, rotation_transforms(SelectionRotation::Half)) == (
            width - 1 - x,
            height - 1 - y,
            width,
            height,
        ),
        apply_transforms(x, height - 1, width, height, rotation_transforms(SelectionRotation::Clockwise))
            == (height - 1, width - 1 - x, height, width),
        apply_transforms(
            x,
            height - 1,
            width,
            height,
            rotation_transforms(SelectionRotation::CounterClockwise),
        ) == (0int, x, height, width),
{
    reveal_with_fuel(apply_transforms, 3);
    assert(rotation_transforms(SelectionRotation::Half).drop_first().drop_first().len() == 0);
    assert(rotation_transforms(SelectionRotation::Clockwise).drop_first().len() == 0);
    assert(rotation_transforms(SelectionRotation::CounterClockwise).drop_first().len() == 0);
}

/// Turning a rotation a further quarter clockwise moves every tile one clockwise quarter turn
/// further than the rotation did.
pub proof fn lemma_clockwise_adds_a_quarter_turn(rotation: SelectionRotation, x: int, y: int, width: int, height: int)
    ensures
        ({
            let a = apply_transforms(x, y, width, height, rotation_transforms(rotation));
            let b = apply_transforms(x, y, width, height, rotation_transforms(spec_clockwise(rotation)));
            &&& (b.0, b.1) == point_after(SelectionTransform::RotateClockwise, a.0, a.1, a.2, a.3)
            &&& (b.2, b.3) == dims_after(SelectionTransform::RotateClockwise, a.2, a.3)
        }),
{
    reveal_with_fuel(apply_transforms, 3);
    assert(rotation_transforms(SelectionRotation::Half).drop_first().drop_first().len() == 0);
    assert(rotation_transforms(SelectionRotation::Clockwise).drop_first().len() == 0);
    assert(rotation_transforms(SelectionRotation::CounterClockwise).drop_first().len() == 0);
}

/// The transform that undoes `transform`.
pub open spec fn inverse_transform(transform: SelectionTransform) -> SelectionTransform {
    match transform {
        SelectionTransform::RotateClockwise => SelectionTransform::RotateCounterClockwise,
        SelectionTransform::RotateCounterClockwise => SelectionTransform::RotateClockwise,
        SelectionTransform::MirrorHorizontal => SelectionTransform::MirrorHorizontal,
        SelectionTransform::MirrorVertical => SelectionTransform::MirrorVertical,
    }
}

/// Applying the inverse transform to the transformed block gives every point back, so each
/// transform moves the points of a block one to one onto the points of the transformed block.
pub proof fn lemma_point_after_inverse(
    transform: SelectionTransform,
    x: int,
    y: int,
    width: int,
    height: int,
)
    ensures
        ({
            let (px, py) = point_after(transform, x, y, width, height);
            let (w2, h2) = dims_after(transform, width, height);
            &&& point_after(inverse_transform(transform), px, py, w2, h2) == (x, y)
            &&& dims_after(inverse_transform(transform), w2, h2) == (width, height)
        }),
{
}

/// The point of a block after each transform of `transforms` in turn, and the block's dimensions.
pub open spec fn apply_transforms(
    x: int,
    y: int,
    width: int,
    height: int,
    transforms: Seq<SelectionTransform>,
) -> (int, int, int, int)
    decreases transforms.len(),
{
    if transforms.len() == 0 {
        (x, y, width, height)
    } else {
        let (px, py) = point_after(transforms[0], x, y, width, height);
        let (w2, h2) = dims_after(transforms[0], width, height);
        apply_transforms(px, py, w2, h2, transforms.drop_first())
    }
}

/// The dimensions of a block after each transform of `transforms` in turn.
pub open spec fn dims_after_all(width: int, height: int, transforms: Seq<SelectionTransform>) -> (
    int,
    int,
)
    decreases transforms.len(),
{
    if transforms.len() == 0 {
        (width, height)
    } else {
        let (w2, h2) = dims_after(transforms[0], width, height);
        dims_after_all(w2, h2, transforms.drop_first())
    }
}

/// Any sequence of transforms keeps a point of a block on the transformed block, whose sides
/// are those the transforms give.
pub proof fn lemma_apply_transforms_in_block(
    x: int,
    y: int,
    width: int,
    height: int,
    transforms: Seq<SelectionTransform>,
)
    requires
        in_block(x, y, width, height),
    ensures
        ({
            let r = apply_transforms(x, y, width, height, transforms);
            &&& (r.2, r.3) == dims_after_all(width, height, transforms)
            &&& in_block(r.0, r.1, r.2, r.3)
        }),
    decreases transforms.len(),
{
    if transforms.len() > 0 {
        let (px, py) = point_after(transforms[0], x, y, width, height);
        let (w2, h2) = dims_after(transforms[0], width, height);
        lemma_point_after_stays_in_block(transforms[0], x, y, width, height);
        lemma_apply_transforms_in_block(px, py, w2, h2, transforms.drop_first());
    }
}

/// Distinct points of a block stay distinct after any sequence of transforms.
pub proof fn lemma_apply_transforms_injective(
    x1: int,
    y1: int,
    x2: int,
    y2: int,
    width: int,
    height: int,
    transforms: Seq<SelectionTransform>,
)
    requires
        apply_transforms(x1, y1, width, height, transforms).0 == apply_transforms(
            x2,
            y2,
            width,
            height,
            transforms,
        ).0,
        apply_transforms(x1, y1, width, height, transforms).1 == apply_transforms(
            x2,
            y2,
            width,
            height,
            transforms,
        ).1,
    ensures
        x1 == x2 && y1 == y2,
    decreases transforms.len(),
{
    if transforms.len() > 0 {
        let t = transforms[0];
        let (w2, h2) = dims_after(t, width, height);
        let p1 = point_after(t, x1, y1, width, height);
        let p2 = point_after(t, x2, y2, width, height);
        lemma_apply_transforms_injective(p1.0, p1.1, p2.0, p2.1, w2, h2, transforms.drop_first());
        lemma_point_after_inverse(t, x1, y1, width, height);
        lemma_point_after_inverse(t, x2, y2, width, height);
    }
}

// ----------------------------------------------------------------------------------------------
// Directions and offsets
// ----------------------------------------------------------------------------------------------

pub open spec fn spec_transform_direction(direction: Dir, transform: SelectionTransform) -> Dir {
    match transform {
        SelectionTransform::RotateClockwise => match direction {
            Dir::North => Dir::East,
            Dir::East => Dir::South,
            Dir::South => Dir::West,
            Dir::West => Dir::North,
            Dir::Northeast => Dir::Southeast,
            Dir::Southeast => Dir::Southwest,
            Dir::Southwest => Dir::Northwest,
            Dir::Northwest => Dir::Northeast,
        },
        SelectionTransform::RotateCounterClockwise => match direction {
            Dir::North => Dir::West,
            Dir::West => Dir::South,
            Dir::South => Dir::East,
            Dir::East => Dir::North,
            Dir::Northeast => Dir::Northwest,
            Dir::Northwest => Dir::Southwest,
            Dir::Southwest => Dir::Southeast,
            Dir::Southeast => Dir::Northeast,
        },
        SelectionTransform::MirrorHorizontal => match direction {
            Dir::North => Dir::North,
            Dir::South => Dir::South,
            Dir::East => Dir::West,
            Dir::West => Dir::East,
            Dir::Northeast => Dir::Northwest,
            Dir::Northwest => Dir::Northeast,
            Dir::Southeast => Dir::Southwest,
            Dir::Southwest => Dir::Southeast,
        },
        SelectionTransform::MirrorVertical => match direction {
            Dir::North => Dir::South,
            Dir::South => Dir::North,
            Dir::East => Dir::East,
            Dir::West => Dir::West,
            Dir::Northeast => Dir::Southeast,
            Dir::Southeast => Dir::Northeast,
            Dir::Northwest => Dir::Southwest,
            Dir::Southwest => Dir::Northwest,
        },
    }
}

pub fn transform_direction(direction: Dir, transform: SelectionTransform) -> (turned: Dir)
    ensures
        turned == spec_transform_direction(direction, transform),
{
    match transform {
        SelectionTransform::RotateClockwise => match direction {
            Dir::North => Dir::East,
            Dir::East => Dir::South,
            Dir::South => Dir::West,
            Dir::West => Dir::North,
            Dir::Northeast => Dir::Southeast,
            Dir::Southeast => Dir::Southwest,
            Dir::Southwest => Dir::Northwest,
            Dir::Northwest => Dir::Northeast,
        },
        SelectionTransform::RotateCounterClockwise => match direction {
            Dir::North => Dir::West,
            Dir::West => Dir::South,
            Dir::South => Dir::East,
            Dir::East => Dir::North,
            Dir::Northeast => Dir::Northwest,
            Dir::Northwest => Dir::Southwest,
            Dir::Southwest => Dir::Southeast,
            Dir::Southeast => Dir::Northeast,
        },
        SelectionTransform::MirrorHorizontal => match direction {
            Dir::North => Dir::North,
            Dir::South => Dir::South,
            Dir::East => Dir::West,
            Dir::West => Dir::East,
            Dir::Northeast => Dir::Northwest,
            Dir::Northwest => Dir::Northeast,
            Dir::Southeast => Dir::Southwest,
            Dir::Southwest => Dir::Southeast,
        },
        SelectionTransform::MirrorVertical => match direction {
            Dir::North => Dir::South,
            Dir::South => Dir::North,
            Dir::East => Dir::East,
            Dir::West => Dir::West,
            Dir::Northeast => Dir::Southeast,
            Dir::Southeast => Dir::Northeast,
            Dir::Northwest => Dir::Southwest,
            Dir::Southwest => Dir::Northwest,
        },
    }
}

/// Turning a direction by a transform and then by its inverse gives the direction back;
/// four clockwise quarter turns do too, and two of them point the opposite way, which is
/// also what mirroring both horizontally and vertically does.
pub proof fn lemma_direction_turns(direction: Dir, transform: SelectionTransform)
    ensures
        spec_transform_direction(
            spec_transform_direction(direction, transform),
            inverse_transform(transform),
        ) == direction,
        ({
            let cw = SelectionTransform::RotateClockwise;
            let half = spec_transform_direction(spec_transform_direction(direction, cw), cw);
            &&& spec_transform_direction(spec_transform_direction(half, cw), cw) == direction
            &&& half == spec_transform_direction(
                spec_transform_direction(direction, SelectionTransform::MirrorHorizontal),
                SelectionTransform::MirrorVertical,
            )
        }),
{
}

/// Name of a direction as it appears at the end of a directional type path.
pub fn direction_from_name(name: &str) -> (direction: Option<Dir>)
    ensures
        direction == spec_direction_from_name(name@),
{
    let names = ["south", "north", "east", "west", "southeast", "southwest", "northeast", "northwest"];
    let dirs = [
        Dir::South,
        Dir::North,
        Dir::East,
        Dir::West,
        Dir::Southeast,
        Dir::Southwest,
        Dir::Northeast,
        Dir::Northwest,
    ];
    proof {
        reveal_strlit("south");
        reveal_strlit("north");
        reveal_strlit("east");
        reveal_strlit("west");
        reveal_strlit("southeast");
        reveal_strlit("southwest");
        reveal_strlit("northeast");
        reveal_strlit("northwest");
    }
    let mut i: usize = 0;
    while i < 8
        invariant
            0 <= i <= 8,
            names@ == seq![
                "south",
                "north",
                "east",
                "west",
                "southeast",
                "southwest",
                "northeast",
                "northwest",
            ],
            dirs@ == seq![
                Dir::South,
                Dir::North,
                Dir::East,
                Dir::West,
                Dir::Southeast,
                Dir::Southwest,
                Dir::Northeast,
                Dir::Northwest,
            ],
            forall|j: int| 0 <= j < i ==> name@ != (#[trigger] names@[j])@,
        decreases 8 - i,
    {
        if crate::text::str_equal(name, names[i]) {
            return Some(dirs[i]);
        }
        i = i + 1;
    }
    None
}

pub open spec fn spec_direction_from_name(name: Seq<char>) -> Option<Dir> {
    if name == "south"@ {
        Some(Dir::South)
    } else if name == "north"@ {
        Some(Dir::North)
    } else if name == "east"@ {
        Some(Dir::East)
    } else if name == "west"@ {
        Some(Dir::West)
    } else if name == "southeast"@ {
        Some(Dir::Southeast)
    } else if name == "southwest"@ {
        Some(Dir::Southwest)
    } else if name == "northeast"@ {
        Some(Dir::Northeast)
    } else if name == "northwest"@ {
        Some(Dir::Northwest)
    } else {
        None
    }
}

/// Negation that saturates, so the most negative value turns into the most positive one.
pub open spec fn neg_sat(value: i32) -> i32 {
    if value == i32::MIN {
        i32::MAX
    } else {
        (-value) as i32
    }
}

pub open spec fn spec_transform_vector(vector: [i32; 2], transform: SelectionTransform) -> (i32, i32) {
    let (x, y) = (vector[0], vector[1]);
    match transform {
        SelectionTransform::RotateClockwise => (y, neg_sat(x)),
        SelectionTransform::RotateCounterClockwise => (neg_sat(y), x),
        SelectionTransform::MirrorHorizontal => (neg_sat(x), y),
        SelectionTransform::MirrorVertical => (x, neg_sat(y)),
    }
}

fn saturating_neg(value: i32) -> (negated: i32)
    ensures
        negated == neg_sat(value),
{
    if value == i32::MIN {
        i32::MAX
    } else {
        -value
    }
}

/// A pixel or step offset `[x, y]` after the block it sits in is transformed.
pub fn transform_vector(vector: [i32; 2], transform: SelectionTransform) -> (turned: [i32; 2])
    ensures
        (turned[0], turned[1]) == spec_transform_vector(vector, transform),
{
    let x = vector[0];
    let y = vector[1];
    match transform {
        SelectionTransform::RotateClockwise => [y, saturating_neg(x)],
        SelectionTransform::RotateCounterClockwise => [saturating_neg(y), x],
        SelectionTransform::MirrorHorizontal => [saturating_neg(x), y],
        SelectionTransform::MirrorVertical => [x, saturating_neg(y)],
    }
}

/// An offset with no component at the most negative `i32` comes back unchanged after a
/// transform followed by its inverse.
pub proof fn lemma_vector_inverse(x: i32, y: i32, transform: SelectionTransform)
    requires
        x != i32::MIN,
        y != i32::MIN,
    ensures
        ({
            let (a, b) = spec_transform_vector([x, y], transform);
            spec_transform_vector([a, b], inverse_transform(transform)) == (x, y)
        }),
{
}

/// An offset turns the way the block's own tiles move: the offset from one tile of a block to
/// another, transformed, is the offset between where the two tiles land.
pub proof fn lemma_offsets_turn_with_tiles(
    transform: SelectionTransform,
    from: (int, int),
    to: (int, int),
    width: int,
    height: int,
)
    requires
        i32::MIN < to.0 - from.0 <= i32::MAX,
        i32::MIN < to.1 - from.1 <= i32::MAX,
    ensures
        ({
            let turned = spec_transform_vector([(to.0 - from.0) as i32, (to.1 - from.1) as i32], transform);
            let a = point_after(transform, from.0, from.1, width, height);
            let b = point_after(transform, to.0, to.1, width, height);
            turned.0 == b.0 - a.0 && turned.1 == b.1 - a.1
        }),
{
}

/// The compass offset of a direction: one step east is `+x`, one step north is `+y`.
pub open spec fn compass_step(direction: Dir) -> (int, int) {
    match direction {
        Dir::North => (0, 1),
        Dir::South => (0, -1),
        Dir::East => (1, 0),
        Dir::West => (-1, 0),
        Dir::Northeast => (1, 1),
        Dir::Northwest => (-1, 1),
        Dir::Southeast => (1, -1),
        Dir::Southwest => (-1, -1),
    }
}

/// A direction turns the way an offset does: the compass step of the turned direction is the
/// compass step of the direction, transformed. So a left-right mirror keeps north and south
/// and swaps east with west, a top-bottom mirror keeps east and west and swaps north with
/// south, and a quarter turn clockwise takes north to east.
pub proof fn lemma_directions_turn_with_offsets(direction: Dir, transform: SelectionTransform, step: [i32; 2])
    requires
        step[0] == compass_step(direction).0,
        step[1] == compass_step(direction).1,
    ensures
        ({
            let turned = spec_transform_vector(step, transform);
            (turned.0 as int, turned.1 as int) == compass_step(spec_transform_direction(direction, transform))
        }),
{
}

/// A mirror keeps the bits of a direction's number along its axis and swaps the other two: a
/// left-right mirror keeps north (1) and south (2) and swaps east (4) with west (8), a
/// top-bottom mirror keeps east and west and swaps north with south.
pub proof fn lemma_mirrors_keep_their_axis(direction: Dir)
    ensures
        ({
            let bits = spec_dir_bits(direction);
            let h = spec_dir_bits(spec_transform_direction(direction, SelectionTransform::MirrorHorizontal));
            let v = spec_dir_bits(spec_transform_direction(direction, SelectionTransform::MirrorVertical));
            &&& h % 4 == bits % 4
            &&& (h / 4 == 1 <==> bits / 4 == 2)
            &&& (h / 4 == 2 <==> bits / 4 == 1)
            &&& (h / 4 == 0 <==> bits / 4 == 0)
            &&& v / 4 == bits / 4
            &&& (v % 4 == 1 <==> bits % 4 == 2)
            &&& (v % 4 == 2 <==> bits % 4 == 1)
            &&& (v % 4 == 0 <==> bits % 4 == 0)
        }),
{
}

/// The number a `dir` variable holds for a direction: one bit for each of north, south, east
/// and west, and the sum of two for a diagonal.
pub open spec fn spec_dir_bits(direction: Dir) -> u32 {
    match direction {
        Dir::North => 1,
        Dir::South => 2,
        Dir::East => 4,
        Dir::West => 8,
        Dir::Northeast => 5,
        Dir::Northwest => 9,
        Dir::Southeast => 6,
        Dir::Southwest => 10,
    }
}

/// The direction a `dir` number names, if any.
pub open spec fn spec_dir_from_bits(bits: u32) -> Option<Dir> {
    if bits == 1 {
        Some(Dir::North)
    } else if bits == 2 {
        Some(Dir::South)
    } else if bits == 4 {
        Some(Dir::East)
    } else if bits == 8 {
        Some(Dir::West)
    } else if bits == 5 {
        Some(Dir::Northeast)
    } else if bits == 9 {
        Some(Dir::Northwest)
    } else if bits == 6 {
        Some(Dir::Southeast)
    } else if bits == 10 {
        Some(Dir::Southwest)
    } else {
        None
    }
}

impl Dir {
    pub fn to_bits(self) -> (bits: u32)
        ensures
            bits == spec_dir_bits(self),
    {
        match self {
            Dir::North => 1,
            Dir::South => 2,
            Dir::East => 4,
            Dir::West => 8,
            Dir::Northeast => 5,
            Dir::Northwest => 9,
            Dir::Southeast => 6,
            Dir::Southwest => 10,
        }
    }

    pub fn from_bits(bits: u32) -> (direction: Option<Dir>)
        ensures
            direction == spec_dir_from_bits(bits),
    {
        if bits == 1 {
            Some(Dir::North)
        } else if bits == 2 {
            Some(Dir::South)
        } else if bits == 4 {
            Some(Dir::East)
        } else if bits == 8 {
            Some(Dir::West)
        } else if bits == 5 {
            Some(Dir::Northeast)
        } else if bits == 9 {
            Some(Dir::Northwest)
        } else if bits == 6 {
            Some(Dir::Southeast)
        } else if bits == 10 {
            Some(Dir::Southwest)
        } else {
            None
        }
    }
}

/// Every direction reads back from its number, and numbers of no direction read as none.
pub proof fn lemma_dir_bits_round_trip(direction: Dir, bits: u32)
    ensures
        spec_dir_from_bits(spec_dir_bits(direction)) == Some(direction),
        spec_dir_from_bits(bits) matches Some(d) ==> spec_dir_bits(d) == bits,
{
}

/// A direction's number has one bit for each way it points: north 1 and south 2 for the
/// north-south part of its compass step, east 4 and west 8 for the east-west part.
pub proof fn lemma_dir_bits_follow_the_compass(direction: Dir)
    ensures
        ({
            let bits = spec_dir_bits(direction);
            let step = compass_step(direction);
            &&& (bits % 4 == 1 <==> step.1 == 1)
            &&& (bits % 4 == 2 <==> step.1 == -1)
            &&& (bits % 4 == 0 <==> step.1 == 0)
            &&& (bits / 4 == 1 <==> step.0 == 1)
            &&& (bits / 4 == 2 <==> step.0 == -1)
            &&& (bits / 4 == 0 <==> step.0 == 0)
        }),
{
}

/// Each directional name names the direction that points that way on the compass.
pub proof fn lemma_direction_names_follow_the_compass()
    ensures
        spec_direction_from_name("north"@) matches Some(d) && compass_step(d) == (0int, 1int),
        spec_direction_from_name("south"@) matches Some(d) && compass_step(d) == (0int, -1int),
        spec_direction_from_name("east"@) matches Some(d) && compass_step(d) == (1int, 0int),
        spec_direction_from_name("west"@) matches Some(d) && compass_step(d) == (-1int, 0int),
        spec_direction_from_name("northeast"@) matches Some(d) && compass_step(d) == (1int, 1int),
        spec_direction_from_name("northwest"@) matches Some(d) && compass_step(d) == (-1int, 1int),
        spec_direction_from_name("southeast"@) matches Some(d) && compass_step(d) == (1int, -1int),
        spec_direction_from_name("southwest"@) matches Some(d) && compass_step(d) == (-1int, -1int),
{
    reveal_strlit("north");
    reveal_strlit("south");
    reveal_strlit("east");
    reveal_strlit("west");
    reveal_strlit("northeast");
    reveal_strlit("northwest");
    reveal_strlit("southeast");
    reveal_strlit("southwest");
    let names = seq!["south"@, "north"@, "east"@, "west"@, "southeast"@, "southwest"@, "northeast"@, "northwest"@];
    assert forall|i: int, j: int| 0 <= i < j < 8 implies names[i] != names[j] by {
        if names[i].len() == names[j].len() {
            if names[i][0] == names[j][0] {
                assert(names[i][5] != names[j][5]);
            } else {
                assert(names[i][0] != names[j][0]);
            }
        }
    }
    assert(names[0] != names[1]);
    assert(names[0] != names[2] && names[1] != names[2]);
    assert(names[0] != names[3] && names[1] != names[3] && names[2] != names[3]);
    assert(names[0] != names[6] && names[1] != names[6] && names[2] != names[6] && names[3] != names[6]);
    assert(names[4] != names[6] && names[5] != names[6]);
    assert(names[0] != names[7] && names[1] != names[7] && names[2] != names[7] && names[3] != names[7]);
    assert(names[4] != names[7] && names[5] != names[7] && names[6] != names[7]);
}

/// The pixel offsets (`pixel_x`, `pixel_y`), the other pixel offsets (`pixel_w`, `pixel_z`) and
/// the step offsets (`step_x`, `step_y`) of an atom.
#[derive(Debug, Clone, Copy, PartialEq, Eq)]
pub struct AtomOffsets {
    pub pixel: [i32; 2],
    pub pixel_wz: [i32; 2],
    pub step: [i32; 2],
}

/// How an atom looks after the block it sits in is transformed: which way it faces, if it
/// faces a known way, and its offsets.
#[derive(Debug, Clone, Copy, PartialEq, Eq)]
pub struct TurnedAppearance {
    pub direction: Option<Dir>,
    pub offsets: AtomOffsets,
}

/// The way an atom faces: the direction its directional type path names, else the one its
/// resolved `dir` number names (`dir_bits`, none when the value is not a number).
pub open spec fn facing(path_direction: Option<Dir>, dir_bits: Option<u32>) -> Option<Dir> {
    match path_direction {
        Some(direction) => Some(direction),
        None => match dir_bits {
            Some(bits) => spec_dir_from_bits(bits),
            None => None,
        },
    }
}

/// An atom faces the way its directional type path names when it names one; only otherwise
/// does its `dir` number decide, and an atom with neither faces no known way.
pub proof fn lemma_path_direction_wins(path_direction: Option<Dir>, dir_bits: Option<u32>)
    ensures
        path_direction matches Some(d) ==> facing(path_direction, dir_bits) == Some(d),
        path_direction is None && dir_bits is None ==> facing(path_direction, dir_bits) is None,
        path_direction is None ==> (dir_bits matches Some(b) ==> facing(path_direction, dir_bits)
            == spec_dir_from_bits(b)),
{
}

/// An atom's appearance after `transform`: its facing turned the same way, and each offset
/// turned as a vector. An atom that faces no known way keeps its `dir` as it is.
pub fn turned_appearance(
    transform: SelectionTransform,
    path_direction: Option<Dir>,
    dir_bits: Option<u32>,
    offsets: AtomOffsets,
) -> (turned: TurnedAppearance)
    ensures
        turned.direction == match facing(path_direction, dir_bits) {
            Some(direction) => Some(spec_transform_direction(direction, transform)),
            None => None,
        },
        (turned.offsets.pixel[0], turned.offsets.pixel[1]) == spec_transform_vector(
            offsets.pixel,
            transform,
        ),
        (turned.offsets.pixel_wz[0], turned.offsets.pixel_wz[1]) == spec_transform_vector(
            offsets.pixel_wz,
            transform,
        ),
        (turned.offsets.step[0], turned.offsets.step[1]) == spec_transform_vector(
            offsets.step,
            transform,
        ),
{
    let direction = match path_direction {
        Some(direction) => Some(direction),
        None => match dir_bits {
            Some(bits) => Dir::from_bits(bits),
            None => None,
        },
    };
    let direction = match direction {
        Some(direction) => Some(transform_direction(direction, transform)),
        None => None,
    };
    TurnedAppearance {
        direction,
        offsets: AtomOffsets {
            pixel: transform_vector(offsets.pixel, transform),
            pixel_wz: transform_vector(offsets.pixel_wz, transform),
            step: transform_vector(offsets.step, transform),
        },
    }
}

// ----------------------------------------------------------------------------------------------
// Transformed selections
// ----------------------------------------------------------------------------------------------

/// `selection` resized to the dimensions it has after `transform`, keeping its lower left corner,
/// or `None` when it is not well formed or would leave the `u32` range.
pub open spec fn spec_transformed_selection(selection: Selection, transform: SelectionTransform) -> Option<
    Selection,
> {
    if !selection.well_formed() {
        None
    } else {
        let (width, height) = dims_after(
            transform,
            selection.spec_width() as int,
            selection.spec_height() as int,
        );
        if selection.min.x + (width - 1) > u32::MAX || selection.min.y + (height - 1) > u32::MAX {
            None
        } else {
            Some(
                Selection {
                    min: selection.min,
                    max: Coord {
                        x: (selection.min.x + (width - 1)) as u32,
                        y: (selection.min.y + (height - 1)) as u32,
                        z: selection.min.z,
                    },
                },
            )
        }
    }
}

pub fn transformed_selection(selection: Selection, transform: SelectionTransform) -> (target: Option<
    Selection,
>)
    ensures
        target == spec_transformed_selection(selection, transform),
{
    if !selection.is_well_formed() {
        return None;
    }
    let (width, height) = match transform {
        SelectionTransform::RotateClockwise | SelectionTransform::RotateCounterClockwise => {
            (selection.height(), selection.width())
        },
        SelectionTransform::MirrorHorizontal | SelectionTransform::MirrorVertical => {
            (selection.width(), selection.height())
        },
    };
    let x = selection.min.x.checked_add(width.checked_sub(1)?)?;
    let y = selection.min.y.checked_add(height.checked_sub(1)?)?;
    Some(Selection { min: selection.min, max: Coord { x, y, z: selection.min.z } })
}

/// `selection` after each transform of `transforms` in turn, `None` as soon as one fails.
pub open spec fn transformed_all(selection: Selection, transforms: Seq<SelectionTransform>) -> Option<
    Selection,
>
    decreases transforms.len(),
{
    if transforms.len() == 0 {
        Some(selection)
    } else {
        match spec_transformed_selection(selection, transforms[0]) {
            Some(next) => transformed_all(next, transforms.drop_first()),
            None => None,
        }
    }
}

/// Where a block lands when it is moved so its lower left corner is `target_min`, then
/// turned to `rotation`.
pub open spec fn spec_rotated_selection_at(
    selection: Selection,
    target_min: Coord,
    rotation: SelectionRotation,
) -> Option<Selection> {
    match selection.spec_with_min(target_min) {
        Some(moved) => transformed_all(moved, rotation_transforms(rotation)),
        None => None,
    }
}

pub fn rotated_selection_at(selection: Selection, target_min: Coord, rotation: SelectionRotation) -> (target:
    Option<Selection>)
    ensures
        target == spec_rotated_selection_at(selection, target_min, rotation),
{
    let mut target = selection.with_min(target_min)?;
    let transforms = rotation.transforms();
    proof {
        assert(transforms@.skip(0) =~= transforms@);
    }
    let mut i: usize = 0;
    while i < transforms.len()
        invariant
            transforms@ == rotation_transforms(rotation),
            i <= transforms@.len(),
            spec_rotated_selection_at(selection, target_min, rotation) == transformed_all(
                target,
                transforms@.skip(i as int),
            ),
        decreases transforms.len() - i,
    {
        proof {
            assert(transforms@.skip(i as int).drop_first() =~= transforms@.skip(i + 1));
        }
        target = transformed_selection(target, transforms[i])?;
        i = i + 1;
    }
    proof {
        assert(transforms@.skip(i as int) =~= Seq::<SelectionTransform>::empty());
    }
    Some(target)
}

/// Whether turning a `width` by `height` block to `rotation` can move the point `(x, y)`
/// without a coordinate going below zero: the original orientation takes any point.
pub open spec fn rotation_fits(rotation: SelectionRotation, x: int, y: int, width: int, height: int) -> bool {
    match rotation {
        SelectionRotation::Original => true,
        SelectionRotation::Clockwise => x < width,
        SelectionRotation::Half => x < width && y < height,
        SelectionRotation::CounterClockwise => y < height,
    }
}

/// Where the point `(x, y)` of a `width` by `height` block lands once the block is turned to
/// `rotation`.
pub fn rotate_point(point: (u32, u32), width: u32, height: u32, rotation: SelectionRotation) -> (turned: (
    u32,
    u32,
))
    requires
        rotation_fits(rotation, point.0 as int, point.1 as int, width as int, height as int),
    ensures
        turned.0 as int == apply_transforms(
            point.0 as int,
            point.1 as int,
            width as int,
            height as int,
            rotation_transforms(rotation),
        ).0,
        turned.1 as int == apply_transforms(
            point.0 as int,
            point.1 as int,
            width as int,
            height as int,
            rotation_transforms(rotation),
        ).1,
{
    proof {
        let ts = rotation_transforms(rotation);
        reveal_with_fuel(apply_transforms, 3);
        if ts.len() > 0 {
            assert(ts.drop_first().len() == ts.len() - 1);
            if ts.len() > 1 {
                assert(ts.drop_first().drop_first().len() == 0);
            }
        }
    }
    match rotation {
        SelectionRotation::Original => point,
        SelectionRotation::Clockwise => transform_point(
            point,
            width,
            height,
            SelectionTransform::RotateClockwise,
        ),
        SelectionRotation::Half => (width - 1 - point.0, height - 1 - point.1),
        SelectionRotation::CounterClockwise => transform_point(
            point,
            width,
            height,
            SelectionTransform::RotateCounterClockwise,
        ),
    }
}

// ----------------------------------------------------------------------------------------------
// Full and hollow blocks
// ----------------------------------------------------------------------------------------------

/// The line width of a hollow block, never less than one tile.
pub open spec fn effective_line_width(line_width: u32) -> u32 {
    if line_width < 1 {
        1
    } else {
        line_width
    }
}

/// Whether an edit in `mode` on `selection` touches `coord`: every tile of a full block, and the
/// tiles of a hollow block that lie within the line width of one of its edges.
pub open spec fn spec_includes(mode: BlockSelectionMode, selection: Selection, coord: Coord) -> bool {
    &&& selection.has(coord)
    &&& match mode {
        BlockSelectionMode::Full => true,
        BlockSelectionMode::Hollow { line_width } => {
            let w = effective_line_width(line_width);
            ||| coord.x - selection.min.x < w
            ||| selection.max.x - coord.x < w
            ||| coord.y - selection.min.y < w
            ||| selection.max.y - coord.y < w
        },
    }
}

impl BlockSelectionMode {
    pub fn includes(self, selection: Selection, coord: Coord) -> (included: bool)
        ensures
            included == spec_includes(self, selection, coord),
    {
        if !selection.contains(coord) {
            return false;
        }
        match self {
            BlockSelectionMode::Full => true,
            BlockSelectionMode::Hollow { line_width } => {
                let line_width = if line_width < 1 { 1 } else { line_width };
                coord.x - selection.min.x < line_width || selection.max.x - coord.x < line_width
                    || coord.y - selection.min.y < line_width || selection.max.y - coord.y
                    < line_width
            },
        }
    }

    /// All the tiles of `selection` this mode edits, in row-major order.
    pub fn tiles(self, selection: Selection) -> (tiles: Vec<Coord>)
        ensures
            forall|c: Coord| tiles@.contains(c) <==> spec_includes(self, selection, c),
            sorted_by_position(tiles@),
    {
        let all = selection.tiles();
        let mut tiles: Vec<Coord> = Vec::new();
        let mut i: usize = 0;
        while i < all.len()
            invariant
                forall|c: Coord| all@.contains(c) <==> selection.has(c),
                sorted_by_position(all@),
                i <= all@.len(),
                forall|c: Coord|
                    tiles@.contains(c) <==> (spec_includes(self, selection, c) && exists|k: int|
                        0 <= k < i && all@[k] == c),
                sorted_by_position(tiles@),
                forall|k: int|
                    0 <= k < tiles@.len() ==> exists|m: int|
                        0 <= m < i && all@[m] == #[trigger] tiles@[k],
            decreases all.len() - i,
        {
            let c = all[i];
            let ghost before = tiles@;
            if self.includes(selection, c) {
                tiles.push(c);
                proof {
                    assert forall|a: int, b: int|
                        0 <= a < b < tiles@.len() implies position_before(
                        #[trigger] tiles@[a],
                        #[trigger] tiles@[b],
                    ) by {
                        if b == tiles@.len() - 1 {
                            let m = choose|m: int| 0 <= m < i && all@[m] == before[a];
                            assert(all@[m] == tiles@[a]);
                        }
                    }
                    assert forall|k: int|
                        0 <= k < tiles@.len() implies exists|m: int|
                        0 <= m < i + 1 && all@[m] == #[trigger] tiles@[k] by {
                        if k < before.len() {
                            assert(before[k] == tiles@[k]);
                        } else {
                            assert(all@[i as int] == tiles@[k]);
                        }
                    }
                }
            }
            proof {
                assert forall|d: Coord|
                    tiles@.contains(d) <==> (spec_includes(self, selection, d) && exists|k: int|
                        0 <= k < i + 1 && all@[k] == d) by {
                    if tiles@.contains(d) {
                        let k = choose|k: int| 0 <= k < tiles@.len() && tiles@[k] == d;
                        if k < before.len() {
                            assert(before[k] == d);
                            assert(before.contains(d));
                        } else {
                            assert(all@[i as int] == d);
                        }
                    }
                    if spec_includes(self, selection, d) && exists|k: int|
                        0 <= k < i + 1 && all@[k] == d {
                        let k = choose|k: int| 0 <= k < i + 1 && all@[k] == d;
                        if k < i {
                            assert(before.contains(d));
                            let m = choose|m: int| 0 <= m < before.len() && before[m] == d;
                            assert(tiles@[m] == d);
                        } else {
                            assert(tiles@[tiles@.len() - 1] == d);
                        }
                    }
                }
            }
            i = i + 1;
        }
        proof {
            assert forall|c: Coord| tiles@.contains(c) <==> spec_includes(self, selection, c) by {
                if spec_includes(self, selection, c) {
                    assert(all@.contains(c));
                    let k = choose|k: int| 0 <= k < all@.len() && all@[k] == c;
                }
            }
        }
        tiles
    }
}

impl SelectionMask {
    pub fn includes(self, coord: Coord) -> (included: bool)
        ensures
            included == spec_includes(self.mode, self.bounds, coord),
    {
        self.mode.includes(self.bounds, coord)
    }
}

// ----------------------------------------------------------------------------------------------
// Moving and copying blocks
// ----------------------------------------------------------------------------------------------

/// Applying `transforms` followed by one more transform is the same as applying the one more
/// transform to the result of `transforms`.
pub proof fn lemma_apply_transforms_push(
    x: int,
    y: int,
    width: int,
    height: int,
    transforms: Seq<SelectionTransform>,
    last: SelectionTransform,
)
    ensures
        ({
            let r = apply_transforms(x, y, width, height, transforms);
            let p = point_after(last, r.0, r.1, r.2, r.3);
            let d = dims_after(last, r.2, r.3);
            apply_transforms(x, y, width, height, transforms.push(last)) == (p.0, p.1, d.0, d.1)
        }),
    decreases transforms.len(),
{
    reveal_with_fuel(apply_transforms, 2);
    if transforms.len() == 0 {
        let s = transforms.push(last);
        assert(s.drop_first() =~= Seq::<SelectionTransform>::empty());
        assert(s[0] == last);
    } else {
        let t = transforms[0];
        assert(transforms.push(last)[0] == t);
        let (px, py) = point_after(t, x, y, width, height);
        let (w2, h2) = dims_after(t, width, height);
        lemma_apply_transforms_push(px, py, w2, h2, transforms.drop_first(), last);
        assert(transforms.push(last).drop_first() =~= transforms.drop_first().push(last));
    }
}

/// The point of the original block that lands on `(x, y)` of the block transformed by
/// `transforms`, whose dimensions are `width` by `height`, with the original dimensions.
pub open spec fn unapply_transforms(
    x: int,
    y: int,
    width: int,
    height: int,
    transforms: Seq<SelectionTransform>,
) -> (int, int, int, int)
    decreases transforms.len(),
{
    if transforms.len() == 0 {
        (x, y, width, height)
    } else {
        let t = inverse_transform(transforms.last());
        let (px, py) = point_after(t, x, y, width, height);
        let (w0, h0) = dims_after(t, width, height);
        unapply_transforms(px, py, w0, h0, transforms.drop_last())
    }
}

/// Undoing the transforms of a block finds the original point that lands on a given point of the
/// transformed block.
pub proof fn lemma_unapply_transforms(
    x: int,
    y: int,
    width: int,
    height: int,
    transforms: Seq<SelectionTransform>,
)
    requires
        in_block(
            x,
            y,
            dims_after_all(width, height, transforms).0,
            dims_after_all(width, height, transforms).1,
        ),
    ensures
        ({
            let (w2, h2) = dims_after_all(width, height, transforms);
            let u = unapply_transforms(x, y, w2, h2, transforms);
            &&& u.2 == width
            &&& u.3 == height
            &&& in_block(u.0, u.1, width, height)
            &&& apply_transforms(u.0, u.1, width, height, transforms) == (x, y, w2, h2)
        }),
    decreases transforms.len(),
{
    if transforms.len() > 0 {
        let front = transforms.drop_last();
        let last = transforms.last();
        assert(front.push(last) =~= transforms);
        lemma_dims_after_all_push(width, height, front, last);
        let (wf, hf) = dims_after_all(width, height, front);
        let (w2, h2) = dims_after_all(width, height, transforms);
        let t = inverse_transform(last);
        let (px, py) = point_after(t, x, y, w2, h2);
        lemma_point_after_inverse(last, 0, 0, wf, hf);
        assert(dims_after(t, w2, h2) == (wf, hf));
        lemma_point_after_stays_in_block(t, x, y, w2, h2);
        lemma_unapply_transforms(px, py, width, height, front);
        let u = unapply_transforms(px, py, wf, hf, front);
        lemma_apply_transforms_push(u.0, u.1, width, height, front, last);
        lemma_point_after_inverse(t, x, y, w2, h2);
    }
}

/// The sides after one more transform are the sides after the others, transformed once more.
pub proof fn lemma_dims_after_all_push(
    width: int,
    height: int,
    transforms: Seq<SelectionTransform>,
    last: SelectionTransform,
)
    ensures
        ({
            let d = dims_after_all(width, height, transforms);
            dims_after_all(width, height, transforms.push(last)) == dims_after(last, d.0, d.1)
        }),
    decreases transforms.len(),
{
    reveal_with_fuel(dims_after_all, 2);
    if transforms.len() == 0 {
        assert(transforms.push(last).drop_first() =~= Seq::<SelectionTransform>::empty());
        assert(transforms.push(last)[0] == last);
    } else {
        assert(transforms.push(last)[0] == transforms[0]);
        let (w2, h2) = dims_after(transforms[0], width, height);
        lemma_dims_after_all_push(w2, h2, transforms.drop_first(), last);
        assert(transforms.push(last).drop_first() =~= transforms.drop_first().push(last));
    }
}

/// Where a tile comes from when a block edit stages the tile of another block.
#[derive(Debug, Clone, Copy, PartialEq, Eq, Structural)]
pub enum TileSource {
    /// The tile takes the (transformed) contents of this tile of the source block.
    Moved(Coord),
    /// A moved block leaves the default turf and area behind.
    Cleared,
}

/// A request to move or copy the tiles of `source` onto `target`, transformed on the way.
#[derive(Debug, Clone, PartialEq, Eq)]
pub struct SelectionEditRequest {
    pub source: Selection,
    pub target: Selection,
    pub transforms: Vec<SelectionTransform>,
    pub placement: SelectionPlacement,
    pub mode: BlockSelectionMode,
}

impl SelectionEditRequest {
    /// Both blocks are well formed and the target has the dimensions of the source after the
    /// transforms.
    pub open spec fn well_formed(&self) -> bool {
        &&& self.source.well_formed()
        &&& self.target.well_formed()
        &&& span(self.source.min.x, self.source.max.x) <= u32::MAX
        &&& span(self.source.min.y, self.source.max.y) <= u32::MAX
        &&& (span(self.target.min.x, self.target.max.x), span(self.target.min.y, self.target.max.y))
            == dims_after_all(
            span(self.source.min.x, self.source.max.x),
            span(self.source.min.y, self.source.max.y),
            self.transforms@,
        )
    }

    /// The target tile that receives the source tile `coord`.
    pub open spec fn spec_destination(&self, coord: Coord) -> Coord {
        let r = apply_transforms(
            coord.x - self.source.min.x,
            coord.y - self.source.min.y,
            span(self.source.min.x, self.source.max.x),
            span(self.source.min.y, self.source.max.y),
            self.transforms@,
        );
        Coord {
            x: (self.target.min.x + r.0) as u32,
            y: (self.target.min.y + r.1) as u32,
            z: self.target.min.z,
        }
    }

    /// The source tile whose contents land on the target tile `coord`.
    pub open spec fn spec_source(&self, coord: Coord) -> Coord {
        let u = unapply_transforms(
            coord.x - self.target.min.x,
            coord.y - self.target.min.y,
            span(self.target.min.x, self.target.max.x),
            span(self.target.min.y, self.target.max.y),
            self.transforms@,
        );
        Coord {
            x: (self.source.min.x + u.0) as u32,
            y: (self.source.min.y + u.1) as u32,
            z: self.source.min.z,
        }
    }

    /// What a block edit stages at `coord`: the tiles of the target take the contents of the
    /// matching source tiles, and a move clears the source tiles nothing lands on.
    pub open spec fn spec_stage(&self, coord: Coord) -> Option<TileSource> {
        if spec_includes(self.mode, self.target, coord) {
            Some(TileSource::Moved(self.spec_source(coord)))
        } else if self.placement == SelectionPlacement::Move && spec_includes(
            self.mode,
            self.source,
            coord,
        ) {
            Some(TileSource::Cleared)
        } else {
            None
        }
    }

    pub fn source_tiles(&self) -> (tiles: Vec<Coord>)
        ensures
            forall|c: Coord| tiles@.contains(c) <==> spec_includes(self.mode, self.source, c),
            sorted_by_position(tiles@),
    {
        self.mode.tiles(self.source)
    }

    /// Every tile the edit reads or writes: the edited tiles of the source, then of the target.
    pub fn touched_tiles(&self) -> (tiles: Vec<Coord>)
        ensures
            forall|c: Coord|
                tiles@.contains(c) <==> (spec_includes(self.mode, self.source, c) || spec_includes(
                    self.mode,
                    self.target,
                    c,
                )),
    {
        let mut tiles = self.source_tiles();
        let mut more = self.mode.tiles(self.target);
        let ghost a = tiles@;
        let ghost b = more@;
        tiles.append(&mut more);
        proof {
            assert(tiles@ == a + b);
            assert forall|c: Coord|
                tiles@.contains(c) <==> (spec_includes(self.mode, self.source, c) || spec_includes(
                    self.mode,
                    self.target,
                    c,
                )) by {
                assert(a.contains(c) <==> spec_includes(self.mode, self.source, c));
                assert(b.contains(c) <==> spec_includes(self.mode, self.target, c));
                if tiles@.contains(c) {
                    let k = choose|k: int| 0 <= k < tiles@.len() && tiles@[k] == c;
                    if k < a.len() {
                        assert(a[k] == c);
                    } else {
                        assert(b[k - a.len()] == c);
                    }
                }
                if a.contains(c) {
                    let k = choose|k: int| 0 <= k < a.len() && a[k] == c;
                    assert(tiles@[k] == c);
                }
                if b.contains(c) {
                    let k = choose|k: int| 0 <= k < b.len() && b[k] == c;
                    assert(tiles@[a.len() + k] == c);
                }
            }
        }
        tiles
    }

    /// The target tile that receives the source tile `coord`.
    pub fn destination_of(&self, coord: Coord) -> (destination: Coord)
        requires
            self.well_formed(),
            self.source.has(coord),
        ensures
            destination == self.spec_destination(coord),
            self.target.has(destination),
    {
        let ghost w0 = span(self.source.min.x, self.source.max.x);
        let ghost h0 = span(self.source.min.y, self.source.max.y);
        let ghost x0 = coord.x - self.source.min.x;
        let ghost y0 = coord.y - self.source.min.y;
        let mut point = (coord.x - self.source.min.x, coord.y - self.source.min.y);
        let mut width = self.source.width();
        let mut height = self.source.height();
        let mut i: usize = 0;
        proof {
            assert(self.transforms@.skip(0) =~= self.transforms@);
        }
        while i < self.transforms.len()
            invariant
                self.well_formed(),
                i <= self.transforms@.len(),
                in_block(point.0 as int, point.1 as int, width as int, height as int),
                apply_transforms(x0, y0, w0, h0, self.transforms@) == apply_transforms(
                    point.0 as int,
                    point.1 as int,
                    width as int,
                    height as int,
                    self.transforms@.skip(i as int),
                ),
                dims_after_all(w0, h0, self.transforms@) == dims_after_all(
                    width as int,
                    height as int,
                    self.transforms@.skip(i as int),
                ),
            decreases self.transforms.len() - i,
        {
            let transform = self.transforms[i];
            proof {
                assert(self.transforms@.skip(i as int).drop_first() =~= self.transforms@.skip(
                    i + 1,
                ));
                lemma_point_after_stays_in_block(
                    transform,
                    point.0 as int,
                    point.1 as int,
                    width as int,
                    height as int,
                );
            }
            point = transform_point(point, width, height, transform);
            match transform {
                SelectionTransform::RotateClockwise | SelectionTransform::RotateCounterClockwise => {
                    let swap = width;
                    width = height;
                    height = swap;
                },
                _ => {},
            }
            i = i + 1;
        }
        proof {
            assert(self.transforms@.skip(i as int) =~= Seq::<SelectionTransform>::empty());
            lemma_apply_transforms_in_block(x0, y0, w0, h0, self.transforms@);
        }
        Coord::new(self.target.min.x + point.0, self.target.min.y + point.1, self.target.min.z)
    }
}

/// Every source tile of a block edit lands on a tile of the target.
pub proof fn lemma_destination_in_target(request: SelectionEditRequest, coord: Coord)
    requires
        request.well_formed(),
        request.source.has(coord),
    ensures
        request.target.has(request.spec_destination(coord)),
{
    lemma_apply_transforms_in_block(
        coord.x - request.source.min.x,
        coord.y - request.source.min.y,
        span(request.source.min.x, request.source.max.x),
        span(request.source.min.y, request.source.max.y),
        request.transforms@,
    );
}

/// Distinct source tiles of a block edit land on distinct target tiles.
pub proof fn lemma_destination_injective(request: SelectionEditRequest, a: Coord, b: Coord)
    requires
        request.well_formed(),
        request.source.has(a),
        request.source.has(b),
        request.spec_destination(a) == request.spec_destination(b),
    ensures
        a == b,
{
    let w = span(request.source.min.x, request.source.max.x);
    let h = span(request.source.min.y, request.source.max.y);
    lemma_apply_transforms_in_block(
        a.x - request.source.min.x,
        a.y - request.source.min.y,
        w,
        h,
        request.transforms@,
    );
    lemma_apply_transforms_in_block(
        b.x - request.source.min.x,
        b.y - request.source.min.y,
        w,
        h,
        request.transforms@,
    );
    lemma_apply_transforms_injective(
        a.x - request.source.min.x,
        a.y - request.source.min.y,
        b.x - request.source.min.x,
        b.y - request.source.min.y,
        w,
        h,
        request.transforms@,
    );
}

/// Every target tile of a block edit receives the contents of exactly the source tile
/// `spec_source` names.
pub proof fn lemma_source_lands_on_target(request: SelectionEditRequest, coord: Coord)
    requires
        request.well_formed(),
        request.target.has(coord),
    ensures
        request.source.has(request.spec_source(coord)),
        request.spec_destination(request.spec_source(coord)) == coord,
{
    let w = span(request.source.min.x, request.source.max.x);
    let h = span(request.source.min.y, request.source.max.y);
    lemma_unapply_transforms(
        coord.x - request.target.min.x,
        coord.y - request.target.min.y,
        w,
        h,
        request.transforms@,
    );
}

/// Whether the point `(x, y)` of a `width` by `height` block lies within `line_width` of an edge.
pub open spec fn near_edge(x: int, y: int, width: int, height: int, line_width: int) -> bool {
    ||| x < line_width
    ||| width - 1 - x < line_width
    ||| y < line_width
    ||| height - 1 - y < line_width
}

/// Transforms keep a point's distance from the block's edges, so a point within `line_width` of
/// an edge stays so, and a point farther in stays farther in.
pub proof fn lemma_apply_transforms_near_edge(
    x: int,
    y: int,
    width: int,
    height: int,
    line_width: int,
    transforms: Seq<SelectionTransform>,
)
    ensures
        ({
            let r = apply_transforms(x, y, width, height, transforms);
            near_edge(r.0, r.1, r.2, r.3, line_width) == near_edge(x, y, width, height, line_width)
        }),
    decreases transforms.len(),
{
    if transforms.len() > 0 {
        let (px, py) = point_after(transforms[0], x, y, width, height);
        let (w2, h2) = dims_after(transforms[0], width, height);
        lemma_apply_transforms_near_edge(px, py, w2, h2, line_width, transforms.drop_first());
    }
}

/// A block edit moves the edited tiles of the source onto the edited tiles of the target: with a
/// hollow mode, a tile of the source ring lands on the target ring and a tile of the source hole
/// lands in the target hole.
pub proof fn lemma_destination_keeps_ring(request: SelectionEditRequest, coord: Coord)
    requires
        request.well_formed(),
        request.source.has(coord),
    ensures
        spec_includes(request.mode, request.source, coord) == spec_includes(
            request.mode,
            request.target,
            request.spec_destination(coord),
        ),
{
    lemma_destination_in_target(request, coord);
    match request.mode {
        BlockSelectionMode::Full => {},
        BlockSelectionMode::Hollow { line_width } => {
            lemma_apply_transforms_near_edge(
                coord.x - request.source.min.x,
                coord.y - request.source.min.y,
                span(request.source.min.x, request.source.max.x),
                span(request.source.min.y, request.source.max.y),
                effective_line_width(line_width) as int,
                request.transforms@,
            );
            lemma_apply_transforms_in_block(
                coord.x - request.source.min.x,
                coord.y - request.source.min.y,
                span(request.source.min.x, request.source.max.x),
                span(request.source.min.y, request.source.max.y),
                request.transforms@,
            );
        },
    }
}

pub fn position_less(a: Coord, b: Coord) -> (less: bool)
    ensures
        less == position_before(a, b),
{
    a.z < b.z || (a.z == b.z && a.y < b.y) || (a.z == b.z && a.y == b.y && a.x < b.x)
}

pub open spec fn plan_keys(plan: Seq<(Coord, TileSource)>) -> Seq<Coord> {
    plan.map_values(|entry: (Coord, TileSource)| entry.0)
}

impl SelectionEditRequest {
    /// The source tile whose contents land on the target tile `coord`.
    pub fn source_of(&self, coord: Coord) -> (source: Coord)
        requires
            self.well_formed(),
            self.target.has(coord),
        ensures
            source == self.spec_source(coord),
            self.source.has(source),
            self.spec_destination(source) == coord,
    {
        let ghost ts = self.transforms@;
        let ghost w0 = span(self.source.min.x, self.source.max.x);
        let ghost h0 = span(self.source.min.y, self.source.max.y);
        let n = self.transforms.len();
        let mut dims: Vec<(u32, u32)> = Vec::new();
        dims.push((self.source.width(), self.source.height()));
        let mut i: usize = 0;
        proof {
            assert(ts.take(0) =~= Seq::<SelectionTransform>::empty());
        }
        while i < n
            invariant
                self.well_formed(),
                ts == self.transforms@,
                n == ts.len(),
                i <= n,
                dims@.len() == i + 1,
                forall|k: int|
                    0 <= k <= i ==> ((#[trigger] dims@[k]).0 as int, dims@[k].1 as int)
                        == dims_after_all(w0, h0, ts.take(k)),
            decreases n - i,
        {
            let (w, h) = dims[i];
            let next = match self.transforms[i] {
                SelectionTransform::RotateClockwise | SelectionTransform::RotateCounterClockwise => (
                    h,
                    w,
                ),
                _ => (w, h),
            };
            proof {
                assert(ts.take(i + 1) =~= ts.take(i as int).push(ts[i as int]));
                lemma_dims_after_all_push(w0, h0, ts.take(i as int), ts[i as int]);
            }
            dims.push(next);
            i = i + 1;
        }
        proof {
            assert(ts.take(n as int) =~= ts);
        }
        let mut point = (coord.x - self.target.min.x, coord.y - self.target.min.y);
        let ghost q0 = (coord.x - self.target.min.x) as int;
        let ghost q1 = (coord.y - self.target.min.y) as int;
        let ghost wn = span(self.target.min.x, self.target.max.x);
        let ghost hn = span(self.target.min.y, self.target.max.y);
        let mut i: usize = n;
        while i > 0
            invariant
                self.well_formed(),
                ts == self.transforms@,
                n == ts.len(),
                i <= n,
                dims@.len() == n + 1,
                forall|k: int|
                    0 <= k <= n ==> ((#[trigger] dims@[k]).0 as int, dims@[k].1 as int)
                        == dims_after_all(w0, h0, ts.take(k)),
                in_block(point.0 as int, point.1 as int, dims@[i as int].0 as int, dims@[i as int].1 as int),
                unapply_transforms(q0, q1, wn, hn, ts) == unapply_transforms(
                    point.0 as int,
                    point.1 as int,
                    dims@[i as int].0 as int,
                    dims@[i as int].1 as int,
                    ts.take(i as int),
                ),
            decreases i,
        {
            let transform = self.transforms[i - 1];
            let (w, h) = dims[i];
            let inverse = match transform {
                SelectionTransform::RotateClockwise => SelectionTransform::RotateCounterClockwise,
                SelectionTransform::RotateCounterClockwise => SelectionTransform::RotateClockwise,
                other => other,
            };
            proof {
                let front = ts.take(i - 1);
                assert(ts.take(i as int).drop_last() =~= front);
                assert(ts.take(i as int).last() == transform);
                assert(ts.take(i as int) =~= front.push(transform));
                lemma_dims_after_all_push(w0, h0, front, transform);
                let d = dims_after_all(w0, h0, front);
                lemma_point_after_inverse(transform, 0, 0, d.0, d.1);
                lemma_point_after_stays_in_block(
                    inverse,
                    point.0 as int,
                    point.1 as int,
                    w as int,
                    h as int,
                );
            }
            point = transform_point(point, w, h, inverse);
            i = i - 1;
        }
        proof {
            assert(ts.take(0) =~= Seq::<SelectionTransform>::empty());
            lemma_source_lands_on_target(*self, coord);
        }
        Coord::new(self.source.min.x + point.0, self.source.min.y + point.1, self.source.min.z)
    }

    /// What the edit stages at each tile it writes, in row-major order: the target tiles take the
    /// contents of their source tiles, and a move clears the source tiles that nothing lands on.
    pub fn plan(&self) -> (plan: Vec<(Coord, TileSource)>)
        requires
            self.well_formed(),
        ensures
            sorted_by_position(plan_keys(plan@)),
            forall|k: int|
                0 <= k < plan@.len() ==> self.spec_stage((#[trigger] plan@[k]).0) == Some(
                    plan@[k].1,
                ),
            forall|c: Coord| self.spec_stage(c) is Some ==> plan_keys(plan@).contains(c),
    {
        let cleared = match self.placement {
            SelectionPlacement::Move => self.source_tiles(),
            SelectionPlacement::Copy => Vec::new(),
        };
        let written = self.mode.tiles(self.target);
        let ghost a = cleared@;
        let ghost b = written@;
        proof {
            assert forall|c: Coord|
                a.contains(c) <==> (self.placement == SelectionPlacement::Move && spec_includes(
                    self.mode,
                    self.source,
                    c,
                )) by {
                if self.placement == SelectionPlacement::Copy {
                    assert(a =~= Seq::<Coord>::empty());
                }
            }
            assert(sorted_by_position(a)) by {
                if self.placement == SelectionPlacement::Copy {
                    assert(a =~= Seq::<Coord>::empty());
                }
            }
        }
        let mut plan: Vec<(Coord, TileSource)> = Vec::new();
        let mut i: usize = 0;
        let mut j: usize = 0;
        while i < cleared.len() || j < written.len()
            invariant
                self.well_formed(),
                a == cleared@,
                b == written@,
                forall|c: Coord|
                    a.contains(c) <==> (self.placement == SelectionPlacement::Move && spec_includes(
                        self.mode,
                        self.source,
                        c,
                    )),
                forall|c: Coord| b.contains(c) <==> spec_includes(self.mode, self.target, c),
                sorted_by_position(a),
                sorted_by_position(b),
                i <= a.len(),
                j <= b.len(),
                sorted_by_position(plan_keys(plan@)),
                forall|k: int|
                    0 <= k < plan@.len() ==> self.spec_stage((#[trigger] plan@[k]).0) == Some(
                        plan@[k].1,
                    ),
                forall|k: int|
                    0 <= k < i ==> plan_keys(plan@).contains(#[trigger] a[k]),
                forall|k: int|
                    0 <= k < j ==> plan_keys(plan@).contains(#[trigger] b[k]),
                forall|k: int|
                    0 <= k < plan@.len() ==> ((i < a.len() ==> position_before(
                        (#[trigger] plan@[k]).0,
                        a[i as int],
                    )) && (j < b.len() ==> position_before(plan@[k].0, b[j as int]))),
            decreases a.len() + b.len() - i - j,
        {
            let ghost before = plan@;
            let take_written = if i >= cleared.len() {
                true
            } else if j >= written.len() {
                false
            } else {
                !position_less(cleared[i], written[j])
            };
            if take_written {
                let c = written[j];
                proof {
                    assert(b.contains(c));
                }
                let source = self.source_of(c);
                plan.push((c, TileSource::Moved(source)));
                if i < cleared.len() && cleared[i] == c {
                    i = i + 1;
                }
                j = j + 1;
            } else {
                let c = cleared[i];
                proof {
                    assert(a.contains(c));
                    if b.contains(c) {
                        let m = choose|m: int| 0 <= m < b.len() && b[m] == c;
                        if m < j {
                            assert(plan_keys(before).contains(b[m]));
                            let k = choose|k: int|
                                0 <= k < before.len() && plan_keys(before)[k] == b[m];
                            assert(position_before(before[k].0, a[i as int]));
                        } else if m > j {
                            assert(position_before(b[j as int], b[m]));
                        }
                    }
                }
                plan.push((c, TileSource::Cleared));
                i = i + 1;
            }
            proof {
                let c = plan@[plan@.len() - 1].0;
                assert(plan@ == before.push(plan@[plan@.len() - 1]));
                assert(plan_keys(plan@) =~= plan_keys(before).push(c));
                assert forall|k: int|
                    0 <= k < plan@.len() implies ((i < a.len() ==> position_before(
                    (#[trigger] plan@[k]).0,
                    a[i as int],
                )) && (j < b.len() ==> position_before(plan@[k].0, b[j as int]))) by {
                    if k < before.len() {
                        assert(plan@[k] == before[k]);
                    }
                }
                assert forall|k: int| 0 <= k < i implies plan_keys(plan@).contains(#[trigger] a[k]) by {
                    if plan_keys(before).contains(a[k]) {
                        let m = choose|m: int| 0 <= m < before.len() && plan_keys(before)[m] == a[k];
                        assert(plan_keys(plan@)[m] == a[k]);
                    } else {
                        assert(plan_keys(plan@)[before.len() as int] == a[k]);
                    }
                }
                assert forall|k: int| 0 <= k < j implies plan_keys(plan@).contains(#[trigger] b[k]) by {
                    if plan_keys(before).contains(b[k]) {
                        let m = choose|m: int| 0 <= m < before.len() && plan_keys(before)[m] == b[k];
                        assert(plan_keys(plan@)[m] == b[k]);
                    } else {
                        assert(plan_keys(plan@)[before.len() as int] == b[k]);
                    }
                }
            }
        }
        proof {
            assert forall|c: Coord| self.spec_stage(c) is Some implies plan_keys(plan@).contains(c) by {
                if spec_includes(self.mode, self.target, c) {
                    assert(b.contains(c));
                    let m = choose|m: int| 0 <= m < b.len() && b[m] == c;
                } else {
                    assert(a.contains(c));
                    let m = choose|m: int| 0 <= m < a.len() && a[m] == c;
                }
            }
        }
        plan
    }
}

/// Whether a block's sides both fit in a `u32` count of tiles.
pub open spec fn sides_fit(selection: Selection) -> bool {
    span(selection.min.x, selection.max.x) <= u32::MAX && span(selection.min.y, selection.max.y)
        <= u32::MAX
}

proof fn lemma_transformed_all_shape(selection: Selection, transforms: Seq<SelectionTransform>)
    requires
        selection.well_formed(),
        sides_fit(selection),
    ensures
        transformed_all(selection, transforms) matches Some(target) ==> {
            &&& target.well_formed()
            &&& sides_fit(target)
            &&& target.min == selection.min
            &&& (span(target.min.x, target.max.x), span(target.min.y, target.max.y))
                == dims_after_all(
                span(selection.min.x, selection.max.x),
                span(selection.min.y, selection.max.y),
                transforms,
            )
        },
    decreases transforms.len(),
{
    if transforms.len() > 0 {
        if let Some(next) = spec_transformed_selection(selection, transforms[0]) {
            lemma_transformed_all_shape(next, transforms.drop_first());
        }
    }
}

/// The request to move or copy `selection` so that its lower left corner lands on `target_min`,
/// turned to `rotation`. There is none when the target leaves the `u32` range, or when the block
/// would land where it is, unturned.
pub fn placement_request(
    selection: Selection,
    target_min: Coord,
    rotation: SelectionRotation,
    placement: SelectionPlacement,
    mode: BlockSelectionMode,
) -> (request: Option<SelectionEditRequest>)
    ensures
        match spec_rotated_selection_at(selection, target_min, rotation) {
            None => request is None,
            Some(target) => if target == selection && rotation == SelectionRotation::Original {
                request is None
            } else {
                request matches Some(r) && r.source == selection && r.target == target
                    && r.transforms@ == rotation_transforms(rotation) && r.placement == placement
                    && r.mode == mode
            },
        },
        request matches Some(r) ==> (sides_fit(selection) ==> r.well_formed()),
{
    let target = rotated_selection_at(selection, target_min, rotation)?;
    if target == selection && rotation == SelectionRotation::Original {
        return None;
    }
    let transforms = rotation.transforms();
    proof {
        if sides_fit(selection) {
            let moved = selection.spec_with_min(target_min)->0;
            assert(span(moved.min.x, moved.max.x) == span(selection.min.x, selection.max.x));
            assert(span(moved.min.y, moved.max.y) == span(selection.min.y, selection.max.y));
            lemma_transformed_all_shape(moved, rotation_transforms(rotation));
        }
    }
    Some(SelectionEditRequest { source: selection, target, transforms, placement, mode })
}

/// The request to turn or mirror `selection` in place, keeping its lower left corner; none when
/// the block is not well formed or its turned sides leave the `u32` range.
pub fn transform_request(selection: Selection, transform: SelectionTransform, mode: BlockSelectionMode) -> (request:
    Option<SelectionEditRequest>)
    ensures
        match spec_transformed_selection(selection, transform) {
            None => request is None,
            Some(target) => request matches Some(r) && r.source == selection && r.target == target
                && r.transforms@ == seq![transform] && r.placement == SelectionPlacement::Move
                && r.mode == mode,
        },
        request matches Some(r) ==> (sides_fit(selection) ==> r.well_formed()),
{
    if !selection.is_well_formed() {
        return None;
    }
    let target = transformed_selection(selection, transform)?;
    let mut transforms: Vec<SelectionTransform> = Vec::new();
    transforms.push(transform);
    proof {
        assert(transforms@ =~= seq![transform]);
        if sides_fit(selection) {
            assert(transformed_all(target, seq![transform].drop_first()) == Some(target));
            assert(transformed_all(selection, seq![transform]) == Some(target));
            lemma_transformed_all_shape(selection, seq![transform]);
        }
    }
    Some(
        SelectionEditRequest {
            source: selection,
            target,
            transforms,
            placement: SelectionPlacement::Move,
            mode,
        },
    )
}

impl SelectionPlacement {
    /// The name of the edit that moves or copies a block.
    pub fn label(self) -> (label: &'static str)
        ensures
            label@ == match self {
                SelectionPlacement::Move => "move block"@,
                SelectionPlacement::Copy => "copy block"@,
            },
    {
        match self {
            SelectionPlacement::Move => "move block",
            SelectionPlacement::Copy => "copy block",
        }
    }
}

impl SelectionTransform {
    /// The name of the edit that turns or mirrors a block.
    pub fn label(self) -> (label: &'static str)
        ensures
            label@ == match self {
                SelectionTransform::RotateClockwise => "rotate block clockwise"@,
                SelectionTransform::RotateCounterClockwise => "rotate block counterclockwise"@,
                SelectionTransform::MirrorHorizontal => "mirror block horizontally"@,
                SelectionTransform::MirrorVertical => "mirror block vertically"@,
            },
    {
        match self {
            SelectionTransform::RotateClockwise => "rotate block clockwise",
            SelectionTransform::RotateCounterClockwise => "rotate block counterclockwise",
            SelectionTransform::MirrorHorizontal => "mirror block horizontally",
            SelectionTransform::MirrorVertical => "mirror block vertically",
        }
    }
}

/// An edit a tool built, with the instance to select afterwards and the instances it touched.
pub struct ToolEdit<E> {
    pub edit: E,
    pub selected: Option<u64>,
    pub affected: Vec<u64>,
}

/// Where the direction-named variants of a type are kept: the type itself is the `directional`
/// group, or it is one of the variants under its parent group, or one of its children is the
/// group (the first one named so).
#[derive(Debug, Clone, Copy, PartialEq, Eq, Structural)]
pub enum DirectionalGroup {
    Itself,
    Parent(Dir),
    Child(usize),
}

/// Where `child` first names the directional group among `names`.
pub open spec fn first_directional(names: Seq<Seq<char>>) -> Option<int>
    decreases names.len(),
{
    if names.len() == 0 {
        None
    } else if names[0] == "directional"@ {
        Some(0)
    } else {
        match first_directional(names.drop_first()) {
            Some(i) => Some(i + 1),
            None => None,
        }
    }
}

/// Where the first of `names` naming `direction` is.
pub open spec fn first_named_for(names: Seq<Seq<char>>, direction: Dir) -> Option<int>
    decreases names.len(),
{
    if names.len() == 0 {
        None
    } else if spec_direction_from_name(names[0]) == Some(direction) {
        Some(0)
    } else {
        match first_named_for(names.drop_first(), direction) {
            Some(i) => Some(i + 1),
            None => None,
        }
    }
}

/// The directional group is the first child named `directional`: that child is so named and
/// none before it is, and there is none exactly when no child is so named.
pub proof fn lemma_first_directional(names: Seq<Seq<char>>)
    ensures
        first_directional(names) matches Some(i) ==> 0 <= i < names.len() && names[i] == "directional"@
            && forall|j: int| 0 <= j < i ==> names[j] != "directional"@,
        first_directional(names) is None ==> forall|j: int| 0 <= j < names.len() ==> names[j] != "directional"@,
    decreases names.len(),
{
    if names.len() > 0 {
        lemma_first_directional(names.drop_first());
        assert forall|j: int| 0 < j < names.len() implies names[j] == names.drop_first()[j - 1] by {}
    }
}

/// The child named for a direction is the first child whose name reads as that direction: none
/// before it does, and there is none exactly when no child's name does.
pub proof fn lemma_first_named_for(names: Seq<Seq<char>>, direction: Dir)
    ensures
        first_named_for(names, direction) matches Some(i) ==> 0 <= i < names.len()
            && spec_direction_from_name(names[i]) == Some(direction) && forall|j: int|
            0 <= j < i ==> spec_direction_from_name(names[j]) != Some(direction),
        first_named_for(names, direction) is None ==> forall|j: int|
            0 <= j < names.len() ==> spec_direction_from_name(names[j]) != Some(direction),
    decreases names.len(),
{
    if names.len() > 0 {
        lemma_first_named_for(names.drop_first(), direction);
        assert forall|j: int| 0 < j < names.len() implies names[j] == names.drop_first()[j - 1] by {}
    }
}

pub open spec fn spec_directional_group(
    name: Option<Seq<char>>,
    parent_name: Option<Seq<char>>,
    child_names: Seq<Seq<char>>,
) -> Option<DirectionalGroup> {
    match name {
        None => None,
        Some(name) => if name == "directional"@ {
            Some(DirectionalGroup::Itself)
        } else if spec_direction_from_name(name) is Some && parent_name == Some("directional"@) {
            Some(DirectionalGroup::Parent(spec_direction_from_name(name)->0))
        } else {
            match first_directional(child_names) {
                Some(i) => Some(DirectionalGroup::Child(i as usize)),
                None => None,
            }
        },
    }
}

/// The directional group of a type named `name` (none for an unnamed type), whose parent is
/// named `parent_name` and whose children are named `child_names`.
pub fn directional_group(name: Option<&str>, parent_name: Option<&str>, child_names: &Vec<String>) -> (group:
    Option<DirectionalGroup>)
    ensures
        group == spec_directional_group(
            match name {
                Some(n) => Some(n@),
                None => None,
            },
            match parent_name {
                Some(n) => Some(n@),
                None => None,
            },
            crate::text::views_of(child_names@),
        ),
        group matches Some(DirectionalGroup::Itself) <==> (name matches Some(n) && n@ == "directional"@),
        group matches Some(DirectionalGroup::Parent(d)) ==> (name matches Some(n) && spec_direction_from_name(n@)
            == Some(d)) && (parent_name matches Some(p) && p@ == "directional"@),
        group matches Some(DirectionalGroup::Child(i)) ==> i < child_names@.len() && child_names@[i as int]@
            == "directional"@ && forall|j: int| 0 <= j < i ==> (#[trigger] child_names@[j])@ != "directional"@,
{
    proof {
        let names = crate::text::views_of(child_names@);
        lemma_first_directional(names);
        assert forall|j: int| 0 <= j < child_names@.len() implies names[j] == (#[trigger] child_names@[j])@ by {}
    }
    let given = match name {
        Some(given) => given,
        None => return None,
    };
    proof {
        reveal_strlit("directional");
    }
    if crate::text::str_equal(given, "directional") {
        return Some(DirectionalGroup::Itself);
    }
    if let Some(direction) = direction_from_name(given) {
        if let Some(parent) = parent_name {
            if crate::text::str_equal(parent, "directional") {
                return Some(DirectionalGroup::Parent(direction));
            }
        }
    }
    let ghost names = crate::text::views_of(child_names@);
    proof {
        assert(names.skip(0) =~= names);
    }
    let mut i: usize = 0;
    while i < child_names.len()
        invariant
            names == crate::text::views_of(child_names@),
            i <= child_names@.len(),
            name == Some(given),
            given@ != "directional"@,
            !(spec_direction_from_name(given@) is Some && match parent_name {
                Some(p) => p@ == "directional"@,
                None => false,
            }),
            first_directional(names) == match first_directional(names.skip(i as int)) {
                Some(k) => Some(k + i),
                None => None,
            },
        decreases child_names.len() - i,
    {
        proof {
            assert(names.skip(i as int)[0] == names[i as int]);
            assert(names.skip(i as int).drop_first() =~= names.skip(i + 1));
        }
        if crate::text::str_equal(child_names[i].as_str(), "directional") {
            proof {
                assert(first_directional(names.skip(i as int)) == Some(0int));
                assert(first_directional(names) == Some(i as int));
                lemma_first_directional(names);
                assert forall|j: int| 0 <= j < child_names@.len() implies names[j] == (#[trigger] child_names@[j])@ by {}
            }
            return Some(DirectionalGroup::Child(i));
        }
        i = i + 1;
    }
    proof {
        assert(names.skip(i as int).len() == 0);
    }
    None
}

/// The child of a directional group named for `direction`: the first one, if any.
pub fn directional_child(child_names: &Vec<String>, direction: Dir) -> (child: Option<usize>)
    ensures
        match child {
            Some(i) => first_named_for(crate::text::views_of(child_names@), direction) == Some(
                i as int,
            ),
            None => first_named_for(crate::text::views_of(child_names@), direction) is None,
        },
        child matches Some(i) ==> i < child_names@.len() && spec_direction_from_name(child_names@[i as int]@)
            == Some(direction) && forall|j: int|
            0 <= j < i ==> spec_direction_from_name(#[trigger] child_names@[j]@) != Some(direction),
        child is None ==> forall|j: int|
            0 <= j < child_names@.len() ==> spec_direction_from_name(#[trigger] child_names@[j]@) != Some(direction),
{
    proof {
        let names = crate::text::views_of(child_names@);
        lemma_first_named_for(names, direction);
        assert forall|j: int| 0 <= j < child_names@.len() implies names[j] == (#[trigger] child_names@[j])@ by {}
    }
    let ghost names = crate::text::views_of(child_names@);
    proof {
        assert(names.skip(0) =~= names);
    }
    let mut i: usize = 0;
    while i < child_names.len()
        invariant
            names == crate::text::views_of(child_names@),
            i <= child_names@.len(),
            first_named_for(names, direction) == match first_named_for(names.skip(i as int), direction) {
                Some(k) => Some(k + i),
                None => None,
            },
        decreases child_names.len() - i,
    {
        proof {
            assert(names.skip(i as int)[0] == names[i as int]);
            assert(names.skip(i as int).drop_first() =~= names.skip(i + 1));
        }
        if direction_from_name(child_names[i].as_str()) == Some(direction) {
            proof {
                lemma_first_named_for(names, direction);
                assert forall|j: int| 0 <= j < child_names@.len() implies names[j] == (#[trigger] child_names@[j])@ by {}
            }
            return Some(i);
        }
        i = i + 1;
    }
    proof {
        assert(names.skip(i as int).len() == 0);
    }
    None
}

/// What becomes of a number variable set on a prefab: dropped when the type already gives it
/// that value, set otherwise.
#[derive(Debug, Clone, Copy, PartialEq, Eq, Structural)]
pub enum NumberUpdate {
    Remove,
    Assign(i32),
}

pub fn resolved_number_update(inherited: Option<i32>, value: i32) -> (update: NumberUpdate)
    ensures
        update == if inherited == Some(value) {
            NumberUpdate::Remove
        } else {
            NumberUpdate::Assign(value)
        },
{
    if inherited == Some(value) {
        NumberUpdate::Remove
    } else {
        NumberUpdate::Assign(value)
    }
}

} // verus!

verus! {

/// A tile a block edit writes: the instances stacked on it before and the ones the edit stages,
/// each as its instance id and prefab.
#[derive(Debug, Clone, PartialEq, Eq)]
pub struct StagedTile {
    pub coord: Coord,
    pub before: Vec<(u64, u64)>,
    pub after: Vec<(u64, u64)>,
}

/// The staged tile changes what is on it.
pub open spec fn tile_changes(tile: StagedTile) -> bool {
    tile.before@ != tile.after@
}

/// `id` is one of the instances on the tile before or after the edit.
pub open spec fn tile_touches(tile: StagedTile, id: u64) -> bool {
    (exists|k: int| 0 <= k < tile.before@.len() && (#[trigger] tile.before@[k]).0 == id) || (exists|k: int|
        0 <= k < tile.after@.len() && (#[trigger] tile.after@[k]).0 == id)
}

pub open spec fn strictly_increasing(ids: Seq<u64>) -> bool {
    forall|i: int, j: int| 0 <= i < j < ids.len() ==> ids[i] < ids[j]
}

fn stacks_equal(a: &Vec<(u64, u64)>, b: &Vec<(u64, u64)>) -> (same: bool)
    ensures
        same == (a@ == b@),
{
    if a.len() != b.len() {
        return false;
    }
    let mut i: usize = 0;
    while i < a.len()
        invariant
            a@.len() == b@.len(),
            i <= a@.len(),
            forall|k: int| 0 <= k < i ==> a@[k] == b@[k],
        decreases a.len() - i,
    {
        if a[i].0 != b[i].0 || a[i].1 != b[i].1 {
            return false;
        }
        i = i + 1;
    }
    assert(a@ =~= b@);
    true
}

/// The ids of the instances of a stack.
pub open spec fn stack_ids(stack: Seq<(u64, u64)>) -> Set<u64> {
    Set::new(|x: u64| exists|k: int| 0 <= k < stack.len() && (#[trigger] stack[k]).0 == x)
}

fn insert_sorted(ids: &mut Vec<u64>, id: u64)
    requires
        strictly_increasing(old(ids)@),
    ensures
        strictly_increasing(final(ids)@),
        final(ids)@.to_set() == old(ids)@.to_set().insert(id),
{
    let mut p: usize = 0;
    while p < ids.len() && ids[p] < id
        invariant
            p <= ids@.len(),
            forall|k: int| 0 <= k < p ==> ids@[k] < id,
        decreases ids.len() - p,
    {
        p = p + 1;
    }
    if p < ids.len() && ids[p] == id {
        proof {
            assert(ids@.to_set().contains(id)) by {
                assert(ids@[p as int] == id);
            }
            assert(ids@.to_set() =~= ids@.to_set().insert(id));
        }
        return;
    }
    let ghost before = ids@;
    ids.insert(p, id);
    proof {
        assert(ids@ == before.insert(p as int, id));
        assert forall|x: u64| ids@.to_set().contains(x) <==> before.to_set().insert(id).contains(x) by {
            if ids@.contains(x) {
                let k = choose|k: int| 0 <= k < ids@.len() && ids@[k] == x;
                if k < p {
                    assert(before[k] == x);
                } else if k > p {
                    assert(before[k - 1] == x);
                }
            }
            if before.contains(x) {
                let k = choose|k: int| 0 <= k < before.len() && before[k] == x;
                if k < p {
                    assert(ids@[k] == x);
                } else {
                    assert(ids@[k + 1] == x);
                }
            }
            if x == id {
                assert(ids@[p as int] == x);
            }
        }
        assert(ids@.to_set() =~= before.to_set().insert(id));
    }
}

fn add_stack_ids(ids: &mut Vec<u64>, stack: &Vec<(u64, u64)>)
    requires
        strictly_increasing(old(ids)@),
    ensures
        strictly_increasing(final(ids)@),
        final(ids)@.to_set() == old(ids)@.to_set().union(stack_ids(stack@)),
{
    let ghost start = ids@.to_set();
    let mut i: usize = 0;
    while i < stack.len()
        invariant
            i <= stack@.len(),
            strictly_increasing(ids@),
            ids@.to_set() == start.union(stack_ids(stack@.take(i as int))),
        decreases stack.len() - i,
    {
        let ghost old_set = ids@.to_set();
        insert_sorted(ids, stack[i].0);
        proof {
            let before_ids = stack_ids(stack@.take(i as int));
            let after_ids = stack_ids(stack@.take(i + 1));
            assert forall|x: u64| after_ids.contains(x) <==> before_ids.insert(stack@[i as int].0).contains(x) by {
                if after_ids.contains(x) {
                    let k = choose|k: int| 0 <= k < i + 1 && (#[trigger] stack@.take(i + 1)[k]).0 == x;
                    if k < i {
                        assert(stack@.take(i as int)[k] == stack@.take(i + 1)[k]);
                    }
                }
                if before_ids.contains(x) {
                    let k = choose|k: int| 0 <= k < i && (#[trigger] stack@.take(i as int)[k]).0 == x;
                    assert(stack@.take(i + 1)[k] == stack@.take(i as int)[k]);
                }
                if x == stack@[i as int].0 {
                    assert(stack@.take(i + 1)[i as int] == stack@[i as int]);
                }
            }
            assert(after_ids =~= before_ids.insert(stack@[i as int].0));
            assert(ids@.to_set() =~= start.union(after_ids));
        }
        i = i + 1;
    }
    proof {
        assert(stack@.take(i as int) =~= stack@);
    }
}

/// What a block edit changes once its tiles are staged: the tiles whose stacks differ, in the
/// order staged (an edit with none changes nothing), and the instances touched on them (those
/// stacked before and after), each once, in increasing order of id.
pub fn block_edit_changes(tiles: &Vec<StagedTile>) -> (changes: (Vec<Coord>, Vec<u64>))
    ensures
        changes.0@ == tiles@.filter(|t: StagedTile| tile_changes(t)).map_values(|t: StagedTile| t.coord),
        strictly_increasing(changes.1@),
        forall|id: u64|
            changes.1@.to_set().contains(id) <==> exists|i: int|
                0 <= i < tiles@.len() && tile_changes(#[trigger] tiles@[i]) && tile_touches(tiles@[i], id),
{
    let ghost keep = |t: StagedTile| tile_changes(t);
    let mut coords: Vec<Coord> = Vec::new();
    let mut affected: Vec<u64> = Vec::new();
    let mut i: usize = 0;
    while i < tiles.len()
        invariant
            i <= tiles@.len(),
            keep == (|t: StagedTile| tile_changes(t)),
            coords@ == tiles@.take(i as int).filter(keep).map_values(|t: StagedTile| t.coord),
            strictly_increasing(affected@),
            forall|id: u64|
                affected@.to_set().contains(id) <==> exists|m: int|
                    0 <= m < i && tile_changes(#[trigger] tiles@[m]) && tile_touches(tiles@[m], id),
        decreases tiles.len() - i,
    {
        let tile = &tiles[i];
        proof {
            assert(tiles@.take(i + 1) =~= tiles@.take(i as int).push(tiles@[i as int]));
            tiles@.take(i as int).lemma_filter_push(tiles@[i as int], keep);
        }
        let ghost old_affected = affected@.to_set();
        if !stacks_equal(&tile.before, &tile.after) {
            coords.push(tile.coord);
            add_stack_ids(&mut affected, &tile.before);
            add_stack_ids(&mut affected, &tile.after);
            proof {
                assert(coords@ =~= tiles@.take(i + 1).filter(keep).map_values(|t: StagedTile| t.coord));
            }
        }
        proof {
            assert forall|id: u64|
                affected@.to_set().contains(id) <==> exists|m: int|
                    0 <= m < i + 1 && tile_changes(#[trigger] tiles@[m]) && tile_touches(tiles@[m], id) by {
                let t = tiles@[i as int];
                assert(tile_touches(t, id) <==> (stack_ids(t.before@).contains(id) || stack_ids(t.after@).contains(id)));
                if exists|m: int| 0 <= m < i + 1 && tile_changes(#[trigger] tiles@[m]) && tile_touches(tiles@[m], id) {
                    let m = choose|m: int| 0 <= m < i + 1 && tile_changes(#[trigger] tiles@[m]) && tile_touches(tiles@[m], id);
                    if m < i {
                        assert(old_affected.contains(id));
                    }
                }
            }
        }
        i = i + 1;
    }
    proof {
        assert(tiles@.take(i as int) =~= tiles@);
    }
    (coords, affected)
}

/// Some staged tile at `c` changes.
pub open spec fn changes_at(tiles: Seq<StagedTile>, c: Coord) -> bool {
    exists|k: int| 0 <= k < tiles.len() && tiles[k].coord == c && tile_changes(tiles[k])
}

/// The coordinates of staged tiles, in order.
pub open spec fn coords_of(tiles: Seq<StagedTile>) -> Seq<Coord> {
    tiles.map_values(|t: StagedTile| t.coord)
}

/// The tiles of `tiles` whose stacks differ, by coordinate, in the order given.
pub open spec fn changed_coords(tiles: Seq<StagedTile>) -> Seq<Coord> {
    tiles.filter(|t: StagedTile| tile_changes(t)).map_values(|t: StagedTile| t.coord)
}

/// Keeping only the changed tiles keeps the row-major order of the staged tiles, and keeps
/// only tiles that were staged and change.
proof fn lemma_changed_coords_sorted(tiles: Seq<StagedTile>)
    requires
        sorted_by_position(coords_of(tiles)),
    ensures
        sorted_by_position(changed_coords(tiles)),
        forall|i: int|
            0 <= i < changed_coords(tiles).len() ==> changes_at(tiles, #[trigger] changed_coords(tiles)[i]),
    decreases tiles.len(),
{
    let keep = |t: StagedTile| tile_changes(t);
    if tiles.len() == 0 {
        assert(tiles.filter(keep) =~= Seq::<StagedTile>::empty());
        assert(changed_coords(tiles).len() == 0);
        return;
    }
    let front = tiles.drop_last();
    let last = tiles.last();
    assert forall|i: int, j: int|
        0 <= i < j < coords_of(front).len() implies position_before(
        #[trigger] coords_of(front)[i],
        #[trigger] coords_of(front)[j],
    ) by {
        assert(coords_of(front)[i] == coords_of(tiles)[i]);
        assert(coords_of(front)[j] == coords_of(tiles)[j]);
    }
    lemma_changed_coords_sorted(front);
    let before = changed_coords(front);
    assert(tiles =~= front.push(last));
    front.lemma_filter_push(last, keep);
    if tile_changes(last) {
        assert(changed_coords(tiles) =~= before.push(last.coord));
        assert forall|i: int| 0 <= i < before.len() implies position_before(
            #[trigger] before[i],
            last.coord,
        ) by {
            assert(changes_at(front, before[i]));
            let k = choose|k: int| 0 <= k < front.len() && front[k].coord == before[i] && tile_changes(front[k]);
            assert(coords_of(tiles)[k] == before[i]);
            assert(coords_of(tiles)[tiles.len() - 1] == last.coord);
        }
        assert forall|i: int|
            0 <= i < changed_coords(tiles).len() implies changes_at(tiles, #[trigger] changed_coords(tiles)[i]) by {
            if i < before.len() {
                assert(changes_at(front, before[i]));
                let k = choose|k: int| 0 <= k < front.len() && front[k].coord == before[i] && tile_changes(front[k]);
                assert(tiles[k] == front[k]);
            } else {
                assert(tiles[tiles.len() - 1] == last);
            }
        }
    } else {
        assert(changed_coords(tiles) =~= before);
        assert forall|i: int|
            0 <= i < changed_coords(tiles).len() implies changes_at(tiles, #[trigger] changed_coords(tiles)[i]) by {
            assert(changes_at(front, before[i]));
            let k = choose|k: int| 0 <= k < front.len() && front[k].coord == before[i] && tile_changes(front[k]);
            assert(tiles[k] == front[k]);
        }
    }
}

impl SelectionEditRequest {
    /// The staged tiles are those the edit writes, one for each tile its plan stages, in
    /// row-major order.
    pub open spec fn stages(&self, tiles: Seq<StagedTile>) -> bool {
        &&& sorted_by_position(coords_of(tiles))
        &&& forall|k: int| 0 <= k < tiles.len() ==> (#[trigger] self.spec_stage(tiles[k].coord)) is Some
        &&& forall|c: Coord| #[trigger] self.spec_stage(c) is Some ==> exists|k: int|
            0 <= k < tiles.len() && tiles[k].coord == c
    }

    /// The edit a block move or copy makes once each tile of its plan is staged (its stack now
    /// and the stack the plan puts there): nothing when no staged tile differs from the tile now;
    /// otherwise the tiles that differ, in row-major order, each written by the plan (a target
    /// tile, or a source tile a move clears), the instances stacked on them before and after,
    /// each once in increasing order of id, and the target block, which the edit selects.
    pub fn selection_edit(&self, tiles: &Vec<StagedTile>) -> (edit: Option<(Vec<Coord>, Vec<u64>, Selection)>)
        requires
            self.stages(tiles@),
        ensures
            edit is None <==> forall|k: int| 0 <= k < tiles@.len() ==> !tile_changes(#[trigger] tiles@[k]),
            edit matches Some((coords, ids, selected)) ==> {
                &&& selected == self.target
                &&& coords@ == changed_coords(tiles@)
                &&& sorted_by_position(coords@)
                &&& forall|i: int| 0 <= i < coords@.len() ==> (#[trigger] self.spec_stage(coords@[i])) is Some
                &&& forall|k: int| 0 <= k < tiles@.len() && tile_changes(#[trigger] tiles@[k]) ==> coords@.contains(tiles@[k].coord)
                &&& strictly_increasing(ids@)
                &&& forall|id: u64| ids@.to_set().contains(id) <==> exists|k: int|
                    0 <= k < tiles@.len() && tile_changes(#[trigger] tiles@[k]) && tile_touches(tiles@[k], id)
            },
    {
        let (coords, ids) = block_edit_changes(tiles);
        proof {
            lemma_changed_coords_sorted(tiles@);
            assert forall|k: int| 0 <= k < tiles@.len() && tile_changes(#[trigger] tiles@[k]) implies coords@.contains(
                tiles@[k].coord,
            ) by {
                lemma_changed_tile_kept(tiles@, k);
            }
            assert forall|i: int| 0 <= i < coords@.len() implies (#[trigger] self.spec_stage(coords@[i])) is Some by {
                assert(changes_at(tiles@, changed_coords(tiles@)[i]));
                let k = choose|k: int|
                    0 <= k < tiles@.len() && tiles@[k].coord == changed_coords(tiles@)[i] && tile_changes(tiles@[k]);
                assert(self.spec_stage(tiles@[k].coord) is Some);
            }
        }
        if coords.len() == 0 {
            proof {
                assert forall|k: int| 0 <= k < tiles@.len() implies !tile_changes(#[trigger] tiles@[k]) by {
                    if tile_changes(tiles@[k]) {
                        lemma_changed_tile_kept(tiles@, k);
                    }
                }
            }
            return None;
        }
        proof {
            assert(changes_at(tiles@, changed_coords(tiles@)[0]));
        }
        Some((coords, ids, self.target))
    }
}

/// A staged tile that changes is among the changed tiles.
proof fn lemma_changed_tile_kept(tiles: Seq<StagedTile>, k: int)
    requires
        0 <= k < tiles.len(),
        tile_changes(tiles[k]),
    ensures
        changed_coords(tiles).contains(tiles[k].coord),
    decreases tiles.len(),
{
    let keep = |t: StagedTile| tile_changes(t);
    let front = tiles.drop_last();
    let last = tiles.last();
    assert(tiles =~= front.push(last));
    front.lemma_filter_push(last, keep);
    if k == tiles.len() - 1 {
        assert(changed_coords(tiles) =~= changed_coords(front).push(last.coord));
        assert(changed_coords(tiles)[changed_coords(front).len() as int] == last.coord);
    } else {
        assert(tiles[k] == front[k]);
        lemma_changed_tile_kept(front, k);
        let i = choose|i: int| 0 <= i < changed_coords(front).len() && changed_coords(front)[i] == tiles[k].coord;
        if tile_changes(last) {
            assert(changed_coords(tiles) =~= changed_coords(front).push(last.coord));
            assert(changed_coords(tiles)[i] == tiles[k].coord);
        } else {
            assert(changed_coords(tiles) =~= changed_coords(front));
        }
    }
}

} // verus!
