use std::collections::HashSet;

use rmd_editor::fill::{
    fill_region,
    FillTile,
    cardinal_neighbors,
    check_fill_limit,
    coord_in_bounds,
    fill_plan,
    fill_targets,
    flood_region,
    preserves_walls,
    FillGrid,
};
use rmd_editor::geometry::{Coord, Selection, Size};
use rmd_editor::placement::{
    insert_placed,
    insertion_index,
    needs_new_instance,
    place_on_tile,
    placement_kind,
    placement_rank,
    replace_kind,
    would_replace_kind,
    PlacedPrefab,
    PlacementKind,
};
use rmd_editor::tool::{
    directional_child,
    directional_group,
    resolved_number_update,
    DirectionalGroup,
    NumberUpdate,
    direction_from_name,
    placement_request,
    transform_request,
    turned_appearance,
    block_edit_changes,
    AtomOffsets,
    StagedTile,
    rotate_point,
    rotated_selection_at,
    transform_direction,
    transform_point,
    transform_vector,
    transformed_selection,
    BlockSelectionMode,
    Dir,
    FillError,
    FillMode,
    SelectionEditRequest,
    SelectionMask,
    SelectionPlacement,
    SelectionRotation,
    SelectionTransform,
    TileSource,
    Tool,
    MAX_FILL_TILES,
};

#[test]
fn hollow_block_fill_mode_uses_the_configured_distance_from_each_edge() {
    let selection = Selection::from_drag(Coord::new(1, 1, 1), Coord::new(6, 5, 1));
    let included = |line_width| {
        selection
            .tiles()
            .into_iter()
            .filter(|coord| BlockSelectionMode::Hollow { line_width }.includes(selection, *coord))
            .collect::<HashSet<_>>()
    };

    let one_tile = included(1);
    assert_eq!(one_tile.len(), 18);
    assert!(one_tile.contains(&Coord::new(1, 1, 1)));
    assert!(one_tile.contains(&Coord::new(6, 5, 1)));
    assert!(!one_tile.contains(&Coord::new(2, 2, 1)));

    let two_tiles = included(2);
    assert_eq!(two_tiles.len(), 28);
    assert!(!two_tiles.contains(&Coord::new(3, 3, 1)));
    assert!(!two_tiles.contains(&Coord::new(4, 3, 1)));

    assert_eq!(included(3).len(), 30);
    assert_eq!(included(0), one_tile);

    let one_row = Selection::from_drag(Coord::new(2, 3, 1), Coord::new(5, 3, 1));
    assert!(
        one_row
            .tiles()
            .into_iter()
            .all(|coord| BlockSelectionMode::Hollow { line_width: 1 }.includes(one_row, coord))
    );
}

#[test]
fn hollow_block_mode_saturates_instead_of_overflowing_on_thin_or_wide_lines() {
    let single = Selection::from_drag(Coord::new(4, 4, 1), Coord::new(4, 4, 1));
    assert!(BlockSelectionMode::Hollow { line_width: 1 }.includes(single, Coord::new(4, 4, 1)));
    assert!(BlockSelectionMode::Hollow { line_width: u32::MAX }.includes(single, Coord::new(4, 4, 1)));

    let block = Selection::from_drag(Coord::new(1, 1, 1), Coord::new(4, 4, 1));
    for line_width in [2, 3, u32::MAX] {
        assert!(
            block
                .tiles()
                .into_iter()
                .all(|coord| BlockSelectionMode::Hollow { line_width }.includes(block, coord)),
            "a {line_width}-tile line should leave no hole in a 4x4 block"
        );
    }

    for mode in [BlockSelectionMode::Full, BlockSelectionMode::Hollow { line_width: 1 }] {
        assert!(!mode.includes(block, Coord::new(5, 1, 1)));
        assert!(!mode.includes(block, Coord::new(1, 5, 1)));
        assert!(!mode.includes(block, Coord::new(1, 1, 2)));
    }
}

#[test]
fn block_transforms_use_the_lower_left_anchor_and_planar_directions() {
    let selection = Selection::from_drag(Coord::new(4, 7, 2), Coord::new(5, 9, 2));
    assert_eq!(
        transformed_selection(selection, SelectionTransform::RotateCounterClockwise),
        Some(Selection::from_drag(Coord::new(4, 7, 2), Coord::new(6, 8, 2)))
    );
    assert_eq!(transform_point((0, 0), 2, 3, SelectionTransform::RotateClockwise), (0, 1));
    assert_eq!(transform_point((0, 2), 2, 3, SelectionTransform::RotateCounterClockwise), (0, 0));
    assert_eq!(transform_point((0, 1), 2, 3, SelectionTransform::MirrorHorizontal), (1, 1));
    assert_eq!(transform_point((0, 0), 2, 3, SelectionTransform::MirrorVertical), (0, 2));
    assert_eq!(transform_direction(Dir::Northwest, SelectionTransform::RotateClockwise), Dir::Northeast);
    assert_eq!(transform_direction(Dir::Southeast, SelectionTransform::MirrorHorizontal), Dir::Southwest);
    assert_eq!(transform_direction(Dir::Northeast, SelectionTransform::MirrorVertical), Dir::Southeast);
}

#[test]
fn four_quarter_turns_come_back_to_the_start() {
    let mut rotation = SelectionRotation::Original;
    let mut seen = Vec::new();
    for _ in 0..4 {
        seen.push(rotation);
        rotation = rotation.clockwise();
    }
    assert_eq!(rotation, SelectionRotation::Original);
    assert_eq!(
        seen,
        [
            SelectionRotation::Original,
            SelectionRotation::Clockwise,
            SelectionRotation::Half,
            SelectionRotation::CounterClockwise
        ]
    );
    assert_eq!(SelectionRotation::Half.transforms().len(), 2);
    assert!(SelectionRotation::Original.transforms().is_empty());
}

#[test]
fn a_transform_and_its_inverse_put_every_point_back() {
    let inverse = |t| match t {
        SelectionTransform::RotateClockwise => SelectionTransform::RotateCounterClockwise,
        SelectionTransform::RotateCounterClockwise => SelectionTransform::RotateClockwise,
        other => other,
    };
    let (w, h) = (3u32, 5u32);
    for t in [
        SelectionTransform::RotateClockwise,
        SelectionTransform::RotateCounterClockwise,
        SelectionTransform::MirrorHorizontal,
        SelectionTransform::MirrorVertical,
    ] {
        let (w2, h2) = match t {
            SelectionTransform::RotateClockwise | SelectionTransform::RotateCounterClockwise => (h, w),
            _ => (w, h),
        };
        for x in 0..w {
            for y in 0..h {
                let moved = transform_point((x, y), w, h, t);
                assert_eq!(transform_point(moved, w2, h2, inverse(t)), (x, y));
            }
        }
        let v = transform_vector([3, -7], t);
        assert_eq!(transform_vector(v, inverse(t)), [3, -7]);
    }
    assert_eq!(transform_vector([i32::MIN, 0], SelectionTransform::MirrorHorizontal), [i32::MAX, 0]);
}

#[test]
fn rotated_blocks_keep_their_anchor_and_swap_their_sides() {
    let selection = Selection::from_drag(Coord::new(1, 1, 1), Coord::new(3, 2, 1));
    assert_eq!(
        rotated_selection_at(selection, Coord::new(10, 10, 1), SelectionRotation::Clockwise),
        Some(Selection::from_drag(Coord::new(10, 10, 1), Coord::new(11, 12, 1)))
    );
    assert_eq!(
        rotated_selection_at(selection, Coord::new(10, 10, 1), SelectionRotation::Half),
        Some(Selection::from_drag(Coord::new(10, 10, 1), Coord::new(12, 11, 1)))
    );
    assert_eq!(rotate_point((0, 0), 3, 2, SelectionRotation::Half), (2, 1));
    assert_eq!(rotate_point((2, 1), 3, 2, SelectionRotation::Original), (2, 1));
}

#[test]
fn directions_are_read_from_the_end_of_a_type_path() {
    assert_eq!(direction_from_name("north"), Some(Dir::North));
    assert_eq!(direction_from_name("southwest"), Some(Dir::Southwest));
    assert_eq!(direction_from_name("up"), None);
    for dir in [Dir::North, Dir::East, Dir::Southwest] {
        let mut turned = dir;
        for _ in 0..4 {
            turned = transform_direction(turned, SelectionTransform::RotateClockwise);
        }
        assert_eq!(turned, dir);
    }
}

#[test]
fn labels_name_the_tools_and_fill_modes() {
    assert_eq!(Tool::default(), Tool::Select);
    assert_eq!(Tool::BlockSelect.label(), "Block Select");
    assert_eq!(FillMode::default(), FillMode::Wall);
    assert_eq!(FillMode::EntireArea.label(), "Entire Area");
}

#[test]
fn a_mask_edits_only_its_mode_of_tiles() {
    let mask = SelectionMask {
        bounds: Selection::from_drag(Coord::new(1, 1, 1), Coord::new(3, 3, 1)),
        mode: BlockSelectionMode::Hollow { line_width: 1 },
    };
    assert!(mask.includes(Coord::new(1, 2, 1)));
    assert!(!mask.includes(Coord::new(2, 2, 1)));
    let tiles = mask.mode.tiles(mask.bounds);
    assert_eq!(tiles.len(), 8);
    assert_eq!(tiles[0], Coord::new(1, 1, 1));
}

fn request(placement: SelectionPlacement, transforms: Vec<SelectionTransform>) -> SelectionEditRequest {
    let source = Selection::from_drag(Coord::new(1, 1, 1), Coord::new(2, 3, 1));
    let swapped = transforms.len() % 2 == 1;
    let target = if swapped {
        Selection::from_drag(Coord::new(2, 2, 1), Coord::new(4, 3, 1))
    } else {
        Selection::from_drag(Coord::new(2, 2, 1), Coord::new(3, 4, 1))
    };
    SelectionEditRequest { source, target, transforms, placement, mode: BlockSelectionMode::Full }
}

#[test]
fn overlapping_moves_take_every_destination_from_its_source_and_clear_the_rest() {
    let move_request = request(SelectionPlacement::Move, vec![]);
    let plan = move_request.plan();
    let staged = plan.iter().copied().collect::<Vec<_>>();
    let written = staged.iter().filter(|(_, s)| matches!(s, TileSource::Moved(_))).count();
    let cleared = staged.iter().filter(|(_, s)| matches!(s, TileSource::Cleared)).count();
    assert_eq!(written, 6);
    // source (1..2, 1..3) minus target (2..3, 2..4) leaves 4 tiles to clear
    assert_eq!(cleared, 4);
    assert!(staged.contains(&(Coord::new(2, 2, 1), TileSource::Moved(Coord::new(1, 1, 1)))));
    assert!(staged.contains(&(Coord::new(1, 1, 1), TileSource::Cleared)));
    let keys = staged.iter().map(|(c, _)| (c.y, c.x)).collect::<Vec<_>>();
    let mut sorted = keys.clone();
    sorted.sort();
    assert_eq!(keys, sorted, "the plan is in row-major order");

    let copy_plan = request(SelectionPlacement::Copy, vec![]).plan();
    assert_eq!(copy_plan.len(), 6);
    assert_eq!(move_request.destination_of(Coord::new(2, 3, 1)), Coord::new(3, 4, 1));
    assert_eq!(move_request.source_of(Coord::new(3, 4, 1)), Coord::new(2, 3, 1));
}

#[test]
fn rotated_moves_send_each_tile_back_where_it_came_from() {
    let rotated = request(SelectionPlacement::Move, vec![SelectionTransform::RotateClockwise]);
    for coord in rotated.source.tiles() {
        let destination = rotated.destination_of(coord);
        assert!(rotated.target.contains(destination));
        assert_eq!(rotated.source_of(destination), coord);
    }
    assert_eq!(rotated.source_tiles().len(), 6);
    assert_eq!(rotated.touched_tiles().iter().collect::<HashSet<_>>().len(), 10);
}

fn grid(open: &[&str]) -> FillGrid {
    let height = open.len() as u32;
    let width = open[0].len() as u32;
    let mut cells = Vec::new();
    for row in open.iter().rev() {
        for ch in row.chars() {
            cells.push(ch == '.');
        }
    }
    FillGrid { size: Size { x: width, y: height, z: 1 }, level: 1, open: cells }
}

#[test]
fn a_fill_spreads_through_open_neighbours_only() {
    let walls = grid(&["..#..", "..#..", "..#.."]);
    let region = flood_region(&walls, Coord::new(1, 1, 1));
    assert_eq!(region[0], Coord::new(1, 1, 1));
    assert_eq!(region.len(), 6);
    assert!(region.iter().all(|c| c.x <= 2));
    assert_eq!(region.iter().collect::<HashSet<_>>().len(), 6);

    let blocked = flood_region(&walls, Coord::new(3, 2, 1));
    assert!(blocked.is_empty());

    let diagonal = grid(&[".#", "#."]);
    assert_eq!(flood_region(&diagonal, Coord::new(2, 1, 1)).len(), 1);
    assert!(flood_region(&diagonal, Coord::new(1, 1, 1)).is_empty());
}

#[test]
fn neighbours_stay_on_the_map() {
    let size = Size { x: 3, y: 3, z: 1 };
    assert_eq!(cardinal_neighbors(Coord::new(1, 1, 1), size).len(), 2);
    assert_eq!(cardinal_neighbors(Coord::new(2, 2, 1), size).len(), 4);
    assert!(coord_in_bounds(Coord::new(3, 3, 1), size));
    assert!(!coord_in_bounds(Coord::new(4, 3, 1), size));
    assert!(!coord_in_bounds(Coord::new(0, 3, 1), size));
}

#[test]
fn an_oversized_fill_is_refused_at_the_limit() {
    assert_eq!(check_fill_limit(MAX_FILL_TILES, Some(MAX_FILL_TILES)), Ok(()));
    assert_eq!(
        check_fill_limit(MAX_FILL_TILES + 1, Some(MAX_FILL_TILES)),
        Err(FillError::TooLarge { limit: MAX_FILL_TILES })
    );
    assert_eq!(check_fill_limit(usize::MAX, None), Ok(()));
}

fn placed(id: u64, prefab: &'static str) -> PlacedPrefab<&'static str> {
    PlacedPrefab { id, prefab }
}

#[test]
fn objects_append_before_turf_and_area() {
    let kinds = vec![Some(PlacementKind::Atom), Some(PlacementKind::Turf), Some(PlacementKind::Area)];
    assert_eq!(insertion_index(&kinds, PlacementKind::Atom), 1);
    assert_eq!(insertion_index(&kinds, PlacementKind::Turf), 2);
    assert_eq!(insertion_index(&kinds, PlacementKind::Area), 3);
    let mut stack = vec![placed(1, "/obj/a"), placed(2, "/turf/t"), placed(3, "/area/a")];
    insert_placed(&mut stack, &kinds, PlacementKind::Atom, placed(4, "/obj/b"));
    assert_eq!(stack.iter().map(|p| p.id).collect::<Vec<_>>(), [1, 4, 2, 3]);
    assert!(placement_rank(PlacementKind::Atom) < placement_rank(PlacementKind::Turf));
    assert!(placement_rank(PlacementKind::Turf) < placement_rank(PlacementKind::Area));
}

#[test]
fn turf_and_area_replace_their_category_and_keep_the_first_id() {
    let kinds = vec![Some(PlacementKind::Turf), None, Some(PlacementKind::Turf), Some(PlacementKind::Area)];
    let mut stack = vec![placed(1, "/turf/a"), placed(2, "/datum"), placed(3, "/turf/b"), placed(4, "/area/x")];
    let affected = replace_kind(&mut stack, &kinds, PlacementKind::Turf, "/turf/new");
    assert_eq!(affected, Some(vec![1, 3]));
    assert_eq!(stack, vec![placed(1, "/turf/new"), placed(2, "/datum"), placed(4, "/area/x")]);
    assert!(!needs_new_instance(&kinds, PlacementKind::Turf));
    assert!(needs_new_instance(&kinds, PlacementKind::Atom));

    let mut untouched = vec![placed(9, "/obj/x")];
    assert_eq!(
        replace_kind(&mut untouched, &vec![Some(PlacementKind::Atom)], PlacementKind::Area, "/area/y"),
        None
    );
    assert_eq!(untouched, vec![placed(9, "/obj/x")]);
    assert!(needs_new_instance(&vec![Some(PlacementKind::Atom)], PlacementKind::Area));
}

fn names(list: &[&str]) -> Vec<String> {
    list.iter().map(|name| String::from(*name)).collect()
}

#[test]
fn directional_variants_are_found_from_the_group_a_variant_or_its_owner() {
    assert_eq!(
        directional_group(Some("directional"), Some("chair"), &names(&["north", "south"])),
        Some(DirectionalGroup::Itself)
    );
    assert_eq!(
        directional_group(Some("east"), Some("directional"), &vec![]),
        Some(DirectionalGroup::Parent(Dir::East))
    );
    assert_eq!(directional_group(Some("east"), Some("chair"), &vec![]), None);
    assert_eq!(
        directional_group(Some("chair"), Some("obj"), &names(&["wood", "directional", "directional"])),
        Some(DirectionalGroup::Child(1))
    );
    assert_eq!(directional_group(None, None, &names(&["directional"])), None);

    let variants = names(&["north", "up", "west", "west"]);
    assert_eq!(directional_child(&variants, Dir::West), Some(2));
    assert_eq!(directional_child(&variants, Dir::South), None);
}

#[test]
fn a_number_the_type_already_gives_is_dropped() {
    assert_eq!(resolved_number_update(Some(4), 4), NumberUpdate::Remove);
    assert_eq!(resolved_number_update(Some(4), 8), NumberUpdate::Assign(8));
    assert_eq!(resolved_number_update(None, 0), NumberUpdate::Assign(0));
}

#[test]
fn the_fill_limit_counts_only_tiles_that_would_change() {
    let region = (1..=4).map(|x| Coord::new(x, 1, 1)).collect::<Vec<_>>();
    let walls = vec![false, true, false, false];
    let replaces = vec![true, true, false, true];

    assert_eq!(
        fill_targets(&region, &walls, &replaces, false, Some(3)),
        Ok(vec![region[0], region[1], region[3]])
    );
    assert_eq!(
        fill_targets(&region, &walls, &replaces, true, Some(2)),
        Ok(vec![region[0], region[3]])
    );
    assert_eq!(
        fill_targets(&region, &walls, &replaces, false, Some(2)),
        Err(FillError::TooLarge { limit: 2 })
    );
    assert_eq!(fill_targets(&region, &walls, &replaces, false, None).unwrap().len(), 3);
    assert!(preserves_walls(PlacementKind::Turf, FillMode::EntireArea, true));
    assert!(!preserves_walls(PlacementKind::Turf, FillMode::Wall, true));
    assert!(!preserves_walls(PlacementKind::Area, FillMode::EntireArea, true));
}

#[test]
fn only_atoms_are_placed_and_turfs_and_areas_are_their_own_kinds() {
    assert_eq!(placement_kind(false, false, false), None);
    assert_eq!(placement_kind(false, true, false), None);
    assert_eq!(placement_kind(true, false, false), Some(PlacementKind::Atom));
    assert_eq!(placement_kind(true, true, false), Some(PlacementKind::Turf));
    assert_eq!(placement_kind(true, false, true), Some(PlacementKind::Area));
}

#[test]
fn a_fill_skips_tiles_whose_only_prefab_of_the_kind_is_already_the_new_one() {
    let kinds = vec![Some(PlacementKind::Atom), Some(PlacementKind::Turf), Some(PlacementKind::Area)];
    assert!(!would_replace_kind(&kinds, &vec![false, true, false], PlacementKind::Turf));
    assert!(would_replace_kind(&kinds, &vec![false, false, false], PlacementKind::Turf));
    let doubled = vec![Some(PlacementKind::Turf), Some(PlacementKind::Turf), Some(PlacementKind::Area)];
    assert!(would_replace_kind(&doubled, &vec![true, true, false], PlacementKind::Turf));
    let bare = vec![Some(PlacementKind::Atom), Some(PlacementKind::Area)];
    assert!(would_replace_kind(&bare, &vec![false, false], PlacementKind::Turf));

    let mut stack = vec![
        PlacedPrefab { id: 1, prefab: "/obj/table" },
        PlacedPrefab { id: 2, prefab: "/turf/floor" },
        PlacedPrefab { id: 3, prefab: "/area/station" },
    ];
    let before = stack.clone();
    let affected = replace_kind(&mut stack, &kinds, PlacementKind::Turf, "/turf/floor");
    assert_eq!(affected, Some(vec![2]));
    assert_eq!(stack, before);
}

#[test]
fn a_block_dropped_where_it_is_without_turning_makes_no_edit() {
    let selection = Selection::from_drag(Coord::new(1, 1, 1), Coord::new(3, 2, 1));
    let full = BlockSelectionMode::Full;
    assert!(placement_request(selection, selection.min, SelectionRotation::Original, SelectionPlacement::Move, full)
        .is_none());

    let moved = placement_request(
        selection,
        Coord::new(5, 5, 1),
        SelectionRotation::Original,
        SelectionPlacement::Copy,
        full,
    )
    .unwrap();
    assert_eq!(moved.source, selection);
    assert_eq!(moved.target, Selection::from_drag(Coord::new(5, 5, 1), Coord::new(7, 6, 1)));
    assert!(moved.transforms.is_empty());
    assert_eq!(moved.placement, SelectionPlacement::Copy);

    let turned = placement_request(
        selection,
        selection.min,
        SelectionRotation::Clockwise,
        SelectionPlacement::Move,
        full,
    )
    .unwrap();
    assert_eq!(turned.target, Selection::from_drag(Coord::new(1, 1, 1), Coord::new(2, 3, 1)));
    assert_eq!(turned.transforms, vec![SelectionTransform::RotateClockwise]);

    let off_range = placement_request(
        selection,
        Coord::new(u32::MAX, 1, 1),
        SelectionRotation::Original,
        SelectionPlacement::Move,
        full,
    );
    assert!(off_range.is_none());
}

#[test]
fn a_block_transform_keeps_the_lower_left_corner_and_names_the_edit() {
    let selection = Selection::from_drag(Coord::new(2, 3, 1), Coord::new(5, 4, 1));
    let mirrored = transform_request(selection, SelectionTransform::MirrorHorizontal, BlockSelectionMode::Full).unwrap();
    assert_eq!(mirrored.target, selection);
    assert_eq!(mirrored.transforms, vec![SelectionTransform::MirrorHorizontal]);
    assert_eq!(mirrored.placement, SelectionPlacement::Move);
    let rotated = transform_request(selection, SelectionTransform::RotateCounterClockwise, BlockSelectionMode::Full).unwrap();
    assert_eq!(rotated.target, Selection::from_drag(Coord::new(2, 3, 1), Coord::new(3, 6, 1)));
    let inverted = Selection { min: Coord::new(5, 4, 1), max: Coord::new(2, 3, 1) };
    assert!(transform_request(inverted, SelectionTransform::RotateClockwise, BlockSelectionMode::Full).is_none());

    assert_eq!(SelectionPlacement::Move.label(), "move block");
    assert_eq!(SelectionPlacement::Copy.label(), "copy block");
    assert_eq!(SelectionTransform::RotateClockwise.label(), "rotate block clockwise");
    assert_eq!(SelectionTransform::RotateCounterClockwise.label(), "rotate block counterclockwise");
    assert_eq!(SelectionTransform::MirrorHorizontal.label(), "mirror block horizontally");
    assert_eq!(SelectionTransform::MirrorVertical.label(), "mirror block vertically");
}

fn stack_of(entries: &[(u64, &'static str)]) -> Vec<PlacedPrefab<&'static str>> {
    entries.iter().map(|(id, prefab)| PlacedPrefab { id: *id, prefab: *prefab }).collect()
}

#[test]
fn placing_stacks_objects_below_the_turf_and_replaces_turfs_in_place() {
    let object = Some(PlacementKind::Atom);
    let turf = Some(PlacementKind::Turf);
    let area = Some(PlacementKind::Area);

    let mut tile = stack_of(&[(1, "/turf/floor"), (2, "/area/station")]);
    let placed = place_on_tile(&mut tile, &vec![turf, area], &vec![false, false], PlacementKind::Atom, "/obj/table", 9);
    assert_eq!(placed, Some((9, vec![9])));
    assert_eq!(tile, stack_of(&[(9, "/obj/table"), (1, "/turf/floor"), (2, "/area/station")]));

    let mut tile = stack_of(&[(1, "/obj/table"), (2, "/turf/floor"), (3, "/turf/grass"), (4, "/area/station")]);
    let kinds = vec![object, turf, turf, area];
    let placed = place_on_tile(&mut tile, &kinds, &vec![false, false, false, false], PlacementKind::Turf, "/turf/wall", 9);
    assert_eq!(placed, Some((2, vec![2, 3])));
    assert_eq!(tile, stack_of(&[(1, "/obj/table"), (2, "/turf/wall"), (4, "/area/station")]));

    let mut tile = stack_of(&[(2, "/turf/floor"), (4, "/area/station")]);
    let placed = place_on_tile(&mut tile, &vec![turf, area], &vec![true, false], PlacementKind::Turf, "/turf/floor", 9);
    assert_eq!(placed, None);
    assert_eq!(tile, stack_of(&[(2, "/turf/floor"), (4, "/area/station")]));

    let mut tile = stack_of(&[(1, "/obj/table"), (2, "/turf/floor")]);
    let placed = place_on_tile(&mut tile, &vec![object, turf], &vec![false, false], PlacementKind::Area, "/area/space", 9);
    assert_eq!(placed, Some((9, vec![9])));
    assert_eq!(tile, stack_of(&[(1, "/obj/table"), (2, "/turf/floor"), (9, "/area/space")]));
}

#[test]
fn a_clockwise_turn_turns_the_facing_and_every_offset_of_an_atom() {
    let offsets = AtomOffsets { pixel: [2, 3], pixel_wz: [4, 5], step: [6, 7] };
    let turned = turned_appearance(SelectionTransform::RotateClockwise, None, Some(Dir::North.to_bits()), offsets);
    assert_eq!(turned.direction, Some(Dir::East));
    assert_eq!(turned.direction.map(Dir::to_bits), Some(4));
    assert_eq!(turned.offsets, AtomOffsets { pixel: [3, -2], pixel_wz: [5, -4], step: [7, -6] });

    let odd = turned_appearance(SelectionTransform::RotateClockwise, None, Some(3), offsets);
    assert_eq!(odd.direction, None);
    let text = turned_appearance(SelectionTransform::RotateClockwise, None, None, offsets);
    assert_eq!(text.direction, None);

    let by_path = turned_appearance(SelectionTransform::MirrorHorizontal, Some(Dir::East), Some(1), offsets);
    assert_eq!(by_path.direction, Some(Dir::West));
}

#[test]
fn dir_numbers_name_the_eight_directions() {
    for (direction, bits) in [
        (Dir::North, 1),
        (Dir::South, 2),
        (Dir::East, 4),
        (Dir::West, 8),
        (Dir::Northeast, 5),
        (Dir::Northwest, 9),
        (Dir::Southeast, 6),
        (Dir::Southwest, 10),
    ] {
        assert_eq!(direction.to_bits(), bits);
        assert_eq!(Dir::from_bits(bits), Some(direction));
    }
    assert_eq!(Dir::from_bits(0), None);
    assert_eq!(Dir::from_bits(3), None);
    assert_eq!(Dir::from_bits(16), None);
}

#[test]
fn block_rotation_swaps_dimensions_positions_and_atom_appearance() {
    let source = Selection::from_drag(Coord::new(1, 1, 1), Coord::new(2, 3, 1));
    let request = transform_request(source, SelectionTransform::RotateClockwise, BlockSelectionMode::Full).unwrap();
    let rotated = request.target;
    assert_eq!(rotated, Selection::from_drag(Coord::new(1, 1, 1), Coord::new(3, 2, 1)));

    for coord in source.tiles() {
        let relative = (coord.x - source.min.x, coord.y - source.min.y);
        let (x, y) = transform_point(relative, source.width(), source.height(), SelectionTransform::RotateClockwise);
        assert_eq!(request.destination_of(coord), Coord::new(rotated.min.x + x, rotated.min.y + y, 1));
    }
    assert_eq!(request.destination_of(Coord::new(1, 1, 1)), Coord::new(1, 2, 1), "the table lands on (1, 2)");

    let offsets = AtomOffsets { pixel: [2, 3], pixel_wz: [4, 5], step: [6, 7] };
    let table = turned_appearance(SelectionTransform::RotateClockwise, None, Some(Dir::North.to_bits()), offsets);
    assert_eq!(table.direction.map(Dir::to_bits), Some(Dir::East.to_bits()));
    assert_eq!(table.offsets, AtomOffsets { pixel: [3, -2], pixel_wz: [5, -4], step: [7, -6] });

    let invalid_numeric = turned_appearance(SelectionTransform::RotateClockwise, None, Some(3), offsets);
    assert_eq!(invalid_numeric.direction, None, "a dir of 3 names no direction and stays as it is");
    let invalid_text = turned_appearance(SelectionTransform::RotateClockwise, None, None, offsets);
    assert_eq!(invalid_text.direction, None, "a text dir stays as it is");
}

#[test]
fn objects_append_before_turf_and_area_with_exact_overrides() {
    let kinds = vec![Some(PlacementKind::Atom), Some(PlacementKind::Turf), Some(PlacementKind::Area)];
    let mut tile = vec![
        PlacedPrefab { id: 1, prefab: ("/obj/table", None) },
        PlacedPrefab { id: 2, prefab: ("/turf/floor", None) },
        PlacedPrefab { id: 3, prefab: ("/area/station", None) },
    ];
    let chair = ("/obj/chair", Some("custom"));
    let kind = placement_kind(true, false, false).unwrap();
    let (selected, affected) = place_on_tile(&mut tile, &kinds, &vec![false, false, false], kind, chair, 4).unwrap();

    let paths = tile.iter().map(|placed| placed.prefab.0).collect::<Vec<_>>();
    assert_eq!(paths, ["/obj/table", "/obj/chair", "/turf/floor", "/area/station"]);
    assert_eq!(affected, vec![4]);
    let chosen = tile.iter().find(|placed| placed.id == selected).unwrap();
    assert_eq!(chosen.prefab.1, Some("custom"));
}

#[test]
fn identical_category_replacement_is_a_noop_and_datums_are_rejected() {
    let kinds = vec![Some(PlacementKind::Turf), Some(PlacementKind::Area)];
    let mut tile = vec![PlacedPrefab { id: 1, prefab: "/turf/floor" }, PlacedPrefab { id: 2, prefab: "/area/station" }];
    let floor = placement_kind(true, true, false).unwrap();
    assert_eq!(place_on_tile(&mut tile, &kinds, &vec![true, false], floor, "/turf/floor", 3), None);
    assert_eq!(tile, vec![PlacedPrefab { id: 1, prefab: "/turf/floor" }, PlacedPrefab { id: 2, prefab: "/area/station" }]);
    assert_eq!(placement_kind(false, false, false), None, "a datum is not placed");
}

#[test]
fn fill_limit_counts_only_tiles_that_would_change() {
    // A row of space, wall, blue floor and space, all in one area, filled with blue floor
    // across the entire area from the first tile.
    let turfs = ["/turf/open/space", "/turf/closed/wall", "/turf/open/floor/blue", "/turf/open/space"];
    let same_area = grid(&["...."]);
    let region = flood_region(&same_area, Coord::new(1, 1, 1));
    assert_eq!(region.len(), 4);

    let walls = region.iter().map(|coord| turfs[coord.x as usize - 1].starts_with("/turf/closed")).collect::<Vec<_>>();
    let replaces = region
        .iter()
        .map(|coord| {
            let same = vec![turfs[coord.x as usize - 1] == "/turf/open/floor/blue", false];
            would_replace_kind(&vec![Some(PlacementKind::Turf), Some(PlacementKind::Area)], &same, PlacementKind::Turf)
        })
        .collect::<Vec<_>>();
    let keep_walls = preserves_walls(PlacementKind::Turf, FillMode::EntireArea, true);

    assert_eq!(fill_targets(&region, &walls, &replaces, keep_walls, Some(1)), Err(FillError::TooLarge { limit: 1 }));
    assert_eq!(fill_targets(&region, &walls, &replaces, keep_walls, Some(2)).unwrap().len(), 2);
}

#[test]
fn scoped_fill_limit_counts_only_selected_changes_and_never_partially_applies() {
    // An 80 by 80 floor, a wall fill with blue floor inside the mask from (2, 2) to (6, 6): the
    // fill may only spread inside the mask, no tile is a wall, and every tile would change.
    let mask = SelectionMask {
        bounds: Selection::from_drag(Coord::new(2, 2, 1), Coord::new(6, 6, 1)),
        mode: BlockSelectionMode::Full,
    };
    let size = Size { x: 80, y: 80, z: 1 };
    let mut open = Vec::new();
    for y in 1..=80 {
        for x in 1..=80 {
            open.push(mask.includes(Coord::new(x, y, 1)));
        }
    }
    let grid = FillGrid { size, level: 1, open };
    let walls = vec![false; 6400];
    let replaces = vec![true; 6400];

    assert_eq!(
        fill_plan(&grid, mask.bounds.min, &walls, &replaces, false, Some(24)),
        Err(FillError::TooLarge { limit: 24 })
    );
    let changes = fill_plan(&grid, mask.bounds.min, &walls, &replaces, false, Some(MAX_FILL_TILES)).unwrap();
    assert_eq!(changes.len(), 25);
    assert!(changes.iter().all(|coord| mask.includes(*coord)));
    let unlimited = fill_plan(&grid, mask.bounds.min, &walls, &replaces, false, None).unwrap();
    assert_eq!(unlimited.iter().collect::<HashSet<_>>(), changes.iter().collect::<HashSet<_>>());
}

#[test]
fn a_block_edit_changes_only_the_tiles_that_differ_and_lists_each_touched_instance_once() {
    let tile = |x: u32, before: Vec<(u64, u64)>, after: Vec<(u64, u64)>| StagedTile {
        coord: Coord::new(x, 1, 1),
        before,
        after,
    };
    let tiles = vec![
        tile(1, vec![(7, 10), (8, 20)], vec![(7, 10), (8, 20)]),
        tile(2, vec![(2, 10), (1, 20)], vec![(3, 11), (1, 20)]),
        tile(3, vec![(5, 30)], vec![(4, 31), (2, 10)]),
    ];
    let (changes, affected) = block_edit_changes(&tiles);
    assert_eq!(changes, vec![Coord::new(2, 1, 1), Coord::new(3, 1, 1)]);
    assert_eq!(affected, vec![1, 2, 3, 4, 5]);

    let (none, nobody) = block_edit_changes(&vec![tiles[0].clone()]);
    assert!(none.is_empty());
    assert!(nobody.is_empty());
}

#[test]
fn a_block_move_edits_only_the_written_tiles_that_change_in_row_major_order() {
    let move_request = request(SelectionPlacement::Move, vec![]);
    let plan = move_request.plan();
    // every written tile keeps its stack except the two lowest rows of the target
    let tiles = plan
        .iter()
        .enumerate()
        .map(|(k, (coord, _))| {
            let before = vec![(k as u64 + 10, 1)];
            let after = if coord.y == 2 { vec![(k as u64 + 10, 2), (3, 7)] } else { before.clone() };
            StagedTile { coord: *coord, before, after }
        })
        .collect::<Vec<_>>();
    let (coords, ids, selected) = move_request.selection_edit(&tiles).unwrap();
    assert_eq!(selected, move_request.target);
    let expected = tiles.iter().filter(|t| t.before != t.after).map(|t| t.coord).collect::<Vec<_>>();
    assert_eq!(coords, expected);
    assert!(coords.iter().all(|c| c.y == 2));
    assert!(coords.windows(2).all(|w| (w[0].z, w[0].y, w[0].x) < (w[1].z, w[1].y, w[1].x)));
    let mut wanted = tiles.iter().filter(|t| t.before != t.after).map(|t| t.before[0].0).collect::<Vec<_>>();
    wanted.push(3);
    wanted.sort_unstable();
    assert_eq!(ids, wanted);

    let unchanged = plan
        .iter()
        .map(|(coord, _)| StagedTile { coord: *coord, before: vec![(1, 1)], after: vec![(1, 1)] })
        .collect::<Vec<_>>();
    assert_eq!(move_request.selection_edit(&unchanged), None);
}

#[test]
fn points_only_need_to_fit_the_edge_a_transform_counts_back_from() {
    assert_eq!(rotate_point((5, 9), 3, 2, SelectionRotation::Original), (5, 9));
    assert_eq!(transform_point((1, 7), 2, 3, SelectionTransform::RotateClockwise), (7, 0));
    assert_eq!(transform_point((6, 1), 2, 3, SelectionTransform::RotateCounterClockwise), (1, 6));
    assert_eq!(rotate_point((1, 7), 2, 3, SelectionRotation::Clockwise), (7, 0));
    assert_eq!(rotate_point((6, 1), 2, 3, SelectionRotation::CounterClockwise), (1, 6));
}

fn open_tile() -> FillTile {
    FillTile { editable: true, boundary: false, area: Some(1), wall: false, replaces: true }
}

#[test]
fn a_masked_wall_fill_counts_only_the_tiles_inside_the_mask_against_its_limit() {
    let size = Size { x: 7, y: 7, z: 1 };
    let tiles = vec![open_tile(); 49];
    let mask = SelectionMask {
        bounds: Selection::from_drag(Coord::new(2, 2, 1), Coord::new(6, 6, 1)),
        mode: BlockSelectionMode::Full,
    };
    let seed = Coord::new(4, 4, 1);
    let (_, refused) = fill_region(size, seed, FillMode::Wall, &tiles, Some(mask), true, false, Some(24));
    assert_eq!(refused, Err(FillError::TooLarge { limit: 24 }));
    let (grid, filled) = fill_region(size, seed, FillMode::Wall, &tiles, Some(mask), true, false, Some(MAX_FILL_TILES));
    let filled = filled.unwrap();
    assert_eq!(filled.len(), 25);
    assert!(filled.iter().all(|c| (2..=6).contains(&c.x) && (2..=6).contains(&c.y)));
    assert_eq!(grid.open.iter().filter(|open| **open).count(), 25);
}

#[test]
fn each_fill_mode_decides_which_tiles_the_fill_spreads_to() {
    let size = Size { x: 5, y: 1, z: 1 };
    let mut tiles = vec![open_tile(); 5];
    // a wall on x = 3, another area from x = 4 on, and x = 1 already holds the prefab
    tiles[2] = FillTile { boundary: true, wall: true, ..open_tile() };
    tiles[3].area = Some(2);
    tiles[4].area = Some(2);
    tiles[0].replaces = false;
    let seed = Coord::new(2, 1, 1);
    let sorted = |mut coords: Vec<Coord>| {
        coords.sort_by_key(|c| c.x);
        coords.iter().map(|c| c.x).collect::<Vec<_>>()
    };

    let (_, wall) = fill_region(size, seed, FillMode::Wall, &tiles, None, true, false, None);
    assert_eq!(sorted(wall.unwrap()), vec![2]);
    let (_, unknown) = fill_region(size, seed, FillMode::Custom, &tiles, None, false, false, None);
    assert!(unknown.unwrap().is_empty());
    let (_, area) = fill_region(size, seed, FillMode::EntireArea, &tiles, None, true, false, None);
    assert_eq!(sorted(area.unwrap()), vec![2, 3]);
    let (_, kept) = fill_region(size, seed, FillMode::EntireArea, &tiles, None, true, true, None);
    assert_eq!(sorted(kept.unwrap()), vec![2]);
    let (_, outside) = fill_region(size, Coord::new(9, 1, 1), FillMode::Wall, &tiles, None, true, false, None);
    assert!(outside.unwrap().is_empty());
    tiles[1].editable = false;
    let (_, locked) = fill_region(size, seed, FillMode::Wall, &tiles, None, true, false, None);
    assert!(locked.unwrap().is_empty());
}
