use rmd_editor::geometry::{Coord, Selection};
use rmd_editor::tool::{SelectionRotation, Tool};
use rmd_editor::ui::block::PendingBlockPlacement;
use rmd_editor::ui::viewport::{escape_exits, placement_after_drag, ViewportStrokes};
use rmd_editor::ui::PlacementStroke;

#[test]
fn a_click_or_a_changed_context_ends_the_place_stroke() {
    let mut strokes = ViewportStrokes::default();
    strokes.placement = Some(PlacementStroke::new(7, 1, 40));
    strokes.settle(false, true, false, Tool::Place, Some(7), 1);
    assert!(strokes.placement.is_some());
    strokes.settle(false, true, false, Tool::Place, Some(8), 1);
    assert!(strokes.placement.is_none());

    strokes.placement = Some(PlacementStroke::new(7, 1, 41));
    strokes.settle(false, true, true, Tool::Place, Some(7), 1);
    assert!(strokes.placement.is_none(), "the gizmo took the mouse");

    strokes.placement = Some(PlacementStroke::new(7, 1, 42));
    strokes.settle(true, true, false, Tool::Place, Some(7), 1);
    assert!(strokes.placement.is_none(), "a click starts a new stroke");
}

#[test]
fn a_delete_stroke_picks_on_click_and_on_each_new_pixel() {
    let mut strokes = ViewportStrokes::default();
    assert!(!strokes.delete_pick(false, true, [1, 1]), "no stroke, no pick");
    assert!(strokes.delete_pick(true, true, [1, 1]));
    assert!(!strokes.delete_pick(false, true, [1, 1]));
    assert!(strokes.delete_pick(false, true, [2, 1]));
    assert!(!strokes.delete_pick(false, false, [3, 1]), "a released button does not pick");

    strokes.settle(false, true, false, Tool::Delete, None, 1);
    assert!(strokes.deletion.is_some());
    strokes.settle(false, false, false, Tool::Delete, None, 1);
    assert!(strokes.deletion.is_none());
}

#[test]
fn block_drag_state_follows_the_tool_the_level_and_the_selection() {
    let source = Selection::from_drag(Coord::new(1, 1, 1), Coord::new(2, 2, 1));
    let target = Selection::from_drag(Coord::new(5, 5, 1), Coord::new(6, 6, 1));
    let pending = PendingBlockPlacement { source, target, rotation: SelectionRotation::Original };
    let mut strokes = ViewportStrokes::default();
    strokes.block_anchor = Some(Coord::new(1, 1, 1));
    strokes.block_placement = Some(pending);

    strokes.reconcile_block(Tool::BlockSelect, 1, Some(source));
    assert_eq!(strokes.block_anchor, Some(Coord::new(1, 1, 1)));
    assert_eq!(strokes.block_placement, Some(pending));

    strokes.reconcile_block(Tool::BlockSelect, 2, Some(target));
    assert_eq!(strokes.block_anchor, None);
    assert_eq!(strokes.block_placement, None);

    strokes.block_anchor = Some(Coord::new(1, 1, 1));
    strokes.block_placement = Some(pending);
    strokes.reconcile_block(Tool::Select, 1, Some(source));
    assert_eq!((strokes.block_anchor, strokes.block_placement), (None, None));

    strokes.block_anchor = Some(Coord::new(1, 1, 1));
    strokes.release(true);
    assert!(strokes.block_anchor.is_some());
    strokes.release(false);
    assert!(strokes.block_anchor.is_none());
}

#[test]
fn a_block_dragged_back_in_place_is_not_pending() {
    let source = Selection::from_drag(Coord::new(1, 1, 1), Coord::new(3, 2, 1));
    assert_eq!(placement_after_drag(source, source.min, SelectionRotation::Original), None);
    assert_eq!(
        placement_after_drag(source, source.min, SelectionRotation::Clockwise),
        Some(PendingBlockPlacement {
            source,
            target: Selection::from_drag(Coord::new(1, 1, 1), Coord::new(2, 3, 1)),
            rotation: SelectionRotation::Clockwise,
        })
    );
    assert_eq!(
        placement_after_drag(source, Coord::new(4, 4, 1), SelectionRotation::Original),
        Some(PendingBlockPlacement {
            source,
            target: Selection::from_drag(Coord::new(4, 4, 1), Coord::new(6, 5, 1)),
            rotation: SelectionRotation::Original,
        })
    );
    assert_eq!(placement_after_drag(source, Coord::new(u32::MAX, 1, 1), SelectionRotation::Original), None);
}

#[test]
fn escape_leaves_only_when_nothing_takes_it() {
    assert!(escape_exits(false, false, false, false, false, false));
    assert!(!escape_exits(true, false, false, false, false, false));
    assert!(!escape_exits(false, false, false, false, false, true));
}

#[test]
fn undo_cancels_every_gesture_under_way() {
    let source = Selection::from_drag(Coord::new(1, 1, 1), Coord::new(2, 2, 1));
    let mut strokes = ViewportStrokes::default();
    strokes.placement = Some(PlacementStroke::new(7, 1, 40));
    strokes.delete_pick(true, true, [1, 1]);
    strokes.block_anchor = Some(Coord::new(1, 1, 1));
    strokes.block_placement = Some(PendingBlockPlacement { source, target: source, rotation: SelectionRotation::Half });
    strokes.cancel();
    assert!(strokes.placement.is_none());
    assert!(strokes.deletion.is_none());
    assert_eq!((strokes.block_anchor, strokes.block_placement), (None, None));
}
