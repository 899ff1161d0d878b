//! The decisions the map view makes each frame on the pointer: which drag strokes go on, when the
//! delete tool picks again, what becomes of a block drag, and when Escape leaves the editor.
use vstd::prelude::*;

use crate::geometry::{Coord, Selection};
use crate::tool::{spec_rotated_selection_at, rotated_selection_at, SelectionRotation, Tool};
use crate::ui::block::PendingBlockPlacement;
use crate::ui::{DeletionStroke, PlacementStroke};

verus! {

/// The drags in progress on the map view: a place stroke, a delete stroke, the corner a block
/// drag started from, and a block waiting to be moved, copied or filled.
#[derive(Debug)]
pub struct ViewportStrokes {
    pub placement: Option<PlacementStroke>,
    pub deletion: Option<DeletionStroke>,
    pub block_anchor: Option<Coord>,
    pub block_placement: Option<PendingBlockPlacement>,
}

impl Default for ViewportStrokes {
    fn default() -> (strokes: Self)
        ensures
            strokes.placement is None,
            strokes.deletion is None,
            strokes.block_anchor is None,
            strokes.block_placement is None,
    {
        ViewportStrokes { placement: None, deletion: None, block_anchor: None, block_placement: None }
    }
}

/// Whether a place stroke is kept through a frame: the button still held, the gizmo not taking
/// the mouse, and the tool, prefab and level the stroke began with.
pub open spec fn keeps_placement(
    stroke: PlacementStroke,
    left_down: bool,
    gizmo_captures_mouse: bool,
    tool: Tool,
    palette: Option<u64>,
    z: u32,
) -> bool {
    left_down && !gizmo_captures_mouse && tool == Tool::Place && palette == Some(stroke.prefab) && z
        == stroke.z
}

/// The block a block drag or rotation handle leaves pending: the source moved to `target_min` and
/// turned to `rotation`, unless that puts it back where it is, or off the coordinates.
pub open spec fn spec_placement_after_drag(
    source: Selection,
    target_min: Coord,
    rotation: SelectionRotation,
) -> Option<PendingBlockPlacement> {
    match spec_rotated_selection_at(source, target_min, rotation) {
        Some(target) => if target != source || rotation != SelectionRotation::Original {
            Some(PendingBlockPlacement { source, target, rotation })
        } else {
            None
        },
        None => None,
    }
}

pub fn placement_after_drag(source: Selection, target_min: Coord, rotation: SelectionRotation) -> (placement:
    Option<PendingBlockPlacement>)
    ensures
        placement == spec_placement_after_drag(source, target_min, rotation),
{
    match rotated_selection_at(source, target_min, rotation) {
        Some(target) => {
            if target != source || rotation != SelectionRotation::Original {
                Some(PendingBlockPlacement { source, target, rotation })
            } else {
                None
            }
        },
        None => None,
    }
}

/// Whether Escape leaves the editor: only when nothing on screen takes it for itself.
pub fn escape_exits(
    fill_warning_open: bool,
    block_menu_open: bool,
    block_placement_pending: bool,
    load_popup_active: bool,
    save_dialog_open: bool,
    capturing_keybind: bool,
) -> (exits: bool)
    ensures
        exits == !(fill_warning_open || block_menu_open || block_placement_pending || load_popup_active
            || save_dialog_open || capturing_keybind),
{
    !(fill_warning_open || block_menu_open || block_placement_pending || load_popup_active
        || save_dialog_open || capturing_keybind)
}

impl ViewportStrokes {
    /// Ends the strokes a frame's buttons end: a click starts over, a released button or another
    /// tool ends a delete stroke, and a place stroke ends when it no longer fits the frame.
    pub fn settle(
        &mut self,
        left_clicked: bool,
        left_down: bool,
        gizmo_captures_mouse: bool,
        tool: Tool,
        palette: Option<u64>,
        z: u32,
    )
        ensures
            final(self).deletion == if left_clicked || !left_down || tool != Tool::Delete {
                None
            } else {
                old(self).deletion
            },
            final(self).placement == match old(self).placement {
                Some(stroke) => if !left_clicked && keeps_placement(
                    stroke,
                    left_down,
                    gizmo_captures_mouse,
                    tool,
                    palette,
                    z,
                ) {
                    Some(stroke)
                } else {
                    None
                },
                None => None,
            },
            final(self).block_anchor == old(self).block_anchor,
            final(self).block_placement == old(self).block_placement,
    {
        if left_clicked {
            self.placement = None;
            self.deletion = None;
        }
        if !left_down || tool != Tool::Delete {
            self.deletion = None;
        }
        let ends = match &self.placement {
            Some(stroke) => !left_down || gizmo_captures_mouse || !stroke.matches_context(
                tool,
                palette,
                z,
            ),
            None => false,
        };
        if ends {
            self.placement = None;
        }
    }

    /// The delete tool over the pixel `pixel`: a click starts a stroke and picks, a held button
    /// picks again once the stroke reaches another pixel.
    pub fn delete_pick(&mut self, left_clicked: bool, left_down: bool, pixel: [u32; 2]) -> (picks: bool)
        ensures
            left_clicked ==> picks && (final(self).deletion matches Some(s) && s.cursor == pixel),
            !left_clicked ==> match old(self).deletion {
                Some(stroke) => if left_down {
                    &&& picks == !(stroke.cursor[0] == pixel[0] && stroke.cursor[1] == pixel[1])
                    &&& (final(self).deletion matches Some(s) && s.cursor == pixel)
                } else {
                    !picks && final(self).deletion == old(self).deletion
                },
                None => !picks && final(self).deletion is None,
            },
            final(self).placement == old(self).placement,
            final(self).block_anchor == old(self).block_anchor,
            final(self).block_placement == old(self).block_placement,
    {
        if left_clicked {
            self.deletion = Some(DeletionStroke::new(pixel));
            true
        } else if left_down {
            match &mut self.deletion {
                Some(stroke) => stroke.move_to(pixel),
                None => false,
            }
        } else {
            false
        }
    }

    /// Keeps the block drag state consistent with the frame: none of it outside the block tool, no
    /// drag corner on another level, and no pending block for a selection that has changed.
    pub fn reconcile_block(&mut self, tool: Tool, z: u32, selection: Option<Selection>)
        ensures
            final(self).block_anchor == if tool != Tool::BlockSelect {
                None
            } else {
                match old(self).block_anchor {
                    Some(anchor) => if anchor.z != z {
                        None
                    } else {
                        Some(anchor)
                    },
                    None => None,
                }
            },
            final(self).block_placement == if tool != Tool::BlockSelect {
                None
            } else {
                match old(self).block_placement {
                    Some(placement) => if Some(placement.source) != selection {
                        None
                    } else {
                        Some(placement)
                    },
                    None => None,
                }
            },
            final(self).placement == old(self).placement,
            final(self).deletion == old(self).deletion,
    {
        if tool != Tool::BlockSelect {
            self.block_anchor = None;
            self.block_placement = None;
        } else {
            if let Some(anchor) = self.block_anchor {
                if anchor.z != z {
                    self.block_anchor = None;
                }
            }
            if let Some(placement) = self.block_placement {
                let same = match selection {
                    Some(current) => placement.source == current,
                    None => false,
                };
                if !same {
                    self.block_placement = None;
                }
            }
        }
    }

    /// A released button ends a block drag.
    pub fn release(&mut self, left_down: bool)
        ensures
            final(self).block_anchor == if left_down {
                old(self).block_anchor
            } else {
                None
            },
            final(self).placement == old(self).placement,
            final(self).deletion == old(self).deletion,
            final(self).block_placement == old(self).block_placement,
    {
        if !left_down {
            self.block_anchor = None;
        }
    }

    /// Cancelling the edit gestures, as an undo or a redo does first, drops every stroke and
    /// block drag under way, and a block placement not yet confirmed.
    pub fn cancel(&mut self)
        ensures
            final(self).placement is None,
            final(self).deletion is None,
            final(self).block_anchor is None,
            final(self).block_placement is None,
    {
        self.placement = None;
        self.deletion = None;
        self.block_anchor = None;
        self.block_placement = None;
    }
}

} // verus!
