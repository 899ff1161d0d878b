use rmd_editor::geometry::{Coord, Selection, Size};
use rmd_editor::tool::{BlockSelectionMode, FillMode, SelectionMask, SelectionRotation, Tool};
use rmd_editor::ui::dialog::{
    check_new_map_target,
    loss_warning,
    new_map_path_plan,
    plan_new_map_path,
    request_level_change,
    CloseQueue,
    FillWarningContext,
    GoToDialog,
    NewLevelDialog,
    NewMapPathError,
    NewMapPlan,
    PendingFillWarning,
    ResizeMapDialog,
    TileFillField,
    TileFillPaths,
    TileFillSearch,
};
use rmd_editor::ui::context_menu::{
    atom_menu, display_name, history_label, menu_targets, use_selected_item, AtomMenu, NodeContextKind,
};
use rmd_editor::ui::state::{
    menu_enabled, save_shortcut, screenshot_requested, ConflictReload, MenuContext, MenuEntry, ReloadChoice, ReloadStep,
    SaveShortcut,
};
use rmd_editor::ui::dm::{key_of, popup_name, same_value, skip, DmUi, UiCommand, UiPopupId, UiValue};
use rmd_editor::ui::find::{plan_typed_search, results_summary, step_position, QueryKind, SearchError, TypedSearch};
use rmd_editor::ui::git::{
    version_click, version_role, LoadedSide, VersionButton, VersionRequest, VersionRole,
    blame_row_tiles, blame_rows, conflict_targets, custom_diff_request, custom_diff_sources, resolved_count,
    row_menu_targets, take_suffix, tiles_suffix, version_against_working, version_changes, visible_conflict_rows,
    visible_diff_coords, BlameRow, DiffSource, RowSelection,
};
use rmd_editor::ui::node::{
    attached_connection, node_right_click, resolve_node_hit, touches_segment, NodeOverlay, NodeOverlayHit, NodeRightClick,
};
use rmd_editor::ui::object_tree::{
    guide_lines, node_opens, object_tree_rows, reveals_descendant, GuideEnd, ObjectTreeFilterAction, ObjectTreeRow,
    ObjectTreeSearchOptions, ObjectTreeTypeFilter, TreeNode,
};
use rmd_editor::ui::paste::{centered_paste_min, paste_controls, PendingPaste};
use rmd_editor::ui::toolbar::CustomFillBoundaries;
use rmd_editor::ui::tooltip::{marker, LineKind};

fn begin(key: &str) -> UiCommand {
    UiCommand::Begin { key: String::from(key), label: String::from(key), dock: None, size: None }
}

fn checkbox(key: &str) -> UiCommand {
    UiCommand::Checkbox { key: String::from(key), label: String::from(key), value: false }
}

fn tree(key: &str) -> UiCommand {
    UiCommand::Tree { key: String::from(key), label: String::from(key) }
}

#[test]
fn a_widget_the_profile_stopped_drawing_is_forgotten() {
    let mut panel = DmUi::default();
    panel.set_value("W/gone", UiValue::Bool(true));
    panel.set_open("W/also-gone", false);
    panel.press("W/pressed");

    panel.prune(&vec![begin("W"), checkbox("W/C"), UiCommand::End]);

    assert!(panel.values().is_empty());
    assert!(panel.closed().is_empty());
    assert!(panel.clicks().is_empty());
}

#[test]
fn drawn_widgets_keep_what_they_had() {
    let mut panel = DmUi::default();
    panel.set_value("W/C", UiValue::Bool(true));
    panel.set_open("W/T", false);
    panel.set_popup_open(UiPopupId::Mouse, true);
    panel.prune(&vec![begin("W"), checkbox("W/C"), tree("W/T"), UiCommand::TreeEnd, UiCommand::End]);
    assert_eq!(panel.values().len(), 1);
    assert_eq!(panel.closed(), &vec![String::from("W/T")]);
    assert!(panel.open_popups().is_empty(), "the stream began no popup");

    panel.set_popup_open(UiPopupId::Mouse, true);
    panel.prune(&vec![UiCommand::BeginPopup(UiPopupId::Mouse), UiCommand::EndPopup]);
    assert_eq!(panel.open_popups(), &vec![UiPopupId::Mouse]);
}

#[test]
fn setting_a_value_it_already_has_is_not_an_interaction() {
    let mut panel = DmUi::default();
    panel.set_value("W/S", UiValue::Num(1.5f32.to_bits()));
    assert!(panel.pending);
    panel.pending = false;
    panel.set_value("W/S", UiValue::Num(1.5f32.to_bits()));
    assert!(!panel.pending);
    panel.set_value("W/S", UiValue::Num(2.0f32.to_bits()));
    assert!(panel.pending);
    assert_eq!(panel.values().len(), 1);
    assert_eq!(panel.values()[0].1, UiValue::Num(2.0f32.to_bits()));
}

#[test]
fn opening_a_node_forgets_that_it_was_closed_and_presses_are_kept_once() {
    let mut panel = DmUi::default();
    panel.set_open("W/T", false);
    panel.set_open("W/T", false);
    assert_eq!(panel.closed().len(), 1);
    panel.set_open("W/T", true);
    assert!(panel.closed().is_empty());
    panel.press("W/B");
    panel.press("W/B");
    assert_eq!(panel.clicks(), &vec![String::from("W/B")]);
    assert!(panel.pending);
    panel.request_mouse_popup();
    assert!(panel.mouse_popup_requested);
    panel.set_popup_open(UiPopupId::Mouse, true);
    panel.set_popup_open(UiPopupId::Mouse, false);
    assert!(panel.open_popups().is_empty());
}

#[test]
fn skipping_a_closed_window_passes_its_nested_windows() {
    let commands = vec![
        begin("A"),
        begin("B"),
        UiCommand::End,
        checkbox("A/C"),
        UiCommand::End,
        checkbox("after"),
    ];
    assert_eq!(skip(&commands, 1, &UiCommand::End), 5);
    assert_eq!(skip(&commands, 2, &UiCommand::End), 3);
    let trees = vec![tree("T"), tree("T/U"), UiCommand::TreeEnd, UiCommand::TreeEnd, UiCommand::End];
    assert_eq!(skip(&trees, 1, &UiCommand::TreeEnd), 4);
    assert_eq!(skip(&trees, 9, &UiCommand::TreeEnd), 5);
    let unbalanced = vec![begin("W"), tree("W/T")];
    assert_eq!(skip(&unbalanced, 1, &UiCommand::End), 2);
    let popup = vec![UiCommand::BeginPopup(UiPopupId::Mouse), UiCommand::EndPopup];
    assert_eq!(skip(&popup, 1, &UiCommand::EndPopup), 2);
}

#[test]
fn widgets_are_known_by_their_keys() {
    assert_eq!(key_of(&checkbox("W/C")), Some(&String::from("W/C")));
    assert_eq!(key_of(&UiCommand::SameLine), None);
    assert_eq!(key_of(&UiCommand::Text { text: String::from("t"), color: None }), None);
    assert_eq!(popup_name(UiPopupId::Mouse), "demir-mouse-popup");
    assert!(same_value(&UiValue::Text(String::from("a")), &UiValue::Text(String::from("a"))));
    assert!(!same_value(&UiValue::Bool(true), &UiValue::Num(1)));
}

#[test]
fn a_pasted_block_lands_centered_on_the_cursor() {
    let size = Size { x: 20, y: 20, z: 1 };

    // An odd extent sits dead centre; an even one leans one tile left/down.
    assert_eq!(centered_paste_min(3, 3, Coord::new(10, 10, 1), size), Coord::new(9, 9, 1));
    assert_eq!(centered_paste_min(4, 4, Coord::new(10, 10, 1), size), Coord::new(9, 9, 1));
    assert_eq!(centered_paste_min(1, 1, Coord::new(10, 10, 1), size), Coord::new(10, 10, 1));
}

#[test]
fn a_pasted_block_is_nudged_back_inside_the_map() {
    let size = Size { x: 10, y: 10, z: 1 };

    // Centring near an edge would hang the block off the map, so it slides
    // back until the whole footprint fits.
    assert_eq!(centered_paste_min(5, 5, Coord::new(1, 1, 1), size), Coord::new(1, 1, 1));
    assert_eq!(centered_paste_min(5, 5, Coord::new(10, 10, 1), size), Coord::new(6, 6, 1));
    // A block larger than the map still starts at the origin rather than
    // clamping to nothing.
    assert_eq!(centered_paste_min(40, 40, Coord::new(5, 5, 1), size), Coord::new(1, 1, 1));
}

#[test]
fn paste_controls_hide_while_rotating() {
    let target = Selection::from_drag(Coord::new(1, 1, 1), Coord::new(2, 2, 1));
    assert_eq!(paste_controls(false, Some(target)), Some(target));
    assert_eq!(paste_controls(true, Some(target)), None);
    assert_eq!(paste_controls(false, None), None);
    let pending = PendingPaste { min: Coord::new(1, 1, 1), rotation: SelectionRotation::Half };
    assert_eq!(pending.rotation, SelectionRotation::Half);
    assert_eq!(centered_paste_min(0, 0, Coord::new(4, 4, 3), Size { x: 9, y: 9, z: 3 }), Coord::new(4, 4, 3));
}

#[test]
fn stepping_wraps_around_the_matches_that_remain() {
    let mut matches = vec![11u64, 12, 13, 14];
    let mut current = None;
    let mut visited = Vec::new();
    for _ in 0..5 {
        let next = step_position(&matches, current, true).unwrap();
        current = Some(matches[next]);
        visited.push(matches[next]);
    }
    assert_eq!(visited, [11, 12, 13, 14, 11]);
    let back = step_position(&matches, current, false).unwrap();
    current = Some(matches[back]);
    assert_eq!(current, Some(14));

    matches.remove(2);
    let back = step_position(&matches, current, false).unwrap();
    assert_eq!(matches[back], 12);
    assert_eq!(step_position(&vec![], Some(1), true), None);
    assert_eq!(step_position(&matches, Some(99), false), Some(2));
}

#[test]
fn rows_are_selected_like_a_list_view() {
    let order = vec![Coord::new(1, 1, 1), Coord::new(2, 1, 1), Coord::new(3, 1, 1), Coord::new(4, 1, 1)];
    let mut rows = RowSelection::default();

    assert!(rows.click(false, false, &order, 1));
    assert_eq!(rows.among(&order), vec![order[1]]);

    assert!(!rows.click(true, false, &order, 3));
    assert_eq!(rows.among(&order), vec![order[1], order[2], order[3]]);
    assert_eq!(rows.anchor, Some(order[1]), "a shift click keeps the anchor");

    assert!(!rows.click(false, true, &order, 2));
    assert_eq!(rows.among(&order), vec![order[1], order[3]]);
    assert!(!rows.click(false, true, &order, 0));
    assert_eq!(rows.among(&order), vec![order[0], order[1], order[3]]);
    assert_eq!(rows.anchor, Some(order[0]));

    assert!(!rows.click(true, true, &order, 2));
    assert_eq!(rows.among(&order), order);
    assert!(rows.contains(order[2]));

    rows.clear();
    assert!(rows.among(&order).is_empty());
    assert!(rows.click(true, false, &order, 2), "without an anchor a shift click selects the row alone");
    assert_eq!(rows.among(&order), vec![order[2]]);
}

#[test]
fn the_search_hint_names_the_fields_searched() {
    let hint = |type_paths, names| ObjectTreeSearchOptions { type_paths, names }.hint();
    assert_eq!(hint(true, true), "Search type paths or names");
    assert_eq!(hint(true, false), "Search type paths");
    assert_eq!(hint(false, true), "Search names");
    assert_eq!(hint(false, false), "Search types");
}

#[test]
fn diff_lines_are_marked_by_their_change() {
    assert_eq!(marker(LineKind::Kept), "");
    assert_eq!(marker(LineKind::Added), "+");
    assert_eq!(marker(LineKind::Removed), "-");
    assert_eq!(marker(LineKind::Modified), "~");
}

fn context(mask: Option<SelectionMask>) -> FillWarningContext {
    FillWarningContext { document: Some(1), revision: Some(4), z: 1, mask, prefab: Some(9), focus: None }
}

#[test]
fn pending_fill_is_invalidated_when_the_mask_document_or_palette_changes() {
    let mask = SelectionMask {
        bounds: Selection::from_drag(Coord::new(2, 2, 1), Coord::new(4, 4, 1)),
        mode: BlockSelectionMode::Full,
    };
    let warning = PendingFillWarning {
        context: context(Some(mask)),
        coord: mask.bounds.min,
        fill_mode: FillMode::Wall,
        custom_fill_boundaries: vec![],
        limit: 5000,
    };
    assert!(warning.matches(Tool::Fill, &context(Some(mask)), FillMode::Wall, &vec![]));
    assert!(!warning.matches(Tool::Fill, &context(Some(mask)), FillMode::EntireArea, &vec![]));
    assert!(!warning.matches(
        Tool::Fill,
        &context(Some(mask)),
        FillMode::Wall,
        &vec![String::from("/obj/window")]
    ));
    let hollow = SelectionMask { mode: BlockSelectionMode::Hollow { line_width: 1 }, ..mask };
    assert!(!warning.matches(Tool::Fill, &context(Some(hollow)), FillMode::Wall, &vec![]));
    let other_document = FillWarningContext { document: Some(2), ..context(Some(mask)) };
    assert!(!warning.matches(Tool::Fill, &other_document, FillMode::Wall, &vec![]));
    let other_prefab = FillWarningContext { prefab: Some(10), ..context(Some(mask)) };
    assert!(!warning.matches(Tool::Fill, &other_prefab, FillMode::Wall, &vec![]));
    assert!(!warning.matches(Tool::Select, &context(Some(mask)), FillMode::Wall, &vec![]));
}

fn default_fill() -> Option<(String, String)> {
    Some((String::from("/turf/open/floor"), String::from("/area/space")))
}

#[test]
fn a_changed_fill_is_remembered_and_the_default_is_not() {
    let mut remembered = None;
    let mut search = TileFillSearch::new(default_fill(), remembered.as_ref());
    assert_eq!(search.paths.turf, "/turf/open/floor");
    search.remember(default_fill(), &mut remembered);
    assert!(remembered.is_none());

    *search.paths.get_mut(TileFillField::Turf) = String::from("/turf/open/space");
    search.remember(default_fill(), &mut remembered);
    assert_eq!(
        remembered,
        Some(TileFillPaths { turf: String::from("/turf/open/space"), area: String::from("/area/space") })
    );
    let next = TileFillSearch::new(default_fill(), remembered.as_ref());
    assert_eq!(next.paths.turf, "/turf/open/space");
    assert_eq!(TileFillPaths::defaults(None), TileFillPaths::default());
    assert!(!next.captures_keys());
}

#[test]
fn a_new_level_dialog_opens_only_past_the_top_level() {
    let mut dialog = None;
    request_level_change(false, Some(3), &mut dialog);
    assert!(dialog.is_none());
    request_level_change(true, None, &mut dialog);
    assert!(dialog.is_none());
    request_level_change(true, Some(3), &mut dialog);
    assert_eq!(dialog, Some(NewLevelDialog::new(3)));
    assert!(dialog.unwrap().open);
}

#[test]
fn the_go_to_dialog_clamps_to_the_map_and_enter_returns_the_tile() {
    let mut dialog = GoToDialog::new(Coord::new(9, 1, 5));
    dialog.clamp_to(Size { x: 3, y: 2, z: 1 });
    assert_eq!(dialog, GoToDialog { x: 3, y: 1, z: 1 });
    assert_eq!(dialog.target(), Coord::new(3, 1, 1));
    let mut negative = GoToDialog { x: -4, y: 0, z: 2 };
    negative.clamp_to(Size { x: 0, y: 5, z: 5 });
    assert_eq!(negative, GoToDialog { x: 1, y: 1, z: 2 });
}

#[test]
fn the_resize_dialog_counts_the_tiles_a_shrink_deletes() {
    let dialog: ResizeMapDialog<u64> = ResizeMapDialog::new(Size { x: 10, y: 8, z: 1 }, TileFillSearch::default());
    assert_eq!((dialog.width, dialog.height), (10, 8));
    assert!(!dialog.changed(Size { x: 10, y: 8, z: 1 }));
    assert!(dialog.changed(Size { x: 10, y: 9, z: 1 }));
    assert_eq!(loss_warning(0), None);
    assert_eq!(
        loss_warning(1).unwrap(),
        "1 tile will be deleted! You can revert this operation with undo."
    );
    assert_eq!(
        loss_warning(12).unwrap(),
        "12 tiles will be deleted! You can revert this operation with undo."
    );
}

#[test]
fn new_map_paths_are_trimmed_and_checked_for_their_extension() {
    assert_eq!(new_map_path_plan("   "), Err(NewMapPathError::Empty));
    assert_eq!(
        new_map_path_plan(" maps/station "),
        Ok(NewMapPlan { path: String::from("maps/station"), add_extension: true })
    );
    assert_eq!(
        new_map_path_plan("maps/station.DMM"),
        Ok(NewMapPlan { path: String::from("maps/station.DMM"), add_extension: false })
    );
    assert_eq!(new_map_path_plan("station.txt"), Err(NewMapPathError::WrongExtension));
    assert_eq!(
        plan_new_map_path(String::from("a"), Some(String::from("Dmm"))),
        Ok(NewMapPlan { path: String::from("a"), add_extension: false })
    );
    assert!(NewMapPathError::WrongExtension.message().contains(".dmm extension"));
    assert_eq!(NewMapPathError::Empty.message(), "enter a map path");
}

#[test]
fn a_new_map_must_not_exist_and_needs_its_directory() {
    let exists = check_new_map_target("/m/a.dmm", true, true).unwrap_err();
    assert_eq!(exists.message(), "/m/a.dmm already exists");
    let missing = check_new_map_target("/m/a.dmm", false, false).unwrap_err();
    assert_eq!(missing.message(), "parent directory for /m/a.dmm does not exist");
    assert!(missing.message().contains("does not exist"));
    assert_eq!(check_new_map_target("/m/a.dmm", false, true), Ok(()));
}

#[test]
fn dialog_new_map_defaults_are_255_by_255_with_one_level() {
    let dialog = rmd_editor::ui::NewMapDialog::default();

    assert!(dialog.path.is_empty());
    assert_eq!(dialog.format, rmd_editor::ui::MapFormat::Tgm);
    assert_eq!((dialog.width, dialog.height, dialog.levels), (255, 255, 1));
    assert!(dialog.error.is_none());
}

#[test]
fn a_typed_search_checks_the_type_the_map_and_the_selection_in_order() {
    let selection = Selection::from_drag(Coord::new(1, 1, 1), Coord::new(2, 2, 1));
    assert_eq!(plan_typed_search("  \t ", Some(false), None, true, None), Ok(None));
    assert_eq!(plan_typed_search(" /obj/item ", Some(false), None, true, None), Err(SearchError::UnknownType));
    assert_eq!(plan_typed_search(" /obj/item ", None, None, false, None), Err(SearchError::NoMapOpen));
    assert_eq!(plan_typed_search(" /obj/item ", Some(true), Some(3), true, None), Err(SearchError::NothingSelected));
    assert_eq!(
        plan_typed_search(" /obj/item ", Some(true), Some(3), true, Some(selection)),
        Ok(Some(TypedSearch { document: 3, bounds: Some(selection) }))
    );
    assert_eq!(
        plan_typed_search(" /obj/item ", Some(true), Some(3), false, Some(selection)),
        Ok(Some(TypedSearch { document: 3, bounds: None }))
    );
    assert_eq!(SearchError::NothingSelected.message(), "Nothing is block selected");
}

#[test]
fn the_results_line_counts_the_matches() {
    assert_eq!(
        results_summary(1, QueryKind::Type, false, "station.dmm"),
        "1 matching type instance in station.dmm"
    );
    assert_eq!(
        results_summary(12, QueryKind::TypeOrSubtype, true, "station.dmm"),
        "12 matching type or subtype instances in the selection in station.dmm"
    );
    assert_eq!(results_summary(0, QueryKind::Prefab, false, "m"), "0 matching prefab instances in m");
}

#[test]
fn node_right_click_deletes_known_geometry_unless_shift_opens_the_menu() {
    let node = Coord::new(2, 3, 1);
    let connection = vec![node, Coord::new(3, 3, 1)];
    let connected = NodeOverlayHit { connection: Some(connection.clone()), ..Default::default() };
    let standalone = NodeOverlayHit { standalone: Some(node), ..Default::default() };

    assert!(matches!(
        node_right_click(true, false, &connected),
        NodeRightClick::DeleteConnection(target) if *target == connection
    ));
    assert!(matches!(
        node_right_click(true, false, &standalone),
        NodeRightClick::DeleteStandalone(target) if target == node
    ));
    assert!(matches!(node_right_click(true, true, &connected), NodeRightClick::Menu));
    assert!(matches!(node_right_click(true, false, &NodeOverlayHit::default()), NodeRightClick::Menu));
    assert!(matches!(node_right_click(false, false, &connected), NodeRightClick::Menu));
}

fn junction_overlay() -> (NodeOverlay, [Coord; 5]) {
    let left = Coord::new(1, 1, 1);
    let junction = Coord::new(2, 1, 1);
    let right = Coord::new(3, 1, 1);
    let upper = Coord::new(2, 2, 1);
    let standalone = Coord::new(5, 5, 1);
    let overlay = NodeOverlay {
        nodes: vec![left, junction, right, upper, standalone],
        segments: vec![(left, junction), (junction, right), (junction, upper)],
        connections: vec![vec![left, junction], vec![junction, right], vec![junction, upper]],
    };
    (overlay, [left, junction, right, upper, standalone])
}

#[test]
fn node_overlay_hit_distinguishes_segments_endpoints_junctions_and_standalone_nodes() {
    // What the screen geometry finds for each probe of the map: the pointer between `left` and
    // `junction` is over no handle and nearest to their connection; on a node it is over its handle.
    let (overlay, [left, junction, _, _, standalone]) = junction_overlay();

    let segment = resolve_node_hit(&overlay, None, Some(0), None, true);
    assert_eq!(segment.handle, None);
    assert_eq!(segment.connection, Some(vec![left, junction]));

    let endpoint = resolve_node_hit(&overlay, Some(left), None, None, true);
    assert_eq!(endpoint.handle, Some(left));
    assert_eq!(endpoint.standalone, None);
    assert_eq!(endpoint.connection, Some(vec![left, junction]));

    let branch = resolve_node_hit(&overlay, Some(junction), None, None, true);
    assert_eq!(branch.handle, Some(junction));
    assert!(branch.connection.is_none());

    let isolated = resolve_node_hit(&overlay, Some(standalone), None, None, true);
    assert_eq!(isolated.standalone, Some(standalone));
    assert!(isolated.connection.is_none());
}

#[test]
fn the_hovered_tile_picks_a_connection_only_when_none_is_near() {
    let (overlay, [_, junction, right, upper, _]) = junction_overlay();
    let on_tile = resolve_node_hit(&overlay, None, None, Some(2), true);
    assert_eq!(on_tile.connection, Some(vec![junction, upper]));
    let nearest = resolve_node_hit(&overlay, None, Some(1), Some(2), true);
    assert_eq!(nearest.connection, Some(vec![junction, right]));
    let outside = resolve_node_hit(&overlay, None, None, Some(7), true);
    assert!(outside.connection.is_none());
}

#[test]
fn an_overlay_without_input_hits_nothing() {
    let (overlay, [left, ..]) = junction_overlay();
    let hit = resolve_node_hit(&overlay, Some(left), Some(0), Some(0), false);
    assert_eq!(hit.handle, None);
    assert_eq!(hit.standalone, None);
    assert!(hit.connection.is_none());
}

#[test]
fn a_junction_has_no_single_attached_connection_but_its_ends_do() {
    let (overlay, [left, junction, right, upper, standalone]) = junction_overlay();
    assert_eq!(attached_connection(&overlay.connections, left), Some(0));
    assert_eq!(attached_connection(&overlay.connections, right), Some(1));
    assert_eq!(attached_connection(&overlay.connections, upper), Some(2));
    assert_eq!(attached_connection(&overlay.connections, junction), None);
    assert_eq!(attached_connection(&overlay.connections, standalone), None);
    assert!(touches_segment(&overlay.segments, upper));
    assert!(!touches_segment(&overlay.segments, standalone));
}

#[test]
fn the_context_menu_names_an_atom_by_its_name_or_its_last_path_segment() {
    assert_eq!(display_name(Some("Engineering"), "/area/station/engineering"), "Engineering");
    assert_eq!(display_name(Some(""), "/obj/structure/table"), "table");
    assert_eq!(display_name(None, "/obj/machinery/light"), "light");
    assert_eq!(display_name(None, "atom"), "atom");
    assert_eq!(display_name(None, "/obj/"), "");
}

#[test]
fn object_tree_rows_follow_expansion_and_point_at_their_parent_rows() {
    let node = |id: u64, open: bool, children: Vec<usize>| TreeNode { id, open, children };
    let nodes = vec![
        node(10, true, vec![1, 2]),
        node(11, true, vec![3]),
        node(12, false, vec![4]),
        node(13, true, vec![]),
        node(14, true, vec![]),
    ];
    let row = |id: u64, parent: Option<usize>, leaf: bool, last_sibling: bool| ObjectTreeRow {
        id,
        parent,
        leaf,
        last_sibling,
    };
    assert_eq!(
        object_tree_rows(&nodes, 0),
        vec![
            row(10, None, false, true),
            row(11, Some(0), false, false),
            row(13, Some(1), true, true),
            row(12, Some(0), false, true),
        ]
    );
    assert_eq!(object_tree_rows(&nodes, 2), vec![row(12, None, false, true)]);
    assert!(object_tree_rows(&nodes, 9).is_empty());
}

#[test]
fn guide_lines_stop_at_the_branch_of_a_last_child() {
    let row = |parent: Option<usize>, last_sibling: bool| ObjectTreeRow { id: 0, parent, leaf: false, last_sibling };
    let rows = vec![row(None, true), row(Some(0), false), row(Some(1), true), row(Some(0), true), row(Some(3), false)];
    assert!(guide_lines(&rows, &vec![], 0).is_empty());
    assert_eq!(guide_lines(&rows, &vec![0, 1], 2), vec![Some(GuideEnd::Bottom), Some(GuideEnd::Middle)]);
    assert_eq!(guide_lines(&rows, &vec![0], 3), vec![Some(GuideEnd::Middle)]);
    assert_eq!(guide_lines(&rows, &vec![0, 3], 4), vec![None, Some(GuideEnd::Bottom)]);
    assert_eq!(guide_lines(&rows, &vec![0, 9], 4), vec![None, Some(GuideEnd::Bottom)]);
}

#[test]
fn the_conflict_table_counts_filters_and_targets_its_rows() {
    let coords = vec![Coord::new(1, 1, 1), Coord::new(2, 1, 2), Coord::new(3, 1, 1), Coord::new(4, 1, 2)];
    let resolved = vec![true, false, false, true];
    assert_eq!(resolved_count(&resolved), 2);
    assert_eq!(resolved_count(&vec![]), 0);

    assert_eq!(visible_conflict_rows(&coords, &resolved, false, false, 1), vec![0, 1, 2, 3]);
    assert_eq!(visible_conflict_rows(&coords, &resolved, true, false, 1), vec![1, 2]);
    assert_eq!(visible_conflict_rows(&coords, &resolved, false, true, 2), vec![1, 3]);
    assert_eq!(visible_conflict_rows(&coords, &resolved, true, true, 2), vec![1]);

    let mut selection = RowSelection::default();
    assert_eq!(conflict_targets(&selection, &coords, &coords), coords);
    selection.click(false, false, &coords, 2);
    selection.click(false, true, &coords, 0);
    assert_eq!(conflict_targets(&selection, &coords, &coords), vec![coords[0], coords[2]]);
    assert_eq!(conflict_targets(&selection, &vec![coords[1], coords[2]], &coords), vec![coords[2]]);

    assert_eq!(take_suffix(0), " for all");
    assert_eq!(take_suffix(3), " (3 selected)");
    assert_eq!(take_suffix(12), " (12 selected)");
}

#[test]
fn the_blame_table_lists_commits_that_changed_tiles_between_uncommitted_and_older_rows() {
    let counts = vec![3, 0, 5];
    assert_eq!(
        blame_rows(2, &counts, 1, false),
        vec![BlameRow::Uncommitted, BlameRow::Commit(0), BlameRow::Commit(2), BlameRow::Boundary]
    );
    assert_eq!(
        blame_rows(0, &counts, 0, true),
        vec![BlameRow::Commit(0), BlameRow::Commit(1), BlameRow::Commit(2)]
    );
    assert!(blame_rows(0, &vec![0, 0], 0, false).is_empty());

    assert_eq!(blame_row_tiles(BlameRow::Uncommitted, 2, &counts, 1), 2);
    assert_eq!(blame_row_tiles(BlameRow::Boundary, 2, &counts, 1), 1);
    assert_eq!(blame_row_tiles(BlameRow::Commit(2), 2, &counts, 1), 5);
    assert_eq!(blame_row_tiles(BlameRow::Commit(7), 2, &counts, 1), 0);
}

#[test]
fn the_diff_table_lists_restores_and_compares_as_asked() {
    let coords = vec![Coord::new(1, 1, 1), Coord::new(2, 2, 2), Coord::new(3, 3, 1)];
    assert_eq!(visible_diff_coords(&coords, false, 2), coords);
    assert_eq!(visible_diff_coords(&coords, true, 1), vec![coords[0], coords[2]]);

    let mut selection = RowSelection::default();
    selection.click(false, false, &coords, 0);
    selection.click(false, true, &coords, 2);
    assert_eq!(row_menu_targets(&selection, &coords, coords[2]), vec![coords[0], coords[2]]);
    assert_eq!(row_menu_targets(&selection, &coords, coords[1]), vec![coords[1]]);

    assert_eq!(tiles_suffix(0), "");
    assert_eq!(tiles_suffix(1), "");
    assert_eq!(tiles_suffix(2), " (2 tiles)");
    assert_eq!(tiles_suffix(140), " (140 tiles)");

    assert_eq!(custom_diff_sources(String::new(), String::from("main")), None);
    assert_eq!(
        custom_diff_sources(String::from("HEAD~5"), String::new()),
        Some((DiffSource::Revision(String::from("HEAD~5")), DiffSource::Working))
    );
    assert_eq!(
        custom_diff_request("  HEAD~5 ", " main\t"),
        Some((DiffSource::Revision(String::from("HEAD~5")), DiffSource::Revision(String::from("main"))))
    );
    assert_eq!(custom_diff_request("   ", "main"), None);
    assert_eq!(
        custom_diff_request("v1.0", "  "),
        Some((DiffSource::Revision(String::from("v1.0")), DiffSource::Working))
    );
}

#[test]
fn each_version_row_compares_with_the_next_older_one() {
    let hashes = vec![String::from("c3"), String::from("b2"), String::from("a1")];
    let revision = |hash: &str| DiffSource::Revision(String::from(hash));
    assert_eq!(version_changes(&hashes, 0), Some((revision("HEAD"), DiffSource::Working)));
    assert_eq!(version_changes(&hashes, 1), Some((revision("b2"), revision("c3"))));
    assert_eq!(version_changes(&hashes, 2), Some((revision("a1"), revision("b2"))));
    assert_eq!(version_changes(&hashes, 3), Some((revision("a1~1"), revision("a1"))));
    assert_eq!(version_changes(&hashes, 4), None);

    assert_eq!(version_against_working(&hashes, 0), None);
    assert_eq!(version_against_working(&hashes, 2), Some((revision("b2"), DiffSource::Working)));
    assert_eq!(version_against_working(&hashes, 4), None);
}

#[test]
fn custom_fill_boundaries_list_each_type_once_and_reset_to_walls() {
    let mut boundaries = CustomFillBoundaries::new();
    assert!(boundaries.is_default());
    assert_eq!(boundaries.paths, vec![String::from("/turf/closed/wall")]);

    let mut mode = FillMode::Wall;
    assert!(!boundaries.can_add(None));
    assert!(boundaries.can_add(Some("/obj/window")));
    assert!(boundaries.add(String::from("/obj/window"), &mut mode));
    assert_eq!(mode, FillMode::Custom);
    assert_eq!(boundaries.len(), 2);
    assert!(!boundaries.can_add(Some("/obj/window")));

    let mut other = FillMode::EntireArea;
    assert!(!boundaries.add(String::from("/obj/window"), &mut other));
    assert_eq!(other, FillMode::EntireArea);
    assert_eq!(boundaries.len(), 2);
    assert!(!boundaries.is_default());

    boundaries.remove(0);
    assert_eq!(boundaries.paths, vec![String::from("/obj/window")]);
    assert!(!boundaries.contains("/turf/closed/wall"));
    boundaries.reset();
    assert!(boundaries.is_default());
}

#[test]
fn closing_several_maps_asks_about_each_unsaved_one_and_cancel_keeps_the_rest_open() {
    let (clean, first, second) = (1, 2, 3);
    let mut queue = CloseQueue::new();
    let closed = queue.request_close(&vec![clean, first, second], &vec![false, true, true]);
    assert_eq!(closed, vec![clean], "a map without changes closes at once");
    assert_eq!(queue.queue, vec![first, second]);
    assert_eq!(queue.waiting_behind(), 1);

    let again = queue.request_close(&vec![second, first], &vec![true, true]);
    assert!(again.is_empty());
    assert_eq!(queue.queue, vec![first, second], "a waiting map is not queued twice");

    let gone = queue.settle(&vec![false, true]);
    assert_eq!(gone, vec![first], "a map that went away leaves the queue");
    assert_eq!(queue.queue, vec![second]);
    assert!(queue.settle(&vec![true]).is_empty());

    queue.cancel();
    assert!(queue.queue.is_empty());
    assert_eq!(queue.waiting_behind(), 0);

    queue.request_close(&vec![first, second], &vec![true, true]);
    queue.resolve_front();
    assert_eq!(queue.queue, vec![second]);
    assert!(queue.waits(second));
    assert!(!queue.waits(first));
}

#[test]
fn object_tree_rows_follow_expansion_and_render_a_clipped_search() {
    // /atom, /atom/movable, /atom/movable/item, /atom/structure, /atom/structure/thing
    let (atom, movable, item, structure, thing) = (10, 11, 12, 13, 14);
    let ids = [atom, movable, item, structure, thing];
    let children = [vec![1, 3], vec![2], vec![], vec![4], vec![]];
    let lineages = [vec![atom], vec![movable, atom], vec![item, movable, atom], vec![structure, atom], vec![thing, structure, atom]];
    let paths = |rows: &[ObjectTreeRow]| rows.iter().map(|row| row.id).collect::<Vec<_>>();
    let tree_rows = |expand: bool, atom_stored: Option<bool>, reveal: Option<u64>, type_filter: ObjectTreeTypeFilter| {
        let nodes = (0..5)
            .map(|index| {
                let kept = reveal.is_some_and(|target| {
                    let target_index = ids.iter().position(|id| *id == target).unwrap();
                    type_filter.action(&lineages[target_index]) == ObjectTreeFilterAction::Keep
                });
                let below = reveal.is_some_and(|target| {
                    let target_index = ids.iter().position(|id| *id == target).unwrap();
                    lineages[target_index].contains(&ids[index])
                });
                let reveals = reveals_descendant(reveal, ids[index], true, kept, below);
                let stored = if index == 0 { atom_stored } else { None };
                let (open, _) = node_opens(expand, index == 0, stored, reveals);
                TreeNode { id: ids[index], open, children: children[index].clone() }
            })
            .collect::<Vec<_>>();
        object_tree_rows(&nodes, 0)
    };

    let expanded = tree_rows(true, None, None, ObjectTreeTypeFilter::default());
    assert_eq!(paths(&expanded), [atom, movable, item, structure, thing]);
    assert_eq!(expanded.iter().map(|row| row.parent).collect::<Vec<_>>(), [None, Some(0), Some(1), Some(0), Some(3)]);
    assert_eq!(expanded.iter().map(|row| row.last_sibling).collect::<Vec<_>>(), [true, false, true, true, true]);

    let opened_by_default = tree_rows(false, None, None, ObjectTreeTypeFilter::default());
    assert_eq!(paths(&opened_by_default), [atom, movable, structure]);

    let collapsed = tree_rows(false, Some(false), None, ObjectTreeTypeFilter::default());
    assert_eq!(collapsed, [ObjectTreeRow { id: atom, parent: None, leaf: false, last_sibling: true }]);

    let revealed = tree_rows(false, Some(false), Some(thing), ObjectTreeTypeFilter::default());
    assert_eq!(paths(&revealed), [atom, movable, structure, thing]);

    let filter = ObjectTreeTypeFilter { custom: Some(structure), ..ObjectTreeTypeFilter::default() };
    let filtered = tree_rows(false, Some(false), Some(thing), filter);
    assert_eq!(filtered, [ObjectTreeRow { id: atom, parent: None, leaf: false, last_sibling: true }]);
}

#[test]
fn a_node_opens_when_forced_or_when_stored_open() {
    assert_eq!(node_opens(true, false, Some(false), false), (true, true));
    assert_eq!(node_opens(false, true, None, false), (true, true));
    assert_eq!(node_opens(false, true, Some(false), false), (false, false));
    assert_eq!(node_opens(false, false, Some(true), false), (true, false));
    assert_eq!(node_opens(false, false, None, true), (true, true));
    assert!(!reveals_descendant(Some(3), 3, true, true, true));
    assert!(!reveals_descendant(None, 3, true, true, true));
    assert!(!reveals_descendant(Some(4), 3, false, true, true));
    assert!(reveals_descendant(Some(4), 3, true, true, true));
}

#[test]
fn the_context_menu_acts_on_the_tiles_it_can_and_names_its_items() {
    let tiles = vec![Coord::new(1, 1, 1), Coord::new(2, 1, 1), Coord::new(3, 1, 1)];
    assert_eq!(menu_targets(&tiles, &vec![true, false, true]), vec![tiles[0], tiles[2]]);
    assert!(menu_targets(&tiles, &vec![false, false, false]).is_empty());

    assert_eq!(history_label("Undo", None), "Undo");
    assert_eq!(history_label("Redo", Some("place /obj/table")), "Redo place /obj/table");

    assert_eq!(atom_menu(true, true, false), AtomMenu { reorder: true, delete: true, replace: true, reset: false });
    assert_eq!(atom_menu(true, false, true), AtomMenu { reorder: false, delete: true, replace: true, reset: true });
    assert_eq!(atom_menu(false, true, true), AtomMenu { reorder: false, delete: false, replace: false, reset: false });
    assert_eq!(use_selected_item(false, false, false), None);
    assert_eq!(use_selected_item(true, true, false), Some(false));
    assert_eq!(use_selected_item(true, true, true), Some(true));
    assert_eq!(use_selected_item(true, false, false), Some(true));
    assert_eq!(NodeContextKind::Connection.label(), "Delete connection");
}

#[test]
fn shortcuts_reach_the_map_only_when_nothing_else_takes_the_keyboard() {
    assert_eq!(save_shortcut(true, true, false, false, false, false, true), SaveShortcut::SaveInPlace);
    assert_eq!(save_shortcut(true, true, false, false, false, false, false), SaveShortcut::OpenDialog);
    assert_eq!(save_shortcut(true, true, false, false, false, true, true), SaveShortcut::Nothing);
    assert_eq!(save_shortcut(true, true, true, false, false, false, true), SaveShortcut::Nothing);
    assert_eq!(save_shortcut(true, false, false, false, false, false, true), SaveShortcut::Nothing);
    assert_eq!(save_shortcut(false, true, false, false, false, false, true), SaveShortcut::Nothing);
    assert!(screenshot_requested(true, false, false, false, false, false));
    assert!(screenshot_requested(false, true, true, false, false, false));
    assert!(!screenshot_requested(false, true, true, true, false, false));
}

#[test]
fn loading_conflicts_over_unsaved_changes_asks_first() {
    let mut reload = ConflictReload { pending: None };
    assert_eq!(reload.step(Some(4), false, ReloadChoice::Waiting), ReloadStep { load: Some(4), confirm: false });
    assert_eq!(reload.pending, None);

    assert_eq!(reload.step(Some(5), true, ReloadChoice::Waiting), ReloadStep { load: None, confirm: true });
    assert_eq!(reload.pending, Some(5));
    assert_eq!(reload.step(None, true, ReloadChoice::Discard), ReloadStep { load: Some(5), confirm: true });
    assert_eq!(reload.pending, None);

    reload.step(Some(6), true, ReloadChoice::Waiting);
    assert_eq!(reload.step(None, true, ReloadChoice::Cancel), ReloadStep { load: None, confirm: true });
    assert_eq!(reload.pending, None);
    assert_eq!(reload.step(None, true, ReloadChoice::Discard), ReloadStep { load: None, confirm: false });
}

#[test]
fn a_click_in_the_versions_table_reveals_the_clicked_row() {
    let hashes = vec![String::from("c3"), String::from("c2"), String::from("c1")];
    assert_eq!(
        version_click(&hashes, 2, VersionButton::Changes),
        Some(VersionRequest {
            from: DiffSource::Revision(String::from("c1")),
            to: DiffSource::Revision(String::from("c2")),
            reveal: 2,
        })
    );
    assert_eq!(
        version_click(&hashes, 3, VersionButton::Changes),
        Some(VersionRequest {
            from: DiffSource::Revision(String::from("c1~1")),
            to: DiffSource::Revision(String::from("c1")),
            reveal: 3,
        })
    );
    assert_eq!(
        version_click(&hashes, 0, VersionButton::Changes),
        Some(VersionRequest { from: DiffSource::Revision(String::from("HEAD")), to: DiffSource::Working, reveal: 0 })
    );
    assert_eq!(
        version_click(&hashes, 1, VersionButton::AgainstWorking),
        Some(VersionRequest { from: DiffSource::Revision(String::from("c3")), to: DiffSource::Working, reveal: 1 })
    );
    assert_eq!(version_click(&hashes, 0, VersionButton::AgainstWorking), None);
    assert_eq!(version_click(&hashes, 4, VersionButton::Changes), None);
}

#[test]
fn the_rows_of_the_loaded_comparison_carry_from_and_to_badges() {
    let hashes = vec![String::from("c3"), String::from("c2"), String::from("c1")];
    let loaded = Some((
        LoadedSide { working: false, commit: Some(String::from("c2")) },
        LoadedSide { working: true, commit: None },
    ));
    assert_eq!(version_role(&loaded, &hashes, 0), Some(VersionRole::To));
    assert_eq!(version_role(&loaded, &hashes, 1), None);
    assert_eq!(version_role(&loaded, &hashes, 2), Some(VersionRole::From));
    assert_eq!(version_role(&loaded, &hashes, 3), None);
    assert_eq!(version_role(&None, &hashes, 0), None);
    let same = Some((
        LoadedSide { working: false, commit: Some(String::from("c1")) },
        LoadedSide { working: false, commit: Some(String::from("c1")) },
    ));
    assert_eq!(version_role(&same, &hashes, 3), Some(VersionRole::To));
}

#[test]
fn numbers_compare_as_floats() {
    let num = |v: f32| UiValue::Num(v.to_bits());
    assert!(same_value(&num(0.0), &num(-0.0)));
    assert!(!same_value(&num(f32::NAN), &num(f32::NAN)));
    assert!(same_value(&num(1.5), &num(1.5)));
    assert!(!same_value(&num(1.5), &num(2.0)));
    assert!(same_value(&num(f32::INFINITY), &num(f32::INFINITY)));

    let mut panel = DmUi::default();
    panel.set_value("W/S", num(f32::NAN));
    assert!(panel.pending);
    panel.pending = false;
    panel.set_value("W/S", num(f32::NAN));
    assert!(panel.pending);
    panel.pending = false;
    panel.set_value("W/S", num(0.0));
    assert!(panel.pending);
    panel.pending = false;
    panel.set_value("W/S", num(-0.0));
    assert!(!panel.pending);
}

#[test]
fn menu_entries_follow_what_the_editor_has_open() {
    let idle = MenuContext {
        codebase: false,
        loading: false,
        has_recent: true,
        map: false,
        any_dirty: false,
        any_open: false,
        selection: false,
        clipboard: true,
        selected_instance: false,
        can_undo: false,
        can_redo: false,
        hides_types: false,
    };
    assert!(menu_enabled(MenuEntry::OpenCodebase, idle));
    assert!(!menu_enabled(MenuEntry::NewMap, idle));
    assert!(!menu_enabled(MenuEntry::RecentMaps, idle));
    assert!(!menu_enabled(MenuEntry::Paste, idle));
    assert!(!menu_enabled(MenuEntry::TypeLayer, idle));

    let editing = MenuContext { codebase: true, map: true, any_open: true, selected_instance: true, ..idle };
    assert!(!menu_enabled(MenuEntry::OpenCodebase, editing));
    assert!(menu_enabled(MenuEntry::OpenMap, editing));
    assert!(menu_enabled(MenuEntry::RecentMaps, editing));
    assert!(menu_enabled(MenuEntry::Paste, editing));
    assert!(!menu_enabled(MenuEntry::Copy, editing));
    assert!(menu_enabled(MenuEntry::Deselect, editing));
    assert!(!menu_enabled(MenuEntry::ScreenshotSelection, editing));
    assert!(!menu_enabled(MenuEntry::SaveAll, editing));
    assert!(menu_enabled(MenuEntry::CloseAll, editing));

    let loading = MenuContext { loading: true, ..editing };
    assert!(!menu_enabled(MenuEntry::OpenMap, loading));
    assert!(!menu_enabled(MenuEntry::RecentMaps, loading));
    assert!(menu_enabled(MenuEntry::Save, loading));
}
