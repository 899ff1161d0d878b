use rmd_editor::geometry::{Coord, Selection};
use rmd_editor::text::{grouped, shorten_path};
use rmd_editor::tool::{BlockSelectionMode, SelectionRotation, Tool};
use rmd_editor::ui::block::{hollow_selection_inner, PendingBlockPlacement};
use rmd_editor::ui::{
    block_controls_placement,
    codebase_relative,
    configure_tool_interaction,
    interaction_mode,
    label_matches,
    map_matches,
    prefab_tooltip,
    recent_key_label,
    relative_label,
    request_pick,
    BlockSelectionOptions,
    DeletionStroke,
    InteractionMode,
    LoadNotice,
    MapFormat,
    NewMapDialog,
    PlacementStroke,
    ViewportInteraction,
};

#[test]
fn ui_a_short_path_is_left_alone_and_a_long_one_keeps_its_tail() {
    assert_eq!(shorten_path("code/game/area.dm", 60), "code/game/area.dm");
    assert_eq!(shorten_path("abcdef", 6), "abcdef");
    assert_eq!(shorten_path("abcdef", 4), "\u{2026}def");
    assert_eq!(shorten_path("", 8), "");
}

#[test]
fn ui_file_counts_are_grouped_in_threes() {
    assert_eq!(grouped(0), "0");
    assert_eq!(grouped(7), "7");
    assert_eq!(grouped(999), "999");
    assert_eq!(grouped(1482), "1,482");
    assert_eq!(grouped(1_234_567), "1,234,567");
}

#[test]
fn ui_a_load_notice_keeps_the_job_title_and_message() {
    let notice = LoadNotice::failed("Opening codebase", "game/tg.dme", "no such file");

    assert_eq!(
        notice,
        LoadNotice::Failed {
            title: String::from("Opening codebase failed"),
            path: String::from("game/tg.dme"),
            message: String::from("no such file"),
        }
    );
}

#[test]
fn diagnostics_are_joined_into_one_selectable_buffer() {
    let notice = LoadNotice::diagnostics(
        "game/tg.dme",
        String::from("2 preprocessor diagnostics"),
        vec![String::from("first"), String::from("second")],
    );

    assert_eq!(
        notice,
        LoadNotice::Diagnostics {
            path: String::from("game/tg.dme"),
            summary: String::from("2 preprocessor diagnostics"),
            text: String::from("first\nsecond"),
        }
    );
}

#[test]
fn a_map_reads_as_its_path_inside_the_codebase() {
    let base = "/tg";
    let map = "/tg/_maps/map_files/station.dmm";

    assert_eq!(
        codebase_relative(base, map),
        std::path::Path::new("_maps/map_files/station.dmm").display().to_string()
    );
}

#[test]
fn the_map_filter_matches_any_part_of_the_codebase_relative_path() {
    let base = "/tg";
    let map = "/tg/_maps/map_files/MetaStation/MetaStation.dmm";

    assert!(map_matches(base, map, ""), "an empty filter keeps everything");
    assert!(map_matches(base, map, "metastation"), "matching ignores case");
    assert!(map_matches(base, map, "map_files"), "a directory segment matches");
    assert!(!map_matches(base, map, "deltastation"));
}

#[test]
fn the_map_filter_does_not_match_the_codebase_directory_itself() {
    // The label is relative, so a codebase living under a directory called "maps" must not make
    // every one of its maps match the word.
    let base = "/home/maps/tg";
    let map = "/home/maps/tg/station.dmm";

    assert!(!map_matches(base, map, "home"));
}

#[test]
fn a_map_outside_the_codebase_keeps_its_full_path() {
    let outside = "/elsewhere/station.dmm";

    assert_eq!(
        codebase_relative("/tg", outside),
        std::path::Path::new(outside).display().to_string()
    );
}

#[test]
fn ui_new_map_defaults_are_255_by_255_with_one_level() {
    let dialog = NewMapDialog::default();

    assert!(dialog.path.is_empty());
    assert_eq!(dialog.format, MapFormat::Tgm);
    assert_eq!((dialog.width, dialog.height, dialog.levels), (255, 255, 1));
    assert!(dialog.error.is_none());
}

#[test]
fn recent_slots_follow_the_number_row_order() {
    assert_eq!((0..10).map(recent_key_label).collect::<String>(), "1234567890");
}

#[test]
fn recent_slots_past_the_number_row_have_no_key() {
    assert_eq!(recent_key_label(10), '?');
    assert_eq!(recent_key_label(usize::MAX), '?');
}

#[test]
fn placement_strokes_process_each_tile_once_until_a_new_stroke_begins() {
    let prefab = 7;
    let first = Coord::new(2, 3, 1);
    let second = Coord::new(3, 3, 1);
    let mut stroke = PlacementStroke::new(prefab, 1, 40);

    let group = stroke.visit(first).expect("first tile in stroke");
    assert_eq!(stroke.visit(first), None);
    assert_eq!(stroke.visit(second), Some(group));
    assert_eq!(stroke.visit(first), None);
    assert_eq!(stroke.visit(Coord::new(2, 3, 2)), None);

    let mut next_stroke = PlacementStroke::new(prefab, 1, 41);
    assert!(next_stroke.visit(first).is_some());
}

#[test]
fn placement_strokes_only_match_their_starting_context() {
    let prefab = 7;
    let other = 8;
    let stroke = PlacementStroke::new(prefab, 2, 40);

    assert!(stroke.matches_context(Tool::Place, Some(prefab), 2));
    assert!(!stroke.matches_context(Tool::Select, Some(prefab), 2));
    assert!(!stroke.matches_context(Tool::Place, Some(other), 2));
    assert!(!stroke.matches_context(Tool::Place, Some(prefab), 1));
    assert!(!stroke.matches_context(Tool::Place, None, 2));
}

#[test]
fn ui_block_selection_options_clamp_the_line_width_and_label_the_active_mode() {
    let mut options = BlockSelectionOptions::default();
    assert_eq!(options.mode(), BlockSelectionMode::Full);
    assert_eq!(options.label(), "Full rectangle");

    // the width stays configured while the full rectangle is selected, and is ignored
    options.line_width = 4;
    assert_eq!(options.mode(), BlockSelectionMode::Full);

    options.full_rectangle = false;
    assert_eq!(options.mode(), BlockSelectionMode::Hollow { line_width: 4 });
    assert_eq!(options.label(), "Hollow, 4-tile line");

    options.line_width = 1;
    assert_eq!(options.mode(), BlockSelectionMode::Hollow { line_width: 1 });
    assert_eq!(options.label(), "Hollow, 1-tile line");

    // the drag widget clamps to one, but a stale or hand-edited value must not wrap round the cast
    for line_width in [0, -1, i32::MIN] {
        options.line_width = line_width;
        assert_eq!(options.mode(), BlockSelectionMode::Hollow { line_width: 1 });
    }
}

#[test]
fn hollow_labels_count_wide_lines_in_decimal() {
    let options = BlockSelectionOptions { full_rectangle: false, line_width: 12 };
    assert_eq!(options.label(), "Hollow, 12-tile line");
}

#[test]
fn ui_hollow_block_selection_exposes_the_inset_hole() {
    let selection = Selection::from_drag(Coord::new(2, 3, 1), Coord::new(6, 7, 1));

    assert_eq!(hollow_selection_inner(selection, BlockSelectionMode::Full), None);
    assert_eq!(
        hollow_selection_inner(selection, BlockSelectionMode::Hollow { line_width: 1 }),
        Some(Selection::from_drag(Coord::new(3, 4, 1), Coord::new(5, 6, 1)))
    );
    assert_eq!(
        hollow_selection_inner(selection, BlockSelectionMode::Hollow { line_width: 2 }),
        Some(Selection::from_drag(Coord::new(4, 5, 1), Coord::new(4, 5, 1)))
    );
    assert_eq!(
        hollow_selection_inner(selection, BlockSelectionMode::Hollow { line_width: 3 }),
        None
    );
}

#[test]
fn ui_block_controls_are_available_before_a_selection_is_moved() {
    let selection = Selection::from_drag(Coord::new(1, 1, 1), Coord::new(2, 2, 1));
    let expected = PendingBlockPlacement {
        source: selection,
        target: selection,
        rotation: SelectionRotation::Original,
    };

    assert_eq!(
        block_controls_placement(Tool::BlockSelect, false, false, Some(selection), None),
        Some(expected)
    );
    assert_eq!(
        block_controls_placement(Tool::BlockSelect, true, false, Some(selection), None),
        None
    );
    assert_eq!(
        block_controls_placement(Tool::BlockSelect, false, true, Some(selection), None),
        None
    );
}

#[test]
fn block_controls_keep_a_pending_placement_and_belong_to_the_block_tool() {
    let selection = Selection::from_drag(Coord::new(1, 1, 1), Coord::new(2, 2, 1));
    let moved = Selection::from_drag(Coord::new(5, 5, 1), Coord::new(6, 6, 1));
    let pending = PendingBlockPlacement {
        source: selection,
        target: moved,
        rotation: SelectionRotation::Clockwise,
    };

    assert_eq!(
        block_controls_placement(Tool::BlockSelect, false, false, Some(selection), Some(pending)),
        Some(pending)
    );
    assert_eq!(block_controls_placement(Tool::Fill, false, false, Some(selection), None), None);
    assert_eq!(block_controls_placement(Tool::BlockSelect, false, false, None, Some(pending)), None);
}

#[derive(Debug, Clone, Copy, PartialEq, Eq)]
enum Pick {
    Cursor,
}

#[test]
fn tool_interaction_configures_highlights_and_pick_requests() {
    let owner = 7u64;
    let interaction: ViewportInteraction<Pick, u32> = ViewportInteraction {
        cursor: Some([10, 20]),
        hovered_area: Some(owner),
        selected: Some(owner),
        selection_guide: None,
        mode: InteractionMode::Select { pick: Some(Pick::Cursor) },
    };
    let mut selected = interaction;

    configure_tool_interaction(Tool::Select, &mut selected);
    assert_eq!(selected, interaction);

    let mut delete = interaction;
    configure_tool_interaction(Tool::Delete, &mut delete);
    assert_eq!(
        delete,
        ViewportInteraction {
            selected: None,
            selection_guide: None,
            mode: InteractionMode::Delete { pick: None },
            ..interaction
        }
    );

    let cleared = ViewportInteraction {
        cursor: None,
        hovered_area: None,
        selected: None,
        selection_guide: None,
        mode: InteractionMode::Place,
    };
    configure_tool_interaction(Tool::Place, &mut selected);
    assert_eq!(selected, cleared);

    let mut fill = interaction;
    configure_tool_interaction(Tool::Fill, &mut fill);
    assert_eq!(fill, cleared);

    let mut block = interaction;
    configure_tool_interaction(Tool::BlockSelect, &mut block);
    assert_eq!(block, cleared);
}

#[test]
fn pick_requests_wait_for_a_picking_mode() {
    let mut interaction: ViewportInteraction<Pick, u32> = ViewportInteraction {
        cursor: None,
        hovered_area: None,
        selected: None,
        selection_guide: None,
        mode: interaction_mode(Tool::Delete),
    };
    request_pick(&mut interaction, Pick::Cursor);
    assert_eq!(interaction.mode, InteractionMode::Delete { pick: Some(Pick::Cursor) });

    interaction.mode = interaction_mode(Tool::Place);
    request_pick(&mut interaction, Pick::Cursor);
    assert_eq!(interaction.mode, InteractionMode::Place);
    assert_eq!(interaction_mode::<Pick>(Tool::Select), InteractionMode::Select { pick: None });
}

#[test]
fn deletion_strokes_only_continue_when_the_cursor_moves() {
    let mut stroke = DeletionStroke::new([10, 20]);

    assert!(!stroke.move_to([10, 20]));
    assert!(stroke.move_to([11, 20]));
    assert!(!stroke.move_to([11, 20]));
    assert!(stroke.move_to([10, 20]));
}

#[test]
fn labels_match_lower_case_filters_anywhere() {
    assert!(label_matches("_maps/MetaStation.dmm", "meta"));
    assert!(label_matches("anything", ""));
    assert!(!label_matches("station.dmm", "STATION"), "the filter itself is not lowered");
    assert!(!label_matches("abc", "abcd"));
}

#[test]
fn a_path_outside_the_codebase_is_its_own_label() {
    assert_eq!(relative_label(None, "/elsewhere/x.dmm"), "/elsewhere/x.dmm");
    assert_eq!(relative_label(Some(String::from("x.dmm")), "/tg/x.dmm"), "x.dmm");
}

#[test]
fn prefab_tooltips_list_the_path_and_each_override() {
    assert_eq!(
        prefab_tooltip("/obj/table", &vec![(String::from("name"), String::from("\"custom\""))]),
        "/obj/table\nname = \"custom\""
    );
    assert_eq!(prefab_tooltip("/obj/table", &vec![]), "/obj/table");
    assert_eq!(
        prefab_tooltip("/obj/x", &vec![
            (String::from("dir"), String::from("4")),
            (String::from("pixel_x"), String::from("-8")),
        ]),
        "/obj/x\ndir = 4\npixel_x = -8"
    );
}

#[test]
fn a_diagnostics_notice_splits_back_into_its_lines() {
    let lines = vec![String::from("a.dmm: first"), String::new(), String::from("b.dmm: third")];
    let notice = LoadNotice::diagnostics("game/tg.dme", String::from("3 diagnostics"), lines.clone());
    match notice {
        LoadNotice::Diagnostics { text, .. } => {
            assert_eq!(text.split('\n').map(String::from).collect::<Vec<_>>(), lines);
        },
        _ => panic!("a diagnostics notice"),
    }
}
