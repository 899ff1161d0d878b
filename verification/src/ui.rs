//! Editor panels: the state and decisions behind the windows, toolbars and dialogs.
use vstd::prelude::*;

pub mod block;
pub mod context_menu;
pub mod dialog;
pub mod dm;
pub mod find;
pub mod git;
pub mod load;
pub mod node;
pub mod object_tree;
pub mod paste;
pub mod search;
pub mod settings;
pub mod state;
pub mod toolbar;
pub mod tooltip;
pub mod viewport;

use crate::geometry::{Coord, Selection};
use crate::text::{
    contains_str,
    has_substring,
    join_lines,
    join_with,
    lemma_split_joined_lines,
    split_lines,
    lower_seq,
    to_ascii_lowercase,
    views_of,
};
use crate::tool::{BlockSelectionMode, SelectionRotation, Tool};
use crate::ui::block::{clamped_line_width, PendingBlockPlacement};

verus! {

/// What the user asked to open: a codebase or map to pick, or one by its path.
#[derive(Debug, Clone, PartialEq, Eq)]
pub enum OpenRequest {
    PickCodebase,
    PickMap,
    Codebase(String),
    MapFile(String),
}

/// A job that failed, or the diagnostics a load left behind, shown in the load popup.
#[derive(Debug, Clone, PartialEq, Eq)]
pub enum LoadNotice {
    Failed { title: String, path: String, message: String },
    Diagnostics { path: String, summary: String, text: String },
}

impl LoadNotice {
    /// The notice for `title` (such as "Opening codebase") failing on `path` with `message`.
    pub fn failed(title: &str, path: &str, message: &str) -> (notice: Self)
        ensures
            notice matches LoadNotice::Failed { title: t, path: p, message: m } && t@ == title@
                + " failed"@ && p@ == path@ && m@ == message@,
    {
        let mut full_title = String::from_str(title);
        full_title.append(" failed");
        LoadNotice::Failed {
            title: full_title,
            path: String::from_str(path),
            message: String::from_str(message),
        }
    }

    /// The diagnostics of a load, their lines joined into one text, one per line.
    pub fn diagnostics(path: &str, summary: String, lines: Vec<String>) -> (notice: Self)
        ensures
            notice matches LoadNotice::Diagnostics { path: p, summary: s, text: t } && p@ == path@
                && s@ == summary@ && t@ == join_with(views_of(lines@), seq!['\n']),
    {
        LoadNotice::Diagnostics {
            path: String::from_str(path),
            summary,
            text: join_lines(&lines),
        }
    }
}

/// The text of a diagnostics notice keeps every line: split at its newlines it gives the lines
/// back, in order, when there is at least one and none holds a newline.
pub proof fn lemma_diagnostics_keep_every_line(lines: Seq<String>)
    requires
        lines.len() > 0,
        forall|i: int| 0 <= i < lines.len() ==> !(#[trigger] lines[i])@.contains('\n'),
    ensures
        split_lines(join_with(views_of(lines), seq!['\n'])) == views_of(lines),
{
    assert forall|i: int| 0 <= i < views_of(lines).len() implies !(#[trigger] views_of(lines)[i]).contains(
        '\n',
    ) by {
        assert(views_of(lines)[i] == lines[i]@);
    }
    lemma_split_joined_lines(views_of(lines));
}

/// A delete drag: it deletes again only once the cursor has moved to another tile.
#[derive(Debug)]
pub struct DeletionStroke {
    pub cursor: [u32; 2],
}

impl DeletionStroke {
    pub fn new(cursor: [u32; 2]) -> (stroke: Self)
        ensures
            stroke.cursor == cursor,
    {
        DeletionStroke { cursor }
    }

    /// Moves the stroke to `cursor`, telling whether that is another tile.
    pub fn move_to(&mut self, cursor: [u32; 2]) -> (moved: bool)
        ensures
            final(self).cursor == cursor,
            moved == !(old(self).cursor[0] == cursor[0] && old(self).cursor[1] == cursor[1]),
    {
        let moved = !(self.cursor[0] == cursor[0] && self.cursor[1] == cursor[1]);
        self.cursor = cursor;
        moved
    }
}

/// The block selection settings of the toolbar: a full rectangle, or a hollow one drawn with a
/// line `line_width` tiles wide (kept while the full rectangle is chosen).
#[derive(Debug, Clone, Copy, PartialEq, Eq, Structural)]
pub struct BlockSelectionOptions {
    pub full_rectangle: bool,
    pub line_width: i32,
}

impl Default for BlockSelectionOptions {
    fn default() -> (options: Self)
        ensures
            options == (BlockSelectionOptions { full_rectangle: true, line_width: 1 }),
    {
        BlockSelectionOptions { full_rectangle: true, line_width: 1 }
    }
}

pub open spec fn spec_selection_mode(options: BlockSelectionOptions) -> BlockSelectionMode {
    if options.full_rectangle {
        BlockSelectionMode::Full
    } else {
        BlockSelectionMode::Hollow { line_width: clamped_line_width(options.line_width) }
    }
}

impl BlockSelectionOptions {
    pub fn mode(self) -> (mode: BlockSelectionMode)
        ensures
            mode == spec_selection_mode(self),
    {
        if self.full_rectangle {
            BlockSelectionMode::Full
        } else {
            let line_width: u32 = if self.line_width < 1 { 1 } else { self.line_width as u32 };
            BlockSelectionMode::Hollow { line_width }
        }
    }

    /// "Full rectangle", "Hollow, 1-tile line", or "Hollow, N-tile line".
    pub fn label(self) -> (label: String)
        ensures
            label@ == match spec_selection_mode(self) {
                BlockSelectionMode::Full => "Full rectangle"@,
                BlockSelectionMode::Hollow { line_width } => "Hollow, "@ + crate::text::decimal(
                    line_width as nat,
                ) + "-tile line"@,
            },
    {
        match self.mode() {
            BlockSelectionMode::Full => String::from_str("Full rectangle"),
            BlockSelectionMode::Hollow { line_width } => {
                let digits = crate::text::decimal_digits(line_width as usize);
                let mut label = String::from_str("Hollow, ");
                label.append(crate::text::string_of(&digits).as_str());
                label.append("-tile line");
                label
            },
        }
    }
}

/// Which block is offered the move, copy and fill controls: with the block tool, while no drag
/// or rotation is under way, the pending placement, or else the selection where it is.
pub fn block_controls_placement(
    tool: Tool,
    selecting: bool,
    rotation_open: bool,
    selection: Option<Selection>,
    pending: Option<PendingBlockPlacement>,
) -> (placement: Option<PendingBlockPlacement>)
    ensures
        placement == if tool == Tool::BlockSelect && !selecting && !rotation_open {
            match selection {
                Some(source) => match pending {
                    Some(p) => Some(p),
                    None => Some(
                        PendingBlockPlacement {
                            source,
                            target: source,
                            rotation: SelectionRotation::Original,
                        },
                    ),
                },
                None => None,
            }
        } else {
            None
        },
{
    if tool == Tool::BlockSelect && !selecting && !rotation_open {
        match selection {
            Some(source) => match pending {
                Some(p) => Some(p),
                None => Some(
                    PendingBlockPlacement { source, target: source, rotation: SelectionRotation::Original },
                ),
            },
            None => None,
        }
    } else {
        None
    }
}

/// The key shown on the recent prefab in slot `index`: the number row from 1 to 0, then `?`.
pub open spec fn spec_recent_key_label(index: int) -> char {
    if 0 <= index < 9 {
        ((index + 49) as u32) as char
    } else if index == 9 {
        '0'
    } else {
        '?'
    }
}

pub fn recent_key_label(index: usize) -> (label: char)
    ensures
        label == spec_recent_key_label(index as int),
{
    if index < 9 {
        let code: u8 = (index as u8) + 49;
        code as char
    } else if index == 9 {
        '0'
    } else {
        '?'
    }
}

/// Whether a label passes a filter typed in lower case: any filter matches when empty, and
/// otherwise it must occur in the label with the label's ASCII letters in lower case.
pub open spec fn spec_label_matches(label: Seq<char>, needle: Seq<char>) -> bool {
    needle.len() == 0 || has_substring(lower_seq(label), needle)
}

pub fn label_matches(label: &str, needle: &str) -> (matches: bool)
    ensures
        matches == spec_label_matches(label@, needle@),
{
    if needle.unicode_len() == 0 {
        return true;
    }
    let lower = to_ascii_lowercase(label);
    contains_str(lower.as_str(), needle)
}

/// Names what `std::path::Path::strip_prefix` leaves of `path` below `base`, shown as text by
/// `Path::display`, or `None` when `base` is not made of leading components of `path`.
pub uninterp spec fn path_below(base: Seq<char>, path: Seq<char>) -> Option<Seq<char>>;

/// Calls `std::path::Path::strip_prefix` on `path` with `base`, and shows what is left as text
/// with `Path::display`. The result is named `path_below`; how the path is split into
/// components is the standard library's (and the target platform's) rule, which is not restated.
#[verifier::external_body]
fn strip_path_prefix(base: &str, path: &str) -> (relative: Option<String>)
    ensures
        match relative {
            Some(r) => path_below(base@, path@) == Some(r@),
            None => path_below(base@, path@) is None,
        },
{
    match std::path::Path::new(path).strip_prefix(base) {
        Ok(relative) => Some(relative.display().to_string()),
        Err(_) => None,
    }
}

/// The label of a path: what is left below the codebase, or the whole path when outside it.
pub fn relative_label(relative: Option<String>, path: &str) -> (label: String)
    ensures
        label@ == match relative {
            Some(r) => r@,
            None => path@,
        },
{
    match relative {
        Some(r) => r,
        None => String::from_str(path),
    }
}

/// How a path reads inside the codebase at `base`: the part below it, or the whole path.
pub open spec fn spec_codebase_relative(base: Seq<char>, path: Seq<char>) -> Seq<char> {
    match path_below(base, path) {
        Some(relative) => relative,
        None => path,
    }
}

/// `path` as it reads inside the codebase at `base`.
pub fn codebase_relative(base: &str, path: &str) -> (label: String)
    ensures
        label@ == spec_codebase_relative(base@, path@),
{
    relative_label(strip_path_prefix(base, path), path)
}

/// Whether the map at `map` passes the filter `needle` on the map list: it matches its label
/// inside the codebase, never the codebase's own directory.
pub fn map_matches(base: &str, map: &str, needle: &str) -> (matches: bool)
    ensures
        matches == spec_label_matches(spec_codebase_relative(base@, map@), needle@),
{
    label_matches(codebase_relative(base, map).as_str(), needle)
}

/// The formats a new map can be written in.
#[derive(Debug, Clone, Copy, PartialEq, Eq, Structural)]
pub enum MapFormat {
    Dmm,
    Tgm,
}

/// The fields of the new map dialog.
#[derive(Debug, Clone, PartialEq, Eq)]
pub struct NewMapDialog {
    pub path: String,
    pub format: MapFormat,
    pub width: i32,
    pub height: i32,
    pub levels: i32,
    pub error: Option<String>,
}

impl Default for NewMapDialog {
    /// An empty path, the TGM format, 255 by 255 tiles and one level.
    fn default() -> (dialog: Self)
        ensures
            dialog.path@.len() == 0,
            dialog.format == MapFormat::Tgm,
            dialog.width == 255,
            dialog.height == 255,
            dialog.levels == 1,
            dialog.error is None,
    {
        NewMapDialog {
            path: String::new(),
            format: MapFormat::Tgm,
            width: 255,
            height: 255,
            levels: 1,
            error: None,
        }
    }
}

/// A place drag: its prefab (by key) goes once on each tile of its level that the drag crosses,
/// all in one edit group.
#[derive(Debug)]
pub struct PlacementStroke {
    pub prefab: u64,
    pub z: u32,
    pub group: u64,
    pub visited: Vec<Coord>,
}

/// What visiting `coord` gives: the stroke's group the first time a tile of its level is
/// visited, nothing otherwise.
pub open spec fn spec_visit(visited: Seq<Coord>, z: u32, group: u64, coord: Coord) -> Option<u64> {
    if coord.z == z && !visited.contains(coord) {
        Some(group)
    } else {
        None
    }
}

impl PlacementStroke {
    /// A new stroke of `prefab` on level `z`, its edits grouped under `group`.
    pub fn new(prefab: u64, z: u32, group: u64) -> (stroke: Self)
        ensures
            stroke.prefab == prefab,
            stroke.z == z,
            stroke.group == group,
            stroke.visited@.len() == 0,
    {
        PlacementStroke { prefab, z, group, visited: Vec::new() }
    }

    /// Whether the stroke can go on: still the place tool, the same prefab, the same level.
    pub fn matches_context(&self, tool: Tool, prefab: Option<u64>, z: u32) -> (matches: bool)
        ensures
            matches == (tool == Tool::Place && prefab == Some(self.prefab) && z == self.z),
    {
        tool == Tool::Place && prefab == Some(self.prefab) && z == self.z
    }

    /// Visits `coord`: the group to place in when the tile is new to the stroke and on its level.
    pub fn visit(&mut self, coord: Coord) -> (group: Option<u64>)
        ensures
            group == spec_visit(old(self).visited@, old(self).z, old(self).group, coord),
            final(self).prefab == old(self).prefab,
            final(self).z == old(self).z,
            final(self).group == old(self).group,
            final(self).visited@ == if group is Some {
                old(self).visited@.push(coord)
            } else {
                old(self).visited@
            },
    {
        if coord.z != self.z {
            return None;
        }
        let mut i: usize = 0;
        while i < self.visited.len()
            invariant
                i <= self.visited@.len(),
                forall|k: int| 0 <= k < i ==> self.visited@[k] != coord,
            decreases self.visited.len() - i,
        {
            if self.visited[i] == coord {
                return None;
            }
            i = i + 1;
        }
        self.visited.push(coord);
        Some(self.group)
    }
}

/// A stroke places on each tile at most once: visiting a tile it placed on gives nothing more.
pub proof fn lemma_stroke_visits_once(visited: Seq<Coord>, z: u32, group: u64, coord: Coord)
    requires
        spec_visit(visited, z, group, coord) is Some,
    ensures
        spec_visit(visited.push(coord), z, group, coord) is None,
{
    assert(visited.push(coord)[visited.len() as int] == coord);
}

/// A codebase profile to load again: one chosen by name, or a bundled one forced (none to stop
/// forcing).
#[derive(Debug, Clone, PartialEq, Eq)]
pub enum ProfileReload<P> {
    Select(String),
    Force(Option<P>),
}

/// What the map view does with the pointer, with the pick it was asked for, if any.
#[derive(Debug, Clone, Copy, PartialEq, Eq, Structural)]
pub enum InteractionMode<P> {
    Place,
    Select { pick: Option<P> },
    Delete { pick: Option<P> },
}

/// The pointer state of the map view that the tools decide on: the hovered tile and area, the
/// selected instance and its outline, and the interaction mode.
#[derive(Debug, Clone, Copy, PartialEq, Eq)]
pub struct ViewportInteraction<P, G> {
    pub cursor: Option<[u32; 2]>,
    pub hovered_area: Option<u64>,
    pub selected: Option<u64>,
    pub selection_guide: Option<G>,
    pub mode: InteractionMode<P>,
}

pub open spec fn places(tool: Tool) -> bool {
    tool == Tool::Place || tool == Tool::BlockSelect || tool == Tool::Fill
}

/// The mode a tool puts the map view in, with no pick asked yet.
pub fn interaction_mode<P>(tool: Tool) -> (mode: InteractionMode<P>)
    ensures
        mode == if places(tool) {
            InteractionMode::Place
        } else if tool == Tool::Select {
            InteractionMode::Select { pick: None }
        } else {
            InteractionMode::<P>::Delete { pick: None }
        },
{
    match tool {
        Tool::Place | Tool::BlockSelect | Tool::Fill => InteractionMode::Place,
        Tool::Select => InteractionMode::Select { pick: None },
        Tool::Delete => InteractionMode::Delete { pick: None },
    }
}

/// Sets the map view up for `tool`: the placing tools hover and select nothing, the delete tool
/// selects nothing, and a pick already asked in the tool's own mode is kept.
pub fn configure_tool_interaction<P: Copy, G: Copy>(tool: Tool, interaction: &mut ViewportInteraction<P, G>)
    ensures
        places(tool) ==> *final(interaction) == (ViewportInteraction::<P, G> {
            cursor: None,
            hovered_area: None,
            selected: None,
            selection_guide: None,
            mode: InteractionMode::Place,
        }),
        tool == Tool::Select ==> *final(interaction) == (ViewportInteraction {
            mode: match old(interaction).mode {
                InteractionMode::Select { pick } => InteractionMode::Select { pick },
                _ => InteractionMode::Select { pick: None },
            },
            ..*old(interaction)
        }),
        tool == Tool::Delete ==> *final(interaction) == (ViewportInteraction {
            selected: None,
            selection_guide: None,
            mode: match old(interaction).mode {
                InteractionMode::Delete { pick } => InteractionMode::Delete { pick },
                _ => InteractionMode::Delete { pick: None },
            },
            ..*old(interaction)
        }),
{
    interaction.mode = match (tool, interaction.mode) {
        (Tool::Place, _) | (Tool::BlockSelect, _) | (Tool::Fill, _) => InteractionMode::Place,
        (Tool::Select, InteractionMode::Select { pick }) => InteractionMode::Select { pick },
        (Tool::Delete, InteractionMode::Delete { pick }) => InteractionMode::Delete { pick },
        (Tool::Select, _) => InteractionMode::Select { pick: None },
        (Tool::Delete, _) => InteractionMode::Delete { pick: None },
    };
    match tool {
        Tool::Place | Tool::BlockSelect | Tool::Fill => {
            interaction.cursor = None;
            interaction.hovered_area = None;
            interaction.selected = None;
            interaction.selection_guide = None;
        },
        Tool::Delete => {
            interaction.selected = None;
            interaction.selection_guide = None;
        },
        Tool::Select => {},
    }
}

/// Asks the map view to pick with `request`, unless it is placing.
pub fn request_pick<P: Copy, G: Copy>(interaction: &mut ViewportInteraction<P, G>, request: P)
    ensures
        *final(interaction) == (ViewportInteraction {
            mode: match old(interaction).mode {
                InteractionMode::Place => InteractionMode::Place,
                InteractionMode::Select { .. } => InteractionMode::Select { pick: Some(request) },
                InteractionMode::Delete { .. } => InteractionMode::Delete { pick: Some(request) },
            },
            ..*old(interaction)
        }),
{
    interaction.mode = match interaction.mode {
        InteractionMode::Place => InteractionMode::Place,
        InteractionMode::Select { .. } => InteractionMode::Select { pick: Some(request) },
        InteractionMode::Delete { .. } => InteractionMode::Delete { pick: Some(request) },
    };
}

/// The tooltip of a prefab: its path, then each variable it sets on a line of its own, as
/// `name = value` with the value as the map file writes it.
pub open spec fn spec_prefab_tooltip(path: Seq<char>, vars: Seq<(Seq<char>, Seq<char>)>) -> Seq<char>
    decreases vars.len(),
{
    if vars.len() == 0 {
        path
    } else {
        spec_prefab_tooltip(path, vars.drop_last()) + "\n"@ + vars.last().0 + " = "@ + vars.last().1
    }
}

pub fn prefab_tooltip(path: &str, vars: &Vec<(String, String)>) -> (tooltip: String)
    ensures
        tooltip@ == spec_prefab_tooltip(
            path@,
            vars@.map_values(|var: (String, String)| (var.0@, var.1@)),
        ),
{
    let ghost views = vars@.map_values(|var: (String, String)| (var.0@, var.1@));
    let mut tooltip = String::from_str(path);
    let mut i: usize = 0;
    proof {
        assert(views.take(0).len() == 0);
    }
    while i < vars.len()
        invariant
            views == vars@.map_values(|var: (String, String)| (var.0@, var.1@)),
            i <= vars@.len(),
            tooltip@ == spec_prefab_tooltip(path@, views.take(i as int)),
        decreases vars.len() - i,
    {
        proof {
            assert(views.take(i + 1).drop_last() =~= views.take(i as int));
            assert(views.take(i + 1).last() == (vars@[i as int].0@, vars@[i as int].1@));
        }
        tooltip.append("\n");
        tooltip.append(vars[i].0.as_str());
        tooltip.append(" = ");
        tooltip.append(vars[i].1.as_str());
        i = i + 1;
    }
    proof {
        assert(views.take(i as int) =~= views);
    }
    tooltip
}

} // verus!
