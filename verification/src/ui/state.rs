//! Decisions the main window takes each frame: what the save and screenshot shortcuts do, and
//! the confirmation before conflicts are loaded over unsaved changes, and which entries of the
//! menu bar are enabled (the Undo and Redo labels are `context_menu::history_label`).
use vstd::prelude::*;

verus! {

/// What pressing the save shortcut does.
#[derive(Debug, Clone, Copy, PartialEq, Eq, Structural)]
pub enum SaveShortcut {
    Nothing,
    /// Write the map where it was loaded from (a failure opens the save dialog with the error).
    SaveInPlace,
    /// Ask for a path first.
    OpenDialog,
}

/// Whether a shortcut reaches the map: a map is open, no save dialog is up, no key is being
/// captured for a binding and no text field has the keyboard.
pub open spec fn shortcut_reaches_map(map_open: bool, save_dialog_open: bool, capturing_key: bool, typing: bool) -> bool {
    map_open && !save_dialog_open && !capturing_key && !typing
}

/// A shortcut reaches the map exactly when a map is open and nothing else holds the keyboard:
/// not the save dialog, not the capture of a key binding, not a text field.
pub proof fn lemma_shortcuts_need_the_keyboard(map_open: bool, save_dialog_open: bool, capturing_key: bool, typing: bool)
    ensures
        !map_open ==> !shortcut_reaches_map(map_open, save_dialog_open, capturing_key, typing),
        save_dialog_open ==> !shortcut_reaches_map(map_open, save_dialog_open, capturing_key, typing),
        capturing_key ==> !shortcut_reaches_map(map_open, save_dialog_open, capturing_key, typing),
        typing ==> !shortcut_reaches_map(map_open, save_dialog_open, capturing_key, typing),
        map_open && !save_dialog_open && !capturing_key && !typing ==> shortcut_reaches_map(
            map_open,
            save_dialog_open,
            capturing_key,
            typing,
        ),
{
}

/// What the save shortcut does this frame: nothing unless it is pressed and reaches the map (and
/// the menu is not opening the save dialog already); then the map is saved in place when it can
/// be, else the save dialog opens.
pub fn save_shortcut(
    pressed: bool,
    map_open: bool,
    dialog_requested: bool,
    save_dialog_open: bool,
    capturing_key: bool,
    typing: bool,
    can_save_in_place: bool,
) -> (action: SaveShortcut)
    ensures
        !(pressed && !dialog_requested && shortcut_reaches_map(map_open, save_dialog_open, capturing_key, typing))
            ==> action == SaveShortcut::Nothing,
        pressed && !dialog_requested && shortcut_reaches_map(map_open, save_dialog_open, capturing_key, typing)
            ==> action == if can_save_in_place {
            SaveShortcut::SaveInPlace
        } else {
            SaveShortcut::OpenDialog
        },
        !pressed || dialog_requested || !map_open || save_dialog_open || capturing_key || typing ==> action
            == SaveShortcut::Nothing,
        pressed && !dialog_requested && map_open && !save_dialog_open && !capturing_key && !typing ==> action
            != SaveShortcut::Nothing && (action == SaveShortcut::SaveInPlace <==> can_save_in_place),
{
    proof {
        lemma_shortcuts_need_the_keyboard(map_open, save_dialog_open, capturing_key, typing);
    }
    if pressed && !dialog_requested && map_open && !save_dialog_open && !capturing_key && !typing {
        if can_save_in_place {
            SaveShortcut::SaveInPlace
        } else {
            SaveShortcut::OpenDialog
        }
    } else {
        SaveShortcut::Nothing
    }
}

/// Whether a screenshot is taken this frame: asked from the menu, or by its shortcut when that
/// reaches the map.
pub fn screenshot_requested(
    from_menu: bool,
    pressed: bool,
    map_open: bool,
    save_dialog_open: bool,
    capturing_key: bool,
    typing: bool,
) -> (requested: bool)
    ensures
        requested == (from_menu || (pressed && shortcut_reaches_map(
            map_open,
            save_dialog_open,
            capturing_key,
            typing,
        ))),
        from_menu ==> requested,
        !from_menu && (!pressed || !map_open || save_dialog_open || capturing_key || typing) ==> !requested,
        pressed && map_open && !save_dialog_open && !capturing_key && !typing ==> requested,
{
    proof {
        lemma_shortcuts_need_the_keyboard(map_open, save_dialog_open, capturing_key, typing);
    }
    from_menu || (pressed && map_open && !save_dialog_open && !capturing_key && !typing)
}

/// The answer given in the confirmation before conflicts are loaded over unsaved changes.
#[derive(Debug, Clone, Copy, PartialEq, Eq, Structural)]
pub enum ReloadChoice {
    /// Not answered (yet) this frame.
    Waiting,
    Discard,
    Cancel,
}

/// A request to load a map's merge conflicts, waiting for confirmation while the map has
/// unsaved changes.
#[derive(Debug, Clone, Copy, PartialEq, Eq, Structural)]
pub struct ConflictReload {
    pub pending: Option<u64>,
}

/// What one frame of the conflict reload does.
#[derive(Debug, Clone, Copy, PartialEq, Eq, Structural)]
pub struct ReloadStep {
    /// The map whose conflicts are loaded now.
    pub load: Option<u64>,
    /// Whether the confirmation is shown.
    pub confirm: bool,
}

impl ConflictReload {
    /// One frame: a new request (`requested`) replaces a waiting one; a map without unsaved
    /// changes (or one no longer open) loads at once; otherwise the confirmation shows, and
    /// "Discard and load" loads while "Cancel" drops the request.
    pub fn step(&mut self, requested: Option<u64>, dirty: bool, choice: ReloadChoice) -> (step: ReloadStep)
        ensures
            ({
                let pending = match requested {
                    Some(id) => Some(id),
                    None => old(self).pending,
                };
                match pending {
                    None => step == (ReloadStep { load: None, confirm: false }) && final(self).pending is None,
                    Some(id) => if !dirty {
                        step == (ReloadStep { load: Some(id), confirm: false }) && final(self).pending is None
                    } else {
                        &&& step.confirm
                        &&& step.load == if choice == ReloadChoice::Discard {
                            Some(id)
                        } else {
                            None
                        }
                        &&& final(self).pending == if choice == ReloadChoice::Waiting {
                            Some(id)
                        } else {
                            None
                        }
                    },
                }
            }),
    {
        if let Some(id) = requested {
            self.pending = Some(id);
        }
        match self.pending {
            None => ReloadStep { load: None, confirm: false },
            Some(id) => {
                if !dirty {
                    self.pending = None;
                    ReloadStep { load: Some(id), confirm: false }
                } else {
                    match choice {
                        ReloadChoice::Waiting => ReloadStep { load: None, confirm: true },
                        ReloadChoice::Discard => {
                            self.pending = None;
                            ReloadStep { load: Some(id), confirm: true }
                        },
                        ReloadChoice::Cancel => {
                            self.pending = None;
                            ReloadStep { load: None, confirm: true }
                        },
                    }
                }
            },
        }
    }
}

/// What the menu bar reads of the editor to enable its entries.
#[derive(Debug, Clone, Copy, PartialEq, Eq, Structural)]
pub struct MenuContext {
    /// A codebase is open.
    pub codebase: bool,
    /// A codebase or map is loading, or a failed load is still shown.
    pub loading: bool,
    /// The open codebase has maps in its recent list.
    pub has_recent: bool,
    /// A map is active.
    pub map: bool,
    /// Some open map has unsaved edits.
    pub any_dirty: bool,
    /// Some map is open.
    pub any_open: bool,
    /// A block is selected.
    pub selection: bool,
    /// Something was copied.
    pub clipboard: bool,
    /// An instance is selected.
    pub selected_instance: bool,
    /// There is an edit to undo.
    pub can_undo: bool,
    /// There is an edit to redo.
    pub can_redo: bool,
    /// Some type layer is hidden.
    pub hides_types: bool,
}

/// The entries of the menu bar that are not always enabled.
#[derive(Debug, Clone, Copy, PartialEq, Eq, Structural)]
pub enum MenuEntry {
    OpenCodebase,
    NewMap,
    OpenMap,
    RecentMaps,
    Save,
    SaveAll,
    Screenshot,
    ScreenshotSelection,
    CloseMap,
    CloseAll,
    Undo,
    Redo,
    Copy,
    Cut,
    Paste,
    Delete,
    Deselect,
    Search,
    GoTo,
    ResizeMap,
    TypeLayer,
    ShowAllLayers,
}

/// When an entry of the menu bar is enabled: opening a codebase only without one, new and open
/// map only with one, and none of the three while loading; recent maps when the codebase has
/// some and nothing loads; the map's entries with an active map; the edit commands with an
/// active map and something to act on; the type layers with a codebase.
pub open spec fn spec_menu_enabled(entry: MenuEntry, context: MenuContext) -> bool {
    match entry {
        MenuEntry::OpenCodebase => !context.codebase && !context.loading,
        MenuEntry::NewMap | MenuEntry::OpenMap => context.codebase && !context.loading,
        MenuEntry::RecentMaps => context.codebase && !context.loading && context.has_recent,
        MenuEntry::Save | MenuEntry::Screenshot | MenuEntry::CloseMap | MenuEntry::Search
        | MenuEntry::GoTo | MenuEntry::ResizeMap => context.map,
        MenuEntry::SaveAll => context.any_dirty,
        MenuEntry::ScreenshotSelection => context.map && context.selection,
        MenuEntry::CloseAll => context.any_open,
        MenuEntry::Undo => context.can_undo,
        MenuEntry::Redo => context.can_redo,
        MenuEntry::Copy | MenuEntry::Cut | MenuEntry::Delete => context.map && context.selection,
        MenuEntry::Paste => context.map && context.clipboard,
        MenuEntry::Deselect => context.map && (context.selection || context.selected_instance),
        MenuEntry::TypeLayer => context.codebase,
        MenuEntry::ShowAllLayers => context.hides_types,
    }
}

/// The entries that act on the active map.
pub open spec fn needs_map(entry: MenuEntry) -> bool {
    ||| entry == MenuEntry::Save
    ||| entry == MenuEntry::Screenshot
    ||| entry == MenuEntry::ScreenshotSelection
    ||| entry == MenuEntry::CloseMap
    ||| entry == MenuEntry::Copy
    ||| entry == MenuEntry::Cut
    ||| entry == MenuEntry::Paste
    ||| entry == MenuEntry::Delete
    ||| entry == MenuEntry::Deselect
    ||| entry == MenuEntry::Search
    ||| entry == MenuEntry::GoTo
    ||| entry == MenuEntry::ResizeMap
}

/// The entries that open a codebase or a map.
pub open spec fn opens_files(entry: MenuEntry) -> bool {
    ||| entry == MenuEntry::OpenCodebase
    ||| entry == MenuEntry::NewMap
    ||| entry == MenuEntry::OpenMap
    ||| entry == MenuEntry::RecentMaps
}

/// The menu bar follows what the editor has: Undo is enabled exactly when there is an edit to
/// undo and Redo exactly when there is one to redo; nothing that acts on a map is enabled
/// without an active map, and saving, screenshots, closing, searching, going to and resizing
/// are enabled with one; the block commands need a selection, Paste something copied and
/// Deselect a selection or a selected instance; nothing opens a codebase or a map while one
/// loads; a codebase can be opened only when none is open, and maps only when one is.
pub proof fn lemma_menu_follows_the_editor(entry: MenuEntry, context: MenuContext)
    ensures
        entry == MenuEntry::Undo ==> spec_menu_enabled(entry, context) == context.can_undo,
        entry == MenuEntry::Redo ==> spec_menu_enabled(entry, context) == context.can_redo,
        needs_map(entry) && !context.map ==> !spec_menu_enabled(entry, context),
        context.map && (entry == MenuEntry::Save || entry == MenuEntry::Screenshot || entry
            == MenuEntry::CloseMap || entry == MenuEntry::Search || entry == MenuEntry::GoTo || entry
            == MenuEntry::ResizeMap) ==> spec_menu_enabled(entry, context),
        context.map && (entry == MenuEntry::Copy || entry == MenuEntry::Cut || entry == MenuEntry::Delete
            || entry == MenuEntry::ScreenshotSelection) ==> spec_menu_enabled(entry, context)
            == context.selection,
        context.map && entry == MenuEntry::Paste ==> spec_menu_enabled(entry, context) == context.clipboard,
        context.map && entry == MenuEntry::Deselect ==> spec_menu_enabled(entry, context) == (
        context.selection || context.selected_instance),
        opens_files(entry) && context.loading ==> !spec_menu_enabled(entry, context),
        !context.loading && entry == MenuEntry::OpenCodebase ==> spec_menu_enabled(entry, context)
            == !context.codebase,
        !context.loading && (entry == MenuEntry::NewMap || entry == MenuEntry::OpenMap) ==> spec_menu_enabled(
            entry,
            context,
        ) == context.codebase,
        entry == MenuEntry::RecentMaps ==> (spec_menu_enabled(entry, context) <==> context.codebase
            && !context.loading && context.has_recent),
        entry == MenuEntry::SaveAll ==> spec_menu_enabled(entry, context) == context.any_dirty,
        entry == MenuEntry::CloseAll ==> spec_menu_enabled(entry, context) == context.any_open,
        entry == MenuEntry::TypeLayer ==> spec_menu_enabled(entry, context) == context.codebase,
        entry == MenuEntry::ShowAllLayers ==> spec_menu_enabled(entry, context) == context.hides_types,
{
}

/// Whether an entry of the menu bar is enabled.
pub fn menu_enabled(entry: MenuEntry, context: MenuContext) -> (enabled: bool)
    ensures
        enabled == spec_menu_enabled(entry, context),
        entry == MenuEntry::Undo ==> enabled == context.can_undo,
        entry == MenuEntry::Redo ==> enabled == context.can_redo,
        needs_map(entry) && !context.map ==> !enabled,
        opens_files(entry) && context.loading ==> !enabled,
{
    proof {
        lemma_menu_follows_the_editor(entry, context);
    }
    match entry {
        MenuEntry::OpenCodebase => !context.codebase && !context.loading,
        MenuEntry::NewMap | MenuEntry::OpenMap => context.codebase && !context.loading,
        MenuEntry::RecentMaps => context.codebase && !context.loading && context.has_recent,
        MenuEntry::Save | MenuEntry::Screenshot | MenuEntry::CloseMap | MenuEntry::Search
        | MenuEntry::GoTo | MenuEntry::ResizeMap => context.map,
        MenuEntry::SaveAll => context.any_dirty,
        MenuEntry::ScreenshotSelection => context.map && context.selection,
        MenuEntry::CloseAll => context.any_open,
        MenuEntry::Undo => context.can_undo,
        MenuEntry::Redo => context.can_redo,
        MenuEntry::Copy | MenuEntry::Cut | MenuEntry::Delete => context.map && context.selection,
        MenuEntry::Paste => context.map && context.clipboard,
        MenuEntry::Deselect => context.map && (context.selection || context.selected_instance),
        MenuEntry::TypeLayer => context.codebase,
        MenuEntry::ShowAllLayers => context.hides_types,
    }
}

} // verus!
