//! The sections of the settings window, and the order the keybindings are listed in.
use vstd::prelude::*;

verus! {

/// The sections of the settings window, listed down its left side.
#[derive(Debug, Clone, Copy, PartialEq, Eq, Structural)]
pub enum SettingsCategory {
    General,
    Viewport,
    Compiler,
    Git,
    ObjectTree,
    Keybindings,
}

impl Default for SettingsCategory {
    fn default() -> (category: Self)
        ensures
            category == SettingsCategory::General,
    {
        SettingsCategory::General
    }
}

impl SettingsCategory {
    /// Every section, in the order they are listed.
    pub const ALL: [SettingsCategory; 6] = [
        SettingsCategory::General,
        SettingsCategory::Viewport,
        SettingsCategory::Compiler,
        SettingsCategory::Git,
        SettingsCategory::ObjectTree,
        SettingsCategory::Keybindings,
    ];

    pub fn label(self) -> (label: &'static str)
        ensures
            label@ == match self {
                SettingsCategory::General => "General"@,
                SettingsCategory::Viewport => "Viewport"@,
                SettingsCategory::Compiler => "Compiler"@,
                SettingsCategory::Git => "Git"@,
                SettingsCategory::ObjectTree => "Object Tree"@,
                SettingsCategory::Keybindings => "Keybindings"@,
            },
    {
        match self {
            SettingsCategory::General => "General",
            SettingsCategory::Viewport => "Viewport",
            SettingsCategory::Compiler => "Compiler",
            SettingsCategory::Git => "Git",
            SettingsCategory::ObjectTree => "Object Tree",
            SettingsCategory::Keybindings => "Keybindings",
        }
    }
}

/// Everything a key can be bound to.
#[derive(Debug, Clone, Copy, PartialEq, Eq, Structural)]
pub enum KeybindAction {
    Save,
    Screenshot,
    Undo,
    Redo,
    Copy,
    Cut,
    Delete,
    Paste,
    Find,
    FindNext,
    FindPrevious,
    ToggleAreaLayer,
    ToggleTurfLayer,
    ToggleObjLayer,
    ToggleMobLayer,
    ShowAllLayers,
    ShowAreas,
    ShowAreaOutlines,
    ShowLighting,
    ShowTileGrid,
    ShowPixelGrid,
    LevelUp,
    LevelDown,
    Refit,
    GoTo,
    PlaceTool,
    SelectTool,
    NodeTool,
    BlockSelectTool,
    DeleteTool,
    ReplaceTool,
    FillTool,
    Rotate,
    ToolAlternate,
    Recent1,
    Recent2,
    Recent3,
    Recent4,
    Recent5,
    Recent6,
    Recent7,
    Recent8,
    Recent9,
    Recent10,
}

/// Where an action stands in the list of all actions.
pub open spec fn action_index(action: KeybindAction) -> int {
    match action {
        KeybindAction::Save => 0,
        KeybindAction::Screenshot => 1,
        KeybindAction::Undo => 2,
        KeybindAction::Redo => 3,
        KeybindAction::Copy => 4,
        KeybindAction::Cut => 5,
        KeybindAction::Delete => 6,
        KeybindAction::Paste => 7,
        KeybindAction::Find => 8,
        KeybindAction::FindNext => 9,
        KeybindAction::FindPrevious => 10,
        KeybindAction::ToggleAreaLayer => 11,
        KeybindAction::ToggleTurfLayer => 12,
        KeybindAction::ToggleObjLayer => 13,
        KeybindAction::ToggleMobLayer => 14,
        KeybindAction::ShowAllLayers => 15,
        KeybindAction::ShowAreas => 16,
        KeybindAction::ShowAreaOutlines => 17,
        KeybindAction::ShowLighting => 18,
        KeybindAction::ShowTileGrid => 19,
        KeybindAction::ShowPixelGrid => 20,
        KeybindAction::LevelUp => 21,
        KeybindAction::LevelDown => 22,
        KeybindAction::Refit => 23,
        KeybindAction::GoTo => 24,
        KeybindAction::PlaceTool => 25,
        KeybindAction::SelectTool => 26,
        KeybindAction::NodeTool => 27,
        KeybindAction::BlockSelectTool => 28,
        KeybindAction::DeleteTool => 29,
        KeybindAction::ReplaceTool => 30,
        KeybindAction::FillTool => 31,
        KeybindAction::Rotate => 32,
        KeybindAction::ToolAlternate => 33,
        KeybindAction::Recent1 => 34,
        KeybindAction::Recent2 => 35,
        KeybindAction::Recent3 => 36,
        KeybindAction::Recent4 => 37,
        KeybindAction::Recent5 => 38,
        KeybindAction::Recent6 => 39,
        KeybindAction::Recent7 => 40,
        KeybindAction::Recent8 => 41,
        KeybindAction::Recent9 => 42,
        KeybindAction::Recent10 => 43,
    }
}

/// Every action, in the order the settings window lists them.
pub open spec fn spec_all_actions() -> Seq<KeybindAction> {
    seq![
        KeybindAction::Save,
        KeybindAction::Screenshot,
        KeybindAction::Undo,
        KeybindAction::Redo,
        KeybindAction::Copy,
        KeybindAction::Cut,
        KeybindAction::Delete,
        KeybindAction::Paste,
        KeybindAction::Find,
        KeybindAction::FindNext,
        KeybindAction::FindPrevious,
        KeybindAction::ToggleAreaLayer,
        KeybindAction::ToggleTurfLayer,
        KeybindAction::ToggleObjLayer,
        KeybindAction::ToggleMobLayer,
        KeybindAction::ShowAllLayers,
        KeybindAction::ShowAreas,
        KeybindAction::ShowAreaOutlines,
        KeybindAction::ShowLighting,
        KeybindAction::ShowTileGrid,
        KeybindAction::ShowPixelGrid,
        KeybindAction::LevelUp,
        KeybindAction::LevelDown,
        KeybindAction::Refit,
        KeybindAction::GoTo,
        KeybindAction::PlaceTool,
        KeybindAction::SelectTool,
        KeybindAction::NodeTool,
        KeybindAction::BlockSelectTool,
        KeybindAction::DeleteTool,
        KeybindAction::ReplaceTool,
        KeybindAction::FillTool,
        KeybindAction::Rotate,
        KeybindAction::ToolAlternate,
        KeybindAction::Recent1,
        KeybindAction::Recent2,
        KeybindAction::Recent3,
        KeybindAction::Recent4,
        KeybindAction::Recent5,
        KeybindAction::Recent6,
        KeybindAction::Recent7,
        KeybindAction::Recent8,
        KeybindAction::Recent9,
        KeybindAction::Recent10,
    ]
}

/// The actions of the number row, slot by slot.
pub open spec fn spec_recent_actions() -> Seq<KeybindAction> {
    seq![
        KeybindAction::Recent1,
        KeybindAction::Recent2,
        KeybindAction::Recent3,
        KeybindAction::Recent4,
        KeybindAction::Recent5,
        KeybindAction::Recent6,
        KeybindAction::Recent7,
        KeybindAction::Recent8,
        KeybindAction::Recent9,
        KeybindAction::Recent10,
    ]
}

impl KeybindAction {
    /// Every action, in the order the settings window lists them.
    pub fn all() -> (actions: Vec<KeybindAction>)
        ensures
            actions@ == spec_all_actions(),
    {
        let actions = vec![
            KeybindAction::Save,
            KeybindAction::Screenshot,
            KeybindAction::Undo,
            KeybindAction::Redo,
            KeybindAction::Copy,
            KeybindAction::Cut,
            KeybindAction::Delete,
            KeybindAction::Paste,
            KeybindAction::Find,
            KeybindAction::FindNext,
            KeybindAction::FindPrevious,
            KeybindAction::ToggleAreaLayer,
            KeybindAction::ToggleTurfLayer,
            KeybindAction::ToggleObjLayer,
            KeybindAction::ToggleMobLayer,
            KeybindAction::ShowAllLayers,
            KeybindAction::ShowAreas,
            KeybindAction::ShowAreaOutlines,
            KeybindAction::ShowLighting,
            KeybindAction::ShowTileGrid,
            KeybindAction::ShowPixelGrid,
            KeybindAction::LevelUp,
            KeybindAction::LevelDown,
            KeybindAction::Refit,
            KeybindAction::GoTo,
            KeybindAction::PlaceTool,
            KeybindAction::SelectTool,
            KeybindAction::NodeTool,
            KeybindAction::BlockSelectTool,
            KeybindAction::DeleteTool,
            KeybindAction::ReplaceTool,
            KeybindAction::FillTool,
            KeybindAction::Rotate,
            KeybindAction::ToolAlternate,
            KeybindAction::Recent1,
            KeybindAction::Recent2,
            KeybindAction::Recent3,
            KeybindAction::Recent4,
            KeybindAction::Recent5,
            KeybindAction::Recent6,
            KeybindAction::Recent7,
            KeybindAction::Recent8,
            KeybindAction::Recent9,
            KeybindAction::Recent10,
        ];
        proof {
            assert(actions@ =~= spec_all_actions());
        }
        actions
    }

    /// The actions of the number row, slot by slot.
    pub fn recent() -> (actions: Vec<KeybindAction>)
        ensures
            actions@ == spec_recent_actions(),
    {
        let actions = vec![
            KeybindAction::Recent1,
            KeybindAction::Recent2,
            KeybindAction::Recent3,
            KeybindAction::Recent4,
            KeybindAction::Recent5,
            KeybindAction::Recent6,
            KeybindAction::Recent7,
            KeybindAction::Recent8,
            KeybindAction::Recent9,
            KeybindAction::Recent10,
        ];
        proof {
            assert(actions@ =~= spec_recent_actions());
        }
        actions
    }
}

/// The headings of the keybinding list and the actions under each.
pub open spec fn spec_keybinding_groups() -> Seq<(Seq<char>, Seq<KeybindAction>)> {
    seq![
        ("Application"@, seq![KeybindAction::Save, KeybindAction::Screenshot]),
        ("Editing"@, seq![KeybindAction::Undo, KeybindAction::Redo, KeybindAction::Copy, KeybindAction::Cut, KeybindAction::Delete, KeybindAction::Paste, KeybindAction::Find, KeybindAction::FindNext, KeybindAction::FindPrevious]),
        ("Viewport"@, seq![KeybindAction::ToggleAreaLayer, KeybindAction::ToggleTurfLayer, KeybindAction::ToggleObjLayer, KeybindAction::ToggleMobLayer, KeybindAction::ShowAllLayers, KeybindAction::ShowAreas, KeybindAction::ShowAreaOutlines, KeybindAction::ShowLighting, KeybindAction::ShowTileGrid, KeybindAction::ShowPixelGrid, KeybindAction::LevelUp, KeybindAction::LevelDown, KeybindAction::Refit, KeybindAction::GoTo]),
        ("Tools"@, seq![KeybindAction::PlaceTool, KeybindAction::SelectTool, KeybindAction::NodeTool, KeybindAction::BlockSelectTool, KeybindAction::DeleteTool, KeybindAction::ReplaceTool, KeybindAction::FillTool, KeybindAction::Rotate, KeybindAction::ToolAlternate]),
        ("Recent"@, spec_recent_actions()),
    ]
}

/// The actions of `groups`, one heading after another.
pub open spec fn grouped_actions(groups: Seq<(Seq<char>, Seq<KeybindAction>)>) -> Seq<KeybindAction>
    decreases groups.len(),
{
    if groups.len() == 0 {
        Seq::empty()
    } else {
        grouped_actions(groups.drop_last()) + groups.last().1
    }
}

/// The headings of the keybinding list and the actions under each.
pub fn settings_keybinding_groups() -> (groups: Vec<(&'static str, Vec<KeybindAction>)>)
    ensures
        groups@.len() == spec_keybinding_groups().len(),
        forall|i: int|
            0 <= i < groups@.len() ==> (#[trigger] groups@[i]).0@ == spec_keybinding_groups()[i].0
                && groups@[i].1@ == spec_keybinding_groups()[i].1,
{
    let application = vec![KeybindAction::Save, KeybindAction::Screenshot];
    let editing = vec![KeybindAction::Undo, KeybindAction::Redo, KeybindAction::Copy, KeybindAction::Cut, KeybindAction::Delete, KeybindAction::Paste, KeybindAction::Find, KeybindAction::FindNext, KeybindAction::FindPrevious];
    let viewport = vec![KeybindAction::ToggleAreaLayer, KeybindAction::ToggleTurfLayer, KeybindAction::ToggleObjLayer, KeybindAction::ToggleMobLayer, KeybindAction::ShowAllLayers, KeybindAction::ShowAreas, KeybindAction::ShowAreaOutlines, KeybindAction::ShowLighting, KeybindAction::ShowTileGrid, KeybindAction::ShowPixelGrid, KeybindAction::LevelUp, KeybindAction::LevelDown, KeybindAction::Refit, KeybindAction::GoTo];
    let tools = vec![KeybindAction::PlaceTool, KeybindAction::SelectTool, KeybindAction::NodeTool, KeybindAction::BlockSelectTool, KeybindAction::DeleteTool, KeybindAction::ReplaceTool, KeybindAction::FillTool, KeybindAction::Rotate, KeybindAction::ToolAlternate];
    let groups = vec![
        ("Application", application),
        ("Editing", editing),
        ("Viewport", viewport),
        ("Tools", tools),
        ("Recent", KeybindAction::recent()),
    ];
    proof {
        assert(groups@[0].1@ =~= spec_keybinding_groups()[0].1);
        assert(groups@[1].1@ =~= spec_keybinding_groups()[1].1);
        assert(groups@[2].1@ =~= spec_keybinding_groups()[2].1);
        assert(groups@[3].1@ =~= spec_keybinding_groups()[3].1);
        reveal_strlit("Application");
        reveal_strlit("Editing");
        reveal_strlit("Viewport");
        reveal_strlit("Tools");
        reveal_strlit("Recent");
    }
    groups
}

/// The keybinding list shows every action exactly once: its groups, one after another, are the
/// list of all actions, which holds each action once.
pub proof fn lemma_keybinding_groups_list_every_action_once()
    ensures
        grouped_actions(spec_keybinding_groups()) == spec_all_actions(),
        spec_all_actions().no_duplicates(),
        forall|action: KeybindAction| #[trigger] spec_all_actions().contains(action),
{
    let groups = spec_keybinding_groups();
    reveal_with_fuel(grouped_actions, 6);
    assert(grouped_actions(groups) =~= spec_all_actions());
    let all = spec_all_actions();
    assert forall|i: int| 0 <= i < all.len() implies action_index(#[trigger] all[i]) == i by {}
    assert forall|action: KeybindAction| #[trigger] all.contains(action) by {
        assert(all[action_index(action)] == action);
    }
}

/// One frame of capturing a key for the action being rebound (`capturing`): Escape gives up
/// the capture; otherwise the first bindable key pressed (`pressed`) is returned with the action
/// to bind it to, which ends the capture. With nothing pressed the capture goes on.
pub fn finish_keybind_capture<K>(capturing: &mut Option<KeybindAction>, escape: bool, pressed: Option<K>) -> (rebind:
    Option<(KeybindAction, K)>)
    ensures
        (*old(capturing)) is None ==> rebind is None && *final(capturing) == *old(capturing),
        (*old(capturing)) is Some && escape ==> rebind is None && (*final(capturing)) is None,
        (*old(capturing)) is Some && !escape && pressed is None ==> rebind is None
            && *final(capturing) == *old(capturing),
        (*old(capturing)) is Some && !escape && pressed is Some ==> rebind == Some(
            ((*old(capturing))->0, pressed->0),
        ) && (*final(capturing)) is None,
{
    let action = match *capturing {
        Some(action) => action,
        None => return None,
    };
    if escape {
        *capturing = None;
        return None;
    }
    match pressed {
        Some(key) => {
            *capturing = None;
            Some((action, key))
        },
        None => None,
    }
}

} // verus!
