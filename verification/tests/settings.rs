use rmd_editor::ui::settings::{finish_keybind_capture, settings_keybinding_groups, KeybindAction, SettingsCategory};

#[test]
fn settings_categories_have_a_stable_order_and_default() {
    assert_eq!(SettingsCategory::default(), SettingsCategory::General);
    assert_eq!(
        SettingsCategory::ALL.map(SettingsCategory::label),
        ["General", "Viewport", "Compiler", "Git", "Object Tree", "Keybindings"]
    );
}

#[test]
fn settings_keybinding_groups_include_every_action_once() {
    let grouped = settings_keybinding_groups()
        .iter()
        .flat_map(|(_, actions)| actions.iter().copied())
        .collect::<Vec<_>>();

    assert_eq!(grouped.len(), KeybindAction::all().len());
    for action in KeybindAction::all() {
        assert_eq!(grouped.iter().filter(|candidate| **candidate == action).count(), 1);
    }
}

#[test]
fn keybinding_groups_keep_their_headings_and_the_number_row() {
    let groups = settings_keybinding_groups();
    let headings = groups.iter().map(|(heading, _)| *heading).collect::<Vec<_>>();
    assert_eq!(headings, ["Application", "Editing", "Viewport", "Tools", "Recent"]);
    assert_eq!(groups[4].1, KeybindAction::recent());
    assert_eq!(KeybindAction::recent().len(), 10);
    assert_eq!(KeybindAction::recent()[0], KeybindAction::Recent1);
    assert_eq!(KeybindAction::recent()[9], KeybindAction::Recent10);
    assert_eq!(groups[0].1, vec![KeybindAction::Save, KeybindAction::Screenshot]);
}

#[test]
fn a_key_capture_ends_on_escape_or_on_the_first_key_pressed() {
    let mut idle: Option<KeybindAction> = None;
    assert_eq!(finish_keybind_capture(&mut idle, false, Some('f')), None);
    assert_eq!(idle, None);

    let mut capturing = Some(KeybindAction::FillTool);
    assert_eq!(finish_keybind_capture::<char>(&mut capturing, false, None), None);
    assert_eq!(capturing, Some(KeybindAction::FillTool));
    assert_eq!(finish_keybind_capture(&mut capturing, false, Some('f')), Some((KeybindAction::FillTool, 'f')));
    assert_eq!(capturing, None);

    let mut cancelled = Some(KeybindAction::FillTool);
    assert_eq!(finish_keybind_capture(&mut cancelled, true, Some('f')), None);
    assert_eq!(cancelled, None);
}
