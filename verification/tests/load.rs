use rmd_editor::text::{grouped, shorten_path};
use rmd_editor::ui::load::{
    dismiss_load_popup,
    load_popup,
    LoadPopup,
    LoadPopupInput,
    DiagnosticSeverity,
    DiagnosticsState,
    LoadNotice,
    LoadReport,
    MAX_REPORTED_DIAGNOSTICS,
};

#[test]
fn load_a_short_path_is_left_alone_and_a_long_one_keeps_its_tail() {
    assert_eq!(shorten_path("code/game/area.dm", 60), "code/game/area.dm");
    assert_eq!(shorten_path("abcdef", 6), "abcdef");
    assert_eq!(shorten_path("abcdef", 4), "\u{2026}def");
    assert_eq!(shorten_path("", 8), "");
}

#[test]
fn load_file_counts_are_grouped_in_threes() {
    assert_eq!(grouped(0), "0");
    assert_eq!(grouped(7), "7");
    assert_eq!(grouped(999), "999");
    assert_eq!(grouped(1482), "1,482");
    assert_eq!(grouped(1_234_567), "1,234,567");
}

#[test]
fn load_a_load_notice_keeps_the_job_title_and_message() {
    let notice = LoadNotice::failed("Opening codebase", "game/tg.dme", "no such file");

    assert_eq!(
        notice,
        LoadNotice::Failed {
            title: String::from("Opening codebase failed"),
            path: String::from("game/tg.dme"),
            message: String::from("no such file"),
        }
    );
}

#[test]
fn diagnostics_accumulate_by_map_and_replace_reopened_map_results() {
    let mut state = DiagnosticsState::default();
    state.set_codebase(LoadReport {
        warnings: 1,
        warning_lines: vec![String::from("codebase warning")],
        ..LoadReport::default()
    });
    assert_eq!(state.count(DiagnosticSeverity::Warning), 1);
    assert_eq!(state.open, None);

    state.set_map(
        String::from("b.dmm"),
        LoadReport {
            errors: 2,
            error_lines: vec![String::from("b.dmm: first"), String::from("b.dmm: second")],
            ..LoadReport::default()
        },
    );
    state.set_map(
        String::from("a.dmm"),
        LoadReport {
            errors: 1,
            error_lines: vec![String::from("a.dmm: error")],
            ..LoadReport::default()
        },
    );
    assert_eq!(state.count(DiagnosticSeverity::Error), 3);
    assert_eq!(state.open, Some(DiagnosticSeverity::Error));
    assert_eq!(
        state.text(DiagnosticSeverity::Error).0,
        "a.dmm: error\nb.dmm: first\nb.dmm: second"
    );

    state.open = None;
    assert_eq!(state.count(DiagnosticSeverity::Error), 3);
    state.set_map(String::from("b.dmm"), LoadReport::default());
    assert_eq!(state.count(DiagnosticSeverity::Error), 1);
    assert_eq!(state.open, None);
}

#[test]
fn failed_loads_remain_visible_until_a_successful_codebase_replaces_them() {
    let mut state = DiagnosticsState::default();
    state.set_failed_codebase(LoadReport::failure("game.dme", "game.dme", "cannot read file"));
    assert_eq!(state.count(DiagnosticSeverity::Error), 1);
    assert_eq!(state.open, Some(DiagnosticSeverity::Error));
    state.open = None;
    assert!(
        state
            .text(DiagnosticSeverity::Error)
            .0
            .contains("game.dme: cannot read file")
    );

    state.set_codebase(LoadReport::default());
    assert_eq!(state.count(DiagnosticSeverity::Error), 0);
    assert!(state.failed_codebase.is_none());
}

#[test]
fn a_reloaded_map_replaces_its_lines_and_keeps_the_others() {
    let mut state = DiagnosticsState::default();
    state.set_map(
        String::from("a.dmm"),
        LoadReport { warnings: 1, warning_lines: vec![String::from("a: old")], ..LoadReport::default() },
    );
    state.set_map(
        String::from("c.dmm"),
        LoadReport { warnings: 1, warning_lines: vec![String::from("c: kept")], ..LoadReport::default() },
    );
    state.set_map(
        String::from("a.dmm"),
        LoadReport { warnings: 1, warning_lines: vec![String::from("a: new")], ..LoadReport::default() },
    );
    assert_eq!(state.maps.len(), 2);
    assert_eq!(state.text(DiagnosticSeverity::Warning), (String::from("a: new\nc: kept"), 2));
    assert_eq!(state.count(DiagnosticSeverity::Warning), 2);
    assert_eq!(state.open, None, "warnings do not open the list by themselves");
}

#[test]
fn the_codebase_and_its_failure_come_before_the_maps() {
    let mut state = DiagnosticsState::default();
    state.set_codebase(LoadReport {
        errors: 1,
        error_lines: vec![String::from("codebase")],
        ..LoadReport::default()
    });
    assert_eq!(state.open, Some(DiagnosticSeverity::Error));
    state.set_map(
        String::from("m.dmm"),
        LoadReport { errors: 1, error_lines: vec![String::from("map")], ..LoadReport::default() },
    );
    state.set_failed_codebase(LoadReport::failure("Opening codebase", "x.dme", "gone"));
    assert_eq!(
        state.text(DiagnosticSeverity::Error),
        (String::from("codebase\nx.dme: gone\nmap"), 3)
    );
}

#[test]
fn an_emptied_list_closes() {
    let mut state = DiagnosticsState::default();
    state.set_map(
        String::from("m.dmm"),
        LoadReport { errors: 1, error_lines: vec![String::from("map")], ..LoadReport::default() },
    );
    assert_eq!(state.open, Some(DiagnosticSeverity::Error));
    state.set_map(String::from("m.dmm"), LoadReport::default());
    assert_eq!(state.open, None);
    assert!(state.maps.is_empty());
}

#[test]
fn the_popup_shows_at_most_the_reported_maximum() {
    let lines = (0..MAX_REPORTED_DIAGNOSTICS + 5).map(|i| format!("line {i}")).collect::<Vec<_>>();
    let mut state = DiagnosticsState::default();
    state.set_codebase(LoadReport {
        warnings: lines.len(),
        warning_lines: lines.clone(),
        ..LoadReport::default()
    });
    let (text, shown) = state.text(DiagnosticSeverity::Warning);
    assert_eq!(shown, MAX_REPORTED_DIAGNOSTICS);
    assert_eq!(text, lines[..MAX_REPORTED_DIAGNOSTICS].join("\n"));
    assert_eq!(state.count(DiagnosticSeverity::Warning), MAX_REPORTED_DIAGNOSTICS + 5);
}

#[test]
fn an_empty_report_is_not_kept() {
    let mut state = DiagnosticsState::default();
    state.set_codebase(LoadReport::default());
    assert!(state.codebase.is_none());
    assert!(LoadReport::default().is_empty());
    assert!(!LoadReport::failure("t", "p", "m").is_empty());
    assert_eq!(LoadReport::failure("t", "p", "m").lines(DiagnosticSeverity::Error), &vec![String::from("p: m")]);
}

#[test]
fn map_paths_are_compared_component_by_component() {
    let mut state = DiagnosticsState::default();
    let report = |line: &str| LoadReport { warnings: 1, warning_lines: vec![String::from(line)], ..LoadReport::default() };
    state.set_map(String::from("maps/a-b.dmm"), report("dash"));
    state.set_map(String::from("maps/a/b.dmm"), report("slash"));
    assert_eq!(
        state.text(DiagnosticSeverity::Warning).0,
        "slash\ndash",
        "the directory `a` comes before the file name `a-b.dmm`"
    );

    state.set_map(String::from("maps//a/./b.dmm"), report("same path"));
    assert_eq!(state.maps.len(), 2, "repeated separators and `.` name the same path");
    assert_eq!(state.text(DiagnosticSeverity::Warning).0, "same path\ndash");
}

fn input(escape: bool, cancel: bool, close: bool, copy: bool) -> LoadPopupInput {
    LoadPopupInput { escape, cancel_clicked: cancel, close_clicked: close, copy_clicked: copy }
}

#[test]
fn the_loading_popup_cancels_dismisses_and_copies_what_it_shows() {
    let mut state = DiagnosticsState::default();
    state.set_codebase(LoadReport {
        warnings: 2,
        errors: 0,
        warning_lines: vec![String::from("a.dm:1: odd"), String::from("b.dm:2: odd")],
        error_lines: vec![],
    });
    let none = None;
    let quiet = LoadPopup { cancel: false, dismiss: false, copy: None };

    assert_eq!(load_popup(None, &none, &state, input(true, false, true, true)), quiet);
    assert_eq!(
        load_popup(Some(true), &none, &state, input(true, false, false, false)),
        LoadPopup { cancel: true, dismiss: false, copy: None }
    );
    assert_eq!(load_popup(Some(false), &none, &state, input(true, true, false, false)), quiet);

    let failed = Some(LoadNotice::failed("Opening codebase", "game/tg.dme", "no such file"));
    assert_eq!(
        load_popup(None, &failed, &state, input(false, false, false, true)),
        LoadPopup { cancel: false, dismiss: false, copy: Some(String::from("no such file")) }
    );

    state.open = Some(DiagnosticSeverity::Warning);
    assert_eq!(
        load_popup(None, &none, &state, input(false, false, true, true)),
        LoadPopup { cancel: false, dismiss: true, copy: Some(String::from("a.dm:1: odd\nb.dm:2: odd")) }
    );

    let mut notice = failed.clone();
    dismiss_load_popup(&mut notice, &mut state);
    assert!(notice.is_none());
    assert_eq!(state.open, Some(DiagnosticSeverity::Warning));
    dismiss_load_popup(&mut notice, &mut state);
    assert_eq!(state.open, None);
}
