use devports::scan::model::{JoinedPortRecord, ScanRecord};
use devports::tui::app::{App, InputMode};
use devports::tui::keys::{map_key, Action, KeyCode, KeyInput};
use devports::tui::ui::{
    details_lines, footer_text, footer_title, help_lines, match_label, selected_line,
};
use devports::tui::{handle_action, Effect};

fn row(port: u16, pid: i32, command: &str, service: Option<&str>, configured: Option<u16>) -> JoinedPortRecord {
    JoinedPortRecord {
        service_name: service.map(|s| s.to_string()),
        configured_port: configured,
        record: ScanRecord {
            port,
            protocol: "tcp".to_string(),
            pid,
            ppid: None,
            pgid: None,
            command: command.to_string(),
            cwd: Some("/Users/Dev/Projects/Web".to_string()),
            repo_root: None,
        },
    }
}

fn sample() -> Vec<JoinedPortRecord> {
    vec![
        row(3000, 100, "node Vite", Some("web"), Some(3000)),
        row(4000, 200, "python api.py", Some("api"), Some(4001)),
        row(5432, 300, "postgres", None, None),
    ]
}

fn key(code: KeyCode) -> KeyInput {
    KeyInput { code, ctrl: false }
}

#[test]
fn new_app_selects_the_first_row() {
    let app = App::new(sample());
    assert_eq!(app.result_count(), 3);
    assert_eq!(app.total_count(), 3);
    assert_eq!(app.selected_position(), Some(0));
    assert_eq!(app.selected().unwrap().record.port, 3000);
    assert_eq!(app.mode(), InputMode::Normal);
    assert_eq!(
        app.status(),
        "Arrows navigate. Enter opens the selected service. ? shows all controls."
    );
    assert!(App::new(vec![]).selected().is_none());
}

#[test]
fn movement_is_clamped_to_the_visible_rows() {
    let mut app = App::new(sample());
    app.move_up();
    assert_eq!(app.selected_position(), Some(0));
    app.page_down();
    assert_eq!(app.selected_position(), Some(2));
    app.move_down();
    assert_eq!(app.selected_position(), Some(2));
    app.move_up();
    assert_eq!(app.selected_position(), Some(1));
    app.move_home();
    assert_eq!(app.selected_position(), Some(0));
    app.move_end();
    assert_eq!(app.selected_position(), Some(2));
    app.page_up();
    assert_eq!(app.selected_position(), Some(0));
}

#[test]
fn filter_is_case_insensitive_and_keeps_the_selection() {
    let mut app = App::new(sample());
    app.move_down();
    app.start_filter();
    assert_eq!(app.mode(), InputMode::Filter);
    for c in "API".chars() {
        app.push_filter_char(c);
    }
    assert_eq!(app.result_count(), 1);
    assert_eq!(app.selected().unwrap().record.port, 4000);
    assert_eq!(app.status(), "Filter 'API' matched 1 of 3 listeners.");
    for _ in 0..3 {
        app.pop_filter_char();
    }
    assert_eq!(app.result_count(), 3);
    assert_eq!(app.selected().unwrap().record.port, 4000);
    assert_eq!(app.status(), "3 listeners loaded. Enter opens service URLs, / starts filtering.");
    app.push_filter_char('v');
    app.push_filter_char('i');
    // "node Vite" matches through lowercasing; the cwd of every row holds
    // "Dev" but not "vi".
    assert_eq!(app.result_count(), 1);
    assert_eq!(app.selected().unwrap().record.port, 3000);
    app.finish_filter();
    assert_eq!(app.mode(), InputMode::Normal);
    assert_eq!(footer_text(&app), "filter: vi | Filter 'vi' matched 1 of 3 listeners.");
    assert_eq!(footer_title(&app), "Filter / Status");
}

#[test]
fn filter_matches_ports_pids_and_paths() {
    let mut app = App::new(sample());
    for c in "543".chars() {
        app.push_filter_char(c);
    }
    assert_eq!(app.result_count(), 1);
    assert_eq!(app.visible_rows()[0].record.port, 5432);
    let mut app = App::new(sample());
    app.push_filter_char('2');
    app.push_filter_char('0');
    app.push_filter_char('0');
    assert_eq!(app.result_count(), 1);
    assert_eq!(app.visible_rows()[0].record.pid, 200);
    let mut app = App::new(sample());
    for c in "projects/web".chars() {
        app.push_filter_char(c);
    }
    assert_eq!(app.result_count(), 3);
    let mut app = App::new(sample());
    app.push_filter_char('z');
    assert_eq!(app.result_count(), 0);
    assert!(app.selected().is_none());
    assert_eq!(selected_line(&app), "selected none");
    assert_eq!(
        details_lines(&app),
        vec![
            "No listeners match the current view.".to_string(),
            String::new(),
            "Press / to filter or r to rescan.".to_string(),
        ]
    );
}

#[test]
fn help_and_overlays() {
    let mut app = App::new(sample());
    app.start_filter();
    app.toggle_help();
    assert!(app.show_help());
    assert_eq!(app.mode(), InputMode::Normal);
    assert_eq!(app.status(), "Help: review controls, then press ? or Esc to close.");
    app.dismiss_overlay();
    assert!(!app.show_help());
    app.start_filter();
    app.dismiss_overlay();
    assert_eq!(app.mode(), InputMode::Normal);
    app.set_status("custom".to_string());
    assert_eq!(app.status(), "custom");
}

#[test]
fn set_rows_keeps_the_selected_index_when_visible() {
    let mut app = App::new(sample());
    app.move_end();
    app.set_rows(vec![row(1, 1, "a", None, None), row(2, 2, "b", None, None), row(3, 3, "c", None, None), row(4, 4, "d", None, None)]);
    assert_eq!(app.selected().unwrap().record.port, 3);
    app.set_rows(vec![row(9, 9, "x", None, None)]);
    assert_eq!(app.selected().unwrap().record.port, 9);
    app.set_rows(vec![]);
    assert!(app.selected().is_none());
}

#[test]
fn labels_and_details() {
    let rows = sample();
    assert_eq!(match_label(&rows[0]), "ok");
    assert_eq!(match_label(&rows[1]), "mismatch");
    assert_eq!(match_label(&rows[2]), "unmapped");
    let app = App::new(sample());
    assert_eq!(selected_line(&app), "selected web:3000");
    assert_eq!(
        details_lines(&app),
        vec![
            "Service: web",
            "Port: 3000",
            "State: ok",
            "PID: 100",
            "PGID: -",
            "Protocol: tcp",
            "Command: node Vite",
            "URL: http://127.0.0.1:3000",
            "Repo root: -",
            "Working dir: /Users/Dev/Projects/Web",
        ]
    );
}

#[test]
fn key_bindings_depend_on_mode_and_help() {
    assert_eq!(map_key(key(KeyCode::Char('q')), InputMode::Normal, false), Action::Quit);
    assert_eq!(map_key(key(KeyCode::Char('q')), InputMode::Filter, false), Action::Input('q'));
    assert_eq!(map_key(key(KeyCode::Char('q')), InputMode::Normal, true), Action::Cancel);
    assert_eq!(map_key(key(KeyCode::Enter), InputMode::Normal, false), Action::OpenService);
    assert_eq!(map_key(key(KeyCode::Enter), InputMode::Filter, false), Action::Confirm);
    assert_eq!(map_key(key(KeyCode::F(1)), InputMode::Normal, false), Action::ToggleHelp);
    assert_eq!(map_key(key(KeyCode::Char('K')), InputMode::Normal, false), Action::HardKill);
    assert_eq!(map_key(key(KeyCode::Char('d')), InputMode::Normal, false), Action::NoOp);
    assert_eq!(
        map_key(KeyInput { code: KeyCode::Char('d'), ctrl: true }, InputMode::Normal, false),
        Action::PageDown
    );
    assert_eq!(
        map_key(KeyInput { code: KeyCode::Char('x'), ctrl: true }, InputMode::Filter, false),
        Action::NoOp
    );
    assert_eq!(map_key(key(KeyCode::Backspace), InputMode::Filter, false), Action::Backspace);
    assert_eq!(map_key(key(KeyCode::Char('g')), InputMode::Normal, false), Action::Home);
}

#[test]
fn actions_change_state_or_ask_for_work() {
    let mut app = App::new(sample());
    assert_eq!(handle_action(&mut app, Action::Down), Effect::Stay);
    assert_eq!(app.selected_position(), Some(1));
    assert_eq!(handle_action(&mut app, Action::HardKill), Effect::HardKill);
    assert_eq!(app.selected_position(), Some(1));
    assert_eq!(handle_action(&mut app, Action::StartFilter), Effect::Stay);
    handle_action(&mut app, Action::Input('p'));
    handle_action(&mut app, Action::Input('o'));
    assert_eq!(app.result_count(), 1);
    handle_action(&mut app, Action::Backspace);
    handle_action(&mut app, Action::Backspace);
    assert_eq!(app.result_count(), 3);
    assert_eq!(handle_action(&mut app, Action::Confirm), Effect::Stay);
    assert_eq!(app.mode(), InputMode::Normal);
    assert_eq!(handle_action(&mut app, Action::Quit), Effect::Quit);
}

#[test]
fn help_lists_every_control_group() {
    let lines = help_lines();
    assert_eq!(lines.len(), 22);
    assert_eq!(lines[0], "Navigation");
    assert_eq!(lines[21], "  q                  Quit");
    assert!(lines.iter().any(|l| l.starts_with("  ? or F1")));
}

#[test]
fn new_app_without_filter_shows_every_row() {
    let app = App::new(sample());
    assert_eq!(app.visible_rows().len(), sample().len());
    assert_eq!(app.filter(), "");
}
