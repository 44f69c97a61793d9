//! The text that the browser shows: the match state of a row, the selection
//! summary, the details of the selected listener and the footer.

use vstd::prelude::*;
use crate::scan::model::{JoinedPortRecord, JoinedView};
use crate::text::{dec, dec_int, push_dec, push_dec_signed, push_str, string_of, string_views};
use crate::tui::app::{selected_index, App, InputMode};

verus! {

/// `ok` when the listener is on its service's configured port, `mismatch`
/// when it belongs to a service configured for another port, `unmapped`
/// when it belongs to none.
pub open spec fn spec_match_label(row: JoinedView) -> Seq<char> {
    match (row.service_name, row.configured_port) {
        (Some(_), Some(expected)) => if expected == row.record.port {
            "ok"@
        } else {
            "mismatch"@
        },
        _ => "unmapped"@,
    }
}

/// The match state of a row.
pub fn match_label(row: &JoinedPortRecord) -> (s: &'static str)
    ensures
        s@ == spec_match_label(row@),
{
    match (&row.service_name, row.configured_port) {
        (Some(_), Some(expected)) => if expected == row.record.port {
            "ok"
        } else {
            "mismatch"
        },
        _ => "unmapped",
    }
}

pub open spec fn name_or(o: Option<Seq<char>>, fallback: Seq<char>) -> Seq<char> {
    match o {
        Some(n) => n,
        None => fallback,
    }
}

/// The row the selection is on, if any.
pub open spec fn spec_selected_row(app: App) -> Option<JoinedView> {
    match selected_index(app@.filtered, app@.selected) {
        Some(i) => if i < app@.rows.len() {
            Some(app@.rows[i as int])
        } else {
            None
        },
        None => None,
    }
}

/// `selected <service>:<port>`, or `selected none`.
pub open spec fn spec_selected_line(app: App) -> Seq<char> {
    match spec_selected_row(app) {
        Some(row) => "selected "@ + name_or(row.service_name, "-"@) + ":"@ + dec(
            row.record.port as nat,
        ),
        None => "selected none"@,
    }
}

fn push_opt(out: &mut String, o: &Option<String>, fallback: &str)
    ensures
        final(out)@ == old(out)@ + name_or(crate::scan::model::opt_view(*o), fallback@),
{
    match o {
        Some(s) => push_str(out, s.as_str()),
        None => push_str(out, fallback),
    }
}

/// The selection summary of the session bar.
pub fn selected_line(app: &App) -> (s: String)
    ensures
        s@ == spec_selected_line(*app),
{
    match app.selected() {
        Some(row) => {
            let mut s = string_of("selected ");
            push_opt(&mut s, &row.service_name, "-");
            push_str(&mut s, ":");
            push_dec(&mut s, row.record.port as u64);
            s
        },
        None => string_of("selected none"),
    }
}

/// The details panel, line by line.
pub open spec fn spec_details(app: App) -> Seq<Seq<char>> {
    match spec_selected_row(app) {
        None => seq![
            "No listeners match the current view."@,
            Seq::empty(),
            "Press / to filter or r to rescan."@,
        ],
        Some(row) => seq![
            "Service: "@ + name_or(row.service_name, "unmapped"@),
            "Port: "@ + dec(row.record.port as nat),
            "State: "@ + spec_match_label(row),
            "PID: "@ + dec_int(row.record.pid as int),
            "PGID: "@ + match row.record.pgid {
                Some(g) => dec_int(g as int),
                None => "-"@,
            },
            "Protocol: "@ + row.record.protocol,
            "Command: "@ + row.record.command,
            "URL: "@ + crate::spec_local_url(row.record.port),
            "Repo root: "@ + name_or(row.record.repo_root, "-"@),
            "Working dir: "@ + name_or(row.record.cwd, "-"@),
        ],
    }
}

fn labeled(label: &str, value: &str) -> (s: String)
    ensures
        s@ == label@ + value@,
{
    let mut s = string_of(label);
    push_str(&mut s, value);
    s
}

/// The lines of the details panel for the selected listener.
pub fn details_lines(app: &App) -> (lines: Vec<String>)
    ensures
        string_views(lines@) == spec_details(*app),
{
    let mut lines: Vec<String> = Vec::new();
    match app.selected() {
        None => {
            lines.push(string_of("No listeners match the current view."));
            lines.push(String::new());
            lines.push(string_of("Press / to filter or r to rescan."));
            assert(string_views(lines@) =~= spec_details(*app));
        },
        Some(row) => {
            let mut l0 = string_of("Service: ");
            push_opt(&mut l0, &row.service_name, "unmapped");
            lines.push(l0);
            let mut l1 = string_of("Port: ");
            push_dec(&mut l1, row.record.port as u64);
            lines.push(l1);
            lines.push(labeled("State: ", match_label(row)));
            let mut l3 = string_of("PID: ");
            push_dec_signed(&mut l3, row.record.pid as i64);
            lines.push(l3);
            let mut l4 = string_of("PGID: ");
            match row.record.pgid {
                Some(g) => push_dec_signed(&mut l4, g as i64),
                None => push_str(&mut l4, "-"),
            }
            lines.push(l4);
            lines.push(labeled("Protocol: ", row.record.protocol.as_str()));
            lines.push(labeled("Command: ", row.record.command.as_str()));
            let url = crate::service_url(row.record.port);
            lines.push(labeled("URL: ", url.as_str()));
            let mut l8 = string_of("Repo root: ");
            push_opt(&mut l8, &row.record.repo_root, "-");
            lines.push(l8);
            let mut l9 = string_of("Working dir: ");
            push_opt(&mut l9, &row.record.cwd, "-");
            lines.push(l9);
            assert(string_views(lines@) =~= spec_details(*app));
        },
    }
    lines
}

/// The footer's title: it says when the filter is being edited.
pub fn footer_title(app: &App) -> (s: &'static str)
    ensures
        s@ == if app@.mode == InputMode::Filter {
            "Filter (editing)"@
        } else {
            "Filter / Status"@
        },
{
    if app.mode() == InputMode::Filter {
        "Filter (editing)"
    } else {
        "Filter / Status"
    }
}

/// The footer's text: the filter being edited with a cursor, else the status
/// line, after the filter when there is one.
pub open spec fn spec_footer_text(app: App) -> Seq<char> {
    if app@.mode == InputMode::Filter {
        "filter: "@ + app@.filter + "_"@
    } else if app@.filter.len() == 0 {
        app@.status
    } else {
        "filter: "@ + app@.filter + " | "@ + app@.status
    }
}

/// The footer's text.
pub fn footer_text(app: &App) -> (s: String)
    ensures
        s@ == spec_footer_text(*app),
{
    let filter = app.filter();
    if app.mode() == InputMode::Filter {
        let mut s = string_of("filter: ");
        push_str(&mut s, filter.as_str());
        push_str(&mut s, "_");
        s
    } else if crate::text::chars_of(filter.as_str()).len() == 0 {
        app.status().clone()
    } else {
        let mut s = string_of("filter: ");
        push_str(&mut s, filter.as_str());
        push_str(&mut s, " | ");
        push_str(&mut s, app.status().as_str());
        s
    }
}


/// The help overlay: the controls that `map_key` binds, grouped by purpose.
pub open spec fn spec_help_lines() -> Seq<Seq<char>> {
    seq![
        "Navigation"@,
        "  Up/Down or j       Move one row"@,
        "  Home/End or g/G    Jump to first or last row"@,
        "  PageUp/PageDown    Move by larger steps"@,
        ""@,
        "Actions"@,
        "  Enter or o         Open selected service URL"@,
        "  k                  Graceful terminate selected listener"@,
        "  K                  Force kill selected listener"@,
        "  s                  Start the selected configured service"@,
        "  r                  Rescan current listeners"@,
        "  e                  Open the config file"@,
        ""@,
        "Filtering"@,
        "  /                  Enter filter mode"@,
        "  type               Update the filter while editing"@,
        "  Backspace          Remove the last filter character"@,
        "  Enter or Esc       Exit filter mode"@,
        ""@,
        "Other"@,
        "  ? or F1            Toggle this help"@,
        "  q                  Quit"@,
    ]
}

/// The lines of the help overlay.
pub fn help_lines() -> (out: Vec<String>)
    ensures
        string_views(out@) == spec_help_lines(),
{
    let mut out: Vec<String> = Vec::new();
    out.push(string_of("Navigation"));
    out.push(string_of("  Up/Down or j       Move one row"));
    out.push(string_of("  Home/End or g/G    Jump to first or last row"));
    out.push(string_of("  PageUp/PageDown    Move by larger steps"));
    out.push(string_of(""));
    out.push(string_of("Actions"));
    out.push(string_of("  Enter or o         Open selected service URL"));
    out.push(string_of("  k                  Graceful terminate selected listener"));
    out.push(string_of("  K                  Force kill selected listener"));
    out.push(string_of("  s                  Start the selected configured service"));
    out.push(string_of("  r                  Rescan current listeners"));
    out.push(string_of("  e                  Open the config file"));
    out.push(string_of(""));
    out.push(string_of("Filtering"));
    out.push(string_of("  /                  Enter filter mode"));
    out.push(string_of("  type               Update the filter while editing"));
    out.push(string_of("  Backspace          Remove the last filter character"));
    out.push(string_of("  Enter or Esc       Exit filter mode"));
    out.push(string_of(""));
    out.push(string_of("Other"));
    out.push(string_of("  ? or F1            Toggle this help"));
    out.push(string_of("  q                  Quit"));
    assert(string_views(out@) =~= spec_help_lines());
    out
}

} // verus!
