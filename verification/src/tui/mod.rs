//! The terminal browser: its state, key bindings and the text it shows, and
//! the step that applies an action to the state.

pub mod app;
pub mod keys;
pub mod ui;

use vstd::prelude::*;
use crate::config::Config;
use crate::scan::model::{JoinedPortRecord, ScanRecord};
use self::app::{
    moved, reselect, selected_index, spec_filter_mode_status, spec_filter_status,
    spec_help_status, visible, App, AppView, InputMode,
};
use self::keys::Action;

verus! {

/// What the event loop has to do after an action: the work that needs the
/// outside world (processes, the browser, the terminal).
#[derive(Debug, Clone, Copy, PartialEq, Eq, Structural)]
pub enum Effect {
    /// Leave the browser.
    Quit,
    /// Scan the listeners again.
    Rescan,
    /// Terminate the selected listener's process gracefully.
    SoftKill,
    /// Kill the selected listener's process.
    HardKill,
    /// Start the selected listener's configured service.
    StartService,
    /// Open the config file.
    OpenConfig,
    /// Open the selected service's URL.
    OpenService,
    /// Nothing beyond the state change.
    Stay,
}

/// The effect of an action.
pub open spec fn spec_effect(a: Action) -> Effect {
    match a {
        Action::Quit => Effect::Quit,
        Action::Rescan => Effect::Rescan,
        Action::SoftKill => Effect::SoftKill,
        Action::HardKill => Effect::HardKill,
        Action::Start => Effect::StartService,
        Action::OpenConfig => Effect::OpenConfig,
        Action::OpenService => Effect::OpenService,
        _ => Effect::Stay,
    }
}

/// The status line for the filter, the rows and the visible rows.
pub open spec fn status_of(v: AppView) -> Seq<char> {
    spec_filter_status(v.filter, v.filtered.len(), v.rows.len())
}

/// The state with a new filter: the visible rows and selection follow it.
pub open spec fn refiltered(v: AppView, filter: Seq<char>) -> AppView {
    let f = visible(v.rows, filter);
    let w = AppView {
        filter,
        filtered: f,
        selected: reselect(f, selected_index(v.filtered, v.selected)),
        ..v
    };
    AppView { status: status_of(w), ..w }
}

/// The state after an action (see the `App` methods that each one calls).
pub open spec fn step(v: AppView, a: Action) -> AppView {
    match a {
        Action::StartFilter => AppView {
            mode: InputMode::Filter,
            show_help: false,
            status: spec_filter_mode_status(),
            ..v
        },
        Action::ToggleHelp => if !v.show_help {
            AppView { show_help: true, mode: InputMode::Normal, status: spec_help_status(), ..v }
        } else {
            AppView { show_help: false, status: status_of(v), ..v }
        },
        Action::Down => AppView { selected: moved(v.filtered.len(), v.selected, 1), ..v },
        Action::Up => AppView { selected: moved(v.filtered.len(), v.selected, -1), ..v },
        Action::PageDown => AppView { selected: moved(v.filtered.len(), v.selected, 10), ..v },
        Action::PageUp => AppView { selected: moved(v.filtered.len(), v.selected, -10), ..v },
        Action::Home => AppView { selected: Some(0usize), ..v },
        Action::End => AppView {
            selected: if v.filtered.len() > 0 {
                Some((v.filtered.len() - 1) as usize)
            } else {
                None
            },
            ..v
        },
        Action::Confirm => AppView { mode: InputMode::Normal, status: status_of(v), ..v },
        Action::Cancel => if v.show_help {
            AppView { show_help: false, status: status_of(v), ..v }
        } else if v.mode == InputMode::Filter {
            AppView { mode: InputMode::Normal, status: status_of(v), ..v }
        } else {
            v
        },
        Action::Backspace => refiltered(
            v,
            if v.filter.len() > 0 {
                v.filter.drop_last()
            } else {
                v.filter
            },
        ),
        Action::Input(c) => refiltered(v, v.filter.push(c)),
        _ => v,
    }
}

/// Applies an action to the browser's state and tells what else to do.
pub fn handle_action(app: &mut App, action: Action) -> (e: Effect)
    ensures
        e == spec_effect(action),
        final(app)@ == step(old(app)@, action),
{
    match action {
        Action::Quit => Effect::Quit,
        Action::Rescan => Effect::Rescan,
        Action::SoftKill => Effect::SoftKill,
        Action::HardKill => Effect::HardKill,
        Action::Start => Effect::StartService,
        Action::OpenConfig => Effect::OpenConfig,
        Action::OpenService => Effect::OpenService,
        Action::StartFilter => {
            app.start_filter();
            Effect::Stay
        },
        Action::ToggleHelp => {
            app.toggle_help();
            Effect::Stay
        },
        Action::Down => {
            app.move_down();
            Effect::Stay
        },
        Action::Up => {
            app.move_up();
            Effect::Stay
        },
        Action::PageDown => {
            app.page_down();
            Effect::Stay
        },
        Action::PageUp => {
            app.page_up();
            Effect::Stay
        },
        Action::Home => {
            app.move_home();
            Effect::Stay
        },
        Action::End => {
            app.move_end();
            Effect::Stay
        },
        Action::Confirm => {
            app.finish_filter();
            Effect::Stay
        },
        Action::Cancel => {
            app.dismiss_overlay();
            Effect::Stay
        },
        Action::Backspace => {
            app.pop_filter_char();
            Effect::Stay
        },
        Action::Input(c) => {
            app.push_filter_char(c);
            Effect::Stay
        },
        Action::NoOp => Effect::Stay,
    }
}

/// Typing a character into the filter and erasing it again gives back the
/// filter and the visible rows that were there before.
pub proof fn law_type_then_erase(v: AppView, c: char)
    requires
        App::wf(v),
    ensures
        step(step(v, Action::Input(c)), Action::Backspace).filter == v.filter,
        step(step(v, Action::Input(c)), Action::Backspace).filtered == v.filtered,
        step(step(v, Action::Input(c)), Action::Backspace).rows == v.rows,
{
    let w = step(v, Action::Input(c));
    assert(w.filter == v.filter.push(c));
    assert(w.filter.drop_last() =~= v.filter);
}

/// Every action keeps the state's invariant: the visible rows are the rows
/// that the filter keeps, and the selection stays within them.
pub proof fn law_step_keeps_invariant(v: AppView, a: Action)
    requires
        App::wf(v),
    ensures
        App::wf(step(v, a)),
{
    let w = step(v, a);
    match a {
        Action::Backspace | Action::Input(_) => {
            let f = w.filter;
            app::lemma_matching(v.rows, app::needle(f), v.rows.len() as int);
            let vis = visible(v.rows, f);
            assert(w.filtered == vis);
            match selected_index(v.filtered, v.selected) {
                Some(r) => match app::position_of(vis, r) {
                    Some(q) => {
                        assert(0 <= q < vis.len());
                    },
                    None => {},
                },
                None => {},
            }
        },
        _ => {
            assert(w.rows == v.rows);
            assert(w.filter == v.filter);
            assert(w.filtered == v.filtered);
        },
    }
}

/// Moving down and then up returns to the same row, unless the selection was
/// already on the last visible row.
pub proof fn law_down_then_up(v: AppView, p: usize)
    requires
        App::wf(v),
        v.selected == Some(p),
        p + 1 < v.filtered.len(),
    ensures
        step(step(v, Action::Down), Action::Up).selected == Some(p),
{
    app::lemma_matching(v.rows, app::needle(v.filter), v.rows.len() as int);
    let w = step(v, Action::Down);
    assert(w.selected == Some((p + 1) as usize));
}

/// Showing the help and closing it again leaves the rows, the filter and the
/// selection as they were, with the help hidden.
pub proof fn law_help_round_trip(v: AppView)
    requires
        !v.show_help,
    ensures
        step(step(v, Action::ToggleHelp), Action::Cancel).show_help == false,
        step(step(v, Action::ToggleHelp), Action::Cancel).rows == v.rows,
        step(step(v, Action::ToggleHelp), Action::Cancel).filtered == v.filtered,
        step(step(v, Action::ToggleHelp), Action::Cancel).selected == v.selected,
        step(step(v, Action::ToggleHelp), Action::Cancel).filter == v.filter,
{
}

/// The listeners joined with their configured services, as the browser
/// lists them.
pub fn join_with_config(records: &Vec<ScanRecord>, cfg: &Config) -> (out: Vec<JoinedPortRecord>)
    ensures
        out@.len() == records@.len(),
        forall|i: int| 0 <= i < out@.len() ==> (#[trigger] out@[i])@ == crate::spec_join(cfg@, records@[i]@),
{
    crate::join_records(records, cfg)
}

} // verus!
