//! The state of the terminal browser: the listeners, the filter that narrows
//! them, the selected row, the input mode, the help overlay and the status line.

use vstd::prelude::*;
use crate::scan::model::{joined_views, JoinedPortRecord, JoinedView};
use crate::text::{
    blank, chars_of, contains, contains_seq, dec, dec_int, fmt_i64, fmt_u64, is_blank, lowercase, push_chars, push_dec, push_str, string_from, string_of, to_lowercase, trim,
    trim_chars,
};

verus! {

/// Whether keys edit the filter or act on the table.
#[derive(Debug, Clone, Copy, PartialEq, Eq, Structural)]
pub enum InputMode {
    Normal,
    Filter,
}

/// What the filter is compared with: the trimmed filter text, lowercased.
pub open spec fn needle(filter: Seq<char>) -> Seq<char> {
    lowercase(trim(filter))
}

/// `o` is some text whose lowercase form holds the needle.
pub open spec fn opt_lower_contains(o: Option<Seq<char>>, needle: Seq<char>) -> bool {
    match o {
        Some(t) => contains_seq(lowercase(t), needle),
        None => false,
    }
}

/// A row matches the needle when its command, service name, port, pid,
/// working directory or repository root (text fields compared lowercased)
/// contain it.
pub open spec fn row_matches(row: JoinedView, needle: Seq<char>) -> bool {
    ||| contains_seq(lowercase(row.record.command), needle)
    ||| (row.service_name matches Some(n) && contains_seq(lowercase(n), needle))
    ||| contains_seq(dec(row.record.port as nat), needle)
    ||| contains_seq(dec_int(row.record.pid as int), needle)
    ||| opt_lower_contains(row.record.cwd, needle)
    ||| opt_lower_contains(row.record.repo_root, needle)
}

/// The indices of the first `n` rows that the needle keeps, in order: all of
/// them when the needle is empty.
pub open spec fn matching(rows: Seq<JoinedView>, needle: Seq<char>, n: int) -> Seq<usize>
    decreases n,
{
    if n <= 0 {
        seq![]
    } else {
        matching(rows, needle, n - 1) + if needle.len() == 0 || row_matches(rows[n - 1], needle) {
            seq![(n - 1) as usize]
        } else {
            seq![]
        }
    }
}

/// A row is among the first `n` kept exactly when the needle is empty or the
/// row matches it.
pub proof fn lemma_matching_contains(rows: Seq<JoinedView>, nd: Seq<char>, n: int, k: int)
    requires
        0 <= n <= rows.len(),
        rows.len() <= usize::MAX,
        0 <= k < rows.len(),
    ensures
        matching(rows, nd, n).contains(k as usize) <==> (k < n && (nd.len() == 0 || row_matches(
            rows[k],
            nd,
        ))),
    decreases n,
{
    if n > 0 {
        lemma_matching_contains(rows, nd, n - 1, k);
        lemma_matching(rows, nd, n - 1);
        let prev = matching(rows, nd, n - 1);
        let last: Seq<usize> = if nd.len() == 0 || row_matches(rows[n - 1], nd) {
            seq![(n - 1) as usize]
        } else {
            seq![]
        };
        let all = matching(rows, nd, n);
        assert(all == prev + last);
        if all.contains(k as usize) {
            let j = choose|j: int| 0 <= j < all.len() && all[j] == k as usize;
            if j < prev.len() {
                assert(prev[j] == k as usize);
            } else {
                assert(last[j - prev.len()] == k as usize);
            }
        }
        if k < n && (nd.len() == 0 || row_matches(rows[k], nd)) {
            if k < n - 1 {
                let j = choose|j: int| 0 <= j < prev.len() && prev[j] == k as usize;
                assert(all[j] == k as usize);
            } else {
                assert(all[prev.len() as int] == k as usize);
            }
        }
    }
}

/// The filter keeps a row exactly when the trimmed, lowercased filter is
/// empty or found in the row: in its command, its service name, its port, its
/// pid, its working directory or its repository root (the texts lowercased).
pub proof fn law_filter_keeps(rows: Seq<JoinedView>, filter: Seq<char>, k: int)
    requires
        rows.len() <= usize::MAX,
        0 <= k < rows.len(),
    ensures
        visible(rows, filter).contains(k as usize) <==> {
            let nd = lowercase(trim(filter));
            let r = rows[k];
            ||| nd.len() == 0
            ||| contains_seq(lowercase(r.record.command), nd)
            ||| (r.service_name matches Some(n) && contains_seq(lowercase(n), nd))
            ||| contains_seq(dec(r.record.port as nat), nd)
            ||| contains_seq(dec_int(r.record.pid as int), nd)
            ||| (r.record.cwd matches Some(c) && contains_seq(lowercase(c), nd))
            ||| (r.record.repo_root matches Some(c) && contains_seq(lowercase(c), nd))
        },
{
    lemma_matching_contains(rows, needle(filter), rows.len() as int, k);
}

/// Every index below `n`, in order.
pub open spec fn all_indices(n: nat) -> Seq<usize> {
    Seq::new(n, |i: int| i as usize)
}

/// An empty needle keeps every row.
pub proof fn lemma_matching_all(rows: Seq<JoinedView>, nd: Seq<char>, n: int)
    requires
        nd.len() == 0,
        0 <= n,
    ensures
        matching(rows, nd, n) == all_indices(n as nat),
    decreases n,
{
    if n > 0 {
        lemma_matching_all(rows, nd, n - 1);
        assert(matching(rows, nd, n) =~= all_indices(n as nat));
    } else {
        assert(matching(rows, nd, n) =~= all_indices(n as nat));
    }
}

/// The indices of the rows that the filter keeps.
pub open spec fn visible(rows: Seq<JoinedView>, filter: Seq<char>) -> Seq<usize> {
    matching(rows, needle(filter), rows.len() as int)
}

pub proof fn lemma_matching(rows: Seq<JoinedView>, nd: Seq<char>, n: int)
    requires
        0 <= n <= rows.len(),
        rows.len() <= usize::MAX,
    ensures
        forall|i: int, j: int|
            0 <= i < j < matching(rows, nd, n).len() ==> matching(rows, nd, n)[i] < matching(
                rows,
                nd,
                n,
            )[j],
        forall|i: int| 0 <= i < matching(rows, nd, n).len() ==> matching(rows, nd, n)[i] < n,
        matching(rows, nd, n).len() <= n,
    decreases n,
{
    if n > 0 {
        lemma_matching(rows, nd, n - 1);
    }
}

/// The first position of `x` in `s`.
pub open spec fn position_of(s: Seq<usize>, x: usize) -> Option<int> {
    if exists|i: int| 0 <= i < s.len() && s[i] == x {
        Some(
            choose|i: int|
                0 <= i < s.len() && s[i] == x && forall|j: int| 0 <= j < i ==> s[j] != x,
        )
    } else {
        None
    }
}

/// The row under the selection: the selected position's index, when the
/// position is within the visible rows.
pub open spec fn selected_index(filtered: Seq<usize>, selected: Option<usize>) -> Option<usize> {
    match selected {
        Some(p) => if p < filtered.len() {
            Some(filtered[p as int])
        } else {
            None
        },
        None => None,
    }
}

/// The selection after the visible rows change from showing `prev_row`: the
/// same row's new position when it is still visible, else the first row, else
/// nothing.
pub open spec fn reselect(filtered: Seq<usize>, prev_row: Option<usize>) -> Option<usize> {
    let kept = match prev_row {
        Some(r) => position_of(filtered, r),
        None => None,
    };
    match kept {
        Some(p) => Some(p as usize),
        None => if filtered.len() > 0 {
            Some(0)
        } else {
            None
        },
    }
}

pub open spec fn clamp(x: int, lo: int, hi: int) -> int {
    if x < lo {
        lo
    } else if x > hi {
        hi
    } else {
        x
    }
}

/// The selection after moving by `delta` rows: none without visible rows,
/// else the current position (the first when none) moved and kept within the
/// visible rows.
pub open spec fn moved(filtered_len: nat, selected: Option<usize>, delta: int) -> Option<usize> {
    if filtered_len == 0 {
        None
    } else {
        let current = match selected {
            Some(p) => p as int,
            None => 0,
        };
        Some(clamp(current + delta, 0, filtered_len - 1) as usize)
    }
}

/// The status line when no overlay or mode message shows.
pub open spec fn spec_filter_status(filter: Seq<char>, shown: nat, total: nat) -> Seq<char> {
    if is_blank(filter) {
        dec(total) + " listeners loaded. Enter opens service URLs, / starts filtering."@
    } else {
        "Filter '"@ + filter + "' matched "@ + dec(shown) + " of "@ + dec(total) + " listeners."@
    }
}

pub open spec fn spec_initial_status() -> Seq<char> {
    "Arrows navigate. Enter opens the selected service. ? shows all controls."@
}

pub open spec fn spec_filter_mode_status() -> Seq<char> {
    "Filter mode: type to narrow results, Enter or Esc to return."@
}

pub open spec fn spec_help_status() -> Seq<char> {
    "Help: review controls, then press ? or Esc to close."@
}

pub struct AppView {
    pub rows: Seq<JoinedView>,
    pub filtered: Seq<usize>,
    pub selected: Option<usize>,
    pub filter: Seq<char>,
    pub mode: InputMode,
    pub show_help: bool,
    pub status: Seq<char>,
}

/// The browser's state.
pub struct App {
    rows: Vec<JoinedPortRecord>,
    filtered_indices: Vec<usize>,
    selected: Option<usize>,
    filter: Vec<char>,
    mode: InputMode,
    show_help: bool,
    status: String,
}

impl View for App {
    type V = AppView;

    closed spec fn view(&self) -> AppView {
        AppView {
            rows: joined_views(self.rows@),
            filtered: self.filtered_indices@,
            selected: self.selected,
            filter: self.filter@,
            mode: self.mode,
            show_help: self.show_help,
            status: self.status@,
        }
    }
}

impl App {
    /// The state's invariant: the visible rows are exactly the rows that the
    /// filter keeps, and a selection lies within them (or is the first
    /// position of an empty view).
    pub open spec fn wf(v: AppView) -> bool {
        &&& v.rows.len() <= usize::MAX
        &&& v.filtered == visible(v.rows, v.filter)
        &&& v.selected matches Some(p) ==> p <= v.filtered.len()
    }

    /// Every browser state keeps `wf`.
    #[verifier::type_invariant]
    spec fn inv(self) -> bool {
        Self::wf(self@)
    }

    /// A browser with nothing in it, held while a state is rebuilt.
    fn empty() -> (app: App)
        ensures
            app@.rows.len() == 0,
    {
        let app_rows: Vec<JoinedPortRecord> = Vec::new();
        proof {
            assert(joined_views(app_rows@) =~= Seq::<JoinedView>::empty());
            assert(visible(joined_views(app_rows@), Seq::<char>::empty()) =~= Seq::<usize>::empty());
        }
        App {
            rows: app_rows,
            filtered_indices: Vec::new(),
            selected: None,
            filter: Vec::new(),
            mode: InputMode::Normal,
            show_help: false,
            status: String::new(),
        }
    }

    /// The rows the filter keeps, and the new selection.
    fn filter_rows(rows: &Vec<JoinedPortRecord>, filter: &Vec<char>) -> (out: Vec<usize>)
        ensures
            out@ == visible(joined_views(rows@), filter@),
            trim(filter@).len() == 0 ==> out@ == all_indices(rows@.len()),
    {
        let nd = to_lowercase(&trim_chars(filter));
        proof {
            if trim(filter@).len() == 0 {
                lemma_matching_all(joined_views(rows@), nd@, rows@.len() as int);
            }
        }
        let ghost rv = joined_views(rows@);
        let mut out: Vec<usize> = Vec::new();
        let mut i: usize = 0;
        while i < rows.len()
            invariant
                i <= rows@.len(),
                rv == joined_views(rows@),
                nd@ == needle(filter@),
                out@ == matching(rv, nd@, i as int),
            decreases rows@.len() - i,
        {
            let keep = nd.len() == 0 || Self::row_matches_filter(&rows[i], &nd);
            if keep {
                out.push(i);
            }
            proof {
                if keep {
                    assert(out@ =~= matching(rv, nd@, i as int) + seq![i]);
                } else {
                    assert(out@ =~= matching(rv, nd@, i as int) + Seq::<usize>::empty());
                }
            }
            i = i + 1;
        }
        out
    }

    /// Whether the row matches the (lowercased) needle.
    pub fn row_matches_filter(row: &JoinedPortRecord, nd: &Vec<char>) -> (b: bool)
        ensures
            b == row_matches(row@, nd@),
    {
        if contains(&to_lowercase(&chars_of(row.record.command.as_str())), nd) {
            return true;
        }
        let in_name = match &row.service_name {
            Some(n) => contains(&to_lowercase(&chars_of(n.as_str())), nd),
            None => false,
        };
        if in_name {
            return true;
        }
        if contains(&fmt_u64(row.record.port as u64), nd) {
            return true;
        }
        if contains(&fmt_i64(row.record.pid as i64), nd) {
            return true;
        }
        let in_cwd = match &row.record.cwd {
            Some(c) => contains(&to_lowercase(&chars_of(c.as_str())), nd),
            None => false,
        };
        if in_cwd {
            return true;
        }
        match &row.record.repo_root {
            Some(r) => contains(&to_lowercase(&chars_of(r.as_str())), nd),
            None => false,
        }
    }

    /// The first position of `x` in a strictly increasing sequence.
    fn position(v: &Vec<usize>, x: usize) -> (r: Option<usize>)
        ensures
            match r {
                Some(p) => position_of(v@, x) == Some(p as int),
                None => position_of(v@, x) is None,
            },
    {
        let mut i: usize = 0;
        while i < v.len()
            invariant
                i <= v@.len(),
                forall|j: int| 0 <= j < i ==> v@[j] != x,
            decreases v@.len() - i,
        {
            if v[i] == x {
                proof {
                    assert(0 <= i < v@.len() && v@[i as int] == x && forall|j: int|
                        0 <= j < i ==> v@[j] != x);
                    let k = choose|k: int|
                        0 <= k < v@.len() && v@[k] == x && forall|j: int| 0 <= j < k ==> v@[j] != x;
                    if k < i {
                        assert(v@[k] != x);
                    }
                    if k > i {
                        assert(v@[i as int] != x);
                    }
                }
                return Some(i);
            }
            i = i + 1;
        }
        None
    }

    /// The rows that `filter` keeps, and the selection that follows
    /// `prev_row`: its new position when it is still visible, else the first
    /// visible row, else none.
    fn refilter(rows: &Vec<JoinedPortRecord>, filter: &Vec<char>, prev_row: Option<usize>) -> (r: (
        Vec<usize>,
        Option<usize>,
    ))
        ensures
            r.0@ == visible(joined_views(rows@), filter@),
            r.1 == reselect(r.0@, prev_row),
            r.1 matches Some(p) ==> p < r.0@.len(),
            trim(filter@).len() == 0 ==> r.0@ == all_indices(rows@.len()),
            joined_views(rows@).len() == rows@.len() <= usize::MAX,
    {
        let nrows = rows.len();
        let filtered = Self::filter_rows(rows, filter);
        proof {
            assert(joined_views(rows@).len() == nrows);
            lemma_matching(joined_views(rows@), needle(filter@), rows@.len() as int);
        }
        let next = match prev_row {
            Some(r) => match Self::position(&filtered, r) {
                Some(p) => Some(p),
                None => if filtered.len() > 0 {
                    Some(0)
                } else {
                    None
                },
            },
            None => if filtered.len() > 0 {
                Some(0)
            } else {
                None
            },
        };
        proof {
            if let Some(p) = next {
                if let Some(r) = prev_row {
                    if let Some(q) = position_of(filtered@, r) {
                        assert(0 <= q < filtered@.len());
                    }
                }
            }
        }
        (filtered, next)
    }

    /// A browser over the given rows: no filter, the first row selected,
    /// normal mode, no help.
    pub fn new(rows: Vec<JoinedPortRecord>) -> (app: App)
        ensures
            app@ == (AppView {
                rows: joined_views(rows@),
                filtered: visible(joined_views(rows@), Seq::empty()),
                selected: reselect(visible(joined_views(rows@), Seq::empty()), None),
                filter: Seq::empty(),
                mode: InputMode::Normal,
                show_help: false,
                status: spec_initial_status(),
            }),
            Self::wf(app@),
            app@.filtered == all_indices(rows@.len()),
            app@.selected == (if rows@.len() > 0 {
                Some(0usize)
            } else {
                None
            }),
    {
        let filter: Vec<char> = Vec::new();
        proof {
            assert(trim(filter@) =~= Seq::<char>::empty());
            assert(joined_views(rows@).len() == rows@.len());
        }
        let (filtered, next) = Self::refilter(&rows, &filter, None);
        App {
            rows,
            filtered_indices: filtered,
            selected: next,
            filter,
            mode: InputMode::Normal,
            show_help: false,
            status: string_of(
                "Arrows navigate. Enter opens the selected service. ? shows all controls.",
            ),
        }
    }

    /// Replaces the rows, keeping the filter, and the selected row when it is
    /// still visible.
    pub fn set_rows(&mut self, rows: Vec<JoinedPortRecord>)
        ensures
            final(self)@ == (AppView {
                rows: joined_views(rows@),
                filtered: visible(joined_views(rows@), old(self)@.filter),
                selected: reselect(
                    visible(joined_views(rows@), old(self)@.filter),
                    selected_index(old(self)@.filtered, old(self)@.selected),
                ),
                ..old(self)@
            }),
            Self::wf(final(self)@),
    {
        proof {
            use_type_invariant(&*self);
            assert(joined_views(rows@).len() == rows@.len());
        }
        let prev_row = self.selected_row_index();
        let (filtered, next) = Self::refilter(&rows, &self.filter, prev_row);
        let mut prev_app = Self::empty();
        std::mem::swap(self, &mut prev_app);
        let App { rows: _, filtered_indices: _, selected: _, filter, mode, show_help, status } =
            prev_app;
        *self = App { rows, filtered_indices: filtered, selected: next, filter, mode, show_help, status };
    }

    /// The selected row, when the selection is on a visible row.
    pub fn selected(&self) -> (r: Option<&JoinedPortRecord>)
        ensures
            match selected_index(self@.filtered, self@.selected) {
                Some(i) => i < self@.rows.len() && (r matches Some(row) && row@ == self@.rows[i as int]),
                None => r is None,
            },
    {
        proof {
            use_type_invariant(self);
            lemma_matching(self@.rows, needle(self@.filter), self@.rows.len() as int);
        }
        match self.selected_row_index() {
            Some(i) => Some(&self.rows[i]),
            None => None,
        }
    }

    /// Moves the selection by `delta` rows, within the visible rows.
    fn move_by(&mut self, delta: i64)
        ensures
            final(self)@ == (AppView {
                selected: moved(old(self)@.filtered.len(), old(self)@.selected, delta as int),
                ..old(self)@
            }),
    {
        proof {
            use_type_invariant(&*self);
        }
        let n = self.filtered_indices.len();
        if n == 0 {
            self.selected = None;
            return;
        }
        let max = n - 1;
        let current: usize = match self.selected {
            Some(p) => p,
            None => 0,
        };
        let next: usize = if delta >= 0 {
            let d = delta as u64;
            if current >= max || (max - current) as u64 <= d {
                max
            } else {
                current + d as usize
            }
        } else {
            let d: u64 = if delta == i64::MIN {
                0x8000_0000_0000_0000
            } else {
                (-delta) as u64
            };
            let low: usize = if current as u64 <= d {
                0
            } else {
                current - d as usize
            };
            if low > max {
                max
            } else {
                low
            }
        };
        self.selected = Some(next);
    }

    /// Moves the selection one row down.
    pub fn move_down(&mut self)
        ensures
            final(self)@ == (AppView { selected: moved(old(self)@.filtered.len(), old(self)@.selected, 1), ..old(self)@ }),
            Self::wf(final(self)@),
    {
        self.move_by(1);
        proof {
            use_type_invariant(&*self);
        }
    }

    /// Moves the selection one row up.
    pub fn move_up(&mut self)
        ensures
            final(self)@ == (AppView { selected: moved(old(self)@.filtered.len(), old(self)@.selected, -1), ..old(self)@ }),
            Self::wf(final(self)@),
    {
        self.move_by(-1);
        proof {
            use_type_invariant(&*self);
        }
    }

    /// Moves the selection ten rows down.
    pub fn page_down(&mut self)
        ensures
            final(self)@ == (AppView { selected: moved(old(self)@.filtered.len(), old(self)@.selected, 10), ..old(self)@ }),
            Self::wf(final(self)@),
    {
        self.move_by(10);
        proof {
            use_type_invariant(&*self);
        }
    }

    /// Moves the selection ten rows up.
    pub fn page_up(&mut self)
        ensures
            final(self)@ == (AppView { selected: moved(old(self)@.filtered.len(), old(self)@.selected, -10), ..old(self)@ }),
            Self::wf(final(self)@),
    {
        self.move_by(-10);
        proof {
            use_type_invariant(&*self);
        }
    }

    /// Selects the first position.
    pub fn move_home(&mut self)
        ensures
            final(self)@ == (AppView { selected: Some(0usize), ..old(self)@ }),
            Self::wf(final(self)@),
    {
        proof {
            use_type_invariant(&*self);
        }
        self.selected = Some(0);
    }

    /// Selects the last visible row, or nothing when none is visible.
    pub fn move_end(&mut self)
        ensures
            final(self)@ == (AppView {
                selected: if old(self)@.filtered.len() > 0 {
                    Some((old(self)@.filtered.len() - 1) as usize)
                } else {
                    None
                },
                ..old(self)@
            }),
            Self::wf(final(self)@),
    {
        proof {
            use_type_invariant(&*self);
        }
        let n = self.filtered_indices.len();
        self.selected = if n > 0 {
            Some(n - 1)
        } else {
            None
        };
    }

    /// The status line for a filter that shows `shown` of `total` rows.
    fn status_for(filter: &Vec<char>, shown: usize, total: usize) -> (s: String)
        ensures
            s@ == spec_filter_status(filter@, shown as nat, total as nat),
    {
        if blank(filter) {
            let mut s = String::new();
            push_dec(&mut s, total as u64);
            push_str(&mut s, " listeners loaded. Enter opens service URLs, / starts filtering.");
            assert(s@ =~= spec_filter_status(filter@, shown as nat, total as nat));
            s
        } else {
            let mut s = string_of("Filter '");
            push_chars(&mut s, filter);
            push_str(&mut s, "' matched ");
            push_dec(&mut s, shown as u64);
            push_str(&mut s, " of ");
            push_dec(&mut s, total as u64);
            push_str(&mut s, " listeners.");
            s
        }
    }

    /// The status line for the current filter.
    fn filter_status(&self) -> (s: String)
        ensures
            s@ == spec_filter_status(self@.filter, self@.filtered.len(), self@.rows.len()),
    {
        Self::status_for(&self.filter, self.filtered_indices.len(), self.rows.len())
    }

    /// Enters filter mode, closing the help.
    pub fn start_filter(&mut self)
        ensures
            final(self)@ == (AppView {
                mode: InputMode::Filter,
                show_help: false,
                status: spec_filter_mode_status(),
                ..old(self)@
            }),
            Self::wf(final(self)@),
    {
        proof {
            use_type_invariant(&*self);
        }
        self.mode = InputMode::Filter;
        self.show_help = false;
        self.status = string_of("Filter mode: type to narrow results, Enter or Esc to return.");
    }

    /// Leaves filter mode, keeping the filter.
    pub fn finish_filter(&mut self)
        ensures
            final(self)@ == (AppView {
                mode: InputMode::Normal,
                status: spec_filter_status(old(self)@.filter, old(self)@.filtered.len(), old(self)@.rows.len()),
                ..old(self)@
            }),
            Self::wf(final(self)@),
    {
        proof {
            use_type_invariant(&*self);
        }
        self.mode = InputMode::Normal;
        self.status = self.filter_status();
    }

    /// Leaves filter mode, keeping the filter (as `finish_filter`).
    pub fn cancel_filter(&mut self)
        ensures
            final(self)@ == (AppView {
                mode: InputMode::Normal,
                status: spec_filter_status(old(self)@.filter, old(self)@.filtered.len(), old(self)@.rows.len()),
                ..old(self)@
            }),
            Self::wf(final(self)@),
    {
        proof {
            use_type_invariant(&*self);
        }
        self.mode = InputMode::Normal;
        self.status = self.filter_status();
    }

    /// Appends a character to the filter and narrows the rows.
    pub fn push_filter_char(&mut self, ch: char)
        ensures
            final(self)@.filter == old(self)@.filter.push(ch),
            final(self)@.rows == old(self)@.rows,
            final(self)@.filtered == visible(old(self)@.rows, old(self)@.filter.push(ch)),
            final(self)@.selected == reselect(
                visible(old(self)@.rows, old(self)@.filter.push(ch)),
                selected_index(old(self)@.filtered, old(self)@.selected),
            ),
            final(self)@.mode == old(self)@.mode,
            final(self)@.show_help == old(self)@.show_help,
            final(self)@.status == spec_filter_status(
                final(self)@.filter,
                final(self)@.filtered.len(),
                final(self)@.rows.len(),
            ),
            Self::wf(final(self)@),
    {
        proof {
            use_type_invariant(&*self);
        }
        let prev_row = self.selected_row_index();
        let mut prev_app = Self::empty();
        std::mem::swap(self, &mut prev_app);
        let App { rows, filtered_indices: _, selected: _, mut filter, mode, show_help, status: _ } =
            prev_app;
        filter.push(ch);
        proof {
            assert(joined_views(rows@).len() == rows@.len());
        }
        let (filtered, next) = Self::refilter(&rows, &filter, prev_row);
        let status = Self::status_for(&filter, filtered.len(), rows.len());
        *self = App { rows, filtered_indices: filtered, selected: next, filter, mode, show_help, status };
    }

    /// Removes the last character of the filter, if any, and widens the rows.
    pub fn pop_filter_char(&mut self)
        ensures
            final(self)@.filter == if old(self)@.filter.len() > 0 {
                old(self)@.filter.drop_last()
            } else {
                old(self)@.filter
            },
            final(self)@.rows == old(self)@.rows,
            final(self)@.filtered == visible(old(self)@.rows, final(self)@.filter),
            final(self)@.selected == reselect(
                visible(old(self)@.rows, final(self)@.filter),
                selected_index(old(self)@.filtered, old(self)@.selected),
            ),
            final(self)@.mode == old(self)@.mode,
            final(self)@.show_help == old(self)@.show_help,
            final(self)@.status == spec_filter_status(
                final(self)@.filter,
                final(self)@.filtered.len(),
                final(self)@.rows.len(),
            ),
            Self::wf(final(self)@),
    {
        proof {
            use_type_invariant(&*self);
        }
        let prev_row = self.selected_row_index();
        let mut prev_app = Self::empty();
        std::mem::swap(self, &mut prev_app);
        let App { rows, filtered_indices: _, selected: _, mut filter, mode, show_help, status: _ } =
            prev_app;
        let _ = filter.pop();
        proof {
            assert(joined_views(rows@).len() == rows@.len());
        }
        let (filtered, next) = Self::refilter(&rows, &filter, prev_row);
        let status = Self::status_for(&filter, filtered.len(), rows.len());
        *self = App { rows, filtered_indices: filtered, selected: next, filter, mode, show_help, status };
    }

    /// Shows or hides the help; showing it leaves filter mode.
    pub fn toggle_help(&mut self)
        ensures
            final(self)@.show_help == !old(self)@.show_help,
            final(self)@.mode == if final(self)@.show_help {
                InputMode::Normal
            } else {
                old(self)@.mode
            },
            final(self)@.status == if final(self)@.show_help {
                spec_help_status()
            } else {
                spec_filter_status(old(self)@.filter, old(self)@.filtered.len(), old(self)@.rows.len())
            },
            final(self)@.rows == old(self)@.rows,
            final(self)@.filtered == old(self)@.filtered,
            final(self)@.selected == old(self)@.selected,
            final(self)@.filter == old(self)@.filter,
            Self::wf(final(self)@),
    {
        proof {
            use_type_invariant(&*self);
        }
        self.show_help = !self.show_help;
        if self.show_help {
            self.mode = InputMode::Normal;
            self.status = string_of("Help: review controls, then press ? or Esc to close.");
        } else {
            self.status = self.filter_status();
        }
    }

    /// Closes the help if it shows, else leaves filter mode if in it.
    pub fn dismiss_overlay(&mut self)
        ensures
            old(self)@.show_help ==> final(self)@ == (AppView {
                show_help: false,
                status: spec_filter_status(old(self)@.filter, old(self)@.filtered.len(), old(self)@.rows.len()),
                ..old(self)@
            }),
            !old(self)@.show_help && old(self)@.mode == InputMode::Filter ==> final(self)@ == (AppView {
                mode: InputMode::Normal,
                status: spec_filter_status(old(self)@.filter, old(self)@.filtered.len(), old(self)@.rows.len()),
                ..old(self)@
            }),
            !old(self)@.show_help && old(self)@.mode == InputMode::Normal ==> final(self)@ == old(self)@,
            Self::wf(final(self)@),
    {
        proof {
            use_type_invariant(&*self);
        }
        if self.show_help {
            self.show_help = false;
            self.status = self.filter_status();
            return;
        }
        if self.mode == InputMode::Filter {
            self.cancel_filter();
        }
    }

    /// Replaces the status line.
    pub fn set_status(&mut self, status: String)
        ensures
            final(self)@ == (AppView { status: status@, ..old(self)@ }),
            Self::wf(final(self)@),
    {
        proof {
            use_type_invariant(&*self);
        }
        self.status = status;
    }

    /// The rows at the visible indices, in order.
    pub fn visible_rows(&self) -> (out: Vec<&JoinedPortRecord>)
        ensures
            out@.len() == self@.filtered.len(),
            forall|i: int|
                0 <= i < out@.len() ==> (#[trigger] out@[i])@ == self@.rows[self@.filtered[i] as int],
    {
        proof {
            use_type_invariant(self);
            lemma_matching(self@.rows, needle(self@.filter), self@.rows.len() as int);
        }
        let nrows = self.rows.len();
        let mut out: Vec<&JoinedPortRecord> = Vec::new();
        let mut i: usize = 0;
        assert(self@.rows.len() == nrows);
        while i < self.filtered_indices.len()
            invariant
                nrows == self@.rows.len(),
                i <= self@.filtered.len(),
                forall|k: int| 0 <= k < self@.filtered.len() ==> self@.filtered[k] < self@.rows.len(),
                out@.len() == i,
                forall|k: int| 0 <= k < i ==> (#[trigger] out@[k])@ == self@.rows[self@.filtered[k] as int],
            decreases self@.filtered.len() - i,
        {
            let idx = self.filtered_indices[i];
            out.push(&self.rows[idx]);
            i = i + 1;
        }
        out
    }

    /// How many rows are visible.
    pub fn result_count(&self) -> (n: usize)
        ensures
            n == self@.filtered.len(),
    {
        self.filtered_indices.len()
    }

    /// How many rows there are.
    pub fn total_count(&self) -> (n: usize)
        ensures
            n == self@.rows.len(),
    {
        self.rows.len()
    }

    /// The filter text.
    pub fn filter(&self) -> (s: String)
        ensures
            s@ == self@.filter,
    {
        string_from(&self.filter)
    }

    /// The input mode.
    pub fn mode(&self) -> (m: InputMode)
        ensures
            m == self@.mode,
    {
        self.mode
    }

    /// Whether the help shows.
    pub fn show_help(&self) -> (b: bool)
        ensures
            b == self@.show_help,
    {
        self.show_help
    }

    /// The status line.
    pub fn status(&self) -> (s: &String)
        ensures
            s@ == self@.status,
    {
        &self.status
    }

    /// The selected position among the visible rows.
    pub fn selected_position(&self) -> (p: Option<usize>)
        ensures
            p == self@.selected,
    {
        self.selected
    }

    /// The index of the selected row, if the selection is on a visible row.
    fn selected_row_index(&self) -> (r: Option<usize>)
        ensures
            r == selected_index(self@.filtered, self@.selected),
    {
        match self.selected {
            Some(p) => if p < self.filtered_indices.len() {
                Some(self.filtered_indices[p])
            } else {
                None
            },
            None => None,
        }
    }
}

} // verus!
