//! Checking the registry and the running listeners for problems.

use vstd::prelude::*;
use crate::config::{Config, Entries, ServiceView};
use crate::path::path_starts_with;
use crate::scan::model::{scan_views, ScanRecord, ScanView};
use crate::text::{
    blank, chars_of, dec, dec_int, filter_map, is_blank, join_with, push_dec,
    push_dec_signed, push_joined, push_str, string_of, views,
};

verus! {

/// One problem found by the doctor.
#[derive(Debug, Clone)]
pub struct DoctorIssue {
    pub level: String,
    pub code: String,
    pub message: String,
}

pub struct IssueView {
    pub level: Seq<char>,
    pub code: Seq<char>,
    pub message: Seq<char>,
}

impl View for DoctorIssue {
    type V = IssueView;

    open spec fn view(&self) -> IssueView {
        IssueView { level: self.level@, code: self.code@, message: self.message@ }
    }
}

/// All problems found, in the order they were found.
#[derive(Debug, Clone)]
pub struct DoctorReport {
    pub issues: Vec<DoctorIssue>,
}

pub open spec fn issue_views(v: Seq<DoctorIssue>) -> Seq<IssueView> {
    v.map_values(|i: DoctorIssue| i@)
}

impl DoctorReport {
    /// Whether some issue has the level `error`.
    pub fn has_errors(&self) -> (b: bool)
        ensures
            b == exists|i: int| 0 <= i < self.issues@.len() && self.issues@[i].level@ == "error"@,
    {
        let mut i: usize = 0;
        while i < self.issues.len()
            invariant
                i <= self.issues.len(),
                forall|j: int| 0 <= j < i ==> self.issues@[j].level@ != "error"@,
            decreases self.issues.len() - i,
        {
            if crate::text::chars_eq_str(&chars_of(self.issues[i].level.as_str()), "error") {
                return true;
            }
            i = i + 1;
        }
        false
    }
}

pub open spec fn mk_issue(level: Seq<char>, code: Seq<char>, message: Seq<char>) -> IssueView {
    IssueView { level, code, message }
}

/// A service without a start command, or with a blank one.
pub open spec fn start_missing(svc: ServiceView) -> bool {
    match svc.start {
        None => true,
        Some(s) => is_blank(s),
    }
}

/// The issues of one service: `missing_repo` (an error) when its repository
/// does not exist, then `missing_start` (a warning) when it has no start
/// command.
pub open spec fn entry_issues(name: Seq<char>, svc: ServiceView, repo_exists: bool) -> Seq<
    IssueView,
> {
    (if !repo_exists {
        seq![
            mk_issue(
                "error"@,
                "missing_repo"@,
                "service "@ + name + " repo missing: "@ + svc.repo,
            ),
        ]
    } else {
        seq![]
    }) + (if start_missing(svc) {
        seq![mk_issue("warn"@, "missing_start"@, "service "@ + name + " has no start command"@)]
    } else {
        seq![]
    })
}

/// The issues of every service, in name order.
pub open spec fn service_issues(es: Entries, repo_exists: Seq<bool>) -> Seq<IssueView>
    decreases es.len(),
{
    if es.len() == 0 || repo_exists.len() != es.len() {
        seq![]
    } else {
        service_issues(es.drop_last(), repo_exists.drop_last()) + entry_issues(
            es.last().0,
            es.last().1,
            repo_exists.last(),
        )
    }
}

/// The names of the services configured for `port`, in name order.
pub open spec fn owners(es: Entries, port: int) -> Seq<Seq<char>> {
    filter_map(
        es,
        |e: (Seq<char>, ServiceView)|
            if e.1.port == port {
                Some(e.0)
            } else {
                None
            },
    )
}

/// One `duplicate_port` error for every port below `m` that two or more
/// services share, by increasing port.
pub open spec fn duplicate_issues(es: Entries, m: int) -> Seq<IssueView>
    decreases m,
{
    if m <= 0 {
        seq![]
    } else {
        duplicate_issues(es, m - 1) + if owners(es, m - 1).len() > 1 {
            seq![
                mk_issue(
                    "error"@,
                    "duplicate_port"@,
                    "port "@ + dec((m - 1) as nat) + " is assigned to: "@ + join_with(
                        owners(es, m - 1),
                        ", "@,
                    ),
                ),
            ]
        } else {
            seq![]
        }
    }
}

/// Some service is configured for `port`.
pub open spec fn configured(es: Entries, port: u16) -> bool {
    exists|i: int| 0 <= i < es.len() && es[i].1.port == port
}

/// A listener that likely belongs to local development work: its process
/// runs inside a repository, or its working directory lies under the home
/// directory. Other listeners (system daemons) are not reported.
pub open spec fn likely_local_dev(r: ScanView, home: Option<Seq<char>>) -> bool {
    ||| r.repo_root is Some
    ||| (home is Some && r.cwd is Some && path_starts_with(r.cwd.unwrap(), home.unwrap()))
}

/// One `unmapped_listener` warning for every likely local development
/// listener whose port no service is configured for, in listener order.
pub open spec fn unmapped_issues(es: Entries, running: Seq<ScanView>, home: Option<Seq<char>>) -> Seq<
    IssueView,
> {
    filter_map(
        running,
        |r: ScanView|
            if !configured(es, r.port) && likely_local_dev(r, home) {
                Some(
                    mk_issue(
                        "warn"@,
                        "unmapped_listener"@,
                        "listening port "@ + dec(r.port as nat) + " pid "@ + dec_int(r.pid as int)
                            + " not mapped in config"@,
                    ),
                )
            } else {
                None
            },
    )
}

/// The full report: service issues, then duplicate ports, then unmapped
/// listeners.
pub open spec fn spec_doctor(
    es: Entries,
    repo_exists: Seq<bool>,
    running: Seq<ScanView>,
    home: Option<Seq<char>>,
) -> Seq<IssueView> {
    service_issues(es, repo_exists) + duplicate_issues(es, 0x10000) + unmapped_issues(
        es,
        running,
        home,
    )
}

/// Some issue has the level `error`.
pub open spec fn has_error_level(s: Seq<IssueView>) -> bool {
    exists|i: int| 0 <= i < s.len() && s[i].level == "error"@
}

proof fn lemma_error_level_concat(a: Seq<IssueView>, b: Seq<IssueView>)
    ensures
        has_error_level(a + b) <==> has_error_level(a) || has_error_level(b),
{
    if has_error_level(a + b) {
        let i = choose|i: int| 0 <= i < (a + b).len() && (a + b)[i].level == "error"@;
        if i < a.len() {
            assert(a[i] == (a + b)[i]);
        } else {
            assert(b[i - a.len()] == (a + b)[i]);
        }
    }
    if has_error_level(a) {
        let i = choose|i: int| 0 <= i < a.len() && a[i].level == "error"@;
        assert((a + b)[i] == a[i]);
    }
    if has_error_level(b) {
        let i = choose|i: int| 0 <= i < b.len() && b[i].level == "error"@;
        assert((a + b)[a.len() + i] == b[i]);
    }
}

proof fn lemma_levels_differ()
    ensures
        "error"@ != "warn"@,
{
    reveal_strlit("error");
    reveal_strlit("warn");
    assert("error"@.len() != "warn"@.len());
}

proof fn lemma_service_errors(es: Entries, repo_exists: Seq<bool>)
    requires
        repo_exists.len() == es.len(),
    ensures
        has_error_level(service_issues(es, repo_exists)) <==> exists|j: int|
            0 <= j < repo_exists.len() && !repo_exists[j],
    decreases es.len(),
{
    lemma_levels_differ();
    if es.len() > 0 {
        let prev_es = es.drop_last();
        let prev_ex = repo_exists.drop_last();
        lemma_service_errors(prev_es, prev_ex);
        let last = entry_issues(es.last().0, es.last().1, repo_exists.last());
        lemma_error_level_concat(service_issues(prev_es, prev_ex), last);
        let missing = if !repo_exists.last() {
            seq![
                mk_issue(
                    "error"@,
                    "missing_repo"@,
                    "service "@ + es.last().0 + " repo missing: "@ + es.last().1.repo,
                ),
            ]
        } else {
            Seq::<IssueView>::empty()
        };
        let no_start = if start_missing(es.last().1) {
            seq![mk_issue("warn"@, "missing_start"@, "service "@ + es.last().0 + " has no start command"@)]
        } else {
            Seq::<IssueView>::empty()
        };
        assert(last == missing + no_start);
        lemma_error_level_concat(missing, no_start);
        if !repo_exists.last() {
            assert(missing[0].level == "error"@);
        }
        if has_error_level(no_start) {
            let i = choose|i: int| 0 <= i < no_start.len() && no_start[i].level == "error"@;
            assert(no_start[i].level == "warn"@);
        }
        if has_error_level(missing) {
            assert(!repo_exists.last());
        }
        if exists|j: int| 0 <= j < repo_exists.len() && !repo_exists[j] {
            let j = choose|j: int| 0 <= j < repo_exists.len() && !repo_exists[j];
            if j < repo_exists.len() - 1 {
                assert(prev_ex[j] == repo_exists[j]);
            }
        }
        if exists|j: int| 0 <= j < prev_ex.len() && !prev_ex[j] {
            let j = choose|j: int| 0 <= j < prev_ex.len() && !prev_ex[j];
            assert(repo_exists[j] == prev_ex[j]);
        }
    }
}

proof fn lemma_duplicate_errors(es: Entries, m: int)
    requires
        0 <= m,
    ensures
        has_error_level(duplicate_issues(es, m)) <==> exists|q: int|
            0 <= q < m && #[trigger] owners(es, q).len() > 1,
    decreases m,
{
    if m > 0 {
        lemma_duplicate_errors(es, m - 1);
        let prev = duplicate_issues(es, m - 1);
        let last = if owners(es, m - 1).len() > 1 {
            seq![
                mk_issue(
                    "error"@,
                    "duplicate_port"@,
                    "port "@ + dec((m - 1) as nat) + " is assigned to: "@ + join_with(
                        owners(es, m - 1),
                        ", "@,
                    ),
                ),
            ]
        } else {
            Seq::<IssueView>::empty()
        };
        assert(duplicate_issues(es, m) == prev + last);
        lemma_error_level_concat(prev, last);
        if owners(es, m - 1).len() > 1 {
            assert(last[0].level == "error"@);
        }
    }
}

proof fn lemma_unmapped_warn_only(es: Entries, running: Seq<ScanView>, home: Option<Seq<char>>)
    ensures
        !has_error_level(unmapped_issues(es, running, home)),
    decreases running.len(),
{
    lemma_levels_differ();
    if running.len() > 0 {
        lemma_unmapped_warn_only(es, running.drop_last(), home);
        let f = |r: ScanView|
            if !configured(es, r.port) && likely_local_dev(r, home) {
                Some(
                    mk_issue(
                        "warn"@,
                        "unmapped_listener"@,
                        "listening port "@ + dec(r.port as nat) + " pid "@ + dec_int(r.pid as int)
                            + " not mapped in config"@,
                    ),
                )
            } else {
                None
            };
        let prev = filter_map(running.drop_last(), f);
        let last = match f(running.last()) {
            Some(b) => seq![b],
            None => Seq::<IssueView>::empty(),
        };
        assert(unmapped_issues(es, running, home) == prev + last);
        assert(unmapped_issues(es, running.drop_last(), home) == prev);
        lemma_error_level_concat(prev, last);
        if has_error_level(last) {
            assert(last[0].level == "warn"@);
        }
    }
}

/// The listeners whose port no service of the registry is configured for.
pub open spec fn off_registry(es: Entries, running: Seq<ScanView>) -> Seq<ScanView> {
    running.filter(no_service_on_port(es))
}

/// No service of the registry is configured for the listener's port.
pub open spec fn no_service_on_port(es: Entries) -> spec_fn(ScanView) -> bool {
    |r: ScanView| forall|i: int| 0 <= i < es.len() ==> es[i].1.port != r.port
}

proof fn lemma_unmapped_off_registry(es: Entries, running: Seq<ScanView>, home: Option<Seq<char>>)
    ensures
        unmapped_issues(es, running, home) == unmapped_issues(es, off_registry(es, running), home),
    decreases running.len(),
{
    let pred = no_service_on_port(es);
    reveal_with_fuel(Seq::filter, 1);
    if running.len() > 0 {
        let x = running.last();
        let init = running.drop_last();
        lemma_unmapped_off_registry(es, init, home);
        assert(off_registry(es, running) == if pred(x) {
            off_registry(es, init).push(x)
        } else {
            off_registry(es, init)
        });
        if pred(x) {
            let t = off_registry(es, init).push(x);
            assert(t.drop_last() =~= off_registry(es, init));
            assert(t.last() == x);
        } else {
            let i = choose|i: int| 0 <= i < es.len() && es[i].1.port == x.port;
            assert(configured(es, x.port));
            assert(unmapped_issues(es, running, home) =~= unmapped_issues(es, init, home));
        }
    } else {
        assert(off_registry(es, running) =~= running);
    }
}

/// Listeners on a port that some service is configured for never change the
/// report: it is the report of the other listeners alone.
pub proof fn law_doctor_configured_ports_ignored(
    es: Entries,
    repo_exists: Seq<bool>,
    running: Seq<ScanView>,
    home: Option<Seq<char>>,
)
    ensures
        spec_doctor(es, repo_exists, running, home) == spec_doctor(
            es,
            repo_exists,
            off_registry(es, running),
            home,
        ),
{
    lemma_unmapped_off_registry(es, running, home);
}

/// When every listener is on a port that some service is configured for, no
/// listener is reported: the report is the one for no listeners at all.
pub proof fn law_doctor_all_ports_configured(
    es: Entries,
    repo_exists: Seq<bool>,
    running: Seq<ScanView>,
    home: Option<Seq<char>>,
)
    requires
        forall|k: int|
            0 <= k < running.len() ==> exists|i: int|
                0 <= i < es.len() && es[i].1.port == (#[trigger] running[k]).port,
    ensures
        spec_doctor(es, repo_exists, running, home) == spec_doctor(
            es,
            repo_exists,
            Seq::<ScanView>::empty(),
            home,
        ),
{
    law_doctor_configured_ports_ignored(es, repo_exists, running, home);
    let pred = no_service_on_port(es);
    assert forall|k: int| 0 <= k < running.len() implies !pred(#[trigger] running[k]) by {
        let i = choose|i: int| 0 <= i < es.len() && es[i].1.port == running[k].port;
    }
    running.lemma_all_neg_filter_empty(pred);
    assert(off_registry(es, running) =~= Seq::<ScanView>::empty());
}

/// The report has an error (so `doctor` exits non-zero) exactly when some
/// configured repository is missing or two services share a port; missing
/// start commands and unmapped listeners are only warnings.
pub proof fn law_doctor_errors(
    es: Entries,
    repo_exists: Seq<bool>,
    running: Seq<ScanView>,
    home: Option<Seq<char>>,
)
    requires
        repo_exists.len() == es.len(),
    ensures
        has_error_level(spec_doctor(es, repo_exists, running, home)) <==> (exists|j: int|
            0 <= j < repo_exists.len() && !repo_exists[j]) || (exists|q: int|
            0 <= q < 0x10000 && #[trigger] owners(es, q).len() > 1),
{
    lemma_service_errors(es, repo_exists);
    lemma_duplicate_errors(es, 0x10000);
    lemma_unmapped_warn_only(es, running, home);
    let a = service_issues(es, repo_exists);
    let b = duplicate_issues(es, 0x10000);
    let c = unmapped_issues(es, running, home);
    lemma_error_level_concat(a, b);
    lemma_error_level_concat(a + b, c);
}

fn push_issue(issues: &mut Vec<DoctorIssue>, level: &str, code: &str, message: String)
    ensures
        issue_views(final(issues)@) == issue_views(old(issues)@).push(
            mk_issue(level@, code@, message@),
        ),
{
    let ghost prev = issues@;
    issues.push(DoctorIssue { level: string_of(level), code: string_of(code), message });
    assert(issue_views(issues@) =~= issue_views(prev).push(mk_issue(level@, code@, message@)));
}

/// Checks the registry and the running listeners. `repo_exists[i]` tells
/// whether the repository of the `i`-th service (in name order) exists, and
/// `home` is the user's home directory when known.
pub fn doctor(
    cfg: &Config,
    running: &Vec<ScanRecord>,
    repo_exists: &Vec<bool>,
    home: Option<&str>,
) -> (report: DoctorReport)
    requires
        repo_exists@.len() == cfg@.len(),
    ensures
        issue_views(report.issues@) == spec_doctor(
            cfg@,
            repo_exists@,
            scan_views(running@),
            crate::text::opt_str_view(home),
        ),
{
    let entries = cfg.entries();
    let ghost es = cfg@;
    let n = entries.len();
    let mut issues: Vec<DoctorIssue> = Vec::new();
    // Per-service checks.
    let mut i: usize = 0;
    assert(es.take(0) =~= Seq::<(Seq<char>, ServiceView)>::empty());
    while i < n
        invariant
            n == entries@.len(),
            es.len() == n,
            repo_exists@.len() == n,
            forall|j: int| 0 <= j < n ==> (#[trigger] es[j]) == (entries@[j].0@, entries@[j].1@),
            i <= n,
            issue_views(issues@) == service_issues(es.take(i as int), repo_exists@.take(i as int)),
        decreases n - i,
    {
        let name = &entries[i].0;
        let svc = &entries[i].1;
        let ghost before = issue_views(issues@);
        if !repo_exists[i] {
            let mut m = string_of("service ");
            push_str(&mut m, name.as_str());
            push_str(&mut m, " repo missing: ");
            push_str(&mut m, svc.repo.as_str());
            push_issue(&mut issues, "error", "missing_repo", m);
        }
        let missing = match &svc.start {
            None => true,
            Some(s) => blank(&chars_of(s.as_str())),
        };
        if missing {
            let mut m = string_of("service ");
            push_str(&mut m, name.as_str());
            push_str(&mut m, " has no start command");
            push_issue(&mut issues, "warn", "missing_start", m);
        }
        proof {
            let t = es.take(i + 1);
            assert(t.drop_last() =~= es.take(i as int));
            assert(repo_exists@.take(i + 1).drop_last() =~= repo_exists@.take(i as int));
            assert(t.last() == es[i as int]);
            assert(issue_views(issues@) =~= before + entry_issues(
                es[i as int].0,
                es[i as int].1,
                repo_exists@[i as int],
            ));
        }
        i = i + 1;
    }
    assert(es.take(n as int) =~= es);
    assert(repo_exists@.take(n as int) =~= repo_exists@);
    let ghost after_services = issue_views(issues@);
    // Ports shared by two or more services, by increasing port.
    let mut q: u32 = 0;
    while q < 0x10000
        invariant
            n == entries@.len(),
            es.len() == n,
            forall|j: int| 0 <= j < n ==> (#[trigger] es[j]) == (entries@[j].0@, entries@[j].1@),
            q <= 0x10000,
            issue_views(issues@) == after_services + duplicate_issues(es, q as int),
        decreases 0x10000 - q,
    {
        let port = q as u16;
        let mut names: Vec<Vec<char>> = Vec::new();
        let mut k: usize = 0;
        assert(es.take(0) =~= Seq::<(Seq<char>, ServiceView)>::empty());
        while k < n
            invariant
                n == entries@.len(),
                es.len() == n,
                forall|j: int| 0 <= j < n ==> (#[trigger] es[j]) == (entries@[j].0@, entries@[j].1@),
                k <= n,
                port as int == q as int,
                views(names@) == owners(es.take(k as int), q as int),
            decreases n - k,
        {
            let ghost prev = views(names@);
            proof {
                assert(es.take(k + 1).drop_last() =~= es.take(k as int));
                assert(es.take(k + 1).last() == es[k as int]);
            }
            if entries[k].1.port == port {
                names.push(chars_of(entries[k].0.as_str()));
                assert(views(names@) =~= prev + seq![es[k as int].0]);
            } else {
                assert(views(names@) =~= prev + Seq::<Seq<char>>::empty());
            }
            k = k + 1;
        }
        assert(es.take(n as int) =~= es);
        let ghost before = issue_views(issues@);
        if names.len() > 1 {
            let mut m = string_of("port ");
            push_dec(&mut m, q as u64);
            push_str(&mut m, " is assigned to: ");
            push_joined(&mut m, &names, ", ");
            push_issue(&mut issues, "error", "duplicate_port", m);
        }
        q = q + 1;
    }
    let ghost after_dups = issue_views(issues@);
    // Likely local development listeners on ports no service claims.
    let ghost rs = scan_views(running@);
    let ghost hv = crate::text::opt_str_view(home);
    let ghost f = |r: ScanView|
        if !configured(es, r.port) && likely_local_dev(r, hv) {
            Some(
                mk_issue(
                    "warn"@,
                    "unmapped_listener"@,
                    "listening port "@ + dec(r.port as nat) + " pid "@ + dec_int(r.pid as int)
                        + " not mapped in config"@,
                ),
            )
        } else {
            None
        };
    let mut r: usize = 0;
    assert(rs.take(0) =~= Seq::<ScanView>::empty());
    while r < running.len()
        invariant
            n == entries@.len(),
            es.len() == n,
            forall|j: int| 0 <= j < n ==> (#[trigger] es[j]) == (entries@[j].0@, entries@[j].1@),
            r <= running@.len(),
            rs == scan_views(running@),
            hv == crate::text::opt_str_view(home),
            f == (|r: ScanView|
                if !configured(es, r.port) && likely_local_dev(r, hv) {
                    Some(
                        mk_issue(
                            "warn"@,
                            "unmapped_listener"@,
                            "listening port "@ + dec(r.port as nat) + " pid "@ + dec_int(
                                r.pid as int,
                            ) + " not mapped in config"@,
                        ),
                    )
                } else {
                    None
                }),
            issue_views(issues@) == after_dups + filter_map(rs.take(r as int), f),
        decreases running@.len() - r,
    {
        let rec = &running[r];
        let mut is_configured = false;
        let mut k: usize = 0;
        while k < n
            invariant
                n == entries@.len(),
                es.len() == n,
                forall|j: int| 0 <= j < n ==> (#[trigger] es[j]) == (entries@[j].0@, entries@[j].1@),
                k <= n,
                is_configured == exists|j: int| 0 <= j < k && es[j].1.port == rec.port,
            decreases n - k,
        {
            assert(es[k as int].1.port == entries@[k as int].1.port);
            if entries[k].1.port == rec.port {
                is_configured = true;
            }
            k = k + 1;
        }
        let local = match &rec.repo_root {
            Some(_) => true,
            None => match (home, &rec.cwd) {
                (Some(h), Some(c)) => crate::config::path_prefix_eq(h, c.as_str()),
                _ => false,
            },
        };
        let ghost before = issue_views(issues@);
        proof {
            assert(rs.take(r + 1).drop_last() =~= rs.take(r as int));
            assert(rs.take(r + 1).last() == rec@);
        }
        if !is_configured && local {
            let mut m = string_of("listening port ");
            push_dec(&mut m, rec.port as u64);
            push_str(&mut m, " pid ");
            push_dec_signed(&mut m, rec.pid as i64);
            push_str(&mut m, " not mapped in config");
            push_issue(&mut issues, "warn", "unmapped_listener", m);
        }
        r = r + 1;
    }
    assert(rs.take(running@.len() as int) =~= rs);
    DoctorReport { issues }
}

} // verus!
