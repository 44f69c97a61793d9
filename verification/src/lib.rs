//! Local development port manager: listener discovery parsing, the service
//! registry, health reports and the terminal browser's state, with their
//! contracts proved by Verus.

pub mod cli;
pub mod config;
pub mod error;
pub mod path;
pub mod proc;
pub mod render;
pub mod scan;
pub mod text;
pub mod tui;

use vstd::prelude::*;
use crate::config::{join_path, lookup, path_join, Config, ServiceConfig, ServiceView};
use crate::error::DevportsError;
use crate::scan::model::{scan_views, JoinedPortRecord, JoinedView, ScanRecord, ScanView};
use crate::text::{dec, pad_right, push_dec, push_padded, push_str, string_of, string_views};

verus! {

/// `http://127.0.0.1:<port>`: where a local service is opened.
pub open spec fn spec_local_url(port: u16) -> Seq<char> {
    "http://127.0.0.1:"@ + dec(port as nat)
}

/// The loopback URL of a local service.
pub fn local_service_url(port: u16) -> (url: String)
    ensures
        url@ == spec_local_url(port),
{
    let mut s = string_of("http://127.0.0.1:");
    push_dec(&mut s, port as u64);
    s
}

/// The URL that `open` and `start` use for a service: the loopback one.
pub fn service_url(port: u16) -> (url: String)
    ensures
        url@ == spec_local_url(port),
{
    local_service_url(port)
}

/// `http://<host>:<port>`.
pub open spec fn spec_host_url(host: Seq<char>, port: u16) -> Seq<char> {
    "http://"@ + host + ":"@ + dec(port as nat)
}

/// The URL of a service on the given host.
pub fn lan_url(host: &str, port: u16) -> (url: String)
    ensures
        url@ == spec_host_url(host@, port),
{
    let mut s = string_of("http://");
    push_str(&mut s, host);
    push_str(&mut s, ":");
    push_dec(&mut s, port as u64);
    s
}

/// The host name of this machine (`hostname::get`), lossily decoded, or the
/// empty text when it cannot be read. It depends on the machine, so nothing is
/// stated of it.
#[verifier::external_body]
fn default_host() -> (host: String) {
    hostname::get().unwrap_or_default().to_string_lossy().to_string()
}

/// The URL of a service on this machine's host name, for other devices on the
/// network.
pub fn lan_service_url(port: u16) -> (url: String)
    ensures
        exists|host: Seq<char>| url@ == spec_host_url(host, port),
{
    let host = default_host();
    lan_url(host.as_str(), port)
}

/// The listener joined with the configured service that it belongs to (see
/// `Config::match_service`).
pub open spec fn spec_join(es: config::Entries, r: ScanView) -> JoinedView {
    match config::spec_match_service(es, r.repo_root, r.cwd) {
        Some(i) => JoinedView {
            service_name: Some(es[i].0),
            configured_port: Some(es[i].1.port),
            record: r,
        },
        None => JoinedView { service_name: None, configured_port: None, record: r },
    }
}

/// Each listener, in order, with the configured service it belongs to.
pub fn join_records(records: &Vec<ScanRecord>, cfg: &Config) -> (out: Vec<JoinedPortRecord>)
    ensures
        out@.len() == records@.len(),
        forall|i: int| 0 <= i < out@.len() ==> (#[trigger] out@[i])@ == spec_join(cfg@, records@[i]@),
{
    let mut out: Vec<JoinedPortRecord> = Vec::new();
    let mut i: usize = 0;
    while i < records.len()
        invariant
            i <= records@.len(),
            out@.len() == i,
            forall|j: int| 0 <= j < i ==> (#[trigger] out@[j])@ == spec_join(cfg@, records@[j]@),
        decreases records@.len() - i,
    {
        let record = records[i].copy();
        let repo_root = match &record.repo_root {
            Some(r) => Some(r.as_str()),
            None => None,
        };
        let cwd = match &record.cwd {
            Some(c) => Some(c.as_str()),
            None => None,
        };
        let m = cfg.match_service(repo_root, cwd);
        proof {
            assert(crate::text::opt_str_view(repo_root) == record@.repo_root);
            assert(crate::text::opt_str_view(cwd) == record@.cwd);
        }
        let joined = match m {
            Some((name, svc)) => JoinedPortRecord {
                service_name: Some(string_of(name)),
                configured_port: Some(svc.port),
                record: record.copy(),
            },
            None => JoinedPortRecord {
                service_name: None,
                configured_port: None,
                record: record.copy(),
            },
        };
        out.push(joined);
        i = i + 1;
    }
    out
}

/// Finds the first listener on `port`.
pub fn find_listener(records: &Vec<ScanRecord>, port: u16) -> (r: Option<usize>)
    ensures
        match r {
            Some(i) => i < records@.len() && records@[i as int].port == port && forall|j: int|
                0 <= j < i ==> records@[j].port != port,
            None => forall|j: int| 0 <= j < records@.len() ==> records@[j].port != port,
        },
{
    let mut i: usize = 0;
    while i < records.len()
        invariant
            i <= records@.len(),
            forall|j: int| 0 <= j < i ==> records@[j].port != port,
        decreases records@.len() - i,
    {
        if records[i].port == port {
            return Some(i);
        }
        i = i + 1;
    }
    None
}

/// The listener that `kill --port` acts on: the first one on the port, or
/// the error that no listener was found.
pub fn listener_on_port(records: &Vec<ScanRecord>, port: u16) -> (r: Result<ScanRecord, DevportsError>)
    ensures
        match r {
            Ok(rec) => exists|i: int|
                0 <= i < records@.len() && records@[i]@ == rec@ && rec.port == port && (forall|j: int|
                    0 <= j < i ==> records@[j].port != port),
            Err(e) => (e matches DevportsError::NoListener { port: p } && p == port) && forall|j: int|
                0 <= j < records@.len() ==> records@[j].port != port,
        },
{
    match find_listener(records, port) {
        Some(i) => Ok(records[i].copy()),
        None => Err(DevportsError::NoListener { port }),
    }
}

/// A service can be started on `port` only when nothing listens there; the
/// error carries the first listener found on it.
pub fn ensure_port_available(records: &Vec<ScanRecord>, port: u16) -> (r: Result<(), DevportsError>)
    ensures
        match r {
            Ok(()) => forall|j: int| 0 <= j < records@.len() ==> records@[j].port != port,
            Err(e) => exists|i: int|
                0 <= i < records@.len() && records@[i].port == port && (forall|j: int|
                    0 <= j < i ==> records@[j].port != port) && (e matches DevportsError::PortInUse {
                    record,
                } && record@ == records@[i]@),
        },
{
    match find_listener(records, port) {
        Some(i) => Err(DevportsError::PortInUse { record: records[i].copy() }),
        None => Ok(()),
    }
}

/// The start log of a service: `<repo>/.devports/start.log`.
pub open spec fn spec_start_log_path(repo: Seq<char>) -> Seq<char> {
    path_join(path_join(repo, ".devports"@), "start.log"@)
}

/// The directory that holds the start log: `<repo>/.devports`.
pub fn start_log_dir(repo: &str) -> (dir: String)
    ensures
        dir@ == path_join(repo@, ".devports"@),
{
    join_path(repo, ".devports")
}

/// Where a started service writes its output.
pub fn start_log_path(repo: &str) -> (p: String)
    ensures
        p@ == spec_start_log_path(repo@),
{
    let dir = start_log_dir(repo);
    join_path(dir.as_str(), "start.log")
}

/// The command that starts a service: it needs a start command, then an
/// existing repository.
pub fn start_command(svc: &ServiceConfig, repo_exists: bool) -> (r: Result<String, DevportsError>)
    ensures
        match r {
            Ok(cmd) => svc.start matches Some(s) && cmd@ == s@ && repo_exists,
            Err(e) => (svc.start is None && e is MissingStartCommand) || (svc.start is Some
                && !repo_exists && (e matches DevportsError::RepoMissing { repo } && repo@
                == svc.repo@)),
        },
{
    match &svc.start {
        None => Err(DevportsError::MissingStartCommand),
        Some(s) => {
            if !repo_exists {
                Err(DevportsError::RepoMissing { repo: svc.repo.clone() })
            } else {
                Ok(s.clone())
            }
        },
    }
}

/// Some listener is on `port`.
pub open spec fn listening(rs: Seq<ScanView>, port: u16) -> bool {
    exists|i: int| 0 <= i < rs.len() && rs[i].port == port
}

/// What `open <name>` opens: the local URL of the named service, provided it
/// is configured and something listens on its port.
pub fn open_url(cfg: &Config, name: &str, records: &Vec<ScanRecord>) -> (r: Result<String, DevportsError>)
    ensures
        match r {
            Ok(url) => lookup(cfg@, name@) matches Some(svc) && listening(
                scan_views(records@),
                svc.port,
            ) && url@ == spec_local_url(svc.port),
            Err(DevportsError::ServiceNotFound { name: n }) => lookup(cfg@, name@) is None && n@
                == name@,
            Err(DevportsError::NotListening { name: n, url }) => lookup(cfg@, name@) matches Some(svc)
                && !listening(scan_views(records@), svc.port) && n@ == name@
                && url@ == spec_local_url(svc.port),
            Err(_) => false,
        },
{
    let svc = match cfg.service(name) {
        Ok(s) => s,
        Err(e) => return Err(e),
    };
    let found = find_listener(records, svc.port);
    proof {
        let rs = scan_views(records@);
        match found {
            Some(i) => {
                assert(rs[i as int].port == svc.port);
            },
            None => {
                assert forall|j: int| 0 <= j < rs.len() implies rs[j].port != svc.port by {
                    assert(rs[j] == records@[j]@);
                }
            },
        }
    }
    let url = service_url(svc.port);
    match found {
        Some(_) => Ok(url),
        None => Err(DevportsError::NotListening { name: string_of(name), url }),
    }
}

/// The line that `urls` prints when no service is configured.
pub open spec fn spec_no_services_line() -> Seq<char> {
    "no configured services; add one with `devports config add <name> --repo <path> --port <port>`"@
}

/// One `urls` line: the name padded to 20 columns, the service's URL on the
/// host, and `LISTEN` or `DOWN`.
pub open spec fn spec_url_line(name: Seq<char>, svc: ServiceView, host: Seq<char>, up: bool) -> Seq<
    char,
> {
    pad_right(name, 20) + " "@ + spec_host_url(host, svc.port) + " "@ + if up {
        "LISTEN"@
    } else {
        "DOWN"@
    }
}

/// `lines` are the `urls` lines for the host: the no-services line when no
/// service is configured, else one line per service in name order.
pub open spec fn url_lines_spec(
    es: config::Entries,
    rs: Seq<ScanView>,
    host: Seq<char>,
    lines: Seq<Seq<char>>,
) -> bool {
    &&& es.len() == 0 ==> lines.len() == 1 && lines[0] == spec_no_services_line()
    &&& es.len() > 0 ==> lines.len() == es.len() && forall|i: int|
        0 <= i < es.len() ==> (#[trigger] lines[i]) == spec_url_line(
            es[i].0,
            es[i].1,
            host,
            listening(rs, es[i].1.port),
        )
}

/// The lines of `urls` on a given host, one per service in name order.
pub fn url_lines_for_host(cfg: &Config, records: &Vec<ScanRecord>, host: &str) -> (lines: Vec<
    String,
>)
    ensures
        url_lines_spec(
            cfg@,
            scan_views(records@),
            host@,
            string_views(lines@),
        ),
{
    let entries = cfg.entries();
    let mut lines: Vec<String> = Vec::new();
    if entries.len() == 0 {
        lines.push(string_of(
            "no configured services; add one with `devports config add <name> --repo <path> --port <port>`",
        ));
        return lines;
    }
    let ghost es = cfg@;
    let ghost rs = scan_views(records@);
    let mut i: usize = 0;
    while i < entries.len()
        invariant
            i <= entries@.len(),
            es == cfg@,
            es.len() == entries@.len(),
            rs == scan_views(records@),
            forall|j: int| 0 <= j < es.len() ==> (#[trigger] es[j]) == (entries@[j].0@, entries@[j].1@),
            lines@.len() == i,
            forall|j: int|
                0 <= j < i ==> (#[trigger] lines@[j])@ == spec_url_line(
                    es[j].0,
                    es[j].1,
                    host@,
                    listening(rs, es[j].1.port),
                ),
        decreases entries@.len() - i,
    {
        let name = &entries[i].0;
        let svc = &entries[i].1;
        let up = match find_listener(records, svc.port) {
            Some(_) => true,
            None => false,
        };
        proof {
            assert(es[i as int] == (name@, svc@));
            if up {
                let k = choose|k: int| 0 <= k < records@.len() && records@[k].port == svc.port;
                assert(rs[k].port == svc.port);
            } else {
                assert forall|k: int| 0 <= k < rs.len() implies rs[k].port != svc.port by {
                    assert(rs[k] == records@[k]@);
                }
            }
        }
        let mut line = String::new();
        push_padded(&mut line, &crate::text::chars_of(name.as_str()), 20);
        push_str(&mut line, " ");
        let url = lan_url(host, svc.port);
        push_str(&mut line, url.as_str());
        push_str(&mut line, " ");
        push_str(&mut line, if up { "LISTEN" } else { "DOWN" });
        assert(line@ =~= spec_url_line(name@, svc@, host@, up));
        lines.push(line);
        i = i + 1;
    }
    lines
}

/// The lines of `urls`: on the given host, or on this machine's host name.
pub fn urls_lines(cfg: &Config, records: &Vec<ScanRecord>, host: Option<&str>) -> (lines: Vec<
    String,
>)
    ensures
        host matches Some(h) ==> url_lines_spec(
            cfg@,
            scan_views(records@),
            h@,
            string_views(lines@),
        ),
        host is None ==> exists|h: Seq<char>|
            #[trigger] url_lines_spec(
                cfg@,
                scan_views(records@),
                h,
                string_views(lines@),
            ),
{
    match host {
        Some(h) => url_lines_for_host(cfg, records, h),
        None => {
            let h = default_host();
            url_lines_for_host(cfg, records, h.as_str())
        },
    }
}

} // verus!
