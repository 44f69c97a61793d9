//! The records that listener discovery produces.

use vstd::prelude::*;

verus! {

/// A listening socket as a system tool reported it.
#[derive(Debug, Clone, PartialEq, Eq, Hash)]
pub struct ListenerRecord {
    pub port: u16,
    pub protocol: String,
    pub pid: i32,
}

pub struct ListenerView {
    pub port: u16,
    pub protocol: Seq<char>,
    pub pid: i32,
}

impl View for ListenerRecord {
    type V = ListenerView;

    open spec fn view(&self) -> ListenerView {
        ListenerView { port: self.port, protocol: self.protocol@, pid: self.pid }
    }
}

pub open spec fn listener_views(v: Seq<ListenerRecord>) -> Seq<ListenerView> {
    v.map_values(|r: ListenerRecord| r@)
}

/// A listener together with what is known of its owning process.
#[derive(Debug, Clone)]
pub struct ScanRecord {
    pub port: u16,
    pub protocol: String,
    pub pid: i32,
    pub ppid: Option<i32>,
    pub pgid: Option<i32>,
    pub command: String,
    pub cwd: Option<String>,
    pub repo_root: Option<String>,
}

pub struct ScanView {
    pub port: u16,
    pub protocol: Seq<char>,
    pub pid: i32,
    pub ppid: Option<i32>,
    pub pgid: Option<i32>,
    pub command: Seq<char>,
    pub cwd: Option<Seq<char>>,
    pub repo_root: Option<Seq<char>>,
}

pub open spec fn opt_view(o: Option<String>) -> Option<Seq<char>> {
    match o {
        Some(s) => Some(s@),
        None => None,
    }
}

impl View for ScanRecord {
    type V = ScanView;

    open spec fn view(&self) -> ScanView {
        ScanView {
            port: self.port,
            protocol: self.protocol@,
            pid: self.pid,
            ppid: self.ppid,
            pgid: self.pgid,
            command: self.command@,
            cwd: opt_view(self.cwd),
            repo_root: opt_view(self.repo_root),
        }
    }
}

/// A copy of an optional string.
pub fn copy_opt(o: &Option<String>) -> (r: Option<String>)
    ensures
        opt_view(r) == opt_view(*o),
{
    match o {
        Some(s) => Some(s.clone()),
        None => None,
    }
}

impl ScanRecord {
    /// A field-by-field copy.
    pub fn copy(&self) -> (r: ScanRecord)
        ensures
            r@ == self@,
    {
        ScanRecord {
            port: self.port,
            protocol: self.protocol.clone(),
            pid: self.pid,
            ppid: self.ppid,
            pgid: self.pgid,
            command: self.command.clone(),
            cwd: copy_opt(&self.cwd),
            repo_root: copy_opt(&self.repo_root),
        }
    }
}

pub open spec fn scan_views(v: Seq<ScanRecord>) -> Seq<ScanView> {
    v.map_values(|r: ScanRecord| r@)
}

/// A listener joined with the configured service whose repository holds it.
#[derive(Debug, Clone)]
pub struct JoinedPortRecord {
    pub service_name: Option<String>,
    pub configured_port: Option<u16>,
    pub record: ScanRecord,
}

pub struct JoinedView {
    pub service_name: Option<Seq<char>>,
    pub configured_port: Option<u16>,
    pub record: ScanView,
}

impl View for JoinedPortRecord {
    type V = JoinedView;

    open spec fn view(&self) -> JoinedView {
        JoinedView {
            service_name: opt_view(self.service_name),
            configured_port: self.configured_port,
            record: self.record@,
        }
    }
}

impl JoinedPortRecord {
    /// A field-by-field copy.
    pub fn copy(&self) -> (r: JoinedPortRecord)
        ensures
            r@ == self@,
    {
        JoinedPortRecord {
            service_name: copy_opt(&self.service_name),
            configured_port: self.configured_port,
            record: self.record.copy(),
        }
    }
}

pub open spec fn joined_views(v: Seq<JoinedPortRecord>) -> Seq<JoinedView> {
    v.map_values(|r: JoinedPortRecord| r@)
}

} // verus!
