//! Listener discovery: parsing what `lsof` and `ss` report, and assembling the
//! records of a scan.

pub mod lsof;
pub mod model;
pub mod ss;

use vstd::prelude::*;
use crate::proc::ps::{PsInfo, PsView};
use crate::scan::model::{
    copy_opt, opt_view, scan_views, ListenerRecord, ListenerView, ScanRecord, ScanView,
};
use crate::text::string_of;

verus! {

/// What was learned about a listener's process: its `ps` line (when `ps`
/// could read it), its working directory and the repository that holds it.
pub struct ProcessFacts {
    pub ps: Option<PsInfo>,
    pub cwd: Option<String>,
    pub repo_root: Option<String>,
}

pub struct FactsView {
    pub ps: Option<PsView>,
    pub cwd: Option<Seq<char>>,
    pub repo_root: Option<Seq<char>>,
}

impl View for ProcessFacts {
    type V = FactsView;

    open spec fn view(&self) -> FactsView {
        FactsView {
            ps: match self.ps {
                Some(p) => Some(p@),
                None => None,
            },
            cwd: opt_view(self.cwd),
            repo_root: opt_view(self.repo_root),
        }
    }
}

/// The record of one listener: parent pid, process group and command come
/// from its `ps` line, the command being `<unknown>` without one.
pub open spec fn spec_scan_record(l: ListenerView, f: FactsView) -> ScanView {
    ScanView {
        port: l.port,
        protocol: l.protocol,
        pid: l.pid,
        ppid: match f.ps {
            Some(p) => Some(p.ppid),
            None => None,
        },
        pgid: match f.ps {
            Some(p) => Some(p.pgid),
            None => None,
        },
        command: match f.ps {
            Some(p) => p.command,
            None => "<unknown>"@,
        },
        cwd: f.cwd,
        repo_root: f.repo_root,
    }
}

/// Ports never decrease along the records.
pub open spec fn sorted_by_port(s: Seq<ScanView>) -> bool {
    forall|i: int, j: int| 0 <= i < j < s.len() ==> s[i].port <= s[j].port
}

pub open spec fn on_port(p: u16) -> spec_fn(ScanView) -> bool {
    |r: ScanView| r.port == p
}

/// `sorted` orders `s` by port and keeps the order of records that share a
/// port (a stable sort).
pub open spec fn stable_sorted_by_port(s: Seq<ScanView>, sorted: Seq<ScanView>) -> bool {
    &&& sorted_by_port(sorted)
    &&& forall|p: u16| #[trigger] sorted.filter(on_port(p)) == s.filter(on_port(p))
}

/// Inserts `x` after every record whose port is not above its port.
fn insert_by_port(out: &mut Vec<ScanRecord>, x: ScanRecord)
    requires
        sorted_by_port(scan_views(old(out)@)),
    ensures
        sorted_by_port(scan_views(final(out)@)),
        forall|p: u16|
            #[trigger] scan_views(final(out)@).filter(on_port(p)) == scan_views(old(out)@).filter(
                on_port(p),
            ) + seq![x@].filter(on_port(p)),
{
    let ghost xs = x@;
    let ghost old_v = scan_views(out@);
    let mut pos: usize = 0;
    while pos < out.len() && out[pos].port <= x.port
        invariant
            pos <= out@.len(),
            old_v == scan_views(out@),
            forall|j: int| 0 <= j < pos ==> old_v[j].port <= xs.port,
            xs == x@,
        decreases out@.len() - pos,
    {
        pos = pos + 1;
    }
    out.insert(pos, x);
    let ghost new_v = scan_views(out@);
    proof {
        assert(new_v =~= old_v.take(pos as int) + seq![xs] + old_v.skip(pos as int));
        assert(old_v =~= old_v.take(pos as int) + old_v.skip(pos as int));
        assert forall|j: int| 0 <= j < old_v.len() - pos implies (#[trigger] old_v.skip(
            pos as int,
        )[j]).port > xs.port by {
            assert(old_v.skip(pos as int)[j] == old_v[pos + j]);
            assert(old_v[pos as int].port > xs.port);
            assert(old_v[pos as int].port <= old_v[pos + j].port);
        }
        assert forall|i: int, j: int| 0 <= i < j < new_v.len() implies new_v[i].port
            <= new_v[j].port by {
            if i < pos && j > pos {
                assert(new_v[j] == old_v[j - 1]);
            } else if i > pos {
                assert(new_v[i] == old_v[i - 1]);
                assert(new_v[j] == old_v[j - 1]);
            } else if i == pos {
                assert(new_v[j] == old_v[j - 1]);
            }
        }
        assert forall|p: u16| #[trigger] new_v.filter(on_port(p)) == old_v.filter(on_port(p))
            + seq![xs].filter(on_port(p)) by {
            let f = on_port(p);
            let a = old_v.take(pos as int);
            let b = old_v.skip(pos as int);
            Seq::filter_distributes_over_add(a + seq![xs], b, f);
            Seq::filter_distributes_over_add(a, seq![xs], f);
            Seq::filter_distributes_over_add(a, b, f);
            if p == xs.port {
                assert forall|j: int| 0 <= j < b.len() implies !f(#[trigger] b[j]) by {}
                b.lemma_all_neg_filter_empty(f);
                assert(b.filter(f) =~= Seq::<ScanView>::empty());
                assert(a.filter(f) + b.filter(f) =~= a.filter(f));
                assert(a.filter(f) + seq![xs].filter(f) + b.filter(f) =~= a.filter(f) + seq![
                    xs,
                ].filter(f));
            } else {
                assert(seq![xs].filter(f) =~= Seq::<ScanView>::empty()) by {
                    reveal_with_fuel(Seq::filter, 2);
                }
                assert(a.filter(f) + seq![xs].filter(f) + b.filter(f) =~= a.filter(f) + b.filter(
                    f,
                ) + seq![xs].filter(f));
            }
        }
    }
}

/// The records of a scan: one per listener, from what was learned about its
/// process (`facts[i]` for `listeners[i]`), ordered by port with listeners on
/// the same port kept in discovery order.
pub fn scan_listeners(listeners: Vec<ListenerRecord>, facts: Vec<ProcessFacts>) -> (out: Vec<
    ScanRecord,
>)
    requires
        listeners@.len() == facts@.len(),
    ensures
        stable_sorted_by_port(
            Seq::new(
                listeners@.len(),
                |i: int| spec_scan_record(listeners@[i]@, facts@[i]@),
            ),
            scan_views(out@),
        ),
{
    let ghost unsorted = Seq::new(
        listeners@.len(),
        |i: int| spec_scan_record(listeners@[i]@, facts@[i]@),
    );
    let mut out: Vec<ScanRecord> = Vec::new();
    let mut i: usize = 0;
    assert(unsorted.take(0) =~= Seq::<ScanView>::empty());
    while i < listeners.len()
        invariant
            i <= listeners@.len(),
            listeners@.len() == facts@.len(),
            unsorted == Seq::new(
                listeners@.len(),
                |i: int| spec_scan_record(listeners@[i]@, facts@[i]@),
            ),
            sorted_by_port(scan_views(out@)),
            forall|p: u16|
                #[trigger] scan_views(out@).filter(on_port(p)) == unsorted.take(i as int).filter(
                    on_port(p),
                ),
        decreases listeners@.len() - i,
    {
        let l = &listeners[i];
        let f = &facts[i];
        let rec = ScanRecord {
            port: l.port,
            protocol: l.protocol.clone(),
            pid: l.pid,
            ppid: match &f.ps {
                Some(p) => Some(p.ppid),
                None => None,
            },
            pgid: match &f.ps {
                Some(p) => Some(p.pgid),
                None => None,
            },
            command: match &f.ps {
                Some(p) => p.command.clone(),
                None => string_of("<unknown>"),
            },
            cwd: copy_opt(&f.cwd),
            repo_root: copy_opt(&f.repo_root),
        };
        assert(rec@ == unsorted[i as int]);
        let ghost before = scan_views(out@);
        insert_by_port(&mut out, rec);
        proof {
            assert forall|p: u16| #[trigger] scan_views(out@).filter(on_port(p)) == unsorted.take(
                i + 1,
            ).filter(on_port(p)) by {
                assert(unsorted.take(i + 1) =~= unsorted.take(i as int) + seq![unsorted[i as int]]);
                Seq::filter_distributes_over_add(
                    unsorted.take(i as int),
                    seq![unsorted[i as int]],
                    on_port(p),
                );
            }
        }
        i = i + 1;
    }
    assert(unsorted.take(listeners@.len() as int) =~= unsorted);
    out
}

/// `r` is the record of the listener `l` with the facts `f`: the listener's
/// port, protocol and pid; from its `ps` line the parent pid, the process
/// group and the command (none, none and `<unknown>` without a line); and its
/// working directory and repository.
pub open spec fn describes(r: ScanView, l: ListenerView, f: FactsView) -> bool {
    &&& r.port == l.port
    &&& r.protocol == l.protocol
    &&& r.pid == l.pid
    &&& match f.ps {
        Some(p) => r.ppid == Some(p.ppid) && r.pgid == Some(p.pgid) && r.command == p.command,
        None => r.ppid is None && r.pgid is None && r.command == "<unknown>"@,
    }
    &&& r.cwd == f.cwd
    &&& r.repo_root == f.repo_root
}

/// Some listener, with its facts, is described by `r`.
pub open spec fn of_some_listener(r: ScanView, ls: Seq<ListenerView>, fs: Seq<FactsView>) -> bool {
    exists|i: int| 0 <= i < ls.len() && #[trigger] describes(r, ls[i], fs[i])
}

/// Some record describes the listener `l` with the facts `f`.
pub open spec fn has_record(out: Seq<ScanView>, l: ListenerView, f: FactsView) -> bool {
    exists|j: int| 0 <= j < out.len() && #[trigger] describes(out[j], l, f)
}

/// The records of a scan are the records of its listeners: each record
/// describes one listener (its process group is the `ps` line's process
/// group, its parent pid the line's parent pid), and each listener is
/// described by one of the records.
pub proof fn law_scan_records(ls: Seq<ListenerView>, fs: Seq<FactsView>, out: Seq<ScanView>)
    requires
        ls.len() == fs.len(),
        stable_sorted_by_port(Seq::new(ls.len(), |i: int| spec_scan_record(ls[i], fs[i])), out),
    ensures
        forall|j: int| 0 <= j < out.len() ==> of_some_listener(#[trigger] out[j], ls, fs),
        forall|i: int| 0 <= i < ls.len() ==> has_record(out, #[trigger] ls[i], fs[i]),
{
    let unsorted = Seq::new(ls.len(), |i: int| spec_scan_record(ls[i], fs[i]));
    assert forall|j: int| 0 <= j < out.len() implies of_some_listener(#[trigger] out[j], ls, fs) by {
        let x = out[j];
        let f = on_port(x.port);
        out.lemma_filter_contains(f, j);
        assert(out.filter(f) == unsorted.filter(f));
        unsorted.lemma_filter_contains_rev(f, x);
        let i = choose|i: int| 0 <= i < unsorted.len() && unsorted[i] == x;
        assert(unsorted[i] == spec_scan_record(ls[i], fs[i]));
        assert(describes(x, ls[i], fs[i]));
    }
    assert forall|i: int| 0 <= i < ls.len() implies has_record(out, #[trigger] ls[i], fs[i]) by {
        let x = unsorted[i];
        let f = on_port(x.port);
        unsorted.lemma_filter_contains(f, i);
        assert(out.filter(f) == unsorted.filter(f));
        out.lemma_filter_contains_rev(f, x);
        let j = choose|j: int| 0 <= j < out.len() && out[j] == x;
        assert(describes(out[j], ls[i], fs[i]));
    }
}

/// Whether the `lsof` listing is kept: it is, when `lsof` ran and found at
/// least one listener; otherwise the scan falls back to `ss`.
pub fn keep_lsof_listing(lsof: &Option<Vec<ListenerRecord>>) -> (keep: bool)
    ensures
        keep == (lsof matches Some(v) && v@.len() > 0),
{
    match lsof {
        Some(v) => v.len() > 0,
        None => false,
    }
}

} // verus!
