//! The lines of the `list` table, the doctor report and port conflicts.

use vstd::prelude::*;
use crate::config::doctor::{DoctorReport, IssueView};
use crate::scan::model::{JoinedPortRecord, JoinedView, ScanRecord, ScanView};
use crate::text::{
    string_views,
    chars_of, dec, dec_int, fmt_i64, fmt_u64, pad_right, push_chars, push_padded, push_str,
    string_of,
};
use crate::tui::ui::{match_label, name_or, spec_match_label};

verus! {

/// Six columns, left-aligned to widths 6, 20, 8, 8 and 8 and separated by two
/// spaces; the last is not padded.
pub open spec fn table_row(
    a: Seq<char>,
    b: Seq<char>,
    c: Seq<char>,
    d: Seq<char>,
    e: Seq<char>,
    f: Seq<char>,
) -> Seq<char> {
    pad_right(a, 6) + "  "@ + pad_right(b, 20) + "  "@ + pad_right(c, 8) + "  "@ + pad_right(d, 8)
        + "  "@ + pad_right(e, 8) + "  "@ + f
}

pub open spec fn pgid_text(g: Option<i32>) -> Seq<char> {
    match g {
        Some(v) => dec_int(v as int),
        None => "-"@,
    }
}

/// The `list` line of a joined listener.
pub open spec fn list_row(r: JoinedView) -> Seq<char> {
    table_row(
        dec(r.record.port as nat),
        name_or(r.service_name, "-"@),
        dec_int(r.record.pid as int),
        pgid_text(r.record.pgid),
        spec_match_label(r),
        r.record.command,
    )
}

pub open spec fn list_header() -> Seq<char> {
    table_row("PORT"@, "SERVICE"@, "PID"@, "PGID"@, "MATCH"@, "COMMAND"@)
}

fn row_line(
    a: &Vec<char>,
    b: &Vec<char>,
    c: &Vec<char>,
    d: &Vec<char>,
    e: &Vec<char>,
    f: &Vec<char>,
) -> (s: String)
    ensures
        s@ == table_row(a@, b@, c@, d@, e@, f@),
{
    let mut s = String::new();
    push_padded(&mut s, a, 6);
    push_str(&mut s, "  ");
    push_padded(&mut s, b, 20);
    push_str(&mut s, "  ");
    push_padded(&mut s, c, 8);
    push_str(&mut s, "  ");
    push_padded(&mut s, d, 8);
    push_str(&mut s, "  ");
    push_padded(&mut s, e, 8);
    push_str(&mut s, "  ");
    push_chars(&mut s, f);
    assert(s@ =~= table_row(a@, b@, c@, d@, e@, f@));
    s
}

/// The `list` table: the header, then one line per listener.
pub fn list_table_lines(records: &Vec<JoinedPortRecord>) -> (lines: Vec<String>)
    ensures
        lines@.len() == records@.len() + 1,
        lines@[0]@ == list_header(),
        forall|i: int| 0 <= i < records@.len() ==> (#[trigger] lines@[i + 1])@ == list_row(records@[i]@),
{
    let mut lines: Vec<String> = Vec::new();
    lines.push(row_line(
        &chars_of("PORT"),
        &chars_of("SERVICE"),
        &chars_of("PID"),
        &chars_of("PGID"),
        &chars_of("MATCH"),
        &chars_of("COMMAND"),
    ));
    let mut i: usize = 0;
    while i < records.len()
        invariant
            i <= records@.len(),
            lines@.len() == i + 1,
            lines@[0]@ == list_header(),
            forall|j: int| 0 <= j < i ==> (#[trigger] lines@[j + 1])@ == list_row(records@[j]@),
        decreases records@.len() - i,
    {
        let row = &records[i];
        let name = match &row.service_name {
            Some(n) => chars_of(n.as_str()),
            None => chars_of("-"),
        };
        let pgid = match row.record.pgid {
            Some(g) => fmt_i64(g as i64),
            None => chars_of("-"),
        };
        let line = row_line(
            &fmt_u64(row.record.port as u64),
            &name,
            &fmt_i64(row.record.pid as i64),
            &pgid,
            &chars_of(match_label(row)),
            &chars_of(row.record.command.as_str()),
        );
        lines.push(line);
        i = i + 1;
    }
    lines
}

/// The doctor report line of an issue: `[level] code: message`.
pub open spec fn issue_line(i: IssueView) -> Seq<char> {
    "["@ + i.level + "] "@ + i.code + ": "@ + i.message
}

/// The doctor report: `doctor: ok` when there is no issue, else one line per
/// issue.
pub fn doctor_report_lines(report: &DoctorReport) -> (lines: Vec<String>)
    ensures
        report.issues@.len() == 0 ==> string_views(lines@) == seq!["doctor: ok"@],
        report.issues@.len() > 0 ==> lines@.len() == report.issues@.len() && forall|i: int|
            0 <= i < lines@.len() ==> (#[trigger] lines@[i])@ == issue_line(report.issues@[i]@),
{
    let mut lines: Vec<String> = Vec::new();
    if report.issues.len() == 0 {
        lines.push(string_of("doctor: ok"));
        assert(string_views(lines@) =~= seq!["doctor: ok"@]);
        return lines;
    }
    let mut i: usize = 0;
    while i < report.issues.len()
        invariant
            i <= report.issues@.len(),
            lines@.len() == i,
            forall|j: int| 0 <= j < i ==> (#[trigger] lines@[j])@ == issue_line(report.issues@[j]@),
        decreases report.issues@.len() - i,
    {
        let issue = &report.issues[i];
        let mut s = string_of("[");
        push_str(&mut s, issue.level.as_str());
        push_str(&mut s, "] ");
        push_str(&mut s, issue.code.as_str());
        push_str(&mut s, ": ");
        push_str(&mut s, issue.message.as_str());
        lines.push(s);
        i = i + 1;
    }
    lines
}

/// The message printed when a port is already taken.
pub open spec fn spec_conflict_message(r: ScanView) -> Seq<char> {
    "port conflict: port="@ + dec(r.port as nat) + " pid="@ + dec_int(r.pid as int) + " pgid="@
        + pgid_text(r.pgid) + " cmd="@ + r.command + " cwd="@ + name_or(r.cwd, "-"@)
        + " repo_root="@ + name_or(r.repo_root, "-"@)
}

/// Describes the listener that holds a port.
pub fn conflict_message(record: &ScanRecord) -> (s: String)
    ensures
        s@ == spec_conflict_message(record@),
{
    let mut s = string_of("port conflict: port=");
    push_chars(&mut s, &fmt_u64(record.port as u64));
    push_str(&mut s, " pid=");
    push_chars(&mut s, &fmt_i64(record.pid as i64));
    push_str(&mut s, " pgid=");
    match record.pgid {
        Some(g) => push_chars(&mut s, &fmt_i64(g as i64)),
        None => push_str(&mut s, "-"),
    }
    push_str(&mut s, " cmd=");
    push_str(&mut s, record.command.as_str());
    push_str(&mut s, " cwd=");
    match &record.cwd {
        Some(c) => push_str(&mut s, c.as_str()),
        None => push_str(&mut s, "-"),
    }
    push_str(&mut s, " repo_root=");
    match &record.repo_root {
        Some(r) => push_str(&mut s, r.as_str()),
        None => push_str(&mut s, "-"),
    }
    s
}

} // verus!
