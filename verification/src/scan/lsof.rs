//! Parsing the listener table that `lsof -nP -iTCP -sTCP:LISTEN` prints.

use vstd::prelude::*;
use crate::scan::model::{listener_views, ListenerRecord, ListenerView};
use crate::text::{
    after_last, chars_of, chars_eq_str, contains, contains_seq, dec, dec_int, filter_map, is_token,
    is_ws, join_spaced, lemma_after_last_suffix, lemma_dec, lemma_dec_int_token,
    lemma_join_spaced_concat, lemma_parse_i32_dec_int, lemma_parse_u16_dec, lemma_words_join_spaced,
    lemma_filter_map_concat, matches_at,
    lemma_lines_after_first, lemma_lines_concat, lines, parse_i32,
    parse_u16, rsplit_first, skip_first, spec_parse_i32, spec_parse_u16, split_lines, split_words,
    string_of, views, words,
};

verus! {

/// The listener that one line of the `lsof` table describes: the second
/// column is the pid, the endpoint is the last column (the one before it when
/// the last reads `(LISTEN)`), the port follows its last `:`, and the protocol
/// is `tcp` when the line holds `" TCP"`. Lines of fewer than three columns,
/// or whose pid or port do not parse, describe none.
pub open spec fn spec_lsof_line(line: Seq<char>) -> Option<ListenerView> {
    let parts = words(line);
    if parts.len() < 3 {
        None
    } else {
        match spec_parse_i32(parts[1]) {
            None => None,
            Some(pid) => {
                let endpoint = if parts.last() == "(LISTEN)"@ {
                    parts[parts.len() - 2]
                } else {
                    parts.last()
                };
                match spec_parse_u16(after_last(endpoint, ':')) {
                    None => None,
                    Some(port) => Some(
                        ListenerView {
                            port,
                            protocol: if contains_seq(line, " TCP"@) {
                                "tcp"@
                            } else {
                                "unknown"@
                            },
                            pid,
                        },
                    ),
                }
            },
        }
    }
}

/// The listeners of an `lsof` table: one per line after the header that
/// describes one.
pub open spec fn spec_lsof_listeners(input: Seq<char>) -> Seq<ListenerView> {
    filter_map(skip_first(lines(input)), |l: Seq<char>| spec_lsof_line(l))
}

/// The listeners of table rows without a header.
pub open spec fn lsof_rows(body: Seq<char>) -> Seq<ListenerView> {
    filter_map(lines(body), |l: Seq<char>| spec_lsof_line(l))
}

/// The first line is always taken as the header and skipped, whatever it
/// holds (even a line that would describe a listener): only the rows after
/// it count.
pub proof fn law_lsof_header_skipped(header: Seq<char>, body: Seq<char>)
    requires
        forall|j: int| 0 <= j < header.len() ==> #[trigger] header[j] != '\n',
    ensures
        spec_lsof_listeners(header + seq!['\n'] + body) == lsof_rows(body),
{
    lemma_lines_after_first(header, body);
}

/// Splitting the rows under one header into two chunks, at a line end, splits
/// the listeners the same way: those of the first chunk, then those of the
/// second.
pub proof fn law_lsof_concat(header: Seq<char>, a: Seq<char>, b: Seq<char>)
    requires
        forall|j: int| 0 <= j < header.len() ==> #[trigger] header[j] != '\n',
        a.len() == 0 || a.last() == '\n',
    ensures
        spec_lsof_listeners(header + seq!['\n'] + (a + b)) == spec_lsof_listeners(
            header + seq!['\n'] + a,
        ) + spec_lsof_listeners(header + seq!['\n'] + b),
{
    law_lsof_header_skipped(header, a + b);
    law_lsof_header_skipped(header, a);
    law_lsof_header_skipped(header, b);
    lemma_lines_concat(a, b);
    lemma_filter_map_concat(lines(a), lines(b), |l: Seq<char>| spec_lsof_line(l));
}

/// A row of the `lsof` table for a process `pid` listening on `host:port`
/// (`host` being `*`, an address, or a bracketed IPv6 address), with or
/// without the closing `(LISTEN)` column.
pub open spec fn lsof_row(host: Seq<char>, port: u16, pid: i32, listen: bool) -> Seq<char> {
    join_spaced(
        seq!["cmd"@, dec_int(pid as int), "u"@, "10u"@, "IPv4"@, "0x1"@, "0t0"@, "TCP"@] + if listen {
            seq![host + seq![':'] + dec(port as nat), "(LISTEN)"@]
        } else {
            seq![host + seq![':'] + dec(port as nat)]
        },
    )
}

/// Every TCP row describes exactly its listener: the pid is the second
/// column, and the port is the whole number after the endpoint's last `:`,
/// for every port up to 65535 and every host text (even one holding `:`
/// itself, as `[::1]`), whether or not the row ends in `(LISTEN)`.
pub proof fn law_lsof_row(host: Seq<char>, port: u16, pid: i32, listen: bool)
    requires
        forall|j: int| 0 <= j < host.len() ==> !is_ws(#[trigger] host[j]),
    ensures
        spec_lsof_line(lsof_row(host, port, pid, listen)) == Some(
            ListenerView { port, protocol: "tcp"@, pid },
        ),
{
    reveal_strlit("cmd");
    reveal_strlit("u");
    reveal_strlit("10u");
    reveal_strlit("IPv4");
    reveal_strlit("0x1");
    reveal_strlit("0t0");
    reveal_strlit("TCP");
    reveal_strlit(" TCP");
    reveal_strlit("(LISTEN)");
    let d = dec(port as nat);
    lemma_dec(port as nat);
    lemma_dec_int_token(pid as int);
    lemma_parse_i32_dec_int(pid);
    lemma_parse_u16_dec(port);
    let endpoint = host + seq![':'] + d;
    assert forall|j: int| 0 <= j < endpoint.len() implies !is_ws(#[trigger] endpoint[j]) by {
        if j < host.len() {
            assert(endpoint[j] == host[j]);
        } else if j > host.len() {
            assert(endpoint[j] == d[j - host.len() - 1]);
        }
    }
    let a = seq!["cmd"@, dec_int(pid as int), "u"@, "10u"@, "IPv4"@, "0x1"@, "0t0"@];
    let rest: Seq<Seq<char>> = if listen {
        seq![endpoint, "(LISTEN)"@]
    } else {
        seq![endpoint]
    };
    let b = seq!["TCP"@] + rest;
    let ts = a + b;
    assert(ts =~= seq!["cmd"@, dec_int(pid as int), "u"@, "10u"@, "IPv4"@, "0x1"@, "0t0"@, "TCP"@]
        + rest);
    assert forall|i: int| 0 <= i < ts.len() implies is_token(#[trigger] ts[i]) by {
        if i == 8 {
            assert(ts[i] == endpoint);
        }
    }
    let line = lsof_row(host, port, pid, listen);
    lemma_words_join_spaced(ts);
    let parts = words(line);
    assert(parts == ts);
    if !listen {
        assert(parts.last() == endpoint);
        if endpoint == "(LISTEN)"@ {
            assert(endpoint[host.len() as int] == ':');
            assert("(LISTEN)"@[host.len() as int] != ':');
        }
    } else {
        assert(parts.last() == "(LISTEN)"@);
        assert(parts[parts.len() - 2] == endpoint);
    }
    assert forall|j: int| 0 <= j < d.len() implies #[trigger] d[j] != ':' by {
        assert(crate::text::is_digit(d[j]));
    }
    lemma_after_last_suffix(host, ':', d);
    lemma_join_spaced_concat(a, b);
    lemma_join_spaced_concat(seq!["TCP"@], rest);
    assert(join_spaced(seq!["TCP"@]) == "TCP"@);
    let k = join_spaced(a).len() as int;
    assert(line == join_spaced(a) + seq![' '] + ("TCP"@ + seq![' '] + join_spaced(rest)));
    assert(line.subrange(k, k + 4) =~= " TCP"@);
    assert(matches_at(line, " TCP"@, k));
}

/// Parses one line of the `lsof` table.
pub fn parse_line(line: &Vec<char>) -> (r: Option<ListenerRecord>)
    ensures
        match r {
            Some(rec) => spec_lsof_line(line@) == Some(rec@),
            None => spec_lsof_line(line@) is None,
        },
{
    let parts = split_words(line);
    let n = parts.len();
    if n < 3 {
        return None;
    }
    let pid = match parse_i32(&parts[1]) {
        Some(p) => p,
        None => return None,
    };
    let listen = chars_eq_str(&parts[n - 1], "(LISTEN)");
    let endpoint = if listen {
        &parts[n - 2]
    } else {
        &parts[n - 1]
    };
    assert(views(parts@).last() == parts@[n - 1]@);
    let tail = rsplit_first(endpoint, ':');
    let port = match parse_u16(&tail) {
        Some(p) => p,
        None => return None,
    };
    let tcp = contains(line, &chars_of(" TCP"));
    let protocol = if tcp {
        string_of("tcp")
    } else {
        string_of("unknown")
    };
    Some(ListenerRecord { port, protocol, pid })
}

/// Parses the `lsof` listener table: the header line is skipped and every
/// other line that describes a listener gives one record, in order.
pub fn parse_lsof_listeners(input: &str) -> (out: Vec<ListenerRecord>)
    ensures
        listener_views(out@) == spec_lsof_listeners(input@),
{
    let ls = split_lines(&chars_of(input));
    let ghost all = views(ls@);
    let ghost body = skip_first(all);
    let ghost f = |l: Seq<char>| spec_lsof_line(l);
    let mut out: Vec<ListenerRecord> = Vec::new();
    let mut i: usize = 1;
    if ls.len() == 0 {
        assert(body =~= Seq::<Seq<char>>::empty());
        return out;
    }
    assert(body.take(0) =~= Seq::<Seq<char>>::empty());
    while i < ls.len()
        invariant
            1 <= i <= ls.len(),
            all == views(ls@),
            body == all.drop_first(),
            f == (|l: Seq<char>| spec_lsof_line(l)),
            listener_views(out@) == filter_map(body.take(i - 1), f),
        decreases ls.len() - i,
    {
        let ghost prev = out@;
        let r = parse_line(&ls[i]);
        proof {
            assert(body.take(i as int).drop_last() =~= body.take(i - 1));
            assert(body.take(i as int).last() == ls@[i as int]@);
        }
        match r {
            Some(rec) => {
                out.push(rec);
                assert(listener_views(out@) =~= listener_views(prev) + seq![rec@]);
            },
            None => {},
        }
        i = i + 1;
    }
    assert(body.take(ls.len() - 1) =~= body);
    out
}

} // verus!
