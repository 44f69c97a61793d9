//! Parsing the listener table that `ss -lptn` prints.

use vstd::prelude::*;
use crate::scan::model::{listener_views, ListenerRecord, ListenerView};
use crate::text::{
    after_first, after_last, before_first, chars_of, dec, dec_int, filter_map, find_from, is_digit,
    is_token, is_ws, join_spaced, join_words_from, lemma_after_last_suffix, lemma_dec,
    lemma_dec_int_chars, lemma_dec_int_token, lemma_find_from, lemma_parse_i32_dec_int,
    lemma_parse_u16_dec, lemma_words_join_spaced, matches_at,
    lines, parse_i32, parse_u16, rsplit_first, skip_first, spec_parse_i32, spec_parse_u16,
    split_after, split_first, split_lines, split_words, string_of, views, words,
};

verus! {

/// The listener that one line of the `ss` table describes: the port follows
/// the last `:` of the fourth column, and the pid is the text between the
/// first `pid=` of the process columns (joined by single spaces) and the next
/// `pid=` or `,`. Lines of fewer than six columns, or whose port or pid do not
/// parse, describe none. The protocol is always `tcp`.
pub open spec fn spec_ss_line(line: Seq<char>) -> Option<ListenerView> {
    let parts = words(line);
    if parts.len() < 6 {
        None
    } else {
        match spec_parse_u16(after_last(parts[3], ':')) {
            None => None,
            Some(port) => match after_first(join_spaced(parts.skip(5)), "pid="@) {
                None => None,
                Some(rest) => match spec_parse_i32(
                    before_first(before_first(rest, "pid="@), ","@),
                ) {
                    None => None,
                    Some(pid) => Some(ListenerView { port, protocol: "tcp"@, pid }),
                },
            },
        }
    }
}

/// The listeners of an `ss` table: one per line after the header that
/// describes one.
pub open spec fn spec_ss_listeners(input: Seq<char>) -> Seq<ListenerView> {
    filter_map(skip_first(lines(input)), |l: Seq<char>| spec_ss_line(l))
}

/// A row of the `ss -lptn` table for a process `pid` listening on the local
/// address `host:port` (`host` may hold `:` itself, as `[::1]` or `[::]`).
pub open spec fn ss_row(host: Seq<char>, port: u16, pid: i32) -> Seq<char> {
    join_spaced(
        seq![
            "LISTEN"@,
            "0"@,
            "511"@,
            host + seq![':'] + dec(port as nat),
            "[::]:*"@,
            "pid="@ + dec_int(pid as int),
        ],
    )
}

/// Text made of digits and `'-'` holds no occurrence of a pattern that starts
/// with another character.
proof fn lemma_no_match_in_number(t: Seq<char>, p: Seq<char>)
    requires
        p.len() > 0,
        !is_digit(p[0]) && p[0] != '-',
        forall|j: int| 0 <= j < t.len() ==> is_digit(#[trigger] t[j]) || t[j] == '-',
    ensures
        before_first(t, p) == t,
{
    lemma_find_from(t, p, 0);
    if let Some(k) = find_from(t, p, 0) {
        assert(matches_at(t, p, k));
        assert(t.subrange(k, k + p.len())[0] == t[k]);
        assert(is_digit(t[k]) || t[k] == '-');
    }
}

/// Every listening row describes exactly its listener: the port is the whole
/// number after the LAST `:` of the local address, for every port up to 65535
/// and every host text (IPv6 hosts such as `[::1]` included), and the pid is
/// the number after `pid=`.
pub proof fn law_ss_row(host: Seq<char>, port: u16, pid: i32)
    requires
        forall|j: int| 0 <= j < host.len() ==> !is_ws(#[trigger] host[j]),
    ensures
        spec_ss_line(ss_row(host, port, pid)) == Some(ListenerView { port, protocol: "tcp"@, pid }),
{
    reveal_strlit("LISTEN");
    reveal_strlit("0");
    reveal_strlit("511");
    reveal_strlit("[::]:*");
    reveal_strlit("pid=");
    reveal_strlit(",");
    let d = dec(port as nat);
    let n = dec_int(pid as int);
    lemma_dec(port as nat);
    lemma_dec_int_token(pid as int);
    lemma_dec_int_chars(pid as int);
    lemma_parse_i32_dec_int(pid);
    lemma_parse_u16_dec(port);
    let endpoint = host + seq![':'] + d;
    assert forall|j: int| 0 <= j < endpoint.len() implies !is_ws(#[trigger] endpoint[j]) by {
        if j < host.len() {
            assert(endpoint[j] == host[j]);
        } else if j > host.len() {
            assert(endpoint[j] == d[j - host.len() - 1]);
        }
    }
    let pc = "pid="@ + n;
    assert forall|j: int| 0 <= j < pc.len() implies !is_ws(#[trigger] pc[j]) by {
        if j >= 4 {
            assert(pc[j] == n[j - 4]);
        }
    }
    let ts = seq!["LISTEN"@, "0"@, "511"@, endpoint, "[::]:*"@, pc];
    assert forall|i: int| 0 <= i < ts.len() implies is_token(#[trigger] ts[i]) by {}
    lemma_words_join_spaced(ts);
    let parts = words(ss_row(host, port, pid));
    assert(parts == ts);
    assert forall|j: int| 0 <= j < d.len() implies #[trigger] d[j] != ':' by {
        assert(is_digit(d[j]));
    }
    lemma_after_last_suffix(host, ':', d);
    assert(parts.skip(5) =~= seq![pc]);
    assert(join_spaced(seq![pc]) == pc);
    assert(pc.subrange(0, 4) =~= "pid="@);
    assert(matches_at(pc, "pid="@, 0));
    assert(find_from(pc, "pid="@, 0) == Some(0int));
    assert(pc.skip(4) =~= n);
    lemma_no_match_in_number(n, "pid="@);
    lemma_no_match_in_number(n, ","@);
}

/// Parses one line of the `ss` table.
pub fn parse_ss_line(line: &Vec<char>) -> (r: Option<ListenerRecord>)
    ensures
        match r {
            Some(rec) => spec_ss_line(line@) == Some(rec@),
            None => spec_ss_line(line@) is None,
        },
{
    let parts = split_words(line);
    if parts.len() < 6 {
        return None;
    }
    let tail = rsplit_first(&parts[3], ':');
    let port = match parse_u16(&tail) {
        Some(p) => p,
        None => return None,
    };
    let info = join_words_from(&parts, 5);
    let key = chars_of("pid=");
    let rest = match split_after(&info, &key) {
        Some(r) => r,
        None => return None,
    };
    let piece = split_first(&rest, &key);
    let text = split_first(&piece, &chars_of(","));
    let pid = match parse_i32(&text) {
        Some(p) => p,
        None => return None,
    };
    Some(ListenerRecord { port, protocol: string_of("tcp"), pid })
}

/// Parses the `ss` listener table: the header line is skipped and every other
/// line that describes a listener gives one record, in order.
pub fn parse_ss(input: &str) -> (out: Vec<ListenerRecord>)
    ensures
        listener_views(out@) == spec_ss_listeners(input@),
{
    let ls = split_lines(&chars_of(input));
    let ghost all = views(ls@);
    let ghost body = skip_first(all);
    let ghost f = |l: Seq<char>| spec_ss_line(l);
    let mut out: Vec<ListenerRecord> = Vec::new();
    let mut i: usize = 1;
    if ls.len() == 0 {
        assert(body =~= Seq::<Seq<char>>::empty());
        return out;
    }
    assert(body.take(0) =~= Seq::<Seq<char>>::empty());
    while i < ls.len()
        invariant
            1 <= i <= ls.len(),
            all == views(ls@),
            body == all.drop_first(),
            f == (|l: Seq<char>| spec_ss_line(l)),
            listener_views(out@) == filter_map(body.take(i - 1), f),
        decreases ls.len() - i,
    {
        let ghost prev = out@;
        let r = parse_ss_line(&ls[i]);
        proof {
            assert(body.take(i as int).drop_last() =~= body.take(i - 1));
            assert(body.take(i as int).last() == ls@[i as int]@);
        }
        match r {
            Some(rec) => {
                out.push(rec);
                assert(listener_views(out@) =~= listener_views(prev) + seq![rec@]);
            },
            None => {},
        }
        i = i + 1;
    }
    assert(body.take(ls.len() - 1) =~= body);
    out
}

} // verus!
