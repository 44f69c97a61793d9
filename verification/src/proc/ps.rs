//! Parsing `ps` output, and the process tree below a pid.

use vstd::prelude::*;
use crate::text::{
    chars_of, dec_int, filter_map, join_spaced, join_words_from, lemma_dec_int_token,
    lemma_parse_i32_dec_int, lemma_words_space, lemma_words_token, lines, parse_i32,
    parse_i32_or_error, spec_i32_error, spec_int_error_message, spec_parse_i32, IntParseError, split_lines, split_words, string_from, trim, trim_chars, views, words,
};

verus! {

/// One process as `ps -o pid=,ppid=,pgid=,command=` describes it.
#[derive(Debug, Clone)]
pub struct PsInfo {
    pub pid: i32,
    pub ppid: i32,
    pub pgid: i32,
    pub command: String,
}

pub struct PsView {
    pub pid: i32,
    pub ppid: i32,
    pub pgid: i32,
    pub command: Seq<char>,
}

impl View for PsInfo {
    type V = PsView;

    open spec fn view(&self) -> PsView {
        PsView { pid: self.pid, ppid: self.ppid, pgid: self.pgid, command: self.command@ }
    }
}

/// The numeric columns of a `ps` line.
#[derive(Debug, Clone, Copy, PartialEq, Eq, Structural)]
pub enum PsField {
    Pid,
    Ppid,
    Pgid,
}

/// Why a `ps` line could not be read.
#[derive(Debug, Clone, Copy, PartialEq, Eq, Structural)]
pub enum PsParseError {
    /// The line has no column for the field.
    Missing(PsField),
    /// A field's column is not an `i32`: std's reason.
    Invalid(IntParseError),
}

impl PsField {
    /// The field's name as `ps` options spell it.
    pub fn name(&self) -> (s: &'static str)
        ensures
            s@ == spec_field_name(*self),
    {
        match self {
            PsField::Pid => "pid",
            PsField::Ppid => "ppid",
            PsField::Pgid => "pgid",
        }
    }
}

pub open spec fn spec_field_name(f: PsField) -> Seq<char> {
    match f {
        PsField::Pid => "pid"@,
        PsField::Ppid => "ppid"@,
        PsField::Pgid => "pgid"@,
    }
}

pub open spec fn spec_ps_error_message(e: PsParseError) -> Seq<char> {
    match e {
        PsParseError::Missing(f) => "missing "@ + spec_field_name(f),
        PsParseError::Invalid(e) => spec_int_error_message(e),
    }
}

impl PsParseError {
    /// The error as text: `missing pid`, ..., or std's message for a column
    /// that is not an `i32` (`invalid digit found in string`, ...).
    pub fn message(&self) -> (s: String)
        ensures
            s@ == spec_ps_error_message(*self),
    {
        match self {
            PsParseError::Missing(f) => {
                let mut s = crate::text::string_of("missing ");
                crate::text::push_str(&mut s, f.name());
                s
            },
            PsParseError::Invalid(e) => crate::text::string_of(e.message()),
        }
    }
}

/// The numeric field at column `i` of a line's words.
pub open spec fn spec_ps_field(parts: Seq<Seq<char>>, i: int, f: PsField) -> Result<i32, PsParseError> {
    if parts.len() <= i {
        Err(PsParseError::Missing(f))
    } else {
        match spec_parse_i32(parts[i]) {
            Some(v) => Ok(v),
            None => Err(PsParseError::Invalid(spec_i32_error(parts[i]))),
        }
    }
}

/// A `ps -o pid=,ppid=,pgid=,command=` line: three `i32` columns, read in that
/// order (the first missing or unreadable one is the error), and the command
/// as the remaining words joined by single spaces.
pub open spec fn spec_ps_line(line: Seq<char>) -> Result<PsView, PsParseError> {
    let parts = words(line);
    match spec_ps_field(parts, 0, PsField::Pid) {
        Err(e) => Err(e),
        Ok(pid) => match spec_ps_field(parts, 1, PsField::Ppid) {
            Err(e) => Err(e),
            Ok(ppid) => match spec_ps_field(parts, 2, PsField::Pgid) {
                Err(e) => Err(e),
                Ok(pgid) => Ok(PsView { pid, ppid, pgid, command: join_spaced(parts.skip(3)) }),
            },
        },
    }
}

fn ps_field(parts: &Vec<Vec<char>>, i: usize, f: PsField) -> (r: Result<i32, PsParseError>)
    ensures
        r == spec_ps_field(views(parts@), i as int, f),
{
    if parts.len() <= i {
        Err(PsParseError::Missing(f))
    } else {
        match parse_i32_or_error(&parts[i]) {
            Ok(v) => Ok(v),
            Err(e) => Err(PsParseError::Invalid(e)),
        }
    }
}

/// Parses one `ps -o pid=,ppid=,pgid=,command=` line.
pub fn parse_ps_line(line: &str) -> (r: Result<PsInfo, PsParseError>)
    ensures
        match r {
            Ok(info) => spec_ps_line(line@) == Ok::<PsView, PsParseError>(info@),
            Err(e) => spec_ps_line(line@) == Err::<PsView, PsParseError>(e),
        },
{
    let parts = split_words(&chars_of(line));
    let pid = match ps_field(&parts, 0, PsField::Pid) {
        Ok(v) => v,
        Err(e) => return Err(e),
    };
    let ppid = match ps_field(&parts, 1, PsField::Ppid) {
        Ok(v) => v,
        Err(e) => return Err(e),
    };
    let pgid = match ps_field(&parts, 2, PsField::Pgid) {
        Ok(v) => v,
        Err(e) => return Err(e),
    };
    let command = string_from(&join_words_from(&parts, 3));
    Ok(PsInfo { pid, ppid, pgid, command })
}

/// The line that `ps -o pid=,ppid=,pgid=,command=` prints for a process: the
/// three numbers and the command, separated by single spaces.
pub open spec fn ps_line_text(pid: i32, ppid: i32, pgid: i32, command: Seq<char>) -> Seq<char> {
    dec_int(pid as int) + seq![' '] + dec_int(ppid as int) + seq![' '] + dec_int(pgid as int)
        + seq![' '] + command
}

/// A printed `ps` line reads back as the process it describes, for any
/// command whose words are already separated by single spaces.
pub proof fn law_ps_line_round_trip(pid: i32, ppid: i32, pgid: i32, command: Seq<char>)
    requires
        command == join_spaced(words(command)),
    ensures
        spec_ps_line(ps_line_text(pid, ppid, pgid, command)) == Ok::<PsView, PsParseError>(
            PsView { pid, ppid, pgid, command },
        ),
{
    let a = dec_int(pid as int);
    let b = dec_int(ppid as int);
    let c = dec_int(pgid as int);
    let sp = seq![' '];
    lemma_dec_int_token(pid as int);
    lemma_dec_int_token(ppid as int);
    lemma_dec_int_token(pgid as int);
    lemma_parse_i32_dec_int(pid);
    lemma_parse_i32_dec_int(ppid);
    lemma_parse_i32_dec_int(pgid);
    let r3 = sp + command;
    let r2 = sp + (c + r3);
    let r1 = sp + (b + r2);
    assert(ps_line_text(pid, ppid, pgid, command) =~= a + r1);
    lemma_words_space(command);
    lemma_words_token(c, r3);
    lemma_words_space(c + r3);
    lemma_words_token(b, r2);
    lemma_words_space(b + r2);
    lemma_words_token(a, r1);
    let parts = words(ps_line_text(pid, ppid, pgid, command));
    assert(parts =~= seq![a, b, c] + words(command));
    assert(parts.skip(3) =~= words(command));
}

/// A `ps` line is refused exactly when it has fewer than three words or one
/// of its first three words is not an `i32`.
pub proof fn law_ps_line_rejects(line: Seq<char>)
    ensures
        spec_ps_line(line) is Err <==> {
            let parts = words(line);
            ||| parts.len() < 3
            ||| spec_parse_i32(parts[0]) is None
            ||| spec_parse_i32(parts[1]) is None
            ||| spec_parse_i32(parts[2]) is None
        },
{
}

/// The pids of `ps -o pid= -g <pgid>` output: every line that is an `i32` once
/// trimmed.
pub open spec fn spec_pid_lines(out: Seq<char>) -> Seq<i32> {
    filter_map(lines(out), |l: Seq<char>| spec_parse_i32(trim(l)))
}

/// Reads the pids that `ps -o pid= -g <pgid>` printed.
pub fn parse_pid_lines(out: &str) -> (pids: Vec<i32>)
    ensures
        pids@ == spec_pid_lines(out@),
{
    let ls = split_lines(&chars_of(out));
    let ghost all = views(ls@);
    let ghost f = |l: Seq<char>| spec_parse_i32(trim(l));
    let mut pids: Vec<i32> = Vec::new();
    let mut i: usize = 0;
    assert(all.take(0) =~= Seq::<Seq<char>>::empty());
    while i < ls.len()
        invariant
            i <= ls.len(),
            all == views(ls@),
            f == (|l: Seq<char>| spec_parse_i32(trim(l))),
            pids@ == filter_map(all.take(i as int), f),
        decreases ls.len() - i,
    {
        let ghost prev = pids@;
        let t = trim_chars(&ls[i]);
        proof {
            assert(all.take(i + 1).drop_last() =~= all.take(i as int));
            assert(all.take(i + 1).last() == ls@[i as int]@);
        }
        match parse_i32(&t) {
            Some(v) => {
                pids.push(v);
                assert(pids@ =~= prev + seq![v]);
            },
            None => {},
        }
        i = i + 1;
    }
    assert(all.take(ls.len() as int) =~= all);
    pids
}

/// A `ps -e -o pid=,ppid=` line: its first two words as `(pid, ppid)`.
pub open spec fn spec_pid_pair(l: Seq<char>) -> Option<(i32, i32)> {
    let parts = words(l);
    if parts.len() < 2 {
        None
    } else {
        match (spec_parse_i32(parts[0]), spec_parse_i32(parts[1])) {
            (Some(pid), Some(ppid)) => Some((pid, ppid)),
            _ => None,
        }
    }
}

/// The `(pid, ppid)` pairs of `ps -e -o pid=,ppid=` output.
pub open spec fn spec_pid_pairs(out: Seq<char>) -> Seq<(i32, i32)> {
    filter_map(lines(out), |l: Seq<char>| spec_pid_pair(l))
}

/// Reads the `(pid, ppid)` pairs that `ps -e -o pid=,ppid=` printed.
pub fn parse_pid_pairs(out: &str) -> (pairs: Vec<(i32, i32)>)
    ensures
        pairs@ == spec_pid_pairs(out@),
{
    let ls = split_lines(&chars_of(out));
    let ghost all = views(ls@);
    let ghost f = |l: Seq<char>| spec_pid_pair(l);
    let mut pairs: Vec<(i32, i32)> = Vec::new();
    let mut i: usize = 0;
    assert(all.take(0) =~= Seq::<Seq<char>>::empty());
    while i < ls.len()
        invariant
            i <= ls.len(),
            all == views(ls@),
            f == (|l: Seq<char>| spec_pid_pair(l)),
            pairs@ == filter_map(all.take(i as int), f),
        decreases ls.len() - i,
    {
        let ghost prev = pairs@;
        let parts = split_words(&ls[i]);
        proof {
            assert(all.take(i + 1).drop_last() =~= all.take(i as int));
            assert(all.take(i + 1).last() == ls@[i as int]@);
        }
        if parts.len() >= 2 {
            match (parse_i32(&parts[0]), parse_i32(&parts[1])) {
                (Some(pid), Some(ppid)) => {
                    pairs.push((pid, ppid));
                    assert(pairs@ =~= prev + seq![(pid, ppid)]);
                },
                _ => {},
            }
        }
        i = i + 1;
    }
    assert(all.take(ls.len() as int) =~= all);
    pairs
}


/// `child` is listed with parent `parent`.
pub open spec fn is_child_of(pairs: Seq<(i32, i32)>, parent: i32, child: i32) -> bool {
    exists|k: int| 0 <= k < pairs.len() && pairs[k] == (child, parent)
}

/// The pids at most `n` parent-to-child steps below `root`.
pub open spec fn reach(pairs: Seq<(i32, i32)>, root: i32, n: nat) -> Set<i32>
    decreases n,
{
    if n == 0 {
        set![root]
    } else {
        let prev = reach(pairs, root, (n - 1) as nat);
        prev.union(Set::new(|c: i32| exists|p: i32| prev.contains(p) && is_child_of(pairs, p, c)))
    }
}

/// `x` is `root` or a descendant of it.
pub open spec fn in_tree(pairs: Seq<(i32, i32)>, root: i32, x: i32) -> bool {
    exists|n: nat| reach(pairs, root, n).contains(x)
}

pub open spec fn strictly_increasing(s: Seq<i32>) -> bool {
    forall|i: int, j: int| 0 <= i < j < s.len() ==> s[i] < s[j]
}

/// A pid listed as a child, or the root: the pids a tree walk can meet.
pub open spec fn candidates(pairs: Seq<(i32, i32)>, root: i32) -> Seq<i32> {
    seq![root] + pairs.map_values(|p: (i32, i32)| p.0)
}

proof fn lemma_child_in_tree(pairs: Seq<(i32, i32)>, root: i32, p: i32, k: int)
    requires
        in_tree(pairs, root, p),
        0 <= k < pairs.len(),
        pairs[k].1 == p,
    ensures
        in_tree(pairs, root, pairs[k].0),
{
    let n = choose|n: nat| reach(pairs, root, n).contains(p);
    let c = pairs[k].0;
    assert(pairs[k] == (c, p));
    assert(is_child_of(pairs, p, c));
    assert(reach(pairs, root, n + 1).contains(c));
}

proof fn lemma_closed_covers(pairs: Seq<(i32, i32)>, root: i32, s: Set<i32>, n: nat)
    requires
        s.contains(root),
        forall|k: int| 0 <= k < pairs.len() && s.contains(#[trigger] pairs[k].1) ==> s.contains(pairs[k].0),
    ensures
        reach(pairs, root, n).subset_of(s),
    decreases n,
{
    if n > 0 {
        lemma_closed_covers(pairs, root, s, (n - 1) as nat);
        let prev = reach(pairs, root, (n - 1) as nat);
        assert forall|c: i32| reach(pairs, root, n).contains(c) implies s.contains(c) by {
            if !prev.contains(c) {
                let p = choose|p: i32| prev.contains(p) && is_child_of(pairs, p, c);
                let k = choose|k: int| 0 <= k < pairs.len() && pairs[k] == (c, p);
                assert(pairs[k].1 == p);
            }
        }
    }
}

proof fn lemma_unique_within(a: Seq<i32>, u: Seq<i32>)
    requires
        a.no_duplicates(),
        forall|i: int| 0 <= i < a.len() ==> u.contains(#[trigger] a[i]),
    ensures
        a.len() <= u.len(),
{
    a.unique_seq_to_set();
    u.lemma_cardinality_of_set();
    assert(a.to_set().subset_of(u.to_set()));
    vstd::set_lib::lemma_len_subset(a.to_set(), u.to_set());
    vstd::seq_lib::seq_to_set_is_finite(u);
}

/// Whether `x` occurs in `v`.
pub fn vec_contains_i32(v: &Vec<i32>, x: i32) -> (b: bool)
    ensures
        b == v@.contains(x),
{
    let mut i: usize = 0;
    while i < v.len()
        invariant
            i <= v.len(),
            forall|j: int| 0 <= j < i ==> v@[j] != x,
        decreases v.len() - i,
    {
        if v[i] == x {
            return true;
        }
        i = i + 1;
    }
    false
}

/// Inserts `x` into a strictly increasing vector that lacks it, keeping it
/// strictly increasing.
pub fn insert_sorted_i32(v: &mut Vec<i32>, x: i32)
    requires
        strictly_increasing(old(v)@),
        !old(v)@.contains(x),
    ensures
        strictly_increasing(final(v)@),
        final(v)@.len() == old(v)@.len() + 1,
        forall|y: i32| final(v)@.contains(y) <==> (old(v)@.contains(y) || y == x),
{
    let mut i: usize = 0;
    while i < v.len() && v[i] < x
        invariant
            i <= v.len(),
            forall|j: int| 0 <= j < i ==> v@[j] < x,
        decreases v.len() - i,
    {
        i = i + 1;
    }
    let ghost old_v = v@;
    proof {
        if i < old_v.len() {
            assert(old_v[i as int] != x) by {
                assert(old_v.contains(old_v[i as int]));
            }
        }
    }
    v.insert(i, x);
    assert forall|y: i32| v@.contains(y) <==> (old_v.contains(y) || y == x) by {
        if v@.contains(y) {
            let k = choose|k: int| 0 <= k < v@.len() && v@[k] == y;
            if k < i {
                assert(old_v[k] == y);
            } else if k > i {
                assert(old_v[k - 1] == y);
            }
        }
        if old_v.contains(y) {
            let k = choose|k: int| 0 <= k < old_v.len() && old_v[k] == y;
            if k < i {
                assert(v@[k] == y);
            } else {
                assert(v@[k + 1] == y);
            }
        }
        if y == x {
            assert(v@[i as int] == x);
        }
    }
}

/// The pids of the process tree rooted at `root_pid`, given the `(pid, ppid)`
/// pairs of every process: `root_pid` and all its descendants, each once, in
/// increasing order. The walk takes a pid from a stack, skips it when already
/// seen, and otherwise stacks every child listed for it.
pub fn process_tree(root_pid: i32, pairs: &Vec<(i32, i32)>) -> (out: Vec<i32>)
    ensures
        strictly_increasing(out@),
        forall|x: i32| out@.contains(x) <==> in_tree(pairs@, root_pid, x),
{
    let ghost ps = pairs@;
    let ghost u = candidates(ps, root_pid);
    let mut stack: Vec<i32> = Vec::new();
    stack.push(root_pid);
    let mut seen: Vec<i32> = Vec::new();
    proof {
        assert(reach(ps, root_pid, 0).contains(root_pid));
        assert(u[0] == root_pid);
    }
    while stack.len() > 0
        invariant
            ps == pairs@,
            u == candidates(ps, root_pid),
            u.len() == ps.len() + 1,
            strictly_increasing(seen@),
            seen@.len() <= u.len(),
            forall|x: i32| #[trigger] seen@.contains(x) ==> in_tree(ps, root_pid, x) && u.contains(x),
            forall|x: i32| #[trigger] stack@.contains(x) ==> in_tree(ps, root_pid, x) && u.contains(x),
            seen@.contains(root_pid) || stack@.contains(root_pid),
            forall|k: int|
                0 <= k < ps.len() && seen@.contains(#[trigger] ps[k].1) ==> seen@.contains(ps[k].0)
                    || stack@.contains(ps[k].0),
        decreases u.len() - seen@.len(), stack@.len(),
    {
        let ghost old_stack = stack@;
        let ghost old_seen = seen@;
        let pid = match stack.pop() {
            Some(p) => p,
            None => 0,
        };
        proof {
            assert(old_stack.contains(pid)) by {
                assert(old_stack[old_stack.len() - 1] == pid);
            }
            assert forall|x: i32| old_stack.contains(x) && x != pid implies stack@.contains(x) by {
                let k = choose|k: int| 0 <= k < old_stack.len() && old_stack[k] == x;
                assert(k < old_stack.len() - 1);
                assert(stack@[k] == x);
            }
            assert forall|x: i32| #[trigger] stack@.contains(x) implies in_tree(ps, root_pid, x) && u.contains(
                x,
            ) by {
                let k = choose|k: int| 0 <= k < stack@.len() && stack@[k] == x;
                assert(old_stack[k] == x);
                assert(old_stack.contains(x));
            }
            assert(in_tree(ps, root_pid, pid) && u.contains(pid));
        }
        if vec_contains_i32(&seen, pid) {
            continue;
        }
        insert_sorted_i32(&mut seen, pid);
        proof {
            assert(seen@.no_duplicates()) by {
                assert forall|i: int, j: int|
                    0 <= i < seen@.len() && 0 <= j < seen@.len() && i != j implies seen@[i]
                    != seen@[j] by {
                    if i < j {
                        assert(seen@[i] < seen@[j]);
                    } else {
                        assert(seen@[j] < seen@[i]);
                    }
                }
            }
            assert forall|i: int| 0 <= i < seen@.len() implies u.contains(#[trigger] seen@[i]) by {
                assert(seen@.contains(seen@[i]));
            }
            lemma_unique_within(seen@, u);
        }
        let ghost mid_stack = stack@;
        let mut k: usize = 0;
        while k < pairs.len()
            invariant
                ps == pairs@,
                u == candidates(ps, root_pid),
                k <= ps.len(),
                in_tree(ps, root_pid, pid),
                forall|x: i32| #[trigger] mid_stack.contains(x) ==> stack@.contains(x),
                forall|x: i32| #[trigger] stack@.contains(x) ==> in_tree(ps, root_pid, x) && u.contains(x),
                forall|j: int| 0 <= j < k && #[trigger] ps[j].1 == pid ==> stack@.contains(ps[j].0),
            decreases ps.len() - k,
        {
            let (child, parent) = pairs[k];
            if parent == pid {
                let ghost before = stack@;
                stack.push(child);
                proof {
                    lemma_child_in_tree(ps, root_pid, pid, k as int);
                    assert(u[k + 1] == child);
                    assert(u.contains(child));
                    assert(stack@[before.len() as int] == child);
                    assert forall|x: i32| #[trigger] before.contains(x) implies stack@.contains(x) by {
                        let j = choose|j: int| 0 <= j < before.len() && before[j] == x;
                        assert(stack@[j] == x);
                    }
                    assert forall|x: i32| #[trigger] stack@.contains(x) implies in_tree(ps, root_pid, x)
                        && u.contains(x) by {
                        let j = choose|j: int| 0 <= j < stack@.len() && stack@[j] == x;
                        if j < before.len() {
                            assert(before[j] == x);
                            assert(before.contains(x));
                        } else {
                            assert(x == child);
                            assert(child == ps[k as int].0);
                        }
                    }
                }
            }
            k = k + 1;
        }
    }
    proof {
        assert(!stack@.contains(root_pid));
        assert forall|x: i32| #[trigger] seen@.contains(x) implies in_tree(ps, root_pid, x) by {}
        assert forall|k: int| 0 <= k < ps.len() && seen@.contains(#[trigger] ps[k].1) implies seen@.contains(
            ps[k].0,
        ) by {
            assert(!stack@.contains(ps[k].0));
        }
        lemma_closed_covers_seen(ps, root_pid, seen@);
    }
    seen
}

proof fn lemma_closed_covers_seen(ps: Seq<(i32, i32)>, root: i32, seen: Seq<i32>)
    requires
        seen.contains(root),
        forall|k: int| 0 <= k < ps.len() && seen.contains(#[trigger] ps[k].1) ==> seen.contains(ps[k].0),
        forall|x: i32| #[trigger] seen.contains(x) ==> in_tree(ps, root, x),
    ensures
        forall|x: i32| seen.contains(x) <==> in_tree(ps, root, x),
{
    let s = seen.to_set();
    assert forall|x: i32| in_tree(ps, root, x) implies seen.contains(x) by {
        let n = choose|n: nat| reach(ps, root, n).contains(x);
        lemma_closed_covers(ps, root, s, n);
    }
}

} // verus!
