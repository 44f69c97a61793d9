//! Finding the repository that holds a directory: the nearest of the
//! directory and its ancestors that holds a `.git` or `.jcn-root` entry.

use vstd::prelude::*;
use crate::config::{join_path, path_join};
use crate::path::{is_absolute, lemma_spans_bounds, path_spans, spans};
use crate::text::{chars_of, slice_chars, string_from, string_views};

verus! {

/// The path kept after dropping all but its first `k` components: the text up
/// to the end of the `k`-th component (what `Path::parent` gives).
pub open spec fn keep_prefix(s: Seq<char>, k: int) -> Seq<char> {
    if k <= 0 {
        Seq::empty()
    } else {
        s.take(spans(s)[k - 1].1)
    }
}

/// The path and its ancestors, nearest first: `Path::parent` applied until it
/// gives nothing (at the root, or after the empty path of a relative one).
pub open spec fn ancestors(s: Seq<char>) -> Seq<Seq<char>> {
    let n = spans(s).len() as int;
    let lo: int = if is_absolute(s) {
        1
    } else {
        0
    };
    seq![s] + Seq::new(
        if n > lo {
            (n - lo) as nat
        } else {
            0
        },
        |j: int| keep_prefix(s, n - 1 - j),
    )
}

/// The directories to search for a repository root, nearest first.
pub fn repo_root_candidates(start: &str) -> (out: Vec<String>)
    ensures
        string_views(out@) == ancestors(start@),
{
    let s = chars_of(start);
    let sp = path_spans(&s);
    proof {
        lemma_spans_bounds(s@);
    }
    let n = sp.len();
    let lo: usize = if s.len() > 0 && s[0] == '/' {
        1
    } else {
        0
    };
    let mut out: Vec<String> = Vec::new();
    out.push(string_from(&s));
    let ghost anc = ancestors(start@);
    let mut k = n;
    while k > lo
        invariant
            s@ == start@,
            n == spans(s@).len(),
            sp@.len() == n,
            forall|j: int| 0 <= j < n ==> (#[trigger] sp@[j]).1 as int == spans(s@)[j].1,
            forall|j: int| 0 <= j < n ==> 0 <= (#[trigger] spans(s@)[j]).0 < spans(s@)[j].1 <= s@.len(),
            lo <= k <= n,
            lo == (if is_absolute(start@) { 1int } else { 0int }),
            anc == ancestors(start@),
            out@.len() == 1 + (n - k),
            forall|j: int| 0 <= j < out@.len() ==> (#[trigger] out@[j])@ == anc[j],
        decreases k,
    {
        let next = k - 1;
        let cut: usize = if next == 0 {
            0
        } else {
            sp[next - 1].1
        };
        let p = slice_chars(&s, 0, cut);
        proof {
            assert(p@ =~= keep_prefix(start@, next as int));
            assert(anc[1 + (n - k)] == keep_prefix(start@, n - 1 - (n - k)));
        }
        out.push(string_from(&p));
        k = next;
    }
    assert(string_views(out@) =~= anc);
    out
}

/// The entries whose presence marks a repository root in `dir`:
/// `<dir>/.git` and `<dir>/.jcn-root`.
pub fn repo_markers(dir: &str) -> (m: (String, String))
    ensures
        m.0@ == path_join(dir@, ".git"@),
        m.1@ == path_join(dir@, ".jcn-root"@),
{
    (join_path(dir, ".git"), join_path(dir, ".jcn-root"))
}

/// The repository root: the first candidate (nearest first) that holds a
/// marker, `has_marker[i]` telling it for `candidates[i]`.
pub fn resolve_repo_root(candidates: &Vec<String>, has_marker: &Vec<bool>) -> (root: Option<String>)
    requires
        candidates@.len() == has_marker@.len(),
    ensures
        match root {
            Some(r) => exists|i: int|
                0 <= i < candidates@.len() && has_marker@[i] && r@ == candidates@[i]@ && forall|j: int|
                    0 <= j < i ==> !has_marker@[j],
            None => forall|j: int| 0 <= j < has_marker@.len() ==> !has_marker@[j],
        },
{
    let mut i: usize = 0;
    while i < candidates.len()
        invariant
            candidates@.len() == has_marker@.len(),
            i <= candidates@.len(),
            forall|j: int| 0 <= j < i ==> !has_marker@[j],
        decreases candidates@.len() - i,
    {
        if has_marker[i] {
            return Some(candidates[i].clone());
        }
        i = i + 1;
    }
    None
}

} // verus!
