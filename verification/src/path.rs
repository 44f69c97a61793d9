//! Paths as text, read as sequences of components the way `std::path::Path`
//! reads a Unix path: a leading `/` is the root component, a leading `.` is
//! the current-directory component, empty and `.` segments elsewhere are
//! skipped, and every other `/`-separated segment is a component.

use vstd::prelude::*;
use crate::text::{chars_of, slice_chars, views};

verus! {

/// End of the segment that starts at `i`: the next `/` at or after `i`, or
/// the end of the text.
pub open spec fn seg_end(s: Seq<char>, i: int) -> int
    decreases s.len() - i,
{
    if i < 0 || i >= s.len() || s[i] == '/' {
        i
    } else {
        seg_end(s, i + 1)
    }
}

pub proof fn lemma_seg_end(s: Seq<char>, i: int, e: int)
    requires
        0 <= i <= e <= s.len(),
        forall|j: int| i <= j < e ==> #[trigger] s[j] != '/',
        e == s.len() || s[e] == '/',
    ensures
        seg_end(s, i) == e,
    decreases e - i,
{
    if i < e {
        lemma_seg_end(s, i + 1, e);
    }
}

pub proof fn lemma_seg_end_bound(s: Seq<char>, i: int)
    requires
        0 <= i,
    ensures
        i <= seg_end(s, i),
        i <= s.len() ==> seg_end(s, i) <= s.len(),
        i < s.len() && s[i] != '/' ==> seg_end(s, i) > i,
    decreases s.len() - i,
{
    if 0 <= i < s.len() && s[i] != '/' {
        lemma_seg_end_bound(s, i + 1);
    }
}

/// The spans `(start, end)` of the components found at or after `i`: the
/// `/`-separated segments that are neither empty nor `.`.
pub open spec fn segs_from(s: Seq<char>, i: int) -> Seq<(int, int)>
    decreases s.len() - i,
{
    if i < 0 || i >= s.len() {
        seq![]
    } else if s[i] == '/' {
        segs_from(s, i + 1)
    } else {
        proof {
            lemma_seg_end_bound(s, i);
        }
        let e = seg_end(s, i);
        if s.subrange(i, e) == seq!['.'] {
            segs_from(s, e)
        } else {
            seq![(i, e)] + segs_from(s, e)
        }
    }
}

/// Whether the path starts with the current-directory component `.`.
pub open spec fn leading_cur_dir(s: Seq<char>) -> bool {
    s.len() > 0 && s[0] == '.' && (s.len() == 1 || s[1] == '/')
}

/// The spans of the path's components, in order.
pub open spec fn spans(s: Seq<char>) -> Seq<(int, int)> {
    if (s.len() > 0 && s[0] == '/') || leading_cur_dir(s) {
        seq![(0int, 1int)] + segs_from(s, 1)
    } else {
        segs_from(s, 0)
    }
}

/// The components of a path (`Path::components`), each as its text; the root
/// is `"/"` and the leading current directory is `"."`.
pub open spec fn components(s: Seq<char>) -> Seq<Seq<char>> {
    spans(s).map_values(|sp: (int, int)| s.subrange(sp.0, sp.1))
}

/// `Path::is_absolute` on Unix.
pub open spec fn is_absolute(s: Seq<char>) -> bool {
    s.len() > 0 && s[0] == '/'
}

/// `Path::starts_with`: the components of `base` begin the components of `full`.
pub open spec fn path_starts_with(full: Seq<char>, base: Seq<char>) -> bool {
    let f = components(full);
    let b = components(base);
    b.len() <= f.len() && f.take(b.len() as int) == b
}

pub proof fn lemma_segs_from_bounds(s: Seq<char>, i: int)
    requires
        0 <= i,
    ensures
        forall|k: int|
            0 <= k < segs_from(s, i).len() ==> i <= (#[trigger] segs_from(s, i)[k]).0
                < segs_from(s, i)[k].1 <= s.len(),
        forall|k: int, l: int|
            0 <= k < l < segs_from(s, i).len() ==> (#[trigger] segs_from(s, i)[k]).1 <= (
            #[trigger] segs_from(s, i)[l]).0,
    decreases s.len() - i,
{
    if i < s.len() {
        if s[i] == '/' {
            lemma_segs_from_bounds(s, i + 1);
            assert(segs_from(s, i) == segs_from(s, i + 1));
        } else {
            lemma_seg_end_bound(s, i);
            let e = seg_end(s, i);
            lemma_segs_from_bounds(s, e);
            let rest = segs_from(s, e);
            if s.subrange(i, e) == seq!['.'] {
                assert(segs_from(s, i) == rest);
            } else {
                let all = segs_from(s, i);
                assert(all == seq![(i, e)] + rest);
                assert forall|k: int| 0 <= k < all.len() implies i <= (#[trigger] all[k]).0
                    < all[k].1 <= s.len() by {
                    if k > 0 {
                        assert(all[k] == rest[k - 1]);
                    }
                }
                assert forall|k: int, l: int| 0 <= k < l < all.len() implies (
                #[trigger] all[k]).1 <= (#[trigger] all[l]).0 by {
                    assert(all[l] == rest[l - 1]);
                    if k > 0 {
                        assert(all[k] == rest[k - 1]);
                    }
                }
            }
        }
    }
}

/// Computes the spans of the components found at or after `from`.
fn segment_spans(s: &Vec<char>, from: usize) -> (out: Vec<(usize, usize)>)
    requires
        from <= s.len(),
    ensures
        out@.len() == segs_from(s@, from as int).len(),
        forall|k: int|
            0 <= k < out@.len() ==> (#[trigger] out@[k]).0 as int == segs_from(s@, from as int)[k].0
                && out@[k].1 as int == segs_from(s@, from as int)[k].1,
{
    let n = s.len();
    let mut out: Vec<(usize, usize)> = Vec::new();
    let ghost done: Seq<(int, int)> = seq![];
    let mut i = from;
    while i < n
        invariant
            n == s.len(),
            from <= i <= n,
            segs_from(s@, from as int) == done + segs_from(s@, i as int),
            out@.len() == done.len(),
            forall|k: int|
                0 <= k < out@.len() ==> (#[trigger] out@[k]).0 as int == done[k].0 && out@[k].1 as int
                    == done[k].1,
        decreases n - i,
    {
        if s[i] == '/' {
            i = i + 1;
        } else {
            let start = i;
            while i < n && s[i] != '/'
                invariant
                    n == s.len(),
                    start <= i <= n,
                    forall|j: int| start <= j < i ==> #[trigger] s@[j] != '/',
                decreases n - i,
            {
                i = i + 1;
            }
            proof {
                lemma_seg_end(s@, start as int, i as int);
            }
            let is_dot = i == start + 1 && s[start] == '.';
            assert(is_dot <==> s@.subrange(start as int, i as int) == seq!['.']) by {
                if s@.subrange(start as int, i as int) == seq!['.'] {
                    assert(s@.subrange(start as int, i as int).len() == 1);
                    assert(s@.subrange(start as int, i as int)[0] == s@[start as int]);
                }
                if is_dot {
                    assert(s@.subrange(start as int, i as int) =~= seq!['.']);
                }
            }
            if !is_dot {
                out.push((start, i));
                proof {
                    done = done + seq![(start as int, i as int)];
                }
            }
        }
    }
    assert(done + segs_from(s@, n as int) =~= done);
    out
}

/// Computes the spans of the path's components.
pub fn path_spans(s: &Vec<char>) -> (out: Vec<(usize, usize)>)
    ensures
        out@.len() == spans(s@).len(),
        forall|k: int|
            0 <= k < out@.len() ==> (#[trigger] out@[k]).0 as int == spans(s@)[k].0 && out@[k].1 as int
                == spans(s@)[k].1,
{
    let lead = s.len() > 0 && (s[0] == '/' || (s[0] == '.' && (s.len() == 1 || s[1] == '/')));
    if lead {
        let rest = segment_spans(s, 1);
        let mut out: Vec<(usize, usize)> = Vec::new();
        out.push((0, 1));
        let mut k: usize = 0;
        while k < rest.len()
            invariant
                k <= rest.len(),
                out@.len() == k + 1,
                out@[0] == (0usize, 1usize),
                forall|j: int|
                    1 <= j <= k ==> (#[trigger] out@[j]).0 == rest@[j - 1].0 && out@[j].1 == rest@[j
                        - 1].1,
            decreases rest.len() - k,
        {
            out.push(rest[k]);
            k = k + 1;
        }
        out
    } else {
        segment_spans(s, 0)
    }
}

pub proof fn lemma_spans_bounds(s: Seq<char>)
    ensures
        forall|k: int|
            0 <= k < spans(s).len() ==> 0 <= (#[trigger] spans(s)[k]).0 < spans(s)[k].1 <= s.len(),
        forall|k: int, l: int|
            0 <= k < l < spans(s).len() ==> (#[trigger] spans(s)[k]).1 <= (#[trigger] spans(s)[l]).0,
{
    lemma_segs_from_bounds(s, 0);
    lemma_segs_from_bounds(s, 1);
    let lead = (s.len() > 0 && s[0] == '/') || leading_cur_dir(s);
    if lead {
        assert forall|k: int, l: int|
            0 <= k < l < spans(s).len() implies (#[trigger] spans(s)[k]).1 <= (
            #[trigger] spans(s)[l]).0 by {
            if k > 0 {
                assert(spans(s)[k] == segs_from(s, 1)[k - 1]);
            }
            assert(spans(s)[l] == segs_from(s, 1)[l - 1]);
        }
        assert forall|k: int| 0 <= k < spans(s).len() implies 0 <= (#[trigger] spans(s)[k]).0
            < spans(s)[k].1 <= s.len() by {
            if k > 0 {
                assert(spans(s)[k] == segs_from(s, 1)[k - 1]);
            }
        }
    }
}

/// The components of a path, each as its own text.
pub fn path_components(s: &Vec<char>) -> (out: Vec<Vec<char>>)
    ensures
        views(out@) == components(s@),
{
    let sp = path_spans(s);
    proof {
        lemma_spans_bounds(s@);
    }
    let mut out: Vec<Vec<char>> = Vec::new();
    let mut k: usize = 0;
    while k < sp.len()
        invariant
            k <= sp.len(),
            sp@.len() == spans(s@).len(),
            forall|j: int|
                0 <= j < sp@.len() ==> (#[trigger] sp@[j]).0 as int == spans(s@)[j].0 && sp@[j].1 as int
                    == spans(s@)[j].1,
            forall|j: int|
                0 <= j < spans(s@).len() ==> 0 <= (#[trigger] spans(s@)[j]).0 < spans(s@)[j].1 <= s@.len(),
            views(out@) == components(s@).take(k as int),
        decreases sp.len() - k,
    {
        let (a, b) = sp[k];
        let c = slice_chars(s, a, b);
        let ghost prev = out@;
        out.push(c);
        proof {
            assert(views(out@) =~= views(prev) + seq![c@]);
            assert(components(s@).take(k + 1) =~= components(s@).take(k as int) + seq![
                components(s@)[k as int],
            ]);
        }
        k = k + 1;
    }
    assert(components(s@).take(sp.len() as int) =~= components(s@));
    out
}

/// Whether two character vectors hold the same text.
pub fn chars_eq(a: &Vec<char>, b: &Vec<char>) -> (r: bool)
    ensures
        r == (a@ == b@),
{
    if a.len() != b.len() {
        return false;
    }
    let mut i: usize = 0;
    while i < a.len()
        invariant
            a.len() == b.len(),
            i <= a.len(),
            forall|j: int| 0 <= j < i ==> a@[j] == b@[j],
        decreases a.len() - i,
    {
        if a[i] != b[i] {
            return false;
        }
        i = i + 1;
    }
    assert(a@ =~= b@);
    true
}

/// Whether the component list `base` begins the component list `full`.
pub fn components_prefix(full: &Vec<Vec<char>>, base: &Vec<Vec<char>>) -> (r: bool)
    ensures
        r == (views(base@).len() <= views(full@).len() && views(full@).take(
            views(base@).len() as int,
        ) == views(base@)),
{
    if base.len() > full.len() {
        return false;
    }
    let mut i: usize = 0;
    while i < base.len()
        invariant
            base.len() <= full.len(),
            i <= base.len(),
            forall|j: int| 0 <= j < i ==> full@[j]@ == base@[j]@,
        decreases base.len() - i,
    {
        if !chars_eq(&full[i], &base[i]) {
            assert(views(full@).take(base.len() as int)[i as int] == full@[i as int]@);
            return false;
        }
        i = i + 1;
    }
    assert(views(full@).take(base.len() as int) =~= views(base@));
    true
}

/// `Path::starts_with`.
pub fn starts_with_path(full: &str, base: &str) -> (r: bool)
    ensures
        r == path_starts_with(full@, base@),
{
    let f = path_components(&chars_of(full));
    let b = path_components(&chars_of(base));
    components_prefix(&f, &b)
}

/// `Path::components().count()`.
pub fn component_count(p: &str) -> (n: usize)
    ensures
        n == components(p@).len(),
{
    let sp = path_spans(&chars_of(p));
    sp.len()
}

} // verus!
