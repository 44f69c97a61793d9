//! Reading a process's working directory from `lsof -p <pid>` output.

use vstd::prelude::*;
use crate::path::is_absolute;
use crate::text::{
    chars_of, contains, contains_seq, lines, split_lines, split_words, string_from, views, words,
};

verus! {

/// The first line that contains `pat`.
pub open spec fn first_containing(ls: Seq<Seq<char>>, pat: Seq<char>) -> Option<Seq<char>>
    decreases ls.len(),
{
    if ls.len() == 0 {
        None
    } else if contains_seq(ls[0], pat) {
        Some(ls[0])
    } else {
        first_containing(ls.drop_first(), pat)
    }
}

/// The working directory in `lsof -p` output: the last word of the first line
/// that holds `" cwd "`, when it is an absolute path.
pub open spec fn spec_lsof_cwd(out: Seq<char>) -> Option<Seq<char>> {
    match first_containing(lines(out), " cwd "@) {
        None => None,
        Some(l) => {
            let ws = words(l);
            if ws.len() > 0 && is_absolute(ws.last()) {
                Some(ws.last())
            } else {
                None
            }
        },
    }
}

/// Reads the working directory from `lsof -p <pid>` output.
pub fn parse_lsof_cwd(out: &str) -> (cwd: Option<String>)
    ensures
        match cwd {
            Some(c) => spec_lsof_cwd(out@) == Some(c@),
            None => spec_lsof_cwd(out@) is None,
        },
{
    let ls = split_lines(&chars_of(out));
    let pat = chars_of(" cwd ");
    let ghost all = views(ls@);
    let mut i: usize = 0;
    assert(all.skip(0) =~= all);
    while i < ls.len()
        invariant
            i <= ls.len(),
            all == views(ls@),
            all == lines(out@),
            pat@ == " cwd "@,
            first_containing(all, pat@) == first_containing(all.skip(i as int), pat@),
        decreases ls.len() - i,
    {
        assert(all.skip(i as int)[0] == ls@[i as int]@);
        if contains(&ls[i], &pat) {
            assert(first_containing(all.skip(i as int), pat@) == Some(ls@[i as int]@));
            let ws = split_words(&ls[i]);
            if ws.len() > 0 && ws[ws.len() - 1].len() > 0 && ws[ws.len() - 1][0] == '/' {
                assert(views(ws@).last() == ws@[ws.len() - 1]@);
                assert(is_absolute(ws@[ws.len() - 1]@));
                return Some(string_from(&ws[ws.len() - 1]));
            }
            proof {
                if views(ws@).len() > 0 {
                    assert(views(ws@).last() == ws@[ws.len() - 1]@);
                }
            }
            return None;
        }
        assert(all.skip(i as int).drop_first() =~= all.skip(i + 1));
        i = i + 1;
    }
    None
}

} // verus!
