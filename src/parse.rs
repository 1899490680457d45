//! Reading a colon-separated list into entries and writing it back.

use crate::list::{first_occurrences, unique_dirs};
use vstd::prelude::*;

verus! {

/// Scanning `s` from the left: the non-empty segments that a colon has closed so
/// far, and the segment still open after the last colon.
pub open spec fn scan(s: Seq<char>) -> (Seq<Seq<char>>, Seq<char>)
    decreases s.len(),
{
    if s.len() == 0 {
        (Seq::empty(), Seq::empty())
    } else {
        let (done, open) = scan(s.drop_last());
        if s.last() == ':' {
            (close(done, open), Seq::empty())
        } else {
            (done, open.push(s.last()))
        }
    }
}

/// `done` with the segment `open` added unless it is empty.
pub open spec fn close(done: Seq<Seq<char>>, open: Seq<char>) -> Seq<Seq<char>> {
    if open.len() > 0 {
        done.push(open)
    } else {
        done
    }
}

/// The segments of `s` between colons, empty ones dropped, repeats kept, in order.
pub open spec fn raw_dirs(s: Seq<char>) -> Seq<Seq<char>> {
    close(scan(s).0, scan(s).1)
}

/// The list that `s` denotes: its segments, empty ones dropped, first occurrence kept.
pub open spec fn unique_dirs_of(s: Seq<char>) -> Seq<Seq<char>> {
    first_occurrences(raw_dirs(s))
}

/// The entries of `l` joined by colons.
pub open spec fn joined(l: Seq<Seq<char>>) -> Seq<char>
    decreases l.len(),
{
    if l.len() == 0 {
        Seq::empty()
    } else if l.len() == 1 {
        l[0]
    } else {
        joined(l.drop_last()) + seq![':'] + l.last()
    }
}

/// Splits `source` at every colon and keeps the non-empty segments, repeats included.
pub fn parse_raw_path(source: &str) -> (r: Vec<String>)
    ensures
        r.deep_view() == raw_dirs(source@),
{
    let n = source.unicode_len();
    let mut dirs: Vec<String> = Vec::new();
    let mut start: usize = 0;
    let mut i: usize = 0;
    while i < n
        invariant
            0 <= start <= i <= n,
            n == source@.len(),
            scan(source@.take(i as int)) == (dirs.deep_view(), source@.subrange(start as int, i as int)),
        decreases n - i,
    {
        let ghost prefix = source@.take(i as int);
        assert(source@.take(i + 1).drop_last() =~= prefix);
        let c = source.get_char(i);
        if c == ':' {
            if start < i {
                let ghost before = dirs.deep_view();
                dirs.push(source.substring_char(start, i).to_owned());
                assert(dirs.deep_view() =~= before.push(source@.subrange(start as int, i as int)));
            }
            start = i + 1;
            assert(source@.subrange(start as int, i + 1) =~= Seq::<char>::empty());
        } else {
            assert(source@.subrange(start as int, i + 1) =~= source@.subrange(start as int, i as int).push(c));
        }
        i += 1;
    }
    assert(source@.take(n as int) =~= source@);
    if start < n {
        let ghost before = dirs.deep_view();
        dirs.push(source.substring_char(start, n).to_owned());
        assert(dirs.deep_view() =~= before.push(source@.subrange(start as int, n as int)));
    }
    dirs
}

/// Splits `source` at every colon, drops empty segments and keeps the first
/// occurrence of each.
pub fn parse_path(source: &str) -> (r: Vec<String>)
    ensures
        r.deep_view() == unique_dirs_of(source@),
{
    unique_dirs(parse_raw_path(source))
}

/// The entries of `path` joined by colons; the empty list gives the empty string.
pub fn to_string(path: &[String]) -> (r: String)
    ensures
        r@ == joined(path.deep_view()),
{
    let mut out = String::new();
    let mut i: usize = 0;
    while i < path.len()
        invariant
            0 <= i <= path.len(),
            out@ == joined(path.deep_view().take(i as int)),
        decreases path.len() - i,
    {
        let ghost prev = path.deep_view().take(i as int);
        assert(path.deep_view().take(i + 1).drop_last() =~= prev);
        if i > 0 {
            out.append(":");
            proof {
                reveal_strlit(":");
            }
        } else {
            assert(path.deep_view().take(1)[0] == path.deep_view()[0]);
        }
        out.append(path[i].as_str());
        i += 1;
    }
    assert(path.deep_view().take(path.len() as int) =~= path.deep_view());
    out
}

} // verus!
