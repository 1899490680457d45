//! The list model: ordered directory lists and the two ways of inserting into them.

use itertools::Itertools;
use vstd::prelude::*;

verus! {

/// `l` with every occurrence of `d` taken out, the other entries in their order.
pub open spec fn without(l: Seq<Seq<char>>, d: Seq<char>) -> Seq<Seq<char>> {
    l.filter(|x: Seq<char>| x != d)
}

/// Insert-unique: `d` is appended when it is non-empty and not yet present;
/// an entry already present never moves.
pub open spec fn insert_unique(l: Seq<Seq<char>>, d: Seq<char>) -> Seq<Seq<char>> {
    if d.len() == 0 || l.contains(d) {
        l
    } else {
        l.push(d)
    }
}

/// Insert-last: earlier occurrences of `d` are dropped and `d` goes to the end.
pub open spec fn insert_last(l: Seq<Seq<char>>, d: Seq<char>) -> Seq<Seq<char>> {
    without(l, d).push(d)
}

/// Every entry of `ds`, in order, inserted into `l` with insert-unique.
pub open spec fn insert_all_unique(l: Seq<Seq<char>>, ds: Seq<Seq<char>>) -> Seq<Seq<char>>
    decreases ds.len(),
{
    if ds.len() == 0 {
        l
    } else {
        insert_unique(insert_all_unique(l, ds.drop_last()), ds.last())
    }
}

/// Every entry of `ds`, in order, inserted into `l` with insert-last.
pub open spec fn insert_all_last(l: Seq<Seq<char>>, ds: Seq<Seq<char>>) -> Seq<Seq<char>>
    decreases ds.len(),
{
    if ds.len() == 0 {
        l
    } else {
        insert_last(insert_all_last(l, ds.drop_last()), ds.last())
    }
}

/// The first occurrence of each distinct value of `s`, in the order of `s`.
pub open spec fn first_occurrences<A>(s: Seq<A>) -> Seq<A>
    decreases s.len(),
{
    if s.len() == 0 {
        s
    } else {
        let p = first_occurrences(s.drop_last());
        if p.contains(s.last()) {
            p
        } else {
            p.push(s.last())
        }
    }
}

/// Relies on itertools' `Itertools::unique`: it yields each distinct item once, at
/// its first occurrence, keeping the order of the input.
#[verifier::external_body]
pub(crate) fn unique_dirs(dirs: Vec<String>) -> (r: Vec<String>)
    ensures
        r.deep_view() == first_occurrences(dirs.deep_view()),
{
    dirs.into_iter().unique().collect()
}

/// Whether `dir` is an entry of `path`.
pub(crate) fn contains_dir(path: &[String], dir: &str) -> (r: bool)
    ensures
        r == path.deep_view().contains(dir@),
{
    let target = dir.to_owned();
    let mut i: usize = 0;
    while i < path.len()
        invariant
            0 <= i <= path.len(),
            target@ == dir@,
            forall|j: int| 0 <= j < i ==> path.deep_view()[j] != dir@,
        decreases path.len() - i,
    {
        if path[i] == target {
            assert(path.deep_view()[i as int] == dir@);
            return true;
        }
        i += 1;
    }
    false
}

/// Takes every occurrence of `dir` out of `path`.
pub fn remove(path: &mut Vec<String>, dir: &str)
    ensures
        final(path).deep_view() == without(old(path).deep_view(), dir@),
{
    let target = dir.to_owned();
    let mut kept: Vec<String> = Vec::new();
    let mut i: usize = 0;
    while i < path.len()
        invariant
            0 <= i <= path.len(),
            *path == *old(path),
            target@ == dir@,
            kept.deep_view() == without(path.deep_view().take(i as int), dir@),
        decreases path.len() - i,
    {
        let ghost seen = path.deep_view().take(i as int);
        let ghost before = kept.deep_view();
        if !(path[i] == target) {
            kept.push(path[i].clone());
            assert(kept.deep_view() =~= before.push(path.deep_view()[i as int]));
        }
        proof {
            reveal(Seq::filter);
            assert(path.deep_view().take(i + 1).drop_last() =~= seen);
        }
        i += 1;
    }
    assert(path.deep_view().take(path.len() as int) =~= path.deep_view());
    *path = kept;
}

/// Appends `dir` unless it is empty or already in `path`.
pub fn add_unique(path: &mut Vec<String>, dir: &str)
    ensures
        final(path).deep_view() == insert_unique(old(path).deep_view(), dir@),
{
    if !(dir.is_empty() || contains_dir(path, dir)) {
        let ghost before = path.deep_view();
        path.push(dir.to_owned());
        assert(path.deep_view() =~= before.push(dir@));
    }
}

/// Moves `dir` to the end of `path`, dropping any earlier occurrence.
pub fn add_last(path: &mut Vec<String>, dir: &str)
    ensures
        final(path).deep_view() == insert_last(old(path).deep_view(), dir@),
{
    remove(path, dir);
    let ghost before = path.deep_view();
    path.push(dir.to_owned());
    assert(path.deep_view() =~= before.push(dir@));
}

/// Inserts each entry of `other`, in order, with insert-last.
pub fn add_all_last(path: &mut Vec<String>, other: &[String])
    ensures
        final(path).deep_view() == insert_all_last(old(path).deep_view(), other.deep_view()),
{
    let mut i: usize = 0;
    while i < other.len()
        invariant
            0 <= i <= other.len(),
            path.deep_view() == insert_all_last(old(path).deep_view(), other.deep_view().take(i as int)),
        decreases other.len() - i,
    {
        add_last(path, other[i].as_str());
        assert(other.deep_view().take(i + 1).drop_last() =~= other.deep_view().take(i as int));
        i += 1;
    }
    assert(other.deep_view().take(other.len() as int) =~= other.deep_view());
}

/// Inserts each entry of `other`, in order, with insert-unique.
pub fn add_all_unique(path: &mut Vec<String>, other: &[String])
    ensures
        final(path).deep_view() == insert_all_unique(old(path).deep_view(), other.deep_view()),
{
    let mut i: usize = 0;
    while i < other.len()
        invariant
            0 <= i <= other.len(),
            path.deep_view() == insert_all_unique(old(path).deep_view(), other.deep_view().take(i as int)),
        decreases other.len() - i,
    {
        add_unique(path, other[i].as_str());
        assert(other.deep_view().take(i + 1).drop_last() =~= other.deep_view().take(i as int));
        i += 1;
    }
    assert(other.deep_view().take(other.len() as int) =~= other.deep_view());
}

} // verus!
