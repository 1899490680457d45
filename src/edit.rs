//! The edit operations: build a new list, add to its front, append to its back, print.

use crate::list::{add_all_last, add_all_unique, insert_all_last, insert_all_unique};
use crate::parse::{parse_path, unique_dirs_of};
use vstd::prelude::*;

verus! {

/// Each argument, itself a colon-separated list, parsed and merged into `l` in
/// order with insert-last.
pub open spec fn merge_args(l: Seq<Seq<char>>, args: Seq<Seq<char>>) -> Seq<Seq<char>>
    decreases args.len(),
{
    if args.len() == 0 {
        l
    } else {
        insert_all_last(merge_args(l, args.drop_last()), unique_dirs_of(args.last()))
    }
}

/// The list that `New` builds from its arguments.
pub open spec fn new_list(args: Seq<Seq<char>>) -> Seq<Seq<char>> {
    merge_args(Seq::empty(), args)
}

/// The list that `Add` builds: the arguments in front, the current entries behind.
pub open spec fn added_list(current: Seq<Seq<char>>, args: Seq<Seq<char>>) -> Seq<Seq<char>> {
    insert_all_unique(new_list(args), current)
}

/// The list that `Append` builds: the current entries in front, the arguments behind.
pub open spec fn appended_list(current: Seq<Seq<char>>, args: Seq<Seq<char>>) -> Seq<Seq<char>> {
    merge_args(insert_all_unique(Seq::empty(), current), args)
}

/// Each entry of `l` followed by a newline.
pub open spec fn lines(l: Seq<Seq<char>>) -> Seq<char>
    decreases l.len(),
{
    if l.len() == 0 {
        Seq::empty()
    } else {
        lines(l.drop_last()) + l.last() + seq!['\n']
    }
}

/// Parses each of `directories` as a colon-separated list and moves its entries,
/// in order, to the end of `path`.
pub fn parse_and_add_all_last(path: &mut Vec<String>, directories: Vec<String>)
    ensures
        final(path).deep_view() == merge_args(old(path).deep_view(), directories.deep_view()),
{
    let mut i: usize = 0;
    while i < directories.len()
        invariant
            0 <= i <= directories.len(),
            path.deep_view() == merge_args(old(path).deep_view(), directories.deep_view().take(i as int)),
        decreases directories.len() - i,
    {
        let dirs = parse_path(directories[i].as_str());
        add_all_last(path, dirs.as_slice());
        assert(directories.deep_view().take(i + 1).drop_last() =~= directories.deep_view().take(i as int));
        i += 1;
    }
    assert(directories.deep_view().take(directories.len() as int) =~= directories.deep_view());
}

/// A list built from the arguments alone; the last mention of an entry fixes its place.
pub fn exec_new(directories: Vec<String>) -> (r: Vec<String>)
    ensures
        r.deep_view() == new_list(directories.deep_view()),
{
    let mut path: Vec<String> = Vec::new();
    assert(path.deep_view() =~= Seq::<Seq<char>>::empty());
    parse_and_add_all_last(&mut path, directories);
    path
}

/// The arguments, merged as by `exec_new`, followed by the entries of `current`
/// that they do not hold.
pub fn exec_add(current: &[String], directories: Vec<String>) -> (r: Vec<String>)
    ensures
        r.deep_view() == added_list(current.deep_view(), directories.deep_view()),
{
    let mut path: Vec<String> = Vec::new();
    assert(path.deep_view() =~= Seq::<Seq<char>>::empty());
    parse_and_add_all_last(&mut path, directories);
    add_all_unique(&mut path, current);
    path
}

/// The entries of `current`, followed by the arguments merged with insert-last, so
/// that an argument already in `current` moves to the back.
pub fn exec_append(current: &[String], directories: Vec<String>) -> (r: Vec<String>)
    ensures
        r.deep_view() == appended_list(current.deep_view(), directories.deep_view()),
{
    let mut path: Vec<String> = Vec::new();
    assert(path.deep_view() =~= Seq::<Seq<char>>::empty());
    add_all_unique(&mut path, current);
    parse_and_add_all_last(&mut path, directories);
    path
}

/// The text that prints `current` one entry per line.
pub fn exec_print(current: Vec<String>) -> (r: String)
    ensures
        r@ == lines(current.deep_view()),
{
    let mut out = String::new();
    let mut i: usize = 0;
    while i < current.len()
        invariant
            0 <= i <= current.len(),
            out@ == lines(current.deep_view().take(i as int)),
        decreases current.len() - i,
    {
        assert(current.deep_view().take(i + 1).drop_last() =~= current.deep_view().take(i as int));
        out.append(current[i].as_str());
        out.append("\n");
        proof {
            reveal_strlit("\n");
        }
        i += 1;
    }
    assert(current.deep_view().take(current.len() as int) =~= current.deep_view());
    out
}

} // verus!
