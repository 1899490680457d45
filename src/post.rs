//! Post-processing of an edited list: dropping entries that are not directories, or
//! replacing each entry by its canonical form.
//!
//! The file-system answers come in as values, one per entry of the list, so that
//! the same rules hold whatever the disk holds.

use crate::list::{first_occurrences, unique_dirs};
use vstd::prelude::*;

verus! {

/// The entries `l[i]` whose flag `keep[i]` is set, in order.
pub open spec fn selected(l: Seq<Seq<char>>, keep: Seq<bool>) -> Seq<Seq<char>>
    decreases l.len(),
{
    if l.len() == 0 {
        l
    } else {
        let p = selected(l.drop_last(), keep);
        if keep[l.len() - 1] {
            p.push(l.last())
        } else {
            p
        }
    }
}

/// The non-empty canonical forms among `canonical`, in order; an entry without one
/// is dropped.
pub open spec fn resolved(canonical: Seq<Option<Seq<char>>>) -> Seq<Seq<char>>
    decreases canonical.len(),
{
    if canonical.len() == 0 {
        Seq::empty()
    } else {
        let p = resolved(canonical.drop_last());
        match canonical.last() {
            Some(c) => if c.len() > 0 {
                p.push(c)
            } else {
                p
            },
            None => p,
        }
    }
}

/// What `filter` leaves of `l`: the entries found to be directories, without repeats.
pub open spec fn filtered(l: Seq<Seq<char>>, valid: Seq<bool>) -> Seq<Seq<char>> {
    first_occurrences(selected(l, valid))
}

/// What `normalize` makes of a list whose entries have the given canonical forms.
pub open spec fn normalized(canonical: Seq<Option<Seq<char>>>) -> Seq<Seq<char>> {
    first_occurrences(resolved(canonical))
}

/// Keeps the entries of `path` whose flag in `valid` is set (`valid[i]` tells whether
/// `path[i]` is an existing directory), then drops repeats, keeping the first.
pub fn filter(path: Vec<String>, valid: &[bool]) -> (r: Vec<String>)
    requires
        valid.len() == path.len(),
    ensures
        r.deep_view() == filtered(path.deep_view(), valid@),
{
    let mut kept: Vec<String> = Vec::new();
    let mut i: usize = 0;
    while i < path.len()
        invariant
            0 <= i <= path.len(),
            valid.len() == path.len(),
            kept.deep_view() == selected(path.deep_view().take(i as int), valid@),
        decreases path.len() - i,
    {
        assert(path.deep_view().take(i + 1).drop_last() =~= path.deep_view().take(i as int));
        if valid[i] {
            let ghost before = kept.deep_view();
            kept.push(path[i].clone());
            assert(kept.deep_view() =~= before.push(path.deep_view()[i as int]));
        }
        i += 1;
    }
    assert(path.deep_view().take(path.len() as int) =~= path.deep_view());
    unique_dirs(kept)
}

/// Replaces each entry of `path` by its canonical form (`canonical[i]` is that of
/// `path[i]`, `None` where it is not a directory or could not be resolved), drops
/// the entries without one, then drops repeats, keeping the first.
pub fn normalize(path: Vec<String>, canonical: Vec<Option<String>>) -> (r: Vec<String>)
    requires
        canonical.len() == path.len(),
    ensures
        r.deep_view() == normalized(canonical.deep_view()),
{
    let mut kept: Vec<String> = Vec::new();
    let mut i: usize = 0;
    while i < canonical.len()
        invariant
            0 <= i <= canonical.len(),
            kept.deep_view() == resolved(canonical.deep_view().take(i as int)),
        decreases canonical.len() - i,
    {
        assert(canonical.deep_view().take(i + 1).drop_last() =~= canonical.deep_view().take(i as int));
        match &canonical[i] {
            Some(c) => {
                if !c.as_str().is_empty() {
                    let ghost before = kept.deep_view();
                    kept.push(c.clone());
                    assert(kept.deep_view() =~= before.push(c@));
                }
            },
            None => {},
        }
        i += 1;
    }
    assert(canonical.deep_view().take(canonical.len() as int) =~= canonical.deep_view());
    unique_dirs(kept)
}

/// The post-processing step: `filter` when asked for, else `normalize` when asked
/// for, else `path` unchanged.
pub fn apply_filters(
    path: Vec<String>,
    filter_requested: bool,
    normalize_requested: bool,
    valid: &[bool],
    canonical: Vec<Option<String>>,
) -> (r: Vec<String>)
    requires
        filter_requested ==> valid.len() == path.len(),
        !filter_requested && normalize_requested ==> canonical.len() == path.len(),
    ensures
        filter_requested ==> r.deep_view() == filtered(path.deep_view(), valid@),
        !filter_requested && normalize_requested ==> r.deep_view() == normalized(
            canonical.deep_view(),
        ),
        !filter_requested && !normalize_requested ==> r == path,
{
    if filter_requested {
        filter(path, valid)
    } else if normalize_requested {
        normalize(path, canonical)
    } else {
        path
    }
}

} // verus!
