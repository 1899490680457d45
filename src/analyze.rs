//! Diagnostics over the raw list, repeats included: entries that are not
//! directories, repeated entries, and files that an earlier directory shadows.

use crate::list::contains_dir;
use crate::parse::{parse_raw_path, raw_dirs};
use crate::post::selected;
use vstd::prelude::*;

verus! {

/// The entries of `s` whose value occurs earlier in `s`: each value from its second
/// occurrence on, in order.
pub open spec fn repeats(s: Seq<Seq<char>>) -> Seq<Seq<char>>
    decreases s.len(),
{
    if s.len() == 0 {
        s
    } else {
        let p = repeats(s.drop_last());
        if s.drop_last().contains(s.last()) {
            p.push(s.last())
        } else {
            p
        }
    }
}

/// The entries `l[i]` whose flag `valid[i]` is clear, in order, repeats included.
pub open spec fn invalid_entries(l: Seq<Seq<char>>, valid: Seq<bool>) -> Seq<Seq<char>> {
    selected(l, valid.map_values(|b: bool| !b))
}

/// The lines under a report heading: each entry indented, or `None` when there is none.
pub open spec fn section_body(l: Seq<Seq<char>>) -> Seq<Seq<char>> {
    if l.len() == 0 {
        seq!["    None"@]
    } else {
        l.map_values(|d: Seq<char>| "    "@ + d)
    }
}

/// The lines of the analysis report on the raw list `raw`, where `valid[i]` tells
/// whether `raw[i]` is a directory.
pub open spec fn analysis_lines(raw: Seq<Seq<char>>, valid: Seq<bool>) -> Seq<Seq<char>> {
    seq!["Invalid Directories:"@] + section_body(invalid_entries(raw, valid)) + seq![
        ""@,
        "Duplicate Directories:"@,
    ] + section_body(repeats(raw))
}

/// The entries of `path_str`, repeats included, that are not directories:
/// `valid[i]` tells whether the `i`-th raw entry is an existing directory.
pub fn get_invalid_dirs(path_str: &str, valid: &[bool]) -> (r: Vec<String>)
    requires
        valid.len() == raw_dirs(path_str@).len(),
    ensures
        r.deep_view() == invalid_entries(raw_dirs(path_str@), valid@),
{
    let dirs = parse_raw_path(path_str);
    let ghost flags = valid@.map_values(|b: bool| !b);
    let mut out: Vec<String> = Vec::new();
    let mut i: usize = 0;
    while i < dirs.len()
        invariant
            0 <= i <= dirs.len(),
            dirs.len() == valid.len(),
            flags == valid@.map_values(|b: bool| !b),
            out.deep_view() == selected(dirs.deep_view().take(i as int), flags),
        decreases dirs.len() - i,
    {
        assert(dirs.deep_view().take(i + 1).drop_last() =~= dirs.deep_view().take(i as int));
        if !valid[i] {
            let ghost before = out.deep_view();
            out.push(dirs[i].clone());
            assert(out.deep_view() =~= before.push(dirs.deep_view()[i as int]));
        }
        i += 1;
    }
    assert(dirs.deep_view().take(dirs.len() as int) =~= dirs.deep_view());
    out
}

/// The entries of `path_str` that repeat an earlier one, from the second occurrence
/// of each value on, in order.
pub fn get_duplicate_dirs(path_str: &str) -> (r: Vec<String>)
    ensures
        r.deep_view() == repeats(raw_dirs(path_str@)),
{
    let dirs = parse_raw_path(path_str);
    let mut visited: Vec<String> = Vec::new();
    let mut out: Vec<String> = Vec::new();
    let mut i: usize = 0;
    while i < dirs.len()
        invariant
            0 <= i <= dirs.len(),
            visited.deep_view() == dirs.deep_view().take(i as int),
            out.deep_view() == repeats(dirs.deep_view().take(i as int)),
        decreases dirs.len() - i,
    {
        assert(dirs.deep_view().take(i + 1).drop_last() =~= dirs.deep_view().take(i as int));
        if contains_dir(visited.as_slice(), dirs[i].as_str()) {
            let ghost before = out.deep_view();
            out.push(dirs[i].clone());
            assert(out.deep_view() =~= before.push(dirs.deep_view()[i as int]));
        }
        let ghost seen = visited.deep_view();
        visited.push(dirs[i].clone());
        assert(visited.deep_view() =~= seen.push(dirs.deep_view()[i as int]));
        i += 1;
    }
    assert(dirs.deep_view().take(dirs.len() as int) =~= dirs.deep_view());
    out
}

/// The lines under a report heading for `entries`.
fn section(entries: Vec<String>) -> (r: Vec<String>)
    ensures
        r.deep_view() == section_body(entries.deep_view()),
{
    let mut out: Vec<String> = Vec::new();
    if entries.len() == 0 {
        out.push(String::from_str("    None"));
        assert(out.deep_view() =~= seq!["    None"@]);
        return out;
    }
    let mut i: usize = 0;
    while i < entries.len()
        invariant
            0 <= i <= entries.len(),
            out.deep_view() == entries.deep_view().take(i as int).map_values(
                |d: Seq<char>| "    "@ + d,
            ),
        decreases entries.len() - i,
    {
        let mut line = String::from_str("    ");
        line.append(entries[i].as_str());
        let ghost before = out.deep_view();
        out.push(line);
        assert(out.deep_view() =~= before.push("    "@ + entries.deep_view()[i as int]));
        assert(out.deep_view() =~= entries.deep_view().take(i + 1).map_values(
            |d: Seq<char>| "    "@ + d,
        ));
        i += 1;
    }
    assert(entries.deep_view().take(entries.len() as int) =~= entries.deep_view());
    out
}

/// The analysis report on `path_str`, one line per element: its entries that are not
/// directories (`valid[i]` tells whether the `i`-th raw entry is one), then its
/// repeated entries.
pub fn exec_analyze(path_str: &str, valid: &[bool]) -> (r: Vec<String>)
    requires
        valid.len() == raw_dirs(path_str@).len(),
    ensures
        r.deep_view() == analysis_lines(raw_dirs(path_str@), valid@),
{
    let mut out: Vec<String> = Vec::new();
    out.push(String::from_str("Invalid Directories:"));
    let mut invalids = section(get_invalid_dirs(path_str, valid));
    out.append(&mut invalids);
    out.push(String::from_str(""));
    out.push(String::from_str("Duplicate Directories:"));
    let mut duplicates = section(get_duplicate_dirs(path_str));
    out.append(&mut duplicates);
    assert(out.deep_view() =~= analysis_lines(raw_dirs(path_str@), valid@));
    out
}

/// A file that a later directory shadows: the earlier directory that holds it, and
/// its name.
#[derive(Debug, PartialEq, Eq)]
pub struct Shadow {
    pub directory: String,
    pub filename: String,
}

impl DeepView for Shadow {
    type V = (Seq<char>, Seq<char>);

    open spec fn deep_view(&self) -> (Seq<char>, Seq<char>) {
        (self.directory@, self.filename@)
    }
}

impl Shadow {
    pub fn new(directory: String, filename: String) -> (r: Shadow)
        ensures
            r.directory == directory,
            r.filename == filename,
    {
        Shadow { directory, filename }
    }
}

/// Each valid directory's files, as (file name, directory) claims, in the order in
/// which the directories come; `listings[i]` holds the files of `dirs[i]`, or `None`
/// where it is not a directory.
pub open spec fn claims(
    dirs: Seq<Seq<char>>,
    listings: Seq<Option<Seq<Seq<char>>>>,
) -> Seq<(Seq<char>, Seq<char>)>
    decreases dirs.len(),
{
    if dirs.len() == 0 {
        Seq::empty()
    } else {
        let p = claims(dirs.drop_last(), listings);
        match listings[dirs.len() - 1] {
            Some(files) => p + claimed_by(files, dirs.last()),
            None => p,
        }
    }
}

/// The claims of directory `dir` on each of `files`.
pub open spec fn claimed_by(files: Seq<Seq<char>>, dir: Seq<char>) -> Seq<(Seq<char>, Seq<char>)> {
    files.map_values(|f: Seq<char>| (f, dir))
}

/// The directory of the first claim on `name`, if any.
pub open spec fn owner(c: Seq<(Seq<char>, Seq<char>)>, name: Seq<char>) -> Option<Seq<char>>
    decreases c.len(),
{
    if c.len() == 0 {
        None
    } else {
        match owner(c.drop_last(), name) {
            Some(d) => Some(d),
            None => if c.last().0 == name {
                Some(c.last().1)
            } else {
                None
            },
        }
    }
}

/// The (earlier directory, file name) pairs for those of `files` that the claims
/// `c` already hold, in the order of `files`.
pub open spec fn shadows_in(
    c: Seq<(Seq<char>, Seq<char>)>,
    files: Seq<Seq<char>>,
) -> Seq<(Seq<char>, Seq<char>)>
    decreases files.len(),
{
    if files.len() == 0 {
        Seq::empty()
    } else {
        let p = shadows_in(c, files.drop_last());
        match owner(c, files.last()) {
            Some(d) => p.push((d, files.last())),
            None => p,
        }
    }
}

/// The shadow report: for each valid directory, in order, that holds a file that an
/// earlier one holds, the directory with the files it shadows.
pub open spec fn shadow_report(
    dirs: Seq<Seq<char>>,
    listings: Seq<Option<Seq<Seq<char>>>>,
) -> Seq<(Seq<char>, Seq<(Seq<char>, Seq<char>)>)>
    decreases dirs.len(),
{
    if dirs.len() == 0 {
        Seq::empty()
    } else {
        let p = shadow_report(dirs.drop_last(), listings);
        match listings[dirs.len() - 1] {
            Some(files) => {
                let s = shadows_in(claims(dirs.drop_last(), listings), files);
                if s.len() > 0 {
                    p.push((dirs.last(), s))
                } else {
                    p
                }
            },
            None => p,
        }
    }
}

/// The directory of the first claim in `c` on `name`.
fn find_owner(c: &Vec<(String, String)>, name: &String) -> (r: Option<String>)
    ensures
        r.deep_view() == owner(c.deep_view(), name@),
{
    let mut i: usize = 0;
    while i < c.len()
        invariant
            0 <= i <= c.len(),
            owner(c.deep_view().take(i as int), name@) is None,
        decreases c.len() - i,
    {
        assert(c.deep_view().take(i + 1).drop_last() =~= c.deep_view().take(i as int));
        if c[i].0 == *name {
            proof {
                lemma_owner_prefix(c.deep_view(), name@, i + 1);
            }
            return Some(c[i].1.clone());
        }
        i += 1;
    }
    assert(c.deep_view().take(c.len() as int) =~= c.deep_view());
    None
}

/// Once a prefix of the claims has an owner for `name`, the whole list has the same.
proof fn lemma_owner_prefix(c: Seq<(Seq<char>, Seq<char>)>, name: Seq<char>, n: int)
    requires
        0 <= n <= c.len(),
        owner(c.take(n), name) is Some,
    ensures
        owner(c, name) == owner(c.take(n), name),
    decreases c.len() - n,
{
    if n < c.len() {
        assert(c.take(n + 1).drop_last() =~= c.take(n));
        lemma_owner_prefix(c, name, n + 1);
    } else {
        assert(c.take(n) =~= c);
    }
}

/// The shadows that `files` cast on the claims `c`.
fn shadows_of(c: &Vec<(String, String)>, files: &Vec<String>) -> (r: Vec<Shadow>)
    ensures
        r.deep_view() == shadows_in(c.deep_view(), files.deep_view()),
{
    let mut out: Vec<Shadow> = Vec::new();
    let mut i: usize = 0;
    while i < files.len()
        invariant
            0 <= i <= files.len(),
            out.deep_view() == shadows_in(c.deep_view(), files.deep_view().take(i as int)),
        decreases files.len() - i,
    {
        assert(files.deep_view().take(i + 1).drop_last() =~= files.deep_view().take(i as int));
        match find_owner(c, &files[i]) {
            Some(d) => {
                let ghost before = out.deep_view();
                out.push(Shadow::new(d, files[i].clone()));
                assert(out.deep_view() =~= before.push((d@, files.deep_view()[i as int])));
            },
            None => {},
        }
        i += 1;
    }
    assert(files.deep_view().take(files.len() as int) =~= files.deep_view());
    out
}

/// Adds the claims of `dir` on each of `files` to `c`.
fn claim_all(c: &mut Vec<(String, String)>, files: &Vec<String>, dir: &String)
    ensures
        final(c).deep_view() == old(c).deep_view() + claimed_by(files.deep_view(), dir@),
{
    let mut i: usize = 0;
    while i < files.len()
        invariant
            0 <= i <= files.len(),
            c.deep_view() == old(c).deep_view() + claimed_by(files.deep_view().take(i as int), dir@),
        decreases files.len() - i,
    {
        let ghost before = c.deep_view();
        c.push((files[i].clone(), dir.clone()));
        assert(c.deep_view() =~= before.push((files.deep_view()[i as int], dir@)));
        assert(claimed_by(files.deep_view().take(i + 1), dir@) =~= claimed_by(
            files.deep_view().take(i as int),
            dir@,
        ).push((files.deep_view()[i as int], dir@)));
        assert(c.deep_view() =~= old(c).deep_view() + claimed_by(
            files.deep_view().take(i + 1),
            dir@,
        ));
        i += 1;
    }
    assert(files.deep_view().take(files.len() as int) =~= files.deep_view());
}

/// For each entry of `path_str`, in order, that is a directory holding files that an
/// earlier directory holds too, the entry with those files and the earlier directory
/// that first holds each. `listings[i]` gives the names of the files in the `i`-th raw
/// entry, or `None` where it is not a directory.
pub fn get_shadowed(path_str: &str, listings: &[Option<Vec<String>>]) -> (r: Vec<
    (String, Vec<Shadow>),
>)
    requires
        listings.len() == raw_dirs(path_str@).len(),
    ensures
        r.deep_view() == shadow_report(raw_dirs(path_str@), listings.deep_view()),
{
    let dirs = parse_raw_path(path_str);
    let mut c: Vec<(String, String)> = Vec::new();
    let mut out: Vec<(String, Vec<Shadow>)> = Vec::new();
    let mut i: usize = 0;
    while i < dirs.len()
        invariant
            0 <= i <= dirs.len(),
            dirs.len() == listings.len(),
            c.deep_view() == claims(dirs.deep_view().take(i as int), listings.deep_view()),
            out.deep_view() == shadow_report(dirs.deep_view().take(i as int), listings.deep_view()),
        decreases dirs.len() - i,
    {
        assert(dirs.deep_view().take(i + 1).drop_last() =~= dirs.deep_view().take(i as int));
        match &listings[i] {
            Some(files) => {
                let shadows = shadows_of(&c, files);
                if shadows.len() > 0 {
                    let ghost before = out.deep_view();
                    out.push((dirs[i].clone(), shadows));
                    assert(out.deep_view() =~= before.push(
                        (dirs.deep_view()[i as int], shadows.deep_view()),
                    ));
                }
                claim_all(&mut c, files, &dirs[i]);
            },
            None => {},
        }
        i += 1;
    }
    assert(dirs.deep_view().take(dirs.len() as int) =~= dirs.deep_view());
    out
}

} // verus!
