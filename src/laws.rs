//! Properties of the list operations, proved over the models that the functions'
//! contracts use.

use crate::list::{first_occurrences, insert_unique};
use crate::parse::{close, joined, raw_dirs, scan, unique_dirs_of};
use crate::post::{filtered, normalized, resolved, selected};
use vstd::prelude::*;

verus! {

/// A well-formed entry of a parsed list: non-empty and free of colons.
pub open spec fn is_entry(d: Seq<char>) -> bool {
    d.len() > 0 && !d.contains(':')
}

/// Inserting the same entry twice with insert-unique is the same as inserting it once.
pub proof fn lemma_insert_unique_idempotent(l: Seq<Seq<char>>, d: Seq<char>)
    ensures
        insert_unique(insert_unique(l, d), d) == insert_unique(l, d),
{
    if !(d.len() == 0 || l.contains(d)) {
        assert(l.push(d)[l.len() as int] == d);
    }
}

/// Pushing `y` adds exactly the value `y`.
proof fn lemma_push_contains<A>(t: Seq<A>, y: A, x: A)
    ensures
        t.push(y).contains(x) <==> (t.contains(x) || x == y),
{
    if t.push(y).contains(x) && x != y {
        let i = choose|i: int| 0 <= i < t.len() + 1 && t.push(y)[i] == x;
        assert(t[i] == x);
    }
    if t.contains(x) {
        let i = choose|i: int| 0 <= i < t.len() && t[i] == x;
        assert(t.push(y)[i] == x);
    }
    if x == y {
        assert(t.push(y)[t.len() as int] == x);
    }
}

/// Keeping first occurrences keeps exactly the values of the sequence.
pub proof fn lemma_first_occurrences_contains<A>(s: Seq<A>, x: A)
    ensures
        first_occurrences(s).contains(x) <==> s.contains(x),
    decreases s.len(),
{
    if s.len() > 0 {
        let t = s.drop_last();
        let p = first_occurrences(t);
        lemma_first_occurrences_contains(t, x);
        lemma_first_occurrences_contains(t, s.last());
        assert(t.push(s.last()) =~= s);
        lemma_push_contains(t, s.last(), x);
        lemma_push_contains(p, s.last(), x);
    }
}

/// Keeping first occurrences leaves no value twice.
pub proof fn lemma_first_occurrences_no_duplicates<A>(s: Seq<A>)
    ensures
        first_occurrences(s).no_duplicates(),
    decreases s.len(),
{
    if s.len() > 0 {
        lemma_first_occurrences_no_duplicates(s.drop_last());
    }
}

/// A sequence without repeats is its own list of first occurrences.
pub proof fn lemma_first_occurrences_of_unique<A>(s: Seq<A>)
    requires
        s.no_duplicates(),
    ensures
        first_occurrences(s) == s,
    decreases s.len(),
{
    if s.len() > 0 {
        let t = s.drop_last();
        assert(t.no_duplicates());
        lemma_first_occurrences_of_unique(t);
        if t.contains(s.last()) {
            let i = choose|i: int| 0 <= i < t.len() && t[i] == s.last();
            assert(s[i] == s[s.len() - 1]);
        }
        assert(t.push(s.last()) =~= s);
    }
}

/// A later copy of a value already present adds nothing to the first occurrences.
pub proof fn lemma_first_occurrences_skip<A>(a: Seq<A>, x: A, b: Seq<A>)
    requires
        a.contains(x),
    ensures
        first_occurrences(a + seq![x] + b) == first_occurrences(a + b),
    decreases b.len(),
{
    if b.len() == 0 {
        assert(a + seq![x] + b =~= a + seq![x]);
        assert((a + seq![x]).drop_last() =~= a);
        assert(a + b =~= a);
        lemma_first_occurrences_contains(a, x);
    } else {
        lemma_first_occurrences_skip(a, x, b.drop_last());
        assert((a + seq![x] + b).drop_last() =~= a + seq![x] + b.drop_last());
        assert((a + b).drop_last() =~= a + b.drop_last());
    }
}

/// Scanning never closes an empty segment or one with a colon, and the open
/// segment holds no colon.
proof fn lemma_scan_entries(s: Seq<char>)
    ensures
        forall|i: int| 0 <= i < scan(s).0.len() ==> is_entry(#[trigger] scan(s).0[i]),
        !scan(s).1.contains(':'),
    decreases s.len(),
{
    if s.len() > 0 {
        lemma_scan_entries(s.drop_last());
        let (done, open) = scan(s.drop_last());
        if s.last() != ':' {
            assert forall|c: char| open.push(s.last()).contains(c) implies c != ':' by {
                let k = choose|k: int| 0 <= k < open.len() + 1 && open.push(s.last())[k] == c;
                if k < open.len() {
                    assert(open[k] == c);
                }
            }
        }
    }
}

/// Every raw entry is non-empty and free of colons.
proof fn lemma_raw_dirs_entries(s: Seq<char>)
    ensures
        forall|i: int| 0 <= i < raw_dirs(s).len() ==> is_entry(#[trigger] raw_dirs(s)[i]),
{
    lemma_scan_entries(s);
}

/// Reading on through colon-free text only extends the open segment.
proof fn lemma_scan_word(p: Seq<char>, w: Seq<char>)
    requires
        !w.contains(':'),
    ensures
        scan(p + w) == (scan(p).0, scan(p).1 + w),
    decreases w.len(),
{
    if w.len() == 0 {
        assert(p + w =~= p);
        assert(scan(p).1 + w =~= scan(p).1);
    } else {
        let v = w.drop_last();
        assert(!v.contains(':')) by {
            if v.contains(':') {
                let k = choose|k: int| 0 <= k < v.len() && v[k] == ':';
                assert(w[k] == ':');
            }
        }
        lemma_scan_word(p, v);
        assert((p + w).drop_last() =~= p + v);
        assert((p + w).last() == w.last());
        assert(w.last() != ':') by {
            assert(w[w.len() - 1] == w.last());
        }
        assert((scan(p).1 + v).push(w.last()) =~= scan(p).1 + w);
    }
}

/// Joining well-formed entries and splitting again gives back the entries.
proof fn lemma_split_joined(l: Seq<Seq<char>>)
    requires
        forall|i: int| 0 <= i < l.len() ==> is_entry(#[trigger] l[i]),
    ensures
        raw_dirs(joined(l)) == l,
    decreases l.len(),
{
    if l.len() == 0 {
        assert(raw_dirs(Seq::empty()) =~= l);
    } else if l.len() == 1 {
        assert(is_entry(l[0]));
        lemma_scan_word(Seq::empty(), l[0]);
        assert(Seq::<char>::empty() + l[0] =~= l[0]);
        assert(Seq::<char>::empty() + l[0] =~= l[0]);
        assert(Seq::<Seq<char>>::empty().push(l[0]) =~= l);
    } else {
        let front = l.drop_last();
        assert forall|i: int| 0 <= i < front.len() implies is_entry(#[trigger] front[i]) by {
            assert(front[i] == l[i]);
        }
        lemma_split_joined(front);
        let j = joined(front);
        let with_colon = j + seq![':'];
        assert(with_colon.drop_last() =~= j);
        assert(scan(with_colon) == (close(scan(j).0, scan(j).1), Seq::<char>::empty()));
        assert(is_entry(l[l.len() - 1]));
        lemma_scan_word(with_colon, l.last());
        assert(Seq::<char>::empty() + l.last() =~= l.last());
        assert(front.push(l.last()) =~= l);
    }
}

/// A parsed list holds no entry twice, and each entry is non-empty and free of colons.
pub proof fn lemma_parsed_entries(s: Seq<char>)
    ensures
        unique_dirs_of(s).no_duplicates(),
        forall|i: int| 0 <= i < unique_dirs_of(s).len() ==> is_entry(#[trigger] unique_dirs_of(s)[i]),
{
    let l = unique_dirs_of(s);
    lemma_first_occurrences_no_duplicates(raw_dirs(s));
    lemma_raw_dirs_entries(s);
    assert forall|i: int| 0 <= i < l.len() implies is_entry(#[trigger] l[i]) by {
        assert(l.contains(l[i]));
        lemma_first_occurrences_contains(raw_dirs(s), l[i]);
        let k = choose|k: int| 0 <= k < raw_dirs(s).len() && raw_dirs(s)[k] == l[i];
    }
}

/// Parsing the written form of a parsed list gives the same list.
pub proof fn lemma_parse_round_trip(s: Seq<char>)
    ensures
        unique_dirs_of(joined(unique_dirs_of(s))) == unique_dirs_of(s),
{
    let l = unique_dirs_of(s);
    lemma_parsed_entries(s);
    lemma_split_joined(l);
    lemma_first_occurrences_of_unique(l);
}

/// The selected entries are exactly the entries whose flag is set.
proof fn lemma_selected_contains(l: Seq<Seq<char>>, keep: Seq<bool>, x: Seq<char>)
    requires
        keep.len() >= l.len(),
    ensures
        selected(l, keep).contains(x) <==> exists|i: int| 0 <= i < l.len() && keep[i] && l[i] == x,
    decreases l.len(),
{
    if l.len() > 0 {
        let t = l.drop_last();
        lemma_selected_contains(t, keep, x);
        lemma_push_contains(selected(t, keep), l.last(), x);
        if exists|i: int| 0 <= i < l.len() && keep[i] && l[i] == x {
            let i = choose|i: int| 0 <= i < l.len() && keep[i] && l[i] == x;
            if i < l.len() - 1 {
                assert(t[i] == x);
            }
        }
        if exists|i: int| 0 <= i < t.len() && keep[i] && t[i] == x {
            let i = choose|i: int| 0 <= i < t.len() && keep[i] && t[i] == x;
            assert(l[i] == x);
        }
    }
}

/// With every flag set, nothing is dropped.
proof fn lemma_selected_all(l: Seq<Seq<char>>, keep: Seq<bool>)
    requires
        keep.len() >= l.len(),
        forall|i: int| 0 <= i < l.len() ==> keep[i],
    ensures
        selected(l, keep) == l,
    decreases l.len(),
{
    if l.len() > 0 {
        lemma_selected_all(l.drop_last(), keep);
        assert(l.drop_last().push(l.last()) =~= l);
    }
}

/// Filtering keeps just the entries found to be directories, leaves no entry twice,
/// and changes nothing in a list of directories without repeats.
pub proof fn lemma_filter_law(l: Seq<Seq<char>>, valid: Seq<bool>)
    requires
        valid.len() == l.len(),
    ensures
        filtered(l, valid).no_duplicates(),
        forall|x: Seq<char>| #[trigger]
            filtered(l, valid).contains(x) <==> exists|i: int|
                0 <= i < l.len() && valid[i] && l[i] == x,
        (forall|i: int| 0 <= i < l.len() ==> valid[i]) && l.no_duplicates() ==> filtered(l, valid)
            == l,
{
    lemma_first_occurrences_no_duplicates(selected(l, valid));
    assert forall|x: Seq<char>| #[trigger]
        filtered(l, valid).contains(x) <==> exists|i: int|
            0 <= i < l.len() && valid[i] && l[i] == x by {
        lemma_first_occurrences_contains(selected(l, valid), x);
        lemma_selected_contains(l, valid, x);
    }
    if (forall|i: int| 0 <= i < l.len() ==> valid[i]) && l.no_duplicates() {
        lemma_selected_all(l, valid);
        lemma_first_occurrences_of_unique(l);
    }
}

/// Resolving a concatenation resolves each part.
proof fn lemma_resolved_add(a: Seq<Option<Seq<char>>>, b: Seq<Option<Seq<char>>>)
    ensures
        resolved(a + b) == resolved(a) + resolved(b),
    decreases b.len(),
{
    if b.len() == 0 {
        assert(a + b =~= a);
        assert(resolved(a) + resolved(b) =~= resolved(a));
    } else {
        lemma_resolved_add(a, b.drop_last());
        assert((a + b).drop_last() =~= a + b.drop_last());
        assert((resolved(a) + resolved(b.drop_last())).push(b.last().unwrap()) =~= resolved(a)
            + resolved(b.drop_last()).push(b.last().unwrap()));
    }
}

/// What a single entry resolves to.
proof fn lemma_resolved_one(y: Option<Seq<char>>)
    ensures
        resolved(seq![y]) == (match y {
            Some(c) => if c.len() > 0 {
                seq![c]
            } else {
                Seq::empty()
            },
            None => Seq::empty(),
        }),
{
    assert(seq![y].drop_last() =~= Seq::<Option<Seq<char>>>::empty());
    assert(seq![y].last() == y);
    reveal_with_fuel(resolved, 2);
    assert(Seq::<Seq<char>>::empty().push(y.unwrap()) =~= seq![y.unwrap()]);
}

/// An entry whose canonical form is non-empty contributes that form.
proof fn lemma_resolved_contains(c: Seq<Option<Seq<char>>>, i: int, x: Seq<char>)
    requires
        0 <= i < c.len(),
        c[i] == Some(x),
        x.len() > 0,
    ensures
        resolved(c).contains(x),
{
    let front = c.take(i);
    let rest = c.skip(i + 1);
    assert(c =~= front + seq![c[i]] + rest);
    lemma_resolved_add(front + seq![c[i]], rest);
    lemma_resolved_add(front, seq![c[i]]);
    lemma_resolved_one(c[i]);
    assert(resolved(c)[resolved(front).len() as int] == x);
}

/// Normalizing leaves no entry twice, and an entry whose canonical form an earlier
/// entry already has changes nothing: aliases collapse onto the earlier one's place.
pub proof fn lemma_normalize_collapses(canonical: Seq<Option<Seq<char>>>, i: int, j: int)
    requires
        0 <= i < j < canonical.len(),
        canonical[i] == canonical[j],
    ensures
        normalized(canonical).no_duplicates(),
        normalized(canonical) == normalized(canonical.remove(j)),
{
    lemma_first_occurrences_no_duplicates(resolved(canonical));
    let front = canonical.take(j);
    let rest = canonical.skip(j + 1);
    assert(canonical =~= front + seq![canonical[j]] + rest);
    assert(canonical.remove(j) =~= front + rest);
    lemma_resolved_add(front + seq![canonical[j]], rest);
    lemma_resolved_add(front, seq![canonical[j]]);
    lemma_resolved_add(front, rest);
    lemma_resolved_one(canonical[j]);
    match canonical[j] {
        Some(x) => {
            if x.len() > 0 {
                assert(front[i] == Some(x));
                lemma_resolved_contains(front, i, x);
                lemma_first_occurrences_skip(resolved(front), x, resolved(rest));
            } else {
                assert(resolved(front) + Seq::<Seq<char>>::empty() =~= resolved(front));
            }
        },
        None => {
            assert(resolved(front) + Seq::<Seq<char>>::empty() =~= resolved(front));
        },
    }
}

} // verus!
