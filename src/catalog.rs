use vstd::prelude::*;

use crate::names::has_image_extension;
use crate::names::is_image_name;
use crate::names::is_plain_basename;
use crate::names::is_plain_basename_exec;
use crate::names::lemma_name_lt_irreflexive;
use crate::names::lemma_name_lt_total;
use crate::names::lemma_name_lt_transitive;
use crate::names::name_less;
use crate::names::name_lt;

verus! {

/// One entry of a directory, as the scan of the canonical root reports it.
pub struct DirEntryInfo {
    /// The entry's file name (no directory part).
    pub name: String,
    /// Whether the entry is a regular file.
    pub is_file: bool,
}

/// Why the catalog could not be listed.
#[derive(Clone, Copy, Debug, PartialEq, Eq, Structural)]
pub enum CatalogError {
    /// The canonical root could not be opened or enumerated.
    DirectoryUnavailable,
}

/// Whether a directory entry belongs to the catalog: a regular file whose name
/// is a plain base name (so it can be served) with a recognised image extension.
pub open spec fn is_catalog_entry(e: DirEntryInfo) -> bool {
    e.is_file && is_plain_basename(e.name@) && has_image_extension(e.name@)
}

/// Whether `n` is the name of some catalog entry among `entries`.
pub open spec fn is_catalog_name(entries: Seq<DirEntryInfo>, n: Seq<char>) -> bool {
    exists|i: int| 0 <= i < entries.len() && is_catalog_entry(#[trigger] entries[i]) && entries[i].name@ == n
}

/// The names held by a sequence of strings.
pub open spec fn names_of(v: Seq<String>) -> Seq<Seq<char>> {
    v.map_values(|s: String| s@)
}

/// Names in strictly increasing order; hence without repetition.
pub open spec fn strictly_sorted(s: Seq<Seq<char>>) -> bool {
    forall|i: int, j: int| 0 <= i < j < s.len() ==> name_lt(#[trigger] s[i], #[trigger] s[j])
}

/// A strictly sorted sequence of names holds no name twice.
pub proof fn lemma_strictly_sorted_no_duplicates(s: Seq<Seq<char>>)
    requires
        strictly_sorted(s),
    ensures
        s.no_duplicates(),
{
    assert forall|i: int, j: int| 0 <= i < s.len() && 0 <= j < s.len() && i != j implies s[i]
        != s[j] by {
        if i < j {
            lemma_name_lt_irreflexive(s[i]);
        } else {
            lemma_name_lt_irreflexive(s[j]);
        }
    }
}

/// A strictly sorted sequence of names is determined by the names it holds:
/// two listings with the same members are the same listing, in the same order.
pub proof fn lemma_sorted_listing_unique(s: Seq<Seq<char>>, t: Seq<Seq<char>>)
    requires
        strictly_sorted(s),
        strictly_sorted(t),
        forall|n: Seq<char>| s.contains(n) <==> t.contains(n),
    ensures
        s == t,
    decreases s.len(),
{
    if s.len() == 0 {
        if t.len() > 0 {
            assert(t.contains(t[0]));
        }
        assert(s =~= t);
    } else {
        assert(s.contains(s[0]));
        let j = choose|j: int| 0 <= j < t.len() && t[j] == s[0];
        assert(t.contains(t[0]));
        let i = choose|i: int| 0 <= i < s.len() && s[i] == t[0];
        if j > 0 {
            if i > 0 {
                lemma_name_lt_transitive(s[0], t[0], s[0]);
            }
            lemma_name_lt_irreflexive(s[0]);
        }
        let s1 = s.drop_first();
        let t1 = t.drop_first();
        assert forall|n: Seq<char>| s1.contains(n) <==> t1.contains(n) by {
            if s1.contains(n) {
                let k = choose|k: int| 0 <= k < s1.len() && s1[k] == n;
                lemma_name_lt_irreflexive(s[0]);
                assert(s[k + 1] == n && n != s[0]);
                assert(t.contains(n));
                let m = choose|m: int| 0 <= m < t.len() && t[m] == n;
                assert(t1[m - 1] == n);
            }
            if t1.contains(n) {
                let k = choose|k: int| 0 <= k < t1.len() && t1[k] == n;
                lemma_name_lt_irreflexive(t[0]);
                assert(t[k + 1] == n && n != t[0]);
                assert(s.contains(n));
                let m = choose|m: int| 0 <= m < s.len() && s[m] == n;
                assert(s1[m - 1] == n);
            }
        }
        lemma_sorted_listing_unique(s1, t1);
        assert(s =~= seq![s[0]] + s1);
        assert(t =~= seq![t[0]] + t1);
    }
}

/// Listing is deterministic: two scans that hold the same catalog entries,
/// in whatever order and with whatever other entries, list the same names in
/// the same order.
pub proof fn lemma_listing_deterministic(
    a: Seq<DirEntryInfo>,
    b: Seq<DirEntryInfo>,
    la: Seq<Seq<char>>,
    lb: Seq<Seq<char>>,
)
    requires
        forall|n: Seq<char>| is_catalog_name(a, n) <==> is_catalog_name(b, n),
        strictly_sorted(la),
        forall|n: Seq<char>| #[trigger] la.contains(n) <==> is_catalog_name(a, n),
        strictly_sorted(lb),
        forall|n: Seq<char>| #[trigger] lb.contains(n) <==> is_catalog_name(b, n),
    ensures
        la == lb,
{
    lemma_sorted_listing_unique(la, lb);
}

/// Adds `name` to a strictly sorted vector of names, where it belongs, unless
/// it is there already.
fn insert_sorted(v: &mut Vec<String>, name: String)
    requires
        strictly_sorted(names_of(old(v)@)),
    ensures
        strictly_sorted(names_of(final(v)@)),
        forall|n: Seq<char>| #[trigger]
            names_of(final(v)@).contains(n) <==> (names_of(old(v)@).contains(n) || n == name@),
{
    let ghost s = names_of(v@);
    let mut p: usize = 0;
    while p < v.len() && name_less(v[p].as_str(), name.as_str())
        invariant
            p <= v.len(),
            s == names_of(v@),
            strictly_sorted(s),
            forall|k: int| 0 <= k < p ==> name_lt(#[trigger] s[k], name@),
        decreases v.len() - p,
    {
        p += 1;
    }
    if p < v.len() && v[p] == name {
        assert(s[p as int] == name@);
        return;
    }
    proof {
        if p < s.len() {
            // `name` is not after `s[p]` and differs from it, so it comes first.
            lemma_name_lt_total(s[p as int], name@);
            assert forall|j: int| p <= j < s.len() implies name_lt(name@, #[trigger] s[j]) by {
                if j > p {
                    lemma_name_lt_transitive(name@, s[p as int], s[j]);
                }
            }
        }
    }
    v.insert(p, name);
    proof {
        let t = names_of(v@);
        assert(t =~= s.insert(p as int, name@));
        assert forall|i: int, j: int| 0 <= i < j < t.len() implies name_lt(
            #[trigger] t[i],
            #[trigger] t[j],
        ) by {
            if j < p {
            } else if j == p {
            } else if i < p {
                lemma_name_lt_transitive(s[i], name@, s[j - 1]);
            } else if i == p {
            } else {
            }
        }
        assert forall|n: Seq<char>| #[trigger]
            t.contains(n) <==> (s.contains(n) || n == name@) by {
            if s.contains(n) {
                let k = choose|k: int| 0 <= k < s.len() && s[k] == n;
                if k < p {
                    assert(t[k] == n);
                } else {
                    assert(t[k + 1] == n);
                }
            }
            if n == name@ {
                assert(t[p as int] == n);
            }
            if t.contains(n) {
                let k = choose|k: int| 0 <= k < t.len() && t[k] == n;
                if k < p {
                    assert(s[k] == n);
                } else if k > p {
                    assert(s[k - 1] == n);
                }
            }
        }
    }
}

/// The catalog held in a directory's entries: the names of the regular files
/// that are plain base names with a recognised image extension, sorted
/// strictly by name.
pub fn catalog_of(entries: &Vec<DirEntryInfo>) -> (r: Vec<String>)
    ensures
        strictly_sorted(names_of(r@)),
        names_of(r@).no_duplicates(),
        forall|n: Seq<char>| #[trigger]
            names_of(r@).contains(n) <==> is_catalog_name(entries@, n),
{
    let mut out: Vec<String> = Vec::new();
    let mut i: usize = 0;
    assert(names_of(out@) =~= Seq::<Seq<char>>::empty());
    while i < entries.len()
        invariant
            i <= entries.len(),
            strictly_sorted(names_of(out@)),
            forall|n: Seq<char>| #[trigger]
                names_of(out@).contains(n) <==> is_catalog_name(entries@.subrange(0, i as int), n),
        decreases entries.len() - i,
    {
        let e = &entries[i];
        let keep = e.is_file && is_plain_basename_exec(e.name.as_str()) && is_image_name(
            e.name.as_str(),
        );
        let ghost before = names_of(out@);
        if keep {
            insert_sorted(&mut out, e.name.clone());
        }
        proof {
            let prev = entries@.subrange(0, i as int);
            let next = entries@.subrange(0, i + 1);
            assert forall|n: Seq<char>| #[trigger]
                names_of(out@).contains(n) <==> is_catalog_name(next, n) by {
                if is_catalog_name(prev, n) {
                    let k = choose|k: int|
                        0 <= k < prev.len() && is_catalog_entry(#[trigger] prev[k])
                            && prev[k].name@ == n;
                    assert(next[k] == prev[k]);
                }
                if is_catalog_name(next, n) {
                    let k = choose|k: int|
                        0 <= k < next.len() && is_catalog_entry(#[trigger] next[k])
                            && next[k].name@ == n;
                    if k < i {
                        assert(prev[k] == next[k]);
                    }
                }
                if keep && n == e.name@ {
                    assert(next[i as int] == *e);
                }
            }
        }
        i += 1;
    }
    assert(entries@.subrange(0, entries.len() as int) =~= entries@);
    proof {
        lemma_strictly_sorted_no_duplicates(names_of(out@));
    }
    out
}

/// Lists the catalog from a scan of the canonical root: `None` stands for a
/// root that could not be opened or enumerated, which fails the whole listing.
/// A scan that succeeded gives the names of its regular files that are plain
/// base names with an image extension, in strictly increasing order, even
/// where there are none.
pub fn list_canonical(scan: Option<Vec<DirEntryInfo>>) -> (r: Result<Vec<String>, CatalogError>)
    ensures
        scan is None <==> r is Err,
        r is Err ==> r == Err::<Vec<String>, CatalogError>(CatalogError::DirectoryUnavailable),
        match (scan, r) {
            (Some(entries), Ok(names)) => {
                &&& strictly_sorted(names_of(names@))
                &&& names_of(names@).no_duplicates()
                &&& forall|n: Seq<char>| #[trigger]
                    names_of(names@).contains(n) <==> is_catalog_name(entries@, n)
            },
            _ => true,
        },
{
    match scan {
        Some(entries) => Ok(catalog_of(&entries)),
        None => Err(CatalogError::DirectoryUnavailable),
    }
}

} // verus!
