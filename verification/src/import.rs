//! Planning of bulk imports (bookmark files and JSON backups): which links are
//! refused as unsafe, which are duplicates of stored or earlier links, which
//! are imported, and how a link's category is found.

use vstd::prelude::*;

use crate::error::{ensure_safe_url, safe_url_check, AppError};
use crate::models::{ImportResult, ParsedBookmark};
use crate::normalize::{normalize_url, normalized};
use crate::text::{chars_of, same_chars, string_of, trim, trim_vec, views};

verus! {

/// What happens to one link of an import.
#[derive(Debug, Clone, Copy, PartialEq, Eq, Structural)]
pub enum ImportDecision {
    /// Not an `http`/`https` URL: skipped.
    Unsafe,
    /// Same normal form as a stored link or an earlier imported one: skipped.
    Duplicate,
    /// Stored.
    Import,
}

/// Decisions for `cands` given the normal forms already `known`, and the
/// normal forms known afterwards.
pub open spec fn plan_from(known: Seq<Seq<char>>, cands: Seq<Seq<char>>) -> (
    Seq<ImportDecision>,
    Seq<Seq<char>>,
)
    decreases cands.len(),
{
    if cands.len() == 0 {
        (Seq::<ImportDecision>::empty(), known)
    } else {
        let prev = plan_from(known, cands.drop_last());
        let c = cands.last();
        if safe_url_check(c) is Err {
            (prev.0.push(ImportDecision::Unsafe), prev.1)
        } else if prev.1.contains(normalized(c)) {
            (prev.0.push(ImportDecision::Duplicate), prev.1)
        } else {
            (prev.0.push(ImportDecision::Import), prev.1.push(normalized(c)))
        }
    }
}

/// Normal forms of the stored URLs.
pub open spec fn known_forms(existing: Seq<Seq<char>>) -> Seq<Seq<char>> {
    existing.map_values(|u: Seq<char>| normalized(u))
}

/// The decisions of an import of `cands` into a store holding `existing`.
pub open spec fn import_decisions(existing: Seq<Seq<char>>, cands: Seq<Seq<char>>) -> Seq<ImportDecision> {
    plan_from(known_forms(existing), cands).0
}

/// Number of `Import` decisions.
pub open spec fn count_imported(ds: Seq<ImportDecision>) -> nat
    decreases ds.len(),
{
    if ds.len() == 0 {
        0
    } else {
        count_imported(ds.drop_last()) + if ds.last() == ImportDecision::Import {
            1nat
        } else {
            0nat
        }
    }
}

fn contains_form(known: &Vec<Vec<char>>, x: &[char]) -> (b: bool)
    ensures
        b == views(known@).contains(x@),
{
    let n = known.len();
    for i in 0..n
        invariant
            n == known@.len(),
            forall|k: int| 0 <= k < i ==> known@[k]@ != x@,
    {
        if same_chars(&known[i], x) {
            assert(views(known@)[i as int] == x@);
            return true;
        }
    }
    assert forall|k: int| 0 <= k < views(known@).len() implies views(known@)[k] != x@ by {
        assert(views(known@)[k] == known@[k]@);
    }
    false
}

proof fn lemma_plan_len(known: Seq<Seq<char>>, cands: Seq<Seq<char>>)
    ensures
        plan_from(known, cands).0.len() == cands.len(),
    decreases cands.len(),
{
    if cands.len() > 0 {
        lemma_plan_len(known, cands.drop_last());
    }
}

/// Decides, for each candidate URL, whether it is imported, and counts.
///
/// A candidate is skipped when it is not an `http`/`https` URL, or when its
/// normal form equals that of a stored URL or of a candidate imported before it.
pub fn plan_imports(existing_urls: &Vec<String>, candidates: &Vec<String>) -> (r: (
    Vec<ImportDecision>,
    ImportResult,
))
    requires
        candidates@.len() <= i64::MAX,
    ensures
        r.0@ == import_decisions(
            existing_urls@.map_values(|s: String| s@),
            candidates@.map_values(|s: String| s@),
        ),
        r.1.imported == count_imported(r.0@),
        r.1.imported + r.1.skipped == candidates@.len(),
{
    let ghost ev = existing_urls@.map_values(|s: String| s@);
    let ghost cv = candidates@.map_values(|s: String| s@);
    let mut known: Vec<Vec<char>> = Vec::new();
    let m = existing_urls.len();
    for i in 0..m
        invariant
            m == existing_urls@.len(),
            ev == existing_urls@.map_values(|s: String| s@),
            views(known@) == known_forms(ev.take(i as int)),
    {
        let f = normalize_url(existing_urls[i].as_str());
        let fv = chars_of(f.as_str());
        let ghost before = known@;
        known.push(fv);
        assert(ev.take(i + 1) == ev.take(i as int).push(ev[i as int]));
        assert(ev[i as int] == existing_urls@[i as int]@);
        assert(views(known@) =~= views(before).push(fv@));
        assert(known_forms(ev.take(i + 1)) =~= known_forms(ev.take(i as int)).push(
            normalized(ev[i as int]),
        ));
    }
    assert(ev.take(m as int) == ev);
    let mut ds: Vec<ImportDecision> = Vec::new();
    let mut imported: i64 = 0;
    let mut skipped: i64 = 0;
    let n = candidates.len();
    for i in 0..n
        invariant
            n == candidates@.len(),
            n <= i64::MAX,
            cv == candidates@.map_values(|s: String| s@),
            ds@ == plan_from(known_forms(ev), cv.take(i as int)).0,
            views(known@) == plan_from(known_forms(ev), cv.take(i as int)).1,
            imported == count_imported(ds@),
            imported + skipped == i,
            0 <= imported,
            0 <= skipped,
    {
        proof {
            assert(cv.take(i + 1).drop_last() == cv.take(i as int));
            assert(cv.take(i + 1).last() == candidates@[i as int]@);
            lemma_plan_len(known_forms(ev), cv.take(i as int));
        }
        let c = candidates[i].as_str();
        let safe = ensure_safe_url(c);
        if safe.is_err() {
            ds.push(ImportDecision::Unsafe);
            skipped = skipped + 1;
        } else {
            let f = normalize_url(c);
            let fv = chars_of(f.as_str());
            if contains_form(&known, &fv) {
                ds.push(ImportDecision::Duplicate);
                skipped = skipped + 1;
            } else {
                let ghost before = known@;
                known.push(fv);
                assert(views(known@) =~= views(before).push(normalized(c@)));
                ds.push(ImportDecision::Import);
                imported = imported + 1;
            }
        }
        proof {
            assert(ds@.drop_last() == plan_from(known_forms(ev), cv.take(i as int)).0);
        }
    }
    assert(cv.take(n as int) == cv);
    (ds, ImportResult { imported, skipped })
}

} // verus!

verus! {

proof fn lemma_plan_step(known: Seq<Seq<char>>, cands: Seq<Seq<char>>, j: int)
    requires
        0 <= j < cands.len(),
    ensures
        cands.take(j + 1).drop_last() == cands.take(j),
        cands.take(j + 1).last() == cands[j],
{
    assert(cands.take(j + 1).drop_last() =~= cands.take(j));
}

/// The decisions for a prefix of the candidates are a prefix of the decisions.
proof fn lemma_plan_prefix(known: Seq<Seq<char>>, cands: Seq<Seq<char>>, j: int)
    requires
        0 <= j <= cands.len(),
    ensures
        plan_from(known, cands.take(j)).0 == plan_from(known, cands).0.take(j),
    decreases cands.len(),
{
    lemma_plan_len(known, cands);
    if j == cands.len() {
        assert(cands.take(j) == cands);
        assert(plan_from(known, cands).0.take(j) == plan_from(known, cands).0);
    } else {
        let d = cands.drop_last();
        assert(cands.take(j) == d.take(j));
        lemma_plan_prefix(known, d, j);
        lemma_plan_len(known, d);
        assert(plan_from(known, cands).0.take(j) =~= plan_from(known, d).0.take(j));
    }
}

/// Known normal forms are never forgotten.
proof fn lemma_plan_superset(known: Seq<Seq<char>>, cands: Seq<Seq<char>>, x: Seq<char>)
    requires
        known.contains(x),
    ensures
        plan_from(known, cands).1.contains(x),
    decreases cands.len(),
{
    if cands.len() > 0 {
        lemma_plan_superset(known, cands.drop_last(), x);
        let p = plan_from(known, cands.drop_last()).1;
        let i = choose|i: int| 0 <= i < p.len() && p[i] == x;
        assert(p.push(normalized(cands.last()))[i] == x);
    }
}

/// A normal form known after planning was known before or belongs to an
/// imported candidate.
proof fn lemma_plan_origin(known: Seq<Seq<char>>, cands: Seq<Seq<char>>, x: Seq<char>)
    requires
        plan_from(known, cands).1.contains(x),
    ensures
        known.contains(x) || exists|i: int|
            0 <= i < cands.len() && plan_from(known, cands).0[i] == ImportDecision::Import
                && normalized(cands[i]) == x,
    decreases cands.len(),
{
    if cands.len() > 0 {
        let d = cands.drop_last();
        let prev = plan_from(known, d);
        lemma_plan_len(known, d);
        let ds = plan_from(known, cands).0;
        assert forall|i: int| 0 <= i < d.len() implies ds[i] == prev.0[i] by {}
        if prev.1.contains(x) {
            lemma_plan_origin(known, d, x);
            if !known.contains(x) {
                let i = choose|i: int|
                    0 <= i < d.len() && prev.0[i] == ImportDecision::Import && normalized(d[i]) == x;
                assert(ds[i] == ImportDecision::Import && normalized(cands[i]) == x);
            }
        } else {
            let c = cands.last();
            let n = cands.len() - 1;
            let k = plan_from(known, cands).1;
            assert(k == prev.1.push(normalized(c)));
            let idx = choose|i: int| 0 <= i < k.len() && k[i] == x;
            assert(idx == prev.1.len());
            assert(ds[n] == ImportDecision::Import && normalized(cands[n]) == x);
        }
    }
}

/// An imported candidate's normal form is known afterwards.
proof fn lemma_plan_has_imported(known: Seq<Seq<char>>, cands: Seq<Seq<char>>, i: int)
    requires
        0 <= i < cands.len(),
        plan_from(known, cands).0.len() == cands.len(),
        plan_from(known, cands).0[i] == ImportDecision::Import,
    ensures
        plan_from(known, cands).1.contains(normalized(cands[i])),
    decreases cands.len(),
{
    let d = cands.drop_last();
    lemma_plan_len(known, d);
    let prev = plan_from(known, d);
    if i < cands.len() - 1 {
        assert(plan_from(known, cands).0[i] == prev.0[i]);
        lemma_plan_has_imported(known, d, i);
        lemma_plan_superset(prev.1, seq![cands.last()], normalized(d[i]));
        assert(seq![cands.last()].drop_last() =~= Seq::<Seq<char>>::empty());
        let p = prev.1;
        let j = choose|j: int| 0 <= j < p.len() && p[j] == normalized(d[i]);
        assert(p.push(normalized(cands.last()))[j] == normalized(cands[i]));
    } else {
        let k = plan_from(known, cands).1;
        assert(k[prev.1.len() as int] == normalized(cands[i]));
    }
}

/// The decision for the `j`-th candidate, in terms of what was known before it.
proof fn lemma_plan_at(known: Seq<Seq<char>>, cands: Seq<Seq<char>>, j: int)
    requires
        0 <= j < cands.len(),
    ensures
        plan_from(known, cands).0[j] == plan_from(known, cands.take(j + 1)).0.last(),
        plan_from(known, cands.take(j + 1)).0 == plan_from(known, cands.take(j)).0.push(
            plan_from(known, cands.take(j + 1)).0.last(),
        ),
{
    lemma_plan_step(known, cands, j);
    lemma_plan_prefix(known, cands, j + 1);
    lemma_plan_len(known, cands);
    lemma_plan_len(known, cands.take(j + 1));
}

/// No imported link duplicates a stored link or another imported link: each
/// imported candidate's normal form is new to the store and differs from the
/// normal forms of all candidates imported before it.
pub proof fn law_imports_are_distinct(existing: Seq<Seq<char>>, cands: Seq<Seq<char>>, j: int)
    requires
        0 <= j < cands.len(),
        import_decisions(existing, cands)[j] == ImportDecision::Import,
    ensures
        !known_forms(existing).contains(normalized(cands[j])),
        forall|i: int|
            0 <= i < j && import_decisions(existing, cands)[i] == ImportDecision::Import
                ==> normalized(cands[i]) != normalized(cands[j]),
{
    let k0 = known_forms(existing);
    let ds = import_decisions(existing, cands);
    lemma_plan_at(k0, cands, j);
    let before = plan_from(k0, cands.take(j));
    lemma_plan_step(k0, cands, j);
    assert(!before.1.contains(normalized(cands[j])));
    if k0.contains(normalized(cands[j])) {
        lemma_plan_superset(k0, cands.take(j), normalized(cands[j]));
    }
    assert forall|i: int|
        0 <= i < j && ds[i] == ImportDecision::Import implies normalized(cands[i]) != normalized(
        cands[j],
    ) by {
        lemma_plan_prefix(k0, cands, j);
        lemma_plan_len(k0, cands);
        lemma_plan_len(k0, cands.take(j));
        assert(before.0[i] == ds[i]);
        lemma_plan_has_imported(k0, cands.take(j), i);
    }
}

/// Only `http`/`https` links are imported: a candidate is skipped as unsafe
/// exactly when it fails the safety check, whatever the store holds.
pub proof fn law_imports_are_safe(existing: Seq<Seq<char>>, cands: Seq<Seq<char>>, j: int)
    requires
        0 <= j < cands.len(),
    ensures
        (import_decisions(existing, cands)[j] == ImportDecision::Unsafe) <==> (safe_url_check(
            cands[j],
        ) is Err),
{
    let k0 = known_forms(existing);
    lemma_plan_at(k0, cands, j);
    lemma_plan_step(k0, cands, j);
    let t = cands.take(j + 1);
    let prev = plan_from(k0, t.drop_last());
    assert(plan_from(k0, t).0 == prev.0.push(plan_from(k0, t).0.last()));
}

/// Every web link that is new is imported: a candidate that passes the
/// safety check, whose normal form equals that of no stored link and of no
/// candidate imported before it, is decided `Import`. Together with
/// `law_imports_are_distinct` and `law_imports_are_safe`, a candidate is a
/// duplicate exactly when its normal form equals a known one.
pub proof fn law_new_links_are_imported(existing: Seq<Seq<char>>, cands: Seq<Seq<char>>, j: int)
    requires
        0 <= j < cands.len(),
        safe_url_check(cands[j]) is Ok,
        !known_forms(existing).contains(normalized(cands[j])),
        forall|i: int|
            0 <= i < j && import_decisions(existing, cands)[i] == ImportDecision::Import
                ==> normalized(cands[i]) != normalized(cands[j]),
    ensures
        import_decisions(existing, cands)[j] == ImportDecision::Import,
{
    let k0 = known_forms(existing);
    let ds = import_decisions(existing, cands);
    let x = normalized(cands[j]);
    lemma_plan_at(k0, cands, j);
    lemma_plan_step(k0, cands, j);
    let t = cands.take(j);
    let before = plan_from(k0, t);
    if before.1.contains(x) {
        lemma_plan_origin(k0, t, x);
        let i = choose|i: int|
            0 <= i < t.len() && before.0[i] == ImportDecision::Import && normalized(t[i]) == x;
        lemma_plan_prefix(k0, cands, j);
        lemma_plan_len(k0, cands);
        assert(ds[i] == before.0[i]);
        assert(t[i] == cands[i]);
        assert(false);
    }
    let u = cands.take(j + 1);
    assert(plan_from(k0, u).0 == before.0.push(plan_from(k0, u).0.last()));
}

/// The candidates that were imported, in order.
pub open spec fn imported_of(cands: Seq<Seq<char>>, ds: Seq<ImportDecision>) -> Seq<Seq<char>>
    decreases cands.len(),
{
    if cands.len() == 0 || ds.len() == 0 {
        Seq::<Seq<char>>::empty()
    } else {
        let r = imported_of(cands.drop_last(), ds.drop_last());
        if ds.last() == ImportDecision::Import {
            r.push(cands.last())
        } else {
            r
        }
    }
}

proof fn lemma_imported_of_contains(cands: Seq<Seq<char>>, ds: Seq<ImportDecision>, i: int)
    requires
        cands.len() == ds.len(),
        0 <= i < cands.len(),
        ds[i] == ImportDecision::Import,
    ensures
        imported_of(cands, ds).contains(cands[i]),
    decreases cands.len(),
{
    let r = imported_of(cands.drop_last(), ds.drop_last());
    if i < cands.len() - 1 {
        lemma_imported_of_contains(cands.drop_last(), ds.drop_last(), i);
        let k = choose|k: int| 0 <= k < r.len() && r[k] == cands[i];
        assert(r.push(cands.last())[k] == cands[i]);
    } else {
        assert(imported_of(cands, ds)[r.len() as int] == cands[i]);
    }
}

proof fn lemma_known_forms_contains(s: Seq<Seq<char>>, x: Seq<char>)
    requires
        s.contains(x),
    ensures
        known_forms(s).contains(normalized(x)),
{
    let i = choose|i: int| 0 <= i < s.len() && s[i] == x;
    assert(known_forms(s)[i] == normalized(x));
}

/// Importing the same links a second time, into the store as the first
/// import left it, imports nothing.
pub proof fn law_reimport_imports_nothing(existing: Seq<Seq<char>>, cands: Seq<Seq<char>>)
    ensures
        count_imported(
            import_decisions(
                existing + imported_of(cands, import_decisions(existing, cands)),
                cands,
            ),
        ) == 0,
{
    let k0 = known_forms(existing);
    let ds = import_decisions(existing, cands);
    lemma_plan_len(k0, cands);
    let store = existing + imported_of(cands, ds);
    let k1 = known_forms(store);
    // Everything the first import knew at any point is known from the start of the second.
    assert forall|x: Seq<char>| #[trigger] plan_from(k0, cands).1.contains(x) implies k1.contains(x) by {
        lemma_plan_origin(k0, cands, x);
        if k0.contains(x) {
            let i = choose|i: int| 0 <= i < k0.len() && k0[i] == x;
            assert(k1[i] == x);
        } else {
            let i = choose|i: int|
                0 <= i < cands.len() && ds[i] == ImportDecision::Import && normalized(cands[i]) == x;
            lemma_imported_of_contains(cands, ds, i);
            let w = imported_of(cands, ds);
            let k = choose|k: int| 0 <= k < w.len() && w[k] == cands[i];
            assert(store[existing.len() + k] == cands[i]);
            lemma_known_forms_contains(store, cands[i]);
        }
    }
    let ds2 = plan_from(k1, cands).0;
    lemma_plan_len(k1, cands);
    assert forall|j: int| 0 <= j < cands.len() implies #[trigger] ds2[j] != ImportDecision::Import by {
        lemma_plan_at(k1, cands, j);
        lemma_plan_at(k0, cands, j);
        lemma_plan_step(k1, cands, j);
        let c = cands[j];
        if safe_url_check(c) is Ok {
            let b0 = plan_from(k0, cands.take(j));
            let x = normalized(c);
            // In the first import, c was a duplicate of something known, or imported.
            if b0.1.contains(x) {
                lemma_plan_origin(k0, cands.take(j), x);
                lemma_plan_prefix(k0, cands, j);
                lemma_plan_len(k0, cands.take(j));
                if k0.contains(x) {
                    lemma_plan_superset(k0, cands, x);
                } else {
                    let i = choose|i: int|
                        0 <= i < cands.take(j).len() && b0.0[i] == ImportDecision::Import
                            && normalized(cands.take(j)[i]) == x;
                    assert(ds[i] == ImportDecision::Import);
                    lemma_plan_has_imported(k0, cands, i);
                }
            } else {
                assert(ds[j] == ImportDecision::Import);
                lemma_plan_has_imported(k0, cands, j);
            }
            assert(k1.contains(x));
            lemma_plan_superset(k1, cands.take(j), x);
        }
    }
    lemma_count_zero(ds2);
}

proof fn lemma_count_zero(ds: Seq<ImportDecision>)
    requires
        forall|j: int| 0 <= j < ds.len() ==> #[trigger] ds[j] != ImportDecision::Import,
    ensures
        count_imported(ds) == 0,
    decreases ds.len(),
{
    if ds.len() > 0 {
        assert forall|j: int| 0 <= j < ds.drop_last().len() implies #[trigger] ds.drop_last()[j]
            != ImportDecision::Import by {
            assert(ds.drop_last()[j] == ds[j]);
        }
        lemma_count_zero(ds.drop_last());
    }
}

} // verus!

verus! {

pub open spec fn opt_view(o: Option<String>) -> Option<Seq<char>> {
    match o {
        Some(s) => Some(s@),
        None => None,
    }
}

/// A bookmark's category name: its trimmed folder name, if that is not blank.
pub open spec fn folder_category(folder: Option<Seq<char>>) -> Option<Seq<char>> {
    match folder {
        Some(f) => if trim(f).len() > 0 {
            Some(trim(f))
        } else {
            None
        },
        None => None,
    }
}

/// One step of a bookmark import: the decision for the link and, for links
/// that are not refused as unsafe, the category (by folder name) to find or
/// create before the duplicate check.
pub struct BookmarkStep {
    pub decision: ImportDecision,
    pub folder: Option<String>,
}

pub open spec fn bookmark_urls(b: Seq<ParsedBookmark>) -> Seq<Seq<char>> {
    b.map_values(|x: ParsedBookmark| x.url@)
}

/// Plans the import of parsed bookmarks into a store holding `existing_urls`.
pub fn plan_bookmark_import(existing_urls: &Vec<String>, bookmarks: &Vec<ParsedBookmark>) -> (r: (
    Vec<BookmarkStep>,
    ImportResult,
))
    requires
        bookmarks@.len() <= i64::MAX,
    ensures
        r.0@.len() == bookmarks@.len(),
        forall|i: int|
            0 <= i < r.0@.len() ==> {
                &&& (#[trigger] r.0@[i]).decision == import_decisions(
                    existing_urls@.map_values(|s: String| s@),
                    bookmark_urls(bookmarks@),
                )[i]
                &&& opt_view(r.0@[i].folder) == if r.0@[i].decision == ImportDecision::Unsafe {
                    None
                } else {
                    folder_category(opt_view(bookmarks@[i].folder))
                }
            },
        r.1.imported == count_imported(
            import_decisions(existing_urls@.map_values(|s: String| s@), bookmark_urls(bookmarks@)),
        ),
        r.1.imported + r.1.skipped == bookmarks@.len(),
{
    let mut urls: Vec<String> = Vec::new();
    let n = bookmarks.len();
    for i in 0..n
        invariant
            n == bookmarks@.len(),
            urls@.map_values(|s: String| s@) == bookmark_urls(bookmarks@).take(i as int),
    {
        let ghost before = urls@;
        let u = bookmarks[i].url.clone();
        assert(u@ == bookmarks@[i as int].url@);
        urls.push(u);
        assert(bookmark_urls(bookmarks@).take(i + 1) =~= bookmark_urls(bookmarks@).take(i as int).push(
            bookmarks@[i as int].url@,
        ));
        assert(urls@.map_values(|s: String| s@) =~= before.map_values(|s: String| s@).push(u@));
    }
    assert(bookmark_urls(bookmarks@).take(n as int) == bookmark_urls(bookmarks@));
    let (ds, result) = plan_imports(existing_urls, &urls);
    proof {
        lemma_plan_len(
            known_forms(existing_urls@.map_values(|s: String| s@)),
            bookmark_urls(bookmarks@),
        );
    }
    let mut steps: Vec<BookmarkStep> = Vec::new();
    for i in 0..n
        invariant
            n == bookmarks@.len(),
            ds@.len() == n,
            ds@ == import_decisions(
                existing_urls@.map_values(|s: String| s@),
                bookmark_urls(bookmarks@),
            ),
            steps@.len() == i,
            forall|k: int|
                0 <= k < i ==> {
                    &&& (#[trigger] steps@[k]).decision == ds@[k]
                    &&& opt_view(steps@[k].folder) == if steps@[k].decision
                        == ImportDecision::Unsafe {
                        None
                    } else {
                        folder_category(opt_view(bookmarks@[k].folder))
                    }
                },
    {
        let d = ds[i];
        let folder = if d == ImportDecision::Unsafe {
            None
        } else {
            match &bookmarks[i].folder {
                Some(f) => {
                    let t = trim_vec(&chars_of(f.as_str()));
                    if t.len() > 0 {
                        Some(string_of(&t))
                    } else {
                        None
                    }
                },
                None => None,
            }
        };
        steps.push(BookmarkStep { decision: d, folder });
    }
    (steps, result)
}

/// One link of a JSON backup; all fields but `url` may be absent.
#[derive(Debug, Clone)]
pub struct BackupLink {
    pub url: String,
    pub title: Option<String>,
    pub note: Option<String>,
    pub category_id: Option<String>,
    /// More reliable than the id when moving between machines.
    pub category_name: Option<String>,
}

/// One category of a JSON backup.
#[derive(Debug, Clone)]
pub struct BackupCategory {
    pub id: Option<String>,
    pub name: String,
}

/// A JSON backup: categories and links.
#[derive(Debug, Clone)]
pub struct Backup {
    pub categories: Vec<BackupCategory>,
    pub links: Vec<BackupLink>,
}

pub open spec fn backup_usable(b: Backup) -> bool {
    b.links@.len() > 0 || b.categories@.len() > 0
}

/// Chooses between the two readings of a backup file: the full form
/// `{ "categories": [...], "links": [...] }` when it parsed and holds
/// something, else a bare array of links; if that did not parse either, a
/// parse error carrying the JSON error's text.
pub fn parse_backup(full: Option<Backup>, bare: Result<Vec<BackupLink>, String>) -> (r: Result<
    Backup,
    AppError,
>)
    ensures
        match full {
            Some(b) if backup_usable(b) => r == Ok::<Backup, AppError>(b),
            _ => match bare {
                Ok(links) => r matches Ok(b) && b.categories@.len() == 0 && b.links == links,
                Err(e) => r matches Err(AppError::Parse(m)) && m@ == "JSON 结构无法识别: "@ + e@,
            },
        },
{
    match full {
        Some(b) => {
            if b.links.len() > 0 || b.categories.len() > 0 {
                return Ok(b);
            }
        },
        None => {},
    }
    match bare {
        Ok(links) => Ok(Backup { categories: Vec::new(), links }),
        Err(e) => Err(AppError::Parse(crate::error::prefixed("JSON 结构无法识别: ", e.as_str()))),
    }
}

/// For a backup category: its trimmed name (when not blank), with the old id
/// (when present and not empty) to map to the category found or created.
pub fn category_restore_step(c: &BackupCategory) -> (r: Option<(String, Option<String>)>)
    ensures
        match r {
            Some((name, old)) => {
                &&& trim(c.name@).len() > 0
                &&& name@ == trim(c.name@)
                &&& opt_view(old) == match c.id {
                    Some(id) => if id@.len() > 0 {
                        Some(id@)
                    } else {
                        None
                    },
                    None => None,
                }
            },
            None => trim(c.name@).len() == 0,
        },
{
    let t = trim_vec(&chars_of(c.name.as_str()));
    if t.len() == 0 {
        return None;
    }
    let old = match &c.id {
        Some(id) => if id.as_str().unicode_len() > 0 {
            Some(id.clone())
        } else {
            None
        },
        None => None,
    };
    Some((string_of(&t), old))
}

/// How a link's category is found.
#[derive(Debug, Clone)]
pub enum CategoryLookup {
    /// Find or create the category with this name.
    ByName(String),
    /// The backup's id was restored under this new id.
    Mapped(String),
    /// Keep this id if such a category exists, else leave the link uncategorised.
    IfExists(String),
    /// No category.
    Uncategorized,
}

/// The value stored for `key` in a list of insertions: the last one wins.
pub open spec fn map_lookup(pairs: Seq<(Seq<char>, Seq<char>)>, key: Seq<char>) -> Option<Seq<char>>
    decreases pairs.len(),
{
    if pairs.len() == 0 {
        None
    } else if pairs.last().0 == key {
        Some(pairs.last().1)
    } else {
        map_lookup(pairs.drop_last(), key)
    }
}

pub open spec fn pairs_view(v: Seq<(String, String)>) -> Seq<(Seq<char>, Seq<char>)> {
    v.map_values(|p: (String, String)| (p.0@, p.1@))
}

pub open spec fn lookup_view(l: CategoryLookup) -> (int, Seq<char>) {
    match l {
        CategoryLookup::ByName(n) => (0, n@),
        CategoryLookup::Mapped(n) => (1, n@),
        CategoryLookup::IfExists(n) => (2, n@),
        CategoryLookup::Uncategorized => (3, Seq::<char>::empty()),
    }
}

/// Where a backup link's category comes from: its category name first, then
/// its old id as restored, then its old id if it still exists, else none.
pub open spec fn category_lookup_of(
    name: Option<Seq<char>>,
    id: Option<Seq<char>>,
    id_map: Seq<(Seq<char>, Seq<char>)>,
) -> (int, Seq<char>) {
    if name is Some && trim(name->0).len() > 0 {
        (0, trim(name->0))
    } else if id is Some && (id->0).len() > 0 {
        match map_lookup(id_map, id->0) {
            Some(new_id) => (1, new_id),
            None => (2, id->0),
        }
    } else {
        (3, Seq::<char>::empty())
    }
}

/// Decides how to find the category of a backup link.
pub fn category_lookup(link: &BackupLink, id_map: &Vec<(String, String)>) -> (r: CategoryLookup)
    ensures
        lookup_view(r) == category_lookup_of(
            opt_view(link.category_name),
            opt_view(link.category_id),
            pairs_view(id_map@),
        ),
{
    match &link.category_name {
        Some(n) => {
            let t = trim_vec(&chars_of(n.as_str()));
            if t.len() > 0 {
                return CategoryLookup::ByName(string_of(&t));
            }
        },
        None => {},
    }
    match &link.category_id {
        Some(id) => {
            let idv = chars_of(id.as_str());
            if idv.len() > 0 {
                let ghost pv = pairs_view(id_map@);
                let mut i = id_map.len();
                assert(pv.take(i as int) == pv);
                while i > 0
                    invariant
                        i <= id_map@.len(),
                        pv == pairs_view(id_map@),
                        idv@ == id@,
                        id@.len() > 0,
                        opt_view(link.category_id) == Some(id@),
                        opt_view(link.category_name) is None || trim(
                            opt_view(link.category_name)->0,
                        ).len() == 0,
                        map_lookup(pv, id@) == map_lookup(pv.take(i as int), id@),
                    decreases i,
                {
                    proof {
                        assert(pv.take(i as int).drop_last() == pv.take(i - 1));
                        assert(pv.take(i as int).last() == (id_map@[i - 1].0@, id_map@[i - 1].1@));
                    }
                    if same_chars(&chars_of(id_map[i - 1].0.as_str()), &idv) {
                        let v = id_map[i - 1].1.clone();
                        assert(map_lookup(pv, id@) == Some(v@));
                        return CategoryLookup::Mapped(v);
                    }
                    i = i - 1;
                }
                return CategoryLookup::IfExists(id.clone());
            }
        },
        None => {},
    }
    CategoryLookup::Uncategorized
}

} // verus!
