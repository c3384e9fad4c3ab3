//! The whole comparison of two archives.
use crate::catalog::{
    catalog_of, extract_filenames_and_hashes, lemma_lines_map_at, Catalog, CompareError,
};
use crate::classify::{
    classify_entry, entry_outcome, strings_view, EntryFailure, EntryOutcome, FileDifference,
    OutcomeView,
};
use crate::outside::{fx_digest, fx_hash};
use vstd::prelude::*;

verus! {

/// The names of both catalogs, each once.
pub fn entry_names(files1: &Catalog, files2: &Catalog) -> (r: Vec<String>)
    requires
        files1.wf(),
        files2.wf(),
    ensures
        strings_view(r).no_duplicates(),
        forall|n: Seq<char>| #[trigger] strings_view(r).contains(n)
            <==> (files1.view().contains_key(n) || files2.view().contains_key(n)),
{
    let ghost l1 = files1.lines();
    let ghost l2 = files2.lines();
    let mut r: Vec<String> = Vec::new();
    let mut i: usize = 0;
    while i < files1.entries.len()
        invariant
            files1.wf(),
            l1 == files1.lines(),
            i <= l1.len(),
            strings_view(r) =~= l1.take(i as int).map_values(|e: (Seq<char>, u64)| e.0),
        decreases files1.entries.len() - i,
    {
        let ghost before = strings_view(r);
        let name = files1.entries[i].name.clone();
        assert(l1[i as int].0 == files1.entries@[i as int].name@);
        r.push(name);
        assert(strings_view(r) =~= before.push(name@));
        assert(strings_view(r) =~= l1.take(i as int + 1).map_values(|e: (Seq<char>, u64)| e.0));
        i = i + 1;
    }
    assert(l1.take(l1.len() as int) =~= l1);
    proof {
        assert(r@.len() == l1.len());
        assert forall|a: int, b: int| 0 <= a < b < r@.len() implies strings_view(r)[a] != strings_view(r)[b] by {
            assert(strings_view(r)[a] == l1[a].0);
            assert(strings_view(r)[b] == l1[b].0);
        }
        assert forall|n: Seq<char>| files1.view().contains_key(n) implies strings_view(r).contains(n) by {
            let k = choose|k: int| 0 <= k < l1.len() && (#[trigger] l1[k]).0 == n;
            assert(strings_view(r)[k] == n);
        }
        assert forall|k: int| 0 <= k < r@.len() implies files1.view().contains_key(#[trigger] strings_view(r)[k]) by {
            assert(strings_view(r)[k] == l1[k].0);
            lemma_lines_map_at(l1, k);
        }
    }
    let mut j: usize = 0;
    while j < files2.entries.len()
        invariant
            files1.wf(),
            files2.wf(),
            l2 == files2.lines(),
            j <= l2.len(),
            strings_view(r).no_duplicates(),
            forall|n: Seq<char>| files1.view().contains_key(n) ==> #[trigger] strings_view(r).contains(n),
            forall|k: int| 0 <= k < j ==> #[trigger] strings_view(r).contains(l2[k].0),
            forall|k: int| 0 <= k < r@.len() ==> files1.view().contains_key(#[trigger] strings_view(r)[k])
                || exists|m: int| 0 <= m < j && l2[m].0 == strings_view(r)[k],
        decreases files2.entries.len() - j,
    {
        let ghost before = strings_view(r);
        assert(l2[j as int].0 == files2.entries@[j as int].name@);
        if files1.position(files2.entries[j].name.as_str()).is_none() {
            let name = files2.entries[j].name.clone();
            r.push(name);
            proof {
                let n = l2[j as int].0;
                assert(strings_view(r) =~= before.push(n));
                assert forall|k: int| 0 <= k < before.len() implies before[k] != n by {
                    if !files1.view().contains_key(before[k]) {
                        let m = choose|m: int| 0 <= m < j && l2[m].0 == before[k];
                        assert(m != j);
                    }
                }
                assert forall|x: Seq<char>| before.contains(x) implies strings_view(r).contains(x) by {
                    let k = choose|k: int| 0 <= k < before.len() && before[k] == x;
                    assert(strings_view(r)[k] == x);
                }
                assert(strings_view(r)[before.len() as int] == n);
                assert(strings_view(r).contains(n));
                assert forall|x: Seq<char>| files1.view().contains_key(x) implies #[trigger] strings_view(r).contains(x) by {
                    assert(before.contains(x));
                }
                assert forall|k: int| 0 <= k < j + 1 implies #[trigger] strings_view(r).contains(l2[k].0) by {
                    if k < j {
                        assert(before.contains(l2[k].0));
                    }
                }
            }
        } else {
            assert(strings_view(r).contains(l2[j as int].0));
        }
        j = j + 1;
    }
    proof {
        assert forall|n: Seq<char>| #[trigger] strings_view(r).contains(n)
            <==> (files1.view().contains_key(n) || files2.view().contains_key(n)) by {
            if strings_view(r).contains(n) {
                let k = choose|k: int| 0 <= k < r@.len() && strings_view(r)[k] == n;
                if !files1.view().contains_key(n) {
                    let m = choose|m: int| 0 <= m < l2.len() && l2[m].0 == strings_view(r)[k];
                    lemma_lines_map_at(l2, m);
                }
            }
            if files2.view().contains_key(n) {
                let m = choose|m: int| 0 <= m < l2.len() && (#[trigger] l2[m]).0 == n;
            }
        }
    }
    r
}

/// The outcome of a comparison that did not fail: the differences, and the
/// entries whose text could not be read (left out of the differences).
pub struct Comparison {
    pub differences: Vec<FileDifference>,
    pub failures: Vec<EntryFailure>,
}

pub open spec fn in_universe(c1: Map<Seq<char>, u64>, c2: Map<Seq<char>, u64>, n: Seq<char>) -> bool {
    c1.contains_key(n) || c2.contains_key(n)
}

/// `c` holds, in some order, exactly one record for each name of either
/// catalog whose outcome is a difference or a failure, and that record is
/// the outcome.
pub open spec fn comparison_matches(
    c: Comparison,
    zip1: Seq<u8>,
    zip2: Seq<u8>,
    c1: Map<Seq<char>, u64>,
    c2: Map<Seq<char>, u64>,
) -> bool {
    &&& forall|k: int| 0 <= k < c.differences@.len() ==> {
        let d = #[trigger] c.differences@[k];
        in_universe(c1, c2, d.filename@) && entry_outcome(zip1, zip2, c1, c2, d.filename@)
            == OutcomeView::Difference(d.view())
    }
    &&& forall|k: int| 0 <= k < c.failures@.len() ==> {
        let f = #[trigger] c.failures@[k];
        in_universe(c1, c2, f.filename@) && entry_outcome(zip1, zip2, c1, c2, f.filename@)
            == OutcomeView::Failure(f.filename@, f.first, f.second)
    }
    &&& forall|a: int, b: int| 0 <= a < b < c.differences@.len() ==>
        (#[trigger] c.differences@[a]).filename@ != (#[trigger] c.differences@[b]).filename@
    &&& forall|a: int, b: int| 0 <= a < b < c.failures@.len() ==>
        (#[trigger] c.failures@[a]).filename@ != (#[trigger] c.failures@[b]).filename@
    &&& forall|n: Seq<char>| in_universe(c1, c2, n) && (#[trigger] entry_outcome(zip1, zip2, c1, c2, n)) is Difference
        ==> exists|k: int| 0 <= k < c.differences@.len() && (#[trigger] c.differences@[k]).filename@ == n
    &&& forall|n: Seq<char>| in_universe(c1, c2, n) && (#[trigger] entry_outcome(zip1, zip2, c1, c2, n)) is Failure
        ==> exists|k: int| 0 <= k < c.failures@.len() && (#[trigger] c.failures@[k]).filename@ == n
}

/// What comparing the archives in `zip1` and `zip2` owes: nothing where the
/// two container digests are equal; else the first catalog error, or one
/// record per entry that differs or could not be read.
pub open spec fn compare_result_ok(r: Result<Comparison, CompareError>, zip1: Seq<u8>, zip2: Seq<u8>) -> bool {
    if fx_hash(zip1) == fx_hash(zip2) {
        r matches Ok(c) && c.differences@.len() == 0 && c.failures@.len() == 0
    } else {
        match (catalog_of(zip1), catalog_of(zip2)) {
            (Err(e), _) => r matches Err(x) && x == e,
            (Ok(_), Err(e)) => r matches Err(x) && x == e,
            (Ok(c1), Ok(c2)) => r matches Ok(c) && comparison_matches(c, zip1, zip2, c1, c2),
        }
    }
}

/// Both catalogs of a comparison that was not short-circuited, and every
/// name of either, each once.
pub struct Plan {
    pub files1: Catalog,
    pub files2: Catalog,
    pub names: Vec<String>,
}

impl Plan {
    pub open spec fn wf(&self) -> bool {
        &&& self.files1.wf()
        &&& self.files2.wf()
        &&& strings_view(self.names).no_duplicates()
        &&& forall|n: Seq<char>| #[trigger] strings_view(self.names).contains(n)
            <==> in_universe(self.files1.view(), self.files2.view(), n)
    }
}

/// The sequential part of a comparison: `None` where the container digests
/// are equal; else both catalogs (the first one's error first) and the names
/// to classify.
pub fn plan_comparison(zip1: &[u8], zip2: &[u8]) -> (r: Result<Option<Plan>, CompareError>)
    ensures
        fx_hash(zip1@) == fx_hash(zip2@) ==> r matches Ok(None),
        fx_hash(zip1@) != fx_hash(zip2@) ==> match (catalog_of(zip1@), catalog_of(zip2@)) {
            (Err(e), _) => r matches Err(x) && x == e,
            (Ok(_), Err(e)) => r matches Err(x) && x == e,
            (Ok(c1), Ok(c2)) => r matches Ok(Some(p)) && p.wf() && p.files1.view() == c1
                && p.files2.view() == c2,
        },
{
    let hash1 = fx_digest(zip1);
    let hash2 = fx_digest(zip2);
    if hash1 == hash2 {
        return Ok(None);
    }
    let files1 = match extract_filenames_and_hashes(zip1) {
        Ok(c) => c,
        Err(e) => return Err(e),
    };
    let files2 = match extract_filenames_and_hashes(zip2) {
        Ok(c) => c,
        Err(e) => return Err(e),
    };
    let names = entry_names(&files1, &files2);
    Ok(Some(Plan { files1, files2, names }))
}

/// Splits classified entries into differences and failures, keeping their
/// order and leaving unchanged entries out.
pub fn gather(outcomes: Vec<EntryOutcome>) -> (r: Comparison)
    ensures
        r.differences@.map_values(|d: FileDifference| OutcomeView::Difference(d.view()))
            == outcomes@.map_values(|o: EntryOutcome| o.view()).filter(|v: OutcomeView| v is Difference),
        r.failures@.map_values(|f: EntryFailure| OutcomeView::Failure(f.filename@, f.first, f.second))
            == outcomes@.map_values(|o: EntryOutcome| o.view()).filter(|v: OutcomeView| v is Failure),
{
    let ghost views = outcomes@.map_values(|o: EntryOutcome| o.view());
    let mut differences: Vec<FileDifference> = Vec::new();
    let mut failures: Vec<EntryFailure> = Vec::new();
    let n = outcomes.len();
    let mut rest = outcomes;
    let mut i: usize = 0;
    let ghost total = rest@.len();
    assert(total == n);
    while rest.len() > 0
        invariant
            rest@.len() + i == total,
            total <= usize::MAX,
            total == views.len(),
            forall|k: int| 0 <= k < rest@.len() ==> (#[trigger] rest@[k]).view() == views[i + k],
            differences@.map_values(|d: FileDifference| OutcomeView::Difference(d.view()))
                == views.take(i as int).filter(|v: OutcomeView| v is Difference),
            failures@.map_values(|f: EntryFailure| OutcomeView::Failure(f.filename@, f.first, f.second))
                == views.take(i as int).filter(|v: OutcomeView| v is Failure),
        decreases rest@.len(),
    {
        let o = rest.remove(0);
        assert(views.take(i as int + 1).drop_last() =~= views.take(i as int));
        assert(views.take(i as int + 1).last() == o.view());
        reveal(Seq::filter);
        match o {
            EntryOutcome::Unchanged => {},
            EntryOutcome::Difference(d) => {
                differences.push(d);
            },
            EntryOutcome::Failure(f) => {
                failures.push(f);
            },
        }
        assert(differences@.map_values(|d: FileDifference| OutcomeView::Difference(d.view()))
            =~= views.take(i as int + 1).filter(|v: OutcomeView| v is Difference));
        assert(failures@.map_values(|f: EntryFailure| OutcomeView::Failure(f.filename@, f.first, f.second))
            =~= views.take(i as int + 1).filter(|v: OutcomeView| v is Failure));
        i = i + 1;
    }
    assert(views.take(i as int) =~= views);
    Comparison { differences, failures }
}

/// Compares two archives held in memory, entry by entry.
pub fn compare_zip_files(zip1: &[u8], zip2: &[u8]) -> (r: Result<Comparison, CompareError>)
    ensures
        compare_result_ok(r, zip1@, zip2@),
{
    let plan = match plan_comparison(zip1, zip2) {
        Err(e) => return Err(e),
        Ok(None) => return Ok(Comparison { differences: Vec::new(), failures: Vec::new() }),
        Ok(Some(p)) => p,
    };
    let files1 = plan.files1;
    let files2 = plan.files2;
    let all_files = plan.names;
    let ghost c1 = files1.view();
    let ghost c2 = files2.view();
    let ghost names = strings_view(all_files);
    let mut differences: Vec<FileDifference> = Vec::new();
    let mut failures: Vec<EntryFailure> = Vec::new();
    let mut i: usize = 0;
    while i < all_files.len()
        invariant
            files1.wf(),
            files2.wf(),
            c1 == files1.view(),
            c2 == files2.view(),
            names == strings_view(all_files),
            names.no_duplicates(),
            forall|n: Seq<char>| #[trigger] names.contains(n) <==> in_universe(c1, c2, n),
            i <= names.len(),
            forall|k: int| 0 <= k < differences@.len() ==> {
                let d = #[trigger] differences@[k];
                &&& entry_outcome(zip1@, zip2@, c1, c2, d.filename@) == OutcomeView::Difference(d.view())
                &&& exists|m: int| 0 <= m < i && names[m] == d.filename@
            },
            forall|k: int| 0 <= k < failures@.len() ==> {
                let f = #[trigger] failures@[k];
                &&& entry_outcome(zip1@, zip2@, c1, c2, f.filename@) == OutcomeView::Failure(f.filename@, f.first, f.second)
                &&& exists|m: int| 0 <= m < i && names[m] == f.filename@
            },
            forall|a: int, b: int| 0 <= a < b < differences@.len() ==>
                (#[trigger] differences@[a]).filename@ != (#[trigger] differences@[b]).filename@,
            forall|a: int, b: int| 0 <= a < b < failures@.len() ==>
                (#[trigger] failures@[a]).filename@ != (#[trigger] failures@[b]).filename@,
            forall|m: int| 0 <= m < i && (#[trigger] entry_outcome(zip1@, zip2@, c1, c2, names[m])) is Difference
                ==> exists|k: int| 0 <= k < differences@.len() && (#[trigger] differences@[k]).filename@ == names[m],
            forall|m: int| 0 <= m < i && (#[trigger] entry_outcome(zip1@, zip2@, c1, c2, names[m])) is Failure
                ==> exists|k: int| 0 <= k < failures@.len() && (#[trigger] failures@[k]).filename@ == names[m],
        decreases all_files.len() - i,
    {
        let ghost n = names[i as int];
        assert(all_files@[i as int]@ == n);
        let outcome = classify_entry(zip1, zip2, &files1, &files2, all_files[i].as_str());
        let ghost d0 = differences@;
        let ghost f0 = failures@;
        match outcome {
            EntryOutcome::Unchanged => {},
            EntryOutcome::Difference(d) => {
                proof {
                    assert forall|k: int| 0 <= k < d0.len() implies (#[trigger] d0[k]).filename@ != n by {
                        let m = choose|m: int| 0 <= m < i && names[m] == d0[k].filename@;
                        assert(names[m] != names[i as int]);
                    }
                }
                differences.push(d);
                proof {
                    assert(differences@[d0.len() as int].filename@ == n);
                    assert forall|k: int| 0 <= k < differences@.len() implies
                        exists|m: int| 0 <= m < i + 1 && names[m] == (#[trigger] differences@[k]).filename@ by {
                        if k < d0.len() {
                            assert(differences@[k] == d0[k]);
                        } else {
                            assert(names[i as int] == differences@[k].filename@);
                        }
                    }
                }
            },
            EntryOutcome::Failure(f) => {
                proof {
                    assert forall|k: int| 0 <= k < f0.len() implies (#[trigger] f0[k]).filename@ != n by {
                        let m = choose|m: int| 0 <= m < i && names[m] == f0[k].filename@;
                        assert(names[m] != names[i as int]);
                    }
                }
                failures.push(f);
                proof {
                    assert(failures@[f0.len() as int].filename@ == n);
                    assert forall|k: int| 0 <= k < failures@.len() implies
                        exists|m: int| 0 <= m < i + 1 && names[m] == (#[trigger] failures@[k]).filename@ by {
                        if k < f0.len() {
                            assert(failures@[k] == f0[k]);
                        } else {
                            assert(names[i as int] == failures@[k].filename@);
                        }
                    }
                }
            },
        }
        proof {
            assert forall|m: int| 0 <= m < i + 1 && (#[trigger] entry_outcome(zip1@, zip2@, c1, c2, names[m])) is Difference
                implies exists|k: int| 0 <= k < differences@.len() && (#[trigger] differences@[k]).filename@ == names[m] by {
                if m < i {
                    let k = choose|k: int| 0 <= k < d0.len() && (#[trigger] d0[k]).filename@ == names[m];
                    assert(differences@[k] == d0[k]);
                } else {
                    assert(differences@[d0.len() as int].filename@ == names[m]);
                }
            }
            assert forall|m: int| 0 <= m < i + 1 && (#[trigger] entry_outcome(zip1@, zip2@, c1, c2, names[m])) is Failure
                implies exists|k: int| 0 <= k < failures@.len() && (#[trigger] failures@[k]).filename@ == names[m] by {
                if m < i {
                    let k = choose|k: int| 0 <= k < f0.len() && (#[trigger] f0[k]).filename@ == names[m];
                    assert(failures@[k] == f0[k]);
                } else {
                    assert(failures@[f0.len() as int].filename@ == names[m]);
                }
            }
        }
        i = i + 1;
    }
    let c = Comparison { differences, failures };
    proof {
        assert forall|n: Seq<char>| in_universe(c1, c2, n) && (#[trigger] entry_outcome(zip1@, zip2@, c1, c2, n)) is Difference
            implies exists|k: int| 0 <= k < c.differences@.len() && (#[trigger] c.differences@[k]).filename@ == n by {
            assert(names.contains(n));
            let m = choose|m: int| 0 <= m < names.len() && names[m] == n;
            assert(entry_outcome(zip1@, zip2@, c1, c2, names[m]) is Difference);
        }
        assert forall|n: Seq<char>| in_universe(c1, c2, n) && (#[trigger] entry_outcome(zip1@, zip2@, c1, c2, n)) is Failure
            implies exists|k: int| 0 <= k < c.failures@.len() && (#[trigger] c.failures@[k]).filename@ == n by {
            assert(names.contains(n));
            let m = choose|m: int| 0 <= m < names.len() && names[m] == n;
            assert(entry_outcome(zip1@, zip2@, c1, c2, names[m]) is Failure);
        }
        assert forall|k: int| 0 <= k < c.differences@.len() implies in_universe(c1, c2, (#[trigger] c.differences@[k]).filename@) by {
            let m = choose|m: int| 0 <= m < i && names[m] == c.differences@[k].filename@;
            assert(names.contains(names[m]));
        }
        assert forall|k: int| 0 <= k < c.failures@.len() implies in_universe(c1, c2, (#[trigger] c.failures@[k]).filename@) by {
            let m = choose|m: int| 0 <= m < i && names[m] == c.failures@[k].filename@;
            assert(names.contains(names[m]));
        }
    }
    Ok(c)
}

} // verus!
