//! Facts about whole comparisons, proved from the contracts of the pipeline.
use crate::catalog::{catalog_of, catalog_upto, entry_bytes, CompareError, ExtractError};
use crate::classify::{
    diff_report, difference, entry_outcome, has_nul, text_difference, DifferenceView,
    OutcomeView, Status,
};
use crate::compare::{compare_result_ok, in_universe, Comparison};
use crate::names::{is_image_name, is_junk_name};
use crate::outside::{fx_hash, line_alignment, zip_entry_count};
use vstd::prelude::*;
use vstd::utf8::{decode_utf8, valid_utf8};

verus! {

/// `c` holds exactly one difference for the name of `v`, and it is `v`.
pub open spec fn has_single_record(c: Comparison, v: DifferenceView) -> bool {
    &&& exists|k: int| 0 <= k < c.differences@.len() && (#[trigger] c.differences@[k]).view() == v
    &&& forall|k: int| 0 <= k < c.differences@.len() && (#[trigger] c.differences@[k]).filename@ == v.filename
        ==> c.differences@[k].view() == v
}

/// `c` holds no difference and no failure for `n`.
pub open spec fn has_no_record(c: Comparison, n: Seq<char>) -> bool {
    &&& forall|k: int| 0 <= k < c.differences@.len() ==> (#[trigger] c.differences@[k]).filename@ != n
    &&& forall|k: int| 0 <= k < c.failures@.len() ==> (#[trigger] c.failures@[k]).filename@ != n
}

/// `line` is a one-sided item of the alignment with its mark: a line of the
/// left text only after `- `, or of the right text only after `+ `.
pub open spec fn marked_one_sided(al: Seq<(Option<Seq<char>>, Option<Seq<char>>)>, line: Seq<char>) -> bool {
    exists|j: int| 0 <= j < al.len() && {
        let a = #[trigger] al[j];
        ||| a.0 is Some && a.1 is None && line == "- "@ + a.0->Some_0
        ||| a.0 is None && a.1 is Some && line == "+ "@ + a.1->Some_0
    }
}

/// The comparison of two archives that are not short-circuited, whose
/// catalogs are `c1` and `c2`.
pub open spec fn full_comparison(
    r: Result<Comparison, CompareError>,
    zip1: Seq<u8>,
    zip2: Seq<u8>,
    c1: Map<Seq<char>, u64>,
    c2: Map<Seq<char>, u64>,
) -> bool {
    &&& compare_result_ok(r, zip1, zip2)
    &&& fx_hash(zip1) != fx_hash(zip2)
    &&& catalog_of(zip1) == Ok::<_, CompareError>(c1)
    &&& catalog_of(zip2) == Ok::<_, CompareError>(c2)
}

proof fn lemma_difference_recorded(
    r: Result<Comparison, CompareError>,
    zip1: Seq<u8>,
    zip2: Seq<u8>,
    c1: Map<Seq<char>, u64>,
    c2: Map<Seq<char>, u64>,
    n: Seq<char>,
    v: DifferenceView,
)
    requires
        full_comparison(r, zip1, zip2, c1, c2),
        in_universe(c1, c2, n),
        entry_outcome(zip1, zip2, c1, c2, n) == OutcomeView::Difference(v),
    ensures
        r matches Ok(c) && has_single_record(c, v),
{
    let c = r->Ok_0;
    assert(entry_outcome(zip1, zip2, c1, c2, n) is Difference);
    let k = choose|k: int| 0 <= k < c.differences@.len() && (#[trigger] c.differences@[k]).filename@ == n;
    assert(c.differences@[k].view() == v);
}

/// Comparing byte-identical containers finds nothing, whatever they hold:
/// not even an archive is needed.
pub proof fn identical_containers_compare_empty(zip1: Seq<u8>, zip2: Seq<u8>, r: Result<Comparison, CompareError>)
    requires
        zip1 == zip2,
        compare_result_ok(r, zip1, zip2),
    ensures
        r matches Ok(c) && c.differences@.len() == 0 && c.failures@.len() == 0,
{
}

/// An entry only in the first archive is reported once, as removed, with no
/// content diff.
pub proof fn entry_only_in_first_is_removed(
    zip1: Seq<u8>,
    zip2: Seq<u8>,
    c1: Map<Seq<char>, u64>,
    c2: Map<Seq<char>, u64>,
    n: Seq<char>,
    r: Result<Comparison, CompareError>,
)
    requires
        full_comparison(r, zip1, zip2, c1, c2),
        c1.contains_key(n),
        !c2.contains_key(n),
    ensures
        r matches Ok(c) && has_single_record(c, difference(n, Status::Removed)),
{
    lemma_difference_recorded(r, zip1, zip2, c1, c2, n, difference(n, Status::Removed));
}

/// An entry only in the second archive is reported once, as added, with no
/// content diff.
pub proof fn entry_only_in_second_is_added(
    zip1: Seq<u8>,
    zip2: Seq<u8>,
    c1: Map<Seq<char>, u64>,
    c2: Map<Seq<char>, u64>,
    n: Seq<char>,
    r: Result<Comparison, CompareError>,
)
    requires
        full_comparison(r, zip1, zip2, c1, c2),
        !c1.contains_key(n),
        c2.contains_key(n),
    ensures
        r matches Ok(c) && has_single_record(c, difference(n, Status::Added)),
{
    lemma_difference_recorded(r, zip1, zip2, c1, c2, n, difference(n, Status::Added));
}

/// An entry with the same digest in both archives is not reported at all.
pub proof fn equal_digests_not_reported(
    zip1: Seq<u8>,
    zip2: Seq<u8>,
    c1: Map<Seq<char>, u64>,
    c2: Map<Seq<char>, u64>,
    n: Seq<char>,
    r: Result<Comparison, CompareError>,
)
    requires
        full_comparison(r, zip1, zip2, c1, c2),
        c1.contains_key(n),
        c2.contains_key(n),
        c1[n] == c2[n],
    ensures
        r matches Ok(c) && has_no_record(c, n),
{
}

/// Classifying the entries of an archive against the same archive finds
/// every entry unchanged.
pub proof fn self_comparison_unchanged(zip: Seq<u8>, c: Map<Seq<char>, u64>, n: Seq<char>)
    requires
        catalog_of(zip) == Ok::<_, CompareError>(c),
        c.contains_key(n),
    ensures
        entry_outcome(zip, zip, c, c, n) == OutcomeView::Unchanged,
{
}

/// An entry whose digests differ and whose name has an image extension is
/// reported once as a modified image, with no content diff, whatever it holds.
pub proof fn changed_image_is_modified_image(
    zip1: Seq<u8>,
    zip2: Seq<u8>,
    c1: Map<Seq<char>, u64>,
    c2: Map<Seq<char>, u64>,
    n: Seq<char>,
    r: Result<Comparison, CompareError>,
)
    requires
        full_comparison(r, zip1, zip2, c1, c2),
        c1.contains_key(n),
        c2.contains_key(n),
        c1[n] != c2[n],
        is_image_name(n),
    ensures
        r matches Ok(c) && has_single_record(c, difference(n, Status::ModifiedImage)),
{
    lemma_difference_recorded(r, zip1, zip2, c1, c2, n, difference(n, Status::ModifiedImage));
}

/// Every line of a diff report is a one-sided line of the alignment with its
/// mark; lines matched in both texts never appear.
pub proof fn report_lines_are_marked(al: Seq<(Option<Seq<char>>, Option<Seq<char>>)>)
    ensures
        forall|i: int| 0 <= i < diff_report(al).len() ==> marked_one_sided(al, #[trigger] diff_report(al)[i]),
    decreases al.len(),
{
    if al.len() > 0 {
        let pre = al.drop_last();
        report_lines_are_marked(pre);
        assert forall|i: int| 0 <= i < diff_report(al).len() implies marked_one_sided(al, #[trigger] diff_report(al)[i]) by {
            let plen = diff_report(pre).len() as int;
            if i < plen {
                assert(diff_report(al)[i] == diff_report(pre)[i]);
                assert(marked_one_sided(pre, diff_report(pre)[i]));
                let j = choose|j: int| 0 <= j < pre.len() && {
                    let a = #[trigger] pre[j];
                    ||| a.0 is Some && a.1 is None && diff_report(pre)[i] == "- "@ + a.0->Some_0
                    ||| a.0 is None && a.1 is Some && diff_report(pre)[i] == "+ "@ + a.1->Some_0
                };
                assert(al[j] == pre[j]);
            } else {
                assert(al[al.len() - 1] == al.last());
            }
        }
    }
}

/// A text entry that changed, with no null byte in either version and both
/// versions valid UTF-8, is reported once as modified; its content diff is
/// the marked one-sided lines of the alignment, in order, and holds nothing
/// else.
pub proof fn changed_text_is_line_diff(
    zip1: Seq<u8>,
    zip2: Seq<u8>,
    c1: Map<Seq<char>, u64>,
    c2: Map<Seq<char>, u64>,
    n: Seq<char>,
    b1: Seq<u8>,
    b2: Seq<u8>,
    r: Result<Comparison, CompareError>,
)
    requires
        full_comparison(r, zip1, zip2, c1, c2),
        c1.contains_key(n),
        c2.contains_key(n),
        c1[n] != c2[n],
        !is_image_name(n),
        entry_bytes(zip1, n) == Ok::<_, ExtractError>(b1),
        entry_bytes(zip2, n) == Ok::<_, ExtractError>(b2),
        !has_nul(b1),
        !has_nul(b2),
        valid_utf8(b1),
        valid_utf8(b2),
    ensures
        ({
            let t1 = decode_utf8(b1);
            let t2 = decode_utf8(b2);
            &&& r matches Ok(c) && has_single_record(c, text_difference(n, t1, t2))
            &&& text_difference(n, t1, t2).status == Status::Modified
            &&& text_difference(n, t1, t2).content_diff == Some(diff_report(line_alignment(t1, t2)))
            &&& forall|i: int| 0 <= i < diff_report(line_alignment(t1, t2)).len()
                ==> marked_one_sided(line_alignment(t1, t2), #[trigger] diff_report(line_alignment(t1, t2))[i])
        }),
{
    let t1 = decode_utf8(b1);
    let t2 = decode_utf8(b2);
    lemma_difference_recorded(r, zip1, zip2, c1, c2, n, text_difference(n, t1, t2));
    report_lines_are_marked(line_alignment(t1, t2));
}

/// A changed entry that is not an image and that both archives could read,
/// with a null byte in either version, is reported once as a modified
/// binary, with no content diff, whether or not the bytes are UTF-8.
pub proof fn changed_binary_is_modified_binary(
    zip1: Seq<u8>,
    zip2: Seq<u8>,
    c1: Map<Seq<char>, u64>,
    c2: Map<Seq<char>, u64>,
    n: Seq<char>,
    b1: Seq<u8>,
    b2: Seq<u8>,
    r: Result<Comparison, CompareError>,
)
    requires
        full_comparison(r, zip1, zip2, c1, c2),
        c1.contains_key(n),
        c2.contains_key(n),
        c1[n] != c2[n],
        !is_image_name(n),
        entry_bytes(zip1, n) == Ok::<_, ExtractError>(b1),
        entry_bytes(zip2, n) == Ok::<_, ExtractError>(b2),
        has_nul(b1) || has_nul(b2),
    ensures
        r matches Ok(c) && has_single_record(c, difference(n, Status::ModifiedBinary)),
{
    lemma_difference_recorded(r, zip1, zip2, c1, c2, n, difference(n, Status::ModifiedBinary));
}

/// No catalog holds a junk name.
pub proof fn catalog_has_no_junk(bytes: Seq<u8>, k: nat, n: Seq<char>)
    requires
        catalog_upto(bytes, k) is Some,
        catalog_upto(bytes, k)->Some_0.contains_key(n),
    ensures
        !is_junk_name(n),
    decreases k,
{
    if k > 0 {
        let prev = catalog_upto(bytes, (k - 1) as nat);
        if prev->Some_0.contains_key(n) {
            catalog_has_no_junk(bytes, (k - 1) as nat, n);
        }
    }
}

/// Junk entries never appear in a comparison, neither as a difference nor as
/// a failure.
pub proof fn junk_never_reported(zip1: Seq<u8>, zip2: Seq<u8>, r: Result<Comparison, CompareError>)
    requires
        compare_result_ok(r, zip1, zip2),
        r is Ok,
    ensures
        forall|k: int| 0 <= k < r->Ok_0.differences@.len() ==> !is_junk_name((#[trigger] r->Ok_0.differences@[k]).filename@),
        forall|k: int| 0 <= k < r->Ok_0.failures@.len() ==> !is_junk_name((#[trigger] r->Ok_0.failures@[k]).filename@),
{
    let c = r->Ok_0;
    if fx_hash(zip1) != fx_hash(zip2) {
        let c1 = catalog_of(zip1)->Ok_0;
        let c2 = catalog_of(zip2)->Ok_0;
        assert forall|k: int| 0 <= k < c.differences@.len() implies !is_junk_name((#[trigger] c.differences@[k]).filename@) by {
            let n = c.differences@[k].filename@;
            if c1.contains_key(n) {
                catalog_has_no_junk(zip1, zip_entry_count(zip1), n);
            } else {
                catalog_has_no_junk(zip2, zip_entry_count(zip2), n);
            }
        }
        assert forall|k: int| 0 <= k < c.failures@.len() implies !is_junk_name((#[trigger] c.failures@[k]).filename@) by {
            let n = c.failures@[k].filename@;
            if c1.contains_key(n) {
                catalog_has_no_junk(zip1, zip_entry_count(zip1), n);
            } else {
                catalog_has_no_junk(zip2, zip_entry_count(zip2), n);
            }
        }
    }
}

} // verus!
