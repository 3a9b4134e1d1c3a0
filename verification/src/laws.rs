//! Engine-wide laws: properties that tie the paging operations together,
//! stated and proved over the same specifications the operations'
//! contracts use.

use vstd::prelude::*;

use crate::catalog::{page_ok, patched_record};
use crate::page::Page;
use crate::photos::{is_display_of, PhotoV};
use crate::query::{
    lemma_page_rows_is_filter, page_rows, row_in_bound, row_matches, FilterSpecV,
};
use crate::update::{update_count, PhotoDiffV};

verus! {

/// Every photo of a correct page result matches the page's filter and
/// lies on the anchor's side of the boundary. Display re-ordering of the
/// variants changes neither the filter fields nor the id.
pub proof fn lemma_page_members(
    photos: Seq<PhotoV>,
    limit: int,
    page: Page,
    f: FilterSpecV,
    r: Seq<PhotoV>,
)
    requires
        page_ok(photos, limit, page, f, r),
    ensures
        forall|i: int|
            0 <= i < r.len() ==> row_matches(#[trigger] r[i], f) && row_in_bound(r[i], page),
{
    let pred = |p: PhotoV| row_matches(p, f) && row_in_bound(p, page);
    lemma_page_rows_is_filter(photos, page, f, pred);
    let m = page_rows(photos, page, f);
    let k = r.len() as int;
    assert forall|i: int|
        0 <= i < r.len() implies row_matches(#[trigger] r[i], f) && row_in_bound(
        r[i],
        page,
    ) by {
        let t = if page.fetches_descending() {
            m.len() - 1 - i
        } else {
            k - 1 - i
        };
        assert(is_display_of(r[i], m[t]));
        photos.lemma_filter_pred(pred, t);
        assert(row_matches(m[t], f) && row_in_bound(m[t], page));
    }
}

/// Tag filter soundness: every photo of a page fetched with a required
/// tag set carries every required tag.
pub proof fn lemma_tag_filter_sound(
    photos: Seq<PhotoV>,
    limit: int,
    page: Page,
    f: FilterSpecV,
    r: Seq<PhotoV>,
    tag: Seq<char>,
)
    requires
        page_ok(photos, limit, page, f, r),
        f.tagged matches Option::Some(req) && req.contains(tag),
    ensures
        forall|i: int| 0 <= i < r.len() ==> (#[trigger] r[i]).tags.contains(tag),
{
    lemma_page_members(photos, limit, page, f, r);
    let req = f.tagged.unwrap();
    let u = choose|u: int| 0 <= u < req.len() && req[u] == tag;
    assert forall|i: int| 0 <= i < r.len() implies (#[trigger] r[i]).tags.contains(tag) by {
        assert(row_matches(r[i], f));
        assert(r[i].tags.contains(req[u]));
    }
}

/// Pagination continuity: after a page fetched at `Latest`, the page
/// anchored strictly before that page's last id holds only strictly
/// older photos, and never repeats one of the first page's.
pub proof fn lemma_pagination_continuity(
    photos: Seq<PhotoV>,
    limit1: int,
    limit2: int,
    f: FilterSpecV,
    p1: Seq<PhotoV>,
    p2: Seq<PhotoV>,
)
    requires
        page_ok(photos, limit1, Page::Latest, f, p1),
        p1.len() > 0,
        0 <= p1[p1.len() - 1].id,
        page_ok(photos, limit2, Page::Before(p1[p1.len() - 1].id as u32), f, p2),
    ensures
        forall|i: int| 0 <= i < p2.len() ==> (#[trigger] p2[i]).id < p1[p1.len() - 1].id,
        forall|i: int, j: int|
            0 <= i < p2.len() && 0 <= j < p1.len() ==> (#[trigger] p2[i]).id != (
            #[trigger] p1[j]).id,
{
    let last = p1[p1.len() - 1].id;
    lemma_page_members(photos, limit2, Page::Before(last as u32), f, p2);
    assert forall|i: int| 0 <= i < p2.len() implies (#[trigger] p2[i]).id < last by {
        assert(row_in_bound(p2[i], Page::Before(last as u32)));
    }
    // within the first page, ids descend strictly, so its last id is its
    // smallest
    assert forall|i: int, j: int|
        0 <= i < p2.len() && 0 <= j < p1.len() implies (#[trigger] p2[i]).id != (
    #[trigger] p1[j]).id by {
        if j < p1.len() - 1 {
            assert(p1[j].id > p1[p1.len() - 1].id);
        }
        assert(p1[j].id >= last);
        assert(p2[i].id < last);
    }
}

/// A diff that issues no statement leaves a stored record exactly as it
/// was: applying it is the identity.
pub proof fn lemma_empty_diff_no_writes(stored: PhotoV, d: PhotoDiffV)
    requires
        update_count(d) == 0,
    ensures
        patched_record(stored, d) == stored,
{
}

} // verus!
