//! The catalog: the persisted collection of photo records, and every
//! query and update the engine runs against it. Records are kept in
//! ascending id order; ids are assigned by the store, monotonically
//! increasing, never reused and never renumbered; file stems are unique.

use vstd::prelude::*;

use crate::api::{clone_source_vec, PayloadV, PhotoPayload};
use crate::page::{Page, Published};
use crate::photos::{is_display_of, Photo, PhotoId, PhotoV};
use crate::query::{
    build_page_query, lemma_filter_take_step, lemma_page_rows_is_filter,
    lemma_query_rows_is_filter, lemma_take_all, page_rows, query_rows, row_in_bound,
    row_matches, row_visible, FilterSpec, FilterSpecV, PageQuery,
};
use crate::update::{diff_of, diff_photo, update_count, PhotoDiff, PhotoDiffV};
use crate::strutil::{
    char_seq_lt, clone_opt_string, clone_string_vec, contains_string,
    lemma_char_seq_lt_trans, lemma_char_seq_lt_trichotomy, str_eq, str_lt,
};

verus! {

/// The photo store: records in ascending id order, plus the next id the
/// store will assign.
#[derive(Debug)]
pub struct Catalog {
    photos: Vec<Photo>,
    next_id: PhotoId,
}

/// The mathematical shape of a [`Catalog`].
pub ghost struct CatalogV {
    pub photos: Seq<PhotoV>,
    pub next_id: int,
}

impl View for Catalog {
    type V = CatalogV;

    closed spec fn view(&self) -> CatalogV {
        CatalogV { photos: self.photos.deep_view(), next_id: self.next_id as int }
    }
}

/// The store's invariant: every id is positive and below the next id to
/// assign, ids strictly increase with position, file stems never repeat,
/// and the next id still fits its column.
pub open spec fn wf_photos(photos: Seq<PhotoV>, next_id: int) -> bool {
    &&& forall|i: int| 0 <= i < photos.len() ==> 1 <= (#[trigger] photos[i]).id < next_id
    &&& forall|i: int, j: int|
        0 <= i < j < photos.len() ==> (#[trigger] photos[i]).id < (#[trigger] photos[j]).id
    &&& forall|i: int, j: int|
        0 <= i < j < photos.len()
            ==> (#[trigger] photos[i]).file_stem != (#[trigger] photos[j]).file_stem
    &&& 1 <= next_id <= i32::MAX as int
}

/// With ids positive and strictly increasing, the id at a position is at
/// least one more than the position.
proof fn lemma_id_exceeds_position(photos: Seq<PhotoV>, next_id: int, k: int)
    requires
        wf_photos(photos, next_id),
        0 <= k < photos.len(),
    ensures
        photos[k].id >= 1 + k,
    decreases k,
{
    if k > 0 {
        lemma_id_exceeds_position(photos, next_id, k - 1);
    }
}

/// A well-formed catalog holds fewer records than the id space allows.
pub proof fn lemma_catalog_len_bound(photos: Seq<PhotoV>, next_id: int)
    requires
        wf_photos(photos, next_id),
    ensures
        photos.len() < i32::MAX as int,
{
    if photos.len() > 0 {
        lemma_id_exceeds_position(photos, next_id, photos.len() - 1);
    }
}

/// The record an insert stores: the given photo's fields, under the id
/// the store assigned.
pub open spec fn inserted_record(p: PhotoV, id: int) -> PhotoV {
    PhotoV {
        id: id as i32,
        file_stem: p.file_stem,
        title: p.title,
        taken_timestamp: p.taken_timestamp,
        height_offset: p.height_offset,
        tags: p.tags,
        sources: p.sources,
        published: p.published,
    }
}

/// The records at the given positions, in that order.
pub open spec fn picked(photos: Seq<PhotoV>, idxs: Seq<usize>) -> Seq<PhotoV> {
    Seq::new(idxs.len(), |j: int| photos[idxs[j] as int])
}

/// What a correct result of a structural page query looks like: as many
/// rows as the limit allows; under a descending fetch the newest selected
/// rows, under an ascending fetch the selected rows nearest above the
/// boundary; every row the display form of its record; and the whole page
/// presented newest first either way.
pub open spec fn page_result_ok(photos: Seq<PhotoV>, q: PageQuery, r: Seq<PhotoV>) -> bool {
    let m = query_rows(photos, q);
    let k = if m.len() <= q.limit as int {
        m.len() as int
    } else {
        q.limit as int
    };
    &&& r.len() == k
    &&& (q.descending ==> forall|i: int|
        0 <= i < k ==> is_display_of(#[trigger] r[i], m[m.len() - 1 - i]))
    &&& (!q.descending ==> forall|i: int|
        0 <= i < k ==> is_display_of(#[trigger] r[i], m[k - 1 - i]))
    &&& forall|i: int, j: int| 0 <= i < j < r.len() ==> r[i].id > r[j].id
}

/// What a correct page for a limit, anchor and filter looks like, in the
/// vocabulary of the anchor and the filter.
pub open spec fn page_ok(
    photos: Seq<PhotoV>,
    limit: int,
    page: Page,
    f: FilterSpecV,
    r: Seq<PhotoV>,
) -> bool {
    let m = page_rows(photos, page, f);
    let k = if m.len() <= limit {
        m.len() as int
    } else {
        limit
    };
    &&& r.len() == k
    &&& r.len() <= limit
    &&& (page.fetches_descending() ==> forall|i: int|
        0 <= i < k ==> is_display_of(#[trigger] r[i], m[m.len() - 1 - i]))
    &&& (!page.fetches_descending() ==> forall|i: int|
        0 <= i < k ==> is_display_of(#[trigger] r[i], m[k - 1 - i]))
    &&& forall|i: int, j: int| 0 <= i < j < r.len() ==> r[i].id > r[j].id
}

/// Whether some record carries the given file stem.
pub open spec fn has_file_stem(photos: Seq<PhotoV>, stem: Seq<char>) -> bool {
    exists|j: int| 0 <= j < photos.len() && (#[trigger] photos[j]).file_stem == stem
}

/// Whether some record carries the given id and is visible.
pub open spec fn has_visible_id(photos: Seq<PhotoV>, vis: Published, id: int) -> bool {
    exists|j: int|
        0 <= j < photos.len() && (#[trigger] photos[j]).id == id && row_visible(photos[j], vis)
}

/// What a correct "next newer photo" probe yields: the smallest visible
/// id strictly above `id`, or nothing when no such row exists.
pub open spec fn newer_neighbor_ok(
    photos: Seq<PhotoV>,
    vis: Published,
    id: int,
    r: Option<PhotoId>,
) -> bool {
    &&& (r is Some <==> exists|j: int|
        0 <= j < photos.len() && row_visible(#[trigger] photos[j], vis) && photos[j].id > id)
    &&& match r {
        Option::Some(n) => {
            &&& has_visible_id(photos, vis, n as int)
            &&& n > id
            &&& forall|j: int|
                0 <= j < photos.len() && row_visible(#[trigger] photos[j], vis)
                    && photos[j].id > id ==> photos[j].id >= n
        },
        Option::None => true,
    }
}

/// What a correct "next older photo" probe yields: the greatest visible
/// id strictly below `id`, or nothing when no such row exists.
pub open spec fn older_neighbor_ok(
    photos: Seq<PhotoV>,
    vis: Published,
    id: int,
    r: Option<PhotoId>,
) -> bool {
    &&& (r is Some <==> exists|j: int|
        0 <= j < photos.len() && row_visible(#[trigger] photos[j], vis) && photos[j].id < id)
    &&& match r {
        Option::Some(n) => {
            &&& has_visible_id(photos, vis, n as int)
            &&& n < id
            &&& forall|j: int|
                0 <= j < photos.len() && row_visible(#[trigger] photos[j], vis)
                    && photos[j].id < id ==> photos[j].id <= n
        },
        Option::None => true,
    }
}

/// Whether some row both matches the filter and lies on the anchor's side
/// of the boundary.
pub open spec fn exists_page_row(photos: Seq<PhotoV>, page: Page, f: FilterSpecV) -> bool {
    exists|j: int|
        0 <= j < photos.len() && row_matches(#[trigger] photos[j], f) && row_in_bound(
            photos[j],
            page,
        )
}

/// A page fetch finds a row exactly when such a row exists.
pub proof fn lemma_page_rows_empty_iff(photos: Seq<PhotoV>, page: Page, f: FilterSpecV)
    ensures
        (page_rows(photos, page, f).len() == 0) <==> !exists_page_row(photos, page, f),
{
    let pred = |p: PhotoV| row_matches(p, f) && row_in_bound(p, page);
    lemma_page_rows_is_filter(photos, page, f, pred);
    let m = photos.filter(pred);
    if m.len() > 0 {
        photos.lemma_filter_pred(pred, 0);
        assert(m.contains(m[0]));
        photos.lemma_filter_contains_rev(pred, m[0]);
        let j = choose|j: int| 0 <= j < photos.len() && photos[j] == m[0];
        assert(row_matches(photos[j], f) && row_in_bound(photos[j], page));
    }
    if exists_page_row(photos, page, f) {
        let j = choose|j: int|
            0 <= j < photos.len() && row_matches(#[trigger] photos[j], f) && row_in_bound(
                photos[j],
                page,
            );
        photos.lemma_filter_contains(pred, j);
        assert(m.contains(photos[j]));
    }
}


/// How many matching photos carry the tag `t`. Tags form a set per photo,
/// so this counts photos, not occurrences.
pub open spec fn tag_count(photos: Seq<PhotoV>, f: FilterSpecV, t: Seq<char>) -> int
    decreases photos.len(),
{
    if photos.len() == 0 {
        0
    } else {
        tag_count(photos.drop_last(), f, t) + if row_matches(photos.last(), f)
            && photos.last().tags.contains(t) {
            1int
        } else {
            0int
        }
    }
}

/// Whether the tag `t` appears on some matching photo.
pub open spec fn tag_occurs(photos: Seq<PhotoV>, f: FilterSpecV, t: Seq<char>) -> bool {
    exists|j: int, l: int|
        0 <= j < photos.len() && row_matches(photos[j], f) && 0 <= l < photos[j].tags.len()
            && #[trigger] photos[j].tags[l] == t
}

/// Extending the prefix by one photo raises the count of `t` by one
/// exactly when that photo matches and carries `t`.
proof fn lemma_tag_count_take_step(photos: Seq<PhotoV>, f: FilterSpecV, t: Seq<char>, j: int)
    requires
        0 <= j < photos.len(),
    ensures
        tag_count(photos.take(j + 1), f, t) == tag_count(photos.take(j), f, t) + if row_matches(
            photos[j],
            f,
        ) && photos[j].tags.contains(t) {
            1int
        } else {
            0int
        },
{
    assert(photos.take(j + 1).drop_last() =~= photos.take(j));
    assert(photos.take(j + 1).last() == photos[j]);
}

/// The count never goes below zero nor above the number of photos.
pub proof fn lemma_tag_count_bounds(photos: Seq<PhotoV>, f: FilterSpecV, t: Seq<char>)
    ensures
        0 <= tag_count(photos, f, t) <= photos.len(),
    decreases photos.len(),
{
    if photos.len() > 0 {
        lemma_tag_count_bounds(photos.drop_last(), f, t);
    }
}

/// A tag that appears on a matching photo has a positive count.
pub proof fn lemma_tag_occurs_count_pos(photos: Seq<PhotoV>, f: FilterSpecV, t: Seq<char>)
    requires
        tag_occurs(photos, f, t),
    ensures
        tag_count(photos, f, t) >= 1,
    decreases photos.len(),
{
    lemma_tag_count_bounds(photos.drop_last(), f, t);
    let (j, l) = choose|j: int, l: int|
        0 <= j < photos.len() && row_matches(photos[j], f) && 0 <= l < photos[j].tags.len()
            && #[trigger] photos[j].tags[l] == t;
    if j == photos.len() - 1 {
        assert(photos.last().tags.contains(t));
    } else {
        assert(photos.drop_last()[j] == photos[j]);
        assert(tag_occurs(photos.drop_last(), f, t));
        lemma_tag_occurs_count_pos(photos.drop_last(), f, t);
    }
}

/// Whether the facet list has a row for the tag `t`.
pub open spec fn facet_listed(r: Seq<(String, i64)>, t: Seq<char>) -> bool {
    exists|k: int| 0 <= k < r.len() && (#[trigger] r[k]).0@ == t
}

/// What a correct tag facet list looks like: keys strictly ascending,
/// each row carrying the exact count of matching photos with its tag,
/// each key appearing on some matching photo, and every tag of every
/// matching photo listed.
pub open spec fn facets_ok(photos: Seq<PhotoV>, f: FilterSpecV, r: Seq<(String, i64)>) -> bool {
    &&& forall|t1: int, t2: int|
        0 <= t1 < t2 < r.len() ==> char_seq_lt(#[trigger] r[t1].0@, #[trigger] r[t2].0@)
    &&& forall|k: int| #![trigger r[k]]
        0 <= k < r.len() ==> r[k].1 == tag_count(photos, f, r[k].0@) && tag_occurs(
            photos,
            f,
            r[k].0@,
        )
    &&& forall|j: int, l: int|
        0 <= j < photos.len() && row_matches(photos[j], f) && 0 <= l < photos[j].tags.len()
            ==> facet_listed(r, #[trigger] photos[j].tags[l])
}

/// Strictly ascending tag keys, lexicographically.
pub open spec fn tags_sorted(keys: Seq<Seq<char>>) -> bool {
    forall|t1: int, t2: int| 0 <= t1 < t2 < keys.len() ==> char_seq_lt(keys[t1], keys[t2])
}

/// Put `tag` into the sorted key list unless it is already there. The
/// list stays strictly sorted, and afterwards holds exactly the old keys
/// and `tag`.
fn insert_key(keys: &mut Vec<String>, tag: &String)
    requires
        tags_sorted(old(keys).deep_view()),
    ensures
        tags_sorted(final(keys).deep_view()),
        forall|x: Seq<char>|
            #[trigger] final(keys).deep_view().contains(x) <==> (old(
                keys,
            ).deep_view().contains(x) || x == tag@),
{
    let mut pos: usize = 0;
    while pos < keys.len() && str_lt(keys[pos].as_str(), tag.as_str())
        invariant
            pos <= keys.len(),
            tags_sorted(keys.deep_view()),
            keys == old(keys),
            forall|t: int| 0 <= t < pos ==> char_seq_lt(#[trigger] keys.deep_view()[t], tag@),
        decreases keys.len() - pos,
    {
        pos += 1;
    }
    if pos < keys.len() && str_eq(keys[pos].as_str(), tag.as_str()) {
        proof {
            assert(keys.deep_view()[pos as int] == tag@);
            assert(keys.deep_view().contains(tag@));
        }
        return;
    }
    proof {
        if pos < keys.len() {
            lemma_char_seq_lt_trichotomy(keys.deep_view()[pos as int], tag@);
            assert(char_seq_lt(tag@, keys.deep_view()[pos as int]));
        }
    }
    let ghost old_deep = keys.deep_view();
    keys.insert(pos, tag.clone());
    proof {
        assert(keys.deep_view() =~= old_deep.insert(pos as int, tag@));
        let nd = keys.deep_view();
        let p = pos as int;
        // index map: nd[t] == old_deep[t] for t < p, nd[p] == tag@,
        // nd[t] == old_deep[t - 1] for t > p
        assert forall|t: int| 0 <= t < nd.len() implies nd[t] == (if t < p {
            old_deep[t]
        } else if t == p {
            tag@
        } else {
            old_deep[t - 1]
        }) by {}
        assert forall|t1: int, t2: int|
            0 <= t1 < t2 < nd.len() implies char_seq_lt(nd[t1], nd[t2]) by {
            if t1 < p && t2 == p {
            } else if t1 == p && t2 > p {
                if p < old_deep.len() {
                    if t2 == p + 1 {
                    } else {
                        lemma_char_seq_lt_trans(tag@, old_deep[p], old_deep[t2 - 1]);
                    }
                }
            } else if t1 < p && t2 > p {
                if t2 > p + 1 {
                    lemma_char_seq_lt_trans(tag@, old_deep[p], old_deep[t2 - 1]);
                }
                lemma_char_seq_lt_trans(old_deep[t1], tag@, nd[t2]);
            }
        }
        assert forall|x: Seq<char>|
            #[trigger] nd.contains(x) implies (old_deep.contains(x) || x == tag@) by {
            let t = choose|t: int| 0 <= t < nd.len() && nd[t] == x;
            if t < p {
                assert(old_deep[t] == x);
            } else if t > p {
                assert(old_deep[t - 1] == x);
            }
        }
        assert forall|x: Seq<char>|
            (old_deep.contains(x) || x == tag@) implies #[trigger] nd.contains(x) by {
            if old_deep.contains(x) {
                let t = choose|t: int| 0 <= t < old_deep.len() && old_deep[t] == x;
                if t < p {
                    assert(nd[t] == x);
                } else {
                    assert(nd[t + 1] == x);
                }
            } else {
                assert(nd[p] == x);
            }
        }
    }
}

/// A record after a diff is applied to it: each field the diff carries is
/// overwritten with the diff's value, every other field keeps its stored
/// value. Identity, file stem, layout hint and publication state are
/// never part of a diff.
pub open spec fn patched_record(stored: PhotoV, d: PhotoDiffV) -> PhotoV {
    PhotoV {
        id: stored.id,
        file_stem: stored.file_stem,
        title: match d.title {
            Option::Some(v) => v,
            Option::None => stored.title,
        },
        taken_timestamp: match d.taken_timestamp {
            Option::Some(v) => v,
            Option::None => stored.taken_timestamp,
        },
        height_offset: stored.height_offset,
        tags: match d.tags {
            Option::Some(v) => v,
            Option::None => stored.tags,
        },
        sources: match d.sources {
            Option::Some(v) => v,
            Option::None => stored.sources,
        },
        published: stored.published,
    }
}

/// A record with its publication flag replaced.
pub open spec fn with_published(p: PhotoV, published: bool) -> PhotoV {
    PhotoV { published, ..p }
}

/// A record with its layout hint replaced.
pub open spec fn with_height_offset(p: PhotoV, height_offset: u8) -> PhotoV {
    PhotoV { height_offset, ..p }
}

/// The record a create request stores, given the assigned id: the
/// payload's fields, the payload's variants in their given order, a zero
/// layout hint, and not yet published.
pub open spec fn created_record(pl: PayloadV, id: int) -> PhotoV {
    PhotoV {
        id: id as i32,
        file_stem: pl.file_stem,
        title: pl.title,
        taken_timestamp: pl.taken_timestamp,
        height_offset: 0,
        tags: pl.tags,
        sources: pl.sources.unwrap(),
        published: false,
    }
}


/// Every photo of a well-formed catalog's page result carries a positive
/// id, the id its stored record was assigned.
pub proof fn lemma_page_ids_positive(
    photos: Seq<PhotoV>,
    next_id: int,
    limit: int,
    page: Page,
    f: FilterSpecV,
    r: Seq<PhotoV>,
)
    requires
        wf_photos(photos, next_id),
        page_ok(photos, limit, page, f, r),
    ensures
        forall|i: int| 0 <= i < r.len() ==> 1 <= (#[trigger] r[i]).id,
{
    let pred = |p: PhotoV| row_matches(p, f) && row_in_bound(p, page);
    lemma_page_rows_is_filter(photos, page, f, pred);
    let m = page_rows(photos, page, f);
    let k = r.len() as int;
    assert forall|i: int| 0 <= i < r.len() implies 1 <= (#[trigger] r[i]).id by {
        let t = if page.fetches_descending() {
            m.len() - 1 - i
        } else {
            k - 1 - i
        };
        assert(is_display_of(r[i], m[t]));
        assert(m.contains(m[t]));
        photos.lemma_filter_contains_rev(pred, m[t]);
        let u = choose|u: int| 0 <= u < photos.len() && photos[u] == m[t];
        assert(1 <= photos[u].id);
    }
}

impl Catalog {
    /// The invariant every operation preserves.
    pub open spec fn wf(self) -> bool {
        wf_photos(self@.photos, self@.next_id)
    }

    /// Whether the store can still assign a fresh id.
    pub open spec fn can_assign_id(self) -> bool {
        self@.next_id < i32::MAX as int
    }

    /// An empty catalog; the first insert is assigned id 1.
    pub fn new() -> (r: Catalog)
        ensures
            r.wf(),
            r@.photos == Seq::<PhotoV>::empty(),
            r@.next_id == 1,
    {
        let r = Catalog { photos: Vec::new(), next_id: 1 };
        proof {
            assert(r@.photos =~= Seq::<PhotoV>::empty());
        }
        r
    }

    /// How many records the catalog holds.
    pub fn len(&self) -> (r: usize)
        ensures
            r == self@.photos.len(),
    {
        self.photos.len()
    }

    /// Whether the store can still assign a fresh id, as an executable
    /// check for unverified callers.
    pub fn can_insert(&self) -> (b: bool)
        ensures
            b == self.can_assign_id(),
    {
        self.next_id < i32::MAX
    }

    /// Store a new record: the photo's fields are written as given (the
    /// variant list in its given order), the store assigns the next id,
    /// and the new record becomes the newest. The caller must have ruled
    /// out a duplicate file stem, as the store's unique constraint would.
    pub fn insert_photo(&mut self, photo: &Photo) -> (r: PhotoId)
        requires
            old(self).wf(),
            old(self).can_assign_id(),
            !has_file_stem(old(self)@.photos, photo@.file_stem),
        ensures
            final(self).wf(),
            r == old(self)@.next_id,
            final(self)@.next_id == old(self)@.next_id + 1,
            final(self)@.photos == old(self)@.photos.push(
                inserted_record(photo@, old(self)@.next_id),
            ),
    {
        let id = self.next_id;
        let record = Photo {
            id,
            file_stem: photo.file_stem.clone(),
            title: clone_opt_string(&photo.title),
            taken_timestamp: clone_opt_string(&photo.taken_timestamp),
            height_offset: photo.height_offset,
            tags: clone_string_vec(&photo.tags),
            sources: clone_source_vec(&photo.sources),
            published: photo.published,
        };
        proof {
            assert(record@ == inserted_record(photo@, old(self)@.next_id));
        }
        self.photos.push(record);
        self.next_id = id + 1;
        proof {
            let old_photos = old(self)@.photos;
            let rec = inserted_record(photo@, old(self)@.next_id);
            assert(self@.photos =~= old_photos.push(rec));
            let new_photos = self@.photos;
            let n = old_photos.len() as int;
            assert forall|i: int, j: int|
                0 <= i < j < new_photos.len() implies (#[trigger] new_photos[i]).file_stem
                != (#[trigger] new_photos[j]).file_stem by {
                if j == n {
                    assert(old_photos[i].file_stem != photo@.file_stem) by {
                        if old_photos[i].file_stem == photo@.file_stem {
                            assert(has_file_stem(old_photos, photo@.file_stem));
                        }
                    }
                }
            }
            assert forall|i: int, j: int|
                0 <= i < j < new_photos.len() implies (#[trigger] new_photos[i]).id
                < (#[trigger] new_photos[j]).id by {}
            assert forall|i: int|
                0 <= i < new_photos.len() implies 1 <= (#[trigger] new_photos[i]).id
                < self@.next_id by {}
        }
        id
    }

    /// Run a structural page query against the store: select the rows the
    /// query keeps, fetch up to `limit` of them in the query's direction,
    /// and normalize the page to newest-first order before returning it.
    /// The normalization is what keeps an ascending (`After`) fetch from
    /// coming back visibly reversed.
    pub fn run_page_query(&self, q: &PageQuery) -> (r: Vec<Photo>)
        requires
            self.wf(),
            0 <= q.limit,
        ensures
            page_result_ok(self@.photos, *q, r.deep_view()),
    {
        let ghost pred = |p: PhotoV| q.selects(p);
        let mut idxs: Vec<usize> = Vec::new();
        let mut i: usize = 0;
        while i < self.photos.len()
            invariant
                i <= self.photos.len(),
                forall|t: int| 0 <= t < idxs@.len() ==> (#[trigger] idxs@[t]) < i,
                forall|t1: int, t2: int|
                    0 <= t1 < t2 < idxs@.len() ==> idxs@[t1] < idxs@[t2],
                picked(self@.photos, idxs@) == self@.photos.take(i as int).filter(pred),
                forall|p: PhotoV| #[trigger] pred(p) == q.selects(p),
            decreases self.photos.len() - i,
        {
            let sel = q.selects_row(&self.photos[i]);
            proof {
                lemma_filter_take_step(self@.photos, pred, i as int);
                assert(sel == pred(self@.photos[i as int]));
            }
            if sel {
                idxs.push(i);
            }
            proof {
                assert(picked(self@.photos, idxs@) =~= self@.photos.take(
                    i as int + 1,
                ).filter(pred));
            }
            i += 1;
        }
        proof {
            lemma_take_all(self@.photos);
            lemma_query_rows_is_filter(self@.photos, *q, pred);
            lemma_catalog_len_bound(self@.photos, self@.next_id);
        }
        let ghost m = query_rows(self@.photos, *q);
        let m_len = idxs.len();
        proof {
            assert(m.len() == m_len);
            // Selected rows keep their ascending id order.
            assert forall|t1: int, t2: int| 0 <= t1 < t2 < m.len() implies m[t1].id
                < m[t2].id by {
                assert(m[t1] == self@.photos[idxs@[t1] as int]);
                assert(m[t2] == self@.photos[idxs@[t2] as int]);
            }
        }
        let k: usize = if (m_len as i64) <= q.limit {
            m_len
        } else {
            q.limit as usize
        };
        let mut out: Vec<Photo> = Vec::new();
        let mut j: usize = 0;
        if q.descending {
            while j < k
                invariant
                    j <= k,
                    k <= m_len,
                    m_len == idxs@.len(),
                    m == picked(self@.photos, idxs@),
                    forall|t: int|
                        0 <= t < idxs@.len() ==> (#[trigger] idxs@[t]) < self@.photos.len(),
                    out.deep_view().len() == j,
                    forall|t: int|
                        0 <= t < j ==> is_display_of(
                            #[trigger] out.deep_view()[t],
                            m[m.len() - 1 - t],
                        ),
                decreases k - j,
            {
                let idx = idxs[m_len - 1 - j];
                let p = self.photos[idx].display_order();
                let ghost old_out_deep = out.deep_view();
                let ghost pv = p@;
                proof {
                    assert(m[m.len() - 1 - j as int] == self@.photos[idx as int]);
                    assert(is_display_of(pv, m[m.len() - 1 - j as int]));
                }
                out.push(p);
                proof {
                    assert(out.deep_view() =~= old_out_deep.push(pv));
                }
                j += 1;
            }
        } else {
            while j < k
                invariant
                    j <= k,
                    k <= m_len,
                    m_len == idxs@.len(),
                    m == picked(self@.photos, idxs@),
                    forall|t: int|
                        0 <= t < idxs@.len() ==> (#[trigger] idxs@[t]) < self@.photos.len(),
                    out.deep_view().len() == j,
                    forall|t: int|
                        0 <= t < j ==> is_display_of(
                            #[trigger] out.deep_view()[t],
                            m[k - 1 - t],
                        ),
                decreases k - j,
            {
                let idx = idxs[k - 1 - j];
                let p = self.photos[idx].display_order();
                let ghost old_out_deep = out.deep_view();
                let ghost pv = p@;
                proof {
                    assert(m[k - 1 - j as int] == self@.photos[idx as int]);
                    assert(is_display_of(pv, m[k - 1 - j as int]));
                }
                out.push(p);
                proof {
                    assert(out.deep_view() =~= old_out_deep.push(pv));
                }
                j += 1;
            }
        }
        proof {
            // Selected ids ascend, so both presentations descend by id.
            assert forall|t1: int, t2: int| 0 <= t1 < t2 < m.len() implies m[t1].id
                < m[t2].id by {
                assert(m[t1] == self@.photos[idxs@[t1] as int]);
                assert(m[t2] == self@.photos[idxs@[t2] as int]);
            }
            assert forall|a: int, b: int|
                0 <= a < b < out.deep_view().len() implies out.deep_view()[a].id
                > out.deep_view()[b].id by {
                if q.descending {
                    assert(is_display_of(out.deep_view()[a], m[m.len() - 1 - a]));
                    assert(is_display_of(out.deep_view()[b], m[m.len() - 1 - b]));
                } else {
                    assert(is_display_of(out.deep_view()[a], m[k - 1 - a]));
                    assert(is_display_of(out.deep_view()[b], m[k - 1 - b]));
                }
            }
        }
        out
    }

    /// The smallest visible id strictly above `photo_id`, if any.
    fn find_newer_id(&self, photo_id: PhotoId, published: Published) -> (r: Option<PhotoId>)
        requires
            self.wf(),
        ensures
            newer_neighbor_ok(self@.photos, published, photo_id as int, r),
    {
        let mut j: usize = 0;
        while j < self.photos.len()
            invariant
                self.wf(),
                j <= self.photos.len(),
                forall|t: int|
                    0 <= t < j ==> !(row_visible(#[trigger] self@.photos[t], published)
                        && self@.photos[t].id > photo_id),
            decreases self.photos.len() - j,
        {
            let p = &self.photos[j];
            if (published == Published::All || p.published) && p.id > photo_id {
                proof {
                    let photos = self@.photos;
                    let jj = j as int;
                    assert(row_visible(photos[jj], published) && photos[jj].id > photo_id);
                    assert forall|t: int|
                        0 <= t < photos.len() && row_visible(#[trigger] photos[t], published)
                            && photos[t].id > photo_id implies photos[t].id >= photos[jj].id by {
                        if t < jj {
                            assert(false);
                        }
                    }
                }
                return Option::Some(p.id);
            }
            j += 1;
        }
        Option::None
    }

    /// The greatest visible id strictly below `photo_id`, if any.
    fn find_older_id(&self, photo_id: PhotoId, published: Published) -> (r: Option<PhotoId>)
        requires
            self.wf(),
        ensures
            older_neighbor_ok(self@.photos, published, photo_id as int, r),
    {
        let mut j: usize = self.photos.len();
        while j > 0
            invariant
                self.wf(),
                j <= self.photos.len(),
                forall|t: int|
                    j <= t < self@.photos.len() ==> !(row_visible(
                        #[trigger] self@.photos[t],
                        published,
                    ) && self@.photos[t].id < photo_id),
            decreases j,
        {
            j -= 1;
            let p = &self.photos[j];
            if (published == Published::All || p.published) && p.id < photo_id {
                proof {
                    let photos = self@.photos;
                    let jj = j as int;
                    assert(row_visible(photos[jj], published) && photos[jj].id < photo_id);
                    assert forall|t: int|
                        0 <= t < photos.len() && row_visible(#[trigger] photos[t], published)
                            && photos[t].id < photo_id implies photos[t].id <= photos[jj].id by {
                        if t > jj {
                            assert(false);
                        }
                    }
                }
                return Option::Some(p.id);
            }
        }
        Option::None
    }

    /// Look one photo up by id. Yields the photo in display form together
    /// with the ids of its nearest visible newer and older neighbors, or
    /// nothing when no visible record carries the id. The neighbor probes
    /// apply the visibility filter only, never a tag filter.
    pub fn get_photo_by_id(&self, photo_id: PhotoId, published: Published) -> (r: Option<
        (Photo, Option<PhotoId>, Option<PhotoId>),
    >)
        requires
            self.wf(),
        ensures
            match r {
                Option::None => !has_visible_id(self@.photos, published, photo_id as int),
                Option::Some(t) => {
                    &&& exists|j: int|
                        0 <= j < self@.photos.len()
                            && (#[trigger] self@.photos[j]).id == photo_id
                            && row_visible(self@.photos[j], published)
                            && is_display_of(t.0@, self@.photos[j])
                    &&& newer_neighbor_ok(self@.photos, published, photo_id as int, t.1)
                    &&& older_neighbor_ok(self@.photos, published, photo_id as int, t.2)
                },
            },
    {
        let mut j: usize = 0;
        while j < self.photos.len()
            invariant
                self.wf(),
                j <= self.photos.len(),
                forall|t: int|
                    0 <= t < j ==> !((#[trigger] self@.photos[t]).id == photo_id
                        && row_visible(self@.photos[t], published)),
            decreases self.photos.len() - j,
        {
            let p = &self.photos[j];
            if p.id == photo_id && (published == Published::All || p.published) {
                let photo = p.display_order();
                let newer = self.find_newer_id(photo_id, published);
                let older = self.find_older_id(photo_id, published);
                proof {
                    assert((#[trigger] self@.photos[j as int]).id == photo_id
                        && row_visible(self@.photos[j as int], published)
                        && is_display_of(photo@, self@.photos[j as int]));
                }
                return Option::Some((photo, newer, older));
            }
            j += 1;
        }
        Option::None
    }

    /// Look one photo up by its file stem, in display form.
    pub fn get_photo_by_file_stem(&self, file_stem: &str, published: Published) -> (r: Option<
        Photo,
    >)
        requires
            self.wf(),
        ensures
            match r {
                Option::None => forall|j: int|
                    0 <= j < self@.photos.len()
                        ==> !((#[trigger] self@.photos[j]).file_stem == file_stem@
                        && row_visible(self@.photos[j], published)),
                Option::Some(p) => exists|j: int|
                    0 <= j < self@.photos.len()
                        && (#[trigger] self@.photos[j]).file_stem == file_stem@
                        && row_visible(self@.photos[j], published)
                        && is_display_of(p@, self@.photos[j]),
            },
    {
        let mut j: usize = 0;
        while j < self.photos.len()
            invariant
                self.wf(),
                j <= self.photos.len(),
                forall|t: int|
                    0 <= t < j ==> !((#[trigger] self@.photos[t]).file_stem == file_stem@
                        && row_visible(self@.photos[t], published)),
            decreases self.photos.len() - j,
        {
            let p = &self.photos[j];
            if str_eq(p.file_stem.as_str(), file_stem)
                && (published == Published::All || p.published) {
                let photo = p.display_order();
                proof {
                    assert((#[trigger] self@.photos[j as int]).file_stem == file_stem@
                        && row_visible(self@.photos[j as int], published)
                        && is_display_of(photo@, self@.photos[j as int]));
                }
                return Option::Some(photo);
            }
            j += 1;
        }
        Option::None
    }

    /// The ids of all visible photos, in ascending order. The list holds
    /// exactly the visible ids: it ascends strictly, every entry is a
    /// visible record's id, and every visible record's id is an entry.
    pub fn get_all_photo_ids(&self, published: Published) -> (r: Vec<PhotoId>)
        requires
            self.wf(),
        ensures
            forall|t1: int, t2: int| 0 <= t1 < t2 < r@.len() ==> r@[t1] < r@[t2],
            forall|t: int|
                0 <= t < r@.len() ==> has_visible_id(self@.photos, published, r@[t] as int),
            forall|j: int|
                0 <= j < self@.photos.len() && row_visible(#[trigger] self@.photos[j], published)
                    ==> r@.contains(self@.photos[j].id),
    {
        let mut r: Vec<PhotoId> = Vec::new();
        let mut j: usize = 0;
        while j < self.photos.len()
            invariant
                self.wf(),
                j <= self.photos.len(),
                forall|t1: int, t2: int| 0 <= t1 < t2 < r@.len() ==> r@[t1] < r@[t2],
                forall|t: int| #![trigger r@[t]]
                    0 <= t < r@.len() ==> exists|u: int|
                        0 <= u < j && (#[trigger] self@.photos[u]).id == r@[t]
                            && row_visible(self@.photos[u], published),
                forall|u: int|
                    0 <= u < j && row_visible(#[trigger] self@.photos[u], published)
                        ==> r@.contains(self@.photos[u].id),
            decreases self.photos.len() - j,
        {
            let p = &self.photos[j];
            if published == Published::All || p.published {
                let ghost old_r = r@;
                proof {
                    // every id so far came from an earlier record, whose id
                    // is smaller
                    assert forall|t: int| 0 <= t < r@.len() implies r@[t]
                        < self@.photos[j as int].id by {
                        let u = choose|u: int|
                            0 <= u < j && (#[trigger] self@.photos[u]).id == r@[t]
                                && row_visible(self@.photos[u], published);
                        assert(self@.photos[u].id < self@.photos[j as int].id);
                    }
                }
                r.push(p.id);
                proof {
                    assert(r@ =~= old_r.push(self@.photos[j as int].id));
                    assert forall|u: int|
                        0 <= u < j + 1 && row_visible(#[trigger] self@.photos[u], published)
                            implies r@.contains(self@.photos[u].id) by {
                        if u < j {
                            let t = choose|t: int|
                                0 <= t < old_r.len() && old_r[t] == self@.photos[u].id;
                            assert(r@[t] == self@.photos[u].id);
                        } else {
                            assert(r@[r@.len() - 1] == self@.photos[u].id);
                        }
                    }
                }
            }
            j += 1;
        }
        r
    }

    /// Get a page of photos: up to `limit` rows on the anchor's side of
    /// the boundary, filtered, presented newest first, each with its
    /// variants in display order.
    pub fn get_photo_page(&self, limit: i64, page: Page, filter: &FilterSpec) -> (r: Vec<
        Photo,
    >)
        requires
            self.wf(),
            0 <= limit,
        ensures
            page_ok(self@.photos, limit as int, page, filter@, r.deep_view()),
    {
        let q = build_page_query(limit, page, filter);
        let r = self.run_page_query(&q);
        proof {
            let ghost pred = |p: PhotoV| q.selects(p);
            lemma_query_rows_is_filter(self@.photos, q, pred);
            lemma_page_rows_is_filter(self@.photos, page, filter@, pred);
            assert(query_rows(self@.photos, q) == page_rows(self@.photos, page, filter@));
        }
        r
    }

    /// The pagination probes for a fetched page: whether anything newer
    /// than its first photo, and anything older than its last photo,
    /// exists under the same filter. Each probe re-runs the page query
    /// with limit 1 — an existence check, not a count. The returned ids
    /// are the page's own boundary ids; the caller re-encodes them into
    /// navigation offsets.
    pub fn get_photo_pagination_ids(&self, photos: &Vec<Photo>, filter: &FilterSpec) -> (r: (
        Option<PhotoId>,
        Option<PhotoId>,
    ))
        requires
            self.wf(),
            photos@.len() > 0 ==> photos@[0].id >= 0 && photos@[photos@.len() - 1].id >= 0,
        ensures
            r.0 == (if photos@.len() > 0 && exists_page_row(
                self@.photos,
                Page::After(photos@[0].id as u32),
                filter@,
            ) {
                Option::Some(photos@[0].id)
            } else {
                Option::<PhotoId>::None
            }),
            r.1 == (if photos@.len() > 0 && exists_page_row(
                self@.photos,
                Page::Before(photos@[photos@.len() - 1].id as u32),
                filter@,
            ) {
                Option::Some(photos@[photos@.len() - 1].id)
            } else {
                Option::<PhotoId>::None
            }),
    {
        let newer: Option<PhotoId> = if photos.len() > 0 {
            let first_id = photos[0].id;
            let probe = self.get_photo_page(1, Page::After(first_id as u32), filter);
            proof {
                lemma_page_rows_empty_iff(
                    self@.photos,
                    Page::After(first_id as u32),
                    filter@,
                );
            }
            if probe.len() == 0 {
                Option::None
            } else {
                Option::Some(first_id)
            }
        } else {
            Option::None
        };
        let older: Option<PhotoId> = if photos.len() > 0 {
            let last_id = photos[photos.len() - 1].id;
            let probe = self.get_photo_page(1, Page::Before(last_id as u32), filter);
            proof {
                lemma_page_rows_empty_iff(
                    self@.photos,
                    Page::Before(last_id as u32),
                    filter@,
                );
            }
            if probe.len() == 0 {
                Option::None
            } else {
                Option::Some(last_id)
            }
        } else {
            Option::None
        };
        (newer, older)
    }

    /// How many matching photos carry the tag.
    fn count_tag(&self, filter: &FilterSpec, tag: &String) -> (c: i64)
        requires
            self.wf(),
        ensures
            c == tag_count(self@.photos, filter@, tag@),
    {
        proof {
            lemma_catalog_len_bound(self@.photos, self@.next_id);
        }
        let mut c: i64 = 0;
        let mut j: usize = 0;
        while j < self.photos.len()
            invariant
                self.wf(),
                j <= self.photos.len(),
                self@.photos.len() < i32::MAX as int,
                0 <= c <= j,
                c == tag_count(self@.photos.take(j as int), filter@, tag@),
            decreases self.photos.len() - j,
        {
            let p = &self.photos[j];
            let hit = filter.matches_row(p) && contains_string(&p.tags, tag.as_str());
            proof {
                lemma_tag_count_take_step(self@.photos, filter@, tag@, j as int);
            }
            if hit {
                c += 1;
            }
            j += 1;
        }
        proof {
            lemma_take_all(self@.photos);
        }
        c
    }

    /// Every distinct tag of the matching photos, strictly ascending.
    fn collect_tags(&self, filter: &FilterSpec) -> (keys: Vec<String>)
        requires
            self.wf(),
        ensures
            tags_sorted(keys.deep_view()),
            forall|k: int| #![trigger keys.deep_view()[k]]
                0 <= k < keys.deep_view().len() ==> tag_occurs(
                    self@.photos,
                    filter@,
                    keys.deep_view()[k],
                ),
            forall|j: int, l: int|
                0 <= j < self@.photos.len() && row_matches(self@.photos[j], filter@) && 0 <= l
                    < self@.photos[j].tags.len() ==> keys.deep_view().contains(
                    #[trigger] self@.photos[j].tags[l],
                ),
    {
        let mut keys: Vec<String> = Vec::new();
        let mut j: usize = 0;
        while j < self.photos.len()
            invariant
                self.wf(),
                j <= self.photos.len(),
                tags_sorted(keys.deep_view()),
                forall|k: int| #![trigger keys.deep_view()[k]]
                    0 <= k < keys.deep_view().len() ==> tag_occurs(
                        self@.photos,
                        filter@,
                        keys.deep_view()[k],
                    ),
                forall|u: int, l: int|
                    0 <= u < j && row_matches(self@.photos[u], filter@) && 0 <= l
                        < self@.photos[u].tags.len() ==> keys.deep_view().contains(
                        #[trigger] self@.photos[u].tags[l],
                    ),
            decreases self.photos.len() - j,
        {
            let p = &self.photos[j];
            if filter.matches_row(p) {
                let mut l: usize = 0;
                while l < p.tags.len()
                    invariant
                        self.wf(),
                        j < self.photos.len(),
                        l <= p.tags.len(),
                        p == &self.photos@[j as int],
                        row_matches(self@.photos[j as int], filter@),
                        tags_sorted(keys.deep_view()),
                        forall|k: int| #![trigger keys.deep_view()[k]]
                            0 <= k < keys.deep_view().len() ==> tag_occurs(
                                self@.photos,
                                filter@,
                                keys.deep_view()[k],
                            ),
                        forall|u: int, ll: int|
                            0 <= u < j && row_matches(self@.photos[u], filter@) && 0 <= ll
                                < self@.photos[u].tags.len() ==> keys.deep_view().contains(
                                #[trigger] self@.photos[u].tags[ll],
                            ),
                        forall|ll: int|
                            0 <= ll < l ==> keys.deep_view().contains(
                                #[trigger] self@.photos[j as int].tags[ll],
                            ),
                    decreases p.tags.len() - l,
                {
                    let ghost old_keys = keys.deep_view();
                    insert_key(&mut keys, &p.tags[l]);
                    proof {
                        let tl = self@.photos[j as int].tags[l as int];
                        assert(p.tags[l as int]@ == tl);
                        assert(keys.deep_view().contains(tl));
                        assert forall|k: int| #![trigger keys.deep_view()[k]]
                            0 <= k < keys.deep_view().len() implies tag_occurs(
                            self@.photos,
                            filter@,
                            keys.deep_view()[k],
                        ) by {
                            let x = keys.deep_view()[k];
                            assert(keys.deep_view().contains(x));
                            if x == tl {
                                assert(0 <= j < self@.photos.len() && row_matches(
                                    self@.photos[j as int],
                                    filter@,
                                ) && 0 <= l < self@.photos[j as int].tags.len()
                                    && #[trigger] self@.photos[j as int].tags[l as int] == x);
                            } else {
                                assert(old_keys.contains(x));
                                let u = choose|u: int|
                                    0 <= u < old_keys.len() && old_keys[u] == x;
                                assert(tag_occurs(self@.photos, filter@, old_keys[u]));
                            }
                        }
                    }
                    l += 1;
                }
            }
            j += 1;
        }
        keys
    }

    /// Every distinct tag appearing on a photo that matches the filter,
    /// with how many matching photos carry it, sorted by tag name
    /// ascending. No pagination applies here.
    pub fn get_photo_tags_with_counts(&self, filter: &FilterSpec) -> (r: Vec<(String, i64)>)
        requires
            self.wf(),
        ensures
            facets_ok(self@.photos, filter@, r@),
    {
        let keys = self.collect_tags(filter);
        let mut r: Vec<(String, i64)> = Vec::new();
        let mut k: usize = 0;
        while k < keys.len()
            invariant
                self.wf(),
                k <= keys.len(),
                r@.len() == k,
                tags_sorted(keys.deep_view()),
                forall|u: int| #![trigger keys.deep_view()[u]]
                    0 <= u < keys.deep_view().len() ==> tag_occurs(
                        self@.photos,
                        filter@,
                        keys.deep_view()[u],
                    ),
                forall|u: int| #![trigger r@[u]]
                    0 <= u < k ==> r@[u].0@ == keys.deep_view()[u] && r@[u].1 == tag_count(
                        self@.photos,
                        filter@,
                        keys.deep_view()[u],
                    ),
            decreases keys.len() - k,
        {
            let key = keys[k].clone();
            let c = self.count_tag(filter, &key);
            let ghost old_r = r@;
            r.push((key, c));
            proof {
                assert(r@ =~= old_r.push(r@[old_r.len() as int]));
            }
            k += 1;
        }
        proof {
            assert forall|j: int, l: int|
                0 <= j < self@.photos.len() && row_matches(self@.photos[j], filter@) && 0 <= l
                    < self@.photos[j].tags.len() implies facet_listed(
                r@,
                #[trigger] self@.photos[j].tags[l],
            ) by {
                let x = self@.photos[j].tags[l];
                assert(keys.deep_view().contains(x));
                let u = choose|u: int|
                    0 <= u < keys.deep_view().len() && keys.deep_view()[u] == x;
                assert(0 <= u < r@.len());
                assert(r@[u].0@ == keys.deep_view()[u]);
                assert(r@[u].0@ == x);
            }
        }
        r
    }

    /// Apply a field-level diff of `old_photo` (the current display form
    /// of a stored record) against `payload`, writing only the fields
    /// that differ, all at once. Yields whether anything was written.
    pub fn update_photo(&mut self, old_photo: &Photo, payload: &PhotoPayload) -> (changed:
        bool)
        requires
            old(self).wf(),
            exists|j: int|
                0 <= j < old(self)@.photos.len() && (#[trigger] old(self)@.photos[j]).id
                    == old_photo@.id && is_display_of(old_photo@, old(self)@.photos[j]),
        ensures
            final(self).wf(),
            final(self)@.next_id == old(self)@.next_id,
            final(self)@.photos.len() == old(self)@.photos.len(),
            changed == (update_count(diff_of(old_photo@, payload@)) > 0),
            forall|t: int|
                0 <= t < old(self)@.photos.len() ==> (#[trigger] final(self)@.photos[t]) == (
                if old(self)@.photos[t].id == old_photo@.id {
                    patched_record(old(self)@.photos[t], diff_of(old_photo@, payload@))
                } else {
                    old(self)@.photos[t]
                }),
    {
        let d = diff_photo(old_photo, payload);
        let changed = !d.is_empty();
        let ghost dv = d@;
        let mut j: usize = 0;
        while j < self.photos.len()
            invariant
                self@ == old(self)@,
                self.wf(),
                j <= self@.photos.len(),
                forall|t: int| 0 <= t < j ==> (#[trigger] self@.photos[t]).id != old_photo@.id,
                dv == diff_of(old_photo@, payload@),
                d@ == dv,
                changed == (update_count(dv) > 0),
            decreases self@.photos.len() - j,
        {
            if self.photos[j].id == old_photo.id {
                let ghost stored = self@.photos[j as int];
                let PhotoDiff { taken_timestamp, title, tags, sources } = d;
                let elem = &mut self.photos[j];
                if let Option::Some(v) = taken_timestamp {
                    elem.taken_timestamp = v;
                }
                if let Option::Some(v) = title {
                    elem.title = v;
                }
                if let Option::Some(v) = tags {
                    elem.tags = v;
                }
                if let Option::Some(v) = sources {
                    elem.sources = v;
                }
                proof {
                    let jj = j as int;
                    assert(self@.photos =~= old(self)@.photos.update(
                        jj,
                        patched_record(stored, dv),
                    ));
                    assert forall|t: int|
                        0 <= t < old(self)@.photos.len() implies (
                    #[trigger] self@.photos[t]) == (if old(self)@.photos[t].id
                        == old_photo@.id {
                        patched_record(old(self)@.photos[t], dv)
                    } else {
                        old(self)@.photos[t]
                    }) by {
                        if t != jj && old(self)@.photos[t].id == old_photo@.id {
                            if t < jj {
                                assert(old(self)@.photos[t].id < old(self)@.photos[jj].id);
                            } else {
                                assert(old(self)@.photos[jj].id < old(self)@.photos[t].id);
                            }
                        }
                    }
                }
                return changed;
            }
            j += 1;
        }
        proof {
            let jj = choose|jj: int|
                0 <= jj < old(self)@.photos.len() && (#[trigger] old(self)@.photos[jj]).id
                    == old_photo@.id && is_display_of(old_photo@, old(self)@.photos[jj]);
            assert(false);
        }
        changed
    }

    /// Set the publication flag of the photo with the given id. A missing
    /// id changes nothing, as a store-level update that matches no row.
    pub fn set_photo_published_state(&mut self, photo_id: PhotoId, published: bool)
        requires
            old(self).wf(),
        ensures
            final(self).wf(),
            final(self)@.next_id == old(self)@.next_id,
            final(self)@.photos.len() == old(self)@.photos.len(),
            forall|t: int|
                0 <= t < old(self)@.photos.len() ==> (#[trigger] final(self)@.photos[t]) == (
                if old(self)@.photos[t].id == photo_id {
                    with_published(old(self)@.photos[t], published)
                } else {
                    old(self)@.photos[t]
                }),
    {
        let mut j: usize = 0;
        while j < self.photos.len()
            invariant
                self@ == old(self)@,
                self.wf(),
                j <= self@.photos.len(),
                forall|t: int| 0 <= t < j ==> (#[trigger] self@.photos[t]).id != photo_id,
            decreases self@.photos.len() - j,
        {
            if self.photos[j].id == photo_id {
                let ghost stored = self@.photos[j as int];
                let elem = &mut self.photos[j];
                elem.published = published;
                proof {
                    let jj = j as int;
                    assert(self@.photos =~= old(self)@.photos.update(
                        jj,
                        with_published(stored, published),
                    ));
                    assert forall|t: int|
                        0 <= t < old(self)@.photos.len() implies (
                    #[trigger] self@.photos[t]) == (if old(self)@.photos[t].id == photo_id {
                        with_published(old(self)@.photos[t], published)
                    } else {
                        old(self)@.photos[t]
                    }) by {
                        if t != jj && old(self)@.photos[t].id == photo_id {
                            if t < jj {
                                assert(old(self)@.photos[t].id < old(self)@.photos[jj].id);
                            } else {
                                assert(old(self)@.photos[jj].id < old(self)@.photos[t].id);
                            }
                        }
                    }
                }
                return ;
            }
            j += 1;
        }
    }

    /// Set the layout hint of the photo with the given id. A missing id
    /// changes nothing.
    pub fn set_photo_height_offset(&mut self, photo_id: PhotoId, height_offset: u8)
        requires
            old(self).wf(),
        ensures
            final(self).wf(),
            final(self)@.next_id == old(self)@.next_id,
            final(self)@.photos.len() == old(self)@.photos.len(),
            forall|t: int|
                0 <= t < old(self)@.photos.len() ==> (#[trigger] final(self)@.photos[t]) == (
                if old(self)@.photos[t].id == photo_id {
                    with_height_offset(old(self)@.photos[t], height_offset)
                } else {
                    old(self)@.photos[t]
                }),
    {
        let mut j: usize = 0;
        while j < self.photos.len()
            invariant
                self@ == old(self)@,
                self.wf(),
                j <= self@.photos.len(),
                forall|t: int| 0 <= t < j ==> (#[trigger] self@.photos[t]).id != photo_id,
            decreases self@.photos.len() - j,
        {
            if self.photos[j].id == photo_id {
                let ghost stored = self@.photos[j as int];
                let elem = &mut self.photos[j];
                elem.height_offset = height_offset;
                proof {
                    let jj = j as int;
                    assert(self@.photos =~= old(self)@.photos.update(
                        jj,
                        with_height_offset(stored, height_offset),
                    ));
                    assert forall|t: int|
                        0 <= t < old(self)@.photos.len() implies (
                    #[trigger] self@.photos[t]) == (if old(self)@.photos[t].id == photo_id {
                        with_height_offset(old(self)@.photos[t], height_offset)
                    } else {
                        old(self)@.photos[t]
                    }) by {
                        if t != jj && old(self)@.photos[t].id == photo_id {
                            if t < jj {
                                assert(old(self)@.photos[t].id < old(self)@.photos[jj].id);
                            } else {
                                assert(old(self)@.photos[jj].id < old(self)@.photos[t].id);
                            }
                        }
                    }
                }
                return ;
            }
            j += 1;
        }
    }

    /// Create a new photo from a payload: the payload must carry a
    /// variant list, the file stem must be free, the record is stored
    /// unpublished with a zero layout hint, and the assigned id comes
    /// back with the created photo in display form. On a conflict the
    /// existing photo is echoed back and nothing is stored.
    pub fn create_photo(&mut self, payload: &PhotoPayload) -> (r: Result<
        (PhotoId, Photo),
        CreateError,
    >)
        requires
            old(self).wf(),
            old(self).can_assign_id(),
        ensures
            final(self).wf(),
            match r {
                Result::Err(CreateError::Validation) => {
                    &&& payload@.sources is None
                    &&& final(self)@ == old(self)@
                },
                Result::Err(CreateError::Conflict(p)) => {
                    &&& payload@.sources is Some
                    &&& final(self)@ == old(self)@
                    &&& exists|j: int|
                        0 <= j < old(self)@.photos.len() && (#[trigger] old(
                            self,
                        )@.photos[j]).file_stem == payload@.file_stem && is_display_of(
                            p@,
                            old(self)@.photos[j],
                        )
                },
                Result::Ok((id, photo)) => {
                    &&& payload@.sources is Some
                    &&& !has_file_stem(old(self)@.photos, payload@.file_stem)
                    &&& id == old(self)@.next_id
                    &&& final(self)@.next_id == old(self)@.next_id + 1
                    &&& final(self)@.photos == old(self)@.photos.push(
                        created_record(payload@, id as int),
                    )
                    &&& is_display_of(photo@, created_record(payload@, id as int))
                },
            },
    {
        let sources = match &payload.sources {
            Option::Some(s) => clone_source_vec(s),
            Option::None => {
                return Result::Err(CreateError::Validation);
            },
        };
        match self.get_photo_by_file_stem(payload.file_stem.as_str(), Published::All) {
            Option::Some(existing) => {
                return Result::Err(CreateError::Conflict(existing));
            },
            Option::None => {
                proof {
                    assert forall|j: int|
                        0 <= j < self@.photos.len() implies (
                    #[trigger] self@.photos[j]).file_stem != payload@.file_stem by {
                        assert(row_visible(self@.photos[j], Published::All));
                    }
                }
            },
        }
        let new_photo = Photo {
            id: 0,
            file_stem: payload.file_stem.clone(),
            title: clone_opt_string(&payload.title),
            taken_timestamp: clone_opt_string(&payload.taken_timestamp),
            height_offset: 0,
            tags: clone_string_vec(&payload.tags),
            sources,
            published: false,
        };
        let ghost npv = new_photo@;
        let id = self.insert_photo(&new_photo);
        let mut created = new_photo.display_order();
        created.id = id;
        proof {
            assert(inserted_record(npv, old(self)@.next_id) == created_record(
                payload@,
                id as int,
            ));
            assert(is_display_of(created@, created_record(payload@, id as int)));
        }
        Result::Ok((id, created))
    }

    /// Update the photo with the given file stem from a payload: diff it
    /// field by field against its current display form, write only what
    /// differs, and yield the before and after snapshots together with
    /// whether anything changed. Yields nothing, and changes nothing,
    /// when no photo carries the stem.
    pub fn update_photo_by_file_stem(&mut self, file_stem: &str, payload: &PhotoPayload) -> (r:
        Option<UpdateOutcome>)
        requires
            old(self).wf(),
        ensures
            final(self).wf(),
            final(self)@.next_id == old(self)@.next_id,
            match r {
                Option::None => {
                    &&& final(self)@ == old(self)@
                    &&& !has_file_stem(old(self)@.photos, file_stem@)
                },
                Option::Some(out) => {
                    &&& has_file_stem(old(self)@.photos, file_stem@)
                    &&& forall|j: int|
                        0 <= j < old(self)@.photos.len() && (#[trigger] old(
                            self,
                        )@.photos[j]).file_stem == file_stem@ ==> {
                            &&& is_display_of(out.previous@, old(self)@.photos[j])
                            &&& out.changed == (update_count(
                                diff_of(out.previous@, payload@),
                            ) > 0)
                            &&& final(self)@.photos == old(self)@.photos.update(
                                j,
                                patched_record(
                                    old(self)@.photos[j],
                                    diff_of(out.previous@, payload@),
                                ),
                            )
                            &&& is_display_of(
                                out.current@,
                                patched_record(
                                    old(self)@.photos[j],
                                    diff_of(out.previous@, payload@),
                                ),
                            )
                        }
                },
            },
    {
        let previous = match self.get_photo_by_file_stem(file_stem, Published::All) {
            Option::Some(p) => p,
            Option::None => {
                proof {
                    assert forall|j: int|
                        0 <= j < self@.photos.len() implies (
                    #[trigger] self@.photos[j]).file_stem != file_stem@ by {
                        assert(row_visible(self@.photos[j], Published::All));
                    }
                }
                return Option::None;
            },
        };
        let ghost jl = choose|j: int|
            0 <= j < self@.photos.len() && (#[trigger] self@.photos[j]).file_stem
                == file_stem@ && row_visible(self@.photos[j], Published::All)
                && is_display_of(previous@, self@.photos[j]);
        proof {
            assert(self@.photos[jl].id == previous@.id);
        }
        let changed = self.update_photo(&previous, payload);
        let ghost dv = diff_of(previous@, payload@);
        proof {
            // the stem picks out a single record, which now holds the
            // patched fields
            assert(self@.photos =~= old(self)@.photos.update(
                jl,
                patched_record(old(self)@.photos[jl], dv),
            )) by {
                assert forall|t: int|
                    0 <= t < old(self)@.photos.len() && t != jl implies old(
                    self,
                )@.photos[t].id != previous@.id by {
                    if t < jl {
                        assert(old(self)@.photos[t].id < old(self)@.photos[jl].id);
                    } else {
                        assert(old(self)@.photos[jl].id < old(self)@.photos[t].id);
                    }
                }
            }
        }
        let current = match self.get_photo_by_id(previous.id, Published::All) {
            Option::Some((p, _, _)) => p,
            Option::None => {
                proof {
                    assert(row_visible(self@.photos[jl], Published::All));
                    assert(has_visible_id(self@.photos, Published::All, previous@.id as int));
                    assert(false);
                }
                vstd::pervasive::unreached()
            },
        };
        proof {
            // the by-id lookup found exactly the patched record
            let t = choose|t: int|
                0 <= t < self@.photos.len() && (#[trigger] self@.photos[t]).id == previous@.id
                    && row_visible(self@.photos[t], Published::All) && is_display_of(
                    current@,
                    self@.photos[t],
                );
            if t != jl {
                if t < jl {
                    assert(self@.photos[t].id < self@.photos[jl].id);
                } else {
                    assert(self@.photos[jl].id < self@.photos[t].id);
                }
            }
            assert(is_display_of(current@, patched_record(old(self)@.photos[jl], dv)));
            assert forall|j: int|
                0 <= j < old(self)@.photos.len() && (#[trigger] old(self)@.photos[j]).file_stem
                    == file_stem@ implies j == jl by {
                if j != jl {
                    assert(old(self)@.photos[j].file_stem != old(self)@.photos[jl].file_stem);
                }
            }
        }
        Option::Some(UpdateOutcome { changed, previous, current })
    }

    /// Set the publication flag of the photo with the given id, after
    /// checking it exists. Yields whether it did; nothing changes when it
    /// does not.
    pub fn update_photo_published(&mut self, photo_id: PhotoId, published: bool) -> (found:
        bool)
        requires
            old(self).wf(),
        ensures
            final(self).wf(),
            final(self)@.next_id == old(self)@.next_id,
            found == has_visible_id(old(self)@.photos, Published::All, photo_id as int),
            !found ==> final(self)@ == old(self)@,
            final(self)@.photos.len() == old(self)@.photos.len(),
            forall|t: int|
                0 <= t < old(self)@.photos.len() ==> (#[trigger] final(self)@.photos[t]) == (
                if found && old(self)@.photos[t].id == photo_id {
                    with_published(old(self)@.photos[t], published)
                } else {
                    old(self)@.photos[t]
                }),
    {
        match self.get_photo_by_id(photo_id, Published::All) {
            Option::Some(_) => {
                self.set_photo_published_state(photo_id, published);
                true
            },
            Option::None => false,
        }
    }

    /// Set the layout hint of the photo with the given id, after checking
    /// it exists. Yields whether it did; nothing changes when it does not.
    pub fn update_photo_height_offset(&mut self, photo_id: PhotoId, height_offset: u8) -> (
        found: bool)
        requires
            old(self).wf(),
        ensures
            final(self).wf(),
            final(self)@.next_id == old(self)@.next_id,
            found == has_visible_id(old(self)@.photos, Published::All, photo_id as int),
            !found ==> final(self)@ == old(self)@,
            final(self)@.photos.len() == old(self)@.photos.len(),
            forall|t: int|
                0 <= t < old(self)@.photos.len() ==> (#[trigger] final(self)@.photos[t]) == (
                if found && old(self)@.photos[t].id == photo_id {
                    with_height_offset(old(self)@.photos[t], height_offset)
                } else {
                    old(self)@.photos[t]
                }),
    {
        match self.get_photo_by_id(photo_id, Published::All) {
            Option::Some(_) => {
                self.set_photo_height_offset(photo_id, height_offset);
                true
            },
            Option::None => false,
        }
    }
}

/// Why a create request was refused.
#[derive(Debug)]
pub enum CreateError {
    /// The payload lacks the required variant list.
    Validation,
    /// A photo with the payload's file stem already exists; it is echoed
    /// back, and nothing is stored.
    Conflict(Photo),
}

/// What an update by file stem yields: whether anything was written, and
/// the photo before and after, both in display form.
#[derive(Debug)]
pub struct UpdateOutcome {
    pub changed: bool,
    pub previous: Photo,
    pub current: Photo,
}

} // verus!
