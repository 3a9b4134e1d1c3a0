//! Query semantics: which rows a page fetch may see, and the structural
//! page query the engine builds from a limit, a page anchor and a filter.
//! The query tracks its clauses and its bind parameters structurally, as an
//! ordered list of typed values, so clause text and parameter positions
//! cannot drift apart.

use vstd::prelude::*;

use crate::page::{Page, Published};
use crate::photos::{Photo, PhotoV};
use crate::strutil::{clone_string_vec, contains_string};

verus! {

/// The immutable filters of one request: an optional set of required tags
/// (containment, not equality) and the publication visibility. Built once
/// per request and reused by every query answering it.
#[derive(Debug)]
pub struct FilterSpec {
    pub tagged: Option<Vec<String>>,
    pub visibility: Published,
}

/// The mathematical shape of a [`FilterSpec`].
pub ghost struct FilterSpecV {
    pub tagged: Option<Seq<Seq<char>>>,
    pub visibility: Published,
}

impl View for FilterSpec {
    type V = FilterSpecV;

    open spec fn view(&self) -> FilterSpecV {
        FilterSpecV { tagged: self.tagged.deep_view(), visibility: self.visibility }
    }
}

impl FilterSpec {
    /// The filter of a request that carries an optional single tag, as the
    /// request layer hands it over: the tag is promoted to a one-element
    /// required set.
    pub fn from_request(tag: Option<String>, visibility: Published) -> (r: FilterSpec)
        ensures
            r@.visibility == visibility,
            match tag {
                Option::Some(t) => r@.tagged == Option::Some(seq![t@]),
                Option::None => r@.tagged is None,
            },
    {
        match tag {
            Option::Some(t) => {
                let mut tags: Vec<String> = Vec::new();
                tags.push(t);
                proof {
                    assert(tags.deep_view() =~= seq![tags@[0]@]);
                }
                FilterSpec { tagged: Option::Some(tags), visibility }
            },
            Option::None => FilterSpec { tagged: Option::None, visibility },
        }
    }
}

/// Whether a row is visible under the given publication filter.
pub open spec fn row_visible(p: PhotoV, vis: Published) -> bool {
    vis == Published::All || p.published
}

/// Whether a tag list holds every required tag (superset containment).
pub open spec fn tags_superset(tags: Seq<Seq<char>>, required: Seq<Seq<char>>) -> bool {
    forall|i: int| 0 <= i < required.len() ==> tags.contains(required[i])
}

/// Whether a row passes the tag and visibility filters.
pub open spec fn row_matches(p: PhotoV, f: FilterSpecV) -> bool {
    &&& row_visible(p, f.visibility)
    &&& match f.tagged {
        Option::Some(req) => tags_superset(p.tags, req),
        Option::None => true,
    }
}

/// Whether a row lies on the wanted side of the page anchor.
pub open spec fn row_in_bound(p: PhotoV, page: Page) -> bool {
    match page {
        Page::Latest => true,
        Page::Before(b) => (p.id as int) < (b as int),
        Page::After(a) => (p.id as int) > (a as int),
    }
}

/// The rows a page fetch anchored at `page` under filter `f` may draw
/// from, in stored (ascending id) order.
pub open spec fn page_rows(photos: Seq<PhotoV>, page: Page, f: FilterSpecV) -> Seq<PhotoV> {
    photos.filter(|p: PhotoV| row_matches(p, f) && row_in_bound(p, page))
}

/// The rows a structural query keeps, in stored (ascending id) order.
pub open spec fn query_rows(photos: Seq<PhotoV>, q: PageQuery) -> Seq<PhotoV> {
    photos.filter(|p: PhotoV| q.selects(p))
}

/// `query_rows` is the filter by any predicate that agrees with
/// `selects` pointwise.
pub proof fn lemma_query_rows_is_filter(
    s: Seq<PhotoV>,
    q: PageQuery,
    pred: spec_fn(PhotoV) -> bool,
)
    requires
        forall|p: PhotoV| #[trigger] pred(p) == q.selects(p),
    ensures
        query_rows(s, q) == s.filter(pred),
    decreases s.len(),
{
    reveal(Seq::filter);
    if s.len() > 0 {
        lemma_query_rows_is_filter(s.drop_last(), q, pred);
    }
}

/// `page_rows` is the filter by any predicate that agrees pointwise with
/// the anchor and filter predicates.
pub proof fn lemma_page_rows_is_filter(
    s: Seq<PhotoV>,
    page: Page,
    f: FilterSpecV,
    pred: spec_fn(PhotoV) -> bool,
)
    requires
        forall|p: PhotoV| #[trigger] pred(p) == (row_matches(p, f) && row_in_bound(p, page)),
    ensures
        page_rows(s, page, f) == s.filter(pred),
    decreases s.len(),
{
    reveal(Seq::filter);
    if s.len() > 0 {
        lemma_page_rows_is_filter(s.drop_last(), page, f, pred);
    }
}

/// Extending a prefix by one element extends its filtered image by that
/// element exactly when the element passes the predicate.
pub proof fn lemma_filter_take_step<A>(s: Seq<A>, pred: spec_fn(A) -> bool, i: int)
    requires
        0 <= i < s.len(),
    ensures
        s.take(i + 1).filter(pred) == (if pred(s[i]) {
            s.take(i).filter(pred).push(s[i])
        } else {
            s.take(i).filter(pred)
        }),
{
    reveal(Seq::filter);
    assert(s.take(i + 1).drop_last() =~= s.take(i));
    assert(s.take(i + 1).last() == s[i]);
}

/// A sequence is the take of its own length.
pub proof fn lemma_take_all<A>(s: Seq<A>)
    ensures
        s.take(s.len() as int) == s,
{
    assert(s.take(s.len() as int) =~= s);
}

/// Exact check of the tag-superset predicate.
pub fn tags_contain_all(tags: &Vec<String>, required: &Vec<String>) -> (b: bool)
    ensures
        b == tags_superset(tags.deep_view(), required.deep_view()),
{
    let mut i: usize = 0;
    while i < required.len()
        invariant
            i <= required.len(),
            forall|j: int| 0 <= j < i ==> tags.deep_view().contains(required.deep_view()[j]),
        decreases required.len() - i,
    {
        if !contains_string(tags, required[i].as_str()) {
            proof {
                assert(!tags.deep_view().contains(required.deep_view()[i as int]));
            }
            return false;
        }
        i += 1;
    }
    true
}

impl FilterSpec {
    /// Exact check of the filter on one row.
    pub fn matches_row(&self, p: &Photo) -> (b: bool)
        ensures
            b == row_matches(p@, self@),
    {
        if !(self.visibility == Published::All || p.published) {
            return false;
        }
        match &self.tagged {
            Option::Some(req) => tags_contain_all(&p.tags, req),
            Option::None => true,
        }
    }
}

/// The boundary clause of a page query: keep rows whose id is strictly
/// below (or strictly above) the given id.
#[derive(Clone, Copy, Debug, PartialEq, Eq, Structural)]
pub struct Boundary {
    pub below: bool,
    pub id: i64,
}

/// One typed bind parameter of a query, in clause order.
#[derive(Debug)]
pub enum BindValue {
    I64(i64),
    StringList(Vec<String>),
}

/// The mathematical shape of a [`BindValue`].
pub ghost enum BindValueV {
    I64(i64),
    StringList(Seq<Seq<char>>),
}

impl DeepView for BindValue {
    type V = BindValueV;

    open spec fn deep_view(&self) -> BindValueV {
        match self {
            BindValue::I64(v) => BindValueV::I64(*v),
            BindValue::StringList(v) => BindValueV::StringList(v.deep_view()),
        }
    }
}

/// A parameterized page query, built structurally: its clauses in a fixed
/// order, the fetch direction, and the row limit. The bind parameters are
/// derived from the clauses in the same order, so a clause and its
/// parameter cannot end up at different positions.
#[derive(Debug)]
pub struct PageQuery {
    /// Boundary predicate from the page anchor, absent for `Latest`.
    pub boundary: Option<Boundary>,
    /// Tag containment predicate, absent when no tag filter is set.
    pub tagged: Option<Vec<String>>,
    /// Whether only published rows qualify.
    pub only_published: bool,
    /// Whether the store fetches in descending id order.
    pub descending: bool,
    /// The greatest number of rows the fetch may return.
    pub limit: i64,
}

impl PageQuery {
    /// Which rows this query keeps.
    pub open spec fn selects(self, p: PhotoV) -> bool {
        &&& match self.boundary {
            Option::Some(b) => if b.below {
                (p.id as int) < (b.id as int)
            } else {
                (p.id as int) > (b.id as int)
            },
            Option::None => true,
        }
        &&& match self.tagged {
            Option::Some(req) => tags_superset(p.tags, req.deep_view()),
            Option::None => true,
        }
        &&& (self.only_published ==> p.published)
    }

    /// The bind parameters this query carries, in clause order: the
    /// boundary id if any, then the tag list if any, then the limit.
    pub open spec fn bind_views(self) -> Seq<BindValueV> {
        let head: Seq<BindValueV> = match self.boundary {
            Option::Some(b) => seq![BindValueV::I64(b.id)],
            Option::None => seq![],
        };
        let mid: Seq<BindValueV> = match self.tagged {
            Option::Some(t) => seq![BindValueV::StringList(t.deep_view())],
            Option::None => seq![],
        };
        head + mid + seq![BindValueV::I64(self.limit)]
    }

    /// The ordered typed bind values of this query.
    pub fn bind_values(&self) -> (r: Vec<BindValue>)
        ensures
            r.deep_view() == self.bind_views(),
    {
        let mut r: Vec<BindValue> = Vec::new();
        if let Option::Some(b) = &self.boundary {
            r.push(BindValue::I64(b.id));
        }
        if let Option::Some(t) = &self.tagged {
            r.push(BindValue::StringList(clone_string_vec(t)));
        }
        r.push(BindValue::I64(self.limit));
        proof {
            assert(r.deep_view() =~= self.bind_views());
        }
        r
    }

    /// Exact check of `selects` on one row.
    pub fn selects_row(&self, p: &Photo) -> (b: bool)
        ensures
            b == self.selects(p@),
    {
        let bound_ok = match &self.boundary {
            Option::Some(b) => if b.below {
                (p.id as i64) < b.id
            } else {
                (p.id as i64) > b.id
            },
            Option::None => true,
        };
        if !bound_ok {
            return false;
        }
        let tags_ok = match &self.tagged {
            Option::Some(req) => tags_contain_all(&p.tags, req),
            Option::None => true,
        };
        if !tags_ok {
            return false;
        }
        !self.only_published || p.published
    }
}

/// Compose the page query for one fetch: the boundary predicate from the
/// anchor, the tag and visibility predicates from the filter, the fetch
/// direction from the anchor, and the limit. The query keeps exactly the
/// rows that match the filter and lie on the wanted side of the anchor.
pub fn build_page_query(limit: i64, page: Page, filter: &FilterSpec) -> (q: PageQuery)
    ensures
        forall|p: PhotoV| q.selects(p) == (row_matches(p, filter@) && row_in_bound(p, page)),
        q.descending == page.fetches_descending(),
        q.limit == limit,
{
    let boundary = match page {
        Page::Latest => Option::None,
        Page::Before(id) => Option::Some(Boundary { below: true, id: id as i64 }),
        Page::After(id) => Option::Some(Boundary { below: false, id: id as i64 }),
    };
    let tagged = match &filter.tagged {
        Option::Some(t) => Option::Some(clone_string_vec(t)),
        Option::None => Option::None,
    };
    let q = PageQuery {
        boundary,
        tagged,
        only_published: matches!(filter.visibility, Published::OnlyPublished),
        descending: !matches!(page, Page::After(_)),
        limit,
    };
    proof {
        assert forall|p: PhotoV|
            q.selects(p) == (row_matches(p, filter@) && row_in_bound(p, page)) by {
            match &q.tagged {
                Option::Some(t) => {
                    assert(t.deep_view() == filter@.tagged.unwrap());
                },
                Option::None => {},
            }
        }
    }
    q
}

} // verus!
