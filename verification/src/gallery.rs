//! The gallery view: one request's worth of data, computed with a single
//! filter so that the page, the navigation probes and the tag facets all
//! see the same catalog predicate.

use vstd::prelude::*;

use crate::catalog::{
    exists_page_row, facets_ok, lemma_page_ids_positive, page_ok, Catalog,
};
use crate::config::{select_limit, selected_limit};
use crate::page::{decode_spec, encode_spec, Page, Published};
use crate::photos::Photo;
use crate::query::{FilterSpec, FilterSpecV};

verus! {

/// Everything one gallery page needs: the photos, the navigation offsets
/// re-encoded through the cursor codec, and the tag facets. The offset
/// for the oldest page is the fixed sentinel `-1`, which anchors after
/// id 0; it is a raw literal by design, not a codec output. The newest
/// page's offset is always the absent offset.
#[derive(Debug)]
pub struct GalleryView {
    pub photos: Vec<Photo>,
    pub newer_offset: Option<i32>,
    pub older_offset: Option<i32>,
    pub oldest_offset: i32,
    pub tags: Vec<(String, i64)>,
}

/// The filter a gallery request uses: an optional single tag promoted to
/// a one-element required set, plus the request's visibility.
pub open spec fn gallery_filter(tag: Option<Seq<char>>, vis: Published) -> FilterSpecV {
    FilterSpecV {
        tagged: match tag {
            Option::Some(t) => Option::Some(seq![t]),
            Option::None => Option::None,
        },
        visibility: vis,
    }
}

impl Catalog {
    /// Compute one gallery page: clamp the limit, decode the cursor,
    /// fetch the page, probe both navigation directions, and count the
    /// tag facets, all under one filter. The newer and older offsets are
    /// the probe results re-encoded through the cursor codec.
    pub fn gallery(
        &self,
        limit: Option<u8>,
        offset: Option<i32>,
        tagged: Option<String>,
        published: Published,
        default_per_page: u8,
        max_per_page: u8,
    ) -> (g: GalleryView)
        requires
            self.wf(),
        ensures
            ({
                let f = gallery_filter(tagged.deep_view(), published);
                let lim = selected_limit(limit, default_per_page, max_per_page);
                let anchor = decode_spec(offset);
                let pv = g.photos.deep_view();
                &&& page_ok(self@.photos, lim as int, anchor, f, pv)
                &&& facets_ok(self@.photos, f, g.tags@)
                &&& (pv.len() == 0 ==> g.newer_offset is None && g.older_offset is None)
                &&& (pv.len() > 0 ==> g.newer_offset == (if exists_page_row(
                    self@.photos,
                    Page::After(pv[0].id as u32),
                    f,
                ) {
                    encode_spec(Page::After(pv[0].id as u32))
                } else {
                    Option::<i32>::None
                }))
                &&& (pv.len() > 0 ==> g.older_offset == (if exists_page_row(
                    self@.photos,
                    Page::Before(pv[pv.len() - 1].id as u32),
                    f,
                ) {
                    encode_spec(Page::Before(pv[pv.len() - 1].id as u32))
                } else {
                    Option::<i32>::None
                }))
                &&& g.oldest_offset == -1i32
            }),
    {
        let filter = FilterSpec::from_request(tagged, published);
        let lim = select_limit(limit, default_per_page, max_per_page);
        let anchor = Page::from(offset);
        let photos = self.get_photo_page(lim as i64, anchor, &filter);
        proof {
            lemma_page_ids_positive(
                self@.photos,
                self@.next_id,
                lim as int,
                anchor,
                filter@,
                photos.deep_view(),
            );
            if photos.deep_view().len() > 0 {
                assert(photos@[0].id == photos.deep_view()[0].id);
                assert(photos@[photos@.len() - 1].id == photos.deep_view()[photos@.len()
                    - 1].id);
            }
        }
        let (newer, older) = self.get_photo_pagination_ids(&photos, &filter);
        let newer_offset = match newer {
            Option::Some(id) => Page::After(id as u32).encode(),
            Option::None => Option::None,
        };
        let older_offset = match older {
            Option::Some(id) => Page::Before(id as u32).encode(),
            Option::None => Option::None,
        };
        let tags = self.get_photo_tags_with_counts(&filter);
        GalleryView { photos, newer_offset, older_offset, oldest_offset: -1, tags }
    }
}

} // verus!
