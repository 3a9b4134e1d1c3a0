//! The photo record: the unit the catalog stores and serves. A stored
//! record keeps its variant list in insertion order; what callers see is
//! the display form, whose variants are re-sorted widest first. That
//! ordering is derived on every read, never stored.

use vstd::prelude::*;

use crate::api::{clone_source_vec, Source, SourceV};
use crate::strutil::{clone_opt_string, clone_string_vec};

verus! {

/// A photo identifier, assigned by the store on insert.
pub type PhotoId = i32;

/// One photo of the catalog, with its rendered variants.
#[derive(Clone, Debug, PartialEq)]
pub struct Photo {
    pub id: PhotoId,
    pub file_stem: String,
    pub title: Option<String>,
    pub taken_timestamp: Option<String>,
    pub height_offset: u8,
    pub tags: Vec<String>,
    pub sources: Vec<Source>,
    pub published: bool,
}

/// The mathematical shape of a [`Photo`].
pub ghost struct PhotoV {
    pub id: PhotoId,
    pub file_stem: Seq<char>,
    pub title: Option<Seq<char>>,
    pub taken_timestamp: Option<Seq<char>>,
    pub height_offset: u8,
    pub tags: Seq<Seq<char>>,
    pub sources: Seq<SourceV>,
    pub published: bool,
}

impl View for Photo {
    type V = PhotoV;

    open spec fn view(&self) -> PhotoV {
        PhotoV {
            id: self.id,
            file_stem: self.file_stem@,
            title: self.title.deep_view(),
            taken_timestamp: self.taken_timestamp.deep_view(),
            height_offset: self.height_offset,
            tags: self.tags.deep_view(),
            sources: self.sources.deep_view(),
            published: self.published,
        }
    }
}

impl DeepView for Photo {
    type V = PhotoV;

    open spec fn deep_view(&self) -> PhotoV {
        self@
    }
}

/// Variants in display order: widths never increase from left to right.
pub open spec fn sources_sorted_desc(s: Seq<SourceV>) -> bool {
    forall|i: int, j: int| 0 <= i < j < s.len() ==> s[i].width >= s[j].width
}

/// `d` is the display form of the stored record `p`: every scalar field is
/// the same, and the variants are the same collection re-sorted widest
/// first. Variants of equal width carry no defined relative order.
pub open spec fn is_display_of(d: PhotoV, p: PhotoV) -> bool {
    &&& d.id == p.id
    &&& d.file_stem == p.file_stem
    &&& d.title == p.title
    &&& d.taken_timestamp == p.taken_timestamp
    &&& d.height_offset == p.height_offset
    &&& d.tags == p.tags
    &&& d.published == p.published
    &&& d.sources.to_multiset() == p.sources.to_multiset()
    &&& sources_sorted_desc(d.sources)
}

/// Sort a variant list widest first. The result holds exactly the given
/// variants; among equal widths the order is unspecified.
pub fn sort_sources_width_desc(v: Vec<Source>) -> (r: Vec<Source>)
    ensures
        sources_sorted_desc(r.deep_view()),
        r.deep_view().to_multiset() == v.deep_view().to_multiset(),
{
    broadcast use vstd::seq_lib::group_to_multiset_ensures;

    let ghost total = v.deep_view().to_multiset();
    let mut rest = v;
    let mut out: Vec<Source> = Vec::new();
    while rest.len() > 0
        invariant
            out.deep_view().to_multiset().add(rest.deep_view().to_multiset()) =~= total,
            sources_sorted_desc(out.deep_view()),
            forall|i: int, j: int|
                0 <= i < out.len() && 0 <= j < rest.len()
                    ==> out.deep_view()[i].width >= rest.deep_view()[j].width,
        decreases rest.len(),
    {
        let mut best: usize = 0;
        let mut k: usize = 1;
        while k < rest.len()
            invariant
                0 < rest.len(),
                best < k,
                k <= rest.len(),
                forall|j: int| 0 <= j < k ==> rest.deep_view()[best as int].width
                    >= rest.deep_view()[j].width,
            decreases rest.len() - k,
        {
            if rest[k].width > rest[best].width {
                best = k;
            }
            k += 1;
        }
        let ghost old_out = out.deep_view();
        let ghost old_rest = rest.deep_view();
        let x = rest.remove(best);
        proof {
            broadcast use vstd::multiset::group_multiset_axioms;

            assert(x.deep_view() == old_rest[best as int]);
            assert(rest.deep_view() =~= old_rest.remove(best as int));
            vstd::seq_lib::to_multiset_remove(old_rest, best as int);
            vstd::seq_lib::to_multiset_contains(old_rest, x.deep_view());
            assert(old_rest.contains(old_rest[best as int]));
            assert(old_rest.to_multiset().count(x.deep_view()) > 0);
        }
        out.push(x);
        proof {
            broadcast use vstd::multiset::group_multiset_axioms;

            assert(out.deep_view() =~= old_out.push(x.deep_view()));
            vstd::seq_lib::to_multiset_build(old_out, x.deep_view());
            assert(out.deep_view().to_multiset()
                =~= old_out.to_multiset().insert(x.deep_view()));
            assert(rest.deep_view().to_multiset()
                =~= old_rest.to_multiset().remove(x.deep_view()));
            assert forall|e: SourceV|
                out.deep_view().to_multiset().add(rest.deep_view().to_multiset()).count(e)
                    == total.count(e) by {
                assert(old_rest.to_multiset().count(x.deep_view()) > 0);
                assert(old_out.to_multiset().add(old_rest.to_multiset()).count(e)
                    == total.count(e));
            }
            assert(out.deep_view().to_multiset().add(rest.deep_view().to_multiset())
                =~= total);
        }
    }
    out
}

impl Photo {
    /// The display form of this record: every field as stored, with the
    /// variant list re-sorted widest first.
    pub fn display_order(&self) -> (r: Photo)
        ensures
            is_display_of(r@, self@),
    {
        Photo {
            id: self.id,
            file_stem: self.file_stem.clone(),
            title: clone_opt_string(&self.title),
            taken_timestamp: clone_opt_string(&self.taken_timestamp),
            height_offset: self.height_offset,
            tags: clone_string_vec(&self.tags),
            sources: sort_sources_width_desc(clone_source_vec(&self.sources)),
            published: self.published,
        }
    }

    /// An exact copy of this record, variants in their stored order.
    pub fn clone_photo(&self) -> (r: Photo)
        ensures
            r@ == self@,
    {
        Photo {
            id: self.id,
            file_stem: self.file_stem.clone(),
            title: clone_opt_string(&self.title),
            taken_timestamp: clone_opt_string(&self.taken_timestamp),
            height_offset: self.height_offset,
            tags: clone_string_vec(&self.tags),
            sources: clone_source_vec(&self.sources),
            published: self.published,
        }
    }
}

} // verus!
