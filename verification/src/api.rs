//! The external data shapes: a rendered variant of a photo, and the
//! partially-specified payload a create or update request carries.

use vstd::prelude::*;

verus! {

/// One rendered variant of a photo: its pixel dimensions and where the
/// rendered file lives.
#[derive(Clone, Debug, PartialEq)]
pub struct Source {
    pub width: u32,
    pub height: u32,
    pub url: String,
}

/// The mathematical shape of a [`Source`].
pub ghost struct SourceV {
    pub width: u32,
    pub height: u32,
    pub url: Seq<char>,
}

impl View for Source {
    type V = SourceV;

    open spec fn view(&self) -> SourceV {
        SourceV { width: self.width, height: self.height, url: self.url@ }
    }
}

impl DeepView for Source {
    type V = SourceV;

    open spec fn deep_view(&self) -> SourceV {
        self@
    }
}

/// A create/update request body: everything a caller may set on a photo.
/// `sources` is optional; on an update its absence means "leave the stored
/// variants unchanged", and on a create its absence is invalid.
#[derive(Debug)]
pub struct PhotoPayload {
    pub file_stem: String,
    pub title: Option<String>,
    pub taken_timestamp: Option<String>,
    pub tags: Vec<String>,
    pub sources: Option<Vec<Source>>,
}

/// The mathematical shape of a [`PhotoPayload`].
pub ghost struct PayloadV {
    pub file_stem: Seq<char>,
    pub title: Option<Seq<char>>,
    pub taken_timestamp: Option<Seq<char>>,
    pub tags: Seq<Seq<char>>,
    pub sources: Option<Seq<SourceV>>,
}

impl View for PhotoPayload {
    type V = PayloadV;

    open spec fn view(&self) -> PayloadV {
        PayloadV {
            file_stem: self.file_stem@,
            title: self.title.deep_view(),
            taken_timestamp: self.taken_timestamp.deep_view(),
            tags: self.tags.deep_view(),
            sources: self.sources.deep_view(),
        }
    }
}

/// An exact copy of one variant.
pub fn clone_source(s: &Source) -> (r: Source)
    ensures
        r == *s,
{
    let r = Source { width: s.width, height: s.height, url: s.url.clone() };
    r
}

/// An exact copy of a variant list.
pub fn clone_source_vec(v: &Vec<Source>) -> (r: Vec<Source>)
    ensures
        r@ == v@,
{
    let mut r: Vec<Source> = Vec::new();
    let mut i: usize = 0;
    while i < v.len()
        invariant
            i <= v.len(),
            r@ =~= v@.take(i as int),
        decreases v.len() - i,
    {
        r.push(clone_source(&v[i]));
        i += 1;
    }
    proof {
        assert(v@.take(v@.len() as int) =~= v@);
    }
    r
}

/// Equality of two variants, field for field.
pub fn source_eq(a: &Source, b: &Source) -> (r: bool)
    ensures
        r == (a.deep_view() == b.deep_view()),
{
    a.width == b.width && a.height == b.height && a.url == b.url
}

/// Equality of two variant lists, element for element.
pub fn source_vec_eq(a: &Vec<Source>, b: &Vec<Source>) -> (r: bool)
    ensures
        r == (a.deep_view() == b.deep_view()),
{
    if a.len() != b.len() {
        proof {
            assert(a.deep_view().len() != b.deep_view().len());
        }
        return false;
    }
    let mut i: usize = 0;
    while i < a.len()
        invariant
            i <= a.len(),
            a.len() == b.len(),
            forall|j: int| 0 <= j < i ==> a.deep_view()[j] == b.deep_view()[j],
        decreases a.len() - i,
    {
        if !source_eq(&a[i], &b[i]) {
            proof {
                assert(a.deep_view()[i as int] != b.deep_view()[i as int]);
            }
            return false;
        }
        i += 1;
    }
    proof {
        assert(a.deep_view() =~= b.deep_view());
    }
    true
}

} // verus!
