//! The field-level diff between a stored photo (in display form) and an
//! incoming payload. Each field that differs yields exactly one targeted
//! update; a field that is equal yields none. An absent `sources` in the
//! payload means "leave the stored variants unchanged".

use vstd::prelude::*;

use crate::api::{clone_source_vec, PhotoPayload, PayloadV, Source, SourceV};
use crate::photos::{Photo, PhotoV};
use crate::strutil::{clone_opt_string, clone_string_vec, opt_string_eq, string_vec_eq};
use crate::api::source_vec_eq;

verus! {

/// The pending update statements of one diffed photo: for each field,
/// the new value to write, or nothing when the field is unchanged.
#[derive(Debug)]
pub struct PhotoDiff {
    pub taken_timestamp: Option<Option<String>>,
    pub title: Option<Option<String>>,
    pub tags: Option<Vec<String>>,
    pub sources: Option<Vec<Source>>,
}

/// The mathematical shape of a [`PhotoDiff`].
pub ghost struct PhotoDiffV {
    pub taken_timestamp: Option<Option<Seq<char>>>,
    pub title: Option<Option<Seq<char>>>,
    pub tags: Option<Seq<Seq<char>>>,
    pub sources: Option<Seq<SourceV>>,
}

impl View for PhotoDiff {
    type V = PhotoDiffV;

    open spec fn view(&self) -> PhotoDiffV {
        PhotoDiffV {
            taken_timestamp: self.taken_timestamp.deep_view(),
            title: self.title.deep_view(),
            tags: self.tags.deep_view(),
            sources: self.sources.deep_view(),
        }
    }
}

/// The diff of a stored photo against a payload: a field is written
/// exactly when the payload's value differs from the photo's, and the
/// variant list only when the payload specifies one that differs.
pub open spec fn diff_of(oldp: PhotoV, pl: PayloadV) -> PhotoDiffV {
    PhotoDiffV {
        taken_timestamp: if pl.taken_timestamp != oldp.taken_timestamp {
            Option::Some(pl.taken_timestamp)
        } else {
            Option::None
        },
        title: if pl.title != oldp.title {
            Option::Some(pl.title)
        } else {
            Option::None
        },
        tags: if pl.tags != oldp.tags {
            Option::Some(pl.tags)
        } else {
            Option::None
        },
        sources: match pl.sources {
            Option::Some(s) => if s != oldp.sources {
                Option::Some(s)
            } else {
                Option::None
            },
            Option::None => Option::None,
        },
    }
}

/// How many update statements a diff carries.
pub open spec fn update_count(d: PhotoDiffV) -> int {
    (if d.taken_timestamp is Some {
        1int
    } else {
        0int
    }) + (if d.title is Some {
        1int
    } else {
        0int
    }) + (if d.tags is Some {
        1int
    } else {
        0int
    }) + (if d.sources is Some {
        1int
    } else {
        0int
    })
}

/// Compare a stored photo, in display form, against a payload, field by
/// field, and collect one targeted update per differing field.
pub fn diff_photo(old_photo: &Photo, payload: &PhotoPayload) -> (d: PhotoDiff)
    ensures
        d@ == diff_of(old_photo@, payload@),
{
    let taken_timestamp = if !opt_string_eq(&payload.taken_timestamp, &old_photo.taken_timestamp) {
        Option::Some(clone_opt_string(&payload.taken_timestamp))
    } else {
        Option::None
    };
    let title = if !opt_string_eq(&payload.title, &old_photo.title) {
        Option::Some(clone_opt_string(&payload.title))
    } else {
        Option::None
    };
    let tags = if !string_vec_eq(&payload.tags, &old_photo.tags) {
        Option::Some(clone_string_vec(&payload.tags))
    } else {
        Option::None
    };
    let sources = match &payload.sources {
        Option::Some(s) => if !source_vec_eq(s, &old_photo.sources) {
            Option::Some(clone_source_vec(s))
        } else {
            Option::None
        },
        Option::None => Option::None,
    };
    PhotoDiff { taken_timestamp, title, tags, sources }
}

impl PhotoDiff {
    /// How many update statements this diff will issue.
    pub fn statement_count(&self) -> (n: usize)
        ensures
            n == update_count(self@),
    {
        let mut n: usize = 0;
        if self.taken_timestamp.is_some() {
            n += 1;
        }
        if self.title.is_some() {
            n += 1;
        }
        if self.tags.is_some() {
            n += 1;
        }
        if self.sources.is_some() {
            n += 1;
        }
        n
    }

    /// Whether this diff issues no statement at all.
    pub fn is_empty(&self) -> (b: bool)
        ensures
            b == (update_count(self@) == 0),
    {
        self.taken_timestamp.is_none() && self.title.is_none() && self.tags.is_none()
            && self.sources.is_none()
    }
}

/// Diff idempotence: a payload that agrees with the photo in every field
/// (its variant list either absent or equal to the display list) issues
/// no update statement at all.
pub proof fn lemma_diff_idempotent(oldp: PhotoV, pl: PayloadV)
    requires
        pl.title == oldp.title,
        pl.taken_timestamp == oldp.taken_timestamp,
        pl.tags == oldp.tags,
        pl.sources is None || pl.sources == Option::Some(oldp.sources),
    ensures
        update_count(diff_of(oldp, pl)) == 0,
{
}

/// Diff minimality: a payload that differs only in the title issues
/// exactly one update statement, the title's; timestamp, tags and
/// variants stay untouched.
pub proof fn lemma_diff_minimal_title(oldp: PhotoV, pl: PayloadV)
    requires
        pl.title != oldp.title,
        pl.taken_timestamp == oldp.taken_timestamp,
        pl.tags == oldp.tags,
        pl.sources is None || pl.sources == Option::Some(oldp.sources),
    ensures
        update_count(diff_of(oldp, pl)) == 1,
        diff_of(oldp, pl).title == Option::Some(pl.title),
        diff_of(oldp, pl).taken_timestamp is None,
        diff_of(oldp, pl).tags is None,
        diff_of(oldp, pl).sources is None,
{
}

} // verus!
