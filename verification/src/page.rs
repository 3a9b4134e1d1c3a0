//! The pagination cursor: a single optional signed integer carries both a
//! boundary id and a fetch direction. `None` means the newest page;
//! a non-negative value `v` means the page strictly below id `v` (older
//! items, fetched descending); a negative value `v` means the page strictly
//! above id `-v - 1` (newer items, fetched ascending).

use vstd::prelude::*;

verus! {

/// Where a page of photos starts, and in which direction it extends.
#[derive(Clone, Copy, Debug, PartialEq, Eq, Structural)]
pub enum Page {
    /// No anchor: start at the newest photo.
    Latest,
    /// Photos whose id is strictly below the given id (older photos).
    Before(u32),
    /// Photos whose id is strictly above the given id (newer photos).
    After(u32),
}

/// Which photos a query may see: everything, or only published ones.
#[derive(Clone, Copy, Debug, PartialEq, Eq, Structural)]
pub enum Published {
    All,
    OnlyPublished,
}

impl Published {
    /// The visibility a request gets from the outcome of a secret-key
    /// check: only a key that was present and valid sees unpublished
    /// photos; an invalid or missing key sees published ones only.
    pub fn from_key_validation(validation: Option<bool>) -> (r: Published)
        ensures
            r == (if validation == Option::<bool>::Some(true) {
                Published::All
            } else {
                Published::OnlyPublished
            }),
    {
        match validation {
            Option::Some(true) => Published::All,
            Option::Some(false) => Published::OnlyPublished,
            Option::None => Published::OnlyPublished,
        }
    }
}

/// What `decode` yields for a given external offset value.
pub open spec fn decode_spec(offset: Option<i32>) -> Page {
    match offset {
        Option::None => Page::Latest,
        Option::Some(v) => if v >= 0 {
            Page::Before(v as u32)
        } else {
            Page::After((-(v as int) - 1) as u32)
        },
    }
}

/// What `Page::encode` yields for a given anchor.
pub open spec fn encode_spec(page: Page) -> Option<i32> {
    match page {
        Page::Latest => Option::None,
        Page::Before(id) => Option::Some(id as i32),
        Page::After(id) => Option::Some((-(id as int) - 1) as i32),
    }
}

/// An anchor is encodable when its boundary id fits the non-negative half
/// of `i32`; ids this large never come out of the store, whose ids are
/// assigned from a signed 32-bit counter.
pub open spec fn encodable(page: Page) -> bool {
    match page {
        Page::Latest => true,
        Page::Before(id) => id <= i32::MAX as u32,
        Page::After(id) => id <= i32::MAX as u32,
    }
}

impl Page {
    /// The database-level sort direction a fetch anchored here uses:
    /// `Before` and `Latest` scan downward from the boundary, `After`
    /// scans upward, so that the page holds the *nearest* rows on the
    /// wanted side of the boundary.
    pub fn order_direction(&self) -> (r: &'static str)
        ensures
            r@ == (if self.fetches_descending() {
                "DESC"@
            } else {
                "ASC"@
            }),
    {
        match self {
            Page::Latest => "DESC",
            Page::Before(_) => "DESC",
            Page::After(_) => "ASC",
        }
    }

    /// Whether the database-level fetch runs in descending id order.
    pub open spec fn fetches_descending(self) -> bool {
        !(self is After)
    }

    /// The inverse of decoding: the external offset that names this anchor
    /// in a navigation link.
    pub fn encode(&self) -> (r: Option<i32>)
        requires
            encodable(*self),
        ensures
            r == encode_spec(*self),
            decode_spec(r) == *self,
    {
        match self {
            Page::Latest => Option::None,
            Page::Before(id) => Option::Some(*id as i32),
            Page::After(id) => Option::Some((-(*id as i64) - 1) as i32),
        }
    }
}

impl From<Option<i32>> for Page {
    /// Decode the external cursor: `None` is the newest page, a
    /// non-negative offset anchors before that id, a negative offset `v`
    /// anchors after id `-v - 1`.
    fn from(page_id: Option<i32>) -> (r: Self)
        ensures
            r == decode_spec(page_id),
    {
        match page_id {
            Option::None => Page::Latest,
            Option::Some(photo_id) => if photo_id >= 0 {
                Page::Before(photo_id as u32)
            } else {
                Page::After((-(photo_id as i64) - 1) as u32)
            },
        }
    }
}

impl vstd::std_specs::convert::FromSpecImpl<Option<i32>> for Page {
    open spec fn obeys_from_spec() -> bool {
        true
    }

    open spec fn from_spec(offset: Option<i32>) -> Page {
        decode_spec(offset)
    }
}

/// Round trip: decoding an encoded anchor yields the anchor back, for
/// every boundary id in the encodable range.
pub proof fn lemma_cursor_round_trip(id: u32)
    requires
        id <= i32::MAX as u32,
    ensures
        decode_spec(encode_spec(Page::Before(id))) == Page::Before(id),
        decode_spec(encode_spec(Page::After(id))) == Page::After(id),
        decode_spec(encode_spec(Page::Latest)) == Page::Latest,
{
}

/// Sign partition: every offset decodes, and the sign alone picks the
/// direction: `None` is `Latest`, a non-negative value is `Before`, a
/// negative value is `After`.
pub proof fn lemma_sign_partition(v: i32)
    ensures
        decode_spec(Option::Some(v)) is Before <==> v >= 0,
        decode_spec(Option::Some(v)) is After <==> v < 0,
        decode_spec(Option::None) == Page::Latest,
        v >= 0 ==> decode_spec(Option::Some(v)) == Page::Before(v as u32),
        v < 0 ==> decode_spec(Option::Some(v)) == Page::After((-(v as int) - 1) as u32),
{
}

} // verus!
