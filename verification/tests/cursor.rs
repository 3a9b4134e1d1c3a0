//! The cursor codec: decoding external offsets into page anchors and
//! encoding anchors back into navigation offsets.

use rusty_peanuts::page::{Page, Published};

#[test]
fn decode_none_is_latest() {
    assert_eq!(Page::from(None), Page::Latest);
}

#[test]
fn decode_non_negative_is_before() {
    assert_eq!(Page::from(Some(0)), Page::Before(0));
    assert_eq!(Page::from(Some(5)), Page::Before(5));
    assert_eq!(Page::from(Some(i32::MAX)), Page::Before(2147483647));
}

#[test]
fn decode_negative_is_after() {
    assert_eq!(Page::from(Some(-1)), Page::After(0));
    assert_eq!(Page::from(Some(-6)), Page::After(5));
    assert_eq!(Page::from(Some(i32::MIN)), Page::After(2147483647));
}

#[test]
fn encode_inverts_decode() {
    assert_eq!(Page::Latest.encode(), None);
    assert_eq!(Page::Before(7).encode(), Some(7));
    assert_eq!(Page::After(7).encode(), Some(-8));
    assert_eq!(Page::After(0).encode(), Some(-1));
}

#[test]
fn round_trip_concrete() {
    for id in [0u32, 1, 2, 41, 2147483646] {
        assert_eq!(Page::from(Page::Before(id).encode()), Page::Before(id));
        assert_eq!(Page::from(Page::After(id).encode()), Page::After(id));
    }
}

#[test]
fn order_direction_follows_anchor() {
    assert_eq!(Page::Latest.order_direction(), "DESC");
    assert_eq!(Page::Before(3).order_direction(), "DESC");
    assert_eq!(Page::After(3).order_direction(), "ASC");
}

#[test]
fn visibility_from_key_validation() {
    assert_eq!(Published::from_key_validation(Some(true)), Published::All);
    assert_eq!(
        Published::from_key_validation(Some(false)),
        Published::OnlyPublished
    );
    assert_eq!(Published::from_key_validation(None), Published::OnlyPublished);
}
