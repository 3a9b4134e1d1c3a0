//! Creating photos, diffing updates, and the single-column state setters.

use rusty_peanuts::api::{PhotoPayload, Source};
use rusty_peanuts::catalog::{Catalog, CreateError};
use rusty_peanuts::page::Published;
use rusty_peanuts::update::diff_photo;

fn source(width: u32, height: u32, url: &str) -> Source {
    Source {
        width,
        height,
        url: url.to_string(),
    }
}

fn payload(stem: &str) -> PhotoPayload {
    PhotoPayload {
        file_stem: stem.to_string(),
        title: Some("a title".to_string()),
        taken_timestamp: Some("2019-06-01T12:00:00".to_string()),
        tags: vec!["sea".to_string()],
        sources: Some(vec![source(800, 600, "u-large"), source(400, 300, "u-small")]),
    }
}

#[test]
fn create_assigns_ids_in_order() {
    let mut c = Catalog::new();
    let (id1, created1) = c.create_photo(&payload("one")).unwrap();
    let (id2, created2) = c.create_photo(&payload("two")).unwrap();
    assert_eq!(id1, 1);
    assert_eq!(id2, 2);
    assert_eq!(created1.file_stem, "one");
    assert_eq!(created2.file_stem, "two");
    // a created photo starts unpublished, with a zero layout hint
    assert!(!created1.published);
    assert_eq!(created1.height_offset, 0);
}

#[test]
fn create_without_sources_is_invalid() {
    let mut c = Catalog::new();
    let mut p = payload("one");
    p.sources = None;
    match c.create_photo(&p) {
        Err(CreateError::Validation) => {}
        other => panic!("expected a validation error, got {other:?}"),
    }
    assert_eq!(c.len(), 0);
}

#[test]
fn duplicate_file_stem_conflicts() {
    // a second insert with the same file stem returns the first record
    // and stores nothing
    let mut c = Catalog::new();
    let (id, _) = c.create_photo(&payload("sunset")).unwrap();
    assert_eq!(id, 1);
    let mut again = payload("sunset");
    again.title = Some("another".to_string());
    match c.create_photo(&again) {
        Err(CreateError::Conflict(existing)) => {
            assert_eq!(existing.id, 1);
            assert_eq!(existing.file_stem, "sunset");
            assert_eq!(existing.title.as_deref(), Some("a title"));
        }
        other => panic!("expected a conflict, got {other:?}"),
    }
    assert_eq!(c.len(), 1);
}

#[test]
fn identical_payload_changes_nothing() {
    let mut c = Catalog::new();
    c.create_photo(&payload("one")).unwrap();
    let before = c
        .get_photo_by_file_stem("one", Published::All)
        .unwrap();
    let mut same = payload("one");
    // the stored display order of the sources is width-descending,
    // which this payload's list already is
    same.sources = Some(before.sources.clone());

    let diff = diff_photo(&before, &same);
    assert!(diff.is_empty());
    assert_eq!(diff.statement_count(), 0);

    let outcome = c.update_photo_by_file_stem("one", &same).unwrap();
    assert!(!outcome.changed);
    assert_eq!(outcome.previous, outcome.current);
    let after = c.get_photo_by_file_stem("one", Published::All).unwrap();
    assert_eq!(after, before);
}

#[test]
fn title_only_change_is_minimal() {
    let mut c = Catalog::new();
    c.create_photo(&payload("one")).unwrap();
    let before = c.get_photo_by_file_stem("one", Published::All).unwrap();
    let mut changed = payload("one");
    changed.title = Some("renamed".to_string());
    changed.sources = Some(before.sources.clone());

    let diff = diff_photo(&before, &changed);
    assert_eq!(diff.statement_count(), 1);
    assert!(diff.title.is_some());
    assert!(diff.taken_timestamp.is_none());
    assert!(diff.tags.is_none());
    assert!(diff.sources.is_none());

    let outcome = c.update_photo_by_file_stem("one", &changed).unwrap();
    assert!(outcome.changed);
    assert_eq!(outcome.current.title.as_deref(), Some("renamed"));
    assert_eq!(outcome.current.tags, before.tags);
    assert_eq!(outcome.current.sources, before.sources);
    assert_eq!(outcome.current.taken_timestamp, before.taken_timestamp);
}

#[test]
fn absent_sources_leave_variants_unchanged() {
    let mut c = Catalog::new();
    c.create_photo(&payload("one")).unwrap();
    let before = c.get_photo_by_file_stem("one", Published::All).unwrap();
    let mut p = payload("one");
    p.title = Some("renamed".to_string());
    p.sources = None;
    let outcome = c.update_photo_by_file_stem("one", &p).unwrap();
    assert!(outcome.changed);
    assert_eq!(outcome.current.sources, before.sources);
}

#[test]
fn changed_sources_are_replaced_whole() {
    let mut c = Catalog::new();
    c.create_photo(&payload("one")).unwrap();
    let mut p = payload("one");
    p.sources = Some(vec![source(1600, 1200, "u-new")]);
    let outcome = c.update_photo_by_file_stem("one", &p).unwrap();
    assert!(outcome.changed);
    assert_eq!(outcome.current.sources, vec![source(1600, 1200, "u-new")]);
}

#[test]
fn sources_compare_against_display_order() {
    // the stored variant order is not what the diff compares against:
    // the diff sees the display (width-descending) order, so a payload
    // repeating the raw stored order still counts as a change
    let mut c = Catalog::new();
    let mut p = payload("one");
    p.sources = Some(vec![source(400, 300, "u-small"), source(800, 600, "u-large")]);
    c.create_photo(&p).unwrap();
    let outcome = c.update_photo_by_file_stem("one", &p).unwrap();
    assert!(outcome.changed);
    // the payload list is stored verbatim, and displayed re-sorted
    assert_eq!(
        outcome.current.sources,
        vec![source(800, 600, "u-large"), source(400, 300, "u-small")]
    );
}

#[test]
fn update_of_missing_stem_is_empty() {
    let mut c = Catalog::new();
    assert!(c.update_photo_by_file_stem("nope", &payload("nope")).is_none());
}

#[test]
fn set_published_state() {
    let mut c = Catalog::new();
    let (id, _) = c.create_photo(&payload("one")).unwrap();
    assert!(c
        .get_photo_by_id(id, Published::OnlyPublished)
        .is_none());
    assert!(c.update_photo_published(id, true));
    let (p, _, _) = c.get_photo_by_id(id, Published::OnlyPublished).unwrap();
    assert!(p.published);
    assert!(!c.update_photo_published(99, true));
}

#[test]
fn set_height_offset() {
    let mut c = Catalog::new();
    let (id, _) = c.create_photo(&payload("one")).unwrap();
    assert!(c.update_photo_height_offset(id, 7));
    let (p, _, _) = c.get_photo_by_id(id, Published::All).unwrap();
    assert_eq!(p.height_offset, 7);
    assert!(!c.update_photo_height_offset(99, 7));
}
