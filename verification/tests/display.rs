//! Single-photo lookups, neighbor ids, and the width-descending display
//! order of a photo's variants.

use rusty_peanuts::api::Source;
use rusty_peanuts::catalog::Catalog;
use rusty_peanuts::page::Published;
use rusty_peanuts::photos::Photo;

fn source(width: u32, height: u32, url: &str) -> Source {
    Source {
        width,
        height,
        url: url.to_string(),
    }
}

fn photo(stem: &str, sources: Vec<Source>, published: bool) -> Photo {
    Photo {
        id: 0,
        file_stem: stem.to_string(),
        title: Some(format!("title of {stem}")),
        taken_timestamp: None,
        height_offset: 0,
        tags: Vec::new(),
        sources,
        published,
    }
}

#[test]
fn sources_come_back_widest_first() {
    // stored in arbitrary insertion order, displayed width-descending
    let mut c = Catalog::new();
    let stored = vec![source(400, 300, "url_b"), source(800, 600, "url_a")];
    let id = c.insert_photo(&photo("p", stored, true));
    let (p, _, _) = c.get_photo_by_id(id, Published::All).unwrap();
    assert_eq!(
        p.sources,
        vec![source(800, 600, "url_a"), source(400, 300, "url_b")]
    );
}

#[test]
fn sources_already_ordered_stay_ordered() {
    let mut c = Catalog::new();
    let stored = vec![source(800, 600, "url_a"), source(400, 300, "url_b")];
    let id = c.insert_photo(&photo("p", stored.clone(), true));
    let (p, _, _) = c.get_photo_by_id(id, Published::All).unwrap();
    assert_eq!(p.sources, stored);
}

#[test]
fn lookup_by_id_yields_neighbors() {
    let mut c = Catalog::new();
    for stem in ["a", "b", "c"] {
        c.insert_photo(&photo(stem, Vec::new(), true));
    }
    let (p, newer, older) = c.get_photo_by_id(2, Published::All).unwrap();
    assert_eq!(p.id, 2);
    assert_eq!(newer, Some(3));
    assert_eq!(older, Some(1));
    let (_, newer, older) = c.get_photo_by_id(3, Published::All).unwrap();
    assert_eq!(newer, None);
    assert_eq!(older, Some(2));
}

#[test]
fn neighbors_skip_unpublished() {
    let mut c = Catalog::new();
    c.insert_photo(&photo("a", Vec::new(), true));
    c.insert_photo(&photo("b", Vec::new(), false));
    c.insert_photo(&photo("c", Vec::new(), true));
    c.insert_photo(&photo("d", Vec::new(), true));
    let (_, newer, older) = c.get_photo_by_id(3, Published::OnlyPublished).unwrap();
    assert_eq!(newer, Some(4));
    assert_eq!(older, Some(1));
}

#[test]
fn lookup_by_id_respects_visibility() {
    let mut c = Catalog::new();
    c.insert_photo(&photo("a", Vec::new(), false));
    assert!(c.get_photo_by_id(1, Published::OnlyPublished).is_none());
    assert!(c.get_photo_by_id(1, Published::All).is_some());
    assert!(c.get_photo_by_id(2, Published::All).is_none());
}

#[test]
fn lookup_by_file_stem() {
    let mut c = Catalog::new();
    c.insert_photo(&photo("first", Vec::new(), true));
    c.insert_photo(&photo("second", Vec::new(), false));
    let p = c.get_photo_by_file_stem("first", Published::All).unwrap();
    assert_eq!(p.id, 1);
    assert_eq!(p.title.as_deref(), Some("title of first"));
    assert!(c
        .get_photo_by_file_stem("second", Published::OnlyPublished)
        .is_none());
    assert!(c
        .get_photo_by_file_stem("second", Published::All)
        .is_some());
    assert!(c.get_photo_by_file_stem("third", Published::All).is_none());
}

#[test]
fn display_order_method_sorts_a_copy() {
    let p = photo(
        "p",
        vec![
            source(400, 300, "m"),
            source(1600, 1200, "l"),
            source(800, 600, "s"),
        ],
        true,
    );
    let d = p.display_order();
    let widths: Vec<u32> = d.sources.iter().map(|s| s.width).collect();
    assert_eq!(widths, vec![1600, 800, 400]);
    // the stored order is untouched
    assert_eq!(p.sources[0].width, 400);
}
