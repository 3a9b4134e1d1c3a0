//! The gallery view: limit clamping, cursor decoding, navigation
//! offsets, and variant size selection.

use rusty_peanuts::catalog::Catalog;
use rusty_peanuts::config::select_limit;
use rusty_peanuts::page::Published;
use rusty_peanuts::photos::Photo;
use rusty_peanuts::variants::variant_sizes;

fn photo(stem: &str, tags: &[&str], published: bool) -> Photo {
    Photo {
        id: 0,
        file_stem: stem.to_string(),
        title: None,
        taken_timestamp: None,
        height_offset: 0,
        tags: tags.iter().map(|t| t.to_string()).collect(),
        sources: Vec::new(),
        published,
    }
}

fn catalog_of_five() -> Catalog {
    let mut c = Catalog::new();
    for i in 1..=5 {
        let stem = format!("photo-{i}");
        c.insert_photo(&photo(&stem, &["sea"], true));
    }
    c
}

#[test]
fn limit_clamping() {
    // a requested limit up to and including the maximum wins; an absent
    // or too-large request falls back to the default
    assert_eq!(select_limit(Some(5), 10, 100), 5);
    assert_eq!(select_limit(Some(99), 10, 100), 99);
    assert_eq!(select_limit(Some(100), 10, 100), 100);
    assert_eq!(select_limit(Some(101), 10, 100), 10);
    assert_eq!(select_limit(Some(200), 10, 100), 10);
    assert_eq!(select_limit(None, 10, 100), 10);
}

#[test]
fn first_gallery_page() {
    let c = catalog_of_five();
    let g = c.gallery(Some(2), None, None, Published::OnlyPublished, 10, 100);
    assert_eq!(g.photos.iter().map(|p| p.id).collect::<Vec<_>>(), vec![5, 4]);
    assert_eq!(g.newer_offset, None);
    // the older link anchors strictly before id 4
    assert_eq!(g.older_offset, Some(4));
    assert_eq!(g.oldest_offset, -1);
    assert_eq!(g.tags, vec![("sea".to_string(), 5)]);
}

#[test]
fn middle_gallery_page_encodes_both_directions() {
    let c = catalog_of_five();
    let g = c.gallery(Some(2), Some(4), None, Published::OnlyPublished, 10, 100);
    assert_eq!(g.photos.iter().map(|p| p.id).collect::<Vec<_>>(), vec![3, 2]);
    // the newer link anchors strictly after id 3: offset -3 - 1
    assert_eq!(g.newer_offset, Some(-4));
    assert_eq!(g.older_offset, Some(2));
}

#[test]
fn oldest_gallery_page() {
    let c = catalog_of_five();
    // the fixed sentinel -1 anchors after id 0, i.e. at the oldest page
    let g = c.gallery(Some(2), Some(-1), None, Published::OnlyPublished, 10, 100);
    assert_eq!(g.photos.iter().map(|p| p.id).collect::<Vec<_>>(), vec![2, 1]);
    assert_eq!(g.newer_offset, Some(-3));
    assert_eq!(g.older_offset, None);
}

#[test]
fn gallery_with_tag_filter() {
    let mut c = Catalog::new();
    c.insert_photo(&photo("a", &["sea"], true));
    c.insert_photo(&photo("b", &["forest"], true));
    let g = c.gallery(
        None,
        None,
        Some("sea".to_string()),
        Published::All,
        10,
        100,
    );
    assert_eq!(g.photos.iter().map(|p| p.id).collect::<Vec<_>>(), vec![1]);
    assert_eq!(g.tags, vec![("sea".to_string(), 1)]);
}

#[test]
fn gallery_default_limit_applies() {
    let c = catalog_of_five();
    let g = c.gallery(None, None, None, Published::All, 3, 100);
    assert_eq!(g.photos.len(), 3);
}

#[test]
fn variant_sizes_fit_the_longer_dimension() {
    assert_eq!(
        variant_sizes(2000, 1000),
        vec![
            1800, 1700, 1600, 1500, 1400, 1300, 1200, 1100, 1000, 900, 800, 700, 600, 500,
            400, 300
        ]
    );
    assert_eq!(variant_sizes(350, 100), vec![300]);
    assert_eq!(variant_sizes(100, 350), vec![300]);
    assert_eq!(variant_sizes(100, 100), Vec::<u32>::new());
    assert_eq!(variant_sizes(1000, 650), vec![1000, 900, 800, 700, 600, 500, 400, 300]);
}
