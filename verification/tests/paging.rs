//! Page queries and the pagination probes against an in-memory catalog.

use rusty_peanuts::catalog::Catalog;
use rusty_peanuts::page::{Page, Published};
use rusty_peanuts::photos::Photo;
use rusty_peanuts::query::FilterSpec;

fn photo(stem: &str, tags: &[&str], published: bool) -> Photo {
    Photo {
        id: 0,
        file_stem: stem.to_string(),
        title: None,
        taken_timestamp: None,
        height_offset: 0,
        tags: tags.iter().map(|t| t.to_string()).collect(),
        sources: Vec::new(),
        published,
    }
}

fn filter(visibility: Published) -> FilterSpec {
    FilterSpec {
        tagged: None,
        visibility,
    }
}

fn catalog_of_five() -> Catalog {
    let mut c = Catalog::new();
    for i in 1..=5 {
        let stem = format!("photo-{i}");
        let id = c.insert_photo(&photo(&stem, &[], true));
        assert_eq!(id, i);
    }
    c
}

fn page_ids(c: &Catalog, limit: i64, page: Page, f: &FilterSpec) -> Vec<i32> {
    c.get_photo_page(limit, page, f).iter().map(|p| p.id).collect()
}

#[test]
fn latest_page_is_newest_first() {
    let c = catalog_of_five();
    let f = filter(Published::OnlyPublished);
    assert_eq!(page_ids(&c, 2, Page::Latest, &f), vec![5, 4]);
    assert_eq!(page_ids(&c, 10, Page::Latest, &f), vec![5, 4, 3, 2, 1]);
}

#[test]
fn page_never_exceeds_limit() {
    let c = catalog_of_five();
    let f = filter(Published::All);
    for limit in 0..7 {
        let page = c.get_photo_page(limit, Page::Latest, &f);
        assert!(page.len() as i64 <= limit);
    }
    assert_eq!(page_ids(&c, 0, Page::Latest, &f), Vec::<i32>::new());
}

#[test]
fn before_anchor_takes_older_photos() {
    let c = catalog_of_five();
    let f = filter(Published::All);
    assert_eq!(page_ids(&c, 2, Page::Before(4), &f), vec![3, 2]);
    assert_eq!(page_ids(&c, 10, Page::Before(1), &f), Vec::<i32>::new());
}

#[test]
fn after_anchor_is_normalized_to_descending() {
    let c = catalog_of_five();
    let f = filter(Published::All);
    // the fetch runs ascending from the boundary, but the page comes
    // back newest first
    assert_eq!(page_ids(&c, 2, Page::After(2), &f), vec![4, 3]);
    assert_eq!(page_ids(&c, 10, Page::After(5), &f), Vec::<i32>::new());
}

#[test]
fn pagination_continuity() {
    let c = catalog_of_five();
    let f = filter(Published::All);
    let first = page_ids(&c, 2, Page::Latest, &f);
    assert_eq!(first, vec![5, 4]);
    let last_id = *first.last().unwrap();
    let second = page_ids(&c, 2, Page::Before(last_id as u32), &f);
    assert_eq!(second, vec![3, 2]);
    for id in &second {
        assert!(*id < last_id);
        assert!(!first.contains(id));
    }
}

#[test]
fn five_published_photos_probe() {
    // ids [5,4,3,2,1], all published: a two-photo newest page is [5,4];
    // nothing is newer than 5, and something is older than 4
    let c = catalog_of_five();
    let f = filter(Published::OnlyPublished);
    let page = c.get_photo_page(2, Page::Latest, &f);
    assert_eq!(page.iter().map(|p| p.id).collect::<Vec<_>>(), vec![5, 4]);
    let (newer, older) = c.get_photo_pagination_ids(&page, &f);
    assert_eq!(newer, None);
    assert_eq!(older, Some(4));
}

#[test]
fn probes_on_middle_page() {
    let c = catalog_of_five();
    let f = filter(Published::All);
    let page = c.get_photo_page(2, Page::Before(4), &f);
    let (newer, older) = c.get_photo_pagination_ids(&page, &f);
    assert_eq!(newer, Some(3));
    assert_eq!(older, Some(2));
}

#[test]
fn probes_on_empty_page() {
    let c = Catalog::new();
    let f = filter(Published::All);
    let page = c.get_photo_page(2, Page::Latest, &f);
    assert!(page.is_empty());
    let (newer, older) = c.get_photo_pagination_ids(&page, &f);
    assert_eq!(newer, None);
    assert_eq!(older, None);
}

#[test]
fn only_published_hides_unpublished() {
    let mut c = Catalog::new();
    c.insert_photo(&photo("a", &[], true));
    c.insert_photo(&photo("b", &[], false));
    c.insert_photo(&photo("c", &[], true));
    assert_eq!(
        page_ids(&c, 10, Page::Latest, &filter(Published::OnlyPublished)),
        vec![3, 1]
    );
    assert_eq!(
        page_ids(&c, 10, Page::Latest, &filter(Published::All)),
        vec![3, 2, 1]
    );
}

#[test]
fn tag_filter_is_superset_containment() {
    let mut c = Catalog::new();
    c.insert_photo(&photo("a", &["sea", "sunset"], true));
    c.insert_photo(&photo("b", &["sea"], true));
    c.insert_photo(&photo("c", &["forest"], true));
    let f = FilterSpec {
        tagged: Some(vec!["sea".to_string()]),
        visibility: Published::All,
    };
    let page = c.get_photo_page(10, Page::Latest, &f);
    assert_eq!(page.iter().map(|p| p.id).collect::<Vec<_>>(), vec![2, 1]);
    // tag filter soundness: every returned photo carries the tag
    for p in &page {
        assert!(p.tags.iter().any(|t| t == "sea"));
    }
    let both = FilterSpec {
        tagged: Some(vec!["sea".to_string(), "sunset".to_string()]),
        visibility: Published::All,
    };
    assert_eq!(page_ids(&c, 10, Page::Latest, &both), vec![1]);
}

#[test]
fn boundary_edges() {
    let c = catalog_of_five();
    let f = filter(Published::All);
    assert_eq!(page_ids(&c, 10, Page::Before(0), &f), Vec::<i32>::new());
    assert_eq!(page_ids(&c, 10, Page::After(0), &f), vec![5, 4, 3, 2, 1]);
    assert_eq!(page_ids(&c, 10, Page::Before(100), &f), vec![5, 4, 3, 2, 1]);
}

#[test]
fn all_photo_ids_ascending() {
    let mut c = Catalog::new();
    c.insert_photo(&photo("a", &[], true));
    c.insert_photo(&photo("b", &[], false));
    c.insert_photo(&photo("c", &[], true));
    assert_eq!(c.get_all_photo_ids(Published::All), vec![1, 2, 3]);
    assert_eq!(c.get_all_photo_ids(Published::OnlyPublished), vec![1, 3]);
}
