//! Tag facet counting under the gallery filters.

use rusty_peanuts::catalog::Catalog;
use rusty_peanuts::page::Published;
use rusty_peanuts::photos::Photo;
use rusty_peanuts::query::FilterSpec;

fn photo(stem: &str, tags: &[&str], published: bool) -> Photo {
    Photo {
        id: 0,
        file_stem: stem.to_string(),
        title: None,
        taken_timestamp: None,
        height_offset: 0,
        tags: tags.iter().map(|t| t.to_string()).collect(),
        sources: Vec::new(),
        published,
    }
}

fn counts(c: &Catalog, f: &FilterSpec) -> Vec<(String, i64)> {
    c.get_photo_tags_with_counts(f)
}

#[test]
fn counts_are_sorted_and_exact() {
    let mut c = Catalog::new();
    c.insert_photo(&photo("a", &["sea", "sunset"], true));
    c.insert_photo(&photo("b", &["sea"], true));
    c.insert_photo(&photo("c", &["forest"], true));
    let f = FilterSpec {
        tagged: None,
        visibility: Published::All,
    };
    assert_eq!(
        counts(&c, &f),
        vec![
            ("forest".to_string(), 1),
            ("sea".to_string(), 2),
            ("sunset".to_string(), 1),
        ]
    );
}

#[test]
fn unpublished_photos_do_not_count() {
    let mut c = Catalog::new();
    c.insert_photo(&photo("a", &["sea"], true));
    c.insert_photo(&photo("b", &["sea", "night"], false));
    let published_only = FilterSpec {
        tagged: None,
        visibility: Published::OnlyPublished,
    };
    assert_eq!(counts(&c, &published_only), vec![("sea".to_string(), 1)]);
    let all = FilterSpec {
        tagged: None,
        visibility: Published::All,
    };
    assert_eq!(
        counts(&c, &all),
        vec![("night".to_string(), 1), ("sea".to_string(), 2)]
    );
}

#[test]
fn tagged_filter_counts_all_tags_of_matching_photos() {
    // under a tag filter, only matching photos count, but every one of
    // their tags is listed
    let mut c = Catalog::new();
    c.insert_photo(&photo("a", &["sea", "sunset"], true));
    c.insert_photo(&photo("b", &["forest"], true));
    let f = FilterSpec {
        tagged: Some(vec!["sea".to_string()]),
        visibility: Published::All,
    };
    assert_eq!(
        counts(&c, &f),
        vec![("sea".to_string(), 1), ("sunset".to_string(), 1)]
    );
}

#[test]
fn a_repeated_tag_counts_its_photo_once() {
    // tags form a set per photo: listing one twice does not double its
    // count
    let mut c = Catalog::new();
    c.insert_photo(&photo("a", &["sea", "sea"], true));
    let f = FilterSpec {
        tagged: None,
        visibility: Published::All,
    };
    assert_eq!(counts(&c, &f), vec![("sea".to_string(), 1)]);
}

#[test]
fn empty_catalog_has_no_facets() {
    let c = Catalog::new();
    let f = FilterSpec {
        tagged: None,
        visibility: Published::All,
    };
    assert!(counts(&c, &f).is_empty());
}
