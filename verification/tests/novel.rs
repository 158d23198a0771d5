use panda::novel::{Country, Gender, ListingError, Novel, Status, TranslationKind};
use panda::numbers::ParseCountError;

const STYLE: &str = r#"background-image: url("https://img.example/cover.jpg");"#;

#[test]
fn week_new_listing_keeps_main_tag() {
    let n = Novel::from_week_new_listing(
        "https://site/novel/1".to_string(),
        STYLE,
        "Title".to_string(),
        "Fantasy".to_string(),
    );
    assert_eq!(n.url(), "https://site/novel/1");
    assert_eq!(n.cover_url(), "https://img.example/cover.jpg");
    assert_eq!(n.title(), "Title");
    assert_eq!(n.tags(), &vec!["Fantasy".to_string()]);
    assert_eq!(n.views(), None);
    assert_eq!(n.last_update(), None);
}

#[test]
fn week_hot_listing_reads_views() {
    let n = Novel::from_week_hot_listing("u".to_string(), STYLE, "t".to_string(), "1234");
    assert_eq!(n.views(), Some(1234));
    assert!(n.tags().is_empty());
    let m = Novel::from_week_hot_listing("u".to_string(), STYLE, "t".to_string(), "1.2k");
    assert_eq!(m.views(), None);
}

#[test]
fn search_listing_checks_views_then_time() {
    let ok = Novel::from_search_listing(
        "u".to_string(),
        STYLE,
        "t".to_string(),
        "77",
        "2023-04-05 06:07:08",
    )
    .unwrap();
    assert_eq!(ok.views(), None);
    assert_eq!(ok.last_update(), None);
    assert_eq!(ok.cover_url(), "https://img.example/cover.jpg");

    let bad_views =
        Novel::from_search_listing("u".to_string(), STYLE, "t".to_string(), "7k", "nonsense");
    assert_eq!(bad_views.err(), Some(ListingError::Views(ParseCountError::InvalidDigit)));

    let bad_time = Novel::from_search_listing(
        "u".to_string(),
        STYLE,
        "t".to_string(),
        "7",
        "2023-02-30 06:07:08",
    );
    assert_eq!(bad_time.err(), Some(ListingError::LastUpdate));

    let no_time =
        Novel::from_search_listing("u".to_string(), STYLE, "t".to_string(), "", "2023-01-01");
    assert_eq!(no_time.err(), Some(ListingError::Views(ParseCountError::Empty)));
}

#[test]
fn describe_writes_every_field() {
    let n = Novel::from_week_hot_listing("u".to_string(), STYLE, "A \"T\"".to_string(), "42");
    assert_eq!(
        n.describe(),
        "Novel {\n  url: u\n  cover_url: https://img.example/cover.jpg\n  title: A \"T\"\n  tags: []\n  views: 42\n  last_update: 1970-01-01 00:00:00\n}"
    );
    let m = Novel::from_week_new_listing("v".to_string(), STYLE, "w".to_string(), "Tag \"x\"".to_string());
    assert_eq!(
        m.describe(),
        "Novel {\n  url: v\n  cover_url: https://img.example/cover.jpg\n  title: w\n  tags: [\"Tag \\\"x\\\"\"]\n  views: 0\n  last_update: 1970-01-01 00:00:00\n}"
    );
}

#[test]
fn novel_chapter_and_info_do_nothing() {
    let mut n = Novel::from_week_new_listing("u".to_string(), STYLE, "t".to_string(), "g".to_string());
    assert_eq!(n.get_chapter(3), "");
    n.load_info();
    assert_eq!(n.title(), "t");
    assert_eq!(n.tags(), &vec!["g".to_string()]);
}

#[test]
fn catalogue_enums_have_their_variants() {
    assert_ne!(TranslationKind::Manual, TranslationKind::Machine);
    assert_ne!(Status::Ongoing, Status::Completed);
    assert_eq!(format!("{:?}", Country::Korea), "Korea");
    assert_eq!(format!("{:?}", Gender::Female), "Female");
}
