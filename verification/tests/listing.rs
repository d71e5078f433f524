use toy_blog::document::Document;
use toy_blog::listing::{collect_public_ids, is_not_modified, list_response};
use toy_blog::model::{ArticleId, Visibility};
use toy_blog::persistence::ArticleRepository;
use toy_blog::timestamp::Timestamp;

fn ts(year: u16, month: u8, second: u8) -> Timestamp {
    Timestamp {
        year, month, day: 7, hour: 8, minute: 9, second,
        nanosecond: 0, offset_minutes: 0,
    }
}

fn id(s: &str) -> ArticleId {
    ArticleId::new(s.to_string())
}

fn contains(set: &toy_blog::model::ArticleIdSet, wanted: &ArticleId) -> bool {
    set.0.iter().any(|x| x == wanted)
}

#[test]
fn do_not_leak() {
    let mut repo = ArticleRepository::new(Document::empty());
    {
        repo.create_entry(&id("123"), "12345".to_string(), Visibility::Private, ts(2023, 5, 1));
        let blob = repo.dump();
        repo.refresh(&blob).expect("own snapshot reads back");
        let (ids, _) = collect_public_ids(&repo.entries(), None, None);
        assert!(!contains(&ids, &id("123")));
    }
    {
        repo.create_entry(&id("1234"), "123456".to_string(), Visibility::Restricted, ts(2023, 5, 2));
        let blob = repo.dump();
        repo.refresh(&blob).expect("own snapshot reads back");
        let (ids, _) = collect_public_ids(&repo.entries(), None, None);
        assert!(!contains(&ids, &id("1234")));
    }
}

#[test]
fn do_not_leak_by_year() {
    let mut repo = ArticleRepository::new(Document::empty());
    {
        repo.create_entry(&id("123"), "12345".to_string(), Visibility::Private, ts(2023, 5, 1));
        let blob = repo.dump();
        repo.refresh(&blob).expect("own snapshot reads back");
        let (ids, _) = collect_public_ids(&repo.entries(), Some(2023), None);
        assert!(!contains(&ids, &id("123")));
    }
    {
        repo.create_entry(&id("1234"), "123456".to_string(), Visibility::Restricted, ts(2023, 5, 2));
        let blob = repo.dump();
        repo.refresh(&blob).expect("own snapshot reads back");
        let (ids, _) = collect_public_ids(&repo.entries(), Some(2023), None);
        assert!(!contains(&ids, &id("1234")));
    }
}

#[test]
fn do_not_leak_by_year_and_month() {
    let mut repo = ArticleRepository::new(Document::empty());
    {
        repo.create_entry(&id("123"), "12345".to_string(), Visibility::Private, ts(2023, 5, 1));
        let blob = repo.dump();
        repo.refresh(&blob).expect("own snapshot reads back");
        let (ids, _) = collect_public_ids(&repo.entries(), Some(2023), Some(5));
        assert!(!contains(&ids, &id("123")));
    }
    {
        repo.create_entry(&id("1235"), "123456".to_string(), Visibility::Restricted, ts(2023, 5, 2));
        let blob = repo.dump();
        repo.refresh(&blob).expect("own snapshot reads back");
        let (ids, _) = collect_public_ids(&repo.entries(), Some(2023), Some(5));
        assert!(!contains(&ids, &id("1235")));
    }
}

#[test]
fn public_records_are_listed_with_their_extremes() {
    let mut repo = ArticleRepository::new(Document::empty());
    repo.create_entry(&id("early"), "a".to_string(), Visibility::Public, ts(2021, 3, 1));
    repo.create_entry(&id("late"), "b".to_string(), Visibility::Public, ts(2023, 6, 2));
    repo.create_entry(&id("hidden"), "c".to_string(), Visibility::Private, ts(2024, 1, 3));
    let blob = repo.dump();
    repo.refresh(&blob).expect("own snapshot reads back");
    let (ids, meta) = collect_public_ids(&repo.entries(), None, None);
    assert!(contains(&ids, &id("early")));
    assert!(contains(&ids, &id("late")));
    assert!(!contains(&ids, &id("hidden")));
    assert_eq!(ids.0.len(), 2);
    assert_eq!(meta.oldest_created_at, Some(ts(2021, 3, 1)));
    assert_eq!(meta.newest_updated_at, Some(ts(2023, 6, 2)));

    let (by_year, meta_year) = collect_public_ids(&repo.entries(), Some(2021), None);
    assert!(contains(&by_year, &id("early")));
    assert_eq!(by_year.0.len(), 1);
    assert_eq!(meta_year.newest_updated_at, Some(ts(2021, 3, 1)));

    let (by_month, _) = collect_public_ids(&repo.entries(), Some(2023), Some(6));
    assert!(contains(&by_month, &id("late")));
    assert_eq!(by_month.0.len(), 1);
}

#[test]
fn empty_listing_has_no_extremes() {
    let (ids, meta) = collect_public_ids(&Vec::new(), None, None);
    assert_eq!(ids.0.len(), 0);
    assert_eq!(meta.oldest_created_at, None);
    assert_eq!(meta.newest_updated_at, None);
}

#[test]
fn not_modified_wants_a_latest_update_at_or_after_the_threshold() {
    let earlier = ts(2023, 5, 1);
    let later = ts(2023, 5, 2);
    assert!(is_not_modified(&Some(later), &Some(earlier)));
    assert!(is_not_modified(&Some(earlier), &Some(earlier)));
    assert!(!is_not_modified(&Some(earlier), &Some(later)));
    assert!(!is_not_modified(&None, &Some(earlier)));
    assert!(!is_not_modified(&Some(later), &None));
}

#[test]
fn a_snapshot_flattens_in_order() {
    let mut repo = ArticleRepository::new(Document::empty());
    repo.create_entry(&id("a"), "one".to_string(), Visibility::Public, ts(2023, 5, 1));
    let blob = repo.dump();
    repo.refresh(&blob).expect("own snapshot reads back");
    let flat = list_response(repo.entries());
    assert_eq!(flat.0.len(), 1);
    assert_eq!(flat.0[0].id, id("a"));
    assert_eq!(flat.0[0].entity.content, "one");
}
