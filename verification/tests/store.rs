use toy_blog::document::Document;
use toy_blog::model::{ArticleId, Visibility};
use toy_blog::persistence::{ArticleRepository, PersistenceError};
use toy_blog::timestamp::Timestamp;

fn ts(second: u8) -> Timestamp {
    Timestamp {
        year: 2023, month: 5, day: 7, hour: 8, minute: 9, second,
        nanosecond: 0, offset_minutes: 0,
    }
}

fn id(s: &str) -> ArticleId {
    ArticleId::new(s.to_string())
}

/// After a close and reopen, everything written is still there.
#[test]
fn check_file_cursor_position_is_rewinded_to_its_start() {
    let mut repo = ArticleRepository::new(Document::empty());
    repo.create_entry(&id("12345"), "12345 Hello".to_string(), Visibility::Private, ts(1));
    let blob = repo.dump();
    repo.refresh(&blob).expect("own snapshot reads back");
    repo.create_entry(&id("23456"), "23456 Hello".to_string(), Visibility::Private, ts(2));
    let blob = repo.dump();
    drop(repo);
    let repo = ArticleRepository::open_from_text(&blob).expect("reopen");
    let entries = repo.entries();
    let y = entries.iter().find(|x| x.0 == id("12345")).expect("12345").1.content == "12345 Hello";
    assert!(y);
    let y = entries.iter().find(|x| x.0 == id("23456")).expect("23456").1.content == "23456 Hello";
    assert!(y);
}

#[test]
fn create_then_read_gives_the_record_back() {
    let mut repo = ArticleRepository::new(Document::empty());
    repo.create_entry(&id("a"), "hello".to_string(), Visibility::Private, ts(1));
    assert!(repo.needs_reload());
    let blob = repo.dump();
    repo.refresh(&blob).expect("own snapshot reads back");
    let a = repo.read_snapshot(&id("a")).expect("just created");
    assert_eq!(a.content, "hello");
    assert_eq!(a.visibility, Visibility::Private);
    assert_eq!(a.created_at, a.updated_at);
}

#[test]
fn update_keeps_creation_time_and_advances_update_time() {
    let mut repo = ArticleRepository::new(Document::empty());
    repo.create_entry(&id("a"), "first".to_string(), Visibility::Public, ts(1));
    repo.update_entry(&id("a"), "second".to_string(), ts(5)).expect("present");
    let blob = repo.dump();
    repo.refresh(&blob).expect("own snapshot reads back");
    let a = repo.read_snapshot(&id("a")).expect("present");
    assert_eq!(a.created_at, ts(1));
    assert_eq!(a.updated_at, ts(5));
    assert_eq!(a.content, "second");
    assert_eq!(a.visibility, Visibility::Public);
}

#[test]
fn update_of_an_absent_id_is_refused() {
    let mut repo = ArticleRepository::new(Document::empty());
    assert_eq!(
        repo.update_entry(&id("ghost"), "text".to_string(), ts(1)).unwrap_err(),
        PersistenceError::AbsentValue,
    );
}

#[test]
fn change_visibility_touches_only_the_tag_and_update_time() {
    let mut repo = ArticleRepository::new(Document::empty());
    repo.create_entry(&id("a"), "body".to_string(), Visibility::Private, ts(1));
    repo.change_visibility(&id("a"), Visibility::Public, ts(3)).expect("present");
    let blob = repo.dump();
    repo.refresh(&blob).expect("own snapshot reads back");
    let a = repo.read_snapshot(&id("a")).expect("present");
    assert_eq!(a.visibility, Visibility::Public);
    assert_eq!(a.content, "body");
    assert_eq!(a.created_at, ts(1));
    assert_eq!(a.updated_at, ts(3));
}

#[test]
fn removing_an_absent_id_is_no_error() {
    let mut repo = ArticleRepository::new(Document::empty());
    repo.remove(&id("never-there"));
    let blob = repo.dump();
    repo.refresh(&blob).expect("own snapshot reads back");
    assert!(!repo.entry_exists(&id("never-there")));
}

#[test]
fn remove_then_the_id_is_gone() {
    let mut repo = ArticleRepository::new(Document::empty());
    repo.create_entry(&id("a"), "body".to_string(), Visibility::Private, ts(1));
    repo.remove(&id("a"));
    let blob = repo.dump();
    repo.refresh(&blob).expect("own snapshot reads back");
    assert!(!repo.entry_exists(&id("a")));
}

#[test]
fn rename_moves_and_does_not_duplicate() {
    let mut repo = ArticleRepository::new(Document::empty());
    repo.create_entry(&id("old"), "kept body".to_string(), Visibility::Restricted, ts(1));
    repo.rename(&id("old"), id("new")).expect("old exists, new free");
    let blob = repo.dump();
    repo.refresh(&blob).expect("own snapshot reads back");
    assert!(!repo.entry_exists(&id("old")));
    assert!(repo.entry_exists(&id("new")));
    let a = repo.read_snapshot(&id("new")).expect("moved here");
    assert_eq!(a.content, "kept body");
    assert_eq!(a.created_at, ts(1));
    assert_eq!(a.updated_at, ts(1));
    assert_eq!(a.visibility, Visibility::Restricted);
    assert_eq!(repo.entries().len(), 1);
}

#[test]
fn rename_of_an_absent_id_is_refused() {
    let mut repo = ArticleRepository::new(Document::empty());
    assert_eq!(
        repo.rename(&id("ghost"), id("new")).unwrap_err(),
        PersistenceError::AbsentValue,
    );
}

#[test]
fn rename_onto_a_taken_id_is_a_conflict() {
    let mut repo = ArticleRepository::new(Document::empty());
    repo.create_entry(&id("a"), "one".to_string(), Visibility::Private, ts(1));
    repo.create_entry(&id("b"), "two".to_string(), Visibility::Private, ts(2));
    assert_eq!(repo.rename(&id("a"), id("b")).unwrap_err(), PersistenceError::Conflict);
    let blob = repo.dump();
    repo.refresh(&blob).expect("own snapshot reads back");
    assert_eq!(repo.read_snapshot(&id("b")).expect("untouched").content, "two");
}

#[test]
fn create_overwrites_an_existing_id() {
    // duplicate-id rejection is the HTTP layer's business; the store is a map
    let mut repo = ArticleRepository::new(Document::empty());
    repo.create_entry(&id("a"), "one".to_string(), Visibility::Private, ts(1));
    repo.create_entry(&id("a"), "two".to_string(), Visibility::Public, ts(2));
    let blob = repo.dump();
    repo.refresh(&blob).expect("own snapshot reads back");
    let a = repo.read_snapshot(&id("a")).expect("present");
    assert_eq!(a.content, "two");
    assert_eq!(a.created_at, ts(2));
    assert_eq!(repo.entries().len(), 1);
}

#[test]
fn bootstrap_migrates_an_early_blob() {
    let blob: Vec<char> = r#"{"data":{"x":{"created_at":"2022-01-02T03:04:05+00:00","updated_at":"2022-01-02T03:04:05+00:00","content":"old"}}}"#.chars().collect();
    let (d, out) = toy_blog::bootstrap::load_document(&blob).expect("migrates");
    let repo = ArticleRepository::new(d);
    let a = repo.read_snapshot(&id("x")).expect("kept");
    assert_eq!(a.visibility, Visibility::Public);
    assert_eq!(a.content, "old");
    // the text written back reads to the same table
    let repo2 = ArticleRepository::open_from_text(&out).expect("reads back");
    assert_eq!(repo2.read_snapshot(&id("x")).expect("kept").content, "old");
}

#[test]
fn the_clock_yields_a_valid_timestamp() {
    let now = toy_blog::clock::now_timestamp();
    assert!(now.is_valid());
}
