use page_analytics::record::Analytics;
use page_analytics::service::{
    acknowledge, allowed_origin, get_all_analytics, get_analytics, restore, update_analytics, Reply,
    STATUS_NOT_FOUND, STATUS_OK,
};
use page_analytics::store::Database;
use page_analytics::text::{same_bytes, same_text, starts_with};

fn counters(page_views: u64, impressions: u64, clicks: u64) -> Analytics {
    Analytics { page_views, impressions, clicks }
}

fn sorted(reply: Reply<'_>) -> Vec<(String, Analytics)> {
    match reply {
        Reply::Records(entries) => {
            let mut all: Vec<(String, Analytics)> =
                entries.into_iter().map(|(page, analytics)| (page.clone(), *analytics)).collect();
            all.sort_by(|a, b| a.0.cmp(&b.0));
            all
        }
        other => panic!("expected the entries of the store, got {:?}", other),
    }
}

#[test]
fn written_record_is_read_back() {
    let mut db = Database::new();
    update_analytics(&mut db, "home".to_string(), counters(1, 2, 3));
    assert_eq!(get_analytics(&db, "home"), Reply::Record(&counters(1, 2, 3)));
}

#[test]
fn rewritten_page_has_the_second_record() {
    let mut db = Database::new();
    update_analytics(&mut db, "home".to_string(), counters(1, 2, 3));
    update_analytics(&mut db, "home".to_string(), counters(9, 0, 0));
    assert_eq!(get_analytics(&db, "home"), Reply::Record(&counters(9, 0, 0)));
    assert_eq!(sorted(get_all_analytics(&db)), vec![("home".to_string(), counters(9, 0, 0))]);
}

#[test]
fn read_of_unknown_page_is_not_found() {
    let mut db = Database::new();
    assert_eq!(get_analytics(&db, "home"), Reply::NotFound);
    update_analytics(&mut db, "home".to_string(), counters(1, 2, 3));
    assert_eq!(get_analytics(&db, "about"), Reply::NotFound);
    assert_eq!(get_analytics(&db, "Home"), Reply::NotFound);
}

#[test]
fn read_of_whole_store_has_every_page_once() {
    let mut db = Database::new();
    update_analytics(&mut db, "home".to_string(), counters(1, 2, 3));
    update_analytics(&mut db, "about".to_string(), counters(4, 5, 6));
    update_analytics(&mut db, "home".to_string(), counters(7, 8, 9));
    update_analytics(&mut db, "pricing".to_string(), counters(0, 0, 0));
    assert_eq!(
        sorted(get_all_analytics(&db)),
        vec![
            ("about".to_string(), counters(4, 5, 6)),
            ("home".to_string(), counters(7, 8, 9)),
            ("pricing".to_string(), counters(0, 0, 0)),
        ]
    );
}

#[test]
fn read_of_empty_store_is_an_empty_list() {
    let db = Database::new();
    let reply = get_all_analytics(&db);
    assert_eq!(reply.status(), 200);
    assert_eq!(reply, Reply::Records(Vec::new()));
}

#[test]
fn reads_leave_the_store_as_it_is() {
    let mut db = Database::new();
    update_analytics(&mut db, "home".to_string(), counters(1, 2, 3));
    let before = sorted(get_all_analytics(&db));
    assert_eq!(get_analytics(&db, "home").status(), 200);
    assert_eq!(get_analytics(&db, "missing").status(), 404);
    assert_eq!(sorted(get_all_analytics(&db)), before);
}

#[test]
fn write_is_acknowledged_whether_or_not_it_was_saved() {
    assert_eq!(acknowledge(true), Reply::Done);
    assert_eq!(acknowledge(false), Reply::Done);
    assert_eq!(acknowledge(false).status(), 200);
}

#[test]
fn failed_save_does_not_take_the_write_back() {
    let mut db = Database::new();
    update_analytics(&mut db, "home".to_string(), counters(1, 2, 3));
    let reply = acknowledge(false);
    assert_eq!(reply, Reply::Done);
    assert_eq!(get_analytics(&db, "home"), Reply::Record(&counters(1, 2, 3)));
}

#[test]
fn statuses_of_replies() {
    let analytics = counters(1, 2, 3);
    assert_eq!(STATUS_OK, 200);
    assert_eq!(STATUS_NOT_FOUND, 404);
    assert_eq!(Reply::Done.status(), 200);
    assert_eq!(Reply::Record(&analytics).status(), 200);
    assert_eq!(Reply::Records(Vec::new()).status(), 200);
    assert_eq!(Reply::NotFound.status(), 404);
}

#[test]
fn start_without_snapshot_is_empty() {
    let db = restore(None);
    assert_eq!(get_all_analytics(&db), Reply::Records(Vec::new()));
    assert_eq!(get_analytics(&db, "home"), Reply::NotFound);
}

#[test]
fn start_from_empty_snapshot_is_empty() {
    let db = restore(Some(Vec::new()));
    assert_eq!(get_all_analytics(&db), Reply::Records(Vec::new()));
}

#[test]
fn start_from_snapshot_has_its_records() {
    let db = restore(Some(vec![
        ("landing".to_string(), counters(5, 2, 1)),
        ("home".to_string(), counters(9, 0, 0)),
    ]));
    assert_eq!(get_analytics(&db, "landing"), Reply::Record(&counters(5, 2, 1)));
    assert_eq!(get_analytics(&db, "home"), Reply::Record(&counters(9, 0, 0)));
    assert_eq!(get_analytics(&db, "about"), Reply::NotFound);
}

#[test]
fn restart_reproduces_the_store() {
    let mut db = Database::new();
    update_analytics(&mut db, "landing".to_string(), counters(5, 2, 1));
    update_analytics(&mut db, "home".to_string(), counters(1, 2, 3));
    update_analytics(&mut db, "home".to_string(), counters(9, 0, 0));
    let snapshot = sorted(get_all_analytics(&db));
    let restarted = restore(Some(snapshot));
    assert_eq!(get_analytics(&restarted, "landing"), Reply::Record(&counters(5, 2, 1)));
    assert_eq!(sorted(get_all_analytics(&restarted)), sorted(get_all_analytics(&db)));
}

#[test]
fn writes_to_different_pages_in_either_order() {
    let mut one = Database::new();
    update_analytics(&mut one, "a".to_string(), counters(1, 1, 1));
    update_analytics(&mut one, "b".to_string(), counters(2, 2, 2));
    let mut other = Database::new();
    update_analytics(&mut other, "b".to_string(), counters(2, 2, 2));
    update_analytics(&mut other, "a".to_string(), counters(1, 1, 1));
    assert_eq!(get_analytics(&one, "a"), Reply::Record(&counters(1, 1, 1)));
    assert_eq!(get_analytics(&one, "b"), Reply::Record(&counters(2, 2, 2)));
    assert_eq!(sorted(get_all_analytics(&one)), sorted(get_all_analytics(&other)));
}

#[test]
fn local_origins_are_allowed() {
    assert!(allowed_origin(b"http://localhost"));
    assert!(allowed_origin(b"http://localhost:3000"));
    assert!(allowed_origin(b"http://localhost.example.com"));
    assert!(allowed_origin(b"http://localhost\xff"));
    assert!(allowed_origin(b"null"));
}

#[test]
fn other_origins_are_not_allowed() {
    assert!(!allowed_origin(b""));
    assert!(!allowed_origin(b"http://localhos"));
    assert!(!allowed_origin(b"https://localhost"));
    assert!(!allowed_origin(b"HTTP://LOCALHOST"));
    assert!(!allowed_origin(b" http://localhost"));
    assert!(!allowed_origin(b"http://127.0.0.1:8080"));
    assert!(!allowed_origin(b"https://example.com"));
    assert!(!allowed_origin(b"nul"));
    assert!(!allowed_origin(b"nullx"));
    assert!(!allowed_origin(b"Null"));
}

#[test]
fn texts_are_the_same_character_for_character() {
    assert!(same_text("", ""));
    assert!(same_text("home", "home"));
    assert!(same_text("p\u{e1}gina", "p\u{e1}gina"));
    assert!(!same_text("home", "Home"));
    assert!(!same_text("home", "home "));
    assert!(!same_text("home", "hom"));
    assert!(!same_text("", "a"));
    assert!(!same_text("p\u{e1}gina", "pa\u{301}gina"));
}

#[test]
fn byte_strings_are_the_same_byte_for_byte() {
    assert!(same_bytes(b"", b""));
    assert!(same_bytes(b"abc", b"abc"));
    assert!(!same_bytes(b"abc", b"abd"));
    assert!(!same_bytes(b"abc", b"ab"));
    assert!(!same_bytes(b"ab", b"abc"));
    assert!(!same_bytes(b"", b"a"));
}

#[test]
fn prefixes_of_byte_strings() {
    assert!(starts_with(b"abc", b""));
    assert!(starts_with(b"", b""));
    assert!(starts_with(b"abc", b"a"));
    assert!(starts_with(b"abc", b"abc"));
    assert!(!starts_with(b"abc", b"abcd"));
    assert!(!starts_with(b"abc", b"b"));
    assert!(!starts_with(b"", b"a"));
    assert!(!starts_with(b"abc", b"abd"));
}
