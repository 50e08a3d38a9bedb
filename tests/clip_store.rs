use klip::clip::{local_day_of, Clip, ClipKind, DAY_MS};
use klip::monitor::{char_is_whitespace, is_blank_text, Monitor};
use klip::normalize::normalize_text;
use klip::query::{get_clips, get_dates_with_clips};
use klip::store::{ids_are_unique, ClipStore, DeleteOutcome, InsertOutcome, StoreError};

const T0: i64 = 1_700_000_000_000;

fn row(id: &str, content: &str, created_at: i64, fav: bool) -> Clip {
    Clip {
        id: id.to_string(),
        content: content.to_string(),
        created_at,
        is_favorite: fav,
        clip_type: ClipKind::Text,
        image_path: None,
        search_content: None,
    }
}

fn insert(store: &mut ClipStore, content: &str, id: &str, now: i64) -> Result<InsertOutcome, StoreError> {
    store.insert_text_at(content.to_string(), id.to_string(), now)
}

fn contents(v: &[Clip]) -> Vec<String> {
    v.iter().map(|c| c.content.clone()).collect()
}

#[test]
fn normalize_folds_case_and_accents() {
    assert_eq!(normalize_text("Café"), normalize_text("cafe"));
    assert_eq!(normalize_text("Café"), "cafe");
    assert_eq!(normalize_text("ABC"), "abc");
    assert_eq!(normalize_text("Æneid"), "aeneid");
    assert_eq!(normalize_text(""), "");
}

#[test]
fn normalize_is_idempotent_on_examples() {
    for s in ["Café Crème", "Hello World", "Æneid", "北京", "straße", ""] {
        let once = normalize_text(s);
        assert_eq!(normalize_text(&once), once);
    }
}

#[test]
fn local_day_rounds_down() {
    assert_eq!(local_day_of(0, 0), 0);
    assert_eq!(local_day_of(DAY_MS - 1, 0), 0);
    assert_eq!(local_day_of(DAY_MS, 0), 1);
    assert_eq!(local_day_of(-1, 0), -1);
    assert_eq!(local_day_of(-DAY_MS, 0), -1);
    assert_eq!(local_day_of(-DAY_MS - 1, 0), -2);
    assert_eq!(local_day_of(DAY_MS - 1, 1), 1);
    assert_eq!(local_day_of(0, -1), -1);
    assert_eq!(local_day_of(i64::MAX, i64::MAX), (2 * (i64::MAX as i128) / (DAY_MS as i128)) as i64);
}

#[test]
fn same_day_duplicate_is_refused() {
    let mut s = ClipStore::new(0);
    assert_eq!(insert(&mut s, "abc", "a", T0), Ok(InsertOutcome::Inserted("a".to_string())));
    assert_eq!(insert(&mut s, "abc", "b", T0 + 1000), Ok(InsertOutcome::Duplicate));
    assert_eq!(s.len(), 1);
}

#[test]
fn other_day_is_stored_again() {
    let mut s = ClipStore::new(0);
    assert_eq!(insert(&mut s, "abc", "a", T0), Ok(InsertOutcome::Inserted("a".to_string())));
    assert_eq!(
        insert(&mut s, "abc", "b", T0 + DAY_MS),
        Ok(InsertOutcome::Inserted("b".to_string()))
    );
    assert_eq!(s.len(), 2);
}

#[test]
fn local_day_follows_the_offset() {
    // 23:30 UTC and 00:30 UTC the next day are one local day at UTC-1h.
    let late = 19_000 * DAY_MS + 23 * 3_600_000 + 1_800_000;
    let mut s = ClipStore::new(-3_600_000);
    insert(&mut s, "x", "a", late).unwrap();
    assert_eq!(insert(&mut s, "x", "b", late + 3_600_000), Ok(InsertOutcome::Duplicate));
    let mut u = ClipStore::new(0);
    insert(&mut u, "x", "a", late).unwrap();
    assert_eq!(insert(&mut u, "x", "b", late + 3_600_000), Ok(InsertOutcome::Inserted("b".to_string())));
}

#[test]
fn taken_id_is_an_error() {
    let mut s = ClipStore::new(0);
    insert(&mut s, "abc", "a", T0).unwrap();
    assert_eq!(insert(&mut s, "xyz", "a", T0), Err(StoreError::IdInUse));
    assert_eq!(s.len(), 1);
}

#[test]
fn retention_sweeps_old_non_favorites() {
    let now = T0;
    let rows = vec![
        row("old", "old text", now - 91 * DAY_MS, false),
        row("fav", "old favorite", now - 91 * DAY_MS, true),
        row("edge", "edge", now - 90 * DAY_MS, false),
        row("new", "new text", now - DAY_MS, false),
    ];
    let s = ClipStore::initialize_at(rows, now, 0).unwrap();
    let ids: Vec<String> = s.query(&None, None).iter().map(|c| c.id.clone()).collect();
    assert_eq!(ids, vec!["new", "edge", "fav"]);
    let all = s.query(&None, None);
    assert_eq!(all[2].search_content.as_deref(), Some("old favorite"));
}

#[test]
fn duplicate_rows_are_refused() {
    let rows = vec![row("a", "x", T0, false), row("a", "y", T0, false)];
    assert!(!ids_are_unique(&rows));
    assert_eq!(ClipStore::initialize_at(rows, T0, 0).err(), Some(StoreError::DuplicateIds));
}

#[test]
fn query_is_newest_first() {
    let mut s = ClipStore::new(0);
    insert(&mut s, "two", "2", T0 + 2).unwrap();
    insert(&mut s, "one", "1", T0 + 1).unwrap();
    insert(&mut s, "three", "3", T0 + 3).unwrap();
    assert_eq!(contents(&s.query(&None, None)), vec!["three", "two", "one"]);
}

#[test]
fn query_is_capped_at_fifty() {
    let mut s = ClipStore::new(0);
    for i in 0..60i64 {
        insert(&mut s, &format!("clip {}", i), &format!("id{}", i), T0 + i).unwrap();
    }
    let r = s.query(&None, None);
    assert_eq!(r.len(), 50);
    assert_eq!(r[0].content, "clip 59");
    assert_eq!(r[49].content, "clip 10");
}

#[test]
fn search_ignores_case_and_accents() {
    let mut s = ClipStore::new(0);
    insert(&mut s, "Hello World", "a", T0).unwrap();
    insert(&mut s, "Crème brûlée", "b", T0 + 1).unwrap();
    for q in ["world", "WORLD", "World"] {
        assert_eq!(contents(&get_clips(&s, Some(q.to_string()), None)), vec!["Hello World"]);
    }
    assert!(get_clips(&s, Some("xyz".to_string()), None).is_empty());
    assert_eq!(contents(&get_clips(&s, Some("CREME".to_string()), None)), vec!["Crème brûlée"]);
    assert_eq!(get_clips(&s, Some(String::new()), None).len(), 2);
}

#[test]
fn date_filter_selects_a_local_day() {
    let mut s = ClipStore::new(0);
    insert(&mut s, "day one", "a", DAY_MS + 5).unwrap();
    insert(&mut s, "day two", "b", 2 * DAY_MS + 5).unwrap();
    let r = get_clips(&s, None, Some("1970-01-02".to_string()));
    assert_eq!(contents(&r), vec!["day one"]);
    assert!(get_clips(&s, None, Some("not a date".to_string())).is_empty());
    assert_eq!(get_clips(&s, None, Some(String::new())).len(), 2);
    assert_eq!(get_dates_with_clips(&s), vec![2, 1]);
}

#[test]
fn dates_are_listed_once_each() {
    let mut s = ClipStore::new(0);
    insert(&mut s, "a", "1", DAY_MS).unwrap();
    insert(&mut s, "b", "2", DAY_MS + 10).unwrap();
    insert(&mut s, "c", "3", 3 * DAY_MS).unwrap();
    assert_eq!(s.dates_with_clips(), vec![3, 1]);
    assert!(ClipStore::new(0).dates_with_clips().is_empty());
}

#[test]
fn delete_reports_the_image_file() {
    let mut img = row("img", "", T0, false);
    img.clip_type = ClipKind::Image;
    img.image_path = Some("/images/img.png".to_string());
    let mut s = ClipStore::initialize_at(vec![img, row("t", "text", T0, false)], T0, 0).unwrap();
    assert_eq!(
        s.delete(&"img".to_string()),
        DeleteOutcome::Removed(Some("/images/img.png".to_string()))
    );
    assert_eq!(s.delete(&"t".to_string()), DeleteOutcome::Removed(None));
    assert_eq!(s.delete(&"t".to_string()), DeleteOutcome::NotFound);
    assert_eq!(s.len(), 0);
}

#[test]
fn update_replaces_content_and_search_form() {
    let mut s = ClipStore::new(0);
    insert(&mut s, "abc", "a", T0).unwrap();
    assert!(s.update_content(&"a".to_string(), "ÀBCD".to_string()));
    assert!(!s.update_content(&"zz".to_string(), "x".to_string()));
    let r = s.query(&None, None);
    assert_eq!(r[0].content, "ÀBCD");
    assert_eq!(r[0].search_content.as_deref(), Some("abcd"));
}

#[test]
fn monitor_stores_repeated_text_once() {
    let mut s = ClipStore::new(0);
    let mut m = Monitor::new(None);
    let first = m.tick(&mut s, Some("copied".to_string()));
    assert!(first.is_some());
    assert_eq!(m.tick(&mut s, Some("copied".to_string())), None);
    assert_eq!(s.len(), 1);
}

#[test]
fn monitor_skips_failed_blank_and_startup_text() {
    let mut s = ClipStore::new(0);
    let mut m = Monitor::new(Some("at startup".to_string()));
    assert_eq!(m.observe(Some("at startup".to_string())), None);
    assert_eq!(m.observe(None), None);
    assert_eq!(m.observe(Some(" \t\n\u{3000}".to_string())), None);
    assert_eq!(m.last_seen(), "at startup");
    assert_eq!(m.tick(&mut s, Some("new".to_string())).map(|id| id.len()), Some(36));
    assert_eq!(m.last_seen(), "new");
    assert!(is_blank_text(""));
    assert!(!is_blank_text(" x "));
}

#[test]
fn end_to_end_insert_duplicate_update() {
    let mut s = ClipStore::initialize(Vec::new(), 0).unwrap();
    let x = match s.insert_text("abc".to_string()).unwrap() {
        InsertOutcome::Inserted(id) => id,
        InsertOutcome::Duplicate => panic!("first insertion was refused"),
    };
    assert_eq!(s.insert_text("abc".to_string()), Ok(InsertOutcome::Duplicate));
    assert!(s.update_content(&x, "abcd".to_string()));
    let r = get_clips(&s, None, None);
    assert_eq!(r.len(), 1);
    assert_eq!(r[0].id, x);
    assert_eq!(r[0].content, "abcd");
    assert_eq!(r[0].search_content.as_deref(), Some("abcd"));
}

#[test]
fn normalize_drops_control_characters() {
    assert_eq!(normalize_text("a\tb"), "ab");
    assert_eq!(normalize_text("line one\nLine Two"), "line oneline two");
    assert_eq!(normalize_text("\r\n"), "");
    assert_eq!(normalize_text("\u{2028}"), "\n");
    assert_eq!(normalize_text("\u{a0}X"), " x");
}

#[test]
fn search_matches_across_a_newline() {
    let mut s = ClipStore::new(0);
    insert(&mut s, "first\nSecond", "a", T0).unwrap();
    assert_eq!(get_clips(&s, Some("tsec".to_string()), None).len(), 1);
}

#[test]
fn new_ids_are_hyphenated_v4_uuids() {
    let mut s = ClipStore::new(0);
    let id = match s.insert_text("some text".to_string()).unwrap() {
        InsertOutcome::Inserted(id) => id,
        InsertOutcome::Duplicate => panic!("first insertion was refused"),
    };
    let b: Vec<char> = id.chars().collect();
    assert_eq!(b.len(), 36);
    for (i, c) in b.iter().enumerate() {
        if [8, 13, 18, 23].contains(&i) {
            assert_eq!(*c, '-');
        } else {
            assert!(c.is_ascii_hexdigit() && !c.is_ascii_uppercase());
        }
    }
    assert_eq!(b[14], '4');
    assert!(['8', '9', 'a', 'b'].contains(&b[19]));
}

#[test]
fn whitespace_matches_std() {
    for c in ['\t', '\n', '\u{b}', '\u{c}', '\r', ' ', '\u{85}', '\u{a0}', '\u{1680}', '\u{2000}',
        '\u{200a}', '\u{2028}', '\u{2029}', '\u{202f}', '\u{205f}', '\u{3000}', 'a', '\u{200b}', '\u{1f}', '\u{feff}']
    {
        assert_eq!(char_is_whitespace(c), c.is_whitespace(), "{:?}", c);
    }
}

#[test]
fn monitor_captures_again_after_forgetting() {
    let mut m = Monitor::new(None);
    assert_eq!(m.observe(Some("x".to_string())), Some("x".to_string()));
    m.forget();
    assert_eq!(m.observe(Some("x".to_string())), Some("x".to_string()));
}
