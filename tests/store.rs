use note_store::clock::{
    is_expired, is_stale, parse_expiry, reaper_cutoff, sweep_delay_secs, STALE_AGE_MICROS,
    SWEEP_BACKOFF_SECS, SWEEP_INTERVAL_SECS,
};
use note_store::models::{NewNote, RequestCreateNote, RequestUpdateNote, StoreError};
use note_store::outcome::{availability, next_version_number, precheck_outcome, surface_error, DbFailure};
use note_store::store::NoteStore;

/// 2030-01-01T00:00:00Z in microseconds since the epoch.
const T0: i64 = 1_893_456_000_000_000;
const SEC: i64 = 1_000_000;

fn req(slug: &str, content: &str) -> RequestCreateNote {
    RequestCreateNote {
        short_url: slug.to_string(),
        content: content.to_string(),
        expires_at: None,
        parent_id: None,
    }
}

fn upd(slug: &str, content: &str) -> RequestUpdateNote {
    RequestUpdateNote { short_url: slug.to_string(), content: content.to_string() }
}

#[test]
fn create_conflict_update_versions_scenario() {
    let mut s = NoteStore::new();
    assert!(s.create_note(&req("abc", "hello"), T0).is_ok());
    assert_eq!(s.create_note(&req("abc", "other"), T0 + SEC).unwrap_err(), StoreError::Conflict);
    assert_eq!(s.get_by_short_url("abc").unwrap().content, "hello");
    assert_eq!(s.update_note(&upd("abc", "world"), T0 + 2 * SEC), Ok(()));
    let versions = s.list_versions("abc").unwrap();
    assert_eq!(versions.len(), 1);
    assert_eq!(versions[0].version, 1);
    assert_eq!(versions[0].content, "hello");
    assert_eq!(versions[0].created_at, T0 + 2 * SEC);
    assert_eq!(s.get_by_short_url("abc").unwrap().content, "world");
}

#[test]
fn distinct_slugs_each_read_back() {
    let mut s = NoteStore::new();
    let slugs = ["a", "b", "c", "d"];
    for (i, slug) in slugs.iter().enumerate() {
        let n = s.create_note(&req(slug, &format!("content {}", i)), T0 + i as i64).unwrap();
        assert_eq!(n.short_url, *slug);
        assert_eq!(n.id, i as i32 + 1);
        assert_eq!(n.created_at, T0 + i as i64);
    }
    for (i, slug) in slugs.iter().enumerate() {
        assert_eq!(s.get_by_short_url(slug).unwrap().content, format!("content {}", i));
    }
}

#[test]
fn slug_free_again_after_sweep() {
    let mut s = NoteStore::new();
    let mut r = req("x", "one");
    r.expires_at = Some("2030-01-01T00:00:05Z".to_string());
    s.create_note(&r, T0).unwrap();
    assert_eq!(s.create_note(&req("x", "two"), T0 + SEC).unwrap_err(), StoreError::Conflict);
    assert_eq!(s.sweep_expired(T0 + 6 * SEC), 1);
    assert!(s.check_availability("x"));
    assert_eq!(s.create_note(&req("x", "two"), T0 + 7 * SEC).unwrap().content, "two");
}

#[test]
fn slug_free_again_after_reaper() {
    let mut s = NoteStore::new();
    s.create_note(&req("old", "one"), T0).unwrap();
    let later = T0 + STALE_AGE_MICROS + SEC;
    assert_eq!(s.create_note(&req("old", "two"), later).unwrap_err(), StoreError::Conflict);
    assert!(s.get_by_short_url("old").is_ok());
    assert_eq!(s.reap_stale(later), 1);
    assert!(s.check_availability("old"));
    assert_eq!(s.create_note(&req("old", "two"), later).unwrap().content, "two");
}

#[test]
fn availability_follows_live_notes() {
    let mut s = NoteStore::new();
    assert!(s.check_availability("free"));
    s.create_note(&req("free", "c"), T0).unwrap();
    assert!(!s.check_availability("free"));
    assert!(s.check_availability("other"));
}

#[test]
fn versions_hold_pre_images_in_order() {
    let mut s = NoteStore::new();
    s.create_note(&req("v", "c0"), T0).unwrap();
    for k in 1..=3 {
        s.update_note(&upd("v", &format!("c{}", k)), T0 + k).unwrap();
    }
    let versions = s.list_versions("v").unwrap();
    assert_eq!(versions.len(), 3);
    for (k, v) in versions.iter().enumerate() {
        assert_eq!(v.version, k as i32 + 1);
        assert_eq!(v.content, format!("c{}", k));
    }
    assert_eq!(s.get_by_short_url("v").unwrap().content, "c3");
}

#[test]
fn versions_are_kept_per_note() {
    let mut s = NoteStore::new();
    s.create_note(&req("p", "p0"), T0).unwrap();
    s.create_note(&req("q", "q0"), T0).unwrap();
    s.update_note(&upd("p", "p1"), T0).unwrap();
    s.update_note(&upd("q", "q1"), T0).unwrap();
    s.update_note(&upd("p", "p2"), T0).unwrap();
    let p = s.list_versions("p").unwrap();
    let q = s.list_versions("q").unwrap();
    assert_eq!(p.iter().map(|v| (v.version, v.content.clone())).collect::<Vec<_>>(), vec![
        (1, "p0".to_string()),
        (2, "p1".to_string())
    ]);
    assert_eq!(q.iter().map(|v| (v.version, v.content.clone())).collect::<Vec<_>>(), vec![(
        1,
        "q0".to_string()
    )]);
    assert!(s.list_versions("none").unwrap_err() == StoreError::NotFound);
}

#[test]
fn expired_note_present_before_sweep_absent_after() {
    let mut s = NoteStore::new();
    let mut r = req("e", "soon gone");
    r.expires_at = Some("2030-01-01T00:00:10Z".to_string());
    s.create_note(&r, T0).unwrap();
    assert_eq!(s.get_by_short_url("e").unwrap().expires_at, Some(T0 + 10 * SEC));
    assert_eq!(s.sweep_expired(T0 + 5 * SEC), 0);
    assert!(s.get_by_short_url("e").is_ok());
    // expiry equal to now is not yet past
    assert_eq!(s.sweep_expired(T0 + 10 * SEC), 0);
    assert_eq!(s.sweep_expired(T0 + 10 * SEC + 1), 1);
    assert_eq!(s.get_by_short_url("e").unwrap_err(), StoreError::NotFound);
}

#[test]
fn note_without_expiry_survives_sweeps_but_not_reaper() {
    let mut s = NoteStore::new();
    s.create_note(&req("keep", "forever?"), T0).unwrap();
    let far = T0 + 1000 * STALE_AGE_MICROS;
    assert_eq!(s.sweep_expired(far), 0);
    assert!(s.get_by_short_url("keep").is_ok());
    s.create_note(&req("trigger", "t"), far).unwrap();
    assert_eq!(s.get_by_short_url("keep").unwrap_err(), StoreError::NotFound);
    assert!(s.get_by_short_url("trigger").is_ok());
}

#[test]
fn reaper_keeps_notes_of_exactly_one_hour() {
    let mut s = NoteStore::new();
    s.create_note(&req("edge", "e"), T0).unwrap();
    assert_eq!(s.reap_stale(T0 + STALE_AGE_MICROS), 0);
    assert_eq!(s.reap_stale(T0 + STALE_AGE_MICROS + 1), 1);
}

#[test]
fn children_sorted_by_creation() {
    let mut s = NoteStore::new();
    let parent = s.create_note(&req("root", "r"), T0).unwrap();
    for (slug, t) in [("c3", T0 + 30), ("c1", T0 + 10), ("c2", T0 + 20)] {
        let mut r = req(slug, slug);
        r.parent_id = Some(parent.id);
        s.create_note(&r, t).unwrap();
    }
    let mut other = req("elsewhere", "x");
    other.parent_id = Some(parent.id + 100);
    s.create_note(&other, T0 + 15).unwrap();
    let kids = s.list_children(parent.id);
    let slugs: Vec<String> = kids.iter().map(|n| n.short_url.clone()).collect();
    assert_eq!(slugs, vec!["c1", "c2", "c3"]);
    assert!(s.list_children(9999).is_empty());
}

#[test]
fn recent_notes_limited() {
    let mut s = NoteStore::new();
    for i in 0..12 {
        s.create_note(&req(&format!("n{}", i), "c"), T0 + i).unwrap();
    }
    let recent = s.list_recent(10);
    assert_eq!(recent.len(), 10);
    assert_eq!(recent[0].short_url, "n2");
    assert_eq!(recent[9].short_url, "n11");
    assert_eq!(s.list_recent(100).len(), 12);
}

#[test]
fn update_of_missing_note_is_not_found() {
    let mut s = NoteStore::new();
    assert_eq!(s.update_note(&upd("nope", "x"), T0), Err(StoreError::NotFound));
    assert!(s.list_versions("nope").is_err());
}

#[test]
fn insert_refuses_live_slug() {
    let mut s = NoteStore::new();
    let nn = NewNote {
        short_url: "dup".to_string(),
        content: "a".to_string(),
        expires_at: None,
        parent_id: None,
    };
    assert!(s.insert_note(nn.clone(), T0).is_ok());
    assert_eq!(s.insert_note(nn, T0).unwrap_err(), StoreError::Conflict);
}

#[test]
fn unparsable_expiry_means_none() {
    let mut s = NoteStore::new();
    let mut r = req("bad", "c");
    r.expires_at = Some("tomorrow".to_string());
    let n = s.create_note(&r, T0).unwrap();
    assert_eq!(n.expires_at, None);
}

#[test]
fn create_now_stamps_current_time() {
    let mut s = NoteStore::new();
    let n = s.create_note_now(&req("now", "c")).unwrap();
    assert!(n.created_at > T0 - 10 * 365 * 24 * 3600 * SEC);
}

#[test]
fn expiry_text_parses_to_micros() {
    assert_eq!(parse_expiry(&Some("2030-01-01T00:00:00Z".to_string())), Some(T0));
    assert_eq!(parse_expiry(&Some("2030-01-01T01:00:00.000001+01:00".to_string())), Some(T0 + 1));
    assert_eq!(parse_expiry(&Some("not a date".to_string())), None);
    assert_eq!(parse_expiry(&None), None);
}

#[test]
fn expiry_and_age_rules() {
    assert!(is_expired(Some(T0 - 1), T0));
    assert!(!is_expired(Some(T0), T0));
    assert!(!is_expired(None, i64::MAX));
    assert_eq!(reaper_cutoff(T0), T0 - 3_600_000_000);
    assert_eq!(reaper_cutoff(i64::MIN), i64::MIN);
    assert!(is_stale(T0 - STALE_AGE_MICROS - 1, T0));
    assert!(!is_stale(T0 - STALE_AGE_MICROS, T0));
    assert!(!is_stale(i64::MIN, i64::MIN + 5));
}

#[test]
fn sweeper_delays() {
    assert_eq!(sweep_delay_secs(true), SWEEP_INTERVAL_SECS);
    assert_eq!(sweep_delay_secs(false), SWEEP_BACKOFF_SECS);
    assert_eq!(SWEEP_INTERVAL_SECS, 10);
    assert_eq!(SWEEP_BACKOFF_SECS, 60);
}

#[test]
fn storage_failures_surface() {
    assert_eq!(surface_error(DbFailure::NotFound), StoreError::NotFound);
    assert_eq!(surface_error(DbFailure::UniqueViolation), StoreError::Conflict);
    assert_eq!(surface_error(DbFailure::Unavailable), StoreError::StorageUnavailable);
    assert_eq!(surface_error(DbFailure::Other), StoreError::StorageFailure);
}

#[test]
fn precheck_and_availability_from_lookup() {
    assert_eq!(precheck_outcome(Ok(())), Err(StoreError::Conflict));
    assert_eq!(precheck_outcome(Err(DbFailure::NotFound)), Ok(()));
    assert_eq!(precheck_outcome(Err(DbFailure::Unavailable)), Err(StoreError::StorageUnavailable));
    assert_eq!(availability(Ok(())), Ok(false));
    assert_eq!(availability(Err(DbFailure::NotFound)), Ok(true));
    assert_eq!(availability(Err(DbFailure::Other)), Err(StoreError::StorageFailure));
}

#[test]
fn version_numbers_count_up() {
    assert_eq!(next_version_number(None), Some(1));
    assert_eq!(next_version_number(Some(4)), Some(5));
    assert_eq!(next_version_number(Some(i32::MAX)), None);
}
