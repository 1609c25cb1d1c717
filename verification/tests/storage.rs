use updown::models::Response;
use updown::{AppError, Database, Login, Migration, ProbeOutcome, ProbeResult, Site, PROBE_FAILED};

fn probe_arg(site_id: i64, status_code: i64) -> Response {
    let mut r = Response::default();
    r.status_code = status_code;
    r.site_id = site_id;
    r
}

fn site_arg(user_id: i64, url: &str) -> Site {
    let mut s = Site::default();
    s.user_id = user_id;
    s.url = url.to_string();
    s
}

fn rows_for_site(db: &Database, site_id: i64) -> Vec<Response> {
    db.responses()
        .into_iter()
        .filter(|r| r.site_id == site_id)
        .collect()
}

#[test]
fn fresh_store_is_empty() {
    let db = Database::new();
    assert!(db.sites().unwrap().is_empty());
    assert!(db.responses().is_empty());
    assert!(db.applied_versions().is_empty());
    assert_eq!(db.login_count(1), 0);
}

#[test]
fn insert_user_stamps_and_stores() {
    let mut db = Database::new();
    let user = db.insert_user().unwrap();
    assert_eq!(user.id, 1);
    assert_eq!(user.login_code.chars().count(), 21);
    assert!(user.created_at >= 1);
    assert_eq!(user.updated_at, user.created_at);
    let found = db.user_by_id(1).unwrap();
    assert_eq!(found, user);
}

#[test]
fn login_codes_stay_unique_across_creations() {
    let mut db = Database::new();
    let mut codes: Vec<String> = Vec::new();
    for _ in 0..50 {
        let user = db.insert_user().unwrap();
        assert_eq!(user.login_code.chars().count(), 21);
        codes.push(user.login_code);
    }
    for i in 0..codes.len() {
        for j in (i + 1)..codes.len() {
            assert_ne!(codes[i], codes[j]);
        }
    }
}

#[test]
fn user_lookup_by_code_and_failures() {
    let mut db = Database::new();
    let user = db.insert_user().unwrap();
    let found = db.user_by_login_code(user.login_code.clone()).unwrap();
    assert_eq!(found.id, user.id);
    assert!(matches!(
        db.user_by_login_code("no-such-code".to_string()),
        Err(AppError::DatabaseSelect)
    ));
    assert!(matches!(db.user_by_id(2), Err(AppError::DatabaseSelect)));
    assert!(matches!(db.user_by_id(0), Err(AppError::DatabaseSelect)));
}

#[test]
fn duplicate_login_code_is_rejected() {
    let mut db = Database::new();
    let user = db.insert_user().unwrap();
    let err = db.insert_user_with_code(user.login_code.clone());
    assert!(matches!(err, Err(AppError::DatabaseInsert)));
    // the failed insert wrote nothing
    assert!(matches!(db.user_by_id(2), Err(AppError::DatabaseSelect)));
}

#[test]
fn login_rows_reference_existing_users() {
    let mut db = Database::new();
    let mut arg = Login::default();
    arg.user_id = 7;
    assert!(matches!(db.insert_login(arg), Err(AppError::DatabaseInsert)));
    let user = db.insert_user().unwrap();
    let mut arg = Login::default();
    arg.user_id = user.id;
    let row = db.insert_login(arg).unwrap();
    assert_eq!(row.id, 1);
    assert_eq!(row.user_id, user.id);
    assert!(row.created_at >= 1);
}

#[test]
fn login_count_counts_one_user_only() {
    let mut db = Database::new();
    let a = db.insert_user().unwrap();
    let b = db.insert_user().unwrap();
    for _ in 0..3 {
        let mut arg = Login::default();
        arg.user_id = a.id;
        db.insert_login(arg).unwrap();
    }
    let mut arg = Login::default();
    arg.user_id = b.id;
    db.insert_login(arg).unwrap();
    assert_eq!(db.login_count(a.id), 3);
    assert_eq!(db.login_count(b.id), 1);
    assert_eq!(db.login_count(99), 0);
}

#[test]
fn empty_url_site_is_rejected_and_writes_nothing() {
    let mut db = Database::new();
    let user = db.insert_user().unwrap();
    let before = db.sites().unwrap();
    let err = db.insert_site(site_arg(user.id, ""));
    assert!(matches!(err, Err(AppError::UrlEmpty)));
    let after = db.sites().unwrap();
    assert_eq!(before, after);
    assert!(after.is_empty());
}

#[test]
fn insert_site_stores_url_and_owner() {
    let mut db = Database::new();
    let user = db.insert_user().unwrap();
    let site = db.insert_site(site_arg(user.id, "https://a.test")).unwrap();
    assert_eq!(site.id, 1);
    assert_eq!(site.user_id, user.id);
    assert_eq!(site.url, "https://a.test");
    assert_eq!(site.name, None);
    assert!(site.created_at >= 1);
    let all = db.sites().unwrap();
    assert_eq!(all.len(), 1);
    assert_eq!(all[0], site);
}

#[test]
fn sites_by_user_filters_by_owner() {
    let mut db = Database::new();
    let a = db.insert_user().unwrap();
    let b = db.insert_user().unwrap();
    let s1 = db.insert_site(site_arg(a.id, "https://a.test")).unwrap();
    let s2 = db.insert_site(site_arg(b.id, "https://b.test")).unwrap();
    let s3 = db.insert_site(site_arg(a.id, "https://c.test")).unwrap();
    let of_a = db.sites_by_user_id(a.id).unwrap();
    assert_eq!(of_a, vec![s1, s3]);
    let of_b = db.sites_by_user_id(b.id).unwrap();
    assert_eq!(of_b, vec![s2]);
    assert!(db.sites_by_user_id(99).unwrap().is_empty());
}

#[test]
fn upsert_same_pair_twice_keeps_one_row_and_advances_stamp() {
    let mut db = Database::new();
    let first = db.upsert_response(probe_arg(1, 200)).unwrap();
    assert_eq!(first.id, 1);
    assert_eq!(first.created_at, first.updated_at);
    let second = db.upsert_response(probe_arg(1, 200)).unwrap();
    assert_eq!(second.id, first.id);
    assert_eq!(second.created_at, first.created_at);
    assert!(second.updated_at > first.updated_at);
    assert_eq!(db.responses().len(), 1);
}

#[test]
fn one_row_per_distinct_status_per_site() {
    let mut db = Database::new();
    let observed = [200, 500, 200, 503, 500, 200];
    for code in observed {
        db.upsert_response(probe_arg(1, code)).unwrap();
    }
    db.upsert_response(probe_arg(2, 200)).unwrap();
    let rows = rows_for_site(&db, 1);
    // three distinct codes were observed for site 1: exactly three rows
    assert_eq!(rows.len(), 3);
    let mut codes: Vec<i64> = rows.iter().map(|r| r.status_code).collect();
    codes.sort();
    assert_eq!(codes, vec![200, 500, 503]);
    assert_eq!(rows_for_site(&db, 2).len(), 1);
}

#[test]
fn latest_response_tracks_greatest_stamp() {
    let mut db = Database::new();
    assert!(matches!(
        db.latest_response_by_site(1),
        Err(AppError::DatabaseSelect)
    ));
    db.upsert_response(probe_arg(1, 200)).unwrap();
    assert_eq!(db.latest_response_by_site(1).unwrap().status_code, 200);
    db.upsert_response(probe_arg(1, 500)).unwrap();
    assert_eq!(db.latest_response_by_site(1).unwrap().status_code, 500);
    db.upsert_response(probe_arg(1, 200)).unwrap();
    assert_eq!(db.latest_response_by_site(1).unwrap().status_code, 200);
    assert_eq!(rows_for_site(&db, 1).len(), 2);
}

#[test]
fn migrate_applies_plan_in_order_and_is_idempotent() {
    let mut db = Database::new();
    db.migrate().unwrap();
    assert_eq!(db.applied_versions(), vec![1, 2, 3, 4]);
    db.migrate().unwrap();
    assert_eq!(db.applied_versions(), vec![1, 2, 3, 4]);
}

#[test]
fn rollback_removes_only_the_last_reversible_version() {
    let plan = vec![
        Migration { version: 10, reversible: true },
        Migration { version: 20, reversible: true },
        Migration { version: 30, reversible: false },
    ];
    let mut db = Database::with_migrations(plan).unwrap();
    db.migrate().unwrap();
    assert_eq!(db.applied_versions(), vec![10, 20, 30]);
    db.rollback().unwrap();
    // version 20 is the last plan entry with a reverse script
    assert_eq!(db.applied_versions(), vec![10, 30]);
}

#[test]
fn rollback_without_reversible_migration_fails_cleanly() {
    let plan = vec![
        Migration { version: 1, reversible: false },
        Migration { version: 2, reversible: false },
    ];
    let mut db = Database::with_migrations(plan).unwrap();
    db.migrate().unwrap();
    let before = db.applied_versions();
    assert!(matches!(db.rollback(), Err(AppError::Rollback)));
    assert_eq!(db.applied_versions(), before);
}

#[test]
fn rollback_twice_deletes_the_ledger_row_once() {
    let plan = vec![
        Migration { version: 1, reversible: false },
        Migration { version: 2, reversible: true },
    ];
    let mut db = Database::with_migrations(plan).unwrap();
    db.migrate().unwrap();
    assert_eq!(db.applied_versions(), vec![1, 2]);
    db.rollback().unwrap();
    assert_eq!(db.applied_versions(), vec![1]);
    // the plan still names version 2 as reversible: a second rollback
    // reruns its reverse step, and the ledger has no matching row left
    db.rollback().unwrap();
    assert_eq!(db.applied_versions(), vec![1]);
}

#[test]
fn duplicate_plan_versions_are_rejected() {
    let plan = vec![
        Migration { version: 1, reversible: true },
        Migration { version: 1, reversible: false },
    ];
    assert!(matches!(
        Database::with_migrations(plan),
        Err(AppError::Migrate)
    ));
}

#[test]
fn signup_creates_user_first_login_and_site() {
    let mut db = Database::new();
    let (user, login, site) = db.signup("https://a.test".to_string()).unwrap();
    assert_eq!(user.id, 1);
    assert_eq!(user.login_code.chars().count(), 21);
    assert_eq!(login.user_id, user.id);
    assert_eq!(site.user_id, user.id);
    assert_eq!(site.url, "https://a.test");
    assert_eq!(db.login_count(user.id), 1);
}

#[test]
fn signup_with_empty_url_writes_nothing() {
    let mut db = Database::new();
    assert!(matches!(
        db.signup(String::new()),
        Err(AppError::UrlEmpty)
    ));
    assert!(db.sites().unwrap().is_empty());
    assert!(matches!(db.user_by_id(1), Err(AppError::DatabaseSelect)));
}

#[test]
fn login_count_is_one_after_signup_and_two_after_login() {
    let mut db = Database::new();
    let (user, _, _) = db.signup("https://a.test".to_string()).unwrap();
    assert_eq!(db.login_count(user.id), 1);
    let (back, _) = db.login(user.login_code.clone()).unwrap();
    assert_eq!(back.id, user.id);
    assert_eq!(db.login_count(user.id), 2);
}

#[test]
fn login_with_unknown_code_is_rejected_without_write() {
    let mut db = Database::new();
    let (user, _, _) = db.signup("https://a.test".to_string()).unwrap();
    assert!(matches!(
        db.login("not-a-code".to_string()),
        Err(AppError::Login)
    ));
    assert_eq!(db.login_count(user.id), 1);
}

#[test]
fn scheduler_scenario_keeps_one_row_per_status_and_latest_current() {
    let mut db = Database::new();
    let (user, _, _) = db.signup("https://a.test".to_string()).unwrap();
    let sites = db.sites_by_user_id(user.id).unwrap();
    assert_eq!(sites.len(), 1);
    let sid = sites[0].id;

    let tick1 = vec![ProbeResult { site_id: sid, outcome: ProbeOutcome::Completed(200) }];
    assert_eq!(db.record_tick(&tick1), 1);
    assert_eq!(db.latest_response_by_site(sid).unwrap().status_code, 200);
    let first = db.latest_response_by_site(sid).unwrap();

    let tick2 = vec![ProbeResult { site_id: sid, outcome: ProbeOutcome::Completed(500) }];
    assert_eq!(db.record_tick(&tick2), 1);
    assert_eq!(rows_for_site(&db, sid).len(), 2);
    assert_eq!(db.latest_response_by_site(sid).unwrap().status_code, 500);

    let tick3 = vec![ProbeResult { site_id: sid, outcome: ProbeOutcome::Completed(200) }];
    assert_eq!(db.record_tick(&tick3), 1);
    assert_eq!(rows_for_site(&db, sid).len(), 2);
    let latest = db.latest_response_by_site(sid).unwrap();
    assert_eq!(latest.status_code, 200);
    assert_eq!(latest.id, first.id);
    assert!(latest.updated_at > first.updated_at);
}

#[test]
fn one_failing_probe_does_not_block_the_others() {
    let mut db = Database::new();
    let tick = vec![
        ProbeResult { site_id: 1, outcome: ProbeOutcome::Failed },
        ProbeResult { site_id: 2, outcome: ProbeOutcome::Completed(200) },
    ];
    assert_eq!(db.record_tick(&tick), 2);
    assert_eq!(
        db.latest_response_by_site(1).unwrap().status_code,
        PROBE_FAILED
    );
    assert_eq!(db.latest_response_by_site(2).unwrap().status_code, 200);
}

#[test]
fn status_codes_reduce_to_sentinel_or_status() {
    assert_eq!(updown::status_code_of(&ProbeOutcome::Completed(204)), 204);
    assert_eq!(updown::status_code_of(&ProbeOutcome::Failed), PROBE_FAILED);
    assert_eq!(PROBE_FAILED, 0);
    assert!(updown::is_online(200));
    assert!(updown::is_online(299));
    assert!(!updown::is_online(300));
    assert!(!updown::is_online(199));
    assert!(!updown::is_online(PROBE_FAILED));
}

#[test]
fn timestamps_never_run_backwards() {
    let mut db = Database::new();
    let mut last = 0i64;
    for code in [200, 500, 200, 404] {
        let row = db.upsert_response(probe_arg(3, code)).unwrap();
        assert!(row.updated_at > last);
        last = row.updated_at;
    }
}

#[test]
fn default_rows_are_zeroed() {
    let u = updown::User::default();
    assert_eq!((u.id, u.created_at, u.updated_at), (0, 0, 0));
    assert!(u.login_code.is_empty());
    let l = Login::default();
    assert_eq!((l.id, l.user_id, l.created_at), (0, 0, 0));
    let s = Site::default();
    assert_eq!(s.url, "");
    assert_eq!(s.name, None);
    let r = Response::default();
    assert_eq!((r.id, r.status_code, r.site_id), (0, 0, 0));
}
