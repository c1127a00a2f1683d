use roster_sync::bootstrap::{classify_attempt, Attempt, BootstrapAction, BootstrapState};
use roster_sync::cookie_database::CookieDatabase;
use roster_sync::error::Error;
use roster_sync::fetch::{scrape_memberships, UNAUTHENTICATED_MARKER};
use roster_sync::membership::{Membership, MembershipTable};
use roster_sync::reconcile::reconcile;
use roster_sync::roster::{RosterEntry, Scrape};

const URL: &str = "https://roster.example";

const THREE_ROWS: &str = "<table id=\"group-member-list-datatable\"><tbody>\
<tr><td>10000001</td><td>Ada</td></tr>\
<tr><td>10000002</td><td>Grace</td></tr>\
<tr><td>10000003</td><td>Edsger</td></tr>\
</tbody></table>";

const NO_ROWS: &str = "<table id=\"group-member-list-datatable\"><tbody></tbody></table>";

struct Response {
    status: u16,
    body: String,
    set_cookie: Vec<String>,
}

/// A roster origin that knows one session value and hands out a new one when it sees it.
fn origin(cookie_header: Option<String>, known: &str, issued: Option<&str>, page: &str) -> Response {
    if cookie_header == Some(format!("su_session={};", known)) {
        Response {
            status: 200,
            body: page.to_string(),
            set_cookie: issued.iter().map(|v| format!("su_session={}; Path=/; HttpOnly", v)).collect(),
        }
    } else {
        Response {
            status: 200,
            body: format!("<html><body>{}</body></html>", UNAUTHENTICATED_MARKER),
            set_cookie: Vec::new(),
        }
    }
}

/// Runs the start-up sequence against the origin and returns the final state, the number
/// of fetches made and the last scrape.
fn run_bootstrap(
    jar: &mut CookieDatabase,
    seed: &str,
    known: &str,
    issued: Option<&str>,
    page: &str,
) -> (BootstrapState, usize, Option<Result<Scrape, Error>>) {
    let mut state = BootstrapState::start(jar.get_cookie_value(URL).is_ok());
    let mut fetches = 0;
    let mut last = None;
    while !state.is_final() {
        if state.action() == BootstrapAction::SeedAndFetch {
            jar.seed(URL, seed);
        }
        let response = origin(jar.cookies(URL), known, issued, page);
        fetches += 1;
        jar.set_cookies(&response.set_cookie, URL);
        let scraped = scrape_memberships(response.status, response.body);
        state = state.step(classify_attempt(&scraped));
        last = Some(scraped);
    }
    (state, fetches, last)
}

#[test]
fn expired_stored_cookie_falls_back_to_the_seed() {
    let mut jar = CookieDatabase::new();
    jar.add_cookie(URL, "su_session", "stale").unwrap();
    let (state, fetches, last) = run_bootstrap(&mut jar, "seed", "seed", Some("rotated"), THREE_ROWS);
    assert_eq!(state, BootstrapState::Reconciled);
    assert_eq!(state.action(), BootstrapAction::Reconcile);
    assert_eq!(fetches, 2);
    let entries = last.unwrap().unwrap().entries;
    let mut table = MembershipTable::new();
    reconcile(&mut table, &entries);
    let records = Membership::get_all(&table).unwrap();
    assert_eq!(records.len(), 3);
    assert_eq!(
        records.iter().map(|m| (m.student_id, m.name.as_str(), m.discord_id, m.should_drop)).collect::<Vec<_>>(),
        vec![
            (10000001, "Ada", None, false),
            (10000002, "Grace", None, false),
            (10000003, "Edsger", None, false),
        ]
    );
    assert_eq!(jar.get_cookie_value(URL), Ok("rotated".to_string()));
    assert_eq!(jar.cookies(URL), Some("su_session=rotated;".to_string()));
}

#[test]
fn issued_value_with_padding_is_stored_whole() {
    let mut jar = CookieDatabase::new();
    jar.add_cookie(URL, "su_session", "stale").unwrap();
    let (state, fetches, _) = run_bootstrap(&mut jar, "seed", "seed", Some("YWJj="), THREE_ROWS);
    assert_eq!(state, BootstrapState::Reconciled);
    assert_eq!(fetches, 2);
    assert_eq!(jar.get_cookie_value(URL), Ok("YWJj=".to_string()));
}

#[test]
fn seed_value_stays_where_the_origin_issues_none() {
    let mut jar = CookieDatabase::new();
    jar.add_cookie(URL, "su_session", "stale").unwrap();
    let (state, fetches, _) = run_bootstrap(&mut jar, "seed", "seed", None, THREE_ROWS);
    assert_eq!(state, BootstrapState::Reconciled);
    assert_eq!(fetches, 2);
    assert_eq!(jar.get_cookie_value(URL), Ok("seed".to_string()));
}

#[test]
fn good_stored_cookie_needs_one_fetch() {
    let mut jar = CookieDatabase::new();
    jar.add_cookie(URL, "su_session", "good").unwrap();
    let (state, fetches, last) = run_bootstrap(&mut jar, "seed", "good", None, THREE_ROWS);
    assert_eq!(state, BootstrapState::Reconciled);
    assert_eq!(fetches, 1);
    assert_eq!(last.unwrap().unwrap().entries.len(), 3);
    assert_eq!(jar.get_cookie_value(URL), Ok("good".to_string()));
}

#[test]
fn empty_store_starts_with_the_seed() {
    let mut jar = CookieDatabase::new();
    assert_eq!(BootstrapState::start(false), BootstrapState::TrySeedCookie);
    assert_eq!(BootstrapState::start(true), BootstrapState::TryStoredCookie);
    let (state, fetches, _) = run_bootstrap(&mut jar, "seed", "seed", None, THREE_ROWS);
    assert_eq!(state, BootstrapState::Reconciled);
    assert_eq!(fetches, 1);
}

#[test]
fn both_cookies_failing_is_fatal() {
    let mut jar = CookieDatabase::new();
    jar.add_cookie(URL, "su_session", "stale").unwrap();
    let (state, fetches, last) = run_bootstrap(&mut jar, "bad seed", "good", None, THREE_ROWS);
    assert_eq!(state, BootstrapState::Fatal);
    assert_eq!(state.action(), BootstrapAction::Abort);
    assert_eq!(fetches, 2);
    assert_eq!(last.unwrap(), Err(Error::AuthenticationExpired));
}

#[test]
fn empty_roster_is_retried_and_then_fatal() {
    let mut jar = CookieDatabase::new();
    jar.add_cookie(URL, "su_session", "good").unwrap();
    let (state, fetches, last) = run_bootstrap(&mut jar, "good", "good", None, NO_ROWS);
    assert_eq!(state, BootstrapState::Fatal);
    assert_eq!(fetches, 2);
    assert_eq!(last.unwrap(), Ok(Scrape { entries: Vec::new(), skipped: 0 }));
}

#[test]
fn every_transition() {
    let stored = BootstrapState::TryStoredCookie;
    let seed = BootstrapState::TrySeedCookie;
    let reconciled = BootstrapState::Reconciled;
    let fatal = BootstrapState::Fatal;
    assert_eq!(stored.step(Attempt::Roster), reconciled);
    assert_eq!(stored.step(Attempt::Empty), seed);
    assert_eq!(stored.step(Attempt::Unauthenticated), seed);
    assert_eq!(stored.step(Attempt::Failed), fatal);
    assert_eq!(seed.step(Attempt::Roster), reconciled);
    assert_eq!(seed.step(Attempt::Empty), fatal);
    assert_eq!(seed.step(Attempt::Unauthenticated), fatal);
    assert_eq!(seed.step(Attempt::Failed), fatal);
    for attempt in [Attempt::Roster, Attempt::Empty, Attempt::Unauthenticated, Attempt::Failed] {
        assert_eq!(reconciled.step(attempt), reconciled);
        assert_eq!(fatal.step(attempt), fatal);
    }
    assert_eq!(stored.action(), BootstrapAction::Fetch);
    assert_eq!(seed.action(), BootstrapAction::SeedAndFetch);
    assert!(!stored.is_final());
    assert!(!seed.is_final());
    assert!(reconciled.is_final());
    assert!(fatal.is_final());
    assert_eq!(reconciled.conclude(), Ok(()));
    assert_eq!(fatal.conclude(), Err(Error::BootstrapFailed));
    assert_eq!(stored.conclude(), Err(Error::BootstrapFailed));
    assert_eq!(seed.conclude(), Err(Error::BootstrapFailed));
}

#[test]
fn scrapes_are_read_as_attempts() {
    let one = vec![RosterEntry { student_id: 1, name: "A".to_string() }];
    assert_eq!(classify_attempt(&Ok(Scrape { entries: one, skipped: 4 })), Attempt::Roster);
    assert_eq!(classify_attempt(&Ok(Scrape { entries: Vec::new(), skipped: 0 })), Attempt::Empty);
    assert_eq!(classify_attempt(&Ok(Scrape { entries: Vec::new(), skipped: 2 })), Attempt::Empty);
    assert_eq!(classify_attempt(&Err(Error::AuthenticationExpired)), Attempt::Unauthenticated);
    assert_eq!(classify_attempt(&Err(Error::TransportFailure("reset".to_string()))), Attempt::Failed);
    assert_eq!(
        classify_attempt(&Err(Error::ReconciliationUnavailable("locked".to_string()))),
        Attempt::Failed
    );
    assert_eq!(classify_attempt(&Err(Error::NotFound)), Attempt::Failed);
    assert_eq!(classify_attempt(&Err(Error::BootstrapFailed)), Attempt::Failed);
}
