use roster_sync::error::Error;
use roster_sync::membership::{Membership, MembershipTable};
use roster_sync::reconcile::{reconcile, tick, Mutation};
use roster_sync::roster::{RosterEntry, Scrape};

fn member(student_id: u32, name: &str, discord_id: Option<u64>, should_drop: bool) -> Membership {
    Membership { student_id, name: name.to_string(), discord_id, should_drop }
}

fn entry(student_id: u32, name: &str) -> RosterEntry {
    RosterEntry { student_id, name: name.to_string() }
}

fn table(rows: Vec<Membership>) -> MembershipTable {
    MembershipTable::from_rows(rows).expect("distinct identifiers")
}

fn all(table: &MembershipTable) -> Vec<Membership> {
    Membership::get_all(table).unwrap()
}

fn apply(table: &mut MembershipTable, mutations: &[Mutation]) {
    for m in mutations {
        match m {
            Mutation::Delete { student_id } => {
                member(*student_id, "", None, false).delete(table).unwrap();
            }
            Mutation::Flag { student_id } => {
                member(*student_id, "", None, false).update_should_drop(table, true).unwrap();
            }
            Mutation::Insert { student_id, name } => {
                member(*student_id, name, None, false).insert(table).unwrap();
            }
        }
    }
}

#[test]
fn unlisted_records_are_deleted_or_flagged() {
    let mut t = table(vec![member(1, "A", None, false), member(2, "B", Some(200), false)]);
    let mutations = reconcile(&mut t, &vec![entry(3, "C")]);
    assert_eq!(all(&t), vec![member(2, "B", Some(200), true), member(3, "C", None, false)]);
    assert_eq!(
        mutations,
        vec![
            Mutation::Delete { student_id: 1 },
            Mutation::Flag { student_id: 2 },
            Mutation::Insert { student_id: 3, name: "C".to_string() },
        ]
    );
}

#[test]
fn scrape_with_neither_record_deletes_one_and_flags_the_other() {
    let mut t = table(vec![member(1, "A", None, false), member(2, "B", Some(200), false)]);
    let mutations = reconcile(&mut t, &Vec::new());
    assert_eq!(all(&t), vec![member(2, "B", Some(200), true)]);
    assert_eq!(Membership::get_by_student_id(&t, 1), Err(Error::NotFound));
    assert_eq!(mutations, vec![Mutation::Delete { student_id: 1 }, Mutation::Flag { student_id: 2 }]);
}

#[test]
fn second_reconciliation_changes_nothing() {
    let mut t = table(vec![
        member(1, "A", None, false),
        member(2, "B", Some(200), false),
        member(3, "C", Some(300), true),
        member(4, "D", None, true),
        member(5, "E", Some(500), false),
    ]);
    let scrape = vec![entry(5, "E"), entry(6, "F"), entry(4, "D"), entry(6, "F again")];
    let first = reconcile(&mut t, &scrape);
    assert!(!first.is_empty());
    let settled = all(&t);
    let second = reconcile(&mut t, &scrape);
    assert_eq!(second, Vec::new());
    assert_eq!(all(&t), settled);
    assert_eq!(
        settled,
        vec![
            member(2, "B", Some(200), true),
            member(3, "C", Some(300), true),
            member(4, "D", None, true),
            member(5, "E", Some(500), false),
            member(6, "F", None, false),
        ]
    );
}

#[test]
fn flagged_record_that_reappears_stays_as_it_is() {
    let mut t = table(vec![member(1, "A", Some(100), true), member(2, "B", None, true)]);
    let mutations = reconcile(&mut t, &vec![entry(1, "A renamed"), entry(2, "B")]);
    assert_eq!(mutations, Vec::new());
    assert_eq!(all(&t), vec![member(1, "A", Some(100), true), member(2, "B", None, true)]);
}

#[test]
fn bound_record_is_never_deleted() {
    let mut t = table(vec![member(1, "A", Some(100), false), member(2, "B", Some(200), true)]);
    reconcile(&mut t, &Vec::new());
    assert_eq!(all(&t), vec![member(1, "A", Some(100), true), member(2, "B", Some(200), true)]);
    reconcile(&mut t, &vec![entry(9, "Z")]);
    assert_eq!(
        all(&t),
        vec![member(1, "A", Some(100), true), member(2, "B", Some(200), true), member(9, "Z", None, false)]
    );
}

#[test]
fn two_scrapes_give_the_union_without_duplicates() {
    let mut t = MembershipTable::new();
    reconcile(&mut t, &vec![entry(1, "A"), entry(2, "B")]);
    let mutations = reconcile(&mut t, &vec![entry(1, "A"), entry(2, "B"), entry(3, "C")]);
    assert_eq!(mutations, vec![Mutation::Insert { student_id: 3, name: "C".to_string() }]);
    assert_eq!(
        all(&t),
        vec![member(1, "A", None, false), member(2, "B", None, false), member(3, "C", None, false)]
    );
    assert!(MembershipTable::from_rows(all(&t)).is_some());
}

#[test]
fn repeated_identifier_in_a_scrape_is_stored_once() {
    let mut t = MembershipTable::new();
    let mutations = reconcile(&mut t, &vec![entry(1, "first"), entry(1, "second"), entry(2, "B")]);
    assert_eq!(all(&t), vec![member(1, "first", None, false), member(2, "B", None, false)]);
    assert_eq!(
        mutations,
        vec![
            Mutation::Insert { student_id: 1, name: "first".to_string() },
            Mutation::Insert { student_id: 2, name: "B".to_string() },
        ]
    );
}

#[test]
fn removals_are_judged_against_the_whole_scrape() {
    let mut t = table(vec![member(7, "Old", None, false)]);
    let mutations = reconcile(&mut t, &vec![entry(1, "A"), entry(7, "New name")]);
    assert_eq!(mutations, vec![Mutation::Insert { student_id: 1, name: "A".to_string() }]);
    assert_eq!(all(&t), vec![member(7, "Old", None, false), member(1, "A", None, false)]);
}

#[test]
fn reported_mutations_replay_to_the_same_table() {
    let start = vec![
        member(1, "A", None, false),
        member(2, "B", Some(200), false),
        member(3, "C", Some(300), true),
        member(4, "D", None, false),
    ];
    let scrape = vec![entry(4, "D"), entry(8, "H"), entry(9, "I"), entry(8, "H2")];
    let mut direct = table(start.clone());
    let mutations = reconcile(&mut direct, &scrape);
    let mut replayed = table(start);
    apply(&mut replayed, &mutations);
    assert_eq!(all(&replayed), all(&direct));
}

#[test]
fn failed_scrape_skips_the_tick() {
    let rows = vec![member(1, "A", None, false), member(2, "B", Some(200), false)];
    let mut t = table(rows.clone());
    assert_eq!(tick(&mut t, Err(Error::AuthenticationExpired)), Err(Error::AuthenticationExpired));
    assert_eq!(all(&t), rows);
    let failure = Error::TransportFailure("timed out".to_string());
    assert_eq!(tick(&mut t, Err(failure.clone())), Err(failure));
    assert_eq!(all(&t), rows);
}

#[test]
fn good_scrape_is_reconciled_by_the_tick() {
    let mut t = table(vec![member(1, "A", None, false), member(2, "B", Some(200), false)]);
    let done = tick(&mut t, Ok(Scrape { entries: vec![entry(2, "B"), entry(3, "C")], skipped: 1 }));
    assert_eq!(
        done,
        Ok(vec![Mutation::Delete { student_id: 1 }, Mutation::Insert { student_id: 3, name: "C".to_string() }])
    );
    assert_eq!(all(&t), vec![member(2, "B", Some(200), false), member(3, "C", None, false)]);
}
