use roster_sync::commands::{
    check_request, prune_records, prune_roles, register, unregister, Refusal,
};
use roster_sync::membership::{Membership, MembershipTable};

fn member(student_id: u32, name: &str, discord_id: Option<u64>, should_drop: bool) -> Membership {
    Membership { student_id, name: name.to_string(), discord_id, should_drop }
}

fn table(rows: Vec<Membership>) -> MembershipTable {
    MembershipTable::from_rows(rows).expect("distinct identifiers")
}

fn all(table: &MembershipTable) -> Vec<Membership> {
    Membership::get_all(table).unwrap()
}

fn roster() -> Vec<Membership> {
    vec![
        member(10000001, "Ada", None, false),
        member(10000002, "Grace", Some(500), false),
        member(10000003, "Edsger", Some(600), true),
        member(123, "Short", None, false),
    ]
}

#[test]
fn register_binds_the_caller() {
    let mut t = table(roster());
    let done = register(&mut t, 700, false, None, 10000001, 8);
    assert_eq!(done, Ok(member(10000001, "Ada", Some(700), false)));
    assert_eq!(Membership::get_by_discord_id(&t, 700), Ok(member(10000001, "Ada", Some(700), false)));
    assert_eq!(all(&t)[1..], roster()[1..]);
}

#[test]
fn register_binds_a_named_target_for_a_privileged_caller() {
    let mut t = table(roster());
    assert_eq!(
        register(&mut t, 1, true, Some(700), 10000001, 8),
        Ok(member(10000001, "Ada", Some(700), false))
    );
    let mut t = table(roster());
    assert_eq!(
        register(&mut t, 700, false, Some(700), 10000001, 8),
        Ok(member(10000001, "Ada", Some(700), false))
    );
}

#[test]
fn register_refuses_in_order() {
    let mut t = table(roster());
    assert_eq!(register(&mut t, 1, false, Some(700), 5, 8), Err(Refusal::NotPermitted));
    assert_eq!(register(&mut t, 500, false, None, 5, 8), Err(Refusal::NotAStudentId));
    assert_eq!(register(&mut t, 500, false, None, 123456789, 8), Err(Refusal::NotAStudentId));
    assert_eq!(register(&mut t, 500, false, None, 10000001, 8), Err(Refusal::AlreadyRegistered));
    assert_eq!(register(&mut t, 700, false, None, 99999999, 8), Err(Refusal::UnknownStudentId));
    assert_eq!(register(&mut t, 700, false, None, 10000002, 8), Err(Refusal::TakenByAnother));
    assert_eq!(register(&mut t, 700, false, None, 123, 8), Err(Refusal::NotAStudentId));
    assert_eq!(all(&t), roster());
    assert_eq!(register(&mut t, 700, false, None, 123, 3), Ok(member(123, "Short", Some(700), false)));
}

#[test]
fn unregister_unbinds_for_privileged_callers_only() {
    let mut t = table(roster());
    assert_eq!(unregister(&mut t, false, 500), Err(Refusal::NotPermitted));
    assert_eq!(all(&t), roster());
    assert_eq!(unregister(&mut t, true, 500), Ok(Some(member(10000002, "Grace", None, false))));
    assert_eq!(Membership::get_by_student_id(&t, 10000002), Ok(member(10000002, "Grace", None, false)));
    assert_eq!(unregister(&mut t, true, 12345), Ok(None));
    assert_eq!(all(&t).len(), 4);
    assert_eq!(Membership::get_by_student_id(&t, 10000003), Ok(member(10000003, "Edsger", Some(600), true)));
    assert_eq!(unregister(&mut t, true, 600), Ok(Some(member(10000003, "Edsger", None, true))));
}

#[test]
fn requests_are_checked_before_the_table_is_read() {
    assert_eq!(check_request(1, false, None, 12345678, 8), Ok(1));
    assert_eq!(check_request(1, false, Some(1), 12345678, 8), Ok(1));
    assert_eq!(check_request(1, true, Some(2), 12345678, 8), Ok(2));
    assert_eq!(check_request(1, false, Some(2), 12345678, 8), Err(Refusal::NotPermitted));
    assert_eq!(check_request(1, false, Some(2), 1, 8), Err(Refusal::NotPermitted));
    assert_eq!(check_request(1, false, None, 1234567, 8), Err(Refusal::NotAStudentId));
    assert_eq!(check_request(1, false, None, 123456789, 8), Err(Refusal::NotAStudentId));
    assert_eq!(check_request(1, false, None, 0, 1), Ok(1));
    assert_eq!(check_request(1, false, None, 0, 0), Err(Refusal::NotAStudentId));
    assert_eq!(check_request(1, false, None, u32::MAX, 10), Ok(1));
}

#[test]
fn prune_strips_unknown_and_flagged_accounts() {
    let t = table(roster());
    assert_eq!(prune_roles(&t, true, &vec![500, 600, 700, 500], 4), Ok(vec![600, 700]));
    assert_eq!(prune_roles(&t, true, &Vec::new(), 0), Ok(Vec::new()));
    assert_eq!(prune_roles(&t, false, &vec![500], 1), Err(Refusal::NotPermitted));
    assert_eq!(
        prune_roles(&t, true, &vec![500, 600], 3),
        Err(Refusal::IncompleteMemberList { expected: 3, actual: 2 })
    );
}

#[test]
fn prune_deletes_bound_records_that_wait_for_offboarding() {
    let mut rows = roster();
    rows.push(member(10000009, "Unbound but flagged", None, true));
    rows.push(member(10000010, "Also leaving", Some(800), true));
    let mut t = table(rows);
    assert_eq!(prune_records(&mut t), vec![10000003, 10000010]);
    assert_eq!(
        all(&t),
        vec![
            member(10000001, "Ada", None, false),
            member(10000002, "Grace", Some(500), false),
            member(123, "Short", None, false),
            member(10000009, "Unbound but flagged", None, true),
        ]
    );
    assert_eq!(prune_records(&mut t), Vec::<u32>::new());
}
