use roster_sync::error::Error;
use roster_sync::membership::{Membership, MembershipTable};

fn member(student_id: u32, name: &str, discord_id: Option<u64>, should_drop: bool) -> Membership {
    Membership { student_id, name: name.to_string(), discord_id, should_drop }
}

fn table(rows: Vec<Membership>) -> MembershipTable {
    MembershipTable::from_rows(rows).expect("distinct identifiers")
}

fn all(table: &MembershipTable) -> Vec<Membership> {
    Membership::get_all(table).unwrap()
}

#[test]
fn new_table_is_empty() {
    let t = MembershipTable::new();
    assert_eq!(t.len(), 0);
    assert!(all(&t).is_empty());
    assert!(!t.contains(1));
}

#[test]
fn duplicate_identifiers_are_refused() {
    assert!(MembershipTable::from_rows(vec![member(1, "a", None, false), member(1, "b", None, false)])
        .is_none());
    assert!(MembershipTable::from_rows(vec![
        member(1, "a", None, false),
        member(2, "b", None, false),
        member(1, "c", Some(9), true)
    ])
    .is_none());
    let t = table(vec![member(1, "a", None, false), member(2, "a", None, false)]);
    assert_eq!(t.len(), 2);
}

#[test]
fn lookup_by_student_id() {
    let t = table(vec![member(1, "Ada", Some(10), false), member(2, "Grace", None, true)]);
    assert_eq!(Membership::get_by_student_id(&t, 2), Ok(member(2, "Grace", None, true)));
    assert_eq!(Membership::get_by_student_id(&t, 1), Ok(member(1, "Ada", Some(10), false)));
    assert_eq!(Membership::get_by_student_id(&t, 3), Err(Error::NotFound));
    assert!(t.contains(1));
    assert!(!t.contains(3));
}

#[test]
fn lookup_by_discord_id_takes_the_first_in_table_order() {
    let t = table(vec![
        member(1, "Ada", None, false),
        member(2, "Grace", Some(77), false),
        member(3, "Edsger", Some(77), true),
    ]);
    assert_eq!(Membership::get_by_discord_id(&t, 77), Ok(member(2, "Grace", Some(77), false)));
    assert_eq!(Membership::get_by_discord_id(&t, 78), Err(Error::NotFound));
}

#[test]
fn get_all_keeps_table_order() {
    let rows = vec![member(3, "c", None, false), member(1, "a", Some(5), true), member(2, "b", None, false)];
    let t = table(rows.clone());
    assert_eq!(all(&t), rows);
}

#[test]
fn binding_changes_the_record_and_the_value() {
    let mut t = table(vec![member(1, "Ada", None, false), member(2, "Grace", None, false)]);
    let mut m = Membership::get_by_student_id(&t, 2).unwrap();
    assert_eq!(m.update_disord_id(&mut t, Some(42)), Ok(()));
    assert_eq!(m.discord_id, Some(42));
    assert_eq!(all(&t), vec![member(1, "Ada", None, false), member(2, "Grace", Some(42), false)]);
    assert_eq!(m.update_disord_id(&mut t, None), Ok(()));
    assert_eq!(m.discord_id, None);
    assert_eq!(all(&t), vec![member(1, "Ada", None, false), member(2, "Grace", None, false)]);
}

#[test]
fn binding_an_absent_record_changes_only_the_value() {
    let mut t = table(vec![member(1, "Ada", None, false)]);
    let mut m = member(9, "Nobody", None, false);
    assert_eq!(m.update_disord_id(&mut t, Some(42)), Ok(()));
    assert_eq!(m.discord_id, Some(42));
    assert_eq!(all(&t), vec![member(1, "Ada", None, false)]);
}

#[test]
fn flagging_changes_the_record_and_the_value() {
    let mut t = table(vec![member(1, "Ada", Some(4), false), member(2, "Grace", None, false)]);
    let mut m = Membership::get_by_student_id(&t, 1).unwrap();
    assert_eq!(m.update_should_drop(&mut t, true), Ok(()));
    assert!(m.should_drop);
    assert_eq!(all(&t), vec![member(1, "Ada", Some(4), true), member(2, "Grace", None, false)]);
    assert_eq!(m.update_should_drop(&mut t, true), Ok(()));
    assert_eq!(all(&t), vec![member(1, "Ada", Some(4), true), member(2, "Grace", None, false)]);
    assert_eq!(m.update_should_drop(&mut t, false), Ok(()));
    assert_eq!(all(&t), vec![member(1, "Ada", Some(4), false), member(2, "Grace", None, false)]);
}

#[test]
fn insert_stores_an_unbound_record_once() {
    let mut t = MembershipTable::new();
    assert_eq!(member(5, "Eve", Some(99), true).insert(&mut t), Ok(()));
    assert_eq!(all(&t), vec![member(5, "Eve", None, false)]);
    assert_eq!(member(5, "Other", None, false).insert(&mut t), Ok(()));
    assert_eq!(all(&t), vec![member(5, "Eve", None, false)]);
    assert_eq!(member(4, "Dan", None, false).insert(&mut t), Ok(()));
    assert_eq!(all(&t), vec![member(5, "Eve", None, false), member(4, "Dan", None, false)]);
}

#[test]
fn insert_leaves_a_bound_record_alone() {
    let mut t = table(vec![member(5, "Eve", Some(99), true)]);
    assert_eq!(member(5, "Eve again", None, false).insert(&mut t), Ok(()));
    assert_eq!(all(&t), vec![member(5, "Eve", Some(99), true)]);
}

#[test]
fn delete_removes_the_record() {
    let mut t = table(vec![member(1, "a", None, false), member(2, "b", Some(3), true), member(3, "c", None, false)]);
    assert_eq!(member(2, "whatever", None, false).delete(&mut t), Ok(()));
    assert_eq!(all(&t), vec![member(1, "a", None, false), member(3, "c", None, false)]);
    assert_eq!(member(7, "absent", None, false).delete(&mut t), Ok(()));
    assert_eq!(all(&t), vec![member(1, "a", None, false), member(3, "c", None, false)]);
    assert_eq!(member(3, "c", None, false).delete(&mut t), Ok(()));
    assert_eq!(member(1, "a", None, false).delete(&mut t), Ok(()));
    assert_eq!(t.len(), 0);
}

#[test]
fn clone_copies_every_field() {
    let m = member(1, "Ada", Some(2), true);
    assert_eq!(m.clone(), m);
}
