use vstd::prelude::*;
use crate::membership::{
    bound_record, distinct_ids, has_account, has_id, models, with_account, MemberModel,
    Membership, MembershipTable,
};
use crate::reconcile::lemma_retire_at_seam;
use crate::text::{decimal_text, digits_of};

verus! {

/// Why a command was not carried out.
#[derive(Debug, Clone, Copy, PartialEq, Eq, Structural)]
pub enum Refusal {
    /// The caller may not do this to, or for, the member they named.
    NotPermitted,
    /// The number does not have the length of a student identifier.
    NotAStudentId,
    /// The account is bound to a record already.
    AlreadyRegistered,
    /// The table has no record with the identifier.
    UnknownStudentId,
    /// The record with the identifier is bound to an account already.
    TakenByAnother,
    /// The list of accounts is not as long as the server says it should be.
    IncompleteMemberList { expected: usize, actual: usize },
}

/// A caller may name themselves; naming another member takes privilege.
pub open spec fn may_target(caller_id: u64, privileged: bool, target: Option<u64>) -> bool {
    match target {
        Some(t) => t == caller_id || privileged,
        None => true,
    }
}

/// The account that a registration is for: the one named, or the caller's own.
pub open spec fn target_of(caller_id: u64, target: Option<u64>) -> u64 {
    match target {
        Some(t) => t,
        None => caller_id,
    }
}

/// The record of `rows` that carries `student_id`.
pub open spec fn record_of(rows: Seq<MemberModel>, student_id: u32) -> MemberModel {
    rows[choose|i: int| 0 <= i < rows.len() && (#[trigger] rows[i]).student_id == student_id]
}

/// Why a registration is refused, if it is. The reasons are tried in this order: the
/// caller may not name the target; the number written in decimal has not as many digits
/// as a student identifier; the target account is bound already; no record carries the
/// number; the record is bound already.
pub open spec fn registration_refusal(
    rows: Seq<MemberModel>,
    caller_id: u64,
    privileged: bool,
    target: Option<u64>,
    student_id: u32,
    student_id_length: usize,
) -> Option<Refusal> {
    if !may_target(caller_id, privileged, target) {
        Some(Refusal::NotPermitted)
    } else if digits_of(student_id as nat).len() != student_id_length {
        Some(Refusal::NotAStudentId)
    } else if has_account(rows, target_of(caller_id, target)) {
        Some(Refusal::AlreadyRegistered)
    } else if !has_id(rows, student_id) {
        Some(Refusal::UnknownStudentId)
    } else if record_of(rows, student_id).discord_id is Some {
        Some(Refusal::TakenByAnother)
    } else {
        None
    }
}

/// Checks what can be checked of a registration without the table: that the caller may
/// name the target, and that the number has the length of a student identifier. Returns
/// the account that the registration is for.
pub fn check_request(
    caller_id: u64,
    privileged: bool,
    target: Option<u64>,
    student_id: u32,
    student_id_length: usize,
) -> (checked: Result<u64, Refusal>)
    ensures
        match checked {
            Ok(who) => may_target(caller_id, privileged, target) && digits_of(
                student_id as nat,
            ).len() == student_id_length && who == target_of(caller_id, target),
            Err(refusal) => if !may_target(caller_id, privileged, target) {
                refusal == Refusal::NotPermitted
            } else {
                digits_of(student_id as nat).len() != student_id_length && refusal
                    == Refusal::NotAStudentId
            },
        },
{
    let who = match target {
        Some(t) => {
            if t != caller_id && !privileged {
                return Err(Refusal::NotPermitted);
            }
            t
        },
        None => caller_id,
    };
    let written = decimal_text(student_id as u64);
    if written.as_str().unicode_len() != student_id_length {
        return Err(Refusal::NotAStudentId);
    }
    Ok(who)
}

/// Registers an account under a student identifier: binds the record that carries the
/// identifier to the target account and returns it as bound, unless the registration is
/// refused. A refused registration leaves the table as it is.
pub fn register(
    table: &mut MembershipTable,
    caller_id: u64,
    privileged: bool,
    target: Option<u64>,
    student_id: u32,
    student_id_length: usize,
) -> (outcome: Result<Membership, Refusal>)
    ensures
        match outcome {
            Ok(m) => {
                &&& registration_refusal(
                    old(table)@,
                    caller_id,
                    privileged,
                    target,
                    student_id,
                    student_id_length,
                ) is None
                &&& m@ == (MemberModel {
                    discord_id: Some(target_of(caller_id, target)),
                    ..record_of(old(table)@, student_id)
                })
                &&& final(table)@ == with_account(
                    old(table)@,
                    student_id,
                    Some(target_of(caller_id, target)),
                )
            },
            Err(refusal) => {
                &&& registration_refusal(
                    old(table)@,
                    caller_id,
                    privileged,
                    target,
                    student_id,
                    student_id_length,
                ) == Some(refusal)
                &&& final(table)@ == old(table)@
            },
        },
{
    let who = match check_request(caller_id, privileged, target, student_id, student_id_length) {
        Ok(who) => who,
        Err(refusal) => {
            return Err(refusal);
        },
    };
    if Membership::get_by_discord_id(table, who).is_ok() {
        return Err(Refusal::AlreadyRegistered);
    }
    match Membership::get_by_student_id(table, student_id) {
        Err(_) => Err(Refusal::UnknownStudentId),
        Ok(found) => {
            proof {
                let rows = table@;
                let j = choose|j: int| 0 <= j < rows.len() && rows[j] == found@;
                let i = choose|i: int|
                    0 <= i < rows.len() && (#[trigger] rows[i]).student_id == student_id;
                assert(rows[j].student_id == student_id);
                assert(i == j);
            }
            let mut found = found;
            if found.discord_id.is_some() {
                return Err(Refusal::TakenByAnother);
            }
            let _ = found.update_disord_id(table, Some(who));
            Ok(found)
        },
    }
}

/// The table after the first record that is bound to `discord_id` was unbound; the
/// table itself where no record is bound to it.
pub open spec fn unbound(rows: Seq<MemberModel>, discord_id: u64) -> Seq<MemberModel> {
    if has_account(rows, discord_id) {
        with_account(rows, bound_record(rows, discord_id).student_id, None)
    } else {
        rows
    }
}

/// Unregisters an account on behalf of a privileged caller: the first record that is
/// bound to the account is unbound, and returned as it now stands. A table without such
/// a record, or a caller without privilege, leaves the table as it is.
pub fn unregister(table: &mut MembershipTable, privileged: bool, target_id: u64) -> (outcome:
    Result<Option<Membership>, Refusal>)
    ensures
        match outcome {
            Ok(released) => {
                &&& privileged
                &&& final(table)@ == unbound(old(table)@, target_id)
                &&& released is Some == has_account(old(table)@, target_id)
                &&& released matches Some(m) ==> m@ == (MemberModel {
                    discord_id: None,
                    ..bound_record(old(table)@, target_id)
                })
            },
            Err(refusal) => !privileged && refusal == Refusal::NotPermitted && final(table)@
                == old(table)@,
        },
{
    if !privileged {
        return Err(Refusal::NotPermitted);
    }
    match Membership::get_by_discord_id(table, target_id) {
        Ok(found) => {
            let mut found = found;
            let _ = found.update_disord_id(table, None);
            Ok(Some(found))
        },
        Err(_) => Ok(None),
    }
}

/// The account keeps its role: a record is bound to it, and the first such record is not
/// waiting for offboarding.
pub open spec fn keeps_role(rows: Seq<MemberModel>, user_id: u64) -> bool {
    has_account(rows, user_id) && !bound_record(rows, user_id).should_drop
}

/// The accounts among `users` that lose their role, in the order of `users`.
pub open spec fn stripped(rows: Seq<MemberModel>, users: Seq<u64>) -> Seq<u64> {
    users.filter(|user_id: u64| !keeps_role(rows, user_id))
}

/// Whether the account keeps its role.
fn has_standing(table: &MembershipTable, user_id: u64) -> (keeps: bool)
    ensures
        keeps == keeps_role(table@, user_id),
{
    match Membership::get_by_discord_id(table, user_id) {
        Ok(found) => !found.should_drop,
        Err(_) => false,
    }
}

/// Decides who loses the member role in a prune that a privileged caller asked for:
/// every account of the server that no record is bound to, or whose record is waiting
/// for offboarding. The list of accounts must be as long as the server says it is.
pub fn prune_roles(
    table: &MembershipTable,
    privileged: bool,
    users: &Vec<u64>,
    member_count: usize,
) -> (outcome: Result<Vec<u64>, Refusal>)
    ensures
        match outcome {
            Ok(losers) => privileged && users@.len() == member_count && losers@ == stripped(
                table@,
                users@,
            ),
            Err(refusal) => if !privileged {
                refusal == Refusal::NotPermitted
            } else {
                users@.len() != member_count && refusal == (Refusal::IncompleteMemberList {
                    expected: member_count,
                    actual: users@.len() as usize,
                })
            },
        },
{
    if !privileged {
        return Err(Refusal::NotPermitted);
    }
    if users.len() != member_count {
        return Err(Refusal::IncompleteMemberList { expected: member_count, actual: users.len() });
    }
    let ghost rows = table@;
    let mut losers: Vec<u64> = Vec::new();
    let mut i: usize = 0;
    proof {
        reveal(Seq::filter);
        assert(users@.take(0) =~= Seq::<u64>::empty());
    }
    while i < users.len()
        invariant
            i <= users@.len(),
            rows == table@,
            losers@ == stripped(rows, users@.take(i as int)),
        decreases users@.len() - i,
    {
        proof {
            reveal(Seq::filter);
            assert(users@.take(i + 1).drop_last() =~= users@.take(i as int));
            assert(users@.take(i + 1).last() == users@[i as int]);
        }
        if !has_standing(table, users[i]) {
            losers.push(users[i]);
        }
        i = i + 1;
    }
    assert(users@.take(i as int) =~= users@);
    Ok(losers)
}

/// The record is bound to an account and waiting for offboarding.
pub open spec fn awaits_offboarding(m: MemberModel) -> bool {
    m.discord_id is Some && m.should_drop
}

/// The table without the records that were waiting for offboarding.
pub open spec fn after_offboarding(rows: Seq<MemberModel>) -> Seq<MemberModel> {
    rows.filter(|m: MemberModel| !awaits_offboarding(m))
}

/// The identifiers of the records that were waiting for offboarding, in table order.
pub open spec fn offboarded_ids(rows: Seq<MemberModel>) -> Seq<u32> {
    rows.filter(|m: MemberModel| awaits_offboarding(m)).map_values(|m: MemberModel| m.student_id)
}

/// Ends a prune, once the roles are gone: deletes every record that is bound to an
/// account and waiting for offboarding, and returns the identifiers deleted. Unbound
/// records and records that are not flagged stay.
pub fn prune_records(table: &mut MembershipTable) -> (deleted: Vec<u32>)
    ensures
        final(table)@ == after_offboarding(old(table)@),
        deleted@ == offboarded_ids(old(table)@),
        distinct_ids(final(table)@),
{
    let ghost before = table@;
    let all = match Membership::get_all(table) {
        Ok(rows) => rows,
        Err(_) => Vec::new(),
    };
    let mut deleted: Vec<u32> = Vec::new();
    proof {
        reveal(Seq::filter);
        assert(before.take(0) =~= Seq::<MemberModel>::empty());
        assert(after_offboarding(before.take(0)) + before.skip(0) =~= before);
        assert(deleted@ =~= offboarded_ids(before.take(0)));
    }
    let mut i: usize = 0;
    while i < all.len()
        invariant
            i <= all@.len(),
            models(all@) == before,
            distinct_ids(table@),
            table@ == after_offboarding(before.take(i as int)) + before.skip(i as int),
            deleted@ == offboarded_ids(before.take(i as int)),
        decreases all@.len() - i,
    {
        let ghost done = after_offboarding(before.take(i as int));
        let ghost rest = before.skip(i as int);
        let ghost m = before[i as int];
        let ghost gone = deleted@;
        proof {
            reveal(Seq::filter);
            assert(before.take(i + 1).drop_last() =~= before.take(i as int));
            assert(before.take(i + 1).last() == m);
            assert(rest[0] == m);
            assert(rest.drop_first() =~= before.skip(i + 1));
            lemma_retire_at_seam(done, rest);
            assert(all@[i as int]@ == m);
        }
        if all[i].discord_id.is_some() && all[i].should_drop {
            let row = all[i].clone();
            deleted.push(row.student_id);
            assert(deleted@ =~= offboarded_ids(before.take(i + 1)));
            let _ = row.delete(table);
        } else {
            assert(table@ =~= done.push(m) + before.skip(i + 1));
        }
        i = i + 1;
    }
    proof {
        assert(before.take(i as int) =~= before);
        assert(after_offboarding(before) + before.skip(i as int) =~= after_offboarding(before));
    }
    deleted
}

} // verus!
