use vstd::prelude::*;
use crate::membership::{
    distinct_ids, fresh_record, has_account, has_id, with_account, with_inserted, MemberModel,
};
use crate::reconcile::{
    after_inserts, after_removals, applied, applied_all, insert_plan, lemma_after_removals_push,
    lemma_retire_at_seam, plan, reconciled, removal_of, removal_plan, survivor, MutationModel,
};
use crate::roster::{listed, EntryModel};

verus! {

/// `s` is what the removal pass makes of some record of `rows`.
pub open spec fn survives_from(rows: Seq<MemberModel>, entries: Seq<EntryModel>, s: MemberModel) -> bool {
    exists|i: int| 0 <= i < rows.len() && survivor(#[trigger] rows[i], entries) == Some(s)
}

/// Every record that the removal pass leaves is the survivor of a record that was there.
pub proof fn lemma_removals_sound(rows: Seq<MemberModel>, entries: Seq<EntryModel>)
    ensures
        forall|j: int|
            0 <= j < after_removals(rows, entries).len() ==> survives_from(
                rows,
                entries,
                #[trigger] after_removals(rows, entries)[j],
            ),
    decreases rows.len(),
{
    if rows.len() > 0 {
        let init = rows.drop_last();
        let last = rows.last();
        let kept = after_removals(init, entries);
        let all = after_removals(rows, entries);
        lemma_removals_sound(init, entries);
        lemma_after_removals_push(init, last, entries);
        assert(init.push(last) =~= rows);
        assert forall|j: int| 0 <= j < all.len() implies survives_from(
            rows,
            entries,
            #[trigger] all[j],
        ) by {
            if j < kept.len() {
                assert(all[j] == kept[j]);
                assert(survives_from(init, entries, kept[j]));
                let i = choose|i: int|
                    0 <= i < init.len() && survivor(#[trigger] init[i], entries) == Some(kept[j]);
                assert(rows[i] == init[i]);
            } else {
                assert(rows[rows.len() - 1] == last);
            }
        }
    }
}

/// Every record that has a survivor is represented by it after the removal pass.
pub proof fn lemma_removals_complete(rows: Seq<MemberModel>, entries: Seq<EntryModel>, i: int)
    requires
        0 <= i < rows.len(),
        survivor(rows[i], entries) is Some,
    ensures
        after_removals(rows, entries).contains(survivor(rows[i], entries)->0),
    decreases rows.len(),
{
    let init = rows.drop_last();
    let last = rows.last();
    let kept = after_removals(init, entries);
    let all = after_removals(rows, entries);
    let s = survivor(rows[i], entries)->0;
    lemma_after_removals_push(init, last, entries);
    assert(init.push(last) =~= rows);
    if i < rows.len() - 1 {
        assert(init[i] == rows[i]);
        lemma_removals_complete(init, entries, i);
        let j = choose|j: int| 0 <= j < kept.len() && kept[j] == s;
        assert(all[j] == s);
    } else {
        assert(all[all.len() - 1] == s);
    }
}

/// The removal pass keeps identifiers distinct.
pub proof fn lemma_removals_distinct(rows: Seq<MemberModel>, entries: Seq<EntryModel>)
    requires
        distinct_ids(rows),
    ensures
        distinct_ids(after_removals(rows, entries)),
    decreases rows.len(),
{
    if rows.len() > 0 {
        let init = rows.drop_last();
        let last = rows.last();
        let kept = after_removals(init, entries);
        let all = after_removals(rows, entries);
        assert forall|a: int, b: int|
            0 <= a < init.len() && 0 <= b < init.len() && a != b implies (#[trigger] init[a]).student_id
            != (#[trigger] init[b]).student_id by {
            assert(rows[a].student_id != rows[b].student_id);
        }
        lemma_removals_distinct(init, entries);
        lemma_removals_sound(init, entries);
        lemma_after_removals_push(init, last, entries);
        assert(init.push(last) =~= rows);
        assert forall|a: int, b: int|
            0 <= a < all.len() && 0 <= b < all.len() && a != b implies (#[trigger] all[a]).student_id
            != (#[trigger] all[b]).student_id by {
            if a < kept.len() && b < kept.len() {
                assert(kept[a].student_id != kept[b].student_id);
            } else {
                let c = if a < kept.len() { a } else { b };
                assert(survives_from(init, entries, kept[c]));
                let i = choose|i: int|
                    0 <= i < init.len() && survivor(#[trigger] init[i], entries) == Some(kept[c]);
                assert(rows[i].student_id != rows[rows.len() - 1].student_id);
            }
        }
    }
}

/// `s` is the new record that some entry of the scrape creates.
pub open spec fn enters_from(entries: Seq<EntryModel>, s: MemberModel) -> bool {
    exists|i: int|
        0 <= i < entries.len() && s == fresh_record(
            (#[trigger] entries[i]).student_id,
            entries[i].name,
        )
}

/// The insert pass only appends: the table it was given stays in front, what follows
/// are new records made from entries, every listed identifier is present afterwards,
/// and identifiers stay distinct.
pub proof fn lemma_inserts_shape(rows: Seq<MemberModel>, entries: Seq<EntryModel>)
    ensures
        rows.len() <= after_inserts(rows, entries).len(),
        forall|j: int| 0 <= j < rows.len() ==> #[trigger] after_inserts(rows, entries)[j] == rows[j],
        forall|j: int|
            rows.len() <= j < after_inserts(rows, entries).len() ==> enters_from(
                entries,
                #[trigger] after_inserts(rows, entries)[j],
            ),
        forall|i: int|
            0 <= i < entries.len() ==> has_id(
                after_inserts(rows, entries),
                (#[trigger] entries[i]).student_id,
            ),
        distinct_ids(rows) ==> distinct_ids(after_inserts(rows, entries)),
    decreases entries.len(),
{
    if entries.len() > 0 {
        let init = entries.drop_last();
        let e = entries.last();
        let mid = after_inserts(rows, init);
        let all = after_inserts(rows, entries);
        lemma_inserts_shape(rows, init);
        assert(all == with_inserted(mid, e.student_id, e.name));
        assert forall|j: int| rows.len() <= j < all.len() implies enters_from(
            entries,
            #[trigger] all[j],
        ) by {
            if j < mid.len() {
                assert(all[j] == mid[j]);
                assert(enters_from(init, mid[j]));
                let i = choose|i: int|
                    0 <= i < init.len() && mid[j] == fresh_record(
                        (#[trigger] init[i]).student_id,
                        init[i].name,
                    );
                assert(entries[i] == init[i]);
            } else {
                assert(entries[entries.len() - 1] == e);
            }
        }
        assert forall|i: int| 0 <= i < entries.len() implies has_id(
            all,
            (#[trigger] entries[i]).student_id,
        ) by {
            if i < init.len() {
                assert(init[i] == entries[i]);
                assert(has_id(mid, init[i].student_id));
                let j = choose|j: int|
                    0 <= j < mid.len() && (#[trigger] mid[j]).student_id == init[i].student_id;
                assert(all[j] == mid[j]);
            } else {
                if !has_id(mid, e.student_id) {
                    assert(all[all.len() - 1].student_id == e.student_id);
                }
            }
        }
        if distinct_ids(rows) {
            assert forall|a: int, b: int|
                0 <= a < all.len() && 0 <= b < all.len() && a != b implies (#[trigger] all[a]).student_id
                != (#[trigger] all[b]).student_id by {
                if a < mid.len() && b < mid.len() {
                    assert(mid[a].student_id != mid[b].student_id);
                } else {
                    let c = if a < mid.len() { a } else { b };
                    assert(mid[c].student_id != e.student_id);
                }
            }
        }
    }
}

/// The insert pass changes nothing and plans nothing where the table already has a
/// record for every entry.
pub proof fn lemma_inserts_settled(rows: Seq<MemberModel>, entries: Seq<EntryModel>)
    requires
        forall|i: int| 0 <= i < entries.len() ==> has_id(rows, (#[trigger] entries[i]).student_id),
    ensures
        after_inserts(rows, entries) == rows,
        insert_plan(rows, entries) == Seq::<MutationModel>::empty(),
    decreases entries.len(),
{
    if entries.len() > 0 {
        let init = entries.drop_last();
        assert forall|i: int| 0 <= i < init.len() implies has_id(
            rows,
            (#[trigger] init[i]).student_id,
        ) by {
            assert(init[i] == entries[i]);
        }
        lemma_inserts_settled(rows, init);
        assert(entries[entries.len() - 1] == entries.last());
    }
}

/// The removal pass changes nothing and plans nothing where every record is its own
/// survivor: listed, or bound and flagged already.
pub proof fn lemma_removals_settled(rows: Seq<MemberModel>, entries: Seq<EntryModel>)
    requires
        forall|i: int| 0 <= i < rows.len() ==> survivor(#[trigger] rows[i], entries) == Some(rows[i]),
    ensures
        after_removals(rows, entries) == rows,
        removal_plan(rows, entries) == Seq::<MutationModel>::empty(),
    decreases rows.len(),
{
    if rows.len() > 0 {
        let init = rows.drop_last();
        let last = rows.last();
        assert forall|i: int| 0 <= i < init.len() implies survivor(#[trigger] init[i], entries)
            == Some(init[i]) by {
            assert(init[i] == rows[i]);
        }
        lemma_removals_settled(init, entries);
        lemma_after_removals_push(init, last, entries);
        assert(init.push(last) =~= rows);
        assert(rows[rows.len() - 1] == last);
        assert(removal_of(last, entries) is None);
    } else {
        assert(after_removals(rows, entries) =~= rows);
    }
}

/// Reconciling a table once more against the scrape it was just reconciled with leaves
/// it as it is and makes no change.
pub proof fn lemma_reconcile_idempotent(rows: Seq<MemberModel>, entries: Seq<EntryModel>)
    ensures
        reconciled(reconciled(rows, entries), entries) == reconciled(rows, entries),
        plan(reconciled(rows, entries), entries) == Seq::<MutationModel>::empty(),
{
    let kept = after_removals(rows, entries);
    let settled = reconciled(rows, entries);
    lemma_removals_sound(rows, entries);
    lemma_inserts_shape(kept, entries);
    assert forall|j: int| 0 <= j < settled.len() implies survivor(
        #[trigger] settled[j],
        entries,
    ) == Some(settled[j]) by {
        if j < kept.len() {
            assert(settled[j] == kept[j]);
            assert(survives_from(rows, entries, kept[j]));
        } else {
            assert(enters_from(entries, settled[j]));
        }
    }
    lemma_removals_settled(settled, entries);
    lemma_inserts_settled(settled, entries);
    assert(plan(settled, entries) =~= Seq::<MutationModel>::empty());
}

/// A record whose identifier the scrape lists is still in the table after
/// reconciliation, exactly as it was, whether or not it was flagged for offboarding.
pub proof fn lemma_listed_record_stays(rows: Seq<MemberModel>, entries: Seq<EntryModel>, i: int)
    requires
        0 <= i < rows.len(),
        listed(entries, rows[i].student_id),
    ensures
        reconciled(rows, entries).contains(rows[i]),
{
    let kept = after_removals(rows, entries);
    lemma_removals_complete(rows, entries, i);
    lemma_inserts_shape(kept, entries);
    let j = choose|j: int| 0 <= j < kept.len() && kept[j] == rows[i];
    assert(reconciled(rows, entries)[j] == rows[i]);
}

/// A record that is bound to an account is never deleted by reconciliation: it is
/// still in the table afterwards with its identifier, name and account, flagged for
/// offboarding where the scrape does not list it and with its flag unchanged where it
/// does.
pub proof fn lemma_bound_record_stays(rows: Seq<MemberModel>, entries: Seq<EntryModel>, i: int)
    requires
        0 <= i < rows.len(),
        rows[i].discord_id is Some,
    ensures
        reconciled(rows, entries).contains(
            MemberModel {
                should_drop: rows[i].should_drop || !listed(entries, rows[i].student_id),
                ..rows[i]
            },
        ),
{
    let kept = after_removals(rows, entries);
    let s = survivor(rows[i], entries)->0;
    lemma_removals_complete(rows, entries, i);
    lemma_inserts_shape(kept, entries);
    let j = choose|j: int| 0 <= j < kept.len() && kept[j] == s;
    assert(reconciled(rows, entries)[j] == s);
}

/// Some record of `rows` carries `student_id` and is bound to an account.
pub open spec fn has_bound_id(rows: Seq<MemberModel>, student_id: u32) -> bool {
    exists|i: int|
        0 <= i < rows.len() && (#[trigger] rows[i]).student_id == student_id
            && rows[i].discord_id is Some
}

/// After reconciliation the table holds one record for each identifier that the scrape
/// lists or that a bound record carried before, no record for any other identifier, and
/// no identifier twice if none was there twice before.
pub proof fn lemma_reconciled_ids(rows: Seq<MemberModel>, entries: Seq<EntryModel>)
    ensures
        forall|id: u32|
            #[trigger] has_id(reconciled(rows, entries), id) <==> listed(entries, id)
                || has_bound_id(rows, id),
        distinct_ids(rows) ==> distinct_ids(reconciled(rows, entries)),
{
    let kept = after_removals(rows, entries);
    let settled = reconciled(rows, entries);
    lemma_removals_sound(rows, entries);
    lemma_inserts_shape(kept, entries);
    if distinct_ids(rows) {
        lemma_removals_distinct(rows, entries);
    }
    assert forall|id: u32| #[trigger] has_id(settled, id) <==> listed(entries, id) || has_bound_id(
        rows,
        id,
    ) by {
        if has_id(settled, id) {
            let j = choose|j: int| 0 <= j < settled.len() && (#[trigger] settled[j]).student_id == id;
            if j < kept.len() {
                assert(settled[j] == kept[j]);
                assert(survives_from(rows, entries, kept[j]));
                let i = choose|i: int|
                    0 <= i < rows.len() && survivor(#[trigger] rows[i], entries) == Some(kept[j]);
                assert(rows[i].student_id == id);
            } else {
                assert(enters_from(entries, settled[j]));
            }
        }
        if listed(entries, id) {
            let i = choose|i: int| 0 <= i < entries.len() && (#[trigger] entries[i]).student_id == id;
            assert(has_id(settled, entries[i].student_id));
        }
        if has_bound_id(rows, id) {
            let i = choose|i: int|
                0 <= i < rows.len() && (#[trigger] rows[i]).student_id == id
                    && rows[i].discord_id is Some;
            lemma_bound_record_stays(rows, entries, i);
            let s = MemberModel {
                should_drop: rows[i].should_drop || !listed(entries, rows[i].student_id),
                ..rows[i]
            };
            let j = choose|j: int| 0 <= j < settled.len() && settled[j] == s;
            assert(settled[j].student_id == id);
        }
    }
}

/// Two reconciliations in a row, the second against a scrape that lists everything the
/// first listed and more: afterwards the table holds a record for every identifier of
/// either scrape, and no identifier twice.
pub proof fn lemma_growing_scrapes_keep_union(
    rows: Seq<MemberModel>,
    first: Seq<EntryModel>,
    second: Seq<EntryModel>,
)
    requires
        distinct_ids(rows),
        forall|id: u32| listed(first, id) ==> listed(second, id),
    ensures
        distinct_ids(reconciled(reconciled(rows, first), second)),
        forall|id: u32|
            listed(first, id) || listed(second, id) ==> #[trigger] has_id(
                reconciled(reconciled(rows, first), second),
                id,
            ),
{
    lemma_reconciled_ids(rows, first);
    lemma_reconciled_ids(reconciled(rows, first), second);
}

/// Applying one sequence of mutations after another is applying their concatenation.
pub proof fn lemma_applied_all_concat(
    rows: Seq<MemberModel>,
    first: Seq<MutationModel>,
    second: Seq<MutationModel>,
)
    ensures
        applied_all(rows, first + second) == applied_all(applied_all(rows, first), second),
    decreases second.len(),
{
    if second.len() == 0 {
        assert(first + second =~= first);
    } else {
        lemma_applied_all_concat(rows, first, second.drop_last());
        assert((first + second).drop_last() =~= first + second.drop_last());
        assert((first + second).last() == second.last());
    }
}

/// Applying the removals planned for the first `i` records retires exactly those
/// records and leaves the rest of the table in place.
proof fn lemma_apply_removals(rows: Seq<MemberModel>, entries: Seq<EntryModel>, i: int)
    requires
        distinct_ids(rows),
        0 <= i <= rows.len(),
    ensures
        applied_all(rows, removal_plan(rows.take(i), entries)) == after_removals(
            rows.take(i),
            entries,
        ) + rows.skip(i),
        distinct_ids(after_removals(rows.take(i), entries) + rows.skip(i)),
    decreases i,
{
    if i == 0 {
        assert(rows.take(0) =~= Seq::<MemberModel>::empty());
        assert(after_removals(rows.take(0), entries) + rows.skip(0) =~= rows);
    } else {
        let m = rows[i - 1];
        let done = after_removals(rows.take(i - 1), entries);
        let rest = rows.skip(i - 1);
        let planned = removal_plan(rows.take(i - 1), entries);
        let table = done + rest;
        lemma_apply_removals(rows, entries, i - 1);
        lemma_after_removals_push(rows.take(i - 1), m, entries);
        assert(rows.take(i - 1).push(m) =~= rows.take(i));
        assert(rest[0] == m);
        assert(rest.drop_first() =~= rows.skip(i));
        lemma_retire_at_seam(done, rest);
        let next = after_removals(rows.take(i), entries) + rows.skip(i);
        match removal_of(m, entries) {
            Some(c) => {
                assert(planned.push(c).drop_last() =~= planned);
                assert(applied_all(rows, planned.push(c)) == applied(table, c));
            },
            None => {
                assert(next =~= table);
            },
        }
        assert forall|a: int, b: int|
            0 <= a < next.len() && 0 <= b < next.len() && a != b implies (#[trigger] next[a]).student_id
            != (#[trigger] next[b]).student_id by {
            if next.len() == table.len() {
                assert(next[a].student_id == table[a].student_id);
                assert(next[b].student_id == table[b].student_id);
            } else {
                let a0 = if a < done.len() { a } else { a + 1 };
                let b0 = if b < done.len() { b } else { b + 1 };
                assert(next[a] == table[a0]);
                assert(next[b] == table[b0]);
            }
        }
    }
}

/// Applying the planned inserts stores exactly what the insert pass stores.
proof fn lemma_apply_inserts(rows: Seq<MemberModel>, entries: Seq<EntryModel>)
    ensures
        applied_all(rows, insert_plan(rows, entries)) == after_inserts(rows, entries),
    decreases entries.len(),
{
    if entries.len() > 0 {
        let init = entries.drop_last();
        let e = entries.last();
        let planned = insert_plan(rows, init);
        lemma_apply_inserts(rows, init);
        if !has_id(after_inserts(rows, init), e.student_id) {
            let c = MutationModel::Insert { student_id: e.student_id, name: e.name };
            assert(planned.push(c).drop_last() =~= planned);
        }
    }
}

/// The mutations that a reconciliation reports are the whole of it: applied one by one
/// to the table as it was, they give the reconciled table.
pub proof fn lemma_plan_gives_reconciled(rows: Seq<MemberModel>, entries: Seq<EntryModel>)
    requires
        distinct_ids(rows),
    ensures
        applied_all(rows, plan(rows, entries)) == reconciled(rows, entries),
{
    let n = rows.len() as int;
    lemma_apply_removals(rows, entries, n);
    assert(rows.take(n) =~= rows);
    assert(after_removals(rows, entries) + rows.skip(n) =~= after_removals(rows, entries));
    lemma_apply_inserts(after_removals(rows, entries), entries);
    lemma_applied_all_concat(
        rows,
        removal_plan(rows, entries),
        insert_plan(after_removals(rows, entries), entries),
    );
}

/// No account is bound to two records.
pub open spec fn distinct_accounts(rows: Seq<MemberModel>) -> bool {
    forall|i: int, j: int|
        0 <= i < rows.len() && 0 <= j < rows.len() && i != j && (#[trigger] rows[i]).discord_id is Some
            ==> rows[i].discord_id != (#[trigger] rows[j]).discord_id
}

/// Reconciliation never writes a binding: every bound record of the reconciled table was
/// in the table before with the same identifier, name and account. So no account comes
/// to be bound to two records by it.
pub proof fn lemma_reconcile_keeps_bindings(rows: Seq<MemberModel>, entries: Seq<EntryModel>)
    ensures
        forall|j: int|
            0 <= j < reconciled(rows, entries).len() && (#[trigger] reconciled(
                rows,
                entries,
            )[j]).discord_id is Some ==> survives_from(rows, entries, reconciled(rows, entries)[j]),
        distinct_ids(rows) && distinct_accounts(rows) ==> distinct_accounts(
            reconciled(rows, entries),
        ),
{
    let kept = after_removals(rows, entries);
    let settled = reconciled(rows, entries);
    lemma_removals_sound(rows, entries);
    lemma_inserts_shape(kept, entries);
    assert forall|j: int|
        0 <= j < settled.len() && (#[trigger] settled[j]).discord_id is Some implies survives_from(
        rows,
        entries,
        settled[j],
    ) by {
        if j < kept.len() {
            assert(settled[j] == kept[j]);
        } else {
            assert(enters_from(entries, settled[j]));
        }
    }
    if distinct_ids(rows) && distinct_accounts(rows) {
        lemma_reconciled_ids(rows, entries);
        assert forall|a: int, b: int|
            0 <= a < settled.len() && 0 <= b < settled.len() && a != b && (
            #[trigger] settled[a]).discord_id is Some implies settled[a].discord_id != (
        #[trigger] settled[b]).discord_id by {
            if settled[b].discord_id is Some {
                assert(survives_from(rows, entries, settled[a]));
                assert(survives_from(rows, entries, settled[b]));
                let i = choose|i: int|
                    0 <= i < rows.len() && survivor(#[trigger] rows[i], entries) == Some(settled[a]);
                let k = choose|k: int|
                    0 <= k < rows.len() && survivor(#[trigger] rows[k], entries) == Some(settled[b]);
                assert(settled[a].student_id != settled[b].student_id);
                assert(i != k);
                assert(rows[i].discord_id == settled[a].discord_id);
                assert(rows[k].discord_id == settled[b].discord_id);
            }
        }
    }
}

/// Binding a record to an account that no record is bound to keeps accounts distinct.
pub proof fn lemma_binding_keeps_accounts_distinct(
    rows: Seq<MemberModel>,
    student_id: u32,
    discord_id: u64,
)
    requires
        distinct_ids(rows),
        distinct_accounts(rows),
        !has_account(rows, discord_id),
    ensures
        distinct_accounts(with_account(rows, student_id, Some(discord_id))),
{
    let bound = with_account(rows, student_id, Some(discord_id));
    assert forall|a: int, b: int|
        0 <= a < bound.len() && 0 <= b < bound.len() && a != b && (#[trigger] bound[a]).discord_id is Some implies bound[a].discord_id
        != (#[trigger] bound[b]).discord_id by {
        assert(rows[a].student_id != rows[b].student_id);
        if rows[a].student_id == student_id {
            assert(rows[b].discord_id != Some(discord_id));
        } else if rows[b].student_id == student_id {
            assert(rows[a].discord_id != Some(discord_id));
        } else {
            assert(rows[a].discord_id != rows[b].discord_id);
        }
    }
}

} // verus!
