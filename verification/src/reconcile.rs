use vstd::prelude::*;
use crate::error::Error;
use crate::membership::{
    distinct_ids, has_id, models, with_flag, with_inserted, without_id, MemberModel, Membership,
    MembershipTable,
};
use crate::roster::{entry_models, listed, listed_ids, EntryModel, RosterEntry, Scrape};

verus! {

/// What becomes of a record whose identifier the scrape no longer lists: it goes where
/// no account is bound to it, and otherwise stays, waiting for offboarding.
pub open spec fn retired(m: MemberModel) -> Option<MemberModel> {
    if m.discord_id is None {
        None
    } else {
        Some(MemberModel { should_drop: true, ..m })
    }
}

/// What becomes of a record under a scrape: a listed one stays as it is, whatever its
/// flag says, and an unlisted one is retired.
pub open spec fn survivor(m: MemberModel, entries: Seq<EntryModel>) -> Option<MemberModel> {
    if listed(entries, m.student_id) {
        Some(m)
    } else {
        retired(m)
    }
}

/// The table after the records that the scrape no longer lists were retired.
pub open spec fn after_removals(rows: Seq<MemberModel>, entries: Seq<EntryModel>) -> Seq<
    MemberModel,
> {
    rows.filter_map(|m: MemberModel| survivor(m, entries))
}

/// The table after each entry of the scrape, in order, was stored unless a record with
/// its identifier was there already.
pub open spec fn after_inserts(rows: Seq<MemberModel>, entries: Seq<EntryModel>) -> Seq<
    MemberModel,
>
    decreases entries.len(),
{
    if entries.len() == 0 {
        rows
    } else {
        let e = entries.last();
        with_inserted(after_inserts(rows, entries.drop_last()), e.student_id, e.name)
    }
}

/// The table after one reconciliation against a scrape: removals first, judged against
/// the whole scrape, then inserts.
pub open spec fn reconciled(rows: Seq<MemberModel>, entries: Seq<EntryModel>) -> Seq<MemberModel> {
    after_inserts(after_removals(rows, entries), entries)
}

/// The mathematical value of a [`Mutation`].
pub ghost enum MutationModel {
    Delete { student_id: u32 },
    Flag { student_id: u32 },
    Insert { student_id: u32, name: Seq<char> },
}

/// One change of the persisted table, each a single statement against the store.
#[derive(Debug, PartialEq, Eq)]
pub enum Mutation {
    /// Remove the record that carries `student_id`.
    Delete { student_id: u32 },
    /// Mark the record that carries `student_id` as waiting for offboarding.
    Flag { student_id: u32 },
    /// Store a new, unbound record.
    Insert { student_id: u32, name: String },
}

impl View for Mutation {
    type V = MutationModel;

    open spec fn view(&self) -> MutationModel {
        match *self {
            Mutation::Delete { student_id } => MutationModel::Delete { student_id },
            Mutation::Flag { student_id } => MutationModel::Flag { student_id },
            Mutation::Insert { student_id, name } => MutationModel::Insert {
                student_id,
                name: name@,
            },
        }
    }
}

/// The values of a sequence of mutations, in order.
pub open spec fn mutation_models(mutations: Seq<Mutation>) -> Seq<MutationModel> {
    mutations.map_values(|m: Mutation| m@)
}

/// The change that retiring brings to one record, if any: none to a listed record, and
/// none to a bound record that is flagged already.
pub open spec fn removal_of(m: MemberModel, entries: Seq<EntryModel>) -> Option<MutationModel> {
    if listed(entries, m.student_id) {
        None
    } else if m.discord_id is None {
        Some(MutationModel::Delete { student_id: m.student_id })
    } else if !m.should_drop {
        Some(MutationModel::Flag { student_id: m.student_id })
    } else {
        None
    }
}

/// The changes of the removal pass, in table order.
pub open spec fn removal_plan(rows: Seq<MemberModel>, entries: Seq<EntryModel>) -> Seq<
    MutationModel,
> {
    rows.filter_map(|m: MemberModel| removal_of(m, entries))
}

/// The changes of the insert pass over `rows`, in scrape order: one for each entry whose
/// identifier neither `rows` nor an earlier entry carries.
pub open spec fn insert_plan(rows: Seq<MemberModel>, entries: Seq<EntryModel>) -> Seq<
    MutationModel,
>
    decreases entries.len(),
{
    if entries.len() == 0 {
        Seq::empty()
    } else {
        let e = entries.last();
        let earlier = insert_plan(rows, entries.drop_last());
        if has_id(after_inserts(rows, entries.drop_last()), e.student_id) {
            earlier
        } else {
            earlier.push(MutationModel::Insert { student_id: e.student_id, name: e.name })
        }
    }
}

/// Every change that one reconciliation makes, in the order in which it makes them.
pub open spec fn plan(rows: Seq<MemberModel>, entries: Seq<EntryModel>) -> Seq<MutationModel> {
    removal_plan(rows, entries) + insert_plan(after_removals(rows, entries), entries)
}

/// The table after one mutation.
pub open spec fn applied(rows: Seq<MemberModel>, mutation: MutationModel) -> Seq<MemberModel> {
    match mutation {
        MutationModel::Delete { student_id } => without_id(rows, student_id),
        MutationModel::Flag { student_id } => with_flag(rows, student_id, true),
        MutationModel::Insert { student_id, name } => with_inserted(rows, student_id, name),
    }
}

/// The table after a sequence of mutations, first to last.
pub open spec fn applied_all(rows: Seq<MemberModel>, mutations: Seq<MutationModel>) -> Seq<
    MemberModel,
>
    decreases mutations.len(),
{
    if mutations.len() == 0 {
        rows
    } else {
        applied(applied_all(rows, mutations.drop_last()), mutations.last())
    }
}

/// The removal pass over a table that grew by one record at its end.
pub proof fn lemma_after_removals_push(
    rows: Seq<MemberModel>,
    m: MemberModel,
    entries: Seq<EntryModel>,
)
    ensures
        after_removals(rows.push(m), entries) == match survivor(m, entries) {
            Some(s) => after_removals(rows, entries).push(s),
            None => after_removals(rows, entries),
        },
        removal_plan(rows.push(m), entries) == match removal_of(m, entries) {
            Some(c) => removal_plan(rows, entries).push(c),
            None => removal_plan(rows, entries),
        },
{
    assert(rows.push(m).drop_last() =~= rows);
    match survivor(m, entries) {
        Some(s) => {
            assert(after_removals(rows, entries) + seq![s] =~= after_removals(rows, entries).push(
                s,
            ));
        },
        None => {},
    }
    match removal_of(m, entries) {
        Some(c) => {
            assert(removal_plan(rows, entries) + seq![c] =~= removal_plan(rows, entries).push(c));
        },
        None => {},
    }
}

/// What deleting or flagging the record at the seam of a table does: the record at the
/// head of `rest` goes, or is flagged, and every other record stays.
pub proof fn lemma_retire_at_seam(done: Seq<MemberModel>, rest: Seq<MemberModel>)
    requires
        rest.len() > 0,
        distinct_ids(done + rest),
    ensures
        without_id(done + rest, rest[0].student_id) == done + rest.drop_first(),
        with_flag(done + rest, rest[0].student_id, true) == done.push(
            MemberModel { should_drop: true, ..rest[0] },
        ) + rest.drop_first(),
{
    let all = done + rest;
    let at = done.len() as int;
    let id = rest[0].student_id;
    assert(all[at] == rest[0]);
    crate::membership::lemma_without_id_removes(all, id, at);
    assert(all.remove(at) =~= done + rest.drop_first());
    crate::membership::lemma_one_record_rewritten(all, at, None, true);
    let flagged = with_flag(all, id, true);
    let target = done.push(MemberModel { should_drop: true, ..rest[0] }) + rest.drop_first();
    assert(flagged =~= target);
}

/// Reconciles the table with a scrape. First every record whose identifier the scrape
/// does not list is retired: deleted where no account is bound to it, flagged for
/// offboarding otherwise. Then every entry of the scrape whose identifier the table
/// lacks is stored as a new record. Records that the scrape lists are left untouched,
/// whatever their flag says. Returns the changes made, in order.
pub fn reconcile(table: &mut MembershipTable, entries: &Vec<RosterEntry>) -> (mutations: Vec<
    Mutation,
>)
    ensures
        final(table)@ == reconciled(old(table)@, entry_models(entries@)),
        distinct_ids(final(table)@),
        mutation_models(mutations@) == plan(old(table)@, entry_models(entries@)),
{
    broadcast use vstd::std_specs::hash::group_hash_axioms;

    let ghost before = table@;
    let ghost scrape = entry_models(entries@);
    let mut mutations: Vec<Mutation> = Vec::new();
    let student_ids = listed_ids(entries);
    let all = match Membership::get_all(table) {
        Ok(rows) => rows,
        Err(_) => Vec::new(),
    };
    proof {
        assert(before.take(0) =~= Seq::<MemberModel>::empty());
        assert(after_removals(before.take(0), scrape) + before.skip(0) =~= before);
        assert(mutation_models(mutations@) =~= removal_plan(before.take(0), scrape));
    }
    let mut i: usize = 0;
    while i < all.len()
        invariant
            i <= all@.len(),
            models(all@) == before,
            scrape == entry_models(entries@),
            forall|id: u32| student_ids@.contains(id) <==> listed(scrape, id),
            distinct_ids(table@),
            table@ == after_removals(before.take(i as int), scrape) + before.skip(i as int),
            mutation_models(mutations@) == removal_plan(before.take(i as int), scrape),
        decreases all@.len() - i,
    {
        let ghost done = after_removals(before.take(i as int), scrape);
        let ghost rest = before.skip(i as int);
        let ghost m = before[i as int];
        let ghost planned = mutation_models(mutations@);
        proof {
            lemma_after_removals_push(before.take(i as int), m, scrape);
            assert(before.take(i as int).push(m) =~= before.take(i + 1));
            assert(rest[0] == m);
            assert(rest.drop_first() =~= before.skip(i + 1));
            lemma_retire_at_seam(done, rest);
            assert(all@[i as int]@ == m);
        }
        if student_ids.contains(&all[i].student_id) {
            assert(table@ =~= done.push(m) + before.skip(i + 1));
        } else {
            let mut row = all[i].clone();
            if row.discord_id.is_none() {
                mutations.push(Mutation::Delete { student_id: row.student_id });
                assert(mutation_models(mutations@) =~= planned.push(
                    MutationModel::Delete { student_id: m.student_id },
                ));
                let _ = row.delete(table);
            } else {
                if !row.should_drop {
                    mutations.push(Mutation::Flag { student_id: row.student_id });
                    assert(mutation_models(mutations@) =~= planned.push(
                        MutationModel::Flag { student_id: m.student_id },
                    ));
                }
                let _ = row.update_should_drop(table, true);
            }
        }
        i = i + 1;
    }
    let ghost retired_rows = table@;
    let ghost removals = mutation_models(mutations@);
    proof {
        assert(before.take(i as int) =~= before);
        assert(retired_rows =~= after_removals(before, scrape));
        assert(scrape.take(0) =~= Seq::<EntryModel>::empty());
        assert(removals + insert_plan(retired_rows, scrape.take(0)) =~= removals);
    }
    let mut k: usize = 0;
    while k < entries.len()
        invariant
            k <= entries@.len(),
            scrape == entry_models(entries@),
            distinct_ids(table@),
            table@ == after_inserts(retired_rows, scrape.take(k as int)),
            mutation_models(mutations@) == removals + insert_plan(
                retired_rows,
                scrape.take(k as int),
            ),
        decreases entries@.len() - k,
    {
        let ghost planned = mutation_models(mutations@);
        let ghost e = scrape[k as int];
        proof {
            assert(scrape.take(k + 1).drop_last() =~= scrape.take(k as int));
            assert(scrape.take(k + 1).last() == e);
            assert(entries@[k as int]@ == e);
        }
        if !table.contains(entries[k].student_id) {
            mutations.push(
                Mutation::Insert {
                    student_id: entries[k].student_id,
                    name: entries[k].name.clone(),
                },
            );
            assert(mutation_models(mutations@) =~= planned.push(
                MutationModel::Insert { student_id: e.student_id, name: e.name },
            ));
            assert(mutation_models(mutations@) =~= removals + insert_plan(
                retired_rows,
                scrape.take(k + 1),
            ));
        }
        let row = Membership {
            student_id: entries[k].student_id,
            name: entries[k].name.clone(),
            discord_id: None,
            should_drop: false,
        };
        let _ = row.insert(table);
        k = k + 1;
    }
    proof {
        assert(scrape.take(k as int) =~= scrape);
    }
    mutations
}

/// One scheduled tick, given what the scrape came to. A roster is reconciled with the
/// table. A failed scrape skips the tick: the table stays as it is and the error is
/// handed back.
pub fn tick(table: &mut MembershipTable, scraped: Result<Scrape, Error>) -> (done: Result<
    Vec<Mutation>,
    Error,
>)
    ensures
        match scraped {
            Ok(scrape) => done matches Ok(mutations) && final(table)@ == reconciled(
                old(table)@,
                entry_models(scrape.entries@),
            ) && mutation_models(mutations@) == plan(old(table)@, entry_models(scrape.entries@))
                && distinct_ids(final(table)@),
            Err(error) => done == Err::<Vec<Mutation>, Error>(error) && final(table)@ == old(
                table,
            )@,
        },
{
    match scraped {
        Ok(scrape) => Ok(reconcile(table, &scrape.entries)),
        Err(error) => Err(error),
    }
}

} // verus!
