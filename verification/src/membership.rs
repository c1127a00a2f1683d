use vstd::prelude::*;
use crate::error::Error;

verus! {

/// The mathematical value of a [`Membership`]: the same fields, with the name as a
/// sequence of characters.
pub ghost struct MemberModel {
    pub student_id: u32,
    pub name: Seq<char>,
    pub discord_id: Option<u64>,
    pub should_drop: bool,
}

/// One persisted member: the identifier the roster gives them, their name, the chat
/// account bound to them (if any), and whether they are waiting to be offboarded.
#[derive(Debug, PartialEq, Eq)]
pub struct Membership {
    pub student_id: u32,
    pub name: String,
    pub discord_id: Option<u64>,
    pub should_drop: bool,
}

impl View for Membership {
    type V = MemberModel;

    open spec fn view(&self) -> MemberModel {
        MemberModel {
            student_id: self.student_id,
            name: self.name@,
            discord_id: self.discord_id,
            should_drop: self.should_drop,
        }
    }
}

impl Clone for Membership {
    fn clone(&self) -> (copy: Self)
        ensures
            copy@ == self@,
    {
        Membership {
            student_id: self.student_id,
            name: self.name.clone(),
            discord_id: self.discord_id,
            should_drop: self.should_drop,
        }
    }
}

/// The values of a sequence of records, in order.
pub open spec fn models(rows: Seq<Membership>) -> Seq<MemberModel> {
    rows.map_values(|m: Membership| m@)
}

/// Some record of `rows` carries `student_id`.
pub open spec fn has_id(rows: Seq<MemberModel>, student_id: u32) -> bool {
    exists|i: int| 0 <= i < rows.len() && (#[trigger] rows[i]).student_id == student_id
}

/// No two records of `rows` share a `student_id`.
pub open spec fn distinct_ids(rows: Seq<MemberModel>) -> bool {
    forall|i: int, j: int|
        0 <= i < rows.len() && 0 <= j < rows.len() && i != j ==> (#[trigger] rows[i]).student_id
            != (#[trigger] rows[j]).student_id
}

/// The first record of `rows` that is bound to `discord_id` stands at `i`.
pub open spec fn first_bound_at(rows: Seq<MemberModel>, discord_id: u64, i: int) -> bool {
    &&& 0 <= i < rows.len()
    &&& rows[i].discord_id == Some(discord_id)
    &&& forall|j: int| 0 <= j < i ==> (#[trigger] rows[j]).discord_id != Some(discord_id)
}

/// The first record of `rows` that is bound to `discord_id`.
pub open spec fn bound_record(rows: Seq<MemberModel>, discord_id: u64) -> MemberModel {
    rows[choose|i: int| first_bound_at(rows, discord_id, i)]
}

/// Some record of `rows` is bound to `discord_id`.
pub open spec fn has_account(rows: Seq<MemberModel>, discord_id: u64) -> bool {
    exists|i: int| 0 <= i < rows.len() && (#[trigger] rows[i]).discord_id == Some(discord_id)
}

/// `rows` with the account binding of every record that carries `student_id` replaced.
pub open spec fn with_account(
    rows: Seq<MemberModel>,
    student_id: u32,
    discord_id: Option<u64>,
) -> Seq<MemberModel> {
    rows.map_values(
        |m: MemberModel|
            if m.student_id == student_id {
                MemberModel { discord_id, ..m }
            } else {
                m
            },
    )
}

/// `rows` with the offboarding flag of every record that carries `student_id` replaced.
pub open spec fn with_flag(rows: Seq<MemberModel>, student_id: u32, should_drop: bool) -> Seq<
    MemberModel,
> {
    rows.map_values(
        |m: MemberModel|
            if m.student_id == student_id {
                MemberModel { should_drop, ..m }
            } else {
                m
            },
    )
}

/// `rows` without the records that carry `student_id`.
pub open spec fn without_id(rows: Seq<MemberModel>, student_id: u32) -> Seq<MemberModel> {
    rows.filter(|m: MemberModel| m.student_id != student_id)
}

/// The record that a first sighting of `student_id` under `name` creates: unbound and
/// not waiting for offboarding.
pub open spec fn fresh_record(student_id: u32, name: Seq<char>) -> MemberModel {
    MemberModel { student_id, name, discord_id: None, should_drop: false }
}

/// `rows` after an insert that leaves an existing record with the same identifier alone.
pub open spec fn with_inserted(rows: Seq<MemberModel>, student_id: u32, name: Seq<char>) -> Seq<
    MemberModel,
> {
    if has_id(rows, student_id) {
        rows
    } else {
        rows.push(fresh_record(student_id, name))
    }
}

/// The persisted membership table as a value: its records in the order in which they
/// were first stored, no two of them with the same `student_id`.
pub struct MembershipTable {
    rows: Vec<Membership>,
}

impl View for MembershipTable {
    type V = Seq<MemberModel>;

    closed spec fn view(&self) -> Seq<MemberModel> {
        models(self.rows@)
    }
}

/// The first position in `rows` that carries `student_id`.
fn find_id(rows: &Vec<Membership>, student_id: u32) -> (at: Option<usize>)
    ensures
        match at {
            Some(i) => i < rows@.len() && rows@[i as int].student_id == student_id,
            None => !has_id(models(rows@), student_id),
        },
{
    let mut i: usize = 0;
    while i < rows.len()
        invariant
            i <= rows@.len(),
            forall|j: int| 0 <= j < i ==> (#[trigger] models(rows@)[j]).student_id != student_id,
        decreases rows@.len() - i,
    {
        if rows[i].student_id == student_id {
            return Some(i);
        }
        i = i + 1;
    }
    None
}

/// Whether no two of `rows` share a `student_id`.
fn all_distinct(rows: &Vec<Membership>) -> (ok: bool)
    ensures
        ok == distinct_ids(models(rows@)),
{
    let mut i: usize = 0;
    while i < rows.len()
        invariant
            i <= rows@.len(),
            distinct_ids(models(rows@).take(i as int)),
        decreases rows@.len() - i,
    {
        let mut j: usize = 0;
        while j < i
            invariant
                j <= i < rows@.len(),
                forall|k: int|
                    0 <= k < j ==> (#[trigger] models(rows@)[k]).student_id != rows@[i as int].student_id,
            decreases i - j,
        {
            if rows[j].student_id == rows[i].student_id {
                assert(models(rows@)[j as int].student_id == models(rows@)[i as int].student_id);
                return false;
            }
            j = j + 1;
        }
        proof {
            let before = models(rows@).take(i as int);
            let after = models(rows@).take(i + 1);
            assert forall|a: int, b: int|
                0 <= a < after.len() && 0 <= b < after.len() && a != b implies (#[trigger] after[a]).student_id
                != (#[trigger] after[b]).student_id by {
                if a < i && b < i {
                    assert(before[a].student_id != before[b].student_id);
                }
            }
        }
        i = i + 1;
    }
    assert(models(rows@).take(i as int) =~= models(rows@));
    true
}

impl MembershipTable {
    #[verifier::type_invariant]
    spec fn keyed(&self) -> bool {
        distinct_ids(models(self.rows@))
    }

    /// A table without records.
    pub fn new() -> (table: Self)
        ensures
            table@ == Seq::<MemberModel>::empty(),
    {
        let table = MembershipTable { rows: Vec::new() };
        assert(table@ =~= Seq::<MemberModel>::empty());
        table
    }

    /// The table that holds exactly `rows`, where no two of them share a `student_id`;
    /// nothing otherwise.
    pub fn from_rows(rows: Vec<Membership>) -> (table: Option<Self>)
        ensures
            table is Some <==> distinct_ids(models(rows@)),
            table matches Some(t) ==> t@ == models(rows@),
    {
        if all_distinct(&rows) {
            Some(MembershipTable { rows })
        } else {
            None
        }
    }

    /// Whether some record carries `student_id`.
    pub fn contains(&self, student_id: u32) -> (found: bool)
        ensures
            found == has_id(self@, student_id),
            distinct_ids(self@),
    {
        proof {
            use_type_invariant(self);
        }
        match find_id(&self.rows, student_id) {
            Some(i) => {
                assert(self@[i as int].student_id == student_id);
                true
            },
            None => false,
        }
    }

    /// The number of records.
    pub fn len(&self) -> (n: usize)
        ensures
            n == self@.len(),
            distinct_ids(self@),
    {
        proof {
            use_type_invariant(self);
        }
        self.rows.len()
    }
}

/// Only one position is the first at which a record is bound to an account, so the
/// record found there is the bound record.
pub proof fn lemma_first_bound_is_bound_record(rows: Seq<MemberModel>, discord_id: u64, at: int)
    requires
        first_bound_at(rows, discord_id, at),
    ensures
        has_account(rows, discord_id),
        bound_record(rows, discord_id) == rows[at],
{
    let i = choose|i: int| first_bound_at(rows, discord_id, i);
    if i < at {
        assert(rows[i].discord_id != Some(discord_id));
    } else if at < i {
        assert(rows[at].discord_id != Some(discord_id));
    }
}

/// Where identifiers are distinct, rewriting the account or the flag of every record
/// that carries an identifier changes one record and no identifier.
pub proof fn lemma_one_record_rewritten(
    rows: Seq<MemberModel>,
    at: int,
    discord_id: Option<u64>,
    should_drop: bool,
)
    requires
        distinct_ids(rows),
        0 <= at < rows.len(),
    ensures
        with_account(rows, rows[at].student_id, discord_id) == rows.update(
            at,
            MemberModel { discord_id, ..rows[at] },
        ),
        with_flag(rows, rows[at].student_id, should_drop) == rows.update(
            at,
            MemberModel { should_drop, ..rows[at] },
        ),
        distinct_ids(with_account(rows, rows[at].student_id, discord_id)),
        distinct_ids(with_flag(rows, rows[at].student_id, should_drop)),
{
    let id = rows[at].student_id;
    let bound = with_account(rows, id, discord_id);
    let flagged = with_flag(rows, id, should_drop);
    assert forall|j: int| 0 <= j < rows.len() && j != at implies bound[j] == rows[j] && flagged[j]
        == rows[j] by {
        assert(rows[j].student_id != rows[at].student_id);
    }
    assert(bound =~= rows.update(at, MemberModel { discord_id, ..rows[at] }));
    assert(flagged =~= rows.update(at, MemberModel { should_drop, ..rows[at] }));
    assert forall|a: int, b: int|
        0 <= a < rows.len() && 0 <= b < rows.len() && a != b implies (#[trigger] bound[a]).student_id
        != (#[trigger] bound[b]).student_id by {
        assert(rows[a].student_id != rows[b].student_id);
    }
    assert forall|a: int, b: int|
        0 <= a < rows.len() && 0 <= b < rows.len() && a != b implies (#[trigger] flagged[a]).student_id
        != (#[trigger] flagged[b]).student_id by {
        assert(rows[a].student_id != rows[b].student_id);
    }
}

/// Removing the one record that carries `student_id` is the same as dropping every
/// record with that identifier.
pub proof fn lemma_without_id_removes(rows: Seq<MemberModel>, student_id: u32, at: int)
    requires
        distinct_ids(rows),
        0 <= at < rows.len(),
        rows[at].student_id == student_id,
    ensures
        without_id(rows, student_id) == rows.remove(at),
    decreases rows.len(),
{
    reveal(Seq::filter);
    let keep = |m: MemberModel| m.student_id != student_id;
    let init = rows.drop_last();
    if at == rows.len() - 1 {
        lemma_without_id_keeps(init, student_id);
        assert(rows.remove(at) =~= init);
    } else {
        assert(init[at] == rows[at]);
        lemma_without_id_removes(init, student_id, at);
        assert(rows.last() == rows[rows.len() - 1]);
        assert(keep(rows.last()));
        assert(rows.remove(at) =~= init.remove(at).push(rows.last()));
    }
}

/// Dropping the records that carry `student_id` changes nothing where none does.
pub proof fn lemma_without_id_keeps(rows: Seq<MemberModel>, student_id: u32)
    requires
        !has_id(rows, student_id),
    ensures
        without_id(rows, student_id) == rows,
    decreases rows.len(),
{
    reveal(Seq::filter);
    if rows.len() > 0 {
        let init = rows.drop_last();
        assert forall|i: int| 0 <= i < init.len() implies (#[trigger] init[i]).student_id
            != student_id by {
            assert(init[i] == rows[i]);
        }
        lemma_without_id_keeps(init, student_id);
        assert(rows.last() == rows[rows.len() - 1]);
        assert(init.push(rows.last()) =~= rows);
    }
}

impl Membership {
    /// The record that carries `student_id`, or `NotFound` where the table has none.
    pub fn get_by_student_id(table: &MembershipTable, student_id: u32) -> (found: Result<
        Membership,
        Error,
    >)
        ensures
            distinct_ids(table@),
            match found {
                Ok(m) => m@.student_id == student_id && table@.contains(m@),
                Err(e) => e == Error::NotFound && !has_id(table@, student_id),
            },
    {
        proof {
            use_type_invariant(table);
        }
        match find_id(&table.rows, student_id) {
            Some(i) => {
                let m = table.rows[i].clone();
                assert(table@[i as int] == m@);
                Ok(m)
            },
            None => Err(Error::NotFound),
        }
    }

    /// The first record in table order that is bound to `discord_id`, or `NotFound`
    /// where no record is bound to it.
    pub fn get_by_discord_id(table: &MembershipTable, discord_id: u64) -> (found: Result<
        Membership,
        Error,
    >)
        ensures
            distinct_ids(table@),
            match found {
                Ok(m) => {
                    &&& m@.discord_id == Some(discord_id)
                    &&& table@.contains(m@)
                    &&& has_account(table@, discord_id)
                    &&& m@ == bound_record(table@, discord_id)
                },
                Err(e) => e == Error::NotFound && !has_account(table@, discord_id),
            },
    {
        proof {
            use_type_invariant(table);
        }
        let mut i: usize = 0;
        while i < table.rows.len()
            invariant
                i <= table.rows@.len(),
                distinct_ids(table@),
                forall|j: int| 0 <= j < i ==> (#[trigger] table@[j]).discord_id != Some(discord_id),
            decreases table.rows@.len() - i,
        {
            let bound = match table.rows[i].discord_id {
                Some(d) => d == discord_id,
                None => false,
            };
            if bound {
                let m = table.rows[i].clone();
                proof {
                    lemma_first_bound_is_bound_record(table@, discord_id, i as int);
                    assert(table@[i as int] == m@);
                }
                return Ok(m);
            }
            i = i + 1;
        }
        Err(Error::NotFound)
    }

    /// Every record, in table order.
    pub fn get_all(table: &MembershipTable) -> (all: Result<Vec<Membership>, Error>)
        ensures
            distinct_ids(table@),
            all matches Ok(rows) && models(rows@) == table@,
    {
        proof {
            use_type_invariant(table);
        }
        let mut rows: Vec<Membership> = Vec::new();
        let mut i: usize = 0;
        while i < table.rows.len()
            invariant
                i <= table.rows@.len(),
                distinct_ids(table@),
                models(rows@) == table@.take(i as int),
            decreases table.rows@.len() - i,
        {
            let ghost before = models(rows@);
            let row = table.rows[i].clone();
            rows.push(row);
            assert(models(rows@) =~= before.push(table@[i as int]));
            assert(models(rows@) =~= table@.take(i + 1));
            i = i + 1;
        }
        assert(table@.take(i as int) =~= table@);
        Ok(rows)
    }

    /// Binds the record that carries this identifier to `discord_id`, or unbinds it, in
    /// the table and in `self`. A table without such a record is left as it is.
    pub fn update_disord_id(
        &mut self,
        table: &mut MembershipTable,
        discord_id: Option<u64>,
    ) -> (done: Result<(), Error>)
        ensures
            done is Ok,
            final(table)@ == with_account(old(table)@, old(self).student_id, discord_id),
            distinct_ids(final(table)@),
            final(self)@ == (MemberModel { discord_id, ..old(self)@ }),
    {
        proof {
            use_type_invariant(&*table);
        }
        let ghost before = table@;
        match find_id(&table.rows, self.student_id) {
            Some(i) => {
                let row = Membership {
                    student_id: table.rows[i].student_id,
                    name: table.rows[i].name.clone(),
                    discord_id,
                    should_drop: table.rows[i].should_drop,
                };
                let mut rows: Vec<Membership> = Vec::new();
                core::mem::swap(&mut rows, &mut table.rows);
                rows.set(i, row);
                proof {
                    lemma_one_record_rewritten(before, i as int, discord_id, false);
                    assert(models(rows@) =~= before.update(
                        i as int,
                        MemberModel { discord_id, ..before[i as int] },
                    ));
                }
                table.rows = rows;
            },
            None => {
                assert(before =~= with_account(before, self.student_id, discord_id));
            },
        }
        self.discord_id = discord_id;
        Ok(())
    }

    /// Sets or clears the offboarding flag of the record that carries this identifier,
    /// in the table and in `self`. A table without such a record is left as it is.
    pub fn update_should_drop(&mut self, table: &mut MembershipTable, should_drop: bool) -> (done:
        Result<(), Error>)
        ensures
            done is Ok,
            final(table)@ == with_flag(old(table)@, old(self).student_id, should_drop),
            distinct_ids(final(table)@),
            final(self)@ == (MemberModel { should_drop, ..old(self)@ }),
    {
        proof {
            use_type_invariant(&*table);
        }
        let ghost before = table@;
        match find_id(&table.rows, self.student_id) {
            Some(i) => {
                let row = Membership {
                    student_id: table.rows[i].student_id,
                    name: table.rows[i].name.clone(),
                    discord_id: table.rows[i].discord_id,
                    should_drop,
                };
                let mut rows: Vec<Membership> = Vec::new();
                core::mem::swap(&mut rows, &mut table.rows);
                rows.set(i, row);
                proof {
                    lemma_one_record_rewritten(before, i as int, None, should_drop);
                    assert(models(rows@) =~= before.update(
                        i as int,
                        MemberModel { should_drop, ..before[i as int] },
                    ));
                }
                table.rows = rows;
            },
            None => {
                assert(before =~= with_flag(before, self.student_id, should_drop));
            },
        }
        self.should_drop = should_drop;
        Ok(())
    }

    /// Stores a new record with this identifier and name, unbound and not waiting for
    /// offboarding, at the end of the table. Where the table already has a record with
    /// this identifier, that record stays and nothing is stored.
    pub fn insert(&self, table: &mut MembershipTable) -> (done: Result<(), Error>)
        ensures
            done is Ok,
            final(table)@ == with_inserted(old(table)@, self.student_id, self.name@),
            distinct_ids(final(table)@),
    {
        proof {
            use_type_invariant(&*table);
        }
        let ghost before = table@;
        let at = find_id(&table.rows, self.student_id);
        if let Some(i) = at {
            assert(before[i as int].student_id == self.student_id);
        } else {
            let row = Membership {
                student_id: self.student_id,
                name: self.name.clone(),
                discord_id: None,
                should_drop: false,
            };
            let mut rows: Vec<Membership> = Vec::new();
            core::mem::swap(&mut rows, &mut table.rows);
            rows.push(row);
            proof {
                let after = models(rows@);
                assert(after =~= before.push(fresh_record(self.student_id, self.name@)));
                assert forall|a: int, b: int|
                    0 <= a < after.len() && 0 <= b < after.len() && a != b implies (
                #[trigger] after[a]).student_id != (#[trigger] after[b]).student_id by {
                    if a < before.len() && b < before.len() {
                        assert(before[a].student_id != before[b].student_id);
                    } else if a < before.len() {
                        assert(before[a].student_id != self.student_id);
                    } else {
                        assert(before[b].student_id != self.student_id);
                    }
                }
            }
            table.rows = rows;
        }
        Ok(())
    }

    /// Removes the record that carries this identifier from the table. A table without
    /// such a record is left as it is.
    pub fn delete(self, table: &mut MembershipTable) -> (done: Result<(), Error>)
        ensures
            done is Ok,
            final(table)@ == without_id(old(table)@, self.student_id),
            distinct_ids(final(table)@),
    {
        proof {
            use_type_invariant(&*table);
        }
        let ghost before = table@;
        match find_id(&table.rows, self.student_id) {
            Some(i) => {
                let mut rows: Vec<Membership> = Vec::new();
                core::mem::swap(&mut rows, &mut table.rows);
                rows.remove(i);
                proof {
                    let after = models(rows@);
                    lemma_without_id_removes(before, self.student_id, i as int);
                    assert(after =~= before.remove(i as int));
                    assert forall|a: int, b: int|
                        0 <= a < after.len() && 0 <= b < after.len() && a != b implies (
                    #[trigger] after[a]).student_id != (#[trigger] after[b]).student_id by {
                        let a0 = if a < i { a } else { a + 1 };
                        let b0 = if b < i { b } else { b + 1 };
                        assert(before[a0].student_id != before[b0].student_id);
                    }
                }
                table.rows = rows;
            },
            None => {
                proof {
                    lemma_without_id_keeps(before, self.student_id);
                }
            },
        }
        Ok(())
    }
}

} // verus!
