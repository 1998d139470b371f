//! The generated methods, run against in-memory backends.
//!
//! A database holds one table per registered record type. Its methods do what
//! the generated methods of that name do, and resolve types and methods by
//! name as the compiler resolves them in the generated code; a name that does
//! not resolve is an error.

use crate::cascade::{destroy_at, destroy_one};
use crate::plan::{Plan, PlanView};
use crate::record::{field_value, Record, RecordView, Value, ValueView};
use crate::resolve::{
    child_called, child_index, child_link, finder_called, finder_index, link, parent_called,
    parent_index, type_index, type_of, AccessError,
};
use crate::search::{first, lemma_first_from};
use crate::table::{
    all_unique, copies, count_upto, find_in, has_id, lemma_put_unique, lookup, position, put,
    select, select_spec, table_views,
};
use crate::views::{lemma_views_push, views};
use vstd::prelude::*;

verus! {

/// One table per registered type, with the plan of that type.
pub struct Database {
    plans: Vec<Plan>,
    tables: Vec<Vec<Record>>,
}

/// What a `Database` holds, as mathematical values.
pub struct DatabaseView {
    /// The plans of the registered types, in registration order.
    pub plans: Seq<PlanView>,
    /// The records of each type, in the backend's enumeration order.
    pub tables: Seq<Seq<RecordView>>,
}

impl View for Database {
    type V = DatabaseView;

    closed spec fn view(&self) -> DatabaseView {
        DatabaseView { plans: views(self.plans@), tables: table_views(self.tables@) }
    }
}

/// Whether every type has its table and no table holds an id twice.
pub open spec fn valid(db: DatabaseView) -> bool {
    &&& db.plans.len() == db.tables.len()
    &&& all_unique(db.tables)
}

/// `all`: every record of the type, in the backend's order.
pub open spec fn all_spec(db: DatabaseView, ty: Seq<char>) -> Result<Seq<RecordView>, AccessError> {
    match type_of(db.plans, ty) {
        Some(t) => Ok(db.tables[t]),
        None => Err(AccessError::UnknownType),
    }
}

/// `find`: the record of the type with the id, if it is stored.
pub open spec fn find_spec(db: DatabaseView, ty: Seq<char>, id: ValueView) -> Result<
    Option<RecordView>,
    AccessError,
> {
    match type_of(db.plans, ty) {
        Some(t) => Ok(find_in(db.tables[t], id)),
        None => Err(AccessError::UnknownType),
    }
}

/// `find_by_<field>`: the records of `all` whose field equals the value.
pub open spec fn find_by_spec(
    db: DatabaseView,
    ty: Seq<char>,
    method: Seq<char>,
    value: ValueView,
) -> Result<Seq<RecordView>, AccessError> {
    match type_of(db.plans, ty) {
        None => Err(AccessError::UnknownType),
        Some(t) => match first(db.plans[t].finders, finder_called(method)) {
            None => Err(AccessError::UnknownMethod),
            Some(f) => Ok(select_spec(db.tables[t], db.plans[t].finders[f].field, value)),
        },
    }
}

/// `<relation>`: the parent type's `find` on the record's foreign key.
pub open spec fn parent_spec(
    db: DatabaseView,
    ty: Seq<char>,
    record: RecordView,
    method: Seq<char>,
) -> Result<Option<RecordView>, AccessError> {
    match type_of(db.plans, ty) {
        None => Err(AccessError::UnknownType),
        Some(t) => match first(db.plans[t].parents, parent_called(method)) {
            None => Err(AccessError::UnknownMethod),
            Some(a) => match type_of(db.plans, db.plans[t].parents[a].target) {
                None => Err(AccessError::UnknownType),
                Some(p) => match field_value(record, db.plans[t].parents[a].key) {
                    None => Err(AccessError::UnknownField),
                    Some(key) => Ok(find_in(db.tables[p], key)),
                },
            },
        },
    }
}

/// `<relation>_list`: the child type's `find_by_<owner>_id` on the record's id.
pub open spec fn children_spec(
    db: DatabaseView,
    ty: Seq<char>,
    record: RecordView,
    method: Seq<char>,
) -> Result<Seq<RecordView>, AccessError> {
    match type_of(db.plans, ty) {
        None => Err(AccessError::UnknownType),
        Some(t) => match first(db.plans[t].children, child_called(method)) {
            None => Err(AccessError::UnknownMethod),
            Some(c) => match child_link(db.plans, db.plans[t].children[c]) {
                Err(error) => Err(error),
                Ok(to) => Ok(select_spec(db.tables[to.0], to.1, record.id)),
            },
        },
    }
}

/// `save`: the database after the record is put into the table of its type.
pub open spec fn save_spec(db: DatabaseView, ty: Seq<char>, record: RecordView) -> DatabaseView {
    match type_of(db.plans, ty) {
        Some(t) => DatabaseView {
            plans: db.plans,
            tables: db.tables.update(t, put(db.tables[t], record)),
        },
        None => db,
    }
}

/// How deep a cascade may nest: as deep as there are records, which it only
/// exceeds where a record is found again among its own descendants.
pub open spec fn depth_limit(tables: Seq<Seq<RecordView>>) -> nat {
    let count = count_upto(tables, tables.len() as int);
    if count <= usize::MAX {
        count
    } else {
        usize::MAX as nat
    }
}

/// `destroy`: the database that the cascade from the record leaves.
pub open spec fn destroy_spec(db: DatabaseView, ty: Seq<char>, id: ValueView) -> DatabaseView {
    match type_of(db.plans, ty) {
        Some(t) => DatabaseView {
            plans: db.plans,
            tables: destroy_one(db.plans, db.tables, t, id, depth_limit(db.tables)).tables,
        },
        None => db,
    }
}

/// `destroy`: how the cascade from the record ends.
pub open spec fn destroy_result(db: DatabaseView, ty: Seq<char>, id: ValueView) -> Result<
    (),
    AccessError,
> {
    match type_of(db.plans, ty) {
        Some(t) => destroy_one(db.plans, db.tables, t, id, depth_limit(db.tables)).result,
        None => Err(AccessError::UnknownType),
    }
}

/// Whether an executable list of records stands for a specified one.
pub open spec fn records_are(
    out: Result<Vec<Record>, AccessError>,
    expected: Result<Seq<RecordView>, AccessError>,
) -> bool {
    match expected {
        Ok(records) => out is Ok && views(out->Ok_0@) == records,
        Err(error) => out is Err && out->Err_0 == error,
    }
}

/// Whether an executable optional record stands for a specified one.
pub open spec fn record_is(
    out: Result<Option<Record>, AccessError>,
    expected: Result<Option<RecordView>, AccessError>,
) -> bool {
    match expected {
        Ok(Some(record)) => out is Ok && out->Ok_0 is Some && out->Ok_0->Some_0@ == record,
        Ok(None) => out is Ok && out->Ok_0 is None,
        Err(error) => out is Err && out->Err_0 == error,
    }
}

/// The number of records in all tables, or `usize::MAX` if it is less.
fn record_count(tables: &Vec<Vec<Record>>) -> (out: usize)
    ensures
        out == depth_limit(table_views(tables@)),
{
    let ghost all = table_views(tables@);
    let mut count: usize = 0;
    let mut t: usize = 0;
    while t < tables.len()
        invariant
            t <= tables.len(),
            all == table_views(tables@),
            count_upto(all, t as int) <= usize::MAX ==> count == count_upto(all, t as int),
            count_upto(all, t as int) > usize::MAX ==> count == usize::MAX,
        decreases tables.len() - t,
    {
        let size: usize = tables[t].len();
        count = if size <= usize::MAX - count {
            count + size
        } else {
            usize::MAX
        };
        t += 1;
    }
    count
}

impl Database {
    /// Whether the database is valid.
    pub open spec fn wf(&self) -> bool {
        valid(self@)
    }

    /// A database without types.
    pub fn new() -> (out: Database)
        ensures
            out.wf(),
            out@.plans == Seq::<PlanView>::empty(),
            out@.tables == Seq::<Seq<RecordView>>::empty(),
    {
        let out = Database { plans: Vec::new(), tables: Vec::new() };
        out
    }

    /// Registers a type with an empty table. Where the name is registered
    /// already, the earlier registration keeps it.
    pub fn register(&mut self, plan: Plan)
        requires
            old(self).wf(),
        ensures
            final(self).wf(),
            final(self)@.plans == old(self)@.plans.push(plan@),
            final(self)@.tables == old(self)@.tables.push(Seq::empty()),
    {
        proof {
            lemma_views_push(self.plans@, plan);
        }
        self.plans.push(plan);
        let table: Vec<Record> = Vec::new();
        assert(views(table@) =~= Seq::<RecordView>::empty());
        self.tables.push(table);
        assert(self@.tables =~= old(self)@.tables.push(Seq::empty()));
    }

    /// Every record of a type, in the backend's order.
    pub fn all(&self, ty: &str) -> (out: Result<Vec<Record>, AccessError>)
        requires
            self.wf(),
        ensures
            records_are(out, all_spec(self@, ty@)),
    {
        match type_index(&self.plans, ty) {
            Some(t) => Ok(copies(&self.tables[t])),
            None => Err(AccessError::UnknownType),
        }
    }

    /// The record of a type with a given id, if it is stored.
    pub fn find(&self, ty: &str, id: &Value) -> (out: Result<Option<Record>, AccessError>)
        requires
            self.wf(),
        ensures
            record_is(out, find_spec(self@, ty@, id@)),
    {
        match type_index(&self.plans, ty) {
            Some(t) => Ok(lookup(&self.tables[t], id)),
            None => Err(AccessError::UnknownType),
        }
    }

    /// The records of a type that a finder gives for a value: those of `all`
    /// whose field equals the value, in the same order.
    pub fn find_by(&self, ty: &str, method: &str, value: &Value) -> (out: Result<
        Vec<Record>,
        AccessError,
    >)
        requires
            self.wf(),
        ensures
            records_are(out, find_by_spec(self@, ty@, method@, value@)),
    {
        let t = match type_index(&self.plans, ty) {
            Some(t) => t,
            None => {
                return Err(AccessError::UnknownType);
            },
        };
        let f = match finder_index(&self.plans[t], method) {
            Some(f) => f,
            None => {
                return Err(AccessError::UnknownMethod);
            },
        };
        Ok(select(&self.tables[t], self.plans[t].finders[f].field.as_str(), value))
    }

    /// The parent that a parent accessor gives for a record.
    pub fn parent(&self, ty: &str, record: &Record, method: &str) -> (out: Result<
        Option<Record>,
        AccessError,
    >)
        requires
            self.wf(),
        ensures
            record_is(out, parent_spec(self@, ty@, record@, method@)),
    {
        let t = match type_index(&self.plans, ty) {
            Some(t) => t,
            None => {
                return Err(AccessError::UnknownType);
            },
        };
        let a = match parent_index(&self.plans[t], method) {
            Some(a) => a,
            None => {
                return Err(AccessError::UnknownMethod);
            },
        };
        let p = match type_index(&self.plans, self.plans[t].parents[a].target.as_str()) {
            Some(p) => p,
            None => {
                return Err(AccessError::UnknownType);
            },
        };
        match record.get(self.plans[t].parents[a].key.as_str()) {
            Some(key) => Ok(lookup(&self.tables[p], key)),
            None => Err(AccessError::UnknownField),
        }
    }

    /// The children that a child accessor gives for a record.
    pub fn children(&self, ty: &str, record: &Record, method: &str) -> (out: Result<
        Vec<Record>,
        AccessError,
    >)
        requires
            self.wf(),
        ensures
            records_are(out, children_spec(self@, ty@, record@, method@)),
    {
        let t = match type_index(&self.plans, ty) {
            Some(t) => t,
            None => {
                return Err(AccessError::UnknownType);
            },
        };
        let c = match child_index(&self.plans[t], method) {
            Some(c) => c,
            None => {
                return Err(AccessError::UnknownMethod);
            },
        };
        match link(&self.plans, &self.plans[t].children[c]) {
            Ok((to, field)) => Ok(select(&self.tables[to], field.as_str(), &record.id)),
            Err(error) => Err(error),
        }
    }

    /// Saves a record: it replaces the stored record of its id, or is added
    /// after the others. The saved record is handed back.
    pub fn save(&mut self, ty: &str, record: Record) -> (out: Result<Record, AccessError>)
        requires
            old(self).wf(),
        ensures
            final(self).wf(),
            final(self)@ == save_spec(old(self)@, ty@, record@),
            match type_of(old(self)@.plans, ty@) {
                Some(t) => out is Ok && out->Ok_0@ == record@,
                None => out is Err && out->Err_0 == AccessError::UnknownType,
            },
    {
        let t = match type_index(&self.plans, ty) {
            Some(t) => t,
            None => {
                return Err(AccessError::UnknownType);
            },
        };
        let stored = record.duplicate();
        let ghost before = views(self.tables[t as int]@);
        proof {
            lemma_first_from(before, has_id(record@.id), 0);
            lemma_put_unique(before, record@);
        }
        match position(&self.tables[t], &record.id) {
            Some(i) => {
                self.tables[t][i] = stored;
                assert(views(self.tables[t as int]@) =~= before.update(i as int, record@));
            },
            None => {
                proof {
                    lemma_views_push(self.tables[t as int]@, stored);
                }
                self.tables[t].push(stored);
            },
        }
        assert(self@.tables =~= old(self)@.tables.update(t as int, put(before, record@)));
        Ok(record)
    }

    /// Destroys a record: every child of each of its child collections is
    /// destroyed first, in declaration order and each with its own children,
    /// and only then the record itself. The first failure ends the cascade
    /// and leaves what it has not reached.
    pub fn destroy(&mut self, ty: &str, record: &Record) -> (out: Result<(), AccessError>)
        requires
            old(self).wf(),
        ensures
            final(self).wf(),
            final(self)@ == destroy_spec(old(self)@, ty@, record@.id),
            out == destroy_result(old(self)@, ty@, record@.id),
    {
        let t = match type_index(&self.plans, ty) {
            Some(t) => t,
            None => {
                return Err(AccessError::UnknownType);
            },
        };
        let depth = record_count(&self.tables);
        destroy_at(&self.plans, &mut self.tables, t, &record.id, depth)
    }
}

} // verus!
