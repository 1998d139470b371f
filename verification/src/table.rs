//! One table of records: what a backend holds for one record type.

use crate::record::{field_value, Record, RecordView, Value, ValueView};
use crate::search::{first, first_from, index_is, lemma_first_from};
use crate::views::{lemma_views_push, views};
use vstd::prelude::*;

verus! {

/// The test for a record of a given id.
pub open spec fn has_id(id: ValueView) -> spec_fn(RecordView) -> bool {
    |record: RecordView| record.id == id
}

/// The test for a record whose field holds a given value.
pub open spec fn field_is(field: Seq<char>, value: ValueView) -> spec_fn(RecordView) -> bool {
    |record: RecordView| field_value(record, field) == Some(value)
}

/// The id of a record, as a function value.
pub open spec fn to_id() -> spec_fn(RecordView) -> ValueView {
    |record: RecordView| record.id
}

/// Whether no two records of a table share an id.
pub open spec fn unique_ids(table: Seq<RecordView>) -> bool {
    forall|i: int, j: int|
        0 <= i < j < table.len() ==> (#[trigger] table[i]).id != (#[trigger] table[j]).id
}

/// The record of a table with a given id, if there is one.
pub open spec fn find_in(table: Seq<RecordView>, id: ValueView) -> Option<RecordView> {
    match first(table, has_id(id)) {
        Some(i) => Some(table[i]),
        None => None,
    }
}

/// The records of a table whose field equals a value, in the table's order.
pub open spec fn select_spec(table: Seq<RecordView>, field: Seq<char>, value: ValueView) -> Seq<
    RecordView,
> {
    table.filter(field_is(field, value))
}

/// The ids of some records, in order.
pub open spec fn ids_of(records: Seq<RecordView>) -> Seq<ValueView> {
    records.map_values(to_id())
}

/// A table after a record is saved: the record replaces the stored one of
/// its id, or comes after the others.
pub open spec fn put(table: Seq<RecordView>, record: RecordView) -> Seq<RecordView> {
    match first(table, has_id(record.id)) {
        Some(i) => table.update(i, record),
        None => table.push(record),
    }
}

/// A table without the record of a given id.
pub open spec fn without(table: Seq<RecordView>, id: ValueView) -> Seq<RecordView> {
    match first(table, has_id(id)) {
        Some(i) => table.remove(i),
        None => table,
    }
}

/// Saving keeps the ids of a table unique.
pub proof fn lemma_put_unique(table: Seq<RecordView>, record: RecordView)
    requires
        unique_ids(table),
    ensures
        unique_ids(put(table, record)),
{
    lemma_first_from(table, has_id(record.id), 0);
}

/// Removing keeps the ids of a table unique, and leaves no record of the
/// removed id.
pub proof fn lemma_without_unique(table: Seq<RecordView>, id: ValueView)
    requires
        unique_ids(table),
    ensures
        unique_ids(without(table, id)),
        forall|i: int|
            0 <= i < without(table, id).len() ==> (#[trigger] without(table, id)[i]).id != id,
{
    lemma_first_from(table, has_id(id), 0);
    match first(table, has_id(id)) {
        Some(at) => {
            let rest = table.remove(at);
            assert forall|i: int| 0 <= i < rest.len() implies (#[trigger] rest[i]).id != id by {
                if i < at {
                    assert(rest[i] == table[i]);
                } else {
                    assert(rest[i] == table[i + 1]);
                }
            }
            assert forall|i: int, j: int| 0 <= i < j < rest.len() implies (#[trigger] rest[i]).id
                != (#[trigger] rest[j]).id by {
                let a = if i < at { i } else { i + 1 };
                let b = if j < at { j } else { j + 1 };
                assert(rest[i] == table[a] && rest[j] == table[b]);
            }
        },
        None => {
            assert forall|i: int| 0 <= i < table.len() implies (#[trigger] table[i]).id != id by {
                assert(!has_id(id)(table[i]));
            }
        },
    }
}

/// The views of some tables, in order.
pub open spec fn table_views(tables: Seq<Vec<Record>>) -> Seq<Seq<RecordView>> {
    Seq::new(tables.len(), |t: int| views(tables[t]@))
}

/// Whether no table holds an id twice.
pub open spec fn all_unique(tables: Seq<Seq<RecordView>>) -> bool {
    forall|t: int| 0 <= t < tables.len() ==> unique_ids(#[trigger] tables[t])
}

/// How many records the first `n` tables hold.
pub open spec fn count_upto(tables: Seq<Seq<RecordView>>, n: int) -> nat
    decreases n,
{
    if n <= 0 {
        0
    } else {
        count_upto(tables, n - 1) + tables[n - 1].len()
    }
}

/// The position of the record with a given id.
pub fn position(table: &Vec<Record>, id: &Value) -> (out: Option<usize>)
    ensures
        index_is(out, first(views(table@), has_id(id@))),
        out is Some ==> out->Some_0 < table.len(),
{
    let ghost all = views(table@);
    proof {
        lemma_first_from(all, has_id(id@), 0);
    }
    let mut i: usize = 0;
    while i < table.len()
        invariant
            i <= table.len(),
            all == views(table@),
            first(all, has_id(id@)) == first_from(all, has_id(id@), i as int),
        decreases table.len() - i,
    {
        if table[i].id.same(id) {
            return Some(i);
        }
        i += 1;
    }
    None
}

/// A copy of the record of a table with a given id, if there is one.
pub fn lookup(table: &Vec<Record>, id: &Value) -> (out: Option<Record>)
    ensures
        match find_in(views(table@), id@) {
            Some(record) => out is Some && out->Some_0@ == record,
            None => out is None,
        },
{
    match position(table, id) {
        Some(i) => Some(table[i].duplicate()),
        None => None,
    }
}

/// Copies of the records whose field equals a value, in the table's order.
pub fn select(table: &Vec<Record>, field: &str, value: &Value) -> (out: Vec<Record>)
    ensures
        views(out@) == select_spec(views(table@), field@, value@),
{
    let ghost all = views(table@);
    let ghost test = field_is(field@, value@);
    let mut out: Vec<Record> = Vec::new();
    let mut i: usize = 0;
    while i < table.len()
        invariant
            i <= table.len(),
            all == views(table@),
            test == field_is(field@, value@),
            views(out@) =~= all.take(i as int).filter(test),
        decreases table.len() - i,
    {
        proof {
            all.lemma_take_succ_push(i as int);
            all.take(i as int).lemma_filter_push(all[i as int], test);
        }
        let keep = match table[i].get(field) {
            Some(held) => held.same(value),
            None => false,
        };
        if keep {
            let record = table[i].duplicate();
            proof {
                lemma_views_push(out@, record);
            }
            out.push(record);
        }
        i += 1;
    }
    proof {
        all.lemma_take_len();
    }
    out
}

/// Copies of all records of a table, in the table's order.
pub fn copies(table: &Vec<Record>) -> (out: Vec<Record>)
    ensures
        views(out@) == views(table@),
{
    let ghost all = views(table@);
    let mut out: Vec<Record> = Vec::new();
    let mut i: usize = 0;
    while i < table.len()
        invariant
            i <= table.len(),
            all == views(table@),
            views(out@) =~= all.take(i as int),
        decreases table.len() - i,
    {
        let record = table[i].duplicate();
        proof {
            all.lemma_take_succ_push(i as int);
            lemma_views_push(out@, record);
        }
        out.push(record);
        i += 1;
    }
    proof {
        all.lemma_take_len();
    }
    out
}

/// Copies of the ids of some records, in order.
pub fn ids(records: &Vec<Record>) -> (out: Vec<Value>)
    ensures
        views(out@) == ids_of(views(records@)),
{
    let ghost all = views(records@);
    let mut out: Vec<Value> = Vec::new();
    let mut i: usize = 0;
    while i < records.len()
        invariant
            i <= records.len(),
            all == views(records@),
            views(out@) =~= all.take(i as int).map_values(to_id()),
        decreases records.len() - i,
    {
        let id = records[i].id.duplicate();
        proof {
            all.lemma_map_take_succ(to_id(), i as int);
            lemma_views_push(out@, id);
        }
        out.push(id);
        i += 1;
    }
    proof {
        all.lemma_take_len();
    }
    out
}

} // verus!
