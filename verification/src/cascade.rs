//! Cascading destroy: a record goes only after all its children have gone.

use crate::plan::{Plan, PlanView};
use crate::record::{Record, RecordView, Value, ValueView};
use crate::resolve::{child_link, link, AccessError};
use crate::table::{
    all_unique, ids, ids_of, lemma_without_unique, position, select, select_spec, table_views,
    without,
};
use crate::views::{lemma_views_remove, views};
use vstd::prelude::*;

verus! {

/// The tables that a cascade leaves, and how it ended.
pub struct Outcome {
    pub tables: Seq<Seq<RecordView>>,
    pub result: Result<(), AccessError>,
}

/// Destroying the record of type `t` with the given id: first the cascade
/// through its child collections, then, if that succeeded, the record itself.
/// `depth` bounds how deep the children below it may nest.
pub open spec fn destroy_one(
    plans: Seq<PlanView>,
    tables: Seq<Seq<RecordView>>,
    t: int,
    id: ValueView,
    depth: nat,
) -> Outcome
    decreases depth, 2nat, 0nat,
{
    let inner = destroy_relations(plans, tables, t, id, 0, depth);
    match inner.result {
        Err(_) => inner,
        Ok(_) => Outcome {
            tables: inner.tables.update(t, without(inner.tables[t], id)),
            result: Ok(()),
        },
    }
}

/// The cascade through the child collections of type `t` from the one at
/// `from` on, in declaration order. Each collection is read when its turn
/// comes; the first failure ends the cascade, with what was destroyed before
/// it staying destroyed.
pub open spec fn destroy_relations(
    plans: Seq<PlanView>,
    tables: Seq<Seq<RecordView>>,
    t: int,
    id: ValueView,
    from: int,
    depth: nat,
) -> Outcome
    decreases depth, 1nat, plans[t].children.len() - from,
{
    if from < 0 || from >= plans[t].children.len() {
        Outcome { tables, result: Ok(()) }
    } else {
        match child_link(plans, plans[t].children[from]) {
            Err(error) => Outcome { tables, result: Err(error) },
            Ok(to) => {
                let children = ids_of(select_spec(tables[to.0], to.1, id));
                let inner = destroy_each(plans, tables, to.0, children, depth);
                match inner.result {
                    Err(_) => inner,
                    Ok(_) => destroy_relations(plans, inner.tables, t, id, from + 1, depth),
                }
            },
        }
    }
}

/// Destroying the records of type `t` with the given ids, one after the
/// other, up to the first failure.
pub open spec fn destroy_each(
    plans: Seq<PlanView>,
    tables: Seq<Seq<RecordView>>,
    t: int,
    ids: Seq<ValueView>,
    depth: nat,
) -> Outcome
    decreases depth, 0nat, ids.len(),
{
    if ids.len() == 0 {
        Outcome { tables, result: Ok(()) }
    } else if depth == 0 {
        Outcome { tables, result: Err(AccessError::TooDeep) }
    } else {
        let inner = destroy_one(plans, tables, t, ids[0], (depth - 1) as nat);
        match inner.result {
            Err(_) => inner,
            Ok(_) => destroy_each(plans, inner.tables, t, ids.drop_first(), depth),
        }
    }
}

/// Destroys the record of type `t` with the given id, children first.
pub(crate) fn destroy_at(
    plans: &Vec<Plan>,
    tables: &mut Vec<Vec<Record>>,
    t: usize,
    id: &Value,
    depth: usize,
) -> (out: Result<(), AccessError>)
    requires
        plans.len() == old(tables).len(),
        t < plans.len(),
        all_unique(table_views(old(tables)@)),
    ensures
        final(tables).len() == old(tables).len(),
        all_unique(table_views(final(tables)@)),
        table_views(final(tables)@) == destroy_one(
            views(plans@),
            table_views(old(tables)@),
            t as int,
            id@,
            depth as nat,
        ).tables,
        out == destroy_one(
            views(plans@),
            table_views(old(tables)@),
            t as int,
            id@,
            depth as nat,
        ).result,
    decreases depth, 1nat,
{
    let ghost all = views(plans@);
    let ghost start = table_views(tables@);
    let n: usize = plans[t].children.len();
    let mut k: usize = 0;
    while k < n
        invariant
            k <= n,
            n == plans[t as int].children.len(),
            t < plans.len(),
            plans.len() == tables.len(),
            tables.len() == old(tables).len(),
            all == views(plans@),
            start == table_views(old(tables)@),
            all_unique(table_views(tables@)),
            destroy_relations(all, table_views(tables@), t as int, id@, k as int, depth as nat)
                == destroy_relations(all, start, t as int, id@, 0, depth as nat),
        decreases n - k,
    {
        let (to, field) = match link(plans, &plans[t].children[k]) {
            Ok(to) => to,
            Err(error) => {
                return Err(error);
            },
        };
        let picked = select(&tables[to], field.as_str(), id);
        let children = ids(&picked);
        match destroy_all(plans, tables, to, &children, depth) {
            Ok(_) => {},
            Err(error) => {
                return Err(error);
            },
        }
        k += 1;
    }
    let ghost rest = table_views(tables@);
    proof {
        lemma_without_unique(rest[t as int], id@);
    }
    match position(&tables[t], id) {
        Some(i) => {
            proof {
                lemma_views_remove(tables[t as int]@, i as int);
            }
            tables[t].remove(i);
        },
        None => {},
    }
    assert(table_views(tables@) =~= rest.update(t as int, without(rest[t as int], id@)));
    Ok(())
}

/// Destroys the records of type `t` with the given ids, one after the other,
/// and stops at the first failure.
pub(crate) fn destroy_all(
    plans: &Vec<Plan>,
    tables: &mut Vec<Vec<Record>>,
    t: usize,
    targets: &Vec<Value>,
    depth: usize,
) -> (out: Result<(), AccessError>)
    requires
        plans.len() == old(tables).len(),
        t < plans.len(),
        all_unique(table_views(old(tables)@)),
    ensures
        final(tables).len() == old(tables).len(),
        all_unique(table_views(final(tables)@)),
        table_views(final(tables)@) == destroy_each(
            views(plans@),
            table_views(old(tables)@),
            t as int,
            views(targets@),
            depth as nat,
        ).tables,
        out == destroy_each(
            views(plans@),
            table_views(old(tables)@),
            t as int,
            views(targets@),
            depth as nat,
        ).result,
    decreases depth, 0nat,
{
    let ghost all = views(plans@);
    let ghost start = table_views(tables@);
    let ghost wanted = views(targets@);
    assert(wanted.skip(0) =~= wanted);
    let mut j: usize = 0;
    while j < targets.len()
        invariant
            j <= targets.len(),
            t < plans.len(),
            plans.len() == tables.len(),
            tables.len() == old(tables).len(),
            all == views(plans@),
            start == table_views(old(tables)@),
            wanted == views(targets@),
            all_unique(table_views(tables@)),
            destroy_each(all, table_views(tables@), t as int, wanted.skip(j as int), depth as nat)
                == destroy_each(all, start, t as int, wanted, depth as nat),
        decreases targets.len() - j,
    {
        assert(wanted.skip(j as int).drop_first() =~= wanted.skip(j + 1));
        if depth == 0 {
            return Err(AccessError::TooDeep);
        }
        match destroy_at(plans, tables, t, &targets[j], depth - 1) {
            Ok(_) => {},
            Err(error) => {
                return Err(error);
            },
        }
        j += 1;
    }
    Ok(())
}

} // verus!
