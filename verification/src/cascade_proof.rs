//! What a cascade that succeeds leaves behind.

use crate::cascade::{destroy_each, destroy_one, destroy_relations};
use crate::plan::PlanView;
use crate::record::{field_value, RecordView, ValueView};
use crate::resolve::{child_link, plan_named};
use crate::search::{first, lemma_first_from};
use crate::table::{
    all_unique, field_is, has_id, ids_of, lemma_without_unique, select_spec, unique_ids, without,
};
use vstd::prelude::*;

verus! {

/// Whether every record of one table is a record of another.
pub open spec fn within(part: Seq<RecordView>, whole: Seq<RecordView>) -> bool {
    forall|i: int| 0 <= i < part.len() ==> whole.contains(#[trigger] part[i])
}

/// Whether some tables hold nothing that earlier tables did not hold.
pub open spec fn shrunk(after: Seq<Seq<RecordView>>, before: Seq<Seq<RecordView>>) -> bool {
    &&& after.len() == before.len()
    &&& forall|t: int| 0 <= t < after.len() ==> within(#[trigger] after[t], before[t])
}

/// Whether a table holds no record of an id.
pub open spec fn gone(table: Seq<RecordView>, id: ValueView) -> bool {
    forall|i: int| 0 <= i < table.len() ==> (#[trigger] table[i]).id != id
}

/// Whether no record of a table holds a value in a field.
pub open spec fn unreferenced(table: Seq<RecordView>, field: Seq<char>, value: ValueView) -> bool {
    forall|i: int| 0 <= i < table.len() ==> field_value(#[trigger] table[i], field) != Some(value)
}

/// Whether the child collection `k` of type `t` resolves and holds no child
/// of the record with the given id.
pub open spec fn relation_clear(
    plans: Seq<PlanView>,
    tables: Seq<Seq<RecordView>>,
    t: int,
    k: int,
    id: ValueView,
) -> bool {
    match child_link(plans, plans[t].children[k]) {
        Ok(to) => unreferenced(tables[to.0], to.1, id),
        Err(_) => false,
    }
}

/// Whether the child collections of type `t` from `from` on hold no child of
/// the record with the given id.
pub open spec fn childless_from(
    plans: Seq<PlanView>,
    tables: Seq<Seq<RecordView>>,
    t: int,
    id: ValueView,
    from: int,
) -> bool {
    forall|k: int|
        from <= k < plans[t].children.len() ==> #[trigger] relation_clear(plans, tables, t, k, id)
}

/// Whether no child collection of type `t` holds a child of the record with
/// the given id.
pub open spec fn childless(
    plans: Seq<PlanView>,
    tables: Seq<Seq<RecordView>>,
    t: int,
    id: ValueView,
) -> bool {
    childless_from(plans, tables, t, id, 0)
}

/// Whether every record that was stored before and is stored no longer has
/// left no child behind.
pub open spec fn no_orphans(
    plans: Seq<PlanView>,
    before: Seq<Seq<RecordView>>,
    after: Seq<Seq<RecordView>>,
) -> bool {
    forall|t: int, i: int|
        0 <= t < before.len() && 0 <= i < before[t].len() && gone(
            after[t],
            (#[trigger] before[t][i]).id,
        ) ==> childless(plans, after, t, before[t][i].id)
}

/// Whether the tables fit the plans: one table per plan, no id twice.
pub open spec fn fitting(plans: Seq<PlanView>, tables: Seq<Seq<RecordView>>) -> bool {
    plans.len() == tables.len() && all_unique(tables)
}

/// A child link leads to a registered type.
pub proof fn lemma_link_in_range(plans: Seq<PlanView>, t: int, k: int)
    requires
        child_link(plans, plans[t].children[k]) is Ok,
    ensures
        0 <= child_link(plans, plans[t].children[k])->Ok_0.0 < plans.len(),
{
    lemma_first_from(plans, plan_named(plans[t].children[k].target), 0);
}

/// Tables hold nothing that they do not hold.
pub proof fn lemma_shrunk_same(tables: Seq<Seq<RecordView>>)
    ensures
        shrunk(tables, tables),
{
    assert forall|t: int| 0 <= t < tables.len() implies within(#[trigger] tables[t], tables[t]) by {
        let table = tables[t];
        assert forall|i: int| 0 <= i < table.len() implies table.contains(#[trigger] table[i]) by {}
    }
}

/// What holds nothing new twice over holds nothing new.
pub proof fn lemma_shrunk_chain(
    a: Seq<Seq<RecordView>>,
    b: Seq<Seq<RecordView>>,
    c: Seq<Seq<RecordView>>,
)
    requires
        shrunk(b, a),
        shrunk(c, b),
    ensures
        shrunk(c, a),
{
    assert forall|t: int| 0 <= t < c.len() implies within(#[trigger] c[t], a[t]) by {
        assert forall|i: int| 0 <= i < c[t].len() implies a[t].contains(#[trigger] c[t][i]) by {
            let j = choose|j: int| 0 <= j < b[t].len() && b[t][j] == c[t][i];
            assert(a[t].contains(b[t][j]));
        }
    }
}

/// An id that a table does not hold is not held by a part of it.
proof fn lemma_gone_stays(before: Seq<RecordView>, after: Seq<RecordView>, id: ValueView)
    requires
        within(after, before),
        gone(before, id),
    ensures
        gone(after, id),
{
    assert forall|i: int| 0 <= i < after.len() implies (#[trigger] after[i]).id != id by {
        let j = choose|j: int| 0 <= j < before.len() && before[j] == after[i];
        assert(before[j].id != id);
    }
}

/// A value that no record of a table holds in a field is held by none of a
/// part of it.
proof fn lemma_unreferenced_stays(
    before: Seq<RecordView>,
    after: Seq<RecordView>,
    field: Seq<char>,
    value: ValueView,
)
    requires
        within(after, before),
        unreferenced(before, field, value),
    ensures
        unreferenced(after, field, value),
{
    assert forall|i: int| 0 <= i < after.len() implies field_value(#[trigger] after[i], field)
        != Some(value) by {
        let j = choose|j: int| 0 <= j < before.len() && before[j] == after[i];
        assert(field_value(before[j], field) != Some(value));
    }
}

/// A record without children has none in tables that hold nothing new.
proof fn lemma_childless_stays(
    plans: Seq<PlanView>,
    before: Seq<Seq<RecordView>>,
    after: Seq<Seq<RecordView>>,
    t: int,
    id: ValueView,
    from: int,
)
    requires
        plans.len() == before.len(),
        shrunk(after, before),
        childless_from(plans, before, t, id, from),
    ensures
        childless_from(plans, after, t, id, from),
{
    assert forall|k: int| from <= k < plans[t].children.len() implies #[trigger] relation_clear(
        plans,
        after,
        t,
        k,
        id,
    ) by {
        assert(relation_clear(plans, before, t, k, id));
        lemma_link_in_range(plans, t, k);
        let to = child_link(plans, plans[t].children[k])->Ok_0;
        lemma_unreferenced_stays(before[to.0], after[to.0], to.1, id);
    }
}

/// Where nothing went, nothing left a child behind.
proof fn lemma_no_orphans_self(plans: Seq<PlanView>, tables: Seq<Seq<RecordView>>)
    ensures
        no_orphans(plans, tables, tables),
{
}

/// Two steps that each leave no child behind leave none behind together.
proof fn lemma_no_orphans_chain(
    plans: Seq<PlanView>,
    a: Seq<Seq<RecordView>>,
    b: Seq<Seq<RecordView>>,
    c: Seq<Seq<RecordView>>,
)
    requires
        plans.len() == a.len(),
        shrunk(b, a),
        shrunk(c, b),
        no_orphans(plans, a, b),
        no_orphans(plans, b, c),
    ensures
        no_orphans(plans, a, c),
{
    assert forall|t: int, i: int|
        0 <= t < a.len() && 0 <= i < a[t].len() && gone(
            c[t],
            (#[trigger] a[t][i]).id,
        ) implies childless(plans, c, t, a[t][i].id) by {
        let id = a[t][i].id;
        if gone(b[t], id) {
            lemma_childless_stays(plans, b, c, t, id, 0);
        } else {
            let j = choose|j: int| 0 <= j < b[t].len() && b[t][j].id == id;
            assert(gone(c[t], b[t][j].id));
        }
    }
}

/// A record that stays in a table after another id is removed from it.
pub proof fn lemma_without_keeps(table: Seq<RecordView>, id: ValueView, i: int)
    requires
        0 <= i < table.len(),
        table[i].id != id,
    ensures
        without(table, id).contains(table[i]),
        within(without(table, id), table),
{
    lemma_first_from(table, has_id(id), 0);
    lemma_without_within(table, id);
    match first(table, has_id(id)) {
        Some(at) => {
            let rest = table.remove(at);
            if i < at {
                assert(rest[i] == table[i]);
            } else {
                assert(rest[i - 1] == table[i]);
            }
        },
        None => {},
    }
}

/// A table without one id holds nothing that the table did not hold.
proof fn lemma_without_within(table: Seq<RecordView>, id: ValueView)
    ensures
        within(without(table, id), table),
{
    lemma_first_from(table, has_id(id), 0);
    let rest = without(table, id);
    assert forall|i: int| 0 <= i < rest.len() implies table.contains(#[trigger] rest[i]) by {}
}

/// What destroying one record leaves, where it succeeds: nothing new, no id
/// twice, the record gone, none of its children, and no child of anything
/// else that went.
pub proof fn lemma_destroy_one(
    plans: Seq<PlanView>,
    tables: Seq<Seq<RecordView>>,
    t: int,
    id: ValueView,
    depth: nat,
)
    requires
        fitting(plans, tables),
        0 <= t < plans.len(),
    ensures
        ({
            let end = destroy_one(plans, tables, t, id, depth);
            &&& fitting(plans, end.tables)
            &&& shrunk(end.tables, tables)
            &&& end.result is Ok ==> {
                &&& gone(end.tables[t], id)
                &&& childless(plans, end.tables, t, id)
                &&& no_orphans(plans, tables, end.tables)
            }
        }),
    decreases depth, 2nat, 0nat,
{
    let inner = destroy_relations(plans, tables, t, id, 0, depth);
    lemma_destroy_relations(plans, tables, t, id, 0, depth);
    if inner.result is Ok {
        let last = inner.tables.update(t, without(inner.tables[t], id));
        lemma_without_unique(inner.tables[t], id);
        lemma_without_within(inner.tables[t], id);
        assert forall|u: int| 0 <= u < last.len() implies within(
            #[trigger] last[u],
            inner.tables[u],
        ) by {
            if u != t {
                let table = inner.tables[u];
                assert forall|i: int| 0 <= i < table.len() implies table.contains(
                    #[trigger] table[i],
                ) by {}
            }
        }
        assert forall|u: int| 0 <= u < last.len() implies unique_ids(#[trigger] last[u]) by {}
        lemma_shrunk_chain(tables, inner.tables, last);
        lemma_childless_stays(plans, inner.tables, last, t, id, 0);
        assert forall|u: int, i: int|
            0 <= u < inner.tables.len() && 0 <= i < inner.tables[u].len() && gone(
                last[u],
                (#[trigger] inner.tables[u][i]).id,
            ) implies childless(plans, last, u, inner.tables[u][i].id) by {
            let record = inner.tables[u][i];
            if u == t && record.id != id {
                lemma_without_keeps(inner.tables[t], id, i);
                let j = choose|j: int| 0 <= j < last[t].len() && last[t][j] == record;
                assert(!gone(last[t], record.id));
            }
        }
        lemma_no_orphans_chain(plans, tables, inner.tables, last);
    }
}

/// What the cascade through the child collections from `from` on leaves,
/// where it succeeds: nothing new, and none of the record's children in them.
pub proof fn lemma_destroy_relations(
    plans: Seq<PlanView>,
    tables: Seq<Seq<RecordView>>,
    t: int,
    id: ValueView,
    from: int,
    depth: nat,
)
    requires
        fitting(plans, tables),
        0 <= t < plans.len(),
        0 <= from,
    ensures
        ({
            let end = destroy_relations(plans, tables, t, id, from, depth);
            &&& fitting(plans, end.tables)
            &&& shrunk(end.tables, tables)
            &&& end.result is Ok ==> {
                &&& childless_from(plans, end.tables, t, id, from)
                &&& no_orphans(plans, tables, end.tables)
            }
        }),
    decreases depth, 1nat, plans[t].children.len() - from,
{
    lemma_shrunk_same(tables);
    lemma_no_orphans_self(plans, tables);
    if from < plans[t].children.len() {
        match child_link(plans, plans[t].children[from]) {
            Err(_) => {},
            Ok(to) => {
                lemma_link_in_range(plans, t, from);
                let picked = select_spec(tables[to.0], to.1, id);
                let children = ids_of(picked);
                let inner = destroy_each(plans, tables, to.0, children, depth);
                lemma_destroy_each(plans, tables, to.0, children, depth);
                if inner.result is Ok {
                    let end = destroy_relations(plans, inner.tables, t, id, from + 1, depth);
                    lemma_destroy_relations(plans, inner.tables, t, id, from + 1, depth);
                    lemma_shrunk_chain(tables, inner.tables, end.tables);
                    if end.result is Ok {
                        let left = inner.tables[to.0];
                        assert forall|i: int| 0 <= i < left.len() implies field_value(
                            #[trigger] left[i],
                            to.1,
                        ) != Some(id) by {
                            if field_value(left[i], to.1) == Some(id) {
                                let whole = tables[to.0];
                                let j = choose|j: int| 0 <= j < whole.len() && whole[j] == left[i];
                                whole.lemma_filter_contains(field_is(to.1, id), j);
                                let at = choose|at: int|
                                    0 <= at < picked.len() && picked[at] == left[i];
                                assert(children[at] == left[i].id);
                                assert(gone(left, children[at]));
                            }
                        }
                        lemma_unreferenced_stays(left, end.tables[to.0], to.1, id);
                        lemma_no_orphans_chain(plans, tables, inner.tables, end.tables);
                    }
                }
            },
        }
    }
}

/// What destroying some records of one type leaves, where it succeeds:
/// nothing new, none of these records, and no child of anything that went.
pub proof fn lemma_destroy_each(
    plans: Seq<PlanView>,
    tables: Seq<Seq<RecordView>>,
    t: int,
    ids: Seq<ValueView>,
    depth: nat,
)
    requires
        fitting(plans, tables),
        0 <= t < plans.len(),
    ensures
        ({
            let end = destroy_each(plans, tables, t, ids, depth);
            &&& fitting(plans, end.tables)
            &&& shrunk(end.tables, tables)
            &&& end.result is Ok ==> {
                &&& forall|j: int| 0 <= j < ids.len() ==> gone(end.tables[t], #[trigger] ids[j])
                &&& no_orphans(plans, tables, end.tables)
            }
        }),
    decreases depth, 0nat, ids.len(),
{
    lemma_shrunk_same(tables);
    lemma_no_orphans_self(plans, tables);
    if ids.len() > 0 && depth > 0 {
        let inner = destroy_one(plans, tables, t, ids[0], (depth - 1) as nat);
        lemma_destroy_one(plans, tables, t, ids[0], (depth - 1) as nat);
        if inner.result is Ok {
            let rest = ids.drop_first();
            let end = destroy_each(plans, inner.tables, t, rest, depth);
            lemma_destroy_each(plans, inner.tables, t, rest, depth);
            lemma_shrunk_chain(tables, inner.tables, end.tables);
            if end.result is Ok {
                lemma_gone_stays(inner.tables[t], end.tables[t], ids[0]);
                assert forall|j: int| 0 <= j < ids.len() implies gone(
                    end.tables[t],
                    #[trigger] ids[j],
                ) by {
                    if j > 0 {
                        assert(rest[j - 1] == ids[j]);
                    }
                }
                lemma_no_orphans_chain(plans, tables, inner.tables, end.tables);
            }
        }
    }
}

} // verus!
