//! What holds of the generated methods on every valid database.

use crate::cascade_proof::{
    childless, gone, lemma_destroy_one, lemma_shrunk_same, no_orphans, relation_clear, shrunk,
};
use crate::chains::{
    acyclic_below, is_chain, lemma_chain_is_gone, lemma_count_is_deep_enough, lemma_only_one,
    lemma_root_outlasts_relations, only_below, Node,
};
use crate::database::{
    all_spec, children_spec, depth_limit, destroy_result, destroy_spec, find_by_spec, find_spec,
    parent_spec, save_spec, valid, DatabaseView,
};
use crate::metadata::ModelView;
use crate::naming::{finder_name_spec, key_name_spec, list_name_spec, pascal_case, snake_case};
use crate::plan::{
    child_of, finder_of, finders_of, is_findable, owner_finder_spec, parent_of, plan_spec,
};
use crate::record::{
    entry_value_from, field_value, same_field_spec, EntryView, RecordView, ValueView,
};
use crate::resolve::{
    child_called, child_link, finder_called, parent_called, plan_named, type_of, AccessError,
};
use crate::search::{first, lemma_first_from, lemma_first_is, lemma_first_none};
use crate::table::{
    count_upto, field_is, has_id, lemma_put_unique, put, select_spec, unique_ids,
};
use vstd::prelude::*;

verus! {

/// A finder gives exactly the records of `all` whose field equals the value,
/// in the order in which `all` gives them: it is `all` with the other records
/// left out. So a record is among those of the finder if and only if it is
/// among those of `all` and its field holds the value.
pub proof fn law_find_by_filters_all(
    db: DatabaseView,
    ty: Seq<char>,
    method: Seq<char>,
    value: ValueView,
)
    requires
        find_by_spec(db, ty, method, value) is Ok,
    ensures
        all_spec(db, ty) is Ok,
        first(db.plans[type_of(db.plans, ty)->Some_0].finders, finder_called(method)) is Some,
        ({
            let plan = db.plans[type_of(db.plans, ty)->Some_0];
            let field = plan.finders[first(plan.finders, finder_called(method))->Some_0].field;
            let all = all_spec(db, ty)->Ok_0;
            let found = find_by_spec(db, ty, method, value)->Ok_0;
            &&& found == all.filter(field_is(field, value))
            &&& found.len() <= all.len()
            &&& forall|record: RecordView|
                found.contains(record) <==> all.contains(record) && field_value(record, field)
                    == Some(value)
        }),
{
    let plan = db.plans[type_of(db.plans, ty)->Some_0];
    let field = plan.finders[first(plan.finders, finder_called(method))->Some_0].field;
    let all = all_spec(db, ty)->Ok_0;
    let test = field_is(field, value);
    let found = all.filter(test);
    all.lemma_filter_len(test);
    assert forall|record: RecordView| found.contains(record) implies all.contains(record)
        && field_value(record, field) == Some(value) by {
        all.lemma_filter_contains_rev(test, record);
        let i = choose|i: int| 0 <= i < found.len() && found[i] == record;
        all.lemma_filter_pred(test, i);
    }
    assert forall|record: RecordView|
        all.contains(record) && field_value(record, field) == Some(value) implies found.contains(
        record,
    ) by {
        let i = choose|i: int| 0 <= i < all.len() && all[i] == record;
        all.lemma_filter_contains(test, i);
    }
}

/// `find` gives the one stored record of the id, and nothing where no stored
/// record has the id.
pub proof fn law_find_is_unique_match(db: DatabaseView, ty: Seq<char>, id: ValueView)
    requires
        valid(db),
        type_of(db.plans, ty) is Some,
    ensures
        find_spec(db, ty, id) is Ok,
        ({
            let all = all_spec(db, ty)->Ok_0;
            match find_spec(db, ty, id)->Ok_0 {
                Some(found) => found.id == id && all.contains(found) && forall|i: int|
                    0 <= i < all.len() && (#[trigger] all[i]).id == id ==> all[i] == found,
                None => forall|i: int| 0 <= i < all.len() ==> (#[trigger] all[i]).id != id,
            }
        }),
{
    let t = type_of(db.plans, ty)->Some_0;
    lemma_first_from(db.plans, plan_named(ty), 0);
    let all = db.tables[t];
    lemma_first_from(all, has_id(id), 0);
    match first(all, has_id(id)) {
        Some(at) => {
            assert forall|i: int| 0 <= i < all.len() && (#[trigger] all[i]).id == id implies all[i]
                == all[at] by {
                if i < at {
                    assert(!has_id(id)(all[i]));
                } else if i > at {
                    assert(all[at].id != all[i].id);
                }
            }
        },
        None => {
            assert forall|i: int| 0 <= i < all.len() implies (#[trigger] all[i]).id != id by {
                assert(!has_id(id)(all[i]));
            }
        },
    }
}

/// Right after a record is saved, `find` on its id gives that record.
pub proof fn law_find_after_save(db: DatabaseView, ty: Seq<char>, record: RecordView)
    requires
        valid(db),
        type_of(db.plans, ty) is Some,
    ensures
        valid(save_spec(db, ty, record)),
        find_spec(save_spec(db, ty, record), ty, record.id) == Ok::<
            Option<RecordView>,
            AccessError,
        >(Some(record)),
{
    let t = type_of(db.plans, ty)->Some_0;
    lemma_first_from(db.plans, plan_named(ty), 0);
    let before = db.tables[t];
    let after = put(before, record);
    lemma_first_from(before, has_id(record.id), 0);
    lemma_put_unique(before, record);
    match first(before, has_id(record.id)) {
        Some(at) => {
            assert forall|j: int| 0 <= j < at implies !has_id(record.id)(#[trigger] after[j]) by {
                assert(!has_id(record.id)(before[j]));
            }
            lemma_first_is(after, has_id(record.id), at);
        },
        None => {
            assert forall|j: int| 0 <= j < before.len() implies !has_id(record.id)(
                #[trigger] after[j],
            ) by {
                assert(!has_id(record.id)(before[j]));
            }
            lemma_first_is(after, has_id(record.id), before.len() as int);
        },
    }
    let saved = save_spec(db, ty, record);
    assert forall|u: int| 0 <= u < saved.tables.len() implies unique_ids(
        #[trigger] saved.tables[u],
    ) by {}
}

/// Saving a record whose id is stored replaces the stored record where it
/// stands: `all` does not grow and every other record stays as it was. And
/// saving the same record once more changes nothing.
pub proof fn law_save_replaces(db: DatabaseView, ty: Seq<char>, record: RecordView)
    requires
        valid(db),
        type_of(db.plans, ty) is Some,
    ensures
        save_spec(save_spec(db, ty, record), ty, record) == save_spec(db, ty, record),
        find_spec(db, ty, record.id)->Ok_0 is Some ==> {
            let before = all_spec(db, ty)->Ok_0;
            let after = all_spec(save_spec(db, ty, record), ty)->Ok_0;
            &&& after.len() == before.len()
            &&& forall|i: int|
                0 <= i < before.len() ==> #[trigger] after[i] == if before[i].id == record.id {
                    record
                } else {
                    before[i]
                }
        },
        find_spec(db, ty, record.id)->Ok_0 is None ==> all_spec(save_spec(db, ty, record), ty)->Ok_0
            == all_spec(db, ty)->Ok_0.push(record),
{
    law_find_after_save(db, ty, record);
    let t = type_of(db.plans, ty)->Some_0;
    lemma_first_from(db.plans, plan_named(ty), 0);
    let before = db.tables[t];
    let after = put(before, record);
    let saved = save_spec(db, ty, record);
    lemma_first_from(before, has_id(record.id), 0);
    lemma_first_from(after, has_id(record.id), 0);
    assert(put(after, record) =~= after);
    assert(save_spec(saved, ty, record).tables =~= saved.tables);
    if first(before, has_id(record.id)) is Some {
        let at = first(before, has_id(record.id))->Some_0;
        assert forall|i: int| 0 <= i < before.len() implies #[trigger] after[i] == if before[i].id
            == record.id {
            record
        } else {
            before[i]
        } by {
            if i < at {
                assert(!has_id(record.id)(before[i]));
            } else if i > at {
                assert(before[at].id != before[i].id);
            }
        }
    }
}

/// The value of a field does not depend on whether its name is written with `r#`.
pub proof fn lemma_same_field_value(record: RecordView, a: Seq<char>, b: Seq<char>)
    requires
        same_field_spec(a, b),
    ensures
        field_value(record, a) == field_value(record, b),
{
    lemma_same_entry_value(record.entries, a, b, 0);
}

/// As `lemma_same_field_value`, for the entries from `start` on.
proof fn lemma_same_entry_value(entries: Seq<EntryView>, a: Seq<char>, b: Seq<char>, start: int)
    requires
        same_field_spec(a, b),
        0 <= start <= entries.len(),
    ensures
        entry_value_from(entries, a, start) == entry_value_from(entries, b, start),
    decreases entries.len() - start,
{
    if start < entries.len() {
        lemma_same_entry_value(entries, a, b, start + 1);
    }
}

/// Whether a child accessor of one type and a parent accessor of another
/// answer each other: the child accessor leads to the second type, the parent
/// accessor leads back to the first, and both read the same field of the child.
pub open spec fn reciprocal(
    db: DatabaseView,
    owner: Seq<char>,
    list: Seq<char>,
    child: Seq<char>,
    parent: Seq<char>,
) -> bool {
    match (type_of(db.plans, owner), type_of(db.plans, child)) {
        (Some(o), Some(c)) => match (
            first(db.plans[o].children, child_called(list)),
            first(db.plans[c].parents, parent_called(parent)),
        ) {
            (Some(a), Some(b)) => match child_link(db.plans, db.plans[o].children[a]) {
                Ok(to) => to.0 == c && type_of(db.plans, db.plans[c].parents[b].target) == Some(o)
                    && same_field_spec(to.1, db.plans[c].parents[b].key),
                Err(_) => false,
            },
            _ => false,
        },
        _ => false,
    }
}

/// The field of the child type that holds the parent's id, where the two
/// accessors answer each other.
pub open spec fn parent_key(db: DatabaseView, child: Seq<char>, parent: Seq<char>) -> Seq<char> {
    let plan = db.plans[type_of(db.plans, child)->Some_0];
    plan.parents[first(plan.parents, parent_called(parent))->Some_0].key
}

/// Where a child accessor and a parent accessor answer each other, a stored
/// child whose foreign key is the id of a stored parent is among the parent's
/// children, and the child's parent is that parent.
pub proof fn law_parent_and_children_agree(
    db: DatabaseView,
    owner: Seq<char>,
    list: Seq<char>,
    child: Seq<char>,
    parent: Seq<char>,
    p: RecordView,
    k: RecordView,
)
    requires
        valid(db),
        reciprocal(db, owner, list, child, parent),
        all_spec(db, owner)->Ok_0.contains(p),
        all_spec(db, child)->Ok_0.contains(k),
        field_value(k, parent_key(db, child, parent)) == Some(p.id),
    ensures
        children_spec(db, owner, p, list) is Ok,
        children_spec(db, owner, p, list)->Ok_0.contains(k),
        parent_spec(db, child, k, parent) == Ok::<Option<RecordView>, AccessError>(Some(p)),
{
    let o = type_of(db.plans, owner)->Some_0;
    let c = type_of(db.plans, child)->Some_0;
    lemma_first_from(db.plans, plan_named(owner), 0);
    lemma_first_from(db.plans, plan_named(child), 0);
    let a = first(db.plans[o].children, child_called(list))->Some_0;
    let b = first(db.plans[c].parents, parent_called(parent))->Some_0;
    let to = child_link(db.plans, db.plans[o].children[a])->Ok_0;
    let key = db.plans[c].parents[b].key;
    lemma_same_field_value(k, to.1, key);
    let kids = db.tables[c];
    let at = choose|i: int| 0 <= i < kids.len() && kids[i] == k;
    kids.lemma_filter_contains(field_is(to.1, p.id), at);
    law_find_is_unique_match(db, owner, p.id);
    let owners = db.tables[o];
    let here = choose|i: int| 0 <= i < owners.len() && owners[i] == p;
    assert(owners[here].id == p.id);
}

/// `destroy` stores nothing that was not stored before, whether it succeeds
/// or not. Where it succeeds, the record is gone, none of its child
/// collections holds a child of it any more, and the same is true of every
/// record that went with it: of each child, of the children of each child,
/// and so on down.
pub proof fn law_destroy_cascades(db: DatabaseView, ty: Seq<char>, id: ValueView)
    requires
        valid(db),
        type_of(db.plans, ty) is Some,
    ensures
        valid(destroy_spec(db, ty, id)),
        shrunk(destroy_spec(db, ty, id).tables, db.tables),
        destroy_result(db, ty, id) is Ok ==> {
            let after = destroy_spec(db, ty, id);
            let t = type_of(db.plans, ty)->Some_0;
            &&& gone(after.tables[t], id)
            &&& childless(db.plans, after.tables, t, id)
            &&& no_orphans(db.plans, db.tables, after.tables)
        },
{
    let t = type_of(db.plans, ty)->Some_0;
    lemma_first_from(db.plans, plan_named(ty), 0);
    lemma_destroy_one(db.plans, db.tables, t, id, depth_limit(db.tables));
}

/// Where `destroy` succeeds, every record that a chain of children leads to
/// from the destroyed record is gone: each of its children, each child of a
/// child, and so on.
pub proof fn law_descendants_are_gone(
    db: DatabaseView,
    ty: Seq<char>,
    id: ValueView,
    nodes: Seq<Node>,
)
    requires
        valid(db),
        destroy_result(db, ty, id) is Ok,
        nodes.len() > 0,
        nodes[0] == (Node { t: type_of(db.plans, ty)->Some_0, id }),
        is_chain(db.plans, db.tables, nodes),
    ensures
        forall|j: int|
            0 <= j < nodes.len() ==> gone(
                destroy_spec(db, ty, id).tables[(#[trigger] nodes[j]).t],
                nodes[j].id,
            ),
{
    let after = destroy_spec(db, ty, id);
    lemma_first_from(db.plans, plan_named(ty), 0);
    law_destroy_cascades(db, ty, id);
    assert forall|j: int| 0 <= j < nodes.len() implies gone(
        after.tables[(#[trigger] nodes[j]).t],
        nodes[j].id,
    ) by {
        lemma_chain_is_gone(db.plans, db.tables, after.tables, nodes, j);
    }
}

/// `destroy` takes nothing but the record and its descendants, whether it
/// succeeds or not: every record that is stored no longer is the destroyed
/// record or one that a chain of children leads to from it.
pub proof fn law_destroy_takes_descendants_only(db: DatabaseView, ty: Seq<char>, id: ValueView)
    requires
        valid(db),
        type_of(db.plans, ty) is Some,
    ensures
        only_below(
            db.plans,
            db.tables,
            db.tables,
            destroy_spec(db, ty, id).tables,
            Node { t: type_of(db.plans, ty)->Some_0, id },
            1,
        ),
{
    let t = type_of(db.plans, ty)->Some_0;
    lemma_first_from(db.plans, plan_named(ty), 0);
    lemma_shrunk_same(db.tables);
    lemma_only_one(db.plans, db.tables, db.tables, t, id, depth_limit(db.tables));
}

/// Where `destroy` fails, the record itself is stored as before, unless it is
/// among its own descendants: the cascade takes the record last.
pub proof fn law_failed_destroy_keeps_the_record(db: DatabaseView, ty: Seq<char>, id: ValueView)
    requires
        valid(db),
        type_of(db.plans, ty) is Some,
        destroy_result(db, ty, id) is Err,
        acyclic_below(db.plans, db.tables, Node { t: type_of(db.plans, ty)->Some_0, id }),
    ensures
        find_spec(destroy_spec(db, ty, id), ty, id) == find_spec(db, ty, id),
{
    let t = type_of(db.plans, ty)->Some_0;
    let after = destroy_spec(db, ty, id);
    lemma_first_from(db.plans, plan_named(ty), 0);
    law_destroy_cascades(db, ty, id);
    law_find_is_unique_match(db, ty, id);
    law_find_is_unique_match(after, ty, id);
    let before = db.tables[t];
    let left = after.tables[t];
    lemma_first_from(before, has_id(id), 0);
    match first(before, has_id(id)) {
        Some(i) => {
            lemma_root_outlasts_relations(db.plans, db.tables, t, id, depth_limit(db.tables), i);
            let at = choose|at: int| 0 <= at < left.len() && left[at].id == id;
            assert(before.contains(left[at]));
            let j = choose|j: int| 0 <= j < before.len() && before[j] == left[at];
            if i != j {
                assert(before[i].id != before[j].id);
            }
        },
        None => {
            if find_spec(after, ty, id)->Ok_0 is Some {
                let found = find_spec(after, ty, id)->Ok_0->Some_0;
                let at = choose|at: int| 0 <= at < left.len() && left[at] == found;
                assert(before.contains(left[at]));
                let j = choose|j: int| 0 <= j < before.len() && before[j] == left[at];
                assert(!has_id(id)(before[j]));
            }
        },
    }
}

/// `destroy` does not fail for depth on a record that is not among its own
/// descendants, none of which is among its own either: where no chain of
/// children that starts at the record comes to any record twice.
pub proof fn law_destroy_ends_without_cycles(db: DatabaseView, ty: Seq<char>, id: ValueView)
    requires
        valid(db),
        type_of(db.plans, ty) is Some,
        count_upto(db.tables, db.tables.len() as int) <= usize::MAX,
        acyclic_below(db.plans, db.tables, Node { t: type_of(db.plans, ty)->Some_0, id }),
    ensures
        destroy_result(db, ty, id) != Err::<(), AccessError>(AccessError::TooDeep),
{
    let t = type_of(db.plans, ty)->Some_0;
    lemma_first_from(db.plans, plan_named(ty), 0);
    lemma_count_is_deep_enough(db.plans, db.tables, t, id);
}

/// After a `destroy` that succeeded, `find` no longer gives the record, and
/// each of its child accessors gives the empty list.
pub proof fn law_destroyed_is_absent(
    db: DatabaseView,
    ty: Seq<char>,
    record: RecordView,
    list: Seq<char>,
)
    requires
        valid(db),
        destroy_result(db, ty, record.id) is Ok,
    ensures
        find_spec(destroy_spec(db, ty, record.id), ty, record.id) == Ok::<
            Option<RecordView>,
            AccessError,
        >(None),
        children_spec(db, ty, record, list) is Ok ==> children_spec(
            destroy_spec(db, ty, record.id),
            ty,
            record,
            list,
        ) == Ok::<Seq<RecordView>, AccessError>(Seq::empty()),
{
    let t = type_of(db.plans, ty)->Some_0;
    let after = destroy_spec(db, ty, record.id);
    lemma_first_from(db.plans, plan_named(ty), 0);
    law_destroy_cascades(db, ty, record.id);
    let left = after.tables[t];
    assert forall|i: int| 0 <= i < left.len() implies !has_id(record.id)(#[trigger] left[i]) by {}
    lemma_first_none(left, has_id(record.id));
    if children_spec(db, ty, record, list) is Ok {
        let plan = db.plans[t];
        lemma_first_from(plan.children, child_called(list), 0);
        let c = first(plan.children, child_called(list))->Some_0;
        assert(relation_clear(db.plans, after.tables, t, c, record.id));
        let to = child_link(db.plans, plan.children[c])->Ok_0;
        let kids = after.tables[to.0];
        assert forall|i: int| 0 <= i < kids.len() implies !field_is(to.1, record.id)(
            #[trigger] kids[i],
        ) by {}
        kids.lemma_all_neg_filter_empty(field_is(to.1, record.id));
        assert(select_spec(kids, to.1, record.id) =~= Seq::<RecordView>::empty());
    }
}

/// Where an item of a sequence meets a test, the items that meet the test
/// hold it at the position that counts those before it, and hold before it
/// exactly those of the items before it that meet the test.
proof fn lemma_filter_position<A>(items: Seq<A>, test: spec_fn(A) -> bool, i: int)
    requires
        0 <= i < items.len(),
        test(items[i]),
    ensures
        ({
            let kept = items.filter(test);
            let at = items.take(i).filter(test).len() as int;
            &&& at < kept.len()
            &&& kept[at] == items[i]
            &&& kept.take(at) == items.take(i).filter(test)
        }),
{
    let head = items.take(i);
    let tail = items.skip(i + 1);
    assert(items =~= head.push(items[i]) + tail);
    Seq::filter_distributes_over_add(head.push(items[i]), tail, test);
    head.lemma_filter_push(items[i], test);
}

/// A findable field has its finder in the plan: the finder of the field's
/// name resolves to the one built from the field, unless an earlier findable
/// field gives the same finder name.
pub proof fn law_declared_finder(model: ModelView, i: int)
    requires
        0 <= i < model.fields.len(),
        model.fields[i].findable,
        forall|j: int|
            0 <= j < i && model.fields[j].findable ==> finder_name_spec(
                (#[trigger] model.fields[j]).name,
            ) != finder_name_spec(model.fields[i].name),
    ensures
        ({
            let finders = plan_spec(model).finders;
            let found = first(finders, finder_called(finder_name_spec(model.fields[i].name)));
            found is Some && finders[found->Some_0] == finder_of(model.fields[i])
        }),
{
    let fields = model.fields;
    let method = finder_name_spec(fields[i].name);
    let kept = fields.filter(is_findable());
    let finders = finders_of(fields);
    lemma_filter_position(fields, is_findable(), i);
    let at = fields.take(i).filter(is_findable()).len() as int;
    assert forall|j: int| 0 <= j < at implies !finder_called(method)(#[trigger] finders[j]) by {
        let earlier = fields.take(i).filter(is_findable());
        fields.take(i).lemma_filter_pred(is_findable(), j);
        fields.take(i).lemma_filter_contains_rev(is_findable(), earlier[j]);
        let from = choose|from: int|
            0 <= from < fields.take(i).len() && fields.take(i)[from] == earlier[j];
        assert(fields[from] == kept[j]);
    }
    lemma_first_is(finders, finder_called(method), at);
}

/// A finder of a declared findable field gives exactly the records of `all`
/// whose field equals the value, in the order of `all`.
pub proof fn law_declared_finder_filters_all(
    db: DatabaseView,
    model: ModelView,
    i: int,
    value: ValueView,
)
    requires
        type_of(db.plans, model.name) is Some,
        db.plans[type_of(db.plans, model.name)->Some_0] == plan_spec(model),
        0 <= i < model.fields.len(),
        model.fields[i].findable,
        forall|j: int|
            0 <= j < i && model.fields[j].findable ==> finder_name_spec(
                (#[trigger] model.fields[j]).name,
            ) != finder_name_spec(model.fields[i].name),
    ensures
        find_by_spec(db, model.name, finder_name_spec(model.fields[i].name), value) == Ok::<
            Seq<RecordView>,
            AccessError,
        >(all_spec(db, model.name)->Ok_0.filter(field_is(model.fields[i].name, value))),
{
    law_declared_finder(model, i);
}

/// A declared parent relation has its accessor in the plan, under the
/// relation's snake-case name, unless an earlier relation has the same.
pub proof fn law_declared_parent(model: ModelView, b: int)
    requires
        0 <= b < model.belongs_to.len(),
        forall|j: int|
            0 <= j < b ==> snake_case(#[trigger] model.belongs_to[j]) != snake_case(
                model.belongs_to[b],
            ),
    ensures
        first(plan_spec(model).parents, parent_called(snake_case(model.belongs_to[b]))) == Some(b),
        plan_spec(model).parents[b] == parent_of(model.belongs_to[b]),
{
    let parents = plan_spec(model).parents;
    let method = snake_case(model.belongs_to[b]);
    assert forall|j: int| 0 <= j < b implies !parent_called(method)(#[trigger] parents[j]) by {
        assert(parents[j] == parent_of(model.belongs_to[j]));
    }
    lemma_first_is(parents, parent_called(method), b);
}

/// A declared child relation has its accessor in the plan, under
/// `<relation>_list`, unless an earlier relation gives the same name.
pub proof fn law_declared_child(model: ModelView, a: int)
    requires
        0 <= a < model.has_many.len(),
        forall|j: int|
            0 <= j < a ==> list_name_spec(snake_case(#[trigger] model.has_many[j]))
                != list_name_spec(snake_case(model.has_many[a])),
    ensures
        first(
            plan_spec(model).children,
            child_called(list_name_spec(snake_case(model.has_many[a]))),
        ) == Some(a),
        plan_spec(model).children[a] == child_of(model.has_many[a], model.name),
{
    let children = plan_spec(model).children;
    let method = list_name_spec(snake_case(model.has_many[a]));
    assert forall|j: int| 0 <= j < a implies !child_called(method)(#[trigger] children[j]) by {
        assert(children[j] == child_of(model.has_many[j], model.name));
    }
    lemma_first_is(children, child_called(method), a);
}

/// The naming convention that makes two declarations answer each other. An
/// owner declares a child relation whose Pascal-case form is the child's type
/// name; the child declares a parent relation whose Pascal-case form is the
/// owner's type name; and the child has a findable field whose finder is
/// `find_by_<owner>_id` and which is the field `<parent relation>_id`. Then
/// the owner's `<child relation>_list` and the child's `<parent relation>`
/// answer each other, and the foreign key is `<parent relation>_id`.
pub proof fn law_declared_relations_are_reciprocal(
    db: DatabaseView,
    owner: ModelView,
    child: ModelView,
    a: int,
    b: int,
    f: int,
)
    requires
        type_of(db.plans, owner.name) is Some,
        db.plans[type_of(db.plans, owner.name)->Some_0] == plan_spec(owner),
        type_of(db.plans, child.name) is Some,
        db.plans[type_of(db.plans, child.name)->Some_0] == plan_spec(child),
        0 <= a < owner.has_many.len(),
        forall|j: int|
            0 <= j < a ==> list_name_spec(snake_case(#[trigger] owner.has_many[j]))
                != list_name_spec(snake_case(owner.has_many[a])),
        0 <= b < child.belongs_to.len(),
        forall|j: int|
            0 <= j < b ==> snake_case(#[trigger] child.belongs_to[j]) != snake_case(
                child.belongs_to[b],
            ),
        0 <= f < child.fields.len(),
        child.fields[f].findable,
        forall|j: int|
            0 <= j < f && child.fields[j].findable ==> finder_name_spec(
                (#[trigger] child.fields[j]).name,
            ) != finder_name_spec(child.fields[f].name),
        pascal_case(owner.has_many[a]) == child.name,
        pascal_case(child.belongs_to[b]) == owner.name,
        finder_name_spec(child.fields[f].name) == owner_finder_spec(snake_case(owner.name)),
        same_field_spec(child.fields[f].name, key_name_spec(snake_case(child.belongs_to[b]))),
    ensures
        reciprocal(
            db,
            owner.name,
            list_name_spec(snake_case(owner.has_many[a])),
            child.name,
            snake_case(child.belongs_to[b]),
        ),
        parent_key(db, child.name, snake_case(child.belongs_to[b])) == key_name_spec(
            snake_case(child.belongs_to[b]),
        ),
{
    law_declared_child(owner, a);
    law_declared_parent(child, b);
    law_declared_finder(child, f);
}

} // verus!
