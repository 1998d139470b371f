//! Chains of children: which records a cascade takes, and why its depth limit
//! is enough.

use crate::cascade::{destroy_each, destroy_one, destroy_relations};
use crate::cascade_proof::{
    childless, fitting, gone, lemma_destroy_each, lemma_destroy_one, lemma_destroy_relations,
    lemma_link_in_range, lemma_shrunk_chain, lemma_shrunk_same, lemma_without_keeps, no_orphans,
    relation_clear, shrunk, within,
};
use crate::plan::PlanView;
use crate::record::{field_value, RecordView, ValueView};
use crate::resolve::{child_link, AccessError};
use crate::table::{count_upto, field_is, ids_of, select_spec, without};
use vstd::prelude::*;

verus! {

/// A record as the cascade knows it: the index of its type and its id.
pub struct Node {
    pub t: int,
    pub id: ValueView,
}

/// Whether record `i` of the table that the child collection `k` of type `t`
/// leads to is a child of the record of type `t` with the given id.
pub open spec fn child_at(
    plans: Seq<PlanView>,
    tables: Seq<Seq<RecordView>>,
    t: int,
    k: int,
    i: int,
    id: ValueView,
) -> bool {
    &&& 0 <= t < plans.len()
    &&& 0 <= k < plans[t].children.len()
    &&& match child_link(plans, plans[t].children[k]) {
        Ok(to) => 0 <= i < tables[to.0].len() && field_value(tables[to.0][i], to.1) == Some(id),
        Err(_) => false,
    }
}

/// Whether the second record is stored and is a child of the first.
pub open spec fn is_child(
    plans: Seq<PlanView>,
    tables: Seq<Seq<RecordView>>,
    parent: Node,
    child: Node,
) -> bool {
    exists|k: int, i: int| #[trigger]
        child_at(plans, tables, parent.t, k, i, parent.id) && {
            let to = child_link(plans, plans[parent.t].children[k])->Ok_0;
            to.0 == child.t && tables[to.0][i].id == child.id
        }
}

/// Whether each record of a sequence but the first is a child of the one
/// before it.
pub open spec fn is_chain(
    plans: Seq<PlanView>,
    tables: Seq<Seq<RecordView>>,
    nodes: Seq<Node>,
) -> bool {
    forall|j: int|
        0 <= j < nodes.len() - 1 ==> #[trigger] is_child(plans, tables, nodes[j], nodes[j + 1])
}

/// Whether no chain of children that starts at a record comes to any record
/// twice: the record is not among its own descendants, nor is any of them.
pub open spec fn acyclic_below(
    plans: Seq<PlanView>,
    tables: Seq<Seq<RecordView>>,
    root: Node,
) -> bool {
    forall|nodes: Seq<Node>|
        nodes.len() > 0 && nodes[0] == root && #[trigger] is_chain(plans, tables, nodes)
            ==> nodes.no_duplicates()
}

/// The records of one table as nodes.
pub open spec fn nodes_of(tables: Seq<Seq<RecordView>>, t: int) -> Seq<Node> {
    Seq::new(tables[t].len(), |i: int| Node { t, id: tables[t][i].id })
}

/// The records of the first `n` tables as nodes.
pub open spec fn nodes_upto(tables: Seq<Seq<RecordView>>, n: int) -> Seq<Node>
    decreases n,
{
    if n <= 0 {
        Seq::empty()
    } else {
        nodes_upto(tables, n - 1) + nodes_of(tables, n - 1)
    }
}

/// The nodes of the first `n` tables are as many as their records, and every
/// record of these tables is among them.
proof fn lemma_nodes_upto(tables: Seq<Seq<RecordView>>, n: int)
    requires
        0 <= n <= tables.len(),
    ensures
        nodes_upto(tables, n).len() == count_upto(tables, n),
        forall|t: int, i: int|
            0 <= t < n && 0 <= i < tables[t].len() ==> nodes_upto(tables, n).contains(
                Node { t, id: (#[trigger] tables[t][i]).id },
            ),
    decreases n,
{
    if n > 0 {
        lemma_nodes_upto(tables, n - 1);
        let before = nodes_upto(tables, n - 1);
        let last = nodes_of(tables, n - 1);
        let all = nodes_upto(tables, n);
        assert forall|t: int, i: int| 0 <= t < n && 0 <= i < tables[t].len() implies all.contains(
            Node { t, id: (#[trigger] tables[t][i]).id },
        ) by {
            let node = Node { t, id: tables[t][i].id };
            if t < n - 1 {
                let at = choose|at: int| 0 <= at < before.len() && before[at] == node;
                assert(all[at] == node);
            } else {
                assert(all[before.len() + i] == node);
            }
        }
    }
}

/// A chain without the record it starts at visits stored records only, so
/// where it visits none twice it is no longer than there are records.
proof fn lemma_chain_is_short(plans: Seq<PlanView>, tables: Seq<Seq<RecordView>>, nodes: Seq<Node>)
    requires
        plans.len() == tables.len(),
        nodes.len() > 0,
        is_chain(plans, tables, nodes),
        nodes.no_duplicates(),
    ensures
        nodes.len() - 1 <= count_upto(tables, tables.len() as int),
{
    let tail = nodes.skip(1);
    let all = nodes_upto(tables, tables.len() as int);
    lemma_nodes_upto(tables, tables.len() as int);
    assert(tail.no_duplicates());
    assert forall|node: Node| tail.to_set().contains(node) implies all.to_set().contains(node) by {
        let j = choose|j: int| 0 <= j < tail.len() && tail[j] == node;
        assert(is_child(plans, tables, nodes[j], nodes[j + 1]));
        let (k, i) = choose|k: int, i: int| #[trigger]
            child_at(plans, tables, nodes[j].t, k, i, nodes[j].id) && {
                let to = child_link(plans, plans[nodes[j].t].children[k])->Ok_0;
                to.0 == nodes[j + 1].t && tables[to.0][i].id == nodes[j + 1].id
            };
        lemma_link_in_range(plans, nodes[j].t, k);
    }
    tail.unique_seq_to_set();
    all.lemma_cardinality_of_set();
    vstd::seq_lib::seq_to_set_is_finite(all);
    vstd::seq_lib::seq_to_set_is_finite(tail);
    vstd::set_lib::lemma_len_subset(tail.to_set(), all.to_set());
}

/// Where destroying a record runs out of depth, a chain of children starts at
/// the record and goes one record deeper than the depth allows.
proof fn lemma_too_deep_one(
    plans: Seq<PlanView>,
    base: Seq<Seq<RecordView>>,
    tables: Seq<Seq<RecordView>>,
    t: int,
    id: ValueView,
    depth: nat,
) -> (nodes: Seq<Node>)
    requires
        fitting(plans, tables),
        shrunk(tables, base),
        0 <= t < plans.len(),
        destroy_one(plans, tables, t, id, depth).result == Err::<(), AccessError>(
            AccessError::TooDeep,
        ),
    ensures
        nodes.len() == depth + 2,
        nodes[0] == (Node { t, id }),
        is_chain(plans, base, nodes),
    decreases depth, 2nat, 0nat,
{
    lemma_too_deep_relations(plans, base, tables, t, id, 0, depth)
}

/// As `lemma_too_deep_one`, for the cascade through the child collections
/// from `from` on.
proof fn lemma_too_deep_relations(
    plans: Seq<PlanView>,
    base: Seq<Seq<RecordView>>,
    tables: Seq<Seq<RecordView>>,
    t: int,
    id: ValueView,
    from: int,
    depth: nat,
) -> (nodes: Seq<Node>)
    requires
        fitting(plans, tables),
        shrunk(tables, base),
        0 <= t < plans.len(),
        0 <= from,
        destroy_relations(plans, tables, t, id, from, depth).result == Err::<(), AccessError>(
            AccessError::TooDeep,
        ),
    ensures
        nodes.len() == depth + 2,
        nodes[0] == (Node { t, id }),
        is_chain(plans, base, nodes),
    decreases depth, 1nat, plans[t].children.len() - from,
{
    let to = child_link(plans, plans[t].children[from])->Ok_0;
    lemma_link_in_range(plans, t, from);
    let whole = tables[to.0];
    let picked = select_spec(whole, to.1, id);
    let children = ids_of(picked);
    let inner = destroy_each(plans, tables, to.0, children, depth);
    lemma_destroy_each(plans, tables, to.0, children, depth);
    if inner.result is Ok {
        lemma_shrunk_chain(base, tables, inner.tables);
        lemma_too_deep_relations(plans, base, inner.tables, t, id, from + 1, depth)
    } else {
        let below = lemma_too_deep_each(plans, base, tables, to.0, children, depth);
        let j = choose|j: int| 0 <= j < children.len() && below[0] == (Node {
            t: to.0,
            id: children[j],
        });
        whole.lemma_filter_pred(field_is(to.1, id), j);
        whole.lemma_filter_contains_rev(field_is(to.1, id), picked[j]);
        let at = choose|at: int| 0 <= at < whole.len() && whole[at] == picked[j];
        let i = choose|i: int| 0 <= i < base[to.0].len() && base[to.0][i] == whole[at];
        assert(child_at(plans, base, t, from, i, id));
        let root = Node { t, id };
        let nodes = seq![root] + below;
        assert forall|j: int| 0 <= j < nodes.len() - 1 implies #[trigger] is_child(
            plans,
            base,
            nodes[j],
            nodes[j + 1],
        ) by {
            if j > 0 {
                assert(is_child(plans, base, below[j - 1], below[j - 1 + 1]));
            }
        }
        nodes
    }
}

/// Where destroying some records of one type runs out of depth, a chain of
/// children starts at one of them and has one record more than the depth.
proof fn lemma_too_deep_each(
    plans: Seq<PlanView>,
    base: Seq<Seq<RecordView>>,
    tables: Seq<Seq<RecordView>>,
    t: int,
    ids: Seq<ValueView>,
    depth: nat,
) -> (nodes: Seq<Node>)
    requires
        fitting(plans, tables),
        shrunk(tables, base),
        0 <= t < plans.len(),
        destroy_each(plans, tables, t, ids, depth).result == Err::<(), AccessError>(
            AccessError::TooDeep,
        ),
    ensures
        nodes.len() == depth + 1,
        exists|j: int| 0 <= j < ids.len() && nodes[0] == (Node { t, id: #[trigger] ids[j] }),
        is_chain(plans, base, nodes),
    decreases depth, 0nat, ids.len(),
{
    if depth == 0 {
        seq![Node { t, id: ids[0] }]
    } else {
        let inner = destroy_one(plans, tables, t, ids[0], (depth - 1) as nat);
        lemma_destroy_one(plans, tables, t, ids[0], (depth - 1) as nat);
        if inner.result is Ok {
            let rest = ids.drop_first();
            lemma_shrunk_chain(base, tables, inner.tables);
            let nodes = lemma_too_deep_each(plans, base, inner.tables, t, rest, depth);
            let j = choose|j: int| 0 <= j < rest.len() && nodes[0] == (Node {
                t,
                id: #[trigger] rest[j],
            });
            assert(nodes[0] == (Node { t, id: ids[j + 1] }));
            nodes
        } else {
            lemma_too_deep_one(plans, base, tables, t, ids[0], (depth - 1) as nat)
        }
    }
}

/// Destroying a record does not run out of depth where the depth is the
/// number of records and no chain of children from the record comes to a
/// record twice.
pub proof fn lemma_count_is_deep_enough(
    plans: Seq<PlanView>,
    tables: Seq<Seq<RecordView>>,
    t: int,
    id: ValueView,
)
    requires
        fitting(plans, tables),
        0 <= t < plans.len(),
        acyclic_below(plans, tables, Node { t, id }),
    ensures
        destroy_one(
            plans,
            tables,
            t,
            id,
            count_upto(tables, tables.len() as int),
        ).result != Err::<(), AccessError>(AccessError::TooDeep),
{
    let depth = count_upto(tables, tables.len() as int);
    if destroy_one(plans, tables, t, id, depth).result == Err::<(), AccessError>(
        AccessError::TooDeep,
    ) {
        lemma_shrunk_same(tables);
        let nodes = lemma_too_deep_one(plans, tables, tables, t, id, depth);
        lemma_chain_is_short(plans, tables, nodes);
    }
}


/// Whether a chain of at least `least` records leads from one record to
/// another, each the child of the one before it. With `least` at 1 a record
/// leads to itself; with `least` at 2 it leads to its descendants only.
pub open spec fn reaches(
    plans: Seq<PlanView>,
    tables: Seq<Seq<RecordView>>,
    from: Node,
    to: Node,
    least: int,
) -> bool {
    exists|nodes: Seq<Node>|
        nodes.len() >= least && nodes.len() > 0 && nodes[0] == from && nodes.last() == to
            && #[trigger] is_chain(plans, tables, nodes)
}

/// Whether every record that was stored before and is stored no longer is
/// one that a chain of at least `least` records leads to from the given
/// record.
pub open spec fn only_below(
    plans: Seq<PlanView>,
    base: Seq<Seq<RecordView>>,
    before: Seq<Seq<RecordView>>,
    after: Seq<Seq<RecordView>>,
    root: Node,
    least: int,
) -> bool {
    forall|u: int, i: int|
        0 <= u < before.len() && 0 <= i < before[u].len() && gone(
            after[u],
            (#[trigger] before[u][i]).id,
        ) ==> reaches(plans, base, root, Node { t: u, id: before[u][i].id }, least)
}

/// A record leads to itself.
proof fn lemma_reaches_self(plans: Seq<PlanView>, tables: Seq<Seq<RecordView>>, node: Node)
    ensures
        reaches(plans, tables, node, node, 1),
{
    let nodes = seq![node];
    assert(is_chain(plans, tables, nodes));
    assert(nodes[0] == node && nodes.last() == node);
}

/// What a chain of at least two records leads to, a chain of at least one
/// leads to.
proof fn lemma_reaches_with_less(
    plans: Seq<PlanView>,
    tables: Seq<Seq<RecordView>>,
    from: Node,
    to: Node,
)
    requires
        reaches(plans, tables, from, to, 2),
    ensures
        reaches(plans, tables, from, to, 1),
{
    let nodes = choose|nodes: Seq<Node>|
        nodes.len() >= 2 && nodes.len() > 0 && nodes[0] == from && nodes.last() == to
            && #[trigger] is_chain(plans, tables, nodes);
    assert(is_chain(plans, tables, nodes));
}

/// What a child leads to, its parent leads to by a chain of at least two.
proof fn lemma_reaches_through_child(
    plans: Seq<PlanView>,
    tables: Seq<Seq<RecordView>>,
    parent: Node,
    child: Node,
    to: Node,
)
    requires
        is_child(plans, tables, parent, child),
        reaches(plans, tables, child, to, 1),
    ensures
        reaches(plans, tables, parent, to, 2),
{
    let below = choose|nodes: Seq<Node>|
        nodes.len() >= 1 && nodes.len() > 0 && nodes[0] == child && nodes.last() == to
            && #[trigger] is_chain(plans, tables, nodes);
    let nodes = seq![parent] + below;
    assert forall|j: int| 0 <= j < nodes.len() - 1 implies #[trigger] is_child(
        plans,
        tables,
        nodes[j],
        nodes[j + 1],
    ) by {
        if j > 0 {
            assert(is_child(plans, tables, below[j - 1], below[j - 1 + 1]));
        } else {
            assert(nodes[1] == child);
        }
    }
    assert(is_chain(plans, tables, nodes));
    assert(nodes[0] == parent && nodes.last() == to);
}

/// A child that the cascade reads for a record is a child of that record in
/// the tables that the cascade started from.
proof fn lemma_picked_is_child(
    plans: Seq<PlanView>,
    base: Seq<Seq<RecordView>>,
    tables: Seq<Seq<RecordView>>,
    t: int,
    id: ValueView,
    k: int,
    j: int,
)
    requires
        plans.len() == tables.len(),
        shrunk(tables, base),
        0 <= t < plans.len(),
        0 <= k < plans[t].children.len(),
        child_link(plans, plans[t].children[k]) is Ok,
        ({
            let to = child_link(plans, plans[t].children[k])->Ok_0;
            0 <= j < select_spec(tables[to.0], to.1, id).len()
        }),
    ensures
        ({
            let to = child_link(plans, plans[t].children[k])->Ok_0;
            is_child(
                plans,
                base,
                Node { t, id },
                Node { t: to.0, id: ids_of(select_spec(tables[to.0], to.1, id))[j] },
            )
        }),
{
    let to = child_link(plans, plans[t].children[k])->Ok_0;
    lemma_link_in_range(plans, t, k);
    let whole = tables[to.0];
    let picked = select_spec(whole, to.1, id);
    whole.lemma_filter_pred(field_is(to.1, id), j);
    assert(picked.contains(picked[j]));
    whole.lemma_filter_contains_rev(field_is(to.1, id), picked[j]);
    let at = choose|at: int| 0 <= at < whole.len() && whole[at] == picked[j];
    assert(within(whole, base[to.0]));
    assert(base[to.0].contains(whole[at]));
    let i = choose|i: int| 0 <= i < base[to.0].len() && base[to.0][i] == whole[at];
    assert(child_at(plans, base, t, k, i, id));
}

/// Two steps that each take only what is below a record take only that
/// together.
proof fn lemma_only_below_chain(
    plans: Seq<PlanView>,
    base: Seq<Seq<RecordView>>,
    a: Seq<Seq<RecordView>>,
    b: Seq<Seq<RecordView>>,
    c: Seq<Seq<RecordView>>,
    root: Node,
    least: int,
)
    requires
        a.len() == b.len(),
        only_below(plans, base, a, b, root, least),
        only_below(plans, base, b, c, root, least),
    ensures
        only_below(plans, base, a, c, root, least),
{
    assert forall|u: int, i: int|
        0 <= u < a.len() && 0 <= i < a[u].len() && gone(
            c[u],
            (#[trigger] a[u][i]).id,
        ) implies reaches(plans, base, root, Node { t: u, id: a[u][i].id }, least) by {
        let id = a[u][i].id;
        if !gone(b[u], id) {
            let j = choose|j: int| 0 <= j < b[u].len() && b[u][j].id == id;
            assert(gone(c[u], b[u][j].id));
        }
    }
}

/// Destroying a record takes only the record and what is below it.
pub proof fn lemma_only_one(
    plans: Seq<PlanView>,
    base: Seq<Seq<RecordView>>,
    tables: Seq<Seq<RecordView>>,
    t: int,
    id: ValueView,
    depth: nat,
)
    requires
        fitting(plans, tables),
        shrunk(tables, base),
        0 <= t < plans.len(),
    ensures
        only_below(
            plans,
            base,
            tables,
            destroy_one(plans, tables, t, id, depth).tables,
            Node { t, id },
            1,
        ),
    decreases depth, 2nat, 0nat,
{
    let root = Node { t, id };
    let inner = destroy_relations(plans, tables, t, id, 0, depth);
    lemma_only_relations(plans, base, tables, t, id, 0, depth);
    lemma_destroy_relations(plans, tables, t, id, 0, depth);
    assert forall|u: int, i: int|
        0 <= u < tables.len() && 0 <= i < tables[u].len() && gone(
            inner.tables[u],
            (#[trigger] tables[u][i]).id,
        ) implies reaches(plans, base, root, Node { t: u, id: tables[u][i].id }, 1) by {
        lemma_reaches_with_less(plans, base, root, Node { t: u, id: tables[u][i].id });
    }
    if inner.result is Ok {
        let last = inner.tables.update(t, without(inner.tables[t], id));
        lemma_reaches_self(plans, base, root);
        assert forall|u: int, i: int|
            0 <= u < inner.tables.len() && 0 <= i < inner.tables[u].len() && gone(
                last[u],
                (#[trigger] inner.tables[u][i]).id,
            ) implies reaches(plans, base, root, Node { t: u, id: inner.tables[u][i].id }, 1) by {
            let record = inner.tables[u][i];
            if u != t {
                assert(last[u][i] == record);
            } else if record.id != id {
                lemma_without_keeps(inner.tables[t], id, i);
                let j = choose|j: int| 0 <= j < last[t].len() && last[t][j] == record;
                assert(!gone(last[t], record.id));
            }
        }
        lemma_only_below_chain(plans, base, tables, inner.tables, last, root, 1);
    }
}

/// The cascade through the child collections of a record takes only what is
/// below the record, not the record itself unless it is its own descendant.
pub proof fn lemma_only_relations(
    plans: Seq<PlanView>,
    base: Seq<Seq<RecordView>>,
    tables: Seq<Seq<RecordView>>,
    t: int,
    id: ValueView,
    from: int,
    depth: nat,
)
    requires
        fitting(plans, tables),
        shrunk(tables, base),
        0 <= t < plans.len(),
        0 <= from,
    ensures
        only_below(
            plans,
            base,
            tables,
            destroy_relations(plans, tables, t, id, from, depth).tables,
            Node { t, id },
            2,
        ),
    decreases depth, 1nat, plans[t].children.len() - from,
{
    let root = Node { t, id };
    if from < plans[t].children.len() {
        match child_link(plans, plans[t].children[from]) {
            Err(_) => {},
            Ok(to) => {
                lemma_link_in_range(plans, t, from);
                let children = ids_of(select_spec(tables[to.0], to.1, id));
                let inner = destroy_each(plans, tables, to.0, children, depth);
                lemma_only_each(plans, base, tables, to.0, children, depth);
                lemma_destroy_each(plans, tables, to.0, children, depth);
                assert forall|u: int, i: int|
                    0 <= u < tables.len() && 0 <= i < tables[u].len() && gone(
                        inner.tables[u],
                        (#[trigger] tables[u][i]).id,
                    ) implies reaches(plans, base, root, Node { t: u, id: tables[u][i].id }, 2) by {
                    let node = Node { t: u, id: tables[u][i].id };
                    let j = choose|j: int|
                        0 <= j < children.len() && reaches(
                            plans,
                            base,
                            Node { t: to.0, id: #[trigger] children[j] },
                            node,
                            1,
                        );
                    lemma_picked_is_child(plans, base, tables, t, id, from, j);
                    lemma_reaches_through_child(
                        plans,
                        base,
                        root,
                        Node { t: to.0, id: children[j] },
                        node,
                    );
                }
                if inner.result is Ok {
                    lemma_shrunk_chain(base, tables, inner.tables);
                    lemma_only_relations(plans, base, inner.tables, t, id, from + 1, depth);
                    lemma_only_below_chain(
                        plans,
                        base,
                        tables,
                        inner.tables,
                        destroy_relations(plans, inner.tables, t, id, from + 1, depth).tables,
                        root,
                        2,
                    );
                }
            },
        }
    }
}

/// Destroying some records of one type takes only these records and what is
/// below them.
proof fn lemma_only_each(
    plans: Seq<PlanView>,
    base: Seq<Seq<RecordView>>,
    tables: Seq<Seq<RecordView>>,
    t: int,
    ids: Seq<ValueView>,
    depth: nat,
)
    requires
        fitting(plans, tables),
        shrunk(tables, base),
        0 <= t < plans.len(),
    ensures
        ({
            let end = destroy_each(plans, tables, t, ids, depth);
            forall|u: int, i: int|
                0 <= u < tables.len() && 0 <= i < tables[u].len() && gone(
                    end.tables[u],
                    (#[trigger] tables[u][i]).id,
                ) ==> exists|j: int|
                    0 <= j < ids.len() && reaches(
                        plans,
                        base,
                        Node { t, id: #[trigger] ids[j] },
                        Node { t: u, id: tables[u][i].id },
                        1,
                    )
        }),
    decreases depth, 0nat, ids.len(),
{
    let end = destroy_each(plans, tables, t, ids, depth);
    if ids.len() > 0 && depth > 0 {
        let inner = destroy_one(plans, tables, t, ids[0], (depth - 1) as nat);
        lemma_only_one(plans, base, tables, t, ids[0], (depth - 1) as nat);
        lemma_destroy_one(plans, tables, t, ids[0], (depth - 1) as nat);
        let rest = ids.drop_first();
        if inner.result is Ok {
            lemma_shrunk_chain(base, tables, inner.tables);
            lemma_only_each(plans, base, inner.tables, t, rest, depth);
        }
        assert forall|u: int, i: int|
            0 <= u < tables.len() && 0 <= i < tables[u].len() && gone(
                end.tables[u],
                (#[trigger] tables[u][i]).id,
            ) implies exists|j: int|
            0 <= j < ids.len() && reaches(
                plans,
                base,
                Node { t, id: #[trigger] ids[j] },
                Node { t: u, id: tables[u][i].id },
                1,
            ) by {
            let node = Node { t: u, id: tables[u][i].id };
            if gone(inner.tables[u], node.id) {
                assert(reaches(plans, base, Node { t, id: ids[0] }, node, 1));
            } else {
                let at = choose|at: int|
                    0 <= at < inner.tables[u].len() && inner.tables[u][at].id == node.id;
                assert(gone(end.tables[u], inner.tables[u][at].id));
                let j = choose|j: int|
                    0 <= j < rest.len() && reaches(
                        plans,
                        base,
                        Node { t, id: #[trigger] rest[j] },
                        Node { t: u, id: inner.tables[u][at].id },
                        1,
                    );
                assert(rest[j] == ids[j + 1]);
                assert(reaches(plans, base, Node { t, id: ids[j + 1] }, node, 1));
            }
        }
    }
}

/// A record that is not among its own descendants outlasts the cascade
/// through its child collections.
pub proof fn lemma_root_outlasts_relations(
    plans: Seq<PlanView>,
    tables: Seq<Seq<RecordView>>,
    t: int,
    id: ValueView,
    depth: nat,
    i: int,
)
    requires
        fitting(plans, tables),
        0 <= t < plans.len(),
        0 <= i < tables[t].len(),
        tables[t][i].id == id,
        acyclic_below(plans, tables, Node { t, id }),
    ensures
        !gone(destroy_relations(plans, tables, t, id, 0, depth).tables[t], id),
{
    let root = Node { t, id };
    let end = destroy_relations(plans, tables, t, id, 0, depth);
    lemma_shrunk_same(tables);
    lemma_only_relations(plans, tables, tables, t, id, 0, depth);
    if gone(end.tables[t], tables[t][i].id) {
        assert(reaches(plans, tables, root, Node { t, id: tables[t][i].id }, 2));
        let nodes = choose|nodes: Seq<Node>|
            nodes.len() >= 2 && nodes.len() > 0 && nodes[0] == root && nodes.last() == root
                && #[trigger] is_chain(plans, tables, nodes);
        assert(nodes.no_duplicates());
        assert(nodes[0] == nodes[nodes.len() - 1]);
    }
}

/// After a cascade that succeeded, every record on a chain of children from
/// the destroyed record is gone.
pub proof fn lemma_chain_is_gone(
    plans: Seq<PlanView>,
    before: Seq<Seq<RecordView>>,
    after: Seq<Seq<RecordView>>,
    nodes: Seq<Node>,
    upto: int,
)
    requires
        fitting(plans, before),
        shrunk(after, before),
        no_orphans(plans, before, after),
        0 <= upto < nodes.len(),
        is_chain(plans, before, nodes),
        0 <= nodes[0].t < plans.len(),
        gone(after[nodes[0].t], nodes[0].id),
        childless(plans, after, nodes[0].t, nodes[0].id),
    ensures
        0 <= nodes[upto].t < plans.len(),
        gone(after[nodes[upto].t], nodes[upto].id),
        childless(plans, after, nodes[upto].t, nodes[upto].id),
    decreases upto,
{
    if upto > 0 {
        lemma_chain_is_gone(plans, before, after, nodes, upto - 1);
        let parent = nodes[upto - 1];
        let child = nodes[upto - 1 + 1];
        assert(is_child(plans, before, parent, child));
        let (k, i) = choose|k: int, i: int| #[trigger]
            child_at(plans, before, parent.t, k, i, parent.id) && {
                let to = child_link(plans, plans[parent.t].children[k])->Ok_0;
                to.0 == child.t && before[to.0][i].id == child.id
            };
        lemma_link_in_range(plans, parent.t, k);
        let to = child_link(plans, plans[parent.t].children[k])->Ok_0;
        assert(relation_clear(plans, after, parent.t, k, parent.id));
        let stored = before[to.0][i];
        if !gone(after[to.0], child.id) {
            let at = choose|at: int| 0 <= at < after[to.0].len() && after[to.0][at].id == child.id;
            assert(within(after[to.0], before[to.0]));
            assert(before[to.0].contains(after[to.0][at]));
            let j = choose|j: int|
                0 <= j < before[to.0].len() && before[to.0][j] == after[to.0][at];
            if i != j {
                assert(before[to.0][i].id != before[to.0][j].id);
            }
            assert(after[to.0][at] == stored);
        }
        assert(gone(after[child.t], stored.id));
    }
}

} // verus!
