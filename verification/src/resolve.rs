//! Resolution of type and method names against the registered plans.

use crate::plan::{ChildAccessor, ChildView, FinderView, ParentView, Plan, PlanView};
use crate::search::{first, first_from, index_is, lemma_first_from, text_eq};
use crate::views::views;
use vstd::prelude::*;

verus! {

/// Why a call does not resolve, or does not end.
#[derive(Debug, Clone, Copy, PartialEq, Eq, Structural)]
pub enum AccessError {
    /// No registered type has the name.
    UnknownType,
    /// The type has no generated method of the name.
    UnknownMethod,
    /// The record lacks the field that the method reads.
    UnknownField,
    /// A cascade nested deeper than the database holds records.
    TooDeep,
}

/// The test for a plan of a given type name.
pub open spec fn plan_named(name: Seq<char>) -> spec_fn(PlanView) -> bool {
    |plan: PlanView| plan.name == name
}

/// The test for a finder of a given method name.
pub open spec fn finder_called(method: Seq<char>) -> spec_fn(FinderView) -> bool {
    |finder: FinderView| finder.method == method
}

/// The test for a parent accessor of a given method name.
pub open spec fn parent_called(method: Seq<char>) -> spec_fn(ParentView) -> bool {
    |parent: ParentView| parent.method == method
}

/// The test for a child accessor of a given method name.
pub open spec fn child_called(method: Seq<char>) -> spec_fn(ChildView) -> bool {
    |child: ChildView| child.method == method
}

/// The index of a type name among the plans: that of its first registration.
pub open spec fn type_of(plans: Seq<PlanView>, name: Seq<char>) -> Option<int> {
    first(plans, plan_named(name))
}

/// Where a child accessor leads: the index of the child type and the field
/// that the expected finder compares.
pub open spec fn child_link(plans: Seq<PlanView>, child: ChildView) -> Result<
    (int, Seq<char>),
    AccessError,
> {
    match type_of(plans, child.target) {
        None => Err(AccessError::UnknownType),
        Some(p) => match first(plans[p].finders, finder_called(child.finder)) {
            None => Err(AccessError::UnknownMethod),
            Some(f) => Ok((p, plans[p].finders[f].field)),
        },
    }
}

/// The index of the first plan of a type name.
pub fn type_index(plans: &Vec<Plan>, name: &str) -> (out: Option<usize>)
    ensures
        index_is(out, type_of(views(plans@), name@)),
        out is Some ==> out->Some_0 < plans.len(),
{
    let ghost all = views(plans@);
    proof {
        lemma_first_from(all, plan_named(name@), 0);
    }
    let mut i: usize = 0;
    while i < plans.len()
        invariant
            i <= plans.len(),
            all == views(plans@),
            first(all, plan_named(name@)) == first_from(all, plan_named(name@), i as int),
        decreases plans.len() - i,
    {
        if text_eq(plans[i].name.as_str(), name) {
            return Some(i);
        }
        i += 1;
    }
    None
}

/// The index of the first finder of a method name.
pub fn finder_index(plan: &Plan, method: &str) -> (out: Option<usize>)
    ensures
        index_is(out, first(plan@.finders, finder_called(method@))),
        out is Some ==> out->Some_0 < plan.finders.len(),
{
    let ghost all = views(plan.finders@);
    proof {
        lemma_first_from(all, finder_called(method@), 0);
    }
    let mut i: usize = 0;
    while i < plan.finders.len()
        invariant
            i <= plan.finders.len(),
            all == views(plan.finders@),
            first(all, finder_called(method@)) == first_from(all, finder_called(method@), i as int),
        decreases plan.finders.len() - i,
    {
        if text_eq(plan.finders[i].method.as_str(), method) {
            return Some(i);
        }
        i += 1;
    }
    None
}

/// The index of the first parent accessor of a method name.
pub fn parent_index(plan: &Plan, method: &str) -> (out: Option<usize>)
    ensures
        index_is(out, first(plan@.parents, parent_called(method@))),
        out is Some ==> out->Some_0 < plan.parents.len(),
{
    let ghost all = views(plan.parents@);
    proof {
        lemma_first_from(all, parent_called(method@), 0);
    }
    let mut i: usize = 0;
    while i < plan.parents.len()
        invariant
            i <= plan.parents.len(),
            all == views(plan.parents@),
            first(all, parent_called(method@)) == first_from(all, parent_called(method@), i as int),
        decreases plan.parents.len() - i,
    {
        if text_eq(plan.parents[i].method.as_str(), method) {
            return Some(i);
        }
        i += 1;
    }
    None
}

/// The index of the first child accessor of a method name.
pub fn child_index(plan: &Plan, method: &str) -> (out: Option<usize>)
    ensures
        index_is(out, first(plan@.children, child_called(method@))),
        out is Some ==> out->Some_0 < plan.children.len(),
{
    let ghost all = views(plan.children@);
    proof {
        lemma_first_from(all, child_called(method@), 0);
    }
    let mut i: usize = 0;
    while i < plan.children.len()
        invariant
            i <= plan.children.len(),
            all == views(plan.children@),
            first(all, child_called(method@)) == first_from(all, child_called(method@), i as int),
        decreases plan.children.len() - i,
    {
        if text_eq(plan.children[i].method.as_str(), method) {
            return Some(i);
        }
        i += 1;
    }
    None
}

/// Whether an executable link stands for a specified one.
pub open spec fn link_is(
    out: Result<(usize, String), AccessError>,
    expected: Result<(int, Seq<char>), AccessError>,
) -> bool {
    match expected {
        Ok(link) => out is Ok && out->Ok_0.0 == link.0 && out->Ok_0.1@ == link.1,
        Err(error) => out is Err && out->Err_0 == error,
    }
}

/// Resolves a child accessor: the index of the child type and a copy of the
/// name of the field that the expected finder compares.
pub fn link(plans: &Vec<Plan>, child: &ChildAccessor) -> (out: Result<(usize, String), AccessError>)
    ensures
        link_is(out, child_link(views(plans@), child@)),
        out is Ok ==> out->Ok_0.0 < plans.len(),
{
    let p = match type_index(plans, child.target.as_str()) {
        Some(p) => p,
        None => {
            return Err(AccessError::UnknownType);
        },
    };
    let f = match finder_index(&plans[p], child.finder.as_str()) {
        Some(f) => f,
        None => {
            return Err(AccessError::UnknownMethod);
        },
    };
    Ok((p, plans[p].finders[f].field.clone()))
}

} // verus!
