//! The source text of the generated `impl` block.

use crate::plan::{
    ChildAccessor, ChildView, Finder, FinderView, ParentAccessor, ParentView, Plan, PlanView,
};
use crate::views::views;
use vstd::prelude::*;
use vstd::string::*;

verus! {

/// The finder of one field: every stored record whose field equals the value,
/// in the backend's order.
pub open spec fn finder_text(finder: FinderView) -> Seq<char> {
    "    pub fn "@ + finder.method + "(value: &"@ + finder.ty
        + ") -> Vec<Self> {\n        Self::all().into_iter().filter(|a| &a."@ + finder.field
        + " == value).collect()\n    }\n"@
}

/// The accessor of one parent: the parent type's `find` on the foreign key.
pub open spec fn parent_text(parent: ParentView) -> Seq<char> {
    "    pub fn "@ + parent.method + "(&self) -> Option<"@ + parent.target + "> {\n        "@
        + parent.target + "::find(&self."@ + parent.key + ")\n    }\n"@
}

/// The accessor of one child collection: the child type's finder on the
/// owner's id.
pub open spec fn child_text(child: ChildView) -> Seq<char> {
    "    pub fn "@ + child.method + "(&self) -> Vec<"@ + child.target + "> {\n        "@
        + child.target + "::"@ + child.finder + "(&self.id)\n    }\n"@
}

/// The part of `destroy` that destroys every child of one collection and
/// stops at the first failure.
pub open spec fn cascade_text(child: ChildView) -> Seq<char> {
    "        for child in self."@ + child.method
        + "().into_iter() {\n            child.destroy()?;\n        }\n"@
}

/// `all`: the backend's enumeration.
pub open spec fn all_text(service: Seq<char>) -> Seq<char> {
    "    pub fn all() -> Vec<Self> {\n        "@ + service + "::all()\n    }\n"@
}

/// `find`: the backend's lookup by id.
pub open spec fn find_text(service: Seq<char>, id_type: Seq<char>) -> Seq<char> {
    "    #[allow(clippy::ptr_arg)]\n    pub fn find(id: &"@ + id_type
        + ") -> Option<Self> {\n        "@ + service + "::find(id)\n    }\n"@
}

/// `save`: the backend's save, with the backend's error.
pub open spec fn save_text(service: Seq<char>) -> Seq<char> {
    "    pub fn save(self) -> std::result::Result<Self, "@ + service
        + "::SaveError> {\n        "@ + service + "::save(self)\n    }\n"@
}

/// `finder_text` as a function value.
pub open spec fn to_finder_text() -> spec_fn(FinderView) -> Seq<char> {
    |finder: FinderView| finder_text(finder)
}

/// `parent_text` as a function value.
pub open spec fn to_parent_text() -> spec_fn(ParentView) -> Seq<char> {
    |parent: ParentView| parent_text(parent)
}

/// `child_text` as a function value.
pub open spec fn to_child_text() -> spec_fn(ChildView) -> Seq<char> {
    |child: ChildView| child_text(child)
}

/// `cascade_text` as a function value.
pub open spec fn to_cascade_text() -> spec_fn(ChildView) -> Seq<char> {
    |child: ChildView| cascade_text(child)
}

/// `destroy`: the cascade through every child collection in declaration
/// order, and only then the backend's destroy on the record's own id.
pub open spec fn destroy_text(service: Seq<char>, children: Seq<ChildView>) -> Seq<char> {
    "    pub fn destroy(self) -> std::result::Result<(), "@ + service + "::DestroyError> {\n"@
        + children.flat_map(to_cascade_text()) + "        "@ + service
        + "::destroy(&self.id)\n    }\n"@
}

/// The whole `impl` block: finders, parent accessors, child accessors, then
/// `all`, `find`, `save` and `destroy`.
pub open spec fn impl_text(plan: PlanView) -> Seq<char> {
    "impl "@ + plan.name + " {\n"@ + plan.finders.flat_map(to_finder_text())
        + plan.parents.flat_map(to_parent_text()) + plan.children.flat_map(to_child_text())
        + all_text(plan.service) + find_text(plan.service, plan.id_type) + save_text(
        plan.service,
    ) + destroy_text(plan.service, plan.children) + "}\n"@
}

/// Appends the finder of one field.
fn push_finder(out: &mut String, finder: &Finder)
    ensures
        final(out)@ == old(out)@ + finder_text(finder@),
{
    out.append("    pub fn ");
    out.append(finder.method.as_str());
    out.append("(value: &");
    out.append(finder.ty.as_str());
    out.append(") -> Vec<Self> {\n        Self::all().into_iter().filter(|a| &a.");
    out.append(finder.field.as_str());
    out.append(" == value).collect()\n    }\n");
}

/// Appends the accessor of one parent.
fn push_parent(out: &mut String, parent: &ParentAccessor)
    ensures
        final(out)@ == old(out)@ + parent_text(parent@),
{
    out.append("    pub fn ");
    out.append(parent.method.as_str());
    out.append("(&self) -> Option<");
    out.append(parent.target.as_str());
    out.append("> {\n        ");
    out.append(parent.target.as_str());
    out.append("::find(&self.");
    out.append(parent.key.as_str());
    out.append(")\n    }\n");
}

/// Appends the accessor of one child collection.
fn push_child(out: &mut String, child: &ChildAccessor)
    ensures
        final(out)@ == old(out)@ + child_text(child@),
{
    out.append("    pub fn ");
    out.append(child.method.as_str());
    out.append("(&self) -> Vec<");
    out.append(child.target.as_str());
    out.append("> {\n        ");
    out.append(child.target.as_str());
    out.append("::");
    out.append(child.finder.as_str());
    out.append("(&self.id)\n    }\n");
}

/// Appends the part of `destroy` for one child collection.
fn push_cascade(out: &mut String, child: &ChildAccessor)
    ensures
        final(out)@ == old(out)@ + cascade_text(child@),
{
    out.append("        for child in self.");
    out.append(child.method.as_str());
    out.append("().into_iter() {\n            child.destroy()?;\n        }\n");
}

/// Appends the finders, in order.
fn push_finders(out: &mut String, finders: &Vec<Finder>)
    ensures
        final(out)@ == old(out)@ + views(finders@).flat_map(to_finder_text()),
{
    let ghost all = views(finders@);
    let ghost start = out@;
    let mut i: usize = 0;
    while i < finders.len()
        invariant
            i <= finders.len(),
            all == views(finders@),
            out@ =~= start + all.take(i as int).flat_map(to_finder_text()),
        decreases finders.len() - i,
    {
        proof {
            all.lemma_flat_map_take_append(to_finder_text(), i as int);
        }
        push_finder(out, &finders[i]);
        i += 1;
    }
    proof {
        all.lemma_take_len();
    }
}

/// Appends the parent accessors, in order.
fn push_parents(out: &mut String, parents: &Vec<ParentAccessor>)
    ensures
        final(out)@ == old(out)@ + views(parents@).flat_map(to_parent_text()),
{
    let ghost all = views(parents@);
    let ghost start = out@;
    let mut i: usize = 0;
    while i < parents.len()
        invariant
            i <= parents.len(),
            all == views(parents@),
            out@ =~= start + all.take(i as int).flat_map(to_parent_text()),
        decreases parents.len() - i,
    {
        proof {
            all.lemma_flat_map_take_append(to_parent_text(), i as int);
        }
        push_parent(out, &parents[i]);
        i += 1;
    }
    proof {
        all.lemma_take_len();
    }
}

/// Appends the child accessors, in order.
fn push_children(out: &mut String, children: &Vec<ChildAccessor>)
    ensures
        final(out)@ == old(out)@ + views(children@).flat_map(to_child_text()),
{
    let ghost all = views(children@);
    let ghost start = out@;
    let mut i: usize = 0;
    while i < children.len()
        invariant
            i <= children.len(),
            all == views(children@),
            out@ =~= start + all.take(i as int).flat_map(to_child_text()),
        decreases children.len() - i,
    {
        proof {
            all.lemma_flat_map_take_append(to_child_text(), i as int);
        }
        push_child(out, &children[i]);
        i += 1;
    }
    proof {
        all.lemma_take_len();
    }
}

/// Appends the parts of `destroy` for the child collections, in order.
fn push_cascades(out: &mut String, children: &Vec<ChildAccessor>)
    ensures
        final(out)@ == old(out)@ + views(children@).flat_map(to_cascade_text()),
{
    let ghost all = views(children@);
    let ghost start = out@;
    let mut i: usize = 0;
    while i < children.len()
        invariant
            i <= children.len(),
            all == views(children@),
            out@ =~= start + all.take(i as int).flat_map(to_cascade_text()),
        decreases children.len() - i,
    {
        proof {
            all.lemma_flat_map_take_append(to_cascade_text(), i as int);
        }
        push_cascade(out, &children[i]);
        i += 1;
    }
    proof {
        all.lemma_take_len();
    }
}

/// Appends `all`.
fn push_all(out: &mut String, service: &str)
    ensures
        final(out)@ == old(out)@ + all_text(service@),
{
    out.append("    pub fn all() -> Vec<Self> {\n        ");
    out.append(service);
    out.append("::all()\n    }\n");
}

/// Appends `find`.
fn push_find(out: &mut String, service: &str, id_type: &str)
    ensures
        final(out)@ == old(out)@ + find_text(service@, id_type@),
{
    out.append("    #[allow(clippy::ptr_arg)]\n    pub fn find(id: &");
    out.append(id_type);
    out.append(") -> Option<Self> {\n        ");
    out.append(service);
    out.append("::find(id)\n    }\n");
}

/// Appends `save`.
fn push_save(out: &mut String, service: &str)
    ensures
        final(out)@ == old(out)@ + save_text(service@),
{
    out.append("    pub fn save(self) -> std::result::Result<Self, ");
    out.append(service);
    out.append("::SaveError> {\n        ");
    out.append(service);
    out.append("::save(self)\n    }\n");
}

/// Appends `destroy`.
fn push_destroy(out: &mut String, service: &str, children: &Vec<ChildAccessor>)
    ensures
        final(out)@ == old(out)@ + destroy_text(service@, views(children@)),
{
    out.append("    pub fn destroy(self) -> std::result::Result<(), ");
    out.append(service);
    out.append("::DestroyError> {\n");
    push_cascades(out, children);
    out.append("        ");
    out.append(service);
    out.append("::destroy(&self.id)\n    }\n");
}

/// Writes the `impl` block of a plan.
pub fn render(plan: &Plan) -> (out: String)
    ensures
        out@ == impl_text(plan@),
{
    let mut out = String::from_str("impl ");
    out.append(plan.name.as_str());
    out.append(" {\n");
    push_finders(&mut out, &plan.finders);
    push_parents(&mut out, &plan.parents);
    push_children(&mut out, &plan.children);
    push_all(&mut out, plan.service.as_str());
    push_find(&mut out, plan.service.as_str(), plan.id_type.as_str());
    push_save(&mut out, plan.service.as_str());
    push_destroy(&mut out, plan.service.as_str(), &plan.children);
    out.append("}\n");
    out
}

} // verus!
