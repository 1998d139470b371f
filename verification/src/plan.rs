//! The methods to generate for a record type, with every derived name.

use crate::metadata::{FieldDecl, FieldView, Model, ModelView};
use crate::naming::{
    finder_name, finder_name_spec, key_name, key_name_spec, list_name, list_name_spec,
    pascal_case, snake_case, to_pascal, to_snake,
};
use crate::views::views;
use vstd::prelude::*;
use vstd::string::*;

verus! {

/// A lookup method for one findable field.
#[derive(Debug, Clone, PartialEq, Eq)]
pub struct Finder {
    /// The method's name, `find_by_<field>`.
    pub method: String,
    /// The field that the method compares, as written in the declaration.
    pub field: String,
    /// The field's declared type.
    pub ty: String,
}

/// What a `Finder` holds, as mathematical values.
pub struct FinderView {
    pub method: Seq<char>,
    pub field: Seq<char>,
    pub ty: Seq<char>,
}

impl View for Finder {
    type V = FinderView;

    open spec fn view(&self) -> FinderView {
        FinderView { method: self.method@, field: self.field@, ty: self.ty@ }
    }
}

/// An accessor for one declared parent.
#[derive(Debug, Clone, PartialEq, Eq)]
pub struct ParentAccessor {
    /// The method's name: the relation in snake case.
    pub method: String,
    /// The parent's type name: the relation in Pascal case.
    pub target: String,
    /// The field that holds the parent's id, `<relation>_id`.
    pub key: String,
}

/// What a `ParentAccessor` holds, as mathematical values.
pub struct ParentView {
    pub method: Seq<char>,
    pub target: Seq<char>,
    pub key: Seq<char>,
}

impl View for ParentAccessor {
    type V = ParentView;

    open spec fn view(&self) -> ParentView {
        ParentView { method: self.method@, target: self.target@, key: self.key@ }
    }
}

/// An accessor for one declared child collection.
#[derive(Debug, Clone, PartialEq, Eq)]
pub struct ChildAccessor {
    /// The method's name, `<relation>_list`.
    pub method: String,
    /// The child's type name: the relation in Pascal case.
    pub target: String,
    /// The method expected on the child type, `find_by_<owner>_id`.
    pub finder: String,
}

/// What a `ChildAccessor` holds, as mathematical values.
pub struct ChildView {
    pub method: Seq<char>,
    pub target: Seq<char>,
    pub finder: Seq<char>,
}

impl View for ChildAccessor {
    type V = ChildView;

    open spec fn view(&self) -> ChildView {
        ChildView { method: self.method@, target: self.target@, finder: self.finder@ }
    }
}

/// Everything that the generated `impl` block is written from.
#[derive(Debug, Clone, PartialEq, Eq)]
pub struct Plan {
    pub name: String,
    pub service: String,
    pub id_type: String,
    /// One finder per findable field, in field order.
    pub finders: Vec<Finder>,
    /// One accessor per parent relation, in declaration order.
    pub parents: Vec<ParentAccessor>,
    /// One accessor per child relation, in declaration order; `destroy`
    /// cascades through them in this order.
    pub children: Vec<ChildAccessor>,
}

/// What a `Plan` holds, as mathematical values.
pub struct PlanView {
    pub name: Seq<char>,
    pub service: Seq<char>,
    pub id_type: Seq<char>,
    pub finders: Seq<FinderView>,
    pub parents: Seq<ParentView>,
    pub children: Seq<ChildView>,
}

impl View for Plan {
    type V = PlanView;

    open spec fn view(&self) -> PlanView {
        PlanView {
            name: self.name@,
            service: self.service@,
            id_type: self.id_type@,
            finders: views(self.finders@),
            parents: views(self.parents@),
            children: views(self.children@),
        }
    }
}

/// The finder of a field: `find_by_` and the field's name without `r#`.
pub open spec fn finder_of(field: FieldView) -> FinderView {
    FinderView { method: finder_name_spec(field.name), field: field.name, ty: field.ty }
}

/// Builds the finder of a field.
pub fn finder(field: &FieldDecl) -> (out: Finder)
    ensures
        out@ == finder_of(field@),
{
    Finder {
        method: finder_name(field.name.as_str()),
        field: field.name.clone(),
        ty: field.ty.clone(),
    }
}

/// The parent accessor for a relation whose two case forms are given.
pub open spec fn parent_from(snake: Seq<char>, pascal: Seq<char>) -> ParentView {
    ParentView { method: snake, target: pascal, key: key_name_spec(snake) }
}

/// Builds a parent accessor from the snake-case and Pascal-case forms of its
/// relation name.
pub fn parent_accessor_from(snake: String, pascal: String) -> (out: ParentAccessor)
    ensures
        out@ == parent_from(snake@, pascal@),
{
    let key = key_name(snake.as_str());
    ParentAccessor { method: snake, target: pascal, key }
}

/// The parent accessor for a relation name.
pub open spec fn parent_of(relation: Seq<char>) -> ParentView {
    parent_from(snake_case(relation), pascal_case(relation))
}

/// Builds the parent accessor for a relation name.
pub fn parent_accessor(relation: &str) -> (out: ParentAccessor)
    ensures
        out@ == parent_of(relation@),
{
    parent_accessor_from(to_snake(relation), to_pascal(relation))
}

/// `find_by_<owner>_id`: the finder that a child type must offer its owner.
pub open spec fn owner_finder_spec(snake_owner: Seq<char>) -> Seq<char> {
    "find_by_"@ + snake_owner + "_id"@
}

/// The name of the finder expected on a child type, from the owner's type
/// name in snake case.
pub fn owner_finder(snake_owner: &str) -> (out: String)
    ensures
        out@ == owner_finder_spec(snake_owner@),
{
    String::from_str("find_by_").concat(snake_owner).concat("_id")
}

/// The child accessor for a relation whose two case forms are given, on an
/// owner whose type name in snake case is given.
pub open spec fn child_from(
    snake: Seq<char>,
    pascal: Seq<char>,
    snake_owner: Seq<char>,
) -> ChildView {
    ChildView {
        method: list_name_spec(snake),
        target: pascal,
        finder: owner_finder_spec(snake_owner),
    }
}

/// Builds a child accessor from the case forms of its relation name and of
/// the owner's type name.
pub fn child_accessor_from(snake: String, pascal: String, snake_owner: String) -> (out:
    ChildAccessor)
    ensures
        out@ == child_from(snake@, pascal@, snake_owner@),
{
    ChildAccessor {
        method: list_name(snake.as_str()),
        target: pascal,
        finder: owner_finder(snake_owner.as_str()),
    }
}

/// The child accessor for a relation name on an owner type.
pub open spec fn child_of(relation: Seq<char>, owner: Seq<char>) -> ChildView {
    child_from(snake_case(relation), pascal_case(relation), snake_case(owner))
}

/// Builds the child accessor for a relation name on an owner type.
pub fn child_accessor(relation: &str, owner: &str) -> (out: ChildAccessor)
    ensures
        out@ == child_of(relation@, owner@),
{
    child_accessor_from(to_snake(relation), to_pascal(relation), to_snake(owner))
}

/// The test that picks the findable fields.
pub open spec fn is_findable() -> spec_fn(FieldView) -> bool {
    |field: FieldView| field.findable
}

/// `finder_of` as a function value.
pub open spec fn to_finder() -> spec_fn(FieldView) -> FinderView {
    |field: FieldView| finder_of(field)
}

/// `parent_of` as a function value.
pub open spec fn to_parent() -> spec_fn(Seq<char>) -> ParentView {
    |relation: Seq<char>| parent_of(relation)
}

/// `child_of` on a fixed owner as a function value.
pub open spec fn to_child(owner: Seq<char>) -> spec_fn(Seq<char>) -> ChildView {
    |relation: Seq<char>| child_of(relation, owner)
}

/// The finders of the findable fields, in field order.
pub open spec fn finders_of(fields: Seq<FieldView>) -> Seq<FinderView> {
    fields.filter(is_findable()).map_values(to_finder())
}

/// The plan of a model: its finders, parent accessors and child accessors.
pub open spec fn plan_spec(model: ModelView) -> PlanView {
    PlanView {
        name: model.name,
        service: model.service,
        id_type: model.id_type,
        finders: finders_of(model.fields),
        parents: model.belongs_to.map_values(to_parent()),
        children: model.has_many.map_values(to_child(model.name)),
    }
}

/// Builds one finder per findable field.
pub fn finders(fields: &Vec<FieldDecl>) -> (out: Vec<Finder>)
    ensures
        views(out@) == finders_of(views(fields@)),
{
    let mut out: Vec<Finder> = Vec::new();
    let ghost all = views(fields@);
    let mut i: usize = 0;
    while i < fields.len()
        invariant
            i <= fields.len(),
            all == views(fields@),
            views(out@) =~= finders_of(all.take(i as int)),
        decreases fields.len() - i,
    {
        proof {
            all.lemma_take_succ_push(i as int);
            all.take(i as int).lemma_filter_push(all[i as int], is_findable());
            all.take(i as int).filter(is_findable()).lemma_push_map_commute(
                to_finder(),
                all[i as int],
            );
        }
        if fields[i].findable {
            let item = finder(&fields[i]);
            out.push(item);
        }
        i += 1;
    }
    proof {
        all.lemma_take_len();
    }
    out
}

/// Builds one parent accessor per relation name.
pub fn parent_accessors(relations: &Vec<String>) -> (out: Vec<ParentAccessor>)
    ensures
        views(out@) == views(relations@).map_values(to_parent()),
{
    let mut out: Vec<ParentAccessor> = Vec::new();
    let ghost all = views(relations@);
    let mut i: usize = 0;
    while i < relations.len()
        invariant
            i <= relations.len(),
            all == views(relations@),
            views(out@) =~= all.take(i as int).map_values(to_parent()),
        decreases relations.len() - i,
    {
        proof {
            all.lemma_map_take_succ(to_parent(), i as int);
        }
        let item = parent_accessor(relations[i].as_str());
        out.push(item);
        i += 1;
    }
    proof {
        all.lemma_take_len();
    }
    out
}

/// Builds one child accessor per relation name, on the given owner type.
pub fn child_accessors(relations: &Vec<String>, owner: &str) -> (out: Vec<ChildAccessor>)
    ensures
        views(out@) == views(relations@).map_values(to_child(owner@)),
{
    let mut out: Vec<ChildAccessor> = Vec::new();
    let ghost all = views(relations@);
    let mut i: usize = 0;
    while i < relations.len()
        invariant
            i <= relations.len(),
            all == views(relations@),
            views(out@) =~= all.take(i as int).map_values(to_child(owner@)),
        decreases relations.len() - i,
    {
        proof {
            all.lemma_map_take_succ(to_child(owner@), i as int);
        }
        let item = child_accessor(relations[i].as_str(), owner);
        out.push(item);
        i += 1;
    }
    proof {
        all.lemma_take_len();
    }
    out
}

/// Derives the plan of a model.
pub fn derive_plan(model: &Model) -> (out: Plan)
    ensures
        out@ == plan_spec(model@),
{
    Plan {
        name: model.name.clone(),
        service: model.service.clone(),
        id_type: model.id_type.clone(),
        finders: finders(&model.fields),
        parents: parent_accessors(&model.belongs_to),
        children: child_accessors(&model.has_many, model.name.as_str()),
    }
}

} // verus!
