//! The metadata attached to a record type, and the options read from it.

use crate::naming::{unraw, unraw_spec};
use crate::views::views;
use vstd::prelude::*;
use vstd::string::*;

verus! {

/// One declared field of a record type.
#[derive(Debug, Clone, PartialEq, Eq)]
pub struct FieldDecl {
    /// The field's name as written, with `r#` if it is a raw identifier.
    pub name: String,
    /// The field's type, as source text.
    pub ty: String,
    /// Whether the field is marked for equality lookup.
    pub findable: bool,
}

/// What a `FieldDecl` holds, as mathematical values.
pub struct FieldView {
    pub name: Seq<char>,
    pub ty: Seq<char>,
    pub findable: bool,
}

impl View for FieldDecl {
    type V = FieldView;

    open spec fn view(&self) -> FieldView {
        FieldView { name: self.name@, ty: self.ty@, findable: self.findable }
    }
}

/// How the annotated type is declared.
#[derive(Debug, Clone, PartialEq, Eq)]
pub enum Shape {
    /// A struct with named fields, in declaration order; a unit struct is the
    /// record without fields.
    Record(Vec<FieldDecl>),
    /// A tuple struct.
    Tuple,
    /// An enum.
    Enum,
    /// A union.
    Union,
}

/// What a `Shape` holds, as mathematical values.
pub enum ShapeView {
    Record(Seq<FieldView>),
    Tuple,
    Enum,
    Union,
}

impl View for Shape {
    type V = ShapeView;

    open spec fn view(&self) -> ShapeView {
        match self {
            Shape::Record(fields) => ShapeView::Record(views(fields@)),
            Shape::Tuple => ShapeView::Tuple,
            Shape::Enum => ShapeView::Enum,
            Shape::Union => ShapeView::Union,
        }
    }
}

/// A type definition with its attached configuration, as plain values.
#[derive(Debug, Clone, PartialEq, Eq)]
pub struct Declaration {
    /// The name of the annotated type.
    pub name: String,
    pub shape: Shape,
    /// The path of the backend module; `None` where the configuration gives
    /// none, or gives something that is no path.
    pub service: Option<String>,
    /// The parent relationship names, in declaration order.
    pub belongs_to: Vec<String>,
    /// The child relationship names, in declaration order.
    pub has_many: Vec<String>,
}

/// What a `Declaration` holds, as mathematical values.
pub struct DeclarationView {
    pub name: Seq<char>,
    pub shape: ShapeView,
    pub service: Option<Seq<char>>,
    pub belongs_to: Seq<Seq<char>>,
    pub has_many: Seq<Seq<char>>,
}

impl View for Declaration {
    type V = DeclarationView;

    open spec fn view(&self) -> DeclarationView {
        DeclarationView {
            name: self.name@,
            shape: self.shape@,
            service: match self.service {
                Some(path) => Some(path@),
                None => None,
            },
            belongs_to: views(self.belongs_to@),
            has_many: views(self.has_many@),
        }
    }
}

/// The options of a record type that passed every check.
#[derive(Debug, Clone, PartialEq, Eq)]
pub struct Model {
    pub name: String,
    pub service: String,
    /// The declared type of the `id` field.
    pub id_type: String,
    pub fields: Vec<FieldDecl>,
    pub belongs_to: Vec<String>,
    pub has_many: Vec<String>,
}

/// What a `Model` holds, as mathematical values.
pub struct ModelView {
    pub name: Seq<char>,
    pub service: Seq<char>,
    pub id_type: Seq<char>,
    pub fields: Seq<FieldView>,
    pub belongs_to: Seq<Seq<char>>,
    pub has_many: Seq<Seq<char>>,
}

impl View for Model {
    type V = ModelView;

    open spec fn view(&self) -> ModelView {
        ModelView {
            name: self.name@,
            service: self.service@,
            id_type: self.id_type@,
            fields: views(self.fields@),
            belongs_to: views(self.belongs_to@),
            has_many: views(self.has_many@),
        }
    }
}

/// Why no code is generated for a declaration.
#[derive(Debug, Clone, Copy, PartialEq, Eq, Structural)]
pub enum GenerateError {
    /// The backend reference is absent or malformed.
    WrongOptions,
    /// The annotated type is no struct with named fields.
    OnlyStructSupported,
    /// No field is named `id`.
    IdNotFound,
}

impl GenerateError {
    /// The text with which the build fails.
    pub open spec fn message_spec(self) -> Seq<char> {
        match self {
            GenerateError::WrongOptions => "Wrong options"@,
            GenerateError::OnlyStructSupported => "Only struct is supported"@,
            GenerateError::IdNotFound => "Id not found"@,
        }
    }

    /// The text with which the build fails.
    pub fn message(&self) -> (out: String)
        ensures
            out@ == self.message_spec(),
    {
        match self {
            GenerateError::WrongOptions => String::from_str("Wrong options"),
            GenerateError::OnlyStructSupported => String::from_str("Only struct is supported"),
            GenerateError::IdNotFound => String::from_str("Id not found"),
        }
    }
}

/// Whether a field is the identifier field: its name, without `r#`, is `id`.
pub open spec fn is_id_field(field: FieldView) -> bool {
    unraw_spec(field.name) == "id"@
}

/// The type of the first identifier field at or after `start`, if there is one.
pub open spec fn id_type_from(fields: Seq<FieldView>, start: int) -> Option<Seq<char>>
    decreases fields.len() - start,
{
    if start < 0 || start >= fields.len() {
        None
    } else if is_id_field(fields[start]) {
        Some(fields[start].ty)
    } else {
        id_type_from(fields, start + 1)
    }
}

/// The declared type of the identifier field, if the fields hold one.
pub open spec fn id_type_of(fields: Seq<FieldView>) -> Option<Seq<char>> {
    id_type_from(fields, 0)
}

/// What reading a declaration gives: the options, or the first check that fails.
pub open spec fn read_spec(decl: DeclarationView) -> Result<ModelView, GenerateError> {
    match decl.service {
        None => Err(GenerateError::WrongOptions),
        Some(service) => match decl.shape {
            ShapeView::Record(fields) => match id_type_of(fields) {
                None => Err(GenerateError::IdNotFound),
                Some(id_type) => Ok(
                    ModelView {
                        name: decl.name,
                        service,
                        id_type,
                        fields,
                        belongs_to: decl.belongs_to,
                        has_many: decl.has_many,
                    },
                ),
            },
            _ => Err(GenerateError::OnlyStructSupported),
        },
    }
}

/// Whether an executable result stands for a specified one.
pub open spec fn model_result_is(
    out: Result<Model, GenerateError>,
    expected: Result<ModelView, GenerateError>,
) -> bool {
    match expected {
        Ok(model) => out is Ok && out->Ok_0@ == model,
        Err(error) => out is Err && out->Err_0 == error,
    }
}

/// Looks for the identifier field and returns a copy of its declared type.
pub fn find_id_type(fields: &Vec<FieldDecl>) -> (out: Option<String>)
    ensures
        match id_type_of(views(fields@)) {
            Some(ty) => out is Some && out->Some_0@ == ty,
            None => out is None,
        },
{
    let id: String = String::from_str("id");
    let mut i: usize = 0;
    while i < fields.len()
        invariant
            i <= fields.len(),
            id@ == "id"@,
            id_type_of(views(fields@)) == id_type_from(views(fields@), i as int),
        decreases fields.len() - i,
    {
        let bare = unraw(fields[i].name.as_str());
        if bare == id {
            return Some(fields[i].ty.clone());
        }
        i += 1;
    }
    None
}

/// Reads the options of a declaration. The backend reference is required, the
/// type must be a struct with named fields, and one of them must be `id`; the
/// first of these that fails is the error.
pub fn read(decl: Declaration) -> (out: Result<Model, GenerateError>)
    ensures
        model_result_is(out, read_spec(decl@)),
{
    let Declaration { name, shape, service, belongs_to, has_many } = decl;
    let service = match service {
        Some(path) => path,
        None => {
            return Err(GenerateError::WrongOptions);
        },
    };
    let fields = match shape {
        Shape::Record(fields) => fields,
        _ => {
            return Err(GenerateError::OnlyStructSupported);
        },
    };
    match find_id_type(&fields) {
        Some(id_type) => Ok(Model { name, service, id_type, fields, belongs_to, has_many }),
        None => Err(GenerateError::IdNotFound),
    }
}

} // verus!
