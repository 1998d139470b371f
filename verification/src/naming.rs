//! Names of the generated methods, derived from relationship and field names.

use convert_case::{Case, Casing};
use vstd::prelude::*;
use vstd::string::*;

verus! {

/// The snake-case form of a text, as `convert_case` computes it.
pub uninterp spec fn snake_case(text: Seq<char>) -> Seq<char>;

/// The Pascal-case form of a text, as `convert_case` computes it.
pub uninterp spec fn pascal_case(text: Seq<char>) -> Seq<char>;

/// Calls `convert_case::Casing::to_case` with `Case::Snake`. The conversion
/// splits the text into words, changes their letters' case and joins them
/// again; it depends on the text alone and returns for every text. What it
/// returns takes pages to state, so the contract, which is not proved, only
/// gives the result its name, `snake_case`.
#[verifier::external_body]
pub(crate) fn to_snake(text: &str) -> (out: String)
    ensures
        out@ == snake_case(text@),
{
    text.to_case(Case::Snake)
}

/// Calls `convert_case::Casing::to_case` with `Case::Pascal`. As for
/// `to_snake`, the contract, which is not proved, only gives the result its
/// name, `pascal_case`.
#[verifier::external_body]
pub(crate) fn to_pascal(text: &str) -> (out: String)
    ensures
        out@ == pascal_case(text@),
{
    text.to_case(Case::Pascal)
}

/// A field name without the raw-identifier marker `r#`, if it starts with one.
pub open spec fn unraw_spec(name: Seq<char>) -> Seq<char> {
    if name.len() >= 2 && name[0] == 'r' && name[1] == '#' {
        name.subrange(2, name.len() as int)
    } else {
        name
    }
}

/// Strips a leading `r#` from a field name.
pub fn unraw(name: &str) -> (out: String)
    ensures
        out@ == unraw_spec(name@),
{
    let n: usize = name.unicode_len();
    if n >= 2 && name.get_char(0) == 'r' && name.get_char(1) == '#' {
        String::from_str(name.substring_char(2, n))
    } else {
        String::from_str(name)
    }
}

/// `find_by_<field>`: the finder of a findable field.
pub open spec fn finder_name_spec(field: Seq<char>) -> Seq<char> {
    "find_by_"@ + unraw_spec(field)
}

/// The name of the finder generated for a findable field.
pub fn finder_name(field: &str) -> (out: String)
    ensures
        out@ == finder_name_spec(field@),
{
    let bare = unraw(field);
    String::from_str("find_by_").concat(bare.as_str())
}

/// `<relation>_id`: the field of a child that holds its parent's id.
pub open spec fn key_name_spec(snake: Seq<char>) -> Seq<char> {
    snake + "_id"@
}

/// The foreign-key field name for a relation whose snake-case form is given.
pub fn key_name(snake: &str) -> (out: String)
    ensures
        out@ == key_name_spec(snake@),
{
    String::from_str(snake).concat("_id")
}

/// `<relation>_list`: the accessor of a child collection.
pub open spec fn list_name_spec(snake: Seq<char>) -> Seq<char> {
    snake + "_list"@
}

/// The child-collection accessor name for a relation whose snake-case form is given.
pub fn list_name(snake: &str) -> (out: String)
    ensures
        out@ == list_name_spec(snake@),
{
    String::from_str(snake).concat("_list")
}

} // verus!
