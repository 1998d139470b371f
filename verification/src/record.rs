//! Records as plain values: an id and named field values.

use crate::naming::{unraw, unraw_spec};
use crate::views::views;
use vstd::prelude::*;
use vstd::string::*;

verus! {

/// The value of an id or of a field.
#[derive(Debug, Clone, PartialEq, Eq)]
pub enum Value {
    Int(u64),
    Text(String),
}

/// What a `Value` holds, as mathematical values.
pub enum ValueView {
    Int(u64),
    Text(Seq<char>),
}

impl View for Value {
    type V = ValueView;

    open spec fn view(&self) -> ValueView {
        match self {
            Value::Int(number) => ValueView::Int(*number),
            Value::Text(text) => ValueView::Text(text@),
        }
    }
}

impl Value {
    /// Whether two values are equal: the same kind and the same content.
    pub fn same(&self, other: &Value) -> (out: bool)
        ensures
            out == (self@ == other@),
    {
        match (self, other) {
            (Value::Int(a), Value::Int(b)) => *a == *b,
            (Value::Text(a), Value::Text(b)) => *a == *b,
            _ => false,
        }
    }

    /// A copy of the value.
    pub fn duplicate(&self) -> (out: Value)
        ensures
            out@ == self@,
    {
        match self {
            Value::Int(number) => Value::Int(*number),
            Value::Text(text) => Value::Text(text.clone()),
        }
    }
}

/// One named field value of a record.
#[derive(Debug, Clone, PartialEq, Eq)]
pub struct Entry {
    pub name: String,
    pub value: Value,
}

/// What an `Entry` holds, as mathematical values.
pub struct EntryView {
    pub name: Seq<char>,
    pub value: ValueView,
}

impl View for Entry {
    type V = EntryView;

    open spec fn view(&self) -> EntryView {
        EntryView { name: self.name@, value: self.value@ }
    }
}

/// A record: its id and its other fields in declaration order.
#[derive(Debug, Clone, PartialEq, Eq)]
pub struct Record {
    pub id: Value,
    pub entries: Vec<Entry>,
}

/// What a `Record` holds, as mathematical values.
pub struct RecordView {
    pub id: ValueView,
    pub entries: Seq<EntryView>,
}

impl View for Record {
    type V = RecordView;

    open spec fn view(&self) -> RecordView {
        RecordView { id: self.id@, entries: views(self.entries@) }
    }
}

/// Whether two names denote the same field: they are equal without `r#`.
pub open spec fn same_field_spec(a: Seq<char>, b: Seq<char>) -> bool {
    unraw_spec(a) == unraw_spec(b)
}

/// Whether two names denote the same field.
pub fn same_field(a: &str, b: &str) -> (out: bool)
    ensures
        out == same_field_spec(a@, b@),
{
    unraw(a) == unraw(b)
}

/// The value of the first entry at or after `start` whose name denotes the
/// field, if there is one.
pub open spec fn entry_value_from(entries: Seq<EntryView>, name: Seq<char>, start: int) -> Option<
    ValueView,
>
    decreases entries.len() - start,
{
    if start < 0 || start >= entries.len() {
        None
    } else if same_field_spec(entries[start].name, name) {
        Some(entries[start].value)
    } else {
        entry_value_from(entries, name, start + 1)
    }
}

/// The value that a record holds for a field: its id for `id`, else the value
/// of the first entry of that name.
pub open spec fn field_value(record: RecordView, name: Seq<char>) -> Option<ValueView> {
    if same_field_spec(name, "id"@) {
        Some(record.id)
    } else {
        entry_value_from(record.entries, name, 0)
    }
}

/// The view of an optional value.
pub open spec fn value_view(value: Option<&Value>) -> Option<ValueView> {
    match value {
        Some(value) => Some(value@),
        None => None,
    }
}

impl Record {
    /// A record with the given id and no other field.
    pub fn new(id: Value) -> (out: Record)
        ensures
            out@ == (RecordView { id: id@, entries: Seq::empty() }),
    {
        let out = Record { id, entries: Vec::new() };
        assert(out@.entries =~= Seq::empty());
        out
    }

    /// The record with one more field after those it has.
    pub fn with(self, name: &str, value: Value) -> (out: Record)
        ensures
            out@ == (RecordView {
                id: self@.id,
                entries: self@.entries.push(EntryView { name: name@, value: value@ }),
            }),
    {
        let Record { id, entries } = self;
        let mut entries = entries;
        entries.push(Entry { name: String::from_str(name), value });
        let out = Record { id, entries };
        assert(out@.entries =~= self@.entries.push(EntryView { name: name@, value: value@ }));
        out
    }

    /// The value of a field, if the record holds it.
    pub fn get(&self, name: &str) -> (out: Option<&Value>)
        ensures
            value_view(out) == field_value(self@, name@),
    {
        if same_field(name, "id") {
            return Some(&self.id);
        }
        let mut i: usize = 0;
        while i < self.entries.len()
            invariant
                i <= self.entries.len(),
                !same_field_spec(name@, "id"@),
                field_value(self@, name@) == entry_value_from(self@.entries, name@, i as int),
            decreases self.entries.len() - i,
        {
            if same_field(self.entries[i].name.as_str(), name) {
                return Some(&self.entries[i].value);
            }
            i += 1;
        }
        None
    }

    /// A copy of the record.
    pub fn duplicate(&self) -> (out: Record)
        ensures
            out@ == self@,
    {
        let mut entries: Vec<Entry> = Vec::new();
        let mut i: usize = 0;
        while i < self.entries.len()
            invariant
                i <= self.entries.len(),
                views(entries@) =~= views(self.entries@).take(i as int),
            decreases self.entries.len() - i,
        {
            let entry = Entry {
                name: self.entries[i].name.clone(),
                value: self.entries[i].value.duplicate(),
            };
            proof {
                views(self.entries@).lemma_take_succ_push(i as int);
            }
            entries.push(entry);
            i += 1;
        }
        let out = Record { id: self.id.duplicate(), entries };
        assert(out@.entries =~= self@.entries);
        out
    }
}

} // verus!
