//! The values that a builder holds and the record that it assembles.

use crate::lookup::{lemma_position_is, lemma_position_none, position};
use crate::schema::models_of;
use vstd::prelude::*;

verus! {

/// A value supplied for a field. The engine does not check it against the
/// field's declared type.
#[derive(Debug, PartialEq, Eq)]
pub enum Value {
    Int(i64),
    Text(String),
}

/// The mathematical value of a [`Value`].
pub enum ValueModel {
    Int(int),
    Text(Seq<char>),
}

impl View for Value {
    type V = ValueModel;

    open spec fn view(&self) -> ValueModel {
        match self {
            Value::Int(number) => ValueModel::Int(*number as int),
            Value::Text(text) => ValueModel::Text(text@),
        }
    }
}

impl Value {
    /// A copy of the value.
    pub fn duplicate(&self) -> (copy: Value)
        ensures
            copy@ == self@,
    {
        match self {
            Value::Int(number) => Value::Int(*number),
            Value::Text(text) => Value::Text(text.clone()),
        }
    }
}

/// The mathematical value of an optional [`Value`].
pub open spec fn optional_model(value: Option<Value>) -> Option<ValueModel> {
    match value {
        Some(value) => Some(value@),
        None => None,
    }
}

/// A copy of an optional value.
pub fn duplicate_optional(value: &Option<Value>) -> (copy: Option<Value>)
    ensures
        optional_model(copy) == optional_model(*value),
{
    match value {
        Some(value) => Some(value.duplicate()),
        None => None,
    }
}

/// A copy of a sequence of values, in the same order.
pub fn duplicate_all(values: &Vec<Value>) -> (copies: Vec<Value>)
    ensures
        models_of(copies@) == models_of(values@),
{
    let mut copies: Vec<Value> = Vec::new();
    let mut i: usize = 0;
    while i < values.len()
        invariant
            i <= values.len(),
            copies@.len() == i,
            forall|j: int| 0 <= j < i ==> (#[trigger] copies@[j])@ == values@[j]@,
        decreases values.len() - i,
    {
        copies.push(values[i].duplicate());
        i += 1;
    }
    assert(models_of(copies@) =~= models_of(values@));
    copies
}

/// What a builder stores for one field.
#[derive(Debug, PartialEq, Eq)]
pub enum Slot {
    /// One value at most; `None` while nothing was supplied.
    Single(Option<Value>),
    /// The values supplied so far, in order.
    Many(Vec<Value>),
}

/// The mathematical value of a [`Slot`].
pub enum SlotModel {
    Single(Option<ValueModel>),
    Many(Seq<ValueModel>),
}

impl View for Slot {
    type V = SlotModel;

    open spec fn view(&self) -> SlotModel {
        match self {
            Slot::Single(value) => SlotModel::Single(optional_model(*value)),
            Slot::Many(values) => SlotModel::Many(models_of(values@)),
        }
    }
}

/// A field of a builder: its name and what is stored for it.
#[derive(Debug, PartialEq, Eq)]
pub struct NamedSlot {
    pub name: String,
    pub slot: Slot,
}

/// The mathematical value of a [`NamedSlot`].
pub struct NamedSlotModel {
    pub name: Seq<char>,
    pub slot: SlotModel,
}

impl View for NamedSlot {
    type V = NamedSlotModel;

    open spec fn view(&self) -> NamedSlotModel {
        NamedSlotModel { name: self.name@, slot: self.slot@ }
    }
}

/// What is handed to a setter.
#[derive(Debug, PartialEq, Eq)]
pub enum Argument {
    /// One value of the element type.
    One(Value),
    /// A whole sequence of values of the element type.
    Many(Vec<Value>),
}

/// The mathematical value of an [`Argument`].
pub enum ArgumentModel {
    One(ValueModel),
    Many(Seq<ValueModel>),
}

impl View for Argument {
    type V = ArgumentModel;

    open spec fn view(&self) -> ArgumentModel {
        match self {
            Argument::One(value) => ArgumentModel::One(value@),
            Argument::Many(values) => ArgumentModel::Many(models_of(values@)),
        }
    }
}

/// The value of one field of an assembled record.
#[derive(Debug, PartialEq, Eq)]
pub enum FieldValue {
    /// The value of a required field.
    Required(Value),
    /// The value of an optional field; `None` where none was supplied.
    Optional(Option<Value>),
    /// The values of a repeated field, in order.
    Repeated(Vec<Value>),
}

/// The mathematical value of a [`FieldValue`].
pub enum FieldValueModel {
    Required(ValueModel),
    Optional(Option<ValueModel>),
    Repeated(Seq<ValueModel>),
}

impl View for FieldValue {
    type V = FieldValueModel;

    open spec fn view(&self) -> FieldValueModel {
        match self {
            FieldValue::Required(value) => FieldValueModel::Required(value@),
            FieldValue::Optional(value) => FieldValueModel::Optional(optional_model(*value)),
            FieldValue::Repeated(values) => FieldValueModel::Repeated(models_of(values@)),
        }
    }
}

/// One field of an assembled record.
#[derive(Debug, PartialEq, Eq)]
pub struct RecordField {
    pub name: String,
    pub value: FieldValue,
}

/// The mathematical value of a [`RecordField`].
pub struct RecordFieldModel {
    pub name: Seq<char>,
    pub value: FieldValueModel,
}

impl View for RecordField {
    type V = RecordFieldModel;

    open spec fn view(&self) -> RecordFieldModel {
        RecordFieldModel { name: self.name@, value: self.value@ }
    }
}

/// An assembled record: the name of its type and its fields in declaration order.
#[derive(Debug, PartialEq, Eq)]
pub struct Record {
    pub record_name: String,
    pub fields: Vec<RecordField>,
}

/// The mathematical value of a [`Record`].
pub struct RecordModel {
    pub record_name: Seq<char>,
    pub fields: Seq<RecordFieldModel>,
}

impl View for Record {
    type V = RecordModel;

    open spec fn view(&self) -> RecordModel {
        RecordModel { record_name: self.record_name@, fields: models_of(self.fields@) }
    }
}

/// The names of the fields of a record, in order.
pub open spec fn field_names(fields: Seq<RecordFieldModel>) -> Seq<Seq<char>> {
    fields.map_values(|field: RecordFieldModel| field.name)
}

impl RecordModel {
    /// The value of the first field named `name`, if the record has one.
    pub open spec fn field(self, name: Seq<char>) -> Option<FieldValueModel> {
        match position(field_names(self.fields), name) {
            Some(place) => Some(self.fields[place].value),
            None => None,
        }
    }
}

impl Record {
    /// The value of the first field named `name`, if the record has one.
    pub fn field(&self, name: &str) -> (value: Option<&FieldValue>)
        ensures
            match value {
                Some(value) => self@.field(name@) == Some(value@),
                None => self@.field(name@) is None,
            },
    {
        let ghost names = field_names(self@.fields);
        let wanted = name.to_owned();
        let mut i: usize = 0;
        while i < self.fields.len()
            invariant
                i <= self.fields.len(),
                wanted@ == name@,
                names == field_names(self@.fields),
                forall|j: int| 0 <= j < i ==> names[j] != name@,
            decreases self.fields.len() - i,
        {
            if self.fields[i].name == wanted {
                proof {
                    lemma_position_is(names, name@, i as int);
                }
                return Some(&self.fields[i].value);
            }
            i += 1;
        }
        proof {
            lemma_position_none(names, name@);
        }
        None
    }
}

} // verus!
