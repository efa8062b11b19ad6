//! The declaration of a record type, as the engine consumes it.

use vstd::prelude::*;

verus! {

/// A type reference as written in a field declaration.
#[derive(Debug, PartialEq, Eq)]
pub enum TypeExpr {
    /// A reference taken as written; the text is the whole type.
    Simple(String),
    /// A wrapper identifier applied to type parameters, in order.
    Parameterized(String, Vec<TypeExpr>),
}

/// The mathematical value of a [`TypeExpr`].
pub enum TypeModel {
    Simple(Seq<char>),
    Parameterized(Seq<char>, Seq<TypeModel>),
}

impl View for TypeExpr {
    type V = TypeModel;

    open spec fn view(&self) -> TypeModel
        decreases self,
    {
        match self {
            TypeExpr::Simple(text) => TypeModel::Simple(text@),
            TypeExpr::Parameterized(wrapper, parameters) => TypeModel::Parameterized(
                wrapper@,
                Seq::new(
                    parameters@.len(),
                    |i: int|
                        if 0 <= i < parameters@.len() {
                            parameters@[i]@
                        } else {
                            TypeModel::Simple(Seq::empty())
                        },
                ),
            ),
        }
    }
}

impl TypeExpr {
    /// A copy that owns all of its parts.
    pub fn duplicate(&self) -> (copy: TypeExpr)
        ensures
            copy@ == self@,
        decreases self,
    {
        match self {
            TypeExpr::Simple(text) => TypeExpr::Simple(text.clone()),
            TypeExpr::Parameterized(wrapper, parameters) => {
                let mut copies: Vec<TypeExpr> = Vec::new();
                let mut i: usize = 0;
                while i < parameters.len()
                    invariant
                        i <= parameters.len(),
                        copies@.len() == i,
                        forall|j: int| 0 <= j < i ==> copies@[j]@ == parameters@[j]@,
                        *self == TypeExpr::Parameterized(*wrapper, *parameters),
                    decreases parameters.len() - i,
                {
                    proof {
                        vstd::std_specs::vec::axiom_vec_index_decreases(*parameters, i as int);
                        assert(decreases_to!(*self => self->Parameterized_1));
                    }
                    copies.push(parameters[i].duplicate());
                    i += 1;
                }
                let copy = TypeExpr::Parameterized(wrapper.clone(), copies);
                assert(copy@->Parameterized_1 =~= self@->Parameterized_1);
                copy
            },
        }
    }
}

/// The mathematical values of a sequence of items, item by item.
pub open spec fn models_of<T: View>(items: Seq<T>) -> Seq<T::V> {
    items.map_values(|item: T| item@)
}

/// The text of an optional name.
pub open spec fn text_of(name: Option<String>) -> Option<Seq<char>> {
    match name {
        Some(text) => Some(text@),
        None => None,
    }
}

/// A key/value pair of configuration attached to a field.
#[derive(Debug, PartialEq, Eq)]
pub struct Directive {
    pub key: String,
    pub value: String,
}

/// The mathematical value of a [`Directive`].
pub struct DirectiveModel {
    pub key: Seq<char>,
    pub value: Seq<char>,
}

impl View for Directive {
    type V = DirectiveModel;

    open spec fn view(&self) -> DirectiveModel {
        DirectiveModel { key: self.key@, value: self.value@ }
    }
}

/// One field of a record declaration. A positional field has no name.
#[derive(Debug, PartialEq, Eq)]
pub struct FieldSchema {
    pub name: Option<String>,
    pub declared_type: TypeExpr,
    pub directives: Vec<Directive>,
}

/// The mathematical value of a [`FieldSchema`].
pub struct FieldSchemaModel {
    pub name: Option<Seq<char>>,
    pub declared_type: TypeModel,
    pub directives: Seq<DirectiveModel>,
}

impl View for FieldSchema {
    type V = FieldSchemaModel;

    open spec fn view(&self) -> FieldSchemaModel {
        FieldSchemaModel {
            name: text_of(self.name),
            declared_type: self.declared_type@,
            directives: models_of(self.directives@),
        }
    }
}

/// The declaration of a record type: its name and its fields in declaration order.
#[derive(Debug, PartialEq, Eq)]
pub struct RecordSchema {
    pub name: String,
    pub fields: Vec<FieldSchema>,
}

/// The mathematical value of a [`RecordSchema`].
pub struct RecordSchemaModel {
    pub name: Seq<char>,
    pub fields: Seq<FieldSchemaModel>,
}

impl View for RecordSchema {
    type V = RecordSchemaModel;

    open spec fn view(&self) -> RecordSchemaModel {
        RecordSchemaModel {
            name: self.name@,
            fields: models_of(self.fields@),
        }
    }
}

impl RecordSchemaModel {
    /// The record has the named-field shape: at least one field, and every field named.
    pub open spec fn has_named_fields(self) -> bool {
        &&& self.fields.len() > 0
        &&& forall|i: int| 0 <= i < self.fields.len() ==> (#[trigger] self.fields[i]).name is Some
    }

    /// No two fields share a name.
    pub open spec fn has_distinct_names(self) -> bool {
        forall|i: int, j: int|
            0 <= i < j < self.fields.len() ==> (#[trigger] self.fields[i]).name != (
            #[trigger] self.fields[j]).name
    }

    /// What a record declaration must satisfy to be a valid input.
    pub open spec fn well_formed(self) -> bool {
        self.has_named_fields() && self.has_distinct_names()
    }
}

} // verus!
