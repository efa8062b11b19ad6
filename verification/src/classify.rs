//! Classification of a field by its declared type.

use crate::schema::{TypeExpr, TypeModel};
use vstd::prelude::*;

verus! {

/// The structural category of a field, with the type of its elements.
#[derive(Debug, PartialEq, Eq)]
pub enum FieldCategory {
    /// A plain field: a value of the type must be supplied before assembly.
    Required(TypeExpr),
    /// A field declared through the optional wrapper; the type is the wrapped one.
    Optional(TypeExpr),
    /// A field declared through the collection wrapper; the type is that of one
    /// element, and the name, if any, is that of the accumulator setter.
    Repeated(TypeExpr, Option<String>),
}

/// The mathematical value of a [`FieldCategory`].
pub enum CategoryModel {
    Required(TypeModel),
    Optional(TypeModel),
    Repeated(TypeModel, Option<Seq<char>>),
}

impl View for FieldCategory {
    type V = CategoryModel;

    open spec fn view(&self) -> CategoryModel {
        match self {
            FieldCategory::Required(ty) => CategoryModel::Required(ty@),
            FieldCategory::Optional(ty) => CategoryModel::Optional(ty@),
            FieldCategory::Repeated(ty, accumulator) => CategoryModel::Repeated(
                ty@,
                crate::schema::text_of(*accumulator),
            ),
        }
    }
}

impl CategoryModel {
    /// Whether the two are categories of the same kind.
    pub open spec fn same_kind(self, other: CategoryModel) -> bool {
        &&& self is Required <==> other is Required
        &&& self is Optional <==> other is Optional
        &&& self is Repeated <==> other is Repeated
    }

    /// The type of the values that the field's setters take one by one.
    pub open spec fn element_type(self) -> TypeModel {
        match self {
            CategoryModel::Required(ty) => ty,
            CategoryModel::Optional(ty) => ty,
            CategoryModel::Repeated(ty, _) => ty,
        }
    }
}

/// The identifier of the wrapper that marks an optional field.
pub open spec fn optional_wrapper() -> Seq<char> {
    "Option"@
}

/// The identifier of the wrapper that marks a repeated field.
pub open spec fn collection_wrapper() -> Seq<char> {
    "Vec"@
}

/// The category that a declared type falls into. Only a wrapper with exactly one
/// parameter and one of the two recognized names is taken apart; every other
/// type is required as it stands. The wrapper is matched by its text alone.
pub open spec fn category_of(declared: TypeModel) -> CategoryModel {
    match declared {
        TypeModel::Parameterized(wrapper, parameters) => {
            if parameters.len() == 1 && wrapper == optional_wrapper() {
                CategoryModel::Optional(parameters[0])
            } else if parameters.len() == 1 && wrapper == collection_wrapper() {
                CategoryModel::Repeated(parameters[0], None)
            } else {
                CategoryModel::Required(declared)
            }
        },
        TypeModel::Simple(_) => CategoryModel::Required(declared),
    }
}

/// Whether `text` reads exactly as `literal`.
pub fn text_is(text: &String, literal: &str) -> (same: bool)
    ensures
        same == (text@ == literal@),
{
    let other = literal.to_owned();
    *text == other
}

/// Classifies a declared type. Total: a type that is not one of the two
/// recognized wrappers is required as declared.
pub fn classify(declared: &TypeExpr) -> (category: FieldCategory)
    ensures
        category@ == category_of(declared@),
{
    match declared {
        TypeExpr::Parameterized(wrapper, parameters) => {
            if parameters.len() == 1 && text_is(wrapper, "Option") {
                FieldCategory::Optional(parameters[0].duplicate())
            } else if parameters.len() == 1 && text_is(wrapper, "Vec") {
                FieldCategory::Repeated(parameters[0].duplicate(), None)
            } else {
                FieldCategory::Required(declared.duplicate())
            }
        },
        TypeExpr::Simple(_) => FieldCategory::Required(declared.duplicate()),
    }
}

} // verus!
