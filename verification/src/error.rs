//! The failures that the engine reports.

use vstd::prelude::*;

verus! {

/// Why no builder can be generated for a record declaration.
#[derive(Debug, PartialEq, Eq)]
pub enum GenerationError {
    /// The record does not have the named-field shape.
    UnsupportedSchema,
    /// A directive of the field `field` has the key `key`, which is not recognized.
    InvalidFieldConfig { key: String, field: String },
}

/// The mathematical value of a [`GenerationError`].
pub enum GenerationErrorModel {
    UnsupportedSchema,
    InvalidFieldConfig { key: Seq<char>, field: Seq<char> },
}

impl View for GenerationError {
    type V = GenerationErrorModel;

    open spec fn view(&self) -> GenerationErrorModel {
        match self {
            GenerationError::UnsupportedSchema => GenerationErrorModel::UnsupportedSchema,
            GenerationError::InvalidFieldConfig { key, field } => {
                GenerationErrorModel::InvalidFieldConfig { key: key@, field: field@ }
            },
        }
    }
}

impl GenerationError {
    /// The text that describes the failure.
    pub fn message(&self) -> (text: String)
        ensures
            text@ == match self@ {
                GenerationErrorModel::UnsupportedSchema => "Only named fields are supported yet"@,
                GenerationErrorModel::InvalidFieldConfig { .. } => "Invalid field config"@,
            },
    {
        match self {
            GenerationError::UnsupportedSchema => "Only named fields are supported yet".to_owned(),
            GenerationError::InvalidFieldConfig { .. } => "Invalid field config".to_owned(),
        }
    }
}

/// Why a builder cannot assemble its record.
#[derive(Debug, PartialEq, Eq)]
pub enum BuildError {
    /// No value was ever supplied for the required field of this name.
    MissingRequiredField(String),
}

/// The mathematical value of a [`BuildError`].
pub enum BuildErrorModel {
    MissingRequiredField(Seq<char>),
}

impl View for BuildError {
    type V = BuildErrorModel;

    open spec fn view(&self) -> BuildErrorModel {
        match self {
            BuildError::MissingRequiredField(field) => BuildErrorModel::MissingRequiredField(
                field@,
            ),
        }
    }
}

impl BuildError {
    /// The text that describes the failure; it does not name the field.
    pub fn message(&self) -> (text: String)
        ensures
            text@ == "Failed to build field"@,
    {
        "Failed to build field".to_owned()
    }
}

} // verus!
