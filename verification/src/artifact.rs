//! The fragments of a synthesized builder.

use crate::schema::{models_of, TypeExpr, TypeModel};
use vstd::prelude::*;

verus! {

/// How a builder stores a field.
#[derive(Debug, Clone, Copy, PartialEq, Eq)]
pub enum Storage {
    /// A slot that holds one value of the element type, or nothing.
    Slot,
    /// A growable ordered sequence of values of the element type.
    Sequence,
}

/// The declaration of one field of the builder type.
#[derive(Debug, PartialEq, Eq)]
pub struct FieldDeclaration {
    pub name: String,
    pub storage: Storage,
    pub element_type: TypeExpr,
}

/// The mathematical value of a [`FieldDeclaration`].
pub struct FieldDeclarationModel {
    pub name: Seq<char>,
    pub storage: Storage,
    pub element_type: TypeModel,
}

impl View for FieldDeclaration {
    type V = FieldDeclarationModel;

    open spec fn view(&self) -> FieldDeclarationModel {
        FieldDeclarationModel {
            name: self.name@,
            storage: self.storage,
            element_type: self.element_type@,
        }
    }
}

/// What a field of a fresh builder holds.
#[derive(Debug, Clone, Copy, PartialEq, Eq)]
pub enum InitialValue {
    /// The slot is empty.
    Absent,
    /// The sequence has no element.
    EmptySequence,
}

/// The entry of one field in the builder's constructor.
#[derive(Debug, PartialEq, Eq)]
pub struct InitializerEntry {
    pub name: String,
    pub value: InitialValue,
}

/// The mathematical value of an [`InitializerEntry`].
pub struct InitializerEntryModel {
    pub name: Seq<char>,
    pub value: InitialValue,
}

impl View for InitializerEntry {
    type V = InitializerEntryModel;

    open spec fn view(&self) -> InitializerEntryModel {
        InitializerEntryModel { name: self.name@, value: self.value }
    }
}

/// What a setter does to the field that it writes.
#[derive(Debug, Clone, Copy, PartialEq, Eq)]
pub enum SetterAction {
    /// Takes one value and makes it the content of the slot.
    Overwrite,
    /// Takes a whole sequence and makes it the stored sequence.
    ReplaceAll,
    /// Takes one value and appends it to the stored sequence.
    AppendOne,
}

/// One setter of the builder type. Every setter changes the builder in place and
/// hands the same builder back.
#[derive(Debug, PartialEq, Eq)]
pub struct SetterDefinition {
    /// The name under which the setter is called.
    pub name: String,
    /// The name of the field that it writes.
    pub field: String,
    pub action: SetterAction,
    pub element_type: TypeExpr,
}

/// The mathematical value of a [`SetterDefinition`].
pub struct SetterModel {
    pub name: Seq<char>,
    pub field: Seq<char>,
    pub action: SetterAction,
    pub element_type: TypeModel,
}

impl View for SetterDefinition {
    type V = SetterModel;

    open spec fn view(&self) -> SetterModel {
        SetterModel {
            name: self.name@,
            field: self.field@,
            action: self.action,
            element_type: self.element_type@,
        }
    }
}

/// How the assembly reads one field of the builder.
#[derive(Debug, Clone, Copy, PartialEq, Eq)]
pub enum AssemblyRule {
    /// The slot must hold a value, which becomes the record's field.
    RequirePresent,
    /// The slot is taken as it is; an empty slot is a valid field.
    PassThrough,
    /// The stored sequence is taken as it is; an empty one is a valid field.
    TakeSequence,
}

/// The part of the assembly that gives one field of the record.
#[derive(Debug, PartialEq, Eq)]
pub struct AssemblyStep {
    pub field: String,
    pub rule: AssemblyRule,
}

/// The mathematical value of an [`AssemblyStep`].
pub struct AssemblyStepModel {
    pub field: Seq<char>,
    pub rule: AssemblyRule,
}

impl View for AssemblyStep {
    type V = AssemblyStepModel;

    open spec fn view(&self) -> AssemblyStepModel {
        AssemblyStepModel { field: self.field@, rule: self.rule }
    }
}

/// The expression that assembles the record: its steps are evaluated in order
/// and the first that fails is the outcome.
#[derive(Debug, PartialEq, Eq)]
pub struct AssemblyExpression {
    pub record_name: String,
    pub steps: Vec<AssemblyStep>,
}

/// The mathematical value of an [`AssemblyExpression`].
pub struct AssemblyModel {
    pub record_name: Seq<char>,
    pub steps: Seq<AssemblyStepModel>,
}

impl View for AssemblyExpression {
    type V = AssemblyModel;

    open spec fn view(&self) -> AssemblyModel {
        AssemblyModel { record_name: self.record_name@, steps: models_of(self.steps@) }
    }
}

/// All that is synthesized for one record declaration.
#[derive(Debug, PartialEq, Eq)]
pub struct BuilderArtifact {
    pub builder_type_name: String,
    pub field_declarations: Vec<FieldDeclaration>,
    pub initializer_entries: Vec<InitializerEntry>,
    /// For each field in turn: its accumulator setter, if it has one, then the
    /// setter named after the field.
    pub setter_definitions: Vec<SetterDefinition>,
    pub assembly_expression: AssemblyExpression,
}

/// The mathematical value of a [`BuilderArtifact`].
pub struct ArtifactModel {
    pub builder_type_name: Seq<char>,
    pub field_declarations: Seq<FieldDeclarationModel>,
    pub initializer_entries: Seq<InitializerEntryModel>,
    pub setter_definitions: Seq<SetterModel>,
    pub assembly_expression: AssemblyModel,
}

impl View for BuilderArtifact {
    type V = ArtifactModel;

    open spec fn view(&self) -> ArtifactModel {
        ArtifactModel {
            builder_type_name: self.builder_type_name@,
            field_declarations: models_of(self.field_declarations@),
            initializer_entries: models_of(self.initializer_entries@),
            setter_definitions: models_of(self.setter_definitions@),
            assembly_expression: self.assembly_expression@,
        }
    }
}

} // verus!
