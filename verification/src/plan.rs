//! The synthesis plan of one field.

use crate::classify::{category_of, classify, CategoryModel, FieldCategory};
use crate::directive::{resolve_directives, resolved, SettingsModel};
use crate::error::{GenerationError, GenerationErrorModel};
use crate::schema::{FieldSchema, FieldSchemaModel, TypeExpr};
use vstd::prelude::*;

verus! {

/// All that the synthesizer needs to know of one field.
#[derive(Debug, PartialEq, Eq)]
pub struct FieldPlan {
    pub name: String,
    pub category: FieldCategory,
}

/// The mathematical value of a [`FieldPlan`].
pub struct FieldPlanModel {
    pub name: Seq<char>,
    pub category: CategoryModel,
}

impl View for FieldPlan {
    type V = FieldPlanModel;

    open spec fn view(&self) -> FieldPlanModel {
        FieldPlanModel { name: self.name@, category: self.category@ }
    }
}

impl FieldPlan {
    /// The type of the values that the field's setters take one by one.
    pub fn element_type(&self) -> (ty: &TypeExpr)
        ensures
            ty@ == self@.category.element_type(),
    {
        match &self.category {
            FieldCategory::Required(ty) => ty,
            FieldCategory::Optional(ty) => ty,
            FieldCategory::Repeated(ty, _) => ty,
        }
    }
}

/// The category once the settings are attached: a repeated field takes the
/// accumulator name, any other field leaves the settings unused.
pub open spec fn configured(category: CategoryModel, settings: SettingsModel) -> CategoryModel {
    match category {
        CategoryModel::Repeated(ty, _) => CategoryModel::Repeated(ty, settings.each),
        _ => category,
    }
}

/// The plan of a field, or the reason why it has none. A field without a name
/// has no plan; a directive that is not recognized is an error whatever the
/// field's category is.
pub open spec fn planned(field: FieldSchemaModel) -> Result<FieldPlanModel, GenerationErrorModel> {
    match field.name {
        None => Err(GenerationErrorModel::UnsupportedSchema),
        Some(name) => match resolved(field.directives) {
            Err(key) => Err(GenerationErrorModel::InvalidFieldConfig { key, field: name }),
            Ok(settings) => Ok(
                FieldPlanModel {
                    name,
                    category: configured(category_of(field.declared_type), settings),
                },
            ),
        },
    }
}

/// Whether `result` stands for the outcome `outcome`.
pub open spec fn plan_matches(
    result: Result<FieldPlan, GenerationError>,
    outcome: Result<FieldPlanModel, GenerationErrorModel>,
) -> bool {
    match result {
        Ok(plan) => outcome == Ok::<FieldPlanModel, GenerationErrorModel>(plan@),
        Err(error) => outcome == Err::<FieldPlanModel, GenerationErrorModel>(error@),
    }
}

/// Builds the plan of one field from its declared type and its directives.
pub fn build_plan(field: &FieldSchema) -> (result: Result<FieldPlan, GenerationError>)
    ensures
        plan_matches(result, planned(field@)),
{
    let name = match &field.name {
        None => {
            return Err(GenerationError::UnsupportedSchema);
        },
        Some(name) => name.clone(),
    };
    let settings = match resolve_directives(&field.directives) {
        Err(key) => {
            return Err(GenerationError::InvalidFieldConfig { key, field: name });
        },
        Ok(settings) => settings,
    };
    let category = match classify(&field.declared_type) {
        FieldCategory::Repeated(ty, _) => FieldCategory::Repeated(ty, settings.each),
        other => other,
    };
    Ok(FieldPlan { name, category })
}

} // verus!
