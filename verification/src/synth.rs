//! Synthesis of a builder from the plans of a record's fields.

use crate::artifact::{
    ArtifactModel, AssemblyExpression, AssemblyModel, AssemblyRule, AssemblyStep,
    AssemblyStepModel, BuilderArtifact, FieldDeclaration, FieldDeclarationModel, InitialValue,
    InitializerEntry, InitializerEntryModel, SetterAction, SetterDefinition, SetterModel, Storage,
};
use crate::classify::{CategoryModel, FieldCategory};
use crate::error::{GenerationError, GenerationErrorModel};
use crate::plan::{build_plan, planned, FieldPlan, FieldPlanModel};
use crate::schema::{models_of, FieldSchemaModel, RecordSchema, RecordSchemaModel};
use vstd::prelude::*;

verus! {

/// The declaration of a field in the builder type: a slot for a required or an
/// optional field, a sequence for a repeated one.
pub open spec fn declaration_of(plan: FieldPlanModel) -> FieldDeclarationModel {
    FieldDeclarationModel {
        name: plan.name,
        storage: match plan.category {
            CategoryModel::Repeated(_, _) => Storage::Sequence,
            _ => Storage::Slot,
        },
        element_type: plan.category.element_type(),
    }
}

/// The entry of a field in the builder's constructor.
pub open spec fn initializer_of(plan: FieldPlanModel) -> InitializerEntryModel {
    InitializerEntryModel {
        name: plan.name,
        value: match plan.category {
            CategoryModel::Repeated(_, _) => InitialValue::EmptySequence,
            _ => InitialValue::Absent,
        },
    }
}

/// The setter that is named after the field.
pub open spec fn primary_setter_of(plan: FieldPlanModel) -> SetterModel {
    SetterModel {
        name: plan.name,
        field: plan.name,
        action: match plan.category {
            CategoryModel::Repeated(_, _) => SetterAction::ReplaceAll,
            _ => SetterAction::Overwrite,
        },
        element_type: plan.category.element_type(),
    }
}

/// The setter that appends one element to the repeated field, under `name`.
pub open spec fn accumulator_of(plan: FieldPlanModel, name: Seq<char>) -> SetterModel {
    SetterModel {
        name,
        field: plan.name,
        action: SetterAction::AppendOne,
        element_type: plan.category.element_type(),
    }
}

/// The setters of one field: the accumulator, where the field has one, comes
/// immediately before the setter named after the field.
pub open spec fn setters_of(plan: FieldPlanModel) -> Seq<SetterModel> {
    match plan.category {
        CategoryModel::Repeated(_, Some(name)) => seq![
            accumulator_of(plan, name),
            primary_setter_of(plan),
        ],
        _ => seq![primary_setter_of(plan)],
    }
}

/// The step of the assembly that gives the field of the record.
pub open spec fn step_of(plan: FieldPlanModel) -> AssemblyStepModel {
    AssemblyStepModel {
        field: plan.name,
        rule: match plan.category {
            CategoryModel::Required(_) => AssemblyRule::RequirePresent,
            CategoryModel::Optional(_) => AssemblyRule::PassThrough,
            CategoryModel::Repeated(_, _) => AssemblyRule::TakeSequence,
        },
    }
}

/// The setters of all fields, field by field in declaration order.
pub open spec fn all_setters(plans: Seq<FieldPlanModel>) -> Seq<SetterModel>
    decreases plans.len(),
{
    if plans.len() == 0 {
        Seq::empty()
    } else {
        all_setters(plans.drop_last()) + setters_of(plans.last())
    }
}

/// The name of the builder type of a record.
pub open spec fn builder_name(record_name: Seq<char>) -> Seq<char> {
    record_name + "Builder"@
}

/// The artifact for a record of the given name whose fields have the given plans.
pub open spec fn artifact_of(record_name: Seq<char>, plans: Seq<FieldPlanModel>) -> ArtifactModel {
    ArtifactModel {
        builder_type_name: builder_name(record_name),
        field_declarations: plans.map_values(|plan: FieldPlanModel| declaration_of(plan)),
        initializer_entries: plans.map_values(|plan: FieldPlanModel| initializer_of(plan)),
        setter_definitions: all_setters(plans),
        assembly_expression: AssemblyModel {
            record_name,
            steps: plans.map_values(|plan: FieldPlanModel| step_of(plan)),
        },
    }
}

/// The plans of the fields in declaration order, or the error of the first
/// field that has none.
pub open spec fn plans_of(fields: Seq<FieldSchemaModel>) -> Result<
    Seq<FieldPlanModel>,
    GenerationErrorModel,
>
    decreases fields.len(),
{
    if fields.len() == 0 {
        Ok(Seq::empty())
    } else {
        match plans_of(fields.drop_last()) {
            Err(error) => Err(error),
            Ok(plans) => match planned(fields.last()) {
                Err(error) => Err(error),
                Ok(plan) => Ok(plans.push(plan)),
            },
        }
    }
}

/// What synthesis gives for a record declaration. A record without the
/// named-field shape is refused before any field is looked at.
pub open spec fn synthesis(schema: RecordSchemaModel) -> Result<
    ArtifactModel,
    GenerationErrorModel,
> {
    if !schema.has_named_fields() {
        Err(GenerationErrorModel::UnsupportedSchema)
    } else {
        match plans_of(schema.fields) {
            Err(error) => Err(error),
            Ok(plans) => Ok(artifact_of(schema.name, plans)),
        }
    }
}

fn storage_of(category: &FieldCategory) -> (storage: Storage)
    ensures
        storage == match category@ {
            CategoryModel::Repeated(_, _) => Storage::Sequence,
            _ => Storage::Slot,
        },
{
    match category {
        FieldCategory::Repeated(_, _) => Storage::Sequence,
        _ => Storage::Slot,
    }
}

/// The declaration of the field in the builder type.
pub fn field_declaration(plan: &FieldPlan) -> (declaration: FieldDeclaration)
    ensures
        declaration@ == declaration_of(plan@),
{
    FieldDeclaration {
        name: plan.name.clone(),
        storage: storage_of(&plan.category),
        element_type: plan.element_type().duplicate(),
    }
}

/// The entry of the field in the builder's constructor.
pub fn initializer_entry(plan: &FieldPlan) -> (entry: InitializerEntry)
    ensures
        entry@ == initializer_of(plan@),
{
    let value = match storage_of(&plan.category) {
        Storage::Sequence => InitialValue::EmptySequence,
        Storage::Slot => InitialValue::Absent,
    };
    InitializerEntry { name: plan.name.clone(), value }
}

/// The setters of the field, in the order in which they are emitted.
pub fn setter_definitions(plan: &FieldPlan) -> (setters: Vec<SetterDefinition>)
    ensures
        models_of(setters@) == setters_of(plan@),
{
    let mut setters: Vec<SetterDefinition> = Vec::new();
    let action = match &plan.category {
        FieldCategory::Repeated(_, accumulator) => {
            match accumulator {
                Some(name) => {
                    setters.push(
                        SetterDefinition {
                            name: name.clone(),
                            field: plan.name.clone(),
                            action: SetterAction::AppendOne,
                            element_type: plan.element_type().duplicate(),
                        },
                    );
                },
                None => {},
            }
            SetterAction::ReplaceAll
        },
        _ => SetterAction::Overwrite,
    };
    setters.push(
        SetterDefinition {
            name: plan.name.clone(),
            field: plan.name.clone(),
            action,
            element_type: plan.element_type().duplicate(),
        },
    );
    assert(models_of(setters@) =~= setters_of(plan@));
    setters
}

/// The step of the assembly that gives the field of the record.
pub fn assembly_step(plan: &FieldPlan) -> (step: AssemblyStep)
    ensures
        step@ == step_of(plan@),
{
    let rule = match &plan.category {
        FieldCategory::Required(_) => AssemblyRule::RequirePresent,
        FieldCategory::Optional(_) => AssemblyRule::PassThrough,
        FieldCategory::Repeated(_, _) => AssemblyRule::TakeSequence,
    };
    AssemblyStep { field: plan.name.clone(), rule }
}

/// Whether `result` stands for the outcome `outcome`.
pub open spec fn plans_match(
    result: Result<Vec<FieldPlan>, GenerationError>,
    outcome: Result<Seq<FieldPlanModel>, GenerationErrorModel>,
) -> bool {
    match result {
        Ok(plans) => outcome == Ok::<Seq<FieldPlanModel>, GenerationErrorModel>(
            models_of(plans@),
        ),
        Err(error) => outcome == Err::<Seq<FieldPlanModel>, GenerationErrorModel>(error@),
    }
}

/// Whether `result` stands for the outcome `outcome`.
pub open spec fn artifact_matches(
    result: Result<BuilderArtifact, GenerationError>,
    outcome: Result<ArtifactModel, GenerationErrorModel>,
) -> bool {
    match result {
        Ok(artifact) => outcome == Ok::<ArtifactModel, GenerationErrorModel>(artifact@),
        Err(error) => outcome == Err::<ArtifactModel, GenerationErrorModel>(error@),
    }
}

/// Once a prefix of the fields has no plans, neither has the whole record, for
/// the same reason.
pub proof fn lemma_plan_error_stays(fields: Seq<FieldSchemaModel>, n: int)
    requires
        0 <= n <= fields.len(),
        plans_of(fields.take(n)) is Err,
    ensures
        plans_of(fields) == plans_of(fields.take(n)),
    decreases fields.len() - n,
{
    if n == fields.len() {
        assert(fields.take(n) =~= fields);
    } else {
        assert(fields.take(n + 1).drop_last() =~= fields.take(n));
        lemma_plan_error_stays(fields, n + 1);
    }
}

/// The plans are those of the fields, one by one; where a field has none, the
/// error is that of the first such field.
pub proof fn lemma_plans_of(fields: Seq<FieldSchemaModel>)
    ensures
        match plans_of(fields) {
            Ok(plans) => {
                &&& plans.len() == fields.len()
                &&& forall|i: int|
                    0 <= i < fields.len() ==> planned(#[trigger] fields[i]) == Ok::<
                        FieldPlanModel,
                        GenerationErrorModel,
                    >(plans[i])
            },
            Err(error) => exists|k: int|
                {
                    &&& 0 <= k < fields.len()
                    &&& planned(#[trigger] fields[k]) == Err::<
                        FieldPlanModel,
                        GenerationErrorModel,
                    >(error)
                    &&& forall|j: int| 0 <= j < k ==> planned(#[trigger] fields[j]) is Ok
                },
        },
    decreases fields.len(),
{
    if fields.len() > 0 {
        let front = fields.drop_last();
        let last = fields.len() - 1;
        lemma_plans_of(front);
        assert(forall|i: int| 0 <= i < front.len() ==> front[i] == fields[i]);
        match plans_of(front) {
            Err(error) => {
                let k = choose|k: int|
                    {
                        &&& 0 <= k < front.len()
                        &&& planned(#[trigger] front[k]) == Err::<
                            FieldPlanModel,
                            GenerationErrorModel,
                        >(error)
                        &&& forall|j: int| 0 <= j < k ==> planned(#[trigger] front[j]) is Ok
                    };
                assert(fields[k] == front[k]);
                assert forall|j: int| 0 <= j < k implies planned(#[trigger] fields[j]) is Ok by {
                    assert(fields[j] == front[j]);
                }
            },
            Ok(plans) => {
                match planned(fields.last()) {
                    Err(error) => {
                        assert(planned(fields[last]) == Err::<
                            FieldPlanModel,
                            GenerationErrorModel,
                        >(error));
                        assert forall|j: int| 0 <= j < last implies planned(
                            #[trigger] fields[j],
                        ) is Ok by {
                            assert(fields[j] == front[j]);
                        }
                    },
                    Ok(plan) => {
                        let all = plans.push(plan);
                        assert forall|i: int| 0 <= i < fields.len() implies planned(
                            #[trigger] fields[i],
                        ) == Ok::<FieldPlanModel, GenerationErrorModel>(all[i]) by {
                            if i < last {
                                assert(fields[i] == front[i]);
                            }
                        }
                    },
                }
            },
        }
    }
}

/// The setters of each field stand together among the setters of the artifact.
pub proof fn lemma_setters_in_place(plans: Seq<FieldPlanModel>, i: int)
    requires
        0 <= i < plans.len(),
    ensures
        exists|base: int|
            {
                &&& 0 <= base
                &&& base + setters_of(plans[i]).len() <= all_setters(plans).len()
                &&& #[trigger] all_setters(plans).subrange(
                    base,
                    base + setters_of(plans[i]).len(),
                ) == setters_of(plans[i])
            },
    decreases plans.len(),
{
    let front = plans.drop_last();
    let own = setters_of(plans[i]);
    if i < plans.len() - 1 {
        assert(front[i] == plans[i]);
        lemma_setters_in_place(front, i);
        let base = choose|base: int|
            {
                &&& 0 <= base
                &&& base + own.len() <= all_setters(front).len()
                &&& #[trigger] all_setters(front).subrange(base, base + own.len()) == own
            };
        assert(all_setters(plans).subrange(base, base + own.len()) =~= all_setters(
            front,
        ).subrange(base, base + own.len()));
    } else {
        let base = all_setters(front).len() as int;
        assert(all_setters(plans).subrange(base, base + own.len()) =~= own);
    }
}

/// Tells whether the record has the named-field shape.
pub fn has_named_fields(schema: &RecordSchema) -> (named: bool)
    ensures
        named == schema@.has_named_fields(),
{
    if schema.fields.len() == 0 {
        return false;
    }
    let mut i: usize = 0;
    while i < schema.fields.len()
        invariant
            i <= schema.fields.len(),
            forall|j: int| 0 <= j < i ==> (#[trigger] schema@.fields[j]).name is Some,
        decreases schema.fields.len() - i,
    {
        if schema.fields[i].name.is_none() {
            assert(schema@.fields[i as int].name is None);
            return false;
        }
        i += 1;
    }
    true
}

/// Whether the two fields carry the same name; two fields without a name do.
fn same_name(first: &Option<String>, second: &Option<String>) -> (same: bool)
    ensures
        same == (crate::schema::text_of(*first) == crate::schema::text_of(*second)),
{
    match (first, second) {
        (Some(first), Some(second)) => *first == *second,
        (None, None) => true,
        _ => false,
    }
}

/// Tells whether the record is a valid input: it has the named-field shape and
/// no two of its fields share a name.
pub fn is_well_formed(schema: &RecordSchema) -> (valid: bool)
    ensures
        valid == schema@.well_formed(),
{
    if !has_named_fields(schema) {
        return false;
    }
    let fields = &schema.fields;
    let mut j: usize = 0;
    while j < fields.len()
        invariant
            j <= fields.len(),
            *fields == schema.fields,
            forall|a: int, b: int|
                0 <= a < b < j ==> (#[trigger] schema@.fields[a]).name != (
                #[trigger] schema@.fields[b]).name,
        decreases fields.len() - j,
    {
        let mut i: usize = 0;
        while i < j
            invariant
                i <= j < fields.len(),
                *fields == schema.fields,
                forall|a: int|
                    0 <= a < i ==> (#[trigger] schema@.fields[a]).name != schema@.fields[j as int]
                        .name,
            decreases j - i,
        {
            if same_name(&fields[i].name, &fields[j].name) {
                assert(schema@.fields[i as int].name == schema@.fields[j as int].name);
                return false;
            }
            i += 1;
        }
        j += 1;
    }
    true
}

/// Plans every field of the record, in declaration order. The first field that
/// has no plan gives the error.
pub fn plan_fields(schema: &RecordSchema) -> (result: Result<Vec<FieldPlan>, GenerationError>)
    ensures
        plans_match(result, plans_of(schema@.fields)),
{
    let ghost fields = schema@.fields;
    let mut plans: Vec<FieldPlan> = Vec::new();
    let mut i: usize = 0;
    assert(models_of(plans@) =~= Seq::<FieldPlanModel>::empty());
    while i < schema.fields.len()
        invariant
            i <= schema.fields.len(),
            fields == schema@.fields,
            plans_of(fields.take(i as int)) == Ok::<Seq<FieldPlanModel>, GenerationErrorModel>(
                models_of(plans@),
            ),
        decreases schema.fields.len() - i,
    {
        proof {
            assert(fields.take(i + 1).drop_last() =~= fields.take(i as int));
        }
        let ghost before = models_of(plans@);
        match build_plan(&schema.fields[i]) {
            Err(error) => {
                proof {
                    lemma_plan_error_stays(fields, i + 1);
                }
                return Err(error);
            },
            Ok(plan) => {
                plans.push(plan);
                assert(models_of(plans@) =~= before.push(plan@));
            },
        }
        i += 1;
    }
    proof {
        assert(fields.take(i as int) =~= fields);
    }
    Ok(plans)
}

/// Assembles the fragments of the builder from the plans of the record's fields.
pub fn assemble_artifact(record_name: &String, plans: &Vec<FieldPlan>) -> (artifact:
    BuilderArtifact)
    ensures
        artifact@ == artifact_of(record_name@, models_of(plans@)),
{
    let ghost models = models_of(plans@);
    let mut field_declarations: Vec<FieldDeclaration> = Vec::new();
    let mut initializer_entries: Vec<InitializerEntry> = Vec::new();
    let mut setter_definitions: Vec<SetterDefinition> = Vec::new();
    let mut steps: Vec<AssemblyStep> = Vec::new();
    let mut i: usize = 0;
    while i < plans.len()
        invariant
            i <= plans.len(),
            models == models_of(plans@),
            field_declarations@.len() == i,
            initializer_entries@.len() == i,
            steps@.len() == i,
            forall|j: int|
                0 <= j < i ==> (#[trigger] field_declarations@[j])@ == declaration_of(models[j]),
            forall|j: int|
                0 <= j < i ==> (#[trigger] initializer_entries@[j])@ == initializer_of(models[j]),
            forall|j: int| 0 <= j < i ==> (#[trigger] steps@[j])@ == step_of(models[j]),
            models_of(setter_definitions@) == all_setters(models.take(i as int)),
        decreases plans.len() - i,
    {
        let plan = &plans[i];
        proof {
            assert(models.take(i + 1).drop_last() =~= models.take(i as int));
        }
        field_declarations.push(field_declaration(plan));
        initializer_entries.push(initializer_entry(plan));
        steps.push(assembly_step(plan));
        let ghost before = models_of(setter_definitions@);
        let mut setters = self::setter_definitions(plan);
        setter_definitions.append(&mut setters);
        assert(models_of(setter_definitions@) =~= before + setters_of(plan@));
        i += 1;
    }
    let artifact = BuilderArtifact {
        builder_type_name: record_name.clone().concat("Builder"),
        field_declarations,
        initializer_entries,
        setter_definitions,
        assembly_expression: AssemblyExpression { record_name: record_name.clone(), steps },
    };
    proof {
        let target = artifact_of(record_name@, models);
        assert(models.take(i as int) =~= models);
        assert(artifact@.field_declarations =~= target.field_declarations);
        assert(artifact@.initializer_entries =~= target.initializer_entries);
        assert(artifact@.assembly_expression.steps =~= target.assembly_expression.steps);
    }
    artifact
}

/// Synthesizes the builder of a record declaration. There is no partial
/// artifact: any error of a field is the outcome for the whole record.
pub fn synthesize(schema: &RecordSchema) -> (result: Result<BuilderArtifact, GenerationError>)
    ensures
        artifact_matches(result, synthesis(schema@)),
{
    if !has_named_fields(schema) {
        return Err(GenerationError::UnsupportedSchema);
    }
    match plan_fields(schema) {
        Err(error) => Err(error),
        Ok(plans) => Ok(assemble_artifact(&schema.name, &plans)),
    }
}

} // verus!
