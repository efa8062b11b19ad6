//! What holds of every record declaration and of every run of setter calls.

use crate::artifact::{SetterAction, SetterModel};
use crate::builder::{setter_names, BuilderModel, CallModel};
use crate::classify::category_of;
use crate::directive::{each_key, resolved, SettingsModel};
use crate::error::{BuildErrorModel, GenerationErrorModel};
use crate::lookup::position;
use crate::plan::{planned, FieldPlanModel};
use crate::schema::{DirectiveModel, FieldSchemaModel, RecordSchemaModel};
use crate::synth::{
    all_setters, artifact_of, lemma_plans_of, lemma_setters_in_place, plans_of,
    primary_setter_of, setters_of, synthesis,
};
use crate::trace::{
    accumulations, accumulator_name, distinct_fields, field_outcome, is_missing, is_unfilled,
    keeps_shape, last_value, lemma_accumulated_after, lemma_assembly_follows_calls,
    lemma_assembly_reads_slots, lemma_field_follows_calls, lemma_shape_is_kept,
    lemma_unambiguous_reaches, lemma_untouched_slot, reached, record_of, slot_of, unambiguous,
};
use crate::value::{
    ArgumentModel, FieldValueModel, NamedSlotModel, RecordFieldModel, RecordModel, SlotModel,
    ValueModel,
};
use vstd::prelude::*;

verus! {

/// Resolution succeeds exactly when every key is `each`. The setting is then
/// the value of the last directive: a later `each` replaces an earlier one.
pub proof fn law_last_each_wins(directives: Seq<DirectiveModel>)
    ensures
        resolved(directives) is Ok <==> forall|i: int|
            0 <= i < directives.len() ==> (#[trigger] directives[i]).key == each_key(),
        resolved(directives) is Ok ==> resolved(directives)->Ok_0.each == if directives.len()
            == 0 {
            None
        } else {
            Some(directives.last().value)
        },
    decreases directives.len(),
{
    if directives.len() > 0 {
        let front = directives.drop_last();
        law_last_each_wins(front);
        assert(forall|i: int| 0 <= i < front.len() ==> front[i] == directives[i]);
        if resolved(directives) is Ok {
            assert forall|i: int| 0 <= i < directives.len() implies (
            #[trigger] directives[i]).key == each_key() by {
                if i < front.len() {
                    assert(front[i].key == each_key());
                }
            }
        }
        if forall|i: int|
            0 <= i < directives.len() ==> (#[trigger] directives[i]).key == each_key() {
            assert forall|i: int| 0 <= i < front.len() implies (#[trigger] front[i]).key
                == each_key() by {
                assert(directives[i].key == each_key());
            }
            assert(directives[directives.len() - 1].key == each_key());
        }
    }
}

/// Resolution fails with the first key that is not `each`, whatever follows it.
pub proof fn law_first_unrecognized_key(directives: Seq<DirectiveModel>, index: int)
    requires
        0 <= index < directives.len(),
        directives[index].key != each_key(),
        forall|j: int| 0 <= j < index ==> (#[trigger] directives[j]).key == each_key(),
    ensures
        resolved(directives) == Err::<SettingsModel, Seq<char>>(directives[index].key),
    decreases directives.len(),
{
    let front = directives.drop_last();
    assert(forall|i: int| 0 <= i < front.len() ==> front[i] == directives[i]);
    if index == directives.len() - 1 {
        law_last_each_wins(front);
        assert forall|i: int| 0 <= i < front.len() implies (#[trigger] front[i]).key
            == each_key() by {
            assert(directives[i].key == each_key());
        }
    } else {
        assert forall|j: int| 0 <= j < index implies (#[trigger] front[j]).key == each_key() by {
            assert(directives[j].key == each_key());
        }
        law_first_unrecognized_key(front, index);
    }
}

/// On a field that is not repeated an `each` directive is accepted and has no
/// effect: the plan is that of the declared type alone.
pub proof fn law_each_is_unused_elsewhere(field: FieldSchemaModel)
    requires
        field.name is Some,
        resolved(field.directives) is Ok,
        !(category_of(field.declared_type) is Repeated),
    ensures
        planned(field) == Ok::<FieldPlanModel, GenerationErrorModel>(
            FieldPlanModel { name: field.name->Some_0, category: category_of(field.declared_type) },
        ),
{
}

/// Generation succeeds exactly when the record has the named-field shape and
/// every directive of every field has the key `each`. A record without that
/// shape is refused as unsupported, whatever its directives are.
pub proof fn law_generation_outcome(schema: RecordSchemaModel)
    ensures
        synthesis(schema) is Ok <==> schema.has_named_fields() && forall|f: int, d: int|
            0 <= f < schema.fields.len() && 0 <= d < schema.fields[f].directives.len()
                ==> #[trigger] schema.fields[f].directives[d].key == each_key(),
        synthesis(schema) == Err::<crate::artifact::ArtifactModel, GenerationErrorModel>(
            GenerationErrorModel::UnsupportedSchema,
        ) <==> !schema.has_named_fields(),
{
    let fields = schema.fields;
    lemma_plans_of(fields);
    if schema.has_named_fields() {
        match plans_of(fields) {
            Ok(plans) => {
                assert forall|f: int, d: int|
                    0 <= f < fields.len() && 0 <= d < fields[f].directives.len() implies
                    #[trigger] fields[f].directives[d].key == each_key() by {
                    assert(planned(fields[f]) is Ok);
                    law_last_each_wins(fields[f].directives);
                }
            },
            Err(error) => {
                let k = choose|k: int|
                    {
                        &&& 0 <= k < fields.len()
                        &&& planned(#[trigger] fields[k]) == Err::<
                            FieldPlanModel,
                            GenerationErrorModel,
                        >(error)
                        &&& forall|j: int| 0 <= j < k ==> planned(#[trigger] fields[j]) is Ok
                    };
                assert(fields[k].name is Some);
                law_last_each_wins(fields[k].directives);
                assert(resolved(fields[k].directives) is Err);
                let d = choose|d: int|
                    0 <= d < fields[k].directives.len() && (#[trigger] fields[k].directives[d]).key
                        != each_key();
                assert(fields[k].directives[d].key != each_key());
            },
        }
    }
}

/// A directive whose key is not `each` makes generation fail, and the error
/// names that key and the field that carries it. Where several keys are not
/// recognized, the error is that of the first such directive of the first such
/// field.
pub proof fn law_unrecognized_key_is_named(schema: RecordSchemaModel, f: int, d: int)
    requires
        schema.has_named_fields(),
        0 <= f < schema.fields.len(),
        0 <= d < schema.fields[f].directives.len(),
        schema.fields[f].directives[d].key != each_key(),
        forall|e: int| 0 <= e < d ==> (#[trigger] schema.fields[f].directives[e]).key == each_key(),
        forall|g: int, e: int|
            0 <= g < f && 0 <= e < schema.fields[g].directives.len()
                ==> #[trigger] schema.fields[g].directives[e].key == each_key(),
    ensures
        synthesis(schema) == Err::<crate::artifact::ArtifactModel, GenerationErrorModel>(
            GenerationErrorModel::InvalidFieldConfig {
                key: schema.fields[f].directives[d].key,
                field: schema.fields[f].name->Some_0,
            },
        ),
{
    let fields = schema.fields;
    lemma_plans_of(fields);
    law_first_unrecognized_key(fields[f].directives, d);
    assert(fields[f].name is Some);
    assert(planned(fields[f]) is Err);
    assert forall|g: int| 0 <= g < f implies planned(#[trigger] fields[g]) is Ok by {
        assert(fields[g].name is Some);
        law_last_each_wins(fields[g].directives);
        assert forall|e: int| 0 <= e < fields[g].directives.len() implies (
        #[trigger] fields[g].directives[e]).key == each_key() by {
            assert(schema.fields[g].directives[e].key == each_key());
        }
    }
    match plans_of(fields) {
        Ok(plans) => {
            assert(planned(fields[f]) is Ok);
        },
        Err(error) => {
            let k = choose|k: int|
                {
                    &&& 0 <= k < fields.len()
                    &&& planned(#[trigger] fields[k]) == Err::<
                        FieldPlanModel,
                        GenerationErrorModel,
                    >(error)
                    &&& forall|j: int| 0 <= j < k ==> planned(#[trigger] fields[j]) is Ok
                };
            if k < f {
                assert(planned(fields[k]) is Ok);
            }
            if f < k {
                assert(planned(fields[f]) is Ok);
            }
        },
    }
}

/// A repeated field that carries an `each` directive has two setters, one
/// right after the other: the accumulator, named as the last directive says,
/// which takes one element, and then the setter named after the field, which
/// takes a whole sequence.
pub proof fn law_accumulator_is_exposed(schema: RecordSchemaModel, f: int)
    requires
        synthesis(schema) is Ok,
        0 <= f < schema.fields.len(),
        category_of(schema.fields[f].declared_type) is Repeated,
        schema.fields[f].directives.len() > 0,
    ensures
        exists|at: int|
            {
                &&& 0 <= at
                &&& at + 1 < synthesis(schema)->Ok_0.setter_definitions.len()
                &&& #[trigger] synthesis(schema)->Ok_0.setter_definitions[at] == (SetterModel {
                    name: schema.fields[f].directives.last().value,
                    field: schema.fields[f].name->Some_0,
                    action: SetterAction::AppendOne,
                    element_type: category_of(schema.fields[f].declared_type).element_type(),
                })
                &&& synthesis(schema)->Ok_0.setter_definitions[at + 1] == (SetterModel {
                    name: schema.fields[f].name->Some_0,
                    field: schema.fields[f].name->Some_0,
                    action: SetterAction::ReplaceAll,
                    element_type: category_of(schema.fields[f].declared_type).element_type(),
                })
            },
{
    let plans = plans_of(schema.fields)->Ok_0;
    let all = all_setters(plans);
    lemma_plans_of(schema.fields);
    assert(planned(schema.fields[f]) is Ok);
    law_last_each_wins(schema.fields[f].directives);
    lemma_setters_in_place(plans, f);
    let own = setters_of(plans[f]);
    let base = choose|base: int|
        {
            &&& 0 <= base
            &&& base + own.len() <= all.len()
            &&& #[trigger] all.subrange(base, base + own.len()) == own
        };
    assert(own.len() == 2);
    assert(all[base] == all.subrange(base, base + own.len())[0]);
    assert(all[base + 1] == all.subrange(base, base + own.len())[1]);
    let setters = synthesis(schema)->Ok_0.setter_definitions;
    assert(setters == all);
    assert(setters[base] == own[0]);
    assert(setters[base + 1] == own[1]);
}

/// A field that has no accumulator has one setter, named after the field: it
/// overwrites the slot of a required or an optional field, and replaces the
/// sequence of a repeated one.
pub proof fn law_setter_named_after_field(schema: RecordSchemaModel, f: int)
    requires
        synthesis(schema) is Ok,
        0 <= f < schema.fields.len(),
    ensures
        exists|at: int|
            {
                &&& 0 <= at < synthesis(schema)->Ok_0.setter_definitions.len()
                &&& #[trigger] synthesis(schema)->Ok_0.setter_definitions[at] == (SetterModel {
                    name: schema.fields[f].name->Some_0,
                    field: schema.fields[f].name->Some_0,
                    action: if category_of(schema.fields[f].declared_type) is Repeated {
                        SetterAction::ReplaceAll
                    } else {
                        SetterAction::Overwrite
                    },
                    element_type: category_of(schema.fields[f].declared_type).element_type(),
                })
            },
        !(category_of(schema.fields[f].declared_type) is Repeated
            && schema.fields[f].directives.len() > 0) ==> setters_of(
            plans_of(schema.fields)->Ok_0[f],
        ).len() == 1,
{
    let plans = plans_of(schema.fields)->Ok_0;
    let all = all_setters(plans);
    lemma_plans_of(schema.fields);
    assert(planned(schema.fields[f]) is Ok);
    law_last_each_wins(schema.fields[f].directives);
    lemma_setters_in_place(plans, f);
    let own = setters_of(plans[f]);
    let base = choose|base: int|
        {
            &&& 0 <= base
            &&& base + own.len() <= all.len()
            &&& #[trigger] all.subrange(base, base + own.len()) == own
        };
    let at = base + own.len() - 1;
    assert(all[at] == all.subrange(base, base + own.len())[own.len() - 1]);
    let setters = synthesis(schema)->Ok_0.setter_definitions;
    assert(setters == all);
    assert(setters[at] == own[own.len() - 1]);
}

/// The plans of the fields of a record for which generation succeeds.
pub open spec fn plans_for(schema: RecordSchemaModel) -> Seq<FieldPlanModel> {
    plans_of(schema.fields)->Ok_0
}

/// A builder of the record, fresh and then taken through the calls in order.
pub open spec fn builder_after(schema: RecordSchemaModel, calls: Seq<CallModel>) -> BuilderModel {
    BuilderModel::fresh(synthesis(schema)->Ok_0).after_calls(calls)
}

/// Whether the call supplies one value through the setter named `name`.
pub open spec fn supplies(call: CallModel, name: Seq<char>) -> bool {
    call.setter == name && call.argument is One
}

/// Where generation succeeds, the artifact is that of the plans of the fields,
/// one plan for each field in declaration order.
pub proof fn law_artifact_follows_plans(schema: RecordSchemaModel)
    requires
        synthesis(schema) is Ok,
    ensures
        synthesis(schema)->Ok_0 == artifact_of(schema.name, plans_for(schema)),
        plans_for(schema).len() == schema.fields.len(),
        forall|i: int|
            0 <= i < schema.fields.len() ==> planned(#[trigger] schema.fields[i]) == Ok::<
                FieldPlanModel,
                GenerationErrorModel,
            >(plans_for(schema)[i]),
{
    lemma_plans_of(schema.fields);
}

/// The value read for a setter is the one of its latest call with one value:
/// there is none exactly when no call supplied one.
pub proof fn law_latest_value(name: Seq<char>, calls: Seq<CallModel>)
    ensures
        match last_value(name, calls) {
            None => forall|k: int| 0 <= k < calls.len() ==> !supplies(#[trigger] calls[k], name),
            Some(value) => exists|k: int|
                {
                    &&& 0 <= k < calls.len()
                    &&& (#[trigger] calls[k]).setter == name
                    &&& calls[k].argument == ArgumentModel::One(value)
                    &&& forall|later: int|
                        k < later < calls.len() ==> !supplies(#[trigger] calls[later], name)
                },
        },
    decreases calls.len(),
{
    if calls.len() > 0 {
        let front = calls.drop_last();
        let last = calls.len() - 1;
        law_latest_value(name, front);
        assert(forall|k: int| 0 <= k < front.len() ==> front[k] == calls[k]);
        if supplies(calls[last], name) {
            assert(calls[last].argument == ArgumentModel::One(last_value(name, calls)->Some_0));
        } else {
            match last_value(name, front) {
                None => {
                    assert forall|k: int| 0 <= k < calls.len() implies !supplies(
                        #[trigger] calls[k],
                        name,
                    ) by {
                        if k < last {
                            assert(!supplies(front[k], name));
                        }
                    }
                },
                Some(value) => {
                    let k = choose|k: int|
                        {
                            &&& 0 <= k < front.len()
                            &&& (#[trigger] front[k]).setter == name
                            &&& front[k].argument == ArgumentModel::One(value)
                            &&& forall|later: int|
                                k < later < front.len() ==> !supplies(#[trigger] front[later], name)
                        };
                    assert(calls[k] == front[k]);
                    assert forall|later: int| k < later < calls.len() implies !supplies(
                        #[trigger] calls[later],
                        name,
                    ) by {
                        if later < last {
                            assert(!supplies(front[later], name));
                        }
                    }
                },
            }
        }
    }
}

/// In a well-formed record for which generation succeeds, the planned fields
/// carry the names of the declared fields, which differ from one another.
pub proof fn lemma_planned_names(schema: RecordSchemaModel)
    requires
        schema.well_formed(),
        synthesis(schema) is Ok,
    ensures
        distinct_fields(plans_for(schema)),
        plans_for(schema).len() == schema.fields.len(),
        forall|i: int|
            0 <= i < schema.fields.len() ==> {
                &&& (#[trigger] plans_for(schema)[i]).name == schema.fields[i].name->Some_0
                &&& plans_for(schema)[i].category.same_kind(
                    category_of(schema.fields[i].declared_type),
                )
                &&& plans_for(schema)[i].category.element_type() == category_of(
                    schema.fields[i].declared_type,
                ).element_type()
            },
{
    let fields = schema.fields;
    let plans = plans_for(schema);
    law_artifact_follows_plans(schema);
    assert forall|i: int| 0 <= i < fields.len() implies {
        &&& (#[trigger] plans[i]).name == fields[i].name->Some_0
        &&& plans[i].category.same_kind(category_of(fields[i].declared_type))
        &&& plans[i].category.element_type() == category_of(
            fields[i].declared_type,
        ).element_type()
    } by {
        assert(planned(fields[i]) is Ok);
    }
    assert forall|i: int, j: int|
        0 <= i < plans.len() && 0 <= j < plans.len() && i != j implies (
    #[trigger] plans[i]).name != (#[trigger] plans[j]).name by {
        if i < j {
            assert(fields[i].name != fields[j].name);
        } else {
            assert(fields[j].name != fields[i].name);
        }
    }
}

/// What a builder assembles from what it holds, after any run of calls. The
/// assembly fails exactly when the slot of a required field holds nothing, and
/// the error then names the first such field in declaration order: neither an
/// optional nor a repeated field ever makes it fail. Else the record has one
/// field for each declared field, in declaration order and under its name.
pub proof fn law_only_required_fields_fail(schema: RecordSchemaModel, calls: Seq<CallModel>)
    requires
        schema.well_formed(),
        synthesis(schema) is Ok,
    ensures
        keeps_shape(plans_for(schema), builder_after(schema, calls).slots),
        match builder_after(schema, calls).assembled() {
            Ok(record) => {
                &&& record.record_name == schema.name
                &&& record.fields.len() == schema.fields.len()
                &&& forall|i: int|
                    0 <= i < schema.fields.len() ==> {
                        &&& !is_unfilled(
                            #[trigger] plans_for(schema)[i],
                            builder_after(schema, calls).slots[i].slot,
                        )
                        &&& record.fields[i].name == schema.fields[i].name->Some_0
                    }
            },
            Err(error) => exists|k: int|
                {
                    &&& 0 <= k < schema.fields.len()
                    &&& is_unfilled(
                        #[trigger] plans_for(schema)[k],
                        builder_after(schema, calls).slots[k].slot,
                    )
                    &&& forall|j: int|
                        0 <= j < k ==> !is_unfilled(
                            #[trigger] plans_for(schema)[j],
                            builder_after(schema, calls).slots[j].slot,
                        )
                    &&& error == BuildErrorModel::MissingRequiredField(
                        schema.fields[k].name->Some_0,
                    )
                },
        },
{
    lemma_planned_names(schema);
    law_artifact_follows_plans(schema);
    lemma_shape_is_kept(schema.name, plans_for(schema), calls);
    lemma_assembly_reads_slots(schema.name, plans_for(schema), builder_after(schema, calls));
}

/// What a builder holds for a field after any run of calls, where the field's
/// setters are reached by their names: a slot holds the value of the latest
/// call of the field's setter, a sequence holds what the replacements and
/// accumulations left, in call order.
pub proof fn law_builder_state(schema: RecordSchemaModel, calls: Seq<CallModel>, f: int)
    requires
        schema.well_formed(),
        synthesis(schema) is Ok,
        0 <= f < schema.fields.len(),
        reached(plans_for(schema), f),
    ensures
        builder_after(schema, calls).slots.len() == schema.fields.len(),
        builder_after(schema, calls).slots[f] == (NamedSlotModel {
            name: schema.fields[f].name->Some_0,
            slot: slot_of(plans_for(schema)[f], calls),
        }),
{
    lemma_planned_names(schema);
    law_artifact_follows_plans(schema);
    lemma_shape_is_kept(schema.name, plans_for(schema), calls);
    lemma_field_follows_calls(schema.name, plans_for(schema), calls, f);
}

/// A field of an assembled record holds what the calls amount to for it,
/// where the field's setters are reached by their names: a required field the
/// value last supplied, an optional field the value last supplied or nothing,
/// a repeated field what the replacements and accumulations left.
pub proof fn law_field_of_record(schema: RecordSchemaModel, calls: Seq<CallModel>, f: int)
    requires
        schema.well_formed(),
        synthesis(schema) is Ok,
        0 <= f < schema.fields.len(),
        reached(plans_for(schema), f),
    ensures
        builder_after(schema, calls).assembled() matches Ok(record) ==> {
            &&& field_outcome(plans_for(schema)[f], calls) is Some
            &&& record.fields[f] == (RecordFieldModel {
                name: schema.fields[f].name->Some_0,
                value: field_outcome(plans_for(schema)[f], calls)->Some_0,
            })
        },
{
    let plans = plans_for(schema);
    lemma_planned_names(schema);
    law_artifact_follows_plans(schema);
    law_builder_state(schema, calls, f);
    lemma_shape_is_kept(schema.name, plans, calls);
    lemma_assembly_reads_slots(schema.name, plans, builder_after(schema, calls));
}

/// What a builder assembles after any run of calls, where every setter is
/// reached by its name. The assembly succeeds exactly when a value was supplied
/// for every required field, and the record then holds, in declaration order,
/// what the calls amount to for each field. Else the error names the first
/// required field, in declaration order, for which no value was supplied.
pub proof fn law_build_outcome(schema: RecordSchemaModel, calls: Seq<CallModel>)
    requires
        schema.well_formed(),
        synthesis(schema) is Ok,
        forall|f: int| 0 <= f < schema.fields.len() ==> reached(plans_for(schema), f),
    ensures
        match builder_after(schema, calls).assembled() {
            Ok(record) => {
                &&& forall|i: int|
                    0 <= i < plans_for(schema).len() ==> !is_missing(
                        #[trigger] plans_for(schema)[i],
                        calls,
                    )
                &&& record == record_of(schema.name, plans_for(schema), calls)
            },
            Err(error) => exists|k: int|
                {
                    &&& 0 <= k < plans_for(schema).len()
                    &&& is_missing(#[trigger] plans_for(schema)[k], calls)
                    &&& forall|j: int|
                        0 <= j < k ==> !is_missing(#[trigger] plans_for(schema)[j], calls)
                    &&& error == BuildErrorModel::MissingRequiredField(plans_for(schema)[k].name)
                },
        },
{
    lemma_planned_names(schema);
    law_artifact_follows_plans(schema);
    lemma_assembly_follows_calls(schema.name, plans_for(schema), calls);
}

/// A record whose fields are all required: the assembly succeeds exactly when
/// every field's setter was called at least once with a value, and each field
/// of the record then equals the value most recently supplied for it.
pub proof fn law_required_fields(schema: RecordSchemaModel, calls: Seq<CallModel>)
    requires
        schema.well_formed(),
        synthesis(schema) is Ok,
        forall|i: int|
            0 <= i < schema.fields.len() ==> category_of(
                (#[trigger] schema.fields[i]).declared_type,
            ) is Required,
    ensures
        builder_after(schema, calls).assembled() is Ok <==> forall|i: int|
            0 <= i < schema.fields.len() ==> exists|k: int|
                0 <= k < calls.len() && supplies(
                    #[trigger] calls[k],
                    (#[trigger] schema.fields[i]).name->Some_0,
                ),
        builder_after(schema, calls).assembled() matches Ok(record) ==> {
            &&& record.record_name == schema.name
            &&& record.fields.len() == schema.fields.len()
            &&& forall|i: int|
                0 <= i < schema.fields.len() ==> #[trigger] record.fields[i] == (RecordFieldModel {
                    name: schema.fields[i].name->Some_0,
                    value: FieldValueModel::Required(
                        last_value(schema.fields[i].name->Some_0, calls)->Some_0,
                    ),
                })
        },
{
    let fields = schema.fields;
    let plans = plans_for(schema);
    lemma_planned_names(schema);
    assert(unambiguous(plans));
    assert forall|f: int| 0 <= f < fields.len() implies reached(plans, f) by {
        lemma_unambiguous_reaches(plans, f);
    }
    law_build_outcome(schema, calls);
    assert forall|i: int| 0 <= i < fields.len() implies (is_missing(#[trigger] plans[i], calls)
        <==> !exists|k: int|
        0 <= k < calls.len() && supplies(#[trigger] calls[k], fields[i].name->Some_0)) by {
        law_latest_value(plans[i].name, calls);
        if last_value(plans[i].name, calls) is Some {
            let k = choose|k: int|
                {
                    &&& 0 <= k < calls.len()
                    &&& (#[trigger] calls[k]).setter == plans[i].name
                    &&& calls[k].argument == ArgumentModel::One(
                        last_value(plans[i].name, calls)->Some_0,
                    )
                };
            assert(supplies(calls[k], fields[i].name->Some_0));
        }
    }
    match builder_after(schema, calls).assembled() {
        Ok(record) => {
            assert forall|i: int| 0 <= i < fields.len() implies exists|k: int|
                0 <= k < calls.len() && supplies(
                    #[trigger] calls[k],
                    (#[trigger] fields[i]).name->Some_0,
                ) by {
                assert(!is_missing(plans[i], calls));
            }
        },
        Err(error) => {
            let missing = choose|k: int|
                0 <= k < plans.len() && is_missing(#[trigger] plans[k], calls);
            let name = fields[missing].name->Some_0;
            assert(!exists|k: int| 0 <= k < calls.len() && supplies(#[trigger] calls[k], name));
        },
    }
}

/// A record without required fields: the assembly succeeds after any run of
/// calls, also after none.
pub proof fn law_nothing_required_never_fails(schema: RecordSchemaModel, calls: Seq<CallModel>)
    requires
        schema.well_formed(),
        synthesis(schema) is Ok,
        forall|i: int|
            0 <= i < schema.fields.len() ==> !(category_of(
                (#[trigger] schema.fields[i]).declared_type,
            ) is Required),
    ensures
        builder_after(schema, calls).assembled() is Ok,
{
    let plans = plans_for(schema);
    lemma_planned_names(schema);
    law_only_required_fields_fail(schema, calls);
    if builder_after(schema, calls).assembled() is Err {
        let k = choose|k: int|
            0 <= k < schema.fields.len() && is_unfilled(
                #[trigger] plans[k],
                builder_after(schema, calls).slots[k].slot,
            );
        assert(!(category_of(schema.fields[k].declared_type) is Required));
    }
}

/// An optional field never makes the assembly fail, whether or not its setter
/// was ever called. Where the assembly succeeds and no call was one of the
/// field's setter, the field of the record is absent.
pub proof fn law_optional_field(schema: RecordSchemaModel, calls: Seq<CallModel>, f: int)
    requires
        schema.well_formed(),
        synthesis(schema) is Ok,
        0 <= f < schema.fields.len(),
        category_of(schema.fields[f].declared_type) is Optional,
    ensures
        builder_after(schema, calls).assembled() != Err::<RecordModel, BuildErrorModel>(
            BuildErrorModel::MissingRequiredField(schema.fields[f].name->Some_0),
        ),
        builder_after(schema, calls).assembled() matches Ok(record) ==> ((forall|k: int|
            0 <= k < calls.len() ==> (#[trigger] calls[k]).setter != schema.fields[f].name->Some_0)
            ==> record.fields[f] == (RecordFieldModel {
            name: schema.fields[f].name->Some_0,
            value: FieldValueModel::Optional(None),
        })),
{
    let plans = plans_for(schema);
    let name = schema.fields[f].name->Some_0;
    lemma_planned_names(schema);
    law_artifact_follows_plans(schema);
    law_only_required_fields_fail(schema, calls);
    let after = builder_after(schema, calls);
    if after.assembled() is Err {
        let k = choose|k: int|
            {
                &&& 0 <= k < schema.fields.len()
                &&& is_unfilled(#[trigger] plans[k], after.slots[k].slot)
                &&& after.assembled() == Err::<RecordModel, BuildErrorModel>(
                    BuildErrorModel::MissingRequiredField(schema.fields[k].name->Some_0),
                )
            };
        if k != f {
            assert(plans[k].name != plans[f].name);
        }
    }
    if forall|k: int| 0 <= k < calls.len() ==> (#[trigger] calls[k]).setter != name {
        lemma_untouched_slot(schema.name, plans, calls, f);
        lemma_shape_is_kept(schema.name, plans, calls);
        lemma_assembly_reads_slots(schema.name, plans, after);
    }
}

/// A repeated field on which only the accumulator is called holds the values
/// of those calls, in call order.
pub proof fn law_accumulated_in_order(schema: RecordSchemaModel, f: int, values: Seq<ValueModel>)
    requires
        schema.well_formed(),
        synthesis(schema) is Ok,
        0 <= f < schema.fields.len(),
        reached(plans_for(schema), f),
        accumulator_name(plans_for(schema)[f]) is Some,
    ensures
        builder_after(
            schema,
            accumulations(accumulator_name(plans_for(schema)[f])->Some_0, values),
        ).slots[f].slot == SlotModel::Many(values),
{
    lemma_planned_names(schema);
    let plans = plans_for(schema);
    let plan = plans[f];
    let accumulator = accumulator_name(plan)->Some_0;
    assert(accumulator != plan.name) by {
        if accumulator == plan.name {
            assert(primary_setter_of(plan).action != SetterAction::AppendOne);
        }
    }
    let calls = accumulations(accumulator, values);
    law_builder_state(schema, calls, f);
    lemma_accumulated_after(plan.name, accumulator, Seq::empty(), values);
    assert(Seq::<CallModel>::empty() + calls =~= calls);
    assert(Seq::<ValueModel>::empty() + values =~= values);
}

/// A call of the setter named after a repeated field replaces what the field
/// held: what was accumulated before is discarded, not merged.
pub proof fn law_replacement_discards(
    schema: RecordSchemaModel,
    calls: Seq<CallModel>,
    f: int,
    values: Seq<ValueModel>,
)
    requires
        schema.well_formed(),
        synthesis(schema) is Ok,
        0 <= f < schema.fields.len(),
        reached(plans_for(schema), f),
        category_of(schema.fields[f].declared_type) is Repeated,
    ensures
        builder_after(
            schema,
            calls.push(
                CallModel {
                    setter: schema.fields[f].name->Some_0,
                    argument: ArgumentModel::Many(values),
                },
            ),
        ).slots[f].slot == SlotModel::Many(values),
{
    let call = CallModel {
        setter: schema.fields[f].name->Some_0,
        argument: ArgumentModel::Many(values),
    };
    lemma_planned_names(schema);
    law_builder_state(schema, calls.push(call), f);
    assert(calls.push(call).last() == call);
}

/// Replacement and accumulation in turn: after any calls, a replacement
/// followed by accumulations leaves the sequence of the replacement followed
/// by the accumulated values, in call order.
pub proof fn law_accumulated_after_replacement(
    schema: RecordSchemaModel,
    before: Seq<CallModel>,
    f: int,
    replacement: Seq<ValueModel>,
    values: Seq<ValueModel>,
)
    requires
        schema.well_formed(),
        synthesis(schema) is Ok,
        0 <= f < schema.fields.len(),
        reached(plans_for(schema), f),
        accumulator_name(plans_for(schema)[f]) is Some,
    ensures
        builder_after(
            schema,
            before.push(
                CallModel {
                    setter: schema.fields[f].name->Some_0,
                    argument: ArgumentModel::Many(replacement),
                },
            ) + accumulations(accumulator_name(plans_for(schema)[f])->Some_0, values),
        ).slots[f].slot == SlotModel::Many(replacement + values),
{
    lemma_planned_names(schema);
    let plan = plans_for(schema)[f];
    let accumulator = accumulator_name(plan)->Some_0;
    let replace = CallModel { setter: plan.name, argument: ArgumentModel::Many(replacement) };
    assert(accumulator != plan.name) by {
        if accumulator == plan.name {
            assert(primary_setter_of(plan).action != SetterAction::AppendOne);
        }
    }
    let calls = before.push(replace) + accumulations(accumulator, values);
    law_builder_state(schema, calls, f);
    lemma_accumulated_after(plan.name, accumulator, before.push(replace), values);
    assert(before.push(replace).last() == replace);
}

/// Where no two setters of a record share a name, every setter is reached by
/// its name.
pub proof fn law_distinct_setters_are_reached(schema: RecordSchemaModel, f: int)
    requires
        synthesis(schema) is Ok,
        unambiguous(plans_for(schema)),
        0 <= f < schema.fields.len(),
    ensures
        reached(plans_for(schema), f),
{
    law_artifact_follows_plans(schema);
    lemma_unambiguous_reaches(plans_for(schema), f);
}

/// Last write wins: two calls in a row of a setter that is no accumulator leave
/// the builder as the second call alone does.
pub proof fn law_last_write_wins(
    builder: BuilderModel,
    setter: Seq<char>,
    first: ArgumentModel,
    second: ArgumentModel,
)
    requires
        position(setter_names(builder.artifact.setter_definitions), setter) matches Some(which)
            ==> builder.artifact.setter_definitions[which].action != SetterAction::AppendOne,
        first is One <==> second is One,
    ensures
        builder.after_call(setter, first).after_call(setter, second) == builder.after_call(
            setter,
            second,
        ),
{
    let setters = builder.artifact.setter_definitions;
    match position(setter_names(setters), setter) {
        None => {},
        Some(which) => {
            let names = crate::builder::slot_names(builder.slots);
            match position(names, setters[which].field) {
                None => {},
                Some(place) => {
                    crate::lookup::lemma_position(names, setters[which].field);
                    let once = builder.after_call(setter, first);
                    assert(crate::builder::slot_names(once.slots) =~= names);
                    assert(once.after_call(setter, second).slots =~= builder.after_call(
                        setter,
                        second,
                    ).slots);
                },
            }
        },
    }
}

} // verus!
