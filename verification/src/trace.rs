//! What a run of setter calls amounts to, field by field.
//!
//! The functions here say what each field of a builder holds after a run of
//! calls, without going through the builder: they read the calls alone. The
//! lemmas show that a fresh builder of a synthesized artifact holds exactly
//! that for every field whose setters are reached by their names, and that it
//! keeps its shape whatever is called.

use crate::artifact::SetterModel;
use crate::builder::{
    assembled_fields, field_read, lemma_assembled_fields, setter_names, slot_names, slots_after,
    step_value, BuilderModel, CallModel,
};
use crate::classify::CategoryModel;
use crate::error::BuildErrorModel;
use crate::lookup::{lemma_position, lemma_position_distinct, position};
use crate::plan::FieldPlanModel;
use crate::synth::{
    accumulator_of, all_setters, artifact_of, primary_setter_of, setters_of, step_of,
};
use crate::value::{
    ArgumentModel, FieldValueModel, NamedSlotModel, RecordFieldModel, RecordModel, SlotModel,
    ValueModel,
};
use vstd::prelude::*;

verus! {

/// The name of the accumulator setter of a field, if it has one.
pub open spec fn accumulator_name(plan: FieldPlanModel) -> Option<Seq<char>> {
    match plan.category {
        CategoryModel::Repeated(_, name) => name,
        _ => None,
    }
}

/// The fields' names differ from one another.
pub open spec fn distinct_fields(plans: Seq<FieldPlanModel>) -> bool {
    forall|i: int, j: int|
        0 <= i < plans.len() && 0 <= j < plans.len() && i != j ==> (#[trigger] plans[i]).name != (
        #[trigger] plans[j]).name
}

/// No two setters of the fields share a name: the fields' names differ from
/// one another, and each accumulator's name differs from every field's name and
/// from every other accumulator's.
pub open spec fn unambiguous(plans: Seq<FieldPlanModel>) -> bool {
    &&& distinct_fields(plans)
    &&& forall|i: int, j: int|
        0 <= i < plans.len() && 0 <= j < plans.len() ==> accumulator_name(#[trigger] plans[i])
            != Some((#[trigger] plans[j]).name)
    &&& forall|i: int, j: int|
        0 <= i < plans.len() && 0 <= j < plans.len() && i != j && accumulator_name(
            #[trigger] plans[i],
        ) is Some ==> accumulator_name(plans[i]) != accumulator_name(#[trigger] plans[j])
}

/// The setters of the field at `f` are reached by their names: the first
/// setter that carries the field's name is the one named after the field, and
/// the first that carries the accumulator's name is the accumulator.
pub open spec fn reached(plans: Seq<FieldPlanModel>, f: int) -> bool {
    let all = all_setters(plans);
    let names = setter_names(all);
    &&& position(names, plans[f].name) matches Some(which) && all[which] == primary_setter_of(
        plans[f],
    )
    &&& accumulator_name(plans[f]) matches Some(name) ==> (position(names, name) matches Some(
        which,
    ) && all[which] == accumulator_of(plans[f], name))
}

/// The builder holds one slot for each field, under the field's name, and a
/// sequence exactly for the repeated fields.
pub open spec fn keeps_shape(plans: Seq<FieldPlanModel>, slots: Seq<NamedSlotModel>) -> bool {
    &&& slots.len() == plans.len()
    &&& forall|i: int|
        0 <= i < plans.len() ==> {
            &&& (#[trigger] slots[i]).name == plans[i].name
            &&& slots[i].slot is Many <==> plans[i].category is Repeated
        }
}

/// The value that the latest call of the setter `name` with one value supplied,
/// if there was such a call.
pub open spec fn last_value(name: Seq<char>, calls: Seq<CallModel>) -> Option<ValueModel>
    decreases calls.len(),
{
    if calls.len() == 0 {
        None
    } else {
        match calls.last().argument {
            ArgumentModel::One(value) if calls.last().setter == name => Some(value),
            _ => last_value(name, calls.drop_last()),
        }
    }
}

/// The sequence that the calls leave in a repeated field named `name` whose
/// accumulator, if any, is named `accumulator`: a call of `name` with a
/// sequence replaces what was there, a call of the accumulator with one value
/// appends it, and every other call leaves it alone.
pub open spec fn sequence_of(
    name: Seq<char>,
    accumulator: Option<Seq<char>>,
    calls: Seq<CallModel>,
) -> Seq<ValueModel>
    decreases calls.len(),
{
    if calls.len() == 0 {
        Seq::empty()
    } else {
        let before = sequence_of(name, accumulator, calls.drop_last());
        match calls.last().argument {
            ArgumentModel::Many(values) if calls.last().setter == name => values,
            ArgumentModel::One(value) if accumulator == Some(calls.last().setter) => before.push(
                value,
            ),
            _ => before,
        }
    }
}

/// What the field of a plan holds after the calls.
pub open spec fn slot_of(plan: FieldPlanModel, calls: Seq<CallModel>) -> SlotModel {
    match plan.category {
        CategoryModel::Repeated(_, accumulator) => SlotModel::Many(
            sequence_of(plan.name, accumulator, calls),
        ),
        _ => SlotModel::Single(last_value(plan.name, calls)),
    }
}

/// What a builder of the planned fields holds after the calls.
pub open spec fn slots_of(plans: Seq<FieldPlanModel>, calls: Seq<CallModel>) -> Seq<
    NamedSlotModel,
> {
    plans.map_values(
        |plan: FieldPlanModel| NamedSlotModel { name: plan.name, slot: slot_of(plan, calls) },
    )
}

/// Whether `setter` is one of the setters of the field of `plan`.
pub open spec fn belongs_to(setter: SetterModel, plan: FieldPlanModel) -> bool {
    ||| setter == primary_setter_of(plan)
    ||| accumulator_name(plan) matches Some(name) && setter == accumulator_of(plan, name)
}

/// Every setter of the artifact belongs to one of the fields.
pub proof fn lemma_setters_belong(plans: Seq<FieldPlanModel>, which: int)
    requires
        0 <= which < all_setters(plans).len(),
    ensures
        exists|i: int|
            0 <= i < plans.len() && belongs_to(all_setters(plans)[which], #[trigger] plans[i]),
    decreases plans.len(),
{
    let front = plans.drop_last();
    if which < all_setters(front).len() {
        lemma_setters_belong(front, which);
        let i = choose|i: int|
            0 <= i < front.len() && belongs_to(all_setters(front)[which], #[trigger] front[i]);
        assert(plans[i] == front[i]);
    } else {
        let last = plans.len() - 1;
        assert(belongs_to(all_setters(plans)[which], plans[last]));
    }
}

/// Every setter of every field is among the setters of the artifact.
pub proof fn lemma_setters_present(plans: Seq<FieldPlanModel>, i: int, setter: SetterModel)
    requires
        0 <= i < plans.len(),
        belongs_to(setter, plans[i]),
    ensures
        exists|which: int|
            0 <= which < all_setters(plans).len() && #[trigger] all_setters(plans)[which]
                == setter,
    decreases plans.len(),
{
    let front = plans.drop_last();
    let own = setters_of(plans.last());
    if i < plans.len() - 1 {
        assert(front[i] == plans[i]);
        lemma_setters_present(front, i, setter);
        let which = choose|which: int|
            0 <= which < all_setters(front).len() && #[trigger] all_setters(front)[which]
                == setter;
        assert(all_setters(plans)[which] == setter);
    } else {
        let base = all_setters(front).len() as int;
        if setter == primary_setter_of(plans[i]) {
            let which = base + own.len() - 1;
            assert(all_setters(plans)[which] == own[own.len() - 1]);
        } else {
            assert(all_setters(plans)[base] == own[0]);
        }
    }
}

/// Which setter a name calls: none, where the name is that of no field and of
/// no accumulator; else a setter of that name that belongs to one of the
/// fields.
pub proof fn lemma_setter_called(plans: Seq<FieldPlanModel>, name: Seq<char>)
    ensures
        match position(setter_names(all_setters(plans)), name) {
            None => forall|i: int|
                0 <= i < plans.len() ==> (#[trigger] plans[i]).name != name && accumulator_name(
                    plans[i],
                ) != Some(name),
            Some(which) => {
                &&& 0 <= which < all_setters(plans).len()
                &&& all_setters(plans)[which].name == name
                &&& exists|i: int|
                    0 <= i < plans.len() && belongs_to(
                        all_setters(plans)[which],
                        #[trigger] plans[i],
                    )
            },
        },
{
    let all = all_setters(plans);
    let names = setter_names(all);
    lemma_position(names, name);
    match position(names, name) {
        None => {
            assert forall|i: int| 0 <= i < plans.len() implies (#[trigger] plans[i]).name != name
                && accumulator_name(plans[i]) != Some(name) by {
                lemma_setters_present(plans, i, primary_setter_of(plans[i]));
                let which = choose|which: int|
                    0 <= which < all.len() && #[trigger] all[which] == primary_setter_of(plans[i]);
                assert(names[which] == plans[i].name);
                if accumulator_name(plans[i]) == Some(name) {
                    lemma_setters_present(plans, i, accumulator_of(plans[i], name));
                    let other = choose|other: int|
                        0 <= other < all.len() && #[trigger] all[other] == accumulator_of(
                            plans[i],
                            name,
                        );
                    assert(names[other] == name);
                }
            }
        },
        Some(which) => {
            assert(names[which] == all[which].name);
            lemma_setters_belong(plans, which);
        },
    }
}

/// Where no two setters share a name, the setters of every field are reached
/// by their names.
pub proof fn lemma_unambiguous_reaches(plans: Seq<FieldPlanModel>, f: int)
    requires
        unambiguous(plans),
        0 <= f < plans.len(),
    ensures
        reached(plans, f),
{
    let all = all_setters(plans);
    lemma_setter_called(plans, plans[f].name);
    match position(setter_names(all), plans[f].name) {
        None => {},
        Some(which) => {
            let i = choose|i: int|
                0 <= i < plans.len() && belongs_to(all[which], #[trigger] plans[i]);
            assert(accumulator_name(plans[i]) != Some(plans[f].name));
        },
    }
    match accumulator_name(plans[f]) {
        None => {},
        Some(name) => {
            lemma_setter_called(plans, name);
            match position(setter_names(all), name) {
                None => {},
                Some(which) => {
                    let i = choose|i: int|
                        0 <= i < plans.len() && belongs_to(all[which], #[trigger] plans[i]);
                    assert(accumulator_name(plans[f]) != Some(plans[i].name));
                },
            }
        },
    }
}

/// A call keeps the shape of what the builder holds, whatever it is a call of.
pub proof fn lemma_call_keeps_shape(
    plans: Seq<FieldPlanModel>,
    slots: Seq<NamedSlotModel>,
    call: CallModel,
)
    requires
        keeps_shape(plans, slots),
    ensures
        keeps_shape(
            plans,
            slots_after(all_setters(plans), slots, call.setter, call.argument),
        ),
{
    let all = all_setters(plans);
    lemma_position(setter_names(all), call.setter);
    match position(setter_names(all), call.setter) {
        None => {},
        Some(which) => {
            lemma_position(slot_names(slots), all[which].field);
        },
    }
}

/// A builder keeps its shape through every run of calls.
pub proof fn lemma_shape_is_kept(
    record_name: Seq<char>,
    plans: Seq<FieldPlanModel>,
    calls: Seq<CallModel>,
)
    ensures
        BuilderModel::fresh(artifact_of(record_name, plans)).after_calls(calls).artifact
            == artifact_of(record_name, plans),
        keeps_shape(
            plans,
            BuilderModel::fresh(artifact_of(record_name, plans)).after_calls(calls).slots,
        ),
    decreases calls.len(),
{
    if calls.len() > 0 {
        lemma_shape_is_kept(record_name, plans, calls.drop_last());
        lemma_call_keeps_shape(
            plans,
            BuilderModel::fresh(artifact_of(record_name, plans)).after_calls(
                calls.drop_last(),
            ).slots,
            calls.last(),
        );
    }
}

/// One more call changes what the builder holds for a field as it changes what
/// the calls amount to for that field, where the field's setters are reached
/// by their names.
pub proof fn lemma_field_step(
    plans: Seq<FieldPlanModel>,
    slots: Seq<NamedSlotModel>,
    calls: Seq<CallModel>,
    call: CallModel,
    f: int,
)
    requires
        distinct_fields(plans),
        0 <= f < plans.len(),
        reached(plans, f),
        keeps_shape(plans, slots),
        slots[f].slot == slot_of(plans[f], calls),
    ensures
        slots_after(all_setters(plans), slots, call.setter, call.argument)[f].slot == slot_of(
            plans[f],
            calls.push(call),
        ),
{
    let all = all_setters(plans);
    assert(calls.push(call).drop_last() =~= calls);
    assert(calls.push(call).last() == call);
    lemma_position(setter_names(all), call.setter);
    match position(setter_names(all), call.setter) {
        None => {},
        Some(which) => {
            lemma_setters_belong(plans, which);
            let i = choose|i: int|
                0 <= i < plans.len() && belongs_to(all[which], #[trigger] plans[i]);
            let names = slot_names(slots);
            assert(names[i] == plans[i].name);
            assert(crate::lookup::distinct(names)) by {
                assert forall|a: int, b: int| 0 <= a < b < names.len() implies names[a]
                    != names[b] by {
                    assert(names[a] == slots[a].name);
                    assert(names[b] == slots[b].name);
                }
            }
            lemma_position_distinct(names, plans[i].name, i);
            assert(all[which].field == plans[i].name);
            assert(setter_names(all)[which] == all[which].name);
        },
    }
}

/// What a fresh builder holds for a field after any run of calls is what the
/// calls amount to for that field, where the fields' names differ and the
/// field's setters are reached by their names.
pub proof fn lemma_field_follows_calls(
    record_name: Seq<char>,
    plans: Seq<FieldPlanModel>,
    calls: Seq<CallModel>,
    f: int,
)
    requires
        distinct_fields(plans),
        0 <= f < plans.len(),
        reached(plans, f),
    ensures
        BuilderModel::fresh(artifact_of(record_name, plans)).after_calls(calls).slots[f] == (
        NamedSlotModel { name: plans[f].name, slot: slot_of(plans[f], calls) }),
    decreases calls.len(),
{
    let fresh = BuilderModel::fresh(artifact_of(record_name, plans));
    lemma_shape_is_kept(record_name, plans, calls);
    if calls.len() > 0 {
        let front = calls.drop_last();
        lemma_shape_is_kept(record_name, plans, front);
        lemma_field_follows_calls(record_name, plans, front, f);
        lemma_field_step(plans, fresh.after_calls(front).slots, front, calls.last(), f);
        assert(front.push(calls.last()) =~= calls);
    }
}

/// A fresh builder of the artifact of the planned fields holds, after any run
/// of calls, what the calls amount to field by field, where the fields' names
/// differ and every setter is reached by its name.
pub proof fn lemma_builder_follows_calls(
    record_name: Seq<char>,
    plans: Seq<FieldPlanModel>,
    calls: Seq<CallModel>,
)
    requires
        distinct_fields(plans),
        forall|f: int| 0 <= f < plans.len() ==> reached(plans, f),
    ensures
        BuilderModel::fresh(artifact_of(record_name, plans)).after_calls(calls) == (BuilderModel {
            artifact: artifact_of(record_name, plans),
            slots: slots_of(plans, calls),
        }),
{
    let after = BuilderModel::fresh(artifact_of(record_name, plans)).after_calls(calls);
    lemma_shape_is_kept(record_name, plans, calls);
    assert forall|f: int| 0 <= f < plans.len() implies after.slots[f] == slots_of(
        plans,
        calls,
    )[f] by {
        lemma_field_follows_calls(record_name, plans, calls, f);
    }
    assert(after.slots =~= slots_of(plans, calls));
}

/// What the assembly gives for the field of a plan after the calls: a required
/// field has the value last supplied and none where nothing was supplied; an
/// optional field has what was last supplied, if anything; a repeated field
/// has its sequence.
pub open spec fn field_outcome(plan: FieldPlanModel, calls: Seq<CallModel>) -> Option<
    FieldValueModel,
> {
    match plan.category {
        CategoryModel::Required(_) => match last_value(plan.name, calls) {
            Some(value) => Some(FieldValueModel::Required(value)),
            None => None,
        },
        CategoryModel::Optional(_) => Some(FieldValueModel::Optional(last_value(plan.name, calls))),
        CategoryModel::Repeated(_, accumulator) => Some(
            FieldValueModel::Repeated(sequence_of(plan.name, accumulator, calls)),
        ),
    }
}

/// Whether the field of a plan is required and no value was supplied for it.
pub open spec fn is_missing(plan: FieldPlanModel, calls: Seq<CallModel>) -> bool {
    plan.category is Required && last_value(plan.name, calls) is None
}

/// The record that the calls give for the planned fields.
pub open spec fn record_of(
    record_name: Seq<char>,
    plans: Seq<FieldPlanModel>,
    calls: Seq<CallModel>,
) -> RecordModel {
    RecordModel {
        record_name,
        fields: plans.map_values(
            |plan: FieldPlanModel|
                RecordFieldModel { name: plan.name, value: field_outcome(plan, calls)->Some_0 },
        ),
    }
}

/// Each step of the assembly reads the field that it is for.
pub proof fn lemma_step_reads_its_field(
    plans: Seq<FieldPlanModel>,
    calls: Seq<CallModel>,
    i: int,
)
    requires
        distinct_fields(plans),
        0 <= i < plans.len(),
    ensures
        step_value(step_of(plans[i]), slots_of(plans, calls)) == field_outcome(plans[i], calls),
{
    let slots = slots_of(plans, calls);
    let names = slot_names(slots);
    assert(names[i] == plans[i].name);
    assert(crate::lookup::distinct(names)) by {
        assert forall|a: int, b: int| 0 <= a < b < names.len() implies names[a] != names[b] by {
            assert(names[a] == plans[a].name);
            assert(names[b] == plans[b].name);
        }
    }
    lemma_position_distinct(names, plans[i].name, i);
}

/// What a fresh builder assembles after a run of calls, where the fields'
/// names differ and every setter is reached by its name. The assembly succeeds
/// exactly when every required field was supplied; it then gives the record of
/// the calls. Else the error names the first required field, in declaration
/// order, that was not supplied.
pub proof fn lemma_assembly_follows_calls(
    record_name: Seq<char>,
    plans: Seq<FieldPlanModel>,
    calls: Seq<CallModel>,
)
    requires
        distinct_fields(plans),
        forall|f: int| 0 <= f < plans.len() ==> reached(plans, f),
    ensures
        match BuilderModel::fresh(artifact_of(record_name, plans)).after_calls(calls).assembled() {
            Ok(record) => {
                &&& forall|i: int| 0 <= i < plans.len() ==> !is_missing(#[trigger] plans[i], calls)
                &&& record == record_of(record_name, plans, calls)
            },
            Err(error) => exists|k: int|
                {
                    &&& 0 <= k < plans.len()
                    &&& is_missing(#[trigger] plans[k], calls)
                    &&& forall|j: int| 0 <= j < k ==> !is_missing(#[trigger] plans[j], calls)
                    &&& error == BuildErrorModel::MissingRequiredField(plans[k].name)
                },
        },
{
    let artifact = artifact_of(record_name, plans);
    let steps = artifact.assembly_expression.steps;
    let slots = slots_of(plans, calls);
    lemma_builder_follows_calls(record_name, plans, calls);
    lemma_assembled_fields(steps, slots);
    assert forall|i: int| 0 <= i < plans.len() implies step_value(#[trigger] steps[i], slots)
        == field_outcome(plans[i], calls) by {
        lemma_step_reads_its_field(plans, calls, i);
    }
    match assembled_fields(steps, slots) {
        Ok(fields) => {
            assert forall|i: int| 0 <= i < plans.len() implies !is_missing(
                #[trigger] plans[i],
                calls,
            ) by {
                assert(step_value(steps[i], slots) is Some);
            }
            assert(fields =~= record_of(record_name, plans, calls).fields) by {
                assert forall|i: int| 0 <= i < fields.len() implies fields[i] == record_of(
                    record_name,
                    plans,
                    calls,
                ).fields[i] by {
                    assert(step_value(steps[i], slots) == Some(fields[i].value));
                }
            }
        },
        Err(error) => {
            let k = choose|k: int|
                {
                    &&& 0 <= k < steps.len()
                    &&& step_value(#[trigger] steps[k], slots) is None
                    &&& forall|j: int| 0 <= j < k ==> step_value(#[trigger] steps[j], slots) is Some
                    &&& error == BuildErrorModel::MissingRequiredField(steps[k].field)
                };
            assert(is_missing(plans[k], calls));
            assert forall|j: int| 0 <= j < k implies !is_missing(#[trigger] plans[j], calls) by {
                assert(step_value(steps[j], slots) is Some);
            }
        },
    }
}

/// What a builder holds for an optional field after calls none of which is one
/// of the field's setter: nothing.
pub proof fn lemma_untouched_slot(
    record_name: Seq<char>,
    plans: Seq<FieldPlanModel>,
    calls: Seq<CallModel>,
    f: int,
)
    requires
        distinct_fields(plans),
        0 <= f < plans.len(),
        plans[f].category is Optional,
        forall|k: int| 0 <= k < calls.len() ==> (#[trigger] calls[k]).setter != plans[f].name,
    ensures
        BuilderModel::fresh(artifact_of(record_name, plans)).after_calls(calls).slots[f].slot
            == SlotModel::Single(None),
    decreases calls.len(),
{
    let fresh = BuilderModel::fresh(artifact_of(record_name, plans));
    lemma_shape_is_kept(record_name, plans, calls);
    if calls.len() > 0 {
        let front = calls.drop_last();
        let call = calls.last();
        assert(forall|k: int| 0 <= k < front.len() ==> front[k] == calls[k]);
        lemma_untouched_slot(record_name, plans, front, f);
        lemma_shape_is_kept(record_name, plans, front);
        let slots = fresh.after_calls(front).slots;
        let all = all_setters(plans);
        assert(calls[calls.len() - 1].setter != plans[f].name);
        lemma_position(setter_names(all), call.setter);
        match position(setter_names(all), call.setter) {
            None => {},
            Some(which) => {
                assert(setter_names(all)[which] == all[which].name);
                lemma_setters_belong(plans, which);
                let i = choose|i: int|
                    0 <= i < plans.len() && belongs_to(all[which], #[trigger] plans[i]);
                let names = slot_names(slots);
                assert(names[i] == slots[i].name);
                assert(crate::lookup::distinct(names)) by {
                    assert forall|a: int, b: int| 0 <= a < b < names.len() implies names[a]
                        != names[b] by {
                        assert(names[a] == slots[a].name);
                        assert(names[b] == slots[b].name);
                    }
                }
                lemma_position_distinct(names, plans[i].name, i);
                assert(all[which].field == plans[i].name);
            },
        }
    }
}

/// One call of the accumulator named `accumulator` for each of the values, in order.
pub open spec fn accumulations(accumulator: Seq<char>, values: Seq<ValueModel>) -> Seq<CallModel> {
    values.map_values(
        |value: ValueModel| CallModel { setter: accumulator, argument: ArgumentModel::One(value) },
    )
}

/// Accumulations after other calls add their values, in call order, to what
/// the field held.
pub proof fn lemma_accumulated_after(
    name: Seq<char>,
    accumulator: Seq<char>,
    before: Seq<CallModel>,
    values: Seq<ValueModel>,
)
    requires
        accumulator != name,
    ensures
        sequence_of(name, Some(accumulator), before + accumulations(accumulator, values))
            == sequence_of(name, Some(accumulator), before) + values,
    decreases values.len(),
{
    let calls = before + accumulations(accumulator, values);
    if values.len() == 0 {
        assert(calls =~= before);
        assert(sequence_of(name, Some(accumulator), before) + values =~= sequence_of(
            name,
            Some(accumulator),
            before,
        ));
    } else {
        let front = values.drop_last();
        lemma_accumulated_after(name, accumulator, before, front);
        assert(calls.drop_last() =~= before + accumulations(accumulator, front));
        assert(calls.last() == CallModel {
            setter: accumulator,
            argument: ArgumentModel::One(values.last()),
        });
        assert((sequence_of(name, Some(accumulator), before) + front).push(values.last())
            =~= sequence_of(name, Some(accumulator), before) + values);
    }
}

/// Whether a field is required and its slot holds nothing.
pub open spec fn is_unfilled(plan: FieldPlanModel, slot: SlotModel) -> bool {
    plan.category is Required && slot == SlotModel::Single(None)
}

/// What a builder of the planned fields assembles from what it holds, where
/// the fields' names differ. The assembly fails exactly when the slot of a
/// required field holds nothing, and the error then names the first such
/// field in declaration order; neither an optional nor a repeated field ever
/// makes it fail. Else every field of the record is read from its own slot.
pub proof fn lemma_assembly_reads_slots(
    record_name: Seq<char>,
    plans: Seq<FieldPlanModel>,
    builder: BuilderModel,
)
    requires
        distinct_fields(plans),
        builder.artifact == artifact_of(record_name, plans),
        keeps_shape(plans, builder.slots),
    ensures
        match builder.assembled() {
            Ok(record) => {
                &&& record.record_name == record_name
                &&& record.fields.len() == plans.len()
                &&& forall|i: int|
                    0 <= i < plans.len() ==> {
                        &&& !is_unfilled(#[trigger] plans[i], builder.slots[i].slot)
                        &&& record.fields[i].name == plans[i].name
                        &&& field_read(step_of(plans[i]).rule, builder.slots[i].slot) == Some(
                            record.fields[i].value,
                        )
                    }
            },
            Err(error) => exists|k: int|
                {
                    &&& 0 <= k < plans.len()
                    &&& is_unfilled(#[trigger] plans[k], builder.slots[k].slot)
                    &&& forall|j: int|
                        0 <= j < k ==> !is_unfilled(#[trigger] plans[j], builder.slots[j].slot)
                    &&& error == BuildErrorModel::MissingRequiredField(plans[k].name)
                },
        },
{
    let steps = builder.artifact.assembly_expression.steps;
    let slots = builder.slots;
    let names = slot_names(slots);
    lemma_assembled_fields(steps, slots);
    assert(crate::lookup::distinct(names)) by {
        assert forall|a: int, b: int| 0 <= a < b < names.len() implies names[a] != names[b] by {
            assert(names[a] == slots[a].name);
            assert(names[b] == slots[b].name);
        }
    }
    assert forall|i: int| 0 <= i < plans.len() implies step_value(#[trigger] steps[i], slots)
        == field_read(step_of(plans[i]).rule, slots[i].slot) && (step_value(steps[i], slots) is None
        <==> is_unfilled(plans[i], slots[i].slot)) by {
        assert(names[i] == slots[i].name);
        lemma_position_distinct(names, plans[i].name, i);
    }
    match assembled_fields(steps, slots) {
        Ok(fields) => {
            assert forall|i: int| 0 <= i < plans.len() implies {
                &&& !is_unfilled(#[trigger] plans[i], slots[i].slot)
                &&& fields[i].name == plans[i].name
                &&& field_read(step_of(plans[i]).rule, slots[i].slot) == Some(fields[i].value)
            } by {
                assert(step_value(steps[i], slots) == Some(fields[i].value));
            }
        },
        Err(error) => {
            let k = choose|k: int|
                {
                    &&& 0 <= k < steps.len()
                    &&& step_value(#[trigger] steps[k], slots) is None
                    &&& forall|j: int| 0 <= j < k ==> step_value(#[trigger] steps[j], slots) is Some
                    &&& error == BuildErrorModel::MissingRequiredField(steps[k].field)
                };
            assert(is_unfilled(plans[k], slots[k].slot));
            assert forall|j: int| 0 <= j < k implies !is_unfilled(
                #[trigger] plans[j],
                slots[j].slot,
            ) by {
                assert(step_value(steps[j], slots) is Some);
            }
        },
    }
}

} // verus!
