//! A builder at work: what its setters do to it and what it assembles.
//!
//! The behaviour of a builder is read off the fragments of its artifact: the
//! initializer entries give the fresh builder, the setter definitions give the
//! effect of each call, and the assembly expression gives the record.

use crate::artifact::{
    ArtifactModel, AssemblyRule, AssemblyStepModel, BuilderArtifact, InitialValue,
    InitializerEntry, InitializerEntryModel, SetterAction, SetterDefinition, SetterModel,
};
use crate::error::{BuildError, BuildErrorModel};
use crate::lookup::{lemma_position_is, lemma_position_none, place_matches, position};
use crate::schema::models_of;
use crate::value::{
    duplicate_all, duplicate_optional, Argument, ArgumentModel, FieldValue, FieldValueModel,
    NamedSlot, NamedSlotModel, Record, RecordField, RecordFieldModel, RecordModel, Slot, SlotModel,
    ValueModel,
};
use vstd::prelude::*;

verus! {

/// The names under which the setters are called, in order.
pub open spec fn setter_names(setters: Seq<SetterModel>) -> Seq<Seq<char>> {
    setters.map_values(|setter: SetterModel| setter.name)
}

/// The names of the fields that a builder holds, in order.
pub open spec fn slot_names(slots: Seq<NamedSlotModel>) -> Seq<Seq<char>> {
    slots.map_values(|slot: NamedSlotModel| slot.name)
}

/// What a fresh builder holds for the field of an initializer entry.
pub open spec fn initial_slot(entry: InitializerEntryModel) -> NamedSlotModel {
    NamedSlotModel {
        name: entry.name,
        slot: match entry.value {
            InitialValue::Absent => SlotModel::Single(None),
            InitialValue::EmptySequence => SlotModel::Many(Seq::empty()),
        },
    }
}

/// What a setter's action makes of a slot. An overwrite fills the slot with the
/// value; a replacement stores the sequence in place of the old one; an
/// accumulation appends the value and keeps what was there. An argument or a
/// slot that the action does not fit leaves the slot as it is.
pub open spec fn slot_after(action: SetterAction, slot: SlotModel, argument: ArgumentModel)
    -> SlotModel {
    match (action, slot, argument) {
        (SetterAction::Overwrite, SlotModel::Single(_), ArgumentModel::One(value)) => {
            SlotModel::Single(Some(value))
        },
        (SetterAction::ReplaceAll, SlotModel::Many(_), ArgumentModel::Many(values)) => {
            SlotModel::Many(values)
        },
        (SetterAction::AppendOne, SlotModel::Many(stored), ArgumentModel::One(value)) => {
            SlotModel::Many(stored.push(value))
        },
        _ => slot,
    }
}

/// What the builder holds after a call of the setter named `setter`. The first
/// setter of that name acts on the first field of the name that it writes; a
/// name that finds no setter, or no field, changes nothing.
pub open spec fn slots_after(
    setters: Seq<SetterModel>,
    slots: Seq<NamedSlotModel>,
    setter: Seq<char>,
    argument: ArgumentModel,
) -> Seq<NamedSlotModel> {
    match position(setter_names(setters), setter) {
        None => slots,
        Some(which) => match position(slot_names(slots), setters[which].field) {
            None => slots,
            Some(place) => slots.update(
                place,
                NamedSlotModel {
                    name: slots[place].name,
                    slot: slot_after(setters[which].action, slots[place].slot, argument),
                },
            ),
        },
    }
}

/// What a rule of the assembly reads from a slot; `None` where the slot does
/// not hold what the rule asks for.
pub open spec fn field_read(rule: AssemblyRule, slot: SlotModel) -> Option<FieldValueModel> {
    match (rule, slot) {
        (AssemblyRule::RequirePresent, SlotModel::Single(Some(value))) => Some(
            FieldValueModel::Required(value),
        ),
        (AssemblyRule::PassThrough, SlotModel::Single(value)) => Some(
            FieldValueModel::Optional(value),
        ),
        (AssemblyRule::TakeSequence, SlotModel::Many(values)) => Some(
            FieldValueModel::Repeated(values),
        ),
        _ => None,
    }
}

/// What a step of the assembly gives for its field, read from the first slot
/// of that name.
pub open spec fn step_value(step: AssemblyStepModel, slots: Seq<NamedSlotModel>) -> Option<
    FieldValueModel,
> {
    match position(slot_names(slots), step.field) {
        None => None,
        Some(place) => field_read(step.rule, slots[place].slot),
    }
}

/// The fields of the record, step by step in order; the first step that gives
/// no value is the error, and names its field.
pub open spec fn assembled_fields(steps: Seq<AssemblyStepModel>, slots: Seq<NamedSlotModel>)
    -> Result<Seq<RecordFieldModel>, BuildErrorModel>
    decreases steps.len(),
{
    if steps.len() == 0 {
        Ok(Seq::empty())
    } else {
        match assembled_fields(steps.drop_last(), slots) {
            Err(error) => Err(error),
            Ok(fields) => match step_value(steps.last(), slots) {
                None => Err(BuildErrorModel::MissingRequiredField(steps.last().field)),
                Some(value) => Ok(
                    fields.push(RecordFieldModel { name: steps.last().field, value }),
                ),
            },
        }
    }
}

/// One call of a setter.
pub struct CallModel {
    pub setter: Seq<char>,
    pub argument: ArgumentModel,
}

/// The mathematical value of a [`Builder`]: the artifact that it follows and
/// what it holds.
pub struct BuilderModel {
    pub artifact: ArtifactModel,
    pub slots: Seq<NamedSlotModel>,
}

impl BuilderModel {
    /// The builder before any call.
    pub open spec fn fresh(artifact: ArtifactModel) -> BuilderModel {
        BuilderModel {
            artifact,
            slots: artifact.initializer_entries.map_values(
                |entry: InitializerEntryModel| initial_slot(entry),
            ),
        }
    }

    /// The builder after one call.
    pub open spec fn after_call(self, setter: Seq<char>, argument: ArgumentModel) -> BuilderModel {
        BuilderModel {
            artifact: self.artifact,
            slots: slots_after(self.artifact.setter_definitions, self.slots, setter, argument),
        }
    }

    /// The builder after a run of calls, in order.
    pub open spec fn after_calls(self, calls: Seq<CallModel>) -> BuilderModel
        decreases calls.len(),
    {
        if calls.len() == 0 {
            self
        } else {
            self.after_calls(calls.drop_last()).after_call(
                calls.last().setter,
                calls.last().argument,
            )
        }
    }

    /// What the builder assembles.
    pub open spec fn assembled(self) -> Result<RecordModel, BuildErrorModel> {
        match assembled_fields(self.artifact.assembly_expression.steps, self.slots) {
            Err(error) => Err(error),
            Ok(fields) => Ok(
                RecordModel { record_name: self.artifact.assembly_expression.record_name, fields },
            ),
        }
    }
}

/// Whether `result` stands for the outcome `outcome`.
pub open spec fn record_matches(
    result: Result<Record, BuildError>,
    outcome: Result<RecordModel, BuildErrorModel>,
) -> bool {
    match result {
        Ok(record) => outcome == Ok::<RecordModel, BuildErrorModel>(record@),
        Err(error) => outcome == Err::<RecordModel, BuildErrorModel>(error@),
    }
}

/// Finds the first setter that is called under `name`.
pub fn find_setter(setters: &Vec<SetterDefinition>, name: &String) -> (found: Option<usize>)
    ensures
        place_matches(found, position(setter_names(models_of(setters@)), name@)),
        found matches Some(index) ==> index < setters.len(),
{
    let ghost names = setter_names(models_of(setters@));
    let mut i: usize = 0;
    while i < setters.len()
        invariant
            i <= setters.len(),
            names == setter_names(models_of(setters@)),
            forall|j: int| 0 <= j < i ==> names[j] != name@,
        decreases setters.len() - i,
    {
        if setters[i].name == *name {
            proof {
                lemma_position_is(names, name@, i as int);
            }
            return Some(i);
        }
        i += 1;
    }
    proof {
        lemma_position_none(names, name@);
    }
    None
}

/// Finds the first field of a builder that is named `name`.
pub fn find_slot(slots: &Vec<NamedSlot>, name: &String) -> (found: Option<usize>)
    ensures
        place_matches(found, position(slot_names(models_of(slots@)), name@)),
        found matches Some(index) ==> index < slots.len(),
{
    let ghost names = slot_names(models_of(slots@));
    let mut i: usize = 0;
    while i < slots.len()
        invariant
            i <= slots.len(),
            names == slot_names(models_of(slots@)),
            forall|j: int| 0 <= j < i ==> names[j] != name@,
        decreases slots.len() - i,
    {
        if slots[i].name == *name {
            proof {
                lemma_position_is(names, name@, i as int);
            }
            return Some(i);
        }
        i += 1;
    }
    proof {
        lemma_position_none(names, name@);
    }
    None
}

/// What a fresh builder holds for the field of an initializer entry.
pub fn fresh_slot(entry: &InitializerEntry) -> (slot: NamedSlot)
    ensures
        slot@ == initial_slot(entry@),
{
    let slot = match entry.value {
        InitialValue::Absent => Slot::Single(None),
        InitialValue::EmptySequence => {
            let values: Vec<crate::value::Value> = Vec::new();
            assert(models_of(values@) =~= Seq::<ValueModel>::empty());
            Slot::Many(values)
        },
    };
    NamedSlot { name: entry.name.clone(), slot }
}

/// Applies a setter's action to a slot.
pub fn apply_action(action: SetterAction, slot: Slot, argument: Argument) -> (after: Slot)
    ensures
        after@ == slot_after(action, slot@, argument@),
{
    match (action, slot, argument) {
        (SetterAction::Overwrite, Slot::Single(_), Argument::One(value)) => Slot::Single(
            Some(value),
        ),
        (SetterAction::ReplaceAll, Slot::Many(_), Argument::Many(values)) => Slot::Many(values),
        (SetterAction::AppendOne, Slot::Many(stored), Argument::One(value)) => {
            let mut stored = stored;
            let ghost before = models_of(stored@);
            stored.push(value);
            assert(models_of(stored@) =~= before.push(value@));
            Slot::Many(stored)
        },
        (_, slot, _) => slot,
    }
}

/// Reads a slot as a rule of the assembly asks; the slot keeps what it holds.
pub fn read_slot(rule: AssemblyRule, slot: &Slot) -> (value: Option<FieldValue>)
    ensures
        match value {
            Some(value) => field_read(rule, slot@) == Some(value@),
            None => field_read(rule, slot@) is None,
        },
{
    match (rule, slot) {
        (AssemblyRule::RequirePresent, Slot::Single(Some(value))) => Some(
            FieldValue::Required(value.duplicate()),
        ),
        (AssemblyRule::PassThrough, Slot::Single(value)) => Some(
            FieldValue::Optional(duplicate_optional(value)),
        ),
        (AssemblyRule::TakeSequence, Slot::Many(values)) => Some(
            FieldValue::Repeated(duplicate_all(values)),
        ),
        _ => None,
    }
}

/// Once a prefix of the steps fails, so does the whole assembly, at the same field.
pub proof fn lemma_failure_stays(
    steps: Seq<AssemblyStepModel>,
    slots: Seq<NamedSlotModel>,
    n: int,
)
    requires
        0 <= n <= steps.len(),
        assembled_fields(steps.take(n), slots) is Err,
    ensures
        assembled_fields(steps, slots) == assembled_fields(steps.take(n), slots),
    decreases steps.len() - n,
{
    if n == steps.len() {
        assert(steps.take(n) =~= steps);
    } else {
        assert(steps.take(n + 1).drop_last() =~= steps.take(n));
        lemma_failure_stays(steps, slots, n + 1);
    }
}

/// The assembly succeeds exactly when every step gives a value, and then gives
/// the fields step by step; else it fails at the first step that gives none.
pub proof fn lemma_assembled_fields(steps: Seq<AssemblyStepModel>, slots: Seq<NamedSlotModel>)
    ensures
        match assembled_fields(steps, slots) {
            Ok(fields) => {
                &&& fields.len() == steps.len()
                &&& forall|i: int|
                    0 <= i < steps.len() ==> step_value(#[trigger] steps[i], slots) == Some(
                        fields[i].value,
                    ) && fields[i].name == steps[i].field
            },
            Err(error) => exists|k: int|
                {
                    &&& 0 <= k < steps.len()
                    &&& step_value(#[trigger] steps[k], slots) is None
                    &&& forall|j: int| 0 <= j < k ==> step_value(#[trigger] steps[j], slots) is Some
                    &&& error == BuildErrorModel::MissingRequiredField(steps[k].field)
                },
        },
    decreases steps.len(),
{
    if steps.len() > 0 {
        let front = steps.drop_last();
        lemma_assembled_fields(front, slots);
        assert(forall|i: int| 0 <= i < front.len() ==> front[i] == steps[i]);
        match assembled_fields(front, slots) {
            Err(error) => {
                let k = choose|k: int|
                    {
                        &&& 0 <= k < front.len()
                        &&& step_value(#[trigger] front[k], slots) is None
                        &&& forall|j: int|
                            0 <= j < k ==> step_value(#[trigger] front[j], slots) is Some
                        &&& error == BuildErrorModel::MissingRequiredField(front[k].field)
                    };
                assert(steps[k] == front[k]);
                assert forall|j: int| 0 <= j < k implies step_value(
                    #[trigger] steps[j],
                    slots,
                ) is Some by {
                    assert(steps[j] == front[j]);
                }
            },
            Ok(fields) => {
                let last = steps.len() - 1;
                match step_value(steps.last(), slots) {
                    None => {
                        assert(step_value(steps[last], slots) is None);
                        assert forall|j: int| 0 <= j < last implies step_value(
                            #[trigger] steps[j],
                            slots,
                        ) is Some by {
                            assert(steps[j] == front[j]);
                        }
                    },
                    Some(value) => {
                        let all = fields.push(
                            RecordFieldModel { name: steps.last().field, value },
                        );
                        assert forall|i: int| 0 <= i < steps.len() implies step_value(
                            #[trigger] steps[i],
                            slots,
                        ) == Some(all[i].value) && all[i].name == steps[i].field by {
                            if i < last {
                                assert(steps[i] == front[i]);
                            }
                        }
                    },
                }
            },
        }
    }
}

/// A builder of the type that an artifact describes.
#[derive(Debug)]
pub struct Builder<'a> {
    artifact: &'a BuilderArtifact,
    slots: Vec<NamedSlot>,
}

impl<'a> View for Builder<'a> {
    type V = BuilderModel;

    closed spec fn view(&self) -> BuilderModel {
        BuilderModel { artifact: self.artifact@, slots: models_of(self.slots@) }
    }
}

impl<'a> Builder<'a> {
    /// A fresh builder: every slot empty, every sequence without elements.
    pub fn new(artifact: &'a BuilderArtifact) -> (builder: Builder<'a>)
        ensures
            builder@ == BuilderModel::fresh(artifact@),
    {
        let mut slots: Vec<NamedSlot> = Vec::new();
        let mut i: usize = 0;
        while i < artifact.initializer_entries.len()
            invariant
                i <= artifact.initializer_entries.len(),
                slots@.len() == i,
                forall|j: int|
                    0 <= j < i ==> (#[trigger] slots@[j])@ == initial_slot(
                        artifact.initializer_entries@[j]@,
                    ),
            decreases artifact.initializer_entries.len() - i,
        {
            slots.push(fresh_slot(&artifact.initializer_entries[i]));
            i += 1;
        }
        let builder = Builder { artifact, slots };
        assert(builder@.slots =~= BuilderModel::fresh(artifact@).slots);
        builder
    }

    /// Calls the setter named `setter` with `argument`. The builder is changed
    /// in place and handed back, so that calls can be chained. A name that no
    /// setter has, or an argument that the setter does not take, changes
    /// nothing.
    pub fn call(&mut self, setter: &str, argument: Argument) -> (same: &mut Self)
        ensures
            same@ == old(self)@.after_call(setter@, argument@),
            *final(self) == *final(same),
    {
        let artifact = self.artifact;
        let name = setter.to_owned();
        match find_setter(&artifact.setter_definitions, &name) {
            None => {},
            Some(which) => {
                let definition = &artifact.setter_definitions[which];
                match find_slot(&self.slots, &definition.field) {
                    None => {},
                    Some(place) => {
                        let ghost before = models_of(self.slots@);
                        let held = self.slots.remove(place);
                        let next = NamedSlot {
                            name: held.name,
                            slot: apply_action(definition.action, held.slot, argument),
                        };
                        let ghost after = next@;
                        self.slots.insert(place, next);
                        assert(models_of(self.slots@) =~= before.update(place as int, after));
                    },
                }
            },
        }
        self
    }

    /// Assembles the record from what the builder holds. The builder is left as
    /// it is and can be used further, also after a failure.
    pub fn build(&self) -> (result: Result<Record, BuildError>)
        ensures
            record_matches(result, self@.assembled()),
    {
        let steps = &self.artifact.assembly_expression.steps;
        let ghost models = models_of(steps@);
        let ghost slots = models_of(self.slots@);
        let mut fields: Vec<RecordField> = Vec::new();
        let mut i: usize = 0;
        assert(models_of(fields@) =~= Seq::<RecordFieldModel>::empty());
        while i < steps.len()
            invariant
                i <= steps.len(),
                *steps == self.artifact.assembly_expression.steps,
                models == models_of(steps@),
                slots == models_of(self.slots@),
                assembled_fields(models.take(i as int), slots) == Ok::<
                    Seq<RecordFieldModel>,
                    BuildErrorModel,
                >(models_of(fields@)),
            decreases steps.len() - i,
        {
            proof {
                assert(models.take(i + 1).drop_last() =~= models.take(i as int));
            }
            let step = &steps[i];
            let value = match find_slot(&self.slots, &step.field) {
                None => None,
                Some(place) => read_slot(step.rule, &self.slots[place].slot),
            };
            proof {
                assert(models.take(i + 1).last() == step@);
                assert(match value {
                    Some(value) => step_value(step@, slots) == Some(value@),
                    None => step_value(step@, slots) is None,
                });
            }
            match value {
                None => {
                    proof {
                        lemma_failure_stays(models, slots, i + 1);
                    }
                    return Err(BuildError::MissingRequiredField(step.field.clone()));
                },
                Some(value) => {
                    let ghost before = models_of(fields@);
                    let field = RecordField { name: step.field.clone(), value };
                    let ghost added = field@;
                    fields.push(field);
                    assert(models_of(fields@) =~= before.push(added));
                },
            }
            i += 1;
        }
        proof {
            assert(models.take(i as int) =~= models);
        }
        Ok(Record { record_name: self.artifact.assembly_expression.record_name.clone(), fields })
    }
}

} // verus!
