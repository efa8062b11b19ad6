use building::artifact::{
    AssemblyExpression, AssemblyRule, AssemblyStep, BuilderArtifact, InitialValue,
    InitializerEntry, SetterAction, SetterDefinition,
};
use building::builder::{apply_action, find_setter, find_slot, fresh_slot, read_slot, Builder};
use building::error::BuildError;
use building::schema::{Directive, FieldSchema, RecordSchema, TypeExpr};
use building::synth::synthesize;
use building::value::{
    duplicate_all, duplicate_optional, Argument, FieldValue, NamedSlot, Record, RecordField, Slot,
    Value,
};

fn text(s: &str) -> Value {
    Value::Text(s.to_owned())
}

fn one(value: Value) -> Argument {
    Argument::One(value)
}

fn many(values: Vec<Value>) -> Argument {
    Argument::Many(values)
}

fn simple(ty: &str) -> TypeExpr {
    TypeExpr::Simple(ty.to_owned())
}

fn wrapped(wrapper: &str, inner: &str) -> TypeExpr {
    TypeExpr::Parameterized(wrapper.to_owned(), vec![simple(inner)])
}

fn field(name: &str, declared_type: TypeExpr) -> FieldSchema {
    FieldSchema { name: Some(name.to_owned()), declared_type, directives: vec![] }
}

fn with_each(name: &str, item: &str, accumulator: &str) -> FieldSchema {
    FieldSchema {
        name: Some(name.to_owned()),
        declared_type: wrapped("Vec", item),
        directives: vec![Directive { key: "each".to_owned(), value: accumulator.to_owned() }],
    }
}

fn product() -> BuilderArtifact {
    synthesize(&RecordSchema {
        name: "Product".to_owned(),
        fields: vec![
            field("id", simple("Int")),
            field("code", wrapped("Option", "Int")),
            field("name", simple("String")),
            with_each("tags", "String", "tag"),
        ],
    })
    .unwrap()
}

fn point() -> BuilderArtifact {
    synthesize(&RecordSchema {
        name: "Point".to_owned(),
        fields: vec![field("x", simple("i64")), field("y", simple("i64"))],
    })
    .unwrap()
}

#[test]
fn end_to_end_product() {
    let artifact = product();
    let mut builder = Builder::new(&artifact);
    let record = builder
        .call("id", one(Value::Int(12)))
        .call("code", one(Value::Int(654321)))
        .call("name", one(text("Foo")))
        .call("tags", many(vec![text("foo"), text("bar")]))
        .call("tag", one(text("baz")))
        .build();
    assert_eq!(
        Ok(Record {
            record_name: "Product".to_owned(),
            fields: vec![
                RecordField {
                    name: "id".to_owned(),
                    value: FieldValue::Required(Value::Int(12)),
                },
                RecordField {
                    name: "code".to_owned(),
                    value: FieldValue::Optional(Some(Value::Int(654321))),
                },
                RecordField {
                    name: "name".to_owned(),
                    value: FieldValue::Required(text("Foo")),
                },
                RecordField {
                    name: "tags".to_owned(),
                    value: FieldValue::Repeated(vec![text("foo"), text("bar"), text("baz")]),
                },
            ],
        }),
        record
    );
}

#[test]
fn end_to_end_first_missing_field_is_named() {
    let artifact = product();
    let mut builder = Builder::new(&artifact);
    let result = builder.call("tags", many(vec![text("foo")])).build();
    assert_eq!(Err(BuildError::MissingRequiredField("id".to_owned())), result);
}

#[test]
fn fresh_builder_of_required_fields_fails_at_the_first() {
    let artifact = point();
    let builder = Builder::new(&artifact);
    assert_eq!(Err(BuildError::MissingRequiredField("x".to_owned())), builder.build());
}

#[test]
fn required_fields_must_all_be_set() {
    let artifact = point();
    let mut builder = Builder::new(&artifact);
    builder.call("y", one(Value::Int(2)));
    assert_eq!(Err(BuildError::MissingRequiredField("x".to_owned())), builder.build());
    builder.call("x", one(Value::Int(1)));
    let record = builder.build().unwrap();
    assert_eq!(Some(&FieldValue::Required(Value::Int(1))), record.field("x"));
    assert_eq!(Some(&FieldValue::Required(Value::Int(2))), record.field("y"));
    assert_eq!(None, record.field("z"));
}

#[test]
fn the_error_names_the_first_missing_field_only() {
    let artifact = product();
    let mut builder = Builder::new(&artifact);
    builder.call("id", one(Value::Int(1)));
    assert_eq!(Err(BuildError::MissingRequiredField("name".to_owned())), builder.build());
}

#[test]
fn last_write_wins() {
    let artifact = point();
    let mut builder = Builder::new(&artifact);
    builder
        .call("x", one(Value::Int(1)))
        .call("y", one(Value::Int(5)))
        .call("x", one(Value::Int(2)))
        .call("x", one(Value::Int(3)));
    let record = builder.build().unwrap();
    assert_eq!(Some(&FieldValue::Required(Value::Int(3))), record.field("x"));
    assert_eq!(Some(&FieldValue::Required(Value::Int(5))), record.field("y"));
}

#[test]
fn optional_field_overwrites_too() {
    let artifact = product();
    let mut builder = Builder::new(&artifact);
    builder
        .call("id", one(Value::Int(1)))
        .call("name", one(text("n")))
        .call("code", one(Value::Int(7)))
        .call("code", one(Value::Int(8)));
    let record = builder.build().unwrap();
    assert_eq!(Some(&FieldValue::Optional(Some(Value::Int(8)))), record.field("code"));
}

#[test]
fn omitted_optional_and_repeated_fields_are_absent_and_empty() {
    let artifact = product();
    let mut builder = Builder::new(&artifact);
    builder.call("id", one(Value::Int(1))).call("name", one(text("n")));
    let record = builder.build().unwrap();
    assert_eq!(Some(&FieldValue::Optional(None)), record.field("code"));
    assert_eq!(Some(&FieldValue::Repeated(vec![])), record.field("tags"));
}

#[test]
fn record_without_required_fields_builds_at_once() {
    let artifact = synthesize(&RecordSchema {
        name: "Loose".to_owned(),
        fields: vec![field("note", wrapped("Option", "String")), with_each("items", "u8", "item")],
    })
    .unwrap();
    let builder = Builder::new(&artifact);
    assert_eq!(
        Ok(Record {
            record_name: "Loose".to_owned(),
            fields: vec![
                RecordField { name: "note".to_owned(), value: FieldValue::Optional(None) },
                RecordField { name: "items".to_owned(), value: FieldValue::Repeated(vec![]) },
            ],
        }),
        builder.build()
    );
}

fn tags_after(calls: Vec<(&str, Argument)>) -> FieldValue {
    let artifact = product();
    let mut builder = Builder::new(&artifact);
    builder.call("id", one(Value::Int(1))).call("name", one(text("n")));
    for (setter, argument) in calls {
        builder.call(setter, argument);
    }
    let mut record = builder.build().unwrap();
    record.fields.pop().unwrap().value
}

#[test]
fn accumulator_alone_keeps_the_call_order() {
    let values: Vec<Value> = (0..5).map(Value::Int).collect();
    let calls = (0..5).map(|n| ("tag", one(Value::Int(n)))).collect();
    assert_eq!(FieldValue::Repeated(values), tags_after(calls));
}

#[test]
fn replacement_discards_what_was_accumulated() {
    let calls = vec![
        ("tag", one(text("a"))),
        ("tag", one(text("b"))),
        ("tags", many(vec![text("x")])),
    ];
    assert_eq!(FieldValue::Repeated(vec![text("x")]), tags_after(calls));
}

#[test]
fn replacement_by_an_empty_sequence_empties_the_field() {
    let calls = vec![("tag", one(text("a"))), ("tags", many(vec![]))];
    assert_eq!(FieldValue::Repeated(vec![]), tags_after(calls));
}

#[test]
fn interleaved_accumulation_and_replacement() {
    let calls = vec![
        ("tag", one(text("a"))),
        ("tags", many(vec![text("x"), text("y")])),
        ("tag", one(text("b"))),
        ("tags", many(vec![text("z")])),
        ("tag", one(text("c"))),
        ("tag", one(text("d"))),
    ];
    assert_eq!(
        FieldValue::Repeated(vec![text("z"), text("c"), text("d")]),
        tags_after(calls)
    );
}

#[test]
fn accumulation_keeps_equal_values() {
    let calls = vec![("tag", one(text("a"))), ("tag", one(text("a")))];
    assert_eq!(FieldValue::Repeated(vec![text("a"), text("a")]), tags_after(calls));
}

#[test]
fn builder_is_usable_after_a_failed_and_after_a_successful_build() {
    let artifact = point();
    let mut builder = Builder::new(&artifact);
    builder.call("x", one(Value::Int(1)));
    assert_eq!(Err(BuildError::MissingRequiredField("y".to_owned())), builder.build());
    assert_eq!(Err(BuildError::MissingRequiredField("y".to_owned())), builder.build());
    builder.call("y", one(Value::Int(2)));
    let first = builder.build().unwrap();
    let second = builder.build().unwrap();
    assert_eq!(first, second);
    builder.call("x", one(Value::Int(9)));
    let third = builder.build().unwrap();
    assert_eq!(Some(&FieldValue::Required(Value::Int(9))), third.field("x"));
    assert_eq!(Some(&FieldValue::Required(Value::Int(1))), first.field("x"));
}

#[test]
fn two_builders_of_one_artifact_do_not_share_state() {
    let artifact = point();
    let mut a = Builder::new(&artifact);
    let mut b = Builder::new(&artifact);
    a.call("x", one(Value::Int(1))).call("y", one(Value::Int(2)));
    b.call("x", one(Value::Int(3)));
    assert!(a.build().is_ok());
    assert_eq!(Err(BuildError::MissingRequiredField("y".to_owned())), b.build());
}

#[test]
fn unknown_setter_changes_nothing() {
    let artifact = point();
    let mut builder = Builder::new(&artifact);
    builder.call("x", one(Value::Int(1))).call("y", one(Value::Int(2)));
    let before = builder.build();
    builder.call("z", one(Value::Int(3))).call("X", one(Value::Int(4))).call("", many(vec![]));
    assert_eq!(before, builder.build());
}

#[test]
fn argument_that_the_setter_does_not_take_changes_nothing() {
    let artifact = product();
    let mut builder = Builder::new(&artifact);
    builder
        .call("id", one(Value::Int(1)))
        .call("name", one(text("n")))
        .call("tags", many(vec![text("a")]));
    let before = builder.build();
    builder
        .call("id", many(vec![Value::Int(2)]))
        .call("tags", one(text("b")))
        .call("tag", many(vec![text("c")]));
    assert_eq!(before, builder.build());
}

#[test]
fn values_are_not_checked_against_the_declared_type() {
    let artifact = point();
    let mut builder = Builder::new(&artifact);
    builder.call("x", one(text("not a number"))).call("y", one(Value::Int(i64::MIN)));
    let record = builder.build().unwrap();
    assert_eq!(Some(&FieldValue::Required(text("not a number"))), record.field("x"));
    assert_eq!(Some(&FieldValue::Required(Value::Int(i64::MIN))), record.field("y"));
}

#[test]
fn setters_are_found_by_name_first_match() {
    let artifact = product();
    let setters = &artifact.setter_definitions;
    assert_eq!(Some(0), find_setter(setters, &"id".to_owned()));
    assert_eq!(Some(3), find_setter(setters, &"tag".to_owned()));
    assert_eq!(Some(4), find_setter(setters, &"tags".to_owned()));
    assert_eq!(None, find_setter(setters, &"tagz".to_owned()));
    let twice = vec![
        SetterDefinition {
            name: "a".to_owned(),
            field: "first".to_owned(),
            action: SetterAction::Overwrite,
            element_type: simple("u8"),
        },
        SetterDefinition {
            name: "a".to_owned(),
            field: "second".to_owned(),
            action: SetterAction::Overwrite,
            element_type: simple("u8"),
        },
    ];
    assert_eq!(Some(0), find_setter(&twice, &"a".to_owned()));
}

#[test]
fn slots_are_found_by_name_first_match() {
    let slots = vec![
        NamedSlot { name: "a".to_owned(), slot: Slot::Single(None) },
        NamedSlot { name: "b".to_owned(), slot: Slot::Many(vec![]) },
        NamedSlot { name: "a".to_owned(), slot: Slot::Many(vec![]) },
    ];
    assert_eq!(Some(0), find_slot(&slots, &"a".to_owned()));
    assert_eq!(Some(1), find_slot(&slots, &"b".to_owned()));
    assert_eq!(None, find_slot(&slots, &"c".to_owned()));
    assert_eq!(None, find_slot(&vec![], &"a".to_owned()));
}

#[test]
fn fresh_slots_follow_the_initializer() {
    assert_eq!(
        NamedSlot { name: "a".to_owned(), slot: Slot::Single(None) },
        fresh_slot(&InitializerEntry { name: "a".to_owned(), value: InitialValue::Absent })
    );
    assert_eq!(
        NamedSlot { name: "b".to_owned(), slot: Slot::Many(vec![]) },
        fresh_slot(&InitializerEntry { name: "b".to_owned(), value: InitialValue::EmptySequence })
    );
}

#[test]
fn actions_on_slots() {
    assert_eq!(
        Slot::Single(Some(Value::Int(2))),
        apply_action(SetterAction::Overwrite, Slot::Single(Some(Value::Int(1))), one(Value::Int(2)))
    );
    assert_eq!(
        Slot::Single(Some(Value::Int(2))),
        apply_action(SetterAction::Overwrite, Slot::Single(None), one(Value::Int(2)))
    );
    assert_eq!(
        Slot::Many(vec![Value::Int(3)]),
        apply_action(
            SetterAction::ReplaceAll,
            Slot::Many(vec![Value::Int(1), Value::Int(2)]),
            many(vec![Value::Int(3)])
        )
    );
    assert_eq!(
        Slot::Many(vec![Value::Int(1), Value::Int(2)]),
        apply_action(SetterAction::AppendOne, Slot::Many(vec![Value::Int(1)]), one(Value::Int(2)))
    );
    assert_eq!(
        Slot::Many(vec![Value::Int(1)]),
        apply_action(SetterAction::Overwrite, Slot::Many(vec![Value::Int(1)]), one(Value::Int(2)))
    );
    assert_eq!(
        Slot::Single(None),
        apply_action(SetterAction::AppendOne, Slot::Single(None), one(Value::Int(2)))
    );
    assert_eq!(
        Slot::Single(None),
        apply_action(SetterAction::ReplaceAll, Slot::Single(None), many(vec![]))
    );
}

#[test]
fn rules_on_slots() {
    let full = Slot::Single(Some(Value::Int(1)));
    let empty = Slot::Single(None);
    let list = Slot::Many(vec![Value::Int(1)]);
    assert_eq!(
        Some(FieldValue::Required(Value::Int(1))),
        read_slot(AssemblyRule::RequirePresent, &full)
    );
    assert_eq!(None, read_slot(AssemblyRule::RequirePresent, &empty));
    assert_eq!(None, read_slot(AssemblyRule::RequirePresent, &list));
    assert_eq!(
        Some(FieldValue::Optional(Some(Value::Int(1)))),
        read_slot(AssemblyRule::PassThrough, &full)
    );
    assert_eq!(Some(FieldValue::Optional(None)), read_slot(AssemblyRule::PassThrough, &empty));
    assert_eq!(None, read_slot(AssemblyRule::PassThrough, &list));
    assert_eq!(
        Some(FieldValue::Repeated(vec![Value::Int(1)])),
        read_slot(AssemblyRule::TakeSequence, &list)
    );
    assert_eq!(None, read_slot(AssemblyRule::TakeSequence, &full));
    assert_eq!(full, Slot::Single(Some(Value::Int(1))));
}

#[test]
fn copies_of_values() {
    assert_eq!(Value::Int(-3), Value::Int(-3).duplicate());
    assert_eq!(text("abc"), text("abc").duplicate());
    assert_eq!(None, duplicate_optional(&None));
    assert_eq!(Some(text("a")), duplicate_optional(&Some(text("a"))));
    assert_eq!(Vec::<Value>::new(), duplicate_all(&vec![]));
    assert_eq!(
        vec![Value::Int(1), text("b"), Value::Int(1)],
        duplicate_all(&vec![Value::Int(1), text("b"), Value::Int(1)])
    );
}

#[test]
fn assembly_step_without_its_field_fails_at_that_field() {
    let artifact = BuilderArtifact {
        builder_type_name: "OddBuilder".to_owned(),
        field_declarations: vec![],
        initializer_entries: vec![InitializerEntry {
            name: "a".to_owned(),
            value: InitialValue::Absent,
        }],
        setter_definitions: vec![],
        assembly_expression: AssemblyExpression {
            record_name: "Odd".to_owned(),
            steps: vec![
                AssemblyStep { field: "a".to_owned(), rule: AssemblyRule::PassThrough },
                AssemblyStep { field: "b".to_owned(), rule: AssemblyRule::PassThrough },
            ],
        },
    };
    let builder = Builder::new(&artifact);
    assert_eq!(Err(BuildError::MissingRequiredField("b".to_owned())), builder.build());
}

#[test]
fn field_of_a_record_is_the_first_of_its_name() {
    let record = Record {
        record_name: "R".to_owned(),
        fields: vec![
            RecordField { name: "a".to_owned(), value: FieldValue::Optional(None) },
            RecordField { name: "a".to_owned(), value: FieldValue::Repeated(vec![]) },
        ],
    };
    assert_eq!(Some(&FieldValue::Optional(None)), record.field("a"));
    assert_eq!(None, record.field("b"));
}

#[test]
fn accumulator_named_like_its_field_hides_the_replacement() {
    let artifact = synthesize(&RecordSchema {
        name: "Bag".to_owned(),
        fields: vec![with_each("items", "u8", "items")],
    })
    .unwrap();
    let mut builder = Builder::new(&artifact);
    builder
        .call("items", one(Value::Int(1)))
        .call("items", many(vec![Value::Int(7)]))
        .call("items", one(Value::Int(2)));
    let record = builder.build().unwrap();
    assert_eq!(
        Some(&FieldValue::Repeated(vec![Value::Int(1), Value::Int(2)])),
        record.field("items")
    );
}
