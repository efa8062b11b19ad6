use building::artifact::{
    AssemblyExpression, AssemblyRule, AssemblyStep, FieldDeclaration, InitialValue,
    InitializerEntry, SetterAction, SetterDefinition, Storage,
};
use building::classify::FieldCategory;
use building::error::{BuildError, GenerationError};
use building::plan::FieldPlan;
use building::schema::{Directive, FieldSchema, RecordSchema, TypeExpr};
use building::synth::{
    assemble_artifact, assembly_step, field_declaration, has_named_fields, initializer_entry,
    is_well_formed, plan_fields, setter_definitions, synthesize,
};

fn directive(key: &str, value: &str) -> Directive {
    Directive { key: key.to_owned(), value: value.to_owned() }
}

fn simple(ty: &str) -> TypeExpr {
    TypeExpr::Simple(ty.to_owned())
}

fn wrapped(wrapper: &str, inner: &str) -> TypeExpr {
    TypeExpr::Parameterized(wrapper.to_owned(), vec![simple(inner)])
}

fn field(name: &str, declared_type: TypeExpr, directives: Vec<Directive>) -> FieldSchema {
    FieldSchema { name: Some(name.to_owned()), declared_type, directives }
}

fn positional(declared_type: TypeExpr) -> FieldSchema {
    FieldSchema { name: None, declared_type, directives: vec![] }
}

fn product() -> RecordSchema {
    RecordSchema {
        name: "Product".to_owned(),
        fields: vec![
            field("id", simple("Int"), vec![]),
            field("code", wrapped("Option", "Int"), vec![]),
            field("name", simple("String"), vec![]),
            field("tags", wrapped("Vec", "String"), vec![directive("each", "tag")]),
        ],
    }
}

fn setter(name: &str, field: &str, action: SetterAction, ty: &str) -> SetterDefinition {
    SetterDefinition {
        name: name.to_owned(),
        field: field.to_owned(),
        action,
        element_type: simple(ty),
    }
}

#[test]
fn builder_type_is_named_after_the_record() {
    let artifact = synthesize(&product()).unwrap();
    assert_eq!("ProductBuilder", artifact.builder_type_name);
    let other = RecordSchema { name: "X".to_owned(), fields: vec![field("a", simple("u8"), vec![])] };
    assert_eq!("XBuilder", synthesize(&other).unwrap().builder_type_name);
}

#[test]
fn declarations_store_a_slot_or_a_sequence() {
    let artifact = synthesize(&product()).unwrap();
    assert_eq!(
        vec![
            FieldDeclaration {
                name: "id".to_owned(),
                storage: Storage::Slot,
                element_type: simple("Int"),
            },
            FieldDeclaration {
                name: "code".to_owned(),
                storage: Storage::Slot,
                element_type: simple("Int"),
            },
            FieldDeclaration {
                name: "name".to_owned(),
                storage: Storage::Slot,
                element_type: simple("String"),
            },
            FieldDeclaration {
                name: "tags".to_owned(),
                storage: Storage::Sequence,
                element_type: simple("String"),
            },
        ],
        artifact.field_declarations
    );
}

#[test]
fn initializers_start_absent_or_empty() {
    let artifact = synthesize(&product()).unwrap();
    assert_eq!(
        vec![
            InitializerEntry { name: "id".to_owned(), value: InitialValue::Absent },
            InitializerEntry { name: "code".to_owned(), value: InitialValue::Absent },
            InitializerEntry { name: "name".to_owned(), value: InitialValue::Absent },
            InitializerEntry { name: "tags".to_owned(), value: InitialValue::EmptySequence },
        ],
        artifact.initializer_entries
    );
}

#[test]
fn accumulator_comes_right_before_the_setter_of_its_field() {
    let artifact = synthesize(&product()).unwrap();
    assert_eq!(
        vec![
            setter("id", "id", SetterAction::Overwrite, "Int"),
            setter("code", "code", SetterAction::Overwrite, "Int"),
            setter("name", "name", SetterAction::Overwrite, "String"),
            setter("tag", "tags", SetterAction::AppendOne, "String"),
            setter("tags", "tags", SetterAction::ReplaceAll, "String"),
        ],
        artifact.setter_definitions
    );
}

#[test]
fn repeated_field_without_each_has_one_setter() {
    let schema = RecordSchema {
        name: "Bag".to_owned(),
        fields: vec![field("items", wrapped("Vec", "u8"), vec![])],
    };
    let artifact = synthesize(&schema).unwrap();
    assert_eq!(
        vec![setter("items", "items", SetterAction::ReplaceAll, "u8")],
        artifact.setter_definitions
    );
}

#[test]
fn assembly_reads_each_field_by_its_category() {
    let artifact = synthesize(&product()).unwrap();
    assert_eq!(
        AssemblyExpression {
            record_name: "Product".to_owned(),
            steps: vec![
                AssemblyStep { field: "id".to_owned(), rule: AssemblyRule::RequirePresent },
                AssemblyStep { field: "code".to_owned(), rule: AssemblyRule::PassThrough },
                AssemblyStep { field: "name".to_owned(), rule: AssemblyRule::RequirePresent },
                AssemblyStep { field: "tags".to_owned(), rule: AssemblyRule::TakeSequence },
            ],
        },
        artifact.assembly_expression
    );
}

#[test]
fn fragments_of_one_plan() {
    let plan = FieldPlan {
        name: "tags".to_owned(),
        category: FieldCategory::Repeated(simple("String"), Some("tag".to_owned())),
    };
    assert_eq!(
        FieldDeclaration {
            name: "tags".to_owned(),
            storage: Storage::Sequence,
            element_type: simple("String"),
        },
        field_declaration(&plan)
    );
    assert_eq!(
        InitializerEntry { name: "tags".to_owned(), value: InitialValue::EmptySequence },
        initializer_entry(&plan)
    );
    assert_eq!(
        vec![
            setter("tag", "tags", SetterAction::AppendOne, "String"),
            setter("tags", "tags", SetterAction::ReplaceAll, "String"),
        ],
        setter_definitions(&plan)
    );
    assert_eq!(
        AssemblyStep { field: "tags".to_owned(), rule: AssemblyRule::TakeSequence },
        assembly_step(&plan)
    );
}

#[test]
fn artifact_of_no_plans_is_empty() {
    let artifact = assemble_artifact(&"Unit".to_owned(), &vec![]);
    assert_eq!("UnitBuilder", artifact.builder_type_name);
    assert!(artifact.field_declarations.is_empty());
    assert!(artifact.initializer_entries.is_empty());
    assert!(artifact.setter_definitions.is_empty());
    assert_eq!("Unit", artifact.assembly_expression.record_name);
    assert!(artifact.assembly_expression.steps.is_empty());
}

#[test]
fn record_without_fields_is_unsupported() {
    let schema = RecordSchema { name: "Unit".to_owned(), fields: vec![] };
    assert!(!has_named_fields(&schema));
    assert_eq!(Err(GenerationError::UnsupportedSchema), synthesize(&schema));
}

#[test]
fn record_with_positional_fields_is_unsupported() {
    let schema = RecordSchema {
        name: "Pair".to_owned(),
        fields: vec![positional(simple("u8")), positional(simple("u16"))],
    };
    assert!(!has_named_fields(&schema));
    assert_eq!(Err(GenerationError::UnsupportedSchema), synthesize(&schema));
}

#[test]
fn shape_is_checked_before_any_directive() {
    let schema = RecordSchema {
        name: "Mixed".to_owned(),
        fields: vec![field("a", simple("u8"), vec![directive("bogus", "x")]), positional(simple("u8"))],
    };
    assert_eq!(Err(GenerationError::UnsupportedSchema), synthesize(&schema));
    assert_eq!(
        Err(GenerationError::InvalidFieldConfig { key: "bogus".to_owned(), field: "a".to_owned() }),
        plan_fields(&schema)
    );
}

#[test]
fn unrecognized_directive_fails_generation_and_names_the_key() {
    let schema = RecordSchema {
        name: "Product".to_owned(),
        fields: vec![
            field("id", simple("i32"), vec![]),
            field("tags", wrapped("Vec", "String"), vec![directive("every", "tag")]),
        ],
    };
    assert_eq!(
        Err(GenerationError::InvalidFieldConfig {
            key: "every".to_owned(),
            field: "tags".to_owned(),
        }),
        synthesize(&schema)
    );
}

#[test]
fn the_first_field_with_an_unrecognized_directive_is_the_error() {
    let schema = RecordSchema {
        name: "Product".to_owned(),
        fields: vec![
            field("id", simple("i32"), vec![directive("each", "x")]),
            field("name", simple("String"), vec![directive("each", "y"), directive("one", "1")]),
            field("tags", wrapped("Vec", "String"), vec![directive("two", "2")]),
        ],
    };
    assert_eq!(
        Err(GenerationError::InvalidFieldConfig { key: "one".to_owned(), field: "name".to_owned() }),
        synthesize(&schema)
    );
}

#[test]
fn plans_follow_the_declaration_order() {
    let plans = plan_fields(&product()).unwrap();
    let names: Vec<&str> = plans.iter().map(|plan| plan.name.as_str()).collect();
    assert_eq!(vec!["id", "code", "name", "tags"], names);
    assert_eq!(FieldCategory::Required(simple("Int")), plans[0].category);
    assert_eq!(FieldCategory::Optional(simple("Int")), plans[1].category);
    assert_eq!(FieldCategory::Required(simple("String")), plans[2].category);
    assert_eq!(
        FieldCategory::Repeated(simple("String"), Some("tag".to_owned())),
        plans[3].category
    );
}

#[test]
fn synthesis_is_a_function_of_the_declaration() {
    assert_eq!(synthesize(&product()), synthesize(&product()));
}

#[test]
fn messages_of_the_errors() {
    assert_eq!(
        "Only named fields are supported yet",
        GenerationError::UnsupportedSchema.message()
    );
    assert_eq!(
        "Invalid field config",
        GenerationError::InvalidFieldConfig { key: "k".to_owned(), field: "f".to_owned() }.message()
    );
    assert_eq!(
        "Failed to build field",
        BuildError::MissingRequiredField("id".to_owned()).message()
    );
}

#[test]
fn well_formed_records_have_named_fields_with_distinct_names() {
    assert!(is_well_formed(&product()));
    assert!(has_named_fields(&product()));
    let empty = RecordSchema { name: "Unit".to_owned(), fields: vec![] };
    assert!(!is_well_formed(&empty));
    let tuple = RecordSchema { name: "Pair".to_owned(), fields: vec![positional(simple("u8"))] };
    assert!(!is_well_formed(&tuple));
    let twice = RecordSchema {
        name: "Twice".to_owned(),
        fields: vec![
            field("a", simple("u8"), vec![]),
            field("b", simple("u8"), vec![]),
            field("a", wrapped("Vec", "u8"), vec![]),
        ],
    };
    assert!(has_named_fields(&twice));
    assert!(!is_well_formed(&twice));
    let close = RecordSchema {
        name: "Close".to_owned(),
        fields: vec![field("a", simple("u8"), vec![]), field("A", simple("u8"), vec![])],
    };
    assert!(is_well_formed(&close));
}
