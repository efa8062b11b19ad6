use building::builder::Builder;
use building::error::BuildError;
use building::schema::{FieldSchema, RecordSchema, TypeExpr};
use building::synth::synthesize;
use building::value::{Argument, FieldValue, Value};

fn text(s: &str) -> Value {
    Value::Text(s.to_owned())
}

fn plain(name: &str, ty: &str) -> FieldSchema {
    FieldSchema {
        name: Some(name.to_owned()),
        declared_type: TypeExpr::Simple(ty.to_owned()),
        directives: vec![],
    }
}

fn list(name: &str, item: &str) -> FieldSchema {
    FieldSchema {
        name: Some(name.to_owned()),
        declared_type: TypeExpr::Parameterized(
            "Vec".to_owned(),
            vec![TypeExpr::Simple(item.to_owned())],
        ),
        directives: vec![],
    }
}

fn product() -> RecordSchema {
    RecordSchema {
        name: "Product".to_owned(),
        fields: vec![plain("id", "i64"), plain("name", "String"), list("tags", "String")],
    }
}

#[test]
fn working() {
    let artifact = synthesize(&product()).unwrap();
    let mut builder = Builder::new(&artifact);
    let product = builder
        .call("id", Argument::One(Value::Int(12)))
        .call("name", Argument::One(text("Foo")))
        .call("tags", Argument::Many(vec![text("foo"), text("bar")]))
        .build()
        .unwrap();

    assert_eq!("Product", product.record_name);
    assert_eq!(3, product.fields.len());
    assert_eq!("id", product.fields[0].name);
    assert_eq!(FieldValue::Required(Value::Int(12)), product.fields[0].value);
    assert_eq!("name", product.fields[1].name);
    assert_eq!(FieldValue::Required(text("Foo")), product.fields[1].value);
    assert_eq!("tags", product.fields[2].name);
    assert_eq!(
        FieldValue::Repeated(vec![text("foo"), text("bar")]),
        product.fields[2].value
    );
}

#[test]
fn failing() {
    let artifact = synthesize(&product()).unwrap();
    let mut builder = Builder::new(&artifact);
    let product = builder
        .call("id", Argument::One(Value::Int(12)))
        .call("tags", Argument::Many(vec![text("foo"), text("bar")]))
        .build();

    assert_eq!(product, Err(BuildError::MissingRequiredField("name".to_owned())));
    assert_eq!(
        product.map_err(|error| error.message()),
        Err("Failed to build field".to_owned())
    );
}
