use building::builder::Builder;
use building::schema::{FieldSchema, RecordSchema, TypeExpr};
use building::synth::synthesize;
use building::value::{Argument, Value};

fn text(s: &str) -> Value {
    Value::Text(s.to_owned())
}

fn plain(name: &str, ty: &str) -> FieldSchema {
    FieldSchema {
        name: Some(name.to_owned()),
        declared_type: TypeExpr::Simple(ty.to_owned()),
        directives: vec![],
    }
}

fn list(name: &str, item: &str) -> FieldSchema {
    FieldSchema {
        name: Some(name.to_owned()),
        declared_type: TypeExpr::Parameterized(
            "Vec".to_owned(),
            vec![TypeExpr::Simple(item.to_owned())],
        ),
        directives: vec![],
    }
}

fn product() -> RecordSchema {
    RecordSchema {
        name: "Product".to_owned(),
        fields: vec![plain("id", "i32"), plain("name", "String"), list("tags", "String")],
    }
}

#[test]
fn mutable_builder() {
    let artifact = synthesize(&product()).unwrap();
    let mut builder = Builder::new(&artifact);
    builder.call("id", Argument::One(Value::Int(12)));
    builder.call("name", Argument::One(text("Foo")));
    builder.call("tags", Argument::Many(vec![text("foo"), text("bar")]));
}

#[test]
fn chaining_setters() {
    let artifact = synthesize(&product()).unwrap();
    let mut builder = Builder::new(&artifact);
    let _builder = builder
        .call("id", Argument::One(Value::Int(12)))
        .call("name", Argument::One(text("Foo")))
        .call("tags", Argument::Many(vec![text("foo"), text("bar")]));
}
