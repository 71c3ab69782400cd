use rglint::oneof::{Argument, Directive, InputObjectTypeDefinition, Value};
use rglint::schema::{InputValueDef, TypeRef};
use rglint::shared::oneof::{directive_arg, is_one_of_input, one_of_fields};

fn field(name: &str, ty: &str) -> InputValueDef {
    InputValueDef { name: name.to_string(), ty: TypeRef::Named(ty.to_string()), deprecated: None }
}

// input Foo @oneOf(label: "fixture") { a: String b: Int }
fn foo() -> InputObjectTypeDefinition {
    InputObjectTypeDefinition {
        name: "Foo".to_string(),
        directives: vec![Directive {
            name: "oneOf".to_string(),
            arguments: vec![Argument { name: "label".to_string(), value: Value::String("fixture".to_string()) }],
        }],
        fields: vec![field("a", "String"), field("b", "Int")],
    }
}

// input Bar { c: String }
fn bar() -> InputObjectTypeDefinition {
    InputObjectTypeDefinition {
        name: "Bar".to_string(),
        directives: vec![],
        fields: vec![field("c", "String")],
    }
}

#[test]
fn detects_oneof_and_returns_fields_in_source_order() {
    let foo = foo();
    let bar = bar();

    assert!(is_one_of_input(&foo));
    assert_eq!(
        one_of_fields(&foo).iter().map(|field| field.name.as_str()).collect::<Vec<_>>(),
        ["a", "b"]
    );
    assert!(!is_one_of_input(&bar));
    assert_eq!(one_of_fields(&bar).len(), 1);
}

#[test]
fn reads_a_specified_directive_argument_without_requiring_schema() {
    let foo = foo();

    assert!(matches!(
        directive_arg(&foo, "label"),
        Some(Value::String(value)) if value.as_str() == "fixture"
    ));
    assert!(directive_arg(&foo, "missing").is_none());
}

#[test]
fn other_directives_do_not_mark_oneof() {
    let mut foo = foo();
    foo.directives[0].name = "deprecated".to_string();
    assert!(!is_one_of_input(&foo));
    assert!(directive_arg(&foo, "label").is_none());
}

#[test]
fn the_first_oneof_directive_and_argument_are_read() {
    let mut foo = foo();
    foo.directives[0].arguments.push(Argument { name: "label".to_string(), value: Value::Int("2".to_string()) });
    foo.directives.push(Directive {
        name: "oneOf".to_string(),
        arguments: vec![Argument { name: "other".to_string(), value: Value::Boolean(true) }],
    });
    assert!(matches!(directive_arg(&foo, "label"), Some(Value::String(v)) if v == "fixture"));
    assert!(directive_arg(&foo, "other").is_none());
}
