use named_params::casing::pascal_case;
use named_params::rewritten::{add_numbers, append_elements, AddNumbersArgs, AppendElementsArgs};
use named_params::transform::{named_params, render_param, render_record, FnInput};
use named_params::types::{lifetime_adjusted, replace_lifetimes_with_a, TransformError, TypeShape};

fn other(text: &str) -> TypeShape {
    TypeShape::Other(text.to_string())
}

fn reference(elem: &str, mutable: bool) -> TypeShape {
    TypeShape::Reference { lifetime: None, mutable, elem: elem.to_string() }
}

fn named(name: &str, ty: TypeShape) -> FnInput {
    FnInput::Named { name: name.to_string(), ty }
}

fn text_of(ty: &TypeShape) -> String {
    let mut out = String::new();
    named_params::types::render_type_into(&mut out, ty);
    out
}

#[test]
fn test_everything() {
    assert_eq!(add_numbers(AddNumbersArgs { foo: 2, bar: 3 }), 5);
    assert_eq!(append_elements(AppendElementsArgs { string: "foo", slice: &[1, 2, 3] }), "foo, 1, 2, 3");
}

#[test]
fn append_elements_empty_slice_and_large_numbers() {
    assert_eq!(append_elements(AppendElementsArgs { string: "x", slice: &[] }), "x");
    assert_eq!(append_elements(AppendElementsArgs { string: "", slice: &[0, 10, 907] }), ", 0, 10, 907");
    let big = usize::MAX;
    assert_eq!(append_elements(AppendElementsArgs { string: "m", slice: &[big] }), format!("m, {}", big));
}

#[test]
fn add_numbers_at_the_limit() {
    assert_eq!(add_numbers(AddNumbersArgs { foo: usize::MAX - 1, bar: 1 }), usize::MAX);
    assert_eq!(add_numbers(AddNumbersArgs { foo: 0, bar: 0 }), 0);
}

#[test]
fn pascal_case_of_snake_case_names() {
    assert_eq!(pascal_case("add_numbers"), "AddNumbers");
    assert_eq!(pascal_case("append_elements"), "AppendElements");
    assert_eq!(pascal_case("x"), "X");
    assert_eq!(pascal_case("already"), "Already");
}

#[test]
fn pascal_case_edge_cases() {
    assert_eq!(pascal_case(""), "");
    assert_eq!(pascal_case("_"), "");
    assert_eq!(pascal_case("__a__b_"), "AB");
    assert_eq!(pascal_case("mixed_Case_x2"), "MixedCaseX2");
    assert_eq!(pascal_case("über_straße"), "ÜberStraße");
    assert_eq!(pascal_case("ß_x"), "SSX");
}

#[test]
fn lifetime_given_to_plain_reference() {
    let mut ty = reference("str", false);
    assert_eq!(replace_lifetimes_with_a(&mut ty), Ok(true));
    assert_eq!(text_of(&ty), "&'a str");
    let mut ty = reference("[usize]", true);
    assert_eq!(replace_lifetimes_with_a(&mut ty), Ok(true));
    assert_eq!(text_of(&ty), "&'a mut [usize]");
}

#[test]
fn lifetime_not_given_to_other_types() {
    let mut ty = other("Vec<u8>");
    assert_eq!(replace_lifetimes_with_a(&mut ty), Ok(false));
    assert_eq!(text_of(&ty), "Vec<u8>");
}

#[test]
fn lifetime_given_inside_nested_tuples() {
    let mut ty = TypeShape::Tuple(vec![
        other("u8"),
        TypeShape::Tuple(vec![reference("str", false)]),
        reference("u16", true),
    ]);
    assert_eq!(replace_lifetimes_with_a(&mut ty), Ok(true));
    assert_eq!(text_of(&ty), "(u8, (&'a str,), &'a mut u16)");
    let mut plain = TypeShape::Tuple(vec![other("u8"), TypeShape::Tuple(vec![])]);
    assert_eq!(replace_lifetimes_with_a(&mut plain), Ok(false));
    assert_eq!(text_of(&plain), "(u8, ())");
}

#[test]
fn explicit_lifetime_is_refused() {
    let explicit = TypeShape::Reference { lifetime: Some("'b".to_string()), mutable: false, elem: "str".to_string() };
    let mut ty = TypeShape::Tuple(vec![reference("u8", false), explicit]);
    assert_eq!(replace_lifetimes_with_a(&mut ty), Err(TransformError::ExplicitLifetime));
    assert_eq!(text_of(&ty), "(&u8, &'b str)");
    assert!(lifetime_adjusted(&ty).is_err());
}

#[test]
fn rewrite_of_add_numbers() {
    let inputs = vec![named("foo", other("usize")), named("bar", other("usize"))];
    let x = named_params("add_numbers", &inputs).unwrap();
    assert_eq!(x.record.name, "AddNumbersArgs");
    assert!(!x.record.has_lifetime);
    assert_eq!(x.record.fields.len(), 2);
    assert_eq!(x.record_text, "struct AddNumbersArgs { foo: usize, bar: usize }");
    assert_eq!(x.param_text, "AddNumbersArgs { foo, bar }: AddNumbersArgs");
    assert_eq!(render_record(&x.record), x.record_text);
    assert_eq!(render_param(&x.record), x.param_text);
}

#[test]
fn rewrite_of_append_elements() {
    let inputs = vec![named("string", reference("str", false)), named("slice", reference("[usize]", false))];
    let x = named_params("append_elements", &inputs).unwrap();
    assert!(x.record.has_lifetime);
    assert_eq!(x.record_text, "struct AppendElementsArgs<'a> { string: &'a str, slice: &'a [usize] }");
    assert_eq!(x.param_text, "AppendElementsArgs { string, slice }: AppendElementsArgs");
}

#[test]
fn rewrite_without_parameters() {
    let x = named_params("tick", &vec![]).unwrap();
    assert_eq!(x.record_text, "struct TickArgs {  }");
    assert_eq!(x.param_text, "TickArgs {  }: TickArgs");
}

#[test]
fn rewrite_passes_over_destructured_parameters() {
    let inputs = vec![FnInput::Destructured, named("n", reference("u8", false)), FnInput::Destructured];
    let x = named_params("one_of_three", &inputs).unwrap();
    assert_eq!(x.record_text, "struct OneOfThreeArgs<'a> { n: &'a u8 }");
    assert_eq!(x.param_text, "OneOfThreeArgs { n }: OneOfThreeArgs");
}

#[test]
fn rewrite_refuses_self_receiver() {
    let inputs = vec![FnInput::Receiver, named("n", other("u8"))];
    assert_eq!(named_params("method", &inputs).err(), Some(TransformError::SelfReceiver));
    let inputs = vec![named("n", other("u8")), FnInput::Receiver];
    assert_eq!(named_params("method", &inputs).err(), Some(TransformError::SelfReceiver));
}

#[test]
fn rewrite_refuses_explicit_lifetime() {
    let explicit = TypeShape::Reference { lifetime: Some("'b".to_string()), mutable: false, elem: "str".to_string() };
    let inputs = vec![named("s", explicit), FnInput::Receiver];
    assert_eq!(named_params("f", &inputs).err(), Some(TransformError::ExplicitLifetime));
}

#[test]
fn rewrite_reports_the_first_error() {
    let explicit = TypeShape::Reference { lifetime: Some("'b".to_string()), mutable: true, elem: "u8".to_string() };
    let inputs = vec![FnInput::Receiver, named("s", explicit)];
    assert_eq!(named_params("f", &inputs).err(), Some(TransformError::SelfReceiver));
}

#[test]
fn record_declares_lifetime_only_when_a_field_uses_it() {
    let inputs = vec![named("a", other("u8")), named("pair", TypeShape::Tuple(vec![other("u8"), reference("T", false)]))];
    let x = named_params("with_pair", &inputs).unwrap();
    assert!(x.record.has_lifetime);
    assert_eq!(x.record_text, "struct WithPairArgs<'a> { a: u8, pair: (u8, &'a T) }");
    let inputs = vec![named("a", other("u8")), named("pair", TypeShape::Tuple(vec![other("u8"), other("T")]))];
    let x = named_params("with_pair", &inputs).unwrap();
    assert!(!x.record.has_lifetime);
    assert_eq!(x.record_text, "struct WithPairArgs { a: u8, pair: (u8, T) }");
}

#[test]
fn one_field_per_named_parameter_in_order() {
    let inputs = vec![
        named("z", other("u8")),
        FnInput::Destructured,
        named("y", reference("str", true)),
        named("x", other("bool")),
    ];
    let x = named_params("f", &inputs).unwrap();
    let names: Vec<&str> = x.record.fields.iter().map(|f| f.name.as_str()).collect();
    assert_eq!(names, vec!["z", "y", "x"]);
    assert_eq!(x.record_text, "struct FArgs<'a> { z: u8, y: &'a mut str, x: bool }");
    assert_eq!(x.param_text, "FArgs { z, y, x }: FArgs");
}
