use paste_json::csharp::CSharpType;
use paste_json::generator::ClassGenerator;
use paste_json::json::{Json, Number};
use paste_json::model::GenError;

fn obj(entries: Vec<(&str, Json)>) -> Json {
    Json::Object(entries.into_iter().map(|(k, v)| (k.to_string(), v)).collect())
}

fn num(n: i64) -> Json {
    if n < 0 {
        Json::Number(Number::NegInt(n))
    } else {
        Json::Number(Number::PosInt(n as u64))
    }
}

fn text(s: &str) -> Json {
    Json::Str(s.to_string())
}

fn generate(v: &Json) -> Result<String, GenError> {
    let mut generator = ClassGenerator::new();
    generator.generate(v)
}

fn type_of(name: &str, v: &Json) -> Result<String, GenError> {
    let mut generator = ClassGenerator::new();
    let key = name.to_string();
    generator.find_type((&key, v)).map(|t| t.as_str().to_string())
}

#[test]
fn root_and_nested_class() {
    let doc = obj(vec![
        ("id", num(5)),
        ("name", text("Alice")),
        ("address", obj(vec![("city", text("Seattle")), ("zip", num(98105))])),
    ]);
    let expected = "public class Root\n{\n    public int id { get; set; }\n    public string name { get; set; }\n    public Address address { get; set; }\n}\n\npublic class Address\n{\n    public string city { get; set; }\n    public int zip { get; set; }\n}\n";
    assert_eq!(generate(&doc), Ok(expected.to_string()));
}

#[test]
fn empty_array_is_rejected() {
    let doc = obj(vec![("tags", Json::Array(vec![]))]);
    assert_eq!(generate(&doc), Err(GenError::EmptyArray));
}

#[test]
fn nested_empty_array_is_rejected() {
    let doc = obj(vec![("grid", Json::Array(vec![Json::Array(vec![])]))]);
    assert_eq!(generate(&doc), Err(GenError::EmptyArray));
}

#[test]
fn null_is_rejected() {
    let doc = obj(vec![("id", num(1)), ("note", Json::Null)]);
    assert_eq!(generate(&doc), Err(GenError::NullValue));
}

#[test]
fn top_level_must_be_object() {
    assert_eq!(generate(&Json::Array(vec![num(1)])), Err(GenError::NotObject));
    assert_eq!(generate(&text("hello")), Err(GenError::NotObject));
}

#[test]
fn empty_object_gives_empty_root() {
    assert_eq!(generate(&obj(vec![])), Ok("public class Root\n{\n}\n".to_string()));
}

#[test]
fn nested_arrays_count_levels() {
    let v = Json::Array(vec![
        Json::Array(vec![num(1), num(2)]),
        Json::Array(vec![num(3)]),
    ]);
    assert_eq!(type_of("nums", &v), Ok("int[][]".to_string()));
    let s = Json::Array(vec![text("a"), text("b")]);
    assert_eq!(type_of("tags", &s), Ok("string[]".to_string()));
}

#[test]
fn flatten_type_of_array() {
    let mut generator = ClassGenerator::new();
    let key = "nums".to_string();
    let v = Json::Array(vec![Json::Array(vec![num(14), num(-3), num(8)])]);
    assert_eq!(generator.flatten_type((&key, &v)), Ok("int[][]".to_string()));
}

#[test]
fn numbers_are_classified() {
    assert_eq!(type_of("n", &num(5)), Ok("int".to_string()));
    assert_eq!(type_of("n", &num(-7)), Ok("int".to_string()));
    assert_eq!(type_of("n", &Json::Number(Number::PosInt(i64::MAX as u64))), Ok("int".to_string()));
    assert_eq!(type_of("n", &Json::Number(Number::Float)), Ok("float".to_string()));
    assert_eq!(type_of("n", &Json::Number(Number::PosInt(u64::MAX))), Ok("uint".to_string()));
    assert_eq!(
        type_of("n", &Json::Number(Number::PosInt(i64::MAX as u64 + 1))),
        Ok("uint".to_string())
    );
}

#[test]
fn other_primitives() {
    assert_eq!(type_of("ok", &Json::Bool(true)), Ok("bool".to_string()));
    assert_eq!(type_of("s", &text("")), Ok("string".to_string()));
}

#[test]
fn array_of_objects_names_class() {
    let doc = obj(vec![("items", Json::Array(vec![obj(vec![("x", num(1))])]))]);
    let expected = "public class Root\n{\n    public Items[] items { get; set; }\n}\n\npublic class Items\n{\n    public int x { get; set; }\n}\n";
    assert_eq!(generate(&doc), Ok(expected.to_string()));
}

#[test]
fn classes_come_breadth_first() {
    let doc = obj(vec![
        ("a", obj(vec![("b", obj(vec![("v", num(1))]))])),
        ("c", obj(vec![("w", Json::Bool(false))])),
    ]);
    let expected = "public class Root\n{\n    public A a { get; set; }\n    public C c { get; set; }\n}\n\npublic class A\n{\n    public B b { get; set; }\n}\n\npublic class C\n{\n    public bool w { get; set; }\n}\n\npublic class B\n{\n    public int v { get; set; }\n}\n";
    assert_eq!(generate(&doc), Ok(expected.to_string()));
}

#[test]
fn duplicate_shapes_give_duplicate_blocks() {
    let doc = obj(vec![
        ("x", obj(vec![("address", obj(vec![("city", text("A"))]))])),
        ("y", obj(vec![("address", obj(vec![("city", text("B"))]))])),
    ]);
    let out = generate(&doc).unwrap();
    assert_eq!(out.matches("public class Address\n").count(), 2);
    assert_eq!(out.matches("public class ").count(), 5);
}

#[test]
fn one_block_per_discovered_object() {
    let doc = obj(vec![
        ("p", obj(vec![("q", obj(vec![])), ("r", Json::Array(vec![obj(vec![])]))])),
        ("s", obj(vec![])),
        ("t", num(3)),
    ]);
    let out = generate(&doc).unwrap();
    assert_eq!(out.matches("public class ").count(), 5);
    assert!(out.starts_with("public class Root\n"));
}

#[test]
fn properties_keep_entry_order() {
    let doc = obj(vec![("zeta", num(1)), ("alpha", num(2)), ("Mid", text("m"))]);
    let expected = "public class Root\n{\n    public int zeta { get; set; }\n    public int alpha { get; set; }\n    public string mid { get; set; }\n}\n";
    assert_eq!(generate(&doc), Ok(expected.to_string()));
}

#[test]
fn generation_is_repeatable() {
    let doc = obj(vec![
        ("id", num(5)),
        ("inner", obj(vec![("deep", obj(vec![("k", text("v"))]))])),
    ]);
    let mut generator = ClassGenerator::new();
    let first = generator.generate(&doc);
    let second = generator.generate(&doc);
    assert!(first.is_ok());
    assert_eq!(first, second);
    assert_eq!(first, generate(&doc));
}

#[test]
fn generator_is_reusable_after_error() {
    let bad = obj(vec![("a", obj(vec![("b", Json::Null)])), ("c", obj(vec![]))]);
    let good = obj(vec![("n", num(1))]);
    let mut generator = ClassGenerator::new();
    assert_eq!(generator.generate(&bad), Err(GenError::NullValue));
    assert_eq!(generator.generate(&good), Ok("public class Root\n{\n    public int n { get; set; }\n}\n".to_string()));
}

#[test]
fn property_names_are_lowercased() {
    let doc = obj(vec![("ZipCode", num(1)), ("HTTPStatus", text("ok"))]);
    let expected = "public class Root\n{\n    public int zipcode { get; set; }\n    public string httpstatus { get; set; }\n}\n";
    assert_eq!(generate(&doc), Ok(expected.to_string()));
}

#[test]
fn class_names_are_titlecased() {
    assert_eq!(ClassGenerator::titlecase("weather"), "Weather");
    assert_eq!(ClassGenerator::titlecase("mainInfo"), "MainInfo");
    assert_eq!(ClassGenerator::titlecase(""), "");
    assert_eq!(ClassGenerator::titlecase("élan"), "élan");
    assert_eq!(ClassGenerator::titlecase("1st"), "1st");
    assert_eq!(type_of("coord", &obj(vec![])), Ok("Coord".to_string()));
}

#[test]
fn csharp_type_text() {
    assert_eq!(CSharpType::Primitive("float").as_str(), "float");
    assert_eq!(CSharpType::Custom("Weather[]".to_string()).as_str(), "Weather[]");
}
