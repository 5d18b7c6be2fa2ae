use schema_infer::emit::Namer;
use schema_infer::generate::{emit_decls, infer_all, render};
use schema_infer::harness::{raw_hashes, with_tests};
use schema_infer::lines::{document_units, split_lines};
use schema_infer::merge::{infer, merge};
use schema_infer::options::Options;
use schema_infer::text::{escape_str, field_ident, pascal_case};
use schema_infer::ty::{Field, Ty};
use schema_infer::value::{JsonValue, Member};

fn obj(members: Vec<(&str, JsonValue)>) -> JsonValue {
    JsonValue::Object(
        members
            .into_iter()
            .map(|(k, v)| Member { key: k.to_string(), value: v })
            .collect(),
    )
}

fn fields(t: &Ty) -> &Vec<Field> {
    match t {
        Ty::Object(fs) => fs,
        other => panic!("not an object: {:?}", other),
    }
}

fn declarations(root_name: &String, t: &Ty) -> String {
    render(&emit_decls(root_name, t))
}

fn build_from_values(root_name: &String, samples: &Vec<JsonValue>) -> String {
    declarations(root_name, &infer_all(samples))
}

fn root() -> String {
    "Root".to_string()
}

#[test]
fn single_document_integer_and_text_fields() {
    let v = obj(vec![("a", JsonValue::Int), ("b", JsonValue::Str("x".to_string()))]);
    let t = infer_all(&vec![v]);
    let fs = fields(&t);
    assert_eq!(fs.len(), 2);
    assert_eq!(fs[0].name, "a");
    assert!(matches!(fs[0].ty, Ty::Int));
    assert!(!fs[0].optional);
    assert_eq!(fs[1].name, "b");
    assert!(matches!(fs[1].ty, Ty::Str));
    assert!(!fs[1].optional);
    let text = declarations(&root(), &t);
    assert!(text.contains("pub struct Root {\n    pub a: i64,\n    pub b: String,\n}\n"));
    assert_eq!(text.matches("pub struct").count(), 1);
}

#[test]
fn two_lines_widen_integer_to_float() {
    let t = infer_all(&vec![obj(vec![("a", JsonValue::Int)]), obj(vec![("a", JsonValue::Float)])]);
    let fs = fields(&t);
    assert_eq!(fs.len(), 1);
    assert!(matches!(fs[0].ty, Ty::Float));
    assert!(!fs[0].optional);
    assert!(declarations(&root(), &t).contains("    pub a: f64,\n"));
}

#[test]
fn field_missing_from_one_line_is_optional() {
    let t = infer_all(&vec![obj(vec![("a", JsonValue::Int)]), obj(vec![])]);
    let fs = fields(&t);
    assert_eq!(fs.len(), 1);
    assert!(matches!(fs[0].ty, Ty::Int));
    assert!(fs[0].optional);
    assert!(declarations(&root(), &t).contains("    pub a: Option<i64>,\n"));
}

#[test]
fn empty_input_gives_unit_and_an_empty_root() {
    let t = infer_all(&vec![]);
    assert!(matches!(t, Ty::Unit));
    let text = declarations(&root(), &t);
    assert!(text.contains("pub struct Root {}\n"));
    let ds = emit_decls(&root(), &t);
    assert_eq!(ds.len(), 1);
    assert_eq!(ds[0].name, "Root");
}

#[test]
fn two_samples_give_two_numbered_test_cases() {
    let decls = build_from_values(&root(), &vec![obj(vec![("a", JsonValue::Int)]), obj(vec![("a", JsonValue::Int)])]);
    let samples = vec!["{\n  \"a\": 1\n}".to_string(), "{\n  \"a\": 2\n}".to_string()];
    let out = with_tests(&decls, &root(), &samples, true);
    assert!(out.starts_with(&decls));
    assert_eq!(out.matches("#[test]").count(), 2);
    assert!(out.contains("fn testcase_0() {\n        const INPUT: &str = r#\"{\n  \"a\": 1\n}\"#;\n        test_runner::<Root>(INPUT);"));
    assert!(out.contains("fn testcase_1() {\n        const INPUT: &str = r#\"{\n  \"a\": 2\n}\"#;\n        test_runner::<Root>(INPUT);"));
    assert!(!out.contains("testcase_2"));
}

#[test]
fn single_document_test_case_is_named_testcase() {
    let samples = vec!["1".to_string()];
    let out = with_tests(&"decl\n".to_string(), &root(), &samples, false);
    assert!(out.contains("fn testcase() {\n        const INPUT: &str = r\"1\";"));
    assert_eq!(out.matches("#[test]").count(), 1);
}

#[test]
fn merge_with_unit_is_single_sample_inference() {
    let v = obj(vec![("a", JsonValue::Array(vec![JsonValue::Int, JsonValue::Null])), ("b", JsonValue::Bool(true))]);
    let direct = infer(&v);
    let merged = merge(Ty::Unit, infer(&v));
    assert_eq!(format!("{:?}", merged), format!("{:?}", direct));
    let merged_right = merge(infer(&v), Ty::Unit);
    assert_eq!(format!("{:?}", merged_right), format!("{:?}", direct));
}

#[test]
fn int_and_float_merge_to_float_in_both_orders() {
    assert!(matches!(merge(Ty::Int, Ty::Float), Ty::Float));
    assert!(matches!(merge(Ty::Float, Ty::Int), Ty::Float));
    assert!(matches!(merge(Ty::Int, Ty::Int), Ty::Int));
}

#[test]
fn disjoint_objects_have_every_field_optional() {
    let a = infer(&obj(vec![("x", JsonValue::Int)]));
    let b = infer(&obj(vec![("y", JsonValue::Str("s".to_string())), ("z", JsonValue::Null)]));
    let r = merge(a, b);
    let fs = fields(&r);
    let names: Vec<&str> = fs.iter().map(|f| f.name.as_str()).collect();
    assert_eq!(names, vec!["x", "y", "z"]);
    assert!(fs.iter().all(|f| f.optional));
}

#[test]
fn objects_with_same_fields_have_no_optional_field() {
    let a = infer(&obj(vec![("x", JsonValue::Int), ("y", JsonValue::Str("s".to_string()))]));
    let b = infer(&obj(vec![("y", JsonValue::Str("t".to_string())), ("x", JsonValue::Float)]));
    let r = merge(a, b);
    let fs = fields(&r);
    let names: Vec<&str> = fs.iter().map(|f| f.name.as_str()).collect();
    assert_eq!(names, vec!["x", "y"]);
    assert!(fs.iter().all(|f| !f.optional));
    assert!(matches!(fs[0].ty, Ty::Float));
}

#[test]
fn merge_order_keeps_the_field_set_and_first_seen_order() {
    let mk = |ks: &[&str]| infer(&obj(ks.iter().map(|k| (*k, JsonValue::Int)).collect()));
    let left = merge(merge(mk(&["a", "b"]), mk(&["b", "c"])), mk(&["d"]));
    let right = merge(mk(&["a", "b"]), merge(mk(&["b", "c"]), mk(&["d"])));
    let swapped = merge(mk(&["d"]), merge(mk(&["b", "c"]), mk(&["a", "b"])));
    let summary = |t: &Ty| {
        let mut v: Vec<(String, bool)> = fields(t).iter().map(|f| (f.name.clone(), f.optional)).collect();
        v.sort();
        v
    };
    assert_eq!(summary(&left), summary(&right));
    assert_eq!(summary(&left), summary(&swapped));
    let order: Vec<&str> = fields(&left).iter().map(|f| f.name.as_str()).collect();
    assert_eq!(order, vec!["a", "b", "c", "d"]);
    let order: Vec<&str> = fields(&swapped).iter().map(|f| f.name.as_str()).collect();
    assert_eq!(order, vec!["d", "b", "c", "a"]);
}

#[test]
fn incompatible_shapes_become_a_union_without_duplicates() {
    let t = merge(merge(Ty::Int, Ty::Str), merge(Ty::Float, Ty::Str));
    match &t {
        Ty::Union(vs) => {
            assert_eq!(vs.len(), 2);
            assert!(matches!(vs[0], Ty::Float));
            assert!(matches!(vs[1], Ty::Str));
        }
        other => panic!("not a union: {:?}", other),
    }
    let text = declarations(&root(), &t);
    assert!(text.contains("#[serde(untagged)]\npub enum Root {\n    Float(f64),\n    Str(String),\n}\n"));
}

#[test]
fn null_with_a_value_becomes_optional() {
    assert!(matches!(merge(Ty::Null, Ty::Bool), Ty::Optional(_)));
    assert!(matches!(merge(Ty::Str, Ty::Null), Ty::Optional(_)));
    assert!(matches!(merge(Ty::Null, Ty::Null), Ty::Null));
    let t = merge(merge(Ty::Null, Ty::Int), Ty::Float);
    match t {
        Ty::Optional(inner) => assert!(matches!(*inner, Ty::Float)),
        other => panic!("not optional: {:?}", other),
    }
}

#[test]
fn array_elements_merge_into_one_type() {
    let t = infer(&JsonValue::Array(vec![JsonValue::Int, JsonValue::Float, JsonValue::Int]));
    match t {
        Ty::Array(inner) => assert!(matches!(*inner, Ty::Float)),
        other => panic!("not an array: {:?}", other),
    }
    let empty = infer(&JsonValue::Array(vec![]));
    match empty {
        Ty::Array(inner) => assert!(matches!(*inner, Ty::Unit)),
        other => panic!("not an array: {:?}", other),
    }
}

#[test]
fn nested_objects_are_named_after_their_path_and_emitted_first() {
    let v = obj(vec![
        ("user_info", obj(vec![("name", JsonValue::Str("n".to_string()))])),
        ("items", JsonValue::Array(vec![obj(vec![("id", JsonValue::Int)])])),
    ]);
    let t = infer_all(&vec![v]);
    let ds = emit_decls(&root(), &t);
    let names: Vec<&str> = ds.iter().map(|d| d.name.as_str()).collect();
    assert_eq!(names, vec!["RootUserInfo", "RootItems", "Root"]);
    let text = render(&ds);
    assert!(text.contains("    pub user_info: RootUserInfo,\n"));
    assert!(text.contains("    pub items: Vec<RootItems>,\n"));
}

#[test]
fn name_collisions_get_numeric_suffixes() {
    let mut namer = Namer::new();
    let a = namer.fresh(&"A".to_string());
    let b = namer.fresh(&"A".to_string());
    let c = namer.fresh(&"A".to_string());
    assert_eq!((a.as_str(), b.as_str(), c.as_str()), ("A", "A2", "A3"));
    let v = obj(vec![
        ("a", obj(vec![("b", obj(vec![("x", JsonValue::Int)]))])),
        ("a_b", obj(vec![("y", JsonValue::Int)])),
        ("", obj(vec![("z", JsonValue::Int)])),
    ]);
    let ds = emit_decls(&root(), &infer(&v));
    let names: Vec<&str> = ds.iter().map(|d| d.name.as_str()).collect();
    assert_eq!(names, vec!["RootAB", "RootA", "RootAB2", "RootField", "Root"]);
}

#[test]
fn keys_that_are_not_identifiers_are_renamed() {
    let v = obj(vec![("first-name", JsonValue::Str("a".to_string())), ("first_name", JsonValue::Int), ("1st", JsonValue::Bool(false))]);
    let text = declarations(&root(), &infer(&v));
    assert!(text.contains("    #[serde(rename = \"first-name\")]\n    pub first_name: String,\n"));
    assert!(text.contains("    #[serde(rename = \"first_name\")]\n    pub first_name2: i64,\n"));
    assert!(text.contains("    #[serde(rename = \"1st\")]\n    pub f_1st: bool,\n"));
}

#[test]
fn identifiers_and_escapes() {
    assert_eq!(pascal_case("user_info"), "UserInfo");
    assert_eq!(pascal_case("--"), "Field");
    assert_eq!(field_ident("a-b"), "a_b");
    assert_eq!(field_ident("9"), "f_9");
    assert_eq!(field_ident(""), "field");
    assert_eq!(escape_str("a\"b\\c\nd"), "a\\\"b\\\\c\\nd");
}

#[test]
fn raw_literal_delimiter_is_not_in_the_sample() {
    assert_eq!(raw_hashes("plain"), 0);
    assert_eq!(raw_hashes("say \"hi\""), 1);
    assert_eq!(raw_hashes("x\"#y\"##"), 3);
    let samples = vec!["\"#\"".to_string()];
    let out = with_tests(&String::new(), &root(), &samples, false);
    assert!(out.contains("r##\"\"#\"\"##;"));
}

#[test]
fn body_lines_skip_blank_ones() {
    let lines = split_lines("{\"a\":1}\n\n  \r\n{\"a\":2}\r\n");
    assert_eq!(lines, vec!["{\"a\":1}".to_string(), "{\"a\":2}\r".to_string()]);
    assert!(split_lines("").is_empty());
    assert_eq!(split_lines("x"), vec!["x".to_string()]);
}

#[test]
fn top_level_array_root_is_an_alias() {
    let t = infer(&JsonValue::Array(vec![obj(vec![("k", JsonValue::Int)])]));
    let ds = emit_decls(&root(), &t);
    let names: Vec<&str> = ds.iter().map(|d| d.name.as_str()).collect();
    assert_eq!(names, vec!["RootItem", "Root"]);
    assert!(ds[1].text.contains("pub type Root = Vec<RootItem>;"));
}

#[test]
fn query_options() {
    let mut o = Options::new();
    assert_eq!((o.root.as_str(), o.tests, o.ndjson), ("Root", false, false));
    o.apply("root", "Payload");
    o.apply("tests", "");
    o.apply("ndjson", "true");
    o.apply("other", "x");
    assert_eq!((o.root.as_str(), o.tests, o.ndjson), ("Payload", true, true));
    o.apply("tests", "false");
    assert!(!o.tests);
}

#[test]
fn request_units_by_mode() {
    assert!(document_units("  \n\t", false).is_empty());
    assert_eq!(document_units(" {} ", false), vec![" {} ".to_string()]);
    assert_eq!(document_units("1\n\n2", true), vec!["1".to_string(), "2".to_string()]);
    assert!(document_units("", true).is_empty());
}

#[test]
fn numeric_suffixes_use_every_digit() {
    let mut namer = Namer::new();
    let mut last = String::new();
    for _ in 0..12 {
        last = namer.fresh(&"T".to_string());
    }
    assert_eq!(last, "T12");
}

#[test]
fn test_module_text_is_exact() {
    let out = with_tests(&"D\n".to_string(), &root(), &vec!["1".to_string()], false);
    let expected = "D\n\n#[cfg(test)]\nmod tests {\n    use super::Root;\n\n    fn test_runner<T: serde::de::DeserializeOwned + serde::Serialize>(input: &str) {\n        let value: T = serde_json::from_str(input).expect(\"sample decodes\");\n        serde_json::to_string(&value).expect(\"value encodes\");\n    }\n\n    #[test]\n    fn testcase() {\n        const INPUT: &str = r\"1\";\n        test_runner::<Root>(INPUT);\n    }\n}\n";
    assert_eq!(out, expected);
}

#[test]
fn keyword_keys_get_valid_identifiers() {
    assert_eq!(field_ident("type"), "r#type");
    assert_eq!(field_ident("match"), "r#match");
    assert_eq!(field_ident("self"), "self_");
    assert_eq!(field_ident("-"), "__");
    assert_eq!(field_ident("types"), "types");
    let v = obj(vec![("type", JsonValue::Int), ("Self", JsonValue::Bool(true))]);
    let text = declarations(&root(), &infer(&v));
    assert!(text.contains("    #[serde(rename = \"type\")]\n    pub r#type: i64,\n"));
    assert!(text.contains("    #[serde(rename = \"Self\")]\n    pub Self_: bool,\n"));
}

#[test]
fn integers_beyond_i64_widen_to_float() {
    let t = infer_all(&vec![obj(vec![("a", JsonValue::BigInt)])]);
    let fs = fields(&t);
    assert!(matches!(fs[0].ty, Ty::Float));
    assert!(declarations(&root(), &t).contains("    pub a: f64,\n"));
    assert!(matches!(merge(Ty::Int, infer(&JsonValue::BigInt)), Ty::Float));
}

#[test]
fn samples_needing_too_many_hashes_are_escaped() {
    let sample = format!("\"{}", "#".repeat(300));
    assert_eq!(raw_hashes(&sample), 301);
    let out = with_tests(&String::new(), &root(), &vec![sample.clone()], false);
    assert!(out.contains(&format!("const INPUT: &str = \"\\\"{}\";", "#".repeat(300))));
}
