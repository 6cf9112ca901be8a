use wasmium_pdk::codegen::{import_module_plan, import_signatures};
use wasmium_pdk::syntax::{parse_import_module_input, parse_import_signature, ImportSyntaxError};

fn strings(items: &[&str]) -> Vec<String> {
    items.iter().map(|s| s.to_string()).collect()
}

#[test]
fn signature_with_arguments_and_return() {
    let s = parse_import_signature("concat_example(&str, &str) -> String").unwrap();
    assert_eq!(s.name, "concat_example");
    assert_eq!(s.arg_types, strings(&["&str", "&str"]));
    assert_eq!(s.ret_type, Some("String".to_string()));
}

#[test]
fn signature_as_token_text() {
    let s = parse_import_signature("concat_example (& str , & str) -> String").unwrap();
    assert_eq!(s.name, "concat_example");
    assert_eq!(s.arg_types, strings(&["& str", "& str"]));
    assert_eq!(s.ret_type, Some("String".to_string()));
}

#[test]
fn signature_without_return() {
    let s = parse_import_signature("log(&str)").unwrap();
    assert_eq!(s.name, "log");
    assert_eq!(s.arg_types, strings(&["&str"]));
    assert_eq!(s.ret_type, None);
}

#[test]
fn signature_without_arguments() {
    let s = parse_import_signature(" now ( ) -> u64 ").unwrap();
    assert_eq!(s.name, "now");
    assert!(s.arg_types.is_empty());
    assert_eq!(s.ret_type, Some("u64".to_string()));
}

#[test]
fn signature_keeps_generic_commas_inside_a_type() {
    let s = parse_import_signature("put(HashMap<K, V>, (u8, u16), [u8; 4]) -> Vec<u8>").unwrap();
    assert_eq!(s.arg_types, strings(&["HashMap<K, V>", "(u8, u16)", "[u8; 4]"]));
    assert_eq!(s.ret_type, Some("Vec<u8>".to_string()));
}

#[test]
fn signature_arrow_inside_an_argument_type() {
    let s = parse_import_signature("call(fn(u8) -> u8, u32)").unwrap();
    assert_eq!(s.arg_types, strings(&["fn(u8) -> u8", "u32"]));
    assert_eq!(s.ret_type, None);
}

#[test]
fn signature_allows_trailing_comma() {
    let s = parse_import_signature("f(u8,)").unwrap();
    assert_eq!(s.arg_types, strings(&["u8"]));
}

#[test]
fn signature_errors() {
    assert_eq!(parse_import_signature("f").unwrap_err(), ImportSyntaxError::MissingArguments);
    assert_eq!(parse_import_signature("f(u8").unwrap_err(), ImportSyntaxError::MissingArguments);
    assert_eq!(parse_import_signature("1f(u8)").unwrap_err(), ImportSyntaxError::InvalidName);
    assert_eq!(parse_import_signature("fn(u8)").unwrap_err(), ImportSyntaxError::InvalidName);
    assert_eq!(parse_import_signature("f(1u8)").unwrap_err(), ImportSyntaxError::InvalidType);
    assert_eq!(parse_import_signature("f(u8, , u8)").unwrap_err(), ImportSyntaxError::InvalidType);
    assert_eq!(parse_import_signature("f(u8) String").unwrap_err(), ImportSyntaxError::InvalidReturn);
    assert_eq!(parse_import_signature("f(u8) ->").unwrap_err(), ImportSyntaxError::InvalidReturn);
}

#[test]
fn module_input_as_token_text() {
    let (module, sigs) =
        parse_import_module_input("\"env\" , (concat_example (& str , & str) -> String ,)").unwrap();
    assert_eq!(module, "env");
    assert_eq!(sigs.len(), 1);
    assert_eq!(sigs[0].name, "concat_example");
    assert_eq!(sigs[0].arg_types, strings(&["& str", "& str"]));
    assert_eq!(sigs[0].ret_type, Some("String".to_string()));
}

#[test]
fn module_input_of_the_runtime() {
    let (module, sigs) = parse_import_module_input("\"wasmium_sys\", (\n\tlog(&str),\n)").unwrap();
    assert_eq!(module, "wasmium_sys");
    assert_eq!(sigs.len(), 1);
    assert_eq!(sigs[0].name, "log");
    assert_eq!(sigs[0].ret_type, None);
}

#[test]
fn module_input_with_several_signatures() {
    let (module, sigs) = parse_import_module_input("\"host\", (a(u8) -> u8, b(), c(Vec<(u8, u8)>))").unwrap();
    assert_eq!(module, "host");
    let names: Vec<&str> = sigs.iter().map(|s| s.name.as_str()).collect();
    assert_eq!(names, vec!["a", "b", "c"]);
    assert_eq!(sigs[2].arg_types, strings(&["Vec<(u8, u8)>"]));
}

#[test]
fn module_input_empty_list_and_escaped_name() {
    let (module, sigs) = parse_import_module_input("\"a\\x41\", ()").unwrap();
    assert_eq!(module, "aA");
    assert!(sigs.is_empty());
}

#[test]
fn module_input_errors() {
    assert_eq!(parse_import_module_input("").unwrap_err(), ImportSyntaxError::MissingList);
    assert_eq!(parse_import_module_input("\"env\"").unwrap_err(), ImportSyntaxError::MissingList);
    assert_eq!(parse_import_module_input("\"env\" (log(&str))").unwrap_err(), ImportSyntaxError::MissingList);
    assert_eq!(parse_import_module_input("\"env\", log(&str)").unwrap_err(), ImportSyntaxError::MissingList);
    assert_eq!(parse_import_module_input("\"env\", log(&str))").unwrap_err(), ImportSyntaxError::MissingList);
    assert_eq!(parse_import_module_input("env, (log(&str))").unwrap_err(), ImportSyntaxError::InvalidModuleName);
    assert_eq!(parse_import_module_input("\"env\", (log)").unwrap_err(), ImportSyntaxError::MissingArguments);
    assert_eq!(parse_import_module_input("\"env\", (ok(u8), bad(1))").unwrap_err(), ImportSyntaxError::InvalidType);
}

#[test]
fn parsed_signatures_feed_the_module_plan() {
    let (module, sigs) =
        parse_import_module_input("\"env\", (concat_example(&str, &str) -> String, log(&str))").unwrap();
    let imports = import_signatures(&sigs);
    assert_eq!(imports.len(), 2);
    assert_eq!(imports[0].name, "concat_example");
    assert_eq!(imports[0].arg_count, 2);
    assert!(imports[0].has_return);
    assert_eq!(imports[1].name, "log");
    assert_eq!(imports[1].arg_count, 1);
    assert!(!imports[1].has_return);
    let plan = import_module_plan(&module, &imports);
    assert_eq!(plan.ffi_module, "__wasm_imports_env");
    assert_eq!(plan.wrappers[0].arg_names, strings(&["t0", "t1"]));
    assert!(plan.wrappers[1].returns_unit);
}
