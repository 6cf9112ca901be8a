use wasmium_pdk::codegen::{
    arg_shape, ffi_module_ident, import_arg_names, import_module_plan, wasmium_fn_plan,
    wrapper_module_ident, ArgShape, ImportSignature,
};
use wasmium_pdk::text::{push_decimal, sanitize_module_ident};

#[test]
fn sanitize_keeps_identifier_characters() {
    assert_eq!(sanitize_module_ident("wasmium_sys"), "wasmium_sys");
    assert_eq!(sanitize_module_ident("env"), "env");
}

#[test]
fn sanitize_replaces_other_characters() {
    assert_eq!(sanitize_module_ident("my-mod.v2"), "my_mod_v2");
    assert_eq!(sanitize_module_ident("héllo wörld"), "h_llo_w_rld");
    assert_eq!(sanitize_module_ident(""), "");
}

#[test]
fn sanitize_is_idempotent() {
    let once = sanitize_module_ident("a::b/c");
    assert_eq!(sanitize_module_ident(&once), once);
}

#[test]
fn ffi_module_ident_prefixes_sanitized_name() {
    assert_eq!(ffi_module_ident("wasmium_sys"), "__wasm_imports_wasmium_sys");
    assert_eq!(ffi_module_ident("my-host"), "__wasm_imports_my_host");
}

#[test]
fn wrapper_module_ident_prefixes_underscores() {
    assert_eq!(wrapper_module_ident("addition"), "__addition");
}

#[test]
fn decimal_numerals() {
    let mut s = String::from("n=");
    push_decimal(&mut s, 0);
    assert_eq!(s, "n=0");
    let mut s = String::new();
    push_decimal(&mut s, 1337);
    assert_eq!(s, "1337");
    let mut s = String::new();
    push_decimal(&mut s, u64::MAX);
    assert_eq!(s, "18446744073709551615");
}

#[test]
fn import_arg_names_count_from_zero() {
    assert_eq!(import_arg_names(0), Vec::<String>::new());
    assert_eq!(import_arg_names(3), vec!["t0", "t1", "t2"]);
    assert_eq!(import_arg_names(11)[10], "t10");
}

#[test]
fn arg_shapes() {
    assert_eq!(arg_shape(0), ArgShape::Unit);
    assert_eq!(arg_shape(1), ArgShape::Single);
    assert_eq!(arg_shape(2), ArgShape::Tuple);
    assert_eq!(arg_shape(7), ArgShape::Tuple);
}

#[test]
fn wasmium_fn_plan_for_addition() {
    let plan = wasmium_fn_plan("addition", 2);
    assert_eq!(plan.wrapper_module, "__addition");
    assert_eq!(plan.export_name, "addition");
    assert_eq!(plan.input, ArgShape::Tuple);
    assert_eq!(wasmium_fn_plan("main", 0).input, ArgShape::Unit);
}

#[test]
fn import_module_plan_for_log_and_concat() {
    let imports = vec![
        ImportSignature { name: "log".to_string(), arg_count: 1, has_return: false },
        ImportSignature { name: "concat_example".to_string(), arg_count: 2, has_return: true },
    ];
    let plan = import_module_plan("wasmium_sys", &imports);
    assert_eq!(plan.wasm_module, "wasmium_sys");
    assert_eq!(plan.ffi_module, "__wasm_imports_wasmium_sys");
    assert_eq!(plan.wrappers.len(), 2);
    assert_eq!(plan.wrappers[0].name, "log");
    assert_eq!(plan.wrappers[0].link_name, "log");
    assert_eq!(plan.wrappers[0].arg_names, vec!["t0"]);
    assert_eq!(plan.wrappers[0].input, ArgShape::Single);
    assert!(plan.wrappers[0].returns_unit);
    assert_eq!(plan.wrappers[1].arg_names, vec!["t0", "t1"]);
    assert_eq!(plan.wrappers[1].input, ArgShape::Tuple);
    assert!(!plan.wrappers[1].returns_unit);
}
