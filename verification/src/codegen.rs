//! The decisions behind the plugin macros, on plain values: which names the
//! generated items get, and how arguments travel through MessagePack.

use crate::syntax::ImportSyntax;
use crate::text::{decimal, push_char, push_decimal, sanitize_module_ident, sanitized};
use vstd::prelude::*;
use vstd::string::StringExecFns;

verus! {

/// How a function's arguments travel as one MessagePack value.
#[derive(Debug, Clone, Copy, PartialEq, Eq, Structural)]
pub enum ArgShape {
    /// No argument: the unit value `()` travels, and an export ignores its input.
    Unit,
    /// One argument: it travels as itself.
    Single,
    /// Two or more arguments: they travel as one tuple, in order.
    Tuple,
}

/// The shape in which `count` arguments travel.
pub open spec fn shape_of(count: nat) -> ArgShape {
    if count == 0 {
        ArgShape::Unit
    } else if count == 1 {
        ArgShape::Single
    } else {
        ArgShape::Tuple
    }
}

/// No arguments travel as the unit value, one argument as itself, and any
/// two or more arguments as one tuple.
pub proof fn lemma_shape_by_count(count: nat)
    ensures
        (shape_of(count) == ArgShape::Unit) <==> count == 0,
        (shape_of(count) == ArgShape::Single) <==> count == 1,
        (shape_of(count) == ArgShape::Tuple) <==> count >= 2,
{
}

/// The shape in which `count` arguments travel.
pub fn arg_shape(count: usize) -> (s: ArgShape)
    ensures
        s == shape_of(count as nat),
        (s == ArgShape::Unit) == (count == 0),
        (s == ArgShape::Single) == (count == 1),
        (s == ArgShape::Tuple) == (count >= 2),
{
    if count == 0 {
        ArgShape::Unit
    } else if count == 1 {
        ArgShape::Single
    } else {
        ArgShape::Tuple
    }
}

/// The name of the module that holds the raw declarations of the imports
/// from the host module `module_name`: `__wasm_imports_` followed by the
/// module name with every character that is not an ASCII letter or digit
/// replaced by `_`.
pub fn ffi_module_ident(module_name: &str) -> (r: String)
    ensures
        r@ == "__wasm_imports_"@ + sanitized(module_name@),
{
    let mut r = String::from_str("__wasm_imports_");
    let tail = sanitize_module_ident(module_name);
    r.append(tail.as_str());
    r
}

/// The name of the module that holds the export wrapper of `fn_name`:
/// `__` followed by the function's name.
pub fn wrapper_module_ident(fn_name: &str) -> (r: String)
    ensures
        r@ == "__"@ + fn_name@,
{
    let mut r = String::from_str("__");
    r.append(fn_name);
    r
}

/// The name of the `i`-th parameter of an import wrapper: `t` followed by `i`.
pub open spec fn arg_name(i: nat) -> Seq<char> {
    seq!['t'] + decimal(i)
}

/// The parameter names of an import wrapper with `count` parameters:
/// `t0`, `t1`, and so on.
pub fn import_arg_names(count: usize) -> (names: Vec<String>)
    ensures
        names@.len() == count,
        forall|i: int| 0 <= i < count ==> #[trigger] names@[i]@ == arg_name(i as nat),
{
    let mut names: Vec<String> = Vec::new();
    let mut i: usize = 0;
    while i < count
        invariant
            i <= count,
            names@.len() == i,
            forall|k: int| 0 <= k < i ==> #[trigger] names@[k]@ == arg_name(k as nat),
        decreases count - i,
    {
        let mut name = String::new();
        push_char(&mut name, 't');
        push_decimal(&mut name, i as u64);
        assert(name@ =~= arg_name(i as nat));
        names.push(name);
        i = i + 1;
    }
    names
}

/// What the export wrapper generated for a plugin function is made of.
pub struct ExportPlan {
    /// The module that holds the wrapper.
    pub wrapper_module: String,
    /// The symbol under which the wrapper is exported: the function's name.
    pub export_name: String,
    /// How the wrapper decodes its input.
    pub input: ArgShape,
}

/// The export plan for the plugin function `fn_name` with `typed_args`
/// typed parameters (a receiver does not count).
pub fn wasmium_fn_plan(fn_name: &str, typed_args: usize) -> (plan: ExportPlan)
    ensures
        plan.wrapper_module@ == "__"@ + fn_name@,
        plan.export_name@ == fn_name@,
        plan.input == shape_of(typed_args as nat),
        (plan.input == ArgShape::Tuple) == (typed_args >= 2),
{
    ExportPlan {
        wrapper_module: wrapper_module_ident(fn_name),
        export_name: String::from_str(fn_name),
        input: arg_shape(typed_args),
    }
}

/// One host function named in `import_module!`.
pub struct ImportSignature {
    /// The function's name, which is also its name in the host module.
    pub name: String,
    /// How many arguments it takes.
    pub arg_count: usize,
    /// Whether it declares a return type; without one it returns `()`.
    pub has_return: bool,
}

/// Whether `sig` describes the parsed signature `s`: the same name, as many
/// arguments as `s` has argument types, and a return value exactly when `s`
/// has a return type.
pub open spec fn describes(s: ImportSyntax, sig: ImportSignature) -> bool {
    &&& sig.name@ == s.name@
    &&& sig.arg_count == s.arg_types@.len()
    &&& sig.has_return == (s.ret_type is Some)
}

/// The host function described by the parsed signature `s`.
pub fn import_signature_of(s: &ImportSyntax) -> (sig: ImportSignature)
    ensures
        describes(*s, sig),
{
    ImportSignature {
        name: s.name.clone(),
        arg_count: s.arg_types.len(),
        has_return: s.ret_type.is_some(),
    }
}

/// The host functions described by the parsed signatures `syntaxes`, in order.
pub fn import_signatures(syntaxes: &Vec<ImportSyntax>) -> (sigs: Vec<ImportSignature>)
    ensures
        sigs@.len() == syntaxes@.len(),
        forall|i: int| 0 <= i < syntaxes@.len() ==> describes(#[trigger] syntaxes@[i], sigs@[i]),
{
    let mut sigs: Vec<ImportSignature> = Vec::new();
    let mut i: usize = 0;
    while i < syntaxes.len()
        invariant
            i <= syntaxes@.len(),
            sigs@.len() == i,
            forall|k: int| 0 <= k < i ==> describes(#[trigger] syntaxes@[k], sigs@[k]),
        decreases syntaxes@.len() - i,
    {
        sigs.push(import_signature_of(&syntaxes[i]));
        i = i + 1;
    }
    sigs
}

/// What the safe wrapper generated for one host function is made of.
pub struct ImportWrapperPlan {
    /// The wrapper's name.
    pub name: String,
    /// The name the raw declaration links to in the host module.
    pub link_name: String,
    /// The wrapper's parameter names.
    pub arg_names: Vec<String>,
    /// How the arguments travel to the host.
    pub input: ArgShape,
    /// Whether the wrapper returns `()`.
    pub returns_unit: bool,
}

/// What `import_module!` generates for one host module.
pub struct ImportModulePlan {
    /// The host module the functions are imported from.
    pub wasm_module: String,
    /// The module that holds the raw declarations.
    pub ffi_module: String,
    /// One wrapper for each host function, in the order they were named.
    pub wrappers: Vec<ImportWrapperPlan>,
}

/// Whether `w` is the wrapper plan for the host function `sig`.
pub open spec fn wrapper_for(sig: ImportSignature, w: ImportWrapperPlan) -> bool {
    &&& w.name@ == sig.name@
    &&& w.link_name@ == sig.name@
    &&& w.arg_names@.len() == sig.arg_count
    &&& forall|k: int| 0 <= k < sig.arg_count ==> #[trigger] w.arg_names@[k]@ == arg_name(k as nat)
    &&& w.input == shape_of(sig.arg_count as nat)
    &&& w.returns_unit == !sig.has_return
}

/// The wrapper plan for one host function.
pub fn import_wrapper_plan(sig: &ImportSignature) -> (w: ImportWrapperPlan)
    ensures
        wrapper_for(*sig, w),
{
    ImportWrapperPlan {
        name: sig.name.clone(),
        link_name: sig.name.clone(),
        arg_names: import_arg_names(sig.arg_count),
        input: arg_shape(sig.arg_count),
        returns_unit: !sig.has_return,
    }
}

/// The plan of `import_module!` for the host module `module_name` and the
/// host functions `imports`.
pub fn import_module_plan(module_name: &str, imports: &Vec<ImportSignature>) -> (plan:
    ImportModulePlan)
    ensures
        plan.wasm_module@ == module_name@,
        plan.ffi_module@ == "__wasm_imports_"@ + sanitized(module_name@),
        plan.wrappers@.len() == imports@.len(),
        forall|i: int|
            0 <= i < imports@.len() ==> wrapper_for(#[trigger] imports@[i], plan.wrappers@[i]),
{
    let mut wrappers: Vec<ImportWrapperPlan> = Vec::new();
    let mut i: usize = 0;
    while i < imports.len()
        invariant
            i <= imports@.len(),
            wrappers@.len() == i,
            forall|k: int| 0 <= k < i ==> wrapper_for(#[trigger] imports@[k], wrappers@[k]),
        decreases imports@.len() - i,
    {
        wrappers.push(import_wrapper_plan(&imports[i]));
        i = i + 1;
    }
    ImportModulePlan {
        wasm_module: String::from_str(module_name),
        ffi_module: ffi_module_ident(module_name),
        wrappers,
    }
}

} // verus!
