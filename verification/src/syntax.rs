//! The input grammar of `import_module!`, read from the text of its tokens:
//!
//! ```text
//! input     := "module name" , ( signature, ... )
//! signature := name ( Type, ... )  [-> Type]
//! ```
//!
//! Lists may end with a comma. Lists are split at the commas that stand
//! outside every bracket; `->` is an arrow, not a closing angle bracket. The
//! Rust types, the name and the string literal themselves are recognized by
//! `syn`.

use crate::text::push_char;
use vstd::prelude::*;

verus! {

/// Whether `c` is whitespace between tokens.
pub open spec fn is_ws(c: char) -> bool {
    c == ' ' || c == '\t' || c == '\n' || c == '\r'
}

/// `s` without its leading whitespace.
pub open spec fn trim_start(s: Seq<char>) -> Seq<char>
    decreases s.len(),
{
    if s.len() > 0 && is_ws(s[0]) {
        trim_start(s.drop_first())
    } else {
        s
    }
}

/// `s` without its trailing whitespace.
pub open spec fn trim_end(s: Seq<char>) -> Seq<char>
    decreases s.len(),
{
    if s.len() > 0 && is_ws(s.last()) {
        trim_end(s.drop_last())
    } else {
        s
    }
}

/// `s` without leading or trailing whitespace.
pub open spec fn trim(s: Seq<char>) -> Seq<char> {
    trim_end(trim_start(s))
}

/// How the character at `k` changes the bracket depth: opening brackets
/// `( [ { <` add one, closing brackets `) ] } >` take one away, except the
/// `>` of an arrow `->`.
pub open spec fn delta(s: Seq<char>, k: int) -> int {
    let c = s[k];
    if c == '(' || c == '[' || c == '{' || c == '<' {
        1
    } else if c == ')' || c == ']' || c == '}' {
        -1
    } else if c == '>' {
        if k > 0 && s[k - 1] == '-' {
            0
        } else {
            -1
        }
    } else {
        0
    }
}

/// The bracket depth before the character at `n`.
pub open spec fn depth(s: Seq<char>, n: int) -> int
    decreases n,
{
    if n <= 0 {
        0
    } else {
        depth(s, n - 1) + delta(s, n - 1)
    }
}

/// Whether the character at `k` is a comma outside every bracket.
pub open spec fn top_comma(s: Seq<char>, k: int) -> bool {
    s[k] == ',' && depth(s, k) == 0
}

/// The pieces of the first `n` characters of `s` between top-level commas:
/// the finished pieces, and the piece still open.
pub open spec fn split_prefix(s: Seq<char>, n: int) -> (Seq<Seq<char>>, Seq<char>)
    decreases n,
{
    if n <= 0 {
        (Seq::empty(), Seq::empty())
    } else {
        let p = split_prefix(s, n - 1);
        if top_comma(s, n - 1) {
            (p.0.push(p.1), Seq::empty())
        } else {
            (p.0, p.1.push(s[n - 1]))
        }
    }
}

/// The items of the comma-separated list `s`: its pieces between top-level
/// commas, where a blank last piece (after a final comma, or of an empty
/// list) is no item.
pub open spec fn list_items(s: Seq<char>) -> Seq<Seq<char>> {
    let p = split_prefix(s, s.len() as int);
    if trim(p.1).len() == 0 {
        p.0
    } else {
        p.0.push(p.1)
    }
}

/// The characters of `s`.
pub fn chars_of(s: &str) -> (v: Vec<char>)
    ensures
        v@ == s@,
{
    let mut v: Vec<char> = Vec::new();
    for c in it: s.chars()
        invariant
            it.seq() == s@,
            v@ == it.seq().take(it.index() as int),
    {
        let ghost k = it.index();
        v.push(c);
        assert(it.seq().take(k + 1) =~= it.seq().take(k as int).push(c));
    }
    assert(s@.take(s@.len() as int) =~= s@);
    v
}

/// The string made of the characters of `v`.
pub fn string_of(v: &Vec<char>) -> (s: String)
    ensures
        s@ == v@,
{
    let mut s = String::new();
    let mut i: usize = 0;
    while i < v.len()
        invariant
            i <= v@.len(),
            s@ == v@.subrange(0, i as int),
        decreases v@.len() - i,
    {
        push_char(&mut s, v[i]);
        i = i + 1;
        assert(s@ =~= v@.subrange(0, i as int));
    }
    assert(v@.subrange(0, v@.len() as int) =~= v@);
    s
}

/// The characters of `v` from `a` up to `b`.
fn sub_chars(v: &Vec<char>, a: usize, b: usize) -> (r: Vec<char>)
    requires
        a <= b <= v@.len(),
    ensures
        r@ == v@.subrange(a as int, b as int),
{
    let mut r: Vec<char> = Vec::new();
    let mut i: usize = a;
    while i < b
        invariant
            a <= i <= b,
            b <= v@.len(),
            r@ == v@.subrange(a as int, i as int),
        decreases b - i,
    {
        r.push(v[i]);
        i = i + 1;
        assert(r@ =~= v@.subrange(a as int, i as int));
    }
    r
}

fn is_ws_char(c: char) -> (b: bool)
    ensures
        b == is_ws(c),
{
    c == ' ' || c == '\t' || c == '\n' || c == '\r'
}

/// `v` without leading or trailing whitespace.
pub fn trim_chars(v: &Vec<char>) -> (r: Vec<char>)
    ensures
        r@ == trim(v@),
{
    let n = v.len();
    let mut i: usize = 0;
    assert(v@.subrange(0, n as int) =~= v@);
    while i < n && is_ws_char(v[i])
        invariant
            i <= n,
            n == v@.len(),
            trim_start(v@) == trim_start(v@.subrange(i as int, n as int)),
        decreases n - i,
    {
        assert(v@.subrange(i as int, n as int).drop_first() =~= v@.subrange(i + 1, n as int));
        i = i + 1;
    }
    if i < n {
        assert(!is_ws(v@.subrange(i as int, n as int)[0]));
    } else {
        assert(v@.subrange(i as int, n as int).len() == 0);
    }
    assert(trim_start(v@) == v@.subrange(i as int, n as int));
    let mut j: usize = n;
    while j > i && is_ws_char(v[j - 1])
        invariant
            i <= j <= n,
            n == v@.len(),
            trim(v@) == trim_end(v@.subrange(i as int, j as int)),
        decreases j - i,
    {
        assert(v@.subrange(i as int, j as int).drop_last() =~= v@.subrange(i as int, j - 1));
        j = j - 1;
    }
    if j > i {
        assert(!is_ws(v@.subrange(i as int, j as int).last()));
    }
    assert(trim(v@) == v@.subrange(i as int, j as int));
    sub_chars(v, i, j)
}

/// The change of bracket depth at `k`.
fn delta_at(v: &Vec<char>, k: usize) -> (d: i8)
    requires
        k < v@.len(),
    ensures
        d == delta(v@, k as int),
{
    let c = v[k];
    if c == '(' || c == '[' || c == '{' || c == '<' {
        1
    } else if c == ')' || c == ']' || c == '}' {
        -1
    } else if c == '>' {
        if k > 0 && v[k - 1] == '-' {
            0
        } else {
            -1
        }
    } else {
        0
    }
}

/// The items of the comma-separated list `v`.
pub fn split_items(v: &Vec<char>) -> (items: Vec<Vec<char>>)
    ensures
        items@.len() == list_items(v@).len(),
        forall|m: int| 0 <= m < items@.len() ==> #[trigger] items@[m]@ == list_items(v@)[m],
{
    let mut done: Vec<Vec<char>> = Vec::new();
    let mut cur: Vec<char> = Vec::new();
    let mut d: i128 = 0;
    let mut k: usize = 0;
    while k < v.len()
        invariant
            k <= v@.len(),
            d == depth(v@, k as int),
            -(k as int) <= d <= k,
            done@.len() == split_prefix(v@, k as int).0.len(),
            forall|m: int| 0 <= m < done@.len() ==> #[trigger] done@[m]@ == split_prefix(v@, k as int).0[m],
            cur@ == split_prefix(v@, k as int).1,
        decreases v@.len() - k,
    {
        if v[k] == ',' && d == 0 {
            let finished = cur;
            done.push(finished);
            cur = Vec::new();
        } else {
            cur.push(v[k]);
        }
        let step = delta_at(v, k);
        d = d + step as i128;
        k = k + 1;
    }
    let tail = trim_chars(&cur);
    if tail.len() != 0 {
        done.push(cur);
    }
    done
}

/// Whether `syn` reads `text` as one Rust type.
pub uninterp spec fn is_rust_type(text: Seq<char>) -> bool;

/// Whether `syn` reads `text` as one Rust identifier that is not a keyword.
pub uninterp spec fn is_rust_ident(text: Seq<char>) -> bool;

/// The value of the Rust string literal `text`, if `syn` reads it as one.
pub uninterp spec fn rust_str_literal(text: Seq<char>) -> Option<Seq<char>>;

/// Parses `text` as a type with `syn::parse_str::<syn::Type>`.
///
/// Trusted: the answer depends on the text alone and is named
/// `is_rust_type`; which texts are types is Rust's type grammar, not stated.
#[verifier::external_body]
fn parses_as_type(text: &str) -> (b: bool)
    ensures
        b == is_rust_type(text@),
{
    syn::parse_str::<syn::Type>(text).is_ok()
}

/// Parses `text` as an identifier with `syn::parse_str::<syn::Ident>`.
///
/// Trusted: the answer depends on the text alone and is named
/// `is_rust_ident`; which texts are identifiers is not stated.
#[verifier::external_body]
fn parses_as_ident(text: &str) -> (b: bool)
    ensures
        b == is_rust_ident(text@),
{
    syn::parse_str::<syn::Ident>(text).is_ok()
}

/// Parses `text` as a string literal with `syn::parse_str::<syn::LitStr>`
/// and takes its value.
///
/// Trusted: the answer depends on the text alone and is named
/// `rust_str_literal`; the literal grammar and its escapes are not stated.
#[verifier::external_body]
fn str_literal_value(text: &str) -> (r: Option<String>)
    ensures
        r is Some <==> rust_str_literal(text@) is Some,
        r matches Some(v) ==> rust_str_literal(text@) == Some(v@),
{
    match syn::parse_str::<syn::LitStr>(text) {
        Ok(lit) => Some(lit.value()),
        Err(_) => None,
    }
}

/// Why the input of `import_module!` could not be read.
#[derive(Debug, Clone, Copy, PartialEq, Eq, Structural)]
pub enum ImportSyntaxError {
    /// The input is not a module name, a comma and a parenthesized list.
    MissingList,
    /// The module name is not a string literal.
    InvalidModuleName,
    /// A signature has no parenthesized argument list.
    MissingArguments,
    /// A signature's name is not an identifier.
    InvalidName,
    /// An argument type is not a Rust type.
    InvalidType,
    /// What follows the argument list is neither nothing nor `->` and a type.
    InvalidReturn,
}

/// One signature of `import_module!`, as text.
#[derive(Debug, Clone)]
pub struct ImportSyntax {
    /// The function's name.
    pub name: String,
    /// The text of each argument type, in order.
    pub arg_types: Vec<String>,
    /// The text of the return type, when there is one.
    pub ret_type: Option<String>,
}

/// A signature as mathematical values: name, argument types, return type.
pub type SignatureView = (Seq<char>, Seq<Seq<char>>, Option<Seq<char>>);

/// The characters of an optional string.
pub open spec fn opt_chars(o: Option<String>) -> Option<Seq<char>> {
    match o {
        Some(s) => Some(s@),
        None => None,
    }
}

/// The value of a parsed signature.
pub open spec fn syntax_view(s: ImportSyntax) -> SignatureView {
    (s.name@, s.arg_types@.map_values(|x: String| x@), opt_chars(s.ret_type))
}

/// The items of the list `s`, each without surrounding whitespace.
pub open spec fn trimmed_items(s: Seq<char>) -> Seq<Seq<char>> {
    list_items(s).map_values(|a: Seq<char>| trim(a))
}

/// The position of the first `c` at or after `i` in `s`, or the length of
/// `s` if there is none.
pub open spec fn find_char(s: Seq<char>, c: char, i: int) -> int
    decreases s.len() - i,
{
    if i >= s.len() {
        s.len() as int
    } else if s[i] == c {
        i
    } else {
        find_char(s, c, i + 1)
    }
}

/// The first position at or after `k` after which the bracket depth of `g`
/// is back to 0, or the length of `g` if there is none: where the group
/// opened by `g[0]` closes.
pub open spec fn find_close(g: Seq<char>, k: int) -> int
    decreases g.len() - k,
{
    if k >= g.len() {
        g.len() as int
    } else if depth(g, k + 1) == 0 {
        k
    } else {
        find_close(g, k + 1)
    }
}

/// How a signature `t` reads: its name is the text before the first `(`;
/// its argument types are the items of the group that `(` opens; after the
/// group comes nothing, or `->` and the return type.
pub open spec fn signature_spec(t: Seq<char>) -> Result<SignatureView, ImportSyntaxError> {
    let open = find_char(t, '(', 0);
    if open >= t.len() {
        Err(ImportSyntaxError::MissingArguments)
    } else {
        let g = t.subrange(open, t.len() as int);
        let close = find_close(g, 0);
        if close >= g.len() {
            Err(ImportSyntaxError::MissingArguments)
        } else {
            let name = trim(t.subrange(0, open));
            let args = trimmed_items(g.subrange(1, close));
            let rest = trim(g.subrange(close + 1, g.len() as int));
            let ret = trim(rest.subrange(2, rest.len() as int));
            if !is_rust_ident(name) {
                Err(ImportSyntaxError::InvalidName)
            } else if exists|i: int| 0 <= i < args.len() && !is_rust_type(#[trigger] args[i]) {
                Err(ImportSyntaxError::InvalidType)
            } else if rest.len() == 0 {
                Ok((name, args, None))
            } else if rest.len() >= 2 && rest[0] == '-' && rest[1] == '>' && is_rust_type(ret) {
                Ok((name, args, Some(ret)))
            } else {
                Err(ImportSyntaxError::InvalidReturn)
            }
        }
    }
}

proof fn lemma_find_char(s: Seq<char>, c: char, i: int)
    requires
        0 <= i,
    ensures
        i <= find_char(s, c, i) <= s.len() || (i > s.len() && find_char(s, c, i) == s.len()),
        find_char(s, c, i) < s.len() ==> s[find_char(s, c, i)] == c,
    decreases s.len() - i,
{
    if i < s.len() && s[i] != c {
        lemma_find_char(s, c, i + 1);
    }
}

proof fn lemma_find_close(g: Seq<char>, k: int)
    ensures
        k <= find_close(g, k) || find_close(g, k) == g.len(),
    decreases g.len() - k,
{
    if k < g.len() && depth(g, k + 1) != 0 {
        lemma_find_close(g, k + 1);
    }
}

/// The position of the first `c` in `v`, or its length.
fn find_char_in(v: &Vec<char>, c: char) -> (r: usize)
    ensures
        r == find_char(v@, c, 0),
{
    let mut i: usize = 0;
    while i < v.len()
        invariant
            i <= v@.len(),
            find_char(v@, c, 0) == find_char(v@, c, i as int),
        decreases v@.len() - i,
    {
        if v[i] == c {
            return i;
        }
        i = i + 1;
    }
    i
}

/// Where the group opened by `g[0]` closes, or the length of `g`.
fn find_close_in(g: &Vec<char>) -> (r: usize)
    ensures
        r == find_close(g@, 0),
{
    let mut d: i128 = 0;
    let mut k: usize = 0;
    while k < g.len()
        invariant
            k <= g@.len(),
            d == depth(g@, k as int),
            -(k as int) <= d <= k,
            find_close(g@, 0) == find_close(g@, k as int),
        decreases g@.len() - k,
    {
        let step = delta_at(g, k);
        d = d + step as i128;
        if d == 0 {
            return k;
        }
        k = k + 1;
    }
    k
}

/// Reads the signature whose characters are `t`.
fn parse_signature_chars(t: &Vec<char>) -> (r: Result<ImportSyntax, ImportSyntaxError>)
    ensures
        match r {
            Ok(s) => signature_spec(t@) == Ok::<SignatureView, ImportSyntaxError>(syntax_view(s)),
            Err(e) => signature_spec(t@) == Err::<SignatureView, ImportSyntaxError>(e),
        },
{
    let open = find_char_in(t, '(');
    if open >= t.len() {
        return Err(ImportSyntaxError::MissingArguments);
    }
    let g = sub_chars(t, open, t.len());
    let close = find_close_in(&g);
    if close >= g.len() {
        return Err(ImportSyntaxError::MissingArguments);
    }
    proof {
        lemma_find_char(t@, '(', 0);
        assert(g@[0] == '(');
        assert(depth(g@, 0) == 0);
        assert(depth(g@, 1) == 1);
        assert(find_close(g@, 0) == find_close(g@, 1));
        lemma_find_close(g@, 1);
    }
    let name_chars = trim_chars(&sub_chars(t, 0, open));
    let name = string_of(&name_chars);
    let inner = sub_chars(&g, 1, close);
    let items = split_items(&inner);
    let rest = trim_chars(&sub_chars(&g, close + 1, g.len()));
    let ghost args = trimmed_items(inner@);
    if !parses_as_ident(name.as_str()) {
        return Err(ImportSyntaxError::InvalidName);
    }
    let mut arg_types: Vec<String> = Vec::new();
    let mut i: usize = 0;
    #[verifier::loop_isolation(false)]
    while i < items.len()
        invariant
            i <= items@.len(),
            items@.len() == args.len(),
            forall|m: int| 0 <= m < items@.len() ==> #[trigger] items@[m]@ == list_items(inner@)[m],
            args == trimmed_items(inner@),
            arg_types@.len() == i,
            forall|m: int| 0 <= m < i ==> #[trigger] arg_types@[m]@ == args[m] && is_rust_type(args[m]),
        decreases items@.len() - i,
    {
        let a = trim_chars(&items[i]);
        let text = string_of(&a);
        if !parses_as_type(text.as_str()) {
            assert(!is_rust_type(args[i as int]));
            assert(exists|j: int| 0 <= j < args.len() && !is_rust_type(#[trigger] args[j]));
            return Err(ImportSyntaxError::InvalidType);
        }
        assert(text@ == args[i as int]);
        let ghost before = arg_types@;
        arg_types.push(text);
        assert(arg_types@[i as int]@ == args[i as int]);
        assert(forall|m: int| 0 <= m < i ==> arg_types@[m] == before[m]);
        i = i + 1;
    }
    assert(arg_types@.map_values(|x: String| x@) =~= args);
    if rest.len() == 0 {
        return Ok(ImportSyntax { name, arg_types, ret_type: None });
    }
    if rest.len() >= 2 && rest[0] == '-' && rest[1] == '>' {
        let ret_chars = trim_chars(&sub_chars(&rest, 2, rest.len()));
        let ret = string_of(&ret_chars);
        if parses_as_type(ret.as_str()) {
            return Ok(ImportSyntax { name, arg_types, ret_type: Some(ret) });
        }
    }
    Err(ImportSyntaxError::InvalidReturn)
}

/// Reads one signature of `import_module!`, such as `concat(&str, &str) ->
/// String`: its name, the text of each argument type, and the text of the
/// return type when there is one.
pub fn parse_import_signature(input: &str) -> (r: Result<ImportSyntax, ImportSyntaxError>)
    ensures
        match r {
            Ok(s) => signature_spec(input@) == Ok::<SignatureView, ImportSyntaxError>(syntax_view(s)),
            Err(e) => signature_spec(input@) == Err::<SignatureView, ImportSyntaxError>(e),
        },
{
    let t = chars_of(input);
    parse_signature_chars(&t)
}

/// Scanning `t` backwards from position `j` with `d` round brackets still
/// open: the position of the `(` that closes them all, or -1.
pub open spec fn match_open(t: Seq<char>, j: int, d: int) -> int
    decreases j,
{
    if j <= 0 {
        -1
    } else {
        let c = t[j - 1];
        let d2 = if c == ')' {
            d + 1
        } else if c == '(' {
            d - 1
        } else {
            d
        };
        if d2 == 0 {
            j - 1
        } else {
            match_open(t, j - 1, d2)
        }
    }
}

/// The first `n` signatures of `items` read one after the other; the first
/// one that cannot be read decides the error.
pub open spec fn sigs_spec(items: Seq<Seq<char>>, n: int) -> Result<
    Seq<SignatureView>,
    ImportSyntaxError,
>
    decreases n,
{
    if n <= 0 {
        Ok(Seq::empty())
    } else {
        match sigs_spec(items, n - 1) {
            Err(e) => Err(e),
            Ok(v) => match signature_spec(items[n - 1]) {
                Err(e) => Err(e),
                Ok(x) => Ok(v.push(x)),
            },
        }
    }
}

/// The module name and the signatures, as mathematical values.
pub type ModuleView = (Seq<char>, Seq<SignatureView>);

/// How the input `s` of `import_module!` reads: it ends with a
/// parenthesized list of signatures; before that group stand the string
/// literal of the module name and a comma.
pub open spec fn module_input_spec(s: Seq<char>) -> Result<ModuleView, ImportSyntaxError> {
    let t = trim(s);
    if t.len() == 0 || t.last() != ')' {
        Err(ImportSyntaxError::MissingList)
    } else {
        let open = match_open(t, t.len() - 1, 1);
        if open < 0 {
            Err(ImportSyntaxError::MissingList)
        } else {
            let head = trim(t.subrange(0, open));
            if head.len() == 0 || head.last() != ',' {
                Err(ImportSyntaxError::MissingList)
            } else {
                match rust_str_literal(trim(head.drop_last())) {
                    None => Err(ImportSyntaxError::InvalidModuleName),
                    Some(m) => {
                        let items = list_items(t.subrange(open + 1, t.len() - 1));
                        match sigs_spec(items, items.len() as int) {
                            Err(e) => Err(e),
                            Ok(v) => Ok((m, v)),
                        }
                    },
                }
            }
        }
    }
}

/// The values of parsed signatures.
pub open spec fn syntaxes_view(v: Seq<ImportSyntax>) -> Seq<SignatureView> {
    v.map_values(|x: ImportSyntax| syntax_view(x))
}

proof fn lemma_match_open(t: Seq<char>, j: int, d: int)
    requires
        0 <= j,
    ensures
        match_open(t, j, d) < j,
    decreases j,
{
    if j > 0 {
        let c = t[j - 1];
        let d2 = if c == ')' {
            d + 1
        } else if c == '(' {
            d - 1
        } else {
            d
        };
        if d2 != 0 {
            lemma_match_open(t, j - 1, d2);
        }
    }
}

/// Where the `(` stands that opens the group closed by the last character
/// of `t`.
fn match_open_in(t: &Vec<char>) -> (r: Option<usize>)
    requires
        t@.len() >= 1,
    ensures
        match r {
            Some(p) => match_open(t@, t@.len() - 1, 1) == p,
            None => match_open(t@, t@.len() - 1, 1) == -1,
        },
{
    let n = t.len();
    let mut j: usize = n - 1;
    let mut d: usize = 1;
    while j > 0
        invariant
            j <= n - 1,
            n == t@.len(),
            1 <= d <= n - j,
            match_open(t@, n - 1, 1) == match_open(t@, j as int, d as int),
        decreases j,
    {
        let c = t[j - 1];
        if c == ')' {
            d = d + 1;
        } else if c == '(' {
            if d == 1 {
                return Some(j - 1);
            }
            d = d - 1;
        }
        j = j - 1;
    }
    None
}

/// Reads the input of `import_module!`, such as
/// `"env", (concat(&str, &str) -> String,)`: the module name, and each
/// signature in order.
pub fn parse_import_module_input(input: &str) -> (r: Result<(String, Vec<ImportSyntax>), ImportSyntaxError>)
    ensures
        match r {
            Ok((m, sigs)) => module_input_spec(input@) == Ok::<ModuleView, ImportSyntaxError>(
                (m@, syntaxes_view(sigs@)),
            ),
            Err(e) => module_input_spec(input@) == Err::<ModuleView, ImportSyntaxError>(e),
        },
{
    let s = chars_of(input);
    let t = trim_chars(&s);
    let n = t.len();
    if n == 0 || t[n - 1] != ')' {
        return Err(ImportSyntaxError::MissingList);
    }
    let open = match match_open_in(&t) {
        Some(p) => p,
        None => return Err(ImportSyntaxError::MissingList),
    };
    proof {
        lemma_match_open(t@, n - 1, 1);
    }
    let head = trim_chars(&sub_chars(&t, 0, open));
    let h = head.len();
    if h == 0 || head[h - 1] != ',' {
        return Err(ImportSyntaxError::MissingList);
    }
    let lit = trim_chars(&sub_chars(&head, 0, h - 1));
    assert(head@.subrange(0, h - 1) =~= head@.drop_last());
    let lit_text = string_of(&lit);
    let module_name = match str_literal_value(lit_text.as_str()) {
        Some(m) => m,
        None => return Err(ImportSyntaxError::InvalidModuleName),
    };
    let inner = sub_chars(&t, open + 1, n - 1);
    let items = split_items(&inner);
    let ghost l = list_items(inner@);
    let mut sigs: Vec<ImportSyntax> = Vec::new();
    let mut k: usize = 0;
    assert(syntaxes_view(sigs@) =~= Seq::<SignatureView>::empty());
    #[verifier::loop_isolation(false)]
    while k < items.len()
        invariant
            k <= items@.len(),
            items@.len() == l.len(),
            forall|m: int| 0 <= m < items@.len() ==> #[trigger] items@[m]@ == l[m],
            sigs_spec(l, k as int) == Ok::<Seq<SignatureView>, ImportSyntaxError>(
                syntaxes_view(sigs@),
            ),
        decreases items@.len() - k,
    {
        match parse_signature_chars(&items[k]) {
            Ok(x) => {
                let ghost before = sigs@;
                sigs.push(x);
                assert(syntaxes_view(sigs@) =~= syntaxes_view(before).push(syntax_view(x)));
            },
            Err(e) => {
                assert(sigs_spec(l, k + 1) == Err::<Seq<SignatureView>, ImportSyntaxError>(e));
                proof {
                    lemma_sigs_spec_err(l, k + 1, l.len() as int, e);
                }
                return Err(e);
            },
        }
        k = k + 1;
    }
    Ok((module_name, sigs))
}

proof fn lemma_sigs_spec_err(items: Seq<Seq<char>>, k: int, n: int, e: ImportSyntaxError)
    requires
        0 <= k <= n,
        sigs_spec(items, k) == Err::<Seq<SignatureView>, ImportSyntaxError>(e),
    ensures
        sigs_spec(items, n) == Err::<Seq<SignatureView>, ImportSyntaxError>(e),
    decreases n - k,
{
    if k < n {
        lemma_sigs_spec_err(items, k + 1, n, e);
    }
}


proof fn lemma_trim_id(s: Seq<char>)
    requires
        s.len() == 0 || (!is_ws(s[0]) && !is_ws(s.last())),
    ensures
        trim_start(s) == s,
        trim_end(s) == s,
        trim(s) == s,
{
}

proof fn lemma_trim_space_before(s: Seq<char>)
    ensures
        trim_start(seq![' '] + s) == trim_start(s),
{
    assert((seq![' '] + s).drop_first() =~= s);
}

proof fn lemma_trim_space_after(s: Seq<char>)
    ensures
        trim_end(s + seq![' ']) == trim_end(s),
{
    assert((s + seq![' ']).drop_last() =~= s);
}

/// The depth inside a prefix does not see what follows it.
proof fn lemma_depth_prefix(a: Seq<char>, b: Seq<char>, j: int)
    requires
        0 <= j <= a.len(),
    ensures
        depth(a + b, j) == depth(a, j),
    decreases j,
{
    if j > 0 {
        lemma_depth_prefix(a, b, j - 1);
        assert(delta(a + b, j - 1) == delta(a, j - 1));
    }
}

/// The depth in `a + b` past `a` is the depth of `a` plus the depth in `b`,
/// unless `b` starts with the `>` of an arrow whose `-` ends `a`.
proof fn lemma_depth_concat(a: Seq<char>, b: Seq<char>, j: int)
    requires
        0 <= j <= b.len(),
        b.len() == 0 || a.len() == 0 || b[0] != '>' || a.last() != '-',
    ensures
        depth(a + b, a.len() + j) == depth(a, a.len() as int) + depth(b, j),
    decreases j,
{
    if j == 0 {
        lemma_depth_prefix(a, b, a.len() as int);
    } else {
        lemma_depth_concat(a, b, j - 1);
        assert(delta(a + b, a.len() + j - 1) == delta(b, j - 1));
    }
}

proof fn lemma_split_prefix_prefix(a: Seq<char>, b: Seq<char>, j: int)
    requires
        0 <= j <= a.len(),
    ensures
        split_prefix(a + b, j) == split_prefix(a, j),
    decreases j,
{
    if j > 0 {
        lemma_split_prefix_prefix(a, b, j - 1);
        lemma_depth_prefix(a, b, j - 1);
        assert(top_comma(a + b, j - 1) == top_comma(a, j - 1));
    }
}

/// Characters that are no top-level comma join the open piece.
proof fn lemma_split_segment(s: Seq<char>, p: int, m: int)
    requires
        0 <= p,
        0 <= m,
        p + m <= s.len(),
        forall|j: int| p <= j < p + m ==> !#[trigger] top_comma(s, j),
    ensures
        split_prefix(s, p + m) == (split_prefix(s, p).0, split_prefix(s, p).1 + s.subrange(p, p + m)),
    decreases m,
{
    if m > 0 {
        lemma_split_segment(s, p, m - 1);
        assert(!top_comma(s, p + m - 1));
        assert(split_prefix(s, p).1 + s.subrange(p, p + m) =~= (split_prefix(s, p).1
            + s.subrange(p, p + m - 1)).push(s[p + m - 1]));
    }
}

/// A type written with balanced brackets, no comma outside them, and no
/// surrounding whitespace.
pub open spec fn balanced_type(a: Seq<char>) -> bool {
    &&& a.len() > 0
    &&& !is_ws(a[0])
    &&& !is_ws(a.last())
    &&& forall|j: int| 0 <= j <= a.len() ==> #[trigger] depth(a, j) >= 0
    &&& depth(a, a.len() as int) == 0
    &&& forall|j: int| 0 <= j < a.len() ==> !#[trigger] top_comma(a, j)
    &&& is_rust_type(a)
}

/// A function name: an identifier, which holds neither whitespace nor `(`.
pub open spec fn plain_name(n: Seq<char>) -> bool {
    &&& n.len() > 0
    &&& forall|j: int| 0 <= j < n.len() ==> !is_ws(#[trigger] n[j]) && n[j] != '('
    &&& is_rust_ident(n)
}

/// A return type with no surrounding whitespace.
pub open spec fn plain_ret(r: Seq<char>) -> bool {
    r.len() > 0 && !is_ws(r[0]) && !is_ws(r.last()) && is_rust_type(r)
}

/// The texts of `args` joined by `, `.
pub open spec fn join_args(args: Seq<Seq<char>>) -> Seq<char>
    decreases args.len(),
{
    if args.len() == 0 {
        Seq::empty()
    } else if args.len() == 1 {
        args[0]
    } else {
        join_args(args.drop_last()) + seq![',', ' '] + args.last()
    }
}

/// The signature `name(a1, ..., ak)`, followed by ` -> R` when there is a
/// return type `R`.
pub open spec fn signature_text(name: Seq<char>, args: Seq<Seq<char>>, ret: Option<Seq<char>>) -> Seq<
    char,
> {
    let tail = match ret {
        Some(r) => seq![' ', '-', '>', ' '] + r,
        None => Seq::empty(),
    };
    name + seq!['('] + join_args(args) + seq![')'] + tail
}

spec fn piece(args: Seq<Seq<char>>, i: int) -> Seq<char> {
    if i == 0 {
        args[0]
    } else {
        seq![' '] + args[i]
    }
}

proof fn lemma_join_args(args: Seq<Seq<char>>)
    requires
        args.len() >= 1,
        forall|i: int| 0 <= i < args.len() ==> balanced_type(#[trigger] args[i]),
    ensures
        join_args(args).len() > 0,
        join_args(args)[0] == args[0][0],
        join_args(args).last() == args.last().last(),
        depth(join_args(args), join_args(args).len() as int) == 0,
        forall|j: int|
            0 <= j <= join_args(args).len() ==> #[trigger] depth(join_args(args), j) >= 0,
        split_prefix(join_args(args), join_args(args).len() as int) == (
            Seq::new((args.len() - 1) as nat, |i: int| piece(args, i)),
            piece(args, args.len() - 1),
        ),
    decreases args.len(),
{
    let a = args.last();
    assert(balanced_type(a));
    if args.len() == 1 {
        lemma_split_segment(a, 0, a.len() as int);
        assert(a.subrange(0, a.len() as int) =~= a);
        assert(Seq::<char>::empty() + a =~= a);
        assert(Seq::new(0, |i: int| piece(args, i)) =~= Seq::<Seq<char>>::empty());
    } else {
        let d = args.drop_last();
        assert forall|i: int| 0 <= i < d.len() implies balanced_type(#[trigger] d[i]) by {
            assert(d[i] == args[i]);
        }
        lemma_join_args(d);
        let p = join_args(d);
        let sep = seq![',', ' '];
        let aa = p + sep;
        let s = aa + a;
        assert(join_args(args) == s);
        assert(sep[0] == ',' && sep[1] == ' ');
        assert(depth(sep, 0) == 0);
        assert(depth(sep, 1) == 0);
        assert(depth(sep, 2) == 0);
        lemma_depth_concat(p, sep, 1);
        lemma_depth_concat(p, sep, 2);
        assert(aa.len() == p.len() + 2);
        assert(depth(aa, aa.len() as int) == 0);
        assert forall|j: int| 0 <= j <= s.len() implies #[trigger] depth(s, j) >= 0 by {
            if j <= p.len() {
                lemma_depth_prefix(aa, a, j);
                lemma_depth_prefix(p, sep, j);
            } else if j <= aa.len() {
                lemma_depth_prefix(aa, a, j);
                lemma_depth_concat(p, sep, j - p.len());
                assert(depth(sep, j - p.len()) == 0);
            } else {
                lemma_depth_concat(aa, a, j - aa.len());
            }
        }
        lemma_depth_concat(aa, a, a.len() as int);
        // The pieces of `p`, then the separating comma, then `a`.
        lemma_split_prefix_prefix(aa, a, p.len() as int);
        lemma_split_prefix_prefix(p, sep, p.len() as int);
        lemma_depth_prefix(aa, a, p.len() as int);
        lemma_depth_prefix(p, sep, p.len() as int);
        assert(s[p.len() as int] == ',');
        assert(top_comma(s, p.len() as int));
        assert(s[p.len() as int + 1] == ' ');
        assert(!top_comma(s, p.len() as int + 1));
        let sp0 = split_prefix(s, p.len() as int);
        assert(sp0 == (Seq::new((d.len() - 1) as nat, |i: int| piece(d, i)), piece(d, d.len() - 1)));
        let sp1 = split_prefix(s, p.len() as int + 1);
        assert(sp1 == (sp0.0.push(sp0.1), Seq::<char>::empty()));
        let sp = split_prefix(s, aa.len() as int);
        assert(sp == (sp1.0, sp1.1.push(' ')));
        assert(sp1.1.push(' ') =~= seq![' ']);
        assert forall|j: int| aa.len() <= j < aa.len() + a.len() implies !#[trigger] top_comma(
            s,
            j,
        ) by {
            lemma_depth_concat(aa, a, j - aa.len());
            assert(!top_comma(a, j - aa.len()));
            assert(s[j] == a[j - aa.len()]);
        }
        lemma_split_segment(s, aa.len() as int, a.len() as int);
        assert(s.subrange(aa.len() as int, aa.len() + a.len() as int) =~= a);
        assert(Seq::new((d.len() - 1) as nat, |i: int| piece(d, i)).push(piece(d, d.len() - 1))
            =~= Seq::new((args.len() - 1) as nat, |i: int| piece(args, i)));
        assert(seq![' '] + a == piece(args, args.len() - 1));
        assert(s[0] == p[0]);
    }
}

proof fn lemma_trim_piece(args: Seq<Seq<char>>, i: int)
    requires
        0 <= i < args.len(),
        balanced_type(args[i]),
    ensures
        trim(piece(args, i)) == args[i],
{
    lemma_trim_id(args[i]);
    if i > 0 {
        lemma_trim_space_before(args[i]);
    }
}

proof fn lemma_trimmed_join(args: Seq<Seq<char>>)
    requires
        forall|i: int| 0 <= i < args.len() ==> balanced_type(#[trigger] args[i]),
    ensures
        trimmed_items(join_args(args)) == args,
{
    if args.len() == 0 {
        assert(trimmed_items(join_args(args)) =~= args);
    } else {
        lemma_join_args(args);
        let k = args.len();
        lemma_trim_piece(args, k - 1);
        let items = list_items(join_args(args));
        assert(items =~= Seq::new(k, |i: int| piece(args, i)));
        assert forall|i: int| 0 <= i < k implies trim(#[trigger] items[i]) == args[i] by {
            lemma_trim_piece(args, i);
        }
        assert(trimmed_items(join_args(args)) =~= args);
    }
}

proof fn lemma_find_char_at(s: Seq<char>, c: char, i: int, k: int)
    requires
        0 <= i <= k < s.len(),
        s[k] == c,
        forall|j: int| i <= j < k ==> s[j] != c,
    ensures
        find_char(s, c, i) == k,
    decreases k - i,
{
    if i < k {
        lemma_find_char_at(s, c, i + 1, k);
    }
}

proof fn lemma_find_close_at(g: Seq<char>, k: int, c: int)
    requires
        0 <= k <= c < g.len(),
        depth(g, c + 1) == 0,
        forall|j: int| k < j <= c ==> #[trigger] depth(g, j) != 0,
    ensures
        find_close(g, k) == c,
    decreases c - k,
{
    if k < c {
        lemma_find_close_at(g, k + 1, c);
    }
}

/// In `(j)` followed by anything, where `j` never closes more brackets than
/// it opened and ends balanced, the group opened by `(` closes at the `)`
/// after `j`.
proof fn lemma_group_closes(j: Seq<char>, tail: Seq<char>)
    requires
        forall|q: int| 0 <= q <= j.len() ==> #[trigger] depth(j, q) >= 0,
        depth(j, j.len() as int) == 0,
    ensures
        find_close(seq!['('] + j + seq![')'] + tail, 0) == j.len() + 1,
{
    let g = seq!['('] + j + seq![')'] + tail;
    let op = seq!['('];
    let g0 = op + j;
    let rest = seq![')'] + tail;
    assert(g =~= g0 + rest);
    assert(op[0] == '(');
    assert(depth(op, 0) == 0);
    assert(depth(op, 1) == 1);
    let jl = j.len() as int;
    assert forall|q: int| 0 <= q <= jl implies #[trigger] depth(g, 1 + q) == 1 + depth(j, q) by {
        lemma_depth_prefix(g0, rest, 1 + q);
        lemma_depth_concat(op, j, q);
    }
    assert(depth(g, 1 + jl) == 1);
    assert(g[1 + jl] == ')');
    assert(depth(g, jl + 2) == 0);
    assert forall|q: int| 0 < q <= jl implies #[trigger] depth(g, q) != 0 by {
        assert(depth(g, 1 + (q - 1)) == 1 + depth(j, q - 1));
    }
    lemma_find_close_at(g, 0, jl + 1);
}

/// A signature reads back as what it was written from: for every name,
/// argument types with balanced brackets and no comma outside them, and
/// return type (or none), the text `name(a1, ..., ak)`, followed by
/// ` -> R` when there is a return type `R`, is read as that name, those
/// argument types in order and that return type. The argument list ends at
/// the `)` that closes the `(` after the name, even when the return type is
/// itself parenthesized.
pub proof fn lemma_signature_reads_back(
    name: Seq<char>,
    args: Seq<Seq<char>>,
    ret: Option<Seq<char>>,
)
    requires
        plain_name(name),
        forall|i: int| 0 <= i < args.len() ==> balanced_type(#[trigger] args[i]),
        ret matches Some(r) ==> plain_ret(r),
    ensures
        signature_spec(signature_text(name, args, ret)) == Ok::<SignatureView, ImportSyntaxError>(
            (name, args, ret),
        ),
{
    let j = join_args(args);
    let tail = match ret {
        Some(r) => seq![' ', '-', '>', ' '] + r,
        None => Seq::<char>::empty(),
    };
    let t = signature_text(name, args, ret);
    let n = name.len() as int;
    assert(t == name + seq!['('] + j + seq![')'] + tail);
    assert(t[n] == '(');
    assert forall|q: int| 0 <= q < n implies t[q] != '(' by {
        assert(t[q] == name[q]);
    }
    lemma_find_char_at(t, '(', 0, n);
    let g = t.subrange(n, t.len() as int);
    assert(g =~= seq!['('] + j + seq![')'] + tail);
    if args.len() > 0 {
        lemma_join_args(args);
    }
    lemma_group_closes(j, tail);
    let jl = j.len() as int;
    let close = jl + 1;
    assert(t.subrange(0, n) =~= name);
    lemma_trim_id(name);
    assert(g.subrange(1, close) =~= j);
    lemma_trimmed_join(args);
    assert(g.subrange(close + 1, g.len() as int) =~= tail);
    match ret {
        None => {
            assert(trim(tail).len() == 0);
        },
        Some(r) => {
            let arrow = seq!['-', '>', ' '] + r;
            assert(tail =~= seq![' '] + arrow);
            lemma_trim_space_before(arrow);
            assert(arrow.last() == r.last());
            lemma_trim_id(arrow);
            assert(trim(tail) == arrow);
            assert(arrow.subrange(2, arrow.len() as int) =~= seq![' '] + r);
            lemma_trim_space_before(r);
            lemma_trim_id(r);
        },
    }
}

/// The number of round brackets opened and not yet closed in the first `j`
/// characters of `b`.
pub open spec fn paren_depth(b: Seq<char>, j: int) -> int
    decreases j,
{
    if j <= 0 {
        0
    } else {
        paren_depth(b, j - 1) + if b[j - 1] == '(' {
            1int
        } else if b[j - 1] == ')' {
            -1int
        } else {
            0int
        }
    }
}

/// Scanning back from the end of `(b)` at position `o`, the `(` at `o` is
/// the one that closes the group, whatever stands before it.
proof fn lemma_match_open_group(t: Seq<char>, o: int, b: Seq<char>, i: int)
    requires
        0 <= o,
        0 <= i <= b.len(),
        o + 1 + b.len() <= t.len(),
        t[o] == '(',
        forall|q: int| 0 <= q < b.len() ==> t[o + 1 + q] == #[trigger] b[q],
        forall|q: int| 0 <= q <= b.len() ==> #[trigger] paren_depth(b, q) >= 0,
    ensures
        match_open(t, o + 1 + i, 1 + paren_depth(b, i)) == o,
    decreases i,
{
    if i > 0 {
        lemma_match_open_group(t, o, b, i - 1);
        assert(t[o + 1 + (i - 1)] == b[i - 1]);
        assert(paren_depth(b, i - 1) >= 0);
    }
}

/// The module name is the value of its string literal, character for
/// character: for every literal with value `v` and every list of signatures
/// `b` whose round brackets balance, the input `lit, (b)` reads with module
/// name `v`, and with the signatures the items of `b` read as.
pub proof fn lemma_module_name_is_literal_value(lit: Seq<char>, b: Seq<char>, v: Seq<char>)
    requires
        lit.len() > 0,
        !is_ws(lit[0]),
        !is_ws(lit.last()),
        rust_str_literal(lit) == Some(v),
        forall|q: int| 0 <= q <= b.len() ==> #[trigger] paren_depth(b, q) >= 0,
        paren_depth(b, b.len() as int) == 0,
    ensures
        module_input_spec(lit + seq![',', ' ', '('] + b + seq![')']) == match sigs_spec(
            list_items(b),
            list_items(b).len() as int,
        ) {
            Err(e) => Err::<ModuleView, ImportSyntaxError>(e),
            Ok(x) => Ok::<ModuleView, ImportSyntaxError>((v, x)),
        },
{
    let s = lit + seq![',', ' ', '('] + b + seq![')'];
    let o = lit.len() as int + 2;
    assert(s[0] == lit[0]);
    assert(s.last() == ')');
    lemma_trim_id(s);
    let t = trim(s);
    assert(t == s);
    assert(t[o] == '(');
    assert forall|q: int| 0 <= q < b.len() implies t[o + 1 + q] == #[trigger] b[q] by {
        assert(s[o + 1 + q] == b[q]);
    }
    lemma_match_open_group(t, o, b, b.len() as int);
    assert(t.len() - 1 == o + 1 + b.len());
    assert(match_open(t, t.len() - 1, 1) == o);
    let comma = lit + seq![',' ];
    assert(t.subrange(0, o) =~= comma + seq![' ']);
    lemma_trim_space_after(comma);
    assert(comma[0] == lit[0]);
    lemma_trim_id(comma);
    assert(trim_start(comma + seq![' ']) == comma + seq![' ']);
    let head = trim(t.subrange(0, o));
    assert(head == comma);
    assert(head.drop_last() =~= lit);
    lemma_trim_id(lit);
    assert(t.subrange(o + 1, t.len() - 1) =~= b);
}

} // verus!
