//! Building text: decimal numerals, and identifiers made safe for Rust.

use vstd::prelude::*;

verus! {

/// Appends `c` to `s` with `String::push`.
///
/// Trusted: as std documents, the string afterwards holds its former
/// characters followed by `c`.
#[verifier::external_body]
pub(crate) fn push_char(s: &mut String, c: char)
    ensures
        final(s)@ == old(s)@.push(c),
{
    s.push(c)
}

/// The character of the decimal digit `d`.
pub open spec fn digit_char(d: nat) -> char {
    (48 + d) as char
}

/// The decimal numeral of `n`, without sign or leading zeros.
pub open spec fn decimal(n: nat) -> Seq<char>
    decreases n,
{
    if n < 10 {
        seq![digit_char(n)]
    } else {
        decimal(n / 10).push(digit_char(n % 10))
    }
}

/// Appends the decimal numeral of `n` to `s`.
pub fn push_decimal(s: &mut String, n: u64)
    ensures
        final(s)@ == old(s)@ + decimal(n as nat),
    decreases n,
{
    if n >= 10 {
        push_decimal(s, n / 10);
    }
    let d = (n % 10) as u8;
    push_char(s, (48 + d) as char);
    assert(final(s)@ =~= old(s)@ + decimal(n as nat));
}

/// The decimal numeral of `n`, with a leading `-` when it is negative.
pub open spec fn signed_decimal(n: int) -> Seq<char> {
    if n < 0 {
        seq!['-'] + decimal((-n) as nat)
    } else {
        decimal(n as nat)
    }
}

/// Appends the decimal numeral of `n`, signed, to `s`.
pub fn push_signed_decimal(s: &mut String, n: i64)
    ensures
        final(s)@ == old(s)@ + signed_decimal(n as int),
{
    if n < 0 {
        push_char(s, '-');
        let magnitude: u64 = if n == i64::MIN {
            9223372036854775808u64
        } else {
            (-n) as u64
        };
        push_decimal(s, magnitude);
        assert(final(s)@ =~= old(s)@ + signed_decimal(n as int));
    } else {
        push_decimal(s, n as u64);
    }
}

/// Whether `c` is an ASCII letter or digit.
pub open spec fn is_ascii_alnum(c: char) -> bool {
    ||| (48 <= c as u32 && c as u32 <= 57)
    ||| (65 <= c as u32 && c as u32 <= 90)
    ||| (97 <= c as u32 && c as u32 <= 122)
}

/// `c` if it is an ASCII letter or digit, `_` otherwise.
pub open spec fn sanitize_char(c: char) -> char {
    if is_ascii_alnum(c) {
        c
    } else {
        '_'
    }
}

/// `s` with every character that is not an ASCII letter or digit replaced
/// by `_`.
pub open spec fn sanitized(s: Seq<char>) -> Seq<char> {
    s.map_values(|c: char| sanitize_char(c))
}

/// Replaces every character of `module_name` that is not an ASCII letter or
/// digit by `_`, so that it can stand inside a Rust identifier.
pub fn sanitize_module_ident(module_name: &str) -> (r: String)
    ensures
        r@ == sanitized(module_name@),
{
    let mut r = String::new();
    for c in it: module_name.chars()
        invariant
            it.seq() == module_name@,
            r@ == sanitized(it.seq().take(it.index() as int)),
    {
        let ghost before = r@;
        let ghost k = it.index();
        let keep = ('0' <= c && c <= '9') || ('A' <= c && c <= 'Z') || ('a' <= c && c <= 'z');
        if keep {
            push_char(&mut r, c);
        } else {
            push_char(&mut r, '_');
        }
        assert(it.seq().take(k + 1) =~= it.seq().take(k as int).push(c));
        assert(r@ =~= sanitized(it.seq().take(k + 1)));
    }
    assert(module_name@.take(module_name@.len() as int) =~= module_name@);
    r
}

/// Sanitizing keeps the length, leaves only ASCII letters, digits and `_`,
/// keeps every ASCII letter and digit in place, and changes nothing the
/// second time.
pub proof fn lemma_sanitized(s: Seq<char>)
    ensures
        sanitized(s).len() == s.len(),
        forall|i: int|
            0 <= i < s.len() ==> is_ascii_alnum(#[trigger] sanitized(s)[i]) || sanitized(s)[i]
                == '_',
        forall|i: int| 0 <= i < s.len() && is_ascii_alnum(s[i]) ==> #[trigger] sanitized(s)[i] == s[i],
        sanitized(sanitized(s)) == sanitized(s),
{
    assert(sanitized(sanitized(s)) =~= sanitized(s));
}

} // verus!
