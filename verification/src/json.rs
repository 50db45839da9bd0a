//! JSON wire codec for [`TorchScriptInput`] and [`SerializableIValue`].
//!
//! An input serialises as `{"positional_arguments": [<value>, ...]}` and each
//! value as a one-key object `{"<Tag>": payload}` with tags `None`, `Bool`,
//! `Int`, `Double`, `Str`, `Tuple`, `List`, `Optional` and `TensorNPYBase64`.
//! The `Double` payload is the IEEE-754 bit pattern written as an unsigned
//! decimal integer, which keeps the round trip bit-for-bit exact.
//!
//! The printer emits a canonical form without whitespace; the parser is
//! tolerant: it skips blanks between tokens and accepts the string escapes
//! `\"`, `\\`, `\/`, `\n`, `\t`, `\r`, `\b`, `\f` and `\u00XX`.

use vstd::prelude::*;

use crate::value::{IValueView, SerializableIValue, TorchScriptInput};

verus! {

// ---------------------------------------------------------------------------
// Character classes and digits
// ---------------------------------------------------------------------------

pub open spec fn is_ws(c: char) -> bool {
    c == ' ' || c == '\t' || c == '\n' || c == '\r'
}

pub open spec fn is_digit(c: char) -> bool {
    48 <= (c as u32) && (c as u32) <= 57
}

pub open spec fn digit_val(c: char) -> nat
    recommends
        is_digit(c),
{
    ((c as u32) - 48) as nat
}

pub open spec fn digit_char(n: nat) -> char
    recommends
        n < 10,
{
    if n == 0 { '0' }
    else if n == 1 { '1' }
    else if n == 2 { '2' }
    else if n == 3 { '3' }
    else if n == 4 { '4' }
    else if n == 5 { '5' }
    else if n == 6 { '6' }
    else if n == 7 { '7' }
    else if n == 8 { '8' }
    else { '9' }
}

/// Hexadecimal digit character for `n < 16`, lower case.
pub open spec fn hex_char(n: nat) -> char
    recommends
        n < 16,
{
    if n < 10 { digit_char(n) }
    else if n == 10 { 'a' }
    else if n == 11 { 'b' }
    else if n == 12 { 'c' }
    else if n == 13 { 'd' }
    else if n == 14 { 'e' }
    else { 'f' }
}

/// Value of a hexadecimal digit character, upper or lower case.
pub open spec fn hex_val(c: char) -> Option<nat> {
    if is_digit(c) { Some(digit_val(c)) }
    else if c == 'a' || c == 'A' { Some(10nat) }
    else if c == 'b' || c == 'B' { Some(11nat) }
    else if c == 'c' || c == 'C' { Some(12nat) }
    else if c == 'd' || c == 'D' { Some(13nat) }
    else if c == 'e' || c == 'E' { Some(14nat) }
    else if c == 'f' || c == 'F' { Some(15nat) }
    else { None }
}

/// Control characters must be escaped inside JSON strings.
pub open spec fn is_ctrl(c: char) -> bool {
    (c as u32) < 0x20
}

// ---------------------------------------------------------------------------
// Decimal numbers
// ---------------------------------------------------------------------------

/// Decimal digits of `n`, most significant first, no leading zeros.
pub open spec fn dec_of(n: nat) -> Seq<char>
    decreases n,
{
    if n < 10 {
        seq![digit_char(n)]
    } else {
        dec_of(n / 10).push(digit_char(n % 10))
    }
}

/// Numeric value of a digit string, most significant first.
pub open spec fn val_of_digits(ds: Seq<char>) -> nat
    decreases ds,
{
    if ds.len() == 0 {
        0
    } else {
        val_of_digits(ds.drop_last()) * 10 + digit_val(ds.last())
    }
}

/// Decimal text of a signed 64-bit integer.
pub open spec fn print_int(n: i64) -> Seq<char> {
    if n < 0 {
        seq!['-'] + dec_of((-(n as int)) as nat)
    } else {
        dec_of(n as nat)
    }
}

// ---------------------------------------------------------------------------
// String escaping
// ---------------------------------------------------------------------------

/// Escape of one character: `"` and `\` get a backslash, control characters
/// become `\u00XX`, everything else stands for itself.
pub open spec fn esc(c: char) -> Seq<char> {
    if c == '"' {
        seq!['\\', '"']
    } else if c == '\\' {
        seq!['\\', '\\']
    } else if is_ctrl(c) {
        seq!['\\', 'u', '0', '0', hex_char(((c as u32) / 16) as nat), hex_char(((c as u32) % 16) as nat)]
    } else {
        seq![c]
    }
}

/// Escaped body of a JSON string, character by character.
pub open spec fn print_str_body(t: Seq<char>) -> Seq<char>
    decreases t,
{
    if t.len() == 0 {
        Seq::empty()
    } else {
        esc(t[0]) + print_str_body(t.drop_first())
    }
}

/// A quoted, escaped JSON string.
pub open spec fn print_string(t: Seq<char>) -> Seq<char> {
    seq!['"'] + print_str_body(t) + seq!['"']
}

// ---------------------------------------------------------------------------
// Printing values
// ---------------------------------------------------------------------------

/// A one-key JSON object `{"tag":payload}`.
pub open spec fn obj(tag: Seq<char>, payload: Seq<char>) -> Seq<char> {
    seq!['{', '"'] + tag + seq!['"', ':'] + payload + seq!['}']
}

/// Canonical JSON text of a value.
pub open spec fn print_value(v: IValueView) -> Seq<char>
    decreases v,
{
    match v {
        IValueView::Null => obj("None"@, "null"@),
        IValueView::Bool(b) => obj("Bool"@, if b { "true"@ } else { "false"@ }),
        IValueView::Int(x) => obj("Int"@, print_int(x)),
        IValueView::Double(d) => obj("Double"@, dec_of(d as nat)),
        IValueView::Str(t) => obj("Str"@, print_string(t)),
        IValueView::Tuple(vs) => obj("Tuple"@, seq!['['] + print_elems(vs) + seq![']']),
        IValueView::List(vs) => obj("List"@, seq!['['] + print_elems(vs) + seq![']']),
        IValueView::Optional(o) => match o {
            Option::None => obj("Optional"@, "null"@),
            Option::Some(b) => obj("Optional"@, print_value(*b)),
        },
        IValueView::TensorNPYBase64(t) => obj("TensorNPYBase64"@, print_string(t)),
    }
}

/// Comma-separated canonical JSON texts of a sequence of values.
pub open spec fn print_elems(vs: Seq<IValueView>) -> Seq<char>
    decreases vs,
{
    if vs.len() == 0 {
        Seq::empty()
    } else if vs.len() == 1 {
        print_value(vs[0])
    } else {
        print_value(vs[0]) + seq![','] + print_elems(vs.drop_first())
    }
}

/// Canonical JSON text of a whole input.
pub open spec fn print_input(args: Seq<IValueView>) -> Seq<char> {
    seq!['{', '"'] + "positional_arguments"@ + seq!['"', ':', '[']
        + print_elems(args) + seq![']', '}']
}

// ---------------------------------------------------------------------------
// Parsing: helpers
// ---------------------------------------------------------------------------

/// First index at or after `i` holding a non-blank character.
pub open spec fn skip_ws(s: Seq<char>, i: nat) -> nat
    decreases s.len() - i,
{
    if i < s.len() && is_ws(s[i as int]) {
        skip_ws(s, i + 1)
    } else {
        i
    }
}

/// First index at or after `i` holding a non-digit character.
pub open spec fn digit_run_end(s: Seq<char>, i: nat) -> nat
    decreases s.len() - i,
{
    if i < s.len() && is_digit(s[i as int]) {
        digit_run_end(s, i + 1)
    } else {
        i
    }
}

/// The literal `lit` stands in `s` at position `i`.
pub open spec fn lit_at(s: Seq<char>, i: nat, lit: Seq<char>) -> bool {
    i + lit.len() <= s.len() && s.subrange(i as int, i + lit.len() as int) == lit
}

/// Clamp a continuation index for termination: at least `i + 1`, at most
/// `s.len()`. Wherever a parse step has succeeded the index it produced is
/// already in that range, and the clamp is the identity.
pub open spec fn nxt(s: Seq<char>, i: nat, j: nat) -> nat {
    if j <= i {
        if i + 1 <= s.len() { (i + 1) as nat } else { s.len() }
    } else if j <= s.len() {
        j
    } else {
        s.len()
    }
}

/// Clamp an index to at least `i` (used where the continuation may stand
/// still, with the recursion ranked instead).
pub open spec fn at_least(i: nat, j: nat) -> nat {
    if j >= i { j } else { i }
}

/// Body of a JSON string starting just after the opening quote; returns the
/// decoded text and the index just past the closing quote.
pub open spec fn parse_str_body(s: Seq<char>, i: nat) -> Option<(Seq<char>, nat)>
    decreases s.len() - i,
{
    if i >= s.len() {
        None
    } else if s[i as int] == '"' {
        Some((Seq::empty(), (i + 1) as nat))
    } else if s[i as int] == '\\' {
        if i + 1 >= s.len() {
            None
        } else {
            let e = s[i as int + 1];
            if e == '"' || e == '\\' || e == '/' {
                match parse_str_body(s, i + 2) {
                    Some((t, j)) => Some((seq![e] + t, j)),
                    None => None,
                }
            } else if e == 'n' || e == 't' || e == 'r' || e == 'b' || e == 'f' {
                let c = if e == 'n' { '\n' }
                    else if e == 't' { '\t' }
                    else if e == 'r' { '\r' }
                    else if e == 'b' { '\u{8}' }
                    else { '\u{c}' };
                match parse_str_body(s, i + 2) {
                    Some((t, j)) => Some((seq![c] + t, j)),
                    None => None,
                }
            } else if e == 'u' {
                if i + 6 <= s.len() && s[i as int + 2] == '0' && s[i as int + 3] == '0'
                    && hex_val(s[i as int + 4]) is Some && hex_val(s[i as int + 5]) is Some {
                    let code = hex_val(s[i as int + 4]).unwrap() * 16
                        + hex_val(s[i as int + 5]).unwrap();
                    match parse_str_body(s, i + 6) {
                        Some((t, j)) => Some((seq![(code as u8) as char] + t, j)),
                        None => None,
                    }
                } else {
                    None
                }
            } else {
                None
            }
        }
    } else {
        match parse_str_body(s, i + 1) {
            Some((t, j)) => Some((seq![s[i as int]] + t, j)),
            None => None,
        }
    }
}

/// A quoted JSON string starting at `i`; returns the decoded text and the
/// index just past the closing quote.
pub open spec fn parse_string(s: Seq<char>, i: nat) -> Option<(Seq<char>, nat)> {
    if i < s.len() && s[i as int] == '"' {
        parse_str_body(s, i + 1)
    } else {
        None
    }
}

/// An unsigned decimal integer no larger than `bound`, starting at `i`.
pub open spec fn parse_nat(s: Seq<char>, i: nat, bound: nat) -> Option<(nat, nat)> {
    let e = digit_run_end(s, i);
    if e == i {
        None
    } else {
        let n = val_of_digits(s.subrange(i as int, e as int));
        if n <= bound {
            Some((n, e))
        } else {
            None
        }
    }
}

/// A signed 64-bit integer in decimal, starting at `i`.
pub open spec fn parse_i64(s: Seq<char>, i: nat) -> Option<(i64, nat)> {
    if i < s.len() && s[i as int] == '-' {
        match parse_nat(s, i + 1, 0x8000_0000_0000_0000) {
            Some((n, j)) => Some(((-(n as int)) as i64, j)),
            None => None,
        }
    } else {
        match parse_nat(s, i, 0x7FFF_FFFF_FFFF_FFFF) {
            Some((n, j)) => Some((n as i64, j)),
            None => None,
        }
    }
}

// ---------------------------------------------------------------------------
// Parsing: values
// ---------------------------------------------------------------------------

/// A tagged one-key object `{"<Tag>": payload}` starting at `i`; returns the
/// value and the index just past the closing brace.
pub open spec fn parse_value(s: Seq<char>, i: nat) -> Option<(IValueView, nat)>
    decreases s.len() - i, 0int,
{
    if i >= s.len() || s[i as int] != '{' {
        None
    } else {
        let i1 = skip_ws(s, i + 1);
        match parse_string(s, i1) {
            None => None,
            Some((tag, i2)) => {
                let i3 = skip_ws(s, i2);
                if i3 >= s.len() || s[i3 as int] != ':' {
                    None
                } else {
                    let i4 = skip_ws(s, i3 + 1);
                    let body: Option<(IValueView, nat)> = if tag == "None"@ {
                        if lit_at(s, i4, "null"@) {
                            Some((IValueView::Null, (i4 + 4) as nat))
                        } else {
                            None
                        }
                    } else if tag == "Bool"@ {
                        if lit_at(s, i4, "true"@) {
                            Some((IValueView::Bool(true), (i4 + 4) as nat))
                        } else if lit_at(s, i4, "false"@) {
                            Some((IValueView::Bool(false), (i4 + 5) as nat))
                        } else {
                            None
                        }
                    } else if tag == "Int"@ {
                        match parse_i64(s, i4) {
                            Some((x, j)) => Some((IValueView::Int(x), j)),
                            None => None,
                        }
                    } else if tag == "Double"@ {
                        match parse_nat(s, i4, 0xFFFF_FFFF_FFFF_FFFF) {
                            Some((n, j)) => Some((IValueView::Double(n as u64), j)),
                            None => None,
                        }
                    } else if tag == "Str"@ {
                        match parse_string(s, i4) {
                            Some((t, j)) => Some((IValueView::Str(t), j)),
                            None => None,
                        }
                    } else if tag == "TensorNPYBase64"@ {
                        match parse_string(s, i4) {
                            Some((t, j)) => Some((IValueView::TensorNPYBase64(t), j)),
                            None => None,
                        }
                    } else if tag == "Tuple"@ {
                        if i4 < s.len() && s[i4 as int] == '[' {
                            match parse_elems(s, nxt(s, i, i4 + 1)) {
                                Some((vs, j)) => Some((IValueView::Tuple(vs), j)),
                                None => None,
                            }
                        } else {
                            None
                        }
                    } else if tag == "List"@ {
                        if i4 < s.len() && s[i4 as int] == '[' {
                            match parse_elems(s, nxt(s, i, i4 + 1)) {
                                Some((vs, j)) => Some((IValueView::List(vs), j)),
                                None => None,
                            }
                        } else {
                            None
                        }
                    } else if tag == "Optional"@ {
                        if lit_at(s, i4, "null"@) {
                            Some((IValueView::Optional(Option::None), (i4 + 4) as nat))
                        } else {
                            match parse_value(s, nxt(s, i, i4)) {
                                Some((v, j)) => Some(
                                    (IValueView::Optional(Option::Some(Box::new(v))), j),
                                ),
                                None => None,
                            }
                        }
                    } else {
                        None
                    };
                    match body {
                        None => None,
                        Some((v, i5)) => {
                            let i6 = skip_ws(s, i5);
                            if i6 < s.len() && s[i6 as int] == '}' {
                                Some((v, (i6 + 1) as nat))
                            } else {
                                None
                            }
                        },
                    }
                }
            },
        }
    }
}

/// The elements of an array, starting just after the opening bracket; returns
/// the values and the index just past the closing bracket.
pub open spec fn parse_elems(s: Seq<char>, i: nat) -> Option<(Seq<IValueView>, nat)>
    decreases s.len() - i, 1int,
{
    let j = skip_ws(s, i);
    if j >= s.len() {
        None
    } else if s[j as int] == ']' {
        Some((Seq::empty(), (j + 1) as nat))
    } else {
        match parse_value(s, at_least(i, j)) {
            None => None,
            Some((v, j2)) => {
                let j3 = skip_ws(s, j2);
                if j3 >= s.len() {
                    None
                } else if s[j3 as int] == ']' {
                    Some((seq![v], (j3 + 1) as nat))
                } else if s[j3 as int] == ',' {
                    let j5 = skip_ws(s, j3 + 1);
                    if j5 < s.len() && s[j5 as int] == ']' {
                        None
                    } else {
                        match parse_elems(s, nxt(s, i, j3 + 1)) {
                            Some((vs, j4)) => Some((seq![v] + vs, j4)),
                            None => None,
                        }
                    }
                } else {
                    None
                }
            },
        }
    }
}

/// A whole input document: one object with the single key
/// `positional_arguments` holding an array of values, and nothing but blanks
/// around it.
pub open spec fn parse_input(s: Seq<char>) -> Option<Seq<IValueView>> {
    let i0 = skip_ws(s, 0);
    if i0 >= s.len() || s[i0 as int] != '{' {
        None
    } else {
        let i1 = skip_ws(s, i0 + 1);
        match parse_string(s, i1) {
            None => None,
            Some((key, i2)) => {
                if key != "positional_arguments"@ {
                    None
                } else {
                    let i3 = skip_ws(s, i2);
                    if i3 >= s.len() || s[i3 as int] != ':' {
                        None
                    } else {
                        let i4 = skip_ws(s, i3 + 1);
                        if i4 >= s.len() || s[i4 as int] != '[' {
                            None
                        } else {
                            match parse_elems(s, i4 + 1) {
                                None => None,
                                Some((vs, i5)) => {
                                    let i6 = skip_ws(s, i5);
                                    if i6 >= s.len() || s[i6 as int] != '}' {
                                        None
                                    } else if skip_ws(s, i6 + 1) == s.len() {
                                        Some(vs)
                                    } else {
                                        None
                                    }
                                },
                            }
                        }
                    }
                }
            },
        }
    }
}

// ---------------------------------------------------------------------------
// Character plumbing (trusted wrappers around std)
// ---------------------------------------------------------------------------

/// Relies on `str::chars`: yields the characters of the string, in order.
#[verifier::external_body]
pub(crate) fn str_to_chars(s: &str) -> (r: Vec<char>)
    ensures
        r@ == s@,
{
    s.chars().collect()
}

/// Relies on `String`'s `FromIterator<char>`: collects the characters into a
/// string holding exactly them, in order.
#[verifier::external_body]
pub(crate) fn chars_to_string(v: &Vec<char>) -> (r: String)
    ensures
        r@ == v@,
{
    v.iter().collect()
}

// ---------------------------------------------------------------------------
// Printing (executable)
// ---------------------------------------------------------------------------

/// Append the characters of a literal.
#[verifier::loop_isolation(false)]
pub(crate) fn emit_lit(out: &mut Vec<char>, lit: &str)
    ensures
        final(out)@ == old(out)@ + lit@,
{
    let cs = str_to_chars(lit);
    let n = cs.len();
    let mut k: usize = 0;
    while k < n
        invariant
            k <= n,
            out@ == old(out)@ + cs@.subrange(0, k as int),
        decreases n - k,
    {
        let ghost pre = out@;
        out.push(cs[k]);
        proof {
            assert(cs@.subrange(0, k + 1) =~= cs@.subrange(0, k as int).push(cs@[k as int]));
            assert(out@ =~= old(out)@ + cs@.subrange(0, k + 1));
        }
        k += 1;
    }
    proof {
        assert(out@ =~= old(out)@ + lit@);
    }
}

pub(crate) fn digit_char_x(n: u64) -> (c: char)
    requires
        n < 10,
    ensures
        c == digit_char(n as nat),
{
    match n {
        0 => '0',
        1 => '1',
        2 => '2',
        3 => '3',
        4 => '4',
        5 => '5',
        6 => '6',
        7 => '7',
        8 => '8',
        _ => '9',
    }
}

fn hex_char_x(n: u32) -> (c: char)
    requires
        n < 16,
    ensures
        c == hex_char(n as nat),
{
    match n {
        0 => '0',
        1 => '1',
        2 => '2',
        3 => '3',
        4 => '4',
        5 => '5',
        6 => '6',
        7 => '7',
        8 => '8',
        9 => '9',
        10 => 'a',
        11 => 'b',
        12 => 'c',
        13 => 'd',
        14 => 'e',
        _ => 'f',
    }
}

/// Append the decimal digits of `x`.
pub(crate) fn emit_u64(out: &mut Vec<char>, x: u64)
    ensures
        final(out)@ == old(out)@ + dec_of(x as nat),
    decreases x,
{
    if x < 10 {
        out.push(digit_char_x(x));
        proof {
            assert(out@ =~= old(out)@ + dec_of(x as nat));
        }
    } else {
        emit_u64(out, x / 10);
        out.push(digit_char_x(x % 10));
        proof {
            assert(out@ =~= old(out)@ + dec_of(x as nat));
        }
    }
}

/// Append the decimal text of `x`, with a sign when negative.
pub(crate) fn emit_i64(out: &mut Vec<char>, x: i64)
    ensures
        final(out)@ == old(out)@ + print_int(x),
{
    if x < 0 {
        out.push('-');
        let mag: u64 = (-(x as i128)) as u64;
        emit_u64(out, mag);
        proof {
            assert(out@ =~= old(out)@ + print_int(x));
        }
    } else {
        emit_u64(out, x as u64);
    }
}

/// Append the escaped body of a JSON string.
#[verifier::loop_isolation(false)]
fn emit_str_body(out: &mut Vec<char>, t: &Vec<char>)
    ensures
        final(out)@ == old(out)@ + print_str_body(t@),
{
    let n = t.len();
    proof {
        assert(t@.skip(0) =~= t@);
    }
    let mut k: usize = 0;
    while k < n
        invariant
            k <= n,
            old(out)@ + print_str_body(t@) == out@ + print_str_body(t@.skip(k as int)),
        decreases n - k,
    {
        let c = t[k];
        let ghost pre = out@;
        proof {
            assert(t@.skip(k as int)[0] == c);
            assert(t@.skip(k as int).drop_first() =~= t@.skip(k + 1));
        }
        let u = c as u32;
        if c == '"' {
            out.push('\\');
            out.push('"');
        } else if c == '\\' {
            out.push('\\');
            out.push('\\');
        } else if u < 0x20 {
            out.push('\\');
            out.push('u');
            out.push('0');
            out.push('0');
            out.push(hex_char_x(u / 16));
            out.push(hex_char_x(u % 16));
        } else {
            out.push(c);
        }
        proof {
            assert(out@ =~= pre + esc(c));
            assert(print_str_body(t@.skip(k as int)) == esc(c) + print_str_body(t@.skip(k + 1)));
            assert(old(out)@ + print_str_body(t@) =~= out@ + print_str_body(t@.skip(k + 1)));
        }
        k += 1;
    }
    proof {
        assert(t@.skip(n as int) =~= Seq::<char>::empty());
        assert(out@ =~= old(out)@ + print_str_body(t@));
    }
}

/// Append a quoted, escaped JSON string.
fn emit_string(out: &mut Vec<char>, t: &Vec<char>)
    ensures
        final(out)@ == old(out)@ + print_string(t@),
{
    out.push('"');
    emit_str_body(out, t);
    out.push('"');
    proof {
        assert(out@ =~= old(out)@ + print_string(t@));
    }
}

/// Text fragments used by the printer, related to their character sequences.
proof fn lemma_fragments()
    ensures
        "{\""@ == seq!['{', '"'],
        "\":"@ == seq!['"', ':'],
        "}"@ == seq!['}'],
        "["@ == seq!['['],
        "]}"@ == seq![']', '}'],
        "\":["@ == seq!['"', ':', '['],
{
    reveal_strlit("{\"");
    reveal_strlit("\":");
    reveal_strlit("}");
    reveal_strlit("[");
    reveal_strlit("]}");
    reveal_strlit("\":[");
    assert("{\""@ =~= seq!['{', '"']);
    assert("\":"@ =~= seq!['"', ':']);
    assert("}"@ =~= seq!['}']);
    assert("["@ =~= seq!['[']);
    assert("]}"@ =~= seq![']', '}']);
    assert("\":["@ =~= seq!['"', ':', '[']);
}

/// Append `{"tag":`, the opening of a one-key object.
fn emit_obj_open(out: &mut Vec<char>, tag: &str)
    ensures
        final(out)@ == old(out)@ + seq!['{', '"'] + tag@ + seq!['"', ':'],
{
    emit_lit(out, "{\"");
    emit_lit(out, tag);
    emit_lit(out, "\":");
    proof {
        lemma_fragments();
        assert(out@ =~= old(out)@ + seq!['{', '"'] + tag@ + seq!['"', ':']);
    }
}

/// Append the canonical JSON text of one value.
#[verifier::loop_isolation(false)]
pub(crate) fn emit_value(out: &mut Vec<char>, v: &SerializableIValue)
    ensures
        final(out)@ == old(out)@ + print_value(v.deep_view()),
    decreases v,
{
    match v {
        SerializableIValue::Null => {
            emit_obj_open(out, "None");
            emit_lit(out, "null");
            emit_lit(out, "}");
            proof {
                lemma_fragments();
                assert(out@ =~= old(out)@ + print_value(v.deep_view()));
            }
        },
        SerializableIValue::Bool(b) => {
            emit_obj_open(out, "Bool");
            if *b {
                emit_lit(out, "true");
            } else {
                emit_lit(out, "false");
            }
            emit_lit(out, "}");
            proof {
                lemma_fragments();
                assert(out@ =~= old(out)@ + print_value(v.deep_view()));
            }
        },
        SerializableIValue::Int(x) => {
            emit_obj_open(out, "Int");
            emit_i64(out, *x);
            emit_lit(out, "}");
            proof {
                lemma_fragments();
                assert(out@ =~= old(out)@ + print_value(v.deep_view()));
            }
        },
        SerializableIValue::Double(d) => {
            emit_obj_open(out, "Double");
            emit_u64(out, *d);
            emit_lit(out, "}");
            proof {
                lemma_fragments();
                assert(out@ =~= old(out)@ + print_value(v.deep_view()));
            }
        },
        SerializableIValue::Str(t) => {
            emit_obj_open(out, "Str");
            let cs = str_to_chars(t.as_str());
            emit_string(out, &cs);
            emit_lit(out, "}");
            proof {
                lemma_fragments();
                assert(out@ =~= old(out)@ + print_value(v.deep_view()));
            }
        },
        SerializableIValue::TensorNPYBase64(t) => {
            emit_obj_open(out, "TensorNPYBase64");
            let cs = str_to_chars(t.as_str());
            emit_string(out, &cs);
            emit_lit(out, "}");
            proof {
                lemma_fragments();
                assert(out@ =~= old(out)@ + print_value(v.deep_view()));
            }
        },
        SerializableIValue::Tuple(vs) => {
            emit_obj_open(out, "Tuple");
            emit_lit(out, "[");
            emit_elems(out, vs);
            emit_lit(out, "]}");
            proof {
                lemma_fragments();
                assert(out@ =~= old(out)@ + print_value(v.deep_view()));
            }
        },
        SerializableIValue::List(vs) => {
            emit_obj_open(out, "List");
            emit_lit(out, "[");
            emit_elems(out, vs);
            emit_lit(out, "]}");
            proof {
                lemma_fragments();
                assert(out@ =~= old(out)@ + print_value(v.deep_view()));
            }
        },
        SerializableIValue::Optional(o) => {
            emit_obj_open(out, "Optional");
            match o {
                Option::None => emit_lit(out, "null"),
                Option::Some(b) => emit_value(out, &**b),
            }
            emit_lit(out, "}");
            proof {
                lemma_fragments();
                assert(out@ =~= old(out)@ + print_value(v.deep_view()));
            }
        },
    }
}

/// Append the comma-separated canonical JSON texts of the values.
#[verifier::loop_isolation(false)]
fn emit_elems(out: &mut Vec<char>, vs: &Vec<SerializableIValue>)
    ensures
        final(out)@ == old(out)@ + print_elems(crate::value::deep_view_seq(vs@)),
    decreases vs,
{
    let ghost views = crate::value::deep_view_seq(vs@);
    proof {
        crate::value::lemma_deep_view_seq(vs@);
    }
    let n = vs.len();
    proof {
        assert(views.skip(0) =~= views);
    }
    let mut k: usize = 0;
    while k < n
        invariant
            k <= n,
            old(out)@ + print_elems(views) == out@ + print_elems(views.skip(k as int)),
        decreases n - k,
    {
        let ghost pre = out@;
        proof {
            assert(views.skip(k as int)[0] == vs@[k as int].deep_view());
            assert(views.skip(k as int).drop_first() =~= views.skip(k + 1));
        }
        emit_value(out, &vs[k]);
        if k + 1 < n {
            emit_lit(out, ",");
            proof {
                reveal_strlit(",");
                assert(","@ =~= seq![',']);
                assert(out@ =~= pre + print_value(views.skip(k as int)[0]) + seq![',']);
                assert(print_elems(views.skip(k as int)) == print_value(views.skip(k as int)[0])
                    + seq![','] + print_elems(views.skip(k + 1)));
                assert(old(out)@ + print_elems(views) =~= out@ + print_elems(views.skip(k + 1)));
            }
        } else {
            proof {
                assert(views.skip(k as int).len() == 1);
                assert(print_elems(views.skip(k as int)) == print_value(views.skip(k as int)[0]));
                assert(out@ =~= pre + print_elems(views.skip(k as int)));
                assert(views.skip(k + 1) =~= Seq::<IValueView>::empty());
                assert(old(out)@ + print_elems(views) =~= out@ + print_elems(views.skip(k + 1)));
            }
        }
        k += 1;
    }
    proof {
        assert(views.skip(n as int) =~= Seq::<IValueView>::empty());
        assert(out@ =~= old(out)@ + print_elems(views));
    }
}

// ---------------------------------------------------------------------------
// Parsing (executable)
// ---------------------------------------------------------------------------

/// Compare a character vector against a literal.
#[verifier::loop_isolation(false)]
pub(crate) fn chars_eq_lit(t: &Vec<char>, lit: &str) -> (r: bool)
    ensures
        r == (t@ == lit@),
{
    let l = str_to_chars(lit);
    if t.len() != l.len() {
        return false;
    }
    let n = t.len();
    let mut k: usize = 0;
    while k < n
        invariant
            k <= n,
            forall|m: int| 0 <= m < k ==> t@[m] == l@[m],
        decreases n - k,
    {
        if t[k] != l[k] {
            return false;
        }
        k += 1;
    }
    proof {
        assert(t@ =~= l@);
    }
    true
}

/// Whether the literal stands in `s` at position `i`.
#[verifier::loop_isolation(false)]
fn p_lit_at(s: &Vec<char>, i: usize, lit: &str) -> (r: bool)
    requires
        i <= s@.len(),
    ensures
        r == lit_at(s@, i as nat, lit@),
{
    let l = str_to_chars(lit);
    if l.len() > s.len() - i {
        return false;
    }
    let n = l.len();
    let mut k: usize = 0;
    while k < n
        invariant
            k <= n,
            i + n <= s@.len(),
            forall|m: int| 0 <= m < k ==> s@[i + m] == l@[m],
        decreases n - k,
    {
        if s[i + k] != l[k] {
            proof {
                assert(s@.subrange(i as int, i + l@.len() as int)[k as int] != l@[k as int]);
            }
            return false;
        }
        k += 1;
    }
    proof {
        assert(s@.subrange(i as int, i + l@.len() as int) =~= l@);
    }
    true
}

/// Index of the first non-blank character at or after `i`.
fn p_skip_ws(s: &Vec<char>, i: usize) -> (j: usize)
    requires
        i <= s@.len(),
    ensures
        j as nat == skip_ws(s@, i as nat),
        i <= j <= s@.len(),
{
    let n = s.len();
    let mut cur: usize = i;
    loop
        invariant
            i <= cur <= n,
            n == s@.len(),
            skip_ws(s@, i as nat) == skip_ws(s@, cur as nat),
        ensures
            i <= cur <= n,
            skip_ws(s@, i as nat) == cur as nat,
        decreases n - cur,
    {
        if cur == n {
            break;
        }
        let c = s[cur];
        if c == ' ' || c == '\t' || c == '\n' || c == '\r' {
            cur += 1;
        } else {
            break;
        }
    }
    cur
}

/// Index of the first non-digit character at or after `i`.
fn p_digit_run_end(s: &Vec<char>, i: usize) -> (j: usize)
    requires
        i <= s@.len(),
    ensures
        j as nat == digit_run_end(s@, i as nat),
        i <= j <= s@.len(),
{
    let n = s.len();
    let mut cur: usize = i;
    loop
        invariant
            i <= cur <= n,
            n == s@.len(),
            digit_run_end(s@, i as nat) == digit_run_end(s@, cur as nat),
        ensures
            i <= cur <= n,
            digit_run_end(s@, i as nat) == cur as nat,
        decreases n - cur,
    {
        if cur == n {
            break;
        }
        let u = s[cur] as u32;
        if 48 <= u && u <= 57 {
            cur += 1;
        } else {
            break;
        }
    }
    cur
}

/// Numeric value of a digit character.
pub(crate) fn digit_val_x(c: char) -> (d: u64)
    requires
        is_digit(c),
    ensures
        d as nat == digit_val(c),
        d < 10,
{
    let u = c as u32;
    ((u - 48) as u64)
}

/// A digit string's value does not shrink when the string grows.
proof fn lemma_val_digits_grows(ds: Seq<char>, k: int)
    requires
        0 <= k <= ds.len(),
    ensures
        val_of_digits(ds) >= val_of_digits(ds.subrange(0, k)),
    decreases ds.len(),
{
    if k < ds.len() {
        lemma_val_digits_grows(ds.drop_last(), k);
        assert(ds.drop_last().subrange(0, k) =~= ds.subrange(0, k));
        assert(val_of_digits(ds.drop_last()) * 10 >= val_of_digits(ds.drop_last()));
    } else {
        assert(ds.subrange(0, k) =~= ds);
    }
}

/// Parse an unsigned decimal integer bounded by `bound`.
#[verifier::loop_isolation(false)]
fn p_parse_nat(s: &Vec<char>, i: usize, bound: u64) -> (r: Option<(u64, usize)>)
    requires
        i <= s@.len(),
    ensures
        r is Some <==> parse_nat(s@, i as nat, bound as nat) is Some,
        r matches Some((n, j)) ==> parse_nat(s@, i as nat, bound as nat)
            == Some((n as nat, j as nat)) && i < j <= s@.len(),
{
    let e = p_digit_run_end(s, i);
    if e == i {
        return None;
    }
    let mut acc: u64 = 0;
    let mut over: bool = false;
    let mut k: usize = i;
    proof {
        lemma_digit_run_all(s@, i as nat, i as nat);
        assert(s@.subrange(i as int, i as int) =~= Seq::<char>::empty());
    }
    while k < e
        invariant
            i <= k <= e <= s@.len(),
            e as nat == digit_run_end(s@, i as nat),
            forall|m: int| i <= m < e ==> is_digit(s@[m]),
            !over ==> acc as nat == val_of_digits(s@.subrange(i as int, k as int))
                && acc <= bound,
            over ==> val_of_digits(s@.subrange(i as int, k as int)) > bound,
        decreases e - k,
    {
        proof {
            assert(s@.subrange(i as int, k + 1).drop_last() =~= s@.subrange(i as int, k as int));
        }
        let d = digit_val_x(s[k]);
        if !over {
            if acc > bound / 10 || (acc == bound / 10 && d > bound % 10) {
                over = true;
                proof {
                    vstd::arithmetic::div_mod::lemma_fundamental_div_mod(
                        bound as int,
                        10int,
                    );
                    assert(val_of_digits(s@.subrange(i as int, k + 1)) > bound) by (nonlinear_arith)
                        requires
                            val_of_digits(s@.subrange(i as int, k + 1))
                                == val_of_digits(s@.subrange(i as int, k as int)) * 10
                                + digit_val(s@[k as int]),
                            acc as nat == val_of_digits(s@.subrange(i as int, k as int)),
                            d as nat == digit_val(s@[k as int]),
                            acc > bound / 10 || (acc == bound / 10 && d > bound % 10),
                            bound == 10 * (bound / 10) + bound % 10,
                            bound % 10 < 10,
                            d < 10,
                    ;
                }
            } else {
                acc = acc * 10 + d;
            }
        } else {
            proof {
                assert(val_of_digits(s@.subrange(i as int, k + 1))
                    == val_of_digits(s@.subrange(i as int, k as int)) * 10
                    + digit_val(s@[k as int]));
                assert(val_of_digits(s@.subrange(i as int, k as int)) * 10
                    >= val_of_digits(s@.subrange(i as int, k as int))) by (nonlinear_arith);
            }
        }
        k += 1;
    }
    proof {
        assert(s@.subrange(i as int, e as int) =~= s@.subrange(i as int, k as int));
    }
    if over {
        None
    } else {
        Some((acc, e))
    }
}

/// Every position of a digit run holds a digit.
proof fn lemma_digit_run_all(s: Seq<char>, i: nat, k: nat)
    ensures
        forall|m: int| i <= m < digit_run_end(s, i) ==> is_digit(s[m]),
    decreases s.len() - i,
{
    if i < s.len() && is_digit(s[i as int]) {
        lemma_digit_run_all(s, i + 1, k);
    }
}

/// Parse a signed decimal 64-bit integer.
fn p_parse_i64(s: &Vec<char>, i: usize) -> (r: Option<(i64, usize)>)
    requires
        i <= s@.len(),
    ensures
        r is Some <==> parse_i64(s@, i as nat) is Some,
        r matches Some((x, j)) ==> parse_i64(s@, i as nat) == Some((x, j as nat))
            && i < j <= s@.len(),
{
    if i < s.len() && s[i] == '-' {
        match p_parse_nat(s, i + 1, 0x8000_0000_0000_0000) {
            Some((n, j)) => {
                let x: i64 = if n == 0x8000_0000_0000_0000 {
                    i64::MIN
                } else {
                    -(n as i64)
                };
                Some((x, j))
            },
            None => None,
        }
    } else {
        match p_parse_nat(s, i, 0x7FFF_FFFF_FFFF_FFFF) {
            Some((n, j)) => Some((n as i64, j)),
            None => None,
        }
    }
}

/// Value of a hexadecimal digit character, if it is one.
fn hex_val_x(c: char) -> (r: Option<u32>)
    ensures
        r is Some <==> hex_val(c) is Some,
        r matches Some(d) ==> hex_val(c) == Some(d as nat) && d < 16,
{
    let u = c as u32;
    if 48 <= u && u <= 57 {
        Some(u - 48)
    } else if c == 'a' || c == 'A' {
        Some(10)
    } else if c == 'b' || c == 'B' {
        Some(11)
    } else if c == 'c' || c == 'C' {
        Some(12)
    } else if c == 'd' || c == 'D' {
        Some(13)
    } else if c == 'e' || c == 'E' {
        Some(14)
    } else if c == 'f' || c == 'F' {
        Some(15)
    } else {
        None
    }
}

/// Prepend already-decoded text to the outcome of a string-body parse.
pub open spec fn psb_prepend(
    p: Seq<char>,
    r: Option<(Seq<char>, nat)>,
) -> Option<(Seq<char>, nat)> {
    match r {
        Some((t, j)) => Some((p + t, j)),
        None => None,
    }
}

/// Parse the body of a JSON string, starting just after the opening quote.
#[verifier::loop_isolation(false)]
fn p_parse_str_body(s: &Vec<char>, i: usize) -> (r: Option<(Vec<char>, usize)>)
    requires
        i <= s@.len(),
    ensures
        r is Some <==> parse_str_body(s@, i as nat) is Some,
        r matches Some((t, j)) ==> parse_str_body(s@, i as nat) == Some((t@, j as nat))
            && i < j <= s@.len(),
{
    let n = s.len();
    let mut acc: Vec<char> = Vec::new();
    let mut cur: usize = i;
    while cur < n
        invariant
            i <= cur <= n,
            psb_prepend(acc@, parse_str_body(s@, cur as nat))
                == parse_str_body(s@, i as nat),
        decreases n - cur,
    {
        let c = s[cur];
        if c == '"' {
            proof {
                assert(acc@ + Seq::<char>::empty() =~= acc@);
            }
            return Some((acc, cur + 1));
        } else if c == '\\' {
            if cur + 1 == n {
                return None;
            }
            let e = s[cur + 1];
            if e == '"' || e == '\\' || e == '/' {
                proof {
                    lemma_psb_step(acc@, e, s@, cur as nat, (cur + 2) as nat);
                }
                acc.push(e);
                cur += 2;
            } else if e == 'n' || e == 't' || e == 'r' || e == 'b' || e == 'f' {
                let c2 = if e == 'n' { '\n' }
                    else if e == 't' { '\t' }
                    else if e == 'r' { '\r' }
                    else if e == 'b' { '\u{8}' }
                    else { '\u{c}' };
                proof {
                    lemma_psb_step(acc@, c2, s@, cur as nat, (cur + 2) as nat);
                }
                acc.push(c2);
                cur += 2;
            } else if e == 'u' {
                if n - cur < 6 || !(s[cur + 2] == '0') || !(s[cur + 3] == '0') {
                    return None;
                }
                let h1 = match hex_val_x(s[cur + 4]) {
                    Some(d) => d,
                    None => { return None; },
                };
                let h2 = match hex_val_x(s[cur + 5]) {
                    Some(d) => d,
                    None => { return None; },
                };
                let code: u32 = h1 * 16 + h2;
                let c2: char = (code as u8) as char;
                proof {
                    lemma_psb_step(acc@, c2, s@, cur as nat, (cur + 6) as nat);
                }
                acc.push(c2);
                cur += 6;
            } else {
                return None;
            }
        } else {
            proof {
                lemma_psb_step(acc@, c, s@, cur as nat, (cur + 1) as nat);
            }
            acc.push(c);
            cur += 1;
        }
    }
    None
}

/// One decoding step of the string-body parse keeps the prepend equation.
proof fn lemma_psb_step(p: Seq<char>, c: char, s: Seq<char>, cur: nat, cur2: nat)
    requires
        parse_str_body(s, cur) == psb_prepend(seq![c], parse_str_body(s, cur2)),
    ensures
        psb_prepend(p.push(c), parse_str_body(s, cur2)) == psb_prepend(
            p,
            parse_str_body(s, cur),
        ),
{
    match parse_str_body(s, cur2) {
        Some((t, j)) => {
            assert(p.push(c) + t =~= p + (seq![c] + t));
        },
        None => {},
    }
}

/// Parse a quoted JSON string starting at `i`.
fn p_parse_string(s: &Vec<char>, i: usize) -> (r: Option<(Vec<char>, usize)>)
    requires
        i <= s@.len(),
    ensures
        r is Some <==> parse_string(s@, i as nat) is Some,
        r matches Some((t, j)) ==> parse_string(s@, i as nat) == Some((t@, j as nat))
            && i < j <= s@.len(),
{
    if i < s.len() && s[i] == '"' {
        p_parse_str_body(s, i + 1)
    } else {
        None
    }
}

/// Prepend already-parsed values to the outcome of an element-list parse.
pub open spec fn pe_prepend(
    p: Seq<IValueView>,
    r: Option<(Seq<IValueView>, nat)>,
) -> Option<(Seq<IValueView>, nat)> {
    match r {
        Some((vs, j)) => Some((p + vs, j)),
        None => None,
    }
}

/// Parse a tagged one-key object into a value.
#[verifier::loop_isolation(false)]
fn p_parse_value(s: &Vec<char>, i: usize) -> (r: Option<(SerializableIValue, usize)>)
    requires
        i <= s@.len(),
    ensures
        r is Some <==> parse_value(s@, i as nat) is Some,
        r matches Some((v, j)) ==> parse_value(s@, i as nat) == Some((v.deep_view(), j as nat))
            && i < j <= s@.len(),
    decreases s@.len() - i, 0int,
{
    if i == s.len() || !(s[i] == '{') {
        return None;
    }
    let i1 = p_skip_ws(s, i + 1);
    let (tag, i2) = match p_parse_string(s, i1) {
        Some(p) => p,
        None => { return None; },
    };
    let i3 = p_skip_ws(s, i2);
    if i3 == s.len() || !(s[i3] == ':') {
        return None;
    }
    let i4 = p_skip_ws(s, i3 + 1);
    proof {
        reveal_strlit("null");
        reveal_strlit("true");
        reveal_strlit("false");
    }
    let body: Option<(SerializableIValue, usize)> = if chars_eq_lit(&tag, "None") {
        if p_lit_at(s, i4, "null") {
            Some((SerializableIValue::Null, i4 + 4))
        } else {
            None
        }
    } else if chars_eq_lit(&tag, "Bool") {
        if p_lit_at(s, i4, "true") {
            Some((SerializableIValue::Bool(true), i4 + 4))
        } else if p_lit_at(s, i4, "false") {
            Some((SerializableIValue::Bool(false), i4 + 5))
        } else {
            None
        }
    } else if chars_eq_lit(&tag, "Int") {
        match p_parse_i64(s, i4) {
            Some((x, j)) => Some((SerializableIValue::Int(x), j)),
            None => None,
        }
    } else if chars_eq_lit(&tag, "Double") {
        match p_parse_nat(s, i4, 0xFFFF_FFFF_FFFF_FFFF) {
            Some((n, j)) => Some((SerializableIValue::Double(n), j)),
            None => None,
        }
    } else if chars_eq_lit(&tag, "Str") {
        match p_parse_string(s, i4) {
            Some((t, j)) => Some((SerializableIValue::Str(chars_to_string(&t)), j)),
            None => None,
        }
    } else if chars_eq_lit(&tag, "TensorNPYBase64") {
        match p_parse_string(s, i4) {
            Some((t, j)) => Some((SerializableIValue::TensorNPYBase64(chars_to_string(&t)), j)),
            None => None,
        }
    } else if chars_eq_lit(&tag, "Tuple") {
        if i4 < s.len() && s[i4] == '[' {
            proof {
                assert(nxt(s@, i as nat, (i4 + 1) as nat) == (i4 + 1) as nat);
            }
            match p_parse_elems(s, i4 + 1) {
                Some((vs, j)) => Some((SerializableIValue::Tuple(vs), j)),
                None => None,
            }
        } else {
            None
        }
    } else if chars_eq_lit(&tag, "List") {
        if i4 < s.len() && s[i4] == '[' {
            proof {
                assert(nxt(s@, i as nat, (i4 + 1) as nat) == (i4 + 1) as nat);
            }
            match p_parse_elems(s, i4 + 1) {
                Some((vs, j)) => Some((SerializableIValue::List(vs), j)),
                None => None,
            }
        } else {
            None
        }
    } else if chars_eq_lit(&tag, "Optional") {
        if p_lit_at(s, i4, "null") {
            Some((SerializableIValue::Optional(None), i4 + 4))
        } else {
            proof {
                assert(nxt(s@, i as nat, i4 as nat) == i4 as nat);
            }
            match p_parse_value(s, i4) {
                Some((v, j)) => Some((SerializableIValue::Optional(Some(Box::new(v))), j)),
                None => None,
            }
        }
    } else {
        None
    };
    match body {
        None => None,
        Some((v, i5)) => {
            let i6 = p_skip_ws(s, i5);
            if i6 < s.len() && s[i6] == '}' {
                Some((v, i6 + 1))
            } else {
                None
            }
        },
    }
}

/// Parse the elements of an array, starting just after the opening bracket.
#[verifier::loop_isolation(false)]
fn p_parse_elems(s: &Vec<char>, i: usize) -> (r: Option<(Vec<SerializableIValue>, usize)>)
    requires
        i <= s@.len(),
    ensures
        r is Some <==> parse_elems(s@, i as nat) is Some,
        r matches Some((vs, j)) ==> parse_elems(s@, i as nat)
            == Some((crate::value::deep_view_seq(vs@), j as nat)) && i < j <= s@.len(),
    decreases s@.len() - i, 1int,
{
    let mut acc: Vec<SerializableIValue> = Vec::new();
    let mut cur: usize = i;
    proof {
        crate::value::lemma_deep_view_seq(acc@);
        assert(crate::value::deep_view_seq(acc@) =~= Seq::<IValueView>::empty());
    }
    loop
        invariant
            i <= cur <= s@.len(),
            pe_prepend(crate::value::deep_view_seq(acc@), parse_elems(s@, cur as nat))
                == parse_elems(s@, i as nat),
        decreases s@.len() - cur,
    {
        let ghost accv = crate::value::deep_view_seq(acc@);
        let ghost acc_pre = acc@;
        let j = p_skip_ws(s, cur);
        proof {
            assert(at_least(cur as nat, j as nat) == j as nat);
        }
        if j == s.len() {
            return None;
        }
        if s[j] == ']' {
            proof {
                assert(accv + Seq::<IValueView>::empty() =~= accv);
            }
            return Some((acc, j + 1));
        }
        let (v, j2) = match p_parse_value(s, j) {
            Some(p) => p,
            None => { return None; },
        };
        let j3 = p_skip_ws(s, j2);
        if j3 == s.len() {
            return None;
        }
        if s[j3] == ']' {
            let ghost vv = v.deep_view();
            acc.push(v);
            proof {
                assert(acc@.drop_last() =~= acc_pre);
                crate::value::lemma_deep_view_seq_push(acc@, accv, vv);
                assert(accv + seq![vv] =~= crate::value::deep_view_seq(acc@));
            }
            return Some((acc, j3 + 1));
        }
        if s[j3] == ',' {
            let j5 = p_skip_ws(s, j3 + 1);
            if j5 < s.len() && s[j5] == ']' {
                return None;
            }
            proof {
                assert(nxt(s@, cur as nat, (j3 + 1) as nat) == (j3 + 1) as nat);
            }
            let ghost vv = v.deep_view();
            acc.push(v);
            proof {
                assert(acc@.drop_last() =~= acc_pre);
                crate::value::lemma_deep_view_seq_push(acc@, accv, vv);
                lemma_pe_assoc(accv, vv, s@, (j3 + 1) as nat);
            }
            cur = j3 + 1;
        } else {
            return None;
        }
    }
}

/// Regrouping the prepended values around one parsed element.
proof fn lemma_pe_assoc(p: Seq<IValueView>, vv: IValueView, s: Seq<char>, j: nat)
    ensures
        pe_prepend(p.push(vv), parse_elems(s, j)) == pe_prepend(
            p,
            pe_prepend(seq![vv], parse_elems(s, j)),
        ),
{
    match parse_elems(s, j) {
        Some((vs, j4)) => {
            assert(p.push(vv) + vs =~= p + (seq![vv] + vs));
        },
        None => {},
    }
}

/// Parse a whole input document.
pub fn from_json(s: &str) -> (r: Option<TorchScriptInput>)
    ensures
        r is Some <==> parse_input(s@) is Some,
        r matches Some(inp) ==> parse_input(s@) == Some(inp.deep_view()),
{
    let cs = str_to_chars(s);
    let i0 = p_skip_ws(&cs, 0);
    if i0 == cs.len() || !(cs[i0] == '{') {
        return None;
    }
    let i1 = p_skip_ws(&cs, i0 + 1);
    let (key, i2) = match p_parse_string(&cs, i1) {
        Some(p) => p,
        None => { return None; },
    };
    if !chars_eq_lit(&key, "positional_arguments") {
        return None;
    }
    let i3 = p_skip_ws(&cs, i2);
    if i3 == cs.len() || !(cs[i3] == ':') {
        return None;
    }
    let i4 = p_skip_ws(&cs, i3 + 1);
    if i4 == cs.len() || !(cs[i4] == '[') {
        return None;
    }
    let (vs, i5) = match p_parse_elems(&cs, i4 + 1) {
        Some(p) => p,
        None => { return None; },
    };
    let i6 = p_skip_ws(&cs, i5);
    if i6 == cs.len() || !(cs[i6] == '}') {
        return None;
    }
    if p_skip_ws(&cs, i6 + 1) != cs.len() {
        return None;
    }
    Some(TorchScriptInput { positional_arguments: vs })
}

// ---------------------------------------------------------------------------
// The semantics list on the wire
// ---------------------------------------------------------------------------

/// The wire name of one per-argument policy.
pub open spec fn print_semantic(p: crate::semantics::LightrayIValueSemantic) -> Seq<char> {
    match p {
        crate::semantics::LightrayIValueSemantic::ExactValueMatch => "ExactValueMatch"@,
        crate::semantics::LightrayIValueSemantic::SizeMatch => "SizeMatch"@,
        crate::semantics::LightrayIValueSemantic::TypeMatch => "TypeMatch"@,
    }
}

/// The quoted, comma-separated policy names.
pub open spec fn print_sem_elems(ps: Seq<crate::semantics::LightrayIValueSemantic>) -> Seq<char>
    decreases ps,
{
    if ps.len() == 0 {
        Seq::empty()
    } else if ps.len() == 1 {
        seq!['"'] + print_semantic(ps[0]) + seq!['"']
    } else {
        seq!['"'] + print_semantic(ps[0]) + seq!['"', ','] + print_sem_elems(ps.drop_first())
    }
}

/// Canonical JSON text of a semantics list:
/// `{"positional_semantics":["<Policy>", ...]}`.
pub open spec fn print_semantics(ps: Seq<crate::semantics::LightrayIValueSemantic>) -> Seq<char> {
    seq!['{', '"'] + "positional_semantics"@ + seq!['"', ':', '['] + print_sem_elems(ps)
        + seq![']', '}']
}

/// The policy a wire name stands for.
pub open spec fn sem_of_text(t: Seq<char>) -> Option<crate::semantics::LightrayIValueSemantic> {
    if t == "ExactValueMatch"@ {
        Some(crate::semantics::LightrayIValueSemantic::ExactValueMatch)
    } else if t == "SizeMatch"@ {
        Some(crate::semantics::LightrayIValueSemantic::SizeMatch)
    } else if t == "TypeMatch"@ {
        Some(crate::semantics::LightrayIValueSemantic::TypeMatch)
    } else {
        None
    }
}

/// The elements of a policy array, starting just after the opening bracket.
pub open spec fn parse_sem_elems(s: Seq<char>, i: nat) -> Option<
    (Seq<crate::semantics::LightrayIValueSemantic>, nat),
>
    decreases s.len() - i,
{
    let j = skip_ws(s, i);
    if j >= s.len() {
        None
    } else if s[j as int] == ']' {
        Some((Seq::empty(), (j + 1) as nat))
    } else {
        match parse_string(s, j) {
            None => None,
            Some((t, j2)) => match sem_of_text(t) {
                None => None,
                Some(p) => {
                    let j3 = skip_ws(s, j2);
                    if j3 >= s.len() {
                        None
                    } else if s[j3 as int] == ']' {
                        Some((seq![p], (j3 + 1) as nat))
                    } else if s[j3 as int] == ',' {
                        let j5 = skip_ws(s, j3 + 1);
                        if j5 < s.len() && s[j5 as int] == ']' {
                            None
                        } else {
                            match parse_sem_elems(s, nxt(s, i, j3 + 1)) {
                                Some((ps, j4)) => Some((seq![p] + ps, j4)),
                                None => None,
                            }
                        }
                    } else {
                        None
                    }
                },
            },
        }
    }
}

/// A whole semantics document: one object with the single key
/// `positional_semantics` holding an array of policy names.
pub open spec fn parse_semantics(s: Seq<char>) -> Option<
    Seq<crate::semantics::LightrayIValueSemantic>,
> {
    let i0 = skip_ws(s, 0);
    if i0 >= s.len() || s[i0 as int] != '{' {
        None
    } else {
        let i1 = skip_ws(s, i0 + 1);
        match parse_string(s, i1) {
            None => None,
            Some((key, i2)) => {
                if key != "positional_semantics"@ {
                    None
                } else {
                    let i3 = skip_ws(s, i2);
                    if i3 >= s.len() || s[i3 as int] != ':' {
                        None
                    } else {
                        let i4 = skip_ws(s, i3 + 1);
                        if i4 >= s.len() || s[i4 as int] != '[' {
                            None
                        } else {
                            match parse_sem_elems(s, i4 + 1) {
                                None => None,
                                Some((ps, i5)) => {
                                    let i6 = skip_ws(s, i5);
                                    if i6 >= s.len() || s[i6 as int] != '}' {
                                        None
                                    } else if skip_ws(s, i6 + 1) == s.len() {
                                        Some(ps)
                                    } else {
                                        None
                                    }
                                },
                            }
                        }
                    }
                }
            },
        }
    }
}

/// Serialise a semantics list to its canonical JSON text.
#[verifier::loop_isolation(false)]
pub fn semantics_to_json(semantics: &crate::semantics::LightrayModelSemantics) -> (r: String)
    ensures
        r@ == print_semantics(semantics.positional_semantics@),
{
    let ghost ps = semantics.positional_semantics@;
    let mut out: Vec<char> = Vec::new();
    emit_lit(&mut out, "{\"");
    emit_lit(&mut out, "positional_semantics");
    emit_lit(&mut out, "\":[");
    proof {
        assert(ps.skip(0) =~= ps);
    }
    let n = semantics.positional_semantics.len();
    let ghost mid = out@;
    let mut k: usize = 0;
    while k < n
        invariant
            k <= n == ps.len(),
            mid + print_sem_elems(ps) == out@ + print_sem_elems(ps.skip(k as int)),
        decreases n - k,
    {
        proof {
            assert(ps.skip(k as int)[0] == ps[k as int]);
            assert(ps.skip(k as int).drop_first() =~= ps.skip(k + 1));
        }
        emit_lit(&mut out, "\"");
        match semantics.positional_semantics[k] {
            crate::semantics::LightrayIValueSemantic::ExactValueMatch => {
                emit_lit(&mut out, "ExactValueMatch");
            },
            crate::semantics::LightrayIValueSemantic::SizeMatch => {
                emit_lit(&mut out, "SizeMatch");
            },
            crate::semantics::LightrayIValueSemantic::TypeMatch => {
                emit_lit(&mut out, "TypeMatch");
            },
        }
        if k + 1 < n {
            emit_lit(&mut out, "\",");
            proof {
                reveal_strlit("\"");
                reveal_strlit("\",");
                assert("\""@ =~= seq!['"']);
                assert("\","@ =~= seq!['"', ',']);
                assert(mid + print_sem_elems(ps) =~= out@ + print_sem_elems(ps.skip(k + 1)));
            }
        } else {
            emit_lit(&mut out, "\"");
            proof {
                reveal_strlit("\"");
                assert("\""@ =~= seq!['"']);
                assert(print_sem_elems(ps.skip(k + 1)) =~= Seq::<char>::empty());
                assert(mid + print_sem_elems(ps) =~= out@ + print_sem_elems(ps.skip(k + 1)));
            }
        }
        k += 1;
    }
    proof {
        assert(print_sem_elems(ps.skip(n as int)) =~= Seq::<char>::empty());
        assert(out@ =~= mid + print_sem_elems(ps));
    }
    emit_lit(&mut out, "]}");
    proof {
        lemma_fragments();
        assert(out@ =~= print_semantics(ps));
    }
    chars_to_string(&out)
}

/// Prepend already-parsed policies to the outcome of an element-list parse.
pub open spec fn sp_prepend(
    p: Seq<crate::semantics::LightrayIValueSemantic>,
    r: Option<(Seq<crate::semantics::LightrayIValueSemantic>, nat)>,
) -> Option<(Seq<crate::semantics::LightrayIValueSemantic>, nat)> {
    match r {
        Some((ps, j)) => Some((p + ps, j)),
        None => None,
    }
}

/// Parse the elements of a policy array.
#[verifier::loop_isolation(false)]
fn p_parse_sem_elems(s: &Vec<char>, i: usize) -> (r: Option<
    (Vec<crate::semantics::LightrayIValueSemantic>, usize),
>)
    requires
        i <= s@.len(),
    ensures
        r is Some <==> parse_sem_elems(s@, i as nat) is Some,
        r matches Some((ps, j)) ==> parse_sem_elems(s@, i as nat) == Some((ps@, j as nat))
            && j <= s@.len(),
{
    let mut acc: Vec<crate::semantics::LightrayIValueSemantic> = Vec::new();
    let mut cur: usize = i;
    loop
        invariant
            i <= cur <= s@.len(),
            sp_prepend(acc@, parse_sem_elems(s@, cur as nat)) == parse_sem_elems(s@, i as nat),
        decreases s@.len() - cur,
    {
        let ghost accv = acc@;
        let j = p_skip_ws(s, cur);
        if j == s.len() {
            return None;
        }
        if s[j] == ']' {
            proof {
                assert(accv + Seq::<crate::semantics::LightrayIValueSemantic>::empty() =~= accv);
            }
            return Some((acc, j + 1));
        }
        let (t, j2) = match p_parse_string(s, j) {
            Some(p) => p,
            None => { return None; },
        };
        let p = if chars_eq_lit(&t, "ExactValueMatch") {
            crate::semantics::LightrayIValueSemantic::ExactValueMatch
        } else if chars_eq_lit(&t, "SizeMatch") {
            crate::semantics::LightrayIValueSemantic::SizeMatch
        } else if chars_eq_lit(&t, "TypeMatch") {
            crate::semantics::LightrayIValueSemantic::TypeMatch
        } else {
            return None;
        };
        let j3 = p_skip_ws(s, j2);
        if j3 == s.len() {
            return None;
        }
        if s[j3] == ']' {
            acc.push(p);
            proof {
                assert(accv + seq![p] =~= acc@);
            }
            return Some((acc, j3 + 1));
        }
        if s[j3] == ',' {
            let j5 = p_skip_ws(s, j3 + 1);
            if j5 < s.len() && s[j5] == ']' {
                return None;
            }
            proof {
                assert(nxt(s@, cur as nat, (j3 + 1) as nat) == (j3 + 1) as nat);
            }
            acc.push(p);
            proof {
                assert(accv.push(p) =~= accv + seq![p]);
                match parse_sem_elems(s@, (j3 + 1) as nat) {
                    Some((ps, j4)) => {
                        assert(accv.push(p) + ps =~= accv + (seq![p] + ps));
                    },
                    None => {},
                }
            }
            cur = j3 + 1;
        } else {
            return None;
        }
    }
}

/// Parse a whole semantics document.
pub fn semantics_from_json(s: &str) -> (r: Option<crate::semantics::LightrayModelSemantics>)
    ensures
        r is Some <==> parse_semantics(s@) is Some,
        r matches Some(sem) ==> parse_semantics(s@) == Some(sem.positional_semantics@),
{
    let cs = str_to_chars(s);
    let i0 = p_skip_ws(&cs, 0);
    if i0 == cs.len() || !(cs[i0] == '{') {
        return None;
    }
    let i1 = p_skip_ws(&cs, i0 + 1);
    let (key, i2) = match p_parse_string(&cs, i1) {
        Some(p) => p,
        None => { return None; },
    };
    if !chars_eq_lit(&key, "positional_semantics") {
        return None;
    }
    let i3 = p_skip_ws(&cs, i2);
    if i3 == cs.len() || !(cs[i3] == ':') {
        return None;
    }
    let i4 = p_skip_ws(&cs, i3 + 1);
    if i4 == cs.len() || !(cs[i4] == '[') {
        return None;
    }
    let (ps, i5) = match p_parse_sem_elems(&cs, i4 + 1) {
        Some(p) => p,
        None => { return None; },
    };
    let i6 = p_skip_ws(&cs, i5);
    if i6 == cs.len() || !(cs[i6] == '}') {
        return None;
    }
    if p_skip_ws(&cs, i6 + 1) != cs.len() {
        return None;
    }
    Some(crate::semantics::LightrayModelSemantics { positional_semantics: ps })
}

// ---------------------------------------------------------------------------
// The model identifier on the wire
// ---------------------------------------------------------------------------

/// Fixed-width lowercase hexadecimal digits of `n`, most significant first.
pub open spec fn hex_fixed(n: nat, width: nat) -> Seq<char>
    decreases width,
{
    if width == 0 {
        Seq::empty()
    } else {
        hex_fixed(n / 16, (width - 1) as nat).push(hex_char(n % 16))
    }
}

/// The hyphenated UUID text of a 128-bit identifier: thirty-two hexadecimal
/// digits in five groups.
pub open spec fn uuid_text(n: nat) -> Seq<char> {
    let h = hex_fixed(n, 32);
    h.subrange(0, 8) + seq!['-'] + h.subrange(8, 12) + seq!['-'] + h.subrange(12, 16)
        + seq!['-'] + h.subrange(16, 20) + seq!['-'] + h.subrange(20, 32)
}

/// Canonical JSON text of a model identifier:
/// `{"model_id":"<uuid>","model_version":<version>}`.
pub open spec fn print_model_id(id: crate::model::LightrayModelId) -> Seq<char> {
    seq!['{', '"'] + "model_id"@ + seq!['"', ':', '"'] + uuid_text(id.model_id as nat)
        + seq!['"', ',', '"'] + "model_version"@ + seq!['"', ':']
        + dec_of(id.model_version as nat) + seq!['}']
}

/// Value of a fixed-width hexadecimal digit string, most significant first;
/// digits may be upper or lower case.
pub open spec fn hex_seq_val(ds: Seq<char>) -> nat
    decreases ds,
{
    if ds.len() == 0 {
        0
    } else {
        (hex_seq_val(ds.drop_last()) * 16 + hex_val(ds.last()).unwrap_or(0)) as nat
    }
}

/// The hexadecimal digits of a hyphenated UUID text, hyphens removed.
pub open spec fn uuid_digits(t: Seq<char>) -> Seq<char> {
    t.subrange(0, 8) + t.subrange(9, 13) + t.subrange(14, 18) + t.subrange(19, 23)
        + t.subrange(24, 36)
}

/// The identifier a hyphenated UUID text stands for, if it is one.
pub open spec fn uuid_val(t: Seq<char>) -> Option<nat> {
    if t.len() != 36 {
        None
    } else if t[8] != '-' || t[13] != '-' || t[18] != '-' || t[23] != '-' {
        None
    } else if exists|k: int|
        0 <= k < uuid_digits(t).len() && hex_val(#[trigger] uuid_digits(t)[k]) is None {
        None
    } else {
        Some(hex_seq_val(uuid_digits(t)))
    }
}

/// A whole model-identifier document: one object with the keys `model_id`,
/// holding a hyphenated UUID string, and `model_version`, holding the
/// version number, in that order.
pub open spec fn parse_model_id(s: Seq<char>) -> Option<crate::model::LightrayModelId> {
    let i0 = skip_ws(s, 0);
    if i0 >= s.len() || s[i0 as int] != '{' {
        None
    } else {
        let i1 = skip_ws(s, i0 + 1);
        match parse_string(s, i1) {
            None => None,
            Some((key, i2)) => {
                if key != "model_id"@ {
                    None
                } else {
                    let i3 = skip_ws(s, i2);
                    if i3 >= s.len() || s[i3 as int] != ':' {
                        None
                    } else {
                        match parse_string(s, skip_ws(s, i3 + 1)) {
                            None => None,
                            Some((token, i4)) => match uuid_val(token) {
                                None => None,
                                Some(n) => {
                                    let i5 = skip_ws(s, i4);
                                    if i5 >= s.len() || s[i5 as int] != ',' {
                                        None
                                    } else {
                                        match parse_string(s, skip_ws(s, i5 + 1)) {
                                            None => None,
                                            Some((key2, i6)) => {
                                                if key2 != "model_version"@ {
                                                    None
                                                } else {
                                                    let i7 = skip_ws(s, i6);
                                                    if i7 >= s.len() || s[i7 as int] != ':' {
                                                        None
                                                    } else {
                                                        match parse_nat(
                                                            s,
                                                            skip_ws(s, i7 + 1),
                                                            0xFFFF,
                                                        ) {
                                                            None => None,
                                                            Some((v, i8)) => {
                                                                let i9 = skip_ws(s, i8);
                                                                if i9 >= s.len() || s[
                                                                    i9 as int
                                                                ] != '}' {
                                                                    None
                                                                } else if skip_ws(s, i9 + 1)
                                                                    == s.len() {
                                                                    Some(
                                                                        crate::model::LightrayModelId {
                                                                            model_id: n as u128,
                                                                            model_version: v as u16,
                                                                        },
                                                                    )
                                                                } else {
                                                                    None
                                                                }
                                                            },
                                                        }
                                                    }
                                                }
                                            },
                                        }
                                    }
                                },
                            },
                        }
                    }
                }
            },
        }
    }
}

/// Append the fixed-width hexadecimal digits of `x`.
fn emit_hex_fixed(out: &mut Vec<char>, x: u128, width: u32)
    ensures
        final(out)@ == old(out)@ + hex_fixed(x as nat, width as nat),
    decreases width,
{
    if width == 0 {
        proof {
            assert(out@ =~= old(out)@ + hex_fixed(x as nat, 0));
        }
    } else {
        emit_hex_fixed(out, x / 16, width - 1);
        out.push(hex_char_x((x % 16) as u32));
        proof {
            assert(out@ =~= old(out)@ + hex_fixed(x as nat, width as nat));
        }
    }
}

/// Append a range of another character vector.
#[verifier::loop_isolation(false)]
fn push_range(out: &mut Vec<char>, v: &Vec<char>, a: usize, b: usize)
    requires
        a <= b <= v@.len(),
    ensures
        final(out)@ == old(out)@ + v@.subrange(a as int, b as int),
{
    let mut k: usize = a;
    proof {
        assert(out@ =~= old(out)@ + v@.subrange(a as int, a as int));
    }
    while k < b
        invariant
            a <= k <= b,
            out@ == old(out)@ + v@.subrange(a as int, k as int),
        decreases b - k,
    {
        out.push(v[k]);
        proof {
            assert(out@ =~= old(out)@ + v@.subrange(a as int, k + 1));
        }
        k += 1;
    }
}

/// A fixed-width hexadecimal rendering has exactly its width.
pub(crate) proof fn lemma_hex_fixed_len(n: nat, width: nat)
    ensures
        hex_fixed(n, width).len() == width,
    decreases width,
{
    if width > 0 {
        lemma_hex_fixed_len(n / 16, (width - 1) as nat);
    }
}

/// Serialise a model identifier to its canonical JSON text.
pub fn model_id_to_json(id: &crate::model::LightrayModelId) -> (r: String)
    ensures
        r@ == print_model_id(*id),
{
    let mut h: Vec<char> = Vec::new();
    emit_hex_fixed(&mut h, id.model_id, 32);
    proof {
        lemma_hex_fixed_len(id.model_id as nat, 32);
        assert(h@ =~= hex_fixed(id.model_id as nat, 32));
    }
    let mut out: Vec<char> = Vec::new();
    emit_lit(&mut out, "{\"");
    emit_lit(&mut out, "model_id");
    emit_lit(&mut out, "\":\"");
    push_range(&mut out, &h, 0, 8);
    emit_lit(&mut out, "-");
    push_range(&mut out, &h, 8, 12);
    emit_lit(&mut out, "-");
    push_range(&mut out, &h, 12, 16);
    emit_lit(&mut out, "-");
    push_range(&mut out, &h, 16, 20);
    emit_lit(&mut out, "-");
    push_range(&mut out, &h, 20, 32);
    emit_lit(&mut out, "\",\"");
    emit_lit(&mut out, "model_version");
    emit_lit(&mut out, "\":");
    emit_u64(&mut out, id.model_version as u64);
    emit_lit(&mut out, "}");
    proof {
        lemma_fragments();
        reveal_strlit("\":\"");
        reveal_strlit("\",\"");
        reveal_strlit("-");
        assert("\":\""@ =~= seq!['"', ':', '"']);
        assert("\",\""@ =~= seq!['"', ',', '"']);
        assert("-"@ =~= seq!['-']);
        assert(out@ =~= print_model_id(*id));
    }
    chars_to_string(&out)
}

/// Sixteen to the power of `k`.
pub open spec fn pow16(k: nat) -> nat
    decreases k,
{
    if k == 0 {
        1
    } else {
        (16 * pow16((k - 1) as nat)) as nat
    }
}

/// A hexadecimal digit string's value stays below sixteen to its length.
proof fn lemma_hex_seq_val_bound(ds: Seq<char>)
    ensures
        hex_seq_val(ds) < pow16(ds.len()),
    decreases ds,
{
    if ds.len() == 0 {
    } else {
        lemma_hex_seq_val_bound(ds.drop_last());
        assert(hex_seq_val(ds.drop_last()) * 16 + 16 <= pow16(ds.len())) by (nonlinear_arith)
            requires
                hex_seq_val(ds.drop_last()) < pow16((ds.len() - 1) as nat),
                pow16(ds.len()) == 16 * pow16((ds.len() - 1) as nat),
        ;
        assert(hex_val(ds.last()).unwrap_or(0) < 16) by {
            match hex_val(ds.last()) {
                Some(_) => {},
                None => {},
            }
        }
    }
}

/// Interpret a hyphenated UUID token.
#[verifier::loop_isolation(false)]
fn uuid_val_x(t: &Vec<char>) -> (r: Option<u128>)
    ensures
        r is Some <==> uuid_val(t@) is Some,
        r matches Some(n) ==> uuid_val(t@) == Some(n as nat),
{
    if t.len() != 36 {
        return None;
    }
    if !(t[8] == '-') || !(t[13] == '-') || !(t[18] == '-') || !(t[23] == '-') {
        return None;
    }
    let mut ds: Vec<char> = Vec::new();
    push_range(&mut ds, t, 0, 8);
    push_range(&mut ds, t, 9, 13);
    push_range(&mut ds, t, 14, 18);
    push_range(&mut ds, t, 19, 23);
    push_range(&mut ds, t, 24, 36);
    proof {
        assert(ds@ =~= uuid_digits(t@));
        assert(ds@.take(0) =~= Seq::<char>::empty());
    }
    let mut acc: u128 = 0;
    let mut k: usize = 0;
    while k < 32
        invariant
            k <= 32 == ds@.len(),
            ds@ == uuid_digits(t@),
            forall|m: int| 0 <= m < k ==> hex_val(#[trigger] ds@[m]) is Some,
            acc as nat == hex_seq_val(ds@.take(k as int)),
            (acc as nat) < pow16(k as nat),
        decreases 32 - k,
    {
        let d = match hex_val_x(ds[k]) {
            Some(d) => d,
            None => {
                proof {
                    assert(hex_val(uuid_digits(t@)[k as int]) is None);
                }
                return None;
            },
        };
        proof {
            assert(ds@.take(k + 1).drop_last() =~= ds@.take(k as int));
            assert(ds@.take(k + 1).last() == ds@[k as int]);
            assert(16 * (acc as nat) + 16 <= 16 * pow16(k as nat)) by (nonlinear_arith)
                requires
                    (acc as nat) < pow16(k as nat),
            ;
            lemma_pow16_fits();
            lemma_pow16_le(k as nat);
        }
        acc = acc * 16 + (d as u128);
        k += 1;
    }
    proof {
        assert(ds@.take(32) =~= ds@);
    }
    Some(acc)
}

/// Sixteen to the thirty-second is exactly two to the one-hundred-and-
/// twenty-eighth.
pub(crate) proof fn lemma_pow16_fits()
    ensures
        pow16(32) == 0x1_0000_0000_0000_0000_0000_0000_0000_0000,
{
    reveal_with_fuel(pow16, 33);
}

/// The powers of sixteen grow with the exponent, up to thirty-two.
proof fn lemma_pow16_le(k: nat)
    requires
        k < 32,
    ensures
        16 * pow16(k) <= pow16(32),
    decreases 32 - k,
{
    if k + 1 == 32 {
    } else {
        lemma_pow16_le(k + 1);
        assert(pow16(k + 1) == 16 * pow16(k));
        assert(16 * pow16(k + 1) <= pow16(32));
        assert(pow16(k) >= 1) by {
            lemma_pow16_pos(k);
        }
        assert(16 * pow16(k) <= 16 * pow16(k + 1)) by (nonlinear_arith)
            requires
                pow16(k + 1) == 16 * pow16(k),
                pow16(k) >= 1,
        ;
    }
}

/// The powers of sixteen are positive.
proof fn lemma_pow16_pos(k: nat)
    ensures
        pow16(k) >= 1,
    decreases k,
{
    if k > 0 {
        lemma_pow16_pos((k - 1) as nat);
    }
}

/// Parse a whole model-identifier document.
pub fn model_id_from_json(s: &str) -> (r: Option<crate::model::LightrayModelId>)
    ensures
        r == parse_model_id(s@),
{
    let cs = str_to_chars(s);
    let i0 = p_skip_ws(&cs, 0);
    if i0 == cs.len() || !(cs[i0] == '{') {
        return None;
    }
    let i1 = p_skip_ws(&cs, i0 + 1);
    let (key, i2) = match p_parse_string(&cs, i1) {
        Some(p) => p,
        None => { return None; },
    };
    if !chars_eq_lit(&key, "model_id") {
        return None;
    }
    let i3 = p_skip_ws(&cs, i2);
    if i3 == cs.len() || !(cs[i3] == ':') {
        return None;
    }
    let i3b = p_skip_ws(&cs, i3 + 1);
    let (token, i4) = match p_parse_string(&cs, i3b) {
        Some(p) => p,
        None => { return None; },
    };
    let n = match uuid_val_x(&token) {
        Some(n) => n,
        None => { return None; },
    };
    let i5 = p_skip_ws(&cs, i4);
    if i5 == cs.len() || !(cs[i5] == ',') {
        return None;
    }
    let i5b = p_skip_ws(&cs, i5 + 1);
    let (key2, i6) = match p_parse_string(&cs, i5b) {
        Some(p) => p,
        None => { return None; },
    };
    if !chars_eq_lit(&key2, "model_version") {
        return None;
    }
    let i7 = p_skip_ws(&cs, i6);
    if i7 == cs.len() || !(cs[i7] == ':') {
        return None;
    }
    let i7b = p_skip_ws(&cs, i7 + 1);
    let (v, i8) = match p_parse_nat(&cs, i7b, 0xFFFF) {
        Some(p) => p,
        None => { return None; },
    };
    let i9 = p_skip_ws(&cs, i8);
    if i9 == cs.len() || !(cs[i9] == '}') {
        return None;
    }
    if p_skip_ws(&cs, i9 + 1) != cs.len() {
        return None;
    }
    Some(crate::model::LightrayModelId { model_id: n, model_version: v as u16 })
}

/// Serialise an input to its canonical JSON text.
pub fn to_json(input: &TorchScriptInput) -> (r: String)
    ensures
        r@ == print_input(input.deep_view()),
{
    let mut out: Vec<char> = Vec::new();
    emit_lit(&mut out, "{\"");
    emit_lit(&mut out, "positional_arguments");
    emit_lit(&mut out, "\":[");
    emit_elems(&mut out, &input.positional_arguments);
    emit_lit(&mut out, "]}");
    proof {
        lemma_fragments();
        assert(out@ =~= print_input(input.deep_view()));
    }
    chars_to_string(&out)
}

} // verus!
