//! The JSON codec's round-trip law: parsing the canonical text of any input
//! yields that input back, for every value tree, bit-for-bit.

use vstd::prelude::*;

use crate::json::{
    dec_of, digit_run_end, esc, hex_char, hex_val, is_ctrl, is_digit, is_ws, lit_at, nxt,
    at_least, digit_char, digit_val, obj, parse_elems, parse_i64, parse_input, parse_nat, parse_str_body, parse_string,
    parse_value, print_elems, print_input, print_int, print_str_body, print_string, print_value,
    skip_ws, val_of_digits,
};
use crate::value::IValueView;

verus! {

/// A character that stands for itself inside a JSON string.
pub open spec fn plain_char(c: char) -> bool {
    c != '"' && c != '\\' && !is_ctrl(c)
}

/// Text whose characters all stand for themselves.
pub open spec fn plain(t: Seq<char>) -> bool {
    forall|k: int| 0 <= k < t.len() ==> plain_char(#[trigger] t[k])
}

/// Plain text escapes to itself.
proof fn lemma_print_plain(t: Seq<char>)
    requires
        plain(t),
    ensures
        print_str_body(t) == t,
    decreases t,
{
    if t.len() > 0 {
        lemma_print_plain(t.drop_first());
        assert(esc(t[0]) == seq![t[0]]);
        assert(seq![t[0]] + t.drop_first() =~= t);
    }
}

/// Splitting a literal occurrence around a concatenation.
proof fn lemma_lit_split(s: Seq<char>, i: nat, a: Seq<char>, b: Seq<char>)
    requires
        lit_at(s, i, a + b),
    ensures
        lit_at(s, i, a),
        lit_at(s, (i + a.len()) as nat, b),
{
    let ab = a + b;
    assert(s.subrange(i as int, i + ab.len() as int) == ab);
    assert forall|k: int| 0 <= k < a.len() implies s[i + k] == a[k] by {
        assert(s.subrange(i as int, i + ab.len() as int)[k] == ab[k]);
    }
    assert forall|k: int| 0 <= k < b.len() implies s[i + a.len() + k] == b[k] by {
        assert(s.subrange(i as int, i + ab.len() as int)[a.len() + k] == ab[a.len() + k]);
    }
    assert(s.subrange(i as int, i + a.len() as int) =~= a);
    assert(s.subrange(i + a.len() as int, i + a.len() + b.len() as int) =~= b);
}

/// A literal occurrence pins each character.
proof fn lemma_lit_char(s: Seq<char>, i: nat, a: Seq<char>, k: int)
    requires
        lit_at(s, i, a),
        0 <= k < a.len(),
    ensures
        s[i + k] == a[k],
{
    assert(s.subrange(i as int, i + a.len() as int)[k] == a[k]);
}

/// Skipping blanks stands still on a non-blank character or at the end.
proof fn lemma_skip_here(s: Seq<char>, i: nat)
    requires
        i == s.len() || (i < s.len() && !is_ws(s[i as int])),
    ensures
        skip_ws(s, i) == i,
{
}

/// The digits of a number evaluate back to the number.
proof fn lemma_dec_of(n: nat)
    ensures
        dec_of(n).len() >= 1,
        forall|k: int| 0 <= k < dec_of(n).len() ==> is_digit(#[trigger] dec_of(n)[k]),
        val_of_digits(dec_of(n)) == n,
    decreases n,
{
    lemma_char_classes();
    if n < 10 {
        assert(is_digit(digit_char(n)));
        assert(digit_val(digit_char(n)) == n);
        assert(dec_of(n)[0] == digit_char(n));
        assert(seq![digit_char(n)].drop_last() =~= Seq::<char>::empty());
        assert(val_of_digits(Seq::<char>::empty()) == 0);
        assert(seq![digit_char(n)].last() == digit_char(n));
        assert(val_of_digits(seq![digit_char(n)])
            == val_of_digits(seq![digit_char(n)].drop_last()) * 10
            + digit_val(seq![digit_char(n)].last()));
        assert(val_of_digits(dec_of(n)) == n);
        assert forall|k: int| 0 <= k < dec_of(n).len() implies is_digit(
            #[trigger] dec_of(n)[k],
        ) by {
            assert(dec_of(n)[k] == digit_char(n));
        }
    } else {
        lemma_dec_of(n / 10);
        assert(is_digit(digit_char(n % 10)));
        let ds = dec_of(n / 10).push(digit_char(n % 10));
        assert(ds.drop_last() =~= dec_of(n / 10));
        assert(ds.last() == digit_char(n % 10));
        assert(digit_val(digit_char((n % 10) as nat)) == n % 10);
        assert(ds.len() > 0);
        assert(val_of_digits(ds) == val_of_digits(ds.drop_last()) * 10 + digit_val(ds.last()));
        vstd::arithmetic::div_mod::lemma_fundamental_div_mod(n as int, 10int);
        assert(val_of_digits(ds) == (n / 10) * 10 + n % 10);
        assert(val_of_digits(dec_of(n)) == n);
        assert forall|k: int| 0 <= k < dec_of(n).len() implies is_digit(
            #[trigger] dec_of(n)[k],
        ) by {
            if k == dec_of(n).len() - 1 {
                assert(dec_of(n)[k] == digit_char(n % 10));
            } else {
                assert(dec_of(n)[k] == dec_of(n / 10)[k]);
            }
        }
    }
}

/// A digit run bounded on both sides is found exactly.
proof fn lemma_digit_run_exact(s: Seq<char>, i: nat, e: nat)
    requires
        i <= e <= s.len(),
        forall|k: int| i <= k < e ==> is_digit(#[trigger] s[k]),
        e == s.len() || !is_digit(s[e as int]),
    ensures
        digit_run_end(s, i) == e,
    decreases e - i,
{
    if i < e {
        lemma_digit_run_exact(s, i + 1, e);
    }
}

/// The decimal digits of `n`, written at `i` and followed by a non-digit,
/// parse back to `n`.
proof fn lemma_parse_nat_at(s: Seq<char>, i: nat, n: nat, bound: nat)
    requires
        lit_at(s, i, dec_of(n)),
        n <= bound,
        i + dec_of(n).len() == s.len() || !is_digit(s[(i + dec_of(n).len()) as int]),
    ensures
        parse_nat(s, i, bound) == Some((n, (i + dec_of(n).len()) as nat)),
{
    lemma_dec_of(n);
    let e = (i + dec_of(n).len()) as nat;
    assert forall|k: int| i <= k < e implies is_digit(#[trigger] s[k]) by {
        lemma_lit_char(s, i, dec_of(n), k - i);
    }
    lemma_digit_run_exact(s, i, e);
    assert(s.subrange(i as int, e as int) == dec_of(n));
}

/// The decimal text of a signed integer parses back to it.
proof fn lemma_parse_i64_at(s: Seq<char>, i: nat, x: i64)
    requires
        lit_at(s, i, print_int(x)),
        i + print_int(x).len() == s.len() || !is_digit(s[(i + print_int(x).len()) as int]),
    ensures
        parse_i64(s, i) == Some((x, (i + print_int(x).len()) as nat)),
{
    if x < 0 {
        let m = (-(x as int)) as nat;
        lemma_lit_split(s, i, seq!['-'], dec_of(m));
        lemma_lit_char(s, i, print_int(x), 0);
        lemma_dec_of(m);
        lemma_parse_nat_at(s, i + 1, m, 0x8000_0000_0000_0000);
    } else {
        lemma_dec_of(x as nat);
        lemma_lit_char(s, i, print_int(x), 0);
        assert(s[i as int] == dec_of(x as nat)[0]);
        assert(is_digit(s[i as int]));
        assert(s[i as int] != '-');
        lemma_parse_nat_at(s, i, x as nat, 0x7FFF_FFFF_FFFF_FFFF);
    }
}

/// Hexadecimal digit characters evaluate back to their value.
proof fn lemma_hex_char_val(m: nat)
    requires
        m < 16,
    ensures
        hex_val(hex_char(m)) == Some(m),
{
}

/// A control character's code survives the trip through `u8` and back.
proof fn lemma_ctrl_char_cast(c: char)
    requires
        is_ctrl(c),
    ensures
        ((c as u32) as u8) as char == c,
{
}

/// The escaped body of `t`, written at `i` and followed by a quote, parses
/// back to `t`.
proof fn lemma_parse_str_body_at(t: Seq<char>, s: Seq<char>, i: nat)
    requires
        lit_at(s, i, print_str_body(t) + seq!['"']),
    ensures
        parse_str_body(s, i) == Some((t, (i + print_str_body(t).len() + 1) as nat)),
    decreases t,
{
    if t.len() == 0 {
        lemma_lit_char(s, i, print_str_body(t) + seq!['"'], 0);
    } else {
        let c = t[0];
        let rest = t.drop_first();
        assert(print_str_body(t) == esc(c) + print_str_body(rest));
        assert(print_str_body(t) + seq!['"'] =~= esc(c) + (print_str_body(rest) + seq!['"']));
        lemma_lit_split(s, i, esc(c), print_str_body(rest) + seq!['"']);
        let i2 = (i + esc(c).len()) as nat;
        lemma_parse_str_body_at(rest, s, i2);
        if c == '"' {
            lemma_lit_char(s, i, esc(c), 0);
            lemma_lit_char(s, i, esc(c), 1);
            assert(seq![c] + rest =~= t);
        } else if c == '\\' {
            lemma_lit_char(s, i, esc(c), 0);
            lemma_lit_char(s, i, esc(c), 1);
            assert(seq![c] + rest =~= t);
        } else if is_ctrl(c) {
            lemma_lit_char(s, i, esc(c), 0);
            lemma_lit_char(s, i, esc(c), 1);
            lemma_lit_char(s, i, esc(c), 2);
            lemma_lit_char(s, i, esc(c), 3);
            lemma_lit_char(s, i, esc(c), 4);
            lemma_lit_char(s, i, esc(c), 5);
            assert(((c as u32) / 16) < 16 && ((c as u32) % 16) < 16) by (nonlinear_arith)
                requires
                    (c as u32) < 0x20,
            ;
            lemma_hex_char_val(((c as u32) / 16) as nat);
            lemma_hex_char_val(((c as u32) % 16) as nat);
            let code = hex_val(s[i as int + 4]).unwrap() * 16 + hex_val(s[i as int + 5]).unwrap();
            assert(code == c as u32) by {
                vstd::arithmetic::div_mod::lemma_fundamental_div_mod(c as u32 as int, 16int);
            }
            assert(code as u8 == (c as u32) as u8);
            lemma_ctrl_char_cast(c);
            assert(seq![c] + rest =~= t);
        } else {
            lemma_lit_char(s, i, esc(c), 0);
            assert(seq![c] + rest =~= t);
        }
    }
}

/// A quoted, escaped string written at `i` parses back to its text.
proof fn lemma_parse_string_at(t: Seq<char>, s: Seq<char>, i: nat)
    requires
        lit_at(s, i, print_string(t)),
    ensures
        parse_string(s, i) == Some((t, (i + print_string(t).len()) as nat)),
{
    assert(print_string(t) =~= seq!['"'] + (print_str_body(t) + seq!['"']));
    lemma_lit_split(s, i, seq!['"'], print_str_body(t) + seq!['"']);
    lemma_lit_char(s, i, print_string(t), 0);
    lemma_parse_str_body_at(t, s, i + 1);
}

/// The tag literals all escape to themselves.
proof fn lemma_tags_plain()
    ensures
        plain("None"@) && print_str_body("None"@) == "None"@,
        plain("Bool"@) && print_str_body("Bool"@) == "Bool"@,
        plain("Int"@) && print_str_body("Int"@) == "Int"@,
        plain("Double"@) && print_str_body("Double"@) == "Double"@,
        plain("Str"@) && print_str_body("Str"@) == "Str"@,
        plain("Tuple"@) && print_str_body("Tuple"@) == "Tuple"@,
        plain("List"@) && print_str_body("List"@) == "List"@,
        plain("Optional"@) && print_str_body("Optional"@) == "Optional"@,
        plain("TensorNPYBase64"@) && print_str_body("TensorNPYBase64"@) == "TensorNPYBase64"@,
        plain("positional_arguments"@)
            && print_str_body("positional_arguments"@) == "positional_arguments"@,
{
    reveal_strlit("None");
    reveal_strlit("Bool");
    reveal_strlit("Int");
    reveal_strlit("Double");
    reveal_strlit("Str");
    reveal_strlit("Tuple");
    reveal_strlit("List");
    reveal_strlit("Optional");
    reveal_strlit("TensorNPYBase64");
    reveal_strlit("positional_arguments");
    lemma_print_plain("None"@);
    lemma_print_plain("Bool"@);
    lemma_print_plain("Int"@);
    lemma_print_plain("Double"@);
    lemma_print_plain("Str"@);
    lemma_print_plain("Tuple"@);
    lemma_print_plain("List"@);
    lemma_print_plain("Optional"@);
    lemma_print_plain("TensorNPYBase64"@);
    lemma_print_plain("positional_arguments"@);
}

/// A one-key object built by the printer parses back: the opening walk up to
/// the payload. Returns the payload position.
proof fn lemma_obj_shape(s: Seq<char>, i: nat, tag: Seq<char>, payload: Seq<char>)
    requires
        lit_at(s, i, obj(tag, payload)),
        plain(tag),
        print_str_body(tag) == tag,
        payload.len() > 0,
        !is_ws(payload[0]),
        tag.len() > 0,
    ensures
        i + obj(tag, payload).len() <= s.len(),
        s[i as int] == '{',
        skip_ws(s, i + 1) == i + 1,
        parse_string(s, i + 1) == Some((tag, (i + 2 + tag.len() + 1) as nat)),
        skip_ws(s, (i + 2 + tag.len() + 1) as nat) == i + 2 + tag.len() + 1,
        s[(i + 2 + tag.len() + 1) as int] == ':',
        skip_ws(s, (i + 2 + tag.len() + 2) as nat) == i + 2 + tag.len() + 2,
        lit_at(s, (i + 2 + tag.len() + 2) as nat, payload),
        s[(i + 2 + tag.len() + 2 + payload.len()) as int] == '}',
        skip_ws(s, (i + 2 + tag.len() + 2 + payload.len()) as nat)
            == i + 2 + tag.len() + 2 + payload.len(),
        obj(tag, payload).len() == 2 + tag.len() + 2 + payload.len() + 1,
{
    let o = obj(tag, payload);
    assert(o =~= seq!['{'] + (seq!['"'] + tag + seq!['"', ':']) + payload + seq!['}']);
    lemma_lit_char(s, i, o, 0);
    lemma_lit_char(s, i, o, 1);
    assert(s[i as int + 1] == '"');
    lemma_skip_here(s, i + 1);
    // the quoted tag
    assert(o =~= seq!['{'] + (print_string(tag) + (seq![':'] + (payload + seq!['}']))));
    lemma_lit_split(s, i, seq!['{'], print_string(tag) + (seq![':'] + (payload + seq!['}'])));
    lemma_lit_split(s, i + 1, print_string(tag), seq![':'] + (payload + seq!['}']));
    lemma_parse_string_at(tag, s, i + 1);
    let i3 = (i + 2 + tag.len() + 1) as nat;
    assert(print_string(tag).len() == tag.len() + 2);
    lemma_lit_split(s, i3, seq![':'], payload + seq!['}']);
    lemma_lit_char(s, i3, seq![':'], 0);
    lemma_skip_here(s, i3);
    lemma_lit_split(s, i3 + 1, payload, seq!['}']);
    lemma_lit_char(s, i3 + 1, payload, 0);
    lemma_skip_here(s, i3 + 1);
    lemma_lit_char(s, (i3 + 1 + payload.len()) as nat, seq!['}'], 0);
    lemma_skip_here(s, (i3 + 1 + payload.len()) as nat);
}

/// Facts about the characters the grammar dispatches on.
proof fn lemma_char_classes()
    ensures
        !is_ws('{') && !is_ws('"') && !is_ws(':') && !is_ws('}') && !is_ws('[') && !is_ws(']')
            && !is_ws(',') && !is_ws('n') && !is_ws('t') && !is_ws('f') && !is_ws('-'),
        !is_digit('{') && !is_digit('}') && !is_digit('[') && !is_digit(']') && !is_digit(',')
            && !is_digit('"') && !is_digit('n') && !is_digit('t') && !is_digit('f'),
        forall|n: nat| n < 10 ==> !is_ws(#[trigger] digit_char(n)) && is_digit(digit_char(n))
            && digit_val(digit_char(n)) == n,
{
    assert forall|n: nat| n < 10 implies !is_ws(#[trigger] digit_char(n))
        && is_digit(digit_char(n)) && digit_val(digit_char(n)) == n by {
        if n == 0 {} else if n == 1 {} else if n == 2 {} else if n == 3 {} else if n == 4 {}
        else if n == 5 {} else if n == 6 {} else if n == 7 {} else if n == 8 {} else {}
    }
}

/// The tag literals are pairwise distinct.
proof fn lemma_tags_distinct()
    ensures
        "Bool"@ != "None"@,
        "Int"@ != "None"@ && "Int"@ != "Bool"@,
        "Double"@ != "None"@ && "Double"@ != "Bool"@ && "Double"@ != "Int"@,
        "Str"@ != "None"@ && "Str"@ != "Bool"@ && "Str"@ != "Int"@ && "Str"@ != "Double"@,
        "Tuple"@ != "None"@ && "Tuple"@ != "Bool"@ && "Tuple"@ != "Int"@ && "Tuple"@ != "Double"@
            && "Tuple"@ != "Str"@,
        "List"@ != "None"@ && "List"@ != "Bool"@ && "List"@ != "Int"@ && "List"@ != "Double"@
            && "List"@ != "Str"@ && "List"@ != "Tuple"@,
        "Optional"@ != "None"@ && "Optional"@ != "Bool"@ && "Optional"@ != "Int"@
            && "Optional"@ != "Double"@ && "Optional"@ != "Str"@ && "Optional"@ != "Tuple"@
            && "Optional"@ != "List"@,
        "TensorNPYBase64"@ != "None"@ && "TensorNPYBase64"@ != "Bool"@
            && "TensorNPYBase64"@ != "Int"@ && "TensorNPYBase64"@ != "Double"@
            && "TensorNPYBase64"@ != "Str"@ && "TensorNPYBase64"@ != "Tuple"@
            && "TensorNPYBase64"@ != "List"@ && "TensorNPYBase64"@ != "Optional"@,
{
    reveal_strlit("None");
    reveal_strlit("Bool");
    reveal_strlit("Int");
    reveal_strlit("Double");
    reveal_strlit("Str");
    reveal_strlit("Tuple");
    reveal_strlit("List");
    reveal_strlit("Optional");
    reveal_strlit("TensorNPYBase64");
    assert("None"@.len() == 4 && "Bool"@.len() == 4 && "Int"@.len() == 3 && "Double"@.len() == 6
        && "Str"@.len() == 3 && "Tuple"@.len() == 5 && "List"@.len() == 4
        && "Optional"@.len() == 8 && "TensorNPYBase64"@.len() == 15);
    assert("Bool"@[0] != "None"@[0]);
    assert("Str"@[0] != "Int"@[0]);
    assert("List"@[0] != "None"@[0]);
    assert("List"@[0] != "Bool"@[0]);
}

/// The canonical text of a value, wherever it stands, parses back to the
/// value, consuming exactly its own characters.
proof fn lemma_parse_print_value(v: IValueView, s: Seq<char>, i: nat)
    requires
        lit_at(s, i, print_value(v)),
    ensures
        parse_value(s, i) == Some((v, (i + print_value(v).len()) as nat)),
    decreases v,
{
    lemma_tags_plain();
    lemma_tags_distinct();
    lemma_char_classes();
    reveal_strlit("null");
    reveal_strlit("true");
    reveal_strlit("false");
    reveal_strlit("None");
    reveal_strlit("Bool");
    reveal_strlit("Int");
    reveal_strlit("Double");
    reveal_strlit("Str");
    reveal_strlit("Tuple");
    reveal_strlit("List");
    reveal_strlit("Optional");
    reveal_strlit("TensorNPYBase64");
    match v {
        IValueView::Null => {
            lemma_obj_shape(s, i, "None"@, "null"@);
            let i4 = (i + 2 + "None"@.len() + 2) as nat;
            assert(lit_at(s, i4, "null"@));
        },
        IValueView::Bool(b) => {
            let payload = if b { "true"@ } else { "false"@ };
            lemma_obj_shape(s, i, "Bool"@, payload);
            let i4 = (i + 2 + "Bool"@.len() + 2) as nat;
            if b {
                assert(lit_at(s, i4, "true"@));
                assert(!lit_at(s, i4, "null"@)) by {
                    if lit_at(s, i4, "null"@) {
                        lemma_lit_char(s, i4, "null"@, 0);
                        lemma_lit_char(s, i4, "true"@, 0);
                    }
                }
            } else {
                assert(!lit_at(s, i4, "true"@)) by {
                    if lit_at(s, i4, "true"@) {
                        lemma_lit_char(s, i4, "true"@, 0);
                        lemma_lit_char(s, i4, "false"@, 0);
                    }
                }
            }
        },
        IValueView::Int(x) => {
            if x < 0 {
                lemma_dec_of((-(x as int)) as nat);
            } else {
                lemma_dec_of(x as nat);
            }
            lemma_obj_shape(s, i, "Int"@, print_int(x));
            let i4 = (i + 2 + "Int"@.len() + 2) as nat;
            lemma_parse_i64_at(s, i4, x);
        },
        IValueView::Double(d) => {
            lemma_dec_of(d as nat);
            lemma_obj_shape(s, i, "Double"@, dec_of(d as nat));
            let i4 = (i + 2 + "Double"@.len() + 2) as nat;
            lemma_parse_nat_at(s, i4, d as nat, 0xFFFF_FFFF_FFFF_FFFF);
        },
        IValueView::Str(t) => {
            lemma_obj_shape(s, i, "Str"@, print_string(t));
            let i4 = (i + 2 + "Str"@.len() + 2) as nat;
            lemma_parse_string_at(t, s, i4);
        },
        IValueView::TensorNPYBase64(t) => {
            lemma_obj_shape(s, i, "TensorNPYBase64"@, print_string(t));
            let i4 = (i + 2 + "TensorNPYBase64"@.len() + 2) as nat;
            lemma_parse_string_at(t, s, i4);
        },
        IValueView::Tuple(vs) => {
            let payload = seq!['['] + print_elems(vs) + seq![']'];
            lemma_obj_shape(s, i, "Tuple"@, payload);
            let i4 = (i + 2 + "Tuple"@.len() + 2) as nat;
            lemma_lit_char(s, i4, payload, 0);
            assert(payload =~= seq!['['] + (print_elems(vs) + seq![']']));
            lemma_lit_split(s, i4, seq!['['], print_elems(vs) + seq![']']);
            assert(nxt(s, i, i4 + 1) == i4 + 1);
            lemma_parse_print_elems(vs, s, i4 + 1);
        },
        IValueView::List(vs) => {
            let payload = seq!['['] + print_elems(vs) + seq![']'];
            lemma_obj_shape(s, i, "List"@, payload);
            let i4 = (i + 2 + "List"@.len() + 2) as nat;
            lemma_lit_char(s, i4, payload, 0);
            assert(payload =~= seq!['['] + (print_elems(vs) + seq![']']));
            lemma_lit_split(s, i4, seq!['['], print_elems(vs) + seq![']']);
            assert(nxt(s, i, i4 + 1) == i4 + 1);
            lemma_parse_print_elems(vs, s, i4 + 1);
        },
        IValueView::Optional(o) => {
            match o {
                Option::None => {
                    lemma_obj_shape(s, i, "Optional"@, "null"@);
                    let i4 = (i + 2 + "Optional"@.len() + 2) as nat;
                    assert(lit_at(s, i4, "null"@));
                },
                Option::Some(b) => {
                    lemma_value_starts_brace(*b);
                    lemma_obj_shape(s, i, "Optional"@, print_value(*b));
                    let i4 = (i + 2 + "Optional"@.len() + 2) as nat;
                    assert(!lit_at(s, i4, "null"@)) by {
                        if lit_at(s, i4, "null"@) {
                            lemma_lit_char(s, i4, "null"@, 0);
                            lemma_lit_char(s, i4, print_value(*b), 0);
                            lemma_value_starts_brace(*b);
                        }
                    }
                    assert(nxt(s, i, i4) == i4);
                    lemma_parse_print_value(*b, s, i4);
                },
            }
        },
    }
}

/// Every printed value starts with an opening brace and is non-empty.
proof fn lemma_value_starts_brace(v: IValueView)
    ensures
        print_value(v).len() > 0,
        print_value(v)[0] == '{',
{
}

/// The printed elements of `vs`, written at `i` and closed by a bracket,
/// parse back to `vs`.
proof fn lemma_parse_print_elems(vs: Seq<IValueView>, s: Seq<char>, i: nat)
    requires
        lit_at(s, i, print_elems(vs) + seq![']']),
    ensures
        parse_elems(s, i) == Some((vs, (i + print_elems(vs).len() + 1) as nat)),
    decreases vs,
{
    lemma_char_classes();
    if vs.len() == 0 {
        lemma_lit_char(s, i, print_elems(vs) + seq![']'], 0);
        lemma_skip_here(s, i);
        assert(vs =~= Seq::<IValueView>::empty());
    } else {
        let p0 = print_value(vs[0]);
        lemma_value_starts_brace(vs[0]);
        if vs.len() == 1 {
            assert(print_elems(vs) + seq![']'] =~= p0 + seq![']']);
            lemma_lit_split(s, i, p0, seq![']']);
            lemma_lit_char(s, i, p0, 0);
            lemma_skip_here(s, i);
            assert(at_least(i, i) == i);
            lemma_parse_print_value(vs[0], s, i);
            let j2 = (i + p0.len()) as nat;
            lemma_lit_char(s, j2, seq![']'], 0);
            lemma_skip_here(s, j2);
            assert(seq![vs[0]] =~= vs);
        } else {
            let rest = vs.drop_first();
            assert(print_elems(vs) == p0 + seq![','] + print_elems(rest));
            assert(print_elems(vs) + seq![']']
                =~= p0 + (seq![','] + (print_elems(rest) + seq![']'])));
            lemma_lit_split(s, i, p0, seq![','] + (print_elems(rest) + seq![']']));
            lemma_lit_char(s, i, p0, 0);
            lemma_skip_here(s, i);
            assert(at_least(i, i) == i);
            lemma_parse_print_value(vs[0], s, i);
            let j2 = (i + p0.len()) as nat;
            lemma_lit_split(s, j2, seq![','], print_elems(rest) + seq![']']);
            lemma_lit_char(s, j2, seq![','], 0);
            lemma_skip_here(s, j2);
            assert(nxt(s, i, j2 + 1) == j2 + 1);
            lemma_parse_print_elems(rest, s, j2 + 1);
            assert(seq![vs[0]] + rest =~= vs);
        }
    }
}

/// The policy names all escape to themselves, are pairwise distinct, and
/// read back as the policies they stand for.
proof fn lemma_sem_tags()
    ensures
        plain("ExactValueMatch"@) && print_str_body("ExactValueMatch"@) == "ExactValueMatch"@,
        plain("SizeMatch"@) && print_str_body("SizeMatch"@) == "SizeMatch"@,
        plain("TypeMatch"@) && print_str_body("TypeMatch"@) == "TypeMatch"@,
        plain("positional_semantics"@)
            && print_str_body("positional_semantics"@) == "positional_semantics"@,
        forall|p: crate::semantics::LightrayIValueSemantic|
            crate::json::sem_of_text(#[trigger] crate::json::print_semantic(p)) == Some(p),
{
    reveal_strlit("ExactValueMatch");
    reveal_strlit("SizeMatch");
    reveal_strlit("TypeMatch");
    reveal_strlit("positional_semantics");
    lemma_print_plain("ExactValueMatch"@);
    lemma_print_plain("SizeMatch"@);
    lemma_print_plain("TypeMatch"@);
    lemma_print_plain("positional_semantics"@);
    assert("SizeMatch"@.len() != "ExactValueMatch"@.len());
    assert("TypeMatch"@.len() != "ExactValueMatch"@.len());
    assert("TypeMatch"@[0] != "SizeMatch"@[0]);
}

/// The printed elements of a policy list, written at `i` and closed by a
/// bracket, parse back to the list.
proof fn lemma_parse_print_sem_elems(
    ps: Seq<crate::semantics::LightrayIValueSemantic>,
    s: Seq<char>,
    i: nat,
)
    requires
        lit_at(s, i, crate::json::print_sem_elems(ps) + seq![']']),
    ensures
        crate::json::parse_sem_elems(s, i) == Some(
            (ps, (i + crate::json::print_sem_elems(ps).len() + 1) as nat),
        ),
    decreases ps,
{
    lemma_sem_tags();
    lemma_char_classes();
    let pe = crate::json::print_sem_elems(ps);
    if ps.len() == 0 {
        lemma_lit_char(s, i, pe + seq![']'], 0);
        lemma_skip_here(s, i);
        assert(ps =~= Seq::<crate::semantics::LightrayIValueSemantic>::empty());
    } else {
        let name = crate::json::print_semantic(ps[0]);
        if ps.len() == 1 {
            assert(pe + seq![']'] =~= print_string(name) + seq![']']);
            lemma_lit_split(s, i, print_string(name), seq![']']);
            lemma_lit_char(s, i, print_string(name), 0);
            lemma_skip_here(s, i);
            lemma_parse_string_at(name, s, i);
            let j2 = (i + print_string(name).len()) as nat;
            lemma_lit_char(s, j2, seq![']'], 0);
            lemma_skip_here(s, j2);
            assert(seq![ps[0]] =~= ps);
        } else {
            let rest = ps.drop_first();
            assert(pe == seq!['"'] + name + seq!['"', ','] + crate::json::print_sem_elems(rest));
            assert(pe + seq![']'] =~= print_string(name) + (seq![','] + (
            crate::json::print_sem_elems(rest) + seq![']'])));
            lemma_lit_split(s, i, print_string(name), seq![','] + (
            crate::json::print_sem_elems(rest) + seq![']']));
            lemma_lit_char(s, i, print_string(name), 0);
            lemma_skip_here(s, i);
            lemma_parse_string_at(name, s, i);
            let j2 = (i + print_string(name).len()) as nat;
            lemma_lit_split(s, j2, seq![','], crate::json::print_sem_elems(rest) + seq![']']);
            lemma_lit_char(s, j2, seq![','], 0);
            lemma_skip_here(s, j2);
            // the element after the comma opens with a quote, not a bracket
            assert(crate::json::print_sem_elems(rest)[0] == '"');
            lemma_lit_char(s, j2 + 1, crate::json::print_sem_elems(rest) + seq![']'], 0);
            lemma_skip_here(s, j2 + 1);
            assert(nxt(s, i, j2 + 1) == j2 + 1);
            lemma_parse_print_sem_elems(rest, s, j2 + 1);
            assert(seq![ps[0]] + rest =~= ps);
        }
    }
}

/// Round trip of the semantics codec: the canonical text of any policy list
/// parses back to exactly that list. Together with the contracts of
/// [`crate::json::semantics_to_json`] and
/// [`crate::json::semantics_from_json`] this says that serialising a
/// semantics list and parsing the text back returns the list unchanged.
pub proof fn lemma_semantics_json_round_trip(ps: Seq<crate::semantics::LightrayIValueSemantic>)
    ensures
        crate::json::parse_semantics(crate::json::print_semantics(ps)) == Some(ps),
{
    lemma_sem_tags();
    lemma_char_classes();
    reveal_strlit("positional_semantics");
    let s = crate::json::print_semantics(ps);
    let key = "positional_semantics"@;
    assert(s =~= seq!['{'] + (print_string(key) + (seq![':'] + (seq!['[']
        + ((crate::json::print_sem_elems(ps) + seq![']']) + seq!['}'])))));
    assert(lit_at(s, 0, s)) by {
        assert(s.subrange(0, s.len() as int) =~= s);
    }
    lemma_lit_split(s, 0, seq!['{'], print_string(key) + (seq![':'] + (seq!['[']
        + ((crate::json::print_sem_elems(ps) + seq![']']) + seq!['}']))));
    lemma_lit_char(s, 0, seq!['{'], 0);
    lemma_skip_here(s, 0);
    lemma_lit_split(s, 1, print_string(key), seq![':'] + (seq!['[']
        + ((crate::json::print_sem_elems(ps) + seq![']']) + seq!['}'])));
    lemma_lit_char(s, 1, print_string(key), 0);
    lemma_skip_here(s, 1);
    lemma_parse_string_at(key, s, 1);
    let i3 = (1 + print_string(key).len()) as nat;
    lemma_lit_split(s, i3, seq![':'], seq!['['] + ((crate::json::print_sem_elems(ps)
        + seq![']']) + seq!['}']));
    lemma_lit_char(s, i3, seq![':'], 0);
    lemma_skip_here(s, i3);
    lemma_lit_split(s, i3 + 1, seq!['['], (crate::json::print_sem_elems(ps) + seq![']'])
        + seq!['}']);
    lemma_lit_char(s, i3 + 1, seq!['['], 0);
    lemma_skip_here(s, i3 + 1);
    let i5 = (i3 + 2) as nat;
    lemma_lit_split(s, i5, crate::json::print_sem_elems(ps) + seq![']'], seq!['}']);
    lemma_parse_print_sem_elems(ps, s, i5);
    let i6 = (i5 + crate::json::print_sem_elems(ps).len() + 1) as nat;
    lemma_lit_char(s, i6, seq!['}'], 0);
    lemma_skip_here(s, i6);
    lemma_skip_here(s, i6 + 1);
}

/// Round trip of the JSON codec: the canonical text of any input parses back
/// to exactly that input. Together with the contracts of
/// [`crate::json::to_json`] and [`crate::json::from_json`] this says that
/// `from_json(to_json(input))` returns the input unchanged, for every input.
pub proof fn lemma_json_round_trip(args: Seq<IValueView>)
    ensures
        parse_input(print_input(args)) == Some(args),
{
    lemma_tags_plain();
    lemma_char_classes();
    reveal_strlit("positional_arguments");
    let s = print_input(args);
    let key = "positional_arguments"@;
    assert(s =~= seq!['{'] + (print_string(key) + (seq![':'] + (seq!['[']
        + ((print_elems(args) + seq![']']) + seq!['}'])))));
    assert(lit_at(s, 0, s)) by {
        assert(s.subrange(0, s.len() as int) =~= s);
    }
    lemma_lit_split(s, 0, seq!['{'], print_string(key) + (seq![':'] + (seq!['[']
        + ((print_elems(args) + seq![']']) + seq!['}']))));
    lemma_lit_char(s, 0, seq!['{'], 0);
    lemma_skip_here(s, 0);
    lemma_lit_split(s, 1, print_string(key), seq![':'] + (seq!['[']
        + ((print_elems(args) + seq![']']) + seq!['}'])));
    lemma_lit_char(s, 1, print_string(key), 0);
    lemma_skip_here(s, 1);
    lemma_parse_string_at(key, s, 1);
    let i3 = (1 + print_string(key).len()) as nat;
    lemma_lit_split(s, i3, seq![':'], seq!['['] + ((print_elems(args) + seq![']']) + seq!['}']));
    lemma_lit_char(s, i3, seq![':'], 0);
    lemma_skip_here(s, i3);
    lemma_lit_split(s, i3 + 1, seq!['['], (print_elems(args) + seq![']']) + seq!['}']);
    lemma_lit_char(s, i3 + 1, seq!['['], 0);
    lemma_skip_here(s, i3 + 1);
    let i5 = (i3 + 2) as nat;
    lemma_lit_split(s, i5, print_elems(args) + seq![']'], seq!['}']);
    lemma_parse_print_elems(args, s, i5);
    let i6 = (i5 + print_elems(args).len() + 1) as nat;
    lemma_lit_char(s, i6, seq!['}'], 0);
    lemma_skip_here(s, i6);
    lemma_skip_here(s, i6 + 1);
}

/// Fixed-width hexadecimal digits evaluate back to their value.
proof fn lemma_hex_fixed_val(n: nat, width: nat)
    requires
        n < crate::json::pow16(width),
    ensures
        crate::json::hex_fixed(n, width).len() == width,
        forall|k: int| 0 <= k < width ==> hex_val(
            #[trigger] crate::json::hex_fixed(n, width)[k],
        ) is Some,
        crate::json::hex_seq_val(crate::json::hex_fixed(n, width)) == n,
    decreases width,
{
    if width == 0 {
    } else {
        assert(n / 16 < crate::json::pow16((width - 1) as nat)) by (nonlinear_arith)
            requires
                n < crate::json::pow16(width),
                crate::json::pow16(width) == 16 * crate::json::pow16((width - 1) as nat),
        ;
        lemma_hex_fixed_val(n / 16, (width - 1) as nat);
        let h = crate::json::hex_fixed(n / 16, (width - 1) as nat).push(hex_char(n % 16));
        assert(h.drop_last() =~= crate::json::hex_fixed(n / 16, (width - 1) as nat));
        lemma_hex_char_val((n % 16) as nat);
        vstd::arithmetic::div_mod::lemma_fundamental_div_mod(n as int, 16int);
        assert(crate::json::hex_seq_val(h) == (n / 16) * 16 + n % 16);
        assert forall|k: int| 0 <= k < width implies hex_val(
            #[trigger] crate::json::hex_fixed(n, width)[k],
        ) is Some by {
            if k == width - 1 {
                assert(crate::json::hex_fixed(n, width)[k] == hex_char(n % 16));
            } else {
                assert(crate::json::hex_fixed(n, width)[k]
                    == crate::json::hex_fixed(n / 16, (width - 1) as nat)[k]);
            }
        }
    }
}

/// The hexadecimal digit characters and the hyphen stand for themselves in a
/// JSON string.
proof fn lemma_hex_chars_plain()
    ensures
        forall|m: nat| m < 16 ==> plain_char(#[trigger] hex_char(m)) && !is_ws(hex_char(m)),
        plain_char('-'),
{
    assert forall|m: nat| m < 16 implies plain_char(#[trigger] hex_char(m)) && !is_ws(
        hex_char(m),
    ) by {
        if m < 10 {
            lemma_char_classes();
            assert(hex_char(m) == digit_char(m));
        } else if m == 10 {} else if m == 11 {} else if m == 12 {} else if m == 13 {} else if m
            == 14 {} else {}
    }
}

/// A hyphenated UUID text reads back as the identifier it was written from.
proof fn lemma_uuid_round_trip(n: nat)
    requires
        n < crate::json::pow16(32),
    ensures
        crate::json::uuid_text(n).len() == 36,
        plain(crate::json::uuid_text(n)),
        !is_ws(crate::json::uuid_text(n)[0]),
        crate::json::uuid_text(n)[0] != '"',
        crate::json::uuid_val(crate::json::uuid_text(n)) == Some(n),
{
    lemma_hex_fixed_val(n, 32);
    lemma_hex_chars_plain();
    let h = crate::json::hex_fixed(n, 32);
    let t = crate::json::uuid_text(n);
    assert(t.len() == 36);
    assert forall|k: int| 0 <= k < 32 implies plain_char(#[trigger] h[k]) && !is_ws(h[k])
        && hex_val(h[k]) is Some by {
        lemma_hex_fixed_index(n, 32, k);
    }
    assert(t[8] == '-' && t[13] == '-' && t[18] == '-' && t[23] == '-');
    assert(plain(t)) by {
        assert forall|k: int| 0 <= k < t.len() implies plain_char(#[trigger] t[k]) by {
            if k == 8 || k == 13 || k == 18 || k == 23 {
            } else if k < 8 {
                assert(t[k] == h[k]);
            } else if k < 13 {
                assert(t[k] == h[k - 1]);
            } else if k < 18 {
                assert(t[k] == h[k - 2]);
            } else if k < 23 {
                assert(t[k] == h[k - 3]);
            } else {
                assert(t[k] == h[k - 4]);
            }
        }
    }
    assert(t[0] == h[0]);
    assert(crate::json::uuid_digits(t) =~= h);
    assert(!(exists|k: int|
        0 <= k < crate::json::uuid_digits(t).len() && hex_val(
            #[trigger] crate::json::uuid_digits(t)[k],
        ) is None));
}

/// Every digit a fixed-width hexadecimal rendering holds is a hexadecimal
/// digit character.
proof fn lemma_hex_fixed_index(n: nat, width: nat, k: int)
    requires
        0 <= k < width,
    ensures
        exists|m: nat| m < 16 && #[trigger] crate::json::hex_fixed(n, width)[k] == hex_char(m),
        plain_char(crate::json::hex_fixed(n, width)[k]),
        !is_ws(crate::json::hex_fixed(n, width)[k]),
        hex_val(crate::json::hex_fixed(n, width)[k]) is Some,
    decreases width,
{
    crate::json::lemma_hex_fixed_len(n, width);
    crate::json::lemma_hex_fixed_len(n / 16, (width - 1) as nat);
    lemma_hex_chars_plain();
    if k == width - 1 {
        assert(crate::json::hex_fixed(n, width)[k] == hex_char(n % 16));
        assert(((n % 16) as nat) < 16);
        lemma_hex_char_val((n % 16) as nat);
    } else {
        lemma_hex_fixed_index(n / 16, (width - 1) as nat, k);
        assert(crate::json::hex_fixed(n, width)[k]
            == crate::json::hex_fixed(n / 16, (width - 1) as nat)[k]);
    }
}

/// Round trip of the identifier codec: the canonical text of any model
/// identifier parses back to exactly that identifier. Together with the
/// contracts of [`crate::json::model_id_to_json`] and
/// [`crate::json::model_id_from_json`] this says that serialising an
/// identifier and parsing the text back returns it unchanged.
#[verifier::rlimit(100)]
pub proof fn lemma_model_id_json_round_trip(id: crate::model::LightrayModelId)
    ensures
        crate::json::parse_model_id(crate::json::print_model_id(id)) == Some(id),
{
    lemma_char_classes();
    crate::json::lemma_pow16_fits();
    reveal_strlit("model_id");
    reveal_strlit("model_version");
    lemma_print_plain("model_id"@);
    lemma_print_plain("model_version"@);
    lemma_uuid_round_trip(id.model_id as nat);
    lemma_dec_of(id.model_version as nat);
    let n = id.model_id as nat;
    let uuid = crate::json::uuid_text(n);
    let ver = dec_of(id.model_version as nat);
    lemma_print_plain(uuid);
    let s = crate::json::print_model_id(id);
    let key = "model_id"@;
    let key2 = "model_version"@;
    assert(s =~= seq!['{'] + (print_string(key) + (seq![':'] + (print_string(uuid) + (seq![',']
        + (print_string(key2) + (seq![':'] + (ver + seq!['}']))))))));
    assert(lit_at(s, 0, s)) by {
        assert(s.subrange(0, s.len() as int) =~= s);
    }
    lemma_lit_split(s, 0, seq!['{'], print_string(key) + (seq![':'] + (print_string(uuid) + (
    seq![','] + (print_string(key2) + (seq![':'] + (ver + seq!['}'])))))));
    lemma_lit_char(s, 0, seq!['{'], 0);
    lemma_skip_here(s, 0);
    lemma_lit_split(s, 1, print_string(key), seq![':'] + (print_string(uuid) + (seq![','] + (
    print_string(key2) + (seq![':'] + (ver + seq!['}']))))));
    lemma_lit_char(s, 1, print_string(key), 0);
    lemma_skip_here(s, 1);
    lemma_parse_string_at(key, s, 1);
    let i3 = (1 + print_string(key).len()) as nat;
    lemma_lit_split(s, i3, seq![':'], print_string(uuid) + (seq![','] + (print_string(key2) + (
    seq![':'] + (ver + seq!['}'])))));
    lemma_lit_char(s, i3, seq![':'], 0);
    lemma_skip_here(s, i3);
    lemma_lit_split(s, i3 + 1, print_string(uuid), seq![','] + (print_string(key2) + (seq![':']
        + (ver + seq!['}']))));
    lemma_lit_char(s, i3 + 1, print_string(uuid), 0);
    lemma_skip_here(s, i3 + 1);
    lemma_parse_string_at(uuid, s, i3 + 1);
    let i4 = (i3 + 1 + print_string(uuid).len()) as nat;
    lemma_lit_split(s, i4, seq![','], print_string(key2) + (seq![':'] + (ver + seq!['}'])));
    lemma_lit_char(s, i4, seq![','], 0);
    lemma_skip_here(s, i4);
    lemma_lit_split(s, i4 + 1, print_string(key2), seq![':'] + (ver + seq!['}']));
    lemma_lit_char(s, i4 + 1, print_string(key2), 0);
    lemma_skip_here(s, i4 + 1);
    lemma_parse_string_at(key2, s, i4 + 1);
    let i6 = (i4 + 1 + print_string(key2).len()) as nat;
    lemma_lit_split(s, i6, seq![':'], ver + seq!['}']);
    lemma_lit_char(s, i6, seq![':'], 0);
    lemma_skip_here(s, i6);
    lemma_lit_split(s, i6 + 1, ver, seq!['}']);
    lemma_lit_char(s, i6 + 1, ver, 0);
    lemma_skip_here(s, i6 + 1);
    let i8 = (i6 + 1 + ver.len()) as nat;
    lemma_lit_char(s, i8, seq!['}'], 0);
    lemma_parse_nat_at(s, i6 + 1, id.model_version as nat, 0xFFFF);
    lemma_skip_here(s, i8);
    lemma_skip_here(s, i8 + 1);
}

} // verus!
