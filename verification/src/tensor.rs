//! NPY tensor byte-stream codec: magic and version prefix, ASCII header
//! dictionary with `descr`, `fortran_order` and `shape`, and the raw
//! little-endian payload.
//!
//! `read_npy` rejects Fortran element order, big-endian `descr` strings,
//! unknown element types, and payloads whose size does not match the shape.

use vstd::prelude::*;

use crate::json::{digit_val, is_digit, val_of_digits};

verus! {

/// Element type of a tensor, named after the NPY `descr` codes.
#[derive(Debug, PartialEq, Eq, Clone, Copy)]
pub enum NpyDtype {
    F4,
    F8,
    I4,
    I8,
    I2,
    I1,
    U1,
}

impl NpyDtype {
    /// Size in bytes of one element.
    pub open spec fn spec_size(self) -> nat {
        match self {
            NpyDtype::F4 => 4,
            NpyDtype::F8 => 8,
            NpyDtype::I4 => 4,
            NpyDtype::I8 => 8,
            NpyDtype::I2 => 2,
            NpyDtype::I1 => 1,
            NpyDtype::U1 => 1,
        }
    }

    /// Size in bytes of one element.
    pub fn size(self) -> (r: u64)
        ensures
            r as nat == self.spec_size(),
    {
        match self {
            NpyDtype::F4 => 4,
            NpyDtype::F8 => 8,
            NpyDtype::I4 => 4,
            NpyDtype::I8 => 8,
            NpyDtype::I2 => 2,
            NpyDtype::I1 => 1,
            NpyDtype::U1 => 1,
        }
    }
}

/// Mathematical model of a parsed NPY header.
pub struct HeaderView {
    pub descr: NpyDtype,
    pub fortran_order: bool,
    pub shape: Seq<i64>,
}

/// A parsed NPY header: element type, element order and shape.
#[derive(Debug, PartialEq)]
pub struct Header {
    pub descr: NpyDtype,
    pub fortran_order: bool,
    pub shape: Vec<i64>,
}

impl Header {
    /// Model of this header.
    pub open spec fn view_spec(&self) -> HeaderView {
        HeaderView { descr: self.descr, fortran_order: self.fortran_order, shape: self.shape@ }
    }
}

/// Mathematical model of a decoded tensor.
pub struct NpyTensorView {
    pub data: Seq<u8>,
    pub shape: Seq<i64>,
    pub dtype: NpyDtype,
}

/// A decoded tensor: raw little-endian element bytes, shape, element type.
#[derive(Debug, PartialEq)]
pub struct NpyTensor {
    pub data: Vec<u8>,
    pub shape: Vec<i64>,
    pub dtype: NpyDtype,
}

impl NpyTensor {
    /// Model of this tensor.
    pub open spec fn view_spec(&self) -> NpyTensorView {
        NpyTensorView { data: self.data@, shape: self.shape@, dtype: self.dtype }
    }
}

// ---------------------------------------------------------------------------
// The byte-stream prefix
// ---------------------------------------------------------------------------

/// The six magic bytes that open every NPY stream.
pub open spec fn npy_magic() -> Seq<u8> {
    seq![0x93u8, 0x4Eu8, 0x55u8, 0x4Du8, 0x50u8, 0x59u8]
}

/// Every byte is ASCII.
pub open spec fn all_ascii(bs: Seq<u8>) -> bool {
    forall|k: int| 0 <= k < bs.len() ==> #[trigger] bs[k] < 128
}

/// ASCII bytes read as characters.
pub open spec fn chars_of_bytes(bs: Seq<u8>) -> Seq<char> {
    Seq::new(bs.len(), |k: int| bs[k] as char)
}

/// Little-endian value of a byte sequence.
pub open spec fn le_value(bs: Seq<u8>) -> nat
    decreases bs,
{
    if bs.len() == 0 {
        0
    } else {
        (bs[0] + 256 * le_value(bs.drop_first())) as nat
    }
}

/// Prefix of an NPY stream: magic, version, header length, ASCII header.
/// Yields the header text and the offset where the payload starts.
pub open spec fn spec_read_header(b: Seq<u8>) -> Result<(Seq<char>, nat), Seq<char>> {
    if b.len() < 8 {
        Err("truncated npy stream"@)
    } else if b.subrange(0, 6) != npy_magic() {
        Err("magic string mismatch"@)
    } else {
        let hl_len: nat = if b[6] == 1 { 2nat } else if b[6] == 2 { 4nat } else { 0nat };
        if hl_len == 0 {
            Err("unsupported version"@)
        } else if b.len() < 8 + hl_len {
            Err("truncated npy stream"@)
        } else {
            let hlen = le_value(b.subrange(8, 8 + hl_len as int));
            if b.len() < 8 + hl_len + hlen {
                Err("truncated npy stream"@)
            } else {
                let hdr = b.subrange(8 + hl_len as int, 8 + hl_len + hlen as int);
                if all_ascii(hdr) {
                    Ok((chars_of_bytes(hdr), (8 + hl_len + hlen) as nat))
                } else {
                    Err("header is not ascii"@)
                }
            }
        }
    }
}

// ---------------------------------------------------------------------------
// Header text: trimming, splitting, and the dictionary
// ---------------------------------------------------------------------------

/// Characters trimmed from around the whole header dictionary.
pub open spec fn outer_trim_char(c: char) -> bool {
    c == '{' || c == '}' || c == ',' || is_space(c)
}

/// Blank characters, as the header parser tolerates them.
pub open spec fn is_space(c: char) -> bool {
    c == ' ' || c == '\t' || c == '\n' || c == '\r'
}

/// Characters trimmed from around keys and values.
pub open spec fn quote_trim_char(c: char) -> bool {
    c == '\'' || is_space(c)
}

/// Characters trimmed from around the shape tuple.
pub open spec fn shape_trim_char(c: char) -> bool {
    c == '(' || c == ')' || c == ','
}

/// First index at or after `i` whose character fails `pred`.
pub open spec fn skip_pred(s: Seq<char>, i: nat, pred: spec_fn(char) -> bool) -> nat
    decreases s.len() - i,
{
    if i < s.len() && pred(s[i as int]) {
        skip_pred(s, i + 1, pred)
    } else {
        i
    }
}

/// Last bound at or before `j` whose preceding character fails `pred`.
pub open spec fn rskip_pred(s: Seq<char>, j: nat, pred: spec_fn(char) -> bool) -> nat
    decreases j,
{
    if j > 0 && j <= s.len() && pred(s[j - 1]) {
        rskip_pred(s, (j - 1) as nat, pred)
    } else {
        j
    }
}

/// Both-ends trim by a character class.
pub open spec fn trim(s: Seq<char>, pred: spec_fn(char) -> bool) -> Seq<char> {
    let a = skip_pred(s, 0, pred);
    let b = rskip_pred(s, s.len(), pred);
    if a <= b {
        s.subrange(a as int, b as int)
    } else {
        Seq::empty()
    }
}

/// Index of the first comma at parenthesis depth zero, scanning from `i`.
pub open spec fn find_comma(s: Seq<char>, i: nat, depth: int) -> Option<nat>
    decreases s.len() - i,
{
    if i >= s.len() {
        None
    } else if s[i as int] == ',' && depth == 0 {
        Some(i)
    } else {
        let d = if s[i as int] == '(' {
            depth + 1
        } else if s[i as int] == ')' {
            depth - 1
        } else {
            depth
        };
        find_comma(s, i + 1, d)
    }
}

/// Split on top-level commas; every piece is kept, even empty ones.
pub open spec fn split_top(s: Seq<char>) -> Seq<Seq<char>>
    decreases s.len(),
{
    match find_comma(s, 0, 0) {
        None => seq![s],
        Some(k) => {
            let k2: nat = if k < s.len() { k } else { 0nat };
            seq![s.subrange(0, k2 as int)] + split_top(s.skip(k2 as int + 1))
        },
    }
}

/// Index of the first colon at or after `i`.
pub open spec fn find_colon(s: Seq<char>, i: nat) -> Option<nat>
    decreases s.len() - i,
{
    if i >= s.len() {
        None
    } else if s[i as int] == ':' {
        Some(i)
    } else {
        find_colon(s, i + 1)
    }
}

/// A part is well formed when it holds exactly one colon; its key and value
/// are the quote-and-blank-trimmed halves.
pub open spec fn part_kv(part: Seq<char>) -> Option<(Seq<char>, Seq<char>)> {
    match find_colon(part, 0) {
        None => None,
        Some(k) => {
            if k < part.len() && find_colon(part, k + 1) is None {
                Some(
                    (
                        trim(part.subrange(0, k as int), |c: char| quote_trim_char(c)),
                        trim(part.skip(k as int + 1), |c: char| quote_trim_char(c)),
                    ),
                )
            } else {
                None
            }
        },
    }
}

/// The value of the last part carrying `key`, among the blank-trimmed,
/// non-empty parts; earlier occurrences are overwritten, as a map insert
/// would do.
pub open spec fn lookup(parts: Seq<Seq<char>>, key: Seq<char>) -> Option<Seq<char>>
    decreases parts,
{
    if parts.len() == 0 {
        None
    } else {
        let last = trim(parts.last(), |c: char| is_space(c));
        if last.len() != 0 {
            match part_kv(last) {
                Some((k, v)) => if k == key {
                    Some(v)
                } else {
                    lookup(parts.drop_last(), key)
                },
                None => lookup(parts.drop_last(), key),
            }
        } else {
            lookup(parts.drop_last(), key)
        }
    }
}

/// Some blank-trimmed, non-empty part fails to be a `key: value` pair.
pub open spec fn has_bad_part(parts: Seq<Seq<char>>) -> bool {
    exists|k: int|
        0 <= k < parts.len() && trim(#[trigger] parts[k], |c: char| is_space(c)).len() != 0
            && part_kv(trim(parts[k], |c: char| is_space(c))) is None
}

/// The digit run of a dimension text: everything after an optional sign.
pub open spec fn dim_digits(t: Seq<char>) -> Seq<char> {
    if t.len() > 0 && (t[0] == '-' || t[0] == '+') {
        t.drop_first()
    } else {
        t
    }
}

/// A signed decimal integer filling the whole text, as `str::parse` reads it.
pub open spec fn spec_parse_dim(t: Seq<char>) -> Option<i64> {
    let digits = dim_digits(t);
    if digits.len() == 0 || exists|k: int| 0 <= k < digits.len() && !is_digit(#[trigger] digits[k]) {
        None
    } else {
        let n = val_of_digits(digits);
        if t.len() > 0 && t[0] == '-' {
            if n <= 0x8000_0000_0000_0000 {
                Some((-(n as int)) as i64)
            } else {
                None
            }
        } else {
            if n <= 0x7FFF_FFFF_FFFF_FFFF {
                Some(n as i64)
            } else {
                None
            }
        }
    }
}

/// The dimensions of the shape text: comma-separated, blank-trimmed signed
/// integers.
pub open spec fn spec_parse_dims(parts: Seq<Seq<char>>) -> Option<Seq<i64>>
    decreases parts,
{
    if parts.len() == 0 {
        Some(Seq::empty())
    } else {
        match spec_parse_dims(parts.drop_last()) {
            None => None,
            Some(init) => match spec_parse_dim(trim(parts.last(), |c: char| is_space(c))) {
                None => None,
                Some(d) => Some(init.push(d)),
            },
        }
    }
}

/// The `descr` code after stripping `=` and `<` prefixes, mapped to an
/// element type.
pub open spec fn spec_descr(t: Seq<char>) -> Option<NpyDtype> {
    let u = trim(t, |c: char| c == '=' || c == '<');
    if u == "f4"@ {
        Some(NpyDtype::F4)
    } else if u == "f8"@ {
        Some(NpyDtype::F8)
    } else if u == "i4"@ {
        Some(NpyDtype::I4)
    } else if u == "i8"@ {
        Some(NpyDtype::I8)
    } else if u == "i2"@ {
        Some(NpyDtype::I2)
    } else if u == "i1"@ {
        Some(NpyDtype::I1)
    } else if u == "u1"@ {
        Some(NpyDtype::U1)
    } else {
        None
    }
}

/// The whole header dictionary: trims the braces, splits the parts, and reads
/// `fortran_order`, `descr` and `shape`.
pub open spec fn spec_parse_header(s: Seq<char>) -> Result<HeaderView, Seq<char>> {
    let inner = trim(s, |c: char| outer_trim_char(c));
    let parts = split_top(inner);
    if has_bad_part(parts) {
        Err("unable to parse header"@)
    } else {
        let fortran: Result<bool, Seq<char>> = match lookup(parts, "fortran_order"@) {
            None => Ok(false),
            Some(v) => if v == "False"@ {
                Ok(false)
            } else if v == "True"@ {
                Ok(true)
            } else {
                Err("unknown fortran_order"@)
            },
        };
        match fortran {
            Err(e) => Err(e),
            Ok(fortran_order) => match lookup(parts, "descr"@) {
                None => Err("no descr in header"@),
                Some(d) => if d.len() == 0 {
                    Err("empty descr"@)
                } else if d[0] == '>' {
                    Err("big-endian descr"@)
                } else {
                    match spec_descr(d) {
                        None => Err("unrecognized descr"@),
                        Some(descr) => match lookup(parts, "shape"@) {
                            None => Err("no shape in header"@),
                            Some(sh) => {
                                let body = trim(sh, |c: char| shape_trim_char(c));
                                if body.len() == 0 {
                                    Ok(
                                        HeaderView {
                                            descr,
                                            fortran_order,
                                            shape: Seq::empty(),
                                        },
                                    )
                                } else {
                                    match spec_parse_dims(split_top(body)) {
                                        None => Err("invalid shape"@),
                                        Some(shape) => Ok(
                                            HeaderView { descr, fortran_order, shape },
                                        ),
                                    }
                                }
                            },
                        },
                    }
                },
            },
        }
    }
}

// ---------------------------------------------------------------------------
// Whole-stream decode
// ---------------------------------------------------------------------------

/// Number of elements a shape calls for.
pub open spec fn prod_of(shape: Seq<i64>) -> int
    decreases shape,
{
    if shape.len() == 0 {
        1
    } else {
        prod_of(shape.drop_last()) * shape.last()
    }
}

// ---------------------------------------------------------------------------
// Executable header parsing
// ---------------------------------------------------------------------------

fn outer_trim_char_x(c: char) -> (r: bool)
    ensures
        r == outer_trim_char(c),
{
    c == '{' || c == '}' || c == ',' || c == ' ' || c == '\t' || c == '\n' || c == '\r'
}

fn quote_trim_char_x(c: char) -> (r: bool)
    ensures
        r == quote_trim_char(c),
{
    c == '\'' || c == ' ' || c == '\t' || c == '\n' || c == '\r'
}

fn space_char_x(c: char) -> (r: bool)
    ensures
        r == is_space(c),
{
    c == ' ' || c == '\t' || c == '\n' || c == '\r'
}

fn shape_trim_char_x(c: char) -> (r: bool)
    ensures
        r == shape_trim_char(c),
{
    c == '(' || c == ')' || c == ','
}

fn descr_trim_char_x(c: char) -> (r: bool)
    ensures
        r == (c == '=' || c == '<'),
{
    c == '=' || c == '<'
}

/// Which character class a trim uses.
#[derive(Clone, Copy)]
pub(crate) enum TrimClass {
    Outer,
    Quote,
    Space,
    Shape,
    Descr,
}

impl TrimClass {
    /// The predicate this class stands for.
    pub(crate) open spec fn pred(self) -> spec_fn(char) -> bool {
        match self {
            TrimClass::Outer => |c: char| outer_trim_char(c),
            TrimClass::Quote => |c: char| quote_trim_char(c),
            TrimClass::Space => |c: char| is_space(c),
            TrimClass::Shape => |c: char| shape_trim_char(c),
            TrimClass::Descr => |c: char| c == '=' || c == '<',
        }
    }
}

fn trim_char_x(class: TrimClass, c: char) -> (r: bool)
    ensures
        r == class.pred()(c),
{
    match class {
        TrimClass::Outer => outer_trim_char_x(c),
        TrimClass::Quote => quote_trim_char_x(c),
        TrimClass::Space => space_char_x(c),
        TrimClass::Shape => shape_trim_char_x(c),
        TrimClass::Descr => descr_trim_char_x(c),
    }
}

/// Trim a character class from both ends.
#[verifier::loop_isolation(false)]
fn trim_x(v: &Vec<char>, class: TrimClass) -> (r: Vec<char>)
    ensures
        r@ == trim(v@, class.pred()),
{
    let n = v.len();
    let mut a: usize = 0;
    loop
        invariant
            a <= n,
            skip_pred(v@, 0, class.pred()) == skip_pred(v@, a as nat, class.pred()),
        decreases n - a,
    {
        if a == n {
            break;
        }
        if !trim_char_x(class, v[a]) {
            break;
        }
        a += 1;
    }
    proof {
        assert(skip_pred(v@, a as nat, class.pred()) == a as nat);
    }
    let mut b: usize = n;
    loop
        invariant
            b <= n,
            rskip_pred(v@, n as nat, class.pred()) == rskip_pred(v@, b as nat, class.pred()),
        decreases b,
    {
        if b == 0 {
            break;
        }
        if !trim_char_x(class, v[b - 1]) {
            break;
        }
        b -= 1;
    }
    proof {
        assert(rskip_pred(v@, b as nat, class.pred()) == b as nat);
    }
    let mut out: Vec<char> = Vec::new();
    if a <= b {
        let mut k: usize = a;
        while k < b
            invariant
                a <= k <= b <= n,
                out@ == v@.subrange(a as int, k as int),
            decreases b - k,
        {
            out.push(v[k]);
            proof {
                assert(out@ =~= v@.subrange(a as int, k + 1));
            }
            k += 1;
        }
    }
    proof {
        if a <= b {
            assert(out@ =~= trim(v@, class.pred()));
        } else {
            assert(out@ =~= trim(v@, class.pred()));
        }
    }
    out
}

/// Find the first comma at parenthesis depth zero.
#[verifier::loop_isolation(false)]
fn find_comma_x(v: &Vec<char>) -> (r: Option<usize>)
    ensures
        r is Some <==> find_comma(v@, 0, 0) is Some,
        r matches Some(k) ==> find_comma(v@, 0, 0) == Some(k as nat) && k < v@.len(),
{
    let n = v.len();
    let mut i: usize = 0;
    let mut depth: i128 = 0;
    loop
        invariant
            i <= n,
            -(i as int) <= depth <= i as int,
            find_comma(v@, 0, 0) == find_comma(v@, i as nat, depth as int),
        decreases n - i,
    {
        if i == n {
            return None;
        }
        let c = v[i];
        if c == ',' && depth == 0 {
            return Some(i);
        }
        if c == '(' {
            depth += 1;
        } else if c == ')' {
            depth -= 1;
        }
        i += 1;
    }
}

/// Split on top-level commas.
#[verifier::loop_isolation(false)]
fn split_top_x(v: &Vec<char>) -> (r: (Vec<Vec<char>>, Ghost<Seq<Seq<char>>>))
    ensures
        r.1@ == split_top(v@),
        r.0@.len() == r.1@.len(),
        forall|k: int| 0 <= k < r.0@.len() ==> r.0@[k]@ == r.1@[k],
{
    let mut pieces: Vec<Vec<char>> = Vec::new();
    let ghost mut gp: Seq<Seq<char>> = Seq::empty();
    let mut rest: Vec<char> = Vec::new();
    let n = v.len();
    let mut k0: usize = 0;
    while k0 < n
        invariant
            k0 <= n,
            rest@ == v@.subrange(0, k0 as int),
        decreases n - k0,
    {
        rest.push(v[k0]);
        proof {
            assert(rest@ =~= v@.subrange(0, k0 + 1));
        }
        k0 += 1;
    }
    proof {
        assert(rest@ =~= v@);
    }
    loop
        invariant
            gp.len() == pieces@.len(),
            forall|k: int| 0 <= k < pieces@.len() ==> pieces@[k]@ == gp[k],
            split_top(v@) == gp + split_top(rest@),
        decreases rest@.len(),
    {
        match find_comma_x(&rest) {
            None => {
                let ghost g0 = gp;
                proof {
                    gp = gp.push(rest@);
                    assert(g0 + seq![rest@] =~= gp);
                }
                pieces.push(rest);
                return (pieces, Ghost(gp));
            },
            Some(k) => {
                let rn = rest.len();
                proof {
                    assert(k < rn);
                }
                let mut piece: Vec<char> = Vec::new();
                let mut m: usize = 0;
                while m < k
                    invariant
                        m <= k < rest@.len(),
                        piece@ == rest@.subrange(0, m as int),
                    decreases k - m,
                {
                    piece.push(rest[m]);
                    proof {
                        assert(piece@ =~= rest@.subrange(0, m + 1));
                    }
                    m += 1;
                }
                let mut tail: Vec<char> = Vec::new();
                let mut t: usize = k + 1;
                while t < rn
                    invariant
                        k + 1 <= t <= rn,
                        rn == rest@.len(),
                        tail@ == rest@.subrange(k + 1, t as int),
                    decreases rn - t,
                {
                    tail.push(rest[t]);
                    proof {
                        assert(tail@ =~= rest@.subrange(k + 1, t + 1));
                    }
                    t += 1;
                }
                let ghost g0 = gp;
                proof {
                    assert(piece@ =~= rest@.subrange(0, k as int));
                    assert(tail@ =~= rest@.skip(k as int + 1));
                    gp = gp.push(piece@);
                    assert(g0 + seq![piece@] =~= gp);
                    assert(split_top(rest@) == seq![rest@.subrange(0, k as int)]
                        + split_top(rest@.skip(k as int + 1)));
                    assert(g0 + (seq![piece@] + split_top(tail@)) =~= gp + split_top(tail@));
                }
                pieces.push(piece);
                rest = tail;
            },
        }
    }
}

/// Parse one shape dimension: an optionally signed decimal integer filling
/// the whole text.
#[verifier::loop_isolation(false)]
fn parse_dim_x(t: &Vec<char>) -> (r: Option<i64>)
    ensures
        r == spec_parse_dim(t@),
{
    let n = t.len();
    let neg = n > 0 && t[0] == '-';
    let start: usize = if n > 0 && (t[0] == '-' || t[0] == '+') {
        1
    } else {
        0
    };
    let ghost digits: Seq<char> = dim_digits(t@);
    proof {
        assert(digits =~= t@.subrange(start as int, n as int));
    }
    if start == n {
        return None;
    }
    let bound: u64 = if neg {
        0x8000_0000_0000_0000
    } else {
        0x7FFF_FFFF_FFFF_FFFF
    };
    let mut acc: u64 = 0;
    let mut over: bool = false;
    let mut k: usize = start;
    proof {
        assert(t@.subrange(start as int, start as int) =~= Seq::<char>::empty());
    }
    while k < n
        invariant
            start <= k <= n,
            forall|m: int| start <= m < k ==> is_digit(#[trigger] t@[m]),
            !over ==> acc as nat == val_of_digits(t@.subrange(start as int, k as int))
                && acc <= bound,
            over ==> val_of_digits(t@.subrange(start as int, k as int)) > bound,
        decreases n - k,
    {
        let c = t[k];
        let u = c as u32;
        if !(48 <= u && u <= 57) {
            proof {
                assert(!is_digit(t@[k as int]));
                assert(!is_digit(dim_digits(t@)[k - start]));
            }
            return None;
        }
        proof {
            assert(t@.subrange(start as int, k + 1).drop_last()
                =~= t@.subrange(start as int, k as int));
        }
        let d = crate::json::digit_val_x(c);
        if !over {
            if acc > bound / 10 || (acc == bound / 10 && d > bound % 10) {
                over = true;
                proof {
                    vstd::arithmetic::div_mod::lemma_fundamental_div_mod(bound as int, 10int);
                    assert(val_of_digits(t@.subrange(start as int, k + 1)) > bound)
                        by (nonlinear_arith)
                        requires
                            val_of_digits(t@.subrange(start as int, k + 1))
                                == val_of_digits(t@.subrange(start as int, k as int)) * 10
                                + digit_val(t@[k as int]),
                            acc as nat == val_of_digits(t@.subrange(start as int, k as int)),
                            d as nat == digit_val(t@[k as int]),
                            acc > bound / 10 || (acc == bound / 10 && d > bound % 10),
                            bound == 10 * (bound / 10) + bound % 10,
                            bound % 10 < 10,
                            d < 10,
                    ;
                }
            } else {
                acc = acc * 10 + d;
            }
        } else {
            proof {
                assert(val_of_digits(t@.subrange(start as int, k + 1))
                    == val_of_digits(t@.subrange(start as int, k as int)) * 10
                    + digit_val(t@[k as int]));
                assert(val_of_digits(t@.subrange(start as int, k as int)) * 10
                    >= val_of_digits(t@.subrange(start as int, k as int))) by (nonlinear_arith);
            }
        }
        k += 1;
    }
    proof {
        assert(forall|m: int| 0 <= m < dim_digits(t@).len()
            ==> is_digit(#[trigger] dim_digits(t@)[m]));
        assert(val_of_digits(dim_digits(t@)) == val_of_digits(t@.subrange(start as int, n as int)));
    }
    if over {
        return None;
    }
    if neg {
        let x: i64 = if acc == 0x8000_0000_0000_0000 {
            i64::MIN
        } else {
            -(acc as i64)
        };
        Some(x)
    } else {
        Some(acc as i64)
    }
}

/// Find the first colon.
#[verifier::loop_isolation(false)]
fn find_colon_x(v: &Vec<char>, from: usize) -> (r: Option<usize>)
    requires
        from <= v@.len(),
    ensures
        r is Some <==> find_colon(v@, from as nat) is Some,
        r matches Some(k) ==> find_colon(v@, from as nat) == Some(k as nat)
            && from <= k < v@.len(),
{
    let n = v.len();
    let mut i: usize = from;
    loop
        invariant
            from <= i <= n,
            find_colon(v@, from as nat) == find_colon(v@, i as nat),
        decreases n - i,
    {
        if i == n {
            return None;
        }
        if v[i] == ':' {
            return Some(i);
        }
        i += 1;
    }
}

/// Copy a range of a character vector.
#[verifier::loop_isolation(false)]
fn copy_range(v: &Vec<char>, a: usize, b: usize) -> (r: Vec<char>)
    requires
        a <= b <= v@.len(),
    ensures
        r@ == v@.subrange(a as int, b as int),
{
    let mut out: Vec<char> = Vec::new();
    let mut k: usize = a;
    while k < b
        invariant
            a <= k <= b,
            out@ == v@.subrange(a as int, k as int),
        decreases b - k,
    {
        out.push(v[k]);
        proof {
            assert(out@ =~= v@.subrange(a as int, k + 1));
        }
        k += 1;
    }
    out
}

/// Split a part into its trimmed key and value, when it holds exactly one
/// colon.
fn part_kv_x(t: &Vec<char>) -> (r: Option<(Vec<char>, Vec<char>)>)
    ensures
        r is Some <==> part_kv(t@) is Some,
        r matches Some((k, v)) ==> part_kv(t@) == Some((k@, v@)),
{
    let k = match find_colon_x(t, 0) {
        None => { return None; },
        Some(k) => k,
    };
    let tn = t.len();
    proof {
        assert(k < tn);
    }
    match find_colon_x(t, k + 1) {
        Some(_) => None,
        None => {
            let key_raw = copy_range(t, 0, k);
            let val_raw = copy_range(t, k + 1, tn);
            proof {
                assert(val_raw@ =~= t@.skip(k as int + 1));
            }
            let key = trim_x(&key_raw, TrimClass::Quote);
            let val = trim_x(&val_raw, TrimClass::Quote);
            Some((key, val))
        },
    }
}

/// When a prefix of the dimension parts fails, the whole list fails.
proof fn lemma_dims_prefix_none(parts: Seq<Seq<char>>, k: int)
    requires
        0 <= k <= parts.len(),
        spec_parse_dims(parts.take(k)) is None,
    ensures
        spec_parse_dims(parts) is None,
    decreases parts.len() - k,
{
    if k < parts.len() {
        assert(parts.take(k + 1).drop_last() =~= parts.take(k));
        lemma_dims_prefix_none(parts, k + 1);
    } else {
        assert(parts.take(k) =~= parts);
    }
}

/// The three dictionary keys are pairwise distinct.
proof fn lemma_keys_distinct()
    ensures
        "fortran_order"@ != "descr"@,
        "fortran_order"@ != "shape"@,
        "descr"@ != "shape"@,
{
    reveal_strlit("fortran_order");
    reveal_strlit("descr");
    reveal_strlit("shape");
    assert("fortran_order"@.len() != "descr"@.len());
    assert("fortran_order"@.len() != "shape"@.len());
    assert("descr"@[0] != "shape"@[0]);
}

impl Header {
    /// Parse a header dictionary, as written by NPY: a brace-wrapped list of
    /// `key: value` parts, read tolerantly.
    #[verifier::loop_isolation(false)]
    #[verifier::rlimit(60)]
    pub fn parse(header: &str) -> (r: Result<Header, String>)
        ensures
            r is Ok <==> spec_parse_header(header@) is Ok,
            r matches Ok(h) ==> spec_parse_header(header@) == Ok::<HeaderView, Seq<char>>(
                h.view_spec(),
            ),
            r matches Err(m) ==> spec_parse_header(header@) == Err::<HeaderView, Seq<char>>(m@),
    {
        let cs = crate::json::str_to_chars(header);
        let inner = trim_x(&cs, TrimClass::Outer);
        let (parts, Ghost(gp)) = split_top_x(&inner);
        let mut f_val: Option<Vec<char>> = None;
        let mut d_val: Option<Vec<char>> = None;
        let mut s_val: Option<Vec<char>> = None;
        let n = parts.len();
        let mut k: usize = 0;
        proof {
            lemma_keys_distinct();
            assert(gp.take(0) =~= Seq::<Seq<char>>::empty());
        }
        while k < n
            invariant
                k <= n == gp.len(),
                parts@.len() == gp.len(),
                forall|m: int| 0 <= m < gp.len() ==> parts@[m]@ == gp[m],
                !has_bad_part(gp.take(k as int)),
                f_val is Some <==> lookup(gp.take(k as int), "fortran_order"@) is Some,
                f_val matches Some(v) ==> lookup(gp.take(k as int), "fortran_order"@)
                    == Some(v@),
                d_val is Some <==> lookup(gp.take(k as int), "descr"@) is Some,
                d_val matches Some(v) ==> lookup(gp.take(k as int), "descr"@) == Some(v@),
                s_val is Some <==> lookup(gp.take(k as int), "shape"@) is Some,
                s_val matches Some(v) ==> lookup(gp.take(k as int), "shape"@) == Some(v@),
            decreases n - k,
        {
            proof {
                assert(gp.take(k + 1).drop_last() =~= gp.take(k as int));
                assert(gp.take(k + 1).last() == gp[k as int]);
            }
            let tp = trim_x(&parts[k], TrimClass::Space);
            if tp.len() != 0 {
                match part_kv_x(&tp) {
                    None => {
                        proof {
                            assert(trim(gp[k as int], |c: char| is_space(c)).len() != 0
                                && part_kv(trim(gp[k as int], |c: char| is_space(c))) is None);
                            assert(has_bad_part(gp)) by {
                                assert(trim(#[trigger] gp[k as int], |c: char| is_space(c)).len()
                                    != 0 && part_kv(
                                    trim(gp[k as int], |c: char| is_space(c)),
                                ) is None);
                            }
                        }
                        return Err(String::from_str("unable to parse header"));
                    },
                    Some((key, val)) => {
                        if crate::json::chars_eq_lit(&key, "fortran_order") {
                            f_val = Some(val);
                        } else if crate::json::chars_eq_lit(&key, "descr") {
                            d_val = Some(val);
                        } else if crate::json::chars_eq_lit(&key, "shape") {
                            s_val = Some(val);
                        }
                    },
                }
            }
            k += 1;
        }
        proof {
            assert(gp.take(n as int) =~= gp);
        }
        let fortran_order: bool = match &f_val {
            Option::None => false,
            Option::Some(v) => {
                if crate::json::chars_eq_lit(v, "False") {
                    false
                } else if crate::json::chars_eq_lit(v, "True") {
                    true
                } else {
                    return Err(String::from_str("unknown fortran_order"));
                }
            },
        };
        let d = match d_val {
            Option::None => { return Err(String::from_str("no descr in header")); },
            Option::Some(d) => d,
        };
        if d.len() == 0 {
            return Err(String::from_str("empty descr"));
        }
        if d[0] == '>' {
            return Err(String::from_str("big-endian descr"));
        }
        let u = trim_x(&d, TrimClass::Descr);
        let descr: NpyDtype = if crate::json::chars_eq_lit(&u, "f4") {
            NpyDtype::F4
        } else if crate::json::chars_eq_lit(&u, "f8") {
            NpyDtype::F8
        } else if crate::json::chars_eq_lit(&u, "i4") {
            NpyDtype::I4
        } else if crate::json::chars_eq_lit(&u, "i8") {
            NpyDtype::I8
        } else if crate::json::chars_eq_lit(&u, "i2") {
            NpyDtype::I2
        } else if crate::json::chars_eq_lit(&u, "i1") {
            NpyDtype::I1
        } else if crate::json::chars_eq_lit(&u, "u1") {
            NpyDtype::U1
        } else {
            return Err(String::from_str("unrecognized descr"));
        };
        let sh = match s_val {
            Option::None => { return Err(String::from_str("no shape in header")); },
            Option::Some(sh) => sh,
        };
        let body = trim_x(&sh, TrimClass::Shape);
        let mut shape: Vec<i64> = Vec::new();
        if body.len() != 0 {
            let (dparts, Ghost(gd)) = split_top_x(&body);
            let dn = dparts.len();
            let mut j: usize = 0;
            proof {
                assert(gd.take(0) =~= Seq::<Seq<char>>::empty());
            }
            while j < dn
                invariant
                    j <= dn == gd.len(),
                    dparts@.len() == gd.len(),
                    forall|m: int| 0 <= m < gd.len() ==> dparts@[m]@ == gd[m],
                    spec_parse_dims(gd.take(j as int)) == Some(shape@),
                decreases dn - j,
            {
                proof {
                    assert(gd.take(j + 1).drop_last() =~= gd.take(j as int));
                    assert(gd.take(j + 1).last() == gd[j as int]);
                }
                let td = trim_x(&dparts[j], TrimClass::Space);
                match parse_dim_x(&td) {
                    None => {
                        proof {
                            lemma_dims_prefix_none(gd, j + 1);
                        }
                        return Err(String::from_str("invalid shape"));
                    },
                    Some(dim) => {
                        shape.push(dim);
                    },
                }
                j += 1;
            }
            proof {
                assert(gd.take(dn as int) =~= gd);
            }
        }
        Ok(Header { descr, fortran_order, shape })
    }
}

// ---------------------------------------------------------------------------
// Printing a header
// ---------------------------------------------------------------------------

/// The `descr` code of an element type.
pub open spec fn descr_code(d: NpyDtype) -> Seq<char> {
    match d {
        NpyDtype::F4 => "f4"@,
        NpyDtype::F8 => "f8"@,
        NpyDtype::I4 => "i4"@,
        NpyDtype::I8 => "i8"@,
        NpyDtype::I2 => "i2"@,
        NpyDtype::I1 => "i1"@,
        NpyDtype::U1 => "u1"@,
    }
}

/// The dimensions written in order, each followed by a comma.
pub open spec fn dims_text(shape: Seq<i64>) -> Seq<char>
    decreases shape,
{
    if shape.len() == 0 {
        Seq::empty()
    } else {
        crate::json::print_int(shape[0]) + seq![','] + dims_text(shape.drop_first())
    }
}

/// The canonical text of a header, as NPY writes it.
pub open spec fn spec_print_header(h: HeaderView) -> Seq<char> {
    "{'descr': '<"@ + descr_code(h.descr) + "', 'fortran_order': "@
        + (if h.fortran_order { "True"@ } else { "False"@ })
        + ", 'shape': ("@ + dims_text(h.shape) + "), }"@
}

impl Header {
    /// Write this header back as NPY header text.
    #[verifier::loop_isolation(false)]
    pub fn to_string(&self) -> (r: Option<String>)
        ensures
            r matches Some(t) && t@ == spec_print_header(self.view_spec()),
    {
        let mut out: Vec<char> = Vec::new();
        crate::json::emit_lit(&mut out, "{'descr': '<");
        match self.descr {
            NpyDtype::F4 => crate::json::emit_lit(&mut out, "f4"),
            NpyDtype::F8 => crate::json::emit_lit(&mut out, "f8"),
            NpyDtype::I4 => crate::json::emit_lit(&mut out, "i4"),
            NpyDtype::I8 => crate::json::emit_lit(&mut out, "i8"),
            NpyDtype::I2 => crate::json::emit_lit(&mut out, "i2"),
            NpyDtype::I1 => crate::json::emit_lit(&mut out, "i1"),
            NpyDtype::U1 => crate::json::emit_lit(&mut out, "u1"),
        }
        crate::json::emit_lit(&mut out, "', 'fortran_order': ");
        if self.fortran_order {
            crate::json::emit_lit(&mut out, "True");
        } else {
            crate::json::emit_lit(&mut out, "False");
        }
        crate::json::emit_lit(&mut out, ", 'shape': (");
        let ghost dims = self.shape@;
        let n = self.shape.len();
        proof {
            assert(dims.skip(0) =~= dims);
        }
        let mut k: usize = 0;
        let ghost mid = out@;
        while k < n
            invariant
                k <= n,
                mid + dims_text(dims) == out@ + dims_text(dims.skip(k as int)),
            decreases n - k,
        {
            proof {
                assert(dims.skip(k as int)[0] == dims[k as int]);
                assert(dims.skip(k as int).drop_first() =~= dims.skip(k + 1));
            }
            crate::json::emit_i64(&mut out, self.shape[k]);
            crate::json::emit_lit(&mut out, ",");
            proof {
                reveal_strlit(",");
                assert(","@ =~= seq![',']);
                assert(mid + dims_text(dims) =~= out@ + dims_text(dims.skip(k + 1)));
            }
            k += 1;
        }
        proof {
            assert(dims_text(dims.skip(n as int)) =~= Seq::<char>::empty());
            assert(out@ =~= mid + dims_text(dims));
        }
        crate::json::emit_lit(&mut out, "), }");
        proof {
            assert(out@ =~= spec_print_header(self.view_spec()));
        }
        Some(crate::json::chars_to_string(&out))
    }
}

// ---------------------------------------------------------------------------
// Reading the stream prefix
// ---------------------------------------------------------------------------

/// Read the NPY prefix of a byte stream: the magic bytes, the version, the
/// header length and the ASCII header text. Yields the header and the offset
/// where the payload starts.
#[verifier::loop_isolation(false)]
pub fn read_header(value: &[u8]) -> (r: Result<(String, usize), String>)
    ensures
        r is Ok <==> spec_read_header(value@) is Ok,
        r matches Ok((h, off)) ==> spec_read_header(value@) == Ok::<(Seq<char>, nat), Seq<char>>(
            (h@, off as nat),
        ) && off <= value@.len(),
        r matches Err(m) ==> spec_read_header(value@) == Err::<(Seq<char>, nat), Seq<char>>(m@),
{
    let n = value.len();
    if n < 8 {
        return Err(String::from_str("truncated npy stream"));
    }
    if !(value[0] == 0x93 && value[1] == 0x4E && value[2] == 0x55 && value[3] == 0x4D
        && value[4] == 0x50 && value[5] == 0x59) {
        proof {
            if value@.subrange(0, 6) == npy_magic() {
                assert(value@[0] == value@.subrange(0, 6)[0]);
                assert(value@[1] == value@.subrange(0, 6)[1]);
                assert(value@[2] == value@.subrange(0, 6)[2]);
                assert(value@[3] == value@.subrange(0, 6)[3]);
                assert(value@[4] == value@.subrange(0, 6)[4]);
                assert(value@[5] == value@.subrange(0, 6)[5]);
            }
        }
        return Err(String::from_str("magic string mismatch"));
    }
    proof {
        assert(value@.subrange(0, 6) =~= npy_magic());
    }
    let v = value[6];
    let hl_len: usize = if v == 1 {
        2
    } else if v == 2 {
        4
    } else {
        return Err(String::from_str("unsupported version"));
    };
    if n - 8 < hl_len {
        return Err(String::from_str("truncated npy stream"));
    }
    let hlen: u64 = if hl_len == 2 {
        value[8] as u64 + 256 * (value[9] as u64)
    } else {
        value[8] as u64 + 256 * (value[9] as u64) + 65536 * (value[10] as u64)
            + 16777216 * (value[11] as u64)
    };
    proof {
        reveal_with_fuel(le_value, 6);
        let hb = value@.subrange(8, 8 + hl_len as int);
        if hl_len == 2 {
            assert(hb.drop_first() =~= value@.subrange(9, 10));
            assert(hb.drop_first().drop_first() =~= Seq::<u8>::empty());
            assert(hlen as nat == le_value(hb));
        } else {
            assert(hb.drop_first() =~= value@.subrange(9, 12));
            assert(hb.drop_first().drop_first() =~= value@.subrange(10, 12));
            assert(hb.drop_first().drop_first().drop_first() =~= value@.subrange(11, 12));
            assert(hb.drop_first().drop_first().drop_first().drop_first()
                =~= Seq::<u8>::empty());
            assert(hlen as nat == le_value(hb));
        }
    }
    if ((n - 8 - hl_len) as u64) < hlen {
        return Err(String::from_str("truncated npy stream"));
    }
    let hstart: usize = 8 + hl_len;
    let hend: usize = hstart + (hlen as usize);
    let mut chars: Vec<char> = Vec::new();
    let mut k: usize = hstart;
    while k < hend
        invariant
            hstart <= k <= hend <= n == value@.len(),
            chars@ == chars_of_bytes(value@.subrange(hstart as int, k as int)),
            all_ascii(value@.subrange(hstart as int, k as int)),
        decreases hend - k,
    {
        let b = value[k];
        if b >= 128 {
            proof {
                let hdr = value@.subrange(hstart as int, hend as int);
                assert(hdr[k - hstart] == value@[k as int]);
                assert(!all_ascii(hdr));
            }
            return Err(String::from_str("header is not ascii"));
        }
        chars.push(b as char);
        proof {
            assert(chars@ =~= chars_of_bytes(value@.subrange(hstart as int, k + 1)));
        }
        k += 1;
    }
    proof {
        let hdr = value@.subrange(hstart as int, hend as int);
        assert(hdr =~= value@.subrange(hstart as int, k as int));
    }
    Ok((crate::json::chars_to_string(&chars), hend))
}

/// Every dimension is non-negative.
pub open spec fn all_nonneg(shape: Seq<i64>) -> bool {
    forall|k: int| 0 <= k < shape.len() ==> #[trigger] shape[k] >= 0
}

/// Decode of a whole NPY stream: prefix, header, order and size checks. A
/// negative dimension counts as a size mismatch.
pub open spec fn spec_read_npy(b: Seq<u8>) -> Result<NpyTensorView, Seq<char>> {
    match spec_read_header(b) {
        Err(e) => Err(e),
        Ok((hdr, off)) => match spec_parse_header(hdr) {
            Err(e) => Err(e),
            Ok(h) => if h.fortran_order {
                Err("fortran order not supported"@)
            } else {
                let data = b.skip(off as int);
                if all_nonneg(h.shape) && prod_of(h.shape) * h.descr.spec_size() == data.len() {
                    Ok(NpyTensorView { data, shape: h.shape, dtype: h.descr })
                } else {
                    Err("data size does not match shape"@)
                }
            },
        },
    }
}

/// Decode a whole NPY byte stream into a tensor: check the prefix, parse the
/// header, refuse Fortran order, and take the rest of the buffer as payload,
/// which must hold exactly as many bytes as the shape calls for.
#[verifier::loop_isolation(false)]
#[verifier::rlimit(60)]
pub fn read_npy(value: &[u8]) -> (r: Result<NpyTensor, String>)
    ensures
        r is Ok <==> spec_read_npy(value@) is Ok,
        r matches Ok(t) ==> spec_read_npy(value@) == Ok::<NpyTensorView, Seq<char>>(
            t.view_spec(),
        ),
        r matches Err(m) ==> spec_read_npy(value@) == Err::<NpyTensorView, Seq<char>>(m@),
{
    let (header, off) = match read_header(value) {
        Ok(p) => p,
        Err(e) => { return Err(e); },
    };
    let h = match Header::parse(header.as_str()) {
        Ok(h) => h,
        Err(e) => { return Err(e); },
    };
    if h.fortran_order {
        return Err(String::from_str("fortran order not supported"));
    }
    let n = value.len();
    let mut data: Vec<u8> = Vec::new();
    let mut k: usize = off;
    while k < n
        invariant
            off <= k <= n == value@.len(),
            data@ == value@.subrange(off as int, k as int),
        decreases n - k,
    {
        data.push(value[k]);
        proof {
            assert(data@ =~= value@.subrange(off as int, k + 1));
        }
        k += 1;
    }
    proof {
        assert(data@ =~= value@.skip(off as int));
    }
    let dn = h.shape.len();
    let mut acc: u128 = 1;
    let mut big: bool = false;
    let mut j: usize = 0;
    proof {
        assert(h.shape@.take(0) =~= Seq::<i64>::empty());
    }
    while j < dn
        invariant
            j <= dn == h.shape@.len(),
            forall|m: int| 0 <= m < j ==> #[trigger] h.shape@[m] >= 0,
            !big ==> acc as int == prod_of(h.shape@.take(j as int)) && acc <= u64::MAX,
            big ==> prod_of(h.shape@.take(j as int)) > u64::MAX,
        decreases dn - j,
    {
        let d = h.shape[j];
        if d < 0 {
            proof {
                assert(!all_nonneg(h.shape@));
            }
            return Err(String::from_str("data size does not match shape"));
        }
        proof {
            assert(h.shape@.take(j + 1).drop_last() =~= h.shape@.take(j as int));
            assert(h.shape@.take(j + 1).last() == h.shape@[j as int]);
        }
        if big {
            if d == 0 {
                big = false;
                acc = 0;
                proof {
                    assert(prod_of(h.shape@.take(j + 1))
                        == prod_of(h.shape@.take(j as int)) * 0);
                    assert(prod_of(h.shape@.take(j as int)) * 0 == 0) by (nonlinear_arith);
                }
            } else {
                proof {
                    assert(prod_of(h.shape@.take(j + 1)) > u64::MAX) by (nonlinear_arith)
                        requires
                            prod_of(h.shape@.take(j + 1))
                                == prod_of(h.shape@.take(j as int)) * (h.shape@[j as int] as int),
                            prod_of(h.shape@.take(j as int)) > u64::MAX,
                            h.shape@[j as int] >= 1,
                    ;
                }
            }
        } else {
            proof {
                assert((acc as int) * (d as int) < 0x1_0000_0000_0000_0000_0000_0000_0000_0000)
                    by (nonlinear_arith)
                    requires
                        0 <= acc <= 0xFFFF_FFFF_FFFF_FFFF,
                        0 <= d <= 0x7FFF_FFFF_FFFF_FFFF,
                ;
            }
            let next: u128 = acc * (d as u128);
            proof {
                assert(next as int == prod_of(h.shape@.take(j + 1)));
            }
            if next > 0xFFFF_FFFF_FFFF_FFFF {
                big = true;
            } else {
                acc = next;
            }
        }
        j += 1;
    }
    proof {
        assert(h.shape@.take(dn as int) =~= h.shape@);
    }
    let size = h.descr.size();
    if big {
        proof {
            assert(prod_of(h.shape@) * h.descr.spec_size() > u64::MAX) by (nonlinear_arith)
                requires
                    prod_of(h.shape@) > u64::MAX,
                    h.descr.spec_size() >= 1,
            ;
        }
        return Err(String::from_str("data size does not match shape"));
    }
    proof {
        assert((acc as int) * (size as int) < 0x1_0000_0000_0000_0000_0000_0000_0000_0000)
            by (nonlinear_arith)
            requires
                0 <= acc <= 0xFFFF_FFFF_FFFF_FFFF,
                0 <= size <= 8,
        ;
    }
    let total: u128 = acc * (size as u128);
    if total == (data.len() as u128) {
        Ok(NpyTensor { data, shape: h.shape, dtype: h.descr })
    } else {
        Err(String::from_str("data size does not match shape"))
    }
}

} // verus!
