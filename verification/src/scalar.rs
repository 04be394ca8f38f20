//! Scalar field values: the closed set of element types a placeholder can
//! carry, their textual forms, and the proof that parsing a rendered value
//! gives the value back.

use vstd::prelude::*;

verus! {

/// The scalar types a field (or a collection element) may declare.
#[derive(Debug, Clone, Copy, PartialEq, Eq, Structural)]
pub enum ScalarType {
    Str,
    Bool,
    Char,
    U8,
    U16,
    U32,
    U64,
    I8,
    I16,
    I32,
    I64,
}

/// A scalar value as carried by a parsed record.
#[derive(Debug, Clone, PartialEq, Eq)]
pub enum ScalarValue {
    Str(String),
    Bool(bool),
    Char(char),
    U8(u8),
    U16(u16),
    U32(u32),
    U64(u64),
    I8(i8),
    I16(i16),
    I32(i32),
    I64(i64),
}

/// The mathematical form of a scalar value: text, flag, character, or an
/// unbounded integer whose range the scalar type constrains.
pub enum ScalarV {
    Txt(Seq<char>),
    Flag(bool),
    Ch(char),
    IntV(int),
}

impl View for ScalarValue {
    type V = ScalarV;

    open spec fn view(&self) -> ScalarV {
        match self {
            ScalarValue::Str(s) => ScalarV::Txt(s@),
            ScalarValue::Bool(b) => ScalarV::Flag(*b),
            ScalarValue::Char(c) => ScalarV::Ch(*c),
            ScalarValue::U8(n) => ScalarV::IntV(*n as int),
            ScalarValue::U16(n) => ScalarV::IntV(*n as int),
            ScalarValue::U32(n) => ScalarV::IntV(*n as int),
            ScalarValue::U64(n) => ScalarV::IntV(*n as int),
            ScalarValue::I8(n) => ScalarV::IntV(*n as int),
            ScalarValue::I16(n) => ScalarV::IntV(*n as int),
            ScalarValue::I32(n) => ScalarV::IntV(*n as int),
            ScalarValue::I64(n) => ScalarV::IntV(*n as int),
        }
    }
}

/// Whether a mathematical scalar fits the given scalar type, range included.
pub open spec fn scalar_well_typed(v: ScalarV, k: ScalarType) -> bool {
    match (k, v) {
        (ScalarType::Str, ScalarV::Txt(_)) => true,
        (ScalarType::Bool, ScalarV::Flag(_)) => true,
        (ScalarType::Char, ScalarV::Ch(_)) => true,
        (ScalarType::U8, ScalarV::IntV(i)) => 0 <= i <= u8::MAX,
        (ScalarType::U16, ScalarV::IntV(i)) => 0 <= i <= u16::MAX,
        (ScalarType::U32, ScalarV::IntV(i)) => 0 <= i <= u32::MAX,
        (ScalarType::U64, ScalarV::IntV(i)) => 0 <= i <= u64::MAX,
        (ScalarType::I8, ScalarV::IntV(i)) => i8::MIN <= i <= i8::MAX,
        (ScalarType::I16, ScalarV::IntV(i)) => i16::MIN <= i <= i16::MAX,
        (ScalarType::I32, ScalarV::IntV(i)) => i32::MIN <= i <= i32::MAX,
        (ScalarType::I64, ScalarV::IntV(i)) => i64::MIN <= i <= i64::MAX,
        _ => false,
    }
}

// ---------------------------------------------------------------------------
// Decimal digits
// ---------------------------------------------------------------------------

/// Whether `c` is an ASCII decimal digit.
pub open spec fn is_digit(c: char) -> bool {
    0x30 <= c as u32 <= 0x39
}

/// The digit value of an ASCII decimal digit.
pub open spec fn digit_val(c: char) -> nat {
    (c as u32 - 0x30) as nat
}

/// The ASCII digit character for a value below ten.
pub open spec fn digit_char(d: nat) -> char {
    if d == 0 {
        '0'
    } else if d == 1 {
        '1'
    } else if d == 2 {
        '2'
    } else if d == 3 {
        '3'
    } else if d == 4 {
        '4'
    } else if d == 5 {
        '5'
    } else if d == 6 {
        '6'
    } else if d == 7 {
        '7'
    } else if d == 8 {
        '8'
    } else {
        '9'
    }
}

/// The decimal digit string of a nonnegative integer, without sign and
/// without leading zeros (except for zero itself).
pub open spec fn dec_digits(n: nat) -> Seq<char>
    decreases n,
{
    if n < 10 {
        seq![digit_char(n)]
    } else {
        dec_digits(n / 10).push(digit_char(n % 10))
    }
}

/// Whether every character of `s` is an ASCII decimal digit.
pub open spec fn all_digits(s: Seq<char>) -> bool {
    forall|i: int| 0 <= i < s.len() ==> is_digit(#[trigger] s[i])
}

/// The value of a digit string (most significant first).
pub open spec fn digits_val(s: Seq<char>) -> nat
    decreases s.len(),
{
    if s.len() == 0 {
        0
    } else {
        digits_val(s.drop_last()) * 10 + digit_val(s.last())
    }
}

/// The textual form of an integer: decimal digits, `'-'`-prefixed when
/// negative.
pub open spec fn int_str(i: int) -> Seq<char> {
    if i < 0 {
        seq!['-'] + dec_digits((-i) as nat)
    } else {
        dec_digits(i as nat)
    }
}

/// The value a digit string denotes when read as an unsigned integer with an
/// optional leading `'+'`, as `u64::from_str` and friends accept it.
pub open spec fn parse_uint(s: Seq<char>) -> Option<nat> {
    let t = if s.len() > 0 && s[0] == '+' {
        s.subrange(1, s.len() as int)
    } else {
        s
    };
    if t.len() > 0 && all_digits(t) {
        Some(digits_val(t))
    } else {
        None
    }
}

/// The value a digit string denotes when read as a signed integer with an
/// optional leading `'+'` or `'-'`.
pub open spec fn parse_sint(s: Seq<char>) -> Option<int> {
    if s.len() > 0 && (s[0] == '+' || s[0] == '-') {
        let t = s.subrange(1, s.len() as int);
        if t.len() > 0 && all_digits(t) {
            Some(
                if s[0] == '-' {
                    -(digits_val(t) as int)
                } else {
                    digits_val(t) as int
                },
            )
        } else {
            None
        }
    } else if s.len() > 0 && all_digits(s) {
        Some(digits_val(s) as int)
    } else {
        None
    }
}

/// The characters of the boolean tokens.
pub open spec fn true_chars() -> Seq<char> {
    seq!['t', 'r', 'u', 'e']
}

pub open spec fn false_chars() -> Seq<char> {
    seq!['f', 'a', 'l', 's', 'e']
}

/// What a span of captured text denotes under a scalar type, if anything:
/// text is taken as is, a character must stand alone, a boolean must be one
/// of its two tokens, and an integer must be in the type's range.
pub open spec fn scalar_parse(k: ScalarType, s: Seq<char>) -> Option<ScalarV> {
    match k {
        ScalarType::Str => Some(ScalarV::Txt(s)),
        ScalarType::Char => if s.len() == 1 {
            Some(ScalarV::Ch(s[0]))
        } else {
            None
        },
        ScalarType::Bool => if s == true_chars() {
            Some(ScalarV::Flag(true))
        } else if s == false_chars() {
            Some(ScalarV::Flag(false))
        } else {
            None
        },
        ScalarType::U8 | ScalarType::U16 | ScalarType::U32 | ScalarType::U64 => match parse_uint(
            s,
        ) {
            Some(n) => if scalar_well_typed(ScalarV::IntV(n as int), k) {
                Some(ScalarV::IntV(n as int))
            } else {
                None
            },
            None => None,
        },
        ScalarType::I8 | ScalarType::I16 | ScalarType::I32 | ScalarType::I64 => match parse_sint(
            s,
        ) {
            Some(i) => if scalar_well_typed(ScalarV::IntV(i), k) {
                Some(ScalarV::IntV(i))
            } else {
                None
            },
            None => None,
        },
    }
}

/// The canonical textual form of a scalar value.
pub open spec fn scalar_render(v: ScalarV) -> Seq<char> {
    match v {
        ScalarV::Txt(t) => t,
        ScalarV::Ch(c) => seq![c],
        ScalarV::Flag(b) => if b {
            true_chars()
        } else {
            false_chars()
        },
        ScalarV::IntV(i) => int_str(i),
    }
}

/// The default value of a scalar type, as `Default` gives it for the
/// corresponding Rust type.
pub open spec fn scalar_default(k: ScalarType) -> ScalarV {
    match k {
        ScalarType::Str => ScalarV::Txt(Seq::empty()),
        ScalarType::Bool => ScalarV::Flag(false),
        ScalarType::Char => ScalarV::Ch('\0'),
        _ => ScalarV::IntV(0),
    }
}

// ---------------------------------------------------------------------------
// Properties of the decimal forms
// ---------------------------------------------------------------------------

/// A rendered decimal is nonempty, all digits, starts with a digit, and
/// denotes the number it was rendered from.
pub proof fn lemma_dec_digits(n: nat)
    ensures
        dec_digits(n).len() >= 1,
        all_digits(dec_digits(n)),
        digits_val(dec_digits(n)) == n,
    decreases n,
{
    if n < 10 {
        let s = dec_digits(n);
        assert(s == seq![digit_char(n)]);
        assert(is_digit(s[0]));
        assert(s.drop_last() =~= Seq::<char>::empty());
        assert(digits_val(Seq::<char>::empty()) == 0);
        assert(s.last() == digit_char(n));
        assert(digits_val(s) == 0 * 10 + digit_val(digit_char(n)));
        assert(digit_val(digit_char(n)) == n);
    } else {
        lemma_dec_digits(n / 10);
        let p = dec_digits(n / 10);
        let s = p.push(digit_char(n % 10));
        assert(s.drop_last() =~= p);
        assert(s.last() == digit_char(n % 10));
        assert(digit_val(digit_char(n % 10)) == n % 10);
        assert(forall|i: int| 0 <= i < s.len() ==> is_digit(#[trigger] s[i])) by {
            assert(forall|i: int| 0 <= i < p.len() ==> is_digit(#[trigger] p[i]));
            assert(forall|i: int| 0 <= i < s.len() - 1 ==> s[i] == p[i]);
        }
        assert(digits_val(s) == digits_val(p) * 10 + n % 10);
        assert((n / 10) * 10 + n % 10 == n) by {
            vstd::arithmetic::div_mod::lemma_fundamental_div_mod(n as int, 10);
        }
    }
}

/// Parsing the decimal form of a nonnegative integer, unsigned reading.
pub proof fn lemma_parse_uint_of_dec(n: nat)
    ensures
        parse_uint(dec_digits(n)) == Some(n),
{
    lemma_dec_digits(n);
    let s = dec_digits(n);
    assert(is_digit(s[0]));
    assert(s[0] != '+');
}

/// Parsing the decimal form of an integer, signed reading.
pub proof fn lemma_parse_sint_of_int_str(i: int)
    ensures
        parse_sint(int_str(i)) == Some(i),
{
    if i < 0 {
        lemma_dec_digits((-i) as nat);
        let d = dec_digits((-i) as nat);
        let s = seq!['-'] + d;
        assert(s[0] == '-');
        assert(s.subrange(1, s.len() as int) =~= d);
        assert(parse_sint(s) == Some(-(digits_val(d) as int)));
    } else {
        lemma_dec_digits(i as nat);
        let s = dec_digits(i as nat);
        assert(is_digit(s[0]));
        assert(s[0] != '+' && s[0] != '-');
    }
}

/// Parsing a canonically rendered scalar gives the scalar back.
pub proof fn lemma_scalar_round_trip(k: ScalarType, v: ScalarV)
    requires
        scalar_well_typed(v, k),
    ensures
        scalar_parse(k, scalar_render(v)) == Some(v),
{
    match v {
        ScalarV::Txt(_) => {},
        ScalarV::Ch(_) => {},
        ScalarV::Flag(b) => {
            if b {
                assert(true_chars() != false_chars()) by {
                    assert(true_chars().len() != false_chars().len());
                }
            } else {
                assert(false_chars() != true_chars()) by {
                    assert(true_chars().len() != false_chars().len());
                }
            }
        },
        ScalarV::IntV(i) => {
            match k {
                ScalarType::U8 | ScalarType::U16 | ScalarType::U32 | ScalarType::U64 => {
                    lemma_parse_uint_of_dec(i as nat);
                },
                _ => {
                    lemma_parse_sint_of_int_str(i);
                },
            }
        },
    }
}

/// A rendered boolean token is never empty; a rendered integer is never
/// empty; only `Txt` can render to the empty sequence.
pub proof fn lemma_scalar_render_empty(v: ScalarV)
    ensures
        scalar_render(v).len() == 0 ==> v is Txt,
{
    match v {
        ScalarV::IntV(i) => {
            if i < 0 {
            } else {
                lemma_dec_digits(i as nat);
            }
        },
        _ => {},
    }
}

// ---------------------------------------------------------------------------
// Executable parsing
// ---------------------------------------------------------------------------

/// Executable form of `is_digit`.
fn is_digit_char(c: char) -> (b: bool)
    ensures
        b == is_digit(c),
{
    let n = c as u32;
    0x30 <= n && n <= 0x39
}

/// Reads the digit run `v[from..]` as a `u64`; `None` when the run is empty,
/// holds a non-digit, or denotes a value above `u64::MAX`.
fn parse_digits_u64(v: &Vec<char>, from: usize) -> (r: Option<u64>)
    requires
        from <= v@.len(),
    ensures
        ({
            let t = v@.subrange(from as int, v@.len() as int);
            match r {
                Some(n) => t.len() > 0 && all_digits(t) && digits_val(t) == n,
                None => !(t.len() > 0 && all_digits(t) && digits_val(t) <= u64::MAX),
            }
        }),
{
    let ghost t = v@.subrange(from as int, v@.len() as int);
    if from == v.len() {
        return None;
    }
    let mut acc: u64 = 0;
    let mut i: usize = from;
    while i < v.len()
        invariant
            from <= i <= v@.len(),
            t == v@.subrange(from as int, v@.len() as int),
            v@.len() <= usize::MAX,
            all_digits(v@.subrange(from as int, i as int)),
            acc == digits_val(v@.subrange(from as int, i as int)),
        decreases v@.len() - i,
    {
        let c = v[i];
        if !is_digit_char(c) {
            proof {
                assert(t[i - from] == c);
                assert(!all_digits(t));
            }
            return None;
        }
        let d: u64 = (c as u32 - 0x30) as u64;
        proof {
            assert(d == digit_val(c));
            assert(d <= 9);
        }
        if acc > (u64::MAX - d) / 10 {
            proof {
                let pre = v@.subrange(from as int, i as int);
                let pre1 = v@.subrange(from as int, i as int + 1);
                assert(pre1.drop_last() =~= pre);
                assert(pre1.last() == c);
                assert(digits_val(pre1) == acc * 10 + d);
                vstd::arithmetic::div_mod::lemma_fundamental_div_mod(
                    u64::MAX - d,
                    10,
                );
                assert(acc * 10 + d > u64::MAX);
                lemma_digits_val_prefix_le(t, i - from + 1);
                assert(pre1 =~= t.subrange(0, i - from + 1));
                assert(digits_val(t) >= digits_val(pre1));
            }
            return None;
        }
        proof {
            vstd::arithmetic::div_mod::lemma_fundamental_div_mod(u64::MAX - d, 10);
            assert(acc * 10 + d <= u64::MAX);
            let pre = v@.subrange(from as int, i as int);
            let pre1 = v@.subrange(from as int, i as int + 1);
            assert(pre1.drop_last() =~= pre);
            assert(pre1.last() == c);
        }
        acc = acc * 10 + d;
        i = i + 1;
        proof {
            let pre = v@.subrange(from as int, i as int - 1);
            let pre1 = v@.subrange(from as int, i as int);
            assert(pre1 =~= pre.push(c));
            assert forall|m: int| 0 <= m < pre1.len() implies is_digit(#[trigger] pre1[m]) by {
                if m < pre.len() {
                    assert(pre1[m] == pre[m]);
                } else {
                    assert(pre1[m] == c);
                }
            }
        }
    }
    proof {
        assert(v@.subrange(from as int, i as int) =~= t);
    }
    Some(acc)
}

/// The value of a digit string is at least the value of any of its prefixes.
proof fn lemma_digits_val_prefix_le(s: Seq<char>, k: int)
    requires
        0 <= k <= s.len(),
    ensures
        digits_val(s) >= digits_val(s.subrange(0, k)),
    decreases s.len() - k,
{
    if k == s.len() {
        assert(s.subrange(0, k) =~= s);
    } else {
        lemma_digits_val_prefix_le(s, k + 1);
        let p = s.subrange(0, k);
        let p1 = s.subrange(0, k + 1);
        assert(p1.drop_last() =~= p);
        assert(digits_val(p1) == digits_val(p) * 10 + digit_val(p1.last()));
        assert(digits_val(p) * 10 >= digits_val(p));
    }
}

/// Reads the whole of `v` as an unsigned integer with an optional leading
/// `'+'`; `None` when malformed or above `u64::MAX`.
pub fn parse_u64_chars(v: &Vec<char>) -> (r: Option<u64>)
    ensures
        ({
            match (r, parse_uint(v@)) {
                (Some(n), Some(m)) => m == n,
                (None, Some(m)) => m > u64::MAX,
                (None, None) => true,
                _ => false,
            }
        }),
{
    if v.len() > 0 && v[0] == '+' {
        let r = parse_digits_u64(v, 1);
        proof {
            assert(v@.subrange(1, v@.len() as int).len() == v@.len() - 1);
        }
        r
    } else {
        let r = parse_digits_u64(v, 0);
        proof {
            assert(v@.subrange(0, v@.len() as int) =~= v@);
        }
        r
    }
}

/// Reads the whole of `v` as a signed integer with an optional leading sign;
/// `None` when malformed or outside `[i64::MIN, i64::MAX]`.
pub fn parse_i64_chars(v: &Vec<char>) -> (r: Option<i64>)
    ensures
        ({
            match (r, parse_sint(v@)) {
                (Some(n), Some(m)) => m == n as int,
                (None, Some(m)) => m > i64::MAX || m < i64::MIN,
                (None, None) => true,
                _ => false,
            }
        }),
{
    if v.len() > 0 && (v[0] == '+' || v[0] == '-') {
        let neg = v[0] == '-';
        let mag = parse_digits_u64(v, 1);
        proof {
            assert(v@.subrange(1, v@.len() as int).len() == v@.len() - 1);
        }
        match mag {
            Some(n) => {
                if neg {
                    if n <= 9223372036854775807u64 {
                        Some(-(n as i64))
                    } else if n == 9223372036854775808u64 {
                        Some(i64::MIN)
                    } else {
                        None
                    }
                } else {
                    if n <= 9223372036854775807u64 {
                        Some(n as i64)
                    } else {
                        None
                    }
                }
            },
            None => {
                proof {
                    let t = v@.subrange(1, v@.len() as int);
                    if t.len() > 0 && all_digits(t) {
                        assert(digits_val(t) > u64::MAX);
                    }
                }
                None
            },
        }
    } else {
        let r = parse_digits_u64(v, 0);
        proof {
            assert(v@.subrange(0, v@.len() as int) =~= v@);
        }
        match r {
            Some(n) => {
                if n <= 9223372036854775807u64 {
                    Some(n as i64)
                } else {
                    None
                }
            },
            None => {
                proof {
                    if v@.len() > 0 && all_digits(v@) {
                        assert(digits_val(v@) > u64::MAX);
                    }
                }
                None
            },
        }
    }
}

/// The view of an optional scalar value.
pub open spec fn opt_scalar_view(r: Option<ScalarValue>) -> Option<ScalarV> {
    match r {
        Some(v) => Some(v@),
        None => None,
    }
}

/// Whether a scalar value is carried in the representation that the given
/// scalar type uses.
pub open spec fn value_fits(v: ScalarValue, k: ScalarType) -> bool {
    match (v, k) {
        (ScalarValue::Str(_), ScalarType::Str) => true,
        (ScalarValue::Bool(_), ScalarType::Bool) => true,
        (ScalarValue::Char(_), ScalarType::Char) => true,
        (ScalarValue::U8(_), ScalarType::U8) => true,
        (ScalarValue::U16(_), ScalarType::U16) => true,
        (ScalarValue::U32(_), ScalarType::U32) => true,
        (ScalarValue::U64(_), ScalarType::U64) => true,
        (ScalarValue::I8(_), ScalarType::I8) => true,
        (ScalarValue::I16(_), ScalarType::I16) => true,
        (ScalarValue::I32(_), ScalarType::I32) => true,
        (ScalarValue::I64(_), ScalarType::I64) => true,
        _ => false,
    }
}

/// Whether two scalar values are carried in the same representation.
pub open spec fn same_variant(a: ScalarValue, b: ScalarValue) -> bool {
    match (a, b) {
        (ScalarValue::Str(_), ScalarValue::Str(_)) => true,
        (ScalarValue::Bool(_), ScalarValue::Bool(_)) => true,
        (ScalarValue::Char(_), ScalarValue::Char(_)) => true,
        (ScalarValue::U8(_), ScalarValue::U8(_)) => true,
        (ScalarValue::U16(_), ScalarValue::U16(_)) => true,
        (ScalarValue::U32(_), ScalarValue::U32(_)) => true,
        (ScalarValue::U64(_), ScalarValue::U64(_)) => true,
        (ScalarValue::I8(_), ScalarValue::I8(_)) => true,
        (ScalarValue::I16(_), ScalarValue::I16(_)) => true,
        (ScalarValue::I32(_), ScalarValue::I32(_)) => true,
        (ScalarValue::I64(_), ScalarValue::I64(_)) => true,
        _ => false,
    }
}

/// Parses a captured span under a scalar type (executable form of
/// `scalar_parse`).
pub fn scalar_parse_exec(k: ScalarType, span: &Vec<char>) -> (r: Option<ScalarValue>)
    ensures
        opt_scalar_view(r) == scalar_parse(k, span@),
        r is Some ==> value_fits(r->0, k),
{
    match k {
        ScalarType::Str => {
            let s = crate::chars::string_of(span);
            Some(ScalarValue::Str(s))
        },
        ScalarType::Char => {
            if span.len() == 1 {
                Some(ScalarValue::Char(span[0]))
            } else {
                None
            }
        },
        ScalarType::Bool => {
            if span.len() == 4 && span[0] == 't' && span[1] == 'r' && span[2] == 'u' && span[3]
                == 'e' {
                proof {
                    assert(span@ =~= true_chars());
                }
                Some(ScalarValue::Bool(true))
            } else if span.len() == 5 && span[0] == 'f' && span[1] == 'a' && span[2] == 'l'
                && span[3] == 's' && span[4] == 'e' {
                proof {
                    assert(span@ =~= false_chars());
                }
                Some(ScalarValue::Bool(false))
            } else {
                proof {
                    if span@ == true_chars() {
                        assert(span@.len() == 4);
                        assert(span@[0] == 't' && span@[1] == 'r' && span@[2] == 'u' && span@[3]
                            == 'e');
                    }
                    if span@ == false_chars() {
                        assert(span@.len() == 5);
                        assert(span@[0] == 'f' && span@[1] == 'a' && span@[2] == 'l' && span@[3]
                            == 's' && span@[4] == 'e');
                    }
                }
                None
            }
        },
        ScalarType::U8 => {
            match parse_u64_chars(span) {
                Some(n) => if n <= u8::MAX as u64 {
                    Some(ScalarValue::U8(n as u8))
                } else {
                    None
                },
                None => None,
            }
        },
        ScalarType::U16 => {
            match parse_u64_chars(span) {
                Some(n) => if n <= u16::MAX as u64 {
                    Some(ScalarValue::U16(n as u16))
                } else {
                    None
                },
                None => None,
            }
        },
        ScalarType::U32 => {
            match parse_u64_chars(span) {
                Some(n) => if n <= u32::MAX as u64 {
                    Some(ScalarValue::U32(n as u32))
                } else {
                    None
                },
                None => None,
            }
        },
        ScalarType::U64 => {
            match parse_u64_chars(span) {
                Some(n) => Some(ScalarValue::U64(n)),
                None => None,
            }
        },
        ScalarType::I8 => {
            match parse_i64_chars(span) {
                Some(n) => if i8::MIN as i64 <= n && n <= i8::MAX as i64 {
                    Some(ScalarValue::I8(n as i8))
                } else {
                    None
                },
                None => None,
            }
        },
        ScalarType::I16 => {
            match parse_i64_chars(span) {
                Some(n) => if i16::MIN as i64 <= n && n <= i16::MAX as i64 {
                    Some(ScalarValue::I16(n as i16))
                } else {
                    None
                },
                None => None,
            }
        },
        ScalarType::I32 => {
            match parse_i64_chars(span) {
                Some(n) => if i32::MIN as i64 <= n && n <= i32::MAX as i64 {
                    Some(ScalarValue::I32(n as i32))
                } else {
                    None
                },
                None => None,
            }
        },
        ScalarType::I64 => {
            match parse_i64_chars(span) {
                Some(n) => Some(ScalarValue::I64(n)),
                None => None,
            }
        },
    }
}

// ---------------------------------------------------------------------------
// Executable rendering
// ---------------------------------------------------------------------------

/// Executable form of `digit_char`.
fn digit_char_exec(d: u64) -> (c: char)
    requires
        d < 10,
    ensures
        c == digit_char(d as nat),
{
    if d == 0 {
        '0'
    } else if d == 1 {
        '1'
    } else if d == 2 {
        '2'
    } else if d == 3 {
        '3'
    } else if d == 4 {
        '4'
    } else if d == 5 {
        '5'
    } else if d == 6 {
        '6'
    } else if d == 7 {
        '7'
    } else if d == 8 {
        '8'
    } else {
        '9'
    }
}

/// The decimal digit characters of `n` (executable form of `dec_digits`).
pub fn render_u64_chars(n: u64) -> (out: Vec<char>)
    ensures
        out@ == dec_digits(n as nat),
    decreases n,
{
    if n < 10 {
        let mut out: Vec<char> = Vec::new();
        out.push(digit_char_exec(n));
        proof {
            assert(out@ =~= dec_digits(n as nat));
        }
        out
    } else {
        let mut out = render_u64_chars(n / 10);
        out.push(digit_char_exec(n % 10));
        out
    }
}

/// The decimal digit characters of `i`, `'-'`-prefixed when negative
/// (executable form of `int_str`).
pub fn render_i64_chars(i: i64) -> (out: Vec<char>)
    ensures
        out@ == int_str(i as int),
{
    if i >= 0 {
        render_u64_chars(i as u64)
    } else {
        let mag: u64 = if i == i64::MIN {
            9223372036854775808u64
        } else {
            (-i) as u64
        };
        proof {
            assert(mag as int == -(i as int));
        }
        let digits = render_u64_chars(mag);
        let mut out: Vec<char> = Vec::new();
        out.push('-');
        let mut k: usize = 0;
        while k < digits.len()
            invariant
                k <= digits@.len(),
                out@ == seq!['-'] + digits@.subrange(0, k as int),
            decreases digits@.len() - k,
        {
            out.push(digits[k]);
            k = k + 1;
            proof {
                assert(out@ =~= seq!['-'] + digits@.subrange(0, k as int));
            }
        }
        proof {
            assert(digits@.subrange(0, digits@.len() as int) =~= digits@);
            assert(out@ =~= int_str(i as int));
        }
        out
    }
}

/// The canonical character form of a scalar value (executable form of
/// `scalar_render`).
pub fn scalar_render_exec(v: &ScalarValue) -> (out: Vec<char>)
    ensures
        out@ == scalar_render(v@),
{
    match v {
        ScalarValue::Str(s) => crate::chars::chars_of(s.as_str()),
        ScalarValue::Char(c) => {
            let mut out: Vec<char> = Vec::new();
            out.push(*c);
            proof {
                assert(out@ =~= seq![*c]);
            }
            out
        },
        ScalarValue::Bool(b) => {
            let mut out: Vec<char> = Vec::new();
            if *b {
                out.push('t');
                out.push('r');
                out.push('u');
                out.push('e');
                proof {
                    assert(out@ =~= true_chars());
                }
            } else {
                out.push('f');
                out.push('a');
                out.push('l');
                out.push('s');
                out.push('e');
                proof {
                    assert(out@ =~= false_chars());
                }
            }
            out
        },
        ScalarValue::U8(n) => render_u64_chars(*n as u64),
        ScalarValue::U16(n) => render_u64_chars(*n as u64),
        ScalarValue::U32(n) => render_u64_chars(*n as u64),
        ScalarValue::U64(n) => render_u64_chars(*n),
        ScalarValue::I8(n) => render_i64_chars(*n as i64),
        ScalarValue::I16(n) => render_i64_chars(*n as i64),
        ScalarValue::I32(n) => render_i64_chars(*n as i64),
        ScalarValue::I64(n) => render_i64_chars(*n),
    }
}

/// The default scalar value of a type (executable form of `scalar_default`).
pub fn scalar_default_exec(k: ScalarType) -> (out: ScalarValue)
    ensures
        out@ == scalar_default(k),
        scalar_well_typed(out@, k),
        value_fits(out, k),
{
    match k {
        ScalarType::Str => ScalarValue::Str(String::new()),
        ScalarType::Bool => ScalarValue::Bool(false),
        ScalarType::Char => ScalarValue::Char('\0'),
        ScalarType::U8 => ScalarValue::U8(0),
        ScalarType::U16 => ScalarValue::U16(0),
        ScalarType::U32 => ScalarValue::U32(0),
        ScalarType::U64 => ScalarValue::U64(0),
        ScalarType::I8 => ScalarValue::I8(0),
        ScalarType::I16 => ScalarValue::I16(0),
        ScalarType::I32 => ScalarValue::I32(0),
        ScalarType::I64 => ScalarValue::I64(0),
    }
}

// ---------------------------------------------------------------------------
// Ordering, for sorted (set) collections
// ---------------------------------------------------------------------------

/// Lexicographic order on character sequences, by code point.
pub open spec fn lex_lt(a: Seq<char>, b: Seq<char>) -> bool
    decreases a.len(),
{
    if b.len() == 0 {
        false
    } else if a.len() == 0 {
        true
    } else if (a[0] as u32) < (b[0] as u32) {
        true
    } else if a[0] == b[0] {
        lex_lt(a.drop_first(), b.drop_first())
    } else {
        false
    }
}

/// Strict order on scalar values of one type: numeric for integers, by code
/// point for characters and text, `false` before `true` for booleans.
pub open spec fn scalar_lt(a: ScalarV, b: ScalarV) -> bool {
    match (a, b) {
        (ScalarV::IntV(x), ScalarV::IntV(y)) => x < y,
        (ScalarV::Ch(x), ScalarV::Ch(y)) => (x as u32) < (y as u32),
        (ScalarV::Flag(x), ScalarV::Flag(y)) => !x && y,
        (ScalarV::Txt(x), ScalarV::Txt(y)) => lex_lt(x, y),
        _ => false,
    }
}

/// Executable form of `lex_lt` on character vectors, comparing from `i`.
fn lex_lt_from(a: &Vec<char>, b: &Vec<char>, i: usize) -> (r: bool)
    requires
        i <= a@.len(),
        i <= b@.len(),
    ensures
        r == lex_lt(
            a@.subrange(i as int, a@.len() as int),
            b@.subrange(i as int, b@.len() as int),
        ),
    decreases a@.len() - i,
{
    let ghost sa = a@.subrange(i as int, a@.len() as int);
    let ghost sb = b@.subrange(i as int, b@.len() as int);
    if i == b.len() {
        false
    } else if i == a.len() {
        true
    } else if (a[i] as u32) < (b[i] as u32) {
        true
    } else if a[i] == b[i] {
        proof {
            assert(sa.drop_first() =~= a@.subrange(i + 1, a@.len() as int));
            assert(sb.drop_first() =~= b@.subrange(i + 1, b@.len() as int));
        }
        lex_lt_from(a, b, i + 1)
    } else {
        false
    }
}

/// Executable form of `scalar_lt`; values of different shapes are unordered.
pub fn scalar_lt_exec(a: &ScalarValue, b: &ScalarValue) -> (r: bool)
    requires
        same_variant(*a, *b),
    ensures
        r == scalar_lt(a@, b@),
{
    match (a, b) {
        (ScalarValue::Str(x), ScalarValue::Str(y)) => {
            let xv = crate::chars::chars_of(x.as_str());
            let yv = crate::chars::chars_of(y.as_str());
            proof {
                assert(xv@.subrange(0, xv@.len() as int) =~= xv@);
                assert(yv@.subrange(0, yv@.len() as int) =~= yv@);
            }
            lex_lt_from(&xv, &yv, 0)
        },
        (ScalarValue::Char(x), ScalarValue::Char(y)) => (*x as u32) < (*y as u32),
        (ScalarValue::Bool(x), ScalarValue::Bool(y)) => !*x && *y,
        (ScalarValue::U8(x), ScalarValue::U8(y)) => x < y,
        (ScalarValue::U16(x), ScalarValue::U16(y)) => x < y,
        (ScalarValue::U32(x), ScalarValue::U32(y)) => x < y,
        (ScalarValue::U64(x), ScalarValue::U64(y)) => x < y,
        (ScalarValue::I8(x), ScalarValue::I8(y)) => x < y,
        (ScalarValue::I16(x), ScalarValue::I16(y)) => x < y,
        (ScalarValue::I32(x), ScalarValue::I32(y)) => x < y,
        (ScalarValue::I64(x), ScalarValue::I64(y)) => x < y,
        _ => {
            proof {
                assert(!scalar_lt(a@, b@));
            }
            false
        },
    }
}

/// Scalar equality (executable, against the mathematical views).
pub fn scalar_eq_exec(a: &ScalarValue, b: &ScalarValue) -> (r: bool)
    requires
        same_variant(*a, *b),
    ensures
        r == (a@ == b@),
{
    match (a, b) {
        (ScalarValue::Str(x), ScalarValue::Str(y)) => x.eq(y),
        (ScalarValue::Char(x), ScalarValue::Char(y)) => x == y,
        (ScalarValue::Bool(x), ScalarValue::Bool(y)) => x == y,
        (ScalarValue::U8(x), ScalarValue::U8(y)) => x == y,
        (ScalarValue::U16(x), ScalarValue::U16(y)) => x == y,
        (ScalarValue::U32(x), ScalarValue::U32(y)) => x == y,
        (ScalarValue::U64(x), ScalarValue::U64(y)) => x == y,
        (ScalarValue::I8(x), ScalarValue::I8(y)) => x == y,
        (ScalarValue::I16(x), ScalarValue::I16(y)) => x == y,
        (ScalarValue::I32(x), ScalarValue::I32(y)) => x == y,
        (ScalarValue::I64(x), ScalarValue::I64(y)) => x == y,
        _ => {
            proof {
                assert(a@ != b@);
            }
            false
        },
    }
}

} // verus!
