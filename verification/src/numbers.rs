//! Tolerant numeric coercion: a Wikibase number is either a native JSON
//! number or a decimal string, optionally prefixed with `+`. The decoder
//! keeps the decimal token itself — verified code holds no machine floats —
//! and checks it against the float grammar that Rust's float parser accepts:
//! `sign? ( 'inf' | 'infinity' | 'nan' | digits '.'? digits? exp? | '.'
//! digits exp? )` with `exp = (e|E) sign? digits`, specials matched without
//! regard to case.

use vstd::prelude::*;

use crate::entity::EntityError;
use crate::json::{JsonV, JsonValue};
use crate::strutil::{all_digits, digits_val, is_digit, parse_uint, spec_parse_uint, subvec_chars};

verus! {

// ---------------------------------------------------------------------------
// The float grammar
// ---------------------------------------------------------------------------

/// The character with an ASCII upper-case letter folded to lower case.
pub open spec fn lower_ascii(c: char) -> char {
    if 'A' <= c && c <= 'Z' {
        ((c as nat) + 32) as char
    } else {
        c
    }
}

/// The token with one leading sign removed, if any.
pub open spec fn float_body(s: Seq<char>) -> Seq<char> {
    if s.len() >= 1 && (s[0] == '+' || s[0] == '-') {
        s.drop_first()
    } else {
        s
    }
}

/// Is the (sign-stripped) token one of the special floats `inf`, `infinity`
/// or `nan`, in any case?
pub open spec fn is_special_float(b: Seq<char>) -> bool {
    (b.len() == 3 && lower_ascii(b[0]) == 'i' && lower_ascii(b[1]) == 'n' && lower_ascii(b[2])
        == 'f') || (b.len() == 8 && lower_ascii(b[0]) == 'i' && lower_ascii(b[1]) == 'n'
        && lower_ascii(b[2]) == 'f' && lower_ascii(b[3]) == 'i' && lower_ascii(b[4]) == 'n'
        && lower_ascii(b[5]) == 'i' && lower_ascii(b[6]) == 't' && lower_ascii(b[7]) == 'y') || (
    b.len() == 3 && lower_ascii(b[0]) == 'n' && lower_ascii(b[1]) == 'a' && lower_ascii(b[2])
        == 'n')
}

/// The index of the first occurrence of `c1` or `c2` in `s`, or `s.len()`.
pub open spec fn first_idx2(s: Seq<char>, c1: char, c2: char) -> int
    decreases s.len(),
{
    if s.len() == 0 {
        0
    } else if s[0] == c1 || s[0] == c2 {
        0
    } else {
        1 + first_idx2(s.drop_first(), c1, c2)
    }
}

/// A mantissa: `digits '.'? digits?` or `'.' digits` — digits around at most
/// one dot, at least one digit in all.
pub open spec fn is_mantissa(m: Seq<char>) -> bool {
    let i = first_idx2(m, '.', '.');
    if i == m.len() {
        m.len() >= 1 && all_digits(m)
    } else {
        all_digits(m.subrange(0, i)) && all_digits(m.subrange(i + 1, m.len() as int)) && (i >= 1
            || m.len() - i - 1 >= 1)
    }
}

/// An exponent's tail: an optional sign, then one or more digits.
pub open spec fn is_exponent(e: Seq<char>) -> bool {
    let b = float_body(e);
    b.len() >= 1 && all_digits(b)
}

/// A decimal (non-special) float token after sign stripping: a mantissa,
/// optionally followed by `e`/`E` and an exponent.
pub open spec fn is_decimal_float(b: Seq<char>) -> bool {
    let i = first_idx2(b, 'e', 'E');
    is_mantissa(b.subrange(0, i)) && (i == b.len() || is_exponent(
        b.subrange(i + 1, b.len() as int),
    ))
}

/// The tokens Rust's float parser accepts.
pub open spec fn is_float_literal(s: Seq<char>) -> bool {
    is_special_float(float_body(s)) || is_decimal_float(float_body(s))
}

// ---------------------------------------------------------------------------
// Executable grammar check
// ---------------------------------------------------------------------------

fn lower_char(c: char) -> (r: char)
    ensures
        r == lower_ascii(c),
{
    if 'A' <= c && c <= 'Z' {
        let u = c as u32;
        let l = u + 32;
        proof {
            assert(l == (c as nat) + 32);
        }
        (l as u8) as char
    } else {
        c
    }
}

/// Are all of `v[from..to]` decimal digits?
fn digits_range(v: &[char], from: usize, to: usize) -> (r: bool)
    requires
        from <= to <= v@.len(),
    ensures
        r == all_digits(v@.subrange(from as int, to as int)),
{
    let ghost part = v@.subrange(from as int, to as int);
    let mut i: usize = from;
    while i < to
        invariant
            from <= i <= to <= v@.len(),
            part == v@.subrange(from as int, to as int),
            forall|k: int| from <= k < i ==> is_digit(v@[k]),
        decreases to - i,
    {
        let c = v[i];
        if !('0' <= c && c <= '9') {
            proof {
                assert(part[i - from] == v@[i as int]);
                assert(!all_digits(part));
            }
            return false;
        }
        i = i + 1;
    }
    proof {
        assert(forall|k: int| 0 <= k < part.len() ==> part[k] == v@[k + from]);
    }
    true
}

/// The first index in `v[from..]` holding `c1` or `c2`, or `v.len()`.
fn find2(v: &[char], from: usize, c1: char, c2: char) -> (r: usize)
    requires
        from <= v@.len(),
    ensures
        from <= r <= v@.len(),
        r - from == first_idx2(v@.subrange(from as int, v@.len() as int), c1, c2),
{
    let ghost tail = v@.subrange(from as int, v@.len() as int);
    let mut i: usize = from;
    while i < v.len()
        invariant
            from <= i <= v@.len(),
            tail == v@.subrange(from as int, v@.len() as int),
            first_idx2(tail, c1, c2) == (i - from) + first_idx2(
                v@.subrange(i as int, v@.len() as int),
                c1,
                c2,
            ),
            forall|k: int| from <= k < i ==> v@[k] != c1 && v@[k] != c2,
        decreases v@.len() - i,
    {
        let ghost rest = v@.subrange(i as int, v@.len() as int);
        if v[i] == c1 || v[i] == c2 {
            proof {
                assert(rest[0] == v@[i as int]);
                assert(first_idx2(rest, c1, c2) == 0);
            }
            return i;
        }
        proof {
            assert(rest[0] == v@[i as int]);
            assert(rest.drop_first() =~= v@.subrange(i as int + 1, v@.len() as int));
            assert(first_idx2(rest, c1, c2) == 1 + first_idx2(rest.drop_first(), c1, c2));
        }
        i = i + 1;
    }
    proof {
        assert(v@.subrange(i as int, v@.len() as int).len() == 0);
    }
    i
}

/// Does `v` hold a token of the float grammar?
#[verifier::rlimit(60)]
pub fn is_float_lit(v: &[char]) -> (r: bool)
    ensures
        r == is_float_literal(v@),
{
    let n = v.len();
    let from: usize = if n >= 1 && (v[0] == '+' || v[0] == '-') {
        1
    } else {
        0
    };
    let b = subvec_chars(v, from, n);
    proof {
        assert(b@ =~= float_body(v@));
    }
    // The special floats.
    if b.len() == 3 {
        let c0 = lower_char(b[0]);
        let c1 = lower_char(b[1]);
        let c2 = lower_char(b[2]);
        if (c0 == 'i' && c1 == 'n' && c2 == 'f') || (c0 == 'n' && c1 == 'a' && c2 == 'n') {
            return true;
        }
    }
    if b.len() == 8 {
        if lower_char(b[0]) == 'i' && lower_char(b[1]) == 'n' && lower_char(b[2]) == 'f'
            && lower_char(b[3]) == 'i' && lower_char(b[4]) == 'n' && lower_char(b[5]) == 'i'
            && lower_char(b[6]) == 't' && lower_char(b[7]) == 'y' {
            return true;
        }
    }
    // A decimal float: mantissa, optional exponent.
    let bs = b.as_slice();
    let e_idx = find2(bs, 0, 'e', 'E');
    proof {
        assert(b@.subrange(0, b@.len() as int) =~= b@);
        assert(e_idx as int == first_idx2(b@, 'e', 'E'));
    }
    let m = subvec_chars(bs, 0, e_idx);
    let ghost mm = b@.subrange(0, e_idx as int);
    let ms = m.as_slice();
    let dot = find2(ms, 0, '.', '.');
    proof {
        assert(m@.subrange(0, m@.len() as int) =~= m@);
        assert(dot as int == first_idx2(mm, '.', '.'));
    }
    let mantissa_ok: bool = if dot == m.len() {
        m.len() >= 1 && digits_range(ms, 0, m.len())
    } else {
        let pre_ok = digits_range(ms, 0, dot);
        let post_ok = digits_range(ms, dot + 1, m.len());
        proof {
            assert(m@.subrange(0, dot as int) =~= mm.subrange(0, dot as int));
            assert(m@.subrange(dot as int + 1, m@.len() as int) =~= mm.subrange(
                dot as int + 1,
                mm.len() as int,
            ));
        }
        pre_ok && post_ok && (dot >= 1 || m.len() - dot - 1 >= 1)
    };
    proof {
        assert(m@ =~= mm);
        assert(mantissa_ok == is_mantissa(mm));
    }
    if !mantissa_ok {
        return false;
    }
    if e_idx == b.len() {
        return true;
    }
    // The exponent tail.
    let e_from: usize = if e_idx + 1 < b.len() && (b[e_idx + 1] == '+' || b[e_idx + 1] == '-') {
        e_idx + 2
    } else {
        e_idx + 1
    };
    let ghost etail = b@.subrange(e_idx as int + 1, b@.len() as int);
    proof {
        assert(float_body(etail) =~= b@.subrange(e_from as int, b@.len() as int));
    }
    let r = b.len() - e_from >= 1 && digits_range(bs, e_from, b.len());
    proof {
        assert(r == is_exponent(etail));
    }
    r
}

// ---------------------------------------------------------------------------
// Wikibase numbers
// ---------------------------------------------------------------------------

/// A Wikibase numeric value, kept as the decimal token that denotes it.
/// The token always matches the float grammar; callers that need a machine
/// float parse the token outside the decoder.
#[derive(Debug, Clone, Hash)]
pub struct WbNumber(pub String);

impl WbNumber {
    /// The token matches the float grammar.
    pub open spec fn wf(&self) -> bool {
        is_float_literal(self.0@)
    }
}

impl View for WbNumber {
    type V = Seq<char>;

    open spec fn view(&self) -> Seq<char> {
        self.0@
    }
}

impl DeepView for WbNumber {
    type V = Seq<char>;

    open spec fn deep_view(&self) -> Seq<char> {
        self.0@
    }
}

impl PartialEq for WbNumber {
    fn eq(&self, other: &Self) -> (r: bool) {
        self.0 == other.0
    }
}

impl vstd::std_specs::cmp::PartialEqSpecImpl for WbNumber {
    open spec fn obeys_eq_spec() -> bool {
        true
    }

    open spec fn eq_spec(&self, other: &Self) -> bool {
        self@ == other@
    }
}

/// What numeric coercion yields: the token of a number node, where it
/// matches the grammar; the `+`-stripped text of a string node, where that
/// matches the grammar (`FloatParse` otherwise); `ExpectedNumberString` for
/// any other node.
pub open spec fn spec_parse_wb_number(j: JsonV) -> Result<Seq<char>, EntityError> {
    match j {
        JsonV::Number(t) => if is_float_literal(t) {
            Ok(t)
        } else {
            Err(EntityError::NumberOutOfBounds)
        },
        JsonV::Str(s) => {
            let t = if s.len() >= 1 && s[0] == '+' {
                s.drop_first()
            } else {
                s
            };
            if is_float_literal(t) {
                Ok(t)
            } else {
                Err(EntityError::FloatParse)
            }
        },
        _ => Err(EntityError::ExpectedNumberString),
    }
}

/// Coerce a JSON node to a number: a native number node is taken as it
/// stands; a string node may carry one leading `+` before the float token.
pub fn parse_wb_number(num: &JsonValue) -> (r: Result<WbNumber, EntityError>)
    ensures
        match r {
            Ok(w) => spec_parse_wb_number(num.deep()) == Ok::<Seq<char>, EntityError>(w@)
                && w.wf(),
            Err(e) => spec_parse_wb_number(num.deep()) == Err::<Seq<char>, EntityError>(e),
        },
{
    match num {
        JsonValue::Number(t) => {
            let cs = crate::strutil::chars_of(t.as_str());
            if is_float_lit(cs.as_slice()) {
                Ok(WbNumber(t.clone()))
            } else {
                Err(EntityError::NumberOutOfBounds)
            }
        },
        JsonValue::Str(s) => {
            let cs = crate::strutil::chars_of(s.as_str());
            let from: usize = if cs.len() >= 1 && cs[0] == '+' {
                1
            } else {
                0
            };
            let t = subvec_chars(cs.as_slice(), from, cs.len());
            proof {
                if s@.len() >= 1 && s@[0] == '+' {
                    assert(t@ =~= s@.drop_first());
                } else {
                    assert(t@ =~= s@);
                }
            }
            if is_float_lit(t.as_slice()) {
                Ok(WbNumber(crate::strutil::string_from_chars(t.as_slice())))
            } else {
                Err(EntityError::FloatParse)
            }
        },
        _ => Err(EntityError::ExpectedNumberString),
    }
}

// ---------------------------------------------------------------------------
// Time precision
// ---------------------------------------------------------------------------

/// The precision codes run from 0 (a billion years) to 14 (a second).
pub open spec fn max_time_precision() -> nat {
    14
}

/// Which precision code a numeric token names: the token must be digits with
/// at most a fractional tail (`11`, `11.0`), and its integer part must be a
/// precision code. The fractional digits are discarded, as a float-to-int
/// truncation would.
pub open spec fn spec_time_precision_of(t: Seq<char>) -> Option<u8> {
    let i = first_idx2(t, '.', '.');
    let pre = t.subrange(0, i);
    let frac_ok = i == t.len() || all_digits(t.subrange(i + 1, t.len() as int));
    if pre.len() >= 1 && all_digits(pre) && frac_ok && digits_val(pre) <= max_time_precision() {
        Some(digits_val(pre) as u8)
    } else {
        None
    }
}

/// Read a number as a time precision code.
pub fn time_precision_of(w: &WbNumber) -> (r: Option<u8>)
    ensures
        r == spec_time_precision_of(w@),
{
    let cs = crate::strutil::chars_of(w.0.as_str());
    let v = cs.as_slice();
    let dot = find2(v, 0, '.', '.');
    proof {
        assert(v@.subrange(0, v@.len() as int) =~= v@);
        assert(dot as int == first_idx2(w@, '.', '.'));
    }
    if dot == 0 {
        return None;
    }
    if v[0] == '+' {
        proof {
            let pre = w@.subrange(0, dot as int);
            assert(pre[0] == '+' && !is_digit('+'));
            assert(!all_digits(pre));
        }
        return None;
    }
    let frac_ok: bool = if dot == cs.len() {
        true
    } else {
        digits_range(v, dot + 1, cs.len())
    };
    if !frac_ok {
        return None;
    }
    let ghost pre = w@.subrange(0, dot as int);
    proof {
        assert(pre[0] == w@[0]);
        assert(crate::strutil::uint_body(pre) == pre);
    }
    match parse_uint(v, 0, dot, 14) {
        Some(p) => {
            proof {
                assert(spec_parse_uint(pre, 14) == Some(p as nat));
                assert(all_digits(pre) && digits_val(pre) == p as nat);
            }
            Some(p as u8)
        },
        None => {
            proof {
                assert(spec_parse_uint(pre, 14) is None);
            }
            None
        },
    }
}

} // verus!
