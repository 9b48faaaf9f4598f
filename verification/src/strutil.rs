//! Character-level helpers shared by the identifier, number and time parsers:
//! digit sequences and their numeric value, splitting on a separator
//! character, and building decimal strings.

use vstd::prelude::*;

verus! {

// ---------------------------------------------------------------------------
// Digits
// ---------------------------------------------------------------------------

/// Is `c` a decimal digit?
pub open spec fn is_digit(c: char) -> bool {
    '0' <= c && c <= '9'
}

/// The numeric value of a digit character.
pub open spec fn digit_val(c: char) -> nat {
    (c as nat - '0' as nat) as nat
}

/// Every character of `s` is a decimal digit.
pub open spec fn all_digits(s: Seq<char>) -> bool {
    forall|i: int| 0 <= i < s.len() ==> is_digit(s[i])
}

/// The numeric value of a digit string, most significant digit first.
pub open spec fn digits_val(s: Seq<char>) -> nat
    decreases s.len(),
{
    if s.len() == 0 {
        0
    } else {
        digits_val(s.drop_last()) * 10 + digit_val(s.last())
    }
}

/// Appending further digits can only keep or grow the value.
pub proof fn lemma_digits_val_append(p: Seq<char>, rest: Seq<char>)
    ensures
        digits_val(p + rest) >= digits_val(p),
    decreases rest.len(),
{
    if rest.len() == 0 {
        assert(p + rest =~= p);
    } else {
        lemma_digits_val_append(p, rest.drop_last());
        assert((p + rest).drop_last() =~= p + rest.drop_last());
        assert(digits_val(p + rest) == digits_val(p + rest.drop_last()) * 10 + digit_val(
            (p + rest).last(),
        ));
    }
}

/// What `u64::from_str` (and the narrower unsigned widths, via `max`) accepts
/// and yields: an optional leading `+`, then one or more decimal digits whose
/// value fits the width.
pub open spec fn uint_body(s: Seq<char>) -> Seq<char> {
    if s.len() >= 1 && s[0] == '+' {
        s.drop_first()
    } else {
        s
    }
}

pub open spec fn spec_parse_uint(s: Seq<char>, max: nat) -> Option<nat> {
    let body = uint_body(s);
    if body.len() >= 1 && all_digits(body) && digits_val(body) <= max {
        Some(digits_val(body))
    } else {
        None
    }
}

/// Parse the digit run `s[from..to]` as an unsigned integer no larger than
/// `max`, with `u64::from_str`'s grammar (one optional leading `+`).
pub fn parse_uint(s: &[char], from: usize, to: usize, max: u64) -> (r: Option<u64>)
    requires
        from <= to <= s@.len(),
    ensures
        match r {
            Some(v) => spec_parse_uint(s@.subrange(from as int, to as int), max as nat) == Some(
                v as nat,
            ) && v <= max,
            None => spec_parse_uint(s@.subrange(from as int, to as int), max as nat) is None,
        },
{
    let ghost whole = s@.subrange(from as int, to as int);
    let mut i: usize = from;
    if i < to && s[i] == '+' {
        i = i + 1;
        proof {
            assert(uint_body(whole) =~= s@.subrange(i as int, to as int));
        }
    }
    let ghost body = s@.subrange(i as int, to as int);
    proof {
        assert(uint_body(whole) == body);
    }
    if i == to {
        return None;
    }
    // First pass: every character must be a digit.
    let mut j: usize = i;
    while j < to
        invariant
            from <= i <= j <= to <= s@.len(),
            whole == s@.subrange(from as int, to as int),
            body == s@.subrange(i as int, to as int),
            uint_body(whole) == body,
            body.len() >= 1,
            max <= u64::MAX,
            forall|k: int| i <= k < j ==> is_digit(s@[k]),
        decreases to - j,
    {
        let c = s[j];
        if !('0' <= c && c <= '9') {
            proof {
                assert(body[j - i] == s@[j as int]);
                assert(!is_digit(body[j - i]));
                assert(!all_digits(body));
            }
            return None;
        }
        j = j + 1;
    }
    assert(all_digits(body));
    // Second pass: accumulate, watching the bound.
    let mut acc: u64 = 0;
    let mut k: usize = i;
    while k < to
        invariant
            from <= i <= k <= to <= s@.len(),
            whole == s@.subrange(from as int, to as int),
            body == s@.subrange(i as int, to as int),
            uint_body(whole) == body,
            body.len() >= 1,
            all_digits(body),
            acc <= max,
            max <= u64::MAX,
            acc as nat == digits_val(s@.subrange(i as int, k as int)),
        decreases to - k,
    {
        let ghost pre = s@.subrange(i as int, k as int);
        let c = s[k];
        assert(is_digit(body[k - i]));
        let d: u64 = (c as u32 as u64) - 48;
        proof {
            assert(s@.subrange(i as int, k as int + 1) =~= pre.push(s@[k as int]));
            assert(digits_val(pre.push(s@[k as int])) == digits_val(pre) * 10 + digit_val(
                s@[k as int],
            )) by {
                assert(pre.push(s@[k as int]).drop_last() =~= pre);
            }
            assert(digit_val(s@[k as int]) == d as nat);
        }
        if acc > max / 10 {
            proof {
                let cur = s@.subrange(i as int, k as int + 1);
                assert(digits_val(cur) > max) by {
                    assert(digits_val(cur) == digits_val(pre) * 10 + digit_val(s@[k as int]));
                    assert(digits_val(pre) * 10 >= (max / 10 + 1) * 10);
                };
                assert(body =~= cur + s@.subrange(k as int + 1, to as int));
                lemma_digits_val_append(cur, s@.subrange(k as int + 1, to as int));
            }
            return None;
        }
        let acc10 = acc * 10;
        if d > max - acc10 {
            proof {
                let cur = s@.subrange(i as int, k as int + 1);
                assert(digits_val(cur) == acc as nat * 10 + d as nat);
                assert(digits_val(cur) > max);
                assert(body =~= cur + s@.subrange(k as int + 1, to as int));
                lemma_digits_val_append(cur, s@.subrange(k as int + 1, to as int));
            }
            return None;
        }
        acc = acc10 + d;
        k = k + 1;
    }
    assert(s@.subrange(i as int, k as int) =~= body);
    Some(acc)
}

// ---------------------------------------------------------------------------
// Conversions between &str and Vec<char>
// ---------------------------------------------------------------------------

/// The characters of `s`, as an indexable vector.
pub fn chars_of(s: &str) -> (v: Vec<char>)
    ensures
        v@ == s@,
{
    let n = s.unicode_len();
    let mut v: Vec<char> = Vec::new();
    let mut i: usize = 0;
    while i < n
        invariant
            i <= n,
            n == s@.len(),
            v@ == s@.subrange(0, i as int),
        decreases n - i,
    {
        let c = s.get_char(i);
        v.push(c);
        proof {
            assert(s@.subrange(0, i as int + 1) =~= s@.subrange(0, i as int).push(s@[i as int]));
        }
        i = i + 1;
    }
    proof {
        assert(s@.subrange(0, n as int) =~= s@);
    }
    v
}

/// Relies on `String::push`: appends one character to the string.
#[verifier::external_body]
pub fn string_push_char(s: &mut String, c: char)
    ensures
        final(s)@ == old(s)@.push(c),
{
    s.push(c);
}

/// A `String` holding exactly the characters of `v`.
pub fn string_from_chars(v: &[char]) -> (s: String)
    ensures
        s@ == v@,
{
    let mut s = String::new();
    let mut i: usize = 0;
    while i < v.len()
        invariant
            i <= v@.len(),
            s@ == v@.subrange(0, i as int),
        decreases v@.len() - i,
    {
        string_push_char(&mut s, v[i]);
        proof {
            assert(v@.subrange(0, i as int + 1) =~= v@.subrange(0, i as int).push(v@[i as int]));
        }
        i = i + 1;
    }
    proof {
        assert(v@.subrange(0, v@.len() as int) =~= v@);
    }
    s
}

/// Indexing a vector's deep view reaches the elements' deep views.
pub broadcast proof fn lemma_vec_deep_view_index<T: DeepView>(v: Vec<T>, i: int)
    requires
        0 <= i < v@.len(),
    ensures
        (#[trigger] v.deep_view()[i]) == v@[i].deep_view(),
        v.deep_view().len() == v@.len(),
{
}

/// A vector's deep view has one entry per element.
pub broadcast proof fn lemma_vec_deep_view_len<T: DeepView>(v: Vec<T>)
    ensures
        (#[trigger] v.deep_view()).len() == v@.len(),
{
}

/// A vector of chars always views the same as its deep view.
pub broadcast proof fn lemma_vec_char_deep_view(v: Vec<char>)
    ensures
        #[trigger] v.deep_view() == v@,
{
    assert(v.deep_view() =~= v@);
}

/// Indexing the deep view of a vector of char vectors reaches the views of
/// the inner vectors.
pub broadcast proof fn lemma_vecvec_char_deep_view(v: Vec<Vec<char>>, i: int)
    requires
        0 <= i < v@.len(),
    ensures
        #[trigger] v.deep_view()[i] == v@[i]@,
        v.deep_view().len() == v@.len(),
{
    assert(v@[i].deep_view() =~= v@[i]@);
}

/// The characters `v[from..to]`, copied out.
pub fn subvec_chars(v: &[char], from: usize, to: usize) -> (r: Vec<char>)
    requires
        from <= to <= v@.len(),
    ensures
        r@ == v@.subrange(from as int, to as int),
{
    let mut r: Vec<char> = Vec::new();
    let mut i: usize = from;
    while i < to
        invariant
            from <= i <= to <= v@.len(),
            r@ == v@.subrange(from as int, i as int),
        decreases to - i,
    {
        r.push(v[i]);
        proof {
            assert(v@.subrange(from as int, i as int + 1) =~= v@.subrange(
                from as int,
                i as int,
            ).push(v@[i as int]));
        }
        i = i + 1;
    }
    r
}

/// Do two strings hold the same characters?
pub fn str_eq(a: &str, b: &str) -> (r: bool)
    ensures
        r == (a@ == b@),
{
    let na = a.unicode_len();
    let nb = b.unicode_len();
    if na != nb {
        return false;
    }
    let mut i: usize = 0;
    while i < na
        invariant
            i <= na,
            na == a@.len(),
            na == b@.len(),
            forall|k: int| 0 <= k < i ==> a@[k] == b@[k],
        decreases na - i,
    {
        if a.get_char(i) != b.get_char(i) {
            return false;
        }
        i = i + 1;
    }
    proof {
        assert(a@ =~= b@);
    }
    true
}

// ---------------------------------------------------------------------------
// Splitting on a separator character
// ---------------------------------------------------------------------------

/// The segments of `s` between occurrences of `sep`, as `str::split` yields
/// them: always at least one segment, empty segments kept.
pub open spec fn spec_split(s: Seq<char>, sep: char) -> Seq<Seq<char>>
    decreases s.len(),
{
    if s.len() == 0 {
        seq![Seq::empty()]
    } else if s.last() == sep {
        spec_split(s.drop_last(), sep).push(Seq::empty())
    } else {
        let r = spec_split(s.drop_last(), sep);
        r.update(r.len() - 1, r.last().push(s.last()))
    }
}

/// A split always yields at least one segment.
pub proof fn lemma_split_len(s: Seq<char>, sep: char)
    ensures
        spec_split(s, sep).len() >= 1,
    decreases s.len(),
{
    if s.len() > 0 {
        lemma_split_len(s.drop_last(), sep);
    }
}

/// Does `s` contain the character `c`?
pub open spec fn has_char(s: Seq<char>, c: char) -> bool {
    exists|i: int| 0 <= i < s.len() && s[i] == c
}

/// A string without the separator splits into itself alone.
pub proof fn lemma_split_no_sep(s: Seq<char>, sep: char)
    requires
        !has_char(s, sep),
    ensures
        spec_split(s, sep) == seq![s],
    decreases s.len(),
{
    if s.len() == 0 {
        assert(seq![Seq::<char>::empty()] =~~= seq![s]);
    } else {
        assert(s[s.len() - 1] != sep);
        let dd = s.drop_last();
        assert(forall|i: int| 0 <= i < dd.len() ==> #[trigger] dd[i] == s[i]);
        lemma_split_no_sep(dd, sep);
        let r = spec_split(dd, sep);
        assert(r == seq![dd]);
        assert(r.update(r.len() - 1, r.last().push(s.last())) =~~= seq![dd.push(s.last())]);
        assert(dd.push(s.last()) =~= s);
    }
}

/// Splitting `a ++ sep ++ b` where `a` is separator-free yields `a` and then
/// the segments of `b`.
pub proof fn lemma_split_concat(a: Seq<char>, b: Seq<char>, sep: char)
    requires
        !has_char(a, sep),
    ensures
        spec_split(a + seq![sep] + b, sep) == seq![a] + spec_split(b, sep),
    decreases b.len(),
{
    if b.len() == 0 {
        let s = a + seq![sep] + b;
        assert(s.len() == a.len() + 1);
        assert(s.last() == sep);
        assert(s.drop_last() =~= a);
        lemma_split_no_sep(a, sep);
        assert(spec_split(s, sep) == seq![a].push(Seq::<char>::empty()));
        assert(spec_split(b, sep) == seq![Seq::<char>::empty()]);
        assert(seq![a].push(Seq::<char>::empty()) =~~= seq![a] + spec_split(b, sep));
    } else {
        let s = a + seq![sep] + b;
        let b1 = b.drop_last();
        let s1 = a + seq![sep] + b1;
        assert(s.drop_last() =~= s1);
        assert(s.last() == b.last());
        lemma_split_concat(a, b1, sep);
        lemma_split_len(b1, sep);
        if b.last() == sep {
            assert(spec_split(s, sep) == spec_split(s1, sep).push(Seq::<char>::empty()));
            assert(spec_split(b, sep) == spec_split(b1, sep).push(Seq::<char>::empty()));
            assert((seq![a] + spec_split(b1, sep)).push(Seq::<char>::empty()) =~~= seq![a] + (
            spec_split(b1, sep).push(Seq::<char>::empty())));
        } else {
            let r1 = spec_split(s1, sep);
            let rb = spec_split(b1, sep);
            assert(r1 == seq![a] + rb);
            assert(r1.len() == 1 + rb.len());
            assert(r1.last() == rb.last());
            assert(spec_split(s, sep) == r1.update(r1.len() - 1, r1.last().push(b.last())));
            assert(spec_split(b, sep) == rb.update(rb.len() - 1, rb.last().push(b.last())));
            assert(r1.update(r1.len() - 1, r1.last().push(b.last())) =~~= seq![a] + rb.update(
                rb.len() - 1,
                rb.last().push(b.last()),
            ));
        }
    }
}

/// The segments of a split, re-joined with the separator between them.
pub open spec fn join_sep(parts: Seq<Seq<char>>, sep: char) -> Seq<char>
    decreases parts.len(),
{
    if parts.len() == 0 {
        Seq::empty()
    } else if parts.len() == 1 {
        parts[0]
    } else {
        join_sep(parts.drop_last(), sep) + seq![sep] + parts.last()
    }
}

/// Splitting, then joining, gives the string back; and no segment of a split
/// contains the separator.
pub proof fn lemma_split_join(s: Seq<char>, sep: char)
    ensures
        join_sep(spec_split(s, sep), sep) == s,
        forall|i: int|
            0 <= i < spec_split(s, sep).len() ==> !has_char(
                #[trigger] spec_split(s, sep)[i],
                sep,
            ),
    decreases s.len(),
{
    lemma_split_len(s, sep);
    if s.len() == 0 {
        assert(join_sep(spec_split(s, sep), sep) =~= s);
    } else {
        let dd = s.drop_last();
        lemma_split_join(dd, sep);
        lemma_split_len(dd, sep);
        let rd = spec_split(dd, sep);
        if s.last() == sep {
            let r = rd.push(Seq::<char>::empty());
            assert(spec_split(s, sep) == r);
            assert(r.drop_last() =~= rd);
            assert(r.len() >= 2);
            assert(join_sep(r, sep) == join_sep(rd, sep) + seq![sep] + Seq::<char>::empty());
            assert(join_sep(r, sep) =~= s);
            assert(forall|i: int| 0 <= i < rd.len() ==> #[trigger] r[i] == rd[i]);
        } else {
            let r = rd.update(rd.len() - 1, rd.last().push(s.last()));
            assert(spec_split(s, sep) == r);
            if rd.len() == 1 {
                assert(join_sep(rd, sep) == rd[0]);
                assert(join_sep(r, sep) == r[0]);
                assert(r[0] == rd[0].push(s.last()));
                assert(join_sep(r, sep) =~= s);
            } else {
                assert(r.drop_last() =~= rd.drop_last());
                assert(join_sep(r, sep) == join_sep(rd.drop_last(), sep) + seq![sep]
                    + rd.last().push(s.last()));
                assert(join_sep(rd, sep) == join_sep(rd.drop_last(), sep) + seq![sep] + rd.last());
                assert(join_sep(r, sep) =~= join_sep(rd, sep).push(s.last()));
                assert(join_sep(r, sep) =~= s);
            }
            assert(forall|i: int| 0 <= i < r.len() - 1 ==> #[trigger] r[i] == rd[i]);
            assert(!has_char(rd.last(), sep) && s.last() != sep ==> !has_char(
                rd.last().push(s.last()),
                sep,
            )) by {
                if !has_char(rd.last(), sep) && s.last() != sep {
                    let e = rd.last().push(s.last());
                    assert(forall|i: int|
                        0 <= i < e.len() ==> #[trigger] e[i] != sep) by {
                        assert(forall|i: int|
                            0 <= i < rd.last().len() ==> #[trigger] rd.last()[i] != sep);
                    }
                }
            }
        }
    }
}

/// Split `v` at every occurrence of `sep`.
pub fn split_char(v: &[char], sep: char) -> (r: Vec<Vec<char>>)
    ensures
        r.deep_view() == spec_split(v@, sep),
{
    let mut done: Vec<Vec<char>> = Vec::new();
    let mut cur: Vec<char> = Vec::new();
    let mut i: usize = 0;
    proof {
        assert(done.deep_view() =~= Seq::<Seq<char>>::empty());
        assert(spec_split(v@.subrange(0, 0), sep) =~~= done.deep_view().push(cur@));
    }
    while i < v.len()
        invariant
            i <= v@.len(),
            spec_split(v@.subrange(0, i as int), sep) == done.deep_view().push(cur@),
        decreases v@.len() - i,
    {
        let ghost pre = v@.subrange(0, i as int);
        let ghost step = v@.subrange(0, i as int + 1);
        proof {
            assert(step.drop_last() =~= pre);
            assert(step.last() == v@[i as int]);
        }
        if v[i] == sep {
            let ghost old_dv = done.deep_view();
            done.push(cur);
            proof {
                assert(done.deep_view() =~~= old_dv.push(cur@));
                assert(spec_split(step, sep) =~~= spec_split(pre, sep).push(Seq::empty()));
                assert(spec_split(step, sep) =~~= done.deep_view().push(Seq::empty()));
            }
            cur = Vec::new();
            proof {
                assert(cur@ =~= Seq::<char>::empty());
            }
        } else {
            let ghost old_cur = cur@;
            cur.push(v[i]);
            proof {
                let r = spec_split(pre, sep);
                assert(r == done.deep_view().push(old_cur));
                assert(r.len() >= 1 && r.last() == old_cur);
                assert(spec_split(step, sep) == r.update(r.len() - 1, r.last().push(v@[i as int])));
                assert(r.update(r.len() - 1, old_cur.push(v@[i as int])) =~~= done.deep_view().push(
                    old_cur.push(v@[i as int]),
                ));
                assert(cur@ == old_cur.push(v@[i as int]));
            }
        }
        i = i + 1;
    }
    proof {
        assert(v@.subrange(0, v@.len() as int) =~= v@);
    }
    let ghost old_dv = done.deep_view();
    let ghost last_cur = cur@;
    done.push(cur);
    proof {
        assert(done.deep_view() =~~= old_dv.push(last_cur));
    }
    done
}

// ---------------------------------------------------------------------------
// Decimal rendering
// ---------------------------------------------------------------------------

/// The digit character for value `d` (`d < 10`).
pub open spec fn digit_char(d: nat) -> char {
    (d + 48) as char
}

/// The canonical decimal rendering of `n`: no sign, no leading zeros.
pub open spec fn dec_str(n: nat) -> Seq<char>
    decreases n,
{
    if n < 10 {
        seq![digit_char(n)]
    } else {
        dec_str(n / 10).push(digit_char(n % 10))
    }
}

/// The canonical decimal rendering is made of digits, is never empty, has no
/// superfluous leading zero, and denotes the number it was made from.
pub proof fn lemma_dec_str_digits(n: nat)
    ensures
        all_digits(dec_str(n)),
        dec_str(n).len() >= 1,
        digits_val(dec_str(n)) == n,
        n >= 1 ==> dec_str(n)[0] != '0',
    decreases n,
{
    if n < 10 {
        let c = digit_char(n);
        assert(dec_str(n) == seq![c]);
        assert(is_digit(c));
        assert(digit_val(c) == n);
        assert(seq![c].drop_last() =~= Seq::<char>::empty());
        assert(digits_val(Seq::<char>::empty()) == 0);
        assert(digits_val(seq![c]) == n);
    } else {
        lemma_dec_str_digits(n / 10);
        vstd::arithmetic::div_mod::lemma_fundamental_div_mod(n as int, 10);
        let d = dec_str(n / 10);
        let c = digit_char(n % 10);
        assert(dec_str(n) == d.push(c));
        assert(d.push(c).drop_last() =~= d);
        assert(is_digit(c) && digit_val(c) == n % 10);
        assert(digits_val(d.push(c)) == digits_val(d) * 10 + digit_val(c));
        assert(forall|i: int|
            0 <= i < d.push(c).len() ==> is_digit(
                #[trigger] d.push(c)[i],
            ));
        assert(dec_str(n)[0] == d[0]);
    }
}

/// A digit string with no superfluous leading zero is the canonical rendering
/// of its value.
pub proof fn lemma_dec_of_val(d: Seq<char>)
    requires
        all_digits(d),
        d.len() >= 1,
        d.len() > 1 ==> d[0] != '0',
    ensures
        dec_str(digits_val(d)) == d,
    decreases d.len(),
{
    if d.len() == 1 {
        let c = d[0];
        assert(d =~= seq![c]);
        assert(seq![c].drop_last() =~= Seq::<char>::empty());
        assert(digits_val(Seq::<char>::empty()) == 0);
        assert(digits_val(d) == digit_val(c));
        assert(digit_val(c) < 10);
        assert(digit_char(digit_val(c)) == c);
        assert(dec_str(digits_val(d)) == seq![c]);
    } else {
        let dd = d.drop_last();
        let c = d.last();
        let v = digits_val(d);
        let vv = digits_val(dd);
        assert(forall|i: int| 0 <= i < dd.len() ==> is_digit(#[trigger] dd[i]));
        lemma_digits_val_lower_bound(dd);
        assert(v == vv * 10 + digit_val(c));
        vstd::arithmetic::div_mod::lemma_fundamental_div_mod_converse(
            v as int,
            10,
            vv as int,
            digit_val(c) as int,
        );
        assert(v / 10 == vv && v % 10 == digit_val(c));
        assert(v >= 10);
        lemma_dec_of_val(dd);
        assert(dec_str(v) == dec_str(vv).push(digit_char(digit_val(c))));
        assert(digit_char(digit_val(c)) == c);
        assert(dd.push(c) =~= d);
    }
}

/// A digit string that does not start with `'0'` denotes a positive number.
pub proof fn lemma_digits_val_lower_bound(d: Seq<char>)
    requires
        all_digits(d),
        d.len() >= 1,
        d[0] != '0',
    ensures
        digits_val(d) >= 1,
    decreases d.len(),
{
    if d.len() == 1 {
        assert(digits_val(d) == digits_val(d.drop_last()) * 10 + digit_val(d.last()));
        assert(d.last() == d[0]);
        assert(digit_val(d[0]) >= 1);
    } else {
        let dd = d.drop_last();
        assert(forall|i: int| 0 <= i < dd.len() ==> is_digit(#[trigger] dd[i]));
        lemma_digits_val_lower_bound(dd);
        assert(digits_val(d) == digits_val(dd) * 10 + digit_val(d.last()));
    }
}

/// Append the decimal rendering of `n` to `s`.
pub fn push_dec_u64(s: &mut String, n: u64)
    ensures
        final(s)@ == old(s)@ + dec_str(n as nat),
{
    let mut rev: Vec<char> = Vec::new();
    let mut m: u64 = n;
    if m == 0 {
        string_push_char(s, '0');
        proof {
            assert(old(s)@ + dec_str(0) =~= old(s)@.push(digit_char(0)));
            assert(digit_char(0) == '0');
        }
        return ;
    }
    while m > 0
        invariant
            m > 0 ==> dec_str(n as nat) =~= dec_str(m as nat) + rev@.reverse(),
            m == 0 ==> dec_str(n as nat) =~= rev@.reverse(),
        decreases m,
    {
        let d = m % 10;
        let c = (48 + d as u32) as u8 as char;
        proof {
            assert(c == digit_char((m % 10) as nat));
        }
        let ghost old_rev = rev@;
        rev.push(c);
        proof {
            assert(rev@.reverse() =~= seq![c] + old_rev.reverse());
            if m >= 10 {
                assert(dec_str(m as nat) == dec_str((m as nat) / 10).push(digit_char(
                    (m as nat) % 10,
                )));
                assert(dec_str((m as nat) / 10).push(c) + old_rev.reverse() =~= dec_str(
                    (m as nat) / 10,
                ) + (seq![c] + old_rev.reverse()));
                assert((m / 10) as nat == (m as nat) / 10);
            } else {
                assert(dec_str(m as nat) =~= seq![c]);
                assert(seq![c] + old_rev.reverse() =~= dec_str(m as nat) + old_rev.reverse());
            }
        }
        m = m / 10;
    }
    let mut i: usize = rev.len();
    let ghost fin = old(s)@ + rev@.reverse();
    while i > 0
        invariant
            i <= rev@.len(),
            s@ == fin.subrange(0, fin.len() - i),
            fin.len() == old(s)@.len() + rev@.len(),
            fin == old(s)@ + rev@.reverse(),
        decreases i,
    {
        i = i - 1;
        string_push_char(s, rev[i]);
        proof {
            assert(fin[fin.len() - i - 1] == rev@.reverse()[rev@.len() - i - 1]);
            assert(rev@.reverse()[rev@.len() - i - 1] == rev@[i as int]);
            assert(fin.subrange(0, fin.len() - i) =~= fin.subrange(0, fin.len() - i - 1).push(
                fin[fin.len() - i - 1],
            ));
        }
    }
    proof {
        assert(fin.subrange(0, fin.len() as int) =~= fin);
    }
}

} // verus!
