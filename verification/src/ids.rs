//! The five identifier kinds used by Wikidata — items, properties, lexemes,
//! lexeme forms and lexeme senses — with their canonical string grammar:
//! parsing, formatting, and the round-trip laws relating the two.

use vstd::prelude::*;

use crate::strutil::{
    all_digits, chars_of, dec_str, digits_val, has_char, lemma_dec_of_val, lemma_dec_str_digits,
    lemma_split_concat, lemma_split_join, lemma_split_len, lemma_split_no_sep,
    lemma_vec_char_deep_view, lemma_vecvec_char_deep_view, parse_uint, push_dec_u64, spec_parse_uint,
    spec_split, string_push_char, subvec_chars, split_char, uint_body,
};

pub mod consts;

verus! {

/// An error parsing an identifier.
#[derive(Debug, Copy, Clone, PartialEq, Eq, Structural)]
pub enum IdParseError {
    /// The numeric part could not be read as an unsigned integer of the
    /// identifier's width.
    UnparseableNumber,
    /// The identifier did not start with the letter its kind demands.
    InvalidPrefix,
    /// The identifier had more dash-separated parts than its kind allows.
    TooManyParts,
    /// The identifier had fewer dash-separated parts than its kind needs.
    TooFewParts,
}

/// A Wikidata item ID, written `Q<n>`.
#[derive(Debug, Copy, Clone, PartialEq, Eq, Hash, PartialOrd, Ord, Structural)]
pub struct Qid(pub u64);

/// A Wikidata property ID, written `P<n>`.
#[derive(Debug, Copy, Clone, PartialEq, Eq, Hash, PartialOrd, Ord, Structural)]
pub struct Pid(pub u64);

/// A Wikidata lexeme ID, written `L<n>`.
#[derive(Debug, Copy, Clone, PartialEq, Eq, Hash, PartialOrd, Ord, Structural)]
pub struct Lid(pub u64);

/// A Wikidata lexeme form ID, written `L<n>-F<m>`.
#[derive(Debug, Copy, Clone, PartialEq, Eq, Hash, PartialOrd, Ord, Structural)]
pub struct Fid(pub Lid, pub u16);

/// A Wikidata lexeme sense ID, written `L<n>-S<m>`.
#[derive(Debug, Copy, Clone, PartialEq, Eq, Hash, PartialOrd, Ord, Structural)]
pub struct Sid(pub Lid, pub u16);

/// The three kinds of ID an entity itself can carry.
#[derive(Debug, Copy, Clone, PartialEq, Eq, Hash, Structural)]
pub enum WikiId {
    /// A Qid, identifying an item.
    EntityId(Qid),
    /// A Pid, identifying a property.
    PropertyId(Pid),
    /// An Lid, identifying a lexeme.
    LexemeId(Lid),
}

impl DeepView for Qid {
    type V = Qid;

    open spec fn deep_view(&self) -> Qid {
        *self
    }
}

impl DeepView for Pid {
    type V = Pid;

    open spec fn deep_view(&self) -> Pid {
        *self
    }
}

impl DeepView for Lid {
    type V = Lid;

    open spec fn deep_view(&self) -> Lid {
        *self
    }
}

impl DeepView for Fid {
    type V = Fid;

    open spec fn deep_view(&self) -> Fid {
        *self
    }
}

impl DeepView for Sid {
    type V = Sid;

    open spec fn deep_view(&self) -> Sid {
        *self
    }
}

impl DeepView for WikiId {
    type V = WikiId;

    open spec fn deep_view(&self) -> WikiId {
        *self
    }
}

// ---------------------------------------------------------------------------
// The grammar, in specification form
// ---------------------------------------------------------------------------

/// The canonical text of a single-letter identifier: the letter, then the
/// number in decimal.
pub open spec fn spec_id_str(letter: char, n: u64) -> Seq<char> {
    seq![letter] + dec_str(n as nat)
}

/// The canonical text of a form or sense identifier:
/// `L<lexeme>-<marker><sub>`.
pub open spec fn spec_subid_str(marker: char, lexeme: u64, sub: u16) -> Seq<char> {
    seq!['L'] + dec_str(lexeme as nat) + seq!['-', marker] + dec_str(sub as nat)
}

/// What parsing a single-letter identifier yields: the first character must
/// be the kind's letter, and the rest must read as a `u64`.
pub open spec fn spec_id_from_str(s: Seq<char>, letter: char) -> Result<u64, IdParseError> {
    if s.len() == 0 || s[0] != letter {
        Err(IdParseError::InvalidPrefix)
    } else {
        match spec_parse_uint(s.drop_first(), u64::MAX as nat) {
            Some(v) => Ok(v as u64),
            None => Err(IdParseError::UnparseableNumber),
        }
    }
}

/// What parsing a form or sense identifier yields: `L`, a lexeme number, one
/// dash, the marker letter, and a 16-bit sub-identifier.
pub open spec fn spec_subid_from_str(s: Seq<char>, marker: char) -> Result<
    (u64, u16),
    IdParseError,
> {
    if s.len() == 0 || s[0] != 'L' {
        Err(IdParseError::InvalidPrefix)
    } else {
        let parts = spec_split(s.drop_first(), '-');
        match spec_parse_uint(parts[0], u64::MAX as nat) {
            None => Err(IdParseError::UnparseableNumber),
            Some(lexeme) => if parts.len() < 2 {
                Err(IdParseError::TooFewParts)
            } else {
                let p2 = parts[1];
                if p2.len() == 0 || p2[0] != marker {
                    Err(IdParseError::InvalidPrefix)
                } else {
                    match spec_parse_uint(p2.drop_first(), u16::MAX as nat) {
                        None => Err(IdParseError::UnparseableNumber),
                        Some(sub) => if parts.len() > 2 {
                            Err(IdParseError::TooManyParts)
                        } else {
                            Ok((lexeme as u64, sub as u16))
                        },
                    }
                }
            },
        }
    }
}

/// What parsing an entity identifier yields: dispatch on the first letter.
pub open spec fn spec_wiki_id_from_str(s: Seq<char>) -> Result<WikiId, IdParseError> {
    if s.len() == 0 {
        Err(IdParseError::InvalidPrefix)
    } else if s[0] == 'Q' {
        match spec_id_from_str(s, 'Q') {
            Ok(n) => Ok(WikiId::EntityId(Qid(n))),
            Err(e) => Err(e),
        }
    } else if s[0] == 'P' {
        match spec_id_from_str(s, 'P') {
            Ok(n) => Ok(WikiId::PropertyId(Pid(n))),
            Err(e) => Err(e),
        }
    } else if s[0] == 'L' {
        match spec_id_from_str(s, 'L') {
            Ok(n) => Ok(WikiId::LexemeId(Lid(n))),
            Err(e) => Err(e),
        }
    } else {
        Err(IdParseError::InvalidPrefix)
    }
}

/// The URL under which Wikidata serves the JSON document of an identifier.
pub open spec fn spec_json_url(letter: char, n: u64) -> Seq<char> {
    "https://www.wikidata.org/wiki/Special:EntityData/"@ + seq![letter] + dec_str(n as nat)
        + ".json"@
}

// ---------------------------------------------------------------------------
// Shared executable pieces
// ---------------------------------------------------------------------------

fn id_from_str_u64(x: &str, letter: char) -> (r: Result<u64, IdParseError>)
    ensures
        r == spec_id_from_str(x@, letter),
{
    let cs = chars_of(x);
    if cs.len() == 0 {
        return Err(IdParseError::InvalidPrefix);
    }
    if cs[0] != letter {
        return Err(IdParseError::InvalidPrefix);
    }
    proof {
        assert(x@.drop_first() =~= cs@.subrange(1, cs@.len() as int));
    }
    match parse_uint(cs.as_slice(), 1, cs.len(), u64::MAX) {
        Some(n) => Ok(n),
        None => Err(IdParseError::UnparseableNumber),
    }
}

fn subid_from_str_raw(x: &str, marker: char) -> (r: Result<(u64, u16), IdParseError>)
    ensures
        r == spec_subid_from_str(x@, marker),
{
    broadcast use lemma_vec_char_deep_view, lemma_vecvec_char_deep_view;

    let cs = chars_of(x);
    if cs.len() == 0 {
        return Err(IdParseError::InvalidPrefix);
    }
    if cs[0] != 'L' {
        return Err(IdParseError::InvalidPrefix);
    }
    let rest = subvec_chars(cs.as_slice(), 1, cs.len());
    proof {
        assert(rest@ =~= x@.drop_first());
    }
    let parts = split_char(rest.as_slice(), '-');
    proof {
        lemma_split_len(rest@, '-');
        assert(parts@.len() == spec_split(x@.drop_first(), '-').len());
    }
    let ghost sparts = spec_split(x@.drop_first(), '-');
    let p0 = &parts[0];
    proof {
        assert(p0@ == sparts[0]);
        assert(p0@.subrange(0, p0@.len() as int) =~= p0@);
    }
    let lexeme = match parse_uint(p0.as_slice(), 0, p0.len(), u64::MAX) {
        Some(n) => n,
        None => {
            return Err(IdParseError::UnparseableNumber);
        },
    };
    if parts.len() < 2 {
        return Err(IdParseError::TooFewParts);
    }
    let p2 = &parts[1];
    proof {
        assert(p2@ == sparts[1]);
    }
    if p2.len() == 0 {
        return Err(IdParseError::InvalidPrefix);
    }
    if p2[0] != marker {
        return Err(IdParseError::InvalidPrefix);
    }
    proof {
        assert(p2@.drop_first() =~= p2@.subrange(1, p2@.len() as int));
    }
    let sub = match parse_uint(p2.as_slice(), 1, p2.len(), 65535) {
        Some(n) => n,
        None => {
            return Err(IdParseError::UnparseableNumber);
        },
    };
    if parts.len() > 2 {
        return Err(IdParseError::TooManyParts);
    }
    Ok((lexeme, sub as u16))
}

fn render_id(letter: char, n: u64) -> (r: String)
    ensures
        r@ == spec_id_str(letter, n),
{
    let mut s = String::new();
    string_push_char(&mut s, letter);
    push_dec_u64(&mut s, n);
    proof {
        assert(Seq::<char>::empty().push(letter) =~= seq![letter]);
    }
    s
}

fn render_subid(marker: char, lexeme: u64, sub: u16) -> (r: String)
    ensures
        r@ == spec_subid_str(marker, lexeme, sub),
{
    let mut s = String::new();
    string_push_char(&mut s, 'L');
    push_dec_u64(&mut s, lexeme);
    string_push_char(&mut s, '-');
    string_push_char(&mut s, marker);
    push_dec_u64(&mut s, sub as u64);
    proof {
        assert(Seq::<char>::empty().push('L') =~= seq!['L']);
        assert((seq!['L'] + dec_str(lexeme as nat)).push('-').push(marker) =~= seq!['L'] + dec_str(
            lexeme as nat,
        ) + seq!['-', marker]);
    }
    s
}

fn render_json_url(letter: char, n: u64) -> (r: String)
    ensures
        r@ == spec_json_url(letter, n),
{
    let mut s = String::from_str("https://www.wikidata.org/wiki/Special:EntityData/");
    string_push_char(&mut s, letter);
    push_dec_u64(&mut s, n);
    s.append(".json");
    proof {
        assert("https://www.wikidata.org/wiki/Special:EntityData/"@.push(letter)
            =~= "https://www.wikidata.org/wiki/Special:EntityData/"@ + seq![letter]);
    }
    s
}

// ---------------------------------------------------------------------------
// The public identifier API
// ---------------------------------------------------------------------------

impl Qid {
    /// Parse an item identifier from its `Q<n>` form.
    pub fn from_str(x: &str) -> (r: Result<Self, IdParseError>)
        ensures
            r == match spec_id_from_str(x@, 'Q') {
                Ok(n) => Ok::<Qid, IdParseError>(Qid(n)),
                Err(e) => Err::<Qid, IdParseError>(e),
            },
    {
        match id_from_str_u64(x, 'Q') {
            Ok(n) => Ok(Qid(n)),
            Err(e) => Err(e),
        }
    }

    /// The canonical `Q<n>` form.
    pub fn to_string(&self) -> (r: String)
        ensures
            r@ == spec_id_str('Q', self.0),
    {
        render_id('Q', self.0)
    }

    /// The URL to access data about the item on Wikidata.
    pub fn json_url(&self) -> (r: String)
        ensures
            r@ == spec_json_url('Q', self.0),
    {
        render_json_url('Q', self.0)
    }

    /// If the item is a commonly used unit on Wikidata, its unit suffix.
    pub fn unit_suffix(self) -> (r: Option<&'static str>)
        ensures
            consts::spec_unit_suffix(self, r),
    {
        consts::unit_suffix(self)
    }
}

impl Pid {
    /// Parse a property identifier from its `P<n>` form.
    pub fn from_str(x: &str) -> (r: Result<Self, IdParseError>)
        ensures
            r == match spec_id_from_str(x@, 'P') {
                Ok(n) => Ok::<Pid, IdParseError>(Pid(n)),
                Err(e) => Err::<Pid, IdParseError>(e),
            },
    {
        match id_from_str_u64(x, 'P') {
            Ok(n) => Ok(Pid(n)),
            Err(e) => Err(e),
        }
    }

    /// The canonical `P<n>` form.
    pub fn to_string(&self) -> (r: String)
        ensures
            r@ == spec_id_str('P', self.0),
    {
        render_id('P', self.0)
    }

    /// The URL to access data about the property on Wikidata.
    pub fn json_url(&self) -> (r: String)
        ensures
            r@ == spec_json_url('P', self.0),
    {
        render_json_url('P', self.0)
    }
}

impl Lid {
    /// Parse a lexeme identifier from its `L<n>` form.
    pub fn from_str(x: &str) -> (r: Result<Self, IdParseError>)
        ensures
            r == match spec_id_from_str(x@, 'L') {
                Ok(n) => Ok::<Lid, IdParseError>(Lid(n)),
                Err(e) => Err::<Lid, IdParseError>(e),
            },
    {
        match id_from_str_u64(x, 'L') {
            Ok(n) => Ok(Lid(n)),
            Err(e) => Err(e),
        }
    }

    /// The canonical `L<n>` form.
    pub fn to_string(&self) -> (r: String)
        ensures
            r@ == spec_id_str('L', self.0),
    {
        render_id('L', self.0)
    }

    /// The URL to access data about the lexeme on Wikidata.
    pub fn json_url(&self) -> (r: String)
        ensures
            r@ == spec_json_url('L', self.0),
    {
        render_json_url('L', self.0)
    }
}

impl Fid {
    /// Parse a form identifier from its `L<n>-F<m>` form.
    pub fn from_str(x: &str) -> (r: Result<Self, IdParseError>)
        ensures
            r == match spec_subid_from_str(x@, 'F') {
                Ok(p) => Ok::<Fid, IdParseError>(Fid(Lid(p.0), p.1)),
                Err(e) => Err::<Fid, IdParseError>(e),
            },
    {
        match subid_from_str_raw(x, 'F') {
            Ok((l, n)) => Ok(Fid(Lid(l), n)),
            Err(e) => Err(e),
        }
    }

    /// The canonical `L<n>-F<m>` form.
    pub fn to_string(&self) -> (r: String)
        ensures
            r@ == spec_subid_str('F', self.0.0, self.1),
    {
        render_subid('F', self.0.0, self.1)
    }
}

impl Sid {
    /// Parse a sense identifier from its `L<n>-S<m>` form.
    pub fn from_str(x: &str) -> (r: Result<Self, IdParseError>)
        ensures
            r == match spec_subid_from_str(x@, 'S') {
                Ok(p) => Ok::<Sid, IdParseError>(Sid(Lid(p.0), p.1)),
                Err(e) => Err::<Sid, IdParseError>(e),
            },
    {
        match subid_from_str_raw(x, 'S') {
            Ok((l, n)) => Ok(Sid(Lid(l), n)),
            Err(e) => Err(e),
        }
    }

    /// The canonical `L<n>-S<m>` form.
    pub fn to_string(&self) -> (r: String)
        ensures
            r@ == spec_subid_str('S', self.0.0, self.1),
    {
        render_subid('S', self.0.0, self.1)
    }
}

impl WikiId {
    /// Parse an entity identifier: a Qid, Pid or Lid by its first letter.
    pub fn from_str(x: &str) -> (r: Result<Self, IdParseError>)
        ensures
            r == spec_wiki_id_from_str(x@),
    {
        let cs = chars_of(x);
        if cs.len() == 0 {
            return Err(IdParseError::InvalidPrefix);
        }
        let c = cs[0];
        if c == 'Q' {
            match Qid::from_str(x) {
                Ok(q) => Ok(WikiId::EntityId(q)),
                Err(e) => Err(e),
            }
        } else if c == 'P' {
            match Pid::from_str(x) {
                Ok(p) => Ok(WikiId::PropertyId(p)),
                Err(e) => Err(e),
            }
        } else if c == 'L' {
            match Lid::from_str(x) {
                Ok(l) => Ok(WikiId::LexemeId(l)),
                Err(e) => Err(e),
            }
        } else {
            Err(IdParseError::InvalidPrefix)
        }
    }
}

// ---------------------------------------------------------------------------
// Round-trip laws
// ---------------------------------------------------------------------------

/// A digit run in canonical form: at least one digit, nothing else, and no
/// superfluous leading zero.
pub open spec fn canonical_digits(d: Seq<char>) -> bool {
    all_digits(d) && d.len() >= 1 && (d.len() > 1 ==> d[0] != '0')
}

/// Formatting any single-letter identifier and parsing it back yields the
/// identifier again.
pub proof fn lemma_id_parse_format(letter: char, n: u64)
    requires
        letter != '+',
    ensures
        spec_id_from_str(spec_id_str(letter, n), letter) == Ok::<u64, IdParseError>(n),
{
    lemma_dec_str_digits(n as nat);
    let s = spec_id_str(letter, n);
    assert(s[0] == letter);
    assert(s.drop_first() =~= dec_str(n as nat));
    assert(uint_body(dec_str(n as nat)) == dec_str(n as nat));
}

/// Parsing a canonical single-letter identifier string and formatting the
/// result yields the string again. (Strings with a `+` sign or leading
/// zeros in the digit run parse too, but are not canonical.)
pub proof fn lemma_id_format_parse(s: Seq<char>, letter: char)
    requires
        spec_id_from_str(s, letter) is Ok,
        canonical_digits(s.drop_first()),
    ensures
        spec_id_from_str(s, letter) matches Ok(n) && spec_id_str(letter, n) == s,
{
    let d = s.drop_first();
    assert(uint_body(d) == d);
    lemma_dec_of_val(d);
    assert(spec_id_str(letter, digits_val(d) as u64) =~= seq![s[0]] + d);
    assert(seq![s[0]] + d =~= s);
}

/// Formatting any form or sense identifier and parsing it back yields the
/// identifier again.
pub proof fn lemma_subid_parse_format(marker: char, lexeme: u64, sub: u16)
    requires
        marker != '-',
        marker != '+',
        !crate::strutil::is_digit(marker),
    ensures
        spec_subid_from_str(spec_subid_str(marker, lexeme, sub), marker) == Ok::<
            (u64, u16),
            IdParseError,
        >((lexeme, sub)),
{
    lemma_dec_str_digits(lexeme as nat);
    lemma_dec_str_digits(sub as nat);
    let dl = dec_str(lexeme as nat);
    let ds = dec_str(sub as nat);
    let s = spec_subid_str(marker, lexeme, sub);
    assert(s[0] == 'L');
    let rest = s.drop_first();
    let b = seq![marker] + ds;
    assert(rest =~= dl + seq!['-'] + b);
    assert(!has_char(dl, '-')) by {
        assert(forall|i: int| 0 <= i < dl.len() ==> #[trigger] dl[i] != '-');
    }
    assert(!has_char(b, '-')) by {
        assert(forall|i: int| 0 <= i < b.len() ==> #[trigger] b[i] != '-');
    }
    lemma_split_concat(dl, b, '-');
    lemma_split_no_sep(b, '-');
    let parts = spec_split(rest, '-');
    assert(parts == seq![dl] + seq![b]);
    assert(parts.len() == 2);
    assert(parts[0] == dl);
    assert(parts[1] == b);
    assert(uint_body(dl) == dl);
    assert(spec_parse_uint(dl, u64::MAX as nat) == Some(lexeme as nat));
    assert(b[0] == marker);
    assert(b.drop_first() =~= ds);
    assert(uint_body(ds) == ds);
    assert(spec_parse_uint(ds, u16::MAX as nat) == Some(sub as nat));
}

/// Parsing a canonical form or sense identifier string and formatting the
/// result yields the string again.
pub proof fn lemma_subid_format_parse(s: Seq<char>, marker: char)
    requires
        spec_subid_from_str(s, marker) is Ok,
        canonical_digits(spec_split(s.drop_first(), '-')[0]),
        canonical_digits(spec_split(s.drop_first(), '-')[1].drop_first()),
    ensures
        spec_subid_from_str(s, marker) matches Ok(p) && spec_subid_str(marker, p.0, p.1) == s,
{
    let rest = s.drop_first();
    let parts = spec_split(rest, '-');
    lemma_split_join(rest, '-');
    lemma_split_len(rest, '-');
    assert(parts.len() == 2);
    let dl = parts[0];
    let p2 = parts[1];
    let ds = p2.drop_first();
    assert(uint_body(dl) == dl);
    assert(uint_body(ds) == ds);
    lemma_dec_of_val(dl);
    lemma_dec_of_val(ds);
    let lexeme = digits_val(dl) as u64;
    let sub = digits_val(ds) as u16;
    assert(crate::strutil::join_sep(parts, '-') == rest);
    assert(parts.drop_last() =~= seq![dl]);
    assert(crate::strutil::join_sep(seq![dl], '-') == dl);
    assert(rest == dl + seq!['-'] + p2);
    assert(p2 =~= seq![marker] + ds);
    assert(spec_subid_str(marker, lexeme, sub) =~= seq!['L'] + dl + seq!['-', marker] + ds);
    assert(seq!['L'] + dl + seq!['-', marker] + ds =~= seq![s[0]] + rest);
    assert(seq![s[0]] + rest =~= s);
}

} // verus!
