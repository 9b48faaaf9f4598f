//! The entity model and its decoder: claims, qualifiers, references, ranks,
//! and the translation of a Wikibase JSON document into them.

use vstd::prelude::*;

use crate::ids::{
    canonical_digits, consts, spec_id_from_str, spec_id_str, spec_subid_str,
    spec_wiki_id_from_str, Fid, Lid, Pid, Qid, Sid, WikiId,
};
use crate::json::{
    deep_elems, deep_entries, lemma_deep_elems_index, lemma_deep_elems_len,
    lemma_deep_entries_index, lemma_deep_entries_len, spec_as_array_v, spec_as_object_v,
    spec_as_str_v, spec_entries_get, spec_get, spec_take, JsonV, JsonValue,
};
use crate::numbers::{
    spec_parse_wb_number, spec_time_precision_of, parse_wb_number, time_precision_of, WbNumber,
};
use crate::strutil::{
    chars_of, has_char, join_sep, lemma_dec_of_val, lemma_split_join, lemma_split_no_sep,
    parse_uint, spec_parse_uint, spec_split, split_char, str_eq, uint_body,
};
use crate::text::{Lang, Text, TextV};
use crate::time::{parse_wb_time, spec_parse_wb_time, UtcDateTime};

verus! {

/// An error raised while decoding an entity or one of its parts.
#[derive(Debug, Copy, Clone, PartialEq, Eq, Structural)]
#[non_exhaustive]
pub enum EntityError {
    /// A number could not be parsed.
    FloatParse,
    /// A string was expected but not found.
    ExpectedString,
    /// An object was expected but not found.
    ExpectedObject,
    /// An array was expected but not found.
    ExpectedArray,
    /// A string representing a number was expected but not found.
    ExpectedNumberString,
    /// A string representing a URI was expected but not found.
    ExpectedUriString,
    /// A valid Qid URI was expected but not found.
    ExpectedQidString,
    /// A string was expected because the datatype is string.
    ExpectedStringDatatype,
    /// A time string was empty.
    TimeEmpty,
    /// An ID was invalid.
    BadId,
    /// A date didn't have a year.
    NoDateYear,
    /// No date matched the day/month/year.
    NoDateMatched,
    /// An ambiguous date was specified.
    DateAmbiguous,
    /// The time of day was outside the clock's range.
    InvalidTimeOfDay,
    /// The datatype was invalid.
    InvalidDatatype,
    /// The datatype was unknown.
    UnknownDatatype,
    /// The time was missing an hour.
    MissingHour,
    /// The time was missing a minute.
    MissingMinute,
    /// The time was missing a second.
    MissingSecond,
    /// The snaktype was invalid.
    InvalidSnaktype,
    /// The precision level was invalid.
    InvalidPrecision,
    /// No rank was specified.
    NoRank,
    /// A number was out of bounds.
    NumberOutOfBounds,
    /// No ID was found.
    NoId,
    /// No entities are in the object.
    NoEntities,
    /// Multiple entities are in the object.
    MultipleEntities,
    /// The entity had no type.
    NoEntityType,
    /// There are no claims.
    NoClaims,
    /// The claim ID is missing.
    NoClaimId,
    /// That rank is unknown.
    UnknownRank,
    /// A reference group is missing a snaks-order field.
    NoSnakOrder,
    /// A hash is missing on a reference group.
    NoHash,
    /// A reference group has no snaks.
    NoReferenceSnaks,
    /// snaks-order includes a non-snak.
    SnaksOrderIncludesNonSnak,
    /// Qualifiers exist but their order array does not.
    NoQualifiersOrder,
    /// A qualifier order exists but qualifiers do not.
    QualifiersOrderButNoObject,
    /// The qualifier order names a property that is not a qualifier.
    QualiferOrderNamesNonQualifier,
    /// Expected a string in a key-value entity info object.
    ExpectedKeyvalTextString,
    /// Expected a value in a language+value object.
    ExpectedTextValue,
    /// An array of aliases was not found.
    ExpectedAliasArray,
    /// An array of claims was not found.
    ExpectedClaimArray,
    /// An array of references was not found.
    ExpectedReferenceArray,
    /// An array of reference subsnaks was not found.
    ExpectedReferenceSubsnakArray,
    /// A hash was expected but not found.
    ExpectedHashString,
    /// A string representing a language was expected but not found.
    ExpectedLangString,
    /// A string representing an alias was expected but not found.
    ExpectedAliasString,
    /// A string representing a Pid was expected but not found.
    ExpectedPidString,
    /// A mainsnak is missing.
    MissingMainsnak,
}

/// The type of entity: an item with a Qid, a property with a Pid, or a
/// lexeme with an Lid.
#[derive(Debug, Copy, Clone, PartialEq, Eq, Hash, Structural)]
#[non_exhaustive]
pub enum EntityType {
    /// An entity with a Qid.
    Entity,
    /// An entity with a Pid.
    Property,
    /// An entity with an Lid.
    Lexeme,
}

/// A statement rank.
#[derive(Debug, Copy, Clone, PartialEq, Eq, PartialOrd, Ord, Structural)]
pub enum Rank {
    /// Outdated or wrong information; deprecated claims should usually be
    /// ignored.
    Deprecated,
    /// Normal rank, the default.
    Normal,
    /// Preferred rank: the most recent or accurate claim.
    Preferred,
}

impl Default for Rank {
    fn default() -> (r: Self)
        ensures
            r == Rank::Normal,
    {
        Rank::Normal
    }
}

/// Which rank each rank word names: the fixed vocabulary `deprecated`,
/// `normal`, `preferred`; anything else is refused.
pub open spec fn spec_rank_from_str(s: Seq<char>) -> Result<Rank, EntityError> {
    if s == "normal"@ {
        Ok(Rank::Normal)
    } else if s == "deprecated"@ {
        Ok(Rank::Deprecated)
    } else if s == "preferred"@ {
        Ok(Rank::Preferred)
    } else {
        Err(EntityError::UnknownRank)
    }
}

impl Rank {
    /// Decode a rank word.
    pub fn from_str(x: &str) -> (r: Result<Self, EntityError>)
        ensures
            r == spec_rank_from_str(x@),
    {
        if crate::strutil::str_eq(x, "normal") {
            Ok(Rank::Normal)
        } else if crate::strutil::str_eq(x, "deprecated") {
            Ok(Rank::Deprecated)
        } else if crate::strutil::str_eq(x, "preferred") {
            Ok(Rank::Preferred)
        } else {
            Err(EntityError::UnknownRank)
        }
    }
}

/// What reading a node as a string yields: its characters, or
/// `ExpectedString`.
pub open spec fn spec_get_string(j: JsonV) -> Result<Seq<char>, EntityError> {
    match j {
        JsonV::Str(s) => Ok(s),
        _ => Err(EntityError::ExpectedString),
    }
}

/// Read a node as a string, as the string-typed payloads require.
pub fn get_json_string(json: &JsonValue) -> (r: Result<String, EntityError>)
    ensures
        match r {
            Ok(s) => spec_get_string(json.deep()) == Ok::<Seq<char>, EntityError>(s@),
            Err(e) => spec_get_string(json.deep()) == Err::<Seq<char>, EntityError>(e),
        },
{
    match json.as_str() {
        Some(s) => Ok(s.clone()),
        None => Err(EntityError::ExpectedString),
    }
}

/// The value under `key`, with a shared `null` standing in where the node
/// has no such field.
fn take_prop<'a>(j: &'a JsonValue, key: &str, null: &'a JsonValue) -> (r: &'a JsonValue)
    requires
        null.deep() == JsonV::Null,
    ensures
        r.deep() == spec_take(j.deep(), key@),
{
    match j.obj_get(key) {
        Some(v) => v,
        None => null,
    }
}

// ---------------------------------------------------------------------------
// The claim payloads
// ---------------------------------------------------------------------------

/// Data relating to a claim value: one case per Wikibase datatype.
#[derive(Debug, Clone)]
pub enum ClaimValueData {
    /// The ID of a file on Wikimedia Commons.
    CommonsMedia(String),
    /// Coordinates on some globe.
    GlobeCoordinate {
        /// Latitude, as a numeric token.
        lat: WbNumber,
        /// Longitude, as a numeric token.
        lon: WbNumber,
        /// How many degrees of distance of precision there are.
        precision: WbNumber,
        /// The globe the coordinates are on, usually the Earth.
        globe: Qid,
    },
    /// A Wikidata item.
    Item(Qid),
    /// A Wikidata property.
    Property(Pid),
    /// A language-less string of text.
    PlainString(String),
    /// Text with a language.
    MonolingualText(Text),
    /// The same text, translated across multiple languages.
    MultilingualText(Vec<Text>),
    /// An external identifier.
    ExternalID(String),
    /// Some numeric quantity of something.
    Quantity {
        /// How much.
        amount: WbNumber,
        /// The lowest possible value, where one is given.
        lower_bound: Option<WbNumber>,
        /// The highest possible value, where one is given.
        upper_bound: Option<WbNumber>,
        /// The unit used, where it is a Wikidata entity.
        unit: Option<Qid>,
    },
    /// A point in time.
    DateTime {
        /// The UTC instant.
        date_time: UtcDateTime,
        /// The precision code, 0 (a billion years) to 14 (a second).
        precision: u8,
    },
    /// A URL.
    Url(String),
    /// A LaTeX math expression.
    MathExpr(String),
    /// A geometric shape.
    GeoShape(String),
    /// LilyPond musical notation.
    MusicNotation(String),
    /// The ID of a file with tabular data on Wikimedia Commons.
    TabularData(String),
    /// A lexeme ID on Wikidata.
    Lexeme(Lid),
    /// A form ID on Wikidata.
    Form(Fid),
    /// A sense ID on Wikidata.
    Sense(Sid),
    /// No value.
    NoValue,
    /// Unknown value.
    UnknownValue,
}

/// The mathematical shape of a claim payload.
pub ghost enum ClaimValueDataV {
    CommonsMedia(Seq<char>),
    GlobeCoordinate { lat: Seq<char>, lon: Seq<char>, precision: Seq<char>, globe: Qid },
    Item(Qid),
    Property(Pid),
    PlainString(Seq<char>),
    MonolingualText(TextV),
    MultilingualText(Seq<TextV>),
    ExternalID(Seq<char>),
    Quantity {
        amount: Seq<char>,
        lower_bound: Option<Seq<char>>,
        upper_bound: Option<Seq<char>>,
        unit: Option<Qid>,
    },
    DateTime { date_time: UtcDateTime, precision: u8 },
    Url(Seq<char>),
    MathExpr(Seq<char>),
    GeoShape(Seq<char>),
    MusicNotation(Seq<char>),
    TabularData(Seq<char>),
    Lexeme(Lid),
    Form(Fid),
    Sense(Sid),
    NoValue,
    UnknownValue,
}

impl DeepView for ClaimValueData {
    type V = ClaimValueDataV;

    open spec fn deep_view(&self) -> ClaimValueDataV {
        match self {
            ClaimValueData::CommonsMedia(s) => ClaimValueDataV::CommonsMedia(s@),
            ClaimValueData::GlobeCoordinate { lat, lon, precision, globe } => (
            ClaimValueDataV::GlobeCoordinate {
                lat: lat@,
                lon: lon@,
                precision: precision@,
                globe: *globe,
            }),
            ClaimValueData::Item(q) => ClaimValueDataV::Item(*q),
            ClaimValueData::Property(p) => ClaimValueDataV::Property(*p),
            ClaimValueData::PlainString(s) => ClaimValueDataV::PlainString(s@),
            ClaimValueData::MonolingualText(t) => ClaimValueDataV::MonolingualText(t@),
            ClaimValueData::MultilingualText(ts) => ClaimValueDataV::MultilingualText(
                ts.deep_view(),
            ),
            ClaimValueData::ExternalID(s) => ClaimValueDataV::ExternalID(s@),
            ClaimValueData::Quantity { amount, lower_bound, upper_bound, unit } => (
            ClaimValueDataV::Quantity {
                amount: amount@,
                lower_bound: lower_bound.deep_view(),
                upper_bound: upper_bound.deep_view(),
                unit: *unit,
            }),
            ClaimValueData::DateTime { date_time, precision } => (
            ClaimValueDataV::DateTime { date_time: *date_time, precision: *precision }),
            ClaimValueData::Url(s) => ClaimValueDataV::Url(s@),
            ClaimValueData::MathExpr(s) => ClaimValueDataV::MathExpr(s@),
            ClaimValueData::GeoShape(s) => ClaimValueDataV::GeoShape(s@),
            ClaimValueData::MusicNotation(s) => ClaimValueDataV::MusicNotation(s@),
            ClaimValueData::TabularData(s) => ClaimValueDataV::TabularData(s@),
            ClaimValueData::Lexeme(l) => ClaimValueDataV::Lexeme(*l),
            ClaimValueData::Form(f) => ClaimValueDataV::Form(*f),
            ClaimValueData::Sense(s) => ClaimValueDataV::Sense(*s),
            ClaimValueData::NoValue => ClaimValueDataV::NoValue,
            ClaimValueData::UnknownValue => ClaimValueDataV::UnknownValue,
        }
    }
}

impl Default for ClaimValueData {
    /// The default, empty payload.
    fn default() -> (r: Self)
        ensures
            r == ClaimValueData::NoValue,
    {
        ClaimValueData::NoValue
    }
}

// ---------------------------------------------------------------------------
// Entity-style IRIs
// ---------------------------------------------------------------------------

/// What reading a node as an entity IRI yields: the node must be a string of
/// the exact shape `http://www.wikidata.org/entity/Q<n>`.
pub open spec fn spec_try_get_as_qid(j: JsonV) -> Result<Qid, EntityError> {
    match j {
        JsonV::Str(s) => {
            let p = "http://www.wikidata.org/entity/Q"@;
            if !(s.len() >= p.len() && s.take(p.len() as int) == p) {
                Err(EntityError::ExpectedQidString)
            } else {
                match spec_parse_uint(s.skip(p.len() as int), u64::MAX as nat) {
                    Some(v) => Ok(Qid(v as u64)),
                    None => Err(EntityError::FloatParse),
                }
            }
        },
        _ => Err(EntityError::ExpectedUriString),
    }
}

/// Read an entity-style IRI as the Qid it names.
pub fn try_get_as_qid(datavalue: &JsonValue) -> (r: Result<Qid, EntityError>)
    ensures
        r == spec_try_get_as_qid(datavalue.deep()),
{
    let s = match datavalue.as_str() {
        Some(s) => s,
        None => {
            return Err(EntityError::ExpectedUriString);
        },
    };
    let cs = chars_of(s.as_str());
    let pcs = chars_of("http://www.wikidata.org/entity/Q");
    let plen = pcs.len();
    let ghost p = "http://www.wikidata.org/entity/Q"@;
    if cs.len() < plen {
        proof {
            assert(s@.len() < p.len());
        }
        return Err(EntityError::ExpectedQidString);
    }
    let mut i: usize = 0;
    while i < plen
        invariant
            i <= plen,
            plen == p.len(),
            cs@ == s@,
            pcs@ == p,
            cs@.len() >= plen,
            datavalue.deep() == JsonV::Str(s@),
            p == "http://www.wikidata.org/entity/Q"@,
            forall|k: int| 0 <= k < i ==> s@[k] == p[k],
        decreases plen - i,
    {
        if cs[i] != pcs[i] {
            proof {
                assert(s@.take(p.len() as int)[i as int] != p[i as int]);
            }
            return Err(EntityError::ExpectedQidString);
        }
        i = i + 1;
    }
    proof {
        assert(s@.take(p.len() as int) =~= p);
        assert(s@.skip(p.len() as int) =~= s@.subrange(plen as int, s@.len() as int));
    }
    match parse_uint(cs.as_slice(), plen, cs.len(), u64::MAX) {
        Some(v) => Ok(Qid(v)),
        None => Err(EntityError::FloatParse),
    }
}

// ---------------------------------------------------------------------------
// The snak decoder
// ---------------------------------------------------------------------------

/// How a string-shaped payload is typed: the declared datatype picks the
/// case; an unrecognized datatype is fatal.
pub open spec fn spec_snak_string(value: JsonV, datatype: Seq<char>) -> Result<
    ClaimValueDataV,
    EntityError,
> {
    match spec_as_str_v(value) {
        None => Err(EntityError::ExpectedStringDatatype),
        Some(s) => {
            if datatype == "string"@ {
                Ok(ClaimValueDataV::PlainString(s))
            } else if datatype == "commonsMedia"@ {
                Ok(ClaimValueDataV::CommonsMedia(s))
            } else if datatype == "external-id"@ {
                Ok(ClaimValueDataV::ExternalID(s))
            } else if datatype == "math"@ {
                Ok(ClaimValueDataV::MathExpr(s))
            } else if datatype == "geo-shape"@ {
                Ok(ClaimValueDataV::GeoShape(s))
            } else if datatype == "musical-notation"@ {
                Ok(ClaimValueDataV::MusicNotation(s))
            } else if datatype == "tabular-data"@ {
                Ok(ClaimValueDataV::TabularData(s))
            } else if datatype == "url"@ {
                Ok(ClaimValueDataV::Url(s))
            } else {
                Err(EntityError::InvalidDatatype)
            }
        },
    }
}

/// How an entity-id payload reads: the `id` field's first letter picks the
/// kind, and the dash rule separates lexemes from forms and senses.
pub open spec fn spec_snak_entity_id(value: JsonV) -> Result<ClaimValueDataV, EntityError> {
    match spec_get_string(spec_take(value, "id"@)) {
        Err(e) => Err(e),
        Ok(id) => {
            if id.len() == 0 {
                Err(EntityError::BadId)
            } else if id[0] == 'Q' {
                match spec_parse_uint(id.drop_first(), u64::MAX as nat) {
                    Some(v) => Ok(ClaimValueDataV::Item(Qid(v as u64))),
                    None => Err(EntityError::BadId),
                }
            } else if id[0] == 'P' {
                match spec_parse_uint(id.drop_first(), u64::MAX as nat) {
                    Some(v) => Ok(ClaimValueDataV::Property(Pid(v as u64))),
                    None => Err(EntityError::BadId),
                }
            } else if id[0] == 'L' {
                let parts = spec_split(id, '-');
                if parts.len() == 1 {
                    match spec_parse_uint(id.drop_first(), u64::MAX as nat) {
                        Some(v) => Ok(ClaimValueDataV::Lexeme(Lid(v as u64))),
                        None => Err(EntityError::BadId),
                    }
                } else if parts.len() == 2 {
                    if parts[1].len() == 0 {
                        Err(EntityError::BadId)
                    } else if parts[1][0] == 'F' {
                        match (
                            spec_parse_uint(parts[0].drop_first(), u64::MAX as nat),
                            spec_parse_uint(parts[1].drop_first(), u16::MAX as nat),
                        ) {
                            (Some(l), Some(f)) => Ok(
                                ClaimValueDataV::Form(Fid(Lid(l as u64), f as u16)),
                            ),
                            _ => Err(EntityError::BadId),
                        }
                    } else if parts[1][0] == 'S' {
                        match (
                            spec_parse_uint(parts[0].drop_first(), u64::MAX as nat),
                            spec_parse_uint(parts[1].drop_first(), u16::MAX as nat),
                        ) {
                            (Some(l), Some(f)) => Ok(
                                ClaimValueDataV::Sense(Sid(Lid(l as u64), f as u16)),
                            ),
                            _ => Err(EntityError::BadId),
                        }
                    } else {
                        Err(EntityError::BadId)
                    }
                } else {
                    Err(EntityError::BadId)
                }
            } else {
                Err(EntityError::BadId)
            }
        },
    }
}

/// How a globe-coordinate payload reads: latitude and longitude are
/// required; a missing or unreadable precision falls back to `1`; the globe
/// must be an entity IRI. The deprecated altitude field is ignored.
pub open spec fn spec_snak_globe(value: JsonV) -> Result<ClaimValueDataV, EntityError> {
    match spec_parse_wb_number(spec_take(value, "latitude"@)) {
        Err(e) => Err(e),
        Ok(lat) => match spec_parse_wb_number(spec_take(value, "longitude"@)) {
            Err(e) => Err(e),
            Ok(lon) => {
                let precision = match spec_parse_wb_number(spec_take(value, "precision"@)) {
                    Ok(p) => p,
                    Err(_) => "1"@,
                };
                match spec_try_get_as_qid(spec_take(value, "globe"@)) {
                    Err(e) => Err(e),
                    Ok(globe) => Ok(
                        ClaimValueDataV::GlobeCoordinate { lat, lon, precision, globe },
                    ),
                }
            },
        },
    }
}

/// How a quantity payload reads: the amount is required; bounds and unit
/// are best-effort and absent where they fail to parse.
pub open spec fn spec_snak_quantity(value: JsonV) -> Result<ClaimValueDataV, EntityError> {
    match spec_parse_wb_number(spec_take(value, "amount"@)) {
        Err(e) => Err(e),
        Ok(amount) => Ok(
            ClaimValueDataV::Quantity {
                amount,
                upper_bound: match spec_parse_wb_number(spec_take(value, "upperBound"@)) {
                    Ok(u) => Some(u),
                    Err(_) => None,
                },
                lower_bound: match spec_parse_wb_number(spec_take(value, "lowerBound"@)) {
                    Ok(l) => Some(l),
                    Err(_) => None,
                },
                unit: match spec_try_get_as_qid(spec_take(value, "unit"@)) {
                    Ok(q) => Some(q),
                    Err(_) => None,
                },
            },
        ),
    }
}

/// How a time payload reads: an unparsable instant degrades the whole snak
/// to `UnknownValue`; where the instant parses, the precision code is
/// required and must be a code of the table.
pub open spec fn spec_snak_time(value: JsonV) -> Result<ClaimValueDataV, EntityError> {
    match spec_get_string(spec_take(value, "time"@)) {
        Err(e) => Err(e),
        Ok(ts) => match spec_parse_wb_time(ts) {
            Err(_) => Ok(ClaimValueDataV::UnknownValue),
            Ok(dt) => match spec_parse_wb_number(spec_take(value, "precision"@)) {
                Err(_) => Err(EntityError::InvalidPrecision),
                Ok(tok) => match spec_time_precision_of(tok) {
                    None => Err(EntityError::InvalidPrecision),
                    Some(p) => Ok(ClaimValueDataV::DateTime { date_time: dt, precision: p }),
                },
            },
        },
    }
}

/// How a monolingual-text payload reads: text and language are both
/// required.
pub open spec fn spec_snak_mono(value: JsonV) -> Result<ClaimValueDataV, EntityError> {
    match spec_get_string(spec_take(value, "text"@)) {
        Err(e) => Err(e),
        Ok(text) => match spec_get_string(spec_take(value, "language"@)) {
            Err(e) => Err(e),
            Ok(lang) => Ok(ClaimValueDataV::MonolingualText(TextV { text, lang })),
        },
    }
}

/// What decoding one snak yields: `novalue` and `somevalue` markers map to
/// their variants; a `value` snak dispatches on the payload's shape tag and
/// the declared datatype.
pub open spec fn spec_parse_snak(snak: JsonV) -> Result<ClaimValueDataV, EntityError> {
    let datavalue = spec_take(snak, "datavalue"@);
    match spec_get_string(spec_take(snak, "datatype"@)) {
        Err(e) => Err(e),
        Ok(datatype) => match spec_get_string(spec_take(snak, "snaktype"@)) {
            Err(e) => Err(e),
            Ok(snaktype) => {
                if snaktype == "somevalue"@ {
                    Ok(ClaimValueDataV::UnknownValue)
                } else if snaktype == "novalue"@ {
                    Ok(ClaimValueDataV::NoValue)
                } else if snaktype != "value"@ {
                    Err(EntityError::InvalidSnaktype)
                } else {
                    match spec_as_str_v(spec_take(datavalue, "type"@)) {
                        None => Err(EntityError::InvalidSnaktype),
                        Some(type_str) => {
                            let value = spec_take(datavalue, "value"@);
                            if type_str == "string"@ {
                                spec_snak_string(value, datatype)
                            } else if type_str == "wikibase-entityid"@ {
                                spec_snak_entity_id(value)
                            } else if type_str == "globecoordinate"@ {
                                spec_snak_globe(value)
                            } else if type_str == "quantity"@ {
                                spec_snak_quantity(value)
                            } else if type_str == "time"@ {
                                spec_snak_time(value)
                            } else if type_str == "monolingualtext"@ {
                                spec_snak_mono(value)
                            } else {
                                Err(EntityError::UnknownDatatype)
                            }
                        },
                    }
                }
            },
        },
    }
}

fn snak_string(value: &JsonValue, datatype: &String) -> (r: Result<ClaimValueData, EntityError>)
    ensures
        match r {
            Ok(d) => spec_snak_string(value.deep(), datatype@) == Ok::<
                ClaimValueDataV,
                EntityError,
            >(d.deep_view()),
            Err(e) => spec_snak_string(value.deep(), datatype@) == Err::<
                ClaimValueDataV,
                EntityError,
            >(e),
        },
{
    let s = match value.as_str() {
        Some(s) => s.clone(),
        None => {
            return Err(EntityError::ExpectedStringDatatype);
        },
    };
    let dt = datatype.as_str();
    if str_eq(dt, "string") {
        Ok(ClaimValueData::PlainString(s))
    } else if str_eq(dt, "commonsMedia") {
        Ok(ClaimValueData::CommonsMedia(s))
    } else if str_eq(dt, "external-id") {
        Ok(ClaimValueData::ExternalID(s))
    } else if str_eq(dt, "math") {
        Ok(ClaimValueData::MathExpr(s))
    } else if str_eq(dt, "geo-shape") {
        Ok(ClaimValueData::GeoShape(s))
    } else if str_eq(dt, "musical-notation") {
        Ok(ClaimValueData::MusicNotation(s))
    } else if str_eq(dt, "tabular-data") {
        Ok(ClaimValueData::TabularData(s))
    } else if str_eq(dt, "url") {
        Ok(ClaimValueData::Url(s))
    } else {
        Err(EntityError::InvalidDatatype)
    }
}

#[verifier::rlimit(80)]
fn snak_entity_id(value: &JsonValue) -> (r: Result<ClaimValueData, EntityError>)
    ensures
        match r {
            Ok(d) => spec_snak_entity_id(value.deep()) == Ok::<ClaimValueDataV, EntityError>(
                d.deep_view(),
            ),
            Err(e) => spec_snak_entity_id(value.deep()) == Err::<ClaimValueDataV, EntityError>(e),
        },
{
    broadcast use crate::strutil::lemma_vec_char_deep_view, crate::strutil::lemma_vecvec_char_deep_view;

    let null = JsonValue::Null;
    let id = match get_json_string(take_prop(value, "id", &null)) {
        Ok(s) => s,
        Err(e) => {
            return Err(e);
        },
    };
    let cs = chars_of(id.as_str());
    if cs.len() == 0 {
        return Err(EntityError::BadId);
    }
    proof {
        assert(id@.drop_first() =~= cs@.subrange(1, cs@.len() as int));
    }
    let c0 = cs[0];
    if c0 == 'Q' {
        match parse_uint(cs.as_slice(), 1, cs.len(), u64::MAX) {
            Some(v) => Ok(ClaimValueData::Item(Qid(v))),
            None => Err(EntityError::BadId),
        }
    } else if c0 == 'P' {
        match parse_uint(cs.as_slice(), 1, cs.len(), u64::MAX) {
            Some(v) => Ok(ClaimValueData::Property(Pid(v))),
            None => Err(EntityError::BadId),
        }
    } else if c0 == 'L' {
        let parts = split_char(cs.as_slice(), '-');
        let ghost sparts = spec_split(id@, '-');
        proof {
            crate::strutil::lemma_split_len(id@, '-');
            assert(parts@.len() == sparts.len());
        }
        if parts.len() == 1 {
            match parse_uint(cs.as_slice(), 1, cs.len(), u64::MAX) {
                Some(v) => Ok(ClaimValueData::Lexeme(Lid(v))),
                None => Err(EntityError::BadId),
            }
        } else if parts.len() == 2 {
            let p1 = &parts[1];
            proof {
                assert(p1@ == sparts[1]);
            }
            if p1.len() == 0 {
                return Err(EntityError::BadId);
            }
            let marker = p1[0];
            if marker != 'F' && marker != 'S' {
                return Err(EntityError::BadId);
            }
            let p0 = &parts[0];
            proof {
                assert(p0@ == sparts[0]);
                crate::strutil::lemma_split_join(id@, '-');
                assert(sparts.drop_last() =~= seq![sparts[0]]);
                assert(crate::strutil::join_sep(seq![sparts[0]], '-') == sparts[0]);
                assert(id@ == sparts[0] + seq!['-'] + sparts[1]);
                if sparts[0].len() == 0 {
                    assert(id@[0] == '-');
                }
                assert(p0@.len() > 0);
                assert(p0@.drop_first() =~= p0@.subrange(1, p0@.len() as int));
                assert(p1@.drop_first() =~= p1@.subrange(1, p1@.len() as int));
            }
            let l = parse_uint(p0.as_slice(), 1, p0.len(), u64::MAX);
            let f = parse_uint(p1.as_slice(), 1, p1.len(), 65535);
            match (l, f) {
                (Some(lv), Some(fv)) => {
                    if marker == 'F' {
                        Ok(ClaimValueData::Form(Fid(Lid(lv), fv as u16)))
                    } else {
                        Ok(ClaimValueData::Sense(Sid(Lid(lv), fv as u16)))
                    }
                },
                _ => Err(EntityError::BadId),
            }
        } else {
            Err(EntityError::BadId)
        }
    } else {
        Err(EntityError::BadId)
    }
}

fn snak_globe(value: &JsonValue) -> (r: Result<ClaimValueData, EntityError>)
    ensures
        match r {
            Ok(d) => spec_snak_globe(value.deep()) == Ok::<ClaimValueDataV, EntityError>(
                d.deep_view(),
            ),
            Err(e) => spec_snak_globe(value.deep()) == Err::<ClaimValueDataV, EntityError>(e),
        },
{
    let null = JsonValue::Null;
    let lat = match parse_wb_number(take_prop(value, "latitude", &null)) {
        Ok(w) => w,
        Err(e) => {
            return Err(e);
        },
    };
    let lon = match parse_wb_number(take_prop(value, "longitude", &null)) {
        Ok(w) => w,
        Err(e) => {
            return Err(e);
        },
    };
    let precision = match parse_wb_number(take_prop(value, "precision", &null)) {
        Ok(w) => w,
        Err(_) => WbNumber(String::from_str("1")),
    };
    let globe = match try_get_as_qid(take_prop(value, "globe", &null)) {
        Ok(q) => q,
        Err(e) => {
            return Err(e);
        },
    };
    Ok(ClaimValueData::GlobeCoordinate { lat, lon, precision, globe })
}

fn snak_quantity(value: &JsonValue) -> (r: Result<ClaimValueData, EntityError>)
    ensures
        match r {
            Ok(d) => spec_snak_quantity(value.deep()) == Ok::<ClaimValueDataV, EntityError>(
                d.deep_view(),
            ),
            Err(e) => spec_snak_quantity(value.deep()) == Err::<ClaimValueDataV, EntityError>(e),
        },
{
    let null = JsonValue::Null;
    let amount = match parse_wb_number(take_prop(value, "amount", &null)) {
        Ok(w) => w,
        Err(e) => {
            return Err(e);
        },
    };
    let upper_bound = match parse_wb_number(take_prop(value, "upperBound", &null)) {
        Ok(w) => Some(w),
        Err(_) => None,
    };
    let lower_bound = match parse_wb_number(take_prop(value, "lowerBound", &null)) {
        Ok(w) => Some(w),
        Err(_) => None,
    };
    let unit = match try_get_as_qid(take_prop(value, "unit", &null)) {
        Ok(q) => Some(q),
        Err(_) => None,
    };
    Ok(ClaimValueData::Quantity { amount, lower_bound, upper_bound, unit })
}

fn snak_time(value: &JsonValue) -> (r: Result<ClaimValueData, EntityError>)
    ensures
        match r {
            Ok(d) => spec_snak_time(value.deep()) == Ok::<ClaimValueDataV, EntityError>(
                d.deep_view(),
            ),
            Err(e) => spec_snak_time(value.deep()) == Err::<ClaimValueDataV, EntityError>(e),
        },
{
    let null = JsonValue::Null;
    let ts = match get_json_string(take_prop(value, "time", &null)) {
        Ok(s) => s,
        Err(e) => {
            return Err(e);
        },
    };
    let dt = match parse_wb_time(ts.as_str()) {
        Ok(dt) => dt,
        Err(_) => {
            return Ok(ClaimValueData::UnknownValue);
        },
    };
    let tok = match parse_wb_number(take_prop(value, "precision", &null)) {
        Ok(w) => w,
        Err(_) => {
            return Err(EntityError::InvalidPrecision);
        },
    };
    match time_precision_of(&tok) {
        Some(p) => Ok(ClaimValueData::DateTime { date_time: dt, precision: p }),
        None => Err(EntityError::InvalidPrecision),
    }
}

fn snak_mono(value: &JsonValue) -> (r: Result<ClaimValueData, EntityError>)
    ensures
        match r {
            Ok(d) => spec_snak_mono(value.deep()) == Ok::<ClaimValueDataV, EntityError>(
                d.deep_view(),
            ),
            Err(e) => spec_snak_mono(value.deep()) == Err::<ClaimValueDataV, EntityError>(e),
        },
{
    let null = JsonValue::Null;
    let text = match get_json_string(take_prop(value, "text", &null)) {
        Ok(s) => s,
        Err(e) => {
            return Err(e);
        },
    };
    let lang = match get_json_string(take_prop(value, "language", &null)) {
        Ok(s) => s,
        Err(e) => {
            return Err(e);
        },
    };
    Ok(ClaimValueData::MonolingualText(Text { text, lang: Lang(lang) }))
}

impl ClaimValueData {
    /// Decode one snak node to its typed payload.
    pub fn parse_snak(snak: &JsonValue) -> (r: Result<Self, EntityError>)
        ensures
            match r {
                Ok(d) => spec_parse_snak(snak.deep()) == Ok::<ClaimValueDataV, EntityError>(
                    d.deep_view(),
                ),
                Err(e) => spec_parse_snak(snak.deep()) == Err::<ClaimValueDataV, EntityError>(e),
            },
    {
        let null = JsonValue::Null;
        let datavalue = take_prop(snak, "datavalue", &null);
        let datatype = match get_json_string(take_prop(snak, "datatype", &null)) {
            Ok(s) => s,
            Err(e) => {
                return Err(e);
            },
        };
        let snaktype = match get_json_string(take_prop(snak, "snaktype", &null)) {
            Ok(s) => s,
            Err(e) => {
                return Err(e);
            },
        };
        if str_eq(snaktype.as_str(), "somevalue") {
            return Ok(ClaimValueData::UnknownValue);
        }
        if str_eq(snaktype.as_str(), "novalue") {
            return Ok(ClaimValueData::NoValue);
        }
        if !str_eq(snaktype.as_str(), "value") {
            return Err(EntityError::InvalidSnaktype);
        }
        let type_str = match take_prop(datavalue, "type", &null).as_str() {
            Some(s) => s.clone(),
            None => {
                return Err(EntityError::InvalidSnaktype);
            },
        };
        let value = take_prop(datavalue, "value", &null);
        let ts = type_str.as_str();
        if str_eq(ts, "string") {
            snak_string(value, &datatype)
        } else if str_eq(ts, "wikibase-entityid") {
            snak_entity_id(value)
        } else if str_eq(ts, "globecoordinate") {
            snak_globe(value)
        } else if str_eq(ts, "quantity") {
            snak_quantity(value)
        } else if str_eq(ts, "time") {
            snak_time(value)
        } else if str_eq(ts, "monolingualtext") {
            snak_mono(value)
        } else {
            Err(EntityError::UnknownDatatype)
        }
    }
}

// ---------------------------------------------------------------------------
// Claims, references and entities
// ---------------------------------------------------------------------------

/// A group of snaks that make up a single reference, with its content hash.
#[derive(Debug, Clone)]
pub struct ReferenceGroup {
    /// The snaks, in the order the group's order array lists them.
    pub claims: Vec<(Pid, ClaimValueData)>,
    /// The hash associated with the reference group.
    pub hash: String,
}

/// The mathematical shape of a reference group.
pub ghost struct ReferenceGroupV {
    pub claims: Seq<(Pid, ClaimValueDataV)>,
    pub hash: Seq<char>,
}

impl DeepView for ReferenceGroup {
    type V = ReferenceGroupV;

    open spec fn deep_view(&self) -> ReferenceGroupV {
        ReferenceGroupV { claims: self.claims.deep_view(), hash: self.hash@ }
    }
}

/// One claim (statement): its payload, rank, claim id, ordered qualifiers
/// and ordered reference groups.
#[derive(Debug, Clone)]
pub struct ClaimValue {
    /// The data of the claim.
    pub data: ClaimValueData,
    /// The rank of this claim.
    pub rank: Rank,
    /// The globally unique claim ID.
    pub id: String,
    /// All of the qualifiers of this claim, in order.
    pub qualifiers: Vec<(Pid, ClaimValueData)>,
    /// All of the groups of references for this claim, in order.
    pub references: Vec<ReferenceGroup>,
}

/// The mathematical shape of a claim.
pub ghost struct ClaimValueV {
    pub data: ClaimValueDataV,
    pub rank: Rank,
    pub id: Seq<char>,
    pub qualifiers: Seq<(Pid, ClaimValueDataV)>,
    pub references: Seq<ReferenceGroupV>,
}

impl DeepView for ClaimValue {
    type V = ClaimValueV;

    open spec fn deep_view(&self) -> ClaimValueV {
        ClaimValueV {
            data: self.data.deep_view(),
            rank: self.rank,
            id: self.id@,
            qualifiers: self.qualifiers.deep_view(),
            references: self.references.deep_view(),
        }
    }
}

impl Default for ClaimValue {
    /// An empty claim: no value, normal rank, empty id, nothing attached.
    fn default() -> (r: Self)
        ensures
            r.deep_view() == (ClaimValueV {
                data: ClaimValueDataV::NoValue,
                rank: Rank::Normal,
                id: Seq::<char>::empty(),
                qualifiers: Seq::<(Pid, ClaimValueDataV)>::empty(),
                references: Seq::<ReferenceGroupV>::empty(),
            }),
    {
        let r = ClaimValue {
            data: ClaimValueData::NoValue,
            rank: Rank::Normal,
            id: String::new(),
            qualifiers: Vec::new(),
            references: Vec::new(),
        };
        proof {
            assert(r.qualifiers.deep_view() =~= Seq::<(Pid, ClaimValueDataV)>::empty());
            assert(r.references.deep_view() =~= Seq::<ReferenceGroupV>::empty());
        }
        r
    }
}

/// A Wikibase entity: an item, property or lexeme, with its claims and its
/// language-keyed labels, descriptions and aliases.
#[derive(Debug, Clone)]
pub struct Entity {
    /// Unique identifier.
    pub id: WikiId,
    /// All of the claims on the entity, a property id per claim; the same
    /// property may carry many claims.
    pub claims: Vec<(Pid, ClaimValue)>,
    /// The type of the entity.
    pub entity_type: EntityType,
    /// The descriptions, one per language; the language is the key.
    pub descriptions: Vec<(Lang, String)>,
    /// The labels, one per language; the language is the key.
    pub labels: Vec<(Lang, String)>,
    /// The known aliases, a list per language; the language is the key.
    pub aliases: Vec<(Lang, Vec<String>)>,
}

/// The mathematical shape of an entity.
pub ghost struct EntityV {
    pub id: WikiId,
    pub claims: Seq<(Pid, ClaimValueV)>,
    pub entity_type: EntityType,
    pub descriptions: Seq<(Seq<char>, Seq<char>)>,
    pub labels: Seq<(Seq<char>, Seq<char>)>,
    pub aliases: Seq<(Seq<char>, Seq<Seq<char>>)>,
}

impl DeepView for Entity {
    type V = EntityV;

    open spec fn deep_view(&self) -> EntityV {
        EntityV {
            id: self.id,
            claims: self.claims.deep_view(),
            entity_type: self.entity_type,
            descriptions: self.descriptions.deep_view(),
            labels: self.labels.deep_view(),
            aliases: self.aliases.deep_view(),
        }
    }
}

// ---------------------------------------------------------------------------
// Language-keyed maps
// ---------------------------------------------------------------------------

/// The first index at which the map holds key `k`, or the map's length.
pub open spec fn map_find<V>(acc: Seq<(Seq<char>, V)>, k: Seq<char>) -> int
    decreases acc.len(),
{
    if acc.len() == 0 {
        0
    } else if acc[0].0 == k {
        0
    } else {
        1 + map_find(acc.drop_first(), k)
    }
}

/// Insert `k -> v`: overwrite the first entry with key `k`, else append.
/// The first-appearance order of keys is kept.
pub open spec fn map_upsert<V>(acc: Seq<(Seq<char>, V)>, k: Seq<char>, v: V) -> Seq<
    (Seq<char>, V),
> {
    let i = map_find(acc, k);
    if i < acc.len() {
        acc.update(i, (k, v))
    } else {
        acc.push((k, v))
    }
}

proof fn lemma_map_find<V>(acc: Seq<(Seq<char>, V)>, k: Seq<char>)
    ensures
        0 <= map_find(acc, k) <= acc.len(),
        map_find(acc, k) < acc.len() ==> acc[map_find(acc, k)].0 == k,
        forall|j: int| 0 <= j < map_find(acc, k) ==> acc[j].0 != k,
    decreases acc.len(),
{
    if acc.len() > 0 && acc[0].0 != k {
        lemma_map_find(acc.drop_first(), k);
        assert forall|j: int| 0 <= j < map_find(acc, k) implies acc[j].0 != k by {
            if j >= 1 {
                assert(acc.drop_first()[j - 1] == acc[j]);
            }
        }
    }
}

/// Insert a label or description into its language map.
fn upsert_lang_string(map: &mut Vec<(Lang, String)>, k: Lang, v: String)
    ensures
        final(map).deep_view() == map_upsert(old(map).deep_view(), k@, v@),
{
    broadcast use crate::strutil::lemma_vec_deep_view_index, crate::strutil::lemma_vec_deep_view_len;

    let ghost acc = old(map).deep_view();
    proof {
        lemma_map_find(acc, k@);
    }
    let mut i: usize = 0;
    while i < map.len()
        invariant
            i <= map@.len(),
            *map == *old(map),
            acc == old(map).deep_view(),
            acc.len() == map@.len(),
            forall|j: int| 0 <= j < i ==> acc[j].0 != k@,
        decreases map@.len() - i,
    {
        proof {
            crate::strutil::lemma_vec_deep_view_index(*map, i as int);
        }
        if str_eq(map[i].0.0.as_str(), k.0.as_str()) {
            proof {
                lemma_map_find(acc, k@);
                assert(map_find(acc, k@) == i) by {
                    if map_find(acc, k@) < i {
                        assert(acc[map_find(acc, k@)].0 != k@);
                    }
                    if map_find(acc, k@) > i {
                        assert(acc[i as int].0 != k@);
                    }
                }
            }
            let _ = map.remove(i);
            map.insert(i, (k, v));
            proof {
                assert(map.deep_view() =~= acc.update(i as int, (k@, v@)));
            }
            return ;
        }
        i = i + 1;
    }
    proof {
        lemma_map_find(acc, k@);
        assert(map_find(acc, k@) == acc.len()) by {
            if map_find(acc, k@) < acc.len() {
                assert(acc[map_find(acc, k@)].0 != k@);
            }
        }
    }
    map.push((k, v));
    proof {
        assert(map.deep_view() =~= acc.push((k@, v@)));
    }
}

/// Insert an alias list into its language map.
fn upsert_lang_vec(map: &mut Vec<(Lang, Vec<String>)>, k: Lang, v: Vec<String>)
    ensures
        final(map).deep_view() == map_upsert(old(map).deep_view(), k@, v.deep_view()),
{
    broadcast use crate::strutil::lemma_vec_deep_view_index, crate::strutil::lemma_vec_deep_view_len;

    let ghost acc = old(map).deep_view();
    proof {
        lemma_map_find(acc, k@);
    }
    let mut i: usize = 0;
    while i < map.len()
        invariant
            i <= map@.len(),
            *map == *old(map),
            acc == old(map).deep_view(),
            acc.len() == map@.len(),
            forall|j: int| 0 <= j < i ==> acc[j].0 != k@,
        decreases map@.len() - i,
    {
        proof {
            crate::strutil::lemma_vec_deep_view_index(*map, i as int);
        }
        if str_eq(map[i].0.0.as_str(), k.0.as_str()) {
            proof {
                lemma_map_find(acc, k@);
                assert(map_find(acc, k@) == i) by {
                    if map_find(acc, k@) < i {
                        assert(acc[map_find(acc, k@)].0 != k@);
                    }
                    if map_find(acc, k@) > i {
                        assert(acc[i as int].0 != k@);
                    }
                }
            }
            let _ = map.remove(i);
            map.insert(i, (k, v));
            proof {
                assert(map.deep_view() =~= acc.update(i as int, (k@, v.deep_view())));
            }
            return ;
        }
        i = i + 1;
    }
    proof {
        lemma_map_find(acc, k@);
        assert(map_find(acc, k@) == acc.len()) by {
            if map_find(acc, k@) < acc.len() {
                assert(acc[map_find(acc, k@)].0 != k@);
            }
        }
    }
    map.push((k, v));
    proof {
        assert(map.deep_view() =~= acc.push((k@, v.deep_view())));
    }
}

/// How a labels or descriptions map decodes: each entry must be an object
/// with a string under `value`; entries land keyed by language.
pub open spec fn spec_text_entries(
    es: Seq<(Seq<char>, JsonV)>,
    acc: Seq<(Seq<char>, Seq<char>)>,
) -> Result<Seq<(Seq<char>, Seq<char>)>, EntityError>
    decreases es.len(),
{
    if es.len() == 0 {
        Ok(acc)
    } else {
        let k = es[0].0;
        let v = es[0].1;
        if !(v is Object) {
            Err(EntityError::ExpectedObject)
        } else {
            match spec_get(v, "value"@) {
                None => Err(EntityError::ExpectedLangString),
                Some(sv) => match spec_as_str_v(sv) {
                    None => Err(EntityError::ExpectedKeyvalTextString),
                    Some(text) => spec_text_entries(es.drop_first(), map_upsert(acc, k, text)),
                },
            }
        }
    }
}

/// A missing labels or descriptions field is an empty map; a non-object one
/// is an error.
pub open spec fn spec_text_keyval(o: Option<JsonV>) -> Result<
    Seq<(Seq<char>, Seq<char>)>,
    EntityError,
> {
    match o {
        None => Ok(Seq::empty()),
        Some(j) => match j {
            JsonV::Object(es) => spec_text_entries(es, Seq::empty()),
            _ => Err(EntityError::ExpectedObject),
        },
    }
}

/// Decode the labels or descriptions map under `key`.
fn text_keyval(node: &JsonValue, key: &str) -> (r: Result<Vec<(Lang, String)>, EntityError>)
    ensures
        match r {
            Ok(m) => spec_text_keyval(spec_get(node.deep(), key@)) == Ok::<
                Seq<(Seq<char>, Seq<char>)>,
                EntityError,
            >(m.deep_view()),
            Err(e) => spec_text_keyval(spec_get(node.deep(), key@)) == Err::<
                Seq<(Seq<char>, Seq<char>)>,
                EntityError,
            >(e),
        },
{
    let json_map = match node.obj_get(key) {
        None => {
            let empty: Vec<(Lang, String)> = Vec::new();
            proof {
                assert(empty.deep_view() =~= Seq::<(Seq<char>, Seq<char>)>::empty());
            }
            return Ok(empty);
        },
        Some(j) => j,
    };
    let entries = match json_map.as_object() {
        Some(es) => es,
        None => {
            return Err(EntityError::ExpectedObject);
        },
    };
    let ghost ses = deep_entries(entries@);
    let mut map: Vec<(Lang, String)> = Vec::new();
    let mut i: usize = 0;
    proof {
        lemma_deep_entries_len(entries@);
        assert(map.deep_view() =~= Seq::<(Seq<char>, Seq<char>)>::empty());
        assert(ses.skip(0) =~= ses);
    }
    let null = JsonValue::Null;
    while i < entries.len()
        invariant
            i <= entries@.len(),
            ses == deep_entries(entries@),
            ses.len() == entries@.len(),
            null.deep() == JsonV::Null,
            spec_text_keyval(spec_get(node.deep(), key@)) == spec_text_entries(
                ses,
                Seq::<(Seq<char>, Seq<char>)>::empty(),
            ),
            spec_text_entries(ses, Seq::empty()) == spec_text_entries(
                ses.skip(i as int),
                map.deep_view(),
            ),
        decreases entries@.len() - i,
    {
        proof {
            lemma_deep_entries_index(entries@, i as int);
            assert(ses.skip(i as int)[0] == ses[i as int]);
            assert(ses.skip(i as int).drop_first() =~= ses.skip(i as int + 1));
        }
        let entry = &entries[i];
        let val = &entry.1;
        if val.as_object().is_none() {
            return Err(EntityError::ExpectedObject);
        }
        let sv = match val.obj_get("value") {
            Some(x) => x,
            None => {
                return Err(EntityError::ExpectedLangString);
            },
        };
        let text = match sv.as_str() {
            Some(s) => s.clone(),
            None => {
                return Err(EntityError::ExpectedKeyvalTextString);
            },
        };
        upsert_lang_string(&mut map, Lang(entry.0.clone()), text);
        i = i + 1;
    }
    proof {
        assert(ses.skip(ses.len() as int) =~= Seq::<(Seq<char>, JsonV)>::empty());
    }
    Ok(map)
}

/// How one language's alias array decodes: entries without a string under
/// `value` are silently dropped.
pub open spec fn spec_alias_list(elems: Seq<JsonV>, acc: Seq<Seq<char>>) -> Seq<Seq<char>>
    decreases elems.len(),
{
    if elems.len() == 0 {
        acc
    } else {
        match spec_get(elems[0], "value"@) {
            Some(v) => match spec_as_str_v(v) {
                Some(s) => spec_alias_list(elems.drop_first(), acc.push(s)),
                None => spec_alias_list(elems.drop_first(), acc),
            },
            None => spec_alias_list(elems.drop_first(), acc),
        }
    }
}

/// How the aliases map decodes: each language must carry an array; the
/// array's usable entries are kept in order.
pub open spec fn spec_alias_entries(
    es: Seq<(Seq<char>, JsonV)>,
    acc: Seq<(Seq<char>, Seq<Seq<char>>)>,
) -> Result<Seq<(Seq<char>, Seq<Seq<char>>)>, EntityError>
    decreases es.len(),
{
    if es.len() == 0 {
        Ok(acc)
    } else {
        let k = es[0].0;
        match spec_as_array_v(es[0].1) {
            None => Err(EntityError::ExpectedAliasArray),
            Some(elems) => spec_alias_entries(
                es.drop_first(),
                map_upsert(acc, k, spec_alias_list(elems, Seq::empty())),
            ),
        }
    }
}

/// A missing aliases field is an empty map; a non-object one is an error.
pub open spec fn spec_aliases(o: Option<JsonV>) -> Result<
    Seq<(Seq<char>, Seq<Seq<char>>)>,
    EntityError,
> {
    match o {
        None => Ok(Seq::empty()),
        Some(j) => match j {
            JsonV::Object(es) => spec_alias_entries(es, Seq::empty()),
            _ => Err(EntityError::ExpectedObject),
        },
    }
}

/// Decode one language's alias array.
fn alias_list(elems: &Vec<JsonValue>) -> (r: Vec<String>)
    ensures
        r.deep_view() == spec_alias_list(deep_elems(elems@), Seq::<Seq<char>>::empty()),
{
    let ghost ses = deep_elems(elems@);
    let mut out: Vec<String> = Vec::new();
    let mut i: usize = 0;
    proof {
        lemma_deep_elems_len(elems@);
        assert(out.deep_view() =~= Seq::<Seq<char>>::empty());
        assert(ses.skip(0) =~= ses);
    }
    while i < elems.len()
        invariant
            i <= elems@.len(),
            ses == deep_elems(elems@),
            ses.len() == elems@.len(),
            spec_alias_list(ses, Seq::<Seq<char>>::empty()) == spec_alias_list(
                ses.skip(i as int),
                out.deep_view(),
            ),
        decreases elems@.len() - i,
    {
        proof {
            lemma_deep_elems_index(elems@, i as int);
            assert(ses.skip(i as int)[0] == ses[i as int]);
            assert(ses.skip(i as int).drop_first() =~= ses.skip(i as int + 1));
        }
        let ghost before = out.deep_view();
        match elems[i].obj_get("value") {
            Some(v) => match v.as_str() {
                Some(s) => {
                    out.push(s.clone());
                    proof {
                        assert(out.deep_view() =~= before.push(s@));
                    }
                },
                None => {},
            },
            None => {},
        }
        i = i + 1;
    }
    proof {
        assert(ses.skip(ses.len() as int) =~= Seq::<JsonV>::empty());
    }
    out
}

/// Decode the aliases map.
fn aliases_of(node: &JsonValue) -> (r: Result<Vec<(Lang, Vec<String>)>, EntityError>)
    ensures
        match r {
            Ok(m) => spec_aliases(spec_get(node.deep(), "aliases"@)) == Ok::<
                Seq<(Seq<char>, Seq<Seq<char>>)>,
                EntityError,
            >(m.deep_view()),
            Err(e) => spec_aliases(spec_get(node.deep(), "aliases"@)) == Err::<
                Seq<(Seq<char>, Seq<Seq<char>>)>,
                EntityError,
            >(e),
        },
{
    let json_map = match node.obj_get("aliases") {
        None => {
            let empty: Vec<(Lang, Vec<String>)> = Vec::new();
            proof {
                assert(empty.deep_view() =~= Seq::<(Seq<char>, Seq<Seq<char>>)>::empty());
            }
            return Ok(empty);
        },
        Some(j) => j,
    };
    let entries = match json_map.as_object() {
        Some(es) => es,
        None => {
            return Err(EntityError::ExpectedObject);
        },
    };
    let ghost ses = deep_entries(entries@);
    let mut map: Vec<(Lang, Vec<String>)> = Vec::new();
    let mut i: usize = 0;
    proof {
        lemma_deep_entries_len(entries@);
        assert(map.deep_view() =~= Seq::<(Seq<char>, Seq<Seq<char>>)>::empty());
        assert(ses.skip(0) =~= ses);
    }
    while i < entries.len()
        invariant
            i <= entries@.len(),
            ses == deep_entries(entries@),
            ses.len() == entries@.len(),
            spec_aliases(spec_get(node.deep(), "aliases"@)) == spec_alias_entries(
                ses,
                Seq::<(Seq<char>, Seq<Seq<char>>)>::empty(),
            ),
            spec_alias_entries(ses, Seq::empty()) == spec_alias_entries(
                ses.skip(i as int),
                map.deep_view(),
            ),
        decreases entries@.len() - i,
    {
        proof {
            lemma_deep_entries_index(entries@, i as int);
            assert(ses.skip(i as int)[0] == ses[i as int]);
            assert(ses.skip(i as int).drop_first() =~= ses.skip(i as int + 1));
        }
        let entry = &entries[i];
        let arr = match entry.1.as_array() {
            Some(a) => a,
            None => {
                return Err(EntityError::ExpectedAliasArray);
            },
        };
        let aliases = alias_list(arr);
        upsert_lang_vec(&mut map, Lang(entry.0.clone()), aliases);
        i = i + 1;
    }
    proof {
        assert(ses.skip(ses.len() as int) =~= Seq::<(Seq<char>, JsonV)>::empty());
    }
    Ok(map)
}

// ---------------------------------------------------------------------------
// Qualifiers
// ---------------------------------------------------------------------------

/// How one qualifier array decodes: every snak must decode, each keyed by
/// the governing property.
pub open spec fn spec_qual_snaks(
    snaks: Seq<JsonV>,
    pid: Pid,
    acc: Seq<(Pid, ClaimValueDataV)>,
) -> Result<Seq<(Pid, ClaimValueDataV)>, EntityError>
    decreases snaks.len(),
{
    if snaks.len() == 0 {
        Ok(acc)
    } else {
        match spec_parse_snak(snaks[0]) {
            Err(e) => Err(e),
            Ok(d) => spec_qual_snaks(snaks.drop_first(), pid, acc.push((pid, d))),
        }
    }
}

/// How the order array drives qualifier decoding: each listed property must
/// name a qualifier array, and its snaks land in array order.
pub open spec fn spec_qual_order(
    order: Seq<JsonV>,
    qes: Seq<(Seq<char>, JsonV)>,
    acc: Seq<(Pid, ClaimValueDataV)>,
) -> Result<Seq<(Pid, ClaimValueDataV)>, EntityError>
    decreases order.len(),
{
    if order.len() == 0 {
        Ok(acc)
    } else {
        match spec_as_str_v(order[0]) {
            None => Err(EntityError::NoId),
            Some(pid_str) => match spec_id_from_str(pid_str, 'P') {
                Err(_) => Err(EntityError::BadId),
                Ok(pidn) => match spec_entries_get(qes, pid_str) {
                    None => Err(EntityError::QualiferOrderNamesNonQualifier),
                    Some(ql) => match spec_as_array_v(ql) {
                        None => Err(EntityError::QualiferOrderNamesNonQualifier),
                        Some(snaks) => match spec_qual_snaks(snaks, Pid(pidn), acc) {
                            Err(e) => Err(e),
                            Ok(acc2) => spec_qual_order(order.drop_first(), qes, acc2),
                        },
                    },
                },
            },
        }
    }
}

/// How a claim's qualifiers decode: the order array is authoritative; where
/// it is absent but qualifiers are present, the claim is inconsistent and
/// refused; where both are absent there are no qualifiers.
pub open spec fn spec_qualifiers(claim: JsonV) -> Result<Seq<(Pid, ClaimValueDataV)>, EntityError> {
    let order_opt = match spec_get(claim, "qualifiers-order"@) {
        Some(ov) => spec_as_array_v(ov),
        None => None,
    };
    match order_opt {
        Some(order) => match spec_get(claim, "qualifiers"@) {
            None => Err(EntityError::QualifiersOrderButNoObject),
            Some(qj) => match spec_as_object_v(qj) {
                None => Err(EntityError::ExpectedObject),
                Some(qes) => spec_qual_order(order, qes, Seq::empty()),
            },
        },
        None => match spec_get(claim, "qualifiers"@) {
            Some(_) => Err(EntityError::NoQualifiersOrder),
            None => Ok(Seq::empty()),
        },
    }
}

fn qual_snaks(snaks: &Vec<JsonValue>, pid: Pid, out: &mut Vec<(Pid, ClaimValueData)>) -> (r:
    Result<(), EntityError>)
    ensures
        match r {
            Ok(_) => spec_qual_snaks(deep_elems(snaks@), pid, old(out).deep_view()) == Ok::<
                Seq<(Pid, ClaimValueDataV)>,
                EntityError,
            >(final(out).deep_view()),
            Err(e) => spec_qual_snaks(deep_elems(snaks@), pid, old(out).deep_view()) == Err::<
                Seq<(Pid, ClaimValueDataV)>,
                EntityError,
            >(e),
        },
{
    let ghost ses = deep_elems(snaks@);
    let ghost acc0 = old(out).deep_view();
    let mut i: usize = 0;
    proof {
        lemma_deep_elems_len(snaks@);
        assert(ses.skip(0) =~= ses);
    }
    while i < snaks.len()
        invariant
            i <= snaks@.len(),
            ses == deep_elems(snaks@),
            ses.len() == snaks@.len(),
            acc0 == old(out).deep_view(),
            spec_qual_snaks(ses, pid, acc0) == spec_qual_snaks(
                ses.skip(i as int),
                pid,
                out.deep_view(),
            ),
        decreases snaks@.len() - i,
    {
        proof {
            lemma_deep_elems_index(snaks@, i as int);
            assert(ses.skip(i as int)[0] == ses[i as int]);
            assert(ses.skip(i as int).drop_first() =~= ses.skip(i as int + 1));
        }
        let ghost before = out.deep_view();
        match ClaimValueData::parse_snak(&snaks[i]) {
            Ok(d) => {
                out.push((pid, d));
                proof {
                    assert(out.deep_view() =~= before.push((pid, d.deep_view())));
                }
            },
            Err(e) => {
                return Err(e);
            },
        }
        i = i + 1;
    }
    proof {
        assert(ses.skip(ses.len() as int) =~= Seq::<JsonV>::empty());
    }
    Ok(())
}

fn qual_order(
    order: &Vec<JsonValue>,
    qobj: &JsonValue,
    out: &mut Vec<(Pid, ClaimValueData)>,
) -> (r: Result<(), EntityError>)
    requires
        qobj.deep() is Object,
    ensures
        match r {
            Ok(_) => spec_qual_order(
                deep_elems(order@),
                qobj.deep()->Object_0,
                old(out).deep_view(),
            ) == Ok::<Seq<(Pid, ClaimValueDataV)>, EntityError>(final(out).deep_view()),
            Err(e) => spec_qual_order(
                deep_elems(order@),
                qobj.deep()->Object_0,
                old(out).deep_view(),
            ) == Err::<Seq<(Pid, ClaimValueDataV)>, EntityError>(e),
        },
{
    let ghost ses = deep_elems(order@);
    let ghost qes = qobj.deep()->Object_0;
    let ghost acc0 = old(out).deep_view();
    let mut i: usize = 0;
    proof {
        lemma_deep_elems_len(order@);
        assert(ses.skip(0) =~= ses);
    }
    while i < order.len()
        invariant
            i <= order@.len(),
            ses == deep_elems(order@),
            ses.len() == order@.len(),
            qobj.deep() is Object,
            qes == qobj.deep()->Object_0,
            acc0 == old(out).deep_view(),
            spec_qual_order(ses, qes, acc0) == spec_qual_order(
                ses.skip(i as int),
                qes,
                out.deep_view(),
            ),
        decreases order@.len() - i,
    {
        proof {
            lemma_deep_elems_index(order@, i as int);
            assert(ses.skip(i as int)[0] == ses[i as int]);
            assert(ses.skip(i as int).drop_first() =~= ses.skip(i as int + 1));
        }
        let pid_str = match order[i].as_str() {
            Some(s) => s,
            None => {
                return Err(EntityError::NoId);
            },
        };
        let pid = match Pid::from_str(pid_str.as_str()) {
            Ok(p) => p,
            Err(_) => {
                return Err(EntityError::BadId);
            },
        };
        let ql = match qobj.obj_get(pid_str.as_str()) {
            Some(x) => x,
            None => {
                return Err(EntityError::QualiferOrderNamesNonQualifier);
            },
        };
        let snaks = match ql.as_array() {
            Some(a) => a,
            None => {
                return Err(EntityError::QualiferOrderNamesNonQualifier);
            },
        };
        match qual_snaks(snaks, pid, out) {
            Ok(_) => {},
            Err(e) => {
                return Err(e);
            },
        }
        i = i + 1;
    }
    proof {
        assert(ses.skip(ses.len() as int) =~= Seq::<JsonV>::empty());
    }
    Ok(())
}

fn claim_qualifiers(claim: &JsonValue) -> (r: Result<Vec<(Pid, ClaimValueData)>, EntityError>)
    ensures
        match r {
            Ok(q) => spec_qualifiers(claim.deep()) == Ok::<
                Seq<(Pid, ClaimValueDataV)>,
                EntityError,
            >(q.deep_view()),
            Err(e) => spec_qualifiers(claim.deep()) == Err::<
                Seq<(Pid, ClaimValueDataV)>,
                EntityError,
            >(e),
        },
{
    let order = match claim.obj_get("qualifiers-order") {
        Some(ov) => match ov.as_array() {
            Some(a) => Some(a),
            None => None,
        },
        None => None,
    };
    match order {
        Some(order_arr) => {
            let qj = match claim.obj_get("qualifiers") {
                Some(x) => x,
                None => {
                    return Err(EntityError::QualifiersOrderButNoObject);
                },
            };
            if qj.as_object().is_none() {
                return Err(EntityError::ExpectedObject);
            }
            let mut out: Vec<(Pid, ClaimValueData)> = Vec::new();
            proof {
                assert(out.deep_view() =~= Seq::<(Pid, ClaimValueDataV)>::empty());
            }
            match qual_order(order_arr, qj, &mut out) {
                Ok(_) => Ok(out),
                Err(e) => Err(e),
            }
        },
        None => {
            match claim.obj_get("qualifiers") {
                Some(_) => Err(EntityError::NoQualifiersOrder),
                None => {
                    let out: Vec<(Pid, ClaimValueData)> = Vec::new();
                    proof {
                        assert(out.deep_view() =~= Seq::<(Pid, ClaimValueDataV)>::empty());
                    }
                    Ok(out)
                },
            }
        },
    }
}

// ---------------------------------------------------------------------------
// References
// ---------------------------------------------------------------------------

/// How the snaks of one listed property decode within a reference group:
/// the property id is read and the snaks decoded, one pair per snak.
pub open spec fn spec_ref_snaks(
    subs: Seq<JsonV>,
    pid_str: Seq<char>,
    acc: Seq<(Pid, ClaimValueDataV)>,
) -> Result<Seq<(Pid, ClaimValueDataV)>, EntityError>
    decreases subs.len(),
{
    if subs.len() == 0 {
        Ok(acc)
    } else {
        match spec_id_from_str(pid_str, 'P') {
            Err(_) => Err(EntityError::BadId),
            Ok(p) => match spec_parse_snak(subs[0]) {
                Err(e) => Err(e),
                Ok(d) => spec_ref_snaks(subs.drop_first(), pid_str, acc.push((Pid(p), d))),
            },
        }
    }
}

/// How a reference group's order array drives decoding: each listed
/// property must name an array of snaks.
pub open spec fn spec_ref_order(
    order: Seq<JsonV>,
    snaks: Seq<(Seq<char>, JsonV)>,
    acc: Seq<(Pid, ClaimValueDataV)>,
) -> Result<Seq<(Pid, ClaimValueDataV)>, EntityError>
    decreases order.len(),
{
    if order.len() == 0 {
        Ok(acc)
    } else {
        match spec_as_str_v(order[0]) {
            None => Err(EntityError::ExpectedPidString),
            Some(pid_str) => match spec_entries_get(snaks, pid_str) {
                None => Err(EntityError::SnaksOrderIncludesNonSnak),
                Some(sv) => match spec_as_array_v(sv) {
                    None => Err(EntityError::ExpectedReferenceArray),
                    Some(subs) => match spec_ref_snaks(subs, pid_str, acc) {
                        Err(e) => Err(e),
                        Ok(acc2) => spec_ref_order(order.drop_first(), snaks, acc2),
                    },
                },
            },
        }
    }
}

/// How one reference group decodes: its snaks object, its authoritative
/// order array, and its required content hash.
pub open spec fn spec_ref_group(g: JsonV) -> Result<ReferenceGroupV, EntityError> {
    match spec_get(g, "snaks"@) {
        None => Err(EntityError::NoReferenceSnaks),
        Some(sj) => match spec_as_object_v(sj) {
            None => Err(EntityError::ExpectedObject),
            Some(snaks) => {
                let order_opt = match spec_get(g, "snaks-order"@) {
                    Some(ov) => spec_as_array_v(ov),
                    None => None,
                };
                match order_opt {
                    None => Err(EntityError::NoSnakOrder),
                    Some(order) => match spec_ref_order(order, snaks, Seq::empty()) {
                        Err(e) => Err(e),
                        Ok(claims) => match spec_get(g, "hash"@) {
                            None => Err(EntityError::NoHash),
                            Some(hv) => match spec_as_str_v(hv) {
                                None => Err(EntityError::ExpectedHashString),
                                Some(hash) => Ok(ReferenceGroupV { claims, hash }),
                            },
                        },
                    },
                }
            },
        },
    }
}

/// How a claim's reference groups decode, in array order.
pub open spec fn spec_ref_groups(groups: Seq<JsonV>, acc: Seq<ReferenceGroupV>) -> Result<
    Seq<ReferenceGroupV>,
    EntityError,
>
    decreases groups.len(),
{
    if groups.len() == 0 {
        Ok(acc)
    } else {
        match spec_ref_group(groups[0]) {
            Err(e) => Err(e),
            Ok(g) => spec_ref_groups(groups.drop_first(), acc.push(g)),
        }
    }
}

/// A claim without a references array has no references; one with a
/// references field of another shape has none either.
pub open spec fn spec_references(claim: JsonV) -> Result<Seq<ReferenceGroupV>, EntityError> {
    let o = match spec_get(claim, "references"@) {
        Some(rv) => spec_as_array_v(rv),
        None => None,
    };
    match o {
        Some(groups) => spec_ref_groups(groups, Seq::empty()),
        None => Ok(Seq::empty()),
    }
}

fn ref_snaks(subs: &Vec<JsonValue>, pid_str: &String, out: &mut Vec<(Pid, ClaimValueData)>) -> (r:
    Result<(), EntityError>)
    ensures
        match r {
            Ok(_) => spec_ref_snaks(deep_elems(subs@), pid_str@, old(out).deep_view()) == Ok::<
                Seq<(Pid, ClaimValueDataV)>,
                EntityError,
            >(final(out).deep_view()),
            Err(e) => spec_ref_snaks(deep_elems(subs@), pid_str@, old(out).deep_view()) == Err::<
                Seq<(Pid, ClaimValueDataV)>,
                EntityError,
            >(e),
        },
{
    let ghost ses = deep_elems(subs@);
    let ghost acc0 = old(out).deep_view();
    let mut i: usize = 0;
    proof {
        lemma_deep_elems_len(subs@);
        assert(ses.skip(0) =~= ses);
    }
    while i < subs.len()
        invariant
            i <= subs@.len(),
            ses == deep_elems(subs@),
            ses.len() == subs@.len(),
            acc0 == old(out).deep_view(),
            spec_ref_snaks(ses, pid_str@, acc0) == spec_ref_snaks(
                ses.skip(i as int),
                pid_str@,
                out.deep_view(),
            ),
        decreases subs@.len() - i,
    {
        proof {
            lemma_deep_elems_index(subs@, i as int);
            assert(ses.skip(i as int)[0] == ses[i as int]);
            assert(ses.skip(i as int).drop_first() =~= ses.skip(i as int + 1));
        }
        let pid = match Pid::from_str(pid_str.as_str()) {
            Ok(p) => p,
            Err(_) => {
                return Err(EntityError::BadId);
            },
        };
        let ghost before = out.deep_view();
        match ClaimValueData::parse_snak(&subs[i]) {
            Ok(d) => {
                out.push((pid, d));
                proof {
                    assert(out.deep_view() =~= before.push((pid, d.deep_view())));
                }
            },
            Err(e) => {
                return Err(e);
            },
        }
        i = i + 1;
    }
    proof {
        assert(ses.skip(ses.len() as int) =~= Seq::<JsonV>::empty());
    }
    Ok(())
}

fn ref_order(order: &Vec<JsonValue>, sobj: &JsonValue, out: &mut Vec<(Pid, ClaimValueData)>) -> (r:
    Result<(), EntityError>)
    requires
        sobj.deep() is Object,
    ensures
        match r {
            Ok(_) => spec_ref_order(
                deep_elems(order@),
                sobj.deep()->Object_0,
                old(out).deep_view(),
            ) == Ok::<Seq<(Pid, ClaimValueDataV)>, EntityError>(final(out).deep_view()),
            Err(e) => spec_ref_order(
                deep_elems(order@),
                sobj.deep()->Object_0,
                old(out).deep_view(),
            ) == Err::<Seq<(Pid, ClaimValueDataV)>, EntityError>(e),
        },
{
    let ghost ses = deep_elems(order@);
    let ghost snaks = sobj.deep()->Object_0;
    let ghost acc0 = old(out).deep_view();
    let mut i: usize = 0;
    proof {
        lemma_deep_elems_len(order@);
        assert(ses.skip(0) =~= ses);
    }
    while i < order.len()
        invariant
            i <= order@.len(),
            ses == deep_elems(order@),
            ses.len() == order@.len(),
            sobj.deep() is Object,
            snaks == sobj.deep()->Object_0,
            acc0 == old(out).deep_view(),
            spec_ref_order(ses, snaks, acc0) == spec_ref_order(
                ses.skip(i as int),
                snaks,
                out.deep_view(),
            ),
        decreases order@.len() - i,
    {
        proof {
            lemma_deep_elems_index(order@, i as int);
            assert(ses.skip(i as int)[0] == ses[i as int]);
            assert(ses.skip(i as int).drop_first() =~= ses.skip(i as int + 1));
        }
        let pid_str = match order[i].as_str() {
            Some(s) => s,
            None => {
                return Err(EntityError::ExpectedPidString);
            },
        };
        let sv = match sobj.obj_get(pid_str.as_str()) {
            Some(x) => x,
            None => {
                return Err(EntityError::SnaksOrderIncludesNonSnak);
            },
        };
        let subs = match sv.as_array() {
            Some(a) => a,
            None => {
                return Err(EntityError::ExpectedReferenceArray);
            },
        };
        match ref_snaks(subs, pid_str, out) {
            Ok(_) => {},
            Err(e) => {
                return Err(e);
            },
        }
        i = i + 1;
    }
    proof {
        assert(ses.skip(ses.len() as int) =~= Seq::<JsonV>::empty());
    }
    Ok(())
}

fn ref_group(g: &JsonValue) -> (r: Result<ReferenceGroup, EntityError>)
    ensures
        match r {
            Ok(rg) => spec_ref_group(g.deep()) == Ok::<ReferenceGroupV, EntityError>(
                rg.deep_view(),
            ),
            Err(e) => spec_ref_group(g.deep()) == Err::<ReferenceGroupV, EntityError>(e),
        },
{
    let sj = match g.obj_get("snaks") {
        Some(x) => x,
        None => {
            return Err(EntityError::NoReferenceSnaks);
        },
    };
    if sj.as_object().is_none() {
        return Err(EntityError::ExpectedObject);
    }
    let order = match g.obj_get("snaks-order") {
        Some(ov) => match ov.as_array() {
            Some(a) => Some(a),
            None => None,
        },
        None => None,
    };
    let order_arr = match order {
        Some(a) => a,
        None => {
            return Err(EntityError::NoSnakOrder);
        },
    };
    let mut claims: Vec<(Pid, ClaimValueData)> = Vec::new();
    proof {
        assert(claims.deep_view() =~= Seq::<(Pid, ClaimValueDataV)>::empty());
    }
    match ref_order(order_arr, sj, &mut claims) {
        Ok(_) => {},
        Err(e) => {
            return Err(e);
        },
    }
    let hv = match g.obj_get("hash") {
        Some(x) => x,
        None => {
            return Err(EntityError::NoHash);
        },
    };
    let hash = match hv.as_str() {
        Some(s) => s.clone(),
        None => {
            return Err(EntityError::ExpectedHashString);
        },
    };
    Ok(ReferenceGroup { claims, hash })
}

fn claim_references(claim: &JsonValue) -> (r: Result<Vec<ReferenceGroup>, EntityError>)
    ensures
        match r {
            Ok(rs) => spec_references(claim.deep()) == Ok::<Seq<ReferenceGroupV>, EntityError>(
                rs.deep_view(),
            ),
            Err(e) => spec_references(claim.deep()) == Err::<Seq<ReferenceGroupV>, EntityError>(e),
        },
{
    let groups = match claim.obj_get("references") {
        Some(rv) => match rv.as_array() {
            Some(a) => Some(a),
            None => None,
        },
        None => None,
    };
    let groups_arr = match groups {
        Some(a) => a,
        None => {
            let empty: Vec<ReferenceGroup> = Vec::new();
            proof {
                assert(empty.deep_view() =~= Seq::<ReferenceGroupV>::empty());
            }
            return Ok(empty);
        },
    };
    let ghost ses = deep_elems(groups_arr@);
    let mut out: Vec<ReferenceGroup> = Vec::new();
    let mut i: usize = 0;
    proof {
        lemma_deep_elems_len(groups_arr@);
        assert(out.deep_view() =~= Seq::<ReferenceGroupV>::empty());
        assert(ses.skip(0) =~= ses);
    }
    while i < groups_arr.len()
        invariant
            i <= groups_arr@.len(),
            ses == deep_elems(groups_arr@),
            ses.len() == groups_arr@.len(),
            spec_references(claim.deep()) == spec_ref_groups(ses, Seq::<ReferenceGroupV>::empty()),
            spec_ref_groups(ses, Seq::empty()) == spec_ref_groups(
                ses.skip(i as int),
                out.deep_view(),
            ),
        decreases groups_arr@.len() - i,
    {
        proof {
            lemma_deep_elems_index(groups_arr@, i as int);
            assert(ses.skip(i as int)[0] == ses[i as int]);
            assert(ses.skip(i as int).drop_first() =~= ses.skip(i as int + 1));
        }
        let ghost before = out.deep_view();
        match ref_group(&groups_arr[i]) {
            Ok(rg) => {
                out.push(rg);
                proof {
                    assert(out.deep_view() =~= before.push(rg.deep_view()));
                }
            },
            Err(e) => {
                return Err(e);
            },
        }
        i = i + 1;
    }
    proof {
        assert(ses.skip(ses.len() as int) =~= Seq::<JsonV>::empty());
    }
    Ok(out)
}

// ---------------------------------------------------------------------------
// Claims and the entity decoder
// ---------------------------------------------------------------------------

/// How one claim decodes, in order: its rank, its mainsnak, its qualifiers,
/// its reference groups, and its required claim id.
pub open spec fn spec_claim(claim: JsonV) -> Result<ClaimValueV, EntityError> {
    match spec_get(claim, "rank"@) {
        None => Err(EntityError::NoRank),
        Some(rv) => match spec_as_str_v(rv) {
            None => Err(EntityError::NoRank),
            Some(rs) => match spec_rank_from_str(rs) {
                Err(e) => Err(e),
                Ok(rank) => match spec_get(claim, "mainsnak"@) {
                    None => Err(EntityError::MissingMainsnak),
                    Some(ms) => match spec_parse_snak(ms) {
                        Err(e) => Err(e),
                        Ok(data) => match spec_qualifiers(claim) {
                            Err(e) => Err(e),
                            Ok(qualifiers) => match spec_references(claim) {
                                Err(e) => Err(e),
                                Ok(references) => match spec_get(claim, "id"@) {
                                    None => Err(EntityError::NoClaimId),
                                    Some(idv) => match spec_as_str_v(idv) {
                                        None => Err(EntityError::NoClaimId),
                                        Some(id) => Ok(
                                            ClaimValueV { data, rank, id, qualifiers, references },
                                        ),
                                    },
                                },
                            },
                        },
                    },
                },
            },
        },
    }
}

/// How a property's claim array decodes: each claim in array order, keyed
/// by the property.
pub open spec fn spec_claim_list(
    cl: Seq<JsonV>,
    pid: Pid,
    acc: Seq<(Pid, ClaimValueV)>,
) -> Result<Seq<(Pid, ClaimValueV)>, EntityError>
    decreases cl.len(),
{
    if cl.len() == 0 {
        Ok(acc)
    } else {
        match spec_claim(cl[0]) {
            Err(e) => Err(e),
            Ok(cv) => spec_claim_list(cl.drop_first(), pid, acc.push((pid, cv))),
        }
    }
}

/// How the claims object decodes: each key must be a property id, each
/// value an array of claims; entries land in the object's order.
pub open spec fn spec_claims(
    es: Seq<(Seq<char>, JsonV)>,
    acc: Seq<(Pid, ClaimValueV)>,
) -> Result<Seq<(Pid, ClaimValueV)>, EntityError>
    decreases es.len(),
{
    if es.len() == 0 {
        Ok(acc)
    } else {
        match spec_id_from_str(es[0].0, 'P') {
            Err(_) => Err(EntityError::BadId),
            Ok(pidn) => match spec_as_array_v(es[0].1) {
                None => Err(EntityError::ExpectedClaimArray),
                Some(cl) => match spec_claim_list(cl, Pid(pidn), acc) {
                    Err(e) => Err(e),
                    Ok(acc2) => spec_claims(es.drop_first(), acc2),
                },
            },
        }
    }
}

/// How the envelope unwraps: a document with an `entities` map must hold
/// exactly one entity, which becomes the working node; any other document
/// is the working node itself.
pub open spec fn spec_envelope(doc: JsonV) -> Result<JsonV, EntityError> {
    match spec_get(doc, "entities"@) {
        None => Ok(doc),
        Some(ents) => match ents {
            JsonV::Object(es) => if es.len() == 0 {
                Err(EntityError::NoEntities)
            } else if es.len() > 1 {
                Err(EntityError::MultipleEntities)
            } else {
                Ok(es[0].1)
            },
            _ => Err(EntityError::ExpectedObject),
        },
    }
}

/// Which entity kind the `type` field names.
pub open spec fn spec_entity_type(node: JsonV) -> Result<EntityType, EntityError> {
    match spec_get(node, "type"@) {
        None => Err(EntityError::NoEntityType),
        Some(tv) => match spec_as_str_v(tv) {
            None => Err(EntityError::NoEntityType),
            Some(t) => if t == "item"@ {
                Ok(EntityType::Entity)
            } else if t == "property"@ {
                Ok(EntityType::Property)
            } else if t == "lexeme"@ {
                Ok(EntityType::Lexeme)
            } else {
                Err(EntityError::NoEntityType)
            },
        },
    }
}

/// What decoding a whole document yields: the envelope unwrapped, then the
/// identifier, labels, descriptions, aliases, entity type and claims, in
/// that order; any failure aborts the whole decode.
pub open spec fn spec_from_json(doc: JsonV) -> Result<EntityV, EntityError> {
    match spec_envelope(doc) {
        Err(e) => Err(e),
        Ok(node) => match spec_get(node, "id"@) {
            None => Err(EntityError::ExpectedObject),
            Some(idv) => match spec_as_str_v(idv) {
                None => Err(EntityError::ExpectedKeyvalTextString),
                Some(raw) => match spec_wiki_id_from_str(raw) {
                    Err(_) => Err(EntityError::NoId),
                    Ok(id) => match spec_text_keyval(spec_get(node, "labels"@)) {
                        Err(e) => Err(e),
                        Ok(labels) => match spec_text_keyval(spec_get(node, "descriptions"@)) {
                            Err(e) => Err(e),
                            Ok(descriptions) => match spec_aliases(spec_get(node, "aliases"@)) {
                                Err(e) => Err(e),
                                Ok(aliases) => match spec_entity_type(node) {
                                    Err(e) => Err(e),
                                    Ok(entity_type) => match spec_get(node, "claims"@) {
                                        None => Err(EntityError::NoClaims),
                                        Some(cj) => match spec_as_object_v(cj) {
                                            None => Err(EntityError::ExpectedObject),
                                            Some(ces) => match spec_claims(ces, Seq::empty()) {
                                                Err(e) => Err(e),
                                                Ok(claims) => Ok(
                                                    EntityV {
                                                        id,
                                                        claims,
                                                        entity_type,
                                                        descriptions,
                                                        labels,
                                                        aliases,
                                                    },
                                                ),
                                            },
                                        },
                                    },
                                },
                            },
                        },
                    },
                },
            },
        },
    }
}

fn decode_claim(claim: &JsonValue) -> (r: Result<ClaimValue, EntityError>)
    ensures
        match r {
            Ok(cv) => spec_claim(claim.deep()) == Ok::<ClaimValueV, EntityError>(cv.deep_view()),
            Err(e) => spec_claim(claim.deep()) == Err::<ClaimValueV, EntityError>(e),
        },
{
    let rv = match claim.obj_get("rank") {
        Some(x) => x,
        None => {
            return Err(EntityError::NoRank);
        },
    };
    let rs = match rv.as_str() {
        Some(s) => s,
        None => {
            return Err(EntityError::NoRank);
        },
    };
    let rank = match Rank::from_str(rs.as_str()) {
        Ok(rk) => rk,
        Err(e) => {
            return Err(e);
        },
    };
    let ms = match claim.obj_get("mainsnak") {
        Some(x) => x,
        None => {
            return Err(EntityError::MissingMainsnak);
        },
    };
    let data = match ClaimValueData::parse_snak(ms) {
        Ok(d) => d,
        Err(e) => {
            return Err(e);
        },
    };
    let qualifiers = match claim_qualifiers(claim) {
        Ok(q) => q,
        Err(e) => {
            return Err(e);
        },
    };
    let references = match claim_references(claim) {
        Ok(rs2) => rs2,
        Err(e) => {
            return Err(e);
        },
    };
    let idv = match claim.obj_get("id") {
        Some(x) => x,
        None => {
            return Err(EntityError::NoClaimId);
        },
    };
    let id = match idv.as_str() {
        Some(s) => s.clone(),
        None => {
            return Err(EntityError::NoClaimId);
        },
    };
    Ok(ClaimValue { data, rank, id, qualifiers, references })
}

fn claim_list(cl: &Vec<JsonValue>, pid: Pid, out: &mut Vec<(Pid, ClaimValue)>) -> (r: Result<
    (),
    EntityError,
>)
    ensures
        match r {
            Ok(_) => spec_claim_list(deep_elems(cl@), pid, old(out).deep_view()) == Ok::<
                Seq<(Pid, ClaimValueV)>,
                EntityError,
            >(final(out).deep_view()),
            Err(e) => spec_claim_list(deep_elems(cl@), pid, old(out).deep_view()) == Err::<
                Seq<(Pid, ClaimValueV)>,
                EntityError,
            >(e),
        },
{
    let ghost ses = deep_elems(cl@);
    let ghost acc0 = old(out).deep_view();
    let mut i: usize = 0;
    proof {
        lemma_deep_elems_len(cl@);
        assert(ses.skip(0) =~= ses);
    }
    while i < cl.len()
        invariant
            i <= cl@.len(),
            ses == deep_elems(cl@),
            ses.len() == cl@.len(),
            acc0 == old(out).deep_view(),
            spec_claim_list(ses, pid, acc0) == spec_claim_list(
                ses.skip(i as int),
                pid,
                out.deep_view(),
            ),
        decreases cl@.len() - i,
    {
        proof {
            lemma_deep_elems_index(cl@, i as int);
            assert(ses.skip(i as int)[0] == ses[i as int]);
            assert(ses.skip(i as int).drop_first() =~= ses.skip(i as int + 1));
        }
        let ghost before = out.deep_view();
        match decode_claim(&cl[i]) {
            Ok(cv) => {
                out.push((pid, cv));
                proof {
                    assert(out.deep_view() =~= before.push((pid, cv.deep_view())));
                }
            },
            Err(e) => {
                return Err(e);
            },
        }
        i = i + 1;
    }
    proof {
        assert(ses.skip(ses.len() as int) =~= Seq::<JsonV>::empty());
    }
    Ok(())
}

fn claims_of(node: &JsonValue) -> (r: Result<Vec<(Pid, ClaimValue)>, EntityError>)
    ensures
        match r {
            Ok(cs) => match spec_get(node.deep(), "claims"@) {
                None => false,
                Some(cj) => match spec_as_object_v(cj) {
                    None => false,
                    Some(ces) => spec_claims(ces, Seq::empty()) == Ok::<
                        Seq<(Pid, ClaimValueV)>,
                        EntityError,
                    >(cs.deep_view()),
                },
            },
            Err(e) => match spec_get(node.deep(), "claims"@) {
                None => e == EntityError::NoClaims,
                Some(cj) => match spec_as_object_v(cj) {
                    None => e == EntityError::ExpectedObject,
                    Some(ces) => spec_claims(ces, Seq::empty()) == Err::<
                        Seq<(Pid, ClaimValueV)>,
                        EntityError,
                    >(e),
                },
            },
        },
{
    let cj = match node.obj_get("claims") {
        Some(x) => x,
        None => {
            return Err(EntityError::NoClaims);
        },
    };
    let entries = match cj.as_object() {
        Some(es) => es,
        None => {
            return Err(EntityError::ExpectedObject);
        },
    };
    let ghost ses = deep_entries(entries@);
    let mut out: Vec<(Pid, ClaimValue)> = Vec::new();
    let mut i: usize = 0;
    proof {
        lemma_deep_entries_len(entries@);
        assert(out.deep_view() =~= Seq::<(Pid, ClaimValueV)>::empty());
        assert(ses.skip(0) =~= ses);
    }
    while i < entries.len()
        invariant
            i <= entries@.len(),
            ses == deep_entries(entries@),
            ses.len() == entries@.len(),
            cj.deep() == JsonV::Object(ses),
            spec_get(node.deep(), "claims"@) == Some(cj.deep()),
            spec_claims(ses, Seq::empty()) == spec_claims(ses.skip(i as int), out.deep_view()),
        decreases entries@.len() - i,
    {
        proof {
            lemma_deep_entries_index(entries@, i as int);
            assert(ses.skip(i as int)[0] == ses[i as int]);
            assert(ses.skip(i as int).drop_first() =~= ses.skip(i as int + 1));
        }
        let entry = &entries[i];
        let pid = match Pid::from_str(entry.0.as_str()) {
            Ok(p) => p,
            Err(_) => {
                return Err(EntityError::BadId);
            },
        };
        let cl = match entry.1.as_array() {
            Some(a) => a,
            None => {
                return Err(EntityError::ExpectedClaimArray);
            },
        };
        match claim_list(cl, pid, &mut out) {
            Ok(_) => {},
            Err(e) => {
                return Err(e);
            },
        }
        i = i + 1;
    }
    proof {
        assert(ses.skip(ses.len() as int) =~= Seq::<(Seq<char>, JsonV)>::empty());
    }
    Ok(out)
}

impl Entity {
    /// Construct an entity from its Wikibase JSON representation. The input
    /// is either the entity object itself, or a multi-entity envelope
    /// holding exactly one entity.
    pub fn from_json(json: &JsonValue) -> (r: Result<Self, EntityError>)
        ensures
            match r {
                Ok(ent) => spec_from_json(json.deep()) == Ok::<EntityV, EntityError>(
                    ent.deep_view(),
                ),
                Err(e) => spec_from_json(json.deep()) == Err::<EntityV, EntityError>(e),
            },
    {
        let node = match json.obj_get("entities") {
            None => json,
            Some(ents) => {
                let es = match ents.as_object() {
                    Some(es) => es,
                    None => {
                        return Err(EntityError::ExpectedObject);
                    },
                };
                proof {
                    lemma_deep_entries_len(es@);
                }
                if es.len() == 0 {
                    return Err(EntityError::NoEntities);
                }
                if es.len() > 1 {
                    return Err(EntityError::MultipleEntities);
                }
                proof {
                    lemma_deep_entries_index(es@, 0);
                }
                &es[0].1
            },
        };
        proof {
            assert(spec_envelope(json.deep()) == Ok::<JsonV, EntityError>(node.deep()));
        }
        let idv = match node.obj_get("id") {
            Some(x) => x,
            None => {
                return Err(EntityError::ExpectedObject);
            },
        };
        let raw = match idv.as_str() {
            Some(s) => s,
            None => {
                return Err(EntityError::ExpectedKeyvalTextString);
            },
        };
        let id = match WikiId::from_str(raw.as_str()) {
            Ok(w) => w,
            Err(_) => {
                return Err(EntityError::NoId);
            },
        };
        let labels = match text_keyval(node, "labels") {
            Ok(m) => m,
            Err(e) => {
                return Err(e);
            },
        };
        let descriptions = match text_keyval(node, "descriptions") {
            Ok(m) => m,
            Err(e) => {
                return Err(e);
            },
        };
        let aliases = match aliases_of(node) {
            Ok(m) => m,
            Err(e) => {
                return Err(e);
            },
        };
        let tv = match node.obj_get("type") {
            Some(x) => x,
            None => {
                return Err(EntityError::NoEntityType);
            },
        };
        let ts = match tv.as_str() {
            Some(s) => s,
            None => {
                return Err(EntityError::NoEntityType);
            },
        };
        let entity_type = if str_eq(ts.as_str(), "item") {
            EntityType::Entity
        } else if str_eq(ts.as_str(), "property") {
            EntityType::Property
        } else if str_eq(ts.as_str(), "lexeme") {
            EntityType::Lexeme
        } else {
            return Err(EntityError::NoEntityType);
        };
        let claims = match claims_of(node) {
            Ok(cs) => cs,
            Err(e) => {
                return Err(e);
            },
        };
        Ok(Entity { id, claims, entity_type, descriptions, labels, aliases })
    }
}

// ---------------------------------------------------------------------------
// The lenient claim reader
// ---------------------------------------------------------------------------

/// How the lenient reader takes a rank: a missing or unknown rank word, and
/// the deprecated rank, all end the read without a claim.
pub open spec fn spec_lenient_rank(claim: JsonV) -> Option<Rank> {
    match spec_as_str_v(spec_take(claim, "rank"@)) {
        None => None,
        Some(rs) => if rs == "deprecated"@ {
            None
        } else if rs == "normal"@ {
            Some(Rank::Normal)
        } else if rs == "preferred"@ {
            Some(Rank::Preferred)
        } else {
            None
        },
    }
}

/// How the lenient reader takes a property from an object key: the key's
/// first character is dropped and the rest read as a number.
pub open spec fn spec_lenient_pid(key: Seq<char>) -> Option<Pid> {
    if key.len() == 0 {
        None
    } else {
        match spec_parse_uint(key.drop_first(), u64::MAX as nat) {
            Some(v) => Some(Pid(v as u64)),
            None => None,
        }
    }
}

/// How the lenient reader walks one snak array: snaks that fail to decode
/// are skipped; a decoded snak whose key yields no property ends the read.
pub open spec fn spec_lenient_snaks(
    snaks: Seq<JsonV>,
    key: Seq<char>,
    acc: Seq<(Pid, ClaimValueDataV)>,
) -> Option<Seq<(Pid, ClaimValueDataV)>>
    decreases snaks.len(),
{
    if snaks.len() == 0 {
        Some(acc)
    } else {
        match spec_parse_snak(snaks[0]) {
            Ok(d) => match spec_lenient_pid(key) {
                None => None,
                Some(p) => spec_lenient_snaks(snaks.drop_first(), key, acc.push((p, d))),
            },
            Err(_) => spec_lenient_snaks(snaks.drop_first(), key, acc),
        }
    }
}

/// How the lenient reader walks a snaks object where no order array is
/// given: entry order, each entry an array of snaks keyed by the entry's
/// key. This is only the fallback; a present order array governs instead.
pub open spec fn spec_lenient_snak_entries(
    es: Seq<(Seq<char>, JsonV)>,
    acc: Seq<(Pid, ClaimValueDataV)>,
) -> Option<Seq<(Pid, ClaimValueDataV)>>
    decreases es.len(),
{
    if es.len() == 0 {
        Some(acc)
    } else {
        match spec_as_array_v(es[0].1) {
            None => None,
            Some(snaks) => match spec_lenient_snaks(snaks, es[0].0, acc) {
                None => None,
                Some(acc2) => spec_lenient_snak_entries(es.drop_first(), acc2),
            },
        }
    }
}

/// How the lenient reader follows an order array: each listed property must
/// be a string naming an array of snaks in the object, and its snaks land
/// in array order, those that fail to decode skipped. The order array, not
/// the object's entry order, fixes the output order.
pub open spec fn spec_lenient_ordered(
    order: Seq<JsonV>,
    es: Seq<(Seq<char>, JsonV)>,
    acc: Seq<(Pid, ClaimValueDataV)>,
) -> Option<Seq<(Pid, ClaimValueDataV)>>
    decreases order.len(),
{
    if order.len() == 0 {
        Some(acc)
    } else {
        match spec_as_str_v(order[0]) {
            None => None,
            Some(key) => match spec_entries_get(es, key) {
                None => None,
                Some(ql) => match spec_as_array_v(ql) {
                    None => None,
                    Some(snaks) => match spec_lenient_snaks(snaks, key, acc) {
                        None => None,
                        Some(acc2) => spec_lenient_ordered(order.drop_first(), es, acc2),
                    },
                },
            },
        }
    }
}

/// How the lenient reader takes one reference group: a snaks object and a
/// hash, both required. A present `snaks-order` array is authoritative for
/// the order of the snaks; only where it is absent is the object walked in
/// entry order.
pub open spec fn spec_lenient_group(g: JsonV) -> Option<ReferenceGroupV> {
    if !(g is Object) {
        None
    } else {
        match spec_as_object_v(spec_take(g, "snaks"@)) {
            None => None,
            Some(ses) => {
                let order_opt = match spec_get(g, "snaks-order"@) {
                    Some(ov) => spec_as_array_v(ov),
                    None => None,
                };
                let claims_opt = match order_opt {
                    Some(order) => spec_lenient_ordered(order, ses, Seq::empty()),
                    None => spec_lenient_snak_entries(ses, Seq::empty()),
                };
                match claims_opt {
                    None => None,
                    Some(claims) => match spec_as_str_v(spec_take(g, "hash"@)) {
                        None => None,
                        Some(hash) => Some(ReferenceGroupV { claims, hash }),
                    },
                }
            },
        }
    }
}

/// How the lenient reader walks the reference groups, in array order.
pub open spec fn spec_lenient_groups(arr: Seq<JsonV>, acc: Seq<ReferenceGroupV>) -> Option<
    Seq<ReferenceGroupV>,
>
    decreases arr.len(),
{
    if arr.len() == 0 {
        Some(acc)
    } else {
        match spec_lenient_group(arr[0]) {
            None => None,
            Some(g) => spec_lenient_groups(arr.drop_first(), acc.push(g)),
        }
    }
}

/// A claim without a references array has none.
pub open spec fn spec_lenient_references(claim: JsonV) -> Option<Seq<ReferenceGroupV>> {
    match spec_as_array_v(spec_take(claim, "references"@)) {
        None => Some(Seq::empty()),
        Some(arr) => spec_lenient_groups(arr, Seq::empty()),
    }
}

/// A claim whose qualifiers field is no object has no qualifiers. A present
/// `qualifiers-order` array is authoritative for the qualifiers' order;
/// only where it is absent — an inconsistency lenient mode tolerates — is
/// the object walked in entry order.
pub open spec fn spec_lenient_qualifiers(claim: JsonV) -> Option<Seq<(Pid, ClaimValueDataV)>> {
    match spec_as_object_v(spec_take(claim, "qualifiers"@)) {
        None => Some(Seq::empty()),
        Some(qes) => {
            let order_opt = match spec_get(claim, "qualifiers-order"@) {
                Some(ov) => spec_as_array_v(ov),
                None => None,
            };
            match order_opt {
                Some(order) => spec_lenient_ordered(order, qes, Seq::empty()),
                None => spec_lenient_snak_entries(qes, Seq::empty()),
            }
        },
    }
}

/// What the lenient claim reader yields: a claim, or nothing — deprecated
/// ranks, undecodable mainsnaks and structural defects all end the read
/// without a claim rather than raising an error.
pub open spec fn spec_get_prop_from_snak(claim: JsonV, skip_id: bool) -> Option<ClaimValueV> {
    match spec_lenient_rank(claim) {
        None => None,
        Some(rank) => match spec_parse_snak(spec_take(claim, "mainsnak"@)) {
            Err(_) => None,
            Ok(data) => match spec_lenient_references(claim) {
                None => None,
                Some(references) => match spec_lenient_qualifiers(claim) {
                    None => None,
                    Some(qualifiers) => if skip_id {
                        Some(
                            ClaimValueV {
                                data,
                                rank,
                                id: Seq::empty(),
                                qualifiers,
                                references,
                            },
                        )
                    } else {
                        match spec_as_str_v(spec_take(claim, "id"@)) {
                            None => None,
                            Some(id) => Some(
                                ClaimValueV { data, rank, id, qualifiers, references },
                            ),
                        }
                    },
                },
            },
        },
    }
}

/// Read an object key leniently as a property.
fn lenient_pid(key: &String) -> (r: Option<Pid>)
    ensures
        r == spec_lenient_pid(key@),
{
    let cs = chars_of(key.as_str());
    if cs.len() == 0 {
        return None;
    }
    proof {
        assert(key@.drop_first() =~= cs@.subrange(1, cs@.len() as int));
    }
    match parse_uint(cs.as_slice(), 1, cs.len(), u64::MAX) {
        Some(v) => Some(Pid(v)),
        None => None,
    }
}

/// Walk a snaks object leniently, pushing what decodes.
fn lenient_snak_entries(entries: &Vec<(String, JsonValue)>, out: &mut Vec<(Pid, ClaimValueData)>)
    -> (r: bool)
    ensures
        match spec_lenient_snak_entries(deep_entries(entries@), old(out).deep_view()) {
            Some(acc) => r && final(out).deep_view() == acc,
            None => !r,
        },
{
    let ghost ses = deep_entries(entries@);
    let ghost acc0 = old(out).deep_view();
    let mut i: usize = 0;
    proof {
        lemma_deep_entries_len(entries@);
        assert(ses.skip(0) =~= ses);
    }
    while i < entries.len()
        invariant
            i <= entries@.len(),
            ses == deep_entries(entries@),
            ses.len() == entries@.len(),
            acc0 == old(out).deep_view(),
            spec_lenient_snak_entries(ses, acc0) == spec_lenient_snak_entries(
                ses.skip(i as int),
                out.deep_view(),
            ),
        decreases entries@.len() - i,
    {
        proof {
            lemma_deep_entries_index(entries@, i as int);
            assert(ses.skip(i as int)[0] == ses[i as int]);
            assert(ses.skip(i as int).drop_first() =~= ses.skip(i as int + 1));
        }
        let entry = &entries[i];
        let ghost key = entry.0@;
        let snaks = match entry.1.as_array() {
            Some(a) => a,
            None => {
                return false;
            },
        };
        let ghost sarr = deep_elems(snaks@);
        let ghost acc1 = out.deep_view();
        let mut j: usize = 0;
        proof {
            lemma_deep_elems_len(snaks@);
            assert(sarr.skip(0) =~= sarr);
        }
        while j < snaks.len()
            invariant
                j <= snaks@.len(),
                sarr == deep_elems(snaks@),
                sarr.len() == snaks@.len(),
                key == entries@[i as int].0@,
                i < entries@.len(),
                ses == deep_entries(entries@),
                ses.len() == entries@.len(),
                acc0 == old(out).deep_view(),
                spec_lenient_snak_entries(ses, acc0) == spec_lenient_snak_entries(
                    ses.skip(i as int),
                    acc1,
                ),
                ses[i as int] == (key, JsonV::Array(sarr)),
                spec_lenient_snaks(sarr, key, acc1) == spec_lenient_snaks(
                    sarr.skip(j as int),
                    key,
                    out.deep_view(),
                ),
            decreases snaks@.len() - j,
        {
            proof {
                lemma_deep_elems_index(snaks@, j as int);
                assert(sarr.skip(j as int)[0] == sarr[j as int]);
                assert(sarr.skip(j as int).drop_first() =~= sarr.skip(j as int + 1));
            }
            let ghost before = out.deep_view();
            match ClaimValueData::parse_snak(&snaks[j]) {
                Ok(d) => {
                    let p = match lenient_pid(&entries[i].0) {
                        Some(p) => p,
                        None => {
                            return false;
                        },
                    };
                    out.push((p, d));
                    proof {
                        assert(out.deep_view() =~= before.push((p, d.deep_view())));
                    }
                },
                Err(_) => {},
            }
            j = j + 1;
        }
        proof {
            assert(sarr.skip(sarr.len() as int) =~= Seq::<JsonV>::empty());
        }
        i = i + 1;
    }
    proof {
        assert(ses.skip(ses.len() as int) =~= Seq::<(Seq<char>, JsonV)>::empty());
    }
    true
}

/// Walk an order array leniently: each listed property must name an array
/// of snaks in the object; what decodes is pushed in array order.
fn lenient_ordered(
    order: &Vec<JsonValue>,
    obj: &JsonValue,
    out: &mut Vec<(Pid, ClaimValueData)>,
) -> (r: bool)
    requires
        obj.deep() is Object,
    ensures
        match spec_lenient_ordered(
            deep_elems(order@),
            obj.deep()->Object_0,
            old(out).deep_view(),
        ) {
            Some(acc) => r && final(out).deep_view() == acc,
            None => !r,
        },
{
    let ghost sord = deep_elems(order@);
    let ghost qes = obj.deep()->Object_0;
    let ghost acc0 = old(out).deep_view();
    let mut i: usize = 0;
    proof {
        lemma_deep_elems_len(order@);
        assert(sord.skip(0) =~= sord);
    }
    while i < order.len()
        invariant
            i <= order@.len(),
            sord == deep_elems(order@),
            sord.len() == order@.len(),
            obj.deep() is Object,
            qes == obj.deep()->Object_0,
            acc0 == old(out).deep_view(),
            spec_lenient_ordered(sord, qes, acc0) == spec_lenient_ordered(
                sord.skip(i as int),
                qes,
                out.deep_view(),
            ),
        decreases order@.len() - i,
    {
        proof {
            lemma_deep_elems_index(order@, i as int);
            assert(sord.skip(i as int)[0] == sord[i as int]);
            assert(sord.skip(i as int).drop_first() =~= sord.skip(i as int + 1));
        }
        let key = match order[i].as_str() {
            Some(s) => s,
            None => {
                return false;
            },
        };
        let ql = match obj.obj_get(key.as_str()) {
            Some(x) => x,
            None => {
                return false;
            },
        };
        let snaks = match ql.as_array() {
            Some(a) => a,
            None => {
                return false;
            },
        };
        let ghost sarr = deep_elems(snaks@);
        let ghost acc1 = out.deep_view();
        let mut j: usize = 0;
        proof {
            lemma_deep_elems_len(snaks@);
            assert(sarr.skip(0) =~= sarr);
        }
        while j < snaks.len()
            invariant
                j <= snaks@.len(),
                sarr == deep_elems(snaks@),
                sarr.len() == snaks@.len(),
                i < order@.len(),
                sord == deep_elems(order@),
                sord.len() == order@.len(),
                obj.deep() is Object,
                qes == obj.deep()->Object_0,
                acc0 == old(out).deep_view(),
                spec_as_str_v(sord[i as int]) == Some(key@),
                spec_entries_get(qes, key@) == Some(JsonV::Array(sarr)),
                spec_lenient_ordered(sord, qes, acc0) == spec_lenient_ordered(
                    sord.skip(i as int),
                    qes,
                    acc1,
                ),
                spec_lenient_snaks(sarr, key@, acc1) == spec_lenient_snaks(
                    sarr.skip(j as int),
                    key@,
                    out.deep_view(),
                ),
            decreases snaks@.len() - j,
        {
            proof {
                lemma_deep_elems_index(snaks@, j as int);
                assert(sarr.skip(j as int)[0] == sarr[j as int]);
                assert(sarr.skip(j as int).drop_first() =~= sarr.skip(j as int + 1));
            }
            let ghost before = out.deep_view();
            match ClaimValueData::parse_snak(&snaks[j]) {
                Ok(d) => {
                    let p = match lenient_pid(key) {
                        Some(p) => p,
                        None => {
                            return false;
                        },
                    };
                    out.push((p, d));
                    proof {
                        assert(out.deep_view() =~= before.push((p, d.deep_view())));
                    }
                },
                Err(_) => {},
            }
            j = j + 1;
        }
        proof {
            assert(sarr.skip(sarr.len() as int) =~= Seq::<JsonV>::empty());
        }
        i = i + 1;
    }
    proof {
        assert(sord.skip(sord.len() as int) =~= Seq::<JsonV>::empty());
    }
    true
}

impl ClaimValue {
    /// Try to read a JSON claim leniently: snaks that fail to decode are
    /// skipped, and any structural defect yields no claim rather than an
    /// error. Order arrays govern qualifier and reference order where
    /// present; where one is absent the object's entry order stands in.
    /// With `skip_id` the claim id is left empty, as reference and
    /// qualifier sub-snaks carry none of their own.
    pub fn get_prop_from_snak(claim: &JsonValue, skip_id: bool) -> (r: Option<ClaimValue>)
        ensures
            match r {
                Some(cv) => spec_get_prop_from_snak(claim.deep(), skip_id) == Some(cv.deep_view()),
                None => spec_get_prop_from_snak(claim.deep(), skip_id) is None,
            },
    {
        let null = JsonValue::Null;
        let rs = match take_prop(claim, "rank", &null).as_str() {
            Some(s) => s,
            None => {
                return None;
            },
        };
        let rank = if str_eq(rs.as_str(), "deprecated") {
            return None;
        } else if str_eq(rs.as_str(), "normal") {
            Rank::Normal
        } else if str_eq(rs.as_str(), "preferred") {
            Rank::Preferred
        } else {
            return None;
        };
        let data = match ClaimValueData::parse_snak(take_prop(claim, "mainsnak", &null)) {
            Ok(d) => d,
            Err(_) => {
                return None;
            },
        };
        let references = match take_prop(claim, "references", &null).as_array() {
            Some(arr) => {
                let ghost sgr = deep_elems(arr@);
                let mut groups: Vec<ReferenceGroup> = Vec::new();
                let mut i: usize = 0;
                proof {
                    lemma_deep_elems_len(arr@);
                    assert(groups.deep_view() =~= Seq::<ReferenceGroupV>::empty());
                    assert(sgr.skip(0) =~= sgr);
                }
                while i < arr.len()
                    invariant
                        i <= arr@.len(),
                        sgr == deep_elems(arr@),
                        sgr.len() == arr@.len(),
                        spec_lenient_rank(claim.deep()) == Some(rank),
                        spec_parse_snak(spec_take(claim.deep(), "mainsnak"@)) == Ok::<
                            ClaimValueDataV,
                            EntityError,
                        >(data.deep_view()),
                        spec_as_array_v(spec_take(claim.deep(), "references"@)) == Some(sgr),
                        spec_lenient_groups(sgr, Seq::empty()) == spec_lenient_groups(
                            sgr.skip(i as int),
                            groups.deep_view(),
                        ),
                    decreases arr@.len() - i,
                {
                    proof {
                        lemma_deep_elems_index(arr@, i as int);
                        assert(sgr.skip(i as int)[0] == sgr[i as int]);
                        assert(sgr.skip(i as int).drop_first() =~= sgr.skip(i as int + 1));
                    }
                    let g = &arr[i];
                    if g.as_object().is_none() {
                        return None;
                    }
                    let null2 = JsonValue::Null;
                    let snaks_node = take_prop(g, "snaks", &null2);
                    let snaks_entries = match snaks_node.as_object() {
                        Some(es) => es,
                        None => {
                            return None;
                        },
                    };
                    let order = match g.obj_get("snaks-order") {
                        Some(ov) => match ov.as_array() {
                            Some(a) => Some(a),
                            None => None,
                        },
                        None => None,
                    };
                    let mut claims: Vec<(Pid, ClaimValueData)> = Vec::new();
                    proof {
                        assert(claims.deep_view() =~= Seq::<(Pid, ClaimValueDataV)>::empty());
                    }
                    let ok = match order {
                        Some(order_arr) => lenient_ordered(order_arr, snaks_node, &mut claims),
                        None => lenient_snak_entries(snaks_entries, &mut claims),
                    };
                    if !ok {
                        return None;
                    }
                    let hash = match take_prop(g, "hash", &null2).as_str() {
                        Some(s) => s.clone(),
                        None => {
                            return None;
                        },
                    };
                    let ghost before = groups.deep_view();
                    let rg = ReferenceGroup { claims, hash };
                    groups.push(rg);
                    proof {
                        assert(groups.deep_view() =~= before.push(rg.deep_view()));
                    }
                    i = i + 1;
                }
                proof {
                    assert(sgr.skip(sgr.len() as int) =~= Seq::<JsonV>::empty());
                }
                groups
            },
            None => {
                let empty: Vec<ReferenceGroup> = Vec::new();
                proof {
                    assert(empty.deep_view() =~= Seq::<ReferenceGroupV>::empty());
                }
                empty
            },
        };
        let qnode = take_prop(claim, "qualifiers", &null);
        let qualifiers = match qnode.as_object() {
            Some(qes) => {
                let order = match claim.obj_get("qualifiers-order") {
                    Some(ov) => match ov.as_array() {
                        Some(a) => Some(a),
                        None => None,
                    },
                    None => None,
                };
                let mut quals: Vec<(Pid, ClaimValueData)> = Vec::new();
                proof {
                    assert(quals.deep_view() =~= Seq::<(Pid, ClaimValueDataV)>::empty());
                }
                let ok = match order {
                    Some(order_arr) => lenient_ordered(order_arr, qnode, &mut quals),
                    None => lenient_snak_entries(qes, &mut quals),
                };
                if !ok {
                    return None;
                }
                quals
            },
            None => {
                let empty: Vec<(Pid, ClaimValueData)> = Vec::new();
                proof {
                    assert(empty.deep_view() =~= Seq::<(Pid, ClaimValueDataV)>::empty());
                }
                empty
            },
        };
        let id: String = if skip_id {
            String::new()
        } else {
            match take_prop(claim, "id", &null).as_str() {
                Some(s) => s.clone(),
                None => {
                    return None;
                },
            }
        };
        Some(ClaimValue { data, rank, id, qualifiers, references })
    }
}

// ---------------------------------------------------------------------------
// Derived queries
// ---------------------------------------------------------------------------

/// The items an entity is an instance of: the targets of its
/// instance-of claims, in claim order.
pub open spec fn spec_instances(claims: Seq<(Pid, ClaimValueV)>) -> Seq<Qid>
    decreases claims.len(),
{
    if claims.len() == 0 {
        Seq::empty()
    } else {
        let rest = spec_instances(claims.drop_first());
        if claims[0].0 == Pid(consts::INSTANCE_OF) {
            match claims[0].1.data {
                ClaimValueDataV::Item(q) => seq![q] + rest,
                _ => rest,
            }
        } else {
            rest
        }
    }
}

/// The first date-of-birth instant among the claims, if any.
pub open spec fn spec_start_time(claims: Seq<(Pid, ClaimValueV)>) -> Option<UtcDateTime>
    decreases claims.len(),
{
    if claims.len() == 0 {
        None
    } else if claims[0].0 == Pid(consts::DATE_OF_BIRTH) && claims[0].1.data is DateTime {
        match claims[0].1.data {
            ClaimValueDataV::DateTime { date_time, precision } => Some(date_time),
            _ => None,
        }
    } else {
        spec_start_time(claims.drop_first())
    }
}

/// The first date-of-death instant among the claims, if any.
pub open spec fn spec_end_time(claims: Seq<(Pid, ClaimValueV)>) -> Option<UtcDateTime>
    decreases claims.len(),
{
    if claims.len() == 0 {
        None
    } else if claims[0].0 == Pid(consts::DATE_OF_DEATH) && claims[0].1.data is DateTime {
        match claims[0].1.data {
            ClaimValueDataV::DateTime { date_time, precision } => Some(date_time),
            _ => None,
        }
    } else {
        spec_end_time(claims.drop_first())
    }
}

impl Entity {
    /// All of the values of "instance of" on the entity.
    pub fn instances(&self) -> (r: Vec<Qid>)
        ensures
            r@ == spec_instances(self.deep_view().claims),
    {
        broadcast use crate::strutil::lemma_vec_deep_view_index, crate::strutil::lemma_vec_deep_view_len;

        let ghost cs = self.deep_view().claims;
        let mut out: Vec<Qid> = Vec::new();
        let mut i: usize = 0;
        proof {
            assert(cs.skip(0) =~= cs);
        }
        while i < self.claims.len()
            invariant
                i <= self.claims@.len(),
                cs == self.deep_view().claims,
                cs.len() == self.claims@.len(),
                spec_instances(cs) == out@ + spec_instances(cs.skip(i as int)),
            decreases self.claims@.len() - i,
        {
            proof {
                crate::strutil::lemma_vec_deep_view_index(self.claims, i as int);
                assert(cs.skip(i as int)[0] == cs[i as int]);
                assert(cs.skip(i as int).drop_first() =~= cs.skip(i as int + 1));
            }
            let entry = &self.claims[i];
            if entry.0.0 == consts::INSTANCE_OF {
                match &entry.1.data {
                    ClaimValueData::Item(q) => {
                        let ghost before = out@;
                        out.push(*q);
                        proof {
                            assert(out@ =~= before.push(*q));
                            assert(before + (seq![*q] + spec_instances(cs.skip(i as int + 1)))
                                =~= out@ + spec_instances(cs.skip(i as int + 1)));
                        }
                    },
                    _ => {},
                }
            }
            i = i + 1;
        }
        proof {
            assert(cs.skip(cs.len() as int) =~= Seq::<(Pid, ClaimValueV)>::empty());
            assert(out@ + Seq::<Qid>::empty() =~= out@);
        }
        out
    }

    /// When the entity started existing: its first date of birth.
    pub fn start_time(&self) -> (r: Option<UtcDateTime>)
        ensures
            r == spec_start_time(self.deep_view().claims),
    {
        let ghost cs = self.deep_view().claims;
        let mut i: usize = 0;
        proof {
            crate::strutil::lemma_vec_deep_view_len(self.claims);
            assert(cs.skip(0) =~= cs);
        }
        while i < self.claims.len()
            invariant
                i <= self.claims@.len(),
                cs == self.deep_view().claims,
                cs.len() == self.claims@.len(),
                spec_start_time(cs) == spec_start_time(cs.skip(i as int)),
            decreases self.claims@.len() - i,
        {
            proof {
                crate::strutil::lemma_vec_deep_view_index(self.claims, i as int);
                assert(cs.skip(i as int)[0] == cs[i as int]);
                assert(cs.skip(i as int).drop_first() =~= cs.skip(i as int + 1));
            }
            let entry = &self.claims[i];
            if entry.0.0 == consts::DATE_OF_BIRTH {
                match &entry.1.data {
                    ClaimValueData::DateTime { date_time, precision } => {
                        return Some(*date_time);
                    },
                    _ => {},
                }
            }
            i = i + 1;
        }
        proof {
            assert(cs.skip(cs.len() as int) =~= Seq::<(Pid, ClaimValueV)>::empty());
        }
        None
    }

    /// When the entity stopped existing: its first date of death.
    pub fn end_time(&self) -> (r: Option<UtcDateTime>)
        ensures
            r == spec_end_time(self.deep_view().claims),
    {
        let ghost cs = self.deep_view().claims;
        let mut i: usize = 0;
        proof {
            crate::strutil::lemma_vec_deep_view_len(self.claims);
            assert(cs.skip(0) =~= cs);
        }
        while i < self.claims.len()
            invariant
                i <= self.claims@.len(),
                cs == self.deep_view().claims,
                cs.len() == self.claims@.len(),
                spec_end_time(cs) == spec_end_time(cs.skip(i as int)),
            decreases self.claims@.len() - i,
        {
            proof {
                crate::strutil::lemma_vec_deep_view_index(self.claims, i as int);
                assert(cs.skip(i as int)[0] == cs[i as int]);
                assert(cs.skip(i as int).drop_first() =~= cs.skip(i as int + 1));
            }
            let entry = &self.claims[i];
            if entry.0.0 == consts::DATE_OF_DEATH {
                match &entry.1.data {
                    ClaimValueData::DateTime { date_time, precision } => {
                        return Some(*date_time);
                    },
                    _ => {},
                }
            }
            i = i + 1;
        }
        proof {
            assert(cs.skip(cs.len() as int) =~= Seq::<(Pid, ClaimValueV)>::empty());
        }
        None
    }
}

// ---------------------------------------------------------------------------
// Equality
// ---------------------------------------------------------------------------

fn vec_string_eq(a: &Vec<String>, b: &Vec<String>) -> (r: bool)
    ensures
        r == (a.deep_view() == b.deep_view()),
{
    broadcast use crate::strutil::lemma_vec_deep_view_index, crate::strutil::lemma_vec_deep_view_len;

    if a.len() != b.len() {
        return false;
    }
    let mut i: usize = 0;
    while i < a.len()
        invariant
            i <= a@.len(),
            a@.len() == b@.len(),
            a.deep_view().len() == a@.len(),
            b.deep_view().len() == b@.len(),
            forall|k: int| 0 <= k < i ==> a.deep_view()[k] == b.deep_view()[k],
        decreases a@.len() - i,
    {
        proof {
            crate::strutil::lemma_vec_deep_view_index(*a, i as int);
            crate::strutil::lemma_vec_deep_view_index(*b, i as int);
        }
        if !(a[i] == b[i]) {
            return false;
        }
        i = i + 1;
    }
    proof {
        assert(a.deep_view() =~= b.deep_view());
    }
    true
}

fn vec_text_eq(a: &Vec<Text>, b: &Vec<Text>) -> (r: bool)
    ensures
        r == (a.deep_view() == b.deep_view()),
{
    broadcast use crate::strutil::lemma_vec_deep_view_index, crate::strutil::lemma_vec_deep_view_len;

    if a.len() != b.len() {
        return false;
    }
    let mut i: usize = 0;
    while i < a.len()
        invariant
            i <= a@.len(),
            a@.len() == b@.len(),
            a.deep_view().len() == a@.len(),
            b.deep_view().len() == b@.len(),
            forall|k: int| 0 <= k < i ==> a.deep_view()[k] == b.deep_view()[k],
        decreases a@.len() - i,
    {
        proof {
            crate::strutil::lemma_vec_deep_view_index(*a, i as int);
            crate::strutil::lemma_vec_deep_view_index(*b, i as int);
        }
        if !(a[i] == b[i]) {
            return false;
        }
        i = i + 1;
    }
    proof {
        assert(a.deep_view() =~= b.deep_view());
    }
    true
}

fn data_eq(this: &ClaimValueData, other: &ClaimValueData) -> (r: bool)
    ensures
        r == (this.deep_view() == other.deep_view()),
{
    let r = data_eq_raw(this, other);
    proof {
        lemma_data_eq_cases(*this, *other);
    }
    r
}

/// Variant-by-variant equality; `lemma_data_eq_cases` ties it to the views.
#[verifier::rlimit(100)]
fn data_eq_raw(this: &ClaimValueData, other: &ClaimValueData) -> (r: bool)
    ensures
        r == data_eq_spec(*this, *other),
{
    let (self_, other_) = (this, other);
    match (self_, other_) {
            (ClaimValueData::CommonsMedia(a), ClaimValueData::CommonsMedia(b)) => *a == *b,
            (
                ClaimValueData::GlobeCoordinate { lat: a1, lon: a2, precision: a3, globe: a4 },
                ClaimValueData::GlobeCoordinate { lat: b1, lon: b2, precision: b3, globe: b4 },
            ) => a1 == b1 && a2 == b2 && a3 == b3 && a4.0 == b4.0,
            (ClaimValueData::Item(a), ClaimValueData::Item(b)) => a.0 == b.0,
            (ClaimValueData::Property(a), ClaimValueData::Property(b)) => a.0 == b.0,
            (ClaimValueData::PlainString(a), ClaimValueData::PlainString(b)) => *a == *b,
            (ClaimValueData::MonolingualText(a), ClaimValueData::MonolingualText(b)) => a == b,
            (ClaimValueData::MultilingualText(a), ClaimValueData::MultilingualText(b)) => (
            vec_text_eq(a, b)),
            (ClaimValueData::ExternalID(a), ClaimValueData::ExternalID(b)) => *a == *b,
            (
                ClaimValueData::Quantity {
                    amount: a1,
                    lower_bound: a2,
                    upper_bound: a3,
                    unit: a4,
                },
                ClaimValueData::Quantity {
                    amount: b1,
                    lower_bound: b2,
                    upper_bound: b3,
                    unit: b4,
                },
            ) => {
                let lb = match (a2, b2) {
                    (Some(x), Some(y)) => x == y,
                    (None, None) => true,
                    _ => false,
                };
                let ub = match (a3, b3) {
                    (Some(x), Some(y)) => x == y,
                    (None, None) => true,
                    _ => false,
                };
                let un = match (a4, b4) {
                    (Some(x), Some(y)) => x.0 == y.0,
                    (None, None) => true,
                    _ => false,
                };
                a1 == b1 && lb && ub && un
            },
            (
                ClaimValueData::DateTime { date_time: a1, precision: a2 },
                ClaimValueData::DateTime { date_time: b1, precision: b2 },
            ) => a1 == b1 && a2 == b2,
            (ClaimValueData::Url(a), ClaimValueData::Url(b)) => *a == *b,
            (ClaimValueData::MathExpr(a), ClaimValueData::MathExpr(b)) => *a == *b,
            (ClaimValueData::GeoShape(a), ClaimValueData::GeoShape(b)) => *a == *b,
            (ClaimValueData::MusicNotation(a), ClaimValueData::MusicNotation(b)) => *a == *b,
            (ClaimValueData::TabularData(a), ClaimValueData::TabularData(b)) => *a == *b,
            (ClaimValueData::Lexeme(a), ClaimValueData::Lexeme(b)) => a.0 == b.0,
            (ClaimValueData::Form(a), ClaimValueData::Form(b)) => a == b,
            (ClaimValueData::Sense(a), ClaimValueData::Sense(b)) => a == b,
            (ClaimValueData::NoValue, ClaimValueData::NoValue) => true,
            (ClaimValueData::UnknownValue, ClaimValueData::UnknownValue) => true,
            _ => false,
        }
}

/// Field-by-field equality of two payloads, written over the views.
pub open spec fn data_eq_spec(a: ClaimValueData, b: ClaimValueData) -> bool {
    match (a, b) {
        (ClaimValueData::CommonsMedia(x), ClaimValueData::CommonsMedia(y)) => x@ == y@,
        (
            ClaimValueData::GlobeCoordinate { lat: a1, lon: a2, precision: a3, globe: a4 },
            ClaimValueData::GlobeCoordinate { lat: b1, lon: b2, precision: b3, globe: b4 },
        ) => a1@ == b1@ && a2@ == b2@ && a3@ == b3@ && a4 == b4,
        (ClaimValueData::Item(x), ClaimValueData::Item(y)) => x == y,
        (ClaimValueData::Property(x), ClaimValueData::Property(y)) => x == y,
        (ClaimValueData::PlainString(x), ClaimValueData::PlainString(y)) => x@ == y@,
        (ClaimValueData::MonolingualText(x), ClaimValueData::MonolingualText(y)) => x@ == y@,
        (ClaimValueData::MultilingualText(x), ClaimValueData::MultilingualText(y)) => (
        x.deep_view() == y.deep_view()),
        (ClaimValueData::ExternalID(x), ClaimValueData::ExternalID(y)) => x@ == y@,
        (
            ClaimValueData::Quantity { amount: a1, lower_bound: a2, upper_bound: a3, unit: a4 },
            ClaimValueData::Quantity { amount: b1, lower_bound: b2, upper_bound: b3, unit: b4 },
        ) => a1@ == b1@ && a2.deep_view() == b2.deep_view() && a3.deep_view() == b3.deep_view()
            && a4 == b4,
        (
            ClaimValueData::DateTime { date_time: a1, precision: a2 },
            ClaimValueData::DateTime { date_time: b1, precision: b2 },
        ) => a1 == b1 && a2 == b2,
        (ClaimValueData::Url(x), ClaimValueData::Url(y)) => x@ == y@,
        (ClaimValueData::MathExpr(x), ClaimValueData::MathExpr(y)) => x@ == y@,
        (ClaimValueData::GeoShape(x), ClaimValueData::GeoShape(y)) => x@ == y@,
        (ClaimValueData::MusicNotation(x), ClaimValueData::MusicNotation(y)) => x@ == y@,
        (ClaimValueData::TabularData(x), ClaimValueData::TabularData(y)) => x@ == y@,
        (ClaimValueData::Lexeme(x), ClaimValueData::Lexeme(y)) => x == y,
        (ClaimValueData::Form(x), ClaimValueData::Form(y)) => x == y,
        (ClaimValueData::Sense(x), ClaimValueData::Sense(y)) => x == y,
        (ClaimValueData::NoValue, ClaimValueData::NoValue) => true,
        (ClaimValueData::UnknownValue, ClaimValueData::UnknownValue) => true,
        _ => false,
    }
}

/// Field equality of payloads coincides with equality of their views.
#[verifier::rlimit(100)]
proof fn lemma_data_eq_cases(a: ClaimValueData, b: ClaimValueData)
    ensures
        data_eq_spec(a, b) == (a.deep_view() == b.deep_view()),
{
}

impl PartialEq for ClaimValueData {
    fn eq(&self, other: &Self) -> (r: bool) {
        data_eq(self, other)
    }
}

impl vstd::std_specs::cmp::PartialEqSpecImpl for ClaimValueData {
    open spec fn obeys_eq_spec() -> bool {
        true
    }

    open spec fn eq_spec(&self, other: &Self) -> bool {
        self.deep_view() == other.deep_view()
    }
}

fn pid_data_vec_eq(a: &Vec<(Pid, ClaimValueData)>, b: &Vec<(Pid, ClaimValueData)>) -> (r: bool)
    ensures
        r == (a.deep_view() == b.deep_view()),
{
    broadcast use crate::strutil::lemma_vec_deep_view_index, crate::strutil::lemma_vec_deep_view_len;

    if a.len() != b.len() {
        return false;
    }
    let mut i: usize = 0;
    while i < a.len()
        invariant
            i <= a@.len(),
            a@.len() == b@.len(),
            a.deep_view().len() == a@.len(),
            b.deep_view().len() == b@.len(),
            forall|k: int| 0 <= k < i ==> a.deep_view()[k] == b.deep_view()[k],
        decreases a@.len() - i,
    {
        proof {
            crate::strutil::lemma_vec_deep_view_index(*a, i as int);
            crate::strutil::lemma_vec_deep_view_index(*b, i as int);
        }
        if !(a[i].0.0 == b[i].0.0) {
            return false;
        }
        if !(a[i].1 == b[i].1) {
            return false;
        }
        i = i + 1;
    }
    proof {
        assert(a.deep_view() =~= b.deep_view());
    }
    true
}

impl PartialEq for ReferenceGroup {
    fn eq(&self, other: &Self) -> (r: bool) {
        pid_data_vec_eq(&self.claims, &other.claims) && self.hash == other.hash
    }
}

impl vstd::std_specs::cmp::PartialEqSpecImpl for ReferenceGroup {
    open spec fn obeys_eq_spec() -> bool {
        true
    }

    open spec fn eq_spec(&self, other: &Self) -> bool {
        self.deep_view() == other.deep_view()
    }
}

fn ref_vec_eq(a: &Vec<ReferenceGroup>, b: &Vec<ReferenceGroup>) -> (r: bool)
    ensures
        r == (a.deep_view() == b.deep_view()),
{
    broadcast use crate::strutil::lemma_vec_deep_view_index, crate::strutil::lemma_vec_deep_view_len;

    if a.len() != b.len() {
        return false;
    }
    let mut i: usize = 0;
    while i < a.len()
        invariant
            i <= a@.len(),
            a@.len() == b@.len(),
            a.deep_view().len() == a@.len(),
            b.deep_view().len() == b@.len(),
            forall|k: int| 0 <= k < i ==> a.deep_view()[k] == b.deep_view()[k],
        decreases a@.len() - i,
    {
        proof {
            crate::strutil::lemma_vec_deep_view_index(*a, i as int);
            crate::strutil::lemma_vec_deep_view_index(*b, i as int);
        }
        if !(a[i] == b[i]) {
            return false;
        }
        i = i + 1;
    }
    proof {
        assert(a.deep_view() =~= b.deep_view());
    }
    true
}

impl PartialEq for ClaimValue {
    fn eq(&self, other: &Self) -> (r: bool) {
        self.data == other.data && self.rank == other.rank && self.id == other.id
            && pid_data_vec_eq(&self.qualifiers, &other.qualifiers) && ref_vec_eq(
            &self.references,
            &other.references,
        )
    }
}

impl vstd::std_specs::cmp::PartialEqSpecImpl for ClaimValue {
    open spec fn obeys_eq_spec() -> bool {
        true
    }

    open spec fn eq_spec(&self, other: &Self) -> bool {
        self.deep_view() == other.deep_view()
    }
}

fn claims_vec_eq(a: &Vec<(Pid, ClaimValue)>, b: &Vec<(Pid, ClaimValue)>) -> (r: bool)
    ensures
        r == (a.deep_view() == b.deep_view()),
{
    broadcast use crate::strutil::lemma_vec_deep_view_index, crate::strutil::lemma_vec_deep_view_len;

    if a.len() != b.len() {
        return false;
    }
    let mut i: usize = 0;
    while i < a.len()
        invariant
            i <= a@.len(),
            a@.len() == b@.len(),
            a.deep_view().len() == a@.len(),
            b.deep_view().len() == b@.len(),
            forall|k: int| 0 <= k < i ==> a.deep_view()[k] == b.deep_view()[k],
        decreases a@.len() - i,
    {
        proof {
            crate::strutil::lemma_vec_deep_view_index(*a, i as int);
            crate::strutil::lemma_vec_deep_view_index(*b, i as int);
        }
        if !(a[i].0.0 == b[i].0.0) {
            return false;
        }
        if !(a[i].1 == b[i].1) {
            return false;
        }
        i = i + 1;
    }
    proof {
        assert(a.deep_view() =~= b.deep_view());
    }
    true
}

fn lang_string_vec_eq(a: &Vec<(Lang, String)>, b: &Vec<(Lang, String)>) -> (r: bool)
    ensures
        r == (a.deep_view() == b.deep_view()),
{
    broadcast use crate::strutil::lemma_vec_deep_view_index, crate::strutil::lemma_vec_deep_view_len;

    if a.len() != b.len() {
        return false;
    }
    let mut i: usize = 0;
    while i < a.len()
        invariant
            i <= a@.len(),
            a@.len() == b@.len(),
            a.deep_view().len() == a@.len(),
            b.deep_view().len() == b@.len(),
            forall|k: int| 0 <= k < i ==> a.deep_view()[k] == b.deep_view()[k],
        decreases a@.len() - i,
    {
        proof {
            crate::strutil::lemma_vec_deep_view_index(*a, i as int);
            crate::strutil::lemma_vec_deep_view_index(*b, i as int);
        }
        if !(a[i].0 == b[i].0) {
            return false;
        }
        if !(a[i].1 == b[i].1) {
            return false;
        }
        i = i + 1;
    }
    proof {
        assert(a.deep_view() =~= b.deep_view());
    }
    true
}

fn lang_alias_vec_eq(a: &Vec<(Lang, Vec<String>)>, b: &Vec<(Lang, Vec<String>)>) -> (r: bool)
    ensures
        r == (a.deep_view() == b.deep_view()),
{
    broadcast use crate::strutil::lemma_vec_deep_view_index, crate::strutil::lemma_vec_deep_view_len;

    if a.len() != b.len() {
        return false;
    }
    let mut i: usize = 0;
    while i < a.len()
        invariant
            i <= a@.len(),
            a@.len() == b@.len(),
            a.deep_view().len() == a@.len(),
            b.deep_view().len() == b@.len(),
            forall|k: int| 0 <= k < i ==> a.deep_view()[k] == b.deep_view()[k],
        decreases a@.len() - i,
    {
        proof {
            crate::strutil::lemma_vec_deep_view_index(*a, i as int);
            crate::strutil::lemma_vec_deep_view_index(*b, i as int);
        }
        if !(a[i].0 == b[i].0) {
            return false;
        }
        if !vec_string_eq(&a[i].1, &b[i].1) {
            return false;
        }
        i = i + 1;
    }
    proof {
        assert(a.deep_view() =~= b.deep_view());
    }
    true
}

impl PartialEq for Entity {
    fn eq(&self, other: &Self) -> (r: bool) {
        self.id == other.id && claims_vec_eq(&self.claims, &other.claims) && self.entity_type
            == other.entity_type && lang_string_vec_eq(&self.descriptions, &other.descriptions)
            && lang_string_vec_eq(&self.labels, &other.labels) && lang_alias_vec_eq(
            &self.aliases,
            &other.aliases,
        )
    }
}

impl vstd::std_specs::cmp::PartialEqSpecImpl for Entity {
    open spec fn obeys_eq_spec() -> bool {
        true
    }

    open spec fn eq_spec(&self, other: &Self) -> bool {
        self.deep_view() == other.deep_view()
    }
}

/// Decoding is deterministic: any two results drawn from one document are
/// the same. What an entity holds is a function of the document alone.
pub proof fn lemma_decode_deterministic(
    doc: JsonV,
    r1: Result<EntityV, EntityError>,
    r2: Result<EntityV, EntityError>,
)
    requires
        r1 == spec_from_json(doc),
        r2 == spec_from_json(doc),
    ensures
        r1 == r2,
{
}

/// The entries of a document's claims object, where the document has one:
/// the envelope unwrapped and the object under `claims`.
pub open spec fn spec_claims_entries(doc: JsonV) -> Option<Seq<(Seq<char>, JsonV)>> {
    match spec_envelope(doc) {
        Err(_) => None,
        Ok(node) => match spec_get(node, "claims"@) {
            None => None,
            Some(cj) => spec_as_object_v(cj),
        },
    }
}

/// Wherever a claims object decodes as a whole, every one of its keys reads
/// as a property id: a key of another kind, at any position, forces a
/// failure.
pub proof fn lemma_claims_keys_are_pids(es: Seq<(Seq<char>, JsonV)>, acc: Seq<(Pid, ClaimValueV)>)
    requires
        spec_claims(es, acc) is Ok,
    ensures
        forall|i: int| 0 <= i < es.len() ==> spec_id_from_str(#[trigger] es[i].0, 'P') is Ok,
    decreases es.len(),
{
    if es.len() > 0 {
        match spec_id_from_str(es[0].0, 'P') {
            Err(_) => {
                assert(false);
            },
            Ok(pidn) => {
                match spec_as_array_v(es[0].1) {
                    None => {
                        assert(false);
                    },
                    Some(cl) => {
                        match spec_claim_list(cl, Pid(pidn), acc) {
                            Err(_) => {
                                assert(false);
                            },
                            Ok(acc2) => {
                                lemma_claims_keys_are_pids(es.drop_first(), acc2);
                                assert forall|i: int|
                                    0 <= i < es.len() implies spec_id_from_str(
                                    #[trigger] es[i].0,
                                    'P',
                                ) is Ok by {
                                    if i >= 1 {
                                        assert(es.drop_first()[i - 1] == es[i]);
                                    }
                                }
                            },
                        }
                    },
                }
            },
        }
    }
}

/// A claims object whose first key is no property id fails with `BadId`.
pub proof fn lemma_claims_bad_first_key(es: Seq<(Seq<char>, JsonV)>, acc: Seq<(Pid, ClaimValueV)>)
    requires
        es.len() >= 1,
        spec_id_from_str(es[0].0, 'P') is Err,
    ensures
        spec_claims(es, acc) == Err::<Seq<(Pid, ClaimValueV)>, EntityError>(EntityError::BadId),
{
}

/// A document decodes only if every key of its claims object is a property
/// id: keys such as `Q1341` or `1341`, wherever they stand, refuse the
/// whole document.
pub proof fn lemma_from_json_claim_keys(doc: JsonV)
    requires
        spec_from_json(doc) is Ok,
    ensures
        spec_claims_entries(doc) is Some,
        forall|i: int|
            0 <= i < spec_claims_entries(doc)->Some_0.len() ==> spec_id_from_str(
                (#[trigger] spec_claims_entries(doc)->Some_0[i]).0,
                'P',
            ) is Ok,
{
    let node = spec_envelope(doc)->Ok_0;
    let ces = spec_as_object_v(spec_get(node, "claims"@)->Some_0)->Some_0;
    assert(spec_claims(ces, Seq::empty()) is Ok);
    lemma_claims_keys_are_pids(ces, Seq::empty());
}

proof fn lemma_push_contains<T>(s: Seq<T>, y: T, x: T)
    requires
        s.contains(x),
    ensures
        s.push(y).contains(x),
{
    let k = choose|k: int| 0 <= k < s.len() && s[k] == x;
    assert(s.push(y)[k] == x);
}

proof fn lemma_claim_list_extends(
    cl: Seq<JsonV>,
    pid: Pid,
    acc: Seq<(Pid, ClaimValueV)>,
    x: (Pid, ClaimValueV),
)
    requires
        spec_claim_list(cl, pid, acc) is Ok,
        acc.contains(x),
    ensures
        spec_claim_list(cl, pid, acc)->Ok_0.contains(x),
    decreases cl.len(),
{
    if cl.len() > 0 {
        match spec_claim(cl[0]) {
            Err(_) => {
                assert(false);
            },
            Ok(cv) => {
                lemma_push_contains(acc, (pid, cv), x);
                lemma_claim_list_extends(cl.drop_first(), pid, acc.push((pid, cv)), x);
            },
        }
    }
}

proof fn lemma_claims_extends(
    es: Seq<(Seq<char>, JsonV)>,
    acc: Seq<(Pid, ClaimValueV)>,
    x: (Pid, ClaimValueV),
)
    requires
        spec_claims(es, acc) is Ok,
        acc.contains(x),
    ensures
        spec_claims(es, acc)->Ok_0.contains(x),
    decreases es.len(),
{
    if es.len() > 0 {
        match spec_id_from_str(es[0].0, 'P') {
            Err(_) => {
                assert(false);
            },
            Ok(pidn) => {
                match spec_as_array_v(es[0].1) {
                    None => {
                        assert(false);
                    },
                    Some(cl) => {
                        match spec_claim_list(cl, Pid(pidn), acc) {
                            Err(_) => {
                                assert(false);
                            },
                            Ok(acc2) => {
                                lemma_claim_list_extends(cl, Pid(pidn), acc, x);
                                lemma_claims_extends(es.drop_first(), acc2, x);
                            },
                        }
                    },
                }
            },
        }
    }
}

proof fn lemma_claim_list_membership(
    cl: Seq<JsonV>,
    pid: Pid,
    acc: Seq<(Pid, ClaimValueV)>,
    j: int,
)
    requires
        spec_claim_list(cl, pid, acc) is Ok,
        0 <= j < cl.len(),
    ensures
        spec_claim(cl[j]) is Ok,
        spec_claim_list(cl, pid, acc)->Ok_0.contains((pid, spec_claim(cl[j])->Ok_0)),
    decreases cl.len(),
{
    match spec_claim(cl[0]) {
        Err(_) => {
            assert(false);
        },
        Ok(cv) => {
            let acc2 = acc.push((pid, cv));
            if j == 0 {
                assert(acc2.contains((pid, cv))) by {
                    assert(acc2[acc2.len() - 1] == (pid, cv));
                }
                lemma_claim_list_extends(cl.drop_first(), pid, acc2, (pid, cv));
            } else {
                assert(cl.drop_first()[j - 1] == cl[j]);
                lemma_claim_list_membership(cl.drop_first(), pid, acc2, j - 1);
            }
        },
    }
}

proof fn lemma_claims_membership(
    es: Seq<(Seq<char>, JsonV)>,
    acc: Seq<(Pid, ClaimValueV)>,
    i: int,
    j: int,
)
    requires
        spec_claims(es, acc) is Ok,
        0 <= i < es.len(),
        spec_as_array_v(es[i].1) is Some,
        0 <= j < spec_as_array_v(es[i].1)->Some_0.len(),
    ensures
        spec_id_from_str(es[i].0, 'P') is Ok,
        spec_claim(spec_as_array_v(es[i].1)->Some_0[j]) is Ok,
        spec_claims(es, acc)->Ok_0.contains(
            (
                Pid(spec_id_from_str(es[i].0, 'P')->Ok_0),
                spec_claim(spec_as_array_v(es[i].1)->Some_0[j])->Ok_0,
            ),
        ),
    decreases es.len(),
{
    match spec_id_from_str(es[0].0, 'P') {
        Err(_) => {
            assert(false);
        },
        Ok(pidn) => {
            match spec_as_array_v(es[0].1) {
                None => {
                    assert(false);
                },
                Some(cl) => {
                    match spec_claim_list(cl, Pid(pidn), acc) {
                        Err(_) => {
                            assert(false);
                        },
                        Ok(acc2) => {
                            if i == 0 {
                                lemma_claim_list_membership(cl, Pid(pidn), acc, j);
                                lemma_claims_extends(
                                    es.drop_first(),
                                    acc2,
                                    (Pid(pidn), spec_claim(cl[j])->Ok_0),
                                );
                            } else {
                                assert(es.drop_first()[i - 1] == es[i]);
                                lemma_claims_membership(es.drop_first(), acc2, i - 1, j);
                            }
                        },
                    }
                },
            }
        },
    }
}

/// Whatever stands in a decoded document's claims object appears in the
/// result: for each property key and each claim node of its array, the
/// entity's claims contain that property paired with the claim's decode.
/// With a `P31` entry whose mainsnak names `Q5`, the decoded entity thus
/// carries the pair `(Pid(31), Item(Qid(5)))`.
pub proof fn lemma_from_json_claim_membership(doc: JsonV, i: int, j: int)
    requires
        spec_from_json(doc) is Ok,
        spec_claims_entries(doc) is Some,
        0 <= i < spec_claims_entries(doc)->Some_0.len(),
        spec_as_array_v(spec_claims_entries(doc)->Some_0[i].1) is Some,
        0 <= j < spec_as_array_v(spec_claims_entries(doc)->Some_0[i].1)->Some_0.len(),
    ensures
        ({
            let es = spec_claims_entries(doc)->Some_0;
            let cl = spec_as_array_v(es[i].1)->Some_0;
            &&& spec_id_from_str(es[i].0, 'P') is Ok
            &&& spec_claim(cl[j]) is Ok
            &&& spec_from_json(doc)->Ok_0.claims.contains(
                (Pid(spec_id_from_str(es[i].0, 'P')->Ok_0), spec_claim(cl[j])->Ok_0),
            )
        }),
{
    let node = spec_envelope(doc)->Ok_0;
    let ces = spec_as_object_v(spec_get(node, "claims"@)->Some_0)->Some_0;
    assert(ces == spec_claims_entries(doc)->Some_0);
    assert(spec_claims(ces, Seq::empty()) is Ok);
    assert(spec_from_json(doc)->Ok_0.claims == spec_claims(ces, Seq::empty())->Ok_0);
    lemma_claims_membership(ces, Seq::empty(), i, j);
}

/// The entity-id snak branch inverts formatting for the single-letter
/// kinds: a decodable id string `Q<n>`, `P<n>` or dash-free `L<n>` with a
/// canonical digit run decodes to an item, property or lexeme whose
/// canonical text is the id string again.
pub proof fn lemma_snak_single_id_round_trip(value: JsonV, id: Seq<char>)
    requires
        spec_get_string(spec_take(value, "id"@)) == Ok::<Seq<char>, EntityError>(id),
        spec_snak_entity_id(value) is Ok,
        id.len() >= 1,
        id[0] == 'Q' || id[0] == 'P' || (id[0] == 'L' && !has_char(id, '-')),
        canonical_digits(id.drop_first()),
    ensures
        id[0] == 'Q' ==> (spec_snak_entity_id(value) matches Ok(d) && d matches
        ClaimValueDataV::Item(q) && spec_id_str('Q', q.0) == id),
        id[0] == 'P' ==> (spec_snak_entity_id(value) matches Ok(d) && d matches
        ClaimValueDataV::Property(p) && spec_id_str('P', p.0) == id),
        id[0] == 'L' ==> (spec_snak_entity_id(value) matches Ok(d) && d matches
        ClaimValueDataV::Lexeme(l) && spec_id_str('L', l.0) == id),
{
    let digits = id.drop_first();
    assert(uint_body(digits) == digits);
    if id[0] == 'L' {
        lemma_split_no_sep(id, '-');
        assert(spec_split(id, '-').len() == 1);
    }
    assert(spec_parse_uint(digits, u64::MAX as nat) is Some);
    lemma_dec_of_val(digits);
    let n = crate::strutil::digits_val(digits) as u64;
    assert(spec_id_str(id[0], n) =~= seq![id[0]] + digits);
    assert(seq![id[0]] + digits =~= id);
}

/// The entity-id snak branch inverts formatting for forms and senses: a
/// decodable id string `L<n>-F<m>` or `L<n>-S<m>` with canonical digit runs
/// decodes to a form or sense whose canonical text is the id string again.
pub proof fn lemma_snak_sub_id_round_trip(value: JsonV, id: Seq<char>)
    requires
        spec_get_string(spec_take(value, "id"@)) == Ok::<Seq<char>, EntityError>(id),
        spec_snak_entity_id(value) is Ok,
        id.len() >= 1,
        id[0] == 'L',
        spec_split(id, '-').len() == 2,
        canonical_digits(spec_split(id, '-')[0].drop_first()),
        spec_split(id, '-')[1].len() >= 1,
        canonical_digits(spec_split(id, '-')[1].drop_first()),
    ensures
        spec_split(id, '-')[1][0] == 'F' ==> (spec_snak_entity_id(value) matches Ok(d) && d
            matches ClaimValueDataV::Form(f) && spec_subid_str('F', f.0.0, f.1) == id),
        spec_split(id, '-')[1][0] == 'S' ==> (spec_snak_entity_id(value) matches Ok(d) && d
            matches ClaimValueDataV::Sense(sn) && spec_subid_str('S', sn.0.0, sn.1) == id),
{
    let parts = spec_split(id, '-');
    let p0 = parts[0];
    let p1 = parts[1];
    lemma_split_join(id, '-');
    assert(parts.drop_last() =~= seq![p0]);
    assert(join_sep(seq![p0], '-') == p0);
    assert(id == p0 + seq!['-'] + p1);
    if p0.len() == 0 {
        assert(id[0] == '-');
    }
    assert(p0.len() >= 1 && p0[0] == id[0]);
    let dl = p0.drop_first();
    let ds = p1.drop_first();
    assert(uint_body(dl) == dl);
    assert(uint_body(ds) == ds);
    let marker = p1[0];
    if marker == 'F' || marker == 'S' {
        assert(spec_parse_uint(dl, u64::MAX as nat) is Some);
        assert(spec_parse_uint(ds, u16::MAX as nat) is Some);
        lemma_dec_of_val(dl);
        lemma_dec_of_val(ds);
        let l = crate::strutil::digits_val(dl) as u64;
        let m = crate::strutil::digits_val(ds) as u16;
        assert(p0 =~= seq!['L'] + dl);
        assert(p1 =~= seq![marker] + ds);
        assert(spec_subid_str(marker, l, m) =~= seq!['L'] + dl + seq!['-', marker] + ds);
        assert(seq!['L'] + dl + seq!['-', marker] + ds =~= id);
    }
}

} // verus!
