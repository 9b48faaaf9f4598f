//! The identifier grammar: parsing, formatting, URLs, and the round trip.

use wikidata::ids::consts;
use wikidata::{Fid, IdParseError, Lid, Pid, Qid, Sid, WikiId};

#[test]
fn json_url() {
    assert_eq!(
        Qid(42).json_url(),
        "https://www.wikidata.org/wiki/Special:EntityData/Q42.json"
    );
    assert_eq!(
        Pid(31).json_url(),
        "https://www.wikidata.org/wiki/Special:EntityData/P31.json"
    );
    assert_eq!(
        Lid(1).json_url(),
        "https://www.wikidata.org/wiki/Special:EntityData/L1.json"
    )
}

#[test]
fn to_string() {
    let entity = Qid(42);
    assert_eq!(entity.to_string(), "Q42");

    let prop = Pid(6);
    assert_eq!(prop.to_string(), "P6");

    let lexeme = Lid(2);
    assert_eq!(lexeme.to_string(), "L2");

    let sense = Sid(Lid(5), 9);
    assert_eq!(sense.to_string(), "L5-S9");

    let form = Fid(Lid(3), 11);
    assert_eq!(form.to_string(), "L3-F11");
}

#[test]
fn from_str() {
    assert_eq!(Qid::from_str("Q42").unwrap(), Qid(42));
    assert_eq!(Lid::from_str("L944114").unwrap(), Lid(944114));
    assert_eq!(Pid::from_str("P1341").unwrap(), Pid(1341));
    assert_eq!(Pid::from_str("Q1341"), Err(IdParseError::InvalidPrefix));
    assert_eq!(Pid::from_str("1341"), Err(IdParseError::InvalidPrefix));
    assert!(Qid::from_str("Q").is_err());
    assert_eq!(Sid::from_str("S1341"), Err(IdParseError::InvalidPrefix));
    assert_eq!(Sid::from_str("L1341"), Err(IdParseError::TooFewParts));
    assert_eq!(
        Sid::from_str("L1341-A123"),
        Err(IdParseError::InvalidPrefix)
    );
    assert_eq!(Sid::from_str("L1341-S123").unwrap(), Sid(Lid(1341), 123));
    assert!(Lid::from_str("L1341-S123").is_err());
    assert!(Lid::from_str("L1341-F123").is_err());
}

#[test]
fn unit_suffix() {
    assert_eq!(consts::unit_suffix(Qid(consts::METRE)).unwrap(), " m");
    assert_eq!(consts::unit_suffix(Qid(consts::DEGREE)).unwrap(), "\u{b0}");
}

#[test]
fn unit_suffix_method_and_unknown() {
    assert_eq!(Qid(consts::KILOGRAM).unit_suffix(), Some(" kg"));
    assert_eq!(Qid(5).unit_suffix(), None);
}

#[test]
fn id_round_trip() {
    for s in ["Q1", "Q42", "Q1341", "Q0", "Q18446744073709551615"] {
        assert_eq!(Qid::from_str(s).unwrap().to_string(), s);
    }
    for s in ["P6", "P31", "P569"] {
        assert_eq!(Pid::from_str(s).unwrap().to_string(), s);
    }
    for s in ["L1", "L944114"] {
        assert_eq!(Lid::from_str(s).unwrap().to_string(), s);
    }
    for s in ["L3-F11", "L1341-F123", "L1-F0"] {
        assert_eq!(Fid::from_str(s).unwrap().to_string(), s);
    }
    for s in ["L5-S9", "L1341-S123"] {
        assert_eq!(Sid::from_str(s).unwrap().to_string(), s);
    }
}

#[test]
fn id_format_then_parse() {
    assert_eq!(Qid::from_str(&Qid(7).to_string()), Ok(Qid(7)));
    assert_eq!(Fid::from_str(&Fid(Lid(8), 2).to_string()), Ok(Fid(Lid(8), 2)));
    assert_eq!(Sid::from_str(&Sid(Lid(9), 3).to_string()), Ok(Sid(Lid(9), 3)));
}

#[test]
fn id_error_kinds() {
    assert_eq!(Qid::from_str("Q4x2"), Err(IdParseError::UnparseableNumber));
    assert_eq!(Fid::from_str("L1-F2-S3"), Err(IdParseError::TooManyParts));
    assert_eq!(Fid::from_str("L1-S2"), Err(IdParseError::InvalidPrefix));
    assert_eq!(Fid::from_str("Lx-F2"), Err(IdParseError::UnparseableNumber));
    // A 16-bit sub-identifier cannot hold 100000.
    assert_eq!(
        Fid::from_str("L1-F100000"),
        Err(IdParseError::UnparseableNumber)
    );
}

#[test]
fn wiki_id_from_str() {
    assert_eq!(WikiId::from_str("Q42"), Ok(WikiId::EntityId(Qid(42))));
    assert_eq!(WikiId::from_str("P31"), Ok(WikiId::PropertyId(Pid(31))));
    assert_eq!(WikiId::from_str("L99"), Ok(WikiId::LexemeId(Lid(99))));
    assert_eq!(WikiId::from_str("X1"), Err(IdParseError::InvalidPrefix));
    assert_eq!(WikiId::from_str(""), Err(IdParseError::InvalidPrefix));
}
