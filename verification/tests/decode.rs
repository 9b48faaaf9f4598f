//! Snak decoding and whole-entity decoding, end to end.

use wikidata::{
    ClaimValue, ClaimValueData, Entity, EntityError, EntityType, JsonValue, Lang, Pid, Qid, Rank,
    Text, UtcDateTime, WikiId,
};

fn s(x: &str) -> JsonValue {
    JsonValue::Str(x.to_string())
}

fn obj(entries: Vec<(&str, JsonValue)>) -> JsonValue {
    JsonValue::Object(
        entries
            .into_iter()
            .map(|(k, v)| (k.to_string(), v))
            .collect(),
    )
}

fn arr(elems: Vec<JsonValue>) -> JsonValue {
    JsonValue::Array(elems)
}

/// A minimal `value` snak with the given datatype and datavalue payload.
fn value_snak(datatype: &str, value_type: &str, value: JsonValue) -> JsonValue {
    obj(vec![
        ("snaktype", s("value")),
        ("datatype", s(datatype)),
        (
            "datavalue",
            obj(vec![("type", s(value_type)), ("value", value)]),
        ),
    ])
}

fn snak(j: &JsonValue) -> Result<ClaimValueData, EntityError> {
    ClaimValueData::parse_snak(j)
}

#[test]
fn marker_snaks() {
    let novalue = obj(vec![("snaktype", s("novalue")), ("datatype", s("string"))]);
    assert_eq!(snak(&novalue), Ok(ClaimValueData::NoValue));

    let somevalue = obj(vec![("snaktype", s("somevalue")), ("datatype", s("string"))]);
    assert_eq!(snak(&somevalue), Ok(ClaimValueData::UnknownValue));

    let bogus = obj(vec![("snaktype", s("perhaps")), ("datatype", s("string"))]);
    assert_eq!(snak(&bogus), Err(EntityError::InvalidSnaktype));

    let untyped = obj(vec![("snaktype", s("value"))]);
    assert_eq!(snak(&untyped), Err(EntityError::ExpectedString));
}

#[test]
fn string_snaks() {
    let cases: Vec<(&str, fn(String) -> ClaimValueData)> = vec![
        ("string", ClaimValueData::PlainString),
        ("commonsMedia", ClaimValueData::CommonsMedia),
        ("external-id", ClaimValueData::ExternalID),
        ("math", ClaimValueData::MathExpr),
        ("geo-shape", ClaimValueData::GeoShape),
        ("musical-notation", ClaimValueData::MusicNotation),
        ("tabular-data", ClaimValueData::TabularData),
        ("url", ClaimValueData::Url),
    ];
    for (dt, make) in cases {
        let j = value_snak(dt, "string", s("payload"));
        assert_eq!(snak(&j), Ok(make("payload".to_string())));
    }
    let bad = value_snak("telepathy", "string", s("payload"));
    assert_eq!(snak(&bad), Err(EntityError::InvalidDatatype));
    let not_a_string = value_snak("string", "string", JsonValue::Null);
    assert_eq!(snak(&not_a_string), Err(EntityError::ExpectedStringDatatype));
    let alien_shape = value_snak("string", "hologram", s("payload"));
    assert_eq!(snak(&alien_shape), Err(EntityError::UnknownDatatype));
}

#[test]
fn commons_snak() {
    let j = value_snak(
        "commonsMedia",
        "string",
        s("Douglas adams portrait cropped.jpg"),
    );
    assert_eq!(
        snak(&j),
        Ok(ClaimValueData::CommonsMedia(
            "Douglas adams portrait cropped.jpg".to_string()
        ))
    );
}

#[test]
fn external_id_snak() {
    let j = value_snak("external-id", "string", s("0000 0000 8045 6315"));
    assert_eq!(
        snak(&j),
        Ok(ClaimValueData::ExternalID("0000 0000 8045 6315".to_string()))
    );
}

#[test]
fn id_snak() {
    let item = value_snak(
        "wikibase-item",
        "wikibase-entityid",
        obj(vec![("id", s("Q5"))]),
    );
    assert_eq!(snak(&item), Ok(ClaimValueData::Item(Qid(5))));

    let prop = value_snak(
        "wikibase-property",
        "wikibase-entityid",
        obj(vec![("id", s("P31"))]),
    );
    assert_eq!(snak(&prop), Ok(ClaimValueData::Property(Pid(31))));

    let event = value_snak(
        "wikibase-item",
        "wikibase-entityid",
        obj(vec![("id", s("Q323"))]),
    );
    assert_eq!(snak(&event), Ok(ClaimValueData::Item(Qid(323))));

    let bad = value_snak(
        "wikibase-item",
        "wikibase-entityid",
        obj(vec![("id", s("X5"))]),
    );
    assert_eq!(snak(&bad), Err(EntityError::BadId));
}

#[test]
fn lexeme_snak() {
    let lex = value_snak(
        "wikibase-lexeme",
        "wikibase-entityid",
        obj(vec![("id", s("L361"))]),
    );
    assert_eq!(snak(&lex), Ok(ClaimValueData::Lexeme(wikidata::Lid(361))));

    let form = value_snak(
        "wikibase-form",
        "wikibase-entityid",
        obj(vec![("id", s("L361-F2"))]),
    );
    assert_eq!(
        snak(&form),
        Ok(ClaimValueData::Form(wikidata::Fid(wikidata::Lid(361), 2)))
    );

    let sense = value_snak(
        "wikibase-sense",
        "wikibase-entityid",
        obj(vec![("id", s("L361-S4"))]),
    );
    assert_eq!(
        snak(&sense),
        Ok(ClaimValueData::Sense(wikidata::Sid(wikidata::Lid(361), 4)))
    );
}

#[test]
fn quantity_snak() {
    let j = value_snak(
        "quantity",
        "quantity",
        obj(vec![
            ("amount", s("+1.96")),
            ("unit", s("http://www.wikidata.org/entity/Q11573")),
        ]),
    );
    match snak(&j).unwrap() {
        ClaimValueData::Quantity {
            amount,
            lower_bound,
            upper_bound,
            unit,
        } => {
            assert_eq!(amount.0.parse::<f64>().unwrap(), 1.96);
            assert!(lower_bound.is_none());
            assert!(upper_bound.is_none());
            assert_eq!(unit, Some(Qid(11573)));
        }
        other => panic!("{other:?}"),
    }
}

#[test]
fn quantity_snak_unparsable_unit() {
    let j = value_snak(
        "quantity",
        "quantity",
        obj(vec![("amount", s("+5")), ("unit", s("1"))]),
    );
    match snak(&j).unwrap() {
        ClaimValueData::Quantity { amount, unit, .. } => {
            assert_eq!(amount.0.parse::<f64>().unwrap(), 5.0);
            assert_eq!(unit, None);
        }
        other => panic!("{other:?}"),
    }
    let no_amount = value_snak("quantity", "quantity", obj(vec![("unit", s("1"))]));
    assert_eq!(snak(&no_amount), Err(EntityError::ExpectedNumberString));
}

#[test]
fn coordinates_snak() {
    let j = value_snak(
        "globe-coordinate",
        "globecoordinate",
        obj(vec![
            ("latitude", JsonValue::Number("27.988055555556".to_string())),
            ("longitude", JsonValue::Number("86.925277777778".to_string())),
            ("precision", JsonValue::Number("0.00027777777777778".to_string())),
            ("altitude", JsonValue::Null),
            ("globe", s("http://www.wikidata.org/entity/Q2")),
        ]),
    );
    match snak(&j).unwrap() {
        ClaimValueData::GlobeCoordinate {
            lat,
            lon,
            precision,
            globe,
        } => {
            assert_eq!(lat.0.parse::<f64>().unwrap(), 27.988055555556);
            assert_eq!(lon.0.parse::<f64>().unwrap(), 86.925277777778);
            assert_eq!(precision.0.parse::<f64>().unwrap(), 0.00027777777777778);
            assert_eq!(globe, Qid(2));
        }
        other => panic!("{other:?}"),
    }
}

#[test]
fn coordinates_snak_default_precision() {
    let j = value_snak(
        "globe-coordinate",
        "globecoordinate",
        obj(vec![
            ("latitude", s("+27")),
            ("longitude", s("+86")),
            ("globe", s("http://www.wikidata.org/entity/Q2")),
        ]),
    );
    match snak(&j).unwrap() {
        ClaimValueData::GlobeCoordinate { precision, .. } => {
            assert_eq!(precision.0.parse::<f64>().unwrap(), 1.0);
        }
        other => panic!("{other:?}"),
    }
    let bad_globe = value_snak(
        "globe-coordinate",
        "globecoordinate",
        obj(vec![("latitude", s("+27")), ("longitude", s("+86")), ("globe", s("mars"))]),
    );
    assert_eq!(snak(&bad_globe), Err(EntityError::ExpectedQidString));
}

#[test]
fn mono_text_snak() {
    let j = value_snak(
        "monolingualtext",
        "monolingualtext",
        obj(vec![
            ("text", s("Douglas No\u{eb}l Adams")),
            ("language", s("en")),
        ]),
    );
    assert_eq!(
        snak(&j),
        Ok(ClaimValueData::MonolingualText(Text {
            text: "Douglas No\u{eb}l Adams".to_string(),
            lang: Lang("en".to_string())
        }))
    );
    let no_lang = value_snak(
        "monolingualtext",
        "monolingualtext",
        obj(vec![("text", s("abc"))]),
    );
    assert_eq!(snak(&no_lang), Err(EntityError::ExpectedString));
}

#[test]
fn date_snak() {
    let j = value_snak(
        "time",
        "time",
        obj(vec![
            ("time", s("+1952-03-11T00:00:00Z")),
            ("precision", JsonValue::Number("11".to_string())),
        ]),
    );
    assert_eq!(
        snak(&j),
        Ok(ClaimValueData::DateTime {
            date_time: UtcDateTime { year: 1952, month: 3, day: 11, hour: 0, minute: 0, second: 0 },
            precision: 11,
        })
    );
}

#[test]
fn date_snak_degrades_and_precision() {
    // An unreadable instant degrades the snak to UnknownValue.
    let weird = value_snak(
        "time",
        "time",
        obj(vec![("time", s("+2001-02-30T00:00:00Z")), ("precision", s("11"))]),
    );
    assert_eq!(snak(&weird), Ok(ClaimValueData::UnknownValue));
    // A readable instant without a usable precision is fatal.
    let no_precision = value_snak("time", "time", obj(vec![("time", s("+2001-01-01"))]));
    assert_eq!(snak(&no_precision), Err(EntityError::InvalidPrecision));
    let big_precision = value_snak(
        "time",
        "time",
        obj(vec![("time", s("+2001-01-01")), ("precision", s("99"))]),
    );
    assert_eq!(snak(&big_precision), Err(EntityError::InvalidPrecision));
}

// ---------------------------------------------------------------------------
// Whole documents
// ---------------------------------------------------------------------------

/// A claim carrying one value snak for the property, with a claim id and
/// normal rank.
fn simple_claim(id: &str, data_snak: JsonValue) -> JsonValue {
    obj(vec![
        ("mainsnak", data_snak),
        ("rank", s("normal")),
        ("id", s(id)),
    ])
}

/// An item document in envelope form with one instance-of claim for Q5.
fn human_doc() -> JsonValue {
    let p31 = value_snak(
        "wikibase-item",
        "wikibase-entityid",
        obj(vec![("id", s("Q5"))]),
    );
    obj(vec![(
        "entities",
        obj(vec![(
            "Q106975887",
            obj(vec![
                ("id", s("Q106975887")),
                ("type", s("item")),
                (
                    "labels",
                    obj(vec![("en", obj(vec![("value", s("a person"))]))]),
                ),
                (
                    "descriptions",
                    obj(vec![("en", obj(vec![("value", s("someone"))]))]),
                ),
                (
                    "aliases",
                    obj(vec![(
                        "en",
                        arr(vec![
                            obj(vec![("value", s("that person"))]),
                            obj(vec![("wrong", s("dropped"))]),
                        ]),
                    )]),
                ),
                (
                    "claims",
                    obj(vec![(
                        "P31",
                        arr(vec![simple_claim("Q106975887$abc", p31)]),
                    )]),
                ),
            ]),
        )]),
    )])
}

#[test]
fn instance_of_claim() {
    let ent = Entity::from_json(&human_doc()).unwrap();
    assert_eq!(ent.id, WikiId::EntityId(Qid(106975887)));
    assert_eq!(ent.entity_type, EntityType::Entity);
    assert_eq!(ent.claims.len(), 1);
    assert_eq!(ent.claims[0].0, Pid(31));
    assert_eq!(ent.claims[0].1.data, ClaimValueData::Item(Qid(5)));
    assert_eq!(ent.claims[0].1.rank, Rank::Normal);
    assert_eq!(ent.instances(), vec![Qid(5)]);
    assert_eq!(
        ent.labels,
        vec![(Lang("en".to_string()), "a person".to_string())]
    );
    assert_eq!(
        ent.aliases,
        vec![(Lang("en".to_string()), vec!["that person".to_string()])]
    );
}

#[test]
fn decode_twice_equal() {
    let doc = human_doc();
    let a = Entity::from_json(&doc).unwrap();
    let b = Entity::from_json(&doc).unwrap();
    assert_eq!(a, b);
}

#[test]
fn envelope_cardinality() {
    let zero = obj(vec![("entities", obj(vec![]))]);
    assert_eq!(Entity::from_json(&zero), Err(EntityError::NoEntities));

    let ent = |q: &str| obj(vec![("id", s(q)), ("type", s("item"))]);
    let two = obj(vec![(
        "entities",
        obj(vec![("Q1", ent("Q1")), ("Q2", ent("Q2"))]),
    )]);
    assert_eq!(Entity::from_json(&two), Err(EntityError::MultipleEntities));

    let bad = obj(vec![("entities", s("Q1"))]);
    assert_eq!(Entity::from_json(&bad), Err(EntityError::ExpectedObject));
}

#[test]
fn entity_errors() {
    let no_id = obj(vec![("type", s("item"))]);
    assert_eq!(Entity::from_json(&no_id), Err(EntityError::ExpectedObject));

    let bad_id = obj(vec![("id", s("zebra"))]);
    assert_eq!(Entity::from_json(&bad_id), Err(EntityError::NoId));

    let nonstr_id = obj(vec![("id", JsonValue::Null)]);
    assert_eq!(
        Entity::from_json(&nonstr_id),
        Err(EntityError::ExpectedKeyvalTextString)
    );

    let no_type = obj(vec![("id", s("Q1"))]);
    assert_eq!(Entity::from_json(&no_type), Err(EntityError::NoEntityType));

    let odd_type = obj(vec![("id", s("Q1")), ("type", s("meson"))]);
    assert_eq!(Entity::from_json(&odd_type), Err(EntityError::NoEntityType));

    let no_claims = obj(vec![("id", s("Q1")), ("type", s("item"))]);
    assert_eq!(Entity::from_json(&no_claims), Err(EntityError::NoClaims));

    let bad_label = obj(vec![
        ("id", s("Q1")),
        ("labels", obj(vec![("en", obj(vec![]))])),
    ]);
    assert_eq!(
        Entity::from_json(&bad_label),
        Err(EntityError::ExpectedLangString)
    );

    let nonstr_label = obj(vec![
        ("id", s("Q1")),
        ("labels", obj(vec![("en", obj(vec![("value", JsonValue::Null)]))])),
    ]);
    assert_eq!(
        Entity::from_json(&nonstr_label),
        Err(EntityError::ExpectedKeyvalTextString)
    );

    let bad_alias = obj(vec![
        ("id", s("Q1")),
        ("aliases", obj(vec![("en", s("solo"))])),
    ]);
    assert_eq!(
        Entity::from_json(&bad_alias),
        Err(EntityError::ExpectedAliasArray)
    );

    let bad_claims = obj(vec![
        ("id", s("Q1")),
        ("type", s("item")),
        ("claims", obj(vec![("P31", s("nope"))])),
    ]);
    assert_eq!(
        Entity::from_json(&bad_claims),
        Err(EntityError::ExpectedClaimArray)
    );

    let bad_pid = obj(vec![
        ("id", s("Q1")),
        ("type", s("item")),
        ("claims", obj(vec![("Z31", arr(vec![]))])),
    ]);
    assert_eq!(Entity::from_json(&bad_pid), Err(EntityError::BadId));
}

#[test]
fn claim_errors() {
    let p31 = || {
        value_snak(
            "wikibase-item",
            "wikibase-entityid",
            obj(vec![("id", s("Q5"))]),
        )
    };
    let doc_with_claim = |claim: JsonValue| {
        obj(vec![
            ("id", s("Q1")),
            ("type", s("item")),
            ("claims", obj(vec![("P31", arr(vec![claim]))])),
        ])
    };

    let no_rank = doc_with_claim(obj(vec![("mainsnak", p31()), ("id", s("x"))]));
    assert_eq!(Entity::from_json(&no_rank), Err(EntityError::NoRank));

    let odd_rank = doc_with_claim(obj(vec![
        ("mainsnak", p31()),
        ("rank", s("imperial")),
        ("id", s("x")),
    ]));
    assert_eq!(Entity::from_json(&odd_rank), Err(EntityError::UnknownRank));

    let no_mainsnak = doc_with_claim(obj(vec![("rank", s("normal")), ("id", s("x"))]));
    assert_eq!(
        Entity::from_json(&no_mainsnak),
        Err(EntityError::MissingMainsnak)
    );

    let no_claim_id = doc_with_claim(obj(vec![("rank", s("normal")), ("mainsnak", p31())]));
    assert_eq!(Entity::from_json(&no_claim_id), Err(EntityError::NoClaimId));

    let order_without_quals = doc_with_claim(obj(vec![
        ("rank", s("normal")),
        ("mainsnak", p31()),
        ("qualifiers-order", arr(vec![s("P580")])),
        ("id", s("x")),
    ]));
    assert_eq!(
        Entity::from_json(&order_without_quals),
        Err(EntityError::QualifiersOrderButNoObject)
    );

    let quals_without_order = doc_with_claim(obj(vec![
        ("rank", s("normal")),
        ("mainsnak", p31()),
        ("qualifiers", obj(vec![("P580", arr(vec![]))])),
        ("id", s("x")),
    ]));
    assert_eq!(
        Entity::from_json(&quals_without_order),
        Err(EntityError::NoQualifiersOrder)
    );

    let order_names_missing = doc_with_claim(obj(vec![
        ("rank", s("normal")),
        ("mainsnak", p31()),
        ("qualifiers-order", arr(vec![s("P580")])),
        ("qualifiers", obj(vec![("P581", arr(vec![]))])),
        ("id", s("x")),
    ]));
    assert_eq!(
        Entity::from_json(&order_names_missing),
        Err(EntityError::QualiferOrderNamesNonQualifier)
    );
}

#[test]
fn reference_errors() {
    let p31 = || {
        value_snak(
            "wikibase-item",
            "wikibase-entityid",
            obj(vec![("id", s("Q5"))]),
        )
    };
    let doc_with_refs = |group: JsonValue| {
        obj(vec![
            ("id", s("Q1")),
            ("type", s("item")),
            (
                "claims",
                obj(vec![(
                    "P31",
                    arr(vec![obj(vec![
                        ("rank", s("normal")),
                        ("mainsnak", p31()),
                        ("references", arr(vec![group])),
                        ("id", s("x")),
                    ])]),
                )]),
            ),
        ])
    };

    let no_snaks = doc_with_refs(obj(vec![("hash", s("h"))]));
    assert_eq!(
        Entity::from_json(&no_snaks),
        Err(EntityError::NoReferenceSnaks)
    );

    let no_order = doc_with_refs(obj(vec![("snaks", obj(vec![])), ("hash", s("h"))]));
    assert_eq!(Entity::from_json(&no_order), Err(EntityError::NoSnakOrder));

    let order_names_nothing = doc_with_refs(obj(vec![
        ("snaks", obj(vec![])),
        ("snaks-order", arr(vec![s("P143")])),
        ("hash", s("h")),
    ]));
    assert_eq!(
        Entity::from_json(&order_names_nothing),
        Err(EntityError::SnaksOrderIncludesNonSnak)
    );

    let order_names_nonarray = doc_with_refs(obj(vec![
        ("snaks", obj(vec![("P143", s("oops"))])),
        ("snaks-order", arr(vec![s("P143")])),
        ("hash", s("h")),
    ]));
    assert_eq!(
        Entity::from_json(&order_names_nonarray),
        Err(EntityError::ExpectedReferenceArray)
    );

    let nonstring_order = doc_with_refs(obj(vec![
        ("snaks", obj(vec![])),
        ("snaks-order", arr(vec![JsonValue::Null])),
        ("hash", s("h")),
    ]));
    assert_eq!(
        Entity::from_json(&nonstring_order),
        Err(EntityError::ExpectedPidString)
    );

    let no_hash = doc_with_refs(obj(vec![
        ("snaks", obj(vec![("P143", arr(vec![p31()]))])),
        ("snaks-order", arr(vec![s("P143")])),
    ]));
    assert_eq!(Entity::from_json(&no_hash), Err(EntityError::NoHash));
}

#[test]
fn ordered_qualifiers_and_references() {
    let p31 = value_snak(
        "wikibase-item",
        "wikibase-entityid",
        obj(vec![("id", s("Q5"))]),
    );
    let q580 = value_snak("string", "string", s("first"));
    let q582 = value_snak("string", "string", s("second"));
    let ref_snak = value_snak("string", "string", s("source"));
    let doc = obj(vec![
        ("id", s("Q1")),
        ("type", s("item")),
        (
            "claims",
            obj(vec![(
                "P31",
                arr(vec![obj(vec![
                    ("rank", s("preferred")),
                    ("mainsnak", p31),
                    // The order array lists P582 before P580 on purpose.
                    ("qualifiers-order", arr(vec![s("P582"), s("P580")])),
                    (
                        "qualifiers",
                        obj(vec![
                            ("P580", arr(vec![q580])),
                            ("P582", arr(vec![q582])),
                        ]),
                    ),
                    (
                        "references",
                        arr(vec![obj(vec![
                            ("snaks", obj(vec![("P143", arr(vec![ref_snak]))])),
                            ("snaks-order", arr(vec![s("P143")])),
                            ("hash", s("abcdef")),
                        ])]),
                    ),
                    ("id", s("Q1$statement")),
                ])]),
            )]),
        ),
    ]);
    let ent = Entity::from_json(&doc).unwrap();
    let claim = &ent.claims[0].1;
    assert_eq!(claim.rank, Rank::Preferred);
    assert_eq!(
        claim.qualifiers,
        vec![
            (Pid(582), ClaimValueData::PlainString("second".to_string())),
            (Pid(580), ClaimValueData::PlainString("first".to_string())),
        ]
    );
    assert_eq!(claim.references.len(), 1);
    assert_eq!(claim.references[0].hash, "abcdef");
    assert_eq!(
        claim.references[0].claims,
        vec![(Pid(143), ClaimValueData::PlainString("source".to_string()))]
    );
}

#[test]
fn start_and_end_time() {
    let birth = value_snak(
        "time",
        "time",
        obj(vec![
            ("time", s("+1952-03-11T00:00:00Z")),
            ("precision", JsonValue::Number("11".to_string())),
        ]),
    );
    let death = value_snak(
        "time",
        "time",
        obj(vec![
            ("time", s("+2001-05-11T00:00:00Z")),
            ("precision", JsonValue::Number("11".to_string())),
        ]),
    );
    let doc = obj(vec![
        ("id", s("Q42")),
        ("type", s("item")),
        (
            "claims",
            obj(vec![
                ("P569", arr(vec![simple_claim("a", birth)])),
                ("P570", arr(vec![simple_claim("b", death)])),
            ]),
        ),
    ]);
    let ent = Entity::from_json(&doc).unwrap();
    assert_eq!(
        ent.start_time(),
        Some(UtcDateTime { year: 1952, month: 3, day: 11, hour: 0, minute: 0, second: 0 })
    );
    assert_eq!(
        ent.end_time(),
        Some(UtcDateTime { year: 2001, month: 5, day: 11, hour: 0, minute: 0, second: 0 })
    );
    assert_eq!(ent.instances(), vec![]);
}

#[test]
fn lenient_claim_reader() {
    let p31 = || {
        value_snak(
            "wikibase-item",
            "wikibase-entityid",
            obj(vec![("id", s("Q5"))]),
        )
    };
    let broken = obj(vec![("snaktype", s("perhaps")), ("datatype", s("string"))]);
    let claim = obj(vec![
        ("rank", s("normal")),
        ("mainsnak", p31()),
        (
            "qualifiers",
            obj(vec![("P580", arr(vec![broken, value_snak("string", "string", s("kept"))]))]),
        ),
        ("id", s("c1")),
    ]);
    let cv: ClaimValue = ClaimValue::get_prop_from_snak(&claim, false).unwrap();
    assert_eq!(cv.data, ClaimValueData::Item(Qid(5)));
    // The broken qualifier snak is skipped, the good one kept.
    assert_eq!(
        cv.qualifiers,
        vec![(Pid(580), ClaimValueData::PlainString("kept".to_string()))]
    );
    assert_eq!(cv.id, "c1");

    let deprecated = obj(vec![
        ("rank", s("deprecated")),
        ("mainsnak", p31()),
        ("id", s("c2")),
    ]);
    assert!(ClaimValue::get_prop_from_snak(&deprecated, false).is_none());

    let skip_id = obj(vec![("rank", s("preferred")), ("mainsnak", p31())]);
    let cv2 = ClaimValue::get_prop_from_snak(&skip_id, true).unwrap();
    assert_eq!(cv2.id, "");
    assert_eq!(cv2.rank, Rank::Preferred);
}

#[test]
fn duplicate_language_keys() {
    // The last value for a language wins; the key keeps its first position.
    let doc = obj(vec![
        ("id", s("Q1")),
        ("type", s("item")),
        (
            "labels",
            obj(vec![
                ("en", obj(vec![("value", s("one"))])),
                ("de", obj(vec![("value", s("eins"))])),
                ("en", obj(vec![("value", s("two"))])),
            ]),
        ),
        ("claims", obj(vec![])),
    ]);
    let ent = Entity::from_json(&doc).unwrap();
    assert_eq!(
        ent.labels,
        vec![
            (Lang("en".to_string()), "two".to_string()),
            (Lang("de".to_string()), "eins".to_string()),
        ]
    );
}

#[test]
fn default_payload() {
    assert_eq!(ClaimValueData::default(), ClaimValueData::NoValue);
    let cv = ClaimValue::default();
    assert_eq!(cv.rank, Rank::Normal);
    assert_eq!(cv.id, "");
    assert!(cv.qualifiers.is_empty());
}

#[test]
fn rank_order_and_vocabulary() {
    assert!(Rank::Deprecated < Rank::Normal);
    assert!(Rank::Normal < Rank::Preferred);
    assert_eq!(Rank::from_str("normal"), Ok(Rank::Normal));
    assert_eq!(Rank::from_str("deprecated"), Ok(Rank::Deprecated));
    assert_eq!(Rank::from_str("preferred"), Ok(Rank::Preferred));
    assert_eq!(Rank::from_str("sublime"), Err(EntityError::UnknownRank));
    assert_eq!(Rank::default(), Rank::Normal);
}

#[test]
fn lenient_reader_follows_order_arrays() {
    let p31 = value_snak(
        "wikibase-item",
        "wikibase-entityid",
        obj(vec![("id", s("Q5"))]),
    );
    let first = value_snak("string", "string", s("first"));
    let second = value_snak("string", "string", s("second"));
    let src_a = value_snak("string", "string", s("source a"));
    let src_b = value_snak("string", "string", s("source b"));
    // The objects list P580 before P582 and P143 before P248; the order
    // arrays say the opposite, and the order arrays must win.
    let claim = obj(vec![
        ("rank", s("normal")),
        ("mainsnak", p31),
        ("qualifiers-order", arr(vec![s("P582"), s("P580")])),
        (
            "qualifiers",
            obj(vec![("P580", arr(vec![second])), ("P582", arr(vec![first]))]),
        ),
        (
            "references",
            arr(vec![obj(vec![
                (
                    "snaks",
                    obj(vec![("P143", arr(vec![src_b])), ("P248", arr(vec![src_a]))]),
                ),
                ("snaks-order", arr(vec![s("P248"), s("P143")])),
                ("hash", s("h")),
            ])]),
        ),
        ("id", s("c1")),
    ]);
    let cv = ClaimValue::get_prop_from_snak(&claim, false).unwrap();
    assert_eq!(
        cv.qualifiers,
        vec![
            (Pid(582), ClaimValueData::PlainString("first".to_string())),
            (Pid(580), ClaimValueData::PlainString("second".to_string())),
        ]
    );
    assert_eq!(
        cv.references[0].claims,
        vec![
            (Pid(248), ClaimValueData::PlainString("source a".to_string())),
            (Pid(143), ClaimValueData::PlainString("source b".to_string())),
        ]
    );
}
