//! Whole-document decodes: one representative document per entity flavour.

use wikidata::{Entity, EntityType, JsonValue, Lid, Qid, WikiId};

fn s(x: &str) -> JsonValue {
    JsonValue::Str(x.to_string())
}

fn obj(entries: Vec<(&str, JsonValue)>) -> JsonValue {
    JsonValue::Object(
        entries
            .into_iter()
            .map(|(k, v)| (k.to_string(), v))
            .collect(),
    )
}

fn arr(elems: Vec<JsonValue>) -> JsonValue {
    JsonValue::Array(elems)
}

fn value_snak(datatype: &str, value_type: &str, value: JsonValue) -> JsonValue {
    obj(vec![
        ("snaktype", s("value")),
        ("datatype", s(datatype)),
        (
            "datavalue",
            obj(vec![("type", s(value_type)), ("value", value)]),
        ),
    ])
}

fn claim(id: &str, mainsnak: JsonValue) -> JsonValue {
    obj(vec![
        ("mainsnak", mainsnak),
        ("rank", s("normal")),
        ("id", s(id)),
    ])
}

fn label(lang: &str, value: &str) -> (String, JsonValue) {
    (lang.to_string(), obj(vec![("value", s(value))]))
}

fn envelope(key: &str, entity: JsonValue) -> JsonValue {
    obj(vec![("entities", JsonValue::Object(vec![(key.to_string(), entity)]))])
}

#[test]
fn simple_item() {
    let doc = envelope(
        "Q106975887",
        obj(vec![
            ("id", s("Q106975887")),
            ("type", s("item")),
            ("labels", JsonValue::Object(vec![label("en", "a person")])),
            (
                "claims",
                obj(vec![(
                    "P31",
                    arr(vec![claim(
                        "c1",
                        value_snak(
                            "wikibase-item",
                            "wikibase-entityid",
                            obj(vec![("id", s("Q5"))]),
                        ),
                    )]),
                )]),
            ),
        ]),
    );
    let ent = Entity::from_json(&doc).unwrap();
    assert_eq!(ent.id, WikiId::EntityId(Qid(106975887)));
}

#[test]
fn douglas_adams() {
    let birth = value_snak(
        "time",
        "time",
        obj(vec![
            ("time", s("+1952-03-11T00:00:00Z")),
            ("precision", JsonValue::Number("11".to_string())),
        ]),
    );
    let portrait = value_snak(
        "commonsMedia",
        "string",
        s("Douglas adams portrait cropped.jpg"),
    );
    let doc = envelope(
        "Q42",
        obj(vec![
            ("id", s("Q42")),
            ("type", s("item")),
            ("labels", JsonValue::Object(vec![label("en", "Douglas Adams")])),
            (
                "descriptions",
                JsonValue::Object(vec![label("en", "English writer and humourist")]),
            ),
            (
                "claims",
                obj(vec![
                    ("P569", arr(vec![claim("c1", birth)])),
                    ("P18", arr(vec![claim("c2", portrait)])),
                ]),
            ),
        ]),
    );
    let ent = Entity::from_json(&doc).unwrap();
    assert!(ent.start_time().is_some());
}

#[test]
fn universe() {
    let instance = value_snak(
        "wikibase-item",
        "wikibase-entityid",
        obj(vec![("id", s("Q323"))]),
    );
    let doc = envelope(
        "Q1",
        obj(vec![
            ("id", s("Q1")),
            ("type", s("item")),
            ("claims", obj(vec![("P793", arr(vec![claim("c1", instance)]))])),
        ]),
    );
    Entity::from_json(&doc).unwrap();
}

#[test]
fn word() {
    let lexeme_ref = value_snak(
        "wikibase-lexeme",
        "wikibase-entityid",
        obj(vec![("id", s("L361"))]),
    );
    let doc = envelope(
        "L31928",
        obj(vec![
            ("id", s("L31928")),
            ("type", s("lexeme")),
            ("claims", obj(vec![("P6254", arr(vec![claim("c1", lexeme_ref)]))])),
        ]),
    );
    let ent = Entity::from_json(&doc).unwrap();
    assert_eq!(ent.id, WikiId::LexemeId(Lid(31928)));
    assert_eq!(ent.entity_type, EntityType::Lexeme);
}

#[test]
fn mount_everest() {
    let coords = value_snak(
        "globe-coordinate",
        "globecoordinate",
        obj(vec![
            ("latitude", JsonValue::Number("27.988055555556".to_string())),
            ("longitude", JsonValue::Number("86.925277777778".to_string())),
            ("globe", s("http://www.wikidata.org/entity/Q2")),
        ]),
    );
    let doc = envelope(
        "Q513",
        obj(vec![
            ("id", s("Q513")),
            ("type", s("item")),
            ("claims", obj(vec![("P625", arr(vec![claim("c1", coords)]))])),
        ]),
    );
    Entity::from_json(&doc).unwrap();
}

#[test]
fn portugal() {
    let doc = envelope(
        "Q45",
        obj(vec![
            ("id", s("Q45")),
            ("type", s("item")),
            (
                "labels",
                JsonValue::Object(vec![label("pt", "Portugal"), label("en", "Portugal")]),
            ),
            (
                "aliases",
                obj(vec![(
                    "pt",
                    arr(vec![obj(vec![("value", s("Rep\u{fa}blica Portuguesa"))])]),
                )]),
            ),
            ("claims", obj(vec![])),
        ]),
    );
    let ent = Entity::from_json(&doc).unwrap();
    assert_eq!(ent.labels.len(), 2);
    assert_eq!(ent.aliases.len(), 1);
}
