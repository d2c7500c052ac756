//! Names, values, keys and references.
use dialog_artifacts::index::search_range_of;
use dialog_artifacts::key::{Parts, KEY_LENGTH};
use dialog_artifacts::record::Record;
use dialog_artifacts::reference::{reference_of_bytes, same_bytes};
use dialog_artifacts::text::{chars_of, decimal_text, number_in};
use dialog_artifacts::{
    make_reference, Artifact, ArtifactSelector, Attribute, Cause, Datum, DialogArtifactsError,
    Entity, KeyKind, Value,
};

fn artifact(the: &str, of: &str, is: Value) -> Artifact {
    Artifact { the: Attribute::parse(the).unwrap(), of: Entity::parse(of).unwrap(), is, cause: None }
}

#[test]
fn a_reference_is_the_blake3_hash() {
    let expected = "af1349b9f5f9a1a6a0404dea36dcc9499bcb25c9adc112b7cc9a93cae41f3262";
    let text: String = make_reference(b"").iter().map(|byte| format!("{byte:02x}")).collect();
    assert_eq!(text, expected);
}

#[test]
fn numerals_are_decimal() {
    assert_eq!(decimal_text(0), "0");
    assert_eq!(decimal_text(10), "10");
    assert_eq!(decimal_text(9075), "9075");
    assert_eq!(decimal_text(u128::MAX), u128::MAX.to_string());
}

#[test]
fn blocks_of_the_right_length_are_references() {
    assert_eq!(reference_of_bytes(&[3; 32]), Some([3; 32]));
    assert_eq!(reference_of_bytes(&[3; 31]), None);
    assert_eq!(reference_of_bytes(&[3; 33]), None);
    assert!(same_bytes(&[1, 2], &[1, 2]));
    assert!(!same_bytes(&[1, 2], &[1, 3]));
    assert!(!same_bytes(&[1, 2], &[1, 2, 3]));
}

#[test]
fn names_fit_or_are_refused() {
    let long = "a".repeat(64);
    assert_eq!(Attribute::parse(&long).unwrap().as_str(), long);
    let longer = "a".repeat(65);
    assert_eq!(
        Attribute::parse(&longer),
        Err(DialogArtifactsError::InvalidAttribute(longer.clone()))
    );
    assert_eq!(Entity::parse(&longer), Err(DialogArtifactsError::InvalidEntity(longer)));
    assert!(Entity::parse("a\0b").is_err());
}

#[test]
fn values_are_read_back() {
    for value in [
        Value::Boolean(true),
        Value::Boolean(false),
        Value::String("Gr\u{fc}\u{df}e".to_string()),
        Value::UnsignedInt(u128::MAX - 1),
    ] {
        assert_eq!(Value::from_bytes(value.data_type(), value.to_bytes()), Some(value));
    }
    assert_eq!(Value::UnsignedInt(258).to_bytes()[..3], [2, 1, 0]);
    assert_eq!(Value::from_bytes(1, vec![2]), None);
    assert_eq!(Value::from_bytes(2, vec![255]), None);
    assert_eq!(Value::from_bytes(3, vec![0; 15]), None);
    assert_eq!(Value::from_bytes(0, vec![]), None);
}

#[test]
fn artifacts_are_read_back() {
    let mut fact = artifact("a/b", "e", Value::UnsignedInt(5));
    fact.cause = Some(Cause([9; 32]));
    assert_eq!(Datum::of_artifact(&fact).to_artifact(), Ok(fact.clone()));
    let mut datum = Datum::of_artifact(&fact);
    datum.entity = "e".repeat(65);
    assert_eq!(
        datum.to_artifact(),
        Err(DialogArtifactsError::InvalidEntity("e".repeat(65)))
    );
    let mut datum = Datum::of_artifact(&fact);
    datum.attribute = "\0".to_string();
    assert_eq!(
        datum.to_artifact(),
        Err(DialogArtifactsError::InvalidAttribute("\0".to_string()))
    );
}

#[test]
fn keys_hold_their_parts() {
    let fact = artifact("a/b", "e", Value::Boolean(true));
    let parts = Parts::of_artifact(&fact);
    let hash = make_reference(&[1]);
    let entity = parts.key(KeyKind::Entity);
    assert_eq!(entity.len(), KEY_LENGTH);
    assert_eq!(entity[0], 0);
    assert_eq!(&entity[1..3], b"e\0");
    assert_eq!(&entity[65..69], b"a/b\0");
    assert_eq!(entity[129], 1);
    assert_eq!(entity[130..], hash);
    let attribute = parts.key(KeyKind::Attribute);
    assert_eq!(attribute[0], 1);
    assert_eq!(&attribute[1..5], b"a/b\0");
    assert_eq!(&attribute[65..67], b"e\0");
    let value = parts.key(KeyKind::Value);
    assert_eq!(value[..2], [2, 1]);
    assert_eq!(value[2..34], hash);
    assert_eq!(&value[34..38], b"a/b\0");
    assert_eq!(&value[98..100], b"e\0");
    for kind in [KeyKind::Entity, KeyKind::Attribute, KeyKind::Value] {
        let again = Parts::in_key(kind, &parts.key(kind));
        assert_eq!(again.key(KeyKind::Entity), entity);
    }
}

#[test]
fn selectors_choose_their_keys() {
    let the = || Attribute::parse("a/b").unwrap();
    let of = || Entity::parse("e").unwrap();
    let is = || Value::Boolean(true);
    assert_eq!(ArtifactSelector::new().the(the()).kind(), KeyKind::Attribute);
    assert_eq!(ArtifactSelector::new().is(is()).the(the()).kind(), KeyKind::Value);
    assert_eq!(ArtifactSelector::new().is(is()).of(of()).kind(), KeyKind::Entity);

    let fact = Parts::of_artifact(&artifact("a/b", "e", Value::Boolean(true)));
    let selector = ArtifactSelector::new().the(the());
    let range = selector.range();
    let key = fact.key(KeyKind::Attribute);
    assert!(range.start <= key && key < range.end);
    assert!(selector.matches(&fact));
    assert!(!ArtifactSelector::new().of(Entity::parse("f").unwrap()).matches(&fact));
    assert!(!ArtifactSelector::new().is(Value::Boolean(false)).matches(&fact));

    let range = search_range_of(&fact);
    let key = fact.key(KeyKind::Entity);
    assert!(range.start <= key && key < range.end);
    assert_eq!(range.start[..129], key[..129]);
    assert_eq!(range.end[129..], [255u8; 33]);
}

#[test]
fn causes_tell_artifacts_apart() {
    let a = artifact("a/b", "e", Value::Boolean(true));
    let b = artifact("a/b", "e", Value::Boolean(false));
    let mut c = a.clone();
    c.cause = Some(Cause::of_artifact(&b));
    assert_ne!(Cause::of_artifact(&a), Cause::of_artifact(&b));
    assert_ne!(Cause::of_artifact(&a), Cause::of_artifact(&c));
    let key = Parts::of_artifact(&a).key(KeyKind::Entity);
    assert_eq!(Cause::of_artifact(&a), Cause(make_reference(&key)));
}

#[test]
fn a_record_stands_for_its_artifact() {
    let values = [
        (Value::Boolean(true), "true"),
        (Value::Boolean(false), "false"),
        (Value::UnsignedInt(0), "0"),
        (Value::UnsignedInt(u128::MAX), "340282366920938463463374607431768211455"),
        (Value::String("".to_string()), "'"),
        (Value::String("true".to_string()), "'true"),
        (Value::String("\u{e9}t\u{e9}".to_string()), "'\u{e9}t\u{e9}"),
    ];
    for (value, text) in values {
        let mut fact = artifact("item/id", "entity:1", value);
        let record = Record::of_artifact(&fact);
        assert_eq!(
            record,
            Record {
                the: "item/id".to_string(),
                of: "entity:1".to_string(),
                is: text.to_string(),
                cause: None,
            }
        );
        assert_eq!(record.artifact(), Ok(fact.clone()));
        fact.cause = Some(Cause([0xa7; 32]));
        let record = Record::of_artifact(&fact);
        assert_eq!(record.cause, Some("a7".repeat(32)));
        assert_eq!(record.artifact(), Ok(fact));
    }
}

#[test]
fn a_record_can_stand_for_no_artifact() {
    let record = |the: &str, of: &str, is: &str, cause: Option<String>| {
        Record { the: the.to_string(), of: of.to_string(), is: is.to_string(), cause }.artifact()
    };
    let long = "x".repeat(65);
    assert_eq!(record(&long, "e", "1", None), Err(format!("invalid attribute: {long}")));
    assert_eq!(record("a", &long, "1", None), Err(format!("invalid entity: {long}")));
    for is in ["", "yes", "-1", "1x", "340282366920938463463374607431768211456"] {
        assert_eq!(record("a", "e", is, None), Err(format!("invalid value: {is}")));
    }
    for cause in ["".to_string(), "a".repeat(63), "A".repeat(64), "g".repeat(64)] {
        assert_eq!(
            record("a", "e", "1", Some(cause.clone())),
            Err(format!("invalid cause: {cause}"))
        );
    }
}

#[test]
fn digits_spell_numbers() {
    assert_eq!(number_in(&chars_of("0042")), Some(42));
    assert_eq!(number_in(&chars_of("")), None);
    assert_eq!(number_in(&chars_of("4 2")), None);
    assert_eq!(chars_of("a\u{e9}"), vec!['a', '\u{e9}']);
}
