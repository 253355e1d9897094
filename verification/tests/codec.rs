use gkr_claims::claim::EvalClaim;
use gkr_claims::field::FieldElement;
use gkr_claims::serialization::{
    deserialize_eval_claim, deserialize_eval_claims, deserialize_fr, deserialize_fr_vec,
    serialize_eval_claim, serialize_eval_claims, serialize_fr, serialize_fr_vec, ClaimVisitor,
    DecodeError, Entry, FieldName,
};

const MODULUS: [u8; 32] = [
    0x01, 0x00, 0x00, 0xf0, 0x93, 0xf5, 0xe1, 0x43, 0x91, 0x70, 0xb9, 0x79, 0x48, 0xe8, 0x33,
    0x28, 0x5d, 0x58, 0x81, 0x81, 0xb6, 0x45, 0x50, 0xb8, 0x29, 0xa0, 0x31, 0xe1, 0x72, 0x4e,
    0x64, 0x30,
];

fn bytes_of(x: u64) -> Vec<u8> {
    let mut bytes = vec![0u8; 32];
    bytes[..8].copy_from_slice(&x.to_le_bytes());
    bytes
}

fn point_entry(coordinates: &[u64]) -> Entry {
    Entry::Point(coordinates.iter().map(|x| bytes_of(*x)).collect())
}

fn value_entry(x: u64) -> Entry {
    Entry::Value(bytes_of(x))
}

#[test]
fn field_element_encodes_as_its_canonical_bytes() {
    assert_eq!(serialize_fr(&FieldElement::from_u64(1)), bytes_of(1));
    assert_eq!(serialize_fr(&FieldElement::from_u64(0xdead_beef)), bytes_of(0xdead_beef));
    assert_eq!(serialize_fr(&FieldElement::zero()), vec![0u8; 32]);
}

#[test]
fn field_element_decodes_from_its_canonical_bytes() {
    assert_eq!(deserialize_fr(&bytes_of(5)), Ok(FieldElement::from_u64(5)));
    let mut largest = MODULUS;
    largest[0] = 0;
    let element = deserialize_fr(&largest).unwrap();
    assert_eq!(serialize_fr(&element), largest.to_vec());
}

#[test]
fn field_element_roundtrip() {
    for x in [0u64, 1, 2, 255, 256, 1 << 40, u64::MAX] {
        let element = FieldElement::from_u64(x);
        assert_eq!(deserialize_fr(&serialize_fr(&element)), Ok(element));
    }
}

#[test]
fn bytes_of_the_wrong_width_are_refused() {
    assert_eq!(deserialize_fr(&[]), Err(DecodeError::InvalidEncoding));
    assert_eq!(deserialize_fr(&[1]), Err(DecodeError::InvalidEncoding));
    assert_eq!(deserialize_fr(&[0u8; 31]), Err(DecodeError::InvalidEncoding));
    assert_eq!(deserialize_fr(&[0u8; 33]), Err(DecodeError::InvalidEncoding));
    assert_eq!(deserialize_fr(&[0u8; 64]), Err(DecodeError::InvalidEncoding));
}

#[test]
fn bytes_at_or_above_the_modulus_are_refused() {
    assert_eq!(deserialize_fr(&MODULUS), Err(DecodeError::InvalidEncoding));
    let mut above = MODULUS;
    above[0] = 2;
    assert_eq!(deserialize_fr(&above), Err(DecodeError::InvalidEncoding));
    assert_eq!(deserialize_fr(&[0xff; 32]), Err(DecodeError::InvalidEncoding));
    for i in 0..32 {
        let mut bytes = MODULUS;
        if bytes[i] == 0xff {
            continue;
        }
        bytes[i] += 1;
        assert_eq!(deserialize_fr(&bytes), Err(DecodeError::InvalidEncoding), "byte {i}");
    }
}

#[test]
fn sequence_roundtrip_keeps_length_and_order() {
    let elements: Vec<FieldElement> =
        [9u64, 8, 7, 7, 0, u64::MAX].iter().map(|x| FieldElement::from_u64(*x)).collect();
    let items = serialize_fr_vec(&elements);
    assert_eq!(items.len(), 6);
    assert_eq!(items[0], bytes_of(9));
    assert_eq!(items[5], bytes_of(u64::MAX));
    assert_eq!(deserialize_fr_vec(&items), Ok(elements));
}

#[test]
fn empty_sequence_roundtrip() {
    let items = serialize_fr_vec(&Vec::new());
    assert!(items.is_empty());
    assert_eq!(deserialize_fr_vec(&items), Ok(Vec::new()));
}

#[test]
fn sequence_with_one_bad_element_is_refused() {
    let items = vec![bytes_of(1), MODULUS.to_vec(), bytes_of(3)];
    assert_eq!(deserialize_fr_vec(&items), Err(DecodeError::InvalidEncoding));
    let items = vec![bytes_of(1), bytes_of(2), vec![0u8; 31]];
    assert_eq!(deserialize_fr_vec(&items), Err(DecodeError::InvalidEncoding));
}

#[test]
fn claim_encodes_as_point_then_value() {
    let claim = EvalClaim::new(
        vec![FieldElement::from_u64(1), FieldElement::from_u64(2)],
        FieldElement::from_u64(3),
    );
    assert_eq!(serialize_eval_claim(&claim), vec![point_entry(&[1, 2]), value_entry(3)]);
}

#[test]
fn claim_roundtrip() {
    let claim = EvalClaim::new(
        vec![FieldElement::from_u64(11), FieldElement::from_u64(0), FieldElement::from_u64(13)],
        FieldElement::from_u64(17),
    );
    let back = deserialize_eval_claim(&serialize_eval_claim(&claim)).unwrap();
    assert_eq!(back, claim);
    assert_eq!(back.point().len(), 3);
    assert_eq!(back.point()[2], FieldElement::from_u64(13));
    assert_eq!(back.value(), FieldElement::from_u64(17));
}

#[test]
fn empty_claim_roundtrip() {
    let empty = EvalClaim::default();
    assert!(empty.point().is_empty());
    assert_eq!(empty.value(), FieldElement::zero());
    let record = serialize_eval_claim(&empty);
    assert_eq!(record, vec![point_entry(&[]), value_entry(0)]);
    assert_eq!(deserialize_eval_claim(&record), Ok(empty));
}

#[test]
fn fields_may_come_in_either_order() {
    let claim = deserialize_eval_claim(&vec![value_entry(4), point_entry(&[5, 6])]).unwrap();
    assert_eq!(claim.value(), FieldElement::from_u64(4));
    assert_eq!(claim.point(), &[FieldElement::from_u64(5), FieldElement::from_u64(6)][..]);
}

#[test]
fn record_without_point_is_refused() {
    assert_eq!(
        deserialize_eval_claim(&vec![value_entry(1)]),
        Err(DecodeError::MissingField(FieldName::Point))
    );
}

#[test]
fn record_without_value_is_refused() {
    assert_eq!(
        deserialize_eval_claim(&vec![point_entry(&[1])]),
        Err(DecodeError::MissingField(FieldName::Value))
    );
}

#[test]
fn empty_record_misses_the_point_first() {
    assert_eq!(
        deserialize_eval_claim(&Vec::new()),
        Err(DecodeError::MissingField(FieldName::Point))
    );
}

#[test]
fn record_with_point_twice_is_refused() {
    assert_eq!(
        deserialize_eval_claim(&vec![point_entry(&[1]), value_entry(2), point_entry(&[1])]),
        Err(DecodeError::DuplicateField(FieldName::Point))
    );
    assert_eq!(
        deserialize_eval_claim(&vec![point_entry(&[1]), point_entry(&[1])]),
        Err(DecodeError::DuplicateField(FieldName::Point))
    );
}

#[test]
fn record_with_value_twice_is_refused() {
    assert_eq!(
        deserialize_eval_claim(&vec![value_entry(2), point_entry(&[1]), value_entry(2)]),
        Err(DecodeError::DuplicateField(FieldName::Value))
    );
}

#[test]
fn record_with_an_unknown_field_is_refused() {
    assert_eq!(
        deserialize_eval_claim(&vec![
            point_entry(&[1]),
            value_entry(2),
            Entry::Unknown("salt".to_string())
        ]),
        Err(DecodeError::UnknownField("salt".to_string()))
    );
    assert_eq!(
        deserialize_eval_claim(&vec![Entry::Unknown(String::new())]),
        Err(DecodeError::UnknownField(String::new()))
    );
}

#[test]
fn first_fault_in_reading_order_is_reported() {
    // An unknown field before a repeated one.
    assert_eq!(
        deserialize_eval_claim(&vec![
            point_entry(&[1]),
            Entry::Unknown("x".to_string()),
            point_entry(&[1])
        ]),
        Err(DecodeError::UnknownField("x".to_string()))
    );
    // A repeated field before an unknown one.
    assert_eq!(
        deserialize_eval_claim(&vec![
            value_entry(1),
            value_entry(1),
            Entry::Unknown("x".to_string())
        ]),
        Err(DecodeError::DuplicateField(FieldName::Value))
    );
    // A bad payload before a missing field.
    assert_eq!(
        deserialize_eval_claim(&vec![Entry::Point(vec![MODULUS.to_vec()])]),
        Err(DecodeError::InvalidEncoding)
    );
    // A repeated field is refused before its payload is looked at.
    assert_eq!(
        deserialize_eval_claim(&vec![value_entry(1), Entry::Value(MODULUS.to_vec())]),
        Err(DecodeError::DuplicateField(FieldName::Value))
    );
}

#[test]
fn record_with_a_bad_payload_is_refused() {
    assert_eq!(
        deserialize_eval_claim(&vec![point_entry(&[1]), Entry::Value(MODULUS.to_vec())]),
        Err(DecodeError::InvalidEncoding)
    );
    assert_eq!(
        deserialize_eval_claim(&vec![Entry::Point(vec![vec![1, 2, 3]]), value_entry(1)]),
        Err(DecodeError::InvalidEncoding)
    );
}

#[test]
fn faults_are_told_apart() {
    assert!(!DecodeError::InvalidEncoding.is_malformed_document());
    assert!(DecodeError::MissingField(FieldName::Point).is_malformed_document());
    assert!(DecodeError::MissingField(FieldName::Value).is_malformed_document());
    assert!(DecodeError::DuplicateField(FieldName::Point).is_malformed_document());
    assert!(DecodeError::DuplicateField(FieldName::Value).is_malformed_document());
    assert!(DecodeError::UnknownField("x".to_string()).is_malformed_document());
}

#[test]
fn field_names() {
    assert_eq!(FieldName::Point.name(), "point");
    assert_eq!(FieldName::Value.name(), "value");
    assert_eq!(FieldName::parse("point"), Some(FieldName::Point));
    assert_eq!(FieldName::parse("value"), Some(FieldName::Value));
    assert_eq!(FieldName::parse("Point"), None);
    assert_eq!(FieldName::parse("points"), None);
    assert_eq!(FieldName::parse(""), None);
    assert_eq!(FieldName::parse("valu\u{e9}"), None);
}

#[test]
fn visitor_keeps_its_state_on_a_fault() {
    let mut visitor = ClaimVisitor::new();
    assert_eq!(visitor.visit_point(&vec![bytes_of(1)]), Ok(()));
    assert_eq!(visitor.visit_value(&[0u8; 3]), Err(DecodeError::InvalidEncoding));
    assert_eq!(
        visitor.visit_point(&vec![bytes_of(2)]),
        Err(DecodeError::DuplicateField(FieldName::Point))
    );
    assert_eq!(
        visitor.visit(&Entry::Unknown("x".to_string())),
        Err(DecodeError::UnknownField("x".to_string()))
    );
    assert_eq!(visitor.visit(&value_entry(5)), Ok(()));
    let claim = visitor.finish().unwrap();
    assert_eq!(claim, EvalClaim::new(vec![FieldElement::from_u64(1)], FieldElement::from_u64(5)));
}

#[test]
fn visitor_that_read_nothing_misses_the_point() {
    assert_eq!(
        ClaimVisitor::new().finish(),
        Err(DecodeError::MissingField(FieldName::Point))
    );
}

#[test]
fn claims_roundtrip_keeps_length_and_order() {
    let claims = vec![
        EvalClaim::new(vec![FieldElement::from_u64(1)], FieldElement::from_u64(2)),
        EvalClaim::default(),
        EvalClaim::new(
            vec![FieldElement::from_u64(3), FieldElement::from_u64(4)],
            FieldElement::from_u64(5),
        ),
    ];
    let records = serialize_eval_claims(&claims);
    assert_eq!(records.len(), 3);
    assert_eq!(records[2], vec![point_entry(&[3, 4]), value_entry(5)]);
    assert_eq!(deserialize_eval_claims(&records), Ok(claims));
}

#[test]
fn no_claims_roundtrip() {
    let records = serialize_eval_claims(&Vec::new());
    assert!(records.is_empty());
    assert_eq!(deserialize_eval_claims(&records), Ok(Vec::new()));
}

#[test]
fn claims_are_refused_with_the_fault_of_the_first_bad_record() {
    let records = vec![
        vec![point_entry(&[1]), value_entry(2)],
        vec![point_entry(&[1])],
        vec![Entry::Unknown("x".to_string())],
    ];
    assert_eq!(
        deserialize_eval_claims(&records),
        Err(DecodeError::MissingField(FieldName::Value))
    );
}
