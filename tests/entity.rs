use tf_demo_analyser::entity::{decode_entity, DecodeError, EntityId, PropValue, Pvs};
use tf_demo_analyser::sendprop::{FlatProp, PropIdentifier, PropKind};

fn schema() -> Vec<FlatProp> {
    let mk = |name: &str, kind: PropKind| FlatProp {
        identifier: PropIdentifier::new("DT_T", name),
        table: String::from("DT_T"),
        name: String::from(name),
        kind,
        changes_often: false,
    };
    vec![mk("health", PropKind::Int), mk("angle", PropKind::Float), mk("label", PropKind::String)]
}

#[test]
fn enter_with_full_baseline_has_every_property() {
    let s = schema();
    let delta = vec![
        (0, PropValue::Integer(100)),
        (1, PropValue::Float(1.5f32.to_bits())),
        (2, PropValue::String(String::from("x"))),
    ];
    let e = decode_entity(&s, 3, EntityId(7), Pvs::Enter, delta).unwrap();
    assert_eq!(e.entity_index, EntityId(7));
    assert_eq!(e.server_class, 3);
    assert_eq!(e.pvs, Pvs::Enter);
    assert_eq!(e.props.len(), s.len());
    for (p, f) in e.props.iter().zip(s.iter()) {
        assert_eq!(p.identifier, f.identifier);
    }
}

#[test]
fn enter_with_partial_delta_fails() {
    let s = schema();
    let delta = vec![(0, PropValue::Integer(100))];
    assert!(matches!(
        decode_entity(&s, 3, EntityId(7), Pvs::Enter, delta),
        Err(DecodeError::IncompleteBaseline)
    ));
}

#[test]
fn preserve_may_carry_a_subset() {
    let s = schema();
    let delta = vec![(1, PropValue::Float(2.0f32.to_bits()))];
    let e = decode_entity(&s, 3, EntityId(7), Pvs::Preserve, delta).unwrap();
    assert_eq!(e.props.len(), 1);
    assert_eq!(e.props[0].identifier, PropIdentifier::new("DT_T", "angle"));
    assert!(matches!(e.props[0].value, PropValue::Float(b) if b == 2.0f32.to_bits()));
}

#[test]
fn out_of_order_delta_fails() {
    let s = schema();
    let delta = vec![(1, PropValue::Float(0)), (0, PropValue::Integer(1))];
    assert!(matches!(
        decode_entity(&s, 3, EntityId(7), Pvs::Preserve, delta),
        Err(DecodeError::OutOfOrder)
    ));
}

#[test]
fn index_past_schema_fails() {
    let s = schema();
    let delta = vec![(3, PropValue::Integer(1))];
    assert!(matches!(
        decode_entity(&s, 3, EntityId(7), Pvs::Preserve, delta),
        Err(DecodeError::IndexOutOfRange)
    ));
}

#[test]
fn wrong_kind_fails() {
    let s = schema();
    let delta = vec![(0, PropValue::Float(0))];
    assert!(matches!(
        decode_entity(&s, 3, EntityId(7), Pvs::Preserve, delta),
        Err(DecodeError::KindMismatch)
    ));
}
