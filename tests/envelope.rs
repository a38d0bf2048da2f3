use orsomafo::{DispatchedEvent, SendEmailOnUserCreated, WireEnvelope};

#[test]
fn new_envelope_keeps_payload_and_name() {
    let e = DispatchedEvent::new("{\"id\":1}".to_string(), "UserCreated".to_string());
    assert_eq!(e.data(), "{\"id\":1}");
    assert_eq!(e.data_ref(), "{\"id\":1}");
    assert_eq!(e.name(), "UserCreated");
    assert_eq!(e.name_ref(), "UserCreated");
    assert!(e.created_at_ts() > 1_600_000_000);
    assert_eq!((e.id() >> 76) & 0xf, 7);
    assert_eq!((e.id() >> 62) & 3, 2);
    assert_eq!(*e.id_ref(), e.id());
}

#[test]
fn new_envelopes_get_distinct_ids() {
    let a = DispatchedEvent::new(String::new(), "E".to_string());
    let b = DispatchedEvent::new(String::new(), "E".to_string());
    assert_ne!(a.id(), b.id());
}

#[test]
fn wire_form_writes_hyphenated_id() {
    let e = DispatchedEvent::from_parts(
        0x0123_4567_89ab_cdef_fedc_ba98_7654_3210,
        1_700_000_000,
        "p".to_string(),
        "n".to_string(),
    );
    let w = e.to_wire();
    assert_eq!(w.id, "01234567-89ab-cdef-fedc-ba9876543210");
    assert_eq!(w.created_at, 1_700_000_000);
    assert_eq!(w.payload, "p");
    assert_eq!(w.event_name, "n");
}

#[test]
fn wire_round_trip_keeps_every_field() {
    let e = DispatchedEvent::new("{\"x\":[1,2]}".to_string(), "Round".to_string());
    let back = DispatchedEvent::from_wire(e.to_wire()).unwrap();
    assert_eq!(back.id(), e.id());
    assert_eq!(back.created_at_ts(), e.created_at_ts());
    assert_eq!(back.data(), e.data());
    assert_eq!(back.name(), e.name());
}

#[test]
fn wire_round_trip_of_extreme_values() {
    let e = DispatchedEvent::from_parts(u128::MAX, i64::MIN, String::new(), String::new());
    let back = DispatchedEvent::from_wire(e.to_wire()).unwrap();
    assert_eq!(back.id(), u128::MAX);
    assert_eq!(back.created_at_ts(), i64::MIN);
    let zero = DispatchedEvent::from_parts(0, 0, String::new(), String::new());
    assert_eq!(zero.to_wire().id, "00000000-0000-0000-0000-000000000000");
    assert_eq!(DispatchedEvent::from_wire(zero.to_wire()).unwrap().id(), 0);
}

#[test]
fn malformed_wire_id_is_rejected() {
    let w = WireEnvelope {
        id: "not-an-id".to_string(),
        created_at: 5,
        payload: "{}".to_string(),
        event_name: "E".to_string(),
    };
    assert!(DispatchedEvent::from_wire(w).is_none());
}

#[test]
fn wire_id_in_another_uuid_form_is_accepted() {
    let w = WireEnvelope {
        id: "0123456789ABCDEFFEDCBA9876543210".to_string(),
        created_at: 5,
        payload: "{}".to_string(),
        event_name: "E".to_string(),
    };
    let e = DispatchedEvent::from_wire(w).unwrap();
    assert_eq!(e.id(), 0x0123_4567_89ab_cdef_fedc_ba98_7654_3210);
    assert_eq!(e.created_at_ts(), 5);
    assert_eq!(e.name(), "E");
}

#[test]
fn example_handler_type_exists() {
    let _handler = SendEmailOnUserCreated;
}
