//! The JSON message codec: exact wire bytes, agreement with a general
//! JSON reader, and the encode/decode round trip.

use liot::message::{DeviceData, Message};

#[test]
fn role_message_wire_bytes() {
    let wire = Message::AddController(b"abc123".to_vec()).to_json();
    assert_eq!(wire, b"{\"add_controller\":\"abc123\"}");
    let wire = Message::RemoveManager(b"".to_vec()).to_json();
    assert_eq!(wire, b"{\"remove_manager\":\"\"}");
}

#[test]
fn update_message_wire_bytes() {
    let wire = Message::Update(DeviceData::Environment {
        temperature: 234,
        humidity: 550,
        dark: false,
    })
    .to_json();
    assert_eq!(
        wire,
        b"{\"update\":{\"environment\":{\"temperature\":23.4,\"humidity\":55.0,\"dark\":false}}}"
    );

    let wire = Message::Control(DeviceData::Fan {
        state: Some(true),
        threshold_temp: Some(-5),
        auto_control: None,
        light_state: Some(false),
    })
    .to_json();
    assert_eq!(
        wire,
        &b"{\"control\":{\"fan\":{\"state\":true,\"threshold_temp\":-5,\"auto_control\":null,\"light_state\":false}}}"[..]
    );
}

#[test]
fn wire_bytes_satisfy_a_general_json_reader() {
    let wire = Message::Update(DeviceData::Environment {
        temperature: -123,
        humidity: 49,
        dark: true,
    })
    .to_json();
    let v: serde_json::Value = serde_json::from_slice(&wire).unwrap();
    let env = &v["update"]["environment"];
    assert!((env["temperature"].as_f64().unwrap() - (-12.3)).abs() < 1e-9);
    assert!((env["humidity"].as_f64().unwrap() - 4.9).abs() < 1e-9);
    assert_eq!(env["dark"].as_bool().unwrap(), true);

    let wire = Message::AddSubscriber(b"node-7".to_vec()).to_json();
    let v: serde_json::Value = serde_json::from_slice(&wire).unwrap();
    assert_eq!(v["add_subscriber"].as_str().unwrap(), "node-7");
}

#[test]
fn every_variant_round_trips() {
    let samples = vec![
        Message::AddController(b"p1".to_vec()),
        Message::RemoveController(b"p2".to_vec()),
        Message::AddSubscriber(b"p3".to_vec()),
        Message::RemoveSubscriber(b"p4".to_vec()),
        Message::AddManager(b"p5".to_vec()),
        Message::RemoveManager(b"p6".to_vec()),
        Message::Update(DeviceData::Light { state: Some(true), auto_control: Some(false) }),
        Message::Update(DeviceData::Light { state: None, auto_control: None }),
        Message::Control(DeviceData::Switch { state: false }),
        Message::Control(DeviceData::Lock {
            unlock: Some(true),
            add_rfid: None,
            clear_rfid: Some(false),
        }),
        Message::Update(DeviceData::Environment { temperature: 0, humidity: 1000, dark: true }),
        Message::Update(DeviceData::Environment {
            temperature: -9999,
            humidity: 9999,
            dark: false,
        }),
        Message::Update(DeviceData::Motion { state: true }),
        Message::Control(DeviceData::Fan {
            state: None,
            threshold_temp: Some(127),
            auto_control: Some(true),
            light_state: None,
        }),
        Message::Control(DeviceData::Fan {
            state: Some(false),
            threshold_temp: Some(-128),
            auto_control: None,
            light_state: Some(true),
        }),
    ];
    for m in samples {
        let wire = m.to_json();
        let back = Message::from_json(&wire).expect("the encoder's output must decode");
        assert_eq!(back.to_json(), wire);
    }
}

#[test]
fn malformed_inputs_are_rejected() {
    assert!(Message::from_json(b"").is_none());
    assert!(Message::from_json(b"{}").is_none());
    assert!(Message::from_json(b"{\"update\":{}}").is_none());
    assert!(Message::from_json(b"{\"add_controller\":\"x\"} ").is_none());
    assert!(Message::from_json(b"{\"switch\":{\"state\":true}}").is_none());
    assert!(
        Message::from_json(b"{\"update\":{\"motion\":{\"state\":maybe}}}").is_none()
    );
}
