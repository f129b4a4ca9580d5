//! Unit tests of the core's building blocks.

use homectl_core::commands::{parse_custom_action, tuple_value_to_vec_string, join_strings,
    PendingCommand};
use homectl_core::context::EvaluationContext;
use homectl_core::device::{Device, DevicesState, tree_shape_eq};
use homectl_core::diff::diff_contexts;
use homectl_core::error::CoreError;
use homectl_core::flatten::{value_kv_pairs_deep, leaf_to_value};
use homectl_core::hue::{BridgeLight, BridgeLightState, ColorValue, DeviceKind, to_light,
    bridge_light_to_device};
use homectl_core::pointer::parse_pointer_segments;
use homectl_core::strings::{name_to_evalexpr, usize_to_string};
use homectl_core::value::{Scalar, TreeValue, value_eq};

#[test]
fn name_normalization() {
    assert_eq!(name_to_evalexpr("Living Room Lamp"), "living_room_lamp");
    assert_eq!(name_to_evalexpr("lamp1"), "lamp1");
}

#[test]
fn decimal_rendering() {
    assert_eq!(usize_to_string(0), "0");
    assert_eq!(usize_to_string(17), "17");
    assert_eq!(usize_to_string(120), "120");
}

#[test]
fn flattening_nested_values() {
    let t = TreeValue::Object(vec![
        ("a".to_string(), TreeValue::Int(1)),
        (
            "b".to_string(),
            TreeValue::Array(vec![TreeValue::Bool(true), TreeValue::Null]),
        ),
    ]);
    let pairs = value_kv_pairs_deep(&t, "root");
    let keys: Vec<&str> = pairs.iter().map(|p| p.0.as_str()).collect();
    assert_eq!(keys, vec!["root.a", "root.b.0", "root.b.1"]);
    assert!(matches!(pairs[0].1, TreeValue::Int(1)));
    assert!(matches!(pairs[1].1, TreeValue::Bool(true)));
    assert!(matches!(pairs[2].1, TreeValue::Null));
}

#[test]
fn leaf_conversion_rejects_structures() {
    assert!(leaf_to_value(&TreeValue::Int(3)).is_ok());
    let r = leaf_to_value(&TreeValue::Array(vec![]));
    assert_eq!(r.unwrap_err(), CoreError::Conversion);
}

#[test]
fn namespace_build_is_deterministic() {
    let make = || {
        DevicesState(vec![Device {
            key: "k1".to_string(),
            name: "Living Room Lamp".to_string(),
            integration_id: "hue".to_string(),
            scene: Some("dim".to_string()),
            state: TreeValue::Object(vec![("on".to_string(), TreeValue::Bool(false))]),
        }])
    };
    let scenes = homectl_core::device::FlattenedScenesConfig(Vec::new());
    let groups = homectl_core::device::FlattenedGroupsConfig(Vec::new());
    let c1 = homectl_core::builder::state_to_eval_context(&make(), &scenes, &groups).unwrap();
    let c2 = homectl_core::builder::state_to_eval_context(&make(), &scenes, &groups).unwrap();
    assert_eq!(c1.len(), c2.len());
    let mut i: usize = 0;
    while i < c1.len() {
        assert_eq!(c1.key_at(i), c2.key_at(i));
        assert!(value_eq(c1.value_at(i), c2.value_at(i)));
        i += 1;
    }
    // The normalized device name is addressable.
    assert!(c1.get("devices.hue.living_room_lamp.state.on").is_some());
    assert!(c1.get("devices.hue.living_room_lamp.scene").is_some());
}

#[test]
fn diff_precision() {
    let mut orig = EvaluationContext::new();
    orig.set("devices.hue.lamp1.state.on".to_string(), Scalar::Bool(false));
    orig.set("unrelated".to_string(), Scalar::Int(3));
    let mut fin = EvaluationContext::new();
    fin.set("devices.hue.lamp1.state.on".to_string(), Scalar::Bool(true));
    fin.set("unrelated".to_string(), Scalar::Int(3));
    let d = diff_contexts(&fin, &orig);
    assert_eq!(d.len(), 1);
    assert_eq!(d[0].0, "devices.hue.lamp1.state.on");
    assert!(matches!(d[0].1, Scalar::Bool(true)));
}

#[test]
fn tuple_of_strings_converts() {
    let v = Scalar::Tuple(vec![
        Scalar::Str("a".to_string()),
        Scalar::Str("b".to_string()),
    ]);
    let xs = tuple_value_to_vec_string(&v).unwrap();
    assert_eq!(xs, vec!["a".to_string(), "b".to_string()]);
    assert_eq!(join_strings(&xs), "ab");
}

#[test]
fn tuple_with_non_string_member_is_an_evaluation_error() {
    let v = Scalar::Tuple(vec![Scalar::Str("a".to_string()), Scalar::Int(1)]);
    assert_eq!(tuple_value_to_vec_string(&v).unwrap_err(), CoreError::Evaluation);
}

#[test]
fn custom_action_parsing_joins_payload() {
    let arg = Scalar::Tuple(vec![
        Scalar::Str("ikea".to_string()),
        Scalar::Tuple(vec![
            Scalar::Str("a".to_string()),
            Scalar::Str("b".to_string()),
            Scalar::Str("c".to_string()),
        ]),
    ]);
    match parse_custom_action(&arg).unwrap() {
        PendingCommand::Custom(intg, payload) => {
            assert_eq!(intg, "ikea");
            assert_eq!(payload, "abc");
        },
        _ => panic!("expected a custom command"),
    }
}

#[test]
fn pointer_parsing_splits_and_unescapes() {
    let segs = parse_pointer_segments("a.b.c").unwrap();
    assert_eq!(segs, vec!["a".to_string(), "b".to_string(), "c".to_string()]);
    let segs = parse_pointer_segments("x~0y.z").unwrap();
    assert_eq!(segs, vec!["x~y".to_string(), "z".to_string()]);
    assert_eq!(
        parse_pointer_segments("a~2b").unwrap_err(),
        CoreError::DiffEncoding
    );
}

#[test]
fn shape_comparison() {
    let a = TreeValue::Object(vec![("on".to_string(), TreeValue::Bool(false))]);
    let b = TreeValue::Object(vec![("on".to_string(), TreeValue::Bool(true))]);
    let c = TreeValue::Object(vec![("on".to_string(), TreeValue::Int(1))]);
    assert!(tree_shape_eq(&a, &b));
    assert!(!tree_shape_eq(&a, &c));
}

#[test]
fn device_set_value_replaces_state_on_shape_match() {
    let d = Device {
        key: "k".to_string(),
        name: "n".to_string(),
        integration_id: "hue".to_string(),
        scene: None,
        state: TreeValue::Object(vec![("on".to_string(), TreeValue::Bool(false))]),
    };
    let new_state = TreeValue::Object(vec![("on".to_string(), TreeValue::Bool(true))]);
    let updated = d.set_value(&new_state).unwrap();
    assert_eq!(updated.key, "k");
    match &updated.state {
        TreeValue::Object(fs) => assert!(matches!(fs[0].1, TreeValue::Bool(true))),
        _ => panic!("expected an object state"),
    }
    let bad = TreeValue::Object(vec![("bri".to_string(), TreeValue::Int(1))]);
    assert!(d.set_value(&bad).is_none());
}

#[test]
fn bridge_light_conversion() {
    let bl = BridgeLight {
        name: "Desk".to_string(),
        state: BridgeLightState {
            on: true,
            bri: Some(200),
            hue: Some(40000),
            sat: Some(100),
        },
    };
    let light = to_light(bl.clone());
    assert!(light.power);
    assert!(light.brightness.is_none());
    assert_eq!(
        light.color,
        Some(ColorValue { hue: 40000, sat: 100, bri: 200 })
    );

    let dev = bridge_light_to_device("id1".to_string(), "hue".to_string(), bl);
    assert_eq!(dev.id, "id1");
    assert_eq!(dev.name, "Desk");
    assert_eq!(dev.integration_id, "hue");
    assert!(dev.scene.is_none());
    let DeviceKind::Light(l) = dev.kind;
    assert!(l.power);
}

#[test]
fn bridge_light_without_full_color_has_none() {
    let bl = BridgeLight {
        name: "Desk".to_string(),
        state: BridgeLightState { on: false, bri: Some(200), hue: None, sat: Some(1) },
    };
    let light = to_light(bl);
    assert!(!light.power);
    assert!(light.color.is_none());
}

#[test]
fn cache_serves_identical_snapshots_and_rebuilds_on_change() {
    let make = |on: bool| {
        DevicesState(vec![Device {
            key: "k1".to_string(),
            name: "lamp1".to_string(),
            integration_id: "hue".to_string(),
            scene: None,
            state: TreeValue::Object(vec![("on".to_string(), TreeValue::Bool(on))]),
        }])
    };
    let scenes = homectl_core::device::FlattenedScenesConfig(Vec::new());
    let groups = homectl_core::device::FlattenedGroupsConfig(Vec::new());
    let mut cache = homectl_core::cache::ContextCache::new();
    let c1 = cache.get_or_build(&make(false), &scenes, &groups).unwrap();
    let c2 = cache.get_or_build(&make(false), &scenes, &groups).unwrap();
    assert_eq!(c1.len(), c2.len());
    let mut i: usize = 0;
    while i < c1.len() {
        assert_eq!(c1.key_at(i), c2.key_at(i));
        assert!(value_eq(c1.value_at(i), c2.value_at(i)));
        i += 1;
    }
    let c3 = cache.get_or_build(&make(true), &scenes, &groups).unwrap();
    let v = c3.get("devices.hue.lamp1.state.on").unwrap();
    assert!(matches!(v, Scalar::Bool(true)));
}
