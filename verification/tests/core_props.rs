//! End-to-end properties of the rule-evaluation core.

use homectl_core::action::Action;
use homectl_core::device::{Device, DevicesState, FlattenedGroupsConfig, FlattenedSceneConfig,
    FlattenedScenesConfig};
use homectl_core::engine::eval_action_expr;
use homectl_core::error::CoreError;
use homectl_core::value::TreeValue;

fn lamp1() -> Device {
    Device {
        key: "k-lamp1".to_string(),
        name: "lamp1".to_string(),
        integration_id: "hue".to_string(),
        scene: None,
        state: TreeValue::Object(vec![("on".to_string(), TreeValue::Bool(false))]),
    }
}

fn registry() -> DevicesState {
    DevicesState(vec![lamp1()])
}

fn no_scenes() -> FlattenedScenesConfig {
    FlattenedScenesConfig(Vec::new())
}

fn no_groups() -> FlattenedGroupsConfig {
    FlattenedGroupsConfig(Vec::new())
}

fn run(expr: &str) -> Result<Vec<Action>, CoreError> {
    let node = evalexpr::build_operator_tree(expr).unwrap();
    eval_action_expr(&node, &registry(), &no_scenes(), &no_groups())
}

#[test]
fn false_result_dispatches_nothing() {
    let actions = run("activate_scene(\"x\"); false").unwrap();
    assert_eq!(actions.len(), 0);
}

#[test]
fn true_result_dispatches_queued_scene() {
    let actions = run("activate_scene(\"x\"); true").unwrap();
    assert_eq!(actions.len(), 1);
    match &actions[0] {
        Action::ActivateScene(d) => {
            assert_eq!(d.scene_id, "x");
            assert!(d.device_keys.is_none());
            assert!(d.group_keys.is_none());
        },
        _ => panic!("expected a scene activation"),
    }
}

#[test]
fn scene_via_assignment() {
    let actions = run("devices.hue.lamp1.scene = \"evening\"").unwrap();
    assert_eq!(actions.len(), 1);
    match &actions[0] {
        Action::ActivateScene(d) => {
            assert_eq!(d.scene_id, "evening");
            assert_eq!(d.device_keys, Some(vec!["k-lamp1".to_string()]));
            assert!(d.group_keys.is_none());
        },
        _ => panic!("expected a scene activation, not a state write"),
    }
}

#[test]
fn state_via_assignment() {
    let actions = run("devices.hue.lamp1.state.on = true").unwrap();
    assert_eq!(actions.len(), 1);
    match &actions[0] {
        Action::SetDeviceState(d) => {
            assert_eq!(d.key, "k-lamp1");
            match &d.state {
                TreeValue::Object(fs) => {
                    assert_eq!(fs.len(), 1);
                    assert_eq!(fs[0].0, "on");
                    assert!(matches!(fs[0].1, TreeValue::Bool(true)));
                },
                _ => panic!("expected an object state"),
            }
        },
        _ => panic!("expected a state write"),
    }
}

#[test]
fn unchanged_state_dispatches_nothing() {
    let actions = run("devices.hue.lamp1.state.on = false").unwrap();
    assert_eq!(actions.len(), 0);
}

#[test]
fn payload_join() {
    let actions = run("custom_action(\"ikea\", (\"a\", \"b\", \"c\"))").unwrap();
    assert_eq!(actions.len(), 1);
    match &actions[0] {
        Action::Custom(d) => {
            assert_eq!(d.integration_id, "ikea");
            assert_eq!(d.payload, "abc");
        },
        _ => panic!("expected a custom action"),
    }
}

#[test]
fn trigger_routine_queues_routine() {
    let actions = run("trigger_routine(\"morning\")").unwrap();
    assert_eq!(actions.len(), 1);
    match &actions[0] {
        Action::ForceTriggerRoutine(d) => {
            assert_eq!(d.routine_id, "morning");
        },
        _ => panic!("expected a routine trigger"),
    }
}

#[test]
fn silent_miss_for_unknown_device() {
    let actions = run("devices.ghost.lamp.scene = \"x\"").unwrap();
    assert_eq!(actions.len(), 0);
}

#[test]
fn group_scoping() {
    let actions = run("group_keys = (\"kitchen\", \"hall\"); activate_scene(\"relax\"); true")
        .unwrap();
    assert_eq!(actions.len(), 1);
    match &actions[0] {
        Action::ActivateScene(d) => {
            assert_eq!(d.scene_id, "relax");
            assert!(d.device_keys.is_none());
            assert_eq!(
                d.group_keys,
                Some(vec!["kitchen".to_string(), "hall".to_string()])
            );
        },
        _ => panic!("expected a scene activation"),
    }
}

#[test]
fn bad_group_keys_is_an_evaluation_error() {
    let r = run("group_keys = (1, 2); activate_scene(\"relax\"); true");
    assert_eq!(r.unwrap_err(), CoreError::Evaluation);
}

#[test]
fn builtin_with_wrong_argument_fails_evaluation() {
    let r = run("activate_scene(5)");
    assert_eq!(r.unwrap_err(), CoreError::Evaluation);
}

#[test]
fn explicit_actions_come_before_diff_actions() {
    let actions = run("devices.hue.lamp1.state.on = true; activate_scene(\"x\"); true")
        .unwrap();
    assert_eq!(actions.len(), 2);
    assert!(matches!(&actions[0], Action::ActivateScene(_)));
    assert!(matches!(&actions[1], Action::SetDeviceState(_)));
}

#[test]
fn retyping_an_existing_variable_fails_evaluation() {
    // The evaluator's context is type-safe: an integer cannot be
    // assigned over a boolean variable.
    let r = run("devices.hue.lamp1.state.on = 7");
    assert_eq!(r.unwrap_err(), CoreError::Evaluation);
}

#[test]
fn state_shape_mismatch_is_dropped_silently() {
    // Changing one key of a two-key state diffs a one-key object: the
    // validated apply rejects the partial replacement without an error.
    let node = evalexpr::build_operator_tree("devices.hue.lamp2.state.on = true").unwrap();
    let lamp2 = Device {
        key: "k-lamp2".to_string(),
        name: "lamp2".to_string(),
        integration_id: "hue".to_string(),
        scene: None,
        state: TreeValue::Object(vec![
            ("on".to_string(), TreeValue::Bool(false)),
            ("bri".to_string(), TreeValue::Int(5)),
        ]),
    };
    let actions = eval_action_expr(&node, &DevicesState(vec![lamp2]), &no_scenes(),
        &no_groups()).unwrap();
    assert_eq!(actions.len(), 0);
}

#[test]
fn scene_overrides_are_addressable() {
    // The scene id enters the path verbatim; only device names are
    // normalized.
    let node = evalexpr::build_operator_tree("scenes.Movie.hue.lamp1.on == false").unwrap();
    let scenes = FlattenedScenesConfig(vec![(
        "Movie".to_string(),
        FlattenedSceneConfig {
            devices: vec![(
                "k-lamp1".to_string(),
                TreeValue::Object(vec![("on".to_string(), TreeValue::Bool(false))]),
            )],
        },
    )]);
    let r = eval_action_expr(&node, &registry(), &scenes, &no_groups());
    assert!(r.is_ok());
}

#[test]
fn non_scalar_group_value_is_a_conversion_error() {
    let node = evalexpr::build_operator_tree("true").unwrap();
    let groups = FlattenedGroupsConfig(vec![(
        "groups.kitchen".to_string(),
        TreeValue::Object(vec![("power".to_string(), TreeValue::Bool(true))]),
    )]);
    let r = eval_action_expr(&node, &registry(), &no_scenes(), &groups);
    assert_eq!(r.unwrap_err(), CoreError::Conversion);
}

#[test]
fn group_values_are_addressable() {
    let node = evalexpr::build_operator_tree("groups.kitchen.power == true").unwrap();
    let groups = FlattenedGroupsConfig(vec![(
        "groups.kitchen.power".to_string(),
        TreeValue::Bool(true),
    )]);
    let r = eval_action_expr(&node, &registry(), &no_scenes(), &groups);
    assert!(r.is_ok());
}

#[test]
fn array_state_flattens_by_index() {
    let node = evalexpr::build_operator_tree("devices.hue.strip.state.colors.1 == 7").unwrap();
    let strip = Device {
        key: "k-strip".to_string(),
        name: "strip".to_string(),
        integration_id: "hue".to_string(),
        scene: None,
        state: TreeValue::Object(vec![(
            "colors".to_string(),
            TreeValue::Array(vec![TreeValue::Int(3), TreeValue::Int(7)]),
        )]),
    };
    let r = eval_action_expr(&node, &DevicesState(vec![strip]), &no_scenes(), &no_groups());
    assert!(r.is_ok());
}

#[test]
fn float_result_in_namespace_is_a_conversion_error() {
    let r = run("x = 1.5; true");
    assert_eq!(r.unwrap_err(), CoreError::Conversion);
}

#[test]
fn diagnostic_builtin_never_fails() {
    let actions = run("dbg(5); true").unwrap();
    assert_eq!(actions.len(), 0);
    let actions = run("dbg(); true").unwrap();
    assert_eq!(actions.len(), 0);
}

#[test]
fn debug_print_runs_on_a_built_namespace() {
    let ctx = homectl_core::builder::state_to_eval_context(&registry(), &no_scenes(),
        &no_groups()).unwrap();
    homectl_core::engine::debug_print_context(&ctx);
}
