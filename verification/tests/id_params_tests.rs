use rebotarm_control_rt::id_params::{unquote, yaml_bool, yaml_list_body, yaml_string, yaml_value};

const RESULT: &str = "# identification result
urdf: \"out/arm_identified.urdf\"
include_payload: True
fit_friction: no
payload_mass_only: 1
joint_names: ['a', 'b']
inline: [1.0, 2.5, -3]
multi: [1.0,
  2.0,
  3.0]
dashed:
  - 4
  - 5
next_key: 7
empty_list:
other: x
";

#[test]
fn values_and_strings() {
    assert_eq!(yaml_value(RESULT, "urdf"), Some("\"out/arm_identified.urdf\"".to_string()));
    assert_eq!(yaml_value(RESULT, "missing"), None);
    assert_eq!(yaml_value("  key:   v  ", "key"), Some("v".to_string()));
    assert_eq!(yaml_value("key_long: 1\nkey: 2", "key"), Some("2".to_string()));
    assert_eq!(yaml_string(RESULT, "urdf", "d.urdf"), "out/arm_identified.urdf");
    assert_eq!(yaml_string(RESULT, "nothing", "d.urdf"), "d.urdf");
    assert_eq!(unquote("  'x'  "), "x");
    assert_eq!(unquote("\"x'"), "\"x'");
    assert_eq!(unquote("\""), "\"");
}

#[test]
fn switches() {
    assert!(yaml_bool(RESULT, "include_payload", false));
    assert!(!yaml_bool(RESULT, "fit_friction", true));
    assert!(yaml_bool(RESULT, "payload_mass_only", false));
    assert!(yaml_bool(RESULT, "absent", true));
    assert!(yaml_bool("k: ON", "k", false));
    assert!(!yaml_bool("k: enabled", "k", true));
}

#[test]
fn list_bodies() {
    assert_eq!(yaml_list_body(RESULT, "inline"), "[1.0, 2.5, -3]");
    assert_eq!(yaml_list_body(RESULT, "multi"), "[1.0, 2.0, 3.0]");
    assert_eq!(yaml_list_body(RESULT, "dashed"), " 4 5");
    assert_eq!(yaml_list_body(RESULT, "empty_list"), "");
    assert_eq!(yaml_list_body(RESULT, "absent"), "");
}
