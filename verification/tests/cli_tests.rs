use rebotarm_control_rt::cli::{
    arg_value, arg_values, default_config_path, end_link_scale, EndLinkScale, default_urdf_path, has_flag, join_path_text,
    parse_bool_arg, parse_config_path, parse_joint, parse_port, parse_urdf_path, JointError,
    TemporaryUrdf, DEFAULT_CONFIG_REL, DEFAULT_PORT, DEFAULT_URDF_REL,
};

fn args(v: &[&str]) -> Vec<String> {
    v.iter().map(|s| s.to_string()).collect()
}

fn names() -> Vec<String> {
    args(&["shoulder", "upper", "elbow", "wrist_pitch", "wrist_yaw", "wrist_roll", "gripper"])
}

#[test]
fn arg_value_takes_next_argument_or_equals_form() {
    assert_eq!(arg_value(&args(&["--rate", "200"]), "--rate"), Some("200".to_string()));
    assert_eq!(arg_value(&args(&["--rate=150", "--rate", "9"]), "--rate"), Some("150".to_string()));
    assert_eq!(arg_value(&args(&["--rate"]), "--rate"), None);
    assert_eq!(arg_value(&args(&["--rates=3"]), "--rate"), None);
    assert_eq!(arg_value(&args(&["x", "--rate="]), "--rate"), Some(String::new()));
}

#[test]
fn arg_values_collects_every_occurrence() {
    let a = args(&["--joint", "1", "--joint=joint3", "--other", "--joint"]);
    assert_eq!(arg_values(&a, "--joint"), vec!["1".to_string(), "joint3".to_string()]);
    assert!(arg_values(&a, "--missing").is_empty());
}

#[test]
fn flags_and_switches() {
    let a = args(&["--dry-run", "--save", "yes", "--plot=off"]);
    assert!(has_flag(&a, "--dry-run"));
    assert!(!has_flag(&a, "--dry"));
    assert!(parse_bool_arg(&a, "--save", false));
    assert!(!parse_bool_arg(&a, "--plot", true));
    assert!(parse_bool_arg(&a, "--absent", true));
    for word in ["1", "true", "True", "yes", "on"] {
        assert!(parse_bool_arg(&args(&["--x", word]), "--x", false));
    }
    assert!(!parse_bool_arg(&args(&["--x", "TRUE"]), "--x", true));
}

#[test]
fn config_port_and_model_paths() {
    assert_eq!(parse_config_path(&args(&["-c", "a.yaml"])), Some("a.yaml".to_string()));
    assert_eq!(
        parse_config_path(&args(&["-c", "a.yaml", "--config=b.yaml"])),
        Some("b.yaml".to_string())
    );
    assert_eq!(parse_config_path(&args(&[])), None);

    assert_eq!(parse_port(&args(&["-p", "can0"]), Some("can9".to_string())), "can0");
    assert_eq!(parse_port(&args(&[]), Some("can9".to_string())), "can9");
    assert_eq!(parse_port(&args(&[]), None), DEFAULT_PORT);

    assert_eq!(join_path_text("/repo", "x/y"), "/repo/x/y");
    assert_eq!(join_path_text("/repo/", "x"), "/repo/x");
    assert_eq!(join_path_text("", "x"), "x");
    assert_eq!(default_config_path("/r"), format!("/r/{}", DEFAULT_CONFIG_REL));
    assert_eq!(default_urdf_path("/r"), format!("/r/{}", DEFAULT_URDF_REL));
    assert_eq!(parse_urdf_path(&args(&["--urdf", "m.urdf"]), "/r", None), "m.urdf");
    assert_eq!(parse_urdf_path(&args(&[]), "/r", Some("c.urdf".to_string())), "c.urdf");
    assert_eq!(parse_urdf_path(&args(&[]), "/r", None), format!("/r/{}", DEFAULT_URDF_REL));
}

#[test]
fn joint_selectors() {
    let n = names();
    assert_eq!(parse_joint("0", &n), Ok(0));
    assert_eq!(parse_joint("3", &n), Ok(3));
    assert_eq!(parse_joint("6", &n), Ok(6));
    assert_eq!(parse_joint("7", &n), Ok(6));
    assert_eq!(parse_joint("+2", &n), Ok(2));
    assert_eq!(parse_joint("joint3", &n), Ok(2));
    assert_eq!(parse_joint("joint7", &n), Ok(6));
    assert_eq!(parse_joint("jointx", &n), Err(JointError::BadJointNumber));
    assert_eq!(parse_joint("joint", &n), Err(JointError::BadJointNumber));
    assert_eq!(parse_joint("joint9", &n), Err(JointError::UnknownJoint));
    assert_eq!(parse_joint("elbow", &n), Ok(2));
    assert_eq!(parse_joint("gripper", &n), Ok(6));
    assert_eq!(parse_joint("8", &n), Err(JointError::UnknownJoint));
    assert_eq!(parse_joint("nothing", &n), Err(JointError::UnknownJoint));
}

#[test]
fn temporary_model_keeps_its_path() {
    let t = TemporaryUrdf::new("/tmp/model.urdf".to_string());
    assert_eq!(t.path(), "/tmp/model.urdf");
}

#[test]
fn end_link_load_scale_source() {
    assert_eq!(end_link_scale(&args(&["--end-link-load-scale", "0.5"]), false), EndLinkScale::Given);
    assert_eq!(end_link_scale(&args(&[]), true), EndLinkScale::GripperDefault);
    assert_eq!(end_link_scale(&args(&["--urdf", "m.urdf"]), true), EndLinkScale::GripperDefault);
    assert_eq!(end_link_scale(&args(&["-c", "arm.yaml"]), true), EndLinkScale::GripperDefault);
    assert_eq!(end_link_scale(&args(&["--urdf", "m.urdf"]), false), EndLinkScale::Zero);
}
