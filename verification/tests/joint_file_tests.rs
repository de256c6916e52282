use rebotarm_control_rt::joint_file::{
    parse_arm_text, parse_yaml_id, yaml_scalar, yaml_value, ConfigError, IdError,
};

#[test]
fn scalars_drop_comments_and_quotes() {
    assert_eq!(yaml_scalar("  \"can0\"  # bus"), "can0");
    assert_eq!(yaml_scalar(" 'x' "), "x");
    assert_eq!(yaml_scalar(" \"x' "), "\"x'");
    assert_eq!(yaml_scalar("\""), "\"");
    assert_eq!(yaml_scalar("#only comment"), "");
    assert_eq!(yaml_value("  motor_id: 0x01 # first"), Some(("motor_id".to_string(), "0x01".to_string())));
    assert_eq!(yaml_value("a: b: c"), Some(("a".to_string(), "b: c".to_string())));
    assert_eq!(yaml_value("no colon here"), None);
}

#[test]
fn ids_in_hex_or_decimal() {
    assert_eq!(parse_yaml_id("0x11"), Ok(0x11));
    assert_eq!(parse_yaml_id(" 0XfF "), Ok(255));
    assert_eq!(parse_yaml_id("18"), Ok(18));
    assert_eq!(parse_yaml_id("65535"), Ok(65535));
    assert_eq!(parse_yaml_id("65536"), Err(IdError::Invalid));
    assert_eq!(parse_yaml_id("0x"), Err(IdError::Invalid));
    assert_eq!(parse_yaml_id("-1"), Err(IdError::Invalid));
    assert_eq!(parse_yaml_id("twelve"), Err(IdError::Invalid));
}

const ARM: &str = "# arm
channel: can0
urdf_path: \"urdf/arm.urdf\"  # model
joints:
  - name: shoulder
    motor_id: 0x01
    feedback_id: 0x11
    vendor: RobStride
    MIT:
      kp: 120.0
      kd: 8.0
    POS_VEL:
      vlim: 2.5
      kp: 99
  - name: elbow   # second
    motor_id: 2
    feedback_id: 18
    model: 4310

    kp: 5
";

#[test]
fn reads_channel_model_and_joints() {
    let f = parse_arm_text(ARM).expect("config");
    assert_eq!(f.channel, "can0");
    assert_eq!(f.urdf_path, Some("urdf/arm.urdf".to_string()));
    assert_eq!(f.joints.len(), 2);

    let a = &f.joints[0];
    assert_eq!(a.name, "shoulder");
    assert_eq!((a.motor_id, a.feedback_id), (1, 0x11));
    assert_eq!(a.model, "4340P");
    assert_eq!(a.vendor, "robstride");
    assert_eq!(a.gains.mit_kp, Some("120.0".to_string()));
    assert_eq!(a.gains.mit_kd, Some("8.0".to_string()));
    assert_eq!(a.gains.vlim, Some("2.5".to_string()));
    assert_eq!(a.gains.vel_kp, None);

    let b = &f.joints[1];
    assert_eq!(b.name, "elbow");
    assert_eq!((b.motor_id, b.feedback_id), (2, 18));
    assert_eq!(b.model, "4310");
    assert_eq!(b.vendor, "damiao");
    assert_eq!(b.gains.mit_kp, None);
}

#[test]
fn defaults_and_errors() {
    let f = parse_arm_text("joints:\n  - name: j\n    motor_id: 1\n    feedback_id: 2\n").expect("config");
    assert_eq!(f.channel, "/dev/ttyACM0");
    assert_eq!(f.urdf_path, None);
    assert_eq!(f.joints.len(), 1);

    assert_eq!(parse_arm_text("channel: can0\n").err(), Some(ConfigError::NoJoints));
    assert_eq!(
        parse_arm_text("joints:\n  - name: j\n    feedback_id: 2\n").err(),
        Some(ConfigError::MissingMotorId)
    );
    assert_eq!(
        parse_arm_text("joints:\n  - name: j\n    motor_id: 2\n").err(),
        Some(ConfigError::MissingFeedbackId)
    );
    assert_eq!(
        parse_arm_text("joints:\n    motor_id: 2\n    feedback_id: 3\n").err(),
        Some(ConfigError::MissingName)
    );
    assert_eq!(
        parse_arm_text("joints:\n  - name: j\n    motor_id: 0xZZ\n").err(),
        Some(ConfigError::BadId)
    );
}
