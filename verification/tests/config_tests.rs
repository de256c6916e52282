use rebotarm_control_rt::config::{
    arm_settings, as_int, as_str, get, get_in, gripper_settings, read_document, ConfigTextError,
    SettingsError, YamlNode,
};

fn doc(text: &str) -> YamlNode {
    match read_document(text) {
        Ok(n) => n,
        Err(_) => panic!("not a YAML document: {text}"),
    }
}

#[test]
fn hex_and_int_parsing() {
    let v = doc("0x11");
    assert_eq!(as_int(Some(&v)), Some(0x11));
    let v = doc("7");
    assert_eq!(as_int(Some(&v)), Some(7));
}

#[test]
fn int_from_strings_and_other_nodes() {
    assert_eq!(as_int(Some(&doc("\" 0X1f \""))), Some(31));
    assert_eq!(as_int(Some(&doc("\"-12\""))), Some(-12));
    assert_eq!(as_int(Some(&doc("\"12a\""))), None);
    assert_eq!(as_int(Some(&doc("3.9"))), Some(3));
    assert_eq!(as_int(Some(&doc("true"))), None);
    assert_eq!(as_int(None), None);
    assert_eq!(as_str(Some(&doc("abc"))), Some("abc".to_string()));
    assert_eq!(as_str(Some(&doc("42"))), Some("42".to_string()));
    assert_eq!(as_str(Some(&doc("~"))), None);
}

#[test]
fn lookup_by_key() {
    let d = doc("a: 1\nb:\n  c: x\n");
    assert_eq!(as_int(get(&d, "a")), Some(1));
    assert_eq!(as_str(get_in(get(&d, "b"), "c")), Some("x".to_string()));
    assert!(get(&d, "z").is_none());
    assert!(get_in(None, "c").is_none());
}

#[test]
fn malformed_text_is_reported() {
    assert!(matches!(read_document("a: [1, 2"), Err(ConfigTextError::Yaml(_))));
}

const ARM: &str = "name: testArm
channel: can0
rate: 250
joints:
  - name: j1
    motor_id: 0x01
    feedback_id: 0x11
    vendor: RobStride
    MIT:
      kp: 10
      kd: 1.5
    POS_VEL:
      vlim: 3
  - name: j2
    motor_id: \"0x02\"
    feedback_id: 18
    model: 4310
";

#[test]
fn arm_settings_with_defaults() {
    let d = doc(ARM);
    let s = match arm_settings(&d) {
        Ok(s) => s,
        Err(_) => panic!("settings"),
    };
    assert_eq!(s.name, "testArm");
    assert_eq!(s.channel, "can0");
    assert_eq!(as_int(s.rate), Some(250));
    assert_eq!(s.joints.len(), 2);
    let j1 = &s.joints[0];
    assert_eq!(j1.name, "j1");
    assert_eq!((j1.motor_id, j1.feedback_id), (1, 0x11));
    assert_eq!(j1.model, "4340P");
    assert_eq!(j1.vendor, "robstride");
    assert_eq!(as_int(j1.kp), Some(10));
    assert!(j1.kd.is_some());
    assert!(j1.vel_kp.is_none());
    assert_eq!(as_int(j1.vlim), Some(3));
    let j2 = &s.joints[1];
    assert_eq!((j2.motor_id, j2.feedback_id), (2, 18));
    assert_eq!(j2.model, "4310");
    assert_eq!(j2.vendor, "damiao");

    let empty = doc("{}");
    let s = match arm_settings(&empty) {
        Ok(s) => s,
        Err(_) => panic!("settings"),
    };
    assert_eq!(s.name, "reBotArm");
    assert_eq!(s.channel, "/dev/ttyACM0");
    assert!(s.rate.is_none());
    assert!(s.joints.is_empty());
}

#[test]
fn arm_settings_errors() {
    let d = doc("joints:\n  - motor_id: 1\n    feedback_id: 2\n");
    assert!(matches!(arm_settings(&d), Err(SettingsError::MissingName)));
    let d = doc("joints:\n  - name: j\n    motor_id: x\n    feedback_id: 2\n");
    match arm_settings(&d) {
        Err(SettingsError::BadMotorId(n)) => assert_eq!(n, "j"),
        _ => panic!("expected a bad motor id"),
    }
    let d = doc("joints:\n  - name: j\n    motor_id: 1\n");
    match arm_settings(&d) {
        Err(SettingsError::BadFeedbackId(n)) => assert_eq!(n, "j"),
        _ => panic!("expected a bad feedback id"),
    }
}

#[test]
fn ids_wrap_into_sixteen_bits() {
    let d = doc("joints:\n  - name: j\n    motor_id: 65537\n    feedback_id: -1\n");
    let s = match arm_settings(&d) {
        Ok(s) => s,
        Err(_) => panic!("settings"),
    };
    assert_eq!(s.joints[0].motor_id, 1);
    assert_eq!(s.joints[0].feedback_id, 0xFFFF);
}

#[test]
fn gripper_settings_first_item_or_mapping() {
    let d = doc("channel: can1\ngripper:\n  - name: g\n    motor_id: 7\n    feedback_id: 0x17\n  - name: h\n");
    let (channel, g) = match gripper_settings(&d) {
        Ok(x) => x,
        Err(_) => panic!("gripper"),
    };
    assert_eq!(channel, "can1");
    assert_eq!(g.name, "g");
    assert_eq!((g.motor_id, g.feedback_id), (7, 0x17));
    assert_eq!(g.model, "4310");
    assert_eq!(g.vendor, "damiao");

    let d = doc("gripper:\n  name: g2\n  motor_id: 3\n  feedback_id: 4\n");
    let (channel, g) = match gripper_settings(&d) {
        Ok(x) => x,
        Err(_) => panic!("gripper"),
    };
    assert_eq!(channel, "/dev/ttyACM0");
    assert_eq!(g.name, "g2");

    assert!(matches!(gripper_settings(&doc("a: 1")), Err(SettingsError::MissingGripper)));
    assert!(matches!(gripper_settings(&doc("gripper: []")), Err(SettingsError::MissingGripper)));
}
