use rebotarm_control_rt::vendor::{
    can_timeout_write, controller_plan, gain_reads, gain_writes, mode_switch, robstride_pos_vel_writes,
    robstride_status, supports, to_damiao_mode, to_robstride_mode, tool_controller_plan, tool_mode,
    validate_myactuator_mode, vendor_from_name, ControlMode, ControllerError, DamiaoMode, Gain,
    GainsGiven, ModeError, ModeSwitch, MotorOp, RobstrideFaults, RobstrideMode, Slot, ToolModeError,
    ToolModeSwitch, Transport, Vendor,
};

/// RobStride's run-mode parameter.
const ROBSTRIDE_RUN_MODE: u16 = 0x7005;

fn given(vel_kp: f32, vel_ki: f32, pos_kp: f32, pos_ki: f32, vlim: f32) -> GainsGiven {
    GainsGiven {
        vel_kp: vel_kp > 0.0,
        vel_ki: vel_ki > 0.0,
        pos_kp: pos_kp > 0.0,
        pos_ki: pos_ki > 0.0,
        vlim: vlim > 0.0,
    }
}

fn param_ids(writes: &[(Gain, Slot)]) -> Vec<u16> {
    writes
        .iter()
        .map(|(_, s)| match s {
            Slot::Parameter(id) => *id,
            Slot::Register(r) => *r as u16,
        })
        .collect()
}

#[test]
fn mode_mapping() {
    assert!(matches!(to_damiao_mode(1), Ok(DamiaoMode::Mit)));
    assert!(matches!(to_damiao_mode(2), Ok(DamiaoMode::PosVel)));
    assert!(matches!(to_damiao_mode(3), Ok(DamiaoMode::Vel)));
    assert!(to_damiao_mode(9).is_err());
    assert!(validate_myactuator_mode(2).is_ok());
    assert!(validate_myactuator_mode(9).is_err());
    assert!(matches!(to_robstride_mode(5), Ok(RobstrideMode::PositionCsp)));
}

#[test]
fn robstride_pv_gains_map_to_parameter_table() {
    let writes = gain_writes(Vendor::Robstride, given(12.0, 0.1, 13.0, 0.0, 10.0));
    assert_eq!(param_ids(&writes), vec![0x7017, 0x701F, 0x7020, 0x701E]);
}

#[test]
fn robstride_pv_gains_skip_non_positive_values() {
    let writes = gain_writes(Vendor::Robstride, given(0.0, 0.0, 0.0, 0.0, 0.0));
    assert!(writes.is_empty());
}

#[test]
fn robstride_send_pos_vel_updates_runtime_targets_without_rewriting_mode() {
    let vlim: f32 = 2.5;
    let ids = robstride_pos_vel_writes(vlim.abs().is_finite() && vlim.abs() > 0.0);
    assert_eq!(ids, vec![0x7017, 0x7016]);
    assert!(!ids.contains(&ROBSTRIDE_RUN_MODE));
}

#[test]
fn robstride_helpers_reject_other_vendors() {
    assert!(!supports(Vendor::Damiao, MotorOp::RobstrideParameters));
    assert!(!supports(Vendor::MyActuator, MotorOp::RobstrideParameters));
    assert!(!supports(Vendor::Hightorque, MotorOp::RobstrideParameters));
    assert!(supports(Vendor::Robstride, MotorOp::RobstrideParameters));
}

#[test]
fn damiao_gains_use_registers_25_to_28() {
    let writes = gain_writes(Vendor::Damiao, given(1.0, 2.0, 0.0, 4.0, 9.0));
    assert_eq!(
        writes,
        vec![
            (Gain::VelKp, Slot::Register(25)),
            (Gain::VelKi, Slot::Register(26)),
            (Gain::PosKi, Slot::Register(28)),
        ]
    );
    assert!(gain_writes(Vendor::MyActuator, given(1.0, 1.0, 1.0, 1.0, 1.0)).is_empty());
}

#[test]
fn gain_reads_per_vendor() {
    assert_eq!(
        gain_reads(Vendor::Robstride),
        Some(vec![
            Some(Slot::Parameter(0x701F)),
            Some(Slot::Parameter(0x7020)),
            Some(Slot::Parameter(0x701E)),
            None,
        ])
    );
    assert_eq!(gain_reads(Vendor::Hightorque), None);
    assert_eq!(gain_reads(Vendor::Damiao).unwrap()[3], Some(Slot::Register(28)));
}

#[test]
fn mode_switch_per_vendor() {
    assert_eq!(mode_switch(Vendor::Damiao, 4), Ok(ModeSwitch::Damiao(DamiaoMode::ForcePos)));
    assert_eq!(mode_switch(Vendor::Robstride, 4), Err(ModeError::Robstride));
    assert_eq!(mode_switch(Vendor::MyActuator, 3), Ok(ModeSwitch::MyActuator));
    assert_eq!(mode_switch(Vendor::MyActuator, 0), Err(ModeError::MyActuator));
    assert_eq!(mode_switch(Vendor::Hightorque, 7), Ok(ModeSwitch::Hightorque(7)));
}

#[test]
fn controller_selection() {
    assert_eq!(
        controller_plan("/dev/ttyACM0", "damiao"),
        Ok((Vendor::Damiao, Transport::DamiaoSerial))
    );
    assert_eq!(controller_plan("can0", "damiao"), Ok((Vendor::Damiao, Transport::SocketCan)));
    assert_eq!(
        controller_plan("/dev/ttyUSB1", "robstride"),
        Err(ControllerError::SerialNeedsDamiao)
    );
    assert_eq!(
        controller_plan("/dev/ttyUSB1", "acme"),
        Err(ControllerError::SerialNeedsDamiao)
    );
    assert_eq!(controller_plan("can1", "acme"), Err(ControllerError::UnsupportedVendor));
    assert_eq!(
        controller_plan("can1", "hightorque"),
        Ok((Vendor::Hightorque, Transport::SocketCan))
    );
    assert_eq!(vendor_from_name("myactuator"), Some(Vendor::MyActuator));
    assert_eq!(vendor_from_name("Damiao"), None);
}

#[test]
fn tool_controller_selection() {
    assert_eq!(
        tool_controller_plan("COM3", "damiao"),
        Ok((Vendor::Damiao, Transport::DamiaoSerial))
    );
    assert_eq!(tool_controller_plan("/dev/ttyACM0", "robstride"), Err(ToolModeError::UnsupportedVendor));
    assert_eq!(
        tool_controller_plan("can0", "robstride"),
        Ok((Vendor::Robstride, Transport::SocketCan))
    );
    assert_eq!(
        tool_mode(Vendor::Robstride, ControlMode::PosVel),
        Ok(ToolModeSwitch::Robstride(RobstrideMode::Position))
    );
    assert_eq!(
        tool_mode(Vendor::Robstride, ControlMode::ForcePos),
        Err(ToolModeError::RobstrideForcePos)
    );
}

#[test]
fn can_timeout_register_values() {
    assert_eq!(can_timeout_write(Vendor::Damiao, 100), Some((Slot::Register(9), 2000)));
    assert_eq!(can_timeout_write(Vendor::Damiao, u32::MAX), Some((Slot::Register(9), u32::MAX)));
    assert_eq!(
        can_timeout_write(Vendor::Damiao, 214_748_365),
        Some((Slot::Register(9), u32::MAX))
    );
    assert_eq!(
        can_timeout_write(Vendor::Damiao, 214_748_364),
        Some((Slot::Register(9), 4_294_967_280))
    );
    assert_eq!(can_timeout_write(Vendor::Robstride, 0), Some((Slot::Parameter(0x7028), 0)));
    assert_eq!(can_timeout_write(Vendor::MyActuator, 5), None);
}

#[test]
fn robstride_status_packs_fault_bits() {
    let none = RobstrideFaults {
        uncalibrated: false,
        stall: false,
        magnetic_encoder_fault: false,
        overtemperature: false,
        overcurrent: false,
        undervoltage: false,
    };
    assert_eq!(robstride_status(none), 0);
    assert_eq!(robstride_status(RobstrideFaults { undervoltage: true, ..none }), 1);
    assert_eq!(robstride_status(RobstrideFaults { stall: true, overcurrent: true, ..none }), 18);
    assert_eq!(robstride_status(RobstrideFaults { uncalibrated: true, ..none }), 32);
    let all = RobstrideFaults {
        uncalibrated: true,
        stall: true,
        magnetic_encoder_fault: true,
        overtemperature: true,
        overcurrent: true,
        undervoltage: true,
    };
    assert_eq!(robstride_status(all), 63);
}

#[test]
fn written_gains_are_read_back_from_the_same_slot() {
    for vendor in [Vendor::Damiao, Vendor::Robstride] {
        let reads = gain_reads(vendor).expect("readable");
        for (gain, slot) in gain_writes(vendor, given(1.0, 1.0, 1.0, 1.0, 1.0)) {
            let index = match gain {
                Gain::VelKp => 0,
                Gain::VelKi => 1,
                Gain::PosKp => 2,
                Gain::PosKi => 3,
                Gain::Vlim => continue,
            };
            assert_eq!(reads[index], Some(slot));
        }
    }
}
