//! The vendor dispatch rules of the actuator layer: which controller a
//! channel and vendor call for, how the numeric control modes map onto each
//! vendor's modes, what each vendor supports, which registers or parameters
//! carry gains and timeouts, and how RobStride fault flags fold into a status
//! code.
use vstd::prelude::*;
use crate::text::{chars_of, starts_with, starts_with_chars, text_eq, to_ascii_lowercase, ascii_lower_text};

verus! {

/// A motor vendor.
#[derive(Debug, Clone, Copy, PartialEq, Eq, Structural)]
pub enum Vendor {
    Damiao,
    MyActuator,
    Robstride,
    Hightorque,
}

/// The vendor a configuration name stands for.
pub open spec fn vendor_of_name(name: Seq<char>) -> Option<Vendor> {
    if name == "damiao"@ {
        Some(Vendor::Damiao)
    } else if name == "myactuator"@ {
        Some(Vendor::MyActuator)
    } else if name == "robstride"@ {
        Some(Vendor::Robstride)
    } else if name == "hightorque"@ {
        Some(Vendor::Hightorque)
    } else {
        None
    }
}

/// The vendor a configuration name stands for (`damiao`, `myactuator`,
/// `robstride`, `hightorque`).
pub fn vendor_from_name(name: &str) -> (r: Option<Vendor>)
    ensures
        r == vendor_of_name(name@),
{
    if text_eq(name, "damiao") {
        Some(Vendor::Damiao)
    } else if text_eq(name, "myactuator") {
        Some(Vendor::MyActuator)
    } else if text_eq(name, "robstride") {
        Some(Vendor::Robstride)
    } else if text_eq(name, "hightorque") {
        Some(Vendor::Hightorque)
    } else {
        None
    }
}

/// The configuration name of a vendor.
pub open spec fn vendor_name(v: Vendor) -> Seq<char> {
    match v {
        Vendor::Damiao => "damiao"@,
        Vendor::MyActuator => "myactuator"@,
        Vendor::Robstride => "robstride"@,
        Vendor::Hightorque => "hightorque"@,
    }
}

/// A name stands for a vendor exactly when it is that vendor's name: each
/// vendor has one name, and no name stands for two vendors.
pub proof fn lemma_vendor_names(name: Seq<char>, v: Vendor)
    ensures
        vendor_of_name(name) == Some(v) <==> name == vendor_name(v),
{
    reveal_strlit("damiao");
    reveal_strlit("myactuator");
    reveal_strlit("robstride");
    reveal_strlit("hightorque");
    assert("damiao"@ != "myactuator"@) by {
        assert("damiao"@.len() != "myactuator"@.len());
    }
    assert("damiao"@ != "robstride"@) by {
        assert("damiao"@.len() != "robstride"@.len());
    }
    assert("damiao"@ != "hightorque"@) by {
        assert("damiao"@.len() != "hightorque"@.len());
    }
    assert("myactuator"@ != "robstride"@) by {
        assert("myactuator"@.len() != "robstride"@.len());
    }
    assert("myactuator"@ != "hightorque"@) by {
        assert("myactuator"@[0] != "hightorque"@[0]);
    }
    assert("robstride"@ != "hightorque"@) by {
        assert("robstride"@.len() != "hightorque"@.len());
    }
}

// ------------------------------------------------------------------
// Modes
// ------------------------------------------------------------------

/// Damiao control modes.
#[derive(Debug, Clone, Copy, PartialEq, Eq, Structural)]
pub enum DamiaoMode {
    Mit,
    PosVel,
    Vel,
    ForcePos,
}

/// RobStride control modes.
#[derive(Debug, Clone, Copy, PartialEq, Eq, Structural)]
pub enum RobstrideMode {
    Mit,
    Position,
    Velocity,
    PositionCsp,
}

/// A mode number a vendor does not have.
#[derive(Debug, Clone, Copy, PartialEq, Eq, Structural)]
pub enum ModeError {
    /// Damiao modes are 1 (MIT), 2 (POS_VEL), 3 (VEL), 4 (FORCE_POS).
    Damiao,
    /// RobStride modes are 1 (MIT), 2 (POSITION), 3 (VELOCITY), 5 (POSITION-CSP).
    Robstride,
    /// MyActuator modes are 1 (CURRENT), 2 (POSITION), 3 (VELOCITY).
    MyActuator,
}

/// The Damiao mode numbered `mode`.
pub open spec fn damiao_mode_of(mode: u32) -> Option<DamiaoMode> {
    if mode == 1 {
        Some(DamiaoMode::Mit)
    } else if mode == 2 {
        Some(DamiaoMode::PosVel)
    } else if mode == 3 {
        Some(DamiaoMode::Vel)
    } else if mode == 4 {
        Some(DamiaoMode::ForcePos)
    } else {
        None
    }
}

/// The RobStride mode numbered `mode`.
pub open spec fn robstride_mode_of(mode: u32) -> Option<RobstrideMode> {
    if mode == 1 {
        Some(RobstrideMode::Mit)
    } else if mode == 2 {
        Some(RobstrideMode::Position)
    } else if mode == 3 {
        Some(RobstrideMode::Velocity)
    } else if mode == 5 {
        Some(RobstrideMode::PositionCsp)
    } else {
        None
    }
}

/// Mode numbers 1 (MIT), 2 (POS_VEL), 3 (VEL), 4 (FORCE_POS) for Damiao.
pub fn to_damiao_mode(mode: u32) -> (r: Result<DamiaoMode, ModeError>)
    ensures
        match r {
            Ok(m) => damiao_mode_of(mode) == Some(m),
            Err(e) => damiao_mode_of(mode) is None && e == ModeError::Damiao,
        },
{
    match mode {
        1 => Ok(DamiaoMode::Mit),
        2 => Ok(DamiaoMode::PosVel),
        3 => Ok(DamiaoMode::Vel),
        4 => Ok(DamiaoMode::ForcePos),
        _ => Err(ModeError::Damiao),
    }
}

/// Mode numbers 1 (MIT), 2 (POSITION), 3 (VELOCITY), 5 (POSITION-CSP) for
/// RobStride.
pub fn to_robstride_mode(mode: u32) -> (r: Result<RobstrideMode, ModeError>)
    ensures
        match r {
            Ok(m) => robstride_mode_of(mode) == Some(m),
            Err(e) => robstride_mode_of(mode) is None && e == ModeError::Robstride,
        },
{
    match mode {
        1 => Ok(RobstrideMode::Mit),
        2 => Ok(RobstrideMode::Position),
        3 => Ok(RobstrideMode::Velocity),
        5 => Ok(RobstrideMode::PositionCsp),
        _ => Err(ModeError::Robstride),
    }
}

/// MyActuator takes modes 1 to 3 and needs no switch command.
pub fn validate_myactuator_mode(mode: u32) -> (r: Result<(), ModeError>)
    ensures
        r is Ok <==> 1 <= mode <= 3,
        r matches Err(e) ==> e == ModeError::MyActuator,
{
    if 1 <= mode && mode <= 3 {
        Ok(())
    } else {
        Err(ModeError::MyActuator)
    }
}

/// What switching a motor to a numbered mode sends.
#[derive(Debug, Clone, Copy, PartialEq, Eq, Structural)]
pub enum ModeSwitch {
    Damiao(DamiaoMode),
    /// MyActuator takes its mode from each command: nothing is sent.
    MyActuator,
    Robstride(RobstrideMode),
    /// HighTorque receives the number as it is.
    Hightorque(u32),
}

/// The mode switch a vendor's motor gets for mode number `mode`.
pub open spec fn mode_switch_of(vendor: Vendor, mode: u32) -> Result<ModeSwitch, ModeError> {
    match vendor {
        Vendor::Damiao => match damiao_mode_of(mode) {
            Some(m) => Ok(ModeSwitch::Damiao(m)),
            None => Err(ModeError::Damiao),
        },
        Vendor::MyActuator => if 1 <= mode <= 3 {
            Ok(ModeSwitch::MyActuator)
        } else {
            Err(ModeError::MyActuator)
        },
        Vendor::Robstride => match robstride_mode_of(mode) {
            Some(m) => Ok(ModeSwitch::Robstride(m)),
            None => Err(ModeError::Robstride),
        },
        Vendor::Hightorque => Ok(ModeSwitch::Hightorque(mode)),
    }
}

/// The mode switch a vendor's motor gets for mode number `mode`.
pub fn mode_switch(vendor: Vendor, mode: u32) -> (r: Result<ModeSwitch, ModeError>)
    ensures
        r == mode_switch_of(vendor, mode),
{
    match vendor {
        Vendor::Damiao => match to_damiao_mode(mode) {
            Ok(m) => Ok(ModeSwitch::Damiao(m)),
            Err(e) => Err(e),
        },
        Vendor::MyActuator => match validate_myactuator_mode(mode) {
            Ok(()) => Ok(ModeSwitch::MyActuator),
            Err(e) => Err(e),
        },
        Vendor::Robstride => match to_robstride_mode(mode) {
            Ok(m) => Ok(ModeSwitch::Robstride(m)),
            Err(e) => Err(e),
        },
        Vendor::Hightorque => Ok(ModeSwitch::Hightorque(mode)),
    }
}

/// Whether a motor must be enabled again after a mode switch before it takes
/// commands: RobStride's mode switch turns torque off.
pub fn enable_after_mode_switch(vendor: Vendor) -> (r: bool)
    ensures
        r == (vendor == Vendor::Robstride),
{
    match vendor {
        Vendor::Robstride => true,
        _ => false,
    }
}

/// The control modes of the arm tools.
#[derive(Debug, Clone, Copy, PartialEq, Eq, Structural)]
pub enum ControlMode {
    Mit,
    PosVel,
    Vel,
    ForcePos,
}

/// What a tool-level mode is on each vendor the tools drive.
#[derive(Debug, Clone, Copy, PartialEq, Eq, Structural)]
pub enum ToolModeSwitch {
    Damiao(DamiaoMode),
    Robstride(RobstrideMode),
}

/// Why a tool-level mode cannot be used.
#[derive(Debug, Clone, Copy, PartialEq, Eq, Structural)]
pub enum ToolModeError {
    /// RobStride has no force-limited position mode.
    RobstrideForcePos,
    /// The tools drive Damiao and RobStride motors only.
    UnsupportedVendor,
}

/// A tool-level mode on a vendor's motor.
pub open spec fn tool_mode_of(vendor: Vendor, mode: ControlMode) -> Result<ToolModeSwitch, ToolModeError> {
    match vendor {
        Vendor::Damiao => Ok(
            ToolModeSwitch::Damiao(
                match mode {
                    ControlMode::Mit => DamiaoMode::Mit,
                    ControlMode::PosVel => DamiaoMode::PosVel,
                    ControlMode::Vel => DamiaoMode::Vel,
                    ControlMode::ForcePos => DamiaoMode::ForcePos,
                },
            ),
        ),
        Vendor::Robstride => match mode {
            ControlMode::Mit => Ok(ToolModeSwitch::Robstride(RobstrideMode::Mit)),
            ControlMode::PosVel => Ok(ToolModeSwitch::Robstride(RobstrideMode::Position)),
            ControlMode::Vel => Ok(ToolModeSwitch::Robstride(RobstrideMode::Velocity)),
            ControlMode::ForcePos => Err(ToolModeError::RobstrideForcePos),
        },
        _ => Err(ToolModeError::UnsupportedVendor),
    }
}

/// A tool-level mode on a vendor's motor.
pub fn tool_mode(vendor: Vendor, mode: ControlMode) -> (r: Result<ToolModeSwitch, ToolModeError>)
    ensures
        r == tool_mode_of(vendor, mode),
{
    match vendor {
        Vendor::Damiao => Ok(
            ToolModeSwitch::Damiao(
                match mode {
                    ControlMode::Mit => DamiaoMode::Mit,
                    ControlMode::PosVel => DamiaoMode::PosVel,
                    ControlMode::Vel => DamiaoMode::Vel,
                    ControlMode::ForcePos => DamiaoMode::ForcePos,
                },
            ),
        ),
        Vendor::Robstride => match mode {
            ControlMode::Mit => Ok(ToolModeSwitch::Robstride(RobstrideMode::Mit)),
            ControlMode::PosVel => Ok(ToolModeSwitch::Robstride(RobstrideMode::Position)),
            ControlMode::Vel => Ok(ToolModeSwitch::Robstride(RobstrideMode::Velocity)),
            ControlMode::ForcePos => Err(ToolModeError::RobstrideForcePos),
        },
        _ => Err(ToolModeError::UnsupportedVendor),
    }
}

/// The mode numbers of each vendor: Damiao 1 MIT, 2 POS_VEL, 3 VEL,
/// 4 FORCE_POS; RobStride 1 MIT, 2 POSITION, 3 VELOCITY, 5 POSITION-CSP.
/// Each number names one mode, each mode has one number, and no other
/// number is a mode.
pub proof fn lemma_mode_numbers(n: u32)
    ensures
        damiao_mode_of(n) == Some(DamiaoMode::Mit) <==> n == 1,
        damiao_mode_of(n) == Some(DamiaoMode::PosVel) <==> n == 2,
        damiao_mode_of(n) == Some(DamiaoMode::Vel) <==> n == 3,
        damiao_mode_of(n) == Some(DamiaoMode::ForcePos) <==> n == 4,
        damiao_mode_of(n) is Some <==> 1 <= n <= 4,
        robstride_mode_of(n) == Some(RobstrideMode::Mit) <==> n == 1,
        robstride_mode_of(n) == Some(RobstrideMode::Position) <==> n == 2,
        robstride_mode_of(n) == Some(RobstrideMode::Velocity) <==> n == 3,
        robstride_mode_of(n) == Some(RobstrideMode::PositionCsp) <==> n == 5,
        robstride_mode_of(n) is Some <==> (1 <= n <= 3 || n == 5),
{
}

/// The mode number of a tool-level mode: 1 MIT, 2 POS_VEL, 3 VEL,
/// 4 FORCE_POS.
pub open spec fn control_mode_number(m: ControlMode) -> u32 {
    match m {
        ControlMode::Mit => 1,
        ControlMode::PosVel => 2,
        ControlMode::Vel => 3,
        ControlMode::ForcePos => 4,
    }
}

/// Switching a motor by a mode's number and switching it by the mode's name
/// select the same vendor mode; on a vendor where the named mode is refused
/// the number is refused as well or names another mode than the tools use.
pub proof fn lemma_numbered_and_named_modes_agree(m: ControlMode)
    ensures
        tool_mode_of(Vendor::Damiao, m) matches Ok(ToolModeSwitch::Damiao(d)) && mode_switch_of(
            Vendor::Damiao,
            control_mode_number(m),
        ) == Ok::<ModeSwitch, ModeError>(ModeSwitch::Damiao(d)),
        tool_mode_of(Vendor::Robstride, m) matches Ok(ToolModeSwitch::Robstride(r))
            ==> mode_switch_of(Vendor::Robstride, control_mode_number(m)) == Ok::<
            ModeSwitch,
            ModeError,
        >(ModeSwitch::Robstride(r)),
        m != ControlMode::ForcePos ==> tool_mode_of(Vendor::Robstride, m) is Ok,
{
}

// ------------------------------------------------------------------
// Controllers
// ------------------------------------------------------------------

/// How a controller reaches its motors.
#[derive(Debug, Clone, Copy, PartialEq, Eq, Structural)]
pub enum Transport {
    /// Damiao's USB serial bridge at 921600 baud.
    DamiaoSerial,
    /// A SocketCAN interface.
    SocketCan,
}

/// Why no controller can be opened.
#[derive(Debug, Clone, Copy, PartialEq, Eq, Structural)]
pub enum ControllerError {
    /// A serial bridge only carries Damiao motors.
    SerialNeedsDamiao,
    /// The vendor is not one of the four known ones.
    UnsupportedVendor,
}

/// The channel is a serial device.
pub open spec fn is_serial_channel(channel: Seq<char>) -> bool {
    starts_with(channel, "/dev/tty"@)
}

/// The controller a channel and a vendor name call for: a `/dev/tty*`
/// channel is Damiao's serial bridge (Damiao only), any other a SocketCAN
/// interface.
pub open spec fn controller_plan_of(channel: Seq<char>, vendor: Seq<char>) -> Result<
    (Vendor, Transport),
    ControllerError,
> {
    let serial = is_serial_channel(channel);
    if vendor == "damiao"@ {
        Ok((Vendor::Damiao, if serial { Transport::DamiaoSerial } else { Transport::SocketCan }))
    } else if serial {
        Err(ControllerError::SerialNeedsDamiao)
    } else {
        match vendor_of_name(vendor) {
            Some(v) => Ok((v, Transport::SocketCan)),
            None => Err(ControllerError::UnsupportedVendor),
        }
    }
}

/// The controller a channel and a vendor name call for.
pub fn controller_plan(channel: &str, vendor: &str) -> (r: Result<(Vendor, Transport), ControllerError>)
    ensures
        r == controller_plan_of(channel@, vendor@),
{
    let serial = starts_with_chars(&chars_of(channel), &chars_of("/dev/tty"));
    if text_eq(vendor, "damiao") {
        Ok((Vendor::Damiao, if serial { Transport::DamiaoSerial } else { Transport::SocketCan }))
    } else if serial {
        Err(ControllerError::SerialNeedsDamiao)
    } else {
        match vendor_from_name(vendor) {
            Some(v) => Ok((v, Transport::SocketCan)),
            None => Err(ControllerError::UnsupportedVendor),
        }
    }
}

/// The port is a serial device for the arm tools: under `/dev/`, or a `COM`
/// port in any ASCII case.
pub open spec fn is_tool_serial_port(port: Seq<char>) -> bool {
    starts_with(port, "/dev/"@) || starts_with(ascii_lower_text(port), "com"@)
}

/// Whether the arm tools treat `port` as a serial device.
pub fn tool_serial_port(port: &str) -> (r: bool)
    ensures
        r == is_tool_serial_port(port@),
{
    let lower = to_ascii_lowercase(port);
    starts_with_chars(&chars_of(port), &chars_of("/dev/")) || starts_with_chars(
        &lower,
        &chars_of("com"),
    )
}

/// The controller the arm tools open for a port and a vendor: Damiao over a
/// serial port or CAN, RobStride over CAN only.
pub open spec fn tool_controller_plan_of(port: Seq<char>, vendor: Seq<char>) -> Result<
    (Vendor, Transport),
    ToolModeError,
> {
    if vendor == "damiao"@ {
        Ok(
            (
                Vendor::Damiao,
                if is_tool_serial_port(port) {
                    Transport::DamiaoSerial
                } else {
                    Transport::SocketCan
                },
            ),
        )
    } else if vendor == "robstride"@ {
        if is_tool_serial_port(port) {
            Err(ToolModeError::UnsupportedVendor)
        } else {
            Ok((Vendor::Robstride, Transport::SocketCan))
        }
    } else {
        Err(ToolModeError::UnsupportedVendor)
    }
}

/// The controller the arm tools open for a port and a vendor; a RobStride
/// vendor on a serial port and any vendor other than Damiao and RobStride
/// are refused.
pub fn tool_controller_plan(port: &str, vendor: &str) -> (r: Result<(Vendor, Transport), ToolModeError>)
    ensures
        r == tool_controller_plan_of(port@, vendor@),
{
    let serial = tool_serial_port(port);
    if text_eq(vendor, "damiao") {
        Ok((Vendor::Damiao, if serial { Transport::DamiaoSerial } else { Transport::SocketCan }))
    } else if text_eq(vendor, "robstride") {
        if serial {
            Err(ToolModeError::UnsupportedVendor)
        } else {
            Ok((Vendor::Robstride, Transport::SocketCan))
        }
    } else {
        Err(ToolModeError::UnsupportedVendor)
    }
}

/// A vendor name opens a controller for the vendor it names, whichever of
/// the two plans opens it: the arm's (any vendor over CAN, Damiao over its
/// serial bridge) and the tools' (Damiao and RobStride); and on a CAN
/// channel every known vendor gets its controller.
pub proof fn lemma_plans_open_the_named_vendor(channel: Seq<char>, port: Seq<char>, name: Seq<char>)
    ensures
        controller_plan_of(channel, name) matches Ok((v, _)) ==> vendor_of_name(name) == Some(v),
        tool_controller_plan_of(port, name) matches Ok((v, _)) ==> vendor_of_name(name) == Some(
            v,
        ),
        !is_serial_channel(channel) ==> (vendor_of_name(name) matches Some(v)
            ==> controller_plan_of(channel, name) == Ok::<(Vendor, Transport), ControllerError>(
            (v, Transport::SocketCan),
        )),
        !is_tool_serial_port(port) && (name == "damiao"@ || name == "robstride"@)
            ==> tool_controller_plan_of(port, name) is Ok,
{
    lemma_vendor_names(name, Vendor::Damiao);
    lemma_vendor_names(name, Vendor::Robstride);
}

// ------------------------------------------------------------------
// What each vendor supports
// ------------------------------------------------------------------

/// A per-motor operation that not every vendor has.
#[derive(Debug, Clone, Copy, PartialEq, Eq, Structural)]
pub enum MotorOp {
    SetZero,
    SendMit,
    SendForcePos,
    RegisterAccess,
    ReadPosVelGains,
    ClearError,
    SetCanTimeout,
    RobstrideParameters,
}

/// Whether a vendor's motors have an operation.
pub open spec fn supports_of(vendor: Vendor, op: MotorOp) -> bool {
    match op {
        MotorOp::SetZero => vendor != Vendor::MyActuator,
        MotorOp::SendMit => vendor != Vendor::MyActuator,
        MotorOp::SendForcePos => vendor == Vendor::Damiao || vendor == Vendor::Hightorque,
        MotorOp::RegisterAccess => vendor == Vendor::Damiao,
        MotorOp::ReadPosVelGains => vendor == Vendor::Damiao || vendor == Vendor::Robstride,
        MotorOp::ClearError => vendor != Vendor::MyActuator,
        MotorOp::SetCanTimeout => vendor == Vendor::Damiao || vendor == Vendor::Robstride,
        MotorOp::RobstrideParameters => vendor == Vendor::Robstride,
    }
}

/// Whether a vendor's motors have an operation: MyActuator has no zeroing,
/// MIT command or error clearing; force-limited position is Damiao and
/// HighTorque only; registers are Damiao only; gain reads and the CAN
/// watchdog are Damiao and RobStride only; RobStride parameters are RobStride
/// only.
pub fn supports(vendor: Vendor, op: MotorOp) -> (r: bool)
    ensures
        r == supports_of(vendor, op),
{
    match op {
        MotorOp::SetZero => vendor != Vendor::MyActuator,
        MotorOp::SendMit => vendor != Vendor::MyActuator,
        MotorOp::SendForcePos => vendor == Vendor::Damiao || vendor == Vendor::Hightorque,
        MotorOp::RegisterAccess => vendor == Vendor::Damiao,
        MotorOp::ReadPosVelGains => vendor == Vendor::Damiao || vendor == Vendor::Robstride,
        MotorOp::ClearError => vendor != Vendor::MyActuator,
        MotorOp::SetCanTimeout => vendor == Vendor::Damiao || vendor == Vendor::Robstride,
        MotorOp::RobstrideParameters => vendor == Vendor::Robstride,
    }
}

// ------------------------------------------------------------------
// Registers and parameters
// ------------------------------------------------------------------

/// Where a value is written on a motor.
#[derive(Debug, Clone, Copy, PartialEq, Eq, Structural)]
pub enum Slot {
    /// A Damiao register.
    Register(u8),
    /// A RobStride parameter.
    Parameter(u16),
}

/// The CAN watchdog setting of a motor: where it goes and what is written.
pub open spec fn can_timeout_write_of(vendor: Vendor, timeout_ms: u32) -> Option<(Slot, u32)> {
    match vendor {
        Vendor::Damiao => Some(
            (Slot::Register(9), if timeout_ms * 20 <= u32::MAX {
                (timeout_ms * 20) as u32
            } else {
                u32::MAX
            }),
        ),
        Vendor::Robstride => Some((Slot::Parameter(0x7028), timeout_ms)),
        _ => None,
    }
}

/// The CAN watchdog (stop when no frame came for `timeout_ms`; 0 turns it
/// off): Damiao register 9 in units of 50 µs (saturating), RobStride
/// parameter 0x7028 in ms; other vendors have none.
pub fn can_timeout_write(vendor: Vendor, timeout_ms: u32) -> (r: Option<(Slot, u32)>)
    ensures
        r == can_timeout_write_of(vendor, timeout_ms),
{
    match vendor {
        Vendor::Damiao => {
            let v = if timeout_ms > 214_748_364 {
                u32::MAX
            } else {
                timeout_ms * 20
            };
            Some((Slot::Register(9), v))
        },
        Vendor::Robstride => Some((Slot::Parameter(0x7028), timeout_ms)),
        _ => None,
    }
}

/// A POS_VEL gain.
#[derive(Debug, Clone, Copy, PartialEq, Eq, Structural)]
pub enum Gain {
    VelKp,
    VelKi,
    PosKp,
    PosKi,
    Vlim,
}

/// Which of the POS_VEL gains are to be written (only positive ones are).
#[derive(Debug, Clone, Copy, PartialEq, Eq, Structural)]
pub struct GainsGiven {
    pub vel_kp: bool,
    pub vel_ki: bool,
    pub pos_kp: bool,
    pub pos_ki: bool,
    pub vlim: bool,
}

/// The writes, in order, that put the given POS_VEL gains on a motor:
/// Damiao registers 25..28 for the speed and position loop gains; RobStride
/// parameters 0x7017 (speed limit), 0x701F, 0x7020 and 0x701E (it has no
/// position integral gain); nothing for other vendors.
pub open spec fn gain_writes_of(vendor: Vendor, given: GainsGiven) -> Seq<(Gain, Slot)> {
    let opt = |b: bool, g: Gain, s: Slot| if b { seq![(g, s)] } else { Seq::<(Gain, Slot)>::empty() };
    match vendor {
        Vendor::Damiao => opt(given.vel_kp, Gain::VelKp, Slot::Register(25)) + opt(
            given.vel_ki,
            Gain::VelKi,
            Slot::Register(26),
        ) + opt(given.pos_kp, Gain::PosKp, Slot::Register(27)) + opt(
            given.pos_ki,
            Gain::PosKi,
            Slot::Register(28),
        ),
        Vendor::Robstride => opt(given.vlim, Gain::Vlim, Slot::Parameter(0x7017)) + opt(
            given.vel_kp,
            Gain::VelKp,
            Slot::Parameter(0x701F),
        ) + opt(given.vel_ki, Gain::VelKi, Slot::Parameter(0x7020)) + opt(
            given.pos_kp,
            Gain::PosKp,
            Slot::Parameter(0x701E),
        ),
        _ => Seq::empty(),
    }
}

fn push_if(v: &mut Vec<(Gain, Slot)>, b: bool, g: Gain, s: Slot)
    ensures
        final(v)@ == old(v)@ + if b {
            seq![(g, s)]
        } else {
            Seq::<(Gain, Slot)>::empty()
        },
{
    if b {
        v.push((g, s));
        assert(final(v)@ =~= old(v)@ + seq![(g, s)]);
    } else {
        assert(old(v)@ + Seq::<(Gain, Slot)>::empty() =~= old(v)@);
    }
}

/// The writes, in order, that put the given POS_VEL gains on a motor.
pub fn gain_writes(vendor: Vendor, given: GainsGiven) -> (r: Vec<(Gain, Slot)>)
    ensures
        r@ == gain_writes_of(vendor, given),
{
    let mut v: Vec<(Gain, Slot)> = Vec::new();
    match vendor {
        Vendor::Damiao => {
            push_if(&mut v, given.vel_kp, Gain::VelKp, Slot::Register(25));
            push_if(&mut v, given.vel_ki, Gain::VelKi, Slot::Register(26));
            push_if(&mut v, given.pos_kp, Gain::PosKp, Slot::Register(27));
            push_if(&mut v, given.pos_ki, Gain::PosKi, Slot::Register(28));
        },
        Vendor::Robstride => {
            push_if(&mut v, given.vlim, Gain::Vlim, Slot::Parameter(0x7017));
            push_if(&mut v, given.vel_kp, Gain::VelKp, Slot::Parameter(0x701F));
            push_if(&mut v, given.vel_ki, Gain::VelKi, Slot::Parameter(0x7020));
            push_if(&mut v, given.pos_kp, Gain::PosKp, Slot::Parameter(0x701E));
        },
        _ => {},
    }
    assert(v@ =~= gain_writes_of(vendor, given));
    v
}

/// Where the POS_VEL gains (speed kp, speed ki, position kp, position ki) are
/// read on a motor; `None` for a gain the vendor does not have (read as 0).
pub open spec fn gain_reads_of(vendor: Vendor) -> Option<Seq<Option<Slot>>> {
    match vendor {
        Vendor::Damiao => Some(
            seq![
                Some(Slot::Register(25)),
                Some(Slot::Register(26)),
                Some(Slot::Register(27)),
                Some(Slot::Register(28)),
            ],
        ),
        Vendor::Robstride => Some(
            seq![
                Some(Slot::Parameter(0x701F)),
                Some(Slot::Parameter(0x7020)),
                Some(Slot::Parameter(0x701E)),
                None,
            ],
        ),
        _ => None,
    }
}

/// Where the POS_VEL gains are read on a motor.
pub fn gain_reads(vendor: Vendor) -> (r: Option<Vec<Option<Slot>>>)
    ensures
        match r {
            Some(v) => gain_reads_of(vendor) == Some(v@),
            None => gain_reads_of(vendor) is None,
        },
{
    match vendor {
        Vendor::Damiao => {
            let v = vec![
                Some(Slot::Register(25)),
                Some(Slot::Register(26)),
                Some(Slot::Register(27)),
                Some(Slot::Register(28)),
            ];
            assert(v@ =~= gain_reads_of(vendor)->0);
            Some(v)
        },
        Vendor::Robstride => {
            let v = vec![
                Some(Slot::Parameter(0x701F)),
                Some(Slot::Parameter(0x7020)),
                Some(Slot::Parameter(0x701E)),
                None,
            ];
            assert(v@ =~= gain_reads_of(vendor)->0);
            Some(v)
        },
        _ => None,
    }
}

/// The position of a loop gain in the read-back order (speed kp, speed ki,
/// position kp, position ki); the speed limit has none.
pub open spec fn read_index(g: Gain) -> Option<int> {
    match g {
        Gain::VelKp => Some(0),
        Gain::VelKi => Some(1),
        Gain::PosKp => Some(2),
        Gain::PosKi => Some(3),
        Gain::Vlim => None,
    }
}

/// A loop gain written to a motor is read back from the very slot it was
/// written to.
pub proof fn lemma_gains_read_back(vendor: Vendor, given: GainsGiven)
    ensures
        forall|k: int|
            0 <= k < gain_writes_of(vendor, given).len() ==> {
                let (g, s) = #[trigger] gain_writes_of(vendor, given)[k];
                read_index(g) matches Some(j) ==> gain_reads_of(vendor) matches Some(rs) && rs[j]
                    == Some(s)
            },
{
    let w = gain_writes_of(vendor, given);
    assert forall|k: int| 0 <= k < w.len() implies {
        let (g, s) = #[trigger] w[k];
        read_index(g) matches Some(j) ==> gain_reads_of(vendor) matches Some(rs) && rs[j] == Some(s)
    } by {
        let opt = |b: bool, g: Gain, s: Slot| if b { seq![(g, s)] } else { Seq::<(Gain, Slot)>::empty() };
        match vendor {
            Vendor::Damiao => {
                let a = opt(given.vel_kp, Gain::VelKp, Slot::Register(25));
                let b = opt(given.vel_ki, Gain::VelKi, Slot::Register(26));
                let c = opt(given.pos_kp, Gain::PosKp, Slot::Register(27));
                let d = opt(given.pos_ki, Gain::PosKi, Slot::Register(28));
                assert(w == a + b + c + d);
            },
            Vendor::Robstride => {
                let a = opt(given.vlim, Gain::Vlim, Slot::Parameter(0x7017));
                let b = opt(given.vel_kp, Gain::VelKp, Slot::Parameter(0x701F));
                let c = opt(given.vel_ki, Gain::VelKi, Slot::Parameter(0x7020));
                let d = opt(given.pos_kp, Gain::PosKp, Slot::Parameter(0x701E));
                assert(w == a + b + c + d);
            },
            _ => {},
        }
    }
}

/// Whether a gain is among the given ones.
pub open spec fn is_given(given: GainsGiven, g: Gain) -> bool {
    match g {
        Gain::VelKp => given.vel_kp,
        Gain::VelKi => given.vel_ki,
        Gain::PosKp => given.pos_kp,
        Gain::PosKi => given.pos_ki,
        Gain::Vlim => given.vlim,
    }
}

/// The slot a loop gain is read back from on a vendor's motor, if any.
pub open spec fn read_slot(vendor: Vendor, g: Gain) -> Option<Slot> {
    match (gain_reads_of(vendor), read_index(g)) {
        (Some(rs), Some(j)) => rs[j],
        _ => None,
    }
}

/// Every given loop gain that a vendor's motor has is written, to the slot
/// it is read back from, and a RobStride motor's given speed limit to the
/// speed-limit parameter.
pub proof fn lemma_given_gains_written(vendor: Vendor, given: GainsGiven, g: Gain)
    ensures
        is_given(given, g) ==> (read_slot(vendor, g) matches Some(s) ==> gain_writes_of(
            vendor,
            given,
        ).contains((g, s))),
        vendor == Vendor::Robstride && given.vlim ==> gain_writes_of(vendor, given).contains(
            (Gain::Vlim, Slot::Parameter(ROBSTRIDE_VELOCITY_LIMIT)),
        ),
{
    let w = gain_writes_of(vendor, given);
    let opt = |b: bool, g: Gain, s: Slot| if b { seq![(g, s)] } else { Seq::<(Gain, Slot)>::empty() };
    match vendor {
        Vendor::Damiao => {
            let a = opt(given.vel_kp, Gain::VelKp, Slot::Register(25));
            let b = opt(given.vel_ki, Gain::VelKi, Slot::Register(26));
            let c = opt(given.pos_kp, Gain::PosKp, Slot::Register(27));
            let d = opt(given.pos_ki, Gain::PosKi, Slot::Register(28));
            assert(w == a + b + c + d);
            if is_given(given, g) && read_slot(vendor, g) is Some {
                let s = read_slot(vendor, g)->0;
                let k = match g {
                    Gain::VelKp => 0,
                    Gain::VelKi => a.len() as int,
                    Gain::PosKp => (a.len() + b.len()) as int,
                    _ => (a.len() + b.len() + c.len()) as int,
                };
                assert(w[k] == (g, s));
            }
        },
        Vendor::Robstride => {
            let a = opt(given.vlim, Gain::Vlim, Slot::Parameter(0x7017));
            let b = opt(given.vel_kp, Gain::VelKp, Slot::Parameter(0x701F));
            let c = opt(given.vel_ki, Gain::VelKi, Slot::Parameter(0x7020));
            let d = opt(given.pos_kp, Gain::PosKp, Slot::Parameter(0x701E));
            assert(w == a + b + c + d);
            if given.vlim {
                assert(w[0] == (Gain::Vlim, Slot::Parameter(ROBSTRIDE_VELOCITY_LIMIT)));
            }
            if is_given(given, g) && read_slot(vendor, g) is Some {
                let s = read_slot(vendor, g)->0;
                let k = match g {
                    Gain::VelKp => a.len() as int,
                    Gain::VelKi => (a.len() + b.len()) as int,
                    _ => (a.len() + b.len() + c.len()) as int,
                };
                assert(w[k] == (g, s));
            }
        },
        _ => {},
    }
}

/// Where each loop gain lives: Damiao registers 25 (speed kp), 26 (speed
/// ki), 27 (position kp), 28 (position ki); RobStride parameters 0x701F,
/// 0x7020, 0x701E, and no position ki; no gains on other vendors.
pub proof fn lemma_gain_slots(vendor: Vendor, g: Gain)
    ensures
        vendor == Vendor::Damiao ==> read_slot(vendor, g) == match g {
            Gain::VelKp => Some(Slot::Register(25)),
            Gain::VelKi => Some(Slot::Register(26)),
            Gain::PosKp => Some(Slot::Register(27)),
            Gain::PosKi => Some(Slot::Register(28)),
            Gain::Vlim => None::<Slot>,
        },
        vendor == Vendor::Robstride ==> read_slot(vendor, g) == match g {
            Gain::VelKp => Some(Slot::Parameter(0x701F)),
            Gain::VelKi => Some(Slot::Parameter(0x7020)),
            Gain::PosKp => Some(Slot::Parameter(0x701E)),
            _ => None::<Slot>,
        },
        vendor != Vendor::Damiao && vendor != Vendor::Robstride ==> read_slot(vendor, g) is None
            && forall|given: GainsGiven| #[trigger] gain_writes_of(vendor, given).len() == 0,
{
}

/// The order gains are written in: the speed limit, then speed kp, speed ki,
/// position kp, position ki.
pub open spec fn write_rank(g: Gain) -> int {
    match g {
        Gain::Vlim => 0,
        Gain::VelKp => 1,
        Gain::VelKi => 2,
        Gain::PosKp => 3,
        Gain::PosKi => 4,
    }
}

/// Each write is of a given gain, and the writes go in write order.
pub open spec fn writes_given_in_order(w: Seq<(Gain, Slot)>, given: GainsGiven) -> bool {
    &&& forall|k: int| 0 <= k < w.len() ==> is_given(given, (#[trigger] w[k]).0)
    &&& forall|i: int, k: int|
        0 <= i < k < w.len() ==> write_rank((#[trigger] w[i]).0) < write_rank((#[trigger] w[k]).0)
}

proof fn lemma_append_write(x: Seq<(Gain, Slot)>, given: GainsGiven, b: bool, g: Gain, s: Slot)
    requires
        writes_given_in_order(x, given),
        forall|i: int| 0 <= i < x.len() ==> write_rank((#[trigger] x[i]).0) < write_rank(g),
        b ==> is_given(given, g),
    ensures
        ({
            let y = x + if b {
                seq![(g, s)]
            } else {
                Seq::<(Gain, Slot)>::empty()
            };
            &&& writes_given_in_order(y, given)
            &&& forall|i: int| 0 <= i < y.len() ==> write_rank((#[trigger] y[i]).0) <= write_rank(g)
        }),
{
    let y = x + if b {
        seq![(g, s)]
    } else {
        Seq::<(Gain, Slot)>::empty()
    };
    assert forall|i: int| 0 <= i < x.len() implies #[trigger] y[i] == x[i] by {}
    if b {
        assert(y[x.len() as int] == (g, s));
    } else {
        assert(y =~= x);
    }
}

/// Nothing that was not given is written, and the gains are written in one
/// fixed order (so none twice): the speed limit, speed kp, speed ki,
/// position kp, position ki.
pub proof fn lemma_writes_given_in_order(vendor: Vendor, given: GainsGiven)
    ensures
        writes_given_in_order(gain_writes_of(vendor, given), given),
{
    let opt = |b: bool, g: Gain, s: Slot| if b { seq![(g, s)] } else { Seq::<(Gain, Slot)>::empty() };
    let e = Seq::<(Gain, Slot)>::empty();
    assert(writes_given_in_order(e, given));
    match vendor {
        Vendor::Damiao => {
            let a = opt(given.vel_kp, Gain::VelKp, Slot::Register(25));
            let b = opt(given.vel_ki, Gain::VelKi, Slot::Register(26));
            let c = opt(given.pos_kp, Gain::PosKp, Slot::Register(27));
            let d = opt(given.pos_ki, Gain::PosKi, Slot::Register(28));
            assert(e + a =~= a);
            lemma_append_write(e, given, given.vel_kp, Gain::VelKp, Slot::Register(25));
            lemma_append_write(a, given, given.vel_ki, Gain::VelKi, Slot::Register(26));
            lemma_append_write(a + b, given, given.pos_kp, Gain::PosKp, Slot::Register(27));
            lemma_append_write(a + b + c, given, given.pos_ki, Gain::PosKi, Slot::Register(28));
        },
        Vendor::Robstride => {
            let a = opt(given.vlim, Gain::Vlim, Slot::Parameter(0x7017));
            let b = opt(given.vel_kp, Gain::VelKp, Slot::Parameter(0x701F));
            let c = opt(given.vel_ki, Gain::VelKi, Slot::Parameter(0x7020));
            let d = opt(given.pos_kp, Gain::PosKp, Slot::Parameter(0x701E));
            assert(e + a =~= a);
            lemma_append_write(e, given, given.vlim, Gain::Vlim, Slot::Parameter(0x7017));
            lemma_append_write(a, given, given.vel_kp, Gain::VelKp, Slot::Parameter(0x701F));
            lemma_append_write(a + b, given, given.vel_ki, Gain::VelKi, Slot::Parameter(0x7020));
            lemma_append_write(a + b + c, given, given.pos_kp, Gain::PosKp, Slot::Parameter(0x701E));
        },
        _ => {},
    }
}

/// RobStride parameter holding the speed limit in position mode.
pub const ROBSTRIDE_VELOCITY_LIMIT: u16 = 0x7017;

/// RobStride parameter holding the position target.
pub const ROBSTRIDE_POSITION_TARGET: u16 = 0x7016;

// ------------------------------------------------------------------
// Status
// ------------------------------------------------------------------

/// The fault flags a RobStride motor reports.
#[derive(Debug, Clone, Copy, PartialEq, Eq, Structural)]
pub struct RobstrideFaults {
    pub uncalibrated: bool,
    pub stall: bool,
    pub magnetic_encoder_fault: bool,
    pub overtemperature: bool,
    pub overcurrent: bool,
    pub undervoltage: bool,
}

/// One flag as the bit `bit`.
pub open spec fn flag_bit(b: bool, bit: u8) -> u8 {
    if b {
        bit
    } else {
        0
    }
}

/// The status code of a RobStride motor: bit 0 undervoltage, 1 overcurrent,
/// 2 overtemperature, 3 magnetic encoder fault, 4 stall, 5 uncalibrated.
pub open spec fn robstride_status_of(f: RobstrideFaults) -> u8 {
    flag_bit(f.uncalibrated, 32) | flag_bit(f.stall, 16) | flag_bit(f.magnetic_encoder_fault, 8)
        | flag_bit(f.overtemperature, 4) | flag_bit(f.overcurrent, 2) | flag_bit(f.undervoltage, 1)
}

fn flag_bit_exec(b: bool, bit: u8) -> (r: u8)
    ensures
        r == flag_bit(b, bit),
{
    if b {
        bit
    } else {
        0
    }
}

/// The status code of a RobStride motor from its fault flags.
pub fn robstride_status(f: RobstrideFaults) -> (r: u8)
    ensures
        r == robstride_status_of(f),
{
    flag_bit_exec(f.uncalibrated, 32) | flag_bit_exec(f.stall, 16) | flag_bit_exec(
        f.magnetic_encoder_fault,
        8,
    ) | flag_bit_exec(f.overtemperature, 4) | flag_bit_exec(f.overcurrent, 2) | flag_bit_exec(
        f.undervoltage,
        1,
    )
}

/// Each fault flag is exactly one bit of the status code, and bits 6 and 7
/// are clear.
pub proof fn lemma_robstride_status_bits(f: RobstrideFaults)
    ensures
        (robstride_status_of(f) & 1 != 0) == f.undervoltage,
        (robstride_status_of(f) & 2 != 0) == f.overcurrent,
        (robstride_status_of(f) & 4 != 0) == f.overtemperature,
        (robstride_status_of(f) & 8 != 0) == f.magnetic_encoder_fault,
        (robstride_status_of(f) & 16 != 0) == f.stall,
        (robstride_status_of(f) & 32 != 0) == f.uncalibrated,
        robstride_status_of(f) < 64,
{
    let a = flag_bit(f.uncalibrated, 32);
    let b = flag_bit(f.stall, 16);
    let c = flag_bit(f.magnetic_encoder_fault, 8);
    let d = flag_bit(f.overtemperature, 4);
    let e = flag_bit(f.overcurrent, 2);
    let g = flag_bit(f.undervoltage, 1);
    let (u, s, m, t, o, v) = (
        f.uncalibrated,
        f.stall,
        f.magnetic_encoder_fault,
        f.overtemperature,
        f.overcurrent,
        f.undervoltage,
    );
    assert({
        let x = a | b | c | d | e | g;
        &&& (x & 1 != 0) == v
        &&& (x & 2 != 0) == o
        &&& (x & 4 != 0) == t
        &&& (x & 8 != 0) == m
        &&& (x & 16 != 0) == s
        &&& (x & 32 != 0) == u
        &&& x < 64
    }) by (bit_vector)
        requires
            a == (if u { 32u8 } else { 0u8 }),
            b == (if s { 16u8 } else { 0u8 }),
            c == (if m { 8u8 } else { 0u8 }),
            d == (if t { 4u8 } else { 0u8 }),
            e == (if o { 2u8 } else { 0u8 }),
            g == (if v { 1u8 } else { 0u8 }),
    ;
}

/// The parameters a RobStride position command writes, in order: the speed
/// limit when one is given (a finite, non-zero magnitude), then the position
/// target. The run mode is not written again.
pub open spec fn robstride_pos_vel_writes_of(limit_given: bool) -> Seq<u16> {
    if limit_given {
        seq![ROBSTRIDE_VELOCITY_LIMIT, ROBSTRIDE_POSITION_TARGET]
    } else {
        seq![ROBSTRIDE_POSITION_TARGET]
    }
}

/// The parameters a RobStride position command writes, in order.
pub fn robstride_pos_vel_writes(limit_given: bool) -> (r: Vec<u16>)
    ensures
        r@ == robstride_pos_vel_writes_of(limit_given),
{
    if limit_given {
        let v = vec![ROBSTRIDE_VELOCITY_LIMIT, ROBSTRIDE_POSITION_TARGET];
        assert(v@ =~= seq![ROBSTRIDE_VELOCITY_LIMIT, ROBSTRIDE_POSITION_TARGET]);
        v
    } else {
        let v = vec![ROBSTRIDE_POSITION_TARGET];
        assert(v@ =~= seq![ROBSTRIDE_POSITION_TARGET]);
        v
    }
}

} // verus!
