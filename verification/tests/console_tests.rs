use rebotarm_control_rt::cli::JointError;
use rebotarm_control_rt::console::{
    console_command, console_joint, gripper_command, ConsoleAction, ConsoleJointError, GripperAction,
};
use rebotarm_control_rt::vendor::ControlMode;

fn action(line: &str) -> ConsoleAction {
    console_command(line).0
}

fn args(v: &[&str]) -> Vec<String> {
    v.iter().map(|s| s.to_string()).collect()
}

#[test]
fn one_word_commands_in_any_case() {
    assert_eq!(action(""), ConsoleAction::Skip);
    for q in ["q", "QUIT", "Exit"] {
        assert_eq!(action(q), ConsoleAction::Quit);
    }
    assert_eq!(action("ENABLE"), ConsoleAction::Enable);
    assert_eq!(action("disable"), ConsoleAction::Disable);
    assert_eq!(action("State"), ConsoleAction::State);
    assert_eq!(action("set_zero"), ConsoleAction::SetZero);
}

#[test]
fn commands_with_arguments() {
    let (a, words) = console_command("mit 10  0 20\t2 0");
    assert_eq!(a, ConsoleAction::Mit);
    assert_eq!(words, vec!["mit", "10", "0", "20", "2", "0"]);
    assert_eq!(action("posvel 10 1.0"), ConsoleAction::PosVel);
    assert_eq!(action("pos_vel 10"), ConsoleAction::PosVel);
    assert_eq!(action("vel 0.2"), ConsoleAction::Vel);
    assert_eq!(action("force_pos -120 3.0 0.05"), ConsoleAction::ForcePos);
    assert_eq!(action("mode posvel"), ConsoleAction::Mode(ControlMode::PosVel));
    assert_eq!(action("mode force_pos"), ConsoleAction::Mode(ControlMode::ForcePos));
    assert_eq!(action("mode mit"), ConsoleAction::Mode(ControlMode::Mit));
    let (a, words) = console_command("mode turbo");
    assert_eq!(a, ConsoleAction::UnknownMode);
    assert_eq!(words[1], "turbo");
}

#[test]
fn unknown_commands() {
    assert_eq!(action("mit"), ConsoleAction::Unknown);
    assert_eq!(action("mode"), ConsoleAction::Unknown);
    assert_eq!(action("MIT 10"), ConsoleAction::Unknown);
    assert_eq!(action("jump 3"), ConsoleAction::Unknown);
}

#[test]
fn console_joint_selection() {
    let names = args(&["a", "b", "c"]);
    assert_eq!(console_joint(&args(&[]), &names), Ok(0));
    assert_eq!(console_joint(&args(&["-j", "c"]), &names), Ok(2));
    assert_eq!(console_joint(&args(&["--joint", "joint2", "-j", "c"]), &names), Ok(1));
    assert_eq!(console_joint(&args(&["--joint", "5"]), &names), Err(ConsoleJointError::OutOfRange(5)));
    assert_eq!(
        console_joint(&args(&["--joint", "jointq"]), &names),
        Err(ConsoleJointError::Joint(JointError::BadJointNumber))
    );
    assert_eq!(
        console_joint(&args(&["--joint", "z"]), &names),
        Err(ConsoleJointError::Joint(JointError::UnknownJoint))
    );
}

#[test]
fn gripper_console_lines() {
    let g = |l: &str| gripper_command(l).0;
    assert_eq!(g("quit"), GripperAction::Quit);
    assert_eq!(g("Q"), GripperAction::Unknown);
    assert_eq!(g("state"), GripperAction::State);
    assert_eq!(g("open"), GripperAction::Open);
    assert_eq!(g("close now"), GripperAction::Close);
    assert_eq!(g("pos"), GripperAction::Unknown);
    assert_eq!(g("pos -90"), GripperAction::Pos);
    assert_eq!(g("force_pos -90 5 0.1"), GripperAction::ForcePos);
    assert_eq!(g("posvel 10"), GripperAction::PosVel);
    assert_eq!(g(""), GripperAction::Unknown);
    assert_eq!(gripper_command("forcepos -90  2").1, vec!["forcepos", "-90", "2"]);
}
