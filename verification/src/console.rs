//! The single-motor console: which joint it drives and what each typed line
//! asks for. Reading lines, moving the motor and printing stay with the
//! caller; the numbers after a command word are the caller's to read.
use vstd::prelude::*;
use crate::cli::{arg_value, arg_value_of, or_else, parse_joint, parse_joint_of, JointError};
use crate::text::{
    ascii_lower_text, split_whitespace, string_of, text_eq, texts,
    to_ascii_lowercase, words_of,
};
use crate::control::{mode_name_of, mode_number_of, ArmMode};
use crate::vendor::{control_mode_number, ControlMode};

verus! {

/// What a console line asks for.
#[derive(Debug, Clone, Copy, PartialEq, Eq, Structural)]
pub enum ConsoleAction {
    /// An empty line: nothing.
    Skip,
    /// `q`, `quit` or `exit`.
    Quit,
    Enable,
    Disable,
    /// Print the state of the arm.
    State,
    /// Zero the joint, once the user confirms.
    SetZero,
    /// `mode <name>` with a known mode.
    Mode(ControlMode),
    /// `mode <name>` with any other name (the second word).
    UnknownMode,
    /// `mit <deg> [vel] [kp] [kd] [tau]`.
    Mit,
    /// `posvel <deg> [vlim]`.
    PosVel,
    /// `vel <rad/s>`.
    Vel,
    /// `forcepos <deg> [vlim] [ratio]`.
    ForcePos,
    /// Anything else.
    Unknown,
}

/// The mode a `mode` command names, if it names one.
pub open spec fn mode_word_of(w: Seq<char>) -> Option<ControlMode> {
    if w == "mit"@ {
        Some(ControlMode::Mit)
    } else if w == "posvel"@ || w == "pos_vel"@ {
        Some(ControlMode::PosVel)
    } else if w == "vel"@ {
        Some(ControlMode::Vel)
    } else if w == "forcepos"@ || w == "force_pos"@ {
        Some(ControlMode::ForcePos)
    } else {
        None
    }
}

/// The tool-level mode of a handle mode.
pub open spec fn control_mode_of_arm(m: ArmMode) -> ControlMode {
    match m {
        ArmMode::Mit => ControlMode::Mit,
        ArmMode::PosVel => ControlMode::PosVel,
        ArmMode::Vel => ControlMode::Vel,
    }
}

/// A `mode` command switches to the mode it spells, and to no other: `mit`,
/// `posvel` or `pos_vel`, `vel`, `forcepos` or `force_pos`. A handle mode's
/// own name selects that mode, whose number is the handle mode's number.
pub proof fn lemma_mode_words(w: Seq<char>, a: ArmMode)
    ensures
        mode_word_of(w) == Some(ControlMode::Mit) <==> w == "mit"@,
        mode_word_of(w) == Some(ControlMode::PosVel) <==> (w == "posvel"@ || w == "pos_vel"@),
        mode_word_of(w) == Some(ControlMode::Vel) <==> w == "vel"@,
        mode_word_of(w) == Some(ControlMode::ForcePos) <==> (w == "forcepos"@ || w
            == "force_pos"@),
        mode_word_of(mode_name_of(a)) == Some(control_mode_of_arm(a)),
        control_mode_number(control_mode_of_arm(a)) == mode_number_of(a),
{
    reveal_strlit("mit");
    reveal_strlit("posvel");
    reveal_strlit("pos_vel");
    reveal_strlit("vel");
    reveal_strlit("forcepos");
    reveal_strlit("force_pos");
    let ws = seq!["mit"@, "posvel"@, "pos_vel"@, "vel"@, "forcepos"@, "force_pos"@];
    assert forall|i: int, k: int| 0 <= i < k < 6 implies ws[i] != ws[k] by {
        if ws[i].len() == ws[k].len() {
            if i == 0 {
                assert(ws[i][0] != ws[k][0]);
            } else if i == 1 {
                assert(ws[i][3] != ws[k][3]);
            } else {
                assert(ws[i][0] != ws[k][0]);
            }
        }
    }
    assert(ws[0] != ws[1] && ws[0] != ws[2] && ws[0] != ws[3] && ws[0] != ws[4] && ws[0] != ws[5]);
    assert(ws[1] != ws[2] && ws[1] != ws[3] && ws[1] != ws[4] && ws[1] != ws[5]);
    assert(ws[2] != ws[3] && ws[2] != ws[4] && ws[2] != ws[5]);
    assert(ws[3] != ws[4] && ws[3] != ws[5]);
    assert(ws[4] != ws[5]);
}

/// What a (trimmed) console line asks for: the one-word commands are
/// recognised in any ASCII case; the others by their first word as typed,
/// and only with at least one argument after it.
pub open spec fn console_action_of(line: Seq<char>) -> ConsoleAction {
    let lower = ascii_lower_text(line);
    let parts = words_of(line);
    if line.len() == 0 {
        ConsoleAction::Skip
    } else if lower == "q"@ || lower == "quit"@ || lower == "exit"@ {
        ConsoleAction::Quit
    } else if lower == "enable"@ {
        ConsoleAction::Enable
    } else if lower == "disable"@ {
        ConsoleAction::Disable
    } else if lower == "state"@ {
        ConsoleAction::State
    } else if lower == "set_zero"@ {
        ConsoleAction::SetZero
    } else if parts.len() < 2 {
        ConsoleAction::Unknown
    } else if parts[0] == "mode"@ {
        match mode_word_of(parts[1]) {
            Some(m) => ConsoleAction::Mode(m),
            None => ConsoleAction::UnknownMode,
        }
    } else if parts[0] == "mit"@ {
        ConsoleAction::Mit
    } else if parts[0] == "posvel"@ || parts[0] == "pos_vel"@ {
        ConsoleAction::PosVel
    } else if parts[0] == "vel"@ {
        ConsoleAction::Vel
    } else if parts[0] == "forcepos"@ || parts[0] == "force_pos"@ {
        ConsoleAction::ForcePos
    } else {
        ConsoleAction::Unknown
    }
}

/// What a line typed at the gripper console asks for.
#[derive(Debug, Clone, Copy, PartialEq, Eq, Structural)]
pub enum GripperAction {
    /// `q`, `quit` or `exit`.
    Quit,
    /// Print the state of the arm.
    State,
    /// Open fully.
    Open,
    /// Close fully.
    Close,
    /// `pos <deg>`: force-limited position with the default limits.
    Pos,
    /// `forcepos <deg> [vlim] [ratio]`.
    ForcePos,
    /// `posvel <deg> [vlim]`.
    PosVel,
    /// Anything else.
    Unknown,
}

/// What a (trimmed) gripper console line asks for: the words as typed;
/// `pos`, `forcepos` and `posvel` need an argument.
pub open spec fn gripper_action_of(line: Seq<char>) -> GripperAction {
    let parts = words_of(line);
    if line == "q"@ || line == "quit"@ || line == "exit"@ {
        GripperAction::Quit
    } else if line == "state"@ {
        GripperAction::State
    } else if parts.len() == 0 {
        GripperAction::Unknown
    } else if parts[0] == "open"@ {
        GripperAction::Open
    } else if parts[0] == "close"@ {
        GripperAction::Close
    } else if parts.len() < 2 {
        GripperAction::Unknown
    } else if parts[0] == "pos"@ {
        GripperAction::Pos
    } else if parts[0] == "forcepos"@ || parts[0] == "force_pos"@ {
        GripperAction::ForcePos
    } else if parts[0] == "posvel"@ || parts[0] == "pos_vel"@ {
        GripperAction::PosVel
    } else {
        GripperAction::Unknown
    }
}

/// What a (trimmed) gripper console line asks for, and its words.
pub fn gripper_command(line: &str) -> (r: (GripperAction, Vec<String>))
    ensures
        r.0 == gripper_action_of(line@),
        texts(r.1@) == words_of(line@),
{
    let parts = split_whitespace(line);
    let action = if text_eq(line, "q") || text_eq(line, "quit") || text_eq(line, "exit") {
        GripperAction::Quit
    } else if text_eq(line, "state") {
        GripperAction::State
    } else if parts.len() == 0 {
        GripperAction::Unknown
    } else {
        assert(texts(parts@)[0] == parts@[0]@);
        let p0 = parts[0].as_str();
        if text_eq(p0, "open") {
            GripperAction::Open
        } else if text_eq(p0, "close") {
            GripperAction::Close
        } else if parts.len() < 2 {
            GripperAction::Unknown
        } else if text_eq(p0, "pos") {
            GripperAction::Pos
        } else if text_eq(p0, "forcepos") || text_eq(p0, "force_pos") {
            GripperAction::ForcePos
        } else if text_eq(p0, "posvel") || text_eq(p0, "pos_vel") {
            GripperAction::PosVel
        } else {
            GripperAction::Unknown
        }
    };
    (action, parts)
}

/// Why the console has no joint to drive.
#[derive(Debug, Clone, Copy, PartialEq, Eq, Structural)]
pub enum ConsoleJointError {
    /// The selector names no joint.
    Joint(JointError),
    /// The selector's index is past the arm's joints.
    OutOfRange(usize),
}

/// The joint the console drives: the selector of `--joint`, else `-j`, else
/// `0`, read among `names`, and within the arm's joints.
pub open spec fn console_joint_of(args: Seq<Seq<char>>, names: Seq<Seq<char>>) -> Result<
    nat,
    ConsoleJointError,
> {
    let sel = match or_else(arg_value_of(args, "--joint"@), arg_value_of(args, "-j"@)) {
        Some(v) => v,
        None => "0"@,
    };
    match parse_joint_of(sel, names) {
        Err(e) => Err(ConsoleJointError::Joint(e)),
        Ok(i) => if i < names.len() {
            Ok(i)
        } else {
            Err(ConsoleJointError::OutOfRange(i as usize))
        },
    }
}

fn mode_word(w: &str) -> (r: Option<ControlMode>)
    ensures
        r == mode_word_of(w@),
{
    if text_eq(w, "mit") {
        Some(ControlMode::Mit)
    } else if text_eq(w, "posvel") || text_eq(w, "pos_vel") {
        Some(ControlMode::PosVel)
    } else if text_eq(w, "vel") {
        Some(ControlMode::Vel)
    } else if text_eq(w, "forcepos") || text_eq(w, "force_pos") {
        Some(ControlMode::ForcePos)
    } else {
        None
    }
}

/// What a (trimmed) console line asks for, and the words of the line: the
/// arguments of a command are the words after the first.
pub fn console_command(line: &str) -> (r: (ConsoleAction, Vec<String>))
    ensures
        r.0 == console_action_of(line@),
        texts(r.1@) == words_of(line@),
{
    let parts = split_whitespace(line);
    let lc = to_ascii_lowercase(line);
    let lower = string_of(&lc);
    let l = lower.as_str();
    let action = if line.unicode_len() == 0 {
        ConsoleAction::Skip
    } else if text_eq(l, "q") || text_eq(l, "quit") || text_eq(l, "exit") {
        ConsoleAction::Quit
    } else if text_eq(l, "enable") {
        ConsoleAction::Enable
    } else if text_eq(l, "disable") {
        ConsoleAction::Disable
    } else if text_eq(l, "state") {
        ConsoleAction::State
    } else if text_eq(l, "set_zero") {
        ConsoleAction::SetZero
    } else if parts.len() < 2 {
        ConsoleAction::Unknown
    } else {
        assert(texts(parts@)[0] == parts@[0]@);
        assert(texts(parts@)[1] == parts@[1]@);
        let p0 = parts[0].as_str();
        if text_eq(p0, "mode") {
            match mode_word(parts[1].as_str()) {
                Some(m) => ConsoleAction::Mode(m),
                None => ConsoleAction::UnknownMode,
            }
        } else if text_eq(p0, "mit") {
            ConsoleAction::Mit
        } else if text_eq(p0, "posvel") || text_eq(p0, "pos_vel") {
            ConsoleAction::PosVel
        } else if text_eq(p0, "vel") {
            ConsoleAction::Vel
        } else if text_eq(p0, "forcepos") || text_eq(p0, "force_pos") {
            ConsoleAction::ForcePos
        } else {
            ConsoleAction::Unknown
        }
    };
    (action, parts)
}

/// The joint the console drives (see [`console_joint_of`]).
pub fn console_joint(args: &[String], names: &[String]) -> (r: Result<usize, ConsoleJointError>)
    ensures
        match r {
            Ok(i) => console_joint_of(texts(args@), texts(names@)) == Ok::<nat, ConsoleJointError>(
                i as nat,
            ),
            Err(e) => console_joint_of(texts(args@), texts(names@)) == Err::<
                nat,
                ConsoleJointError,
            >(e),
        },
{
    let sel = match arg_value(args, "--joint") {
        Some(v) => v,
        None => match arg_value(args, "-j") {
            Some(v) => v,
            None => "0".to_owned(),
        },
    };
    match parse_joint(sel.as_str(), names) {
        Err(e) => Err(ConsoleJointError::Joint(e)),
        Ok(i) => if i < names.len() {
            Ok(i)
        } else {
            Err(ConsoleJointError::OutOfRange(i))
        },
    }
}

} // verus!
