//! Command-line options of the arm tools: `--name value` / `--name=value`
//! lookups, flags, joint selectors and default paths.
use vstd::prelude::*;
use crate::numeric::{
    decimal_text, digit_of, lemma_decimal_roundtrip, parse_uint, parse_uint_of,
    without_plus,
};
use crate::text::{
    chars_concat, chars_of, concat2, concat3, opt_text, starts_with, starts_with_chars, suffix_from,
    text_eq, texts,
};

verus! {

/// Number of joints of the arm, gripper included.
pub const ALL_DOF: usize = 7;

/// Number of joints of the arm without the gripper.
pub const ARM_DOF: usize = 6;

/// Serial port used when none is configured.
pub const DEFAULT_PORT: &'static str = "/dev/ttyACM0";

/// Arm configuration, relative to the repository root.
pub const DEFAULT_CONFIG_REL: &'static str = "python/rebotarm_control_rt/config/arm.yaml";

/// Arm model, relative to the repository root.
pub const DEFAULT_URDF_REL: &'static str =
    "python/rebotarm_control_rt/urdf/reBot-DevArm_fixend_description/urdf/reBot-DevArm_fixend.urdf";

// ------------------------------------------------------------------
// Models
// ------------------------------------------------------------------

/// `name=`.
pub open spec fn eq_prefix(name: Seq<char>) -> Seq<char> {
    name.push('=')
}

/// The value of option `name` from argument `i` on: the argument after the
/// first `name` (none when it is last), or the rest of the first `name=…`,
/// whichever comes first.
pub open spec fn arg_value_from(args: Seq<Seq<char>>, name: Seq<char>, i: int) -> Option<Seq<char>>
    decreases args.len() - i,
{
    if i < 0 || i >= args.len() {
        None
    } else if args[i] == name {
        if i + 1 < args.len() {
            Some(args[i + 1])
        } else {
            None
        }
    } else if starts_with(args[i], eq_prefix(name)) {
        Some(args[i].skip(name.len() + 1int))
    } else {
        arg_value_from(args, name, i + 1)
    }
}

/// The value of option `name`.
pub open spec fn arg_value_of(args: Seq<Seq<char>>, name: Seq<char>) -> Option<Seq<char>> {
    arg_value_from(args, name, 0)
}

/// All values of option `name` from argument `i` on, in order; an argument
/// taken as a value is not read as an option.
pub open spec fn arg_values_from(args: Seq<Seq<char>>, name: Seq<char>, i: int) -> Seq<Seq<char>>
    decreases args.len() - i,
{
    if i < 0 || i >= args.len() {
        Seq::empty()
    } else if args[i] == name {
        if i + 1 < args.len() {
            seq![args[i + 1]] + arg_values_from(args, name, i + 2)
        } else {
            Seq::empty()
        }
    } else if starts_with(args[i], eq_prefix(name)) {
        seq![args[i].skip(name.len() + 1int)] + arg_values_from(args, name, i + 1)
    } else {
        arg_values_from(args, name, i + 1)
    }
}

/// The first of two options that is present.
pub open spec fn or_else(a: Option<Seq<char>>, b: Option<Seq<char>>) -> Option<Seq<char>> {
    match a {
        Some(x) => Some(x),
        None => b,
    }
}

/// A text that switches an option on.
pub open spec fn is_true_word(v: Seq<char>) -> bool {
    v == "1"@ || v == "true"@ || v == "True"@ || v == "yes"@ || v == "on"@
}

/// `base` joined with the relative path `rel`, as `Path::join` does.
pub open spec fn join_path(base: Seq<char>, rel: Seq<char>) -> Seq<char> {
    if base.len() == 0 {
        rel
    } else if base.last() == '/' {
        base + rel
    } else {
        base + seq!['/'] + rel
    }
}

/// What a joint selector names: a 0-based index below 7, else a 1-based index
/// up to 7, else `joint<n>` with `n` in 1..=7 (a `joint…` whose rest is no
/// number is an error), else a joint name.
pub open spec fn parse_joint_of(value: Seq<char>, names: Seq<Seq<char>>) -> Result<
    nat,
    JointError,
> {
    let as_index = parse_uint_of(value, 10, usize::MAX as nat);
    if as_index matches Some(i) && i < ALL_DOF {
        Ok(as_index->0)
    } else if as_index matches Some(i) && 1 <= i <= ALL_DOF {
        Ok((as_index->0 - 1) as nat)
    } else if starts_with(value, "joint"@) {
        match parse_uint_of(value.skip(5), 10, usize::MAX as nat) {
            None => Err(JointError::BadJointNumber),
            Some(n) => if 1 <= n <= ALL_DOF {
                Ok((n - 1) as nat)
            } else {
                name_index(value, names)
            },
        }
    } else {
        name_index(value, names)
    }
}

/// The first position of `value` in `names` at or after `i`.
pub open spec fn first_index_from(names: Seq<Seq<char>>, value: Seq<char>, i: int) -> Option<nat>
    decreases names.len() - i,
{
    if i < 0 || i >= names.len() {
        None
    } else if names[i] == value {
        Some(i as nat)
    } else {
        first_index_from(names, value, i + 1)
    }
}

/// The first position of `value` in `names`.
pub open spec fn name_index(value: Seq<char>, names: Seq<Seq<char>>) -> Result<nat, JointError> {
    match first_index_from(names, value, 0) {
        Some(i) => Ok(i),
        None => Err(JointError::UnknownJoint),
    }
}

/// A joint's 0-based index, written in decimal, selects that joint; so does
/// `joint<k>` with its 1-based number `k`.
pub proof fn lemma_joint_selectors(i: nat, names: Seq<Seq<char>>)
    requires
        i < ALL_DOF,
    ensures
        parse_joint_of(decimal_text(i), names) == Ok::<nat, JointError>(i),
        parse_joint_of("joint"@ + decimal_text(i + 1), names) == Ok::<nat, JointError>(i),
{
    lemma_decimal_roundtrip(i);
    lemma_decimal_roundtrip(i + 1);
    let d = decimal_text(i + 1);
    let v = "joint"@ + d;
    reveal_strlit("joint");
    assert(v.skip(5) =~= d);
    assert(starts_with(v, "joint"@)) by {
        assert(v.subrange(0, 5) =~= "joint"@);
    }
    assert(parse_uint_of(v, 10, usize::MAX as nat) is None) by {
        assert(without_plus(v) == v);
        assert(digit_of(v[0], 10) is None);
    }
}

/// Why a joint selector names no joint.
#[derive(Debug, Clone, Copy, PartialEq, Eq, Structural)]
pub enum JointError {
    /// `joint…` whose rest is not a number.
    BadJointNumber,
    /// No joint has that name.
    UnknownJoint,
}

// ------------------------------------------------------------------
// Executable functions
// ------------------------------------------------------------------

/// The value of option `name`: the argument after `name`, or the rest of
/// `name=…`, whichever comes first.
pub fn arg_value(args: &[String], name: &str) -> (r: Option<String>)
    ensures
        opt_text(r) == arg_value_of(texts(args@), name@),
{
    let ghost a = texts(args@);
    let prefix = chars_concat(&chars_of(name), &vec!['=']);
    assert(prefix@ =~= eq_prefix(name@));
    let mut i: usize = 0;
    while i < args.len()
        invariant
            i <= args@.len(),
            a == texts(args@),
            prefix@ == eq_prefix(name@),
            arg_value_of(a, name@) == arg_value_from(a, name@, i as int),
        decreases args@.len() - i,
    {
        assert(a[i as int] == args@[i as int]@);
        if text_eq(args[i].as_str(), name) {
            if i + 1 < args.len() {
                assert(a[i + 1] == args@[i + 1]@);
                return Some(args[i + 1].as_str().to_owned());
            }
            return None;
        }
        let arg = chars_of(args[i].as_str());
        if starts_with_chars(&arg, &prefix) {
            return Some(suffix_from(args[i].as_str(), prefix.len()));
        }
        i = i + 1;
    }
    None
}

/// All values of option `name`, in order.
pub fn arg_values(args: &[String], name: &str) -> (r: Vec<String>)
    ensures
        texts(r@) == arg_values_from(texts(args@), name@, 0),
{
    let ghost a = texts(args@);
    let prefix = chars_concat(&chars_of(name), &vec!['=']);
    assert(prefix@ =~= eq_prefix(name@));
    let mut out: Vec<String> = Vec::new();
    let mut i: usize = 0;
    while i < args.len()
        invariant
            i <= args@.len() + 1,
            a == texts(args@),
            prefix@ == eq_prefix(name@),
            arg_values_from(a, name@, 0) == texts(out@) + arg_values_from(a, name@, i as int),
        decreases args@.len() + 1 - i,
    {
        assert(a[i as int] == args@[i as int]@);
        let ghost old_out = texts(out@);
        if text_eq(args[i].as_str(), name) {
            if i + 1 < args.len() {
                assert(a[i + 1] == args@[i + 1]@);
                out.push(args[i + 1].as_str().to_owned());
                assert(texts(out@) =~= old_out.push(a[i + 1]));
                assert(old_out + (seq![a[i + 1]] + arg_values_from(a, name@, i + 2)) =~= texts(
                    out@,
                ) + arg_values_from(a, name@, i + 2));
                i = i + 2;
            } else {
                assert(old_out + Seq::<Seq<char>>::empty() =~= old_out);
                return out;
            }
        } else {
            let arg = chars_of(args[i].as_str());
            if starts_with_chars(&arg, &prefix) {
                let v = suffix_from(args[i].as_str(), prefix.len());
                out.push(v);
                assert(texts(out@) =~= old_out.push(v@));
                assert(old_out + (seq![v@] + arg_values_from(a, name@, i + 1)) =~= texts(out@)
                    + arg_values_from(a, name@, i + 1));
            }
            i = i + 1;
        }
    }
    assert(texts(out@) + Seq::<Seq<char>>::empty() =~= texts(out@));
    out
}

/// Whether `name` is one of the arguments.
pub fn has_flag(args: &[String], name: &str) -> (r: bool)
    ensures
        r == texts(args@).contains(name@),
{
    let mut i: usize = 0;
    while i < args.len()
        invariant
            i <= args@.len(),
            forall|j: int| 0 <= j < i ==> args@[j]@ != name@,
        decreases args@.len() - i,
    {
        if text_eq(args[i].as_str(), name) {
            assert(texts(args@)[i as int] == name@);
            return true;
        }
        i = i + 1;
    }
    assert forall|j: int| 0 <= j < texts(args@).len() implies texts(args@)[j] != name@ by {
        assert(texts(args@)[j] == args@[j]@);
    }
    false
}

fn is_true_word_exec(v: &str) -> (r: bool)
    ensures
        r == is_true_word(v@),
{
    text_eq(v, "1") || text_eq(v, "true") || text_eq(v, "True") || text_eq(v, "yes") || text_eq(
        v,
        "on",
    )
}

/// Option `name` read as a switch: `1`, `true`, `True`, `yes` and `on` mean
/// on, any other value off; `default` when the option is absent.
pub fn parse_bool_arg(args: &[String], name: &str, default: bool) -> (r: bool)
    ensures
        r == match arg_value_of(texts(args@), name@) {
            Some(v) => is_true_word(v),
            None => default,
        },
{
    match arg_value(args, name) {
        Some(v) => is_true_word_exec(v.as_str()),
        None => default,
    }
}

/// The configuration file named by `--config` or else `-c`.
pub fn parse_config_path(args: &[String]) -> (r: Option<String>)
    ensures
        opt_text(r) == or_else(
            arg_value_of(texts(args@), "--config"@),
            arg_value_of(texts(args@), "-c"@),
        ),
{
    match arg_value(args, "--config") {
        Some(v) => Some(v),
        None => arg_value(args, "-c"),
    }
}

/// The port named by `--port` or else `-p`, else the configured one, else
/// [`DEFAULT_PORT`].
pub fn parse_port(args: &[String], configured: Option<String>) -> (r: String)
    ensures
        r@ == match or_else(
            or_else(arg_value_of(texts(args@), "--port"@), arg_value_of(texts(args@), "-p"@)),
            opt_text(configured),
        ) {
            Some(v) => v,
            None => DEFAULT_PORT@,
        },
{
    match arg_value(args, "--port") {
        Some(v) => v,
        None => match arg_value(args, "-p") {
            Some(v) => v,
            None => match configured {
                Some(v) => v,
                None => DEFAULT_PORT.to_owned(),
            },
        },
    }
}

/// `base` joined with the relative path `rel`.
pub fn join_path_text(base: &str, rel: &str) -> (r: String)
    ensures
        r@ == join_path(base@, rel@),
{
    let b = chars_of(base);
    if b.len() == 0 {
        rel.to_owned()
    } else if b[b.len() - 1] == '/' {
        concat2(base, rel)
    } else {
        proof {
            reveal_strlit("/");
            assert("/"@ =~= seq!['/']);
        }
        concat3(base, "/", rel)
    }
}

/// The default arm configuration under the repository root `root`.
pub fn default_config_path(root: &str) -> (r: String)
    ensures
        r@ == join_path(root@, DEFAULT_CONFIG_REL@),
{
    join_path_text(root, DEFAULT_CONFIG_REL)
}

/// The default arm model under the repository root `root`.
pub fn default_urdf_path(root: &str) -> (r: String)
    ensures
        r@ == join_path(root@, DEFAULT_URDF_REL@),
{
    join_path_text(root, DEFAULT_URDF_REL)
}

/// The model named by `--urdf`, else the configured one, else the default
/// one under `root`.
pub fn parse_urdf_path(args: &[String], root: &str, configured: Option<String>) -> (r: String)
    ensures
        r@ == match or_else(arg_value_of(texts(args@), "--urdf"@), opt_text(configured)) {
            Some(v) => v,
            None => join_path(root@, DEFAULT_URDF_REL@),
        },
{
    match arg_value(args, "--urdf") {
        Some(v) => v,
        None => match configured {
            Some(v) => v,
            None => default_urdf_path(root),
        },
    }
}

/// The 0-based joint that `value` selects among `names` (see
/// [`parse_joint_of`]).
pub fn parse_joint(value: &str, names: &[String]) -> (r: Result<usize, JointError>)
    ensures
        match r {
            Ok(i) => parse_joint_of(value@, texts(names@)) == Ok::<nat, JointError>(i as nat),
            Err(e) => parse_joint_of(value@, texts(names@)) == Err::<nat, JointError>(e),
        },
{
    let v = chars_of(value);
    let as_index = parse_uint(&v, 10, usize::MAX as u64);
    match as_index {
        Some(i) => {
            if i < ALL_DOF as u64 {
                return Ok(i as usize);
            }
            if 1 <= i && i <= ALL_DOF as u64 {
                return Ok((i - 1) as usize);
            }
        },
        None => {},
    }
    let jw = chars_of("joint");
    if starts_with_chars(&v, &jw) {
        proof {
            reveal_strlit("joint");
        }
        let rest = chars_of(suffix_from(value, 5).as_str());
        match parse_uint(&rest, 10, usize::MAX as u64) {
            None => return Err(JointError::BadJointNumber),
            Some(n) => {
                if 1 <= n && n <= ALL_DOF as u64 {
                    return Ok((n - 1) as usize);
                }
            },
        }
    }
    name_position(value, names)
}

fn name_position(value: &str, names: &[String]) -> (r: Result<usize, JointError>)
    ensures
        match r {
            Ok(i) => name_index(value@, texts(names@)) == Ok::<nat, JointError>(i as nat),
            Err(e) => name_index(value@, texts(names@)) == Err::<nat, JointError>(e),
        },
{
    let ghost ns = texts(names@);
    let mut i: usize = 0;
    while i < names.len()
        invariant
            i <= names@.len(),
            ns == texts(names@),
            first_index_from(ns, value@, 0) == first_index_from(ns, value@, i as int),
        decreases names@.len() - i,
    {
        assert(ns[i as int] == names@[i as int]@);
        if text_eq(names[i].as_str(), value) {
            return Ok(i);
        }
        i = i + 1;
    }
    Err(JointError::UnknownJoint)
}

/// Where the end-link load scale of a gravity model comes from.
#[derive(Debug, Clone, Copy, PartialEq, Eq, Structural)]
pub enum EndLinkScale {
    /// The value of `--end-link-load-scale`, read by the caller.
    Given,
    /// The gripper's load on the end link (0.7), whichever model is used.
    GripperDefault,
    /// 0: without the gripper the end-link load is taken off.
    Zero,
}

/// The source of the end-link load scale: the option if given; else the
/// gripper's scale when a gripper is used, with or without `--urdf`; else 0.
pub open spec fn end_link_scale_of(args: Seq<Seq<char>>, use_gripper: bool) -> EndLinkScale {
    if arg_value_of(args, "--end-link-load-scale"@) is Some {
        EndLinkScale::Given
    } else if use_gripper {
        EndLinkScale::GripperDefault
    } else {
        EndLinkScale::Zero
    }
}

/// The source of the end-link load scale (see [`end_link_scale_of`]).
pub fn end_link_scale(args: &[String], use_gripper: bool) -> (r: EndLinkScale)
    ensures
        r == end_link_scale_of(texts(args@), use_gripper),
{
    if arg_value(args, "--end-link-load-scale").is_some() {
        EndLinkScale::Given
    } else if use_gripper {
        EndLinkScale::GripperDefault
    } else {
        EndLinkScale::Zero
    }
}

/// A model file written for one run; the file is removed when the guard that
/// owns it goes away.
pub struct TemporaryUrdf {
    path: String,
}

impl TemporaryUrdf {
    /// The path of the file.
    pub closed spec fn path_text(&self) -> Seq<char> {
        self.path@
    }

    /// A guard for the file at `path`.
    pub fn new(path: String) -> (r: Self)
        ensures
            r.path_text() == path@,
    {
        TemporaryUrdf { path }
    }

    /// The path of the file.
    pub fn path(&self) -> (r: &str)
        ensures
            r@ == self.path_text(),
    {
        self.path.as_str()
    }
}

} // verus!
