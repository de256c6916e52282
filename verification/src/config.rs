//! The arm and gripper configuration documents (YAML): names, channel, motor
//! ids written as integers or `0x…` texts, models, vendors and the gain
//! entries under `MIT` and `POS_VEL`.
//!
//! The document is parsed by `serde_yaml` into [`YamlNode`]; everything read
//! from it is done here. Gains and the rate are handed on as the nodes found
//! at their keys; turning them into numbers is left to the caller.
use vstd::prelude::*;
use crate::numeric::{opt_i64_int, parse_i64, parse_i64_of};
use crate::text::{ascii_lower_text, chars_of, starts_with, starts_with_chars, suffix_from, text_eq, trim, trim_text};

verus! {

// ------------------------------------------------------------------
// The document
// ------------------------------------------------------------------

/// A number of the document as `serde_yaml` reports it.
pub struct YamlNumber {
    /// `Number::as_i64`: the value when it is an integer within `i64`.
    pub as_i64: Option<i64>,
    /// `Number::as_f64` converted to `i64` with `as` (truncating, saturating).
    pub as_f64_as_i64: Option<i64>,
    /// `Number`'s `Display` text.
    pub text: String,
}

/// A node of a YAML document.
pub enum YamlNode {
    Null,
    Bool(bool),
    Number(YamlNumber),
    Str(String),
    List(Vec<YamlNode>),
    /// Entries in document order.
    Mapping(Vec<(YamlNode, YamlNode)>),
    /// A `!tag`ged node.
    Tagged(Box<YamlNode>),
}

/// The document `serde_yaml` reads from `text`, if it reads one.
pub uninterp spec fn yaml_document(text: Seq<char>) -> Option<YamlNode>;

/// `serde_yaml::from_str::<serde_yaml::Value>` on `text`, as a [`YamlNode`];
/// its error message on failure. The contract claims that the document is
/// the one named by [`yaml_document`] for this text, and that an error comes
/// exactly when that name gives none; it says nothing of the message.
#[verifier::external_body]
fn parse_yaml(text: &str) -> (r: Result<YamlNode, String>)
    ensures
        match r {
            Ok(n) => yaml_document(text@) == Some(n),
            Err(_) => yaml_document(text@) is None,
        },
{
    match serde_yaml::from_str::<serde_yaml::Value>(text) {
        Ok(v) => Ok(node_of(&v)),
        Err(e) => Err(e.to_string()),
    }
}

/// `serde_yaml::Value`, a parsed YAML document, opaque here.
#[verifier::external_type_specification]
#[verifier::external_body]
pub struct ExYamlValue(serde_yaml::Value);

/// `serde_yaml::Number`, opaque here.
#[verifier::external_type_specification]
#[verifier::external_body]
pub struct ExYamlNumber(serde_yaml::Number);

/// One `serde_yaml::Number` as a [`YamlNumber`]: `Number::as_i64`,
/// `Number::as_f64` converted with `as`, and its `Display` text.
#[verifier::external_body]
fn number_of(n: &serde_yaml::Number) -> YamlNumber {
    YamlNumber {
        as_i64: n.as_i64(),
        as_f64_as_i64: match n.as_f64() { Some(f) => Some(f as i64), None => None },
        text: n.to_string(),
    }
}

/// One `serde_yaml::Value` as a [`YamlNode`], variant for variant.
#[verifier::external_body]
fn node_of(v: &serde_yaml::Value) -> YamlNode {
    match v {
        serde_yaml::Value::Null => YamlNode::Null,
        serde_yaml::Value::Bool(b) => YamlNode::Bool(*b),
        serde_yaml::Value::Number(n) => YamlNode::Number(number_of(n)),
        serde_yaml::Value::String(s) => YamlNode::Str(s.clone()),
        serde_yaml::Value::Sequence(s) => YamlNode::List(s.iter().map(node_of).collect()),
        serde_yaml::Value::Mapping(m) => YamlNode::Mapping(m.iter().map(|(k, x)| (node_of(k), node_of(x))).collect()),
        serde_yaml::Value::Tagged(t) => YamlNode::Tagged(Box::new(node_of(&t.value))),
    }
}

// ------------------------------------------------------------------
// Reading nodes
// ------------------------------------------------------------------

/// The node under all its tags.
pub open spec fn untag(n: YamlNode) -> YamlNode
    decreases n,
{
    match n {
        YamlNode::Tagged(b) => untag(*b),
        _ => n,
    }
}

/// The value of the first entry from `i` on whose key is the (untagged)
/// string `key`.
pub open spec fn entry_from(es: Seq<(YamlNode, YamlNode)>, key: Seq<char>, i: int) -> Option<
    YamlNode,
>
    decreases es.len() - i,
{
    if i < 0 || i >= es.len() {
        None
    } else if es[i].0 matches YamlNode::Str(s) && s@ == key {
        Some(es[i].1)
    } else {
        entry_from(es, key, i + 1)
    }
}

/// `Value::get` with a string key: the entry of a mapping (under its tags)
/// whose key is that string.
pub open spec fn get_of(n: YamlNode, key: Seq<char>) -> Option<YamlNode> {
    match untag(n) {
        YamlNode::Mapping(es) => entry_from(es@, key, 0),
        _ => None,
    }
}

/// `get_of` on an optional node.
pub open spec fn get_opt(n: Option<YamlNode>, key: Seq<char>) -> Option<YamlNode> {
    match n {
        Some(x) => get_of(x, key),
        None => None,
    }
}

/// An integer: a number (its `i64` value, else its value converted from
/// `f64`), or a string holding a decimal or `0x`/`0X` hexadecimal integer
/// after trimming.
pub open spec fn as_int_of(v: Option<YamlNode>) -> Option<int> {
    match v {
        Some(YamlNode::Number(n)) => match n.as_i64 {
            Some(i) => Some(i as int),
            None => match n.as_f64_as_i64 {
                Some(i) => Some(i as int),
                None => None,
            },
        },
        Some(YamlNode::Str(s)) => {
            let t = trim(s@);
            if starts_with(t, "0x"@) {
                parse_i64_of(t.skip(2), 16)
            } else if starts_with(t, "0X"@) {
                parse_i64_of(t.skip(2), 16)
            } else {
                parse_i64_of(t, 10)
            }
        },
        _ => None,
    }
}

/// A text: a string as it is, or a number's text.
pub open spec fn as_str_of(v: Option<YamlNode>) -> Option<Seq<char>> {
    match v {
        Some(YamlNode::Str(s)) => Some(s@),
        Some(YamlNode::Number(n)) => Some(n.text@),
        _ => None,
    }
}

fn untag_ref(n: &YamlNode) -> (r: &YamlNode)
    ensures
        *r == untag(*n),
    decreases n,
{
    match n {
        YamlNode::Tagged(b) => untag_ref(b),
        _ => n,
    }
}

/// `Value::get` with a string key.
pub fn get<'a>(n: &'a YamlNode, key: &str) -> (r: Option<&'a YamlNode>)
    ensures
        match r {
            Some(x) => get_of(*n, key@) == Some(*x),
            None => get_of(*n, key@) is None,
        },
{
    match untag_ref(n) {
        YamlNode::Mapping(es) => {
            let mut i: usize = 0;
            while i < es.len()
                invariant
                    i <= es@.len(),
                    get_of(*n, key@) == entry_from(es@, key@, 0),
                    entry_from(es@, key@, 0) == entry_from(es@, key@, i as int),
                decreases es@.len() - i,
            {
                match &es[i].0 {
                    YamlNode::Str(s) => {
                        if text_eq(s.as_str(), key) {
                            return Some(&es[i].1);
                        }
                    },
                    _ => {},
                }
                i = i + 1;
            }
            None
        },
        _ => None,
    }
}

/// `get` on an optional node.
pub fn get_in<'a>(n: Option<&'a YamlNode>, key: &str) -> (r: Option<&'a YamlNode>)
    ensures
        match r {
            Some(x) => get_opt(opt_node(n), key@) == Some(*x),
            None => get_opt(opt_node(n), key@) is None,
        },
{
    match n {
        Some(x) => get(x, key),
        None => None,
    }
}

/// An optional node reference as an optional node.
pub open spec fn opt_node(n: Option<&YamlNode>) -> Option<YamlNode> {
    match n {
        Some(x) => Some(*x),
        None => None,
    }
}

/// An integer: a number, or a decimal or `0x…` hexadecimal string.
pub fn as_int(v: Option<&YamlNode>) -> (r: Option<i64>)
    ensures
        opt_i64_int(r) == as_int_of(opt_node(v)),
{
    match v {
        Some(YamlNode::Number(n)) => match n.as_i64 {
            Some(i) => Some(i),
            None => n.as_f64_as_i64,
        },
        Some(YamlNode::Str(s)) => {
            let t = trim_text(s.as_str());
            let tc = chars_of(t.as_str());
            proof {
                reveal_strlit("0x");
                reveal_strlit("0X");
            }
            if starts_with_chars(&tc, &chars_of("0x")) || starts_with_chars(&tc, &chars_of("0X")) {
                let hex = chars_of(suffix_from(t.as_str(), 2).as_str());
                parse_i64(&hex, 16)
            } else {
                parse_i64(&tc, 10)
            }
        },
        _ => None,
    }
}

/// A text: a string, or a number's text.
pub fn as_str(v: Option<&YamlNode>) -> (r: Option<String>)
    ensures
        crate::text::opt_text(r) == as_str_of(opt_node(v)),
{
    match v {
        Some(YamlNode::Str(s)) => Some(s.as_str().to_owned()),
        Some(YamlNode::Number(n)) => Some(n.text.as_str().to_owned()),
        _ => None,
    }
}

// ------------------------------------------------------------------
// Arm and gripper settings
// ------------------------------------------------------------------

/// Unicode lower-casing (`str::to_lowercase`).
pub uninterp spec fn lowercase_of(s: Seq<char>) -> Seq<char>;

/// Every char of `s` is ASCII.
pub open spec fn all_ascii(s: Seq<char>) -> bool {
    forall|i: int| 0 <= i < s.len() ==> (s[i] as u32) < 128
}

/// Lower-casing as `str::to_lowercase` does it: on ASCII text it lower-cases
/// the letters A to Z and keeps every other char.
pub open spec fn lower_text(s: Seq<char>) -> Seq<char> {
    if all_ascii(s) {
        ascii_lower_text(s)
    } else {
        lowercase_of(s)
    }
}

/// `str::to_lowercase`: the contract claims that the result is the one named
/// by [`lowercase_of`] for this text, and that on ASCII text it is the text
/// with `A`..`Z` lower-cased, as the Unicode lower-case mapping of those
/// chars is; of other text it says nothing more.
#[verifier::external_body]
fn to_lowercase(s: &str) -> (r: String)
    ensures
        r@ == lowercase_of(s@),
        all_ascii(s@) ==> r@ == ascii_lower_text(s@),
{
    s.to_lowercase()
}

/// Why the settings cannot be read from a document.
pub enum SettingsError {
    /// A joint (or the gripper) has no `name`.
    MissingName,
    /// The named joint has no integer `motor_id`.
    BadMotorId(String),
    /// The named joint has no integer `feedback_id`.
    BadFeedbackId(String),
    /// The document has no `gripper` entry.
    MissingGripper,
}

/// A settings error as text.
pub enum SettingsFault {
    MissingName,
    BadMotorId(Seq<char>),
    BadFeedbackId(Seq<char>),
    MissingGripper,
}

impl View for SettingsError {
    type V = SettingsFault;

    open spec fn view(&self) -> SettingsFault {
        match self {
            SettingsError::MissingName => SettingsFault::MissingName,
            SettingsError::BadMotorId(n) => SettingsFault::BadMotorId(n@),
            SettingsError::BadFeedbackId(n) => SettingsFault::BadFeedbackId(n@),
            SettingsError::MissingGripper => SettingsFault::MissingGripper,
        }
    }
}

/// One motor's settings, with its gain entries as found in the document.
pub struct JointSettings<'a> {
    pub name: String,
    pub motor_id: u16,
    pub feedback_id: u16,
    pub model: String,
    pub vendor: String,
    /// `MIT.kp`.
    pub kp: Option<&'a YamlNode>,
    /// `MIT.kd`.
    pub kd: Option<&'a YamlNode>,
    /// `POS_VEL.vel_kp`.
    pub vel_kp: Option<&'a YamlNode>,
    /// `POS_VEL.vel_ki`.
    pub vel_ki: Option<&'a YamlNode>,
    /// `POS_VEL.pos_kp`.
    pub pos_kp: Option<&'a YamlNode>,
    /// `POS_VEL.pos_ki`.
    pub pos_ki: Option<&'a YamlNode>,
    /// `POS_VEL.vlim`.
    pub vlim: Option<&'a YamlNode>,
}

/// One motor's settings as values.
pub struct JointSettingsView {
    pub name: Seq<char>,
    pub motor_id: u16,
    pub feedback_id: u16,
    pub model: Seq<char>,
    pub vendor: Seq<char>,
    pub kp: Option<YamlNode>,
    pub kd: Option<YamlNode>,
    pub vel_kp: Option<YamlNode>,
    pub vel_ki: Option<YamlNode>,
    pub pos_kp: Option<YamlNode>,
    pub pos_ki: Option<YamlNode>,
    pub vlim: Option<YamlNode>,
}

impl<'a> View for JointSettings<'a> {
    type V = JointSettingsView;

    open spec fn view(&self) -> JointSettingsView {
        JointSettingsView {
            name: self.name@,
            motor_id: self.motor_id,
            feedback_id: self.feedback_id,
            model: self.model@,
            vendor: self.vendor@,
            kp: opt_node(self.kp),
            kd: opt_node(self.kd),
            vel_kp: opt_node(self.vel_kp),
            vel_ki: opt_node(self.vel_ki),
            pos_kp: opt_node(self.pos_kp),
            pos_ki: opt_node(self.pos_ki),
            vlim: opt_node(self.vlim),
        }
    }
}

/// The settings of one motor entry: `name` and integer `motor_id` and
/// `feedback_id` are required (ids keep their low 16 bits); `model` defaults
/// to `default_model`, `vendor` to `damiao` and is lower-cased.
pub open spec fn joint_settings_of(j: YamlNode, default_model: Seq<char>) -> Result<
    JointSettingsView,
    SettingsFault,
> {
    let mit = get_of(j, "MIT"@);
    let pv = get_of(j, "POS_VEL"@);
    match as_str_of(get_of(j, "name"@)) {
        None => Err(SettingsFault::MissingName),
        Some(name) => match as_int_of(get_of(j, "motor_id"@)) {
            None => Err(SettingsFault::BadMotorId(name)),
            Some(m) => match as_int_of(get_of(j, "feedback_id"@)) {
                None => Err(SettingsFault::BadFeedbackId(name)),
                Some(f) => Ok(
                    JointSettingsView {
                        name,
                        motor_id: m as u16,
                        feedback_id: f as u16,
                        model: match as_str_of(get_of(j, "model"@)) {
                            Some(x) => x,
                            None => default_model,
                        },
                        vendor: lower_text(
                            match as_str_of(get_of(j, "vendor"@)) {
                                Some(x) => x,
                                None => "damiao"@,
                            },
                        ),
                        kp: get_opt(mit, "kp"@),
                        kd: get_opt(mit, "kd"@),
                        vel_kp: get_opt(pv, "vel_kp"@),
                        vel_ki: get_opt(pv, "vel_ki"@),
                        pos_kp: get_opt(pv, "pos_kp"@),
                        pos_ki: get_opt(pv, "pos_ki"@),
                        vlim: get_opt(pv, "vlim"@),
                    },
                ),
            },
        },
    }
}

/// Each setting of a motor entry is read from the key of its own name: the
/// name from `name`, the ids from `motor_id` and `feedback_id` (low 16 bits),
/// the model from `model` (else the default), the vendor from `vendor`
/// (else `damiao`), the MIT gains `kp`, `kd` from the `MIT` mapping and the
/// loop gains `vel_kp`, `vel_ki`, `pos_kp`, `pos_ki`, `vlim` from the
/// `POS_VEL` mapping. An entry is refused only for a missing name or id.
pub proof fn lemma_settings_from_their_keys(j: YamlNode, default_model: Seq<char>)
    ensures
        joint_settings_of(j, default_model) matches Ok(s) ==> {
            &&& as_str_of(get_of(j, "name"@)) == Some(s.name)
            &&& as_int_of(get_of(j, "motor_id"@)) matches Some(m) && s.motor_id == m as u16
            &&& as_int_of(get_of(j, "feedback_id"@)) matches Some(f) && s.feedback_id == f as u16
            &&& s.model == match as_str_of(get_of(j, "model"@)) {
                Some(x) => x,
                None => default_model,
            }
            &&& s.vendor == lower_text(
                match as_str_of(get_of(j, "vendor"@)) {
                    Some(x) => x,
                    None => "damiao"@,
                },
            )
            &&& s.kp == get_opt(get_of(j, "MIT"@), "kp"@)
            &&& s.kd == get_opt(get_of(j, "MIT"@), "kd"@)
            &&& s.vel_kp == get_opt(get_of(j, "POS_VEL"@), "vel_kp"@)
            &&& s.vel_ki == get_opt(get_of(j, "POS_VEL"@), "vel_ki"@)
            &&& s.pos_kp == get_opt(get_of(j, "POS_VEL"@), "pos_kp"@)
            &&& s.pos_ki == get_opt(get_of(j, "POS_VEL"@), "pos_ki"@)
            &&& s.vlim == get_opt(get_of(j, "POS_VEL"@), "vlim"@)
        },
        joint_settings_of(j, default_model) is Err <==> (as_str_of(get_of(j, "name"@)) is None
            || as_int_of(get_of(j, "motor_id"@)) is None || as_int_of(
            get_of(j, "feedback_id"@),
        ) is None),
{
}

/// The settings of one motor entry (see [`joint_settings_of`]).
pub fn joint_settings<'a>(j: &'a YamlNode, default_model: &str) -> (r: Result<
    JointSettings<'a>,
    SettingsError,
>)
    ensures
        match r {
            Ok(s) => joint_settings_of(*j, default_model@) == Ok::<
                JointSettingsView,
                SettingsFault,
            >(s@),
            Err(e) => joint_settings_of(*j, default_model@) == Err::<
                JointSettingsView,
                SettingsFault,
            >(e@),
        },
{
    let mit = get(j, "MIT");
    let pv = get(j, "POS_VEL");
    let name = match as_str(get(j, "name")) {
        None => return Err(SettingsError::MissingName),
        Some(n) => n,
    };
    let motor_id = match as_int(get(j, "motor_id")) {
        None => return Err(SettingsError::BadMotorId(name)),
        Some(m) => m as u16,
    };
    let feedback_id = match as_int(get(j, "feedback_id")) {
        None => return Err(SettingsError::BadFeedbackId(name)),
        Some(f) => f as u16,
    };
    let model = match as_str(get(j, "model")) {
        Some(x) => x,
        None => default_model.to_owned(),
    };
    let vendor = match as_str(get(j, "vendor")) {
        Some(x) => to_lowercase(x.as_str()),
        None => to_lowercase("damiao"),
    };
    Ok(
        JointSettings {
            name,
            motor_id,
            feedback_id,
            model,
            vendor,
            kp: get_in(mit, "kp"),
            kd: get_in(mit, "kd"),
            vel_kp: get_in(pv, "vel_kp"),
            vel_ki: get_in(pv, "vel_ki"),
            pos_kp: get_in(pv, "pos_kp"),
            pos_ki: get_in(pv, "pos_ki"),
            vlim: get_in(pv, "vlim"),
        },
    )
}

/// The settings of the joint entries in order; the first bad one is
/// reported.
pub open spec fn joints_settings_of(js: Seq<YamlNode>) -> Result<Seq<JointSettingsView>, SettingsFault>
    decreases js.len(),
{
    if js.len() == 0 {
        Ok(Seq::empty())
    } else {
        match joints_settings_of(js.drop_last()) {
            Err(e) => Err(e),
            Ok(prev) => match joint_settings_of(js.last(), "4340P"@) {
                Err(e) => Err(e),
                Ok(j) => Ok(prev.push(j)),
            },
        }
    }
}

/// The arm's settings.
pub struct ArmSettings<'a> {
    /// `name`, default `reBotArm`.
    pub name: String,
    /// `channel`, default `/dev/ttyACM0`.
    pub channel: String,
    /// The `rate` entry, if any.
    pub rate: Option<&'a YamlNode>,
    /// The entries of the `joints` list, in order (none when `joints` is not
    /// a list).
    pub joints: Vec<JointSettings<'a>>,
}

/// The views of joint settings.
pub open spec fn joint_views(v: Seq<JointSettings>) -> Seq<JointSettingsView> {
    v.map_values(|j: JointSettings| j@)
}

/// The arm's settings read from a document.
pub open spec fn arm_settings_of(doc: YamlNode) -> Result<
    (Seq<char>, Seq<char>, Option<YamlNode>, Seq<JointSettingsView>),
    SettingsFault,
> {
    let name = match as_str_of(get_of(doc, "name"@)) {
        Some(x) => x,
        None => "reBotArm"@,
    };
    let channel = match as_str_of(get_of(doc, "channel"@)) {
        Some(x) => x,
        None => "/dev/ttyACM0"@,
    };
    let joints = match get_of(doc, "joints"@) {
        Some(YamlNode::List(seq)) => joints_settings_of(seq@),
        _ => Ok(Seq::empty()),
    };
    match joints {
        Err(e) => Err(e),
        Ok(js) => Ok((name, channel, get_of(doc, "rate"@), js)),
    }
}

/// The arm's settings read from a document (see [`arm_settings_of`]).
pub fn arm_settings<'a>(doc: &'a YamlNode) -> (r: Result<ArmSettings<'a>, SettingsError>)
    ensures
        match r {
            Ok(s) => arm_settings_of(*doc) == Ok::<
                (Seq<char>, Seq<char>, Option<YamlNode>, Seq<JointSettingsView>),
                SettingsFault,
            >((s.name@, s.channel@, opt_node(s.rate), joint_views(s.joints@))),
            Err(e) => arm_settings_of(*doc) == Err::<
                (Seq<char>, Seq<char>, Option<YamlNode>, Seq<JointSettingsView>),
                SettingsFault,
            >(e@),
        },
{
    let name = match as_str(get(doc, "name")) {
        Some(x) => x,
        None => "reBotArm".to_owned(),
    };
    let channel = match as_str(get(doc, "channel")) {
        Some(x) => x,
        None => "/dev/ttyACM0".to_owned(),
    };
    let rate = get(doc, "rate");
    let mut joints: Vec<JointSettings<'a>> = Vec::new();
    match get(doc, "joints") {
        Some(YamlNode::List(seq)) => {
            let mut i: usize = 0;
            assert(seq@.take(0) =~= Seq::<YamlNode>::empty());
            assert(joint_views(joints@) =~= Seq::<JointSettingsView>::empty());
            while i < seq.len()
                invariant
                    i <= seq@.len(),
                    get_of(*doc, "joints"@) == Some(YamlNode::List(*seq)),
                    joints_settings_of(seq@.take(i as int)) == Ok::<
                        Seq<JointSettingsView>,
                        SettingsFault,
                    >(joint_views(joints@)),
                decreases seq@.len() - i,
            {
                assert(seq@.take(i + 1).drop_last() =~= seq@.take(i as int));
                match joint_settings(&seq[i], "4340P") {
                    Err(e) => {
                        proof {
                            lemma_joints_err(seq@, (i + 1) as int, e@);
                        }
                        return Err(e);
                    },
                    Ok(j) => {
                        let ghost old_js = joint_views(joints@);
                        joints.push(j);
                        assert(joint_views(joints@) =~= old_js.push(j@));
                    },
                }
                i = i + 1;
            }
            assert(seq@.take(seq@.len() as int) =~= seq@);
        },
        _ => {
            assert(joint_views(joints@) =~= Seq::<JointSettingsView>::empty());
        },
    }
    Ok(ArmSettings { name, channel, rate, joints })
}

proof fn lemma_joints_err(js: Seq<YamlNode>, n: int, e: SettingsFault)
    requires
        0 <= n <= js.len(),
        joints_settings_of(js.take(n)) == Err::<Seq<JointSettingsView>, SettingsFault>(e),
    ensures
        joints_settings_of(js) == Err::<Seq<JointSettingsView>, SettingsFault>(e),
    decreases js.len() - n,
{
    if n < js.len() {
        assert(js.take(n + 1).drop_last() =~= js.take(n));
        lemma_joints_err(js, n + 1, e);
    } else {
        assert(js.take(n) =~= js);
    }
}

/// The gripper entry: the first item of a `gripper` list, or the `gripper`
/// entry itself when it is not a list.
pub open spec fn gripper_entry_of(doc: YamlNode) -> Option<YamlNode> {
    match get_of(doc, "gripper"@) {
        None => None,
        Some(YamlNode::List(seq)) => if seq@.len() > 0 {
            Some(seq@[0])
        } else {
            None
        },
        Some(other) => Some(other),
    }
}

/// The gripper's settings read from a document: its channel (default
/// `/dev/ttyACM0`) and its motor (model default `4310`).
pub open spec fn gripper_settings_of(doc: YamlNode) -> Result<(Seq<char>, JointSettingsView), SettingsFault> {
    let channel = match as_str_of(get_of(doc, "channel"@)) {
        Some(x) => x,
        None => "/dev/ttyACM0"@,
    };
    match gripper_entry_of(doc) {
        None => Err(SettingsFault::MissingGripper),
        Some(g) => match joint_settings_of(g, "4310"@) {
            Err(e) => Err(e),
            Ok(j) => Ok((channel, j)),
        },
    }
}

/// The gripper's settings read from a document (see
/// [`gripper_settings_of`]).
pub fn gripper_settings<'a>(doc: &'a YamlNode) -> (r: Result<(String, JointSettings<'a>), SettingsError>)
    ensures
        match r {
            Ok((c, j)) => gripper_settings_of(*doc) == Ok::<
                (Seq<char>, JointSettingsView),
                SettingsFault,
            >((c@, j@)),
            Err(e) => gripper_settings_of(*doc) == Err::<
                (Seq<char>, JointSettingsView),
                SettingsFault,
            >(e@),
        },
{
    let channel = match as_str(get(doc, "channel")) {
        Some(x) => x,
        None => "/dev/ttyACM0".to_owned(),
    };
    let entry: Option<&'a YamlNode> = match get(doc, "gripper") {
        None => None,
        Some(YamlNode::List(seq)) => if seq.len() > 0 {
            Some(&seq[0])
        } else {
            None
        },
        Some(other) => Some(other),
    };
    let g = match entry {
        None => return Err(SettingsError::MissingGripper),
        Some(g) => g,
    };
    let j = joint_settings(g, "4310")?;
    Ok((channel, j))
}

/// Why a configuration text yields no settings.
pub enum ConfigTextError {
    /// The text is not a YAML document; `serde_yaml`'s message.
    Yaml(String),
    /// The document lacks something (see [`SettingsError`]).
    Settings(SettingsError),
}

/// The document in a configuration text; `serde_yaml`'s message when the
/// text is not YAML.
pub fn read_document(text: &str) -> (r: Result<YamlNode, ConfigTextError>)
    ensures
        match r {
            Ok(n) => yaml_document(text@) == Some(n),
            Err(e) => yaml_document(text@) is None && e is Yaml,
        },
{
    match parse_yaml(text) {
        Ok(n) => Ok(n),
        Err(m) => Err(ConfigTextError::Yaml(m)),
    }
}

} // verus!
