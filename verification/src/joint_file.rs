//! The line-oriented reader of arm configuration files used by the arm tools:
//! top-level `channel:` / `urdf_path:`, then one `- name:` item per joint with
//! its ids, model, vendor and `MIT:` / `POS_VEL:` gain sections.
//!
//! Gains are kept as the text that follows their key; turning that text into
//! a number is left to the caller.
use vstd::prelude::*;
use crate::numeric::{parse_uint, parse_uint_of};
use crate::text::{
    ascii_lower_text, chars_of, find, find_chars, is_whitespace, is_ws, lines, lines_of, opt_text,
    starts_with, starts_with_chars, string_of, substring, suffix_from, text_eq, texts, to_ascii_lowercase,
    trim, trim_bounds, trim_text,
};

verus! {

// ------------------------------------------------------------------
// Scalars, key/value lines, ids
// ------------------------------------------------------------------

/// The part of `s` before its first `#`.
pub open spec fn before_hash(s: Seq<char>) -> Seq<char> {
    match find(s, seq!['#']) {
        Some(i) => s.take(i as int),
        None => s,
    }
}

/// `t` without one pair of matching surrounding quotes (`"…"` or `'…'`).
pub open spec fn unquote_pair(t: Seq<char>) -> Seq<char> {
    if t.len() >= 2 && ((t[0] == '"' && t.last() == '"') || (t[0] == '\'' && t.last() == '\'')) {
        t.subrange(1, t.len() - 1)
    } else {
        t
    }
}

/// A scalar value: the text before any comment, trimmed, unquoted.
pub open spec fn yaml_scalar_of(s: Seq<char>) -> Seq<char> {
    unquote_pair(trim(before_hash(s)))
}

/// A `key: value` line: the trimmed text before the first `:` and the scalar
/// after it.
pub open spec fn key_value_of(line: Seq<char>) -> Option<(Seq<char>, Seq<char>)> {
    let st = trim(line);
    match find(st, seq![':']) {
        None => None,
        Some(i) => Some((trim(st.take(i as int)), yaml_scalar_of(st.skip(i + 1int)))),
    }
}

/// A motor id: hexadecimal after `0x` / `0X`, else decimal, within `u16`.
pub open spec fn parse_yaml_id_of(v: Seq<char>) -> Option<nat> {
    let t = trim(v);
    if starts_with(t, seq!['0', 'x']) || starts_with(t, seq!['0', 'X']) {
        parse_uint_of(t.skip(2), 16, u16::MAX as nat)
    } else {
        parse_uint_of(t, 10, u16::MAX as nat)
    }
}

/// `s` without every leading repetition of `p`.
pub open spec fn strip_all(s: Seq<char>, p: Seq<char>) -> Seq<char>
    decreases s.len(),
{
    if p.len() > 0 && starts_with(s, p) {
        strip_all(s.skip(p.len() as int), p)
    } else {
        s
    }
}

fn before_hash_bounds(s: &Vec<char>) -> (r: usize)
    ensures
        r <= s@.len(),
        s@.take(r as int) == before_hash(s@),
{
    let hash = vec!['#'];
    assert(hash@ =~= seq!['#']);
    match find_chars(s, &hash) {
        Some(i) => i,
        None => {
            assert(s@.take(s@.len() as int) =~= s@);
            s.len()
        },
    }
}

/// A scalar value: `value` cut at its first `#`, trimmed, and stripped of
/// one pair of surrounding quotes.
pub fn yaml_scalar(value: &str) -> (r: String)
    ensures
        r@ == yaml_scalar_of(value@),
{
    let s = chars_of(value);
    let h = before_hash_bounds(&s);
    let head = substring(value, 0, h);
    let hc = chars_of(head.as_str());
    let (a, b) = trim_bounds(&hc);
    let n = b - a;
    if n >= 2 && ((hc[a] == '"' && hc[b - 1] == '"') || (hc[a] == '\'' && hc[b - 1] == '\'')) {
        let r = substring(head.as_str(), a + 1, b - 1);
        assert(r@ =~= unquote_pair(trim(before_hash(value@))));
        r
    } else {
        substring(head.as_str(), a, b)
    }
}

/// A `key: value` line: the trimmed key before the first `:` and the scalar
/// after it; `None` for a line without `:`.
pub fn yaml_value(line: &str) -> (r: Option<(String, String)>)
    ensures
        match r {
            Some((k, v)) => key_value_of(line@) == Some((k@, v@)),
            None => key_value_of(line@) is None,
        },
{
    let stripped = trim_text(line);
    let st = chars_of(stripped.as_str());
    let colon = vec![':'];
    assert(colon@ =~= seq![':']);
    match find_chars(&st, &colon) {
        None => None,
        Some(i) => {
            let key = trim_text(substring(stripped.as_str(), 0, i).as_str());
            let value = yaml_scalar(suffix_from(stripped.as_str(), i + 1).as_str());
            Some((key, value))
        },
    }
}

/// Why a motor id is not one.
#[derive(Debug, Clone, Copy, PartialEq, Eq, Structural)]
pub enum IdError {
    /// Not a hexadecimal (`0x…`) or decimal number within `u16`.
    Invalid,
}

/// A motor id written in hexadecimal after `0x` / `0X`, or in decimal.
pub fn parse_yaml_id(value: &str) -> (r: Result<u16, IdError>)
    ensures
        match r {
            Ok(v) => parse_yaml_id_of(value@) == Some(v as nat),
            Err(_) => parse_yaml_id_of(value@) is None,
        },
{
    let t = trim_text(value);
    let tc = chars_of(t.as_str());
    let x1 = vec!['0', 'x'];
    let x2 = vec!['0', 'X'];
    assert(x1@ =~= seq!['0', 'x']);
    assert(x2@ =~= seq!['0', 'X']);
    let parsed = if starts_with_chars(&tc, &x1) || starts_with_chars(&tc, &x2) {
        let hex = chars_of(suffix_from(t.as_str(), 2).as_str());
        parse_uint(&hex, 16, 0xffff)
    } else {
        parse_uint(&tc, 10, 0xffff)
    };
    match parsed {
        Some(v) => Ok(v as u16),
        None => Err(IdError::Invalid),
    }
}

// ------------------------------------------------------------------
// Joints
// ------------------------------------------------------------------

/// The gain texts of a joint, as written after their keys.
pub struct GainTexts {
    pub mit_kp: Option<String>,
    pub mit_kd: Option<String>,
    pub vel_kp: Option<String>,
    pub vel_ki: Option<String>,
    pub pos_kp: Option<String>,
    pub pos_ki: Option<String>,
    pub vlim: Option<String>,
}

/// Gain texts as char sequences.
pub struct GainTextsView {
    pub mit_kp: Option<Seq<char>>,
    pub mit_kd: Option<Seq<char>>,
    pub vel_kp: Option<Seq<char>>,
    pub vel_ki: Option<Seq<char>>,
    pub pos_kp: Option<Seq<char>>,
    pub pos_ki: Option<Seq<char>>,
    pub vlim: Option<Seq<char>>,
}

impl View for GainTexts {
    type V = GainTextsView;

    open spec fn view(&self) -> GainTextsView {
        GainTextsView {
            mit_kp: opt_text(self.mit_kp),
            mit_kd: opt_text(self.mit_kd),
            vel_kp: opt_text(self.vel_kp),
            vel_ki: opt_text(self.vel_ki),
            pos_kp: opt_text(self.pos_kp),
            pos_ki: opt_text(self.pos_ki),
            vlim: opt_text(self.vlim),
        }
    }
}

impl GainTexts {
    /// No gain given.
    pub fn none() -> (r: Self)
        ensures
            r@ == no_gains(),
    {
        GainTexts {
            mit_kp: None,
            mit_kd: None,
            vel_kp: None,
            vel_ki: None,
            pos_kp: None,
            pos_ki: None,
            vlim: None,
        }
    }
}

/// No gain given.
pub open spec fn no_gains() -> GainTextsView {
    GainTextsView {
        mit_kp: None,
        mit_kd: None,
        vel_kp: None,
        vel_ki: None,
        pos_kp: None,
        pos_ki: None,
        vlim: None,
    }
}

/// What has been read of the joint item being read.
pub struct JointBuilder {
    pub name: Option<String>,
    pub motor_id: Option<u16>,
    pub feedback_id: Option<u16>,
    pub model: Option<String>,
    pub vendor: Option<String>,
    pub gains: GainTexts,
}

/// A joint builder as char sequences.
pub struct JointBuilderView {
    pub name: Option<Seq<char>>,
    pub motor_id: Option<u16>,
    pub feedback_id: Option<u16>,
    pub model: Option<Seq<char>>,
    pub vendor: Option<Seq<char>>,
    pub gains: GainTextsView,
}

impl View for JointBuilder {
    type V = JointBuilderView;

    open spec fn view(&self) -> JointBuilderView {
        JointBuilderView {
            name: opt_text(self.name),
            motor_id: self.motor_id,
            feedback_id: self.feedback_id,
            model: opt_text(self.model),
            vendor: opt_text(self.vendor),
            gains: self.gains@,
        }
    }
}

/// Nothing read yet.
pub open spec fn empty_builder() -> JointBuilderView {
    JointBuilderView {
        name: None,
        motor_id: None,
        feedback_id: None,
        model: None,
        vendor: None,
        gains: no_gains(),
    }
}

/// A joint as the file describes it.
pub struct JointEntry {
    pub name: String,
    pub motor_id: u16,
    pub feedback_id: u16,
    pub model: String,
    pub vendor: String,
    pub gains: GainTexts,
}

/// A joint as char sequences.
pub struct JointEntryView {
    pub name: Seq<char>,
    pub motor_id: u16,
    pub feedback_id: u16,
    pub model: Seq<char>,
    pub vendor: Seq<char>,
    pub gains: GainTextsView,
}

impl View for JointEntry {
    type V = JointEntryView;

    open spec fn view(&self) -> JointEntryView {
        JointEntryView {
            name: self.name@,
            motor_id: self.motor_id,
            feedback_id: self.feedback_id,
            model: self.model@,
            vendor: self.vendor@,
            gains: self.gains@,
        }
    }
}

/// The views of a sequence of joints.
pub open spec fn entries(v: Seq<JointEntry>) -> Seq<JointEntryView> {
    v.map_values(|e: JointEntry| e@)
}

/// Why a configuration file could not be read.
#[derive(Debug, Clone, Copy, PartialEq, Eq, Structural)]
pub enum ConfigError {
    /// A joint item has no `name`.
    MissingName,
    /// A joint item has no `motor_id`.
    MissingMotorId,
    /// A joint item has no `feedback_id`.
    MissingFeedbackId,
    /// A `motor_id` or `feedback_id` is not a number within `u16`.
    BadId,
    /// The file describes no joint.
    NoJoints,
}

/// The builder holds none of name, motor id and feedback id.
pub open spec fn builder_is_empty(b: JointBuilderView) -> bool {
    b.name is None && b.motor_id is None && b.feedback_id is None
}

/// The joint a builder describes: name and both ids are required; the model
/// defaults to `4340P` and the vendor, lower-cased, to `damiao`.
pub open spec fn build_of(b: JointBuilderView) -> Result<JointEntryView, ConfigError> {
    match b.name {
        None => Err(ConfigError::MissingName),
        Some(n) => match b.motor_id {
            None => Err(ConfigError::MissingMotorId),
            Some(m) => match b.feedback_id {
                None => Err(ConfigError::MissingFeedbackId),
                Some(f) => Ok(
                    JointEntryView {
                        name: n,
                        motor_id: m,
                        feedback_id: f,
                        model: match b.model {
                            Some(x) => x,
                            None => "4340P"@,
                        },
                        vendor: ascii_lower_text(
                            match b.vendor {
                                Some(x) => x,
                                None => "damiao"@,
                            },
                        ),
                        gains: b.gains,
                    },
                ),
            },
        },
    }
}

impl JointBuilder {
    /// Nothing read yet.
    pub fn new() -> (r: Self)
        ensures
            r@ == empty_builder(),
    {
        JointBuilder {
            name: None,
            motor_id: None,
            feedback_id: None,
            model: None,
            vendor: None,
            gains: GainTexts::none(),
        }
    }

    /// Whether none of name, motor id and feedback id has been read.
    pub fn is_empty(&self) -> (r: bool)
        ensures
            r == builder_is_empty(self@),
    {
        self.name.is_none() && self.motor_id.is_none() && self.feedback_id.is_none()
    }

    /// The joint this builder describes.
    pub fn build(self) -> (r: Result<JointEntry, ConfigError>)
        ensures
            match r {
                Ok(e) => build_of(self@) == Ok::<JointEntryView, ConfigError>(e@),
                Err(e) => build_of(self@) == Err::<JointEntryView, ConfigError>(e),
            },
    {
        let name = match self.name {
            None => return Err(ConfigError::MissingName),
            Some(n) => n,
        };
        let motor_id = match self.motor_id {
            None => return Err(ConfigError::MissingMotorId),
            Some(m) => m,
        };
        let feedback_id = match self.feedback_id {
            None => return Err(ConfigError::MissingFeedbackId),
            Some(f) => f,
        };
        let model = match self.model {
            Some(x) => x,
            None => "4340P".to_owned(),
        };
        let vendor_raw = match self.vendor {
            Some(x) => x,
            None => "damiao".to_owned(),
        };
        let vendor = string_of(&to_ascii_lowercase(vendor_raw.as_str()));
        Ok(JointEntry { name, motor_id, feedback_id, model, vendor, gains: self.gains })
    }
}

// ------------------------------------------------------------------
// The file
// ------------------------------------------------------------------

/// The gain section a line is in.
#[derive(Debug, Clone, Copy, PartialEq, Eq, Structural)]
pub enum Section {
    /// Not in a gain section.
    Outside,
    /// In `MIT:`.
    Mit,
    /// In `POS_VEL:`.
    PosVel,
}

/// The reader's state between lines.
pub struct LoadState {
    pub channel: Seq<char>,
    pub urdf_path: Option<Seq<char>>,
    pub joints: Seq<JointEntryView>,
    pub current: JointBuilderView,
    pub section: Section,
}

/// Closing the joint being read: nothing happens when it has no name and no
/// ids; otherwise it is built and appended, and a fresh one is begun.
pub open spec fn finalize_of(b: JointBuilderView, joints: Seq<JointEntryView>) -> Result<
    (Seq<JointEntryView>, JointBuilderView),
    ConfigError,
> {
    if builder_is_empty(b) {
        Ok((joints, b))
    } else {
        match build_of(b) {
            Err(e) => Err(e),
            Ok(j) => Ok((joints.push(j), empty_builder())),
        }
    }
}

/// The builder after reading `key: v` in section `sec`.
pub open spec fn assign_of(b: JointBuilderView, sec: Section, key: Seq<char>, v: Seq<char>) -> Result<
    JointBuilderView,
    ConfigError,
> {
    let g = b.gains;
    if sec == Section::Mit && key == "kp"@ {
        Ok(JointBuilderView { gains: GainTextsView { mit_kp: Some(v), ..g }, ..b })
    } else if sec == Section::Mit && key == "kd"@ {
        Ok(JointBuilderView { gains: GainTextsView { mit_kd: Some(v), ..g }, ..b })
    } else if sec == Section::PosVel && key == "vel_kp"@ {
        Ok(JointBuilderView { gains: GainTextsView { vel_kp: Some(v), ..g }, ..b })
    } else if sec == Section::PosVel && key == "vel_ki"@ {
        Ok(JointBuilderView { gains: GainTextsView { vel_ki: Some(v), ..g }, ..b })
    } else if sec == Section::PosVel && key == "pos_kp"@ {
        Ok(JointBuilderView { gains: GainTextsView { pos_kp: Some(v), ..g }, ..b })
    } else if sec == Section::PosVel && key == "pos_ki"@ {
        Ok(JointBuilderView { gains: GainTextsView { pos_ki: Some(v), ..g }, ..b })
    } else if sec == Section::PosVel && key == "vlim"@ {
        Ok(JointBuilderView { gains: GainTextsView { vlim: Some(v), ..g }, ..b })
    } else if key == "motor_id"@ {
        match parse_yaml_id_of(v) {
            None => Err(ConfigError::BadId),
            Some(id) => Ok(JointBuilderView { motor_id: Some(id as u16), ..b }),
        }
    } else if key == "feedback_id"@ {
        match parse_yaml_id_of(v) {
            None => Err(ConfigError::BadId),
            Some(id) => Ok(JointBuilderView { feedback_id: Some(id as u16), ..b }),
        }
    } else if key == "model"@ {
        Ok(JointBuilderView { model: Some(v), ..b })
    } else if key == "vendor"@ {
        Ok(JointBuilderView { vendor: Some(v), ..b })
    } else {
        Ok(b)
    }
}

/// A gain line sets the gain of its own name and nothing else: `kp` and
/// `kd` under `MIT:`, `vel_kp`, `vel_ki`, `pos_kp`, `pos_ki` and `vlim` under
/// `POS_VEL:`.
pub proof fn lemma_gain_keys(b: JointBuilderView, v: Seq<char>)
    ensures
        assign_of(b, Section::Mit, "kp"@, v) == Ok::<JointBuilderView, ConfigError>(
            JointBuilderView { gains: GainTextsView { mit_kp: Some(v), ..b.gains }, ..b },
        ),
        assign_of(b, Section::Mit, "kd"@, v) == Ok::<JointBuilderView, ConfigError>(
            JointBuilderView { gains: GainTextsView { mit_kd: Some(v), ..b.gains }, ..b },
        ),
        assign_of(b, Section::PosVel, "vel_kp"@, v) == Ok::<JointBuilderView, ConfigError>(
            JointBuilderView { gains: GainTextsView { vel_kp: Some(v), ..b.gains }, ..b },
        ),
        assign_of(b, Section::PosVel, "vel_ki"@, v) == Ok::<JointBuilderView, ConfigError>(
            JointBuilderView { gains: GainTextsView { vel_ki: Some(v), ..b.gains }, ..b },
        ),
        assign_of(b, Section::PosVel, "pos_kp"@, v) == Ok::<JointBuilderView, ConfigError>(
            JointBuilderView { gains: GainTextsView { pos_kp: Some(v), ..b.gains }, ..b },
        ),
        assign_of(b, Section::PosVel, "pos_ki"@, v) == Ok::<JointBuilderView, ConfigError>(
            JointBuilderView { gains: GainTextsView { pos_ki: Some(v), ..b.gains }, ..b },
        ),
        assign_of(b, Section::PosVel, "vlim"@, v) == Ok::<JointBuilderView, ConfigError>(
            JointBuilderView { gains: GainTextsView { vlim: Some(v), ..b.gains }, ..b },
        ),
{
    reveal_strlit("kp");
    reveal_strlit("kd");
    reveal_strlit("vel_kp");
    reveal_strlit("vel_ki");
    reveal_strlit("pos_kp");
    reveal_strlit("pos_ki");
    reveal_strlit("vlim");
    assert("kd"@ != "kp"@) by {
        assert("kd"@[1] != "kp"@[1]);
    }
    assert("vel_ki"@ != "vel_kp"@) by {
        assert("vel_ki"@[5] != "vel_kp"@[5]);
    }
    assert("pos_kp"@ != "vel_kp"@) by {
        assert("pos_kp"@[0] != "vel_kp"@[0]);
    }
    assert("pos_kp"@ != "vel_ki"@) by {
        assert("pos_kp"@[0] != "vel_ki"@[0]);
    }
    assert("pos_ki"@ != "vel_kp"@) by {
        assert("pos_ki"@[0] != "vel_kp"@[0]);
    }
    assert("pos_ki"@ != "vel_ki"@) by {
        assert("pos_ki"@[0] != "vel_ki"@[0]);
    }
    assert("pos_ki"@ != "pos_kp"@) by {
        assert("pos_ki"@[5] != "pos_kp"@[5]);
    }
    assert("vlim"@ != "vel_kp"@ && "vlim"@ != "vel_ki"@ && "vlim"@ != "pos_kp"@ && "vlim"@
        != "pos_ki"@) by {
        assert("vlim"@.len() != "vel_kp"@.len());
    }
}

/// Reading one line: comments are dropped and blank lines skipped; an
/// unindented line may set `channel` or `urdf_path`; an indented `- name:`
/// closes the joint being read and begins the next; `MIT:` and `POS_VEL:`
/// open a gain section; any other indented `key: value` sets a field.
pub open spec fn load_step(st: LoadState, line: Seq<char>) -> Result<LoadState, ConfigError> {
    let raw = before_hash(line);
    let stripped = trim(raw);
    if stripped.len() == 0 {
        Ok(st)
    } else if !(raw.len() > 0 && is_ws(raw[0])) {
        match key_value_of(stripped) {
            Some((k, v)) => if k == "channel"@ {
                Ok(LoadState { channel: v, ..st })
            } else if k == "urdf_path"@ {
                Ok(LoadState { urdf_path: Some(v), ..st })
            } else {
                Ok(st)
            },
            None => Ok(st),
        }
    } else if starts_with(stripped, "- name:"@) {
        match finalize_of(st.current, st.joints) {
            Err(e) => Err(e),
            Ok((js, b)) => Ok(
                LoadState {
                    joints: js,
                    current: JointBuilderView {
                        name: Some(yaml_scalar_of(strip_all(stripped, "- name:"@))),
                        ..b
                    },
                    section: Section::Outside,
                    ..st
                },
            ),
        }
    } else if stripped == "MIT:"@ {
        Ok(LoadState { section: Section::Mit, ..st })
    } else if stripped == "POS_VEL:"@ {
        Ok(LoadState { section: Section::PosVel, ..st })
    } else {
        match key_value_of(stripped) {
            None => Ok(st),
            Some((k, v)) => match assign_of(st.current, st.section, k, v) {
                Err(e) => Err(e),
                Ok(b) => Ok(LoadState { current: b, ..st }),
            },
        }
    }
}

/// Reading the lines in order from `st`.
pub open spec fn load_lines(lines: Seq<Seq<char>>, st: LoadState) -> Result<LoadState, ConfigError>
    decreases lines.len(),
{
    if lines.len() == 0 {
        Ok(st)
    } else {
        match load_lines(lines.drop_last(), st) {
            Err(e) => Err(e),
            Ok(s2) => load_step(s2, lines.last()),
        }
    }
}

/// The state before the first line.
pub open spec fn initial_state() -> LoadState {
    LoadState {
        channel: "/dev/ttyACM0"@,
        urdf_path: None,
        joints: Seq::empty(),
        current: empty_builder(),
        section: Section::Outside,
    }
}

/// What a configuration file describes.
pub struct ArmFile {
    /// The bus channel (serial device or CAN interface).
    pub channel: String,
    /// The model path as written, if any.
    pub urdf_path: Option<String>,
    /// The joints in file order.
    pub joints: Vec<JointEntry>,
}

/// Reading a whole file: all lines, then the last joint is closed; a file
/// without joints is refused.
pub open spec fn parse_arm_text_of(text: Seq<char>) -> Result<
    (Seq<char>, Option<Seq<char>>, Seq<JointEntryView>),
    ConfigError,
> {
    match load_lines(lines_of(text), initial_state()) {
        Err(e) => Err(e),
        Ok(st) => match finalize_of(st.current, st.joints) {
            Err(e) => Err(e),
            Ok((js, _)) => if js.len() == 0 {
                Err(ConfigError::NoJoints)
            } else {
                Ok((st.channel, st.urdf_path, js))
            },
        },
    }
}

fn finalize_joint(builder: &mut JointBuilder, joints: &mut Vec<JointEntry>) -> (r: Result<
    (),
    ConfigError,
>)
    ensures
        match r {
            Ok(()) => finalize_of(old(builder)@, entries(old(joints)@)) == Ok::<
                (Seq<JointEntryView>, JointBuilderView),
                ConfigError,
            >((entries(final(joints)@), final(builder)@)),
            Err(e) => finalize_of(old(builder)@, entries(old(joints)@)) == Err::<
                (Seq<JointEntryView>, JointBuilderView),
                ConfigError,
            >(e),
        },
{
    if builder.is_empty() {
        return Ok(());
    }
    let mut current = JointBuilder::new();
    std::mem::swap(builder, &mut current);
    match current.build() {
        Err(e) => Err(e),
        Ok(j) => {
            let ghost old_js = entries(joints@);
            joints.push(j);
            assert(entries(joints@) =~= old_js.push(j@));
            Ok(())
        },
    }
}

/// Reads a configuration file's text: the channel (default `/dev/ttyACM0`),
/// the model path as written, and the joints in order.
pub fn parse_arm_text(text: &str) -> (r: Result<ArmFile, ConfigError>)
    ensures
        match r {
            Ok(f) => parse_arm_text_of(text@) == Ok::<
                (Seq<char>, Option<Seq<char>>, Seq<JointEntryView>),
                ConfigError,
            >((f.channel@, opt_text(f.urdf_path), entries(f.joints@))),
            Err(e) => parse_arm_text_of(text@) == Err::<
                (Seq<char>, Option<Seq<char>>, Seq<JointEntryView>),
                ConfigError,
            >(e),
        },
{
    let ls = lines(text);
    let ghost lv = texts(ls@);
    let mut channel = "/dev/ttyACM0".to_owned();
    let mut urdf_path: Option<String> = None;
    let mut joints: Vec<JointEntry> = Vec::new();
    let mut current = JointBuilder::new();
    let mut section = Section::Outside;
    let mut i: usize = 0;
    assert(entries(joints@) =~= Seq::<JointEntryView>::empty());
    assert(lv.take(0) =~= Seq::<Seq<char>>::empty());
    while i < ls.len()
        invariant
            i <= ls@.len(),
            lv == texts(ls@),
            lv == lines_of(text@),
            load_lines(lv.take(i as int), initial_state()) == Ok::<LoadState, ConfigError>(
                (LoadState {
                    channel: channel@,
                    urdf_path: opt_text(urdf_path),
                    joints: entries(joints@),
                    current: current@,
                    section,
                }),
            ),
        decreases ls@.len() - i,
    {
        assert(lv.take(i + 1).drop_last() =~= lv.take(i as int));
        assert(lv.take(i + 1).last() == ls@[i as int]@);
        let step = read_line(
            ls[i].as_str(),
            &mut channel,
            &mut urdf_path,
            &mut joints,
            &mut current,
            &mut section,
        );
        match step {
            Err(e) => {
                proof {
                    lemma_load_err(lv, (i + 1) as int, e);
                }
                return Err(e);
            },
            Ok(()) => {},
        }
        i = i + 1;
    }
    assert(lv.take(ls@.len() as int) =~= lv);
    finalize_joint(&mut current, &mut joints)?;
    if joints.len() == 0 {
        return Err(ConfigError::NoJoints);
    }
    Ok(ArmFile { channel, urdf_path, joints })
}

proof fn lemma_load_err(lines: Seq<Seq<char>>, n: int, e: ConfigError)
    requires
        0 <= n <= lines.len(),
        load_lines(lines.take(n), initial_state()) == Err::<LoadState, ConfigError>(e),
    ensures
        load_lines(lines, initial_state()) == Err::<LoadState, ConfigError>(e),
    decreases lines.len() - n,
{
    if n < lines.len() {
        assert(lines.take(n + 1).drop_last() =~= lines.take(n));
        lemma_load_err(lines, n + 1, e);
    } else {
        assert(lines.take(n) =~= lines);
    }
}

fn assign(
    current: &mut JointBuilder,
    section: Section,
    key: &str,
    v: String,
) -> (r: Result<(), ConfigError>)
    ensures
        match r {
            Ok(()) => assign_of(old(current)@, section, key@, v@) == Ok::<
                JointBuilderView,
                ConfigError,
            >(final(current)@),
            Err(e) => assign_of(old(current)@, section, key@, v@) == Err::<
                JointBuilderView,
                ConfigError,
            >(e),
        },
{
    if section == Section::Mit && text_eq(key, "kp") {
        current.gains.mit_kp = Some(v);
    } else if section == Section::Mit && text_eq(key, "kd") {
        current.gains.mit_kd = Some(v);
    } else if section == Section::PosVel && text_eq(key, "vel_kp") {
        current.gains.vel_kp = Some(v);
    } else if section == Section::PosVel && text_eq(key, "vel_ki") {
        current.gains.vel_ki = Some(v);
    } else if section == Section::PosVel && text_eq(key, "pos_kp") {
        current.gains.pos_kp = Some(v);
    } else if section == Section::PosVel && text_eq(key, "pos_ki") {
        current.gains.pos_ki = Some(v);
    } else if section == Section::PosVel && text_eq(key, "vlim") {
        current.gains.vlim = Some(v);
    } else if text_eq(key, "motor_id") {
        match parse_yaml_id(v.as_str()) {
            Err(_) => return Err(ConfigError::BadId),
            Ok(id) => {
                current.motor_id = Some(id);
            },
        }
    } else if text_eq(key, "feedback_id") {
        match parse_yaml_id(v.as_str()) {
            Err(_) => return Err(ConfigError::BadId),
            Ok(id) => {
                current.feedback_id = Some(id);
            },
        }
    } else if text_eq(key, "model") {
        current.model = Some(v);
    } else if text_eq(key, "vendor") {
        current.vendor = Some(v);
    }
    Ok(())
}

fn read_line(
    line: &str,
    channel: &mut String,
    urdf_path: &mut Option<String>,
    joints: &mut Vec<JointEntry>,
    current: &mut JointBuilder,
    section: &mut Section,
) -> (r: Result<(), ConfigError>)
    ensures
        ({
            let before = LoadState {
                channel: old(channel)@,
                urdf_path: opt_text(*old(urdf_path)),
                joints: entries(old(joints)@),
                current: old(current)@,
                section: *old(section),
            };
            let after = LoadState {
                channel: final(channel)@,
                urdf_path: opt_text(*final(urdf_path)),
                joints: entries(final(joints)@),
                current: final(current)@,
                section: *final(section),
            };
            match r {
                Ok(()) => load_step(before, line@) == Ok::<LoadState, ConfigError>(after),
                Err(e) => load_step(before, line@) == Err::<LoadState, ConfigError>(e),
            }
        }),
{
    let lc = chars_of(line);
    let h = before_hash_bounds(&lc);
    let raw = substring(line, 0, h);
    let rc = chars_of(raw.as_str());
    let stripped = trim_text(raw.as_str());
    let sc = chars_of(stripped.as_str());
    if sc.len() == 0 {
        return Ok(());
    }
    if !(rc.len() > 0 && is_whitespace(rc[0])) {
        match yaml_value(stripped.as_str()) {
            Some((k, v)) => {
                if text_eq(k.as_str(), "channel") {
                    *channel = v;
                } else if text_eq(k.as_str(), "urdf_path") {
                    *urdf_path = Some(v);
                }
            },
            None => {},
        }
        return Ok(());
    }
    let name_key = chars_of("- name:");
    if starts_with_chars(&sc, &name_key) {
        finalize_joint(current, joints)?;
        let rest = strip_all_exec(stripped.as_str(), &name_key);
        current.name = Some(yaml_scalar(rest.as_str()));
        *section = Section::Outside;
        return Ok(());
    }
    if text_eq(stripped.as_str(), "MIT:") {
        *section = Section::Mit;
        return Ok(());
    }
    if text_eq(stripped.as_str(), "POS_VEL:") {
        *section = Section::PosVel;
        return Ok(());
    }
    match yaml_value(stripped.as_str()) {
        None => Ok(()),
        Some((k, v)) => assign(current, *section, k.as_str(), v),
    }
}

fn strip_all_exec(s: &str, p: &Vec<char>) -> (r: String)
    ensures
        r@ == strip_all(s@, p@),
{
    let sc = chars_of(s);
    if p.len() == 0 {
        return s.to_owned();
    }
    let mut i: usize = 0;
    assert(sc@.skip(0) =~= sc@);
    while i <= sc.len() && p.len() <= sc.len() - i && matches_from(&sc, p, i)
        invariant
            i <= sc@.len(),
            sc@ == s@,
            p@.len() > 0,
            strip_all(s@, p@) == strip_all(sc@.skip(i as int), p@),
        decreases sc@.len() - i,
    {
        proof {
            assert(sc@.skip(i as int).subrange(0, p@.len() as int) =~= sc@.subrange(
                i as int,
                i + p@.len(),
            ));
            assert(sc@.skip(i as int).skip(p@.len() as int) =~= sc@.skip(i + p@.len()));
        }
        i = i + p.len();
    }
    proof {
        if i <= sc@.len() && p@.len() <= sc@.len() - i {
            assert(sc@.skip(i as int).subrange(0, p@.len() as int) =~= sc@.subrange(
                i as int,
                i + p@.len(),
            ));
        }
    }
    suffix_from(s, i)
}

fn matches_from(s: &Vec<char>, p: &Vec<char>, i: usize) -> (r: bool)
    ensures
        r == crate::text::occurs_at(s@, p@, i as int),
{
    crate::text::matches_at(s, p, i)
}

} // verus!
