//! Text surgery on URDF documents: locating links, joints, inertial blocks,
//! tags and attribute values, and cutting or splicing them.
//!
//! The functions search the document's chars; the offsets they take and
//! give are byte offsets of its UTF-8 encoding, as `str` indexing uses.
use vstd::prelude::*;
use crate::utf8::{
    byte_offset, byte_pos, char_of_byte, char_offset, is_char_boundary, lemma_byte_pos_grows,
    lemma_char_of_byte, utf8_len,
};
use crate::text::{
    chars_concat, chars_of, concat2, concat3, find, find_chars, find_chars_from, find_from,
    lemma_find_from_spec, lemma_rfind_spec, opt_nat, opt_text, rfind_before, rfind_chars_before,
    string_of, substring, suffix_from, texts, chars_eq, text_eq,
};

verus! {

/// Why a URDF edit could not be made.
#[derive(Debug, Clone, Copy, PartialEq, Eq, Structural)]
pub enum UrdfError {
    /// No `name="…"` / `name='…'` attribute for the link.
    LinkNotFound,
    /// No `<link` opens before the link's name.
    LinkStartNotFound,
    /// The link has no `</link>` after its start.
    LinkNotClosed,
    /// An `<inertial` block has no `</inertial>`.
    InertialNotClosed,
    /// The link holds no inertial block.
    NoInertial,
    /// A `<joint` block has no `</joint>`.
    JointNotClosed,
    /// No link named `end_link`.
    EndLinkMissing,
    /// `end_link` is not followed by an inertial block.
    EndLinkNoInertial,
    /// The opening `<inertial` tag of `end_link` has no `>`.
    EndLinkInertialMalformed,
    /// The inertial block of `end_link` has no `</inertial>`.
    EndLinkInertialNotClosed,
    /// The block holds no such element.
    ElementMissing,
    /// The element's tag has no `>`.
    TagMalformed,
    /// The element's tag holds no such attribute.
    AttrMissing,
    /// The attribute's value has no closing quote.
    QuoteNotClosed,
}

// ------------------------------------------------------------------
// Fixed patterns
// ------------------------------------------------------------------

pub open spec fn pat_link_open() -> Seq<char> {
    seq!['<', 'l', 'i', 'n', 'k']
}

pub open spec fn pat_link_close() -> Seq<char> {
    seq!['<', '/', 'l', 'i', 'n', 'k', '>']
}

pub open spec fn pat_inertial_open() -> Seq<char> {
    seq!['<', 'i', 'n', 'e', 'r', 't', 'i', 'a', 'l']
}

pub open spec fn pat_inertial_close() -> Seq<char> {
    seq!['<', '/', 'i', 'n', 'e', 'r', 't', 'i', 'a', 'l', '>']
}

pub open spec fn pat_joint_open() -> Seq<char> {
    seq!['<', 'j', 'o', 'i', 'n', 't']
}

pub open spec fn pat_joint_close() -> Seq<char> {
    seq!['<', '/', 'j', 'o', 'i', 'n', 't', '>']
}

pub open spec fn pat_name_dq() -> Seq<char> {
    seq!['n', 'a', 'm', 'e', '=', '"']
}

pub open spec fn pat_name_sq() -> Seq<char> {
    seq!['n', 'a', 'm', 'e', '=', '\'']
}

pub open spec fn word_end_link() -> Seq<char> {
    seq!['e', 'n', 'd', '_', 'l', 'i', 'n', 'k']
}

pub open spec fn word_joint() -> Seq<char> {
    seq!['j', 'o', 'i', 'n', 't']
}

pub open spec fn word_type() -> Seq<char> {
    seq!['t', 'y', 'p', 'e']
}

pub open spec fn word_fixed() -> Seq<char> {
    seq!['f', 'i', 'x', 'e', 'd']
}

pub open spec fn word_child() -> Seq<char> {
    seq!['c', 'h', 'i', 'l', 'd']
}

pub open spec fn word_parent() -> Seq<char> {
    seq!['p', 'a', 'r', 'e', 'n', 't']
}

pub open spec fn word_link() -> Seq<char> {
    seq!['l', 'i', 'n', 'k']
}

pub open spec fn word_origin() -> Seq<char> {
    seq!['o', 'r', 'i', 'g', 'i', 'n']
}

pub open spec fn word_rpy() -> Seq<char> {
    seq!['r', 'p', 'y']
}

pub open spec fn default_rpy() -> Seq<char> {
    seq!['0', ' ', '0', ' ', '0']
}

/// `name="<name>"`.
pub open spec fn name_attr_dq(name: Seq<char>) -> Seq<char> {
    pat_name_dq() + name + seq!['"']
}

/// `name='<name>'`.
pub open spec fn name_attr_sq(name: Seq<char>) -> Seq<char> {
    pat_name_sq() + name + seq!['\'']
}

// ------------------------------------------------------------------
// Models
// ------------------------------------------------------------------

/// Position of the first `name="…"`, else of the first `name='…'`.
pub open spec fn name_pos(s: Seq<char>, name: Seq<char>) -> Option<nat> {
    match find(s, name_attr_dq(name)) {
        Some(p) => Some(p),
        None => find(s, name_attr_sq(name)),
    }
}

/// The opening tag `<tag … >` of the first `<tag` in `s`, `>` included.
pub open spec fn tag_text_of(s: Seq<char>, tag: Seq<char>) -> Option<Seq<char>> {
    match find(s, seq!['<'] + tag) {
        None => None,
        Some(a) => match find_from(s, seq!['>'], a) {
            None => None,
            Some(b) => Some(s.subrange(a as int, b + 1int)),
        },
    }
}

/// Where the value of `attr` starts in `tag`, and the quote that closes it:
/// `attr="` is looked for first, then `attr='`.
pub open spec fn attr_value_start(tag: Seq<char>, attr: Seq<char>) -> Option<(nat, char)> {
    let dq = attr + seq!['=', '"'];
    let sq = attr + seq!['=', '\''];
    match find(tag, dq) {
        Some(p) => Some((p + dq.len(), '"')),
        None => match find(tag, sq) {
            Some(p) => Some((p + sq.len(), '\'')),
            None => None,
        },
    }
}

/// The value of attribute `attr` in `tag`.
pub open spec fn attr_value_of(tag: Seq<char>, attr: Seq<char>) -> Option<Seq<char>> {
    match attr_value_start(tag, attr) {
        None => None,
        Some((o, q)) => match find_from(tag, seq![q], o) {
            None => None,
            Some(e) => Some(tag.subrange(o as int, e as int)),
        },
    }
}

/// The span `[start, end)` of link `name`: from the last `<link` before its
/// name attribute through the next `</link>`.
pub open spec fn link_range_of(s: Seq<char>, name: Seq<char>) -> Result<(nat, nat), UrdfError> {
    match name_pos(s, name) {
        None => Err(UrdfError::LinkNotFound),
        Some(p) => match rfind_before(s, pat_link_open(), p) {
            None => Err(UrdfError::LinkStartNotFound),
            Some(st) => match find_from(s, pat_link_close(), st) {
                None => Err(UrdfError::LinkNotClosed),
                Some(e) => Ok((st, e + pat_link_close().len())),
            },
        },
    }
}

/// The span of the first inertial block of `t`, if it has one.
pub open spec fn inertial_range_of(t: Seq<char>) -> Result<Option<(nat, nat)>, UrdfError> {
    match find(t, pat_inertial_open()) {
        None => Ok(None),
        Some(a) => match find_from(t, pat_inertial_close(), a) {
            None => Err(UrdfError::InertialNotClosed),
            Some(e) => Ok(Some((a, e + pat_inertial_close().len()))),
        },
    }
}

/// The text between the start of the line holding `pos` and `pos`.
pub open spec fn leading_indent_of(t: Seq<char>, pos: nat) -> Seq<char> {
    let ls: nat = match rfind_before(t, seq!['\n'], pos) {
        Some(i) => i + 1,
        None => 0,
    };
    t.subrange(ls as int, pos as int)
}

/// `s` with the inertial block of link `name` cut out (unchanged when the
/// link has none).
pub open spec fn remove_link_inertial_of(s: Seq<char>, name: Seq<char>) -> Result<
    Seq<char>,
    UrdfError,
> {
    match link_range_of(s, name) {
        Err(e) => Err(e),
        Ok((ls, le)) => match inertial_range_of(s.subrange(ls as int, le as int)) {
            Err(e) => Err(e),
            Ok(None) => Ok(s),
            Ok(Some((a, b))) => Ok(s.take((ls + a) as int) + s.skip((ls + b) as int)),
        },
    }
}

/// `s` with the inertial blocks of `names` cut out, first name first.
pub open spec fn remove_link_inertials_of(s: Seq<char>, names: Seq<Seq<char>>) -> Result<
    Seq<char>,
    UrdfError,
>
    decreases names.len(),
{
    if names.len() == 0 {
        Ok(s)
    } else {
        match remove_link_inertials_of(s, names.drop_last()) {
            Err(e) => Err(e),
            Ok(t) => remove_link_inertial_of(t, names.last()),
        }
    }
}

/// The `link` attribute of the first `<child` tag of a joint block.
pub open spec fn child_link_of(j: Seq<char>) -> Option<Seq<char>> {
    match tag_text_of(j, word_child()) {
        None => None,
        Some(t) => attr_value_of(t, word_link()),
    }
}

/// The `link` attribute of the first `<parent` tag of a joint block.
pub open spec fn parent_link_of(j: Seq<char>) -> Option<Seq<char>> {
    match tag_text_of(j, word_parent()) {
        None => None,
        Some(t) => attr_value_of(t, word_link()),
    }
}

/// The joint block's `type` is `fixed`.
pub open spec fn is_fixed_joint(j: Seq<char>) -> bool {
    match tag_text_of(j, word_joint()) {
        None => false,
        Some(t) => attr_value_of(t, word_type()) == Some(word_fixed()),
    }
}

/// The joint blocks `<joint … </joint>` of `s` at or after `off`, in order;
/// `None` when one is not closed.
pub open spec fn joint_blocks_from(s: Seq<char>, off: nat) -> Option<Seq<Seq<char>>>
    decreases s.len() + 1 - off,
{
    match find_from(s, pat_joint_open(), off) {
        None => Some(Seq::empty()),
        Some(st) => match find_from(s, pat_joint_close(), st) {
            None => None,
            Some(e) => {
                let end = e + pat_joint_close().len();
                if off < end && end <= s.len() {
                    match joint_blocks_from(s, end) {
                        None => None,
                        Some(rest) => Some(seq![s.subrange(st as int, end as int)] + rest),
                    }
                } else {
                    None
                }
            },
        },
    }
}

/// The child links of the joints that are not fixed, in document order.
pub open spec fn movable_children(blocks: Seq<Seq<char>>) -> Seq<Seq<char>>
    decreases blocks.len(),
{
    if blocks.len() == 0 {
        Seq::empty()
    } else {
        let prev = movable_children(blocks.drop_last());
        let j = blocks.last();
        if !is_fixed_joint(j) && child_link_of(j) is Some {
            prev.push(child_link_of(j)->0)
        } else {
            prev
        }
    }
}

/// The (parent, child) link pairs of the fixed joints, in document order.
pub open spec fn fixed_edges(blocks: Seq<Seq<char>>) -> Seq<(Seq<char>, Seq<char>)>
    decreases blocks.len(),
{
    if blocks.len() == 0 {
        Seq::empty()
    } else {
        let prev = fixed_edges(blocks.drop_last());
        let j = blocks.last();
        if is_fixed_joint(j) && parent_link_of(j) is Some && child_link_of(j) is Some {
            prev.push((parent_link_of(j)->0, child_link_of(j)->0))
        } else {
            prev
        }
    }
}

/// A char that may follow an element's name inside its tag.
pub open spec fn is_tag_delim(c: char) -> bool {
    c == ' ' || c == '\t' || c == '\r' || c == '\n' || c == '/' || c == '>'
}

/// The first `<element` at or after `off` that is followed by a tag delimiter
/// (so `<mass` does not match `<massive`).
pub open spec fn find_element_from(s: Seq<char>, element: Seq<char>, off: nat) -> Option<nat>
    decreases s.len() + 1 - off,
{
    let needle = seq!['<'] + element;
    match find_from(s, needle, off) {
        None => None,
        Some(pos) => {
            let nx = pos + needle.len();
            if nx < s.len() && is_tag_delim(s[nx as int]) {
                Some(pos)
            } else if off < nx && nx <= s.len() {
                find_element_from(s, element, nx)
            } else {
                None
            }
        },
    }
}

/// Position of the `end_link` name attribute.
pub open spec fn end_link_pos(s: Seq<char>) -> Option<nat> {
    name_pos(s, word_end_link())
}

/// The document names a link `end_link` followed by an inertial block.
pub open spec fn has_end_link_inertial_of(s: Seq<char>) -> bool {
    match end_link_pos(s) {
        None => false,
        Some(p) => find_from(s, pat_inertial_open(), p) is Some,
    }
}

/// The span of the inertial block that follows the `end_link` name.
pub open spec fn end_link_inertial_span_of(s: Seq<char>) -> Result<(nat, nat), UrdfError> {
    match end_link_pos(s) {
        None => Err(UrdfError::EndLinkMissing),
        Some(p) => match find_from(s, pat_inertial_open(), p) {
            None => Err(UrdfError::EndLinkNoInertial),
            Some(st) => match find_from(s, seq!['>'], st) {
                None => Err(UrdfError::EndLinkInertialMalformed),
                Some(g) => match find_from(s, pat_inertial_close(), g + 1) {
                    None => Err(UrdfError::EndLinkInertialNotClosed),
                    Some(e) => Ok((st, e + pat_inertial_close().len())),
                },
            },
        },
    }
}

/// The span of the value of `attr` in the first `<element` tag of `s`.
pub open spec fn attr_value_span_of(s: Seq<char>, element: Seq<char>, attr: Seq<char>) -> Result<
    (nat, nat),
    UrdfError,
> {
    match find_element_from(s, element, 0) {
        None => Err(UrdfError::ElementMissing),
        Some(es) => match find_from(s, seq!['>'], es) {
            None => Err(UrdfError::TagMalformed),
            Some(ee) => match attr_value_start(s.subrange(es as int, ee as int), attr) {
                None => Err(UrdfError::AttrMissing),
                Some((o, q)) => match find_from(s, seq![q], es + o) {
                    None => Err(UrdfError::QuoteNotClosed),
                    Some(ve) => Ok((es + o, ve)),
                },
            },
        },
    }
}

/// Where an inertial block sits in a document, with what a new block written
/// in its place keeps of it.
pub struct InertialSite {
    /// Byte offset of the block's first char.
    pub start: usize,
    /// Byte offset one past its last char.
    pub end: usize,
    /// The text before the block on its line.
    pub indent: String,
    /// The `rpy` of its `<origin`, else `0 0 0`.
    pub rpy: String,
}

/// A span of char offsets of `s` as byte offsets.
pub open spec fn byte_span(s: Seq<char>, span: (nat, nat)) -> (nat, nat) {
    (byte_pos(s, span.0), byte_pos(s, span.1))
}

// ------------------------------------------------------------------
// Executable functions
// ------------------------------------------------------------------

fn lit_link_open() -> (r: Vec<char>)
    ensures
        r@ == pat_link_open(),
{
    vec!['<', 'l', 'i', 'n', 'k']
}

fn lit_link_close() -> (r: Vec<char>)
    ensures
        r@ == pat_link_close(),
{
    vec!['<', '/', 'l', 'i', 'n', 'k', '>']
}

fn lit_inertial_open() -> (r: Vec<char>)
    ensures
        r@ == pat_inertial_open(),
{
    vec!['<', 'i', 'n', 'e', 'r', 't', 'i', 'a', 'l']
}

fn lit_inertial_close() -> (r: Vec<char>)
    ensures
        r@ == pat_inertial_close(),
{
    vec!['<', '/', 'i', 'n', 'e', 'r', 't', 'i', 'a', 'l', '>']
}

fn lit_joint_open() -> (r: Vec<char>)
    ensures
        r@ == pat_joint_open(),
{
    vec!['<', 'j', 'o', 'i', 'n', 't']
}

fn lit_joint_close() -> (r: Vec<char>)
    ensures
        r@ == pat_joint_close(),
{
    vec!['<', '/', 'j', 'o', 'i', 'n', 't', '>']
}

fn lit_name_dq() -> (r: Vec<char>)
    ensures
        r@ == pat_name_dq(),
{
    vec!['n', 'a', 'm', 'e', '=', '"']
}

fn lit_name_sq() -> (r: Vec<char>)
    ensures
        r@ == pat_name_sq(),
{
    vec!['n', 'a', 'm', 'e', '=', '\'']
}

fn two_chars(c: char, d: char) -> (r: Vec<char>)
    ensures
        r@ == seq![c, d],
{
    vec![c, d]
}

fn one_char(c: char) -> (r: Vec<char>)
    ensures
        r@ == seq![c],
{
    vec![c]
}

fn name_pos_exec(s: &Vec<char>, name: &Vec<char>) -> (r: Option<usize>)
    ensures
        opt_nat(r) == name_pos(s@, name@),
{
    let dq = chars_concat(&chars_concat(&lit_name_dq(), name), &one_char('"'));
    let sq = chars_concat(&chars_concat(&lit_name_sq(), name), &one_char('\''));
    match find_chars(s, &dq) {
        Some(p) => Some(p),
        None => find_chars(s, &sq),
    }
}

fn tag_text_chars(s: &Vec<char>, tag: &Vec<char>) -> (r: Option<(usize, usize)>)
    ensures
        match r {
            Some((a, b)) => a <= b <= s@.len() && tag_text_of(s@, tag@) == Some(
                s@.subrange(a as int, b as int),
            ),
            None => tag_text_of(s@, tag@) is None,
        },
{
    let needle = chars_concat(&one_char('<'), tag);
    match find_chars(s, &needle) {
        None => None,
        Some(a) => match find_chars_from(s, &one_char('>'), a) {
            None => None,
            Some(b) => {
                proof {
                    lemma_find_from_spec(s@, seq!['>'], a as nat);
                }
                Some((a, b + 1))
            },
        },
    }
}

/// The opening tag of the first `<tag` in `source`, from `<` through `>`.
pub fn tag_text(source: &str, tag: &str) -> (r: Option<String>)
    ensures
        opt_text(r) == tag_text_of(source@, tag@),
{
    let s = chars_of(source);
    let t = chars_of(tag);
    match tag_text_chars(&s, &t) {
        None => None,
        Some((a, b)) => Some(substring(source, a, b)),
    }
}

fn attr_value_start_exec(tag: &Vec<char>, attr: &Vec<char>) -> (r: Option<(usize, char)>)
    ensures
        match r {
            Some((o, q)) => o <= tag@.len() && attr_value_start(tag@, attr@) == Some(
                (o as nat, q),
            ),
            None => attr_value_start(tag@, attr@) is None,
        },
{
    let dq = chars_concat(attr, &two_chars('=', '"'));
    let sq = chars_concat(attr, &two_chars('=', '\''));
    match find_chars(tag, &dq) {
        Some(p) => {
            proof {
                lemma_find_from_spec(tag@, dq@, 0);
            }
            Some((p + dq.len(), '"'))
        },
        None => match find_chars(tag, &sq) {
            Some(p) => {
                proof {
                    lemma_find_from_spec(tag@, sq@, 0);
                }
                Some((p + sq.len(), '\''))
            },
            None => None,
        },
    }
}

fn attr_value_chars(tag: &Vec<char>, attr: &Vec<char>) -> (r: Option<(usize, usize)>)
    ensures
        match r {
            Some((a, b)) => a <= b <= tag@.len() && attr_value_of(tag@, attr@) == Some(
                tag@.subrange(a as int, b as int),
            ),
            None => attr_value_of(tag@, attr@) is None,
        },
{
    match attr_value_start_exec(tag, attr) {
        None => None,
        Some((o, q)) => match find_chars_from(tag, &one_char(q), o) {
            None => None,
            Some(e) => {
                proof {
                    lemma_find_from_spec(tag@, seq![q], o as nat);
                }
                Some((o, e))
            },
        },
    }
}

/// The value of attribute `attr` in `tag`, written `attr="…"` or `attr='…'`.
pub fn attr_value(tag: &str, attr: &str) -> (r: Option<String>)
    ensures
        opt_text(r) == attr_value_of(tag@, attr@),
{
    let t = chars_of(tag);
    let a = chars_of(attr);
    match attr_value_chars(&t, &a) {
        None => None,
        Some((x, y)) => Some(substring(tag, x, y)),
    }
}

fn link_range_chars(s: &Vec<char>, name: &Vec<char>) -> (r: Result<(usize, usize), UrdfError>)
    ensures
        match r {
            Ok((a, b)) => a <= b <= s@.len() && link_range_of(s@, name@) == Ok::<
                (nat, nat),
                UrdfError,
            >((a as nat, b as nat)),
            Err(e) => link_range_of(s@, name@) == Err::<(nat, nat), UrdfError>(e),
        },
{
    let p = match name_pos_exec(s, name) {
        None => return Err(UrdfError::LinkNotFound),
        Some(p) => p,
    };
    proof {
        lemma_find_from_spec(s@, name_attr_dq(name@), 0);
        lemma_find_from_spec(s@, name_attr_sq(name@), 0);
    }
    let open = lit_link_open();
    let st = match rfind_chars_before(s, &open, p) {
        None => return Err(UrdfError::LinkStartNotFound),
        Some(st) => st,
    };
    proof {
        lemma_rfind_spec(s@, pat_link_open(), p - pat_link_open().len());
    }
    let close = lit_link_close();
    match find_chars_from(s, &close, st) {
        None => Err(UrdfError::LinkNotClosed),
        Some(e) => {
            proof {
                lemma_find_from_spec(s@, pat_link_close(), st as nat);
            }
            Ok((st, e + close.len()))
        },
    }
}

/// The byte span `[start, end)` of the link named `link_name`.
pub fn link_range(xml: &str, link_name: &str) -> (r: Result<(usize, usize), UrdfError>)
    requires
        utf8_len(xml@) <= usize::MAX,
    ensures
        match r {
            Ok((a, b)) => link_range_of(xml@, link_name@) matches Ok(span) && byte_span(
                xml@,
                span,
            ) == (a as nat, b as nat),
            Err(e) => link_range_of(xml@, link_name@) == Err::<(nat, nat), UrdfError>(e),
        },
{
    let s = chars_of(xml);
    let n = chars_of(link_name);
    match link_range_chars(&s, &n) {
        Err(e) => Err(e),
        Ok((a, b)) => Ok((byte_offset(&s, a), byte_offset(&s, b))),
    }
}

fn inertial_range_chars(t: &Vec<char>) -> (r: Result<Option<(usize, usize)>, UrdfError>)
    ensures
        match r {
            Ok(Some((a, b))) => a <= b <= t@.len() && inertial_range_of(t@) == Ok::<
                Option<(nat, nat)>,
                UrdfError,
            >(Some((a as nat, b as nat))),
            Ok(None) => inertial_range_of(t@) == Ok::<Option<(nat, nat)>, UrdfError>(None),
            Err(e) => inertial_range_of(t@) == Err::<Option<(nat, nat)>, UrdfError>(e),
        },
{
    let open = lit_inertial_open();
    let a = match find_chars(t, &open) {
        None => return Ok(None),
        Some(a) => a,
    };
    let close = lit_inertial_close();
    match find_chars_from(t, &close, a) {
        None => Err(UrdfError::InertialNotClosed),
        Some(e) => {
            proof {
                lemma_find_from_spec(t@, pat_inertial_close(), a as nat);
            }
            Ok(Some((a, e + close.len())))
        },
    }
}

/// The byte span of the first inertial block of `link_text`, if any.
pub fn inertial_range(link_text: &str) -> (r: Result<Option<(usize, usize)>, UrdfError>)
    requires
        utf8_len(link_text@) <= usize::MAX,
    ensures
        match r {
            Ok(Some((a, b))) => inertial_range_of(link_text@) matches Ok(Some(span))
                && byte_span(link_text@, span) == (a as nat, b as nat),
            Ok(None) => inertial_range_of(link_text@) == Ok::<Option<(nat, nat)>, UrdfError>(
                None,
            ),
            Err(e) => inertial_range_of(link_text@) == Err::<Option<(nat, nat)>, UrdfError>(e),
        },
{
    let t = chars_of(link_text);
    match inertial_range_chars(&t) {
        Err(e) => Err(e),
        Ok(None) => Ok(None),
        Ok(Some((a, b))) => Ok(Some((byte_offset(&t, a), byte_offset(&t, b)))),
    }
}

/// The text from the start of the line holding byte offset `pos` up to
/// `pos`, which must be a char boundary.
pub fn leading_indent(text: &str, pos: usize) -> (r: String)
    requires
        is_char_boundary(text@, pos as nat),
    ensures
        r@ == leading_indent_of(text@, char_of_byte(text@, pos as nat)),
{
    let t = chars_of(text);
    let c = char_offset(&t, pos);
    leading_indent_at(text, c)
}

/// The text from the start of the line holding char offset `pos` up to
/// `pos`.
fn leading_indent_at(text: &str, pos: usize) -> (r: String)
    requires
        pos <= text@.len(),
    ensures
        r@ == leading_indent_of(text@, pos as nat),
{
    let t = chars_of(text);
    let ls = match rfind_chars_before(&t, &one_char('\n'), pos) {
        Some(i) => {
            proof {
                lemma_rfind_spec(t@, seq!['\n'], pos - 1);
            }
            i + 1
        },
        None => 0,
    };
    substring(text, ls, pos)
}

/// `xml` with the inertial block of link `link_name` cut out; `xml` itself
/// when the link has no inertial block.
pub fn remove_link_inertial(xml: &str, link_name: &str) -> (r: Result<String, UrdfError>)
    ensures
        match r {
            Ok(t) => remove_link_inertial_of(xml@, link_name@) == Ok::<Seq<char>, UrdfError>(
                t@,
            ),
            Err(e) => remove_link_inertial_of(xml@, link_name@) == Err::<Seq<char>, UrdfError>(
                e,
            ),
        },
{
    let s = chars_of(xml);
    let n = chars_of(link_name);
    let (ls, le) = match link_range_chars(&s, &n) {
        Err(e) => return Err(e),
        Ok(p) => p,
    };
    let link_text = substring(xml, ls, le);
    let lt = chars_of(link_text.as_str());
    match inertial_range_chars(&lt) {
        Err(e) => Err(e),
        Ok(None) => Ok(xml.to_owned()),
        Ok(Some((a, b))) => {
            let head = substring(xml, 0, ls + a);
            let tail = suffix_from(xml, ls + b);
            Ok(concat2(head.as_str(), tail.as_str()))
        },
    }
}

/// `xml` with `xml[start..end]` replaced by `text`; `start` and `end` are
/// byte offsets at char boundaries.
pub fn splice(xml: &str, start: usize, end: usize, text: &str) -> (r: String)
    requires
        start <= end,
        is_char_boundary(xml@, start as nat),
        is_char_boundary(xml@, end as nat),
    ensures
        r@ == xml@.take(char_of_byte(xml@, start as nat) as int) + text@ + xml@.skip(
            char_of_byte(xml@, end as nat) as int,
        ),
{
    let s = chars_of(xml);
    let a = char_offset(&s, start);
    let b = char_offset(&s, end);
    proof {
        if b < a {
            lemma_byte_pos_grows(s@, b as nat, a as nat);
        }
    }
    let head = substring(xml, 0, a);
    let tail = suffix_from(xml, b);
    concat3(head.as_str(), text, tail.as_str())
}

/// Where the inertial block of link `link_name` sits, with the indent of its
/// line and the `rpy` of its `<origin` (`0 0 0` when it has none): what a
/// replacement block keeps of the old one. Its start and end are byte
/// offsets at char boundaries.
pub fn inertial_site(xml: &str, link_name: &str) -> (r: Result<InertialSite, UrdfError>)
    requires
        utf8_len(xml@) <= usize::MAX,
    ensures
        match r {
            Ok(site) => {
                &&& link_range_of(xml@, link_name@) matches Ok((ls, le))
                &&& inertial_range_of(xml@.subrange(ls as int, le as int)) matches Ok(
                    Some((a, b)),
                )
                &&& site.start == byte_pos(xml@, ls + a)
                &&& site.end == byte_pos(xml@, ls + b)
                &&& ls + a <= ls + b <= xml@.len()
                &&& site.start <= site.end
                &&& is_char_boundary(xml@, site.start as nat)
                &&& is_char_boundary(xml@, site.end as nat)
                &&& site.indent@ == leading_indent_of(
                    xml@.subrange(ls as int, le as int),
                    a,
                )
                &&& site.rpy@ == match tag_text_of(
                    xml@.subrange((ls + a) as int, (ls + b) as int),
                    word_origin(),
                ) {
                    Some(t) => match attr_value_of(t, word_rpy()) {
                        Some(v) => v,
                        None => default_rpy(),
                    },
                    None => default_rpy(),
                }
            },
            Err(e) => match link_range_of(xml@, link_name@) {
                Err(e2) => e == e2,
                Ok((ls, le)) => match inertial_range_of(xml@.subrange(ls as int, le as int)) {
                    Err(e2) => e == e2,
                    Ok(None) => e == UrdfError::NoInertial,
                    Ok(Some(_)) => false,
                },
            },
        },
{
    let s = chars_of(xml);
    let n = chars_of(link_name);
    let (ls, le) = match link_range_chars(&s, &n) {
        Err(e) => return Err(e),
        Ok(p) => p,
    };
    let link_text = substring(xml, ls, le);
    let lt = chars_of(link_text.as_str());
    let (a, b) = match inertial_range_chars(&lt) {
        Err(e) => return Err(e),
        Ok(None) => return Err(UrdfError::NoInertial),
        Ok(Some(p)) => p,
    };
    let block = substring(xml, ls + a, ls + b);
    assert(block@ =~= xml@.subrange(ls + a, ls + b));
    let rpy = match tag_text(block.as_str(), "origin") {
        Some(t) => match attr_value(t.as_str(), "rpy") {
            Some(v) => v,
            None => string_of(&vec!['0', ' ', '0', ' ', '0']),
        },
        None => string_of(&vec!['0', ' ', '0', ' ', '0']),
    };
    proof {
        reveal_strlit("origin");
        reveal_strlit("rpy");
        assert("origin"@ =~= word_origin());
        assert("rpy"@ =~= word_rpy());
    }
    let indent = leading_indent_at(link_text.as_str(), a);
    let start = byte_offset(&s, ls + a);
    let end = byte_offset(&s, ls + b);
    proof {
        lemma_char_of_byte(s@, start as nat, (ls + a) as nat);
        lemma_char_of_byte(s@, end as nat, (ls + b) as nat);
        lemma_byte_pos_grows(s@, (ls + a) as nat, (ls + b) as nat);
    }
    Ok(InertialSite { start, end, indent, rpy })
}

fn word_child_chars() -> (r: Vec<char>)
    ensures
        r@ == word_child(),
{
    vec!['c', 'h', 'i', 'l', 'd']
}

fn word_parent_chars() -> (r: Vec<char>)
    ensures
        r@ == word_parent(),
{
    vec!['p', 'a', 'r', 'e', 'n', 't']
}

fn word_link_chars() -> (r: Vec<char>)
    ensures
        r@ == word_link(),
{
    vec!['l', 'i', 'n', 'k']
}

fn word_joint_chars() -> (r: Vec<char>)
    ensures
        r@ == word_joint(),
{
    vec!['j', 'o', 'i', 'n', 't']
}

fn word_type_chars() -> (r: Vec<char>)
    ensures
        r@ == word_type(),
{
    vec!['t', 'y', 'p', 'e']
}

fn word_fixed_chars() -> (r: Vec<char>)
    ensures
        r@ == word_fixed(),
{
    vec!['f', 'i', 'x', 'e', 'd']
}

fn word_end_link_chars() -> (r: Vec<char>)
    ensures
        r@ == word_end_link(),
{
    vec!['e', 'n', 'd', '_', 'l', 'i', 'n', 'k']
}

/// The value of attribute `attr` of the first `<tag` in `j`, as chars.
fn tag_attr_chars(j: &Vec<char>, tag: &Vec<char>, attr: &Vec<char>) -> (r: Option<Vec<char>>)
    ensures
        match r {
            Some(v) => tag_text_of(j@, tag@) matches Some(t) && attr_value_of(t, attr@) == Some(
                v@,
            ),
            None => match tag_text_of(j@, tag@) {
                None => true,
                Some(t) => attr_value_of(t, attr@) is None,
            },
        },
{
    match tag_text_chars(j, tag) {
        None => None,
        Some((a, b)) => {
            let t = slice_chars(j, a, b);
            match attr_value_chars(&t, attr) {
                None => None,
                Some((x, y)) => Some(slice_chars(&t, x, y)),
            }
        },
    }
}

/// `s[a..b]` as chars.
fn slice_chars(s: &Vec<char>, a: usize, b: usize) -> (r: Vec<char>)
    requires
        a <= b <= s@.len(),
    ensures
        r@ == s@.subrange(a as int, b as int),
{
    let mut r: Vec<char> = Vec::new();
    let mut i = a;
    while i < b
        invariant
            a <= i <= b <= s@.len(),
            r@ == s@.subrange(a as int, i as int),
        decreases b - i,
    {
        r.push(s[i]);
        assert(s@.subrange(a as int, i + 1) =~= s@.subrange(a as int, i as int).push(s@[i as int]));
        i = i + 1;
    }
    r
}

/// The `link` of the first `<child` tag of a joint block.
pub fn child_link_from_joint_text(joint_text: &str) -> (r: Option<String>)
    ensures
        opt_text(r) == child_link_of(joint_text@),
{
    let j = chars_of(joint_text);
    match tag_attr_chars(&j, &word_child_chars(), &word_link_chars()) {
        None => None,
        Some(v) => Some(string_of(&v)),
    }
}

/// The `link` of the first `<parent` tag of a joint block.
pub fn parent_link_from_joint_text(joint_text: &str) -> (r: Option<String>)
    ensures
        opt_text(r) == parent_link_of(joint_text@),
{
    let j = chars_of(joint_text);
    match tag_attr_chars(&j, &word_parent_chars(), &word_link_chars()) {
        None => None,
        Some(v) => Some(string_of(&v)),
    }
}

fn is_fixed_joint_chars(j: &Vec<char>) -> (r: bool)
    ensures
        r == is_fixed_joint(j@),
{
    match tag_attr_chars(j, &word_joint_chars(), &word_type_chars()) {
        None => false,
        Some(v) => chars_eq(&v, &word_fixed_chars()),
    }
}

/// The joint blocks of `xml`, `<joint` through `</joint>`, in document order.
pub fn joint_blocks(xml: &str) -> (r: Result<Vec<String>, UrdfError>)
    ensures
        match r {
            Ok(v) => joint_blocks_from(xml@, 0) == Some(texts(v@)),
            Err(e) => e == UrdfError::JointNotClosed && joint_blocks_from(xml@, 0) is None,
        },
{
    let s = chars_of(xml);
    let open = lit_joint_open();
    let close = lit_joint_close();
    let mut blocks: Vec<String> = Vec::new();
    let mut offset: usize = 0;
    loop
        invariant
            s@ == xml@,
            open@ == pat_joint_open(),
            close@ == pat_joint_close(),
            offset <= s@.len(),
            joint_blocks_from(xml@, 0) == match joint_blocks_from(xml@, offset as nat) {
                None => None,
                Some(rest) => Some(texts(blocks@) + rest),
            },
        decreases s@.len() - offset,
    {
        let st = match find_chars_from(&s, &open, offset) {
            None => {
                assert(texts(blocks@) + Seq::<Seq<char>>::empty() =~= texts(blocks@));
                return Ok(blocks);
            },
            Some(st) => st,
        };
        let e = match find_chars_from(&s, &close, st) {
            None => return Err(UrdfError::JointNotClosed),
            Some(e) => e,
        };
        let end = e + close.len();
        let block = substring(xml, st, end);
        let ghost old_blocks = texts(blocks@);
        blocks.push(block);
        proof {
            assert(texts(blocks@) =~= old_blocks.push(block@));
            match joint_blocks_from(xml@, end as nat) {
                None => {},
                Some(rest) => {
                    assert(old_blocks + (seq![block@] + rest) =~= texts(blocks@) + rest);
                },
            }
        }
        offset = end;
    }
}

/// The child links of the joints of `xml` that are not fixed.
pub fn movable_joint_child_links(xml: &str) -> (r: Result<Vec<String>, UrdfError>)
    ensures
        match r {
            Ok(v) => joint_blocks_from(xml@, 0) matches Some(bs) && texts(v@) == movable_children(
                bs,
            ),
            Err(e) => e == UrdfError::JointNotClosed && joint_blocks_from(xml@, 0) is None,
        },
{
    let blocks = joint_blocks(xml)?;
    let ghost bs = texts(blocks@);
    let mut links: Vec<String> = Vec::new();
    let mut i: usize = 0;
    while i < blocks.len()
        invariant
            i <= blocks@.len(),
            bs == texts(blocks@),
            texts(links@) == movable_children(bs.take(i as int)),
        decreases blocks@.len() - i,
    {
        let j = chars_of(blocks[i].as_str());
        assert(bs.take(i + 1).drop_last() =~= bs.take(i as int));
        assert(bs.take(i + 1).last() == j@);
        if !is_fixed_joint_chars(&j) {
            match tag_attr_chars(&j, &word_child_chars(), &word_link_chars()) {
                Some(c) => {
                    let ghost old_links = texts(links@);
                    links.push(string_of(&c));
                    assert(texts(links@) =~= old_links.push(c@));
                },
                None => {},
            }
        }
        i = i + 1;
    }
    assert(bs.take(blocks@.len() as int) =~= bs);
    Ok(links)
}

/// Edges (parent, child) as texts.
pub open spec fn edge_texts(v: Seq<(String, String)>) -> Seq<(Seq<char>, Seq<char>)> {
    v.map_values(|e: (String, String)| (e.0@, e.1@))
}

fn fixed_edge_list(blocks: &Vec<String>) -> (r: Vec<(String, String)>)
    ensures
        edge_texts(r@) == fixed_edges(texts(blocks@)),
{
    let ghost bs = texts(blocks@);
    let mut edges: Vec<(String, String)> = Vec::new();
    let mut i: usize = 0;
    while i < blocks.len()
        invariant
            i <= blocks@.len(),
            bs == texts(blocks@),
            edge_texts(edges@) == fixed_edges(bs.take(i as int)),
        decreases blocks@.len() - i,
    {
        let j = chars_of(blocks[i].as_str());
        assert(bs.take(i + 1).drop_last() =~= bs.take(i as int));
        assert(bs.take(i + 1).last() == j@);
        if is_fixed_joint_chars(&j) {
            let p = tag_attr_chars(&j, &word_parent_chars(), &word_link_chars());
            let c = tag_attr_chars(&j, &word_child_chars(), &word_link_chars());
            match (p, c) {
                (Some(p), Some(c)) => {
                    let ghost old_edges = edge_texts(edges@);
                    edges.push((string_of(&p), string_of(&c)));
                    assert(edge_texts(edges@) =~= old_edges.push((p@, c@)));
                },
                _ => {},
            }
        }
        i = i + 1;
    }
    assert(bs.take(blocks@.len() as int) =~= bs);
    edges
}

/// `xml` with the inertial blocks of `link_names` cut out, one after another.
pub fn remove_link_inertials(xml: &str, link_names: &Vec<String>) -> (r: Result<
    String,
    UrdfError,
>)
    ensures
        match r {
            Ok(t) => remove_link_inertials_of(xml@, texts(link_names@)) == Ok::<
                Seq<char>,
                UrdfError,
            >(t@),
            Err(e) => remove_link_inertials_of(xml@, texts(link_names@)) == Err::<
                Seq<char>,
                UrdfError,
            >(e),
        },
{
    let ghost names = texts(link_names@);
    let mut out = xml.to_owned();
    let mut i: usize = 0;
    assert(names.take(0) =~= Seq::<Seq<char>>::empty());
    while i < link_names.len()
        invariant
            i <= link_names@.len(),
            names == texts(link_names@),
            remove_link_inertials_of(xml@, names.take(i as int)) == Ok::<Seq<char>, UrdfError>(
                out@,
            ),
        decreases link_names@.len() - i,
    {
        assert(names.take(i + 1).drop_last() =~= names.take(i as int));
        assert(names.take(i + 1).last() == link_names@[i as int]@);
        match remove_link_inertial(out.as_str(), link_names[i].as_str()) {
            Err(e) => {
                proof {
                    lemma_remove_all_err(xml@, names, (i + 1) as int, e);
                }
                return Err(e);
            },
            Ok(t) => {
                out = t;
            },
        }
        i = i + 1;
    }
    assert(names.take(link_names@.len() as int) =~= names);
    Ok(out)
}

/// An error cutting an early name is the error of cutting all of them.
proof fn lemma_remove_all_err(s: Seq<char>, names: Seq<Seq<char>>, n: int, e: UrdfError)
    requires
        0 <= n <= names.len(),
        remove_link_inertials_of(s, names.take(n)) == Err::<Seq<char>, UrdfError>(e),
    ensures
        remove_link_inertials_of(s, names) == Err::<Seq<char>, UrdfError>(e),
    decreases names.len() - n,
{
    if n < names.len() {
        assert(names.take(n + 1).drop_last() =~= names.take(n));
        lemma_remove_all_err(s, names, n + 1, e);
    } else {
        assert(names.take(n) =~= names);
    }
}

// ------------------------------------------------------------------
// Links below the given ones through fixed joints
// ------------------------------------------------------------------

/// The work list, the links met so far, and the links found, of the search
/// for fixed descendants.
pub struct Walk {
    pub stack: Seq<Seq<char>>,
    pub seen: Seq<Seq<char>>,
    pub out: Seq<Seq<char>>,
}

/// Scan the edges from index `k` for children of `parent` not met yet; each
/// one is met, found and put on the work list.
pub open spec fn expand(
    edges: Seq<(Seq<char>, Seq<char>)>,
    parent: Seq<char>,
    k: nat,
    w: Walk,
) -> Walk
    decreases edges.len() - k,
{
    if k >= edges.len() {
        w
    } else {
        let c = edges[k as int].1;
        let w2 = if edges[k as int].0 != parent || w.seen.contains(c) {
            w
        } else {
            Walk { stack: w.stack.push(c), seen: w.seen.push(c), out: w.out.push(c) }
        };
        expand(edges, parent, k + 1, w2)
    }
}

/// Take the last link off the work list and expand it, `fuel` times at most.
pub open spec fn walk(edges: Seq<(Seq<char>, Seq<char>)>, w: Walk, fuel: nat) -> Seq<Seq<char>>
    decreases fuel,
{
    if fuel == 0 || w.stack.len() == 0 {
        w.out
    } else {
        let parent = w.stack.last();
        let w1 = Walk { stack: w.stack.drop_last(), seen: w.seen, out: w.out };
        walk(edges, expand(edges, parent, 0, w1), (fuel - 1) as nat)
    }
}

/// The links below `parents` through the given fixed edges, each once, none
/// of `parents`, in the order a depth-first walk meets them (the last link
/// put on the work list is expanded first).
pub open spec fn fixed_descendants(
    edges: Seq<(Seq<char>, Seq<char>)>,
    parents: Seq<Seq<char>>,
) -> Seq<Seq<char>> {
    walk(
        edges,
        Walk { stack: parents, seen: parents, out: Seq::empty() },
        parents.len() + edges.len(),
    )
}

/// Number of edges whose child has not been met.
pub open spec fn unseen(edges: Seq<(Seq<char>, Seq<char>)>, seen: Seq<Seq<char>>) -> nat
    decreases edges.len(),
{
    if edges.len() == 0 {
        0
    } else {
        unseen(edges.drop_last(), seen) + if seen.contains(edges.last().1) {
            0nat
        } else {
            1nat
        }
    }
}

proof fn lemma_unseen_bound(edges: Seq<(Seq<char>, Seq<char>)>, seen: Seq<Seq<char>>)
    ensures
        unseen(edges, seen) <= edges.len(),
    decreases edges.len(),
{
    if edges.len() > 0 {
        lemma_unseen_bound(edges.drop_last(), seen);
    }
}

proof fn lemma_unseen_push(
    edges: Seq<(Seq<char>, Seq<char>)>,
    seen: Seq<Seq<char>>,
    c: Seq<char>,
    k: int,
)
    requires
        0 <= k < edges.len(),
        edges[k].1 == c,
        !seen.contains(c),
    ensures
        unseen(edges, seen.push(c)) < unseen(edges, seen),
    decreases edges.len(),
{
    lemma_unseen_mono(edges.drop_last(), seen, c);
    assert(seen.push(c).contains(c)) by {
        assert(seen.push(c)[seen.len() as int] == c);
    }
    if k < edges.len() - 1 {
        assert(edges.drop_last()[k] == edges[k]);
        lemma_unseen_push(edges.drop_last(), seen, c, k);
        if seen.contains(edges.last().1) {
            let i = choose|i: int| 0 <= i < seen.len() && seen[i] == edges.last().1;
            assert(seen.push(c)[i] == edges.last().1);
        }
    }
}

proof fn lemma_unseen_mono(edges: Seq<(Seq<char>, Seq<char>)>, seen: Seq<Seq<char>>, c: Seq<char>)
    ensures
        unseen(edges, seen.push(c)) <= unseen(edges, seen),
    decreases edges.len(),
{
    if edges.len() > 0 {
        lemma_unseen_mono(edges.drop_last(), seen, c);
        if seen.contains(edges.last().1) {
            let i = choose|i: int| 0 <= i < seen.len() && seen[i] == edges.last().1;
            assert(seen.push(c)[i] == edges.last().1);
        }
    }
}

fn contains_text(v: &Vec<String>, x: &str) -> (r: bool)
    ensures
        r == texts(v@).contains(x@),
{
    let mut i: usize = 0;
    while i < v.len()
        invariant
            i <= v@.len(),
            forall|j: int| 0 <= j < i ==> v@[j]@ != x@,
        decreases v@.len() - i,
    {
        if text_eq(v[i].as_str(), x) {
            assert(texts(v@)[i as int] == x@);
            return true;
        }
        i = i + 1;
    }
    assert forall|j: int| 0 <= j < texts(v@).len() implies texts(v@)[j] != x@ by {
        assert(texts(v@)[j] == v@[j]@);
    }
    false
}

fn copy_strings(v: &Vec<String>) -> (r: Vec<String>)
    ensures
        texts(r@) == texts(v@),
{
    let mut r: Vec<String> = Vec::new();
    let mut i: usize = 0;
    while i < v.len()
        invariant
            i <= v@.len(),
            texts(r@) == texts(v@).take(i as int),
        decreases v@.len() - i,
    {
        let ghost old_r = texts(r@);
        r.push(v[i].as_str().to_owned());
        assert(texts(r@) =~= old_r.push(v@[i as int]@));
        assert(texts(v@).take(i + 1) =~= texts(v@).take(i as int).push(v@[i as int]@));
        i = i + 1;
    }
    assert(texts(v@).take(v@.len() as int) =~= texts(v@));
    r
}

fn expand_exec(
    edges: &Vec<(String, String)>,
    parent: &str,
    stack: &mut Vec<String>,
    seen: &mut Vec<String>,
    out: &mut Vec<String>,
)
    ensures
        ({
            let w0 = Walk { stack: texts(old(stack)@), seen: texts(old(seen)@), out: texts(old(out)@) };
            let w1 = expand(edge_texts(edges@), parent@, 0, w0);
            &&& texts(final(stack)@) == w1.stack
            &&& texts(final(seen)@) == w1.seen
            &&& texts(final(out)@) == w1.out
            &&& final(stack)@.len() + unseen(edge_texts(edges@), w1.seen) <= old(stack)@.len()
                + unseen(edge_texts(edges@), w0.seen)
        }),
{
    let ghost es = edge_texts(edges@);
    let ghost w0 = Walk { stack: texts(stack@), seen: texts(seen@), out: texts(out@) };
    let ghost n0 = stack@.len() + unseen(es, w0.seen);
    let mut k: usize = 0;
    while k < edges.len()
        invariant
            k <= edges@.len(),
            es == edge_texts(edges@),
            expand(es, parent@, 0, w0) == expand(
                es,
                parent@,
                k as nat,
                Walk { stack: texts(stack@), seen: texts(seen@), out: texts(out@) },
            ),
            stack@.len() + unseen(es, texts(seen@)) <= n0,
        decreases edges@.len() - k,
    {
        let ghost wk = Walk { stack: texts(stack@), seen: texts(seen@), out: texts(out@) };
        assert(es[k as int] == (edges@[k as int].0@, edges@[k as int].1@));
        let child = edges[k].1.as_str();
        if text_eq(edges[k].0.as_str(), parent) && !contains_text(seen, child) {
            proof {
                lemma_unseen_push(es, wk.seen, child@, k as int);
            }
            stack.push(child.to_owned());
            seen.push(child.to_owned());
            out.push(child.to_owned());
            assert(texts(stack@) =~= wk.stack.push(child@));
            assert(texts(seen@) =~= wk.seen.push(child@));
            assert(texts(out@) =~= wk.out.push(child@));
        }
        k = k + 1;
    }
}

/// The links below `parents` through the fixed joints of `xml`, each once and
/// none of `parents`, in depth-first order.
pub fn fixed_descendant_links(xml: &str, parents: &Vec<String>) -> (r: Result<
    Vec<String>,
    UrdfError,
>)
    ensures
        match r {
            Ok(v) => joint_blocks_from(xml@, 0) matches Some(bs) && texts(v@) == fixed_descendants(
                fixed_edges(bs),
                texts(parents@),
            ),
            Err(e) => e == UrdfError::JointNotClosed && joint_blocks_from(xml@, 0) is None,
        },
{
    let blocks = joint_blocks(xml)?;
    let edges = fixed_edge_list(&blocks);
    let ghost es = edge_texts(edges@);
    let ghost ps = texts(parents@);
    let mut stack = copy_strings(parents);
    let mut seen = copy_strings(parents);
    let mut out: Vec<String> = Vec::new();
    let ghost fuel0: nat = ps.len() + es.len();
    let ghost w_init = Walk { stack: ps, seen: ps, out: Seq::empty() };
    let ghost mut iters: nat = 0;
    proof {
        lemma_unseen_bound(es, ps);
        assert(texts(out@) =~= Seq::<Seq<char>>::empty());
    }
    while stack.len() > 0
        invariant
            es == edge_texts(edges@),
            iters + stack@.len() + unseen(es, texts(seen@)) <= fuel0,
            walk(es, w_init, fuel0) == walk(
                es,
                Walk { stack: texts(stack@), seen: texts(seen@), out: texts(out@) },
                (fuel0 - iters) as nat,
            ),
        decreases stack@.len() + unseen(es, texts(seen@)),
    {
        let ghost wc = Walk { stack: texts(stack@), seen: texts(seen@), out: texts(out@) };
        let parent = stack.pop().unwrap();
        assert(texts(stack@) =~= wc.stack.drop_last());
        assert(parent@ == wc.stack.last());
        expand_exec(&edges, parent.as_str(), &mut stack, &mut seen, &mut out);
        proof {
            iters = iters + 1;
        }
    }
    Ok(out)
}

// ------------------------------------------------------------------
// Elements, attribute values and the end link
// ------------------------------------------------------------------

fn is_tag_delim_exec(c: char) -> (r: bool)
    ensures
        r == is_tag_delim(c),
{
    c == ' ' || c == '\t' || c == '\r' || c == '\n' || c == '/' || c == '>'
}

fn find_element_chars(s: &Vec<char>, element: &Vec<char>) -> (r: Option<usize>)
    ensures
        opt_nat(r) == find_element_from(s@, element@, 0),
        r matches Some(p) ==> p <= s@.len(),
{
    let needle = chars_concat(&one_char('<'), element);
    let mut offset: usize = 0;
    loop
        invariant
            needle@ == seq!['<'] + element@,
            offset <= s@.len(),
            find_element_from(s@, element@, 0) == find_element_from(s@, element@, offset as nat),
        decreases s@.len() - offset,
    {
        let pos = match find_chars_from(s, &needle, offset) {
            None => return None,
            Some(p) => p,
        };
        let nx = pos + needle.len();
        if nx < s.len() && is_tag_delim_exec(s[nx]) {
            return Some(pos);
        }
        offset = nx;
    }
}

/// Position of the first `<element` whose name is followed by white space,
/// `/` or `>`, as a byte offset.
pub fn find_xml_element(source: &str, element: &str) -> (r: Option<usize>)
    requires
        utf8_len(source@) <= usize::MAX,
    ensures
        match r {
            Some(p) => find_element_from(source@, element@, 0) matches Some(c) && p == byte_pos(
                source@,
                c,
            ),
            None => find_element_from(source@, element@, 0) is None,
        },
{
    let s = chars_of(source);
    let e = chars_of(element);
    match find_element_chars(&s, &e) {
        None => None,
        Some(c) => Some(byte_offset(&s, c)),
    }
}

fn end_link_pos_exec(s: &Vec<char>) -> (r: Option<usize>)
    ensures
        opt_nat(r) == end_link_pos(s@),
        r matches Some(p) ==> p <= s@.len(),
{
    let r = name_pos_exec(s, &word_end_link_chars());
    proof {
        lemma_find_from_spec(s@, name_attr_dq(word_end_link()), 0);
        lemma_find_from_spec(s@, name_attr_sq(word_end_link()), 0);
    }
    r
}

/// Whether `xml` names a link `end_link` followed by an inertial block.
pub fn has_end_link_inertial(xml: &str) -> (r: bool)
    ensures
        r == has_end_link_inertial_of(xml@),
{
    let s = chars_of(xml);
    match end_link_pos_exec(&s) {
        None => false,
        Some(p) => find_chars_from(&s, &lit_inertial_open(), p).is_some(),
    }
}

/// The byte span of the inertial block that follows the `end_link` name.
pub fn end_link_inertial_span(xml: &str) -> (r: Result<(usize, usize), UrdfError>)
    requires
        utf8_len(xml@) <= usize::MAX,
    ensures
        match r {
            Ok((a, b)) => end_link_inertial_span_of(xml@) matches Ok(span) && byte_span(
                xml@,
                span,
            ) == (a as nat, b as nat),
            Err(e) => end_link_inertial_span_of(xml@) == Err::<(nat, nat), UrdfError>(e),
        },
{
    let s = chars_of(xml);
    let p = match end_link_pos_exec(&s) {
        None => return Err(UrdfError::EndLinkMissing),
        Some(p) => p,
    };
    let st = match find_chars_from(&s, &lit_inertial_open(), p) {
        None => return Err(UrdfError::EndLinkNoInertial),
        Some(st) => st,
    };
    let g = match find_chars_from(&s, &one_char('>'), st) {
        None => return Err(UrdfError::EndLinkInertialMalformed),
        Some(g) => g,
    };
    let close = lit_inertial_close();
    match find_chars_from(&s, &close, g + 1) {
        None => Err(UrdfError::EndLinkInertialNotClosed),
        Some(e) => {
            proof {
                lemma_find_from_spec(s@, pat_inertial_close(), (g + 1) as nat);
            }
            Ok((byte_offset(&s, st), byte_offset(&s, e + close.len())))
        },
    }
}

/// The span of the value of `attr` in the first `<element` tag of `source`:
/// the part of the text that holds the number to rewrite, as byte offsets.
pub fn attr_value_span(source: &str, element: &str, attr: &str) -> (r: Result<
    (usize, usize),
    UrdfError,
>)
    requires
        utf8_len(source@) <= usize::MAX,
    ensures
        match r {
            Ok((a, b)) => attr_value_span_of(source@, element@, attr@) matches Ok(span) && byte_span(
                source@,
                span,
            ) == (a as nat, b as nat),
            Err(e) => attr_value_span_of(source@, element@, attr@) == Err::<(nat, nat), UrdfError>(
                e,
            ),
        },
{
    let s = chars_of(source);
    let el = chars_of(element);
    let at = chars_of(attr);
    let es = match find_element_chars(&s, &el) {
        None => return Err(UrdfError::ElementMissing),
        Some(p) => p,
    };
    let ee = match find_chars_from(&s, &one_char('>'), es) {
        None => return Err(UrdfError::TagMalformed),
        Some(p) => p,
    };
    let tag = slice_chars(&s, es, ee);
    let (o, q) = match attr_value_start_exec(&tag, &at) {
        None => return Err(UrdfError::AttrMissing),
        Some(x) => x,
    };
    match find_chars_from(&s, &one_char(q), es + o) {
        None => Err(UrdfError::QuoteNotClosed),
        Some(ve) => {
            proof {
                lemma_find_from_spec(s@, seq![q], (es + o) as nat);
            }
            Ok((byte_offset(&s, es + o), byte_offset(&s, ve)))
        },
    }
}

/// Why identified parameters cannot be written into a model.
#[derive(Debug, Clone, Copy, PartialEq, Eq, Structural)]
pub enum DynamicParamError {
    /// The parameter vector is not made of blocks of 10.
    NotBlocksOfTen,
    /// The model's moving links are not as many as the blocks.
    LinkCountMismatch,
}

/// The number of 10-parameter blocks in `param_len` parameters, one per
/// moving link of the model.
pub fn dynamic_blocks(param_len: usize, link_count: usize) -> (r: Result<usize, DynamicParamError>)
    ensures
        match r {
            Ok(b) => param_len % 10 == 0 && b == param_len / 10 && link_count == b,
            Err(DynamicParamError::NotBlocksOfTen) => param_len % 10 != 0,
            Err(DynamicParamError::LinkCountMismatch) => param_len % 10 == 0 && link_count
                != param_len / 10,
        },
{
    if param_len % 10 != 0 {
        return Err(DynamicParamError::NotBlocksOfTen);
    }
    let blocks = param_len / 10;
    if link_count != blocks {
        return Err(DynamicParamError::LinkCountMismatch);
    }
    Ok(blocks)
}

/// What an identification run fits.
#[derive(Debug, Clone, Copy, PartialEq, Eq, Structural)]
pub enum FitMode {
    /// All dynamic parameters of the arm.
    Full,
    /// The identifiable base parameters.
    Base,
    /// The payload link's parameters, the arm held fixed.
    Payload,
}

/// The fit a mode name asks for: `full`, `base` or `payload`.
pub open spec fn fit_mode_of(name: Seq<char>) -> Option<FitMode> {
    if name == "full"@ {
        Some(FitMode::Full)
    } else if name == "base"@ {
        Some(FitMode::Base)
    } else if name == "payload"@ {
        Some(FitMode::Payload)
    } else {
        None
    }
}

/// The fit a mode name asks for.
pub fn fit_mode(name: &str) -> (r: Option<FitMode>)
    ensures
        r == fit_mode_of(name@),
{
    if text_eq(name, "full") {
        Some(FitMode::Full)
    } else if text_eq(name, "base") {
        Some(FitMode::Base)
    } else if text_eq(name, "payload") {
        Some(FitMode::Payload)
    } else {
        None
    }
}

/// Whether a fit's result can be written into a model file: base
/// parameters do not determine the links' inertia.
pub fn fit_writes_model(mode: FitMode) -> (r: bool)
    ensures
        r == (mode != FitMode::Base),
{
    mode != FitMode::Base
}

/// Why a payload fit cannot be set up.
#[derive(Debug, Clone, Copy, PartialEq, Eq, Structural)]
pub enum PayloadError {
    /// Only 4 (mass and first moments) or 10 (full inertia) parameters can be fit.
    BadParameterCount,
}

/// The indices, within one inertial parameter block, of the parameters a
/// payload fit estimates: the first 4 for a count of 4, all 10 for 10.
pub fn payload_indices(count: usize) -> (r: Result<Vec<usize>, PayloadError>)
    ensures
        match r {
            Ok(v) => (count == 4 || count == 10) && v@.len() == count && forall|i: int|
                0 <= i < count ==> v@[i] == i,
            Err(e) => count != 4 && count != 10 && e == PayloadError::BadParameterCount,
        },
{
    if count != 4 && count != 10 {
        return Err(PayloadError::BadParameterCount);
    }
    let mut v: Vec<usize> = Vec::new();
    let mut i: usize = 0;
    while i < count
        invariant
            i <= count,
            v@.len() == i,
            forall|j: int| 0 <= j < i ==> v@[j] == j,
        decreases count - i,
    {
        v.push(i);
        i = i + 1;
    }
    Ok(v)
}

/// What the walk keeps: the met links are the starting ones followed by the
/// found ones.
pub open spec fn walk_inv(w: Walk, parents: Seq<Seq<char>>) -> bool {
    w.seen == parents + w.out
}

proof fn lemma_expand_inv(
    edges: Seq<(Seq<char>, Seq<char>)>,
    parent: Seq<char>,
    k: nat,
    w: Walk,
    parents: Seq<Seq<char>>,
)
    requires
        walk_inv(w, parents),
        w.out.no_duplicates(),
        forall|i: int| 0 <= i < w.out.len() ==> !parents.contains(#[trigger] w.out[i]),
    ensures
        walk_inv(expand(edges, parent, k, w), parents),
        expand(edges, parent, k, w).out.no_duplicates(),
        forall|i: int|
            0 <= i < expand(edges, parent, k, w).out.len() ==> !parents.contains(
                #[trigger] expand(edges, parent, k, w).out[i],
            ),
    decreases edges.len() - k,
{
    if k < edges.len() {
        let c = edges[k as int].1;
        if edges[k as int].0 != parent || w.seen.contains(c) {
            lemma_expand_inv(edges, parent, k + 1, w, parents);
        } else {
            let w2 = Walk { stack: w.stack.push(c), seen: w.seen.push(c), out: w.out.push(c) };
            assert(w2.seen =~= parents + w2.out);
            assert(!parents.contains(c)) by {
                if parents.contains(c) {
                    let i = choose|i: int| 0 <= i < parents.len() && parents[i] == c;
                    assert(w.seen[i] == c);
                }
            }
            assert(!w.out.contains(c)) by {
                if w.out.contains(c) {
                    let i = choose|i: int| 0 <= i < w.out.len() && w.out[i] == c;
                    assert(w.seen[parents.len() + i] == c);
                }
            }
            assert(w2.out.no_duplicates()) by {
                assert forall|a: int, b: int| 0 <= a < b < w2.out.len() implies w2.out[a]
                    != w2.out[b] by {
                    if b == w.out.len() {
                        assert(w.out[a] == w2.out[a]);
                    } else {
                        assert(w.out[a] == w2.out[a] && w.out[b] == w2.out[b]);
                    }
                }
            }
            assert forall|i: int| 0 <= i < w2.out.len() implies !parents.contains(
                #[trigger] w2.out[i],
            ) by {
                if i < w.out.len() {
                    assert(w2.out[i] == w.out[i]);
                }
            }
            lemma_expand_inv(edges, parent, k + 1, w2, parents);
        }
    }
}

proof fn lemma_walk_inv(
    edges: Seq<(Seq<char>, Seq<char>)>,
    w: Walk,
    fuel: nat,
    parents: Seq<Seq<char>>,
)
    requires
        walk_inv(w, parents),
        w.out.no_duplicates(),
        forall|i: int| 0 <= i < w.out.len() ==> !parents.contains(#[trigger] w.out[i]),
    ensures
        walk(edges, w, fuel).no_duplicates(),
        forall|i: int|
            0 <= i < walk(edges, w, fuel).len() ==> !parents.contains(
                #[trigger] walk(edges, w, fuel)[i],
            ),
    decreases fuel,
{
    if fuel == 0 || w.stack.len() == 0 {
    } else {
        let parent = w.stack.last();
        let w1 = Walk { stack: w.stack.drop_last(), seen: w.seen, out: w.out };
        lemma_expand_inv(edges, parent, 0, w1, parents);
        lemma_walk_inv(edges, expand(edges, parent, 0, w1), (fuel - 1) as nat, parents);
    }
}

/// The links found below the given ones through fixed joints are each
/// reported once, and none of them is one of the given links.
pub proof fn lemma_fixed_descendants_distinct(
    edges: Seq<(Seq<char>, Seq<char>)>,
    parents: Seq<Seq<char>>,
)
    ensures
        fixed_descendants(edges, parents).no_duplicates(),
        forall|i: int|
            0 <= i < fixed_descendants(edges, parents).len() ==> !parents.contains(
                #[trigger] fixed_descendants(edges, parents)[i],
            ),
{
    let w = Walk { stack: parents, seen: parents, out: Seq::empty() };
    assert(w.seen =~= parents + w.out);
    lemma_walk_inv(edges, w, parents.len() + edges.len(), parents);
}

} // verus!
