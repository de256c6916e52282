//! Reading back the identification result file: `key: value` lookups,
//! quoted strings, switches and the text of number lists.
use vstd::prelude::*;
use crate::joint_file::unquote_pair;
use crate::text::{
    ascii_lower_text, chars_concat, chars_of, concat2, concat3, contains_char, lines, lines_of,
    starts_with, starts_with_chars, string_of, suffix_from, text_eq, texts, to_ascii_lowercase,
    trim, trim_text,
};

verus! {

// ------------------------------------------------------------------
// Models
// ------------------------------------------------------------------

/// `text` trimmed and stripped of one pair of surrounding quotes.
pub open spec fn unquote_of(text: Seq<char>) -> Seq<char> {
    unquote_pair(trim(text))
}

/// The value of `key`, looking from line `i` on: the trimmed rest of the
/// first line that, trimmed, begins with `key:`.
pub open spec fn yaml_value_from(ls: Seq<Seq<char>>, key: Seq<char>, i: int) -> Option<Seq<char>>
    decreases ls.len() - i,
{
    if i < 0 || i >= ls.len() {
        None
    } else if starts_with(trim(ls[i]), key.push(':')) {
        Some(trim(trim(ls[i]).skip(key.len() + 1int)))
    } else {
        yaml_value_from(ls, key, i + 1)
    }
}

/// The value of `key` in `yaml`.
pub open spec fn yaml_value_of(yaml: Seq<char>, key: Seq<char>) -> Option<Seq<char>> {
    yaml_value_from(lines_of(yaml), key, 0)
}

/// A value that switches something on.
pub open spec fn is_on_word(v: Seq<char>) -> bool {
    v == "true"@ || v == "1"@ || v == "yes"@ || v == "on"@
}

/// The scan for a list's text: whether the list has begun, what has been
/// gathered, and whether the scan is over.
pub struct ListScan {
    pub in_block: bool,
    pub body: Seq<char>,
    pub done: bool,
}

/// One line of the scan for the list under `key`: the key line starts it
/// (an inline `[…` is taken as is); then `- item` lines and lines with
/// brackets or commas are added after a space, until a `]` has been gathered
/// or an unrelated line follows gathered text.
pub open spec fn list_step(st: ListScan, key: Seq<char>, line: Seq<char>) -> ListScan {
    let stripped = trim(line);
    let prefix = key.push(':');
    if st.done {
        st
    } else if !st.in_block {
        if starts_with(stripped, prefix) {
            let tail = trim(stripped.skip(prefix.len() as int));
            if tail.contains('[') {
                let body = st.body + tail;
                if tail.contains(']') {
                    ListScan { in_block: st.in_block, body, done: true }
                } else {
                    ListScan { in_block: true, body, done: false }
                }
            } else {
                ListScan { in_block: true, ..st }
            }
        } else {
            st
        }
    } else if st.body.contains(']') {
        ListScan { done: true, ..st }
    } else if starts_with(stripped, seq!['-', ' ']) {
        ListScan { body: st.body + seq![' '] + stripped.skip(2), ..st }
    } else if stripped.contains(']') || stripped.contains('[') || stripped.contains(',') {
        ListScan { body: st.body + seq![' '] + stripped, ..st }
    } else if st.body.len() > 0 {
        ListScan { done: true, ..st }
    } else {
        st
    }
}

/// The scan over the lines in order.
pub open spec fn list_scan(ls: Seq<Seq<char>>, key: Seq<char>) -> ListScan
    decreases ls.len(),
{
    if ls.len() == 0 {
        ListScan { in_block: false, body: Seq::empty(), done: false }
    } else {
        list_step(list_scan(ls.drop_last(), key), key, ls.last())
    }
}

/// The text of the list under `key`.
pub open spec fn list_body_of(yaml: Seq<char>, key: Seq<char>) -> Seq<char> {
    list_scan(lines_of(yaml), key).body
}

// ------------------------------------------------------------------
// Executable functions
// ------------------------------------------------------------------

/// `text` trimmed and stripped of one pair of surrounding quotes.
pub fn unquote(text: &str) -> (r: String)
    ensures
        r@ == unquote_of(text@),
{
    let t = trim_text(text);
    let c = chars_of(t.as_str());
    let n = c.len();
    if n >= 2 && ((c[0] == '"' && c[n - 1] == '"') || (c[0] == '\'' && c[n - 1] == '\'')) {
        crate::text::substring(t.as_str(), 1, n - 1)
    } else {
        t
    }
}

/// The value of `key`: the trimmed rest of the first line that, trimmed,
/// begins with `key:`.
pub fn yaml_value(yaml: &str, key: &str) -> (r: Option<String>)
    ensures
        crate::text::opt_text(r) == yaml_value_of(yaml@, key@),
{
    let ls = lines(yaml);
    let ghost lv = texts(ls@);
    let prefix = chars_concat(&chars_of(key), &vec![':']);
    assert(prefix@ =~= key@.push(':'));
    let mut i: usize = 0;
    while i < ls.len()
        invariant
            i <= ls@.len(),
            lv == texts(ls@),
            lv == lines_of(yaml@),
            prefix@ == key@.push(':'),
            yaml_value_of(yaml@, key@) == yaml_value_from(lv, key@, i as int),
        decreases ls@.len() - i,
    {
        assert(lv[i as int] == ls@[i as int]@);
        let stripped = trim_text(ls[i].as_str());
        let sc = chars_of(stripped.as_str());
        if starts_with_chars(&sc, &prefix) {
            return Some(trim_text(suffix_from(stripped.as_str(), prefix.len()).as_str()));
        }
        i = i + 1;
    }
    None
}

/// The value of `key`, unquoted, else `default`.
pub fn yaml_string(yaml: &str, key: &str, default: &str) -> (r: String)
    ensures
        r@ == match yaml_value_of(yaml@, key@) {
            Some(v) => unquote_of(v),
            None => default@,
        },
{
    match yaml_value(yaml, key) {
        Some(v) => unquote(v.as_str()),
        None => default.to_owned(),
    }
}

/// The value of `key` as a switch (`true`, `1`, `yes`, `on`, in any ASCII
/// case), else `default`.
pub fn yaml_bool(yaml: &str, key: &str, default: bool) -> (r: bool)
    ensures
        r == match yaml_value_of(yaml@, key@) {
            Some(v) => is_on_word(ascii_lower_text(trim(v))),
            None => default,
        },
{
    match yaml_value(yaml, key) {
        Some(v) => {
            let t = trim_text(v.as_str());
            let l = string_of(&to_ascii_lowercase(t.as_str()));
            text_eq(l.as_str(), "true") || text_eq(l.as_str(), "1") || text_eq(l.as_str(), "yes")
                || text_eq(l.as_str(), "on")
        },
        None => default,
    }
}

/// The text of the list under `key`, written inline (`key: [a, b]`), over
/// several bracketed lines, or as `- item` lines; the numbers in it are read
/// by the caller.
pub fn yaml_list_body(yaml: &str, key: &str) -> (r: String)
    ensures
        r@ == list_body_of(yaml@, key@),
{
    let ls = lines(yaml);
    let ghost lv = texts(ls@);
    let prefix = chars_concat(&chars_of(key), &vec![':']);
    assert(prefix@ =~= key@.push(':'));
    let dash = vec!['-', ' '];
    assert(dash@ =~= seq!['-', ' ']);
    let mut in_block = false;
    let mut body = String::new();
    let mut done = false;
    let mut i: usize = 0;
    assert(lv.take(0) =~= Seq::<Seq<char>>::empty());
    while i < ls.len()
        invariant
            i <= ls@.len(),
            lv == texts(ls@),
            lv == lines_of(yaml@),
            prefix@ == key@.push(':'),
            dash@ == seq!['-', ' '],
            list_scan(lv.take(i as int), key@) == (ListScan { in_block, body: body@, done }),
        decreases ls@.len() - i,
    {
        assert(lv.take(i + 1).drop_last() =~= lv.take(i as int));
        assert(lv.take(i + 1).last() == ls@[i as int]@);
        if !done {
            let stripped = trim_text(ls[i].as_str());
            let sc = chars_of(stripped.as_str());
            if !in_block {
                if starts_with_chars(&sc, &prefix) {
                    let tail = trim_text(suffix_from(stripped.as_str(), prefix.len()).as_str());
                    let tc = chars_of(tail.as_str());
                    if contains_char(&tc, '[') {
                        body = concat2(body.as_str(), tail.as_str());
                        if contains_char(&tc, ']') {
                            done = true;
                        } else {
                            in_block = true;
                        }
                    } else {
                        in_block = true;
                    }
                }
            } else {
                let bc = chars_of(body.as_str());
                if contains_char(&bc, ']') {
                    done = true;
                } else if starts_with_chars(&sc, &dash) {
                    let item = suffix_from(stripped.as_str(), 2);
                    proof {
                        reveal_strlit(" ");
                        assert(" "@ =~= seq![' ']);
                    }
                    body = concat3(body.as_str(), " ", item.as_str());
                } else if contains_char(&sc, ']') || contains_char(&sc, '[') || contains_char(
                    &sc,
                    ',',
                ) {
                    proof {
                        reveal_strlit(" ");
                        assert(" "@ =~= seq![' ']);
                    }
                    body = concat3(body.as_str(), " ", stripped.as_str());
                } else if bc.len() > 0 {
                    done = true;
                }
            }
        }
        i = i + 1;
    }
    assert(lv.take(ls@.len() as int) =~= lv);
    body
}

} // verus!
