//! Character-level text primitives shared by the parsers of this crate.
//!
//! Text is modelled as `Seq<char>` (the view of `str` and `String`); every
//! executable helper here is tied to a spec function over that model.
use vstd::prelude::*;
use vstd::string::*;

verus! {

// ------------------------------------------------------------------
// Models
// ------------------------------------------------------------------

/// `pat` occurs in `s` starting at index `i`.
pub open spec fn occurs_at(s: Seq<char>, pat: Seq<char>, i: int) -> bool {
    0 <= i && i + pat.len() <= s.len() && s.subrange(i, i + pat.len()) == pat
}

/// Index of the first occurrence of `pat` in `s` at or after `from`.
pub open spec fn find_from(s: Seq<char>, pat: Seq<char>, from: nat) -> Option<nat>
    decreases s.len() + 1 - from,
{
    if from + pat.len() > s.len() {
        None
    } else if occurs_at(s, pat, from as int) {
        Some(from)
    } else {
        find_from(s, pat, from + 1)
    }
}

/// Index of the first occurrence of `pat` in `s`.
pub open spec fn find(s: Seq<char>, pat: Seq<char>) -> Option<nat> {
    find_from(s, pat, 0)
}

/// Index of the last occurrence of `pat` that starts at or before `i`.
pub open spec fn rfind_at_or_before(s: Seq<char>, pat: Seq<char>, i: int) -> Option<nat>
    decreases i + 1,
{
    if i < 0 {
        None
    } else if occurs_at(s, pat, i) {
        Some(i as nat)
    } else {
        rfind_at_or_before(s, pat, i - 1)
    }
}

/// Index of the last occurrence of `pat` lying entirely inside `s[..end]`.
pub open spec fn rfind_before(s: Seq<char>, pat: Seq<char>, end: nat) -> Option<nat> {
    rfind_at_or_before(s, pat, end - pat.len())
}

/// `s` begins with `pat`.
pub open spec fn starts_with(s: Seq<char>, pat: Seq<char>) -> bool {
    occurs_at(s, pat, 0)
}

/// `s` ends with `pat`.
pub open spec fn ends_with(s: Seq<char>, pat: Seq<char>) -> bool {
    pat.len() <= s.len() && occurs_at(s, pat, s.len() - pat.len())
}

/// Unicode `White_Space`, the set that `char::is_whitespace` and `str::trim` use.
pub open spec fn is_ws(c: char) -> bool {
    let u = c as u32;
    (0x9 <= u && u <= 0xD) || u == 0x20 || u == 0x85 || u == 0xA0 || u == 0x1680 || (0x2000 <= u
        && u <= 0x200A) || u == 0x2028 || u == 0x2029 || u == 0x202F || u == 0x205F || u == 0x3000
}

/// `s` without its leading white space.
pub open spec fn trim_start(s: Seq<char>) -> Seq<char>
    decreases s.len(),
{
    if s.len() > 0 && is_ws(s[0]) {
        trim_start(s.drop_first())
    } else {
        s
    }
}

/// `s` without its trailing white space.
pub open spec fn trim_end(s: Seq<char>) -> Seq<char>
    decreases s.len(),
{
    if s.len() > 0 && is_ws(s.last()) {
        trim_end(s.drop_last())
    } else {
        s
    }
}

/// `s` without leading and trailing white space (`str::trim`).
pub open spec fn trim(s: Seq<char>) -> Seq<char> {
    trim_end(trim_start(s))
}

/// The pieces of `s` between the separators `sep` (`str::split` on a char).
pub open spec fn split_on(s: Seq<char>, sep: char) -> Seq<Seq<char>>
    decreases s.len(),
{
    match find(s, seq![sep]) {
        None => seq![s],
        Some(i) => if i < s.len() {
            seq![s.take(i as int)] + split_on(s.skip(i + 1int), sep)
        } else {
            seq![s]
        },
    }
}

/// The words of `s` scanned so far: the words completed and the word being
/// read (empty between words).
pub open spec fn words_scan(s: Seq<char>) -> (Seq<Seq<char>>, Seq<char>)
    decreases s.len(),
{
    if s.len() == 0 {
        (Seq::empty(), Seq::empty())
    } else {
        let (ws, cur) = words_scan(s.drop_last());
        if is_ws(s.last()) {
            if cur.len() > 0 {
                (ws.push(cur), Seq::empty())
            } else {
                (ws, cur)
            }
        } else {
            (ws, cur.push(s.last()))
        }
    }
}

/// `str::split_whitespace`: the maximal runs of non-white-space chars of `s`.
pub open spec fn words_of(s: Seq<char>) -> Seq<Seq<char>> {
    let (ws, cur) = words_scan(s);
    if cur.len() > 0 {
        ws.push(cur)
    } else {
        ws
    }
}

/// `s` with one trailing `'\r'` removed if present.
pub open spec fn strip_cr(s: Seq<char>) -> Seq<char> {
    if s.len() > 0 && s.last() == '\r' {
        s.drop_last()
    } else {
        s
    }
}

/// The lines of `s` as `str::lines` yields them: split at `'\n'`, one `'\r'`
/// before each `'\n'` dropped, and no empty line after a final `'\n'`.
pub open spec fn lines_of(s: Seq<char>) -> Seq<Seq<char>>
    decreases s.len(),
{
    if s.len() == 0 {
        Seq::empty()
    } else {
        match find(s, seq!['\n']) {
            None => seq![s],
            Some(i) => if i < s.len() {
                seq![strip_cr(s.take(i as int))] + lines_of(s.skip(i + 1int))
            } else {
                seq![s]
            },
        }
    }
}

/// ASCII lower-casing of one char (`char::to_ascii_lowercase`).
pub open spec fn ascii_lower(c: char) -> char {
    if 'A' <= c && c <= 'Z' {
        ((c as u32) + 32) as char
    } else {
        c
    }
}

/// ASCII lower-casing of a text (`str::to_ascii_lowercase`).
pub open spec fn ascii_lower_text(s: Seq<char>) -> Seq<char> {
    s.map_values(|c: char| ascii_lower(c))
}

/// The texts of a sequence of strings.
pub open spec fn texts(v: Seq<String>) -> Seq<Seq<char>> {
    v.map_values(|s: String| s@)
}

/// An optional index as a natural number.
pub open spec fn opt_nat(o: Option<usize>) -> Option<nat> {
    match o {
        Some(i) => Some(i as nat),
        None => None,
    }
}

/// An optional string as its text.
pub open spec fn opt_text(o: Option<String>) -> Option<Seq<char>> {
    match o {
        Some(s) => Some(s@),
        None => None,
    }
}

// ------------------------------------------------------------------
// Lemmas
// ------------------------------------------------------------------

/// `find_from` gives the least matching index at or after `from`.
pub proof fn lemma_find_from_spec(s: Seq<char>, pat: Seq<char>, from: nat)
    ensures
        match find_from(s, pat, from) {
            Some(i) => from <= i && occurs_at(s, pat, i as int) && forall|j: int|
                from <= j < i ==> !occurs_at(s, pat, j),
            None => forall|j: int| from <= j ==> !occurs_at(s, pat, j),
        },
    decreases s.len() + 1 - from,
{
    if from + pat.len() > s.len() {
    } else if occurs_at(s, pat, from as int) {
    } else {
        lemma_find_from_spec(s, pat, from + 1);
    }
}

/// A match found by `rfind_at_or_before` is an occurrence at or before `i`.
pub proof fn lemma_rfind_spec(s: Seq<char>, pat: Seq<char>, i: int)
    ensures
        match rfind_at_or_before(s, pat, i) {
            Some(k) => k <= i && occurs_at(s, pat, k as int) && forall|j: int|
                k < j <= i ==> !occurs_at(s, pat, j),
            None => forall|j: int| j <= i ==> !occurs_at(s, pat, j),
        },
    decreases i + 1,
{
    if i < 0 {
    } else if occurs_at(s, pat, i) {
    } else {
        lemma_rfind_spec(s, pat, i - 1);
    }
}

/// Searching in a prefix finds what searching the whole text finds, when the
/// match lies in the prefix.
pub proof fn lemma_find_from_prefix(s: Seq<char>, pat: Seq<char>, from: nat, n: int)
    requires
        0 <= n <= s.len(),
        find_from(s, pat, from) matches Some(i) && i + pat.len() <= n,
    ensures
        find_from(s.take(n), pat, from) == find_from(s, pat, from),
    decreases s.len() + 1 - from,
{
    lemma_find_from_spec(s, pat, from);
    if from + pat.len() > s.len() {
    } else {
        if from + pat.len() <= n {
            assert(s.take(n).subrange(from as int, from + pat.len() as int) =~= s.subrange(
                from as int,
                from + pat.len() as int,
            ));
        }
        if occurs_at(s, pat, from as int) {
        } else {
            lemma_find_from_prefix(s, pat, from + 1, n);
        }
    }
}

/// Searching from `from` in `s` equals searching from 0 in `s.skip(from)`, shifted.
pub proof fn lemma_find_from_skip(s: Seq<char>, pat: Seq<char>, from: nat, k: nat)
    requires
        from <= s.len(),
    ensures
        find_from(s, pat, from + k) == match find_from(s.skip(from as int), pat, k) {
            Some(i) => Some(i + from),
            None => None::<nat>,
        },
    decreases s.len() + 1 - (from + k),
{
    let t = s.skip(from as int);
    if from + k + pat.len() > s.len() {
    } else {
        assert(t.subrange(k as int, k + pat.len() as int) =~= s.subrange(
            (from + k) as int,
            from + k + pat.len() as int,
        ));
        if occurs_at(s, pat, (from + k) as int) {
        } else {
            lemma_find_from_skip(s, pat, from, k + 1);
        }
    }
}

/// `trim_start` drops exactly a run of leading white space.
pub proof fn lemma_trim_start_skip(s: Seq<char>, i: int)
    requires
        0 <= i <= s.len(),
        forall|j: int| 0 <= j < i ==> is_ws(s[j]),
    ensures
        trim_start(s) == trim_start(s.skip(i)),
    decreases i,
{
    if i > 0 {
        assert(s.drop_first().skip(i - 1) =~= s.skip(i));
        lemma_trim_start_skip(s.drop_first(), i - 1);
    } else {
        assert(s.skip(0) =~= s);
    }
}

/// `trim_end` drops exactly a run of trailing white space.
pub proof fn lemma_trim_end_take(s: Seq<char>, i: int)
    requires
        0 <= i <= s.len(),
        forall|j: int| i <= j < s.len() ==> is_ws(s[j]),
    ensures
        trim_end(s) == trim_end(s.take(i)),
    decreases s.len() - i,
{
    if i < s.len() {
        assert(s.drop_last().take(i) =~= s.take(i));
        lemma_trim_end_take(s.drop_last(), i);
    } else {
        assert(s.take(i) =~= s);
    }
}

// ------------------------------------------------------------------
// Executable helpers
// ------------------------------------------------------------------

/// The chars of `s`.
pub fn chars_of(s: &str) -> (v: Vec<char>)
    ensures
        v@ == s@,
{
    let mut v: Vec<char> = Vec::new();
    for c in it: s.chars()
        invariant
            v@ == it.seq().take(it.index() as int),
    {
        v.push(c);
    }
    v
}

/// The text of `s[from..to]`, counted in chars.
pub fn substring(s: &str, from: usize, to: usize) -> (r: String)
    requires
        from <= to <= s@.len(),
    ensures
        r@ == s@.subrange(from as int, to as int),
{
    s.substring_char(from, to).to_owned()
}

/// The text of `s[from..]`, counted in chars.
pub fn suffix_from(s: &str, from: usize) -> (r: String)
    requires
        from <= s@.len(),
    ensures
        r@ == s@.skip(from as int),
{
    let n = s.unicode_len();
    substring(s, from, n)
}

/// Concatenation of two texts.
pub fn concat2(a: &str, b: &str) -> (r: String)
    ensures
        r@ == a@ + b@,
{
    let mut r = String::from_str(a);
    r.append(b);
    r
}

/// Concatenation of three texts.
pub fn concat3(a: &str, b: &str, c: &str) -> (r: String)
    ensures
        r@ == a@ + b@ + c@,
{
    let mut r = String::from_str(a);
    r.append(b);
    r.append(c);
    r
}

/// Whether two char sequences are equal.
pub fn chars_eq(a: &Vec<char>, b: &Vec<char>) -> (r: bool)
    ensures
        r == (a@ == b@),
{
    if a.len() != b.len() {
        return false;
    }
    let mut i: usize = 0;
    while i < a.len()
        invariant
            a@.len() == b@.len(),
            i <= a@.len(),
            forall|j: int| 0 <= j < i ==> a@[j] == b@[j],
        decreases a@.len() - i,
    {
        if a[i] != b[i] {
            return false;
        }
        i = i + 1;
    }
    assert(a@ =~= b@);
    true
}

/// Whether two texts are equal.
pub fn text_eq(a: &str, b: &str) -> (r: bool)
    ensures
        r == (a@ == b@),
{
    let va = chars_of(a);
    let vb = chars_of(b);
    chars_eq(&va, &vb)
}

/// Whether `pat` occurs in `s` at `i`.
pub fn matches_at(s: &Vec<char>, pat: &Vec<char>, i: usize) -> (r: bool)
    ensures
        r == occurs_at(s@, pat@, i as int),
{
    if i > s.len() || pat.len() > s.len() - i {
        return false;
    }
    let mut k: usize = 0;
    while k < pat.len()
        invariant
            i + pat@.len() <= s@.len(),
            s@.len() <= usize::MAX,
            k <= pat@.len(),
            forall|j: int| 0 <= j < k ==> s@[i + j] == pat@[j],
        decreases pat@.len() - k,
    {
        if s[i + k] != pat[k] {
            assert(s@.subrange(i as int, i + pat@.len())[k as int] != pat@[k as int]);
            return false;
        }
        k = k + 1;
    }
    assert(s@.subrange(i as int, i + pat@.len()) =~= pat@);
    true
}

/// First occurrence of `pat` in `s` at or after `from` (`str::find` on `s[from..]`).
pub fn find_chars_from(s: &Vec<char>, pat: &Vec<char>, from: usize) -> (r: Option<usize>)
    ensures
        opt_nat(r) == find_from(s@, pat@, from as nat),
        r matches Some(i) ==> from <= i && i + pat@.len() <= s.len() && occurs_at(
            s@,
            pat@,
            i as int,
        ),
{
    proof {
        lemma_find_from_spec(s@, pat@, from as nat);
    }
    if pat.len() > s.len() {
        proof {
            lemma_find_from_spec(s@, pat@, from as nat);
        }
        return None;
    }
    let last = s.len() - pat.len();
    let mut i = from;
    while i <= last
        invariant
            last + pat@.len() == s@.len(),
            from <= i,
            find_from(s@, pat@, from as nat) == find_from(s@, pat@, i as nat),
        decreases last + 1 - i,
    {
        if matches_at(s, pat, i) {
            return Some(i);
        }
        if i == last {
            assert(find_from(s@, pat@, (i + 1) as nat) == None::<nat>);
            return None;
        }
        i = i + 1;
    }
    None
}

/// First occurrence of `pat` in `s`.
pub fn find_chars(s: &Vec<char>, pat: &Vec<char>) -> (r: Option<usize>)
    ensures
        opt_nat(r) == find(s@, pat@),
        r matches Some(i) ==> i + pat@.len() <= s.len() && occurs_at(s@, pat@, i as int),
{
    find_chars_from(s, pat, 0)
}

/// Last occurrence of `pat` lying inside `s[..end]` (`str::rfind` on `s[..end]`).
pub fn rfind_chars_before(s: &Vec<char>, pat: &Vec<char>, end: usize) -> (r: Option<usize>)
    requires
        end <= s@.len(),
    ensures
        opt_nat(r) == rfind_before(s@, pat@, end as nat),
        r matches Some(i) ==> i + pat@.len() <= end && occurs_at(s@, pat@, i as int),
{
    proof {
        lemma_rfind_spec(s@, pat@, end - pat@.len());
    }
    if pat.len() > end {
        return None;
    }
    let mut i: usize = end - pat.len();
    loop
        invariant
            i + pat@.len() <= end <= s@.len(),
            rfind_before(s@, pat@, end as nat) == rfind_at_or_before(s@, pat@, i as int),
        decreases i,
    {
        if matches_at(s, pat, i) {
            return Some(i);
        }
        if i == 0 {
            assert(rfind_at_or_before(s@, pat@, -1) == None::<nat>);
            return None;
        }
        i = i - 1;
    }
}

/// Whether `s` begins with `pat`.
pub fn starts_with_chars(s: &Vec<char>, pat: &Vec<char>) -> (r: bool)
    ensures
        r == starts_with(s@, pat@),
{
    matches_at(s, pat, 0)
}

/// Whether `c` is Unicode white space.
pub fn is_whitespace(c: char) -> (r: bool)
    ensures
        r == is_ws(c),
{
    let u = c as u32;
    (0x9 <= u && u <= 0xD) || u == 0x20 || u == 0x85 || u == 0xA0 || u == 0x1680 || (0x2000 <= u
        && u <= 0x200A) || u == 0x2028 || u == 0x2029 || u == 0x202F || u == 0x205F || u == 0x3000
}

/// Bounds `(a, b)` such that `s[a..b]` is `trim(s)`.
pub fn trim_bounds(s: &Vec<char>) -> (r: (usize, usize))
    ensures
        r.0 <= r.1 <= s@.len(),
        s@.subrange(r.0 as int, r.1 as int) == trim(s@),
{
    let mut a: usize = 0;
    while a < s.len() && is_whitespace(s[a])
        invariant
            a <= s@.len(),
            forall|j: int| 0 <= j < a ==> is_ws(s@[j]),
        decreases s@.len() - a,
    {
        a = a + 1;
    }
    proof {
        lemma_trim_start_skip(s@, a as int);
        if a < s@.len() {
            assert(s@.skip(a as int)[0] == s@[a as int]);
        }
    }
    let ghost t = s@.skip(a as int);
    assert(trim_start(s@) == t);
    let mut b: usize = s.len();
    while b > a && is_whitespace(s[b - 1])
        invariant
            a <= b <= s@.len(),
            t == s@.skip(a as int),
            forall|j: int| b <= j < s@.len() ==> is_ws(s@[j]),
        decreases b,
    {
        b = b - 1;
    }
    proof {
        lemma_trim_end_take(t, b - a);
        let u = t.take(b - a);
        assert(u =~= s@.subrange(a as int, b as int));
        if b > a {
            assert(u.last() == s@[b - 1]);
        }
    }
    (a, b)
}

/// `str::trim`.
pub fn trim_text(s: &str) -> (r: String)
    ensures
        r@ == trim(s@),
{
    let v = chars_of(s);
    let (a, b) = trim_bounds(&v);
    substring(s, a, b)
}

/// `s` with its ASCII letters lower-cased (`str::to_ascii_lowercase`).
pub fn to_ascii_lowercase(s: &str) -> (r: Vec<char>)
    ensures
        r@ == ascii_lower_text(s@),
{
    let v = chars_of(s);
    let mut out: Vec<char> = Vec::new();
    let mut i: usize = 0;
    while i < v.len()
        invariant
            i <= v@.len(),
            v@ == s@,
            out@ == ascii_lower_text(v@.take(i as int)),
        decreases v@.len() - i,
    {
        let c = v[i];
        let l = if 'A' <= c && c <= 'Z' {
            char_add_32(c)
        } else {
            c
        };
        out.push(l);
        assert(ascii_lower_text(v@.take(i + 1)) =~= ascii_lower_text(v@.take(i as int)).push(l));
        i = i + 1;
    }
    assert(v@.take(v@.len() as int) =~= v@);
    out
}

fn char_add_32(c: char) -> (r: char)
    requires
        'A' <= c && c <= 'Z',
    ensures
        r == ascii_lower(c),
{
    let b = c as u8;
    (b + 32) as char
}

/// Concatenation of two char sequences.
pub fn chars_concat(a: &Vec<char>, b: &Vec<char>) -> (r: Vec<char>)
    ensures
        r@ == a@ + b@,
{
    let mut r: Vec<char> = Vec::new();
    let mut k: usize = 0;
    while k < a.len()
        invariant
            k <= a@.len(),
            r@ == a@.take(k as int),
        decreases a@.len() - k,
    {
        r.push(a[k]);
        assert(a@.take(k + 1) =~= a@.take(k as int).push(a@[k as int]));
        k = k + 1;
    }
    assert(a@.take(a@.len() as int) =~= a@);
    assert(b@.take(0) =~= Seq::<char>::empty());
    assert(a@ + b@.take(0) =~= a@);
    let mut i: usize = 0;
    while i < b.len()
        invariant
            i <= b@.len(),
            r@ == a@ + b@.take(i as int),
        decreases b@.len() - i,
    {
        r.push(b[i]);
        assert(a@ + b@.take(i + 1) =~= (a@ + b@.take(i as int)).push(b@[i as int]));
        i = i + 1;
    }
    assert(b@.take(b@.len() as int) =~= b@);
    r
}

/// The text of a char sequence.
pub fn string_of(v: &Vec<char>) -> (r: String)
    ensures
        r@ == v@,
{
    let mut r = String::new();
    let mut i: usize = 0;
    while i < v.len()
        invariant
            i <= v@.len(),
            r@ == v@.take(i as int),
        decreases v@.len() - i,
    {
        let one = char_text(v[i]);
        r.append(one.as_str());
        assert(v@.take(i + 1) =~= v@.take(i as int) + seq![v@[i as int]]);
        i = i + 1;
    }
    assert(v@.take(v@.len() as int) =~= v@);
    r
}

/// The one-char text of `c` (`char::to_string`).
#[verifier::external_body]
fn char_text(c: char) -> (r: String)
    ensures
        r@ == seq![c],
{
    c.to_string()
}

/// `str::lines`: the lines of `text`.
pub fn lines(text: &str) -> (r: Vec<String>)
    ensures
        texts(r@) == lines_of(text@),
{
    let s = chars_of(text);
    let nl = vec!['\n'];
    assert(nl@ =~= seq!['\n']);
    let mut out: Vec<String> = Vec::new();
    let mut start: usize = 0;
    assert(s@.skip(0) =~= s@);
    while start < s.len()
        invariant
            s@ == text@,
            nl@ == seq!['\n'],
            start <= s@.len(),
            lines_of(text@) == texts(out@) + lines_of(s@.skip(start as int)),
        decreases s@.len() - start,
    {
        let ghost rest = s@.skip(start as int);
        let ghost old_out = texts(out@);
        proof {
            lemma_find_from_skip(s@, seq!['\n'], start as nat, 0);
            lemma_find_from_spec(rest, seq!['\n'], 0);
        }
        match find_chars_from(&s, &nl, start) {
            None => {
                let piece = suffix_from(text, start);
                out.push(piece);
                assert(texts(out@) =~= old_out.push(rest));
                assert(lines_of(rest) == seq![rest]);
                assert(old_out + seq![rest] =~= texts(out@));
                assert(s@.skip(s@.len() as int) =~= Seq::<char>::empty());
                start = s.len();
            },
            Some(idx) => {
                let k: usize = idx - start;
                assert(rest.take(k as int) =~= s@.subrange(start as int, idx as int));
                assert(rest.skip(k + 1int) =~= s@.skip(idx + 1));
                let end: usize = if idx > start && s[idx - 1] == '\r' {
                    idx - 1
                } else {
                    idx
                };
                let piece = substring(text, start, end);
                assert(piece@ =~= strip_cr(rest.take(k as int)));
                out.push(piece);
                assert(texts(out@) =~= old_out.push(piece@));
                assert(old_out + (seq![piece@] + lines_of(s@.skip(idx + 1))) =~= texts(out@)
                    + lines_of(s@.skip(idx + 1)));
                start = idx + 1;
            },
        }
    }
    assert(lines_of(s@.skip(start as int)) =~= Seq::<Seq<char>>::empty());
    assert(texts(out@) + Seq::<Seq<char>>::empty() =~= texts(out@));
    out
}

/// `str::split` on one char: the pieces of `text` between the separators.
pub fn split_char(text: &str, sep: char) -> (r: Vec<String>)
    ensures
        texts(r@) == split_on(text@, sep),
{
    let s = chars_of(text);
    let pat = vec![sep];
    assert(pat@ =~= seq![sep]);
    let mut out: Vec<String> = Vec::new();
    let mut start: usize = 0;
    assert(s@.skip(0) =~= s@);
    loop
        invariant
            s@ == text@,
            pat@ == seq![sep],
            start <= s@.len(),
            split_on(text@, sep) == texts(out@) + split_on(s@.skip(start as int), sep),
        decreases s@.len() - start,
    {
        let ghost rest = s@.skip(start as int);
        let ghost old_out = texts(out@);
        proof {
            lemma_find_from_skip(s@, seq![sep], start as nat, 0);
            lemma_find_from_spec(rest, seq![sep], 0);
        }
        match find_chars_from(&s, &pat, start) {
            None => {
                let piece = suffix_from(text, start);
                out.push(piece);
                assert(texts(out@) =~= old_out.push(rest));
                assert(old_out + seq![rest] =~= texts(out@));
                return out;
            },
            Some(idx) => {
                let k: usize = idx - start;
                assert(rest.take(k as int) =~= s@.subrange(start as int, idx as int));
                assert(rest.skip(k + 1int) =~= s@.skip(idx + 1));
                let piece = substring(text, start, idx);
                out.push(piece);
                assert(texts(out@) =~= old_out.push(piece@));
                assert(old_out + (seq![piece@] + split_on(s@.skip(idx + 1), sep)) =~= texts(out@)
                    + split_on(s@.skip(idx + 1), sep));
                start = idx + 1;
            },
        }
    }
}

/// Whether `c` occurs in `s`.
pub fn contains_char(s: &Vec<char>, c: char) -> (r: bool)
    ensures
        r == s@.contains(c),
{
    let mut i: usize = 0;
    while i < s.len()
        invariant
            i <= s@.len(),
            forall|j: int| 0 <= j < i ==> s@[j] != c,
        decreases s@.len() - i,
    {
        if s[i] == c {
            return true;
        }
        i = i + 1;
    }
    false
}


/// `str::split_whitespace`: the words of `text`.
pub fn split_whitespace(text: &str) -> (r: Vec<String>)
    ensures
        texts(r@) == words_of(text@),
{
    let s = chars_of(text);
    let mut out: Vec<String> = Vec::new();
    let mut cur: Vec<char> = Vec::new();
    let mut i: usize = 0;
    assert(s@.take(0) =~= Seq::<char>::empty());
    while i < s.len()
        invariant
            i <= s@.len(),
            s@ == text@,
            words_scan(s@.take(i as int)) == (texts(out@), cur@),
        decreases s@.len() - i,
    {
        assert(s@.take(i + 1).drop_last() =~= s@.take(i as int));
        assert(s@.take(i + 1).last() == s@[i as int]);
        let c = s[i];
        if is_whitespace(c) {
            if cur.len() > 0 {
                let ghost before = texts(out@);
                let w = string_of(&cur);
                out.push(w);
                assert(texts(out@) =~= before.push(cur@));
                cur = Vec::new();
                assert(cur@ =~= Seq::<char>::empty());
            }
        } else {
            cur.push(c);
        }
        i = i + 1;
    }
    assert(s@.take(s@.len() as int) =~= s@);
    if cur.len() > 0 {
        let ghost before = texts(out@);
        let w = string_of(&cur);
        out.push(w);
        assert(texts(out@) =~= before.push(cur@));
    }
    out
}

} // verus!
