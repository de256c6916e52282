//! Byte offsets of a text's UTF-8 encoding, and their char offsets.
//!
//! A `str` is indexed by bytes; the text functions of this crate work on
//! chars. `byte_pos(s, i)` is where char `i` of `s` starts in its encoding.
use vstd::prelude::*;

verus! {

/// The number of bytes UTF-8 takes for `c`.
pub open spec fn utf8_width(c: char) -> nat {
    if (c as u32) < 0x80 {
        1
    } else if (c as u32) < 0x800 {
        2
    } else if (c as u32) < 0x10000 {
        3
    } else {
        4
    }
}

/// The length in bytes of the UTF-8 encoding of `s`.
pub open spec fn utf8_len(s: Seq<char>) -> nat
    decreases s.len(),
{
    if s.len() == 0 {
        0
    } else {
        utf8_len(s.drop_last()) + utf8_width(s.last())
    }
}

/// The byte offset at which char `i` of `s` starts (the whole length for
/// `i == s.len()`).
pub open spec fn byte_pos(s: Seq<char>, i: nat) -> nat {
    utf8_len(s.take(i as int))
}

/// `pos` is a byte offset at which a char of `s` starts, or the end of `s`.
pub open spec fn is_char_boundary(s: Seq<char>, pos: nat) -> bool {
    exists|i: nat| i <= s.len() && #[trigger] byte_pos(s, i) == pos
}

/// The char offset of the byte offset `pos` (meaningful on a boundary).
pub open spec fn char_of_byte(s: Seq<char>, pos: nat) -> nat {
    choose|i: nat| i <= s.len() && #[trigger] byte_pos(s, i) == pos
}

/// One char more adds its width.
pub proof fn lemma_byte_pos_step(s: Seq<char>, i: nat)
    requires
        i < s.len(),
    ensures
        byte_pos(s, i + 1) == byte_pos(s, i) + utf8_width(s[i as int]),
{
    let t = s.take((i + 1) as int);
    assert(t.drop_last() =~= s.take(i as int));
    assert(t.last() == s[i as int]);
}

/// Byte offsets grow by at least one per char.
pub proof fn lemma_byte_pos_grows(s: Seq<char>, i: nat, j: nat)
    requires
        i <= j <= s.len(),
    ensures
        byte_pos(s, i) + (j - i) <= byte_pos(s, j),
    decreases j - i,
{
    if i < j {
        lemma_byte_pos_grows(s, i, (j - 1) as nat);
        lemma_byte_pos_step(s, (j - 1) as nat);
    }
}

/// Distinct char offsets have distinct byte offsets.
pub proof fn lemma_byte_pos_injective(s: Seq<char>, i: nat, j: nat)
    requires
        i <= s.len(),
        j <= s.len(),
        byte_pos(s, i) == byte_pos(s, j),
    ensures
        i == j,
{
    if i < j {
        lemma_byte_pos_grows(s, i, j);
    } else if j < i {
        lemma_byte_pos_grows(s, j, i);
    }
}

/// The end of `s` is at its whole length, and no char starts past it.
pub proof fn lemma_byte_pos_bound(s: Seq<char>, i: nat)
    requires
        i <= s.len(),
    ensures
        byte_pos(s, i) <= byte_pos(s, s.len()),
        byte_pos(s, s.len()) == utf8_len(s),
{
    assert(s.take(s.len() as int) =~= s);
    lemma_byte_pos_grows(s, i, s.len());
}

/// On a boundary, `char_of_byte` is the char offset that starts there.
pub proof fn lemma_char_of_byte(s: Seq<char>, pos: nat, i: nat)
    requires
        i <= s.len(),
        byte_pos(s, i) == pos,
    ensures
        is_char_boundary(s, pos),
        char_of_byte(s, pos) == i,
{
    assert(is_char_boundary(s, pos));
    let k = char_of_byte(s, pos);
    lemma_byte_pos_injective(s, i, k);
}

fn char_width(c: char) -> (r: usize)
    ensures
        r == utf8_width(c),
{
    let n: u32 = c as u32;
    if n < 0x80 {
        1
    } else if n < 0x800 {
        2
    } else if n < 0x10000 {
        3
    } else {
        4
    }
}

/// The byte offset of char offset `i` of `s`.
pub fn byte_offset(s: &Vec<char>, i: usize) -> (r: usize)
    requires
        i <= s@.len(),
        utf8_len(s@) <= usize::MAX,
    ensures
        r == byte_pos(s@, i as nat),
{
    let mut k: usize = 0;
    let mut acc: usize = 0;
    assert(s@.take(0) =~= Seq::<char>::empty());
    while k < i
        invariant
            k <= i <= s@.len(),
            utf8_len(s@) <= usize::MAX,
            acc == byte_pos(s@, k as nat),
        decreases i - k,
    {
        proof {
            lemma_byte_pos_step(s@, k as nat);
            lemma_byte_pos_bound(s@, (k + 1) as nat);
        }
        let w = char_width(s[k]);
        acc = acc + w;
        k = k + 1;
    }
    acc
}

/// The char offset at which byte offset `pos` of `s` lies; `pos` must be a
/// char boundary, as slicing a `str` there requires.
pub fn char_offset(s: &Vec<char>, pos: usize) -> (r: usize)
    requires
        is_char_boundary(s@, pos as nat),
    ensures
        r <= s@.len(),
        byte_pos(s@, r as nat) == pos,
        r == char_of_byte(s@, pos as nat),
{
    let ghost w = char_of_byte(s@, pos as nat);
    let n = s.len();
    let mut k: usize = 0;
    let mut acc: usize = 0;
    assert(s@.take(0) =~= Seq::<char>::empty());
    while acc < pos
        invariant
            n == s@.len(),
            w <= s@.len(),
            byte_pos(s@, w) == pos,
            k <= w,
            acc == byte_pos(s@, k as nat),
            acc <= pos,
        decreases pos - acc,
    {
        proof {
            if k == w {
                assert(false);
            }
            lemma_byte_pos_step(s@, k as nat);
            lemma_byte_pos_grows(s@, (k + 1) as nat, w);
        }
        let c = char_width(s[k]);
        acc = acc + c;
        k = k + 1;
    }
    proof {
        lemma_byte_pos_injective(s@, k as nat, w);
    }
    k
}

} // verus!
