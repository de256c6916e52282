//! Integer texts: reading them the way `str::parse` / `from_str_radix` do, and
//! writing decimal ones.
use vstd::prelude::*;

verus! {

// ------------------------------------------------------------------
// Models
// ------------------------------------------------------------------

/// The value of digit `c` in base `radix` (10 or 16), if it is one.
pub open spec fn digit_of(c: char, radix: nat) -> Option<nat> {
    if '0' <= c && c <= '9' {
        Some((c as nat - '0' as nat) as nat)
    } else if radix == 16 && 'a' <= c && c <= 'f' {
        Some((c as nat - 'a' as nat + 10) as nat)
    } else if radix == 16 && 'A' <= c && c <= 'F' {
        Some((c as nat - 'A' as nat + 10) as nat)
    } else {
        None
    }
}

/// Every char of `s` is a digit in base `radix`.
pub open spec fn all_digits(s: Seq<char>, radix: nat) -> bool {
    forall|i: int| 0 <= i < s.len() ==> digit_of(#[trigger] s[i], radix) is Some
}

/// The number the digits `s` write in base `radix`.
pub open spec fn digits_value(s: Seq<char>, radix: nat) -> nat
    decreases s.len(),
{
    if s.len() == 0 {
        0
    } else {
        digits_value(s.drop_last(), radix) * radix + match digit_of(s.last(), radix) {
            Some(d) => d,
            None => 0,
        }
    }
}

/// `s` without one leading `'+'`.
pub open spec fn without_plus(s: Seq<char>) -> Seq<char> {
    if s.len() > 0 && s[0] == '+' {
        s.drop_first()
    } else {
        s
    }
}

/// The value of an unsigned integer text: an optional `'+'` then one or more
/// digits.
pub open spec fn uint_text_value(s: Seq<char>, radix: nat) -> Option<nat> {
    let body = without_plus(s);
    if body.len() > 0 && all_digits(body, radix) {
        Some(digits_value(body, radix))
    } else {
        None
    }
}

/// What parsing `s` into an unsigned type whose largest value is `max` gives.
pub open spec fn parse_uint_of(s: Seq<char>, radix: nat, max: nat) -> Option<nat> {
    match uint_text_value(s, radix) {
        Some(v) => if v <= max {
            Some(v)
        } else {
            None
        },
        None => None,
    }
}

/// The value of a signed integer text: an optional `'+'` or `'-'` then one or
/// more digits.
pub open spec fn int_text_value(s: Seq<char>, radix: nat) -> Option<int> {
    if s.len() > 0 && s[0] == '-' {
        let body = s.drop_first();
        if body.len() > 0 && all_digits(body, radix) {
            Some(-(digits_value(body, radix) as int))
        } else {
            None
        }
    } else {
        match uint_text_value(s, radix) {
            Some(v) => Some(v as int),
            None => None,
        }
    }
}

/// What parsing `s` into `i64` gives.
pub open spec fn parse_i64_of(s: Seq<char>, radix: nat) -> Option<int> {
    match int_text_value(s, radix) {
        Some(v) => if i64::MIN <= v && v <= i64::MAX {
            Some(v)
        } else {
            None
        },
        None => None,
    }
}

/// The decimal digit char for `d < 10`.
pub open spec fn digit_char(d: nat) -> char {
    ('0' as nat + d) as char
}

/// The decimal text of `n`, without leading zeros.
pub open spec fn decimal_text(n: nat) -> Seq<char>
    decreases n,
{
    if n < 10 {
        seq![digit_char(n)]
    } else {
        decimal_text(n / 10).push(digit_char(n % 10))
    }
}

// ------------------------------------------------------------------
// Lemmas
// ------------------------------------------------------------------

proof fn lemma_digits_prefix_le(s: Seq<char>, i: int, radix: nat)
    requires
        0 <= i <= s.len(),
        radix >= 1,
    ensures
        digits_value(s.take(i), radix) <= digits_value(s, radix),
    decreases s.len(),
{
    if i == s.len() {
        assert(s.take(i) =~= s);
    } else {
        assert(s.drop_last().take(i) =~= s.take(i));
        lemma_digits_prefix_le(s.drop_last(), i, radix);
        let x = digits_value(s.drop_last(), radix);
        assert(x <= x * radix) by (nonlinear_arith)
            requires
                radix >= 1,
        ;
    }
}

proof fn lemma_digits_step(s: Seq<char>, i: int, radix: nat)
    requires
        0 <= i < s.len(),
    ensures
        digits_value(s.take(i + 1), radix) == digits_value(s.take(i), radix) * radix + match digit_of(
            s[i],
            radix,
        ) {
            Some(d) => d,
            None => 0,
        },
{
    assert(s.take(i + 1).drop_last() =~= s.take(i));
}

/// Reading back the decimal text of `n` gives `n`.
pub proof fn lemma_decimal_roundtrip(n: nat)
    ensures
        decimal_text(n).len() > 0,
        all_digits(decimal_text(n), 10),
        decimal_text(n)[0] != '+',
        digits_value(decimal_text(n), 10) == n,
        uint_text_value(decimal_text(n), 10) == Some(n),
    decreases n,
{
    if n < 10 {
        assert(digits_value(seq![digit_char(n)].drop_last(), 10) == 0) by {
            assert(seq![digit_char(n)].drop_last() =~= Seq::<char>::empty());
        }
    } else {
        lemma_decimal_roundtrip(n / 10);
        let t = decimal_text(n / 10);
        assert(t.push(digit_char(n % 10)).drop_last() =~= t);
        assert forall|i: int| 0 <= i < t.len() + 1 implies digit_of(
            #[trigger] t.push(digit_char(n % 10))[i],
            10,
        ) is Some by {
            if i < t.len() {
                assert(t.push(digit_char(n % 10))[i] == t[i]);
            }
        }
    }
}

// ------------------------------------------------------------------
// Executable functions
// ------------------------------------------------------------------

fn digit_exec(c: char, radix: u32) -> (r: Option<u32>)
    requires
        radix == 10 || radix == 16,
    ensures
        match r {
            Some(d) => digit_of(c, radix as nat) == Some(d as nat) && d < radix,
            None => digit_of(c, radix as nat) is None,
        },
{
    let u = c as u32;
    if '0' <= c && c <= '9' {
        Some(u - 48)
    } else if radix == 16 && 'a' <= c && c <= 'f' {
        Some(u - 97 + 10)
    } else if radix == 16 && 'A' <= c && c <= 'F' {
        Some(u - 65 + 10)
    } else {
        None
    }
}

/// The value of the digits `s[from..]` in base `radix` when every char is a
/// digit, there is at least one, and the value is at most `max`.
fn digits_upto(s: &Vec<char>, from: usize, radix: u32, max: u64) -> (r: Option<u64>)
    requires
        radix == 10 || radix == 16,
        from <= s@.len(),
    ensures
        ({
            let body = s@.skip(from as int);
            match r {
                Some(v) => body.len() > 0 && all_digits(body, radix as nat) && v == digits_value(
                    body,
                    radix as nat,
                ) && v <= max,
                None => !(body.len() > 0 && all_digits(body, radix as nat) && digits_value(
                    body,
                    radix as nat,
                ) <= max),
            }
        }),
{
    let ghost body = s@.skip(from as int);
    if from == s.len() {
        return None;
    }
    let mut v: u64 = 0;
    let mut i: usize = from;
    while i < s.len()
        invariant
            radix == 10 || radix == 16,
            from <= i <= s@.len(),
            body == s@.skip(from as int),
            all_digits(body.take(i - from), radix as nat),
            v == digits_value(body.take(i - from), radix as nat),
            v <= max,
        decreases s@.len() - i,
    {
        proof {
            lemma_digits_step(body, i - from, radix as nat);
            assert(body[i - from] == s@[i as int]);
        }
        let d = match digit_exec(s[i], radix) {
            None => {
                assert(!all_digits(body, radix as nat)) by {
                    assert(digit_of(body[i - from], radix as nat) is None);
                }
                return None;
            },
            Some(d) => d,
        };
        let wide: u128 = (v as u128) * (radix as u128) + (d as u128);
        assert((v as u128) * (radix as u128) <= 0xffff_ffff_ffff_ffffu128 * 16) by (nonlinear_arith)
            requires
                v <= 0xffff_ffff_ffff_ffffu64,
                radix <= 16,
        ;
        if wide > max as u128 {
            proof {
                lemma_digits_prefix_le(body, i - from + 1, radix as nat);
            }
            return None;
        }
        v = wide as u64;
        proof {
            assert forall|j: int| 0 <= j < i + 1 - from implies digit_of(
                #[trigger] body.take(i + 1 - from)[j],
                radix as nat,
            ) is Some by {
                if j < i - from {
                    assert(body.take(i + 1 - from)[j] == body.take(i - from)[j]);
                }
            }
        }
        i = i + 1;
    }
    assert(body.take(s@.len() - from) =~= body);
    Some(v)
}

/// `str::parse` / `from_str_radix` for an unsigned type whose largest value is
/// `max`: an optional `'+'`, then one or more digits, no more than `max`.
pub fn parse_uint(s: &Vec<char>, radix: u32, max: u64) -> (r: Option<u64>)
    requires
        radix == 10 || radix == 16,
    ensures
        opt_u64_nat(r) == parse_uint_of(s@, radix as nat, max as nat),
{
    let from: usize = if s.len() > 0 && s[0] == '+' {
        1
    } else {
        0
    };
    assert(s@.skip(from as int) =~= without_plus(s@));
    digits_upto(s, from, radix, max)
}

/// An optional `u64` as a natural number.
pub open spec fn opt_u64_nat(o: Option<u64>) -> Option<nat> {
    match o {
        Some(v) => Some(v as nat),
        None => None,
    }
}

/// An optional `i64` as an integer.
pub open spec fn opt_i64_int(o: Option<i64>) -> Option<int> {
    match o {
        Some(v) => Some(v as int),
        None => None,
    }
}

/// `str::parse::<i64>` / `i64::from_str_radix`: an optional sign, then one or
/// more digits, within the range of `i64`.
pub fn parse_i64(s: &Vec<char>, radix: u32) -> (r: Option<i64>)
    requires
        radix == 10 || radix == 16,
    ensures
        opt_i64_int(r) == parse_i64_of(s@, radix as nat),
{
    if s.len() > 0 && s[0] == '-' {
        assert(s@.skip(1) =~= s@.drop_first());
        match digits_upto(s, 1, radix, 0x8000_0000_0000_0000u64) {
            None => None,
            Some(m) => {
                if m == 0x8000_0000_0000_0000u64 {
                    Some(i64::MIN)
                } else {
                    Some(-(m as i64))
                }
            },
        }
    } else {
        match parse_uint(s, radix, 0x7fff_ffff_ffff_ffffu64) {
            None => None,
            Some(v) => Some(v as i64),
        }
    }
}

/// `usize::to_string`: the decimal text of `n`.
pub fn usize_decimal(n: usize) -> (r: Vec<char>)
    ensures
        r@ == decimal_text(n as nat),
    decreases n,
{
    if n < 10 {
        vec![digit_char_exec(n)]
    } else {
        let mut r = usize_decimal(n / 10);
        r.push(digit_char_exec(n % 10));
        r
    }
}

fn digit_char_exec(d: usize) -> (r: char)
    requires
        d < 10,
    ensures
        r == digit_char(d as nat),
{
    let digits = ['0', '1', '2', '3', '4', '5', '6', '7', '8', '9'];
    let c = digits[d];
    assert(c == digit_char(d as nat)) by {
        assert(digits@ =~= seq!['0', '1', '2', '3', '4', '5', '6', '7', '8', '9']);
    }
    c
}

} // verus!
