//! Character-level helpers: decimal parsing and rendering of unsigned
//! integers, and prefix matching on strings.

use vstd::prelude::*;
use vstd::string::StrSliceExecFns;
use vstd::string::StringExecFns;

verus! {

/// A decimal digit character.
pub open spec fn is_digit(c: char) -> bool {
    48 <= c as int && c as int <= 57
}

/// The numeric value of a decimal digit character.
pub open spec fn digit_val(c: char) -> nat
    recommends
        is_digit(c),
{
    (c as int - 48) as nat
}

/// Every character of `s` is a decimal digit.
pub open spec fn all_digits(s: Seq<char>) -> bool {
    forall|i: int| 0 <= i < s.len() ==> is_digit(s[i])
}

/// The value of a digit string read as a decimal numeral; an empty
/// string reads as zero.
pub open spec fn digits_val(s: Seq<char>) -> nat
    decreases s.len(),
{
    if s.len() == 0 {
        0
    } else {
        digits_val(s.drop_last()) * 10 + digit_val(s.last())
    }
}

/// What parsing `s` as an unsigned 64-bit decimal integer yields: the
/// numeral's value when `s` is one or more digits (after an optional
/// leading `+`) whose value fits in 64 bits, and nothing otherwise.
pub open spec fn parsed_u64(s: Seq<char>) -> Option<u64> {
    let t = if s.len() > 0 && s[0] == '+' {
        s.subrange(1, s.len() as int)
    } else {
        s
    };
    if t.len() > 0 && all_digits(t) && digits_val(t) <= u64::MAX {
        Some(digits_val(t) as u64)
    } else {
        None
    }
}

/// What parsing `s` as a `usize` yields.
pub open spec fn parsed_usize(s: Seq<char>) -> Option<usize> {
    match parsed_u64(s) {
        Some(v) => if v <= usize::MAX {
            Some(v as usize)
        } else {
            None
        },
        None => None,
    }
}

/// The digit character for a value below ten.
pub open spec fn digit_char(d: nat) -> char
    recommends
        d < 10,
{
    if d == 0 {
        '0'
    } else if d == 1 {
        '1'
    } else if d == 2 {
        '2'
    } else if d == 3 {
        '3'
    } else if d == 4 {
        '4'
    } else if d == 5 {
        '5'
    } else if d == 6 {
        '6'
    } else if d == 7 {
        '7'
    } else if d == 8 {
        '8'
    } else {
        '9'
    }
}

/// The canonical decimal rendering of `n`: no sign, no leading zero
/// except for zero itself.
pub open spec fn dec_str(n: nat) -> Seq<char>
    decreases n,
{
    if n < 10 {
        seq![digit_char(n)]
    } else {
        dec_str(n / 10).push(digit_char(n % 10))
    }
}

/// A numeral's value only grows as more digits follow it.
proof fn lemma_digits_prefix_le(t: Seq<char>, j: int)
    requires
        all_digits(t),
        0 <= j <= t.len(),
    ensures
        digits_val(t.subrange(0, j)) <= digits_val(t),
    decreases t.len() - j,
{
    if j < t.len() {
        assert(t.subrange(0, j + 1).drop_last() =~= t.subrange(0, j));
        assert(digits_val(t.subrange(0, j)) <= digits_val(t.subrange(0, j + 1)));
        lemma_digits_prefix_le(t, j + 1);
    } else {
        assert(t.subrange(0, j) =~= t);
    }
}

/// Parses `s` as an unsigned 64-bit decimal integer, as
/// [`parsed_u64`] describes: an optional leading `+`, then one or
/// more digits, rejected on any other character or on overflow.
pub fn parse_u64(s: &str) -> (r: Option<u64>)
    ensures
        r == parsed_u64(s@),
{
    let n = s.unicode_len();
    let offset: usize = if n > 0 && s.get_char(0) == '+' {
        1
    } else {
        0
    };
    let ghost t = if offset == 1 {
        s@.subrange(1, s@.len() as int)
    } else {
        s@
    };
    if n == offset {
        assert(t.len() == 0);
        return None;
    }
    let mut acc: u64 = 0;
    let mut i: usize = offset;
    while i < n
        invariant
            offset <= i <= n,
            n == s@.len(),
            offset == 0 || offset == 1,
            offset == 1 <==> (s@.len() > 0 && s@[0] == '+'),
            offset == 1 ==> t == s@.subrange(1, s@.len() as int),
            offset == 0 ==> t == s@,
            t.len() == n - offset,
            forall|k: int| 0 <= k < t.len() ==> t[k] == s@[k + offset],
            all_digits(t.subrange(0, i - offset)),
            acc == digits_val(t.subrange(0, i - offset)),
        decreases n - i,
    {
        let c = s.get_char(i);
        let cv = c as u32;
        if cv < 48 || cv > 57 {
            proof {
                assert(t[i - offset] == c);
                assert(!is_digit(c));
                assert(!all_digits(t));
            }
            return None;
        }
        let d: u64 = (cv - 48) as u64;
        let ghost pre = t.subrange(0, i - offset);
        let ghost cur = t.subrange(0, i - offset + 1);
        proof {
            assert(cur.drop_last() =~= pre);
            assert(cur.last() == t[i - offset] == c);
            assert(digits_val(cur) == acc * 10 + d);
        }
        match acc.checked_mul(10) {
            Some(m) => match m.checked_add(d) {
                Some(x) => {
                    acc = x;
                },
                None => {
                    proof {
                        assert(digits_val(cur) > u64::MAX);
                        if all_digits(t) {
                            lemma_digits_prefix_le(t, i - offset + 1);
                            assert(digits_val(t) > u64::MAX);
                        }
                    }
                    return None;
                },
            },
            None => {
                proof {
                    assert(digits_val(cur) > u64::MAX);
                    if all_digits(t) {
                        lemma_digits_prefix_le(t, i - offset + 1);
                        assert(digits_val(t) > u64::MAX);
                    }
                }
                return None;
            },
        }
        i += 1;
    }
    proof {
        assert(t.subrange(0, i - offset) =~= t);
    }
    Some(acc)
}

/// Parses `s` as a `usize`, as [`parsed_usize`] describes.
pub fn parse_usize(s: &str) -> (r: Option<usize>)
    ensures
        r == parsed_usize(s@),
{
    match parse_u64(s) {
        Some(v) => if v <= usize::MAX as u64 {
            Some(v as usize)
        } else {
            None
        },
        None => None,
    }
}

/// The one-character string for a digit value below ten.
fn digit_str(d: u64) -> (r: &'static str)
    requires
        d < 10,
    ensures
        r@ == seq![digit_char(d as nat)],
{
    proof {
        reveal_strlit("0");
        reveal_strlit("1");
        reveal_strlit("2");
        reveal_strlit("3");
        reveal_strlit("4");
        reveal_strlit("5");
        reveal_strlit("6");
        reveal_strlit("7");
        reveal_strlit("8");
        reveal_strlit("9");
    }
    let r: &'static str = if d == 0 {
        "0"
    } else if d == 1 {
        "1"
    } else if d == 2 {
        "2"
    } else if d == 3 {
        "3"
    } else if d == 4 {
        "4"
    } else if d == 5 {
        "5"
    } else if d == 6 {
        "6"
    } else if d == 7 {
        "7"
    } else if d == 8 {
        "8"
    } else {
        "9"
    };
    assert(r@ =~= seq![digit_char(d as nat)]);
    r
}

/// Renders `n` in decimal, as [`dec_str`] describes.
pub fn u64_to_string(n: u64) -> (r: String)
    ensures
        r@ == dec_str(n as nat),
    decreases n,
{
    if n < 10 {
        digit_str(n).to_owned()
    } else {
        let mut r = u64_to_string(n / 10);
        r.append(digit_str(n % 10));
        assert(r@ =~= dec_str(n as nat));
        r
    }
}

/// Whether two strings hold the same characters.
pub fn str_eq(a: &str, b: &str) -> (r: bool)
    ensures
        r == (a@ == b@),
{
    let al = a.unicode_len();
    let bl = b.unicode_len();
    if al != bl {
        return false;
    }
    let mut i: usize = 0;
    while i < al
        invariant
            0 <= i <= al,
            al == a@.len() == b@.len(),
            forall|k: int| 0 <= k < i ==> a@[k] == b@[k],
        decreases al - i,
    {
        if a.get_char(i) != b.get_char(i) {
            return false;
        }
        i += 1;
    }
    assert(a@ =~= b@);
    true
}

/// `p` is an initial segment of `s`.
pub open spec fn is_prefix(p: Seq<char>, s: Seq<char>) -> bool {
    p.len() <= s.len() && s.subrange(0, p.len() as int) == p
}

/// Whether `s` starts with `p`, character for character.
pub fn str_starts_with(s: &str, p: &str) -> (b: bool)
    ensures
        b == is_prefix(p@, s@),
{
    let pl = p.unicode_len();
    let sl = s.unicode_len();
    if pl > sl {
        return false;
    }
    let mut i: usize = 0;
    while i < pl
        invariant
            0 <= i <= pl,
            pl == p@.len() <= sl == s@.len(),
            forall|k: int| 0 <= k < i ==> p@[k] == s@[k],
        decreases pl - i,
    {
        if s.get_char(i) != p.get_char(i) {
            assert(s@.subrange(0, pl as int)[i as int] != p@[i as int]);
            return false;
        }
        i += 1;
    }
    assert(s@.subrange(0, pl as int) =~= p@);
    true
}

/// The remainder of `s` after the prefix `p`, when `s` starts with `p`.
pub fn strip_prefix_str(s: &str, p: &str) -> (r: Option<String>)
    ensures
        match r {
            Some(t) => is_prefix(p@, s@) && t@ == s@.subrange(p@.len() as int, s@.len() as int),
            None => !is_prefix(p@, s@),
        },
{
    if str_starts_with(s, p) {
        let rest = s.substring_char(p.unicode_len(), s.unicode_len());
        Some(rest.to_owned())
    } else {
        None
    }
}

} // verus!
