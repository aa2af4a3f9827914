//! Decimal numerals: reading them as the standard integer parsers do, and writing them.

use vstd::prelude::*;

use crate::text::{self, chars_all_digits};

verus! {

/// The number that a run of decimal digits denotes.
pub open spec fn digits_value(s: Seq<char>) -> nat
    decreases s.len(),
{
    if s.len() == 0 {
        0
    } else {
        digits_value(s.drop_last()) * 10 + text::digit_value(s.last())
    }
}

/// The digits of a numeral, without the sign that may stand before them.
pub open spec fn unsigned_part(s: Seq<char>) -> Seq<char> {
    if s.len() > 0 && (s[0] == '+' || s[0] == '-') {
        s.skip(1)
    } else {
        s
    }
}

/// The integer that a signed numeral denotes: an optional `+` or `-`, then one or
/// more decimal digits.
pub open spec fn int_value(s: Seq<char>) -> Option<int> {
    let d = unsigned_part(s);
    if d.len() == 0 || !text::all_digits(d) {
        None
    } else if s[0] == '-' {
        Some(-(digits_value(d) as int))
    } else {
        Some(digits_value(d) as int)
    }
}

/// The value of a signed numeral, if it lies between `lo` and `hi`.
pub open spec fn int_within(s: Seq<char>, lo: int, hi: int) -> Option<int> {
    match int_value(s) {
        Some(v) => if lo <= v <= hi {
            Some(v)
        } else {
            None
        },
        None => None,
    }
}

/// A numeral for a 64-bit signed integer.
pub open spec fn i64_value(s: Seq<char>) -> Option<int> {
    int_within(s, i64::MIN as int, i64::MAX as int)
}

/// A numeral for a 32-bit signed integer.
pub open spec fn i32_value(s: Seq<char>) -> Option<int> {
    int_within(s, i32::MIN as int, i32::MAX as int)
}

/// A numeral for a 64-bit unsigned integer: `-` is not taken as a sign.
pub open spec fn u64_value(s: Seq<char>) -> Option<int> {
    if s.len() > 0 && s[0] == '-' {
        None
    } else {
        int_within(s, 0, u64::MAX as int)
    }
}

/// Longer numerals do not denote smaller numbers.
proof fn lemma_digits_value_monotone(s: Seq<char>, i: int)
    requires
        0 <= i <= s.len(),
    ensures
        digits_value(s.take(i)) <= digits_value(s),
    decreases s.len(),
{
    if i == s.len() {
        assert(s.take(i) =~= s);
    } else {
        lemma_digits_value_monotone(s.drop_last(), i);
        assert(s.drop_last().take(i) =~= s.take(i));
    }
}

/// The value of a run of digits, or `None` if it is greater than `limit`.
fn read_digits(s: &[char], limit: u64) -> (r: Option<u64>)
    requires
        text::all_digits(s@),
    ensures
        r matches Some(v) ==> v == digits_value(s@) && v <= limit,
        r is None ==> digits_value(s@) > limit,
{
    let mut acc: u64 = 0;
    for i in 0..s.len()
        invariant
            text::all_digits(s@),
            acc == digits_value(s@.take(i as int)),
            acc <= limit,
    {
        assert(text::is_digit(s@[i as int]));
        let d: u64 = (s[i] as u32 - '0' as u32) as u64;
        let wide: u128 = acc as u128 * 10 + d as u128;
        proof {
            assert(s@.take(i + 1).drop_last() =~= s@.take(i as int));
            assert(digits_value(s@.take(i + 1)) == wide);
            lemma_digits_value_monotone(s@, i + 1);
        }
        if wide > limit as u128 {
            return None;
        }
        acc = wide as u64;
    }
    assert(s@.take(s@.len() as int) =~= s@);
    Some(acc)
}

/// Read a 64-bit signed integer.
pub fn read_i64(s: &[char]) -> (r: Option<i64>)
    ensures
        r matches Some(v) ==> i64_value(s@) == Some(v as int),
        r is None ==> i64_value(s@) is None,
{
    if s.len() == 0 {
        return None;
    }
    let negative = s[0] == '-';
    let body: &[char] = if s[0] == '+' || s[0] == '-' {
        &s[1..s.len()]
    } else {
        s
    };
    assert(body@ =~= unsigned_part(s@));
    if body.len() == 0 || !chars_all_digits(body) {
        return None;
    }
    if negative {
        match read_digits(body, 0x8000_0000_0000_0000) {
            Some(v) => {
                if v == 0x8000_0000_0000_0000 {
                    Some(i64::MIN)
                } else {
                    Some(-(v as i64))
                }
            },
            None => None,
        }
    } else {
        match read_digits(body, 0x7fff_ffff_ffff_ffff) {
            Some(v) => Some(v as i64),
            None => None,
        }
    }
}

/// Read a 32-bit signed integer.
pub fn read_i32(s: &[char]) -> (r: Option<i32>)
    ensures
        r matches Some(v) ==> i32_value(s@) == Some(v as int),
        r is None ==> i32_value(s@) is None,
{
    match read_i64(s) {
        Some(v) => if -0x8000_0000 <= v && v <= 0x7fff_ffff {
            Some(v as i32)
        } else {
            None
        },
        None => None,
    }
}

/// Read a 64-bit unsigned integer.
pub fn read_u64(s: &[char]) -> (r: Option<u64>)
    ensures
        r matches Some(v) ==> u64_value(s@) == Some(v as int),
        r is None ==> u64_value(s@) is None,
{
    if s.len() == 0 || s[0] == '-' {
        return None;
    }
    let body: &[char] = if s[0] == '+' {
        &s[1..s.len()]
    } else {
        s
    };
    assert(body@ =~= unsigned_part(s@));
    if body.len() == 0 || !chars_all_digits(body) {
        return None;
    }
    read_digits(body, u64::MAX)
}

/// The decimal digit with value `d`.
pub open spec fn digit_char(d: int) -> char {
    ('0' as int + d) as char
}

/// The decimal numeral of a natural number.
pub open spec fn nat_text(n: nat) -> Seq<char>
    decreases n,
{
    if n < 10 {
        seq![digit_char(n as int)]
    } else {
        nat_text(n / 10).push(digit_char((n % 10) as int))
    }
}

/// The decimal numeral of an integer.
pub open spec fn int_text(n: int) -> Seq<char> {
    if n < 0 {
        seq!['-'] + nat_text((-n) as nat)
    } else {
        nat_text(n as nat)
    }
}

/// The numeral of a number below one hundred, with two digits at least.
pub open spec fn two_digits(n: nat) -> Seq<char> {
    if n < 10 {
        seq!['0'] + nat_text(n)
    } else {
        nat_text(n)
    }
}

/// Write a natural number.
pub fn write_u64(n: u64) -> (r: String)
    ensures
        r@ == nat_text(n as nat),
    decreases n,
{
    if n < 10 {
        let mut s = String::new();
        s.push((48 + n as u8) as char);
        assert(s@ =~= nat_text(n as nat));
        s
    } else {
        let mut s = write_u64(n / 10);
        s.push((48 + (n % 10) as u8) as char);
        s
    }
}

/// Write an integer.
pub fn write_i64(n: i64) -> (r: String)
    ensures
        r@ == int_text(n as int),
{
    if n < 0 {
        let m: u64 = if n == i64::MIN {
            0x8000_0000_0000_0000
        } else {
            (-n) as u64
        };
        let mut s = String::new();
        s.push('-');
        s.append(write_u64(m).as_str());
        assert(s@ =~= int_text(n as int));
        s
    } else {
        write_u64(n as u64)
    }
}

/// Write a number with two digits at least.
pub fn write_two_digits(n: u32) -> (r: String)
    ensures
        r@ == two_digits(n as nat),
{
    if n < 10 {
        let mut s = String::new();
        s.push('0');
        s.append(write_u64(n as u64).as_str());
        assert(s@ =~= two_digits(n as nat));
        s
    } else {
        write_u64(n as u64)
    }
}

/// A written natural number is a run of digits that denotes it.
pub proof fn law_nat_text_reads_back(n: nat)
    ensures
        text::all_digits(nat_text(n)),
        nat_text(n).len() > 0,
        digits_value(nat_text(n)) == n,
    decreases n,
{
    reveal_with_fuel(digits_value, 2);
    if n < 10 {
        assert(nat_text(n).drop_last() =~= Seq::<char>::empty());
        assert(nat_text(n).last() == digit_char(n as int));
    } else {
        law_nat_text_reads_back(n / 10);
        let s = nat_text(n / 10);
        let c = digit_char((n % 10) as int);
        assert(s.push(c).drop_last() =~= s);
        assert forall|i: int| 0 <= i < s.push(c).len() implies text::is_digit(#[trigger] s.push(c)[i]) by {
            if i < s.len() {
                assert(text::is_digit(s[i]));
            }
        }
    }
}

/// Reading what was written gives the number back.
pub proof fn law_int_text_reads_back(n: i64)
    ensures
        i64_value(int_text(n as int)) == Some(n as int),
{
    let m = if n < 0 { (-n) as nat } else { n as nat };
    law_nat_text_reads_back(m);
    let d = nat_text(m);
    let s = int_text(n as int);
    if n < 0 {
        assert(s.skip(1) =~= d);
    } else {
        assert(text::is_digit(d[0]));
    }
}

} // verus!
