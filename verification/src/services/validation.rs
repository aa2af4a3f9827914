//! What is accepted in the fields of a submission.

use vstd::prelude::*;

use crate::content_lines;
use crate::models::{self, extract_track_from_filename};
use crate::numbers::{self, read_i32, read_i64, read_u64, write_two_digits, write_u64};
use crate::services::hex_dump::{self, parse_binary_hex_input};
use crate::text::{
    self, cat2, cat3, cat4, cat5, char_is_digit, chars_all_alnum, chars_all_digits, chars_all_hex,
    chars_are, chars_end_with, chars_find_from, chars_index_from, chars_lines, chars_of,
    chars_split, chars_start_with, chars_trim, chars_words, string_of,
};
use crate::unicode::{self, to_uppercase};

verus! {

// ── Integers ───────────────────────────────────────────────────────────────

/// A count: a numeral for an integer that is not negative.
pub open spec fn non_negative_int(s: Seq<char>) -> Result<int, Seq<char>> {
    let t = text::trim(s);
    if t.len() == 0 {
        Err("value is empty"@)
    } else {
        match numbers::i64_value(t) {
            None => Err("'"@ + t + "' is not a valid integer"@),
            Some(v) => if v < 0 {
                Err("'"@ + t + "' must be non-negative"@)
            } else {
                Ok(v)
            },
        }
    }
}

/// A numeral for a 32-bit integer.
pub open spec fn signed_int(s: Seq<char>) -> Result<int, Seq<char>> {
    let t = text::trim(s);
    if t.len() == 0 {
        Err("value is empty"@)
    } else {
        match numbers::i32_value(t) {
            None => Err("'"@ + t + "' is not a valid integer"@),
            Some(v) => Ok(v),
        }
    }
}

/// Accept a count.
pub fn validate_non_negative_int(s: &str) -> (r: Result<i64, String>)
    ensures
        match r {
            Ok(v) => non_negative_int(s@) == Ok::<int, Seq<char>>(v as int),
            Err(e) => non_negative_int(s@) == Err::<int, Seq<char>>(e@),
        },
{
    let chars = chars_of(s);
    let t = chars_trim(&chars);
    if t.len() == 0 {
        return Err(String::from_str("value is empty"));
    }
    match read_i64(t) {
        None => Err(cat3("'", string_of(t).as_str(), "' is not a valid integer")),
        Some(v) => if v < 0 {
            Err(cat3("'", string_of(t).as_str(), "' must be non-negative"))
        } else {
            Ok(v)
        },
    }
}

/// Accept a 32-bit integer.
pub fn validate_signed_int(s: &str) -> (r: Result<i32, String>)
    ensures
        match r {
            Ok(v) => signed_int(s@) == Ok::<int, Seq<char>>(v as int),
            Err(e) => signed_int(s@) == Err::<int, Seq<char>>(e@),
        },
{
    let chars = chars_of(s);
    let t = chars_trim(&chars);
    if t.len() == 0 {
        return Err(String::from_str("value is empty"));
    }
    match read_i32(t) {
        None => Err(cat3("'", string_of(t).as_str(), "' is not a valid integer")),
        Some(v) => Ok(v),
    }
}

// ── Sector ranges ──────────────────────────────────────────────────────────

/// The first position from `i` on that holds a hyphen right behind a digit, or the
/// length of `s`.
pub open spec fn range_hyphen(s: Seq<char>, i: int) -> int
    decreases s.len() - i,
{
    if i < 1 || i >= s.len() {
        s.len() as int
    } else if s[i] == '-' && text::is_digit(s[i - 1]) {
        i
    } else {
        range_hyphen(s, i + 1)
    }
}

/// The two ends of a range, which stand on either side of the first hyphen that
/// follows a digit.
pub open spec fn range_of_line(line: Seq<char>) -> Option<(int, int)> {
    let i = range_hyphen(line, 1);
    if i >= line.len() {
        None
    } else {
        match (numbers::i32_value(text::trim(line.take(i))), numbers::i32_value(text::trim(line.skip(i + 1)))) {
            (Some(a), Some(b)) => Some((a, b)),
            _ => None,
        }
    }
}

/// The complaint about the first line that is no range, the first line being `row`.
pub open spec fn range_lines(ls: Seq<Seq<char>>, row: nat) -> Result<(), Seq<char>>
    decreases ls.len(),
{
    if ls.len() == 0 {
        Ok(())
    } else {
        let line = text::trim(ls[0]);
        if line.len() > 0 && range_of_line(line) is None {
            Err(
                "line "@ + numbers::nat_text(row) + ": '"@ + line
                    + "' is not a valid range (expected <integer>-<integer>)"@,
            )
        } else {
            range_lines(ls.drop_first(), row + 1)
        }
    }
}

/// Whether every line that is not blank is a range.
pub open spec fn sector_ranges(text: Seq<char>) -> Result<(), Seq<char>> {
    range_lines(text::lines(text::trim(text)), 1)
}

/// The ranges of the lines that are ranges.
pub open spec fn range_pairs(ls: Seq<Seq<char>>) -> Seq<(int, int)>
    decreases ls.len(),
{
    if ls.len() == 0 {
        Seq::empty()
    } else {
        let line = text::trim(ls.last());
        let before = range_pairs(ls.drop_last());
        match range_of_line(line) {
            Some(p) => if line.len() > 0 {
                before.push(p)
            } else {
                before
            },
            None => before,
        }
    }
}

/// Pairs of machine integers as integers.
pub open spec fn int_pairs(v: Seq<(i32, i32)>) -> Seq<(int, int)> {
    v.map_values(|p: (i32, i32)| (p.0 as int, p.1 as int))
}

/// The two ends of a range.
pub fn parse_range_line(line: &[char]) -> (r: Option<(i32, i32)>)
    ensures
        match r {
            Some(p) => range_of_line(line@) == Some((p.0 as int, p.1 as int)),
            None => range_of_line(line@) is None,
        },
{
    let mut i: usize = 1;
    while i < line.len()
        invariant
            1 <= i,
            range_hyphen(line@, i as int) == range_hyphen(line@, 1),
        decreases line@.len() - i,
    {
        if line[i] == '-' && char_is_digit(line[i - 1]) {
            let a = &line[0..i];
            let b = &line[i + 1..line.len()];
            assert(a@ =~= line@.take(i as int));
            assert(b@ =~= line@.skip(i + 1));
            let start = match read_i32(chars_trim(a)) {
                Some(v) => v,
                None => {
                    return None;
                },
            };
            let end = match read_i32(chars_trim(b)) {
                Some(v) => v,
                None => {
                    return None;
                },
            };
            return Some((start, end));
        }
        i += 1;
    }
    None
}

/// Accept a list of sector ranges, one to a line.
pub fn validate_sector_ranges(text: &str) -> (r: Result<(), String>)
    ensures
        text::text_result(r) == sector_ranges(text@),
{
    let chars = chars_of(text);
    let t = chars_trim(&chars);
    let ls = chars_lines(t);
    let ghost spec_lines = text::slices(ls@);
    assert(spec_lines.skip(0) =~= spec_lines);
    for i in 0..ls.len()
        invariant
            spec_lines == text::slices(ls@),
            spec_lines == text::lines(text::trim(text@)),
            range_lines(spec_lines.skip(i as int), (i + 1) as nat) == range_lines(spec_lines, 1),
    {
        let line = chars_trim(ls[i]);
        proof {
            let rest = spec_lines.skip(i as int);
            assert(rest[0] == ls@[i as int]@);
            assert(rest.drop_first() =~= spec_lines.skip(i + 1));
        }
        if line.len() > 0 && parse_range_line(line).is_none() {
            return Err(
                cat5(
                    "line ",
                    write_u64((i + 1) as u64).as_str(),
                    ": '",
                    string_of(line).as_str(),
                    "' is not a valid range (expected <integer>-<integer>)",
                ),
            );
        }
    }
    Ok(())
}

/// The ranges of a list of sector ranges; lines that are none are passed over.
pub fn parse_sector_range_pairs(text: &str) -> (r: Vec<(i32, i32)>)
    ensures
        int_pairs(r@) == range_pairs(text::lines(text@)),
{
    let chars = chars_of(text);
    let ls = chars_lines(&chars);
    let ghost spec_lines = text::slices(ls@);
    let mut out: Vec<(i32, i32)> = Vec::new();
    assert(int_pairs(out@) =~= range_pairs(spec_lines.take(0)));
    for i in 0..ls.len()
        invariant
            spec_lines == text::slices(ls@),
            spec_lines == text::lines(text@),
            int_pairs(out@) == range_pairs(spec_lines.take(i as int)),
    {
        let line = chars_trim(ls[i]);
        let ghost before = out@;
        proof {
            let t = spec_lines.take(i + 1);
            assert(t.drop_last() =~= spec_lines.take(i as int));
            assert(t.last() == ls@[i as int]@);
        }
        if line.len() > 0 {
            if let Some(p) = parse_range_line(line) {
                out.push(p);
                assert(int_pairs(out@) =~= int_pairs(before).push((p.0 as int, p.1 as int)));
            }
        }
    }
    assert(spec_lines.take(spec_lines.len() as int) =~= spec_lines);
    out
}

/// The lines that are not blank.
pub open spec fn count_nonblank(ls: Seq<Seq<char>>) -> nat
    decreases ls.len(),
{
    if ls.len() == 0 {
        0
    } else {
        count_nonblank(ls.drop_last()) + if text::trim(ls.last()).len() > 0 {
            1nat
        } else {
            0nat
        }
    }
}

proof fn lemma_range_lines_ok(ls: Seq<Seq<char>>, row: nat)
    ensures
        range_lines(ls, row) is Ok <==> forall|i: int|
            0 <= i < ls.len() ==> text::trim(#[trigger] ls[i]).len() == 0 || range_of_line(
                text::trim(ls[i]),
            ) is Some,
    decreases ls.len(),
{
    if ls.len() > 0 {
        let rest = ls.drop_first();
        lemma_range_lines_ok(rest, row + 1);
        if range_lines(ls, row) is Ok {
            assert forall|i: int| 0 <= i < ls.len() implies text::trim(#[trigger] ls[i]).len() == 0
                || range_of_line(text::trim(ls[i])) is Some by {
                if i > 0 {
                    assert(rest[i - 1] == ls[i]);
                }
            }
        } else {
            if text::trim(ls[0]).len() > 0 && range_of_line(text::trim(ls[0])) is None {
            } else {
                let k = choose|k: int|
                    0 <= k < rest.len() && !(text::trim(#[trigger] rest[k]).len() == 0 || range_of_line(
                        text::trim(rest[k]),
                    ) is Some);
                assert(ls[k + 1] == rest[k]);
            }
        }
    }
}

/// A list of sector ranges that is accepted yields one pair for each line that is not
/// blank; one that is refused yields fewer.
pub proof fn law_accepted_ranges_are_all_read(ls: Seq<Seq<char>>, row: nat)
    ensures
        range_pairs(ls).len() <= count_nonblank(ls),
        range_lines(ls, row) is Ok <==> range_pairs(ls).len() == count_nonblank(ls),
    decreases ls.len(),
{
    lemma_range_lines_ok(ls, row);
    if ls.len() > 0 {
        let p = ls.drop_last();
        law_accepted_ranges_are_all_read(p, row);
        lemma_range_lines_ok(p, row);
        if range_lines(p, row) is Ok {
            if text::trim(ls.last()).len() == 0 || range_of_line(text::trim(ls.last())) is Some {
                assert forall|i: int| 0 <= i < ls.len() implies text::trim(#[trigger] ls[i]).len() == 0
                    || range_of_line(text::trim(ls[i])) is Some by {
                    if i < p.len() {
                        assert(p[i] == ls[i]);
                    }
                }
            } else {
                assert(ls[ls.len() - 1] == ls.last());
            }
        } else {
            let k = choose|k: int|
                0 <= k < p.len() && !(text::trim(#[trigger] p[k]).len() == 0 || range_of_line(
                    text::trim(p[k]),
                ) is Some);
            assert(ls[k] == p[k]);
        }
    }
}

proof fn lemma_range_content(ls: Seq<Seq<char>>)
    ensures
        count_nonblank(ls) == content_lines::content(ls).len(),
        range_pairs(ls) == range_pairs(content_lines::content(ls)),
    decreases ls.len(),
{
    if ls.len() > 0 {
        lemma_range_content(ls.drop_last());
        let x = ls.last();
        if text::trim(x).len() > 0 {
            let c = content_lines::content(ls.drop_last());
            assert(c.push(text::trim(x)).drop_last() =~= c);
            text::lemma_trim_idempotent(x);
        } else {
            assert(text::trim(x) =~= Seq::<char>::empty());
        }
    }
}

/// A text of sector ranges is accepted exactly if it yields one pair for each of its lines
/// that is not blank.
pub proof fn law_accepted_text_is_all_read(text: Seq<char>)
    ensures
        sector_ranges(text) is Ok <==> range_pairs(text::lines(text)).len() == count_nonblank(
            text::lines(text),
        ),
{
    law_accepted_ranges_are_all_read(text::lines(text::trim(text)), 1);
    content_lines::law_trim_keeps_content(text);
    lemma_range_content(text::lines(text));
    lemma_range_content(text::lines(text::trim(text)));
}

// ── Subchannel data ────────────────────────────────────────────────────────

/// The ASCII bytes of a text.
pub open spec fn ascii(s: Seq<char>) -> Seq<u8> {
    s.map_values(|c: char| c as u8)
}

/// The byte of an ASCII decimal digit.
pub open spec fn digit_byte(b: u8) -> bool {
    0x30 <= b <= 0x39
}

/// The byte of an ASCII hexadecimal digit.
pub open spec fn hex_byte(b: u8) -> bool {
    0x30 <= b <= 0x39 || 0x41 <= b <= 0x46 || 0x61 <= b <= 0x66
}

/// `b` begins with the ASCII text `s`.
pub open spec fn begins(b: Seq<u8>, s: Seq<char>) -> bool {
    s.len() <= b.len() && b.take(s.len() as int) == ascii(s)
}

/// The subchannel bytes of a line, `HHHHHH HH:HH:HH HH HH:HH:HH HHHH`, or what is
/// wrong with them.
pub open spec fn q_data(b: Seq<u8>) -> Result<(), Seq<char>> {
    if b.len() != 32 {
        Err("Q-Data must be exactly 32 characters, got "@ + numbers::nat_text(b.len()))
    } else if !(hex_byte(b[0]) && hex_byte(b[1]) && hex_byte(b[2]) && hex_byte(b[3]) && hex_byte(
        b[4],
    ) && hex_byte(b[5])) {
        Err("invalid hex in Q-Data control/adr/tno/index"@)
    } else if b[6] != 0x20 {
        Err("expected space after track info"@)
    } else if !(hex_byte(b[7]) && hex_byte(b[8]) && hex_byte(b[10]) && hex_byte(b[11]) && hex_byte(
        b[13],
    ) && hex_byte(b[14])) {
        Err("invalid hex in Q-Data relative MSF"@)
    } else if b[9] != 0x3a || b[12] != 0x3a {
        Err("expected colons in Q-Data relative MSF"@)
    } else if b[15] != 0x20 {
        Err("expected space"@)
    } else if !(hex_byte(b[16]) && hex_byte(b[17])) {
        Err("invalid hex in Q-Data zero byte"@)
    } else if b[18] != 0x20 {
        Err("expected space"@)
    } else if !(hex_byte(b[19]) && hex_byte(b[20]) && hex_byte(b[22]) && hex_byte(b[23])
        && hex_byte(b[25]) && hex_byte(b[26])) {
        Err("invalid hex in Q-Data absolute MSF"@)
    } else if b[21] != 0x3a || b[24] != 0x3a {
        Err("expected colons in Q-Data absolute MSF"@)
    } else if b[27] != 0x20 {
        Err("expected space before CRC"@)
    } else if !(hex_byte(b[28]) && hex_byte(b[29]) && hex_byte(b[30]) && hex_byte(b[31])) {
        Err("invalid hex in Q-Data CRC"@)
    } else {
        Ok(())
    }
}

/// A subchannel line, `MSF: DD:DD:DD Q-Data: ...`, over its bytes, or what is wrong
/// with it.
pub open spec fn sbi_line(b: Seq<u8>) -> Result<(), Seq<char>> {
    let m = b.skip(5);
    if !begins(b, "MSF: "@) {
        Err("must start with 'MSF: '"@)
    } else if m.len() < 8 {
        Err("MSF time too short"@)
    } else if m[2] != 0x3a || m[5] != 0x3a {
        Err("MSF format must be DD:DD:DD"@)
    } else if !(digit_byte(m[0]) && digit_byte(m[1]) && digit_byte(m[3]) && digit_byte(m[4])
        && digit_byte(m[6]) && digit_byte(m[7])) {
        Err("MSF values must be decimal digits"@)
    } else if !begins(m.skip(8), " Q-Data: "@) {
        Err("expected ' Q-Data: ' after MSF"@)
    } else {
        q_data(m.skip(17))
    }
}

/// The complaint about the first line that is no subchannel line.
pub open spec fn sbi_lines(ls: Seq<Seq<char>>, row: nat) -> Result<(), Seq<char>>
    decreases ls.len(),
{
    if ls.len() == 0 {
        Ok(())
    } else {
        let line = text::trim(ls[0]);
        match sbi_line(vstd::utf8::encode_utf8(line)) {
            Err(e) => if line.len() > 0 {
                Err("line "@ + numbers::nat_text(row) + ": "@ + e)
            } else {
                sbi_lines(ls.drop_first(), row + 1)
            },
            Ok(_) => sbi_lines(ls.drop_first(), row + 1),
        }
    }
}

/// Whether every line that is not blank is a subchannel line.
pub open spec fn sbi(text: Seq<char>) -> Result<(), Seq<char>> {
    sbi_lines(text::lines(text::trim(text)), 1)
}

fn byte_is_digit(b: u8) -> (r: bool)
    ensures
        r == digit_byte(b),
{
    0x30 <= b && b <= 0x39
}

fn byte_is_hex(b: u8) -> (r: bool)
    ensures
        r == hex_byte(b),
{
    (0x30 <= b && b <= 0x39) || (0x41 <= b && b <= 0x46) || (0x61 <= b && b <= 0x66)
}

fn bytes_begin(b: &[u8], s: &str) -> (r: bool)
    ensures
        r == begins(b@, s@),
{
    let c = chars_of(s);
    if c.len() > b.len() {
        return false;
    }
    for i in 0..c.len()
        invariant
            c@ == s@,
            c@.len() <= b@.len(),
            forall|j: int| 0 <= j < i ==> b@[j] == #[trigger] ascii(s@)[j],
    {
        if b[i] != c[i] as u8 {
            assert(b@.take(c@.len() as int)[i as int] != ascii(s@)[i as int]);
            return false;
        }
    }
    assert(b@.take(c@.len() as int) =~= ascii(s@));
    true
}

/// Accept the subchannel bytes of a line.
fn check_q_data(b: &[u8]) -> (r: Result<(), String>)
    ensures
        text::text_result(r) == q_data(b@),
{
    if b.len() != 32 {
        return Err(
            cat2(
                "Q-Data must be exactly 32 characters, got ",
                write_u64(b.len() as u64).as_str(),
            ),
        );
    }
    if !(byte_is_hex(b[0]) && byte_is_hex(b[1]) && byte_is_hex(b[2]) && byte_is_hex(b[3])
        && byte_is_hex(b[4]) && byte_is_hex(b[5])) {
        return Err(String::from_str("invalid hex in Q-Data control/adr/tno/index"));
    }
    if b[6] != 0x20 {
        return Err(String::from_str("expected space after track info"));
    }
    if !(byte_is_hex(b[7]) && byte_is_hex(b[8]) && byte_is_hex(b[10]) && byte_is_hex(b[11])
        && byte_is_hex(b[13]) && byte_is_hex(b[14])) {
        return Err(String::from_str("invalid hex in Q-Data relative MSF"));
    }
    if b[9] != 0x3a || b[12] != 0x3a {
        return Err(String::from_str("expected colons in Q-Data relative MSF"));
    }
    if b[15] != 0x20 {
        return Err(String::from_str("expected space"));
    }
    if !(byte_is_hex(b[16]) && byte_is_hex(b[17])) {
        return Err(String::from_str("invalid hex in Q-Data zero byte"));
    }
    if b[18] != 0x20 {
        return Err(String::from_str("expected space"));
    }
    if !(byte_is_hex(b[19]) && byte_is_hex(b[20]) && byte_is_hex(b[22]) && byte_is_hex(b[23])
        && byte_is_hex(b[25]) && byte_is_hex(b[26])) {
        return Err(String::from_str("invalid hex in Q-Data absolute MSF"));
    }
    if b[21] != 0x3a || b[24] != 0x3a {
        return Err(String::from_str("expected colons in Q-Data absolute MSF"));
    }
    if b[27] != 0x20 {
        return Err(String::from_str("expected space before CRC"));
    }
    if !(byte_is_hex(b[28]) && byte_is_hex(b[29]) && byte_is_hex(b[30]) && byte_is_hex(b[31])) {
        return Err(String::from_str("invalid hex in Q-Data CRC"));
    }
    Ok(())
}

/// Accept a subchannel line.
pub fn validate_sbi_line(line: &str) -> (r: Result<(), String>)
    ensures
        text::text_result(r) == sbi_line(vstd::utf8::encode_utf8(line@)),
{
    let b = line.as_bytes();
    proof {
        reveal_strlit("MSF: ");
        reveal_strlit(" Q-Data: ");
    }
    if !bytes_begin(b, "MSF: ") {
        return Err(String::from_str("must start with 'MSF: '"));
    }
    let m = &b[5..b.len()];
    assert(m@ =~= b@.skip(5));
    if m.len() < 8 {
        return Err(String::from_str("MSF time too short"));
    }
    if m[2] != 0x3a || m[5] != 0x3a {
        return Err(String::from_str("MSF format must be DD:DD:DD"));
    }
    if !(byte_is_digit(m[0]) && byte_is_digit(m[1]) && byte_is_digit(m[3]) && byte_is_digit(m[4])
        && byte_is_digit(m[6]) && byte_is_digit(m[7])) {
        return Err(String::from_str("MSF values must be decimal digits"));
    }
    let rest = &m[8..m.len()];
    assert(rest@ =~= m@.skip(8));
    if !bytes_begin(rest, " Q-Data: ") {
        return Err(String::from_str("expected ' Q-Data: ' after MSF"));
    }
    let q = &rest[9..rest.len()];
    assert(q@ =~= m@.skip(17));
    check_q_data(q)
}

/// Accept subchannel data, one line to a sector.
pub fn validate_sbi(text: &str) -> (r: Result<(), String>)
    ensures
        text::text_result(r) == sbi(text@),
{
    let chars = chars_of(text);
    let t = chars_trim(&chars);
    let ls = chars_lines(t);
    let ghost spec_lines = text::slices(ls@);
    assert(spec_lines.skip(0) =~= spec_lines);
    for i in 0..ls.len()
        invariant
            spec_lines == text::slices(ls@),
            spec_lines == text::lines(text::trim(text@)),
            sbi_lines(spec_lines.skip(i as int), (i + 1) as nat) == sbi_lines(spec_lines, 1),
    {
        let line = chars_trim(ls[i]);
        proof {
            let rest = spec_lines.skip(i as int);
            assert(rest[0] == ls@[i as int]@);
            assert(rest.drop_first() =~= spec_lines.skip(i + 1));
        }
        if line.len() > 0 {
            match validate_sbi_line(string_of(line).as_str()) {
                Ok(_) => {},
                Err(e) => {
                    return Err(
                        cat4("line ", write_u64((i + 1) as u64).as_str(), ": ", e.as_str()),
                    );
                },
            }
        }
    }
    Ok(())
}

// ── Hexadecimal dumps ──────────────────────────────────────────────────────

/// Accept what [`parse_binary_hex_input`] can read.
pub fn validate_hex_dump(text: &str) -> (r: Result<(), String>)
    ensures
        r is Ok <==> hex_dump::binary_input(text@) is Ok,
        r matches Err(e) ==> hex_dump::binary_input(text@) == Err::<Seq<u8>, Seq<char>>(e@),
{
    match parse_binary_hex_input(text) {
        Ok(_) => Ok(()),
        Err(e) => Err(e),
    }
}

// ── Cuesheets ──────────────────────────────────────────────────────────────

/// What has been read of a cuesheet.
#[derive(Clone, Copy, Debug)]
pub struct CueState {
    pub file_opened: bool,
    pub track_opened: bool,
    pub gap_opened: bool,
    pub index01_seen: bool,
    pub last_index: u32,
    pub track_count: u32,
}

impl CueState {
    /// Track and index numbers have two digits.
    pub open spec fn wf(self) -> bool {
        self.last_index <= 99 && self.track_count <= 99
    }
}

/// Nothing has been read.
pub open spec fn cue_start() -> CueState {
    CueState {
        file_opened: false,
        track_opened: false,
        gap_opened: false,
        index01_seen: false,
        last_index: 0,
        track_count: 0,
    }
}

/// A `FILE` line: a name in quotes, then `BINARY` or `WAVE`.
pub open spec fn is_file_line(line: Seq<char>) -> bool {
    let rest = line.skip(6);
    let quote = text::index_from(rest, '"', 0);
    &&& text::starts_with(line, "FILE \""@)
    &&& quote < rest.len()
    &&& (rest.skip(quote + 1) == " BINARY"@ || rest.skip(quote + 1) == " WAVE"@)
}

/// A track mode.
pub open spec fn is_mode(s: Seq<char>) -> bool {
    s == "MODE1/2352"@ || s == "MODE2/2352"@ || s == "AUDIO"@
}

/// `rest` begins with a number of two digits and a space.
pub open spec fn numbered(rest: Seq<char>) -> bool {
    rest.len() >= 3 && text::is_digit(rest[0]) && text::is_digit(rest[1]) && rest[2] == ' '
}

/// The number in the first two digits of `rest`.
pub open spec fn number(rest: Seq<char>) -> nat {
    text::digit_value(rest[0]) * 10 + text::digit_value(rest[1])
}

/// The number and mode of a `TRACK` line.
pub open spec fn track_line(line: Seq<char>) -> Option<(nat, Seq<char>)> {
    let rest = line.skip(6);
    if text::starts_with(line, "TRACK "@) && numbered(rest) && is_mode(rest.skip(3)) {
        Some((number(rest), rest.skip(3)))
    } else {
        None
    }
}

/// A number of exactly two digits.
pub open spec fn is_two_digits(s: Seq<char>) -> bool {
    s.len() == 2 && text::is_digit(s[0]) && text::is_digit(s[1])
}

/// The number, minutes, seconds and frames of an `INDEX` line.
pub open spec fn index_line(line: Seq<char>) -> Option<(nat, nat, nat, nat)> {
    let rest = line.skip(6);
    let parts = text::split(rest.skip(3), ':');
    if text::starts_with(line, "INDEX "@) && numbered(rest) && parts.len() == 3 && is_two_digits(parts[0])
        && is_two_digits(parts[1]) && is_two_digits(parts[2]) {
        Some((number(rest), number(parts[0]), number(parts[1]), number(parts[2])))
    } else {
        None
    }
}

/// A complaint about line `row` of a cuesheet.
pub open spec fn row_error(row: nat, message: Seq<char>) -> Result<CueState, Seq<char>> {
    Err("row "@ + numbers::nat_text(row) + message)
}

/// The first word of `ws` that is no flag.
pub open spec fn bad_flag(ws: Seq<Seq<char>>) -> Option<Seq<char>>
    decreases ws.len(),
{
    if ws.len() == 0 {
        None
    } else if ws[0] != "PRE"@ && ws[0] != "DCP"@ {
        Some(ws[0])
    } else {
        bad_flag(ws.drop_first())
    }
}

/// A `FILE` line opens a file once the one before has a track with an index 01.
pub open spec fn cue_file(s: CueState, row: nat) -> Result<CueState, Seq<char>> {
    if s.file_opened && !s.index01_seen {
        row_error(row, ": previous FILE not closed"@)
    } else {
        Ok(
            CueState {
                file_opened: true,
                track_opened: false,
                gap_opened: false,
                index01_seen: false,
                last_index: 0,
                track_count: s.track_count,
            },
        )
    }
}

/// A `TRACK` line opens the next track inside a file.
pub open spec fn cue_track(s: CueState, num: nat, row: nat) -> Result<CueState, Seq<char>> {
    if s.track_count + 1 != num {
        row_error(
            row,
            ": track number not sequential (expected "@ + numbers::nat_text((s.track_count + 1) as nat)
                + ", got "@ + numbers::nat_text(num) + ")"@,
        )
    } else if !s.file_opened {
        row_error(row, ": TRACK without FILE"@)
    } else if s.track_opened && !s.index01_seen {
        row_error(row, ": previous TRACK not closed"@)
    } else {
        Ok(
            CueState {
                file_opened: true,
                track_opened: true,
                gap_opened: false,
                index01_seen: false,
                last_index: 0,
                track_count: (s.track_count + 1) as u32,
            },
        )
    }
}

/// A `CATALOG` line stands before every file and holds thirteen digits.
pub open spec fn cue_catalog(s: CueState, value: Seq<char>, row: nat) -> Result<
    CueState,
    Seq<char>,
> {
    if s.file_opened {
        row_error(row, ": CATALOG must appear before any FILE"@)
    } else if value.len() != 13 || !text::all_digits(value) {
        row_error(row, ": CATALOG must be exactly 13 digits"@)
    } else {
        Ok(s)
    }
}

/// A `FLAGS` line stands in a track before its indexes.
pub open spec fn cue_flags(s: CueState, value: Seq<char>, row: nat) -> Result<
    CueState,
    Seq<char>,
> {
    if !s.file_opened {
        row_error(row, ": FLAGS without FILE"@)
    } else if !s.track_opened {
        row_error(row, ": FLAGS without TRACK"@)
    } else if s.gap_opened {
        row_error(row, ": FLAGS after INDEX 00"@)
    } else if s.index01_seen {
        row_error(row, ": FLAGS after INDEX 01"@)
    } else {
        match bad_flag(text::words(value)) {
            Some(flag) => row_error(row, ": invalid flag '"@ + flag + "'"@),
            None => Ok(s),
        }
    }
}

/// An `ISRC` line stands in a track before its indexes and holds twelve letters and
/// digits.
pub open spec fn cue_isrc(s: CueState, value: Seq<char>, row: nat) -> Result<CueState, Seq<char>> {
    if !s.file_opened {
        row_error(row, ": ISRC without FILE"@)
    } else if !s.track_opened {
        row_error(row, ": ISRC without TRACK"@)
    } else if s.gap_opened || s.index01_seen {
        row_error(row, ": ISRC must appear before INDEX"@)
    } else if value.len() != 12 || !text::all_alnum(value) {
        row_error(row, ": ISRC must be exactly 12 alphanumeric characters"@)
    } else {
        Ok(s)
    }
}

/// An `INDEX` line: 00 opens the gap, 01 closes it, the others follow 01 in turn.
pub open spec fn cue_index(s: CueState, idx: nat, mm: nat, ss: nat, ff: nat, row: nat) -> Result<
    CueState,
    Seq<char>,
> {
    let zero = mm == 0 && ss == 0 && ff == 0;
    if !s.file_opened {
        row_error(row, ": INDEX without FILE"@)
    } else if !s.track_opened {
        row_error(row, ": INDEX without TRACK"@)
    } else if idx == 0 {
        if !zero {
            row_error(row, ": INDEX 00 must be 00:00:00"@)
        } else if s.gap_opened {
            row_error(row, ": gap already opened"@)
        } else if s.index01_seen {
            row_error(row, ": INDEX 00 after INDEX 01"@)
        } else {
            Ok(CueState { gap_opened: true, ..s })
        }
    } else if idx == 1 {
        if zero && s.gap_opened {
            row_error(row, ": gap not closed"@)
        } else if zero {
            Ok(CueState { index01_seen: true, last_index: 1, ..s })
        } else if !s.gap_opened {
            row_error(row, ": INDEX 01 with non-zero pregap requires INDEX 00 first"@)
        } else if ss >= 60 {
            row_error(row, ": seconds value "@ + numbers::nat_text(ss) + " >= 60"@)
        } else if ff >= 75 {
            row_error(row, ": frames value "@ + numbers::nat_text(ff) + " >= 75"@)
        } else {
            Ok(CueState { gap_opened: false, index01_seen: true, last_index: 1, ..s })
        }
    } else if !s.index01_seen {
        row_error(row, ": INDEX "@ + numbers::two_digits(idx) + " without INDEX 01"@)
    } else if idx != s.last_index + 1 {
        row_error(
            row,
            ": INDEX not sequential (expected "@ + numbers::two_digits((s.last_index + 1) as nat)
                + ", got "@ + numbers::two_digits(idx) + ")"@,
        )
    } else if ss >= 60 {
        row_error(row, ": seconds value "@ + numbers::nat_text(ss) + " >= 60"@)
    } else if ff >= 75 {
        row_error(row, ": frames value "@ + numbers::nat_text(ff) + " >= 75"@)
    } else {
        Ok(CueState { last_index: idx as u32, ..s })
    }
}

/// A line that says nothing about the tracks.
pub open spec fn is_remark(line: Seq<char>) -> bool {
    text::starts_with(line, "REM"@) || text::starts_with(line, "PERFORMER"@) || text::starts_with(line, "TITLE"@)
        || text::starts_with(line, "SONGWRITER"@)
}

/// What one trimmed line of a cuesheet, in capitals, does to what has been read.
pub open spec fn cue_line(s: CueState, line: Seq<char>, row: nat) -> Result<CueState, Seq<char>> {
    if line.len() == 0 {
        Ok(s)
    } else if is_file_line(line) {
        cue_file(s, row)
    } else if track_line(line) is Some {
        cue_track(s, (track_line(line)->0).0, row)
    } else if text::starts_with(line, "CATALOG "@) {
        cue_catalog(s, line.skip(8), row)
    } else if text::starts_with(line, "FLAGS "@) {
        cue_flags(s, line.skip(6), row)
    } else if text::starts_with(line, "ISRC "@) {
        cue_isrc(s, line.skip(5), row)
    } else if index_line(line) is Some {
        let i = index_line(line)->0;
        cue_index(s, i.0, i.1, i.2, i.3, row)
    } else if is_remark(line) {
        Ok(s)
    } else {
        row_error(row, ": syntax error"@)
    }
}

/// What the lines of a cuesheet do to what has been read, the first being `row`.
pub open spec fn cue_lines(s: CueState, ls: Seq<Seq<char>>, row: nat) -> Result<
    CueState,
    Seq<char>,
>
    decreases ls.len(),
{
    if ls.len() == 0 {
        Ok(s)
    } else {
        match cue_line(s, unicode::capitals(text::trim(ls[0])), row) {
            Err(e) => Err(e),
            Ok(t) => cue_lines(t, ls.drop_first(), row + 1),
        }
    }
}

/// Whether a cuesheet can be read to its end.
pub open spec fn cuesheet(text: Seq<char>) -> Result<(), Seq<char>> {
    match cue_lines(cue_start(), text::lines(text::trim(text)), 1) {
        Ok(_) => Ok(()),
        Err(e) => Err(e),
    }
}

/// Whether a line is a `FILE` line.
pub fn is_cue_file_line(line: &[char]) -> (r: bool)
    ensures
        r == is_file_line(line@),
{
    proof {
        reveal_strlit("FILE \"");
    }
    if !chars_start_with(line, "FILE \"") {
        return false;
    }
    let rest = &line[6..line.len()];
    assert(rest@ =~= line@.skip(6));
    let quote: usize = chars_index_from(rest, '"', 0);
    if quote >= rest.len() {
        return false;
    }
    let after = &rest[quote + 1..rest.len()];
    assert(after@ =~= rest@.skip(quote + 1));
    chars_are(after, " BINARY") || chars_are(after, " WAVE")
}

fn read_number(rest: &[char]) -> (r: u32)
    requires
        rest@.len() >= 2,
        text::is_digit(rest@[0]),
        text::is_digit(rest@[1]),
    ensures
        r == number(rest@),
        r <= 99,
{
    (rest[0] as u32 - '0' as u32) * 10 + (rest[1] as u32 - '0' as u32)
}

/// The number and mode of a `TRACK` line.
pub fn parse_cue_track_line(line: &[char]) -> (r: Option<(u32, String)>)
    ensures
        match r {
            Some(t) => track_line(line@) == Some((t.0 as nat, t.1@)) && t.0 <= 99,
            None => track_line(line@) is None,
        },
{
    proof {
        reveal_strlit("TRACK ");
    }
    if !chars_start_with(line, "TRACK ") {
        return None;
    }
    let rest = &line[6..line.len()];
    assert(rest@ =~= line@.skip(6));
    if rest.len() < 3 || !char_is_digit(rest[0]) || !char_is_digit(rest[1]) || rest[2] != ' ' {
        return None;
    }
    let num = read_number(rest);
    let mode = &rest[3..rest.len()];
    assert(mode@ =~= rest@.skip(3));
    if chars_are(mode, "MODE1/2352") || chars_are(mode, "MODE2/2352") || chars_are(mode, "AUDIO") {
        Some((num, string_of(mode)))
    } else {
        None
    }
}

fn chars_two_digits(s: &[char]) -> (r: bool)
    ensures
        r == is_two_digits(s@),
{
    s.len() == 2 && char_is_digit(s[0]) && char_is_digit(s[1])
}

/// The number, minutes, seconds and frames of an `INDEX` line.
pub fn parse_cue_index_line(line: &[char]) -> (r: Option<(u32, u32, u32, u32)>)
    ensures
        match r {
            Some(i) => index_line(line@) == Some((i.0 as nat, i.1 as nat, i.2 as nat, i.3 as nat))
                && i.0 <= 99,
            None => index_line(line@) is None,
        },
{
    proof {
        reveal_strlit("INDEX ");
    }
    if !chars_start_with(line, "INDEX ") {
        return None;
    }
    let rest = &line[6..line.len()];
    assert(rest@ =~= line@.skip(6));
    if rest.len() < 3 || !char_is_digit(rest[0]) || !char_is_digit(rest[1]) || rest[2] != ' ' {
        return None;
    }
    let idx = read_number(rest);
    let time = &rest[3..rest.len()];
    assert(time@ =~= rest@.skip(3));
    let parts = chars_split(time, ':');
    assert(text::slices(parts@).len() == parts@.len());
    if parts.len() != 3 {
        return None;
    }
    assert(text::slices(parts@)[0] == parts@[0]@);
    assert(text::slices(parts@)[1] == parts@[1]@);
    assert(text::slices(parts@)[2] == parts@[2]@);
    if !chars_two_digits(parts[0]) || !chars_two_digits(parts[1]) || !chars_two_digits(parts[2]) {
        return None;
    }
    Some((idx, read_number(parts[0]), read_number(parts[1]), read_number(parts[2])))
}

fn at_row(row: usize, message: &str) -> (r: String)
    ensures
        r@ == "row "@ + numbers::nat_text(row as nat) + message@,
{
    cat3("row ", write_u64(row as u64).as_str(), message)
}

/// The value of a step of the cuesheet reader.
pub open spec fn cue_result(r: Result<CueState, String>) -> Result<CueState, Seq<char>> {
    text::text_result(r)
}

fn step_file(s: CueState, row: usize) -> (r: Result<CueState, String>)
    requires
        s.wf(),
    ensures
        cue_result(r) == cue_file(s, row as nat),
        r matches Ok(t) ==> t.wf(),
{
    if s.file_opened && !s.index01_seen {
        return Err(at_row(row, ": previous FILE not closed"));
    }
    Ok(
        CueState {
            file_opened: true,
            track_opened: false,
            gap_opened: false,
            index01_seen: false,
            last_index: 0,
            track_count: s.track_count,
        },
    )
}

fn step_track(s: CueState, num: u32, row: usize) -> (r: Result<CueState, String>)
    requires
        s.wf(),
        num <= 99,
    ensures
        cue_result(r) == cue_track(s, num as nat, row as nat),
        r matches Ok(t) ==> t.wf(),
{
    if s.track_count + 1 != num {
        let m = cat5(
            ": track number not sequential (expected ",
            write_u64((s.track_count + 1) as u64).as_str(),
            ", got ",
            write_u64(num as u64).as_str(),
            ")",
        );
        return Err(at_row(row, m.as_str()));
    }
    if !s.file_opened {
        return Err(at_row(row, ": TRACK without FILE"));
    }
    if s.track_opened && !s.index01_seen {
        return Err(at_row(row, ": previous TRACK not closed"));
    }
    Ok(
        CueState {
            file_opened: true,
            track_opened: true,
            gap_opened: false,
            index01_seen: false,
            last_index: 0,
            track_count: s.track_count + 1,
        },
    )
}

fn step_catalog(s: CueState, value: &[char], row: usize) -> (r: Result<CueState, String>)
    ensures
        cue_result(r) == cue_catalog(s, value@, row as nat),
{
    if s.file_opened {
        return Err(at_row(row, ": CATALOG must appear before any FILE"));
    }
    if value.len() != 13 || !chars_all_digits(value) {
        return Err(at_row(row, ": CATALOG must be exactly 13 digits"));
    }
    Ok(s)
}

fn step_flags(s: CueState, value: &[char], row: usize) -> (r: Result<CueState, String>)
    ensures
        cue_result(r) == cue_flags(s, value@, row as nat),
{
    if !s.file_opened {
        return Err(at_row(row, ": FLAGS without FILE"));
    }
    if !s.track_opened {
        return Err(at_row(row, ": FLAGS without TRACK"));
    }
    if s.gap_opened {
        return Err(at_row(row, ": FLAGS after INDEX 00"));
    }
    if s.index01_seen {
        return Err(at_row(row, ": FLAGS after INDEX 01"));
    }
    let flags = chars_words(value);
    let ghost ws = text::slices(flags@);
    assert(ws.skip(0) =~= ws);
    for i in 0..flags.len()
        invariant
            ws == text::slices(flags@),
            ws == text::words(value@),
            bad_flag(ws.skip(i as int)) == bad_flag(ws),
            s.file_opened && s.track_opened && !s.gap_opened && !s.index01_seen,
    {
        proof {
            let rest = ws.skip(i as int);
            assert(rest[0] == flags@[i as int]@);
            assert(rest.drop_first() =~= ws.skip(i + 1));
        }
        if !chars_are(flags[i], "PRE") && !chars_are(flags[i], "DCP") {
            let m = cat3(": invalid flag '", string_of(flags[i]).as_str(), "'");
            return Err(at_row(row, m.as_str()));
        }
    }
    Ok(s)
}

fn step_isrc(s: CueState, value: &[char], row: usize) -> (r: Result<CueState, String>)
    ensures
        cue_result(r) == cue_isrc(s, value@, row as nat),
{
    if !s.file_opened {
        return Err(at_row(row, ": ISRC without FILE"));
    }
    if !s.track_opened {
        return Err(at_row(row, ": ISRC without TRACK"));
    }
    if s.gap_opened || s.index01_seen {
        return Err(at_row(row, ": ISRC must appear before INDEX"));
    }
    if value.len() != 12 || !chars_all_alnum(value) {
        return Err(at_row(row, ": ISRC must be exactly 12 alphanumeric characters"));
    }
    Ok(s)
}

fn step_index(s: CueState, idx: u32, mm: u32, ss: u32, ff: u32, row: usize) -> (r: Result<
    CueState,
    String,
>)
    requires
        s.wf(),
        idx <= 99,
    ensures
        cue_result(r) == cue_index(
            s,
            idx as nat,
            mm as nat,
            ss as nat,
            ff as nat,
            row as nat,
        ),
        r matches Ok(t) ==> t.wf(),
{
    let zero = mm == 0 && ss == 0 && ff == 0;
    if !s.file_opened {
        return Err(at_row(row, ": INDEX without FILE"));
    }
    if !s.track_opened {
        return Err(at_row(row, ": INDEX without TRACK"));
    }
    if idx == 0 {
        if !zero {
            return Err(at_row(row, ": INDEX 00 must be 00:00:00"));
        }
        if s.gap_opened {
            return Err(at_row(row, ": gap already opened"));
        }
        if s.index01_seen {
            return Err(at_row(row, ": INDEX 00 after INDEX 01"));
        }
        return Ok(CueState { gap_opened: true, ..s });
    }
    if idx == 1 {
        if zero {
            if s.gap_opened {
                return Err(at_row(row, ": gap not closed"));
            }
            return Ok(CueState { index01_seen: true, last_index: 1, ..s });
        }
        if !s.gap_opened {
            return Err(
                at_row(row, ": INDEX 01 with non-zero pregap requires INDEX 00 first"),
            );
        }
        if ss >= 60 {
            let m = cat3(": seconds value ", write_u64(ss as u64).as_str(), " >= 60");
            return Err(at_row(row, m.as_str()));
        }
        if ff >= 75 {
            let m = cat3(": frames value ", write_u64(ff as u64).as_str(), " >= 75");
            return Err(at_row(row, m.as_str()));
        }
        return Ok(CueState { gap_opened: false, index01_seen: true, last_index: 1, ..s });
    }
    if !s.index01_seen {
        let m = cat3(": INDEX ", write_two_digits(idx).as_str(), " without INDEX 01");
        return Err(at_row(row, m.as_str()));
    }
    if idx != s.last_index + 1 {
        let m = cat5(
            ": INDEX not sequential (expected ",
            write_two_digits(s.last_index + 1).as_str(),
            ", got ",
            write_two_digits(idx).as_str(),
            ")",
        );
        return Err(at_row(row, m.as_str()));
    }
    if ss >= 60 {
        let m = cat3(": seconds value ", write_u64(ss as u64).as_str(), " >= 60");
        return Err(at_row(row, m.as_str()));
    }
    if ff >= 75 {
        let m = cat3(": frames value ", write_u64(ff as u64).as_str(), " >= 75");
        return Err(at_row(row, m.as_str()));
    }
    Ok(CueState { last_index: idx, ..s })
}

/// Read one trimmed line of a cuesheet, in capitals.
pub fn read_cue_line(s: CueState, upper_line: &str, row: usize) -> (r: Result<CueState, String>)
    requires
        s.wf(),
    ensures
        cue_result(r) == cue_line(s, upper_line@, row as nat),
        r matches Ok(t) ==> t.wf(),
{
    let line = chars_of(upper_line);
    let line: &[char] = &line;
    if line.len() == 0 {
        return Ok(s);
    }
    if is_cue_file_line(line) {
        return step_file(s, row);
    }
    if let Some((num, _mode)) = parse_cue_track_line(line) {
        return step_track(s, num, row);
    }
    proof {
        reveal_strlit("CATALOG ");
        reveal_strlit("FLAGS ");
        reveal_strlit("ISRC ");
    }
    if chars_start_with(line, "CATALOG ") {
        let value = &line[8..line.len()];
        assert(value@ =~= line@.skip(8));
        return step_catalog(s, value, row);
    }
    if chars_start_with(line, "FLAGS ") {
        let value = &line[6..line.len()];
        assert(value@ =~= line@.skip(6));
        return step_flags(s, value, row);
    }
    if chars_start_with(line, "ISRC ") {
        let value = &line[5..line.len()];
        assert(value@ =~= line@.skip(5));
        return step_isrc(s, value, row);
    }
    if let Some((idx, mm, ss, ff)) = parse_cue_index_line(line) {
        return step_index(s, idx, mm, ss, ff, row);
    }
    if chars_start_with(line, "REM") || chars_start_with(line, "PERFORMER") || chars_start_with(
        line,
        "TITLE",
    ) || chars_start_with(line, "SONGWRITER") {
        return Ok(s);
    }
    Err(at_row(row, ": syntax error"))
}

/// Accept a cuesheet.
pub fn validate_cuesheet(text: &str) -> (r: Result<(), String>)
    ensures
        text::text_result(r) == cuesheet(text@),
{
    let chars = chars_of(text);
    let t = chars_trim(&chars);
    let ls = chars_lines(t);
    let ghost spec_lines = text::slices(ls@);
    let mut state = CueState {
        file_opened: false,
        track_opened: false,
        gap_opened: false,
        index01_seen: false,
        last_index: 0,
        track_count: 0,
    };
    assert(spec_lines.skip(0) =~= spec_lines);
    for i in 0..ls.len()
        invariant
            spec_lines == text::slices(ls@),
            spec_lines == text::lines(text::trim(text@)),
            state.wf(),
            cue_lines(state, spec_lines.skip(i as int), (i + 1) as nat) == cue_lines(
                cue_start(),
                spec_lines,
                1,
            ),
    {
        let line = string_of(chars_trim(ls[i]));
        let upper_line = to_uppercase(line.as_str());
        proof {
            let rest = spec_lines.skip(i as int);
            assert(rest[0] == ls@[i as int]@);
            assert(rest.drop_first() =~= spec_lines.skip(i + 1));
        }
        match read_cue_line(state, upper_line.as_str(), i + 1) {
            Ok(next) => {
                state = next;
            },
            Err(e) => {
                return Err(e);
            },
        }
    }
    Ok(())
}

proof fn lemma_cue_lines_append(s: CueState, a: Seq<Seq<char>>, b: Seq<Seq<char>>, row: nat)
    ensures
        cue_lines(s, a + b, row) == (match cue_lines(s, a, row) {
            Ok(t) => cue_lines(t, b, row + a.len()),
            Err(e) => Err(e),
        }),
    decreases a.len(),
{
    if a.len() == 0 {
        assert(a + b =~= b);
    } else {
        assert((a + b)[0] == a[0]);
        assert((a + b).drop_first() =~= a.drop_first() + b);
        match cue_line(s, unicode::capitals(text::trim(a[0])), row) {
            Ok(t) => {
                lemma_cue_lines_append(t, a.drop_first(), b, row + 1);
            },
            Err(_) => {},
        }
    }
}

proof fn lemma_cue_row(s: CueState, line: Seq<char>, row: nat, other: nat)
    requires
        cue_line(s, line, row) is Ok,
    ensures
        cue_line(s, line, other) == cue_line(s, line, row),
{
}

proof fn lemma_no_capitals()
    ensures
        unicode::capitals(Seq::empty()) == Seq::<char>::empty(),
{
    assert(unicode::capitals(Seq::empty()) =~= Seq::<char>::empty());
}

/// What lines do, where they are accepted, rests on what they say.
proof fn lemma_cue_content(s: CueState, ls: Seq<Seq<char>>, row: nat, other: nat)
    ensures
        cue_lines(s, ls, row) is Ok <==> cue_lines(s, content_lines::content(ls), other) is Ok,
        cue_lines(s, ls, row) matches Ok(t) ==> cue_lines(s, content_lines::content(ls), other) == Ok::<
            CueState,
            Seq<char>,
        >(t),
    decreases ls.len(),
{
    if ls.len() > 0 {
        let x = ls[0];
        let rest = ls.drop_first();
        assert(seq![x] + rest =~= ls);
        content_lines::lemma_content_concat(seq![x], rest);
        content_lines::lemma_content_one(x);
        lemma_no_capitals();
        text::lemma_trim_idempotent(x);
        if text::trim(x).len() == 0 {
            assert(text::trim(x) =~= Seq::<char>::empty());
            assert(content_lines::content(ls) =~= content_lines::content(rest));
            lemma_cue_content(s, rest, row + 1, other);
        } else {
            let c = content_lines::content(ls);
            assert(c[0] == text::trim(x));
            assert(c.drop_first() =~= content_lines::content(rest));
            let line = unicode::capitals(text::trim(x));
            if cue_line(s, line, row) is Ok {
                lemma_cue_row(s, line, row, other);
                lemma_cue_content(cue_line(s, line, row)->Ok_0, rest, row + 1, other + 1);
            } else if cue_line(s, line, other) is Ok {
                lemma_cue_row(s, line, other, row);
            }
        }
    } else {
        assert(content_lines::content(ls) =~= ls);
    }
}

/// The first lines of a cuesheet that is accepted, put together to a text, are accepted.
pub proof fn law_first_lines_are_accepted(text: Seq<char>, k: int)
    requires
        cuesheet(text) is Ok,
        0 <= k <= text::lines(text).len(),
    ensures
        cuesheet(text::join(text::lines(text).take(k), "\n"@)) is Ok,
{
    let ls = text::lines(text);
    let a = ls.take(k);
    let b = ls.skip(k);
    let s = cue_start();
    assert(a + b =~= ls);
    content_lines::law_trim_keeps_content(text);
    lemma_cue_content(s, text::lines(text::trim(text)), 1, 1);
    lemma_cue_content(s, ls, 1, 1);
    lemma_cue_lines_append(s, a, b, 1);
    lemma_cue_content(s, a, 1, 1);
    content_lines::lemma_lines_have_no_feed(text);
    assert forall|i: int| 0 <= i < a.len() implies !(#[trigger] a[i]).contains('\n') by {
        assert(a[i] == ls[i]);
    }
    content_lines::law_joined_keeps_content(a);
    let joined = text::join(a, "\n"@);
    content_lines::law_trim_keeps_content(joined);
    lemma_cue_content(s, text::lines(text::trim(joined)), 1, 1);
}

proof fn lemma_upper_char(c: char)
    ensures
        text::is_space(text::upper(c)) == text::is_space(c),
        (text::upper(c) == '\n') == (c == '\n'),
        (text::upper(c) == '\r') == (c == '\r'),
        text::upper(text::upper(c)) == text::upper(c),
        (text::upper(c) as int) < 128 <==> (c as int) < 128,
{
}

proof fn lemma_upper_trim(s: Seq<char>)
    ensures
        text::trim(text::upper_text(s)) == text::upper_text(text::trim(s)),
{
    let u = text::upper_text(s);
    let k = text::lemma_trim_start_skip(s);
    let j = text::lemma_trim_start_skip(u);
    if j < s.len() {
        lemma_upper_char(s[j]);
    }
    if k < s.len() {
        lemma_upper_char(s[k]);
    }
    if j < k {
        assert(text::is_space(s[j]));
    }
    if k < j {
        assert(text::is_space(u[k]));
    }
    assert(j == k);
    assert(u.skip(k) =~= text::upper_text(s.skip(k)));
    let a = s.skip(k);
    let b = u.skip(k);
    let x = text::lemma_trim_end_take(a);
    let y = text::lemma_trim_end_take(b);
    if y > 0 {
        lemma_upper_char(a[y - 1]);
    }
    if x > 0 {
        lemma_upper_char(a[x - 1]);
    }
    if x < y {
        assert(text::is_space(a[y - 1]));
    }
    if y < x {
        assert(text::is_space(b[x - 1]));
    }
    assert(b.take(x) =~= text::upper_text(a.take(x)));
}

/// Lines in ASCII capitals.
pub open spec fn upper_lines(ls: Seq<Seq<char>>) -> Seq<Seq<char>> {
    ls.map_values(|l: Seq<char>| text::upper_text(l))
}

proof fn lemma_upper_lines(s: Seq<char>)
    ensures
        text::lines(text::upper_text(s)) == upper_lines(text::lines(s)),
    decreases s.len(),
{
    let u = text::upper_text(s);
    text::lemma_index_from(s, '\n', 0);
    text::lemma_index_from(u, '\n', 0);
    let i = text::index_from(s, '\n', 0);
    let k = text::index_from(u, '\n', 0);
    if i < s.len() {
        lemma_upper_char(s[i]);
        assert(u[i] == '\n');
    }
    if k < s.len() {
        lemma_upper_char(s[k]);
        assert(s[k] == '\n');
    }
    assert(i == k);
    if s.len() == 0 {
        assert(text::lines(u) =~= upper_lines(text::lines(s)));
    } else if i < s.len() {
        let x = s.take(i);
        assert(u.take(i) =~= text::upper_text(x));
        assert(u.skip(i + 1) =~= text::upper_text(s.skip(i + 1)));
        lemma_upper_lines(s.skip(i + 1));
        if x.len() > 0 {
            lemma_upper_char(x.last());
            assert(text::upper_text(x).last() == text::upper(x.last()));
            assert(text::upper_text(x).drop_last() =~= text::upper_text(x.drop_last()));
        }
        assert(text::strip_cr(text::upper_text(x)) == text::upper_text(text::strip_cr(x)));
        assert(text::lines(u) =~= upper_lines(text::lines(s)));
    } else {
        assert(text::lines(u) =~= upper_lines(text::lines(s)));
    }
}

proof fn lemma_upper_capitals(s: Seq<char>)
    ensures
        unicode::capitals(text::upper_text(s)) == unicode::capitals(s),
{
    let u = text::upper_text(s);
    assert forall|i: int| 0 <= i < s.len() implies text::upper_text(u)[i] == u[i] by {
        lemma_upper_char(s[i]);
    }
    assert(text::upper_text(u) =~= u);
    if unicode::is_ascii_text(s) {
        assert forall|i: int| 0 <= i < u.len() implies (#[trigger] u[i] as int) < 128 by {
            lemma_upper_char(s[i]);
        }
    }
    if unicode::is_ascii_text(u) {
        assert forall|i: int| 0 <= i < s.len() implies (#[trigger] s[i] as int) < 128 by {
            lemma_upper_char(s[i]);
            assert((u[i] as int) < 128);
        }
    }
}

proof fn lemma_upper_cue_lines(s: CueState, ls: Seq<Seq<char>>, row: nat)
    ensures
        cue_lines(s, upper_lines(ls), row) == cue_lines(s, ls, row),
    decreases ls.len(),
{
    if ls.len() > 0 {
        let u = upper_lines(ls);
        lemma_upper_trim(ls[0]);
        lemma_upper_capitals(text::trim(ls[0]));
        assert(u[0] == text::upper_text(ls[0]));
        assert(u.drop_first() =~= upper_lines(ls.drop_first()));
        match cue_line(s, unicode::capitals(text::trim(ls[0])), row) {
            Ok(t) => {
                lemma_upper_cue_lines(t, ls.drop_first(), row + 1);
            },
            Err(_) => {},
        }
    }
}

/// A cuesheet is read whatever the case of its ASCII letters: in capitals it is accepted or
/// refused in the same words.
pub proof fn law_cuesheet_ignores_case(text: Seq<char>)
    ensures
        cuesheet(text::upper_text(text)) == cuesheet(text),
{
    lemma_upper_trim(text);
    lemma_upper_lines(text::trim(text));
    lemma_upper_cue_lines(cue_start(), text::lines(text::trim(text)), 1);
}

/// Reading a cuesheet goes line by line: what follows is read from where the lines
/// before it left off, and a refused beginning is refused whatever follows.
pub proof fn law_cuesheet_reads_in_order(
    s: CueState,
    a: Seq<Seq<char>>,
    b: Seq<Seq<char>>,
    row: nat,
)
    ensures
        cue_lines(s, a, row) is Err ==> cue_lines(s, a + b, row) == cue_lines(s, a, row),
        cue_lines(s, a, row) matches Ok(t) ==> cue_lines(s, a + b, row) == cue_lines(
            t,
            b,
            row + a.len(),
        ),
{
    lemma_cue_lines_append(s, a, b, row);
}

/// The invariant of the cuesheet reader.
pub open spec fn cue_consistent(s: CueState) -> bool {
    &&& s.wf()
    &&& s.track_opened ==> s.file_opened
    &&& s.gap_opened ==> s.track_opened
    &&& s.index01_seen ==> s.track_opened
    &&& (s.last_index == 0 <==> !s.index01_seen)
    &&& !(s.gap_opened && s.index01_seen)
}

/// Every line keeps the reader consistent: a track is open only in a file, an index
/// only in a track, and a gap is open only before index 01. Track numbers go up one by
/// one.
pub proof fn law_cue_line_keeps_consistent(s: CueState, line: Seq<char>, row: nat)
    requires
        cue_consistent(s),
    ensures
        cue_line(s, line, row) matches Ok(t) ==> cue_consistent(t) && s.track_count
            <= t.track_count <= s.track_count + 1,
{
    if track_line(line) is Some {
        let rest = line.skip(6);
        assert(number(rest) <= 99);
    }
    if index_line(line) is Some {
        let rest = line.skip(6);
        assert(number(rest) <= 99);
    }
}

// ── Track lists ────────────────────────────────────────────────────────────

/// The value of an attribute, up to the quote that ends it.
pub open spec fn attribute(line: Seq<char>, attr: Seq<char>) -> Option<Seq<char>> {
    let needle = attr + "=\""@;
    match text::find(line, needle) {
        None => None,
        Some(p) => {
            let rest = line.skip(p + needle.len());
            let q = text::index_from(rest, '"', 0);
            if q < rest.len() {
                Some(rest.take(q))
            } else {
                None
            }
        },
    }
}

/// The value of an attribute of a `rom` line.
pub fn dat_extract_attr(line: &str, attr: &str) -> (r: Option<String>)
    ensures
        text::opt_text(r) == attribute(line@, attr@),
{
    let l = chars_of(line);
    chars_attribute(&l, attr)
}

/// The value of an attribute of a `rom` line.
pub fn chars_attribute(l: &[char], attr: &str) -> (r: Option<String>)
    ensures
        text::opt_text(r) == attribute(l@, attr@),
{
    let needle = cat2(attr, "=\"");
    let n = chars_of(needle.as_str());
    match chars_find_from(l, &n, 0) {
        None => None,
        Some(p) => {
            let end: usize = l.len();
            let rest = &l[p + n.len()..end];
            assert(rest@ =~= l@.skip(p + n@.len()));
            let q: usize = chars_index_from(rest, '"', 0);
            if q < rest.len() {
                let value = &rest[0..q];
                assert(value@ =~= rest@.take(q as int));
                Some(string_of(value))
            } else {
                None
            }
        },
    }
}

/// The track that a file name stands for.
pub fn dat_extract_track_number(filename: &str) -> (r: Option<String>)
    ensures
        text::opt_text(r) == models::track_of_name(filename@),
{
    extract_track_from_filename(filename)
}

/// A hash of `n` hexadecimal digits.
pub open spec fn is_hash(s: Seq<char>, n: nat) -> bool {
    s.len() == n && text::all_hex(s)
}

/// The name in a trimmed `rom` line, or what is wrong with the line.
pub open spec fn dat_line(line: Seq<char>, row: nat) -> Result<Seq<char>, Seq<char>> {
    let at = "row "@ + numbers::nat_text(row);
    if !text::starts_with(line, "<rom "@) || !text::ends_with(line, "/>"@) {
        Err(at + ": expected <rom ... /> format"@)
    } else if attribute(line, "name"@) is None {
        Err(at + ": missing 'name' attribute"@)
    } else if attribute(line, "name"@)->0.len() == 0 {
        Err(at + ": 'name' cannot be empty"@)
    } else if attribute(line, "size"@) is None {
        Err(at + ": missing 'size' attribute"@)
    } else if numbers::u64_value(attribute(line, "size"@)->0) is None {
        Err(at + ": 'size' must be a non-negative integer"@)
    } else if attribute(line, "crc"@) is None {
        Err(at + ": missing 'crc' attribute"@)
    } else if !is_hash(attribute(line, "crc"@)->0, 8) {
        Err(at + ": 'crc' must be 8 hex characters"@)
    } else if attribute(line, "md5"@) is None {
        Err(at + ": missing 'md5' attribute"@)
    } else if !is_hash(attribute(line, "md5"@)->0, 32) {
        Err(at + ": 'md5' must be 32 hex characters"@)
    } else if attribute(line, "sha1"@) is None {
        Err(at + ": missing 'sha1' attribute"@)
    } else if !is_hash(attribute(line, "sha1"@)->0, 40) {
        Err(at + ": 'sha1' must be 40 hex characters"@)
    } else {
        Ok(attribute(line, "name"@)->0)
    }
}

/// The names of the lines that are not blank, each with its row.
pub open spec fn dat_names(ls: Seq<Seq<char>>, row: nat) -> Result<
    Seq<(nat, Seq<char>)>,
    Seq<char>,
>
    decreases ls.len(),
{
    if ls.len() == 0 {
        Ok(Seq::empty())
    } else if text::trim(ls[0]).len() == 0 {
        dat_names(ls.drop_first(), row + 1)
    } else {
        match dat_line(text::trim(ls[0]), row) {
            Err(e) => Err(e),
            Ok(name) => match dat_names(ls.drop_first(), row + 1) {
                Err(e) => Err(e),
                Ok(rest) => Ok(seq![(row, name)] + rest),
            },
        }
    }
}

/// The complaint about the first name without a track number.
pub open spec fn untracked(names: Seq<(nat, Seq<char>)>) -> Result<(), Seq<char>>
    decreases names.len(),
{
    if names.len() == 0 {
        Ok(())
    } else if models::track_of_name(names[0].1) is None {
        Err(
            "row "@ + numbers::nat_text(names[0].0)
                + ": 'name' must contain a recognizable track number when multiple tracks are present"@,
        )
    } else {
        untracked(names.drop_first())
    }
}

/// Whether a track list is well formed: every line that is not blank is a complete
/// `rom` line, and with more than one of them every name has a track number.
pub open spec fn dat(text: Seq<char>) -> Result<(), Seq<char>> {
    match dat_names(text::lines(text::trim(text)), 1) {
        Err(e) => Err(e),
        Ok(names) => if names.len() > 1 {
            untracked(names)
        } else {
            Ok(())
        },
    }
}

fn check_dat_line(line: &[char], row: usize) -> (r: Result<String, String>)
    ensures
        match r {
            Ok(name) => dat_line(line@, row as nat) == Ok::<Seq<char>, Seq<char>>(name@),
            Err(e) => dat_line(line@, row as nat) == Err::<Seq<char>, Seq<char>>(e@),
        },
{
    if !chars_start_with(line, "<rom ") || !chars_end_with(line, "/>") {
        return Err(at_row(row, ": expected <rom ... /> format"));
    }
    let name = match chars_attribute(line, "name") {
        Some(v) => v,
        None => {
            return Err(at_row(row, ": missing 'name' attribute"));
        },
    };
    if name.as_str().is_empty() {
        return Err(at_row(row, ": 'name' cannot be empty"));
    }
    let size = match chars_attribute(line, "size") {
        Some(v) => v,
        None => {
            return Err(at_row(row, ": missing 'size' attribute"));
        },
    };
    if read_u64(&chars_of(size.as_str())).is_none() {
        return Err(at_row(row, ": 'size' must be a non-negative integer"));
    }
    let crc = match chars_attribute(line, "crc") {
        Some(v) => v,
        None => {
            return Err(at_row(row, ": missing 'crc' attribute"));
        },
    };
    let crc = chars_of(crc.as_str());
    if crc.len() != 8 || !chars_all_hex(&crc) {
        return Err(at_row(row, ": 'crc' must be 8 hex characters"));
    }
    let md5 = match chars_attribute(line, "md5") {
        Some(v) => v,
        None => {
            return Err(at_row(row, ": missing 'md5' attribute"));
        },
    };
    let md5 = chars_of(md5.as_str());
    if md5.len() != 32 || !chars_all_hex(&md5) {
        return Err(at_row(row, ": 'md5' must be 32 hex characters"));
    }
    let sha1 = match chars_attribute(line, "sha1") {
        Some(v) => v,
        None => {
            return Err(at_row(row, ": missing 'sha1' attribute"));
        },
    };
    let sha1 = chars_of(sha1.as_str());
    if sha1.len() != 40 || !chars_all_hex(&sha1) {
        return Err(at_row(row, ": 'sha1' must be 40 hex characters"));
    }
    Ok(name)
}

/// Rows and names as values.
pub open spec fn row_names(v: Seq<(usize, String)>) -> Seq<(nat, Seq<char>)> {
    v.map_values(|p: (usize, String)| (p.0 as nat, p.1@))
}

/// Accept a track list.
pub fn validate_dat(text: &str) -> (r: Result<(), String>)
    ensures
        text::text_result(r) == dat(text@),
{
    let chars = chars_of(text);
    let t = chars_trim(&chars);
    let ls = chars_lines(t);
    let ghost spec_lines = text::slices(ls@);
    let mut names: Vec<(usize, String)> = Vec::new();
    assert(spec_lines.skip(0) =~= spec_lines);
    proof {
        match dat_names(spec_lines, 1) {
            Ok(b) => {
                assert(row_names(names@) + b =~= b);
            },
            Err(_) => {},
        }
    }
    for i in 0..ls.len()
        invariant
            spec_lines == text::slices(ls@),
            spec_lines == text::lines(text::trim(text@)),
            match dat_names(spec_lines.skip(i as int), (i + 1) as nat) {
                Ok(b) => dat_names(spec_lines, 1) == Ok::<Seq<(nat, Seq<char>)>, Seq<char>>(
                    row_names(names@) + b,
                ),
                Err(e) => dat_names(spec_lines, 1) == Err::<Seq<(nat, Seq<char>)>, Seq<char>>(e),
            },
    {
        let line = chars_trim(ls[i]);
        let ghost rest = spec_lines.skip(i as int);
        proof {
            assert(rest[0] == ls@[i as int]@);
            assert(rest.drop_first() =~= spec_lines.skip(i + 1));
        }
        if line.len() > 0 {
            match check_dat_line(line, i + 1) {
                Err(e) => {
                    return Err(e);
                },
                Ok(name) => {
                    let ghost before = names@;
                    let ghost pair = ((i + 1) as nat, name@);
                    names.push((i + 1, name));
                    proof {
                        assert(row_names(names@) =~= row_names(before).push(pair));
                        match dat_names(spec_lines.skip(i + 1), (i + 2) as nat) {
                            Ok(b) => {
                                assert(row_names(before) + (seq![pair] + b) =~= row_names(names@)
                                    + b);
                            },
                            Err(_) => {},
                        }
                    }
                },
            }
        }
    }
    let ghost all = row_names(names@);
    assert(all + Seq::<(nat, Seq<char>)>::empty() =~= all);
    assert(dat_names(spec_lines, 1) == Ok::<Seq<(nat, Seq<char>)>, Seq<char>>(all));
    if names.len() > 1 {
        assert(all.skip(0) =~= all);
        for i in 0..names.len()
            invariant
                all == row_names(names@),
                names@.len() > 1,
                dat_names(text::lines(text::trim(text@)), 1) == Ok::<Seq<(nat, Seq<char>)>, Seq<char>>(all),
                untracked(all.skip(i as int)) == untracked(all),
        {
            proof {
                let rest = all.skip(i as int);
                assert(rest[0] == (names@[i as int].0 as nat, names@[i as int].1@));
                assert(rest.drop_first() =~= all.skip(i + 1));
            }
            if dat_extract_track_number(names[i].1.as_str()).is_none() {
                return Err(
                    at_row(
                        names[i].0,
                        ": 'name' must contain a recognizable track number when multiple tracks are present",
                    ),
                );
            }
        }
    }
    Ok(())
}

} // verus!
