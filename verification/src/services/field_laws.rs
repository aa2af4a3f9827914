//! What the fields of a submission may hold.

use vstd::prelude::*;

use crate::numbers;
use crate::services::validation;
use crate::text;

verus! {

// ── Numbers ────────────────────────────────────────────────────────────────

proof fn lemma_int_text_trimmed(n: int)
    ensures
        text::trim(numbers::int_text(n)) == numbers::int_text(n),
        numbers::int_text(n).len() > 0,
        forall|i: int|
            0 <= i < numbers::int_text(n).len() ==> text::is_digit(#[trigger] numbers::int_text(n)[i]) || (i == 0
                && numbers::int_text(n)[i] == '-'),
        text::is_digit(numbers::int_text(n).last()),
{
    let m = if n < 0 {
        (-n) as nat
    } else {
        n as nat
    };
    numbers::law_nat_text_reads_back(m);
    let d = numbers::nat_text(m);
    let t = numbers::int_text(n);
    assert forall|i: int| 0 <= i < t.len() implies text::is_digit(#[trigger] t[i]) || (i == 0 && t[i]
        == '-') by {
        if n < 0 {
            if i > 0 {
                assert(t[i] == d[i - 1]);
            }
        } else {
            assert(t[i] == d[i]);
        }
    }
    assert(text::is_digit(d[d.len() - 1]));
    assert(t.last() == d.last());
    lemma_unspaced_trim(t);
}

proof fn lemma_unspaced_trim(t: Seq<char>)
    requires
        t.len() > 0,
        !text::is_space(t[0]),
        !text::is_space(t.last()),
    ensures
        text::trim(t) == t,
{
    let k = text::lemma_trim_start_skip(t);
    assert(k == 0);
    assert(t.skip(0) =~= t);
    let m = text::lemma_trim_end_take(t);
    if m < t.len() {
        assert(text::is_space(t[t.len() - 1]));
    }
    assert(t.take(m) =~= t);
}

/// A count is accepted as what it says, exactly if it is not negative.
pub proof fn law_counts_read_back(n: i64)
    ensures
        n >= 0 ==> validation::non_negative_int(numbers::int_text(n as int)) == Ok::<int, Seq<char>>(n as int),
        n < 0 ==> validation::non_negative_int(numbers::int_text(n as int)) is Err,
{
    lemma_int_text_trimmed(n as int);
    numbers::law_int_text_reads_back(n);
}

/// An offset is accepted as what it says, if it fits.
pub proof fn law_offsets_read_back(n: i32)
    ensures
        validation::signed_int(numbers::int_text(n as int)) == Ok::<int, Seq<char>>(n as int),
{
    lemma_int_text_trimmed(n as int);
    numbers::law_int_text_reads_back(n as i64);
    assert(numbers::i32_value(numbers::int_text(n as int)) == Some(n as int));
}

// ── Ranges ─────────────────────────────────────────────────────────────────

proof fn lemma_hyphen(s: Seq<char>, i: int, h: int)
    requires
        1 <= i <= h < s.len(),
        s[h] == '-',
        text::is_digit(s[h - 1]),
        forall|k: int| 1 <= k < h ==> #[trigger] s[k] != '-',
    ensures
        validation::range_hyphen(s, i) == h,
    decreases h - i,
{
    if i < h {
        lemma_hyphen(s, i + 1, h);
    }
}

/// A range is read as its two ends, the first before the second.
pub proof fn law_ranges_read_back(a: i32, b: i32)
    ensures
        validation::range_of_line(numbers::int_text(a as int) + "-"@ + numbers::int_text(b as int)) == Some((a as int, b as int)),
{
    reveal_strlit("-");
    lemma_int_text_trimmed(a as int);
    lemma_int_text_trimmed(b as int);
    numbers::law_int_text_reads_back(a as i64);
    numbers::law_int_text_reads_back(b as i64);
    let x = numbers::int_text(a as int);
    let y = numbers::int_text(b as int);
    let line = x + "-"@ + y;
    let h = x.len() as int;
    assert(line[h] == '-');
    assert(line[h - 1] == x[h - 1]);
    assert forall|k: int| 1 <= k < h implies #[trigger] line[k] != '-' by {
        assert(line[k] == x[k]);
    }
    lemma_hyphen(line, 1, h);
    assert(line.take(h) =~= x);
    assert(line.skip(h + 1) =~= y);
}

/// A text without a hyphen behind a digit is no range.
pub proof fn law_one_number_is_no_range(line: Seq<char>)
    requires
        forall|k: int| 1 <= k < line.len() ==> #[trigger] line[k] != '-',
    ensures
        validation::range_of_line(line) is None,
{
    lemma_no_hyphen(line, 1);
}

proof fn lemma_no_hyphen(s: Seq<char>, i: int)
    requires
        1 <= i,
        forall|k: int| 1 <= k < s.len() ==> #[trigger] s[k] != '-',
    ensures
        validation::range_hyphen(s, i) == s.len(),
    decreases s.len() - i,
{
    if i < s.len() {
        lemma_no_hyphen(s, i + 1);
    }
}

// ── Subchannel lines ───────────────────────────────────────────────────────

/// A byte is one that a character of a mask stands for: `9` for any digit, `#` for any
/// hexadecimal digit, any other character for itself.
pub open spec fn fits_mask(b: u8, m: char) -> bool {
    if m == '9' {
        validation::digit_byte(b)
    } else if m == '#' {
        validation::hex_byte(b)
    } else {
        b == m as u8
    }
}

/// Bytes are those of a mask.
pub open spec fn has_mask(b: Seq<u8>, mask: Seq<char>) -> bool {
    b.len() == mask.len() && forall|i: int|
        0 <= i < mask.len() ==> fits_mask(#[trigger] b[i], mask[i])
}

/// The subchannel data is accepted exactly if it looks like its mask.
pub proof fn law_subchannel_data(b: Seq<u8>)
    ensures
        validation::q_data(b) is Ok <==> has_mask(b, "###### ##:##:## ## ##:##:## ####"@),
{
    reveal_strlit("###### ##:##:## ## ##:##:## ####");
    let mask = "###### ##:##:## ## ##:##:## ####"@;
    assert(mask.len() == 32);
    if has_mask(b, mask) {
        assert(fits_mask(b[0], mask[0]) && fits_mask(b[1], mask[1]) && fits_mask(b[2], mask[2])
            && fits_mask(b[3], mask[3]) && fits_mask(b[4], mask[4]) && fits_mask(b[5], mask[5])
            && fits_mask(b[6], mask[6]) && fits_mask(b[7], mask[7]));
        assert(fits_mask(b[8], mask[8]) && fits_mask(b[9], mask[9]) && fits_mask(b[10], mask[10])
            && fits_mask(b[11], mask[11]) && fits_mask(b[12], mask[12]) && fits_mask(
            b[13],
            mask[13],
        ) && fits_mask(b[14], mask[14]) && fits_mask(b[15], mask[15]));
        assert(fits_mask(b[16], mask[16]) && fits_mask(b[17], mask[17]) && fits_mask(
            b[18],
            mask[18],
        ) && fits_mask(b[19], mask[19]) && fits_mask(b[20], mask[20]) && fits_mask(b[21], mask[21])
            && fits_mask(b[22], mask[22]) && fits_mask(b[23], mask[23]));
        assert(fits_mask(b[24], mask[24]) && fits_mask(b[25], mask[25]) && fits_mask(
            b[26],
            mask[26],
        ) && fits_mask(b[27], mask[27]) && fits_mask(b[28], mask[28]) && fits_mask(b[29], mask[29])
            && fits_mask(b[30], mask[30]) && fits_mask(b[31], mask[31]));
    }
}

/// A subchannel line is accepted exactly if it holds a position of minutes, seconds and
/// frames and then its data.
pub proof fn law_subchannel_lines(b: Seq<u8>)
    ensures
        validation::sbi_line(b) is Ok <==> b.len() == 54 && has_mask(
            b.take(22),
            "MSF: 99:99:99 Q-Data: "@,
        ) && has_mask(b.skip(22), "###### ##:##:## ## ##:##:## ####"@),
{
    reveal_strlit("MSF: 99:99:99 Q-Data: ");
    reveal_strlit("MSF: ");
    reveal_strlit(" Q-Data: ");
    reveal_strlit("###### ##:##:## ## ##:##:## ####");
    let mask = "MSF: 99:99:99 Q-Data: "@;
    assert(mask.len() == 22);
    let m = b.skip(5);
    let h = b.take(22);
    let w = m.skip(8);
    law_subchannel_data(m.skip(17));
    if b.len() >= 22 {
        assert(m.skip(17) =~= b.skip(22));
        assert forall|i: int| 0 <= i < 22 implies #[trigger] h[i] == b[i] by {}
        assert(m[0] == h[5] && m[1] == h[6] && m[2] == h[7] && m[3] == h[8] && m[4] == h[9]);
        assert(m[5] == h[10] && m[6] == h[11] && m[7] == h[12]);
        assert(validation::begins(b, "MSF: "@) == (h[0] == 'M' as u8 && h[1] == 'S' as u8 && h[2] == 'F' as u8
            && h[3] == ':' as u8 && h[4] == ' ' as u8)) by {
            let a = validation::ascii("MSF: "@);
            assert(a[0] == 'M' as u8 && a[1] == 'S' as u8 && a[2] == 'F' as u8 && a[3] == ':' as u8
                && a[4] == ' ' as u8);
            let t = b.take(5);
            assert(t[0] == h[0] && t[1] == h[1] && t[2] == h[2] && t[3] == h[3] && t[4] == h[4]);
            if h[0] == 'M' as u8 && h[1] == 'S' as u8 && h[2] == 'F' as u8 && h[3] == ':' as u8
                && h[4] == ' ' as u8 {
                assert(t =~= a);
            }
        }
        assert(validation::begins(w, " Q-Data: "@) == (h[13] == ' ' as u8 && h[14] == 'Q' as u8 && h[15] == '-'
            as u8 && h[16] == 'D' as u8 && h[17] == 'a' as u8 && h[18] == 't' as u8 && h[19] == 'a'
            as u8 && h[20] == ':' as u8 && h[21] == ' ' as u8)) by {
            let a = validation::ascii(" Q-Data: "@);
            assert(a[0] == ' ' as u8 && a[1] == 'Q' as u8 && a[2] == '-' as u8 && a[3] == 'D' as u8
                && a[4] == 'a' as u8 && a[5] == 't' as u8 && a[6] == 'a' as u8 && a[7] == ':' as u8
                && a[8] == ' ' as u8);
            let t = w.take(9);
            assert(t[0] == h[13] && t[1] == h[14] && t[2] == h[15] && t[3] == h[16] && t[4]
                == h[17]);
            assert(t[5] == h[18] && t[6] == h[19] && t[7] == h[20] && t[8] == h[21]);
            if h[13] == ' ' as u8 && h[14] == 'Q' as u8 && h[15] == '-' as u8 && h[16] == 'D' as u8
                && h[17] == 'a' as u8 && h[18] == 't' as u8 && h[19] == 'a' as u8 && h[20] == ':'
                as u8 && h[21] == ' ' as u8 {
                assert(t =~= a);
            }
        }
        if has_mask(h, mask) {
            assert(fits_mask(h[0], mask[0]) && fits_mask(h[1], mask[1]) && fits_mask(h[2], mask[2])
                && fits_mask(h[3], mask[3]) && fits_mask(h[4], mask[4]) && fits_mask(h[5], mask[5])
                && fits_mask(h[6], mask[6]) && fits_mask(h[7], mask[7]));
            assert(fits_mask(h[8], mask[8]) && fits_mask(h[9], mask[9]) && fits_mask(
                h[10],
                mask[10],
            ) && fits_mask(h[11], mask[11]) && fits_mask(h[12], mask[12]) && fits_mask(
                h[13],
                mask[13],
            ) && fits_mask(h[14], mask[14]) && fits_mask(h[15], mask[15]));
            assert(fits_mask(h[16], mask[16]) && fits_mask(h[17], mask[17]) && fits_mask(
                h[18],
                mask[18],
            ) && fits_mask(h[19], mask[19]) && fits_mask(h[20], mask[20]) && fits_mask(
                h[21],
                mask[21],
            ));
        }
    }
}

// ── Hashes in a DAT ────────────────────────────────────────────────────────

/// A line of a DAT is accepted under its name exactly if it is an element with a name, a
/// size, and the three hashes in their lengths.
pub proof fn law_accepted_file_lines(line: Seq<char>, row: nat)
    ensures
        validation::dat_line(line, row) is Ok <==> {
            &&& text::starts_with(line, "<rom "@)
            &&& text::ends_with(line, "/>"@)
            &&& validation::attribute(line, "name"@) matches Some(n) && n.len() > 0
            &&& validation::attribute(line, "size"@) matches Some(s) && numbers::u64_value(s) is Some
            &&& validation::attribute(line, "crc"@) matches Some(h) && h.len() == 8 && text::all_hex(h)
            &&& validation::attribute(line, "md5"@) matches Some(h) && h.len() == 32 && text::all_hex(h)
            &&& validation::attribute(line, "sha1"@) matches Some(h) && h.len() == 40 && text::all_hex(h)
        },
        validation::dat_line(line, row) matches Ok(n) ==> validation::attribute(line, "name"@) == Some(n),
{
}

} // verus!
