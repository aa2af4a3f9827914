//! Binary fields written in hexadecimal, and line endings.

use vstd::prelude::*;

use crate::error::{AppError, ErrorView, bad_request};
use crate::numbers::{self, write_u64};
use crate::text::{
    self, cat2, cat3, cat5, char_hex_value, char_is_hex, chars_all_hex, chars_byte_len_is,
    chars_find, chars_index_from, chars_lines, chars_of, chars_trim, chars_trim_start, chars_words,
    str_unix_newlines, string_of,
};

verus! {

// ── Newlines ───────────────────────────────────────────────────────────────

/// `s` with each line feed written as `\r\n`.
pub open spec fn expand_newlines(s: Seq<char>) -> Seq<char>
    decreases s.len(),
{
    if s.len() == 0 {
        Seq::empty()
    } else if s.last() == '\n' {
        expand_newlines(s.drop_last()) + seq!['\r', '\n']
    } else {
        expand_newlines(s.drop_last()).push(s.last())
    }
}

/// The text with line feeds as line endings.
pub fn to_lf_newlines(s: &str) -> (r: String)
    ensures
        r@ == text::unix_newlines(s@),
{
    str_unix_newlines(s)
}

/// The text with `\r\n` as line endings.
pub fn to_crlf_newlines(s: &str) -> (r: String)
    ensures
        r@ == expand_newlines(text::unix_newlines(s@)),
{
    let lf = str_unix_newlines(s);
    let c = chars_of(lf.as_str());
    let mut out: Vec<char> = Vec::new();
    for i in 0..c.len()
        invariant
            c@ == text::unix_newlines(s@),
            out@ == expand_newlines(c@.take(i as int)),
    {
        assert(c@.take(i + 1).drop_last() =~= c@.take(i as int));
        if c[i] == '\n' {
            out.push('\r');
            out.push('\n');
            assert(out@ =~= expand_newlines(c@.take(i as int)) + seq!['\r', '\n']);
        } else {
            out.push(c[i]);
        }
    }
    assert(c@.take(c@.len() as int) =~= c@);
    string_of(&out)
}

/// The text with line feeds as line endings.
pub fn normalize_newlines(s: &str) -> (r: String)
    ensures
        r@ == text::unix_newlines(s@),
{
    to_lf_newlines(s)
}

proof fn lemma_unix_newlines_has_no_cr(s: Seq<char>)
    ensures
        !text::unix_newlines(s).contains('\r'),
    decreases s.len(),
{
    if s.len() > 0 {
        if s[0] == '\r' && s.len() > 1 && s[1] == '\n' {
            lemma_unix_newlines_has_no_cr(s.skip(2));
            let t = text::unix_newlines(s.skip(2));
            assert forall|i: int| 0 <= i < (seq!['\n'] + t).len() implies (seq!['\n'] + t)[i]
                != '\r' by {
                if i > 0 {
                    assert(t[i - 1] == (seq!['\n'] + t)[i]);
                    assert(t.contains(t[i - 1]));
                }
            }
        } else {
            lemma_unix_newlines_has_no_cr(s.skip(1));
            let t = text::unix_newlines(s.skip(1));
            let h = if s[0] == '\r' { '\n' } else { s[0] };
            assert forall|i: int| 0 <= i < (seq![h] + t).len() implies (seq![h] + t)[i]
                != '\r' by {
                if i > 0 {
                    assert(t[i - 1] == (seq![h] + t)[i]);
                    assert(t.contains(t[i - 1]));
                }
            }
        }
    }
}

/// A text without carriage returns has line feeds as line endings already.
pub proof fn lemma_unix_newlines_of_clean(s: Seq<char>)
    requires
        !s.contains('\r'),
    ensures
        text::unix_newlines(s) == s,
    decreases s.len(),
{
    if s.len() > 0 {
        assert(s.contains(s[0]));
        assert forall|i: int| 0 <= i < s.skip(1).len() implies s.skip(1)[i] != '\r' by {
            assert(s.contains(s[i + 1]));
        }
        lemma_unix_newlines_of_clean(s.skip(1));
        assert(seq![s[0]] + s.skip(1) =~= s);
    } else {
        assert(s =~= Seq::empty());
    }
}

/// Line endings normalized once stay as they are, and no carriage return is left.
pub proof fn law_newlines_normalize_once(s: Seq<char>)
    ensures
        text::unix_newlines(text::unix_newlines(s)) == text::unix_newlines(s),
        !text::unix_newlines(s).contains('\r'),
{
    lemma_unix_newlines_has_no_cr(s);
    lemma_unix_newlines_of_clean(text::unix_newlines(s));
}

proof fn lemma_unix_newlines_append(a: Seq<char>, b: Seq<char>)
    requires
        a.len() == 0 || a.last() != '\r' || b.len() == 0 || b[0] != '\n',
    ensures
        text::unix_newlines(a + b) == text::unix_newlines(a) + text::unix_newlines(b),
    decreases a.len(),
{
    if a.len() == 0 {
        assert(a + b =~= b);
        assert(text::unix_newlines(a) + text::unix_newlines(b) =~= text::unix_newlines(b));
    } else if a[0] == '\r' && a.len() > 1 && a[1] == '\n' {
        assert((a + b).skip(2) =~= a.skip(2) + b);
        if a.len() > 2 {
            assert(a.skip(2).last() == a.last());
        }
        lemma_unix_newlines_append(a.skip(2), b);
        assert((a + b)[0] == a[0] && (a + b)[1] == a[1]);
        assert(text::unix_newlines(a + b) =~= text::unix_newlines(a) + text::unix_newlines(b));
    } else {
        assert((a + b).skip(1) =~= a.skip(1) + b);
        if a.len() > 1 {
            assert(a.skip(1).last() == a.last());
            assert((a + b)[1] == a[1]);
        }
        lemma_unix_newlines_append(a.skip(1), b);
        assert((a + b)[0] == a[0]);
        if a[0] == '\r' {
            if a.len() == 1 && b.len() > 0 {
                assert((a + b)[1] == b[0]);
            }
            assert(text::unix_newlines(a + b) =~= text::unix_newlines(a) + text::unix_newlines(b));
        } else {
            assert(text::unix_newlines(a + b) =~= text::unix_newlines(a) + text::unix_newlines(b));
        }
    }
}

/// Writing line endings as `\r\n` and reading them back gives the normalized text.
pub proof fn law_crlf_reads_back(s: Seq<char>)
    requires
        !s.contains('\r'),
    ensures
        text::unix_newlines(expand_newlines(s)) == s,
        expand_newlines(s).len() > 0 ==> expand_newlines(s).last() != '\r',
    decreases s.len(),
{
    reveal_with_fuel(text::unix_newlines, 3);
    if s.len() > 0 {
        let p = s.drop_last();
        assert forall|i: int| 0 <= i < p.len() implies p[i] != '\r' by {
            assert(s.contains(s[i]));
        }
        assert(s.contains(s.last()));
        law_crlf_reads_back(p);
        let e = expand_newlines(p);
        if s.last() == '\n' {
            let t = seq!['\r', '\n'];
            lemma_unix_newlines_append(e, t);
            assert(t.skip(2) =~= Seq::<char>::empty());
            assert(text::unix_newlines(t) =~= seq!['\n']);
            assert(p + seq!['\n'] =~= s);
        } else {
            let t = seq![s.last()];
            assert(e.push(s.last()) =~= e + t);
            lemma_unix_newlines_append(e, t);
            assert(t.skip(1) =~= Seq::<char>::empty());
            assert(text::unix_newlines(t) =~= t);
            assert(p + t =~= s);
        }
    } else {
        assert(s =~= Seq::<char>::empty());
    }
}

// ── Hexadecimal input ──────────────────────────────────────────────────────

/// The byte that two hexadecimal digits denote.
pub open spec fn hex_pair(hi: char, lo: char) -> u8 {
    (text::hex_value(hi) * 16 + text::hex_value(lo)) as u8
}

/// The bytes that an even run of hexadecimal digits denotes.
pub open spec fn hex_bytes(s: Seq<char>) -> Seq<u8> {
    Seq::new(s.len() / 2, |i: int| hex_pair(s[2 * i], s[2 * i + 1]))
}

/// The byte written as one token of a dump: two hexadecimal digits, or one digit
/// behind a plus sign.
pub open spec fn dump_byte(t: Seq<char>) -> Option<u8> {
    if t.len() != 2 {
        None
    } else if text::is_hex(t[0]) && text::is_hex(t[1]) {
        Some(hex_pair(t[0], t[1]))
    } else if t[0] == '+' && text::is_hex(t[1]) {
        Some(text::hex_value(t[1]) as u8)
    } else {
        None
    }
}

/// The bytes of the tokens of one line of a dump.
pub open spec fn dump_tokens(tokens: Seq<Seq<char>>, row: nat) -> Result<Seq<u8>, Seq<char>>
    decreases tokens.len(),
{
    if tokens.len() == 0 {
        Ok(Seq::empty())
    } else {
        let last = tokens.last();
        match dump_tokens(tokens.drop_last(), row) {
            Err(e) => Err(e),
            Ok(bytes) => if text::byte_len(last) != 2 {
                Err("line "@ + numbers::nat_text(row) + ": invalid hex token '"@ + last + "'"@)
            } else {
                match dump_byte(last) {
                    None => Err("line "@ + numbers::nat_text(row) + ": invalid hex byte '"@ + last + "'"@),
                    Some(b) => Ok(bytes.push(b)),
                }
            },
        }
    }
}

/// The hexadecimal column of a dump line: what follows the colon, up to the three
/// spaces that set off the text column.
pub open spec fn dump_column(line: Seq<char>) -> Seq<char> {
    let rest = text::trim_start(line.skip(text::index_from(line, ':', 0) + 1));
    match text::find(rest, "   "@) {
        Some(p) => rest.take(p),
        None => rest,
    }
}

/// The bytes of one trimmed line of an addressed dump.
pub open spec fn dump_line(line: Seq<char>, row: nat) -> Result<Seq<u8>, Seq<char>> {
    let colon = text::index_from(line, ':', 0);
    let offset = text::trim(line.take(colon));
    if line.len() == 0 {
        Ok(Seq::empty())
    } else if colon >= line.len() {
        Err("line "@ + numbers::nat_text(row) + ": missing offset:colon prefix"@)
    } else if offset.len() == 0 || !text::all_hex(offset) {
        Err("line "@ + numbers::nat_text(row) + ": invalid hex offset '"@ + offset + "'"@)
    } else {
        match dump_tokens(text::words(dump_column(line)), row) {
            Err(e) => Err(e),
            Ok(bytes) => if bytes.len() == 0 {
                Err("line "@ + numbers::nat_text(row) + ": no hex bytes found"@)
            } else {
                Ok(bytes)
            },
        }
    }
}

/// The bytes of the lines of an addressed dump, the first of which is line `row`.
pub open spec fn dump_lines(ls: Seq<Seq<char>>, row: nat) -> Result<Seq<u8>, Seq<char>>
    decreases ls.len(),
{
    if ls.len() == 0 {
        Ok(Seq::empty())
    } else {
        match dump_line(text::trim(ls[0]), row) {
            Err(e) => Err(e),
            Ok(a) => match dump_lines(ls.drop_first(), row + 1) {
                Err(e) => Err(e),
                Ok(b) => Ok(a + b),
            },
        }
    }
}

/// The bytes of an addressed dump.
pub open spec fn addressed_bytes(text: Seq<char>) -> Result<Seq<u8>, Seq<char>> {
    match dump_lines(text::lines(text), 1) {
        Err(e) => Err(e),
        Ok(bytes) => if bytes.len() == 0 {
            Err("no hex data found"@)
        } else {
            Ok(bytes)
        },
    }
}

/// The white space that raw hexadecimal input may hold.
pub open spec fn is_ascii_space(c: char) -> bool {
    c == ' ' || c == '\t' || c == '\n' || c == '\u{c}' || c == '\r'
}

/// The digits of one line of raw hexadecimal input.
pub open spec fn raw_line(line: Seq<char>, row: nat) -> Result<Seq<char>, Seq<char>>
    decreases line.len(),
{
    if line.len() == 0 {
        Ok(Seq::empty())
    } else {
        match raw_line(line.drop_last(), row) {
            Err(e) => Err(e),
            Ok(d) => if is_ascii_space(line.last()) {
                Ok(d)
            } else if !text::is_hex(line.last()) {
                Err(
                    "line "@ + numbers::nat_text(row) + ": invalid raw hex character '"@
                        + seq![line.last()] + "'"@,
                )
            } else {
                Ok(d.push(line.last()))
            },
        }
    }
}

/// The digits of the lines of raw hexadecimal input, the first of which is line `row`.
pub open spec fn raw_digits(ls: Seq<Seq<char>>, row: nat) -> Result<Seq<char>, Seq<char>>
    decreases ls.len(),
{
    if ls.len() == 0 {
        Ok(Seq::empty())
    } else {
        match raw_line(ls[0], row) {
            Err(e) => Err(e),
            Ok(a) => match raw_digits(ls.drop_first(), row + 1) {
                Err(e) => Err(e),
                Ok(b) => Ok(a + b),
            },
        }
    }
}

/// The bytes of raw hexadecimal input.
pub open spec fn raw_bytes(text: Seq<char>) -> Result<Seq<u8>, Seq<char>> {
    match raw_digits(text::lines(text), 1) {
        Err(e) => Err(e),
        Ok(d) => if d.len() == 0 {
            Err("no hex data found"@)
        } else if d.len() % 2 != 0 {
            Err("raw hex data must contain an even number of hexadecimal digits"@)
        } else {
            Ok(hex_bytes(d))
        },
    }
}

/// Some line holds a colon.
pub open spec fn has_offsets(ls: Seq<Seq<char>>) -> bool {
    exists|i: int| 0 <= i < ls.len() && (#[trigger] ls[i]).contains(':')
}

/// The bytes of submitted binary data: nothing for blank input, an addressed dump if
/// any line holds a colon, raw digits otherwise.
pub open spec fn binary_input(text: Seq<char>) -> Result<Seq<u8>, Seq<char>> {
    let t = text::trim(text);
    if t.len() == 0 {
        Ok(Seq::empty())
    } else if has_offsets(text::lines(t)) {
        addressed_bytes(t)
    } else {
        raw_bytes(t)
    }
}

/// The value of a parser's result.
pub open spec fn bytes_result(r: Result<Vec<u8>, String>) -> Result<Seq<u8>, Seq<char>> {
    match r {
        Ok(v) => Ok(v@),
        Err(e) => Err(e@),
    }
}

proof fn lemma_index_of_contained(s: Seq<char>, c: char)
    ensures
        s.contains(c) <==> text::index_from(s, c, 0) < s.len(),
{
    text::lemma_index_from(s, c, 0);
    let i = text::index_from(s, c, 0);
    if i < s.len() {
        assert(s[i] == c);
    }
}

proof fn lemma_colon_survives_trim(s: Seq<char>)
    ensures
        s.contains(':') <==> text::trim(s).contains(':'),
{
    let k = text::lemma_trim_start_skip(s);
    let a = text::trim_start(s);
    let e = text::lemma_trim_end_take(a);
    if s.contains(':') {
        let i = choose|i: int| 0 <= i < s.len() && s[i] == ':';
        assert(i >= k);
        assert(a[i - k] == ':');
        assert(i - k < e);
        assert(a.take(e)[i - k] == ':');
    }
    if text::trim(s).contains(':') {
        let i = choose|i: int| 0 <= i < text::trim(s).len() && text::trim(s)[i] == ':';
        assert(a[i] == ':');
        assert(s[i + k] == ':');
    }
}

/// The byte of one dump token.
fn read_dump_byte(t: &[char]) -> (r: Option<u8>)
    ensures
        r == dump_byte(t@),
{
    if t.len() != 2 {
        return None;
    }
    if char_is_hex(t[0]) && char_is_hex(t[1]) {
        let hi = char_hex_value(t[0]);
        let lo = char_hex_value(t[1]);
        Some(hi * 16 + lo)
    } else if t[0] == '+' && char_is_hex(t[1]) {
        Some(char_hex_value(t[1]))
    } else {
        None
    }
}

/// The bytes of one trimmed line of an addressed dump.
fn read_dump_line(line: &[char], row: usize) -> (r: Result<Vec<u8>, String>)
    ensures
        bytes_result(r) == dump_line(line@, row as nat),
{
    let mut bytes: Vec<u8> = Vec::new();
    if line.len() == 0 {
        return Ok(bytes);
    }
    let row_text = write_u64(row as u64);
    let colon: usize = chars_index_from(line, ':', 0);
    proof {
        text::lemma_index_from(line@, ':', 0);
    }
    if colon >= line.len() {
        return Err(cat3("line ", row_text.as_str(), ": missing offset:colon prefix"));
    }
    let head = &line[0..colon];
    assert(head@ =~= line@.take(colon as int));
    let offset = chars_trim(head);
    if offset.len() == 0 || !chars_all_hex(offset) {
        return Err(
            cat5(
                "line ",
                row_text.as_str(),
                ": invalid hex offset '",
                string_of(offset).as_str(),
                "'",
            ),
        );
    }
    let after = &line[colon + 1..line.len()];
    assert(after@ =~= line@.skip(colon + 1));
    let rest = chars_trim_start(after);
    let column: &[char] = match chars_find(rest, "   ") {
        Some(p) => &rest[0..p],
        None => rest,
    };
    assert(column@ =~= dump_column(line@));
    let tokens = chars_words(column);
    let ghost spec_tokens = text::slices(tokens@);
    assert(spec_tokens.take(0) =~= Seq::<Seq<char>>::empty());
    for i in 0..tokens.len()
        invariant
            spec_tokens == text::slices(tokens@),
            row_text@ == numbers::nat_text(row as nat),
            dump_tokens(spec_tokens.take(i as int), row as nat) == Ok::<Seq<u8>, Seq<char>>(
                bytes@,
            ),
            spec_tokens == text::words(dump_column(line@)),
            0 < line@.len(),
            text::index_from(line@, ':', 0) < line@.len(),
            text::trim(line@.take(text::index_from(line@, ':', 0))).len() != 0,
            text::all_hex(text::trim(line@.take(text::index_from(line@, ':', 0)))),
    {
        let token = tokens[i];
        proof {
            let t = spec_tokens.take(i + 1);
            assert(t.drop_last() =~= spec_tokens.take(i as int));
            assert(t.last() == token@);
        }
        if !chars_byte_len_is(token, 2) {
            proof {
                lemma_dump_tokens_error(spec_tokens, i + 1, row as nat);
            }
            return Err(
                cat5(
                    "line ",
                    row_text.as_str(),
                    ": invalid hex token '",
                    string_of(token).as_str(),
                    "'",
                ),
            );
        }
        match read_dump_byte(token) {
            Some(b) => {
                bytes.push(b);
            },
            None => {
                proof {
                    lemma_dump_tokens_error(spec_tokens, i + 1, row as nat);
                }
                return Err(
                    cat5(
                        "line ",
                        row_text.as_str(),
                        ": invalid hex byte '",
                        string_of(token).as_str(),
                        "'",
                    ),
                );
            },
        }
    }
    assert(spec_tokens.take(spec_tokens.len() as int) =~= spec_tokens);
    if bytes.len() == 0 {
        return Err(cat3("line ", row_text.as_str(), ": no hex bytes found"));
    }
    Ok(bytes)
}

proof fn lemma_dump_tokens_error(tokens: Seq<Seq<char>>, i: int, row: nat)
    requires
        0 <= i <= tokens.len(),
        dump_tokens(tokens.take(i), row) is Err,
    ensures
        dump_tokens(tokens, row) == dump_tokens(tokens.take(i), row),
    decreases tokens.len(),
{
    if i == tokens.len() {
        assert(tokens.take(i) =~= tokens);
    } else {
        assert(tokens.drop_last().take(i) =~= tokens.take(i));
        lemma_dump_tokens_error(tokens.drop_last(), i, row);
    }
}

/// The bytes of an addressed dump.
pub fn parse_addressed_hex_dump(text: &str) -> (r: Result<Vec<u8>, String>)
    ensures
        bytes_result(r) == addressed_bytes(text@),
{
    let chars = chars_of(text);
    let ls = chars_lines(&chars);
    let ghost spec_lines = text::slices(ls@);
    let mut result: Vec<u8> = Vec::new();
    assert(spec_lines.skip(0) =~= spec_lines);
    proof {
        match dump_lines(spec_lines, 1) {
            Ok(b) => {
                assert(result@ + b =~= b);
            },
            Err(_) => {},
        }
    }
    for i in 0..ls.len()
        invariant
            spec_lines == text::slices(ls@),
            spec_lines == text::lines(text@),
            match dump_lines(spec_lines.skip(i as int), (i + 1) as nat) {
                Ok(b) => dump_lines(spec_lines, 1) == Ok::<Seq<u8>, Seq<char>>(result@ + b),
                Err(e) => dump_lines(spec_lines, 1) == Err::<Seq<u8>, Seq<char>>(e),
            },
    {
        let line = chars_trim(ls[i]);
        proof {
            let rest = spec_lines.skip(i as int);
            assert(rest[0] == ls@[i as int]@);
            assert(rest.drop_first() =~= spec_lines.skip(i + 1));
        }
        match read_dump_line(line, i + 1) {
            Err(e) => {
                return Err(e);
            },
            Ok(mut bytes) => {
                let ghost before = result@;
                let ghost added = bytes@;
                result.append(&mut bytes);
                proof {
                    match dump_lines(spec_lines.skip(i + 1), (i + 2) as nat) {
                        Ok(b) => {
                            assert(before + (added + b) =~= result@ + b);
                        },
                        Err(_) => {},
                    }
                }
            },
        }
    }
    proof {
        assert(result@ + Seq::<u8>::empty() =~= result@);
    }
    if result.len() == 0 {
        return Err(String::from_str("no hex data found"));
    }
    Ok(result)
}

/// The bytes of an even run of hexadecimal digits.
pub fn read_hex_pairs(d: &[char]) -> (r: Vec<u8>)
    requires
        text::all_hex(d@),
        d@.len() % 2 == 0,
    ensures
        r@ == hex_bytes(d@),
{
    let mut out: Vec<u8> = Vec::new();
    let mut i: usize = 0;
    while i < d.len()
        invariant
            text::all_hex(d@),
            d@.len() % 2 == 0,
            i <= d@.len(),
            i % 2 == 0,
            out@ == hex_bytes(d@).take(i as int / 2),
        decreases d@.len() - i,
    {
        assert(text::is_hex(d@[i as int]) && text::is_hex(d@[i + 1]));
        let hi = char_hex_value(d[i]);
        let lo = char_hex_value(d[i + 1]);
        out.push(hi * 16 + lo);
        assert(2 * (i as int / 2) == i);
        assert(out@ =~= hex_bytes(d@).take((i + 2) as int / 2));
        i += 2;
    }
    assert(out@ =~= hex_bytes(d@));
    out
}

proof fn lemma_raw_line_error(line: Seq<char>, i: int, row: nat)
    requires
        0 <= i <= line.len(),
        raw_line(line.take(i), row) is Err,
    ensures
        raw_line(line, row) == raw_line(line.take(i), row),
    decreases line.len(),
{
    if i == line.len() {
        assert(line.take(i) =~= line);
    } else {
        assert(line.drop_last().take(i) =~= line.take(i));
        lemma_raw_line_error(line.drop_last(), i, row);
    }
}

/// The bytes of raw hexadecimal input.
pub fn parse_raw_hex_input(text: &str) -> (r: Result<Vec<u8>, String>)
    ensures
        bytes_result(r) == raw_bytes(text@),
{
    let chars = chars_of(text);
    let ls = chars_lines(&chars);
    let ghost spec_lines = text::slices(ls@);
    let mut hex: Vec<char> = Vec::new();
    assert(spec_lines.skip(0) =~= spec_lines);
    proof {
        match raw_digits(spec_lines, 1) {
            Ok(b) => {
                assert(hex@ + b =~= b);
            },
            Err(_) => {},
        }
    }
    for n in 0..ls.len()
        invariant
            spec_lines == text::slices(ls@),
            spec_lines == text::lines(text@),
            text::all_hex(hex@),
            match raw_digits(spec_lines.skip(n as int), (n + 1) as nat) {
                Ok(b) => raw_digits(spec_lines, 1) == Ok::<Seq<char>, Seq<char>>(hex@ + b),
                Err(e) => raw_digits(spec_lines, 1) == Err::<Seq<char>, Seq<char>>(e),
            },
    {
        let line = ls[n];
        let ghost rest = spec_lines.skip(n as int);
        let ghost before = hex@;
        proof {
            assert(rest[0] == line@);
            assert(rest.drop_first() =~= spec_lines.skip(n + 1));
            assert(before + Seq::<char>::empty() =~= before);
        }
        for i in 0..line.len()
            invariant
                spec_lines == text::lines(text@),
                rest == spec_lines.skip(n as int),
                n < spec_lines.len(),
                n < ls.len(),
                rest[0] == line@,
                text::all_hex(hex@),
                match raw_digits(rest, (n + 1) as nat) {
                    Ok(b) => raw_digits(spec_lines, 1) == Ok::<Seq<char>, Seq<char>>(before + b),
                    Err(e) => raw_digits(spec_lines, 1) == Err::<Seq<char>, Seq<char>>(e),
                },
                raw_line(line@.take(i as int), (n + 1) as nat) matches Ok(d) && hex@ == before + d,
        {
            let ch = line[i];
            assert(line@.take(i + 1).drop_last() =~= line@.take(i as int));
            let blank = ch == ' ' || ch == '\t' || ch == '\n' || ch == '\u{c}' || ch == '\r';
            if !blank && !char_is_hex(ch) {
                let row_text = write_u64((n + 1) as u64);
                let mut one = String::new();
                one.push(ch);
                proof {
                    assert(one@ =~= seq![ch]);
                    lemma_raw_line_error(line@, i + 1, (n + 1) as nat);
                }
                return Err(
                    cat5(
                        "line ",
                        row_text.as_str(),
                        ": invalid raw hex character '",
                        one.as_str(),
                        "'",
                    ),
                );
            }
            if !blank {
                let ghost h = hex@;
                hex.push(ch);
                proof {
                    let d = raw_line(line@.take(i as int), (n + 1) as nat)->Ok_0;
                    assert(h.push(ch) =~= before + d.push(ch));
                }
            }
        }
        proof {
            assert(line@.take(line@.len() as int) =~= line@);
            let d = raw_line(line@, (n + 1) as nat)->Ok_0;
            match raw_digits(spec_lines.skip(n + 1), (n + 2) as nat) {
                Ok(b) => {
                    assert(before + (d + b) =~= hex@ + b);
                },
                Err(_) => {},
            }
        }
    }
    assert(hex@ + Seq::<char>::empty() =~= hex@);
    if hex.len() == 0 {
        return Err(String::from_str("no hex data found"));
    }
    if hex.len() % 2 != 0 {
        return Err(
            String::from_str("raw hex data must contain an even number of hexadecimal digits"),
        );
    }
    Ok(read_hex_pairs(&hex))
}

/// The bytes of submitted binary data.
pub fn parse_binary_hex_input(text: &str) -> (r: Result<Vec<u8>, String>)
    ensures
        bytes_result(r) == binary_input(text@),
{
    let chars = chars_of(text);
    let t = chars_trim(&chars);
    if t.len() == 0 {
        let none: Vec<u8> = Vec::new();
        assert(none@ =~= Seq::<u8>::empty());
        return Ok(none);
    }
    let trimmed = string_of(t);
    let ls = chars_lines(t);
    let ghost spec_lines = text::slices(ls@);
    let mut found = false;
    for i in 0..ls.len()
        invariant
            spec_lines == text::slices(ls@),
            spec_lines == text::lines(t@),
            found <==> exists|j: int| 0 <= j < i && (#[trigger] spec_lines[j]).contains(':'),
    {
        let line = chars_trim(ls[i]);
        let at: usize = chars_index_from(line, ':', 0);
        proof {
            lemma_index_of_contained(line@, ':');
            assert(spec_lines[i as int] == ls@[i as int]@);
            lemma_colon_survives_trim(spec_lines[i as int]);
        }
        if at < line.len() {
            found = true;
        }
    }
    if found {
        parse_addressed_hex_dump(trimmed.as_str())
    } else {
        parse_raw_hex_input(trimmed.as_str())
    }
}

/// The bytes of a submitted volume descriptor, of which 82 are stored.
pub fn parse_pvd_hex_dump(text: &str) -> (r: Result<Vec<u8>, String>)
    ensures
        bytes_result(r) == (match binary_input(text@) {
            Ok(b) => Ok::<Seq<u8>, Seq<char>>(
                if b.len() > 82 {
                    b.take(82)
                } else {
                    b
                },
            ),
            Err(e) => Err(e),
        }),
{
    match parse_binary_hex_input(text) {
        Ok(mut result) => {
            let ghost all = result@;
            result.truncate(82);
            assert(result@ =~= if all.len() > 82 {
                all.take(82)
            } else {
                all
            });
            Ok(result)
        },
        Err(e) => Err(e),
    }
}

/// The bytes of a field that holds hexadecimal digits, or why it is refused.
pub open spec fn hex_field(name: Seq<char>, val: Option<Seq<char>>) -> Result<
    Option<Seq<u8>>,
    ErrorView,
> {
    match val {
        None => Ok(None),
        Some(raw) => {
            let t = text::trim(raw);
            if t.len() == 0 {
                Ok(None)
            } else if !text::all_hex(t) {
                Err(
                    ErrorView::BadRequest(name + " must contain only hexadecimal characters"@),
                )
            } else if t.len() % 2 != 0 {
                Err(
                    ErrorView::BadRequest(
                        name + " must contain an even number of hexadecimal characters"@,
                    ),
                )
            } else {
                Ok(Some(hex_bytes(t)))
            }
        },
    }
}

/// The value of a field parser's result.
pub open spec fn field_result(r: Result<Option<Vec<u8>>, AppError>) -> Result<
    Option<Seq<u8>>,
    ErrorView,
> {
    match r {
        Ok(Some(v)) => Ok(Some(v@)),
        Ok(None) => Ok(None),
        Err(e) => Err(e@),
    }
}

/// The bytes of a field that holds hexadecimal digits.
pub fn parse_hex_text_bytes_for(field_name: &str, val: Option<&str>) -> (r: Result<
    Option<Vec<u8>>,
    AppError,
>)
    ensures
        field_result(r) == hex_field(field_name@, text::opt_str(val)),
{
    match val {
        None => Ok(None),
        Some(raw) => {
            let chars = chars_of(raw);
            let t = chars_trim(&chars);
            if t.len() == 0 {
                return Ok(None);
            }
            if !chars_all_hex(t) {
                return Err(
                    AppError::BadRequest(
                        cat2(field_name, " must contain only hexadecimal characters"),
                    ),
                );
            }
            if t.len() % 2 != 0 {
                return Err(
                    AppError::BadRequest(
                        cat2(field_name, " must contain an even number of hexadecimal characters"),
                    ),
                );
            }
            Ok(Some(read_hex_pairs(t)))
        },
    }
}

/// The bytes of a disc key.
pub fn parse_hex_text_bytes(val: Option<&str>) -> (r: Result<Option<Vec<u8>>, AppError>)
    ensures
        field_result(r) == hex_field("disc_key"@, text::opt_str(val)),
{
    parse_hex_text_bytes_for("disc_key", val)
}

/// The twenty bytes of a universal hash.
pub open spec fn universal_hash_field(val: Option<Seq<char>>) -> Result<
    Option<Seq<u8>>,
    ErrorView,
> {
    match hex_field("universal_hash"@, val) {
        Ok(Some(b)) => if b.len() != 20 {
            Err(ErrorView::BadRequest("universal_hash must be 40 hexadecimal characters"@))
        } else {
            Ok(Some(b))
        },
        other => other,
    }
}

/// The twenty bytes of a universal hash.
pub fn parse_universal_hash_bytes(val: Option<&str>) -> (r: Result<Option<Vec<u8>>, AppError>)
    ensures
        field_result(r) == universal_hash_field(text::opt_str(val)),
{
    match parse_hex_text_bytes_for("universal_hash", val) {
        Ok(Some(bytes)) => {
            if bytes.len() != 20 {
                return Err(bad_request("universal_hash must be 40 hexadecimal characters"));
            }
            Ok(Some(bytes))
        },
        other => other,
    }
}

} // verus!
