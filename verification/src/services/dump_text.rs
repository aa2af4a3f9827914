//! Binary fields written as hexadecimal dumps.

use vstd::prelude::*;

use crate::services::hex_dump;
use crate::text::{self, join_strings, push_str, string_of};

verus! {

/// The hexadecimal digit with value `d`, in capitals or small.
pub open spec fn hex_digit(d: int, capital: bool) -> char {
    if d < 10 {
        ('0' as int + d) as char
    } else if capital {
        ('A' as int + d - 10) as char
    } else {
        ('a' as int + d - 10) as char
    }
}

/// The two hexadecimal digits of a byte.
pub open spec fn byte_text(b: u8, capital: bool) -> Seq<char> {
    seq![hex_digit(b as int / 16, capital), hex_digit(b as int % 16, capital)]
}

/// The hexadecimal numeral of a number, in capitals.
pub open spec fn hex_numeral(n: nat) -> Seq<char>
    decreases n,
{
    if n < 16 {
        seq![hex_digit(n as int, true)]
    } else {
        hex_numeral(n / 16).push(hex_digit((n % 16) as int, true))
    }
}

/// A numeral with zeros before it, up to `width` digits.
pub open spec fn zero_padded(s: Seq<char>, width: nat) -> Seq<char>
    decreases width - s.len(),
{
    if s.len() >= width {
        s
    } else {
        zero_padded(seq!['0'] + s, width)
    }
}

/// The bytes of a row from byte `j` on, each followed by a space, with one more space
/// behind the eighth.
pub open spec fn row_bytes(chunk: Seq<u8>, j: int) -> Seq<char>
    decreases chunk.len() - j,
{
    if j < 0 || j >= chunk.len() {
        Seq::empty()
    } else {
        byte_text(chunk[j], true) + (if j == 7 {
            seq![' ', ' ']
        } else {
            seq![' ']
        }) + row_bytes(chunk, j + 1)
    }
}

/// `n` spaces.
pub open spec fn spaces(n: nat) -> Seq<char> {
    Seq::new(n, |i: int| ' ')
}

/// The character that shows a byte: itself if it is printable, else a space.
pub open spec fn shown(b: u8) -> char {
    if 0x21 <= b <= 0x7e {
        b as char
    } else {
        ' '
    }
}

/// A row of a dump: the offset, the bytes in a column of sixteen, the text.
pub open spec fn dump_row(chunk: Seq<u8>, offset: nat) -> Seq<char> {
    zero_padded(hex_numeral(offset), 4) + " : "@ + row_bytes(chunk, 0) + spaces(
        ((16 - chunk.len()) * 3) as nat,
    ) + "  "@ + chunk.map_values(|b: u8| shown(b))
}

/// The bytes of row `i`.
pub open spec fn row_chunk(data: Seq<u8>, i: int) -> Seq<u8> {
    data.subrange(
        16 * i,
        if 16 * i + 16 <= data.len() {
            16 * i + 16
        } else {
            data.len() as int
        },
    )
}

/// How many rows the dump of `len` bytes has.
pub open spec fn row_count(len: nat) -> nat {
    (len + 15) / 16
}

/// The rows of a dump.
pub open spec fn dump_rows(data: Seq<u8>, base: nat) -> Seq<Seq<char>> {
    Seq::new(row_count(data.len()), |i: int| dump_row(row_chunk(data, i), (base + 16 * i) as nat))
}

/// A dump: one row to sixteen bytes.
pub open spec fn dump_text(data: Seq<u8>, base: nat) -> Seq<char> {
    text::join(dump_rows(data, base), "\n"@)
}

/// The hexadecimal digits of bytes, small.
pub open spec fn hex_text(data: Seq<u8>) -> Seq<char>
    decreases data.len(),
{
    if data.len() == 0 {
        Seq::empty()
    } else {
        hex_text(data.drop_last()) + byte_text(data.last(), false)
    }
}

fn write_hex_digit(d: u8, capital: bool) -> (r: char)
    requires
        d < 16,
    ensures
        r == hex_digit(d as int, capital),
{
    if d < 10 {
        (48 + d) as char
    } else if capital {
        (55 + d) as char
    } else {
        (87 + d) as char
    }
}

fn write_hex_numeral(n: usize) -> (r: Vec<char>)
    ensures
        r@ == hex_numeral(n as nat),
    decreases n,
{
    if n < 16 {
        let mut v: Vec<char> = Vec::new();
        v.push(write_hex_digit(n as u8, true));
        assert(v@ =~= hex_numeral(n as nat));
        v
    } else {
        let mut v = write_hex_numeral(n / 16);
        v.push(write_hex_digit((n % 16) as u8, true));
        v
    }
}

fn write_offset(n: usize) -> (r: Vec<char>)
    ensures
        r@ == zero_padded(hex_numeral(n as nat), 4),
{
    let mut v = write_hex_numeral(n);
    while v.len() < 4
        invariant
            zero_padded(v@, 4) == zero_padded(hex_numeral(n as nat), 4),
        decreases 4 - v@.len(),
    {
        let ghost before = v@;
        v.insert(0, '0');
        assert(v@ =~= seq!['0'] + before);
    }
    v
}

/// One row of a dump.
fn write_row(chunk: &[u8], offset: usize) -> (r: String)
    requires
        chunk@.len() <= 16,
    ensures
        r@ == dump_row(chunk@, offset as nat),
{
    let mut out = write_offset(offset);
    push_str(&mut out, " : ");
    let ghost head = out@;
    assert(head + row_bytes(chunk@, 0) =~= out@ + row_bytes(chunk@, 0));
    let mut j: usize = 0;
    while j < chunk.len()
        invariant
            j <= chunk@.len(),
            head + row_bytes(chunk@, 0) == out@ + row_bytes(chunk@, j as int),
        decreases chunk@.len() - j,
    {
        let ghost before = out@;
        let b = chunk[j];
        out.push(write_hex_digit(b / 16, true));
        out.push(write_hex_digit(b % 16, true));
        out.push(' ');
        if j == 7 {
            out.push(' ');
        }
        proof {
            let sep = if j == 7 {
                seq![' ', ' ']
            } else {
                seq![' ']
            };
            assert(out@ =~= before + byte_text(b, true) + sep);
            assert(before + (byte_text(b, true) + sep + row_bytes(chunk@, j + 1)) =~= out@
                + row_bytes(chunk@, j + 1));
        }
        j += 1;
    }
    assert(out@ + row_bytes(chunk@, j as int) =~= out@);
    let ghost mid = out@;
    let blanks: usize = (16 - chunk.len()) * 3;
    for k in 0..blanks
        invariant
            out@ == mid + spaces(k as nat),
    {
        out.push(' ');
        assert(mid + spaces((k + 1) as nat) =~= (mid + spaces(k as nat)).push(' '));
    }
    push_str(&mut out, "  ");
    let ghost col = out@;
    let ghost text_col = chunk@.map_values(|b: u8| shown(b));
    for k in 0..chunk.len()
        invariant
            text_col == chunk@.map_values(|b: u8| shown(b)),
            out@ == col + text_col.take(k as int),
    {
        let b = chunk[k];
        if 0x21 <= b && b <= 0x7e {
            out.push(b as char);
        } else {
            out.push(' ');
        }
        assert(text_col.take(k + 1) =~= text_col.take(k as int).push(shown(b)));
        assert(col + text_col.take(k + 1) =~= (col + text_col.take(k as int)).push(shown(b)));
    }
    assert(text_col.take(chunk@.len() as int) =~= text_col);
    string_of(&out)
}

/// A dump of `data`, whose first byte has the address `base_addr`.
pub fn format_hex_dump_snapshot(data: &[u8], base_addr: usize) -> (r: String)
    requires
        base_addr + data@.len() <= usize::MAX,
    ensures
        r@ == dump_text(data@, base_addr as nat),
{
    let mut rows: Vec<String> = Vec::new();
    let ghost all = dump_rows(data@, base_addr as nat);
    let mut at: usize = 0;
    while at < data.len()
        invariant
            base_addr + data@.len() <= usize::MAX,
            all == dump_rows(data@, base_addr as nat),
            at <= data@.len(),
            at == data@.len() || at % 16 == 0,
            rows@.len() == (at + 15) / 16,
            rows@.len() <= all.len(),
            text::texts(rows@) == all.take(rows@.len() as int),
        decreases data@.len() - at,
    {
        let end: usize = if data.len() - at >= 16 {
            at + 16
        } else {
            data.len()
        };
        let chunk = &data[at..end];
        let ghost i = rows@.len() as int;
        let ghost before = rows@;
        proof {
            assert(16 * i == at);
            assert(chunk@ =~= row_chunk(data@, i));
        }
        let row = write_row(chunk, base_addr + at);
        rows.push(row);
        proof {
            assert(all[i] == row@);
            assert(text::texts(rows@) =~= text::texts(before).push(row@));
            assert(all.take(i + 1) =~= all.take(i).push(all[i]));
        }
        at = end;
    }
    assert(all.take(all.len() as int) =~= all);
    join_strings(&rows, "\n")
}

/// The 82 bytes of a volume descriptor that are stored, at their place in the 96 that
/// are shown.
pub open spec fn pvd_block(data: Seq<u8>) -> Seq<u8> {
    Seq::new(
        96,
        |i: int|
            if i < 82 && i < data.len() {
                data[i]
            } else {
                0u8
            },
    )
}

/// A dump of a volume descriptor.
pub fn format_pvd_hex_snapshot(data: &[u8]) -> (r: String)
    ensures
        r@ == dump_text(pvd_block(data@), 0x0320),
{
    let mut buf: Vec<u8> = Vec::new();
    for i in 0..96usize
        invariant
            buf@ == pvd_block(data@).take(i as int),
    {
        if i < 82 && i < data.len() {
            buf.push(data[i]);
        } else {
            buf.push(0);
        }
        assert(buf@ =~= pvd_block(data@).take(i + 1));
    }
    assert(buf@ =~= pvd_block(data@));
    format_hex_dump_snapshot(&buf, 0x0320)
}

/// The hexadecimal digits of bytes.
pub fn write_hex(data: &[u8]) -> (r: String)
    ensures
        r@ == hex_text(data@),
{
    let mut out: Vec<char> = Vec::new();
    assert(data@.take(0) =~= Seq::<u8>::empty());
    for i in 0..data.len()
        invariant
            out@ == hex_text(data@.take(i as int)),
    {
        let b = data[i];
        let ghost before = out@;
        out.push(write_hex_digit(b / 16, false));
        out.push(write_hex_digit(b % 16, false));
        assert(data@.take(i + 1).drop_last() =~= data@.take(i as int));
        assert(out@ =~= before + byte_text(b, false));
    }
    assert(data@.take(data@.len() as int) =~= data@);
    string_of(&out)
}

// ── Reading back what was written ──────────────────────────────────────────

proof fn lemma_hex_digit(d: int, capital: bool)
    requires
        0 <= d < 16,
    ensures
        text::is_hex(hex_digit(d, capital)),
        text::hex_value(hex_digit(d, capital)) == d,
        !text::is_space(hex_digit(d, capital)),
        hex_digit(d, capital) != ':',
{
}

pub proof fn lemma_byte_text(b: u8, capital: bool)
    ensures
        hex_dump::hex_pair(byte_text(b, capital)[0], byte_text(b, capital)[1]) == b,
        text::is_hex(byte_text(b, capital)[0]),
        text::is_hex(byte_text(b, capital)[1]),
{
    lemma_hex_digit(b as int / 16, capital);
    lemma_hex_digit(b as int % 16, capital);
}

/// A small hexadecimal digit.
pub open spec fn is_small_hex(c: char) -> bool {
    ('0' <= c && c <= '9') || ('a' <= c && c <= 'f')
}

/// The digits of bytes are small ones, two for each byte.
pub proof fn lemma_hex_text_small(data: Seq<u8>)
    ensures
        hex_text(data).len() == 2 * data.len(),
        forall|i: int| 0 <= i < hex_text(data).len() ==> is_small_hex(#[trigger] hex_text(data)[i]),
    decreases data.len(),
{
    if data.len() > 0 {
        lemma_hex_text_small(data.drop_last());
        let s = hex_text(data.drop_last());
        let t = hex_text(data);
        assert forall|i: int| 0 <= i < t.len() implies is_small_hex(#[trigger] t[i]) by {
            if i < s.len() {
                assert(is_small_hex(s[i]));
            }
        }
    }
}

/// Bytes are read back from their hexadecimal digits.
pub proof fn law_hex_text_reads_back(data: Seq<u8>)
    ensures
        text::all_hex(hex_text(data)),
        hex_text(data).len() == 2 * data.len(),
        hex_dump::hex_bytes(hex_text(data)) == data,
    decreases data.len(),
{
    if data.len() == 0 {
        assert(hex_dump::hex_bytes(hex_text(data)) =~= data);
    } else {
        let p = data.drop_last();
        law_hex_text_reads_back(p);
        let b = data.last();
        lemma_byte_text(b, false);
        let s = hex_text(p);
        let t = hex_text(data);
        assert forall|i: int| 0 <= i < t.len() implies text::is_hex(#[trigger] t[i]) by {
            if i < s.len() {
                assert(text::is_hex(s[i]));
            }
        }
        assert forall|i: int| 0 <= i < data.len() implies hex_dump::hex_bytes(t)[i] == data[i] by {
            if i < p.len() {
                assert(hex_dump::hex_bytes(s)[i] == p[i]);
                assert(t[2 * i] == s[2 * i] && t[2 * i + 1] == s[2 * i + 1]);
            }
        }
        assert(hex_dump::hex_bytes(t) =~= data);
    }
}

proof fn lemma_hex_numeral(n: nat)
    ensures
        text::all_hex(hex_numeral(n)),
        hex_numeral(n).len() > 0,
    decreases n,
{
    if n < 16 {
        lemma_hex_digit(n as int, true);
    } else {
        lemma_hex_numeral(n / 16);
        lemma_hex_digit((n % 16) as int, true);
        let s = hex_numeral(n / 16);
        let t = hex_numeral(n);
        assert forall|i: int| 0 <= i < t.len() implies text::is_hex(#[trigger] t[i]) by {
            if i < s.len() {
                assert(text::is_hex(s[i]));
            }
        }
    }
}

proof fn lemma_zero_padded(s: Seq<char>, width: nat)
    requires
        text::all_hex(s),
        s.len() > 0,
    ensures
        text::all_hex(zero_padded(s, width)),
        zero_padded(s, width).len() > 0,
    decreases width - s.len(),
{
    if s.len() < width {
        let t = seq!['0'] + s;
        assert forall|i: int| 0 <= i < t.len() implies text::is_hex(#[trigger] t[i]) by {
            if i > 0 {
                assert(text::is_hex(s[i - 1]));
            }
        }
        lemma_zero_padded(t, width);
    }
}

/// The tokens of a row from byte `j` on.
spec fn row_tokens(chunk: Seq<u8>, j: int) -> Seq<Seq<char>>
    decreases chunk.len() - j,
{
    if j < 0 || j >= chunk.len() {
        Seq::empty()
    } else {
        seq![byte_text(chunk[j], true)] + row_tokens(chunk, j + 1)
    }
}

proof fn lemma_words_skip_spaces(s: Seq<char>, t: Seq<char>)
    requires
        forall|i: int| 0 <= i < t.len() ==> text::is_space(#[trigger] t[i]),
    ensures
        text::words(t + s) == text::words(s),
    decreases t.len(),
{
    if t.len() == 0 {
        assert(t + s =~= s);
    } else {
        assert((t + s)[0] == t[0]);
        assert((t + s).drop_first() =~= t.drop_first() + s);
        assert forall|i: int| 0 <= i < t.drop_first().len() implies text::is_space(
            #[trigger] t.drop_first()[i],
        ) by {
            assert(text::is_space(t[i + 1]));
        }
        lemma_words_skip_spaces(s, t.drop_first());
    }
}

proof fn lemma_words_drop_spaces(s: Seq<char>, t: Seq<char>)
    requires
        forall|i: int| 0 <= i < t.len() ==> text::is_space(#[trigger] t[i]),
    ensures
        text::words(s + t) == text::words(s),
    decreases s.len(),
{
    if s.len() == 0 {
        assert(s + t =~= t + s);
        lemma_words_skip_spaces(s, t);
    } else if text::is_space(s[0]) {
        assert((s + t)[0] == s[0]);
        assert((s + t).drop_first() =~= s.drop_first() + t);
        lemma_words_drop_spaces(s.drop_first(), t);
    } else {
        text::lemma_space_from(s, 0);
        text::lemma_space_from(s + t, 0);
        let i = text::space_from(s, 0);
        let k = text::space_from(s + t, 0);
        assert((s + t)[0] == s[0]);
        assert(i > 0);
        if i < s.len() {
            assert((s + t)[i] == s[i]);
            if k < i {
                assert((s + t)[k] == s[k]);
            }
        } else {
            if k < i {
                assert((s + t)[k] == s[k]);
            }
            if t.len() > 0 {
                assert((s + t)[i] == t[0]);
                assert(text::is_space(t[0]));
            }
        }
        assert(k == i);
        assert((s + t).take(i) =~= s.take(i));
        assert((s + t).skip(i) =~= s.skip(i) + t);
        lemma_words_drop_spaces(s.skip(i), t);
    }
}

proof fn lemma_row_words(chunk: Seq<u8>, j: int)
    requires
        0 <= j <= chunk.len(),
    ensures
        text::words(row_bytes(chunk, j)) == row_tokens(chunk, j),
    decreases chunk.len() - j,
{
    if j < chunk.len() {
        lemma_row_words(chunk, j + 1);
        let b = byte_text(chunk[j], true);
        lemma_hex_digit(chunk[j] as int / 16, true);
        lemma_hex_digit(chunk[j] as int % 16, true);
        let sep = if j == 7 {
            seq![' ', ' ']
        } else {
            seq![' ']
        };
        let rest = row_bytes(chunk, j + 1);
        let s = row_bytes(chunk, j);
        assert(s =~= b + (sep + rest));
        assert(s[0] == b[0] && s[1] == b[1] && s[2] == ' ');
        reveal_with_fuel(text::space_from, 4);
        assert(text::space_from(s, 0) == 2);
        assert(s.take(2) =~= b);
        assert(s.skip(2) =~= sep + rest);
        lemma_words_skip_spaces(rest, sep);
    }
}

proof fn lemma_row_tokens(chunk: Seq<u8>, j: int)
    requires
        0 <= j <= chunk.len(),
    ensures
        row_tokens(chunk, j).len() == chunk.len() - j,
        forall|i: int|
            0 <= i < chunk.len() - j ==> #[trigger] row_tokens(chunk, j)[i] == byte_text(
                chunk[j + i],
                true,
            ),
    decreases chunk.len() - j,
{
    if j < chunk.len() {
        lemma_row_tokens(chunk, j + 1);
        let t = row_tokens(chunk, j + 1);
        assert forall|i: int| 0 <= i < chunk.len() - j implies #[trigger] row_tokens(chunk, j)[i]
            == byte_text(chunk[j + i], true) by {
            if i > 0 {
                assert(t[i - 1] == byte_text(chunk[j + 1 + (i - 1)], true));
            }
        }
    }
}

proof fn lemma_tokens_read(tokens: Seq<Seq<char>>, chunk: Seq<u8>, row: nat)
    requires
        tokens.len() == chunk.len(),
        forall|i: int|
            0 <= i < chunk.len() ==> #[trigger] tokens[i] == byte_text(chunk[i], true),
    ensures
        hex_dump::dump_tokens(tokens, row) == Ok::<Seq<u8>, Seq<char>>(chunk),
    decreases tokens.len(),
{
    if tokens.len() == 0 {
        assert(chunk =~= Seq::<u8>::empty());
    } else {
        let p = tokens.drop_last();
        let c = chunk.drop_last();
        assert forall|i: int| 0 <= i < c.len() implies #[trigger] p[i] == byte_text(
            c[i],
            true,
        ) by {
            assert(tokens[i] == byte_text(chunk[i], true));
        }
        lemma_tokens_read(p, c, row);
        let last = tokens.last();
        assert(last == byte_text(chunk.last(), true));
        lemma_byte_text(chunk.last(), true);
        reveal_with_fuel(text::byte_len, 3);
        assert(last.drop_last().drop_last() =~= Seq::<char>::empty());
        assert(text::byte_len(last) == 2);
        assert(c.push(chunk.last()) =~= chunk);
    }
}

/// Three spaces in a row.
spec fn gap_at(s: Seq<char>, i: int) -> bool {
    s[i] == ' ' && s[i + 1] == ' ' && s[i + 2] == ' '
}

/// `s` holds no three spaces in a row, and begins and ends in something else.
spec fn no_gap(s: Seq<char>) -> bool {
    &&& forall|i: int| 0 <= i && i + 2 < s.len() ==> !#[trigger] gap_at(s, i)
    &&& s.len() > 0 ==> !text::is_space(s.last()) && !text::is_space(s[0])
}

/// The bytes of a row without the spaces that end them.
spec fn tight(chunk: Seq<u8>, j: int) -> Seq<char>
    decreases chunk.len() - j,
{
    if j < 0 || j >= chunk.len() {
        Seq::empty()
    } else if j == chunk.len() - 1 {
        byte_text(chunk[j], true)
    } else {
        byte_text(chunk[j], true) + (if j == 7 {
            seq![' ', ' ']
        } else {
            seq![' ']
        }) + tight(chunk, j + 1)
    }
}

proof fn lemma_tight(chunk: Seq<u8>, j: int)
    requires
        0 <= j < chunk.len(),
    ensures
        tight(chunk, j).len() >= 2,
        no_gap(tight(chunk, j)),
        row_bytes(chunk, j) == tight(chunk, j) + (if chunk.len() == 8 {
            seq![' ', ' ']
        } else {
            seq![' ']
        }),
        forall|i: int|
            0 <= i < tight(chunk, j).len() ==> #[trigger] tight(chunk, j)[i] != '\n' && tight(
                chunk,
                j,
            )[i] != '\r',
    decreases chunk.len() - j,
{
    let b = byte_text(chunk[j], true);
    lemma_hex_digit(chunk[j] as int / 16, true);
    lemma_hex_digit(chunk[j] as int % 16, true);
    let t = tight(chunk, j);
    if j == chunk.len() - 1 {
        assert(row_bytes(chunk, j + 1) =~= Seq::<char>::empty());
        let sep = if j == 7 {
            seq![' ', ' ']
        } else {
            seq![' ']
        };
        assert(row_bytes(chunk, j) =~= b + sep);
    } else {
        lemma_tight(chunk, j + 1);
        let sep = if j == 7 {
            seq![' ', ' ']
        } else {
            seq![' ']
        };
        let u = tight(chunk, j + 1);
        let tail = if chunk.len() == 8 {
            seq![' ', ' ']
        } else {
            seq![' ']
        };
        assert(t == b + sep + u);
        let k = (b + sep).len();
        assert forall|i: int| 0 <= i && i + 2 < t.len() implies !#[trigger] gap_at(t, i) by {
            if i >= k {
                assert(t[i] == u[i - k] && t[i + 1] == u[i - k + 1] && t[i + 2] == u[i - k + 2]);
                assert(!gap_at(u, i - k));
            } else if i >= 2 {
                assert(t[k as int] == u[0]);
                assert(text::is_space(' '));
            } else {
                assert(t[i] == b[i]);
                assert(text::is_space(' '));
            }
        }
        assert(t.last() == u.last());
        assert(t[0] == b[0]);
        assert(row_bytes(chunk, j) =~= b + sep + (u + tail));
        assert(row_bytes(chunk, j) =~= t + tail);
        assert forall|i: int| 0 <= i < t.len() implies #[trigger] t[i] != '\n' && t[i]
            != '\r' by {
            if i >= k {
                assert(t[i] == u[i - k]);
            }
        }
    }
}

proof fn lemma_gap_found(c: Seq<char>, y: Seq<char>, g: Seq<char>, i: int)
    requires
        no_gap(c),
        c.len() > 0,
        g == seq![' ', ' ', ' '],
        0 <= i <= c.len(),
    ensures
        text::find_from(c + g + y, g, i) == Some(c.len() as int),
    decreases c.len() - i,
{
    let s = c + g + y;
    let n = c.len() as int;
    let w = s.subrange(i, i + 3);
    if i == n {
        assert(w =~= g);
    } else {
        if w == g {
            assert(w[0] == ' ' && w[1] == ' ' && w[2] == ' ');
            assert(s[i] == ' ' && s[i + 1] == ' ' && s[i + 2] == ' ');
            if i + 2 < n {
                assert(gap_at(c, i));
            } else if i + 1 < n {
                assert(c.last() == s[i + 1]);
            } else {
                assert(c.last() == s[i]);
            }
        }
        lemma_gap_found(c, y, g, i + 1);
    }
}

proof fn lemma_gap_absent(c: Seq<char>, g: Seq<char>, i: int)
    requires
        no_gap(c),
        g == seq![' ', ' ', ' '],
        0 <= i,
    ensures
        text::find_from(c, g, i) is None,
    decreases c.len() - i,
{
    if i + 3 <= c.len() {
        let w = c.subrange(i, i + 3);
        if w == g {
            assert(w[0] == ' ' && w[1] == ' ' && w[2] == ' ');
            assert(gap_at(c, i));
        }
        lemma_gap_absent(c, g, i + 1);
    }
}

proof fn lemma_find_gap(c: Seq<char>, y: Seq<char>)
    requires
        no_gap(c),
        c.len() > 0,
    ensures
        text::find(c + "   "@ + y, "   "@) == Some(c.len() as int),
        text::find(c, "   "@) is None,
{
    reveal_strlit("   ");
    let g = "   "@;
    assert(g =~= seq![' ', ' ', ' ']);
    lemma_gap_found(c, y, g, 0);
    lemma_gap_absent(c, g, 0);
}

proof fn lemma_trim_start_solid(s: Seq<char>)
    requires
        s.len() > 0,
        !text::is_space(s[0]),
    ensures
        text::trim_start(s) == s,
{
}

proof fn lemma_trim_end_append(a: Seq<char>, b: Seq<char>)
    requires
        a.len() > 0,
        !text::is_space(a.last()),
    ensures
        text::trim_end(a + b) == a + text::trim_end(b),
    decreases b.len(),
{
    if b.len() == 0 {
        assert(a + b =~= a);
        assert(a + text::trim_end(b) =~= a);
    } else {
        assert((a + b).last() == b.last());
        if text::is_space(b.last()) {
            assert((a + b).drop_last() =~= a + b.drop_last());
            lemma_trim_end_append(a, b.drop_last());
        }
    }
}

/// A trimmed row: the offset, the bytes, and the text column unless it is blank.
proof fn lemma_row_shape(chunk: Seq<u8>, offset: nat) -> (y: Seq<char>)
    requires
        0 < chunk.len() <= 16,
    ensures
        ({
            let h = zero_padded(hex_numeral(offset), 4);
            let c = tight(chunk, 0);
            let row = dump_row(chunk, offset);
            &&& row.len() > 0
            &&& row[0] == h[0]
            &&& row == h + " : "@ + c + "   "@ + y
            &&& text::trim(row) == h + " : "@ + c + text::trim_end("   "@ + y)
            &&& forall|i: int| 0 <= i < row.len() ==> #[trigger] row[i] != '\n' && row[i] != '\r'
        }),
{
    reveal_strlit(" : ");
    reveal_strlit("   ");
    reveal_strlit("  ");
    let h = zero_padded(hex_numeral(offset), 4);
    let c = tight(chunk, 0);
    let row = dump_row(chunk, offset);
    lemma_hex_numeral(offset);
    lemma_zero_padded(hex_numeral(offset), 4);
    lemma_tight(chunk, 0);
    let tail = if chunk.len() == 8 {
        seq![' ', ' ']
    } else {
        seq![' ']
    };
    let text_col = chunk.map_values(|b: u8| shown(b));
    let pad = spaces(((16 - chunk.len()) * 3) as nat);
    let after = tail + pad + "  "@ + text_col;
    assert(row =~= h + " : "@ + c + after);
    assert(after.len() >= 3 && after[0] == ' ' && after[1] == ' ' && after[2] == ' ');
    let y = after.skip(3);
    assert("   "@ =~= seq![' ', ' ', ' ']);
    assert(after =~= "   "@ + y);
    assert(row =~= h + " : "@ + c + "   "@ + y);
    let front = h + " : "@ + c;
    assert(front.last() == c.last());
    assert(front[0] == h[0] && row[0] == h[0]);
    assert(text::is_hex(h[0]));
    lemma_trim_start_solid(row);
    assert(row =~= front + ("   "@ + y));
    lemma_trim_end_append(front, "   "@ + y);
    assert forall|i: int| 0 <= i < row.len() implies #[trigger] row[i] != '\n' && row[i]
        != '\r' by {
        if i < h.len() {
            assert(row[i] == h[i]);
            assert(text::is_hex(h[i]));
        } else if i < h.len() + 3 {
            assert(row[i] == " : "@[i - h.len()]);
        } else if i < h.len() + 3 + c.len() {
            assert(row[i] == c[i - h.len() - 3]);
        } else {
            let k = i - h.len() - 3 - c.len();
            assert(row[i] == after[k]);
            if k >= (tail + pad + "  "@).len() {
                assert(after[k] == text_col[k - (tail + pad + "  "@).len()]);
            } else {
                assert(after[k] == (tail + pad + "  "@)[k]);
            }
        }
    }
    y
}

proof fn lemma_index_after(a: Seq<char>, b: Seq<char>, c: char, i: int)
    requires
        0 <= i <= a.len(),
        forall|k: int| 0 <= k < a.len() ==> #[trigger] a[k] != c,
        b.len() > 0,
        b[0] == c,
    ensures
        text::index_from(a + b, c, i) == a.len(),
    decreases a.len() - i,
{
    if i < a.len() {
        assert((a + b)[i] == a[i]);
        lemma_index_after(a, b, c, i + 1);
    } else {
        assert((a + b)[i] == b[0]);
    }
}

/// A row is read back, whether or not its end was trimmed.
proof fn lemma_row_reads_back(chunk: Seq<u8>, offset: nat, row: nat)
    requires
        0 < chunk.len() <= 16,
    ensures
        hex_dump::dump_line(text::trim(dump_row(chunk, offset)), row) == Ok::<Seq<u8>, Seq<char>>(chunk),
        text::trim(dump_row(chunk, offset)).contains(':'),
{
    reveal_strlit(" : ");
    reveal_strlit("   ");
    let y = lemma_row_shape(chunk, offset);
    let h = zero_padded(hex_numeral(offset), 4);
    let c = tight(chunk, 0);
    let end = text::trim_end("   "@ + y);
    let line = text::trim(dump_row(chunk, offset));
    assert(line == h + " : "@ + c + end);
    lemma_hex_numeral(offset);
    lemma_zero_padded(hex_numeral(offset), 4);
    lemma_tight(chunk, 0);
    // The colon.
    let a = h + seq![' '];
    let b = seq![':', ' '] + c + end;
    assert(line =~= a + b);
    assert forall|k: int| 0 <= k < a.len() implies #[trigger] a[k] != ':' by {
        if k < h.len() {
            assert(text::is_hex(h[k]));
        }
    }
    lemma_index_after(a, b, ':', 0);
    let colon = text::index_from(line, ':', 0);
    assert(colon == h.len() + 1);
    assert(line[colon] == ':');
    // The offset.
    assert(line.take(colon) =~= a);
    assert(text::is_hex(h[0]) && text::is_hex(h.last()));
    assert(a[0] == h[0]);
    lemma_trim_start_solid(a);
    lemma_trim_end_append(h, seq![' ']);
    reveal_with_fuel(text::trim_end, 2);
    assert(seq![' '].drop_last() =~= Seq::<char>::empty());
    assert(h + Seq::<char>::empty() =~= h);
    assert(text::trim(a) == h);
    // The column.
    let rest = line.skip(colon + 1);
    let body = c + end;
    assert(rest =~= seq![' '] + body);
    assert(rest[0] == ' ' && rest.drop_first() =~= body);
    assert(body[0] == c[0]);
    lemma_trim_start_solid(body);
    assert(text::trim_start(rest) == body);
    if end.len() == 0 {
        assert(body =~= c);
        lemma_find_gap(c, y);
        assert(hex_dump::dump_column(line) == c);
    } else {
        // The text column holds something, so the gap before it is still there.
        let k = text::lemma_trim_end_take("   "@ + y);
        assert("   "@ =~= seq![' ', ' ', ' ']);
        if k <= 3 {
            assert(("   "@ + y)[k - 1] == "   "@[k - 1]);
            assert(text::is_space(' '));
        }
        let z = end.skip(3);
        assert(end =~= "   "@ + z);
        assert(body =~= c + "   "@ + z);
        lemma_find_gap(c, z);
        assert(body.take(c.len() as int) =~= c);
        assert(hex_dump::dump_column(line) == c);
    }
    // The bytes.
    let tail = if chunk.len() == 8 {
        seq![' ', ' ']
    } else {
        seq![' ']
    };
    lemma_words_drop_spaces(c, tail);
    lemma_row_words(chunk, 0);
    lemma_row_tokens(chunk, 0);
    lemma_tokens_read(row_tokens(chunk, 0), chunk, row);
}

proof fn lemma_lines_of_joined(rows: Seq<Seq<char>>)
    requires
        rows.len() > 0,
        rows.last().len() > 0,
        forall|i: int, j: int|
            0 <= i < rows.len() && 0 <= j < rows[i].len() ==> #[trigger] rows[i][j] != '\n'
                && rows[i][j] != '\r',
    ensures
        text::lines(text::join(rows, "\n"@)) == rows,
    decreases rows.len(),
{
    reveal_strlit("\n");
    if rows.len() == 1 {
        let s = rows[0];
        text::lemma_index_from(s, '\n', 0);
        let k = text::index_from(s, '\n', 0);
        if k < s.len() {
            assert(rows[0][k] != '\n');
        }
        assert(text::lines(s) =~= rows);
    } else {
        let rest = rows.drop_first();
        assert forall|i: int, j: int|
            0 <= i < rest.len() && 0 <= j < rest[i].len() implies #[trigger] rest[i][j] != '\n'
            && rest[i][j] != '\r' by {
            assert(rows[i + 1][j] != '\n');
        }
        lemma_lines_of_joined(rest);
        lemma_join_front(rows, "\n"@);
        let s = text::join(rows, "\n"@);
        let tail = text::join(rest, "\n"@);
        let first = rows[0];
        assert(s =~= first + (seq!['\n'] + tail));
        assert forall|k: int| 0 <= k < first.len() implies #[trigger] first[k] != '\n' by {
            assert(rows[0][k] != '\n');
        }
        lemma_index_after(first, seq!['\n'] + tail, '\n', 0);
        assert(s.take(first.len() as int) =~= first);
        assert(s.skip(first.len() as int + 1) =~= tail);
        if first.len() > 0 {
            assert(rows[0][first.len() - 1] != '\r');
        }
        assert(text::strip_cr(first) == first);
        assert(seq![first] + rest =~= rows);
    }
}

pub proof fn lemma_join_front(parts: Seq<Seq<char>>, sep: Seq<char>)
    requires
        parts.len() >= 2,
    ensures
        text::join(parts, sep) == parts[0] + sep + text::join(parts.drop_first(), sep),
    decreases parts.len(),
{
    if parts.len() == 2 {
        reveal_with_fuel(text::join, 3);
        assert(parts.drop_last() =~= seq![parts[0]]);
        assert(parts.drop_first() =~= seq![parts[1]]);
    } else {
        let p = parts.drop_last();
        lemma_join_front(p, sep);
        assert(p.drop_first() =~= parts.drop_first().drop_last());
        assert(parts.drop_first().last() == parts.last());
        assert(text::join(parts, sep) =~= parts[0] + sep + (text::join(p.drop_first(), sep) + sep
            + parts.last()));
    }
}

/// The rows of a dump with the last one trimmed.
spec fn trimmed_rows(rows: Seq<Seq<char>>) -> Seq<Seq<char>> {
    rows.drop_last().push(text::trim_end(rows.last()))
}

proof fn lemma_chunks_read(data: Seq<u8>, base: nat, rows: Seq<Seq<char>>, i: int)
    requires
        0 <= i <= row_count(data.len()),
        rows.len() == row_count(data.len()),
        forall|k: int|
            0 <= k < rows.len() ==> text::trim(#[trigger] rows[k]) == text::trim(dump_rows(data, base)[k]),
    ensures
        hex_dump::dump_lines(rows.skip(i), (i + 1) as nat) == Ok::<Seq<u8>, Seq<char>>(
            data.skip(
                if 16 * i <= data.len() {
                    16 * i
                } else {
                    data.len() as int
                },
            ),
        ),
    decreases row_count(data.len()) - i,
{
    let n = row_count(data.len());
    if i == n {
        assert(rows.skip(i).len() == 0);
        assert(data.skip(data.len() as int) =~= Seq::<u8>::empty());
        assert(16 * i >= data.len());
        if 16 * i == data.len() {
        }
    } else {
        let chunk = row_chunk(data, i);
        lemma_row_reads_back(chunk, (base + 16 * i) as nat, (i + 1) as nat);
        lemma_chunks_read(data, base, rows, i + 1);
        let rest = rows.skip(i);
        assert(rest[0] == rows[i]);
        assert(text::trim(rows[i]) == text::trim(dump_rows(data, base)[i]));
        assert(rest.drop_first() =~= rows.skip(i + 1));
        let next = if 16 * (i + 1) <= data.len() {
            16 * (i + 1)
        } else {
            data.len() as int
        };
        assert(chunk + data.skip(next) =~= data.skip(16 * i));
    }
}

proof fn lemma_trim_end_idempotent(s: Seq<char>)
    ensures
        text::trim_end(text::trim_end(s)) == text::trim_end(s),
{
    let k = text::lemma_trim_end_take(s);
    let t = s.take(k);
    if k > 0 {
        assert(t.last() == s[k - 1]);
    }
}

/// Rows that begin with something to show, joined and trimmed: the lines are the rows,
/// the last one trimmed.
#[verifier::rlimit(60)]
#[verifier::spinoff_prover]
proof fn lemma_joined_rows(rows: Seq<Seq<char>>)
    requires
        rows.len() > 0,
        forall|i: int|
            0 <= i < rows.len() ==> (#[trigger] rows[i]).len() > 0 && !text::is_space(rows[i][0]),
        forall|i: int, j: int|
            0 <= i < rows.len() && 0 <= j < rows[i].len() ==> #[trigger] rows[i][j] != '\n'
                && rows[i][j] != '\r',
    ensures
        text::trim(text::join(rows, "\n"@)).len() > 0,
        text::lines(text::trim(text::join(rows, "\n"@))) == trimmed_rows(rows),
        forall|i: int|
            0 <= i < rows.len() ==> text::trim(#[trigger] trimmed_rows(rows)[i]) == text::trim(rows[i]),
{
    reveal_strlit("\n");
    let n = rows.len() as int;
    let text = text::join(rows, "\n"@);
    let last = rows.last();
    let tr = trimmed_rows(rows);
    assert(last == rows[n - 1]);
    lemma_trim_start_solid(last);
    let k = text::lemma_trim_end_take(last);
    assert(k > 0) by {
        if k == 0 {
            assert(text::is_space(last[0]));
        }
    }
    assert(!text::is_space(rows[0][0]));
    lemma_joined_starts(rows, "\n"@);
    lemma_trim_start_solid(text);
    let front = text::join(tr, "\n"@);
    let tail = last.skip(k);
    assert(last =~= last.take(k) + tail);
    if n == 1 {
        assert(tr =~= seq![last.take(k)]);
        assert(text =~= front + tail);
        assert(front.last() == last[k - 1]);
    } else {
        assert(tr.drop_last() =~= rows.drop_last());
        assert(tr.last() == last.take(k));
        assert(front == text::join(rows.drop_last(), "\n"@) + "\n"@ + last.take(k));
        assert(text =~= front + tail);
        assert(front.last() == last[k - 1]);
    }
    lemma_trim_end_append(front, tail);
    assert forall|i: int| 0 <= i < tail.len() implies text::is_space(#[trigger] tail[i]) by {
        assert(tail[i] == last[k + i]);
    }
    lemma_trim_end_blank(tail);
    assert(front + Seq::<char>::empty() =~= front);
    assert(text::trim(text) == front);
    assert forall|i: int, j: int| 0 <= i < tr.len() && 0 <= j < tr[i].len() implies #[trigger] tr[i][j]
        != '\n' && tr[i][j] != '\r' by {
        assert(rows[i][j] != '\n');
        assert(i < n - 1 ==> tr[i] == rows[i]);
        assert(i == n - 1 ==> tr[i][j] == last[j]);
    }
    lemma_lines_of_joined(tr);
    assert forall|i: int| 0 <= i < rows.len() implies text::trim(#[trigger] tr[i]) == text::trim(rows[i]) by {
        if i == n - 1 {
            lemma_trim_end_idempotent(last);
            assert(tr[i] == last.take(k));
            assert(tr[i][0] == last[0]);
            lemma_trim_start_solid(tr[i]);
        } else {
            assert(tr[i] == rows[i]);
        }
    }
}

/// A row begins with a digit and stays on its line.
proof fn lemma_row_is_solid(chunk: Seq<u8>, offset: nat)
    requires
        0 < chunk.len() <= 16,
    ensures
        dump_row(chunk, offset).len() > 0,
        !text::is_space(dump_row(chunk, offset)[0]),
        forall|j: int|
            0 <= j < dump_row(chunk, offset).len() ==> #[trigger] dump_row(chunk, offset)[j]
                != '\n' && dump_row(chunk, offset)[j] != '\r',
{
    let y = lemma_row_shape(chunk, offset);
    lemma_hex_numeral(offset);
    lemma_zero_padded(hex_numeral(offset), 4);
    assert(text::is_hex(zero_padded(hex_numeral(offset), 4)[0]));
}

proof fn lemma_joined_has_no_cr(parts: Seq<Seq<char>>, sep: Seq<char>)
    requires
        !sep.contains('\r'),
        forall|i: int| 0 <= i < parts.len() ==> !(#[trigger] parts[i]).contains('\r'),
    ensures
        !text::join(parts, sep).contains('\r'),
    decreases parts.len(),
{
    if parts.len() > 1 {
        let p = parts.drop_last();
        assert forall|i: int| 0 <= i < p.len() implies !(#[trigger] p[i]).contains('\r') by {
            assert(p[i] == parts[i]);
        }
        lemma_joined_has_no_cr(p, sep);
        let a = text::join(p, sep);
        let last = parts.last();
        assert(last == parts[parts.len() - 1]);
        let s = a + sep + last;
        assert forall|i: int| 0 <= i < s.len() implies s[i] != '\r' by {
            if i < a.len() {
                assert(a.contains(a[i]));
            } else if i < a.len() + sep.len() {
                assert(sep.contains(sep[i - a.len()]));
            } else {
                assert(last.contains(last[i - a.len() - sep.len()]));
            }
        }
    } else if parts.len() == 1 {
        assert(text::join(parts, sep) == parts[0]);
    }
}

/// A dump has line feeds as line endings.
pub proof fn lemma_dump_has_no_cr(data: Seq<u8>, base: nat)
    ensures
        !dump_text(data, base).contains('\r'),
{
    let rows = dump_rows(data, base);
    reveal_strlit("\n");
    assert(!"\n"@.contains('\r')) by {
        assert("\n"@.len() == 1 && "\n"@[0] == '\n');
    }
    assert forall|i: int| 0 <= i < rows.len() implies !(#[trigger] rows[i]).contains('\r') by {
        lemma_row_is_solid(row_chunk(data, i), (base + 16 * i) as nat);
        assert(rows[i] == dump_row(row_chunk(data, i), (base + 16 * i) as nat));
    }
    lemma_joined_has_no_cr(rows, "\n"@);
}

/// What was written as a dump is read back as it was, whatever its address.
pub proof fn law_dump_reads_back(data: Seq<u8>, base: nat)
    ensures
        hex_dump::binary_input(dump_text(data, base)) == Ok::<Seq<u8>, Seq<char>>(data),
{
    let rows = dump_rows(data, base);
    let n = row_count(data.len());
    let text = dump_text(data, base);
    if data.len() == 0 {
        assert(text =~= Seq::<char>::empty());
        assert(data =~= Seq::<u8>::empty());
    } else {
        assert(n > 0);
        assert forall|i: int| 0 <= i < rows.len() implies (#[trigger] rows[i]).len() > 0
            && !text::is_space(rows[i][0]) by {
            lemma_row_is_solid(row_chunk(data, i), (base + 16 * i) as nat);
        }
        assert forall|i: int, j: int|
            0 <= i < rows.len() && 0 <= j < rows[i].len() implies #[trigger] rows[i][j] != '\n'
            && rows[i][j] != '\r' by {
            lemma_row_is_solid(row_chunk(data, i), (base + 16 * i) as nat);
        }
        lemma_joined_rows(rows);
        let tr = trimmed_rows(rows);
        lemma_row_reads_back(row_chunk(data, 0), base, 1);
        assert(rows[0] == dump_row(row_chunk(data, 0), base));
        assert(text::trim(tr[0]) == text::trim(rows[0]));
        lemma_colon_kept(tr[0]);
        assert(hex_dump::has_offsets(tr));
        lemma_chunks_read(data, base, tr, 0);
        assert(tr.skip(0) =~= tr);
        assert(data.skip(0) =~= data);
    }
}

proof fn lemma_colon_kept(s: Seq<char>)
    requires
        text::trim(s).contains(':'),
    ensures
        s.contains(':'),
{
    let k = text::lemma_trim_start_skip(s);
    let a = text::trim_start(s);
    let e = text::lemma_trim_end_take(a);
    let i = choose|i: int| 0 <= i < text::trim(s).len() && text::trim(s)[i] == ':';
    assert(a[i] == ':');
    assert(s[i + k] == ':');
}

proof fn lemma_trim_end_blank(s: Seq<char>)
    requires
        forall|i: int| 0 <= i < s.len() ==> text::is_space(#[trigger] s[i]),
    ensures
        text::trim_end(s) == Seq::<char>::empty(),
    decreases s.len(),
{
    if s.len() > 0 {
        assert(text::is_space(s[s.len() - 1]));
        assert forall|i: int| 0 <= i < s.drop_last().len() implies text::is_space(
            #[trigger] s.drop_last()[i],
        ) by {
            assert(text::is_space(s[i]));
        }
        lemma_trim_end_blank(s.drop_last());
    } else {
        assert(s =~= Seq::<char>::empty());
    }
}

proof fn lemma_joined_starts(parts: Seq<Seq<char>>, sep: Seq<char>)
    requires
        parts.len() > 0,
        parts[0].len() > 0,
    ensures
        text::join(parts, sep).len() > 0,
        text::join(parts, sep)[0] == parts[0][0],
    decreases parts.len(),
{
    if parts.len() > 1 {
        lemma_joined_starts(parts.drop_last(), sep);
    }
}

} // verus!
