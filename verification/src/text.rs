//! Text as sequences of characters: the vocabulary that every contract of this
//! crate is written in, and the executable operations that implement it.

use vstd::prelude::*;

verus! {

// ── Characters ─────────────────────────────────────────────────────────────

/// The Unicode `White_Space` property.
pub open spec fn is_space(c: char) -> bool {
    ||| '\u{9}' <= c <= '\u{d}'
    ||| c == '\u{20}'
    ||| c == '\u{85}'
    ||| c == '\u{a0}'
    ||| c == '\u{1680}'
    ||| '\u{2000}' <= c <= '\u{200a}'
    ||| c == '\u{2028}'
    ||| c == '\u{2029}'
    ||| c == '\u{202f}'
    ||| c == '\u{205f}'
    ||| c == '\u{3000}'
}

/// Whether `c` has the Unicode `White_Space` property.
pub fn char_is_space(c: char) -> (r: bool)
    ensures
        r == is_space(c),
{
    ('\u{9}' <= c && c <= '\u{d}') || c == '\u{20}' || c == '\u{85}' || c == '\u{a0}' || c
        == '\u{1680}' || ('\u{2000}' <= c && c <= '\u{200a}') || c == '\u{2028}' || c == '\u{2029}'
        || c == '\u{202f}' || c == '\u{205f}' || c == '\u{3000}'
}

/// An ASCII decimal digit.
pub open spec fn is_digit(c: char) -> bool {
    '0' <= c <= '9'
}

/// An ASCII hexadecimal digit of either case.
pub open spec fn is_hex(c: char) -> bool {
    ||| '0' <= c <= '9'
    ||| 'a' <= c <= 'f'
    ||| 'A' <= c <= 'F'
}

/// An ASCII letter.
pub open spec fn is_letter(c: char) -> bool {
    ||| 'a' <= c <= 'z'
    ||| 'A' <= c <= 'Z'
}

/// An ASCII letter or digit.
pub open spec fn is_alnum(c: char) -> bool {
    is_letter(c) || is_digit(c)
}

/// The value of a decimal digit.
pub open spec fn digit_value(c: char) -> nat
    recommends
        is_digit(c),
{
    (c as int - '0' as int) as nat
}

/// The value of a hexadecimal digit.
pub open spec fn hex_value(c: char) -> nat
    recommends
        is_hex(c),
{
    if '0' <= c <= '9' {
        (c as int - '0' as int) as nat
    } else if 'a' <= c <= 'f' {
        (c as int - 'a' as int + 10) as nat
    } else {
        (c as int - 'A' as int + 10) as nat
    }
}

/// `c` with an ASCII capital turned into the small letter.
pub open spec fn lower(c: char) -> char {
    if 'A' <= c <= 'Z' {
        (c as int + 32) as char
    } else {
        c
    }
}

/// `c` with an ASCII small letter turned into the capital.
pub open spec fn upper(c: char) -> char {
    if 'a' <= c <= 'z' {
        (c as int - 32) as char
    } else {
        c
    }
}

/// Whether `c` is an ASCII decimal digit.
pub fn char_is_digit(c: char) -> (r: bool)
    ensures
        r == is_digit(c),
{
    '0' <= c && c <= '9'
}

/// Whether `c` is an ASCII hexadecimal digit.
pub fn char_is_hex(c: char) -> (r: bool)
    ensures
        r == is_hex(c),
{
    ('0' <= c && c <= '9') || ('a' <= c && c <= 'f') || ('A' <= c && c <= 'F')
}

/// Whether `c` is an ASCII letter.
pub fn char_is_letter(c: char) -> (r: bool)
    ensures
        r == is_letter(c),
{
    ('a' <= c && c <= 'z') || ('A' <= c && c <= 'Z')
}

/// Whether `c` is an ASCII letter or digit.
pub fn char_is_alnum(c: char) -> (r: bool)
    ensures
        r == is_alnum(c),
{
    char_is_letter(c) || char_is_digit(c)
}

/// The small form of an ASCII capital; any other character unchanged.
pub fn char_lower(c: char) -> (r: char)
    ensures
        r == lower(c),
{
    if 'A' <= c && c <= 'Z' {
        (c as u8 + 32) as char
    } else {
        c
    }
}

/// The capital form of an ASCII small letter; any other character unchanged.
pub fn char_upper(c: char) -> (r: char)
    ensures
        r == upper(c),
{
    if 'a' <= c && c <= 'z' {
        (c as u8 - 32) as char
    } else {
        c
    }
}

/// The value of a hexadecimal digit.
pub fn char_hex_value(c: char) -> (r: u8)
    requires
        is_hex(c),
    ensures
        r == hex_value(c),
        r < 16,
{
    if '0' <= c && c <= '9' {
        c as u8 - '0' as u8
    } else if 'a' <= c && c <= 'f' {
        c as u8 - 'a' as u8 + 10
    } else {
        c as u8 - 'A' as u8 + 10
    }
}

/// Every character of `s` is an ASCII digit.
pub open spec fn all_digits(s: Seq<char>) -> bool {
    forall|i: int| 0 <= i < s.len() ==> is_digit(#[trigger] s[i])
}

/// Every character of `s` is an ASCII hexadecimal digit.
pub open spec fn all_hex(s: Seq<char>) -> bool {
    forall|i: int| 0 <= i < s.len() ==> is_hex(#[trigger] s[i])
}

/// Every character of `s` is an ASCII letter or digit.
pub open spec fn all_alnum(s: Seq<char>) -> bool {
    forall|i: int| 0 <= i < s.len() ==> is_alnum(#[trigger] s[i])
}

/// Whether every character is an ASCII digit.
pub fn chars_all_digits(s: &[char]) -> (r: bool)
    ensures
        r == all_digits(s@),
{
    for i in 0..s.len()
        invariant
            forall|j: int| 0 <= j < i ==> is_digit(#[trigger] s@[j]),
    {
        if !char_is_digit(s[i]) {
            return false;
        }
    }
    true
}

/// Whether every character is an ASCII hexadecimal digit.
pub fn chars_all_hex(s: &[char]) -> (r: bool)
    ensures
        r == all_hex(s@),
{
    for i in 0..s.len()
        invariant
            forall|j: int| 0 <= j < i ==> is_hex(#[trigger] s@[j]),
    {
        if !char_is_hex(s[i]) {
            return false;
        }
    }
    true
}

/// Whether every character is an ASCII letter or digit.
pub fn chars_all_alnum(s: &[char]) -> (r: bool)
    ensures
        r == all_alnum(s@),
{
    for i in 0..s.len()
        invariant
            forall|j: int| 0 <= j < i ==> is_alnum(#[trigger] s@[j]),
    {
        if !char_is_alnum(s[i]) {
            return false;
        }
    }
    true
}

// ── Between strings and characters ─────────────────────────────────────────

/// `String::push` appends one character.
pub assume_specification[ String::push ](s: &mut String, c: char)
    ensures
        final(s)@ == old(s)@.push(c),
;

/// The characters of `s`.
pub fn chars_of(s: &str) -> (r: Vec<char>)
    ensures
        r@ == s@,
{
    let mut v: Vec<char> = Vec::new();
    for c in it: s.chars()
        invariant
            v@ == s@.take(it.index() as int),
            it.seq() == s@,
    {
        v.push(c);
    }
    v
}

/// The string made of `v`.
pub fn string_of(v: &[char]) -> (r: String)
    ensures
        r@ == v@,
{
    let mut s = String::new();
    for i in 0..v.len()
        invariant
            s@ == v@.take(i as int),
    {
        s.push(v[i]);
    }
    s
}

/// Whether two character slices are the same text.
pub fn chars_eq(a: &[char], b: &[char]) -> (r: bool)
    ensures
        r == (a@ == b@),
{
    if a.len() != b.len() {
        return false;
    }
    for i in 0..a.len()
        invariant
            a@.len() == b@.len(),
            forall|j: int| 0 <= j < i ==> a@[j] == b@[j],
    {
        if a[i] != b[i] {
            assert(a@[i as int] != b@[i as int]);
            return false;
        }
    }
    assert(a@ =~= b@);
    true
}

/// Whether two strings are the same text.
pub fn str_eq(a: &str, b: &str) -> (r: bool)
    ensures
        r == (a@ == b@),
{
    let x = chars_of(a);
    let y = chars_of(b);
    chars_eq(&x, &y)
}

/// Whether a character slice is the text of `lit`.
pub fn chars_are(a: &[char], lit: &str) -> (r: bool)
    ensures
        r == (a@ == lit@),
{
    let y = chars_of(lit);
    chars_eq(a, &y)
}

/// The text of an optional string.
pub open spec fn opt_text(s: Option<String>) -> Option<Seq<char>> {
    match s {
        Some(t) => Some(t@),
        None => None,
    }
}

/// The text of an optional string slice.
pub open spec fn opt_str(s: Option<&str>) -> Option<Seq<char>> {
    match s {
        Some(t) => Some(t@),
        None => None,
    }
}

/// The text of a result whose error is a message.
pub open spec fn text_result<T>(r: Result<T, String>) -> Result<T, Seq<char>> {
    match r {
        Ok(v) => Ok(v),
        Err(e) => Err(e@),
    }
}

/// The texts of a list of strings.
pub open spec fn texts(v: Seq<String>) -> Seq<Seq<char>> {
    v.map_values(|s: String| s@)
}

/// A copy of a character slice.
pub fn copy_chars(s: &[char]) -> (r: Vec<char>)
    ensures
        r@ == s@,
{
    let mut v: Vec<char> = Vec::new();
    for i in 0..s.len()
        invariant
            v@ == s@.take(i as int),
    {
        v.push(s[i]);
    }
    v
}

/// Append a slice to a vector of characters.
pub fn push_chars(out: &mut Vec<char>, s: &[char])
    ensures
        final(out)@ == old(out)@ + s@,
{
    for i in 0..s.len()
        invariant
            out@ == old(out)@ + s@.take(i as int),
    {
        out.push(s[i]);
        assert(old(out)@ + s@.take(i + 1) =~= (old(out)@ + s@.take(i as int)).push(s@[i as int]));
    }
    assert(s@.take(s@.len() as int) =~= s@);
}

/// Append a string to a vector of characters.
pub fn push_str(out: &mut Vec<char>, s: &str)
    ensures
        final(out)@ == old(out)@ + s@,
{
    let c = chars_of(s);
    push_chars(out, &c);
}

// ── Prefixes, suffixes, searching ──────────────────────────────────────────

/// `s` begins with `p`.
pub open spec fn starts_with(s: Seq<char>, p: Seq<char>) -> bool {
    p.len() <= s.len() && s.take(p.len() as int) == p
}

/// `s` ends with `p`.
pub open spec fn ends_with(s: Seq<char>, p: Seq<char>) -> bool {
    p.len() <= s.len() && s.skip(s.len() - p.len()) == p
}

/// `p` stands in `s` at position `i`.
pub open spec fn stands_at(s: Seq<char>, p: Seq<char>, i: int) -> bool {
    0 <= i && i + p.len() <= s.len() && s.subrange(i, i + p.len()) == p
}

/// The first position from `i` on at which `c` stands, or the length of `s`.
pub open spec fn index_from(s: Seq<char>, c: char, i: int) -> int
    decreases s.len() - i,
{
    if i < 0 || i >= s.len() {
        s.len() as int
    } else if s[i] == c {
        i
    } else {
        index_from(s, c, i + 1)
    }
}

/// The first position from `i` on at which `p` stands.
pub open spec fn find_from(s: Seq<char>, p: Seq<char>, i: int) -> Option<int>
    decreases s.len() - i,
{
    if i < 0 || i + p.len() > s.len() {
        None
    } else if s.subrange(i, i + p.len()) == p {
        Some(i)
    } else if i >= s.len() {
        None
    } else {
        find_from(s, p, i + 1)
    }
}

/// The first position at which `p` stands in `s`.
pub open spec fn find(s: Seq<char>, p: Seq<char>) -> Option<int> {
    find_from(s, p, 0)
}

/// `find_from` finds the least position, and finds one if there is one.
pub proof fn lemma_find_from(s: Seq<char>, p: Seq<char>, i: int)
    requires
        0 <= i,
    ensures
        find_from(s, p, i) matches Some(k) ==> i <= k && stands_at(s, p, k) && forall|j: int|
            i <= j < k ==> !#[trigger] stands_at(s, p, j),
        find_from(s, p, i) is None ==> forall|j: int| i <= j ==> !#[trigger] stands_at(s, p, j),
    decreases s.len() - i,
{
    if i + p.len() > s.len() {
    } else if s.subrange(i, i + p.len()) == p {
    } else if i >= s.len() {
    } else {
        lemma_find_from(s, p, i + 1);
    }
}

/// `index_from` gives the least position of `c`, or the length.
pub proof fn lemma_index_from(s: Seq<char>, c: char, i: int)
    requires
        0 <= i <= s.len(),
    ensures
        i <= index_from(s, c, i) <= s.len(),
        index_from(s, c, i) < s.len() ==> s[index_from(s, c, i)] == c,
        forall|j: int| i <= j < index_from(s, c, i) ==> #[trigger] s[j] != c,
    decreases s.len() - i,
{
    if i < s.len() && s[i] != c {
        lemma_index_from(s, c, i + 1);
    }
}

/// Whether `s` begins with the text `p`.
pub fn chars_start_with(s: &[char], p: &str) -> (r: bool)
    ensures
        r == starts_with(s@, p@),
{
    let p = chars_of(p);
    if p.len() > s.len() {
        return false;
    }
    chars_eq(&s[0..p.len()], &p)
}

/// Whether `s` ends with the text `p`.
pub fn chars_end_with(s: &[char], p: &str) -> (r: bool)
    ensures
        r == ends_with(s@, p@),
{
    let p = chars_of(p);
    if p.len() > s.len() {
        return false;
    }
    chars_eq(&s[s.len() - p.len()..s.len()], &p)
}

/// The position of the first `c` from `from` on, or the length.
pub fn chars_index_from(s: &[char], c: char, from: usize) -> (r: usize)
    requires
        from <= s@.len(),
    ensures
        r == index_from(s@, c, from as int),
        from <= r <= s@.len(),
        r < s@.len() ==> s@[r as int] == c,
{
    proof {
        lemma_index_from(s@, c, from as int);
    }
    let mut i: usize = from;
    while i < s.len()
        invariant
            from <= i <= s@.len(),
            index_from(s@, c, i as int) == index_from(s@, c, from as int),
        decreases s@.len() - i,
    {
        if s[i] == c {
            return i;
        }
        i += 1;
    }
    i
}

/// The position of the first occurrence of `p` from `from` on.
pub fn chars_find_from(s: &[char], p: &[char], from: usize) -> (r: Option<usize>)
    requires
        from <= s@.len(),
    ensures
        r matches Some(k) ==> find_from(s@, p@, from as int) == Some(k as int) && from <= k && k
            + p@.len() <= s@.len(),
        r is None ==> find_from(s@, p@, from as int) is None,
{
    proof {
        lemma_find_from(s@, p@, from as int);
    }
    let mut i: usize = from;
    while p.len() <= s.len() - i
        invariant
            from <= i <= s@.len(),
            find_from(s@, p@, i as int) == find_from(s@, p@, from as int),
        decreases s@.len() - i,
    {
        if chars_eq(&s[i..i + p.len()], p) {
            return Some(i);
        }
        if i == s.len() {
            return None;
        }
        i += 1;
    }
    None
}

/// The position of the first occurrence of the text `p`.
pub fn chars_find(s: &[char], p: &str) -> (r: Option<usize>)
    ensures
        r matches Some(k) ==> find(s@, p@) == Some(k as int) && k + p@.len() <= s@.len(),
        r is None ==> find(s@, p@) is None,
{
    let p = chars_of(p);
    chars_find_from(s, &p, 0)
}

// ── Trimming ───────────────────────────────────────────────────────────────

/// `s` without its leading white space.
pub open spec fn trim_start(s: Seq<char>) -> Seq<char>
    decreases s.len(),
{
    if s.len() > 0 && is_space(s[0]) {
        trim_start(s.drop_first())
    } else {
        s
    }
}

/// `s` without its trailing white space.
pub open spec fn trim_end(s: Seq<char>) -> Seq<char>
    decreases s.len(),
{
    if s.len() > 0 && is_space(s.last()) {
        trim_end(s.drop_last())
    } else {
        s
    }
}

/// `s` without white space at either end.
pub open spec fn trim(s: Seq<char>) -> Seq<char> {
    trim_end(trim_start(s))
}

/// `s` holds nothing but white space.
pub open spec fn is_blank(s: Seq<char>) -> bool {
    trim(s).len() == 0
}

/// A slice without its leading white space.
pub fn chars_trim_start(s: &[char]) -> (r: &[char])
    ensures
        r@ == trim_start(s@),
{
    let mut i: usize = 0;
    assert(s@.skip(0) =~= s@);
    while i < s.len() && char_is_space(s[i])
        invariant
            i <= s@.len(),
            trim_start(s@.skip(i as int)) == trim_start(s@),
        decreases s@.len() - i,
    {
        assert(s@.skip(i as int).drop_first() =~= s@.skip(i + 1));
        i += 1;
    }
    let r = &s[i..s.len()];
    assert(r@ =~= s@.skip(i as int));
    r
}

/// A slice without its trailing white space.
pub fn chars_trim_end(s: &[char]) -> (r: &[char])
    ensures
        r@ == trim_end(s@),
{
    let mut i: usize = s.len();
    assert(s@.take(i as int) =~= s@);
    while i > 0 && char_is_space(s[i - 1])
        invariant
            i <= s@.len(),
            trim_end(s@.take(i as int)) == trim_end(s@),
        decreases i,
    {
        assert(s@.take(i as int).drop_last() =~= s@.take(i - 1));
        i -= 1;
    }
    let r = &s[0..i];
    assert(r@ =~= s@.take(i as int));
    r
}

/// A slice without white space at either end.
pub fn chars_trim(s: &[char]) -> (r: &[char])
    ensures
        r@ == trim(s@),
{
    chars_trim_end(chars_trim_start(s))
}

/// Whether a string holds nothing but white space.
pub fn str_is_blank(s: &str) -> (r: bool)
    ensures
        r == is_blank(s@),
{
    let c = chars_of(s);
    chars_trim(&c).len() == 0
}

/// A string without white space at either end.
pub fn str_trim(s: &str) -> (r: String)
    ensures
        r@ == trim(s@),
{
    let c = chars_of(s);
    string_of(chars_trim(&c))
}

/// Trimming gives an interior part of the text.
pub proof fn lemma_trim_start_skip(s: Seq<char>) -> (k: int)
    ensures
        0 <= k <= s.len(),
        trim_start(s) == s.skip(k),
        forall|i: int| 0 <= i < k ==> is_space(#[trigger] s[i]),
        k < s.len() ==> !is_space(s[k]),
    decreases s.len(),
{
    if s.len() > 0 && is_space(s[0]) {
        let k = lemma_trim_start_skip(s.drop_first());
        assert(s.drop_first().skip(k) =~= s.skip(k + 1));
        assert forall|i: int| 0 <= i < k + 1 implies is_space(#[trigger] s[i]) by {
            if i > 0 {
                assert(s.drop_first()[i - 1] == s[i]);
            }
        }
        k + 1
    } else {
        assert(s.skip(0) =~= s);
        0
    }
}

/// Trimming the end gives a leading part of the text.
pub proof fn lemma_trim_end_take(s: Seq<char>) -> (k: int)
    ensures
        0 <= k <= s.len(),
        trim_end(s) == s.take(k),
        forall|i: int| k <= i < s.len() ==> is_space(#[trigger] s[i]),
        k > 0 ==> !is_space(s[k - 1]),
    decreases s.len(),
{
    if s.len() > 0 && is_space(s.last()) {
        let k = lemma_trim_end_take(s.drop_last());
        assert(s.drop_last().take(k) =~= s.take(k));
        assert forall|i: int| k <= i < s.len() implies is_space(#[trigger] s[i]) by {
            if i < s.len() - 1 {
                assert(s.drop_last()[i] == s[i]);
            }
        }
        if k > 0 {
            assert(s.drop_last()[k - 1] == s[k - 1]);
        }
        k
    } else {
        assert(s.take(s.len() as int) =~= s);
        s.len() as int
    }
}

/// Trimming twice is trimming once.
pub proof fn lemma_trim_idempotent(s: Seq<char>)
    ensures
        trim(trim(s)) == trim(s),
{
    let a = trim_start(s);
    let k = lemma_trim_start_skip(s);
    let e = lemma_trim_end_take(a);
    let t = a.take(e);
    if t.len() > 0 {
        assert(t[0] == a[0]);
        assert(a[0] == s[k]);
        assert(t.last() == a[e - 1]);
    }
}

// ── Splitting and joining ──────────────────────────────────────────────────

/// The parts of `s` between the occurrences of `c`.
pub open spec fn split(s: Seq<char>, c: char) -> Seq<Seq<char>>
    decreases s.len(),
{
    let i = index_from(s, c, 0);
    if 0 <= i < s.len() {
        seq![s.take(i)] + split(s.skip(i + 1), c)
    } else {
        seq![s]
    }
}

/// A line without the carriage return that ends it.
pub open spec fn strip_cr(s: Seq<char>) -> Seq<char> {
    if s.len() > 0 && s.last() == '\r' {
        s.drop_last()
    } else {
        s
    }
}

/// The lines of `s`: each ends at a line feed, which may follow a carriage return,
/// or at the end of the text; nothing follows a final line feed.
pub open spec fn lines(s: Seq<char>) -> Seq<Seq<char>>
    decreases s.len(),
{
    let i = index_from(s, '\n', 0);
    if s.len() == 0 {
        Seq::empty()
    } else if 0 <= i < s.len() {
        seq![strip_cr(s.take(i))] + lines(s.skip(i + 1))
    } else {
        seq![s]
    }
}

/// The first position from `i` on that holds white space, or the length of `s`.
pub open spec fn space_from(s: Seq<char>, i: int) -> int
    decreases s.len() - i,
{
    if i < 0 || i >= s.len() {
        s.len() as int
    } else if is_space(s[i]) {
        i
    } else {
        space_from(s, i + 1)
    }
}

/// `space_from` stays within the text.
pub proof fn lemma_space_from(s: Seq<char>, i: int)
    requires
        0 <= i <= s.len(),
    ensures
        i <= space_from(s, i) <= s.len(),
        forall|j: int| i <= j < space_from(s, i) ==> !is_space(#[trigger] s[j]),
        space_from(s, i) < s.len() ==> is_space(s[space_from(s, i)]),
    decreases s.len() - i,
{
    if i < s.len() && !is_space(s[i]) {
        lemma_space_from(s, i + 1);
    }
}

/// The maximal runs of `s` without white space.
pub open spec fn words(s: Seq<char>) -> Seq<Seq<char>>
    decreases s.len(),
{
    if s.len() == 0 {
        Seq::empty()
    } else if is_space(s[0]) {
        words(s.drop_first())
    } else {
        let i = space_from(s, 0);
        if 0 < i <= s.len() {
            seq![s.take(i)] + words(s.skip(i))
        } else {
            Seq::empty()
        }
    }
}

/// The parts, with `sep` between each two.
pub open spec fn join(parts: Seq<Seq<char>>, sep: Seq<char>) -> Seq<char>
    decreases parts.len(),
{
    if parts.len() == 0 {
        Seq::empty()
    } else if parts.len() == 1 {
        parts[0]
    } else {
        join(parts.drop_last(), sep) + sep + parts.last()
    }
}

/// The slices as a sequence of texts.
pub open spec fn slices(v: Seq<&[char]>) -> Seq<Seq<char>> {
    v.map_values(|s: &[char]| s@)
}

/// The parts of a slice between the occurrences of `c`.
pub fn chars_split(s: &[char], c: char) -> (r: Vec<&[char]>)
    ensures
        slices(r@) == split(s@, c),
        r@.len() >= 1,
{
    let mut out: Vec<&[char]> = Vec::new();
    let mut rest: &[char] = s;
    proof {
        assert(slices(out@) + split(rest@, c) =~= split(s@, c));
        lemma_index_from(rest@, c, 0);
    }
    let mut i: usize = chars_index_from(rest, c, 0);
    while i < rest.len()
        invariant
            i == index_from(rest@, c, 0),
            0 <= i <= rest@.len(),
            slices(out@) + split(rest@, c) == split(s@, c),
        decreases rest@.len(),
    {
        let part = &rest[0..i];
        let next = &rest[i + 1..rest.len()];
        let ghost before = out@;
        out.push(part);
        proof {
            assert(part@ =~= rest@.take(i as int));
            assert(next@ =~= rest@.skip(i + 1));
            assert(slices(out@) =~= slices(before).push(part@));
            assert(slices(out@) + split(next@, c) =~= slices(before) + (seq![part@] + split(
                next@,
                c,
            )));
        }
        rest = next;
        proof {
            lemma_index_from(rest@, c, 0);
        }
        i = chars_index_from(rest, c, 0);
    }
    let ghost before = out@;
    out.push(rest);
    assert(slices(out@) =~= slices(before) + seq![rest@]);
    out
}

/// The lines of a slice.
pub fn chars_lines(s: &[char]) -> (r: Vec<&[char]>)
    ensures
        slices(r@) == lines(s@),
{
    let mut out: Vec<&[char]> = Vec::new();
    let mut rest: &[char] = s;
    assert(slices(out@) + lines(rest@) =~= lines(s@));
    while rest.len() > 0
        invariant
            slices(out@) + lines(rest@) == lines(s@),
        decreases rest@.len(),
    {
        proof {
            lemma_index_from(rest@, '\n', 0);
        }
        let i: usize = chars_index_from(rest, '\n', 0);
        let ghost before = out@;
        if i < rest.len() {
            let part = if i > 0 && rest[i - 1] == '\r' {
                &rest[0..i - 1]
            } else {
                &rest[0..i]
            };
            let next = &rest[i + 1..rest.len()];
            out.push(part);
            proof {
                assert(part@ =~= strip_cr(rest@.take(i as int)));
                assert(next@ =~= rest@.skip(i + 1));
                assert(slices(out@) =~= slices(before).push(part@));
                assert(slices(out@) + lines(next@) =~= slices(before) + (seq![part@] + lines(
                    next@,
                )));
            }
            rest = next;
        } else {
            out.push(rest);
            let next = &rest[rest.len()..rest.len()];
            proof {
                assert(slices(out@) =~= slices(before) + seq![rest@]);
                assert(slices(out@) + lines(next@) =~= slices(out@));
            }
            rest = next;
        }
    }
    assert(slices(out@) + lines(rest@) =~= slices(out@));
    out
}

/// The maximal runs of a slice without white space.
pub fn chars_words(s: &[char]) -> (r: Vec<&[char]>)
    ensures
        slices(r@) == words(s@),
{
    let mut out: Vec<&[char]> = Vec::new();
    let mut rest: &[char] = s;
    assert(slices(out@) + words(rest@) =~= words(s@));
    while rest.len() > 0
        invariant
            slices(out@) + words(rest@) == words(s@),
        decreases rest@.len(),
    {
        if char_is_space(rest[0]) {
            let next = &rest[1..rest.len()];
            assert(next@ =~= rest@.drop_first());
            rest = next;
        } else {
            proof {
                lemma_space_from(rest@, 0);
            }
            let mut i: usize = 0;
            while i < rest.len() && !char_is_space(rest[i])
                invariant
                    i <= rest@.len(),
                    space_from(rest@, i as int) == space_from(rest@, 0),
                decreases rest@.len() - i,
            {
                i += 1;
            }
            let part = &rest[0..i];
            let next = &rest[i..rest.len()];
            let ghost before = out@;
            out.push(part);
            proof {
                assert(part@ =~= rest@.take(i as int));
                assert(next@ =~= rest@.skip(i as int));
                assert(slices(out@) =~= slices(before).push(part@));
                assert(slices(out@) + words(next@) =~= slices(before) + (seq![part@] + words(
                    next@,
                )));
            }
            rest = next;
        }
    }
    assert(slices(out@) + words(rest@) =~= slices(out@));
    out
}

/// Join strings with a separator.
pub fn join_strings(parts: &[String], sep: &str) -> (r: String)
    ensures
        r@ == join(texts(parts@), sep@),
{
    let mut out = String::new();
    for i in 0..parts.len()
        invariant
            out@ == join(texts(parts@).take(i as int), sep@),
    {
        if i > 0 {
            out.append(sep);
        }
        out.append(parts[i].as_str());
        proof {
            let t = texts(parts@).take(i + 1);
            assert(t.drop_last() =~= texts(parts@).take(i as int));
            assert(t.last() == parts@[i as int]@);
        }
    }
    assert(texts(parts@).take(parts@.len() as int) =~= texts(parts@));
    out
}

// ── Case and newlines ──────────────────────────────────────────────────────

/// `s` with every ASCII capital turned into the small letter.
pub open spec fn lower_text(s: Seq<char>) -> Seq<char> {
    s.map_values(|c: char| lower(c))
}

/// `s` with every ASCII small letter turned into the capital.
pub open spec fn upper_text(s: Seq<char>) -> Seq<char> {
    s.map_values(|c: char| upper(c))
}

/// A slice with every ASCII capital turned into the small letter.
pub fn chars_lower(s: &[char]) -> (r: Vec<char>)
    ensures
        r@ == lower_text(s@),
{
    let mut v: Vec<char> = Vec::new();
    for i in 0..s.len()
        invariant
            v@ == lower_text(s@).take(i as int),
    {
        v.push(char_lower(s[i]));
    }
    v
}

/// A slice with every ASCII small letter turned into the capital.
pub fn chars_upper(s: &[char]) -> (r: Vec<char>)
    ensures
        r@ == upper_text(s@),
{
    let mut v: Vec<char> = Vec::new();
    for i in 0..s.len()
        invariant
            v@ == upper_text(s@).take(i as int),
    {
        v.push(char_upper(s[i]));
    }
    v
}

/// A string with every ASCII capital turned into the small letter.
pub fn str_lower(s: &str) -> (r: String)
    ensures
        r@ == lower_text(s@),
{
    let c = chars_of(s);
    string_of(&chars_lower(&c))
}

/// `s` with each line ending, `\r\n` or a lone `\r`, written as `\n`.
pub open spec fn unix_newlines(s: Seq<char>) -> Seq<char>
    decreases s.len(),
{
    if s.len() == 0 {
        Seq::empty()
    } else if s[0] == '\r' {
        if s.len() > 1 && s[1] == '\n' {
            seq!['\n'] + unix_newlines(s.skip(2))
        } else {
            seq!['\n'] + unix_newlines(s.skip(1))
        }
    } else {
        seq![s[0]] + unix_newlines(s.skip(1))
    }
}

/// A string with each line ending written as `\n`.
pub fn str_unix_newlines(s: &str) -> (r: String)
    ensures
        r@ == unix_newlines(s@),
{
    let c = chars_of(s);
    let mut out: Vec<char> = Vec::new();
    let mut i: usize = 0;
    assert(c@.skip(0) =~= c@);
    assert(out@ + unix_newlines(c@.skip(0)) =~= unix_newlines(s@));
    while i < c.len()
        invariant
            i <= c@.len(),
            out@ + unix_newlines(c@.skip(i as int)) == unix_newlines(s@),
        decreases c@.len() - i,
    {
        let ghost rest = c@.skip(i as int);
        let ghost before = out@;
        assert(rest[0] == c@[i as int]);
        if c[i] == '\r' {
            out.push('\n');
            if i + 1 < c.len() && c[i + 1] == '\n' {
                assert(rest[1] == c@[i + 1]);
                assert(rest.skip(2) =~= c@.skip(i + 2));
                assert(out@ + unix_newlines(rest.skip(2)) =~= before + unix_newlines(rest));
                i += 2;
            } else {
                assert(rest.skip(1) =~= c@.skip(i + 1));
                assert(out@ + unix_newlines(rest.skip(1)) =~= before + unix_newlines(rest));
                i += 1;
            }
        } else {
            out.push(c[i]);
            assert(rest.skip(1) =~= c@.skip(i + 1));
            assert(out@ + unix_newlines(rest.skip(1)) =~= before + unix_newlines(rest));
            i += 1;
        }
    }
    assert(out@ + unix_newlines(c@.skip(i as int)) =~= out@);
    string_of(&out)
}

/// `s` with each `\r\n` written as `\n`; a lone `\r` stays.
pub open spec fn fold_crlf(s: Seq<char>) -> Seq<char>
    decreases s.len(),
{
    if s.len() == 0 {
        Seq::empty()
    } else if s.len() > 1 && s[0] == '\r' && s[1] == '\n' {
        seq!['\n'] + fold_crlf(s.skip(2))
    } else {
        seq![s[0]] + fold_crlf(s.skip(1))
    }
}

/// A slice with each `\r\n` written as `\n`.
pub fn chars_fold_crlf(c: &[char]) -> (r: Vec<char>)
    ensures
        r@ == fold_crlf(c@),
{
    let mut out: Vec<char> = Vec::new();
    let mut i: usize = 0;
    assert(c@.skip(0) =~= c@);
    assert(out@ + fold_crlf(c@.skip(0)) =~= fold_crlf(c@));
    while i < c.len()
        invariant
            i <= c@.len(),
            out@ + fold_crlf(c@.skip(i as int)) == fold_crlf(c@),
        decreases c@.len() - i,
    {
        let ghost rest = c@.skip(i as int);
        let ghost before = out@;
        assert(rest[0] == c@[i as int]);
        if c[i] == '\r' && i + 1 < c.len() && c[i + 1] == '\n' {
            out.push('\n');
            assert(rest[1] == c@[i + 1]);
            assert(rest.skip(2) =~= c@.skip(i + 2));
            assert(out@ + fold_crlf(rest.skip(2)) =~= before + fold_crlf(rest));
            i += 2;
        } else {
            out.push(c[i]);
            assert(i + 1 < c@.len() ==> rest[1] == c@[i + 1]);
            assert(rest.skip(1) =~= c@.skip(i + 1));
            assert(out@ + fold_crlf(rest.skip(1)) =~= before + fold_crlf(rest));
            i += 1;
        }
    }
    assert(out@ + fold_crlf(c@.skip(i as int)) =~= out@);
    out
}

// ── Messages ───────────────────────────────────────────────────────────────

/// Two texts, one after the other.
pub fn cat2(a: &str, b: &str) -> (r: String)
    ensures
        r@ == a@ + b@,
{
    let mut s = String::from_str(a);
    s.append(b);
    s
}

/// Three texts, one after the other.
pub fn cat3(a: &str, b: &str, c: &str) -> (r: String)
    ensures
        r@ == a@ + b@ + c@,
{
    let mut s = cat2(a, b);
    s.append(c);
    s
}

/// Four texts, one after the other.
pub fn cat4(a: &str, b: &str, c: &str, d: &str) -> (r: String)
    ensures
        r@ == a@ + b@ + c@ + d@,
{
    let mut s = cat3(a, b, c);
    s.append(d);
    s
}

/// Five texts, one after the other.
pub fn cat5(a: &str, b: &str, c: &str, d: &str, e: &str) -> (r: String)
    ensures
        r@ == a@ + b@ + c@ + d@ + e@,
{
    let mut s = cat4(a, b, c, d);
    s.append(e);
    s
}

// ── Lengths in UTF-8 ───────────────────────────────────────────────────────

/// How many bytes a character takes in UTF-8.
pub open spec fn char_bytes(c: char) -> nat {
    if c <= '\u{7f}' {
        1
    } else if c <= '\u{7ff}' {
        2
    } else if c <= '\u{ffff}' {
        3
    } else {
        4
    }
}

/// How many bytes a text takes in UTF-8.
pub open spec fn byte_len(s: Seq<char>) -> nat
    decreases s.len(),
{
    if s.len() == 0 {
        0
    } else {
        byte_len(s.drop_last()) + char_bytes(s.last())
    }
}

proof fn lemma_byte_len_prefix(s: Seq<char>, i: int)
    requires
        0 <= i <= s.len(),
    ensures
        byte_len(s.take(i)) + (s.len() - i) <= byte_len(s),
    decreases s.len(),
{
    if i == s.len() {
        assert(s.take(i) =~= s);
    } else {
        lemma_byte_len_prefix(s.drop_last(), i);
        assert(s.drop_last().take(i) =~= s.take(i));
    }
}

/// Whether a text takes exactly `n` bytes in UTF-8.
pub fn chars_byte_len_is(s: &[char], n: u32) -> (r: bool)
    ensures
        r == (byte_len(s@) == n),
{
    let mut total: u64 = 0;
    for i in 0..s.len()
        invariant
            total == byte_len(s@.take(i as int)),
            total <= n,
    {
        let c = s[i];
        let k: u64 = if c <= '\u{7f}' {
            1
        } else if c <= '\u{7ff}' {
            2
        } else if c <= '\u{ffff}' {
            3
        } else {
            4
        };
        proof {
            assert(s@.take(i + 1).drop_last() =~= s@.take(i as int));
            lemma_byte_len_prefix(s@, i + 1);
        }
        total = total + k;
        if total > n as u64 {
            return false;
        }
    }
    assert(s@.take(s@.len() as int) =~= s@);
    total == n as u64
}

} // verus!
