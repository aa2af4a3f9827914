//! The lines of a text that say something.

use vstd::prelude::*;

use crate::text;

verus! {

/// The lines that are not blank, without the space around them.
pub open spec fn content(ls: Seq<Seq<char>>) -> Seq<Seq<char>>
    decreases ls.len(),
{
    if ls.len() == 0 {
        Seq::empty()
    } else if text::trim(ls.last()).len() == 0 {
        content(ls.drop_last())
    } else {
        content(ls.drop_last()).push(text::trim(ls.last()))
    }
}

/// What lines say is what the first of them say and what the others say.
pub proof fn lemma_content_concat(a: Seq<Seq<char>>, b: Seq<Seq<char>>)
    ensures
        content(a + b) == content(a) + content(b),
    decreases b.len(),
{
    if b.len() == 0 {
        assert(a + b =~= a);
        assert(content(a) + content(b) =~= content(a));
    } else {
        assert((a + b).drop_last() =~= a + b.drop_last());
        assert((a + b).last() == b.last());
        lemma_content_concat(a, b.drop_last());
        assert(content(a + b) =~= content(a) + content(b));
    }
}

/// What one line says.
pub proof fn lemma_content_one(x: Seq<char>)
    ensures
        content(seq![x]) == (if text::trim(x).len() == 0 {
            Seq::empty()
        } else {
            seq![text::trim(x)]
        }),
{
    let v = seq![x];
    assert(v.drop_last() =~= Seq::<Seq<char>>::empty());
    assert(v.last() == x);
    assert(content(v.drop_last()) =~= Seq::<Seq<char>>::empty());
    assert(Seq::<Seq<char>>::empty().push(text::trim(x)) =~= seq![text::trim(x)]);
}

/// White space before a text is trimmed away.
pub proof fn lemma_trim_front(c: char, s: Seq<char>)
    requires
        text::is_space(c),
    ensures
        text::trim(seq![c] + s) == text::trim(s),
{
    let t = seq![c] + s;
    assert(t.drop_first() =~= s);
}

/// White space after a text is trimmed away.
pub proof fn lemma_trim_back(s: Seq<char>, c: char)
    requires
        text::is_space(c),
    ensures
        text::trim(s.push(c)) == text::trim(s),
    decreases s.len(),
{
    let t = s.push(c);
    if s.len() == 0 {
        assert(t.drop_first() =~= s);
    } else if text::is_space(s[0]) {
        assert(t.drop_first() =~= s.drop_first().push(c));
        lemma_trim_back(s.drop_first(), c);
    } else {
        assert(t.drop_last() =~= s);
    }
}

/// The carriage return that ends a line is white space.
pub proof fn lemma_trim_strip_cr(s: Seq<char>)
    ensures
        text::trim(text::strip_cr(s)) == text::trim(s),
{
    if s.len() > 0 && s.last() == '\r' {
        assert(s.drop_last().push('\r') =~= s);
        lemma_trim_back(s.drop_last(), '\r');
    }
}

proof fn lemma_content_first(x: Seq<char>, rest: Seq<Seq<char>>)
    ensures
        content(seq![text::strip_cr(x)] + rest) == content(seq![x] + rest),
{
    lemma_content_concat(seq![x], rest);
    lemma_content_concat(seq![text::strip_cr(x)], rest);
    lemma_content_one(x);
    lemma_content_one(text::strip_cr(x));
    lemma_trim_strip_cr(x);
}

/// White space before a text does not change what its lines say.
proof fn lemma_content_front(c: char, s: Seq<char>)
    requires
        text::is_space(c),
    ensures
        content(text::lines(seq![c] + s)) == content(text::lines(s)),
{
    let t = seq![c] + s;
    let none = Seq::<Seq<char>>::empty();
    text::lemma_index_from(t, '\n', 0);
    text::lemma_index_from(s, '\n', 0);
    let i = text::index_from(s, '\n', 0);
    let k = text::index_from(t, '\n', 0);
    if c == '\n' {
        assert(t[0] == '\n');
        assert(k == 0);
        assert(t.take(0) =~= Seq::<char>::empty());
        assert(t.skip(1) =~= s);
        lemma_content_concat(seq![text::strip_cr(t.take(0))], text::lines(s));
        lemma_content_one(text::strip_cr(t.take(0)));
        assert(none + content(text::lines(s)) =~= content(text::lines(s)));
    } else {
        assert(t[0] == c);
        assert forall|j: int| 0 <= j < i + 1 implies #[trigger] t[j] != '\n' by {
            if j > 0 {
                assert(t[j] == s[j - 1]);
            }
        }
        if i < s.len() {
            assert(t[i + 1] == '\n');
            assert(k == i + 1);
            let x = s.take(i);
            let y = t.take(k);
            assert(y =~= seq![c] + x);
            assert(t.skip(k + 1) =~= s.skip(i + 1));
            let rest = text::lines(s.skip(i + 1));
            lemma_content_first(x, rest);
            lemma_content_first(y, rest);
            lemma_content_concat(seq![x], rest);
            lemma_content_concat(seq![y], rest);
            lemma_content_one(x);
            lemma_content_one(y);
            lemma_trim_front(c, x);
        } else {
            if k < t.len() {
                assert(t[k] == '\n');
            }
            assert(text::lines(t) == seq![t]);
            lemma_content_one(t);
            lemma_trim_front(c, s);
            if s.len() == 0 {
                assert(text::lines(s) =~= none);
                assert(text::trim(s).len() == 0);
            } else {
                lemma_content_one(s);
            }
        }
    }
}

/// The lines of two texts with a line feed between them say what those of the two say.
pub proof fn lemma_content_joined(a: Seq<char>, b: Seq<char>)
    ensures
        content(text::lines(a.push('\n') + b)) == content(text::lines(a)) + content(text::lines(b)),
    decreases a.len(),
{
    let s = a.push('\n') + b;
    text::lemma_index_from(s, '\n', 0);
    text::lemma_index_from(a, '\n', 0);
    let i = text::index_from(s, '\n', 0);
    let k = text::index_from(a, '\n', 0);
    assert(s[a.len() as int] == '\n');
    if k < a.len() {
        assert(s[k] == '\n');
        assert forall|j: int| 0 <= j < k implies #[trigger] s[j] != '\n' by {
            assert(a[j] != '\n');
        }
        assert(i == k);
        let r = a.skip(k + 1);
        assert(s.take(i) =~= a.take(k));
        assert(s.skip(i + 1) =~= r.push('\n') + b);
        lemma_content_joined(r, b);
        let first = seq![text::strip_cr(a.take(k))];
        lemma_content_concat(first, text::lines(r.push('\n') + b));
        lemma_content_concat(first, text::lines(r));
        assert(content(first) + (content(text::lines(r)) + content(text::lines(b))) =~= content(first)
            + content(text::lines(r)) + content(text::lines(b)));
    } else {
        assert forall|j: int| 0 <= j < a.len() implies #[trigger] s[j] != '\n' by {
            assert(a[j] != '\n');
        }
        assert(i == a.len());
        assert(s.take(i) =~= a);
        assert(s.skip(i + 1) =~= b);
        lemma_content_first(a, text::lines(b));
        lemma_content_concat(seq![a], text::lines(b));
        lemma_content_one(a);
        if a.len() == 0 {
            assert(text::trim(a).len() == 0);
            assert(text::lines(a) =~= Seq::<Seq<char>>::empty());
        }
    }
}

/// White space after a text does not change what its lines say.
proof fn lemma_content_back(s: Seq<char>, c: char)
    requires
        text::is_space(c),
    ensures
        content(text::lines(s.push(c))) == content(text::lines(s)),
    decreases s.len(),
{
    let none = Seq::<Seq<char>>::empty();
    let t = s.push(c);
    if c == '\n' {
        assert(t =~= s.push('\n') + Seq::<char>::empty());
        lemma_content_joined(s, Seq::empty());
        assert(text::lines(Seq::<char>::empty()) =~= none);
        assert(content(text::lines(s)) + none =~= content(text::lines(s)));
    } else {
        text::lemma_index_from(s, '\n', 0);
        text::lemma_index_from(t, '\n', 0);
        let i = text::index_from(s, '\n', 0);
        let k = text::index_from(t, '\n', 0);
        assert forall|j: int| 0 <= j < i implies #[trigger] t[j] != '\n' by {
            assert(s[j] != '\n');
        }
        if i < s.len() {
            assert(t[i] == '\n');
            assert(k == i);
            assert(t.take(i) =~= s.take(i));
            assert(t.skip(i + 1) =~= s.skip(i + 1).push(c));
            lemma_content_back(s.skip(i + 1), c);
            let first = seq![text::strip_cr(s.take(i))];
            lemma_content_concat(first, text::lines(s.skip(i + 1)));
            lemma_content_concat(first, text::lines(t.skip(i + 1)));
        } else {
            if k < t.len() {
                assert(t[k] == '\n');
                assert(k < s.len() ==> t[k] == s[k]);
            }
            assert(text::lines(t) == seq![t]);
            lemma_content_one(t);
            lemma_trim_back(s, c);
            if s.len() == 0 {
                assert(text::lines(s) =~= none);
                assert(text::trim(s).len() == 0);
            } else {
                lemma_content_one(s);
            }
        }
    }
}

proof fn lemma_content_trim_start(s: Seq<char>)
    ensures
        content(text::lines(text::trim_start(s))) == content(text::lines(s)),
    decreases s.len(),
{
    if s.len() > 0 && text::is_space(s[0]) {
        let r = s.drop_first();
        lemma_content_trim_start(r);
        assert(seq![s[0]] + r =~= s);
        lemma_content_front(s[0], r);
    }
}

proof fn lemma_content_trim_end(s: Seq<char>)
    ensures
        content(text::lines(text::trim_end(s))) == content(text::lines(s)),
    decreases s.len(),
{
    if s.len() > 0 && text::is_space(s.last()) {
        let r = s.drop_last();
        lemma_content_trim_end(r);
        assert(r.push(s.last()) =~= s);
        lemma_content_back(r, s.last());
    }
}

/// The lines of a text say the same without the white space around the text.
pub proof fn law_trim_keeps_content(s: Seq<char>)
    ensures
        content(text::lines(text::trim(s))) == content(text::lines(s)),
{
    lemma_content_trim_start(s);
    lemma_content_trim_end(text::trim_start(s));
}

/// No line holds a line feed.
pub proof fn lemma_lines_have_no_feed(s: Seq<char>)
    ensures
        forall|i: int| 0 <= i < text::lines(s).len() ==> !(#[trigger] text::lines(s)[i]).contains('\n'),
    decreases s.len(),
{
    text::lemma_index_from(s, '\n', 0);
    let k = text::index_from(s, '\n', 0);
    if s.len() > 0 {
        if k < s.len() {
            lemma_lines_have_no_feed(s.skip(k + 1));
            let first = text::strip_cr(s.take(k));
            assert forall|i: int| 0 <= i < text::lines(s).len() implies !(#[trigger] text::lines(s)[i]).contains(
                '\n',
            ) by {
                if i > 0 {
                    assert(text::lines(s)[i] == text::lines(s.skip(k + 1))[i - 1]);
                } else if first.contains('\n') {
                    let j = choose|j: int| 0 <= j < first.len() && first[j] == '\n';
                    assert(s[j] == '\n');
                }
            }
        } else {
            assert(text::lines(s) == seq![s]);
            if s.contains('\n') {
                let j = choose|j: int| 0 <= j < s.len() && s[j] == '\n';
                assert(s[j] != '\n');
            }
        }
    }
}

/// Lines that are put together to a text say in it what they said.
pub proof fn law_joined_keeps_content(rows: Seq<Seq<char>>)
    requires
        forall|i: int| 0 <= i < rows.len() ==> !(#[trigger] rows[i]).contains('\n'),
    ensures
        content(text::lines(text::join(rows, "\n"@))) == content(rows),
    decreases rows.len(),
{
    reveal_strlit("\n");
    assert("\n"@ =~= seq!['\n']);
    if rows.len() == 0 {
        assert(text::lines(text::join(rows, "\n"@)) =~= Seq::<Seq<char>>::empty());
    } else {
        let x = rows.last();
        assert(rows[rows.len() - 1] == x);
        text::lemma_index_from(x, '\n', 0);
        let k = text::index_from(x, '\n', 0);
        if k < x.len() {
            assert(x.contains(x[k]));
        }
        lemma_content_one(x);
        if x.len() == 0 {
            assert(text::trim(x).len() == 0);
            assert(text::lines(x) =~= Seq::<Seq<char>>::empty());
        }
        assert(content(text::lines(x)) == content(seq![x]));
        if rows.len() == 1 {
            assert(rows =~= seq![x]);
        } else {
            let front = rows.drop_last();
            assert forall|i: int| 0 <= i < front.len() implies !(#[trigger] front[i]).contains('\n') by {
                assert(front[i] == rows[i]);
            }
            law_joined_keeps_content(front);
            let a = text::join(front, "\n"@);
            assert(text::join(rows, "\n"@) =~= a.push('\n') + x);
            lemma_content_joined(a, x);
            assert(front + seq![x] =~= rows);
            lemma_content_concat(front, seq![x]);
        }
    }
}

} // verus!
