//! Spaces in titles.

use vstd::prelude::*;



verus! {

/// A text with one space for each run of spaces.
pub open spec fn single_spaced(s: Seq<char>) -> Seq<char>
    decreases s.len(),
{
    if s.len() == 0 {
        s
    } else if s.len() >= 2 && s.last() == ' ' && s[s.len() - 2] == ' ' {
        single_spaced(s.drop_last())
    } else {
        single_spaced(s.drop_last()).push(s.last())
    }
}

/// A text with one space for each run of spaces.
pub fn collapse_spaces(s: &[char]) -> (r: Vec<char>)
    ensures
        r@ == single_spaced(s@),
{
    let mut out: Vec<char> = Vec::new();
    assert(s@.take(0) =~= out@);
    for i in 0..s.len()
        invariant
            out@ == single_spaced(s@.take(i as int)),
    {
        assert(s@.take(i + 1).drop_last() =~= s@.take(i as int));
        if !(i >= 1 && s[i] == ' ' && s[i - 1] == ' ') {
            out.push(s[i]);
        }
    }
    assert(s@.take(s@.len() as int) =~= s@);
    out
}

/// A text without spaces at its end.
pub open spec fn drop_spaces(s: Seq<char>) -> Seq<char>
    decreases s.len(),
{
    if s.len() > 0 && s.last() == ' ' {
        drop_spaces(s.drop_last())
    } else {
        s
    }
}

/// Take the spaces at the end of a text away.
pub fn pop_spaces(out: &mut Vec<char>)
    ensures
        final(out)@ == drop_spaces(old(out)@),
{
    let ghost start = out@;
    while out.len() > 0 && out[out.len() - 1] == ' '
        invariant
            drop_spaces(out@) == drop_spaces(start),
        decreases out@.len(),
    {
        let ghost before = out@;
        out.pop();
        assert(out@ =~= before.drop_last());
    }
}

proof fn lemma_last_of_single_spaced(s: Seq<char>)
    requires
        s.len() > 0,
    ensures
        single_spaced(s).len() > 0,
        single_spaced(s).last() == s.last(),
    decreases s.len(),
{
    if s.len() >= 2 && s.last() == ' ' && s[s.len() - 2] == ' ' {
        lemma_last_of_single_spaced(s.drop_last());
    }
}

/// No two spaces follow each other in a text with one space for each run.
pub proof fn law_no_space_is_doubled(s: Seq<char>, i: int)
    requires
        0 <= i < single_spaced(s).len() - 1,
    ensures
        !(single_spaced(s)[i] == ' ' && single_spaced(s)[i + 1] == ' '),
    decreases s.len(),
{
    if s.len() > 0 {
        let d = s.drop_last();
        if i < single_spaced(d).len() - 1 {
            law_no_space_is_doubled(d, i);
        } else if d.len() > 0 {
            lemma_last_of_single_spaced(d);
        }
    }
}

/// Texts that differ in runs of spaces only are spaced alike: spacing once more changes
/// nothing.
pub proof fn law_spacing_is_stable(s: Seq<char>)
    ensures
        single_spaced(single_spaced(s)) == single_spaced(s),
    decreases s.len(),
{
    if s.len() > 0 {
        let d = s.drop_last();
        law_spacing_is_stable(d);
        if d.len() > 0 {
            lemma_last_of_single_spaced(d);
        }
        if !(s.len() >= 2 && s.last() == ' ' && s[s.len() - 2] == ' ') {
            let r = single_spaced(d).push(s.last());
            assert(r.drop_last() =~= single_spaced(d));
            if r.len() >= 2 {
                assert(r[r.len() - 2] == d.last());
            }
        }
    }
}

} // verus!
