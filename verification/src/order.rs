//! The order of texts, and stable sorting by keys.

use vstd::prelude::*;

use crate::text::{self, chars_of, str_eq};

verus! {

/// `a` comes before `b` in the order of code points.
pub open spec fn text_less(a: Seq<char>, b: Seq<char>) -> bool
    decreases a.len(),
{
    if b.len() == 0 {
        false
    } else if a.len() == 0 {
        true
    } else if a[0] != b[0] {
        a[0] < b[0]
    } else {
        text_less(a.drop_first(), b.drop_first())
    }
}

/// No text comes before itself.
pub proof fn lemma_text_less_irreflexive(a: Seq<char>)
    ensures
        !text_less(a, a),
    decreases a.len(),
{
    if a.len() > 0 {
        lemma_text_less_irreflexive(a.drop_first());
    }
}

/// The order of texts is transitive.
pub proof fn lemma_text_less_transitive(a: Seq<char>, b: Seq<char>, c: Seq<char>)
    requires
        text_less(a, b),
        text_less(b, c),
    ensures
        text_less(a, c),
    decreases a.len(),
{
    if a.len() > 0 && a[0] == b[0] && b[0] == c[0] {
        lemma_text_less_transitive(a.drop_first(), b.drop_first(), c.drop_first());
    }
}

/// Of two different texts one comes first.
pub proof fn lemma_text_less_total(a: Seq<char>, b: Seq<char>)
    ensures
        a == b || text_less(a, b) || text_less(b, a),
    decreases a.len(),
{
    if a.len() == 0 || b.len() == 0 {
        if a.len() == 0 && b.len() == 0 {
            assert(a =~= b);
        }
    } else if a[0] == b[0] {
        lemma_text_less_total(a.drop_first(), b.drop_first());
        if a.drop_first() == b.drop_first() {
            assert(a =~= seq![a[0]] + a.drop_first());
            assert(b =~= seq![b[0]] + b.drop_first());
        }
    }
}

/// Whether `a` comes before `b`.
pub fn chars_less(a: &[char], b: &[char]) -> (r: bool)
    ensures
        r == text_less(a@, b@),
{
    let mut i: usize = 0;
    assert(a@.skip(0) =~= a@);
    assert(b@.skip(0) =~= b@);
    loop
        invariant
            i <= a@.len(),
            i <= b@.len(),
            text_less(a@.skip(i as int), b@.skip(i as int)) == text_less(a@, b@),
        decreases a@.len() - i,
    {
        let ghost x = a@.skip(i as int);
        let ghost y = b@.skip(i as int);
        if i == b.len() {
            return false;
        }
        if i == a.len() {
            return true;
        }
        assert(x[0] == a@[i as int] && y[0] == b@[i as int]);
        if a[i] != b[i] {
            return a[i] < b[i];
        }
        assert(x.drop_first() =~= a@.skip(i + 1));
        assert(y.drop_first() =~= b@.skip(i + 1));
        i += 1;
    }
}

/// Whether `a` comes before `b`.
pub fn str_less(a: &str, b: &str) -> (r: bool)
    ensures
        r == text_less(a@, b@),
{
    let x = chars_of(a);
    let y = chars_of(b);
    chars_less(&x, &y)
}

/// What things are sorted by: a rank, then texts one after the other, then a number.
pub struct SortKey {
    pub rank: i64,
    pub texts: Vec<String>,
    pub last: i64,
}

/// The value of a sort key.
pub struct KeyView {
    pub rank: int,
    pub texts: Seq<Seq<char>>,
    pub last: int,
}

impl View for SortKey {
    type V = KeyView;

    open spec fn view(&self) -> KeyView {
        KeyView { rank: self.rank as int, texts: text::texts(self.texts@), last: self.last as int }
    }
}

/// The values of a list of sort keys.
pub open spec fn key_views(v: Seq<SortKey>) -> Seq<KeyView> {
    v.map_values(|k: SortKey| k@)
}

/// `a` comes before `b`, text by text.
pub open spec fn texts_less(a: Seq<Seq<char>>, b: Seq<Seq<char>>) -> bool
    decreases a.len(),
{
    if b.len() == 0 {
        false
    } else if a.len() == 0 {
        true
    } else if a[0] != b[0] {
        text_less(a[0], b[0])
    } else {
        texts_less(a.drop_first(), b.drop_first())
    }
}

/// `a` comes before `b`: by rank, then by texts, then by the last number.
pub open spec fn key_less(a: KeyView, b: KeyView) -> bool {
    if a.rank != b.rank {
        a.rank < b.rank
    } else if a.texts != b.texts {
        texts_less(a.texts, b.texts)
    } else {
        a.last < b.last
    }
}

proof fn lemma_texts_less_irreflexive(a: Seq<Seq<char>>)
    ensures
        !texts_less(a, a),
    decreases a.len(),
{
    if a.len() > 0 {
        lemma_texts_less_irreflexive(a.drop_first());
    }
}

proof fn lemma_texts_less_transitive(a: Seq<Seq<char>>, b: Seq<Seq<char>>, c: Seq<Seq<char>>)
    requires
        texts_less(a, b),
        texts_less(b, c),
    ensures
        texts_less(a, c),
    decreases a.len(),
{
    if a.len() > 0 {
        if a[0] == b[0] && b[0] == c[0] {
            lemma_texts_less_transitive(a.drop_first(), b.drop_first(), c.drop_first());
        } else if a[0] != b[0] && b[0] != c[0] {
            lemma_text_less_transitive(a[0], b[0], c[0]);
            if a[0] == c[0] {
                lemma_text_less_irreflexive(a[0]);
            }
        }
    }
}

proof fn lemma_texts_less_total(a: Seq<Seq<char>>, b: Seq<Seq<char>>)
    ensures
        a == b || texts_less(a, b) || texts_less(b, a),
    decreases a.len(),
{
    if a.len() == 0 || b.len() == 0 {
        if a.len() == 0 && b.len() == 0 {
            assert(a =~= b);
        }
    } else if a[0] == b[0] {
        lemma_texts_less_total(a.drop_first(), b.drop_first());
        if a.drop_first() == b.drop_first() {
            assert(a =~= seq![a[0]] + a.drop_first());
            assert(b =~= seq![b[0]] + b.drop_first());
        }
    } else {
        lemma_text_less_total(a[0], b[0]);
    }
}

/// Not coming after is transitive, and of two keys one does not come after the other.
pub proof fn lemma_key_order(a: KeyView, b: KeyView, c: KeyView)
    ensures
        !key_less(b, a) && !key_less(c, b) ==> !key_less(c, a),
        !key_less(a, b) || !key_less(b, a),
        !key_less(a, a),
{
    lemma_texts_less_irreflexive(a.texts);
    lemma_texts_less_total(a.texts, b.texts);
    lemma_texts_less_total(b.texts, c.texts);
    lemma_texts_less_total(a.texts, c.texts);
    if texts_less(a.texts, b.texts) && texts_less(b.texts, a.texts) {
        lemma_texts_less_transitive(a.texts, b.texts, a.texts);
    }
    if texts_less(a.texts, b.texts) && texts_less(b.texts, c.texts) {
        lemma_texts_less_transitive(a.texts, b.texts, c.texts);
        if texts_less(c.texts, a.texts) {
            lemma_texts_less_transitive(a.texts, c.texts, a.texts);
        }
    }
}

/// Two keys of which neither comes before the other are the same.
pub proof fn lemma_key_total(a: KeyView, b: KeyView)
    ensures
        key_less(a, b) || key_less(b, a) || a == b,
{
    lemma_texts_less_total(a.texts, b.texts);
}

/// The position `x` put into an order, behind every position that it does not come
/// before.
pub open spec fn insert_position(ks: Seq<KeyView>, order: Seq<int>, x: int) -> Seq<int>
    decreases order.len(),
{
    if order.len() > 0 && key_less(ks[x], ks[order.last()]) {
        insert_position(ks, order.drop_last(), x).push(order.last())
    } else {
        order.push(x)
    }
}

/// The positions of `ks` in the order of their keys; positions with equal keys stay
/// in the order in which they stand.
pub open spec fn stable_order(ks: Seq<KeyView>) -> Seq<int>
    decreases ks.len(),
{
    if ks.len() == 0 {
        Seq::empty()
    } else {
        insert_position(ks, stable_order(ks.drop_last()), ks.len() - 1)
    }
}

/// `order` lists the positions below `n`, each once.
pub open spec fn is_arrangement(order: Seq<int>, n: nat) -> bool {
    &&& order.len() == n
    &&& forall|i: int| 0 <= i < n ==> 0 <= #[trigger] order[i] < n
    &&& forall|i: int, j: int| 0 <= i < j < n ==> #[trigger] order[i] != #[trigger] order[j]
    &&& forall|x: int| 0 <= x < n ==> order.contains(x)
}

/// `order` goes up by key, and by position among equal keys.
pub open spec fn is_stably_sorted(ks: Seq<KeyView>, order: Seq<int>) -> bool {
    forall|i: int, j: int|
        0 <= i < j < order.len() ==> {
            ||| key_less(ks[#[trigger] order[i]], ks[#[trigger] order[j]])
            ||| (!key_less(ks[order[j]], ks[order[i]]) && order[i] < order[j])
        }
}

proof fn lemma_insert_position(ks: Seq<KeyView>, order: Seq<int>, x: int)
    requires
        0 <= x < ks.len(),
        forall|i: int| 0 <= i < order.len() ==> 0 <= #[trigger] order[i] < x,
        forall|i: int, j: int|
            0 <= i < j < order.len() ==> #[trigger] order[i] != #[trigger] order[j],
        is_stably_sorted(ks, order),
    ensures
        insert_position(ks, order, x).len() == order.len() + 1,
        forall|y: int|
            #![trigger insert_position(ks, order, x).contains(y)]
            #![trigger order.contains(y)]
            insert_position(ks, order, x).contains(y) <==> (y == x || order.contains(y)),
        insert_position(ks, order, x).contains(x),
        forall|i: int|
            0 <= i <= order.len() ==> 0 <= #[trigger] insert_position(ks, order, x)[i] <= x,
        forall|i: int, j: int|
            0 <= i < j <= order.len() ==> #[trigger] insert_position(ks, order, x)[i]
                != #[trigger] insert_position(ks, order, x)[j],
        is_stably_sorted(ks, insert_position(ks, order, x)),
    decreases order.len(),
{
    let r = insert_position(ks, order, x);
    if order.len() > 0 && key_less(ks[x], ks[order.last()]) {
        let p = order.drop_last();
        lemma_insert_position(ks, p, x);
        let q = insert_position(ks, p, x);
        let l = order.last();
        assert(r == q.push(l));
        assert forall|y: int|
            #![trigger r.contains(y)]
            #![trigger order.contains(y)]
            r.contains(y) <==> (y == x || order.contains(y)) by {
            if r.contains(y) {
                let i = choose|i: int| 0 <= i < r.len() && r[i] == y;
                if i < q.len() {
                    assert(q[i] == y);
                    assert(q.contains(y));
                    if y != x {
                        let k = choose|k: int| 0 <= k < p.len() && p[k] == y;
                        assert(order[k] == y);
                    }
                } else {
                    assert(order[order.len() - 1] == y);
                }
            }
            if y == x || order.contains(y) {
                if y == x {
                    let i = choose|i: int| 0 <= i < q.len() && q[i] == y;
                    assert(q.contains(y));
                    assert(r[i] == y);
                } else {
                    let k = choose|k: int| 0 <= k < order.len() && order[k] == y;
                    if k < p.len() {
                        assert(p[k] == y);
                        assert(p.contains(y));
                        assert(q.contains(y));
                        let i = choose|i: int| 0 <= i < q.len() && q[i] == y;
                        assert(r[i] == y);
                    } else {
                        assert(r[r.len() - 1] == y);
                    }
                }
            }
        }
        assert forall|i: int, j: int| 0 <= i < j < r.len() implies {
            &&& #[trigger] r[i] != #[trigger] r[j]
            &&& (key_less(ks[r[i]], ks[r[j]]) || (!key_less(ks[r[j]], ks[r[i]]) && r[i] < r[j]))
        } by {
            if j == r.len() - 1 {
                assert(q.contains(r[i]));
                if r[i] != x {
                    assert(p.contains(r[i]));
                    let k = choose|k: int| 0 <= k < p.len() && p[k] == r[i];
                    assert(order[k] == r[i] && order[order.len() - 1] == l);
                } else {
                    lemma_key_order(ks[x], ks[l], ks[x]);
                }
            } else {
                assert(q[i] == r[i] && q[j] == r[j]);
            }
        }
    } else {
        assert(r == order.push(x));
        assert forall|y: int|
            #![trigger r.contains(y)]
            #![trigger order.contains(y)]
            r.contains(y) <==> (y == x || order.contains(y)) by {
            if order.contains(y) {
                let k = choose|k: int| 0 <= k < order.len() && order[k] == y;
                assert(r[k] == y);
            }
            assert(r[order.len() as int] == x);
        }
        assert forall|i: int, j: int| 0 <= i < j < r.len() implies {
            &&& #[trigger] r[i] != #[trigger] r[j]
            &&& (key_less(ks[r[i]], ks[r[j]]) || (!key_less(ks[r[j]], ks[r[i]]) && r[i] < r[j]))
        } by {
            if j == order.len() {
                let l = order.last();
                if i < order.len() - 1 {
                    assert(order[i] == r[i]);
                    lemma_key_order(ks[r[i]], ks[l], ks[x]);
                    lemma_key_order(ks[l], ks[r[i]], ks[l]);
                }
            } else {
                assert(order[i] == r[i] && order[j] == r[j]);
            }
        }
    }
}

proof fn lemma_insert_position_prefix(ks: Seq<KeyView>, more: Seq<KeyView>, order: Seq<int>, x: int)
    requires
        ks.len() <= more.len(),
        0 <= x < ks.len(),
        forall|i: int| 0 <= i < order.len() ==> 0 <= #[trigger] order[i] < ks.len(),
        forall|i: int| 0 <= i < ks.len() ==> #[trigger] ks[i] == more[i],
    ensures
        insert_position(ks, order, x) == insert_position(more, order, x),
    decreases order.len(),
{
    if order.len() > 0 {
        assert(ks[order.last()] == more[order.last()]);
        assert(ks[x] == more[x]);
        lemma_insert_position_prefix(ks, more, order.drop_last(), x);
    }
}

/// The stable order is the arrangement that goes up by key and keeps equal keys in
/// place.
pub proof fn law_stable_order(ks: Seq<KeyView>)
    ensures
        is_arrangement(stable_order(ks), ks.len()),
        is_stably_sorted(ks, stable_order(ks)),
    decreases ks.len(),
{
    let n = ks.len();
    if n > 0 {
        let p = ks.drop_last();
        law_stable_order(p);
        let o = stable_order(p);
        assert forall|i: int, j: int| 0 <= i < j < o.len() implies {
            ||| key_less(ks[#[trigger] o[i]], ks[#[trigger] o[j]])
            ||| (!key_less(ks[o[j]], ks[o[i]]) && o[i] < o[j])
        } by {
            assert(p[o[i]] == ks[o[i]] && p[o[j]] == ks[o[j]]);
        }
        lemma_insert_position(ks, o, n - 1);
        let r = stable_order(ks);
        assert forall|x: int| 0 <= x < n implies r.contains(x) by {
            if x < n - 1 {
                assert(o.contains(x));
            }
        }
    }
}

/// Whether the texts `a` come before the texts `b`.
fn strings_less(a: &[String], b: &[String]) -> (r: bool)
    ensures
        r == texts_less(text::texts(a@), text::texts(b@)),
{
    let mut i: usize = 0;
    let ghost x0 = text::texts(a@);
    let ghost y0 = text::texts(b@);
    assert(x0.skip(0) =~= x0);
    assert(y0.skip(0) =~= y0);
    loop
        invariant
            i <= a@.len(),
            i <= b@.len(),
            x0 == text::texts(a@),
            y0 == text::texts(b@),
            texts_less(x0.skip(i as int), y0.skip(i as int)) == texts_less(x0, y0),
        decreases a@.len() - i,
    {
        let ghost x = x0.skip(i as int);
        let ghost y = y0.skip(i as int);
        if i == b.len() {
            return false;
        }
        if i == a.len() {
            return true;
        }
        assert(x[0] == a@[i as int]@ && y[0] == b@[i as int]@);
        if !str_eq(a[i].as_str(), b[i].as_str()) {
            return str_less(a[i].as_str(), b[i].as_str());
        }
        assert(x.drop_first() =~= x0.skip(i + 1));
        assert(y.drop_first() =~= y0.skip(i + 1));
        i += 1;
    }
}

fn strings_eq(a: &[String], b: &[String]) -> (r: bool)
    ensures
        r == (text::texts(a@) == text::texts(b@)),
{
    if a.len() != b.len() {
        assert(text::texts(a@).len() != text::texts(b@).len());
        return false;
    }
    for i in 0..a.len()
        invariant
            a@.len() == b@.len(),
            forall|j: int| 0 <= j < i ==> a@[j]@ == b@[j]@,
    {
        if !str_eq(a[i].as_str(), b[i].as_str()) {
            assert(text::texts(a@)[i as int] != text::texts(b@)[i as int]);
            return false;
        }
    }
    assert(text::texts(a@) =~= text::texts(b@));
    true
}

/// Whether one sort key comes before another.
pub fn sort_key_less(a: &SortKey, b: &SortKey) -> (r: bool)
    ensures
        r == key_less(a@, b@),
{
    if a.rank != b.rank {
        a.rank < b.rank
    } else if !strings_eq(&a.texts, &b.texts) {
        strings_less(&a.texts, &b.texts)
    } else {
        a.last < b.last
    }
}

/// The positions as integers.
pub open spec fn positions(v: Seq<usize>) -> Seq<int> {
    v.map_values(|i: usize| i as int)
}

/// The positions of `keys` in their stable order.
pub fn sort_positions(keys: &[SortKey]) -> (r: Vec<usize>)
    ensures
        positions(r@) == stable_order(key_views(keys@)),
        is_arrangement(positions(r@), keys@.len()),
        r@.len() == keys@.len(),
        forall|i: int| 0 <= i < r@.len() ==> (#[trigger] r@[i]) < keys@.len(),
{
    let ghost ks = key_views(keys@);
    let mut order: Vec<usize> = Vec::new();
    assert(positions(order@) =~= stable_order(ks.take(0)));
    for n in 0..keys.len()
        invariant
            ks == key_views(keys@),
            positions(order@) == stable_order(ks.take(n as int)),
            order@.len() == n,
            forall|i: int| 0 <= i < order@.len() ==> (#[trigger] order@[i]) < n,
    {
        let ghost before = order@;
        let mut at: usize = order.len();
        let ghost mut tail: Seq<int> = Seq::empty();
        assert(positions(before).take(at as int) =~= positions(before));
        assert(insert_position(ks, positions(before), n as int) + tail =~= insert_position(
            ks,
            positions(before),
            n as int,
        ));
        while at > 0 && sort_key_less(&keys[n], &keys[order[at - 1]])
            invariant
                ks == key_views(keys@),
                n < keys@.len(),
                order@ == before,
                at <= order@.len(),
                order@.len() == n,
                forall|i: int| 0 <= i < order@.len() ==> (#[trigger] order@[i]) < n,
                tail == positions(before).skip(at as int),
                insert_position(ks, positions(before).take(at as int), n as int) + tail
                    == insert_position(ks, positions(before), n as int),
            decreases at,
        {
            proof {
                let t = positions(before).take(at as int);
                assert(t.last() == order@[at - 1] as int);
                assert(ks[n as int] == keys@[n as int]@);
                assert(ks[t.last()] == keys@[order@[at - 1] as int]@);
                assert(t.drop_last() =~= positions(before).take(at - 1));
                let old_tail = tail;
                tail = seq![t.last()] + tail;
                assert(tail =~= positions(before).skip(at - 1));
                assert(insert_position(ks, t.drop_last(), n as int) + tail =~= insert_position(
                    ks,
                    t.drop_last(),
                    n as int,
                ).push(t.last()) + old_tail);
            }
            at -= 1;
        }
        proof {
            let t = positions(before).take(at as int);
            if at > 0 {
                assert(t.last() == order@[at - 1] as int);
                assert(ks[n as int] == keys@[n as int]@);
                assert(ks[t.last()] == keys@[order@[at - 1] as int]@);
            }
        }
        order.insert(at, n);
        proof {
            assert(positions(order@) =~= positions(before).take(at as int).push(n as int)
                + positions(before).skip(at as int));
            let p = ks.take(n + 1);
            assert(p.drop_last() =~= ks.take(n as int));
            law_stable_order(ks.take(n as int));
            lemma_insert_position_prefix(p, ks, positions(before), n as int);
        }
    }
    proof {
        assert(ks.take(keys@.len() as int) =~= ks);
        law_stable_order(ks);
    }
    order
}

/// The elements of `s` in the given order.
pub open spec fn arranged<T>(s: Seq<T>, order: Seq<int>) -> Seq<T> {
    Seq::new(order.len(), |i: int| s[order[i]])
}

/// The elements of `v` in the given order.
pub fn arrange<T>(v: Vec<T>, order: &Vec<usize>) -> (r: Vec<T>)
    requires
        is_arrangement(positions(order@), v@.len()),
    ensures
        r@ == arranged(v@, positions(order@)),
{
    let ghost all = v@;
    let ghost o = positions(order@);
    let mut slots: Vec<Option<T>> = Vec::new();
    let mut rest = v;
    while rest.len() > 0
        invariant
            rest@ == all.take(rest@.len() as int),
            rest@.len() <= all.len(),
            slots@.len() == all.len() - rest@.len(),
            forall|k: int|
                0 <= k < slots@.len() ==> #[trigger] slots@[k] == Some(all[all.len() - 1 - k]),
        decreases rest@.len(),
    {
        let x = rest.pop();
        slots.push(x);
    }
    let mut out: Vec<T> = Vec::new();
    let n: usize = slots.len();
    for i in 0..order.len()
        invariant
            o == positions(order@),
            is_arrangement(o, all.len()),
            n == all.len(),
            slots@.len() == n,
            order@.len() == n,
            out@ == arranged(all, o).take(i as int),
            forall|k: int|
                i <= k < o.len() ==> slots@[all.len() - 1 - #[trigger] o[k]] == Some(all[o[k]]),
    {
        assert(o[i as int] == order@[i as int] as int);
        let at: usize = n - 1 - order[i];
        let x = slots[at].take();
        proof {
            assert forall|k: int| i + 1 <= k < o.len() implies slots@[all.len() - 1
                - #[trigger] o[k]] == Some(all[o[k]]) by {
                assert(o[i as int] != o[k]);
            }
        }
        if let Some(e) = x {
            out.push(e);
            assert(out@ =~= arranged(all, o).take(i + 1));
        }
    }
    assert(arranged(all, o).take(o.len() as int) =~= arranged(all, o));
    out
}

/// Keys that stand in order stay where they are.
pub proof fn lemma_order_of_ordered(ks: Seq<KeyView>)
    requires
        forall|i: int, j: int|
            0 <= i < j < ks.len() ==> !key_less(#[trigger] ks[j], #[trigger] ks[i]),
    ensures
        stable_order(ks) == Seq::new(ks.len(), |i: int| i),
    decreases ks.len(),
{
    let all = Seq::new(ks.len(), |i: int| i);
    if ks.len() > 0 {
        let p = ks.drop_last();
        assert forall|i: int, j: int| 0 <= i < j < p.len() implies !key_less(
            #[trigger] p[j],
            #[trigger] p[i],
        ) by {
            assert(p[i] == ks[i] && p[j] == ks[j]);
        }
        lemma_order_of_ordered(p);
        let o = stable_order(p);
        if o.len() > 0 {
            assert(o.last() == ks.len() - 2);
            assert(!key_less(ks[ks.len() - 1], ks[ks.len() - 2]));
        }
        assert(stable_order(ks) =~= all);
    } else {
        assert(stable_order(ks) =~= all);
    }
}

} // verus!
