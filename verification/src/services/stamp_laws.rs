//! What becomes of lists of stamps when they are normalized and merged.

use vstd::prelude::*;

use crate::order;
use crate::services::disc_service;
use crate::services::ring_history;
use crate::text;

verus! {

/// No stamp comes before one that stands before it.
spec fn stamps_ascend(items: Seq<Seq<char>>) -> bool {
    forall|i: int, j: int|
        0 <= i < j < items.len() ==> !order::key_less(
            ring_history::stamp_key(#[trigger] items[j]),
            ring_history::stamp_key(#[trigger] items[i]),
        )
}

/// No stamp is there twice.
pub open spec fn stamps_differ(items: Seq<Seq<char>>) -> bool {
    forall|i: int, j: int|
        0 <= i < j < items.len() ==> #[trigger] items[i] != #[trigger] items[j]
}

/// Two lists hold the same stamps.
spec fn same_stamps(a: Seq<Seq<char>>, b: Seq<Seq<char>>) -> bool {
    forall|x: Seq<char>| #[trigger] a.contains(x) <==> b.contains(x)
}

proof fn lemma_equal_stamps(a: Seq<char>, b: Seq<char>)
    requires
        !order::key_less(ring_history::stamp_key(a), ring_history::stamp_key(b)),
        !order::key_less(ring_history::stamp_key(b), ring_history::stamp_key(a)),
    ensures
        a == b,
{
    order::lemma_key_total(ring_history::stamp_key(a), ring_history::stamp_key(b));
    assert(ring_history::stamp_key(a).texts[1] == a && ring_history::stamp_key(b).texts[1] == b);
}

proof fn lemma_sorted_stamps(items: Seq<Seq<char>>)
    ensures
        ring_history::sorted_stamps(items).len() == items.len(),
        stamps_ascend(ring_history::sorted_stamps(items)),
        same_stamps(ring_history::sorted_stamps(items), items),
        stamps_differ(items) ==> stamps_differ(ring_history::sorted_stamps(items)),
{
    let ks = items.map_values(|s: Seq<char>| ring_history::stamp_key(s));
    let o = order::stable_order(ks);
    let r = ring_history::sorted_stamps(items);
    order::law_stable_order(ks);
    assert forall|i: int, j: int| 0 <= i < j < r.len() implies !order::key_less(
        ring_history::stamp_key(#[trigger] r[j]),
        ring_history::stamp_key(#[trigger] r[i]),
    ) by {
        assert(r[i] == items[o[i]] && r[j] == items[o[j]]);
        assert(ks[o[i]] == ring_history::stamp_key(r[i]) && ks[o[j]] == ring_history::stamp_key(r[j]));
        order::lemma_key_order(ks[o[i]], ks[o[j]], ks[o[i]]);
    }
    assert forall|x: Seq<char>| #[trigger] r.contains(x) <==> items.contains(x) by {
        if r.contains(x) {
            let i = choose|i: int| 0 <= i < r.len() && r[i] == x;
            assert(items[o[i]] == x);
        }
        if items.contains(x) {
            let k = choose|k: int| 0 <= k < items.len() && items[k] == x;
            assert(o.contains(k));
            let i = choose|i: int| 0 <= i < o.len() && o[i] == k;
            assert(r[i] == x);
        }
    }
    if stamps_differ(items) {
        assert forall|i: int, j: int| 0 <= i < j < r.len() implies #[trigger] r[i]
            != #[trigger] r[j] by {
            assert(r[i] == items[o[i]] && r[j] == items[o[j]]);
            assert(o[i] != o[j]);
            if o[i] < o[j] {
                assert(items[o[i]] != items[o[j]]);
            } else {
                assert(items[o[j]] != items[o[i]]);
            }
        }
    }
}

proof fn lemma_sorted_stamps_stay(items: Seq<Seq<char>>)
    requires
        stamps_ascend(items),
    ensures
        ring_history::sorted_stamps(items) == items,
{
    let ks = items.map_values(|s: Seq<char>| ring_history::stamp_key(s));
    assert forall|i: int, j: int| 0 <= i < j < ks.len() implies !order::key_less(
        #[trigger] ks[j],
        #[trigger] ks[i],
    ) by {
        assert(ks[i] == ring_history::stamp_key(items[i]) && ks[j] == ring_history::stamp_key(items[j]));
    }
    order::lemma_order_of_ordered(ks);
    assert(ring_history::sorted_stamps(items) =~= items);
}

proof fn lemma_dedup_stamps(items: Seq<Seq<char>>)
    requires
        stamps_ascend(items),
    ensures
        same_stamps(ring_history::dedup(items), items),
        stamps_differ(ring_history::dedup(items)),
        stamps_ascend(ring_history::dedup(items)),
    decreases items.len(),
{
    let r = ring_history::dedup(items);
    if items.len() > 0 {
        let p = items.drop_last();
        let before = ring_history::dedup(p);
        let last = items[items.len() - 1];
        assert forall|i: int, j: int| 0 <= i < j < p.len() implies !order::key_less(
            ring_history::stamp_key(#[trigger] p[j]),
            ring_history::stamp_key(#[trigger] p[i]),
        ) by {
            assert(p[i] == items[i] && p[j] == items[j]);
        }
        lemma_dedup_stamps(p);
        assert forall|i: int| 0 <= i < before.len() implies !order::key_less(
            ring_history::stamp_key(last),
            ring_history::stamp_key(#[trigger] before[i]),
        ) by {
            assert(before.contains(before[i]));
            assert(p.contains(before[i]));
            let k = choose|k: int| 0 <= k < p.len() && p[k] == before[i];
            assert(items[k] == before[i]);
        }
        assert forall|x: Seq<char>| #[trigger] r.contains(x) <==> items.contains(x) by {
            if r.contains(x) {
                let i = choose|i: int| 0 <= i < r.len() && r[i] == x;
                if i < before.len() {
                    assert(before[i] == x);
                    assert(before.contains(x));
                    assert(p.contains(x));
                    let k = choose|k: int| 0 <= k < p.len() && p[k] == x;
                    assert(items[k] == x);
                } else {
                    assert(items[items.len() - 1] == x);
                }
            }
            if items.contains(x) {
                let k = choose|k: int| 0 <= k < items.len() && items[k] == x;
                if k < p.len() {
                    assert(p[k] == x);
                    assert(p.contains(x));
                    assert(before.contains(x));
                    let i = choose|i: int| 0 <= i < before.len() && before[i] == x;
                    assert(r[i] == x);
                } else {
                    assert(r[r.len() - 1] == x);
                }
            }
        }
        if r.len() > before.len() {
            assert forall|i: int| 0 <= i < before.len() implies #[trigger] before[i] != last by {
                if before[i] == last {
                    let m = before.len() - 1;
                    if i < m {
                        assert(!order::key_less(ring_history::stamp_key(before[m]), ring_history::stamp_key(before[i])));
                        lemma_equal_stamps(before[m], last);
                    }
                }
            }
            assert forall|i: int, j: int| 0 <= i < j < r.len() implies #[trigger] r[i]
                != #[trigger] r[j] by {
                if j < before.len() {
                    assert(before[i] != before[j]);
                } else {
                    assert(before[i] != last);
                }
            }
            assert forall|i: int, j: int| 0 <= i < j < r.len() implies !order::key_less(
                ring_history::stamp_key(#[trigger] r[j]),
                ring_history::stamp_key(#[trigger] r[i]),
            ) by {
                if j < before.len() {
                    assert(r[i] == before[i] && r[j] == before[j]);
                } else {
                    assert(r[i] == before[i]);
                }
            }
        }
    }
}

proof fn lemma_dedup_stays(items: Seq<Seq<char>>)
    requires
        stamps_differ(items),
    ensures
        ring_history::dedup(items) == items,
    decreases items.len(),
{
    if items.len() > 0 {
        let p = items.drop_last();
        assert forall|i: int, j: int| 0 <= i < j < p.len() implies #[trigger] p[i]
            != #[trigger] p[j] by {
            assert(p[i] == items[i] && p[j] == items[j]);
        }
        lemma_dedup_stays(p);
        if p.len() > 0 {
            assert(items[items.len() - 2] != items[items.len() - 1]);
        }
        assert(p.push(items.last()) =~= items);
    } else {
        assert(ring_history::dedup(items) =~= items);
    }
}

proof fn lemma_union(values: Seq<Seq<char>>, incoming: Seq<Seq<char>>)
    ensures
        forall|x: Seq<char>| #[trigger]
            ring_history::union_texts(values, incoming).contains(x) <==> (values.contains(x)
                || incoming.contains(x)),
        stamps_differ(values) ==> stamps_differ(ring_history::union_texts(values, incoming)),
        (forall|i: int| 0 <= i < incoming.len() ==> values.contains(#[trigger] incoming[i]))
            ==> ring_history::union_texts(values, incoming) == values,
    decreases incoming.len(),
{
    if incoming.len() > 0 {
        let p = incoming.drop_last();
        let last = incoming[incoming.len() - 1];
        let before = ring_history::union_texts(values, p);
        let r = ring_history::union_texts(values, incoming);
        lemma_union(values, p);
        assert forall|x: Seq<char>| #[trigger] r.contains(x) <==> (values.contains(x)
            || incoming.contains(x)) by {
            if r.contains(x) {
                let i = choose|i: int| 0 <= i < r.len() && r[i] == x;
                if i < before.len() {
                    assert(before[i] == x);
                    assert(before.contains(x));
                    if p.contains(x) {
                        let k = choose|k: int| 0 <= k < p.len() && p[k] == x;
                        assert(incoming[k] == x);
                    }
                } else {
                    assert(incoming[incoming.len() - 1] == x);
                }
            }
            if values.contains(x) || incoming.contains(x) {
                if incoming.contains(x) && !values.contains(x) {
                    let k = choose|k: int| 0 <= k < incoming.len() && incoming[k] == x;
                    if k < p.len() {
                        assert(p[k] == x);
                        assert(p.contains(x));
                    }
                }
                if before.contains(x) {
                    let i = choose|i: int| 0 <= i < before.len() && before[i] == x;
                    assert(r[i] == x);
                } else {
                    assert(x == last);
                    assert(r[r.len() - 1] == x);
                }
            }
        }
        if stamps_differ(values) && r.len() > before.len() {
            assert forall|i: int, j: int| 0 <= i < j < r.len() implies #[trigger] r[i]
                != #[trigger] r[j] by {
                if j < before.len() {
                    assert(before[i] != before[j]);
                } else {
                    assert(before.contains(before[i]));
                }
            }
        }
        if forall|i: int| 0 <= i < incoming.len() ==> values.contains(#[trigger] incoming[i]) {
            assert forall|i: int| 0 <= i < p.len() implies values.contains(#[trigger] p[i]) by {
                assert(p[i] == incoming[i]);
            }
            assert(values.contains(incoming[incoming.len() - 1]));
        }
    }
}

/// The stamps of a text are items, in order, each once.
proof fn lemma_csv_ids(s: Seq<char>)
    ensures
        stamps_ascend(ring_history::csv_ids(s)),
        stamps_differ(ring_history::csv_ids(s)),
        forall|i: int| 0 <= i < ring_history::csv_ids(s).len() ==> disc_service::is_item(#[trigger] ring_history::csv_ids(s)[i]),
{
    let items = disc_service::csv_items(s);
    let sorted = ring_history::sorted_stamps(items);
    disc_service::lemma_csv_items(s);
    lemma_sorted_stamps(items);
    lemma_dedup_stamps(sorted);
    let r = ring_history::csv_ids(s);
    assert forall|i: int| 0 <= i < r.len() implies disc_service::is_item(#[trigger] r[i]) by {
        assert(r.contains(r[i]));
        assert(sorted.contains(r[i]));
        assert(items.contains(r[i]));
        let m = choose|m: int| 0 <= m < items.len() && items[m] == r[i];
        assert(disc_service::is_item(items[m]));
    }
}

/// Stamps that stand in order, each once, are read back from their text.
proof fn lemma_stamps_read_back(items: Seq<Seq<char>>)
    requires
        stamps_ascend(items),
        stamps_differ(items),
        forall|i: int| 0 <= i < items.len() ==> disc_service::is_item(#[trigger] items[i]),
    ensures
        ring_history::csv_ids(text::join(items, ", "@)) == items,
{
    disc_service::lemma_joined_items(items);
    lemma_sorted_stamps_stay(items);
    lemma_dedup_stays(items);
}

/// A list of stamps that was normalized once stays as it is.
pub proof fn law_stamps_normalize_once(s: Seq<char>)
    ensures
        ring_history::csv_ids(text::join(ring_history::csv_ids(s), ", "@)) == ring_history::csv_ids(s),
        stamps_differ(ring_history::csv_ids(s)),
{
    lemma_csv_ids(s);
    lemma_stamps_read_back(ring_history::csv_ids(s));
}

/// Merged stamps are those of the one list and of the other, each once, and are read back
/// from their text.
pub proof fn law_merged_stamps(a: Seq<char>, b: Seq<char>)
    ensures
        stamps_differ(ring_history::csv_ids(ring_history::merged_csv(a, b))),
        forall|x: Seq<char>| #[trigger]
            ring_history::csv_ids(ring_history::merged_csv(a, b)).contains(x) <==> (ring_history::csv_ids(a).contains(x) || ring_history::csv_ids(
                b,
            ).contains(x)),
        text::join(ring_history::csv_ids(ring_history::merged_csv(a, b)), ", "@) == ring_history::merged_csv(a, b),
{
    let u = ring_history::union_texts(ring_history::csv_ids(a), ring_history::csv_ids(b));
    let r = ring_history::sorted_stamps(u);
    lemma_csv_ids(a);
    lemma_csv_ids(b);
    lemma_union(ring_history::csv_ids(a), ring_history::csv_ids(b));
    lemma_sorted_stamps(u);
    assert forall|i: int| 0 <= i < r.len() implies disc_service::is_item(#[trigger] r[i]) by {
        assert(r.contains(r[i]));
        assert(u.contains(r[i]));
        if ring_history::csv_ids(a).contains(r[i]) {
            let k = choose|k: int| 0 <= k < ring_history::csv_ids(a).len() && ring_history::csv_ids(a)[k] == r[i];
            assert(disc_service::is_item(ring_history::csv_ids(a)[k]));
        } else {
            let k = choose|k: int| 0 <= k < ring_history::csv_ids(b).len() && ring_history::csv_ids(b)[k] == r[i];
            assert(disc_service::is_item(ring_history::csv_ids(b)[k]));
        }
    }
    lemma_stamps_read_back(r);
    assert forall|x: Seq<char>| #[trigger] ring_history::csv_ids(ring_history::merged_csv(a, b)).contains(x) <==> (ring_history::csv_ids(
        a,
    ).contains(x) || ring_history::csv_ids(b).contains(x)) by {
        assert(r.contains(x) <==> u.contains(x));
        assert(u.contains(x) <==> (ring_history::csv_ids(a).contains(x) || ring_history::csv_ids(b).contains(x)));
    }
}

/// Merging the same stamps again changes nothing.
pub proof fn law_merging_again_changes_nothing(a: Seq<char>, b: Seq<char>)
    ensures
        ring_history::merged_csv(ring_history::merged_csv(a, b), b) == ring_history::merged_csv(a, b),
{
    law_merged_stamps(a, b);
    let m = ring_history::csv_ids(ring_history::merged_csv(a, b));
    lemma_csv_ids(ring_history::merged_csv(a, b));
    let bs = ring_history::csv_ids(b);
    assert forall|i: int| 0 <= i < bs.len() implies m.contains(#[trigger] bs[i]) by {
        assert(bs.contains(bs[i]));
    }
    lemma_union(m, bs);
    lemma_sorted_stamps_stay(m);
}

proof fn lemma_tail(a: Seq<Seq<char>>)
    requires
        a.len() > 0,
        stamps_ascend(a),
        stamps_differ(a),
    ensures
        stamps_ascend(a.drop_first()),
        stamps_differ(a.drop_first()),
        forall|x: Seq<char>| #[trigger]
            a.drop_first().contains(x) <==> (a.contains(x) && x != a[0]),
{
    let t = a.drop_first();
    assert forall|i: int, j: int| 0 <= i < j < t.len() implies !order::key_less(
        ring_history::stamp_key(#[trigger] t[j]),
        ring_history::stamp_key(#[trigger] t[i]),
    ) by {
        assert(t[i] == a[i + 1] && t[j] == a[j + 1]);
    }
    assert forall|i: int, j: int| 0 <= i < j < t.len() implies #[trigger] t[i] != #[trigger] t[j] by {
        assert(t[i] == a[i + 1] && t[j] == a[j + 1]);
    }
    assert forall|x: Seq<char>| #[trigger] t.contains(x) <==> (a.contains(x) && x != a[0]) by {
        if t.contains(x) {
            let k = choose|k: int| 0 <= k < t.len() && t[k] == x;
            assert(a[k + 1] == x);
            assert(a[0] != a[k + 1]);
        }
        if a.contains(x) && x != a[0] {
            let k = choose|k: int| 0 <= k < a.len() && a[k] == x;
            assert(t[k - 1] == x);
        }
    }
}

/// Stamps in order, each once, are settled by which they are.
proof fn lemma_settled(a: Seq<Seq<char>>, b: Seq<Seq<char>>)
    requires
        stamps_ascend(a),
        stamps_differ(a),
        stamps_ascend(b),
        stamps_differ(b),
        same_stamps(a, b),
    ensures
        a == b,
    decreases a.len(),
{
    if a.len() == 0 {
        if b.len() > 0 {
            assert(b.contains(b[0]));
            assert(a.contains(b[0]));
        }
        assert(a =~= b);
    } else {
        assert(a.contains(a[0]));
        assert(b.contains(a[0]));
        let k = choose|k: int| 0 <= k < b.len() && b[k] == a[0];
        assert(b.contains(b[0]));
        assert(a.contains(b[0]));
        let m = choose|m: int| 0 <= m < a.len() && a[m] == b[0];
        if k > 0 && m > 0 {
            assert(!order::key_less(ring_history::stamp_key(b[k]), ring_history::stamp_key(b[0])));
            assert(!order::key_less(ring_history::stamp_key(a[m]), ring_history::stamp_key(a[0])));
            lemma_equal_stamps(a[0], b[0]);
        }
        assert(a[0] == b[0]);
        lemma_tail(a);
        lemma_tail(b);
        let x = a.drop_first();
        let y = b.drop_first();
        assert forall|s: Seq<char>| #[trigger] x.contains(s) <==> y.contains(s) by {
            assert(a.contains(s) <==> b.contains(s));
        }
        lemma_settled(x, y);
        assert(a =~= seq![a[0]] + x);
        assert(b =~= seq![b[0]] + y);
    }
}

proof fn lemma_merged_list(a: Seq<char>, b: Seq<char>)
    ensures
        ({
            let r = ring_history::sorted_stamps(ring_history::union_texts(ring_history::csv_ids(a), ring_history::csv_ids(b)));
            &&& stamps_ascend(r)
            &&& stamps_differ(r)
            &&& forall|x: Seq<char>| #[trigger]
                r.contains(x) <==> (ring_history::csv_ids(a).contains(x) || ring_history::csv_ids(b).contains(x))
        }),
{
    let u = ring_history::union_texts(ring_history::csv_ids(a), ring_history::csv_ids(b));
    lemma_csv_ids(a);
    lemma_union(ring_history::csv_ids(a), ring_history::csv_ids(b));
    lemma_sorted_stamps(u);
    let r = ring_history::sorted_stamps(u);
    assert forall|x: Seq<char>| #[trigger] r.contains(x) <==> (ring_history::csv_ids(a).contains(x) || ring_history::csv_ids(
        b,
    ).contains(x)) by {
        assert(r.contains(x) <==> u.contains(x));
        assert(u.contains(x) <==> (ring_history::csv_ids(a).contains(x) || ring_history::csv_ids(b).contains(x)));
    }
}

/// It does not matter which of two lists of stamps is merged into which.
pub proof fn law_merging_goes_both_ways(a: Seq<char>, b: Seq<char>)
    ensures
        ring_history::merged_csv(a, b) == ring_history::merged_csv(b, a),
{
    lemma_merged_list(a, b);
    lemma_merged_list(b, a);
    let x = ring_history::sorted_stamps(ring_history::union_texts(ring_history::csv_ids(a), ring_history::csv_ids(b)));
    let y = ring_history::sorted_stamps(ring_history::union_texts(ring_history::csv_ids(b), ring_history::csv_ids(a)));
    assert forall|s: Seq<char>| #[trigger] x.contains(s) <==> y.contains(s) by {}
    lemma_settled(x, y);
}

proof fn lemma_split_concat(a: Seq<char>, b: Seq<char>, c: char)
    ensures
        text::split(a.push(c) + b, c) == text::split(a, c) + text::split(b, c),
    decreases a.len(),
{
    let s = a.push(c) + b;
    text::lemma_index_from(s, c, 0);
    text::lemma_index_from(a, c, 0);
    let i = text::index_from(s, c, 0);
    let k = text::index_from(a, c, 0);
    assert(s[a.len() as int] == c);
    assert forall|j: int| 0 <= j < k implies #[trigger] s[j] != c by {
        assert(a[j] != c);
    }
    if k < a.len() {
        assert(s[k] == c);
        assert(i == k);
        assert(s.take(i) =~= a.take(k));
        assert(s.skip(i + 1) =~= a.skip(k + 1).push(c) + b);
        lemma_split_concat(a.skip(k + 1), b, c);
        assert(text::split(s, c) =~= text::split(a, c) + text::split(b, c));
    } else {
        assert(i == a.len());
        assert(s.take(i) =~= a);
        assert(s.skip(i + 1) =~= b);
        assert(text::split(s, c) =~= text::split(a, c) + text::split(b, c));
    }
}

proof fn lemma_filled_concat(a: Seq<Seq<char>>, b: Seq<Seq<char>>)
    ensures
        disc_service::filled_parts(a + b) == disc_service::filled_parts(a) + disc_service::filled_parts(b),
    decreases b.len(),
{
    if b.len() == 0 {
        assert(a + b =~= a);
        assert(disc_service::filled_parts(a + b) =~= disc_service::filled_parts(a) + disc_service::filled_parts(b));
    } else {
        assert((a + b).drop_last() =~= a + b.drop_last());
        lemma_filled_concat(a, b.drop_last());
        assert(disc_service::filled_parts(a + b) =~= disc_service::filled_parts(a) + disc_service::filled_parts(b));
    }
}

proof fn lemma_ids_of_items(s: Seq<char>)
    ensures
        forall|x: Seq<char>| #[trigger] ring_history::csv_ids(s).contains(x) <==> disc_service::csv_items(s).contains(x),
{
    let items = disc_service::csv_items(s);
    let sorted = ring_history::sorted_stamps(items);
    lemma_sorted_stamps(items);
    lemma_dedup_stamps(sorted);
    assert forall|x: Seq<char>| #[trigger] ring_history::csv_ids(s).contains(x) <==> items.contains(x) by {
        assert(ring_history::dedup(sorted).contains(x) <==> sorted.contains(x));
        assert(sorted.contains(x) <==> items.contains(x));
    }
}

/// Merging two lists of stamps is normalizing them with a comma between them.
pub proof fn law_merging_is_normalizing_both(a: Seq<char>, b: Seq<char>)
    ensures
        ring_history::merged_csv(a, b) == text::join(ring_history::csv_ids(a + ","@ + b), ", "@),
{
    reveal_strlit(",");
    let s = a + ","@ + b;
    assert(s =~= a.push(',') + b);
    lemma_split_concat(a, b, ',');
    lemma_filled_concat(text::split(a, ','), text::split(b, ','));
    lemma_merged_list(a, b);
    lemma_csv_ids(s);
    lemma_ids_of_items(a);
    lemma_ids_of_items(b);
    lemma_ids_of_items(s);
    let r = ring_history::sorted_stamps(ring_history::union_texts(ring_history::csv_ids(a), ring_history::csv_ids(b)));
    let v = disc_service::csv_items(a);
    let w = disc_service::csv_items(b);
    assert forall|x: Seq<char>| #[trigger] r.contains(x) <==> ring_history::csv_ids(s).contains(x) by {
        assert(ring_history::csv_ids(s).contains(x) <==> (v + w).contains(x));
        if v.contains(x) {
            let k = choose|k: int| 0 <= k < v.len() && v[k] == x;
            assert((v + w)[k] == x);
        }
        if w.contains(x) {
            let k = choose|k: int| 0 <= k < w.len() && w[k] == x;
            assert((v + w)[v.len() + k] == x);
        }
        if (v + w).contains(x) {
            let k = choose|k: int| 0 <= k < (v + w).len() && (v + w)[k] == x;
            if k < v.len() {
                assert(v[k] == x);
            } else {
                assert(w[k - v.len()] == x);
            }
        }
        assert(ring_history::csv_ids(a).contains(x) <==> v.contains(x));
        assert(ring_history::csv_ids(b).contains(x) <==> w.contains(x));
    }
    lemma_settled(r, ring_history::csv_ids(s));
}

} // verus!
