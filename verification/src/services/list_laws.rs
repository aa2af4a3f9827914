//! What lists of items, of editions and of pressings hold, and in which order.

use vstd::prelude::*;

use crate::json::{self, JsonView};
use crate::models::RingEntryView;
use crate::order;
use crate::services::disc_service::{self, EditionUsageCount};
use crate::text;

verus! {

// ── Lists in one text ──────────────────────────────────────────────────────

/// The items of a list are its parts without the space around them, but for the blank ones.
pub proof fn law_items_are_the_parts(parts: Seq<Seq<char>>, x: Seq<char>)
    ensures
        disc_service::filled_parts(parts).contains(x) <==> x.len() > 0 && exists|i: int|
            0 <= i < parts.len() && text::trim(#[trigger] parts[i]) == x,
    decreases parts.len(),
{
    if parts.len() > 0 {
        let front = parts.drop_last();
        let before = disc_service::filled_parts(front);
        let all = disc_service::filled_parts(parts);
        law_items_are_the_parts(front, x);
        assert(parts[parts.len() - 1] == parts.last());
        if before.contains(x) {
            let k = choose|k: int| 0 <= k < before.len() && before[k] == x;
            assert(all[k] == x);
            let i = choose|i: int| 0 <= i < front.len() && text::trim(#[trigger] front[i]) == x;
            assert(parts[i] == front[i]);
        }
        if text::trim(parts.last()).len() > 0 {
            assert(all.last() == text::trim(parts.last()));
        }
        if all.contains(x) {
            let k = choose|k: int| 0 <= k < all.len() && all[k] == x;
            if k < before.len() {
                assert(before[k] == x);
            }
        }
        if exists|i: int| 0 <= i < parts.len() && text::trim(#[trigger] parts[i]) == x {
            let i = choose|i: int| 0 <= i < parts.len() && text::trim(#[trigger] parts[i]) == x;
            if i < front.len() {
                assert(front[i] == parts[i]);
            }
        }
    }
}

/// A text is among others, in whatever case.
pub open spec fn is_among(v: Seq<Seq<char>>, x: Seq<char>) -> bool {
    exists|j: int| 0 <= j < v.len() && text::lower_text(#[trigger] v[j]) == text::lower_text(x)
}

proof fn lemma_dedup(items: Seq<Seq<char>>)
    ensures
        ({
            let r = disc_service::dedup_ignoring_case(items);
            &&& items.len() > 0 ==> r.len() > 0 && text::lower_text(r.last()) == text::lower_text(items.last())
            &&& forall|i: int| 0 <= i < items.len() ==> is_among(r, #[trigger] items[i])
            &&& forall|j: int|
                0 <= j < r.len() ==> items.contains(#[trigger] r[j])
        }),
    decreases items.len(),
{
    if items.len() > 0 {
        let front = items.drop_last();
        lemma_dedup(front);
        let before = disc_service::dedup_ignoring_case(front);
        let r = disc_service::dedup_ignoring_case(items);
        assert(items[items.len() - 1] == items.last());
        assert forall|i: int| 0 <= i < items.len() implies is_among(r, #[trigger] items[i]) by {
            if i < front.len() {
                assert(front[i] == items[i]);
                let j = choose|j: int|
                    0 <= j < before.len() && text::lower_text(#[trigger] before[j]) == text::lower_text(
                        front[i],
                    );
                assert(r[j] == before[j]);
            } else {
                assert(r[r.len() - 1] == r.last());
            }
        }
        assert forall|j: int| 0 <= j < r.len() implies items.contains(#[trigger] r[j]) by {
            if j < before.len() {
                assert(r[j] == before[j]);
                assert(front.contains(before[j]));
                let i = choose|i: int| 0 <= i < front.len() && front[i] == before[j];
                assert(items[i] == r[j]);
            }
        }
    }
}

/// A list that is put in order holds every item of the text, in whatever case, and no others.
pub proof fn law_ordered_lists_keep_their_items(s: Seq<char>, x: Seq<char>)
    ensures
        disc_service::csv_items(s).contains(x) ==> is_among(disc_service::csv_sorted(s), x),
        disc_service::csv_sorted(s).contains(x) ==> disc_service::csv_items(s).contains(x),
{
    let items = disc_service::csv_items(s);
    let ks = items.map_values(|s: Seq<char>| disc_service::small_key(s));
    order::law_stable_order(ks);
    let o = order::stable_order(ks);
    let sorted = disc_service::sorted_by_small(items);
    let r = disc_service::csv_sorted(s);
    lemma_dedup(sorted);
    if items.contains(x) {
        let i = choose|i: int| 0 <= i < items.len() && items[i] == x;
        assert(o.contains(i));
        let k = choose|k: int| 0 <= k < o.len() && o[k] == i;
        assert(sorted[k] == x);
        assert(is_among(r, sorted[k]));
    }
    if r.contains(x) {
        let j = choose|j: int| 0 <= j < r.len() && r[j] == x;
        assert(sorted.contains(r[j]));
        let k = choose|k: int| 0 <= k < sorted.len() && sorted[k] == r[j];
        assert(items[o[k]] == x);
    }
}

// ── The order of pressings ─────────────────────────────────────────────────

proof fn lemma_texts_prefix(
    p: Seq<Seq<char>>,
    x: Seq<char>,
    y: Seq<char>,
    s: Seq<Seq<char>>,
    t: Seq<Seq<char>>,
)
    requires
        order::text_less(x, y),
    ensures
        order::texts_less(p + seq![x] + s, p + seq![y] + t),
        p + seq![x] + s != p + seq![y] + t,
    decreases p.len(),
{
    order::lemma_text_less_irreflexive(x);
    let a = p + seq![x] + s;
    let b = p + seq![y] + t;
    let n = p.len() as int;
    assert(a[n] == x && b[n] == y);
    if p.len() == 0 {
        assert(a[0] == x && b[0] == y);
    } else {
        lemma_texts_prefix(p.drop_first(), x, y, s, t);
        assert(a.drop_first() =~= p.drop_first() + seq![x] + s);
        assert(b.drop_first() =~= p.drop_first() + seq![y] + t);
        assert(a[0] == p[0] && b[0] == p[0]);
    }
}

/// Pressings with the same masterings are in the order of their offsets, then of their extra
/// offsets, then of where their samples start, then of their comments, then of their ids.
pub proof fn law_order_of_pressings(a: JsonView, b: JsonView, n: nat)
    requires
        disc_service::layer_key(json::list_or_empty(json::field(a, "layers"@)), n) == disc_service::layer_key(
            json::list_or_empty(json::field(b, "layers"@)),
            n,
        ),
    ensures
        ({
            let x = |k: Seq<char>| disc_service::norm_field(a, k);
            let y = |k: Seq<char>| disc_service::norm_field(b, k);
            let o = "offset_value"@;
            let e = "offset_extra_value"@;
            let s = "sample_start"@;
            let c = "comment"@;
            let less = order::key_less(disc_service::ring_key(a, n), disc_service::ring_key(b, n));
            &&& order::text_less(x(o), y(o)) ==> less
            &&& x(o) == y(o) && order::text_less(x(e), y(e)) ==> less
            &&& x(o) == y(o) && x(e) == y(e) && order::text_less(x(s), y(s)) ==> less
            &&& x(o) == y(o) && x(e) == y(e) && x(s) == y(s) && order::text_less(x(c), y(c)) ==> less
            &&& x(o) == y(o) && x(e) == y(e) && x(s) == y(s) && x(c) == y(c) ==> (less <==> disc_service::ring_key(
                a,
                n,
            ).last < disc_service::ring_key(b, n).last)
        }),
{
    let p = disc_service::layer_key(json::list_or_empty(json::field(a, "layers"@)), n);
    let ao = disc_service::norm_field(a, "offset_value"@);
    let ae = disc_service::norm_field(a, "offset_extra_value"@);
    let az = disc_service::norm_field(a, "sample_start"@);
    let ac = disc_service::norm_field(a, "comment"@);
    let bo = disc_service::norm_field(b, "offset_value"@);
    let be = disc_service::norm_field(b, "offset_extra_value"@);
    let bz = disc_service::norm_field(b, "sample_start"@);
    let bc = disc_service::norm_field(b, "comment"@);
    let none = Seq::<Seq<char>>::empty();
    let ta = disc_service::ring_key(a, n).texts;
    let tb = disc_service::ring_key(b, n).texts;
    assert(ta =~= p + seq![ao] + seq![ae, az, ac]);
    assert(tb =~= p + seq![bo] + seq![be, bz, bc]);
    if order::text_less(ao, bo) {
        lemma_texts_prefix(p, ao, bo, seq![ae, az, ac], seq![be, bz, bc]);
    }
    if ao == bo {
        let q = p + seq![ao];
        assert(ta =~= q + seq![ae] + seq![az, ac]);
        assert(tb =~= q + seq![be] + seq![bz, bc]);
        if order::text_less(ae, be) {
            lemma_texts_prefix(q, ae, be, seq![az, ac], seq![bz, bc]);
        }
        if ae == be {
            let r = q + seq![ae];
            assert(ta =~= r + seq![az] + seq![ac]);
            assert(tb =~= r + seq![bz] + seq![bc]);
            if order::text_less(az, bz) {
                lemma_texts_prefix(r, az, bz, seq![ac], seq![bc]);
            }
            if az == bz {
                let w = r + seq![az];
                assert(ta =~= w + seq![ac] + none);
                assert(tb =~= w + seq![bc] + none);
                if order::text_less(ac, bc) {
                    lemma_texts_prefix(w, ac, bc, none, none);
                }
            }
        }
    }
}

/// Stored pressings with the same masterings are in the order of their offsets, then of their
/// extra offsets, then of where their samples start, then of their comments, then of their ids.
pub proof fn law_order_of_stored_pressings(a: RingEntryView, b: RingEntryView, n: nat)
    requires
        disc_service::stored_layers_key(a.layers@, n) == disc_service::stored_layers_key(b.layers@, n),
    ensures
        ({
            let less = order::key_less(disc_service::stored_ring_key(a, n), disc_service::stored_ring_key(b, n));
            let o = disc_service::number_or_empty(a.offset_value) == disc_service::number_or_empty(b.offset_value);
            let e = disc_service::number_or_empty(a.offset_extra_value) == disc_service::number_or_empty(b.offset_extra_value);
            let s = disc_service::number_or_empty(a.sample_data_start) == disc_service::number_or_empty(b.sample_data_start);
            let c = disc_service::norm(disc_service::text_or(a.comment)) == disc_service::norm(disc_service::text_or(b.comment));
            &&& order::text_less(disc_service::number_or_empty(a.offset_value), disc_service::number_or_empty(b.offset_value)) ==> less
            &&& o && order::text_less(
                disc_service::number_or_empty(a.offset_extra_value),
                disc_service::number_or_empty(b.offset_extra_value),
            ) ==> less
            &&& o && e && order::text_less(
                disc_service::number_or_empty(a.sample_data_start),
                disc_service::number_or_empty(b.sample_data_start),
            ) ==> less
            &&& o && e && s && order::text_less(disc_service::norm(disc_service::text_or(a.comment)), disc_service::norm(disc_service::text_or(b.comment))) ==> less
            &&& o && e && s && c ==> (less <==> a.id < b.id)
        }),
{
    let p = disc_service::stored_layers_key(a.layers@, n);
    let ao = disc_service::number_or_empty(a.offset_value);
    let ae = disc_service::number_or_empty(a.offset_extra_value);
    let az = disc_service::number_or_empty(a.sample_data_start);
    let ac = disc_service::norm(disc_service::text_or(a.comment));
    let bo = disc_service::number_or_empty(b.offset_value);
    let be = disc_service::number_or_empty(b.offset_extra_value);
    let bz = disc_service::number_or_empty(b.sample_data_start);
    let bc = disc_service::norm(disc_service::text_or(b.comment));
    let none = Seq::<Seq<char>>::empty();
    let ta = disc_service::stored_ring_key(a, n).texts;
    let tb = disc_service::stored_ring_key(b, n).texts;
    assert(ta =~= p + seq![ao] + seq![ae, az, ac]);
    assert(tb =~= p + seq![bo] + seq![be, bz, bc]);
    if order::text_less(ao, bo) {
        lemma_texts_prefix(p, ao, bo, seq![ae, az, ac], seq![be, bz, bc]);
    }
    if ao == bo {
        let q = p + seq![ao];
        assert(ta =~= q + seq![ae] + seq![az, ac]);
        assert(tb =~= q + seq![be] + seq![bz, bc]);
        if order::text_less(ae, be) {
            lemma_texts_prefix(q, ae, be, seq![az, ac], seq![bz, bc]);
        }
        if ae == be {
            let r = q + seq![ae];
            assert(ta =~= r + seq![az] + seq![ac]);
            assert(tb =~= r + seq![bz] + seq![bc]);
            if order::text_less(az, bz) {
                lemma_texts_prefix(r, az, bz, seq![ac], seq![bc]);
            }
            if az == bz {
                let w = r + seq![az];
                assert(ta =~= w + seq![ac] + none);
                assert(tb =~= w + seq![bc] + none);
                if order::text_less(ac, bc) {
                    lemma_texts_prefix(w, ac, bc, none, none);
                }
            }
        }
    }
}

/// The layers of a pressing are compared one by one: the layer that is compared is the one of
/// its number, and nothing where there is none.
pub proof fn law_layers_are_compared_in_turn(layers: Seq<JsonView>, i: int, key: Seq<char>)
    requires
        0 <= i,
    ensures
        i < layers.len() ==> disc_service::norm_field(disc_service::layer_at(layers, i), key) == disc_service::norm_field(layers[i], key),
        i >= layers.len() ==> disc_service::norm_field(disc_service::layer_at(layers, i), key).len() == 0,
        disc_service::layer_key(layers, (i + 1) as nat).len() == 2 * (i + 1),
        disc_service::layer_key(layers, (i + 1) as nat)[2 * i] == disc_service::norm_field(
            disc_service::layer_at(layers, i),
            "mastering_code"@,
        ),
        disc_service::layer_key(layers, (i + 1) as nat)[2 * i + 1] == disc_service::norm_field(
            disc_service::layer_at(layers, i),
            "mastering_sid"@,
        ),
{
    lemma_layer_key_len(layers, i as nat);
}

proof fn lemma_layer_key_len(layers: Seq<JsonView>, n: nat)
    ensures
        disc_service::layer_key(layers, n).len() == 2 * n,
    decreases n,
{
    if n > 0 {
        lemma_layer_key_len(layers, (n - 1) as nat);
    }
}

/// Pressings are in the order of the masterings of their first layer: of the code, and among
/// equal codes of the SID.
pub proof fn law_masterings_come_first(a: JsonView, b: JsonView)
    ensures
        ({
            let la = disc_service::layer_at(json::list_or_empty(json::field(a, "layers"@)), 0);
            let lb = disc_service::layer_at(json::list_or_empty(json::field(b, "layers"@)), 0);
            let ca = disc_service::norm_field(la, "mastering_code"@);
            let cb = disc_service::norm_field(lb, "mastering_code"@);
            let sa = disc_service::norm_field(la, "mastering_sid"@);
            let sb = disc_service::norm_field(lb, "mastering_sid"@);
            let less = order::key_less(disc_service::ring_key(a, 1), disc_service::ring_key(b, 1));
            &&& order::text_less(ca, cb) ==> less
            &&& ca == cb && order::text_less(sa, sb) ==> less
        }),
{
    let la = disc_service::layer_at(json::list_or_empty(json::field(a, "layers"@)), 0);
    let lb = disc_service::layer_at(json::list_or_empty(json::field(b, "layers"@)), 0);
    let ca = disc_service::norm_field(la, "mastering_code"@);
    let cb = disc_service::norm_field(lb, "mastering_code"@);
    let sa = disc_service::norm_field(la, "mastering_sid"@);
    let sb = disc_service::norm_field(lb, "mastering_sid"@);
    let none = Seq::<Seq<char>>::empty();
    reveal_with_fuel(disc_service::layer_key, 2);
    let ra = seq![
        disc_service::norm_field(a, "offset_value"@),
        disc_service::norm_field(a, "offset_extra_value"@),
        disc_service::norm_field(a, "sample_start"@),
        disc_service::norm_field(a, "comment"@),
    ];
    let rb = seq![
        disc_service::norm_field(b, "offset_value"@),
        disc_service::norm_field(b, "offset_extra_value"@),
        disc_service::norm_field(b, "sample_start"@),
        disc_service::norm_field(b, "comment"@),
    ];
    assert(disc_service::ring_key(a, 1).texts =~= none + seq![ca] + (seq![sa] + ra));
    assert(disc_service::ring_key(b, 1).texts =~= none + seq![cb] + (seq![sb] + rb));
    if order::text_less(ca, cb) {
        lemma_texts_prefix(none, ca, cb, seq![sa] + ra, seq![sb] + rb);
    }
    if ca == cb {
        assert(disc_service::ring_key(a, 1).texts =~= seq![ca] + seq![sa] + ra);
        assert(disc_service::ring_key(b, 1).texts =~= seq![ca] + seq![sb] + rb);
        if order::text_less(sa, sb) {
            lemma_texts_prefix(seq![ca], sa, sb, ra, rb);
        }
    }
}

/// A pressing that comes before another by its key stands before it.
pub proof fn law_pressings_stand_in_order(rs: Seq<JsonView>, n: nat, i: int, j: int)
    requires
        0 <= i < j < rs.len(),
    ensures
        !order::key_less(disc_service::ring_key(disc_service::sorted_rings(rs, n)[j], n), disc_service::ring_key(disc_service::sorted_rings(rs, n)[i], n)),
{
    let ks = disc_service::ring_keys(rs, n);
    order::law_stable_order(ks);
    let o = order::stable_order(ks);
    let s = disc_service::sorted_rings(rs, n);
    assert(s[i] == rs[o[i]]);
    assert(s[j] == rs[o[j]]);
    assert(ks[o[i]] == disc_service::ring_key(rs[o[i]], n));
    assert(ks[o[j]] == disc_service::ring_key(rs[o[j]], n));
    order::lemma_key_order(ks[o[i]], ks[o[j]], ks[o[i]]);
}

// ── Editions ───────────────────────────────────────────────────────────────

proof fn lemma_insert_text(s: Seq<Seq<char>>, x: Seq<char>, y: Seq<char>)
    ensures
        disc_service::insert_text(s, x).contains(y) <==> s.contains(y) || y == x,
    decreases s.len(),
{
    let r = disc_service::insert_text(s, x);
    if s.len() == 0 {
        assert(r[0] == x);
    } else if s[0] == x {
        assert(s[0] == x);
    } else if order::text_less(x, s[0]) {
        assert(r[0] == x);
        if s.contains(y) {
            let k = choose|k: int| 0 <= k < s.len() && s[k] == y;
            assert(r[k + 1] == y);
        }
        if r.contains(y) && y != x {
            let k = choose|k: int| 0 <= k < r.len() && r[k] == y;
            assert(s[k - 1] == y);
        }
    } else {
        let t = s.drop_first();
        let u = disc_service::insert_text(t, x);
        lemma_insert_text(t, x, y);
        assert(r[0] == s[0]);
        if u.contains(y) {
            let k = choose|k: int| 0 <= k < u.len() && u[k] == y;
            assert(r[k + 1] == y);
        }
        if t.contains(y) {
            let k = choose|k: int| 0 <= k < t.len() && t[k] == y;
            assert(s[k + 1] == y);
        }
        if s.contains(y) && y != s[0] {
            let k = choose|k: int| 0 <= k < s.len() && s[k] == y;
            assert(t[k - 1] == y);
        }
        if r.contains(y) && y != s[0] {
            let k = choose|k: int| 0 <= k < r.len() && r[k] == y;
            assert(u[k - 1] == y);
        }
    }
}

proof fn lemma_systems_in_use(us: Seq<EditionUsageCount>, system: Seq<char>)
    ensures
        disc_service::systems_in_use(us).contains(system) <==> exists|i: int|
            0 <= i < us.len() && disc_service::is_suggestible(#[trigger] us[i]) && us[i].system_code@ == system,
    decreases us.len(),
{
    if us.len() > 0 {
        let front = us.drop_last();
        lemma_systems_in_use(front, system);
        lemma_insert_text(disc_service::systems_in_use(front), us.last().system_code@, system);
        assert(us[us.len() - 1] == us.last());
        if disc_service::systems_in_use(front).contains(system) {
            let i = choose|i: int|
                0 <= i < front.len() && disc_service::is_suggestible(#[trigger] front[i])
                    && front[i].system_code@ == system;
            assert(us[i] == front[i]);
        }
        if exists|i: int|
            0 <= i < us.len() && disc_service::is_suggestible(#[trigger] us[i]) && us[i].system_code@ == system {
            let i = choose|i: int|
                0 <= i < us.len() && disc_service::is_suggestible(#[trigger] us[i]) && us[i].system_code@
                    == system;
            if i < front.len() {
                assert(front[i] == us[i]);
            }
        }
    }
}

proof fn lemma_editions_of(us: Seq<EditionUsageCount>, system: Seq<char>, i: int)
    requires
        0 <= i < us.len(),
        disc_service::is_suggestible(us[i]),
        us[i].system_code@ == system,
    ensures
        disc_service::editions_of(us, system).contains(us[i].edition@),
    decreases us.len(),
{
    let front = us.drop_last();
    let before = disc_service::editions_of(front, system);
    let all = disc_service::editions_of(us, system);
    if i == us.len() - 1 {
        assert(all.last() == us[i].edition@);
    } else {
        assert(front[i] == us[i]);
        lemma_editions_of(front, system, i);
        let k = choose|k: int| 0 <= k < before.len() && before[k] == us[i].edition@;
        assert(all[k] == before[k]);
    }
}

/// An edition that is in use on a platform is suggested for that platform, without the space
/// around it.
pub proof fn law_editions_in_use_are_suggested(us: Seq<EditionUsageCount>, i: int)
    requires
        0 <= i < us.len(),
        text::trim(us[i].edition@).len() > 0,
        us[i].edition_count > 0,
    ensures
        exists|k: int|
            0 <= k < disc_service::edition_suggestions(us).len() && (#[trigger] disc_service::edition_suggestions(
                us,
            )[k]).system_code == us[i].system_code@ && disc_service::edition_suggestions(us)[k].editions.contains(
                text::trim(us[i].edition@),
            ),
{
    let system = us[i].system_code@;
    lemma_systems_in_use(us, system);
    lemma_editions_of(us, system, i);
    let ss = disc_service::systems_in_use(us);
    let k = choose|k: int| 0 <= k < ss.len() && ss[k] == system;
    let es = disc_service::editions_of(us, system);
    let ks = es.map_values(|e: Seq<char>| disc_service::edition_key(e));
    order::law_stable_order(ks);
    let o = order::stable_order(ks);
    let x = choose|x: int| 0 <= x < es.len() && es[x] == us[i].edition@;
    assert(o.contains(x));
    let y = choose|y: int| 0 <= y < o.len() && o[y] == x;
    let s = disc_service::edition_suggestions(us)[k];
    assert(s.system_code == system);
    assert(s.editions == disc_service::suggested(es));
    assert(s.editions[y] == text::trim(us[i].edition@));
}

/// The original edition is suggested before every other one.
pub proof fn law_original_comes_first(es: Seq<Seq<char>>, i: int, j: int)
    requires
        0 <= i < j < es.len(),
        text::lower_text(disc_service::suggested(es)[j]) == "original"@,
    ensures
        text::lower_text(disc_service::suggested(es)[i]) == "original"@,
{
    reveal_strlit("Original");
    reveal_strlit("original");
    assert(text::lower_text("Original"@) =~= "original"@);
    let ks = es.map_values(|e: Seq<char>| disc_service::edition_key(e));
    order::law_stable_order(ks);
    let o = order::stable_order(ks);
    assert(disc_service::suggested(es)[i] == text::trim(es[o[i]]));
    assert(disc_service::suggested(es)[j] == text::trim(es[o[j]]));
    assert(ks[o[i]] == disc_service::edition_key(es[o[i]]));
    assert(ks[o[j]] == disc_service::edition_key(es[o[j]]));
    if text::lower_text(disc_service::suggested(es)[i]) != "original"@ {
        assert(order::key_less(ks[o[j]], ks[o[i]]));
        order::lemma_key_order(ks[o[i]], ks[o[j]], ks[o[i]]);
    }
}

} // verus!
