//! Discs: who may see them, how their pressings are ordered, and how a snapshot is
//! read into the columns that are stored.

use vstd::prelude::*;

use crate::error::{AppError, ErrorView};
use crate::json::{self, Json, JsonView, array_texts};
use crate::models::{self, DiscRingCodeLayer, DiscStatus, RingEntryView, eq_ignore_case};
use crate::numbers::{self, write_i64};
use crate::order::{self, KeyView, SortKey, arrange, sort_positions, str_less};
use crate::text::{
    self, cat3, chars_of, chars_split, chars_trim, join_strings, str_eq, str_trim, string_of,
};
use crate::unicode::{self, to_lowercase};

verus! {

// ── Queries ────────────────────────────────────────────────────────────────

/// Selects the submissions `ds` that are a genuine, publicly approved change of the
/// disc `d`: approved or legacy, neither the row that created the disc nor an empty
/// backfill edit.
pub const RECENT_CHANGE_PREDICATE: &'static str = "
    ds.status IN ('Approved', 'Legacy')
    AND (
      (
        ds.submission_type = 'Edit'
        AND NOT (
          ds.changes = '{}'::jsonb
          AND COALESCE(ds.review_comment, '') IN ('added-backfill', 'no-added-sentinel')
        )
      )
      OR (
        ds.submission_type = 'Disc'
        AND ds.id <> (
          SELECT MIN(ds_first.id)
          FROM disc_submissions ds_first
          WHERE ds_first.target_disc_id = d.id
            AND ds_first.status IN ('Approved', 'Legacy')
        )
      )
    )";

/// Counts, for each platform and edition, the discs that are not disabled.
pub const EDITION_USAGE_COUNTS_SQL: &'static str = "SELECT d.system_code,
       btrim(e.edition) AS edition,
       COUNT(DISTINCT d.id)::BIGINT AS edition_count
FROM discs d
CROSS JOIN LATERAL unnest(d.edition) AS e(edition)
WHERE d.status <> 'Disabled'
  AND btrim(e.edition) <> ''
GROUP BY d.system_code, btrim(e.edition)";

/// A subquery for the time of the latest genuine change of the outer disc `d`, or NULL.
pub fn modification_date_sql() -> (r: String)
    ensures
        r@
            == "(SELECT MAX(ds.created_at) FROM disc_submissions ds WHERE ds.target_disc_id = d.id AND "@
            + RECENT_CHANGE_PREDICATE@ + ")"@,
{
    cat3(
        "(SELECT MAX(ds.created_at) FROM disc_submissions ds WHERE ds.target_disc_id = d.id AND ",
        RECENT_CHANGE_PREDICATE,
        ")",
    )
}

// ── Visibility ─────────────────────────────────────────────────────────────

/// A disabled disc is shown only to those who may see disabled discs.
pub fn can_view_disc_status(status: DiscStatus, can_view_disabled_discs: bool) -> (r: bool)
    ensures
        r == (can_view_disabled_discs || status != DiscStatus::Disabled),
{
    can_view_disabled_discs || status != DiscStatus::Disabled
}

/// Refuse a disc that may not be seen as if it were not there.
pub fn ensure_disc_status_visible(
    status: DiscStatus,
    can_view_disabled_discs: bool,
) -> (r: Result<(), AppError>)
    ensures
        r is Ok <==> (can_view_disabled_discs || status != DiscStatus::Disabled),
        r matches Err(e) ==> e@ == ErrorView::NotFound,
{
    if can_view_disc_status(status, can_view_disabled_discs) {
        Ok(())
    } else {
        Err(AppError::NotFound)
    }
}

// ── Lists in one text ──────────────────────────────────────────────────────

/// The parts without white space at either end, those that are not empty.
pub open spec fn filled_parts(parts: Seq<Seq<char>>) -> Seq<Seq<char>>
    decreases parts.len(),
{
    if parts.len() == 0 {
        Seq::empty()
    } else {
        let before = filled_parts(parts.drop_last());
        if text::trim(parts.last()).len() == 0 {
            before
        } else {
            before.push(text::trim(parts.last()))
        }
    }
}

/// The items of a comma-separated text.
pub open spec fn csv_items(s: Seq<char>) -> Seq<Seq<char>> {
    filled_parts(text::split(s, ','))
}

/// The items of a comma-separated text.
pub fn read_csv_items(s: &str) -> (r: Vec<String>)
    ensures
        text::texts(r@) == csv_items(s@),
{
    let chars = chars_of(s);
    let parts = chars_split(&chars, ',');
    let ghost ps = text::slices(parts@);
    let mut out: Vec<String> = Vec::new();
    assert(text::texts(out@) =~= filled_parts(ps.take(0)));
    for i in 0..parts.len()
        invariant
            ps == text::slices(parts@),
            ps == text::split(s@, ','),
            text::texts(out@) == filled_parts(ps.take(i as int)),
    {
        let item = chars_trim(parts[i]);
        let ghost before = out@;
        proof {
            let t = ps.take(i + 1);
            assert(t.drop_last() =~= ps.take(i as int));
            assert(t.last() == parts@[i as int]@);
        }
        if item.len() > 0 {
            out.push(string_of(item));
            assert(text::texts(out@) =~= text::texts(before).push(item@));
        }
    }
    assert(ps.take(ps.len() as int) =~= ps);
    out
}

/// What an item of a list sorts by: its small form.
pub open spec fn small_key(s: Seq<char>) -> KeyView {
    KeyView { rank: 0, texts: seq![unicode::lowercase(s)], last: 0 }
}

/// The items in the order of their small forms.
pub open spec fn sorted_by_small(items: Seq<Seq<char>>) -> Seq<Seq<char>> {
    order::arranged(items, order::stable_order(items.map_values(|s: Seq<char>| small_key(s))))
}

/// The items without those that repeat the item before them, up to ASCII case.
pub open spec fn dedup_ignoring_case(items: Seq<Seq<char>>) -> Seq<Seq<char>>
    decreases items.len(),
{
    if items.len() == 0 {
        Seq::empty()
    } else {
        let before = dedup_ignoring_case(items.drop_last());
        if before.len() > 0 && models::same_ignoring_case(before.last(), items.last()) {
            before
        } else {
            before.push(items.last())
        }
    }
}

/// The items of a comma-separated text, sorted, each once.
pub open spec fn csv_sorted(s: Seq<char>) -> Seq<Seq<char>> {
    dedup_ignoring_case(sorted_by_small(csv_items(s)))
}

/// The items of a comma-separated text, sorted, each once.
pub fn parse_comma_separated(s: &str) -> (r: Vec<String>)
    ensures
        text::texts(r@) == csv_sorted(s@),
{
    let items = read_csv_items(s);
    let ghost all = text::texts(items@);
    let ghost keys_spec = all.map_values(|t: Seq<char>| small_key(t));
    let mut keys: Vec<SortKey> = Vec::new();
    for i in 0..items.len()
        invariant
            all == text::texts(items@),
            keys_spec == all.map_values(|t: Seq<char>| small_key(t)),
            order::key_views(keys@) == keys_spec.take(i as int),
    {
        let small = to_lowercase(items[i].as_str());
        let mut ts: Vec<String> = Vec::new();
        ts.push(small);
        let key = SortKey { rank: 0, texts: ts, last: 0 };
        let ghost before = keys@;
        proof {
            assert(text::texts(ts@) =~= seq![unicode::lowercase(all[i as int])]);
            assert(key@ == keys_spec[i as int]);
        }
        keys.push(key);
        assert(order::key_views(keys@) =~= order::key_views(before).push(key@));
        assert(keys_spec.take(i + 1) =~= keys_spec.take(i as int).push(keys_spec[i as int]));
    }
    assert(keys_spec.take(keys_spec.len() as int) =~= keys_spec);
    let order = sort_positions(&keys);
    let ghost o = order::positions(order@);
    assert(keys@.len() == order::key_views(keys@).len());
    let sorted = arrange(items, &order);
    assert(text::texts(sorted@) =~= order::arranged(all, o));
    let ghost spec_sorted = text::texts(sorted@);
    let mut out: Vec<String> = Vec::new();
    assert(text::texts(out@) =~= dedup_ignoring_case(spec_sorted.take(0)));
    for i in 0..sorted.len()
        invariant
            spec_sorted == text::texts(sorted@),
            text::texts(out@) == dedup_ignoring_case(spec_sorted.take(i as int)),
    {
        proof {
            let t = spec_sorted.take(i + 1);
            assert(t.drop_last() =~= spec_sorted.take(i as int));
            assert(t.last() == sorted@[i as int]@);
            if out@.len() > 0 {
                assert(text::texts(out@).last() == out@.last()@);
            }
        }
        let ghost before = out@;
        let repeats = out.len() > 0 && eq_ignore_case(
            out[out.len() - 1].as_str(),
            sorted[i].as_str(),
        );
        if !repeats {
            out.push(sorted[i].clone());
            assert(text::texts(out@) =~= text::texts(before).push(sorted@[i as int]@));
        }
    }
    assert(spec_sorted.take(spec_sorted.len() as int) =~= spec_sorted);
    out
}

/// The items of a comma-separated text, sorted, each once, in one text.
pub fn normalize_comma_separated(s: &str) -> (r: String)
    ensures
        r@ == text::join(csv_sorted(s@), ", "@),
{
    let items = parse_comma_separated(s);
    join_strings(&items, ", ")
}

/// The texts of a snapshot value that is a list of texts or a comma-separated text.
pub open spec fn text_array(v: JsonView) -> Seq<Seq<char>> {
    match v {
        JsonView::Arr(list) => filled_parts(json::list_texts(list)),
        JsonView::Str(s) => csv_items(s),
        _ => Seq::empty(),
    }
}

/// The texts of a snapshot value that is a list of texts or a comma-separated text.
pub fn parse_text_array(val: &Json) -> (r: Vec<String>)
    ensures
        text::texts(r@) == text_array(val@),
{
    match val {
        Json::Array(list) => {
            let items = array_texts(list);
            let ghost all = text::texts(items@);
            let mut out: Vec<String> = Vec::new();
            assert(text::texts(out@) =~= filled_parts(all.take(0)));
            for i in 0..items.len()
                invariant
                    all == text::texts(items@),
                    text::texts(out@) == filled_parts(all.take(i as int)),
            {
                let item = str_trim(items[i].as_str());
                let ghost before = out@;
                proof {
                    let t = all.take(i + 1);
                    assert(t.drop_last() =~= all.take(i as int));
                    assert(t.last() == items@[i as int]@);
                }
                if !item.as_str().is_empty() {
                    out.push(item);
                    assert(text::texts(out@) =~= text::texts(before).push(item@));
                }
            }
            assert(all.take(all.len() as int) =~= all);
            out
        },
        Json::Text(s) => read_csv_items(s.as_str()),
        _ => {
            let none: Vec<String> = Vec::new();
            assert(text::texts(none@) =~= Seq::<Seq<char>>::empty());
            none
        },
    }
}

// ── The order of pressings ─────────────────────────────────────────────────

/// The form of a text that pressings are ordered by.
pub open spec fn norm(s: Seq<char>) -> Seq<char> {
    unicode::lowercase(text::trim(s))
}

/// The form of a text that pressings are ordered by.
pub fn norm_cmp_str(s: &str) -> (r: String)
    ensures
        r@ == norm(s@),
{
    let t = str_trim(s);
    to_lowercase(t.as_str())
}

/// The form of a text field that pressings are ordered by; empty where there is none.
pub open spec fn norm_field(v: JsonView, key: Seq<char>) -> Seq<char> {
    match json::field(v, key) {
        JsonView::Str(s) => norm(s),
        _ => Seq::empty(),
    }
}

/// The form of a text field that pressings are ordered by.
pub fn json_field_norm(entry: &Json, key: &str) -> (r: String)
    ensures
        r@ == norm_field(entry@, key@),
{
    match entry.field(key) {
        Json::Text(s) => norm_cmp_str(s.as_str()),
        _ => String::new(),
    }
}

/// Layer `i` of a pressing, an empty object where it has none.
pub open spec fn layer_at(layers: Seq<JsonView>, i: int) -> JsonView {
    if 0 <= i < layers.len() {
        layers[i]
    } else {
        JsonView::Obj(Seq::empty())
    }
}

/// What the first `n` layers of a pressing are ordered by.
pub open spec fn layer_key(layers: Seq<JsonView>, n: nat) -> Seq<Seq<char>>
    decreases n,
{
    if n == 0 {
        Seq::empty()
    } else {
        let l = layer_at(layers, n - 1);
        layer_key(layers, (n - 1) as nat).push(norm_field(l, "mastering_code"@)).push(
            norm_field(l, "mastering_sid"@),
        )
    }
}

/// What a pressing is ordered by: layer by layer its mastering code and SID, then its
/// offsets, sample start and comment, then its id.
pub open spec fn ring_key(v: JsonView, max_layers: nat) -> KeyView {
    KeyView {
        rank: 0,
        texts: layer_key(json::list_or_empty(json::field(v, "layers"@)), max_layers).push(
            norm_field(v, "offset_value"@),
        ).push(norm_field(v, "offset_extra_value"@)).push(norm_field(v, "sample_start"@)).push(
            norm_field(v, "comment"@),
        ),
        last: match json::as_int(json::field(v, "id"@)) {
            Some(n) => n,
            None => i64::MAX as int,
        },
    }
}

/// The keys of a list of pressings.
pub open spec fn ring_keys(rs: Seq<JsonView>, max_layers: nat) -> Seq<KeyView> {
    rs.map_values(|v: JsonView| ring_key(v, max_layers))
}

/// The pressings in order.
pub open spec fn sorted_rings(rs: Seq<JsonView>, max_layers: nat) -> Seq<JsonView> {
    order::arranged(rs, order::stable_order(ring_keys(rs, max_layers)))
}

fn ring_sort_key(v: &Json, max_layers: usize) -> (r: SortKey)
    ensures
        r@ == ring_key(v@, max_layers as nat),
{
    let mut ts: Vec<String> = Vec::new();
    let ghost ls = json::list_or_empty(json::field(v@, "layers"@));
    let layers_value = v.field("layers");
    assert(text::texts(ts@) =~= layer_key(ls, 0));
    for i in 0..max_layers
        invariant
            layers_value@ == json::field(v@, "layers"@),
            ls == json::list_or_empty(layers_value@),
            text::texts(ts@) == layer_key(ls, i as nat),
    {
        let ghost before = ts@;
        let code;
        let sid;
        match layers_value {
            Json::Array(list) => {
                proof {
                    json::lemma_json_views(list@);
                }
                if i < list.len() {
                    code = json_field_norm(&list[i], "mastering_code");
                    sid = json_field_norm(&list[i], "mastering_sid");
                } else {
                    code = String::new();
                    sid = String::new();
                }
            },
            _ => {
                code = String::new();
                sid = String::new();
            },
        }
        proof {
            let l = layer_at(ls, i as int);
            assert(code@ == norm_field(l, "mastering_code"@));
            assert(sid@ == norm_field(l, "mastering_sid"@));
        }
        ts.push(code);
        ts.push(sid);
        assert(text::texts(ts@) =~= text::texts(before).push(code@).push(sid@));
    }
    let ghost before = ts@;
    let a = json_field_norm(v, "offset_value");
    let b = json_field_norm(v, "offset_extra_value");
    let c = json_field_norm(v, "sample_start");
    let d = json_field_norm(v, "comment");
    ts.push(a);
    ts.push(b);
    ts.push(c);
    ts.push(d);
    assert(text::texts(ts@) =~= text::texts(before).push(a@).push(b@).push(c@).push(d@));
    let last: i64 = match v.field("id").as_i64() {
        Some(n) => n,
        None => i64::MAX,
    };
    SortKey { rank: 0, texts: ts, last }
}

/// Put pressings in order.
pub fn sort_ring_codes_json(entries: &mut Vec<Json>, max_layers: usize)
    ensures
        json::json_views(final(entries)@) == sorted_rings(json::json_views(old(entries)@), max_layers as nat),
{
    let ghost rs = json::json_views(entries@);
    let ghost ks = ring_keys(rs, max_layers as nat);
    let mut list: Vec<Json> = Vec::new();
    std::mem::swap(entries, &mut list);
    proof {
        json::lemma_json_views(list@);
    }
    let mut keys: Vec<SortKey> = Vec::new();
    for i in 0..list.len()
        invariant
            rs == json::json_views(list@),
            rs.len() == list@.len(),
            forall|k: int| 0 <= k < list@.len() ==> #[trigger] rs[k] == list@[k]@,
            ks == ring_keys(rs, max_layers as nat),
            order::key_views(keys@) == ks.take(i as int),
    {
        let key = ring_sort_key(&list[i], max_layers);
        let ghost before = keys@;
        keys.push(key);
        assert(rs[i as int] == list@[i as int]@);
        assert(order::key_views(keys@) =~= order::key_views(before).push(key@));
        assert(ks.take(i + 1) =~= ks.take(i as int).push(ks[i as int]));
    }
    assert(ks.take(ks.len() as int) =~= ks);
    assert(keys@.len() == order::key_views(keys@).len());
    let order = sort_positions(&keys);
    let ghost all = list@;
    let mut sorted = arrange(list, &order);
    proof {
        json::lemma_json_views(sorted@);
        assert(json::json_views(sorted@) =~= sorted_rings(rs, max_layers as nat));
    }
    std::mem::swap(entries, &mut sorted);
}

/// The first of `layers` that is layer `i`.
pub open spec fn find_layer(layers: Seq<DiscRingCodeLayer>, i: int) -> Option<DiscRingCodeLayer>
    decreases layers.len(),
{
    if layers.len() == 0 {
        None
    } else if layers[0].layer == i {
        Some(layers[0])
    } else {
        find_layer(layers.drop_first(), i)
    }
}

/// The position of the first layer that is layer `i`.
pub fn position_of_layer(layers: &Vec<DiscRingCodeLayer>, i: i64) -> (r: Option<usize>)
    ensures
        match r {
            Some(k) => k < layers@.len() && find_layer(layers@, i as int) == Some(
                layers@[k as int],
            ),
            None => find_layer(layers@, i as int) is None,
        },
{
    assert(layers@.skip(0) =~= layers@);
    for k in 0..layers.len()
        invariant
            find_layer(layers@.skip(k as int), i as int) == find_layer(layers@, i as int),
    {
        proof {
            let rest = layers@.skip(k as int);
            assert(rest[0] == layers@[k as int]);
            assert(rest.drop_first() =~= layers@.skip(k + 1));
        }
        if layers[k].layer as i64 == i {
            return Some(k);
        }
    }
    None
}

/// The text of an optional string, or the empty text.
pub open spec fn text_or(s: Option<String>) -> Seq<char> {
    match s {
        Some(t) => t@,
        None => Seq::empty(),
    }
}

/// What the mastering code and SID of a stored layer are ordered by.
pub open spec fn stored_layer_key(l: Option<DiscRingCodeLayer>) -> (Seq<char>, Seq<char>) {
    match l {
        Some(l) => (norm(text_or(l.mastering_code)), norm(text_or(l.mastering_sid))),
        None => (norm(Seq::empty()), norm(Seq::empty())),
    }
}

/// What the first `n` layers of a stored pressing are ordered by. A layer is looked up by
/// the 32-bit integer that its number is cut to.
pub open spec fn stored_layers_key(layers: Seq<DiscRingCodeLayer>, n: nat) -> Seq<Seq<char>>
    decreases n,
{
    if n == 0 {
        Seq::empty()
    } else {
        let k = stored_layer_key(find_layer(layers, ((n - 1) as i32) as int));
        stored_layers_key(layers, (n - 1) as nat).push(k.0).push(k.1)
    }
}

/// The numeral of an optional number, or the empty text.
pub open spec fn number_or_empty(n: Option<i32>) -> Seq<char> {
    match n {
        Some(v) => numbers::int_text(v as int),
        None => Seq::empty(),
    }
}

/// What a stored pressing is ordered by.
pub open spec fn stored_ring_key(e: RingEntryView, max_layers: nat) -> KeyView {
    KeyView {
        rank: 0,
        texts: stored_layers_key(e.layers@, max_layers).push(number_or_empty(e.offset_value)).push(
            number_or_empty(e.offset_extra_value),
        ).push(number_or_empty(e.sample_data_start)).push(norm(text_or(e.comment))),
        last: e.id as int,
    }
}

/// The keys of a list of stored pressings.
pub open spec fn stored_ring_keys(es: Seq<RingEntryView>, max_layers: nat) -> Seq<KeyView> {
    es.map_values(|e: RingEntryView| stored_ring_key(e, max_layers))
}

/// The text of an optional string, or the empty text.
pub fn str_or_empty(s: &Option<String>) -> (r: &str)
    ensures
        r@ == text_or(*s),
{
    match s {
        Some(t) => t.as_str(),
        None => {
            proof {
                reveal_strlit("");
            }
            assert(""@ =~= Seq::<char>::empty());
            ""
        },
    }
}

/// The numeral of an optional number, or the empty text.
pub fn write_or_empty(n: &Option<i32>) -> (r: String)
    ensures
        r@ == number_or_empty(*n),
{
    match n {
        Some(v) => write_i64(*v as i64),
        None => String::new(),
    }
}

/// The form that a stored layer's field is ordered by.
fn layer_field_norm(raw: &Option<String>) -> (r: String)
    ensures
        r@ == norm(text_or(*raw)),
{
    norm_cmp_str(str_or_empty(raw))
}

fn stored_sort_key(e: &RingEntryView, max_layers: usize) -> (r: SortKey)
    ensures
        r@ == stored_ring_key(*e, max_layers as nat),
{
    let mut ts: Vec<String> = Vec::new();
    assert(text::texts(ts@) =~= stored_layers_key(e.layers@, 0));
    for i in 0..max_layers
        invariant
            text::texts(ts@) == stored_layers_key(e.layers@, i as nat),
    {
        let ghost before = ts@;
        let none: Option<String> = None;
        let number: i32 = #[verifier::truncate]
        (i as i32);
        let (code, sid) = match position_of_layer(&e.layers, number as i64) {
            Some(k) => (
                layer_field_norm(&e.layers[k].mastering_code),
                layer_field_norm(&e.layers[k].mastering_sid),
            ),
            None => (layer_field_norm(&none), layer_field_norm(&none)),
        };
        ts.push(code);
        ts.push(sid);
        assert(text::texts(ts@) =~= text::texts(before).push(code@).push(sid@));
    }
    let ghost before = ts@;
    let a = write_or_empty(&e.offset_value);
    let b = write_or_empty(&e.offset_extra_value);
    let c = write_or_empty(&e.sample_data_start);
    let d = layer_field_norm(&e.comment);
    ts.push(a);
    ts.push(b);
    ts.push(c);
    ts.push(d);
    assert(text::texts(ts@) =~= text::texts(before).push(a@).push(b@).push(c@).push(d@));
    SortKey { rank: 0, texts: ts, last: e.id as i64 }
}

/// The order of stored pressings.
pub fn ring_entry_order(entries: &Vec<RingEntryView>, max_layers: usize) -> (r: Vec<usize>)
    ensures
        order::positions(r@) == order::stable_order(stored_ring_keys(entries@, max_layers as nat)),
        order::is_arrangement(order::positions(r@), entries@.len()),
        r@.len() == entries@.len(),
        forall|i: int| 0 <= i < r@.len() ==> (#[trigger] r@[i]) < entries@.len(),
{
    let ghost ks = stored_ring_keys(entries@, max_layers as nat);
    let mut keys: Vec<SortKey> = Vec::new();
    for i in 0..entries.len()
        invariant
            ks == stored_ring_keys(entries@, max_layers as nat),
            order::key_views(keys@) == ks.take(i as int),
            keys@.len() == i,
    {
        let key = stored_sort_key(&entries[i], max_layers);
        let ghost before = keys@;
        keys.push(key);
        assert(order::key_views(keys@) =~= order::key_views(before).push(key@));
        assert(ks.take(i + 1) =~= ks.take(i as int).push(ks[i as int]));
    }
    assert(ks.take(ks.len() as int) =~= ks);
    sort_positions(&keys)
}

/// Put stored pressings in order.
pub fn sort_ring_entry_views(entries: &mut Vec<RingEntryView>, max_layers: usize)
    ensures
        final(entries)@ == order::arranged(
            old(entries)@,
            order::stable_order(stored_ring_keys(old(entries)@, max_layers as nat)),
        ),
{
    let mut list: Vec<RingEntryView> = Vec::new();
    std::mem::swap(entries, &mut list);
    let order = ring_entry_order(&list, max_layers);
    let mut sorted = arrange(list, &order);
    std::mem::swap(entries, &mut sorted);
}

// ── Suggested editions ─────────────────────────────────────────────────────

/// How many discs of a platform have an edition.
#[derive(Debug)]
pub struct EditionUsageCount {
    pub system_code: String,
    pub edition: String,
    pub edition_count: i64,
}

/// The editions suggested for a platform.
#[derive(Debug)]
pub struct EditionSuggestions {
    pub system_code: String,
    pub editions: Vec<String>,
}

/// The value of [`EditionSuggestions`].
pub struct SuggestionsView {
    pub system_code: Seq<char>,
    pub editions: Seq<Seq<char>>,
}

impl View for EditionSuggestions {
    type V = SuggestionsView;

    open spec fn view(&self) -> SuggestionsView {
        SuggestionsView { system_code: self.system_code@, editions: text::texts(self.editions@) }
    }
}

/// An edition that is in use and not blank.
pub open spec fn is_suggestible(u: EditionUsageCount) -> bool {
    text::trim(u.edition@).len() > 0 && u.edition_count > 0
}

/// The editions in use on a platform, as they were counted.
pub open spec fn editions_of(us: Seq<EditionUsageCount>, system: Seq<char>) -> Seq<Seq<char>>
    decreases us.len(),
{
    if us.len() == 0 {
        Seq::empty()
    } else {
        let before = editions_of(us.drop_last(), system);
        if is_suggestible(us.last()) && us.last().system_code@ == system {
            before.push(us.last().edition@)
        } else {
            before
        }
    }
}

/// What an edition is ordered by: the original edition first, then the small form,
/// then the text.
pub open spec fn edition_key(e: Seq<char>) -> KeyView {
    KeyView {
        rank: if models::same_ignoring_case(text::trim(e), "Original"@) {
            0
        } else {
            1
        },
        texts: seq![unicode::lowercase(e), e],
        last: 0,
    }
}

/// Editions in the order in which they are suggested.
pub open spec fn suggested(es: Seq<Seq<char>>) -> Seq<Seq<char>> {
    order::arranged(es, order::stable_order(es.map_values(|e: Seq<char>| edition_key(e)))).map_values(
        |e: Seq<char>| text::trim(e),
    )
}

/// The platforms that have an edition in use, in the order of their codes, each once.
pub open spec fn systems_in_use(us: Seq<EditionUsageCount>) -> Seq<Seq<char>>
    decreases us.len(),
{
    if us.len() == 0 {
        Seq::empty()
    } else {
        let before = systems_in_use(us.drop_last());
        if is_suggestible(us.last()) {
            insert_text(before, us.last().system_code@)
        } else {
            before
        }
    }
}

/// An ascending list of texts with one more, unless it is there.
pub open spec fn insert_text(s: Seq<Seq<char>>, x: Seq<char>) -> Seq<Seq<char>>
    decreases s.len(),
{
    if s.len() == 0 {
        seq![x]
    } else if s[0] == x {
        s
    } else if order::text_less(x, s[0]) {
        seq![x] + s
    } else {
        seq![s[0]] + insert_text(s.drop_first(), x)
    }
}

/// The suggestions for each platform in use.
pub open spec fn edition_suggestions(us: Seq<EditionUsageCount>) -> Seq<SuggestionsView> {
    systems_in_use(us).map_values(
        |system: Seq<char>|
            SuggestionsView { system_code: system, editions: suggested(editions_of(us, system)) },
    )
}

fn add_system(systems: &mut Vec<String>, code: &str)
    ensures
        text::texts(final(systems)@) == insert_text(text::texts(old(systems)@), code@),
{
    let ghost all = text::texts(systems@);
    let ghost before = systems@;
    let mut i: usize = 0;
    assert(all.skip(0) =~= all);
    assert(all.take(0) + insert_text(all, code@) =~= insert_text(all, code@));
    while i < systems.len() && !str_eq(systems[i].as_str(), code) && !str_less(
        code,
        systems[i].as_str(),
    )
        invariant
            i <= systems@.len(),
            systems@ == before,
            all == text::texts(before),
            all.take(i as int) + insert_text(all.skip(i as int), code@) == insert_text(all, code@),
        decreases systems@.len() - i,
    {
        proof {
            let rest = all.skip(i as int);
            assert(rest[0] == systems@[i as int]@);
            assert(rest.drop_first() =~= all.skip(i + 1));
            assert(all.take(i as int) + (seq![rest[0]] + insert_text(rest.drop_first(), code@))
                =~= all.take(i + 1) + insert_text(rest.drop_first(), code@));
        }
        i += 1;
    }
    proof {
        let rest = all.skip(i as int);
        if i < systems@.len() {
            assert(rest[0] == systems@[i as int]@);
        }
    }
    if i < systems.len() && str_eq(systems[i].as_str(), code) {
        assert(all.take(i as int) + all.skip(i as int) =~= all);
        return;
    }
    systems.insert(i, String::from_str(code));
    proof {
        let rest = all.skip(i as int);
        if i == all.len() {
            assert(seq![code@] + rest =~= seq![code@]);
        }
        assert(text::texts(systems@) =~= all.take(i as int) + (seq![code@] + rest));
    }
}

fn edition_sort_key(edition: &str) -> (r: SortKey)
    ensures
        r@ == edition_key(edition@),
{
    let trimmed = str_trim(edition);
    let rank: i64 = if eq_ignore_case(trimmed.as_str(), "Original") {
        0
    } else {
        1
    };
    let mut ts: Vec<String> = Vec::new();
    let small = to_lowercase(edition);
    ts.push(small);
    ts.push(String::from_str(edition));
    assert(text::texts(ts@) =~= seq![unicode::lowercase(edition@), edition@]);
    SortKey { rank, texts: ts, last: 0 }
}

fn editions_for(usage_counts: &Vec<EditionUsageCount>, system: &str) -> (r: Vec<String>)
    ensures
        text::texts(r@) == suggested(editions_of(usage_counts@, system@)),
{
    let mut found: Vec<String> = Vec::new();
    let mut keys: Vec<SortKey> = Vec::new();
    assert(usage_counts@.take(0) =~= Seq::empty());
    assert(text::texts(found@) =~= editions_of(usage_counts@.take(0), system@));
    for i in 0..usage_counts.len()
        invariant
            text::texts(found@) == editions_of(usage_counts@.take(i as int), system@),
            order::key_views(keys@) == text::texts(found@).map_values(|e: Seq<char>| edition_key(e)),
            keys@.len() == found@.len(),
    {
        let u = &usage_counts[i];
        let ghost before = found@;
        let ghost before_keys = keys@;
        proof {
            let t = usage_counts@.take(i + 1);
            assert(t.drop_last() =~= usage_counts@.take(i as int));
            assert(t.last() == usage_counts@[i as int]);
        }
        let trimmed = str_trim(u.edition.as_str());
        if !trimmed.as_str().is_empty() && u.edition_count > 0 && str_eq(
            u.system_code.as_str(),
            system,
        ) {
            let key = edition_sort_key(u.edition.as_str());
            keys.push(key);
            found.push(u.edition.clone());
            proof {
                assert(text::texts(found@) =~= text::texts(before).push(u.edition@));
                assert(order::key_views(keys@) =~= order::key_views(before_keys).push(key@));
                assert(text::texts(found@).map_values(|e: Seq<char>| edition_key(e)) =~= text::texts(
                    before,
                ).map_values(|e: Seq<char>| edition_key(e)).push(edition_key(u.edition@)));
            }
        }
    }
    assert(usage_counts@.take(usage_counts@.len() as int) =~= usage_counts@);
    let order = sort_positions(&keys);
    let ghost es = text::texts(found@);
    let sorted = arrange(found, &order);
    let ghost ss = text::texts(sorted@);
    assert(ss =~= order::arranged(es, order::stable_order(es.map_values(|e: Seq<char>| edition_key(e)))));
    let mut out: Vec<String> = Vec::new();
    for i in 0..sorted.len()
        invariant
            ss == text::texts(sorted@),
            text::texts(out@) == ss.map_values(|e: Seq<char>| text::trim(e)).take(i as int),
    {
        let ghost before = out@;
        let t = str_trim(sorted[i].as_str());
        out.push(t);
        assert(text::texts(out@) =~= text::texts(before).push(t@));
    }
    assert(text::texts(out@) =~= ss.map_values(|e: Seq<char>| text::trim(e)));
    out
}

/// The suggestions as values.
pub open spec fn suggestion_views(v: Seq<EditionSuggestions>) -> Seq<SuggestionsView> {
    v.map_values(|s: EditionSuggestions| s@)
}

/// The editions to suggest for each platform, from how often each is used.
pub fn build_edition_suggestion_map(usage_counts: &Vec<EditionUsageCount>) -> (r: Vec<
    EditionSuggestions,
>)
    ensures
        suggestion_views(r@) == edition_suggestions(usage_counts@),
{
    let mut systems: Vec<String> = Vec::new();
    assert(text::texts(systems@) =~= systems_in_use(usage_counts@.take(0)));
    for i in 0..usage_counts.len()
        invariant
            text::texts(systems@) == systems_in_use(usage_counts@.take(i as int)),
    {
        let u = &usage_counts[i];
        proof {
            let t = usage_counts@.take(i + 1);
            assert(t.drop_last() =~= usage_counts@.take(i as int));
            assert(t.last() == usage_counts@[i as int]);
        }
        let trimmed = str_trim(u.edition.as_str());
        if !trimmed.as_str().is_empty() && u.edition_count > 0 {
            add_system(&mut systems, u.system_code.as_str());
        }
    }
    assert(usage_counts@.take(usage_counts@.len() as int) =~= usage_counts@);
    let mut out: Vec<EditionSuggestions> = Vec::new();
    for i in 0..systems.len()
        invariant
            text::texts(systems@) == systems_in_use(usage_counts@),
            suggestion_views(out@) == edition_suggestions(usage_counts@).take(i as int),
    {
        let ghost before = out@;
        let editions = editions_for(usage_counts, systems[i].as_str());
        let s = EditionSuggestions { system_code: systems[i].clone(), editions };
        out.push(s);
        proof {
            assert(suggestion_views(out@) =~= suggestion_views(before).push(s@));
            assert(systems_in_use(usage_counts@)[i as int] == systems@[i as int]@);
        }
    }
    assert(suggestion_views(out@) =~= edition_suggestions(usage_counts@));
    out
}

// ── Normalizing twice ──────────────────────────────────────────────────────

/// An item of a list: not empty, without white space at either end, without commas.
pub open spec fn is_item(x: Seq<char>) -> bool {
    x.len() > 0 && text::trim(x) == x && !x.contains(',')
}

/// No item comes before one that stands before it.
spec fn is_in_order(items: Seq<Seq<char>>) -> bool {
    forall|i: int, j: int|
        0 <= i < j < items.len() ==> !order::key_less(
            small_key(#[trigger] items[j]),
            small_key(#[trigger] items[i]),
        )
}

/// No item repeats the item before it.
spec fn has_no_repeats(items: Seq<Seq<char>>) -> bool {
    forall|i: int|
        0 < i < items.len() ==> !models::same_ignoring_case(items[i - 1], #[trigger] items[i])
}

proof fn lemma_split_has_no_separator(s: Seq<char>, c: char)
    ensures
        forall|i: int| 0 <= i < text::split(s, c).len() ==> !(#[trigger] text::split(s, c)[i]).contains(c),
    decreases s.len(),
{
    text::lemma_index_from(s, c, 0);
    let i = text::index_from(s, c, 0);
    let ps = text::split(s, c);
    if 0 <= i < s.len() {
        let rest = text::split(s.skip(i + 1), c);
        lemma_split_has_no_separator(s.skip(i + 1), c);
        assert forall|k: int| 0 <= k < ps.len() implies !(#[trigger] ps[k]).contains(c) by {
            if k == 0 {
                assert forall|j: int| 0 <= j < s.take(i).len() implies s.take(i)[j] != c by {
                    assert(s[j] != c);
                }
                assert(ps[0] == s.take(i));
            } else {
                assert(ps[k] == rest[k - 1]);
            }
        }
    } else {
        assert forall|j: int| 0 <= j < s.len() implies s[j] != c by {
            assert(s[j] != c);
        }
        assert(ps[0] == s);
    }
}

proof fn lemma_split_append(a: Seq<char>, b: Seq<char>, c: char)
    requires
        !b.contains(c),
    ensures
        text::split(a.push(c) + b, c) == text::split(a, c).push(b),
    decreases a.len(),
{
    let s = a.push(c) + b;
    text::lemma_index_from(s, c, 0);
    text::lemma_index_from(a, c, 0);
    let i = text::index_from(s, c, 0);
    let k = text::index_from(a, c, 0);
    assert(s[a.len() as int] == c);
    if k < a.len() {
        assert(s[k] == c);
        assert forall|j: int| 0 <= j < k implies s[j] != c by {
            assert(a[j] != c);
        }
        assert(i == k);
        assert(s.take(i) =~= a.take(k));
        assert(s.skip(i + 1) =~= a.skip(k + 1).push(c) + b);
        lemma_split_append(a.skip(k + 1), b, c);
        assert(text::split(s, c) =~= text::split(a, c).push(b));
    } else {
        assert forall|j: int| 0 <= j < a.len() implies s[j] != c by {
            assert(a[j] != c);
        }
        assert(i == a.len());
        assert(s.take(i) =~= a);
        assert(s.skip(i + 1) =~= b);
        text::lemma_index_from(b, c, 0);
        let q = text::index_from(b, c, 0);
        if q < b.len() {
            assert(b.contains(b[q]));
        }
        assert(text::split(b, c) =~= seq![b]);
        assert(text::split(s, c) =~= text::split(a, c).push(b));
    }
}

proof fn lemma_filled_parts_are_items(ps: Seq<Seq<char>>)
    requires
        forall|i: int| 0 <= i < ps.len() ==> !(#[trigger] ps[i]).contains(','),
    ensures
        forall|i: int| 0 <= i < filled_parts(ps).len() ==> is_item(#[trigger] filled_parts(ps)[i]),
    decreases ps.len(),
{
    if ps.len() > 0 {
        let p = ps.drop_last();
        assert forall|i: int| 0 <= i < p.len() implies !(#[trigger] p[i]).contains(',') by {
            assert(p[i] == ps[i]);
        }
        lemma_filled_parts_are_items(p);
        let last = ps[ps.len() - 1];
        let t = text::trim(last);
        text::lemma_trim_idempotent(last);
        let k = text::lemma_trim_start_skip(last);
        let a = text::trim_start(last);
        let e = text::lemma_trim_end_take(a);
        assert forall|i: int| 0 <= i < t.len() implies t[i] != ',' by {
            assert(t[i] == a[i]);
            assert(a[i] == last[i + k]);
            assert(last.contains(last[i + k]));
        }
        let before = filled_parts(p);
        let r = filled_parts(ps);
        assert forall|i: int| 0 <= i < r.len() implies is_item(#[trigger] r[i]) by {
            if i < before.len() {
                assert(r[i] == before[i]);
            } else {
                assert(r[i] == t);
            }
        }
    }
}

proof fn lemma_dedup(items: Seq<Seq<char>>)
    ensures
        ({
            let r = dedup_ignoring_case(items);
            &&& has_no_repeats(r)
            &&& forall|i: int| 0 <= i < r.len() ==> items.contains(#[trigger] r[i])
            &&& is_in_order(items) ==> is_in_order(r)
            &&& items.len() > 0 ==> r.len() > 0
        }),
    decreases items.len(),
{
    let r = dedup_ignoring_case(items);
    if items.len() > 0 {
        let p = items.drop_last();
        let before = dedup_ignoring_case(p);
        let last = items.last();
        lemma_dedup(p);
        assert(items[items.len() - 1] == last);
        assert forall|i: int| 0 <= i < r.len() implies items.contains(#[trigger] r[i]) by {
            if i < before.len() {
                assert(r[i] == before[i]);
                assert(p.contains(before[i]));
                let k = choose|k: int| 0 <= k < p.len() && p[k] == before[i];
                assert(items[k] == r[i]);
            }
        }
        assert forall|i: int| 0 < i < r.len() implies !models::same_ignoring_case(
            r[i - 1],
            #[trigger] r[i],
        ) by {
            if i < before.len() {
                assert(!models::same_ignoring_case(before[i - 1], before[i]));
            }
        }
        if is_in_order(items) {
            assert forall|i: int, j: int| 0 <= i < j < p.len() implies !order::key_less(
                small_key(#[trigger] p[j]),
                small_key(#[trigger] p[i]),
            ) by {
                assert(p[i] == items[i] && p[j] == items[j]);
            }
            assert forall|i: int, j: int| 0 <= i < j < r.len() implies !order::key_less(
                small_key(#[trigger] r[j]),
                small_key(#[trigger] r[i]),
            ) by {
                if j < before.len() {
                    assert(r[i] == before[i] && r[j] == before[j]);
                } else {
                    assert(r[i] == before[i]);
                    assert(p.contains(before[i]));
                    let k = choose|k: int| 0 <= k < p.len() && p[k] == before[i];
                    assert(items[k] == r[i]);
                    assert(items[items.len() - 1] == r[j]);
                }
            }
        }
    }
}

proof fn lemma_dedup_keeps(items: Seq<Seq<char>>)
    requires
        has_no_repeats(items),
    ensures
        dedup_ignoring_case(items) == items,
    decreases items.len(),
{
    if items.len() > 0 {
        let p = items.drop_last();
        assert forall|i: int| 0 < i < p.len() implies !models::same_ignoring_case(
            p[i - 1],
            #[trigger] p[i],
        ) by {
            assert(p[i] == items[i]);
            assert(p[i - 1] == items[i - 1]);
        }
        lemma_dedup_keeps(p);
        if p.len() > 0 {
            assert(!models::same_ignoring_case(items[items.len() - 2], items[items.len() - 1]));
        }
        assert(p.push(items.last()) =~= items);
    } else {
        assert(dedup_ignoring_case(items) =~= items);
    }
}

proof fn lemma_sorted(items: Seq<Seq<char>>)
    ensures
        is_in_order(sorted_by_small(items)),
        forall|i: int|
            0 <= i < sorted_by_small(items).len() ==> items.contains(
                #[trigger] sorted_by_small(items)[i],
            ),
{
    let ks = items.map_values(|s: Seq<char>| small_key(s));
    let o = order::stable_order(ks);
    let r = sorted_by_small(items);
    order::law_stable_order(ks);
    assert forall|i: int| 0 <= i < r.len() implies items.contains(#[trigger] r[i]) by {
        assert(r[i] == items[o[i]]);
    }
    assert forall|i: int, j: int| 0 <= i < j < r.len() implies !order::key_less(
        small_key(#[trigger] r[j]),
        small_key(#[trigger] r[i]),
    ) by {
        assert(r[i] == items[o[i]] && r[j] == items[o[j]]);
        assert(ks[o[i]] == small_key(r[i]) && ks[o[j]] == small_key(r[j]));
        order::lemma_key_order(ks[o[i]], ks[o[j]], ks[o[i]]);
    }
}

proof fn lemma_sorted_stays(items: Seq<Seq<char>>)
    requires
        is_in_order(items),
    ensures
        sorted_by_small(items) == items,
{
    let ks = items.map_values(|s: Seq<char>| small_key(s));
    assert forall|i: int, j: int| 0 <= i < j < ks.len() implies !order::key_less(
        #[trigger] ks[j],
        #[trigger] ks[i],
    ) by {
        assert(ks[i] == small_key(items[i]) && ks[j] == small_key(items[j]));
    }
    order::lemma_order_of_ordered(ks);
    assert(sorted_by_small(items) =~= items);
}

proof fn lemma_one_part(s: Seq<char>)
    requires
        !s.contains(','),
    ensures
        csv_items(s) == (if text::trim(s).len() == 0 {
            Seq::empty()
        } else {
            seq![text::trim(s)]
        }),
{
    text::lemma_index_from(s, ',', 0);
    let i = text::index_from(s, ',', 0);
    if i < s.len() {
        assert(s.contains(s[i]));
    }
    let one = seq![s];
    assert(text::split(s, ',') == one);
    assert(one.drop_last() =~= Seq::<Seq<char>>::empty());
    assert(filled_parts(one.drop_last()) =~= Seq::<Seq<char>>::empty());
    assert(csv_items(s) =~= if text::trim(s).len() == 0 {
        Seq::empty()
    } else {
        seq![text::trim(s)]
    });
}

proof fn lemma_last_item(a: Seq<char>, last: Seq<char>)
    requires
        is_item(last),
    ensures
        csv_items(a + ", "@ + last) == csv_items(a).push(last),
{
    reveal_strlit(", ");
    let b = seq![' '] + last;
    assert(a + ", "@ + last =~= a.push(',') + b);
    assert forall|i: int| 0 <= i < b.len() implies b[i] != ',' by {
        if i > 0 {
            assert(last.contains(last[i - 1]));
        }
    }
    lemma_split_append(a, b, ',');
    let ps = text::split(a, ',');
    assert(ps.push(b).drop_last() =~= ps);
    assert(b.drop_first() =~= last);
    assert(text::trim_start(b) == text::trim_start(last));
    assert(text::trim(b) == last);
}

/// Items that were joined are read back.
pub proof fn lemma_joined_items(items: Seq<Seq<char>>)
    requires
        forall|i: int| 0 <= i < items.len() ==> is_item(#[trigger] items[i]),
    ensures
        csv_items(text::join(items, ", "@)) == items,
    decreases items.len(),
{
    if items.len() == 0 {
        lemma_one_part(Seq::empty());
        assert(csv_items(text::join(items, ", "@)) =~= items);
    } else {
        let last = items[items.len() - 1];
        assert(is_item(last));
        if items.len() == 1 {
            lemma_one_part(last);
            assert(seq![last] =~= items);
        } else {
            let p = items.drop_last();
            assert forall|i: int| 0 <= i < p.len() implies is_item(#[trigger] p[i]) by {
                assert(p[i] == items[i]);
            }
            lemma_joined_items(p);
            lemma_last_item(text::join(p, ", "@), last);
            assert(p.push(last) =~= items);
        }
    }
}

/// The items of a text are items.
pub proof fn lemma_csv_items(s: Seq<char>)
    ensures
        forall|i: int| 0 <= i < csv_items(s).len() ==> is_item(#[trigger] csv_items(s)[i]),
{
    lemma_split_has_no_separator(s, ',');
    lemma_filled_parts_are_items(text::split(s, ','));
}

/// There are no items in an empty text.
pub proof fn lemma_no_items()
    ensures
        csv_sorted(Seq::empty()) == Seq::<Seq<char>>::empty(),
{
    lemma_one_part(Seq::empty());
    let none = Seq::<Seq<char>>::empty();
    assert(csv_items(Seq::empty()) =~= none);
    lemma_sorted_stays(none);
    lemma_dedup_keeps(none);
}

/// A list in one text that was normalized once stays as it is.
pub proof fn law_lists_normalize_once(s: Seq<char>)
    ensures
        csv_sorted(text::join(csv_sorted(s), ", "@)) == csv_sorted(s),
{
    let items = csv_items(s);
    lemma_csv_items(s);
    let sorted = sorted_by_small(items);
    lemma_sorted(items);
    lemma_dedup(sorted);
    let r = csv_sorted(s);
    assert forall|i: int| 0 <= i < r.len() implies is_item(#[trigger] r[i]) by {
        assert(sorted.contains(r[i]));
        let k = choose|k: int| 0 <= k < sorted.len() && sorted[k] == r[i];
        assert(items.contains(sorted[k]));
        let m = choose|m: int| 0 <= m < items.len() && items[m] == sorted[k];
        assert(is_item(items[m]));
    }
    lemma_joined_items(r);
    lemma_sorted_stays(r);
    lemma_dedup_keeps(r);
}

} // verus!
