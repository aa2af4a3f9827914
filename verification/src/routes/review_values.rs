//! Values of a snapshot as a moderator sees them.

use vstd::prelude::*;

use crate::json::{self, Json, JsonView, array_texts, json_eq};
use crate::json_text::{self, write_json};
use crate::numbers::{self, write_i64};
use crate::order::{self, KeyView, SortKey, arrange, sort_positions};
use crate::text::{
    self, cat3, chars_eq, chars_find, chars_fold_crlf, chars_of, chars_trim, join_strings, str_eq,
    str_is_blank,
};
use crate::unicode::{self, to_lowercase};

verus! {

/// Stands between the stored comments and the submitted ones until a moderator has
/// merged them.
pub const COMMENTS_REVIEW_DELIMITER: &'static str =
    "--- REVIEW NEW COMMENTS BELOW - REMOVE THIS LINE BEFORE APPROVING ---";

/// The name that a field of a snapshot has in the form.
pub open spec fn form_field(name: Seq<char>) -> Seq<char> {
    if name == "cuesheet"@ {
        "cue"@
    } else if name == "dat"@ {
        "files_xml"@
    } else {
        name
    }
}

/// The name that a field of a snapshot has in the form.
pub fn template_field_name(field: &str) -> (r: String)
    ensures
        r@ == form_field(field@),
{
    if str_eq(field, "cuesheet") {
        String::from_str("cue")
    } else if str_eq(field, "dat") {
        String::from_str("files_xml")
    } else {
        String::from_str(field)
    }
}

/// A value that shows nothing.
pub open spec fn is_empty_value(v: JsonView) -> bool {
    match v {
        JsonView::Null => true,
        JsonView::Str(s) => text::is_blank(s),
        JsonView::Arr(a) => a.len() == 0,
        JsonView::Obj(o) => o.len() == 0,
        _ => false,
    }
}

/// Whether a value shows nothing.
pub fn is_empty_review_value(value: &Json) -> (r: bool)
    ensures
        r == is_empty_value(value@),
{
    match value {
        Json::Null => true,
        Json::Text(s) => str_is_blank(s.as_str()),
        Json::Array(a) => {
            proof {
                json::lemma_json_views(a@);
            }
            a.len() == 0
        },
        Json::Object(o) => o.is_empty(),
        _ => false,
    }
}

/// Two values are equal; texts up to the space around them and the kind of newlines.
pub open spec fn values_equal(a: JsonView, b: JsonView) -> bool {
    ||| json::same_value(a, b)
    ||| match (a, b) {
        (JsonView::Str(x), JsonView::Str(y)) => text::fold_crlf(text::trim(x)) == text::fold_crlf(text::trim(y)),
        _ => false,
    }
}

fn same_folded(a: &str, b: &str) -> (r: bool)
    ensures
        r == (text::fold_crlf(text::trim(a@)) == text::fold_crlf(text::trim(b@))),
{
    let x = chars_of(a);
    let y = chars_of(b);
    let fx = chars_fold_crlf(chars_trim(&x));
    let fy = chars_fold_crlf(chars_trim(&y));
    chars_eq(&fx, &fy)
}

/// Whether two values are equal to a moderator.
pub fn review_values_equal(old_value: &Json, new_value: &Json) -> (r: bool)
    ensures
        r == values_equal(old_value@, new_value@),
{
    if json_eq(old_value, new_value) {
        return true;
    }
    match (old_value, new_value) {
        (Json::Text(a), Json::Text(b)) => same_folded(a.as_str(), b.as_str()),
        _ => false,
    }
}

/// A value changed: it is not the same, and not empty on both sides.
pub open spec fn value_changed(a: JsonView, b: JsonView) -> bool {
    !(is_empty_value(a) && is_empty_value(b)) && !values_equal(a, b)
}

/// Whether a value changed.
pub fn review_value_changed(old_value: &Json, new_value: &Json) -> (r: bool)
    ensures
        r == value_changed(old_value@, new_value@),
{
    if is_empty_review_value(old_value) && is_empty_review_value(new_value) {
        return false;
    }
    !review_values_equal(old_value, new_value)
}

/// A value as text: a list shows those of its elements that show anything.
pub open spec fn display_value(v: JsonView) -> Seq<char>
    decreases v,
{
    match v {
        JsonView::Null => Seq::empty(),
        JsonView::Str(s) => s,
        JsonView::Arr(list) => text::join(display_values(list), ", "@),
        _ => json_text::json_text(v),
    }
}

/// What the elements of a list show, without those that show nothing.
pub open spec fn display_values(list: Seq<JsonView>) -> Seq<Seq<char>>
    decreases list,
{
    if list.len() == 0 {
        Seq::empty()
    } else {
        let before = display_values(list.drop_last());
        let s = display_value(list.last());
        if text::is_blank(s) {
            before
        } else {
            before.push(s)
        }
    }
}

/// A value as text.
pub fn review_display_value(value: &Json) -> (r: String)
    ensures
        r@ == display_value(value@),
    decreases value,
{
    match value {
        Json::Null => String::new(),
        Json::Text(s) => s.clone(),
        Json::Array(list) => {
            let ghost all = json::json_views(list@);
            let mut out: Vec<String> = Vec::new();
            proof {
                json::lemma_json_views(list@);
                assert(all.take(0) =~= Seq::<JsonView>::empty());
                assert(text::texts(out@) =~= Seq::<Seq<char>>::empty());
            }
            for i in 0..list.len()
                invariant
                    all == json::json_views(list@),
                    all.len() == list@.len(),
                    forall|k: int| 0 <= k < list@.len() ==> #[trigger] all[k] == list@[k]@,
                    text::texts(out@) == display_values(all.take(i as int)),
                    decreases_to!(value => list@),
            {
                proof {
                    let t = all.take(i + 1);
                    assert(t.drop_last() =~= all.take(i as int));
                    assert(t.last() == list@[i as int]@);
                }
                let s = review_display_value(&list[i]);
                if !str_is_blank(s.as_str()) {
                    let ghost before = out@;
                    out.push(s);
                    assert(text::texts(out@) =~= text::texts(before).push(s@));
                }
            }
            assert(all.take(all.len() as int) =~= all);
            join_strings(&out, ", ")
        },
        other => write_json(other),
    }
}

/// What an annotation shows: the value, or that it is empty.
pub open spec fn shown_or_empty(s: Seq<char>) -> Seq<char> {
    if text::is_blank(s) {
        "(empty)"@
    } else {
        s
    }
}

/// A text, or that it is empty.
pub fn or_empty(s: String) -> (r: String)
    ensures
        r@ == shown_or_empty(s@),
{
    if str_is_blank(s.as_str()) {
        String::from_str("(empty)")
    } else {
        s
    }
}

/// What an annotation shows of a value.
pub fn review_annotation_value(value: &Json) -> (r: String)
    ensures
        r@ == shown_or_empty(display_value(value@)),
{
    or_empty(review_display_value(value))
}

// ── Sets ───────────────────────────────────────────────────────────────────

/// The values that are not among the others.
pub open spec fn not_among(values: Seq<Seq<char>>, others: Seq<Seq<char>>) -> Seq<Seq<char>>
    decreases values.len(),
{
    if values.len() == 0 {
        Seq::empty()
    } else {
        let before = not_among(values.drop_last(), others);
        if others.contains(values.last()) {
            before
        } else {
            before.push(values.last())
        }
    }
}

/// Texts in the order of their small forms.
pub open spec fn by_small_form(v: Seq<Seq<char>>) -> Seq<Seq<char>> {
    order::arranged(
        v,
        order::stable_order(
            v.map_values(|s: Seq<char>| KeyView { rank: 0, texts: seq![unicode::lowercase(s)], last: 0 }),
        ),
    )
}

fn among(values: &Vec<String>, x: &str) -> (r: bool)
    ensures
        r == text::texts(values@).contains(x@),
{
    let ghost all = text::texts(values@);
    for i in 0..values.len()
        invariant
            all == text::texts(values@),
            forall|k: int| 0 <= k < i ==> #[trigger] all[k] != x@,
    {
        assert(all[i as int] == values@[i as int]@);
        if str_eq(values[i].as_str(), x) {
            assert(all.contains(all[i as int]));
            return true;
        }
    }
    false
}

fn leave_out(values: &Vec<String>, others: &Vec<String>) -> (r: Vec<String>)
    ensures
        text::texts(r@) == not_among(text::texts(values@), text::texts(others@)),
{
    let ghost all = text::texts(values@);
    let mut out: Vec<String> = Vec::new();
    assert(all.take(0) =~= Seq::<Seq<char>>::empty());
    assert(text::texts(out@) =~= Seq::<Seq<char>>::empty());
    for i in 0..values.len()
        invariant
            all == text::texts(values@),
            text::texts(out@) == not_among(all.take(i as int), text::texts(others@)),
    {
        proof {
            assert(all.take(i + 1).drop_last() =~= all.take(i as int));
            assert(all.take(i + 1).last() == values@[i as int]@);
        }
        if !among(others, values[i].as_str()) {
            let ghost before = out@;
            out.push(values[i].clone());
            assert(text::texts(out@) =~= text::texts(before).push(values@[i as int]@));
        }
    }
    assert(all.take(all.len() as int) =~= all);
    out
}

fn sort_by_small_form(values: Vec<String>) -> (r: Vec<String>)
    ensures
        text::texts(r@) == by_small_form(text::texts(values@)),
{
    let ghost all = text::texts(values@);
    let ghost ks = all.map_values(
        |s: Seq<char>| KeyView { rank: 0, texts: seq![unicode::lowercase(s)], last: 0 },
    );
    let mut keys: Vec<SortKey> = Vec::new();
    for i in 0..values.len()
        invariant
            all == text::texts(values@),
            ks == all.map_values(
                |s: Seq<char>| KeyView { rank: 0, texts: seq![unicode::lowercase(s)], last: 0 },
            ),
            keys@.len() == i,
            order::key_views(keys@) == ks.take(i as int),
    {
        let mut ts: Vec<String> = Vec::new();
        ts.push(to_lowercase(values[i].as_str()));
        let key = SortKey { rank: 0, texts: ts, last: 0 };
        let ghost before = keys@;
        assert(text::texts(ts@) =~= seq![unicode::lowercase(all[i as int])]);
        assert(key@ == ks[i as int]);
        keys.push(key);
        assert(order::key_views(keys@) =~= order::key_views(before).push(key@));
        assert(ks.take(i + 1) =~= ks.take(i as int).push(ks[i as int]));
    }
    assert(ks.take(ks.len() as int) =~= ks);
    let order = sort_positions(&keys);
    let sorted = arrange(values, &order);
    assert(text::texts(sorted@) =~= by_small_form(all));
    sorted
}

/// What a set gained and what it lost, each in the order of the small forms. Values with
/// the same small form keep the order in which they were given.
pub fn set_added_removed(old_values: &Vec<String>, new_values: &Vec<String>) -> (r: (
    Vec<String>,
    Vec<String>,
))
    ensures
        text::texts(r.0@) == by_small_form(not_among(text::texts(new_values@), text::texts(old_values@))),
        text::texts(r.1@) == by_small_form(not_among(text::texts(old_values@), text::texts(new_values@))),
{
    let added = leave_out(new_values, old_values);
    let removed = leave_out(old_values, new_values);
    (sort_by_small_form(added), sort_by_small_form(removed))
}

/// The texts of a list.
pub fn array_strings(value: &Json) -> (r: Vec<String>)
    ensures
        text::texts(r@) == json::list_texts(json::list_or_empty(value@)),
{
    match value {
        Json::Array(l) => array_texts(l),
        _ => {
            let none: Vec<String> = Vec::new();
            assert(text::texts(none@) =~= Seq::<Seq<char>>::empty());
            none
        },
    }
}

// ── Several lines ──────────────────────────────────────────────────────────

/// A number of a range; what is no number is nought.
pub open spec fn bound(v: JsonView) -> int {
    match json::as_int(v) {
        Some(n) => n,
        None => 0,
    }
}

/// A range of sectors.
pub open spec fn range_line(v: JsonView) -> Seq<char> {
    numbers::int_text(bound(json::field(v, "start"@))) + "-"@ + numbers::int_text(bound(json::field(v, "end"@)))
}

/// Ranges of sectors, one in a line.
pub open spec fn ranges_text(v: JsonView) -> Seq<char> {
    text::join(json::list_or_empty(v).map_values(|r: JsonView| range_line(r)), "\n"@)
}

fn read_bound(v: &Json) -> (r: i64)
    ensures
        r == bound(v@),
{
    match v.as_i64() {
        Some(n) => n,
        None => 0,
    }
}

/// Ranges of sectors, one in a line.
pub fn sector_ranges_display(value: &Json) -> (r: String)
    ensures
        r@ == ranges_text(value@),
{
    let ghost all = json::list_or_empty(value@).map_values(|r: JsonView| range_line(r));
    let mut out: Vec<String> = Vec::new();
    match value {
        Json::Array(list) => {
            proof {
                json::lemma_json_views(list@);
                assert(all.take(0) =~= text::texts(out@));
            }
            for i in 0..list.len()
                invariant
                    all == json::json_views(list@).map_values(|r: JsonView| range_line(r)),
                    json::json_views(list@).len() == list@.len(),
                    forall|k: int|
                        0 <= k < list@.len() ==> #[trigger] json::json_views(list@)[k] == list@[k]@,
                    text::texts(out@) == all.take(i as int),
            {
                let a = write_i64(read_bound(list[i].field("start")));
                let b = write_i64(read_bound(list[i].field("end")));
                let line = cat3(a.as_str(), "-", b.as_str());
                assert(json::json_views(list@)[i as int] == list@[i as int]@);
                assert(line@ == all[i as int]);
                let ghost before = out@;
                out.push(line);
                assert(text::texts(out@) =~= text::texts(before).push(line@));
                assert(all.take(i + 1) =~= all.take(i as int).push(all[i as int]));
            }
            assert(all.take(all.len() as int) =~= all);
        },
        _ => {
            assert(text::texts(out@) =~= all);
        },
    }
    join_strings(&out, "\n")
}

/// A value that may have several lines.
pub open spec fn multiline_value(name: Seq<char>, v: JsonView) -> Seq<char> {
    if name == "sector_ranges"@ {
        ranges_text(v)
    } else {
        display_value(v)
    }
}

/// A value that may have several lines.
pub fn multiline_display_value(field: &str, value: &Json) -> (r: String)
    ensures
        r@ == multiline_value(field@, value@),
{
    if str_eq(field, "sector_ranges") {
        sector_ranges_display(value)
    } else {
        review_display_value(value)
    }
}

// ── Comments ───────────────────────────────────────────────────────────────

/// The stored comments, the delimiter and the submitted comments, with what is blank
/// left out.
pub open spec fn review_comments(stored: JsonView, submitted: JsonView) -> Seq<char> {
    let a = display_value(stored);
    let b = display_value(submitted);
    text::join(
        (if text::is_blank(a) {
            Seq::empty()
        } else {
            seq![a]
        }) + seq![COMMENTS_REVIEW_DELIMITER@] + (if text::is_blank(b) {
            Seq::empty()
        } else {
            seq![b]
        }),
        "\n\n"@,
    )
}

/// The comments that a moderator is to merge.
pub fn compose_review_comments(stored: &Json, submitted: &Json) -> (r: String)
    ensures
        r@ == review_comments(stored@, submitted@),
{
    let a = review_display_value(stored);
    let b = review_display_value(submitted);
    let ghost va = a@;
    let ghost vb = b@;
    let mut sections: Vec<String> = Vec::new();
    if !str_is_blank(a.as_str()) {
        sections.push(a);
    }
    sections.push(String::from_str(COMMENTS_REVIEW_DELIMITER));
    if !str_is_blank(b.as_str()) {
        sections.push(b);
    }
    assert(text::texts(sections@) =~= (if text::is_blank(va) {
        Seq::empty()
    } else {
        seq![va]
    }) + seq![COMMENTS_REVIEW_DELIMITER@] + (if text::is_blank(vb) {
        Seq::empty()
    } else {
        seq![vb]
    }));
    join_strings(&sections, "\n\n")
}

/// Comments that nobody has merged yet.
pub open spec fn unmerged(comments: Option<Seq<char>>) -> bool {
    match comments {
        Some(c) => text::find(c, COMMENTS_REVIEW_DELIMITER@) is Some,
        None => false,
    }
}

/// Whether comments still hold the delimiter.
pub fn comments_text_contains_review_delimiter(comments: Option<&str>) -> (r: bool)
    ensures
        r == unmerged(text::opt_str(comments)),
{
    match comments {
        Some(c) => {
            let chars = chars_of(c);
            chars_find(&chars, COMMENTS_REVIEW_DELIMITER).is_some()
        },
        None => false,
    }
}

// ── Laws ───────────────────────────────────────────────────────────────────

/// Comments that were put before a moderator cannot be approved as they are: they still
/// hold the delimiter.
pub proof fn law_composed_comments_are_unmerged(stored: JsonView, submitted: JsonView)
    ensures
        unmerged(Some(review_comments(stored, submitted))),
{
    let a = display_value(stored);
    let b = display_value(submitted);
    let d = COMMENTS_REVIEW_DELIMITER@;
    let sep = "\n\n"@;
    let head = (if text::is_blank(a) {
        Seq::empty()
    } else {
        seq![a]
    }) + seq![d];
    let tail = if text::is_blank(b) {
        Seq::empty()
    } else {
        seq![b]
    };
    let all = review_comments(stored, submitted);
    let k: int = if text::is_blank(a) {
        0
    } else {
        (a.len() + sep.len()) as int
    };
    reveal_with_fuel(text::join, 4);
    let front = if text::is_blank(a) {
        d
    } else {
        a + sep + d
    };
    if text::is_blank(a) {
        assert(head =~= seq![d]);
    } else {
        assert(head =~= seq![a, d]);
        assert(head.drop_last() =~= seq![a]);
    }
    assert(text::join(head, sep) == front);
    if text::is_blank(b) {
        assert(head + tail =~= head);
        assert(all == front);
    } else {
        assert((head + tail).drop_last() =~= head);
        assert(all == front + sep + b);
    }
    assert(all.subrange(k, k + d.len()) =~= d);
    assert(text::stands_at(all, d, k));
    text::lemma_find_from(all, d, 0);
}

/// A value is gained exactly if it is there now and was not there before.
pub proof fn law_gained_values(old_values: Seq<Seq<char>>, new_values: Seq<Seq<char>>, v: Seq<char>)
    ensures
        not_among(new_values, old_values).contains(v) <==> new_values.contains(v)
            && !old_values.contains(v),
    decreases new_values.len(),
{
    if new_values.len() > 0 {
        let front = new_values.drop_last();
        let x = new_values.last();
        law_gained_values(old_values, front, v);
        assert(new_values =~= front.push(x));
        let before = not_among(front, old_values);
        if v == x {
            assert(new_values[new_values.len() - 1] == v);
        }
        if front.contains(v) {
            let k = choose|k: int| 0 <= k < front.len() && front[k] == v;
            assert(new_values[k] == v);
        }
        if new_values.contains(v) && v != x {
            let k = choose|k: int| 0 <= k < new_values.len() && new_values[k] == v;
            assert(front[k] == v);
        }
        if !old_values.contains(x) {
            let after = before.push(x);
            if before.contains(v) {
                let k = choose|k: int| 0 <= k < before.len() && before[k] == v;
                assert(after[k] == v);
            }
            if v == x {
                assert(after[before.len() as int] == v);
            }
            if after.contains(v) && v != x {
                let k = choose|k: int| 0 <= k < after.len() && after[k] == v;
                assert(before[k] == v);
            }
        }
    }
}

} // verus!
