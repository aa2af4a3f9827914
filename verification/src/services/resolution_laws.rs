//! What approving a submission does to a disc.

use vstd::prelude::*;

use crate::error::ErrorView;
use crate::hex_case;
use crate::json::{self, JsonView};
use crate::models::{DiscStatus, SubmissionType};
use crate::services::changes;
use crate::services::disc_snapshot;
use crate::services::pressing_laws;
use crate::services::resolution;
use crate::text;

verus! {

/// A field that holds one value: neither a set of texts nor the pressings.
pub open spec fn is_scalar_field(key: Seq<char>) -> bool {
    !resolution::is_set_field(key) && key != "ring_codes"@
}

proof fn lemma_one_change(es: Seq<(Seq<char>, JsonView)>, key: Seq<char>, node: JsonView)
    ensures
        resolution::entries_after(es, seq![(key, node)]) == (match resolution::field_after(es, key, node) {
            Ok(v) => Ok::<Seq<(Seq<char>, JsonView)>, ErrorView>(json::put(es, key, v)),
            Err(e) => Err(e),
        }),
{
    let cs = seq![(key, node)];
    assert(cs.drop_first() =~= Seq::<(Seq<char>, JsonView)>::empty());
    reveal_with_fuel(resolution::entries_after, 2);
}

proof fn lemma_cased_lookup(es: Seq<(Seq<char>, JsonView)>, key: Seq<char>)
    ensures
        json::get(hex_case::cased_snapshot(JsonView::Obj(es)), key) == (match json::lookup(es, key) {
            Some(x) => Some(hex_case::cased_value(key, x)),
            None => None,
        }),
    decreases es.len(),
{
    let cs = es.map_values(|e: (Seq<char>, JsonView)| (e.0, hex_case::cased_value(e.0, e.1)));
    if es.len() > 0 {
        lemma_cased_lookup(es.drop_first(), key);
        assert(cs.drop_first() =~= es.drop_first().map_values(
            |e: (Seq<char>, JsonView)| (e.0, hex_case::cased_value(e.0, e.1)),
        ));
        assert(cs[0] == (es[0].0, hex_case::cased_value(es[0].0, es[0].1)));
    }
}

/// A value that is added, or put in the place of another, is what the disc then has in that
/// field, with its hexadecimal digits in their case; every other field stays.
pub proof fn law_given_values_are_taken(
    es: Seq<(Seq<char>, JsonView)>,
    key: Seq<char>,
    old: JsonView,
    new: JsonView,
    other: Seq<char>,
)
    requires
        is_scalar_field(key),
        other != key,
    ensures
        resolution::resolved(JsonView::Obj(es), pressing_laws::one(key, pressing_laws::adding(new))) matches Ok(v) && json::get(v, key) == Some(
            hex_case::cased_value(key, new),
        ) && json::get(v, other) == json::get(hex_case::cased_snapshot(JsonView::Obj(es)), other),
        resolution::resolved(JsonView::Obj(es), pressing_laws::one(key, pressing_laws::replacing(old, new))) matches Ok(v) && json::get(v, key)
            == Some(hex_case::cased_value(key, new)) && json::get(v, other) == json::get(
            hex_case::cased_snapshot(JsonView::Obj(es)),
            other,
        ),
{
    pressing_laws::law_operations_give_their_value(old, new);
    lemma_one_change(es, key, pressing_laws::adding(new));
    lemma_one_change(es, key, pressing_laws::replacing(old, new));
    json::lemma_lookup_put(es, key, new, key);
    json::lemma_lookup_put(es, key, new, other);
    lemma_cased_lookup(json::put(es, key, new), key);
    lemma_cased_lookup(json::put(es, key, new), other);
    lemma_cased_lookup(es, other);
}

/// A value that is removed leaves nothing in a field that may be empty; no other field can
/// be emptied.
pub proof fn law_removed_values_are_gone(
    es: Seq<(Seq<char>, JsonView)>,
    key: Seq<char>,
    old: JsonView,
)
    requires
        is_scalar_field(key),
    ensures
        changes::nullable(key) ==> (resolution::resolved(JsonView::Obj(es), pressing_laws::one(key, pressing_laws::removing(old))) matches Ok(v)
            && json::get(v, key) == Some(JsonView::Null)),
        !changes::nullable(key) ==> resolution::resolved(JsonView::Obj(es), pressing_laws::one(key, pressing_laws::removing(old))) is Err,
{
    pressing_laws::law_operations_give_their_value(old, old);
    lemma_one_change(es, key, pressing_laws::removing(old));
    json::lemma_lookup_put(es, key, JsonView::Null, key);
    lemma_cased_lookup(json::put(es, key, JsonView::Null), key);
}

/// A disc always has a title, a system, a medium, a category and a status.
pub proof fn law_what_a_disc_cannot_lack()
    ensures
        !changes::nullable("title"@),
        !changes::nullable("system_code"@),
        !changes::nullable("media_type"@),
        !changes::nullable("category"@),
        !changes::nullable("status"@),
        !changes::nullable("edc"@),
{
    lemma_nullable_names();
    reveal_strlit("title");
    reveal_strlit("system_code");
    reveal_strlit("disc_number");
    reveal_strlit("error_count");
    reveal_strlit("layerbreaks");
    reveal_strlit("media_type");
    reveal_strlit("category");
    reveal_strlit("status");
    reveal_strlit("edc");
    reveal_strlit("header");
    reveal_strlit("disc_title");
    reveal_strlit("protection");
    reveal_strlit("exe_date");
    reveal_strlit("comments");
    reveal_strlit("contents");
    reveal_strlit("disc_key");
    reveal_strlit("cuesheet");
    reveal_strlit("sbi");
    reveal_strlit("pvd");
    reveal_strlit("bca");
    reveal_strlit("pic");
    reveal_strlit("dat");
    assert("title"@.len() == 5 && "system_code"@.len() == 11 && "media_type"@.len() == 10);
    assert("category"@.len() == 8 && "status"@.len() == 6 && "edc"@.len() == 3);
    assert("system_code"@[0] == 's' && "disc_number"@[0] == 'd' && "error_count"@[0] == 'e');
    assert("layerbreaks"@[0] == 'l' && "status"@[0] == 's' && "header"@[0] == 'h');
    assert("media_type"@[0] == 'm' && "disc_title"@[0] == 'd' && "protection"@[0] == 'p');
    assert("category"@[1] == 'a' && "exe_date"@[1] == 'x' && "comments"@[1] == 'o');
    assert("contents"@[1] == 'o' && "disc_key"@[1] == 'i' && "cuesheet"@[1] == 'u');
    assert("edc"@[1] == 'd' && "sbi"@[1] == 'b' && "pvd"@[1] == 'v' && "bca"@[1] == 'c');
    assert("pic"@[1] == 'i' && "dat"@[1] == 'a');
}

proof fn lemma_nullable_names()
    ensures
        "title_foreign"@.len() == 13,
        "disc_number"@.len() == 11,
        "disc_title"@.len() == 10,
        "filename_suffix"@.len() == 15,
        "version"@.len() == 7,
        "error_count"@.len() == 11,
        "exe_date"@.len() == 8,
        "comments"@.len() == 8,
        "contents"@.len() == 8,
        "protection"@.len() == 10,
        "sector_ranges"@.len() == 13,
        "sbi"@.len() == 3,
        "disc_id"@.len() == 7,
        "disc_key"@.len() == 8,
        "universal_hash"@.len() == 14,
        "pvd"@.len() == 3,
        "header"@.len() == 6,
        "bca"@.len() == 3,
        "pic"@.len() == 3,
        "cuesheet"@.len() == 8,
        "dat"@.len() == 3,
        "layerbreaks"@.len() == 11,
{
    reveal_strlit("title_foreign");
    reveal_strlit("disc_number");
    reveal_strlit("disc_title");
    reveal_strlit("filename_suffix");
    reveal_strlit("version");
    reveal_strlit("error_count");
    reveal_strlit("exe_date");
    reveal_strlit("comments");
    reveal_strlit("contents");
    reveal_strlit("protection");
    reveal_strlit("sector_ranges");
    reveal_strlit("sbi");
    reveal_strlit("disc_id");
    reveal_strlit("disc_key");
    reveal_strlit("universal_hash");
    reveal_strlit("pvd");
    reveal_strlit("header");
    reveal_strlit("bca");
    reveal_strlit("pic");
    reveal_strlit("cuesheet");
    reveal_strlit("dat");
    reveal_strlit("layerbreaks");
}

/// A set that changes has the values that are added and not those that are removed.
pub proof fn law_sets_change(
    es: Seq<(Seq<char>, JsonView)>,
    key: Seq<char>,
    added: Seq<char>,
    removed: Seq<char>,
    x: Seq<char>,
)
    requires
        resolution::is_set_field(key),
        !text::is_blank(added),
        added != removed,
    ensures
        ({
            let old = json::list_texts(json::list_or_empty(json::field(JsonView::Obj(es), key)));
            let node = JsonView::Obj(
                seq![
                    ("add"@, JsonView::Arr(seq![JsonView::Str(added)])),
                    ("remove"@, JsonView::Arr(seq![JsonView::Str(removed)])),
                ],
            );
            &&& changes::set_change(old, node) is Ok
            &&& changes::set_change(old, node)->Ok_0.contains(added)
            &&& !changes::set_change(old, node)->Ok_0.contains(removed)
            &&& x != added && x != removed ==> (changes::set_change(old, node)->Ok_0.contains(x)
                <==> old.contains(x))
            &&& resolution::field_after(es, key, node) == Ok::<JsonView, ErrorView>(
                disc_snapshot::text_values(changes::set_change(old, node)->Ok_0),
            )
        }),
{
    let old = json::list_texts(json::list_or_empty(json::field(JsonView::Obj(es), key)));
    let a = JsonView::Arr(seq![JsonView::Str(added)]);
    let r = JsonView::Arr(seq![JsonView::Str(removed)]);
    let ns = seq![("add"@, a), ("remove"@, r)];
    pressing_laws::lemma_operation_names();
    pressing_laws::lemma_lookup_two("add"@, a, "remove"@, r, "add"@);
    pressing_laws::lemma_lookup_two("add"@, a, "remove"@, r, "remove"@);
    lemma_one_text(added);
    lemma_one_text(removed);
    assert(!changes::has_unknown_set_op(ns)) by {
        assert(ns[0].0 == "add"@ && ns[1].0 == "remove"@);
    }
    changes::law_set_change_members(old, seq![removed], seq![added], added);
    changes::law_set_change_members(old, seq![removed], seq![added], removed);
    changes::law_set_change_members(old, seq![removed], seq![added], x);
    assert(seq![added][0] == added);
    assert(seq![removed][0] == removed);
    assert(seq![added].contains(added));
    assert(seq![removed].contains(removed));
}

proof fn lemma_one_text(x: Seq<char>)
    ensures
        changes::all_texts(seq![JsonView::Str(x)]) == Some(seq![x]),
{
    let l = seq![JsonView::Str(x)];
    assert(l.drop_last() =~= Seq::<JsonView>::empty());
    reveal_with_fuel(changes::all_texts, 2);
    assert(Seq::<Seq<char>>::empty().push(x) =~= seq![x]);
}

// ── The status of a disc ───────────────────────────────────────────────────

/// The status that a disc has behind an approval that names none: a new disc is unverified,
/// and a verification verifies a disc that was unverified or questionable.
pub proof fn law_status_of_an_approval(target: DiscStatus)
    ensures
        resolution::automatic_status(None) matches Some(node) && changes::scalar_op(node) == Ok::<
            Option<JsonView>,
            ErrorView,
        >(Some(JsonView::Str(DiscStatus::Unverified.name()))),
        target == DiscStatus::Unverified || target == DiscStatus::Questionable ==> (
        resolution::automatic_status(Some(target)) matches Some(node) && changes::scalar_op(node) == Ok::<
            Option<JsonView>,
            ErrorView,
        >(Some(JsonView::Str(DiscStatus::Verified.name())))),
        target == DiscStatus::Verified || target == DiscStatus::Disabled ==> resolution::automatic_status(
            Some(target),
        ) is None,
{
    pressing_laws::lemma_operation_names();
    let none = Seq::<(Seq<char>, JsonView)>::empty();
    let u = JsonView::Str("Unverified"@);
    let v = JsonView::Str("Verified"@);
    let o = JsonView::Str(target.name());
    lemma_put_one("add"@, resolution::single("new"@, u));
    lemma_put_one("new"@, u);
    pressing_laws::law_operations_give_their_value(o, u);
    lemma_put_one("old"@, o);
    let m = json::put(json::put(none, "old"@, o), "new"@, v);
    lemma_put_one("modify"@, JsonView::Obj(m));
    lemma_put_two(o, v);
    pressing_laws::law_operations_give_their_value(o, v);
    lemma_modify(m);
}

proof fn lemma_put_one(key: Seq<char>, v: JsonView)
    ensures
        json::put(Seq::empty(), key, v) == seq![(key, v)],
{
    let none = Seq::<(Seq<char>, JsonView)>::empty();
    reveal_with_fuel(json::put, 2);
    assert(json::put(none, key, v) =~= seq![(key, v)]);
}

proof fn lemma_put_two(o: JsonView, v: JsonView)
    ensures
        ({
            let m = json::put(json::put(Seq::empty(), "old"@, o), "new"@, v);
            m.len() == 2 && json::lookup(m, "old"@) == Some(o) && json::lookup(m, "new"@) == Some(v)
        }),
{
    pressing_laws::lemma_operation_names();
    lemma_put_one("old"@, o);
    let a = seq![("old"@, o)];
    pressing_laws::lemma_lookup_one("old"@, o, "old"@);
    json::lemma_lookup_put(a, "new"@, v, "old"@);
    json::lemma_lookup_put(a, "new"@, v, "new"@);
    reveal_with_fuel(json::put, 3);
}

proof fn lemma_modify(m: Seq<(Seq<char>, JsonView)>)
    requires
        m.len() == 2,
        json::lookup(m, "old"@) is Some,
        json::lookup(m, "new"@) is Some,
    ensures
        changes::scalar_op(JsonView::Obj(seq![("modify"@, JsonView::Obj(m))])) == Ok::<
            Option<JsonView>,
            ErrorView,
        >(json::lookup(m, "new"@)),
{
    pressing_laws::lemma_operation_names();
    let es = seq![("modify"@, JsonView::Obj(m))];
    pressing_laws::lemma_lookup_one("modify"@, JsonView::Obj(m), "add"@);
    pressing_laws::lemma_lookup_one("modify"@, JsonView::Obj(m), "modify"@);
    pressing_laws::lemma_lookup_one("modify"@, JsonView::Obj(m), "remove"@);
    assert(!changes::has_unknown_op(es)) by {
        assert(es[0].0 == "modify"@);
    }
}

/// An approval of a disc that names no status applies the status of an approval and the
/// changes that were made; one of an edit applies these alone.
pub proof fn law_approval_adds_the_status(
    target: Option<DiscStatus>,
    cs: Seq<(Seq<char>, JsonView)>,
    key: Seq<char>,
)
    requires
        json::lookup(cs, "status"@) is None,
        key != "status"@,
    ensures
        ({
            let c = resolution::approved_changes(SubmissionType::Disc, target, JsonView::Obj(cs));
            &&& c is Ok
            &&& json::get(c->Ok_0, "status"@) == resolution::automatic_status(target)
            &&& json::get(c->Ok_0, key) == json::lookup(cs, key)
        }),
        resolution::approved_changes(SubmissionType::Edit, target, JsonView::Obj(cs)) == Ok::<
            JsonView,
            ErrorView,
        >(JsonView::Obj(cs)),
{
    if let Some(s) = resolution::automatic_status(target) {
        json::lemma_lookup_put(cs, "status"@, s, "status"@);
        json::lemma_lookup_put(cs, "status"@, s, key);
    }
}

/// The status that a submitter gave is kept where the review gives none, and the one that
/// the review gives where it gives one.
pub proof fn law_submitted_status_is_kept(
    submitted: JsonView,
    cs: Seq<(Seq<char>, JsonView)>,
    s: JsonView,
    key: Seq<char>,
)
    requires
        key != "status"@,
    ensures
        json::lookup(cs, "status"@) is None && json::get(submitted, "status"@) == Some(s) ==> ({
            let c = resolution::status_preserved(SubmissionType::Disc, submitted, JsonView::Obj(cs));
            &&& c is Ok
            &&& json::get(c->Ok_0, "status"@) == Some(s)
            &&& json::get(c->Ok_0, key) == json::lookup(cs, key)
        }),
        json::lookup(cs, "status"@) is Some || json::get(submitted, "status"@) is None ==> resolution::status_preserved(
            SubmissionType::Disc,
            submitted,
            JsonView::Obj(cs),
        ) == Ok::<JsonView, ErrorView>(JsonView::Obj(cs)),
        resolution::status_preserved(SubmissionType::Edit, submitted, JsonView::Obj(cs)) == Ok::<
            JsonView,
            ErrorView,
        >(JsonView::Obj(cs)),
{
    json::lemma_lookup_put(cs, "status"@, s, "status"@);
    json::lemma_lookup_put(cs, "status"@, s, key);
}

} // verus!
